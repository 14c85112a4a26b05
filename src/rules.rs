use vstd::prelude::*;
use crate::types::{CastlingRights, Color, Move, Piece, PieceKind, Square, opponent};
use crate::board::{
    BoardModel, abs, at, attacked, copy_board, forward, get, in_check, is_attacked, is_in_check,
    on_board, piece_reaches, reaches,
};

verus! {

/// Everything that decides which moves are available: the board, the side to
/// move, the castling rights and the en-passant target.
pub struct Position {
    pub board: Vec<Option<Piece>>,
    pub side_to_move: Color,
    pub castling: CastlingRights,
    pub en_passant: Option<Square>,
}

impl Position {
    pub open spec fn wf(&self) -> bool {
        self.board@.len() == 64 && (self.en_passant is Some ==> self.en_passant->0.valid())
    }
}

pub open spec fn sq_index(s: Square) -> int {
    s.rank as int * 8 + s.file as int
}

pub open spec fn sq_at(b: BoardModel, s: Square) -> Option<Piece> {
    at(b, s.file as int, s.rank as int)
}

pub open spec fn home_rank(c: Color) -> int {
    match c {
        Color::White => 0,
        Color::Black => 7,
    }
}

pub open spec fn pawn_start(c: Color) -> int {
    match c {
        Color::White => 1,
        Color::Black => 6,
    }
}

pub open spec fn last_rank(c: Color) -> int {
    match c {
        Color::White => 7,
        Color::Black => 0,
    }
}

/// A pawn that reaches the far rank names a Queen, Rook, Bishop or Knight;
/// elsewhere no promotion is named.
pub open spec fn promotion_ok(c: Color, r2: int, promo: Option<PieceKind>) -> bool {
    if r2 == last_rank(c) {
        promo is Some && promo->0 != PieceKind::Pawn && promo->0 != PieceKind::King
    } else {
        promo is None
    }
}

/// No castling, no en passant, no promotion.
pub open spec fn plain(m: Move) -> bool {
    !m.is_castle && !m.is_en_passant && m.promotion is None
}

/// The shape of a castling move for side `c`: rights held, the squares between
/// king and rook empty, the rook in its corner.
pub open spec fn castle_ok(pos: Position, c: Color, m: Move) -> bool {
    let b = pos.board@;
    let h = home_rank(c);
    let rook = Some(Piece { color: c, kind: PieceKind::Rook });
    !m.is_en_passant && m.promotion is None && m.from.file == 4 && m.from.rank as int == h
        && m.to.rank == m.from.rank && ((m.to.file == 6 && pos.castling.king_side(c) && at(
        b,
        5,
        h,
    ) is None && at(b, 6, h) is None && at(b, 7, h) == rook) || (m.to.file == 2
        && pos.castling.queen_side(c) && at(b, 1, h) is None && at(b, 2, h) is None && at(b, 3, h)
        is None && at(b, 0, h) == rook))
}

/// The moves of a pawn: single and double push onto empty squares, diagonal
/// captures, en passant onto the target square.
pub open spec fn pawn_ok(pos: Position, p: Piece, m: Move) -> bool {
    let b = pos.board@;
    let f1 = m.from.file as int;
    let r1 = m.from.rank as int;
    let f2 = m.to.file as int;
    let r2 = m.to.rank as int;
    let target = sq_at(b, m.to);
    let fwd = forward(p.color);
    !m.is_castle && promotion_ok(p.color, r2, m.promotion) && if m.is_en_passant {
        pos.en_passant == Some(m.to) && r2 - r1 == fwd && abs(f2 - f1) == 1 && target is None && at(
            b,
            f2,
            r1,
        ) == Some(Piece { color: opponent(p.color), kind: PieceKind::Pawn })
    } else {
        (f2 == f1 && r2 - r1 == fwd && target is None) || (f2 == f1 && r2 - r1 == 2 * fwd && r1
            == pawn_start(p.color) && at(b, f1, r1 + fwd) is None && target is None) || (reaches(
            b,
            p,
            f1,
            r1,
            f2,
            r2,
        ) && target is Some && target->0.color != p.color)
    }
}

/// A move of the side to move that follows the movement rules of its piece,
/// ignoring whether it leaves its own king in check.
pub open spec fn is_pseudo_legal(pos: Position, m: Move) -> bool {
    let b = pos.board@;
    let p = sq_at(b, m.from)->0;
    let target = sq_at(b, m.to);
    let free_or_enemy = target is None || target->0.color != p.color;
    let moves = reaches(
        b,
        p,
        m.from.file as int,
        m.from.rank as int,
        m.to.file as int,
        m.to.rank as int,
    );
    m.from.valid() && m.to.valid() && sq_at(b, m.from) is Some && p.color == pos.side_to_move
        && match p.kind {
        PieceKind::Pawn => pawn_ok(pos, p, m),
        PieceKind::King => if m.is_castle {
            castle_ok(pos, p.color, m)
        } else {
            plain(m) && free_or_enemy && moves
        },
        _ => plain(m) && free_or_enemy && moves,
    }
}

pub open spec fn rook_home(m: Move) -> int {
    if m.to.file == 6 {
        m.from.rank as int * 8 + 7
    } else {
        m.from.rank as int * 8
    }
}

pub open spec fn rook_dest(m: Move) -> int {
    if m.to.file == 6 {
        m.from.rank as int * 8 + 5
    } else {
        m.from.rank as int * 8 + 3
    }
}

/// The square of the pawn taken en passant: beside, not on, the destination.
pub open spec fn ep_victim(m: Move) -> int {
    m.from.rank as int * 8 + m.to.file as int
}

/// What lands on the destination: the moving piece, or the promoted one.
pub open spec fn placed(b: BoardModel, m: Move) -> Option<Piece> {
    match m.promotion {
        Some(k) => Some(Piece { color: b[sq_index(m.from)]->0.color, kind: k }),
        None => b[sq_index(m.from)],
    }
}

pub open spec fn square_after(b: BoardModel, m: Move, i: int) -> Option<Piece> {
    if i == sq_index(m.to) {
        placed(b, m)
    } else if i == sq_index(m.from) {
        None
    } else if m.is_castle && i == rook_home(m) {
        None
    } else if m.is_castle && i == rook_dest(m) {
        b[rook_home(m)]
    } else if m.is_en_passant && i == ep_victim(m) {
        None
    } else {
        b[i]
    }
}

/// The board once `m` is played on `b`.
pub open spec fn board_after(b: BoardModel, m: Move) -> BoardModel {
    Seq::new(64, |i: int| square_after(b, m, i))
}

/// The square the king crosses when castling.
pub open spec fn castle_transit(m: Move) -> int {
    if m.to.file == 6 {
        5
    } else {
        3
    }
}

/// A pseudo-legal move that leaves the mover's king unattacked; a castling move
/// also needs the king's start and transit squares unattacked.
pub open spec fn is_legal(pos: Position, m: Move) -> bool {
    let b = pos.board@;
    let c = pos.side_to_move;
    is_pseudo_legal(pos, m) && !in_check(board_after(b, m), c) && (m.is_castle ==> !in_check(b, c)
        && !attacked(b, castle_transit(m), m.from.rank as int, opponent(c)))
}

/// A capture: the destination holds a piece, or the move is en passant.
pub open spec fn is_capture(b: BoardModel, m: Move) -> bool {
    sq_at(b, m.to) is Some || m.is_en_passant
}

fn fwd_of(c: Color) -> (r: i32)
    ensures
        r == forward(c),
{
    match c {
        Color::White => 1,
        Color::Black => -1,
    }
}

fn home_of(c: Color) -> (r: i32)
    ensures
        r == home_rank(c),
{
    match c {
        Color::White => 0,
        Color::Black => 7,
    }
}

fn is_empty(b: &Vec<Option<Piece>>, f: i32, r: i32) -> (res: bool)
    requires
        b@.len() == 64,
        on_board(f as int, r as int),
    ensures
        res == (at(b@, f as int, r as int) is None),
{
    get(b, f, r).is_none()
}

fn has_piece(b: &Vec<Option<Piece>>, f: i32, r: i32, c: Color, k: PieceKind) -> (res: bool)
    requires
        b@.len() == 64,
        on_board(f as int, r as int),
    ensures
        res == (at(b@, f as int, r as int) == Some(Piece { color: c, kind: k })),
{
    match get(b, f, r) {
        Some(p) => p.color == c && p.kind == k,
        None => false,
    }
}

impl Position {
    fn castle_shape(&self, c: Color, m: Move) -> (res: bool)
        requires
            self.wf(),
        ensures
            res == castle_ok(*self, c, m),
    {
        let h = home_of(c);
        if m.is_en_passant || m.promotion.is_some() || m.from.file != 4 || m.from.rank as i32 != h
            || m.to.rank != m.from.rank {
            return false;
        }
        let b = &self.board;
        let (ks, qs) = match c {
            Color::White => (self.castling.white_king_side, self.castling.white_queen_side),
            Color::Black => (self.castling.black_king_side, self.castling.black_queen_side),
        };
        if m.to.file == 6 {
            ks && is_empty(b, 5, h) && is_empty(b, 6, h) && has_piece(b, 7, h, c, PieceKind::Rook)
        } else if m.to.file == 2 {
            qs && is_empty(b, 1, h) && is_empty(b, 2, h) && is_empty(b, 3, h) && has_piece(
                b,
                0,
                h,
                c,
                PieceKind::Rook,
            )
        } else {
            false
        }
    }

    fn pawn_shape(&self, p: Piece, m: Move) -> (res: bool)
        requires
            self.wf(),
            m.from.valid(),
            m.to.valid(),
        ensures
            res == pawn_ok(*self, p, m),
    {
        let b = &self.board;
        let f1 = m.from.file as i32;
        let r1 = m.from.rank as i32;
        let f2 = m.to.file as i32;
        let r2 = m.to.rank as i32;
        let fwd = fwd_of(p.color);
        let last: i32 = match p.color {
            Color::White => 7,
            Color::Black => 0,
        };
        let promo_ok = if r2 == last {
            match m.promotion {
                Some(k) => k != PieceKind::Pawn && k != PieceKind::King,
                None => false,
            }
        } else {
            m.promotion.is_none()
        };
        if m.is_castle || !promo_ok {
            return false;
        }
        let target = get(b, f2, r2);
        if m.is_en_passant {
            let df = f2 - f1;
            let on_target = match self.en_passant {
                Some(t) => t == m.to,
                None => false,
            };
            on_target && r2 - r1 == fwd && (df == 1 || df == -1) && target.is_none() && has_piece(
                b,
                f2,
                r1,
                p.color.opposite(),
                PieceKind::Pawn,
            )
        } else {
            let start: i32 = match p.color {
                Color::White => 1,
                Color::Black => 6,
            };
            if f2 == f1 && r2 - r1 == fwd && target.is_none() {
                true
            } else if f2 == f1 && r2 - r1 == 2 * fwd && r1 == start && target.is_none() {
                is_empty(b, f1, r1 + fwd)
            } else {
                match target {
                    Some(t) => t.color != p.color && piece_reaches(b, p, f1, r1, f2, r2),
                    None => false,
                }
            }
        }
    }

    /// Whether `m` follows the movement rules, ignoring checks.
    pub fn check_pseudo_legal(&self, m: Move) -> (res: bool)
        requires
            self.wf(),
        ensures
            res == is_pseudo_legal(*self, m),
    {
        if !(m.from.file < 8 && m.from.rank < 8 && m.to.file < 8 && m.to.rank < 8) {
            return false;
        }
        let b = &self.board;
        let f1 = m.from.file as i32;
        let r1 = m.from.rank as i32;
        let f2 = m.to.file as i32;
        let r2 = m.to.rank as i32;
        let p = match get(b, f1, r1) {
            Some(p) => p,
            None => { return false; },
        };
        if p.color != self.side_to_move {
            return false;
        }
        let free_or_enemy = match get(b, f2, r2) {
            Some(t) => t.color != p.color,
            None => true,
        };
        let is_plain = !m.is_castle && !m.is_en_passant && m.promotion.is_none();
        match p.kind {
            PieceKind::Pawn => self.pawn_shape(p, m),
            PieceKind::King => {
                if m.is_castle {
                    self.castle_shape(p.color, m)
                } else {
                    is_plain && free_or_enemy && piece_reaches(b, p, f1, r1, f2, r2)
                }
            },
            _ => is_plain && free_or_enemy && piece_reaches(b, p, f1, r1, f2, r2),
        }
    }
}

/// Plays `m` on a copy of `b`.
pub fn play_on(b: &Vec<Option<Piece>>, m: Move) -> (res: Vec<Option<Piece>>)
    requires
        b@.len() == 64,
        m.from.valid(),
        m.to.valid(),
        sq_at(b@, m.from) is Some,
    ensures
        res@ == board_after(b@, m),
{
    let mut nb = copy_board(b);
    let from = m.from.rank as usize * 8 + m.from.file as usize;
    let to = m.to.rank as usize * 8 + m.to.file as usize;
    let r = m.from.rank as usize;
    if m.is_en_passant {
        nb[r * 8 + m.to.file as usize] = None;
    }
    if m.is_castle {
        let (rh, rd) = if m.to.file == 6 { (r * 8 + 7, r * 8 + 5) } else { (r * 8, r * 8 + 3) };
        nb[rd] = b[rh];
        nb[rh] = None;
    }
    let placed = match m.promotion {
        Some(k) => {
            let c = match b[from] {
                Some(p) => p.color,
                None => Color::White,
            };
            Some(Piece { color: c, kind: k })
        },
        None => b[from],
    };
    nb[from] = None;
    nb[to] = placed;
    assert(nb@ =~= board_after(b@, m));
    nb
}

impl Position {
    /// Whether `m` is legal: pseudo-legal, and the mover's king is not left
    /// attacked (for castling, nor attacked at start or in transit).
    pub fn check_legal(&self, m: Move) -> (res: bool)
        requires
            self.wf(),
        ensures
            res == is_legal(*self, m),
    {
        if !self.check_pseudo_legal(m) {
            return false;
        }
        let c = self.side_to_move;
        if m.is_castle {
            if is_in_check(&self.board, c) {
                return false;
            }
            let transit: i32 = if m.to.file == 6 { 5 } else { 3 };
            if is_attacked(&self.board, transit, m.from.rank as i32, c.opposite()) {
                return false;
            }
        }
        let nb = play_on(&self.board, m);
        !is_in_check(&nb, c)
    }
}

} // verus!
