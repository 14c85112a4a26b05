use vstd::prelude::*;
use crate::types::{
    CastlingRights, ChessError, Color, DrawReason, GameStatus, Move, Piece, PieceKind, Square,
    opponent,
};
use crate::board::{BoardModel, abs, copy_board, get, in_check, is_in_check};
use crate::rules::{
    Position, board_after, is_capture, is_legal, is_pseudo_legal, play_on, sq_at, sq_index,
};
use crate::codec::{parse_position, position_text, read_position, write_position};

verus! {

/// Number of entries of `b` that satisfy `pred`.
pub open spec fn count_where(b: BoardModel, pred: spec_fn(Option<Piece>) -> bool) -> nat
    decreases b.len(),
{
    if b.len() == 0 {
        0
    } else {
        count_where(b.drop_last(), pred) + if pred(b.last()) {
            1nat
        } else {
            0nat
        }
    }
}

pub open spec fn is_color(c: Color) -> spec_fn(Option<Piece>) -> bool {
    |o: Option<Piece>| o is Some && o->0.color == c
}

pub open spec fn is_heavy_or_pawn() -> spec_fn(Option<Piece>) -> bool {
    |o: Option<Piece>|
        o is Some && (o->0.kind == PieceKind::Pawn || o->0.kind == PieceKind::Rook || o->0.kind
            == PieceKind::Queen)
}

pub open spec fn is_minor() -> spec_fn(Option<Piece>) -> bool {
    |o: Option<Piece>| o is Some && (o->0.kind == PieceKind::Knight || o->0.kind == PieceKind::Bishop)
}

/// Neither side can mate: kings with at most one knight or bishop between them.
pub open spec fn insufficient_material(b: BoardModel) -> bool {
    count_where(b, is_heavy_or_pawn()) == 0 && count_where(b, is_minor()) <= 1
}

/// Two positions agree on board, side to move, castling rights and en-passant target.
pub open spec fn same_position(a: Position, b: Position) -> bool {
    a.board@ == b.board@ && a.side_to_move == b.side_to_move && a.castling == b.castling
        && a.en_passant == b.en_passant
}

/// How many entries of `seen` are the position `p`.
pub open spec fn occurrences(seen: Seq<Position>, p: Position) -> nat
    decreases seen.len(),
{
    if seen.len() == 0 {
        0
    } else {
        occurrences(seen.drop_last(), p) + if same_position(seen.last(), p) {
            1nat
        } else {
            0nat
        }
    }
}

pub open spec fn has_legal_move(pos: Position) -> bool {
    exists|m: Move| is_legal(pos, m)
}

/// A right survives a move unless the move starts or ends on the king's or
/// that rook's home square.
pub open spec fn touches(m: Move, f: int, r: int) -> bool {
    (m.from.file as int == f && m.from.rank as int == r) || (m.to.file as int == f && m.to.rank as int
        == r)
}

pub open spec fn castling_after(c: CastlingRights, m: Move) -> CastlingRights {
    CastlingRights {
        white_king_side: c.white_king_side && !touches(m, 4, 0) && !touches(m, 7, 0),
        white_queen_side: c.white_queen_side && !touches(m, 4, 0) && !touches(m, 0, 0),
        black_king_side: c.black_king_side && !touches(m, 4, 7) && !touches(m, 7, 7),
        black_queen_side: c.black_queen_side && !touches(m, 4, 7) && !touches(m, 0, 7),
    }
}

/// A pawn advancing two ranks.
pub open spec fn is_double_push(b: BoardModel, m: Move) -> bool {
    sq_at(b, m.from) is Some && sq_at(b, m.from)->0.kind == PieceKind::Pawn && abs(
        m.to.rank as int - m.from.rank as int,
    ) == 2
}

/// The square a double push skips over.
pub open spec fn skipped(m: Move) -> Square {
    Square { file: m.from.file, rank: ((m.from.rank as int + m.to.rank as int) / 2) as u8 }
}

pub open spec fn en_passant_after(b: BoardModel, m: Move) -> Option<Square> {
    if is_double_push(b, m) {
        Some(skipped(m))
    } else {
        None
    }
}

/// A pawn move or a capture resets the halfmove clock.
pub open spec fn resets_clock(b: BoardModel, m: Move) -> bool {
    (sq_at(b, m.from) is Some && sq_at(b, m.from)->0.kind == PieceKind::Pawn) || is_capture(b, m)
}

/// A game: the current position, the move clocks, the moves played, and every
/// position reached before the current one.
pub struct GameState {
    pub position: Position,
    pub halfmove_clock: u32,
    pub fullmove_number: u32,
    pub history: Vec<Move>,
    pub seen: Vec<Position>,
}

pub open spec fn back_rank_kind(f: int) -> PieceKind {
    if f == 0 || f == 7 {
        PieceKind::Rook
    } else if f == 1 || f == 6 {
        PieceKind::Knight
    } else if f == 2 || f == 5 {
        PieceKind::Bishop
    } else if f == 3 {
        PieceKind::Queen
    } else {
        PieceKind::King
    }
}

/// The occupant of `(f, r)` in the opening position.
pub open spec fn initial_at(f: int, r: int) -> Option<Piece> {
    if r == 0 {
        Some(Piece { color: Color::White, kind: back_rank_kind(f) })
    } else if r == 1 {
        Some(Piece { color: Color::White, kind: PieceKind::Pawn })
    } else if r == 6 {
        Some(Piece { color: Color::Black, kind: PieceKind::Pawn })
    } else if r == 7 {
        Some(Piece { color: Color::Black, kind: back_rank_kind(f) })
    } else {
        None
    }
}

pub open spec fn initial_board() -> BoardModel {
    Seq::new(64, |i: int| initial_at(i % 8, i / 8))
}

fn initial_piece(f: usize, r: usize) -> (res: Option<Piece>)
    ensures
        res == initial_at(f as int, r as int),
{
    let kind = if f == 0 || f == 7 {
        PieceKind::Rook
    } else if f == 1 || f == 6 {
        PieceKind::Knight
    } else if f == 2 || f == 5 {
        PieceKind::Bishop
    } else if f == 3 {
        PieceKind::Queen
    } else {
        PieceKind::King
    };
    if r == 0 {
        Some(Piece { color: Color::White, kind })
    } else if r == 1 {
        Some(Piece { color: Color::White, kind: PieceKind::Pawn })
    } else if r == 6 {
        Some(Piece { color: Color::Black, kind: PieceKind::Pawn })
    } else if r == 7 {
        Some(Piece { color: Color::Black, kind })
    } else {
        None
    }
}

fn same_occupant(a: Option<Piece>, b: Option<Piece>) -> (res: bool)
    ensures
        res == (a == b),
{
    match (a, b) {
        (Some(x), Some(y)) => x == y,
        (None, None) => true,
        _ => false,
    }
}

fn same_target(a: Option<Square>, b: Option<Square>) -> (res: bool)
    ensures
        res == (a == b),
{
    match (a, b) {
        (Some(x), Some(y)) => x == y,
        (None, None) => true,
        _ => false,
    }
}

fn positions_equal(a: &Position, b: &Position) -> (res: bool)
    ensures
        res == same_position(*a, *b),
{
    if a.side_to_move != b.side_to_move || a.castling != b.castling || !same_target(
        a.en_passant,
        b.en_passant,
    ) || a.board.len() != b.board.len() {
        return false;
    }
    let mut i: usize = 0;
    while i < a.board.len()
        invariant
            0 <= i <= a.board@.len(),
            a.board@.len() == b.board@.len(),
            forall|j: int| 0 <= j < i ==> a.board@[j] == b.board@[j],
        decreases a.board@.len() - i,
    {
        if !same_occupant(a.board[i], b.board[i]) {
            return false;
        }
        i = i + 1;
    }
    assert(a.board@ =~= b.board@);
    true
}

fn copy_position(p: &Position) -> (res: Position)
    ensures
        same_position(res, *p),
{
    Position {
        board: copy_board(&p.board),
        side_to_move: p.side_to_move,
        castling: p.castling,
        en_passant: p.en_passant,
    }
}

/// Counts the pawns, rooks and queens, and the knights and bishops, on `b`.
fn material(b: &Vec<Option<Piece>>) -> (res: (usize, usize))
    ensures
        res.0 == count_where(b@, is_heavy_or_pawn()),
        res.1 == count_where(b@, is_minor()),
{
    let mut heavy: usize = 0;
    let mut minor: usize = 0;
    let mut i: usize = 0;
    while i < b.len()
        invariant
            0 <= i <= b@.len(),
            heavy <= i,
            minor <= i,
            heavy == count_where(b@.subrange(0, i as int), is_heavy_or_pawn()),
            minor == count_where(b@.subrange(0, i as int), is_minor()),
        decreases b@.len() - i,
    {
        assert(b@.subrange(0, i + 1).drop_last() =~= b@.subrange(0, i as int));
        match b[i] {
            Some(p) => {
                if p.kind == PieceKind::Pawn || p.kind == PieceKind::Rook || p.kind
                    == PieceKind::Queen {
                    heavy = heavy + 1;
                } else if p.kind == PieceKind::Knight || p.kind == PieceKind::Bishop {
                    minor = minor + 1;
                }
            },
            None => {},
        }
        i = i + 1;
    }
    assert(b@.subrange(0, b@.len() as int) =~= b@);
    (heavy, minor)
}

impl GameState {
    pub open spec fn wf(&self) -> bool {
        self.position.wf()
    }

    pub open spec fn status_spec(&self) -> GameStatus {
        let pos = self.position;
        if !has_legal_move(pos) {
            if in_check(pos.board@, pos.side_to_move) {
                GameStatus::Checkmate(opponent(pos.side_to_move))
            } else {
                GameStatus::Stalemate
            }
        } else if self.halfmove_clock >= 100 {
            GameStatus::DrawByRule(DrawReason::FiftyMove)
        } else if occurrences(self.seen@, pos) + 1 >= 3 {
            GameStatus::DrawByRule(DrawReason::Repetition)
        } else if insufficient_material(pos.board@) {
            GameStatus::DrawByRule(DrawReason::InsufficientMaterial)
        } else {
            GameStatus::InProgress
        }
    }

    /// `t` is this game once the legal move `m` has been applied.
    pub open spec fn successor(&self, m: Move, t: GameState) -> bool {
        let b = self.position.board@;
        &&& t.position.board@ == board_after(b, m)
        &&& t.position.side_to_move == opponent(self.position.side_to_move)
        &&& t.position.castling == castling_after(self.position.castling, m)
        &&& t.position.en_passant == en_passant_after(b, m)
        &&& t.halfmove_clock as int == if resets_clock(b, m) {
            0int
        } else {
            self.halfmove_clock + 1
        }
        &&& t.fullmove_number as int == if self.position.side_to_move == Color::Black
            && self.fullmove_number < u32::MAX {
            self.fullmove_number + 1
        } else {
            self.fullmove_number as int
        }
        &&& t.history@ == self.history@.push(m)
        &&& t.seen@.drop_last() == self.seen@
        &&& t.seen@.len() == self.seen@.len() + 1
        &&& same_position(t.seen@.last(), self.position)
    }
}

impl GameState {
    /// The opening position, White to move, all castling rights held.
    pub fn standard_setup() -> (g: GameState)
        ensures
            g.wf(),
            g.position.board@ == initial_board(),
            g.position.side_to_move == Color::White,
            g.position.castling == (CastlingRights {
                white_king_side: true,
                white_queen_side: true,
                black_king_side: true,
                black_queen_side: true,
            }),
            g.position.en_passant is None,
            g.halfmove_clock == 0,
            g.fullmove_number == 1,
            g.history@.len() == 0,
            g.seen@.len() == 0,
    {
        let mut board: Vec<Option<Piece>> = Vec::new();
        let mut i: usize = 0;
        while i < 64
            invariant
                0 <= i <= 64,
                board@.len() == i,
                forall|j: int| 0 <= j < i ==> board@[j] == initial_at(j % 8, j / 8),
            decreases 64 - i,
        {
            board.push(initial_piece(i % 8, i / 8));
            i = i + 1;
        }
        assert(board@ =~= initial_board());
        GameState {
            position: Position {
                board,
                side_to_move: Color::White,
                castling: CastlingRights {
                    white_king_side: true,
                    white_queen_side: true,
                    black_king_side: true,
                    black_queen_side: true,
                },
                en_passant: None,
            },
            halfmove_clock: 0,
            fullmove_number: 1,
            history: Vec::new(),
            seen: Vec::new(),
        }
    }

    /// The occupant of `sq`.
    pub fn piece_at(&self, sq: Square) -> (r: Result<Option<Piece>, ChessError>)
        requires
            self.wf(),
        ensures
            sq.valid() ==> r == Ok::<Option<Piece>, ChessError>(sq_at(self.position.board@, sq)),
            !sq.valid() ==> r == Err::<Option<Piece>, ChessError>(ChessError::InvalidSquare),
    {
        if sq.file < 8 && sq.rank < 8 {
            Ok(get(&self.position.board, sq.file as i32, sq.rank as i32))
        } else {
            Err(ChessError::InvalidSquare)
        }
    }

    /// Puts `occupant` on `sq` (or empties it), with no rule check.
    pub fn set(&mut self, sq: Square, occupant: Option<Piece>) -> (r: Result<(), ChessError>)
        requires
            old(self).wf(),
        ensures
            final(self).wf(),
            sq.valid() ==> r is Ok && final(self).position.board@ == old(self).position.board@.update(
                sq_index(sq),
                occupant,
            ),
            !sq.valid() ==> r == Err::<(), ChessError>(ChessError::InvalidSquare) && *final(self)
                == *old(self),
            final(self).position.side_to_move == old(self).position.side_to_move,
            final(self).position.castling == old(self).position.castling,
            final(self).position.en_passant == old(self).position.en_passant,
            final(self).halfmove_clock == old(self).halfmove_clock,
            final(self).fullmove_number == old(self).fullmove_number,
            final(self).history == old(self).history,
            final(self).seen == old(self).seen,
    {
        if sq.file < 8 && sq.rank < 8 {
            let i = sq.rank as usize * 8 + sq.file as usize;
            self.position.board[i] = occupant;
            Ok(())
        } else {
            Err(ChessError::InvalidSquare)
        }
    }

    /// The side to move.
    pub fn side_to_move(&self) -> (c: Color)
        ensures
            c == self.position.side_to_move,
    {
        self.position.side_to_move
    }

    /// Whether the side to move is in check.
    pub fn is_in_check(&self) -> (r: bool)
        requires
            self.wf(),
        ensures
            r == in_check(self.position.board@, self.position.side_to_move),
    {
        is_in_check(&self.position.board, self.position.side_to_move)
    }

    /// All pseudo-legal moves of the side to move.
    pub fn pseudo_legal_moves(&self) -> (r: Vec<Move>)
        requires
            self.wf(),
        ensures
            r@.no_duplicates(),
            forall|m: Move| #[trigger] r@.contains(m) <==> is_pseudo_legal(self.position, m),
    {
        self.position.collect_moves(false)
    }

    /// The pseudo-legal moves of the piece on `sq`.
    pub fn pseudo_legal_moves_from(&self, sq: Square) -> (r: Result<Vec<Move>, ChessError>)
        requires
            self.wf(),
        ensures
            sq.valid() <==> r is Ok,
            !sq.valid() ==> r == Err::<Vec<Move>, ChessError>(ChessError::InvalidSquare),
            r is Ok ==> r->Ok_0@.no_duplicates(),
            r is Ok ==> forall|m: Move| #[trigger]
                r->Ok_0@.contains(m) <==> (m.from == sq && is_pseudo_legal(self.position, m)),
    {
        if sq.file < 8 && sq.rank < 8 {
            let mut out: Vec<Move> = Vec::new();
            self.position.moves_from(false, sq, &mut out);
            Ok(out)
        } else {
            Err(ChessError::InvalidSquare)
        }
    }

    /// All legal moves of the side to move.
    pub fn legal_moves(&self) -> (r: Vec<Move>)
        requires
            self.wf(),
        ensures
            r@.no_duplicates(),
            forall|m: Move| #[trigger] r@.contains(m) <==> is_legal(self.position, m),
    {
        self.position.collect_moves(true)
    }

    /// Whether `m` is legal here.
    pub fn is_legal(&self, m: Move) -> (r: bool)
        requires
            self.wf(),
        ensures
            r == is_legal(self.position, m),
    {
        self.position.check_legal(m)
    }

    fn repetitions(&self) -> (n: usize)
        ensures
            n == occurrences(self.seen@, self.position),
    {
        let mut n: usize = 0;
        let mut i: usize = 0;
        while i < self.seen.len()
            invariant
                0 <= i <= self.seen@.len(),
                n <= i,
                n == occurrences(self.seen@.subrange(0, i as int), self.position),
            decreases self.seen@.len() - i,
        {
            assert(self.seen@.subrange(0, i + 1).drop_last() =~= self.seen@.subrange(0, i as int));
            if positions_equal(&self.seen[i], &self.position) {
                n = n + 1;
            }
            i = i + 1;
        }
        assert(self.seen@.subrange(0, self.seen@.len() as int) =~= self.seen@);
        n
    }

    /// The status of the game: checkmate, stalemate, a draw by rule, or in progress.
    pub fn status(&self) -> (s: GameStatus)
        requires
            self.wf(),
        ensures
            s == self.status_spec(),
    {
        let moves = self.legal_moves();
        if moves.len() == 0 {
            proof {
                assert forall|m: Move| !is_legal(self.position, m) by {
                    if is_legal(self.position, m) {
                        assert(moves@.contains(m));
                    }
                }
            }
            if self.is_in_check() {
                GameStatus::Checkmate(self.position.side_to_move.opposite())
            } else {
                GameStatus::Stalemate
            }
        } else {
            assert(moves@.contains(moves@[0]));
            assert(is_legal(self.position, moves@[0]));
            if self.halfmove_clock >= 100 {
                GameStatus::DrawByRule(DrawReason::FiftyMove)
            } else if self.repetitions() >= 2 {
                GameStatus::DrawByRule(DrawReason::Repetition)
            } else {
                let (heavy, minor) = material(&self.position.board);
                if heavy == 0 && minor <= 1 {
                    GameStatus::DrawByRule(DrawReason::InsufficientMaterial)
                } else {
                    GameStatus::InProgress
                }
            }
        }
    }
}


fn castling_update(c: CastlingRights, m: Move) -> (r: CastlingRights)
    ensures
        r == castling_after(c, m),
{
    let touches = |f: u8, rk: u8| -> (t: bool)
        ensures
            t == touches(m, f as int, rk as int),
        { (m.from.file == f && m.from.rank == rk) || (m.to.file == f && m.to.rank == rk) };
    CastlingRights {
        white_king_side: c.white_king_side && !touches(4, 0) && !touches(7, 0),
        white_queen_side: c.white_queen_side && !touches(4, 0) && !touches(0, 0),
        black_king_side: c.black_king_side && !touches(4, 7) && !touches(7, 7),
        black_queen_side: c.black_queen_side && !touches(4, 7) && !touches(0, 7),
    }
}

impl GameState {
    /// Plays `m`. Fails with `GameOver` once the game has ended and with
    /// `IllegalMove` when `m` is not legal; on failure nothing changes.
    pub fn apply_move(&mut self, m: Move) -> (r: Result<(), ChessError>)
        requires
            old(self).wf(),
        ensures
            final(self).wf(),
            old(self).status_spec() != GameStatus::InProgress ==> r == Err::<(), ChessError>(
                ChessError::GameOver,
            ),
            old(self).status_spec() == GameStatus::InProgress && !is_legal(old(self).position, m)
                ==> r == Err::<(), ChessError>(ChessError::IllegalMove),
            old(self).status_spec() == GameStatus::InProgress && is_legal(old(self).position, m)
                ==> r is Ok,
            r is Ok ==> old(self).successor(m, *final(self)),
            r is Err ==> *final(self) == *old(self),
    {
        if self.status() != GameStatus::InProgress {
            return Err(ChessError::GameOver);
        }
        if !self.position.check_legal(m) {
            return Err(ChessError::IllegalMove);
        }
        let ghost before = *self;
        let b = &self.position.board;
        let moving = get(b, m.from.file as i32, m.from.rank as i32);
        let is_pawn = match moving {
            Some(p) => p.kind == PieceKind::Pawn,
            None => false,
        };
        let capture = get(b, m.to.file as i32, m.to.rank as i32).is_some() || m.is_en_passant;
        let double = is_pawn && (m.to.rank as i32 - m.from.rank as i32 == 2 || m.to.rank as i32
            - m.from.rank as i32 == -2);
        let en_passant = if double {
            Some(Square { file: m.from.file, rank: (m.from.rank + m.to.rank) / 2 })
        } else {
            None
        };
        let snapshot = copy_position(&self.position);
        let nb = play_on(b, m);
        self.position.board = nb;
        self.position.castling = castling_update(self.position.castling, m);
        self.position.en_passant = en_passant;
        if self.position.side_to_move == Color::Black && self.fullmove_number < u32::MAX {
            self.fullmove_number = self.fullmove_number + 1;
        }
        self.position.side_to_move = self.position.side_to_move.opposite();
        self.halfmove_clock = if is_pawn || capture {
            0
        } else {
            self.halfmove_clock + 1
        };
        self.history.push(m);
        self.seen.push(snapshot);
        assert(self.seen@.drop_last() =~= before.seen@);
        Ok(())
    }
}


impl GameState {
    /// The text of this game's position (see `position_text`).
    pub fn to_serialized(&self) -> (s: String)
        requires
            self.wf(),
        ensures
            s@ == position_text(
                self.position.board@,
                self.position.side_to_move,
                self.position.castling,
                self.position.en_passant,
                self.halfmove_clock as nat,
                self.fullmove_number as nat,
            ),
    {
        write_position(
            &self.position.board,
            self.position.side_to_move,
            self.position.castling,
            self.position.en_passant,
            self.halfmove_clock,
            self.fullmove_number,
        )
    }

    /// A game that starts from the position the text describes, with no moves
    /// played; `ParseError` when the text is not a position.
    pub fn from_serialized(text: &str) -> (r: Result<GameState, ChessError>)
        ensures
            match parse_position(text@) {
                None => r == Err::<GameState, ChessError>(ChessError::ParseError),
                Some(x) => r is Ok && r->Ok_0.wf() && r->Ok_0.position.board@ == x.0
                    && r->Ok_0.position.side_to_move == x.1 && r->Ok_0.position.castling == x.2
                    && r->Ok_0.position.en_passant == x.3 && r->Ok_0.halfmove_clock as int == x.4
                    && r->Ok_0.fullmove_number as int == x.5 && r->Ok_0.history@.len() == 0
                    && r->Ok_0.seen@.len() == 0,
            },
    {
        match read_position(text) {
            None => Err(ChessError::ParseError),
            Some((board, side_to_move, castling, en_passant, halfmove_clock, fullmove_number)) => {
                Ok(
                    GameState {
                        position: Position { board, side_to_move, castling, en_passant },
                        halfmove_clock,
                        fullmove_number,
                        history: Vec::new(),
                        seen: Vec::new(),
                    },
                )
            },
        }
    }
}

} // verus!
