use vstd::prelude::*;
use crate::types::{Color, Piece, PieceKind, opponent};

verus! {

/// A board is 64 optional occupants, indexed by `rank * 8 + file`.
pub type BoardModel = Seq<Option<Piece>>;

pub open spec fn on_board(f: int, r: int) -> bool {
    0 <= f < 8 && 0 <= r < 8
}

pub open spec fn at(b: BoardModel, f: int, r: int) -> Option<Piece> {
    b[r * 8 + f]
}

pub open spec fn abs(x: int) -> int {
    if x < 0 { -x } else { x }
}

pub open spec fn sgn(x: int) -> int {
    if x > 0 { 1 } else if x < 0 { -1 } else { 0 }
}

/// +1 for White (towards rank 8), -1 for Black.
pub open spec fn forward(c: Color) -> int {
    match c {
        Color::White => 1,
        Color::Black => -1,
    }
}

/// The squares strictly between `(f, r)` and `(f + n*df, r + n*dr)` are on the
/// board and empty.
pub open spec fn clear_path(b: BoardModel, f: int, r: int, df: int, dr: int, n: int) -> bool
    decreases n,
{
    if n <= 1 {
        true
    } else {
        on_board(f + df, r + dr) && at(b, f + df, r + dr) is None && clear_path(
            b,
            f + df,
            r + dr,
            df,
            dr,
            n - 1,
        )
    }
}

/// A sliding piece on `(f1, r1)` meets no piece before `(f2, r2)`.
pub open spec fn slide_clear(b: BoardModel, f1: int, r1: int, f2: int, r2: int) -> bool {
    let n = if abs(f2 - f1) > abs(r2 - r1) { abs(f2 - f1) } else { abs(r2 - r1) };
    clear_path(b, f1, r1, sgn(f2 - f1), sgn(r2 - r1), n)
}

pub open spec fn diagonal(f1: int, r1: int, f2: int, r2: int) -> bool {
    abs(f2 - f1) == abs(r2 - r1) && f2 != f1
}

pub open spec fn straight(f1: int, r1: int, f2: int, r2: int) -> bool {
    (f1 == f2 || r1 == r2) && !(f1 == f2 && r1 == r2)
}

/// Piece `p` on `(f1, r1)` attacks `(f2, r2)`: the capture geometry of each kind,
/// with sliding pieces stopped by the first occupied square.
pub open spec fn reaches(b: BoardModel, p: Piece, f1: int, r1: int, f2: int, r2: int) -> bool {
    let df = f2 - f1;
    let dr = r2 - r1;
    match p.kind {
        PieceKind::Pawn => dr == forward(p.color) && abs(df) == 1,
        PieceKind::Knight => (abs(df) == 1 && abs(dr) == 2) || (abs(df) == 2 && abs(dr) == 1),
        PieceKind::Bishop => diagonal(f1, r1, f2, r2) && slide_clear(b, f1, r1, f2, r2),
        PieceKind::Rook => straight(f1, r1, f2, r2) && slide_clear(b, f1, r1, f2, r2),
        PieceKind::Queen => (diagonal(f1, r1, f2, r2) || straight(f1, r1, f2, r2)) && slide_clear(
            b,
            f1,
            r1,
            f2,
            r2,
        ),
        PieceKind::King => abs(df) <= 1 && abs(dr) <= 1 && !(df == 0 && dr == 0),
    }
}

/// A piece of side `by` stands on `(sf, sr)` and attacks `(f, r)`.
pub open spec fn attacker(b: BoardModel, sf: int, sr: int, f: int, r: int, by: Color) -> bool {
    on_board(sf, sr) && at(b, sf, sr) is Some && at(b, sf, sr)->0.color == by && reaches(
        b,
        at(b, sf, sr)->0,
        sf,
        sr,
        f,
        r,
    )
}

/// Square `(f, r)` is attacked by some piece of side `by`.
pub open spec fn attacked(b: BoardModel, f: int, r: int, by: Color) -> bool {
    exists|sf: int, sr: int| #[trigger] attacker(b, sf, sr, f, r, by)
}

/// A king of side `c` stands on `(f, r)` and is attacked.
pub open spec fn king_attacked_at(b: BoardModel, f: int, r: int, c: Color) -> bool {
    on_board(f, r) && at(b, f, r) == Some(Piece { color: c, kind: PieceKind::King }) && attacked(
        b,
        f,
        r,
        opponent(c),
    )
}

/// The king of side `c` is in check.
pub open spec fn in_check(b: BoardModel, c: Color) -> bool {
    exists|f: int, r: int| #[trigger] king_attacked_at(b, f, r, c)
}

/// Reads the occupant of an on-board square.
pub fn get(b: &Vec<Option<Piece>>, f: i32, r: i32) -> (res: Option<Piece>)
    requires
        b@.len() == 64,
        on_board(f as int, r as int),
    ensures
        res == at(b@, f as int, r as int),
{
    b[(r * 8 + f) as usize]
}

/// A copy of the board.
pub fn copy_board(b: &Vec<Option<Piece>>) -> (res: Vec<Option<Piece>>)
    ensures
        res@ == b@,
{
    let mut nb: Vec<Option<Piece>> = Vec::new();
    let mut i: usize = 0;
    while i < b.len()
        invariant
            0 <= i <= b@.len(),
            nb@ == b@.subrange(0, i as int),
        decreases b@.len() - i,
    {
        nb.push(b[i]);
        i = i + 1;
    }
    assert(nb@ =~= b@);
    nb
}

fn iabs(x: i32) -> (r: i32)
    requires
        -100 <= x <= 100,
    ensures
        r == abs(x as int),
{
    if x < 0 { -x } else { x }
}

fn isgn(x: i32) -> (r: i32)
    ensures
        r == sgn(x as int),
{
    if x > 0 { 1 } else if x < 0 { -1 } else { 0 }
}

/// Ray-casts from `(f, r)` in direction `(df, dr)` over `n - 1` squares.
fn path_clear(b: &Vec<Option<Piece>>, f: i32, r: i32, df: i32, dr: i32, n: i32) -> (res: bool)
    requires
        b@.len() == 64,
        on_board(f as int, r as int),
        -1 <= df <= 1,
        -1 <= dr <= 1,
    ensures
        res == clear_path(b@, f as int, r as int, df as int, dr as int, n as int),
    decreases n,
{
    if n <= 1 {
        true
    } else {
        let nf = f + df;
        let nr = r + dr;
        if !(0 <= nf && nf < 8 && 0 <= nr && nr < 8) {
            false
        } else if get(b, nf, nr).is_some() {
            false
        } else {
            path_clear(b, nf, nr, df, dr, n - 1)
        }
    }
}

/// Whether piece `p` on `(f1, r1)` attacks `(f2, r2)`.
pub fn piece_reaches(b: &Vec<Option<Piece>>, p: Piece, f1: i32, r1: i32, f2: i32, r2: i32) -> (res:
    bool)
    requires
        b@.len() == 64,
        on_board(f1 as int, r1 as int),
        on_board(f2 as int, r2 as int),
    ensures
        res == reaches(b@, p, f1 as int, r1 as int, f2 as int, r2 as int),
{
    let df = f2 - f1;
    let dr = r2 - r1;
    let adf = iabs(df);
    let adr = iabs(dr);
    let diag = adf == adr && f2 != f1;
    let strt = (f1 == f2 || r1 == r2) && !(f1 == f2 && r1 == r2);
    match p.kind {
        PieceKind::Pawn => {
            let fwd: i32 = match p.color {
                Color::White => 1,
                Color::Black => -1,
            };
            dr == fwd && adf == 1
        },
        PieceKind::Knight => (adf == 1 && adr == 2) || (adf == 2 && adr == 1),
        PieceKind::King => adf <= 1 && adr <= 1 && !(df == 0 && dr == 0),
        _ => {
            let shape = match p.kind {
                PieceKind::Bishop => diag,
                PieceKind::Rook => strt,
                _ => diag || strt,
            };
            if !shape {
                false
            } else {
                let n = if adf > adr { adf } else { adr };
                path_clear(b, f1, r1, isgn(df), isgn(dr), n)
            }
        },
    }
}

/// Whether square `(f, r)` is attacked by a piece of side `by`.
pub fn is_attacked(b: &Vec<Option<Piece>>, f: i32, r: i32, by: Color) -> (res: bool)
    requires
        b@.len() == 64,
        on_board(f as int, r as int),
    ensures
        res == attacked(b@, f as int, r as int, by),
{
    let mut sr: i32 = 0;
    while sr < 8
        invariant
            0 <= sr <= 8,
            b@.len() == 64,
            on_board(f as int, r as int),
            forall|xf: int, xr: int| xr < sr ==> !#[trigger] attacker(b@, xf, xr, f as int, r as int, by),
        decreases 8 - sr,
    {
        let mut sf: i32 = 0;
        while sf < 8
            invariant
                0 <= sf <= 8,
                0 <= sr < 8,
                b@.len() == 64,
                on_board(f as int, r as int),
                forall|xf: int, xr: int|
                    xr < sr || (xr == sr && xf < sf) ==> !#[trigger] attacker(b@, xf, xr, f as int, r as int, by),
            decreases 8 - sf,
        {
            match get(b, sf, sr) {
                Some(p) => {
                    if p.color == by && piece_reaches(b, p, sf, sr, f, r) {
                        assert(attacker(b@, sf as int, sr as int, f as int, r as int, by));
                        return true;
                    }
                },
                None => {},
            }
            sf = sf + 1;
        }
        sr = sr + 1;
    }
    assert forall|xf: int, xr: int| !#[trigger] attacker(b@, xf, xr, f as int, r as int, by) by {
        if xr >= 8 || xr < 0 {
        }
    }
    false
}

/// Whether the king of side `c` is in check.
pub fn is_in_check(b: &Vec<Option<Piece>>, c: Color) -> (res: bool)
    requires
        b@.len() == 64,
    ensures
        res == in_check(b@, c),
{
    let mut r: i32 = 0;
    while r < 8
        invariant
            0 <= r <= 8,
            b@.len() == 64,
            forall|xf: int, xr: int| xr < r ==> !#[trigger] king_attacked_at(b@, xf, xr, c),
        decreases 8 - r,
    {
        let mut f: i32 = 0;
        while f < 8
            invariant
                0 <= f <= 8,
                0 <= r < 8,
                b@.len() == 64,
                forall|xf: int, xr: int|
                    xr < r || (xr == r && xf < f) ==> !#[trigger] king_attacked_at(b@, xf, xr, c),
            decreases 8 - f,
        {
            match get(b, f, r) {
                Some(p) => {
                    if p.color == c && p.kind == PieceKind::King {
                        if is_attacked(b, f, r, c.opposite()) {
                            assert(king_attacked_at(b@, f as int, r as int, c));
                            return true;
                        }
                    }
                },
                None => {},
            }
            f = f + 1;
        }
        r = r + 1;
    }
    false
}

} // verus!
