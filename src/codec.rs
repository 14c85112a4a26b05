use vstd::prelude::*;
use vstd::string::StrSliceExecFns;
use crate::types::{CastlingRights, Color, Piece, PieceKind, Square};
use crate::board::{BoardModel, at, get};

verus! {

pub open spec fn is_digit(c: char) -> bool {
    '0' as u32 <= c as u32 <= '9' as u32
}

pub open spec fn digit_value(c: char) -> int {
    c as u32 - '0' as u32
}

pub open spec fn digit_char(n: int) -> char {
    (n + '0' as u32) as u8 as char
}

pub open spec fn white_letter(k: PieceKind) -> char {
    match k {
        PieceKind::Pawn => 'P',
        PieceKind::Knight => 'N',
        PieceKind::Bishop => 'B',
        PieceKind::Rook => 'R',
        PieceKind::Queen => 'Q',
        PieceKind::King => 'K',
    }
}

pub open spec fn black_letter(k: PieceKind) -> char {
    match k {
        PieceKind::Pawn => 'p',
        PieceKind::Knight => 'n',
        PieceKind::Bishop => 'b',
        PieceKind::Rook => 'r',
        PieceKind::Queen => 'q',
        PieceKind::King => 'k',
    }
}

/// Upper case for White, lower case for Black.
pub open spec fn piece_char(p: Piece) -> char {
    match p.color {
        Color::White => white_letter(p.kind),
        Color::Black => black_letter(p.kind),
    }
}

pub open spec fn char_piece(c: char) -> Option<Piece> {
    let w = Color::White;
    let b = Color::Black;
    if c == 'P' {
        Some(Piece { color: w, kind: PieceKind::Pawn })
    } else if c == 'N' {
        Some(Piece { color: w, kind: PieceKind::Knight })
    } else if c == 'B' {
        Some(Piece { color: w, kind: PieceKind::Bishop })
    } else if c == 'R' {
        Some(Piece { color: w, kind: PieceKind::Rook })
    } else if c == 'Q' {
        Some(Piece { color: w, kind: PieceKind::Queen })
    } else if c == 'K' {
        Some(Piece { color: w, kind: PieceKind::King })
    } else if c == 'p' {
        Some(Piece { color: b, kind: PieceKind::Pawn })
    } else if c == 'n' {
        Some(Piece { color: b, kind: PieceKind::Knight })
    } else if c == 'b' {
        Some(Piece { color: b, kind: PieceKind::Bishop })
    } else if c == 'r' {
        Some(Piece { color: b, kind: PieceKind::Rook })
    } else if c == 'q' {
        Some(Piece { color: b, kind: PieceKind::Queen })
    } else if c == 'k' {
        Some(Piece { color: b, kind: PieceKind::King })
    } else {
        None
    }
}

// ---- the text of a position ----

pub open spec fn run_text(run: int) -> Seq<char> {
    if run > 0 {
        seq![digit_char(run)]
    } else {
        Seq::empty()
    }
}

/// Rank `r` from file `f` on, after `run` empty squares not yet written.
pub open spec fn rank_text(b: BoardModel, r: int, f: int, run: int) -> Seq<char>
    decreases 8 - f,
{
    if f >= 8 {
        run_text(run)
    } else {
        match at(b, f, r) {
            None => rank_text(b, r, f + 1, run + 1),
            Some(p) => run_text(run) + seq![piece_char(p)] + rank_text(b, r, f + 1, 0),
        }
    }
}

/// Ranks `r` down to the first, separated by `/`.
pub open spec fn board_text(b: BoardModel, r: int) -> Seq<char>
    decreases r,
{
    if r <= 0 {
        rank_text(b, 0, 0, 0)
    } else {
        rank_text(b, r, 0, 0) + seq!['/'] + board_text(b, r - 1)
    }
}

pub open spec fn nat_text(n: nat) -> Seq<char>
    decreases n,
{
    if n < 10 {
        seq![digit_char(n as int)]
    } else {
        nat_text(n / 10).push(digit_char((n % 10) as int))
    }
}

pub open spec fn side_text(c: Color) -> Seq<char> {
    match c {
        Color::White => seq!['w'],
        Color::Black => seq!['b'],
    }
}

pub open spec fn flag_text(on: bool, c: char) -> Seq<char> {
    if on {
        seq![c]
    } else {
        Seq::empty()
    }
}

pub open spec fn castling_text(c: CastlingRights) -> Seq<char> {
    if !(c.white_king_side || c.white_queen_side || c.black_king_side || c.black_queen_side) {
        seq!['-']
    } else {
        flag_text(c.white_king_side, 'K') + flag_text(c.white_queen_side, 'Q') + flag_text(
            c.black_king_side,
            'k',
        ) + flag_text(c.black_queen_side, 'q')
    }
}

pub open spec fn file_char(f: int) -> char {
    (f + 'a' as u32) as u8 as char
}

pub open spec fn ep_text(e: Option<Square>) -> Seq<char> {
    match e {
        None => seq!['-'],
        Some(s) => seq![file_char(s.file as int), digit_char(s.rank as int + 1)],
    }
}

/// Side to move, castling rights, en-passant target, halfmove clock and
/// fullmove number, separated by spaces.
pub open spec fn fields_text(
    side: Color,
    castling: CastlingRights,
    ep: Option<Square>,
    halfmove: nat,
    fullmove: nat,
) -> Seq<char> {
    side_text(side) + (seq![' '] + (castling_text(castling) + (seq![' '] + (ep_text(ep) + (seq![
        ' ',
    ] + (nat_text(halfmove) + (seq![' '] + nat_text(fullmove))))))))
}

/// The text of a position: the board, then the other fields after a space.
pub open spec fn position_text(
    b: BoardModel,
    side: Color,
    castling: CastlingRights,
    ep: Option<Square>,
    halfmove: nat,
    fullmove: nat,
) -> Seq<char> {
    board_text(b, 7) + (seq![' '] + fields_text(side, castling, ep, halfmove, fullmove))
}

// ---- reading it back ----

pub open spec fn empties(n: int) -> Seq<Option<Piece>> {
    Seq::new(n as nat, |i: int| None)
}

pub open spec fn prepend<T>(
    front: Seq<Option<Piece>>,
    r: Option<(Seq<Option<Piece>>, T)>,
) -> Option<(Seq<Option<Piece>>, T)> {
    match r {
        Some(x) => Some((front + x.0, x.1)),
        None => None,
    }
}

/// Reads the squares of one rank from file `f` on: a digit stands for that many
/// empty squares, a letter for a piece, until the rank is full.
pub open spec fn parse_rank(s: Seq<char>, f: int) -> Option<(Seq<Option<Piece>>, Seq<char>)>
    decreases s.len(),
{
    if f >= 8 {
        Some((Seq::empty(), s))
    } else if s.len() == 0 {
        None
    } else if is_digit(s[0]) && 1 <= digit_value(s[0]) && f + digit_value(s[0]) <= 8 {
        prepend(empties(digit_value(s[0])), parse_rank(s.drop_first(), f + digit_value(s[0])))
    } else if char_piece(s[0]) is Some {
        prepend(seq![char_piece(s[0])], parse_rank(s.drop_first(), f + 1))
    } else {
        None
    }
}

/// Reads ranks `r` down to the first; the result is indexed `rank * 8 + file`.
pub open spec fn parse_board(s: Seq<char>, r: int) -> Option<(BoardModel, Seq<char>)>
    decreases r,
{
    match parse_rank(s, 0) {
        None => None,
        Some(x) => if r <= 0 {
            Some(x)
        } else if x.1.len() > 0 && x.1[0] == '/' {
            match parse_board(x.1.drop_first(), r - 1) {
                Some(y) => Some((y.0 + x.0, y.1)),
                None => None,
            }
        } else {
            None
        },
    }
}

pub open spec fn after_space(s: Seq<char>) -> Option<Seq<char>> {
    if s.len() > 0 && s[0] == ' ' {
        Some(s.drop_first())
    } else {
        None
    }
}

pub open spec fn parse_side(s: Seq<char>) -> Option<(Color, Seq<char>)> {
    if s.len() > 0 && s[0] == 'w' {
        Some((Color::White, s.drop_first()))
    } else if s.len() > 0 && s[0] == 'b' {
        Some((Color::Black, s.drop_first()))
    } else {
        None
    }
}

pub open spec fn has_flag(s: Seq<char>, c: char) -> bool {
    s.len() > 0 && s[0] == c
}

pub open spec fn skip_flag(s: Seq<char>, c: char) -> Seq<char> {
    if has_flag(s, c) {
        s.drop_first()
    } else {
        s
    }
}

/// `-`, or some of `K`, `Q`, `k`, `q` in that order.
pub open spec fn parse_castling(s: Seq<char>) -> Option<(CastlingRights, Seq<char>)> {
    let s1 = skip_flag(s, 'K');
    let s2 = skip_flag(s1, 'Q');
    let s3 = skip_flag(s2, 'k');
    let s4 = skip_flag(s3, 'q');
    let c = CastlingRights {
        white_king_side: has_flag(s, 'K'),
        white_queen_side: has_flag(s1, 'Q'),
        black_king_side: has_flag(s2, 'k'),
        black_queen_side: has_flag(s3, 'q'),
    };
    if has_flag(s, '-') {
        Some(
            (
                CastlingRights {
                    white_king_side: false,
                    white_queen_side: false,
                    black_king_side: false,
                    black_queen_side: false,
                },
                s.drop_first(),
            ),
        )
    } else if c.white_king_side || c.white_queen_side || c.black_king_side || c.black_queen_side {
        Some((c, s4))
    } else {
        None
    }
}

pub open spec fn is_file_char(c: char) -> bool {
    'a' as u32 <= c as u32 <= 'h' as u32
}

/// `-`, or a file letter and a rank digit.
pub open spec fn parse_ep(s: Seq<char>) -> Option<(Option<Square>, Seq<char>)> {
    if has_flag(s, '-') {
        Some((None, s.drop_first()))
    } else if s.len() >= 2 && is_file_char(s[0]) && is_digit(s[1]) && 1 <= digit_value(s[1]) <= 8 {
        Some(
            (
                Some(
                    Square {
                        file: (s[0] as u32 - 'a' as u32) as u8,
                        rank: (digit_value(s[1]) - 1) as u8,
                    },
                ),
                s.subrange(2, s.len() as int),
            ),
        )
    } else {
        None
    }
}

pub open spec fn digit_run(s: Seq<char>) -> nat
    decreases s.len(),
{
    if s.len() > 0 && is_digit(s[0]) {
        1 + digit_run(s.drop_first())
    } else {
        0
    }
}

pub open spec fn digits_value(t: Seq<char>) -> int
    decreases t.len(),
{
    if t.len() == 0 {
        0
    } else {
        digits_value(t.drop_last()) * 10 + digit_value(t.last())
    }
}

/// A decimal number that fits in a `u32`.
pub open spec fn parse_num(s: Seq<char>) -> Option<(int, Seq<char>)> {
    let k = digit_run(s) as int;
    let v = digits_value(s.take(k));
    if k == 0 || v > u32::MAX {
        None
    } else {
        Some((v, s.skip(k)))
    }
}

/// What follows the board: side to move, castling rights, en-passant target,
/// halfmove clock and fullmove number, up to the end of the text.
pub open spec fn parse_fields(s: Seq<char>) -> Option<
    (Color, CastlingRights, Option<Square>, int, int),
> {
    match parse_side(s) {
        None => None,
        Some(x2) => match after_space(x2.1) {
            None => None,
            Some(s2) => match parse_castling(s2) {
                None => None,
                Some(x3) => match after_space(x3.1) {
                    None => None,
                    Some(s3) => match parse_ep(s3) {
                        None => None,
                        Some(x4) => match after_space(x4.1) {
                            None => None,
                            Some(s4) => match parse_num(s4) {
                                None => None,
                                Some(x5) => match after_space(x5.1) {
                                    None => None,
                                    Some(s5) => match parse_num(s5) {
                                        None => None,
                                        Some(x6) => if x6.1.len() == 0 {
                                            Some((x2.0, x3.0, x4.0, x5.0, x6.0))
                                        } else {
                                            None
                                        },
                                    },
                                },
                            },
                        },
                    },
                },
            },
        },
    }
}

/// What a text says, if it is a position: board, side to move, castling
/// rights, en-passant target, halfmove clock and fullmove number.
pub open spec fn parse_position(s: Seq<char>) -> Option<
    (BoardModel, Color, CastlingRights, Option<Square>, int, int),
> {
    match parse_board(s, 7) {
        None => None,
        Some(x1) => match after_space(x1.1) {
            None => None,
            Some(s1) => match parse_fields(s1) {
                None => None,
                Some(y) => Some((x1.0, y.0, y.1, y.2, y.3, y.4)),
            },
        },
    }
}

// ---- the text reads back as the position it was written from ----

proof fn lemma_piece_char(p: Piece)
    ensures
        char_piece(piece_char(p)) == Some(p),
        !is_digit(piece_char(p)),
{
}

proof fn lemma_digit_char(n: int)
    requires
        0 <= n <= 9,
    ensures
        is_digit(digit_char(n)),
        digit_value(digit_char(n)) == n,
{
}

proof fn lemma_empty_run(b: BoardModel, r: int, lo: int, hi: int)
    requires
        b.len() == 64,
        0 <= r < 8,
        0 <= lo <= hi <= 8,
        forall|j: int| lo <= j < hi ==> #[trigger] at(b, j, r) is None,
    ensures
        b.subrange(r * 8 + lo, r * 8 + hi) =~= empties(hi - lo),
{
    assert forall|k: int| 0 <= k < hi - lo implies #[trigger] b.subrange(r * 8 + lo, r * 8 + hi)[k]
        == empties(hi - lo)[k] by {
        assert(at(b, lo + k, r) is None);
    }
}

#[verifier::rlimit(40)]
proof fn lemma_rank(b: BoardModel, r: int, f: int, run: int, rest: Seq<char>)
    requires
        b.len() == 64,
        0 <= r < 8,
        0 <= run <= f <= 8,
        forall|j: int| f - run <= j < f ==> #[trigger] at(b, j, r) is None,
    ensures
        parse_rank(rank_text(b, r, f, run) + rest, f - run) == Some(
            (b.subrange(r * 8 + f - run, r * 8 + 8), rest),
        ),
    decreases 8 - f,
{
    let text = rank_text(b, r, f, run) + rest;
    lemma_empty_run(b, r, f - run, f);
    if f >= 8 {
        if run > 0 {
            lemma_digit_char(run);
            assert(text[0] == digit_char(run));
            assert(text.drop_first() =~= rest);
            assert(parse_rank(rest, 8) == Some((Seq::<Option<Piece>>::empty(), rest)));
            assert(parse_rank(text, f - run) == prepend(empties(run), parse_rank(rest, 8)));
            assert(empties(run) + Seq::<Option<Piece>>::empty() =~= empties(run));
        } else {
            assert(text =~= rest);
            assert(Seq::<Option<Piece>>::empty() =~= b.subrange(r * 8 + 8, r * 8 + 8));
            assert(parse_rank(rest, 8) == Some((Seq::<Option<Piece>>::empty(), rest)));
        }
    } else {
        match at(b, f, r) {
            None => {
                lemma_rank(b, r, f + 1, run + 1, rest);
            },
            Some(p) => {
                let t = rank_text(b, r, f + 1, 0) + rest;
                lemma_rank(b, r, f + 1, 0, rest);
                lemma_piece_char(p);
                let ps = seq![piece_char(p)] + t;
                assert(ps[0] == piece_char(p));
                assert(ps.drop_first() =~= t);
                let tail = b.subrange(r * 8 + f + 1, r * 8 + 8);
                assert(seq![Some(p)] + tail =~= b.subrange(r * 8 + f, r * 8 + 8));
                assert(parse_rank(t, f + 1) == Some((tail, rest)));
                assert(parse_rank(ps, f) == prepend(seq![Some(p)], parse_rank(t, f + 1)));
                assert(parse_rank(ps, f) == Some((b.subrange(r * 8 + f, r * 8 + 8), rest)));
                if run > 0 {
                    lemma_digit_char(run);
                    assert(rank_text(b, r, f, run) == run_text(run) + seq![piece_char(p)]
                        + rank_text(b, r, f + 1, 0));
                    assert(text =~= seq![digit_char(run)] + ps);
                    assert(text.drop_first() =~= ps);
                    assert(text[0] == digit_char(run));
                    assert(empties(run) + b.subrange(r * 8 + f, r * 8 + 8) =~= b.subrange(
                        r * 8 + f - run,
                        r * 8 + 8,
                    ));
                    assert(parse_rank(text, f - run) == prepend(empties(run), parse_rank(ps, f)));
                } else {
                    assert(text =~= ps);
                }
            },
        }
    }
}

proof fn lemma_board(b: BoardModel, r: int, rest: Seq<char>)
    requires
        b.len() == 64,
        0 <= r < 8,
    ensures
        parse_board(board_text(b, r) + rest, r) == Some((b.subrange(0, r * 8 + 8), rest)),
    decreases r,
{
    if r <= 0 {
        lemma_rank(b, r, 0, 0, rest);
    } else {
        let lower = board_text(b, r - 1) + rest;
        let after = seq!['/'] + lower;
        lemma_rank(b, r, 0, 0, after);
        assert(board_text(b, r) + rest =~= rank_text(b, r, 0, 0) + after);
        assert(after.drop_first() =~= lower);
        lemma_board(b, r - 1, rest);
        assert(b.subrange(0, r * 8) + b.subrange(r * 8, r * 8 + 8) =~= b.subrange(0, r * 8 + 8));
    }
}

proof fn lemma_nat_text(n: nat)
    ensures
        forall|i: int| 0 <= i < nat_text(n).len() ==> is_digit(#[trigger] nat_text(n)[i]),
        digits_value(nat_text(n)) == n,
        nat_text(n).len() >= 1,
    decreases n,
{
    if n < 10 {
        lemma_digit_char(n as int);
        assert(nat_text(n).drop_last() =~= Seq::<char>::empty());
        assert(digits_value(Seq::<char>::empty()) == 0);
    } else {
        lemma_nat_text(n / 10);
        lemma_digit_char((n % 10) as int);
        let t = nat_text(n);
        assert(t.drop_last() =~= nat_text(n / 10));
        assert(t.last() == digit_char((n % 10) as int));
        assert(digits_value(t) == digits_value(t.drop_last()) * 10 + digit_value(t.last()));
        assert(digits_value(t) == (n / 10) as int * 10 + (n % 10) as int);
        vstd::arithmetic::div_mod::lemma_fundamental_div_mod(n as int, 10);
    }
}

proof fn lemma_digit_run(t: Seq<char>, rest: Seq<char>)
    requires
        forall|i: int| 0 <= i < t.len() ==> is_digit(#[trigger] t[i]),
        rest.len() == 0 || !is_digit(rest[0]),
    ensures
        digit_run(t + rest) == t.len(),
    decreases t.len(),
{
    if t.len() == 0 {
        assert(t + rest =~= rest);
    } else {
        assert((t + rest)[0] == t[0]);
        assert((t + rest).drop_first() =~= t.drop_first() + rest);
        lemma_digit_run(t.drop_first(), rest);
    }
}

proof fn lemma_num(n: nat, rest: Seq<char>)
    requires
        n <= u32::MAX,
        rest.len() == 0 || !is_digit(rest[0]),
    ensures
        parse_num(nat_text(n) + rest) == Some((n as int, rest)),
{
    let t = nat_text(n);
    lemma_nat_text(n);
    lemma_digit_run(t, rest);
    assert((t + rest).take(t.len() as int) =~= t);
    assert((t + rest).skip(t.len() as int) =~= rest);
}

proof fn lemma_flag(on: bool, ch: char, t: Seq<char>)
    requires
        t.len() > 0,
        t[0] != ch,
    ensures
        has_flag(flag_text(on, ch) + t, ch) == on,
        skip_flag(flag_text(on, ch) + t, ch) == t,
        (flag_text(on, ch) + t).len() > 0,
        (flag_text(on, ch) + t)[0] == if on {
            ch
        } else {
            t[0]
        },
{
    let s = flag_text(on, ch) + t;
    if on {
        assert(s.drop_first() =~= t);
    } else {
        assert(s =~= t);
    }
}

proof fn lemma_castling(c: CastlingRights, rest: Seq<char>)
    requires
        rest.len() > 0,
        rest[0] == ' ',
    ensures
        parse_castling(castling_text(c) + rest) == Some((c, rest)),
{
    let s = castling_text(c) + rest;
    if !(c.white_king_side || c.white_queen_side || c.black_king_side || c.black_queen_side) {
        assert(s.drop_first() =~= rest);
    } else {
        let t3 = flag_text(c.black_queen_side, 'q') + rest;
        let t2 = flag_text(c.black_king_side, 'k') + t3;
        let t1 = flag_text(c.white_queen_side, 'Q') + t2;
        lemma_flag(c.black_queen_side, 'q', rest);
        lemma_flag(c.black_king_side, 'k', t3);
        lemma_flag(c.white_queen_side, 'Q', t2);
        lemma_flag(c.white_king_side, 'K', t1);
        assert(s =~= flag_text(c.white_king_side, 'K') + t1);
    }
}

proof fn lemma_ep(e: Option<Square>, rest: Seq<char>)
    requires
        e is Some ==> e->0.valid(),
    ensures
        parse_ep(ep_text(e) + rest) == Some((e, rest)),
{
    let s = ep_text(e) + rest;
    match e {
        None => {
            assert(s.drop_first() =~= rest);
        },
        Some(q) => {
            lemma_digit_char(q.rank as int + 1);
            assert(s.subrange(2, s.len() as int) =~= rest);
        },
    }
}

proof fn lemma_fields(
    side: Color,
    castling: CastlingRights,
    ep: Option<Square>,
    halfmove: u32,
    fullmove: u32,
)
    requires
        ep is Some ==> ep->0.valid(),
    ensures
        parse_fields(fields_text(side, castling, ep, halfmove as nat, fullmove as nat)) == Some(
            (side, castling, ep, halfmove as int, fullmove as int),
        ),
{
    let s5 = nat_text(fullmove as nat);
    let r5 = seq![' '] + s5;
    let s4 = nat_text(halfmove as nat) + r5;
    let r4 = seq![' '] + s4;
    let s3 = ep_text(ep) + r4;
    let r3 = seq![' '] + s3;
    let s2 = castling_text(castling) + r3;
    let r2 = seq![' '] + s2;
    let s1 = side_text(side) + r2;
    assert(s1.drop_first() =~= r2);
    assert(parse_side(s1) == Some((side, r2)));
    assert(r2.drop_first() =~= s2);
    assert(after_space(r2) == Some(s2));
    lemma_castling(castling, r3);
    assert(r3.drop_first() =~= s3);
    assert(after_space(r3) == Some(s3));
    lemma_ep(ep, r4);
    assert(r4.drop_first() =~= s4);
    assert(after_space(r4) == Some(s4));
    lemma_num(halfmove as nat, r5);
    assert(r5.drop_first() =~= s5);
    assert(after_space(r5) == Some(s5));
    lemma_num(fullmove as nat, Seq::empty());
    assert(s5 + Seq::<char>::empty() =~= s5);
}

/// Writing a position out and reading the text back gives the same board, side
/// to move, castling rights, en-passant target and move counters.
pub proof fn position_text_round_trip(
    b: BoardModel,
    side: Color,
    castling: CastlingRights,
    ep: Option<Square>,
    halfmove: u32,
    fullmove: u32,
)
    requires
        b.len() == 64,
        ep is Some ==> ep->0.valid(),
    ensures
        parse_position(position_text(b, side, castling, ep, halfmove as nat, fullmove as nat))
            == Some((b, side, castling, ep, halfmove as int, fullmove as int)),
{
    let s1 = fields_text(side, castling, ep, halfmove as nat, fullmove as nat);
    let r1 = seq![' '] + s1;
    let text = position_text(b, side, castling, ep, halfmove as nat, fullmove as nat);
    lemma_board(b, 7, r1);
    assert(b.subrange(0, 64) =~= b);
    assert(r1.drop_first() =~= s1);
    lemma_fields(side, castling, ep, halfmove, fullmove);
}


// ---- writing ----

/// Relies on `String`'s `FromIterator<char>`: the string holds the characters in order.
#[verifier::external_body]
fn string_from_chars(cs: &Vec<char>) -> (s: String)
    ensures
        s@ == cs@,
{
    cs.iter().collect()
}

fn digit_of(n: u32) -> (c: char)
    requires
        n < 10,
    ensures
        c == digit_char(n as int),
{
    (n as u8 + 48u8) as char
}

fn piece_letter(p: Piece) -> (c: char)
    ensures
        c == piece_char(p),
{
    match p.color {
        Color::White => match p.kind {
            PieceKind::Pawn => 'P',
            PieceKind::Knight => 'N',
            PieceKind::Bishop => 'B',
            PieceKind::Rook => 'R',
            PieceKind::Queen => 'Q',
            PieceKind::King => 'K',
        },
        Color::Black => match p.kind {
            PieceKind::Pawn => 'p',
            PieceKind::Knight => 'n',
            PieceKind::Bishop => 'b',
            PieceKind::Rook => 'r',
            PieceKind::Queen => 'q',
            PieceKind::King => 'k',
        },
    }
}

fn push_run(out: &mut Vec<char>, run: u32)
    requires
        run <= 8,
    ensures
        final(out)@ == old(out)@ + run_text(run as int),
{
    if run > 0 {
        out.push(digit_of(run));
    } else {
        assert(old(out)@ + run_text(run as int) =~= old(out)@);
    }
}

fn push_rank(b: &Vec<Option<Piece>>, r: i32, out: &mut Vec<char>)
    requires
        b@.len() == 64,
        0 <= r < 8,
    ensures
        final(out)@ == old(out)@ + rank_text(b@, r as int, 0, 0),
{
    let ghost start = out@;
    let mut f: i32 = 0;
    let mut run: u32 = 0;
    assert(out@ + rank_text(b@, r as int, 0, 0) =~= start + rank_text(b@, r as int, 0, 0));
    while f < 8
        invariant
            b@.len() == 64,
            0 <= r < 8,
            0 <= run <= f <= 8,
            out@ + rank_text(b@, r as int, f as int, run as int) == start + rank_text(
                b@,
                r as int,
                0,
                0,
            ),
        decreases 8 - f,
    {
        match get(b, f, r) {
            None => {
                run = run + 1;
            },
            Some(p) => {
                let ghost before = out@;
                push_run(out, run);
                out.push(piece_letter(p));
                assert(before + rank_text(b@, r as int, f as int, run as int) =~= out@
                    + rank_text(b@, r as int, f + 1, 0));
                run = 0;
            },
        }
        f = f + 1;
    }
    push_run(out, run);
}

fn push_board(b: &Vec<Option<Piece>>, out: &mut Vec<char>)
    requires
        b@.len() == 64,
    ensures
        final(out)@ == old(out)@ + board_text(b@, 7),
{
    let ghost start = out@;
    let mut r: i32 = 7;
    while r > 0
        invariant
            b@.len() == 64,
            0 <= r <= 7,
            out@ + board_text(b@, r as int) == start + board_text(b@, 7),
        decreases r,
    {
        let ghost before = out@;
        push_rank(b, r, out);
        out.push('/');
        assert(before + board_text(b@, r as int) =~= out@ + board_text(b@, r - 1));
        r = r - 1;
    }
    push_rank(b, 0, out);
}

fn push_nat(out: &mut Vec<char>, n: u32)
    ensures
        final(out)@ == old(out)@ + nat_text(n as nat),
    decreases n,
{
    if n < 10 {
        out.push(digit_of(n));
    } else {
        push_nat(out, n / 10);
        out.push(digit_of(n % 10));
        assert(final(out)@ =~= old(out)@ + nat_text(n as nat));
    }
}

fn push_flag(out: &mut Vec<char>, on: bool, c: char)
    ensures
        final(out)@ == old(out)@ + flag_text(on, c),
{
    if on {
        out.push(c);
    } else {
        assert(old(out)@ + flag_text(on, c) =~= old(out)@);
    }
}

fn push_castling(out: &mut Vec<char>, castling: CastlingRights)
    ensures
        final(out)@ == old(out)@ + castling_text(castling),
{
    if !(castling.white_king_side || castling.white_queen_side || castling.black_king_side
        || castling.black_queen_side) {
        out.push('-');
    } else {
        push_flag(out, castling.white_king_side, 'K');
        push_flag(out, castling.white_queen_side, 'Q');
        push_flag(out, castling.black_king_side, 'k');
        push_flag(out, castling.black_queen_side, 'q');
        assert(final(out)@ =~= old(out)@ + castling_text(castling));
    }
}

fn push_ep(out: &mut Vec<char>, ep: Option<Square>)
    requires
        ep is Some ==> ep->0.valid(),
    ensures
        final(out)@ == old(out)@ + ep_text(ep),
{
    match ep {
        None => {
            out.push('-');
        },
        Some(q) => {
            out.push((q.file + 97u8) as char);
            out.push(digit_of(q.rank as u32 + 1));
            assert(final(out)@ =~= old(out)@ + ep_text(ep));
        },
    }
}

fn push_counters(out: &mut Vec<char>, halfmove: u32, fullmove: u32)
    ensures
        final(out)@ == old(out)@ + (nat_text(halfmove as nat) + (seq![' '] + nat_text(
            fullmove as nat,
        ))),
{
    push_nat(out, halfmove);
    out.push(' ');
    push_nat(out, fullmove);
    assert(final(out)@ =~= old(out)@ + (nat_text(halfmove as nat) + (seq![' '] + nat_text(
        fullmove as nat,
    ))));
}

fn push_ep_on(out: &mut Vec<char>, ep: Option<Square>, halfmove: u32, fullmove: u32)
    requires
        ep is Some ==> ep->0.valid(),
    ensures
        final(out)@ == old(out)@ + (ep_text(ep) + (seq![' '] + (nat_text(halfmove as nat) + (seq![
            ' ',
        ] + nat_text(fullmove as nat))))),
{
    push_ep(out, ep);
    out.push(' ');
    push_counters(out, halfmove, fullmove);
    assert(final(out)@ =~= old(out)@ + (ep_text(ep) + (seq![' '] + (nat_text(halfmove as nat) + (
    seq![' '] + nat_text(fullmove as nat))))));
}

fn push_castling_on(
    out: &mut Vec<char>,
    castling: CastlingRights,
    ep: Option<Square>,
    halfmove: u32,
    fullmove: u32,
)
    requires
        ep is Some ==> ep->0.valid(),
    ensures
        final(out)@ == old(out)@ + (castling_text(castling) + (seq![' '] + (ep_text(ep) + (seq![
            ' ',
        ] + (nat_text(halfmove as nat) + (seq![' '] + nat_text(fullmove as nat))))))),
{
    push_castling(out, castling);
    out.push(' ');
    push_ep_on(out, ep, halfmove, fullmove);
    assert(final(out)@ =~= old(out)@ + (castling_text(castling) + (seq![' '] + (ep_text(ep) + (
    seq![' '] + (nat_text(halfmove as nat) + (seq![' '] + nat_text(fullmove as nat))))))));
}

fn push_fields(
    out: &mut Vec<char>,
    side: Color,
    castling: CastlingRights,
    ep: Option<Square>,
    halfmove: u32,
    fullmove: u32,
)
    requires
        ep is Some ==> ep->0.valid(),
    ensures
        final(out)@ == old(out)@ + fields_text(side, castling, ep, halfmove as nat, fullmove as nat),
{
    out.push(
        match side {
            Color::White => 'w',
            Color::Black => 'b',
        },
    );
    out.push(' ');
    push_castling_on(out, castling, ep, halfmove, fullmove);
    assert(final(out)@ =~= old(out)@ + fields_text(
        side,
        castling,
        ep,
        halfmove as nat,
        fullmove as nat,
    ));
}

/// Writes a position in the text form that `parse_position` reads.
pub fn write_position(
    b: &Vec<Option<Piece>>,
    side: Color,
    castling: CastlingRights,
    ep: Option<Square>,
    halfmove: u32,
    fullmove: u32,
) -> (s: String)
    requires
        b@.len() == 64,
        ep is Some ==> ep->0.valid(),
    ensures
        s@ == position_text(b@, side, castling, ep, halfmove as nat, fullmove as nat),
{
    let mut out: Vec<char> = Vec::new();
    push_board(b, &mut out);
    out.push(' ');
    push_fields(&mut out, side, castling, ep, halfmove, fullmove);
    assert(out@ =~= position_text(b@, side, castling, ep, halfmove as nat, fullmove as nat));
    string_from_chars(&out)
}


// ---- reading ----

/// The text from index `i` on.
pub open spec fn suffix(s: Seq<char>, i: int) -> Seq<char> {
    s.subrange(i, s.len() as int)
}

proof fn lemma_suffix(s: Seq<char>, i: int)
    requires
        0 <= i < s.len(),
    ensures
        suffix(s, i).len() > 0,
        suffix(s, i)[0] == s[i],
        suffix(s, i).drop_first() == suffix(s, i + 1),
{
    assert(suffix(s, i).drop_first() =~= suffix(s, i + 1));
}

/// A reader that returns a value and the index after it agrees with `spec`.
pub open spec fn read_as<T>(cs: Seq<char>, r: Option<(T, usize)>, spec: Option<(T, Seq<char>)>) -> bool {
    match spec {
        None => r is None,
        Some(x) => r is Some && (r->0).0 == x.0 && (r->0).1 <= cs.len() && suffix(cs, (r->0).1 as int)
            == x.1,
    }
}

fn piece_of_char(c: char) -> (r: Option<Piece>)
    ensures
        r == char_piece(c),
{
    let w = Color::White;
    let b = Color::Black;
    let (color, kind) = if c == 'P' {
        (w, PieceKind::Pawn)
    } else if c == 'N' {
        (w, PieceKind::Knight)
    } else if c == 'B' {
        (w, PieceKind::Bishop)
    } else if c == 'R' {
        (w, PieceKind::Rook)
    } else if c == 'Q' {
        (w, PieceKind::Queen)
    } else if c == 'K' {
        (w, PieceKind::King)
    } else if c == 'p' {
        (b, PieceKind::Pawn)
    } else if c == 'n' {
        (b, PieceKind::Knight)
    } else if c == 'b' {
        (b, PieceKind::Bishop)
    } else if c == 'r' {
        (b, PieceKind::Rook)
    } else if c == 'q' {
        (b, PieceKind::Queen)
    } else if c == 'k' {
        (b, PieceKind::King)
    } else {
        return None;
    };
    Some(Piece { color, kind })
}

fn digit_in(c: char) -> (r: Option<u32>)
    ensures
        r is Some <==> is_digit(c),
        r is Some ==> r->0 as int == digit_value(c) && r->0 < 10,
{
    if '0' <= c && c <= '9' {
        Some(c as u32 - '0' as u32)
    } else {
        None
    }
}

fn read_rank(cs: &Vec<char>, i: usize, f: u32) -> (r: Option<(Vec<Option<Piece>>, usize)>)
    requires
        i <= cs@.len(),
        f <= 8,
    ensures
        match parse_rank(suffix(cs@, i as int), f as int) {
            None => r is None,
            Some(x) => r is Some && (r->0).0@ == x.0 && (r->0).1 <= cs@.len() && suffix(
                cs@,
                (r->0).1 as int,
            ) == x.1,
        },
    decreases cs@.len() - i,
{
    if f >= 8 {
        return Some((Vec::new(), i));
    }
    if i >= cs.len() {
        return None;
    }
    proof {
        lemma_suffix(cs@, i as int);
    }
    let c = cs[i];
    match digit_in(c) {
        Some(d) => {
            if 1 <= d && f + d <= 8 {
                match read_rank(cs, i + 1, f + d) {
                    None => None,
                    Some((mut tail, j)) => {
                        let mut cells: Vec<Option<Piece>> = Vec::new();
                        let mut k: u32 = 0;
                        while k < d
                            invariant
                                k <= d,
                                cells@ == empties(k as int),
                            decreases d - k,
                        {
                            cells.push(None);
                            k = k + 1;
                            assert(cells@ =~= empties(k as int));
                        }
                        cells.append(&mut tail);
                        Some((cells, j))
                    },
                }
            } else {
                None
            }
        },
        None => match piece_of_char(c) {
            Some(p) => match read_rank(cs, i + 1, f + 1) {
                None => None,
                Some((mut tail, j)) => {
                    let mut cells: Vec<Option<Piece>> = Vec::new();
                    cells.push(Some(p));
                    cells.append(&mut tail);
                    Some((cells, j))
                },
            },
            None => None,
        },
    }
}

fn read_board(cs: &Vec<char>, i: usize, r: u32) -> (res: Option<(Vec<Option<Piece>>, usize)>)
    requires
        i <= cs@.len(),
    ensures
        match parse_board(suffix(cs@, i as int), r as int) {
            None => res is None,
            Some(x) => res is Some && (res->0).0@ == x.0 && (res->0).1 <= cs@.len() && suffix(
                cs@,
                (res->0).1 as int,
            ) == x.1,
        },
    decreases r,
{
    match read_rank(cs, i, 0) {
        None => None,
        Some((mut cells, j)) => {
            if r == 0 {
                Some((cells, j))
            } else if j < cs.len() && cs[j] == '/' {
                proof {
                    lemma_suffix(cs@, j as int);
                }
                match read_board(cs, j + 1, r - 1) {
                    None => None,
                    Some((mut lower, k)) => {
                        lower.append(&mut cells);
                        Some((lower, k))
                    },
                }
            } else {
                None
            }
        },
    }
}


fn read_space(cs: &Vec<char>, i: usize) -> (r: Option<usize>)
    requires
        i <= cs@.len(),
    ensures
        match after_space(suffix(cs@, i as int)) {
            None => r is None,
            Some(rest) => r is Some && r->0 <= cs@.len() && suffix(cs@, r->0 as int) == rest,
        },
{
    if i < cs.len() && cs[i] == ' ' {
        proof {
            lemma_suffix(cs@, i as int);
        }
        Some(i + 1)
    } else {
        None
    }
}

fn read_side(cs: &Vec<char>, i: usize) -> (r: Option<(Color, usize)>)
    requires
        i <= cs@.len(),
    ensures
        read_as(cs@, r, parse_side(suffix(cs@, i as int))),
{
    if i < cs.len() {
        proof {
            lemma_suffix(cs@, i as int);
        }
        if cs[i] == 'w' {
            return Some((Color::White, i + 1));
        } else if cs[i] == 'b' {
            return Some((Color::Black, i + 1));
        }
    }
    None
}

fn read_flag(cs: &Vec<char>, i: usize, c: char) -> (r: (bool, usize))
    requires
        i <= cs@.len(),
    ensures
        r.0 == has_flag(suffix(cs@, i as int), c),
        r.1 <= cs@.len(),
        suffix(cs@, r.1 as int) == skip_flag(suffix(cs@, i as int), c),
{
    if i < cs.len() && cs[i] == c {
        proof {
            lemma_suffix(cs@, i as int);
        }
        (true, i + 1)
    } else {
        (false, i)
    }
}

fn read_castling(cs: &Vec<char>, i: usize) -> (r: Option<(CastlingRights, usize)>)
    requires
        i <= cs@.len(),
    ensures
        read_as(cs@, r, parse_castling(suffix(cs@, i as int))),
{
    let (dash, i1) = read_flag(cs, i, '-');
    if dash {
        return Some(
            (
                CastlingRights {
                    white_king_side: false,
                    white_queen_side: false,
                    black_king_side: false,
                    black_queen_side: false,
                },
                i1,
            ),
        );
    }
    let (wk, j1) = read_flag(cs, i, 'K');
    let (wq, j2) = read_flag(cs, j1, 'Q');
    let (bk, j3) = read_flag(cs, j2, 'k');
    let (bq, j4) = read_flag(cs, j3, 'q');
    if wk || wq || bk || bq {
        Some(
            (
                CastlingRights {
                    white_king_side: wk,
                    white_queen_side: wq,
                    black_king_side: bk,
                    black_queen_side: bq,
                },
                j4,
            ),
        )
    } else {
        None
    }
}

fn read_ep(cs: &Vec<char>, i: usize) -> (r: Option<(Option<Square>, usize)>)
    requires
        i <= cs@.len(),
    ensures
        read_as(cs@, r, parse_ep(suffix(cs@, i as int))),
{
    let (dash, i1) = read_flag(cs, i, '-');
    if dash {
        return Some((None, i1));
    }
    if cs.len() - i >= 2 {
        let ghost s = suffix(cs@, i as int);
        assert(s[0] == cs@[i as int] && s[1] == cs@[i + 1]);
        assert(s.subrange(2, s.len() as int) =~= suffix(cs@, i + 2));
        let c = cs[i];
        if 97u32 <= c as u32 && c as u32 <= 104u32 {
            match digit_in(cs[i + 1]) {
                Some(d) => {
                    if 1 <= d && d <= 8 {
                        let file = (c as u32 - 'a' as u32) as u8;
                        return Some((Some(Square { file, rank: (d - 1) as u8 }), i + 2));
                    }
                },
                None => {},
            }
        }
    }
    None
}

proof fn lemma_run_digits(s: Seq<char>)
    ensures
        digit_run(s) <= s.len(),
        forall|k: int| 0 <= k < digit_run(s) ==> is_digit(#[trigger] s[k]),
    decreases s.len(),
{
    if s.len() > 0 && is_digit(s[0]) {
        lemma_run_digits(s.drop_first());
        assert forall|k: int| 0 <= k < digit_run(s) implies is_digit(#[trigger] s[k]) by {
            if k > 0 {
                assert(s[k] == s.drop_first()[k - 1]);
            }
        }
    }
}

proof fn lemma_digits_grow(t: Seq<char>)
    requires
        forall|k: int| 0 <= k < t.len() ==> is_digit(#[trigger] t[k]),
    ensures
        digits_value(t) >= 0,
        t.len() > 0 ==> digits_value(t) >= digits_value(t.drop_last()),
    decreases t.len(),
{
    if t.len() > 0 {
        lemma_digits_grow(t.drop_last());
    }
}

proof fn lemma_digits_mono(t: Seq<char>, a: int, b: int)
    requires
        0 <= a <= b <= t.len(),
        forall|k: int| 0 <= k < b ==> is_digit(#[trigger] t[k]),
    ensures
        digits_value(t.take(a)) <= digits_value(t.take(b)),
    decreases b - a,
{
    if a < b {
        lemma_digits_mono(t, a, b - 1);
        assert(t.take(b).drop_last() =~= t.take(b - 1));
        lemma_digits_grow(t.take(b));
    }
}

fn read_num(cs: &Vec<char>, i: usize) -> (r: Option<(u32, usize)>)
    requires
        i <= cs@.len(),
    ensures
        match parse_num(suffix(cs@, i as int)) {
            None => r is None,
            Some(x) => r is Some && (r->0).0 as int == x.0 && (r->0).1 <= cs@.len() && suffix(
                cs@,
                (r->0).1 as int,
            ) == x.1,
        },
{
    let ghost s = suffix(cs@, i as int);
    let mut j: usize = i;
    let mut acc: u64 = 0;
    assert(s.take(0) =~= Seq::<char>::empty());
    while j < cs.len() && digit_in(cs[j]).is_some()
        invariant
            i <= j <= cs@.len(),
            s == suffix(cs@, i as int),
            acc <= u32::MAX,
            acc == digits_value(s.take(j - i)),
            digit_run(s) == (j - i) + digit_run(suffix(cs@, j as int)),
        decreases cs@.len() - j,
    {
        let d = match digit_in(cs[j]) {
            Some(d) => d,
            None => 0,
        };
        proof {
            lemma_suffix(cs@, j as int);
            assert(s.take(j + 1 - i).drop_last() =~= s.take(j - i));
            assert(s[j - i] == cs@[j as int]);
        }
        acc = acc * 10 + d as u64;
        if acc > u32::MAX as u64 {
            proof {
                lemma_run_digits(s);
                lemma_digits_mono(s, j + 1 - i, digit_run(s) as int);
            }
            return None;
        }
        j = j + 1;
    }
    proof {
        if j == cs@.len() {
            assert(suffix(cs@, j as int).len() == 0);
        } else {
            lemma_suffix(cs@, j as int);
        }
        assert(digit_run(suffix(cs@, j as int)) == 0);
    }
    if j == i {
        return None;
    }
    assert(s.skip(j - i) =~= suffix(cs@, j as int));
    Some((acc as u32, j))
}


fn read_fields(cs: &Vec<char>, i: usize) -> (r: Option<(Color, CastlingRights, Option<Square>, u32, u32)>)
    requires
        i <= cs@.len(),
    ensures
        match parse_fields(suffix(cs@, i as int)) {
            None => r is None,
            Some(x) => r is Some && (r->0).0 == x.0 && (r->0).1 == x.1 && (r->0).2 == x.2 && (r->0).3 as int
                == x.3 && (r->0).4 as int == x.4,
        },
{
    let (side, i1) = match read_side(cs, i) {
        Some(x) => x,
        None => { return None; },
    };
    let i2 = match read_space(cs, i1) {
        Some(x) => x,
        None => { return None; },
    };
    let (castling, i3) = match read_castling(cs, i2) {
        Some(x) => x,
        None => { return None; },
    };
    let i4 = match read_space(cs, i3) {
        Some(x) => x,
        None => { return None; },
    };
    let (ep, i5) = match read_ep(cs, i4) {
        Some(x) => x,
        None => { return None; },
    };
    let i6 = match read_space(cs, i5) {
        Some(x) => x,
        None => { return None; },
    };
    let (halfmove, i7) = match read_num(cs, i6) {
        Some(x) => x,
        None => { return None; },
    };
    let i8 = match read_space(cs, i7) {
        Some(x) => x,
        None => { return None; },
    };
    let (fullmove, i9) = match read_num(cs, i8) {
        Some(x) => x,
        None => { return None; },
    };
    if i9 == cs.len() {
        Some((side, castling, ep, halfmove, fullmove))
    } else {
        None
    }
}

proof fn lemma_rank_len(s: Seq<char>, f: int)
    requires
        f <= 8,
    ensures
        parse_rank(s, f) is Some ==> (parse_rank(s, f)->0).0.len() == 8 - f,
    decreases s.len(),
{
    if f < 8 && s.len() > 0 {
        if is_digit(s[0]) && 1 <= digit_value(s[0]) && f + digit_value(s[0]) <= 8 {
            lemma_rank_len(s.drop_first(), f + digit_value(s[0]));
        } else if char_piece(s[0]) is Some {
            lemma_rank_len(s.drop_first(), f + 1);
        }
    }
}

proof fn lemma_board_len(s: Seq<char>, r: int)
    requires
        r >= 0,
    ensures
        parse_board(s, r) is Some ==> (parse_board(s, r)->0).0.len() == 8 * r + 8,
    decreases r,
{
    lemma_rank_len(s, 0);
    if r > 0 {
        match parse_rank(s, 0) {
            Some(x) => {
                if x.1.len() > 0 {
                    lemma_board_len(x.1.drop_first(), r - 1);
                }
            },
            None => {},
        }
    }
}

/// Reads a position from its text: board, side to move, castling rights,
/// en-passant target, halfmove clock and fullmove number.
pub fn read_position(text: &str) -> (r: Option<
    (Vec<Option<Piece>>, Color, CastlingRights, Option<Square>, u32, u32),
>)
    ensures
        match parse_position(text@) {
            None => r is None,
            Some(x) => r is Some && (r->0).0@ == x.0 && (r->0).1 == x.1 && (r->0).2 == x.2 && (r->0).3
                == x.3 && (r->0).4 as int == x.4 && (r->0).5 as int == x.5,
        },
        r is Some ==> (r->0).0@.len() == 64 && ((r->0).3 is Some ==> (r->0).3->0.valid()),
{
    proof {
        lemma_board_len(text@, 7);
    }
    let n = text.unicode_len();
    let mut cs: Vec<char> = Vec::new();
    let mut k: usize = 0;
    while k < n
        invariant
            k <= n,
            n == text@.len(),
            cs@ == text@.take(k as int),
        decreases n - k,
    {
        cs.push(text.get_char(k));
        k = k + 1;
        assert(cs@ =~= text@.take(k as int));
    }
    assert(cs@ =~= text@);
    assert(suffix(cs@, 0) =~= cs@);
    let (board, i) = match read_board(&cs, 0, 7) {
        Some(x) => x,
        None => { return None; },
    };
    let i1 = match read_space(&cs, i) {
        Some(x) => x,
        None => { return None; },
    };
    match read_fields(&cs, i1) {
        Some((side, castling, ep, halfmove, fullmove)) => Some(
            (board, side, castling, ep, halfmove, fullmove),
        ),
        None => None,
    }
}

} // verus!
