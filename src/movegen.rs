use vstd::prelude::*;
use crate::types::{Move, PieceKind, Square};
use crate::board::get;
use crate::rules::{Position, is_legal, is_pseudo_legal};

verus! {

/// The moves a generator keeps: the legal ones, or all pseudo-legal ones.
pub open spec fn keeps(pos: Position, legal_only: bool, m: Move) -> bool {
    if legal_only {
        is_legal(pos, m)
    } else {
        is_pseudo_legal(pos, m)
    }
}

pub open spec fn to_before(s: Square, rank: int, file: int) -> bool {
    (s.rank as int) < rank || (s.rank as int == rank && (s.file as int) < file)
}

proof fn lemma_push_contains(s: Seq<Move>, a: Move)
    ensures
        forall|x: Move| #[trigger] s.push(a).contains(x) <==> (s.contains(x) || x == a),
{
    assert forall|x: Move| #[trigger] s.push(a).contains(x) <==> (s.contains(x) || x == a) by {
        if s.contains(x) {
            let i = choose|i: int| 0 <= i < s.len() && s[i] == x;
            assert(s.push(a)[i] == x);
        }
        if x == a {
            assert(s.push(a)[s.len() as int] == x);
        }
        if s.push(a).contains(x) {
            let j = choose|j: int| 0 <= j < s.push(a).len() && s.push(a)[j] == x;
            if j < s.len() {
                assert(s[j] == x);
            }
        }
    }
}

impl Position {
    fn consider(&self, legal_only: bool, m: Move, out: &mut Vec<Move>)
        requires
            self.wf(),
            old(out)@.no_duplicates(),
            !old(out)@.contains(m),
        ensures
            final(out)@.no_duplicates(),
            forall|x: Move| #[trigger]
                final(out)@.contains(x) <==> (old(out)@.contains(x) || (x == m && keeps(
                    *self,
                    legal_only,
                    m,
                ))),
    {
        let keep = if legal_only {
            self.check_legal(m)
        } else {
            self.check_pseudo_legal(m)
        };
        if keep {
            proof {
                lemma_push_contains(out@, m);
            }
            out.push(m);
        }
    }

    /// Every kept move from `from` to `to`, by the kind of the moving piece:
    /// pawns may promote or take en passant, kings may castle.
    fn moves_between(&self, legal_only: bool, from: Square, to: Square, out: &mut Vec<Move>)
        requires
            self.wf(),
            from.valid(),
            to.valid(),
            old(out)@.no_duplicates(),
            forall|x: Move| #[trigger] old(out)@.contains(x) ==> !(x.from == from && x.to == to),
        ensures
            final(out)@.no_duplicates(),
            forall|x: Move| #[trigger]
                final(out)@.contains(x) <==> (old(out)@.contains(x) || (x.from == from && x.to
                    == to && keeps(*self, legal_only, x))),
    {
        let ghost start = out@;
        let mv = |promotion: Option<PieceKind>, is_castle: bool, is_en_passant: bool|
            -> (r: Move)
            ensures
                r == (Move { from, to, promotion, is_castle, is_en_passant }),
            { Move { from, to, promotion, is_castle, is_en_passant } };
        match get(&self.board, from.file as i32, from.rank as i32) {
            None => {},
            Some(p) => {
                match p.kind {
                    PieceKind::Pawn => {
                        self.consider(legal_only, mv(None, false, false), out);
                        self.consider(legal_only, mv(None, false, true), out);
                        self.consider(legal_only, mv(Some(PieceKind::Queen), false, false), out);
                        self.consider(legal_only, mv(Some(PieceKind::Rook), false, false), out);
                        self.consider(legal_only, mv(Some(PieceKind::Bishop), false, false), out);
                        self.consider(legal_only, mv(Some(PieceKind::Knight), false, false), out);
                        self.consider(legal_only, mv(Some(PieceKind::Queen), false, true), out);
                        self.consider(legal_only, mv(Some(PieceKind::Rook), false, true), out);
                        self.consider(legal_only, mv(Some(PieceKind::Bishop), false, true), out);
                        self.consider(legal_only, mv(Some(PieceKind::Knight), false, true), out);
                    },
                    PieceKind::King => {
                        self.consider(legal_only, mv(None, false, false), out);
                        self.consider(legal_only, mv(None, true, false), out);
                    },
                    _ => {
                        self.consider(legal_only, mv(None, false, false), out);
                    },
                }
            },
        }
    }

    /// Every kept move from `from`.
    pub(crate) fn moves_from(&self, legal_only: bool, from: Square, out: &mut Vec<Move>)
        requires
            self.wf(),
            from.valid(),
            old(out)@.no_duplicates(),
            forall|x: Move| #[trigger] old(out)@.contains(x) ==> x.from != from,
        ensures
            final(out)@.no_duplicates(),
            forall|x: Move| #[trigger]
                final(out)@.contains(x) <==> (old(out)@.contains(x) || (x.from == from && keeps(
                    *self,
                    legal_only,
                    x,
                ))),
    {
        let ghost start = out@;
        let mut rank: u8 = 0;
        while rank < 8
            invariant
                self.wf(),
                from.valid(),
                rank <= 8,
                out@.no_duplicates(),
                forall|x: Move| #[trigger] start.contains(x) ==> x.from != from,
                forall|x: Move| #[trigger]
                    out@.contains(x) <==> (start.contains(x) || (x.from == from && keeps(
                        *self,
                        legal_only,
                        x,
                    ) && to_before(x.to, rank as int, 0))),
            decreases 8 - rank,
        {
            let mut file: u8 = 0;
            while file < 8
                invariant
                    self.wf(),
                    from.valid(),
                    rank < 8,
                    file <= 8,
                    out@.no_duplicates(),
                    forall|x: Move| #[trigger] start.contains(x) ==> x.from != from,
                    forall|x: Move| #[trigger]
                        out@.contains(x) <==> (start.contains(x) || (x.from == from && keeps(
                            *self,
                            legal_only,
                            x,
                        ) && to_before(x.to, rank as int, file as int))),
                decreases 8 - file,
            {
                self.moves_between(legal_only, from, Square { file, rank }, out);
                file = file + 1;
            }
            rank = rank + 1;
        }
    }

    /// Every kept move of the side to move.
    pub fn collect_moves(&self, legal_only: bool) -> (out: Vec<Move>)
        requires
            self.wf(),
        ensures
            out@.no_duplicates(),
            forall|x: Move| #[trigger] out@.contains(x) <==> keeps(*self, legal_only, x),
    {
        let mut out: Vec<Move> = Vec::new();
        let mut rank: u8 = 0;
        while rank < 8
            invariant
                self.wf(),
                rank <= 8,
                out@.no_duplicates(),
                forall|x: Move| #[trigger]
                    out@.contains(x) <==> (keeps(*self, legal_only, x) && to_before(
                        x.from,
                        rank as int,
                        0,
                    )),
            decreases 8 - rank,
        {
            let mut file: u8 = 0;
            while file < 8
                invariant
                    self.wf(),
                    rank < 8,
                    file <= 8,
                    out@.no_duplicates(),
                    forall|x: Move| #[trigger]
                        out@.contains(x) <==> (keeps(*self, legal_only, x) && to_before(
                            x.from,
                            rank as int,
                            file as int,
                        )),
                decreases 8 - file,
            {
                self.moves_from(legal_only, Square { file, rank }, &mut out);
                file = file + 1;
            }
            rank = rank + 1;
        }
        out
    }
}

} // verus!
