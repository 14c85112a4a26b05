use vstd::prelude::*;
use crate::types::{GameStatus, Move, Piece, opponent};
use crate::board::{BoardModel, in_check};
use crate::rules::{
    Position, board_after, ep_victim, is_capture, is_legal, is_pseudo_legal, placed, rook_dest,
    rook_home, sq_at, sq_index,
};
use crate::codec::{parse_position, position_text, position_text_round_trip};
use crate::game::{GameState, count_where, has_legal_move, is_color, is_double_push, skipped};

verus! {

proof fn lemma_count_update(
    b: BoardModel,
    i: int,
    v: Option<Piece>,
    pred: spec_fn(Option<Piece>) -> bool,
)
    requires
        0 <= i < b.len(),
    ensures
        count_where(b.update(i, v), pred) as int == count_where(b, pred) as int - (if pred(b[i]) {
            1int
        } else {
            0int
        }) + (if pred(v) {
            1int
        } else {
            0int
        }),
    decreases b.len(),
{
    let u = b.update(i, v);
    if i == b.len() - 1 {
        assert(u.drop_last() =~= b.drop_last());
    } else {
        lemma_count_update(b.drop_last(), i, v, pred);
        assert(u.drop_last() =~= b.drop_last().update(i, v));
    }
}

/// Playing a pseudo-legal move leaves the mover's piece count unchanged, and
/// removes exactly one enemy piece if the move is a capture, none otherwise.
pub proof fn capture_changes_enemy_count_by_one(pos: Position, m: Move)
    requires
        pos.wf(),
        is_pseudo_legal(pos, m),
    ensures
        ({
            let b = pos.board@;
            let a = board_after(b, m);
            let c = pos.side_to_move;
            &&& count_where(a, is_color(opponent(c))) as int == count_where(b, is_color(opponent(c)))
                as int - if is_capture(b, m) {
                1int
            } else {
                0int
            }
            &&& count_where(a, is_color(c)) == count_where(b, is_color(c))
        }),
{
    let b = pos.board@;
    let c = pos.side_to_move;
    let from = sq_index(m.from);
    let to = sq_index(m.to);
    let pl = placed(b, m);
    assert(pl is Some && pl->0.color == c);
    let own = is_color(c);
    let foe = is_color(opponent(c));
    if m.is_castle {
        let rh = rook_home(m);
        let rd = rook_dest(m);
        let b1 = b.update(rh, None);
        let b2 = b1.update(rd, b[rh]);
        let b3 = b2.update(from, None);
        let b4 = b3.update(to, pl);
        assert(board_after(b, m) =~= b4);
        lemma_count_update(b, rh, None, own);
        lemma_count_update(b1, rd, b[rh], own);
        lemma_count_update(b2, from, None, own);
        lemma_count_update(b3, to, pl, own);
        lemma_count_update(b, rh, None, foe);
        lemma_count_update(b1, rd, b[rh], foe);
        lemma_count_update(b2, from, None, foe);
        lemma_count_update(b3, to, pl, foe);
    } else if m.is_en_passant {
        let v = ep_victim(m);
        let b1 = b.update(v, None);
        let b2 = b1.update(from, None);
        let b3 = b2.update(to, pl);
        assert(board_after(b, m) =~= b3);
        lemma_count_update(b, v, None, own);
        lemma_count_update(b1, from, None, own);
        lemma_count_update(b2, to, pl, own);
        lemma_count_update(b, v, None, foe);
        lemma_count_update(b1, from, None, foe);
        lemma_count_update(b2, to, pl, foe);
    } else {
        let b1 = b.update(from, None);
        let b2 = b1.update(to, pl);
        assert(board_after(b, m) =~= b2);
        lemma_count_update(b, from, None, own);
        lemma_count_update(b1, to, pl, own);
        lemma_count_update(b, from, None, foe);
        lemma_count_update(b1, to, pl, foe);
    }
}

/// Every legal move applied to a game changes the counts as a capture says:
/// one enemy piece fewer after a capture, the same counts otherwise.
pub proof fn applied_capture_changes_enemy_count_by_one(s: GameState, m: Move, t: GameState)
    requires
        s.wf(),
        is_legal(s.position, m),
        s.successor(m, t),
    ensures
        ({
            let b = s.position.board@;
            let c = s.position.side_to_move;
            &&& count_where(t.position.board@, is_color(opponent(c))) as int == count_where(
                b,
                is_color(opponent(c)),
            ) as int - if is_capture(b, m) {
                1int
            } else {
                0int
            }
            &&& count_where(t.position.board@, is_color(c)) == count_where(b, is_color(c))
        }),
{
    capture_changes_enemy_count_by_one(s.position, m);
}

/// A side with no legal move that is not in check is stalemated.
pub proof fn no_moves_without_check_is_stalemate(s: GameState)
    requires
        !has_legal_move(s.position),
        !in_check(s.position.board@, s.position.side_to_move),
    ensures
        s.status_spec() == GameStatus::Stalemate,
{
}

/// No castling move is legal while the mover's king is in check.
pub proof fn no_castling_out_of_check(pos: Position, m: Move)
    requires
        in_check(pos.board@, pos.side_to_move),
        m.is_castle,
    ensures
        !is_legal(pos, m),
{
}

/// An en-passant capture is available only right after a double pawn push, and
/// only onto the square that push skipped: a ply later it is gone.
pub proof fn en_passant_only_after_double_push(s: GameState, m0: Move, t: GameState, m: Move)
    requires
        s.successor(m0, t),
        is_pseudo_legal(t.position, m),
        m.is_en_passant,
    ensures
        is_double_push(s.position.board@, m0),
        m.to == skipped(m0),
{
}


/// Reading back the text of a game gives the game's position: its board, side
/// to move, castling rights, en-passant target and both move counters.
pub proof fn serialized_game_reads_back(g: GameState)
    requires
        g.wf(),
    ensures
        parse_position(
            position_text(
                g.position.board@,
                g.position.side_to_move,
                g.position.castling,
                g.position.en_passant,
                g.halfmove_clock as nat,
                g.fullmove_number as nat,
            ),
        ) == Some(
            (
                g.position.board@,
                g.position.side_to_move,
                g.position.castling,
                g.position.en_passant,
                g.halfmove_clock as int,
                g.fullmove_number as int,
            ),
        ),
{
    position_text_round_trip(
        g.position.board@,
        g.position.side_to_move,
        g.position.castling,
        g.position.en_passant,
        g.halfmove_clock,
        g.fullmove_number,
    );
}

} // verus!
