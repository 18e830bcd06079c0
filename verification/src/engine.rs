//! The backtracking search engine: a depth-first exploration of the move
//! tree of one board, mutating it in place and undoing on failure.

use vstd::prelude::*;

use crate::board::Board;
use crate::board::Move;
use crate::model::all_legal;
use crate::model::apply_all;
use crate::model::apply_model;
use crate::model::first_solution;
use crate::model::first_solution_from;
use crate::model::legal_moves_seq;
use crate::model::lemma_apply_all_cons;
use crate::model::lemma_apply_peg_count;
use crate::model::lemma_apply_then_undo;
use crate::model::move_legal;
use crate::model::peg_count;

verus! {

/// Searches depth-first for a move sequence that raises the score to
/// `target_score`, trying the legal moves of every position in the fixed
/// enumeration order.  The search is deterministic: it succeeds exactly
/// when `first_solution` is some sequence, and then that very sequence —
/// the first one in enumeration order — stays applied, so the board's
/// history holds the solution trace.  On failure the board is returned to
/// the exact state it was called with, and no legal move sequence at all
/// could have reached the target — the search is exhaustive.  `positions`
/// counts the board states visited, for progress reporting; it saturates
/// rather than wrap.
pub fn backtrack(board: &mut Board, target_score: i32, positions: &mut u64) -> (found: bool)
    requires
        old(board).wf(),
    ensures
        final(board).wf(),
        *final(positions) >= *old(positions),
        found == (first_solution(old(board)@, target_score as int) is Some),
        !found ==> final(board)@ == old(board)@,
        !found ==> forall|ms: Seq<Move>|
            #[trigger] all_legal(old(board)@, ms) ==> apply_all(old(board)@, ms).score
                < target_score,
        found ==> final(board)@.score >= target_score,
        found ==> all_legal(old(board)@, first_solution(old(board)@, target_score as int)->0)
            && final(board)@ == apply_all(
            old(board)@,
            first_solution(old(board)@, target_score as int)->0,
        ),
    decreases peg_count(old(board)@.cells),
{
    if *positions < u64::MAX {
        *positions = *positions + 1;
    }
    let ghost orig = board@;
    let ghost target = target_score as int;
    if board.score >= target_score {
        proof {
            let ms = Seq::<Move>::empty();
            assert(all_legal(orig, ms) && board@ == apply_all(orig, ms));
            assert(first_solution(orig, target) == Some(ms));
        }
        return true;
    }
    let moves = board.valid_moves();
    proof {
        assert(moves@.skip(0) =~= moves@);
        assert(first_solution(orig, target) == first_solution_from(orig, moves@, target));
    }
    let mut i: usize = 0;
    while i < moves.len()
        invariant
            board.wf(),
            board@ == orig,
            orig == old(board)@,
            orig.score < target_score,
            target == target_score as int,
            *positions >= *old(positions),
            moves@ == legal_moves_seq(orig),
            forall|m: Move| #[trigger] moves@.contains(m) ==> move_legal(orig, m),
            i <= moves@.len(),
            first_solution(orig, target) == first_solution_from(
                orig,
                moves@.skip(i as int),
                target,
            ),
            forall|j: int, ms: Seq<Move>|
                #![trigger moves@[j], all_legal(orig, ms)]
                0 <= j < i && all_legal(orig, ms) && ms.len() > 0 && ms[0] == moves@[j]
                    ==> apply_all(orig, ms).score < target_score,
        decreases moves@.len() - i,
    {
        let mov = moves[i];
        let ghost rem = moves@.skip(i as int);
        proof {
            assert(moves@.contains(moves@[i as int]));
            assert(rem[0] == moves@[i as int]);
            lemma_apply_peg_count(orig, mov);
        }
        board.make_move(mov);
        if backtrack(board, target_score, positions) {
            proof {
                let tail = first_solution(apply_model(orig, mov), target)->0;
                assert(first_solution_from(orig, rem, target) == Some(seq![mov] + tail));
                lemma_apply_all_cons(orig, mov, tail);
                assert(all_legal(orig, seq![mov] + tail) && board@ == apply_all(
                    orig,
                    seq![mov] + tail,
                ));
            }
            return true;
        }
        proof {
            lemma_apply_then_undo(orig, mov);
            // The subtree below this move is exhausted, so the first
            // solution, if any, opens with a later candidate.
            assert(first_solution_from(orig, rem, target) == first_solution_from(
                orig,
                rem.drop_first(),
                target,
            ));
            assert(rem.drop_first() =~= moves@.skip(i as int + 1));
            assert forall|j: int, ms: Seq<Move>|
                0 <= j < i + 1 && #[trigger] all_legal(orig, ms) && ms.len() > 0 && ms[0]
                    == #[trigger] moves@[j] implies apply_all(orig, ms).score
                < target_score by {
                if j == i {
                    assert(ms =~= seq![ms[0]] + ms.drop_first());
                    lemma_apply_all_cons(orig, ms[0], ms.drop_first());
                    assert(all_legal(apply_model(orig, mov), ms.drop_first()));
                }
            }
        }
        board.undo_move(mov);
        i += 1;
    }
    proof {
        assert(moves@.skip(moves@.len() as int) =~= Seq::<Move>::empty());
        assert(first_solution(orig, target) is None);
        // Every nonempty legal sequence starts with a move the loop tried.
        assert forall|ms: Seq<Move>| #[trigger] all_legal(orig, ms) implies apply_all(
            orig,
            ms,
        ).score < target_score by {
            if ms.len() > 0 {
                assert(move_legal(orig, ms[0]));
                assert(moves@.contains(ms[0]));
                let j = choose|j: int| 0 <= j < moves@.len() && moves@[j] == ms[0];
                assert(ms[0] == moves@[j]);
            }
        }
    }
    false
}

} // verus!
