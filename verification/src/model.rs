//! Mathematical model of the peg-solitaire board.
//!
//! A board is modelled as a flat row-major sequence of cell states together
//! with the score and the history of applied moves.  The executable type in
//! `board` has this model as its view; every contract of the library is
//! stated over the functions defined here.

use vstd::prelude::*;

use crate::board::CellType;
use crate::board::Dir;
use crate::board::Move;

verus! {

/// The board dimension as a mathematical integer; it equals `BOARD_SIZE`.
/// The literal body is expanded at every use, which keeps products such as
/// `n() * n()` in linear arithmetic.
#[verifier::inline]
pub open spec fn n() -> int {
    7
}

/// A ghost image of a board: cell states in row-major order, the score, and
/// the stack of applied moves.
#[verifier::ext_equal]
pub ghost struct BoardModel {
    pub cells: Seq<CellType>,
    pub score: int,
    pub moves: Seq<Move>,
}

pub open spec fn in_bounds(x: int, y: int) -> bool {
    0 <= x < n() && 0 <= y < n()
}

/// Row-major index of the cell at column `x`, row `y`.
pub open spec fn idx(x: int, y: int) -> int {
    y * n() + x
}

/// Column offset of a jump direction.
pub open spec fn dx(d: Dir) -> int {
    match d {
        Dir::U => 0,
        Dir::D => 0,
        Dir::L => -1,
        Dir::R => 1,
    }
}

/// Row offset of a jump direction.
pub open spec fn dy(d: Dir) -> int {
    match d {
        Dir::U => -1,
        Dir::D => 1,
        Dir::L => 0,
        Dir::R => 0,
    }
}

pub open spec fn origin_x(m: Move) -> int {
    m.0 as int
}

pub open spec fn origin_y(m: Move) -> int {
    m.1 as int
}

/// Column of the cell jumped over.
pub open spec fn over_x(m: Move) -> int {
    origin_x(m) + dx(m.2)
}

/// Row of the cell jumped over.
pub open spec fn over_y(m: Move) -> int {
    origin_y(m) + dy(m.2)
}

/// Column of the landing cell.
pub open spec fn dest_x(m: Move) -> int {
    origin_x(m) + 2 * dx(m.2)
}

/// Row of the landing cell.
pub open spec fn dest_y(m: Move) -> int {
    origin_y(m) + 2 * dy(m.2)
}

pub open spec fn cell(b: BoardModel, x: int, y: int) -> CellType {
    b.cells[idx(x, y)]
}

/// The cell at `(x, y)` is in bounds and holds state `t`.
pub open spec fn cell_is(b: BoardModel, x: int, y: int, t: CellType) -> bool {
    in_bounds(x, y) && cell(b, x, y) == t
}

/// A jump move is legal when its landing cell is empty and both the origin
/// and the jumped-over cell hold a peg; any out-of-bounds cell makes it
/// illegal.
pub open spec fn move_legal(b: BoardModel, m: Move) -> bool {
    &&& cell_is(b, dest_x(m), dest_y(m), CellType::Empty)
    &&& cell_is(b, over_x(m), over_y(m), CellType::Occupied)
    &&& cell_is(b, origin_x(m), origin_y(m), CellType::Occupied)
}

/// The board after applying a legal move: the peg lands two cells away, the
/// jumped peg and the origin peg are removed, the score goes up by one and
/// the move is recorded.
pub open spec fn apply_model(b: BoardModel, m: Move) -> BoardModel {
    BoardModel {
        cells: b.cells.update(idx(dest_x(m), dest_y(m)), CellType::Occupied).update(
            idx(over_x(m), over_y(m)),
            CellType::Empty,
        ).update(idx(origin_x(m), origin_y(m)), CellType::Empty),
        score: b.score + 1,
        moves: b.moves.push(m),
    }
}

/// A move may be undone exactly when it is the most recently applied move
/// and the three cells it touched still look as `apply` left them.
pub open spec fn undoable(b: BoardModel, m: Move) -> bool {
    &&& cell_is(b, dest_x(m), dest_y(m), CellType::Occupied)
    &&& cell_is(b, over_x(m), over_y(m), CellType::Empty)
    &&& cell_is(b, origin_x(m), origin_y(m), CellType::Empty)
    &&& b.moves.len() > 0
    &&& b.moves.last() == m
}

/// The board after undoing the most recent move: the three cell writes of
/// `apply` are reversed, the score goes down by one and the move is popped.
pub open spec fn undo_model(b: BoardModel, m: Move) -> BoardModel {
    BoardModel {
        cells: b.cells.update(idx(dest_x(m), dest_y(m)), CellType::Empty).update(
            idx(over_x(m), over_y(m)),
            CellType::Occupied,
        ).update(idx(origin_x(m), origin_y(m)), CellType::Occupied),
        score: b.score - 1,
        moves: b.moves.drop_last(),
    }
}

/// Number of occupied cells.
pub open spec fn peg_count(cells: Seq<CellType>) -> nat
    decreases cells.len(),
{
    if cells.len() == 0 {
        0
    } else {
        peg_count(cells.drop_last()) + if cells.last() == CellType::Occupied {
            1nat
        } else {
            0nat
        }
    }
}

/// A well-formed board: the grid has exactly `n * n` cells, the score equals
/// the length of the history, and score plus remaining pegs never exceeds
/// the number of cells (each recorded move removed one peg).
pub open spec fn wf_model(b: BoardModel) -> bool {
    &&& b.cells.len() == n() * n()
    &&& b.score == b.moves.len()
    &&& b.score + peg_count(b.cells) <= n() * n()
}

pub proof fn lemma_peg_count_le_len(cells: Seq<CellType>)
    ensures
        peg_count(cells) <= cells.len(),
    decreases cells.len(),
{
    if cells.len() > 0 {
        lemma_peg_count_le_len(cells.drop_last());
    }
}

/// Replacing one cell changes the peg count by the difference of the old and
/// new state of that cell alone.
proof fn lemma_peg_count_update(cells: Seq<CellType>, i: int, t: CellType)
    requires
        0 <= i < cells.len(),
    ensures
        peg_count(cells.update(i, t)) == peg_count(cells) + (if t == CellType::Occupied {
            1int
        } else {
            0int
        }) - (if cells[i] == CellType::Occupied {
            1int
        } else {
            0int
        }),
    decreases cells.len(),
{
    let updated = cells.update(i, t);
    if i == cells.len() - 1 {
        assert(updated.drop_last() =~= cells.drop_last());
        assert(updated.last() == t);
    } else {
        assert(updated.drop_last() =~= cells.drop_last().update(i, t));
        assert(updated.last() == cells.last());
        lemma_peg_count_update(cells.drop_last(), i, t);
    }
}

/// The row-major indices of the three cells touched by a move whose cells
/// are all in bounds are pairwise distinct and in range.
proof fn lemma_move_indices(m: Move)
    requires
        in_bounds(origin_x(m), origin_y(m)),
        in_bounds(over_x(m), over_y(m)),
        in_bounds(dest_x(m), dest_y(m)),
    ensures
        0 <= idx(origin_x(m), origin_y(m)) < n() * n(),
        0 <= idx(over_x(m), over_y(m)) < n() * n(),
        0 <= idx(dest_x(m), dest_y(m)) < n() * n(),
        idx(origin_x(m), origin_y(m)) != idx(over_x(m), over_y(m)),
        idx(origin_x(m), origin_y(m)) != idx(dest_x(m), dest_y(m)),
        idx(over_x(m), over_y(m)) != idx(dest_x(m), dest_y(m)),
{
}

/// Applying a legal move removes exactly one peg.
pub proof fn lemma_apply_peg_count(b: BoardModel, m: Move)
    requires
        wf_model(b),
        move_legal(b, m),
    ensures
        peg_count(apply_model(b, m).cells) == peg_count(b.cells) - 1,
{
    let i_dest = idx(dest_x(m), dest_y(m));
    let i_over = idx(over_x(m), over_y(m));
    let i_org = idx(origin_x(m), origin_y(m));
    lemma_move_indices(m);
    let c1 = b.cells.update(i_dest, CellType::Occupied);
    let c2 = c1.update(i_over, CellType::Empty);
    lemma_peg_count_update(b.cells, i_dest, CellType::Occupied);
    lemma_peg_count_update(c1, i_over, CellType::Empty);
    lemma_peg_count_update(c2, i_org, CellType::Empty);
}

/// Applying a legal move preserves well-formedness.
pub proof fn lemma_apply_wf(b: BoardModel, m: Move)
    requires
        wf_model(b),
        move_legal(b, m),
    ensures
        wf_model(apply_model(b, m)),
{
    lemma_move_indices(m);
    lemma_apply_peg_count(b, m);
}

/// Undoing a move puts exactly one peg back.
pub proof fn lemma_undo_peg_count(b: BoardModel, m: Move)
    requires
        wf_model(b),
        undoable(b, m),
    ensures
        peg_count(undo_model(b, m).cells) == peg_count(b.cells) + 1,
{
    let i_dest = idx(dest_x(m), dest_y(m));
    let i_over = idx(over_x(m), over_y(m));
    let i_org = idx(origin_x(m), origin_y(m));
    lemma_move_indices(m);
    let c1 = b.cells.update(i_dest, CellType::Empty);
    let c2 = c1.update(i_over, CellType::Occupied);
    lemma_peg_count_update(b.cells, i_dest, CellType::Empty);
    lemma_peg_count_update(c1, i_over, CellType::Occupied);
    lemma_peg_count_update(c2, i_org, CellType::Occupied);
}

/// Undoing the most recent move preserves well-formedness.
pub proof fn lemma_undo_wf(b: BoardModel, m: Move)
    requires
        wf_model(b),
        undoable(b, m),
    ensures
        wf_model(undo_model(b, m)),
{
    lemma_move_indices(m);
    lemma_undo_peg_count(b, m);
}

/// The singleton of a move if it is legal, and the empty sequence if not.
pub open spec fn maybe_move(b: BoardModel, m: Move) -> Seq<Move> {
    if move_legal(b, m) {
        seq![m]
    } else {
        Seq::empty()
    }
}

/// The legal moves from one origin, in the fixed direction order up, down,
/// left, right.
pub open spec fn origin_moves(b: BoardModel, x: i8, y: i8) -> Seq<Move> {
    maybe_move(b, Move(x, y, Dir::U)) + maybe_move(b, Move(x, y, Dir::D)) + maybe_move(
        b,
        Move(x, y, Dir::L),
    ) + maybe_move(b, Move(x, y, Dir::R))
}

/// The legal moves whose origin lies in row `y` at a column below `x`, in
/// column order.
pub open spec fn row_moves_upto(b: BoardModel, y: i8, x: int) -> Seq<Move>
    decreases x,
{
    if x <= 0 {
        Seq::empty()
    } else {
        row_moves_upto(b, y, x - 1) + origin_moves(b, (x - 1) as i8, y)
    }
}

/// The legal moves whose origin lies in a row below `y`, in row-major order.
pub open spec fn moves_upto(b: BoardModel, y: int) -> Seq<Move>
    decreases y,
{
    if y <= 0 {
        Seq::empty()
    } else {
        moves_upto(b, y - 1) + row_moves_upto(b, (y - 1) as i8, n())
    }
}

/// Every legal move of the board, in the fixed enumeration order: origins
/// row-major, and for each origin the four directions in order.
pub open spec fn legal_moves_seq(b: BoardModel) -> Seq<Move> {
    moves_upto(b, n())
}

/// Round-trip law: applying a legal move and then undoing that same move
/// restores the exact prior cell states, score and history.
pub proof fn lemma_apply_then_undo(b: BoardModel, m: Move)
    requires
        wf_model(b),
        move_legal(b, m),
    ensures
        undoable(apply_model(b, m), m),
        undo_model(apply_model(b, m), m) == b,
{
    let i_dest = idx(dest_x(m), dest_y(m));
    let i_over = idx(over_x(m), over_y(m));
    let i_org = idx(origin_x(m), origin_y(m));
    lemma_move_indices(m);
    let applied = apply_model(b, m);
    let back = undo_model(applied, m);
    assert(back.cells =~= b.cells);
    assert(back.moves =~= b.moves);
    assert(back =~~= b);
}

/// The board after applying a sequence of moves, first move first.
pub open spec fn apply_all(b: BoardModel, ms: Seq<Move>) -> BoardModel
    decreases ms.len(),
{
    if ms.len() == 0 {
        b
    } else {
        apply_all(apply_model(b, ms[0]), ms.drop_first())
    }
}

/// Each move of the sequence is legal on the board it is applied to.
pub open spec fn all_legal(b: BoardModel, ms: Seq<Move>) -> bool
    decreases ms.len(),
{
    if ms.len() == 0 {
        true
    } else {
        move_legal(b, ms[0]) && all_legal(apply_model(b, ms[0]), ms.drop_first())
    }
}

/// The board after undoing a sequence of applied moves, last move first.
pub open spec fn undo_all(b: BoardModel, ms: Seq<Move>) -> BoardModel
    decreases ms.len(),
{
    if ms.len() == 0 {
        b
    } else {
        undo_all(undo_model(b, ms.last()), ms.drop_last())
    }
}

/// Prepending a move to a sequence applies it first.
pub proof fn lemma_apply_all_cons(b: BoardModel, m: Move, ms: Seq<Move>)
    ensures
        apply_all(b, seq![m] + ms) == apply_all(apply_model(b, m), ms),
        all_legal(b, seq![m] + ms) <==> (move_legal(b, m) && all_legal(apply_model(b, m), ms)),
{
    let w = seq![m] + ms;
    assert(w[0] == m);
    assert(w.drop_first() =~= ms);
}

/// Appending a move to a sequence applies it last.
pub proof fn lemma_apply_all_snoc(b: BoardModel, ms: Seq<Move>, m: Move)
    ensures
        apply_all(b, ms.push(m)) == apply_model(apply_all(b, ms), m),
        all_legal(b, ms.push(m)) <==> (all_legal(b, ms) && move_legal(apply_all(b, ms), m)),
    decreases ms.len(),
{
    if ms.len() == 0 {
        let w = ms.push(m);
        assert(w[0] == m);
        assert(w.drop_first() =~= Seq::<Move>::empty());
        assert(apply_all(b, w) == apply_all(apply_model(b, m), w.drop_first()));
        assert(apply_all(apply_model(b, m), w.drop_first()) == apply_model(b, m));
        assert(apply_all(b, ms) == b);
        assert(all_legal(b, w) == (move_legal(b, m) && all_legal(
            apply_model(b, m),
            w.drop_first(),
        )));
        assert(all_legal(apply_model(b, m), w.drop_first()));
        assert(all_legal(b, ms));
    } else {
        let w = ms.push(m);
        assert(w[0] == ms[0]);
        assert(w.drop_first() =~= ms.drop_first().push(m));
        lemma_apply_all_snoc(apply_model(b, ms[0]), ms.drop_first(), m);
        assert(apply_all(b, w) == apply_all(apply_model(b, w[0]), w.drop_first()));
        assert(apply_all(b, ms) == apply_all(apply_model(b, ms[0]), ms.drop_first()));
        assert(all_legal(b, w) == (move_legal(b, w[0]) && all_legal(
            apply_model(b, w[0]),
            w.drop_first(),
        )));
        assert(all_legal(b, ms) == (move_legal(b, ms[0]) && all_legal(
            apply_model(b, ms[0]),
            ms.drop_first(),
        )));
    }
}

/// A legal move sequence leads from a well-formed board to a well-formed
/// board.
pub proof fn lemma_apply_all_wf(b: BoardModel, ms: Seq<Move>)
    requires
        wf_model(b),
        all_legal(b, ms),
    ensures
        wf_model(apply_all(b, ms)),
    decreases ms.len(),
{
    if ms.len() > 0 {
        lemma_apply_wf(b, ms[0]);
        lemma_apply_all_wf(apply_model(b, ms[0]), ms.drop_first());
    }
}

/// The solution the depth-first search finds: the first move sequence, in
/// the fixed enumeration order of `legal_moves_seq`, that raises the score
/// to `target`; `None` exactly when no legal sequence reaches it.  This
/// makes the search's outcome a function of the starting board alone.
pub open spec fn first_solution(b: BoardModel, target: int) -> Option<Seq<Move>>
    decreases peg_count(b.cells), 1int, 0int,
    when wf_model(b)
{
    if b.score >= target {
        Some(Seq::empty())
    } else {
        first_solution_from(b, legal_moves_seq(b), target)
    }
}

/// The first solution whose opening move comes from the candidate list
/// `ms`, the candidates tried in order.
pub open spec fn first_solution_from(b: BoardModel, ms: Seq<Move>, target: int) -> Option<
    Seq<Move>,
>
    decreases peg_count(b.cells), 0int, ms.len(),
    when wf_model(b)
{
    if ms.len() == 0 {
        None
    } else if move_legal(b, ms[0]) {
        proof {
            lemma_apply_peg_count(b, ms[0]);
        }
        match first_solution(apply_model(b, ms[0]), target) {
            Some(tail) => Some(seq![ms[0]] + tail),
            None => first_solution_from(b, ms.drop_first(), target),
        }
    } else {
        first_solution_from(b, ms.drop_first(), target)
    }
}

/// Round-trip law for whole games: applying any legal sequence of moves and
/// then undoing those moves in exact reverse order restores the constructed
/// board bit for bit.
pub proof fn lemma_apply_all_then_undo_all(b: BoardModel, ms: Seq<Move>)
    requires
        wf_model(b),
        all_legal(b, ms),
    ensures
        undo_all(apply_all(b, ms), ms) == b,
    decreases ms.len(),
{
    if ms.len() > 0 {
        let init = ms.drop_last();
        let m = ms.last();
        assert(ms =~= init.push(m));
        lemma_apply_all_snoc(b, init, m);
        let applied_init = apply_all(b, init);
        lemma_apply_all_wf(b, init);
        lemma_apply_then_undo(applied_init, m);
        lemma_apply_all_then_undo_all(b, init);
    }
}

} // verus!
