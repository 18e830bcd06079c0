//! The peg-solitaire board: cell states, moves with their text form, and the
//! reversible apply/undo operations the search engine is built on.

use vstd::prelude::*;

use crate::model::apply_model;
use crate::model::cell;
use crate::model::cell_is;
use crate::model::dx;
use crate::model::dy;
use crate::model::idx;
use crate::model::in_bounds;
use crate::model::legal_moves_seq;
use crate::model::lemma_apply_wf;
use crate::model::lemma_peg_count_le_len;
use crate::model::lemma_undo_wf;
use crate::model::move_legal;
use crate::model::moves_upto;
use crate::model::n;
use crate::model::origin_moves;
use crate::model::origin_x;
use crate::model::origin_y;
use crate::model::row_moves_upto;
use crate::model::undo_model;
use crate::model::undoable;
use crate::model::wf_model;
use crate::model::BoardModel;

verus! {

broadcast use vstd::seq_lib::lemma_seq_contains_after_push;

/// Side length of the square grid.
pub const BOARD_SIZE: usize = 7;

/// A jump direction: up, down, left or right.
#[derive(Debug, Copy, Clone, PartialEq, Eq, Structural)]
pub enum Dir {
    U,
    D,
    L,
    R,
}

/// State of one grid cell.  `Invalid` cells are not part of the board and
/// never change after construction.
#[derive(Debug, Copy, Clone, PartialEq, Eq, Structural)]
pub enum CellType {
    Empty,
    Invalid,
    Occupied,
}

/// A jump move: origin column, origin row, and the jump direction.
/// Two moves are equal exactly when all three components are.
#[derive(Debug, Copy, Clone, PartialEq, Eq, Structural)]
pub struct Move(pub i8, pub i8, pub Dir);

/// Why a 3-character move command failed to decode.  The first failing
/// check is reported, in the order length, column, row, direction.
#[derive(Debug, Copy, Clone, PartialEq, Eq, Structural)]
pub enum ParseError {
    InvalidLength,
    InvalidColumn,
    InvalidRow,
    InvalidDirection,
}

/// Index of a column letter in the column alphabet `A` to `Z`, or -1 for
/// any other character.  The alphabet is deliberately wider than the board:
/// a letter beyond the last column decodes to a move that the legality
/// check then rejects, while the row digit is bounded here.
pub open spec fn col_index(c: char) -> int {
    if 'A' as u32 <= c as u32 && c as u32 <= 'Z' as u32 {
        c as u32 - 'A' as u32
    } else {
        -1
    }
}

/// Value of a decimal digit character, or -1 for any other character.
pub open spec fn digit_val(c: char) -> int {
    match c {
        '0' => 0,
        '1' => 1,
        '2' => 2,
        '3' => 3,
        '4' => 4,
        '5' => 5,
        '6' => 6,
        '7' => 7,
        '8' => 8,
        '9' => 9,
        _ => -1,
    }
}

pub open spec fn is_dir_char(c: char) -> bool {
    c == 'U' || c == 'D' || c == 'L' || c == 'R'
}

pub open spec fn dir_of(c: char) -> Dir {
    match c {
        'U' => Dir::U,
        'D' => Dir::D,
        'L' => Dir::L,
        _ => Dir::R,
    }
}

/// The move a command text denotes: exactly three characters, a column
/// letter, a row digit below the board size, and a direction letter; the
/// first failing check names the error.
pub open spec fn parse_spec(s: Seq<char>) -> Result<Move, ParseError> {
    if s.len() != 3 {
        Err(ParseError::InvalidLength)
    } else if col_index(s[0]) < 0 {
        Err(ParseError::InvalidColumn)
    } else if !(0 <= digit_val(s[1]) < n()) {
        Err(ParseError::InvalidRow)
    } else if !is_dir_char(s[2]) {
        Err(ParseError::InvalidDirection)
    } else {
        Ok(Move(col_index(s[0]) as i8, digit_val(s[1]) as i8, dir_of(s[2])))
    }
}

impl Move {
    /// Decodes a 3-character command such as `C4U` into a move.
    pub fn parse_move(input: &str) -> (r: Result<Move, ParseError>)
        ensures
            r == parse_spec(input@),
    {
        if input.unicode_len() != 3 {
            return Err(ParseError::InvalidLength);
        }
        let x = col_index_of(input.get_char(0));
        if x < 0 {
            return Err(ParseError::InvalidColumn);
        }
        let y = digit_val_of(input.get_char(1));
        if y < 0 || y >= BOARD_SIZE as i8 {
            return Err(ParseError::InvalidRow);
        }
        let c = input.get_char(2);
        let d = match c {
            'U' => Some(Dir::U),
            'D' => Some(Dir::D),
            'L' => Some(Dir::L),
            'R' => Some(Dir::R),
            _ => None,
        };
        match d {
            Some(dir) => Ok(Move(x, y, dir)),
            None => Err(ParseError::InvalidDirection),
        }
    }
}

fn col_index_of(c: char) -> (r: i8)
    ensures
        r as int == col_index(c),
{
    let u = c as u32;
    if 'A' as u32 <= u && u <= 'Z' as u32 {
        (u - 'A' as u32) as i8
    } else {
        -1
    }
}

fn digit_val_of(c: char) -> (r: i8)
    ensures
        r as int == digit_val(c),
{
    match c {
        '0' => 0,
        '1' => 1,
        '2' => 2,
        '3' => 3,
        '4' => 4,
        '5' => 5,
        '6' => 6,
        '7' => 7,
        '8' => 8,
        '9' => 9,
        _ => -1,
    }
}

impl ParseError {
    /// A descriptive message for reporting the failure to the player.
    pub fn message(&self) -> (s: String)
        ensures
            *self == ParseError::InvalidLength ==> s@ == "Invalid length"@,
            *self == ParseError::InvalidColumn ==> s@ == "The first char wasn't a valid column letter"@,
            *self == ParseError::InvalidRow ==> s@ == "The second char wasn't a valid row digit"@,
            *self == ParseError::InvalidDirection ==> s@ == "Direction must be U, D, L or R"@,
    {
        match self {
            ParseError::InvalidLength => String::from_str("Invalid length"),
            ParseError::InvalidColumn => String::from_str("The first char wasn't a valid column letter"),
            ParseError::InvalidRow => String::from_str("The second char wasn't a valid row digit"),
            ParseError::InvalidDirection => String::from_str("Direction must be U, D, L or R"),
        }
    }
}

/// The cell a template grid assigns to `(x, y)`: `o` marks a peg, `x` an
/// empty playable cell, anything else an off-board cell; cells the template
/// does not cover stay empty.
pub open spec fn template_cell(rows: Seq<&str>, x: int, y: int) -> CellType {
    if 0 <= y < rows.len() && 0 <= x < rows[y]@.len() {
        marker_cell(rows[y]@[x])
    } else {
        CellType::Empty
    }
}

pub open spec fn marker_cell(c: char) -> CellType {
    match c {
        'o' => CellType::Occupied,
        'x' => CellType::Empty,
        _ => CellType::Invalid,
    }
}

/// The glyph that renders one cell state: a middle dot for an empty cell,
/// a blank for an off-board cell, `O` for a peg.
pub open spec fn glyph(t: CellType) -> char {
    match t {
        CellType::Empty => '\u{B7}',
        CellType::Invalid => ' ',
        CellType::Occupied => 'O',
    }
}

/// The label of a board row.
pub open spec fn row_digit(y: int) -> char {
    if y == 0 {
        '0'
    } else if y == 1 {
        '1'
    } else if y == 2 {
        '2'
    } else if y == 3 {
        '3'
    } else if y == 4 {
        '4'
    } else if y == 5 {
        '5'
    } else {
        '6'
    }
}

/// The header line of the rendered board: two blanks, the column letters,
/// and a line break.
pub open spec fn header() -> Seq<char> {
    seq![' ', ' ', 'A', 'B', 'C', 'D', 'E', 'F', 'G', '\n']
}

/// The glyphs of the cells of row `y` at columns below `x`.
pub open spec fn row_glyphs(b: BoardModel, y: int, x: int) -> Seq<char>
    decreases x,
{
    if x <= 0 {
        Seq::empty()
    } else {
        row_glyphs(b, y, x - 1).push(glyph(cell(b, x - 1, y)))
    }
}

/// One rendered board row: its digit label, a separator, one glyph per
/// cell, and a line break.
pub open spec fn row_render(b: BoardModel, y: int) -> Seq<char> {
    seq![row_digit(y), '|'] + row_glyphs(b, y, n()) + seq!['\n']
}

/// The rendered board up to row `y`: the header and the rows below `y`.
pub open spec fn render_upto(b: BoardModel, y: int) -> Seq<char>
    decreases y,
{
    if y <= 0 {
        header()
    } else {
        render_upto(b, y - 1) + row_render(b, y - 1)
    }
}

/// The full rendered board.
pub open spec fn render(b: BoardModel) -> Seq<char> {
    render_upto(b, n())
}

/// The game board: the grid, the score, and the history of applied moves.
#[derive(Debug)]
pub struct Board {
    pub cells: Vec<CellType>,
    pub score: i32,
    pub moves: Vec<Move>,
}

impl View for Board {
    type V = BoardModel;

    open spec fn view(&self) -> BoardModel {
        BoardModel { cells: self.cells@, score: self.score as int, moves: self.moves@ }
    }
}

impl Board {
    /// The board invariant; it holds for every board the library hands out
    /// and is preserved by every operation.
    pub open spec fn wf(&self) -> bool {
        wf_model(self@)
    }

    /// Builds a board from a template grid, one row of markers per board
    /// row.  Unrecognized markers map to off-board cells; missing rows or
    /// columns stay empty.  Construction never fails.
    pub fn from_strings(s: &[&str]) -> (b: Board)
        ensures
            b.wf(),
            b@.score == 0,
            b@.moves.len() == 0,
            forall|x: int, y: int|
                in_bounds(x, y) ==> cell(b@, x, y) == template_cell(s@, x, y),
    {
        let mut b = Board::default();
        let mut y: usize = 0;
        while y < s.len() && y < BOARD_SIZE
            invariant
                b.wf(),
                b@.score == 0,
                b@.moves.len() == 0,
                y <= BOARD_SIZE,
                forall|xi: int, yi: int|
                    in_bounds(xi, yi) && yi < y ==> cell(b@, xi, yi) == template_cell(s@, xi, yi),
                forall|xi: int, yi: int|
                    in_bounds(xi, yi) && yi >= y ==> cell(b@, xi, yi) == CellType::Empty,
            decreases BOARD_SIZE - y,
        {
            let row: &str = s[y];
            let row_len = row.unicode_len();
            let mut x: usize = 0;
            while x < row_len && x < BOARD_SIZE
                invariant
                    b.wf(),
                    b@.score == 0,
                    b@.moves.len() == 0,
                    y < s.len(),
                    y < BOARD_SIZE,
                    x <= BOARD_SIZE,
                    row_len == row@.len(),
                    row == s@[y as int],
                    forall|xi: int, yi: int|
                        in_bounds(xi, yi) && yi < y ==> cell(b@, xi, yi) == template_cell(
                            s@,
                            xi,
                            yi,
                        ),
                    forall|xi: int, yi: int|
                        in_bounds(xi, yi) && yi == y && xi < x ==> cell(b@, xi, yi)
                            == template_cell(s@, xi, yi),
                    forall|xi: int, yi: int|
                        in_bounds(xi, yi) && (yi > y || (yi == y && xi >= x)) ==> cell(b@, xi, yi)
                            == CellType::Empty,
                decreases BOARD_SIZE - x,
            {
                let t = cell_of_marker(row.get_char(x));
                b.set_cell_at(x as i32, y as i32, t);
                proof {
                    lemma_peg_count_le_len(b@.cells);
                }
                x += 1;
            }
            y += 1;
        }
        b
    }

    /// Whether the given move may be applied to the current board.
    /// Out-of-bounds coordinates make the answer `false`, never a fault.
    pub fn is_move_valid(&self, mov: Move) -> (r: bool)
        requires
            self.wf(),
        ensures
            r == move_legal(self@, mov),
    {
        let (x, y): (i32, i32) = (mov.0 as i32, mov.1 as i32);
        let (ox, oy): (i32, i32) = dir_offsets(mov.2);
        self.cell_at_pos_is(x + 2 * ox, y + 2 * oy, CellType::Empty)
            && self.cell_at_pos_is(x + ox, y + oy, CellType::Occupied)
            && self.cell_at_pos_is(x, y, CellType::Occupied)
    }

    /// Applies a legal jump: the peg lands two cells away in the move's
    /// direction, the origin and the jumped-over peg are removed, the score
    /// goes up by one and the move is recorded.  Callers must establish
    /// legality first, with `is_move_valid` or `valid_moves`.
    pub fn make_move(&mut self, mov: Move)
        requires
            old(self).wf(),
            move_legal(old(self)@, mov),
        ensures
            final(self).wf(),
            final(self)@ == apply_model(old(self)@, mov),
    {
        let (x, y): (i32, i32) = (mov.0 as i32, mov.1 as i32);
        let (ox, oy): (i32, i32) = dir_offsets(mov.2);
        self.set_cell_at(x + 2 * ox, y + 2 * oy, CellType::Occupied);
        self.set_cell_at(x + ox, y + oy, CellType::Empty);
        self.set_cell_at(x, y, CellType::Empty);
        self.score = self.score + 1;
        self.moves.push(mov);
        proof {
            lemma_apply_wf(old(self)@, mov);
            assert(self@ =~~= apply_model(old(self)@, mov));
        }
    }

    /// Undoes the most recently applied move, which the caller must pass in;
    /// the board returns to the state from just before that move.
    pub fn undo_move(&mut self, mov: Move)
        requires
            old(self).wf(),
            undoable(old(self)@, mov),
        ensures
            final(self).wf(),
            final(self)@ == undo_model(old(self)@, mov),
    {
        let (x, y): (i32, i32) = (mov.0 as i32, mov.1 as i32);
        let (ox, oy): (i32, i32) = dir_offsets(mov.2);
        self.set_cell_at(x + 2 * ox, y + 2 * oy, CellType::Empty);
        self.set_cell_at(x + ox, y + oy, CellType::Occupied);
        self.set_cell_at(x, y, CellType::Occupied);
        let _ = self.moves.pop();
        self.score = self.score - 1;
        proof {
            lemma_undo_wf(old(self)@, mov);
            assert(self.moves@ =~= old(self).moves@.drop_last());
            assert(self@ =~~= undo_model(old(self)@, mov));
        }
    }

    /// Enumerates every legal move of the current board, origins in
    /// row-major order and directions in the order up, down, left, right.
    /// The result is empty exactly when no jump is possible at all.
    #[verifier::rlimit(100)]
    pub fn valid_moves(&self) -> (r: Vec<Move>)
        requires
            self.wf(),
        ensures
            r@ == legal_moves_seq(self@),
            forall|m: Move| #[trigger] r@.contains(m) <==> move_legal(self@, m),
            (r@.len() == 0) <==> (forall|m: Move| !(#[trigger] move_legal(self@, m))),
    {
        let mut moves: Vec<Move> = Vec::new();
        let mut y: usize = 0;
        while y < BOARD_SIZE
            invariant
                self.wf(),
                y <= BOARD_SIZE,
                moves@ == moves_upto(self@, y as int),
                forall|m: Move| #[trigger] moves@.contains(m) ==> move_legal(self@, m),
                forall|m: Move|
                    #[trigger] move_legal(self@, m) && origin_y(m) < y as int ==> moves@.contains(
                        m,
                    ),
            decreases BOARD_SIZE - y,
        {
            let mut x: usize = 0;
            while x < BOARD_SIZE
                invariant
                    self.wf(),
                    y < BOARD_SIZE,
                    x <= BOARD_SIZE,
                    moves@ == moves_upto(self@, y as int) + row_moves_upto(
                        self@,
                        y as i8,
                        x as int,
                    ),
                    forall|m: Move| #[trigger] moves@.contains(m) ==> move_legal(self@, m),
                    forall|m: Move|
                        #[trigger] move_legal(self@, m) && (origin_y(m) < y as int || (origin_y(m)
                            == y as int && origin_x(m) < x as int)) ==> moves@.contains(m),
                decreases BOARD_SIZE - x,
            {
                let ghost before = moves@;
                if !self.cell_at_pos_is(x as i32, y as i32, CellType::Invalid) {
                    let m_u = Move(x as i8, y as i8, Dir::U);
                    if self.is_move_valid(m_u) {
                        moves.push(m_u);
                    }
                    let m_d = Move(x as i8, y as i8, Dir::D);
                    if self.is_move_valid(m_d) {
                        moves.push(m_d);
                    }
                    let m_l = Move(x as i8, y as i8, Dir::L);
                    if self.is_move_valid(m_l) {
                        moves.push(m_l);
                    }
                    let m_r = Move(x as i8, y as i8, Dir::R);
                    if self.is_move_valid(m_r) {
                        moves.push(m_r);
                    }
                }
                proof {
                    assert(moves@ =~= before + origin_moves(self@, x as i8, y as i8));
                    assert(row_moves_upto(self@, y as i8, x as int + 1) == row_moves_upto(
                        self@,
                        y as i8,
                        x as int,
                    ) + origin_moves(self@, x as i8, y as i8));
                }
                x += 1;
            }
            proof {
                assert(moves_upto(self@, y as int + 1) == moves_upto(self@, y as int)
                    + row_moves_upto(self@, y as i8, n()));
                assert(moves@ =~= moves_upto(self@, y as int + 1));
            }
            y += 1;
        }
        proof {
            if moves@.len() > 0 {
                assert(moves@.contains(moves@[0]));
            }
        }
        moves
    }

    /// Renders the board as text: a header with the column letters, then
    /// one line per row with its digit label, a separator, and one glyph
    /// per cell.
    pub fn to_string(&self) -> (r: String)
        requires
            self.wf(),
        ensures
            r@ == render(self@),
    {
        let mut result = String::from_str("  ABCDEFG\n");
        proof {
            reveal_strlit("  ABCDEFG\n");
            assert(result@ =~= header());
        }
        let mut y: usize = 0;
        while y < BOARD_SIZE
            invariant
                self.wf(),
                y <= BOARD_SIZE,
                result@ == render_upto(self@, y as int),
            decreases BOARD_SIZE - y,
        {
            push_row_digit(&mut result, y);
            result.append("|");
            proof {
                reveal_strlit("|");
            }
            let ghost prefix = render_upto(self@, y as int) + seq![row_digit(y as int), '|'];
            assert(result@ =~= prefix);
            let mut x: usize = 0;
            while x < BOARD_SIZE
                invariant
                    self.wf(),
                    y < BOARD_SIZE,
                    x <= BOARD_SIZE,
                    prefix == render_upto(self@, y as int) + seq![row_digit(y as int), '|'],
                    result@ == prefix + row_glyphs(self@, y as int, x as int),
                decreases BOARD_SIZE - x,
            {
                let i: usize = y * BOARD_SIZE + x;
                push_cell_glyph(&mut result, self.cells[i]);
                proof {
                    assert(result@ =~= prefix + row_glyphs(self@, y as int, x as int + 1));
                }
                x += 1;
            }
            result.append("\n");
            proof {
                reveal_strlit("\n");
                assert(result@ =~= render_upto(self@, y as int + 1));
            }
            y += 1;
        }
        result
    }

    /// returns false if the given position is out of bounds
    fn cell_at_pos_is(&self, x: i32, y: i32, cell_type: CellType) -> (r: bool)
        requires
            self.wf(),
        ensures
            r == cell_is(self@, x as int, y as int, cell_type),
    {
        if self.is_oob(x, y) {
            false
        } else {
            let i: usize = (y as usize) * BOARD_SIZE + (x as usize);
            self.cells[i] == cell_type
        }
    }

    fn is_oob(&self, x: i32, y: i32) -> (r: bool)
        ensures
            r == !in_bounds(x as int, y as int),
    {
        y < 0 || x < 0 || x >= BOARD_SIZE as i32 || y >= BOARD_SIZE as i32
    }

    fn set_cell_at(&mut self, x: i32, y: i32, cell_type: CellType)
        requires
            old(self)@.cells.len() == n() * n(),
            in_bounds(x as int, y as int),
        ensures
            final(self)@.cells == old(self)@.cells.update(idx(x as int, y as int), cell_type),
            final(self)@.score == old(self)@.score,
            final(self)@.moves == old(self)@.moves,
    {
        let i: usize = (y as usize) * BOARD_SIZE + (x as usize);
        self.cells.set(i, cell_type);
    }
}

impl Default for Board {
    /// An all-empty board with score zero and no history.
    fn default() -> (b: Self)
        ensures
            b.wf(),
            b@.score == 0,
            b@.moves.len() == 0,
            forall|x: int, y: int| in_bounds(x, y) ==> cell(b@, x, y) == CellType::Empty,
    {
        let mut cells: Vec<CellType> = Vec::new();
        let mut i: usize = 0;
        while i < BOARD_SIZE * BOARD_SIZE
            invariant
                i <= BOARD_SIZE * BOARD_SIZE,
                cells@.len() == i,
                forall|j: int| 0 <= j < i ==> cells@[j] == CellType::Empty,
            decreases BOARD_SIZE * BOARD_SIZE - i,
        {
            cells.push(CellType::Empty);
            i += 1;
        }
        proof {
            lemma_peg_count_le_len(cells@);
        }
        Board { cells, score: 0, moves: Vec::new() }
    }
}

fn dir_offsets(d: Dir) -> (r: (i32, i32))
    ensures
        r.0 as int == dx(d),
        r.1 as int == dy(d),
{
    match d {
        Dir::U => (0, -1),
        Dir::D => (0, 1),
        Dir::L => (-1, 0),
        Dir::R => (1, 0),
    }
}

fn push_row_digit(result: &mut String, y: usize)
    requires
        y < BOARD_SIZE,
    ensures
        final(result)@ == old(result)@.push(row_digit(y as int)),
{
    if y == 0 {
        result.append("0");
        proof {
            reveal_strlit("0");
        }
    } else if y == 1 {
        result.append("1");
        proof {
            reveal_strlit("1");
        }
    } else if y == 2 {
        result.append("2");
        proof {
            reveal_strlit("2");
        }
    } else if y == 3 {
        result.append("3");
        proof {
            reveal_strlit("3");
        }
    } else if y == 4 {
        result.append("4");
        proof {
            reveal_strlit("4");
        }
    } else if y == 5 {
        result.append("5");
        proof {
            reveal_strlit("5");
        }
    } else {
        result.append("6");
        proof {
            reveal_strlit("6");
        }
    }
    proof {
        assert(result@ =~= old(result)@.push(row_digit(y as int)));
    }
}

fn push_cell_glyph(result: &mut String, t: CellType)
    ensures
        final(result)@ == old(result)@.push(glyph(t)),
{
    match t {
        CellType::Empty => {
            result.append("\u{B7}");
            proof {
                reveal_strlit("\u{B7}");
            }
        },
        CellType::Invalid => {
            result.append(" ");
            proof {
                reveal_strlit(" ");
            }
        },
        CellType::Occupied => {
            result.append("O");
            proof {
                reveal_strlit("O");
            }
        },
    }
    proof {
        assert(result@ =~= old(result)@.push(glyph(t)));
    }
}

fn cell_of_marker(c: char) -> (t: CellType)
    ensures
        t == marker_cell(c),
{
    if c == 'o' {
        CellType::Occupied
    } else if c == 'x' {
        CellType::Empty
    } else {
        CellType::Invalid
    }
}

} // verus!
