//! The board: piece and player model, positions, moves, the 10 x 9 grid of
//! squares, and the basic geometric predicates of Xiangqi.

use vstd::prelude::*;
use vstd::string::*;

verus! {

pub const BOARD_WIDTH: i32 = 9;
pub const BOARD_HEIGHT: i32 = 10;

/// A square's content: a piece of one side, or nothing.
#[derive(Clone, Copy, PartialEq, Eq, Structural, Debug)]
pub enum Chess {
    Black(ChessType),
    Red(ChessType),
    Empty,
}

/// The seven piece kinds of Xiangqi.
#[derive(Clone, Copy, PartialEq, Eq, Structural, Debug)]
pub enum ChessType {
    King,
    Advisor,
    Bishop,
    Knight,
    Rook,
    Cannon,
    Pawn,
}

/// The two sides. Red sits on the high rows (row 9 is Red's base row),
/// Black on the low rows (row 0 is Black's base row).
#[derive(Clone, Copy, PartialEq, Eq, Structural, Debug)]
pub enum Player {
    Red,
    Black,
}

impl ChessType {
    /// Material value of the kind, used only for move ordering.
    pub fn value(&self) -> (v: i32)
        ensures
            v == self.spec_value(),
    {
        match self {
            ChessType::King => 5,
            ChessType::Advisor => 1,
            ChessType::Bishop => 1,
            ChessType::Knight => 3,
            ChessType::Rook => 4,
            ChessType::Cannon => 3,
            ChessType::Pawn => 2,
        }
    }

    pub open spec fn spec_value(&self) -> i32 {
        match self {
            ChessType::King => 5,
            ChessType::Advisor => 1,
            ChessType::Bishop => 1,
            ChessType::Knight => 3,
            ChessType::Rook => 4,
            ChessType::Cannon => 3,
            ChessType::Pawn => 2,
        }
    }
}

impl Player {
    /// The opponent of a side.
    pub fn next(&self) -> (p: Player)
        ensures
            p == self.spec_next(),
    {
        if self == &Player::Red {
            Player::Black
        } else {
            Player::Red
        }
    }

    pub open spec fn spec_next(&self) -> Player {
        match self {
            Player::Red => Player::Black,
            Player::Black => Player::Red,
        }
    }
}

impl Chess {
    /// Material value of the piece on the square; an empty square is worth 0.
    pub fn value(&self) -> (v: i32)
        ensures
            v == self.spec_value(),
    {
        if let Some(ct) = self.chess_type() {
            ct.value()
        } else {
            0x0
        }
    }

    pub open spec fn spec_value(&self) -> i32 {
        match self {
            Chess::Black(ct) => ct.spec_value(),
            Chess::Red(ct) => ct.spec_value(),
            Chess::Empty => 0,
        }
    }

    /// Whether the square holds a piece of `player`.
    pub fn belong_to(&self, player: Player) -> (b: bool)
        ensures
            b == self.spec_belong_to(player),
    {
        if let Chess::Black(_) = self {
            player == Player::Black
        } else if let Chess::Red(_) = self {
            player == Player::Red
        } else {
            false
        }
    }

    pub open spec fn spec_belong_to(&self, player: Player) -> bool {
        match self {
            Chess::Black(_) => player == Player::Black,
            Chess::Red(_) => player == Player::Red,
            Chess::Empty => false,
        }
    }

    /// The kind of the piece on the square, if any.
    pub fn chess_type(&self) -> (t: Option<ChessType>)
        ensures
            t == self.spec_chess_type(),
    {
        match self {
            Chess::Black(ct) => Some(*ct),
            Chess::Red(ct) => Some(*ct),
            Chess::Empty => None,
        }
    }

    pub open spec fn spec_chess_type(&self) -> Option<ChessType> {
        match self {
            Chess::Black(ct) => Some(*ct),
            Chess::Red(ct) => Some(*ct),
            Chess::Empty => None,
        }
    }

    /// The side owning the piece on the square, if any.
    pub fn player(&self) -> (p: Option<Player>)
        ensures
            p == self.spec_player(),
    {
        match self {
            Chess::Black(_) => Some(Player::Black),
            Chess::Red(_) => Some(Player::Red),
            Chess::Empty => None,
        }
    }

    pub open spec fn spec_player(&self) -> Option<Player> {
        match self {
            Chess::Black(_) => Some(Player::Black),
            Chess::Red(_) => Some(Player::Red),
            Chess::Empty => None,
        }
    }
}

/// A board coordinate: `row` counted top-to-bottom in [0, 10), `col` counted
/// left-to-right in [0, 9). Values outside those ranges describe off-board
/// squares, which the generators produce and then filter with `in_board`.
#[derive(Clone, Copy, PartialEq, Eq, Structural, Debug)]
pub struct Position {
    pub row: i32,
    pub col: i32,
}

impl Position {
    pub fn new(row: i32, col: i32) -> (p: Position)
        ensures
            p.row == row && p.col == col,
    {
        Position { row, col }
    }

    /// The square `delta` rows toward Black's base row.
    pub fn up(&self, delta: i32) -> (p: Position)
        requires
            i32::MIN <= self.row - delta <= i32::MAX,
        ensures
            p.row == self.row - delta && p.col == self.col,
    {
        Position::new(self.row - delta, self.col)
    }

    /// The square `delta` rows toward Red's base row.
    pub fn down(&self, delta: i32) -> (p: Position)
        requires
            i32::MIN <= self.row + delta <= i32::MAX,
        ensures
            p.row == self.row + delta && p.col == self.col,
    {
        Position::new(self.row + delta, self.col)
    }

    /// The square `delta` columns to the left.
    pub fn left(&self, delta: i32) -> (p: Position)
        requires
            i32::MIN <= self.col - delta <= i32::MAX,
        ensures
            p.row == self.row && p.col == self.col - delta,
    {
        Position::new(self.row, self.col - delta)
    }

    /// The square `delta` columns to the right.
    pub fn right(&self, delta: i32) -> (p: Position)
        requires
            i32::MIN <= self.col + delta <= i32::MAX,
        ensures
            p.row == self.row && p.col == self.col + delta,
    {
        Position::new(self.row, self.col + delta)
    }

    /// The square seen from the other side: rotate the board a half turn.
    pub fn flip(&self) -> (p: Position)
        requires
            in_board(*self),
        ensures
            p.row == 9 - self.row && p.col == 8 - self.col,
    {
        Position::new(BOARD_HEIGHT - 1 - self.row, BOARD_WIDTH - 1 - self.col)
    }
}

/// Whether a coordinate lies on the board.
pub open spec fn spec_in_board(pos: Position) -> bool {
    0 <= pos.row < BOARD_HEIGHT && 0 <= pos.col < BOARD_WIDTH
}

#[verifier::when_used_as_spec(spec_in_board)]
pub fn in_board(pos: Position) -> (b: bool)
    ensures
        b == spec_in_board(pos),
{
    pos.row >= 0 && pos.row < BOARD_HEIGHT && pos.col >= 0 && pos.col < BOARD_WIDTH
}

/// Whether `row` lies in `player`'s own half (the side of the river where the
/// player's base row is): within 5 rows of the base row.
pub open spec fn spec_in_country(row: int, player: Player) -> bool {
    let base: int = if player == Player::Red { 9 } else { 0 };
    let d: int = row - base;
    (if d < 0 { -d } else { d }) < 5
}

pub fn in_country(row: i32, player: Player) -> (b: bool)
    ensures
        b == spec_in_country(row as int, player),
{
    let base: i32 = if player == Player::Red { BOARD_HEIGHT - 1 } else { 0 };
    let diff: i64 = row as i64 - base as i64;
    let mag: i64 = if diff < 0 { -diff } else { diff };
    mag < (BOARD_HEIGHT / 2) as i64
}

/// Whether a square lies in `player`'s palace: columns 3 to 5, rows 0 to 2
/// for Black, rows 7 to 9 for Red.
pub open spec fn spec_in_palace(pos: Position, player: Player) -> bool {
    if player == Player::Black {
        0 <= pos.row < 3 && 3 <= pos.col < 6
    } else {
        7 <= pos.row < 10 && 3 <= pos.col < 6
    }
}

#[verifier::when_used_as_spec(spec_in_palace)]
pub fn in_palace(pos: Position, player: Player) -> (b: bool)
    ensures
        b == spec_in_palace(pos, player),
{
    if player == Player::Black {
        pos.row >= 0 && pos.row < 3 && pos.col >= 3 && pos.col < 6
    } else {
        pos.row >= 7 && pos.row < BOARD_HEIGHT && pos.col >= 3 && pos.col < 6
    }
}

/// A move record: who moved, from where to where, which piece walked and
/// which piece (possibly `Chess::Empty`) stood on the target square before.
#[derive(Clone, Copy, PartialEq, Eq, Structural, Debug)]
pub struct Move {
    pub player: Player,
    pub from: Position,
    pub to: Position,
    pub chess: Chess,
    pub capture: Chess,
}

impl Move {
    /// The do-nothing placeholder move; it is not `is_valid`.
    pub fn stay() -> (m: Move)
        ensures
            m.player == Player::Red,
            m.from == (Position { row: 0, col: 0 }),
            m.to == (Position { row: 0, col: 0 }),
            m.chess == Chess::Empty,
            m.capture == Chess::Empty,
    {
        Move {
            player: Player::Red,
            from: Position::new(0, 0),
            to: Position::new(0, 0),
            chess: Chess::Empty,
            capture: Chess::Empty,
        }
    }

    /// A move is valid-shaped iff it walks an actual piece to another square.
    pub fn is_valid(&self) -> (b: bool)
        ensures
            b == (self.chess != Chess::Empty && self.from != self.to),
    {
        self.chess != Chess::Empty && self.from != self.to
    }

    /// The same mover aimed at `to`, recording `capture` as the target square.
    pub fn with_target(&self, to: Position, capture: Chess) -> (m: Move)
        ensures
            m == (Move { to, capture, ..*self }),
    {
        Move { player: self.player, from: self.from, to, chess: self.chess, capture }
    }
}

/// The full game state: a 10 x 9 grid of squares, the side to move, and two
/// search statistics (leaf evaluations and move generations).
#[derive(Clone, Copy)]
pub struct Board {
    pub chesses: [[Chess; 9]; 10],
    pub turn: Player,
    pub counter: i32,
    pub gen_counter: i32,
}

/// A 10 x 9 array of squares as a mathematical value.
pub open spec fn cells_of_array(a: [[Chess; 9]; 10]) -> Seq<Seq<Chess>> {
    Seq::new(10, |r: int| Seq::new(9, |c: int| a@[r]@[c]))
}

/// The grid as a mathematical value: 10 rows of 9 squares.
pub open spec fn cells_of(b: Board) -> Seq<Seq<Chess>> {
    cells_of_array(b.chesses)
}

/// The mathematical content of a board: its grid and whose turn it is. The
/// two statistics counters are no part of the model.
pub struct BoardModel {
    pub cells: Seq<Seq<Chess>>,
    pub turn: Player,
}

impl View for Board {
    type V = BoardModel;

    open spec fn view(&self) -> BoardModel {
        BoardModel { cells: cells_of(*self), turn: self.turn }
    }
}

/// What applying a move does to the model: the grid changes as `apply_cells`
/// says and the turn passes to the mover's opponent.
pub open spec fn m_apply(bm: BoardModel, m: Move) -> BoardModel {
    BoardModel { cells: apply_cells(bm.cells, m), turn: m.player.spec_next() }
}

/// The square of `cells` at a coordinate, `Chess::Empty` off the board.
pub open spec fn at_pos(cells: Seq<Seq<Chess>>, pos: Position) -> Chess {
    if spec_in_board(pos) {
        cells[pos.row as int][pos.col as int]
    } else {
        Chess::Empty
    }
}

/// `cells` with the square at `pos` replaced by `x`.
pub open spec fn put(cells: Seq<Seq<Chess>>, pos: Position, x: Chess) -> Seq<Seq<Chess>> {
    cells.update(pos.row as int, cells[pos.row as int].update(pos.col as int, x))
}

/// What applying `m` does to the grid: the target square takes the piece that
/// stood on the origin, then the origin is emptied.
pub open spec fn apply_cells(cells: Seq<Seq<Chess>>, m: Move) -> Seq<Seq<Chess>> {
    put(put(cells, m.to, at_pos(cells, m.from)), m.from, Chess::Empty)
}

/// What undoing `m` does to the grid: the origin takes back the piece that
/// stands on the target square, then the target square takes back `m.capture`.
pub open spec fn undo_cells(cells: Seq<Seq<Chess>>, m: Move) -> Seq<Seq<Chess>> {
    put(put(cells, m.from, at_pos(cells, m.to)), m.to, m.capture)
}

/// `player`'s king as a square content.
pub open spec fn king_of(player: Player) -> Chess {
    match player {
        Player::Red => Chess::Red(ChessType::King),
        Player::Black => Chess::Black(ChessType::King),
    }
}

/// The square of the standard opening arrangement at a coordinate.
pub open spec fn spec_starting_square(row: int, col: int) -> Chess {
    if row == 0 {
        Chess::Black(spec_back_rank_kind(col))
    } else if row == 9 {
        Chess::Red(spec_back_rank_kind(col))
    } else if row == 2 && (col == 1 || col == 7) {
        Chess::Black(ChessType::Cannon)
    } else if row == 7 && (col == 1 || col == 7) {
        Chess::Red(ChessType::Cannon)
    } else if row == 3 && col % 2 == 0 {
        Chess::Black(ChessType::Pawn)
    } else if row == 6 && col % 2 == 0 {
        Chess::Red(ChessType::Pawn)
    } else {
        Chess::Empty
    }
}

/// The piece kind of a back rank at a column, mirrored around the King.
pub open spec fn spec_back_rank_kind(col: int) -> ChessType {
    if col == 0 || col == 8 {
        ChessType::Rook
    } else if col == 1 || col == 7 {
        ChessType::Knight
    } else if col == 2 || col == 6 {
        ChessType::Bishop
    } else if col == 3 || col == 5 {
        ChessType::Advisor
    } else {
        ChessType::King
    }
}

fn back_rank_kind(col: i32) -> (t: ChessType)
    ensures
        t == spec_back_rank_kind(col as int),
{
    if col == 0 || col == 8 {
        ChessType::Rook
    } else if col == 1 || col == 7 {
        ChessType::Knight
    } else if col == 2 || col == 6 {
        ChessType::Bishop
    } else if col == 3 || col == 5 {
        ChessType::Advisor
    } else {
        ChessType::King
    }
}

fn starting_square(row: i32, col: i32) -> (s: Chess)
    requires
        0 <= row < 10,
        0 <= col < 9,
    ensures
        s == spec_starting_square(row as int, col as int),
{
    if row == 0 {
        Chess::Black(back_rank_kind(col))
    } else if row == 9 {
        Chess::Red(back_rank_kind(col))
    } else if row == 2 && (col == 1 || col == 7) {
        Chess::Black(ChessType::Cannon)
    } else if row == 7 && (col == 1 || col == 7) {
        Chess::Red(ChessType::Cannon)
    } else if row == 3 && col % 2 == 0 {
        Chess::Black(ChessType::Pawn)
    } else if row == 6 && col % 2 == 0 {
        Chess::Red(ChessType::Pawn)
    } else {
        Chess::Empty
    }
}

impl Board {
    /// The grid as a mathematical value.
    pub open spec fn cells(self) -> Seq<Seq<Chess>> {
        cells_of(self)
    }

    /// The square at `pos`, `Chess::Empty` off the board.
    pub open spec fn spec_chess_at(self, pos: Position) -> Chess {
        at_pos(self.cells(), pos)
    }

    /// The board with every square empty and Red to move.
    pub fn empty() -> (b: Board)
        ensures
            forall|r: int, c: int|
                0 <= r < 10 && 0 <= c < 9 ==> b.cells()[r][c] == Chess::Empty,
            b.turn == Player::Red,
            b.counter == 0,
            b.gen_counter == 0,
    {
        Board { chesses: [[Chess::Empty; 9]; 10], turn: Player::Red, counter: 0, gen_counter: 0 }
    }

    /// The standard opening arrangement with Red to move.
    pub fn init() -> (b: Board)
        ensures
            forall|r: int, c: int|
                0 <= r < 10 && 0 <= c < 9 ==> b.cells()[r][c] == spec_starting_square(r, c),
            b.turn == Player::Red,
            b.counter == 0,
            b.gen_counter == 0,
    {
        let mut b = Board::empty();
        let mut row: i32 = 0;
        while row < 10
            invariant
                0 <= row <= 10,
                forall|r: int, c: int|
                    0 <= r < row && 0 <= c < 9 ==> b.cells()[r][c] == spec_starting_square(r, c),
                forall|r: int, c: int|
                    row <= r < 10 && 0 <= c < 9 ==> b.cells()[r][c] == Chess::Empty,
                b.turn == Player::Red,
                b.counter == 0,
                b.gen_counter == 0,
            decreases 10 - row,
        {
            let mut col: i32 = 0;
            while col < 9
                invariant
                    0 <= row < 10,
                    0 <= col <= 9,
                    forall|r: int, c: int|
                        0 <= r < row && 0 <= c < 9 ==> b.cells()[r][c] == spec_starting_square(r, c),
                    forall|c: int|
                        0 <= c < col ==> b.cells()[row as int][c] == spec_starting_square(
                            row as int,
                            c,
                        ),
                    forall|c: int|
                        col <= c < 9 ==> b.cells()[row as int][c] == Chess::Empty,
                    forall|r: int, c: int|
                        row < r < 10 && 0 <= c < 9 ==> b.cells()[r][c] == Chess::Empty,
                    b.turn == Player::Red,
                    b.counter == 0,
                    b.gen_counter == 0,
                decreases 9 - col,
            {
                let s = starting_square(row, col);
                if s != Chess::Empty {
                    b.set_chess(Position::new(row, col), s);
                }
                col = col + 1;
            }
            row = row + 1;
        }
        b
    }

    /// The square at `pos`, `Chess::Empty` off the board.
    pub fn chess_at(&self, pos: Position) -> (s: Chess)
        ensures
            s == self.spec_chess_at(pos),
    {
        if in_board(pos) {
            self.chesses[pos.row as usize][pos.col as usize]
        } else {
            Chess::Empty
        }
    }

    /// Overwrite the square at `pos` (which must lie on the board) with `chess`.
    pub fn set_chess(&mut self, pos: Position, chess: Chess)
        requires
            spec_in_board(pos),
        ensures
            final(self).cells() == put(old(self).cells(), pos, chess),
            final(self).turn == old(self).turn,
            final(self).counter == old(self).counter,
            final(self).gen_counter == old(self).gen_counter,
    {
        self.chesses[pos.row as usize][pos.col as usize] = chess;
        proof {
            assert(final(self).cells() =~~= put(old(self).cells(), pos, chess));
        }
    }

    /// Walk `m.chess` from `m.from` to `m.to` (capturing whatever stood there)
    /// and give the turn to the opponent of `m.player`.
    pub fn apply_move(&mut self, m: &Move)
        requires
            spec_in_board(m.from),
            spec_in_board(m.to),
        ensures
            final(self).cells() == apply_cells(old(self).cells(), *m),
            final(self).turn == m.player.spec_next(),
            final(self).counter == old(self).counter,
            final(self).gen_counter == old(self).gen_counter,
    {
        let chess = self.chess_at(m.from);
        self.set_chess(m.to, chess);
        self.set_chess(m.from, Chess::Empty);
        self.turn = m.player.next();
    }

    /// Put `m.chess`'s mover back on `m.from`, restore `m.capture` on `m.to`,
    /// and give the turn back to `m.player`.
    pub fn undo_move(&mut self, m: &Move)
        requires
            spec_in_board(m.from),
            spec_in_board(m.to),
        ensures
            final(self).cells() == undo_cells(old(self).cells(), *m),
            final(self).turn == m.player,
            final(self).counter == old(self).counter,
            final(self).gen_counter == old(self).gen_counter,
    {
        let chess = self.chess_at(m.to);
        self.set_chess(m.from, chess);
        self.set_chess(m.to, m.capture);
        self.turn = m.player;
    }
}

/// The square of `cells` at integer coordinates, `Chess::Empty` off the board.
pub open spec fn at_rc(cells: Seq<Seq<Chess>>, r: int, c: int) -> Chess {
    if 0 <= r < 10 && 0 <= c < 9 {
        cells[r][c]
    } else {
        Chess::Empty
    }
}

/// Whether a piece stands strictly between two squares of one row or one
/// column. Squares that are not aligned have nothing "between" them.
pub open spec fn spec_has_chess_between(cells: Seq<Seq<Chess>>, a: Position, b: Position) -> bool {
    if a.row == b.row {
        exists|j: int|
            spec_min(a.col as int, b.col as int) < j < spec_max(a.col as int, b.col as int)
                && at_rc(cells, a.row as int, j) != Chess::Empty
    } else if a.col == b.col {
        exists|i: int|
            spec_min(a.row as int, b.row as int) < i < spec_max(a.row as int, b.row as int)
                && at_rc(cells, i, a.col as int) != Chess::Empty
    } else {
        false
    }
}

pub open spec fn spec_min(a: int, b: int) -> int {
    if a < b {
        a
    } else {
        b
    }
}

pub open spec fn spec_max(a: int, b: int) -> int {
    if a < b {
        b
    } else {
        a
    }
}

/// The row of the `k`-th palace square of a side, scanning rows first.
pub open spec fn palace_row(player: Player, k: int) -> int {
    (if player == Player::Black {
        0int
    } else {
        7int
    }) + k / 3
}

/// The column of the `k`-th palace square of a side.
pub open spec fn palace_col(k: int) -> int {
    3 + k % 3
}

/// Whether the two Kings of `cells` stand on one column with nothing between
/// them; false whenever either King is missing from its palace.
pub open spec fn cells_eye_to_eye(cells: Seq<Seq<Chess>>) -> bool {
    match (king_scan(cells, Player::Red, 0), king_scan(cells, Player::Black, 0)) {
        (Some(a), Some(b)) => a.col == b.col && !spec_has_chess_between(cells, a, b),
        _ => false,
    }
}

/// Scan the palace squares of `player` from index `k` on, in row-major order,
/// for the player's King.
pub open spec fn king_scan(cells: Seq<Seq<Chess>>, player: Player, k: int) -> Option<Position>
    decreases 9 - k when k <= 9
{
    if k < 0 || k >= 9 {
        None
    } else if at_rc(cells, palace_row(player, k), palace_col(k)) == king_of(player) {
        Some(Position { row: palace_row(player, k) as i32, col: palace_col(k) as i32 })
    } else {
        king_scan(cells, player, k + 1)
    }
}

/// Where a `king_scan` from index `k` lands: on the player's King inside the
/// palace if it finds one, and on nothing exactly when no later palace square
/// holds that King.
pub proof fn lemma_king_scan_props(cells: Seq<Seq<Chess>>, player: Player, k: int)
    requires
        0 <= k <= 9,
    ensures
        match king_scan(cells, player, k) {
            Some(p) => spec_in_palace(p, player) && at_pos(cells, p) == king_of(player),
            None => forall|i: int|
                k <= i < 9 ==> at_rc(cells, palace_row(player, i), palace_col(i)) != king_of(
                    player,
                ),
        },
    decreases 9 - k,
{
    if k < 9 {
        lemma_king_scan_props(cells, player, k + 1);
    }
}

impl Board {
    /// Where `player`'s King stands, if a palace square of `player` holds it:
    /// the first hit of a row-major scan of the player's palace.
    pub open spec fn spec_king_position(self, player: Player) -> Option<Position> {
        king_scan(self.cells(), player, 0)
    }

    /// Whether the two Kings stand on one column with nothing between them.
    /// False whenever either King is missing from its palace.
    pub open spec fn spec_king_eye_to_eye(self) -> bool {
        cells_eye_to_eye(self.cells())
    }

    /// Whether a piece stands strictly between two squares of one row or one
    /// column.
    pub fn has_chess_between(&self, posa: Position, posb: Position) -> (b: bool)
        ensures
            b == spec_has_chess_between(self.cells(), posa, posb),
    {
        if posa.row == posb.row {
            let lo: i32 = if posa.col < posb.col { posa.col } else { posb.col };
            let hi: i32 = if posa.col < posb.col { posb.col } else { posa.col };
            if lo < hi {
                let mut j: i32 = lo + 1;
                while j < hi
                    invariant
                        lo < j <= hi || (lo == hi && j == lo + 1),
                        lo == spec_min(posa.col as int, posb.col as int),
                        hi == spec_max(posa.col as int, posb.col as int),
                        posa.row == posb.row,
                        forall|t: int|
                            lo < t < j ==> at_rc(self.cells(), posa.row as int, t) == Chess::Empty,
                    decreases hi - j,
                {
                    if self.chess_at(Position::new(posa.row, j)).chess_type().is_some() {
                        proof {
                            assert(at_rc(self.cells(), posa.row as int, j as int) != Chess::Empty);
                        }
                        return true;
                    }
                    j = j + 1;
                }
            }
            false
        } else if posa.col == posb.col {
            let lo: i32 = if posa.row < posb.row { posa.row } else { posb.row };
            let hi: i32 = if posa.row < posb.row { posb.row } else { posa.row };
            if lo < hi {
                let mut i: i32 = lo + 1;
                while i < hi
                    invariant
                        lo < i <= hi || (lo == hi && i == lo + 1),
                        lo == spec_min(posa.row as int, posb.row as int),
                        hi == spec_max(posa.row as int, posb.row as int),
                        posa.col == posb.col,
                        posa.row != posb.row,
                        forall|t: int|
                            lo < t < i ==> at_rc(self.cells(), t, posa.col as int) == Chess::Empty,
                    decreases hi - i,
                {
                    if self.chess_at(Position::new(i, posa.col)).chess_type().is_some() {
                        proof {
                            assert(at_rc(self.cells(), i as int, posa.col as int) != Chess::Empty);
                        }
                        return true;
                    }
                    i = i + 1;
                }
            }
            false
        } else {
            false
        }
    }

    /// Where `player`'s King stands. The King is looked for only inside the
    /// player's palace, which is the only region it can legally occupy.
    pub fn king_position(&self, player: Player) -> (r: Option<Position>)
        ensures
            r == self.spec_king_position(player),
            r matches Some(p) ==> spec_in_palace(p, player) && self.spec_chess_at(p) == king_of(
                player,
            ),
    {
        let base: i32 = if player == Player::Black { 0 } else { 7 };
        let king = if player == Player::Black {
            Chess::Black(ChessType::King)
        } else {
            Chess::Red(ChessType::King)
        };
        let mut k: i32 = 0;
        while k < 9
            invariant
                0 <= k <= 9,
                base == if player == Player::Black { 0int } else { 7int },
                king == king_of(player),
                king_scan(self.cells(), player, 0) == king_scan(self.cells(), player, k as int),
            decreases 9 - k,
        {
            let pos = Position::new(base + k / 3, 3 + k % 3);
            if self.chess_at(pos) == king {
                return Some(pos);
            }
            k = k + 1;
        }
        proof {
            lemma_king_scan_props(self.cells(), player, 0);
        }
        None
    }

    /// Whether the two Kings stand on one column with nothing between them
    /// (the flying-general exposure). False whenever either King is missing.
    pub fn king_eye_to_eye(&self) -> (b: bool)
        ensures
            b == self.spec_king_eye_to_eye(),
    {
        let ra = self.king_position(Player::Red);
        let rb = self.king_position(Player::Black);
        match (ra, rb) {
            (Some(posa), Some(posb)) => {
                if posa.col == posb.col {
                    !self.has_chess_between(posa, posb)
                } else {
                    false
                }
            },
            _ => false,
        }
    }
}

/// The digit value of an ASCII digit, -1 for any other character.
pub open spec fn spec_fen_digit(c: char) -> int {
    if c == '0' {
        0
    } else if c == '1' {
        1
    } else if c == '2' {
        2
    } else if c == '3' {
        3
    } else if c == '4' {
        4
    } else if c == '5' {
        5
    } else if c == '6' {
        6
    } else if c == '7' {
        7
    } else if c == '8' {
        8
    } else if c == '9' {
        9
    } else {
        -1
    }
}

pub(crate) fn fen_digit(c: char) -> (r: i32)
    ensures
        r == spec_fen_digit(c),
{
    match c {
        '0' => 0,
        '1' => 1,
        '2' => 2,
        '3' => 3,
        '4' => 4,
        '5' => 5,
        '6' => 6,
        '7' => 7,
        '8' => 8,
        '9' => 9,
        _ => -1,
    }
}

/// The piece a FEN letter stands for: Black pieces lowercase, Red uppercase.
pub open spec fn spec_fen_chess(c: char) -> Option<Chess> {
    if c == 'k' {
        Some(Chess::Black(ChessType::King))
    } else if c == 'a' {
        Some(Chess::Black(ChessType::Advisor))
    } else if c == 'b' {
        Some(Chess::Black(ChessType::Bishop))
    } else if c == 'n' {
        Some(Chess::Black(ChessType::Knight))
    } else if c == 'r' {
        Some(Chess::Black(ChessType::Rook))
    } else if c == 'c' {
        Some(Chess::Black(ChessType::Cannon))
    } else if c == 'p' {
        Some(Chess::Black(ChessType::Pawn))
    } else if c == 'K' {
        Some(Chess::Red(ChessType::King))
    } else if c == 'A' {
        Some(Chess::Red(ChessType::Advisor))
    } else if c == 'B' {
        Some(Chess::Red(ChessType::Bishop))
    } else if c == 'N' {
        Some(Chess::Red(ChessType::Knight))
    } else if c == 'R' {
        Some(Chess::Red(ChessType::Rook))
    } else if c == 'C' {
        Some(Chess::Red(ChessType::Cannon))
    } else if c == 'P' {
        Some(Chess::Red(ChessType::Pawn))
    } else {
        None
    }
}

fn fen_chess(c: char) -> (r: Option<Chess>)
    ensures
        r == spec_fen_chess(c),
{
    match c {
        'k' => Some(Chess::Black(ChessType::King)),
        'a' => Some(Chess::Black(ChessType::Advisor)),
        'b' => Some(Chess::Black(ChessType::Bishop)),
        'n' => Some(Chess::Black(ChessType::Knight)),
        'r' => Some(Chess::Black(ChessType::Rook)),
        'c' => Some(Chess::Black(ChessType::Cannon)),
        'p' => Some(Chess::Black(ChessType::Pawn)),
        'K' => Some(Chess::Red(ChessType::King)),
        'A' => Some(Chess::Red(ChessType::Advisor)),
        'B' => Some(Chess::Red(ChessType::Bishop)),
        'N' => Some(Chess::Red(ChessType::Knight)),
        'R' => Some(Chess::Red(ChessType::Rook)),
        'C' => Some(Chess::Red(ChessType::Cannon)),
        'P' => Some(Chess::Red(ChessType::Pawn)),
        _ => None,
    }
}

/// `cells` with the square at row `r`, column `c` replaced by `x`.
pub open spec fn put_rc(cells: Seq<Seq<Chess>>, r: int, c: int, x: Chess) -> Seq<Seq<Chess>> {
    cells.update(r, cells[r].update(c, x))
}

/// A fully empty 10 x 9 grid.
pub open spec fn empty_cells() -> Seq<Seq<Chess>> {
    Seq::new(10, |r: int| Seq::new(9, |c: int| Chess::Empty))
}

/// Fold the placement field of a FEN over a grid, cursor at row `i`, column
/// `j`: `/` opens the next row, a digit skips that many columns, a piece
/// letter lands on the cursor square (dropped silently off the grid), and any
/// other character skips one column. A space or the string's end stops it.
pub open spec fn fen_cells(cells: Seq<Seq<Chess>>, chars: Seq<char>, i: int, j: int) -> Seq<
    Seq<Chess>,
>
    decreases chars.len(),
{
    if chars.len() == 0 || chars[0] == ' ' {
        cells
    } else {
        let c = chars[0];
        let rest = chars.skip(1);
        if c == '/' {
            fen_cells(cells, rest, i + 1, 0)
        } else if spec_fen_digit(c) >= 0 {
            fen_cells(cells, rest, i, j + spec_fen_digit(c))
        } else if spec_fen_chess(c) is Some {
            let placed = if 0 <= i < 10 && 0 <= j < 9 {
                put_rc(cells, i, j, spec_fen_chess(c).unwrap())
            } else {
                cells
            };
            fen_cells(placed, rest, i, j + 1)
        } else {
            fen_cells(cells, rest, i, j + 1)
        }
    }
}

/// The index of the first space at or after `k`, or the length if none.
pub open spec fn first_space_idx(chars: Seq<char>, k: int) -> int
    decreases chars.len() - k when k <= chars.len()
{
    if k < 0 || k >= chars.len() {
        chars.len() as int
    } else if chars[k] == ' ' {
        k
    } else {
        first_space_idx(chars, k + 1)
    }
}

/// A scan that saw no space up to `k` and a space (or the end) at `k` pins
/// down `first_space_idx`.
pub proof fn lemma_first_space(chars: Seq<char>, from: int, k: int)
    requires
        0 <= from <= k <= chars.len(),
        forall|t: int| from <= t < k ==> chars[t] != ' ',
        k == chars.len() || chars[k] == ' ',
    ensures
        first_space_idx(chars, from) == k,
    decreases k - from,
{
    if from < k {
        lemma_first_space(chars, from + 1, k);
    }
}

/// The side-to-move field of a FEN: the second space-separated field; the
/// side is Black exactly when that field is the one-letter word `b`.
pub open spec fn fen_side(chars: Seq<char>) -> Player {
    let s1 = first_space_idx(chars, 0);
    if s1 >= chars.len() {
        Player::Red
    } else {
        let s2 = first_space_idx(chars, s1 + 1);
        if s2 == s1 + 2 && chars[s1 + 1] == 'b' {
            Player::Black
        } else {
            Player::Red
        }
    }
}

impl Board {
    /// Decode a FEN: lay the pieces of its placement field on an empty board
    /// and take the side to move from its second field. Malformed input never
    /// fails: pieces aimed off the grid are dropped and a missing or strange
    /// side field leaves Red to move.
    pub fn from_fen(fen: &str) -> (b: Board)
        ensures
            b.cells() == fen_cells(empty_cells(), fen@, 0, 0),
            b.turn == fen_side(fen@),
            b.counter == 0,
            b.gen_counter == 0,
    {
        let mut board = Board::empty();
        proof {
            assert(board.cells() =~~= empty_cells());
        }
        let n: usize = fen.unicode_len();
        let mut idx: usize = 0;
        let mut i: i32 = 0;
        let mut j: i32 = 0;
        let mut gi: Ghost<int> = Ghost(0);
        let mut gj: Ghost<int> = Ghost(0);
        proof {
            assert(fen@.skip(0) =~= fen@);
        }
        loop
            invariant
                n == fen@.len(),
                0 <= idx <= n,
                0 <= gi@,
                0 <= gj@,
                i == spec_min(gi@, 10),
                j == spec_min(gj@, 9),
                fen_cells(empty_cells(), fen@, 0, 0) == fen_cells(
                    board.cells(),
                    fen@.skip(idx as int),
                    gi@,
                    gj@,
                ),
                forall|t: int| 0 <= t < idx ==> fen@[t] != ' ',
                board.turn == Player::Red,
                board.counter == 0,
                board.gen_counter == 0,
            ensures
                idx <= n,
                idx == n || fen@[idx as int] == ' ',
                forall|t: int| 0 <= t < idx ==> fen@[t] != ' ',
                board.cells() == fen_cells(empty_cells(), fen@, 0, 0),
                board.turn == Player::Red,
                board.counter == 0,
                board.gen_counter == 0,
            decreases n - idx,
        {
            if idx >= n {
                break;
            }
            let c = fen.get_char(idx);
            proof {
                assert(fen@.skip(idx as int)[0] == fen@[idx as int]);
                assert(fen@.skip(idx as int).skip(1) =~= fen@.skip(idx as int + 1));
            }
            if c == ' ' {
                break;
            }
            if c == '/' {
                i = if i < 10 {
                    i + 1
                } else {
                    i
                };
                j = 0;
                gi = Ghost(gi@ + 1);
                gj = Ghost(0);
            } else {
                let d = fen_digit(c);
                if d >= 0 {
                    j = if j + d < 9 {
                        j + d
                    } else {
                        9
                    };
                    gj = Ghost(gj@ + d);
                } else {
                    if let Some(chess) = fen_chess(c) {
                        if i < 10 && j < 9 {
                            board.set_chess(Position::new(i, j), chess);
                        }
                    }
                    j = if j + 1 < 9 {
                        j + 1
                    } else {
                        9
                    };
                    gj = Ghost(gj@ + 1);
                }
            }
            idx = idx + 1;
        }
        proof {
            lemma_first_space(fen@, 0, idx as int);
        }
        if idx < n {
            let start: usize = idx + 1;
            let mut k: usize = start;
            loop
                invariant
                    n == fen@.len(),
                    start <= k <= n,
                    start == idx + 1,
                    idx < n,
                    forall|t: int| start <= t < k ==> fen@[t] != ' ',
                ensures
                    start <= k <= n,
                    k == n || fen@[k as int] == ' ',
                    forall|t: int| start <= t < k ==> fen@[t] != ' ',
                decreases n - k,
            {
                if k >= n {
                    break;
                }
                if fen.get_char(k) == ' ' {
                    break;
                }
                k = k + 1;
            }
            proof {
                lemma_first_space(fen@, start as int, k as int);
            }
            if k - start == 1 {
                if fen.get_char(start) == 'b' {
                    board.turn = Player::Black;
                }
            }
        }
        board
    }
}

/// What undoing a move does to the model: the grid changes as `undo_cells`
/// says and the turn goes back to the mover.
pub open spec fn m_undo(bm: BoardModel, m: Move) -> BoardModel {
    BoardModel { cells: undo_cells(bm.cells, m), turn: m.player }
}

/// Make/undo is an involution: applying a move that truthfully records its
/// walked and captured pieces and then undoing it restores every square and
/// the side to move exactly.
pub proof fn lemma_make_undo(bm: BoardModel, m: Move)
    requires
        bm.cells.len() == 10,
        forall|r: int| 0 <= r < 10 ==> (#[trigger] bm.cells[r]).len() == 9,
        spec_in_board(m.from),
        spec_in_board(m.to),
        m.player == bm.turn,
        m.capture == at_pos(bm.cells, m.to),
    ensures
        m_undo(m_apply(bm, m), m) == bm,
{
    lemma_apply_undo(bm.cells, m);
}

/// Undoing a move restores the grid it was applied to, provided the move's
/// `capture` field records what stood on its target square.
pub proof fn lemma_apply_undo(cells: Seq<Seq<Chess>>, m: Move)
    requires
        cells.len() == 10,
        forall|r: int| 0 <= r < 10 ==> #[trigger] cells[r].len() == 9,
        spec_in_board(m.from),
        spec_in_board(m.to),
        m.capture == at_pos(cells, m.to),
    ensures
        undo_cells(apply_cells(cells, m), m) == cells,
{
    assert(undo_cells(apply_cells(cells, m), m) =~~= cells);
}

/// The file letter of a column: `a` for column 0 through `i` for column 8.
pub open spec fn spec_col_letter(col: int) -> char {
    if col == 0 {
        'a'
    } else if col == 1 {
        'b'
    } else if col == 2 {
        'c'
    } else if col == 3 {
        'd'
    } else if col == 4 {
        'e'
    } else if col == 5 {
        'f'
    } else if col == 6 {
        'g'
    } else if col == 7 {
        'h'
    } else if col == 8 {
        'i'
    } else {
        '?'
    }
}

/// The rank digit of a row: `0` at Red's base row 9 up to `9` at row 0.
pub open spec fn spec_row_digit(row: int) -> char {
    if row == 0 {
        '9'
    } else if row == 1 {
        '8'
    } else if row == 2 {
        '7'
    } else if row == 3 {
        '6'
    } else if row == 4 {
        '5'
    } else if row == 5 {
        '4'
    } else if row == 6 {
        '3'
    } else if row == 7 {
        '2'
    } else if row == 8 {
        '1'
    } else if row == 9 {
        '0'
    } else {
        '?'
    }
}

/// The column a file letter names, -1 for any other character.
pub open spec fn spec_col_of_letter(c: char) -> int {
    if c == 'a' {
        0
    } else if c == 'b' {
        1
    } else if c == 'c' {
        2
    } else if c == 'd' {
        3
    } else if c == 'e' {
        4
    } else if c == 'f' {
        5
    } else if c == 'g' {
        6
    } else if c == 'h' {
        7
    } else if c == 'i' {
        8
    } else {
        -1
    }
}

fn col_of_letter(c: char) -> (r: i32)
    ensures
        r == spec_col_of_letter(c),
{
    match c {
        'a' => 0,
        'b' => 1,
        'c' => 2,
        'd' => 3,
        'e' => 4,
        'f' => 5,
        'g' => 6,
        'h' => 7,
        'i' => 8,
        _ => -1,
    }
}

fn col_str(col: i32) -> (r: &'static str)
    requires
        0 <= col < 9,
    ensures
        r@ =~= seq![spec_col_letter(col as int)],
{
    match col {
        0 => {
            proof {
                reveal_strlit("a");
            }
            "a"
        },
        1 => {
            proof {
                reveal_strlit("b");
            }
            "b"
        },
        2 => {
            proof {
                reveal_strlit("c");
            }
            "c"
        },
        3 => {
            proof {
                reveal_strlit("d");
            }
            "d"
        },
        4 => {
            proof {
                reveal_strlit("e");
            }
            "e"
        },
        5 => {
            proof {
                reveal_strlit("f");
            }
            "f"
        },
        6 => {
            proof {
                reveal_strlit("g");
            }
            "g"
        },
        7 => {
            proof {
                reveal_strlit("h");
            }
            "h"
        },
        _ => {
            proof {
                reveal_strlit("i");
            }
            "i"
        },
    }
}

fn row_str(row: i32) -> (r: &'static str)
    requires
        0 <= row < 10,
    ensures
        r@ =~= seq![spec_row_digit(row as int)],
{
    match row {
        0 => {
            proof {
                reveal_strlit("9");
            }
            "9"
        },
        1 => {
            proof {
                reveal_strlit("8");
            }
            "8"
        },
        2 => {
            proof {
                reveal_strlit("7");
            }
            "7"
        },
        3 => {
            proof {
                reveal_strlit("6");
            }
            "6"
        },
        4 => {
            proof {
                reveal_strlit("5");
            }
            "5"
        },
        5 => {
            proof {
                reveal_strlit("4");
            }
            "4"
        },
        6 => {
            proof {
                reveal_strlit("3");
            }
            "3"
        },
        7 => {
            proof {
                reveal_strlit("2");
            }
            "2"
        },
        8 => {
            proof {
                reveal_strlit("1");
            }
            "1"
        },
        _ => {
            proof {
                reveal_strlit("0");
            }
            "0"
        },
    }
}

/// The coordinate a two-character token names: a file letter and a rank
/// digit, with rank 0 at Red's base row.
pub open spec fn spec_from_coords(chars: Seq<char>) -> Option<Position> {
    if chars.len() == 2 && spec_col_of_letter(chars[0]) >= 0 && spec_fen_digit(chars[1]) >= 0 {
        Some(
            Position {
                row: (9 - spec_fen_digit(chars[1])) as i32,
                col: spec_col_of_letter(chars[0]) as i32,
            },
        )
    } else {
        None
    }
}

impl Position {
    /// Decode a two-character coordinate token such as `e5`: file letter
    /// then rank digit. Anything else is rejected.
    pub fn from_coords(s: &str) -> (r: Option<Position>)
        ensures
            r == spec_from_coords(s@),
            r matches Some(p) ==> spec_in_board(p),
    {
        let n = s.unicode_len();
        if n != 2 {
            return None;
        }
        let col = col_of_letter(s.get_char(0));
        let d = fen_digit(s.get_char(1));
        if col >= 0 && d >= 0 {
            Some(Position::new(9 - d, col))
        } else {
            None
        }
    }

    /// Encode an on-board coordinate as its two-character token: file letter
    /// then rank digit, rank 0 at Red's base row.
    pub fn to_coords(&self) -> (r: String)
        requires
            spec_in_board(*self),
        ensures
            r@ =~= seq![
                spec_col_letter(self.col as int),
                spec_row_digit(self.row as int),
            ],
    {
        let cs = col_str(self.col);
        let rs = row_str(self.row);
        let mut out = String::from_str(cs);
        out.append(rs);
        out
    }
}

} // verus!
