//! The static evaluator: symmetric material + piece-square score with a
//! small initiative bonus for the side asked about.

use vstd::prelude::*;

use crate::board::{at_rc, Board, Chess, ChessType, Player, Position, in_board, spec_in_board};

verus! {

pub const KING_VALUE_TABLE: [[i32; 9]; 10] = [
    [0, 0, 0, 0, 0, 0, 0, 0, 0],
    [0, 0, 0, 0, 0, 0, 0, 0, 0],
    [0, 0, 0, 0, 0, 0, 0, 0, 0],
    [0, 0, 0, 0, 0, 0, 0, 0, 0],
    [0, 0, 0, 0, 0, 0, 0, 0, 0],
    [0, 0, 0, 0, 0, 0, 0, 0, 0],
    [0, 0, 0, 0, 0, 0, 0, 0, 0],
    [0, 0, 0, 1, 1, 1, 0, 0, 0],
    [0, 0, 0, 2, 2, 2, 0, 0, 0],
    [0, 0, 0, 11, 15, 11, 0, 0, 0],
];

pub const ADVISOR_VALUE_TABLE: [[i32; 9]; 10] = [
    [0, 0, 0, 0, 0, 0, 0, 0, 0],
    [0, 0, 0, 0, 0, 0, 0, 0, 0],
    [0, 0, 0, 0, 0, 0, 0, 0, 0],
    [0, 0, 0, 0, 0, 0, 0, 0, 0],
    [0, 0, 0, 0, 0, 0, 0, 0, 0],
    [0, 0, 0, 0, 0, 0, 0, 0, 0],
    [0, 0, 0, 0, 0, 0, 0, 0, 0],
    [0, 0, 0, 20, 0, 20, 0, 0, 0],
    [0, 0, 0, 0, 23, 0, 0, 0, 0],
    [0, 0, 0, 20, 0, 20, 0, 0, 0],
];

pub const BISHOP_VALUE_TABLE: [[i32; 9]; 10] = [
    [0, 0, 0, 0, 0, 0, 0, 0, 0],
    [0, 0, 0, 0, 0, 0, 0, 0, 0],
    [0, 0, 0, 0, 0, 0, 0, 0, 0],
    [0, 0, 0, 0, 0, 0, 0, 0, 0],
    [0, 0, 0, 0, 0, 0, 0, 0, 0],
    [0, 0, 20, 0, 0, 0, 20, 0, 0],
    [0, 0, 0, 0, 0, 0, 0, 0, 0],
    [18, 0, 0, 0, 23, 0, 0, 0, 18],
    [0, 0, 0, 0, 0, 0, 0, 0, 0],
    [0, 0, 20, 0, 0, 0, 20, 0, 0],
];

pub const ROOK_VALUE_TABLE: [[i32; 9]; 10] = [
    [206, 208, 207, 213, 214, 213, 207, 208, 206],
    [206, 212, 209, 216, 233, 216, 209, 212, 206],
    [206, 208, 207, 214, 216, 214, 207, 208, 206],
    [206, 213, 213, 216, 216, 216, 213, 213, 206],
    [208, 211, 211, 214, 215, 214, 211, 211, 208],
    [208, 212, 212, 214, 215, 214, 212, 212, 208],
    [204, 209, 204, 212, 214, 212, 204, 209, 204],
    [198, 208, 204, 212, 212, 212, 204, 208, 198],
    [200, 208, 206, 212, 200, 212, 206, 208, 200],
    [194, 206, 204, 212, 200, 212, 204, 206, 194],
];

pub const KNIGHT_VALUE_TABLE: [[i32; 9]; 10] = [
    [90, 90, 90, 96, 90, 96, 90, 90, 90],
    [90, 96, 103, 97, 94, 97, 103, 96, 90],
    [92, 98, 99, 103, 99, 103, 99, 98, 92],
    [93, 108, 100, 107, 100, 107, 100, 108, 93],
    [90, 100, 99, 103, 104, 103, 99, 100, 90],
    [90, 98, 101, 102, 103, 102, 101, 98, 90],
    [92, 94, 98, 95, 98, 95, 98, 94, 92],
    [93, 92, 94, 95, 92, 95, 94, 92, 93],
    [85, 90, 92, 93, 78, 93, 92, 90, 85],
    [88, 85, 90, 88, 90, 88, 90, 85, 88],
];

pub const CANNON_VALUE_TABLE: [[i32; 9]; 10] = [
    [100, 100, 96, 91, 90, 91, 96, 100, 100],
    [98, 98, 96, 92, 89, 92, 96, 98, 98],
    [97, 97, 96, 91, 92, 91, 96, 97, 97],
    [96, 99, 99, 98, 100, 98, 99, 99, 96],
    [96, 96, 96, 96, 100, 96, 96, 96, 96],
    [95, 96, 99, 96, 100, 96, 99, 96, 95],
    [96, 96, 96, 96, 96, 96, 96, 96, 96],
    [97, 96, 100, 99, 101, 99, 100, 96, 97],
    [96, 97, 98, 98, 98, 98, 98, 97, 96],
    [96, 96, 97, 99, 99, 99, 97, 96, 96],
];

pub const PAWN_VALUE_TABLE: [[i32; 9]; 10] = [
    [9, 9, 9, 11, 13, 11, 9, 9, 9],
    [19, 24, 34, 42, 44, 42, 34, 24, 19],
    [19, 24, 32, 37, 37, 37, 32, 24, 19],
    [19, 23, 27, 29, 30, 29, 27, 23, 19],
    [14, 18, 20, 27, 29, 27, 20, 18, 14],
    [7, 0, 13, 0, 16, 0, 13, 0, 7],
    [7, 0, 7, 0, 15, 0, 7, 0, 7],
    [0, 0, 0, 0, 0, 0, 0, 0, 0],
    [0, 0, 0, 0, 0, 0, 0, 0, 0],
    [0, 0, 0, 0, 0, 0, 0, 0, 0],
];

pub const INITIATIVE_BONUS: i32 = 3;

/// The piece-square table of a kind, seen from Red's side.
pub open spec fn spec_table(ct: ChessType) -> [[i32; 9]; 10] {
    match ct {
        ChessType::King => KING_VALUE_TABLE,
        ChessType::Advisor => ADVISOR_VALUE_TABLE,
        ChessType::Bishop => BISHOP_VALUE_TABLE,
        ChessType::Knight => KNIGHT_VALUE_TABLE,
        ChessType::Rook => ROOK_VALUE_TABLE,
        ChessType::Cannon => CANNON_VALUE_TABLE,
        ChessType::Pawn => PAWN_VALUE_TABLE,
    }
}

/// The table entry of a kind at a square, as a mathematical integer.
pub open spec fn table_at(ct: ChessType, r: int, c: int) -> int {
    spec_table(ct)@[r]@[c] as int
}

/// Every table entry lies between 0 and 233.
pub proof fn lemma_table_bounds(ct: ChessType, r: int, c: int)
    requires
        0 <= r < 10,
        0 <= c < 9,
    ensures
        0 <= table_at(ct, r, c) <= 233,
{
}

/// The contribution of the square at (`r`, `c`) to Red's positional score:
/// the table entry of the piece's kind at its own square.
pub open spec fn red_cell(cells: Seq<Seq<Chess>>, r: int, c: int) -> int {
    let ch = at_rc(cells, r, c);
    if ch.spec_belong_to(Player::Red) {
        table_at(ch.spec_chess_type().unwrap(), r, c)
    } else {
        0
    }
}

/// The contribution of the square at (`r`, `c`) to Black's positional score:
/// the table entry of the piece's kind at the flipped square, so that the
/// tables can be written once from Red's viewpoint.
pub open spec fn black_cell(cells: Seq<Seq<Chess>>, r: int, c: int) -> int {
    let ch = at_rc(cells, r, c);
    if ch.spec_belong_to(Player::Black) {
        table_at(ch.spec_chess_type().unwrap(), 9 - r, 8 - c)
    } else {
        0
    }
}

/// Red's positional score over the squares with flat index `k` and above
/// (row-major, index `k` is row `k / 9`, column `k % 9`).
pub open spec fn red_sum(cells: Seq<Seq<Chess>>, k: int) -> int
    decreases 90 - k when k <= 90
{
    if k < 0 || k >= 90 {
        0
    } else {
        red_cell(cells, k / 9, k % 9) + red_sum(cells, k + 1)
    }
}

/// Black's positional score over the squares with flat index `k` and above.
pub open spec fn black_sum(cells: Seq<Seq<Chess>>, k: int) -> int
    decreases 90 - k when k <= 90
{
    if k < 0 || k >= 90 {
        0
    } else {
        black_cell(cells, k / 9, k % 9) + black_sum(cells, k + 1)
    }
}

/// Both side scores stay between 0 and 233 per remaining square.
pub proof fn lemma_sum_bounds(cells: Seq<Seq<Chess>>, k: int)
    requires
        0 <= k <= 90,
    ensures
        0 <= red_sum(cells, k) <= (90 - k) * 233,
        0 <= black_sum(cells, k) <= (90 - k) * 233,
    decreases 90 - k,
{
    if k < 90 {
        lemma_sum_bounds(cells, k + 1);
        let ch = at_rc(cells, k / 9, k % 9);
        if ch.spec_belong_to(Player::Red) {
            lemma_table_bounds(ch.spec_chess_type().unwrap(), k / 9, k % 9);
        }
        if ch.spec_belong_to(Player::Black) {
            lemma_table_bounds(ch.spec_chess_type().unwrap(), 9 - k / 9, 8 - k % 9);
        }
    }
}

/// The score of a board from one side's point of view: that side's
/// positional score minus the opponent's, plus the initiative bonus.
pub open spec fn spec_evaluate(cells: Seq<Seq<Chess>>, player: Player) -> int {
    (if player == Player::Red {
        red_sum(cells, 0) - black_sum(cells, 0)
    } else {
        black_sum(cells, 0) - red_sum(cells, 0)
    }) + INITIATIVE_BONUS
}

/// Evaluation symmetry: the two sides' evaluations of any one board sum to
/// twice the initiative bonus.
pub proof fn lemma_evaluate_symmetry(cells: Seq<Seq<Chess>>)
    ensures
        spec_evaluate(cells, Player::Red) + spec_evaluate(cells, Player::Black) == 2
            * INITIATIVE_BONUS,
{
}

/// The table entry of a kind at an on-board square.
fn table_value(ct: ChessType, pos: Position) -> (v: i32)
    requires
        spec_in_board(pos),
    ensures
        v == table_at(ct, pos.row as int, pos.col as int),
        0 <= v <= 233,
{
    proof {
        lemma_table_bounds(ct, pos.row as int, pos.col as int);
    }
    let t: [[i32; 9]; 10] = match ct {
        ChessType::King => KING_VALUE_TABLE,
        ChessType::Advisor => ADVISOR_VALUE_TABLE,
        ChessType::Bishop => BISHOP_VALUE_TABLE,
        ChessType::Knight => KNIGHT_VALUE_TABLE,
        ChessType::Rook => ROOK_VALUE_TABLE,
        ChessType::Cannon => CANNON_VALUE_TABLE,
        ChessType::Pawn => PAWN_VALUE_TABLE,
    };
    t[pos.row as usize][pos.col as usize]
}

impl Board {
    /// The material + piece-square score from `player`'s point of view: each
    /// piece contributes its kind's table entry (Black pieces look the table
    /// up at the flipped square), and the asked-about side receives the
    /// initiative bonus.
    pub fn evaluate(&self, player: Player) -> (v: i32)
        ensures
            v == spec_evaluate(self@.cells, player),
    {
        let ghost cells = self@.cells;
        let mut red_score: i32 = 0;
        let mut black_score: i32 = 0;
        let mut i: i32 = 0;
        while i < 10
            invariant
                0 <= i <= 10,
                cells == self@.cells,
                red_score + red_sum(cells, i as int * 9) == red_sum(cells, 0),
                black_score + black_sum(cells, i as int * 9) == black_sum(cells, 0),
                0 <= red_score <= i * 9 * 233,
                0 <= black_score <= i * 9 * 233,
            decreases 10 - i,
        {
            let mut j: i32 = 0;
            while j < 9
                invariant
                    0 <= i < 10,
                    0 <= j <= 9,
                    cells == self@.cells,
                    red_score + red_sum(cells, i as int * 9 + j as int) == red_sum(cells, 0),
                    black_score + black_sum(cells, i as int * 9 + j as int) == black_sum(cells, 0),
                    0 <= red_score <= (i * 9 + j) * 233,
                    0 <= black_score <= (i * 9 + j) * 233,
                decreases 9 - j,
            {
                let ghost k: int = i as int * 9 + j as int;
                proof {
                    assert(k / 9 == i as int && k % 9 == j as int) by (nonlinear_arith)
                        requires
                            0 <= i < 10,
                            0 <= j < 9,
                            k == i as int * 9 + j as int,
                    ;
                }
                let pos = Position::new(i, j);
                let chess = self.chess_at(pos);
                if let Some(ct) = chess.chess_type() {
                    let lookup = if chess.belong_to(Player::Black) {
                        pos.flip()
                    } else {
                        pos
                    };
                    let score = table_value(ct, lookup);
                    if chess.belong_to(Player::Black) {
                        black_score = black_score + score;
                    } else {
                        red_score = red_score + score;
                    }
                }
                j = j + 1;
            }
            i = i + 1;
        }
        if player == Player::Red {
            red_score - black_score + INITIATIVE_BONUS
        } else {
            black_score - red_score + INITIATIVE_BONUS
        }
    }
}

} // verus!
