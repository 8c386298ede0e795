//! The search: negamax alpha-beta with principal-variation (zero-window)
//! probes, and the iterative-deepening driver.

use vstd::prelude::*;

use crate::board::{m_apply, Board, BoardModel, Chess, ChessType, Move, Position};
use crate::check::cells_checked;
use crate::constant::{KILL, MAX, MAX_DEPTH, MIN};
use crate::eval::lemma_sum_bounds;
use crate::movegen::spec_move_ok;
use crate::zobrist::pos_index;

verus! {

/// A legal move: pseudo-legal, and applying it does not leave the mover's
/// own King attacked (the flying-general exposure included).
pub open spec fn spec_legal_move(b: BoardModel, m: Move) -> bool {
    spec_move_ok(b, m) && !cells_checked(apply_cells_of(b, m), b.turn)
}

/// The grid after a move, as seen from a model.
pub open spec fn apply_cells_of(b: BoardModel, m: Move) -> Seq<Seq<Chess>> {
    crate::board::apply_cells(b.cells, m)
}

/// Whether the side to move has any legal move at all.
pub open spec fn spec_has_legal_move(b: BoardModel) -> bool {
    exists|m: Move| #[trigger] spec_legal_move(b, m)
}

/// A principal variation read from its end: the last move is legal on `b`,
/// and the rest is a principal variation of the board after it.
pub open spec fn spec_pv_ok(b: BoardModel, pv: Seq<Move>) -> bool
    decreases pv.len(),
{
    if pv.len() == 0 {
        true
    } else {
        let m = pv.last();
        &&& spec_legal_move(b, m)
        &&& spec_pv_ok(m_apply(b, m), pv.drop_last())
    }
}

/// A pseudo-legal move is valid-shaped: it walks an actual piece, and its
/// target is never its origin.
pub proof fn lemma_move_ok_is_valid(b: BoardModel, m: Move)
    requires
        spec_move_ok(b, m),
    ensures
        m.chess != Chess::Empty,
        m.from != m.to,
{
    assert(m.chess.spec_belong_to(b.turn));
    let ct = m.chess.spec_chess_type().unwrap();
    assert(crate::movegen::spec_is_target(b, ct, m.from, m.to));
    match ct {
        ChessType::King => {},
        ChessType::Advisor => {},
        ChessType::Bishop => {},
        ChessType::Knight => {},
        ChessType::Rook => {},
        ChessType::Cannon => {},
        ChessType::Pawn => {},
    }
}

/// The move that aims from flat square `i / 90` at flat square `i % 90` on a
/// board, reading the walked and captured pieces off the grid. Every legal
/// move is `move_at` of exactly one index below 8100 (`lemma_move_index`).
pub open spec fn move_at(b: BoardModel, i: int) -> Move {
    Move {
        player: b.turn,
        from: board_pos(i / 90),
        to: board_pos(i % 90),
        chess: crate::board::at_pos(b.cells, board_pos(i / 90)),
        capture: crate::board::at_pos(b.cells, board_pos(i % 90)),
    }
}

/// The coordinate with flat square index `idx`.
pub open spec fn board_pos(idx: int) -> Position {
    Position { row: (idx / 9) as i32, col: (idx % 9) as i32 }
}

/// The flat index `move_at` recovers a pseudo-legal move from.
pub open spec fn move_index(m: Move) -> int {
    pos_index(m.from) * 90 + pos_index(m.to)
}

/// A value strictly below every reachable score, the unit of the maximum
/// in `negamax_from`.
pub open spec fn no_move_value() -> int {
    KILL - MAX_DEPTH - 1
}

/// The game-theoretic value of a position searched to `depth`: the static
/// evaluation at depth 0, the mate band with no legal reply, and otherwise
/// the best over all legal moves of the negated value of the board after
/// the move.
pub open spec fn spec_negamax(b: BoardModel, depth: nat) -> int
    decreases depth, 8101int,
{
    if depth == 0 {
        crate::eval::spec_evaluate(b.cells, b.turn)
    } else if !spec_has_legal_move(b) {
        KILL - depth
    } else {
        negamax_from(b, depth, 0)
    }
}

/// The best value over the legal moves with index at least `i`, or
/// `no_move_value()` when none is left.
pub open spec fn negamax_from(b: BoardModel, depth: nat, i: int) -> int
    decreases depth, 8100 - i,
{
    if i < 0 || i >= 8100 || depth == 0 {
        no_move_value()
    } else {
        let rest = negamax_from(b, depth, i + 1);
        if spec_legal_move(b, move_at(b, i)) {
            let v = -spec_negamax(m_apply(b, move_at(b, i)), (depth - 1) as nat);
            if v > rest {
                v
            } else {
                rest
            }
        } else {
            rest
        }
    }
}

/// Every pseudo-legal move is recovered from its own flat index.
pub proof fn lemma_move_index(b: BoardModel, m: Move)
    requires
        spec_move_ok(b, m),
    ensures
        0 <= move_index(m) < 8100,
        move_at(b, move_index(m)) == m,
{
    let fi = pos_index(m.from);
    let ti = pos_index(m.to);
    assert(0 <= fi < 90 && 0 <= ti < 90);
    let i = fi * 90 + ti;
    assert(i / 90 == fi && i % 90 == ti) by (nonlinear_arith)
        requires
            0 <= fi < 90,
            0 <= ti < 90,
            i == fi * 90 + ti,
    ;
    assert(fi / 9 == m.from.row as int && fi % 9 == m.from.col as int) by (nonlinear_arith)
        requires
            fi == m.from.row as int * 9 + m.from.col as int,
            0 <= m.from.row < 10,
            0 <= m.from.col < 9,
    ;
    assert(ti / 9 == m.to.row as int && ti % 9 == m.to.col as int) by (nonlinear_arith)
        requires
            ti == m.to.row as int * 9 + m.to.col as int,
            0 <= m.to.row < 10,
            0 <= m.to.col < 9,
    ;
    assert(board_pos(fi) == m.from);
    assert(board_pos(ti) == m.to);
}

/// Every negamax value lies in the band the score types allow, strictly
/// above `no_move_value()`.
pub proof fn lemma_negamax_bounds(b: BoardModel, depth: nat)
    requires
        depth <= MAX_DEPTH,
    ensures
        KILL - MAX_DEPTH <= spec_negamax(b, depth) <= MAX_DEPTH - KILL,
    decreases depth, 8102int,
{
    if depth == 0 {
        crate::eval::lemma_sum_bounds(b.cells, 0);
    } else if spec_has_legal_move(b) {
        let m0 = choose|m: Move| #[trigger] spec_legal_move(b, m);
        lemma_move_index(b, m0);
        lemma_negamax_from_props(b, depth, 0);
        assert(spec_legal_move(b, move_at(b, move_index(m0))));
        let j = choose|j: int|
            #![trigger move_at(b, j)]
            0 <= j < 8100 && spec_legal_move(b, move_at(b, j)) && negamax_from(b, depth, 0)
                == -spec_negamax(m_apply(b, move_at(b, j)), (depth - 1) as nat);
        lemma_negamax_bounds(m_apply(b, move_at(b, j)), (depth - 1) as nat);
    }
}

/// What the running maximum in `negamax_from` is: an upper bound on every
/// remaining legal move's value, itself achieved by one of them, and the
/// unit value exactly when none remains.
pub proof fn lemma_negamax_from_props(b: BoardModel, depth: nat, i: int)
    requires
        1 <= depth <= MAX_DEPTH,
        0 <= i <= 8100,
    ensures
        forall|j: int|
            #![trigger move_at(b, j)]
            i <= j < 8100 && spec_legal_move(b, move_at(b, j)) ==> -spec_negamax(
                m_apply(b, move_at(b, j)),
                (depth - 1) as nat,
            ) <= negamax_from(b, depth, i),
        (exists|j: int| #![trigger move_at(b, j)] i <= j < 8100 && spec_legal_move(b, move_at(b, j)))
            ==> exists|j: int|
            #![trigger move_at(b, j)]
            i <= j < 8100 && spec_legal_move(b, move_at(b, j)) && negamax_from(b, depth, i)
                == -spec_negamax(m_apply(b, move_at(b, j)), (depth - 1) as nat),
        negamax_from(b, depth, i) == no_move_value() <==> (forall|j: int|
            #![trigger move_at(b, j)]
            i <= j < 8100 ==> !spec_legal_move(b, move_at(b, j))),
    decreases depth, 8101 - i,
{
    if i < 8100 {
        lemma_negamax_from_props(b, depth, i + 1);
        if spec_legal_move(b, move_at(b, i)) {
            lemma_negamax_bounds(m_apply(b, move_at(b, i)), (depth - 1) as nat);
        }
    }
}

/// Mate-distance monotonicity: of two mate scores from one root, the one
/// found with more remaining depth is strictly lower, and both stay within
/// the score bounds.
pub proof fn lemma_mate_score_monotone(d1: i32, d2: i32)
    requires
        0 <= d1 < d2 <= MAX_DEPTH,
    ensures
        KILL - d2 < KILL - d1,
        MIN < KILL - d2 && KILL - d1 <= KILL,
{
}

impl Board {
    /// Negamax alpha-beta over the window (`alpha`, `beta`) with
    /// principal-variation search: the first legal move is searched with the
    /// full window, later ones with a zero-width window first and again with
    /// the full window when they fail high inside it. Returns a score and
    /// the principal variation, leaf move first and root move last; a side
    /// with no legal reply scores `KILL - depth`, so that earlier mates
    /// weigh heavier. The score is the position's game-theoretic value
    /// (`spec_negamax`) whenever it falls strictly inside the window, and a
    /// correct bound on that value when it fails low or high. The board
    /// comes back exactly as it went in; only the statistics counters move.
    pub fn alpha_beta_pvs(&mut self, depth: i32, alpha: i32, beta: i32) -> (r: (i32, Vec<Move>))
        requires
            0 <= depth <= MAX_DEPTH,
            MIN <= alpha < beta <= MAX,
        ensures
            final(self)@ == old(self)@,
            MIN <= r.0 <= MAX,
            r.0 <= alpha || r.0 <= MAX_DEPTH - KILL,
            r.0 >= beta || r.0 >= KILL - MAX_DEPTH,
            depth == 0 ==> r.0 == crate::eval::spec_evaluate(old(self)@.cells, old(self).turn)
                && r.1@.len() == 0,
            depth > 0 && !spec_has_legal_move(old(self)@) ==> r.0 == KILL - depth && r.1@.len()
                == 0,
            alpha == MIN && beta == MAX && depth > 0 && spec_has_legal_move(old(self)@)
                ==> r.1@.len() > 0,
            alpha < r.0 < beta ==> r.0 == spec_negamax(old(self)@, depth as nat),
            r.0 <= alpha ==> spec_negamax(old(self)@, depth as nat) <= r.0,
            r.0 >= beta ==> spec_negamax(old(self)@, depth as nat) >= r.0,
            spec_pv_ok(old(self)@, r.1@),
            r.1@.len() <= depth,
        decreases depth,
    {
        if depth == 0 {
            proof {
                lemma_sum_bounds(self@.cells, 0);
            }
            let v = self.evaluate(self.turn);
            self.counter = if self.counter < i32::MAX {
                self.counter + 1
            } else {
                self.counter
            };
            return (v, Vec::new());
        }
        let moves = self.generate_move();
        self.gen_counter = if self.gen_counter < i32::MAX {
            self.gen_counter + 1
        } else {
            self.gen_counter
        };
        let ghost orig: Board = *self;
        let ghost alpha0: i32 = alpha;
        let mut cur_alpha = alpha;
        let mut tried: usize = 0;
        let mut best_moves: Vec<Move> = Vec::new();
        let stay = Move::stay();
        let mut witness: Ghost<Move> = Ghost(stay);
        let mut k: usize = 0;
        while k < moves.len()
            invariant
                0 < depth <= MAX_DEPTH,
                alpha0 == alpha,
                MIN <= cur_alpha < beta <= MAX,
                self@ == orig@,
                orig@ == old(self)@,
                orig@.turn == orig.turn,
                tried <= k,
                forall|m: Move| #![trigger moves@.contains(m)]
                    moves@.contains(m) <==> spec_move_ok(orig@, m),
                k <= moves.len(),
                tried == 0 ==> forall|u: int|
                    0 <= u < k ==> !spec_legal_move(orig@, #[trigger] moves@[u]),
                tried == 0 ==> best_moves@.len() == 0,
                tried > 0 ==> spec_legal_move(orig@, witness@),
                spec_pv_ok(orig@, best_moves@),
                best_moves@.len() <= depth,
                alpha0 == cur_alpha || (cur_alpha > alpha0 && cur_alpha <= MAX_DEPTH - KILL),
                tried > 0 ==> cur_alpha >= KILL - MAX_DEPTH,
                tried == 0 ==> cur_alpha == alpha0,
                alpha0 == MIN && beta == MAX && tried > 0 ==> best_moves@.len() > 0 && cur_alpha
                    > MIN,
                forall|u: int|
                    #![trigger moves@[u]]
                    0 <= u < k && spec_legal_move(orig@, moves@[u]) ==> -spec_negamax(
                        m_apply(orig@, moves@[u]),
                        (depth - 1) as nat,
                    ) <= cur_alpha,
                cur_alpha > alpha0 ==> exists|u: int|
                    #![trigger moves@[u]]
                    0 <= u < k && spec_legal_move(orig@, moves@[u]) && -spec_negamax(
                        m_apply(orig@, moves@[u]),
                        (depth - 1) as nat,
                    ) == cur_alpha,
            decreases moves.len() - k,
        {
            let m = moves[k];
            proof {
                assert(moves@.contains(m)) by {
                    assert(moves@[k as int] == m);
                }
            }
            self.apply_move(&m);
            let mover = self.turn.next();
            if self.is_checked(mover) {
                proof {
                    assert(mover == orig@.turn);
                }
                self.undo_move(&m);
                proof {
                    crate::board::lemma_apply_undo(orig@.cells, m);
                    assert(self@ == orig@) by {
                        assert(self@.cells =~~= orig@.cells);
                    }
                }
            } else {
                proof {
                    assert(mover == orig@.turn);
                    assert(spec_legal_move(orig@, m));
                }
                tried = tried + 1;
                witness = Ghost(m);
                proof {
                    assert(self@ == m_apply(orig@, m)) by {
                        assert(self@.cells =~~= m_apply(orig@, m).cells);
                    }
                }
                let mut best_value: i32;
                let mut bm: Vec<Move>;
                if tried == 1 {
                    let rr = self.alpha_beta_pvs(depth - 1, -beta, -cur_alpha);
                    best_value = -rr.0;
                    bm = rr.1;
                    proof {
                        assert(best_value >= beta || best_value >= KILL - MAX_DEPTH);
                        assert(best_value <= cur_alpha || best_value <= MAX_DEPTH - KILL);
                    }
                } else {
                    let rr = self.alpha_beta_pvs(depth - 1, -(cur_alpha + 1), -cur_alpha);
                    best_value = -rr.0;
                    bm = rr.1;
                    proof {
                        assert(best_value >= cur_alpha + 1 || best_value >= KILL - MAX_DEPTH);
                        assert(best_value <= cur_alpha || best_value <= MAX_DEPTH - KILL);
                    }
                    if best_value > cur_alpha && best_value < beta {
                        let rr2 = self.alpha_beta_pvs(depth - 1, -beta, -cur_alpha);
                        best_value = -rr2.0;
                        bm = rr2.1;
                        proof {
                            assert(best_value >= beta || best_value >= KILL - MAX_DEPTH);
                            assert(best_value <= cur_alpha || best_value <= MAX_DEPTH - KILL);
                        }
                    }
                }
                self.undo_move(&m);
                proof {
                    crate::board::lemma_apply_undo(orig@.cells, m);
                    assert(self@ == orig@) by {
                        assert(self@.cells =~~= orig@.cells);
                    }
                }
                if best_value >= beta {
                    proof {
                        assert(spec_has_legal_move(orig@)) by {
                            assert(spec_legal_move(orig@, m));
                        }
                        if alpha0 == MIN && beta == MAX {
                            assert(best_value <= MAX_DEPTH - KILL);
                            assert(false);
                        }
                        assert(-spec_negamax(m_apply(orig@, m), (depth - 1) as nat)
                            >= best_value);
                        lemma_move_index(orig@, m);
                        lemma_negamax_from_props(orig@, depth as nat, 0);
                        assert(move_at(orig@, move_index(m)) == m);
                        assert(spec_negamax(orig@, depth as nat) == negamax_from(
                            orig@,
                            depth as nat,
                            0,
                        ));
                        assert(spec_negamax(orig@, depth as nat) >= best_value);
                    }
                    return (best_value, Vec::new());
                }
                proof {
                    if best_value > cur_alpha {
                        assert(best_value == -spec_negamax(
                            m_apply(orig@, m),
                            (depth - 1) as nat,
                        ));
                    } else {
                        assert(-spec_negamax(m_apply(orig@, m), (depth - 1) as nat) <= cur_alpha);
                    }
                }
                if best_value > cur_alpha {
                    cur_alpha = best_value;
                    proof {
                        assert(bm@.push(m).drop_last() =~= bm@);
                        assert(bm@.push(m).last() == m);
                    }
                    bm.push(m);
                    best_moves = bm;
                }
            }
            k = k + 1;
        }
        if tried == 0 {
            proof {
                assert(!spec_has_legal_move(orig@)) by {
                    assert forall|m: Move| !spec_legal_move(orig@, m) by {
                        if spec_move_ok(orig@, m) {
                            assert(moves@.contains(m));
                            let u = choose|u: int| 0 <= u < moves@.len() && moves@[u] == m;
                            assert(!spec_legal_move(orig@, moves@[u]));
                        }
                    }
                }
                assert(spec_negamax(orig@, depth as nat) == KILL - depth);
            }
            (KILL - depth, best_moves)
        } else {
            proof {
                assert(spec_has_legal_move(orig@)) by {
                    assert(spec_legal_move(orig@, witness@));
                }
                lemma_negamax_from_props(orig@, depth as nat, 0);
                assert forall|j: int|
                    #![trigger move_at(orig@, j)]
                    0 <= j < 8100 && spec_legal_move(orig@, move_at(orig@, j)) implies
                    -spec_negamax(m_apply(orig@, move_at(orig@, j)), (depth - 1) as nat)
                    <= cur_alpha by {
                    let mm = move_at(orig@, j);
                    assert(spec_move_ok(orig@, mm));
                    assert(moves@.contains(mm));
                    let u = choose|u: int| 0 <= u < moves@.len() && moves@[u] == mm;
                    assert(spec_legal_move(orig@, moves@[u]));
                    assert(-spec_negamax(m_apply(orig@, moves@[u]), (depth - 1) as nat)
                        <= cur_alpha);
                }
                lemma_move_index(orig@, witness@);
                assert(spec_legal_move(orig@, move_at(orig@, move_index(witness@))));
                assert(exists|j: int|
                    #![trigger move_at(orig@, j)]
                    0 <= j < 8100 && spec_legal_move(orig@, move_at(orig@, j)));
                assert(spec_negamax(orig@, depth as nat) == negamax_from(
                    orig@,
                    depth as nat,
                    0,
                ));
                assert(spec_negamax(orig@, depth as nat) <= cur_alpha);
                if cur_alpha > alpha0 {
                    let u = choose|u: int|
                        #![trigger moves@[u]]
                        0 <= u < moves@.len() && spec_legal_move(orig@, moves@[u])
                            && -spec_negamax(m_apply(orig@, moves@[u]), (depth - 1) as nat)
                            == cur_alpha;
                    let mm = moves@[u];
                    assert(moves@.contains(mm));
                    assert(spec_move_ok(orig@, mm));
                    lemma_move_index(orig@, mm);
                    assert(move_at(orig@, move_index(mm)) == mm);
                    assert(-spec_negamax(m_apply(orig@, mm), (depth - 1) as nat)
                        <= negamax_from(orig@, depth as nat, 0));
                    assert(spec_negamax(orig@, depth as nat) == cur_alpha);
                }
            }
            (cur_alpha, best_moves)
        }
    }

    /// Iterative deepening: search depths 1 up to `max_depth` in turn, each
    /// from the original board, and report the score of the deepest search
    /// together with its root move. A move comes back exactly when the side
    /// to move has a legal one (and it is such a move); a side with none
    /// scores the mate band of the deepest search.
    pub fn iterative_deepening(&mut self, max_depth: i32) -> (r: (i32, Option<Move>))
        requires
            0 <= max_depth <= MAX_DEPTH,
        ensures
            final(self)@ == old(self)@,
            MIN <= r.0 <= MAX,
            r.1 matches Some(m) ==> spec_legal_move(old(self)@, m),
            max_depth > 0 ==> r.0 == spec_negamax(old(self)@, max_depth as nat),
            max_depth > 0 ==> (r.1 is Some <==> spec_has_legal_move(old(self)@)),
            max_depth > 0 && !spec_has_legal_move(old(self)@) ==> r.0 == KILL - max_depth,
            max_depth == 0 ==> r.0 == MIN && r.1 is None,
    {
        let mut value: i32 = MIN;
        let mut best: Option<Move> = None;
        let mut d: i32 = 1;
        while d <= max_depth
            invariant
                1 <= d <= max_depth + 1,
                max_depth <= MAX_DEPTH,
                self@ == old(self)@,
                MIN <= value <= MAX,
                best matches Some(m) ==> spec_legal_move(old(self)@, m),
                d == 1 ==> value == MIN && best is None,
                d > 1 ==> value == spec_negamax(old(self)@, (d - 1) as nat),
                d > 1 ==> (best is Some <==> spec_has_legal_move(old(self)@)),
                d > 1 && !spec_has_legal_move(old(self)@) ==> value == KILL - (d - 1),
            decreases max_depth + 1 - d,
        {
            let rr = self.alpha_beta_pvs(d, MIN, MAX);
            value = rr.0;
            let pv = rr.1;
            if pv.len() > 0 {
                let m = pv[pv.len() - 1];
                proof {
                    assert(pv@[pv@.len() - 1] == pv@.last());
                }
                best = Some(m);
            } else {
                best = None;
            }
            d = d + 1;
        }
        (value, best)
    }
}

} // verus!
