//! Pseudo-legal move generation: per-piece target enumeration and the full
//! move list for the side to move.

use vstd::prelude::*;

use crate::board::{
    at_pos, at_rc, in_board, in_country, in_palace, spec_in_board, spec_in_country,
    spec_in_palace, spec_min, spec_max, Board, BoardModel, Chess, ChessType, Move, Player,
    Position,
};

verus! {

/// How many pieces stand on row `r` strictly between columns `lo` and `hi`.
pub open spec fn count_row(cells: Seq<Seq<Chess>>, r: int, lo: int, hi: int) -> int
    decreases hi - lo when lo <= hi
{
    if hi <= lo + 1 {
        0
    } else {
        (if at_rc(cells, r, lo + 1) != Chess::Empty {
            1int
        } else {
            0int
        }) + count_row(cells, r, lo + 1, hi)
    }
}

/// How many pieces stand on column `c` strictly between rows `lo` and `hi`.
pub open spec fn count_col(cells: Seq<Seq<Chess>>, c: int, lo: int, hi: int) -> int
    decreases hi - lo when lo <= hi
{
    if hi <= lo + 1 {
        0
    } else {
        (if at_rc(cells, lo + 1, c) != Chess::Empty {
            1int
        } else {
            0int
        }) + count_col(cells, c, lo + 1, hi)
    }
}

/// How many pieces stand strictly between two aligned squares; 0 for squares
/// that share neither a row nor a column.
pub open spec fn count_between(cells: Seq<Seq<Chess>>, a: Position, b: Position) -> int {
    if a.row == b.row {
        count_row(cells, a.row as int, spec_min(a.col as int, b.col as int), spec_max(a.col as int, b.col as int))
    } else if a.col == b.col {
        count_col(cells, a.col as int, spec_min(a.row as int, b.row as int), spec_max(a.row as int, b.row as int))
    } else {
        0
    }
}

/// A row count can also be peeled at its high end.
pub proof fn lemma_count_row_peel_hi(cells: Seq<Seq<Chess>>, r: int, lo: int, hi: int)
    requires
        lo + 1 < hi,
    ensures
        count_row(cells, r, lo, hi) == count_row(cells, r, lo, hi - 1) + (if at_rc(
            cells,
            r,
            hi - 1,
        ) != Chess::Empty {
            1int
        } else {
            0int
        }),
    decreases hi - lo,
{
    assert(count_row(cells, r, lo, hi) == (if at_rc(cells, r, lo + 1) != Chess::Empty {
        1int
    } else {
        0int
    }) + count_row(cells, r, lo + 1, hi));
    if lo + 2 < hi {
        lemma_count_row_peel_hi(cells, r, lo + 1, hi);
        assert(count_row(cells, r, lo, hi - 1) == (if at_rc(cells, r, lo + 1) != Chess::Empty {
            1int
        } else {
            0int
        }) + count_row(cells, r, lo + 1, hi - 1));
    } else {
        assert(hi == lo + 2);
        assert(count_row(cells, r, lo + 1, hi) == 0);
        assert(count_row(cells, r, lo, hi - 1) == 0);
    }
}

/// A column count can also be peeled at its high end.
pub proof fn lemma_count_col_peel_hi(cells: Seq<Seq<Chess>>, c: int, lo: int, hi: int)
    requires
        lo + 1 < hi,
    ensures
        count_col(cells, c, lo, hi) == count_col(cells, c, lo, hi - 1) + (if at_rc(
            cells,
            hi - 1,
            c,
        ) != Chess::Empty {
            1int
        } else {
            0int
        }),
    decreases hi - lo,
{
    assert(count_col(cells, c, lo, hi) == (if at_rc(cells, lo + 1, c) != Chess::Empty {
        1int
    } else {
        0int
    }) + count_col(cells, c, lo + 1, hi));
    if lo + 2 < hi {
        lemma_count_col_peel_hi(cells, c, lo + 1, hi);
        assert(count_col(cells, c, lo, hi - 1) == (if at_rc(cells, lo + 1, c) != Chess::Empty {
            1int
        } else {
            0int
        }) + count_col(cells, c, lo + 1, hi - 1));
    } else {
        assert(hi == lo + 2);
        assert(count_col(cells, c, lo + 1, hi) == 0);
        assert(count_col(cells, c, lo, hi - 1) == 0);
    }
}

/// A count is zero exactly when every square strictly between is empty.
pub proof fn lemma_count_row_zero(cells: Seq<Seq<Chess>>, r: int, lo: int, hi: int)
    requires
        lo <= hi,
    ensures
        count_row(cells, r, lo, hi) == 0 <==> (forall|c: int|
            lo < c < hi ==> at_rc(cells, r, c) == Chess::Empty),
        count_row(cells, r, lo, hi) >= 0,
    decreases hi - lo,
{
    if lo + 1 < hi {
        lemma_count_row_zero(cells, r, lo + 1, hi);
    }
}

/// A count is zero exactly when every square strictly between is empty.
pub proof fn lemma_count_col_zero(cells: Seq<Seq<Chess>>, c: int, lo: int, hi: int)
    requires
        lo <= hi,
    ensures
        count_col(cells, c, lo, hi) == 0 <==> (forall|i: int|
            lo < i < hi ==> at_rc(cells, i, c) == Chess::Empty),
        count_col(cells, c, lo, hi) >= 0,
    decreases hi - lo,
{
    if lo + 1 < hi {
        lemma_count_col_zero(cells, c, lo + 1, hi);
    }
}

/// A row count splits at any interior square.
pub proof fn lemma_count_row_split(cells: Seq<Seq<Chess>>, r: int, lo: int, mid: int, hi: int)
    requires
        lo < mid < hi,
    ensures
        count_row(cells, r, lo, hi) == count_row(cells, r, lo, mid) + (if at_rc(cells, r, mid)
            != Chess::Empty {
            1int
        } else {
            0int
        }) + count_row(cells, r, mid, hi),
    decreases hi - mid,
{
    if hi == mid + 1 {
        lemma_count_row_peel_hi(cells, r, lo, hi);
    } else {
        lemma_count_row_peel_hi(cells, r, lo, hi);
        lemma_count_row_split(cells, r, lo, mid, hi - 1);
        lemma_count_row_peel_hi(cells, r, mid, hi);
    }
}

/// A column count splits at any interior square.
pub proof fn lemma_count_col_split(cells: Seq<Seq<Chess>>, c: int, lo: int, mid: int, hi: int)
    requires
        lo < mid < hi,
    ensures
        count_col(cells, c, lo, hi) == count_col(cells, c, lo, mid) + (if at_rc(cells, mid, c)
            != Chess::Empty {
            1int
        } else {
            0int
        }) + count_col(cells, c, mid, hi),
    decreases hi - mid,
{
    if hi == mid + 1 {
        lemma_count_col_peel_hi(cells, c, lo, hi);
    } else {
        lemma_count_col_peel_hi(cells, c, lo, hi);
        lemma_count_col_split(cells, c, lo, mid, hi - 1);
        lemma_count_col_peel_hi(cells, c, mid, hi);
    }
}

/// A Rook slides along its row or column and stops at, and includes, the
/// first occupied square: its targets are the aligned on-board squares with
/// nothing strictly between.
pub open spec fn rook_target(cells: Seq<Seq<Chess>>, base: Position, t: Position) -> bool {
    &&& spec_in_board(t)
    &&& t != base
    &&& (t.row == base.row || t.col == base.col)
    &&& count_between(cells, base, t) == 0
}

/// Pushing onto a sequence adds exactly the pushed element to its members.
pub proof fn lemma_push_contains<T>(s: Seq<T>, x: T)
    ensures
        forall|t: T| #[trigger] s.push(x).contains(t) <==> s.contains(t) || t == x,
{
    assert forall|t: T| #[trigger] s.push(x).contains(t) implies s.contains(t) || t == x by {
        let i = choose|i: int| 0 <= i < s.push(x).len() && s.push(x)[i] == t;
        if i < s.len() {
            assert(s[i] == t);
        }
    }
    assert forall|t: T| s.contains(t) || t == x implies #[trigger] s.push(x).contains(t) by {
        if s.contains(t) {
            let i = choose|i: int| 0 <= i < s.len() && s[i] == t;
            assert(s.push(x)[i] == t);
        } else {
            assert(s.push(x)[s.len() as int] == x);
        }
    }
}

fn rook_scan_left(b: &Board, base: Position, targets: &mut Vec<Position>)
    requires
        spec_in_board(base),
    ensures
        forall|t: Position|
            final(targets)@.contains(t) <==> old(targets)@.contains(t) || (t.row == base.row && 0
                <= t.col < base.col && count_row(
                b.cells(),
                base.row as int,
                t.col as int,
                base.col as int,
            ) == 0),
{
    let ghost orig = targets@;
    let ghost cells = b.cells();
    let mut delta: i32 = 1;
    let mut cut: Ghost<int> = Ghost(0);
    loop
        invariant_except_break
            spec_in_board(base),
            cells == b.cells(),
            1 <= delta <= base.col + 1,
            forall|c: int|
                base.col - delta < c < base.col ==> at_rc(cells, base.row as int, c)
                    == Chess::Empty,
            forall|t: Position| #![trigger targets@.contains(t)]
                targets@.contains(t) <==> orig.contains(t) || (t.row == base.row && base.col
                    - delta < t.col < base.col),
        ensures
            0 <= cut@ <= base.col,
            forall|t: Position| #![trigger targets@.contains(t)]
                targets@.contains(t) <==> orig.contains(t) || (t.row == base.row && cut@ <= t.col
                    < base.col),
            forall|c: int| cut@ < c < base.col ==> at_rc(cells, base.row as int, c) == Chess::Empty,
            cut@ == 0 || (cut@ < base.col && at_rc(cells, base.row as int, cut@) != Chess::Empty),
        decreases base.col + 1 - delta,
    {
        if delta > base.col {
            cut = Ghost(0);
            break;
        }
        let p = base.left(delta);
        proof {
            lemma_push_contains(targets@, p);
        }
        targets.push(p);
        if b.chess_at(p).chess_type().is_some() {
            cut = Ghost(base.col - delta as int);
            proof {
                assert(p.row == base.row && p.col == base.col - delta);
                assert(targets@.contains(p));
                assert forall|t: Position|
                    targets@.contains(t) <==> orig.contains(t) || (t.row == base.row && cut@
                        <= t.col < base.col) by {
                    assert(targets@.contains(t) <==> orig.contains(t) || (t.row == base.row
                        && base.col - delta < t.col < base.col) || t == p);
                }
            }
            break;
        }
        delta = delta + 1;
    }
    proof {
        assert forall|t: Position|
            targets@.contains(t) <==> orig.contains(t) || (t.row == base.row && 0 <= t.col
                < base.col && count_row(cells, base.row as int, t.col as int, base.col as int)
                == 0) by {
            if t.row == base.row && 0 <= t.col < base.col {
                lemma_count_row_zero(cells, base.row as int, t.col as int, base.col as int);
            }
        }
    }
}

fn rook_scan_right(b: &Board, base: Position, targets: &mut Vec<Position>)
    requires
        spec_in_board(base),
    ensures
        forall|t: Position|
            final(targets)@.contains(t) <==> old(targets)@.contains(t) || (t.row == base.row
                && base.col < t.col < 9 && count_row(
                b.cells(),
                base.row as int,
                base.col as int,
                t.col as int,
            ) == 0),
{
    let ghost orig = targets@;
    let ghost cells = b.cells();
    let mut delta: i32 = 1;
    let mut stop: Ghost<int> = Ghost(8);
    loop
        invariant_except_break
            spec_in_board(base),
            cells == b.cells(),
            1 <= delta <= 9 - base.col,
            forall|c: int|
                base.col < c < base.col + delta ==> at_rc(cells, base.row as int, c)
                    == Chess::Empty,
            forall|t: Position| #![trigger targets@.contains(t)]
                targets@.contains(t) <==> orig.contains(t) || (t.row == base.row && base.col
                    < t.col < base.col + delta),
        ensures
            base.col <= stop@ <= 8,
            forall|t: Position| #![trigger targets@.contains(t)]
                targets@.contains(t) <==> orig.contains(t) || (t.row == base.row && base.col
                    < t.col <= stop@),
            forall|c: int| base.col < c < stop@ ==> at_rc(cells, base.row as int, c) == Chess::Empty,
            stop@ == 8 || (stop@ > base.col && at_rc(cells, base.row as int, stop@)
                != Chess::Empty),
        decreases 9 - base.col - delta,
    {
        if delta > 8 - base.col {
            stop = Ghost(8);
            proof {
                assert forall|t: Position|
                    targets@.contains(t) <==> orig.contains(t) || (t.row == base.row && base.col
                        < t.col <= stop@) by {
                    assert(targets@.contains(t) <==> orig.contains(t) || (t.row == base.row
                        && base.col < t.col < base.col + delta));
                }
            }
            break;
        }
        let p = base.right(delta);
        proof {
            lemma_push_contains(targets@, p);
        }
        targets.push(p);
        proof {
            assert(p.row == base.row && p.col == base.col + delta);
            assert forall|t: Position|
                targets@.contains(t) <==> orig.contains(t) || (t.row == base.row && base.col
                    < t.col <= base.col + delta) by {
                assert(targets@.contains(t) <==> orig.contains(t) || (t.row == base.row
                    && base.col < t.col < base.col + delta) || t == p);
            }
        }
        if b.chess_at(p).chess_type().is_some() {
            stop = Ghost(base.col + delta as int);
            break;
        }
        delta = delta + 1;
    }
    proof {
        assert forall|t: Position|
            targets@.contains(t) <==> orig.contains(t) || (t.row == base.row && base.col < t.col
                < 9 && count_row(cells, base.row as int, base.col as int, t.col as int) == 0) by {
            if t.row == base.row && base.col < t.col < 9 {
                lemma_count_row_zero(cells, base.row as int, base.col as int, t.col as int);
            }
        }
    }
}

fn rook_scan_up(b: &Board, base: Position, targets: &mut Vec<Position>)
    requires
        spec_in_board(base),
    ensures
        forall|t: Position|
            final(targets)@.contains(t) <==> old(targets)@.contains(t) || (t.col == base.col && 0
                <= t.row < base.row && count_col(
                b.cells(),
                base.col as int,
                t.row as int,
                base.row as int,
            ) == 0),
{
    let ghost orig = targets@;
    let ghost cells = b.cells();
    let mut delta: i32 = 1;
    let mut cut: Ghost<int> = Ghost(0);
    loop
        invariant_except_break
            spec_in_board(base),
            cells == b.cells(),
            1 <= delta <= base.row + 1,
            forall|r: int|
                base.row - delta < r < base.row ==> at_rc(cells, r, base.col as int)
                    == Chess::Empty,
            forall|t: Position| #![trigger targets@.contains(t)]
                targets@.contains(t) <==> orig.contains(t) || (t.col == base.col && base.row
                    - delta < t.row < base.row),
        ensures
            0 <= cut@ <= base.row,
            forall|t: Position| #![trigger targets@.contains(t)]
                targets@.contains(t) <==> orig.contains(t) || (t.col == base.col && cut@ <= t.row
                    < base.row),
            forall|r: int| cut@ < r < base.row ==> at_rc(cells, r, base.col as int) == Chess::Empty,
            cut@ == 0 || (cut@ < base.row && at_rc(cells, cut@, base.col as int) != Chess::Empty),
        decreases base.row + 1 - delta,
    {
        if delta > base.row {
            cut = Ghost(0);
            proof {
                assert forall|t: Position|
                    targets@.contains(t) <==> orig.contains(t) || (t.col == base.col && cut@
                        <= t.row < base.row) by {
                    assert(targets@.contains(t) <==> orig.contains(t) || (t.col == base.col
                        && base.row - delta < t.row < base.row));
                }
            }
            break;
        }
        let p = base.up(delta);
        proof {
            lemma_push_contains(targets@, p);
        }
        targets.push(p);
        proof {
            assert(p.col == base.col && p.row == base.row - delta);
            assert forall|t: Position|
                targets@.contains(t) <==> orig.contains(t) || (t.col == base.col && base.row
                    - delta <= t.row < base.row) by {
                assert(targets@.contains(t) <==> orig.contains(t) || (t.col == base.col
                    && base.row - delta < t.row < base.row) || t == p);
            }
        }
        if b.chess_at(p).chess_type().is_some() {
            cut = Ghost(base.row - delta as int);
            break;
        }
        delta = delta + 1;
    }
    proof {
        assert forall|t: Position|
            targets@.contains(t) <==> orig.contains(t) || (t.col == base.col && 0 <= t.row
                < base.row && count_col(cells, base.col as int, t.row as int, base.row as int)
                == 0) by {
            if t.col == base.col && 0 <= t.row < base.row {
                lemma_count_col_zero(cells, base.col as int, t.row as int, base.row as int);
            }
        }
    }
}

fn rook_scan_down(b: &Board, base: Position, targets: &mut Vec<Position>)
    requires
        spec_in_board(base),
    ensures
        forall|t: Position|
            final(targets)@.contains(t) <==> old(targets)@.contains(t) || (t.col == base.col
                && base.row < t.row < 10 && count_col(
                b.cells(),
                base.col as int,
                base.row as int,
                t.row as int,
            ) == 0),
{
    let ghost orig = targets@;
    let ghost cells = b.cells();
    let mut delta: i32 = 1;
    let mut stop: Ghost<int> = Ghost(9);
    loop
        invariant_except_break
            spec_in_board(base),
            cells == b.cells(),
            1 <= delta <= 10 - base.row,
            forall|r: int|
                base.row < r < base.row + delta ==> at_rc(cells, r, base.col as int)
                    == Chess::Empty,
            forall|t: Position| #![trigger targets@.contains(t)]
                targets@.contains(t) <==> orig.contains(t) || (t.col == base.col && base.row
                    < t.row < base.row + delta),
        ensures
            base.row <= stop@ <= 9,
            forall|t: Position| #![trigger targets@.contains(t)]
                targets@.contains(t) <==> orig.contains(t) || (t.col == base.col && base.row
                    < t.row <= stop@),
            forall|r: int| base.row < r < stop@ ==> at_rc(cells, r, base.col as int) == Chess::Empty,
            stop@ == 9 || (stop@ > base.row && at_rc(cells, stop@, base.col as int)
                != Chess::Empty),
        decreases 10 - base.row - delta,
    {
        if delta > 9 - base.row {
            stop = Ghost(9);
            proof {
                assert forall|t: Position|
                    targets@.contains(t) <==> orig.contains(t) || (t.col == base.col && base.row
                        < t.row <= stop@) by {
                    assert(targets@.contains(t) <==> orig.contains(t) || (t.col == base.col
                        && base.row < t.row < base.row + delta));
                }
            }
            break;
        }
        let p = base.down(delta);
        proof {
            lemma_push_contains(targets@, p);
        }
        targets.push(p);
        proof {
            assert(p.col == base.col && p.row == base.row + delta);
            assert forall|t: Position|
                targets@.contains(t) <==> orig.contains(t) || (t.col == base.col && base.row
                    < t.row <= base.row + delta) by {
                assert(targets@.contains(t) <==> orig.contains(t) || (t.col == base.col
                    && base.row < t.row < base.row + delta) || t == p);
            }
        }
        if b.chess_at(p).chess_type().is_some() {
            stop = Ghost(base.row + delta as int);
            break;
        }
        delta = delta + 1;
    }
    proof {
        assert forall|t: Position|
            targets@.contains(t) <==> orig.contains(t) || (t.col == base.col && base.row < t.row
                < 10 && count_col(cells, base.col as int, base.row as int, t.row as int) == 0) by {
            if t.col == base.col && base.row < t.row < 10 {
                lemma_count_col_zero(cells, base.col as int, base.row as int, t.row as int);
            }
        }
    }
}

/// A Cannon slides like a Rook on empty squares but captures by jumping: a
/// quiet target is an aligned empty square with a clear path, a capture
/// target an aligned occupied square with exactly one screen between.
pub open spec fn cannon_target(cells: Seq<Seq<Chess>>, base: Position, t: Position) -> bool {
    &&& spec_in_board(t)
    &&& t != base
    &&& (t.row == base.row || t.col == base.col)
    &&& (if at_pos(cells, t) == Chess::Empty {
        count_between(cells, base, t) == 0
    } else {
        count_between(cells, base, t) == 1
    })
}

fn cannon_scan_left(b: &Board, base: Position, targets: &mut Vec<Position>)
    requires
        spec_in_board(base),
    ensures
        forall|t: Position|
            final(targets)@.contains(t) <==> old(targets)@.contains(t) || (t.row == base.row && 0
                <= t.col < base.col && (if at_rc(b.cells(), base.row as int, t.col as int)
                == Chess::Empty {
                count_row(b.cells(), base.row as int, t.col as int, base.col as int) == 0
            } else {
                count_row(b.cells(), base.row as int, t.col as int, base.col as int) == 1
            })),
{
    let ghost orig = targets@;
    let ghost cells = b.cells();
    let ghost r = base.row as int;
    let mut delta: i32 = 1;
    let mut has_chess: bool = false;
    let mut gs: Ghost<int> = Ghost(0);
    loop
        invariant_except_break
            spec_in_board(base),
            cells == b.cells(),
            r == base.row as int,
            1 <= delta <= base.col + 1,
            !has_chess ==> forall|c: int|
                base.col - delta < c < base.col ==> at_rc(cells, r, c) == Chess::Empty,
            !has_chess ==> (forall|t: Position| #![trigger targets@.contains(t)]
                targets@.contains(t) <==> orig.contains(t) || (t.row == base.row && base.col
                    - delta < t.col < base.col)),
            has_chess ==> base.col - delta < gs@ < base.col,
            has_chess ==> at_rc(cells, r, gs@) != Chess::Empty,
            has_chess ==> forall|c: int|
                base.col - delta < c < base.col && c != gs@ ==> at_rc(cells, r, c) == Chess::Empty,
            has_chess ==> (forall|t: Position| #![trigger targets@.contains(t)]
                targets@.contains(t) <==> orig.contains(t) || (t.row == base.row && gs@ < t.col
                    < base.col)),
        ensures
            forall|t: Position| #![trigger targets@.contains(t)]
                targets@.contains(t) <==> orig.contains(t) || (t.row == base.row && 0 <= t.col
                    < base.col && (if at_rc(cells, r, t.col as int) == Chess::Empty {
                    count_row(cells, r, t.col as int, base.col as int) == 0
                } else {
                    count_row(cells, r, t.col as int, base.col as int) == 1
                })),
        decreases base.col + 1 - delta,
    {
        if delta > base.col {
            proof {
                assert forall|t: Position|
                    targets@.contains(t) <==> orig.contains(t) || (t.row == base.row && 0 <= t.col
                        < base.col && (if at_rc(cells, r, t.col as int) == Chess::Empty {
                        count_row(cells, r, t.col as int, base.col as int) == 0
                    } else {
                        count_row(cells, r, t.col as int, base.col as int) == 1
                    })) by {
                    if t.row == base.row && 0 <= t.col < base.col {
                        lemma_count_row_zero(cells, r, t.col as int, base.col as int);
                        if has_chess && t.col < gs@ {
                            assert(at_rc(cells, r, gs@) != Chess::Empty);
                            if at_rc(cells, r, t.col as int) != Chess::Empty {
                                lemma_count_row_split(cells, r, t.col as int, gs@, base.col as int);
                                lemma_count_row_zero(cells, r, t.col as int, gs@);
                                lemma_count_row_zero(cells, r, gs@, base.col as int);
                            }
                        }
                        if has_chess && t.col == gs@ {
                            lemma_count_row_zero(cells, r, gs@, base.col as int);
                        }
                    }
                }
            }
            break;
        }
        let p = base.left(delta);
        if !has_chess {
            if b.chess_at(p) != Chess::Empty {
                has_chess = true;
                gs = Ghost(p.col as int);
            } else {
                proof {
                    lemma_push_contains(targets@, p);
                }
                targets.push(p);
                proof {
                    assert(p.row == base.row && p.col == base.col - delta);
                    assert forall|t: Position|
                        targets@.contains(t) <==> orig.contains(t) || (t.row == base.row
                            && base.col - delta <= t.col < base.col) by {
                        assert(targets@.contains(t) <==> orig.contains(t) || (t.row == base.row
                            && base.col - delta < t.col < base.col) || t == p);
                    }
                }
            }
        } else {
            if b.chess_at(p) != Chess::Empty {
                proof {
                    lemma_push_contains(targets@, p);
                }
                targets.push(p);
                proof {
                    let cp = base.col - delta as int;
                    assert(p.row == base.row && p.col == cp);
                    assert(at_rc(cells, r, cp) != Chess::Empty);
                    assert forall|t: Position|
                        targets@.contains(t) <==> orig.contains(t) || (t.row == base.row && 0
                            <= t.col < base.col && (if at_rc(cells, r, t.col as int)
                            == Chess::Empty {
                            count_row(cells, r, t.col as int, base.col as int) == 0
                        } else {
                            count_row(cells, r, t.col as int, base.col as int) == 1
                        })) by {
                        assert(targets@.contains(t) <==> orig.contains(t) || (t.row == base.row
                            && gs@ < t.col < base.col) || t == p);
                        if t.row == base.row && 0 <= t.col < base.col {
                            lemma_count_row_zero(cells, r, t.col as int, base.col as int);
                            lemma_count_row_zero(cells, r, gs@, base.col as int);
                            if t.col == cp {
                                lemma_count_row_split(cells, r, cp, gs@, base.col as int);
                                lemma_count_row_zero(cells, r, cp, gs@);
                            }
                            if t.col < cp {
                                lemma_count_row_split(cells, r, t.col as int, cp, base.col as int);
                                lemma_count_row_split(cells, r, cp, gs@, base.col as int);
                                lemma_count_row_zero(cells, r, cp, gs@);
                                lemma_count_row_zero(cells, r, t.col as int, cp);
                            }
                            if cp < t.col < gs@ {
                                lemma_count_row_split(cells, r, t.col as int, gs@, base.col as int);
                                lemma_count_row_zero(cells, r, t.col as int, gs@);
                            }
                            if t.col == gs@ {
                                assert(count_row(cells, r, gs@, base.col as int) == 0);
                            }
                        }
                    }
                }
                break;
            }
        }
        delta = delta + 1;
    }
}

fn cannon_scan_right(b: &Board, base: Position, targets: &mut Vec<Position>)
    requires
        spec_in_board(base),
    ensures
        forall|t: Position|
            final(targets)@.contains(t) <==> old(targets)@.contains(t) || (t.row == base.row
                && base.col < t.col < 9 && (if at_rc(b.cells(), base.row as int, t.col as int)
                == Chess::Empty {
                count_row(b.cells(), base.row as int, base.col as int, t.col as int) == 0
            } else {
                count_row(b.cells(), base.row as int, base.col as int, t.col as int) == 1
            })),
{
    let ghost orig = targets@;
    let ghost cells = b.cells();
    let ghost r = base.row as int;
    let mut delta: i32 = 1;
    let mut has_chess: bool = false;
    let mut gs: Ghost<int> = Ghost(0);
    loop
        invariant_except_break
            spec_in_board(base),
            cells == b.cells(),
            r == base.row as int,
            1 <= delta <= 9 - base.col,
            !has_chess ==> forall|c: int|
                base.col < c < base.col + delta ==> at_rc(cells, r, c) == Chess::Empty,
            !has_chess ==> (forall|t: Position| #![trigger targets@.contains(t)]
                targets@.contains(t) <==> orig.contains(t) || (t.row == base.row && base.col
                    < t.col < base.col + delta)),
            has_chess ==> base.col < gs@ < base.col + delta,
            has_chess ==> at_rc(cells, r, gs@) != Chess::Empty,
            has_chess ==> forall|c: int|
                base.col < c < base.col + delta && c != gs@ ==> at_rc(cells, r, c) == Chess::Empty,
            has_chess ==> (forall|t: Position| #![trigger targets@.contains(t)]
                targets@.contains(t) <==> orig.contains(t) || (t.row == base.row && base.col
                    < t.col < gs@)),
        ensures
            forall|t: Position| #![trigger targets@.contains(t)]
                targets@.contains(t) <==> orig.contains(t) || (t.row == base.row && base.col
                    < t.col < 9 && (if at_rc(cells, r, t.col as int) == Chess::Empty {
                    count_row(cells, r, base.col as int, t.col as int) == 0
                } else {
                    count_row(cells, r, base.col as int, t.col as int) == 1
                })),
        decreases 9 - base.col - delta,
    {
        if delta > 8 - base.col {
            proof {
                assert forall|t: Position|
                    targets@.contains(t) <==> orig.contains(t) || (t.row == base.row && base.col
                        < t.col < 9 && (if at_rc(cells, r, t.col as int) == Chess::Empty {
                        count_row(cells, r, base.col as int, t.col as int) == 0
                    } else {
                        count_row(cells, r, base.col as int, t.col as int) == 1
                    })) by {
                    if t.row == base.row && base.col < t.col < 9 {
                        lemma_count_row_zero(cells, r, base.col as int, t.col as int);
                        if has_chess && t.col > gs@ {
                            assert(at_rc(cells, r, gs@) != Chess::Empty);
                            if at_rc(cells, r, t.col as int) != Chess::Empty {
                                lemma_count_row_split(cells, r, base.col as int, gs@, t.col as int);
                                lemma_count_row_zero(cells, r, base.col as int, gs@);
                                lemma_count_row_zero(cells, r, gs@, t.col as int);
                            }
                        }
                        if has_chess && t.col == gs@ {
                            lemma_count_row_zero(cells, r, base.col as int, gs@);
                        }
                    }
                }
            }
            break;
        }
        let p = base.right(delta);
        if !has_chess {
            if b.chess_at(p) != Chess::Empty {
                has_chess = true;
                gs = Ghost(p.col as int);
            } else {
                proof {
                    lemma_push_contains(targets@, p);
                }
                targets.push(p);
                proof {
                    assert(p.row == base.row && p.col == base.col + delta);
                    assert forall|t: Position|
                        targets@.contains(t) <==> orig.contains(t) || (t.row == base.row
                            && base.col < t.col <= base.col + delta) by {
                        assert(targets@.contains(t) <==> orig.contains(t) || (t.row == base.row
                            && base.col < t.col < base.col + delta) || t == p);
                    }
                }
            }
        } else {
            if b.chess_at(p) != Chess::Empty {
                proof {
                    lemma_push_contains(targets@, p);
                }
                targets.push(p);
                proof {
                    let cp = base.col + delta as int;
                    assert(p.row == base.row && p.col == cp);
                    assert(at_rc(cells, r, cp) != Chess::Empty);
                    assert forall|t: Position|
                        targets@.contains(t) <==> orig.contains(t) || (t.row == base.row
                            && base.col < t.col < 9 && (if at_rc(cells, r, t.col as int)
                            == Chess::Empty {
                            count_row(cells, r, base.col as int, t.col as int) == 0
                        } else {
                            count_row(cells, r, base.col as int, t.col as int) == 1
                        })) by {
                        assert(targets@.contains(t) <==> orig.contains(t) || (t.row == base.row
                            && base.col < t.col < gs@) || t == p);
                        if t.row == base.row && base.col < t.col < 9 {
                            lemma_count_row_zero(cells, r, base.col as int, t.col as int);
                            lemma_count_row_zero(cells, r, base.col as int, gs@);
                            if t.col == cp {
                                lemma_count_row_split(cells, r, base.col as int, gs@, cp);
                                lemma_count_row_zero(cells, r, gs@, cp);
                            }
                            if t.col > cp {
                                lemma_count_row_split(cells, r, base.col as int, gs@, t.col as int);
                                lemma_count_row_split(cells, r, gs@, cp, t.col as int);
                                lemma_count_row_zero(cells, r, gs@, cp);
                                lemma_count_row_zero(cells, r, cp, t.col as int);
                            }
                            if gs@ < t.col < cp {
                                lemma_count_row_split(cells, r, base.col as int, gs@, t.col as int);
                                lemma_count_row_zero(cells, r, gs@, t.col as int);
                            }
                            if t.col == gs@ {
                                assert(count_row(cells, r, base.col as int, gs@) == 0);
                            }
                        }
                    }
                }
                break;
            }
        }
        delta = delta + 1;
    }
}

fn cannon_scan_up(b: &Board, base: Position, targets: &mut Vec<Position>)
    requires
        spec_in_board(base),
    ensures
        forall|t: Position|
            final(targets)@.contains(t) <==> old(targets)@.contains(t) || (t.col == base.col && 0
                <= t.row < base.row && (if at_rc(b.cells(), t.row as int, base.col as int)
                == Chess::Empty {
                count_col(b.cells(), base.col as int, t.row as int, base.row as int) == 0
            } else {
                count_col(b.cells(), base.col as int, t.row as int, base.row as int) == 1
            })),
{
    let ghost orig = targets@;
    let ghost cells = b.cells();
    let ghost c = base.col as int;
    let mut delta: i32 = 1;
    let mut has_chess: bool = false;
    let mut gs: Ghost<int> = Ghost(0);
    loop
        invariant_except_break
            spec_in_board(base),
            cells == b.cells(),
            c == base.col as int,
            1 <= delta <= base.row + 1,
            !has_chess ==> forall|i: int|
                base.row - delta < i < base.row ==> at_rc(cells, i, c) == Chess::Empty,
            !has_chess ==> (forall|t: Position| #![trigger targets@.contains(t)]
                targets@.contains(t) <==> orig.contains(t) || (t.col == base.col && base.row
                    - delta < t.row < base.row)),
            has_chess ==> base.row - delta < gs@ < base.row,
            has_chess ==> at_rc(cells, gs@, c) != Chess::Empty,
            has_chess ==> forall|i: int|
                base.row - delta < i < base.row && i != gs@ ==> at_rc(cells, i, c) == Chess::Empty,
            has_chess ==> (forall|t: Position| #![trigger targets@.contains(t)]
                targets@.contains(t) <==> orig.contains(t) || (t.col == base.col && gs@ < t.row
                    < base.row)),
        ensures
            forall|t: Position| #![trigger targets@.contains(t)]
                targets@.contains(t) <==> orig.contains(t) || (t.col == base.col && 0 <= t.row
                    < base.row && (if at_rc(cells, t.row as int, c) == Chess::Empty {
                    count_col(cells, c, t.row as int, base.row as int) == 0
                } else {
                    count_col(cells, c, t.row as int, base.row as int) == 1
                })),
        decreases base.row + 1 - delta,
    {
        if delta > base.row {
            proof {
                assert forall|t: Position|
                    targets@.contains(t) <==> orig.contains(t) || (t.col == base.col && 0 <= t.row
                        < base.row && (if at_rc(cells, t.row as int, c) == Chess::Empty {
                        count_col(cells, c, t.row as int, base.row as int) == 0
                    } else {
                        count_col(cells, c, t.row as int, base.row as int) == 1
                    })) by {
                    if t.col == base.col && 0 <= t.row < base.row {
                        lemma_count_col_zero(cells, c, t.row as int, base.row as int);
                        if has_chess && t.row < gs@ {
                            assert(at_rc(cells, gs@, c) != Chess::Empty);
                            if at_rc(cells, t.row as int, c) != Chess::Empty {
                                lemma_count_col_split(cells, c, t.row as int, gs@, base.row as int);
                                lemma_count_col_zero(cells, c, t.row as int, gs@);
                                lemma_count_col_zero(cells, c, gs@, base.row as int);
                            }
                        }
                        if has_chess && t.row == gs@ {
                            lemma_count_col_zero(cells, c, gs@, base.row as int);
                        }
                    }
                }
            }
            break;
        }
        let p = base.up(delta);
        if !has_chess {
            if b.chess_at(p) != Chess::Empty {
                has_chess = true;
                gs = Ghost(p.row as int);
            } else {
                proof {
                    lemma_push_contains(targets@, p);
                }
                targets.push(p);
                proof {
                    assert(p.col == base.col && p.row == base.row - delta);
                    assert forall|t: Position|
                        targets@.contains(t) <==> orig.contains(t) || (t.col == base.col
                            && base.row - delta <= t.row < base.row) by {
                        assert(targets@.contains(t) <==> orig.contains(t) || (t.col == base.col
                            && base.row - delta < t.row < base.row) || t == p);
                    }
                }
            }
        } else {
            if b.chess_at(p) != Chess::Empty {
                proof {
                    lemma_push_contains(targets@, p);
                }
                targets.push(p);
                proof {
                    let cp = base.row - delta as int;
                    assert(p.col == base.col && p.row == cp);
                    assert(at_rc(cells, cp, c) != Chess::Empty);
                    assert forall|t: Position|
                        targets@.contains(t) <==> orig.contains(t) || (t.col == base.col && 0
                            <= t.row < base.row && (if at_rc(cells, t.row as int, c)
                            == Chess::Empty {
                            count_col(cells, c, t.row as int, base.row as int) == 0
                        } else {
                            count_col(cells, c, t.row as int, base.row as int) == 1
                        })) by {
                        assert(targets@.contains(t) <==> orig.contains(t) || (t.col == base.col
                            && gs@ < t.row < base.row) || t == p);
                        if t.col == base.col && 0 <= t.row < base.row {
                            lemma_count_col_zero(cells, c, t.row as int, base.row as int);
                            lemma_count_col_zero(cells, c, gs@, base.row as int);
                            if t.row == cp {
                                lemma_count_col_split(cells, c, cp, gs@, base.row as int);
                                lemma_count_col_zero(cells, c, cp, gs@);
                            }
                            if t.row < cp {
                                lemma_count_col_split(cells, c, t.row as int, cp, base.row as int);
                                lemma_count_col_split(cells, c, cp, gs@, base.row as int);
                                lemma_count_col_zero(cells, c, cp, gs@);
                                lemma_count_col_zero(cells, c, t.row as int, cp);
                            }
                            if cp < t.row < gs@ {
                                lemma_count_col_split(cells, c, t.row as int, gs@, base.row as int);
                                lemma_count_col_zero(cells, c, t.row as int, gs@);
                            }
                            if t.row == gs@ {
                                assert(count_col(cells, c, gs@, base.row as int) == 0);
                            }
                        }
                    }
                }
                break;
            }
        }
        delta = delta + 1;
    }
}

fn cannon_scan_down(b: &Board, base: Position, targets: &mut Vec<Position>)
    requires
        spec_in_board(base),
    ensures
        forall|t: Position|
            final(targets)@.contains(t) <==> old(targets)@.contains(t) || (t.col == base.col
                && base.row < t.row < 10 && (if at_rc(b.cells(), t.row as int, base.col as int)
                == Chess::Empty {
                count_col(b.cells(), base.col as int, base.row as int, t.row as int) == 0
            } else {
                count_col(b.cells(), base.col as int, base.row as int, t.row as int) == 1
            })),
{
    let ghost orig = targets@;
    let ghost cells = b.cells();
    let ghost c = base.col as int;
    let mut delta: i32 = 1;
    let mut has_chess: bool = false;
    let mut gs: Ghost<int> = Ghost(0);
    loop
        invariant_except_break
            spec_in_board(base),
            cells == b.cells(),
            c == base.col as int,
            1 <= delta <= 10 - base.row,
            !has_chess ==> forall|i: int|
                base.row < i < base.row + delta ==> at_rc(cells, i, c) == Chess::Empty,
            !has_chess ==> (forall|t: Position| #![trigger targets@.contains(t)]
                targets@.contains(t) <==> orig.contains(t) || (t.col == base.col && base.row
                    < t.row < base.row + delta)),
            has_chess ==> base.row < gs@ < base.row + delta,
            has_chess ==> at_rc(cells, gs@, c) != Chess::Empty,
            has_chess ==> forall|i: int|
                base.row < i < base.row + delta && i != gs@ ==> at_rc(cells, i, c) == Chess::Empty,
            has_chess ==> (forall|t: Position| #![trigger targets@.contains(t)]
                targets@.contains(t) <==> orig.contains(t) || (t.col == base.col && base.row
                    < t.row < gs@)),
        ensures
            forall|t: Position| #![trigger targets@.contains(t)]
                targets@.contains(t) <==> orig.contains(t) || (t.col == base.col && base.row
                    < t.row < 10 && (if at_rc(cells, t.row as int, c) == Chess::Empty {
                    count_col(cells, c, base.row as int, t.row as int) == 0
                } else {
                    count_col(cells, c, base.row as int, t.row as int) == 1
                })),
        decreases 10 - base.row - delta,
    {
        if delta > 9 - base.row {
            proof {
                assert forall|t: Position|
                    targets@.contains(t) <==> orig.contains(t) || (t.col == base.col && base.row
                        < t.row < 10 && (if at_rc(cells, t.row as int, c) == Chess::Empty {
                        count_col(cells, c, base.row as int, t.row as int) == 0
                    } else {
                        count_col(cells, c, base.row as int, t.row as int) == 1
                    })) by {
                    if t.col == base.col && base.row < t.row < 10 {
                        lemma_count_col_zero(cells, c, base.row as int, t.row as int);
                        if has_chess && t.row > gs@ {
                            assert(at_rc(cells, gs@, c) != Chess::Empty);
                            if at_rc(cells, t.row as int, c) != Chess::Empty {
                                lemma_count_col_split(cells, c, base.row as int, gs@, t.row as int);
                                lemma_count_col_zero(cells, c, base.row as int, gs@);
                                lemma_count_col_zero(cells, c, gs@, t.row as int);
                            }
                        }
                        if has_chess && t.row == gs@ {
                            lemma_count_col_zero(cells, c, base.row as int, gs@);
                        }
                    }
                }
            }
            break;
        }
        let p = base.down(delta);
        if !has_chess {
            if b.chess_at(p) != Chess::Empty {
                has_chess = true;
                gs = Ghost(p.row as int);
            } else {
                proof {
                    lemma_push_contains(targets@, p);
                }
                targets.push(p);
                proof {
                    assert(p.col == base.col && p.row == base.row + delta);
                    assert forall|t: Position|
                        targets@.contains(t) <==> orig.contains(t) || (t.col == base.col
                            && base.row < t.row <= base.row + delta) by {
                        assert(targets@.contains(t) <==> orig.contains(t) || (t.col == base.col
                            && base.row < t.row < base.row + delta) || t == p);
                    }
                }
            }
        } else {
            if b.chess_at(p) != Chess::Empty {
                proof {
                    lemma_push_contains(targets@, p);
                }
                targets.push(p);
                proof {
                    let cp = base.row + delta as int;
                    assert(p.col == base.col && p.row == cp);
                    assert(at_rc(cells, cp, c) != Chess::Empty);
                    assert forall|t: Position|
                        targets@.contains(t) <==> orig.contains(t) || (t.col == base.col
                            && base.row < t.row < 10 && (if at_rc(cells, t.row as int, c)
                            == Chess::Empty {
                            count_col(cells, c, base.row as int, t.row as int) == 0
                        } else {
                            count_col(cells, c, base.row as int, t.row as int) == 1
                        })) by {
                        assert(targets@.contains(t) <==> orig.contains(t) || (t.col == base.col
                            && base.row < t.row < gs@) || t == p);
                        if t.col == base.col && base.row < t.row < 10 {
                            lemma_count_col_zero(cells, c, base.row as int, t.row as int);
                            lemma_count_col_zero(cells, c, base.row as int, gs@);
                            if t.row == cp {
                                lemma_count_col_split(cells, c, base.row as int, gs@, cp);
                                lemma_count_col_zero(cells, c, gs@, cp);
                            }
                            if t.row > cp {
                                lemma_count_col_split(cells, c, base.row as int, gs@, t.row as int);
                                lemma_count_col_split(cells, c, gs@, cp, t.row as int);
                                lemma_count_col_zero(cells, c, gs@, cp);
                                lemma_count_col_zero(cells, c, cp, t.row as int);
                            }
                            if gs@ < t.row < cp {
                                lemma_count_col_split(cells, c, base.row as int, gs@, t.row as int);
                                lemma_count_col_zero(cells, c, gs@, t.row as int);
                            }
                            if t.row == gs@ {
                                assert(count_col(cells, c, base.row as int, gs@) == 0);
                            }
                        }
                    }
                }
                break;
            }
        }
        delta = delta + 1;
    }
}

/// Where a piece of kind `ct` standing on `base` may aim, by the pure
/// movement pattern of its kind. The board edge and the friendly-fire rule
/// are the caller's filters; King and Advisor palace bounds and the Bishop
/// river rule are filtered there as well.
pub open spec fn spec_is_target(b: BoardModel, ct: ChessType, base: Position, t: Position) -> bool {
    let cells = b.cells;
    match ct {
        ChessType::King => {
            ||| (t.row == base.row - 1 && t.col == base.col)
            ||| (t.row == base.row + 1 && t.col == base.col)
            ||| (t.row == base.row && t.col == base.col - 1)
            ||| (t.row == base.row && t.col == base.col + 1)
        },
        ChessType::Advisor => {
            ||| (t.row == base.row - 1 && t.col == base.col - 1)
            ||| (t.row == base.row - 1 && t.col == base.col + 1)
            ||| (t.row == base.row + 1 && t.col == base.col - 1)
            ||| (t.row == base.row + 1 && t.col == base.col + 1)
        },
        ChessType::Bishop => {
            ||| (at_rc(cells, base.row - 1, base.col - 1) == Chess::Empty && t.row == base.row - 2
                && t.col == base.col - 2)
            ||| (at_rc(cells, base.row - 1, base.col + 1) == Chess::Empty && t.row == base.row - 2
                && t.col == base.col + 2)
            ||| (at_rc(cells, base.row + 1, base.col - 1) == Chess::Empty && t.row == base.row + 2
                && t.col == base.col - 2)
            ||| (at_rc(cells, base.row + 1, base.col + 1) == Chess::Empty && t.row == base.row + 2
                && t.col == base.col + 2)
        },
        ChessType::Knight => {
            ||| (at_rc(cells, base.row - 1, base.col as int) == Chess::Empty && t.row == base.row
                - 2 && (t.col == base.col - 1 || t.col == base.col + 1))
            ||| (at_rc(cells, base.row + 1, base.col as int) == Chess::Empty && t.row == base.row
                + 2 && (t.col == base.col - 1 || t.col == base.col + 1))
            ||| (at_rc(cells, base.row as int, base.col - 1) == Chess::Empty && t.col == base.col
                - 2 && (t.row == base.row - 1 || t.row == base.row + 1))
            ||| (at_rc(cells, base.row as int, base.col + 1) == Chess::Empty && t.col == base.col
                + 2 && (t.row == base.row - 1 || t.row == base.row + 1))
        },
        ChessType::Rook => rook_target(cells, base, t),
        ChessType::Cannon => cannon_target(cells, base, t),
        ChessType::Pawn => {
            ||| (t.col == base.col && t.row == (if b.turn == Player::Black {
                base.row + 1
            } else {
                base.row - 1
            }))
            ||| (!spec_in_country(base.row as int, b.turn) && t.row == base.row && (t.col
                == base.col - 1 || t.col == base.col + 1))
        },
    }
}

impl Board {
    /// Every square a piece of kind `ct` standing on `base` aims at, by the
    /// movement pattern of its kind alone.
    pub fn generate_move_for_chess_type(&self, ct: ChessType, position_base: Position) -> (r: Vec<
        Position,
    >)
        requires
            spec_in_board(position_base),
        ensures
            forall|t: Position| #![trigger r@.contains(t)]
                r@.contains(t) <==> spec_is_target(self@, ct, position_base, t),
    {
        let mut targets: Vec<Position> = Vec::new();
        let base = position_base;
        match ct {
            ChessType::King => {
                let p = base.up(1);
                proof {
                    lemma_push_contains(targets@, p);
                }
                targets.push(p);
                let p = base.down(1);
                proof {
                    lemma_push_contains(targets@, p);
                }
                targets.push(p);
                let p = base.left(1);
                proof {
                    lemma_push_contains(targets@, p);
                }
                targets.push(p);
                let p = base.right(1);
                proof {
                    lemma_push_contains(targets@, p);
                }
                targets.push(p);
            },
            ChessType::Advisor => {
                let p = base.up(1).left(1);
                proof {
                    lemma_push_contains(targets@, p);
                }
                targets.push(p);
                let p = base.up(1).right(1);
                proof {
                    lemma_push_contains(targets@, p);
                }
                targets.push(p);
                let p = base.down(1).left(1);
                proof {
                    lemma_push_contains(targets@, p);
                }
                targets.push(p);
                let p = base.down(1).right(1);
                proof {
                    lemma_push_contains(targets@, p);
                }
                targets.push(p);
            },
            ChessType::Bishop => {
                if self.chess_at(base.up(1).left(1)) == Chess::Empty {
                    let p = base.up(2).left(2);
                    proof {
                        lemma_push_contains(targets@, p);
                    }
                    targets.push(p);
                }
                if self.chess_at(base.up(1).right(1)) == Chess::Empty {
                    let p = base.up(2).right(2);
                    proof {
                        lemma_push_contains(targets@, p);
                    }
                    targets.push(p);
                }
                if self.chess_at(base.down(1).left(1)) == Chess::Empty {
                    let p = base.down(2).left(2);
                    proof {
                        lemma_push_contains(targets@, p);
                    }
                    targets.push(p);
                }
                if self.chess_at(base.down(1).right(1)) == Chess::Empty {
                    let p = base.down(2).right(2);
                    proof {
                        lemma_push_contains(targets@, p);
                    }
                    targets.push(p);
                }
            },
            ChessType::Knight => {
                if self.chess_at(base.up(1)) == Chess::Empty {
                    let p = base.up(2).left(1);
                    proof {
                        lemma_push_contains(targets@, p);
                    }
                    targets.push(p);
                    let p = base.up(2).right(1);
                    proof {
                        lemma_push_contains(targets@, p);
                    }
                    targets.push(p);
                }
                if self.chess_at(base.down(1)) == Chess::Empty {
                    let p = base.down(2).left(1);
                    proof {
                        lemma_push_contains(targets@, p);
                    }
                    targets.push(p);
                    let p = base.down(2).right(1);
                    proof {
                        lemma_push_contains(targets@, p);
                    }
                    targets.push(p);
                }
                if self.chess_at(base.left(1)) == Chess::Empty {
                    let p = base.up(1).left(2);
                    proof {
                        lemma_push_contains(targets@, p);
                    }
                    targets.push(p);
                    let p = base.down(1).left(2);
                    proof {
                        lemma_push_contains(targets@, p);
                    }
                    targets.push(p);
                }
                if self.chess_at(base.right(1)) == Chess::Empty {
                    let p = base.up(1).right(2);
                    proof {
                        lemma_push_contains(targets@, p);
                    }
                    targets.push(p);
                    let p = base.down(1).right(2);
                    proof {
                        lemma_push_contains(targets@, p);
                    }
                    targets.push(p);
                }
            },
            ChessType::Rook => {
                rook_scan_left(self, base, &mut targets);
                rook_scan_right(self, base, &mut targets);
                rook_scan_up(self, base, &mut targets);
                rook_scan_down(self, base, &mut targets);
                proof {
                    assert forall|t: Position|
                        targets@.contains(t) <==> rook_target(self.cells(), base, t) by {
                        if t.row == base.row && 0 <= t.col < base.col {
                            assert(spec_min(base.col as int, t.col as int) == t.col as int);
                        }
                    }
                }
            },
            ChessType::Cannon => {
                cannon_scan_left(self, base, &mut targets);
                cannon_scan_right(self, base, &mut targets);
                cannon_scan_up(self, base, &mut targets);
                cannon_scan_down(self, base, &mut targets);
                proof {
                    assert forall|t: Position|
                        targets@.contains(t) <==> cannon_target(self.cells(), base, t) by {
                        if t.row == base.row && 0 <= t.col < base.col {
                            assert(spec_min(base.col as int, t.col as int) == t.col as int);
                        }
                    }
                }
            },
            ChessType::Pawn => {
                if self.turn == Player::Black {
                    let p = base.down(1);
                    proof {
                        lemma_push_contains(targets@, p);
                    }
                    targets.push(p);
                } else {
                    let p = base.up(1);
                    proof {
                        lemma_push_contains(targets@, p);
                    }
                    targets.push(p);
                }
                if !in_country(base.row, self.turn) {
                    let p = base.left(1);
                    proof {
                        lemma_push_contains(targets@, p);
                    }
                    targets.push(p);
                    let p = base.right(1);
                    proof {
                        lemma_push_contains(targets@, p);
                    }
                    targets.push(p);
                }
            },
        }
        targets
    }
}

/// The per-kind geometric filter a candidate target must pass: King and
/// Advisor stay in the mover's palace, a Bishop stays on the board in its own
/// half, every other piece merely stays on the board.
pub open spec fn target_filter(b: BoardModel, ct: ChessType, t: Position) -> bool {
    if ct == ChessType::King || ct == ChessType::Advisor {
        spec_in_palace(t, b.turn)
    } else if ct == ChessType::Bishop {
        spec_in_country(t.row as int, b.turn) && spec_in_board(t)
    } else {
        spec_in_board(t)
    }
}

/// A pseudo-legal move of the side to move: it walks a piece of that side
/// by its kind's movement pattern onto a square that passes the kind's
/// geometric filter and holds no friendly piece, and it records the walked
/// piece and whatever stood on the target square.
pub open spec fn spec_move_ok(b: BoardModel, m: Move) -> bool {
    &&& spec_in_board(m.from)
    &&& m.player == b.turn
    &&& m.chess == at_pos(b.cells, m.from)
    &&& m.chess.spec_belong_to(b.turn)
    &&& m.capture == at_pos(b.cells, m.to)
    &&& m.chess.spec_chess_type() matches Some(ct)
    &&& spec_is_target(b, m.chess.spec_chess_type().unwrap(), m.from, m.to)
    &&& target_filter(b, m.chess.spec_chess_type().unwrap(), m.to)
    &&& !at_pos(b.cells, m.to).spec_belong_to(b.turn)
}

/// Whether `p` comes strictly before the cell at row `i`, column `j` in a
/// row-major scan of the board.
pub open spec fn scanned_before(p: Position, i: int, j: int) -> bool {
    p.row < i || (p.row == i && p.col < j)
}

impl Board {
    /// Every pseudo-legal move for the side to move: for each piece of that
    /// side, its kind's targets, filtered by the kind's geometric rule and
    /// the friendly-fire rule. Whether the mover's own King is left in check
    /// is deliberately not tested here; the search filters that afterwards.
    pub fn generate_move(&self) -> (r: Vec<Move>)
        ensures
            forall|m: Move| #![trigger r@.contains(m)] r@.contains(m) <==> spec_move_ok(self@, m),
            forall|k: int| #![trigger r@[k]]
                0 <= k < r@.len() ==> {
                    &&& spec_in_board(r@[k].to)
                    &&& spec_in_board(r@[k].from)
                    &&& r@[k].player == self.turn
                    &&& r@[k].chess.spec_belong_to(self.turn)
                    &&& !at_pos(self.cells(), r@[k].to).spec_belong_to(self.turn)
                    &&& (r@[k].chess.spec_chess_type() == Some(ChessType::King)
                        || r@[k].chess.spec_chess_type() == Some(ChessType::Advisor)
                        ==> spec_in_palace(r@[k].to, self.turn))
                    &&& (r@[k].chess.spec_chess_type() == Some(ChessType::Bishop)
                        ==> spec_in_country(r@[k].to.row as int, self.turn))
                },
    {
        let mut moves: Vec<Move> = Vec::new();
        let mut i: i32 = 0;
        while i < 10
            invariant
                0 <= i <= 10,
                forall|m: Move| #![trigger moves@.contains(m)]
                    moves@.contains(m) <==> spec_move_ok(self@, m) && m.from.row < i,
            decreases 10 - i,
        {
            let mut j: i32 = 0;
            while j < 9
                invariant
                    0 <= i < 10,
                    0 <= j <= 9,
                    forall|m: Move| #![trigger moves@.contains(m)]
                        moves@.contains(m) <==> spec_move_ok(self@, m) && scanned_before(
                            m.from,
                            i as int,
                            j as int,
                        ),
                decreases 9 - j,
            {
                let position_base = Position::new(i, j);
                let chess = self.chess_at(position_base);
                if chess.belong_to(self.turn) {
                    if let Some(ct) = chess.chess_type() {
                        let targets = self.generate_move_for_chess_type(ct, position_base);
                        let move_base = Move {
                            player: self.turn,
                            from: position_base,
                            to: position_base,
                            chess,
                            capture: Chess::Empty,
                        };
                        let mut k: usize = 0;
                        while k < targets.len()
                            invariant
                                0 <= i < 10,
                                0 <= j < 9,
                                k <= targets.len(),
                                position_base.row == i && position_base.col == j,
                                chess == at_pos(self.cells(), position_base),
                                chess.spec_belong_to(self.turn),
                                chess.spec_chess_type() == Some(ct),
                                move_base.player == self.turn && move_base.from == position_base
                                    && move_base.chess == chess,
                                forall|t: Position| #![trigger targets@.contains(t)]
                                    targets@.contains(t) <==> spec_is_target(
                                        self@,
                                        ct,
                                        position_base,
                                        t,
                                    ),
                                forall|m: Move| #![trigger moves@.contains(m)]
                                    moves@.contains(m) <==> spec_move_ok(self@, m) && (
                                    scanned_before(m.from, i as int, j as int) || (m.from
                                        == position_base && targets@.subrange(
                                        0,
                                        k as int,
                                    ).contains(m.to))),
                            decreases targets.len() - k,
                        {
                            let target = targets[k];
                            let valid = if ct == ChessType::King || ct == ChessType::Advisor {
                                in_palace(target, self.turn)
                            } else if ct == ChessType::Bishop {
                                in_country(target.row, self.turn) && in_board(target)
                            } else {
                                in_board(target)
                            };
                            proof {
                                assert(targets@.subrange(0, k as int + 1) =~= targets@.subrange(
                                    0,
                                    k as int,
                                ).push(targets@[k as int]));
                                lemma_push_contains(targets@.subrange(0, k as int), targets@[k as int]);
                                assert(targets@.contains(target)) by {
                                    assert(targets@[k as int] == target);
                                }
                            }
                            if valid {
                                if !self.chess_at(target).belong_to(self.turn) {
                                    let m_new = move_base.with_target(target, self.chess_at(target));
                                    proof {
                                        lemma_push_contains(moves@, m_new);
                                        assert(spec_move_ok(self@, m_new));
                                    }
                                    moves.push(m_new);
                                    proof {
                                        assert forall|m: Move|
                                            moves@.contains(m) <==> spec_move_ok(self@, m) && (
                                            scanned_before(m.from, i as int, j as int) || (m.from
                                                == position_base && targets@.subrange(
                                                0,
                                                k as int + 1,
                                            ).contains(m.to))) by {
                                            if m == m_new {
                                                assert(targets@.subrange(
                                                    0,
                                                    k as int + 1,
                                                ).contains(m_new.to));
                                            }
                                        }
                                    }
                                }
                            }
                            proof {
                                assert forall|m: Move|
                                    moves@.contains(m) <==> spec_move_ok(self@, m) && (
                                    scanned_before(m.from, i as int, j as int) || (m.from
                                        == position_base && targets@.subrange(
                                        0,
                                        k as int + 1,
                                    ).contains(m.to))) by {
                                    if m.from == position_base && m.to == target
                                        && spec_move_ok(self@, m) {
                                        assert(m.chess == chess);
                                        assert(m.capture == at_pos(self.cells(), m.to));
                                    }
                                }
                            }
                            k = k + 1;
                        }
                        proof {
                            assert(targets@.subrange(0, targets@.len() as int) =~= targets@);
                            assert forall|m: Move|
                                moves@.contains(m) <==> spec_move_ok(self@, m) && scanned_before(
                                    m.from,
                                    i as int,
                                    j as int + 1,
                                ) by {}
                        }
                    }
                } else {
                    proof {
                        assert forall|m: Move|
                            moves@.contains(m) <==> spec_move_ok(self@, m) && scanned_before(
                                m.from,
                                i as int,
                                j as int + 1,
                            ) by {
                            if m.from == position_base {
                                assert(at_pos(self.cells(), m.from) == chess);
                            }
                        }
                    }
                }
                j = j + 1;
            }
            i = i + 1;
        }
        proof {
            assert forall|kk: int| 0 <= kk < moves@.len() implies {
                &&& spec_in_board(moves@[kk].to)
                &&& spec_in_board(moves@[kk].from)
                &&& moves@[kk].player == self.turn
                &&& moves@[kk].chess.spec_belong_to(self.turn)
                &&& !at_pos(self.cells(), moves@[kk].to).spec_belong_to(self.turn)
                &&& (moves@[kk].chess.spec_chess_type() == Some(ChessType::King)
                    || moves@[kk].chess.spec_chess_type() == Some(ChessType::Advisor)
                    ==> spec_in_palace(moves@[kk].to, self.turn))
                &&& (moves@[kk].chess.spec_chess_type() == Some(ChessType::Bishop)
                    ==> spec_in_country(moves@[kk].to.row as int, self.turn))
            } by {
                assert(moves@.contains(moves@[kk]));
                assert(spec_move_ok(self@, moves@[kk]));
            }
        }
        moves
    }
}

} // verus!
