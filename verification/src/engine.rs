//! The engine around the search: the opening book, keyed by Zobrist hashes
//! and probed before searching, and the decisions behind the UCCI `position`
//! and `go` commands. Reading input and printing replies stay outside.

use vstd::prelude::*;
use vstd::string::*;

use crate::board::{
    at_pos, cells_of, empty_cells, fen_cells, fen_digit, first_space_idx, m_apply,
    spec_fen_digit, spec_from_coords, Board, Chess, Move, Player, Position,
};
use crate::constant::{MAX, MAX_DEPTH, MIN};
use crate::search::{spec_has_legal_move, spec_legal_move};
use crate::zobrist::{spec_calc, Zobristable};

verus! {

/// One opening-book entry: the position's two Zobrist hashes, the move to
/// play there, and a weight reserved for weighted selection.
#[derive(Debug, Clone)]
pub struct PreLoad {
    pub zobrist_value: u64,
    pub zobrist_value_check: u64,
    pub best_move: String,
    pub weight: i32,
}

/// The engine: the game board, the opening book sorted by its primary hash,
/// and the two hash tables (key and lock) the book is keyed under.
pub struct UCCIEngine {
    pub board: Board,
    pub book: Vec<PreLoad>,
    pub zobrist_table: Zobristable,
    pub zobrist_table_lock: Zobristable,
}

/// A book is sorted by its primary hash, ascending.
pub open spec fn book_sorted(book: Seq<PreLoad>) -> bool {
    forall|i: int, j: int|
        0 <= i < j < book.len() ==> #[trigger] book[i].zobrist_value
            <= #[trigger] book[j].zobrist_value
}

/// The value of a digit string read left to right.
pub open spec fn digits_value(ds: Seq<char>) -> int
    decreases ds.len(),
{
    if ds.len() == 0 {
        0
    } else {
        digits_value(ds.drop_last()) * 10 + spec_fen_digit(ds.last())
    }
}

/// Whether every character is an ASCII digit.
pub open spec fn all_digits(ds: Seq<char>) -> bool {
    forall|i: int| 0 <= i < ds.len() ==> spec_fen_digit(#[trigger] ds[i]) >= 0
}

/// What parsing a signed 32-bit decimal accepts: an optional `+` or `-`,
/// then one or more digits, and a value that fits the type.
pub open spec fn spec_parse_i32(chars: Seq<char>) -> Option<i32> {
    let negative = chars.len() > 0 && chars[0] == '-';
    let signed = chars.len() > 0 && (chars[0] == '-' || chars[0] == '+');
    let ds = if signed {
        chars.skip(1)
    } else {
        chars
    };
    if ds.len() == 0 || !all_digits(ds) {
        None
    } else {
        let v = digits_value(ds);
        if negative {
            if v <= 0x8000_0000 {
                Some((-v) as i32)
            } else {
                None
            }
        } else {
            if v <= 0x7FFF_FFFF {
                Some(v as i32)
            } else {
                None
            }
        }
    }
}

/// Parse a signed 32-bit decimal, rejecting malformed text and overflow.
pub fn parse_i32(s: &str) -> (r: Option<i32>)
    ensures
        r == spec_parse_i32(s@),
{
    let n = s.unicode_len();
    let mut i: usize = 0;
    let mut negative = false;
    if n > 0 {
        let c0 = s.get_char(0);
        if c0 == '-' {
            negative = true;
            i = 1;
        } else if c0 == '+' {
            i = 1;
        }
    }
    let ghost ds: Seq<char> = if i == 1 {
        s@.skip(1)
    } else {
        s@
    };
    if i >= n {
        return None;
    }
    let start = i;
    let cap: i64 = 0x1_0000_0000;
    let mut acc: i64 = 0;
    while i < n
        invariant
            n == s@.len(),
            start <= i <= n,
            start < n,
            negative == (s@.len() > 0 && s@[0] == '-'),
            start == if negative || (s@.len() > 0 && s@[0] == '+') {
                1int
            } else {
                0int
            },
            ds == s@.skip(start as int),
            cap == 0x1_0000_0000,
            all_digits(ds.take(i - start)),
            digits_value(ds.take(i - start)) >= 0,
            0 <= acc <= cap,
            digits_value(ds.take(i - start)) <= cap ==> acc == digits_value(
                ds.take(i - start),
            ),
            digits_value(ds.take(i - start)) > cap ==> acc == cap,
        decreases n - i,
    {
        let d = fen_digit(s.get_char(i));
        if d < 0 {
            proof {
                assert(ds[i - start] == s@[i as int]);
                assert(!all_digits(ds));
                assert(s@.skip(0) =~= s@);
            }
            return None;
        }
        proof {
            let pref = ds.take(i - start);
            let pref2 = ds.take(i + 1 - start);
            assert(pref2.drop_last() =~= pref);
            assert(pref2.last() == ds[i - start]);
            assert(ds[i - start] == s@[i as int]);
        }
        acc = acc * 10 + (d as i64);
        if acc > cap {
            acc = cap;
        }
        i = i + 1;
    }
    proof {
        assert(ds.take(n - start) =~= ds);
    }
    if negative {
        if acc <= 0x8000_0000 {
            Some((-acc) as i32)
        } else {
            None
        }
    } else {
        if acc <= 0x7FFF_FFFF {
            Some(acc as i32)
        } else {
            None
        }
    }
}

/// A parsed book line: the move token, the weight, and the FEN text.
pub open spec fn spec_book_line(chars: Seq<char>) -> Option<(Seq<char>, i32, Seq<char>)> {
    match spec_split3(chars) {
        Some(f) => match spec_parse_i32(f.1) {
            Some(w) => Some((f.0, w, f.2)),
            None => None,
        },
        None => None,
    }
}

/// How a book line splits into its three fields: a move token up to the
/// first space, a weight token up to the second, and the rest a FEN.
pub open spec fn spec_split3(chars: Seq<char>) -> Option<(Seq<char>, Seq<char>, Seq<char>)> {
    let s1 = first_space_idx(chars, 0);
    if s1 >= chars.len() {
        None
    } else {
        let s2 = first_space_idx(chars, s1 + 1);
        if s2 >= chars.len() {
            None
        } else {
            Some((chars.take(s1), chars.subrange(s1 + 1, s2), chars.skip(s2 + 1)))
        }
    }
}

/// Relies on getrandom::getrandom: four random bytes from the operating
/// system combined big-endian, or nothing when the source fails.
#[verifier::external_body]
fn os_random_u32() -> (r: Option<u32>) {
    let mut buf = [0u8; 4];
    match getrandom::getrandom(&mut buf) {
        Ok(()) => Some(u32::from_be_bytes(buf)),
        Err(_) => None,
    }
}

/// The index of the first space of `s` at or after `from`, or the length.
fn find_space(s: &str, from: usize) -> (r: usize)
    requires
        from <= s@.len(),
    ensures
        r == first_space_idx(s@, from as int),
        from <= r <= s@.len(),
{
    let n = s.unicode_len();
    let mut k = from;
    loop
        invariant
            n == s@.len(),
            from <= k <= n,
            forall|t: int| from <= t < k ==> s@[t] != ' ',
        ensures
            from <= k <= n,
            k == n || s@[k as int] == ' ',
            forall|t: int| from <= t < k ==> s@[t] != ' ',
        decreases n - k,
    {
        if k >= n {
            break;
        }
        if s.get_char(k) == ' ' {
            break;
        }
        k = k + 1;
    }
    proof {
        crate::board::lemma_first_space(s@, from as int, k as int);
    }
    k
}

/// The move a four-character coordinate token names on a board: its two
/// coordinates, with the walked and captured pieces read off the board.
/// Nothing for a token that is not two valid coordinates.
pub open spec fn spec_coord_move(b: Board, chars: Seq<char>) -> Option<Move> {
    if chars.len() == 4 && spec_from_coords(chars.take(2)) is Some && spec_from_coords(
        chars.skip(2),
    ) is Some {
        Some(
            Move {
                player: b.turn,
                from: spec_from_coords(chars.take(2)).unwrap(),
                to: spec_from_coords(chars.skip(2)).unwrap(),
                chess: at_pos(cells_of(b), spec_from_coords(chars.take(2)).unwrap()),
                capture: at_pos(cells_of(b), spec_from_coords(chars.skip(2)).unwrap()),
            },
        )
    } else {
        None
    }
}

/// What a `go` decides: play a book move, play the best move the search
/// found with its score, or report that there is no legal move.
#[derive(Debug)]
pub enum GoOutcome {
    BookMove(String),
    Best(i32, Move),
    NoMove,
}

impl UCCIEngine {
    /// A fresh engine: the standard opening board, an empty book, and two
    /// newly drawn hash tables. Nothing when the random source fails.
    pub fn new() -> (r: Option<UCCIEngine>)
        ensures
            r matches Some(e) ==> {
                &&& e.book@.len() == 0
                &&& book_sorted(e.book@)
                &&& e.board.turn == Player::Red
                &&& forall|rr: int, cc: int|
                    0 <= rr < 10 && 0 <= cc < 9 ==> e.board.cells()[rr][cc]
                        == crate::board::spec_starting_square(rr, cc)
            },
    {
        let zobrist_table = match Zobristable::new() {
            Option::Some(z) => z,
            Option::None => {
                return None;
            },
        };
        let zobrist_table_lock = match Zobristable::new() {
            Option::Some(z) => z,
            Option::None => {
                return None;
            },
        };
        Some(
            UCCIEngine {
                board: Board::init(),
                book: Vec::new(),
                zobrist_table,
                zobrist_table_lock,
            },
        )
    }

    /// Load one book line, `<move> <weight> <fen...>`: hash the FEN under
    /// both tables and file the entry under its primary hash, keeping the
    /// book sorted. A line without three fields, or with an unreadable
    /// weight, is rejected and changes nothing.
    pub fn load_book_line(&mut self, line: &str) -> (r: bool)
        requires
            book_sorted(old(self).book@),
        ensures
            final(self).board == old(self).board,
            final(self).zobrist_table == old(self).zobrist_table,
            final(self).zobrist_table_lock == old(self).zobrist_table_lock,
            book_sorted(final(self).book@),
            !r ==> final(self).book@ == old(self).book@,
            r == (spec_book_line(line@) is Some),
            spec_book_line(line@) matches Some(f) ==> exists|idx: int|
                #![auto]
                {
                    &&& 0 <= idx <= old(self).book@.len()
                    &&& final(self).book@ == old(self).book@.insert(idx, final(self).book@[idx])
                    &&& final(self).book@[idx].best_move@ == f.0
                    &&& final(self).book@[idx].weight == f.1
                    &&& final(self).book@[idx].zobrist_value == spec_calc(
                        old(self).zobrist_table,
                        fen_cells(empty_cells(), f.2, 0, 0),
                    )
                    &&& final(self).book@[idx].zobrist_value_check == spec_calc(
                        old(self).zobrist_table_lock,
                        fen_cells(empty_cells(), f.2, 0, 0),
                    )
                },
    {
        let n = line.unicode_len();
        let s1 = find_space(line, 0);
        if s1 >= n {
            return false;
        }
        let s2 = find_space(line, s1 + 1);
        if s2 >= n {
            return false;
        }
        let ws = line.substring_char(s1 + 1, s2);
        let w = match parse_i32(ws) {
            Option::Some(w) => w,
            Option::None => {
                return false;
            },
        };
        let mv = line.substring_char(0, s1);
        let fen = line.substring_char(s2 + 1, n);
        let b2 = Board::from_fen(fen);
        let key = self.zobrist_table.calc_chesses(&b2.chesses);
        let lock = self.zobrist_table_lock.calc_chesses(&b2.chesses);
        let entry = PreLoad {
            zobrist_value: key,
            zobrist_value_check: lock,
            best_move: mv.to_owned(),
            weight: w,
        };
        let ghost old_book = self.book@;
        let mut lo: usize = 0;
        let mut hi: usize = self.book.len();
        while lo < hi
            invariant
                lo <= hi <= self.book@.len(),
                self.book@ == old_book,
                book_sorted(self.book@),
                forall|u: int| 0 <= u < lo ==> #[trigger] self.book@[u].zobrist_value <= key,
                forall|u: int|
                    hi <= u < self.book@.len() ==> #[trigger] self.book@[u].zobrist_value > key,
            decreases hi - lo,
        {
            let mid = lo + (hi - lo) / 2;
            if self.book[mid].zobrist_value <= key {
                lo = mid + 1;
            } else {
                hi = mid;
            }
        }
        let idx = lo;
        proof {
            old_book.insert_ensures(idx as int, entry);
        }
        self.book.insert(idx, entry);
        proof {
            assert(self.book@ == old_book.insert(idx as int, entry));
            assert forall|x: int, y: int|
                0 <= x < y < self.book@.len() implies self.book@[x].zobrist_value
                <= self.book@[y].zobrist_value by {
                if x < idx && y < idx {
                } else if x < idx && y == idx {
                } else if x == idx && y > idx {
                    assert(self.book@[y] == old_book[y - 1]);
                } else if x < idx && y > idx {
                    assert(self.book@[y] == old_book[y - 1]);
                } else if x > idx && y > idx {
                    assert(self.book@[x] == old_book[x - 1]);
                    assert(self.book@[y] == old_book[y - 1]);
                }
            }
            assert(self.book@[idx as int] == entry);
        }
        true
    }

    /// Whether the book knows the engine's current position: some entry
    /// matches both of the board's hashes.
    pub open spec fn spec_book_hit(self) -> bool {
        exists|u: int|
            #![auto]
            0 <= u < self.book@.len() && self.book@[u].zobrist_value == spec_calc(
                self.zobrist_table,
                cells_of(self.board),
            ) && self.book@[u].zobrist_value_check == spec_calc(
                self.zobrist_table_lock,
                cells_of(self.board),
            )
    }

    /// Probe the opening book for the current board: binary-search the
    /// sorted book for the board's primary hash, gather every entry whose
    /// lock hash also matches, and hand back one of their moves, chosen by a
    /// random draw. Nothing exactly when no entry matches both hashes.
    pub fn search_in_book(&self) -> (r: Option<String>)
        requires
            book_sorted(self.book@),
        ensures
            r is Some <==> self.spec_book_hit(),
            r matches Some(s) ==> exists|u: int|
                #![auto]
                0 <= u < self.book@.len() && self.book@[u].zobrist_value == spec_calc(
                    self.zobrist_table,
                    cells_of(self.board),
                ) && self.book@[u].zobrist_value_check == spec_calc(
                    self.zobrist_table_lock,
                    cells_of(self.board),
                ) && s@ == self.book@[u].best_move@,
    {
        let key = self.zobrist_table.calc_chesses(&self.board.chesses);
        let lock = self.zobrist_table_lock.calc_chesses(&self.board.chesses);
        let mut lo: usize = 0;
        let mut hi: usize = self.book.len();
        while lo < hi
            invariant
                lo <= hi <= self.book@.len(),
                book_sorted(self.book@),
                forall|u: int| 0 <= u < lo ==> #[trigger] self.book@[u].zobrist_value < key,
                forall|u: int|
                    hi <= u < self.book@.len() ==> #[trigger] self.book@[u].zobrist_value >= key,
            decreases hi - lo,
        {
            let mid = lo + (hi - lo) / 2;
            if self.book[mid].zobrist_value < key {
                lo = mid + 1;
            } else {
                hi = mid;
            }
        }
        let lb = lo;
        let mut cands: Vec<usize> = Vec::new();
        let mut j = lb;
        loop
            invariant
                lb <= j <= self.book@.len(),
                book_sorted(self.book@),
                forall|u: int| 0 <= u < lb ==> #[trigger] self.book@[u].zobrist_value < key,
                forall|u: int| lb <= u < j ==> #[trigger] self.book@[u].zobrist_value == key,
                forall|ci: int|
                    #![trigger cands@[ci]]
                    0 <= ci < cands@.len() ==> lb <= cands@[ci] < j && self.book@[
                        cands@[ci] as int
                    ].zobrist_value == key && self.book@[cands@[ci] as int].zobrist_value_check
                        == lock,
                (exists|u: int|
                    #![auto]
                    lb <= u < j && self.book@[u].zobrist_value_check == lock) ==> cands@.len() > 0,
            ensures
                lb <= j <= self.book@.len(),
                forall|u: int| lb <= u < j ==> #[trigger] self.book@[u].zobrist_value == key,
                j == self.book@.len() || self.book@[j as int].zobrist_value != key,
                forall|ci: int|
                    #![trigger cands@[ci]]
                    0 <= ci < cands@.len() ==> lb <= cands@[ci] < j && self.book@[
                        cands@[ci] as int
                    ].zobrist_value == key && self.book@[cands@[ci] as int].zobrist_value_check
                        == lock,
                (exists|u: int|
                    #![auto]
                    lb <= u < j && self.book@[u].zobrist_value_check == lock) ==> cands@.len() > 0,
            decreases self.book@.len() - j,
        {
            if j >= self.book.len() {
                break;
            }
            if self.book[j].zobrist_value != key {
                break;
            }
            if self.book[j].zobrist_value_check == lock {
                let ghost oldc = cands@;
                cands.push(j);
                proof {
                    assert forall|ci: int|
                        #![trigger cands@[ci]]
                        0 <= ci < cands@.len() implies lb <= cands@[ci] < j + 1 && self.book@[
                        cands@[ci] as int
                    ].zobrist_value == key && self.book@[cands@[ci] as int].zobrist_value_check
                        == lock by {
                        if ci < oldc.len() {
                            assert(cands@[ci] == oldc[ci]);
                        } else {
                            assert(cands@[ci] == j);
                        }
                    }
                }
            }
            j = j + 1;
        }
        if cands.len() > 0 {
            let pick: usize = match os_random_u32() {
                Option::Some(v) => (v as usize) % cands.len(),
                Option::None => 0,
            };
            let u = cands[pick];
            let s = self.book[u].best_move.clone();
            proof {
                assert(lb <= cands@[pick as int] < j);
                assert(self.book@[u as int].zobrist_value == key && self.book@[
                    u as int
                ].zobrist_value_check == lock);
            }
            Some(s)
        } else {
            proof {
                assert forall|u: int|
                    0 <= u < self.book@.len() implies !(self.book@[u].zobrist_value == key
                    && #[trigger] self.book@[u].zobrist_value_check == lock) by {
                    if lb <= u < j {
                    } else if u >= j && (j as int) < self.book@.len() {
                        assert(self.book@[j as int].zobrist_value >= key);
                        assert(self.book@[j as int].zobrist_value > key);
                        if u > j {
                            assert(self.book@[u].zobrist_value
                                >= self.book@[j as int].zobrist_value);
                        }
                    }
                }
            }
            None
        }
    }

    /// Apply a four-character coordinate move such as `b2d2` to the board,
    /// reading the walked and captured pieces off the current position. A
    /// token that is not two valid coordinates is rejected and changes
    /// nothing.
    pub fn apply_coord_move(&mut self, mv: &str) -> (r: bool)
        ensures
            final(self).book == old(self).book,
            final(self).zobrist_table == old(self).zobrist_table,
            final(self).zobrist_table_lock == old(self).zobrist_table_lock,
            spec_coord_move(old(self).board, mv@) matches Some(m) ==> r && final(self).board@
                == m_apply(old(self).board@, m),
            spec_coord_move(old(self).board, mv@) is None ==> !r && final(self).board == old(
                self,
            ).board,
    {
        let n = mv.unicode_len();
        if n != 4 {
            return false;
        }
        let from_str = mv.substring_char(0, 2);
        let to_str = mv.substring_char(2, 4);
        proof {
            assert(from_str@ =~= mv@.take(2));
            assert(to_str@ =~= mv@.skip(2));
        }
        let from = match Position::from_coords(from_str) {
            Option::Some(p) => p,
            Option::None => {
                return false;
            },
        };
        let to = match Position::from_coords(to_str) {
            Option::Some(p) => p,
            Option::None => {
                return false;
            },
        };
        let m = Move {
            player: self.board.turn,
            from,
            to,
            chess: self.board.chess_at(from),
            capture: self.board.chess_at(to),
        };
        self.board.apply_move(&m);
        true
    }

    /// Decide a `go`: play a book move when the book knows the position,
    /// else search to `depth` by iterative deepening and play the best move
    /// found; report that none exists otherwise. The board comes back as it
    /// went in; only its statistics counters move.
    pub fn go(&mut self, depth: i32) -> (r: GoOutcome)
        requires
            0 <= depth <= MAX_DEPTH,
            book_sorted(old(self).book@),
        ensures
            final(self).board@ == old(self).board@,
            final(self).book == old(self).book,
            r matches GoOutcome::BookMove(s) ==> exists|u: int|
                #![auto]
                0 <= u < final(self).book@.len() && final(self).book@[u].zobrist_value
                    == spec_calc(final(self).zobrist_table, cells_of(final(self).board))
                    && final(self).book@[u].zobrist_value_check == spec_calc(
                    final(self).zobrist_table_lock,
                    cells_of(final(self).board),
                ) && s@ == final(self).book@[u].best_move@,
            r matches GoOutcome::Best(v, m) ==> spec_legal_move(old(self).board@, m) && MIN <= v
                <= MAX && m.chess != Chess::Empty && m.from != m.to && (depth > 0 ==> v
                == crate::search::spec_negamax(old(self).board@, depth as nat)),
            (r is BookMove) <==> old(self).spec_book_hit(),
            depth > 0 && !old(self).spec_book_hit() ==> ((r is Best) <==> spec_has_legal_move(
                old(self).board@,
            )),
            depth > 0 && !old(self).spec_book_hit() && !spec_has_legal_move(old(self).board@)
                ==> r is NoMove,
    {
        if let Some(s) = self.search_in_book() {
            return GoOutcome::BookMove(s);
        }
        let rr = self.board.iterative_deepening(depth);
        let value = rr.0;
        match rr.1 {
            Option::Some(m) => {
                proof {
                    crate::search::lemma_move_ok_is_valid(old(self).board@, m);
                }
                if m.is_valid() {
                    GoOutcome::Best(value, m)
                } else {
                    GoOutcome::NoMove
                }
            },
            Option::None => GoOutcome::NoMove,
        }
    }
}

} // verus!
