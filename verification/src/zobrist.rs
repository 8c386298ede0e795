//! Zobrist hashing: a table of random 64-bit keys per (color, square, kind),
//! the from-scratch hash of a grid, and the incremental update for a move.

use vstd::prelude::*;

use crate::board::{
    apply_cells, at_pos, at_rc, spec_in_board, Board, Chess, ChessType, Move, Player, Position,
};

verus! {

/// A table of 64-bit keys, one per (color, square, kind).
#[derive(Debug)]
pub struct Zobristable {
    hash_table: [[[u64; 7]; 90]; 2],
}

/// The kind index a piece kind hashes under.
pub open spec fn spec_kind_index(ct: ChessType) -> int {
    match ct {
        ChessType::King => 0,
        ChessType::Advisor => 1,
        ChessType::Bishop => 2,
        ChessType::Knight => 3,
        ChessType::Rook => 4,
        ChessType::Cannon => 5,
        ChessType::Pawn => 6,
    }
}

impl ChessType {
    /// The kind index this kind hashes under: each kind its own slot.
    pub fn kind_index(&self) -> (i: usize)
        ensures
            i == spec_kind_index(*self),
    {
        match self {
            ChessType::King => 0,
            ChessType::Advisor => 1,
            ChessType::Bishop => 2,
            ChessType::Knight => 3,
            ChessType::Rook => 4,
            ChessType::Cannon => 5,
            ChessType::Pawn => 6,
        }
    }
}

/// The flat square index of an on-board coordinate.
pub open spec fn pos_index(p: Position) -> int {
    p.row * 9 + p.col
}

/// The key a square's content hashes under at flat square index `idx`; an
/// empty square contributes nothing.
pub closed spec fn cell_key(z: Zobristable, chess: Chess, idx: int) -> u64 {
    match chess {
        Chess::Empty => 0,
        Chess::Red(ct) => z.hash_table@[0]@[idx]@[spec_kind_index(ct)],
        Chess::Black(ct) => z.hash_table@[1]@[idx]@[spec_kind_index(ct)],
    }
}

/// The XOR of the keys of all occupied squares with flat index `k` and above.
pub open spec fn zcalc(z: Zobristable, cells: Seq<Seq<Chess>>, k: int) -> u64
    decreases 90 - k when k <= 90
{
    if k < 0 || k >= 90 {
        0
    } else {
        cell_key(z, at_rc(cells, k / 9, k % 9), k) ^ zcalc(z, cells, k + 1)
    }
}

/// The from-scratch Zobrist hash of a grid under table `z`.
pub open spec fn spec_calc(z: Zobristable, cells: Seq<Seq<Chess>>) -> u64 {
    zcalc(z, cells, 0)
}

/// The incremental hash update for a move: take the mover's key off its
/// origin, put it on its target, and take the captured piece's key (nothing
/// for a quiet move) off the target. XOR makes each step self-inverse.
pub open spec fn spec_zapply(z: Zobristable, origin: u64, m: Move) -> u64 {
    origin ^ cell_key(z, m.chess, pos_index(m.from)) ^ cell_key(z, m.chess, pos_index(m.to))
        ^ cell_key(z, m.capture, pos_index(m.to))
}

/// Relies on getrandom::getrandom: it fills the buffer with random bytes
/// from the operating system's source, or reports an error. Nothing can be
/// promised of the bytes themselves.
#[verifier::external_body]
fn os_random_bytes() -> (r: Option<[u8; 8]>) {
    let mut buf = [0u8; 8];
    match getrandom::getrandom(&mut buf) {
        Ok(()) => Some(buf),
        Err(_) => None,
    }
}

/// A random 64-bit value from the operating system, or nothing when the
/// system's source fails.
fn rand64() -> (r: Option<u64>) {
    match os_random_bytes() {
        Option::Some(buf) => {
            let mut value: u64 = 0;
            let mut i: usize = 0;
            while i < 8
                invariant
                    i <= 8,
                decreases 8 - i,
            {
                value = value | ((buf[i] as u64) << (8 * (i as u64)));
                i = i + 1;
            }
            Some(value)
        },
        Option::None => None,
    }
}

impl Zobristable {
    /// A table filled with fresh random keys, or nothing when the operating
    /// system's random source fails.
    pub fn new() -> (r: Option<Zobristable>) {
        let mut z = Zobristable { hash_table: [[[0u64; 7]; 90]; 2] };
        let mut l: usize = 0;
        while l < 2
            invariant
                l <= 2,
            decreases 2 - l,
        {
            let mut m: usize = 0;
            while m < 90
                invariant
                    l < 2,
                    m <= 90,
                decreases 90 - m,
            {
                let mut n: usize = 0;
                while n < 7
                    invariant
                        l < 2,
                        m < 90,
                        n <= 7,
                    decreases 7 - n,
                {
                    match rand64() {
                        Option::Some(v) => {
                            z.hash_table[l][m][n] = v;
                        },
                        Option::None => {
                            return None;
                        },
                    }
                    n = n + 1;
                }
                m = m + 1;
            }
            l = l + 1;
        }
        Some(z)
    }

    /// The from-scratch hash of a grid: XOR the key of every occupied square.
    pub fn calc_chesses(&self, chesses: &[[Chess; 9]; 10]) -> (r: u64)
        ensures
            r == spec_calc(*self, crate::board::cells_of_array(*chesses)),
    {
        let ghost cells = crate::board::cells_of_array(*chesses);
        proof {
            let ghost z0 = zcalc(*self, cells, 0);
            assert(0u64 ^ z0 == z0) by (bit_vector);
        }
        let mut value: u64 = 0;
        let mut i: usize = 0;
        while i < 10
            invariant
                i <= 10,
                cells == crate::board::cells_of_array(*chesses),
                value ^ zcalc(*self, cells, i as int * 9) == zcalc(*self, cells, 0),
            decreases 10 - i,
        {
            let mut j: usize = 0;
            while j < 9
                invariant
                    i < 10,
                    j <= 9,
                    cells == crate::board::cells_of_array(*chesses),
                    value ^ zcalc(*self, cells, i as int * 9 + j as int) == zcalc(*self, cells, 0),
                decreases 9 - j,
            {
                let ghost k: int = i as int * 9 + j as int;
                proof {
                    assert(k / 9 == i as int && k % 9 == j as int) by (nonlinear_arith)
                        requires
                            0 <= i < 10,
                            0 <= j < 9,
                            k == i as int * 9 + j as int,
                    ;
                }
                let chess = chesses[i][j];
                if let Some(ct) = chess.chess_type() {
                    let color: usize = match chess.player() {
                        Option::Some(Player::Red) => 0,
                        Option::Some(Player::Black) => 1,
                        Option::None => 0,
                    };
                    let key = self.hash_table[color][i * 9 + j][ct.kind_index()];
                    proof {
                        assert(key == cell_key(*self, at_rc(cells, k / 9, k % 9), k));
                        let ghost a = value;
                        let ghost b = key;
                        let ghost rest = zcalc(*self, cells, k + 1);
                        assert((a ^ b) ^ rest == a ^ (b ^ rest)) by (bit_vector);
                    }
                    value = value ^ key;
                } else {
                    proof {
                        let ghost a = value;
                        let ghost rest = zcalc(*self, cells, k + 1);
                        assert(a ^ (0u64 ^ rest) == a ^ rest) by (bit_vector);
                    }
                }
                j = j + 1;
            }
            i = i + 1;
        }
        proof {
            let ghost a = value;
            assert(a ^ 0u64 == a) by (bit_vector);
        }
        value
    }

    /// The hash after applying `m` to a grid that hashed to `origin`.
    pub fn apply_move(&self, origin: u64, m: &Move) -> (r: u64)
        requires
            m.chess != Chess::Empty,
            spec_in_board(m.from),
            spec_in_board(m.to),
        ensures
            r == spec_zapply(*self, origin, *m),
    {
        let mut value = origin;
        let from_idx: usize = (m.from.row * 9 + m.from.col) as usize;
        let to_idx: usize = (m.to.row * 9 + m.to.col) as usize;
        let color: usize = match m.chess.player() {
            Option::Some(Player::Red) => 0,
            Option::Some(Player::Black) => 1,
            Option::None => 0,
        };
        let ct = match m.chess.chess_type() {
            Option::Some(ct) => ct,
            Option::None => ChessType::King,
        };
        value = value ^ self.hash_table[color][from_idx][ct.kind_index()];
        value = value ^ self.hash_table[color][to_idx][ct.kind_index()];
        if let Some(cap_ct) = m.capture.chess_type() {
            let cap_color: usize = match m.capture.player() {
                Option::Some(Player::Red) => 0,
                Option::Some(Player::Black) => 1,
                Option::None => 0,
            };
            value = value ^ self.hash_table[cap_color][to_idx][cap_ct.kind_index()];
        } else {
            proof {
                let ghost a = value;
                assert(a ^ 0u64 == a) by (bit_vector);
            }
        }
        value
    }

    /// The hash after undoing `m`: the same as applying it again, since XOR
    /// is self-inverse.
    pub fn undo_move(&self, origin: u64, m: &Move) -> (r: u64)
        requires
            m.chess != Chess::Empty,
            spec_in_board(m.from),
            spec_in_board(m.to),
        ensures
            r == spec_zapply(*self, origin, *m),
    {
        self.apply_move(origin, m)
    }
}

/// Undoing a move's hash update restores the hash exactly: applying the
/// same update twice is the identity.
pub proof fn lemma_zobrist_involution(z: Zobristable, origin: u64, m: Move)
    ensures
        spec_zapply(z, spec_zapply(z, origin, m), m) == origin,
{
    let a = cell_key(z, m.chess, pos_index(m.from));
    let b = cell_key(z, m.chess, pos_index(m.to));
    let c = cell_key(z, m.capture, pos_index(m.to));
    assert(origin ^ a ^ b ^ c ^ a ^ b ^ c == origin) by (bit_vector);
}

/// How a single-square overwrite moves the hash: the keys of the old and
/// new content of that square are XORed in; squares already folded (below
/// `k`) leave the suffix hash untouched.
proof fn lemma_zcalc_update(z: Zobristable, cells: Seq<Seq<Chess>>, p: Position, x: Chess, k: int)
    requires
        cells.len() == 10,
        forall|r: int| 0 <= r < 10 ==> (#[trigger] cells[r]).len() == 9,
        spec_in_board(p),
        0 <= k <= 90,
    ensures
        pos_index(p) >= k ==> zcalc(z, crate::board::put(cells, p, x), k) == zcalc(z, cells, k)
            ^ cell_key(z, at_pos(cells, p), pos_index(p)) ^ cell_key(z, x, pos_index(p)),
        pos_index(p) < k ==> zcalc(z, crate::board::put(cells, p, x), k) == zcalc(z, cells, k),
    decreases 90 - k,
{
    let put_cells = crate::board::put(cells, p, x);
    let idx = pos_index(p);
    let ck_old = cell_key(z, at_pos(cells, p), idx);
    let ck_new = cell_key(z, x, idx);
    if k < 90 {
        lemma_zcalc_update(z, cells, p, x, k + 1);
        assert((k == idx) <==> (k / 9 == p.row as int && k % 9 == p.col as int))
            by (nonlinear_arith)
            requires
                0 <= k < 90,
                idx == p.row as int * 9 + p.col as int,
                0 <= p.row < 10,
                0 <= p.col < 9,
        ;
        if k == idx {
            assert(at_rc(put_cells, k / 9, k % 9) == x);
            let rest = zcalc(z, cells, k + 1);
            let a = ck_old;
            let b = ck_new;
            assert(b ^ rest == (a ^ rest) ^ a ^ b) by (bit_vector);
        } else {
            assert(at_rc(put_cells, k / 9, k % 9) == at_rc(cells, k / 9, k % 9));
            if idx > k {
                let ck = cell_key(z, at_rc(cells, k / 9, k % 9), k);
                let rest = zcalc(z, cells, k + 1);
                let a = ck_old;
                let b = ck_new;
                assert(ck ^ (rest ^ a ^ b) == (ck ^ rest) ^ a ^ b) by (bit_vector);
            }
        }
    }
}

/// Zobrist consistency: the incremental update for a move carries the
/// from-scratch hash of the old grid to the from-scratch hash of the new
/// one, provided the move reads the grid truthfully (its `chess` is what
/// stands on its origin and its `capture` what stands on its target).
pub proof fn lemma_zobrist_apply_consistent(z: Zobristable, cells: Seq<Seq<Chess>>, m: Move)
    requires
        cells.len() == 10,
        forall|r: int| 0 <= r < 10 ==> (#[trigger] cells[r]).len() == 9,
        spec_in_board(m.from),
        spec_in_board(m.to),
        m.from != m.to,
        m.chess == at_pos(cells, m.from),
        m.chess != Chess::Empty,
        m.capture == at_pos(cells, m.to),
    ensures
        spec_zapply(z, spec_calc(z, cells), m) == spec_calc(z, apply_cells(cells, m)),
{
    let c1 = crate::board::put(cells, m.to, at_pos(cells, m.from));
    lemma_zcalc_update(z, cells, m.to, m.chess, 0);
    assert(c1.len() == 10);
    assert(forall|r: int| 0 <= r < 10 ==> (#[trigger] c1[r]).len() == 9);
    assert(at_pos(c1, m.from) == m.chess);
    lemma_zcalc_update(z, c1, m.from, Chess::Empty, 0);
    let base = spec_calc(z, cells);
    let cap_to = cell_key(z, m.capture, pos_index(m.to));
    let ch_to = cell_key(z, m.chess, pos_index(m.to));
    let ch_from = cell_key(z, m.chess, pos_index(m.from));
    assert(cell_key(z, Chess::Empty, pos_index(m.from)) == 0);
    assert(spec_calc(z, c1) == base ^ cap_to ^ ch_to);
    assert(spec_calc(z, apply_cells(cells, m)) == base ^ cap_to ^ ch_to ^ ch_from ^ 0);
    assert(base ^ ch_from ^ ch_to ^ cap_to == base ^ cap_to ^ ch_to ^ ch_from ^ 0)
        by (bit_vector);
}

} // verus!
