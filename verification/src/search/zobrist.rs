//! Zobrist hashing for position identification.
//!
//! A hash is the XOR of one fixed pseudo-random key per stone on the board,
//! one key for "Black to move" and one key per capture count of each color.
//! Placing or removing a stone changes the hash by one XOR, so the search
//! updates it incrementally instead of recomputing it.
use crate::board::{opp, Bitboard, Board, Pos, Stone, TOTAL_CELLS};
use crate::rules::capture::{removal_applied, seq_has_cell};
use vstd::prelude::*;

verus! {

/// Seed of the key generator.
pub const ZOBRIST_SEED: u64 = 0x1234_5678_9ABC_DEF0;

/// Multiplier of the key generator (Knuth's MMIX LCG).
pub const LCG_MULT: u64 = 6_364_136_223_846_793_005;

/// One step of the linear congruential generator.
pub open spec fn lcg_step(s: u64) -> u64 {
    s.wrapping_mul(LCG_MULT).wrapping_add(1)
}

/// The generator state after `n` steps; the n-th generated key is `lcg(n)`.
pub open spec fn lcg(n: nat) -> u64
    decreases n,
{
    if n == 0 {
        ZOBRIST_SEED
    } else {
        lcg_step(lcg((n - 1) as nat))
    }
}

/// XOR of `keys[i]` over the set bits `i < n` of `bb`.
pub open spec fn cells_xor(keys: Seq<u64>, bb: Bitboard, n: int) -> u64
    decreases n,
{
    if n <= 0 {
        0
    } else if bb.has(n - 1) {
        cells_xor(keys, bb, n - 1) ^ keys[n - 1]
    } else {
        cells_xor(keys, bb, n - 1)
    }
}

/// XOR of the keys of the cells of a list of positions, left to right.
pub open spec fn list_xor(keys: Seq<u64>, ps: Seq<Pos>) -> u64
    decreases ps.len(),
{
    if ps.len() == 0 {
        0
    } else {
        list_xor(keys, ps.drop_last()) ^ keys[ps.last().idx()]
    }
}

/// A capture count as it enters the hash: counts above 5 hash as 5.
pub open spec fn cap_slot(c: u8) -> int {
    if c > 5 {
        5
    } else {
        c as int
    }
}

/// Zobrist hash table for position hashing.
///
/// Keys come from a fixed-seed LCG, so every table holds the same keys and
/// hashes are reproducible across runs.
pub struct ZobristTable {
    /// Keys of black stones, by cell index.
    pub black: Vec<u64>,
    /// Keys of white stones, by cell index.
    pub white: Vec<u64>,
    /// Key XORed in when Black is to move.
    pub black_to_move: u64,
    /// Keys of the capture counts: `[color][count 0..=5]` (0 = Black, 1 = White).
    pub captures: [[u64; 6]; 2],
}

impl ZobristTable {
    /// Every key table has its full length.
    pub open spec fn wf(self) -> bool {
        &&& self.black@.len() == TOTAL_CELLS
        &&& self.white@.len() == TOTAL_CELLS
    }

    /// The keys the generator produces, in the order it produces them:
    /// black and white key of each cell in turn, then the twelve capture
    /// keys, then the side-to-move key.
    pub open spec fn generated(self) -> bool {
        &&& self.wf()
        &&& forall|i: int| 0 <= i < 361 ==> #[trigger] self.black@[i] == lcg((2 * i + 1) as nat)
        &&& forall|i: int| 0 <= i < 361 ==> #[trigger] self.white@[i] == lcg((2 * i + 2) as nat)
        &&& forall|c: int, n: int|
            0 <= c < 2 && 0 <= n < 6 ==> #[trigger] self.captures[c][n] == lcg(
                (723 + 6 * c + n) as nat,
            )
        &&& self.black_to_move == lcg(735)
    }

    /// Key of a stone of color `s` on cell `i` (0 for Empty).
    pub open spec fn stone_key(self, i: int, s: Stone) -> u64 {
        match s {
            Stone::Black => self.black@[i],
            Stone::White => self.white@[i],
            Stone::Empty => 0,
        }
    }

    /// The full hash of a position with `side` to move.
    pub open spec fn hash_spec(self, b: Board, side: Stone) -> u64 {
        cells_xor(self.black@, b.black, 361) ^ cells_xor(self.white@, b.white, 361) ^ (
        if side == Stone::Black {
            self.black_to_move
        } else {
            0
        }) ^ self.captures[0][cap_slot(b.black_captures)] ^ self.captures[1][cap_slot(
            b.white_captures,
        )]
    }

    /// Create a new Zobrist table with deterministic pseudo-random values.
    #[verifier::spinoff_prover]
    pub fn new() -> (zt: ZobristTable)
        ensures
            zt.generated(),
    {
        let mut seed: u64 = ZOBRIST_SEED;
        let mut black: Vec<u64> = Vec::new();
        let mut white: Vec<u64> = Vec::new();
        let mut i: usize = 0;
        while i < TOTAL_CELLS
            invariant
                0 <= i <= 361,
                black@.len() == i,
                white@.len() == i,
                seed == lcg((2 * i) as nat),
                forall|j: int| 0 <= j < i ==> #[trigger] black@[j] == lcg((2 * j + 1) as nat),
                forall|j: int| 0 <= j < i ==> #[trigger] white@[j] == lcg((2 * j + 2) as nat),
            decreases 361 - i,
        {
            seed = seed.wrapping_mul(LCG_MULT).wrapping_add(1);
            black.push(seed);
            seed = seed.wrapping_mul(LCG_MULT).wrapping_add(1);
            white.push(seed);
            proof {
                assert(lcg((2 * i + 1) as nat) == lcg_step(lcg((2 * i) as nat)));
                assert(lcg((2 * i + 2) as nat) == lcg_step(lcg((2 * i + 1) as nat)));
            }
            i = i + 1;
        }
        let mut caps: Vec<u64> = Vec::new();
        let mut k: usize = 0;
        while k < 12
            invariant
                0 <= k <= 12,
                caps@.len() == k,
                seed == lcg((722 + k) as nat),
                forall|j: int| 0 <= j < k ==> #[trigger] caps@[j] == lcg((723 + j) as nat),
            decreases 12 - k,
        {
            seed = seed.wrapping_mul(LCG_MULT).wrapping_add(1);
            caps.push(seed);
            proof {
                assert(lcg((723 + k) as nat) == lcg_step(lcg((722 + k) as nat)));
            }
            k = k + 1;
        }
        seed = seed.wrapping_mul(LCG_MULT).wrapping_add(1);
        proof {
            assert(lcg(735) == lcg_step(lcg(734)));
        }
        let row0 = [caps[0], caps[1], caps[2], caps[3], caps[4], caps[5]];
        let row1 = [caps[6], caps[7], caps[8], caps[9], caps[10], caps[11]];
        let captures = [row0, row1];
        let zt = ZobristTable { black, white, black_to_move: seed, captures };
        proof {
            assert forall|c: int, n: int| 0 <= c < 2 && 0 <= n < 6 implies #[trigger] zt.captures[c][n] == lcg((723 + 6 * c + n) as nat) by {
                if c == 0 {
                    assert(zt.captures[c] == row0);
                    assert(row0[n] == caps@[n]);
                } else {
                    assert(zt.captures[c] == row1);
                    assert(row1[n] == caps@[6 + n]);
                }
            }
        }
        zt
    }

    /// Compute the full hash of a position.
    pub fn hash(&self, board: &Board, side_to_move: Stone) -> (h: u64)
        requires
            self.wf(),
        ensures
            h == self.hash_spec(*board, side_to_move),
    {
        let mut h: u64 = 0;
        let blacks = board.black.iter_ones();
        let mut k: usize = 0;
        while k < blacks.len()
            invariant
                self.wf(),
                0 <= k <= blacks.len(),
                blacks@ == board.black.ones(),
                forall|q: int| 0 <= q < blacks.len() ==> (#[trigger] blacks[q]).valid(),
                h == list_xor(self.black@, blacks@.take(k as int)),
            decreases blacks.len() - k,
        {
            let p = blacks[k];
            proof {
                assert(blacks@.take(k as int + 1).drop_last() =~= blacks@.take(k as int));
            }
            h = h ^ self.black[p.to_index()];
            k = k + 1;
        }
        proof {
            assert(blacks@.take(blacks.len() as int) =~= blacks@);
            lemma_list_xor_ones(self.black@, board.black, 361);
        }
        let hb = h;
        let whites = board.white.iter_ones();
        let mut h2: u64 = 0;
        let mut k: usize = 0;
        while k < whites.len()
            invariant
                self.wf(),
                0 <= k <= whites.len(),
                whites@ == board.white.ones(),
                forall|q: int| 0 <= q < whites.len() ==> (#[trigger] whites[q]).valid(),
                h2 == list_xor(self.white@, whites@.take(k as int)),
            decreases whites.len() - k,
        {
            let p = whites[k];
            proof {
                assert(whites@.take(k as int + 1).drop_last() =~= whites@.take(k as int));
            }
            h2 = h2 ^ self.white[p.to_index()];
            k = k + 1;
        }
        proof {
            assert(whites@.take(whites.len() as int) =~= whites@);
            lemma_list_xor_ones(self.white@, board.white, 361);
        }
        let mut h = hb ^ h2;
        if side_to_move == Stone::Black {
            h = h ^ self.black_to_move;
        } else {
            proof {
                lemma_xor_zero(h);
            }
        }
        let bc = board.captures(Stone::Black);
        let wc = board.captures(Stone::White);
        let bi: usize = if bc > 5 { 5 } else { bc as usize };
        let wi: usize = if wc > 5 { 5 } else { wc as usize };
        h = h ^ self.captures[0][bi];
        h = h ^ self.captures[1][wi];
        h
    }

    /// Hash after placing `stone` at `pos`; also toggles the side to move.
    pub fn update_place(&self, hash: u64, pos: Pos, stone: Stone) -> (h: u64)
        requires
            self.wf(),
            pos.idx() < TOTAL_CELLS,
        ensures
            h == hash ^ self.stone_key(pos.idx(), stone) ^ self.black_to_move,
    {
        let idx = pos.to_index();
        let stone_hash = match stone {
            Stone::Black => self.black[idx],
            Stone::White => self.white[idx],
            Stone::Empty => 0,
        };
        hash ^ stone_hash ^ self.black_to_move
    }

    /// Hash after removing `stone` from `pos`; XOR is its own inverse, so this
    /// is the same update as placing, side toggle included.
    pub fn update_remove(&self, hash: u64, pos: Pos, stone: Stone) -> (h: u64)
        requires
            self.wf(),
            pos.idx() < TOTAL_CELLS,
        ensures
            h == hash ^ self.stone_key(pos.idx(), stone) ^ self.black_to_move,
    {
        self.update_place(hash, pos, stone)
    }

    /// Hash after a captured stone leaves `pos` (the side to move is unchanged).
    pub fn update_capture(&self, hash: u64, pos: Pos, stone: Stone) -> (h: u64)
        requires
            self.wf(),
            pos.idx() < TOTAL_CELLS,
        ensures
            h == hash ^ self.stone_key(pos.idx(), stone),
    {
        let idx = pos.to_index();
        let stone_hash = match stone {
            Stone::Black => self.black[idx],
            Stone::White => self.white[idx],
            Stone::Empty => 0,
        };
        hash ^ stone_hash
    }

    /// Toggle the side-to-move component of the hash.
    pub fn toggle_side(&self, hash: u64) -> (h: u64)
        ensures
            h == hash ^ self.black_to_move,
    {
        hash ^ self.black_to_move
    }

    /// Hash after the capture count of `color` changes from `old_count` to
    /// `new_count` (any color but Black counts as White).
    pub fn update_capture_count(&self, hash: u64, color: Stone, old_count: u8, new_count: u8) -> (h:
        u64)
        ensures
            h == hash ^ self.captures[if color == Stone::Black {
                0int
            } else {
                1int
            }][cap_slot(old_count)] ^ self.captures[if color == Stone::Black {
                0int
            } else {
                1int
            }][cap_slot(new_count)],
    {
        let cidx: usize = if color == Stone::Black { 0 } else { 1 };
        let o: usize = if old_count > 5 { 5 } else { old_count as usize };
        let n: usize = if new_count > 5 { 5 } else { new_count as usize };
        hash ^ self.captures[cidx][o] ^ self.captures[cidx][n]
    }
}

/// XOR with zero is the identity.
pub proof fn lemma_xor_zero(x: u64)
    ensures
        x ^ 0 == x,
        0 ^ x == x,
{
    assert(x ^ 0 == x) by (bit_vector);
    assert(0 ^ x == x) by (bit_vector);
}

/// XOR is associative and commutative in the form the folds need.
pub proof fn lemma_xor_swap(a: u64, k: u64, x: u64)
    ensures
        (a ^ k) ^ x == (a ^ x) ^ k,
        (a ^ k) ^ k == a,
{
    assert((a ^ k) ^ x == (a ^ x) ^ k) by (bit_vector);
    assert((a ^ k) ^ k == a) by (bit_vector);
}

/// Folding the keys over the list of set bits below `n` equals folding them
/// over the cell indices below `n`.
proof fn lemma_list_xor_ones(keys: Seq<u64>, bb: Bitboard, n: int)
    requires
        0 <= n <= 361,
    ensures
        list_xor(keys, bb.ones_upto(n)) == cells_xor(keys, bb, n),
    decreases n,
{
    if n > 0 {
        lemma_list_xor_ones(keys, bb, n - 1);
        if bb.has(n - 1) {
            let s = bb.ones_upto(n - 1);
            let p = Pos { row: ((n - 1) / 19) as u8, col: ((n - 1) % 19) as u8 };
            assert(s.push(p).drop_last() =~= s);
            assert(p.idx() == n - 1);
        }
    }
}

/// Flipping one bit `p` of a bitboard changes the fold over the cells below
/// `n` by `keys[p]` when `p < n`, and not at all otherwise.
proof fn lemma_cells_xor_flip(keys: Seq<u64>, a: Bitboard, b: Bitboard, p: int, n: int)
    requires
        0 <= p < 361,
        0 <= n <= 361,
        forall|i: int| i != p ==> #[trigger] a.has(i) == b.has(i),
        a.has(p) != b.has(p),
    ensures
        n > p ==> cells_xor(keys, b, n) == cells_xor(keys, a, n) ^ keys[p],
        n <= p ==> cells_xor(keys, b, n) == cells_xor(keys, a, n),
    decreases n,
{
    if n > 0 {
        lemma_cells_xor_flip(keys, a, b, p, n - 1);
        let ca = cells_xor(keys, a, n - 1);
        if n - 1 == p {
            assert(n - 1 <= p);
            if a.has(p) {
                lemma_xor_swap(ca, keys[p], keys[p]);
                lemma_xor_zero(ca);
            } else {
                lemma_xor_zero(ca);
            }
        } else if n - 1 > p {
            assert(a.has(n - 1) == b.has(n - 1));
            if a.has(n - 1) {
                lemma_xor_swap(ca, keys[p], keys[n - 1]);
            }
        }
    }
}

/// Removing a stone undoes placing it: the incremental updates for placing
/// and then removing the same stone return the hash to its value before.
pub proof fn law_place_then_remove(zt: ZobristTable, hash: u64, i: int, stone: Stone)
    ensures
        (hash ^ zt.stone_key(i, stone) ^ zt.black_to_move) ^ zt.stone_key(i, stone)
            ^ zt.black_to_move == hash,
{
    let k = zt.stone_key(i, stone);
    let t = zt.black_to_move;
    assert((hash ^ k ^ t) ^ k ^ t == hash) by (bit_vector);
}

/// The hash is a function of the position: boards with the same stones and
/// capture counts hash alike, whatever moves led to them.
pub proof fn law_hash_depends_on_position(zt: ZobristTable, a: Board, b: Board, side: Stone)
    requires
        a.same_position(b),
    ensures
        zt.hash_spec(a, side) == zt.hash_spec(b, side),
{
    Board::lemma_ext(a, b);
}

/// The hash depends on the stones and on the capture counts only up to 5:
/// boards with the same stones whose counts agree once cut at 5 hash alike.
pub proof fn law_hash_depends_on_stones_and_capped_counts(zt: ZobristTable, a: Board, b: Board, side: Stone)
    requires
        a.same_stones(b),
        cap_slot(a.black_captures) == cap_slot(b.black_captures),
        cap_slot(a.white_captures) == cap_slot(b.white_captures),
    ensures
        zt.hash_spec(a, side) == zt.hash_spec(b, side),
{
    lemma_cells_xor_same(zt.black@, a.black, b.black, 361);
    lemma_cells_xor_same(zt.white@, a.white, b.white, 361);
}

/// The two sides to move of one position differ in the hash by the
/// side-to-move key, the same for every position.
pub proof fn law_side_to_move_key(zt: ZobristTable, b: Board)
    ensures
        zt.hash_spec(b, Stone::Black) ^ zt.hash_spec(b, Stone::White) == zt.black_to_move,
{
    let bx = cells_xor(zt.black@, b.black, 361);
    let wx = cells_xor(zt.white@, b.white, 361);
    let t = zt.black_to_move;
    let c0 = zt.captures[0][cap_slot(b.black_captures)];
    let c1 = zt.captures[1][cap_slot(b.white_captures)];
    assert((bx ^ wx ^ t ^ c0 ^ c1) ^ (bx ^ wx ^ 0u64 ^ c0 ^ c1) == t) by (bit_vector);
}

/// One generator step changes the parity of the state: the multiplier is
/// odd and the increment is one.
#[verifier::spinoff_prover]
proof fn lemma_lcg_step_parity(s: u64)
    ensures
        lcg_step(s) % 2 != s % 2,
{
    let x: int = s as int * LCG_MULT as int;
    let k: int = s as int * 3_182_068_111_923_396_502;
    assert(x == 2 * k + s) by (nonlinear_arith)
        requires
            x == s as int * 6_364_136_223_846_793_005,
            k == s as int * 3_182_068_111_923_396_502,
    ;
    assert(x % 2 == s % 2);
    let y: int = x % 0x1_0000_0000_0000_0000;
    vstd::arithmetic::div_mod::lemma_mod_mod(x, 2, 0x8000_0000_0000_0000);
    assert(y % 2 == x % 2);
}

/// The generator state alternates in parity, starting from an even seed.
#[verifier::spinoff_prover]
proof fn lemma_lcg_parity(n: nat)
    ensures
        lcg(n) % 2 == n % 2,
    decreases n,
{
    if n > 0 {
        let m = (n - 1) as nat;
        lemma_lcg_parity(m);
        let a = lcg(m);
        lemma_lcg_step_parity(a);
        lemma_lcg_unfold(n);
        let b = lcg(n);
        assert(b % 2 != a % 2);
    }
}

/// One more step of the generator.
proof fn lemma_lcg_unfold(n: nat)
    requires
        n > 0,
    ensures
        lcg(n) == lcg_step(lcg((n - 1) as nat)),
{
}

/// The side-to-move key of the generated table is not zero, so the two
/// sides to move of one position never share a hash.
pub proof fn law_side_to_move_key_nonzero(zt: ZobristTable, b: Board)
    requires
        zt.generated(),
    ensures
        zt.black_to_move != 0,
        zt.hash_spec(b, Stone::Black) != zt.hash_spec(b, Stone::White),
{
    lemma_lcg_parity(735);
    law_side_to_move_key(zt, b);
    let hb = zt.hash_spec(b, Stone::Black);
    let hw = zt.hash_spec(b, Stone::White);
    let t = zt.black_to_move;
    assert(hb ^ hw == t ==> t != 0 ==> hb != hw) by (bit_vector);
}

/// Placing a stone on an empty cell: the incremental update of the hash
/// equals the full hash of the new position with the other side to move.
pub proof fn law_update_place_matches_hash(
    zt: ZobristTable,
    before: Board,
    after: Board,
    pos: Pos,
    stone: Stone,
    side: Stone,
)
    requires
        zt.wf(),
        pos.valid(),
        stone != Stone::Empty,
        side != Stone::Empty,
        !before.black.has(pos.idx()),
        !before.white.has(pos.idx()),
        forall|i: int| #[trigger] after.black.has(i) == (before.black.has(i) || (stone
            == Stone::Black && i == pos.idx())),
        forall|i: int| #[trigger] after.white.has(i) == (before.white.has(i) || (stone
            == Stone::White && i == pos.idx())),
        after.black_captures == before.black_captures,
        after.white_captures == before.white_captures,
    ensures
        zt.hash_spec(after, crate::board::opp(side)) == zt.hash_spec(before, side) ^ zt.stone_key(
            pos.idx(),
            stone,
        ) ^ zt.black_to_move,
{
    let p = pos.idx();
    let bx = cells_xor(zt.black@, before.black, 361);
    let wx = cells_xor(zt.white@, before.white, 361);
    let c0 = zt.captures[0][cap_slot(before.black_captures)];
    let c1 = zt.captures[1][cap_slot(before.white_captures)];
    let t = zt.black_to_move;
    if stone == Stone::Black {
        lemma_cells_xor_flip(zt.black@, before.black, after.black, p, 361);
        assert(cells_xor(zt.white@, after.white, 361) == wx) by {
            assert(forall|i: int| #[trigger] after.white.has(i) == before.white.has(i));
            lemma_cells_xor_same(zt.white@, before.white, after.white, 361);
        }
        let k = zt.black@[p];
        if side == Stone::Black {
            assert(((bx ^ k) ^ wx ^ 0u64 ^ c0 ^ c1) == ((bx ^ wx ^ t ^ c0 ^ c1) ^ k ^ t))
                by (bit_vector);
        } else {
            assert(((bx ^ k) ^ wx ^ t ^ c0 ^ c1) == ((bx ^ wx ^ 0u64 ^ c0 ^ c1) ^ k ^ t))
                by (bit_vector);
        }
    } else {
        lemma_cells_xor_flip(zt.white@, before.white, after.white, p, 361);
        assert(cells_xor(zt.black@, after.black, 361) == bx) by {
            assert(forall|i: int| #[trigger] after.black.has(i) == before.black.has(i));
            lemma_cells_xor_same(zt.black@, before.black, after.black, 361);
        }
        let k = zt.white@[p];
        if side == Stone::Black {
            assert((bx ^ (wx ^ k) ^ 0u64 ^ c0 ^ c1) == ((bx ^ wx ^ t ^ c0 ^ c1) ^ k ^ t))
                by (bit_vector);
        } else {
            assert((bx ^ (wx ^ k) ^ t ^ c0 ^ c1) == ((bx ^ wx ^ 0u64 ^ c0 ^ c1) ^ k ^ t))
                by (bit_vector);
        }
    }
}

/// Removing a captured stone: the incremental update (no side toggle) equals
/// the full hash of the position without that stone.
pub proof fn law_update_capture_matches_hash(
    zt: ZobristTable,
    before: Board,
    after: Board,
    pos: Pos,
    stone: Stone,
    side: Stone,
)
    requires
        zt.wf(),
        pos.valid(),
        stone != Stone::Empty,
        before.cell(pos.idx()) == stone,
        before.wf(),
        forall|i: int| #[trigger] after.black.has(i) == (before.black.has(i) && i != pos.idx()),
        forall|i: int| #[trigger] after.white.has(i) == (before.white.has(i) && i != pos.idx()),
        after.black_captures == before.black_captures,
        after.white_captures == before.white_captures,
    ensures
        zt.hash_spec(after, side) == zt.hash_spec(before, side) ^ zt.stone_key(pos.idx(), stone),
{
    let p = pos.idx();
    let bx = cells_xor(zt.black@, before.black, 361);
    let wx = cells_xor(zt.white@, before.white, 361);
    let c0 = zt.captures[0][cap_slot(before.black_captures)];
    let c1 = zt.captures[1][cap_slot(before.white_captures)];
    let t: u64 = if side == Stone::Black { zt.black_to_move } else { 0 };
    if stone == Stone::Black {
        assert(before.black.has(p));
        lemma_cells_xor_flip(zt.black@, before.black, after.black, p, 361);
        assert(!before.white.has(p));
        assert(cells_xor(zt.white@, after.white, 361) == wx) by {
            assert(forall|i: int| #[trigger] after.white.has(i) == before.white.has(i));
            lemma_cells_xor_same(zt.white@, before.white, after.white, 361);
        }
        let k = zt.black@[p];
        assert(((bx ^ k) ^ wx ^ t ^ c0 ^ c1) == ((bx ^ wx ^ t ^ c0 ^ c1) ^ k)) by (bit_vector);
    } else {
        assert(!before.black.has(p));
        assert(before.white.has(p));
        lemma_cells_xor_flip(zt.white@, before.white, after.white, p, 361);
        assert(cells_xor(zt.black@, after.black, 361) == bx) by {
            assert(forall|i: int| #[trigger] after.black.has(i) == before.black.has(i));
            lemma_cells_xor_same(zt.black@, before.black, after.black, 361);
        }
        let k = zt.white@[p];
        assert((bx ^ (wx ^ k) ^ t ^ c0 ^ c1) == ((bx ^ wx ^ t ^ c0 ^ c1) ^ k)) by (bit_vector);
    }
}

/// Changing one color's capture count: the incremental update equals the
/// full hash of the position with the new count.
pub proof fn law_update_capture_count_matches_hash(
    zt: ZobristTable,
    before: Board,
    after: Board,
    color: Stone,
    side: Stone,
)
    requires
        color != Stone::Empty,
        after.same_stones(before),
        color == Stone::Black ==> after.white_captures == before.white_captures,
        color == Stone::White ==> after.black_captures == before.black_captures,
    ensures
        zt.hash_spec(after, side) == zt.hash_spec(before, side) ^ zt.captures[if color
            == Stone::Black {
            0int
        } else {
            1int
        }][cap_slot(before.caps(color))] ^ zt.captures[if color == Stone::Black {
            0int
        } else {
            1int
        }][cap_slot(after.caps(color))],
{
    lemma_cells_xor_same(zt.black@, before.black, after.black, 361);
    lemma_cells_xor_same(zt.white@, before.white, after.white, 361);
    let bx = cells_xor(zt.black@, before.black, 361);
    let wx = cells_xor(zt.white@, before.white, 361);
    let t: u64 = if side == Stone::Black { zt.black_to_move } else { 0 };
    let o0 = zt.captures[0][cap_slot(before.black_captures)];
    let o1 = zt.captures[1][cap_slot(before.white_captures)];
    let n0 = zt.captures[0][cap_slot(after.black_captures)];
    let n1 = zt.captures[1][cap_slot(after.white_captures)];
    if color == Stone::Black {
        assert((bx ^ wx ^ t ^ n0 ^ o1) == ((bx ^ wx ^ t ^ o0 ^ o1) ^ o0 ^ n0)) by (bit_vector);
    } else {
        assert((bx ^ wx ^ t ^ o0 ^ n1) == ((bx ^ wx ^ t ^ o0 ^ o1) ^ o1 ^ n1)) by (bit_vector);
    }
}

/// Bitboards with the same bits fold to the same value.
proof fn lemma_cells_xor_same(keys: Seq<u64>, a: Bitboard, b: Bitboard, n: int)
    requires
        forall|i: int| #[trigger] a.has(i) == b.has(i),
    ensures
        cells_xor(keys, a, n) == cells_xor(keys, b, n),
    decreases n,
{
    if n > 0 {
        lemma_cells_xor_same(keys, a, b, n - 1);
    }
}

/// XOR of `keys[i]` over the cells `i < n` that `ps` lists.
pub open spec fn listed_xor(keys: Seq<u64>, ps: Seq<Pos>, n: int) -> u64
    decreases n,
{
    if n <= 0 {
        0
    } else if seq_has_cell(ps, n - 1) {
        listed_xor(keys, ps, n - 1) ^ keys[n - 1]
    } else {
        listed_xor(keys, ps, n - 1)
    }
}

/// Clearing the listed cells, all set, of a bitboard changes its fold by the
/// fold of the listed cells.
proof fn lemma_cells_xor_clear(keys: Seq<u64>, a: Bitboard, b: Bitboard, ps: Seq<Pos>, n: int)
    requires
        forall|i: int| #[trigger] b.has(i) == (a.has(i) && !seq_has_cell(ps, i)),
        forall|i: int| seq_has_cell(ps, i) ==> #[trigger] a.has(i),
    ensures
        cells_xor(keys, b, n) == cells_xor(keys, a, n) ^ listed_xor(keys, ps, n),
    decreases n,
{
    if n > 0 {
        lemma_cells_xor_clear(keys, a, b, ps, n - 1);
        let i = n - 1;
        let ca = cells_xor(keys, a, n - 1);
        let lx = listed_xor(keys, ps, n - 1);
        let k = keys[i];
        if seq_has_cell(ps, i) {
            assert(a.has(i) && !b.has(i));
            assert(ca ^ lx == (ca ^ k) ^ (lx ^ k)) by (bit_vector);
        } else if a.has(i) {
            assert((ca ^ lx) ^ k == (ca ^ k) ^ lx) by (bit_vector);
        }
    } else {
        lemma_xor_zero(0);
    }
}

/// Listing one more cell, not listed before, adds its key to the fold.
proof fn lemma_listed_xor_push(keys: Seq<u64>, l: Seq<Pos>, x: Pos, n: int)
    requires
        !seq_has_cell(l, x.idx()),
    ensures
        listed_xor(keys, l.push(x), n) == if 0 <= x.idx() < n {
            listed_xor(keys, l, n) ^ keys[x.idx()]
        } else {
            listed_xor(keys, l, n)
        },
    decreases n,
{
    if n > 0 {
        lemma_listed_xor_push(keys, l, x, n - 1);
        let i = n - 1;
        let lp = l.push(x);
        assert(seq_has_cell(lp, i) == (seq_has_cell(l, i) || x.idx() == i)) by {
            if seq_has_cell(l, i) {
                let k = choose|k: int| 0 <= k < l.len() && (#[trigger] l[k]).idx() == i;
                assert(lp[k] == l[k]);
            }
            if x.idx() == i {
                assert(lp[l.len() as int] == x);
            }
            if seq_has_cell(lp, i) {
                let k = choose|k: int| 0 <= k < lp.len() && (#[trigger] lp[k]).idx() == i;
                if k < l.len() {
                    assert(lp[k] == l[k]);
                }
            }
        }
        let lx = listed_xor(keys, l, n - 1);
        let kx = keys[x.idx()];
        let ki = keys[i];
        if x.idx() == i {
            assert(!seq_has_cell(l, i));
        } else if 0 <= x.idx() < n - 1 {
            if seq_has_cell(l, i) {
                assert((lx ^ kx) ^ ki == (lx ^ ki) ^ kx) by (bit_vector);
            }
        }
    }
}

/// For a list of distinct cells, the fold over the listed cells of the board
/// is the fold over the list.
proof fn lemma_listed_xor_list(keys: Seq<u64>, ps: Seq<Pos>)
    requires
        forall|k: int| 0 <= k < ps.len() ==> (#[trigger] ps[k]).valid(),
        forall|a: int, c: int| 0 <= a < c < ps.len() ==> (#[trigger] ps[a]).idx() != (#[trigger] ps[c]).idx(),
    ensures
        listed_xor(keys, ps, 361) == list_xor(keys, ps),
    decreases ps.len(),
{
    if ps.len() == 0 {
        lemma_listed_xor_none(keys, ps, 361);
    } else {
        let l = ps.drop_last();
        let x = ps.last();
        assert(ps =~= l.push(x));
        assert forall|a: int, c: int| 0 <= a < c < l.len() implies (#[trigger] l[a]).idx() != (#[trigger] l[c]).idx() by {
            assert(l[a] == ps[a] && l[c] == ps[c]);
        }
        lemma_listed_xor_list(keys, l);
        assert(!seq_has_cell(l, x.idx())) by {
            if seq_has_cell(l, x.idx()) {
                let k = choose|k: int| 0 <= k < l.len() && (#[trigger] l[k]).idx() == x.idx();
                assert(l[k] == ps[k]);
                assert(ps[k].idx() != ps[ps.len() - 1].idx());
            }
        }
        assert(x.valid());
        lemma_listed_xor_push(keys, l, x, 361);
    }
}

/// Nothing listed folds to zero.
proof fn lemma_listed_xor_none(keys: Seq<u64>, ps: Seq<Pos>, n: int)
    requires
        ps.len() == 0,
    ensures
        listed_xor(keys, ps, n) == 0,
    decreases n,
{
    if n > 0 {
        lemma_listed_xor_none(keys, ps, n - 1);
    }
}

/// Key of capture count `c` of `color` (any color but Black counts as White).
pub open spec fn count_key(zt: ZobristTable, color: Stone, c: u8) -> u64 {
    zt.captures[if color == Stone::Black {
        0int
    } else {
        1int
    }][cap_slot(c)]
}

/// A whole move on an empty cell: the stone placed, the listed captured
/// stones of the opponent removed and the mover's capture count changed. The
/// incremental updates (place with side toggle, one update per captured
/// stone, one for the count) give the full hash of the resulting position
/// with the other side to move.
pub proof fn law_move_matches_hash(
    zt: ZobristTable,
    before: Board,
    mid: Board,
    after: Board,
    pos: Pos,
    color: Stone,
    caps: Seq<Pos>,
    pairs: int,
)
    requires
        zt.wf(),
        before.wf(),
        pos.valid(),
        color == Stone::Black || color == Stone::White,
        before.cell(pos.idx()) == Stone::Empty,
        forall|i: int| #[trigger] mid.black.has(i) == (before.black.has(i) || (color == Stone::Black && i == pos.idx())),
        forall|i: int| #[trigger] mid.white.has(i) == (before.white.has(i) || (color == Stone::White && i == pos.idx())),
        mid.black_captures == before.black_captures,
        mid.white_captures == before.white_captures,
        removal_applied(mid, after, color, caps, pairs),
        forall|k: int| 0 <= k < caps.len() ==> (#[trigger] caps[k]).valid() && mid.cell(caps[k].idx()) == opp(color),
        forall|a: int, c: int| 0 <= a < c < caps.len() ==> (#[trigger] caps[a]).idx() != (#[trigger] caps[c]).idx(),
    ensures
        zt.hash_spec(after, opp(color)) == zt.hash_spec(before, color) ^ zt.stone_key(pos.idx(), color)
            ^ zt.black_to_move ^ list_xor(
            if color == Stone::Black {
                zt.white@
            } else {
                zt.black@
            },
            caps,
        ) ^ count_key(zt, color, before.caps(color)) ^ count_key(zt, color, after.caps(color)),
{
    law_update_place_matches_hash(zt, before, mid, pos, color, color);
    let h_mid = zt.hash_spec(mid, opp(color));
    // The captured cells hold the opponent's stones: set in the opponent's
    // bitboard of `mid`, clear in the mover's.
    assert forall|i: int| seq_has_cell(caps, i) implies !(#[trigger] mid.black.has(i) && mid.white.has(i)) && (if color == Stone::Black {
        mid.white.has(i) && !mid.black.has(i)
    } else {
        mid.black.has(i) && !mid.white.has(i)
    }) by {
        let k = choose|k: int| 0 <= k < caps.len() && (#[trigger] caps[k]).idx() == i;
        assert(mid.cell(caps[k].idx()) == opp(color));
        assert(!(before.black.has(i) && before.white.has(i)));
        if i == pos.idx() {
            assert(!before.black.has(i) && !before.white.has(i));
        }
    }
    let bx = cells_xor(zt.black@, mid.black, 361);
    let wx = cells_xor(zt.white@, mid.white, 361);
    let t = zt.black_to_move;
    let tb: u64 = if opp(color) == Stone::Black { t } else { 0 };
    let c0 = zt.captures[0][cap_slot(mid.black_captures)];
    let c1 = zt.captures[1][cap_slot(mid.white_captures)];
    let a0 = zt.captures[0][cap_slot(after.black_captures)];
    let a1 = zt.captures[1][cap_slot(after.white_captures)];
    if color == Stone::Black {
        lemma_cells_xor_clear(zt.white@, mid.white, after.white, caps, 361);
        assert forall|i: int| #[trigger] after.black.has(i) == mid.black.has(i) by {
            if seq_has_cell(caps, i) {
                assert(!mid.black.has(i));
            }
        }
        lemma_cells_xor_same(zt.black@, after.black, mid.black, 361);
        lemma_listed_xor_list(zt.white@, caps);
        let lx = list_xor(zt.white@, caps);
        assert(zt.hash_spec(after, opp(color)) == bx ^ (wx ^ lx) ^ tb ^ a0 ^ c1);
        assert(h_mid == bx ^ wx ^ tb ^ c0 ^ c1);
        assert(bx ^ (wx ^ lx) ^ tb ^ a0 ^ c1 == (bx ^ wx ^ tb ^ c0 ^ c1) ^ lx ^ c0 ^ a0) by (bit_vector);
    } else {
        lemma_cells_xor_clear(zt.black@, mid.black, after.black, caps, 361);
        assert forall|i: int| #[trigger] after.white.has(i) == mid.white.has(i) by {
            if seq_has_cell(caps, i) {
                assert(!mid.white.has(i));
            }
        }
        lemma_cells_xor_same(zt.white@, after.white, mid.white, 361);
        lemma_listed_xor_list(zt.black@, caps);
        let lx = list_xor(zt.black@, caps);
        assert(zt.hash_spec(after, opp(color)) == (bx ^ lx) ^ wx ^ tb ^ c0 ^ a1);
        assert(h_mid == bx ^ wx ^ tb ^ c0 ^ c1);
        assert((bx ^ lx) ^ wx ^ tb ^ c0 ^ a1 == (bx ^ wx ^ tb ^ c0 ^ c1) ^ lx ^ c1 ^ a1) by (bit_vector);
    }
}

} // verus!
