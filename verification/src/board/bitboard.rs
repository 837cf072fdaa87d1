//! Bitboard: one bit per cell, 6 x u64 words (384 bits >= 361 cells).
use super::{Pos, TOTAL_CELLS};
use vstd::prelude::*;

verus! {

/// Bit `b` of the word `w`.
pub open spec fn word_bit(w: u64, b: int) -> bool {
    (w >> (b as u64)) & 1u64 == 1u64
}

/// Number of set bits of a word.
pub open spec fn pop(w: u64) -> nat
    decreases w,
{
    if w == 0 {
        0
    } else {
        (w % 2) as nat + pop(w / 2)
    }
}

proof fn lemma_set_bit(w: u64, b: u64, k: u64)
    requires
        b < 64,
        k < 64,
    ensures
        ((w | (1u64 << b)) >> k) & 1u64 == 1u64 <==> (k == b || (w >> k) & 1u64 == 1u64),
{
    assert(((w | (1u64 << b)) >> k) & 1u64 == 1u64 <==> (k == b || (w >> k) & 1u64 == 1u64))
        by (bit_vector)
        requires
            b < 64,
            k < 64,
    ;
}

proof fn lemma_clear_bit(w: u64, b: u64, k: u64)
    requires
        b < 64,
        k < 64,
    ensures
        ((w & !(1u64 << b)) >> k) & 1u64 == 1u64 <==> (k != b && (w >> k) & 1u64 == 1u64),
{
    assert(((w & !(1u64 << b)) >> k) & 1u64 == 1u64 <==> (k != b && (w >> k) & 1u64 == 1u64))
        by (bit_vector)
        requires
            b < 64,
            k < 64,
    ;
}

proof fn lemma_zero_word(k: u64)
    requires
        k < 64,
    ensures
        (0u64 >> k) & 1u64 == 0u64,
{
    assert((0u64 >> k) & 1u64 == 0u64) by (bit_vector);
}

proof fn lemma_shift_step(w: u64)
    ensures
        w & 1u64 == w % 2,
        w >> 1u64 == w / 2,
{
    assert(w & 1u64 == w % 2) by (bit_vector);
    assert(w >> 1u64 == w / 2) by (bit_vector);
}

/// Two words with the same bits are the same word.
proof fn lemma_word_ext(x: u64, y: u64)
    requires
        forall|b: int| 0 <= b < 64 ==> #[trigger] word_bit(x, b) == word_bit(y, b),
    ensures
        x == y,
{
    if x != y {
        assert(x != y ==> x ^ y != 0u64) by (bit_vector);
        lemma_nonzero_has_bit(x ^ y);
        let b = choose|b: int| 0 <= b < 64 && #[trigger] word_bit(x ^ y, b);
        let bb = b as u64;
        assert(((x ^ y) >> bb) & 1u64 == 1u64 ==> (((x >> bb) & 1u64 == 1u64) != ((y >> bb) & 1u64
            == 1u64))) by (bit_vector)
            requires
                bb < 64,
        ;
        assert(word_bit(x, b) == word_bit(y, b));
    }
}

/// A word with a set bit is nonzero, and a nonzero word has a set bit.
proof fn lemma_nonzero_has_bit(w: u64)
    requires
        w != 0,
    ensures
        exists|b: int| 0 <= b < 64 && #[trigger] word_bit(w, b),
    decreases w,
{
    if w & 1u64 == 1u64 {
        assert((w >> 0u64) & 1u64 == w & 1u64) by (bit_vector);
        assert(word_bit(w, 0));
    } else {
        let v = w >> 1u64;
        assert(w & 1u64 != 1u64 && w != 0 ==> w >> 1u64 != 0 && w >> 1u64 < w) by (bit_vector);
        lemma_nonzero_has_bit(v);
        let b = choose|b: int| 0 <= b < 64 && #[trigger] word_bit(v, b);
        let bb = b as u64;
        assert(bb < 64);
        if bb == 63 {
            assert((w >> 1u64) >> 63u64 == 0u64) by (bit_vector);
            assert(((w >> 1u64) >> 63u64) & 1u64 == 0u64) by (bit_vector)
                requires
                    (w >> 1u64) >> 63u64 == 0u64,
            ;
            assert(false);
        }
        assert((w >> 1u64) >> bb == w >> ((bb + 1) as u64)) by (bit_vector)
            requires
                bb < 63,
        ;
        assert(word_bit(w, b + 1));
    }
}

/// Number of set bits of `w` among its first `k` bits.
pub open spec fn bits_below(w: u64, k: int) -> nat
    decreases k,
{
    if k <= 0 {
        0
    } else {
        bits_below(w, k - 1) + if word_bit(w, k - 1) {
            1nat
        } else {
            0nat
        }
    }
}

/// Counting the first `k + 1` bits is the low bit and the first `k` bits of
/// the word shifted right.
proof fn lemma_bits_below_shift(w: u64, k: int)
    requires
        0 <= k <= 63,
    ensures
        bits_below(w, k + 1) == (if word_bit(w, 0) {
            1nat
        } else {
            0nat
        }) + bits_below(w >> 1u64, k),
    decreases k,
{
    if k > 0 {
        lemma_bits_below_shift(w, k - 1);
        let kk = (k - 1) as u64;
        assert(((w >> 1u64) >> kk) & 1u64 == (w >> (kk + 1)) & 1u64) by (bit_vector)
            requires
                kk < 63,
        ;
        assert((k as u64) == kk + 1);
        assert(word_bit(w >> 1u64, k - 1) == word_bit(w, k));
        assert(bits_below(w, k + 1) == bits_below(w, k) + if word_bit(w, k) {
            1nat
        } else {
            0nat
        });
        assert(bits_below(w >> 1u64, k) == bits_below(w >> 1u64, k - 1) + if word_bit(w >> 1u64, k - 1) {
            1nat
        } else {
            0nat
        });
    } else {
        assert(bits_below(w, 0) == 0);
        assert(bits_below(w >> 1u64, 0) == 0);
        assert(bits_below(w, 1) == bits_below(w, 0) + if word_bit(w, 0) {
            1nat
        } else {
            0nat
        });
    }
}

/// The count of the set bits of a word is `pop`.
proof fn lemma_pop_bits(w: u64)
    ensures
        pop(w) == bits_below(w, 64),
    decreases w,
{
    if w == 0 {
        lemma_bits_below_zero(64);
    } else {
        lemma_shift_step(w);
        lemma_pop_bits(w / 2);
        lemma_bits_below_shift(w, 63);
        assert(((w >> 1u64) >> 63u64) & 1u64 == 0u64) by (bit_vector);
        assert(w & 1u64 == 1u64 <==> (w >> 0u64) & 1u64 == 1u64) by (bit_vector);
    }
}

/// A zero word has no set bit.
proof fn lemma_bits_below_zero(k: int)
    requires
        k <= 64,
    ensures
        bits_below(0u64, k) == 0,
    decreases k,
{
    if k > 0 {
        lemma_bits_below_zero(k - 1);
        lemma_zero_word((k - 1) as u64);
    }
}

/// Bitboard representation for fast pattern matching.
/// Uses 6 x u64 to represent 361 cells (6 * 64 = 384 >= 361).
#[derive(Debug, Clone, Copy, PartialEq, Eq, Default)]
pub struct Bitboard {
    bits: [u64; 6],
}

impl Bitboard {
    /// Whether bit `i` (a cell index below 384) is set.
    pub closed spec fn has(self, i: int) -> bool {
        0 <= i < 384 && word_bit(self.bits[i / 64], i % 64)
    }

    /// Number of set bits.
    pub closed spec fn popcount(self) -> nat {
        pop(self.bits[0]) + pop(self.bits[1]) + pop(self.bits[2]) + pop(self.bits[3]) + pop(
            self.bits[4],
        ) + pop(self.bits[5])
    }

    /// No bit is set.
    pub open spec fn empty_spec(self) -> bool {
        forall|i: int| 0 <= i < 384 ==> !#[trigger] self.has(i)
    }

    /// Only the first `TOTAL_CELLS` bits can be set.
    pub open spec fn within_board(self) -> bool {
        forall|i: int| 361 <= i < 384 ==> !#[trigger] self.has(i)
    }

    /// Bitboards with the same set bits are equal.
    pub proof fn lemma_ext(a: Bitboard, b: Bitboard)
        requires
            forall|i: int| #[trigger] a.has(i) == b.has(i),
        ensures
            a == b,
    {
        assert forall|w: int| 0 <= w < 6 implies a.bits[w] == b.bits[w] by {
            assert forall|k: int| 0 <= k < 64 implies #[trigger] word_bit(a.bits[w], k) == word_bit(
                b.bits[w],
                k,
            ) by {
                let i = w * 64 + k;
                assert(i / 64 == w && i % 64 == k);
                assert(a.has(i) == b.has(i));
            }
            lemma_word_ext(a.bits[w], b.bits[w]);
        }
        assert(a.bits =~= b.bits);
    }

    /// Bits outside `0..384` are never set.
    pub proof fn lemma_has_range(bb: Bitboard, i: int)
        ensures
            !(0 <= i < 384) ==> !bb.has(i),
    {
    }

    /// At most 384 bits are set.
    pub proof fn lemma_popcount_bound(bb: Bitboard)
        ensures
            bb.popcount() <= 384,
    {
        lemma_pop_bound(bb.bits[0]);
        lemma_pop_bound(bb.bits[1]);
        lemma_pop_bound(bb.bits[2]);
        lemma_pop_bound(bb.bits[3]);
        lemma_pop_bound(bb.bits[4]);
        lemma_pop_bound(bb.bits[5]);
    }

    /// Positions of the set bits below `n`, in increasing index order.
    pub open spec fn ones_upto(self, n: int) -> Seq<Pos>
        decreases n,
    {
        if n <= 0 {
            Seq::empty()
        } else if self.has(n - 1) {
            self.ones_upto(n - 1).push(Pos { row: ((n - 1) / 19) as u8, col: ((n - 1) % 19) as u8 })
        } else {
            self.ones_upto(n - 1)
        }
    }

    /// Positions of the set bits on the board, in increasing index order.
    pub open spec fn ones(self) -> Seq<Pos> {
        self.ones_upto(361)
    }

    /// `ones_upto` has at most `n` entries.
    pub proof fn lemma_ones_len(bb: Bitboard, n: int)
        requires
            0 <= n,
        ensures
            bb.ones_upto(n).len() <= n,
        decreases n,
    {
        if n > 0 {
            Bitboard::lemma_ones_len(bb, n - 1);
        }
    }

    /// A range without set bits adds nothing to `ones_upto`.
    proof fn lemma_ones_skip(bb: Bitboard, i: int, n: int)
        requires
            0 <= i <= n,
            forall|j: int| i <= j < n ==> !#[trigger] bb.has(j),
        ensures
            bb.ones_upto(n) == bb.ones_upto(i),
        decreases n - i,
    {
        if n > i {
            Bitboard::lemma_ones_skip(bb, i, n - 1);
        }
    }

    /// The set bits below `64 w + k` are those below `64 w` and the first
    /// `k` bits of word `w`.
    proof fn lemma_ones_word(bb: Bitboard, w: int, k: int)
        requires
            0 <= w < 6,
            0 <= k <= 64,
        ensures
            bb.ones_upto(64 * w + k).len() == bb.ones_upto(64 * w).len() + bits_below(bb.bits[w], k),
        decreases k,
    {
        if k > 0 {
            Bitboard::lemma_ones_word(bb, w, k - 1);
            let i = 64 * w + k - 1;
            assert(i / 64 == w && i % 64 == k - 1);
        }
    }

    /// `popcount` counts the set bits.
    pub proof fn lemma_popcount_ones(bb: Bitboard)
        ensures
            bb.ones_upto(384).len() == bb.popcount(),
    {
        Bitboard::lemma_ones_word(bb, 0, 64);
        Bitboard::lemma_ones_word(bb, 1, 64);
        Bitboard::lemma_ones_word(bb, 2, 64);
        Bitboard::lemma_ones_word(bb, 3, 64);
        Bitboard::lemma_ones_word(bb, 4, 64);
        Bitboard::lemma_ones_word(bb, 5, 64);
        lemma_pop_bits(bb.bits[0]);
        lemma_pop_bits(bb.bits[1]);
        lemma_pop_bits(bb.bits[2]);
        lemma_pop_bits(bb.bits[3]);
        lemma_pop_bits(bb.bits[4]);
        lemma_pop_bits(bb.bits[5]);
        assert(bb.ones_upto(0).len() == 0);
    }

    /// On a bitboard with no bit past the last cell, the set cells number
    /// `popcount`.
    pub proof fn lemma_ones_count(bb: Bitboard)
        requires
            bb.within_board(),
        ensures
            bb.ones().len() == bb.popcount(),
    {
        Bitboard::lemma_popcount_ones(bb);
        Bitboard::lemma_ones_skip(bb, 361, 384);
    }

    /// Two bitboards that differ in bit `p` alone differ by one in the count
    /// of their set bits below `n` when `p < n`.
    proof fn lemma_ones_flip(a: Bitboard, b: Bitboard, p: int, n: int)
        requires
            0 <= p < 384,
            0 <= n,
            forall|i: int| i != p ==> #[trigger] a.has(i) == b.has(i),
            !a.has(p),
            b.has(p),
        ensures
            b.ones_upto(n).len() == a.ones_upto(n).len() + if p < n {
                1int
            } else {
                0int
            },
        decreases n,
    {
        if n > 0 {
            Bitboard::lemma_ones_flip(a, b, p, n - 1);
        }
    }

    /// Create empty bitboard.
    pub fn new() -> (bb: Bitboard)
        ensures
            bb.empty_spec(),
            bb.popcount() == 0,
    {
        let bb = Bitboard { bits: [0u64; 6] };
        proof {
            assert forall|i: int| 0 <= i < 384 implies !#[trigger] bb.has(i) by {
                assert(bb.bits[i / 64] == 0u64);
                lemma_zero_word((i % 64) as u64);
            }
        }
        bb
    }

    /// Set the bit of a position.
    pub fn set(&mut self, pos: Pos)
        requires
            pos.idx() < 384,
        ensures
            forall|i: int| #[trigger] final(self).has(i) == (i == pos.idx() || old(self).has(i)),
            final(self).popcount() == old(self).popcount() + if old(self).has(pos.idx()) {
                0int
            } else {
                1int
            },
    {
        let idx = pos.to_index();
        let word = idx / 64;
        let bit = idx % 64;
        let ghost old_bb = *self;
        self.bits[word] = self.bits[word] | (1u64 << (bit as u64));
        proof {
            assert forall|i: int| #[trigger] self.has(i) == (i == pos.idx() || old_bb.has(i)) by {
                if 0 <= i < 384 {
                    if i / 64 == word as int {
                        lemma_set_bit(old_bb.bits[word as int], bit as u64, (i % 64) as u64);
                    } else {
                        assert(self.bits[i / 64] == old_bb.bits[i / 64]);
                    }
                }
            }
            Bitboard::lemma_popcount_ones(old_bb);
            Bitboard::lemma_popcount_ones(*self);
            if !old_bb.has(pos.idx()) {
                Bitboard::lemma_ones_flip(old_bb, *self, pos.idx(), 384);
            } else {
                Bitboard::lemma_ext(old_bb, *self);
            }
        }
    }

    /// Clear the bit of a position.
    pub fn clear(&mut self, pos: Pos)
        requires
            pos.idx() < 384,
        ensures
            forall|i: int| #[trigger] final(self).has(i) == (i != pos.idx() && old(self).has(i)),
            final(self).popcount() == old(self).popcount() - if old(self).has(pos.idx()) {
                1int
            } else {
                0int
            },
    {
        let idx = pos.to_index();
        let word = idx / 64;
        let bit = idx % 64;
        let ghost old_bb = *self;
        self.bits[word] = self.bits[word] & !(1u64 << (bit as u64));
        proof {
            assert forall|i: int| #[trigger] self.has(i) == (i != pos.idx() && old_bb.has(i)) by {
                if 0 <= i < 384 {
                    if i / 64 == word as int {
                        lemma_clear_bit(old_bb.bits[word as int], bit as u64, (i % 64) as u64);
                    } else {
                        assert(self.bits[i / 64] == old_bb.bits[i / 64]);
                    }
                }
            }
            Bitboard::lemma_popcount_ones(old_bb);
            Bitboard::lemma_popcount_ones(*self);
            if old_bb.has(pos.idx()) {
                Bitboard::lemma_ones_flip(*self, old_bb, pos.idx(), 384);
            } else {
                Bitboard::lemma_ext(old_bb, *self);
            }
        }
    }

    /// Check if the bit of a position is set.
    pub fn get(&self, pos: Pos) -> (b: bool)
        requires
            pos.idx() < 384,
        ensures
            b == self.has(pos.idx()),
    {
        let idx = pos.to_index();
        let word = idx / 64;
        let bit = idx % 64;
        (self.bits[word] >> (bit as u64)) & 1 == 1
    }

    /// Whether bit `idx` is set, for a cell index.
    pub fn get_index(&self, idx: usize) -> (b: bool)
        requires
            idx < 384,
        ensures
            b == self.has(idx as int),
    {
        let word = idx / 64;
        let bit = idx % 64;
        (self.bits[word] >> (bit as u64)) & 1 == 1
    }

    /// Count total set bits (popcount).
    pub fn count(&self) -> (n: u32)
        ensures
            n == self.popcount(),
    {
        let mut total: u32 = 0;
        let mut w: usize = 0;
        while w < 6
            invariant
                0 <= w <= 6,
                total <= 64 * w,
                total == (if w > 0 {
                    pop(self.bits[0])
                } else {
                    0
                }) + (if w > 1 {
                    pop(self.bits[1])
                } else {
                    0
                }) + (if w > 2 {
                    pop(self.bits[2])
                } else {
                    0
                }) + (if w > 3 {
                    pop(self.bits[3])
                } else {
                    0
                }) + (if w > 4 {
                    pop(self.bits[4])
                } else {
                    0
                }) + (if w > 5 {
                    pop(self.bits[5])
                } else {
                    0
                }),
            decreases 6 - w,
        {
            let c = word_popcount(self.bits[w]);
            total = total + c;
            w = w + 1;
        }
        total
    }

    /// Check if no bit is set.
    pub fn is_empty(&self) -> (b: bool)
        ensures
            b == self.empty_spec(),
    {
        let mut w: usize = 0;
        while w < 6
            invariant
                0 <= w <= 6,
                forall|k: int| 0 <= k < w ==> self.bits[k] == 0u64,
            decreases 6 - w,
        {
            if self.bits[w] != 0 {
                proof {
                    lemma_nonzero_has_bit(self.bits[w as int]);
                    let b = choose|b: int| 0 <= b < 64 && #[trigger] word_bit(self.bits[w as int], b);
                    let i = w as int * 64 + b;
                    assert(i / 64 == w as int);
                    assert(i % 64 == b);
                    assert(self.has(i));
                }
                return false;
            }
            w = w + 1;
        }
        proof {
            assert forall|i: int| 0 <= i < 384 implies !#[trigger] self.has(i) by {
                assert(self.bits[i / 64] == 0u64);
                lemma_zero_word((i % 64) as u64);
            }
        }
        true
    }

    /// Positions of the set bits below `TOTAL_CELLS`, in increasing index order.
    pub fn iter_ones(&self) -> (v: Vec<Pos>)
        ensures
            forall|k: int| 0 <= k < v.len() ==> (#[trigger] v[k]).valid() && self.has(v[k].idx()),
            forall|i: int| 0 <= i < 361 && self.has(i) ==> exists|k: int|
                0 <= k < v.len() && (#[trigger] v[k]).idx() == i,
            forall|k1: int, k2: int|
                0 <= k1 < k2 < v.len() ==> (#[trigger] v[k1]).idx() < (#[trigger] v[k2]).idx(),
            v@ == self.ones(),
            self.within_board() ==> v.len() == self.popcount(),
            v.len() <= 361,
    {
        let mut v: Vec<Pos> = Vec::new();
        let mut i: usize = 0;
        while i < TOTAL_CELLS
            invariant
                0 <= i <= 361,
                forall|k: int| 0 <= k < v.len() ==> (#[trigger] v[k]).valid() && self.has(v[k].idx())
                    && v[k].idx() < i,
                forall|j: int| 0 <= j < i && self.has(j) ==> exists|k: int|
                    0 <= k < v.len() && (#[trigger] v[k]).idx() == j,
                forall|k1: int, k2: int|
                    0 <= k1 < k2 < v.len() ==> (#[trigger] v[k1]).idx() < (#[trigger] v[k2]).idx(),
                v@ == self.ones_upto(i as int),
            decreases 361 - i,
        {
            let word = i / 64;
            if self.bits[word] == 0 {
                // Skip to the next word: none of its bits is set.
                let next = if (word + 1) * 64 < TOTAL_CELLS {
                    (word + 1) * 64
                } else {
                    TOTAL_CELLS
                };
                proof {
                    assert forall|j: int| i <= j < next implies !#[trigger] self.has(j) by {
                        assert(j / 64 == word as int);
                        lemma_zero_word((j % 64) as u64);
                    }
                    Bitboard::lemma_ones_skip(*self, i as int, next as int);
                }
                i = next;
            } else {
                if self.get_index(i) {
                    let p = Pos::from_index(i);
                    let ghost old_v = v@;
                    v.push(p);
                    proof {
                        let n = old_v.len();
                        assert(v@ =~= self.ones_upto(i as int + 1));
                        assert(v[n as int].idx() == i);
                        assert forall|j: int| 0 <= j < i + 1 && self.has(j) implies exists|k: int|
                            0 <= k < v.len() && (#[trigger] v[k]).idx() == j by {
                            if j == i {
                                assert(v[n as int].idx() == j);
                            } else {
                                let k = choose|k: int|
                                    0 <= k < old_v.len() && (#[trigger] old_v[k]).idx() == j;
                                assert(v[k] == old_v[k]);
                            }
                        }
                    }
                }
                i = i + 1;
            }
        }
        proof {
            Bitboard::lemma_ones_len(*self, 361);
            if self.within_board() {
                Bitboard::lemma_ones_count(*self);
            }
        }
        v
    }
}

/// Number of set bits of a word.
fn word_popcount(w: u64) -> (n: u32)
    ensures
        n == pop(w),
        n <= 64,
{
    let mut x = w;
    let mut n: u32 = 0;
    proof {
        lemma_pop_bound(w);
    }
    while x != 0
        invariant
            n + pop(x) == pop(w),
            pop(w) <= 64,
        decreases x,
    {
        proof {
            lemma_shift_step(x);
        }
        let low = (x & 1) as u32;
        x = x >> 1;
        n = n + low;
    }
    n
}

proof fn lemma_pop_bound_n(w: u64, n: nat)
    requires
        (w as int) < vstd::arithmetic::power2::pow2(n),
    ensures
        pop(w) <= n,
    decreases n,
{
    vstd::arithmetic::power2::lemma_pow2_pos(n);
    if w == 0 {
    } else {
        if n == 0 {
            vstd::arithmetic::power2::lemma2_to64();
            assert(false);
        } else {
            vstd::arithmetic::power2::lemma_pow2_unfold(n);
            lemma_pop_bound_n(w / 2, (n - 1) as nat);
        }
    }
}

proof fn lemma_pop_bound(w: u64)
    ensures
        pop(w) <= 64,
{
    vstd::arithmetic::power2::lemma2_to64();
    vstd::arithmetic::power2::lemma2_to64_rest();
    lemma_pop_bound_n(w, 64);
}

/// The set cells of a bitboard, handed out one at a time in increasing cell
/// order.
pub struct BitboardIter {
    cells: Vec<Pos>,
    next: usize,
}

impl BitboardIter {
    /// The cells still to come.
    pub closed spec fn rest(self) -> Seq<Pos> {
        self.cells@.subrange(self.next as int, self.cells@.len() as int)
    }

    /// Well formed: the position is within the list.
    pub closed spec fn wf(self) -> bool {
        self.next <= self.cells@.len()
    }

    /// An iterator over the set cells of `bb`.
    pub fn new(bb: &Bitboard) -> (it: BitboardIter)
        ensures
            it.wf(),
            it.rest() == bb.ones(),
    {
        let cells = bb.iter_ones();
        let it = BitboardIter { cells, next: 0 };
        proof {
            assert(it.cells@.subrange(0, it.cells@.len() as int) =~= it.cells@);
        }
        it
    }

    /// The next set cell, if any.
    pub fn next(&mut self) -> (r: Option<Pos>)
        requires
            old(self).wf(),
        ensures
            final(self).wf(),
            old(self).rest().len() == 0 ==> r.is_none() && final(self).rest() == old(self).rest(),
            old(self).rest().len() > 0 ==> r == Some(old(self).rest()[0]) && final(self).rest()
                == old(self).rest().drop_first(),
    {
        if self.next < self.cells.len() {
            let p = self.cells[self.next];
            self.next = self.next + 1;
            proof {
                assert(self.rest() =~= old(self).rest().drop_first());
            }
            Some(p)
        } else {
            None
        }
    }
}

} // verus!
