//! Lock-free transposition table.
//!
//! Each slot stores `(key, data)` in two atomic words, where `data` is a
//! packed entry and `key = hash ^ data`. A probe accepts a slot only when
//! `key ^ data == hash`, so a torn write from another thread reads as a miss.
//! All methods take `&self`, so the table can be shared between threads.
//!
//! What a load returns depends on other threads, so the contracts here state
//! what holds for every pair of words read; the decisions made on those
//! words are the verified functions `probe_slot`, `best_move_slot` and
//! `store_replaces`.
use super::tt::{
    pack_entry, percent, score_usable, slot_index, slot_of, unpack_entry, unpacked, usage_percent,
    EntryType, TTStats, BYTES_PER_MB, MIN_SLOTS,
};
use crate::board::Pos;
use std::sync::atomic::AtomicU64;
use std::sync::atomic::Ordering;
use vstd::prelude::*;

verus! {

/// Bytes of one slot (two 64-bit words).
pub const SLOT_BYTES: usize = 16;

/// What a probe answers for the words `(key, data)` read from a slot: a miss
/// for an empty slot or a hash mismatch; otherwise the score and move when
/// the score is usable at this depth and window, and a miss when it is not.
pub open spec fn probe_packed(
    key: u64,
    data: u64,
    hash: u64,
    depth: i8,
    alpha: i32,
    beta: i32,
) -> Option<(i32, Option<Pos>)> {
    if key == 0 && data == 0 {
        None
    } else if key ^ data != hash {
        None
    } else {
        let (d, s, t, m) = unpacked(data);
        if score_usable(d, s, t, depth, alpha, beta) {
            Some((s, m))
        } else {
            None
        }
    }
}

/// The best move held by the words `(key, data)` for `hash`.
pub open spec fn best_move_packed(key: u64, data: u64, hash: u64) -> Option<Pos> {
    if key == 0 && data == 0 {
        None
    } else if key ^ data != hash {
        None
    } else {
        unpacked(data).3
    }
}

/// Whether a store of `hash` at `depth` overwrites the slot words
/// `(key, data)`: the slot is empty, holds the same position, or holds an
/// entry searched no deeper.
pub open spec fn replaces_packed(key: u64, data: u64, hash: u64, depth: i8) -> bool {
    (key == 0 && data == 0) || key ^ data == hash || depth >= unpacked(data).0
}

/// Decide a probe on the words read from a slot.
pub fn probe_slot(key: u64, data: u64, hash: u64, depth: i8, alpha: i32, beta: i32) -> (r: Option<
    (i32, Option<Pos>),
>)
    ensures
        r == probe_packed(key, data, hash, depth, alpha, beta),
        r matches Some((s, _)) ==> -1_048_576 <= s <= 1_048_575,
{
    if key == 0 && data == 0 {
        return None;
    }
    if key ^ data != hash {
        return None;
    }
    let (entry_depth, score, entry_type, best_move) = unpack_entry(data);
    if entry_depth >= depth {
        match entry_type {
            EntryType::Exact => {
                return Some((score, best_move));
            },
            EntryType::LowerBound => {
                if score >= beta {
                    return Some((score, best_move));
                }
            },
            EntryType::UpperBound => {
                if score <= alpha {
                    return Some((score, best_move));
                }
            },
        }
    }
    None
}

/// Read the best move from the words of a slot.
pub fn best_move_slot(key: u64, data: u64, hash: u64) -> (m: Option<Pos>)
    ensures
        m == best_move_packed(key, data, hash),
{
    if key == 0 && data == 0 {
        return None;
    }
    if key ^ data != hash {
        return None;
    }
    let (_depth, _score, _entry_type, best_move) = unpack_entry(data);
    best_move
}

/// Decide whether a store overwrites the words of a slot.
pub fn store_replaces(key: u64, data: u64, hash: u64, depth: i8) -> (b: bool)
    ensures
        b == replaces_packed(key, data, hash, depth),
{
    if data != 0 || key != 0 {
        let existing_hash = key ^ data;
        if existing_hash != hash {
            let (existing_depth, _, _, _) = unpack_entry(data);
            if depth < existing_depth {
                return false;
            }
        }
    }
    true
}

/// Lock-free transposition table for shared use between search threads.
pub struct AtomicTT {
    /// `hash ^ data` of each slot.
    pub keys: Vec<AtomicU64>,
    /// Packed entry of each slot.
    pub data: Vec<AtomicU64>,
    /// Number of slots.
    pub size: usize,
}

impl AtomicTT {
    /// Both word vectors have `size` slots; there is at least one slot.
    pub open spec fn wf(self) -> bool {
        &&& self.keys@.len() == self.size
        &&& self.data@.len() == self.size
        &&& 0 < self.size <= usize::MAX / SLOT_BYTES
    }

    /// Slot count of a table of `size_mb` megabytes.
    pub open spec fn slots_for(size_mb: usize) -> int {
        let n = (size_mb * BYTES_PER_MB) / (SLOT_BYTES as int);
        if n < MIN_SLOTS {
            MIN_SLOTS as int
        } else {
            n
        }
    }

    /// Create a table of `size_mb` megabytes (16 bytes per slot), with at
    /// least 1024 slots, all empty.
    pub fn new(size_mb: usize) -> (tt: AtomicTT)
        requires
            size_mb * BYTES_PER_MB <= usize::MAX,
        ensures
            tt.wf(),
            tt.size == Self::slots_for(size_mb),
    {
        let n = (size_mb * BYTES_PER_MB) / SLOT_BYTES;
        let size = if n < MIN_SLOTS { MIN_SLOTS } else { n };
        let mut keys: Vec<AtomicU64> = Vec::new();
        let mut data: Vec<AtomicU64> = Vec::new();
        let mut i: usize = 0;
        while i < size
            invariant
                0 <= i <= size,
                keys@.len() == i,
                data@.len() == i,
            decreases size - i,
        {
            keys.push(AtomicU64::new(0));
            data.push(AtomicU64::new(0));
            i = i + 1;
        }
        AtomicTT { keys, data, size }
    }

    /// Read the two words of slot `i`.
    fn load_slot(&self, i: usize) -> (kd: (u64, u64))
        requires
            self.wf(),
            i < self.size,
    {
        let key = self.keys[i].load(Ordering::Relaxed);
        let raw = self.data[i].load(Ordering::Relaxed);
        (key, raw)
    }

    /// Write the two words of slot `i`: data first, then key.
    fn write_slot(&self, i: usize, key: u64, raw: u64)
        requires
            self.wf(),
            i < self.size,
    {
        self.data[i].store(raw, Ordering::Relaxed);
        self.keys[i].store(key, Ordering::Relaxed);
    }

    /// Probe the table for a position.
    ///
    /// The answer is `probe_packed` of the words found in the slot of `hash`:
    /// a score is returned only when it is usable at this depth and window.
    pub fn probe(&self, hash: u64, depth: i8, alpha: i32, beta: i32) -> (r: Option<
        (i32, Option<Pos>),
    >)
        requires
            self.wf(),
        ensures
            exists|k: u64, d: u64| r == #[trigger] probe_packed(k, d, hash, depth, alpha, beta),
            r matches Some((s, _)) ==> -1_048_576 <= s <= 1_048_575,
    {
        let idx = slot_index(hash, self.size);
        let (key, raw) = self.load_slot(idx);
        probe_slot(key, raw, hash, depth, alpha, beta)
    }

    /// Best move stored for a position, for move ordering.
    pub fn get_best_move(&self, hash: u64) -> (m: Option<Pos>)
        requires
            self.wf(),
        ensures
            exists|k: u64, d: u64| m == #[trigger] best_move_packed(k, d, hash),
    {
        let idx = slot_index(hash, self.size);
        let (key, raw) = self.load_slot(idx);
        best_move_slot(key, raw, hash)
    }

    /// Store a search result in the slot of `hash`, replacing what is there
    /// when `store_replaces` decides so on the words read from the slot.
    pub fn store(&self, hash: u64, depth: i8, score: i32, entry_type: EntryType, best_move: Option<Pos>)
        requires
            self.wf(),
    {
        let idx = slot_index(hash, self.size);
        let (existing_key, existing_data) = self.load_slot(idx);
        if !store_replaces(existing_key, existing_data, hash, depth) {
            return;
        }
        let packed = pack_entry(depth, score, entry_type, best_move);
        self.write_slot(idx, hash ^ packed, packed);
    }

    /// Empty every slot.
    pub fn clear(&self)
        requires
            self.wf(),
    {
        let mut i: usize = 0;
        while i < self.size
            invariant
                self.wf(),
                0 <= i <= self.size,
            decreases self.size - i,
        {
            self.write_slot(i, 0, 0);
            i = i + 1;
        }
    }

    /// Usage statistics. Tables above 65536 slots are sampled every 64th
    /// slot and the count of occupied slots is extrapolated; the words read
    /// are counted by `tally_slots`.
    pub fn stats(&self) -> (st: TTStats)
        requires
            self.wf(),
        ensures
            st.size == self.size,
            st.used <= self.size,
            st.usage_percent == percent(st.used as int, self.size as int),
            exists|w: Seq<(u64, u64)>|
                #[trigger] tally_spec(w, self.size as int, sampled_table(self.size as int)) == st && (
                !sampled_table(self.size as int) ==> w.len() == self.size),
    {
        let step: usize = if self.size > 65536 { 64 } else { 1 };
        let mut words: Vec<(u64, u64)> = Vec::new();
        let mut i: usize = 0;
        while i < self.size
            invariant
                self.wf(),
                step == 1 || step == 64,
                step == 1 <==> self.size <= 65536,
                words.len() <= i,
                i <= self.size + 63,
                step == 1 ==> words.len() == i && i <= self.size,
                i > 0 ==> words.len() > 0,
            decreases self.size + 64 - i,
        {
            let (k, d) = self.load_slot(i);
            words.push((k, d));
            i = i + step;
        }
        let st = tally_slots(&words, self.size, step > 1);
        assert(tally_spec(words@, self.size as int, sampled_table(self.size as int)) == st);
        st
    }
}

/// Tables above 65536 slots are sampled for their statistics.
pub open spec fn sampled_table(size: int) -> bool {
    size > 65536
}

/// Number of occupied slots (some word nonzero) among the first `n` pairs
/// of words read.
pub open spec fn occupied_upto(words: Seq<(u64, u64)>, n: int) -> int
    decreases n,
{
    if n <= 0 {
        0
    } else {
        occupied_upto(words, n - 1) + if words[n - 1].0 != 0 || words[n - 1].1 != 0 {
            1int
        } else {
            0int
        }
    }
}

/// The statistics of a table of `size` slots from the words read: the count
/// of occupied slots, extrapolated to the whole table when the words are a
/// sample.
pub open spec fn tally_spec(words: Seq<(u64, u64)>, size: int, sampled: bool) -> TTStats {
    let occ = occupied_upto(words, words.len() as int);
    let used = if sampled && words.len() > 0 {
        occ * size / (words.len() as int)
    } else if occ <= size {
        occ
    } else {
        size
    };
    TTStats { size: size as usize, used: used as usize, usage_percent: percent(used, size) as u8 }
}

proof fn lemma_occupied_bound(words: Seq<(u64, u64)>, n: int)
    requires
        0 <= n <= words.len(),
    ensures
        0 <= occupied_upto(words, n) <= n,
    decreases n,
{
    if n > 0 {
        lemma_occupied_bound(words, n - 1);
    }
}

/// Count the occupied slots among the words read from a table of `size`
/// slots; `sampled` when the words are a sample of the slots.
pub fn tally_slots(words: &Vec<(u64, u64)>, size: usize, sampled: bool) -> (st: TTStats)
    requires
        size > 0,
        !sampled ==> words.len() <= size,
    ensures
        st == tally_spec(words@, size as int, sampled),
        st.size == size,
        st.used <= size,
        st.usage_percent == percent(st.used as int, size as int),
{
    let mut used: usize = 0;
    let mut i: usize = 0;
    while i < words.len()
        invariant
            0 <= i <= words.len(),
            used == occupied_upto(words@, i as int),
            used <= i,
        decreases words.len() - i,
    {
        let (k, d) = words[i];
        if k != 0 || d != 0 {
            used = used + 1;
        }
        i = i + 1;
    }
    proof {
        lemma_occupied_bound(words@, words@.len() as int);
    }
    let estimated_used = if sampled && words.len() > 0 {
        scale_count(used, size, words.len())
    } else if used <= size {
        used
    } else {
        size
    };
    let pct = usage_percent(estimated_used, size);
    TTStats { size, used: estimated_used, usage_percent: pct }
}

/// `used * size / sampled`, for `used <= sampled`; at most `size`.
fn scale_count(used: usize, size: usize, sampled: usize) -> (n: usize)
    requires
        used <= sampled,
        sampled > 0,
    ensures
        n as int == (used as int) * (size as int) / (sampled as int),
        n <= size,
{
    let u = used as u128;
    let z = size as u128;
    let s = sampled as u128;
    assert(u * z <= 0xFFFF_FFFF_FFFF_FFFF * 0xFFFF_FFFF_FFFF_FFFF) by (nonlinear_arith)
        requires
            u <= 0xFFFF_FFFF_FFFF_FFFF,
            z <= 0xFFFF_FFFF_FFFF_FFFF,
    ;
    assert(u * z <= s * z) by (nonlinear_arith)
        requires
            u <= s,
    ;
    assert((u * z) as int / (s as int) <= z as int) by (nonlinear_arith)
        requires
            u * z <= s * z,
            s > 0,
    ;
    ((u * z) / s) as usize
}

} // verus!
