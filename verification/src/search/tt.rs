//! Transposition tables: search results cached by position hash.
//!
//! `TranspositionTable` holds one optional entry per slot; the slot of a
//! hash is the hash modulo the table size. `AtomicTT` (in `atomic_tt`) keeps
//! the same information packed into 64-bit words.
use crate::board::Pos;
use vstd::prelude::*;

verus! {

/// How a stored score bounds the true score.
#[derive(Debug, Clone, Copy, PartialEq, Eq, Structural)]
pub enum EntryType {
    /// Exact score: the search completed normally.
    Exact,
    /// Lower bound: the score is at least the stored value (beta cutoff).
    LowerBound,
    /// Upper bound: the score is at most the stored value (alpha fail-low).
    UpperBound,
}

/// Transposition table entry.
#[derive(Debug, Clone, Copy)]
pub struct TTEntry {
    /// Zobrist hash of the position.
    pub hash: u64,
    /// Search depth of this entry.
    pub depth: i8,
    /// Evaluation score.
    pub score: i32,
    /// How the score bounds the true score.
    pub entry_type: EntryType,
    /// Best move found for the position.
    pub best_move: Option<Pos>,
}

/// Statistics about table usage.
#[derive(Debug, Clone, Copy)]
pub struct TTStats {
    /// Total number of slots.
    pub size: usize,
    /// Number of occupied slots.
    pub used: usize,
    /// Percentage of the table in use (0-100), rounded down.
    pub usage_percent: u8,
}

/// Number of bytes in a megabyte.
pub const BYTES_PER_MB: usize = 1024 * 1024;

/// Smallest number of slots of a table.
pub const MIN_SLOTS: usize = 1024;

/// The slot of a hash in a table of `size` slots.
pub open spec fn slot_of(hash: u64, size: usize) -> int {
    (hash as usize) as int % (size as int)
}

/// The slot of a hash in a table of `size` slots.
pub fn slot_index(hash: u64, size: usize) -> (i: usize)
    requires
        size > 0,
    ensures
        i == slot_of(hash, size),
        i < size,
{
    (hash as usize) % size
}

/// The stored score may be used at search depth `depth` in window
/// (`alpha`, `beta`).
pub open spec fn score_usable(
    depth_stored: i8,
    score: i32,
    entry_type: EntryType,
    depth: i8,
    alpha: i32,
    beta: i32,
) -> bool {
    depth_stored >= depth && match entry_type {
        EntryType::Exact => true,
        EntryType::LowerBound => score >= beta,
        EntryType::UpperBound => score <= alpha,
    }
}

/// What a probe of a slot answers: nothing for an empty slot or another
/// position; the score and move when the score is usable; otherwise score 0
/// and the move, for move ordering.
pub open spec fn probe_entry(
    slot: Option<TTEntry>,
    hash: u64,
    depth: i8,
    alpha: i32,
    beta: i32,
) -> Option<(i32, Option<Pos>)> {
    match slot {
        None => None,
        Some(e) => if e.hash != hash {
            None
        } else if score_usable(e.depth, e.score, e.entry_type, depth, alpha, beta) {
            Some((e.score, e.best_move))
        } else {
            Some((0, e.best_move))
        },
    }
}

/// Whether a store replaces what the slot holds: an empty slot, the same
/// position, or an entry searched no deeper.
pub open spec fn replaces(slot: Option<TTEntry>, hash: u64, depth: i8) -> bool {
    match slot {
        None => true,
        Some(e) => e.hash == hash || e.depth <= depth,
    }
}

/// The slots after storing `e` (depth-preferred replacement): its slot
/// takes `e` when `replaces` allows it, and nothing else changes.
pub open spec fn stored(entries: Seq<Option<TTEntry>>, size: usize, e: TTEntry) -> Seq<Option<TTEntry>> {
    if replaces(entries[slot_of(e.hash, size)], e.hash, e.depth) {
        entries.update(slot_of(e.hash, size), Some(e))
    } else {
        entries
    }
}

/// A read gives back what a write wrote: once an exact result for a
/// position is stored (and its slot accepted it, as it always does when the
/// slot held that position, was empty, or held a shallower search), probing
/// the position at any depth up to the stored one returns the stored score
/// and move, and the best move for ordering is the stored one.
pub proof fn law_store_then_probe(
    entries: Seq<Option<TTEntry>>,
    size: usize,
    e: TTEntry,
    depth: i8,
    alpha: i32,
    beta: i32,
)
    requires
        size > 0,
        entries.len() == size,
        e.entry_type == EntryType::Exact,
        replaces(entries[slot_of(e.hash, size)], e.hash, e.depth),
        depth <= e.depth,
    ensures
        probe_entry(stored(entries, size, e)[slot_of(e.hash, size)], e.hash, depth, alpha, beta)
            == Some((e.score, e.best_move)),
        stored(entries, size, e)[slot_of(e.hash, size)] == Some(e),
{
    lemma_slot_in_range(e.hash, size);
}

/// Depth-preferred replacement: a store keeps the entry of another
/// position searched deeper than the new result, and otherwise puts the new
/// entry in the slot (an empty slot, the same position, or an entry searched
/// no deeper).
pub proof fn law_depth_preferred_replacement(entries: Seq<Option<TTEntry>>, size: usize, e: TTEntry)
    requires
        size > 0,
        entries.len() == size,
    ensures
        entries[slot_of(e.hash, size)] matches Some(k) && k.hash != e.hash && k.depth > e.depth
            ==> stored(entries, size, e) == entries,
        !(entries[slot_of(e.hash, size)] matches Some(k) && k.hash != e.hash && k.depth > e.depth)
            ==> stored(entries, size, e)[slot_of(e.hash, size)] == Some(e),
{
    lemma_slot_in_range(e.hash, size);
}

/// A store never touches the slots of other indices.
pub proof fn law_store_keeps_other_slots(entries: Seq<Option<TTEntry>>, size: usize, e: TTEntry, i: int)
    requires
        size > 0,
        entries.len() == size,
        0 <= i < size,
        i != slot_of(e.hash, size),
    ensures
        stored(entries, size, e)[i] == entries[i],
        stored(entries, size, e).len() == entries.len(),
{
    lemma_slot_in_range(e.hash, size);
}

/// Slots lie within the table.
proof fn lemma_slot_in_range(hash: u64, size: usize)
    requires
        size > 0,
    ensures
        0 <= slot_of(hash, size) < size,
{
}

/// Number of occupied slots.
pub open spec fn used_count(s: Seq<Option<TTEntry>>) -> nat
    decreases s.len(),
{
    if s.len() == 0 {
        0
    } else {
        used_count(s.drop_last()) + if s.last().is_some() {
            1nat
        } else {
            0nat
        }
    }
}

/// The slots after storing the entries of `es` in turn.
pub open spec fn stored_all(entries: Seq<Option<TTEntry>>, size: usize, es: Seq<TTEntry>) -> Seq<
    Option<TTEntry>,
>
    decreases es.len(),
{
    if es.len() == 0 {
        entries
    } else {
        stored(stored_all(entries, size, es.drop_last()), size, es.last())
    }
}

/// The slots that the entries of `es` go to.
pub open spec fn slots_hit(es: Seq<TTEntry>, size: usize) -> Set<int> {
    Set::new(|i: int| exists|k: int| 0 <= k < es.len() && slot_of(es[k].hash, size) == i)
}

/// The indices of the occupied slots.
pub open spec fn occupied(s: Seq<Option<TTEntry>>) -> Set<int> {
    Set::new(|i: int| 0 <= i < s.len() && s[i].is_some())
}

/// Storing into a table that starts empty occupies exactly the slots that
/// the stored entries go to.
proof fn lemma_occupied_stored(size: usize, es: Seq<TTEntry>)
    requires
        size > 0,
    ensures
        stored_all(Seq::new(size as nat, |i: int| None), size, es).len() == size,
        occupied(stored_all(Seq::new(size as nat, |i: int| None), size, es)) == slots_hit(es, size),
    decreases es.len(),
{
    let s0 = Seq::new(size as nat, |i: int| None::<TTEntry>);
    if es.len() == 0 {
        assert(occupied(s0) =~= slots_hit(es, size));
    } else {
        let prev = es.drop_last();
        lemma_occupied_stored(size, prev);
        let before = stored_all(s0, size, prev);
        let e = es.last();
        let after = stored_all(s0, size, es);
        lemma_slot_in_range(e.hash, size);
        let j = slot_of(e.hash, size);
        assert(after == stored(before, size, e));
        assert(after[j].is_some());
        assert forall|i: int| 0 <= i < size && i != j implies after[i] == before[i] by {}
        assert(occupied(after) =~= slots_hit(es, size)) by {
            assert forall|i: int| occupied(after).contains(i) <==> slots_hit(es, size).contains(i) by {
                if occupied(after).contains(i) && i != j {
                    assert(occupied(before).contains(i));
                    let k = choose|k: int| 0 <= k < prev.len() && slot_of(prev[k].hash, size) == i;
                    assert(es[k] == prev[k]);
                }
                if i == j {
                    assert(es[es.len() - 1] == e);
                }
                if slots_hit(es, size).contains(i) && i != j {
                    let k = choose|k: int| 0 <= k < es.len() && slot_of(es[k].hash, size) == i;
                    if k == es.len() - 1 {
                        assert(false);
                    }
                    assert(prev[k] == es[k]);
                    assert(slots_hit(prev, size).contains(i));
                    lemma_slot_in_range(es[k].hash, size);
                }
            }
        }
    }
}

/// `used_count` counts the occupied slots.
proof fn lemma_used_count_occupied(s: Seq<Option<TTEntry>>)
    ensures
        occupied(s).finite(),
        used_count(s) == occupied(s).len(),
    decreases s.len(),
{
    if s.len() == 0 {
        assert(occupied(s) =~= Set::<int>::empty());
    } else {
        let p = s.drop_last();
        lemma_used_count_occupied(p);
        let n = s.len() - 1;
        if s.last().is_some() {
            assert(occupied(s) =~= occupied(p).insert(n));
            assert(!occupied(p).contains(n));
        } else {
            assert(occupied(s) =~= occupied(p));
        }
    }
}

/// What the statistics count: after storing entries into a table that
/// starts empty, the slots in use are as many as the distinct slots the
/// stored hashes go to.
pub proof fn law_used_counts_distinct_slots(size: usize, es: Seq<TTEntry>)
    requires
        size > 0,
    ensures
        slots_hit(es, size).finite(),
        used_count(stored_all(Seq::new(size as nat, |i: int| None), size, es)) == slots_hit(es, size).len(),
{
    lemma_occupied_stored(size, es);
    lemma_used_count_occupied(stored_all(Seq::new(size as nat, |i: int| None), size, es));
}

/// Percentage of `used` in `size`, rounded down.
pub open spec fn percent(used: int, size: int) -> int {
    used * 100 / size
}

/// Percentage of `used` slots out of `size`, rounded down (`used <= size`).
pub fn usage_percent(used: usize, size: usize) -> (p: u8)
    requires
        size > 0,
        used <= size,
    ensures
        p == percent(used as int, size as int),
{
    let u = used as u128;
    let s = size as u128;
    assert(u * 100 <= s * 100) by (nonlinear_arith)
        requires
            u <= s,
    ;
    assert((u * 100) as int / (s as int) <= 100) by (nonlinear_arith)
        requires
            u <= s,
            s > 0,
    ;
    ((u * 100) / s) as u8
}

proof fn lemma_used_count_bound(s: Seq<Option<TTEntry>>)
    ensures
        used_count(s) <= s.len(),
    decreases s.len(),
{
    if s.len() > 0 {
        lemma_used_count_bound(s.drop_last());
    }
}

/// Transposition table with one optional entry per slot.
pub struct TranspositionTable {
    /// The slots.
    pub entries: Vec<Option<TTEntry>>,
    /// Number of slots.
    pub size: usize,
}

impl TranspositionTable {
    /// The slot vector has `size` slots, and there is at least one.
    pub open spec fn wf(self) -> bool {
        self.entries@.len() == self.size && self.size > 0
    }

    /// Slot count of a table of `size_mb` megabytes.
    pub open spec fn slots_for(size_mb: usize) -> int {
        let e = vstd::layout::size_of::<Option<TTEntry>>() as int;
        let n = if e > 0 {
            (size_mb * BYTES_PER_MB) / e
        } else {
            0
        };
        if n < MIN_SLOTS {
            MIN_SLOTS as int
        } else {
            n
        }
    }

    /// Create a table of `size_mb` megabytes, with at least 1024 slots.
    pub fn new(size_mb: usize) -> (tt: TranspositionTable)
        requires
            size_mb * BYTES_PER_MB <= usize::MAX,
        ensures
            tt.wf(),
            tt.size == Self::slots_for(size_mb),
            forall|i: int| 0 <= i < tt.size ==> (#[trigger] tt.entries@[i]).is_none(),
    {
        let entry_size = core::mem::size_of::<Option<TTEntry>>();
        let size = if entry_size > 0 { (size_mb * BYTES_PER_MB) / entry_size } else { 0 };
        let size = if size < MIN_SLOTS { MIN_SLOTS } else { size };
        let mut entries: Vec<Option<TTEntry>> = Vec::new();
        let mut i: usize = 0;
        while i < size
            invariant
                0 <= i <= size,
                entries@.len() == i,
                forall|j: int| 0 <= j < i ==> (#[trigger] entries@[j]).is_none(),
            decreases size - i,
        {
            entries.push(None);
            i = i + 1;
        }
        TranspositionTable { entries, size }
    }

    /// Probe the table for a position.
    ///
    /// Returns the score and best move when the stored score is usable at
    /// this depth and window, `(0, best_move)` when the entry is for this
    /// position but its score is not usable, and `None` otherwise.
    pub fn probe(&self, hash: u64, depth: i8, alpha: i32, beta: i32) -> (r: Option<
        (i32, Option<Pos>),
    >)
        requires
            self.wf(),
        ensures
            r == probe_entry(self.entries@[slot_of(hash, self.size)], hash, depth, alpha, beta),
    {
        let idx = slot_index(hash, self.size);
        match self.entries[idx] {
            None => None,
            Some(entry) => {
                if entry.hash != hash {
                    return None;
                }
                if entry.depth >= depth {
                    match entry.entry_type {
                        EntryType::Exact => {
                            return Some((entry.score, entry.best_move));
                        },
                        EntryType::LowerBound => {
                            if entry.score >= beta {
                                return Some((entry.score, entry.best_move));
                            }
                        },
                        EntryType::UpperBound => {
                            if entry.score <= alpha {
                                return Some((entry.score, entry.best_move));
                            }
                        },
                    }
                }
                Some((0, entry.best_move))
            },
        }
    }

    /// Best move stored for a position, for move ordering.
    pub fn get_best_move(&self, hash: u64) -> (m: Option<Pos>)
        requires
            self.wf(),
        ensures
            m == match self.entries@[slot_of(hash, self.size)] {
                Some(e) => if e.hash == hash {
                    e.best_move
                } else {
                    None
                },
                None => None,
            },
    {
        let idx = slot_index(hash, self.size);
        match self.entries[idx] {
            Some(e) => {
                if e.hash == hash {
                    e.best_move
                } else {
                    None
                }
            },
            None => None,
        }
    }

    /// Store a search result.
    ///
    /// Depth-preferred replacement: the slot is overwritten when it is empty,
    /// holds the same position, or holds an entry searched no deeper.
    pub fn store(
        &mut self,
        hash: u64,
        depth: i8,
        score: i32,
        entry_type: EntryType,
        best_move: Option<Pos>,
    )
        requires
            old(self).wf(),
        ensures
            final(self).wf(),
            final(self).size == old(self).size,
            final(self).entries@ == stored(
                old(self).entries@,
                old(self).size,
                (TTEntry { hash, depth, score, entry_type, best_move }),
            ),
    {
        let idx = slot_index(hash, self.size);
        let should_replace = match self.entries[idx] {
            None => true,
            Some(e) => e.hash == hash || e.depth <= depth,
        };
        if should_replace {
            self.entries.set(idx, Some(TTEntry { hash, depth, score, entry_type, best_move }));
        }
    }

    /// Empty every slot.
    pub fn clear(&mut self)
        requires
            old(self).wf(),
        ensures
            final(self).wf(),
            final(self).size == old(self).size,
            forall|i: int| 0 <= i < final(self).size ==> (#[trigger] final(self).entries@[i]).is_none(),
    {
        let mut i: usize = 0;
        while i < self.size
            invariant
                self.wf(),
                self.size == old(self).size,
                0 <= i <= self.size,
                forall|j: int| 0 <= j < i ==> (#[trigger] self.entries@[j]).is_none(),
            decreases self.size - i,
        {
            self.entries.set(i, None);
            i = i + 1;
        }
    }

    /// Usage statistics: slot count, occupied slots and percentage in use.
    pub fn stats(&self) -> (st: TTStats)
        requires
            self.wf(),
        ensures
            st.size == self.size,
            st.used == used_count(self.entries@),
            st.usage_percent == percent(st.used as int, self.size as int),
    {
        let mut used: usize = 0;
        let mut i: usize = 0;
        while i < self.size
            invariant
                self.wf(),
                0 <= i <= self.size,
                used == used_count(self.entries@.take(i as int)),
                used <= i,
            decreases self.size - i,
        {
            proof {
                assert(self.entries@.take(i as int + 1).drop_last() =~= self.entries@.take(
                    i as int,
                ));
            }
            if self.entries[i].is_some() {
                used = used + 1;
            }
            i = i + 1;
        }
        proof {
            assert(self.entries@.take(self.size as int) =~= self.entries@);
        }
        TTStats { size: self.size, used, usage_percent: usage_percent(used, self.size) }
    }
}

/// Largest score magnitude a packed entry holds.
pub const PACK_SCORE_MAX: i32 = 1_048_575;

/// The score a packed entry holds: clamped to `[-PACK_SCORE_MAX, PACK_SCORE_MAX]`.
pub open spec fn clamp_score(score: i32) -> i32 {
    if score < -PACK_SCORE_MAX {
        (-PACK_SCORE_MAX) as i32
    } else if score > PACK_SCORE_MAX {
        PACK_SCORE_MAX
    } else {
        score
    }
}

/// Code of an entry type in a packed entry.
pub open spec fn type_code(t: EntryType) -> u64 {
    match t {
        EntryType::Exact => 0,
        EntryType::LowerBound => 1,
        EntryType::UpperBound => 2,
    }
}

/// The packed word of an entry: depth + 128 in bits 0..8, clamped score +
/// 2^20 in bits 8..29, type in bits 29..31, move flag in bit 31, row in bits
/// 32..37 and column in bits 37..42.
pub open spec fn packed(depth: i8, score: i32, entry_type: EntryType, best_move: Option<Pos>) -> u64 {
    let d = ((depth as int + 128) as u64) & 0xFF;
    let s = ((clamp_score(score) as int + 1_048_576) as u64) & 0x1F_FFFF;
    let t = type_code(entry_type);
    let (m, row, col) = match best_move {
        Some(p) => (1u64, p.row as u64, p.col as u64),
        None => (0u64, 0u64, 0u64),
    };
    d | (s << 8u64) | (t << 29u64) | (m << 31u64) | (row << 32u64) | (col << 37u64)
}

/// The fields read back from a packed word.
pub open spec fn unpacked(data: u64) -> (i8, i32, EntryType, Option<Pos>) {
    let depth = ((data & 0xFF) as int - 128) as i8;
    let score = (((data >> 8u64) & 0x1F_FFFF) as int - 1_048_576) as i32;
    let t = (data >> 29u64) & 0x3;
    let entry_type = if t == 0 {
        EntryType::Exact
    } else if t == 1 {
        EntryType::LowerBound
    } else {
        EntryType::UpperBound
    };
    let best_move = if (data >> 31u64) & 1 != 0 {
        Some(Pos { row: ((data >> 32u64) & 0x1F) as u8, col: ((data >> 37u64) & 0x1F) as u8 })
    } else {
        None
    };
    (depth, score, entry_type, best_move)
}

/// Pack a transposition entry into one word.
pub fn pack_entry(depth: i8, score: i32, entry_type: EntryType, best_move: Option<Pos>) -> (w: u64)
    ensures
        w == packed(depth, score, entry_type, best_move),
{
    let d = (depth as i16 + 128) as u64 & 0xFF;
    let clamped = if score < -PACK_SCORE_MAX {
        -PACK_SCORE_MAX
    } else if score > PACK_SCORE_MAX {
        PACK_SCORE_MAX
    } else {
        score
    };
    let s = (clamped as i64 + 1_048_576) as u64 & 0x1F_FFFF;
    let t: u64 = match entry_type {
        EntryType::Exact => 0,
        EntryType::LowerBound => 1,
        EntryType::UpperBound => 2,
    };
    let (has_move, row, col) = match best_move {
        Some(p) => (1u64, p.row as u64, p.col as u64),
        None => (0u64, 0u64, 0u64),
    };
    d | (s << 8u64) | (t << 29u64) | (has_move << 31u64) | (row << 32u64) | (col << 37u64)
}

/// Unpack a word into entry fields (depth, score, type, move).
pub fn unpack_entry(data: u64) -> (r: (i8, i32, EntryType, Option<Pos>))
    ensures
        r == unpacked(data),
        -1_048_576 <= r.1 <= 1_048_575,
{
    let dv = data & 0xFF;
    let sv = (data >> 8u64) & 0x1F_FFFF;
    proof {
        assert(dv <= 0xFF) by (bit_vector)
            requires
                dv == data & 0xFF,
        ;
        assert(sv <= 0x1F_FFFF) by (bit_vector)
            requires
                sv == (data >> 8u64) & 0x1F_FFFF,
        ;
    }
    let d = dv as i16 - 128;
    let depth = d as i8;
    let s = sv as i64 - 1_048_576;
    let score = s as i32;
    let t = (data >> 29u64) & 0x3;
    let entry_type = if t == 0 {
        EntryType::Exact
    } else if t == 1 {
        EntryType::LowerBound
    } else {
        EntryType::UpperBound
    };
    let has_move = ((data >> 31u64) & 1) != 0;
    let best_move = if has_move {
        let row = ((data >> 32u64) & 0x1F) as u8;
        let col = ((data >> 37u64) & 0x1F) as u8;
        Some(Pos { row, col })
    } else {
        None
    };
    (depth, score, entry_type, best_move)
}

/// Packing then unpacking gives the entry back, for every depth, every
/// score within the packed range, every type and every on-board move.
pub proof fn law_pack_unpack_roundtrip(
    depth: i8,
    score: i32,
    entry_type: EntryType,
    best_move: Option<Pos>,
)
    requires
        -PACK_SCORE_MAX <= score <= PACK_SCORE_MAX,
        best_move matches Some(p) ==> p.valid(),
    ensures
        unpacked(packed(depth, score, entry_type, best_move)) == (
            depth,
            score,
            entry_type,
            best_move,
        ),
{
    let d = ((depth as int + 128) as u64) & 0xFF;
    let s = ((clamp_score(score) as int + 1_048_576) as u64) & 0x1F_FFFF;
    let t = type_code(entry_type);
    let (m, row, col) = match best_move {
        Some(p) => (1u64, p.row as u64, p.col as u64),
        None => (0u64, 0u64, 0u64),
    };
    let w = packed(depth, score, entry_type, best_move);
    assert(w == d | (s << 8u64) | (t << 29u64) | (m << 31u64) | (row << 32u64) | (col << 37u64));
    let d0 = (depth as int + 128) as u64;
    let s0 = (score as int + 1_048_576) as u64;
    assert(d0 < 256 && s0 < 0x20_0000);
    assert(d0 & 0xFF == d0) by (bit_vector)
        requires
            d0 < 256,
    ;
    assert(s0 & 0x1F_FFFF == s0) by (bit_vector)
        requires
            s0 < 0x20_0000,
    ;
    assert(d == d0);
    assert(s == s0);
    assert(t <= 2 && m <= 1 && row < 32 && col < 32);
    assert(d < 256 && s < 0x20_0000);
    lemma_fields(d, s, t, m, row, col);
}

/// Each field of a packed word is read back from its bits.
proof fn lemma_fields(d: u64, s: u64, t: u64, m: u64, row: u64, col: u64)
    requires
        d < 256,
        s < 0x20_0000,
        t < 4,
        m < 2,
        row < 32,
        col < 32,
    ensures
        ({
            let w = d | (s << 8u64) | (t << 29u64) | (m << 31u64) | (row << 32u64) | (col << 37u64);
            &&& w & 0xFF == d
            &&& (w >> 8u64) & 0x1F_FFFF == s
            &&& (w >> 29u64) & 0x3 == t
            &&& (w >> 31u64) & 1 == m
            &&& (w >> 32u64) & 0x1F == row
            &&& (w >> 37u64) & 0x1F == col
        }),
{
    assert({
        let w = d | (s << 8u64) | (t << 29u64) | (m << 31u64) | (row << 32u64) | (col << 37u64);
        &&& w & 0xFF == d
        &&& (w >> 8u64) & 0x1F_FFFF == s
        &&& (w >> 29u64) & 0x3 == t
        &&& (w >> 31u64) & 1 == m
        &&& (w >> 32u64) & 0x1F == row
        &&& (w >> 37u64) & 0x1F == col
    }) by (bit_vector)
        requires
            d < 256,
            s < 0x20_0000,
            t < 4,
            m < 2,
            row < 32,
            col < 32,
    ;
}

} // verus!
