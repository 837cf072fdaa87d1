//! Search: Zobrist hashing, transposition tables, threat-space search and
//! alpha-beta search with iterative deepening.
pub mod alphabeta;
pub mod atomic_tt;
pub mod ordering;
pub mod threat;
pub mod tt;
pub mod zobrist;

pub use atomic_tt::AtomicTT;
pub use threat::{ThreatResult, ThreatSearcher};
pub use tt::{EntryType, TTEntry, TTStats, TranspositionTable};
pub use zobrist::ZobristTable;
