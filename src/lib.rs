//! A log-structured key-value store: the format of its log, the replay that
//! rebuilds its index, the upkeep of that index on each write, and the plan
//! of a compaction, each with its contract.
pub mod command;
pub mod compact;
pub mod frame;
pub mod index;
pub mod laws;
pub mod memory;
pub mod model;

pub use command::{value_of, Command, KvError};
pub use compact::live_entries;
pub use frame::split_records;
pub use index::{needs_compaction, Index, COMPACTION_THRESHOLD};
pub use memory::KvStore;
