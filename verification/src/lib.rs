//! Vocabulary drilling library: a store of vocabulary items, a per-learner
//! score ledger, an adaptively weighted item selector, and a server-side
//! cache with idle-time eviction.
//!
//! - [`item`]: one vocabulary entry and its content-hash identity.
//! - [`list`]: the ordered item store, with lookup and appending.
//! - [`score`]: the per-learner ledger of outcomes and the weight formula.
//! - [`select`]: the weighted random pick and distractor generation.
//! - [`cache`]: the lazily populated, time-evicted server-side cache.
//! - [`assoc`]: the association map behind the cache's tables.
//! - [`paths`]: data and score file naming, and the tag-filter encoding.
//! - [`laws`]: the library's general properties, proved once for all inputs.

pub mod assoc;
pub mod cache;
pub mod item;
pub mod laws;
pub mod list;
pub mod paths;
pub mod score;
pub mod select;

pub use cache::{Cache, CacheError, LoadError};
pub use item::VocaItem;
pub use list::VocaList;
pub use score::VocaScore;
pub use select::SelectError;
pub use paths::{getdatafile, getscorefile, parse_tag_filter};
