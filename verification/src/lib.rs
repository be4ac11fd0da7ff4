//! Case-insensitive string keys and case-insensitive deduplication.
//!
//! The library offers a wrapper type, [`key::CaseInsensitiveString`], whose
//! equality and hashing are derived from a case-folded projection of the
//! wrapped text while the original spelling is preserved, and a function,
//! [`dedup::deduplicate_case_insensitive`], that removes duplicates from a
//! vector of such keys, keeping the first-seen spelling of each distinct
//! folded value.

pub mod dedup;
pub mod folding;
pub mod key;
