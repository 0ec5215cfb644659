//! History & diff engine for a clipboard text-rewriting utility.
//!
//! The crate tokenizes and diffs original/transformed text pairs with an
//! LCS-based word diff that handles both space-delimited and CJK scripts,
//! counts sentences using multi-script punctuation rules, and maintains a
//! size-bounded transformation history with per-day aggregated statistics.
//! All algorithmic behaviour is specified by contracts and verified; file
//! persistence and other I/O live outside the crate and hand it plain values.

pub mod chars;
pub mod cleanup;
pub mod config;
pub mod date;
pub mod diff;
pub mod history;
pub mod lcs;
pub mod sentence;
pub mod settings;
pub mod shortcut;
pub mod text;
pub mod transform;
