//! Size rendering, size expressions and content hashes.
pub mod format;
pub mod hash;
