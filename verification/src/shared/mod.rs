//! What the mechanisms share: URL handling.

pub mod urls;
