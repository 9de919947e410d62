//! Service discovery for PIM (mail, calendar, contacts): given an email
//! address, which mechanisms to run, in which order, and how their
//! configs reduce into one list. Every decision of the discovery
//! orchestration stands here with its contract; the network I/O that
//! feeds it stands around the library.

pub mod compose;
pub mod search;
pub mod shared;
pub mod text;
