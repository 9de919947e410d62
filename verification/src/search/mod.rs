//! The search coroutine, driven one event at a time.

pub mod all;
