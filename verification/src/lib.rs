//! A small task-list library: an ordered store of tasks with a completion
//! flag each, plus a text encoding of the whole store that round-trips
//! exactly between saving and loading.

pub mod chars;
pub mod codec;
pub mod listing;
pub mod store;
