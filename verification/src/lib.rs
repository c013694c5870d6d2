//! A small task-list library: an ordered store of named tasks with done
//! flags, and a verified JSON codec for persisting the store as an array
//! of `{ "name": ..., "done": ... }` records.
use vstd::prelude::*;

mod json;
mod store;
mod text;

pub use store::Task;
pub use store::TaskManager;
pub use store::TaskSerializable;
