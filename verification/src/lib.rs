//! Transaction relay store: a durable-queue model that persists transaction
//! records with priority and dependency metadata, selects the next
//! dispatchable record, and drives records through their lifecycle.

mod clock;
pub mod order;
pub mod pipeline;
pub mod storage;
