//! A compute worker for a GPU device, as a verified state machine.
//!
//! The worker owns named buffers, runs compute passes and buffer swaps in the
//! order in which they were declared, and tracks one submission at a time
//! through `Created`, `Available`, `Working` and `FinishedWorking`. It never
//! touches the device itself: every entry point says what the device is to do
//! next and takes what the device answered.
pub mod capabilities;
pub mod device;
pub mod error;
pub mod laws;
pub mod model;
pub mod pipeline_cache;
pub mod prelude;
pub mod shader_cache;
pub mod step;
pub mod table;
pub mod worker;
pub mod worker_builder;
