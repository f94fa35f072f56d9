//! The items that most users of the crate need.
pub use crate::device::{Allocation, Buffer, Command, ComputePipeline, Maintain, MaintainResult};
pub use crate::error::Error;
pub use crate::pipeline_cache::{
    AppPipelineCache, CachedAppComputePipelineId, CachedPipelineState, PipelineCacheError,
};
pub use crate::worker::{AppComputeWorker, RunMode, Tick, WorkerState};
pub use crate::worker_builder::AppComputeWorkerBuilder;
