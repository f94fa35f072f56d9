//! Tickets, rounds of processing and what a ticket resolves to.
use bevy_easy_compute::prelude::{
    AppPipelineCache, CachedAppComputePipelineId, CachedPipelineState, ComputePipeline, PipelineCacheError,
};

fn ticket(index: usize) -> CachedAppComputePipelineId {
    CachedAppComputePipelineId(index)
}

#[test]
fn tickets_count_up_from_zero() {
    let mut cache = AppPipelineCache::new();
    assert_eq!(cache.queue_app_compute_pipeline("a"), ticket(0));
    assert_eq!(cache.queue_app_compute_pipeline("b"), ticket(1));
    assert_eq!(cache.process_queue(), vec![ticket(0), ticket(1)]);
    assert_eq!(cache.queue_app_compute_pipeline("a"), ticket(2));
    assert_eq!(ticket(2)._id(), 2);
}

#[test]
fn a_ticket_resolves_to_nothing_until_its_pipeline_is_compiled() {
    let mut cache = AppPipelineCache::new();
    let id = cache.queue_app_compute_pipeline("a");
    assert_eq!(cache.get_compute_pipeline(id), None);
    assert_eq!(cache.process_queue(), vec![id]);
    assert_eq!(cache.get_compute_pipeline(id), None);
    cache.complete(id, CachedPipelineState::Ready(ComputePipeline { id: 5 }));
    assert_eq!(cache.get_compute_pipeline(id), Some(ComputePipeline { id: 5 }));
    assert_eq!(cache.get_compute_pipeline(ticket(1)), None);
    assert_eq!(cache.get_compute_pipeline(ticket(usize::MAX)), None);
}

#[test]
fn a_round_takes_up_what_waited_and_what_is_new() {
    let mut cache = AppPipelineCache::new();
    let a = cache.queue_app_compute_pipeline("a");
    let b = cache.queue_app_compute_pipeline("b");
    let c = cache.queue_app_compute_pipeline("c");
    assert_eq!(cache.process_queue(), vec![a, b, c]);
    cache.complete(a, CachedPipelineState::Failed(PipelineCacheError::ShaderNotLoaded));
    cache.complete(b, CachedPipelineState::Failed(PipelineCacheError::ProcessShaderError));
    cache.complete(c, CachedPipelineState::Ready(ComputePipeline { id: 0 }));
    let d = cache.queue_app_compute_pipeline("d");
    // `a` is tried again, `b` is given up, `c` is done and `d` is new.
    assert_eq!(cache.process_queue(), vec![a, d]);
    cache.complete(a, CachedPipelineState::Failed(PipelineCacheError::ShaderImportNotYetAvailable));
    cache.complete(d, CachedPipelineState::Failed(PipelineCacheError::CreateShaderModule));
    assert_eq!(cache.process_queue(), vec![a]);
    // An attempt that is not reported leaves the ticket out of the next round.
    assert_eq!(cache.process_queue(), vec![]);
}

#[test]
fn a_ticket_waits_once_however_often_it_fails() {
    let mut cache = AppPipelineCache::new();
    let a = cache.queue_app_compute_pipeline("a");
    assert_eq!(cache.process_queue(), vec![a]);
    cache.complete(a, CachedPipelineState::Failed(PipelineCacheError::ShaderNotLoaded));
    cache.complete(a, CachedPipelineState::Failed(PipelineCacheError::ShaderNotLoaded));
    cache.requeue(a);
    assert_eq!(cache.process_queue(), vec![a]);
}

#[test]
fn a_pipeline_that_was_compiled_while_it_waited_is_left_alone() {
    let mut cache = AppPipelineCache::new();
    let a = cache.queue_app_compute_pipeline("a");
    assert_eq!(cache.process_queue(), vec![a]);
    cache.complete(a, CachedPipelineState::Failed(PipelineCacheError::ShaderNotLoaded));
    cache.complete(a, CachedPipelineState::Ready(ComputePipeline { id: 1 }));
    assert_eq!(cache.process_queue(), vec![]);
    assert_eq!(cache.get_compute_pipeline(a), Some(ComputePipeline { id: 1 }));
}

#[test]
fn a_pipeline_that_is_sent_back_resolves_to_nothing_until_it_is_compiled_again() {
    let mut cache = AppPipelineCache::new();
    let a = cache.queue_app_compute_pipeline("a");
    assert_eq!(cache.process_queue(), vec![a]);
    cache.complete(a, CachedPipelineState::Ready(ComputePipeline { id: 1 }));
    cache.requeue(a);
    assert_eq!(cache.get_compute_pipeline(a), None);
    assert_eq!(cache.process_queue(), vec![a]);
    cache.complete(a, CachedPipelineState::Ready(ComputePipeline { id: 2 }));
    assert_eq!(cache.get_compute_pipeline(a), Some(ComputePipeline { id: 2 }));
}
