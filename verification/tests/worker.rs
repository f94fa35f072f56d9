//! The entry points of a worker one by one, without a device.
use bevy_easy_compute::prelude::{
    AppComputeWorker, AppComputeWorkerBuilder, AppPipelineCache, Buffer, CachedPipelineState, Command,
    ComputePipeline, Error, Maintain, MaintainResult, RunMode, Tick, WorkerState,
};
use bevy_easy_compute::worker::asynchronous_at;

/// A worker with a uniform `uni`, a staging pair `values` and one pass over both.
fn worker_with(cache: &mut AppPipelineCache, build: fn(&mut AppComputeWorkerBuilder)) -> AppComputeWorker {
    let mut builder = AppComputeWorkerBuilder::new();
    builder
        .add_uniform("uni", &[1, 0, 0, 0])
        .add_staging("values", &[1, 2, 3, 4, 5, 6, 7, 8])
        .add_pass(cache, "shader", "shader.wgsl", [8, 1, 1], &["uni", "values"]);
    build(&mut builder);
    builder.build()
}

/// Compiles every pipeline asked of `cache`: the ticket `n` gets the pipeline `100 + n`.
fn compile_all(cache: &mut AppPipelineCache) {
    for id in cache.process_queue() {
        cache.complete(id, CachedPipelineState::Ready(ComputePipeline { id: 100 + id._id() as u64 }));
    }
}

fn ready_worker(build: fn(&mut AppComputeWorkerBuilder)) -> AppComputeWorker {
    let mut cache = AppPipelineCache::new();
    let mut worker = worker_with(&mut cache, build);
    compile_all(&mut cache);
    worker.extract_pipelines(&cache);
    worker
}

fn nothing(_: &mut AppComputeWorkerBuilder) {}

#[test]
fn a_new_worker_is_created_and_not_ready() {
    let worker = ready_worker(nothing);
    assert_eq!(worker.state(), WorkerState::Created);
    assert!(!worker.ready());
    assert!(worker.ready_to_execute());
    assert_eq!(worker.poll_mode(0), None);
}

#[test]
fn a_tick_submits_the_dispatch_and_then_the_copies() {
    let mut worker = ready_worker(nothing);
    let uni = *worker.get_buffer("uni").unwrap();
    let values = *worker.get_buffer("values").unwrap();
    let mirrors = worker.map_staging_buffers();
    assert_eq!(mirrors.len(), 1);
    match worker.run(42).unwrap() {
        Tick::Submitted { commands, maps } => {
            assert_eq!(maps, mirrors);
            assert_eq!(commands.len(), 2);
            match &commands[0] {
                Command::Dispatch { pipeline, bindings, workgroups } => {
                    assert_eq!(*pipeline, ComputePipeline { id: 100 });
                    assert_eq!(*bindings, vec![uni, values]);
                    assert_eq!(*workgroups, [8, 1, 1]);
                }
                other => panic!("expected a dispatch, got {other:?}"),
            }
            match &commands[1] {
                Command::CopyBufferToBuffer { source, destination, size } => {
                    assert_eq!(*source, values);
                    assert_eq!(*destination, mirrors[0]);
                    assert_eq!(*size, 8);
                }
                other => panic!("expected a copy, got {other:?}"),
            }
        }
        other => panic!("expected a batch, got {other:?}"),
    }
    assert_eq!(worker.state(), WorkerState::Working { start_time: 42 });
    assert!(!worker.ready_to_execute());
}

#[test]
fn a_tick_while_working_is_idle() {
    let mut worker = ready_worker(nothing);
    assert!(matches!(worker.run(1).unwrap(), Tick::Submitted { .. }));
    assert!(matches!(worker.run(2).unwrap(), Tick::Idle));
    assert_eq!(worker.state(), WorkerState::Working { start_time: 1 });
}

#[test]
fn finishing_makes_the_results_readable_and_the_next_tick_acknowledges_them() {
    let mut worker = ready_worker(nothing);
    assert!(matches!(worker.run(1).unwrap(), Tick::Submitted { .. }));
    assert!(worker.poll(1, MaintainResult::SubmissionQueueEmpty));
    worker.finish(vec![vec![9, 8, 7, 6, 5, 4, 3, 2]]);
    assert!(worker.ready());
    assert_eq!(worker.state(), WorkerState::FinishedWorking);
    assert_eq!(*worker.read_raw("values"), vec![9, 8, 7, 6, 5, 4, 3, 2]);
    assert_eq!(*worker.try_read_raw("values").unwrap(), vec![9, 8, 7, 6, 5, 4, 3, 2]);
    let mirrors = worker.map_staging_buffers();
    assert_eq!(worker.unmap_all(), mirrors);
    assert_eq!(worker.unmap_all(), Vec::<Buffer>::new());
    // The next tick starts the next cycle at once, as the worker is continuous.
    assert!(matches!(worker.run(2).unwrap(), Tick::Submitted { .. }));
    assert!(!worker.ready());
}

#[test]
fn the_mirrors_are_mapped_from_the_start() {
    let mut worker = ready_worker(nothing);
    let mirrors = worker.map_staging_buffers();
    assert_eq!(worker.unmap_all(), mirrors);
}

#[test]
fn a_pipeline_that_is_not_compiled_stops_the_tick() {
    let mut cache = AppPipelineCache::new();
    let mut worker = worker_with(&mut cache, nothing);
    worker.extract_pipelines(&cache);
    assert!(matches!(worker.run(1).unwrap(), Tick::Retry));
    assert_eq!(worker.state(), WorkerState::Created);
    assert_eq!(worker.poll_mode(1), None);
    assert!(matches!(worker.dispatch(0), Err(Error::PipelineNotReady)));
    compile_all(&mut cache);
    worker.extract_pipelines(&cache);
    assert!(matches!(worker.run(2).unwrap(), Tick::Submitted { .. }));
}

#[test]
fn the_steps_start_over_after_a_retry() {
    // The first pass is compiled, the second is not: the dispatch of the
    // first pass is recorded on every tick that gets that far, and the batch
    // that is submitted at last holds every one of them.
    let mut cache = AppPipelineCache::new();
    let mut builder = AppComputeWorkerBuilder::new();
    builder
        .add_staging("values", &[0; 4])
        .add_pass(&mut cache, "first", "first.wgsl", [1, 1, 1], &["values"])
        .add_pass(&mut cache, "second", "second.wgsl", [1, 1, 1], &["values"]);
    let mut worker = builder.build();
    let work = cache.process_queue();
    assert_eq!(work.len(), 2);
    cache.complete(work[0], CachedPipelineState::Ready(ComputePipeline { id: 7 }));
    worker.extract_pipelines(&cache);
    assert!(matches!(worker.run(1).unwrap(), Tick::Retry));
    assert!(matches!(worker.run(2).unwrap(), Tick::Retry));
    cache.complete(work[1], CachedPipelineState::Ready(ComputePipeline { id: 8 }));
    worker.extract_pipelines(&cache);
    match worker.run(3).unwrap() {
        Tick::Submitted { commands, .. } => {
            let pipelines: Vec<u64> = commands
                .iter()
                .filter_map(|command| match command {
                    Command::Dispatch { pipeline, .. } => Some(pipeline.id),
                    _ => None,
                })
                .collect();
            assert_eq!(pipelines, vec![7, 7, 7, 8]);
            assert_eq!(commands.len(), 5);
        }
        other => panic!("expected a batch, got {other:?}"),
    }
}

#[test]
fn a_step_handed_to_the_wrong_handler_is_refused() {
    let mut cache = AppPipelineCache::new();
    let mut builder = AppComputeWorkerBuilder::new();
    builder
        .add_staging("a", &[0; 4])
        .add_staging("b", &[0; 4])
        .add_pass(&mut cache, "shader", "shader.wgsl", [1, 1, 1], &["a"])
        .add_swap("a", "b");
    let mut worker = builder.build();
    assert!(matches!(worker.swap(0), Err(Error::InvalidStep(0))));
    assert!(matches!(worker.dispatch(1), Err(Error::InvalidStep(1))));
    assert!(worker.swap(1).is_ok());
}

#[test]
fn nothing_is_recorded_while_a_batch_is_in_flight() {
    let mut worker = ready_worker(nothing);
    assert!(matches!(worker.run(1).unwrap(), Tick::Submitted { .. }));
    assert!(matches!(worker.dispatch(0), Err(Error::EncoderIsNone)));
    assert!(matches!(worker.read_staging_buffers(), Err(Error::EncoderIsNone)));
}

#[test]
fn a_swap_exchanges_the_allocations_and_a_second_one_puts_them_back() {
    let mut cache = AppPipelineCache::new();
    let mut builder = AppComputeWorkerBuilder::new();
    builder.add_staging("a", &[0; 4]).add_empty_uniform("b", 16).add_swap("a", "b").add_swap(
        "a",
        "missing",
    ).add_swap("missing", "b").add_swap("a", "a").add_pass(&mut cache, "shader", "shader.wgsl", [1, 1, 1], &[]);
    let mut worker = builder.build();
    let a = *worker.get_buffer("a").unwrap();
    let b = *worker.get_buffer("b").unwrap();
    assert_ne!(a, b);
    worker.swap(0).unwrap();
    assert_eq!(*worker.get_buffer("a").unwrap(), b);
    assert_eq!(*worker.get_buffer("b").unwrap(), a);
    worker.swap(0).unwrap();
    assert_eq!(*worker.get_buffer("a").unwrap(), a);
    assert_eq!(*worker.get_buffer("b").unwrap(), b);
    match worker.swap(1) {
        Err(Error::BufferNotFound(name)) => assert_eq!(name, "missing"),
        other => panic!("expected BufferNotFound, got {other:?}"),
    }
    match worker.swap(2) {
        Err(Error::BufferNotFound(name)) => assert_eq!(name, "missing"),
        other => panic!("expected BufferNotFound, got {other:?}"),
    }
    worker.swap(3).unwrap();
    assert_eq!(*worker.get_buffer("a").unwrap(), a);
    assert!(worker.get_buffer("missing").is_none());
}

#[test]
fn a_dispatch_names_the_first_variable_that_is_no_buffer() {
    let mut cache = AppPipelineCache::new();
    let mut builder = AppComputeWorkerBuilder::new();
    builder.add_uniform("uni", &[0; 4]).add_pass(&mut cache, "shader", "shader.wgsl",
        [1, 1, 1],
        &["uni", "second", "third"],
    );
    let mut worker = builder.build();
    match worker.dispatch(0) {
        Err(Error::BufferNotFound(name)) => assert_eq!(name, "second"),
        other => panic!("expected BufferNotFound, got {other:?}"),
    }
    match worker.run(1) {
        Err(Error::BufferNotFound(name)) => assert_eq!(name, "second"),
        other => panic!("expected BufferNotFound, got {other:?}"),
    }
    assert_eq!(worker.state(), WorkerState::Created);
}

#[test]
fn the_copies_find_the_source_of_every_pair() {
    let mut worker = ready_worker(nothing);
    assert!(worker.read_staging_buffers().is_ok());
    assert!(worker.read_staging_buffers().is_ok());
    match worker.run(1).unwrap() {
        Tick::Submitted { commands, .. } => {
            assert_eq!(commands.len(), 4);
            assert!(matches!(commands[0], Command::CopyBufferToBuffer { .. }));
            assert!(matches!(commands[1], Command::CopyBufferToBuffer { .. }));
            assert!(matches!(commands[2], Command::Dispatch { .. }));
            assert!(matches!(commands[3], Command::CopyBufferToBuffer { .. }));
        }
        other => panic!("expected a batch, got {other:?}"),
    }
}

#[test]
fn a_write_waits_for_the_next_cycle_and_goes_first() {
    let mut worker = ready_worker(nothing);
    let uni = *worker.get_buffer("uni").unwrap();
    worker.try_write("uni", &[5, 0, 0, 0]).unwrap();
    worker.write("values", &[1; 8]);
    match worker.try_write("missing", &[0]) {
        Err(Error::BufferNotFound(name)) => assert_eq!(name, "missing"),
        other => panic!("expected BufferNotFound, got {other:?}"),
    }
    match worker.run(1).unwrap() {
        Tick::Submitted { commands, .. } => {
            assert_eq!(commands.len(), 4);
            match &commands[0] {
                Command::WriteBuffer { buffer, data } => {
                    assert_eq!(*buffer, uni);
                    assert_eq!(*data, vec![5, 0, 0, 0]);
                }
                other => panic!("expected a write, got {other:?}"),
            }
            assert!(matches!(commands[1], Command::WriteBuffer { .. }));
            assert!(matches!(commands[2], Command::Dispatch { .. }));
            assert!(matches!(commands[3], Command::CopyBufferToBuffer { .. }));
        }
        other => panic!("expected a batch, got {other:?}"),
    }
    // A write while the batch is in flight waits for the cycle after it.
    worker.write("uni", &[6, 0, 0, 0]);
    assert!(worker.poll(1, MaintainResult::SubmissionQueueEmpty));
    worker.finish(vec![vec![0; 8]]);
    match worker.run(2).unwrap() {
        Tick::Submitted { commands, .. } => {
            assert_eq!(commands.len(), 3);
            assert!(matches!(commands[0], Command::WriteBuffer { .. }));
        }
        other => panic!("expected a batch, got {other:?}"),
    }
}

#[test]
fn a_write_goes_to_the_allocation_that_the_name_stands_for_when_it_is_asked() {
    let mut builder = AppComputeWorkerBuilder::new();
    builder.add_empty_storage("a", 4).add_empty_storage("b", 4).add_swap("a", "b");
    let mut worker = builder.build();
    let a = *worker.get_buffer("a").unwrap();
    worker.write("a", &[1, 2, 3, 4]);
    match worker.run(1).unwrap() {
        Tick::Submitted { commands, maps } => {
            assert!(maps.is_empty());
            assert_eq!(commands.len(), 1);
            assert!(matches!(&commands[0], Command::WriteBuffer { buffer, .. } if *buffer == a));
        }
        other => panic!("expected a batch, got {other:?}"),
    }
    assert_ne!(*worker.get_buffer("a").unwrap(), a);
}

#[test]
fn a_worker_waits_for_its_batch_by_default() {
    let mut worker = ready_worker(nothing);
    assert!(matches!(worker.run(10).unwrap(), Tick::Submitted { .. }));
    assert_eq!(worker.poll_mode(10), Some(Maintain::Wait));
    assert_eq!(worker.poll_mode(11), Some(Maintain::Wait));
    assert!(!worker.poll(10, MaintainResult::Processing));
    assert!(worker.poll(10, MaintainResult::SubmissionQueueEmpty));
}

#[test]
fn an_asynchronous_worker_looks_until_its_time_is_up() {
    let mut worker = ready_worker(|builder| {
        builder.asynchronous(Some(1_000));
    });
    assert!(matches!(worker.run(5_000).unwrap(), Tick::Submitted { .. }));
    assert_eq!(worker.poll_mode(5_000), Some(Maintain::Poll));
    assert_eq!(worker.poll_mode(5_999), Some(Maintain::Poll));
    assert_eq!(worker.poll_mode(6_000), Some(Maintain::Wait));
    // A clock that went back counts as no time passed.
    assert_eq!(worker.poll_mode(4_000), Some(Maintain::Poll));
    // While it looks, an empty queue counts only after the device was seen at work.
    assert!(!worker.poll(5_100, MaintainResult::SubmissionQueueEmpty));
    assert!(!worker.poll(5_200, MaintainResult::Processing));
    assert!(worker.poll(5_300, MaintainResult::SubmissionQueueEmpty));
    // The sighting is used up.
    assert!(!worker.poll(5_400, MaintainResult::SubmissionQueueEmpty));
    // Once the time is up, an empty queue counts at once.
    assert!(!worker.poll(6_000, MaintainResult::Processing));
    assert!(worker.poll(6_000, MaintainResult::SubmissionQueueEmpty));
}

#[test]
fn a_worker_without_limit_never_waits() {
    let mut worker = ready_worker(|builder| {
        builder.asynchronous(None);
    });
    assert!(matches!(worker.run(0).unwrap(), Tick::Submitted { .. }));
    assert_eq!(worker.poll_mode(u128::MAX), Some(Maintain::Poll));
}

#[test]
fn the_limit_is_compared_with_the_time_that_has_passed() {
    assert!(asynchronous_at(None, 0, u128::MAX));
    assert!(!asynchronous_at(Some(0), 7, 7));
    assert!(asynchronous_at(Some(1), 7, 7));
    assert!(asynchronous_at(Some(10), 100, 109));
    assert!(!asynchronous_at(Some(10), 100, 110));
    assert!(asynchronous_at(Some(10), 100, 3));
}

#[test]
fn execute_arms_a_one_shot_worker_and_leaves_a_continuous_one_alone() {
    let mut worker = ready_worker(|builder| {
        builder.one_shot();
    });
    assert!(!worker.ready_to_execute());
    assert!(matches!(worker.run(1).unwrap(), Tick::Idle));
    assert_eq!(worker.state(), WorkerState::Created);
    worker.execute();
    assert!(worker.ready_to_execute());
    worker.execute();
    assert!(worker.ready_to_execute());
    assert!(matches!(worker.run(2).unwrap(), Tick::Submitted { .. }));
    // Telling it to run while it works changes nothing.
    worker.execute();
    assert!(matches!(worker.run(3).unwrap(), Tick::Idle));
    assert!(worker.poll(3, MaintainResult::SubmissionQueueEmpty));
    worker.finish(vec![vec![0; 8]]);
    assert!(worker.ready());
    assert!(!worker.ready_to_execute());
    assert!(matches!(worker.run(4).unwrap(), Tick::Idle));
    assert_eq!(worker.state(), WorkerState::Available);

    let mut continuous = ready_worker(|builder| {
        builder.one_shot().continuous();
    });
    continuous.execute();
    assert!(continuous.ready_to_execute());
}

#[test]
fn run_modes_compare_by_their_flag() {
    assert_eq!(RunMode::OneShot(true), RunMode::OneShot(true));
    assert_ne!(RunMode::OneShot(true), RunMode::OneShot(false));
    assert_ne!(RunMode::Continuous, RunMode::OneShot(false));
}

#[test]
fn a_worker_keeps_a_pipeline_once_it_has_it() {
    let mut cache = AppPipelineCache::new();
    let mut worker = worker_with(&mut cache, nothing);
    let work = cache.process_queue();
    cache.complete(work[0], CachedPipelineState::Ready(ComputePipeline { id: 1 }));
    worker.extract_pipelines(&cache);
    // The cache compiles the pipeline anew, to another handle: the worker
    // keeps the one it has.
    cache.requeue(work[0]);
    cache.complete(work[0], CachedPipelineState::Ready(ComputePipeline { id: 2 }));
    worker.extract_pipelines(&cache);
    match worker.run(1).unwrap() {
        Tick::Submitted { commands, .. } => {
            assert!(matches!(&commands[0], Command::Dispatch { pipeline, .. } if pipeline.id == 1));
        }
        other => panic!("expected a batch, got {other:?}"),
    }
}

/// The kinds of step that the sequences below are made of.
#[derive(Clone, Copy, Debug)]
enum Kind {
    PassOnX,
    PassOnY,
    PassOnBoth,
    Swap,
}

#[test]
fn every_short_sequence_of_steps_runs_in_its_order() {
    let kinds = [Kind::PassOnX, Kind::PassOnY, Kind::PassOnBoth, Kind::Swap];
    // Every sequence of up to five steps, counted in base four.
    for length in 0..=5u32 {
        for code in 0..4usize.pow(length) {
            let steps: Vec<Kind> =
                (0..length).map(|place| kinds[(code / 4usize.pow(place)) % 4]).collect();
            let mut cache = AppPipelineCache::new();
            let mut builder = AppComputeWorkerBuilder::new();
            builder.add_empty_storage("x", 4).add_empty_storage("y", 8);
            for kind in &steps {
                match kind {
                    Kind::PassOnX => builder.add_pass(&mut cache, "s", "s.wgsl", [1, 1, 1], &["x"]),
                    Kind::PassOnY => builder.add_pass(&mut cache, "s", "s.wgsl", [1, 1, 1], &["y"]),
                    Kind::PassOnBoth => {
                        builder.add_pass(&mut cache, "s", "s.wgsl", [1, 1, 1], &["x", "y"])
                    }
                    Kind::Swap => builder.add_swap("x", "y"),
                };
            }
            let mut worker = builder.build();
            compile_all(&mut cache);
            worker.extract_pipelines(&cache);
            let mut x = *worker.get_buffer("x").unwrap();
            let mut y = *worker.get_buffer("y").unwrap();
            // What each pass is to bind, by the swaps before it.
            let mut expected: Vec<Vec<Buffer>> = Vec::new();
            for kind in &steps {
                match kind {
                    Kind::PassOnX => expected.push(vec![x]),
                    Kind::PassOnY => expected.push(vec![y]),
                    Kind::PassOnBoth => expected.push(vec![x, y]),
                    Kind::Swap => std::mem::swap(&mut x, &mut y),
                }
            }
            match worker.run(0).unwrap() {
                Tick::Submitted { commands, maps } => {
                    assert!(maps.is_empty());
                    let bound: Vec<Vec<Buffer>> = commands
                        .iter()
                        .map(|command| match command {
                            Command::Dispatch { bindings, .. } => bindings.clone(),
                            other => panic!("expected a dispatch, got {other:?}"),
                        })
                        .collect();
                    assert_eq!(bound, expected, "steps {steps:?}");
                }
                other => panic!("expected a batch, got {other:?}"),
            }
            assert_eq!(*worker.get_buffer("x").unwrap(), x, "steps {steps:?}");
            assert_eq!(*worker.get_buffer("y").unwrap(), y, "steps {steps:?}");
        }
    }
}
