//! Whole cycles of a worker against a device that is simulated in memory.
use bevy_easy_compute::prelude::{
    Allocation, AppComputeWorker, AppComputeWorkerBuilder, AppPipelineCache, CachedPipelineState, Command,
    ComputePipeline, Error, Maintain, MaintainResult, Tick, WorkerState,
};
use bevy_easy_compute::shader_cache::{Shader, ShaderImport};
use std::collections::HashMap;

const INPUT_BUFFER_NAME: &str = "values";

// The maximum number of frames to run waiting for the compute worker to finish.
const MAX_FRAMES_TO_READY: i16 = 10;

/// What the pipeline with a given id does to the buffers bound to it.
type Kernel = fn(&mut [Vec<f32>]);

/// `values[i] += uni`
fn simple(bound: &mut [Vec<f32>]) {
    let uni = bound[0][0];
    for value in bound[1].iter_mut() {
        *value += uni;
    }
}

/// `output[i] = input[i] + value`
fn first_pass(bound: &mut [Vec<f32>]) {
    let value = bound[0][0];
    for i in 0..bound[2].len() {
        bound[2][i] = bound[1][i] + value;
    }
}

/// `output[i] = output[i] * output[i]`
fn second_pass(bound: &mut [Vec<f32>]) {
    for value in bound[0].iter_mut() {
        *value = *value * *value;
    }
}

fn floats(bytes: &[u8]) -> Vec<f32> {
    bytes.chunks_exact(4).map(bytemuck::pod_read_unaligned::<f32>).collect()
}

/// A device that keeps its memory in a map and runs a batch when it is polled.
struct Device {
    memory: HashMap<u64, Vec<u8>>,
    shaders: Vec<Kernel>,
    in_flight: Option<Vec<Command>>,
    seen_at_work: bool,
    mapped: Vec<u64>,
}

impl Device {
    fn new(allocations: &[Allocation], shaders: Vec<Kernel>) -> Self {
        let mut memory = HashMap::new();
        let mut mapped = Vec::new();
        for (id, allocation) in allocations.iter().enumerate() {
            let mut bytes = vec![0u8; allocation.size as usize];
            if let Some(contents) = &allocation.contents {
                bytes[..contents.len()].copy_from_slice(contents);
            }
            memory.insert(id as u64, bytes);
            if allocation.mapped_at_creation {
                mapped.push(id as u64);
            }
        }
        Device { memory, shaders, in_flight: None, seen_at_work: false, mapped }
    }

    fn carry_out(&mut self, command: &Command) {
        match command {
            Command::WriteBuffer { buffer, data } => {
                self.memory.get_mut(&buffer.id).unwrap()[..data.len()].copy_from_slice(data);
            }
            Command::Dispatch { pipeline, bindings, .. } => {
                let mut bound: Vec<Vec<f32>> =
                    bindings.iter().map(|buffer| floats(&self.memory[&buffer.id])).collect();
                (self.shaders[pipeline.id as usize])(&mut bound);
                for (buffer, values) in bindings.iter().zip(bound.iter()) {
                    self.memory.insert(buffer.id, bytemuck::cast_slice(values).to_vec());
                }
            }
            Command::CopyBufferToBuffer { source, destination, size } => {
                let bytes = self.memory[&source.id][..*size as usize].to_vec();
                self.memory.get_mut(&destination.id).unwrap()[..*size as usize].copy_from_slice(&bytes);
            }
        }
    }

    fn submit(&mut self, commands: Vec<Command>) {
        assert!(self.in_flight.is_none(), "a batch is in flight already");
        self.in_flight = Some(commands);
        self.seen_at_work = false;
    }

    fn map(&mut self, id: u64) {
        assert!(!self.mapped.contains(&id), "buffer {id} is mapped already");
        self.mapped.push(id);
    }

    fn unmap(&mut self, id: u64) {
        assert!(self.mapped.contains(&id), "buffer {id} is not mapped");
        self.mapped.retain(|mapped| *mapped != id);
    }

    /// A waiting poll runs the batch at once. A looking poll first reports
    /// the batch as taken up and runs it on the next look.
    fn poll(&mut self, maintain: Maintain) -> MaintainResult {
        let Some(commands) = self.in_flight.take() else {
            return MaintainResult::SubmissionQueueEmpty;
        };
        if maintain == Maintain::Poll && !self.seen_at_work {
            self.seen_at_work = true;
            self.in_flight = Some(commands);
            return MaintainResult::Processing;
        }
        for command in &commands {
            self.carry_out(command);
        }
        MaintainResult::SubmissionQueueEmpty
    }
}

/// A worker, the cache that compiles its pipelines and the device it runs on.
struct App {
    worker: AppComputeWorker,
    cache: AppPipelineCache,
    device: Device,
    clock: u128,
    /// The shaders whose source is there, by name, with the pipeline each compiles to.
    sources: Vec<(&'static str, u64)>,
    /// How many of the sources the cache has been told of.
    loaded: usize,
}

impl App {
    fn new(builder: &AppComputeWorkerBuilder, cache: AppPipelineCache, sources: Vec<(&'static str, u64)>) -> Self {
        let shaders: Vec<Kernel> = vec![simple, first_pass, second_pass];
        App {
            worker: builder.build(),
            cache,
            device: Device::new(builder.allocations(), shaders),
            clock: 0,
            sources,
            loaded: 0,
        }
    }

    /// One frame: compile what can be compiled, hand the worker its
    /// pipelines, then unmap and run.
    fn update(&mut self) -> Result<(), Error> {
        self.clock += 1_000_000;
        while self.loaded < self.sources.len() {
            let name = self.sources[self.loaded].0;
            let shader = Shader { import_path: ShaderImport::Custom(name.to_string()), imports: vec![] };
            self.cache.set_shader(name, shader);
            self.loaded += 1;
        }
        for id in self.cache.process_queue() {
            let state = match self.cache.prepare(id) {
                Ok(()) => self.compile(self.cache.shader(id)),
                Err(error) => CachedPipelineState::Failed(error),
            };
            self.cache.complete(id, state);
        }
        self.worker.extract_pipelines(&self.cache);
        for mirror in self.worker.unmap_all() {
            self.device.unmap(mirror.id);
        }
        if let Tick::Submitted { commands, maps } = self.worker.run(self.clock)? {
            self.device.submit(commands);
            for mirror in maps {
                self.device.map(mirror.id);
            }
        }
        if let Some(maintain) = self.worker.poll_mode(self.clock) {
            let answer = self.device.poll(maintain);
            if self.worker.poll(self.clock, answer) {
                let contents = self
                    .worker
                    .map_staging_buffers()
                    .iter()
                    .map(|mirror| self.device.memory[&mirror.id].clone())
                    .collect();
                self.worker.finish(contents);
            }
        }
        Ok(())
    }

    /// Compiles the source `shader`, which is there.
    fn compile(&self, shader: &str) -> CachedPipelineState {
        let (_, pipeline) = self.sources.iter().find(|(name, _)| *name == shader).unwrap();
        CachedPipelineState::Ready(ComputePipeline { id: *pipeline })
    }

    fn read_vec(&self, target: &str) -> Vec<f32> {
        assert!(self.worker.ready());
        floats(self.worker.try_read_raw(target).unwrap())
    }
}

/// Runs frames until the worker is ready, and panics if it does not get there.
fn build_app(builder: &AppComputeWorkerBuilder, cache: AppPipelineCache, sources: Vec<(&'static str, u64)>) -> App {
    let mut app = App::new(builder, cache, sources);
    let mut is_ready = false;
    for _ in 0..MAX_FRAMES_TO_READY {
        app.update().unwrap();
        if app.worker.ready() {
            is_ready = true;
            break;
        }
    }
    if !is_ready {
        panic!("Compute worker didn't complete in {MAX_FRAMES_TO_READY} frames.")
    }
    app
}

fn simple_compute_worker() -> App {
    let mut cache = AppPipelineCache::new();
    let mut builder = AppComputeWorkerBuilder::new();
    builder
        .add_uniform("uni", bytemuck::bytes_of(&5.0f32))
        .add_staging(INPUT_BUFFER_NAME, bytemuck::cast_slice(&[1.0f32, 2., 3., 4.]))
        .add_pass(&mut cache, "SimpleShader", "SimpleShader.wgsl", [4, 1, 1], &["uni", INPUT_BUFFER_NAME]);
    build_app(&builder, cache, vec![("SimpleShader.wgsl", 0)])
}

#[test]
fn increments_floats() {
    let app = simple_compute_worker();
    let result: Vec<f32> = app.read_vec(INPUT_BUFFER_NAME);
    assert!(result == [6.0, 7.0, 8.0, 9.0]);
}

// Crude test to test that the tests work. Therefore we want to make sure that the test harness isn't returning
// false positives.
#[test]
#[should_panic]
fn should_panic() {
    let app = simple_compute_worker();
    let result: Vec<f32> = app.read_vec(INPUT_BUFFER_NAME);
    assert!(result == [0.0]);
}

#[test]
fn two_passes_run_one_after_the_other() {
    let mut cache = AppPipelineCache::new();
    let mut builder = AppComputeWorkerBuilder::new();
    builder
        .add_uniform("value", bytemuck::bytes_of(&3.0f32))
        .add_storage("input", bytemuck::cast_slice(&[1.0f32, 2., 3., 4.]))
        .add_staging("output", bytemuck::cast_slice(&[0f32; 4]))
        .add_pass(&mut cache, "FirstPassShader", "FirstPassShader.wgsl", [4, 1, 1], &["value", "input", "output"])
        .add_pass(&mut cache, "SecondPassShader", "SecondPassShader.wgsl", [4, 1, 1], &["output"]);
    let app = build_app(&builder, cache, vec![("FirstPassShader.wgsl", 1), ("SecondPassShader.wgsl", 2)]);
    assert_eq!(app.read_vec("output"), vec![16.0, 25.0, 36.0, 49.0]);
}

#[test]
fn one_pass_adds_the_uniform() {
    let mut cache = AppPipelineCache::new();
    let mut builder = AppComputeWorkerBuilder::new();
    builder
        .add_uniform("value", bytemuck::bytes_of(&3.0f32))
        .add_storage("input", bytemuck::cast_slice(&[1.0f32, 2., 3., 4.]))
        .add_staging("output", bytemuck::cast_slice(&[0f32; 4]))
        .add_pass(&mut cache, "FirstPassShader", "FirstPassShader.wgsl", [4, 1, 1], &["value", "input", "output"]);
    let app = build_app(&builder, cache, vec![("FirstPassShader.wgsl", 1)]);
    assert_eq!(app.read_vec("output"), vec![4.0, 5.0, 6.0, 7.0]);
}

#[test]
fn a_write_reaches_the_device_before_the_next_pass() {
    let mut app = simple_compute_worker();
    assert_eq!(app.read_vec(INPUT_BUFFER_NAME), vec![6.0, 7.0, 8.0, 9.0]);
    app.worker.try_write(INPUT_BUFFER_NAME, bytemuck::cast_slice(&[10.0f32, 20., 30., 40.])).unwrap();
    app.worker.write("uni", bytemuck::bytes_of(&1.0f32));
    app.update().unwrap();
    assert!(app.worker.ready());
    assert_eq!(app.read_vec(INPUT_BUFFER_NAME), vec![11.0, 21.0, 31.0, 41.0]);
}

#[test]
fn a_continuous_worker_runs_again_on_every_frame() {
    let mut app = simple_compute_worker();
    assert_eq!(app.read_vec(INPUT_BUFFER_NAME), vec![6.0, 7.0, 8.0, 9.0]);
    app.update().unwrap();
    assert_eq!(app.read_vec(INPUT_BUFFER_NAME), vec![11.0, 12.0, 13.0, 14.0]);
    app.update().unwrap();
    assert_eq!(app.read_vec(INPUT_BUFFER_NAME), vec![16.0, 17.0, 18.0, 19.0]);
}

#[test]
fn two_reads_without_a_run_between_them_return_the_same_bytes() {
    let mut app = simple_compute_worker();
    let first: Vec<u8> = app.worker.read_raw(INPUT_BUFFER_NAME).clone();
    app.worker.execute();
    app.worker.try_write("uni", bytemuck::bytes_of(&2.0f32)).unwrap();
    let second: Vec<u8> = app.worker.read_raw(INPUT_BUFFER_NAME).clone();
    assert_eq!(first, second);
    assert_eq!(first, bytemuck::cast_slice::<f32, u8>(&[6.0, 7.0, 8.0, 9.0]).to_vec());
}

#[test]
fn a_pass_after_a_swap_sees_the_swapped_allocation() {
    // `a` starts as [1, 2], `b` as [10, 20]. The first pass adds 5 to `a`,
    // the swap exchanges the two, and the second pass adds 5 to what `a`
    // stands for then, which is the allocation that `b` started with.
    let mut cache = AppPipelineCache::new();
    let mut builder = AppComputeWorkerBuilder::new();
    builder
        .add_uniform("uni", bytemuck::bytes_of(&5.0f32))
        .add_staging("a", bytemuck::cast_slice(&[1.0f32, 2.]))
        .add_staging("b", bytemuck::cast_slice(&[10.0f32, 20.]))
        .add_pass(&mut cache, "SimpleShader", "SimpleShader.wgsl", [2, 1, 1], &["uni", "a"])
        .add_swap("a", "b")
        .add_pass(&mut cache, "SimpleShader", "SimpleShader.wgsl", [2, 1, 1], &["uni", "a"]);
    let before_a = *builder.build().get_buffer("a").unwrap();
    let before_b = *builder.build().get_buffer("b").unwrap();
    let app = build_app(&builder, cache, vec![("SimpleShader.wgsl", 0)]);
    assert_eq!(app.read_vec("a"), vec![15.0, 25.0]);
    assert_eq!(app.read_vec("b"), vec![6.0, 7.0]);
    assert_eq!(*app.worker.get_buffer("a").unwrap(), before_b);
    assert_eq!(*app.worker.get_buffer("b").unwrap(), before_a);
}

#[test]
fn a_swap_stays_in_force_on_later_frames() {
    let mut cache = AppPipelineCache::new();
    let mut builder = AppComputeWorkerBuilder::new();
    builder
        .add_uniform("uni", bytemuck::bytes_of(&1.0f32))
        .add_staging("a", bytemuck::cast_slice(&[0.0f32]))
        .add_staging("b", bytemuck::cast_slice(&[100.0f32]))
        .add_pass(&mut cache, "SimpleShader", "SimpleShader.wgsl", [1, 1, 1], &["uni", "a"])
        .add_swap("a", "b");
    let mut app = build_app(&builder, cache, vec![("SimpleShader.wgsl", 0)]);
    // Frame 1 adds to the first allocation and swaps.
    assert_eq!(app.read_vec("a"), vec![100.0]);
    assert_eq!(app.read_vec("b"), vec![1.0]);
    // Frame 2 adds to the second allocation and swaps back.
    app.update().unwrap();
    assert_eq!(app.read_vec("a"), vec![1.0]);
    assert_eq!(app.read_vec("b"), vec![101.0]);
}

#[test]
fn a_one_shot_worker_waits_until_it_is_told_to_run() {
    let mut cache = AppPipelineCache::new();
    let mut builder = AppComputeWorkerBuilder::new();
    builder
        .add_uniform("uni", bytemuck::bytes_of(&5.0f32))
        .add_staging(INPUT_BUFFER_NAME, bytemuck::cast_slice(&[1.0f32, 2., 3., 4.]))
        .add_pass(&mut cache, "SimpleShader", "SimpleShader.wgsl", [4, 1, 1], &["uni", INPUT_BUFFER_NAME])
        .one_shot();
    let mut app = App::new(&builder, cache, vec![("SimpleShader.wgsl", 0)]);
    for _ in 0..5 {
        app.update().unwrap();
        assert!(!app.worker.ready());
        assert_eq!(app.worker.state(), WorkerState::Created);
        assert!(app.device.in_flight.is_none());
    }
    app.worker.execute();
    app.worker.execute();
    app.update().unwrap();
    assert!(app.worker.ready());
    assert_eq!(app.read_vec(INPUT_BUFFER_NAME), vec![6.0, 7.0, 8.0, 9.0]);
    // The one execution is used up: the next frames only acknowledge it.
    app.update().unwrap();
    assert_eq!(app.worker.state(), WorkerState::Available);
    for _ in 0..3 {
        app.update().unwrap();
        assert_eq!(app.worker.state(), WorkerState::Available);
    }
    app.worker.execute();
    app.update().unwrap();
    assert_eq!(app.read_vec(INPUT_BUFFER_NAME), vec![11.0, 12.0, 13.0, 14.0]);
}

#[test]
fn a_worker_whose_pipeline_never_compiles_never_gets_ready() {
    let mut cache = AppPipelineCache::new();
    let mut builder = AppComputeWorkerBuilder::new();
    builder
        .add_uniform("uni", bytemuck::bytes_of(&5.0f32))
        .add_staging(INPUT_BUFFER_NAME, bytemuck::cast_slice(&[1.0f32, 2., 3., 4.]))
        .add_pass(&mut cache, "MissingShader", "MissingShader.wgsl", [4, 1, 1], &["uni", INPUT_BUFFER_NAME]);
    let mut app = App::new(&builder, cache, vec![]);
    for _ in 0..MAX_FRAMES_TO_READY {
        app.update().unwrap();
        assert!(!app.worker.ready());
        assert_eq!(app.worker.state(), WorkerState::Created);
        assert!(app.worker.poll_mode(app.clock).is_none());
        assert!(app.device.in_flight.is_none());
    }
}

#[test]
fn a_pipeline_that_compiles_late_lets_the_worker_start_late() {
    let mut cache = AppPipelineCache::new();
    let mut builder = AppComputeWorkerBuilder::new();
    builder
        .add_uniform("uni", bytemuck::bytes_of(&5.0f32))
        .add_staging(INPUT_BUFFER_NAME, bytemuck::cast_slice(&[1.0f32, 2., 3., 4.]))
        .add_pass(&mut cache, "SimpleShader", "SimpleShader.wgsl", [4, 1, 1], &["uni", INPUT_BUFFER_NAME]);
    let mut app = App::new(&builder, cache, vec![]);
    for _ in 0..3 {
        app.update().unwrap();
        assert!(!app.worker.ready());
    }
    app.sources.push(("SimpleShader.wgsl", 0));
    app.update().unwrap();
    assert!(app.worker.ready());
    assert_eq!(app.read_vec(INPUT_BUFFER_NAME), vec![6.0, 7.0, 8.0, 9.0]);
}

#[test]
fn an_asynchronous_worker_takes_more_than_one_frame() {
    let mut cache = AppPipelineCache::new();
    let mut builder = AppComputeWorkerBuilder::new();
    builder
        .add_uniform("uni", bytemuck::bytes_of(&5.0f32))
        .add_staging(INPUT_BUFFER_NAME, bytemuck::cast_slice(&[1.0f32, 2., 3., 4.]))
        .add_pass(&mut cache, "SimpleShader", "SimpleShader.wgsl", [4, 1, 1], &["uni", INPUT_BUFFER_NAME])
        .asynchronous(None);
    let mut app = App::new(&builder, cache, vec![("SimpleShader.wgsl", 0)]);
    app.update().unwrap();
    assert!(matches!(app.worker.state(), WorkerState::Working { start_time: 1_000_000 }));
    assert!(!app.worker.ready());
    app.update().unwrap();
    assert!(app.worker.ready());
    assert_eq!(app.read_vec(INPUT_BUFFER_NAME), vec![6.0, 7.0, 8.0, 9.0]);
}

#[test]
fn a_read_of_a_name_without_staging_pair_is_an_error() {
    let app = simple_compute_worker();
    match app.worker.try_read_raw("nonexistent") {
        Err(Error::StagingBufferNotFound(name)) => assert_eq!(name, "nonexistent"),
        other => panic!("expected StagingBufferNotFound, got {:?}", other.map(|bytes| bytes.len())),
    }
    match app.worker.try_read_raw("uni") {
        Err(Error::StagingBufferNotFound(name)) => assert_eq!(name, "uni"),
        other => panic!("expected StagingBufferNotFound, got {:?}", other.map(|bytes| bytes.len())),
    }
}

#[test]
fn a_pass_on_a_name_that_is_no_buffer_fails_the_tick() {
    let mut cache = AppPipelineCache::new();
    let mut builder = AppComputeWorkerBuilder::new();
    builder
        .add_uniform("uni", bytemuck::bytes_of(&5.0f32))
        .add_pass(&mut cache, "SimpleShader", "SimpleShader.wgsl", [4, 1, 1], &["uni", "missing"]);
    let mut app = App::new(&builder, cache, vec![("SimpleShader.wgsl", 0)]);
    match app.update() {
        Err(Error::BufferNotFound(name)) => assert_eq!(name, "missing"),
        other => panic!("expected BufferNotFound, got {other:?}"),
    }
    assert!(!app.worker.ready());
}
