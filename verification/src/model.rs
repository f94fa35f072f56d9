//! The worker as a mathematical state machine: what every entry point of
//! [`AppComputeWorker`](crate::worker::AppComputeWorker) does, on views.
use crate::device::{Buffer, CommandView, ComputePipeline, Maintain, MaintainResult};
use crate::error::ErrorView;
use crate::pipeline_cache::{CachedAppComputePipelineId, PipelineCacheView};
use crate::step::StepView;
use crate::table::Table;
use crate::worker::{RunMode, WorkerState};
use vstd::prelude::*;

verus! {

/// The mathematical content of a staging pair: the host-readable mirror of a
/// named buffer, whether it is mapped, and the bytes the device last showed
/// through it.
pub struct StagingBufferView {
    pub mapped: bool,
    pub buffer: Buffer,
    pub contents: Seq<u8>,
}

/// What a tick asks of the device.
pub enum TickView {
    /// Nothing: a batch is in flight, or the worker waits to be told to run.
    Idle,
    /// Nothing yet: a pass's pipeline is not compiled, and the steps start
    /// over on the next tick.
    Retry,
    /// Submit `commands` as one batch, then map every buffer of `maps` for reading.
    Submitted { commands: Seq<CommandView>, maps: Seq<Buffer> },
}

/// The time that has passed between `start` and `now`: none where the clock
/// went back.
pub open spec fn elapsed(start: u128, now: u128) -> nat {
    if now >= start {
        (now - start) as nat
    } else {
        0
    }
}

/// Whether a batch sent at `start` is still only looked at, at `now`, rather
/// than waited for: always without a limit, and else while less than the
/// limit has passed.
pub open spec fn is_async(maximum_async_time: Option<u128>, start: u128, now: u128) -> bool {
    match maximum_async_time {
        Some(limit) => elapsed(start, now) < limit,
        None => true,
    }
}

/// The staging pairs, each mapped and showing the bytes of `contents` at
/// its position.
pub open spec fn mapped_pairs(pairs: Table<StagingBufferView>, contents: Seq<Seq<u8>>) -> Table<
    StagingBufferView,
> {
    Table {
        keys: pairs.keys,
        values: Seq::new(
            pairs.values.len(),
            |i: int|
                StagingBufferView { mapped: true, buffer: pairs.values[i].buffer, contents: contents[i] },
        ),
    }
}

/// The staging pairs with no mirror mapped.
pub open spec fn unmapped_pairs(pairs: Table<StagingBufferView>) -> Table<StagingBufferView> {
    Table {
        keys: pairs.keys,
        values: pairs.values.map_values(
            |pair: StagingBufferView| StagingBufferView { mapped: false, ..pair },
        ),
    }
}

/// The mirrors that are mapped, in the order of the pairs.
pub open spec fn mapped_mirrors(pairs: Table<StagingBufferView>) -> Seq<Buffer> {
    pairs.values.filter(|pair: StagingBufferView| pair.mapped).map_values(
        |pair: StagingBufferView| pair.buffer,
    )
}

/// The pipeline entry at `index` after a look into `cache`: an entry that is
/// still empty takes what the ticket at its position resolves to.
pub open spec fn extracted(
    pipelines: Table<Option<ComputePipeline>>,
    tickets: Table<CachedAppComputePipelineId>,
    cache: PipelineCacheView,
    index: int,
) -> Option<ComputePipeline> {
    match pipelines.values[index] {
        Some(pipeline) => Some(pipeline),
        None => cache.get_compute_pipeline(tickets.values[index]),
    }
}

/// The pipeline entries after a look into `cache` for every entry that is
/// still empty.
pub open spec fn extracted_pipelines(
    pipelines: Table<Option<ComputePipeline>>,
    tickets: Table<CachedAppComputePipelineId>,
    cache: PipelineCacheView,
) -> Table<Option<ComputePipeline>> {
    Table {
        keys: pipelines.keys,
        values: Seq::new(pipelines.values.len(), |i: int| extracted(pipelines, tickets, cache, i)),
    }
}

/// The mathematical content of a worker.
pub struct WorkerView {
    pub state: WorkerState,
    pub run_mode: RunMode,
    /// The allocation that each buffer name stands for.
    pub buffers: Table<Buffer>,
    /// The staging pair of each name that has one.
    pub staging_buffers: Table<StagingBufferView>,
    /// The ticket of each shader's pipeline.
    pub cached_pipeline_ids: Table<CachedAppComputePipelineId>,
    /// The compiled pipeline of each shader, once it is known.
    pub pipelines: Table<Option<ComputePipeline>>,
    pub steps: Seq<StepView>,
    /// The commands recorded in the open batch; `None` while a batch is in flight.
    pub command_encoder: Option<Seq<CommandView>>,
    /// The writes asked for since the last cycle took them up.
    pub pending_writes: Seq<CommandView>,
    pub submission_queue_processed: bool,
    /// After how many nanoseconds in flight the worker waits for its batch;
    /// `None` for never.
    pub maximum_async_time: Option<u128>,
}

impl WorkerView {
    /// The invariant of a worker: its tables are well-formed, every staging
    /// pair belongs to a buffer, every shader with a ticket has a pipeline
    /// entry and every pass names such a shader, a batch is open exactly
    /// while none is in flight, and none is in flight while a one-shot
    /// worker waits to be told to run.
    pub open spec fn wf(self) -> bool {
        &&& self.buffers.wf()
        &&& self.staging_buffers.wf()
        &&& self.cached_pipeline_ids.wf()
        &&& self.pipelines.wf()
        &&& forall|i: int|
            0 <= i < self.staging_buffers.keys.len() ==> self.buffers.contains(
                #[trigger] self.staging_buffers.keys[i],
            )
        &&& self.pipelines.keys == self.cached_pipeline_ids.keys
        &&& forall|i: int|
            0 <= i < self.steps.len() ==> (#[trigger] self.steps[i] matches StepView::ComputePass(pass)
                ==> self.pipelines.contains(pass.shader_type_path))
        &&& (self.state is Working <==> self.command_encoder is None)
        &&& (self.state is Working ==> self.run_mode != RunMode::OneShot(false))
    }

    /// Whether the results of the last cycle can be read.
    pub open spec fn ready(self) -> bool {
        self.state is FinishedWorking
    }

    /// Whether a tick starts a cycle.
    pub open spec fn ready_to_execute(self) -> bool {
        !(self.state is Working) && self.run_mode != RunMode::OneShot(false)
    }

    /// The worker after it was told to run: a one-shot worker is armed.
    pub open spec fn execute(self) -> Self {
        match self.run_mode {
            RunMode::Continuous => self,
            RunMode::OneShot(_) => WorkerView { run_mode: RunMode::OneShot(true), ..self },
        }
    }

    /// The first position from `from` on whose name is no buffer, if any.
    pub open spec fn missing_var(self, vars: Seq<Seq<char>>, from: int) -> Option<int>
        decreases vars.len() - from,
    {
        if from < 0 || from >= vars.len() {
            None
        } else if !self.buffers.contains(vars[from]) {
            Some(from)
        } else {
            self.missing_var(vars, from + 1)
        }
    }

    /// The allocations that the names `vars` stand for, in order.
    pub open spec fn bindings(self, vars: Seq<Seq<char>>) -> Seq<Buffer> {
        Seq::new(vars.len(), |i: int| self.buffers.get(vars[i])->0)
    }

    /// The worker with `command` recorded in its open batch.
    pub open spec fn record(self, command: CommandView) -> Self {
        WorkerView { command_encoder: Some(self.command_encoder->0.push(command)), ..self }
    }

    /// Carries out the step at `index` as a pass: records one dispatch, on
    /// the allocations that the pass's names stand for at this moment. In
    /// this order it fails on a step that is no pass, on the first name that
    /// is no buffer, on a shader without pipeline entry, on a pipeline that
    /// is not compiled, and without an open batch; a failure changes nothing.
    pub open spec fn dispatch(self, index: int) -> (Self, Result<(), ErrorView>) {
        match self.steps[index] {
            StepView::Swap(_, _) => (self, Err(ErrorView::InvalidStep(index))),
            StepView::ComputePass(pass) => {
                if let Some(k) = self.missing_var(pass.vars, 0) {
                    (self, Err(ErrorView::BufferNotFound(pass.vars[k])))
                } else {
                    match self.pipelines.get(pass.shader_type_path) {
                        None => (self, Err(ErrorView::PipelinesEmpty)),
                        Some(None) => (self, Err(ErrorView::PipelineNotReady)),
                        Some(Some(pipeline)) => {
                            if self.command_encoder is None {
                                (self, Err(ErrorView::EncoderIsNone))
                            } else {
                                (
                                    self.record(
                                        CommandView::Dispatch {
                                            pipeline,
                                            bindings: self.bindings(pass.vars),
                                            workgroups: pass.workgroups,
                                        },
                                    ),
                                    Ok(()),
                                )
                            }
                        },
                    }
                }
            },
        }
    }

    /// Carries out the step at `index` as a swap: the two names exchange
    /// their allocations. It fails on a step that is no swap and on the
    /// first of the two names that is no buffer; a failure changes nothing.
    pub open spec fn swap(self, index: int) -> (Self, Result<(), ErrorView>) {
        match self.steps[index] {
            StepView::ComputePass(_) => (self, Err(ErrorView::InvalidStep(index))),
            StepView::Swap(a, b) => {
                if !self.buffers.contains(a) {
                    (self, Err(ErrorView::BufferNotFound(a)))
                } else if !self.buffers.contains(b) {
                    (self, Err(ErrorView::BufferNotFound(b)))
                } else {
                    (WorkerView { buffers: self.buffers.swap(a, b), ..self }, Ok(()))
                }
            },
        }
    }

    /// Carries out the step at `index` by the handler of its kind.
    pub open spec fn step(self, index: int) -> (Self, Result<(), ErrorView>) {
        match self.steps[index] {
            StepView::ComputePass(_) => self.dispatch(index),
            StepView::Swap(_, _) => self.swap(index),
        }
    }

    /// Carries out the steps from `from` on, in order, up to and including
    /// the first that fails.
    pub open spec fn run_steps(self, from: int) -> (Self, Result<(), ErrorView>)
        decreases self.steps.len() - from,
    {
        if from < 0 || from >= self.steps.len() {
            (self, Ok(()))
        } else {
            let (next, outcome) = self.step(from);
            if outcome is Ok {
                next.run_steps(from + 1)
            } else {
                (next, outcome)
            }
        }
    }

    /// What no step touches: a step changes at most which allocation a
    /// buffer name stands for and what the open batch holds.
    pub open spec fn stepped_to(self, next: Self) -> bool {
        &&& next.state == self.state
        &&& next.run_mode == self.run_mode
        &&& next.buffers.keys == self.buffers.keys
        &&& next.staging_buffers == self.staging_buffers
        &&& next.cached_pipeline_ids == self.cached_pipeline_ids
        &&& next.pipelines == self.pipelines
        &&& next.steps == self.steps
        &&& (next.command_encoder is Some <==> self.command_encoder is Some)
        &&& next.pending_writes == self.pending_writes
        &&& next.submission_queue_processed == self.submission_queue_processed
        &&& next.maximum_async_time == self.maximum_async_time
    }

    /// A step keeps the worker's invariant and touches nothing but the
    /// buffers' allocations and the open batch.
    pub proof fn lemma_step(self, index: int)
        requires
            self.wf(),
            0 <= index < self.steps.len(),
        ensures
            self.step(index).0.wf(),
            self.stepped_to(self.step(index).0),
    {
        match self.steps[index] {
            StepView::ComputePass(_) => {},
            StepView::Swap(a, b) => {
                if self.buffers.contains(a) && self.buffers.contains(b) {
                    self.buffers.lemma_swap(a, b);
                }
            },
        }
    }

    /// The steps keep the worker's invariant and touch nothing but the
    /// buffers' allocations and the open batch.
    pub proof fn lemma_run_steps(self, from: int)
        requires
            self.wf(),
            0 <= from,
        ensures
            self.run_steps(from).0.wf(),
            self.stepped_to(self.run_steps(from).0),
        decreases self.steps.len() - from,
    {
        if from < self.steps.len() {
            self.lemma_step(from);
            let (next, outcome) = self.step(from);
            if outcome is Ok {
                next.lemma_run_steps(from + 1);
            }
        }
    }

    /// Recording the copies into the mirrors keeps the worker's invariant
    /// and touches nothing but the open batch.
    pub proof fn lemma_read_staging_buffers(self, from: int)
        requires
            self.wf(),
            0 <= from,
        ensures
            self.read_staging_buffers(from).0.wf(),
            self.stepped_to(self.read_staging_buffers(from).0),
            self.read_staging_buffers(from).0.buffers == self.buffers,
        decreases self.staging_buffers.len() - from,
    {
        if from < self.staging_buffers.len() && self.command_encoder is Some
            && self.buffers.contains(self.staging_buffers.keys[from]) {
            self.record(self.mirror_copy(from)).lemma_read_staging_buffers(from + 1);
        }
    }

    /// The copy that brings the buffer of the staging pair at `index` into its mirror.
    pub open spec fn mirror_copy(self, index: int) -> CommandView {
        let mirror = self.staging_buffers.values[index].buffer;
        CommandView::CopyBufferToBuffer {
            source: self.buffers.get(self.staging_buffers.keys[index])->0,
            destination: mirror,
            size: mirror.size,
        }
    }

    /// Records, for the staging pairs from `from` on, the copy of each
    /// pair's buffer into its mirror, up to the first pair for which this
    /// fails: without an open batch, or where the pair's name is no buffer.
    pub open spec fn read_staging_buffers(self, from: int) -> (Self, Result<(), ErrorView>)
        decreases self.staging_buffers.len() - from,
    {
        if from < 0 || from >= self.staging_buffers.len() {
            (self, Ok(()))
        } else if self.command_encoder is None {
            (self, Err(ErrorView::EncoderIsNone))
        } else if !self.buffers.contains(self.staging_buffers.keys[from]) {
            (self, Err(ErrorView::BufferNotFound(self.staging_buffers.keys[from])))
        } else {
            self.record(self.mirror_copy(from)).read_staging_buffers(from + 1)
        }
    }

    /// The mirrors of all staging pairs, in the order of the pairs.
    pub open spec fn mirrors(self) -> Seq<Buffer> {
        self.staging_buffers.values.map_values(|pair: StagingBufferView| pair.buffer)
    }

    /// The worker with the writes asked for moved into the open batch.
    pub open spec fn take_up_writes(self) -> Self {
        WorkerView {
            command_encoder: Some(self.command_encoder->0 + self.pending_writes),
            pending_writes: Seq::empty(),
            ..self
        }
    }

    /// The worker with its batch closed and in flight since `now`.
    pub open spec fn submit(self, now: u128) -> Self {
        WorkerView {
            command_encoder: None,
            state: WorkerState::Working { start_time: now },
            ..self
        }
    }

    /// The worker with a finished cycle acknowledged.
    pub open spec fn acknowledge(self) -> Self {
        if self.state is FinishedWorking {
            WorkerView { state: WorkerState::Available, ..self }
        } else {
            self
        }
    }

    /// The first half of a tick. A finished cycle is acknowledged. Then,
    /// where the worker is ready to execute, it takes up the writes asked
    /// for, carries out its steps in order, records the copies into the
    /// mirrors and closes the batch. A pipeline that is not compiled stops
    /// the tick without a batch, with whatever the earlier steps did; any
    /// other failure is the tick's error.
    pub open spec fn run(self, now: u128) -> (Self, Result<TickView, ErrorView>) {
        let start = self.acknowledge();
        if !start.ready_to_execute() {
            (start, Ok(TickView::Idle))
        } else if start.command_encoder is None {
            (start, Err(ErrorView::EncoderIsNone))
        } else {
            let (stepped, outcome) = start.take_up_writes().run_steps(0);
            match outcome {
                Err(ErrorView::PipelineNotReady) => (stepped, Ok(TickView::Retry)),
                Err(error) => (stepped, Err(error)),
                Ok(_) => {
                    let (copied, outcome) = stepped.read_staging_buffers(0);
                    match outcome {
                        Err(error) => (copied, Err(error)),
                        Ok(_) => (
                            copied.submit(now),
                            Ok(
                                TickView::Submitted {
                                    commands: copied.command_encoder->0,
                                    maps: copied.mirrors(),
                                },
                            ),
                        ),
                    }
                },
            }
        }
    }

    /// How the device is to look after the batch in flight at `now`, if one is.
    pub open spec fn poll_mode(self, now: u128) -> Option<Maintain> {
        match self.state {
            WorkerState::Working { start_time } => Some(
                if is_async(self.maximum_async_time, start_time, now) {
                    Maintain::Poll
                } else {
                    Maintain::Wait
                },
            ),
            _ => None,
        }
    }

    /// What the device's answer at `now` says of the batch in flight since
    /// `start_time`, and whether the batch is now known to have resolved.
    /// While the worker only looks, an empty queue counts once the device
    /// has been seen at work; while it waits, an empty queue counts at once.
    pub open spec fn poll(self, start_time: u128, now: u128, result: MaintainResult) -> (Self, bool) {
        if is_async(self.maximum_async_time, start_time, now) {
            match result {
                MaintainResult::SubmissionQueueEmpty => (
                    WorkerView { submission_queue_processed: false, ..self },
                    self.submission_queue_processed,
                ),
                MaintainResult::Processing => (
                    WorkerView { submission_queue_processed: true, ..self },
                    false,
                ),
            }
        } else {
            (self, result is SubmissionQueueEmpty)
        }
    }

    /// The worker after its batch has resolved: every mirror is mapped and
    /// shows its bytes, the results can be read, a new batch is open and a
    /// one-shot worker is disarmed.
    pub open spec fn finish(self, contents: Seq<Seq<u8>>) -> Self {
        WorkerView {
            staging_buffers: mapped_pairs(self.staging_buffers, contents),
            state: WorkerState::FinishedWorking,
            command_encoder: Some(Seq::empty()),
            run_mode: match self.run_mode {
                RunMode::Continuous => RunMode::Continuous,
                RunMode::OneShot(_) => RunMode::OneShot(false),
            },
            ..self
        }
    }

    /// The mirrors that are mapped, in the order of the pairs.
    pub open spec fn mapped_mirrors(self) -> Seq<Buffer> {
        mapped_mirrors(self.staging_buffers)
    }

    /// The worker with no mirror mapped.
    pub open spec fn unmap_all(self) -> Self {
        WorkerView { staging_buffers: unmapped_pairs(self.staging_buffers), ..self }
    }

    /// The worker after a look into `cache` for every pipeline it still lacks.
    pub open spec fn extract_pipelines(self, cache: PipelineCacheView) -> Self {
        WorkerView {
            pipelines: extracted_pipelines(self.pipelines, self.cached_pipeline_ids, cache),
            ..self
        }
    }

    /// Asks for `data` to be written to the buffer that `target` stands for
    /// at this moment. It fails where `target` is no buffer.
    pub open spec fn write(self, target: Seq<char>, data: Seq<u8>) -> (Self, Result<(), ErrorView>) {
        match self.buffers.get(target) {
            None => (self, Err(ErrorView::BufferNotFound(target))),
            Some(buffer) => (
                WorkerView {
                    pending_writes: self.pending_writes.push(CommandView::WriteBuffer { buffer, data }),
                    ..self
                },
                Ok(()),
            ),
        }
    }

    /// The bytes that the mirror of `target` shows. It fails where `target`
    /// has no staging pair.
    pub open spec fn read_raw(self, target: Seq<char>) -> Result<Seq<u8>, ErrorView> {
        match self.staging_buffers.get(target) {
            None => Err(ErrorView::StagingBufferNotFound(target)),
            Some(pair) => Ok(pair.contents),
        }
    }
}

} // verus!
