use crate::device::{Buffer, Command, CommandView, ComputePipeline, Maintain, MaintainResult, commands_view};
use crate::error::{Error, ErrorView};
use crate::model::{
    StagingBufferView, TickView, WorkerView, extracted, extracted_pipelines, is_async, mapped_mirrors,
    mapped_pairs, unmapped_pairs,
};
use crate::pipeline_cache::{AppPipelineCache, CachedAppComputePipelineId};
use crate::step::{Step, StepView, copy_steps, names_view, steps_view};
use crate::table::{NameMap, Table};
use crate::worker_builder::AppComputeWorkerBuilder;
use vstd::prelude::*;

verus! {

/// Whether a worker starts a cycle on every tick or only when it was told to.
#[derive(Clone, Copy, Debug, PartialEq, Eq, Structural)]
pub enum RunMode {
    /// A cycle starts on every tick on which none is in flight.
    Continuous,
    /// A cycle starts only while the flag is set; the end of the cycle clears it.
    OneShot(bool),
}

/// Where a worker stands in its cycle.
#[derive(Clone, Copy, Debug, PartialEq, Eq, Structural)]
pub enum WorkerState {
    /// Built, and never run.
    Created,
    /// Idle: nothing is in flight.
    Available,
    /// A batch is in flight since `start_time`, which is counted in nanoseconds.
    Working { start_time: u128 },
    /// The batch has resolved and its results can be read.
    FinishedWorking,
}

/// A staging pair: the host-readable mirror of a named buffer, whether it is
/// mapped, and the bytes that the device last showed through it.
#[derive(Debug)]
pub struct StagingBuffer {
    pub mapped: bool,
    pub buffer: Buffer,
    pub contents: Vec<u8>,
}

impl View for StagingBuffer {
    type V = StagingBufferView;

    open spec fn view(&self) -> StagingBufferView {
        StagingBufferView { mapped: self.mapped, buffer: self.buffer, contents: self.contents@ }
    }
}

/// The contents of a table of staging pairs.
pub open spec fn staging_view(table: Table<StagingBuffer>) -> Table<StagingBufferView> {
    Table { keys: table.keys, values: table.values.map_values(|pair: StagingBuffer| pair@) }
}

/// What a tick asks of the device.
#[derive(Debug)]
pub enum Tick {
    /// Nothing: a batch is in flight, or the worker waits to be told to run.
    Idle,
    /// Nothing yet: a pass's pipeline is not compiled, and the steps start
    /// over on the next tick.
    Retry,
    /// Submit `commands` as one batch, then map every buffer of `maps` for reading.
    Submitted { commands: Vec<Command>, maps: Vec<Buffer> },
}

impl View for Tick {
    type V = TickView;

    open spec fn view(&self) -> TickView {
        match self {
            Tick::Idle => TickView::Idle,
            Tick::Retry => TickView::Retry,
            Tick::Submitted { commands, maps } => TickView::Submitted {
                commands: commands_view(commands@),
                maps: maps@,
            },
        }
    }
}

/// The contents of the outcome of a step.
pub open spec fn outcome_view(outcome: Result<(), Error>) -> Result<(), ErrorView> {
    match outcome {
        Ok(_) => Ok(()),
        Err(error) => Err(error@),
    }
}

/// The contents of the outcome of a tick.
pub open spec fn tick_view(outcome: Result<Tick, Error>) -> Result<TickView, ErrorView> {
    match outcome {
        Ok(tick) => Ok(tick@),
        Err(error) => Err(error@),
    }
}

/// The contents of the outcome of a read.
pub open spec fn read_view(outcome: Result<&Vec<u8>, Error>) -> Result<Seq<u8>, ErrorView> {
    match outcome {
        Ok(bytes) => Ok(bytes@),
        Err(error) => Err(error@),
    }
}

/// The bytes that a list of byte strings holds.
pub open spec fn shown_view(contents: Seq<Vec<u8>>) -> Seq<Seq<u8>> {
    contents.map_values(|bytes: Vec<u8>| bytes@)
}

/// Manages the buffers of a compute job and the order of its work.
///
/// A worker runs every tick by default. One built with `one_shot()` runs
/// only after `execute()`.
pub struct AppComputeWorker {
    state: WorkerState,
    cached_pipeline_ids: NameMap<CachedAppComputePipelineId>,
    pipelines: NameMap<Option<ComputePipeline>>,
    buffers: NameMap<Buffer>,
    staging_buffers: NameMap<StagingBuffer>,
    steps: Vec<Step>,
    command_encoder: Option<Vec<Command>>,
    pending_writes: Vec<Command>,
    run_mode: RunMode,
    submission_queue_processed: bool,
    maximum_async_time: Option<u128>,
}

impl View for AppComputeWorker {
    type V = WorkerView;

    closed spec fn view(&self) -> WorkerView {
        WorkerView {
            state: self.state,
            run_mode: self.run_mode,
            buffers: self.buffers@,
            staging_buffers: staging_view(self.staging_buffers@),
            cached_pipeline_ids: self.cached_pipeline_ids@,
            pipelines: self.pipelines@,
            steps: steps_view(self.steps@),
            command_encoder: match self.command_encoder {
                Some(commands) => Some(commands_view(commands@)),
                None => None,
            },
            pending_writes: commands_view(self.pending_writes@),
            submission_queue_processed: self.submission_queue_processed,
            maximum_async_time: self.maximum_async_time,
        }
    }
}

/// A copy of a table of staging pairs.
pub fn copy_staging(table: &NameMap<StagingBuffer>) -> (copy: NameMap<StagingBuffer>)
    requires
        table.wf(),
    ensures
        copy.wf(),
        staging_view(copy@) == staging_view(table@),
{
    let mut copy: NameMap<StagingBuffer> = NameMap::new();
    let mut i: usize = 0;
    while i < table.len()
        invariant
            table.wf(),
            copy.wf(),
            i <= table@.len(),
            copy@.keys == table@.keys.take(i as int),
            copy@.values.len() == i,
            forall|j: int| 0 <= j < i ==> copy@.values[j]@ == table@.values[j]@,
        decreases table@.len() - i,
    {
        let pair = table.value(i);
        let duplicate = StagingBuffer {
            mapped: pair.mapped,
            buffer: pair.buffer,
            contents: pair.contents.clone(),
        };
        proof {
            let key = table@.keys[i as int];
            if copy@.contains(key) {
                let j = copy@.index_of(key);
                assert(table@.keys[j] == key);
            }
            assert(table@.keys.take(i as int).push(key) =~= table@.keys.take(i + 1));
        }
        copy.insert(table.key(i).as_str(), duplicate);
        i = i + 1;
    }
    assert(table@.keys.take(i as int) =~= table@.keys);
    assert(staging_view(copy@).values =~= staging_view(table@).values);
    copy
}

/// Maps every mirror of `pairs`: the pair at position `i` shows `contents[i]`.
fn map_all(pairs: &mut NameMap<StagingBuffer>, contents: Vec<Vec<u8>>)
    requires
        old(pairs).wf(),
        contents@.len() == old(pairs)@.len(),
    ensures
        final(pairs).wf(),
        staging_view(final(pairs)@) == mapped_pairs(staging_view(old(pairs)@), shown_view(contents@)),
{
    let ghost all = contents@;
    let ghost shown = shown_view(contents@);
    let ghost before = staging_view(pairs@);
    let mut contents = contents;
    let mut i: usize = pairs.len();
    while i > 0
        invariant
            pairs.wf(),
            i == contents@.len(),
            i <= all.len(),
            pairs@.len() == all.len(),
            all.len() == before.values.len(),
            shown == shown_view(all),
            contents@ == all.take(i as int),
            pairs@.keys == before.keys,
            pairs@.values.len() == before.values.len(),
            forall|j: int| 0 <= j < i ==> (#[trigger] pairs@.values[j])@ == before.values[j],
            forall|j: int|
                i <= j < before.values.len() ==> (#[trigger] pairs@.values[j])@ == mapped_pairs(
                    before,
                    shown,
                ).values[j],
        decreases i,
    {
        i = i - 1;
        let bytes = match contents.pop() {
            Some(bytes) => bytes,
            None => Vec::new(),
        };
        assert(bytes == all[i as int]);
        assert(contents@ =~= all.take(i as int));
        let pair = pairs.value_mut(i);
        pair.mapped = true;
        pair.contents = bytes;
    }
    assert(staging_view(pairs@).values =~= mapped_pairs(before, shown).values);
}

/// Takes every mirror of `pairs` that is mapped out of the mapping and
/// hands back those mirrors, in the order of the pairs.
fn unmap_pairs(pairs: &mut NameMap<StagingBuffer>) -> (unmapped: Vec<Buffer>)
    requires
        old(pairs).wf(),
    ensures
        final(pairs).wf(),
        staging_view(final(pairs)@) == unmapped_pairs(staging_view(old(pairs)@)),
        unmapped@ == mapped_mirrors(staging_view(old(pairs)@)),
{
    let ghost before = staging_view(pairs@);
    let ghost mapped = |pair: StagingBufferView| pair.mapped;
    let ghost mirror = |pair: StagingBufferView| pair.buffer;
    let mut unmapped: Vec<Buffer> = Vec::new();
    let mut i: usize = 0;
    while i < pairs.len()
        invariant
            pairs.wf(),
            i <= pairs@.len(),
            mapped == (|pair: StagingBufferView| pair.mapped),
            mirror == (|pair: StagingBufferView| pair.buffer),
            pairs@.keys == before.keys,
            pairs@.len() == before.values.len(),
            pairs@.values.len() == before.values.len(),
            unmapped@ == before.values.take(i as int).filter(mapped).map_values(mirror),
            forall|j: int|
                0 <= j < i ==> (#[trigger] pairs@.values[j])@ == unmapped_pairs(before).values[j],
            forall|j: int|
                i <= j < before.values.len() ==> (#[trigger] pairs@.values[j])@ == before.values[j],
        decreases pairs@.len() - i,
    {
        proof {
            let shown = before.values;
            assert(shown.take(i + 1).drop_last() =~= shown.take(i as int));
            assert(shown.take(i + 1).last() == shown[i as int]);
            reveal(Seq::filter);
            let kept = shown.take(i as int).filter(mapped);
            if shown[i as int].mapped {
                assert(shown.take(i + 1).filter(mapped) == kept.push(shown[i as int]));
                assert(kept.push(shown[i as int]).map_values(mirror) =~= kept.map_values(mirror).push(
                    shown[i as int].buffer,
                ));
            } else {
                assert(shown.take(i + 1).filter(mapped) == kept);
            }
        }
        let pair = pairs.value_mut(i);
        if pair.mapped {
            unmapped.push(pair.buffer);
            pair.mapped = false;
        }
        i = i + 1;
    }
    proof {
        assert(before.values.take(i as int) =~= before.values);
        assert(staging_view(pairs@).values =~= unmapped_pairs(before).values);
    }
    unmapped
}

/// Looks into `cache` for every entry of `pipelines` that is still empty,
/// by the ticket at the entry's position.
fn extract(
    pipelines: &mut NameMap<Option<ComputePipeline>>,
    tickets: &NameMap<CachedAppComputePipelineId>,
    cache: &AppPipelineCache,
)
    requires
        old(pipelines).wf(),
        tickets.wf(),
        tickets@.keys == old(pipelines)@.keys,
    ensures
        final(pipelines).wf(),
        final(pipelines)@ == extracted_pipelines(old(pipelines)@, tickets@, cache@),
{
    let ghost before = pipelines@;
    let mut i: usize = 0;
    while i < pipelines.len()
        invariant
            before.wf(),
            pipelines.wf(),
            tickets.wf(),
            tickets@.keys == before.keys,
            i <= before.keys.len(),
            pipelines@.keys == before.keys,
            pipelines@.values.len() == before.values.len(),
            forall|j: int|
                0 <= j < i ==> pipelines@.values[j] == extracted(before, tickets@, cache@, j),
            forall|j: int| i <= j < before.values.len() ==> pipelines@.values[j] == before.values[j],
        decreases before.keys.len() - i,
    {
        if pipelines.value(i).is_none() {
            let cached_id = *tickets.value(i);
            pipelines.set_value(i, cache.get_compute_pipeline(cached_id));
        }
        i = i + 1;
    }
    assert(pipelines@.values =~= extracted_pipelines(before, tickets@, cache@).values);
}

impl AppComputeWorker {
    /// The invariant of a worker.
    pub open spec fn wf(&self) -> bool {
        self@.wf()
    }

    proof fn lemma_tables(&self)
        requires
            self.wf(),
        ensures
            self.buffers.wf(),
            self.staging_buffers.wf(),
            self.cached_pipeline_ids.wf(),
            self.pipelines.wf(),
            self.staging_buffers@.len() == self@.staging_buffers.len(),
    {
    }

    /// The worker that `builder` describes: never run, with a batch open
    /// and no pipeline compiled.
    pub fn from_builder(builder: &AppComputeWorkerBuilder) -> (worker: Self)
        requires
            builder.wf(),
        ensures
            worker.wf(),
            worker@ == builder@.build(),
    {
        proof {
            builder.lemma_view();
        }
        let cached_pipeline_ids = builder.cached_pipeline_ids.duplicate();
        let mut pipelines: NameMap<Option<ComputePipeline>> = NameMap::new();
        let mut i: usize = 0;
        while i < cached_pipeline_ids.len()
            invariant
                cached_pipeline_ids.wf(),
                pipelines.wf(),
                i <= cached_pipeline_ids@.len(),
                pipelines@.keys == cached_pipeline_ids@.keys.take(i as int),
                pipelines@.values == Seq::new(i as nat, |j: int| None::<ComputePipeline>),
            decreases cached_pipeline_ids@.len() - i,
        {
            proof {
                let key = cached_pipeline_ids@.keys[i as int];
                if pipelines@.contains(key) {
                    let j = pipelines@.index_of(key);
                    assert(cached_pipeline_ids@.keys[j] == key);
                }
                assert(cached_pipeline_ids@.keys.take(i as int).push(key)
                    =~= cached_pipeline_ids@.keys.take(i + 1));
                assert(Seq::new(i as nat, |j: int| None::<ComputePipeline>).push(None) =~= Seq::new(
                    (i + 1) as nat,
                    |j: int| None::<ComputePipeline>,
                ));
            }
            pipelines.insert(cached_pipeline_ids.key(i).as_str(), None);
            i = i + 1;
        }
        assert(cached_pipeline_ids@.keys.take(i as int) =~= cached_pipeline_ids@.keys);
        let worker = AppComputeWorker {
            state: WorkerState::Created,
            cached_pipeline_ids,
            pipelines,
            buffers: builder.buffers.duplicate(),
            staging_buffers: copy_staging(&builder.staging_buffers),
            steps: copy_steps(&builder.steps),
            command_encoder: Some(Vec::new()),
            pending_writes: Vec::new(),
            run_mode: builder.run_mode,
            submission_queue_processed: false,
            maximum_async_time: builder.maximum_async_time,
        };
        proof {
            assert(worker@.command_encoder == Some(Seq::<CommandView>::empty())) by {
                assert(commands_view(Seq::<Command>::empty()) =~= Seq::<CommandView>::empty());
            }
            assert(worker@.pending_writes =~= Seq::<CommandView>::empty());
            assert(worker@.pipelines.values =~= builder@.build().pipelines.values);
        }
        worker
    }

    /// Whether the results of the last cycle can be read.
    #[inline]
    pub fn ready(&self) -> (yes: bool)
        ensures
            yes == self@.ready(),
    {
        match self.state {
            WorkerState::FinishedWorking => true,
            _ => false,
        }
    }

    /// Tells the worker to run on the next tick. A continuous worker is
    /// left as it is.
    #[inline]
    pub fn execute(&mut self)
        requires
            old(self).wf(),
        ensures
            final(self).wf(),
            final(self)@ == old(self)@.execute(),
    {
        match self.run_mode {
            RunMode::Continuous => {},
            RunMode::OneShot(_) => {
                self.run_mode = RunMode::OneShot(true);
            },
        }
    }

    /// Whether a tick starts a cycle.
    #[inline]
    pub fn ready_to_execute(&self) -> (yes: bool)
        ensures
            yes == self@.ready_to_execute(),
    {
        let working = match self.state {
            WorkerState::Working { start_time: _ } => true,
            _ => false,
        };
        let disarmed = match self.run_mode {
            RunMode::OneShot(armed) => !armed,
            RunMode::Continuous => false,
        };
        !working && !disarmed
    }

    /// Where the worker stands in its cycle.
    pub fn state(&self) -> (state: WorkerState)
        ensures
            state == self@.state,
    {
        self.state
    }

    /// The allocation that `target` stands for, if it is a buffer.
    pub fn get_buffer(&self, target: &str) -> (buffer: Option<&Buffer>)
        requires
            self.wf(),
        ensures
            buffer is Some <==> self@.buffers.contains(target@),
            buffer matches Some(found) ==> self@.buffers.get(target@) == Some(*found),
    {
        self.buffers.get(target)
    }

    /// Records `command` in the open batch.
    fn record(&mut self, command: Command) -> (outcome: Result<(), Error>)
        requires
            old(self).wf(),
        ensures
            final(self).wf(),
            old(self)@.command_encoder is None ==> outcome == Err::<(), Error>(Error::EncoderIsNone)
                && *final(self) == *old(self),
            old(self)@.command_encoder is Some ==> outcome is Ok && final(self)@ == old(self)@.record(
                command@,
            ),
    {
        let mut encoder: Option<Vec<Command>> = None;
        std::mem::swap(&mut encoder, &mut self.command_encoder);
        match encoder {
            None => Err(Error::EncoderIsNone),
            Some(mut commands) => {
                let ghost before = commands@;
                commands.push(command);
                assert(commands_view(commands@) =~= commands_view(before).push(command@));
                self.command_encoder = Some(commands);
                Ok(())
            },
        }
    }

    /// Carries out the step at `index` as a pass: records one dispatch, on
    /// the allocations that the pass's names stand for at this moment.
    #[inline]
    pub fn dispatch(&mut self, index: usize) -> (outcome: Result<(), Error>)
        requires
            old(self).wf(),
            index < old(self)@.steps.len(),
        ensures
            final(self).wf(),
            final(self)@ == old(self)@.dispatch(index as int).0,
            outcome_view(outcome) == old(self)@.dispatch(index as int).1,
    {
        proof {
            self.lemma_tables();
        }
        let compute_pass = match &self.steps[index] {
            Step::ComputePass(compute_pass) => compute_pass,
            Step::Swap(_, _) => {
                return Err(Error::InvalidStep(index));
            },
        };
        let ghost vars = names_view(compute_pass.vars@);
        assert(self@.steps[index as int] == StepView::ComputePass(compute_pass@));
        let mut bindings: Vec<Buffer> = Vec::new();
        let mut i: usize = 0;
        while i < compute_pass.vars.len()
            invariant
                self.wf(),
                *self == *old(self),
                index < self@.steps.len(),
                self@.steps[index as int] == StepView::ComputePass(compute_pass@),
                self.buffers.wf(),
                self.buffers@ == self@.buffers,
                vars == names_view(compute_pass.vars@),
                i <= compute_pass.vars.len(),
                self@.missing_var(vars, 0) == self@.missing_var(vars, i as int),
                bindings@ =~= Seq::new(i as nat, |j: int| self@.buffers.get(vars[j])->0),
            decreases compute_pass.vars.len() - i,
        {
            let var = &compute_pass.vars[i];
            assert(vars[i as int] == var@);
            match self.buffers.get(var.as_str()) {
                None => {
                    assert(self@.missing_var(vars, i as int) == Some(i as int));
                    return Err(Error::BufferNotFound(var.clone()));
                },
                Some(buffer) => {
                    bindings.push(*buffer);
                },
            }
            i = i + 1;
        }
        assert(bindings@ =~= self@.bindings(vars));
        let pipeline = match self.pipelines.get(compute_pass.shader_type_path.as_str()) {
            None => {
                return Err(Error::PipelinesEmpty);
            },
            Some(None) => {
                return Err(Error::PipelineNotReady);
            },
            Some(Some(pipeline)) => *pipeline,
        };
        let workgroups = compute_pass.workgroups;
        self.record(Command::Dispatch { pipeline, bindings, workgroups })
    }

    /// Carries out the step at `index` as a swap: the two names exchange
    /// their allocations.
    #[inline]
    pub fn swap(&mut self, index: usize) -> (outcome: Result<(), Error>)
        requires
            old(self).wf(),
            index < old(self)@.steps.len(),
        ensures
            final(self).wf(),
            final(self)@ == old(self)@.swap(index as int).0,
            outcome_view(outcome) == old(self)@.swap(index as int).1,
    {
        proof {
            self.lemma_tables();
        }
        let (first, second) = match &self.steps[index] {
            Step::ComputePass(_) => {
                return Err(Error::InvalidStep(index));
            },
            Step::Swap(a, b) => (a, b),
        };
        assert(self@.steps[index as int] == StepView::Swap(first@, second@));
        let i = match self.buffers.position(first.as_str()) {
            None => {
                return Err(Error::BufferNotFound(first.clone()));
            },
            Some(i) => i,
        };
        let j = match self.buffers.position(second.as_str()) {
            None => {
                return Err(Error::BufferNotFound(second.clone()));
            },
            Some(j) => j,
        };
        proof {
            self@.buffers.lemma_swap(first@, second@);
        }
        self.buffers.swap_values(i, j);
        Ok(())
    }

    /// Records, for every staging pair, the copy of the pair's buffer into
    /// its mirror, up to the first pair for which this fails.
    #[inline]
    pub fn read_staging_buffers(&mut self) -> (outcome: Result<(), Error>)
        requires
            old(self).wf(),
        ensures
            final(self).wf(),
            final(self)@ == old(self)@.read_staging_buffers(0).0,
            outcome_view(outcome) == old(self)@.read_staging_buffers(0).1,
    {
        proof {
            self.lemma_tables();
        }
        let mut i: usize = 0;
        while i < self.staging_buffers.len()
            invariant
                self.wf(),
                i <= self@.staging_buffers.len(),
                self@.read_staging_buffers(i as int) == old(self)@.read_staging_buffers(0),
            decreases self@.staging_buffers.len() - i,
        {
            proof {
                self.lemma_tables();
            }
            if self.command_encoder.is_none() {
                return Err(Error::EncoderIsNone);
            }
            let name = self.staging_buffers.key(i);
            let mirror = self.staging_buffers.value(i).buffer;
            let source = match self.buffers.get(name.as_str()) {
                None => {
                    return Err(Error::BufferNotFound(name.clone()));
                },
                Some(buffer) => *buffer,
            };
            let command = Command::CopyBufferToBuffer {
                source,
                destination: mirror,
                size: mirror.size,
            };
            assert(command@ == self@.mirror_copy(i as int));
            let _ = self.record(command);
            i = i + 1;
        }
        Ok(())
    }

    /// The mirrors of all staging pairs, in the order of the pairs: what is
    /// to be mapped for reading once a batch was submitted.
    #[inline]
    pub fn map_staging_buffers(&self) -> (mirrors: Vec<Buffer>)
        requires
            self.wf(),
        ensures
            mirrors@ == self@.mirrors(),
    {
        proof {
            self.lemma_tables();
        }
        let mut mirrors: Vec<Buffer> = Vec::new();
        let mut i: usize = 0;
        while i < self.staging_buffers.len()
            invariant
                self.staging_buffers.wf(),
                i <= self.staging_buffers@.len(),
                mirrors@.len() == i,
                forall|j: int| 0 <= j < i ==> mirrors@[j] == self.staging_buffers@.values[j].buffer,
            decreases self.staging_buffers@.len() - i,
        {
            mirrors.push(self.staging_buffers.value(i).buffer);
            i = i + 1;
        }
        assert(mirrors@ =~= self@.mirrors());
        mirrors
    }

    /// Closes the open batch and hands back its commands; the batch is in
    /// flight since `now`.
    pub fn submit(&mut self, now: u128) -> (commands: Vec<Command>)
        requires
            old(self).wf(),
            old(self)@.command_encoder is Some,
            old(self)@.run_mode != RunMode::OneShot(false),
        ensures
            final(self).wf(),
            final(self)@ == old(self)@.submit(now),
            commands_view(commands@) == old(self)@.command_encoder->0,
    {
        let mut encoder: Option<Vec<Command>> = None;
        std::mem::swap(&mut encoder, &mut self.command_encoder);
        self.state = WorkerState::Working { start_time: now };
        match encoder {
            Some(commands) => commands,
            None => Vec::new(),
        }
    }

    /// Moves the writes asked for into the open batch.
    fn take_up_writes(&mut self)
        requires
            old(self).wf(),
            old(self)@.command_encoder is Some,
        ensures
            final(self).wf(),
            final(self)@ == old(self)@.take_up_writes(),
    {
        let mut encoder: Option<Vec<Command>> = None;
        std::mem::swap(&mut encoder, &mut self.command_encoder);
        match encoder {
            Some(mut commands) => {
                let ghost recorded = commands@;
                let ghost writes = self.pending_writes@;
                commands.append(&mut self.pending_writes);
                assert(commands_view(commands@) =~= commands_view(recorded) + commands_view(writes));
                assert(commands_view(self.pending_writes@) =~= Seq::<CommandView>::empty());
                self.command_encoder = Some(commands);
            },
            None => {},
        }
    }

    /// The first half of a tick: acknowledges a finished cycle and, where
    /// the worker is ready to execute, takes up the writes asked for,
    /// carries out the steps in order, records the copies into the mirrors
    /// and closes the batch at `now`, which is counted in nanoseconds.
    pub fn run(&mut self, now: u128) -> (outcome: Result<Tick, Error>)
        requires
            old(self).wf(),
        ensures
            final(self).wf(),
            final(self)@ == old(self)@.run(now).0,
            tick_view(outcome) == old(self)@.run(now).1,
    {
        let ghost origin = self@;
        if self.ready() {
            self.state = WorkerState::Available;
        }
        assert(self@ == origin.acknowledge());
        if !self.ready_to_execute() {
            return Ok(Tick::Idle);
        }
        if self.command_encoder.is_none() {
            return Err(Error::EncoderIsNone);
        }
        self.take_up_writes();
        let ghost start = self@;
        let mut i: usize = 0;
        while i < self.steps.len()
            invariant
                self.wf(),
                start.wf(),
                origin.acknowledge().ready_to_execute(),
                origin.acknowledge().command_encoder is Some,
                start == origin.acknowledge().take_up_writes(),
                origin == old(self)@,
                i <= self@.steps.len(),
                self@.steps.len() == self.steps@.len(),
                self@.run_steps(i as int) == start.run_steps(0),
            decreases self@.steps.len() - i,
        {
            assert(self@.steps[i as int] == self.steps@[i as int]@);
            let result = match self.steps[i] {
                Step::ComputePass(_) => self.dispatch(i),
                Step::Swap(_, _) => self.swap(i),
            };
            if let Err(error) = result {
                if error.recoverable() {
                    return Ok(Tick::Retry);
                }
                return Err(error);
            }
            i = i + 1;
        }
        proof {
            start.lemma_run_steps(0);
            self@.lemma_read_staging_buffers(0);
        }
        if let Err(error) = self.read_staging_buffers() {
            return Err(error);
        }
        let maps = self.map_staging_buffers();
        let commands = self.submit(now);
        Ok(Tick::Submitted { commands, maps })
    }

    /// How the device is to look after the batch in flight at `now`, if one is.
    pub fn poll_mode(&self, now: u128) -> (mode: Option<Maintain>)
        ensures
            mode == self@.poll_mode(now),
    {
        match self.state {
            WorkerState::Working { start_time } => Some(
                if asynchronous_at(self.maximum_async_time, start_time, now) {
                    Maintain::Poll
                } else {
                    Maintain::Wait
                },
            ),
            _ => None,
        }
    }

    /// Takes the device's answer at `now` to the request of
    /// [`poll_mode`](Self::poll_mode) and says whether the batch in flight
    /// is now known to have resolved.
    #[inline]
    pub fn poll(&mut self, now: u128, result: MaintainResult) -> (done: bool)
        requires
            old(self).wf(),
            old(self)@.state is Working,
        ensures
            final(self).wf(),
            final(self)@ == old(self)@.poll(old(self)@.state->start_time, now, result).0,
            done == old(self)@.poll(old(self)@.state->start_time, now, result).1,
    {
        let start_time = match self.state {
            WorkerState::Working { start_time } => start_time,
            _ => 0,
        };
        if asynchronous_at(self.maximum_async_time, start_time, now) {
            match result {
                MaintainResult::SubmissionQueueEmpty => {
                    let done = self.submission_queue_processed;
                    self.submission_queue_processed = false;
                    done
                },
                MaintainResult::Processing => {
                    self.submission_queue_processed = true;
                    false
                },
            }
        } else {
            match result {
                MaintainResult::SubmissionQueueEmpty => true,
                MaintainResult::Processing => false,
            }
        }
    }

    /// Ends the cycle of a batch that has resolved. `contents` holds, for
    /// each staging pair in order, the bytes that its mirror now shows.
    pub fn finish(&mut self, contents: Vec<Vec<u8>>)
        requires
            old(self).wf(),
            old(self)@.state is Working,
            contents@.len() == old(self)@.staging_buffers.len(),
        ensures
            final(self).wf(),
            final(self)@ == old(self)@.finish(shown_view(contents@)),
    {
        proof {
            self.lemma_tables();
        }
        map_all(&mut self.staging_buffers, contents);
        self.state = WorkerState::FinishedWorking;
        self.command_encoder = Some(Vec::new());
        match self.run_mode {
            RunMode::Continuous => {},
            RunMode::OneShot(_) => {
                self.run_mode = RunMode::OneShot(false);
            },
        }
        proof {
            assert(commands_view(Seq::<Command>::empty()) =~= Seq::<CommandView>::empty());
        }
    }

    /// Takes every mirror that is mapped out of the mapping and hands back
    /// those mirrors, in the order of the pairs, for the device to unmap.
    pub fn unmap_all(&mut self) -> (unmapped: Vec<Buffer>)
        requires
            old(self).wf(),
        ensures
            final(self).wf(),
            final(self)@ == old(self)@.unmap_all(),
            unmapped@ == old(self)@.mapped_mirrors(),
    {
        proof {
            self.lemma_tables();
        }
        unmap_pairs(&mut self.staging_buffers)
    }

    /// Looks into `pipeline_cache` for every pipeline that the worker
    /// still lacks.
    pub fn extract_pipelines(&mut self, pipeline_cache: &AppPipelineCache)
        requires
            old(self).wf(),
        ensures
            final(self).wf(),
            final(self)@ == old(self)@.extract_pipelines(pipeline_cache@),
    {
        proof {
            self.lemma_tables();
        }
        extract(&mut self.pipelines, &self.cached_pipeline_ids, pipeline_cache);
    }

    /// Reads the bytes that the mirror of `target` shows.
    #[inline]
    pub fn try_read_raw(&self, target: &str) -> (outcome: Result<&Vec<u8>, Error>)
        requires
            self.wf(),
            self@.ready(),
        ensures
            read_view(outcome) == self@.read_raw(target@),
    {
        proof {
            self.lemma_tables();
        }
        match self.staging_buffers.position(target) {
            None => Err(Error::StagingBufferNotFound(target.to_owned())),
            Some(i) => Ok(&self.staging_buffers.value(i).contents),
        }
    }

    /// Reads the bytes that the mirror of `target`, which has a staging
    /// pair, shows.
    #[inline]
    pub fn read_raw(&self, target: &str) -> (bytes: &Vec<u8>)
        requires
            self.wf(),
            self@.ready(),
            self@.staging_buffers.contains(target@),
        ensures
            Ok::<Seq<u8>, ErrorView>(bytes@) == self@.read_raw(target@),
    {
        proof {
            self.lemma_tables();
        }
        match self.staging_buffers.position(target) {
            None => vstd::pervasive::unreached(),
            Some(i) => &self.staging_buffers.value(i).contents,
        }
    }

    /// Asks for `data` to be written to the start of the buffer that
    /// `target` stands for. The next cycle takes the write up before its
    /// steps.
    #[inline]
    pub fn try_write(&mut self, target: &str, data: &[u8]) -> (outcome: Result<(), Error>)
        requires
            old(self).wf(),
        ensures
            final(self).wf(),
            final(self)@ == old(self)@.write(target@, data@).0,
            outcome_view(outcome) == old(self)@.write(target@, data@).1,
    {
        proof {
            self.lemma_tables();
        }
        let buffer = match self.buffers.get(target) {
            None => {
                return Err(Error::BufferNotFound(target.to_owned()));
            },
            Some(buffer) => *buffer,
        };
        let ghost before = self.pending_writes@;
        let command = Command::WriteBuffer { buffer, data: vstd::slice::slice_to_vec(data) };
        self.pending_writes.push(command);
        assert(commands_view(self.pending_writes@) =~= commands_view(before).push(command@));
        Ok(())
    }

    /// Asks for `data` to be written to the start of the buffer that
    /// `target`, which is a buffer, stands for.
    #[inline]
    pub fn write(&mut self, target: &str, data: &[u8])
        requires
            old(self).wf(),
            old(self)@.buffers.contains(target@),
        ensures
            final(self).wf(),
            final(self)@ == old(self)@.write(target@, data@).0,
    {
        let _ = self.try_write(target, data);
    }
}

/// Whether a batch sent at `start` is still only looked at, at `now`, rather
/// than waited for.
pub fn asynchronous_at(maximum_async_time: Option<u128>, start: u128, now: u128) -> (yes: bool)
    ensures
        yes == is_async(maximum_async_time, start, now),
{
    match maximum_async_time {
        Some(limit) => {
            let passed = if now >= start {
                now - start
            } else {
                0
            };
            passed < limit
        },
        None => true,
    }
}

} // verus!
