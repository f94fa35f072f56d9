//! What holds of every worker: the order of its work, the stability of
//! its results and the gates of its cycle.
use crate::device::{Buffer, CommandView, ComputePipeline};
use crate::error::ErrorView;
use crate::model::{StagingBufferView, TickView, WorkerView};
use crate::pipeline_cache::{CachedAppComputePipelineId, PipelineCacheView};
use crate::step::StepView;
use crate::table::Table;
use crate::worker::{RunMode, WorkerState};
use crate::worker_builder::BuilderView;
use vstd::prelude::*;

verus! {

/// The allocation that each buffer name stands for once the first `count`
/// of `steps` have run: every swap among them has exchanged its two names.
pub open spec fn registry_after(steps: Seq<StepView>, buffers: Table<Buffer>, count: int) -> Table<
    Buffer,
>
    decreases count,
{
    if count <= 0 {
        buffers
    } else {
        let earlier = registry_after(steps, buffers, count - 1);
        match steps[count - 1] {
            StepView::Swap(a, b) => earlier.swap(a, b),
            StepView::ComputePass(_) => earlier,
        }
    }
}

/// The dispatch that the pass at `index` of `steps` records: it binds what
/// the pass's names stand for once all earlier steps have run.
pub open spec fn dispatch_at(
    steps: Seq<StepView>,
    buffers: Table<Buffer>,
    pipelines: Table<Option<ComputePipeline>>,
    index: int,
) -> CommandView {
    let pass = steps[index]->ComputePass_0;
    let registry = registry_after(steps, buffers, index);
    CommandView::Dispatch {
        pipeline: pipelines.get(pass.shader_type_path)->0->0,
        bindings: Seq::new(pass.vars.len(), |i: int| registry.get(pass.vars[i])->0),
        workgroups: pass.workgroups,
    }
}

/// The dispatches that the first `count` of `steps` record: one for each
/// pass among them, in the order of the passes.
pub open spec fn dispatches(
    steps: Seq<StepView>,
    buffers: Table<Buffer>,
    pipelines: Table<Option<ComputePipeline>>,
    count: int,
) -> Seq<CommandView>
    decreases count,
{
    if count <= 0 {
        Seq::empty()
    } else {
        let earlier = dispatches(steps, buffers, pipelines, count - 1);
        match steps[count - 1] {
            StepView::ComputePass(_) => earlier.push(dispatch_at(steps, buffers, pipelines, count - 1)),
            StepView::Swap(_, _) => earlier,
        }
    }
}

/// The copies into the mirrors of the first `count` staging pairs, in the
/// order of the pairs.
pub open spec fn mirror_copies(worker: WorkerView, count: int) -> Seq<CommandView> {
    Seq::new(count as nat, |i: int| worker.mirror_copy(i))
}

/// Whether some pass of the worker names a shader whose pipeline is not compiled.
pub open spec fn stalled(worker: WorkerView) -> bool {
    exists|index: int| stalled_at(worker, index)
}

/// Whether the step at `index` is a pass whose pipeline is not compiled.
pub open spec fn stalled_at(worker: WorkerView, index: int) -> bool {
    &&& 0 <= index < worker.steps.len()
    &&& worker.steps[index] matches StepView::ComputePass(pass)
    &&& worker.pipelines.get(pass.shader_type_path) == Some(None::<ComputePipeline>)
}

proof fn lemma_steps_from(origin: WorkerView, current: WorkerView, from: int)
    requires
        origin.wf(),
        current.wf(),
        0 <= from <= origin.steps.len(),
        origin.command_encoder is Some,
        current.steps == origin.steps,
        current.pipelines == origin.pipelines,
        current.buffers == registry_after(origin.steps, origin.buffers, from),
        current.command_encoder == Some(
            origin.command_encoder->0 + dispatches(origin.steps, origin.buffers, origin.pipelines, from),
        ),
        current.run_steps(from).1 is Ok,
    ensures
        current.run_steps(from).0.buffers == registry_after(
            origin.steps,
            origin.buffers,
            origin.steps.len() as int,
        ),
        current.run_steps(from).0.command_encoder == Some(
            origin.command_encoder->0 + dispatches(
                origin.steps,
                origin.buffers,
                origin.pipelines,
                origin.steps.len() as int,
            ),
        ),
    decreases origin.steps.len() - from,
{
    if from < origin.steps.len() {
        current.lemma_step(from);
        let (next, outcome) = current.step(from);
        let recorded = dispatches(origin.steps, origin.buffers, origin.pipelines, from);
        let grown = dispatches(origin.steps, origin.buffers, origin.pipelines, from + 1);
        match origin.steps[from] {
            StepView::Swap(a, b) => {
                assert(grown == recorded);
                assert(next.command_encoder == current.command_encoder);
            },
            StepView::ComputePass(pass) => {
                let command = dispatch_at(origin.steps, origin.buffers, origin.pipelines, from);
                assert(current.bindings(pass.vars) =~= command->bindings);
                assert(grown == recorded.push(command));
                assert(next.command_encoder->0 =~= origin.command_encoder->0 + grown);
            },
        }
        lemma_steps_from(origin, next, from + 1);
    }
}

/// The steps of a worker run in the order in which they were declared.
/// Where all of them succeed, every name stands for the allocation that the
/// swaps, taken in order, have given it, and the open batch has grown by
/// one dispatch for each pass, in the order of the passes, each on the
/// allocations that its names stood for when it was the pass's turn: a pass
/// after a swap sees what the swap did, a pass before it does not.
pub proof fn lemma_steps_run_in_declared_order(worker: WorkerView)
    requires
        worker.wf(),
        worker.command_encoder is Some,
        worker.run_steps(0).1 is Ok,
    ensures
        worker.run_steps(0).0.buffers == registry_after(
            worker.steps,
            worker.buffers,
            worker.steps.len() as int,
        ),
        worker.run_steps(0).0.command_encoder == Some(
            worker.command_encoder->0 + dispatches(
                worker.steps,
                worker.buffers,
                worker.pipelines,
                worker.steps.len() as int,
            ),
        ),
{
    assert(worker.command_encoder->0 + dispatches(worker.steps, worker.buffers, worker.pipelines, 0)
        =~= worker.command_encoder->0);
    lemma_steps_from(worker, worker, 0);
}

proof fn lemma_copies_from(origin: WorkerView, current: WorkerView, from: int)
    requires
        origin.wf(),
        current.wf(),
        0 <= from <= origin.staging_buffers.len(),
        origin.command_encoder is Some,
        current.buffers == origin.buffers,
        current.staging_buffers == origin.staging_buffers,
        current.command_encoder == Some(origin.command_encoder->0 + mirror_copies(origin, from)),
        current.read_staging_buffers(from).1 is Ok,
    ensures
        current.read_staging_buffers(from).0.command_encoder == Some(
            origin.command_encoder->0 + mirror_copies(origin, origin.staging_buffers.len() as int),
        ),
    decreases origin.staging_buffers.len() - from,
{
    if from < origin.staging_buffers.len() {
        let next = current.record(current.mirror_copy(from));
        assert(current.mirror_copy(from) == origin.mirror_copy(from));
        assert(next.command_encoder->0 =~= origin.command_encoder->0 + mirror_copies(origin, from + 1));
        lemma_copies_from(origin, next, from + 1);
    }
}

/// The batch that a tick submits holds, in this order: what was recorded
/// before, the writes asked for since the last cycle, one dispatch for each
/// pass in the order of the passes, and one copy into its mirror for each
/// staging pair. So a write is carried out before every pass of the cycle
/// that takes it up, and every mirror is filled after the last pass. The
/// worker is then working since `now`, with no write left over.
pub proof fn lemma_submitted_batch(worker: WorkerView, now: u128)
    requires
        worker.wf(),
        worker.run(now).1 matches Ok(TickView::Submitted { .. }),
    ensures
        ({
            let next = worker.run(now).0;
            let stepped = worker.acknowledge().take_up_writes().run_steps(0).0;
            &&& worker.run(now).1->Ok_0->commands == worker.command_encoder->0 + worker.pending_writes
                + dispatches(worker.steps, worker.buffers, worker.pipelines, worker.steps.len() as int)
                + mirror_copies(stepped, worker.staging_buffers.len() as int)
            &&& worker.run(now).1->Ok_0->maps == worker.mirrors()
            &&& next.state == (WorkerState::Working { start_time: now })
            &&& next.pending_writes == Seq::<CommandView>::empty()
            &&& next.buffers == registry_after(worker.steps, worker.buffers, worker.steps.len() as int)
            &&& stepped.buffers == next.buffers
            &&& stepped.staging_buffers == worker.staging_buffers
        }),
{
    let start = worker.acknowledge();
    let taken = start.take_up_writes();
    let (stepped, outcome) = taken.run_steps(0);
    lemma_steps_run_in_declared_order(taken);
    taken.lemma_run_steps(0);
    stepped.lemma_read_staging_buffers(0);
    assert(stepped.command_encoder->0 + mirror_copies(stepped, 0) =~= stepped.command_encoder->0);
    lemma_copies_from(stepped, stepped, 0);
}

/// Reading is repeatable: what a read returns depends on nothing but the
/// staging pairs, and neither telling the worker to run, nor asking for a
/// write, nor a look for pipelines changes them. Two reads with no tick
/// between them return the same bytes.
pub proof fn lemma_reads_are_repeatable(
    worker: WorkerView,
    target: Seq<char>,
    written: Seq<char>,
    data: Seq<u8>,
    cache: PipelineCacheView,
)
    ensures
        worker.execute().read_raw(target) == worker.read_raw(target),
        worker.write(written, data).0.read_raw(target) == worker.read_raw(target),
        worker.extract_pipelines(cache).read_raw(target) == worker.read_raw(target),
{
}

/// What a read returns once a cycle has ended: the bytes that the device
/// showed for the pair of that name, and an error for a name without pair,
/// never an empty result in its place.
pub proof fn lemma_read_after_finish(worker: WorkerView, contents: Seq<Seq<u8>>, target: Seq<char>)
    requires
        worker.wf(),
        contents.len() == worker.staging_buffers.len(),
    ensures
        worker.finish(contents).ready(),
        worker.staging_buffers.contains(target) ==> worker.finish(contents).read_raw(target) == Ok::<
            Seq<u8>,
            ErrorView,
        >(contents[worker.staging_buffers.index_of(target)]),
        !worker.staging_buffers.contains(target) ==> worker.finish(contents).read_raw(target) == Err::<
            Seq<u8>,
            ErrorView,
        >(ErrorView::StagingBufferNotFound(target)),
{
}

/// A one-shot worker that was not told to run starts nothing: a tick only
/// acknowledges a finished cycle, asks nothing of the device, and leaves
/// nothing to poll. An idle one stays exactly as it is.
pub proof fn lemma_one_shot_waits(worker: WorkerView, now: u128)
    requires
        worker.wf(),
        worker.run_mode == RunMode::OneShot(false),
    ensures
        worker.run(now).0 == worker.acknowledge(),
        worker.run(now).1 == Ok::<TickView, ErrorView>(TickView::Idle),
        worker.run(now).0.poll_mode(now) is None,
        worker.state is Available ==> worker.run(now).0 == worker,
        worker.run(now).0.run_mode == RunMode::OneShot(false),
{
}

/// Telling a worker to run twice is the same as telling it once, and
/// telling an armed worker, or one that is working, changes nothing.
pub proof fn lemma_execute_is_idempotent(worker: WorkerView)
    ensures
        worker.execute().execute() == worker.execute(),
        worker.run_mode == RunMode::OneShot(true) ==> worker.execute() == worker,
        worker.run_mode is Continuous ==> worker.execute() == worker,
        worker.execute().state == worker.state,
{
}

proof fn lemma_stalled_steps(worker: WorkerView, from: int, index: int)
    requires
        worker.wf(),
        0 <= from <= index,
        stalled_at(worker, index),
    ensures
        worker.run_steps(from).1 is Err,
    decreases index - from,
{
    worker.lemma_step(from);
    let (next, outcome) = worker.step(from);
    if from < index {
        if outcome is Ok {
            lemma_stalled_steps(next, from + 1, index);
        }
    }
}

/// A pass whose pipeline is not compiled holds the worker back: a tick
/// submits nothing, and leaves the worker stalled and neither working nor
/// finished. As only a worker that is working can finish, a worker whose
/// pipeline never becomes ready never has results to read.
pub proof fn lemma_stalled_worker_never_advances(worker: WorkerView, now: u128)
    requires
        worker.wf(),
        stalled(worker),
        !(worker.state is Working),
    ensures
        !(worker.run(now).1 matches Ok(TickView::Submitted { .. })),
        stalled(worker.run(now).0),
        !(worker.run(now).0.state is Working),
        !worker.run(now).0.ready(),
        worker.run(now).0.poll_mode(now) is None,
{
    let index = choose|index: int| stalled_at(worker, index);
    let start = worker.acknowledge();
    if start.ready_to_execute() {
        let taken = start.take_up_writes();
        assert(stalled_at(taken, index));
        lemma_stalled_steps(taken, 0, index);
        taken.lemma_run_steps(0);
        assert(stalled_at(taken.run_steps(0).0, index));
    } else {
        assert(stalled_at(start, index));
    }
}

/// A worker stays stalled as long as the cache has not compiled the
/// pipeline that it lacks, whatever else happens to it between ticks.
pub proof fn lemma_stalled_until_compiled(
    worker: WorkerView,
    cache: PipelineCacheView,
    index: int,
    written: Seq<char>,
    data: Seq<u8>,
)
    requires
        worker.wf(),
        stalled_at(worker, index),
        cache.get_compute_pipeline(
            worker.cached_pipeline_ids.get(worker.steps[index]->ComputePass_0.shader_type_path)->0,
        ) is None,
    ensures
        stalled_at(worker.extract_pipelines(cache), index),
        stalled_at(worker.execute(), index),
        stalled_at(worker.write(written, data).0, index),
        stalled_at(worker.unmap_all(), index),
{
    let path = worker.steps[index]->ComputePass_0.shader_type_path;
    let position = worker.pipelines.index_of(path);
    worker.pipelines.lemma_contains(path);
    worker.cached_pipeline_ids.lemma_index_of(position);
    let after = worker.extract_pipelines(cache);
    assert(after.pipelines.contains(path));
    after.pipelines.lemma_contains(path);
}

/// The buffer names that a step refers to.
pub open spec fn names_of(step: StepView) -> Seq<Seq<char>> {
    match step {
        StepView::ComputePass(pass) => pass.vars,
        StepView::Swap(a, b) => seq![a, b],
    }
}

/// Whether some step refers to the buffer name `name`.
pub open spec fn named(steps: Seq<StepView>, name: Seq<char>) -> bool {
    exists|index: int| 0 <= index < steps.len() && names_of(#[trigger] steps[index]).contains(name)
}

/// A tick of a well-formed worker fails only where a pass or a swap refers
/// to a name that is no buffer, and then with that name: every pass has a
/// pipeline entry, every step goes to the handler of its kind, a batch is
/// open whenever a cycle starts, and every staging pair has its buffer.
pub proof fn lemma_tick_fails_only_on_names(worker: WorkerView, now: u128)
    requires
        worker.wf(),
    ensures
        worker.run(now).1 matches Err(error) ==> (error matches ErrorView::BufferNotFound(name)
            && named(worker.steps, name) && !worker.buffers.contains(name)),
{
    let start = worker.acknowledge();
    if start.ready_to_execute() {
        let taken = start.take_up_writes();
        lemma_steps_fail_only_on_names(taken, 0);
        taken.lemma_run_steps(0);
        lemma_copies_never_fail(taken.run_steps(0).0, 0);
    }
}

proof fn lemma_missing_var(worker: WorkerView, vars: Seq<Seq<char>>, from: int)
    requires
        0 <= from,
    ensures
        worker.missing_var(vars, from) matches Some(k) ==> from <= k < vars.len()
            && !worker.buffers.contains(vars[k]),
    decreases vars.len() - from,
{
    if from < vars.len() && worker.buffers.contains(vars[from]) {
        lemma_missing_var(worker, vars, from + 1);
    }
}

proof fn lemma_steps_fail_only_on_names(worker: WorkerView, from: int)
    requires
        worker.wf(),
        worker.command_encoder is Some,
        0 <= from,
    ensures
        worker.run_steps(from).1 matches Err(error) ==> error is PipelineNotReady || (
        error matches ErrorView::BufferNotFound(name) && named(worker.steps, name)
            && !worker.buffers.contains(name)),
    decreases worker.steps.len() - from,
{
    if from < worker.steps.len() {
        worker.lemma_step(from);
        let (next, outcome) = worker.step(from);
        match worker.steps[from] {
            StepView::ComputePass(pass) => {
                lemma_missing_var(worker, pass.vars, 0);
                if let Some(k) = worker.missing_var(pass.vars, 0) {
                    assert(names_of(worker.steps[from]).contains(pass.vars[k]));
                }
            },
            StepView::Swap(a, b) => {
                assert(names_of(worker.steps[from])[0] == a);
                assert(names_of(worker.steps[from])[1] == b);
            },
        }
        if outcome is Ok {
            lemma_steps_fail_only_on_names(next, from + 1);
        }
    }
}

proof fn lemma_copies_never_fail(worker: WorkerView, from: int)
    requires
        worker.wf(),
        worker.command_encoder is Some,
        0 <= from,
    ensures
        worker.read_staging_buffers(from).1 is Ok,
    decreases worker.staging_buffers.len() - from,
{
    if from < worker.staging_buffers.len() {
        lemma_copies_never_fail(worker.record(worker.mirror_copy(from)), from + 1);
    }
}

/// No pass of a well-formed worker is without a pipeline entry: a dispatch
/// fails for want of a compiled pipeline, never for want of an entry.
pub proof fn lemma_every_pass_has_a_pipeline_entry(worker: WorkerView, index: int)
    requires
        worker.wf(),
        0 <= index < worker.steps.len(),
    ensures
        worker.dispatch(index).1 != Err::<(), ErrorView>(ErrorView::PipelinesEmpty),
{
}

/// A swap gives no allocation away and takes none in: the buffers stand
/// for the same allocations after it as before, each as often.
pub proof fn lemma_swap_keeps_the_allocations(worker: WorkerView, index: int)
    requires
        worker.wf(),
        0 <= index < worker.steps.len(),
    ensures
        worker.swap(index).0.buffers.keys == worker.buffers.keys,
        worker.swap(index).0.buffers.values.to_multiset() == worker.buffers.values.to_multiset(),
{
    broadcast use {
        vstd::seq_lib::to_multiset_update,
        vstd::seq_lib::to_multiset_contains,
        vstd::seq_lib::to_multiset_len,
        vstd::multiset::group_multiset_axioms,
    };

    if let StepView::Swap(a, b) = worker.steps[index] {
        if worker.buffers.contains(a) && worker.buffers.contains(b) {
            let values = worker.buffers.values;
            let i = worker.buffers.index_of(a);
            let j = worker.buffers.index_of(b);
            worker.buffers.lemma_contains(a);
            worker.buffers.lemma_contains(b);
            assert(values.contains(values[i]));
            assert(values.contains(values[j]));
            assert(values.to_multiset().count(values[i]) > 0);
            assert(values.to_multiset().count(values[j]) > 0);
            let first = values.update(i, values[j]);
            assert(first.to_multiset() == values.to_multiset().insert(values[j]).remove(values[i]));
            assert(first[j] == values[j]);
            assert(first.update(j, values[i]).to_multiset() == first.to_multiset().insert(
                values[i],
            ).remove(values[j]));
            assert(first.update(j, values[i]).to_multiset() =~= values.to_multiset());
        }
    }
}

/// The steps of a worker are fixed when it is built: nothing that is done
/// to the worker changes them, or the names of its buffers and staging
/// pairs.
pub proof fn lemma_steps_are_fixed(
    worker: WorkerView,
    now: u128,
    contents: Seq<Seq<u8>>,
    cache: PipelineCacheView,
    written: Seq<char>,
    data: Seq<u8>,
)
    requires
        worker.wf(),
    ensures
        worker.run(now).0.steps == worker.steps,
        worker.run(now).0.buffers.keys == worker.buffers.keys,
        worker.run(now).0.staging_buffers == worker.staging_buffers,
        worker.finish(contents).steps == worker.steps,
        worker.finish(contents).buffers == worker.buffers,
        worker.finish(contents).staging_buffers.keys == worker.staging_buffers.keys,
        worker.unmap_all().steps == worker.steps,
        worker.unmap_all().buffers == worker.buffers,
        worker.unmap_all().staging_buffers.keys == worker.staging_buffers.keys,
        worker.extract_pipelines(cache).steps == worker.steps,
        worker.extract_pipelines(cache).buffers == worker.buffers,
        worker.write(written, data).0.steps == worker.steps,
        worker.write(written, data).0.buffers == worker.buffers,
        worker.execute().steps == worker.steps,
        worker.execute().buffers == worker.buffers,
{
    let start = worker.acknowledge();
    if start.ready_to_execute() {
        let taken = start.take_up_writes();
        taken.lemma_run_steps(0);
        taken.run_steps(0).0.lemma_read_staging_buffers(0);
    }
}

/// The cycle of a worker. A tick leaves a worker that is working alone,
/// and otherwise either submits a batch, after which the worker is working
/// since `now`, or leaves the worker idle: created if it was never run,
/// available else. No tick makes results readable; only the end of a cycle
/// does, and the next tick acknowledges them.
pub proof fn lemma_cycle(worker: WorkerView, now: u128, contents: Seq<Seq<u8>>)
    requires
        worker.wf(),
    ensures
        worker.state is Working ==> worker.run(now).0 == worker && worker.run(now).1 == Ok::<
            TickView,
            ErrorView,
        >(TickView::Idle),
        worker.run(now).1 matches Ok(TickView::Submitted { .. }) ==> worker.run(now).0.state == (
        WorkerState::Working { start_time: now }),
        !(worker.run(now).1 matches Ok(TickView::Submitted { .. })) ==> worker.run(now).0.state == (
        if worker.state is FinishedWorking {
            WorkerState::Available
        } else {
            worker.state
        }),
        !worker.run(now).0.ready(),
        worker.finish(contents).ready(),
        worker.finish(contents).run(now).0.state is Available || worker.finish(contents).run(
            now,
        ).0.state is Working,
{
    let start = worker.acknowledge();
    if start.ready_to_execute() {
        let taken = start.take_up_writes();
        taken.lemma_run_steps(0);
        taken.run_steps(0).0.lemma_read_staging_buffers(0);
    }
    let finished = worker.finish(contents);
    let acknowledged = finished.acknowledge();
    if acknowledged.ready_to_execute() {
        let taken = acknowledged.take_up_writes();
        taken.lemma_run_steps(0);
        taken.run_steps(0).0.lemma_read_staging_buffers(0);
    }
}

/// The name that is registered last wins: it stands for the new
/// allocation, and every other name stands for what it stood for.
pub proof fn lemma_last_registration_wins(
    builder: BuilderView,
    name: Seq<char>,
    usage: u32,
    size: u64,
    contents: Option<Seq<u8>>,
)
    requires
        builder.wf(),
        builder.allocations.len() <= u64::MAX,
    ensures
        builder.add_buffer(name, usage, size, contents).wf(),
        builder.add_buffer(name, usage, size, contents).buffers.get(name) == Some(
            Buffer { id: builder.allocations.len() as u64, size, usage },
        ),
        forall|other: Seq<char>|
            other != name ==> builder.add_buffer(name, usage, size, contents).buffers.get(other)
                == builder.buffers.get(other),
        builder.add_buffer(name, usage, size, contents).staging_buffers == builder.staging_buffers,
        builder.add_buffer(name, usage, size, contents).steps == builder.steps,
{
    builder.lemma_add_buffer(name, usage, size, contents);
    builder.buffers.lemma_insert(
        name,
        Buffer { id: builder.allocations.len() as u64, size, usage },
    );
}

/// The unmap phase leaves no mirror mapped, so that the tick that follows
/// it never asks for a mirror to be mapped that is mapped already; and it
/// changes nothing else.
pub proof fn lemma_unmap_all_leaves_nothing_mapped(worker: WorkerView)
    requires
        worker.wf(),
    ensures
        worker.unmap_all().wf(),
        worker.unmap_all().mapped_mirrors() == Seq::<Buffer>::empty(),
        worker.unmap_all().unmap_all() == worker.unmap_all(),
        worker.unmap_all().mirrors() == worker.mirrors(),
{
    let after = worker.unmap_all();
    let mapped = |pair: StagingBufferView| pair.mapped;
    lemma_filter_none(after.staging_buffers.values, mapped);
    assert(after.unmap_all().staging_buffers.values =~= after.staging_buffers.values);
    assert(after.mirrors() =~= worker.mirrors());
}

proof fn lemma_filter_none<A>(s: Seq<A>, pred: spec_fn(A) -> bool)
    requires
        forall|i: int| 0 <= i < s.len() ==> !pred(s[i]),
    ensures
        s.filter(pred) == Seq::<A>::empty(),
    decreases s.len(),
{
    reveal(Seq::filter);
    if s.len() > 0 {
        lemma_filter_none(s.drop_last(), pred);
    }
}

/// A ticket stays good. The pipeline that is asked for gets the next
/// ticket, takes no place before the next round of processing, and is
/// found at the index of its ticket after it, not compiled yet; and what
/// had a place before keeps it, as it was.
pub proof fn lemma_tickets_are_stable(cache: PipelineCacheView, shader: Seq<char>)
    requires
        cache.wf(),
        cache.issued() < usize::MAX,
    ensures
        ({
            let ticket = CachedAppComputePipelineId(cache.issued() as usize);
            let asked = cache.queue(shader);
            let processed = asked.process_queue();
            &&& asked.pipelines == cache.pipelines
            &&& asked.issued() == cache.issued() + 1
            &&& asked.get_compute_pipeline(ticket) is None
            &&& processed.issued() == asked.issued()
            &&& processed.pipelines[ticket.0 as int].shader == shader
            &&& processed.pipelines[ticket.0 as int].state is Queued
            &&& processed.get_compute_pipeline(ticket) is None
            &&& asked.work().contains(ticket)
            &&& forall|i: int|
                0 <= i < cache.pipelines.len() ==> processed.pipelines[i] == cache.pipelines[i]
        }),
{
    let ticket = CachedAppComputePipelineId(cache.issued() as usize);
    let asked = cache.queue(shader);
    let candidates = asked.candidates();
    let place = (asked.waiting_pipelines.len() + asked.new_pipelines.len() - 1) as int;
    assert(candidates[place] == ticket);
    assert(asked.pending(ticket));
    let pending = |id: CachedAppComputePipelineId| asked.pending(id);
    lemma_filter_keeps(candidates, pending, place);
}

proof fn lemma_filter_keeps<A>(s: Seq<A>, pred: spec_fn(A) -> bool, i: int)
    requires
        0 <= i < s.len(),
        pred(s[i]),
    ensures
        s.filter(pred).contains(s[i]),
    decreases s.len(),
{
    reveal(Seq::filter);
    if i == s.len() - 1 {
        let kept = s.drop_last().filter(pred);
        assert(s.filter(pred) == kept.push(s.last()));
        assert(s.filter(pred)[kept.len() as int] == s[i]);
    } else {
        lemma_filter_keeps(s.drop_last(), pred, i);
        let kept = s.drop_last().filter(pred);
        let at = kept.index_of(s[i]);
        assert(s.filter(pred)[at] == s[i]);
    }
}

/// The mirror of a staging pair has the size of the buffer that it mirrors.
pub proof fn lemma_mirror_has_the_size_of_its_buffer(builder: BuilderView, name: Seq<char>, contents: Seq<u8>)
    requires
        builder.wf(),
        builder.allocations.len() < u64::MAX,
    ensures
        builder.add_staging(name, contents).wf(),
        builder.add_staging(name, contents).staging_buffers.get(name)->0.buffer.size
            == builder.add_staging(name, contents).buffers.get(name)->0.size,
        builder.add_staging(name, contents).staging_buffers.get(name)->0.mapped,
{
    let usage = crate::device::rw_storage_usage(builder.extra_buffer_usages);
    let size = crate::device::initialized_size(contents.len()) as u64;
    builder.lemma_add_buffer(name, usage, size, Some(contents));
    let added = builder.add_rw_storage(name, contents);
    added.lemma_add_mirror(name);
    let pair = StagingBufferView {
        mapped: true,
        buffer: Buffer {
            id: added.allocations.len() as u64,
            size: added.buffers.get(name)->0.size,
            usage: crate::device::mirror_usage(),
        },
        contents: Seq::empty(),
    };
    added.staging_buffers.lemma_insert(name, pair);
}

} // verus!
