use crate::device::{
    Allocation, AllocationView, Buffer, contents_view, copy_dst_bits, copy_src_bits, initialized_size, map_read_bits,
    mirror_usage, rw_storage_usage, size_of_initialized, storage_bits, storage_usage, uniform_bits,
    uniform_usage, with_extra,
};
use crate::model::{StagingBufferView, WorkerView};
use crate::pipeline_cache::{AppPipelineCache, CachedAppComputePipelineId};
use crate::step::{ComputePass, ComputePassView, Step, StepView, names_view, steps_view};
use crate::table::{NameMap, Table};
use crate::worker::{AppComputeWorker, RunMode, StagingBuffer, WorkerState, staging_view};
use vstd::prelude::*;

verus! {

/// The mathematical content of an [`AppComputeWorkerBuilder`].
pub struct BuilderView {
    pub cached_pipeline_ids: Table<CachedAppComputePipelineId>,
    pub buffers: Table<Buffer>,
    pub staging_buffers: Table<StagingBufferView>,
    pub steps: Seq<StepView>,
    pub run_mode: RunMode,
    pub maximum_async_time: Option<u128>,
    /// The usage bits that every buffer added from now on gets besides its own.
    pub extra_buffer_usages: Option<u32>,
    /// What the device is to allocate, in the order in which it was asked
    /// for: the allocation with `id` `k` is the one at position `k`.
    pub allocations: Seq<AllocationView>,
}

impl BuilderView {
    /// The invariant of a builder: its tables are well-formed, every
    /// staging pair belongs to a buffer, every pass names a shader with a
    /// ticket, and every buffer and mirror is one of the allocations, with
    /// the size and usage asked for it.
    pub open spec fn wf(self) -> bool {
        &&& self.cached_pipeline_ids.wf()
        &&& self.buffers.wf()
        &&& self.staging_buffers.wf()
        &&& forall|i: int|
            0 <= i < self.staging_buffers.keys.len() ==> self.buffers.contains(
                #[trigger] self.staging_buffers.keys[i],
            )
        &&& forall|i: int|
            0 <= i < self.steps.len() ==> (#[trigger] self.steps[i] matches StepView::ComputePass(pass)
                ==> self.cached_pipeline_ids.contains(pass.shader_type_path))
        &&& forall|i: int|
            0 <= i < self.buffers.values.len() ==> self.allocated(#[trigger] self.buffers.values[i])
        &&& forall|i: int|
            0 <= i < self.staging_buffers.values.len() ==> self.allocated(
                (#[trigger] self.staging_buffers.values[i]).buffer,
            )
    }

    /// Whether `buffer` is a handle to one of the allocations asked for.
    pub open spec fn allocated(self, buffer: Buffer) -> bool {
        &&& buffer.id < self.allocations.len()
        &&& self.allocations[buffer.id as int].size == buffer.size
        &&& self.allocations[buffer.id as int].usage == buffer.usage
    }

    /// A builder to which nothing was added: continuous, and waiting for
    /// its batches from the start.
    pub open spec fn new() -> Self {
        BuilderView {
            cached_pipeline_ids: Table::empty(),
            buffers: Table::empty(),
            staging_buffers: Table::empty(),
            steps: Seq::empty(),
            run_mode: RunMode::Continuous,
            maximum_async_time: Some(0),
            extra_buffer_usages: None,
            allocations: Seq::empty(),
        }
    }

    /// The builder after a new allocation of `size` bytes with `usage` was
    /// asked for and registered as the buffer `name`.
    pub open spec fn add_buffer(
        self,
        name: Seq<char>,
        usage: u32,
        size: u64,
        contents: Option<Seq<u8>>,
    ) -> Self {
        let buffer = Buffer { id: self.allocations.len() as u64, size, usage };
        BuilderView {
            buffers: self.buffers.insert(name, buffer),
            allocations: self.allocations.push(
                AllocationView { label: name, size, usage, contents, mapped_at_creation: false },
            ),
            ..self
        }
    }

    /// The builder after a mapped, host-readable mirror of the size of the
    /// buffer `name` was asked for and registered as the staging pair of `name`.
    pub open spec fn add_mirror(self, name: Seq<char>) -> Self {
        let size = self.buffers.get(name)->0.size;
        let mirror = Buffer { id: self.allocations.len() as u64, size, usage: mirror_usage() };
        BuilderView {
            staging_buffers: self.staging_buffers.insert(
                name,
                StagingBufferView { mapped: true, buffer: mirror, contents: Seq::empty() },
            ),
            allocations: self.allocations.push(
                AllocationView {
                    label: name,
                    size,
                    usage: mirror_usage(),
                    contents: None,
                    mapped_at_creation: true,
                },
            ),
            ..self
        }
    }

    /// The builder after a uniform buffer `name` that starts with
    /// `contents` was added.
    pub open spec fn add_uniform(self, name: Seq<char>, contents: Seq<u8>) -> Self {
        self.add_buffer(
            name,
            uniform_usage(self.extra_buffer_usages),
            initialized_size(contents.len()) as u64,
            Some(contents),
        )
    }

    /// The builder after a storage buffer `name` that starts with
    /// `contents` and that passes only read was added.
    pub open spec fn add_storage(self, name: Seq<char>, contents: Seq<u8>) -> Self {
        self.add_buffer(
            name,
            storage_usage(self.extra_buffer_usages),
            initialized_size(contents.len()) as u64,
            Some(contents),
        )
    }

    /// The builder after a storage buffer `name` that starts with
    /// `contents` and that passes read and write was added.
    pub open spec fn add_rw_storage(self, name: Seq<char>, contents: Seq<u8>) -> Self {
        self.add_buffer(
            name,
            rw_storage_usage(self.extra_buffer_usages),
            initialized_size(contents.len()) as u64,
            Some(contents),
        )
    }

    /// The builder after a storage buffer `name` that starts with
    /// `contents` was added together with its mirror.
    pub open spec fn add_staging(self, name: Seq<char>, contents: Seq<u8>) -> Self {
        self.add_rw_storage(name, contents).add_mirror(name)
    }

    /// The builder after a uniform buffer `name` of `size` bytes was added.
    pub open spec fn add_empty_uniform(self, name: Seq<char>, size: u64) -> Self {
        self.add_buffer(name, uniform_usage(self.extra_buffer_usages), size, None)
    }

    /// The builder after a storage buffer `name` of `size` bytes that
    /// passes only read was added.
    pub open spec fn add_empty_storage(self, name: Seq<char>, size: u64) -> Self {
        self.add_buffer(name, storage_usage(self.extra_buffer_usages), size, None)
    }

    /// The builder after a storage buffer `name` of `size` bytes that
    /// passes read and write was added.
    pub open spec fn add_empty_rw_storage(self, name: Seq<char>, size: u64) -> Self {
        self.add_buffer(name, rw_storage_usage(self.extra_buffer_usages), size, None)
    }

    /// The builder after a storage buffer `name` of `size` bytes was added
    /// together with its mirror.
    pub open spec fn add_empty_staging(self, name: Seq<char>, size: u64) -> Self {
        self.add_empty_rw_storage(name, size).add_mirror(name)
    }

    /// The builder after a pass was added at the end of its steps. A shader
    /// that has no ticket yet gets `ticket`.
    pub open spec fn add_pass(
        self,
        ticket: CachedAppComputePipelineId,
        shader_type_path: Seq<char>,
        workgroups: Seq<u32>,
        vars: Seq<Seq<char>>,
    ) -> Self {
        BuilderView {
            cached_pipeline_ids: if self.cached_pipeline_ids.contains(shader_type_path) {
                self.cached_pipeline_ids
            } else {
                self.cached_pipeline_ids.insert(shader_type_path, ticket)
            },
            steps: self.steps.push(
                StepView::ComputePass(ComputePassView { workgroups, vars, shader_type_path }),
            ),
            ..self
        }
    }

    /// The builder after a swap of the buffers `buffer_a` and `buffer_b`
    /// was added at the end of its steps.
    pub open spec fn add_swap(self, buffer_a: Seq<char>, buffer_b: Seq<char>) -> Self {
        BuilderView { steps: self.steps.push(StepView::Swap(buffer_a, buffer_b)), ..self }
    }

    /// The worker that the builder describes: never run, with a batch open
    /// and no pipeline compiled.
    pub open spec fn build(self) -> WorkerView {
        WorkerView {
            state: WorkerState::Created,
            run_mode: self.run_mode,
            buffers: self.buffers,
            staging_buffers: self.staging_buffers,
            cached_pipeline_ids: self.cached_pipeline_ids,
            pipelines: Table {
                keys: self.cached_pipeline_ids.keys,
                values: Seq::new(self.cached_pipeline_ids.keys.len(), |i: int| None),
            },
            steps: self.steps,
            command_encoder: Some(Seq::empty()),
            pending_writes: Seq::empty(),
            submission_queue_processed: false,
            maximum_async_time: self.maximum_async_time,
        }
    }

    /// Adding a buffer keeps the builder's invariant.
    pub proof fn lemma_add_buffer(self, name: Seq<char>, usage: u32, size: u64, contents: Option<Seq<u8>>)
        requires
            self.wf(),
            self.allocations.len() <= u64::MAX,
        ensures
            self.add_buffer(name, usage, size, contents).wf(),
            self.add_buffer(name, usage, size, contents).buffers.contains(name),
    {
        let after = self.add_buffer(name, usage, size, contents);
        let buffer = Buffer { id: self.allocations.len() as u64, size, usage };
        self.buffers.lemma_insert(name, buffer);
        assert(after.allocated(buffer));
        assert forall|i: int| 0 <= i < after.buffers.values.len() implies after.allocated(
            #[trigger] after.buffers.values[i],
        ) by {
            if self.buffers.contains(name) {
                if i != self.buffers.index_of(name) {
                    assert(self.allocated(self.buffers.values[i]));
                }
            } else if i < self.buffers.values.len() {
                assert(self.allocated(self.buffers.values[i]));
            }
        }
        assert forall|i: int| 0 <= i < after.staging_buffers.values.len() implies after.allocated(
            (#[trigger] after.staging_buffers.values[i]).buffer,
        ) by {
            assert(self.allocated(self.staging_buffers.values[i].buffer));
        }
    }

    /// Adding the mirror of a buffer keeps the builder's invariant.
    pub proof fn lemma_add_mirror(self, name: Seq<char>)
        requires
            self.wf(),
            self.buffers.contains(name),
            self.allocations.len() <= u64::MAX,
        ensures
            self.add_mirror(name).wf(),
    {
        let after = self.add_mirror(name);
        let size = self.buffers.get(name)->0.size;
        let mirror = Buffer { id: self.allocations.len() as u64, size, usage: mirror_usage() };
        let pair = StagingBufferView { mapped: true, buffer: mirror, contents: Seq::empty() };
        self.staging_buffers.lemma_insert(name, pair);
        assert(after.allocated(mirror));
        assert forall|i: int| 0 <= i < after.buffers.values.len() implies after.allocated(
            #[trigger] after.buffers.values[i],
        ) by {
            assert(self.allocated(self.buffers.values[i]));
        }
        assert forall|i: int| 0 <= i < after.staging_buffers.values.len() implies after.allocated(
            (#[trigger] after.staging_buffers.values[i]).buffer,
        ) by {
            if self.staging_buffers.contains(name) {
                if i != self.staging_buffers.index_of(name) {
                    assert(self.allocated(self.staging_buffers.values[i].buffer));
                }
            } else if i < self.staging_buffers.values.len() {
                assert(self.allocated(self.staging_buffers.values[i].buffer));
            }
        }
    }

    /// Adding a pass keeps the builder's invariant.
    pub proof fn lemma_add_pass(
        self,
        ticket: CachedAppComputePipelineId,
        shader_type_path: Seq<char>,
        workgroups: Seq<u32>,
        vars: Seq<Seq<char>>,
    )
        requires
            self.wf(),
        ensures
            self.add_pass(ticket, shader_type_path, workgroups, vars).wf(),
    {
        let after = self.add_pass(ticket, shader_type_path, workgroups, vars);
        self.cached_pipeline_ids.lemma_insert(shader_type_path, ticket);
        assert forall|i: int| 0 <= i < after.steps.len() implies (
        #[trigger] after.steps[i] matches StepView::ComputePass(pass)
            ==> after.cached_pipeline_ids.contains(pass.shader_type_path)) by {
            if i < self.steps.len() {
                assert(after.steps[i] == self.steps[i]);
            }
        }
    }

    /// What a well-formed builder builds is a well-formed worker.
    pub proof fn lemma_build(self)
        requires
            self.wf(),
        ensures
            self.build().wf(),
    {
        let worker = self.build();
        assert forall|i: int| 0 <= i < worker.steps.len() implies (
        #[trigger] worker.steps[i] matches StepView::ComputePass(pass) ==> worker.pipelines.contains(
            pass.shader_type_path,
        )) by {}
    }
}

/// The contents of a list of allocations.
pub open spec fn allocations_view(allocations: Seq<Allocation>) -> Seq<AllocationView> {
    allocations.map_values(|allocation: Allocation| allocation@)
}

/// Describes a worker step by step: its buffers, its passes and swaps in
/// the order in which they are to run, and how it is to be run.
pub struct AppComputeWorkerBuilder {
    pub(crate) cached_pipeline_ids: NameMap<CachedAppComputePipelineId>,
    pub(crate) buffers: NameMap<Buffer>,
    pub(crate) staging_buffers: NameMap<StagingBuffer>,
    pub(crate) steps: Vec<Step>,
    pub(crate) run_mode: RunMode,
    /// After how many nanoseconds in flight a batch is waited for rather
    /// than looked at: at once for 0, which is the default, and never for `None`.
    pub(crate) maximum_async_time: Option<u128>,
    pub(crate) extra_buffer_usages: Option<u32>,
    pub(crate) allocations: Vec<Allocation>,
}

impl View for AppComputeWorkerBuilder {
    type V = BuilderView;

    closed spec fn view(&self) -> BuilderView {
        BuilderView {
            cached_pipeline_ids: self.cached_pipeline_ids@,
            buffers: self.buffers@,
            staging_buffers: staging_view(self.staging_buffers@),
            steps: steps_view(self.steps@),
            run_mode: self.run_mode,
            maximum_async_time: self.maximum_async_time,
            extra_buffer_usages: self.extra_buffer_usages,
            allocations: allocations_view(self.allocations@),
        }
    }
}

impl AppComputeWorkerBuilder {
    /// The invariant of a builder.
    pub open spec fn wf(&self) -> bool {
        self@.wf()
    }

    /// What the builder's fields hold, for the module that builds the worker.
    pub(crate) proof fn lemma_view(&self)
        requires
            self.wf(),
        ensures
            self.cached_pipeline_ids.wf(),
            self.buffers.wf(),
            self.staging_buffers.wf(),
            self@.cached_pipeline_ids == self.cached_pipeline_ids@,
            self@.buffers == self.buffers@,
            self@.staging_buffers == staging_view(self.staging_buffers@),
            self@.steps == steps_view(self.steps@),
            self@.run_mode == self.run_mode,
            self@.maximum_async_time == self.maximum_async_time,
            self@.build().wf(),
    {
        self@.lemma_build();
    }

    /// A builder to which nothing was added.
    pub fn new() -> (builder: Self)
        ensures
            builder.wf(),
            builder@ == BuilderView::new(),
    {
        let builder = AppComputeWorkerBuilder {
            cached_pipeline_ids: NameMap::new(),
            buffers: NameMap::new(),
            staging_buffers: NameMap::new(),
            steps: Vec::new(),
            run_mode: RunMode::Continuous,
            maximum_async_time: Some(0),
            extra_buffer_usages: None,
            allocations: Vec::new(),
        };
        assert(builder@.staging_buffers.values =~= Seq::empty());
        assert(builder@.steps =~= Seq::empty());
        assert(builder@.allocations =~= Seq::empty());
        builder
    }

    /// Asks for an allocation of `size` bytes with `usage` and registers
    /// it as the buffer `name`.
    fn add_buffer(&mut self, name: &str, usage: u32, size: u64, contents: Option<Vec<u8>>)
        requires
            old(self).wf(),
        ensures
            final(self).wf(),
            final(self)@ == old(self)@.add_buffer(name@, usage, size, contents_view(contents)),
            final(self)@.buffers.contains(name@),
    {
        let ghost before = self@;
        let ghost shown = contents_view(contents);
        let count = self.allocations.len();
        proof {
            assert(before.allocations.len() == count);
            before.lemma_add_buffer(name@, usage, size, shown);
        }
        let buffer = Buffer { id: count as u64, size, usage };
        self.allocations.push(
            Allocation { label: name.to_owned(), size, usage, contents, mapped_at_creation: false },
        );
        self.buffers.insert(name, buffer);
        assert(self@.allocations =~= before.add_buffer(name@, usage, size, shown).allocations);
    }

    /// Asks for a mapped, host-readable mirror of the buffer `name` and
    /// registers it as the staging pair of `name`.
    fn add_mirror(&mut self, name: &str)
        requires
            old(self).wf(),
            old(self)@.buffers.contains(name@),
        ensures
            final(self).wf(),
            final(self)@ == old(self)@.add_mirror(name@),
    {
        let ghost before = self@;
        let count = self.allocations.len();
        proof {
            assert(before.allocations.len() == count);
            before.lemma_add_mirror(name@);
        }
        let size = match self.buffers.get(name) {
            Some(buffer) => buffer.size,
            None => 0,
        };
        let usage = map_read_bits() | copy_dst_bits();
        let mirror = Buffer { id: count as u64, size, usage };
        self.allocations.push(
            Allocation {
                label: name.to_owned(),
                size,
                usage,
                contents: None,
                mapped_at_creation: true,
            },
        );
        let ghost staged = self.staging_buffers@;
        let pair = StagingBuffer { mapped: true, buffer: mirror, contents: Vec::new() };
        self.staging_buffers.insert(name, pair);
        proof {
            assert(pair@ == (StagingBufferView { mapped: true, buffer: mirror, contents: Seq::empty() }));
            assert(self@.allocations =~= before.add_mirror(name@).allocations);
            lemma_staging_insert(staged, name@, pair);
        }
    }

    /// Adds a uniform buffer `name` that starts with `contents`.
    pub fn add_uniform(&mut self, name: &str, contents: &[u8]) -> (builder: &mut Self)
        requires
            old(self).wf(),
            contents@.len() + 3 <= u64::MAX,
        ensures
            builder.wf(),
            builder@ == old(self)@.add_uniform(name@, contents@),
            *final(self) == *final(builder),
    {
        let usage = with_extra(copy_dst_bits() | uniform_bits(), self.extra_buffer_usages);
        let size = size_of_initialized(contents.len() as u64);
        self.add_buffer(name, usage, size, Some(vstd::slice::slice_to_vec(contents)));
        self
    }

    /// Adds a storage buffer `name` that starts with `contents`. Passes
    /// only read it.
    pub fn add_storage(&mut self, name: &str, contents: &[u8]) -> (builder: &mut Self)
        requires
            old(self).wf(),
            contents@.len() + 3 <= u64::MAX,
        ensures
            builder.wf(),
            builder@ == old(self)@.add_storage(name@, contents@),
            *final(self) == *final(builder),
    {
        let usage = with_extra(copy_dst_bits() | storage_bits(), self.extra_buffer_usages);
        let size = size_of_initialized(contents.len() as u64);
        self.add_buffer(name, usage, size, Some(vstd::slice::slice_to_vec(contents)));
        self
    }

    /// Adds a storage buffer `name` that starts with `contents`. Passes
    /// read and write it.
    pub fn add_rw_storage(&mut self, name: &str, contents: &[u8]) -> (builder: &mut Self)
        requires
            old(self).wf(),
            contents@.len() + 3 <= u64::MAX,
        ensures
            builder.wf(),
            builder@ == old(self)@.add_rw_storage(name@, contents@),
            builder@.buffers.contains(name@),
            *final(self) == *final(builder),
    {
        let usage = with_extra(
            copy_dst_bits() | copy_src_bits() | storage_bits(),
            self.extra_buffer_usages,
        );
        let size = size_of_initialized(contents.len() as u64);
        self.add_buffer(name, usage, size, Some(vstd::slice::slice_to_vec(contents)));
        self
    }

    /// Adds a storage buffer `name` that starts with `contents`, which
    /// passes read and write, together with a mapped mirror of its size
    /// through which the host reads it.
    pub fn add_staging(&mut self, name: &str, contents: &[u8]) -> (builder: &mut Self)
        requires
            old(self).wf(),
            contents@.len() + 3 <= u64::MAX,
        ensures
            builder.wf(),
            builder@ == old(self)@.add_staging(name@, contents@),
            *final(self) == *final(builder),
    {
        self.add_rw_storage(name, contents);
        self.add_mirror(name);
        self
    }

    /// Adds a uniform buffer `name` of `size` bytes.
    pub fn add_empty_uniform(&mut self, name: &str, size: u64) -> (builder: &mut Self)
        requires
            old(self).wf(),
        ensures
            builder.wf(),
            builder@ == old(self)@.add_empty_uniform(name@, size),
            *final(self) == *final(builder),
    {
        let usage = with_extra(copy_dst_bits() | uniform_bits(), self.extra_buffer_usages);
        self.add_buffer(name, usage, size, None);
        self
    }

    /// Adds a storage buffer `name` of `size` bytes. Passes only read it.
    pub fn add_empty_storage(&mut self, name: &str, size: u64) -> (builder: &mut Self)
        requires
            old(self).wf(),
        ensures
            builder.wf(),
            builder@ == old(self)@.add_empty_storage(name@, size),
            *final(self) == *final(builder),
    {
        let usage = with_extra(copy_dst_bits() | storage_bits(), self.extra_buffer_usages);
        self.add_buffer(name, usage, size, None);
        self
    }

    /// Adds a storage buffer `name` of `size` bytes. Passes read and write it.
    pub fn add_empty_rw_storage(&mut self, name: &str, size: u64) -> (builder: &mut Self)
        requires
            old(self).wf(),
        ensures
            builder.wf(),
            builder@ == old(self)@.add_empty_rw_storage(name@, size),
            builder@.buffers.contains(name@),
            *final(self) == *final(builder),
    {
        let usage = with_extra(
            copy_dst_bits() | copy_src_bits() | storage_bits(),
            self.extra_buffer_usages,
        );
        self.add_buffer(name, usage, size, None);
        self
    }

    /// Adds a storage buffer `name` of `size` bytes, which passes read and
    /// write, together with a mapped mirror of its size through which the
    /// host reads it.
    pub fn add_empty_staging(&mut self, name: &str, size: u64) -> (builder: &mut Self)
        requires
            old(self).wf(),
        ensures
            builder.wf(),
            builder@ == old(self)@.add_empty_staging(name@, size),
            *final(self) == *final(builder),
    {
        self.add_empty_rw_storage(name, size);
        self.add_mirror(name);
        self
    }

    /// The ticket of the shader `shader_type_path`, if a pass has named it.
    pub fn cached_pipeline_id(&self, shader_type_path: &str) -> (ticket: Option<
        CachedAppComputePipelineId,
    >)
        requires
            self.wf(),
        ensures
            ticket == self@.cached_pipeline_ids.get(shader_type_path@),
    {
        match self.cached_pipeline_ids.get(shader_type_path) {
            Some(ticket) => Some(*ticket),
            None => None,
        }
    }

    /// Adds a pass at the end of the steps: the shader `shader_type_path`
    /// over `workgroups` groups, with the buffer `vars[i]` bound at index
    /// `i`. A shader that is named for the first time gets a ticket from
    /// `pipeline_cache`, for a pipeline made from the source `shader`.
    pub fn add_pass(
        &mut self,
        pipeline_cache: &mut AppPipelineCache,
        shader_type_path: &str,
        shader: &str,
        workgroups: [u32; 3],
        vars: &[&str],
    ) -> (builder: &mut Self)
        requires
            old(self).wf(),
            old(pipeline_cache).wf(),
            old(self)@.cached_pipeline_ids.contains(shader_type_path@) || old(pipeline_cache)@.issued()
                < usize::MAX,
        ensures
            builder.wf(),
            final(pipeline_cache).wf(),
            builder@ == old(self)@.add_pass(
                CachedAppComputePipelineId(old(pipeline_cache)@.issued() as usize),
                shader_type_path@,
                workgroups@,
                vars@.map_values(|name: &str| name@),
            ),
            final(pipeline_cache)@ == if old(self)@.cached_pipeline_ids.contains(shader_type_path@) {
                old(pipeline_cache)@
            } else {
                old(pipeline_cache)@.queue(shader@)
            },
            *final(self) == *final(builder),
    {
        let ghost before = self@;
        let ghost names = vars@.map_values(|name: &str| name@);
        proof {
            before.lemma_add_pass(
                CachedAppComputePipelineId(pipeline_cache@.issued() as usize),
                shader_type_path@,
                workgroups@,
                names,
            );
        }
        if !self.cached_pipeline_ids.contains_key(shader_type_path) {
            let cached_id = pipeline_cache.queue_app_compute_pipeline(shader);
            self.cached_pipeline_ids.insert(shader_type_path, cached_id);
        }
        let mut owned: Vec<String> = Vec::new();
        let mut i: usize = 0;
        while i < vars.len()
            invariant
                i <= vars.len(),
                owned@.len() == i,
                forall|j: int| 0 <= j < i ==> owned@[j]@ == vars@[j]@,
            decreases vars.len() - i,
        {
            owned.push(vars[i].to_owned());
            i = i + 1;
        }
        assert(names_view(owned@) =~= names);
        let ghost recorded = self.steps@;
        let step = Step::ComputePass(
            ComputePass { workgroups, vars: owned, shader_type_path: shader_type_path.to_owned() },
        );
        self.steps.push(step);
        assert(steps_view(self.steps@) =~= steps_view(recorded).push(step@));
        self
    }

    /// Adds a swap at the end of the steps: the buffers `buffer_a` and
    /// `buffer_b` exchange their allocations.
    pub fn add_swap(&mut self, buffer_a: &str, buffer_b: &str) -> (builder: &mut Self)
        requires
            old(self).wf(),
        ensures
            builder.wf(),
            builder@ == old(self)@.add_swap(buffer_a@, buffer_b@),
            *final(self) == *final(builder),
    {
        let ghost before = self@;
        let ghost recorded = self.steps@;
        let step = Step::Swap(buffer_a.to_owned(), buffer_b.to_owned());
        self.steps.push(step);
        proof {
            assert(steps_view(self.steps@) =~= steps_view(recorded).push(step@));
            assert forall|i: int| 0 <= i < self@.steps.len() implies (
            #[trigger] self@.steps[i] matches StepView::ComputePass(pass)
                ==> self@.cached_pipeline_ids.contains(pass.shader_type_path)) by {
                if i < before.steps.len() {
                    assert(self@.steps[i] == before.steps[i]);
                }
            }
        }
        self
    }

    /// Sets the usage bits that every buffer added from now on gets
    /// besides its own; `None` for none.
    pub fn set_extra_buffer_usages(&mut self, usages: Option<u32>) -> (builder: &mut Self)
        requires
            old(self).wf(),
        ensures
            builder.wf(),
            builder@ == (BuilderView { extra_buffer_usages: usages, ..old(self)@ }),
            *final(self) == *final(builder),
    {
        self.extra_buffer_usages = usages;
        self
    }

    /// The worker will run on every tick. This is the default.
    pub fn continuous(&mut self) -> (builder: &mut Self)
        requires
            old(self).wf(),
        ensures
            builder.wf(),
            builder@ == (BuilderView { run_mode: RunMode::Continuous, ..old(self)@ }),
            *final(self) == *final(builder),
    {
        self.run_mode = RunMode::Continuous;
        self
    }

    /// The worker will run only when it is told to.
    pub fn one_shot(&mut self) -> (builder: &mut Self)
        requires
            old(self).wf(),
        ensures
            builder.wf(),
            builder@ == (BuilderView { run_mode: RunMode::OneShot(false), ..old(self)@ }),
            *final(self) == *final(builder),
    {
        self.run_mode = RunMode::OneShot(false);
        self
    }

    /// The worker will wait for each batch on the tick that submits it.
    /// This is the default.
    pub fn synchronous(&mut self) -> (builder: &mut Self)
        requires
            old(self).wf(),
        ensures
            builder.wf(),
            builder@ == (BuilderView { maximum_async_time: Some(0), ..old(self)@ }),
            *final(self) == *final(builder),
    {
        self.maximum_async_time = Some(0);
        self
    }

    /// The worker will only look at a batch in flight, tick after tick,
    /// until `maximum_async_time` nanoseconds have passed since it was
    /// submitted, and wait for it from then on; with `None` it never waits.
    pub fn asynchronous(&mut self, maximum_async_time: Option<u128>) -> (builder: &mut Self)
        requires
            old(self).wf(),
        ensures
            builder.wf(),
            builder@ == (BuilderView { maximum_async_time, ..old(self)@ }),
            *final(self) == *final(builder),
    {
        self.maximum_async_time = maximum_async_time;
        self
    }

    /// What the device is to allocate for the worker, in the order of the
    /// handles' `id`s.
    pub fn allocations(&self) -> (allocations: &Vec<Allocation>)
        ensures
            allocations_view(allocations@) == self@.allocations,
    {
        &self.allocations
    }

    /// Builds the worker that the builder describes.
    pub fn build(&self) -> (worker: AppComputeWorker)
        requires
            self.wf(),
        ensures
            worker.wf(),
            worker@ == self@.build(),
    {
        AppComputeWorker::from_builder(self)
    }
}

/// Registering a staging pair shows as registering its contents.
pub proof fn lemma_staging_insert(table: Table<StagingBuffer>, name: Seq<char>, pair: StagingBuffer)
    requires
        table.wf(),
    ensures
        staging_view(table.insert(name, pair)) == staging_view(table).insert(name, pair@),
{
    assert(staging_view(table.insert(name, pair)).values =~= staging_view(table).insert(
        name,
        pair@,
    ).values);
}

} // verus!
