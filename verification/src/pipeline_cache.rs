use crate::device::ComputePipeline;
use crate::shader_cache::{
    Shader, ShaderCache, ShaderCacheView, ShaderImport, ShaderView, contains_name,
};
use crate::step::names_view;
use vstd::prelude::*;

verus! {

/// The ticket for a pipeline that was asked of an [`AppPipelineCache`]: its
/// index among all the pipelines ever asked of that cache.
#[derive(Copy, Clone, Debug, Hash, PartialEq, Eq, Structural)]
pub struct CachedAppComputePipelineId(pub usize);

impl CachedAppComputePipelineId {
    /// The index that the ticket stands for.
    #[inline]
    pub fn _id(&self) -> (index: usize)
        ensures
            index == self.0,
    {
        self.0
    }
}

/// Why a pipeline could not be compiled.
#[derive(Copy, Clone, Debug, PartialEq, Eq, Structural)]
pub enum PipelineCacheError {
    /// The shader's source has not been loaded yet.
    ShaderNotLoaded,
    /// The shader's source could not be processed.
    ProcessShaderError,
    /// The shader imports a source that has not been loaded yet.
    ShaderImportNotYetAvailable,
    /// The device refused the shader module.
    CreateShaderModule,
}

impl PipelineCacheError {
    /// Whether a later attempt can succeed without the shader being changed.
    pub open spec fn retryable(self) -> bool {
        self is ShaderNotLoaded || self is ShaderImportNotYetAvailable
    }
}

/// How far a pipeline has come.
#[derive(Copy, Clone, Debug, PartialEq, Eq, Structural)]
pub enum CachedPipelineState {
    /// No attempt to compile it has ended yet.
    Queued,
    /// It was compiled.
    Ready(ComputePipeline),
    /// The last attempt to compile it failed.
    Failed(PipelineCacheError),
}

/// What can happen to the source of a shader.
#[derive(Copy, Clone, Debug, PartialEq, Eq, Structural)]
pub enum ShaderEvent {
    /// The source came.
    Added,
    /// The source changed.
    Modified,
    /// The source went away.
    Removed,
    /// The source and all that it depends on have finished loading.
    LoadedWithDependencies,
    /// Nobody holds the source any more.
    Unused,
}

/// The contents of a source, where there is one.
pub open spec fn shader_view(shader: Option<Shader>) -> Option<ShaderView> {
    match shader {
        Some(shader) => Some(shader@),
        None => None,
    }
}

/// No shader at all.
fn nothing_reached() -> (reached: Vec<String>)
    ensures
        names_view(reached@) == Seq::<Seq<char>>::empty(),
{
    let reached: Vec<String> = Vec::new();
    assert(names_view(reached@) =~= Seq::<Seq<char>>::empty());
    reached
}

/// One pipeline of a cache: the shader it is made from, how far it has
/// come, and whether its shader was ever found fit to be compiled.
#[derive(Debug)]
pub struct CachedAppPipeline {
    pub state: CachedPipelineState,
    pub shader: String,
    pub prepared: bool,
}

/// The mathematical content of a [`CachedAppPipeline`].
pub struct CachedAppPipelineView {
    pub state: CachedPipelineState,
    pub shader: Seq<char>,
    pub prepared: bool,
}

impl View for CachedAppPipeline {
    type V = CachedAppPipelineView;

    open spec fn view(&self) -> CachedAppPipelineView {
        CachedAppPipelineView { state: self.state, shader: self.shader@, prepared: self.prepared }
    }
}

/// The mathematical content of an [`AppPipelineCache`].
pub struct PipelineCacheView {
    /// The pipelines that have a place in the cache, each at the index of its ticket.
    pub pipelines: Seq<CachedAppPipelineView>,
    /// The tickets that the next round of processing takes up again.
    pub waiting_pipelines: Seq<CachedAppComputePipelineId>,
    /// The pipelines asked for since the last round of processing.
    pub new_pipelines: Seq<CachedAppPipelineView>,
    /// Which shader is there, and which imports which.
    pub shaders: ShaderCacheView,
}

impl PipelineCacheView {
    /// The invariant of a cache: its shaders are well-formed, every ticket
    /// handed out is a number of the machine, and every waiting ticket has
    /// a place in the cache and waits once.
    pub open spec fn wf(self) -> bool {
        &&& self.shaders.wf()
        &&& self.issued() <= usize::MAX
        &&& self.waiting_pipelines.no_duplicates()
        &&& forall|i: int|
            0 <= i < self.waiting_pipelines.len() ==> (#[trigger] self.waiting_pipelines[i]).0
                < self.pipelines.len()
    }

    /// The cache of which nothing was asked yet.
    pub open spec fn empty() -> Self {
        PipelineCacheView {
            pipelines: Seq::empty(),
            waiting_pipelines: Seq::empty(),
            new_pipelines: Seq::empty(),
            shaders: ShaderCacheView::empty(),
        }
    }

    /// The number of tickets handed out so far.
    pub open spec fn issued(self) -> nat {
        self.pipelines.len() + self.new_pipelines.len()
    }

    /// The cache after a pipeline for `shader` was asked of it.
    pub open spec fn queue(self, shader: Seq<char>) -> Self {
        PipelineCacheView {
            new_pipelines: self.new_pipelines.push(
                CachedAppPipelineView { state: CachedPipelineState::Queued, shader, prepared: false },
            ),
            ..self
        }
    }

    /// The pipelines once those asked for have been given their places.
    pub open spec fn admitted(self) -> Seq<CachedAppPipelineView> {
        self.pipelines + self.new_pipelines
    }

    /// The tickets that a round of processing looks at: those that waited,
    /// then those of the pipelines asked for since the last round.
    pub open spec fn candidates(self) -> Seq<CachedAppComputePipelineId> {
        self.waiting_pipelines + Seq::new(
            self.new_pipelines.len(),
            |i: int| CachedAppComputePipelineId((self.pipelines.len() + i) as usize),
        )
    }

    /// Whether the pipeline of a ticket still has to be compiled.
    pub open spec fn pending(self, id: CachedAppComputePipelineId) -> bool {
        !(self.admitted()[id.0 as int].state is Ready)
    }

    /// The tickets whose pipelines a round of processing has to compile.
    pub open spec fn work(self) -> Seq<CachedAppComputePipelineId> {
        self.candidates().filter(|id: CachedAppComputePipelineId| self.pending(id))
    }

    /// The cache after a round of processing has taken its work.
    pub open spec fn process_queue(self) -> Self {
        PipelineCacheView {
            pipelines: self.admitted(),
            waiting_pipelines: Seq::empty(),
            new_pipelines: Seq::empty(),
            ..self
        }
    }

    /// The waiting tickets with `id` among them.
    pub open spec fn with_waiting(self, id: CachedAppComputePipelineId) -> Seq<
        CachedAppComputePipelineId,
    > {
        if self.waiting_pipelines.contains(id) {
            self.waiting_pipelines
        } else {
            self.waiting_pipelines.push(id)
        }
    }

    /// The cache after an attempt to compile the pipeline of `id` ended in
    /// `state`: the state is recorded, and the ticket waits for the next
    /// round where a later attempt can succeed.
    pub open spec fn complete(self, id: CachedAppComputePipelineId, state: CachedPipelineState) -> Self {
        let pipeline = CachedAppPipelineView { state, ..self.pipelines[id.0 as int] };
        PipelineCacheView {
            pipelines: self.pipelines.update(id.0 as int, pipeline),
            waiting_pipelines: match state {
                CachedPipelineState::Failed(error) if error.retryable() => self.with_waiting(id),
                _ => self.waiting_pipelines,
            },
            ..self
        }
    }

    /// The compiled pipeline of a ticket, if it has a place and was compiled.
    pub open spec fn get_compute_pipeline(self, id: CachedAppComputePipelineId) -> Option<
        ComputePipeline,
    > {
        if id.0 < self.pipelines.len() {
            match self.pipelines[id.0 as int].state {
                CachedPipelineState::Ready(pipeline) => Some(pipeline),
                _ => None,
            }
        } else {
            None
        }
    }

    /// The cache after the pipeline of `id` was sent back to be compiled again.
    pub open spec fn requeue(self, id: CachedAppComputePipelineId) -> Self {
        let pipeline = CachedAppPipelineView {
            state: CachedPipelineState::Queued,
            ..self.pipelines[id.0 as int]
        };
        PipelineCacheView {
            pipelines: self.pipelines.update(id.0 as int, pipeline),
            waiting_pipelines: self.with_waiting(id),
            ..self
        }
    }

    /// Whether the pipeline of `id` can be compiled now, as far as its
    /// shader goes.
    pub open spec fn prepare(self, id: CachedAppComputePipelineId) -> Result<(), PipelineCacheError> {
        self.shaders.prepare(self.pipelines[id.0 as int].shader)
    }

    /// The cache after it was asked whether the pipeline of `id` can be
    /// compiled now: a pipeline whose shader was found fit is marked.
    pub open spec fn prepared(self, id: CachedAppComputePipelineId) -> Self {
        if self.prepare(id) is Ok {
            let pipeline = CachedAppPipelineView { prepared: true, ..self.pipelines[id.0 as int] };
            PipelineCacheView { pipelines: self.pipelines.update(id.0 as int, pipeline), ..self }
        } else {
            self
        }
    }

    /// Whether a change of the shader `shader` sends the pipeline at
    /// `index` back: it does where the pipeline's shader was found fit
    /// before and the change reaches it.
    pub open spec fn sent_back(self, shader: Seq<char>, index: int) -> bool {
        self.pipelines[index].prepared && self.shaders.reaches(shader, self.pipelines[index].shader)
    }

    /// The cache after a change of the shader `shader` has sent back the
    /// pipelines from `from` on that it reaches.
    pub open spec fn requeue_reached(self, shader: Seq<char>, from: int) -> Self
        decreases self.pipelines.len() - from,
    {
        if from < 0 || from >= self.pipelines.len() {
            self
        } else if self.sent_back(shader, from) {
            self.requeue(CachedAppComputePipelineId(from as usize)).requeue_reached(shader, from + 1)
        } else {
            self.requeue_reached(shader, from + 1)
        }
    }

    /// The cache after the source of the shader `id` came, or changed:
    /// every pipeline that the change reaches is sent back, and the shader
    /// is taken in.
    pub open spec fn set_shader(self, id: Seq<char>, shader: ShaderView) -> Self {
        let sent = self.requeue_reached(id, 0);
        PipelineCacheView { shaders: sent.shaders.set_shader(id, shader), ..sent }
    }

    /// The cache after the source of the shader `id` went away: every
    /// pipeline that the loss reaches is sent back, and the shader is
    /// forgotten.
    pub open spec fn remove_shader(self, id: Seq<char>) -> Self {
        let sent = self.requeue_reached(id, 0);
        PipelineCacheView { shaders: sent.shaders.remove(id), ..sent }
    }

    /// Whether `event` changes anything, given the source that is there.
    pub open spec fn touched(self, event: ShaderEvent, shader: Option<ShaderView>) -> bool {
        match event {
            ShaderEvent::Added | ShaderEvent::Modified | ShaderEvent::LoadedWithDependencies => shader
                is Some,
            ShaderEvent::Removed => true,
            ShaderEvent::Unused => false,
        }
    }

    /// The cache after it has taken note of what has happened to the
    /// source of the shader `id`, which is `shader` where it is there.
    pub open spec fn extract_shader(self, event: ShaderEvent, id: Seq<char>, shader: Option<ShaderView>) -> Self {
        match event {
            ShaderEvent::Added | ShaderEvent::Modified | ShaderEvent::LoadedWithDependencies => {
                match shader {
                    Some(shader) => self.set_shader(id, shader),
                    None => self,
                }
            },
            ShaderEvent::Removed => self.remove_shader(id),
            ShaderEvent::Unused => self,
        }
    }

    /// Sending pipelines back touches neither the shaders nor the number
    /// of the pipelines, nor what they are made from.
    pub proof fn lemma_requeue_reached(self, shader: Seq<char>, from: int)
        requires
            self.wf(),
            0 <= from,
        ensures
            self.requeue_reached(shader, from).wf(),
            self.requeue_reached(shader, from).shaders == self.shaders,
            self.requeue_reached(shader, from).new_pipelines == self.new_pipelines,
            self.requeue_reached(shader, from).pipelines.len() == self.pipelines.len(),
            forall|i: int|
                0 <= i < self.pipelines.len() ==> (#[trigger] self.requeue_reached(
                    shader,
                    from,
                ).pipelines[i]).shader == self.pipelines[i].shader && self.requeue_reached(
                    shader,
                    from,
                ).pipelines[i].prepared == self.pipelines[i].prepared,
        decreases self.pipelines.len() - from,
    {
        if from < self.pipelines.len() {
            if self.sent_back(shader, from) {
                let id = CachedAppComputePipelineId(from as usize);
                let next = self.requeue(id);
                assert(next.wf()) by {
                    if !self.waiting_pipelines.contains(id) {
                        assert forall|i: int, j: int|
                            0 <= i < next.waiting_pipelines.len() && 0 <= j < next.waiting_pipelines.len()
                                && i != j implies next.waiting_pipelines[i] != next.waiting_pipelines[j] by {
                            if i < self.waiting_pipelines.len() {
                                assert(self.waiting_pipelines.contains(self.waiting_pipelines[i]));
                            }
                            if j < self.waiting_pipelines.len() {
                                assert(self.waiting_pipelines.contains(self.waiting_pipelines[j]));
                            }
                        }
                    }
                }
                next.lemma_requeue_reached(shader, from + 1);
            } else {
                self.lemma_requeue_reached(shader, from + 1);
            }
        }
    }
}

/// The pipelines that workers have asked for. A pipeline is asked for once
/// and compiled when its shader is there; until then its ticket resolves to
/// nothing.
pub struct AppPipelineCache {
    pipelines: Vec<CachedAppPipeline>,
    waiting_pipelines: Vec<CachedAppComputePipelineId>,
    new_pipelines: Vec<CachedAppPipeline>,
    shader_cache: ShaderCache,
}

/// The contents of a list of pipelines.
pub open spec fn pipelines_view(pipelines: Seq<CachedAppPipeline>) -> Seq<CachedAppPipelineView> {
    pipelines.map_values(|pipeline: CachedAppPipeline| pipeline@)
}

impl View for AppPipelineCache {
    type V = PipelineCacheView;

    closed spec fn view(&self) -> PipelineCacheView {
        PipelineCacheView {
            pipelines: pipelines_view(self.pipelines@),
            waiting_pipelines: self.waiting_pipelines@,
            new_pipelines: pipelines_view(self.new_pipelines@),
            shaders: self.shader_cache@,
        }
    }
}

impl AppPipelineCache {
    /// Every waiting ticket has a place in the cache and waits once.
    pub open spec fn wf(&self) -> bool {
        self@.wf()
    }

    /// A cache of which nothing was asked yet.
    pub fn new() -> (cache: Self)
        ensures
            cache.wf(),
            cache@ == PipelineCacheView::empty(),
    {
        let cache = AppPipelineCache {
            pipelines: Vec::new(),
            waiting_pipelines: Vec::new(),
            new_pipelines: Vec::new(),
            shader_cache: ShaderCache::new(),
        };
        assert(cache@.pipelines =~= Seq::empty());
        assert(cache@.new_pipelines =~= Seq::empty());
        cache
    }

    /// The number of pipelines that have a place in the cache: the tickets
    /// below it can be completed and sent back.
    pub fn len(&self) -> (count: usize)
        ensures
            count == self@.pipelines.len(),
    {
        self.pipelines.len()
    }

    /// The source that the pipeline of `id` is made from.
    pub fn shader(&self, id: CachedAppComputePipelineId) -> (shader: &String)
        requires
            id.0 < self@.pipelines.len(),
        ensures
            shader@ == self@.pipelines[id.0 as int].shader,
    {
        &self.pipelines[id.0].shader
    }

    /// The shader that provides `import`, if there is one.
    pub fn provider(&self, import: &ShaderImport) -> (provider: Option<&String>)
        requires
            self.wf(),
        ensures
            match provider {
                Some(name) => self@.shaders.import_path_shaders.get(import@.key()) == Some(name@),
                None => self@.shaders.import_path_shaders.get(import@.key()) is None,
            },
    {
        self.shader_cache.provider(import)
    }

    /// Whether the cache has handed out every ticket that it can hand out.
    pub fn is_full(&self) -> (full: bool)
        ensures
            full == !(self@.issued() < usize::MAX),
    {
        self.new_pipelines.len() >= usize::MAX - self.pipelines.len()
    }

    /// Asks for a pipeline made from `shader` and hands back its ticket: the
    /// number of tickets handed out before.
    pub fn queue_app_compute_pipeline(&mut self, shader: &str) -> (id: CachedAppComputePipelineId)
        requires
            old(self).wf(),
            old(self)@.issued() < usize::MAX,
        ensures
            final(self).wf(),
            id.0 == old(self)@.issued(),
            final(self)@ == old(self)@.queue(shader@),
    {
        let id = CachedAppComputePipelineId(self.pipelines.len() + self.new_pipelines.len());
        self.new_pipelines.push(
            CachedAppPipeline {
                state: CachedPipelineState::Queued,
                shader: shader.to_owned(),
                prepared: false,
            },
        );
        assert(self@.new_pipelines =~= old(self)@.queue(shader@).new_pipelines);
        id
    }

    /// Starts a round of processing: gives the pipelines asked for their
    /// places and hands back, in order, the tickets whose pipelines are to
    /// be compiled now. The outcome of each attempt goes to
    /// [`complete`](Self::complete).
    pub fn process_queue(&mut self) -> (work: Vec<CachedAppComputePipelineId>)
        requires
            old(self).wf(),
        ensures
            final(self).wf(),
            final(self)@ == old(self)@.process_queue(),
            work@ == old(self)@.work(),
            forall|i: int| 0 <= i < work@.len() ==> (#[trigger] work@[i]).0 < final(self)@.pipelines.len(),
    {
        let ghost before = self@;
        let mut candidates: Vec<CachedAppComputePipelineId> = Vec::new();
        std::mem::swap(&mut candidates, &mut self.waiting_pipelines);
        let mut admitted: Vec<CachedAppPipeline> = Vec::new();
        std::mem::swap(&mut admitted, &mut self.new_pipelines);
        let first = self.pipelines.len();
        let mut k: usize = 0;
        while k < admitted.len()
            invariant
                k <= admitted.len(),
                first + admitted.len() <= usize::MAX,
                before.waiting_pipelines.len() + k == candidates@.len(),
                candidates@ =~= before.candidates().take(before.waiting_pipelines.len() + k),
                before.new_pipelines.len() == admitted.len(),
                before.pipelines.len() == first,
            decreases admitted.len() - k,
        {
            candidates.push(CachedAppComputePipelineId(first + k));
            k = k + 1;
        }
        assert(candidates@ =~= before.candidates());
        self.pipelines.append(&mut admitted);
        assert(pipelines_view(self.pipelines@) =~= before.admitted());
        assert(self@.new_pipelines =~= Seq::empty());
        assert(self@ == before.process_queue());
        assert forall|j: int| 0 <= j < candidates@.len() implies (#[trigger] candidates@[j]).0
            < self.pipelines@.len() by {
            if j < before.waiting_pipelines.len() {
                assert(candidates@[j] == before.waiting_pipelines[j]);
            }
        }

        let ghost pending = |id: CachedAppComputePipelineId| before.pending(id);
        let mut work: Vec<CachedAppComputePipelineId> = Vec::new();
        let mut i: usize = 0;
        while i < candidates.len()
            invariant
                i <= candidates.len(),
                candidates@ == before.candidates(),
                before.wf(),
                pipelines_view(self.pipelines@) == before.admitted(),
                pending == (|id: CachedAppComputePipelineId| before.pending(id)),
                work@ == candidates@.take(i as int).filter(pending),
                forall|j: int|
                    0 <= j < candidates@.len() ==> (#[trigger] candidates@[j]).0 < self.pipelines@.len(),
                forall|j: int| 0 <= j < work@.len() ==> (#[trigger] work@[j]).0 < self.pipelines@.len(),
            decreases candidates.len() - i,
        {
            let id = candidates[i];
            proof {
                assert(candidates@.take(i + 1).drop_last() =~= candidates@.take(i as int));
                assert(candidates@.take(i + 1).last() == id);
                reveal(Seq::filter);
                assert(before.admitted()[id.0 as int] == self.pipelines@[id.0 as int]@);
                assert(pending(id) == !(self.pipelines@[id.0 as int].state is Ready));
            }
            let ready = match self.pipelines[id.0].state {
                CachedPipelineState::Ready(_) => true,
                _ => false,
            };
            if !ready {
                work.push(id);
            }
            i = i + 1;
        }
        assert(candidates@.take(candidates@.len() as int) =~= candidates@);
        work
    }

    /// Records how an attempt to compile the pipeline of `id` ended. The
    /// ticket waits for the next round where the shader, or one that it
    /// imports, was not there yet.
    pub fn complete(&mut self, id: CachedAppComputePipelineId, state: CachedPipelineState)
        requires
            old(self).wf(),
            id.0 < old(self)@.pipelines.len(),
        ensures
            final(self).wf(),
            final(self)@ == old(self)@.complete(id, state),
    {
        let ghost before = self@;
        let pipeline = &mut self.pipelines[id.0];
        pipeline.state = state;
        assert(pipelines_view(self.pipelines@) =~= before.complete(id, state).pipelines);
        match state {
            CachedPipelineState::Failed(error) => {
                match error {
                    PipelineCacheError::ShaderNotLoaded
                    | PipelineCacheError::ShaderImportNotYetAvailable => {
                        self.wait(id);
                    },
                    _ => {},
                }
            },
            _ => {},
        }
    }

    /// The compiled pipeline of a ticket, if it has a place and was compiled.
    #[inline]
    pub fn get_compute_pipeline(&self, id: CachedAppComputePipelineId) -> (pipeline: Option<
        ComputePipeline,
    >)
        ensures
            pipeline == self@.get_compute_pipeline(id),
    {
        if self.pipelines.len() <= id.0 {
            return None;
        }
        match self.pipelines[id.0].state {
            CachedPipelineState::Ready(pipeline) => Some(pipeline),
            _ => None,
        }
    }

    /// Sends the pipeline of `id` back to be compiled again, as after a
    /// change of its shader.
    pub fn requeue(&mut self, id: CachedAppComputePipelineId)
        requires
            old(self).wf(),
            id.0 < old(self)@.pipelines.len(),
        ensures
            final(self).wf(),
            final(self)@ == old(self)@.requeue(id),
    {
        let ghost before = self@;
        let pipeline = &mut self.pipelines[id.0];
        pipeline.state = CachedPipelineState::Queued;
        assert(pipelines_view(self.pipelines@) =~= before.requeue(id).pipelines);
        self.wait(id);
    }

    /// Says whether the pipeline of `id` can be compiled now, as far as
    /// its shader goes: the source has to be there, with every asset that
    /// it imports. A pipeline whose shader is fit is marked, and sent back
    /// from then on whenever a change reaches its shader.
    pub fn prepare(&mut self, id: CachedAppComputePipelineId) -> (outcome: Result<(), PipelineCacheError>)
        requires
            old(self).wf(),
            id.0 < old(self)@.pipelines.len(),
        ensures
            final(self).wf(),
            outcome == old(self)@.prepare(id),
            final(self)@ == old(self)@.prepared(id),
    {
        let ghost before = self@;
        let outcome = self.shader_cache.prepare(self.pipelines[id.0].shader.as_str());
        if outcome.is_ok() {
            let pipeline = &mut self.pipelines[id.0];
            pipeline.prepared = true;
            assert(pipelines_view(self.pipelines@) =~= before.prepared(id).pipelines);
        }
        outcome
    }

    /// Sends back every pipeline that was found fit before and whose
    /// shader is one of `reached`, the shaders that a change of `shader`
    /// reaches.
    fn requeue_reached(&mut self, reached: &Vec<String>, Ghost(shader): Ghost<Seq<char>>)
        requires
            old(self).wf(),
            forall|name: Seq<char>|
                names_view(reached@).contains(name) <==> old(self)@.shaders.reaches(shader, name),
        ensures
            final(self).wf(),
            final(self)@ == old(self)@.requeue_reached(shader, 0),
    {
        let ghost before = self@;
        let mut i: usize = 0;
        while i < self.pipelines.len()
            invariant
                self.wf(),
                before.wf(),
                i <= self.pipelines.len(),
                self.pipelines@.len() == before.pipelines.len(),
                self@.shaders == before.shaders,
                forall|name: Seq<char>|
                    names_view(reached@).contains(name) <==> before.shaders.reaches(shader, name),
                self@.requeue_reached(shader, i as int) == before.requeue_reached(shader, 0),
            decreases before.pipelines.len() - i,
        {
            let ghost current = self@;
            assert(current.pipelines[i as int] == self.pipelines@[i as int]@);
            if self.pipelines[i].prepared && contains_name(reached, self.pipelines[i].shader.as_str()) {
                self.requeue(CachedAppComputePipelineId(i));
                assert(self@.pipelines.len() == self.pipelines@.len());
            }
            i = i + 1;
        }
    }

    /// Takes in the source of the shader `shader_id`, new or changed.
    /// Every pipeline that the change reaches is sent back to be compiled
    /// again. The shaders that the change reaches are handed back: what
    /// was made from their sources is out of date.
    pub fn set_shader(&mut self, shader_id: &str, shader: Shader) -> (reached: Vec<String>)
        requires
            old(self).wf(),
        ensures
            final(self).wf(),
            final(self)@ == old(self)@.set_shader(shader_id@, shader@),
            names_view(reached@).no_duplicates(),
            forall|name: Seq<char>|
                names_view(reached@).contains(name) <==> old(self)@.shaders.reaches(shader_id@, name),
    {
        let reached = self.shader_cache.clear(shader_id);
        proof {
            self@.lemma_requeue_reached(shader_id@, 0);
        }
        self.requeue_reached(&reached, Ghost(shader_id@));
        self.shader_cache.set_shader(shader_id, shader);
        reached
    }

    /// Forgets the source of the shader `shader_id`. Every pipeline that
    /// the loss reaches is sent back to be compiled again. The shaders
    /// that the loss reaches are handed back: what was made from their
    /// sources is out of date.
    pub fn remove_shader(&mut self, shader_id: &str) -> (reached: Vec<String>)
        requires
            old(self).wf(),
        ensures
            final(self).wf(),
            final(self)@ == old(self)@.remove_shader(shader_id@),
            names_view(reached@).no_duplicates(),
            forall|name: Seq<char>|
                names_view(reached@).contains(name) <==> old(self)@.shaders.reaches(shader_id@, name),
    {
        let reached = self.shader_cache.clear(shader_id);
        proof {
            self@.lemma_requeue_reached(shader_id@, 0);
        }
        self.requeue_reached(&reached, Ghost(shader_id@));
        self.shader_cache.remove(shader_id);
        reached
    }

    /// Takes note of what has happened to the source of the shader
    /// `shader_id`, which is `shader` where it is there. A source that
    /// came, changed or finished loading is taken in, one that went away
    /// is forgotten, and nothing else matters. The shaders that are
    /// reached are handed back.
    pub fn extract_shader(&mut self, event: ShaderEvent, shader_id: &str, shader: Option<Shader>) -> (reached:
        Vec<String>)
        requires
            old(self).wf(),
        ensures
            final(self).wf(),
            final(self)@ == old(self)@.extract_shader(event, shader_id@, shader_view(shader)),
            names_view(reached@).no_duplicates(),
            forall|name: Seq<char>|
                names_view(reached@).contains(name) <==> (old(self)@.touched(event, shader_view(shader))
                    && old(self)@.shaders.reaches(shader_id@, name)),
    {
        match event {
            ShaderEvent::Added | ShaderEvent::Modified | ShaderEvent::LoadedWithDependencies => {
                match shader {
                    Some(shader) => self.set_shader(shader_id, shader),
                    None => nothing_reached(),
                }
            },
            ShaderEvent::Removed => self.remove_shader(shader_id),
            ShaderEvent::Unused => nothing_reached(),
        }
    }

    /// Puts `id` among the waiting tickets, unless it waits already.
    fn wait(&mut self, id: CachedAppComputePipelineId)
        requires
            old(self).wf(),
            id.0 < old(self)@.pipelines.len(),
        ensures
            final(self).wf(),
            final(self)@ == (PipelineCacheView {
                waiting_pipelines: old(self)@.with_waiting(id),
                ..old(self)@
            }),
    {
        let mut i: usize = 0;
        while i < self.waiting_pipelines.len()
            invariant
                i <= self.waiting_pipelines.len(),
                *self == *old(self),
                old(self).wf(),
                forall|j: int| 0 <= j < i ==> self.waiting_pipelines@[j] != id,
            decreases self.waiting_pipelines.len() - i,
        {
            if self.waiting_pipelines[i] == id {
                assert(self.waiting_pipelines@.contains(id));
                return ;
            }
            i = i + 1;
        }
        self.waiting_pipelines.push(id);
    }
}

} // verus!
