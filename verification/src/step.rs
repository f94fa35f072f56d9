use vstd::prelude::*;

verus! {

/// One compute pass: which shader to run, over how many workgroups, and on
/// which buffers. The position of a name in `vars` is its binding index.
#[derive(Debug)]
pub struct ComputePass {
    pub workgroups: [u32; 3],
    pub vars: Vec<String>,
    pub shader_type_path: String,
}

/// One step of a worker's sequence.
#[derive(Debug)]
pub enum Step {
    /// Record a dispatch of a compute pass.
    ComputePass(ComputePass),
    /// Exchange the allocations of two named buffers.
    Swap(String, String),
}

/// The mathematical content of a [`ComputePass`].
pub struct ComputePassView {
    pub workgroups: Seq<u32>,
    pub vars: Seq<Seq<char>>,
    pub shader_type_path: Seq<char>,
}

/// The mathematical content of a [`Step`].
pub enum StepView {
    ComputePass(ComputePassView),
    Swap(Seq<char>, Seq<char>),
}

/// The names that a list of strings holds.
pub open spec fn names_view(names: Seq<String>) -> Seq<Seq<char>> {
    names.map_values(|name: String| name@)
}

impl View for ComputePass {
    type V = ComputePassView;

    open spec fn view(&self) -> ComputePassView {
        ComputePassView {
            workgroups: self.workgroups@,
            vars: names_view(self.vars@),
            shader_type_path: self.shader_type_path@,
        }
    }
}

impl View for Step {
    type V = StepView;

    open spec fn view(&self) -> StepView {
        match self {
            Step::ComputePass(pass) => StepView::ComputePass(pass@),
            Step::Swap(a, b) => StepView::Swap(a@, b@),
        }
    }
}

/// The contents of a sequence of steps.
pub open spec fn steps_view(steps: Seq<Step>) -> Seq<StepView> {
    steps.map_values(|step: Step| step@)
}

/// A copy of a list of names.
pub fn copy_names(names: &Vec<String>) -> (copy: Vec<String>)
    ensures
        names_view(copy@) == names_view(names@),
{
    let mut copy: Vec<String> = Vec::new();
    let mut i: usize = 0;
    while i < names.len()
        invariant
            i <= names.len(),
            copy@.len() == i,
            forall|j: int| 0 <= j < i ==> copy@[j]@ == names@[j]@,
        decreases names.len() - i,
    {
        copy.push(names[i].clone());
        i = i + 1;
    }
    assert(names_view(copy@) =~= names_view(names@));
    copy
}

impl ComputePass {
    /// A copy of the pass.
    pub fn duplicate(&self) -> (copy: ComputePass)
        ensures
            copy@ == self@,
    {
        ComputePass {
            workgroups: self.workgroups,
            vars: copy_names(&self.vars),
            shader_type_path: self.shader_type_path.clone(),
        }
    }
}

impl Step {
    /// A copy of the step.
    pub fn duplicate(&self) -> (copy: Step)
        ensures
            copy@ == self@,
    {
        match self {
            Step::ComputePass(pass) => Step::ComputePass(pass.duplicate()),
            Step::Swap(a, b) => Step::Swap(a.clone(), b.clone()),
        }
    }
}

/// A copy of a sequence of steps.
pub fn copy_steps(steps: &Vec<Step>) -> (copy: Vec<Step>)
    ensures
        steps_view(copy@) == steps_view(steps@),
{
    let mut copy: Vec<Step> = Vec::new();
    let mut i: usize = 0;
    while i < steps.len()
        invariant
            i <= steps.len(),
            copy@.len() == i,
            forall|j: int| 0 <= j < i ==> copy@[j]@ == steps@[j]@,
        decreases steps.len() - i,
    {
        copy.push(steps[i].duplicate());
        i = i + 1;
    }
    assert(steps_view(copy@) =~= steps_view(steps@));
    copy
}

} // verus!
