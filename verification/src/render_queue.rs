use vstd::prelude::*;

verus! {

/// One instruction for the compute shader: which element it concerns and
/// what to do with it.
#[derive(Clone, Copy, Debug, PartialEq, Eq, Structural)]
pub struct RenderCommand {
    pub id: u32,
    pub command: u32,
}

/// A named list of render commands.
pub struct RenderQueue {
    pub label: &'static str,
    pub commands: Vec<RenderCommand>,
}

impl RenderQueue {
    /// An empty queue with the given label.
    pub fn new(label: &'static str) -> (q: Self)
        ensures
            q.label == label,
            q.commands@ == Seq::<RenderCommand>::empty(),
    {
        Self { label, commands: Vec::new() }
    }
}

} // verus!
