//! Identifiers of call stacks, which the data-flow graph attaches to each
//! instruction so that errors can point back at the source.
use vstd::prelude::*;

verus! {

/// An index into the table of call stacks. Index 0 is the root, the empty
/// call stack, which values that no instruction defines carry.
#[derive(Clone, Copy, Debug, PartialEq, Eq, Hash, Structural)]
pub struct CallStackId(u32);

impl View for CallStackId {
    type V = u32;

    closed spec fn view(&self) -> u32 {
        self.0
    }
}

impl CallStackId {
    /// The call stack with the given index.
    pub fn new(index: u32) -> (id: Self)
        ensures
            id@ == index,
    {
        CallStackId(index)
    }

    /// The root (empty) call stack.
    pub closed spec fn root_stack() -> CallStackId {
        CallStackId(0)
    }

    /// The root call stack is the one with index 0.
    pub proof fn lemma_root_stack()
        ensures
            Self::root_stack()@ == 0,
            forall|c: CallStackId| c@ == 0 ==> c == Self::root_stack(),
    {
    }

    /// The root (empty) call stack.
    pub fn root() -> (id: Self)
        ensures
            id == Self::root_stack(),
    {
        CallStackId(0)
    }

    /// Whether this is the root call stack.
    pub fn is_root(&self) -> (r: bool)
        ensures
            r == (self@ == 0),
            r == (*self == Self::root_stack()),
    {
        self.0 == 0
    }
}

} // verus!
