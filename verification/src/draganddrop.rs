use vstd::prelude::*;

use crate::soundinput::SoundInputId;
use crate::soundprocessor::SoundProcessorId;

verus! {

/// What is dragged, or dropped onto.
#[derive(Clone, Copy, Debug, PartialEq, Eq, Structural, Hash)]
pub enum DragDropSubject {
    Processor(SoundProcessorId),
    Plug(SoundProcessorId),
    Socket(SoundInputId),
    Group { top_processor: SoundProcessorId },
}

/// Whether `x` occurs in `v`.
pub fn contains_processor(v: &Vec<SoundProcessorId>, x: SoundProcessorId) -> (b: bool)
    ensures
        b == v@.contains(x),
{
    let mut k: usize = 0;
    while k < v.len()
        invariant
            k <= v@.len(),
            forall|j: int| 0 <= j < k ==> v@[j] != x,
        decreases v.len() - k,
    {
        if v[k] == x {
            return true;
        }
        k = k + 1;
    }
    false
}

/// Whether `x` occurs in `v`.
pub fn contains_input(v: &Vec<SoundInputId>, x: SoundInputId) -> (b: bool)
    ensures
        b == v@.contains(x),
{
    let mut k: usize = 0;
    while k < v.len()
        invariant
            k <= v@.len(),
            forall|j: int| 0 <= j < k ==> v@[j] != x,
        decreases v.len() - k,
    {
        if v[k] == x {
            return true;
        }
        k = k + 1;
    }
    false
}

impl DragDropSubject {
    /// The object the subject stands for is among the processors `ps` and
    /// inputs `is` of the graph.
    pub open spec fn spec_is_valid(self, ps: Seq<SoundProcessorId>, is: Seq<SoundInputId>) -> bool {
        match self {
            DragDropSubject::Processor(p) => ps.contains(p),
            DragDropSubject::Plug(p) => ps.contains(p),
            DragDropSubject::Socket(i) => is.contains(i),
            DragDropSubject::Group { top_processor } => ps.contains(top_processor),
        }
    }

    /// Whether the object the subject stands for is still in the graph,
    /// whose processors and inputs are `processors` and `inputs`.
    pub fn is_valid(&self, processors: &Vec<SoundProcessorId>, inputs: &Vec<SoundInputId>) -> (b: bool)
        ensures
            b == self.spec_is_valid(processors@, inputs@),
    {
        match self {
            DragDropSubject::Processor(p) => contains_processor(processors, *p),
            DragDropSubject::Plug(p) => contains_processor(processors, *p),
            DragDropSubject::Socket(i) => contains_input(inputs, *i),
            DragDropSubject::Group { top_processor } => contains_processor(processors, *top_processor),
        }
    }

    /// The processor that a processor or its plug is.
    pub fn as_processor(&self) -> (r: Option<SoundProcessorId>)
        ensures
            r == match *self {
                DragDropSubject::Processor(p) => Some(p),
                DragDropSubject::Plug(p) => Some(p),
                _ => None,
            },
    {
        match self {
            DragDropSubject::Processor(spid) => Some(*spid),
            DragDropSubject::Plug(spid) => Some(*spid),
            _ => None,
        }
    }

    /// The input that a socket is.
    pub fn as_input(&self) -> (r: Option<SoundInputId>)
        ensures
            r == match *self {
                DragDropSubject::Socket(i) => Some(i),
                _ => None,
            },
    {
        match self {
            DragDropSubject::Socket(siid) => Some(*siid),
            _ => None,
        }
    }
}

/// Whether dropping one subject onto another is allowed, and shown.
#[derive(Clone, Copy, Debug, PartialEq, Eq, Structural)]
pub enum DragDropLegality {
    Legal,
    LegalButInvisible,
    Illegal,
    Irrelevant,
}

} // verus!
