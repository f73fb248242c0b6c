use vstd::prelude::*;

use crate::soundinput::{InputOptions, SoundInputId};
use crate::soundprocessor::SoundProcessorId;

verus! {

/// The sound input that meets a stacked group at an interconnect.
#[derive(Clone, Copy)]
pub struct InterconnectInput {
    pub id: SoundInputId,
    pub options: InputOptions,
    pub branches: usize,
}

/// A place around or between the sound processors of a stacked group,
/// named by the processors and the sound input that meet there.
#[derive(Clone, Copy)]
pub enum ProcessorInterconnect {
    /// Above the top processor of a stack, at one of its inputs.
    TopOfStack(SoundProcessorId, InterconnectInput),
    /// Between two processors of a stack, the bottom one's only input being
    /// connected to the top one.
    BetweenTwoProcessors { bottom: SoundProcessorId, top: SoundProcessorId, input: InterconnectInput },
    /// Below the lowest processor of a stack.
    BottomOfStack(SoundProcessorId),
}

impl ProcessorInterconnect {
    /// The processor just above the interconnect, if any.
    pub fn processor_above(&self) -> (r: Option<SoundProcessorId>)
        ensures
            r == match *self {
                ProcessorInterconnect::TopOfStack(_, _) => None,
                ProcessorInterconnect::BetweenTwoProcessors { top, .. } => Some(top),
                ProcessorInterconnect::BottomOfStack(p) => Some(p),
            },
    {
        match self {
            ProcessorInterconnect::TopOfStack(_, _) => None,
            ProcessorInterconnect::BetweenTwoProcessors { top, .. } => Some(*top),
            ProcessorInterconnect::BottomOfStack(i) => Some(*i),
        }
    }

    /// The processor just below the interconnect, if any.
    pub fn processor_below(&self) -> (r: Option<SoundProcessorId>)
        ensures
            r == match *self {
                ProcessorInterconnect::TopOfStack(p, _) => Some(p),
                ProcessorInterconnect::BetweenTwoProcessors { bottom, .. } => Some(bottom),
                ProcessorInterconnect::BottomOfStack(_) => None,
            },
    {
        match self {
            ProcessorInterconnect::TopOfStack(i, _) => Some(*i),
            ProcessorInterconnect::BetweenTwoProcessors { bottom, .. } => Some(*bottom),
            ProcessorInterconnect::BottomOfStack(_) => None,
        }
    }

    /// The sound input at the interconnect, if one meets it there.
    pub fn unique_input(&self) -> (r: Option<InterconnectInput>)
        ensures
            r == match *self {
                ProcessorInterconnect::TopOfStack(_, i) => Some(i),
                ProcessorInterconnect::BetweenTwoProcessors { input, .. } => Some(input),
                ProcessorInterconnect::BottomOfStack(_) => None,
            },
    {
        match self {
            ProcessorInterconnect::TopOfStack(_, i) => Some(*i),
            ProcessorInterconnect::BetweenTwoProcessors { input, .. } => Some(*input),
            ProcessorInterconnect::BottomOfStack(_) => None,
        }
    }
}

} // verus!
