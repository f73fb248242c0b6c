use vstd::prelude::*;

use crate::soundinput::SoundInputId;
use crate::soundprocessor::SoundProcessorId;

verus! {

/// A sound processor being run for one of its states.
#[derive(Copy, Clone, Debug, PartialEq, Eq, Structural)]
pub struct SoundProcessorFrame {
    pub id: SoundProcessorId,
    pub state_index: usize,
}

/// A single sound input being stepped for one of its states.
#[derive(Copy, Clone, Debug, PartialEq, Eq, Structural)]
pub struct SingleSoundInputFrame {
    pub id: SoundInputId,
    pub state_index: usize,
}

/// A keyed sound input being stepped for one of its states and keys.
#[derive(Copy, Clone, Debug, PartialEq, Eq, Structural)]
pub struct KeyedSoundInputFrame {
    pub id: SoundInputId,
    pub key_index: usize,
    pub state_index: usize,
}

/// One entry of the stack of processors and inputs being run.
#[derive(Copy, Clone, Debug, PartialEq, Eq, Structural)]
pub enum SoundStackFrame {
    Processor(SoundProcessorFrame),
    SingleInput(SingleSoundInputFrame),
    KeyedInput(KeyedSoundInputFrame),
}

impl SoundStackFrame {
    /// The processor frame, if this is one.
    pub fn into_processor_frame(self) -> (r: Option<SoundProcessorFrame>)
        ensures
            r == match self {
                SoundStackFrame::Processor(f) => Some(f),
                _ => None,
            },
    {
        match self {
            SoundStackFrame::Processor(f) => Some(f),
            _ => None,
        }
    }

    /// The single-input frame, if this is one.
    pub fn into_single_input_frame(self) -> (r: Option<SingleSoundInputFrame>)
        ensures
            r == match self {
                SoundStackFrame::SingleInput(f) => Some(f),
                _ => None,
            },
    {
        match self {
            SoundStackFrame::SingleInput(f) => Some(f),
            _ => None,
        }
    }

    /// The keyed-input frame, if this is one.
    pub fn into_keyed_input_frame(self) -> (r: Option<KeyedSoundInputFrame>)
        ensures
            r == match self {
                SoundStackFrame::KeyedInput(f) => Some(f),
                _ => None,
            },
    {
        match self {
            SoundStackFrame::KeyedInput(f) => Some(f),
            _ => None,
        }
    }
}

/// `f` is a frame of the single input `id`.
pub open spec fn is_single_input_frame(f: SoundStackFrame, id: SoundInputId) -> bool {
    f matches SoundStackFrame::SingleInput(g) && g.id == id
}

/// `f` is a frame of the keyed input `id`.
pub open spec fn is_keyed_input_frame(f: SoundStackFrame, id: SoundInputId) -> bool {
    f matches SoundStackFrame::KeyedInput(g) && g.id == id
}

/// `f` is a frame of the processor `id`.
pub open spec fn is_processor_frame(f: SoundStackFrame, id: SoundProcessorId) -> bool {
    f matches SoundStackFrame::Processor(g) && g.id == id
}

/// The topmost frame of `s` for which `pred` holds stands at `i`.
pub open spec fn topmost_at(s: Seq<SoundStackFrame>, pred: spec_fn(SoundStackFrame) -> bool, i: int) -> bool {
    0 <= i < s.len() && pred(s[i]) && forall|j: int| i < j < s.len() ==> !pred(#[trigger] s[j])
}

/// The frames that the audio computation has gone down through, the
/// current one last.
pub struct SoundStack {
    frames: Vec<SoundStackFrame>,
}

impl View for SoundStack {
    type V = Seq<SoundStackFrame>;

    closed spec fn view(&self) -> Seq<SoundStackFrame> {
        self.frames@
    }
}

impl SoundStack {
    /// A stack of the given frames, the current one last; it may not be empty.
    pub fn new(frames: Vec<SoundStackFrame>) -> (s: SoundStack)
        requires
            frames@.len() > 0,
        ensures
            s@ == frames@,
    {
        SoundStack { frames }
    }

    /// The frame being run.
    pub fn current_frame(&self) -> (f: SoundStackFrame)
        requires
            self@.len() > 0,
        ensures
            f == self@.last(),
    {
        self.frames[self.frames.len() - 1]
    }

    /// The topmost frame of the single input `input_id`, which the stack
    /// must hold.
    pub fn single_input_frame(&self, input_id: SoundInputId) -> (f: SingleSoundInputFrame)
        requires
            exists|j: int| 0 <= j < self@.len() && is_single_input_frame(#[trigger] self@[j], input_id),
        ensures
            exists|i: int|
                topmost_at(self@, |g: SoundStackFrame| is_single_input_frame(g, input_id), i)
                    && self@[i] == SoundStackFrame::SingleInput(f),
    {
        let mut k: usize = self.frames.len();
        loop
            invariant
                k <= self@.len(),
                self@ == self.frames@,
                exists|j: int| 0 <= j < k && is_single_input_frame(#[trigger] self@[j], input_id),
                forall|j: int| k <= j < self@.len() ==> !is_single_input_frame(#[trigger] self@[j], input_id),
            decreases k,
        {
            proof {
                if k == 0 {
                    let j = choose|j: int| 0 <= j < k && is_single_input_frame(self@[j], input_id);
                }
            }
            k = k - 1;
            if let SoundStackFrame::SingleInput(f) = self.frames[k] {
                if f.id == input_id {
                    proof {
                        assert(topmost_at(self@, |g: SoundStackFrame| is_single_input_frame(g, input_id), k as int));
                    }
                    return f;
                }
            }
            proof {
                assert(!is_single_input_frame(self@[k as int], input_id));
            }
        }
    }

    /// The topmost frame of the keyed input `input_id`, which the stack must
    /// hold.
    pub fn keyed_input_frame(&self, input_id: SoundInputId) -> (f: KeyedSoundInputFrame)
        requires
            exists|j: int| 0 <= j < self@.len() && is_keyed_input_frame(#[trigger] self@[j], input_id),
        ensures
            exists|i: int|
                topmost_at(self@, |g: SoundStackFrame| is_keyed_input_frame(g, input_id), i)
                    && self@[i] == SoundStackFrame::KeyedInput(f),
    {
        let mut k: usize = self.frames.len();
        loop
            invariant
                k <= self@.len(),
                self@ == self.frames@,
                exists|j: int| 0 <= j < k && is_keyed_input_frame(#[trigger] self@[j], input_id),
                forall|j: int| k <= j < self@.len() ==> !is_keyed_input_frame(#[trigger] self@[j], input_id),
            decreases k,
        {
            proof {
                if k == 0 {
                    let j = choose|j: int| 0 <= j < k && is_keyed_input_frame(self@[j], input_id);
                }
            }
            k = k - 1;
            if let SoundStackFrame::KeyedInput(f) = self.frames[k] {
                if f.id == input_id {
                    proof {
                        assert(topmost_at(self@, |g: SoundStackFrame| is_keyed_input_frame(g, input_id), k as int));
                    }
                    return f;
                }
            }
            proof {
                assert(!is_keyed_input_frame(self@[k as int], input_id));
            }
        }
    }

    /// The topmost frame of the processor `processor_id`, which the stack
    /// must hold.
    pub fn processor_frame(&self, processor_id: SoundProcessorId) -> (f: SoundProcessorFrame)
        requires
            exists|j: int| 0 <= j < self@.len() && is_processor_frame(#[trigger] self@[j], processor_id),
        ensures
            exists|i: int|
                topmost_at(self@, |g: SoundStackFrame| is_processor_frame(g, processor_id), i)
                    && self@[i] == SoundStackFrame::Processor(f),
    {
        let mut k: usize = self.frames.len();
        loop
            invariant
                k <= self@.len(),
                self@ == self.frames@,
                exists|j: int| 0 <= j < k && is_processor_frame(#[trigger] self@[j], processor_id),
                forall|j: int| k <= j < self@.len() ==> !is_processor_frame(#[trigger] self@[j], processor_id),
            decreases k,
        {
            proof {
                if k == 0 {
                    let j = choose|j: int| 0 <= j < k && is_processor_frame(self@[j], processor_id);
                }
            }
            k = k - 1;
            if let SoundStackFrame::Processor(f) = self.frames[k] {
                if f.id == processor_id {
                    proof {
                        assert(topmost_at(self@, |g: SoundStackFrame| is_processor_frame(g, processor_id), k as int));
                    }
                    return f;
                }
            }
            proof {
                assert(!is_processor_frame(self@[k as int], processor_id));
            }
        }
    }

    /// The stack for stepping the input `input_id` of the processor being
    /// run into the processor `target`, at state `target_state_index` of
    /// it: a frame for the input, at the current processor's state (and at
    /// key `key_index` for a keyed input), then one for the target.
    pub fn stack_for_input(
        &self,
        input_id: SoundInputId,
        key_index: Option<usize>,
        target: SoundProcessorId,
        target_state_index: usize,
    ) -> (r: SoundStack)
        requires
            self@.len() > 0,
            self@.last() is Processor,
        ensures
            r@ == self@.push(
                match key_index {
                    Some(k) => SoundStackFrame::KeyedInput(
                        KeyedSoundInputFrame {
                            id: input_id,
                            state_index: self@.last()->Processor_0.state_index,
                            key_index: k,
                        },
                    ),
                    None => SoundStackFrame::SingleInput(
                        SingleSoundInputFrame {
                            id: input_id,
                            state_index: self@.last()->Processor_0.state_index,
                        },
                    ),
                },
            ).push(
                SoundStackFrame::Processor(
                    SoundProcessorFrame { id: target, state_index: target_state_index },
                ),
            ),
    {
        let state_index = match self.frames[self.frames.len() - 1] {
            SoundStackFrame::Processor(f) => f.state_index,
            _ => 0,
        };
        let mut frames: Vec<SoundStackFrame> = Vec::new();
        let mut i: usize = 0;
        while i < self.frames.len()
            invariant
                i <= self.frames@.len(),
                frames@ == self.frames@.take(i as int),
            decreases self.frames.len() - i,
        {
            frames.push(self.frames[i]);
            i = i + 1;
            assert(frames@ =~= self.frames@.take(i as int));
        }
        assert(frames@ =~= self.frames@);
        match key_index {
            Some(k) => frames.push(
                SoundStackFrame::KeyedInput(
                    KeyedSoundInputFrame { id: input_id, state_index, key_index: k },
                ),
            ),
            None => frames.push(
                SoundStackFrame::SingleInput(SingleSoundInputFrame { id: input_id, state_index }),
            ),
        }
        frames.push(
            SoundStackFrame::Processor(
                SoundProcessorFrame { id: target, state_index: target_state_index },
            ),
        );
        SoundStack { frames }
    }
}
} // verus!
