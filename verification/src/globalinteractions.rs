use vstd::prelude::*;

use crate::draganddrop::{contains_processor, DragDropSubject};
use crate::soundinput::SoundInputId;
use crate::keyboardnav::{
    focus_is_valid, next_focus, nav_context_fits, DirectionsToGo, KeyboardNavInteraction, NavContext, NavFocus,
};
use crate::soundprocessor::SoundProcessorId;

verus! {

/// The objects of a selection being made, and whether a selection area is
/// being dragged out.
pub struct SelectingState {
    objects: Vec<SoundProcessorId>,
    area_active: bool,
}

/// The top-level mode of the graph editor; one at a time.
pub enum UiMode {
    /// Not doing anything, just watching.
    Passive,
    /// Moving between processors and their parts with the keyboard.
    UsingKeyboardNav(KeyboardNavInteraction),
    /// Selecting objects, possibly while dragging out a selection area.
    Selecting(SelectingState),
    /// Something was clicked and is being dragged.
    Dragging(DragDropSubject),
    /// Something that was being dragged is being dropped.
    Dropping(DragDropSubject),
    /// The summon widget is open.
    Summoning,
}

/// The model of a mode: the selected objects as a set.
pub enum UiModeView {
    Passive,
    UsingKeyboardNav(NavFocus),
    Selecting(Set<SoundProcessorId>, bool),
    Dragging(DragDropSubject),
    Dropping(DragDropSubject),
    Summoning,
}

impl View for UiMode {
    type V = UiModeView;

    closed spec fn view(&self) -> UiModeView {
        match self {
            UiMode::Passive => UiModeView::Passive,
            UiMode::UsingKeyboardNav(k) => UiModeView::UsingKeyboardNav(k@),
            UiMode::Selecting(s) => UiModeView::Selecting(s.objects@.to_set(), s.area_active),
            UiMode::Dragging(d) => UiModeView::Dragging(*d),
            UiMode::Dropping(d) => UiModeView::Dropping(*d),
            UiMode::Summoning => UiModeView::Summoning,
        }
    }
}

impl UiMode {
    /// A selection holds each object once.
    pub closed spec fn wf(&self) -> bool {
        match self {
            UiMode::Selecting(s) => s.objects@.no_duplicates(),
            _ => true,
        }
    }
}

/// What the user did during one frame, as far as the modes care.
pub struct FrameInput {
    pub pressed_tab: bool,
    pub pressed_esc: bool,
    pub pressed_delete: bool,
    /// A drag over the background started.
    pub drag_started: bool,
    /// A drag over the background stopped.
    pub drag_stopped: bool,
    pub shift_held: bool,
    pub alt_held: bool,
    /// The processors that the selection area touches.
    pub touched: Vec<SoundProcessorId>,
    /// The summon widget holds a final choice.
    pub summon_chosen: bool,
    /// The summon widget was cancelled.
    pub summon_cancelled: bool,
    /// The directions asked of the keyboard focus, and what the graph says
    /// around it.
    pub keyboard: Option<(DirectionsToGo, NavContext)>,
    /// Ctrl+A was pressed.
    pub pressed_ctrl_a: bool,
    /// The background was clicked.
    pub bg_clicked: bool,
    /// Every object of the graph.
    pub all_objects: Vec<SoundProcessorId>,
}

/// What the caller is to do after a frame's input has been handled.
pub enum UiAction {
    Nothing,
    /// Open the summon widget at the pointer.
    StartSummoning,
    /// Remove these processors from the graph, each once.
    RemoveProcessors(Vec<SoundProcessorId>),
    /// Let the dragged object follow the pointer.
    DragAndDraw,
    /// Carry out the drop of this subject.
    HandleDrop(DragDropSubject),
    /// Add the object chosen in the summon widget to the graph.
    AddSummonedObject,
}

/// The selection after a selection area touching `touched` is let go: with
/// shift held the touched objects join it, with alt held they leave it,
/// and otherwise they become it.
pub open spec fn selection_after(objects: Set<SoundProcessorId>, touched: Set<SoundProcessorId>, shift: bool, alt: bool) -> Set<
    SoundProcessorId,
> {
    if shift {
        objects.union(touched)
    } else if alt {
        objects.difference(touched)
    } else {
        touched
    }
}

/// The mode after a frame whose input is `i` (the keyboard part aside),
/// starting from `m`.
pub open spec fn next_mode(m: UiModeView, i: FrameInput) -> UiModeView {
    match m {
        UiModeView::Passive => if i.pressed_tab {
            UiModeView::Summoning
        } else if i.drag_started {
            UiModeView::Selecting(Set::empty(), true)
        } else {
            m
        },
        UiModeView::UsingKeyboardNav(f) => match i.keyboard {
            Some((r, ctx)) => UiModeView::UsingKeyboardNav(next_focus(f, r, ctx)),
            None => m,
        },
        UiModeView::Selecting(objects, area) => if i.pressed_esc || i.pressed_delete {
            UiModeView::Passive
        } else {
            let area1 = area || i.drag_started;
            let objects2 = if area1 && i.drag_stopped {
                selection_after(objects, i.touched@.to_set(), i.shift_held, i.alt_held)
            } else {
                objects
            };
            let area2 = area1 && !i.drag_stopped;
            if objects2.is_empty() && !area2 {
                UiModeView::Passive
            } else {
                UiModeView::Selecting(objects2, area2)
            }
        },
        UiModeView::Dragging(_) => m,
        UiModeView::Dropping(_) => UiModeView::Passive,
        UiModeView::Summoning => if i.summon_chosen || i.summon_cancelled {
            UiModeView::Passive
        } else {
            m
        },
    }
}

/// Escape was pressed and neither the selection nor the keyboard focus,
/// which see it first, took it.
pub open spec fn escape_left(m: UiModeView, i: FrameInput) -> bool {
    &&& i.pressed_esc
    &&& !(m is Selecting)
    &&& !(m is UsingKeyboardNav && (i.keyboard matches Some((r, _)) && r.go_out))
}

/// The mode at the end of a frame. A selection ended by escape or delete
/// ends the frame there. Otherwise escape that no mode took, or a click on
/// the background, makes the editor passive; otherwise Ctrl+A selects every
/// object; otherwise the mode is what the current mode made of the input.
pub open spec fn frame_result(m: UiModeView, i: FrameInput) -> UiModeView {
    if m is Selecting && (i.pressed_esc || i.pressed_delete) {
        next_mode(m, i)
    } else if escape_left(m, i) || i.bg_clicked {
        UiModeView::Passive
    } else if i.pressed_ctrl_a {
        UiModeView::Selecting(i.all_objects@.to_set(), false)
    } else {
        next_mode(m, i)
    }
}

/// Nothing in the frame but what a selection area ignores: no escape,
/// delete, drag stop, background click or Ctrl+A.
pub open spec fn quiet_for_selection(i: FrameInput) -> bool {
    &&& !i.pressed_esc
    &&& !i.pressed_delete
    &&& !i.drag_stopped
    &&& !i.bg_clicked
    &&& !i.pressed_ctrl_a
}

/// While a selection area is being dragged out and not let go, the editor
/// stays in selection mode with the same selection, even an empty one.
pub proof fn law_area_being_dragged_keeps_selecting(s: Set<SoundProcessorId>, i: FrameInput)
    requires
        quiet_for_selection(i),
    ensures
        frame_result(UiModeView::Selecting(s, true), i) == UiModeView::Selecting(s, true),
{
}

/// Letting go of a selection area changes the selection: with shift held
/// the touched processors join it, with alt held they leave it, otherwise
/// they become it; the editor then stays selecting, with no area, unless
/// the selection is empty.
pub proof fn law_area_let_go(s: Set<SoundProcessorId>, area: bool, i: FrameInput)
    requires
        area || i.drag_started,
        i.drag_stopped,
        !i.pressed_esc,
        !i.pressed_delete,
        !i.bg_clicked,
        !i.pressed_ctrl_a,
    ensures
        ({
            let t = i.touched@.to_set();
            let n = if i.shift_held {
                s.union(t)
            } else if i.alt_held {
                s.difference(t)
            } else {
                t
            };
            frame_result(UiModeView::Selecting(s, area), i) == if n.is_empty() {
                UiModeView::Passive
            } else {
                UiModeView::Selecting(n, false)
            }
        }),
{
}

/// Dragging out a selection over the passive editor: a drag start makes an
/// empty selection with an area, quiet frames keep it, and letting go with
/// no modifier selects exactly the touched processors, if there are any.
pub proof fn law_drag_out_selection(i1: FrameInput, i2: FrameInput, i3: FrameInput)
    requires
        i1.drag_started,
        !i1.pressed_tab,
        !i1.pressed_esc,
        !i1.bg_clicked,
        !i1.pressed_ctrl_a,
        quiet_for_selection(i2),
        i3.drag_stopped,
        !i3.pressed_esc,
        !i3.pressed_delete,
        !i3.bg_clicked,
        !i3.pressed_ctrl_a,
        !i3.shift_held,
        !i3.alt_held,
        i3.touched@.len() > 0,
    ensures
        frame_result(UiModeView::Passive, i1) == UiModeView::Selecting(Set::<SoundProcessorId>::empty(), true),
        frame_result(frame_result(UiModeView::Passive, i1), i2) == UiModeView::Selecting(
            Set::<SoundProcessorId>::empty(),
            true,
        ),
        frame_result(frame_result(frame_result(UiModeView::Passive, i1), i2), i3)
            == UiModeView::Selecting(i3.touched@.to_set(), false),
{
    assert(i3.touched@.to_set().contains(i3.touched@[0]));
}

/// What the frame's input asks of the caller in mode `m`, but for the
/// processors to remove.
pub open spec fn action_is(m: UiModeView, i: FrameInput, a: UiAction) -> bool {
    match m {
        UiModeView::Passive => if i.pressed_tab {
            a is StartSummoning
        } else {
            a is Nothing
        },
        UiModeView::Selecting(objects, _) => if !i.pressed_esc && i.pressed_delete {
            match a {
                UiAction::RemoveProcessors(v) => v@.to_set() == objects && v@.no_duplicates(),
                _ => false,
            }
        } else {
            a is Nothing
        },
        UiModeView::Dragging(_) => a is DragAndDraw,
        UiModeView::Dropping(d) => a == UiAction::HandleDrop(d),
        UiModeView::Summoning => if i.summon_chosen {
            a is AddSummonedObject
        } else {
            a is Nothing
        },
        UiModeView::UsingKeyboardNav(_) => a is Nothing,
    }
}

proof fn lemma_push_to_set(s: Seq<SoundProcessorId>, x: SoundProcessorId)
    ensures
        s.push(x).to_set() == s.to_set().insert(x),
{
    let t = s.push(x);
    assert forall|y: SoundProcessorId| t.to_set().contains(y) <==> s.to_set().insert(x).contains(y) by {
        if t.contains(y) {
            let j = choose|j: int| 0 <= j < t.len() && t[j] == y;
            if j < s.len() {
                assert(s[j] == y);
            }
        }
        if s.contains(y) {
            let j = choose|j: int| 0 <= j < s.len() && s[j] == y;
            assert(t[j] == y);
        }
        if y == x {
            assert(t[s.len() as int] == y);
        }
    }
    assert(t.to_set() =~= s.to_set().insert(x));
}

/// Appends to `out`, once each, the processors of `xs` that are neither in
/// `out` nor in `skip`.
fn add_missing(out: &mut Vec<SoundProcessorId>, xs: &Vec<SoundProcessorId>, skip: &Vec<SoundProcessorId>)
    requires
        old(out)@.no_duplicates(),
    ensures
        final(out)@.no_duplicates(),
        final(out)@.to_set() == old(out)@.to_set().union(xs@.to_set().difference(skip@.to_set())),
{
    let ghost start = out@;
    let mut k: usize = 0;
    while k < xs.len()
        invariant
            k <= xs@.len(),
            out@.no_duplicates(),
            out@.to_set() == start.to_set().union(xs@.take(k as int).to_set().difference(skip@.to_set())),
        decreases xs.len() - k,
    {
        let x = xs[k];
        let ghost before = out@;
        if !contains_processor(out, x) && !contains_processor(skip, x) {
            out.push(x);
            proof {
                assert forall|i: int, j: int| 0 <= i < out@.len() && 0 <= j < out@.len() && i != j implies out@[i] != out@[j] by {
                    if i < before.len() && j < before.len() {
                        assert(before[i] != before[j]);
                    } else if i < before.len() {
                        assert(before.contains(before[i]));
                    } else {
                        assert(before.contains(before[j]));
                    }
                }
            }
        }
        proof {
            let t0 = xs@.take(k as int);
            let t1 = xs@.take(k + 1);
            assert(t1 =~= t0.push(x));
            lemma_push_to_set(t0, x);
            lemma_push_to_set(before, x);
            if out@.len() > before.len() {
                assert(out@ == before.push(x));
            } else {
                assert(out@ == before);
            }
            assert(out@.to_set() =~= start.to_set().union(t1.to_set().difference(skip@.to_set())));
        }
        k = k + 1;
    }
    proof {
        assert(xs@.take(k as int) =~= xs@);
    }
}

/// The processors of `objects`, once each, that are among `present`.
fn keep_present(objects: &Vec<SoundProcessorId>, present: &Vec<SoundProcessorId>) -> (r: Vec<SoundProcessorId>)
    requires
        objects@.no_duplicates(),
    ensures
        r@.no_duplicates(),
        r@.to_set() == objects@.to_set().intersect(present@.to_set()),
{
    let mut r: Vec<SoundProcessorId> = Vec::new();
    let mut k: usize = 0;
    proof {
        assert(r@.to_set() =~= objects@.take(0).to_set().intersect(present@.to_set()));
    }
    while k < objects.len()
        invariant
            k <= objects@.len(),
            objects@.no_duplicates(),
            r@.no_duplicates(),
            forall|j: int| 0 <= j < r@.len() ==> objects@.take(k as int).contains(#[trigger] r@[j]),
            r@.to_set() == objects@.take(k as int).to_set().intersect(present@.to_set()),
        decreases objects.len() - k,
    {
        let x = objects[k];
        let ghost before = r@;
        let ghost t0 = objects@.take(k as int);
        let ghost t1 = objects@.take(k + 1);
        proof {
            assert(t1 =~= t0.push(x));
            lemma_push_to_set(t0, x);
            lemma_push_to_set(before, x);
        }
        if contains_processor(present, x) {
            proof {
                assert forall|j: int| 0 <= j < before.len() implies before[j] != x by {
                    let i = choose|i: int| 0 <= i < t0.len() && t0[i] == before[j];
                    assert(objects@[i] == before[j]);
                    assert(objects@[k as int] == x);
                }
            }
            r.push(x);
            proof {
                assert forall|i: int, j: int| 0 <= i < r@.len() && 0 <= j < r@.len() && i != j implies r@[i] != r@[j] by {
                    if i < before.len() && j < before.len() {
                        assert(before[i] != before[j]);
                    } else if i < before.len() {
                        assert(before[i] != x);
                    } else {
                        assert(before[j] != x);
                    }
                }
            }
        }
        proof {
            assert forall|j: int| 0 <= j < r@.len() implies t1.contains(#[trigger] r@[j]) by {
                if j < before.len() {
                    let i = choose|i: int| 0 <= i < t0.len() && t0[i] == before[j];
                    assert(t1[i] == before[j]);
                } else {
                    assert(t1[k as int] == x);
                }
            }
            assert(r@.to_set() =~= t1.to_set().intersect(present@.to_set()));
        }
        k = k + 1;
    }
    proof {
        assert(objects@.take(k as int) =~= objects@);
    }
    r
}

/// The mode once objects no longer in the graph, whose processors and
/// inputs are `ps` and `is`, are forgotten: a selection keeps the objects
/// still there and ends if none is; a keyboard focus, a drag or a drop on
/// an object that is gone ends.
pub open spec fn cleanup_result(m: UiModeView, ps: Seq<SoundProcessorId>, is: Seq<SoundInputId>) -> UiModeView {
    match m {
        UiModeView::Selecting(objects, area) => if objects.intersect(ps.to_set()).is_empty() {
            UiModeView::Passive
        } else {
            UiModeView::Selecting(objects.intersect(ps.to_set()), area)
        },
        UiModeView::UsingKeyboardNav(f) => if focus_is_valid(f, ps, is) {
            m
        } else {
            UiModeView::Passive
        },
        UiModeView::Dragging(d) => if d.spec_is_valid(ps, is) {
            m
        } else {
            UiModeView::Passive
        },
        UiModeView::Dropping(d) => if d.spec_is_valid(ps, is) {
            m
        } else {
            UiModeView::Passive
        },
        _ => m,
    }
}

/// The selection after a selection area touching `touched` is let go.
pub fn combine_selection(objects: &Vec<SoundProcessorId>, touched: &Vec<SoundProcessorId>, shift: bool, alt: bool) -> (r: Vec<
    SoundProcessorId,
>)
    requires
        objects@.no_duplicates(),
    ensures
        r@.no_duplicates(),
        r@.to_set() == selection_after(objects@.to_set(), touched@.to_set(), shift, alt),
{
    let none: Vec<SoundProcessorId> = Vec::new();
    let mut r: Vec<SoundProcessorId> = Vec::new();
    proof {
        assert(r@.to_set() =~= Set::<SoundProcessorId>::empty());
        assert(none@.to_set() =~= Set::<SoundProcessorId>::empty());
    }
    if shift {
        add_missing(&mut r, objects, &none);
        add_missing(&mut r, touched, &none);
        proof {
            assert(r@.to_set() =~= objects@.to_set().union(touched@.to_set()));
        }
    } else if alt {
        add_missing(&mut r, objects, touched);
        proof {
            assert(r@.to_set() =~= objects@.to_set().difference(touched@.to_set()));
        }
    } else {
        add_missing(&mut r, touched, &none);
        proof {
            assert(r@.to_set() =~= touched@.to_set());
        }
    }
    r
}

/// The top-level interactions of the graph editor: which mode it is in.
pub struct GlobalInteractions {
    mode: UiMode,
}

impl GlobalInteractions {
    pub closed spec fn spec_mode(&self) -> UiModeView {
        self.mode@
    }

    /// The mode is well formed.
    pub closed spec fn wf(&self) -> bool {
        self.mode.wf()
    }

    /// The editor starts out passive.
    pub fn new() -> (g: GlobalInteractions)
        ensures
            g.wf(),
            g.spec_mode() == UiModeView::Passive,
    {
        GlobalInteractions { mode: UiMode::Passive }
    }

    /// The keyboard focus, while the keyboard is used to move around.
    pub fn keyboard_focus(&self) -> (k: Option<&KeyboardNavInteraction>)
        ensures
            match self.spec_mode() {
                UiModeView::UsingKeyboardNav(f) => k matches Some(n) && n@ == f,
                _ => k is None,
            },
    {
        match &self.mode {
            UiMode::UsingKeyboardNav(k) => Some(k),
            _ => None,
        }
    }

    /// Whether the editor is passive.
    pub fn is_passive(&self) -> (b: bool)
        ensures
            b == (self.spec_mode() is Passive),
    {
        match &self.mode {
            UiMode::Passive => true,
            _ => false,
        }
    }

    /// Whether the summon widget is open.
    pub fn is_summoning(&self) -> (b: bool)
        ensures
            b == (self.spec_mode() is Summoning),
    {
        match &self.mode {
            UiMode::Summoning => true,
            _ => false,
        }
    }

    /// While selecting, the selected processors and whether a selection
    /// area is being dragged out.
    pub fn selection(&self) -> (r: Option<(&[SoundProcessorId], bool)>)
        ensures
            match self.spec_mode() {
                UiModeView::Selecting(objects, area) => r matches Some((v, b)) && v@.to_set() == objects
                    && b == area,
                _ => r is None,
            },
    {
        match &self.mode {
            UiMode::Selecting(s) => Some((s.objects.as_slice(), s.area_active)),
            _ => None,
        }
    }

    /// Forgets the objects that are no longer in the graph, whose processors
    /// and inputs are `processors` and `inputs`.
    pub fn cleanup(&mut self, processors: &Vec<SoundProcessorId>, inputs: &Vec<SoundInputId>)
        requires
            old(self).wf(),
        ensures
            final(self).wf(),
            final(self).spec_mode() == cleanup_result(old(self).spec_mode(), processors@, inputs@),
    {
        let mut mode = UiMode::Passive;
        std::mem::swap(&mut mode, &mut self.mode);
        let next = match mode {
            UiMode::Selecting(s) => {
                let kept = keep_present(&s.objects, processors);
                if kept.len() == 0 {
                    proof {
                        assert(kept@ =~= Seq::<SoundProcessorId>::empty());
                        assert(kept@.to_set() =~= Set::<SoundProcessorId>::empty());
                    }
                    UiMode::Passive
                } else {
                    proof {
                        assert(kept@.to_set().contains(kept@[0]));
                    }
                    UiMode::Selecting(SelectingState { objects: kept, area_active: s.area_active })
                }
            },
            UiMode::UsingKeyboardNav(k) => {
                if k.is_valid(processors, inputs) {
                    UiMode::UsingKeyboardNav(k)
                } else {
                    UiMode::Passive
                }
            },
            UiMode::Dragging(d) => {
                if d.is_valid(processors, inputs) {
                    UiMode::Dragging(d)
                } else {
                    UiMode::Passive
                }
            },
            UiMode::Dropping(d) => {
                if d.is_valid(processors, inputs) {
                    UiMode::Dropping(d)
                } else {
                    UiMode::Passive
                }
            },
            other => other,
        };
        self.mode = next;
    }

    /// Puts the keyboard focus on a processor.
    pub fn focus_on_processor(&mut self, processor: SoundProcessorId)
        ensures
            final(self).wf(),
            final(self).spec_mode() == UiModeView::UsingKeyboardNav(NavFocus::AroundSoundProcessor(processor)),
    {
        self.mode = UiMode::UsingKeyboardNav(KeyboardNavInteraction::AroundSoundProcessor(processor));
    }

    /// Lets go of what is being dragged: it is now being dropped.
    pub fn drop_dragging(&mut self)
        requires
            old(self).spec_mode() is Dragging,
        ensures
            final(self).wf(),
            final(self).spec_mode() == UiModeView::Dropping(old(self).spec_mode()->Dragging_0),
    {
        match &self.mode {
            UiMode::Dragging(d) => {
                let d = *d;
                self.mode = UiMode::Dropping(d);
            },
            _ => {},
        }
    }

    /// Hands the keyboard focus to the editor, at `focus`.
    pub fn start_keyboard_nav(&mut self, focus: KeyboardNavInteraction)
        ensures
            final(self).wf(),
            final(self).spec_mode() == UiModeView::UsingKeyboardNav(focus@),
    {
        self.mode = UiMode::UsingKeyboardNav(focus);
    }

    /// Something starts being dragged.
    pub fn start_dragging(&mut self, subject: DragDropSubject)
        ensures
            final(self).wf(),
            final(self).spec_mode() == UiModeView::Dragging(subject),
    {
        self.mode = UiMode::Dragging(subject);
    }

    /// What is being dragged is let go.
    pub fn start_dropping(&mut self, subject: DragDropSubject)
        ensures
            final(self).wf(),
            final(self).spec_mode() == UiModeView::Dropping(subject),
    {
        self.mode = UiMode::Dropping(subject);
    }

    /// Handles one frame's input: a tab over the passive editor opens the
    /// summon widget and a drag starts a selection; while selecting, escape
    /// ends the selection, delete removes the selected processors, and a
    /// selection area that is let go changes the selection, which ends once
    /// it is empty with no area being dragged; a drop is carried out once;
    /// the summon widget closes once a choice is made or it is cancelled;
    /// the keyboard focus moves as asked. Unless escape or delete ended a
    /// selection, at the end of the frame escape that neither the selection nor the keyboard focus took, or a click on
    /// the background, makes the editor passive, and otherwise Ctrl+A
    /// selects every object. Returns what the caller is to do.
    pub fn interact(&mut self, input: &FrameInput) -> (a: UiAction)
        requires
            old(self).wf(),
            match old(self).spec_mode() {
                UiModeView::UsingKeyboardNav(f) => match input.keyboard {
                    Some((r, ctx)) => nav_context_fits(f, r, ctx),
                    None => true,
                },
                _ => true,
            },
        ensures
            final(self).wf(),
            final(self).spec_mode() == frame_result(old(self).spec_mode(), *input),
            action_is(old(self).spec_mode(), *input, a),
    {
        let mut mode = UiMode::Passive;
        std::mem::swap(&mut mode, &mut self.mode);
        let ghost m0 = mode@;
        let ends_frame = match &mode {
            UiMode::Selecting(_) => input.pressed_esc || input.pressed_delete,
            _ => false,
        };
        let esc_taken = match &mode {
            UiMode::Selecting(_) => true,
            UiMode::UsingKeyboardNav(_) => match &input.keyboard {
                Some((r, _)) => r.go_out,
                None => false,
            },
            _ => false,
        };
        let (next, action) = match mode {
            UiMode::Passive => {
                if input.pressed_tab {
                    (UiMode::Summoning, UiAction::StartSummoning)
                } else if input.drag_started {
                    let s = SelectingState { objects: Vec::new(), area_active: true };
                    proof {
                        assert(s.objects@.to_set() =~= Set::<SoundProcessorId>::empty());
                    }
                    (UiMode::Selecting(s), UiAction::Nothing)
                } else {
                    (UiMode::Passive, UiAction::Nothing)
                }
            },
            UiMode::UsingKeyboardNav(mut k) => {
                match &input.keyboard {
                    Some((r, ctx)) => {
                        k.navigate(r, ctx);
                    },
                    None => {},
                }
                (UiMode::UsingKeyboardNav(k), UiAction::Nothing)
            },
            UiMode::Selecting(s) => {
                if input.pressed_esc {
                    (UiMode::Passive, UiAction::Nothing)
                } else if input.pressed_delete {
                    (UiMode::Passive, UiAction::RemoveProcessors(s.objects))
                } else {
                    let area1 = s.area_active || input.drag_started;
                    let objects2 = if area1 && input.drag_stopped {
                        combine_selection(&s.objects, &input.touched, input.shift_held, input.alt_held)
                    } else {
                        s.objects
                    };
                    let area2 = area1 && !input.drag_stopped;
                    if objects2.len() == 0 && !area2 {
                        proof {
                            assert(objects2@ =~= Seq::<SoundProcessorId>::empty());
                            assert(objects2@.to_set() =~= Set::<SoundProcessorId>::empty());
                        }
                        (UiMode::Passive, UiAction::Nothing)
                    } else {
                        proof {
                            if objects2@.len() > 0 {
                                assert(objects2@.to_set().contains(objects2@[0]));
                            }
                        }
                        (UiMode::Selecting(SelectingState { objects: objects2, area_active: area2 }), UiAction::Nothing)
                    }
                }
            },
            UiMode::Dragging(d) => (UiMode::Dragging(d), UiAction::DragAndDraw),
            UiMode::Dropping(d) => (UiMode::Passive, UiAction::HandleDrop(d)),
            UiMode::Summoning => {
                if input.summon_chosen {
                    (UiMode::Passive, UiAction::AddSummonedObject)
                } else if input.summon_cancelled {
                    (UiMode::Passive, UiAction::Nothing)
                } else {
                    (UiMode::Summoning, UiAction::Nothing)
                }
            },
        };
        if ends_frame {
            self.mode = next;
        } else if (input.pressed_esc && !esc_taken) || input.bg_clicked {
            self.mode = UiMode::Passive;
        } else if input.pressed_ctrl_a {
            let mut all: Vec<SoundProcessorId> = Vec::new();
            let none: Vec<SoundProcessorId> = Vec::new();
            proof {
                assert(all@.to_set() =~= Set::<SoundProcessorId>::empty());
                assert(none@.to_set() =~= Set::<SoundProcessorId>::empty());
            }
            add_missing(&mut all, &input.all_objects, &none);
            proof {
                assert(all@.to_set() =~= input.all_objects@.to_set());
            }
            self.mode = UiMode::Selecting(SelectingState { objects: all, area_active: false });
        } else {
            self.mode = next;
        }
        action
    }
}

} // verus!
