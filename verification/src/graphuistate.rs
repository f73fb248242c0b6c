use vstd::prelude::*;

use crate::graphobject::{GraphId, ObjectId};
use crate::soundprocessor::SoundProcessorId;

verus! {

broadcast use vstd::seq_lib::group_seq_properties;

/// How a selection rectangle changes the selection.
#[derive(Clone, Copy, Debug, PartialEq, Eq, Structural)]
pub enum SelectionChange {
    /// The touched objects become the selection.
    Replace,
    /// The touched objects join the selection.
    Add,
    /// The touched objects leave the selection.
    Subtract,
}

/// The object that keyboard navigation is on.
#[derive(Clone, Copy, Debug, PartialEq, Eq, Structural)]
pub enum KeyboardFocusState {
    SoundProcessor(SoundProcessorId),
}

impl KeyboardFocusState {
    pub open spec fn spec_graph_id(self) -> GraphId {
        match self {
            KeyboardFocusState::SoundProcessor(p) => GraphId::SoundProcessor(p),
        }
    }

    pub open spec fn spec_has_focus(self, object: ObjectId) -> bool {
        match (object, self) {
            (ObjectId::Sound(a), KeyboardFocusState::SoundProcessor(b)) => a == b,
        }
    }

    /// The graph item that has the focus.
    pub fn as_graph_id(&self) -> (g: GraphId)
        ensures
            g == self.spec_graph_id(),
    {
        match self {
            KeyboardFocusState::SoundProcessor(p) => GraphId::SoundProcessor(*p),
        }
    }

    /// Whether `object` has the focus.
    pub fn object_has_keyboard_focus(&self, object: ObjectId) -> (b: bool)
        ensures
            b == self.spec_has_focus(object),
    {
        match (object, self) {
            (ObjectId::Sound(a), KeyboardFocusState::SoundProcessor(b)) => a == *b,
        }
    }
}

enum UiMode {
    Passive,
    UsingKeyboardNav(KeyboardFocusState),
    Selecting(Vec<ObjectId>),
}

/// Whether `v` holds `o`.
fn holds_object(v: &Vec<ObjectId>, o: ObjectId) -> (b: bool)
    ensures
        b == v@.contains(o),
{
    let mut i: usize = 0;
    while i < v.len()
        invariant
            i <= v.len(),
            forall|j: int| 0 <= j < i ==> v@[j] != o,
        decreases v.len() - i,
    {
        if v[i] == o {
            return true;
        }
        i = i + 1;
    }
    false
}

/// Adds `o` to the objects of `v` unless it is there.
fn insert_object(v: &mut Vec<ObjectId>, o: ObjectId)
    requires
        old(v)@.no_duplicates(),
    ensures
        final(v)@.no_duplicates(),
        final(v)@.to_set() == old(v)@.to_set().insert(o),
{
    if !holds_object(v, o) {
        let ghost before = v@;
        v.push(o);
        proof {
            assert(v@ == before.push(o));
            assert forall|i: int, j: int| 0 <= i < v@.len() && 0 <= j < v@.len() && i != j implies v@[i]
                != v@[j] by {
                if i < before.len() && j < before.len() {
                    assert(before[i] != before[j]);
                } else if i == before.len() {
                    assert(before.contains(before[j]));
                } else {
                    assert(before.contains(before[i]));
                }
            }
            assert(v@.to_set() =~= before.to_set().insert(o));
        }
    } else {
        assert(v@.to_set() =~= v@.to_set().insert(o));
    }
}

/// Takes `o` out of the objects of `v`.
fn remove_object(v: &mut Vec<ObjectId>, o: ObjectId)
    requires
        old(v)@.no_duplicates(),
    ensures
        final(v)@.no_duplicates(),
        final(v)@.to_set() == old(v)@.to_set().remove(o),
{
    let ghost before = v@;
    let mut i: usize = 0;
    while i < v.len()
        invariant
            v@ == before,
            before == old(v)@,
            before.no_duplicates(),
            i <= v.len(),
            forall|j: int| 0 <= j < i ==> v@[j] != o,
        decreases v.len() - i,
    {
        if v[i] == o {
            v.remove(i);
            proof {
                assert(v@ == before.remove(i as int));
                assert forall|a: int, b: int| 0 <= a < v@.len() && 0 <= b < v@.len() && a != b implies v@[a]
                    != v@[b] by {
                    let aa = if a < i { a } else { a + 1 };
                    let bb = if b < i { b } else { b + 1 };
                    assert(v@[a] == before[aa]);
                    assert(v@[b] == before[bb]);
                }
                assert forall|x: ObjectId| v@.to_set().contains(x) == before.to_set().remove(o).contains(x) by {
                    if v@.contains(x) {
                        let k = choose|k: int| 0 <= k < v@.len() && v@[k] == x;
                        let kk = if k < i { k } else { k + 1 };
                        assert(v@[k] == before[kk]);
                        assert(before.contains(x));
                        assert(x != o);
                    }
                    if before.contains(x) && x != o {
                        let k = choose|k: int| 0 <= k < before.len() && before[k] == x;
                        assert(k != i);
                        if k < i {
                            assert(v@[k] == x);
                        } else {
                            assert(v@[k - 1] == x);
                        }
                    }
                }
                assert(v@.to_set() =~= before.to_set().remove(o));
            }
            return;
        }
        i = i + 1;
    }
    assert(v@.to_set() =~= before.to_set().remove(o));
}

/// The selection and keyboard focus of the sound graph's user interface.
pub struct GraphUIState {
    mode: UiMode,
}

impl GraphUIState {
    /// The selected objects.
    pub closed spec fn spec_selection(&self) -> Set<ObjectId> {
        match self.mode {
            UiMode::Selecting(s) => s@.to_set(),
            _ => Set::empty(),
        }
    }

    /// Whether a selection is being held.
    pub closed spec fn spec_is_selecting(&self) -> bool {
        self.mode is Selecting
    }

    /// The keyboard focus, if keyboard navigation is on.
    pub closed spec fn spec_focus(&self) -> Option<KeyboardFocusState> {
        match self.mode {
            UiMode::UsingKeyboardNav(k) => Some(k),
            _ => None,
        }
    }

    /// The selection is held without repeats.
    pub closed spec fn wf(&self) -> bool {
        match self.mode {
            UiMode::Selecting(s) => s@.no_duplicates(),
            _ => true,
        }
    }

    pub fn new() -> (r: GraphUIState)
        ensures
            r.wf(),
            !r.spec_is_selecting(),
            r.spec_focus() is None,
            r.spec_selection() == Set::<ObjectId>::empty(),
    {
        GraphUIState { mode: UiMode::Passive }
    }

    /// Drops the selection, if there is one.
    pub fn clear_selection(&mut self)
        requires
            old(self).wf(),
        ensures
            final(self).wf(),
            !final(self).spec_is_selecting(),
            final(self).spec_selection() == Set::<ObjectId>::empty(),
            final(self).spec_focus() == old(self).spec_focus(),
    {
        match self.mode {
            UiMode::Selecting(_) => self.mode = UiMode::Passive,
            _ => (),
        }
    }

    /// Makes `object_ids` the selection.
    pub fn set_selection(&mut self, object_ids: Vec<ObjectId>)
        requires
            object_ids@.no_duplicates(),
        ensures
            final(self).wf(),
            final(self).spec_is_selecting(),
            final(self).spec_selection() == object_ids@.to_set(),
            final(self).spec_focus() is None,
    {
        self.mode = UiMode::Selecting(object_ids);
    }

    /// Adds `object_id` to the selection, starting one if there is none.
    pub fn select_object(&mut self, object_id: ObjectId)
        requires
            old(self).wf(),
        ensures
            final(self).wf(),
            final(self).spec_is_selecting(),
            final(self).spec_selection() == old(self).spec_selection().insert(object_id),
            final(self).spec_focus() is None,
    {
        match &mut self.mode {
            UiMode::Selecting(s) => {
                insert_object(s, object_id);
            },
            _ => {
                let mut s: Vec<ObjectId> = Vec::new();
                s.push(object_id);
                proof {
                    assert(s@.to_set() =~= Set::<ObjectId>::empty().insert(object_id));
                }
                self.mode = UiMode::Selecting(s);
            },
        }
    }

    /// Takes `object_id` out of the selection; a selection left empty ends.
    pub fn deselect_object(&mut self, object_id: ObjectId)
        requires
            old(self).wf(),
        ensures
            final(self).wf(),
            final(self).spec_selection() == old(self).spec_selection().remove(object_id),
            final(self).spec_is_selecting() == (old(self).spec_is_selecting()
                && !final(self).spec_selection().is_empty()),
            final(self).spec_focus() == old(self).spec_focus(),
    {
        let mut now_empty = false;
        match &mut self.mode {
            UiMode::Selecting(s) => {
                remove_object(s, object_id);
                now_empty = s.len() == 0;
                proof {
                    if s@.len() > 0 {
                        assert(s@.to_set().contains(s@[0]));
                    } else {
                        assert(s@.to_set() =~= Set::<ObjectId>::empty());
                    }
                }
            },
            _ => (),
        }
        if now_empty {
            self.mode = UiMode::Passive;
        }
    }

    /// Applies a selection rectangle: `touched` lists the objects that the
    /// rectangle touches. With `Replace` they become the selection, with
    /// `Add` they join it, with `Subtract` they leave it; a selection left
    /// empty ends, and keyboard navigation stops.
    pub fn select_with_rect(&mut self, touched: &Vec<ObjectId>, change: SelectionChange)
        requires
            old(self).wf(),
        ensures
            final(self).wf(),
            final(self).spec_selection() == match change {
                SelectionChange::Replace => touched@.to_set(),
                SelectionChange::Add => old(self).spec_selection().union(touched@.to_set()),
                SelectionChange::Subtract => old(self).spec_selection().difference(touched@.to_set()),
            },
            final(self).spec_is_selecting() == !final(self).spec_selection().is_empty(),
            final(self).spec_focus() is None,
    {
        let ghost old_selection = self.spec_selection();
        let mut selection: Vec<ObjectId> = match &mut self.mode {
            UiMode::Selecting(s) => {
                let mut ss: Vec<ObjectId> = Vec::new();
                std::mem::swap(s, &mut ss);
                ss
            },
            _ => Vec::new(),
        };
        self.mode = UiMode::Passive;
        proof {
            assert(selection@.to_set() =~= old_selection);
        }
        let is_replace = match change {
            SelectionChange::Replace => true,
            _ => false,
        };
        let is_subtract = match change {
            SelectionChange::Subtract => true,
            _ => false,
        };
        if is_replace {
            selection.clear();
            assert(selection@.to_set() =~= Set::<ObjectId>::empty());
        }
        let ghost start = selection@.to_set();
        let mut i: usize = 0;
        while i < touched.len()
            invariant
                i <= touched.len(),
                selection@.no_duplicates(),
                is_subtract ==> selection@.to_set() == start.difference(touched@.take(i as int).to_set()),
                !is_subtract ==> selection@.to_set() == start.union(touched@.take(i as int).to_set()),
            decreases touched.len() - i,
        {
            let ghost prefix = touched@.take(i as int);
            let o = touched[i];
            if is_subtract {
                remove_object(&mut selection, o);
            } else {
                insert_object(&mut selection, o);
            }
            i = i + 1;
            proof {
                assert(touched@.take(i as int) =~= prefix.push(o));
                assert(touched@.take(i as int).to_set() =~= prefix.to_set().insert(o));
                if is_subtract {
                    assert(selection@.to_set() =~= start.difference(touched@.take(i as int).to_set()));
                } else {
                    assert(selection@.to_set() =~= start.union(touched@.take(i as int).to_set()));
                }
            }
        }
        proof {
            assert(touched@.take(touched@.len() as int) =~= touched@);
            if is_replace {
                assert(start.union(touched@.to_set()) =~= touched@.to_set());
            }
        }
        if selection.len() > 0 {
            proof {
                assert(selection@.to_set().contains(selection@[0]));
            }
            self.mode = UiMode::Selecting(selection);
        } else {
            proof {
                assert(selection@.to_set() =~= Set::<ObjectId>::empty());
            }
            self.mode = UiMode::Passive;
        }
    }

    /// Forgets what no longer exists: the selection keeps only objects whose
    /// graph item is in `remaining_ids`, ending if it is left empty, and
    /// keyboard navigation stops if its object is gone.
    pub fn cleanup(&mut self, remaining_ids: &Vec<GraphId>)
        requires
            old(self).wf(),
        ensures
            final(self).wf(),
            final(self).spec_selection() == old(self).spec_selection().filter(
                |o: ObjectId| remaining_ids@.contains(graph_id_of(o)),
            ),
            final(self).spec_is_selecting() == (old(self).spec_is_selecting()
                && !final(self).spec_selection().is_empty()),
            final(self).spec_focus() == match old(self).spec_focus() {
                Some(k) => if remaining_ids@.contains(k.spec_graph_id()) {
                    Some(k)
                } else {
                    None
                },
                None => None,
            },
    {
        let mut to_passive = false;
        match &mut self.mode {
            UiMode::Selecting(s) => {
                let ghost before = s@;
                let mut kept: Vec<ObjectId> = Vec::new();
                let mut i: usize = 0;
                while i < s.len()
                    invariant
                        s@ == before,
                        before.no_duplicates(),
                        i <= s.len(),
                        kept@.no_duplicates(),
                        kept@.to_set() == before.take(i as int).to_set().filter(
                            |o: ObjectId| remaining_ids@.contains(graph_id_of(o)),
                        ),
                        forall|x: ObjectId| kept@.contains(x) ==> before.take(i as int).contains(x),
                    decreases s.len() - i,
                {
                    let o = s[i];
                    let g = o.as_graph_id();
                    let ghost prefix = before.take(i as int);
                    let ghost kept_before = kept@;
                    let keep = holds_graph_id(remaining_ids, g);
                    assert(keep == remaining_ids@.contains(graph_id_of(o)));
                    if keep {
                        let ghost k0 = kept@;
                        kept.push(o);
                        proof {
                            assert(!prefix.contains(o)) by {
                                if prefix.contains(o) {
                                    let k = choose|k: int| 0 <= k < prefix.len() && prefix[k] == o;
                                    assert(before[k] == before[i as int]);
                                }
                            }
                            assert forall|a: int, b: int|
                                0 <= a < kept@.len() && 0 <= b < kept@.len() && a != b implies kept@[a]
                                != kept@[b] by {
                                if a < k0.len() && b < k0.len() {
                                } else if a == k0.len() {
                                    assert(k0.contains(k0[b]));
                                } else {
                                    assert(k0.contains(k0[a]));
                                }
                            }
                        }
                    }
                    i = i + 1;
                    proof {
                        assert(before.take(i as int) =~= prefix.push(o));
                        assert(keep ==> kept@ == kept_before.push(o));
                        assert(!keep ==> kept@ == kept_before);
                        assert forall|x: ObjectId| kept@.to_set().contains(x) == before.take(i as int).to_set().filter(
                            |o: ObjectId| remaining_ids@.contains(graph_id_of(o)),
                        ).contains(x) by {
                            assert(kept_before.to_set().contains(x) == prefix.to_set().filter(
                                |o: ObjectId| remaining_ids@.contains(graph_id_of(o)),
                            ).contains(x));
                        }
                        assert(kept@.to_set() =~= before.take(i as int).to_set().filter(
                            |o: ObjectId| remaining_ids@.contains(graph_id_of(o)),
                        ));
                        assert forall|x: ObjectId| kept@.contains(x) implies before.take(i as int).contains(x) by {
                            if x != o {
                                assert(prefix.contains(x));
                                let k = choose|k: int| 0 <= k < prefix.len() && prefix[k] == x;
                                assert(before.take(i as int)[k] == x);
                            } else {
                                assert(before.take(i as int)[i - 1] == x);
                            }
                        }
                    }
                }
                proof {
                    assert(before.take(before.len() as int) =~= before);
                    if kept@.len() > 0 {
                        assert(kept@.to_set().contains(kept@[0]));
                    } else {
                        assert(kept@.to_set() =~= Set::<ObjectId>::empty());
                    }
                }
                to_passive = kept.len() == 0;
                *s = kept;
            },
            UiMode::Passive => (),
            UiMode::UsingKeyboardNav(kbd_focus) => {
                let g = kbd_focus.as_graph_id();
                if !holds_graph_id(remaining_ids, g) {
                    to_passive = true;
                }
            },
        }
        if to_passive {
            self.mode = UiMode::Passive;
        }
        proof {
            if !self.spec_is_selecting() {
                assert(self.spec_selection() =~= old(self).spec_selection().filter(
                    |o: ObjectId| remaining_ids@.contains(graph_id_of(o)),
                ));
            }
        }
    }

    /// The selected objects, each once.
    pub fn selection(&self) -> (r: Vec<ObjectId>)
        requires
            self.wf(),
        ensures
            r@.no_duplicates(),
            r@.to_set() == self.spec_selection(),
    {
        match &self.mode {
            UiMode::Selecting(s) => {
                let mut r: Vec<ObjectId> = Vec::new();
                let mut i: usize = 0;
                while i < s.len()
                    invariant
                        i <= s.len(),
                        s@.no_duplicates(),
                        r@ == s@.take(i as int),
                    decreases s.len() - i,
                {
                    r.push(s[i]);
                    i = i + 1;
                    assert(r@ =~= s@.take(i as int));
                }
                assert(r@ =~= s@);
                r
            },
            _ => {
                let r: Vec<ObjectId> = Vec::new();
                assert(r@.to_set() =~= Set::<ObjectId>::empty());
                r
            },
        }
    }

    pub fn is_object_selected(&self, object_id: ObjectId) -> (b: bool)
        ensures
            b == self.spec_selection().contains(object_id),
    {
        match &self.mode {
            UiMode::Selecting(s) => holds_object(s, object_id),
            _ => false,
        }
    }

    pub fn object_has_keyboard_focus(&self, object_id: ObjectId) -> (b: bool)
        ensures
            b == match self.spec_focus() {
                Some(k) => k.spec_has_focus(object_id),
                None => false,
            },
    {
        match &self.mode {
            UiMode::UsingKeyboardNav(k) => k.object_has_keyboard_focus(object_id),
            _ => false,
        }
    }

    /// Selects every sound processor of `processor_ids`, the processors of
    /// the graph.
    pub fn select_all(&mut self, processor_ids: &Vec<SoundProcessorId>)
        requires
            processor_ids@.no_duplicates(),
        ensures
            final(self).wf(),
            final(self).spec_is_selecting(),
            final(self).spec_selection() == processor_ids@.to_set().map(|p: SoundProcessorId| ObjectId::Sound(p)),
            final(self).spec_focus() is None,
    {
        let mut ids: Vec<ObjectId> = Vec::new();
        let mut i: usize = 0;
        while i < processor_ids.len()
            invariant
                i <= processor_ids.len(),
                processor_ids@.no_duplicates(),
                ids@ == processor_ids@.take(i as int).map_values(|p: SoundProcessorId| ObjectId::Sound(p)),
            decreases processor_ids.len() - i,
        {
            ids.push(ObjectId::Sound(processor_ids[i]));
            i = i + 1;
            assert(ids@ =~= processor_ids@.take(i as int).map_values(|p: SoundProcessorId| ObjectId::Sound(p)));
        }
        proof {
            assert(processor_ids@.take(processor_ids@.len() as int) =~= processor_ids@);
            assert forall|a: int, b: int| 0 <= a < ids@.len() && 0 <= b < ids@.len() && a != b implies ids@[a]
                != ids@[b] by {
                assert(processor_ids@[a] != processor_ids@[b]);
            }
            assert forall|x: ObjectId| ids@.to_set().contains(x) == processor_ids@.to_set().map(
                |p: SoundProcessorId| ObjectId::Sound(p),
            ).contains(x) by {
                if ids@.contains(x) {
                    let k = choose|k: int| 0 <= k < ids@.len() && ids@[k] == x;
                    assert(processor_ids@.to_set().contains(processor_ids@[k]));
                }
                if processor_ids@.to_set().map(|p: SoundProcessorId| ObjectId::Sound(p)).contains(x) {
                    let p = choose|p: SoundProcessorId| processor_ids@.to_set().contains(p) && ObjectId::Sound(p) == x;
                    let k = choose|k: int| 0 <= k < processor_ids@.len() && processor_ids@[k] == p;
                    assert(ids@[k] == x);
                }
            }
            assert(ids@.to_set() =~= processor_ids@.to_set().map(|p: SoundProcessorId| ObjectId::Sound(p)));
        }
        self.set_selection(ids);
    }

    /// Drops the selection, if there is one.
    pub fn select_none(&mut self)
        requires
            old(self).wf(),
        ensures
            final(self).wf(),
            !final(self).spec_is_selecting(),
            final(self).spec_selection() == Set::<ObjectId>::empty(),
            final(self).spec_focus() == old(self).spec_focus(),
    {
        if let UiMode::Selecting(_) = self.mode {
            self.mode = UiMode::Passive;
        }
    }
}

/// The graph item an object is.
pub open spec fn graph_id_of(o: ObjectId) -> GraphId {
    match o {
        ObjectId::Sound(p) => GraphId::SoundProcessor(p),
    }
}

/// Whether `ids` holds `g`.
fn holds_graph_id(ids: &Vec<GraphId>, g: GraphId) -> (b: bool)
    ensures
        b == ids@.contains(g),
{
    let mut i: usize = 0;
    while i < ids.len()
        invariant
            i <= ids.len(),
            forall|j: int| 0 <= j < i ==> ids@[j] != g,
        decreases ids.len() - i,
    {
        if ids[i] == g {
            return true;
        }
        i = i + 1;
    }
    false
}

} // verus!
