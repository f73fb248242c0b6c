use flosion::graphobject::{GraphId, ObjectId};
use flosion::graphuistate::{GraphUIState, SelectionChange};
use flosion::soundprocessor::SoundProcessorId;

fn obj(i: usize) -> ObjectId {
    ObjectId::Sound(SoundProcessorId(i))
}

fn sorted_selection(s: &GraphUIState) -> Vec<usize> {
    let mut v: Vec<usize> = s
        .selection()
        .iter()
        .map(|o| match o {
            ObjectId::Sound(p) => p.0,
        })
        .collect();
    v.sort();
    v
}

#[test]
fn select_and_deselect_objects() {
    let mut s = GraphUIState::new();
    assert!(s.selection().is_empty());
    s.select_object(obj(1));
    s.select_object(obj(2));
    s.select_object(obj(1));
    assert_eq!(sorted_selection(&s), vec![1, 2]);
    assert!(s.is_object_selected(obj(1)));
    s.deselect_object(obj(1));
    assert!(!s.is_object_selected(obj(1)));
    assert_eq!(sorted_selection(&s), vec![2]);
    s.deselect_object(obj(2));
    assert!(s.selection().is_empty());
    s.deselect_object(obj(3));
    assert!(s.selection().is_empty());
}

#[test]
fn selection_rectangle_replace_add_subtract() {
    let mut s = GraphUIState::new();
    s.select_object(obj(1));
    s.select_object(obj(2));
    s.select_with_rect(&vec![obj(3), obj(4)], SelectionChange::Replace);
    assert_eq!(sorted_selection(&s), vec![3, 4]);
    s.select_with_rect(&vec![obj(1), obj(4)], SelectionChange::Add);
    assert_eq!(sorted_selection(&s), vec![1, 3, 4]);
    s.select_with_rect(&vec![obj(3), obj(5)], SelectionChange::Subtract);
    assert_eq!(sorted_selection(&s), vec![1, 4]);
    s.select_with_rect(&vec![obj(1), obj(4)], SelectionChange::Subtract);
    assert!(s.selection().is_empty());
    s.select_with_rect(&vec![], SelectionChange::Replace);
    assert!(s.selection().is_empty());
}

#[test]
fn cleanup_forgets_removed_objects() {
    let mut s = GraphUIState::new();
    s.set_selection(vec![obj(1), obj(2), obj(3)]);
    s.cleanup(&vec![
        GraphId::SoundProcessor(SoundProcessorId(2)),
        GraphId::SoundProcessor(SoundProcessorId(9)),
    ]);
    assert_eq!(sorted_selection(&s), vec![2]);
    s.cleanup(&vec![]);
    assert!(s.selection().is_empty());
}

#[test]
fn select_all_and_none() {
    let mut s = GraphUIState::new();
    s.select_all(&vec![SoundProcessorId(5), SoundProcessorId(6)]);
    assert_eq!(sorted_selection(&s), vec![5, 6]);
    s.select_none();
    assert!(s.selection().is_empty());
    s.set_selection(vec![obj(7)]);
    s.clear_selection();
    assert!(!s.is_object_selected(obj(7)));
    assert!(!s.object_has_keyboard_focus(obj(7)));
}
