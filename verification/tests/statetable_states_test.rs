use flosion::gridspan::GridSpan;
use flosion::soundinput::{InputOptions, SingleSoundInput, SoundInputId};
use flosion::soundprocessor::{DynamicSoundProcessorData, SoundProcessorId};
use flosion::statetable::{KeyedStateTable, SoundState, StateTable};

#[derive(Default, Debug, Clone, PartialEq)]
struct Counter {
    value: u32,
}

impl SoundState for Counter {
    fn reset(&mut self) {
        self.value = 0;
    }
}

fn values(t: &StateTable<Counter>) -> Vec<u32> {
    (0..t.total_size()).map(|i| t.get_state(i).value).collect()
}

fn numbered(n: u32) -> StateTable<Counter> {
    let mut t: StateTable<Counter> = StateTable::new();
    t.insert_states(GridSpan::new_contiguous(0, n as usize));
    for i in 0..n as usize {
        t.get_state_mut(i).value = i as u32 + 1;
    }
    t
}

#[test]
fn grid_span_insert_and_erase() {
    let span = GridSpan::new(1, 2, 3, 2);
    let data = vec![10, 20, 30];
    let out = span.insert_with(data, || 0);
    assert_eq!(out, vec![10, 0, 0, 20, 0, 0, 30]);
    let back = span.erase(out);
    assert_eq!(back, vec![10, 20, 30]);
    let empty = GridSpan::new_empty();
    assert_eq!(empty.insert_with(vec![1, 2], || 9), vec![1, 2]);
    assert_eq!(empty.erase(vec![1, 2]), vec![1, 2]);
    let tail = GridSpan::new_contiguous(2, 2);
    assert_eq!(tail.insert_with(vec![1, 2], || 7), vec![1, 2, 7, 7]);
}

#[test]
fn state_table_insert_erase_reset() {
    let mut t = numbered(6);
    assert_eq!(values(&t), vec![1, 2, 3, 4, 5, 6]);
    t.erase_states(GridSpan::new(1, 1, 3, 2));
    assert_eq!(values(&t), vec![1, 3, 4, 6]);
    t.insert_states(GridSpan::new(0, 1, 2, 2));
    assert_eq!(values(&t), vec![0, 1, 0, 3, 4, 6]);
    let mut u = numbered(5);
    u.reset_states(GridSpan::new(1, 2, 3, 1));
    assert_eq!(values(&u), vec![1, 0, 0, 4, 5]);
}

#[test]
fn dynamic_processor_states_follow_the_inputs() {
    let mut d: DynamicSoundProcessorData<Counter> = DynamicSoundProcessorData::new(SoundProcessorId(1));
    assert_eq!(d.id(), SoundProcessorId(1));
    assert_eq!(d.num_states(), 0);
    d.add_dst(SoundInputId(10));
    d.add_dst(SoundInputId(20));
    let s = d.insert_dst_states(SoundInputId(10), GridSpan::new_contiguous(0, 2));
    assert_eq!((s.start_index(), s.num_items()), (0, 2));
    let s = d.insert_dst_states(SoundInputId(20), GridSpan::new_contiguous(0, 3));
    assert_eq!((s.start_index(), s.num_items()), (2, 3));
    assert_eq!(d.num_states(), 5);
    assert_eq!(d.find_state_index(SoundInputId(20), 1), 3);
    let s = d.insert_dst_states(SoundInputId(10), GridSpan::new_contiguous(2, 1));
    assert_eq!(s.start_index(), 2);
    assert_eq!(d.find_state_index(SoundInputId(20), 0), 3);
    let s = d.reset_states(SoundInputId(20), GridSpan::new_contiguous(1, 2));
    assert_eq!(s.start_index(), 4);
    let s = d.erase_dst_states(SoundInputId(10), GridSpan::new_contiguous(0, 3));
    assert_eq!((s.start_index(), s.num_items()), (0, 3));
    assert_eq!(d.num_states(), 3);
    assert_eq!(d.find_state_index(SoundInputId(20), 2), 2);
    d.remove_dst(SoundInputId(10));
    assert_eq!(d.find_state_index(SoundInputId(20), 0), 0);
    assert_eq!(d.get_state(0).value, 0);
}

#[test]
fn keyed_state_table_holds_one_state_per_key() {
    let mut t: KeyedStateTable<Counter> = KeyedStateTable::new();
    let s = t.add_key(5);
    assert_eq!((s.start_index(), s.items_per_row(), s.row_stride(), s.num_rows()), (0, 0, 1, 0));
    let s = t.add_key(1);
    assert_eq!((s.start_index(), s.items_per_row(), s.row_stride(), s.num_rows()), (0, 1, 2, 0));
    let s = t.insert_states(GridSpan::new_contiguous(0, 2));
    assert_eq!((s.start_index(), s.num_items()), (0, 4));
    t.get_state_mut(1, 1).value = 7;
    t.get_state_mut(0, 0).value = 3;
    assert_eq!(t.get_state(1, 1).value, 7);
    let s = t.reset_states(GridSpan::new_contiguous(1, 1));
    assert_eq!((s.start_index(), s.num_items()), (2, 2));
    assert_eq!(t.get_state(1, 1).value, 0);
    assert_eq!(t.get_state(0, 0).value, 3);
    let s = t.erase_states(GridSpan::new_contiguous(0, 1));
    assert_eq!((s.start_index(), s.num_items()), (0, 2));
    assert_eq!(t.get_state(0, 1).value, 0);
    let s = t.remove_key(5);
    assert_eq!((s.start_index(), s.items_per_row(), s.row_stride()), (1, 1, 2));
}

#[test]
fn single_input_states() {
    let (mut input, handle) =
        SingleSoundInput::<Counter>::new(SoundInputId(3), InputOptions { interruptible: true, realtime: false });
    assert_eq!(handle.id(), SoundInputId(3));
    assert_eq!(input.id(), SoundInputId(3));
    assert_eq!(input.num_keys(), 1);
    assert!(input.options().interruptible);
    let g = input.insert_states(GridSpan::new_contiguous(0, 3));
    assert_eq!(g.num_items(), 3);
    assert_eq!(input.get_state(2).value, 0);
    let g = input.erase_states(GridSpan::new_contiguous(1, 2));
    assert_eq!(g.start_index(), 1);
    assert_eq!(input.get_state(0).value, 0);
}
