use flosion::gridspan::GridSpan;
use flosion::soundinput::SoundInputId;
use flosion::statetable::StateTablePartition;

fn span_parts(g: &GridSpan) -> (usize, usize, usize, usize) {
    (g.start_index(), g.items_per_row(), g.row_stride(), g.num_rows())
}

#[test]
fn partition_add_and_remove_destinations() {
    let mut p = StateTablePartition::new();
    assert_eq!(p.total_size(), 0);
    let a = p.add_dst(SoundInputId(1), 3);
    assert_eq!(span_parts(&a), (0, 3, 3, 1));
    let b = p.add_dst(SoundInputId(2), 2);
    assert_eq!(span_parts(&b), (3, 2, 2, 1));
    let c = p.add_dst(SoundInputId(3), 4);
    assert_eq!(span_parts(&c), (5, 4, 4, 1));
    assert_eq!(p.total_size(), 9);
    assert_eq!(p.get_index(SoundInputId(2), 1), 4);
    assert_eq!(p.get_index(SoundInputId(3), 0), 5);
    let removed = p.remove_dst(SoundInputId(2));
    assert_eq!(span_parts(&removed), (3, 2, 2, 1));
    assert_eq!(p.total_size(), 7);
    assert_eq!(p.get_index(SoundInputId(3), 0), 3);
}

#[test]
fn partition_grow_and_shrink_a_destination() {
    let mut p = StateTablePartition::new();
    p.add_dst(SoundInputId(1), 2);
    p.add_dst(SoundInputId(2), 2);
    let grown = p.add_dst_states(SoundInputId(1), GridSpan::new(1, 1, 2, 2));
    assert_eq!(span_parts(&grown), (1, 1, 2, 2));
    assert_eq!(p.total_size(), 6);
    assert_eq!(p.get_index(SoundInputId(2), 0), 4);
    let span = p.get_span(SoundInputId(2), GridSpan::new_contiguous(0, 2));
    assert_eq!(span_parts(&span), (4, 2, 2, 1));
    let shrunk = p.remove_dst_states(SoundInputId(1), GridSpan::new(1, 1, 2, 2));
    assert_eq!(span_parts(&shrunk), (1, 1, 2, 2));
    assert_eq!(p.total_size(), 4);
    assert_eq!(p.get_index(SoundInputId(2), 1), 3);
}

#[test]
fn grid_span_arithmetic() {
    let g = GridSpan::new(2, 3, 5, 4);
    assert_eq!(g.num_items(), 12);
    assert_eq!(g.last_index(), 2 + 3 * 5 + 3 - 1);
    let o = g.offset(10);
    assert_eq!(span_parts(&o), (12, 3, 5, 4));
    let e = GridSpan::new_empty();
    assert_eq!(e.num_items(), 0);
    let c = GridSpan::new_contiguous(7, 3);
    assert_eq!(c.num_items(), 3);
    assert_eq!(c.last_index(), 9);
}

#[test]
fn partition_add_then_remove_restores() {
    let mut p = StateTablePartition::new();
    p.add_dst(SoundInputId(1), 2);
    p.add_dst(SoundInputId(2), 3);
    let added = p.add_dst(SoundInputId(9), 4);
    let removed = p.remove_dst(SoundInputId(9));
    assert_eq!(span_parts(&added), span_parts(&removed));
    assert_eq!(p.total_size(), 5);
    assert_eq!(p.get_index(SoundInputId(2), 2), 4);

    let grown = p.add_dst_states(SoundInputId(1), GridSpan::new_contiguous(2, 3));
    let shrunk = p.remove_dst_states(SoundInputId(1), GridSpan::new_contiguous(2, 3));
    assert_eq!(span_parts(&grown), span_parts(&shrunk));
    assert_eq!(p.total_size(), 5);
    assert_eq!(p.get_index(SoundInputId(1), 1), 1);
    assert_eq!(p.get_index(SoundInputId(2), 0), 2);
}
