use std::time::Duration;

use flosion::context::{
    KeyedSoundInputFrame, SingleSoundInputFrame, SoundProcessorFrame, SoundStack, SoundStackFrame,
};
use flosion::diagnostics::{
    diagnostic_ages, retain_fresh, AllDiagnostics, Diagnostic, DiagnosticMessage,
    DiagnosticRelevance,
};
use flosion::graphobject::{GraphId, ObjectId};
use flosion::keyrange::KeyRange;
use flosion::numberinput::{NumberInputId, NumberInputOwner};
use flosion::numbersource::NumberSourceId;
use flosion::path::{NumberPath, SoundPath};
use flosion::soundinput::SoundInputId;
use flosion::soundprocessor::SoundProcessorId;
use flosion::uniqueid::{IdGenerator, UniqueId};

#[test]
fn id_generator_counts_up_from_one() {
    let mut g: IdGenerator<SoundProcessorId> = IdGenerator::new();
    assert_eq!(g.next(), SoundProcessorId(1));
    assert_eq!(g.next(), SoundProcessorId(2));
    assert_eq!(g.next().value(), 3);
    assert_eq!(SoundProcessorId::default(), SoundProcessorId(1));
    assert_eq!(SoundInputId(4).next(), SoundInputId(5));
}

#[test]
fn key_range_keeps_keys_sorted() {
    let mut k = KeyRange::new();
    assert_eq!(k.insert_key(5), 0);
    assert_eq!(k.insert_key(2), 0);
    assert_eq!(k.insert_key(9), 2);
    assert_eq!(k.insert_key(5), 2);
    assert_eq!(k.keys(), &[2, 5, 5, 9]);
    k.erase_key(1);
    assert_eq!(k.keys(), &[2, 5, 9]);
}

#[test]
fn sound_path_trimming() {
    let mut p = SoundPath::new(vec![]);
    p.push(SoundProcessorId(1), SoundInputId(10));
    p.push(SoundProcessorId(2), SoundInputId(20));
    p.push(SoundProcessorId(3), SoundInputId(30));
    assert!(p.contains_input(SoundInputId(20)));
    assert!(!p.contains_input(SoundInputId(40)));
    let t = p.trim_until_input(SoundInputId(20));
    assert_eq!(
        t.connections,
        vec![(SoundProcessorId(2), SoundInputId(20)), (SoundProcessorId(3), SoundInputId(30))]
    );
    assert_eq!(p.pop(), Some((SoundProcessorId(3), SoundInputId(30))));
    let mut n = NumberPath::new(vec![(NumberSourceId(1), NumberInputId(2))]);
    assert!(n.contains_input(NumberInputId(2)));
    assert_eq!(n.trim_until_input(NumberInputId(2)).connections.len(), 1);
    assert_eq!(n.pop(), Some((NumberSourceId(1), NumberInputId(2))));
    assert_eq!(n.pop(), None);
}

#[test]
fn stack_frames() {
    let f = SoundStackFrame::Processor(SoundProcessorFrame { id: SoundProcessorId(1), state_index: 2 });
    assert!(f.into_processor_frame().is_some());
    assert!(f.into_single_input_frame().is_none());
    let s = SoundStackFrame::SingleInput(SingleSoundInputFrame { id: SoundInputId(3), state_index: 4 });
    assert_eq!(s.into_single_input_frame().unwrap().state_index, 4);
    assert!(s.into_keyed_input_frame().is_none());
    let k = SoundStackFrame::KeyedInput(KeyedSoundInputFrame {
        id: SoundInputId(5),
        key_index: 6,
        state_index: 7,
    });
    assert_eq!(k.into_keyed_input_frame().unwrap().key_index, 6);
    assert!(k.into_processor_frame().is_none());
}

#[test]
fn number_input_owner_statefulness() {
    assert!(NumberInputOwner::SoundProcessor(SoundProcessorId(1)).is_stateful());
    assert!(NumberInputOwner::SoundInput(SoundInputId(1)).is_stateful());
    assert!(!NumberInputOwner::NumberSource(NumberSourceId(1)).is_stateful());
}

#[test]
fn diagnostics_warning_levels() {
    let a = GraphId::SoundProcessor(SoundProcessorId(1));
    let b = GraphId::SoundInput(SoundInputId(2));
    let c = GraphId::NumberSource(NumberSourceId(3));
    let mut all = AllDiagnostics::new();
    assert_eq!(all.graph_item_has_warning(a), None);
    all.push_diagnostic(Diagnostic::new(DiagnosticMessage::GenericWarning((
        a,
        DiagnosticRelevance::Secondary,
    ))));
    assert_eq!(all.graph_item_has_warning(a), Some(DiagnosticRelevance::Secondary));
    all.push_diagnostic(Diagnostic::new(DiagnosticMessage::GenericWarning((
        a,
        DiagnosticRelevance::Primary,
    ))));
    all.push_diagnostic(Diagnostic::new(DiagnosticMessage::GenericWarning((
        b,
        DiagnosticRelevance::Secondary,
    ))));
    assert_eq!(all.graph_item_has_warning(a), Some(DiagnosticRelevance::Primary));
    assert_eq!(all.graph_item_has_warning(b), Some(DiagnosticRelevance::Secondary));
    assert_eq!(all.graph_item_has_warning(c), None);
    assert_eq!(all.get_diagnostics().len(), 3);
    assert_eq!(
        all.get_diagnostics()[2].message().involves(b),
        Some(DiagnosticRelevance::Secondary)
    );
    all.age_out(Duration::from_secs(3600).as_nanos());
    assert_eq!(all.get_diagnostics().len(), 3);
    let start = std::time::Instant::now();
    while start.elapsed() < Duration::from_millis(20) {}
    all.age_out(Duration::from_millis(1).as_nanos());
    assert_eq!(all.get_diagnostics().len(), 0);
    let o = ObjectId::Sound(SoundProcessorId(8));
    assert_eq!(o.as_graph_id(), GraphId::SoundProcessor(SoundProcessorId(8)));
}

fn warning_for(id: GraphId) -> Diagnostic {
    Diagnostic::new(DiagnosticMessage::GenericWarning((id, DiagnosticRelevance::Primary)))
}

#[test]
fn retain_fresh_keeps_exactly_the_young_in_order() {
    let ids = [
        GraphId::SoundProcessor(SoundProcessorId(1)),
        GraphId::SoundProcessor(SoundProcessorId(2)),
        GraphId::SoundProcessor(SoundProcessorId(3)),
        GraphId::SoundProcessor(SoundProcessorId(4)),
    ];
    let diagnostics: Vec<Diagnostic> = ids.iter().map(|id| warning_for(*id)).collect();
    let ages: Vec<u128> = vec![5, 30, 10, 11];
    let kept = retain_fresh(diagnostics, &ages, 10);
    assert_eq!(kept.len(), 2);
    assert_eq!(kept[0].message().involves(ids[0]), Some(DiagnosticRelevance::Primary));
    assert_eq!(kept[1].message().involves(ids[2]), Some(DiagnosticRelevance::Primary));
    assert_eq!(kept[1].message().involves(ids[1]), None);
    let again = retain_fresh(kept, &vec![5, 10], 10);
    assert_eq!(again.len(), 2);
    assert_eq!(again[1].message().involves(ids[2]), Some(DiagnosticRelevance::Primary));

    let none: Vec<Diagnostic> = ids.iter().map(|id| warning_for(*id)).collect();
    assert_eq!(retain_fresh(none, &vec![1, 2, 3, 4], 0).len(), 0);
    let all: Vec<Diagnostic> = ids.iter().map(|id| warning_for(*id)).collect();
    assert_eq!(retain_fresh(all, &vec![0, 0, 0, 0], 0).len(), 4);
}

#[test]
fn diagnostic_ages_measure_each_diagnostic() {
    let old = warning_for(GraphId::SoundProcessor(SoundProcessorId(1)));
    let start = std::time::Instant::now();
    while start.elapsed() < Duration::from_millis(20) {}
    let young = warning_for(GraphId::SoundProcessor(SoundProcessorId(2)));
    let diagnostics = vec![old, young];
    let now = std::time::Instant::now();
    let ages = diagnostic_ages(&diagnostics, &now);
    assert_eq!(ages.len(), 2);
    assert!(ages[0] >= 20_000_000);
    assert!(ages[1] < ages[0]);
    let kept = retain_fresh(diagnostics, &ages, ages[1]);
    assert_eq!(kept.len(), 1);
    assert_eq!(
        kept[0].message().involves(GraphId::SoundProcessor(SoundProcessorId(2))),
        Some(DiagnosticRelevance::Primary)
    );
}

#[test]
fn sound_stack_finds_topmost_frames() {
    let stack = SoundStack::new(vec![
        SoundStackFrame::Processor(SoundProcessorFrame { id: SoundProcessorId(1), state_index: 0 }),
        SoundStackFrame::SingleInput(SingleSoundInputFrame { id: SoundInputId(5), state_index: 0 }),
        SoundStackFrame::Processor(SoundProcessorFrame { id: SoundProcessorId(2), state_index: 3 }),
        SoundStackFrame::KeyedInput(KeyedSoundInputFrame {
            id: SoundInputId(6),
            key_index: 1,
            state_index: 3,
        }),
        SoundStackFrame::Processor(SoundProcessorFrame { id: SoundProcessorId(1), state_index: 4 }),
    ]);
    assert_eq!(stack.processor_frame(SoundProcessorId(1)).state_index, 4);
    assert_eq!(stack.processor_frame(SoundProcessorId(2)).state_index, 3);
    assert_eq!(stack.single_input_frame(SoundInputId(5)).state_index, 0);
    assert_eq!(stack.keyed_input_frame(SoundInputId(6)).key_index, 1);
    assert!(matches!(
        stack.current_frame(),
        SoundStackFrame::Processor(SoundProcessorFrame { id: SoundProcessorId(1), state_index: 4 })
    ));
    let next = stack.stack_for_input(SoundInputId(7), Some(2), SoundProcessorId(9), 11);
    assert!(matches!(
        next.current_frame(),
        SoundStackFrame::Processor(SoundProcessorFrame { id: SoundProcessorId(9), state_index: 11 })
    ));
    assert_eq!(next.keyed_input_frame(SoundInputId(7)).state_index, 4);
    assert_eq!(next.keyed_input_frame(SoundInputId(7)).key_index, 2);
    let single = stack.stack_for_input(SoundInputId(8), None, SoundProcessorId(9), 0);
    assert_eq!(single.single_input_frame(SoundInputId(8)).state_index, 4);
}
