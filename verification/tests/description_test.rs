use std::collections::HashMap;

use flosion::connectionerror::{ConnectionError, NumberConnectionError, SoundConnectionError};
use flosion::numberinput::{NumberInputId, NumberInputOwner};
use flosion::numbersource::{NumberSourceId, NumberSourceOwner};
use flosion::soundgraphdescription::{
    NumberInputDescription, NumberSourceDescription, SoundGraphDescription,
    SoundInputDescription, SoundProcessorDescription,
};
use flosion::soundinput::{InputOptions, SoundInputId};
use flosion::soundprocessor::SoundProcessorId;

fn p(i: usize) -> SoundProcessorId {
    SoundProcessorId(i)
}

fn i(n: usize) -> SoundInputId {
    SoundInputId(n)
}

/// Processors: (id, is_static, inputs). Inputs: (id, num_keys, realtime, target).
fn graph(
    procs: &[(usize, bool, Vec<usize>)],
    inputs: &[(usize, usize, bool, Option<usize>)],
) -> SoundGraphDescription {
    let mut sp = HashMap::new();
    for (id, st, ins) in procs.iter() {
        sp.insert(
            *id,
            SoundProcessorDescription::new(p(*id), *st, ins.iter().map(|x| i(*x)).collect()),
        );
    }
    let mut si = HashMap::new();
    for (id, keys, rt, target) in inputs.iter() {
        si.insert(
            *id,
            SoundInputDescription::new(
                i(*id),
                InputOptions { interruptible: false, realtime: *rt },
                *keys,
                target.map(p),
            ),
        );
    }
    SoundGraphDescription::new(sp, si, HashMap::new(), HashMap::new())
}

#[test]
fn connecting_and_disconnecting() {
    let mut g = graph(&[(1, false, vec![10]), (2, false, vec![])], &[(10, 1, true, None)]);
    assert!(g.find_error().is_none());
    assert!(matches!(
        g.add_connection(i(10), p(9)),
        Some(SoundConnectionError::ProcessorNotFound(SoundProcessorId(9)))
    ));
    assert!(matches!(
        g.add_connection(i(11), p(2)),
        Some(SoundConnectionError::InputNotFound(SoundInputId(11)))
    ));
    assert!(g.add_connection(i(10), p(2)).is_none());
    assert!(matches!(g.add_connection(i(10), p(2)), Some(SoundConnectionError::NoChange)));
    assert!(matches!(
        g.add_connection(i(10), p(1)),
        Some(SoundConnectionError::InputOccupied {
            input_id: SoundInputId(10),
            current_target: SoundProcessorId(2)
        })
    ));
    assert!(g.find_error().is_none());
    assert!(g.remove_connection(i(10)).is_none());
    assert!(matches!(
        g.remove_connection(i(12)),
        Some(SoundConnectionError::InputNotFound(SoundInputId(12)))
    ));
    let mut h = graph(&[(1, false, vec![10])], &[(10, 1, true, None)]);
    assert!(matches!(h.remove_connection(i(10)), Some(SoundConnectionError::NoChange)));
}

#[test]
fn sound_cycle_is_found() {
    let g = graph(
        &[(1, false, vec![10]), (2, false, vec![20])],
        &[(10, 1, true, Some(2)), (20, 1, true, Some(1))],
    );
    let cycle = g.find_sound_cycle().expect("a cycle");
    assert_eq!(cycle.connections.len(), 2);
    for (proc_id, input_id) in cycle.connections.iter() {
        assert!(
            (*proc_id == p(2) && *input_id == i(10)) || (*proc_id == p(1) && *input_id == i(20))
        );
    }
    assert!(matches!(
        g.find_error(),
        Some(ConnectionError::Sound(SoundConnectionError::CircularDependency { .. }))
    ));
    let acyclic = graph(
        &[(1, false, vec![10]), (2, false, vec![20]), (3, false, vec![])],
        &[(10, 1, true, Some(2)), (20, 1, true, Some(3))],
    );
    assert!(acyclic.find_sound_cycle().is_none());
}

#[test]
fn static_processor_with_too_many_states() {
    let g = graph(
        &[(1, true, vec![10]), (2, false, vec![20]), (3, true, vec![])],
        &[(10, 2, true, Some(2)), (20, 1, true, Some(3))],
    );
    assert!(matches!(
        g.validate_sound_connections(),
        Some(SoundConnectionError::StaticTooManyStates(SoundProcessorId(3)))
    ));
    assert!(matches!(
        g.find_error(),
        Some(ConnectionError::Sound(SoundConnectionError::StaticTooManyStates(SoundProcessorId(3))))
    ));
}

#[test]
fn static_processor_not_realtime() {
    let g = graph(&[(1, true, vec![10]), (2, true, vec![])], &[(10, 1, false, Some(2))]);
    assert!(matches!(
        g.validate_sound_connections(),
        Some(SoundConnectionError::StaticNotRealtime(SoundProcessorId(2)))
    ));
    let ok = graph(&[(1, true, vec![10]), (2, true, vec![])], &[(10, 1, true, Some(2))]);
    assert!(ok.validate_sound_connections().is_none());
    assert!(ok.find_error().is_none());
}

#[test]
fn number_cycle_is_found() {
    let mut sources = HashMap::new();
    sources.insert(
        1usize,
        NumberSourceDescription::new(NumberSourceId(1), vec![NumberInputId(10)], NumberSourceOwner::Nothing),
    );
    sources.insert(
        2usize,
        NumberSourceDescription::new(NumberSourceId(2), vec![NumberInputId(20)], NumberSourceOwner::Nothing),
    );
    let mut inputs = HashMap::new();
    inputs.insert(
        10usize,
        NumberInputDescription::new(
            NumberInputId(10),
            Some(NumberSourceId(2)),
            NumberInputOwner::NumberSource(NumberSourceId(1)),
        ),
    );
    inputs.insert(
        20usize,
        NumberInputDescription::new(
            NumberInputId(20),
            Some(NumberSourceId(1)),
            NumberInputOwner::NumberSource(NumberSourceId(2)),
        ),
    );
    let g = SoundGraphDescription::new(HashMap::new(), HashMap::new(), sources, inputs);
    let cycle = g.find_number_cycle().expect("a cycle");
    assert_eq!(cycle.connections.len(), 2);
    assert!(matches!(
        g.find_error(),
        Some(ConnectionError::Number(NumberConnectionError::CircularDependency { .. }))
    ));
}
