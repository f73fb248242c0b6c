use flosion::draganddrop::{DragDropLegality, DragDropSubject};
use flosion::expressiongraph::ExpressionNodeId;
use flosion::expressionnodeui::{DisplayStyle, ExpressionNodeUi};
use flosion::gridspan::GridSpan;
use flosion::lexicallayout::NumberSourceLayout;
use flosion::numbersource::NumberSourceId;
use flosion::numbersourceui::{self, NumberSourceUi};
use flosion::soundgraphlayout::{InterconnectInput, ProcessorInterconnect};
use flosion::soundinput::{InputOptions, SoundInputId};
use flosion::soundprocessor::{SoundProcessorId, StaticSoundProcessorData};

#[test]
fn static_processor_states() {
    let mut d = StaticSoundProcessorData::new(SoundProcessorId(4), 17u32);
    assert_eq!(d.id(), SoundProcessorId(4));
    assert_eq!(*d.get_state(), 17);
    d.add_dst(SoundInputId(1));
    d.add_dst(SoundInputId(2));
    let r = d.insert_dst_states(SoundInputId(2), GridSpan::new_contiguous(0, 1));
    assert_eq!(r.num_items(), 0);
    assert_eq!(r.start_index(), 0);
    assert_eq!(d.find_state_index(SoundInputId(2), 0), 0);
    let r = d.erase_dst_states(SoundInputId(2), GridSpan::new_contiguous(0, 1));
    assert_eq!(r.num_rows(), 0);
    d.remove_dst(SoundInputId(2));
    d.remove_dst(SoundInputId(1));
    d.add_dst(SoundInputId(2));
}

#[test]
fn layout_serialization_round_trip() {
    let layouts = [
        NumberSourceLayout::Prefix,
        NumberSourceLayout::Infix,
        NumberSourceLayout::Postfix,
        NumberSourceLayout::Function,
    ];
    let mut bytes = Vec::new();
    for l in layouts.iter() {
        l.serialize(&mut bytes);
    }
    assert_eq!(bytes, vec![1, 2, 3, 4]);
    let mut pos = 0usize;
    for l in layouts.iter() {
        assert_eq!(NumberSourceLayout::deserialize(&bytes, &mut pos), Ok(*l));
    }
    assert_eq!(pos, 4);
    assert_eq!(NumberSourceLayout::deserialize(&bytes, &mut pos), Err(()));
    assert_eq!(pos, 4);
    let bad = vec![0u8, 5u8];
    let mut p = 0usize;
    assert_eq!(NumberSourceLayout::deserialize(&bad, &mut p), Err(()));
    assert_eq!(p, 0);
    assert_eq!(NumberSourceLayout::default(), NumberSourceLayout::Function);
}

#[test]
fn drag_drop_subjects() {
    let p = DragDropSubject::Processor(SoundProcessorId(1));
    assert_eq!(p.as_processor(), Some(SoundProcessorId(1)));
    assert_eq!(p.as_input(), None);
    let plug = DragDropSubject::Plug(SoundProcessorId(2));
    assert_eq!(plug.as_processor(), Some(SoundProcessorId(2)));
    let socket = DragDropSubject::Socket(SoundInputId(3));
    assert_eq!(socket.as_processor(), None);
    assert_eq!(socket.as_input(), Some(SoundInputId(3)));
    let group = DragDropSubject::Group { top_processor: SoundProcessorId(4) };
    assert_eq!(group.as_processor(), None);
    assert_eq!(group.as_input(), None);
    assert_ne!(DragDropLegality::Legal, DragDropLegality::Illegal);
}

#[test]
fn node_uis() {
    let _named = ExpressionNodeUi::new_named(ExpressionNodeId(1), "sin".to_string(), DisplayStyle::Framed);
    let _unnamed = ExpressionNodeUi::new_unnamed(ExpressionNodeId(2), DisplayStyle::Frameless);
    let _n = NumberSourceUi::new_named(NumberSourceId(1), "x".to_string(), numbersourceui::DisplayStyle::Framed);
    let _u = NumberSourceUi::new_unnamed(NumberSourceId(1), numbersourceui::DisplayStyle::Frameless);
}

#[test]
fn interconnects_name_their_neighbours() {
    let input = InterconnectInput {
        id: SoundInputId(7),
        options: InputOptions { interruptible: false, realtime: true },
        branches: 1,
    };
    let top = ProcessorInterconnect::TopOfStack(SoundProcessorId(1), input);
    assert_eq!(top.processor_above(), None);
    assert_eq!(top.processor_below(), Some(SoundProcessorId(1)));
    assert_eq!(top.unique_input().map(|i| i.id), Some(SoundInputId(7)));
    let between = ProcessorInterconnect::BetweenTwoProcessors {
        bottom: SoundProcessorId(2),
        top: SoundProcessorId(3),
        input,
    };
    assert_eq!(between.processor_above(), Some(SoundProcessorId(3)));
    assert_eq!(between.processor_below(), Some(SoundProcessorId(2)));
    assert_eq!(between.unique_input().map(|i| i.branches), Some(1));
    let bottom = ProcessorInterconnect::BottomOfStack(SoundProcessorId(4));
    assert_eq!(bottom.processor_above(), Some(SoundProcessorId(4)));
    assert_eq!(bottom.processor_below(), None);
    assert!(bottom.unique_input().is_none());
}
