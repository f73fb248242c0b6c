use flosion::keyboardnav::{
    expressions_of_processor, DirectionsToGo, KeyboardNavInteraction, NavContext,
    ProcessorExpressionId, ProcessorExpressionLocation,
};
use flosion::soundinput::SoundInputId;
use flosion::soundprocessor::SoundProcessorId;

fn dirs(up: bool, down: bool, go_in: bool, out: bool) -> DirectionsToGo {
    DirectionsToGo { go_up: up, go_down: down, go_in, go_out: out }
}

fn loc(p: usize, e: usize) -> ProcessorExpressionLocation {
    ProcessorExpressionLocation::new(SoundProcessorId(p), ProcessorExpressionId(e))
}

fn context() -> NavContext {
    NavContext {
        inputs: vec![SoundInputId(10), SoundInputId(11), SoundInputId(12)],
        owner: SoundProcessorId(1),
        expressions: vec![loc(2, 0), loc(1, 5), loc(2, 1), loc(1, 6)],
        processor_above: Some(SoundProcessorId(7)),
        processor_below: Some(SoundProcessorId(3)),
        inputs_below: vec![SoundInputId(30), SoundInputId(31)],
        is_top_of_group: false,
    }
}

fn socket(f: &KeyboardNavInteraction) -> Option<usize> {
    match f {
        KeyboardNavInteraction::AroundInputSocket(i) => Some(i.0),
        _ => None,
    }
}

#[test]
fn nowhere_allows_nothing() {
    assert_eq!(DirectionsToGo::nowhere(), dirs(false, false, false, false));
}

#[test]
fn expressions_of_a_processor_keep_their_order() {
    let ctx = context();
    assert_eq!(
        expressions_of_processor(&ctx.expressions, SoundProcessorId(1)),
        vec![loc(1, 5), loc(1, 6)]
    );
    assert_eq!(expressions_of_processor(&ctx.expressions, SoundProcessorId(9)), vec![]);
}

#[test]
fn processor_focus_moves_to_its_last_input_plug_and_first_expression() {
    let ctx = context();
    let f = KeyboardNavInteraction::AroundSoundProcessor(SoundProcessorId(1));
    assert_eq!(f.allowed_directions(&ctx), dirs(true, true, true, false));

    let mut up = KeyboardNavInteraction::AroundSoundProcessor(SoundProcessorId(1));
    up.navigate(&dirs(true, false, false, false), &ctx);
    assert_eq!(socket(&up), Some(12));

    let mut down = KeyboardNavInteraction::AroundSoundProcessor(SoundProcessorId(1));
    down.navigate(&dirs(false, true, false, false), &ctx);
    assert!(matches!(down, KeyboardNavInteraction::AroundProcessorPlug(SoundProcessorId(1))));
    down.navigate(&dirs(true, false, false, false), &ctx);
    assert!(matches!(down, KeyboardNavInteraction::AroundSoundProcessor(SoundProcessorId(1))));

    let mut into = KeyboardNavInteraction::AroundSoundProcessor(SoundProcessorId(1));
    into.navigate(&dirs(false, false, true, false), &ctx);
    match into {
        KeyboardNavInteraction::AroundExpression(e) => assert_eq!(e, loc(1, 5)),
        _ => panic!("expected an expression"),
    }
}

#[test]
fn processor_without_inputs_or_expressions_stays() {
    let mut ctx = context();
    ctx.inputs = vec![];
    let f = KeyboardNavInteraction::AroundSoundProcessor(SoundProcessorId(4));
    assert_eq!(f.allowed_directions(&ctx), dirs(false, true, false, false));
    let mut g = KeyboardNavInteraction::AroundSoundProcessor(SoundProcessorId(4));
    g.navigate(&dirs(true, false, false, false), &ctx);
    assert!(matches!(g, KeyboardNavInteraction::AroundSoundProcessor(SoundProcessorId(4))));
    g.navigate(&dirs(false, false, true, false), &ctx);
    assert!(matches!(g, KeyboardNavInteraction::AroundSoundProcessor(SoundProcessorId(4))));
}

#[test]
fn plug_moves_to_the_first_input_of_the_processor_below() {
    let ctx = context();
    let f = KeyboardNavInteraction::AroundProcessorPlug(SoundProcessorId(1));
    assert_eq!(f.allowed_directions(&ctx), dirs(true, true, false, false));
    let mut g = KeyboardNavInteraction::AroundProcessorPlug(SoundProcessorId(1));
    g.navigate(&dirs(false, true, false, false), &ctx);
    assert_eq!(socket(&g), Some(30));

    let mut bottom = context();
    bottom.processor_below = None;
    let mut h = KeyboardNavInteraction::AroundProcessorPlug(SoundProcessorId(1));
    assert_eq!(h.allowed_directions(&bottom), dirs(true, false, false, false));
    h.navigate(&dirs(false, true, false, false), &bottom);
    assert!(matches!(h, KeyboardNavInteraction::AroundProcessorPlug(SoundProcessorId(1))));
}

#[test]
fn sockets_move_along_the_inputs() {
    let ctx = context();
    let mut f = KeyboardNavInteraction::AroundInputSocket(SoundInputId(11));
    assert_eq!(f.allowed_directions(&ctx), dirs(true, true, false, false));
    f.navigate(&dirs(true, false, false, false), &ctx);
    assert_eq!(socket(&f), Some(10));
    f.navigate(&dirs(true, false, false, false), &ctx);
    assert!(matches!(f, KeyboardNavInteraction::AroundProcessorPlug(SoundProcessorId(7))));

    let mut g = KeyboardNavInteraction::AroundInputSocket(SoundInputId(11));
    g.navigate(&dirs(false, true, false, false), &ctx);
    assert_eq!(socket(&g), Some(12));
    g.navigate(&dirs(false, true, false, false), &ctx);
    assert!(matches!(g, KeyboardNavInteraction::AroundSoundProcessor(SoundProcessorId(1))));

    let mut top = context();
    top.is_top_of_group = true;
    top.processor_above = None;
    let mut h = KeyboardNavInteraction::AroundInputSocket(SoundInputId(10));
    assert_eq!(h.allowed_directions(&top), dirs(false, true, false, false));
    h.navigate(&dirs(true, false, false, false), &top);
    assert_eq!(socket(&h), Some(10));
}

#[test]
fn expressions_move_within_their_processor_and_in_and_out() {
    let ctx = context();
    let mut f = KeyboardNavInteraction::AroundExpression(loc(1, 5));
    assert_eq!(f.allowed_directions(&ctx), dirs(false, true, true, true));
    f.navigate(&dirs(false, true, false, false), &ctx);
    match &f {
        KeyboardNavInteraction::AroundExpression(e) => assert_eq!(*e, loc(1, 6)),
        _ => panic!("expected an expression"),
    }
    assert_eq!(f.allowed_directions(&ctx), dirs(true, false, true, true));
    f.navigate(&dirs(false, false, true, false), &ctx);
    assert!(matches!(f, KeyboardNavInteraction::InsideExpression(_, _)));
    assert_eq!(f.allowed_directions(&ctx), dirs(false, false, false, true));
    f.navigate(&dirs(false, false, false, true), &ctx);
    match &f {
        KeyboardNavInteraction::AroundExpression(e) => assert_eq!(*e, loc(1, 6)),
        _ => panic!("expected an expression"),
    }
    f.navigate(&dirs(false, false, false, true), &ctx);
    assert!(matches!(f, KeyboardNavInteraction::AroundSoundProcessor(SoundProcessorId(1))));
}
