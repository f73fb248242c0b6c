use flosion::draganddrop::DragDropSubject;
use flosion::globalinteractions::{combine_selection, FrameInput, GlobalInteractions, UiAction};
use flosion::keyboardnav::{
    DirectionsToGo, KeyboardNavInteraction, NavContext, ProcessorExpressionId,
    ProcessorExpressionLocation,
};
use flosion::soundinput::SoundInputId;
use flosion::soundprocessor::SoundProcessorId;

fn quiet() -> FrameInput {
    FrameInput {
        pressed_tab: false,
        pressed_esc: false,
        pressed_delete: false,
        drag_started: false,
        drag_stopped: false,
        shift_held: false,
        alt_held: false,
        touched: vec![],
        summon_chosen: false,
        summon_cancelled: false,
        keyboard: None,
        pressed_ctrl_a: false,
        bg_clicked: false,
        all_objects: vec![],
    }
}

fn ids(v: &[usize]) -> Vec<SoundProcessorId> {
    v.iter().map(|i| SoundProcessorId(*i)).collect()
}

fn sorted(v: &[SoundProcessorId]) -> Vec<usize> {
    let mut r: Vec<usize> = v.iter().map(|p| p.0).collect();
    r.sort();
    r
}

fn selected(g: &GlobalInteractions) -> Option<(Vec<usize>, bool)> {
    g.selection().map(|(v, b)| (sorted(v), b))
}

#[test]
fn combine_selection_adds_subtracts_or_replaces() {
    let objects = ids(&[1, 2, 3]);
    let touched = ids(&[3, 4, 4]);
    assert_eq!(sorted(&combine_selection(&objects, &touched, true, false)), vec![1, 2, 3, 4]);
    assert_eq!(sorted(&combine_selection(&objects, &touched, false, true)), vec![1, 2]);
    assert_eq!(sorted(&combine_selection(&objects, &touched, false, false)), vec![3, 4]);
    assert_eq!(combine_selection(&objects, &touched, false, false).len(), 2);
}

#[test]
fn tab_summons_and_a_choice_closes_the_widget() {
    let mut g = GlobalInteractions::new();
    assert!(g.is_passive());
    let mut tab = quiet();
    tab.pressed_tab = true;
    assert!(matches!(g.interact(&tab), UiAction::StartSummoning));
    assert!(g.is_summoning());
    assert!(matches!(g.interact(&quiet()), UiAction::Nothing));
    assert!(g.is_summoning());
    let mut chosen = quiet();
    chosen.summon_chosen = true;
    assert!(matches!(g.interact(&chosen), UiAction::AddSummonedObject));
    assert!(g.is_passive());

    g.interact(&tab);
    let mut cancelled = quiet();
    cancelled.summon_cancelled = true;
    assert!(matches!(g.interact(&cancelled), UiAction::Nothing));
    assert!(g.is_passive());
}

#[test]
fn dragging_out_areas_builds_a_selection() {
    let mut g = GlobalInteractions::new();
    let mut start = quiet();
    start.drag_started = true;
    g.interact(&start);
    assert_eq!(selected(&g), Some((vec![], true)));

    let mut stop = quiet();
    stop.drag_stopped = true;
    stop.touched = ids(&[1, 2]);
    g.interact(&stop);
    assert_eq!(selected(&g), Some((vec![1, 2], false)));

    let mut add = quiet();
    add.drag_started = true;
    add.drag_stopped = true;
    add.shift_held = true;
    add.touched = ids(&[3]);
    g.interact(&add);
    assert_eq!(selected(&g), Some((vec![1, 2, 3], false)));

    let mut sub = quiet();
    sub.drag_started = true;
    sub.drag_stopped = true;
    sub.alt_held = true;
    sub.touched = ids(&[1, 2, 3]);
    g.interact(&sub);
    assert_eq!(selected(&g), None);
    assert!(g.is_passive());
}

#[test]
fn delete_removes_the_selection_and_escape_keeps_it() {
    let mut g = GlobalInteractions::new();
    let mut pick = quiet();
    pick.drag_started = true;
    pick.drag_stopped = true;
    pick.touched = ids(&[5, 6, 5]);
    g.interact(&pick);
    g.interact(&pick);
    assert_eq!(selected(&g), Some((vec![5, 6], false)));
    let mut delete = quiet();
    delete.pressed_delete = true;
    match g.interact(&delete) {
        UiAction::RemoveProcessors(v) => assert_eq!(sorted(&v), vec![5, 6]),
        _ => panic!("expected a removal"),
    }
    assert!(g.is_passive());

    g.interact(&pick);
    g.interact(&pick);
    let mut esc = quiet();
    esc.pressed_esc = true;
    esc.pressed_delete = true;
    assert!(matches!(g.interact(&esc), UiAction::Nothing));
    assert!(g.is_passive());
}

#[test]
fn drops_are_handled_once() {
    let mut g = GlobalInteractions::new();
    let subject = DragDropSubject::Processor(SoundProcessorId(4));
    g.start_dragging(subject);
    assert!(matches!(g.interact(&quiet()), UiAction::DragAndDraw));
    g.start_dropping(subject);
    match g.interact(&quiet()) {
        UiAction::HandleDrop(d) => assert_eq!(d, subject),
        _ => panic!("expected a drop"),
    }
    assert!(g.is_passive());
}

#[test]
fn keyboard_focus_moves_through_the_editor() {
    let mut g = GlobalInteractions::new();
    g.start_keyboard_nav(KeyboardNavInteraction::AroundSoundProcessor(SoundProcessorId(1)));
    let ctx = NavContext {
        inputs: vec![SoundInputId(8), SoundInputId(9)],
        owner: SoundProcessorId(1),
        expressions: vec![],
        processor_above: None,
        processor_below: None,
        inputs_below: vec![],
        is_top_of_group: true,
    };
    let allowed = g.keyboard_focus().unwrap().allowed_directions(&ctx);
    assert_eq!(
        allowed,
        DirectionsToGo { go_up: true, go_down: true, go_in: false, go_out: false }
    );
    let mut input = quiet();
    input.keyboard = Some((
        DirectionsToGo { go_up: true, go_down: false, go_in: false, go_out: false },
        ctx,
    ));
    assert!(matches!(g.interact(&input), UiAction::Nothing));
    assert!(matches!(
        g.keyboard_focus(),
        Some(KeyboardNavInteraction::AroundInputSocket(SoundInputId(9)))
    ));
}

#[test]
fn escape_or_a_background_click_ends_any_mode() {
    let subject = DragDropSubject::Processor(SoundProcessorId(4));
    let mut esc = quiet();
    esc.pressed_esc = true;
    let mut g = GlobalInteractions::new();
    g.start_dragging(subject);
    assert!(matches!(g.interact(&esc), UiAction::DragAndDraw));
    assert!(g.is_passive());

    let mut tab = quiet();
    tab.pressed_tab = true;
    g.interact(&tab);
    assert!(g.is_summoning());
    let mut click = quiet();
    click.bg_clicked = true;
    g.interact(&click);
    assert!(g.is_passive());
}

#[test]
fn ctrl_a_selects_every_object() {
    let mut g = GlobalInteractions::new();
    let mut all = quiet();
    all.pressed_ctrl_a = true;
    all.all_objects = ids(&[3, 1, 3, 2]);
    g.interact(&all);
    assert_eq!(selected(&g), Some((vec![1, 2, 3], false)));

    let mut both = all;
    both.pressed_esc = true;
    g.interact(&both);
    assert_eq!(selected(&g), None);
    assert!(g.is_passive());

    let mut passive_both = quiet();
    passive_both.pressed_ctrl_a = true;
    passive_both.pressed_esc = true;
    g.interact(&passive_both);
    assert!(g.is_passive());
    let mut click = quiet();
    click.bg_clicked = true;
    click.pressed_ctrl_a = true;
    g.interact(&click);
    assert!(g.is_passive());
}

#[test]
fn keyboard_focus_takes_escape_when_it_can_go_out() {
    let e = ProcessorExpressionLocation::new(SoundProcessorId(1), ProcessorExpressionId(0));
    let ctx = NavContext {
        inputs: vec![],
        owner: SoundProcessorId(1),
        expressions: vec![e],
        processor_above: None,
        processor_below: None,
        inputs_below: vec![],
        is_top_of_group: true,
    };
    let mut g = GlobalInteractions::new();
    g.start_keyboard_nav(KeyboardNavInteraction::AroundExpression(e));
    let mut input = quiet();
    input.pressed_esc = true;
    input.keyboard = Some((DirectionsToGo { go_up: false, go_down: false, go_in: false, go_out: true }, ctx));
    g.interact(&input);
    assert!(matches!(
        g.keyboard_focus(),
        Some(KeyboardNavInteraction::AroundSoundProcessor(SoundProcessorId(1)))
    ));

    let mut plain = quiet();
    plain.pressed_esc = true;
    g.interact(&plain);
    assert!(g.is_passive());
}

#[test]
fn cleanup_forgets_what_left_the_graph() {
    let mut g = GlobalInteractions::new();
    let mut all = quiet();
    all.pressed_ctrl_a = true;
    all.all_objects = ids(&[1, 2, 3]);
    g.interact(&all);
    g.cleanup(&ids(&[2, 3, 9]), &vec![]);
    assert_eq!(selected(&g), Some((vec![2, 3], false)));
    g.cleanup(&ids(&[9]), &vec![]);
    assert!(g.is_passive());

    g.focus_on_processor(SoundProcessorId(5));
    g.cleanup(&ids(&[5]), &vec![]);
    assert!(g.keyboard_focus().is_some());
    g.cleanup(&ids(&[]), &vec![]);
    assert!(g.is_passive());

    g.start_dragging(DragDropSubject::Socket(SoundInputId(7)));
    g.drop_dragging();
    g.cleanup(&ids(&[]), &vec![SoundInputId(7)]);
    match g.interact(&quiet()) {
        UiAction::HandleDrop(d) => assert_eq!(d, DragDropSubject::Socket(SoundInputId(7))),
        _ => panic!("expected a drop"),
    }
    g.start_dragging(DragDropSubject::Socket(SoundInputId(7)));
    g.cleanup(&ids(&[]), &vec![]);
    assert!(g.is_passive());
}
