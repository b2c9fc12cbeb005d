//! The core extension, the history operators, and the values that fields are edited with.

use jackdaw::brush::{Brush, Brushes};
use jackdaw::core_extension::{
    cancel_modal, dispatch_button_operator_call, is_any_modal_active, queue_operator_dispatch,
    refresh_buttons_on_selection_change, update_operator_button_availability, ButtonChange,
    ButtonOperatorCall, ExtensionKind, JackdawCoreExtension, ModalState, OperatorButton,
    CANCEL_OPERATOR,
};
use jackdaw::history::CommandHistory;
use jackdaw::history_ops::{
    add_to_extension, history_redo, history_undo, refresh_views_after_history, KnifeMode,
};
use jackdaw::json::{apply_json_to_reflect, FieldKind, JsonNumber, JsonValue, ReflectEdit};
use jackdaw::operators::{
    bind, ExtensionContext, KeyInput, OperatorParameters, OperatorResult, PropertyValue,
};
use jackdaw::outliner::Outliner;
use jackdaw::registration::register_entity_in_ast;
use jackdaw::sorting::text_at_most;
use jackdaw::text::{
    contains_text, ends_with, find_char, leading_segment, starts_with, text_eq, trim,
};
use jackdaw::world::{EntityRecord, Marks, SceneWorld};

#[test]
fn the_core_extension_registers_operators_keys_and_features() {
    let core = JackdawCoreExtension;
    assert_eq!(core.id(), "jackdaw.core");
    assert_eq!(core.kind(), ExtensionKind::Builtin);
    assert!(!core.label().is_empty());
    assert!(!core.description().is_empty());
    let mut ctx = ExtensionContext::new();
    core.register(&mut ctx, true, true);
    assert!(!ctx.operators.is_empty());
    assert!(!ctx.features.is_empty());
    assert!(ctx.bindings.iter().all(|b| ctx.operators.contains(&b.operator)));
    let escape: Vec<_> = ctx.bindings.iter().filter(|b| b.input.key == "Escape").collect();
    assert!(!escape.is_empty());
    for (operator, of) in [
        ("HistoryUndoOp", "the history"),
        ("EntityDeleteOp", "the entities"),
        ("RenameBeginOp", "the outliner"),
        ("ClipApplyOp", "the clip tool"),
        ("BrushFaceDragOp", "the drags"),
    ] {
        assert!(ctx.operators.contains(&operator), "{operator} of {of}");
    }
    let held = ["history_ops", "entity_ops", "hierarchy", "clip_ops", "brush_drag_ops"];
    assert!(ctx.features.iter().all(|f| !held.contains(f)));
    let with = ctx.operators.len();
    let mut fewer = ExtensionContext::new();
    core.register(&mut fewer, false, false);
    assert!(fewer.operators.len() < with);
}

#[test]
fn a_button_cancels_what_runs_and_calls_its_operator() {
    let call = ButtonOperatorCall { id: "entity.delete".to_string(), params: vec![("n".to_string(), 4)] };
    let dispatch = queue_operator_dispatch(call);
    assert_eq!(dispatch.cancel, CANCEL_OPERATOR);
    assert_eq!(dispatch.call.id, "entity.delete");
    assert_eq!(dispatch.call.params, vec![("n".to_string(), 4)]);
    assert!(dispatch.call.invoke);
    assert!(dispatch.call.creates_history_entry);
    assert!(dispatch_button_operator_call::<u8>(None).is_none());
}

#[test]
fn buttons_are_enabled_when_their_operators_are_available() {
    let button = |entity, alive, available, disabled| OperatorButton {
        entity,
        alive,
        available,
        disabled,
    };
    let changes = update_operator_button_availability(&vec![
        button(1, true, Some(true), true),
        button(2, true, Some(false), false),
        button(3, true, Some(true), false),
        button(4, false, Some(false), false),
        button(5, true, None, true),
    ]);
    assert_eq!(
        changes,
        vec![ButtonChange::Enable(1), ButtonChange::Disable(2), ButtonChange::Enable(5)]
    );
    assert!(refresh_buttons_on_selection_change(true));
    assert!(!refresh_buttons_on_selection_change(false));
}

#[test]
fn cancelling_ends_the_modal_and_dismisses_pickers() {
    let mut state = ModalState { running: Some(3), pickers: vec![8, 9] };
    assert!(is_any_modal_active(&state));
    let (result, dismissed) = cancel_modal(&mut state);
    assert_eq!(result, OperatorResult::Finished);
    assert_eq!(dismissed, vec![8, 9]);
    assert!(!is_any_modal_active(&state));
}

#[test]
fn undo_takes_back_knife_points_first() {
    let mut world = SceneWorld::new();
    let mut history = CommandHistory::new();
    let mut modal = ModalState { running: Some(3), pickers: Vec::new() };
    let mut knife = KnifeMode { path: vec![1, 2], undone_path: Vec::new() };
    let (_, stepped, _) = history_undo(&mut world, &mut history, &mut modal, &mut knife, false);
    assert!(!stepped);
    assert_eq!((knife.path.as_slice(), knife.undone_path.as_slice()), ([1].as_slice(), [2].as_slice()));
    assert_eq!(modal.running, Some(3));
    let (_, stepped, _) = history_redo(&mut world, &mut history, &mut modal, &mut knife);
    assert!(!stepped);
    assert_eq!(knife.path, vec![1, 2]);
    let mut none = KnifeMode { path: Vec::new(), undone_path: Vec::new() };
    let (_, stepped, _) = history_undo(&mut world, &mut history, &mut modal, &mut none, true);
    assert!(!stepped, "with shift the keys mean a redo");
    let (_, stepped, _) = history_undo(&mut world, &mut history, &mut modal, &mut none, false);
    assert!(stepped);
    assert_eq!(modal.running, None);
    let mut record = EntityRecord::bare(Marks::none());
    record.name = Some("Cube".to_string());
    world.insert(4, record);
    register_entity_in_ast(&mut world, 4);
    let mut brushes = Brushes::new();
    let cube = Brush { faces: Vec::new(), vertices: Vec::new(), polygons: Vec::new() };
    brushes.set(4, cube);
    let mut outliner = Outliner::new();
    let touched = refresh_views_after_history(
        &mut outliner,
        &world,
        false,
        &vec![(4, "\u{e10c}".to_string())],
        &Vec::new(),
        &vec![500],
        &brushes,
    );
    assert_eq!(touched, vec![4], "every brush is built again");
    assert_eq!(outliner.rows.len(), 1);
    assert_eq!(outliner.rows[0].label, "Cube");
    assert_eq!(outliner.rows[0].glyph.as_deref(), Some("\u{e10c}"));
    let mut ctx = ExtensionContext::new();
    add_to_extension(&mut ctx);
    assert!(ctx.bindings.iter().all(|b| ctx.operators.contains(&b.operator)));
}

#[test]
fn keys_and_parameters_are_read_back() {
    let input = KeyInput::key("KeyZ").ctrl().shift().alt();
    assert!(input.ctrl && input.shift && input.alt && input.on_press);
    assert!(!KeyInput::held("KeyW").on_press);
    assert_eq!(bind("HistoryUndoOp", input).operator, "HistoryUndoOp");
    let mut params = OperatorParameters::new();
    params.entries.push(("e".to_string(), PropertyValue::Entity(5)));
    params.entries.push(("t".to_string(), PropertyValue::Text("x".to_string())));
    params.entries.push(("f".to_string(), PropertyValue::Float(1.5f64.to_bits())));
    assert_eq!(params.as_entity("e"), Some(5));
    assert_eq!(params.as_entity("t"), None);
    assert_eq!(params.as_str("t").as_deref(), Some("x"));
    assert_eq!(params.as_float("f"), Some(1.5f64.to_bits()));
    assert_eq!(params.as_float("missing"), None);
}

fn whole(n: i128) -> JsonValue {
    JsonValue::Number(JsonNumber::Int(n))
}

#[test]
fn numbers_are_fitted_to_their_fields() {
    assert!(matches!(apply_json_to_reflect(FieldKind::I32, &whole(-5)), ReflectEdit::I32(-5)));
    assert!(matches!(apply_json_to_reflect(FieldKind::U8, &whole(200)), ReflectEdit::U8(200)));
    assert!(matches!(apply_json_to_reflect(FieldKind::U8, &whole(256)), ReflectEdit::U8(0)));
    assert!(matches!(apply_json_to_reflect(FieldKind::I8, &whole(200)), ReflectEdit::I8(-56)));
    assert!(matches!(
        apply_json_to_reflect(FieldKind::U64, &whole(u64::MAX as i128)),
        ReflectEdit::U64(u64::MAX)
    ));
    assert!(matches!(apply_json_to_reflect(FieldKind::F32, &whole(2)), ReflectEdit::F32(_)));
    assert!(matches!(apply_json_to_reflect(FieldKind::Bool, &JsonValue::Bool(true)), ReflectEdit::Bool(true)));
    assert!(matches!(apply_json_to_reflect(FieldKind::Bool, &whole(1)), ReflectEdit::Keep));
    assert!(matches!(
        apply_json_to_reflect(FieldKind::Text, &JsonValue::String("a".to_string())),
        ReflectEdit::Text(t) if t == "a"
    ));
}

#[test]
fn texts_are_compared_and_cut() {
    assert!(text_eq("ab", "ab") && !text_eq("ab", "abc"));
    assert!(starts_with("jackdaw::x", "jackdaw") && !starts_with("jack", "jackdaw"));
    assert!(ends_with("a.glb", ".glb") && !ends_with("glb", ".glb"));
    assert!(contains_text("point light", "nt li") && contains_text("x", ""));
    assert_eq!(find_char("a.b.c", '.'), 1);
    assert_eq!(leading_segment("translation.x"), "translation");
    assert_eq!(trim("\u{a0} x\t"), "x");
    assert!(text_at_most("A", "B") && text_at_most("a", "aa") && !text_at_most("b", "a"));
}
