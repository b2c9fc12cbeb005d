//! Field edits, the command history, and the edits of whole components.

use jackdaw::component_commands::{AddComponent, AddProjectComponent, RemoveComponent, SetTransform};
use jackdaw::document::SceneBsnAst;
use jackdaw::field_edit::{
    bundle, field_edit_applies, field_edit_begin, field_edit_commit, field_edit_preview,
    resolve_field_edit_old_value, FieldEditSessions,
};
use jackdaw::history::{CommandHistory, EditorCommand};
use jackdaw::location::{HierarchyLocation, MoveEntity};
use jackdaw::patch::BsnPatch;
use jackdaw::set_field::{SetBsnField, NAME_TYPE_PATH};
use jackdaw::value::{BsnField, BsnStructData, BsnValue, Entity};
use jackdaw::world::{EntityRecord, Marks, ProjectSchema, SceneWorld, TypeEntry};

const TRANSFORM: &str = "bevy_transform::components::transform::Transform";
const HEALTH: &str = "game::Health";
const ENTITY: Entity = 7;

fn float(x: f64) -> BsnValue {
    BsnValue::Float(x.to_bits())
}

fn float_field(name: &str, x: f64) -> BsnField {
    BsnField { name: name.to_string(), value: float(x) }
}

fn transform(x: f64, y: f64, z: f64) -> BsnStructData {
    BsnStructData {
        type_path: TRANSFORM.to_string(),
        fields: vec![
            float_field("translation.x", x),
            float_field("translation.y", y),
            float_field("translation.z", z),
            float_field("scale.x", 1.0),
        ],
    }
}

fn field_world() -> SceneWorld {
    let mut world = SceneWorld::new();
    world.types.push(TypeEntry {
        type_path: TRANSFORM.to_string(),
        default: Some(transform(0.0, 0.0, 0.0)),
    });
    world
}

fn spawn(world: &mut SceneWorld, name: Option<&str>, components: Vec<BsnStructData>) {
    let mut record = EntityRecord::bare(Marks::none());
    record.name = name.map(|n| n.to_string());
    record.components = components;
    world.insert(ENTITY, record);
}

fn create_entity_in_ast(world: &mut SceneWorld, patches: Vec<BsnPatch>) -> Entity {
    let mut all: Vec<BsnPatch> = Vec::new();
    if let Some(name) = world.name(ENTITY) {
        all.push(BsnPatch::Name(name));
    }
    all.extend(patches);
    let node = world.document.create_entity_node(all);
    world.document.add_to_roots(node);
    world.document.link(ENTITY, node);
    node
}

fn live(world: &SceneWorld, field: &str) -> f64 {
    match world.live_bsn_field(ENTITY, TRANSFORM, field) {
        Some(BsnValue::Float(bits)) => f64::from_bits(bits),
        other => panic!("no number: {other:?}"),
    }
}

fn live_translation(world: &SceneWorld) -> (f64, f64, f64) {
    (live(world, "translation.x"), live(world, "translation.y"), live(world, "translation.z"))
}

fn authored(world: &SceneWorld, field: &str) -> Option<f64> {
    let node = world.document.ast_for(ENTITY).expect("linked");
    match world.document.get_bsn_field(node, TRANSFORM, field) {
        Some(BsnValue::Float(bits)) => Some(f64::from_bits(bits)),
        Some(other) => panic!("no number: {other:?}"),
        None => None,
    }
}

fn authors(world: &SceneWorld, type_path: &str) -> bool {
    let node = world.document.ast_for(ENTITY).expect("linked");
    world.document.component_type_paths(node).iter().any(|p| p == type_path)
}

fn edit(type_path: &str, field: &str, old: Option<BsnValue>, new: BsnValue) -> SetBsnField {
    SetBsnField {
        entity: ENTITY,
        type_path: type_path.to_string(),
        field_path: field.to_string(),
        old_value: old,
        new_value: new,
        was_derived: false,
    }
}

#[test]
fn set_bsn_field_round_trips_document_and_ecs_with_undo() {
    let mut world = field_world();
    spawn(&mut world, None, vec![transform(1.0, 0.0, 0.0)]);
    create_entity_in_ast(&mut world, vec![BsnPatch::Struct(transform(1.0, 0.0, 0.0))]);
    let mut command = edit(TRANSFORM, "translation.x", Some(float(1.0)), float(9.0));

    command.execute(&mut world);
    assert_eq!(authored(&world, "translation.x"), Some(9.0), "document holds the new value");
    let x = live(&world, "translation.x");
    assert!((x - 9.0).abs() < 1e-6, "the entity mirrors the new value, got {x}");

    command.undo(&mut world);
    let x = live(&world, "translation.x");
    assert!((x - 1.0).abs() < 1e-6, "undo restores the entity, got {x}");
    assert_eq!(authored(&world, "translation.x"), Some(1.0), "undo restores the document");
}

#[test]
fn undo_removes_field_authored_by_execute() {
    let mut world = field_world();
    spawn(&mut world, None, vec![transform(5.0, 0.0, 0.0)]);
    create_entity_in_ast(&mut world, Vec::new());
    let mut translation = edit(TRANSFORM, "translation.x", None, float(5.0));
    translation.execute(&mut world);

    let mut scale = edit(TRANSFORM, "scale.x", None, float(3.0));
    scale.execute(&mut world);
    assert_eq!(live(&world, "scale.x"), 3.0);

    scale.undo(&mut world);
    assert!(authored(&world, "scale.x").is_none(), "undo removes the authored field");
    assert_eq!(live(&world, "scale.x"), 1.0, "the live field resets to the type default");
    assert_eq!(live(&world, "translation.x"), 5.0);
}

#[test]
fn undo_removes_component_authored_by_execute() {
    let mut world = field_world();
    spawn(&mut world, None, Vec::new());
    let node = create_entity_in_ast(&mut world, Vec::new());
    let mut command = edit(TRANSFORM, "", None, BsnValue::Struct(transform(4.0, 0.0, 0.0)));
    command.execute(&mut world);
    assert!(!command.was_derived, "mint from nothing is not a derived promote");
    assert!(world.entity_has_reflected_component(ENTITY, TRANSFORM));

    command.undo(&mut world);
    assert!(
        !world.entity_has_reflected_component(ENTITY, TRANSFORM),
        "undo removes the component execute authored"
    );
    assert!(
        world.document.find_patch_by_type_path(node, TRANSFORM).is_none(),
        "document no longer carries the authored patch"
    );
}

#[test]
fn whole_component_author_of_derived_undo_keeps_ecs() {
    let mut world = field_world();
    spawn(&mut world, None, vec![transform(2.0, 5.0, 8.0)]);
    create_entity_in_ast(&mut world, Vec::new());
    let mut command = edit(TRANSFORM, "", None, BsnValue::Struct(transform(9.0, 5.0, 8.0)));
    command.execute(&mut world);
    assert!(command.was_derived, "pre-existing live component is a derived promote");
    assert_eq!(live(&world, "translation.x"), 9.0);

    command.undo(&mut world);
    assert!(!authors(&world, TRANSFORM), "undo drops the authored override");
    assert!(
        world.entity_has_reflected_component(ENTITY, TRANSFORM),
        "demote keeps the live component"
    );
    assert_eq!(
        live(&world, "translation.x"),
        9.0,
        "without an old_value baseline, live state stays at the post-edit value"
    );
}

#[test]
fn editing_derived_component_authors_override_and_undo_drops_it() {
    let mut world = field_world();
    spawn(&mut world, None, vec![transform(2.0, 5.0, 8.0)]);
    create_entity_in_ast(&mut world, Vec::new());
    assert!(!authors(&world, TRANSFORM), "precondition: Transform is not authored");

    let mut command = edit(TRANSFORM, "translation.x", None, float(7.0));
    command.execute(&mut world);
    assert!(command.was_derived, "execute records prior derived state");
    assert!(command.old_value.is_some(), "execute captures the live field for undo");
    assert!(authors(&world, TRANSFORM), "edit authors an override patch");
    assert_eq!(authored(&world, "translation.x"), Some(7.0));
    assert!(authored(&world, "translation.y").is_none(), "sibling fields stay unauthored");
    assert!(authored(&world, "translation.z").is_none(), "sibling fields stay unauthored");
    assert_eq!(live_translation(&world), (7.0, 5.0, 8.0));

    command.undo(&mut world);
    assert!(!authors(&world, TRANSFORM), "undo drops the override; component is derived again");
    assert_eq!(
        live_translation(&world),
        (2.0, 5.0, 8.0),
        "undo restores the pre-edit live field; siblings unchanged"
    );
}

#[test]
fn gesture_session_baseline_survives_live_preview_mutation() {
    let mut world = field_world();
    spawn(&mut world, None, vec![transform(2.0, 5.0, 8.0)]);
    create_entity_in_ast(&mut world, Vec::new());
    world.selection = vec![ENTITY];
    let mut sessions = FieldEditSessions::new();
    let mut history = CommandHistory::new();

    field_edit_preview(&mut world, &mut sessions, TRANSFORM, "translation.x", &vec![Some(float(7.0))]);
    assert_eq!(live(&world, "translation.x"), 7.0);

    field_edit_commit(
        &mut world,
        &mut sessions,
        &mut history,
        TRANSFORM,
        "translation.x",
        &vec![Some(float(7.0))],
        "test",
    );
    assert_eq!(live(&world, "translation.x"), 7.0);
    assert_eq!(history.undo_stack.len(), 1);

    history.undo(&mut world);
    assert_eq!(
        live_translation(&world),
        (2.0, 5.0, 8.0),
        "undo restores the gesture-start live value, not the previewed value"
    );
}

#[test]
fn sparse_missing_field_commit_undo_removes_field() {
    let mut world = field_world();
    spawn(&mut world, None, vec![transform(5.0, 0.0, 0.0)]);
    create_entity_in_ast(&mut world, Vec::new());
    world.selection = vec![ENTITY];
    let mut sessions = FieldEditSessions::new();
    let mut history = CommandHistory::new();
    let mut translation = edit(TRANSFORM, "translation.x", None, float(5.0));
    translation.execute(&mut world);

    field_edit_preview(&mut world, &mut sessions, TRANSFORM, "scale.x", &vec![Some(float(3.0))]);
    field_edit_commit(
        &mut world,
        &mut sessions,
        &mut history,
        TRANSFORM,
        "scale.x",
        &vec![Some(float(3.0))],
        "test",
    );
    assert_eq!(live(&world, "scale.x"), 3.0);

    history.undo(&mut world);
    assert!(authored(&world, "scale.x").is_none(), "undo removes the authored field");
    assert_eq!(live(&world, "scale.x"), 1.0);
}

fn name_patch_count(ast: &SceneBsnAst, node: Entity) -> usize {
    ast.nodes[&node].patches.iter().filter(|p| matches!(p, BsnPatch::Name(_))).count()
}

fn doc_and_ecs_name(world: &SceneWorld) -> (Option<String>, Option<String>) {
    let node = world.document.ast_for(ENTITY).expect("linked");
    (world.document.get_name(node), world.name(ENTITY))
}

fn both(name: &str) -> (Option<String>, Option<String>) {
    (Some(name.to_string()), Some(name.to_string()))
}

fn name_command(old: Option<&str>, new: &str) -> SetBsnField {
    edit(
        NAME_TYPE_PATH,
        "",
        old.map(|s| BsnValue::String(s.to_string())),
        BsnValue::String(new.to_string()),
    )
}

#[test]
fn naming_an_unnamed_entity_inserts_the_name_patch_and_undo_removes_it() {
    let mut world = field_world();
    spawn(&mut world, None, Vec::new());
    create_entity_in_ast(&mut world, Vec::new());

    let mut command = name_command(None, "Hero");
    command.execute(&mut world);
    assert_eq!(doc_and_ecs_name(&world), both("Hero"), "document and entity agree after execute");

    command.undo(&mut world);
    assert_eq!(doc_and_ecs_name(&world), (None, None), "undo removes the name from both");
}

#[test]
fn renaming_replaces_the_existing_name_patch_and_undo_restores_it() {
    let mut world = field_world();
    spawn(&mut world, Some("Old"), Vec::new());
    let node = create_entity_in_ast(&mut world, Vec::new());

    let mut command = name_command(Some("Old"), "New");
    command.execute(&mut world);
    assert_eq!(doc_and_ecs_name(&world), both("New"));
    assert_eq!(
        name_patch_count(&world.document, node),
        1,
        "a rename replaces the patch instead of stacking a second one"
    );

    command.undo(&mut world);
    assert_eq!(doc_and_ecs_name(&world), both("Old"), "undo restores the old name in both");
    assert_eq!(name_patch_count(&world.document, node), 1);
}

#[test]
fn renaming_to_an_empty_string_removes_the_name_and_undo_restores_it() {
    let mut world = field_world();
    spawn(&mut world, Some("Old"), Vec::new());
    create_entity_in_ast(&mut world, Vec::new());

    let mut command = name_command(Some("Old"), "");
    command.execute(&mut world);
    assert_eq!(doc_and_ecs_name(&world), (None, None), "an empty name removes both");

    command.undo(&mut world);
    assert_eq!(doc_and_ecs_name(&world), both("Old"));
}

#[test]
fn an_edit_of_an_entity_that_is_not_in_the_document_changes_nothing() {
    let mut world = field_world();
    spawn(&mut world, None, vec![transform(1.0, 2.0, 3.0)]);
    let mut command = edit(TRANSFORM, "translation.y", None, float(6.0));
    command.execute(&mut world);
    assert_eq!(live_translation(&world), (1.0, 2.0, 3.0));
    assert!(world.document.nodes.is_empty());
    assert!(!command.was_derived);
    assert_eq!(command.description(), "Set component field");
}

#[test]
fn a_project_field_lives_in_the_document_alone() {
    let mut world = field_world();
    world.project_types.push(ProjectSchema {
        type_path: HEALTH.to_string(),
        short_name: "Health".to_string(),
        module: "game".to_string(),
        fields: vec!["points".to_string()],
    });
    spawn(&mut world, None, Vec::new());
    let node = create_entity_in_ast(&mut world, Vec::new());
    let mut command = edit(HEALTH, "points", None, BsnValue::Int(3));
    command.execute(&mut world);
    assert!(matches!(
        world.document.get_bsn_field(node, HEALTH, "points"),
        Some(BsnValue::Int(3))
    ));
    assert!(!world.entity_has_reflected_component(ENTITY, HEALTH));
    command.undo(&mut world);
    assert!(world.document.get_bsn_field(node, HEALTH, "points").is_none());
}

#[test]
fn history_undoes_and_redoes_in_order() {
    let mut world = field_world();
    spawn(&mut world, None, vec![transform(1.0, 0.0, 0.0)]);
    create_entity_in_ast(&mut world, vec![BsnPatch::Struct(transform(1.0, 0.0, 0.0))]);
    let mut history = CommandHistory::new();
    let mut first = edit(TRANSFORM, "translation.x", Some(float(1.0)), float(2.0));
    first.execute(&mut world);
    history.push_executed(EditorCommand::SetField(first));
    let mut second = edit(TRANSFORM, "translation.x", Some(float(2.0)), float(3.0));
    second.execute(&mut world);
    history.push_executed(EditorCommand::SetField(second));

    history.undo(&mut world);
    assert_eq!(live(&world, "translation.x"), 2.0);
    history.undo(&mut world);
    assert_eq!(live(&world, "translation.x"), 1.0);
    history.undo(&mut world);
    assert_eq!(live(&world, "translation.x"), 1.0);
    history.redo(&mut world);
    history.redo(&mut world);
    assert_eq!(live(&world, "translation.x"), 3.0);
    assert_eq!((history.undo_stack.len(), history.redo_stack.len()), (2, 0));

    history.undo(&mut world);
    let mut third = edit(TRANSFORM, "translation.y", Some(float(0.0)), float(4.0));
    third.execute(&mut world);
    history.push_executed(EditorCommand::SetField(third));
    assert!(history.redo_stack.is_empty(), "a new command drops what could be redone");
}

#[test]
fn a_single_command_is_not_grouped() {
    let one = bundle(
        vec![EditorCommand::SetField(edit(TRANSFORM, "scale.x", None, float(2.0)))],
        "Scale",
    );
    assert!(matches!(one, EditorCommand::SetField(_)));
    let two = bundle(
        vec![
            EditorCommand::SetField(edit(TRANSFORM, "scale.x", None, float(2.0))),
            EditorCommand::SetField(edit(TRANSFORM, "translation.x", None, float(2.0))),
        ],
        "Scale",
    );
    assert!(matches!(two, EditorCommand::Group(g) if g.commands.len() == 2 && g.label == "Scale"));
}

#[test]
fn a_gesture_keeps_its_first_baseline() {
    let mut world = field_world();
    spawn(&mut world, None, vec![transform(2.0, 0.0, 0.0)]);
    create_entity_in_ast(&mut world, Vec::new());
    world.selection = vec![ENTITY];
    let mut sessions = FieldEditSessions::new();
    field_edit_begin(&world, &mut sessions, TRANSFORM, "translation.x");
    field_edit_preview(&mut world, &mut sessions, TRANSFORM, "translation.x", &vec![Some(float(6.0))]);
    field_edit_begin(&world, &mut sessions, TRANSFORM, "translation.x");
    let baseline = sessions.peek_live_at_begin(ENTITY, TRANSFORM, "translation.x");
    assert!(matches!(baseline, Some(BsnValue::Float(b)) if f64::from_bits(b) == 2.0));
    let resolved =
        resolve_field_edit_old_value(&world, &sessions, ENTITY, TRANSFORM, "translation.x");
    assert!(matches!(resolved, Some(BsnValue::Float(b)) if f64::from_bits(b) == 2.0));
    sessions.clear(TRANSFORM, "translation.x");
    assert!(sessions.peek_live_at_begin(ENTITY, TRANSFORM, "translation.x").is_none());
}

#[test]
fn a_field_edit_applies_to_what_the_entity_has() {
    let mut world = field_world();
    spawn(&mut world, None, vec![transform(2.0, 0.0, 0.0)]);
    create_entity_in_ast(&mut world, Vec::new());
    assert!(field_edit_applies(&world, ENTITY, TRANSFORM, "translation.x"));
    assert!(!field_edit_applies(&world, ENTITY, "game::Unknown", "points"));
    assert!(!field_edit_applies(&world, 99, TRANSFORM, "translation.x"));
}

#[test]
fn an_added_component_brings_what_it_requires_and_undo_takes_both_away() {
    let light = "bevy_light::PointLight";
    let visibility = "bevy_camera::visibility::Visibility";
    let mut world = field_world();
    for path in [light, visibility] {
        world.types.push(TypeEntry {
            type_path: path.to_string(),
            default: Some(BsnStructData::empty(path)),
        });
    }
    spawn(&mut world, None, Vec::new());
    create_entity_in_ast(&mut world, Vec::new());
    let mut command = AddComponent::new(ENTITY, light.to_string());
    command.execute(&mut world, &vec![BsnStructData::empty(visibility)]);
    assert!(world.entity_has_reflected_component(ENTITY, light));
    assert!(world.entity_has_reflected_component(ENTITY, visibility));
    assert!(authors(&world, light));
    assert_eq!(command.required_companions, vec![visibility.to_string()]);

    command.undo(&mut world);
    assert!(world.marks(ENTITY).inspector_dirty);
    assert!(!world.entity_has_reflected_component(ENTITY, light));
    assert!(!world.entity_has_reflected_component(ENTITY, visibility));
    assert!(!authors(&world, light));
    assert_eq!(command.description(), "Add component");
}

#[test]
fn a_project_component_is_added_to_the_document_once() {
    let mut world = field_world();
    spawn(&mut world, None, Vec::new());
    create_entity_in_ast(&mut world, Vec::new());
    let mut command = AddProjectComponent::new(ENTITY, HEALTH.to_string());
    command.execute(&mut world);
    assert!(command.added);
    assert!(authors(&world, HEALTH));
    let mut again = AddProjectComponent::new(ENTITY, HEALTH.to_string());
    again.execute(&mut world);
    assert!(!again.added);
    again.undo(&mut world);
    assert!(authors(&world, HEALTH), "what was there before stays");
    command.undo(&mut world);
    assert!(!authors(&world, HEALTH));
}

#[test]
fn a_removed_component_comes_back_as_it_was() {
    let mut world = field_world();
    spawn(&mut world, None, vec![transform(1.0, 2.0, 3.0)]);
    let node =
        create_entity_in_ast(&mut world, vec![BsnPatch::Struct(transform(1.0, 2.0, 3.0))]);
    let mut command = RemoveComponent {
        entity: ENTITY,
        type_path: TRANSFORM.to_string(),
        snapshot: transform(1.0, 2.0, 3.0),
        ast_snapshot: world.document.get_patch(node, TRANSFORM),
    };
    command.execute(&mut world);
    assert!(!world.entity_has_reflected_component(ENTITY, TRANSFORM));
    assert!(!authors(&world, TRANSFORM));
    command.undo(&mut world);
    assert_eq!(live_translation(&world), (1.0, 2.0, 3.0));
    assert_eq!(authored(&world, "translation.z"), Some(3.0));
}

#[test]
fn a_transform_is_set_and_set_back() {
    let mut world = field_world();
    spawn(&mut world, None, vec![transform(1.0, 2.0, 3.0)]);
    create_entity_in_ast(&mut world, Vec::new());
    let mut command = SetTransform {
        entity: ENTITY,
        old_transform: transform(1.0, 2.0, 3.0),
        new_transform: transform(4.0, 5.0, 6.0),
    };
    command.execute(&mut world);
    assert_eq!(live_translation(&world), (4.0, 5.0, 6.0));
    assert_eq!(authored(&world, "translation.y"), Some(5.0));
    command.undo(&mut world);
    assert_eq!(live_translation(&world), (1.0, 2.0, 3.0));
    assert_eq!(authored(&world, "translation.y"), Some(2.0));
    command.sync_after_external_execute(&mut world);
    assert_eq!(live_translation(&world), (1.0, 2.0, 3.0), "the live transform is left alone");
    assert_eq!(authored(&world, "translation.y"), Some(5.0));
}

#[test]
fn an_edit_skips_targets_without_a_value() {
    let mut world = field_world();
    spawn(&mut world, None, vec![transform(1.0, 2.0, 3.0)]);
    create_entity_in_ast(&mut world, Vec::new());
    let mut record = EntityRecord::bare(Marks::none());
    record.components = vec![transform(5.0, 5.0, 5.0)];
    world.insert(ENTITY + 1, record);
    world.select_all(vec![ENTITY, ENTITY + 1]);
    let mut sessions = FieldEditSessions::new();
    let mut history = CommandHistory::new();
    field_edit_commit(
        &mut world,
        &mut sessions,
        &mut history,
        TRANSFORM,
        "translation.x",
        &vec![Some(float(7.0)), None],
        "test",
    );
    assert_eq!(live(&world, "translation.x"), 7.0);
    match world.live_bsn_field(ENTITY + 1, TRANSFORM, "translation.x") {
        Some(BsnValue::Float(bits)) => assert_eq!(f64::from_bits(bits), 5.0),
        other => panic!("no number: {other:?}"),
    }
    assert!(matches!(history.undo_stack.last(), Some(EditorCommand::SetField(_))));
}

#[test]
fn companions_of_unknown_types_are_not_seen() {
    let light = "bevy_light::PointLight";
    let mut world = field_world();
    world.types.push(TypeEntry {
        type_path: light.to_string(),
        default: Some(BsnStructData::empty("elsewhere::Default")),
    });
    spawn(&mut world, None, Vec::new());
    create_entity_in_ast(&mut world, Vec::new());
    let mut command = AddComponent::new(ENTITY, light.to_string());
    command.execute(&mut world, &vec![BsnStructData::empty("unknown::Companion")]);
    assert!(world.entity_has_reflected_component(ENTITY, light), "a default is of its type");
    assert!(command.required_companions.is_empty());
    command.undo(&mut world);
    assert!(!world.entity_has_reflected_component(ENTITY, light));
    assert!(!authors(&world, light));
}

#[test]
fn an_undone_move_keeps_the_siblings() {
    let mut world = field_world();
    for e in [1, 2, 3, 4] {
        let mut record = EntityRecord::bare(Marks::none());
        if e < 4 {
            record.parent = Some(4);
        } else {
            record.children = vec![1, 2, 3];
        }
        world.insert(e, record);
    }
    world.insert(5, EntityRecord::bare(Marks::none()));
    let to = HierarchyLocation { parent: Some(5), index: 0, slot: None };
    let mut command = MoveEntity::new(&world, 2, to);
    command.execute(&mut world, false, false);
    assert_eq!((world.children(4), world.children(5)), (vec![1, 3], vec![2]));
    command.undo(&mut world, false, false);
    assert_eq!((world.children(4), world.children(5)), (vec![1, 2, 3], vec![]));
    let back = HierarchyLocation::from_world(&world, 2);
    assert_eq!((back.parent, back.index), (Some(4), 1));
}
