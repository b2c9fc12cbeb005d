//! The outliner: what it lists, how its rows follow the scene, and what its menus do.

use bevy::ecs::entity::Entity as LiveEntity;
use jackdaw::brush::Brushes;
use jackdaw::context_menu::{
    add_child_entity, add_to_extension, hierarchy_open_context_menu, on_context_menu_action,
    parse_action, ContextMenuState, MenuAction, MenuEffect, NewChild, RegisteredMenuEntry,
};
use jackdaw::entity_ops::{visibility_of, Visibility};
use jackdaw::hierarchy::{
    ancestors_of, classify_entity, current_outliner_roots, find_instance_root, is_inherited_entity,
    live_children, live_tree_roots, scene_children, scene_roots, EntityCategory,
};
use jackdaw::history::{CommandHistory, EditorCommand, EngineCommand};
use jackdaw::location::TransformPlan;
use jackdaw::operators::{ExtensionContext, OperatorParameters, OperatorResult, PropertyValue};
use jackdaw::outliner::{Outliner, TreeRow};
use jackdaw::outliner_events::{
    despawn_tree_rows, drive_reveal_target, eye_opacity, on_entity_deselected, on_entity_selected,
    on_name_changed, on_name_mutated, on_tree_node_expanded, on_tree_row_clicked, on_visibility_toggled,
    reconcile_outliner, refresh_row_icon, reveal_path, sync_pie_live_outliner,
    watch_selection_for_reveal, RevealTarget,
};
use jackdaw::patch::BsnPatch;
use jackdaw::prefab_save::{
    on_prefab_dialog_action, populate_prefab_dialog, prefab_save_as_prefab, prefab_save_as_variant,
    prefab_save_scene_as_prefab, PendingPrefabDefaultName, PendingPrefabSave, PrefabSaveMode,
};
use jackdaw::rename::{
    auto_focus_inline_rename, cancel_rename_begin, find_rename_owner, find_rename_targets,
    handle_inline_rename_commit, no_rename_in_progress, on_tree_row_renamed, rename_begin,
    resolve_rename_target, InlineRenameInput, RenamePart,
};
use jackdaw::row_drops::{
    finish_drop, on_tree_row_dropped, on_tree_row_dropped_on_root, DropOutcome,
};
use jackdaw::row_filter::apply_hierarchy_filter;
use jackdaw::templates::{EntityTemplate, Supplies};
use jackdaw::value::Entity;
use jackdaw::world::{EntityRecord, Marks, SceneWorld};

const CONTAINER: Entity = 500;

fn spawn(world: &mut SceneWorld, e: Entity, parent: Option<Entity>, marks: Marks) {
    let mut record = EntityRecord::bare(marks);
    record.parent = parent;
    world.insert(e, record);
    if let Some(p) = parent {
        world.entities.get_mut(&p).expect("parent is alive").children.push(e);
    }
}

fn plain(world: &mut SceneWorld, e: Entity, parent: Option<Entity>) {
    spawn(world, e, parent, Marks::none());
}

/// Gives an entity a document node, under that of its parent if it is given.
fn create_entity_in_ast(world: &mut SceneWorld, e: Entity, parent: Option<Entity>) -> Entity {
    let node = world.document.create_entity_node(Vec::new());
    match parent.and_then(|p| world.document.ast_for(p)) {
        Some(p) => {
            world.document.nodes.get_mut(&node).expect("created").parent = Some(p);
            world.document.nodes.get_mut(&p).expect("linked").children.push(node);
        }
        None => world.document.add_to_roots(node),
    }
    world.document.link(e, node);
    node
}

fn document_entity(world: &mut SceneWorld, e: Entity) {
    plain(world, e, None);
    create_entity_in_ast(world, e, None);
}

fn row_of(source: Entity, expanded: bool) -> TreeRow {
    TreeRow {
        container: CONTAINER,
        source,
        row: 1000 + source,
        parent: CONTAINER,
        slot: 2000 + source,
        label: String::new(),
        category: EntityCategory::Entity,
        inherited: false,
        has_children: true,
        expanded,
        populated: false,
        selected: false,
        glyph: Some("x".to_string()),
        eye_closed: false,
    }
}

fn outliner_with(rows: Vec<TreeRow>) -> Outliner {
    let mut outliner = Outliner::new();
    outliner.rows = rows;
    outliner.next_id = 10_000;
    outliner
}

#[test]
fn scene_root_tag_classifies_as_scene() {
    let mut world = SceneWorld::new();
    spawn(&mut world, 1, None, Marks { scene_root: true, ..Marks::none() });
    plain(&mut world, 2, None);
    assert_eq!(classify_entity(&world, false, 1), EntityCategory::Scene);
    assert_ne!(classify_entity(&world, false, 2), EntityCategory::Scene);
}

#[test]
fn gltf_descendants_classify_as_asset_parts() {
    let mut world = SceneWorld::new();
    spawn(&mut world, 1, None, Marks { gltf_source: true, ..Marks::none() });
    plain(&mut world, 2, Some(1));
    spawn(&mut world, 3, Some(2), Marks { mesh: true, ..Marks::none() });

    assert_eq!(classify_entity(&world, false, 1), EntityCategory::Scene);
    assert_eq!(classify_entity(&world, false, 2), EntityCategory::AssetPart);
    assert_eq!(classify_entity(&world, false, 3), EntityCategory::AssetPart);

    spawn(&mut world, 4, None, Marks { mesh: true, ..Marks::none() });
    assert_eq!(classify_entity(&world, false, 4), EntityCategory::Mesh);
}

#[test]
fn authored_children_of_a_model_keep_their_own_category() {
    let mut world = SceneWorld::new();
    spawn(&mut world, 1, None, Marks { gltf_source: true, ..Marks::none() });

    plain(&mut world, 2, Some(1));
    assert_eq!(classify_entity(&world, false, 2), EntityCategory::AssetPart);

    spawn(&mut world, 3, Some(1), Marks { light: true, ..Marks::none() });
    create_entity_in_ast(&mut world, 3, None);
    assert_eq!(classify_entity(&world, false, 3), EntityCategory::Light);
}

#[test]
fn dead_child_refs_are_not_scene_children() {
    let mut world = SceneWorld::new();
    document_entity(&mut world, 1);
    plain(&mut world, 2, Some(1));
    create_entity_in_ast(&mut world, 2, Some(1));
    assert!(scene_children(&world, 1).contains(&2));
    world.entities.remove(&2);
    assert!(!scene_children(&world, 1).contains(&2));
}

#[test]
fn non_document_children_are_not_scene_children() {
    let mut world = SceneWorld::new();
    document_entity(&mut world, 1);
    plain(&mut world, 2, Some(1));
    world.set_name(2, Some("blaster-d".to_string()));
    assert!(!scene_children(&world, 1).contains(&2));
}

#[test]
fn gltf_source_lists_authored_children_and_loader_parts() {
    let mut world = SceneWorld::new();
    spawn(&mut world, 1, None, Marks { gltf_source: true, ..Marks::none() });
    create_entity_in_ast(&mut world, 1, None);
    plain(&mut world, 2, Some(1));
    plain(&mut world, 3, Some(1));
    create_entity_in_ast(&mut world, 3, Some(1));
    let kids = scene_children(&world, 1);
    assert!(kids.contains(&3));
    assert!(kids.contains(&2));
}

#[test]
fn brush_icon_refreshes_when_brush_added_after_row() {
    let cuboid = "\u{e528}".to_string();
    let mut outliner = outliner_with(vec![row_of(1, false)]);
    refresh_row_icon(&mut outliner, 1, Some(cuboid.clone()));
    assert_eq!(outliner.rows[0].glyph, Some(cuboid.clone()));
    refresh_row_icon(&mut outliner, 1, None);
    assert_eq!(outliner.rows[0].glyph, Some(cuboid), "no icon leaves the glyph alone");
}

#[test]
fn reveal_path_walks_to_the_nearest_rowed_ancestor() {
    let mut world = SceneWorld::new();
    plain(&mut world, 1, None);
    plain(&mut world, 2, Some(1));
    plain(&mut world, 3, Some(2));
    assert_eq!(reveal_path(&world, 3), vec![1, 2]);
    assert!(reveal_path(&world, 1).is_empty());
    world.entities.get_mut(&1).expect("is there").parent = Some(2);
    assert_eq!(reveal_path(&world, 3), vec![1, 2], "a cycle is walked once");
    world.entities.get_mut(&1).expect("is there").parent = Some(3);
    assert_eq!(reveal_path(&world, 3), vec![1, 2], "and ends at the entity itself");
}

#[test]
fn reveal_driver_expands_nearest_rowed_ancestor_and_counts_down() {
    let mut world = SceneWorld::new();
    plain(&mut world, 1, None);
    plain(&mut world, 2, Some(1));
    plain(&mut world, 3, Some(2));
    let mut outliner = outliner_with(vec![row_of(1, false)]);
    let mut aim = RevealTarget { entity: Some(3), frames_left: 16 };

    drive_reveal_target(&world, &mut outliner, &mut aim);

    assert!(outliner.rows[0].expanded, "root's row should be expanded (nearest rowed ancestor)");
    assert_eq!(aim.frames_left, 15, "countdown decrements each driven frame");
    assert_eq!(aim.entity, Some(3), "target stays set until its own row exists");
}

#[test]
fn reveal_driver_opens_the_row_next_to_the_target_first() {
    let mut world = SceneWorld::new();
    plain(&mut world, 1, None);
    plain(&mut world, 2, Some(1));
    plain(&mut world, 3, Some(2));
    let mut outliner = outliner_with(vec![row_of(1, false), row_of(2, false)]);
    let mut aim = RevealTarget { entity: Some(3), frames_left: 16 };
    drive_reveal_target(&world, &mut outliner, &mut aim);
    assert!(outliner.rows[1].expanded, "the nearest ancestor with a row");
    assert!(!outliner.rows[0].expanded);
    assert_eq!((aim.entity, aim.frames_left), (Some(3), 15));
}

#[test]
fn reveal_driver_clears_when_target_has_a_row() {
    let mut world = SceneWorld::new();
    plain(&mut world, 3, None);
    let mut outliner = outliner_with(vec![row_of(3, false)]);
    let mut aim = RevealTarget { entity: Some(3), frames_left: 16 };
    drive_reveal_target(&world, &mut outliner, &mut aim);
    assert!(aim.entity.is_none(), "target clears once its own row exists");
}

#[test]
fn reveal_driver_clears_when_countdown_expires() {
    let mut world = SceneWorld::new();
    plain(&mut world, 3, None);
    let mut outliner = outliner_with(Vec::new());
    let mut aim = RevealTarget { entity: Some(3), frames_left: 1 };
    drive_reveal_target(&world, &mut outliner, &mut aim);
    assert!(aim.entity.is_none(), "target clears when the countdown hits zero with no progress");
}

fn params_with_entity(key: &str, entity: Entity) -> OperatorParameters {
    let mut params = OperatorParameters::new();
    params.entries.push((key.to_string(), PropertyValue::Entity(entity)));
    params
}

#[test]
fn resolve_rename_target_prefers_entity_param() {
    let params = params_with_entity("entity", 7);
    assert_eq!(resolve_rename_target(&params, &vec![42]), Some(7));
}

#[test]
fn resolve_rename_target_falls_back_to_selection_primary() {
    let params = OperatorParameters::new();
    assert_eq!(resolve_rename_target(&params, &vec![99, 11]), Some(11));
}

#[test]
fn resolve_rename_target_returns_none_without_selection_or_param() {
    let params = OperatorParameters::new();
    assert_eq!(resolve_rename_target(&params, &Vec::new()), None);
}

fn bits(index: u32) -> Entity {
    LiveEntity::from_raw_u32(index).expect("valid index").to_bits()
}

#[test]
fn live_set_roots_are_live_entities_without_live_parents() {
    let live = Marks { live_preview: true, ..Marks::none() };
    let (authored_parent, live_root, live_child, not_live) = (bits(1), bits(2), bits(3), bits(4));
    let mut world = SceneWorld::new();
    plain(&mut world, authored_parent, None);
    spawn(&mut world, live_root, Some(authored_parent), live);
    spawn(&mut world, live_child, Some(live_root), live);
    plain(&mut world, not_live, None);
    let roots = live_tree_roots(&world, &vec![live_child, live_root]);
    assert_eq!(roots, vec![live_root], "live child of a non-live parent is the root");
    assert_eq!(live_children(&world, live_root), vec![live_child]);
}

#[test]
fn live_roots_come_in_the_order_of_their_numbers() {
    let live = Marks { live_preview: true, ..Marks::none() };
    let mut world = SceneWorld::new();
    for index in [9, 2, 5] {
        spawn(&mut world, bits(index), None, live);
    }
    let entities = vec![bits(9), bits(2), bits(5)];
    assert_eq!(live_tree_roots(&world, &entities), vec![bits(2), bits(5), bits(9)]);
    assert_eq!(
        current_outliner_roots(&world, true, &entities),
        vec![bits(2), bits(5), bits(9)]
    );
    assert!(current_outliner_roots(&world, false, &entities).is_empty());
}

#[test]
fn prefab_content_belongs_to_its_instance() {
    let mut world = SceneWorld::new();
    spawn(&mut world, 1, None, Marks { prefab_instance: true, ..Marks::none() });
    spawn(&mut world, 2, Some(1), Marks { prefab_entity: true, ..Marks::none() });
    plain(&mut world, 3, Some(2));
    assert_eq!(ancestors_of(&world, 3), vec![2, 1]);
    assert_eq!(find_instance_root(&world, 3), Some(1));
    assert!(is_inherited_entity(&world, 2));
    assert!(!is_inherited_entity(&world, 1));
    assert_eq!(classify_entity(&world, false, 1), EntityCategory::Prefab);
}

/// A scene with a parent, its child, and a second root, each in the document.
fn small_scene() -> SceneWorld {
    let mut world = SceneWorld::new();
    for (e, name) in [(1, "Parent"), (2, "Child"), (3, "Lamp")] {
        plain(&mut world, e, if e == 2 { Some(1) } else { None });
        world.set_name(e, Some(name.to_string()));
        let node = create_entity_in_ast(&mut world, e, if e == 2 { Some(1) } else { None });
        let patches = &mut world.document.nodes.get_mut(&node).expect("created").patches;
        patches.push(BsnPatch::Name(name.to_string()));
    }
    world
}

fn reconcile(outliner: &mut Outliner, world: &SceneWorld) {
    let icons = vec![(3, "\u{e100}".to_string())];
    reconcile_outliner(outliner, world, false, &icons, &Vec::new(), &vec![CONTAINER]);
}

fn sources(outliner: &Outliner) -> Vec<Entity> {
    let mut all: Vec<Entity> = outliner.rows.iter().map(|r| r.source).collect();
    all.sort();
    all
}

#[test]
fn rows_follow_the_scene() {
    let mut world = small_scene();
    assert_eq!(scene_roots(&world), vec![1, 3]);
    let mut outliner = Outliner::new();
    reconcile(&mut outliner, &world);
    assert_eq!(sources(&outliner), vec![1, 3]);
    let before = format!("{outliner:?}");
    reconcile(&mut outliner, &world);
    assert_eq!(format!("{outliner:?}"), before, "a second pass changes nothing");

    let at = outliner.find(CONTAINER, 1).expect("has a row");
    assert!(outliner.rows[at].has_children);
    assert_eq!(outliner.rows[at].label, "Parent");
    assert_eq!(outliner.rows[at].glyph, None);
    let lamp = outliner.find(CONTAINER, 3).expect("has a row");
    assert_eq!(outliner.rows[lamp].glyph.as_deref(), Some("\u{e100}"), "the registered icon");
    outliner.rows[at].expanded = true;
    on_tree_node_expanded(&mut outliner, at, false);
    assert!(outliner.rows[at].populated);
    reconcile(&mut outliner, &world);
    assert_eq!(sources(&outliner), vec![1, 2, 3]);

    world.entities.remove(&3);
    reconcile(&mut outliner, &world);
    assert_eq!(sources(&outliner), vec![1, 2]);

    despawn_tree_rows(&mut outliner);
    assert!(outliner.rows.is_empty());
    sync_pie_live_outliner(
        &mut outliner,
        true,
        &world,
        false,
        &Vec::new(),
        &Vec::new(),
        &vec![CONTAINER],
    );
    assert_eq!(sources(&outliner), vec![1]);
}

#[test]
fn rows_show_selection_and_names() {
    let mut outliner = outliner_with(vec![row_of(1, false), row_of(2, false)]);
    on_entity_selected(&mut outliner, 1);
    assert!(outliner.rows[0].selected);
    assert!(!outliner.rows[1].selected);
    on_entity_deselected(&mut outliner, 1);
    assert!(!outliner.rows[0].selected);
    on_name_changed(&mut outliner, 2, Some("Lamp".to_string()), Some("\u{e10c}".to_string()));
    assert_eq!(outliner.rows[1].label, "Lamp");
    assert_eq!(outliner.rows[1].glyph.as_deref(), Some("\u{e10c}"), "the icon is looked up again");
    on_name_mutated(&mut outliner, 2, Some("Candle".to_string()));
    assert_eq!(outliner.rows[1].label, "Candle");
    assert_eq!(outliner.rows[1].glyph.as_deref(), Some("\u{e10c}"));
    on_name_changed(&mut outliner, 2, None, None);
    assert_eq!(outliner.rows[1].label, "Candle", "without a name nothing changes");
    assert_eq!(outliner.rows[0].label, "");
}

#[test]
fn a_click_selects_and_ctrl_adds() {
    let mut world = small_scene();
    let mut focused: Option<Entity> = None;
    on_tree_row_clicked(&mut world, &mut focused, 1, Some(1001), false, false);
    assert_eq!(world.selection, vec![1]);
    assert_eq!(focused, Some(1001));
    on_tree_row_clicked(&mut world, &mut focused, 2, None, true, false);
    assert_eq!(world.selection, vec![1, 2]);
    assert_eq!(focused, Some(1001));
    on_tree_row_clicked(&mut world, &mut focused, 1, None, true, false);
    assert_eq!(world.selection, vec![2]);
    on_tree_row_clicked(&mut world, &mut focused, 2, None, false, false);
    assert!(world.selection.is_empty());
    on_tree_row_clicked(&mut world, &mut focused, 3, Some(1003), false, true);
    assert!(world.selection.is_empty(), "a remote row selects nothing");
    assert_eq!(focused, Some(1001));
}

#[test]
fn a_live_selection_without_a_row_is_revealed() {
    let mut world = small_scene();
    world.select_single(2);
    let outliner = outliner_with(vec![row_of(1, false)]);
    let mut aim = RevealTarget { entity: None, frames_left: 0 };
    watch_selection_for_reveal(&mut aim, &world, &outliner, true, false);
    assert_eq!(aim.entity, None);
    watch_selection_for_reveal(&mut aim, &world, &outliner, true, true);
    assert_eq!((aim.entity, aim.frames_left), (Some(2), 16));
    world.select_single(1);
    watch_selection_for_reveal(&mut aim, &world, &outliner, true, true);
    assert_eq!(aim.entity, Some(2), "a row that is there needs no reveal");
}

#[test]
fn an_eye_hides_and_shows() {
    let mut world = small_scene();
    let mut outliner = outliner_with(vec![row_of(1, false), row_of(3, false)]);
    on_visibility_toggled(&mut world, &mut outliner, 1);
    assert!(visibility_of(&world, 1) == Visibility::Hidden);
    assert!(outliner.rows[0].eye_closed, "the eye of a hidden entity is closed");
    assert!(!outliner.rows[1].eye_closed);
    assert_eq!(eye_opacity(outliner.rows[0].eye_closed), 40, "a hidden entity's eye is dimmed");
    on_visibility_toggled(&mut world, &mut outliner, 1);
    assert!(visibility_of(&world, 1) == Visibility::Inherited);
    assert!(!outliner.rows[0].eye_closed, "it opens again");
    assert_eq!(eye_opacity(outliner.rows[0].eye_closed), 70);
    let node = world.document.ast_for(1).expect("linked");
    assert!(world.document.component_type_paths(node).is_empty(), "the document is left alone");
}

#[test]
fn the_filter_keeps_matches_and_what_is_above_them() {
    let world = small_scene();
    let mut child = row_of(2, false);
    child.parent = 2001;
    let outliner = outliner_with(vec![row_of(1, true), child, row_of(3, false)]);
    assert_eq!(apply_hierarchy_filter(&world, &outliner, "  "), vec![true, true, true]);
    assert_eq!(apply_hierarchy_filter(&world, &outliner, " CHI "), vec![true, true, false]);
    assert_eq!(apply_hierarchy_filter(&world, &outliner, "lamp"), vec![false, false, true]);
    assert_eq!(apply_hierarchy_filter(&world, &outliner, "zzz"), vec![false, false, false]);
}

#[test]
fn a_row_is_not_dropped_below_itself() {
    let mut world = small_scene();
    let mut history = CommandHistory::new();
    for target in [1, 2] {
        let outcome = on_tree_row_dropped(&mut world, &mut history, 1, target, true, true);
        assert_eq!(outcome, DropOutcome::Refused);
    }
    assert!(history.undo_stack.is_empty());
    let outcome = on_tree_row_dropped(&mut world, &mut history, 3, 1, true, true);
    assert_eq!(outcome, DropOutcome::Moved(TransformPlan::RelativeToParent));
    assert_eq!(world.children(1), vec![2, 3]);
    let Some(EditorCommand::Engine(EngineCommand::Reparent(mut command))) =
        history.undo(&mut world)
    else {
        panic!("the move was recorded");
    };
    command.undo(&mut world, true, false);
    assert_eq!(world.parent(3), None);
    history.finish_undo(EditorCommand::Engine(EngineCommand::Reparent(command)));
    assert_eq!(history.redo_stack.len(), 1);
}

#[test]
fn prefab_content_is_unpacked_when_it_leaves_its_instance() {
    let mut world = SceneWorld::new();
    spawn(&mut world, 1, None, Marks { prefab_instance: true, ..Marks::none() });
    create_entity_in_ast(&mut world, 1, None);
    spawn(&mut world, 2, Some(1), Marks { prefab_entity: true, ..Marks::none() });
    create_entity_in_ast(&mut world, 2, Some(1));
    document_entity(&mut world, 3);
    let mut history = CommandHistory::new();
    let outcome = on_tree_row_dropped(&mut world, &mut history, 2, 3, true, false);
    assert_eq!(outcome, DropOutcome::Unpack);
    assert_eq!(world.parent(2), Some(1), "it moves when it is unpacked");
    assert_eq!(finish_drop(&mut world, &mut history, 2, 3, true, false), TransformPlan::Keep);
    assert_eq!(world.parent(2), Some(3));
    assert_eq!(history.undo_stack.len(), 1);
    let outcome = on_tree_row_dropped(&mut world, &mut history, 2, 1, true, false);
    assert_eq!(outcome, DropOutcome::Moved(TransformPlan::Keep));
}

#[test]
fn a_row_dropped_on_the_root_loses_its_parent() {
    let mut world = small_scene();
    let mut outliner = outliner_with(vec![row_of(1, true), row_of(2, false)]);
    let mut history = CommandHistory::new();
    let plan = on_tree_row_dropped_on_root(&mut world, &mut history, &mut outliner, 2, true);
    assert_eq!(plan, Some(TransformPlan::World));
    match history.undo_stack.last() {
        Some(EditorCommand::Engine(EngineCommand::Reparent(c))) => {
            assert_eq!((c.old_parent, c.new_parent), (Some(1), None));
        }
        other => panic!("no move: {other:?}"),
    }
    assert_eq!(world.parent(2), None);
    assert_eq!(outliner.rows[1].parent, CONTAINER);
    let again = on_tree_row_dropped_on_root(&mut world, &mut history, &mut outliner, 2, true);
    assert!(again.is_none());
    assert_eq!(history.undo_stack.len(), 1);
}

#[test]
fn a_rename_runs_from_field_to_document() {
    let mut world = small_scene();
    world.select_single(3);
    let outliner = outliner_with(vec![row_of(1, false), row_of(3, false)]);
    let mut inputs: Vec<InlineRenameInput> = Vec::new();
    let params = OperatorParameters::new();
    assert_eq!(find_rename_targets(&outliner, 3), Some(1003));
    assert_eq!(find_rename_targets(&outliner, 2), None);
    assert!(no_rename_in_progress(&inputs));
    assert_eq!(
        rename_begin(&params, &world, &outliner, &mut inputs, false),
        OperatorResult::Running
    );
    assert_eq!(inputs.len(), 1);
    assert_eq!((inputs[0].row, inputs[0].source, inputs[0].text.as_str()), (1003, 3, "Lamp"));
    assert!(!no_rename_in_progress(&inputs));

    let commit = handle_inline_rename_commit(&mut inputs, Some(0), "Torch").expect("committed");
    assert!(inputs.is_empty());
    assert_eq!((commit.source, commit.new_name.as_str()), (3, "Torch"));
    let mut history = CommandHistory::new();
    on_tree_row_renamed(&mut world, &mut history, commit.source, &commit.new_name);
    assert_eq!(world.name(3).as_deref(), Some("Torch"));
    let node = world.document.ast_for(3).expect("linked");
    assert_eq!(world.document.get_name(node).as_deref(), Some("Torch"));
    history.undo(&mut world);
    assert_eq!(world.name(3).as_deref(), Some("Lamp"));
}

#[test]
fn a_cancelled_rename_puts_the_label_back() {
    let mut world = small_scene();
    world.select_single(3);
    let outliner = outliner_with(vec![row_of(3, false)]);
    let mut inputs: Vec<InlineRenameInput> = Vec::new();
    rename_begin(&OperatorParameters::new(), &world, &outliner, &mut inputs, false);
    let labels = cancel_rename_begin(&world, &mut inputs);
    assert!(inputs.is_empty());
    assert_eq!((labels[0].row, labels[0].text.as_str()), (1003, "Lamp"));
    world.clear_selection();
    assert_eq!(
        rename_begin(&OperatorParameters::new(), &world, &outliner, &mut inputs, false),
        OperatorResult::Cancelled
    );
}

#[test]
fn the_field_of_a_rename_is_found_near_by() {
    assert_eq!(find_rename_owner(&vec![70, 80], &vec![1, 80]), Some(1));
    assert_eq!(find_rename_owner(&vec![70], &vec![1, 2, 3, 4, 70]), None);
    let parts = vec![
        RenamePart { settings: false, children: vec![(5, false), (6, true)] },
        RenamePart { settings: true, children: vec![(7, true)] },
    ];
    assert!(auto_focus_inline_rename(&parts).is_some());
    assert_eq!(auto_focus_inline_rename(&Vec::new()), None);
}

fn entry(in_add_menu: bool, id: &str, label: &str) -> RegisteredMenuEntry {
    RegisteredMenuEntry {
        in_add_menu,
        operator_id: id.to_string(),
        label: label.to_string(),
    }
}

#[test]
fn the_menu_lists_instance_and_extension_entries() {
    let mut world = small_scene();
    world.set_marks(3, Marks { prefab_instance: true, ..Marks::none() });
    let mut state = ContextMenuState { open: true, target_entity: None };
    let entries = vec![
        entry(true, "water.add", "Water"),
        entry(false, "other.op", "Other"),
        entry(true, "grass.add", "Grass"),
    ];
    let closed = hierarchy_open_context_menu(&mut world, &mut state, false, Some(1), &entries);
    assert_eq!(closed.result, OperatorResult::Cancelled);
    assert!(state.open);
    let nowhere = hierarchy_open_context_menu(&mut world, &mut state, true, None, &entries);
    assert_eq!(nowhere.result, OperatorResult::Cancelled);
    assert!(!state.open);
    let menu = hierarchy_open_context_menu(&mut world, &mut state, true, Some(1), &entries);
    assert_eq!(menu.result, OperatorResult::Finished);
    assert_eq!(menu.items.len(), 12);
    assert_eq!(menu.items[0].action, "hierarchy.focus");
    assert_eq!(menu.items[10].action, "op:grass.add");
    assert_eq!(menu.items[11].label, "Add Water");
    assert_eq!(world.selection, vec![1]);
    let menu = hierarchy_open_context_menu(&mut world, &mut state, true, Some(3), &entries);
    assert_eq!(menu.items.len(), 16);
    assert_eq!(menu.items[0].action, "hierarchy.prefab.revert_all");
}

fn new_child(entity: Entity) -> NewChild {
    NewChild {
        entity,
        supplies: Supplies { shape: None, values: Vec::new() },
        last_material: None,
        entity_placed: true,
        parent_placed: true,
    }
}

/// What the menu works on.
struct Menu {
    world: SceneWorld,
    brushes: Brushes,
    history: CommandHistory,
    pending: PendingPrefabSave,
    name: PendingPrefabDefaultName,
}

impl Menu {
    fn on(world: SceneWorld) -> Menu {
        Menu {
            world,
            brushes: Brushes::new(),
            history: CommandHistory::new(),
            pending: PendingPrefabSave::new(),
            name: PendingPrefabDefaultName { name: String::new() },
        }
    }

    fn act(&mut self, action: &str, target: Option<Entity>, tab: Option<&str>) -> MenuEffect {
        on_context_menu_action(
            &mut self.world,
            &mut self.brushes,
            &mut self.history,
            &mut self.pending,
            &mut self.name,
            action,
            target,
            tab.map(str::to_string),
            new_child(70),
        )
    }
}

fn act(action: &str, target: Option<Entity>) -> MenuEffect {
    Menu::on(small_scene()).act(action, target, None)
}

#[test]
fn the_menu_deletes_duplicates_and_adds() {
    let mut menu = Menu::on(small_scene());
    menu.world.select_all(vec![2]);
    let node = menu.world.document.ast_for(2).expect("authored");
    match menu.act("hierarchy.duplicate", None, None) {
        MenuEffect::Duplicate { plans } => {
            assert_eq!(plans.iter().map(|p| p.node).collect::<Vec<_>>(), vec![node]);
        }
        other => panic!("no duplicate: {other:?}"),
    }
    assert!(matches!(menu.act("hierarchy.delete", None, None), MenuEffect::Deleted));
    assert!(!menu.world.is_alive(2));
    assert_eq!(menu.history.undo_stack.len(), 1);
    assert!(matches!(
        menu.act("hierarchy.add_light", Some(1), None),
        MenuEffect::ChildAdded { plan: TransformPlan::RelativeToParent }
    ));
    assert_eq!(menu.world.parent(70), Some(1));
    assert_eq!(menu.world.name(70).as_deref(), Some("Point Light"));
    assert_eq!(menu.history.undo_stack.len(), 2);
    assert!(matches!(menu.act("hierarchy.add_light", None, None), MenuEffect::Nothing));
    assert_eq!(menu.history.undo_stack.len(), 2);
}

#[test]
fn menu_entries_have_their_effects() {
    assert!(matches!(act("hierarchy.focus", Some(1)), MenuEffect::Focus(1)));
    assert!(matches!(act("hierarchy.focus", None), MenuEffect::Nothing));
    assert!(matches!(act("hierarchy.rename", Some(2)), MenuEffect::Rename(2)));
    assert!(matches!(
        act("hierarchy.duplicate", None),
        MenuEffect::Duplicate { plans } if plans.is_empty()
    ));
    assert!(matches!(act("hierarchy.delete", None), MenuEffect::Deleted));
    assert!(matches!(
        act("hierarchy.prefab.revert_all", Some(1)),
        MenuEffect::PrefabOperator { id: "prefab.revert_all", instance: 1 }
    ));
    assert!(matches!(act("hierarchy.prefab.revert_all", Some(9)), MenuEffect::Nothing));
    assert!(matches!(
        act("hierarchy.prefab.apply_all_to_source", Some(1)),
        MenuEffect::ApplyAllToSource { .. }
    ));
    assert!(matches!(
        act("hierarchy.prefab.unbundle_instance", Some(9)),
        MenuEffect::PrefabOperator { id: "prefab.unbundle_instance", instance: 9 }
    ));
    assert!(matches!(
        act("op:water.add", None),
        MenuEffect::RunOperator { operator } if operator == "water.add"
    ));
    assert!(matches!(act("unknown", Some(1)), MenuEffect::Nothing));
    assert_eq!(parse_action("hierarchy.add_cube"), Some(MenuAction::AddChild(EntityTemplate::Cube)));
    assert_eq!(parse_action("op:x"), None);
}

#[test]
fn saving_a_prefab_remembers_roots_and_name() {
    let mut menu = Menu::on(small_scene());
    menu.world.select_all(vec![1, 3]);
    let effect = menu.act("hierarchy.save_prefab", Some(3), None);
    assert!(matches!(effect, MenuEffect::OpenDialog { title: "Save as Prefab", confirm: "Save" }));
    assert_eq!(menu.pending.roots, vec![1, 3]);
    assert_eq!(menu.name.name, "Parent");
    menu.act("hierarchy.prefab.save_as_variant", Some(2), None);
    assert_eq!(menu.pending.roots, vec![2]);
    assert_eq!(menu.name.name, "Child_variant");
    assert_eq!(menu.pending.mode, PrefabSaveMode::Variant);
    menu.act("hierarchy.save_scene_as_prefab", None, Some(" level "));
    assert!(menu.pending.roots.is_empty());
    assert_eq!(menu.name.name, "level");
    assert_eq!(menu.pending.mode, PrefabSaveMode::Scene);
    assert!(menu.history.undo_stack.is_empty());
}

#[test]
fn a_prefab_goes_into_the_prefab_directory() {
    let mut pending = PendingPrefabSave { roots: vec![1, 2], mode: PrefabSaveMode::Prefab };
    assert_eq!(populate_prefab_dialog(&pending, vec![9], false), vec![9]);
    assert!(populate_prefab_dialog(&pending, vec![9], true).is_empty());
    let call = on_prefab_dialog_action(&pending, Some(" crate ".to_string())).expect("named");
    assert_eq!((call.operator, call.name.as_str()), ("prefab.save_as_prefab", "crate"));
    assert!(on_prefab_dialog_action(&pending, Some("  ".to_string())).is_none());
    let (result, write) = prefab_save_as_prefab(&mut pending, None, None);
    assert_eq!(result, OperatorResult::Cancelled);
    assert!(write.is_none());
    let (result, write) =
        prefab_save_as_prefab(&mut pending, Some("crate".to_string()), Some("/game"));
    assert_eq!(result, OperatorResult::Finished);
    let write = write.expect("roots were pending");
    assert_eq!(write.path, "/game/assets/prefabs/crate.jsn");
    assert_eq!(write.roots, vec![1, 2]);
    assert!(pending.roots.is_empty());
    assert!(on_prefab_dialog_action(&pending, Some("crate".to_string())).is_none());
}

#[test]
fn variants_and_scenes_are_written_too() {
    let mut pending = PendingPrefabSave { roots: vec![5], mode: PrefabSaveMode::Variant };
    let (_, write) = prefab_save_as_variant(&mut pending, Some("v".to_string()), None);
    let write = write.expect("a root was pending");
    assert_eq!((write.path.as_str(), write.roots.as_slice()), ("v.jsn", [5].as_slice()));
    let mut pending = PendingPrefabSave { roots: vec![], mode: PrefabSaveMode::Scene };
    let (result, write) = prefab_save_scene_as_prefab(&mut pending, None, Some("/game"));
    assert_eq!(result, OperatorResult::Finished);
    assert_eq!(write.path, "/game/assets/prefabs/prefab.bsn");
}

#[test]
fn a_child_is_added_below_its_parent() {
    let mut world = small_scene();
    let mut history = CommandHistory::new();
    let mut brushes = Brushes::new();
    let plan = add_child_entity(
        &mut world,
        &mut brushes,
        &mut history,
        1,
        EntityTemplate::Empty,
        7,
        Supplies { shape: None, values: Vec::new() },
        None,
        true,
        true,
    );
    assert!(matches!(
        history.undo_stack.last(),
        Some(EditorCommand::Engine(EngineCommand::Spawn(s))) if s.spawned == Some(7)
    ));
    assert_eq!(plan, TransformPlan::RelativeToParent);
    assert_eq!(world.parent(7), Some(1));
    let node = world.document.ast_for(7).expect("linked");
    assert_eq!(world.document.find_ast_parent_of(node), world.document.ast_for(1));
}

#[test]
fn the_outliner_registers_its_operators() {
    let mut ctx = ExtensionContext::new();
    add_to_extension(&mut ctx);
    assert!(!ctx.operators.is_empty());
    assert!(ctx.bindings.iter().all(|b| ctx.operators.contains(&b.operator)));
}
