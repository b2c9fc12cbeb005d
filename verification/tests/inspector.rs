//! The inspector: its cards, headers and panels, and the picker for new components.

use jackdaw::add_header::{
    build_add_header_children, material_combobox_selected_index, on_material_new_click,
    on_physics_chip_click, physics_presence, rebuild_add_header, spawn_material_header,
    HeaderChanges, HeaderContent, MaterialEntry, PhysicsChipButton, PhysicsPart, PhysicsRequest,
};
use jackdaw::component_picker::{
    enumerate_pickable_components, on_add_component_button_click, on_select, picker_section,
    populate_avian_picker_denylist, spawn_item, PickerDenylist, PickerStep, ProjectChoice,
    RegisteredType, TypeChrome,
};
use jackdaw::history::CommandHistory;
use jackdaw::inspector::{
    extract_module_group, find_text_edit_entities_local, flag_inspector_dirty_on_archetype_change,
    flag_inspector_dirty_on_modifier_stack_change, on_name_field_commit,
    persist_inspector_collapse, rebuild_inspector, refresh_name_field, FieldChild,
    InspectorCollapseState, NameField,
};
use jackdaw::inspector_cards::{
    build_inspector_displays, hidden_by_namespace, list_components, prefab_instance_ctx,
    spawn_component_display, CardBody, ComponentDisplaySpec, ComponentKind, EntityComponent,
    InspectedEntity, InspectorItem, NameColor, Revert,
};
use jackdaw::inspector_panels::{
    despawn_inspector_display_children, filter_inspector_components, on_inspector_dirty,
    sync_inspector_to_selection, FilterCard, InspectorPanel,
};
use jackdaw::patch::BsnPatch;
use jackdaw::type_details::{
    auto_attach_reflected_type_tooltip, on_category_commit, on_toggle_type_metadata, CardState,
    ReflectedTypeTooltip,
};
use jackdaw::value::Entity;
use jackdaw::world::{EntityRecord, Marks, ProjectSchema, SceneWorld};

/// The handle of the default material.
const DEFAULT: u64 = 0;

fn rows(handles: &[u64]) -> Vec<MaterialEntry> {
    handles
        .iter()
        .enumerate()
        .map(|(i, h)| MaterialEntry { name: format!("m{i}"), handle: *h })
        .collect()
}

#[test]
fn assigned_material_selects_its_registry_row() {
    let entries = rows(&[DEFAULT, 31]);
    assert_eq!(material_combobox_selected_index(&entries, Some(31)), 1);
}

#[test]
fn unassigned_selects_the_none_row() {
    let entries = rows(&[31, DEFAULT]);
    assert_eq!(material_combobox_selected_index(&entries, None), 1);
}

#[test]
fn material_absent_from_registry_falls_back_to_zero() {
    let entries = rows(&[31]);
    assert_eq!(material_combobox_selected_index(&entries, Some(32)), 0);
}

#[test]
fn empty_registry_is_index_zero() {
    assert_eq!(material_combobox_selected_index(&Vec::new(), None), 0);
}

#[test]
fn a_missing_material_shows_the_default_row() {
    let entries = rows(&[31, DEFAULT]);
    assert_eq!(material_combobox_selected_index(&entries, Some(32)), 1);
}

#[test]
fn the_scene_data_components_with_their_own_cards_survive_the_namespace_cull() {
    assert!(!hidden_by_namespace("jackdaw_scene_types::types::Brush"));
    assert!(!hidden_by_namespace("jackdaw_scene_types::types::Terrain"));
}

#[test]
fn editor_bookkeeping_stays_out_of_the_generic_list() {
    assert!(hidden_by_namespace("jackdaw_scene_types::node_id::SceneNodeId"));
    assert!(!hidden_by_namespace("jackdaw_avian_integration::AvianCollider"));
    assert!(!hidden_by_namespace("jackdaw_geometry::modifiers::ModifierStack"));
    assert!(!hidden_by_namespace("bevy_transform::components::transform::Transform"));
}

#[test]
fn the_material_header_offers_the_registry() {
    assert!(spawn_material_header(false, &rows(&[31]), None).is_none());
    let header = spawn_material_header(true, &rows(&[DEFAULT, 31]), Some(31)).expect("alive");
    assert_eq!(header.options, vec!["m0".to_string(), "m1".to_string()]);
    assert_eq!(header.selected, 1);
    assert_eq!(header.chosen(1), Some(31));
    assert_eq!(header.chosen(2), None);
    let empty = spawn_material_header(true, &Vec::new(), None).expect("alive");
    assert_eq!(empty.options, vec!["(none)".to_string()]);
    assert_eq!(empty.chosen(0), None);
    assert_eq!(on_material_new_click(true, Some(5)), Some(5));
    assert_eq!(on_material_new_click(false, Some(5)), None);
}

fn nothing_changed() -> HeaderChanges {
    HeaderChanges {
        category: false,
        selection: false,
        cards_added: false,
        cards_removed: false,
        materials: false,
        mount_added: false,
    }
}

#[test]
fn the_header_follows_the_category() {
    assert_eq!(build_add_header_children("components", false, false), HeaderContent::AddComponent);
    assert_eq!(build_add_header_children("modifiers", false, false), HeaderContent::AddModifier);
    assert_eq!(build_add_header_children("material", false, false), HeaderContent::Material);
    assert_eq!(build_add_header_children("other", false, false), HeaderContent::Nothing);
    let body = PhysicsChipButton { part: PhysicsPart::RigidBody, present: true };
    let collider = PhysicsChipButton { part: PhysicsPart::Collider, present: false };
    assert_eq!(
        build_add_header_children("physics", true, false),
        HeaderContent::Physics(body, collider)
    );
    assert_eq!(body.text(), "Rigid Body  x");
    assert_eq!(collider.text(), "Collider");
    assert_eq!(physics_presence(None, true, true), (false, false));
    assert_eq!(rebuild_add_header(nothing_changed(), "physics", Some(1), true, false), None);
    let changes = HeaderChanges { selection: true, ..nothing_changed() };
    assert_eq!(
        rebuild_add_header(changes, "physics", Some(1), true, false),
        Some(HeaderContent::Physics(body, collider))
    );
    assert_eq!(
        on_physics_chip_click(Some(body), Some(4)),
        Some(PhysicsRequest::Remove(4, PhysicsPart::RigidBody))
    );
    assert_eq!(
        on_physics_chip_click(Some(collider), Some(4)),
        Some(PhysicsRequest::Add(4, PhysicsPart::Collider))
    );
    assert_eq!(on_physics_chip_click(Some(collider), None), None);
}

fn chrome(group: &str, hidden: bool) -> TypeChrome {
    TypeChrome {
        category: String::new(),
        group: group.to_string(),
        order: 0,
        description: "A type.".to_string(),
        hidden,
    }
}

fn registered(type_id: u64, path: &str) -> RegisteredType {
    RegisteredType {
        type_id,
        is_component: true,
        has_default: true,
        short_name: "Thing".to_string(),
        module: Some("game::things".to_string()),
        full_path: path.to_string(),
        chrome: chrome("", false),
    }
}

#[test]
fn only_what_can_be_added_is_offered() {
    let mut denylist = PickerDenylist::default();
    denylist.deny_path("game::Denied").deny_prefix("internal::");
    assert!(denylist.contains("game::Denied"));
    assert!(!denylist.contains("game::DeniedNot"));
    assert!(denylist.contains("internal::Solver"));
    let types = vec![
        registered(1, "game::Kept"),
        registered(2, "game::Denied"),
        registered(3, "internal::Solver"),
        registered(4, "game::Present"),
        RegisteredType { is_component: false, ..registered(5, "game::Resource") },
        RegisteredType { has_default: false, ..registered(6, "game::NoDefault") },
        RegisteredType { chrome: chrome("", true), ..registered(7, "game::Hidden") },
    ];
    let items = enumerate_pickable_components(&types, &vec![4], &denylist);
    assert_eq!(items.len(), 1);
    assert_eq!(items[0].type_path_full, "game::Kept");
    let request = on_select(9, &items, 0).expect("listed");
    assert_eq!((request.entity, request.type_path.as_str()), (9, "game::Kept"));
    assert!(on_select(9, &items, 1).is_none());
    let row = spawn_item(&items[0]);
    assert_eq!(row.footer, "game::things - Game");
    assert_eq!(row.subtitle.as_deref(), Some("game::things"));
    assert_eq!(picker_section("", 3), ("Game".to_string(), 3));
    assert_eq!(picker_section("Physics", -1), ("Physics".to_string(), -1));
}

#[test]
fn solver_internals_are_denied() {
    let mut denylist = PickerDenylist::default();
    populate_avian_picker_denylist(&mut denylist);
    assert!(denylist.contains("avian3d::dynamics::solver::Contact"));
    assert!(denylist.contains("avian3d::dynamics::rigid_body::sleeping::SleepTimer"));
    assert!(!denylist.contains("avian3d::dynamics::rigid_body::RigidBody"));
}

fn spawn(world: &mut SceneWorld, e: Entity, name: &str, marks: Marks) {
    let mut record = EntityRecord::bare(marks);
    record.name = Some(name.to_string());
    world.insert(e, record);
}

#[test]
fn the_picker_opens_for_the_selection_and_closes_again() {
    let mut world = SceneWorld::new();
    spawn(&mut world, 1, "Cube", Marks::none());
    let types = vec![registered(1, "game::Kept")];
    let denylist = PickerDenylist::default();
    let project = |authored| {
        vec![ProjectChoice {
            short_name: "Health".to_string(),
            module: "game".to_string(),
            type_path: "game::Health".to_string(),
            chrome: chrome("", false),
            authored,
        }]
    };
    let click = |world: &SceneWorld, open: Vec<Entity>, authored| {
        on_add_component_button_click(
            world, true, &open, &types, &Vec::new(), &denylist, &project(authored),
        )
    };
    assert!(matches!(click(&world, vec![], false), PickerStep::Nothing));
    world.select_single(1);
    assert!(matches!(click(&world, vec![60], false), PickerStep::Close(60)));
    match click(&world, vec![], false) {
        PickerStep::Open(1, items) => {
            let paths: Vec<&str> = items.iter().map(|i| i.type_path_full.as_str()).collect();
            assert_eq!(paths, vec!["game::Kept", "game::Health"]);
        }
        other => panic!("unexpected step: {other:?}"),
    }
    match click(&world, vec![], true) {
        PickerStep::Open(_, items) => assert_eq!(items.len(), 1),
        other => panic!("unexpected step: {other:?}"),
    }
}

#[test]
fn a_tooltip_tells_the_type() {
    let source = ReflectedTypeTooltip::new("game::Health".to_string());
    let tip = auto_attach_reflected_type_tooltip(
        &source,
        None,
        Some("Health".to_string()),
        "Points.".to_string(),
    )
    .expect("known");
    assert_eq!((tip.title.as_str(), tip.footer.as_str()), ("Health", "game::Health"));
    assert!(auto_attach_reflected_type_tooltip(&source, None, None, String::new()).is_none());
}

#[test]
fn the_settings_pane_opens_and_closes() {
    let card = CardState { collapsed: true, pane_open: false };
    let step = on_toggle_type_metadata(true, Some(card), Some(40)).expect("a settings button");
    assert!(step.pane_open);
    assert_eq!(step.toggled, Some(40));
    let open = CardState { collapsed: false, pane_open: true };
    let step = on_toggle_type_metadata(true, Some(open), Some(40)).expect("a settings button");
    assert!(!step.pane_open);
    assert_eq!(step.toggled, None);
    assert!(on_toggle_type_metadata(false, Some(card), None).is_none());
    let edit = on_category_commit(Some("game::Health".to_string()), " Stats ", true).expect("saved");
    assert_eq!(edit.category, "Stats");
    assert!(on_category_commit(None, "Stats", true).is_none());
    assert!(on_category_commit(Some("game::Health".to_string()), "Stats", false).is_none());
}

#[test]
fn collapsed_cards_are_remembered() {
    let mut state = InspectorCollapseState::default();
    assert!(state.collapsed("Transform"), "cards start collapsed");
    persist_inspector_collapse(
        &mut state,
        &vec![("Transform".to_string(), true), ("Transform".to_string(), false)],
    );
    assert!(!state.collapsed("Transform"));
    assert!(state.collapsed("Light"));
    state.set("Light", false);
    assert!(!state.collapsed("Light"));
}

#[test]
fn modules_have_readable_groups() {
    assert_eq!(extract_module_group(None), "Other");
    assert_eq!(extract_module_group(Some("bevy_pbr::material")), "Render");
    assert_eq!(extract_module_group(Some("bevy_transform")), "Transform");
    assert_eq!(extract_module_group(Some("jackdaw_avian_integration::x")), "Avian3d");
    assert_eq!(extract_module_group(Some("bevy_gltf")), "GLTF");
    assert_eq!(extract_module_group(Some("mygame::enemies")), "Mygame");
    assert_eq!(extract_module_group(Some("élan::x")), "Élan");
}

fn name_field(value: &str, dragging: bool) -> NameField {
    NameField {
        source: 1,
        value: value.to_string(),
        children: vec![FieldChild {
            entity: 20,
            wraps: None,
            children: vec![(21, None), (22, Some(23))],
        }],
        dragging,
    }
}

#[test]
fn the_name_field_shows_the_name_unless_it_is_edited() {
    let mut world = SceneWorld::new();
    spawn(&mut world, 1, "Lamp", Marks::none());
    let field = name_field("Old", false);
    assert_eq!(find_text_edit_entities_local(&field.children), Some((22, 23)));
    assert_eq!(refresh_name_field(&world, &field, None), Some((23, "Lamp".to_string())));
    assert_eq!(refresh_name_field(&world, &field, Some(23)), None);
    assert_eq!(refresh_name_field(&world, &name_field("Old", true), None), None);
    assert_eq!(refresh_name_field(&world, &name_field("Lamp", false), None), None);
}

#[test]
fn a_committed_name_renames_the_source() {
    let mut world = SceneWorld::new();
    spawn(&mut world, 1, "Lamp", Marks::none());
    let node = world.document.create_entity_node(vec![BsnPatch::Name("Lamp".to_string())]);
    world.document.link(1, node);
    let mut history = CommandHistory::new();
    on_name_field_commit(&mut world, &mut history, &vec![90], &vec![1], &vec![5, 90], "Lamp");
    assert!(history.undo_stack.is_empty(), "the same name is no edit");
    on_name_field_commit(&mut world, &mut history, &vec![90], &vec![1], &vec![5, 6], "Torch");
    assert!(history.undo_stack.is_empty(), "another field is no edit");
    on_name_field_commit(&mut world, &mut history, &vec![90], &vec![1], &vec![5, 90], "Torch");
    assert_eq!(world.name(1).as_deref(), Some("Torch"));
    history.undo(&mut world);
    assert_eq!(world.name(1).as_deref(), Some("Lamp"));
}

#[test]
fn changes_mark_the_inspector_for_a_rebuild() {
    let mut world = SceneWorld::new();
    spawn(&mut world, 1, "A", Marks::none());
    spawn(&mut world, 2, "B", Marks::none());
    rebuild_inspector(&mut world, 1);
    assert!(world.marks(1).inspector_dirty);
    flag_inspector_dirty_on_modifier_stack_change(&mut world, &vec![2], &vec![1]);
    assert!(!world.marks(2).inspector_dirty);
    flag_inspector_dirty_on_modifier_stack_change(&mut world, &vec![2], &vec![2, 1]);
    assert!(world.marks(2).inspector_dirty);

    let mut world = SceneWorld::new();
    spawn(&mut world, 1, "A", Marks::none());
    let mut last: Option<(Entity, u64)> = None;
    flag_inspector_dirty_on_archetype_change(&mut world, &mut last, Some(1), Some(7));
    assert!(!world.marks(1).inspector_dirty, "the first sight is no change");
    assert_eq!(last, Some((1, 7)));
    flag_inspector_dirty_on_archetype_change(&mut world, &mut last, Some(1), Some(8));
    assert!(world.marks(1).inspector_dirty);
    flag_inspector_dirty_on_archetype_change(&mut world, &mut last, None, None);
    assert_eq!(last, None);
}

fn component(path: &str, short: &str, group: &str, authored: bool) -> EntityComponent {
    EntityComponent {
        id: 1,
        registered: Some((path.to_string(), short.to_string())),
        name: None,
        group: group.to_string(),
        order: 0,
        authored,
        reflected: true,
        kind: ComponentKind::Plain,
        is_camera: false,
        differs_from_baseline: false,
        overridden_in_instance: false,
    }
}

#[test]
fn cards_are_listed_in_order() {
    let components = vec![
        component("game::zeta::Zebra", "Zebra", "B", true),
        component("game::Ant", "ant", "B", true),
        component("game::Derived", "Aardvark", "B", false),
        component("bevy_transform::Transform", "Transform", "A", true),
        component("bevy_render::Derived", "Derived", "A", false),
        component("jackdaw_scene_types::node_id::SceneNodeId", "SceneNodeId", "A", true),
        EntityComponent { order: 9, ..component("game::First", "First", "Z", true) },
    ];
    let listed = list_components(&components, true);
    let names: Vec<&str> = listed.iter().map(|l| l.name.as_str()).collect();
    assert_eq!(names, vec!["First", "Transform", "ant", "Zebra", "Aardvark"]);
    assert!(listed[4].derived);
    assert_eq!(listed[0].index, 6);
}

fn inspected(components: Vec<EntityComponent>) -> InspectedEntity {
    InspectedEntity {
        entity: 1,
        components,
        any_authored: true,
        prefab_ctx: None,
        has_baseline: true,
        is_brush: false,
        has_collider: false,
        is_convex: true,
    }
}

#[test]
fn an_entity_is_shown_by_its_cards() {
    let mut world = SceneWorld::new();
    spawn(&mut world, 1, "A", Marks::none());
    let node = world.document.create_entity_node(vec![BsnPatch::Type("game::Health".to_string())]);
    world.document.link(1, node);
    world.project_types.push(ProjectSchema {
        type_path: "game::Health".to_string(),
        short_name: "Health".to_string(),
        module: "game".to_string(),
        fields: Vec::new(),
    });
    let mut source = inspected(vec![
        EntityComponent {
            differs_from_baseline: true,
            is_camera: true,
            ..component("game::Ant", "Ant", "A", true)
        },
        EntityComponent {
            kind: ComponentKind::Brush,
            ..component("jackdaw_scene_types::types::Brush", "Brush", "B", true)
        },
        EntityComponent {
            kind: ComponentKind::ModifierStack,
            ..component("jackdaw_geometry::modifiers::ModifierStack", "ModifierStack", "C", true)
        },
    ]);
    source.is_brush = true;
    source.has_collider = true;
    source.is_convex = false;
    let mut collapse = InspectorCollapseState::default();
    collapse.set("Ant", false);
    let items = build_inspector_displays(&world, &source, 3, &collapse);
    assert_eq!(items.len(), 6);
    assert!(matches!(
        &items[0],
        InspectorItem::SelectionNote(t) if t == "3 entities selected, edits apply to all"
    ));
    match &items[1] {
        InspectorItem::Component(card, body, strip) => {
            assert_eq!((card.name.as_str(), card.collapsed), ("Ant", false));
            assert_eq!(card.name_color, NameColor::Overridden);
            assert_eq!(card.revert, Some(Revert::ToBaseline));
            assert!(card.can_remove);
            assert_eq!((*body, *strip), (CardBody::Fields, true));
        }
        other => panic!("unexpected item: {other:?}"),
    }
    assert!(matches!(
        &items[2],
        InspectorItem::Component(_, CardBody::Brush { collider_note: true }, false)
    ));
    assert!(matches!(&items[3], InspectorItem::Modifiers(2)));
    assert!(matches!(&items[4], InspectorItem::Project(card) if card.name == "Health"));
    assert!(matches!(&items[5], InspectorItem::Materials));
}

#[test]
fn an_override_reverts_to_its_prefab() {
    let ctx = || prefab_instance_ctx(true, Some(("p.bsn".to_string(), 4)), Some(8), true);
    assert!(prefab_instance_ctx(false, Some(("p.bsn".to_string(), 4)), Some(8), true).is_none());
    assert!(prefab_instance_ctx(true, None, Some(8), true).is_none());
    assert_eq!(ctx().expect("in an instance").instance_entity, 8);
    let make = |is_overridden, is_derived| ComponentDisplaySpec {
        name: "Ant".to_string(),
        type_path: "game::Ant".to_string(),
        entity: 1,
        component: Some(3),
        is_overridden,
        is_derived,
        prefab_ctx: ctx(),
        revert_through_prefab: true,
    };
    let state = InspectorCollapseState::default();
    let card = spawn_component_display(make(true, false), &state);
    assert_eq!(card.revert, Some(Revert::ToPrefab));
    assert!(card.menu.is_some());
    let card = spawn_component_display(make(false, true), &state);
    assert_eq!((card.revert, card.name_color), (None, NameColor::Muted));
    assert!(!card.can_remove);
    assert!(card.collapsed);
}

#[test]
fn panels_follow_the_selection() {
    let mut world = SceneWorld::new();
    spawn(&mut world, 1, "A", Marks::none());
    spawn(&mut world, 2, "Gizmo", Marks { editor_entity: true, ..Marks::none() });
    let mut panels = vec![InspectorPanel { entity: 50, target: None }];
    world.select_single(1);
    let children = vec![vec![(60, true), (61, false)]];
    let known = vec![inspected(vec![component("game::Health", "Health", "A", true)])];
    let state = InspectorCollapseState::default();
    let sync = |world: &SceneWorld, panels: &mut Vec<InspectorPanel>, changed| {
        let mut changes =
            sync_inspector_to_selection(world, panels, changed, &children, &known, &state);
        assert_eq!(changes.len(), 1);
        let change = changes.remove(0);
        (change.despawned, change.items)
    };
    let (gone, items) = sync(&world, &mut panels, false);
    assert_eq!(gone, vec![60], "the cards that were there go");
    let shown = build_inspector_displays(&world, &known[0], 1, &state);
    assert!(!shown.is_empty());
    assert_eq!(format!("{items:?}"), format!("{shown:?}"));
    assert_eq!(panels[0].target, Some(1));
    let (gone, items) = sync(&world, &mut panels, false);
    assert!(gone.is_empty() && items.is_empty(), "nothing changes");
    world.select_single(2);
    let (gone, items) = sync(&world, &mut panels, true);
    assert!(gone == vec![60] && items.is_empty(), "the panel is cleared");
    assert_eq!(panels[0].target, None);
    world.clear_selection();
    world.select_single(1);
    sync(&world, &mut panels, true);
    world.mark_dirty(1);
    let changes = on_inspector_dirty(&mut world, &mut panels, &children, &known, &state);
    assert_eq!(changes[0].despawned, vec![60]);
    assert_eq!(format!("{:?}", changes[0].items), format!("{shown:?}"));
    assert!(!world.marks(1).inspector_dirty);
    assert_eq!(despawn_inspector_display_children(&vec![(5, true), (6, false), (7, true)]), vec![5, 7]);
}

#[test]
fn the_search_filters_the_cards_of_the_category() {
    let card = |entity, name: &str, category: &str| FilterCard {
        entity,
        name: name.to_string(),
        category: category.to_string(),
    };
    let cards = vec![
        card(1, "Transform", "components"),
        card(2, "Point Light", "components"),
        card(3, "Array", "modifiers"),
    ];
    let groups = vec![vec![1], vec![2, 3]];
    assert!(filter_inspector_components(false, false, None, "components", &cards, &groups).is_none());
    let shown = filter_inspector_components(true, false, Some(" LIGHT "), "components", &cards, &groups)
        .expect("changed");
    assert_eq!(shown.cards, vec![false, true, false]);
    assert_eq!(shown.groups, vec![false, true]);
    let shown = filter_inspector_components(false, true, None, "modifiers", &cards, &groups)
        .expect("changed");
    assert_eq!(shown.cards, vec![false, false, true]);
    assert_eq!(shown.groups, vec![false, true]);
}
