//! Entering entities into the scene and taking them out: templates, names, ids, the clipboard,
//! visibility, transforms, models, and the place of entities in the hierarchy.

use bevy::ecs::entity::Entity as LiveEntity;
use jackdaw::asset_path::{get_assets_base_dir, gltf_name_for, to_asset_path};
use jackdaw::brush::{Brush, BrushFace, Brushes, BRUSH_TYPE_PATH};
use jackdaw::clipboard::{
    duplicate_selected, entity_root_scene_node_ids, live_parent, nodes_to_copy, paste_components,
    prepare_authored_subtree_for_spawn, select_spawned, spawned_roots, DuplicatePlan,
    SystemClipboard,
};
use jackdaw::document::SceneBsnAst;
use jackdaw::entity_menu::{
    add_special, add_to_extension, entity_add_image, entity_add_prefab, entity_add_terrain,
    template_for, MenuRequest, SpecialEntity, TabBar, TERRAIN_PANEL,
};
use jackdaw::entity_ops::{
    can_act_on_entities, delete_selected, hide_all_entities, hide_selected, unhide_all_entities,
    visibility_of, Visibility, VISIBILITY_TYPE_PATH,
};
use jackdaw::gltf::{
    derive_world_asset_root, entity_place_gltf, spawn_gltf, spawn_gltf_in_world, GltfSource,
    GLTF_SOURCE_TYPE_PATH,
};
use jackdaw::history::{CommandHistory, EditorCommand, EngineCommand};
use jackdaw::inspector_cards::TERRAIN_TYPE_PATH;
use jackdaw::lifecycle::{
    collect_entity_ids, despawn_scene_entity, label_of, DespawnEntity, SpawnEntity,
};
use jackdaw::location::{
    set_parent, HierarchyLocation, MoveEntity, ReparentEntity, TransformPlan, TRANSFORM_TYPE_PATH,
};
use jackdaw::naming::{
    assign_unique_entity_root_names, decimal_text, names_in_scene, next_free_name,
};
use jackdaw::node_ids::{collect_nodes, mint_scene_node_ids, SCENE_NODE_ID_TYPE_PATH};
use jackdaw::operators::{ExtensionContext, OperatorParameters, OperatorResult, PropertyValue};
use jackdaw::patch::{BsnPatch, BsnTupleStructData};
use jackdaw::registration::register_entity_in_ast;
use jackdaw::templates::{
    create_entity, create_entity_in_world, seed_new_scene_defaults, BrushShape, EntityTemplate, Part,
    PartValue, Placement, Supplies,
};
use jackdaw::transform_ops::{
    float_eq, nudge_selected, reset_transform_selected, selected_transforms, TransformEdit,
    TransformReset,
};
use jackdaw::value::{BsnField, BsnStructData, BsnValue, Entity};
use jackdaw::world::{EntityRecord, Marks, SceneWorld, TypeEntry};

const TRANSFORM: &str = "bevy_transform::components::transform::Transform";

/// The first id of the range that new ids come from.
const FIRST_ID: u64 = 1 << 32;

fn named_node(ast: &mut SceneBsnAst, name: &str) -> Entity {
    let node = ast.create_entity_node(vec![BsnPatch::Name(name.to_string())]);
    ast.add_to_roots(node);
    node
}

fn spawn(world: &mut SceneWorld, e: Entity, name: &str, marks: Marks) {
    let mut record = EntityRecord::bare(marks);
    record.name = Some(name.to_string());
    world.insert(e, record);
}

/// An entity with a document node at the root.
fn author(world: &mut SceneWorld, e: Entity, name: &str) -> Entity {
    spawn(world, e, name, Marks::none());
    let node = named_node(&mut world.document, name);
    world.document.link(e, node);
    node
}

fn last_spawn(history: &CommandHistory) -> &SpawnEntity {
    match history.undo_stack.last() {
        Some(EditorCommand::Engine(EngineCommand::Spawn(s))) => s,
        other => panic!("no spawn: {other:?}"),
    }
}

#[test]
fn mint_scene_node_ids_replaces_existing_ids() {
    let mut ast = SceneBsnAst::new();
    let node = ast.create_entity_node(vec![
        BsnPatch::TupleStruct(BsnTupleStructData {
            type_path: SCENE_NODE_ID_TYPE_PATH.to_string(),
            values: vec![BsnValue::Int(42)],
        }),
        BsnPatch::Name("Kept".to_string()),
    ]);
    ast.add_to_roots(node);

    let next = mint_scene_node_ids(&mut ast, &Vec::new(), FIRST_ID);

    let id = ast.stable_id_of(node).expect("id patch present");
    assert_ne!(id, 42, "the stale id must be replaced");
    assert!(id >= FIRST_ID as i128, "minted id must be in the sparse range");
    assert_eq!(ast.get_name(node).as_deref(), Some("Kept"), "other patches survive");
    assert_eq!(next, FIRST_ID + 1);
}

#[test]
fn asset_roots_get_no_id() {
    let mut ast = SceneBsnAst::new();
    let asset = named_node(&mut ast, "Material");
    let entity = named_node(&mut ast, "Cube");
    assert_eq!(collect_nodes(&ast).len(), 2);
    assert_eq!(mint_scene_node_ids(&mut ast, &vec![asset], 5), 6);
    assert_eq!(ast.stable_id_of(asset), None);
    assert_eq!(ast.stable_id_of(entity), Some(5));
    assert_eq!(entity_root_scene_node_ids(&ast, &vec![asset, entity]), vec![5]);
}

#[test]
fn assign_unique_entity_root_names_keeps_free_names_and_numbers_collisions() {
    let mut world = SceneWorld::new();
    spawn(&mut world, 1, "Brush", Marks::none());
    spawn(&mut world, 2, "Brush 2", Marks::none());
    spawn(&mut world, 3, "Camera", Marks { editor_entity: true, ..Marks::none() });

    let mut ast = SceneBsnAst::new();
    let free = named_node(&mut ast, "Camera");
    let taken = named_node(&mut ast, "Brush");
    let also_taken = named_node(&mut ast, "Brush");

    let names = names_in_scene(&world, &vec![1, 2, 3]);
    assign_unique_entity_root_names(names, &vec![free, taken, also_taken], &mut ast);

    assert_eq!(
        ast.get_name(free).as_deref(),
        Some("Camera"),
        "editor chrome names do not force renames"
    );
    assert_eq!(
        ast.get_name(taken).as_deref(),
        Some("Brush 3"),
        "colliding name takes the next free number"
    );
    assert_eq!(
        ast.get_name(also_taken).as_deref(),
        Some("Brush 4"),
        "batch collisions advance past names assigned earlier in the same pass"
    );
}

#[test]
fn a_number_at_the_end_of_a_name_is_counted_on() {
    let taken = vec!["Cube 7".to_string(), "Cube".to_string(), "Cuboid 9".to_string()];
    assert_eq!(next_free_name(&taken, "Cube 7"), "Cube 8");
    assert_eq!(next_free_name(&taken, "Cube"), "Cube 8");
    assert_eq!(next_free_name(&vec!["Cube x".to_string()], "Cube x"), "Cube x 2");
    assert_eq!(decimal_text(0), "0");
    assert_eq!(decimal_text(1203), "1203");
}

#[test]
fn text_to_spawn_gets_ids_and_free_names() {
    let mut ast = SceneBsnAst::new();
    let root = named_node(&mut ast, "Cube");
    let mut world = SceneWorld::new();
    spawn(&mut world, 1, "Cube", Marks::none());
    spawn(&mut world, 2, "Lamp", Marks { editor_entity: true, ..Marks::none() });
    let live = vec![1, 2];
    let next =
        prepare_authored_subtree_for_spawn(&world, &live, &mut ast, &vec![], &vec![root], 9);
    assert_eq!(next, 10);
    assert_eq!(ast.get_name(root).as_deref(), Some("Cube 2"));
    assert_eq!(ast.stable_id_of(root), Some(9));
    let other = named_node(&mut ast, "Lamp");
    let roots = vec![root, other];
    prepare_authored_subtree_for_spawn(&world, &live, &mut ast, &vec![], &roots, 20);
    assert_eq!(ast.get_name(other).as_deref(), Some("Lamp"), "what the editor has is not taken");
    let ids = entity_root_scene_node_ids(&ast, &roots);
    assert_eq!(ids.len(), 2);
    assert_ne!(ids[0], ids[1], "every root has an id of its own");
}

fn right_sidebar_seeded() -> TabBar {
    TabBar {
        windows: vec![
            "jackdaw.inspector".to_string(),
            "jackdaw.inspector.terrain".to_string(),
            "jackdaw.inspector.materials".to_string(),
        ],
        active: 0,
    }
}

fn active_window(tabs: &TabBar) -> &str {
    tabs.windows[tabs.active].as_str()
}

#[test]
fn first_terrain_add_focuses_the_seeded_unfocused_tab() {
    let mut world = SceneWorld::new();
    let mut tabs = right_sidebar_seeded();
    let mut history = CommandHistory::new();
    let terrain = vec![BsnStructData::empty(TERRAIN_TYPE_PATH)];
    let result = entity_add_terrain(
        &mut world,
        &mut history,
        &Vec::new(),
        "Terrain",
        terrain,
        1,
        &mut tabs,
    );
    assert_eq!(result, OperatorResult::Finished);
    assert_eq!(
        active_window(&tabs),
        "jackdaw.inspector.terrain",
        "the document's first terrain should bring the panel to front"
    );
    let node = world.document.ast_for(1).expect("linked");
    assert_eq!(world.document.component_type_paths(node), vec![TERRAIN_TYPE_PATH.to_string()]);
}

#[test]
fn second_terrain_add_leaves_components_active() {
    let mut world = SceneWorld::new();
    let mut tabs = right_sidebar_seeded();
    let mut history = CommandHistory::new();
    let result = entity_add_terrain(
        &mut world,
        &mut history,
        &Vec::new(),
        "Terrain",
        Vec::new(),
        1,
        &mut tabs,
    );
    assert_eq!(result, OperatorResult::Finished);
    assert_eq!(
        active_window(&tabs),
        "jackdaw.inspector.terrain",
        "sanity check: first add still focuses Terrain"
    );

    tabs.active = 0;

    let result = entity_add_terrain(
        &mut world,
        &mut history,
        &vec![1],
        "Terrain 2",
        Vec::new(),
        2,
        &mut tabs,
    );
    assert_eq!(result, OperatorResult::Finished);
    assert_eq!(
        active_window(&tabs),
        "jackdaw.inspector",
        "a second terrain must not steal focus from Components"
    );
    assert_eq!(last_spawn(&history).description(), "Add Terrain");
    assert_eq!(world.selection, vec![2]);
}

#[test]
fn a_window_that_is_missing_is_added_at_the_end() {
    let mut tabs = TabBar { windows: vec!["jackdaw.inspector".to_string()], active: 0 };
    tabs.open_window(TERRAIN_PANEL);
    assert_eq!((tabs.windows.len(), tabs.active), (2, 1));
    assert_eq!(active_window(&tabs), TERRAIN_PANEL);
}

#[test]
fn every_menu_entry_has_its_template() {
    for (id, template, name) in [
        ("entity.add.cube", EntityTemplate::Cube, "Cube"),
        ("entity.add.sphere", EntityTemplate::Sphere, "Sphere"),
        ("entity.add.point_light", EntityTemplate::PointLight, "Point Light"),
        ("entity.add.directional_light", EntityTemplate::DirectionalLight, "Directional Light"),
        ("entity.add.spot_light", EntityTemplate::SpotLight, "Spot Light"),
        ("entity.add.camera", EntityTemplate::Camera3d, "Camera"),
        ("entity.add.camera_rig", EntityTemplate::CameraRig, "Camera Rig"),
        ("entity.add.empty", EntityTemplate::Empty, "Empty"),
        ("entity.add.plane", EntityTemplate::Plane, "Plane"),
        ("entity.add.cylinder", EntityTemplate::Cylinder, "Cylinder"),
        ("entity.add.wedge", EntityTemplate::Wedge, "Wedge"),
        ("entity.add.cone", EntityTemplate::Cone, "Cone"),
        ("entity.add.pyramid", EntityTemplate::Pyramid, "Pyramid"),
        ("entity.add.animation_player", EntityTemplate::AnimationPlayer, "Animation Player"),
        ("entity.add.audio_source", EntityTemplate::AudioSource, "Audio Source"),
        ("entity.add.fog_volume", EntityTemplate::FogVolume, "Fog Volume"),
    ] {
        assert_eq!(template_for(id), Some(template));
        assert_eq!(template.entity_name(), name);
    }
    assert_eq!(template_for("entity.add.nothing"), None);
    assert_eq!(EntityTemplate::Empty.label(), "Empty Entity");
}

/// A shape of two faces with materials of their own.
fn two_faces() -> Brush {
    let face = |material| BrushFace { material, ..BrushFace::plain() };
    Brush { faces: vec![face(1), face(2)], vertices: Vec::new(), polygons: Vec::new() }
}

#[test]
fn a_new_entity_enters_scene_and_document_and_undo_takes_it_out() {
    let mut world = SceneWorld::new();
    let mut brushes = Brushes::new();
    let mut history = CommandHistory::new();
    let values = vec![PartValue { part: Part::PointLight, value: BsnStructData::empty("unused") }];
    create_entity_in_world(
        &mut world,
        &mut brushes,
        &mut history,
        EntityTemplate::Cube,
        4,
        Supplies { shape: Some(two_faces()), values },
        Some(31),
    );
    let painted = brushes.get(4).expect("the cube is a brush");
    assert_eq!(painted.faces.iter().map(|f| f.material).collect::<Vec<_>>(), vec![31, 31]);
    assert_eq!(
        format!("{:?}", world.held_component(4, BRUSH_TYPE_PATH)),
        format!("{:?}", Some(painted.component())),
        "the entity carries the painted brush"
    );
    assert_eq!(last_spawn(&history).description(), "Add Cube");
    assert_eq!(world.name(4).as_deref(), Some("Cube"));
    assert_eq!(world.selection, vec![4]);
    assert!(EntityTemplate::Cube.parts().contains(&Part::Brush(BrushShape::Cuboid)));
    let node = world.document.ast_for(4).expect("linked");
    assert_eq!(world.document.get_name(node).as_deref(), Some("Cube"));
    assert_eq!(
        world.document.component_type_paths(node),
        vec![BRUSH_TYPE_PATH.to_string(), VISIBILITY_TYPE_PATH.to_string()],
        "the parts of the template, in their order"
    );

    let handed = history.undo(&mut world).expect("the engine takes part");
    assert!(world.is_alive(4), "nothing is undone yet");
    assert!(history.undo_stack.is_empty() && history.redo_stack.is_empty());
    let EditorCommand::Engine(EngineCommand::Spawn(mut command)) = handed else {
        panic!("a spawn was recorded");
    };
    command.undo(&mut world);
    history.finish_undo(EditorCommand::Engine(EngineCommand::Spawn(command)));
    assert_eq!(history.redo_stack.len(), 1);
    let again = history.redo(&mut world).expect("the engine takes part");
    history.finish_redo(again);
    assert_eq!((history.undo_stack.len(), history.redo_stack.len()), (1, 0));
    assert!(!world.is_alive(4));
    assert!(world.selection.is_empty());
    assert!(world.document.ast_for(4).is_none());
    assert!(world.document.roots.is_empty());
}

#[test]
fn an_entity_can_enter_the_scene_alone() {
    let mut world = SceneWorld::new();
    let mut brushes = Brushes::new();
    let light = Supplies { shape: Some(two_faces()), values: Vec::new() };
    create_entity(&mut world, &mut brushes, EntityTemplate::PointLight, 5, light, Some(31));
    assert!(!brushes.contains(5), "a light is no brush");
    assert_eq!(visibility_of(&world, 5), Visibility::Inherited);
    let sphere = Supplies { shape: Some(two_faces()), values: Vec::new() };
    create_entity(&mut world, &mut brushes, EntityTemplate::Sphere, 7, sphere, None);
    let faces = brushes.get(7).expect("a sphere is a brush").faces;
    assert_eq!(faces.iter().map(|f| f.material).collect::<Vec<_>>(), vec![1, 2], "as it was made");
    world.select_single(5);
    assert_eq!(world.name(5).as_deref(), Some("Point Light"));
    assert_eq!(world.selection, vec![5]);
    assert!(world.document.ast_for(5).is_none(), "the document does not know it yet");
    let here = BsnStructData::empty(TRANSFORM_TYPE_PATH);
    let source = spawn_gltf(&mut world, "models/tree.glb", None, here, 6);
    assert_eq!(source.path, "models/tree.glb");
    assert_eq!(world.name(6).as_deref(), Some("tree"));
    assert_eq!(world.selection, vec![6]);
    assert!(world.document.ast_for(6).is_none());
}

#[test]
fn a_new_scene_has_a_sun() {
    let mut world = SceneWorld::new();
    let sun = PartValue {
        part: Part::Transform(Placement::Sun),
        value: BsnStructData::empty(TRANSFORM_TYPE_PATH),
    };
    let mut brushes = Brushes::new();
    seed_new_scene_defaults(&mut world, &mut brushes, 1, vec![sun]);
    let parts = EntityTemplate::DirectionalLight.parts();
    assert_eq!(world.name(1).as_deref(), Some("Directional Light"));
    let node = world.document.ast_for(1).expect("linked");
    assert_eq!(world.document.component_type_paths(node), vec![TRANSFORM_TYPE_PATH.to_string()]);
    assert!(parts.contains(&Part::DirectionalLight));
    assert!(parts.contains(&Part::Transform(Placement::Sun)));
}

#[test]
fn special_entities_are_named_after_what_they_are() {
    for (kind, name) in [
        (SpecialEntity::ReflectionProbe, "Reflection Probe"),
        (SpecialEntity::SpawnPoint, "Spawn Point"),
        (SpecialEntity::ZoneTransition, "Zone Transition"),
        (SpecialEntity::NetworkRoom, "Network Room"),
    ] {
        let mut world = SceneWorld::new();
        let mut history = CommandHistory::new();
        let values = kind
            .parts()
            .into_iter()
            .map(|part| PartValue { part, value: BsnStructData::empty(&format!("{part:?}")) })
            .collect();
        add_special(&mut world, &mut history, kind, 3, &values);
        assert_eq!(world.name(3).as_deref(), Some(name));
        assert_eq!(last_spawn(&history).description(), format!("Add {name}"));
        let node = world.document.ast_for(3).expect("linked");
        assert_eq!(world.document.component_type_paths(node).len(), kind.parts().len());
    }
    assert_eq!(
        entity_add_image(),
        (OperatorResult::Finished, MenuRequest::OpenReferenceImagePicker)
    );
    assert_eq!(entity_add_prefab(), (OperatorResult::Finished, MenuRequest::ExplainPrefabs));
}

#[test]
fn entity_operators_depend_on_the_features() {
    let mut plain = ExtensionContext::new();
    add_to_extension(&mut plain, false, false);
    let mut all = ExtensionContext::new();
    add_to_extension(&mut all, true, true);
    assert_eq!(all.operators.len(), plain.operators.len() + 4);
    assert!(all.operators.contains(&"EntityAddCameraRigOp"));
    assert!(!plain.operators.contains(&"EntityAddCameraRigOp"));
    assert_eq!(all.bindings.len(), plain.bindings.len());
    assert!(all.bindings.iter().any(|b| b.operator == "EntityDeleteOp"));
}

#[test]
fn shortcuts_wait_until_the_viewport_is_free() {
    assert!(can_act_on_entities(false, false, false, false, true));
    assert!(!can_act_on_entities(true, false, false, false, true));
    assert!(!can_act_on_entities(false, true, false, false, true));
    assert!(!can_act_on_entities(false, false, true, false, true));
    assert!(!can_act_on_entities(false, false, false, true, true));
    assert!(!can_act_on_entities(false, false, false, false, false));
}

#[test]
fn deleting_spares_what_belongs_to_the_editor() {
    let mut world = SceneWorld::new();
    author(&mut world, 1, "Cube");
    spawn(&mut world, 2, "Gizmo", Marks { editor_entity: true, ..Marks::none() });
    world.select_all(vec![1, 2]);
    let mut history = CommandHistory::new();
    delete_selected(&mut world, &mut history);
    match history.undo_stack.last() {
        Some(EditorCommand::Group(g)) => {
            assert_eq!(g.label, "Delete entities");
            assert_eq!(g.commands.len(), 1);
            match &g.commands[0] {
                EditorCommand::Engine(EngineCommand::Despawn(d)) => {
                    assert_eq!(d.entity, 1);
                    assert!(d.description().starts_with("Despawn entity "));
                }
                other => panic!("no deletion: {other:?}"),
            }
        }
        other => panic!("no group: {other:?}"),
    }
    delete_selected(&mut world, &mut history);
    assert_eq!(history.undo_stack.len(), 1, "with nothing selected nothing is recorded");
    assert!(!world.is_alive(1));
    assert!(world.is_alive(2));
    assert!(world.document.nodes.is_empty());
    assert!(world.selection.is_empty());
}

#[test]
fn despawning_takes_the_children_along() {
    let mut world = SceneWorld::new();
    author(&mut world, 1, "Root");
    author(&mut world, 2, "Child");
    author(&mut world, 3, "Other");
    assert_eq!(
        set_parent(&mut world, 2, Some(1), true, true),
        TransformPlan::RelativeToParent
    );
    let mut ids: Vec<Entity> = Vec::new();
    collect_entity_ids(&world, 1, &mut ids);
    assert_eq!(ids, vec![1, 2]);
    let mut command = DespawnEntity::from_world(&world, 1);
    command.execute(&mut world);
    assert!(!world.is_alive(1));
    assert!(!world.is_alive(2));
    assert!(world.is_alive(3));
    assert!(world.document.ast_for(2).is_none());
    spawn(&mut world, 8, "Root", Marks::none());
    command.undo(&mut world, Some(8));
    assert_eq!(command.entity, 8);
    let node = world.document.ast_for(8).expect("the document follows the entity");
    assert_eq!(world.document.get_name(node).as_deref(), Some("Root"));
    world.insert_component(8, BsnStructData::empty("game::Health"));
    let mut command = DespawnEntity::from_world(&world, 8);
    command.execute(&mut world);
    assert!(world.document.ast_for(8).is_none());
    spawn(&mut world, 8, "Root", Marks::none());
    world.insert_component(8, BsnStructData::empty("game::Health"));
    command.undo(&mut world, None);
    let node = world.document.ast_for(8).expect("under the same id");
    assert_eq!(world.document.get_name(node).as_deref(), Some("Root"));
    assert_eq!(world.document.component_type_paths(node), vec!["game::Health".to_string()]);
    despawn_scene_entity(&mut world, 8);
    despawn_scene_entity(&mut world, 3);
    assert!(world.entities.is_empty());
}

#[test]
fn an_entity_without_a_name_is_called_by_its_number() {
    let mut world = SceneWorld::new();
    let e = LiveEntity::from_raw_u32(3).expect("valid index");
    world.insert(e.to_bits(), EntityRecord::bare(Marks::none()));
    assert_eq!(label_of(&world, e.to_bits()), format!("Entity {e}"));
    assert_eq!(label_of(&world, e.to_bits()), "Entity 3v0");
    spawn(&mut world, 4, "Named", Marks::none());
    assert_eq!(label_of(&world, 4), "Named");
}

#[test]
fn a_spawn_without_an_entity_undoes_nothing() {
    let mut world = SceneWorld::new();
    spawn(&mut world, 1, "Cube", Marks::none());
    let mut command = SpawnEntity { spawned: None, label: "Add Cube".to_string() };
    command.undo(&mut world);
    assert!(world.is_alive(1));
    command.execute(1);
    assert_eq!(command.spawned, Some(1));
}

#[test]
fn an_entity_enters_the_document_with_its_components() {
    let mut world = SceneWorld::new();
    let above = author(&mut world, 1, "Parent");
    let mut record = EntityRecord::bare(Marks::none());
    record.parent = Some(1);
    record.components = vec![placed(5.0)];
    world.insert(2, record);
    register_entity_in_ast(&mut world, 2);
    let node = world.document.ast_for(2).expect("entered");
    assert_eq!(world.document.find_ast_parent_of(node), Some(above));
    assert_eq!(world.document.get_children_ast(above), vec![node]);
    assert!(world.document.get_bsn_field(node, TRANSFORM, "translation.x").is_some());
    register_entity_in_ast(&mut world, 2);
    assert_eq!(world.document.ast_for(2), Some(node), "entering again changes nothing");
    register_entity_in_ast(&mut world, 99);
    assert!(world.document.ast_for(99).is_none());
}

#[test]
fn a_move_is_undone_to_the_same_place() {
    let mut world = SceneWorld::new();
    for (e, name) in [(1, "Parent"), (2, "A"), (3, "B"), (4, "C")] {
        author(&mut world, e, name);
    }
    for e in [2, 3, 4] {
        set_parent(&mut world, e, Some(1), false, false);
    }
    assert_eq!(world.children(1), vec![2, 3, 4]);
    let to = HierarchyLocation { parent: Some(1), index: 0, slot: None };
    let mut command = MoveEntity::new(&world, 4, to);
    assert_eq!(command.old.index, 2);
    command.execute(&mut world, false, false);
    assert_eq!(world.children(1), vec![4, 2, 3]);
    command.undo(&mut world, false, false);
    assert_eq!(world.children(1), vec![2, 3, 4]);

    let mut out = ReparentEntity { entity: 3, old_parent: Some(1), new_parent: None };
    assert_eq!(out.execute(&mut world, true, false), TransformPlan::World);
    assert_eq!(world.children(1), vec![2, 4]);
    assert_eq!(world.parent(3), None);
    out.undo(&mut world, true, true);
    assert_eq!(world.parent(3), Some(1));
}

#[test]
fn the_clipboard_falls_back_on_what_was_copied_last() {
    let mut clipboard = SystemClipboard::new();
    assert!(!clipboard.copy(" \n\t"));
    assert_eq!(clipboard.text_to_paste(None), None);
    assert!(clipboard.copy(" #Cube "));
    assert_eq!(clipboard.text_to_paste(None).as_deref(), Some(" #Cube "));
    assert_eq!(clipboard.text_to_paste(Some("#Other".to_string())).as_deref(), Some("#Other"));
    assert_eq!(clipboard.text_to_paste(Some("  ".to_string())), None);
}

#[test]
fn a_paste_is_undone_and_done_again() {
    let mut world = SceneWorld::new();
    author(&mut world, 1, "Cube");
    let mut history = CommandHistory::new();
    let mut known: Vec<(u64, Entity)> = Vec::new();
    let id_patch = |id| {
        BsnPatch::TupleStruct(BsnTupleStructData {
            type_path: SCENE_NODE_ID_TYPE_PATH.to_string(),
            values: vec![BsnValue::Int(id)],
        })
    };
    let mut ast = SceneBsnAst::new();
    let cube = ast.create_entity_node(vec![id_patch(77)]);
    let loose = ast.create_entity_node(vec![BsnPatch::Name("Loose".to_string())]);
    let lamp = ast.create_entity_node(vec![id_patch(78)]);
    let roots = vec![cube, loose, lamp];
    let nothing = vec![vec![], vec![], vec![]];
    paste_components(
        &mut world,
        &mut history,
        &mut known,
        &ast,
        &roots,
        &nothing,
        String::new(),
    );
    assert!(history.undo_stack.is_empty() && known.is_empty());
    let batches = vec![vec![1, 40], vec![], vec![]];
    paste_components(
        &mut world,
        &mut history,
        &mut known,
        &ast,
        &roots,
        &batches,
        "#Cube".to_string(),
    );
    assert_eq!(known, vec![(77, 1)]);
    assert_eq!(world.selection, vec![1]);
    let Some(EditorCommand::Engine(EngineCommand::Paste(mut command))) = history.undo(&mut world)
    else {
        panic!("a paste was recorded");
    };
    assert_eq!(command.description(), "Paste entities");
    assert_eq!(command.spawned_node_ids, vec![77, 78], "the roots that have an id");
    command.undo(&mut world, &known);
    assert!(!world.is_alive(1));
    assert!(world.selection.is_empty());
    assert!(command.execute(), "a redo pastes again");
    spawn(&mut world, 2, "Other", Marks::none());
    world.select_single(2);
    spawn(&mut world, 9, "Cube", Marks::none());
    let mut known: Vec<(u64, Entity)> = Vec::new();
    let again = vec![vec![9, 41], vec![], vec![]];
    command.finish_redo(&mut world, &mut known, &ast, &roots, &again);
    assert_eq!(known, vec![(77, 9)], "the root carries its id again");
    assert_eq!(world.selection, vec![9]);
    assert!(world.marks(9).selected && !world.marks(2).selected);
}

#[test]
fn duplicates_go_next_to_their_originals() {
    let mut world = SceneWorld::new();
    let parent = author(&mut world, 1, "Parent");
    let child = author(&mut world, 2, "Child");
    set_parent(&mut world, 2, Some(1), false, false);
    spawn(&mut world, 3, "Loose", Marks::none());
    world.select_all(vec![1, 2, 3]);
    assert_eq!(nodes_to_copy(&world), vec![parent, child]);
    let plans = duplicate_selected(&mut world);
    assert_eq!(
        plans,
        vec![
            DuplicatePlan { node: parent, parent: None },
            DuplicatePlan { node: child, parent: Some(parent) },
        ]
    );
    assert_eq!(live_parent(&world.document, plans[1].parent), Some(1));
    assert_eq!(spawned_roots(&vec![vec![8, 9], vec![], vec![10]]), vec![8, 10]);
    spawn(&mut world, 8, "Copy", Marks::none());
    select_spawned(&mut world, vec![8]);
    assert_eq!(world.selection, vec![8]);
    assert!(world.marks(8).selected);
    assert!(!world.marks(1).selected);
}

#[test]
fn hiding_toggles_and_unhiding_shows_all() {
    let mut world = SceneWorld::new();
    world.types.push(TypeEntry {
        type_path: VISIBILITY_TYPE_PATH.to_string(),
        default: Some(BsnStructData::variant(VISIBILITY_TYPE_PATH, "Inherited")),
    });
    author(&mut world, 1, "A");
    author(&mut world, 2, "B");
    let mut history = CommandHistory::new();
    world.select_all(vec![1]);
    hide_selected(&mut world, &mut history);
    assert_eq!(visibility_of(&world, 1), Visibility::Hidden);
    assert_eq!(visibility_of(&world, 2), Visibility::Inherited);
    hide_selected(&mut world, &mut history);
    assert_eq!(visibility_of(&world, 1), Visibility::Inherited);
    assert_eq!(history.undo_stack.len(), 2);
    history.undo(&mut world);
    assert_eq!(visibility_of(&world, 1), Visibility::Hidden);

    hide_all_entities(&mut world, &mut history, &vec![1, 2]);
    assert_eq!(visibility_of(&world, 2), Visibility::Hidden);
    unhide_all_entities(&mut world, &mut history, &vec![1, 2]);
    assert_eq!(visibility_of(&world, 1), Visibility::Inherited);
    assert_eq!(visibility_of(&world, 2), Visibility::Inherited);
    let commands = history.undo_stack.len();
    unhide_all_entities(&mut world, &mut history, &vec![1, 2]);
    assert_eq!(history.undo_stack.len(), commands, "what is shown stays as it is");
}

fn number(name: &str, x: f64) -> BsnField {
    BsnField { name: name.to_string(), value: BsnValue::Float(x.to_bits()) }
}

fn placed(x: f64) -> BsnStructData {
    BsnStructData {
        type_path: TRANSFORM.to_string(),
        fields: vec![
            number("translation.x", x),
            number("translation.y", 2.0),
            number("translation.z", 3.0),
        ],
    }
}

fn x_of(world: &SceneWorld, e: Entity) -> f64 {
    match world.live_bsn_field(e, TRANSFORM, "translation.x") {
        Some(BsnValue::Float(bits)) => f64::from_bits(bits),
        other => panic!("no number: {other:?}"),
    }
}

#[test]
fn transforms_of_the_selection_are_reset_and_nudged() {
    let mut world = SceneWorld::new();
    world.types.push(TypeEntry { type_path: TRANSFORM.to_string(), default: Some(placed(0.0)) });
    author(&mut world, 1, "A");
    author(&mut world, 2, "B");
    world.insert_component(1, placed(5.0));
    world.select_all(vec![1, 2]);
    let mut history = CommandHistory::new();
    assert_eq!(selected_transforms(&world).len(), 1);
    nudge_selected(
        &mut world,
        &mut history,
        &vec![TransformEdit { entity: 1, new_transform: placed(6.0) }],
    );
    assert_eq!(x_of(&world, 1), 6.0);
    reset_transform_selected(&mut world, &mut history, TransformReset::Position);
    assert_eq!(x_of(&world, 1), 0.0);
    assert!(matches!(history.undo_stack.last(), Some(EditorCommand::Group(g)) if g.label == "Reset position"));
    let commands = history.undo_stack.len();
    reset_transform_selected(&mut world, &mut history, TransformReset::Position);
    assert_eq!(history.undo_stack.len(), commands, "what is at the origin stays there");
    history.undo(&mut world);
    assert_eq!(x_of(&world, 1), 6.0);
    history.undo(&mut world);
    assert_eq!(x_of(&world, 1), 5.0);
}

#[test]
fn numbers_compare_by_value() {
    assert!(float_eq(0.0f64.to_bits(), (-0.0f64).to_bits()));
    assert!(float_eq(1.5f64.to_bits(), 1.5f64.to_bits()));
    assert!(float_eq(f64::INFINITY.to_bits(), f64::INFINITY.to_bits()));
    assert!(!float_eq(f64::NAN.to_bits(), f64::NAN.to_bits()));
    assert!(!float_eq(1.0f64.to_bits(), (-1.0f64).to_bits()));
}

#[test]
fn asset_paths_are_relative_to_the_assets_directory() {
    assert_eq!(to_asset_path("/game/assets/models/a.glb", Some("/game/assets")), "models/a.glb");
    assert_eq!(to_asset_path("/other/a.glb", Some("/game/assets")), "/other/a.glb");
    assert_eq!(to_asset_path("/game/assetsx/a.glb", Some("/game/assets")), "/game/assetsx/a.glb");
    assert_eq!(to_asset_path("models/a.glb", None), "models/a.glb");
    assert_eq!(to_asset_path(".local/assets/.hidden/a.glb", Some(".local/assets")), ".hidden/a.glb");
    assert_eq!(
        get_assets_base_dir(None, Some("/root".to_string()), Some("/package".to_string()), None)
            .as_deref(),
        Some("/root/assets")
    );
    assert_eq!(
        get_assets_base_dir(Some("/p/assets".to_string()), Some("/root".to_string()), None, None)
            .as_deref(),
        Some("/p/assets")
    );
    assert_eq!(get_assets_base_dir(None, None, None, None), None);
}

#[test]
fn models_are_named_after_their_files() {
    assert_eq!(gltf_name_for("models/dungeon.v2.glb"), "dungeon.v2");
    assert_eq!(gltf_name_for("models/dungeon"), "dungeon");
    assert_eq!(gltf_name_for("models/.dungeon"), ".dungeon");
    assert_eq!(gltf_name_for("/"), "GLTF Model");
    let mut world = SceneWorld::new();
    let here = BsnStructData::empty(TRANSFORM_TYPE_PATH);
    let source =
        spawn_gltf_in_world(&mut world, "/game/assets/models/tree.glb", Some("/game/assets"), here, 6);
    assert_eq!(source.path, "models/tree.glb");
    assert_eq!(source.scene_index, 0);
    assert_eq!(world.name(6).as_deref(), Some("tree"));
    assert!(world.marks(6).gltf_source);
    let node = world.document.ast_for(6).expect("linked");
    match world.document.get_bsn_field(node, GLTF_SOURCE_TYPE_PATH, "path") {
        Some(BsnValue::String(path)) => assert_eq!(path, "models/tree.glb"),
        other => panic!("the document keeps the source: {other:?}"),
    }
    let loaded = GltfSource { path: "models/tree.glb".to_string(), scene_index: 0 };
    assert!(derive_world_asset_root(&source, None, Some(&loaded)).is_none());
    assert!(derive_world_asset_root(&source, None, None).is_some());
}

#[test]
fn placing_a_model_needs_its_path_and_position() {
    let mut params = OperatorParameters::new();
    params.entries.push(("path".to_string(), PropertyValue::Text("a.glb".to_string())));
    params.entries.push(("pos_x".to_string(), PropertyValue::Float(1)));
    params.entries.push(("pos_y".to_string(), PropertyValue::Float(2)));
    let (result, placement) = entity_place_gltf(&params);
    assert_eq!(result, OperatorResult::Cancelled);
    assert!(placement.is_none());
    params.entries.push(("pos_z".to_string(), PropertyValue::Float(3)));
    let (result, placement) = entity_place_gltf(&params);
    assert_eq!(result, OperatorResult::Finished);
    let placement = placement.expect("all given");
    assert_eq!((placement.path.as_str(), placement.x, placement.z), ("a.glb", 1, 3));
}
