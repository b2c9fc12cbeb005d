//! Editing brushes: dragging faces, corners and edges, drawing, cutting, and the meshes shown.

use jackdaw::brush::{
    apply_last_material, Brush, BrushFace, BrushPlane, Brushes, Vector2, Vector3, BRUSH_TYPE_PATH,
    DEFAULT_MATERIAL,
};
use jackdaw::brush_edit::{
    BrushEditMode, BrushSelection, BrushSubSelection, Candidate, EditMode, Element, ElementKind,
};
use jackdaw::brush_mesh::{
    ensure_brush_chunk_materials, geometry_to_evaluate, mark_brushes_changed_on_modifier_removal,
    recenter_brush_origins, regenerate_brush_meshes, setup_default_materials, source_maps_valid,
    sync_brush_preview, BrushChunk, BrushMaterialPalette, ColorBits, DefaultColors, Evaluated,
    MeshGeometry, MeshRequest, ModifierEntry, RecenterCandidate, Recentered, ShownBrush, ShownChunk,
};
use jackdaw::clip_ops::{
    add_to_extension, bisect_brush, bisect_slots, can_apply_or_cycle, can_clear, can_place_point,
    clip_apply, clip_clear, clip_cycle_mode, clip_place_point,
    place_point_invoke_trigger, queue_split_spawn, BisectedMesh, ClipMode, ClipParts, ClipState,
    FaceFrame, HalfCut, SourceSlot, SplitPart, SplitSpawn,
};
use jackdaw::draw_brush::{
    active_draw_polygon, append_to_brush, brush_data_from_entity, makes_cutter, makes_prism,
    scene_node_id_of, shape_to_append, spawn_drawn_brush, CreateBrushCommand, DrawnBrush,
    SetBrush, UnionedBrush,
};
use jackdaw::element_drag::{
    apply_vertex_deltas, element_drag_invoke_trigger, restore_captures, toggle_constraint, AxisKeys,
    BrushMove, ElementDragState, ElementEditor, MeshFacts, SplitCandidate, VertexDragConstraint,
};
use jackdaw::face_drag::{
    cursor_over_brush_face, drag_environment_ok, face_drag_invoke_trigger, BrushBoxSelectState,
    BrushDragState, CursorOverride, DragInput, FaceEditor, FaceExtrudeMode, FaceMath, FaceStart,
};
use jackdaw::history::{CommandHistory, EditorCommand, EngineCommand};
use jackdaw::location::TRANSFORM_TYPE_PATH;
use jackdaw::operators::{ExtensionContext, OperatorResult};
use jackdaw::value::{BsnStructData, BsnValue, Entity};
use jackdaw::world::{EntityRecord, Marks, SceneWorld};

const BRUSH: Entity = 7;

fn vec3(x: f32, y: f32, z: f32) -> Vector3 {
    Vector3 { x: x.to_bits(), y: y.to_bits(), z: z.to_bits() }
}

fn vec2(x: f32, y: f32) -> Vector2 {
    Vector2 { x: x.to_bits(), y: y.to_bits() }
}

fn plane(x: f32, y: f32, z: f32, distance: f32) -> BrushPlane {
    BrushPlane { normal: vec3(x, y, z), distance: distance.to_bits() }
}

fn cuboid_planes() -> Vec<BrushPlane> {
    vec![
        plane(1.0, 0.0, 0.0, 1.0),
        plane(-1.0, 0.0, 0.0, 1.0),
        plane(0.0, 1.0, 0.0, 1.0),
        plane(0.0, -1.0, 0.0, 1.0),
        plane(0.0, 0.0, 1.0, 1.0),
        plane(0.0, 0.0, -1.0, 1.0),
    ]
}

/// A cuboid that reaches one unit from the origin along each axis.
fn cuboid() -> Brush {
    let mut vertices = Vec::new();
    for x in [-1.0, 1.0] {
        for y in [-1.0, 1.0] {
            for z in [-1.0, 1.0] {
                vertices.push(vec3(x, y, z));
            }
        }
    }
    let faces = cuboid_planes()
        .into_iter()
        .enumerate()
        .map(|(i, plane)| BrushFace { plane, material: 10 + i as u64, ..BrushFace::plain() })
        .collect();
    Brush {
        faces,
        vertices,
        polygons: vec![
            vec![4, 6, 7, 5],
            vec![0, 1, 3, 2],
            vec![2, 3, 7, 6],
            vec![0, 4, 5, 1],
            vec![1, 5, 7, 3],
            vec![0, 2, 6, 4],
        ],
    }
}

fn one_brush() -> Brushes {
    let mut brushes = Brushes::new();
    brushes.set(BRUSH, cuboid());
    brushes
}

fn selection(elements: Vec<Element>) -> BrushSelection {
    BrushSelection {
        active_brush: Some(BRUSH),
        subs: vec![BrushSubSelection { brush: BRUSH, elements }],
    }
}

fn text(value: &Brush) -> String {
    format!("{value:?}")
}

#[test]
fn moving_a_vertex_lands_it_and_preserves_faces() {
    let mut brush = cuboid();
    let faces_before = brush.faces.len();
    let v0 = brush.vertices[0];
    let new_pos = Vector3 { x: (f32::from_bits(v0.x) + 0.5).to_bits(), ..v0 };
    let step = BrushMove {
        positions: vec![new_pos],
        planes: cuboid_planes(),
        topology: true,
        rebuilt: None,
    };
    apply_vertex_deltas(&mut brush, &vec![0], &step);
    assert!(
        brush.vertices.iter().any(|v| *v == new_pos),
        "no vertex near {new_pos:?} after move; topology = {:?}",
        brush.vertices
    );
    assert_eq!(brush.faces.len(), faces_before, "face count should not change");
}

#[test]
fn a_brush_without_topology_is_replaced_by_what_was_built() {
    let mut brush = cuboid();
    let before = text(&brush);
    let mut step =
        BrushMove { positions: vec![], planes: vec![], topology: false, rebuilt: None };
    apply_vertex_deltas(&mut brush, &vec![0], &step);
    assert_eq!(text(&brush), before);
    let mut other = cuboid();
    other.faces.pop();
    let expected = text(&other);
    step.rebuilt = Some(other);
    apply_vertex_deltas(&mut brush, &vec![0], &step);
    assert_eq!(text(&brush), expected);
}

fn no_face_drag() -> BrushDragState {
    BrushDragState {
        active: false,
        pending: None,
        extrude_mode: FaceExtrudeMode::Merge,
        quick_action: false,
        start_brush: None,
        start_cursor: vec2(0.0, 0.0),
        drag_face_normal: vec3(0.0, 0.0, 0.0),
        extend_face_normal: vec3(0.0, 0.0, 0.0),
        extend_face_polygon: Vec::new(),
        extend_depth: 0,
        drag_camera: None,
        drag_viewport: None,
    }
}

fn face_editor(edit_mode: EditMode, selection: BrushSelection) -> FaceEditor {
    FaceEditor {
        edit_mode,
        selection,
        box_select: BrushBoxSelectState { pending: None, shift: false },
        drag: no_face_drag(),
        cursor: CursorOverride::Normal,
        brushes: one_brush(),
    }
}

fn press() -> DragInput {
    DragInput {
        modal: false,
        cursor: Some(vec2(5.0, 5.0)),
        hovered_camera: Some(100),
        hovered_viewport: Some(101),
        viewport_cursor: Some(vec2(4.0, 4.0)),
        ctrl: false,
        alt: false,
        shift: false,
        left_down: true,
        left_released: false,
        right_pressed: false,
        travelled: false,
    }
}

fn frame() -> DragInput {
    DragInput { modal: true, travelled: true, ..press() }
}

fn start() -> FaceStart {
    FaceStart {
        world_normal: vec3(0.0, 1.0, 0.0),
        world_polygon: Some(vec![vec3(0.0, 0.0, 0.0), vec3(1.0, 0.0, 0.0), vec3(0.0, 0.0, 1.0)]),
    }
}

fn hit(face: usize, depth: f32) -> Candidate {
    Candidate::face(BRUSH, 4, 4, true, Some(face), depth.to_bits())
}

fn drag(editor: &mut FaceEditor, input: DragInput, math: FaceMath) -> OperatorResult {
    let candidates = vec![hit(0, 3.0), hit(2, 1.0), hit(4, 1.0)];
    editor.brush_face_drag(&input, &candidates, Some(BRUSH), &start(), &math).result
}

#[test]
fn a_dragged_face_follows_and_cancelling_restores_it() {
    let mut editor = face_editor(EditMode::BrushEdit(BrushEditMode::Face), selection(vec![]));
    let before = text(&cuboid());
    assert_eq!(drag(&mut editor, press(), FaceMath::NotVisible), OperatorResult::Running);
    assert_eq!(editor.selection.elements(BRUSH), vec![Element::Face(2)], "the nearest, first");
    assert!(!editor.drag.active);

    let distances: Vec<u32> = (0..6).map(|i| (10.0 + i as f32).to_bits()).collect();
    assert_eq!(drag(&mut editor, frame(), FaceMath::Distances(distances)), OperatorResult::Running);
    assert!(editor.drag.active);
    assert_eq!(editor.cursor, CursorOverride::Grabbing);
    let brush = editor.brushes.get(BRUSH).expect("is there");
    assert_eq!(f32::from_bits(brush.faces[2].plane.distance), 12.0);
    assert_eq!(f32::from_bits(brush.faces[0].plane.distance), 1.0);

    editor.cancel_face_drag();
    assert_eq!(text(&editor.brushes.get(BRUSH).expect("is there")), before);
    assert!(!editor.drag.active);
    assert_eq!(editor.cursor, CursorOverride::Normal);
}

#[test]
fn corners_shared_by_dragged_faces_move_once() {
    let mut editor = face_editor(
        EditMode::BrushEdit(BrushEditMode::Face),
        selection(vec![Element::Face(0), Element::Face(4)]),
    );
    editor.drag.pending = Some(vec2(0.0, 0.0));
    editor.drag.drag_camera = Some(100);
    editor.drag.drag_viewport = Some(101);
    let to: Vec<Vector3> = (0..4).map(|i| vec3(9.0, 0.0, i as f32)).collect();
    let other: Vec<Vector3> = (0..4).map(|i| vec3(0.0, 9.0, i as f32)).collect();
    let math = FaceMath::Rings { corners: vec![to, other], planes: cuboid_planes() };
    assert_eq!(drag(&mut editor, frame(), math), OperatorResult::Running);
    let brush = editor.brushes.get(BRUSH).expect("is there");
    assert_eq!(brush.vertices[5], vec3(9.0, 0.0, 3.0), "moved with the first face");
    assert_eq!(brush.vertices[1], vec3(0.0, 9.0, 0.0), "moved with the second");
    assert_eq!(brush.vertices[0], vec3(-1.0, -1.0, -1.0));
}

#[test]
fn a_press_beside_the_brush_begins_a_box() {
    let mut editor = face_editor(EditMode::BrushEdit(BrushEditMode::Face), selection(vec![]));
    let step = editor.brush_face_drag(
        &press(),
        &vec![Candidate::face(BRUSH, 4, 4, false, Some(1), 1)],
        None,
        &start(),
        &FaceMath::NotVisible,
    );
    assert_eq!(step.result, OperatorResult::Cancelled);
    assert_eq!(editor.box_select.pending, Some(vec2(5.0, 5.0)));
    let ctrl = DragInput { ctrl: true, ..press() };
    drag(&mut editor, ctrl, FaceMath::NotVisible);
    assert_eq!(editor.selection.elements(BRUSH), vec![Element::Face(2)]);
    drag(&mut editor, DragInput { ctrl: true, ..press() }, FaceMath::NotVisible);
    assert!(editor.selection.elements(BRUSH).is_empty(), "a second click takes it out");
}

#[test]
fn an_extrusion_asks_for_a_brush_and_returns_to_the_objects() {
    let mut editor = face_editor(EditMode::Object, BrushSelection::new());
    let alt = DragInput { alt: true, ..press() };
    assert_eq!(drag(&mut editor, alt, FaceMath::NotVisible), OperatorResult::Running);
    assert_eq!(editor.edit_mode, EditMode::BrushEdit(BrushEditMode::Face));
    assert_eq!(
        drag(&mut editor, frame(), FaceMath::Depth(2.5f32.to_bits())),
        OperatorResult::Running
    );
    let release = DragInput { left_down: false, left_released: true, ..frame() };
    let step = editor.brush_face_drag(
        &release,
        &Vec::new(),
        Some(BRUSH),
        &start(),
        &FaceMath::NotVisible,
    );
    assert_eq!(step.result, OperatorResult::Finished);
    let extrude = step.extrude.expect("deep enough");
    assert_eq!(extrude.polygon.len(), 3);
    assert_eq!(f32::from_bits(extrude.depth), 2.5);
    assert_eq!(extrude.normal, vec3(0.0, 1.0, 0.0));
    assert_eq!(editor.edit_mode, EditMode::Object);
    assert!(editor.selection.active_brush.is_none());
    assert_eq!(text(&editor.brushes.get(BRUSH).expect("is there")), text(&cuboid()));
    for (depth, deep) in [(0.01f32, false), (0.011, true), (-0.5, true), (f32::NAN, false)] {
        let mut editor = face_editor(EditMode::Object, BrushSelection::new());
        drag(&mut editor, DragInput { alt: true, ..press() }, FaceMath::NotVisible);
        drag(&mut editor, frame(), FaceMath::Depth(depth.to_bits()));
        let step = editor.brush_face_drag(
            &DragInput { left_down: false, left_released: true, ..frame() },
            &Vec::new(),
            Some(BRUSH),
            &start(),
            &FaceMath::NotVisible,
        );
        assert_eq!(step.extrude.is_some(), deep, "{depth}");
    }
}

#[test]
fn a_face_drag_needs_a_view_and_the_right_mode() {
    let mut editor = face_editor(EditMode::Object, BrushSelection::new());
    let nowhere = DragInput { hovered_camera: None, ..press() };
    assert_eq!(drag(&mut editor, nowhere, FaceMath::NotVisible), OperatorResult::Cancelled);
    let idle = no_face_drag();
    let face = EditMode::BrushEdit(BrushEditMode::Face);
    let trigger = |mode, gizmo, shift, environment: bool| {
        face_drag_invoke_trigger(
            true, &idle, mode, false, false, true, gizmo, shift, false, !environment, false, false,
        )
    };
    assert!(trigger(face, false, false, false));
    assert!(!trigger(face, true, false, true));
    assert!(trigger(EditMode::Object, true, true, true));
    assert!(!trigger(EditMode::Object, false, false, true));
    assert!(!trigger(EditMode::Object, false, true, false));
    assert!(drag_environment_ok(false, false, false));
    assert!(!drag_environment_ok(false, true, false));
    assert!(cursor_over_brush_face(&vec![hit(1, 2.0)]));
    assert!(!cursor_over_brush_face(&vec![Candidate::face(BRUSH, 2, 4, true, Some(1), 1)]));
}

fn no_element_drag() -> ElementDragState {
    ElementDragState {
        active: false,
        pending: None,
        constraint: VertexDragConstraint::Free,
        split_vertex: None,
        start_brush: None,
        start_cursor: vec2(0.0, 0.0),
        start_points: Vec::new(),
        start_all_vertices: Vec::new(),
        brush_captures: Vec::new(),
        drag_camera: None,
        drag_viewport: None,
    }
}

fn element_editor(elements: Vec<Element>) -> ElementEditor {
    ElementEditor {
        selection: selection(elements),
        box_select: BrushBoxSelectState { pending: None, shift: false },
        drag: no_element_drag(),
        cursor: CursorOverride::Normal,
        brushes: one_brush(),
    }
}

fn facts(built: bool) -> Vec<MeshFacts> {
    vec![MeshFacts {
        brush: BRUSH,
        built,
        vertices: cuboid().vertices,
        world: cuboid().vertices,
        authored: 8,
        origin: vec3(0.0, 0.0, 0.0),
    }]
}

fn no_keys() -> AxisKeys {
    AxisKeys { x: false, y: false, z: false }
}

fn vertex(i: usize, distance: f32) -> Candidate {
    Candidate {
        brush: BRUSH,
        hit: true,
        element: Some(Element::Vertex(i)),
        distance: distance.to_bits(),
    }
}

fn vertex_drag(editor: &mut ElementEditor, input: DragInput, built: bool) -> OperatorResult {
    editor.brush_vertex_drag(
        &input,
        &no_keys(),
        &vec![vertex(3, 8.0), vertex(6, 4.0), vertex(1, 25.0)],
        &vec![SplitCandidate {
            position: vec3(0.0, 1.0, 1.0),
            visible: true,
            distance: 30.0f32.to_bits(),
        }],
        &vec![SplitCandidate {
            position: vec3(0.0, 1.0, 0.0),
            visible: true,
            distance: 6.0f32.to_bits(),
        }],
        &facts(built),
        vec3(0.5, 1.0, 0.5),
    )
}

#[test]
fn a_corner_is_dragged_and_cancelling_restores_it() {
    let mut editor = element_editor(vec![]);
    assert_eq!(vertex_drag(&mut editor, press(), true), OperatorResult::Running);
    assert_eq!(editor.selection.elements(BRUSH), vec![Element::Vertex(6)]);
    assert_eq!(vertex_drag(&mut editor, frame(), false), OperatorResult::Running);
    assert!(!editor.drag.active, "without a mesh the drag waits");
    assert_eq!(vertex_drag(&mut editor, frame(), true), OperatorResult::Running);
    assert!(editor.drag.active);
    assert_eq!(editor.drag.start_points, vec![(6, vec3(1.0, 1.0, -1.0))]);
    assert_eq!(editor.drag.brush_captures.len(), 1);

    editor.apply_shared_drag(Some(vec![BrushMove {
        positions: vec![vec3(2.0, 2.0, -1.0)],
        planes: cuboid_planes(),
        topology: true,
        rebuilt: None,
    }]));
    assert_eq!(editor.brushes.get(BRUSH).expect("is there").vertices[6], vec3(2.0, 2.0, -1.0));
    let right = DragInput { right_pressed: true, ..frame() };
    assert_eq!(vertex_drag(&mut editor, right, true), OperatorResult::Cancelled);
    editor.cancel_element_drag();
    assert_eq!(text(&editor.brushes.get(BRUSH).expect("is there")), text(&cuboid()));
    assert!(editor.drag.brush_captures.is_empty());
}

#[test]
fn shift_adds_a_corner_in_the_middle_of_a_face() {
    let mut editor = element_editor(vec![]);
    let shift = DragInput { shift: true, ..press() };
    assert_eq!(vertex_drag(&mut editor, DragInput { shift: true, ..press() }, false), OperatorResult::Cancelled);
    assert_eq!(vertex_drag(&mut editor, shift, true), OperatorResult::Running);
    assert_eq!(editor.drag.split_vertex, Some(vec3(0.0, 1.0, 0.0)));
    assert_eq!(editor.selection.elements(BRUSH), vec![Element::Vertex(8)]);
    assert_eq!(vertex_drag(&mut editor, frame(), true), OperatorResult::Running);
    assert_eq!(editor.drag.start_all_vertices.len(), 9);
    assert_eq!(editor.drag.brush_captures[0].start_world, vec![vec3(0.5, 1.0, 0.5)]);
}

#[test]
fn an_edge_moves_both_of_its_ends() {
    let mut editor = element_editor(vec![Element::Edge(0, 1), Element::Edge(1, 3)]);
    editor.drag.pending = Some(vec2(0.0, 0.0));
    editor.drag.drag_camera = Some(100);
    editor.drag.drag_viewport = Some(101);
    let captures = editor.capture_edit_brushes(ElementKind::Edge, &facts(true));
    assert_eq!(captures[0].indices, vec![0, 1, 3], "each corner once");
    assert!(editor.capture_edit_brushes(ElementKind::Edge, &facts(false)).is_empty());
    assert!(editor.capture_edit_brushes(ElementKind::Vertex, &facts(true)).is_empty());
    assert_eq!(
        editor.brush_edge_drag(&frame(), &no_keys(), &Vec::new(), &facts(true)),
        OperatorResult::Running
    );
    assert!(editor.drag.active);
    let x = AxisKeys { x: true, y: false, z: false };
    editor.brush_edge_drag(&frame(), &x, &Vec::new(), &facts(true));
    assert_eq!(editor.drag.constraint, VertexDragConstraint::AxisX);
    let release = DragInput { left_released: true, ..frame() };
    assert_eq!(
        editor.brush_edge_drag(&release, &no_keys(), &Vec::new(), &facts(true)),
        OperatorResult::Finished
    );
    assert!(!editor.drag.active);
}

#[test]
fn an_axis_chosen_twice_is_free_again() {
    let once = toggle_constraint(VertexDragConstraint::Free, VertexDragConstraint::AxisY);
    assert_eq!(once, VertexDragConstraint::AxisY);
    assert_eq!(
        toggle_constraint(once, VertexDragConstraint::AxisY),
        VertexDragConstraint::Free
    );
    assert_eq!(
        toggle_constraint(once, VertexDragConstraint::AxisZ),
        VertexDragConstraint::AxisZ
    );
}

#[test]
fn captures_put_back_their_brushes() {
    let editor = element_editor(vec![Element::Vertex(0)]);
    let captures = editor.capture_edit_brushes(ElementKind::Vertex, &facts(true));
    let mut brushes = Brushes::new();
    let mut changed = cuboid();
    changed.vertices[0] = vec3(5.0, 5.0, 5.0);
    brushes.set(BRUSH, changed);
    restore_captures(&captures, &mut brushes);
    assert_eq!(text(&brushes.get(BRUSH).expect("is there")), text(&cuboid()));
    let vertex = EditMode::BrushEdit(BrushEditMode::Vertex);
    let idle = no_element_drag();
    let trigger = |edit_mode, typing| {
        element_drag_invoke_trigger(
            BrushEditMode::Vertex, true, edit_mode, &idle, typing, true, false, false, false,
        )
    };
    assert!(trigger(vertex, false));
    assert!(!trigger(vertex, true));
    assert!(!trigger(EditMode::Object, false));
}

#[test]
fn a_drawn_brush_takes_the_last_material() {
    let mut world = SceneWorld::new();
    let mut brushes = Brushes::new();
    assert!(!spawn_drawn_brush(&mut world, &mut brushes, None, Some(3), 1));
    assert!(!world.is_alive(1));
    let drawn =
        DrawnBrush { brush: cuboid(), transform: BsnStructData::empty(TRANSFORM_TYPE_PATH) };
    assert!(spawn_drawn_brush(&mut world, &mut brushes, Some(drawn), Some(3), 1));
    let node = world.document.ast_for(1).expect("linked");
    match world.document.get_bsn_field(node, BRUSH_TYPE_PATH, "") {
        Some(BsnValue::Struct(d)) => match &d.fields[0].value {
            BsnValue::Brush(b) => assert!(b.faces.iter().all(|f| f.material == 3)),
            other => panic!("no brush: {other:?}"),
        },
        other => panic!("the document keeps the brush: {other:?}"),
    }
    assert!(world
        .document
        .component_type_paths(node)
        .contains(&TRANSFORM_TYPE_PATH.to_string()));
    assert_eq!(world.name(1).as_deref(), Some("Brush"));
    assert!(world.marks(1).brush);
    let brush = brushes.get(1).expect("drawn");
    assert!(brush.faces.iter().all(|f| f.material == 3));
    let mut kept = cuboid();
    apply_last_material(&mut kept, None);
    assert_eq!(text(&kept), text(&cuboid()));
    assert!(shape_to_append(None, Some(cuboid()), Some(3)).is_none());
    assert!(shape_to_append(Some(1), Some(cuboid()), None).is_some());
}

#[test]
fn only_solids_are_appended() {
    let union = |vertices, faces| UnionedBrush { vertices, faces, brush: cuboid() };
    let mut world = SceneWorld::new();
    let mut brushes = Brushes::new();
    let mut flat = cuboid();
    flat.faces.pop();
    brushes.set(BRUSH, flat);
    append_to_brush(&mut world, &mut brushes, BRUSH, Some(union(3, 6)));
    append_to_brush(&mut world, &mut brushes, BRUSH, None);
    append_to_brush(&mut world, &mut brushes, 99, Some(union(8, 6)));
    assert_eq!(brushes.get(BRUSH).expect("is there").faces.len(), 5);
    append_to_brush(&mut world, &mut brushes, BRUSH, Some(union(4, 4)));
    assert_eq!(brushes.get(BRUSH).expect("is there").faces.len(), 6);
}

#[test]
fn outlines_make_solids() {
    assert!(makes_prism(3, true));
    assert!(!makes_prism(2, true));
    assert!(!makes_prism(4, false));
    assert!(makes_cutter(3, true, true));
    assert!(!makes_cutter(3, true, false), "an outward drag cuts nothing");
    let corners = vec![vec3(0.0, 0.0, 0.0)];
    let footprint = vec![vec3(1.0, 0.0, 0.0), vec3(2.0, 0.0, 0.0)];
    assert_eq!(active_draw_polygon(&corners, &footprint), corners);
    assert_eq!(active_draw_polygon(&Vec::new(), &footprint), footprint);
}

#[test]
fn a_created_brush_is_found_again_by_its_id() {
    let transform = || BsnStructData::empty(TRANSFORM_TYPE_PATH);
    let mut world = SceneWorld::new();
    world.insert(1, EntityRecord::bare(Marks::none()));
    let mut record = EntityRecord::bare(Marks::none());
    record.parent = Some(1);
    record.name = Some("Wall".to_string());
    world.insert(2, record);
    let mut brushes = Brushes::new();
    brushes.set(2, cuboid());
    let mut known: Vec<(u64, Entity)> = Vec::new();
    assert_eq!(scene_node_id_of(&mut known, 2, 40), 40);
    assert_eq!(scene_node_id_of(&mut known, 2, 41), 40, "an id is kept");
    let data = brush_data_from_entity(&world, &brushes, &mut known, 2, transform(), (50, 51));
    assert_eq!((data.node_id, data.parent_node_id), (40, Some(51)));
    assert_eq!(data.name, "Wall");
    let mut command = CreateBrushCommand { data };
    assert_eq!(command.description(), "Draw brush");
    command.undo(&mut world, &mut brushes, &known);
    assert!(!world.is_alive(2) && !brushes.contains(2));
    command.execute(&mut world, &mut brushes, &mut known, 9);
    assert!(world.is_alive(9));
    assert_eq!(world.parent(9), Some(1));
    assert_eq!(world.name(9).as_deref(), Some("Wall"));
    assert_eq!(text(&brushes.get(9).expect("created")), text(&cuboid()));
    assert!(world.document.ast_for(9).is_some());
    command.undo(&mut world, &mut brushes, &known);
    assert!(!brushes.contains(9));
    assert!(world.document.nodes.is_empty(), "the document is as before");
}

#[test]
fn a_changed_brush_is_changed_back() {
    let mut new_brush = cuboid();
    new_brush.faces.pop();
    let changed = text(&new_brush);
    let mut command =
        SetBrush { entity: BRUSH, old_brush: cuboid(), new_brush, label: "Clip".to_string() };
    let mut brushes = one_brush();
    command.execute(&mut brushes);
    assert_eq!(text(&brushes.get(BRUSH).expect("is there")), changed);
    command.undo(&mut brushes);
    assert_eq!(text(&brushes.get(BRUSH).expect("is there")), text(&cuboid()));
    let mut none = Brushes::new();
    command.execute(&mut none);
    assert!(!none.contains(BRUSH));
}

fn clip_state() -> ClipState {
    let mut state = ClipState::default();
    state.preview_plane = Some(plane(1.0, 0.0, 0.0, 0.0));
    state
}

#[test]
fn clip_points_and_modes() {
    let clip = EditMode::BrushEdit(BrushEditMode::Clip);
    let mut state = ClipState::default();
    assert_eq!(
        clip_place_point(&mut state, None, Some(vec3(1.0, 0.0, 0.0))),
        OperatorResult::Cancelled
    );
    assert_eq!(clip_place_point(&mut state, Some(BRUSH), None), OperatorResult::Cancelled);
    for _ in 0..3 {
        assert!(can_place_point(clip, false, Some(BRUSH), &state));
        assert!(place_point_invoke_trigger(true, clip, false, &state));
        clip_place_point(&mut state, Some(BRUSH), Some(vec3(1.0, 0.0, 0.0)));
    }
    assert!(!can_place_point(clip, false, Some(BRUSH), &state), "three points are enough");
    assert!(!can_apply_or_cycle(clip, false, &state));
    state.preview_plane = Some(plane(1.0, 0.0, 0.0, 0.0));
    assert!(can_apply_or_cycle(clip, false, &state));
    let mut seen = Vec::new();
    for _ in 0..3 {
        clip_cycle_mode(&mut state);
        seen.push(state.mode);
    }
    assert_eq!(seen, vec![ClipMode::KeepBack, ClipMode::Split, ClipMode::KeepFront]);
    assert!(can_clear(clip, false, &state, false));
    assert!(!can_clear(clip, false, &state, true));
    clip_clear(&mut state);
    assert!(state.points.is_empty());
    assert!(!can_clear(clip, false, &state, false));
    let mut ctx = ExtensionContext::new();
    add_to_extension(&mut ctx);
    assert!(ctx.bindings.iter().all(|b| ctx.operators.contains(&b.operator)));
}

fn slot(material_idx: u32) -> SourceSlot {
    SourceSlot { material_idx }
}

fn geometry() -> MeshGeometry {
    MeshGeometry { vertices: cuboid().vertices, polygons: cuboid().polygons }
}

#[test]
fn the_cap_looks_like_the_first_face_that_is_left() {
    let cut = BisectedMesh {
        sources: vec![slot(6), slot(4), slot(2)],
        cap_material_idx: 6,
        geometry: geometry(),
    };
    let faces = bisect_slots(&cuboid(), &cut);
    assert_eq!(faces.iter().map(|f| f.material).collect::<Vec<_>>(), vec![12, 14, 12]);
    assert_eq!(faces.iter().map(|f| f.is_cap).collect::<Vec<_>>(), vec![false, false, true]);
    assert_eq!(faces[2].uv_u_axis, Vector3 { x: 0, y: 0, z: 0 });
    let alone =
        BisectedMesh { sources: vec![slot(6)], cap_material_idx: 6, geometry: geometry() };
    assert_eq!(bisect_slots(&cuboid(), &alone)[0].material, 15, "else like the last face");
}

#[test]
fn a_cut_that_leaves_nothing_gives_no_brush() {
    let frames = vec![FaceFrame {
        plane: plane(1.0, 0.0, 0.0, 0.5),
        uv_u_axis: vec3(0.0, 1.0, 0.0),
        uv_v_axis: vec3(0.0, 0.0, 1.0),
    }];
    assert!(bisect_brush(&cuboid(), None, &frames).is_none());
    let empty = BisectedMesh {
        sources: vec![slot(0)],
        cap_material_idx: 6,
        geometry: MeshGeometry { vertices: vec![], polygons: vec![] },
    };
    assert!(bisect_brush(&cuboid(), Some(empty), &frames).is_none());
    let cut = BisectedMesh { sources: vec![slot(0)], cap_material_idx: 6, geometry: geometry() };
    let brush = bisect_brush(&cuboid(), Some(cut), &frames).expect("something is left");
    assert_eq!(brush.faces[0].plane, plane(1.0, 0.0, 0.0, 0.5));
    assert_eq!(brush.faces[0].uv_u_axis, vec3(0.0, 1.0, 0.0), "a face without axes gets them");
    assert_eq!(brush.vertices.len(), 8);
    let mut mapped = cuboid();
    mapped.faces[0].uv_u_axis = vec3(0.0, 0.0, 1.0);
    mapped.faces[0].uv_v_axis = vec3(0.0, 1.0, 0.0);
    let cut = BisectedMesh {
        sources: vec![slot(0), slot(6)],
        cap_material_idx: 6,
        geometry: geometry(),
    };
    let both = vec![frames[0], frames[0]];
    let brush = bisect_brush(&mapped, Some(cut), &both).expect("something is left");
    assert_eq!(brush.faces[0].uv_u_axis, vec3(0.0, 0.0, 1.0), "a face keeps its axes");
    assert_eq!(brush.faces[1].uv_u_axis, vec3(0.0, 1.0, 0.0), "the cap gets those of its plane");
}

/// One side of a cut that leaves so many corners.
fn half(corners: usize) -> HalfCut {
    let mut geometry = geometry();
    geometry.vertices.truncate(corners);
    let frame = FaceFrame {
        plane: plane(0.0, 1.0, 0.0, 0.25),
        uv_u_axis: vec3(1.0, 0.0, 0.0),
        uv_v_axis: vec3(0.0, 0.0, 1.0),
    };
    HalfCut {
        mesh: Some(BisectedMesh { sources: vec![slot(2), slot(6)], cap_material_idx: 6, geometry }),
        frames: vec![frame, frame],
        uv_u_axis: vec3(0.0, 1.0, 0.0),
        uv_v_axis: vec3(0.0, 0.0, 1.0),
    }
}

fn parts() -> ClipParts {
    ClipParts { front: half(7), back: half(6) }
}

/// What a cut works on.
struct Clip {
    state: ClipState,
    world: SceneWorld,
    brushes: Brushes,
    history: CommandHistory,
    known: Vec<(u64, Entity)>,
}

impl Clip {
    fn of(brush: Brush, mode: ClipMode) -> Clip {
        let mut world = SceneWorld::new();
        world.insert(BRUSH, EntityRecord::bare(Marks::none()));
        let mut brushes = Brushes::new();
        brushes.set(BRUSH, brush);
        Clip {
            state: ClipState { mode, ..clip_state() },
            world,
            brushes,
            history: CommandHistory::new(),
            known: Vec::new(),
        }
    }

    fn apply(&mut self, parts: ClipParts, placed: bool) -> OperatorResult {
        let spawn = SplitSpawn {
            in_world: BsnStructData::empty(TRANSFORM_TYPE_PATH),
            entity: 8,
            fresh: (60, 61),
        };
        clip_apply(
            &mut self.state,
            Some(BRUSH),
            &mut self.world,
            &mut self.brushes,
            &mut self.history,
            &mut self.known,
            parts,
            if placed { Some(spawn) } else { None },
        )
    }
}

#[test]
fn a_clip_cuts_the_brush_or_adds_the_plane_to_it() {
    let mut clip = Clip::of(cuboid(), ClipMode::KeepBack);
    let cut_by = clip.state.preview_plane.expect("a plane is shown");
    clip.apply(parts(), true);
    let brush = clip.brushes.get(BRUSH).expect("is there");
    assert_eq!(brush.faces.iter().map(|f| f.material).collect::<Vec<_>>(), vec![12, 12]);
    assert_eq!(brush.faces.iter().map(|f| f.is_cap).collect::<Vec<_>>(), vec![false, true]);
    assert_eq!(brush.faces[0].plane, plane(0.0, 1.0, 0.0, 0.25));

    let mut bare = cuboid();
    bare.polygons.clear();
    for (mode, sign) in [(ClipMode::KeepFront, 1.0), (ClipMode::KeepBack, -1.0)] {
        let mut clip = Clip::of(bare.copy(), mode);
        clip.apply(parts(), true);
        let brush = clip.brushes.get(BRUSH).expect("is there");
        assert_eq!(brush.faces.len(), 7);
        let added = brush.faces[6];
        let turned = |bits: u32| (f32::from_bits(bits) * sign).to_bits();
        assert_eq!(added.plane.normal.x, turned(cut_by.normal.x));
        assert_eq!(added.plane.normal.y, turned(cut_by.normal.y));
        assert_eq!(added.plane.distance, turned(cut_by.distance));
        assert_eq!(added.uv_u_axis, vec3(0.0, 1.0, 0.0));
        assert_eq!(added.material, DEFAULT_MATERIAL);
    }
}

#[test]
fn a_clip_keeps_the_chosen_part() {
    for (mode, left) in [(ClipMode::KeepFront, 7), (ClipMode::KeepBack, 6), (ClipMode::Split, 7)] {
        let mut clip = Clip::of(cuboid(), mode);
        assert_eq!(clip.apply(parts(), true), OperatorResult::Finished);
        assert_eq!(clip.brushes.get(BRUSH).expect("is there").vertices.len(), left);
        assert!(clip.state.preview_plane.is_none());
        assert_eq!(clip.history.undo_stack.len(), 1);
        match clip.history.undo_stack.last() {
            Some(EditorCommand::Engine(EngineCommand::SetBrush(set))) => {
                assert_ne!(mode, ClipMode::Split);
                assert_eq!(set.old_brush.vertices.len(), 8);
                assert!(!clip.world.is_alive(8));
            }
            Some(EditorCommand::Group(group)) => {
                assert_eq!(mode, ClipMode::Split);
                assert_eq!(group.label, "Split brush");
                assert_eq!(group.commands.len(), 2);
                assert_eq!(clip.brushes.get(8).expect("split off").vertices.len(), 6);
                assert_eq!(clip.known, vec![(60, 8)]);
                assert!(clip.world.document.ast_for(8).is_some());
            }
            other => panic!("no clip: {other:?}"),
        }
    }
}

#[test]
fn a_failed_clip_changes_nothing() {
    let mut clip = Clip::of(cuboid(), ClipMode::KeepFront);
    assert_eq!(clip.apply(parts(), false), OperatorResult::Cancelled);
    assert!(clip.history.undo_stack.is_empty());
    let failed = ClipParts { front: HalfCut { mesh: None, ..half(7) }, ..parts() };
    assert_eq!(clip.apply(failed, true), OperatorResult::Cancelled);
    assert!(clip.state.preview_plane.is_some());
    assert_eq!(text(&clip.brushes.get(BRUSH).expect("is there")), text(&cuboid()));
    let mut split = Clip::of(cuboid(), ClipMode::Split);
    let failed = ClipParts { back: HalfCut { mesh: None, ..half(6) }, ..parts() };
    assert_eq!(split.apply(failed, true), OperatorResult::Cancelled);
    assert!(split.history.undo_stack.is_empty() && !split.world.is_alive(8));
}

#[test]
fn the_back_of_a_split_becomes_a_brush() {
    let mut world = SceneWorld::new();
    world.insert(BRUSH, EntityRecord::bare(Marks::none()));
    let mut brushes = one_brush();
    let mut known: Vec<(u64, Entity)> = Vec::new();
    let set = SetBrush {
        entity: BRUSH,
        old_brush: cuboid(),
        new_brush: cuboid(),
        label: "Clip".to_string(),
    };
    let mut history = CommandHistory::new();
    queue_split_spawn(
        &mut world,
        &mut brushes,
        &mut history,
        &mut known,
        SplitPart { set, back: cuboid() },
        SplitSpawn {
            in_world: BsnStructData::empty(TRANSFORM_TYPE_PATH),
            entity: 8,
            fresh: (60, 61),
        },
    );
    match history.undo_stack.last() {
        Some(EditorCommand::Group(g)) => {
            assert_eq!(g.label, "Split brush");
            assert!(matches!(
                &g.commands[0],
                EditorCommand::Engine(EngineCommand::SetBrush(s)) if s.entity == BRUSH
            ));
            assert!(matches!(
                &g.commands[1],
                EditorCommand::Engine(EngineCommand::CreateBrush(c)) if c.data.node_id == 60
            ));
        }
        other => panic!("no group: {other:?}"),
    }
    let node = world.document.ast_for(8).expect("linked");
    assert!(world.document.component_type_paths(node).contains(&BRUSH_TYPE_PATH.to_string()));
    assert!(world.is_alive(8));
    assert!(brushes.contains(8));
    assert_eq!(known, vec![(60, 8)]);
}

fn request() -> MeshRequest {
    MeshRequest {
        entity: BRUSH,
        live: None,
        modifiers: Vec::new(),
        children: vec![(70, true), (71, false)],
        preview: false,
        selected: false,
        parent_selected: false,
    }
}

fn palette() -> BrushMaterialPalette {
    BrushMaterialPalette {
        materials: vec![1],
        preview_materials: vec![2],
        default_material: 3,
        default_selected_material: 4,
        x_ray_material: 5,
        x_ray_selected_material: 6,
    }
}

#[test]
fn enabled_modifiers_are_evaluated() {
    let mut with = request();
    with.modifiers = vec![
        ModifierEntry { modifier: 20, enabled: false },
        ModifierEntry { modifier: 21, enabled: true },
    ];
    let from_planes = MeshGeometry { vertices: vec![], polygons: vec![] };
    let (base, enabled) = geometry_to_evaluate(&cuboid(), &with, &from_planes);
    assert_eq!(base.vertices.len(), 8);
    assert_eq!(enabled, vec![21]);
    let mut bare = cuboid();
    bare.polygons.clear();
    let (base, _) = geometry_to_evaluate(&bare, &with, &from_planes);
    assert!(base.vertices.is_empty(), "a brush without topology is built from its planes");
}

#[test]
fn a_mesh_is_built_in_chunks() {
    let chunks = vec![
        BrushChunk { material: DEFAULT_MATERIAL, face_of_tri: vec![0, 0] },
        BrushChunk { material: 12, face_of_tri: vec![2] },
    ];
    let built = regenerate_brush_meshes(
        &cuboid(),
        &request(),
        &MeshGeometry { vertices: vec![], polygons: vec![] },
        None,
        &palette(),
        &chunks,
        &vec![80, 81],
    );
    assert_eq!(built.despawned, vec![70], "chunks from before go");
    assert_eq!(built.chunks.len(), 2);
    assert!(built.chunks[0].uses_default_material);
    assert!(!built.chunks[0].has_shadows(), "the shadow comes with a material");
    assert_eq!(built.chunks[0].material, 3);
    assert_eq!(built.chunks[1].material, 12);
    assert_eq!(built.cache.chunk_entities, vec![80, 81]);
    assert_eq!(built.cache.face_polygons.len(), 6);
    assert!(built.cache.face_source.is_empty(), "without modifiers every face is its own source");
    assert_eq!(built.cache.authored_face(4), Some(4));
    assert_eq!(built.cache.base_vertices.len(), 8, "the topology of the brush");
}

#[test]
fn source_maps_point_into_the_base() {
    let evaluated = |face: usize, vertex: usize| Evaluated {
        geometry: MeshGeometry { vertices: vec![vec3(0.0, 0.0, 0.0)], polygons: vec![vec![0]] },
        faces: vec![BrushFace::plain()],
        face_source: vec![Some(face)],
        vert_source: vec![Some(vertex)],
    };
    assert!(source_maps_valid(&evaluated(5, 0), &geometry()));
    assert!(!source_maps_valid(&evaluated(6, 0), &geometry()));
    assert!(!source_maps_valid(&evaluated(5, 1), &geometry()));
}

#[test]
fn chunks_show_the_material_of_their_state() {
    let brushes = |selected| {
        vec![ShownBrush {
            chunk_entities: vec![80, 81],
            preview: false,
            selected,
            parent_selected: false,
        }]
    };
    let mut chunks = vec![
        ShownChunk { entity: 80, uses_default_material: true, material: 3, shown: 0 },
        ShownChunk { entity: 81, uses_default_material: false, material: 12, shown: 0 },
    ];
    ensure_brush_chunk_materials(&palette(), false, &brushes(false), &mut chunks);
    assert_eq!((chunks[0].shown, chunks[1].shown), (3, 12));
    ensure_brush_chunk_materials(&palette(), false, &brushes(true), &mut chunks);
    assert_eq!((chunks[0].shown, chunks[1].shown), (4, 12));
    ensure_brush_chunk_materials(&palette(), true, &brushes(false), &mut chunks);
    assert_eq!((chunks[0].shown, chunks[1].shown), (5, 5));
    ensure_brush_chunk_materials(&palette(), false, &brushes(false), &mut chunks);
    assert_eq!((chunks[0].shown, chunks[1].shown), (3, 12), "looking through is undone");
}

#[test]
fn previews_follow_the_drag() {
    let change = sync_brush_preview(&vec![1, 2], true, Some(2), Some(3));
    assert_eq!((change.unmark, change.mark), (vec![1], None));
    let change = sync_brush_preview(&vec![1, 2], false, Some(2), Some(3));
    assert_eq!((change.unmark, change.mark), (vec![1, 2], Some(3)));
    let change = sync_brush_preview(&vec![1], false, Some(2), None);
    assert_eq!((change.unmark, change.mark), (vec![1], None));
    let brushes = one_brush();
    assert_eq!(mark_brushes_changed_on_modifier_removal(&vec![1, BRUSH], &brushes), vec![BRUSH]);
}

fn recentered() -> Recentered {
    let mut brush = cuboid();
    brush.vertices[0] = vec3(0.0, 0.0, 0.0);
    Recentered {
        brush,
        transform: BsnStructData::empty(TRANSFORM_TYPE_PATH),
    }
}

#[test]
fn origins_are_recentered_between_drags() {
    let mut world = SceneWorld::new();
    world.insert(BRUSH, EntityRecord::bare(Marks::none()));
    let candidate = |has_modifiers| RecenterCandidate {
        entity: BRUSH,
        has_modifiers,
        recentered: Some(recentered()),
    };
    let mut brushes = one_brush();
    recenter_brush_origins(&mut brushes, &mut world, true, &vec![candidate(false)]);
    recenter_brush_origins(&mut brushes, &mut world, false, &vec![candidate(true)]);
    assert_eq!(text(&brushes.get(BRUSH).expect("is there")), text(&cuboid()));
    recenter_brush_origins(&mut brushes, &mut world, false, &vec![candidate(false)]);
    assert_eq!(brushes.get(BRUSH).expect("is there").vertices[0], vec3(0.0, 0.0, 0.0));
}

#[test]
fn default_materials_have_their_looks() {
    let color = |red: f32| ColorBits {
        red: red.to_bits(),
        green: 0,
        blue: 0,
        alpha: 1.0f32.to_bits(),
    };
    let colors = DefaultColors {
        default: color(0.1),
        selected: color(0.2),
        x_ray: color(0.3),
        x_ray_selected: color(0.4),
    };
    let looks = setup_default_materials(&vec![color(0.5), color(0.6)], &colors);
    assert_eq!((looks.materials.len(), looks.preview_materials.len()), (2, 2));
    assert_eq!(looks.materials[1].base_color.red, 0.6f32.to_bits());
    assert_eq!(looks.default_selected_material.base_color.red, 0.2f32.to_bits());
    assert!(looks.x_ray_material.unlit);
    assert!(!looks.materials[0].blended);
    assert!(looks.preview_materials[0].blended);
    assert_eq!(looks.default_material.grid_tiles, Some(2.0f32.to_bits()));
}
