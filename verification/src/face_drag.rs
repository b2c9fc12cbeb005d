//! Dragging the faces of brushes: picking a face, pushing or pulling it, and extruding a new brush
//! from it.
use vstd::prelude::*;
use crate::brush::{brush_of, copy_list, Brush, BrushFace, BrushPlane, BrushView, Brushes, Vector2, Vector3};
use crate::brush_edit::{
    is_nearest, law_elements_written, law_first_of_the_nearest_is_picked,
    law_only_element_of_its_kind, law_toggled_element_is_selected, nearest, of_brush, of_edited,
    of_kind, pick_edited, pick_on, toggled, with_only, BrushEditMode,
    BrushSelection, Candidate, EditMode, Element, ElementKind, SelectionView, ANY_DISTANCE,
};
use crate::operators::OperatorResult;
use crate::seqs::lemma_filter_contains;
use crate::value::Entity;

verus! {

/// What a dragged face does.
#[derive(Clone, Copy, Debug, PartialEq, Eq, Structural)]
pub enum FaceExtrudeMode {
    /// The face moves, and the brush with it.
    Merge,
    /// A new brush grows from the face.
    Extend,
}

/// The shape of the pointer.
#[derive(Clone, Copy, Debug, PartialEq, Eq, Structural)]
pub enum CursorOverride {
    Normal,
    Grabbing,
    /// Set by something else.
    Other,
}

impl CursorOverride {
    pub open spec fn released(self) -> CursorOverride {
        if self == CursorOverride::Grabbing {
            CursorOverride::Normal
        } else {
            self
        }
    }

    /// The shape after a drag ended: a shape that something else set stays.
    pub fn clear_grab_cursor(self) -> (r: CursorOverride)
        ensures
            r == self.released(),
    {
        if self == CursorOverride::Grabbing {
            CursorOverride::Normal
        } else {
            self
        }
    }
}

/// A press that the box selection may take over.
#[derive(Clone, Copy, Debug, PartialEq, Eq, Structural)]
pub struct BrushBoxSelectState {
    pub pending: Option<Vector2>,
    pub shift: bool,
}

/// A drag of a face, from the press on.
#[derive(Debug)]
pub struct BrushDragState {
    pub active: bool,
    /// Where the press was, until the pointer moved far enough.
    pub pending: Option<Vector2>,
    pub extrude_mode: FaceExtrudeMode,
    /// Begun while whole entities are edited, and ending there again.
    pub quick_action: bool,
    pub start_brush: Option<Brush>,
    pub start_cursor: Vector2,
    pub drag_face_normal: Vector3,
    pub extend_face_normal: Vector3,
    pub extend_face_polygon: Vec<Vector3>,
    pub extend_depth: u32,
    pub drag_camera: Option<Entity>,
    pub drag_viewport: Option<Entity>,
}

/// What a [`BrushDragState`] stands for.
#[verifier::ext_equal]
pub ghost struct FaceDragView {
    pub active: bool,
    pub pending: Option<Vector2>,
    pub extrude_mode: FaceExtrudeMode,
    pub quick_action: bool,
    pub start_brush: Option<BrushView>,
    pub start_cursor: Vector2,
    pub drag_face_normal: Vector3,
    pub extend_face_normal: Vector3,
    pub extend_face_polygon: Seq<Vector3>,
    pub extend_depth: u32,
    pub drag_camera: Option<Entity>,
    pub drag_viewport: Option<Entity>,
}

impl View for BrushDragState {
    type V = FaceDragView;

    open spec fn view(&self) -> FaceDragView {
        FaceDragView {
            active: self.active,
            pending: self.pending,
            extrude_mode: self.extrude_mode,
            quick_action: self.quick_action,
            start_brush: brush_of(self.start_brush),
            start_cursor: self.start_cursor,
            drag_face_normal: self.drag_face_normal,
            extend_face_normal: self.extend_face_normal,
            extend_face_polygon: self.extend_face_polygon@,
            extend_depth: self.extend_depth,
            drag_camera: self.drag_camera,
            drag_viewport: self.drag_viewport,
        }
    }
}

/// The state that dragging faces reads and changes.
#[derive(Debug)]
pub struct FaceEditor {
    pub edit_mode: EditMode,
    pub selection: BrushSelection,
    pub box_select: BrushBoxSelectState,
    pub drag: BrushDragState,
    pub cursor: CursorOverride,
    pub brushes: Brushes,
}

/// What a [`FaceEditor`] stands for.
#[verifier::ext_equal]
pub ghost struct FaceEditorView {
    pub edit_mode: EditMode,
    pub selection: SelectionView,
    pub box_select: BrushBoxSelectState,
    pub drag: FaceDragView,
    pub cursor: CursorOverride,
    pub brushes: Map<Entity, BrushView>,
}

impl View for FaceEditor {
    type V = FaceEditorView;

    open spec fn view(&self) -> FaceEditorView {
        FaceEditorView {
            edit_mode: self.edit_mode,
            selection: self.selection@,
            box_select: self.box_select,
            drag: self.drag@,
            cursor: self.cursor,
            brushes: self.brushes@,
        }
    }
}

/// The pointer and the keys in one frame.
#[derive(Clone, Copy, Debug, PartialEq, Eq, Structural)]
pub struct DragInput {
    /// Whether the drag has begun in an earlier frame.
    pub modal: bool,
    /// Where the pointer is in the window.
    pub cursor: Option<Vector2>,
    pub hovered_camera: Option<Entity>,
    pub hovered_viewport: Option<Entity>,
    /// Where the pointer is in the view of the drag, if that view can be had.
    pub viewport_cursor: Option<Vector2>,
    pub ctrl: bool,
    pub alt: bool,
    pub shift: bool,
    pub left_down: bool,
    pub left_released: bool,
    pub right_pressed: bool,
    /// Whether the pointer moved far enough from the press.
    pub travelled: bool,
}

impl DragInput {
    /// The camera and the viewport that the hovered panel has, if both are there.
    pub open spec fn hovered(self) -> Option<(Entity, Entity)> {
        match (self.hovered_camera, self.hovered_viewport) {
            (Some(c), Some(v)) => Some((c, v)),
            _ => None,
        }
    }

    /// The camera and the viewport of a drag: at first those under the pointer, then those that it
    /// began in.
    pub open spec fn view_for(self, camera: Option<Entity>, viewport: Option<Entity>) -> Option<
        (Entity, Entity),
    > {
        if !self.modal {
            self.hovered()
        } else {
            match (camera, viewport) {
                (Some(c), Some(v)) => Some((c, v)),
                _ => self.hovered(),
            }
        }
    }

    /// The camera and the viewport of a drag.
    pub fn drag_view(&self, camera: Option<Entity>, viewport: Option<Entity>) -> (r: Option<
        (Entity, Entity),
    >)
        ensures
            r == self.view_for(camera, viewport),
    {
        if self.modal {
            if let (Some(c), Some(v)) = (camera, viewport) {
                return Some((c, v));
            }
        }
        match (self.hovered_camera, self.hovered_viewport) {
            (Some(c), Some(v)) => Some((c, v)),
            _ => None,
        }
    }
}

/// What the engine computed for the dragged face in this frame.
#[derive(Debug)]
pub enum FaceMath {
    /// The brush has no mesh, or the mesh no such face.
    NoFace,
    /// The face has no corners.
    NoCorners,
    /// The face cannot be projected onto the view.
    NotVisible,
    /// The new distance of each plane, as the face of the brush at the start has it.
    Distances(Vec<u32>),
    /// The moved corners of each dragged face, and the new planes of all faces.
    Rings { corners: Vec<Vec<Vector3>>, planes: Vec<BrushPlane> },
    /// How far the new brush reaches.
    Depth(u32),
}

/// What the engine knows of the face when a drag becomes active.
#[derive(Debug)]
pub struct FaceStart {
    /// The normal of the face in the world, turned with the brush.
    pub world_normal: Vector3,
    /// The corners of the face in the world, if the brush has a mesh and a face is selected.
    pub world_polygon: Option<Vec<Vector3>>,
}

/// A new brush to be made from a face.
#[derive(Debug)]
pub struct ExtrudeRequest {
    pub polygon: Vec<Vector3>,
    pub normal: Vector3,
    pub depth: u32,
}

/// What one frame of a drag comes to.
#[derive(Debug)]
pub struct FaceDragStep {
    pub result: OperatorResult,
    pub extrude: Option<ExtrudeRequest>,
}

/// The index of a face.
pub open spec fn face_index(e: Element) -> usize {
    match e {
        Element::Face(f) => f,
        _ => 0,
    }
}

pub open spec fn face_indices(elements: Seq<Element>) -> Seq<usize> {
    Seq::new(elements.len(), |i: int| face_index(elements[i]))
}

/// The drag with nothing going on.
pub open spec fn ended(d: FaceDragView) -> FaceDragView {
    FaceDragView {
        active: false,
        pending: None,
        extend_face_polygon: Seq::empty(),
        extend_depth: 0,
        start_brush: None,
        quick_action: false,
        drag_camera: None,
        drag_viewport: None,
        ..d
    }
}

/// The state after a press on an element in the mode for faces.
pub open spec fn pressed_in_mode(
    s: FaceEditorView,
    input: DragInput,
    view: (Entity, Entity),
    candidates: Seq<Candidate>,
) -> (FaceEditorView, OperatorResult) {
    match nearest(candidates, of_edited(s.selection), ANY_DISTANCE).0 {
        None => (
            if input.ctrl {
                s
            } else {
                FaceEditorView {
                    box_select: BrushBoxSelectState { pending: input.cursor, shift: input.shift },
                    ..s
                }
            },
            OperatorResult::Cancelled,
        ),
        Some((brush, face)) => {
            let active = SelectionView { active: Some(brush), ..s.selection };
            if input.ctrl {
                (
                    FaceEditorView {
                        selection: active.with_elements(
                            brush,
                            toggled(active.elements(brush), face),
                        ),
                        drag: FaceDragView { quick_action: false, ..s.drag },
                        ..s
                    },
                    OperatorResult::Cancelled,
                )
            } else {
                let none = active.deselected();
                (
                    FaceEditorView {
                        selection: none.with_elements(
                            brush,
                            with_only(none.elements(brush), face),
                        ),
                        drag: FaceDragView {
                            quick_action: false,
                            extrude_mode: FaceExtrudeMode::Merge,
                            pending: input.cursor,
                            drag_camera: Some(view.0),
                            drag_viewport: Some(view.1),
                            ..s.drag
                        },
                        ..s
                    },
                    OperatorResult::Running,
                )
            }
        },
    }
}

/// The state after a press with a modifier while whole entities are edited.
pub open spec fn pressed_in_object_mode(
    s: FaceEditorView,
    input: DragInput,
    view: (Entity, Entity),
    candidates: Seq<Candidate>,
    primary: Option<Entity>,
) -> (FaceEditorView, OperatorResult) {
    match primary {
        Some(brush) => if s.brushes.contains_key(brush) {
            match nearest(candidates, of_brush(brush), ANY_DISTANCE).0 {
                Some((_, face)) => {
                    let active = SelectionView { active: Some(brush), ..s.selection };
                    (
                        FaceEditorView {
                            edit_mode: EditMode::BrushEdit(BrushEditMode::Face),
                            selection: active.with_elements(brush, seq![face]),
                            drag: FaceDragView {
                                quick_action: true,
                                extrude_mode: if input.alt {
                                    FaceExtrudeMode::Extend
                                } else {
                                    FaceExtrudeMode::Merge
                                },
                                pending: input.cursor,
                                drag_camera: Some(view.0),
                                drag_viewport: Some(view.1),
                                ..s.drag
                            },
                            ..s
                        },
                        OperatorResult::Running,
                    )
                },
                None => (s, OperatorResult::Cancelled),
            }
        } else {
            (s, OperatorResult::Cancelled)
        },
        None => (s, OperatorResult::Cancelled),
    }
}

/// The state after the drag ended, whichever way: back to whole entities if it began there.
pub open spec fn left(s: FaceEditorView) -> FaceEditorView {
    FaceEditorView {
        drag: ended(s.drag),
        cursor: s.cursor.released(),
        edit_mode: if s.drag.quick_action {
            EditMode::Object
        } else {
            s.edit_mode
        },
        selection: if s.drag.quick_action {
            SelectionView::nothing()
        } else {
            s.selection
        },
        ..s
    }
}

/// The indices of the faces that are dragged.
pub open spec fn dragged_faces(s: FaceEditorView, brush: Entity) -> Seq<usize> {
    face_indices(s.selection.elements_of_kind(brush, ElementKind::Face))
}

/// Whether a pending press becomes a drag in this frame.
pub open spec fn promotes(s: FaceEditorView, input: DragInput) -> bool {
    &&& s.drag.pending is Some
    &&& input.left_down
    &&& !s.drag.active
    &&& input.travelled
    &&& s.selection.active matches Some(b) && s.brushes.contains_key(b)
}

/// The state after a pending press became a drag.
pub open spec fn promoted(
    s: FaceEditorView,
    viewport_cursor: Vector2,
    start: FaceStart,
) -> FaceEditorView {
    let b = s.selection.active->0;
    let brush = s.brushes[b];
    let faces = dragged_faces(s, b);
    let normal = if faces.len() > 0 && faces[0] < brush.faces.len() {
        brush.faces[faces[0] as int].plane.normal
    } else {
        s.drag.drag_face_normal
    };
    let begun = FaceDragView {
        active: true,
        start_cursor: viewport_cursor,
        drag_face_normal: normal,
        ..s.drag
    };
    FaceEditorView {
        drag: if s.drag.extrude_mode == FaceExtrudeMode::Merge {
            FaceDragView { start_brush: Some(brush), ..begun }
        } else {
            FaceDragView {
                extend_face_normal: start.world_normal,
                extend_face_polygon: match start.world_polygon {
                    Some(p) => if faces.len() > 0 {
                        p@
                    } else {
                        s.drag.extend_face_polygon
                    },
                    None => s.drag.extend_face_polygon,
                },
                extend_depth: 0,
                ..begun
            }
        },
        cursor: CursorOverride::Grabbing,
        ..s
    }
}

/// The faces of a brush with the planes of those that are dragged moved to new distances.
pub open spec fn moved_planes(
    faces: Seq<BrushFace>,
    start: nat,
    dragged: Seq<usize>,
    distances: Seq<u32>,
) -> Seq<BrushFace>
    decreases dragged.len(),
{
    if dragged.len() == 0 {
        faces
    } else {
        let before = moved_planes(faces, start, dragged.drop_last(), distances);
        let f = dragged.last() as int;
        if f < start && f < before.len() && f < distances.len() {
            before.update(
                f,
                BrushFace {
                    plane: BrushPlane { distance: distances[f], ..before[f].plane },
                    ..before[f]
                },
            )
        } else {
            before
        }
    }
}

/// The corners of a brush, and those that moved, after the corners of one face moved. A corner that
/// moved already stays.
pub open spec fn ring_moved(
    vertices: Seq<Vector3>,
    done: Seq<usize>,
    ring: Seq<usize>,
    to: Seq<Vector3>,
) -> (Seq<Vector3>, Seq<usize>)
    decreases ring.len(),
{
    if ring.len() == 0 {
        (vertices, done)
    } else {
        let before = ring_moved(vertices, done, ring.drop_last(), to);
        let v = ring.last();
        let k = ring.len() - 1;
        if before.1.contains(v) {
            before
        } else {
            (
                if v < before.0.len() && k < to.len() {
                    before.0.update(v as int, to[k])
                } else {
                    before.0
                },
                before.1.push(v),
            )
        }
    }
}

/// The corners of a brush after the corners of the dragged faces moved, each once.
pub open spec fn rings_moved(
    vertices: Seq<Vector3>,
    polygons: Seq<Seq<usize>>,
    dragged: Seq<usize>,
    to: Seq<Seq<Vector3>>,
) -> (Seq<Vector3>, Seq<usize>)
    decreases dragged.len(),
{
    if dragged.len() == 0 {
        (vertices, Seq::empty())
    } else {
        let before = rings_moved(vertices, polygons, dragged.drop_last(), to);
        let f = dragged.last() as int;
        let k = dragged.len() - 1;
        if f < polygons.len() && k < to.len() {
            ring_moved(before.0, before.1, polygons[f], to[k])
        } else {
            before
        }
    }
}

/// Faces with new planes, as far as there are any.
pub open spec fn replaned(faces: Seq<BrushFace>, planes: Seq<BrushPlane>) -> Seq<BrushFace> {
    Seq::new(
        faces.len(),
        |i: int|
            if i < planes.len() {
                BrushFace { plane: planes[i], ..faces[i] }
            } else {
                faces[i]
            },
    )
}

pub open spec fn corners_view(corners: Seq<Vec<Vector3>>) -> Seq<Seq<Vector3>> {
    Seq::new(corners.len(), |i: int| corners[i]@)
}

/// The state and the result after one frame of an active drag.
pub open spec fn dragged(s: FaceEditorView, math: FaceMath) -> (FaceEditorView, OperatorResult) {
    match s.selection.active {
        None => (s, OperatorResult::Cancelled),
        Some(b) => {
            let faces = dragged_faces(s, b);
            match s.drag.extrude_mode {
                FaceExtrudeMode::Merge => if faces.len() == 0 || math is NoFace {
                    (s, OperatorResult::Cancelled)
                } else if math is NoCorners {
                    (s, OperatorResult::Running)
                } else if !s.brushes.contains_key(b) || s.drag.start_brush is None {
                    (s, OperatorResult::Cancelled)
                } else {
                    let brush = s.brushes[b];
                    let start = s.drag.start_brush->0;
                    match math {
                        FaceMath::Distances(d) => (
                            FaceEditorView {
                                brushes: s.brushes.insert(
                                    b,
                                    BrushView {
                                        faces: moved_planes(
                                            brush.faces,
                                            start.faces.len(),
                                            faces,
                                            d@,
                                        ),
                                        ..brush
                                    },
                                ),
                                ..s
                            },
                            OperatorResult::Running,
                        ),
                        FaceMath::Rings { corners, planes } => (
                            FaceEditorView {
                                brushes: s.brushes.insert(
                                    b,
                                    BrushView {
                                        faces: replaned(brush.faces, planes@),
                                        vertices: rings_moved(
                                            brush.vertices,
                                            brush.polygons,
                                            faces,
                                            corners_view(corners@),
                                        ).0,
                                        ..brush
                                    },
                                ),
                                ..s
                            },
                            OperatorResult::Running,
                        ),
                        _ => (s, OperatorResult::Running),
                    }
                },
                FaceExtrudeMode::Extend => if s.drag.extend_face_polygon.len() == 0 {
                    (s, OperatorResult::Cancelled)
                } else {
                    match math {
                        FaceMath::Depth(d) => (
                            FaceEditorView {
                                drag: FaceDragView { extend_depth: d, ..s.drag },
                                ..s
                            },
                            OperatorResult::Running,
                        ),
                        _ => (s, OperatorResult::Running),
                    }
                },
            }
        },
    }
}

/// The state and the result after a frame of a drag that began earlier.
pub open spec fn continued(
    s: FaceEditorView,
    input: DragInput,
    viewport_cursor: Vector2,
    start: FaceStart,
    math: FaceMath,
) -> (FaceEditorView, OperatorResult) {
    if s.drag.active && input.right_pressed {
        (s, OperatorResult::Cancelled)
    } else if input.left_released {
        (left(s), OperatorResult::Finished)
    } else {
        let t = if promotes(s, input) {
            promoted(s, viewport_cursor, start)
        } else {
            s
        };
        if t.drag.active {
            dragged(t, math)
        } else {
            (t, OperatorResult::Running)
        }
    }
}

/// The state and the result after a frame.
pub open spec fn face_dragged(
    s: FaceEditorView,
    input: DragInput,
    candidates: Seq<Candidate>,
    primary: Option<Entity>,
    start: FaceStart,
    math: FaceMath,
) -> (FaceEditorView, OperatorResult) {
    match (input.cursor, input.view_for(s.drag.drag_camera, s.drag.drag_viewport), input.viewport_cursor) {
        (Some(_), Some(view), Some(viewport_cursor)) => if !input.modal {
            if s.edit_mode == EditMode::BrushEdit(BrushEditMode::Face) {
                pressed_in_mode(s, input, view, candidates)
            } else {
                pressed_in_object_mode(s, input, view, candidates, primary)
            }
        } else {
            continued(s, input, viewport_cursor, start, math)
        },
        _ => (s, OperatorResult::Cancelled),
    }
}

/// The least depth of an extrusion, by its bits: those of a hundredth.
pub const MIN_EXTRUDE_DEPTH: u32 = 0x3c23_d70a;

/// The bits of infinity. Greater bits without a sign are those of no number.
pub const INFINITE_DEPTH: u32 = 0x7f80_0000;

/// Whether a depth is more than the least one, in either direction. The bits of numbers without a
/// sign are ordered like the numbers.
pub open spec fn is_deep(depth: u32) -> bool {
    MIN_EXTRUDE_DEPTH < depth & 0x7fff_ffffu32 <= INFINITE_DEPTH
}

/// Whether a frame makes a new brush: the drag of an extrusion is let go, deep enough.
pub open spec fn extrudes(s: FaceEditorView, input: DragInput) -> bool {
    &&& input.cursor is Some
    &&& input.view_for(s.drag.drag_camera, s.drag.drag_viewport) is Some
    &&& input.viewport_cursor is Some
    &&& input.modal
    &&& !(s.drag.active && input.right_pressed)
    &&& input.left_released
    &&& s.drag.active
    &&& s.drag.extrude_mode == FaceExtrudeMode::Extend
    &&& is_deep(s.drag.extend_depth)
}

fn faces_of(elements: &Vec<Element>) -> (r: Vec<usize>)
    ensures
        r@ == face_indices(elements@),
{
    let mut out: Vec<usize> = Vec::new();
    let mut i: usize = 0;
    while i < elements.len()
        invariant
            i <= elements.len(),
            out@ == face_indices(elements@).subrange(0, i as int),
        decreases elements.len() - i,
    {
        out.push(
            match elements[i] {
                Element::Face(f) => f,
                _ => 0,
            },
        );
        i = i + 1;
        assert(out@ =~= face_indices(elements@).subrange(0, i as int));
    }
    assert(out@ =~= face_indices(elements@));
    out
}

fn move_planes(faces: &mut Vec<BrushFace>, start: usize, dragged: &Vec<usize>, distances: &Vec<u32>)
    ensures
        final(faces)@ == moved_planes(old(faces)@, start as nat, dragged@, distances@),
{
    let ghost all = faces@;
    let mut i: usize = 0;
    assert(dragged@.subrange(0, 0) =~= Seq::empty());
    while i < dragged.len()
        invariant
            i <= dragged.len(),
            faces@ == moved_planes(all, start as nat, dragged@.subrange(0, i as int), distances@),
        decreases dragged.len() - i,
    {
        proof {
            assert(dragged@.subrange(0, i + 1).drop_last() =~= dragged@.subrange(0, i as int));
            assert(dragged@.subrange(0, i + 1).last() == dragged@[i as int]);
        }
        let f: usize = dragged[i];
        if f < start && f < faces.len() && f < distances.len() {
            let face: BrushFace = faces[f];
            let plane: BrushPlane = BrushPlane { distance: distances[f], ..face.plane };
            faces.set(f, BrushFace { plane, ..face });
        }
        i = i + 1;
    }
    assert(dragged@.subrange(0, i as int) =~= dragged@);
}

fn contains_index(list: &Vec<usize>, x: usize) -> (r: bool)
    ensures
        r == list@.contains(x),
{
    let mut i: usize = 0;
    while i < list.len()
        invariant
            i <= list.len(),
            forall|j: int| 0 <= j < i ==> list@[j] != x,
        decreases list.len() - i,
    {
        if list[i] == x {
            assert(list@[i as int] == x);
            return true;
        }
        i = i + 1;
    }
    false
}

fn move_ring(
    vertices: &mut Vec<Vector3>,
    done: &mut Vec<usize>,
    ring: &Vec<usize>,
    to: &Vec<Vector3>,
)
    ensures
        (final(vertices)@, final(done)@) == ring_moved(old(vertices)@, old(done)@, ring@, to@),
{
    let ghost v0 = vertices@;
    let ghost d0 = done@;
    let mut k: usize = 0;
    assert(ring@.subrange(0, 0) =~= Seq::empty());
    while k < ring.len()
        invariant
            k <= ring.len(),
            (vertices@, done@) == ring_moved(v0, d0, ring@.subrange(0, k as int), to@),
        decreases ring.len() - k,
    {
        proof {
            assert(ring@.subrange(0, k + 1).drop_last() =~= ring@.subrange(0, k as int));
            assert(ring@.subrange(0, k + 1).last() == ring@[k as int]);
        }
        let v: usize = ring[k];
        if !contains_index(done, v) {
            if v < vertices.len() && k < to.len() {
                vertices.set(v, to[k]);
            }
            done.push(v);
        }
        k = k + 1;
    }
    assert(ring@.subrange(0, k as int) =~= ring@);
}

fn move_rings(brush: &mut Brush, dragged: &Vec<usize>, to: &Vec<Vec<Vector3>>)
    ensures
        final(brush)@.vertices == rings_moved(
            old(brush)@.vertices,
            old(brush)@.polygons,
            dragged@,
            corners_view(to@),
        ).0,
        final(brush)@.faces == old(brush)@.faces,
        final(brush)@.polygons == old(brush)@.polygons,
{
    let ghost before = brush@;
    let mut done: Vec<usize> = Vec::new();
    let mut i: usize = 0;
    assert(dragged@.subrange(0, 0) =~= Seq::empty());
    while i < dragged.len()
        invariant
            i <= dragged.len(),
            brush@.faces == before.faces,
            brush@.polygons == before.polygons,
            (brush@.vertices, done@) == rings_moved(
                before.vertices,
                before.polygons,
                dragged@.subrange(0, i as int),
                corners_view(to@),
            ),
        decreases dragged.len() - i,
    {
        proof {
            assert(dragged@.subrange(0, i + 1).drop_last() =~= dragged@.subrange(0, i as int));
            assert(dragged@.subrange(0, i + 1).last() == dragged@[i as int]);
        }
        let f: usize = dragged[i];
        if f < brush.polygons.len() && i < to.len() {
            let ring: Vec<usize> = copy_list(&brush.polygons[f]);
            assert(ring@ == before.polygons[f as int]);
            assert(to@[i as int]@ == corners_view(to@)[i as int]);
            move_ring(&mut brush.vertices, &mut done, &ring, &to[i]);
        }
        i = i + 1;
    }
    assert(dragged@.subrange(0, i as int) =~= dragged@);
}

pub(crate) fn replane(faces: &mut Vec<BrushFace>, planes: &Vec<BrushPlane>)
    ensures
        final(faces)@ == replaned(old(faces)@, planes@),
{
    let ghost all = faces@;
    let n: usize = faces.len();
    let mut i: usize = 0;
    while i < n
        invariant
            i <= n,
            n == all.len(),
            faces@.len() == n,
            forall|j: int|
                0 <= j < n ==> (#[trigger] faces@[j]) == (if j < i && j < planes@.len() {
                    (BrushFace { plane: planes@[j], ..all[j] })
                } else {
                    all[j]
                }),
        decreases n - i,
    {
        if i < planes.len() {
            let face: BrushFace = faces[i];
            faces.set(i, BrushFace { plane: planes[i], ..face });
        }
        i = i + 1;
    }
    assert(faces@ =~= replaned(all, planes@));
}

impl FaceEditor {
    /// Ends a drag.
    fn clear_face_drag_state(&mut self)
        ensures
            final(self)@ == (FaceEditorView { drag: ended(old(self)@.drag), ..old(self)@ }),
    {
        self.drag.active = false;
        self.drag.pending = None;
        self.drag.extend_face_polygon = Vec::new();
        self.drag.extend_depth = 0;
        self.drag.start_brush = None;
        self.drag.quick_action = false;
        self.drag.drag_camera = None;
        self.drag.drag_viewport = None;
        assert(self@.drag =~= ended(old(self)@.drag));
    }

    fn leave(&mut self)
        ensures
            final(self)@ == left(old(self)@),
    {
        let was_quick: bool = self.drag.quick_action;
        self.clear_face_drag_state();
        self.cursor = self.cursor.clear_grab_cursor();
        if was_quick {
            self.edit_mode = EditMode::Object;
            self.selection.clear();
        }
        assert(self@ =~= left(old(self)@));
    }

    fn press_in_mode(
        &mut self,
        input: &DragInput,
        view: (Entity, Entity),
        candidates: &Vec<Candidate>,
    ) -> (r: OperatorResult)
        ensures
            (final(self)@, r) == pressed_in_mode(old(self)@, *input, view, candidates@),
    {
        let ghost s = self@;
        match pick_edited(&self.selection, candidates, ANY_DISTANCE) {
            None => {
                if !input.ctrl {
                    self.box_select.pending = input.cursor;
                    self.box_select.shift = input.shift;
                }
                assert(self@ =~= pressed_in_mode(s, *input, view, candidates@).0);
                OperatorResult::Cancelled
            },
            Some((brush, face)) => {
                self.selection.active_brush = Some(brush);
                self.drag.quick_action = false;
                assert(self@.selection =~= (SelectionView { active: Some(brush), ..s.selection }));
                if input.ctrl {
                    self.selection.toggle(brush, face);
                    assert(self@ =~= pressed_in_mode(s, *input, view, candidates@).0);
                    return OperatorResult::Cancelled;
                }
                self.selection.clear_sub_selections();
                self.selection.select_only(brush, face);
                self.drag.extrude_mode = FaceExtrudeMode::Merge;
                self.drag.pending = input.cursor;
                self.drag.drag_camera = Some(view.0);
                self.drag.drag_viewport = Some(view.1);
                assert(self@ =~= pressed_in_mode(s, *input, view, candidates@).0);
                OperatorResult::Running
            },
        }
    }

    fn press_in_object_mode(
        &mut self,
        input: &DragInput,
        view: (Entity, Entity),
        candidates: &Vec<Candidate>,
        primary: Option<Entity>,
    ) -> (r: OperatorResult)
        ensures
            (final(self)@, r) == pressed_in_object_mode(
                old(self)@,
                *input,
                view,
                candidates@,
                primary,
            ),
    {
        let ghost s = self@;
        let brush: Entity = match primary {
            Some(b) => b,
            None => {
                return OperatorResult::Cancelled;
            },
        };
        if !self.brushes.contains(brush) {
            return OperatorResult::Cancelled;
        }
        let face: Element = match pick_on(brush, candidates, ANY_DISTANCE) {
            Some((_, f)) => f,
            None => {
                return OperatorResult::Cancelled;
            },
        };
        self.edit_mode = EditMode::BrushEdit(BrushEditMode::Face);
        self.selection.active_brush = Some(brush);
        assert(self@.selection =~= (SelectionView { active: Some(brush), ..s.selection }));
        let mut only: Vec<Element> = Vec::new();
        only.push(face);
        assert(only@ =~= seq![face]);
        self.selection.set_elements(brush, only);
        self.drag.quick_action = true;
        self.drag.extrude_mode = if input.alt {
            FaceExtrudeMode::Extend
        } else {
            FaceExtrudeMode::Merge
        };
        self.drag.pending = input.cursor;
        self.drag.drag_camera = Some(view.0);
        self.drag.drag_viewport = Some(view.1);
        assert(self@ =~= pressed_in_object_mode(s, *input, view, candidates@, primary).0);
        OperatorResult::Running
    }

    fn promote(&mut self, brush_entity: Entity, viewport_cursor: Vector2, start: &FaceStart)
        requires
            old(self)@.selection.active == Some(brush_entity),
            old(self)@.brushes.contains_key(brush_entity),
        ensures
            final(self)@ == promoted(old(self)@, viewport_cursor, *start),
    {
        let ghost s = self@;
        if let Some(brush) = self.brushes.get(brush_entity) {
            let faces: Vec<usize> = faces_of(
                &self.selection.elements_of_kind(brush_entity, ElementKind::Face),
            );
            self.drag.active = true;
            self.cursor = CursorOverride::Grabbing;
            self.drag.start_cursor = viewport_cursor;
            if faces.len() > 0 && faces[0] < brush.faces.len() {
                self.drag.drag_face_normal = brush.faces[faces[0]].plane.normal;
            }
            match self.drag.extrude_mode {
                FaceExtrudeMode::Merge => {
                    self.drag.start_brush = Some(brush);
                },
                FaceExtrudeMode::Extend => {
                    self.drag.extend_face_normal = start.world_normal;
                    if let Some(polygon) = &start.world_polygon {
                        if faces.len() > 0 {
                            self.drag.extend_face_polygon = copy_list(polygon);
                        }
                    }
                    self.drag.extend_depth = 0;
                },
            }
        }
        assert(self@ =~= promoted(s, viewport_cursor, *start));
    }

    fn drag_frame(&mut self, math: &FaceMath) -> (r: OperatorResult)
        ensures
            (final(self)@, r) == dragged(old(self)@, *math),
    {
        let ghost s = self@;
        let brush_entity: Entity = match self.selection.active_brush {
            Some(b) => b,
            None => {
                return OperatorResult::Cancelled;
            },
        };
        let faces: Vec<usize> = faces_of(
            &self.selection.elements_of_kind(brush_entity, ElementKind::Face),
        );
        match self.drag.extrude_mode {
            FaceExtrudeMode::Merge => {
                if faces.len() == 0 {
                    return OperatorResult::Cancelled;
                }
                match math {
                    FaceMath::NoFace => {
                        return OperatorResult::Cancelled;
                    },
                    FaceMath::NoCorners => {
                        return OperatorResult::Running;
                    },
                    _ => {},
                }
                let mut brush: Brush = match self.brushes.get(brush_entity) {
                    Some(b) => b,
                    None => {
                        return OperatorResult::Cancelled;
                    },
                };
                let start_faces: usize = match &self.drag.start_brush {
                    Some(b) => b.faces.len(),
                    None => {
                        return OperatorResult::Cancelled;
                    },
                };
                let ghost was = brush@;
                match math {
                    FaceMath::Distances(distances) => {
                        move_planes(&mut brush.faces, start_faces, &faces, distances);
                        assert(brush@ == (BrushView {
                            faces: moved_planes(
                                was.faces,
                                start_faces as nat,
                                faces@,
                                distances@,
                            ),
                            ..was
                        }));
                        self.brushes.set(brush_entity, brush);
                    },
                    FaceMath::Rings { corners, planes } => {
                        move_rings(&mut brush, &faces, corners);
                        replane(&mut brush.faces, planes);
                        self.brushes.set(brush_entity, brush);
                    },
                    _ => {},
                }
                assert(self@ =~= dragged(s, *math).0);
                OperatorResult::Running
            },
            FaceExtrudeMode::Extend => {
                if self.drag.extend_face_polygon.len() == 0 {
                    return OperatorResult::Cancelled;
                }
                if let FaceMath::Depth(d) = math {
                    self.drag.extend_depth = *d;
                }
                assert(self@ =~= dragged(s, *math).0);
                OperatorResult::Running
            },
        }
    }

    /// One frame of dragging a face. A first frame picks the face under the pointer: in the mode for
    /// faces among all edited brushes, otherwise on the primary brush. Later frames follow the
    /// pointer until the button is let go, or the right button cancels.
    pub fn brush_face_drag(
        &mut self,
        input: &DragInput,
        candidates: &Vec<Candidate>,
        primary: Option<Entity>,
        start: &FaceStart,
        math: &FaceMath,
    ) -> (r: FaceDragStep)
        ensures
            (final(self)@, r.result) == face_dragged(
                old(self)@,
                *input,
                candidates@,
                primary,
                *start,
                *math,
            ),
            r.extrude is Some == extrudes(old(self)@, *input),
            r.extrude matches Some(x) ==> x.polygon@ == old(self)@.drag.extend_face_polygon
                && x.normal == old(self)@.drag.extend_face_normal && x.depth == old(self)@.drag.extend_depth,
            forall|b: Entity| #[trigger] moves_face_of(old(self)@, *input, b) && math is Rings ==> {
                let faces = final(self)@.brushes[b].faces;
                let before = old(self)@.brushes[b].faces;
                &&& r.result == OperatorResult::Running
                &&& faces.len() == before.len()
                &&& forall|i: int|
                    0 <= i < faces.len() ==> (#[trigger] faces[i]).plane == (if i
                        < math->planes@.len() {
                        math->planes@[i]
                    } else {
                        before[i].plane
                    }) && keeps_look(before[i], faces[i])
            },
    {
        let ghost s = self@;
        proof {
            if math is Rings {
                assert forall|b: Entity| #[trigger] moves_face_of(s, *input, b) implies {
                    let faces = face_dragged(s, *input, candidates@, primary, *start, *math).0.brushes[b].faces;
                    let before = s.brushes[b].faces;
                    &&& face_dragged(s, *input, candidates@, primary, *start, *math).1
                        == OperatorResult::Running
                    &&& faces.len() == before.len()
                    &&& forall|i: int|
                        0 <= i < faces.len() ==> (#[trigger] faces[i]).plane == (if i
                            < math->planes@.len() {
                            math->planes@[i]
                        } else {
                            before[i].plane
                        }) && keeps_look(before[i], faces[i])
                } by {
                    law_moved_corners_take_their_planes(
                        s,
                        *input,
                        candidates@,
                        primary,
                        *start,
                        *math,
                        b,
                    );
                }
            }
        }
        let view: (Entity, Entity) = match input.drag_view(
            self.drag.drag_camera,
            self.drag.drag_viewport,
        ) {
            Some(v) => v,
            None => {
                return FaceDragStep { result: OperatorResult::Cancelled, extrude: None };
            },
        };
        let viewport_cursor: Vector2 = match input.viewport_cursor {
            Some(c) => c,
            None => {
                return FaceDragStep { result: OperatorResult::Cancelled, extrude: None };
            },
        };
        if input.cursor.is_none() {
            return FaceDragStep { result: OperatorResult::Cancelled, extrude: None };
        }
        if !input.modal {
            let in_face_edit: bool = self.edit_mode == EditMode::BrushEdit(BrushEditMode::Face);
            let result: OperatorResult = if in_face_edit {
                self.press_in_mode(input, view, candidates)
            } else {
                self.press_in_object_mode(input, view, candidates, primary)
            };
            return FaceDragStep { result, extrude: None };
        }
        if self.drag.active && input.right_pressed {
            return FaceDragStep { result: OperatorResult::Cancelled, extrude: None };
        }
        if input.left_released {
            let mut extrude: Option<ExtrudeRequest> = None;
            let size: u32 = self.drag.extend_depth & 0x7fff_ffffu32;
            let deep: bool = MIN_EXTRUDE_DEPTH < size && size <= INFINITE_DEPTH;
            if self.drag.active && self.drag.extrude_mode == FaceExtrudeMode::Extend && deep {
                extrude = Some(
                    ExtrudeRequest {
                        polygon: copy_list(&self.drag.extend_face_polygon),
                        normal: self.drag.extend_face_normal,
                        depth: self.drag.extend_depth,
                    },
                );
            }
            self.leave();
            return FaceDragStep { result: OperatorResult::Finished, extrude };
        }
        if self.drag.pending.is_some() && input.left_down && !self.drag.active && input.travelled {
            if let Some(b) = self.selection.active_brush {
                if self.brushes.contains(b) {
                    self.promote(b, viewport_cursor, start);
                }
            }
        }
        if self.drag.active {
            let result: OperatorResult = self.drag_frame(math);
            return FaceDragStep { result, extrude: None };
        }
        FaceDragStep { result: OperatorResult::Running, extrude: None }
    }

    /// Cancels a drag: a brush that was pushed or pulled is as it was at the start.
    pub fn cancel_face_drag(&mut self)
        ensures
            final(self)@ == cancelled(old(self)@),
    {
        let ghost s = self@;
        if self.drag.extrude_mode == FaceExtrudeMode::Merge {
            if let Some(b) = self.selection.active_brush {
                if let Some(start) = &self.drag.start_brush {
                    if self.brushes.contains(b) {
                        self.brushes.set(b, start.copy());
                    }
                }
            }
        }
        assert(self@ =~= restored(s));
        self.leave();
    }
}

/// The state with a pushed or pulled brush as it was at the start.
pub open spec fn restored(s: FaceEditorView) -> FaceEditorView {
    match (s.drag.extrude_mode, s.selection.active, s.drag.start_brush) {
        (FaceExtrudeMode::Merge, Some(b), Some(start)) => if s.brushes.contains_key(b) {
            FaceEditorView { brushes: s.brushes.insert(b, start), ..s }
        } else {
            s
        },
        _ => s,
    }
}

/// The state after a drag was cancelled.
pub open spec fn cancelled(s: FaceEditorView) -> FaceEditorView {
    left(restored(s))
}

/// Whether a drag of a face is under way on a scene with these brushes: the dragged brush was as it
/// is there when the drag became active, and the other brushes are as they are there.
pub open spec fn under_way(s: FaceEditorView, brushes: Map<Entity, BrushView>) -> bool {
    &&& s.drag.active
    &&& s.drag.extrude_mode == FaceExtrudeMode::Merge
    &&& s.selection.active matches Some(b) && brushes.contains_key(b) && s.drag.start_brush
        == Some(brushes[b]) && s.brushes.dom() == brushes.dom() && s.brushes.remove(b)
        == brushes.remove(b)
}

/// A press that becomes a drag is under way on the scene as it is, before the face moves.
pub proof fn law_promoted_drag_is_under_way(
    s: FaceEditorView,
    input: DragInput,
    viewport_cursor: Vector2,
    start: FaceStart,
)
    requires
        promotes(s, input),
        s.drag.extrude_mode == FaceExtrudeMode::Merge,
    ensures
        under_way(promoted(s, viewport_cursor, start), s.brushes),
{
}

/// A frame of a drag keeps it under way on the same scene.
pub proof fn law_drag_frame_keeps_under_way(
    s: FaceEditorView,
    math: FaceMath,
    brushes: Map<Entity, BrushView>,
)
    requires
        under_way(s, brushes),
    ensures
        under_way(dragged(s, math).0, brushes),
{
    let b = s.selection.active->0;
    let after = dragged(s, math).0;
    assert(after.brushes.dom() =~= brushes.dom());
    assert(after.brushes.remove(b) =~= s.brushes.remove(b));
}

/// Cancelling a drag that is under way leaves the brushes as they were before it.
pub proof fn law_cancel_restores_brushes(s: FaceEditorView, brushes: Map<Entity, BrushView>)
    requires
        under_way(s, brushes),
    ensures
        cancelled(s).brushes == brushes,
        !cancelled(s).drag.active,
        cancelled(s).drag.pending is None,
{
    let b = s.selection.active->0;
    assert forall|e: Entity| brushes.contains_key(e) implies #[trigger] cancelled(s).brushes[e]
        == brushes[e] by {
        if e != b {
            assert(s.brushes.remove(b)[e] == s.brushes[e]);
            assert(brushes.remove(b)[e] == brushes[e]);
        }
    }
    assert(cancelled(s).brushes =~= brushes);
}

/// Whether a face is drawn as it was: its material, and how that lies on it.
pub open spec fn keeps_look(before: BrushFace, after: BrushFace) -> bool {
    &&& after.material == before.material
    &&& after.uv_offset == before.uv_offset
    &&& after.uv_scale == before.uv_scale
    &&& after.uv_rotation == before.uv_rotation
    &&& after.uv_u_axis == before.uv_u_axis
    &&& after.uv_v_axis == before.uv_v_axis
    &&& after.is_cap == before.is_cap
}

/// Whether a frame moves a face of a brush: the drag is under way or begins, is neither let go nor
/// cancelled, and a face of the brush is selected.
pub open spec fn moves_face_of(s: FaceEditorView, input: DragInput, b: Entity) -> bool {
    &&& input.modal
    &&& input.cursor is Some
    &&& input.viewport_cursor is Some
    &&& (s.drag.drag_camera is Some && s.drag.drag_viewport is Some) || (input.hovered_camera is Some
        && input.hovered_viewport is Some)
    &&& !input.left_released
    &&& s.drag.extrude_mode == FaceExtrudeMode::Merge
    &&& s.selection.active == Some(b)
    &&& s.brushes.contains_key(b)
    &&& s.selection.elements_of_kind(b, ElementKind::Face).len() > 0
    &&& if s.drag.active {
        !input.right_pressed && s.drag.start_brush is Some
    } else {
        s.drag.pending is Some && input.left_down && input.travelled
    }
}

/// A frame that moves the corners of faces gives every face of the dragged brush that it has a plane
/// for exactly that plane. The others keep theirs, and every face is drawn as it was. The polygons
/// and all other brushes stay.
pub proof fn law_moved_corners_take_their_planes(
    s: FaceEditorView,
    input: DragInput,
    candidates: Seq<Candidate>,
    primary: Option<Entity>,
    start: FaceStart,
    math: FaceMath,
    b: Entity,
)
    requires
        moves_face_of(s, input, b),
        math is Rings,
    ensures
        ({
            let after = face_dragged(s, input, candidates, primary, start, math).0;
            let faces = after.brushes[b].faces;
            let planes = math->planes@;
            &&& face_dragged(s, input, candidates, primary, start, math).1
                == OperatorResult::Running
            &&& after.drag.active
            &&& after.brushes.dom() == s.brushes.dom()
            &&& forall|e: Entity| e != b ==> #[trigger] after.brushes[e] == s.brushes[e]
            &&& faces.len() == s.brushes[b].faces.len()
            &&& forall|i: int|
                0 <= i < faces.len() && i < planes.len() ==> (#[trigger] faces[i]).plane
                    == planes[i]
            &&& forall|i: int|
                planes.len() <= i < faces.len() ==> (#[trigger] faces[i]).plane
                    == s.brushes[b].faces[i].plane
            &&& forall|i: int|
                0 <= i < faces.len() ==> keeps_look(s.brushes[b].faces[i], #[trigger] faces[i])
            &&& after.brushes[b].polygons == s.brushes[b].polygons
        }),
{
    let after = face_dragged(s, input, candidates, primary, start, math).0;
    assert(after.brushes.dom() =~= s.brushes.dom());
}

/// Planes that move keep their normals and everything else of their faces. The plane of a dragged
/// face that the brush had at the start is at its new distance, and every other plane where it was.
proof fn lemma_moved_planes(
    faces: Seq<BrushFace>,
    start: nat,
    dragged: Seq<usize>,
    distances: Seq<u32>,
)
    requires
        faces.len() <= usize::MAX,
    ensures
        ({
            let after = moved_planes(faces, start, dragged, distances);
            &&& after.len() == faces.len()
            &&& forall|i: int|
                0 <= i < faces.len() ==> keeps_look(faces[i], #[trigger] after[i])
                    && after[i].plane.normal == faces[i].plane.normal && after[i].plane.distance
                    == (if i < start && i < distances.len() && dragged.contains(i as usize) {
                    distances[i]
                } else {
                    faces[i].plane.distance
                })
        }),
    decreases dragged.len(),
{
    if dragged.len() > 0 {
        let init = dragged.drop_last();
        lemma_moved_planes(faces, start, init, distances);
        let f = dragged.last();
        let before = moved_planes(faces, start, init, distances);
        let after = moved_planes(faces, start, dragged, distances);
        assert forall|i: int| 0 <= i < faces.len() implies keeps_look(faces[i], #[trigger] after[i])
            && after[i].plane.normal == faces[i].plane.normal && after[i].plane.distance == (if i
            < start && i < distances.len() && dragged.contains(i as usize) {
            distances[i]
        } else {
            faces[i].plane.distance
        }) by {
            assert(keeps_look(faces[i], before[i]));
            if i < start && i < distances.len() {
                let u = i as usize;
                if init.contains(u) {
                    let k = choose|k: int| 0 <= k < init.len() && init[k] == u;
                    assert(dragged[k] == u);
                }
                if dragged.contains(u) && u != f {
                    let k = choose|k: int| 0 <= k < dragged.len() && dragged[k] == u;
                    assert(init[k] == u);
                }
                if u == f {
                    assert(dragged[dragged.len() - 1] == u);
                }
            }
        }
    }
}

/// A frame that moves planes sets the plane of each dragged face to its new distance and leaves every
/// other plane where it was. No plane turns, every face is drawn as it was, and corners, polygons
/// and all other brushes stay.
pub proof fn law_moved_planes_keep_their_normals(
    s: FaceEditorView,
    input: DragInput,
    candidates: Seq<Candidate>,
    primary: Option<Entity>,
    start: FaceStart,
    math: FaceMath,
    b: Entity,
)
    requires
        moves_face_of(s, input, b),
        math is Distances,
        s.brushes[b].faces.len() <= usize::MAX,
    ensures
        ({
            let after = face_dragged(s, input, candidates, primary, start, math).0;
            let faces = after.brushes[b].faces;
            let distances = math->Distances_0@;
            let at_start = if s.drag.active {
                s.drag.start_brush->0
            } else {
                s.brushes[b]
            };
            &&& face_dragged(s, input, candidates, primary, start, math).1
                == OperatorResult::Running
            &&& after.brushes.dom() == s.brushes.dom()
            &&& forall|e: Entity| e != b ==> #[trigger] after.brushes[e] == s.brushes[e]
            &&& after.brushes[b].vertices == s.brushes[b].vertices
            &&& after.brushes[b].polygons == s.brushes[b].polygons
            &&& faces.len() == s.brushes[b].faces.len()
            &&& forall|i: int|
                0 <= i < faces.len() ==> keeps_look(s.brushes[b].faces[i], #[trigger] faces[i])
                    && faces[i].plane.normal == s.brushes[b].faces[i].plane.normal
            &&& forall|i: int|
                0 <= i < faces.len() && i < distances.len() && i < at_start.faces.len()
                    && s.selection.elements(b).contains(Element::Face(i as usize)) ==> (
                #[trigger] faces[i]).plane.distance == distances[i]
            &&& forall|i: int|
                0 <= i < faces.len() && !s.selection.elements(b).contains(Element::Face(i as usize))
                    ==> (#[trigger] faces[i]).plane.distance
                    == s.brushes[b].faces[i].plane.distance
        }),
{
    let after = face_dragged(s, input, candidates, primary, start, math).0;
    assert(after.brushes.dom() =~= s.brushes.dom());
    let distances = math->Distances_0@;
    let at_start = if s.drag.active {
        s.drag.start_brush->0
    } else {
        s.brushes[b]
    };
    let dragged = dragged_faces(s, b);
    let chosen = s.selection.elements_of_kind(b, ElementKind::Face);
    lemma_moved_planes(s.brushes[b].faces, at_start.faces.len(), dragged, distances);
    assert forall|u: usize| #[trigger] dragged.contains(u) == s.selection.elements(b).contains(
        Element::Face(u),
    ) by {
        let face = Element::Face(u);
        lemma_filter_contains(s.selection.elements(b), of_kind(ElementKind::Face), face);
        if chosen.contains(face) {
            let k = choose|k: int| 0 <= k < chosen.len() && chosen[k] == face;
            assert(dragged[k] == u);
        }
        if dragged.contains(u) {
            let k = choose|k: int| 0 <= k < dragged.len() && dragged[k] == u;
            lemma_filter_contains(s.selection.elements(b), of_kind(ElementKind::Face), chosen[k]);
            assert(chosen.contains(chosen[k]));
            assert(chosen[k] == face);
        }
    }
}

/// Whether a place in the rings of dragged faces stands for a corner.
pub open spec fn stands_at(
    polygons: Seq<Seq<usize>>,
    dragged: Seq<usize>,
    rings: nat,
    k: int,
    m: int,
    v: usize,
) -> bool {
    &&& 0 <= k < dragged.len()
    &&& k < rings
    &&& (dragged[k] as int) < polygons.len()
    &&& 0 <= m < polygons[dragged[k] as int].len()
    &&& polygons[dragged[k] as int][m] == v
}

proof fn lemma_ring_moved(
    vertices: Seq<Vector3>,
    done: Seq<usize>,
    ring: Seq<usize>,
    to: Seq<Vector3>,
    v: usize,
)
    requires
        (v as int) < vertices.len(),
    ensures
        ({
            let after = ring_moved(vertices, done, ring, to);
            &&& after.0.len() == vertices.len()
            &&& after.1.contains(v) == (done.contains(v) || ring.contains(v))
            &&& done.contains(v) || !ring.contains(v) ==> after.0[v as int] == vertices[v as int]
            &&& forall|m: int|
                !done.contains(v) && 0 <= m < ring.len() && #[trigger] ring[m] == v && (forall|
                    n: int,
                |
                    0 <= n < m ==> ring[n] != v) ==> after.0[v as int] == (if m < to.len() {
                    to[m]
                } else {
                    vertices[v as int]
                })
        }),
    decreases ring.len(),
{
    if ring.len() > 0 {
        let init = ring.drop_last();
        lemma_ring_moved(vertices, done, init, to, v);
        let before = ring_moved(vertices, done, init, to);
        let after = ring_moved(vertices, done, ring, to);
        let last = ring.last();
        let k = ring.len() - 1;
        assert(ring[k] == last);
        assert(init.contains(v) ==> ring.contains(v)) by {
            if init.contains(v) {
                let n = choose|n: int| 0 <= n < init.len() && init[n] == v;
                assert(ring[n] == v);
            }
        }
        assert(ring.contains(v) ==> init.contains(v) || last == v) by {
            if ring.contains(v) {
                let n = choose|n: int| 0 <= n < ring.len() && ring[n] == v;
                if n < k {
                    assert(init[n] == v);
                }
            }
        }
        if !before.1.contains(last) {
            let pushed = before.1.push(last);
            assert(pushed.contains(v) == (before.1.contains(v) || last == v)) by {
                if before.1.contains(v) {
                    let n = choose|n: int| 0 <= n < before.1.len() && before.1[n] == v;
                    assert(pushed[n] == v);
                }
                assert(pushed[before.1.len() as int] == last);
                if pushed.contains(v) {
                    let n = choose|n: int| 0 <= n < pushed.len() && pushed[n] == v;
                    if n < before.1.len() {
                        assert(before.1[n] == v);
                    }
                }
            }
        }
        assert forall|m: int|
            !done.contains(v) && 0 <= m < ring.len() && #[trigger] ring[m] == v && (forall|n: int|
                0 <= n < m ==> ring[n] != v) implies after.0[v as int] == (if m < to.len() {
            to[m]
        } else {
            vertices[v as int]
        }) by {
            if m < k {
                assert(init[m] == v);
                assert(forall|n: int| 0 <= n < m ==> init[n] == ring[n]);
                assert(before.1.contains(v));
            } else {
                if init.contains(v) {
                    let n = choose|n: int| 0 <= n < init.len() && init[n] == v;
                    assert(ring[n] == v);
                }
            }
        }
    }
}

/// Each corner moves once: to the place that is given for it by the first dragged face that it is a
/// corner of. A corner of no dragged face stays.
proof fn lemma_rings_moved(
    vertices: Seq<Vector3>,
    polygons: Seq<Seq<usize>>,
    dragged: Seq<usize>,
    to: Seq<Seq<Vector3>>,
    v: usize,
)
    requires
        (v as int) < vertices.len(),
    ensures
        ({
            let after = rings_moved(vertices, polygons, dragged, to);
            &&& after.0.len() == vertices.len()
            &&& after.1.contains(v) == exists|k: int, m: int|
                #[trigger] stands_at(polygons, dragged, to.len(), k, m, v)
            &&& !after.1.contains(v) ==> after.0[v as int] == vertices[v as int]
            &&& forall|k: int, m: int|
                #[trigger] stands_at(polygons, dragged, to.len(), k, m, v) && (forall|
                    k2: int,
                    m2: int,
                |
                    #[trigger] stands_at(polygons, dragged, to.len(), k2, m2, v) ==> k < k2 || (k
                        == k2 && m <= m2)) ==> after.0[v as int] == (if m < to[k].len() {
                    to[k][m]
                } else {
                    vertices[v as int]
                })
        }),
    decreases dragged.len(),
{
    let after = rings_moved(vertices, polygons, dragged, to);
    let rings = to.len();
    if dragged.len() > 0 {
        let init = dragged.drop_last();
        lemma_rings_moved(vertices, polygons, init, to, v);
        let before = rings_moved(vertices, polygons, init, to);
        let f = dragged.last() as int;
        let last = dragged.len() - 1;
        assert forall|k: int, m: int| k < last implies stands_at(polygons, init, rings, k, m, v)
            == #[trigger] stands_at(polygons, dragged, rings, k, m, v) by {
            if 0 <= k {
                assert(init[k] == dragged[k]);
            }
        }
        let moved = f < polygons.len() && last < to.len();
        if moved {
            lemma_ring_moved(before.0, before.1, polygons[f], to[last], v);
        }
        if before.1.contains(v) {
            let (k, m) = choose|k: int, m: int| #[trigger]
                stands_at(polygons, init, rings, k, m, v);
            assert(stands_at(polygons, dragged, rings, k, m, v));
        }
        if moved && polygons[f].contains(v) {
            let m = choose|m: int| 0 <= m < polygons[f].len() && polygons[f][m] == v;
            assert(stands_at(polygons, dragged, rings, last, m, v));
        }
        if exists|k: int, m: int| #[trigger] stands_at(polygons, dragged, rings, k, m, v) {
            let (k, m) = choose|k: int, m: int| #[trigger]
                stands_at(polygons, dragged, rings, k, m, v);
            if k < last {
                assert(stands_at(polygons, init, rings, k, m, v));
            } else {
                assert(polygons[f][m] == v);
            }
            assert(after.1.contains(v));
        }
        assert forall|k: int, m: int| #[trigger]
            stands_at(polygons, dragged, rings, k, m, v) && (forall|k2: int, m2: int| #[trigger]
                stands_at(polygons, dragged, rings, k2, m2, v) ==> k < k2 || (k == k2 && m
                    <= m2)) implies after.0[v as int] == (if m < to[k].len() {
            to[k][m]
        } else {
            vertices[v as int]
        }) by {
            if k < last {
                assert(stands_at(polygons, init, rings, k, m, v));
                assert forall|k2: int, m2: int| #[trigger]
                    stands_at(polygons, init, rings, k2, m2, v) implies k < k2 || (k == k2 && m
                    <= m2) by {
                    assert(stands_at(polygons, dragged, rings, k2, m2, v));
                }
                assert(before.1.contains(v));
            } else {
                if before.1.contains(v) {
                    let (k2, m2) = choose|k2: int, m2: int| #[trigger]
                        stands_at(polygons, init, rings, k2, m2, v);
                    assert(stands_at(polygons, dragged, rings, k2, m2, v));
                }
                assert(polygons[f][m] == v);
                assert forall|n: int| 0 <= n < m implies polygons[f][n] != v by {
                    if polygons[f][n] == v {
                        assert(stands_at(polygons, dragged, rings, last, n, v));
                    }
                }
            }
        }
    }
}

/// A frame that moves the corners of faces moves each corner once, to the place that is given for it
/// by the first of the dragged faces that it is a corner of. A corner of no dragged face stays.
pub proof fn law_moved_corners_land_where_given(
    s: FaceEditorView,
    input: DragInput,
    candidates: Seq<Candidate>,
    primary: Option<Entity>,
    start: FaceStart,
    math: FaceMath,
    b: Entity,
    v: usize,
)
    requires
        moves_face_of(s, input, b),
        math is Rings,
        (v as int) < s.brushes[b].vertices.len(),
    ensures
        ({
            let before = s.brushes[b];
            let after = face_dragged(s, input, candidates, primary, start, math).0.brushes[b];
            let corners = math->corners@;
            let dragged = face_indices(s.selection.elements_of_kind(b, ElementKind::Face));
            &&& after.vertices.len() == before.vertices.len()
            &&& (forall|k: int, m: int|
                !#[trigger] stands_at(before.polygons, dragged, corners.len(), k, m, v))
                ==> after.vertices[v as int] == before.vertices[v as int]
            &&& forall|k: int, m: int|
                #[trigger] stands_at(before.polygons, dragged, corners.len(), k, m, v) && m
                    < corners[k]@.len() && (forall|k2: int, m2: int|
                    #[trigger] stands_at(before.polygons, dragged, corners.len(), k2, m2, v) ==> k
                        < k2 || (k == k2 && m <= m2)) ==> after.vertices[v as int]
                    == corners[k]@[m]
        }),
{
    let dragged = dragged_faces(s, b);
    let to = corners_view(math->corners@);
    lemma_rings_moved(s.brushes[b].vertices, s.brushes[b].polygons, dragged, to, v);
    assert(to.len() == math->corners@.len());
}

/// A drag that extrudes keeps every brush until it is let go. A frame only sets how deep the new
/// brush will be.
pub proof fn law_extruding_keeps_brushes(
    s: FaceEditorView,
    input: DragInput,
    candidates: Seq<Candidate>,
    primary: Option<Entity>,
    start: FaceStart,
    math: FaceMath,
)
    requires
        input.modal,
        s.drag.extrude_mode == FaceExtrudeMode::Extend,
    ensures
        ({
            let after = face_dragged(s, input, candidates, primary, start, math);
            &&& after.0.brushes == s.brushes
            &&& after.0.drag.active && s.drag.active && after.1 == OperatorResult::Running
                ==> after.0.drag.extend_face_polygon == s.drag.extend_face_polygon
                && after.0.drag.extend_face_normal == s.drag.extend_face_normal
                && after.0.drag.extend_depth == (match math {
                FaceMath::Depth(d) => d,
                _ => s.drag.extend_depth,
            })
            &&& after.0.drag.active && !s.drag.active && start.world_polygon is Some && after.1
                == OperatorResult::Running ==> after.0.drag.extend_face_normal
                == start.world_normal && after.0.drag.extend_depth == (match math {
                FaceMath::Depth(d) => d,
                _ => 0,
            }) && (s.selection.elements_of_kind(s.selection.active->0, ElementKind::Face).len() > 0
                ==> after.0.drag.extend_face_polygon == start.world_polygon->0@)
        }),
{
}

/// Letting go ends a drag: nothing is pending or active, the pointer is no longer grabbing, and the
/// brushes stay as they were dragged. One that began while whole entities were edited ends there,
/// with no element selected; any other stays in its mode with its selection.
pub proof fn law_letting_go_ends_the_drag(
    s: FaceEditorView,
    input: DragInput,
    candidates: Seq<Candidate>,
    primary: Option<Entity>,
    start: FaceStart,
    math: FaceMath,
)
    requires
        input.modal,
        input.left_released,
        !input.right_pressed,
        input.cursor is Some,
        input.viewport_cursor is Some,
        (s.drag.drag_camera is Some && s.drag.drag_viewport is Some) || (input.hovered_camera
            is Some && input.hovered_viewport is Some),
    ensures
        ({
            let after = face_dragged(s, input, candidates, primary, start, math);
            &&& after.1 == OperatorResult::Finished
            &&& !after.0.drag.active
            &&& after.0.drag.pending is None
            &&& after.0.drag.start_brush is None
            &&& !after.0.drag.quick_action
            &&& after.0.drag.drag_camera is None && after.0.drag.drag_viewport is None
            &&& after.0.cursor != CursorOverride::Grabbing
            &&& s.cursor != CursorOverride::Grabbing ==> after.0.cursor == s.cursor
            &&& after.0.brushes == s.brushes
            &&& s.drag.quick_action ==> after.0.edit_mode == EditMode::Object
                && after.0.selection.active is None && after.0.selection.subs.len() == 0
            &&& !s.drag.quick_action ==> after.0.edit_mode == s.edit_mode && after.0.selection
                == s.selection
        }),
{
}

/// A press moves no brush. In the mode for faces one that hits no face of an edited brush is left to
/// the box selection, and one with the control key pressed begins no drag. A press that begins a drag
/// makes the brush of the face the active one and remembers where it was.
pub proof fn law_press_picks_a_face(
    s: FaceEditorView,
    input: DragInput,
    candidates: Seq<Candidate>,
    primary: Option<Entity>,
    start: FaceStart,
    math: FaceMath,
)
    requires
        !input.modal,
    ensures
        ({
            let after = face_dragged(s, input, candidates, primary, start, math);
            let in_mode = s.edit_mode == EditMode::BrushEdit(BrushEditMode::Face);
            &&& after.0.brushes == s.brushes
            &&& after.0.drag.active == s.drag.active
            &&& after.0.cursor == s.cursor
            &&& after.1 != OperatorResult::Finished
            &&& after.1 == OperatorResult::Running ==> {
                &&& after.0.edit_mode == EditMode::BrushEdit(BrushEditMode::Face)
                &&& after.0.selection.active is Some
                &&& after.0.drag.pending == input.cursor
                &&& after.0.drag.drag_camera == input.hovered_camera
                &&& after.0.drag.drag_viewport == input.hovered_viewport
                &&& after.0.drag.quick_action == !in_mode
                &&& after.0.drag.extrude_mode == (if !in_mode && input.alt {
                    FaceExtrudeMode::Extend
                } else {
                    FaceExtrudeMode::Merge
                })
                &&& after.0.selection.elements(after.0.selection.active->0).len() > 0
                &&& after.0.box_select == s.box_select
                &&& !in_mode ==> after.0.selection.active == primary
                &&& in_mode ==> !input.ctrl
            }
            &&& after.1 == OperatorResult::Cancelled ==> {
                &&& after.0.edit_mode == s.edit_mode
                &&& after.0.drag.pending == s.drag.pending
                &&& after.0.drag.extrude_mode == s.drag.extrude_mode
                &&& !in_mode ==> after.0 == s
                &&& after.0.box_select != s.box_select ==> !input.ctrl
                    && after.0.box_select.pending == input.cursor && after.0.box_select.shift
                    == input.shift && after.0.selection == s.selection
            }
        }),
{
    let in_mode = s.edit_mode == EditMode::BrushEdit(BrushEditMode::Face);
    if in_mode {
        if let Some((brush, face)) = nearest(
            candidates,
            of_edited(s.selection),
            ANY_DISTANCE,
        ).0 {
            let none = (SelectionView { active: Some(brush), ..s.selection }).deselected();
            law_elements_written(none, brush, with_only(none.elements(brush), face));
        }
    } else if let Some(brush) = primary {
        if let Some((_, face)) = nearest(candidates, of_brush(brush), ANY_DISTANCE).0 {
            let active = SelectionView { active: Some(brush), ..s.selection };
            law_elements_written(active, brush, seq![face]);
        }
    }
}

/// Whether a press with the left button begins to drag a face. `typing`, `moving` and `drawing` tell
/// whether something else is going on; in the mode for faces that is no hindrance.
pub fn face_drag_invoke_trigger(
    pressed: bool,
    drag: &BrushDragState,
    edit_mode: EditMode,
    plane_hovered: bool,
    menu_open: bool,
    in_viewport: bool,
    gizmo_hovered: bool,
    shift: bool,
    alt: bool,
    typing: bool,
    moving: bool,
    drawing: bool,
) -> (r: bool)
    ensures
        r == {
            let in_face_edit = edit_mode == EditMode::BrushEdit(BrushEditMode::Face);
            &&& pressed
            &&& !drag.active
            &&& drag.pending is None
            &&& !plane_hovered
            &&& !menu_open
            &&& in_viewport
            &&& !(in_face_edit && gizmo_hovered)
            &&& in_face_edit || shift || alt
            &&& (!typing && !moving && !drawing) || in_face_edit
        },
{
    if !pressed || drag.active || drag.pending.is_some() {
        return false;
    }
    if plane_hovered || menu_open {
        return false;
    }
    if !in_viewport {
        return false;
    }
    let in_face_edit: bool = edit_mode == EditMode::BrushEdit(BrushEditMode::Face);
    if in_face_edit && gizmo_hovered {
        return false;
    }
    if !(in_face_edit || shift || alt) {
        return false;
    }
    drag_environment_ok(typing, moving, drawing) || in_face_edit
}

/// Whether nothing else is going on: no text is typed, nothing is moved by keys, and no brush is
/// drawn.
pub fn drag_environment_ok(typing: bool, moving: bool, drawing: bool) -> (r: bool)
    ensures
        r == (!typing && !moving && !drawing),
{
    !typing && !moving && !drawing
}

/// Whether the pointer is over a face of a brush.
pub fn cursor_over_brush_face(candidates: &Vec<Candidate>) -> (r: bool)
    ensures
        r == exists|i: int| 0 <= i < candidates@.len() && (#[trigger] candidates@[i]).hit,
{
    let mut i: usize = 0;
    while i < candidates.len()
        invariant
            i <= candidates.len(),
            forall|j: int| 0 <= j < i ==> !(#[trigger] candidates@[j]).hit,
        decreases candidates.len() - i,
    {
        if candidates[i].hit {
            return true;
        }
        i = i + 1;
    }
    false
}

/// A press in the mode for faces takes the nearest face of the edited brushes: its brush becomes the
/// active one, and the face the only one of it that is selected, or, with the control key, one more.
pub proof fn law_press_takes_the_nearest_face(
    s: FaceEditorView,
    input: DragInput,
    candidates: Seq<Candidate>,
    primary: Option<Entity>,
    start: FaceStart,
    math: FaceMath,
    i: int,
    x: Element,
)
    requires
        !input.modal,
        input.cursor is Some,
        input.viewport_cursor is Some,
        input.hovered_camera is Some,
        input.hovered_viewport is Some,
        s.edit_mode == EditMode::BrushEdit(BrushEditMode::Face),
        is_nearest(candidates, |c: Candidate| s.selection.edits(c.brush), 0x7f7f_ffff, i),
    ensures
        ({
            let after = face_dragged(s, input, candidates, primary, start, math);
            let b = candidates[i].brush;
            let e = candidates[i].element->0;
            let had = s.selection.elements(b);
            &&& after.0.selection.active == Some(b)
            &&& !input.ctrl ==> after.1 == OperatorResult::Running
                && after.0.selection.elements(b).contains(e)
            &&& !input.ctrl && x.kind_spec() == e.kind_spec() && x != e
                ==> !after.0.selection.elements(b).contains(x)
            &&& input.ctrl ==> after.1 == OperatorResult::Cancelled
            &&& input.ctrl && !had.contains(e) ==> after.0.selection.elements(b) == had.push(e)
            &&& input.ctrl && x != e ==> (after.0.selection.elements(b).contains(x)
                <==> had.contains(x))
        }),
{
    let b = candidates[i].brush;
    let e = candidates[i].element->0;
    let eligible = |c: Candidate| s.selection.edits(c.brush);
    assert(eligible =~= of_edited(s.selection));
    law_first_of_the_nearest_is_picked(candidates, of_edited(s.selection), ANY_DISTANCE, i);
    let active = SelectionView { active: Some(b), ..s.selection };
    let none = active.deselected();
    assert(active.elements(b) == s.selection.elements(b));
    law_elements_written(active, b, toggled(active.elements(b), e));
    law_elements_written(none, b, with_only(none.elements(b), e));
    law_only_element_of_its_kind(none.elements(b), e, e);
    law_only_element_of_its_kind(none.elements(b), e, x);
    law_toggled_element_is_selected(active.elements(b), e, x);
}

/// A press outside of that mode takes the nearest face of the primary brush, which is then the only one
/// selected.
pub proof fn law_press_takes_a_face_of_the_primary_brush(
    s: FaceEditorView,
    input: DragInput,
    candidates: Seq<Candidate>,
    brush: Entity,
    start: FaceStart,
    math: FaceMath,
    i: int,
)
    requires
        !input.modal,
        input.cursor is Some,
        input.viewport_cursor is Some,
        input.hovered_camera is Some,
        input.hovered_viewport is Some,
        s.edit_mode != EditMode::BrushEdit(BrushEditMode::Face),
        s.brushes.contains_key(brush),
        is_nearest(candidates, |c: Candidate| c.brush == brush, 0x7f7f_ffff, i),
    ensures
        ({
            let after = face_dragged(s, input, candidates, Some(brush), start, math);
            &&& after.1 == OperatorResult::Running
            &&& after.0.selection.active == Some(brush)
            &&& after.0.selection.elements(brush) == seq![candidates[i].element->0]
        }),
{
    let e = candidates[i].element->0;
    let eligible = |c: Candidate| c.brush == brush;
    assert(eligible =~= of_brush(brush));
    law_first_of_the_nearest_is_picked(candidates, of_brush(brush), ANY_DISTANCE, i);
    let active = SelectionView { active: Some(brush), ..s.selection };
    law_elements_written(active, brush, seq![e]);
}

/// A drag stays in the view that it began in, wherever the pointer goes; a press counts in the view
/// under the pointer.
pub proof fn law_drag_stays_in_its_view(input: DragInput, camera: Entity, viewport: Entity)
    ensures
        input.modal ==> input.view_for(Some(camera), Some(viewport)) == Some((camera, viewport)),
        !input.modal && input.hovered_camera == Some(camera) && input.hovered_viewport == Some(
            viewport,
        ) ==> input.view_for(None, None) == Some((camera, viewport)),
        input.hovered_camera is None || input.hovered_viewport is None ==> input.view_for(None, None)
            is None,
{
}

/// An extrusion makes a brush when it is let go deeper than a hundredth, in either direction.
pub proof fn law_deep_extrusions_make_a_brush(s: FaceEditorView, input: DragInput, depth: u32)
    ensures
        extrudes(s, input) ==> s.drag.active && input.left_released && s.drag.extrude_mode
            == FaceExtrudeMode::Extend && 0x3c23_d70a < s.drag.extend_depth & 0x7fff_ffffu32
            && s.drag.extend_depth & 0x7fff_ffffu32 <= 0x7f80_0000,
        s.drag.active && input.modal && input.left_released && !input.right_pressed
            && input.cursor is Some && input.viewport_cursor is Some && s.drag.drag_camera is Some
            && s.drag.drag_viewport is Some && s.drag.extrude_mode == FaceExtrudeMode::Extend
            && 0x3c23_d70a < s.drag.extend_depth & 0x7fff_ffffu32 && s.drag.extend_depth
            & 0x7fff_ffffu32 <= 0x7f80_0000 ==> extrudes(s, input),
        is_deep(depth) == is_deep(depth ^ 0x8000_0000u32),
{
    assert((depth ^ 0x8000_0000u32) & 0x7fff_ffffu32 == depth & 0x7fff_ffffu32) by (bit_vector);
}

} // verus!
