//! Dragging the corners and the edges of brushes.
use vstd::prelude::*;
use crate::brush::{brush_of, copy_list, Brush, BrushPlane, BrushView, Brushes, Vector2, Vector3};
use crate::brush_edit::{
    is_nearest, law_elements_written, law_first_of_the_nearest_is_picked,
    law_only_element_of_its_kind, law_toggled_element_is_selected, nearest, of_edited, pick_edited,
    toggled, with_only, BrushEditMode, BrushSelection, Candidate, EditMode, Element, ElementKind,
    SelectionView, PICK_RADIUS,
};
use crate::face_drag::{keeps_look, replane, replaned, BrushBoxSelectState, CursorOverride, DragInput};
use crate::operators::{ExtensionContext, OperatorResult};
use crate::seqs::{first_index, lemma_first_index, lemma_first_index_is, lemma_push_contains};
use crate::value::Entity;

verus! {

/// The axis that a drag is held to.
#[derive(Clone, Copy, Debug, PartialEq, Eq, Structural)]
pub enum VertexDragConstraint {
    Free,
    AxisX,
    AxisY,
    AxisZ,
}

pub open spec fn constraint_toggled(
    current: VertexDragConstraint,
    target: VertexDragConstraint,
) -> VertexDragConstraint {
    if current == target {
        VertexDragConstraint::Free
    } else {
        target
    }
}

/// The axis after the key of an axis was pressed: that axis, or none when it was that already.
pub fn toggle_constraint(current: VertexDragConstraint, target: VertexDragConstraint) -> (r:
    VertexDragConstraint)
    ensures
        r == constraint_toggled(current, target),
{
    if current == target {
        VertexDragConstraint::Free
    } else {
        target
    }
}

/// Pressing the key of an axis twice frees the drag.
pub proof fn law_constraint_twice_is_free(
    current: VertexDragConstraint,
    target: VertexDragConstraint,
)
    requires
        current != target,
    ensures
        constraint_toggled(constraint_toggled(current, target), target)
            == VertexDragConstraint::Free,
{
}

/// A brush as it was when a drag became active, and its corners that move.
#[derive(Debug)]
pub struct BrushDragCapture {
    pub entity: Entity,
    pub start_brush: Brush,
    /// The authored corners.
    pub start_all_vertices: Vec<Vector3>,
    pub indices: Vec<usize>,
    /// Where the moving corners were in the world.
    pub start_world: Vec<Vector3>,
}

/// What a [`BrushDragCapture`] stands for.
#[verifier::ext_equal]
pub ghost struct CaptureView {
    pub entity: Entity,
    pub start_brush: BrushView,
    pub start_all_vertices: Seq<Vector3>,
    pub indices: Seq<usize>,
    pub start_world: Seq<Vector3>,
}

impl View for BrushDragCapture {
    type V = CaptureView;

    open spec fn view(&self) -> CaptureView {
        CaptureView {
            entity: self.entity,
            start_brush: self.start_brush@,
            start_all_vertices: self.start_all_vertices@,
            indices: self.indices@,
            start_world: self.start_world@,
        }
    }
}

pub open spec fn captures_view(captures: Seq<BrushDragCapture>) -> Seq<CaptureView> {
    Seq::new(captures.len(), |i: int| captures[i]@)
}

/// A drag of corners or edges, from the press on.
#[derive(Debug)]
pub struct ElementDragState {
    pub active: bool,
    pub pending: Option<Vector2>,
    pub constraint: VertexDragConstraint,
    /// A corner that the drag adds.
    pub split_vertex: Option<Vector3>,
    pub start_brush: Option<Brush>,
    pub start_cursor: Vector2,
    /// The dragged corners of the active brush, each with its place.
    pub start_points: Vec<(usize, Vector3)>,
    pub start_all_vertices: Vec<Vector3>,
    pub brush_captures: Vec<BrushDragCapture>,
    pub drag_camera: Option<Entity>,
    pub drag_viewport: Option<Entity>,
}

/// What an [`ElementDragState`] stands for.
#[verifier::ext_equal]
pub ghost struct ElementDragView {
    pub active: bool,
    pub pending: Option<Vector2>,
    pub constraint: VertexDragConstraint,
    pub split_vertex: Option<Vector3>,
    pub start_brush: Option<BrushView>,
    pub start_cursor: Vector2,
    pub start_points: Seq<(usize, Vector3)>,
    pub start_all_vertices: Seq<Vector3>,
    pub captures: Seq<CaptureView>,
    pub drag_camera: Option<Entity>,
    pub drag_viewport: Option<Entity>,
}

impl View for ElementDragState {
    type V = ElementDragView;

    open spec fn view(&self) -> ElementDragView {
        ElementDragView {
            active: self.active,
            pending: self.pending,
            constraint: self.constraint,
            split_vertex: self.split_vertex,
            start_brush: brush_of(self.start_brush),
            start_cursor: self.start_cursor,
            start_points: self.start_points@,
            start_all_vertices: self.start_all_vertices@,
            captures: captures_view(self.brush_captures@),
            drag_camera: self.drag_camera,
            drag_viewport: self.drag_viewport,
        }
    }
}

/// The state that dragging corners or edges reads and changes.
#[derive(Debug)]
pub struct ElementEditor {
    pub selection: BrushSelection,
    pub box_select: BrushBoxSelectState,
    pub drag: ElementDragState,
    pub cursor: CursorOverride,
    pub brushes: Brushes,
}

/// What an [`ElementEditor`] stands for.
#[verifier::ext_equal]
pub ghost struct ElementEditorView {
    pub selection: SelectionView,
    pub box_select: BrushBoxSelectState,
    pub drag: ElementDragView,
    pub cursor: CursorOverride,
    pub brushes: Map<Entity, BrushView>,
}

impl View for ElementEditor {
    type V = ElementEditorView;

    open spec fn view(&self) -> ElementEditorView {
        ElementEditorView {
            selection: self.selection@,
            box_select: self.box_select,
            drag: self.drag@,
            cursor: self.cursor,
            brushes: self.brushes@,
        }
    }
}

/// The mesh that is shown for a brush: its corners, in the brush and in the world, the first
/// `authored` of which are the brush's own.
#[derive(Debug)]
pub struct MeshFacts {
    pub brush: Entity,
    /// The mesh is there; a brush that was just placed may have none yet.
    pub built: bool,
    pub vertices: Vec<Vector3>,
    pub world: Vec<Vector3>,
    pub authored: usize,
    /// Where the origin of the brush is in the world.
    pub origin: Vector3,
}

pub open spec fn facts_for(brush: Entity) -> spec_fn(MeshFacts) -> bool {
    |f: MeshFacts| f.brush == brush
}

/// The mesh of a brush, if it has one.
pub open spec fn facts_of(facts: Seq<MeshFacts>, brush: Entity) -> Option<MeshFacts> {
    let i = first_index(facts, facts_for(brush));
    if i < facts.len() {
        Some(facts[i])
    } else {
        None
    }
}

fn find_facts(facts: &Vec<MeshFacts>, brush: Entity) -> (r: Option<usize>)
    ensures
        match r {
            Some(i) => i < facts@.len() && facts_of(facts@, brush) == Some(facts@[i as int]),
            None => facts_of(facts@, brush) is None,
        },
{
    let ghost p = facts_for(brush);
    let mut i: usize = 0;
    while i < facts.len()
        invariant
            i <= facts.len(),
            p == facts_for(brush),
            forall|j: int| 0 <= j < i ==> !p(#[trigger] facts@[j]),
        decreases facts.len() - i,
    {
        if facts[i].brush == brush {
            proof {
                lemma_first_index_is(facts@, p, i as int);
            }
            return Some(i);
        }
        i = i + 1;
    }
    proof {
        lemma_first_index_is(facts@, p, facts@.len() as int);
    }
    None
}

/// A place where a corner can be added: the middle of an edge or of a face.
#[derive(Clone, Copy, Debug, PartialEq, Eq, Structural)]
pub struct SplitCandidate {
    pub position: Vector3,
    pub visible: bool,
    pub distance: u32,
}

/// The place that is picked, and its distance: the nearest visible one below the limit, and of
/// those equally near the first.
pub open spec fn nearest_split(candidates: Seq<SplitCandidate>, limit: u32) -> (
    Option<Vector3>,
    u32,
)
    decreases candidates.len(),
{
    if candidates.len() == 0 {
        (None, limit)
    } else {
        let best = nearest_split(candidates.drop_last(), limit);
        let c = candidates.last();
        if c.visible && c.distance < best.1 {
            (Some(c.position), c.distance)
        } else {
            best
        }
    }
}

/// Where a corner is added: the middle of an edge, or, with none near, of a face.
pub open spec fn split_place(edges: Seq<SplitCandidate>, faces: Seq<SplitCandidate>) -> Option<
    Vector3,
> {
    match nearest_split(edges, PICK_RADIUS).0 {
        Some(p) => Some(p),
        None => nearest_split(faces, PICK_RADIUS).0,
    }
}

fn pick_split(candidates: &Vec<SplitCandidate>) -> (r: Option<Vector3>)
    ensures
        r == nearest_split(candidates@, PICK_RADIUS).0,
{
    let mut best: Option<Vector3> = None;
    let mut distance: u32 = PICK_RADIUS;
    let mut i: usize = 0;
    assert(candidates@.subrange(0, 0) =~= Seq::empty());
    while i < candidates.len()
        invariant
            i <= candidates.len(),
            (best, distance) == nearest_split(candidates@.subrange(0, i as int), PICK_RADIUS),
        decreases candidates.len() - i,
    {
        proof {
            assert(candidates@.subrange(0, i + 1).drop_last() =~= candidates@.subrange(
                0,
                i as int,
            ));
            assert(candidates@.subrange(0, i + 1).last() == candidates@[i as int]);
        }
        let c: SplitCandidate = candidates[i];
        if c.visible && c.distance < distance {
            best = Some(c.position);
            distance = c.distance;
        }
        i = i + 1;
    }
    assert(candidates@.subrange(0, i as int) =~= candidates@);
    best
}

/// The drag with nothing going on.
pub open spec fn element_ended(d: ElementDragView) -> ElementDragView {
    ElementDragView {
        active: false,
        pending: None,
        constraint: VertexDragConstraint::Free,
        split_vertex: None,
        start_brush: None,
        captures: Seq::empty(),
        drag_camera: None,
        drag_viewport: None,
        ..d
    }
}

/// The state after a press with the shift key: a corner is to be added to the active brush.
pub open spec fn split_pressed(
    s: ElementEditorView,
    input: DragInput,
    facts: Seq<MeshFacts>,
    place: Option<Vector3>,
) -> (ElementEditorView, OperatorResult) {
    match s.selection.active {
        Some(b) => match (facts_of(facts, b), place) {
            (Some(f), Some(p)) => if !f.built {
                (s, OperatorResult::Cancelled)
            } else {
                (
                    ElementEditorView {
                        selection: s.selection.with_elements(
                            b,
                            with_only(s.selection.elements(b), Element::Vertex(f.authored)),
                        ),
                        drag: ElementDragView {
                            split_vertex: Some(p),
                            pending: input.cursor,
                            ..s.drag
                        },
                        ..s
                    },
                    OperatorResult::Running,
                )
            },
            _ => (s, OperatorResult::Cancelled),
        },
        None => (s, OperatorResult::Cancelled),
    }
}

/// The state after a press on an element. An element that is selected already is dragged with all
/// that are; another is selected alone.
pub open spec fn element_pressed(
    s: ElementEditorView,
    input: DragInput,
    view: (Entity, Entity),
    candidates: Seq<Candidate>,
) -> (ElementEditorView, OperatorResult) {
    match nearest(candidates, of_edited(s.selection), PICK_RADIUS).0 {
        None => (
            if input.ctrl {
                s
            } else {
                ElementEditorView {
                    box_select: BrushBoxSelectState { pending: input.cursor, shift: input.shift },
                    ..s
                }
            },
            OperatorResult::Cancelled,
        ),
        Some((brush, e)) => {
            let active = SelectionView { active: Some(brush), ..s.selection };
            if input.ctrl {
                (
                    ElementEditorView {
                        selection: active.with_elements(
                            brush,
                            toggled(active.elements(brush), e),
                        ),
                        ..s
                    },
                    OperatorResult::Cancelled,
                )
            } else {
                let none = active.deselected();
                (
                    ElementEditorView {
                        selection: if active.elements(brush).contains(e) {
                            active
                        } else {
                            none.with_elements(brush, with_only(none.elements(brush), e))
                        },
                        drag: ElementDragView {
                            pending: input.cursor,
                            drag_camera: Some(view.0),
                            drag_viewport: Some(view.1),
                            ..s.drag
                        },
                        ..s
                    },
                    OperatorResult::Running,
                )
            }
        },
    }
}

/// The keys for the axes in one frame.
#[derive(Clone, Copy, Debug, PartialEq, Eq, Structural)]
pub struct AxisKeys {
    pub x: bool,
    pub y: bool,
    pub z: bool,
}

/// The axis after the keys of a frame.
pub open spec fn constrained(current: VertexDragConstraint, keys: AxisKeys) -> VertexDragConstraint {
    if keys.x {
        constraint_toggled(current, VertexDragConstraint::AxisX)
    } else if keys.y {
        constraint_toggled(current, VertexDragConstraint::AxisY)
    } else if keys.z {
        constraint_toggled(current, VertexDragConstraint::AxisZ)
    } else {
        current
    }
}

/// `indices` with one added at the end, unless it is there.
pub open spec fn with_index(indices: Seq<usize>, i: usize) -> Seq<usize> {
    if indices.contains(i) {
        indices
    } else {
        indices.push(i)
    }
}

/// The corners that elements move, each once: a corner itself, and both ends of an edge.
pub open spec fn corners_of(elements: Seq<Element>) -> Seq<usize>
    decreases elements.len(),
{
    if elements.len() == 0 {
        Seq::empty()
    } else {
        let before = corners_of(elements.drop_last());
        match elements.last() {
            Element::Edge(a, b) => with_index(with_index(before, a), b),
            Element::Vertex(v) => before.push(v),
            Element::Face(_) => before,
        }
    }
}

/// A corner by its index, or the origin.
pub open spec fn corner_at(vertices: Seq<Vector3>, i: usize) -> Vector3 {
    if i < vertices.len() {
        vertices[i as int]
    } else {
        Vector3::zero_spec()
    }
}

/// The place of a corner in the world.
pub open spec fn world_at(f: MeshFacts, i: usize) -> Vector3 {
    if i < f.vertices@.len() && i < f.world@.len() {
        f.world@[i as int]
    } else {
        f.origin
    }
}

/// The authored corners of a mesh.
pub open spec fn authored_of(f: MeshFacts) -> Seq<Vector3> {
    if f.authored <= f.vertices@.len() {
        f.vertices@.subrange(0, f.authored as int)
    } else {
        f.vertices@
    }
}

/// The capture of one brush.
pub open spec fn captured(brush: Entity, b: BrushView, f: MeshFacts, indices: Seq<usize>) -> CaptureView {
    CaptureView {
        entity: brush,
        start_brush: b,
        start_all_vertices: authored_of(f),
        indices,
        start_world: Seq::new(indices.len(), |i: int| world_at(f, indices[i])),
    }
}

/// The captures of the edited brushes, as far as the first `n` of them: of each that has selected
/// elements of the kind, a mesh, and is a brush.
pub open spec fn captured_to(
    s: ElementEditorView,
    kind: ElementKind,
    facts: Seq<MeshFacts>,
    n: nat,
) -> Seq<CaptureView>
    decreases n,
{
    if n == 0 || n > s.selection.subs.len() {
        Seq::empty()
    } else {
        let before = captured_to(s, kind, facts, (n - 1) as nat);
        let e = s.selection.subs[n - 1].brush;
        let indices = corners_of(s.selection.elements_of_kind(e, kind));
        match facts_of(facts, e) {
            Some(f) => if f.built && indices.len() > 0 && s.brushes.contains_key(e) {
                before.push(captured(e, s.brushes[e], f, indices))
            } else {
                before
            },
            None => before,
        }
    }
}

/// The captures of all edited brushes.
pub open spec fn captured_all(
    s: ElementEditorView,
    kind: ElementKind,
    facts: Seq<MeshFacts>,
) -> Seq<CaptureView> {
    captured_to(s, kind, facts, s.selection.subs.len())
}

pub open spec fn is_capture_of(e: Entity) -> spec_fn(CaptureView) -> bool {
    |c: CaptureView| c.entity == e
}

/// The captures with that of the active brush extended by the corner that the drag adds.
pub open spec fn with_split(
    captures: Seq<CaptureView>,
    active: Entity,
    f: MeshFacts,
    extended: Seq<Vector3>,
    split_world: Vector3,
) -> Seq<CaptureView> {
    let k = first_index(captures, is_capture_of(active));
    if k < captures.len() {
        captures.update(
            k,
            CaptureView {
                start_world: Seq::new(
                    captures[k].indices.len(),
                    |i: int| split_world_at(f, extended, captures[k].indices[i], split_world),
                ),
                start_all_vertices: extended,
                ..captures[k]
            },
        )
    } else {
        captures
    }
}

/// The place in the world of a corner, one of which the drag adds.
pub open spec fn split_world_at(
    f: MeshFacts,
    extended: Seq<Vector3>,
    i: usize,
    split_world: Vector3,
) -> Vector3 {
    if i + 1 == extended.len() {
        split_world
    } else if i < extended.len() {
        world_at(f, i)
    } else {
        f.origin
    }
}

/// Whether a pending press becomes a drag in this frame.
pub open spec fn element_promotes(
    s: ElementEditorView,
    input: DragInput,
    facts: Seq<MeshFacts>,
) -> bool {
    &&& s.drag.pending is Some
    &&& input.left_down
    &&& !s.drag.active
    &&& input.travelled
    &&& s.selection.active matches Some(b) && s.brushes.contains_key(b) && (facts_of(
        facts,
        b,
    ) matches Some(f) && f.built)
}

/// The state after a pending press became a drag.
pub open spec fn element_promoted(
    s: ElementEditorView,
    kind: ElementKind,
    viewport_cursor: Vector2,
    facts: Seq<MeshFacts>,
    split_world: Vector3,
) -> ElementEditorView {
    let b = s.selection.active->0;
    let f = facts_of(facts, b)->0;
    let all = match s.drag.split_vertex {
        Some(p) => authored_of(f).push(p),
        None => authored_of(f),
    };
    let indices = corners_of(s.selection.elements_of_kind(b, kind));
    let places = if kind == ElementKind::Edge {
        f.vertices@
    } else {
        all
    };
    let captures = captured_all(s, kind, facts);
    ElementEditorView {
        drag: ElementDragView {
            active: true,
            constraint: VertexDragConstraint::Free,
            start_brush: Some(s.brushes[b]),
            start_cursor: viewport_cursor,
            start_all_vertices: all,
            start_points: Seq::new(
                indices.len(),
                |i: int| (indices[i], corner_at(places, indices[i])),
            ),
            captures: if s.drag.split_vertex is Some {
                with_split(captures, b, f, all, split_world)
            } else {
                captures
            },
            ..s.drag
        },
        cursor: CursorOverride::Grabbing,
        ..s
    }
}

/// The state after a drag ended.
pub open spec fn element_left(s: ElementEditorView) -> ElementEditorView {
    ElementEditorView { drag: element_ended(s.drag), cursor: s.cursor.released(), ..s }
}

/// The state and the result after a frame of a drag that began earlier.
pub open spec fn element_continued(
    s: ElementEditorView,
    kind: ElementKind,
    input: DragInput,
    keys: AxisKeys,
    viewport_cursor: Vector2,
    facts: Seq<MeshFacts>,
    split_world: Vector3,
) -> (ElementEditorView, OperatorResult) {
    let present = s.selection.active matches Some(b) && facts_of(facts, b) is Some;
    let t = if s.drag.active {
        ElementEditorView {
            drag: ElementDragView { constraint: constrained(s.drag.constraint, keys), ..s.drag },
            ..s
        }
    } else {
        s
    };
    if !present {
        (s, OperatorResult::Cancelled)
    } else if t.drag.active && input.right_pressed {
        (t, OperatorResult::Cancelled)
    } else if input.left_released {
        (element_left(t), OperatorResult::Finished)
    } else if element_promotes(t, input, facts) {
        (element_promoted(t, kind, viewport_cursor, facts, split_world), OperatorResult::Running)
    } else {
        (t, OperatorResult::Running)
    }
}

/// The state and the result after a frame.
pub open spec fn element_dragged(
    s: ElementEditorView,
    kind: ElementKind,
    input: DragInput,
    keys: AxisKeys,
    candidates: Seq<Candidate>,
    place: Option<Vector3>,
    facts: Seq<MeshFacts>,
    split_world: Vector3,
) -> (ElementEditorView, OperatorResult) {
    match (
        input.cursor,
        input.view_for(s.drag.drag_camera, s.drag.drag_viewport),
        input.viewport_cursor,
    ) {
        (Some(_), Some(view), Some(viewport_cursor)) => if input.modal {
            element_continued(s, kind, input, keys, viewport_cursor, facts, split_world)
        } else if s.selection.subs.len() == 0 {
            (s, OperatorResult::Cancelled)
        } else if kind == ElementKind::Vertex && input.shift && !input.ctrl {
            split_pressed(s, input, facts, place)
        } else {
            element_pressed(s, input, view, candidates)
        },
        _ => (s, OperatorResult::Cancelled),
    }
}

fn push_index(indices: &mut Vec<usize>, x: usize)
    ensures
        final(indices)@ == with_index(old(indices)@, x),
{
    let mut i: usize = 0;
    while i < indices.len()
        invariant
            i <= indices.len(),
            indices@ == old(indices)@,
            forall|j: int| 0 <= j < i ==> indices@[j] != x,
        decreases indices.len() - i,
    {
        if indices[i] == x {
            assert(indices@[i as int] == x);
            return ;
        }
        i = i + 1;
    }
    indices.push(x);
}

fn collect_corners(elements: &Vec<Element>) -> (r: Vec<usize>)
    ensures
        r@ == corners_of(elements@),
{
    let mut out: Vec<usize> = Vec::new();
    let mut i: usize = 0;
    assert(elements@.subrange(0, 0) =~= Seq::empty());
    while i < elements.len()
        invariant
            i <= elements.len(),
            out@ == corners_of(elements@.subrange(0, i as int)),
        decreases elements.len() - i,
    {
        proof {
            assert(elements@.subrange(0, i + 1).drop_last() =~= elements@.subrange(0, i as int));
            assert(elements@.subrange(0, i + 1).last() == elements@[i as int]);
        }
        match elements[i] {
            Element::Edge(a, b) => {
                push_index(&mut out, a);
                push_index(&mut out, b);
            },
            Element::Vertex(v) => {
                out.push(v);
            },
            Element::Face(_) => {},
        }
        i = i + 1;
    }
    assert(elements@.subrange(0, i as int) =~= elements@);
    out
}

fn authored_corners(f: &MeshFacts) -> (r: Vec<Vector3>)
    ensures
        r@ == authored_of(*f),
{
    let n: usize = if f.authored <= f.vertices.len() {
        f.authored
    } else {
        f.vertices.len()
    };
    let mut out: Vec<Vector3> = Vec::new();
    let mut i: usize = 0;
    while i < n
        invariant
            i <= n,
            n <= f.vertices@.len(),
            out@ == f.vertices@.subrange(0, i as int),
        decreases n - i,
    {
        out.push(f.vertices[i]);
        i = i + 1;
        assert(out@ =~= f.vertices@.subrange(0, i as int));
    }
    assert(out@ =~= authored_of(*f));
    out
}

fn place_in_world(f: &MeshFacts, i: usize) -> (r: Vector3)
    ensures
        r == world_at(*f, i),
{
    if i < f.vertices.len() && i < f.world.len() {
        f.world[i]
    } else {
        f.origin
    }
}

fn places_in_world(f: &MeshFacts, indices: &Vec<usize>) -> (r: Vec<Vector3>)
    ensures
        r@ == Seq::new(indices@.len(), |i: int| world_at(*f, indices@[i])),
{
    let mut out: Vec<Vector3> = Vec::new();
    let mut i: usize = 0;
    while i < indices.len()
        invariant
            i <= indices.len(),
            out@.len() == i,
            forall|j: int| 0 <= j < i ==> #[trigger] out@[j] == world_at(*f, indices@[j]),
        decreases indices.len() - i,
    {
        out.push(place_in_world(f, indices[i]));
        i = i + 1;
    }
    assert(out@ =~= Seq::new(indices@.len(), |i: int| world_at(*f, indices@[i])));
    out
}

fn split_places(
    f: &MeshFacts,
    extended: &Vec<Vector3>,
    indices: &Vec<usize>,
    split_world: Vector3,
) -> (r: Vec<Vector3>)
    ensures
        r@ == Seq::new(
            indices@.len(),
            |i: int| split_world_at(*f, extended@, indices@[i], split_world),
        ),
{
    let mut out: Vec<Vector3> = Vec::new();
    let n: usize = extended.len();
    let mut i: usize = 0;
    while i < indices.len()
        invariant
            i <= indices.len(),
            n == extended@.len(),
            out@.len() == i,
            forall|j: int|
                0 <= j < i ==> #[trigger] out@[j] == split_world_at(
                    *f,
                    extended@,
                    indices@[j],
                    split_world,
                ),
        decreases indices.len() - i,
    {
        let v: usize = indices[i];
        let place: Vector3 = if n > 0 && v == n - 1 {
            split_world
        } else if v < n {
            place_in_world(f, v)
        } else {
            f.origin
        };
        out.push(place);
        i = i + 1;
    }
    assert(out@ =~= Seq::new(
        indices@.len(),
        |i: int| split_world_at(*f, extended@, indices@[i], split_world),
    ));
    out
}

fn points_at(places: &Vec<Vector3>, indices: &Vec<usize>) -> (r: Vec<(usize, Vector3)>)
    ensures
        r@ == Seq::new(indices@.len(), |i: int| (indices@[i], corner_at(places@, indices@[i]))),
{
    let mut out: Vec<(usize, Vector3)> = Vec::new();
    let mut i: usize = 0;
    while i < indices.len()
        invariant
            i <= indices.len(),
            out@.len() == i,
            forall|j: int|
                0 <= j < i ==> #[trigger] out@[j] == (indices@[j], corner_at(places@, indices@[j])),
        decreases indices.len() - i,
    {
        let v: usize = indices[i];
        let p: Vector3 = if v < places.len() {
            places[v]
        } else {
            Vector3::zero()
        };
        out.push((v, p));
        i = i + 1;
    }
    assert(out@ =~= Seq::new(
        indices@.len(),
        |i: int| (indices@[i], corner_at(places@, indices@[i])),
    ));
    out
}

fn find_capture(captures: &Vec<BrushDragCapture>, e: Entity) -> (r: Option<usize>)
    ensures
        match r {
            Some(i) => i == first_index(captures_view(captures@), is_capture_of(e)) && i
                < captures@.len(),
            None => first_index(captures_view(captures@), is_capture_of(e)) >= captures@.len(),
        },
{
    let ghost all = captures_view(captures@);
    let ghost p = is_capture_of(e);
    let mut i: usize = 0;
    while i < captures.len()
        invariant
            i <= captures.len(),
            all == captures_view(captures@),
            p == is_capture_of(e),
            forall|j: int| 0 <= j < i ==> !p(#[trigger] all[j]),
        decreases captures.len() - i,
    {
        assert(all[i as int] == captures@[i as int]@);
        if captures[i].entity == e {
            proof {
                lemma_first_index_is(all, p, i as int);
            }
            return Some(i);
        }
        i = i + 1;
    }
    proof {
        lemma_first_index_is(all, p, all.len() as int);
    }
    None
}

fn contains_element(list: &Vec<Element>, e: Element) -> (r: bool)
    ensures
        r == list@.contains(e),
{
    let mut i: usize = 0;
    while i < list.len()
        invariant
            i <= list.len(),
            forall|j: int| 0 <= j < i ==> list@[j] != e,
        decreases list.len() - i,
    {
        if list[i] == e {
            assert(list@[i as int] == e);
            return true;
        }
        i = i + 1;
    }
    false
}

impl ElementEditor {
    /// The captures of the edited brushes that have selected elements of a kind: what one shared
    /// move applies to.
    pub fn capture_edit_brushes(&self, kind: ElementKind, facts: &Vec<MeshFacts>) -> (r: Vec<
        BrushDragCapture,
    >)
        ensures
            captures_view(r@) == captured_all(self@, kind, facts@),
    {
        let mut out: Vec<BrushDragCapture> = Vec::new();
        let n: usize = self.selection.subs.len();
        let mut i: usize = 0;
        assert(captures_view(out@) =~= Seq::empty());
        while i < n
            invariant
                i <= n,
                n == self.selection.subs@.len(),
                n == self@.selection.subs.len(),
                captures_view(out@) == captured_to(self@, kind, facts@, i as nat),
            decreases n - i,
        {
            let ghost before = captures_view(out@);
            assert(self@.selection.subs[i as int] == self.selection.subs@[i as int]@);
            let e: Entity = self.selection.subs[i].brush;
            if let Some(k) = find_facts(facts, e) {
                let indices: Vec<usize> = collect_corners(
                    &self.selection.elements_of_kind(e, kind),
                );
                if facts[k].built && indices.len() > 0 {
                    if let Some(brush) = self.brushes.get(e) {
                        let capture: BrushDragCapture = BrushDragCapture {
                            entity: e,
                            start_brush: brush,
                            start_all_vertices: authored_corners(&facts[k]),
                            start_world: places_in_world(&facts[k], &indices),
                            indices,
                        };
                        let ghost v = capture@;
                        assert(v =~= captured(
                            e,
                            self@.brushes[e],
                            facts@[k as int],
                            indices@,
                        ));
                        out.push(capture);
                        assert(captures_view(out@) =~= before.push(v));
                    }
                }
            }
            i = i + 1;
        }
        out
    }

    fn press_split(&mut self, input: &DragInput, facts: &Vec<MeshFacts>, place: Option<Vector3>) -> (r:
        OperatorResult)
        ensures
            (final(self)@, r) == split_pressed(old(self)@, *input, facts@, place),
    {
        let ghost s = self@;
        let b: Entity = match self.selection.active_brush {
            Some(b) => b,
            None => {
                return OperatorResult::Cancelled;
            },
        };
        match (find_facts(facts, b), place) {
            (Some(k), Some(p)) => {
                if !facts[k].built {
                    return OperatorResult::Cancelled;
                }
                self.selection.select_only(b, Element::Vertex(facts[k].authored));
                self.drag.split_vertex = Some(p);
                self.drag.pending = input.cursor;
                assert(self@ =~= split_pressed(s, *input, facts@, place).0);
                OperatorResult::Running
            },
            _ => OperatorResult::Cancelled,
        }
    }

    fn press_element(
        &mut self,
        input: &DragInput,
        view: (Entity, Entity),
        candidates: &Vec<Candidate>,
    ) -> (r: OperatorResult)
        ensures
            (final(self)@, r) == element_pressed(old(self)@, *input, view, candidates@),
    {
        let ghost s = self@;
        match pick_edited(&self.selection, candidates, PICK_RADIUS) {
            None => {
                if !input.ctrl {
                    self.box_select.pending = input.cursor;
                    self.box_select.shift = input.shift;
                }
                assert(self@ =~= element_pressed(s, *input, view, candidates@).0);
                OperatorResult::Cancelled
            },
            Some((brush, e)) => {
                self.selection.active_brush = Some(brush);
                assert(self@.selection =~= (SelectionView { active: Some(brush), ..s.selection }));
                if input.ctrl {
                    self.selection.toggle(brush, e);
                    assert(self@ =~= element_pressed(s, *input, view, candidates@).0);
                    return OperatorResult::Cancelled;
                }
                let selected: Vec<Element> = self.selection.elements(brush);
                if !contains_element(&selected, e) {
                    self.selection.clear_sub_selections();
                    self.selection.select_only(brush, e);
                }
                self.drag.pending = input.cursor;
                self.drag.drag_camera = Some(view.0);
                self.drag.drag_viewport = Some(view.1);
                assert(self@ =~= element_pressed(s, *input, view, candidates@).0);
                OperatorResult::Running
            },
        }
    }

    fn promote_element(
        &mut self,
        kind: ElementKind,
        b: Entity,
        k: usize,
        viewport_cursor: Vector2,
        facts: &Vec<MeshFacts>,
        split_world: Vector3,
    )
        requires
            old(self)@.selection.active == Some(b),
            old(self)@.brushes.contains_key(b),
            k < facts@.len(),
            facts_of(facts@, b) == Some(facts@[k as int]),
        ensures
            final(self)@ == element_promoted(
                old(self)@,
                kind,
                viewport_cursor,
                facts@,
                split_world,
            ),
    {
        let ghost s = self@;
        let mut captures: Vec<BrushDragCapture> = self.capture_edit_brushes(kind, facts);
        let indices: Vec<usize> = collect_corners(&self.selection.elements_of_kind(b, kind));
        let mut all: Vec<Vector3> = authored_corners(&facts[k]);
        if let Some(p) = self.drag.split_vertex {
            all.push(p);
            let ghost before = captures_view(captures@);
            if let Some(c) = find_capture(&captures, b) {
                assert(before[c as int] == captures@[c as int]@);
                let world: Vec<Vector3> = split_places(
                    &facts[k],
                    &all,
                    &captures[c].indices,
                    split_world,
                );
                let capture: &mut BrushDragCapture = &mut captures[c];
                capture.start_world = world;
                capture.start_all_vertices = copy_list(&all);
            }
            assert(captures_view(captures@) =~= with_split(
                before,
                b,
                facts@[k as int],
                all@,
                split_world,
            ));
        }
        self.drag.active = true;
        self.drag.constraint = VertexDragConstraint::Free;
        self.drag.start_brush = self.brushes.get(b);
        self.drag.start_cursor = viewport_cursor;
        self.drag.start_points = if kind == ElementKind::Edge {
            points_at(&facts[k].vertices, &indices)
        } else {
            points_at(&all, &indices)
        };
        self.drag.start_all_vertices = all;
        self.drag.brush_captures = captures;
        self.cursor = CursorOverride::Grabbing;
        assert(self@ =~= element_promoted(s, kind, viewport_cursor, facts@, split_world));
    }

    fn leave_element(&mut self)
        ensures
            final(self)@ == element_left(old(self)@),
    {
        self.drag.active = false;
        self.drag.pending = None;
        self.drag.constraint = VertexDragConstraint::Free;
        self.drag.split_vertex = None;
        self.drag.start_brush = None;
        self.drag.brush_captures = Vec::new();
        self.drag.drag_camera = None;
        self.drag.drag_viewport = None;
        self.cursor = self.cursor.clear_grab_cursor();
        assert(self@.drag.captures =~= Seq::empty());
        assert(self@ =~= element_left(old(self)@));
    }

    fn continue_element(
        &mut self,
        kind: ElementKind,
        input: &DragInput,
        keys: &AxisKeys,
        viewport_cursor: Vector2,
        facts: &Vec<MeshFacts>,
        split_world: Vector3,
    ) -> (r: OperatorResult)
        ensures
            (final(self)@, r) == element_continued(
                old(self)@,
                kind,
                *input,
                *keys,
                viewport_cursor,
                facts@,
                split_world,
            ),
    {
        let b: Entity = match self.selection.active_brush {
            Some(b) => b,
            None => {
                return OperatorResult::Cancelled;
            },
        };
        let k: usize = match find_facts(facts, b) {
            Some(k) => k,
            None => {
                return OperatorResult::Cancelled;
            },
        };
        if self.drag.active {
            if keys.x {
                self.drag.constraint = toggle_constraint(
                    self.drag.constraint,
                    VertexDragConstraint::AxisX,
                );
            } else if keys.y {
                self.drag.constraint = toggle_constraint(
                    self.drag.constraint,
                    VertexDragConstraint::AxisY,
                );
            } else if keys.z {
                self.drag.constraint = toggle_constraint(
                    self.drag.constraint,
                    VertexDragConstraint::AxisZ,
                );
            }
        }
        if self.drag.active && input.right_pressed {
            return OperatorResult::Cancelled;
        }
        if input.left_released {
            self.leave_element();
            return OperatorResult::Finished;
        }
        if self.drag.pending.is_some() && input.left_down && !self.drag.active && input.travelled
            && self.brushes.contains(b) && facts[k].built {
            self.promote_element(kind, b, k, viewport_cursor, facts, split_world);
        }
        OperatorResult::Running
    }

    fn drag_element(
        &mut self,
        kind: ElementKind,
        input: &DragInput,
        keys: &AxisKeys,
        candidates: &Vec<Candidate>,
        place: Option<Vector3>,
        facts: &Vec<MeshFacts>,
        split_world: Vector3,
    ) -> (r: OperatorResult)
        ensures
            (final(self)@, r) == element_dragged(
                old(self)@,
                kind,
                *input,
                *keys,
                candidates@,
                place,
                facts@,
                split_world,
            ),
    {
        let view: (Entity, Entity) = match input.drag_view(
            self.drag.drag_camera,
            self.drag.drag_viewport,
        ) {
            Some(v) => v,
            None => {
                return OperatorResult::Cancelled;
            },
        };
        let viewport_cursor: Vector2 = match input.viewport_cursor {
            Some(c) => c,
            None => {
                return OperatorResult::Cancelled;
            },
        };
        if input.cursor.is_none() {
            return OperatorResult::Cancelled;
        }
        if input.modal {
            return self.continue_element(kind, input, keys, viewport_cursor, facts, split_world);
        }
        if self.selection.subs.len() == 0 {
            return OperatorResult::Cancelled;
        }
        if kind == ElementKind::Vertex && input.shift && !input.ctrl {
            return self.press_split(input, facts, place);
        }
        self.press_element(input, view, candidates)
    }

    /// One frame of dragging corners. A first frame picks the corner near the pointer among all
    /// edited brushes, or, with the shift key, a place on the active brush where one is added. Later
    /// frames follow the pointer until the button is let go, or the right button cancels. While the
    /// drag is active its brushes are moved with [`ElementEditor::apply_shared_drag`].
    pub fn brush_vertex_drag(
        &mut self,
        input: &DragInput,
        keys: &AxisKeys,
        candidates: &Vec<Candidate>,
        edge_middles: &Vec<SplitCandidate>,
        face_middles: &Vec<SplitCandidate>,
        facts: &Vec<MeshFacts>,
        split_world: Vector3,
    ) -> (r: OperatorResult)
        ensures
            (final(self)@, r) == element_dragged(
                old(self)@,
                ElementKind::Vertex,
                *input,
                *keys,
                candidates@,
                split_place(edge_middles@, face_middles@),
                facts@,
                split_world,
            ),
    {
        let place: Option<Vector3> = match pick_split(edge_middles) {
            Some(p) => Some(p),
            None => pick_split(face_middles),
        };
        self.drag_element(
            ElementKind::Vertex,
            input,
            keys,
            candidates,
            place,
            facts,
            split_world,
        )
    }

    /// One frame of dragging edges, as for corners; no corner can be added.
    pub fn brush_edge_drag(
        &mut self,
        input: &DragInput,
        keys: &AxisKeys,
        candidates: &Vec<Candidate>,
        facts: &Vec<MeshFacts>,
    ) -> (r: OperatorResult)
        ensures
            (final(self)@, r) == element_dragged(
                old(self)@,
                ElementKind::Edge,
                *input,
                *keys,
                candidates@,
                None,
                facts@,
                Vector3::zero_spec(),
            ),
    {
        self.drag_element(
            ElementKind::Edge,
            input,
            keys,
            candidates,
            None,
            facts,
            Vector3::zero(),
        )
    }

    /// Moves the corners of every captured brush as the engine computed. Without a move, as when the
    /// pointer cannot be followed in this frame, nothing changes.
    pub fn apply_shared_drag(&mut self, moves: Option<Vec<BrushMove>>)
        ensures
            final(self)@ == (ElementEditorView {
                brushes: match moves {
                    Some(m) => broadcast_to(old(self)@.brushes, old(self)@.drag.captures, m@),
                    None => old(self)@.brushes,
                },
                ..old(self)@
            }),
    {
        if let Some(moves) = moves {
            broadcast_drag_to_captures(&self.drag.brush_captures, moves, &mut self.brushes);
        }
    }

    /// Cancels a drag: the captured brushes are as they were at the start.
    pub fn cancel_element_drag(&mut self)
        ensures
            final(self)@ == element_left(
                ElementEditorView {
                    brushes: captures_restored(old(self)@.brushes, old(self)@.drag.captures),
                    ..old(self)@
                },
            ),
    {
        restore_captures(&self.drag.brush_captures, &mut self.brushes);
        self.leave_element();
    }
}

/// What the engine computed for one captured brush in this frame.
#[derive(Debug)]
pub struct BrushMove {
    /// The new places of the moving corners.
    pub positions: Vec<Vector3>,
    /// The new planes of the faces, for a brush whose topology is edited.
    pub planes: Vec<BrushPlane>,
    /// Whether the topology of the brush is edited; otherwise the brush is built anew from its
    /// corners, where that is possible.
    pub topology: bool,
    pub rebuilt: Option<Brush>,
}

/// Corners with some of them moved: each of `indices` to the place beside it.
pub open spec fn overwritten(
    vertices: Seq<Vector3>,
    indices: Seq<usize>,
    to: Seq<Vector3>,
) -> Seq<Vector3>
    decreases indices.len(),
{
    if indices.len() == 0 {
        vertices
    } else {
        let before = overwritten(vertices, indices.drop_last(), to);
        let v = indices.last() as int;
        let k = indices.len() - 1;
        if k < to.len() && v < before.len() {
            before.update(v, to[k])
        } else {
            before
        }
    }
}

/// Corners with some of them moved.
pub fn moved_vertices(vertices: &Vec<Vector3>, indices: &Vec<usize>, to: &Vec<Vector3>) -> (r: Vec<
    Vector3,
>)
    ensures
        r@ == overwritten(vertices@, indices@, to@),
{
    let mut out: Vec<Vector3> = copy_list(vertices);
    let mut i: usize = 0;
    assert(indices@.subrange(0, 0) =~= Seq::empty());
    while i < indices.len()
        invariant
            i <= indices.len(),
            out@ == overwritten(vertices@, indices@.subrange(0, i as int), to@),
        decreases indices.len() - i,
    {
        proof {
            assert(indices@.subrange(0, i + 1).drop_last() =~= indices@.subrange(0, i as int));
            assert(indices@.subrange(0, i + 1).last() == indices@[i as int]);
        }
        let v: usize = indices[i];
        if i < to.len() && v < out.len() {
            out.set(v, to[i]);
        }
        i = i + 1;
    }
    assert(indices@.subrange(0, i as int) =~= indices@);
    out
}

/// A brush after the move of some of its corners.
pub open spec fn deltas_applied(b: BrushView, indices: Seq<usize>, m: BrushMove) -> BrushView {
    if m.topology {
        BrushView {
            vertices: overwritten(b.vertices, indices, m.positions@),
            faces: replaned(b.faces, m.planes@),
            ..b
        }
    } else {
        match m.rebuilt {
            Some(r) => r@,
            None => b,
        }
    }
}

/// Moves some corners of a brush. A brush whose topology is edited keeps its faces and gets new
/// planes; another is replaced by the one that was built anew from its corners, if there is one.
pub fn apply_vertex_deltas(brush: &mut Brush, indices: &Vec<usize>, m: &BrushMove)
    ensures
        final(brush)@ == deltas_applied(old(brush)@, indices@, *m),
{
    if m.topology {
        brush.vertices = moved_vertices(&brush.vertices, indices, &m.positions);
        replane(&mut brush.faces, &m.planes);
    } else if let Some(r) = &m.rebuilt {
        *brush = r.copy();
    }
}

/// Moving distinct corners lands each of them, leaves every other corner where it was, and keeps the
/// number of corners and of faces.
pub proof fn law_moved_corners_land(b: BrushView, indices: Seq<usize>, m: BrushMove)
    requires
        m.topology,
        indices.no_duplicates(),
        m.positions@.len() == indices.len(),
        forall|i: int| 0 <= i < indices.len() ==> #[trigger] indices[i] < b.vertices.len(),
    ensures
        ({
            let after = deltas_applied(b, indices, m);
            &&& after.faces.len() == b.faces.len()
            &&& forall|i: int|
                0 <= i < b.faces.len() ==> (#[trigger] after.faces[i]).plane == (if i
                    < m.planes@.len() {
                    m.planes@[i]
                } else {
                    b.faces[i].plane
                }) && keeps_look(b.faces[i], after.faces[i])
            &&& after.polygons == b.polygons
            &&& after.vertices.len() == b.vertices.len()
            &&& forall|i: int|
                0 <= i < indices.len() ==> after.vertices[#[trigger] indices[i] as int]
                    == m.positions@[i]
            &&& forall|v: int|
                0 <= v < b.vertices.len() && !indices.contains(v as usize)
                    ==> #[trigger] after.vertices[v] == b.vertices[v]
        }),
{
    lemma_overwritten(b.vertices, indices, m.positions@);
}

proof fn lemma_overwritten(vertices: Seq<Vector3>, indices: Seq<usize>, to: Seq<Vector3>)
    requires
        indices.no_duplicates(),
        indices.len() <= to.len(),
        forall|i: int| 0 <= i < indices.len() ==> #[trigger] indices[i] < vertices.len(),
    ensures
        overwritten(vertices, indices, to).len() == vertices.len(),
        forall|i: int|
            0 <= i < indices.len() ==> overwritten(vertices, indices, to)[
                #[trigger] indices[i] as int] == to[i],
        forall|v: int|
            0 <= v < vertices.len() && !indices.contains(v as usize) ==> #[trigger] overwritten(
                vertices,
                indices,
                to,
            )[v] == vertices[v],
    decreases indices.len(),
{
    if indices.len() > 0 {
        let init = indices.drop_last();
        let last = indices[indices.len() - 1];
        assert(init.no_duplicates()) by {
            assert forall|i: int, j: int|
                0 <= i < init.len() && 0 <= j < init.len() && i != j implies init[i] != init[j] by {
                assert(indices[i] != indices[j]);
            }
        }
        assert forall|i: int| 0 <= i < init.len() implies #[trigger] init[i] < vertices.len() by {
            assert(init[i] == indices[i]);
        }
        lemma_overwritten(vertices, init, to);
        let before = overwritten(vertices, init, to);
        let after = overwritten(vertices, indices, to);
        assert forall|i: int| 0 <= i < indices.len() implies after[#[trigger] indices[i] as int]
            == to[i] by {
            if i < init.len() {
                assert(indices[i] != last);
                assert(init[i] == indices[i]);
                assert(before[init[i] as int] == to[i]);
            }
        }
        assert forall|v: int|
            0 <= v < vertices.len() && !indices.contains(v as usize) implies #[trigger] after[v]
            == vertices[v] by {
            assert(indices.contains(last));
            assert(!init.contains(v as usize)) by {
                if init.contains(v as usize) {
                    let k = choose|k: int| 0 <= k < init.len() && init[k] == v as usize;
                    assert(indices[k] == v as usize);
                }
            }
            assert(before[v] == vertices[v]);
        }
    }
}

/// A brush whose topology is not edited becomes the one that was built anew from its corners, and
/// stays when none could be built.
pub proof fn law_rebuilt_brush_is_taken(b: BrushView, indices: Seq<usize>, m: BrushMove)
    requires
        !m.topology,
    ensures
        m.rebuilt matches Some(r) ==> deltas_applied(b, indices, m) == r@,
        m.rebuilt is None ==> deltas_applied(b, indices, m) == b,
{
}

/// The brushes after each captured one was moved in turn.
pub open spec fn broadcast_to(
    brushes: Map<Entity, BrushView>,
    captures: Seq<CaptureView>,
    moves: Seq<BrushMove>,
) -> Map<Entity, BrushView>
    decreases captures.len(),
{
    if captures.len() == 0 {
        brushes
    } else {
        let before = broadcast_to(brushes, captures.drop_last(), moves);
        let c = captures.last();
        let k = captures.len() - 1;
        if before.contains_key(c.entity) && k < moves.len() {
            before.insert(c.entity, deltas_applied(before[c.entity], c.indices, moves[k]))
        } else {
            before
        }
    }
}

/// Moves every captured brush that is still there.
pub fn broadcast_drag_to_captures(
    captures: &Vec<BrushDragCapture>,
    moves: Vec<BrushMove>,
    brushes: &mut Brushes,
)
    ensures
        final(brushes)@ == broadcast_to(old(brushes)@, captures_view(captures@), moves@),
{
    let ghost all = captures_view(captures@);
    let ghost start = brushes@;
    let mut i: usize = 0;
    assert(all.subrange(0, 0) =~= Seq::empty());
    while i < captures.len()
        invariant
            i <= captures.len(),
            all == captures_view(captures@),
            brushes@ == broadcast_to(start, all.subrange(0, i as int), moves@),
        decreases captures.len() - i,
    {
        proof {
            assert(all.subrange(0, i + 1).drop_last() =~= all.subrange(0, i as int));
            assert(all.subrange(0, i + 1).last() == all[i as int]);
            assert(all[i as int] == captures@[i as int]@);
        }
        let e: Entity = captures[i].entity;
        if let Some(brush) = brushes.get(e) {
            if i < moves.len() {
                let mut brush: Brush = brush;
                apply_vertex_deltas(&mut brush, &captures[i].indices, &moves[i]);
                brushes.set(e, brush);
            }
        }
        i = i + 1;
    }
    assert(all.subrange(0, i as int) =~= all);
}

/// The brushes with each captured one as it was.
pub open spec fn captures_restored(
    brushes: Map<Entity, BrushView>,
    captures: Seq<CaptureView>,
) -> Map<Entity, BrushView>
    decreases captures.len(),
{
    if captures.len() == 0 {
        brushes
    } else {
        let before = captures_restored(brushes, captures.drop_last());
        let c = captures.last();
        if before.contains_key(c.entity) {
            before.insert(c.entity, c.start_brush)
        } else {
            before
        }
    }
}

/// Makes every captured brush that is still there as it was.
pub fn restore_captures(captures: &Vec<BrushDragCapture>, brushes: &mut Brushes)
    ensures
        final(brushes)@ == captures_restored(old(brushes)@, captures_view(captures@)),
{
    let ghost all = captures_view(captures@);
    let ghost start = brushes@;
    let mut i: usize = 0;
    assert(all.subrange(0, 0) =~= Seq::empty());
    while i < captures.len()
        invariant
            i <= captures.len(),
            all == captures_view(captures@),
            brushes@ == captures_restored(start, all.subrange(0, i as int)),
        decreases captures.len() - i,
    {
        proof {
            assert(all.subrange(0, i + 1).drop_last() =~= all.subrange(0, i as int));
            assert(all.subrange(0, i + 1).last() == all[i as int]);
            assert(all[i as int] == captures@[i as int]@);
        }
        let e: Entity = captures[i].entity;
        if brushes.contains(e) {
            brushes.set(e, captures[i].start_brush.copy());
        }
        i = i + 1;
    }
    assert(all.subrange(0, i as int) =~= all);
}

/// Whether every capture holds a brush as it is in the scene.
pub open spec fn captures_match(
    captures: Seq<CaptureView>,
    brushes: Map<Entity, BrushView>,
) -> bool {
    forall|i: int|
        0 <= i < captures.len() ==> brushes.contains_key((#[trigger] captures[i]).entity)
            && brushes[captures[i].entity] == captures[i].start_brush
}

/// Whether two tables of brushes differ at most in captured brushes.
pub open spec fn differ_in(
    a: Map<Entity, BrushView>,
    b: Map<Entity, BrushView>,
    captures: Seq<CaptureView>,
) -> bool {
    &&& a.dom() == b.dom()
    &&& forall|e: Entity| #[trigger]
        b.contains_key(e) && !is_captured(captures, e) ==> a[e] == b[e]
}

pub open spec fn is_captured(captures: Seq<CaptureView>, e: Entity) -> bool {
    exists|i: int| 0 <= i < captures.len() && (#[trigger] captures[i]).entity == e
}

/// A shared move changes captured brushes only.
pub proof fn law_drag_moves_captured_only(
    brushes: Map<Entity, BrushView>,
    captures: Seq<CaptureView>,
    moves: Seq<BrushMove>,
)
    ensures
        differ_in(broadcast_to(brushes, captures, moves), brushes, captures),
    decreases captures.len(),
{
    let after = broadcast_to(brushes, captures, moves);
    if captures.len() > 0 {
        let init = captures.drop_last();
        law_drag_moves_captured_only(brushes, init, moves);
        assert(captures[captures.len() - 1] == captures.last());
        assert(after.dom() =~= brushes.dom());
        assert forall|e: Entity| #[trigger]
            brushes.contains_key(e) && !is_captured(captures, e) implies after[e] == brushes[e] by {
            assert(!is_captured(init, e)) by {
                if is_captured(init, e) {
                    let i = choose|i: int| 0 <= i < init.len() && (#[trigger] init[i]).entity == e;
                    assert(captures[i].entity == e);
                }
            }
        }
    }
}

/// Each captured brush that is there is moved once, by its own move. One without a move stays.
pub proof fn law_each_captured_brush_moves(
    brushes: Map<Entity, BrushView>,
    captures: Seq<CaptureView>,
    moves: Seq<BrushMove>,
    i: int,
)
    requires
        0 <= i < captures.len(),
        brushes.contains_key(captures[i].entity),
        forall|j: int|
            0 <= j < captures.len() && j != i ==> (#[trigger] captures[j]).entity
                != captures[i].entity,
    ensures
        broadcast_to(brushes, captures, moves)[captures[i].entity] == (if i < moves.len() {
            deltas_applied(brushes[captures[i].entity], captures[i].indices, moves[i])
        } else {
            brushes[captures[i].entity]
        }),
    decreases captures.len(),
{
    let init = captures.drop_last();
    let last = captures.len() - 1;
    let e = captures[i].entity;
    law_drag_moves_captured_only(brushes, init, moves);
    let before = broadcast_to(brushes, init, moves);
    assert(before.dom().contains(e));
    if i < last {
        assert(init[i] == captures[i]);
        assert forall|j: int| 0 <= j < init.len() && j != i implies (#[trigger] init[j]).entity
            != init[i].entity by {
            assert(init[j] == captures[j]);
        }
        law_each_captured_brush_moves(brushes, init, moves, i);
        assert(captures[last].entity != e);
    } else {
        assert(!is_captured(init, e)) by {
            if is_captured(init, e) {
                let j = choose|j: int| 0 <= j < init.len() && (#[trigger] init[j]).entity == e;
                assert(captures[j].entity == e);
            }
        }
        assert(brushes.contains_key(e));
        assert(before[e] == brushes[e]);
    }
}

/// However many moves were made, only captured brushes differ.
pub proof fn law_more_moves_stay_captured(
    brushes: Map<Entity, BrushView>,
    moved: Map<Entity, BrushView>,
    captures: Seq<CaptureView>,
    moves: Seq<BrushMove>,
)
    requires
        differ_in(moved, brushes, captures),
    ensures
        differ_in(broadcast_to(moved, captures, moves), brushes, captures),
{
    law_drag_moves_captured_only(moved, captures, moves);
    let after = broadcast_to(moved, captures, moves);
    assert forall|e: Entity| #[trigger]
        brushes.contains_key(e) && !is_captured(captures, e) implies after[e] == brushes[e] by {
        assert(moved.dom().contains(e));
        assert(moved.contains_key(e));
    }
}

/// Cancelling a drag undoes it: whatever moves were made of captured brushes, restoring them leaves
/// the brushes as they were when they were captured.
pub proof fn law_restore_undoes_drag(
    brushes: Map<Entity, BrushView>,
    moved: Map<Entity, BrushView>,
    captures: Seq<CaptureView>,
)
    requires
        captures_match(captures, brushes),
        differ_in(moved, brushes, captures),
    ensures
        captures_restored(moved, captures) == brushes,
{
    lemma_restored(moved, captures, brushes);
    let after = captures_restored(moved, captures);
    assert forall|e: Entity| brushes.contains_key(e) implies #[trigger] after[e] == brushes[e] by {
        if !is_captured(captures, e) {
            assert(moved[e] == brushes[e]);
        }
    }
    assert(after =~= brushes);
}

proof fn lemma_restored(
    moved: Map<Entity, BrushView>,
    captures: Seq<CaptureView>,
    brushes: Map<Entity, BrushView>,
)
    requires
        captures_match(captures, brushes),
        moved.dom() == brushes.dom(),
    ensures
        ({
            let after = captures_restored(moved, captures);
            &&& after.dom() == brushes.dom()
            &&& forall|e: Entity| #[trigger]
                brushes.contains_key(e) ==> after[e] == (if is_captured(captures, e) {
                    brushes[e]
                } else {
                    moved[e]
                })
        }),
    decreases captures.len(),
{
    let after = captures_restored(moved, captures);
    if captures.len() > 0 {
        let init = captures.drop_last();
        let c = captures.last();
        assert(captures[captures.len() - 1] == c);
        assert(captures_match(init, brushes)) by {
            assert forall|i: int| 0 <= i < init.len() implies brushes.contains_key(
                (#[trigger] init[i]).entity,
            ) && brushes[init[i].entity] == init[i].start_brush by {
                assert(init[i] == captures[i]);
            }
        }
        lemma_restored(moved, init, brushes);
        let before = captures_restored(moved, init);
        assert(before.contains_key(c.entity));
        assert(after.dom() =~= brushes.dom());
        assert forall|e: Entity| #[trigger] brushes.contains_key(e) implies after[e] == (
        if is_captured(captures, e) {
            brushes[e]
        } else {
            moved[e]
        }) by {
            if is_captured(init, e) {
                let i = choose|i: int| 0 <= i < init.len() && (#[trigger] init[i]).entity == e;
                assert(captures[i].entity == e);
            }
            if is_captured(captures, e) && e != c.entity {
                let i = choose|i: int|
                    0 <= i < captures.len() && (#[trigger] captures[i]).entity == e;
                assert(init[i].entity == e);
            }
        }
    }
}

proof fn lemma_captured_match(
    s: ElementEditorView,
    kind: ElementKind,
    facts: Seq<MeshFacts>,
    n: nat,
)
    ensures
        captures_match(captured_to(s, kind, facts, n), s.brushes),
    decreases n,
{
    if 0 < n <= s.selection.subs.len() {
        lemma_captured_match(s, kind, facts, (n - 1) as nat);
    }
}

/// The captures that a drag starts with hold the brushes as they are in the scene, also when the
/// drag adds a corner.
pub proof fn law_promoted_captures_match(
    s: ElementEditorView,
    kind: ElementKind,
    viewport_cursor: Vector2,
    facts: Seq<MeshFacts>,
    split_world: Vector3,
)
    ensures
        captures_match(
            element_promoted(s, kind, viewport_cursor, facts, split_world).drag.captures,
            s.brushes,
        ),
{
    lemma_captured_match(s, kind, facts, s.selection.subs.len());
    let captures = captured_all(s, kind, facts);
    lemma_first_index(captures, is_capture_of(s.selection.active->0));
    let after = element_promoted(s, kind, viewport_cursor, facts, split_world).drag.captures;
    assert forall|i: int| 0 <= i < after.len() implies s.brushes.contains_key(
        (#[trigger] after[i]).entity,
    ) && s.brushes[after[i].entity] == after[i].start_brush by {
        assert(after[i].entity == captures[i].entity);
        assert(after[i].start_brush == captures[i].start_brush);
    }
}

/// The corners that elements move are the selected corners and both ends of the selected edges, and
/// no other.
pub proof fn law_corners_of_elements(elements: Seq<Element>, v: usize)
    ensures
        corners_of(elements).contains(v) <==> exists|i: int|
            0 <= i < elements.len() && (match #[trigger] elements[i] {
                Element::Vertex(x) => x == v,
                Element::Edge(a, b) => a == v || b == v,
                Element::Face(_) => false,
            }),
    decreases elements.len(),
{
    if elements.len() > 0 {
        let init = elements.drop_last();
        let before = corners_of(init);
        let last = elements.last();
        law_corners_of_elements(init, v);
        assert(elements[elements.len() - 1] == last);
        match last {
            Element::Edge(a, b) => {
                lemma_with_index(before, a, v);
                lemma_with_index(with_index(before, a), b, v);
            },
            Element::Vertex(x) => {
                lemma_push_contains(before, x, v);
            },
            Element::Face(_) => {},
        }
        if before.contains(v) {
            let i = choose|i: int|
                0 <= i < init.len() && (match #[trigger] init[i] {
                    Element::Vertex(x) => x == v,
                    Element::Edge(a, b) => a == v || b == v,
                    Element::Face(_) => false,
                });
            assert(elements[i] == init[i]);
        }
        if exists|i: int|
            0 <= i < elements.len() && (match #[trigger] elements[i] {
                Element::Vertex(x) => x == v,
                Element::Edge(a, b) => a == v || b == v,
                Element::Face(_) => false,
            }) {
            let i = choose|i: int|
                0 <= i < elements.len() && (match #[trigger] elements[i] {
                    Element::Vertex(x) => x == v,
                    Element::Edge(a, b) => a == v || b == v,
                    Element::Face(_) => false,
                });
            if i < init.len() {
                assert(init[i] == elements[i]);
            }
        }
    }
}

proof fn lemma_with_index(list: Seq<usize>, x: usize, v: usize)
    ensures
        with_index(list, x).contains(v) <==> list.contains(v) || v == x,
{
    lemma_push_contains(list, x, v);
}

/// The place for a new corner is a visible one below the limit that no visible one is nearer than, and
/// there is one whenever one lies below the limit.
pub proof fn law_nearest_split_is_picked(candidates: Seq<SplitCandidate>, limit: u32)
    ensures
        ({
            let best = nearest_split(candidates, limit);
            &&& best.1 <= limit
            &&& best.0 is Some == (best.1 < limit)
            &&& forall|i: int|
                0 <= i < candidates.len() && (#[trigger] candidates[i]).visible ==> best.1
                    <= candidates[i].distance || candidates[i].distance >= limit
            &&& best.0 matches Some(p) ==> exists|i: int|
                0 <= i < candidates.len() && (#[trigger] candidates[i]).visible
                    && candidates[i].position == p && candidates[i].distance == best.1
        }),
    decreases candidates.len(),
{
    if candidates.len() > 0 {
        let init = candidates.drop_last();
        law_nearest_split_is_picked(init, limit);
        let before = nearest_split(init, limit);
        let best = nearest_split(candidates, limit);
        let c = candidates.last();
        assert(candidates[candidates.len() - 1] == c);
        assert forall|i: int|
            0 <= i < candidates.len() && (#[trigger] candidates[i]).visible implies best.1
            <= candidates[i].distance || candidates[i].distance >= limit by {
            if i < init.len() {
                assert(init[i] == candidates[i]);
            }
        }
        if let Some(p) = best.0 {
            if !(c.visible && c.distance < before.1) {
                let i = choose|i: int|
                    0 <= i < init.len() && (#[trigger] init[i]).visible && init[i].position == p
                        && init[i].distance == before.1;
                assert(candidates[i] == init[i]);
            }
        }
    }
}

/// A corner is added in the middle of an edge whenever one is visible within twenty of the pointer, and
/// otherwise in the middle of a face that is. With neither none is added.
pub proof fn law_split_prefers_edges(
    edges: Seq<SplitCandidate>,
    faces: Seq<SplitCandidate>,
    i: int,
)
    ensures
        0 <= i < edges.len() && edges[i].visible && edges[i].distance < 0x41a0_0000 ==> (
        split_place(edges, faces) matches Some(p) && exists|k: int|
            0 <= k < edges.len() && (#[trigger] edges[k]).visible && edges[k].position == p
                && edges[k].distance <= edges[i].distance),
        (forall|k: int|
            0 <= k < edges.len() && (#[trigger] edges[k]).visible ==> edges[k].distance
                >= 0x41a0_0000) && 0 <= i < faces.len() && faces[i].visible && faces[i].distance
            < 0x41a0_0000 ==> (split_place(edges, faces) matches Some(p) && exists|k: int|
            0 <= k < faces.len() && (#[trigger] faces[k]).visible && faces[k].position == p
                && faces[k].distance <= faces[i].distance),
        (forall|k: int|
            0 <= k < edges.len() && (#[trigger] edges[k]).visible ==> edges[k].distance
                >= 0x41a0_0000) && (forall|k: int|
            0 <= k < faces.len() && (#[trigger] faces[k]).visible ==> faces[k].distance
                >= 0x41a0_0000) ==> split_place(edges, faces) is None,
{
    law_nearest_split_is_picked(edges, PICK_RADIUS);
    law_nearest_split_is_picked(faces, PICK_RADIUS);
}

/// The key of an axis holds the drag to it, and frees it when it was held to it. With several keys the
/// first of x, y and z counts, and without one the axis stays.
pub proof fn law_axis_keys(current: VertexDragConstraint, keys: AxisKeys)
    ensures
        keys.x && current == VertexDragConstraint::AxisX ==> constrained(current, keys)
            == VertexDragConstraint::Free,
        keys.x && current != VertexDragConstraint::AxisX ==> constrained(current, keys)
            == VertexDragConstraint::AxisX,
        !keys.x && keys.y && current == VertexDragConstraint::AxisY ==> constrained(current, keys)
            == VertexDragConstraint::Free,
        !keys.x && keys.y && current != VertexDragConstraint::AxisY ==> constrained(current, keys)
            == VertexDragConstraint::AxisY,
        !keys.x && !keys.y && keys.z && current == VertexDragConstraint::AxisZ ==> constrained(
            current,
            keys,
        ) == VertexDragConstraint::Free,
        !keys.x && !keys.y && keys.z && current != VertexDragConstraint::AxisZ ==> constrained(
            current,
            keys,
        ) == VertexDragConstraint::AxisZ,
        !keys.x && !keys.y && !keys.z ==> constrained(current, keys) == current,
{
}

/// Every capture is of an edited brush that has a mesh and selected elements of the kind. It holds the
/// corners that these move, each at its place in the world, and all authored corners.
proof fn lemma_captured_places(
    s: ElementEditorView,
    kind: ElementKind,
    facts: Seq<MeshFacts>,
    n: nat,
    k: int,
)
    requires
        n <= s.selection.subs.len(),
        0 <= k < captured_to(s, kind, facts, n).len(),
    ensures
        ({
            let c = captured_to(s, kind, facts, n)[k];
            &&& facts_of(facts, c.entity) matches Some(f) && f.built && c.start_all_vertices
                == authored_of(f) && forall|i: int|
                0 <= i < c.indices.len() ==> #[trigger] c.start_world[i] == world_at(
                    f,
                    c.indices[i],
                )
            &&& c.indices == corners_of(s.selection.elements_of_kind(c.entity, kind))
            &&& c.indices.len() > 0
            &&& c.start_world.len() == c.indices.len()
        }),
    decreases n,
{
    if n > 0 {
        let before = captured_to(s, kind, facts, (n - 1) as nat);
        if k < before.len() {
            lemma_captured_places(s, kind, facts, (n - 1) as nat, k);
            assert(captured_to(s, kind, facts, n)[k] == before[k]);
        }
    }
}

/// Every edited brush with a mesh and selected elements of the kind is captured.
proof fn lemma_edited_is_captured(
    s: ElementEditorView,
    kind: ElementKind,
    facts: Seq<MeshFacts>,
    n: nat,
    j: int,
)
    requires
        n <= s.selection.subs.len(),
        0 <= j < n,
        s.brushes.contains_key(s.selection.subs[j].brush),
        facts_of(facts, s.selection.subs[j].brush) matches Some(f) && f.built,
        corners_of(s.selection.elements_of_kind(s.selection.subs[j].brush, kind)).len() > 0,
    ensures
        is_captured(captured_to(s, kind, facts, n), s.selection.subs[j].brush),
    decreases n,
{
    let all = captured_to(s, kind, facts, n);
    let before = captured_to(s, kind, facts, (n - 1) as nat);
    let e = s.selection.subs[j].brush;
    if j < n - 1 {
        lemma_edited_is_captured(s, kind, facts, (n - 1) as nat, j);
        let i = choose|i: int| 0 <= i < before.len() && (#[trigger] before[i]).entity == e;
        assert(all[i] == before[i]);
    } else {
        assert(all[before.len() as int].entity == e);
    }
}

/// A press that becomes a drag captures every edited brush that is in the scene, has a mesh, and has
/// selected elements of the kind that move a corner. Each capture holds the corners that these
/// elements move, at their places in the world. The drag starts free, at the pointer, and the brushes
/// stay.
pub proof fn law_promoted_drag_captures_the_selection(
    s: ElementEditorView,
    kind: ElementKind,
    viewport_cursor: Vector2,
    facts: Seq<MeshFacts>,
    split_world: Vector3,
    j: int,
    k: int,
)
    requires
        s.drag.split_vertex is None,
    ensures
        ({
            let after = element_promoted(s, kind, viewport_cursor, facts, split_world);
            let captures = after.drag.captures;
            &&& after.drag.active
            &&& after.drag.constraint == VertexDragConstraint::Free
            &&& after.drag.start_cursor == viewport_cursor
            &&& after.cursor == CursorOverride::Grabbing
            &&& after.brushes == s.brushes
            &&& after.selection == s.selection
            &&& after.drag.start_brush == Some(s.brushes[s.selection.active->0])
            &&& 0 <= j < s.selection.subs.len() && s.brushes.contains_key(
                s.selection.subs[j].brush,
            ) && (facts_of(facts, s.selection.subs[j].brush) matches Some(f) && f.built)
                && corners_of(
                s.selection.elements_of_kind(s.selection.subs[j].brush, kind),
            ).len() > 0 ==> is_captured(captures, s.selection.subs[j].brush)
            &&& 0 <= k < captures.len() ==> {
                &&& s.brushes.contains_key(captures[k].entity)
                &&& captures[k].start_brush == s.brushes[captures[k].entity]
                &&& captures[k].indices == corners_of(
                    s.selection.elements_of_kind(captures[k].entity, kind),
                )
                &&& captures[k].start_world.len() == captures[k].indices.len()
                &&& facts_of(facts, captures[k].entity) matches Some(f) && f.built && forall|
                    i: int,
                |
                    0 <= i < captures[k].indices.len() && captures[k].indices[i] < f.world@.len()
                        && captures[k].indices[i] < f.vertices@.len()
                        ==> #[trigger] captures[k].start_world[i]
                        == f.world@[captures[k].indices[i] as int]
            }
        }),
{
    let n = s.selection.subs.len();
    let captures = captured_all(s, kind, facts);
    if 0 <= j < n && s.brushes.contains_key(s.selection.subs[j].brush) && (facts_of(
        facts,
        s.selection.subs[j].brush,
    ) matches Some(f) && f.built) && corners_of(
        s.selection.elements_of_kind(s.selection.subs[j].brush, kind),
    ).len() > 0 {
        lemma_edited_is_captured(s, kind, facts, n, j);
    }
    if 0 <= k < captures.len() {
        lemma_captured_match(s, kind, facts, n);
        lemma_captured_places(s, kind, facts, n, k);
        assert(s.brushes.contains_key(captures[k].entity));
    }
}

/// A drag that adds a corner captures the active brush with that corner behind its authored ones, at
/// the place that was picked, and in the world where the engine puts that place.
pub proof fn law_added_corner_is_captured(
    s: ElementEditorView,
    viewport_cursor: Vector2,
    facts: Seq<MeshFacts>,
    split_world: Vector3,
    b: Entity,
    f: MeshFacts,
    place: Vector3,
)
    requires
        s.selection.active == Some(b),
        facts_of(facts, b) == Some(f),
        f.authored <= f.vertices@.len(),
        s.drag.split_vertex == Some(place),
        is_captured(captured_all(s, ElementKind::Vertex, facts), b),
    ensures
        ({
            let drag = element_promoted(
                s,
                ElementKind::Vertex,
                viewport_cursor,
                facts,
                split_world,
            ).drag;
            let k = first_index(drag.captures, is_capture_of(b));
            &&& drag.start_all_vertices.len() == f.authored + 1
            &&& drag.start_all_vertices.last() == place
            &&& forall|i: int|
                0 <= i < f.authored ==> #[trigger] drag.start_all_vertices[i] == f.vertices@[i]
            &&& 0 <= k < drag.captures.len()
            &&& drag.captures[k].start_all_vertices == drag.start_all_vertices
            &&& forall|i: int|
                0 <= i < drag.captures[k].indices.len() && drag.captures[k].indices[i]
                    == f.authored ==> #[trigger] drag.captures[k].start_world[i] == split_world
        }),
{
    let captures = captured_all(s, ElementKind::Vertex, facts);
    let p = is_capture_of(b);
    lemma_first_index(captures, p);
    let i = choose|i: int| 0 <= i < captures.len() && (#[trigger] captures[i]).entity == b;
    assert(p(captures[i]));
    let k = first_index(captures, p);
    let after = element_promoted(
        s,
        ElementKind::Vertex,
        viewport_cursor,
        facts,
        split_world,
    ).drag.captures;
    assert forall|j: int| 0 <= j < k implies !p(#[trigger] after[j]) by {
        assert(!p(captures[j]));
    }
    lemma_first_index_is(after, p, k);
}

/// A frame of a drag moves no brush by itself. Letting go ends the drag: nothing is pending or active,
/// no axis is held, no brush is captured and the pointer is no longer grabbing. Cancelling leaves all
/// that to be undone.
pub proof fn law_letting_go_of_elements(
    s: ElementEditorView,
    kind: ElementKind,
    input: DragInput,
    keys: AxisKeys,
    candidates: Seq<Candidate>,
    place: Option<Vector3>,
    facts: Seq<MeshFacts>,
    split_world: Vector3,
)
    ensures
        ({
            let after = element_dragged(
                s,
                kind,
                input,
                keys,
                candidates,
                place,
                facts,
                split_world,
            );
            let seen = input.cursor is Some && input.viewport_cursor is Some && ((
            s.drag.drag_camera is Some && s.drag.drag_viewport is Some) || (input.hovered_camera
                is Some && input.hovered_viewport is Some)) && (s.selection.active matches Some(b)
                && facts_of(facts, b) is Some);
            &&& after.0.brushes == s.brushes
            &&& input.modal && seen && input.left_released && !input.right_pressed ==> {
                &&& after.1 == OperatorResult::Finished
                &&& !after.0.drag.active
                &&& after.0.drag.pending is None
                &&& after.0.drag.constraint == VertexDragConstraint::Free
                &&& after.0.drag.split_vertex is None
                &&& after.0.drag.captures.len() == 0
                &&& after.0.cursor != CursorOverride::Grabbing
                &&& after.0.selection == s.selection
            }
            &&& input.modal && seen && s.drag.active && input.right_pressed ==> after.1
                == OperatorResult::Cancelled && after.0.drag.captures == s.drag.captures
            &&& input.modal && seen && s.drag.active && !input.right_pressed
                && !input.left_released ==> {
                &&& after.1 == OperatorResult::Running
                &&& after.0.drag.active
                &&& after.0.drag.captures == s.drag.captures
                &&& after.0.selection == s.selection
                &&& after.0.cursor == s.cursor
            }
            &&& input.modal && !seen ==> after.1 == OperatorResult::Cancelled && after.0 == s
        }),
{
}

/// A press moves no brush and begins no drag by itself. With the shift key and a place for it, a new
/// corner of the active brush is selected, the only one of its brush. Otherwise an element that is
/// already selected keeps the selection, and any other is selected alone of all brushes.
pub proof fn law_press_picks_an_element(
    s: ElementEditorView,
    kind: ElementKind,
    input: DragInput,
    keys: AxisKeys,
    candidates: Seq<Candidate>,
    place: Option<Vector3>,
    facts: Seq<MeshFacts>,
    split_world: Vector3,
)
    requires
        !input.modal,
    ensures
        ({
            let after = element_dragged(
                s,
                kind,
                input,
                keys,
                candidates,
                place,
                facts,
                split_world,
            );
            let adds = kind == ElementKind::Vertex && input.shift && !input.ctrl;
            &&& after.0.drag.active == s.drag.active
            &&& after.0.cursor == s.cursor
            &&& after.1 != OperatorResult::Finished
            &&& after.1 == OperatorResult::Running ==> {
                &&& after.0.drag.pending == input.cursor
                &&& after.0.selection.active is Some
                &&& !input.ctrl
                &&& after.0.box_select == s.box_select
            }
            &&& after.1 == OperatorResult::Running && adds ==> {
                let b = s.selection.active->0;
                &&& place is Some
                &&& after.0.drag.split_vertex == place
                &&& after.0.selection.active == s.selection.active
                &&& facts_of(facts, b) matches Some(f) && f.built
                    && after.0.selection.elements(b).contains(Element::Vertex(f.authored))
                    && forall|v: usize|
                    #[trigger] after.0.selection.elements(b).contains(Element::Vertex(v)) ==> v
                        == f.authored
            }
            &&& after.1 == OperatorResult::Running && !adds ==> {
                &&& after.0.drag.split_vertex == s.drag.split_vertex
                &&& after.0.drag.drag_camera == input.hovered_camera
                &&& after.0.drag.drag_viewport == input.hovered_viewport
            }
            &&& after.1 == OperatorResult::Cancelled ==> {
                &&& after.0.drag == s.drag
                &&& after.0.box_select != s.box_select ==> !input.ctrl
                    && after.0.box_select.pending == input.cursor && after.0.box_select.shift
                    == input.shift && after.0.selection == s.selection
                &&& after.0.selection != s.selection ==> input.ctrl
            }
        }),
{
    if let (Some(b), Some(_)) = (s.selection.active, place) {
        if let Some(f) = facts_of(facts, b) {
            let corner = Element::Vertex(f.authored);
            let elements = with_only(s.selection.elements(b), corner);
            law_elements_written(s.selection, b, elements);
            assert forall|v: usize| #[trigger] elements.contains(Element::Vertex(v)) implies v
                == f.authored by {
                law_only_element_of_its_kind(
                    s.selection.elements(b),
                    corner,
                    Element::Vertex(v),
                );
            }
            law_only_element_of_its_kind(s.selection.elements(b), corner, corner);
        }
    }
}

pub open spec fn drag_operators() -> Seq<&'static str> {
    seq!["BrushFaceDragOp", "BrushVertexDragOp", "BrushEdgeDragOp"]
}

/// Registers the drags of faces, corners and edges. They begin with the mouse, so no key is bound.
pub fn add_to_extension(ctx: &mut ExtensionContext)
    ensures
        final(ctx).operators@ == old(ctx).operators@ + drag_operators(),
        final(ctx).bindings@ == old(ctx).bindings@,
        final(ctx).features@ == old(ctx).features@,
{
    let operators: Vec<&'static str> = vec![
        "BrushFaceDragOp",
        "BrushVertexDragOp",
        "BrushEdgeDragOp",
    ];
    assert(operators@ =~= drag_operators());
    ctx.register_operators(&operators);
}

/// Whether a press with the left button begins to drag elements of a kind. `typing` and those that
/// follow tell whether something else owns the press.
pub fn element_drag_invoke_trigger(
    mode: BrushEditMode,
    pressed: bool,
    edit_mode: EditMode,
    drag: &ElementDragState,
    typing: bool,
    in_viewport: bool,
    gizmo_hovered: bool,
    plane_hovered: bool,
    menu_open: bool,
) -> (r: bool)
    ensures
        r == {
            &&& pressed
            &&& edit_mode == EditMode::BrushEdit(mode)
            &&& !drag.active
            &&& drag.pending is None
            &&& !typing
            &&& in_viewport
            &&& !gizmo_hovered
            &&& !plane_hovered
            &&& !menu_open
        },
{
    !(!pressed || edit_mode != EditMode::BrushEdit(mode) || drag.active || drag.pending.is_some()
        || typing || !in_viewport || gizmo_hovered || plane_hovered || menu_open)
}

/// A press takes the nearest corner or edge of the edited brushes that is within reach. One that is
/// selected is dragged with all that are; another becomes the only one of its kind, or, with the
/// control key, one more.
pub proof fn law_press_takes_the_nearest_element(
    s: ElementEditorView,
    kind: ElementKind,
    input: DragInput,
    keys: AxisKeys,
    candidates: Seq<Candidate>,
    place: Option<Vector3>,
    facts: Seq<MeshFacts>,
    split_world: Vector3,
    i: int,
    x: Element,
)
    requires
        !input.modal,
        input.cursor is Some,
        input.viewport_cursor is Some,
        input.hovered_camera is Some,
        input.hovered_viewport is Some,
        s.selection.subs.len() > 0,
        kind != ElementKind::Vertex || !input.shift || input.ctrl,
        is_nearest(candidates, |c: Candidate| s.selection.edits(c.brush), 0x41a0_0000, i),
    ensures
        ({
            let after = element_dragged(
                s,
                kind,
                input,
                keys,
                candidates,
                place,
                facts,
                split_world,
            );
            let b = candidates[i].brush;
            let e = candidates[i].element->0;
            let had = s.selection.elements(b);
            &&& after.0.selection.active == Some(b)
            &&& !input.ctrl ==> after.1 == OperatorResult::Running
                && after.0.selection.elements(b).contains(e)
            &&& !input.ctrl && had.contains(e) ==> after.0.selection.elements(b) == had
            &&& !input.ctrl && !had.contains(e) && x.kind_spec() == e.kind_spec() && x != e
                ==> !after.0.selection.elements(b).contains(x)
            &&& input.ctrl ==> after.1 == OperatorResult::Cancelled
            &&& input.ctrl && !had.contains(e) ==> after.0.selection.elements(b) == had.push(e)
            &&& input.ctrl && x != e ==> (after.0.selection.elements(b).contains(x)
                <==> had.contains(x))
        }),
{
    let b = candidates[i].brush;
    let e = candidates[i].element->0;
    let eligible = |c: Candidate| s.selection.edits(c.brush);
    assert(eligible =~= of_edited(s.selection));
    law_first_of_the_nearest_is_picked(candidates, of_edited(s.selection), PICK_RADIUS, i);
    let active = SelectionView { active: Some(b), ..s.selection };
    let none = active.deselected();
    assert(active.elements(b) == s.selection.elements(b));
    law_elements_written(active, b, toggled(active.elements(b), e));
    law_elements_written(none, b, with_only(none.elements(b), e));
    law_only_element_of_its_kind(none.elements(b), e, e);
    law_only_element_of_its_kind(none.elements(b), e, x);
    law_toggled_element_is_selected(active.elements(b), e, x);
}

} // verus!
