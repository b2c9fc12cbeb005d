//! Cutting brushes with a plane: the points that place it, the parts that are kept, and the cut.
use vstd::prelude::*;
use crate::brush::{
    brush_component, Brush, BrushFace, BrushPlane, BrushView, Brushes, Vector3,
};
use crate::brush_edit::{BrushEditMode, EditMode};
use crate::brush_mesh::MeshGeometry;
use crate::draw_brush::{
    brush_data_from_entity, data_of, enter_brush, with_brush, with_id, BrushData, BrushDataView,
    CreateBrushCommand, SetBrush,
};
use crate::history::{CommandGroup, CommandHistory, EditorCommand, EngineCommand};
use crate::location::TRANSFORM_TYPE_PATH;
use crate::operators::{
    bind, bindings_resolve, bound, Binding, ExtensionContext, KeyInput, OperatorResult,
};
use crate::registration::{enrolled, nodes_added};
use crate::seqs::{first_index, lemma_first_index, lemma_first_index_is};
use crate::sorting::{stable_sort, stably_sorted, Ranked};
use crate::value::{BsnStructData, Entity, StructView};
use crate::world::{typed, SceneWorld, WorldView};

verus! {

pub open spec fn clip_operators() -> Seq<&'static str> {
    seq!["ClipPlacePointOp", "ClipCycleModeOp", "ClipApplyOp", "ClipClearOp"]
}

pub open spec fn clip_bindings() -> Seq<Binding> {
    seq![
        bound("ClipCycleModeOp", KeyInput::key_spec("Tab")),
        bound("ClipApplyOp", KeyInput::key_spec("Enter")),
        bound("ClipClearOp", KeyInput::key_spec("Escape")),
    ]
}

/// Registers the operators of the clip tool and binds their keys. Points are placed with the mouse.
pub fn add_to_extension(ctx: &mut ExtensionContext)
    ensures
        final(ctx).operators@ == old(ctx).operators@ + clip_operators(),
        final(ctx).bindings@ == old(ctx).bindings@ + clip_bindings(),
        final(ctx).features@ == old(ctx).features@,
{
    let operators: Vec<&'static str> = vec![
        "ClipPlacePointOp",
        "ClipCycleModeOp",
        "ClipApplyOp",
        "ClipClearOp",
    ];
    assert(operators@ =~= clip_operators());
    ctx.register_operators(&operators);
    let bindings: Vec<Binding> = vec![
        bind("ClipCycleModeOp", KeyInput::key("Tab")),
        bind("ClipApplyOp", KeyInput::key("Enter")),
        bind("ClipClearOp", KeyInput::key("Escape")),
    ];
    assert(bindings@ =~= clip_bindings());
    ctx.bind_operators(&bindings);
}

/// The keys of the clip tool run operators that are registered.
pub proof fn law_clip_bindings_resolve()
    ensures
        bindings_resolve(clip_operators(), clip_bindings()),
{
    let ops = clip_operators();
    let bs = clip_bindings();
    assert forall|i: int| 0 <= i < bs.len() implies ops.contains((#[trigger] bs[i]).operator) by {
        assert(ops[i + 1] == bs[i].operator);
    }
}

/// Which part of a cut brush is kept.
#[derive(Clone, Copy, Debug, PartialEq, Eq, Structural)]
pub enum ClipMode {
    KeepFront,
    KeepBack,
    /// Both, as two brushes.
    Split,
}

impl ClipMode {
    pub open spec fn next_spec(self) -> ClipMode {
        match self {
            ClipMode::KeepFront => ClipMode::KeepBack,
            ClipMode::KeepBack => ClipMode::Split,
            ClipMode::Split => ClipMode::KeepFront,
        }
    }
}

/// The most points that place a plane.
pub const MOST_POINTS: usize = 3;

/// The state of the clip tool.
#[derive(Debug)]
pub struct ClipState {
    pub points: Vec<Vector3>,
    pub mode: ClipMode,
    pub preview_plane: Option<BrushPlane>,
}

impl ClipState {
    /// Whether the tool is as at the start.
    pub open spec fn fresh(self) -> bool {
        self.points@.len() == 0 && self.mode == ClipMode::KeepFront && self.preview_plane is None
    }
}

impl Default for ClipState {
    fn default() -> (r: ClipState)
        ensures
            r.fresh(),
    {
        ClipState { points: Vec::new(), mode: ClipMode::KeepFront, preview_plane: None }
    }
}

fn is_clip_mode_value(edit_mode: EditMode) -> (r: bool)
    ensures
        r == (edit_mode == EditMode::BrushEdit(BrushEditMode::Clip)),
{
    edit_mode == EditMode::BrushEdit(BrushEditMode::Clip)
}

/// Whether a press of the left button places a point.
pub fn place_point_invoke_trigger(
    pressed: bool,
    edit_mode: EditMode,
    typing: bool,
    state: &ClipState,
) -> (r: bool)
    ensures
        r == (pressed && edit_mode == EditMode::BrushEdit(BrushEditMode::Clip) && !typing
            && state.points@.len() < 3),
{
    pressed && is_clip_mode_value(edit_mode) && !typing && state.points.len() < MOST_POINTS
}

/// Whether a point can be placed: in clip mode, on an active brush, while there are too few.
pub fn can_place_point(
    edit_mode: EditMode,
    typing: bool,
    active_brush: Option<Entity>,
    state: &ClipState,
) -> (r: bool)
    ensures
        r == (!typing && edit_mode == EditMode::BrushEdit(BrushEditMode::Clip) && active_brush
            is Some && state.points@.len() < 3),
{
    !typing && is_clip_mode_value(edit_mode) && active_brush.is_some() && state.points.len()
        < MOST_POINTS
}

/// Whether the cut can be made, or the part that is kept be changed: once there is a plane.
pub fn can_apply_or_cycle(edit_mode: EditMode, typing: bool, state: &ClipState) -> (r: bool)
    ensures
        r == (!typing && edit_mode == EditMode::BrushEdit(BrushEditMode::Clip)
            && state.preview_plane is Some),
{
    !typing && is_clip_mode_value(edit_mode) && state.preview_plane.is_some()
}

/// Whether there is anything to clear, and no other tool is active.
pub fn can_clear(edit_mode: EditMode, typing: bool, state: &ClipState, modal_running: bool) -> (r:
    bool)
    ensures
        r == (!modal_running && !typing && edit_mode == EditMode::BrushEdit(BrushEditMode::Clip)
            && (state.points@.len() > 0 || state.mode != ClipMode::KeepFront)),
{
    !modal_running && !typing && is_clip_mode_value(edit_mode) && (state.points.len() > 0
        || state.mode != ClipMode::KeepFront)
}

/// Places a point where the pointer meets the active brush. Without a brush or a meeting point
/// nothing is placed.
pub fn clip_place_point(
    state: &mut ClipState,
    active_brush: Option<Entity>,
    snapped: Option<Vector3>,
) -> (r: OperatorResult)
    ensures
        match (active_brush, snapped) {
            (Some(_), Some(p)) => {
                &&& r == OperatorResult::Finished
                &&& final(state).points@ == old(state).points@.push(p)
                &&& final(state).mode == old(state).mode
                &&& final(state).preview_plane == old(state).preview_plane
            },
            _ => r == OperatorResult::Cancelled && *final(state) == *old(state),
        },
{
    match (active_brush, snapped) {
        (Some(_), Some(p)) => {
            state.points.push(p);
            OperatorResult::Finished
        },
        _ => OperatorResult::Cancelled,
    }
}

/// Keeps the next part.
pub fn clip_cycle_mode(state: &mut ClipState) -> (r: OperatorResult)
    ensures
        r == OperatorResult::Finished,
        final(state).mode == old(state).mode.next_spec(),
        old(state).mode == ClipMode::KeepFront ==> final(state).mode == ClipMode::KeepBack,
        old(state).mode == ClipMode::KeepBack ==> final(state).mode == ClipMode::Split,
        old(state).mode == ClipMode::Split ==> final(state).mode == ClipMode::KeepFront,
        final(state).points == old(state).points,
        final(state).preview_plane == old(state).preview_plane,
{
    state.mode = match state.mode {
        ClipMode::KeepFront => ClipMode::KeepBack,
        ClipMode::KeepBack => ClipMode::Split,
        ClipMode::Split => ClipMode::KeepFront,
    };
    OperatorResult::Finished
}

/// Going on three times comes back to the same part, and one or two steps do not.
pub proof fn law_cycle_comes_round(m: ClipMode)
    ensures
        m.next_spec().next_spec().next_spec() == m,
        m.next_spec() != m,
        m.next_spec().next_spec() != m,
{
}

/// Starts the tool anew.
pub fn clip_clear(state: &mut ClipState) -> (r: OperatorResult)
    ensures
        r == OperatorResult::Finished,
        final(state).fresh(),
{
    *state = ClipState::default();
    OperatorResult::Finished
}

/// A slot of the faces of a cut brush, by the face that it comes from.
#[derive(Clone, Copy, Debug, PartialEq, Eq, Structural)]
pub struct SourceSlot {
    pub material_idx: u32,
}

impl Ranked for SourceSlot {
    open spec fn ranks_before(self, other: SourceSlot) -> bool {
        self.material_idx <= other.material_idx
    }

    proof fn lemma_total(a: SourceSlot, b: SourceSlot) {
    }

    proof fn lemma_transitive(a: SourceSlot, b: SourceSlot, c: SourceSlot) {
    }

    fn may_precede(&self, other: &SourceSlot) -> (r: bool) {
        self.material_idx <= other.material_idx
    }
}

/// The mesh that a cut leaves: for each face the face that it comes from, the number that stands for
/// the cap, and the geometry.
#[derive(Debug)]
pub struct BisectedMesh {
    pub sources: Vec<SourceSlot>,
    pub cap_material_idx: u32,
    pub geometry: MeshGeometry,
}

/// The face that a slot comes from: the one with its number, or, for a number without a face, the
/// last one.
pub open spec fn source_face(faces: Seq<BrushFace>, source: u32) -> BrushFace {
    if source < faces.len() {
        faces[source as int]
    } else if faces.len() > 0 {
        faces.last()
    } else {
        BrushFace::plain_spec()
    }
}

/// The face that the cap takes its looks from: the first that the cut leaves, or, when it leaves
/// none, the last of the brush.
pub open spec fn cap_template(faces: Seq<BrushFace>, slots: Seq<SourceSlot>, cap: u32) -> BrushFace {
    let i = first_index(slots, not_cap(cap));
    if i < slots.len() {
        source_face(faces, slots[i].material_idx)
    } else if faces.len() > 0 {
        faces.last()
    } else {
        BrushFace::plain_spec()
    }
}

pub open spec fn not_cap(cap: u32) -> spec_fn(SourceSlot) -> bool {
    |s: SourceSlot| s.material_idx != cap
}

/// The face that a slot starts from. The cap has no direction for its texture yet.
pub open spec fn slot_face(
    faces: Seq<BrushFace>,
    template: BrushFace,
    source: u32,
    cap: u32,
) -> BrushFace {
    if source == cap {
        BrushFace {
            is_cap: true,
            uv_u_axis: Vector3::zero_spec(),
            uv_v_axis: Vector3::zero_spec(),
            ..template
        }
    } else {
        source_face(faces, source)
    }
}

fn face_of_source(faces: &Vec<BrushFace>, source: u32) -> (r: BrushFace)
    ensures
        r == source_face(faces@, source),
{
    if (source as usize) < faces.len() {
        faces[source as usize]
    } else if faces.len() > 0 {
        faces[faces.len() - 1]
    } else {
        BrushFace::plain()
    }
}

fn template_for_cap(faces: &Vec<BrushFace>, slots: &Vec<SourceSlot>, cap: u32) -> (r: BrushFace)
    ensures
        r == cap_template(faces@, slots@, cap),
{
    let ghost p = not_cap(cap);
    let mut i: usize = 0;
    while i < slots.len()
        invariant
            i <= slots.len(),
            p == not_cap(cap),
            forall|j: int| 0 <= j < i ==> !p(#[trigger] slots@[j]),
        decreases slots.len() - i,
    {
        if slots[i].material_idx != cap {
            proof {
                lemma_first_index_is(slots@, p, i as int);
            }
            return face_of_source(faces, slots[i].material_idx);
        }
        i = i + 1;
    }
    proof {
        lemma_first_index_is(slots@, p, i as int);
    }
    if faces.len() > 0 {
        faces[faces.len() - 1]
    } else {
        BrushFace::plain()
    }
}

fn face_for_slot(faces: &Vec<BrushFace>, template: BrushFace, source: u32, cap: u32) -> (r: BrushFace)
    ensures
        r == slot_face(faces@, template, source, cap),
{
    if source == cap {
        BrushFace {
            is_cap: true,
            uv_u_axis: Vector3::zero(),
            uv_v_axis: Vector3::zero(),
            ..template
        }
    } else {
        face_of_source(faces, source)
    }
}

/// The faces that a cut starts from, in the order of the faces that they come from.
pub open spec fn slot_faces(faces: Seq<BrushFace>, cut: BisectedMesh) -> Seq<BrushFace> {
    let slots = stably_sorted(cut.sources@);
    let template = cap_template(faces, slots, cut.cap_material_idx);
    Seq::new(
        slots.len(),
        |i: int| slot_face(faces, template, slots[i].material_idx, cut.cap_material_idx),
    )
}

/// The faces that a cut starts from.
pub fn bisect_slots(brush: &Brush, cut: &BisectedMesh) -> (r: Vec<BrushFace>)
    ensures
        r@ == slot_faces(brush@.faces, *cut),
{
    let slots: Vec<SourceSlot> = stable_sort(crate::brush::copy_list(&cut.sources));
    let template: BrushFace = template_for_cap(&brush.faces, &slots, cut.cap_material_idx);
    let mut out: Vec<BrushFace> = Vec::new();
    let mut i: usize = 0;
    while i < slots.len()
        invariant
            i <= slots.len(),
            out@.len() == i,
            forall|j: int|
                0 <= j < i ==> #[trigger] out@[j] == slot_face(
                    brush@.faces,
                    template,
                    slots@[j].material_idx,
                    cut.cap_material_idx,
                ),
        decreases slots.len() - i,
    {
        out.push(
            face_for_slot(&brush.faces, template, slots[i].material_idx, cut.cap_material_idx),
        );
        i = i + 1;
    }
    assert(out@ =~= slot_faces(brush@.faces, *cut));
    out
}

/// The plane of a face of a cut brush, and the directions of its texture that follow from the plane.
#[derive(Clone, Copy, Debug, PartialEq, Eq, Structural)]
pub struct FaceFrame {
    pub plane: BrushPlane,
    pub uv_u_axis: Vector3,
    pub uv_v_axis: Vector3,
}

/// Whether bits are those of zero, of either sign.
pub open spec fn is_zero_coordinate(bits: u32) -> bool {
    bits == 0 || bits == 0x8000_0000
}

pub open spec fn is_zero_vector(v: Vector3) -> bool {
    is_zero_coordinate(v.x) && is_zero_coordinate(v.y) && is_zero_coordinate(v.z)
}

/// Whether a face has directions for its texture.
pub open spec fn has_axes(face: BrushFace) -> bool {
    !is_zero_vector(face.uv_u_axis) && !is_zero_vector(face.uv_v_axis)
}

/// A face with the plane of its polygon. The directions of its texture stay; a face without them gets
/// those that follow from the plane.
pub open spec fn face_in_frame(face: BrushFace, frame: FaceFrame) -> BrushFace {
    if has_axes(face) {
        BrushFace { plane: frame.plane, ..face }
    } else {
        BrushFace {
            plane: frame.plane,
            uv_u_axis: frame.uv_u_axis,
            uv_v_axis: frame.uv_v_axis,
            ..face
        }
    }
}

/// The faces with the planes of the polygons; a face without a polygon stays.
pub open spec fn framed(faces: Seq<BrushFace>, frames: Seq<FaceFrame>) -> Seq<BrushFace> {
    Seq::new(
        faces.len(),
        |i: int|
            if i < frames.len() {
                face_in_frame(faces[i], frames[i])
            } else {
                faces[i]
            },
    )
}

fn is_zero(v: Vector3) -> (r: bool)
    ensures
        r == is_zero_vector(v),
{
    (v.x == 0 || v.x == 0x8000_0000) && (v.y == 0 || v.y == 0x8000_0000) && (v.z == 0 || v.z
        == 0x8000_0000)
}

fn put_in_frame(face: BrushFace, frame: FaceFrame) -> (r: BrushFace)
    ensures
        r == face_in_frame(face, frame),
{
    if !is_zero(face.uv_u_axis) && !is_zero(face.uv_v_axis) {
        BrushFace { plane: frame.plane, ..face }
    } else {
        BrushFace {
            plane: frame.plane,
            uv_u_axis: frame.uv_u_axis,
            uv_v_axis: frame.uv_v_axis,
            ..face
        }
    }
}

/// The brush that a cut leaves, if it leaves any.
pub open spec fn bisected(
    brush: BrushView,
    cut: Option<BisectedMesh>,
    frames: Seq<FaceFrame>,
) -> Option<BrushView> {
    match cut {
        Some(c) => if c.sources@.len() == 0 || c.geometry@.polygons.len() == 0 {
            None
        } else {
            Some(
                BrushView {
                    faces: framed(slot_faces(brush.faces, c), frames),
                    vertices: c.geometry@.vertices,
                    polygons: c.geometry@.polygons,
                },
            )
        },
        None => None,
    }
}

/// The brush that a cut leaves. There is none when the cut failed or left no face. `frames` holds
/// the plane of each polygon and the texture directions that follow from it, for the faces of
/// [`bisect_slots`].
pub fn bisect_brush(brush: &Brush, cut: Option<BisectedMesh>, frames: &Vec<FaceFrame>) -> (r: Option<
    Brush,
>)
    ensures
        crate::brush::brush_of(r) == bisected(brush@, cut, frames@),
{
    let c: BisectedMesh = match cut {
        Some(c) => c,
        None => {
            return None;
        },
    };
    if c.sources.len() == 0 || c.geometry.polygons.len() == 0 {
        return None;
    }
    let mut faces: Vec<BrushFace> = bisect_slots(brush, &c);
    let ghost start = faces@;
    let n: usize = faces.len();
    let mut i: usize = 0;
    while i < n
        invariant
            i <= n,
            n == start.len(),
            faces@.len() == n,
            forall|j: int|
                0 <= j < n ==> (#[trigger] faces@[j]) == (if j < i {
                    framed(start, frames@)[j]
                } else {
                    start[j]
                }),
        decreases n - i,
    {
        if i < frames.len() {
            let face: BrushFace = faces[i];
            faces.set(i, put_in_frame(face, frames[i]));
        }
        i = i + 1;
    }
    assert(faces@ =~= framed(start, frames@));
    Some(Brush { faces, vertices: c.geometry.vertices, polygons: c.geometry.polygons })
}

/// Every face of a cut brush that is not the cap keeps everything but the plane of the face that it
/// comes from; a face that came without texture directions gets those of its plane. The cap takes
/// the material and the tiling of the first face that is left, with the directions of its own plane.
/// There is one face for each that the cut left, and so one for each polygon.
pub proof fn law_cut_keeps_faces(
    brush: BrushView,
    cut: BisectedMesh,
    frames: Seq<FaceFrame>,
    i: int,
)
    requires
        cut.sources@.len() > 0,
        cut.geometry@.polygons.len() > 0,
        0 <= i < stably_sorted(cut.sources@).len(),
        i < frames.len(),
    ensures
        ({
            let slots = stably_sorted(cut.sources@);
            let idx = slots[i].material_idx;
            let source = source_face(brush.faces, idx);
            let template = cap_template(brush.faces, slots, cut.cap_material_idx);
            let face = bisected(brush, Some(cut), frames)->0.faces[i];
            &&& bisected(brush, Some(cut), frames)->0.faces.len() == cut.sources@.len()
            &&& cut.sources@.len() == cut.geometry@.polygons.len() ==> bisected(
                brush,
                Some(cut),
                frames,
            )->0.faces.len() == bisected(brush, Some(cut), frames)->0.polygons.len()
            &&& idx != cut.cap_material_idx && has_axes(source) ==> face == (BrushFace {
                plane: frames[i].plane,
                ..source
            })
            &&& idx != cut.cap_material_idx && !has_axes(source) ==> face == (BrushFace {
                plane: frames[i].plane,
                uv_u_axis: frames[i].uv_u_axis,
                uv_v_axis: frames[i].uv_v_axis,
                ..source
            })
            &&& idx == cut.cap_material_idx ==> face == (BrushFace {
                plane: frames[i].plane,
                uv_u_axis: frames[i].uv_u_axis,
                uv_v_axis: frames[i].uv_v_axis,
                is_cap: true,
                ..template
            })
        }),
{
    crate::sorting::law_sorted(cut.sources@);
}

/// Whether two faces are drawn alike: the same material, moved, scaled and turned alike.
pub open spec fn drawn_alike(a: BrushFace, b: BrushFace) -> bool {
    &&& a.material == b.material
    &&& a.uv_offset == b.uv_offset
    &&& a.uv_scale == b.uv_scale
    &&& a.uv_rotation == b.uv_rotation
}

/// A face that a cut made is drawn like the first face that is left of the brush, and is marked as
/// made by a cut. Every other face is drawn like the face that it comes from. Each face lies in the
/// plane of its polygon. The result has the corners and polygons that the cut left.
pub proof fn law_cap_is_drawn_like_the_first_face(
    brush: BrushView,
    cut: BisectedMesh,
    frames: Seq<FaceFrame>,
    i: int,
    j: int,
)
    requires
        cut.sources@.len() > 0,
        cut.geometry@.polygons.len() > 0,
        0 <= i < stably_sorted(cut.sources@).len(),
        0 <= j < stably_sorted(cut.sources@).len(),
        stably_sorted(cut.sources@)[i].material_idx == cut.cap_material_idx,
        stably_sorted(cut.sources@)[j].material_idx != cut.cap_material_idx,
        forall|k: int|
            0 <= k < j ==> (#[trigger] stably_sorted(cut.sources@)[k]).material_idx
                == cut.cap_material_idx,
    ensures
        ({
            let faces = bisected(brush, Some(cut), frames)->0.faces;
            let source = stably_sorted(cut.sources@)[j].material_idx as int;
            &&& faces[i].is_cap
            &&& drawn_alike(faces[i], faces[j])
            &&& source < brush.faces.len() ==> drawn_alike(faces[j], brush.faces[source])
                && faces[j].is_cap == brush.faces[source].is_cap
            &&& i < frames.len() ==> faces[i].plane == frames[i].plane && faces[i].uv_u_axis
                == frames[i].uv_u_axis && faces[i].uv_v_axis == frames[i].uv_v_axis
            &&& j < frames.len() ==> faces[j].plane == frames[j].plane
            &&& bisected(brush, Some(cut), frames)->0.vertices == cut.geometry@.vertices
            &&& bisected(brush, Some(cut), frames)->0.polygons == cut.geometry@.polygons
        }),
{
    lemma_first_index_is(stably_sorted(cut.sources@), not_cap(cut.cap_material_idx), j);
}

/// The face of a half space, for a brush without topology.
pub fn clip_face_from_plane(plane: BrushPlane, uv_u_axis: Vector3, uv_v_axis: Vector3) -> (r: BrushFace)
    ensures
        r == (BrushFace { plane, uv_u_axis, uv_v_axis, ..BrushFace::plain_spec() }),
{
    let face: BrushFace = BrushFace::plain();
    BrushFace { plane, uv_u_axis, uv_v_axis, ..face }
}

/// The bits of a coordinate with the other sign.
pub open spec fn negated(bits: u32) -> u32 {
    bits ^ 0x8000_0000u32
}

/// A plane that faces the other way.
pub open spec fn flipped(plane: BrushPlane) -> BrushPlane {
    BrushPlane {
        normal: Vector3 {
            x: negated(plane.normal.x),
            y: negated(plane.normal.y),
            z: negated(plane.normal.z),
        },
        distance: negated(plane.distance),
    }
}

fn flip(plane: BrushPlane) -> (r: BrushPlane)
    ensures
        r == flipped(plane),
{
    BrushPlane {
        normal: Vector3 {
            x: plane.normal.x ^ 0x8000_0000u32,
            y: plane.normal.y ^ 0x8000_0000u32,
            z: plane.normal.z ^ 0x8000_0000u32,
        },
        distance: plane.distance ^ 0x8000_0000u32,
    }
}

/// A coordinate with the other sign keeps its size, and has the other sign.
pub proof fn law_negated_changes_the_sign(bits: u32)
    ensures
        negated(bits) & 0x7fff_ffff == bits & 0x7fff_ffff,
        negated(bits) & 0x8000_0000 != bits & 0x8000_0000,
{
    assert((bits ^ 0x8000_0000u32) & 0x7fff_ffff == bits & 0x7fff_ffff) by (bit_vector);
    assert((bits ^ 0x8000_0000u32) & 0x8000_0000 != bits & 0x8000_0000) by (bit_vector);
}

/// Whether a plane is another one turned around: every number has the same size and the other sign.
pub open spec fn faces_the_other_way(plane: BrushPlane, other: BrushPlane) -> bool {
    &&& opposite(plane.normal.x, other.normal.x)
    &&& opposite(plane.normal.y, other.normal.y)
    &&& opposite(plane.normal.z, other.normal.z)
    &&& opposite(plane.distance, other.distance)
}

/// Whether two numbers have the same size and opposite signs, by their bits.
pub open spec fn opposite(a: u32, b: u32) -> bool {
    a & 0x7fff_ffff == b & 0x7fff_ffff && a & 0x8000_0000 != b & 0x8000_0000
}

/// A flipped plane is the plane turned around.
pub proof fn law_flipped_faces_the_other_way(plane: BrushPlane)
    ensures
        faces_the_other_way(flipped(plane), plane),
{
    law_negated_changes_the_sign(plane.normal.x);
    law_negated_changes_the_sign(plane.normal.y);
    law_negated_changes_the_sign(plane.normal.z);
    law_negated_changes_the_sign(plane.distance);
}

/// A plane that is turned around twice is as it was.
pub proof fn law_flipped_twice(plane: BrushPlane)
    ensures
        flipped(flipped(plane)) == plane,
{
    lemma_negated_twice(plane.normal.x);
    lemma_negated_twice(plane.normal.y);
    lemma_negated_twice(plane.normal.z);
    lemma_negated_twice(plane.distance);
}

proof fn lemma_negated_twice(bits: u32)
    ensures
        negated(negated(bits)) == bits,
{
    assert((bits ^ 0x8000_0000u32) ^ 0x8000_0000u32 == bits) by (bit_vector);
}

/// What the engine knows of one side of a cut: the mesh that is left there, with the plane and the
/// texture directions of each of its faces, and the texture directions of the cutting plane itself.
#[derive(Debug)]
pub struct HalfCut {
    /// There is none when the cut failed.
    pub mesh: Option<BisectedMesh>,
    pub frames: Vec<FaceFrame>,
    pub uv_u_axis: Vector3,
    pub uv_v_axis: Vector3,
}

/// The two sides of a cut: what is in front of the plane, and what is behind it.
#[derive(Debug)]
pub struct ClipParts {
    pub front: HalfCut,
    pub back: HalfCut,
}

/// What is left of a brush on one side of a cut. A brush with topology is cut; one without gets the
/// plane as another face.
pub open spec fn half_of(brush: BrushView, half: HalfCut, plane: BrushPlane) -> Option<BrushView> {
    if brush.polygons.len() > 0 {
        bisected(brush, half.mesh, half.frames@)
    } else {
        Some(
            BrushView {
                faces: brush.faces.push(
                    (BrushFace {
                        plane,
                        uv_u_axis: half.uv_u_axis,
                        uv_v_axis: half.uv_v_axis,
                        ..BrushFace::plain_spec()
                    }),
                ),
                ..brush
            },
        )
    }
}

/// The brush that stays in the place of a cut one, and the one that is split off. There are none when
/// the parts that are to be kept are not there.
pub open spec fn clipped(
    brush: BrushView,
    mode: ClipMode,
    plane: BrushPlane,
    parts: ClipParts,
) -> Option<(BrushView, Option<BrushView>)> {
    let front = half_of(brush, parts.front, plane);
    let back = half_of(brush, parts.back, flipped(plane));
    match mode {
        ClipMode::KeepFront => match front {
            Some(f) => Some((f, None)),
            None => None,
        },
        ClipMode::KeepBack => match back {
            Some(b) => Some((b, None)),
            None => None,
        },
        ClipMode::Split => match (front, back) {
            (Some(f), Some(b)) => Some((f, Some(b))),
            _ => None,
        },
    }
}

/// Whether a side of a cut has something to keep: of a brush with topology the mesh that is left, with
/// a face; of any other the plane is enough.
pub open spec fn has_half(brush: BrushView, half: HalfCut) -> bool {
    brush.polygons.len() > 0 ==> (half.mesh matches Some(m) && m.sources@.len() > 0
        && m.geometry.polygons@.len() > 0)
}

/// Whether a brush is one side of another: of a brush with topology it has the corners and polygons
/// that are left on that side, and a face for each source; any other brush gets one more face.
pub open spec fn is_half(part: BrushView, brush: BrushView, half: HalfCut) -> bool {
    if brush.polygons.len() > 0 {
        &&& part.vertices == half.mesh->0.geometry@.vertices
        &&& part.polygons == half.mesh->0.geometry@.polygons
        &&& part.faces.len() == half.mesh->0.sources@.len()
    } else {
        &&& part.vertices == brush.vertices
        &&& part.polygons == brush.polygons
        &&& part.faces.len() == brush.faces.len() + 1
        &&& part.faces.drop_last() == brush.faces
        &&& part.faces.last().uv_u_axis == half.uv_u_axis
        &&& part.faces.last().uv_v_axis == half.uv_v_axis
    }
}

/// Keeping the front keeps the front alone, keeping the back the back alone, and a split keeps the
/// front and takes off the back. A cut is made exactly when the sides that it needs have something to
/// keep. Where a brush has no topology, the plane faces the front that is kept, and is turned around
/// for the back.
pub proof fn law_clip_keeps_the_chosen_side(
    brush: BrushView,
    mode: ClipMode,
    plane: BrushPlane,
    parts: ClipParts,
)
    ensures
        mode == ClipMode::KeepFront ==> (clipped(brush, mode, plane, parts) is Some <==> has_half(
            brush,
            parts.front,
        )),
        mode == ClipMode::KeepBack ==> (clipped(brush, mode, plane, parts) is Some <==> has_half(
            brush,
            parts.back,
        )),
        mode == ClipMode::Split ==> (clipped(brush, mode, plane, parts) is Some <==> has_half(
            brush,
            parts.front,
        ) && has_half(brush, parts.back)),
        clipped(brush, mode, plane, parts) matches Some((kept, split)) ==> {
            &&& mode == ClipMode::Split <==> split is Some
            &&& mode == ClipMode::KeepBack ==> is_half(kept, brush, parts.back)
            &&& mode != ClipMode::KeepBack ==> is_half(kept, brush, parts.front)
            &&& split matches Some(other) ==> is_half(other, brush, parts.back)
            &&& brush.polygons.len() == 0 ==> {
                &&& mode != ClipMode::KeepBack ==> kept.faces.last().plane == plane
                &&& mode == ClipMode::KeepBack ==> faces_the_other_way(
                    kept.faces.last().plane,
                    plane,
                )
                &&& split matches Some(other) ==> faces_the_other_way(
                    other.faces.last().plane,
                    plane,
                )
            }
        },
{
    law_flipped_faces_the_other_way(plane);
    lemma_half(brush, parts.front, plane);
    lemma_half(brush, parts.back, flipped(plane));
}

proof fn lemma_half(brush: BrushView, half: HalfCut, plane: BrushPlane)
    ensures
        half_of(brush, half, plane) is Some <==> has_half(brush, half),
        half_of(brush, half, plane) matches Some(part) ==> is_half(part, brush, half) && (
        brush.polygons.len() == 0 ==> part.faces.last().plane == plane),
{
    if let Some(part) = half_of(brush, half, plane) {
        if brush.polygons.len() > 0 {
            crate::sorting::law_sorted(half.mesh->0.sources@);
        } else {
            assert(part.faces.drop_last() =~= brush.faces);
        }
    }
}

/// The label of a cut in the history.
pub open spec fn clip_label(mode: ClipMode) -> Seq<char> {
    match mode {
        ClipMode::KeepFront => "Clip brush (keep front)"@,
        ClipMode::KeepBack => "Clip brush (keep back)"@,
        ClipMode::Split => "Clip brush (split - front)"@,
    }
}

fn take_half(brush: &Brush, half: HalfCut, plane: BrushPlane) -> (r: Option<Brush>)
    ensures
        crate::brush::brush_of(r) == half_of(brush@, half, plane),
{
    if brush.polygons.len() > 0 {
        bisect_brush(brush, half.mesh, &half.frames)
    } else {
        let mut b: Brush = brush.copy();
        b.faces.push(clip_face_from_plane(plane, half.uv_u_axis, half.uv_v_axis));
        Some(b)
    }
}

/// Whether a command replaces the brush of an entity by what a cut keeps.
pub open spec fn sets_cut(
    set: SetBrush,
    entity: Entity,
    before: BrushView,
    mode: ClipMode,
    kept: BrushView,
) -> bool {
    &&& set.entity == entity
    &&& set.old_brush@ == before
    &&& set.new_brush@ == kept
    &&& set.label@ == clip_label(mode)
}

/// Whether the history became another by recording that a brush was replaced.
pub open spec fn set_recorded(before: CommandHistory, after: CommandHistory, set: SetBrush) -> bool {
    &&& before.recorded(after)
    &&& after.undo_stack@.last() == EditorCommand::Engine(EngineCommand::SetBrush(set))
}

/// A part that was split off: it becomes a brush of its own, in one step with the replacement of the
/// brush that was cut.
#[derive(Debug)]
pub struct SplitPart {
    pub set: SetBrush,
    pub back: Brush,
}

/// Whether the history became another by recording a split as one group: the replacement of the brush
/// that was cut, and the creation of the part that was split off.
pub open spec fn split_recorded(
    before: CommandHistory,
    after: CommandHistory,
    set: SetBrush,
    data: BrushDataView,
) -> bool {
    &&& before.recorded(after)
    &&& after.undo_stack@.last() matches EditorCommand::Group(g) && g.label@ == "Split brush"@
        && g.commands@.len() == 2 && g.commands@[0] == EditorCommand::Engine(
        EngineCommand::SetBrush(set),
    ) && (g.commands@[1] matches EditorCommand::Engine(EngineCommand::CreateBrush(c)) && c.data@
        == data)
}

/// The transform of the part that is split off: that of the brush below its parent, else the place of
/// the brush in the world.
pub open spec fn split_transform(w: WorldView, e: Entity, in_world: StructView) -> StructView {
    match (w.parent_of_live(e), w.held_component(e, TRANSFORM_TYPE_PATH@)) {
        (Some(_), Some(t)) => t,
        _ => in_world,
    }
}

impl WorldView {
    /// The parent of an entity that is alive.
    pub open spec fn parent_of_live(self, e: Entity) -> Option<Entity> {
        if self.alive(e) {
            self.entities[e].parent
        } else {
            None
        }
    }
}

/// What an operation on brushes changes: the brushes, the ids that entities carry, and the history.
#[verifier::ext_equal]
pub ghost struct Ledger {
    pub brushes: Map<Entity, BrushView>,
    pub known: Seq<(u64, Entity)>,
    pub history: CommandHistory,
}

/// What is needed to put the part that a split takes off into the scene: the transform of the brush in
/// the world, the id of the new entity, and ids that it and its parent get if they have none.
#[derive(Debug)]
pub struct SplitSpawn {
    pub in_world: BsnStructData,
    pub entity: Entity,
    pub fresh: (u64, u64),
}

/// Whether the part that a split takes off was put into the scene beside the brush that was cut, and
/// both steps were recorded as one.
pub open spec fn split_spawned(
    before: SceneWorld,
    after: SceneWorld,
    had: Ledger,
    has: Ledger,
    set: SetBrush,
    back: BrushView,
    spawn: SplitSpawn,
) -> bool {
    let parent = before@.parent_of_live(set.entity);
    let transform = split_transform(before@, set.entity, spawn.in_world@);
    let there = with_brush(before@, "Brush"@, back, transform, spawn.entity, parent);
    let first = with_id(had.known, spawn.entity, spawn.fresh.0);
    &&& enrolled(there, after@, spawn.entity)
    &&& after.document.next_node == before.document.next_node + nodes_added(there, spawn.entity)
    &&& has.brushes == had.brushes.insert(spawn.entity, back)
    &&& split_recorded(
        had.history,
        has.history,
        set,
        data_of(there, back, transform, had.known, spawn.entity, spawn.fresh),
    )
    &&& has.known == (match parent {
        Some(p) => with_id(first, p, spawn.fresh.1),
        None => first,
    })
}

/// Puts the part that was split off into the scene, beside the brush that was cut, and records both
/// steps as one.
pub fn queue_split_spawn(
    world: &mut SceneWorld,
    brushes: &mut Brushes,
    history: &mut CommandHistory,
    known: &mut Vec<(u64, Entity)>,
    part: SplitPart,
    spawn: SplitSpawn,
)
    requires
        !old(world)@.alive(spawn.entity),
        old(world).document.wf(),
        old(world).document.next_node < u64::MAX,
    ensures
        split_spawned(
            *old(world),
            *final(world),
            (Ledger { brushes: old(brushes)@, known: old(known)@, history: *old(history) }),
            (Ledger { brushes: final(brushes)@, known: final(known)@, history: *final(history) }),
            part.set,
            part.back@,
            spawn,
        ),
        final(world).document.wf(),
{
    let parent: Option<Entity> = world.parent(part.set.entity);
    let transform: BsnStructData = match parent {
        Some(_) => match world.held_component(part.set.entity, TRANSFORM_TYPE_PATH) {
            Some(t) => t,
            None => spawn.in_world,
        },
        None => spawn.in_world,
    };
    enter_brush(world, "Brush", &part.back, &transform, spawn.entity, parent);
    brushes.set(spawn.entity, part.back);
    let data: BrushData = brush_data_from_entity(
        world,
        brushes,
        known,
        spawn.entity,
        transform,
        spawn.fresh,
    );
    let mut commands: Vec<EditorCommand> = Vec::new();
    commands.push(EditorCommand::Engine(EngineCommand::SetBrush(part.set)));
    commands.push(EditorCommand::Engine(EngineCommand::CreateBrush(CreateBrushCommand { data })));
    let group = CommandGroup { commands, label: "Split brush".to_owned() };
    history.push_executed(EditorCommand::Group(group));
    assert(history.undo_stack@.drop_last() =~= old(history).undo_stack@);
}

/// Whether a brush that was split off stands where the brush was that it comes from: below the same
/// parent with the same transform, or, for a brush without a parent, at its place in the world.
pub open spec fn stands_beside(
    before: WorldView,
    after: WorldView,
    e: Entity,
    new: Entity,
    in_world: StructView,
) -> bool {
    let path = "bevy_transform::components::transform::Transform"@;
    let has_parent = before.alive(e) && before.entities[e].parent is Some;
    &&& after.alive(new)
    &&& has_parent ==> after.entities[new].parent == before.entities[e].parent
    &&& !has_parent ==> after.entities[new].parent is None
    &&& has_parent && before.alive(before.entities[e].parent->0) ==> {
        let p = before.entities[e].parent->0;
        after.entities[p].children == before.entities[p].children.push(new)
    }
    &&& has_parent && before.held_component(e, path) is Some ==> after.held_component(new, path)
        == before.held_component(e, path)
    &&& !has_parent && in_world.type_path == path ==> after.held_component(new, path) == Some(
        in_world,
    )
}

/// The part that a split takes off stands where the brush stood that was cut: it is below the same
/// parent, and has the same transform there; without a parent it has the place of the brush in the
/// world. The recorded step keeps that transform. The part is the brush of the new entity, live and
/// among the brushes, and every other entity but the parent is as it was.
pub proof fn law_split_part_stays_in_place(
    before: SceneWorld,
    after: SceneWorld,
    had: Ledger,
    has: Ledger,
    set: SetBrush,
    back: BrushView,
    spawn: SplitSpawn,
)
    requires
        !before@.alive(spawn.entity),
        split_spawned(before, after, had, has, set, back, spawn),
    ensures
        stands_beside(before@, after@, set.entity, spawn.entity, spawn.in_world@),
        has.brushes == had.brushes.insert(spawn.entity, back),
        after@.entities[spawn.entity].components.contains(brush_component(back)),
        after@.entities[spawn.entity].name == Some("Brush"@),
        has.history.undo_stack@.last() matches EditorCommand::Group(g)
            && g.commands@.len() == 2
            && g.commands@[0] == EditorCommand::Engine(EngineCommand::SetBrush(set))
            && (g.commands@[1] matches EditorCommand::Engine(EngineCommand::CreateBrush(c))
            && after@.entities[spawn.entity].components.contains(c.data.transform@)
            && c.data.brush@ == back && c.data.name@ == "Brush"@),
        forall|x: Entity|
            x != spawn.entity && before@.alive(x) && !(before@.alive(set.entity)
                && before@.entities[set.entity].parent == Some(x)) ==> after@.alive(x)
                && #[trigger] after@.entities[x] == before@.entities[x],
{
    let w = before@;
    let e = set.entity;
    let new = spawn.entity;
    let path = "bevy_transform::components::transform::Transform"@;
    let parent = w.parent_of_live(e);
    let transform = split_transform(w, e, spawn.in_world@);
    let there = with_brush(w, "Brush"@, back, transform, new, parent);
    assert(after@.entities == there.entities);
    let cs = there.entities[new].components;
    assert(cs == crate::draw_brush::brush_parts(back, transform));
    assert(cs[0] == brush_component(back));
    assert(cs[1] == transform);
    lemma_first_index(w.components_of(e), typed(path));
    if transform.type_path == path {
        assert(cs[0].type_path != path) by {
            reveal_strlit("jackdaw_scene_types::types::Brush");
            reveal_strlit("bevy_transform::components::transform::Transform");
            assert(cs[0].type_path == "jackdaw_scene_types::types::Brush"@);
            assert("jackdaw_scene_types::types::Brush"@.len() != path.len());
        }
        lemma_first_index_is(cs, typed(path), 1);
    }
}

/// The brush that is cut: the active one, when it is a brush that has a place in the world, and a plane
/// is shown.
pub open spec fn cut_brush(
    state: ClipState,
    active_brush: Option<Entity>,
    brushes: Map<Entity, BrushView>,
    placed: bool,
) -> Option<BrushView> {
    match active_brush {
        Some(e) => if brushes.contains_key(e) && state.preview_plane is Some && placed {
            Some(brushes[e])
        } else {
            None
        },
        None => None,
    }
}

/// Whether the replacement of a brush by what a cut keeps was recorded: together with the part that is
/// split off, or alone, and then nothing else changed.
pub open spec fn cut_recorded(
    before: SceneWorld,
    after: SceneWorld,
    had: Ledger,
    has: Ledger,
    set: SetBrush,
    split: Option<BrushView>,
    spawn: SplitSpawn,
) -> bool {
    match split {
        Some(back) => split_spawned(before, after, had, has, set, back, spawn),
        None => {
            &&& after == before
            &&& has.brushes == had.brushes
            &&& has.known == had.known
            &&& set_recorded(had.history, has.history, set)
        },
    }
}

/// Whether a cut replaced the brush of an entity by the part that is kept, and that was recorded.
pub open spec fn cut_made(
    before: SceneWorld,
    after: SceneWorld,
    had: Ledger,
    has: Ledger,
    e: Entity,
    brush: BrushView,
    mode: ClipMode,
    kept: BrushView,
    split: Option<BrushView>,
    spawn: SplitSpawn,
) -> bool {
    let mid = Ledger { brushes: had.brushes.insert(e, kept), ..had };
    exists|set: SetBrush|
        {
            &&& sets_cut(set, e, brush, mode, kept)
            &&& #[trigger] cut_recorded(before, after, mid, has, set, split, spawn)
        }
}

/// Makes the cut: replaces the active brush by the part that is kept, records that, and starts the
/// tool anew. A split puts the other part into the scene as well, in the same step of the history.
/// When there is no brush, no plane, or a part is missing, nothing changes. `parts` holds what the
/// engine made of the brush on the two sides of the preview plane, and `spawn` what a split needs, if
/// the brush has a place in the world.
pub fn clip_apply(
    state: &mut ClipState,
    active_brush: Option<Entity>,
    world: &mut SceneWorld,
    brushes: &mut Brushes,
    history: &mut CommandHistory,
    known: &mut Vec<(u64, Entity)>,
    parts: ClipParts,
    spawn: Option<SplitSpawn>,
) -> (r: OperatorResult)
    requires
        old(state).mode == ClipMode::Split ==> {
            &&& spawn matches Some(s) ==> !old(world)@.alive(s.entity)
            &&& old(world).document.wf()
            &&& old(world).document.next_node < u64::MAX
        },
    ensures
        ({
            let had = Ledger { brushes: old(brushes)@, known: old(known)@, history: *old(history) };
            let has = Ledger {
                brushes: final(brushes)@,
                known: final(known)@,
                history: *final(history),
            };
            let brush = cut_brush(*old(state), active_brush, old(brushes)@, spawn is Some);
            let cut = match brush {
                Some(b) => clipped(b, old(state).mode, old(state).preview_plane->0, parts),
                None => None,
            };
            match cut {
                Some((kept, split)) => {
                    &&& r == OperatorResult::Finished
                    &&& final(state).fresh()
                    &&& cut_made(
                        *old(world),
                        *final(world),
                        had,
                        has,
                        active_brush->0,
                        brush->0,
                        old(state).mode,
                        kept,
                        split,
                        spawn->0,
                    )
                },
                None => {
                    &&& r == OperatorResult::Cancelled
                    &&& *final(state) == *old(state)
                    &&& *final(world) == *old(world)
                    &&& has == had
                },
            }
        }),
        old(world).document.wf() ==> final(world).document.wf(),
        r == OperatorResult::Finished <==> {
            &&& active_brush is Some
            &&& old(brushes)@.contains_key(active_brush->0)
            &&& old(state).preview_plane is Some
            &&& spawn is Some
            &&& old(state).mode != ClipMode::KeepBack ==> has_half(
                old(brushes)@[active_brush->0],
                parts.front,
            )
            &&& old(state).mode != ClipMode::KeepFront ==> has_half(
                old(brushes)@[active_brush->0],
                parts.back,
            )
        },
        r == OperatorResult::Finished && old(state).mode != ClipMode::Split ==> {
            let e = active_brush->0;
            &&& *final(world) == *old(world)
            &&& final(brushes)@.remove(e) == old(brushes)@.remove(e)
            &&& final(brushes)@.contains_key(e)
            &&& is_half(
                final(brushes)@[e],
                old(brushes)@[e],
                if old(state).mode == ClipMode::KeepBack {
                    parts.back
                } else {
                    parts.front
                },
            )
        },
        r == OperatorResult::Finished && old(state).mode == ClipMode::Split && active_brush->0
            != spawn->0.entity ==> {
            let e = active_brush->0;
            let new = spawn->0.entity;
            &&& stands_beside(old(world)@, final(world)@, e, new, spawn->0.in_world@)
            &&& final(brushes)@.remove(e).remove(new) == old(brushes)@.remove(e).remove(new)
            &&& final(brushes)@.contains_key(e)
            &&& final(brushes)@.contains_key(new)
            &&& is_half(final(brushes)@[e], old(brushes)@[e], parts.front)
            &&& is_half(final(brushes)@[new], old(brushes)@[e], parts.back)
            &&& final(world)@.entities[new].components.contains(
                brush_component(final(brushes)@[new]),
            )
        },
{
    proof {
        if active_brush is Some && old(state).preview_plane is Some {
            law_clip_keeps_the_chosen_side(
                brushes@[active_brush->0],
                state.mode,
                state.preview_plane->0,
                parts,
            );
        }
    }
    let entity: Entity = match active_brush {
        Some(e) => e,
        None => {
            return OperatorResult::Cancelled;
        },
    };
    let brush: Brush = match brushes.get(entity) {
        Some(b) => b,
        None => {
            return OperatorResult::Cancelled;
        },
    };
    let plane: BrushPlane = match state.preview_plane {
        Some(p) => p,
        None => {
            return OperatorResult::Cancelled;
        },
    };
    let spawn: SplitSpawn = match spawn {
        Some(s) => s,
        None => {
            return OperatorResult::Cancelled;
        },
    };
    let front: Option<Brush> = take_half(&brush, parts.front, plane);
    let back: Option<Brush> = take_half(&brush, parts.back, flip(plane));
    let (kept, split, label): (Brush, Option<Brush>, &'static str) = match state.mode {
        ClipMode::KeepFront => match front {
            Some(f) => (f, None, "Clip brush (keep front)"),
            None => {
                return OperatorResult::Cancelled;
            },
        },
        ClipMode::KeepBack => match back {
            Some(b) => (b, None, "Clip brush (keep back)"),
            None => {
                return OperatorResult::Cancelled;
            },
        },
        ClipMode::Split => match (front, back) {
            (Some(f), Some(b)) => (f, Some(b), "Clip brush (split - front)"),
            _ => {
                return OperatorResult::Cancelled;
            },
        },
    };
    brushes.set(entity, kept.copy());
    let set: SetBrush = SetBrush {
        entity,
        old_brush: brush,
        new_brush: kept,
        label: label.to_owned(),
    };
    let ghost mode = state.mode;
    let ghost mid = Ledger { brushes: brushes@, known: known@, history: *history };
    let ghost kept_view = kept@;
    let ghost other = crate::brush::brush_of(split);
    assert(sets_cut(set, entity, brush@, mode, kept@));
    assert(clipped(brush@, mode, plane, parts) == Some((kept_view, other)));
    assert(mid.brushes == old(brushes)@.insert(entity, kept_view));
    *state = ClipState::default();
    match split {
        Some(back) => {
            queue_split_spawn(world, brushes, history, known, SplitPart { set, back }, spawn);
        },
        None => {
            history.push_executed(EditorCommand::Engine(EngineCommand::SetBrush(set)));
            assert(history.undo_stack@.drop_last() =~= old(history).undo_stack@);
            assert(set_recorded(*old(history), *history, set));
        },
    }
    proof {
        let had = Ledger { brushes: old(brushes)@, known: old(known)@, history: *old(history) };
        let has = Ledger { brushes: brushes@, known: known@, history: *history };
        assert(mid == (Ledger { brushes: had.brushes.insert(entity, kept_view), ..had }));
        assert(cut_recorded(*old(world), *world, mid, has, set, other, spawn));
        assert(cut_made(
            *old(world),
            *world,
            had,
            has,
            entity,
            brush@,
            mode,
            kept_view,
            other,
            spawn,
        ));
        if let Some(back) = other {
            law_split_part_stays_in_place(*old(world), *world, mid, has, set, back, spawn);
            assert(brushes@.remove(entity).remove(spawn.entity) =~= old(brushes)@.remove(
                entity,
            ).remove(spawn.entity));
        } else {
            assert(brushes@.remove(entity) =~= old(brushes)@.remove(entity));
        }
    }
    OperatorResult::Finished
}

} // verus!
