//! The meshes that are shown for brushes: what they are built from, the materials of their chunks,
//! and which brush is previewed.
use vstd::prelude::*;
use crate::brush::{
    brush_component, copy_list, copy_rings, rings_view, Brush, BrushFace, BrushView, Brushes,
    Vector3, DEFAULT_MATERIAL,
};
use crate::component_commands::{law_transform_is_read_back, sync_component_to_ast, synced, transformed, write_transform};
use crate::seqs::{contains, copied, filter_one, without};
use crate::value::{BsnStructData, Entity};
use crate::world::{SceneWorld, WorldView};

verus! {

/// Corners, and for each polygon the corners around it.
#[derive(Debug)]
pub struct MeshGeometry {
    pub vertices: Vec<Vector3>,
    pub polygons: Vec<Vec<usize>>,
}

/// What a [`MeshGeometry`] stands for.
#[verifier::ext_equal]
pub ghost struct GeometryView {
    pub vertices: Seq<Vector3>,
    pub polygons: Seq<Seq<usize>>,
}

impl View for MeshGeometry {
    type V = GeometryView;

    open spec fn view(&self) -> GeometryView {
        GeometryView { vertices: self.vertices@, polygons: rings_view(self.polygons@) }
    }
}

impl MeshGeometry {
    /// A copy of the geometry.
    pub fn copy(&self) -> (r: MeshGeometry)
        ensures
            r@ == self@,
    {
        MeshGeometry { vertices: copy_list(&self.vertices), polygons: copy_rings(&self.polygons) }
    }
}

/// A modifier of a brush, known by its number, and whether the editor applies it.
#[derive(Clone, Copy, Debug, PartialEq, Eq, Structural)]
pub struct ModifierEntry {
    pub modifier: u64,
    pub enabled: bool,
}

/// What the rebuild of a brush's mesh reads, besides the brush.
#[derive(Debug)]
pub struct MeshRequest {
    pub entity: Entity,
    /// The mesh that is being edited, in an edit mode.
    pub live: Option<MeshGeometry>,
    pub modifiers: Vec<ModifierEntry>,
    /// The live children, and whether each shows a mesh.
    pub children: Vec<(Entity, bool)>,
    pub preview: bool,
    pub selected: bool,
    pub parent_selected: bool,
}

impl MeshRequest {
    /// Whether the brush is shown as selected.
    pub open spec fn highlighted(self) -> bool {
        self.selected || self.parent_selected || self.preview
    }
}

/// The geometry before modifiers: that of the mesh being edited, else the topology of the brush,
/// else, for a brush without one, what its planes enclose.
pub open spec fn base_of(
    brush: BrushView,
    request: MeshRequest,
    from_planes: GeometryView,
) -> GeometryView {
    match request.live {
        Some(live) => live@,
        None => if brush.polygons.len() > 0 {
            GeometryView { vertices: brush.vertices, polygons: brush.polygons }
        } else {
            from_planes
        },
    }
}

/// The modifiers that the editor applies, in order.
pub open spec fn enabled_of(modifiers: Seq<ModifierEntry>) -> Seq<u64>
    decreases modifiers.len(),
{
    if modifiers.len() == 0 {
        Seq::empty()
    } else {
        let before = enabled_of(modifiers.drop_last());
        if modifiers.last().enabled {
            before.push(modifiers.last().modifier)
        } else {
            before
        }
    }
}

/// The geometry before modifiers, and the modifiers to evaluate on it.
pub fn geometry_to_evaluate(brush: &Brush, request: &MeshRequest, from_planes: &MeshGeometry) -> (r: (
    MeshGeometry,
    Vec<u64>,
))
    ensures
        r.0@ == base_of(brush@, *request, from_planes@),
        r.1@ == enabled_of(request.modifiers@),
        request.live matches Some(live) ==> r.0.vertices@ == live.vertices@ && rings_view(
            r.0.polygons@,
        ) == rings_view(live.polygons@),
        request.live is None && brush.polygons@.len() > 0 ==> r.0.vertices@ == brush.vertices@
            && rings_view(r.0.polygons@) == rings_view(brush.polygons@),
        request.live is None && brush.polygons@.len() == 0 ==> r.0@ == from_planes@,
{
    let base: MeshGeometry = match &request.live {
        Some(live) => live.copy(),
        None => if brush.polygons.len() > 0 {
            MeshGeometry {
                vertices: copy_list(&brush.vertices),
                polygons: copy_rings(&brush.polygons),
            }
        } else {
            from_planes.copy()
        },
    };
    let all: &Vec<ModifierEntry> = &request.modifiers;
    let mut enabled: Vec<u64> = Vec::new();
    let mut i: usize = 0;
    assert(all@.subrange(0, 0) =~= Seq::empty());
    while i < all.len()
        invariant
            i <= all.len(),
            enabled@ == enabled_of(all@.subrange(0, i as int)),
        decreases all.len() - i,
    {
        proof {
            assert(all@.subrange(0, i + 1).drop_last() =~= all@.subrange(0, i as int));
            assert(all@.subrange(0, i + 1).last() == all@[i as int]);
        }
        if all[i].enabled {
            enabled.push(all[i].modifier);
        }
        i = i + 1;
    }
    assert(all@.subrange(0, i as int) =~= all@);
    (base, enabled)
}

/// What the modifiers make of the geometry. Each face and corner may name the authored one that it
/// comes from; what a cut made has none.
#[derive(Debug)]
pub struct Evaluated {
    pub geometry: MeshGeometry,
    pub faces: Vec<BrushFace>,
    pub face_source: Vec<Option<usize>>,
    pub vert_source: Vec<Option<usize>>,
}

/// Whether the corners begin with authored ones in their own order, and every later one comes from
/// an earlier one or from none.
pub open spec fn begins_with_itself(source: Seq<Option<usize>>) -> bool {
    forall|i: int|
        0 <= i < source.len() ==> own_so_far(source, i) || (match #[trigger] source[i] {
            Some(s) => s < i,
            None => true,
        })
}

/// Whether the entries up to one name themselves.
pub open spec fn own_so_far(source: Seq<Option<usize>>, i: int) -> bool {
    forall|j: int| 0 <= j <= i ==> (#[trigger] source[j] matches Some(s) && s == j)
}

/// Whether every entry names an element below a bound, or none.
pub open spec fn all_below(source: Seq<Option<usize>>, bound: nat) -> bool {
    forall|i: int|
        0 <= i < source.len() ==> (match #[trigger] source[i] {
            Some(s) => s < bound,
            None => true,
        })
}

/// Whether evaluated geometry says where it comes from: corners in the authored order first, and
/// faces from authored faces.
pub open spec fn sources_valid(e: Evaluated, base: GeometryView) -> bool {
    begins_with_itself(e.vert_source@) && all_below(e.face_source@, base.polygons.len())
}

/// Tests whether evaluated geometry says where it comes from, for a base with so many faces.
pub fn source_maps_valid(e: &Evaluated, base: &MeshGeometry) -> (r: bool)
    ensures
        r == sources_valid(*e, base@),
{
    let mut own: bool = true;
    let mut i: usize = 0;
    while i < e.vert_source.len()
        invariant
            i <= e.vert_source.len(),
            own == own_so_far(e.vert_source@, i - 1),
            forall|j: int|
                0 <= j < i ==> own_so_far(e.vert_source@, j) || (match #[trigger] e.vert_source@[j] {
                    Some(s) => s < j,
                    None => true,
                }),
        decreases e.vert_source.len() - i,
    {
        let named: bool = match e.vert_source[i] {
            Some(s) => s == i,
            None => false,
        };
        let earlier: bool = match e.vert_source[i] {
            Some(s) => s < i,
            None => true,
        };
        let still: bool = own && named;
        proof {
            let source = e.vert_source@;
            if still {
                assert(own_so_far(source, i as int)) by {
                    assert forall|j: int| 0 <= j <= i implies (#[trigger] source[j] matches Some(s)
                        && s == j) by {
                        if j < i {
                            assert(own_so_far(source, i - 1));
                        }
                    }
                }
            } else {
                assert(!own_so_far(source, i as int)) by {
                    if own_so_far(source, i as int) {
                        assert(source[i as int] matches Some(s) && s == i);
                        assert(own_so_far(source, i - 1));
                    }
                }
            }
        }
        if !still && !earlier {
            assert(!begins_with_itself(e.vert_source@));
            return false;
        }
        own = still;
        i = i + 1;
    }
    let mut k: usize = 0;
    while k < e.face_source.len()
        invariant
            k <= e.face_source.len(),
            forall|j: int|
                0 <= j < k ==> (match #[trigger] e.face_source@[j] {
                    Some(s) => s < base@.polygons.len(),
                    None => true,
                }),
        decreases e.face_source.len() - k,
    {
        if let Some(s) = e.face_source[k] {
            if s >= base.polygons.len() {
                assert(e.face_source@[k as int] == Some(s));
                return false;
            }
        }
        k = k + 1;
    }
    true
}

/// The materials of brushes: one for each colour, and those of faces without a material.
#[derive(Debug)]
pub struct BrushMaterialPalette {
    pub materials: Vec<u64>,
    pub preview_materials: Vec<u64>,
    pub default_material: u64,
    pub default_selected_material: u64,
    pub x_ray_material: u64,
    pub x_ray_selected_material: u64,
}

/// A part of a brush's mesh that has one material: which face each triangle belongs to.
#[derive(Debug)]
pub struct BrushChunk {
    pub material: u64,
    pub face_of_tri: Vec<usize>,
}

/// The entity that shows a chunk.
#[derive(Debug)]
pub struct BrushMeshChunk {
    pub entity: Entity,
    pub brush_entity: Entity,
    pub face_of_tri: Vec<usize>,
    pub uses_default_material: bool,
    pub material: u64,
}

impl BrushMeshChunk {
    /// Whether the chunk casts and receives shadows: not without a material of its own.
    pub fn has_shadows(&self) -> (r: bool)
        ensures
            r == !self.uses_default_material,
    {
        !self.uses_default_material
    }
}

/// The mesh that is shown for a brush.
#[derive(Debug)]
pub struct BrushMeshCache {
    pub vertices: Vec<Vector3>,
    pub face_polygons: Vec<Vec<usize>>,
    pub face_normals: Vec<Vector3>,
    pub chunk_entities: Vec<Entity>,
    pub face_source: Vec<Option<usize>>,
    pub vert_source: Vec<Option<usize>>,
    pub base_vertices: Vec<Vector3>,
    pub base_face_polygons: Vec<Vec<usize>>,
}

/// The authored element that a shown one comes from. Without sources, as when there are no modifiers,
/// every element is its own; what a cut made comes from none.
pub open spec fn source_of(sources: Seq<Option<usize>>, i: usize) -> Option<usize> {
    if sources.len() == 0 {
        Some(i)
    } else if i < sources.len() {
        sources[i as int]
    } else {
        None
    }
}

impl BrushMeshCache {
    /// The authored face that a shown face comes from.
    pub fn authored_face(&self, face: usize) -> (r: Option<usize>)
        ensures
            r == source_of(self.face_source@, face),
    {
        find_source(&self.face_source, face)
    }

    /// The authored corner that a shown corner comes from.
    pub fn authored_vert(&self, corner: usize) -> (r: Option<usize>)
        ensures
            r == source_of(self.vert_source@, corner),
    {
        find_source(&self.vert_source, corner)
    }
}

fn find_source(sources: &Vec<Option<usize>>, i: usize) -> (r: Option<usize>)
    ensures
        r == source_of(sources@, i),
{
    if sources.len() == 0 {
        Some(i)
    } else if i < sources.len() {
        sources[i]
    } else {
        None
    }
}

/// What a [`BrushMeshCache`] stands for.
#[verifier::ext_equal]
pub ghost struct CacheView {
    pub shown: GeometryView,
    pub face_normals: Seq<Vector3>,
    pub chunk_entities: Seq<Entity>,
    pub face_source: Seq<Option<usize>>,
    pub vert_source: Seq<Option<usize>>,
    pub base: GeometryView,
}

impl View for BrushMeshCache {
    type V = CacheView;

    open spec fn view(&self) -> CacheView {
        CacheView {
            shown: GeometryView {
                vertices: self.vertices@,
                polygons: rings_view(self.face_polygons@),
            },
            face_normals: self.face_normals@,
            chunk_entities: self.chunk_entities@,
            face_source: self.face_source@,
            vert_source: self.vert_source@,
            base: GeometryView {
                vertices: self.base_vertices@,
                polygons: rings_view(self.base_face_polygons@),
            },
        }
    }
}

/// The children that show the mesh of an earlier rebuild.
pub open spec fn mesh_children(children: Seq<(Entity, bool)>) -> Seq<Entity>
    decreases children.len(),
{
    if children.len() == 0 {
        Seq::empty()
    } else {
        let before = mesh_children(children.drop_last());
        if children.last().1 {
            before.push(children.last().0)
        } else {
            before
        }
    }
}

/// The faces whose normals are cached.
pub open spec fn faces_shown(brush: BrushView, evaluated: Option<Evaluated>) -> Seq<BrushFace> {
    match evaluated {
        Some(e) => if e.face_source@.len() == 0 {
            brush.faces
        } else {
            e.faces@
        },
        None => brush.faces,
    }
}

/// The mesh after a rebuild. Without modifiers it is the geometry before them, and nothing says
/// where it comes from.
pub open spec fn cached(
    brush: BrushView,
    base: GeometryView,
    evaluated: Option<Evaluated>,
    ids: Seq<Entity>,
) -> CacheView {
    let faces = faces_shown(brush, evaluated);
    CacheView {
        shown: match evaluated {
            Some(e) => e.geometry@,
            None => base,
        },
        face_normals: Seq::new(faces.len(), |i: int| faces[i].plane.normal),
        chunk_entities: ids,
        face_source: match evaluated {
            Some(e) => e.face_source@,
            None => Seq::empty(),
        },
        vert_source: match evaluated {
            Some(e) => e.vert_source@,
            None => Seq::empty(),
        },
        base,
    }
}

/// The material that a chunk is built with: its own, or that of the palette.
pub open spec fn built_material(own: u64, highlighted: bool, palette: BrushMaterialPalette) -> u64 {
    if own != DEFAULT_MATERIAL {
        own
    } else if highlighted {
        palette.default_selected_material
    } else {
        palette.default_material
    }
}

/// What is there after the rebuild of a brush's mesh.
#[derive(Debug)]
pub struct RebuiltMesh {
    /// The entities of the last rebuild, which go away.
    pub despawned: Vec<Entity>,
    pub chunks: Vec<BrushMeshChunk>,
    pub cache: BrushMeshCache,
}

fn mesh_children_of(children: &Vec<(Entity, bool)>) -> (r: Vec<Entity>)
    ensures
        r@ == mesh_children(children@),
{
    let mut out: Vec<Entity> = Vec::new();
    let mut i: usize = 0;
    assert(children@.subrange(0, 0) =~= Seq::empty());
    while i < children.len()
        invariant
            i <= children.len(),
            out@ == mesh_children(children@.subrange(0, i as int)),
        decreases children.len() - i,
    {
        proof {
            assert(children@.subrange(0, i + 1).drop_last() =~= children@.subrange(0, i as int));
            assert(children@.subrange(0, i + 1).last() == children@[i as int]);
        }
        if children[i].1 {
            out.push(children[i].0);
        }
        i = i + 1;
    }
    assert(children@.subrange(0, i as int) =~= children@);
    out
}

fn normals_of(faces: &Vec<BrushFace>) -> (r: Vec<Vector3>)
    ensures
        r@ == Seq::new(faces@.len(), |i: int| faces@[i].plane.normal),
{
    let mut out: Vec<Vector3> = Vec::new();
    let mut i: usize = 0;
    while i < faces.len()
        invariant
            i <= faces.len(),
            out@.len() == i,
            forall|j: int| 0 <= j < i ==> #[trigger] out@[j] == faces@[j].plane.normal,
        decreases faces.len() - i,
    {
        out.push(faces[i].plane.normal);
        i = i + 1;
    }
    assert(out@ =~= Seq::new(faces@.len(), |i: int| faces@[i].plane.normal));
    out
}

/// Whether a chunk entity stands for a chunk of a brush.
pub open spec fn stands_for(
    c: BrushMeshChunk,
    chunk: BrushChunk,
    id: Entity,
    request: MeshRequest,
    palette: BrushMaterialPalette,
) -> bool {
    &&& c.entity == id
    &&& c.brush_entity == request.entity
    &&& c.face_of_tri@ == chunk.face_of_tri@
    &&& c.uses_default_material == (chunk.material == DEFAULT_MATERIAL)
    &&& c.material == built_material(chunk.material, request.highlighted(), palette)
}

/// Rebuilds the mesh of a brush that changed. `from_planes` is what the planes of the brush enclose,
/// and `evaluated` what the enabled modifiers made of the geometry before them, when there are any;
/// `chunks` is the mesh of that by material, and `ids` the entities that show the chunks.
pub fn regenerate_brush_meshes(
    brush: &Brush,
    request: &MeshRequest,
    from_planes: &MeshGeometry,
    evaluated: Option<Evaluated>,
    palette: &BrushMaterialPalette,
    chunks: &Vec<BrushChunk>,
    ids: &Vec<Entity>,
) -> (r: RebuiltMesh)
    requires
        evaluated is Some <==> enabled_of(request.modifiers@).len() > 0,
        evaluated matches Some(e) ==> sources_valid(e, base_of(brush@, *request, from_planes@)),
        ids@.len() == chunks@.len(),
    ensures
        r.despawned@ == mesh_children(request.children@),
        r.cache@ == cached(brush@, base_of(brush@, *request, from_planes@), evaluated, ids@),
        request.live matches Some(live) ==> r.cache.base_vertices@ == live.vertices@ && rings_view(
            r.cache.base_face_polygons@,
        ) == rings_view(live.polygons@),
        request.live is None && brush.polygons@.len() > 0 ==> r.cache.base_vertices@
            == brush.vertices@ && rings_view(r.cache.base_face_polygons@) == rings_view(
            brush.polygons@,
        ),
        request.live is None && brush.polygons@.len() == 0 ==> r.cache.base_vertices@
            == from_planes.vertices@ && rings_view(r.cache.base_face_polygons@) == rings_view(
            from_planes.polygons@,
        ),
        evaluated is None ==> r.cache.vertices@ == r.cache.base_vertices@ && rings_view(
            r.cache.face_polygons@,
        ) == rings_view(r.cache.base_face_polygons@),
        evaluated matches Some(e) ==> r.cache.vertices@ == e.geometry.vertices@ && rings_view(
            r.cache.face_polygons@,
        ) == rings_view(e.geometry.polygons@),
        r.cache.chunk_entities@ == ids@,
        r.chunks@.len() == chunks@.len(),
        forall|i: int|
            0 <= i < chunks@.len() ==> stands_for(
                #[trigger] r.chunks@[i],
                chunks@[i],
                ids@[i],
                *request,
                *palette,
            ),
{
    let despawned: Vec<Entity> = mesh_children_of(&request.children);
    let highlighted: bool = request.selected || request.parent_selected || request.preview;
    let mut shown: Vec<BrushMeshChunk> = Vec::new();
    let mut i: usize = 0;
    while i < chunks.len()
        invariant
            i <= chunks.len(),
            ids@.len() == chunks@.len(),
            highlighted == request.highlighted(),
            shown@.len() == i,
            forall|j: int|
                0 <= j < i ==> stands_for(
                    #[trigger] shown@[j],
                    chunks@[j],
                    ids@[j],
                    *request,
                    *palette,
                ),
        decreases chunks.len() - i,
    {
        let uses_default_material: bool = chunks[i].material == DEFAULT_MATERIAL;
        let material: u64 = if !uses_default_material {
            chunks[i].material
        } else if highlighted {
            palette.default_selected_material
        } else {
            palette.default_material
        };
        shown.push(
            BrushMeshChunk {
                entity: ids[i],
                brush_entity: request.entity,
                face_of_tri: copy_list(&chunks[i].face_of_tri),
                uses_default_material,
                material,
            },
        );
        i = i + 1;
    }
    let (base, enabled) = geometry_to_evaluate(brush, request, from_planes);
    let ghost base_view = base@;
    let ghost given = evaluated;
    let cache: BrushMeshCache = match evaluated {
        Some(e) => {
            let face_normals: Vec<Vector3> = if e.face_source.len() == 0 {
                normals_of(&brush.faces)
            } else {
                normals_of(&e.faces)
            };
            BrushMeshCache {
                vertices: e.geometry.vertices,
                face_polygons: e.geometry.polygons,
                face_normals,
                chunk_entities: copy_list(ids),
                face_source: e.face_source,
                vert_source: e.vert_source,
                base_vertices: base.vertices,
                base_face_polygons: base.polygons,
            }
        },
        None => BrushMeshCache {
            vertices: copy_list(&base.vertices),
            face_polygons: copy_rings(&base.polygons),
            face_normals: normals_of(&brush.faces),
            chunk_entities: copy_list(ids),
            face_source: Vec::new(),
            vert_source: Vec::new(),
            base_vertices: base.vertices,
            base_face_polygons: base.polygons,
        },
    };
    assert(cache@ =~= cached(brush@, base_view, given, ids@));
    proof {
        law_edited_mesh_is_shown(brush@, *request, from_planes@, given, ids@);
    }
    RebuiltMesh { despawned, chunks: shown, cache }
}

/// A brush that is being edited is shown by the mesh that is edited, whatever topology it stores: that
/// is the geometry before modifiers, and, when no modifier is enabled, what is shown. Otherwise the
/// topology that it stores is, and for a brush without any what its planes enclose.
pub proof fn law_edited_mesh_is_shown(
    brush: BrushView,
    request: MeshRequest,
    from_planes: GeometryView,
    evaluated: Option<Evaluated>,
    ids: Seq<Entity>,
)
    ensures
        ({
            let base = base_of(brush, request, from_planes);
            let shown = cached(brush, base, evaluated, ids);
            &&& request.live matches Some(live) ==> shown.base.vertices == live.vertices@
                && shown.base.polygons == rings_view(live.polygons@)
            &&& request.live is None && brush.polygons.len() > 0 ==> shown.base.vertices
                == brush.vertices && shown.base.polygons == brush.polygons
            &&& request.live is None && brush.polygons.len() == 0 ==> shown.base == from_planes
            &&& evaluated is None ==> shown.shown.vertices == shown.base.vertices
                && shown.shown.polygons == shown.base.polygons && shown.face_source.len() == 0
                && shown.vert_source.len() == 0
            &&& evaluated matches Some(e) ==> shown.shown.vertices == e.geometry.vertices@
                && shown.shown.polygons == rings_view(e.geometry.polygons@) && shown.face_source
                == e.face_source@ && shown.vert_source == e.vert_source@
            &&& shown.chunk_entities == ids
        }),
{
}

/// The modifiers that are evaluated are those that are enabled, in their order: none when none is
/// enabled, all when all are, and switching one off takes it alone out.
pub proof fn law_enabled_modifiers_are_evaluated(
    before: Seq<ModifierEntry>,
    m: ModifierEntry,
    after: Seq<ModifierEntry>,
)
    ensures
        enabled_of(before + after) == enabled_of(before) + enabled_of(after),
        m.enabled ==> enabled_of(seq![m]) == seq![m.modifier],
        !m.enabled ==> enabled_of(seq![m]).len() == 0,
        enabled_of(Seq::empty()).len() == 0,
    decreases after.len(),
{
    assert(seq![m].drop_last() =~= Seq::empty());
    assert(seq![m].last() == m);
    assert(enabled_of(Seq::empty()) =~= Seq::<u64>::empty());
    if m.enabled {
        assert(enabled_of(seq![m]) =~= seq![m.modifier]);
    }
    if after.len() == 0 {
        assert(before + after =~= before);
        assert(enabled_of(before) + enabled_of(after) =~= enabled_of(before));
    } else {
        law_enabled_modifiers_are_evaluated(before, m, after.drop_last());
        assert((before + after).drop_last() =~= before + after.drop_last());
        assert((before + after).last() == after.last());
        let rest = enabled_of(after.drop_last());
        if after.last().enabled {
            assert((enabled_of(before) + rest).push(after.last().modifier) =~= enabled_of(before)
                + rest.push(after.last().modifier));
        }
    }
}

/// Every face that a rebuilt mesh traces back is one of the geometry before modifiers.
pub proof fn law_cached_faces_are_authored(
    brush: BrushView,
    base: GeometryView,
    evaluated: Option<Evaluated>,
    ids: Seq<Entity>,
)
    requires
        evaluated matches Some(e) ==> sources_valid(e, base),
    ensures
        all_below(
            cached(brush, base, evaluated, ids).face_source,
            cached(brush, base, evaluated, ids).base.polygons.len(),
        ),
        begins_with_itself(cached(brush, base, evaluated, ids).vert_source),
{
}

/// A chunk with the material that it shows now.
#[derive(Clone, Copy, Debug, PartialEq, Eq, Structural)]
pub struct ShownChunk {
    pub entity: Entity,
    pub uses_default_material: bool,
    /// The material that it was built with.
    pub material: u64,
    pub shown: u64,
}

/// A brush with the chunks of its mesh.
#[derive(Debug)]
pub struct ShownBrush {
    pub chunk_entities: Vec<Entity>,
    pub preview: bool,
    pub selected: bool,
    pub parent_selected: bool,
}

impl ShownBrush {
    pub open spec fn highlighted(self) -> bool {
        self.selected || self.parent_selected || self.preview
    }
}

/// The material that a chunk is to show. The x-ray view goes before all else; then a material of its
/// own, and then the palette.
pub open spec fn target_material(
    chunk: ShownChunk,
    highlighted: bool,
    palette: BrushMaterialPalette,
    x_ray: bool,
) -> u64 {
    if x_ray {
        if highlighted {
            palette.x_ray_selected_material
        } else {
            palette.x_ray_material
        }
    } else if !chunk.uses_default_material {
        chunk.material
    } else if highlighted {
        palette.default_selected_material
    } else {
        palette.default_material
    }
}

/// The material that a chunk shows after every brush was gone through.
pub open spec fn shown_after(
    chunk: ShownChunk,
    brushes: Seq<ShownBrush>,
    palette: BrushMaterialPalette,
    x_ray: bool,
) -> u64
    decreases brushes.len(),
{
    if brushes.len() == 0 {
        chunk.shown
    } else if brushes.last().chunk_entities@.contains(chunk.entity) {
        target_material(chunk, brushes.last().highlighted(), palette, x_ray)
    } else {
        shown_after(chunk, brushes.drop_last(), palette, x_ray)
    }
}

/// Gives each chunk of each brush the material that it is to show.
pub fn ensure_brush_chunk_materials(
    palette: &BrushMaterialPalette,
    x_ray: bool,
    brushes: &Vec<ShownBrush>,
    chunks: &mut Vec<ShownChunk>,
)
    ensures
        final(chunks)@ == Seq::new(
            old(chunks)@.len(),
            |i: int|
                ShownChunk {
                    shown: shown_after(old(chunks)@[i], brushes@, *palette, x_ray),
                    ..old(chunks)@[i]
                },
        ),
{
    let ghost start = chunks@;
    let n: usize = chunks.len();
    let mut i: usize = 0;
    while i < n
        invariant
            i <= n,
            n == start.len(),
            chunks@.len() == n,
            start == old(chunks)@,
            forall|j: int|
                0 <= j < n ==> (#[trigger] chunks@[j]) == (if j < i {
                    ShownChunk {
                        shown: shown_after(start[j], brushes@, *palette, x_ray),
                        ..start[j]
                    }
                } else {
                    start[j]
                }),
        decreases n - i,
    {
        let chunk: ShownChunk = chunks[i];
        let mut shown: u64 = chunk.shown;
        let mut k: usize = 0;
        assert(brushes@.subrange(0, 0) =~= Seq::empty());
        while k < brushes.len()
            invariant
                k <= brushes.len(),
                shown == shown_after(chunk, brushes@.subrange(0, k as int), *palette, x_ray),
            decreases brushes.len() - k,
        {
            proof {
                assert(brushes@.subrange(0, k + 1).drop_last() =~= brushes@.subrange(0, k as int));
                assert(brushes@.subrange(0, k + 1).last() == brushes@[k as int]);
            }
            let b: &ShownBrush = &brushes[k];
            if contains(&b.chunk_entities, chunk.entity) {
                let highlighted: bool = b.selected || b.parent_selected || b.preview;
                shown = if x_ray {
                    if highlighted {
                        palette.x_ray_selected_material
                    } else {
                        palette.x_ray_material
                    }
                } else if !chunk.uses_default_material {
                    chunk.material
                } else if highlighted {
                    palette.default_selected_material
                } else {
                    palette.default_material
                };
            }
            k = k + 1;
        }
        assert(brushes@.subrange(0, k as int) =~= brushes@);
        if chunk.shown != shown {
            chunks.set(i, ShownChunk { shown, ..chunk });
        }
        i = i + 1;
    }
    assert(chunks@ =~= Seq::new(
        start.len(),
        |i: int|
            ShownChunk { shown: shown_after(start[i], brushes@, *palette, x_ray), ..start[i] },
    ));
}

/// A chunk of a brush shows the x-ray material in the x-ray view, otherwise its own material if it has
/// one, and otherwise the default. Of the x-ray and of the default materials it shows the one for
/// selected brushes when its brush is selected, is previewed, or has a selected parent. A chunk of
/// no brush keeps what it shows.
pub proof fn law_material_of_a_chunk(
    chunk: ShownChunk,
    brushes: Seq<ShownBrush>,
    palette: BrushMaterialPalette,
    x_ray: bool,
    k: int,
)
    requires
        0 <= k < brushes.len(),
        brushes[k].chunk_entities@.contains(chunk.entity),
        forall|j: int|
            k < j < brushes.len() ==> !(#[trigger] brushes[j]).chunk_entities@.contains(
                chunk.entity,
            ),
    ensures
        ({
            let shown = shown_after(chunk, brushes, palette, x_ray);
            let lit = brushes[k].selected || brushes[k].parent_selected || brushes[k].preview;
            &&& x_ray && lit ==> shown == palette.x_ray_selected_material
            &&& x_ray && !lit ==> shown == palette.x_ray_material
            &&& !x_ray && !chunk.uses_default_material ==> shown == chunk.material
            &&& !x_ray && chunk.uses_default_material && lit ==> shown
                == palette.default_selected_material
            &&& !x_ray && chunk.uses_default_material && !lit ==> shown == palette.default_material
        }),
    decreases brushes.len(),
{
    let init = brushes.drop_last();
    let last = brushes.len() - 1;
    assert(brushes[last] == brushes.last());
    if k < last {
        assert(init[k] == brushes[k]);
        assert forall|j: int| k < j < init.len() implies !(
        #[trigger] init[j]).chunk_entities@.contains(chunk.entity) by {
            assert(init[j] == brushes[j]);
        }
        law_material_of_a_chunk(chunk, init, palette, x_ray, k);
    }
}

/// A chunk that no brush has keeps what it shows.
pub proof fn law_other_chunks_keep_their_material(
    chunk: ShownChunk,
    brushes: Seq<ShownBrush>,
    palette: BrushMaterialPalette,
    x_ray: bool,
)
    requires
        forall|j: int|
            0 <= j < brushes.len() ==> !(#[trigger] brushes[j]).chunk_entities@.contains(
                chunk.entity,
            ),
    ensures
        shown_after(chunk, brushes, palette, x_ray) == chunk.shown,
    decreases brushes.len(),
{
    if brushes.len() > 0 {
        let init = brushes.drop_last();
        assert(brushes[brushes.len() - 1] == brushes.last());
        assert forall|j: int| 0 <= j < init.len() implies !(
        #[trigger] init[j]).chunk_entities@.contains(chunk.entity) by {
            assert(init[j] == brushes[j]);
        }
        law_other_chunks_keep_their_material(chunk, init, palette, x_ray);
    }
}

/// A chunk is built with its own material, and without one with the default, that for selected brushes
/// when the brush is selected, is previewed, or has a selected parent.
pub proof fn law_material_of_a_built_chunk(
    c: BrushMeshChunk,
    chunk: BrushChunk,
    id: Entity,
    request: MeshRequest,
    palette: BrushMaterialPalette,
)
    requires
        stands_for(c, chunk, id, request, palette),
    ensures
        c.entity == id,
        c.brush_entity == request.entity,
        c.face_of_tri@ == chunk.face_of_tri@,
        chunk.material != DEFAULT_MATERIAL ==> c.material == chunk.material
            && !c.uses_default_material,
        chunk.material == DEFAULT_MATERIAL ==> c.uses_default_material && c.material == (if request.selected
            || request.parent_selected || request.preview {
            palette.default_selected_material
        } else {
            palette.default_material
        }),
{
}

/// The children that a rebuild despawns are exactly those that show a mesh.
pub proof fn law_mesh_children_are_despawned(children: Seq<(Entity, bool)>, e: Entity)
    ensures
        mesh_children(children).contains(e) <==> children.contains((e, true)),
    decreases children.len(),
{
    if children.len() > 0 {
        let init = children.drop_last();
        let last = children.last();
        let before = mesh_children(init);
        let after = mesh_children(children);
        law_mesh_children_are_despawned(init, e);
        assert(children[children.len() - 1] == last);
        if init.contains((e, true)) {
            let i = choose|i: int| 0 <= i < init.len() && init[i] == (e, true);
            assert(children[i] == (e, true));
        }
        if children.contains((e, true)) && last != (e, true) {
            let i = choose|i: int| 0 <= i < children.len() && children[i] == (e, true);
            assert(init[i] == (e, true));
        }
        if last.1 {
            assert(after[before.len() as int] == last.0);
            if before.contains(e) {
                let i = choose|i: int| 0 <= i < before.len() && before[i] == e;
                assert(after[i] == e);
            }
            if after.contains(e) && e != last.0 {
                let i = choose|i: int| 0 <= i < after.len() && after[i] == e;
                assert(before[i] == e);
            }
        }
    }
}

/// The normals of a rebuilt mesh are those of its faces: of the faces that the modifiers made, when
/// these say where they come from, and otherwise of the brush's own.
pub proof fn law_cached_normals(
    brush: BrushView,
    base: GeometryView,
    evaluated: Option<Evaluated>,
    ids: Seq<Entity>,
    i: int,
)
    ensures
        ({
            let normals = cached(brush, base, evaluated, ids).face_normals;
            let made = evaluated matches Some(e) && e.face_source@.len() > 0;
            &&& !made ==> normals.len() == brush.faces.len()
            &&& !made && 0 <= i < brush.faces.len() ==> normals[i] == brush.faces[i].plane.normal
            &&& made ==> normals.len() == evaluated->0.faces@.len()
            &&& made && 0 <= i < evaluated->0.faces@.len() ==> normals[i]
                == evaluated->0.faces@[i].plane.normal
        }),
{
}

/// A chunk that was just built shows what it is to show, outside the x-ray view.
pub proof fn law_built_chunks_are_settled(
    c: BrushMeshChunk,
    chunk: BrushChunk,
    request: MeshRequest,
    palette: BrushMaterialPalette,
)
    requires
        stands_for(c, chunk, c.entity, request, palette),
    ensures
        target_material(
            ShownChunk {
                entity: c.entity,
                uses_default_material: c.uses_default_material,
                material: c.material,
                shown: c.material,
            },
            request.highlighted(),
            palette,
            false,
        ) == c.material,
{
}

/// Going through the brushes again changes nothing.
pub proof fn law_materials_settle(
    chunk: ShownChunk,
    brushes: Seq<ShownBrush>,
    palette: BrushMaterialPalette,
    x_ray: bool,
)
    ensures
        ({
            let shown = shown_after(chunk, brushes, palette, x_ray);
            shown_after(ShownChunk { shown, ..chunk }, brushes, palette, x_ray) == shown
        }),
    decreases brushes.len(),
{
    lemma_shown_after_either(chunk, brushes, palette, x_ray);
    let shown = shown_after(chunk, brushes, palette, x_ray);
    lemma_shown_after_either(ShownChunk { shown, ..chunk }, brushes, palette, x_ray);
    if brushes.len() > 0 && !brushes.last().chunk_entities@.contains(chunk.entity) {
        law_materials_settle(chunk, brushes.drop_last(), palette, x_ray);
    }
}

proof fn lemma_shown_after_either(
    chunk: ShownChunk,
    brushes: Seq<ShownBrush>,
    palette: BrushMaterialPalette,
    x_ray: bool,
)
    ensures
        ({
            let shown = shown_after(chunk, brushes, palette, x_ray);
            ||| shown == chunk.shown
            ||| shown == target_material(chunk, true, palette, x_ray)
            ||| shown == target_material(chunk, false, palette, x_ray)
        }),
    decreases brushes.len(),
{
    if brushes.len() > 0 {
        lemma_shown_after_either(chunk, brushes.drop_last(), palette, x_ray);
    }
}

/// Leaving the x-ray view brings back the material that every chunk of a brush showed.
pub proof fn law_x_ray_is_undone(
    chunk: ShownChunk,
    brushes: Seq<ShownBrush>,
    palette: BrushMaterialPalette,
)
    requires
        chunk.shown == shown_after(chunk, brushes, palette, false),
    ensures
        ({
            let seen = ShownChunk {
                shown: shown_after(chunk, brushes, palette, true),
                ..chunk
            };
            shown_after(seen, brushes, palette, false) == chunk.shown
        }),
    decreases brushes.len(),
{
    lemma_x_ray(chunk, chunk, brushes, palette);
}

proof fn lemma_x_ray(
    chunk: ShownChunk,
    other: ShownChunk,
    brushes: Seq<ShownBrush>,
    palette: BrushMaterialPalette,
)
    requires
        other == (ShownChunk { shown: other.shown, ..chunk }),
    ensures
        ({
            let seen = ShownChunk {
                shown: shown_after(other, brushes, palette, true),
                ..other
            };
            shown_after(seen, brushes, palette, false) == (if exists|k: int|
                0 <= k < brushes.len() && (#[trigger] brushes[k]).chunk_entities@.contains(
                    chunk.entity,
                ) {
                shown_after(chunk, brushes, palette, false)
            } else {
                other.shown
            })
        }),
    decreases brushes.len(),
{
    if brushes.len() > 0 {
        let rest = brushes.drop_last();
        lemma_x_ray(chunk, other, rest, palette);
        assert(brushes[brushes.len() - 1] == brushes.last());
        if !brushes.last().chunk_entities@.contains(chunk.entity) {
            assert forall|k: int|
                0 <= k < brushes.len() && (#[trigger] brushes[k]).chunk_entities@.contains(
                    chunk.entity,
                ) implies 0 <= k < rest.len() && rest[k].chunk_entities@.contains(chunk.entity) by {
                assert(rest[k] == brushes[k]);
            }
            assert forall|k: int|
                0 <= k < rest.len() && (#[trigger] rest[k]).chunk_entities@.contains(
                    chunk.entity,
                ) implies brushes[k].chunk_entities@.contains(chunk.entity) by {
                assert(rest[k] == brushes[k]);
            }
        }
    }
}

/// The brush that is previewed: the active one while elements are dragged, else the one that a drawn
/// shape is added to.
pub open spec fn preview_target(
    dragging: bool,
    active_brush: Option<Entity>,
    append_target: Option<Entity>,
) -> Option<Entity> {
    if dragging {
        active_brush
    } else {
        append_target
    }
}

/// While elements are dragged the active brush is previewed, whatever shape is drawn; otherwise the
/// brush that a drawn shape is added to.
pub proof fn law_previewed_brush(
    active_brush: Option<Entity>,
    append_target: Option<Entity>,
)
    ensures
        preview_target(true, active_brush, append_target) == active_brush,
        preview_target(false, active_brush, append_target) == append_target,
{
}

/// Which brushes lose the preview mark, and which one gets it.
#[derive(Debug)]
pub struct PreviewChange {
    pub unmark: Vec<Entity>,
    pub mark: Option<Entity>,
}

/// Keeps the preview mark on the brush that is previewed, and on no other. `dragging` tells whether a
/// face, a corner or an edge is dragged, and `marked` lists the brushes that have the mark.
pub fn sync_brush_preview(
    marked: &Vec<Entity>,
    dragging: bool,
    active_brush: Option<Entity>,
    append_target: Option<Entity>,
) -> (r: PreviewChange)
    ensures
        match preview_target(dragging, active_brush, append_target) {
            Some(e) => r.unmark@ == without(marked@, e) && r.mark == (if marked@.contains(e) {
                None
            } else {
                Some(e)
            }),
            None => r.unmark@ == marked@ && r.mark is None,
        },
{
    let target: Option<Entity> = if dragging {
        active_brush
    } else {
        append_target
    };
    match target {
        Some(e) => PreviewChange {
            unmark: filter_one(marked, e),
            mark: if contains(marked, e) {
                None
            } else {
                Some(e)
            },
        },
        None => PreviewChange { unmark: copied(marked), mark: None },
    }
}

/// After the change the brush that is previewed has the mark, and no other.
pub proof fn law_only_the_previewed_is_marked(marked: Seq<Entity>, target: Entity, e: Entity)
    ensures
        ({
            let stays = marked.contains(e) && !without(marked, target).contains(e);
            let comes = !marked.contains(target) && e == target;
            stays || comes <==> e == target
        }),
{
    let p = crate::seqs::not_entity(target);
    crate::seqs::lemma_filter_contains(marked, p, e);
    crate::seqs::lemma_filter_contains(marked, p, target);
}

/// The brushes among entities whose modifiers were taken away.
pub open spec fn brushes_among(
    removed: Seq<Entity>,
    brushes: Map<Entity, BrushView>,
) -> Seq<Entity>
    decreases removed.len(),
{
    if removed.len() == 0 {
        Seq::empty()
    } else {
        let before = brushes_among(removed.drop_last(), brushes);
        if brushes.contains_key(removed.last()) {
            before.push(removed.last())
        } else {
            before
        }
    }
}

/// The brushes to rebuild because their modifiers were taken away: their meshes still show what the
/// modifiers made.
pub fn mark_brushes_changed_on_modifier_removal(removed: &Vec<Entity>, brushes: &Brushes) -> (r: Vec<
    Entity,
>)
    ensures
        r@ == brushes_among(removed@, brushes@),
{
    let mut out: Vec<Entity> = Vec::new();
    let mut i: usize = 0;
    assert(removed@.subrange(0, 0) =~= Seq::empty());
    while i < removed.len()
        invariant
            i <= removed.len(),
            out@ == brushes_among(removed@.subrange(0, i as int), brushes@),
        decreases removed.len() - i,
    {
        proof {
            assert(removed@.subrange(0, i + 1).drop_last() =~= removed@.subrange(0, i as int));
            assert(removed@.subrange(0, i + 1).last() == removed@[i as int]);
        }
        if brushes.contains(removed[i]) {
            out.push(removed[i]);
        }
        i = i + 1;
    }
    assert(removed@.subrange(0, i as int) =~= removed@);
    out
}

/// A brush is rebuilt for its lost modifiers exactly when it is one of those that lost them and is a
/// brush still.
pub proof fn law_brushes_without_modifiers(
    removed: Seq<Entity>,
    brushes: Map<Entity, BrushView>,
    e: Entity,
)
    ensures
        brushes_among(removed, brushes).contains(e) <==> removed.contains(e)
            && brushes.contains_key(e),
    decreases removed.len(),
{
    if removed.len() > 0 {
        let init = removed.drop_last();
        let last = removed.last();
        let before = brushes_among(init, brushes);
        let after = brushes_among(removed, brushes);
        law_brushes_without_modifiers(init, brushes, e);
        assert(removed[removed.len() - 1] == last);
        if init.contains(e) {
            let i = choose|i: int| 0 <= i < init.len() && init[i] == e;
            assert(removed[i] == e);
        }
        if removed.contains(e) && last != e {
            let i = choose|i: int| 0 <= i < removed.len() && removed[i] == e;
            assert(init[i] == e);
        }
        if brushes.contains_key(last) {
            assert(after[before.len() as int] == last);
            if before.contains(e) {
                let i = choose|i: int| 0 <= i < before.len() && before[i] == e;
                assert(after[i] == e);
            }
            if after.contains(e) && e != last {
                let i = choose|i: int| 0 <= i < after.len() && after[i] == e;
                assert(before[i] == e);
            }
        }
    }
}

/// A brush with its corners moved so that their middle is the origin, and with the transform that
/// keeps it in place.
#[derive(Debug)]
pub struct Recentered {
    pub brush: Brush,
    pub transform: BsnStructData,
}

/// A brush that may have drifted from its origin. There is nothing to recenter for one without
/// corners, or whose middle is close enough to the origin.
#[derive(Debug)]
pub struct RecenterCandidate {
    pub entity: Entity,
    pub has_modifiers: bool,
    pub recentered: Option<Recentered>,
}

impl RecenterCandidate {
    /// Whether the brush is recentered. A modifier is anchored to the origin, which then stays.
    pub open spec fn moves(self) -> bool {
        !self.has_modifiers && self.recentered is Some
    }
}

/// The brushes and the scene after drifted brushes were recentered.
pub open spec fn all_recentered(
    brushes: Map<Entity, BrushView>,
    w: WorldView,
    candidates: Seq<RecenterCandidate>,
) -> (Map<Entity, BrushView>, WorldView)
    decreases candidates.len(),
{
    if candidates.len() == 0 {
        (brushes, w)
    } else {
        let before = all_recentered(brushes, w, candidates.drop_last());
        let c = candidates.last();
        if c.moves() {
            let to = c.recentered->0;
            (
                before.0.insert(c.entity, to.brush@),
                transformed(
                    synced(before.1, c.entity, brush_component(to.brush@)),
                    c.entity,
                    to.transform@,
                ),
            )
        } else {
            before
        }
    }
}

/// Keeps each brush where its corners are: moves the corners back around the origin and the brush by
/// as much, in the scene and in the document. Nothing moves while a drag is active.
pub fn recenter_brush_origins(
    brushes: &mut Brushes,
    world: &mut SceneWorld,
    dragging: bool,
    candidates: &Vec<RecenterCandidate>,
)
    ensures
        (final(brushes)@, final(world)@) == (if dragging {
            (old(brushes)@, old(world)@)
        } else {
            all_recentered(old(brushes)@, old(world)@, candidates@)
        }),
{
    if dragging {
        return ;
    }
    let ghost b = brushes@;
    let ghost w = world@;
    let mut i: usize = 0;
    assert(candidates@.subrange(0, 0) =~= Seq::empty());
    while i < candidates.len()
        invariant
            i <= candidates.len(),
            (brushes@, world@) == all_recentered(b, w, candidates@.subrange(0, i as int)),
        decreases candidates.len() - i,
    {
        proof {
            assert(candidates@.subrange(0, i + 1).drop_last() =~= candidates@.subrange(
                0,
                i as int,
            ));
            assert(candidates@.subrange(0, i + 1).last() == candidates@[i as int]);
        }
        let c: &RecenterCandidate = &candidates[i];
        if !c.has_modifiers {
            if let Some(to) = &c.recentered {
                brushes.set(c.entity, to.brush.copy());
                sync_component_to_ast(world, c.entity, &to.brush.component());
                write_transform(world, c.entity, &to.transform);
            }
        }
        i = i + 1;
    }
    assert(candidates@.subrange(0, i as int) =~= candidates@);
}

/// A brush that drifted and has no modifier ends with the corners around its origin and with the
/// transform that keeps it in place. One with modifiers, and one that there is nothing to recenter
/// for, stays with all else.
pub proof fn law_recentered_brushes(
    brushes: Map<Entity, BrushView>,
    w: WorldView,
    candidates: Seq<RecenterCandidate>,
    e: Entity,
)
    ensures
        ({
            let after = all_recentered(brushes, w, candidates);
            let path = "bevy_transform::components::transform::Transform"@;
            &&& (forall|i: int|
                0 <= i < candidates.len() && (#[trigger] candidates[i]).entity == e
                    ==> candidates[i].has_modifiers || candidates[i].recentered is None)
                ==> after.0.contains_key(e) == brushes.contains_key(e) && after.0[e] == brushes[e]
                && after.1.entities[e] == w.entities[e]
            &&& forall|i: int|
                0 <= i < candidates.len() && (#[trigger] candidates[i]).entity == e
                    && !candidates[i].has_modifiers && candidates[i].recentered is Some && (forall|
                    j: int,
                |
                    i < j < candidates.len() ==> (#[trigger] candidates[j]).entity != e) ==> {
                    &&& after.0.contains_key(e)
                    &&& after.0[e] == candidates[i].recentered->0.brush@
                    &&& w.held_component(e, path) is Some
                        && candidates[i].recentered->0.transform@.type_path == path && (forall|
                        j: int,
                    |
                        0 <= j < candidates.len() && (#[trigger] candidates[j]).recentered is Some
                            ==> candidates[j].recentered->0.transform@.type_path == path)
                        ==> after.1.held_component(e, path) == Some(
                        candidates[i].recentered->0.transform@,
                    )
                }
            &&& (forall|
                j: int,
            |
                0 <= j < candidates.len() && (#[trigger] candidates[j]).recentered is Some
                    ==> candidates[j].recentered->0.transform@.type_path == path)
                ==> after.1.held_component(e, path) is Some == w.held_component(e, path) is Some
            &&& after.1.selection == w.selection
        }),
    decreases candidates.len(),
{
    let path = "bevy_transform::components::transform::Transform"@;
    if candidates.len() > 0 {
        let init = candidates.drop_last();
        law_recentered_brushes(brushes, w, init, e);
        let last = candidates.last();
        assert(candidates[candidates.len() - 1] == last);
        let before = all_recentered(brushes, w, init);
        let after = all_recentered(brushes, w, candidates);
        assert forall|j: int| 0 <= j < init.len() implies #[trigger] init[j] == candidates[j] by {}
        if last.moves() {
            let to = last.recentered->0;
            let mid = synced(before.1, last.entity, brush_component(to.brush@));
            assert(mid.entities == before.1.entities);
            if mid.held_component(last.entity, to.transform@.type_path) is Some {
                law_transform_is_read_back(mid, last.entity, to.transform@, path);
            }
        }
        if forall|j: int|
            0 <= j < candidates.len() && (#[trigger] candidates[j]).recentered is Some
                ==> candidates[j].recentered->0.transform@.type_path == path {
            assert forall|j: int|
                0 <= j < init.len() && (#[trigger] init[j]).recentered is Some implies
                init[j].recentered->0.transform@.type_path == path by {
                assert(init[j] == candidates[j]);
            }
        }
        if forall|i: int|
            0 <= i < candidates.len() && (#[trigger] candidates[i]).entity == e
                ==> candidates[i].has_modifiers || candidates[i].recentered is None {
            assert forall|i: int|
                0 <= i < init.len() && (#[trigger] init[i]).entity == e implies
                init[i].has_modifiers || init[i].recentered is None by {
                assert(init[i] == candidates[i]);
            }
        }
        assert forall|i: int|
            0 <= i < candidates.len() - 1 && (forall|j: int|
                i < j < candidates.len() ==> (#[trigger] candidates[j]).entity
                    != e) implies #[trigger] candidates[i] == init[i] && (forall|j: int|
            i < j < init.len() ==> (#[trigger] init[j]).entity != e) && last.entity != e by {}
    }
}

/// A colour, by the bits of its parts.
#[derive(Clone, Copy, Debug, PartialEq, Eq, Structural)]
pub struct ColorBits {
    pub red: u32,
    pub green: u32,
    pub blue: u32,
    pub alpha: u32,
}

/// The bits of one, of three quarters and of two.
pub const ONE_BITS: u32 = 0x3f80_0000;

pub const THREE_QUARTERS_BITS: u32 = 0x3f40_0000;

pub const TWO_BITS: u32 = 0x4000_0000;

/// How a material is shown.
#[derive(Clone, Copy, Debug, PartialEq, Eq, Structural)]
pub struct MaterialLook {
    pub base_color: ColorBits,
    /// The grid is drawn on it, that often along each side.
    pub grid_tiles: Option<u32>,
    pub blended: bool,
    pub unlit: bool,
    /// Both sides are drawn.
    pub double_sided: bool,
}

/// The colours of faces without a material.
#[derive(Clone, Copy, Debug, PartialEq, Eq, Structural)]
pub struct DefaultColors {
    pub default: ColorBits,
    pub selected: ColorBits,
    pub x_ray: ColorBits,
    pub x_ray_selected: ColorBits,
}

/// The materials to make for the palette.
#[derive(Debug)]
pub struct DefaultMaterials {
    pub materials: Vec<MaterialLook>,
    pub preview_materials: Vec<MaterialLook>,
    pub default_material: MaterialLook,
    pub default_selected_material: MaterialLook,
    pub x_ray_material: MaterialLook,
    pub x_ray_selected_material: MaterialLook,
}

/// A plain colour, opaque.
pub open spec fn opaque_look(color: ColorBits) -> MaterialLook {
    MaterialLook {
        base_color: ColorBits { alpha: ONE_BITS, ..color },
        grid_tiles: None,
        blended: false,
        unlit: false,
        double_sided: false,
    }
}

/// A plain colour, through which what is behind can be seen.
pub open spec fn preview_look(color: ColorBits) -> MaterialLook {
    MaterialLook {
        base_color: ColorBits { alpha: THREE_QUARTERS_BITS, ..color },
        grid_tiles: None,
        blended: true,
        unlit: false,
        double_sided: false,
    }
}

pub open spec fn grid_look(color: ColorBits) -> MaterialLook {
    MaterialLook {
        base_color: color,
        grid_tiles: Some(TWO_BITS),
        blended: true,
        unlit: false,
        double_sided: false,
    }
}

pub open spec fn x_ray_look(color: ColorBits) -> MaterialLook {
    MaterialLook {
        base_color: color,
        grid_tiles: None,
        blended: true,
        unlit: true,
        double_sided: true,
    }
}

/// The palette's materials are opaque, and those for previews let a quarter through. The default
/// materials carry the grid, twice along each side. Those of the x-ray view are drawn without light and
/// from both sides. All keep the red, green and blue that they are made from, and all but those of the
/// palette keep how much of them is seen through.
pub proof fn law_looks(color: ColorBits)
    ensures
        opaque_look(color).base_color.alpha == 0x3f80_0000,
        !opaque_look(color).blended,
        preview_look(color).base_color.alpha == 0x3f40_0000,
        preview_look(color).blended,
        opaque_look(color).base_color.red == color.red,
        opaque_look(color).base_color.green == color.green,
        opaque_look(color).base_color.blue == color.blue,
        preview_look(color).base_color.red == color.red,
        preview_look(color).base_color.green == color.green,
        preview_look(color).base_color.blue == color.blue,
        opaque_look(color).grid_tiles is None,
        preview_look(color).grid_tiles is None,
        grid_look(color).grid_tiles == Some(0x4000_0000u32),
        grid_look(color).base_color == color,
        grid_look(color).blended,
        !grid_look(color).unlit && !grid_look(color).double_sided,
        !opaque_look(color).unlit && !opaque_look(color).double_sided,
        !preview_look(color).unlit && !preview_look(color).double_sided,
        x_ray_look(color).base_color == color,
        x_ray_look(color).blended,
        x_ray_look(color).unlit && x_ray_look(color).double_sided,
        x_ray_look(color).grid_tiles is None,
{
}

fn grid_material(color: ColorBits) -> (r: MaterialLook)
    ensures
        r == grid_look(color),
{
    MaterialLook {
        base_color: color,
        grid_tiles: Some(TWO_BITS),
        blended: true,
        unlit: false,
        double_sided: false,
    }
}

fn x_ray_material(color: ColorBits) -> (r: MaterialLook)
    ensures
        r == x_ray_look(color),
{
    MaterialLook {
        base_color: color,
        grid_tiles: None,
        blended: true,
        unlit: true,
        double_sided: true,
    }
}

/// The materials of the palette: for each colour an opaque one and one for previews, the grid for
/// faces without a material, and those of the x-ray view.
pub fn setup_default_materials(palette: &Vec<ColorBits>, colors: &DefaultColors) -> (r:
    DefaultMaterials)
    ensures
        r.materials@ == Seq::new(palette@.len(), |i: int| opaque_look(palette@[i])),
        r.preview_materials@ == Seq::new(palette@.len(), |i: int| preview_look(palette@[i])),
        r.default_material == grid_look(colors.default),
        r.default_selected_material == grid_look(colors.selected),
        r.x_ray_material == x_ray_look(colors.x_ray),
        r.x_ray_selected_material == x_ray_look(colors.x_ray_selected),
{
    let mut materials: Vec<MaterialLook> = Vec::new();
    let mut preview_materials: Vec<MaterialLook> = Vec::new();
    let mut i: usize = 0;
    while i < palette.len()
        invariant
            i <= palette.len(),
            materials@.len() == i,
            preview_materials@.len() == i,
            forall|j: int| 0 <= j < i ==> #[trigger] materials@[j] == opaque_look(palette@[j]),
            forall|j: int|
                0 <= j < i ==> #[trigger] preview_materials@[j] == preview_look(palette@[j]),
        decreases palette.len() - i,
    {
        let color: ColorBits = palette[i];
        materials.push(
            MaterialLook {
                base_color: ColorBits { alpha: ONE_BITS, ..color },
                grid_tiles: None,
                blended: false,
                unlit: false,
                double_sided: false,
            },
        );
        preview_materials.push(
            MaterialLook {
                base_color: ColorBits { alpha: THREE_QUARTERS_BITS, ..color },
                grid_tiles: None,
                blended: true,
                unlit: false,
                double_sided: false,
            },
        );
        i = i + 1;
    }
    assert(materials@ =~= Seq::new(palette@.len(), |i: int| opaque_look(palette@[i])));
    assert(preview_materials@ =~= Seq::new(palette@.len(), |i: int| preview_look(palette@[i])));
    DefaultMaterials {
        materials,
        preview_materials,
        default_material: grid_material(colors.default),
        default_selected_material: grid_material(colors.selected),
        x_ray_material: x_ray_material(colors.x_ray),
        x_ray_selected_material: x_ray_material(colors.x_ray_selected),
    }
}

} // verus!
