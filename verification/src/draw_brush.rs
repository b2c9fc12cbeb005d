//! Brushes that are drawn, and the undoable steps that put brushes into the scene and change them.
use vstd::prelude::*;
use crate::brush::{
    apply_last_material, brush_component, brush_of, copy_list, repainted, Brush, BrushView, Brushes,
    Vector3,
};
use crate::clipboard::{carrier, find_carrier};
use crate::component_commands::{sync_component_to_ast, synced};
use crate::entity_ops::{inherited_visibility, visible_by_parent};
use crate::lifecycle::{deselect_entities, deselected, despawn_scene_entity, despawned};
use crate::registration::{
    enrolled, is_tidy, law_enrolling_is_undone, nodes_added, register_entity_in_ast,
};
use crate::templates::{lemma_with_named, nodes_for, spawn_named_in_document, with_named};
use crate::value::{BsnStructData, Entity, StructView};
use crate::world::{structs_view, EntityRecord, Marks, RecordView, SceneWorld, WorldView};

verus! {

/// How far a drawing has come.
#[derive(Clone, Copy, Debug, PartialEq, Eq, Structural)]
pub enum DrawPhase {
    PlacingFirstCorner,
    DrawingFootprint,
    DrawingRotatedWidth,
    DrawingPolygon,
    ExtrudingDepth,
}

/// What a drawn shape is for.
#[derive(Clone, Copy, Debug, PartialEq, Eq, Structural)]
pub enum DrawMode {
    Add,
    Cut,
}

impl Default for DrawMode {
    fn default() -> (r: DrawMode)
        ensures
            r == DrawMode::Add,
    {
        DrawMode::Add
    }
}

/// The outline of a drawn shape: the corners that were placed, or, without any, those of the
/// rectangle that was drawn.
pub fn active_draw_polygon(placed: &Vec<Vector3>, footprint: &Vec<Vector3>) -> (r: Vec<Vector3>)
    ensures
        r@ == (if placed@.len() > 0 {
            placed@
        } else {
            footprint@
        }),
{
    if placed.len() > 0 {
        copy_list(placed)
    } else {
        copy_list(footprint)
    }
}

/// The fewest corners of an outline.
pub const FEWEST_CORNERS: usize = 3;

/// Whether an outline of so many corners becomes a solid: it has enough of them and was drawn deep
/// enough.
pub fn makes_prism(corners: usize, deep_enough: bool) -> (r: bool)
    ensures
        r == (corners >= 3 && deep_enough),
{
    corners >= FEWEST_CORNERS && deep_enough
}

/// Whether an outline cuts a solid out: it becomes one, and it was drawn into the face. Drawn
/// outward it cuts nothing.
pub fn makes_cutter(corners: usize, deep_enough: bool, inward: bool) -> (r: bool)
    ensures
        r == (corners >= 3 && deep_enough && inward),
{
    inward && makes_prism(corners, deep_enough)
}

/// The marks of a brush.
pub open spec fn brush_marks() -> Marks {
    Marks { brush: true, ..Marks::none_spec() }
}

fn marks_of_brush() -> (r: Marks)
    ensures
        r == brush_marks(),
{
    let marks: Marks = Marks::none();
    Marks { brush: true, ..marks }
}

/// The components of a brush in the scene.
pub open spec fn brush_parts(brush: BrushView, transform: StructView) -> Seq<StructView> {
    seq![brush_component(brush), transform, inherited_visibility()]
}

fn parts_of_brush(brush: &Brush, transform: &BsnStructData) -> (r: Vec<BsnStructData>)
    ensures
        structs_view(r@) == brush_parts(brush@, transform@),
{
    let mut r: Vec<BsnStructData> = Vec::new();
    r.push(brush.component());
    r.push(transform.copy());
    r.push(visible_by_parent());
    assert(structs_view(r@) =~= brush_parts(brush@, transform@));
    r
}

/// A shape that was drawn or extruded, and where it is.
#[derive(Debug)]
pub struct DrawnBrush {
    pub brush: Brush,
    pub transform: BsnStructData,
}

/// Puts a brush that was drawn or extruded into the scene: with the material that was used last, in
/// the document, and selected alone. Without a brush, as for a shape that is too flat, nothing
/// happens. Returns whether the entity was used.
pub fn spawn_drawn_brush(
    world: &mut SceneWorld,
    brushes: &mut Brushes,
    drawn: Option<DrawnBrush>,
    last_material: Option<u64>,
    entity: Entity,
) -> (r: bool)
    requires
        old(world).document.wf(),
        old(world).document.next_node < u64::MAX,
    ensures
        r == (drawn is Some),
        match drawn {
            Some(d) => {
                let brush = repainted(d.brush@, last_material);
                &&& final(brushes)@ == old(brushes)@.insert(entity, brush)
                &&& enrolled(
                    with_named(
                        old(world)@,
                        entity,
                        "Brush"@,
                        brush_marks(),
                        brush_parts(brush, d.transform@),
                    ),
                    final(world)@,
                    entity,
                )
                &&& final(world).document.next_node == old(world).document.next_node + nodes_for(
                    old(world)@.doc,
                    entity,
                )
            },
            None => final(brushes)@ == old(brushes)@ && *final(world) == *old(world),
        },
        final(world).document.wf(),
{
    match drawn {
        Some(d) => {
            let mut brush: Brush = d.brush;
            apply_last_material(&mut brush, last_material);
            let parts: Vec<BsnStructData> = parts_of_brush(&brush, &d.transform);
            spawn_named_in_document(world, entity, "Brush", marks_of_brush(), parts);
            brushes.set(entity, brush);
            true
        },
        None => false,
    }
}

/// The shape that is joined to a brush: the drawn one with the material that was used last. There is
/// none without a target or without a shape.
pub fn shape_to_append(target: Option<Entity>, drawn: Option<Brush>, last_material: Option<u64>) -> (r:
    Option<Brush>)
    ensures
        brush_of(r) == (match (target, drawn) {
            (Some(_), Some(b)) => Some(repainted(b@, last_material)),
            _ => None,
        }),
{
    match (target, drawn) {
        (Some(_), Some(b)) => {
            let mut brush: Brush = b;
            apply_last_material(&mut brush, last_material);
            Some(brush)
        },
        _ => None,
    }
}

/// What the union of a brush and a drawn shape came to: its size in the world, and the brush around
/// the target's origin.
#[derive(Debug)]
pub struct UnionedBrush {
    pub vertices: usize,
    pub faces: usize,
    pub brush: Brush,
}

/// The fewest corners and faces of a solid.
pub const SOLID_MINIMUM: usize = 4;

/// Whether a union is a solid.
pub open spec fn is_solid(u: UnionedBrush) -> bool {
    u.vertices >= SOLID_MINIMUM && u.faces >= SOLID_MINIMUM
}

/// Joins a drawn shape to a brush, in the scene and in the document. A target that is no brush, or a
/// union that failed or is no solid, changes nothing.
pub fn append_to_brush(
    world: &mut SceneWorld,
    brushes: &mut Brushes,
    target: Entity,
    unioned: Option<UnionedBrush>,
)
    ensures
        (final(world)@, final(brushes)@) == (match unioned {
            Some(u) => if old(brushes)@.contains_key(target) && is_solid(u) {
                (
                    synced(old(world)@, target, brush_component(u.brush@)),
                    old(brushes)@.insert(target, u.brush@),
                )
            } else {
                (old(world)@, old(brushes)@)
            },
            None => (old(world)@, old(brushes)@),
        }),
{
    if let Some(u) = unioned {
        if brushes.contains(target) && u.vertices >= SOLID_MINIMUM && u.faces >= SOLID_MINIMUM {
            sync_component_to_ast(world, target, &u.brush.component());
            brushes.set(target, u.brush);
        }
    }
}

/// The id of an entity among those that carry one.
pub open spec fn id_of(known: Seq<(u64, Entity)>, e: Entity) -> Option<u64>
    decreases known.len(),
{
    if known.len() == 0 {
        None
    } else if known.last().1 == e {
        Some(known.last().0)
    } else {
        id_of(known.drop_last(), e)
    }
}

/// The id of an entity, which is the fresh one when it carries none yet.
pub open spec fn id_or_fresh(known: Seq<(u64, Entity)>, e: Entity, fresh: u64) -> u64 {
    match id_of(known, e) {
        Some(id) => id,
        None => fresh,
    }
}

/// The ids once an entity has one.
pub open spec fn with_id(known: Seq<(u64, Entity)>, e: Entity, fresh: u64) -> Seq<(u64, Entity)> {
    if id_of(known, e) is Some {
        known
    } else {
        known.push((fresh, e))
    }
}

/// The id of an entity. One that carries none gets the fresh one.
pub fn scene_node_id_of(known: &mut Vec<(u64, Entity)>, entity: Entity, fresh: u64) -> (r: u64)
    ensures
        r == id_or_fresh(old(known)@, entity, fresh),
        final(known)@ == with_id(old(known)@, entity, fresh),
{
    let mut i: usize = known.len();
    assert(known@.subrange(0, i as int) =~= known@);
    while i > 0
        invariant
            i <= known.len(),
            known@ == old(known)@,
            id_of(known@, entity) == id_of(known@.subrange(0, i as int), entity),
        decreases i,
    {
        proof {
            let cut = known@.subrange(0, i as int);
            assert(cut.last() == known@[i - 1]);
            assert(cut.drop_last() =~= known@.subrange(0, i - 1));
        }
        i = i - 1;
        if known[i].1 == entity {
            return known[i].0;
        }
    }
    assert(known@.subrange(0, 0) =~= Seq::empty());
    known.push((fresh, entity));
    fresh
}

/// An entity has the id that it was given, also when it is asked for again.
pub proof fn law_id_is_kept(known: Seq<(u64, Entity)>, e: Entity, fresh: u64, later: u64)
    ensures
        ({
            let after = with_id(known, e, fresh);
            &&& id_or_fresh(after, e, later) == id_or_fresh(known, e, fresh)
            &&& with_id(after, e, later) == after
        }),
{
    if id_of(known, e) is None {
        assert(known.push((fresh, e)).last() == (fresh, e));
    }
}

/// What is needed to put a brush back into the scene.
#[derive(Debug)]
pub struct BrushData {
    pub node_id: u64,
    pub brush: Brush,
    pub transform: BsnStructData,
    pub name: String,
    pub parent_node_id: Option<u64>,
}

/// What a [`BrushData`] stands for.
#[verifier::ext_equal]
pub ghost struct BrushDataView {
    pub node_id: u64,
    pub brush: BrushView,
    pub transform: StructView,
    pub name: Seq<char>,
    pub parent_node_id: Option<u64>,
}

impl View for BrushData {
    type V = BrushDataView;

    open spec fn view(&self) -> BrushDataView {
        BrushDataView {
            node_id: self.node_id,
            brush: self.brush@,
            transform: self.transform@,
            name: self.name@,
            parent_node_id: self.parent_node_id,
        }
    }
}

/// What is kept of a brush in the scene.
pub open spec fn data_of(
    w: WorldView,
    brush: BrushView,
    transform: StructView,
    known: Seq<(u64, Entity)>,
    e: Entity,
    fresh: (u64, u64),
) -> BrushDataView {
    let known2 = with_id(known, e, fresh.0);
    BrushDataView {
        node_id: id_or_fresh(known, e, fresh.0),
        brush,
        transform,
        name: match w.entities[e].name {
            Some(n) => n,
            None => Seq::empty(),
        },
        parent_node_id: match w.entities[e].parent {
            Some(p) => Some(id_or_fresh(known2, p, fresh.1)),
            None => None,
        },
    }
}

/// What is kept of a brush in the scene, to put it back later. The brush and its parent get ids if
/// they carry none.
pub fn brush_data_from_entity(
    world: &SceneWorld,
    brushes: &Brushes,
    known: &mut Vec<(u64, Entity)>,
    entity: Entity,
    transform: BsnStructData,
    fresh: (u64, u64),
) -> (r: BrushData)
    requires
        world@.alive(entity),
        brushes@.contains_key(entity),
    ensures
        r@ == data_of(world@, brushes@[entity], transform@, old(known)@, entity, fresh),
        final(known)@ == ({
            let first = with_id(old(known)@, entity, fresh.0);
            match world@.entities[entity].parent {
                Some(p) => with_id(first, p, fresh.1),
                None => first,
            }
        }),
{
    let node_id: u64 = scene_node_id_of(known, entity, fresh.0);
    let parent_node_id: Option<u64> = match world.parent(entity) {
        Some(p) => Some(scene_node_id_of(known, p, fresh.1)),
        None => None,
    };
    let brush: Brush = brushes.get(entity).unwrap();
    let name: String = match world.name(entity) {
        Some(n) => n,
        None => {
            let none: String = "".to_owned();
            proof {
                reveal_strlit("");
                assert(none@ =~= Seq::<char>::empty());
            }
            none
        },
    };
    let d: BrushData = BrushData { node_id, brush, transform, name, parent_node_id };
    assert(d@ =~= data_of(world@, brushes@[entity], d.transform@, old(known)@, entity, fresh));
    d
}

/// The record of a brush that is put into the scene.
pub open spec fn brush_record(
    name: Seq<char>,
    brush: BrushView,
    transform: StructView,
    parent: Option<Entity>,
) -> RecordView {
    RecordView {
        parent,
        children: Seq::empty(),
        name: Some(name),
        slot: None,
        components: brush_parts(brush, transform),
        marks: brush_marks(),
    }
}

/// The scene with a brush put into it, below its parent if that is there.
pub open spec fn with_brush(
    w: WorldView,
    name: Seq<char>,
    brush: BrushView,
    transform: StructView,
    entity: Entity,
    parent: Option<Entity>,
) -> WorldView {
    let there = WorldView {
        entities: w.entities.insert(entity, brush_record(name, brush, transform, parent)),
        ..w
    };
    match parent {
        Some(p) => there.with_record(
            p,
            RecordView {
                children: there.entities[p].children.push(entity),
                ..there.entities[p]
            },
        ),
        None => there,
    }
}

/// Puts a brush into the scene as a new entity, and enters it into the document.
pub fn enter_brush(
    world: &mut SceneWorld,
    name: &str,
    brush: &Brush,
    transform: &BsnStructData,
    entity: Entity,
    parent: Option<Entity>,
)
    requires
        old(world).document.wf(),
        old(world).document.next_node < u64::MAX,
    ensures
        enrolled(
            with_brush(old(world)@, name@, brush@, transform@, entity, parent),
            final(world)@,
            entity,
        ),
        final(world).document.wf(),
        final(world).document.next_node == old(world).document.next_node + nodes_added(
            with_brush(old(world)@, name@, brush@, transform@, entity, parent),
            entity,
        ),
{
    let ghost w = world@;
    let components: Vec<BsnStructData> = parts_of_brush(brush, transform);
    let record: EntityRecord = EntityRecord {
        parent,
        children: Vec::new(),
        name: Some(name.to_owned()),
        slot: None,
        components,
        marks: marks_of_brush(),
    };
    assert(record@ =~= brush_record(name@, brush@, transform@, parent));
    world.insert(entity, record);
    if let Some(p) = parent {
        let mut children: Vec<Entity> = world.children(p);
        children.push(entity);
        world.set_children(p, children);
        assert(world@ =~= with_brush(w, name@, brush@, transform@, entity, parent));
    }
    register_entity_in_ast(world, entity);
}

/// The parent that a kept brush had, if it is there.
pub open spec fn parent_of_data(data: BrushDataView, known: Seq<(u64, Entity)>) -> Option<Entity> {
    match data.parent_node_id {
        Some(id) => carrier(id, known),
        None => None,
    }
}

/// Puts a kept brush into the scene as a new entity, below the parent that it had, if that is there.
pub fn spawn_brush_from_data(
    world: &mut SceneWorld,
    brushes: &mut Brushes,
    known: &mut Vec<(u64, Entity)>,
    data: &BrushData,
    entity: Entity,
)
    requires
        old(world).document.wf(),
        old(world).document.next_node < u64::MAX,
    ensures
        enrolled(
            with_brush(
                old(world)@,
                data@.name,
                data@.brush,
                data@.transform,
                entity,
                parent_of_data(data@, old(known)@),
            ),
            final(world)@,
            entity,
        ),
        final(world).document.wf(),
        final(world).document.next_node == old(world).document.next_node + nodes_added(
            with_brush(
                old(world)@,
                data@.name,
                data@.brush,
                data@.transform,
                entity,
                parent_of_data(data@, old(known)@),
            ),
            entity,
        ),
        final(brushes)@ == old(brushes)@.insert(entity, data@.brush),
        final(known)@ == old(known)@.push((data.node_id, entity)),
{
    let parent: Option<Entity> = match data.parent_node_id {
        Some(id) => find_carrier(id, known),
        None => None,
    };
    enter_brush(world, data.name.as_str(), &data.brush, &data.transform, entity, parent);
    brushes.set(entity, data.brush.copy());
    known.push((data.node_id, entity));
}

/// Puts a brush into the scene.
#[derive(Debug)]
pub struct CreateBrushCommand {
    pub data: BrushData,
}

/// The scene without the brush that carries an id.
pub open spec fn brush_taken(w: WorldView, id: u64, known: Seq<(u64, Entity)>) -> WorldView {
    match carrier(id, known) {
        Some(e) => despawned(deselected(w, seq![e]), e),
        None => w,
    }
}

impl CreateBrushCommand {
    /// Puts the brush into the scene as a new entity.
    pub fn execute(
        &mut self,
        world: &mut SceneWorld,
        brushes: &mut Brushes,
        known: &mut Vec<(u64, Entity)>,
        entity: Entity,
    )
        requires
            old(world).document.wf(),
            old(world).document.next_node < u64::MAX,
        ensures
            enrolled(
                with_brush(
                    old(world)@,
                    old(self).data@.name,
                    old(self).data@.brush,
                    old(self).data@.transform,
                    entity,
                    parent_of_data(old(self).data@, old(known)@),
                ),
                final(world)@,
                entity,
            ),
            final(world).document.wf(),
            final(world).document.next_node == old(world).document.next_node + nodes_added(
                with_brush(
                    old(world)@,
                    old(self).data@.name,
                    old(self).data@.brush,
                    old(self).data@.transform,
                    entity,
                    parent_of_data(old(self).data@, old(known)@),
                ),
                entity,
            ),
            final(brushes)@ == old(brushes)@.insert(entity, old(self).data@.brush),
            final(known)@ == old(known)@.push((old(self).data.node_id, entity)),
            *final(self) == *old(self),
    {
        spawn_brush_from_data(world, brushes, known, &self.data, entity);
    }

    /// Takes the brush out of the selection and out of the scene, if it is there.
    pub fn undo(
        &mut self,
        world: &mut SceneWorld,
        brushes: &mut Brushes,
        known: &Vec<(u64, Entity)>,
    )
        requires
            old(world)@.doc.consistent(),
        ensures
            final(world)@ == brush_taken(old(world)@, old(self).data.node_id, known@),
            final(brushes)@ == (match carrier(old(self).data.node_id, known@) {
                Some(e) => old(brushes)@.remove(e),
                None => old(brushes)@,
            }),
            *final(self) == *old(self),
    {
        if let Some(e) = find_carrier(self.data.node_id, known) {
            let mut gone: Vec<Entity> = Vec::new();
            gone.push(e);
            assert(gone@ =~= seq![e]);
            deselect_entities(world, &gone);
            despawn_scene_entity(world, e);
            brushes.remove(e);
        }
    }

    pub fn description(&self) -> (r: &'static str)
        ensures
            r@ == "Draw brush"@,
    {
        "Draw brush"
    }
}

/// Undoing the creation of a brush takes the new entity out of the scene again and out of the
/// selection, and leaves the document as it was before.
#[verifier::rlimit(40)]
pub proof fn law_created_brush_undone(
    w: WorldView,
    there: WorldView,
    data: BrushDataView,
    known: Seq<(u64, Entity)>,
    entity: Entity,
)
    requires
        !w.alive(entity),
        !w.doc.links.contains_key(entity),
        w.doc.linked(),
        is_tidy(w.doc),
        enrolled(
            with_brush(
                w,
                data.name,
                data.brush,
                data.transform,
                entity,
                parent_of_data(data, known),
            ),
            there,
            entity,
        ),
    ensures
        ({
            let after = brush_taken(there, data.node_id, known.push((data.node_id, entity)));
            &&& there.alive(entity)
            &&& !after.alive(entity)
            &&& !after.selection.contains(entity)
            &&& after.doc == w.doc
        }),
{
    let live = with_brush(
        w,
        data.name,
        data.brush,
        data.transform,
        entity,
        parent_of_data(data, known),
    );
    let all = known.push((data.node_id, entity));
    assert(all.last() == (data.node_id, entity));
    assert(carrier(data.node_id, all) == Some(entity));
    let rest = deselected(there, seq![entity]);
    crate::clipboard::law_paste_undone(there, seq![entity], entity);
    assert(seq![entity].contains(entity)) by {
        assert(seq![entity][0] == entity);
    }
    assert(seq![entity].drop_last() =~= Seq::empty());
    assert(crate::clipboard::all_despawned(rest, seq![entity].drop_last()) == rest);
    assert(crate::clipboard::all_despawned(rest, seq![entity]) == despawned(rest, entity));
    law_enrolling_is_undone(live, there, entity);
    crate::lifecycle::lemma_unmarked_keeps(there, seq![entity], entity);
}

/// Replaces a brush by another.
#[derive(Debug)]
pub struct SetBrush {
    pub entity: Entity,
    pub old_brush: Brush,
    pub new_brush: Brush,
    pub label: String,
}

/// The brushes with one replaced, if the entity is a brush.
pub open spec fn brush_replaced(
    brushes: Map<Entity, BrushView>,
    e: Entity,
    b: BrushView,
) -> Map<Entity, BrushView> {
    if brushes.contains_key(e) {
        brushes.insert(e, b)
    } else {
        brushes
    }
}

fn replace_brush(brushes: &mut Brushes, e: Entity, b: &Brush)
    ensures
        final(brushes)@ == brush_replaced(old(brushes)@, e, b@),
{
    if brushes.contains(e) {
        brushes.set(e, b.copy());
    }
}

impl SetBrush {
    pub fn execute(&mut self, brushes: &mut Brushes)
        ensures
            final(brushes)@ == brush_replaced(
                old(brushes)@,
                old(self).entity,
                old(self).new_brush@,
            ),
            *final(self) == *old(self),
    {
        replace_brush(brushes, self.entity, &self.new_brush);
    }

    pub fn undo(&mut self, brushes: &mut Brushes)
        ensures
            final(brushes)@ == brush_replaced(
                old(brushes)@,
                old(self).entity,
                old(self).old_brush@,
            ),
            *final(self) == *old(self),
    {
        replace_brush(brushes, self.entity, &self.old_brush);
    }
}

/// Undoing the replacement of a brush brings it back.
pub proof fn law_set_brush_undone(
    brushes: Map<Entity, BrushView>,
    e: Entity,
    after: BrushView,
)
    requires
        brushes.contains_key(e),
    ensures
        brush_replaced(brush_replaced(brushes, e, after), e, brushes[e]) == brushes,
{
    assert(brush_replaced(brush_replaced(brushes, e, after), e, brushes[e]) =~= brushes);
}

/// A brush that was drawn is put into the scene with the material that was used last on every face and
/// its corners as they were drawn. It is named, marked as a brush, shown, at its place, without a
/// parent, and the only one selected.
pub proof fn law_drawn_brush_is_placed(
    w: WorldView,
    after: WorldView,
    drawn: BrushView,
    transform: StructView,
    last_material: Option<u64>,
    entity: Entity,
    i: int,
)
    requires
        enrolled(
            with_named(
                w,
                entity,
                "Brush"@,
                brush_marks(),
                brush_parts(repainted(drawn, last_material), transform),
            ),
            after,
            entity,
        ),
    ensures
        ({
            let brush = repainted(drawn, last_material);
            let record = after.entities[entity];
            &&& after.alive(entity)
            &&& after.selection == seq![entity]
            &&& record.name == Some("Brush"@)
            &&& record.parent is None
            &&& record.children.len() == 0
            &&& record.marks.brush
            &&& !record.marks.editor_entity && !record.marks.non_serializable
            &&& record.components.contains(transform)
            &&& record.components.contains(brush_component(brush))
            &&& brush.vertices == drawn.vertices
            &&& brush.polygons == drawn.polygons
            &&& brush.faces.len() == drawn.faces.len()
            &&& 0 <= i < drawn.faces.len() ==> brush.faces[i].plane == drawn.faces[i].plane
                && brush.faces[i].uv_scale == drawn.faces[i].uv_scale && brush.faces[i].material
                == (match last_material {
                Some(m) => m,
                None => drawn.faces[i].material,
            })
        }),
{
    let parts = brush_parts(repainted(drawn, last_material), transform);
    lemma_with_named(w, entity, "Brush"@, brush_marks(), parts, entity);
    assert(parts[0] == brush_component(repainted(drawn, last_material)));
    assert(parts[1] == transform);
}

/// A union replaces the brush that it was drawn onto when it has at least four corners and four faces,
/// and changes nothing otherwise.
pub proof fn law_union_is_solid(u: UnionedBrush)
    ensures
        is_solid(u) <==> u.vertices >= 4 && u.faces >= 4,
{
}

/// A brush that is put back is below the parent that it had, as its last child, with its name, its
/// place and its corners. Every other entity stays.
pub proof fn law_kept_brush_is_put_back(
    w: WorldView,
    data: BrushDataView,
    known: Seq<(u64, Entity)>,
    entity: Entity,
    p: Entity,
    x: Entity,
)
    requires
        !w.alive(entity),
        w.alive(p),
        data.parent_node_id is Some,
        carrier(data.parent_node_id->0, known) == Some(p),
    ensures
        ({
            let after = with_brush(
                w,
                data.name,
                data.brush,
                data.transform,
                entity,
                parent_of_data(data, known),
            );
            &&& after.alive(entity)
            &&& after.entities[entity].name == Some(data.name)
            &&& after.entities[entity].parent == Some(p)
            &&& after.entities[entity].components.contains(data.transform)
            &&& after.entities[entity].components.contains(brush_component(data.brush))
            &&& after.entities[p].children == w.entities[p].children.push(entity)
            &&& x != entity && x != p ==> after.entities[x] == w.entities[x] && after.alive(x)
                == w.alive(x)
            &&& after.selection == w.selection
            &&& after.doc == w.doc
        }),
{
    let parts = brush_parts(data.brush, data.transform);
    assert(parts[0] == brush_component(data.brush));
    assert(parts[1] == data.transform);
}

/// What is kept of a brush is its corners, its place, its name and the ids of it and of its parent.
/// Putting it back with these finds the parent again.
pub proof fn law_kept_brush_finds_its_parent(
    w: WorldView,
    brush: BrushView,
    transform: StructView,
    e: Entity,
    p: Entity,
    fresh: (u64, u64),
)
    requires
        w.entities[e].parent == Some(p),
        e != p,
        fresh.0 != fresh.1,
    ensures
        ({
            let data = data_of(w, brush, transform, Seq::empty(), e, fresh);
            let known = with_id(with_id(Seq::empty(), e, fresh.0), p, fresh.1);
            &&& data.brush == brush
            &&& data.transform == transform
            &&& data.node_id == fresh.0
            &&& w.entities[e].name matches Some(n) ==> data.name == n
            &&& parent_of_data(data, known) == Some(p)
            &&& carrier(data.node_id, known) == Some(e)
        }),
{
    let none = Seq::<(u64, Entity)>::empty();
    let one = none.push((fresh.0, e));
    assert(one.drop_last() =~= none);
    assert(with_id(none, e, fresh.0) == one);
    assert(id_of(one, p) is None) by {
        assert(one.last() == (fresh.0, e));
        assert(id_of(one.drop_last(), p) is None);
    }
    let two = one.push((fresh.1, p));
    assert(with_id(one, p, fresh.1) == two);
    assert(two.drop_last() =~= one);
    assert(two.last() == (fresh.1, p));
    assert(one.last() == (fresh.0, e));
    assert(carrier(fresh.0, one) == Some(e));
}

} // verus!
