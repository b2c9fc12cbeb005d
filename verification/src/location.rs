//! Where an entity stands in the ordered hierarchy, and moving it.
use vstd::prelude::*;
use crate::document::{at_most, DocView};
use crate::patch::{
    of_type, patch_index, values_view, with_patch, without_patch, BsnPatch, BsnTupleStructData,
    PatchView,
};
use crate::seqs::{
    filter_one, lemma_first_index, lemma_first_index_is, position, position_of, without,
};
use crate::text::text_of;
use crate::value::{BsnValue, Entity, ValueView};
use crate::world::{EntityRecord, RecordView, SceneWorld, WorldView};

verus! {

/// The component that keeps the widget slot of an entity.
pub const UI_SLOT_TYPE_PATH: &'static str = "jackdaw_ui::UiSlot";

/// The component that places an entity in space.
pub const TRANSFORM_TYPE_PATH: &'static str = "bevy_transform::components::transform::Transform";

/// The exact place of an entity in the ordered hierarchy.
#[derive(Debug)]
pub struct HierarchyLocation {
    pub parent: Option<Entity>,
    pub index: usize,
    /// The widget slot that the entity fills, if it fills one.
    pub slot: Option<String>,
}

/// What a [`HierarchyLocation`] stands for.
pub ghost struct LocationView {
    pub parent: Option<Entity>,
    pub index: nat,
    pub slot: Option<Seq<char>>,
}

impl View for HierarchyLocation {
    type V = LocationView;

    open spec fn view(&self) -> LocationView {
        LocationView {
            parent: self.parent,
            index: self.index as nat,
            slot: text_of(self.slot),
        }
    }
}

/// How the transform of a moved entity keeps its place in the world.
#[derive(Clone, Copy, Debug, PartialEq, Eq, Structural)]
pub enum TransformPlan {
    /// The world transform, taken relative to the new parent's.
    RelativeToParent,
    /// The world transform itself.
    World,
    /// No transform is written.
    Keep,
}

impl WorldView {
    /// The children of an entity; none when it is gone.
    pub open spec fn children_of(self, e: Entity) -> Seq<Entity> {
        if self.alive(e) {
            self.entities[e].children
        } else {
            Seq::empty()
        }
    }

    /// The parent of an entity; none when it is gone.
    pub open spec fn parent_of(self, e: Entity) -> Option<Entity> {
        if self.alive(e) {
            self.entities[e].parent
        } else {
            None
        }
    }

    /// The live scene with an entity taken out of the children of its parent.
    pub open spec fn unparented(self, e: Entity) -> WorldView {
        match self.parent_of(e) {
            Some(p) => self.with_record(
                p,
                RecordView {
                    children: without(self.entities[p].children, e),
                    ..self.entities[p]
                },
            ),
            None => self,
        }
    }

    /// The live scene with an entity put among the children of `parent` at `index`, or at the end
    /// when there are fewer.
    pub open spec fn parented(
        self,
        e: Entity,
        parent: Option<Entity>,
        index: nat,
    ) -> WorldView {
        let listed = match parent {
            Some(p) => self.with_record(
                p,
                RecordView {
                    children: self.entities[p].children.insert(
                        at_most(index, self.entities[p].children.len()),
                        e,
                    ),
                    ..self.entities[p]
                },
            ),
            None => self,
        };
        listed.with_record(e, RecordView { parent, ..listed.entities[e] })
    }

    /// The live scene after an entity moved in the hierarchy.
    pub open spec fn moved_live(self, e: Entity, parent: Option<Entity>, index: nat) -> WorldView {
        self.unparented(e).parented(e, parent, index)
    }

    /// The document after an entity moved in the hierarchy. It stays as it is when it does not
    /// track the entity or the new parent.
    pub open spec fn moved_doc(self, e: Entity, parent: Option<Entity>, index: nat) -> DocView {
        match (self.doc.node_of(e), parent) {
            (Some(n), None) => self.doc.moved(n, None, index),
            (Some(n), Some(p)) => match self.doc.node_of(p) {
                Some(pn) => if pn != n {
                    self.doc.moved(n, Some(pn), index)
                } else {
                    self.doc
                },
                None => self.doc,
            },
            (None, _) => self.doc,
        }
    }

    /// The scene with the widget slot of an entity set or removed, live and in the document.
    pub open spec fn slotted(self, e: Entity, slot: Option<Seq<char>>) -> WorldView {
        let live = self.with_record(e, RecordView { slot, ..self.entities[e] });
        let patches = self.doc.entity_patches(e);
        live.with_doc(
            self.doc.with_entity_patches(
                e,
                match slot {
                    Some(s) => with_patch(patches, UI_SLOT_TYPE_PATH@, slot_patch(s)),
                    None => without_patch(patches, UI_SLOT_TYPE_PATH@),
                },
            ),
        )
    }

    /// The scene after an entity was given a location.
    pub open spec fn located(self, e: Entity, location: LocationView) -> WorldView {
        self.with_doc(self.moved_doc(e, location.parent, location.index)).moved_live(
            e,
            location.parent,
            location.index,
        ).slotted(e, location.slot)
    }

    /// The location that an entity has: its place among the children of its parent, or else among
    /// the roots of the document.
    pub open spec fn location(self, e: Entity) -> LocationView {
        let parent = self.parent_of(e);
        let siblings = match parent {
            Some(p) => self.children_of(p),
            None => Seq::empty(),
        };
        let at = position_of(siblings, e);
        let index = if at < siblings.len() {
            at
        } else {
            match self.doc.node_of(e) {
                Some(n) => {
                    let root = position_of(self.doc.roots, n);
                    if root < self.doc.roots.len() {
                        root
                    } else {
                        0
                    }
                },
                None => 0,
            }
        };
        LocationView {
            parent,
            index: index as nat,
            slot: if self.alive(e) {
                self.entities[e].slot
            } else {
                None
            },
        }
    }

    /// Whether `e` can be moved under `parent`: both are alive, and they are not the same.
    pub open spec fn can_move(self, e: Entity, parent: Option<Entity>) -> bool {
        &&& self.alive(e)
        &&& parent is Some ==> self.alive(parent->0) && parent->0 != e
    }
}

/// The document patch that keeps a widget slot.
pub open spec fn slot_patch(slot: Seq<char>) -> PatchView {
    PatchView::Tuple { type_path: UI_SLOT_TYPE_PATH@, values: seq![ValueView::Text(slot)] }
}

impl HierarchyLocation {
    /// The current parent, sibling index and widget slot of an entity.
    pub fn from_world(world: &SceneWorld, entity: Entity) -> (r: HierarchyLocation)
        ensures
            r@ == world@.location(entity),
    {
        let parent: Option<Entity> = world.parent(entity);
        let among_children: Option<usize> = match parent {
            Some(p) => {
                let children: Vec<Entity> = world.children(p);
                position(&children, entity)
            },
            None => None,
        };
        proof {
            assert(position_of(Seq::empty(), entity) == 0);
        }
        let index: usize = match among_children {
            Some(i) => i,
            None => match world.document.ast_for(entity) {
                Some(node) => match position(&world.document.roots, node) {
                    Some(i) => i,
                    None => 0,
                },
                None => 0,
            },
        };
        HierarchyLocation { parent, index, slot: world.slot(entity) }
    }

    /// A copy of this location.
    pub fn copy(&self) -> (r: HierarchyLocation)
        ensures
            r@ == self@,
    {
        let slot: Option<String> = match &self.slot {
            Some(s) => Some(s.clone()),
            None => None,
        };
        HierarchyLocation { parent: self.parent, index: self.index, slot }
    }
}

impl SceneWorld {
    /// Replaces the children of a live entity.
    pub(crate) fn set_children(&mut self, e: Entity, children: Vec<Entity>)
        ensures
            final(self)@ == old(self)@.with_record(
                e,
                RecordView { children: children@, ..old(self)@.entities[e] },
            ),
            final(self).document == old(self).document,
    {
        let taken: Option<EntityRecord> = self.take(e);
        if let Some(rec) = taken {
            let rec: EntityRecord = EntityRecord {
                parent: rec.parent,
                children,
                name: rec.name,
                slot: rec.slot,
                components: rec.components,
                marks: rec.marks,
            };
            assert(rec@ =~= (RecordView { children: children@, ..old(self)@.entities[e] }));
            self.insert(e, rec);
        }
        assert(self@ =~= old(self)@.with_record(
            e,
            RecordView { children: children@, ..old(self)@.entities[e] },
        ));
    }

    /// Sets the parent that a live entity refers to.
    pub(crate) fn set_parent_ref(&mut self, e: Entity, parent: Option<Entity>)
        ensures
            final(self)@ == old(self)@.with_record(
                e,
                RecordView { parent, ..old(self)@.entities[e] },
            ),
            final(self).document == old(self).document,
    {
        let taken: Option<EntityRecord> = self.take(e);
        if let Some(rec) = taken {
            let rec: EntityRecord = EntityRecord {
                parent,
                children: rec.children,
                name: rec.name,
                slot: rec.slot,
                components: rec.components,
                marks: rec.marks,
            };
            assert(rec@ =~= (RecordView { parent, ..old(self)@.entities[e] }));
            self.insert(e, rec);
        }
        assert(self@ =~= old(self)@.with_record(
            e,
            RecordView { parent, ..old(self)@.entities[e] },
        ));
    }

    /// Sets or removes the widget slot of a live entity.
    fn set_slot(&mut self, e: Entity, slot: Option<String>)
        ensures
            final(self)@ == old(self)@.with_record(
                e,
                RecordView { slot: text_of(slot), ..old(self)@.entities[e] },
            ),
            final(self).document == old(self).document,
    {
        let ghost wanted = text_of(slot);
        let taken: Option<EntityRecord> = self.take(e);
        if let Some(rec) = taken {
            let rec: EntityRecord = EntityRecord {
                parent: rec.parent,
                children: rec.children,
                name: rec.name,
                slot,
                components: rec.components,
                marks: rec.marks,
            };
            assert(rec@ =~= (RecordView { slot: wanted, ..old(self)@.entities[e] }));
            self.insert(e, rec);
        }
        assert(self@ =~= old(self)@.with_record(
            e,
            RecordView { slot: wanted, ..old(self)@.entities[e] },
        ));
    }

    /// Takes a live entity out of the children of its parent.
    pub(crate) fn unparent(&mut self, e: Entity)
        ensures
            final(self)@ == old(self)@.unparented(e),
            final(self).document == old(self).document,
    {
        match self.parent(e) {
            Some(p) => {
                let children: Vec<Entity> = self.children(p);
                let children: Vec<Entity> = filter_one(&children, e);
                self.set_children(p, children);
            },
            None => {},
        }
    }

    /// Puts a live entity among the children of `parent`.
    fn enlist(&mut self, e: Entity, parent: Option<Entity>, index: usize)
        requires
            old(self)@.can_move(e, parent),
        ensures
            final(self)@ == old(self)@.parented(e, parent, index as nat),
            final(self).document == old(self).document,
    {
        match parent {
            Some(p) => {
                let mut children: Vec<Entity> = self.children(p);
                let at: usize = if index < children.len() {
                    index
                } else {
                    children.len()
                };
                children.insert(at, e);
                self.set_children(p, children);
            },
            None => {},
        }
        self.set_parent_ref(e, parent);
    }

    /// Moves a live entity in the hierarchy.
    fn move_live(&mut self, e: Entity, parent: Option<Entity>, index: usize)
        requires
            old(self)@.can_move(e, parent),
        ensures
            final(self)@ == old(self)@.moved_live(e, parent, index as nat),
            final(self).document == old(self).document,
    {
        self.unparent(e);
        self.enlist(e, parent, index);
    }

    /// Moves the document node of an entity.
    fn move_doc(&mut self, e: Entity, parent: Option<Entity>, index: usize)
        requires
            old(self)@.doc.linked(),
        ensures
            final(self)@ == old(self)@.with_doc(old(self)@.moved_doc(e, parent, index as nat)),
            final(self).document.next_node == old(self).document.next_node,
    {
        match self.document.ast_for(e) {
            Some(node) => match parent {
                None => {
                    self.document.move_node(node, None, index);
                },
                Some(p) => match self.document.ast_for(p) {
                    Some(parent_node) => {
                        if parent_node != node {
                            self.document.move_node(node, Some(parent_node), index);
                        }
                    },
                    None => {},
                },
            },
            None => {},
        }
    }
}

/// What a move keeps of the document: its nodes stay, every link leads to a node as before, and links
/// and nodes refer to each other as before.
pub open spec fn document_kept(before: DocView, after: DocView) -> bool {
    &&& after.nodes.dom() == before.nodes.dom()
    &&& after.links == before.links
    &&& after.linked()
    &&& before.consistent() ==> after.consistent()
}

/// A move takes no node out of the document and leaves every link as it is.
pub proof fn law_move_keeps_document(w: WorldView, e: Entity, location: LocationView)
    requires
        w.doc.linked(),
    ensures
        document_kept(w.doc, w.located(e, location).doc),
{
    let after = w.located(e, location).doc;
    let moved = w.moved_doc(e, location.parent, location.index);
    match w.doc.node_of(e) {
        Some(n) => {
            assert(w.doc.nodes.contains_key(n));
            let cut = w.doc.detached(n);
            assert(cut.nodes.dom() =~= w.doc.nodes.dom());
            assert(moved.nodes.dom() =~= w.doc.nodes.dom()) by {
                if let Some(p) = location.parent {
                    if let Some(pn) = w.doc.node_of(p) {
                        assert(w.doc.nodes.contains_key(pn));
                    }
                }
            }
        },
        None => {},
    }
    assert(moved.links == w.doc.links);
    assert(after.links == w.doc.links);
    assert(after.nodes.dom() =~= w.doc.nodes.dom());
    if w.doc.consistent() {
        assert forall|x: Entity| #[trigger] after.links.contains_key(x) implies {
            &&& after.nodes.contains_key(after.links[x])
            &&& after.nodes[after.links[x]].entity == Some(x)
        } by {
            let m = w.doc.links[x];
            assert(w.doc.links.contains_key(x));
            assert(moved.nodes[m].entity == w.doc.nodes[m].entity);
        }
    }
}

/// Gives an entity an exact place in the ordered hierarchy, in the live scene and in the document,
/// and tells how its transform has to follow to keep its place in the world.
/// `entity_placed` and `parent_placed` say whether the entity and the new parent have a world
/// transform.
pub fn set_hierarchy_location(
    world: &mut SceneWorld,
    entity: Entity,
    location: HierarchyLocation,
    entity_placed: bool,
    parent_placed: bool,
) -> (plan: TransformPlan)
    requires
        old(world)@.can_move(entity, location.parent),
        old(world)@.doc.linked(),
    ensures
        final(world)@ == old(world)@.located(entity, location@),
        document_kept(old(world)@.doc, final(world)@.doc),
        final(world).document.next_node == old(world).document.next_node,
        plan == transform_plan(location.parent, entity_placed, parent_placed),
        plan == TransformPlan::RelativeToParent <==> location.parent is Some && entity_placed
            && parent_placed,
        plan == TransformPlan::World <==> location.parent is None && entity_placed,
{
    let ghost slot = text_of(location.slot);
    proof {
        law_move_keeps_document(world@, entity, location@);
    }
    world.move_doc(entity, location.parent, location.index);
    world.move_live(entity, location.parent, location.index);
    let ghost mid = world@;
    match location.slot {
        Some(slot) => {
            match world.document.ast_for(entity) {
                Some(node) => {
                    let mut values: Vec<BsnValue> = Vec::new();
                    values.push(BsnValue::String(slot.clone()));
                    let patch = BsnPatch::TupleStruct(
                        BsnTupleStructData { type_path: UI_SLOT_TYPE_PATH.to_owned(), values },
                    );
                    assert(patch@ == slot_patch(slot@)) by {
                        assert(values_view(values@) =~= seq![ValueView::Text(slot@)]);
                    }
                    world.document.set_patch(node, UI_SLOT_TYPE_PATH, patch);
                },
                None => {},
            }
            world.set_slot(entity, Some(slot));
        },
        None => {
            match world.document.ast_for(entity) {
                Some(node) => {
                    world.document.remove_component_patch(node, UI_SLOT_TYPE_PATH);
                },
                None => {},
            }
            world.set_slot(entity, None);
        },
    }
    assert(world@ =~= mid.slotted(entity, slot));
    if entity_placed && location.parent.is_some() && parent_placed {
        TransformPlan::RelativeToParent
    } else if location.parent.is_none() && entity_placed {
        TransformPlan::World
    } else {
        TransformPlan::Keep
    }
}

/// How the transform of a moved entity follows.
pub open spec fn transform_plan(
    parent: Option<Entity>,
    entity_placed: bool,
    parent_placed: bool,
) -> TransformPlan {
    match parent {
        Some(_) => if entity_placed && parent_placed {
            TransformPlan::RelativeToParent
        } else {
            TransformPlan::Keep
        },
        None => if entity_placed {
            TransformPlan::World
        } else {
            TransformPlan::Keep
        },
    }
}

/// Moves an entity under `parent`, or to the top level, behind the children that are there.
pub fn set_parent(
    world: &mut SceneWorld,
    entity: Entity,
    parent: Option<Entity>,
    entity_placed: bool,
    parent_placed: bool,
) -> (plan: TransformPlan)
    requires
        old(world)@.can_move(entity, parent),
        old(world)@.doc.linked(),
    ensures
        final(world)@ == old(world)@.located(
            entity,
            LocationView {
                parent,
                index: usize::MAX as nat,
                slot: old(world)@.entities[entity].slot,
            },
        ),
        document_kept(old(world)@.doc, final(world)@.doc),
        final(world).document.next_node == old(world).document.next_node,
        plan == transform_plan(parent, entity_placed, parent_placed),
{
    let slot: Option<String> = world.slot(entity);
    set_hierarchy_location(
        world,
        entity,
        HierarchyLocation { parent, index: usize::MAX, slot },
        entity_placed,
        parent_placed,
    )
}

/// Moves an entity under another parent, behind the children that are there.
#[derive(Debug)]
pub struct ReparentEntity {
    pub entity: Entity,
    pub old_parent: Option<Entity>,
    pub new_parent: Option<Entity>,
}

impl ReparentEntity {
    pub fn execute(
        &mut self,
        world: &mut SceneWorld,
        entity_placed: bool,
        parent_placed: bool,
    ) -> (plan: TransformPlan)
        requires
            old(world)@.can_move(old(self).entity, old(self).new_parent),
            old(world)@.doc.linked(),
        ensures
            *final(self) == *old(self),
            final(world)@ == old(world)@.located(
                old(self).entity,
                LocationView {
                    parent: old(self).new_parent,
                    index: usize::MAX as nat,
                    slot: old(world)@.entities[old(self).entity].slot,
                },
            ),
            document_kept(old(world)@.doc, final(world)@.doc),
            plan == transform_plan(old(self).new_parent, entity_placed, parent_placed),
    {
        set_parent(world, self.entity, self.new_parent, entity_placed, parent_placed)
    }

    pub fn undo(
        &mut self,
        world: &mut SceneWorld,
        entity_placed: bool,
        parent_placed: bool,
    ) -> (plan: TransformPlan)
        requires
            old(world)@.can_move(old(self).entity, old(self).old_parent),
            old(world)@.doc.linked(),
        ensures
            *final(self) == *old(self),
            final(world)@ == old(world)@.located(
                old(self).entity,
                LocationView {
                    parent: old(self).old_parent,
                    index: usize::MAX as nat,
                    slot: old(world)@.entities[old(self).entity].slot,
                },
            ),
            document_kept(old(world)@.doc, final(world)@.doc),
            plan == transform_plan(old(self).old_parent, entity_placed, parent_placed),
    {
        set_parent(world, self.entity, self.old_parent, entity_placed, parent_placed)
    }

    pub fn description(&self) -> (r: &'static str)
        ensures
            r@ == "Reparent entity"@,
    {
        "Reparent entity"
    }
}

/// Moves an entity to an exact place in the hierarchy.
#[derive(Debug)]
pub struct MoveEntity {
    pub entity: Entity,
    pub old: HierarchyLocation,
    pub new: HierarchyLocation,
}

impl MoveEntity {
    /// The move of `entity` from where it is to `new`.
    pub fn new(world: &SceneWorld, entity: Entity, new: HierarchyLocation) -> (r: MoveEntity)
        ensures
            r.entity == entity,
            r.old@ == world@.location(entity),
            r.new == new,
    {
        MoveEntity { entity, old: HierarchyLocation::from_world(world, entity), new }
    }

    pub fn execute(
        &mut self,
        world: &mut SceneWorld,
        entity_placed: bool,
        parent_placed: bool,
    ) -> (plan: TransformPlan)
        requires
            old(world)@.can_move(old(self).entity, old(self).new.parent),
            old(world)@.doc.linked(),
        ensures
            *final(self) == *old(self),
            final(world)@ == old(world)@.located(old(self).entity, old(self).new@),
            document_kept(old(world)@.doc, final(world)@.doc),
            plan == transform_plan(old(self).new.parent, entity_placed, parent_placed),
    {
        let location: HierarchyLocation = self.new.copy();
        set_hierarchy_location(world, self.entity, location, entity_placed, parent_placed)
    }

    pub fn undo(
        &mut self,
        world: &mut SceneWorld,
        entity_placed: bool,
        parent_placed: bool,
    ) -> (plan: TransformPlan)
        requires
            old(world)@.can_move(old(self).entity, old(self).old.parent),
            old(world)@.doc.linked(),
        ensures
            *final(self) == *old(self),
            final(world)@ == old(world)@.located(old(self).entity, old(self).old@),
            document_kept(old(world)@.doc, final(world)@.doc),
            plan == transform_plan(old(self).old.parent, entity_placed, parent_placed),
    {
        let location: HierarchyLocation = self.old.copy();
        set_hierarchy_location(world, self.entity, location, entity_placed, parent_placed)
    }

    pub fn description(&self) -> (r: &'static str)
        ensures
            r@ == "Move entity"@,
    {
        "Move entity"
    }
}

/// The transform of a moved entity follows where the entity has a place in the world: relative to its
/// new parent, if that has one as well, and as it is where there is no parent.
pub proof fn law_transform_follows(parent: Option<Entity>, entity_placed: bool, parent_placed: bool)
    ensures
        ({
            let plan = transform_plan(parent, entity_placed, parent_placed);
            &&& !entity_placed ==> plan == TransformPlan::Keep
            &&& entity_placed && parent is None ==> plan == TransformPlan::World
            &&& entity_placed && parent is Some && parent_placed ==> plan
                == TransformPlan::RelativeToParent
            &&& parent is Some && !parent_placed ==> plan == TransformPlan::Keep
        }),
{
}

/// The widget slot of an entity is kept under its type in the document, as one text, and without a slot
/// nothing is kept. The other patches stay.
pub proof fn law_slot_is_written(w: WorldView, e: Entity, slot: Seq<char>, n: Entity)
    requires
        w.doc.node_of(e) == Some(n),
        w.doc.nodes.contains_key(n),
        w.alive(e),
    ensures
        ({
            let after = w.slotted(e, Some(slot));
            let patches = after.doc.patches_of(n);
            let i = patch_index(patches, "jackdaw_ui::UiSlot"@);
            &&& after.entities[e].slot == Some(slot)
            &&& i < patches.len()
            &&& patches[i] == (PatchView::Tuple {
                type_path: "jackdaw_ui::UiSlot"@,
                values: seq![ValueView::Text(slot)],
            })
            &&& w.slotted(e, None).entities[e].slot is None
        }),
{
    let before = w.doc.patches_of(n);
    let p = of_type("jackdaw_ui::UiSlot"@);
    let after = w.slotted(e, Some(slot)).doc.patches_of(n);
    let i = patch_index(before, "jackdaw_ui::UiSlot"@);
    lemma_first_index(before, p);
    assert forall|j: int| 0 <= j < i implies !p(#[trigger] after[j]) by {
        assert(after[j] == before[j]);
    }
    assert(p(after[i]));
    lemma_first_index_is(after, p, i);
}

} // verus!
