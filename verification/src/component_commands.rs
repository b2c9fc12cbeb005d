//! Undoable commands that add and remove components and entities.
use vstd::prelude::*;
use crate::patch::{
    empty_struct, has_patch, of_type, patch_index, with_patch, without_patch, BsnPatch, PatchView,
};
use crate::seqs::{lemma_first_index, lemma_first_index_is};
use crate::text::text_eq;
use crate::value::{BsnStructData, Entity, StructView};
use crate::world::{
    component_index, find_component, structs_view, texts_view, typed, with_component,
    without_component, Marks, RecordView, SceneWorld, WorldView,
};

verus! {

/// Whether a component of a type is among `components`.
pub open spec fn carries(components: Seq<StructView>, type_path: Seq<char>) -> bool {
    component_index(components, type_path) < components.len()
}

/// `components` with each of `required` put at the end unless one of its type is there. Types that are
/// not registered are not reflected, so that no component of such a type is seen.
pub open spec fn with_missing(
    w: WorldView,
    components: Seq<StructView>,
    required: Seq<StructView>,
) -> Seq<StructView>
    decreases required.len(),
{
    if required.len() == 0 {
        components
    } else {
        let before = with_missing(w, components, required.drop_last());
        if carries(before, required.last().type_path) || !w.registered(required.last().type_path) {
            before
        } else {
            before.push(required.last())
        }
    }
}

/// The types in `after` that are neither `own` nor in `before`, in order.
pub open spec fn new_types(
    before: Seq<StructView>,
    after: Seq<StructView>,
    own: Seq<char>,
) -> Seq<Seq<char>>
    decreases after.len(),
{
    if after.len() == 0 {
        Seq::empty()
    } else {
        let rest = new_types(before, after.drop_last(), own);
        let t = after.last().type_path;
        if t != own && !carries(before, t) {
            rest.push(t)
        } else {
            rest
        }
    }
}

/// The components without those of the given types that are registered.
pub open spec fn without_types(
    w: WorldView,
    components: Seq<StructView>,
    types: Seq<Seq<char>>,
) -> Seq<StructView>
    decreases types.len(),
{
    if types.len() == 0 {
        components
    } else {
        let before = without_types(w, components, types.drop_last());
        if w.registered(types.last()) {
            without_component(before, types.last())
        } else {
            before
        }
    }
}

impl WorldView {
    /// The scene with the inspector of a live entity marked for a rebuild.
    pub open spec fn dirtied(self, e: Entity) -> WorldView {
        self.with_record(
            e,
            RecordView {
                marks: Marks { inspector_dirty: true, ..self.entities[e].marks },
                ..self.entities[e]
            },
        )
    }

    /// The scene with a component's patch taken out of an entity's document node.
    pub open spec fn unauthored(self, e: Entity, type_path: Seq<char>) -> WorldView {
        self.with_doc(
            self.doc.with_entity_patches(
                e,
                without_patch(self.doc.entity_patches(e), type_path),
            ),
        )
    }
}

impl SceneWorld {
    /// Marks the inspector of a live entity for a rebuild.
    pub fn mark_dirty(&mut self, e: Entity)
        ensures
            final(self)@ == old(self)@.dirtied(e),
            final(self).document == old(self).document,
    {
        let marks: Marks = self.marks(e);
        let marks: Marks = Marks { inspector_dirty: true, ..marks };
        self.set_marks(e, marks);
    }

    /// Takes a component's patch out of an entity's document node.
    pub fn unauthor(&mut self, e: Entity, type_path: &str)
        ensures
            final(self)@ == old(self)@.unauthored(e, type_path@),
            final(self).document.next_node == old(self).document.next_node,
    {
        match self.document.ast_for(e) {
            Some(node) => {
                self.document.remove_component_patch(node, type_path);
            },
            None => {},
        }
        assert(self@ =~= old(self)@.unauthored(e, type_path@));
    }
}

/// Writes a component's value into the document node of an entity.
pub fn sync_component_to_ast(world: &mut SceneWorld, entity: Entity, value: &BsnStructData)
    ensures
        final(world)@ == synced(old(world)@, entity, value@),
        final(world).document.next_node == old(world).document.next_node,
{
    match world.document.ast_for(entity) {
        Some(node) => {
            let patch = BsnPatch::Struct(value.copy());
            world.document.set_patch(node, value.type_path.as_str(), patch);
        },
        None => {},
    }
    assert(world@ =~= synced(old(world)@, entity, value@));
}

/// The scene with a component's value written into the document node of an entity.
pub open spec fn synced(w: WorldView, e: Entity, value: StructView) -> WorldView {
    w.with_doc(
        w.doc.with_entity_patches(
            e,
            with_patch(w.doc.entity_patches(e), value.type_path, PatchView::Struct(value)),
        ),
    )
}

/// Adds a component with the default value of its type.
#[derive(Debug)]
pub struct AddComponent {
    pub entity: Entity,
    pub type_path: String,
    /// The types of the components that came along with the last execute.
    pub required_companions: Vec<String>,
}

impl AddComponent {
    pub fn new(entity: Entity, type_path: String) -> (r: AddComponent)
        ensures
            r.entity == entity,
            r.type_path == type_path,
            r.required_companions@ == Seq::<String>::empty(),
    {
        AddComponent { entity, type_path, required_companions: Vec::new() }
    }

    /// The live components of the entity after execute.
    pub open spec fn components_after(
        self,
        w: WorldView,
        required: Seq<StructView>,
    ) -> Seq<StructView> {
        with_missing(
            w,
            with_component(w.components_of(self.entity), w.default_of(self.type_path@)->0),
            required,
        )
    }

    /// Whether execute adds the component: its type is registered and has a default value.
    pub open spec fn adds(self, w: WorldView) -> bool {
        w.default_of(self.type_path@) is Some
    }

    /// The scene after execute.
    pub open spec fn executed(self, w: WorldView, required: Seq<StructView>) -> WorldView {
        if self.adds(w) {
            synced(
                w.with_components(self.entity, self.components_after(w, required)),
                self.entity,
                w.default_of(self.type_path@)->0,
            )
        } else {
            w
        }
    }

    /// Puts the component on the entity, with those of `required` that are missing, and authors
    /// the component alone in the document. `required` is what the engine inserts along with it.
    pub fn execute(&mut self, world: &mut SceneWorld, required: &Vec<BsnStructData>)
        requires
            old(world)@.alive(old(self).entity),
        ensures
            final(world)@ == old(self).executed(old(world)@, structs_view(required@)),
            final(self).entity == old(self).entity,
            final(self).type_path == old(self).type_path,
            texts_view(final(self).required_companions@) == (if old(self).adds(old(world)@) {
                new_types(
                    old(world)@.components_of(old(self).entity),
                    old(self).components_after(old(world)@, structs_view(required@)),
                    old(self).type_path@,
                )
            } else {
                texts_view(old(self).required_companions@)
            }),
    {
        let default_value: BsnStructData = match world.default_value(self.type_path.as_str()) {
            Some(d) => d,
            None => {
                return ;
            },
        };
        let before: Vec<BsnStructData> = world.copy_components(self.entity);
        let mut after: Vec<BsnStructData> = world.copy_components(self.entity);
        crate::world::put_component(&mut after, default_value.copy());
        insert_missing(world, &mut after, required);
        self.required_companions = types_added(&before, &after, self.type_path.as_str());
        world.set_components(self.entity, after);
        sync_component_to_ast(world, self.entity, &default_value);
    }

    /// The scene after undo.
    pub open spec fn undone(self, w: WorldView) -> WorldView {
        let types = seq![self.type_path@] + texts_view(self.required_companions@);
        w.with_components(
            self.entity,
            without_types(w, w.components_of(self.entity), types),
        ).unauthored(self.entity, self.type_path@).dirtied(self.entity)
    }

    /// Takes the component and its companions off the entity, and the component out of the
    /// document.
    pub fn undo(&mut self, world: &mut SceneWorld)
        ensures
            final(world)@ == old(self).undone(old(world)@),
            *final(self) == *old(self),
    {
        let ghost w = world@;
        let mut components: Vec<BsnStructData> = world.copy_components(self.entity);
        let ghost base = structs_view(components@);
        let ghost types = seq![self.type_path@] + texts_view(self.required_companions@);
        if world.is_registered(self.type_path.as_str()) {
            crate::world::drop_component(&mut components, self.type_path.as_str());
        }
        proof {
            assert(types.subrange(0, 1).drop_last() =~= Seq::empty());
            assert(types.subrange(0, 1).last() == self.type_path@);
            assert(without_types(w, base, types.subrange(0, 1).drop_last()) == base);
        }
        let mut i: usize = 0;
        while i < self.required_companions.len()
            invariant
                i <= self.required_companions.len(),
                world@ == w,
                types == seq![self.type_path@] + texts_view(self.required_companions@),
                structs_view(components@) == without_types(w, base, types.subrange(0, i + 1)),
            decreases self.required_companions.len() - i,
        {
            proof {
                assert(types.subrange(0, i + 2).drop_last() =~= types.subrange(0, i + 1));
                assert(types.subrange(0, i + 2).last() == self.required_companions[i as int]@);
            }
            if world.is_registered(self.required_companions[i].as_str()) {
                crate::world::drop_component(
                    &mut components,
                    self.required_companions[i].as_str(),
                );
            }
            i = i + 1;
        }
        assert(types.subrange(0, i + 1) =~= types);
        world.set_components(self.entity, components);
        world.unauthor(self.entity, self.type_path.as_str());
        world.mark_dirty(self.entity);
    }

    pub fn description(&self) -> (r: &'static str)
        ensures
            r@ == "Add component"@,
    {
        "Add component"
    }
}

/// Puts each of `required` of a registered type at the end unless a component of its type is there.
fn insert_missing(
    world: &SceneWorld,
    components: &mut Vec<BsnStructData>,
    required: &Vec<BsnStructData>,
)
    ensures
        structs_view(final(components)@) == with_missing(
            world@,
            structs_view(old(components)@),
            structs_view(required@),
        ),
{
    let ghost start = structs_view(components@);
    let ghost all = structs_view(required@);
    let mut i: usize = 0;
    assert(all.subrange(0, 0) =~= Seq::empty());
    while i < required.len()
        invariant
            i <= required.len(),
            all == structs_view(required@),
            structs_view(components@) == with_missing(world@, start, all.subrange(0, i as int)),
        decreases required.len() - i,
    {
        proof {
            assert(all.subrange(0, i + 1).drop_last() =~= all.subrange(0, i as int));
            assert(all.subrange(0, i + 1).last() == all[i as int]);
        }
        let ghost now = structs_view(components@);
        match find_component(components, required[i].type_path.as_str()) {
            Some(_) => {},
            None => {
                if world.is_registered(required[i].type_path.as_str()) {
                    components.push(required[i].copy());
                    assert(structs_view(components@) =~= now.push(all[i as int]));
                }
            },
        }
        i = i + 1;
    }
    assert(all.subrange(0, i as int) =~= all);
}

/// The types in `after` that are neither `own` nor in `before`.
fn types_added(before: &Vec<BsnStructData>, after: &Vec<BsnStructData>, own: &str) -> (r: Vec<
    String,
>)
    ensures
        texts_view(r@) == new_types(structs_view(before@), structs_view(after@), own@),
{
    let ghost all = structs_view(after@);
    let mut out: Vec<String> = Vec::new();
    let mut i: usize = 0;
    assert(all.subrange(0, 0) =~= Seq::empty());
    assert(texts_view(out@) =~= Seq::empty());
    while i < after.len()
        invariant
            i <= after.len(),
            all == structs_view(after@),
            texts_view(out@) == new_types(structs_view(before@), all.subrange(0, i as int), own@),
        decreases after.len() - i,
    {
        proof {
            assert(all.subrange(0, i + 1).drop_last() =~= all.subrange(0, i as int));
            assert(all.subrange(0, i + 1).last() == all[i as int]);
        }
        let ghost now = texts_view(out@);
        let t: String = after[i].type_path.clone();
        if !text_eq(t.as_str(), own) && find_component(before, t.as_str()).is_none() {
            out.push(t);
            assert(texts_view(out@) =~= now.push(t@));
        }
        i = i + 1;
    }
    assert(all.subrange(0, i as int) =~= all);
    out
}

/// Adds a component of the game project to an entity, as a patch in the document alone.
#[derive(Debug)]
pub struct AddProjectComponent {
    pub entity: Entity,
    pub type_path: String,
    /// Whether the last execute put a patch in.
    pub added: bool,
}

impl AddProjectComponent {
    pub fn new(entity: Entity, type_path: String) -> (r: AddProjectComponent)
        ensures
            r.entity == entity,
            r.type_path == type_path,
            !r.added,
    {
        AddProjectComponent { entity, type_path, added: false }
    }

    /// Whether execute puts a patch in: the document tracks the entity and carries none yet.
    pub open spec fn adds(self, w: WorldView) -> bool {
        w.doc.node_of(self.entity) is Some && !w.doc.authors(self.entity, self.type_path@)
    }

    /// The scene after execute.
    pub open spec fn executed(self, w: WorldView) -> WorldView {
        if self.adds(w) {
            w.with_doc(
                w.doc.with_entity_patches(
                    self.entity,
                    w.doc.entity_patches(self.entity).push(empty_struct(self.type_path@)),
                ),
            ).dirtied(self.entity)
        } else {
            w
        }
    }

    /// The scene after undo.
    pub open spec fn undone(self, w: WorldView) -> WorldView {
        if self.added {
            w.unauthored(self.entity, self.type_path@).dirtied(self.entity)
        } else {
            w
        }
    }

    pub fn execute(&mut self, world: &mut SceneWorld)
        ensures
            final(world)@ == old(self).executed(old(world)@),
            final(self).entity == old(self).entity,
            final(self).type_path == old(self).type_path,
            final(self).added == old(self).adds(old(world)@),
    {
        let node: Entity = match world.document.ast_for(self.entity) {
            Some(n) => n,
            None => {
                self.added = false;
                return ;
            },
        };
        if world.document.find_patch_by_type_path(node, self.type_path.as_str()).is_some() {
            self.added = false;
            return ;
        }
        let patch = BsnPatch::Struct(BsnStructData::empty(self.type_path.as_str()));
        proof {
            lemma_first_index(world@.doc.patches_of(node), of_type(self.type_path@));
        }
        world.document.set_patch(node, self.type_path.as_str(), patch);
        self.added = true;
        world.mark_dirty(self.entity);
    }

    pub fn undo(&mut self, world: &mut SceneWorld)
        ensures
            final(world)@ == old(self).undone(old(world)@),
            *final(self) == *old(self),
    {
        if !self.added {
            return ;
        }
        world.unauthor(self.entity, self.type_path.as_str());
        world.mark_dirty(self.entity);
    }

    pub fn description(&self) -> (r: &'static str)
        ensures
            r@ == "Add component"@,
    {
        "Add component"
    }
}

pub open spec fn patch_of(p: Option<BsnPatch>) -> Option<PatchView> {
    match p {
        Some(x) => Some(x@),
        None => None,
    }
}

/// Removes a component from an entity and from its document node.
#[derive(Debug)]
pub struct RemoveComponent {
    pub entity: Entity,
    pub type_path: String,
    /// The value of the component before the removal.
    pub snapshot: BsnStructData,
    /// The document patch before the removal.
    pub ast_snapshot: Option<BsnPatch>,
}

impl RemoveComponent {
    /// The document patch that execute keeps for undo.
    pub open spec fn kept_patch(self, w: WorldView) -> Option<PatchView> {
        if w.doc.authors(self.entity, self.type_path@) {
            let patches = w.doc.entity_patches(self.entity);
            Some(patches[patch_index(patches, self.type_path@)])
        } else {
            None
        }
    }

    /// The scene after execute.
    pub open spec fn executed(self, w: WorldView) -> WorldView {
        let live = if w.registered(self.type_path@) {
            w.with_components(
                self.entity,
                without_component(w.components_of(self.entity), self.type_path@),
            )
        } else {
            w
        };
        live.unauthored(self.entity, self.type_path@)
    }

    /// The scene after undo: the component is back on the entity, and the kept patch goes to the
    /// end of the node's patches unless one is there.
    pub open spec fn undone(self, w: WorldView) -> WorldView {
        if !w.registered(self.type_path@) {
            w
        } else {
            let live = w.with_components(
                self.entity,
                with_component(w.components_of(self.entity), self.snapshot@),
            );
            match self.ast_snapshot {
                Some(patch) => if w.doc.authors(self.entity, self.type_path@) {
                    live
                } else {
                    live.with_doc(
                        w.doc.with_entity_patches(
                            self.entity,
                            w.doc.entity_patches(self.entity).push(patch@),
                        ),
                    )
                },
                None => live,
            }
        }
    }

    pub fn execute(&mut self, world: &mut SceneWorld)
        ensures
            final(world)@ == old(self).executed(old(world)@),
            final(self).entity == old(self).entity,
            final(self).type_path == old(self).type_path,
            final(self).snapshot == old(self).snapshot,
            patch_of(final(self).ast_snapshot) == old(self).kept_patch(old(world)@),
    {
        self.ast_snapshot =
        match world.document.ast_for(self.entity) {
            Some(node) => world.document.get_patch(node, self.type_path.as_str()),
            None => None,
        };
        world.remove_component_from_ecs(self.entity, self.type_path.as_str());
        world.unauthor(self.entity, self.type_path.as_str());
    }

    pub fn undo(&mut self, world: &mut SceneWorld)
        requires
            old(world)@.alive(old(self).entity),
        ensures
            final(world)@ == old(self).undone(old(world)@),
            final(self).entity == old(self).entity,
            final(self).type_path == old(self).type_path,
            final(self).snapshot == old(self).snapshot,
            final(self).ast_snapshot == (if old(world)@.registered(old(self).type_path@) {
                None
            } else {
                old(self).ast_snapshot
            }),
    {
        if !world.is_registered(self.type_path.as_str()) {
            return ;
        }
        world.insert_component(self.entity, self.snapshot.copy());
        let ghost live = world@;
        let taken: Option<BsnPatch> = self.ast_snapshot.take();
        if let Some(patch) = taken {
            match world.document.ast_for(self.entity) {
                Some(node) => {
                    match world.document.find_patch_by_type_path(node, self.type_path.as_str()) {
                        Some(_) => {},
                        None => {
                            proof {
                                lemma_first_index(
                                    world@.doc.patches_of(node),
                                    of_type(self.type_path@),
                                );
                            }
                            world.document.set_patch(node, self.type_path.as_str(), patch);
                        },
                    }
                },
                None => {},
            }
        }
        assert(world@ =~= old(self).undone(old(world)@));
    }

    pub fn description(&self) -> (r: &'static str)
        ensures
            r@ == "Remove component"@,
    {
        "Remove component"
    }
}

/// Gives an entity a transform.
#[derive(Debug)]
pub struct SetTransform {
    pub entity: Entity,
    pub old_transform: BsnStructData,
    pub new_transform: BsnStructData,
}

/// The scene with an entity's transform replaced, live where it has one, and in the document.
pub open spec fn transformed(w: WorldView, e: Entity, transform: StructView) -> WorldView {
    let live = if carries(w.components_of(e), transform.type_path) {
        w.with_components(e, with_component(w.components_of(e), transform))
    } else {
        w
    };
    synced(live, e, transform)
}

/// Replaces an entity's transform, live where it has one, and in the document.
pub fn write_transform(world: &mut SceneWorld, entity: Entity, transform: &BsnStructData)
    ensures
        final(world)@ == transformed(old(world)@, entity, transform@),
        final(world).document.next_node == old(world).document.next_node,
{
    let components: Vec<BsnStructData> = world.copy_components(entity);
    if find_component(&components, transform.type_path.as_str()).is_some() {
        world.insert_component(entity, transform.copy());
    }
    sync_component_to_ast(world, entity, transform);
}

/// A component that was put in is read back, and the component of every other type stays.
pub proof fn law_component_is_read_back(
    components: Seq<StructView>,
    c: StructView,
    other: Seq<char>,
)
    ensures
        ({
            let after = with_component(components, c);
            let at = component_index(after, c.type_path);
            let i = component_index(components, other);
            let j = component_index(after, other);
            &&& 0 <= at < after.len()
            &&& after[at] == c
            &&& other != c.type_path ==> (i < components.len()) == (j < after.len())
            &&& other != c.type_path && i < components.len() ==> after[j] == components[i]
        }),
{
    let after = with_component(components, c);
    let at = component_index(components, c.type_path);
    lemma_first_index(components, typed(c.type_path));
    assert forall|k: int| 0 <= k < at implies !typed(c.type_path)(#[trigger] after[k]) by {
        assert(!typed(c.type_path)(components[k]));
    }
    lemma_first_index_is(after, typed(c.type_path), at);
    if other != c.type_path {
        let i = component_index(components, other);
        lemma_first_index(components, typed(other));
        let j = if i < components.len() {
            i
        } else {
            after.len() as int
        };
        assert forall|k: int| 0 <= k < j implies !typed(other)(#[trigger] after[k]) by {
            if k < components.len() {
                assert(!typed(other)(components[k]));
            }
        }
        if i < components.len() {
            assert(typed(other)(components[i]));
            assert(i != at);
        }
        lemma_first_index_is(after, typed(other), j);
    }
}

/// A transform that replaced another is read back, the entity's other components stay, and so does
/// all else of it. Nothing else in the scene changes. When the document tracks the entity, its patch
/// of that type holds the transform.
pub proof fn law_transform_is_read_back(
    w: WorldView,
    e: Entity,
    transform: StructView,
    other: Seq<char>,
)
    requires
        w.held_component(e, transform.type_path) is Some,
    ensures
        ({
            let after = transformed(w, e, transform);
            &&& after.held_component(e, transform.type_path) == Some(transform)
            &&& other != transform.type_path ==> after.held_component(e, other)
                == w.held_component(e, other)
            &&& after.entities.dom() == w.entities.dom()
            &&& forall|x: Entity| x != e ==> #[trigger] after.entities[x] == w.entities[x]
            &&& after.entities[e].parent == w.entities[e].parent
            &&& after.entities[e].children == w.entities[e].children
            &&& after.entities[e].name == w.entities[e].name
            &&& after.entities[e].marks == w.entities[e].marks
            &&& after.selection == w.selection
            &&& w.doc.node_of(e) is Some && w.doc.nodes.contains_key(w.doc.node_of(e)->0)
                ==> after.doc.entity_patches(e).contains(PatchView::Struct(transform))
        }),
{
    law_component_is_read_back(w.components_of(e), transform, other);
    let after = transformed(w, e, transform);
    assert(after.entities.dom() =~= w.entities.dom());
    let patches = w.doc.entity_patches(e);
    let written = with_patch(patches, transform.type_path, PatchView::Struct(transform));
    lemma_first_index(patches, of_type(transform.type_path));
    let i = patch_index(patches, transform.type_path);
    assert(written[i] == PatchView::Struct(transform));
}

impl SetTransform {
    pub fn execute(&mut self, world: &mut SceneWorld)
        ensures
            final(world)@ == transformed(old(world)@, old(self).entity, old(self).new_transform@),
            *final(self) == *old(self),
    {
        write_transform(world, self.entity, &self.new_transform);
    }

    pub fn undo(&mut self, world: &mut SceneWorld)
        ensures
            final(world)@ == transformed(old(world)@, old(self).entity, old(self).old_transform@),
            *final(self) == *old(self),
    {
        write_transform(world, self.entity, &self.old_transform);
    }

    /// Writes the new transform into the document, when the live one is already there.
    pub fn sync_after_external_execute(&self, world: &mut SceneWorld)
        ensures
            final(world)@ == synced(old(world)@, self.entity, self.new_transform@),
    {
        sync_component_to_ast(world, self.entity, &self.new_transform);
    }

    pub fn description(&self) -> (r: &'static str)
        ensures
            r@ == "Set transform"@,
    {
        "Set transform"
    }
}

/// Adding a component that the entity did not carry, and undoing that, takes away exactly what
/// came: the live components and the patches of the document are as they were. In between, the
/// document has one patch more, that of the component, and none of what came along.
pub proof fn law_add_then_undo(w: WorldView, cmd: AddComponent, required: Seq<StructView>)
    requires
        w.alive(cmd.entity),
        w.doc.linked(),
        w.doc.node_of(cmd.entity) is Some,
        w.default_of(cmd.type_path@) is Some,
        !carries(w.components_of(cmd.entity), cmd.type_path@),
        !w.doc.authors(cmd.entity, cmd.type_path@),
        texts_view(cmd.required_companions@) == new_types(
            w.components_of(cmd.entity),
            cmd.components_after(w, required),
            cmd.type_path@,
        ),
    ensures
        cmd.undone(cmd.executed(w, required)).components_of(cmd.entity) == w.components_of(
            cmd.entity,
        ),
        cmd.undone(cmd.executed(w, required)).doc == w.doc,
        cmd.executed(w, required).doc.entity_patches(cmd.entity) == w.doc.entity_patches(
            cmd.entity,
        ).push(PatchView::Struct(w.default_of(cmd.type_path@)->0)),
{
    let e = cmd.entity;
    let own = cmd.type_path@;
    let d = w.default_of(own)->0;
    let base = w.components_of(e);
    lemma_first_index(base, typed(own));
    let start = base.push(d);
    lemma_missing_adds(w, base, d, required);
    let after = cmd.components_after(w, required);
    let mid = cmd.executed(w, required);
    // The live components.
    let added = new_types(base, after, own);
    lemma_drop_added(w, mid, base, d, required);
    let types = seq![own] + added;
    assert(mid.components_of(e) == after);
    let back = cmd.undone(mid);
    assert(back.components_of(e) == without_types(mid, after, types));
    // The document.
    let ps = w.doc.entity_patches(e);
    let patch = PatchView::Struct(d);
    let node = w.doc.node_of(e)->0;
    assert(w.doc.nodes.contains_key(node));
    lemma_first_index(ps, of_type(own));
    assert(with_patch(ps, own, patch) == ps.push(patch));
    lemma_first_index_is(ps.push(patch), of_type(own), ps.len() as int);
    assert(ps.push(patch).remove(ps.len() as int) =~= ps);
    assert(back.doc =~= w.doc);
}

/// The components that follow the own one after execute: those of `required` that were missing.
proof fn lemma_missing_adds(
    w: WorldView,
    base: Seq<StructView>,
    d: StructView,
    required: Seq<StructView>,
)
    requires
        !carries(base, d.type_path),
    ensures
        with_missing(w, base.push(d), required).len() >= base.len() + 1,
        with_missing(w, base.push(d), required).subrange(0, base.len() as int + 1) == base.push(d),
        forall|k: int|
            base.len() < k < with_missing(w, base.push(d), required).len() ==> {
                let t = (#[trigger] with_missing(w, base.push(d), required)[k]).type_path;
                &&& w.registered(t)
                &&& t != d.type_path
                &&& !carries(base, t)
                &&& forall|j: int|
                    0 <= j < k ==> (#[trigger] with_missing(w, base.push(d), required)[j]).type_path
                        != t
            },
    decreases required.len(),
{
    let start = base.push(d);
    let out = with_missing(w, start, required);
    if required.len() == 0 {
        assert(out.subrange(0, base.len() as int + 1) =~= start);
    } else {
        let init = required.drop_last();
        lemma_missing_adds(w, base, d, init);
        let before = with_missing(w, start, init);
        let last = required.last();
        lemma_first_index(before, typed(last.type_path));
        lemma_first_index(base, typed(last.type_path));
        if !carries(before, last.type_path) && w.registered(last.type_path) {
            assert(out.subrange(0, base.len() as int + 1) =~= before.subrange(0, base.len() as int + 1));
            assert forall|j: int| 0 <= j < before.len() implies (#[trigger] before[j]).type_path
                != last.type_path by {
                assert(!typed(last.type_path)(before[j]));
            }
            assert(before[base.len() as int] == d) by {
                assert(before.subrange(0, base.len() as int + 1)[base.len() as int] == d);
            }
            assert(!carries(base, last.type_path)) by {
                let k = component_index(base, last.type_path);
                if k < base.len() {
                    assert(before.subrange(0, base.len() as int + 1)[k] == base[k]);
                    assert(before[k].type_path == last.type_path);
                }
            }
        }
    }
}

/// Dropping the types that came with execute leaves the components that were there.
proof fn lemma_drop_added(
    w: WorldView,
    mid: WorldView,
    base: Seq<StructView>,
    d: StructView,
    required: Seq<StructView>,
)
    requires
        !carries(base, d.type_path),
        w.registered(d.type_path),
        mid.types == w.types,
    ensures
        ({
            let after = with_missing(w, base.push(d), required);
            without_types(mid, after, seq![d.type_path] + new_types(base, after, d.type_path))
                == base
        }),
{
    let own = d.type_path;
    let after = with_missing(w, base.push(d), required);
    lemma_missing_adds(w, base, d, required);
    assert(after[base.len() as int] == d) by {
        assert(after.subrange(0, base.len() as int + 1)[base.len() as int] == d);
    }
    assert forall|j: int| 0 <= j < base.len() implies after[j] == base[j] by {
        assert(after.subrange(0, base.len() as int + 1)[j] == base[j]);
    }
    // The new types are those behind the own component, in order.
    lemma_new_types(base, after, own, after.len() as int);
    let tail = Seq::new(
        (after.len() - base.len() - 1) as nat,
        |k: int| after[base.len() + 1 + k].type_path,
    );
    assert(new_types(base, after, own) == tail) by {
        assert(after.subrange(0, after.len() as int) =~= after);
        assert(tail.subrange(0, tail.len() as int) =~= tail);
    }
    let types = seq![own] + tail;
    lemma_first_index(base, typed(own));
    lemma_drop_prefix(w, mid, base, after, types, types.len() as int);
    assert(types.subrange(0, types.len() as int) =~= types);
    assert(base + after.subrange(base.len() as int + types.len(), after.len() as int) =~= base);
}

/// The new types among the first `n` components are those behind the own one.
proof fn lemma_new_types(
    base: Seq<StructView>,
    after: Seq<StructView>,
    own: Seq<char>,
    n: int,
)
    requires
        base.len() < n <= after.len(),
        after[base.len() as int].type_path == own,
        forall|j: int| 0 <= j < base.len() ==> (#[trigger] after[j]) == base[j],
        forall|k: int|
            base.len() < k < after.len() ==> (#[trigger] after[k]).type_path != own && !carries(
                base,
                after[k].type_path,
            ),
    ensures
        new_types(base, after.subrange(0, n), own) == Seq::new(
            (n - base.len() - 1) as nat,
            |k: int| after[base.len() + 1 + k].type_path,
        ),
    decreases n,
{
    let cut = after.subrange(0, n);
    assert(cut.drop_last() =~= after.subrange(0, n - 1));
    assert(cut.last() == after[n - 1]);
    let expect = Seq::new(
        (n - base.len() - 1) as nat,
        |k: int| after[base.len() + 1 + k].type_path,
    );
    if n - 1 > base.len() {
        lemma_new_types(base, after, own, n - 1);
        assert(new_types(base, cut, own) =~= expect);
    } else {
        lemma_new_types_none(base, after, own, n - 1);
        assert(expect =~= Seq::empty());
    }
}

/// The components that were there give no new type.
proof fn lemma_new_types_none(
    base: Seq<StructView>,
    after: Seq<StructView>,
    own: Seq<char>,
    n: int,
)
    requires
        0 <= n <= base.len() <= after.len(),
        forall|j: int| 0 <= j < base.len() ==> (#[trigger] after[j]) == base[j],
    ensures
        new_types(base, after.subrange(0, n), own) == Seq::<Seq<char>>::empty(),
    decreases n,
{
    let cut = after.subrange(0, n);
    if n > 0 {
        assert(cut.drop_last() =~= after.subrange(0, n - 1));
        assert(cut.last() == base[n - 1]);
        lemma_new_types_none(base, after, own, n - 1);
        let t = base[n - 1].type_path;
        lemma_first_index(base, typed(t));
        if !carries(base, t) {
            assert(!typed(t)(base[n - 1]));
        }
    } else {
        assert(cut =~= Seq::empty());
    }
}

/// Dropping the first `n` of the added types removes the first `n` added components.
proof fn lemma_drop_prefix(
    w: WorldView,
    mid: WorldView,
    base: Seq<StructView>,
    after: Seq<StructView>,
    types: Seq<Seq<char>>,
    n: int,
)
    requires
        mid.types == w.types,
        base.len() + types.len() == after.len(),
        0 <= n <= types.len(),
        forall|j: int| 0 <= j < base.len() ==> (#[trigger] after[j]) == base[j],
        forall|k: int|
            0 <= k < types.len() ==> {
                &&& #[trigger] types[k] == after[base.len() + k].type_path
                &&& w.registered(types[k])
                &&& !carries(base, types[k])
            },
    ensures
        without_types(mid, after, types.subrange(0, n)) == base + after.subrange(
            base.len() + n,
            after.len() as int,
        ),
    decreases n,
{
    let cut = types.subrange(0, n);
    if n == 0 {
        assert(base + after.subrange(base.len() as int, after.len() as int) =~= after);
    } else {
        assert(cut.drop_last() =~= types.subrange(0, n - 1));
        assert(cut.last() == types[n - 1]);
        lemma_drop_prefix(w, mid, base, after, types, n - 1);
        let rest = base + after.subrange(base.len() + n - 1, after.len() as int);
        let t = types[n - 1];
        lemma_first_index(base, typed(t));
        assert(rest[base.len() as int] == after[base.len() + n - 1]);
        assert forall|j: int| 0 <= j < base.len() implies !typed(t)(#[trigger] rest[j]) by {
            assert(rest[j] == base[j]);
            assert(!typed(t)(base[j]));
        }
        lemma_first_index_is(rest, typed(t), base.len() as int);
        assert(rest.remove(base.len() as int) =~= base + after.subrange(
            base.len() + n,
            after.len() as int,
        ));
    }
}

/// Adding a project component and undoing that leaves the document as it was.
pub proof fn law_project_add_then_undo(
    w: WorldView,
    cmd: AddProjectComponent,
    done: AddProjectComponent,
)
    requires
        w.doc.linked(),
        done.entity == cmd.entity,
        done.type_path@ == cmd.type_path@,
        done.added == cmd.adds(w),
    ensures
        done.undone(cmd.executed(w)).doc == w.doc,
{
    if cmd.adds(w) {
        let e = cmd.entity;
        let own = cmd.type_path@;
        let ps = w.doc.entity_patches(e);
        let node = w.doc.node_of(e)->0;
        assert(w.doc.nodes.contains_key(node));
        lemma_first_index(ps, of_type(own));
        lemma_first_index_is(ps.push(empty_struct(own)), of_type(own), ps.len() as int);
        assert(ps.push(empty_struct(own)).remove(ps.len() as int) =~= ps);
        assert(done.undone(cmd.executed(w)).doc =~= w.doc);
    }
}

/// Removing a component and undoing that puts it back on the entity with its snapshot, and its
/// patch back into the document, behind the others, which keep their order.
pub proof fn law_remove_then_undo(w: WorldView, cmd: RemoveComponent, done: RemoveComponent)
    requires
        w.alive(cmd.entity),
        w.doc.linked(),
        w.registered(cmd.type_path@),
        w.component(cmd.entity, cmd.type_path@) == Some(cmd.snapshot@),
        w.doc.authors(cmd.entity, cmd.type_path@),
        // No second patch or component of the type.
        !has_patch(
            without_patch(w.doc.entity_patches(cmd.entity), cmd.type_path@),
            cmd.type_path@,
        ),
        !carries(
            without_component(w.components_of(cmd.entity), cmd.type_path@),
            cmd.type_path@,
        ),
        done.entity == cmd.entity,
        done.type_path@ == cmd.type_path@,
        done.snapshot@ == cmd.snapshot@,
        patch_of(done.ast_snapshot) == cmd.kept_patch(w),
    ensures
        ({
            let back = done.undone(cmd.executed(w));
            &&& back.component(cmd.entity, cmd.type_path@) == Some(cmd.snapshot@)
            &&& back.doc.entity_patches(cmd.entity) == without_patch(
                w.doc.entity_patches(cmd.entity),
                cmd.type_path@,
            ).push(cmd.kept_patch(w)->0)
        }),
{
    let e = cmd.entity;
    let tp = cmd.type_path@;
    let cs = w.components_of(e);
    lemma_first_index(cs, typed(tp));
    assert(cmd.snapshot@.type_path == tp);
    let rest = without_component(cs, tp);
    lemma_first_index(rest, typed(tp));
    lemma_first_index_is(rest.push(cmd.snapshot@), typed(tp), rest.len() as int);
    let node = w.doc.node_of(e)->0;
    assert(w.doc.nodes.contains_key(node));
    let mid = cmd.executed(w);
    assert(mid.components_of(e) == rest);
    assert(mid.doc.entity_patches(e) == without_patch(w.doc.entity_patches(e), tp));
    let back = done.undone(mid);
    assert(back.components_of(e) == rest.push(cmd.snapshot@));
}

/// The components that a type requires are put behind those that are there, unless one of their type
/// is: nothing that is there changes, and nothing else is added.
pub proof fn law_required_components_are_added(
    w: WorldView,
    components: Seq<StructView>,
    required: Seq<StructView>,
    i: int,
)
    ensures
        ({
            let after = with_missing(w, components, required);
            &&& components.len() <= after.len()
            &&& forall|k: int| 0 <= k < components.len() ==> #[trigger] after[k] == components[k]
            &&& forall|k: int|
                components.len() <= k < after.len() ==> required.contains(#[trigger] after[k])
            &&& 0 <= i < required.len() && w.registered(required[i].type_path) ==> exists|k: int|
                0 <= k < after.len() && (#[trigger] after[k]).type_path == required[i].type_path
        }),
    decreases required.len(),
{
    if required.len() > 0 {
        let init = required.drop_last();
        let last = required.last();
        law_required_components_are_added(w, components, init, i);
        let before = with_missing(w, components, init);
        let after = with_missing(w, components, required);
        assert(required[required.len() - 1] == last);
        assert forall|k: int| components.len() <= k < after.len() implies required.contains(
            #[trigger] after[k],
        ) by {
            if k < before.len() {
                assert(after[k] == before[k]);
                assert(init.contains(before[k]));
                let j = choose|j: int| 0 <= j < init.len() && init[j] == before[k];
                assert(required[j] == before[k]);
            }
        }
        if 0 <= i < init.len() && w.registered(required[i].type_path) {
            assert(init[i] == required[i]);
            let k = choose|k: int|
                0 <= k < before.len() && (#[trigger] before[k]).type_path == required[i].type_path;
            assert(after[k] == before[k]);
        }
        if i == required.len() - 1 && w.registered(last.type_path) {
            lemma_first_index(before, typed(last.type_path));
            if carries(before, last.type_path) {
                let k = component_index(before, last.type_path);
                assert(typed(last.type_path)(before[k]));
                assert(after[k].type_path == last.type_path);
            } else {
                assert(after[before.len() as int].type_path == last.type_path);
            }
        }
    }
}

/// The inspector of an entity is rebuilt after a component of it was added for the project, and after
/// adding one was undone.
pub proof fn law_inspector_is_rebuilt(
    w: WorldView,
    add: AddComponent,
    project: AddProjectComponent,
)
    requires
        w.alive(add.entity),
        w.alive(project.entity),
    ensures
        add.undone(w).entities[add.entity].marks.inspector_dirty,
        project.adds(w) ==> project.executed(w).entities[project.entity].marks.inspector_dirty,
        project.added ==> project.undone(w).entities[project.entity].marks.inspector_dirty,
        !project.adds(w) ==> project.executed(w) == w,
{
}

/// A component that was removed is no longer on the entity, where it was there once, and every other
/// one is as it was.
pub proof fn law_removed_component_is_gone(w: WorldView, cmd: RemoveComponent, other: Seq<char>)
    requires
        w.alive(cmd.entity),
        w.registered(cmd.type_path@),
        forall|i: int, j: int|
            0 <= i < j < w.components_of(cmd.entity).len() ==> (#[trigger] w.components_of(
                cmd.entity,
            )[i]).type_path != (#[trigger] w.components_of(cmd.entity)[j]).type_path,
    ensures
        cmd.executed(w).held_component(cmd.entity, cmd.type_path@) is None,
        other != cmd.type_path@ ==> cmd.executed(w).held_component(cmd.entity, other)
            == w.held_component(cmd.entity, other),
{
    let before = w.components_of(cmd.entity);
    let own = cmd.type_path@;
    let after = without_component(before, own);
    let i = component_index(before, own);
    lemma_first_index(before, typed(own));
    assert forall|j: int| 0 <= j < after.len() implies !typed(own)(#[trigger] after[j]) by {
        if i < before.len() && j >= i {
            assert(after[j] == before[j + 1]);
            assert(before[i].type_path != before[j + 1].type_path);
        } else {
            assert(after[j] == before[j]);
        }
    }
    lemma_first_index_is(after, typed(own), after.len() as int);
    if other != own {
        let p = typed(other);
        lemma_first_index(before, p);
        let k = component_index(before, other);
        let at = if k < before.len() {
            if i < before.len() && k > i {
                k - 1
            } else {
                k
            }
        } else {
            after.len() as int
        };
        assert forall|j: int| 0 <= j < at implies !p(#[trigger] after[j]) by {
            if i < before.len() && j >= i {
                assert(after[j] == before[j + 1]);
                if j + 1 < k {
                    assert(!p(before[j + 1]));
                }
            } else {
                assert(after[j] == before[j]);
                assert(!p(before[j]));
            }
        }
        if k < before.len() {
            assert(p(before[k]));
            assert(after[at] == before[k]);
        }
        lemma_first_index_is(after, p, at);
    }
}

} // verus!
