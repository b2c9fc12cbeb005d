//! Selecting, spawning and despawning entities with everything below them.
use vstd::prelude::*;
use crate::document::{DocView, SceneBsnAst};
use crate::naming::decimal;
use crate::patch::{is_name, name_in, PatchView};
use crate::registration::{
    enrolled, law_entered_is_tracked, node_above, patches_for, register_entity_in_ast, with_node,
};
use crate::seqs::{contains, filter_out, lemma_first_index_is, without_all};
use crate::text::text_of;
use crate::value::Entity;
use crate::world::{Marks, RecordView, SceneWorld, WorldView};

verus! {

broadcast use vstd::std_specs::hash::group_hash_axioms;

/// Whether a walk down the hierarchy goes on to a child. Dead children are never followed; a walk
/// for saving leaves out the editor's own entities and those made at run time.
pub open spec fn follows(w: WorldView, child: Entity, all: bool) -> bool {
    &&& w.alive(child)
    &&& all || !(w.entities[child].marks.editor_entity
        || w.entities[child].marks.non_serializable)
}

/// An entity and what is below it, each parent before its children, down to `depth` levels.
pub open spec fn preorder(w: WorldView, e: Entity, all: bool, depth: nat) -> Seq<Entity>
    decreases depth, 0nat,
{
    if depth == 0 {
        seq![e]
    } else {
        seq![e] + preorder_all(w, w.children_of(e), all, (depth - 1) as nat)
    }
}

/// The walks from each of `children` that is followed, one after the other.
pub open spec fn preorder_all(
    w: WorldView,
    children: Seq<Entity>,
    all: bool,
    depth: nat,
) -> Seq<Entity>
    decreases depth, children.len() + 1,
{
    if children.len() == 0 {
        Seq::empty()
    } else {
        let before = preorder_all(w, children.drop_last(), all, depth);
        if follows(w, children.last(), all) {
            before + preorder(w, children.last(), all, depth)
        } else {
            before
        }
    }
}

/// A walk down the hierarchy.
fn walk(world: &SceneWorld, e: Entity, all: bool, depth: usize, out: &mut Vec<Entity>)
    ensures
        final(out)@ == old(out)@ + preorder(world@, e, all, depth as nat),
    decreases depth, 0nat,
{
    let ghost start = out@;
    out.push(e);
    if depth > 0 {
        let children: Vec<Entity> = world.children(e);
        walk_children(world, &children, all, depth - 1, out);
    }
    assert(out@ =~= start + preorder(world@, e, all, depth as nat));
}

/// Walks from each of `children` that is followed.
fn walk_children(
    world: &SceneWorld,
    children: &Vec<Entity>,
    all: bool,
    depth: usize,
    out: &mut Vec<Entity>,
)
    ensures
        final(out)@ == old(out)@ + preorder_all(world@, children@, all, depth as nat),
    decreases depth, 1nat,
{
    let ghost start = out@;
    let mut i: usize = 0;
    assert(children@.subrange(0, 0) =~= Seq::empty());
    assert(out@ =~= start + preorder_all(world@, children@.subrange(0, 0), all, depth as nat));
    while i < children.len()
        invariant
            i <= children.len(),
            out@ == start + preorder_all(
                world@,
                children@.subrange(0, i as int),
                all,
                depth as nat,
            ),
        decreases children.len() - i,
    {
        proof {
            assert(children@.subrange(0, i + 1).drop_last() =~= children@.subrange(0, i as int));
            assert(children@.subrange(0, i + 1).last() == children@[i as int]);
        }
        let child: Entity = children[i];
        let marks: Marks = world.marks(child);
        let ghost before = preorder_all(
            world@,
            children@.subrange(0, i as int),
            all,
            depth as nat,
        );
        if world.is_alive(child) && (all || !(marks.editor_entity || marks.non_serializable)) {
            walk(world, child, all, depth, out);
            assert(out@ =~= start + (before + preorder(world@, child, all, depth as nat)));
        }
        i = i + 1;
    }
    assert(children@.subrange(0, i as int) =~= children@);
}

/// The entities that are saved with `entity`: itself and what is below it, without the editor's own
/// entities, those made at run time, and dead references.
pub fn collect_entity_ids(world: &SceneWorld, entity: Entity, out: &mut Vec<Entity>)
    ensures
        final(out)@ == old(out)@ + preorder(world@, entity, false, world@.entities.len()),
{
    let depth: usize = world.entities.len();
    assert(world@.entities.dom() =~= world.entities@.dom());
    walk(world, entity, false, depth, out);
}

/// Whether `rank` falls from every entity to its children, so that the hierarchy has no cycle.
pub open spec fn ranked(w: WorldView, rank: spec_fn(Entity) -> nat) -> bool {
    forall|e: Entity, i: int|
        w.alive(e) && 0 <= i < w.children_of(e).len() ==> rank(#[trigger] w.children_of(e)[i])
            < rank(e)
}

/// In a hierarchy without a cycle a walk that may go as deep as the entity's rank finds everything:
/// going deeper finds the same.
pub proof fn law_walk_is_complete(
    w: WorldView,
    rank: spec_fn(Entity) -> nat,
    e: Entity,
    all: bool,
    depth: nat,
    more: nat,
)
    requires
        ranked(w, rank),
        rank(e) <= depth <= more,
    ensures
        preorder(w, e, all, depth) == preorder(w, e, all, more),
    decreases rank(e), 0nat,
{
    let children = w.children_of(e);
    if depth == 0 {
        if more > 0 {
            assert(children =~= Seq::empty()) by {
                if children.len() > 0 {
                    assert(rank(w.children_of(e)[0]) < rank(e));
                }
            }
            assert(seq![e] + Seq::<Entity>::empty() =~= seq![e]);
        }
    } else {
        assert forall|i: int| 0 <= i < children.len() implies rank(#[trigger] children[i])
            < rank(e) by {
            assert(rank(w.children_of(e)[i]) < rank(e));
        }
        lemma_walks_complete(w, rank, e, children, all, (depth - 1) as nat, (more - 1) as nat);
    }
}

proof fn lemma_walks_complete(
    w: WorldView,
    rank: spec_fn(Entity) -> nat,
    e: Entity,
    children: Seq<Entity>,
    all: bool,
    depth: nat,
    more: nat,
)
    requires
        ranked(w, rank),
        rank(e) <= depth + 1,
        depth <= more,
        forall|i: int| 0 <= i < children.len() ==> rank(#[trigger] children[i]) < rank(e),
    ensures
        preorder_all(w, children, all, depth) == preorder_all(w, children, all, more),
    decreases rank(e), 0nat, children.len(),
{
    if children.len() > 0 {
        let init = children.drop_last();
        assert forall|i: int| 0 <= i < init.len() implies rank(#[trigger] init[i]) < rank(e) by {
            assert(init[i] == children[i]);
        }
        lemma_walks_complete(w, rank, e, init, all, depth, more);
        assert(rank(children[children.len() - 1]) < rank(e));
        law_walk_is_complete(w, rank, children.last(), all, depth, more);
    }
}

/// The scene with the selection mark taken off each of `entities` that is alive.
pub open spec fn unmarked(w: WorldView, entities: Seq<Entity>) -> WorldView
    decreases entities.len(),
{
    if entities.len() == 0 {
        w
    } else {
        let before = unmarked(w, entities.drop_last());
        let e = entities.last();
        before.with_record(
            e,
            RecordView {
                marks: Marks { selected: false, ..before.entities[e].marks },
                ..before.entities[e]
            },
        )
    }
}

/// Whether two records agree but for the selection mark.
pub open spec fn same_but_selected(a: RecordView, b: RecordView) -> bool {
    a == (RecordView { marks: Marks { selected: a.marks.selected, ..b.marks }, ..b })
}

/// Taking selection marks off changes nothing else.
pub proof fn lemma_unmarked_keeps(w: WorldView, entities: Seq<Entity>, x: Entity)
    ensures
        unmarked(w, entities).doc == w.doc,
        unmarked(w, entities).alive(x) == w.alive(x),
        w.alive(x) ==> same_but_selected(unmarked(w, entities).entities[x], w.entities[x]),
    decreases entities.len(),
{
    if entities.len() > 0 {
        lemma_unmarked_keeps(w, entities.drop_last(), x);
    }
}

/// The scene with entities taken out of the selection.
pub open spec fn deselected(w: WorldView, entities: Seq<Entity>) -> WorldView {
    WorldView { selection: without_all(w.selection, entities), ..unmarked(w, entities) }
}

/// Takes entities out of the selection. Called before entities are despawned, so that the selection
/// keeps no dead ids.
pub fn deselect_entities(world: &mut SceneWorld, entities: &Vec<Entity>)
    ensures
        final(world)@ == deselected(old(world)@, entities@),
        final(world).document == old(world).document,
{
    let ghost start = world@;
    let mut i: usize = 0;
    assert(entities@.subrange(0, 0) =~= Seq::empty());
    while i < entities.len()
        invariant
            i <= entities.len(),
            world@ == unmarked(start, entities@.subrange(0, i as int)),
            world@.selection == start.selection,
            world.document == old(world).document,
        decreases entities.len() - i,
    {
        proof {
            assert(entities@.subrange(0, i + 1).drop_last() =~= entities@.subrange(0, i as int));
            assert(entities@.subrange(0, i + 1).last() == entities@[i as int]);
        }
        let marks: Marks = world.marks(entities[i]);
        let marks: Marks = Marks { selected: false, ..marks };
        world.set_marks(entities[i], marks);
        i = i + 1;
    }
    assert(entities@.subrange(0, i as int) =~= entities@);
    world.selection = filter_out(&world.selection, entities);
    assert(world@ =~= deselected(old(world)@, entities@));
}

/// A node and what is below it in the document, down to `depth` levels.
pub open spec fn node_preorder(doc: DocView, n: Entity, depth: nat) -> Seq<Entity>
    decreases depth, 0nat,
{
    if depth == 0 || !doc.nodes.contains_key(n) {
        seq![n]
    } else {
        seq![n] + node_preorder_all(doc, doc.nodes[n].children, (depth - 1) as nat)
    }
}

/// The nodes at and below each of `children`, one after the other.
pub open spec fn node_preorder_all(doc: DocView, children: Seq<Entity>, depth: nat) -> Seq<Entity>
    decreases depth, children.len() + 1,
{
    if children.len() == 0 {
        Seq::empty()
    } else {
        node_preorder_all(doc, children.drop_last(), depth) + node_preorder(
            doc,
            children.last(),
            depth,
        )
    }
}

impl DocView {
    /// The links that do not lead to one of `gone`.
    pub open spec fn links_without(self, gone: Seq<Entity>) -> Map<Entity, Entity> {
        Map::new(
            |e: Entity| self.links.contains_key(e) && !gone.contains(self.links[e]),
            |e: Entity| self.links[e],
        )
    }

    /// The document without the node of an entity and what is below it.
    pub open spec fn deleted(self, e: Entity) -> DocView {
        match self.node_of(e) {
            Some(n) => {
                let gone = node_preorder(self, n, self.nodes.len());
                let cut = self.detached(n);
                DocView {
                    nodes: cut.nodes.remove_keys(gone.to_set()),
                    links: self.links_without(gone),
                    roots: cut.roots,
                }
            },
            None => self,
        }
    }
}

/// The scene without an entity and what is below it, live and in the document.
pub open spec fn despawned(w: WorldView, e: Entity) -> WorldView {
    let gone = preorder(w, e, true, w.entities.len());
    let cut = w.unparented(e);
    WorldView {
        entities: if w.alive(e) {
            cut.entities.remove_keys(gone.to_set())
        } else {
            w.entities
        },
        doc: w.doc.deleted(e),
        ..w
    }
}

/// Despawning an entity without parent and children takes out nothing else.
pub proof fn lemma_despawned_leaf(w: WorldView, e: Entity)
    requires
        w.alive(e),
        w.entities[e].parent is None,
        w.entities[e].children.len() == 0,
    ensures
        despawned(w, e).entities == w.entities.remove(e),
        despawned(w, e).selection == w.selection,
        despawned(w, e).doc == w.doc.deleted(e),
{
    let gone = preorder(w, e, true, w.entities.len());
    let none = w.children_of(e);
    assert(none =~= Seq::empty());
    assert(gone =~= seq![e]) by {
        if w.entities.len() > 0 {
            assert(preorder_all(w, none, true, (w.entities.len() - 1) as nat) =~= Seq::empty());
        }
    }
    assert forall|x: Entity| gone.to_set().contains(x) <==> x == e by {
        if gone.contains(x) {
            let i = choose|i: int| 0 <= i < gone.len() && gone[i] == x;
            assert(gone[i] == e);
        }
        assert(gone[0] == e);
    }
    assert(w.unparented(e) == w);
    assert(despawned(w, e).entities =~= w.entities.remove(e));
}

fn walk_nodes(doc: &SceneBsnAst, n: Entity, depth: usize, out: &mut Vec<Entity>)
    ensures
        final(out)@ == old(out)@ + node_preorder(doc@, n, depth as nat),
    decreases depth, 0nat,
{
    let ghost start = out@;
    out.push(n);
    if depth > 0 {
        let children: Vec<Entity> = doc.get_children_ast(n);
        walk_child_nodes(doc, &children, depth - 1, out);
    }
    assert(out@ =~= start + node_preorder(doc@, n, depth as nat));
}

fn walk_child_nodes(
    doc: &SceneBsnAst,
    children: &Vec<Entity>,
    depth: usize,
    out: &mut Vec<Entity>,
)
    ensures
        final(out)@ == old(out)@ + node_preorder_all(doc@, children@, depth as nat),
    decreases depth, 1nat,
{
    let ghost start = out@;
    let mut i: usize = 0;
    assert(children@.subrange(0, 0) =~= Seq::empty());
    assert(out@ =~= start + node_preorder_all(doc@, children@.subrange(0, 0), depth as nat));
    while i < children.len()
        invariant
            i <= children.len(),
            out@ == start + node_preorder_all(doc@, children@.subrange(0, i as int), depth as nat),
        decreases children.len() - i,
    {
        proof {
            assert(children@.subrange(0, i + 1).drop_last() =~= children@.subrange(0, i as int));
            assert(children@.subrange(0, i + 1).last() == children@[i as int]);
        }
        let ghost before = node_preorder_all(doc@, children@.subrange(0, i as int), depth as nat);
        walk_nodes(doc, children[i], depth, out);
        assert(out@ =~= start + (before + node_preorder(doc@, children@[i as int], depth as nat)));
        i = i + 1;
    }
    assert(children@.subrange(0, i as int) =~= children@);
}

/// Takes the node of an entity and what is below it out of the document.
pub fn delete_entity_from_ast(doc: &mut SceneBsnAst, e: Entity)
    requires
        old(doc)@.consistent(),
    ensures
        final(doc)@ == old(doc)@.deleted(e),
        final(doc).next_node == old(doc).next_node,
{
    let n: Entity = match doc.ast_for(e) {
        Some(n) => n,
        None => {
            return ;
        },
    };
    let ghost before = doc@;
    let depth: usize = doc.nodes.len();
    assert(before.nodes.dom() =~= doc.nodes@.dom());
    let mut gone: Vec<Entity> = Vec::new();
    walk_nodes(doc, n, depth, &mut gone);
    assert(gone@ =~= node_preorder(before, n, before.nodes.len()));
    doc.detach_node(n);
    let ghost cut = doc@;
    assert forall|x: Entity| before.nodes.contains_key(x) implies cut.nodes.contains_key(x)
        && cut.nodes[x].entity == before.nodes[x].entity by {}
    let mut i: usize = 0;
    assert(cut.nodes.remove_keys(gone@.subrange(0, 0).to_set()) =~= cut.nodes);
    assert(before.links_without(gone@.subrange(0, 0)) =~= cut.links);
    while i < gone.len()
        invariant
            i <= gone.len(),
            before.consistent(),
            cut.nodes.dom() =~= before.nodes.dom(),
            forall|x: Entity| #[trigger]
                before.nodes.contains_key(x) ==> cut.nodes[x].entity == before.nodes[x].entity,
            doc@.nodes == cut.nodes.remove_keys(gone@.subrange(0, i as int).to_set()),
            doc@.links == before.links_without(gone@.subrange(0, i as int)),
            doc@.roots == cut.roots,
            doc.next_node == old(doc).next_node,
        decreases gone.len() - i,
    {
        let ghost nodes0 = doc@.nodes;
        let ghost links0 = doc@.links;
        let g: Entity = gone[i];
        proof {
            let a = gone@.subrange(0, i as int);
            let b = gone@.subrange(0, i + 1);
            assert(b =~= a.push(g));
            assert(forall|x: Entity| b.contains(x) <==> a.contains(x) || x == g) by {
                assert forall|x: Entity| b.contains(x) implies a.contains(x) || x == g by {
                    let k = choose|k: int| 0 <= k < b.len() && b[k] == x;
                    if k < i {
                        assert(a[k] == x);
                    }
                }
                assert forall|x: Entity| a.contains(x) || x == g implies b.contains(x) by {
                    if a.contains(x) {
                        let k = choose|k: int| 0 <= k < a.len() && a[k] == x;
                        assert(b[k] == x);
                    } else {
                        assert(b[i as int] == x);
                    }
                }
            }
            assert(nodes0.contains_key(g) ==> cut.nodes.contains_key(g));
            assert(nodes0.contains_key(g) ==> before.nodes.contains_key(g));
            if nodes0.contains_key(g) {
                assert(nodes0[g] == doc.nodes@[g]@);
                assert(nodes0[g] == cut.nodes[g]);
            }
        }
        doc.forget_node(g);
        assert(doc@.nodes =~= nodes0.remove(g));
        assert(doc@.nodes =~= cut.nodes.remove_keys(gone@.subrange(0, i + 1).to_set()));
        assert(doc@.links =~= before.links_without(gone@.subrange(0, i + 1)));
        i = i + 1;
    }
    assert(gone@.subrange(0, i as int) =~= gone@);
    assert(doc@ =~= before.deleted(e));
}

/// Takes an entity and what is below it out of the document and out of the live scene.
pub fn despawn_scene_entity(world: &mut SceneWorld, entity: Entity)
    requires
        old(world)@.doc.consistent(),
    ensures
        final(world)@ == despawned(old(world)@, entity),
{
    let ghost w = world@;
    delete_entity_from_ast(&mut world.document, entity);
    assert(world@ =~= w.with_doc(w.doc.deleted(entity)));
    if world.is_alive(entity) {
        let depth: usize = world.entities.len();
        assert(world@.entities.dom() =~= world.entities@.dom());
        let mut gone: Vec<Entity> = Vec::new();
        walk(world, entity, true, depth, &mut gone);
        proof {
            lemma_preorder_over(w, w.doc.deleted(entity), entity, depth as nat);
        }
        assert(gone@ =~= preorder(w, entity, true, w.entities.len()));
        world.unparent(entity);
        let ghost cut = world@;
        assert(cut.entities =~= w.unparented(entity).entities);
        let mut i: usize = 0;
        assert(cut.entities.remove_keys(gone@.subrange(0, 0).to_set()) =~= cut.entities);
        while i < gone.len()
            invariant
                i <= gone.len(),
                world@ == (WorldView {
                    entities: cut.entities.remove_keys(gone@.subrange(0, i as int).to_set()),
                    ..cut
                }),
            decreases gone.len() - i,
        {
            let g: Entity = gone[i];
            proof {
                let a = gone@.subrange(0, i as int);
                let b = gone@.subrange(0, i + 1);
                assert(b =~= a.push(g));
                assert forall|x: Entity| b.contains(x) implies a.contains(x) || x == g by {
                    let k = choose|k: int| 0 <= k < b.len() && b[k] == x;
                    if k < i {
                        assert(a[k] == x);
                    }
                }
                assert forall|x: Entity| a.contains(x) || x == g implies b.contains(x) by {
                    if a.contains(x) {
                        let k = choose|k: int| 0 <= k < a.len() && a[k] == x;
                        assert(b[k] == x);
                    } else {
                        assert(b[i as int] == x);
                    }
                }
            }
            let taken = world.take(g);
            assert(world@.entities =~= cut.entities.remove_keys(
                gone@.subrange(0, i + 1).to_set(),
            ));
            i = i + 1;
        }
        assert(gone@.subrange(0, i as int) =~= gone@);
    }
    assert(world@ =~= despawned(w, entity));
}

/// A walk looks at the live entities alone.
proof fn lemma_preorder_over(w: WorldView, doc: DocView, e: Entity, depth: nat)
    ensures
        preorder(w.with_doc(doc), e, true, depth) == preorder(w, e, true, depth),
    decreases depth, 0nat,
{
    if depth > 0 {
        lemma_preorder_all_over(w, doc, w.children_of(e), (depth - 1) as nat);
    }
}

proof fn lemma_preorder_all_over(w: WorldView, doc: DocView, children: Seq<Entity>, depth: nat)
    ensures
        preorder_all(w.with_doc(doc), children, true, depth) == preorder_all(
            w,
            children,
            true,
            depth,
        ),
    decreases depth, children.len() + 1,
{
    if children.len() > 0 {
        lemma_preorder_all_over(w, doc, children.drop_last(), depth);
        lemma_preorder_over(w, doc, children.last(), depth);
    }
}

/// The index in an entity's bits: the low half, inverted. Bits whose low half is zero are no
/// entity's.
pub open spec fn index_in(bits: u64) -> Option<u32> {
    let low = bits as u32;
    if low == 0 {
        None
    } else {
        Some(!low)
    }
}

/// The bits of the entity that stands for none.
pub const PLACEHOLDER_BITS: u64 = 1;

/// The text by which the engine shows an entity: its index and its generation, which is the high half
/// of the bits. There is none for bits that are no entity's.
pub open spec fn entity_text(bits: u64) -> Option<Seq<char>> {
    match index_in(bits) {
        Some(index) => Some(
            if bits == PLACEHOLDER_BITS {
                "PLACEHOLDER"@
            } else {
                decimal(index as nat) + "v"@ + decimal((bits >> 32) as nat)
            },
        ),
        None => None,
    }
}

/// `bevy::ecs::entity::Entity::try_from_bits` and the engine's display of the entity: the index, a
/// `v`, and the generation, or the word for the placeholder. Bits whose low half is zero give none.
#[verifier::external_body]
pub(crate) fn show_entity(bits: u64) -> (r: Option<String>)
    ensures
        text_of(r) == entity_text(bits),
{
    bevy::ecs::entity::Entity::try_from_bits(bits).map(|e| format!("{e}"))
}

/// What the outliner calls an entity: its name, or `Entity` and the text of its id.
pub open spec fn entity_label(w: WorldView, e: Entity) -> Seq<char> {
    match name_of(w, e) {
        Some(n) => n,
        None => match entity_text(e) {
            Some(t) => "Entity "@ + t,
            None => "Entity "@,
        },
    }
}

/// The name of an entity, if it is alive and has one.
pub open spec fn name_of(w: WorldView, e: Entity) -> Option<Seq<char>> {
    if w.alive(e) {
        w.entities[e].name
    } else {
        None
    }
}

/// What the outliner calls an entity.
pub fn label_of(world: &SceneWorld, entity: Entity) -> (r: String)
    ensures
        r@ == entity_label(world@, entity),
{
    match world.name(entity) {
        Some(n) => n,
        None => match show_entity(entity) {
            Some(t) => "Entity ".to_owned().concat(t.as_str()),
            None => "Entity ".to_owned(),
        },
    }
}

/// Remembers an entity that was spawned, so that undo can take it away.
#[derive(Debug)]
pub struct SpawnEntity {
    /// The spawned entity, once execute has run.
    pub spawned: Option<Entity>,
    pub label: String,
}

impl SpawnEntity {
    /// Records the entity that was spawned.
    pub fn execute(&mut self, entity: Entity)
        ensures
            final(self).spawned == Some(entity),
            final(self).label == old(self).label,
    {
        self.spawned = Some(entity);
    }

    /// Takes the spawned entity out of the selection and out of the scene.
    pub fn undo(&mut self, world: &mut SceneWorld)
        requires
            old(world)@.doc.consistent(),
        ensures
            final(self).spawned is None,
            final(self).label == old(self).label,
            final(world)@ == (match old(self).spawned {
                Some(e) => despawned(deselected(old(world)@, seq![e]), e),
                None => old(world)@,
            }),
    {
        let spawned: Option<Entity> = self.spawned.take();
        if let Some(e) = spawned {
            let mut one: Vec<Entity> = Vec::new();
            one.push(e);
            assert(one@ =~= seq![e]);
            deselect_entities(world, &one);
            despawn_scene_entity(world, e);
        }
    }

    pub fn description(&self) -> (r: String)
        ensures
            r == self.label,
    {
        self.label.clone()
    }
}

/// Despawns an entity with everything below it.
#[derive(Debug)]
pub struct DespawnEntity {
    pub entity: Entity,
    /// The entities that the snapshot for undo holds.
    pub snapshot: Vec<Entity>,
    pub parent: Option<Entity>,
    pub label: String,
}

/// The label of the command that despawns an entity.
pub open spec fn despawn_label(e: Entity) -> Seq<char> {
    match entity_text(e) {
        Some(t) => "Despawn entity "@ + t,
        None => "Despawn entity "@,
    }
}

impl DespawnEntity {
    pub fn from_world(world: &SceneWorld, entity: Entity) -> (r: DespawnEntity)
        ensures
            r.entity == entity,
            r.parent == world@.parent_of(entity),
            r.snapshot@ == preorder(world@, entity, false, world@.entities.len()),
            r.label@ == despawn_label(entity),
    {
        let mut snapshot: Vec<Entity> = Vec::new();
        collect_entity_ids(world, entity, &mut snapshot);
        assert(snapshot@ =~= preorder(world@, entity, false, world@.entities.len()));
        let shown: Option<String> = show_entity(entity);
        let label: String = "Despawn entity ".to_owned();
        let label: String = match shown {
            Some(t) => label.concat(t.as_str()),
            None => label,
        };
        DespawnEntity { entity, snapshot, parent: world.parent(entity), label }
    }

    /// Takes the entity out of the selection and out of the scene.
    pub fn execute(&mut self, world: &mut SceneWorld)
        requires
            old(world)@.doc.consistent(),
        ensures
            *final(self) == *old(self),
            final(world)@ == despawned(
                deselected(old(world)@, seq![old(self).entity]),
                old(self).entity,
            ),
    {
        let mut one: Vec<Entity> = Vec::new();
        one.push(self.entity);
        assert(one@ =~= seq![self.entity]);
        deselect_entities(world, &one);
        despawn_scene_entity(world, self.entity);
    }

    /// Follows the entity to the id that it has after the snapshot was written back, and enters it
    /// into the document.
    pub fn undo(&mut self, world: &mut SceneWorld, respawned: Option<Entity>)
        requires
            old(world).document.wf(),
            old(world).document.next_node < u64::MAX,
        ensures
            final(self).entity == returning(old(self).entity, respawned),
            enrolled(old(world)@, final(world)@, final(self).entity),
            final(world).document.wf(),
            final(world).document.next_node == old(world).document.next_node
                + crate::registration::nodes_added(old(world)@, final(self).entity),
            final(self).snapshot == old(self).snapshot,
            final(self).parent == old(self).parent,
            final(self).label == old(self).label,
    {
        if let Some(e) = respawned {
            self.entity = e;
        }
        register_entity_in_ast(world, self.entity);
    }

    pub fn description(&self) -> (r: String)
        ensures
            r == self.label,
    {
        self.label.clone()
    }
}

/// The patches of an entity that enters the document give its name.
proof fn lemma_patches_name(r: RecordView)
    ensures
        name_in(patches_for(r)) == r.name,
{
    let patches = patches_for(r);
    let p = is_name();
    match r.name {
        Some(n) => {
            assert(patches[0] == PatchView::Name(n));
            lemma_first_index_is(patches, p, 0);
        },
        None => {
            assert forall|i: int| 0 <= i < patches.len() implies !p(#[trigger] patches[i]) by {
                assert(patches[i] == PatchView::Struct(r.components[i]));
            }
            lemma_first_index_is(patches, p, patches.len() as int);
        },
    }
}

/// After an entity was deleted the document does not track it.
proof fn lemma_deleted_is_untracked(doc: DocView, e: Entity)
    ensures
        !doc.deleted(e).links.contains_key(e),
{
    if let Some(n) = doc.node_of(e) {
        let gone = node_preorder(doc, n, doc.nodes.len());
        assert(gone[0] == n);
        assert(gone.contains(n));
    }
}

/// An entity whose deletion is undone is in the document again, under the id that it comes back with:
/// with its name and every component that it was written back with, which are those that it had. No
/// other entity's patches change by that.
pub proof fn law_deletion_undone(
    w: WorldView,
    e: Entity,
    back: WorldView,
    after: WorldView,
    respawned: Option<Entity>,
    other: Entity,
)
    requires
        w.alive(e),
        w.doc.consistent(),
        back.doc == despawned(deselected(w, seq![e]), e).doc,
        respawned matches Some(n) ==> !w.doc.links.contains_key(n),
        ({
            let now = returning(e, respawned);
            &&& back.alive(now)
            &&& back.entities[now].name == w.entities[e].name
            &&& back.entities[now].components == w.entities[e].components
            &&& enrolled(back, after, now)
        }),
    ensures
        ({
            let now = returning(e, respawned);
            let patches = after.doc.entity_patches(now);
            &&& after.doc.node_of(now) is Some
            &&& name_in(patches) == w.entities[e].name
            &&& forall|i: int|
                0 <= i < w.entities[e].components.len() ==> patches.contains(
                    PatchView::Struct(#[trigger] w.entities[e].components[i]),
                )
            &&& other != now ==> after.doc.entity_patches(other) == back.doc.entity_patches(other)
        }),
{
    let now = returning(e, respawned);
    let r = back.entities[now];
    let cut = deselected(w, seq![e]);
    crate::entity_ops::lemma_unmarked_doc(w, seq![e]);
    lemma_deleted_is_untracked(cut.doc, e);
    crate::entity_ops::lemma_despawned_consistent(cut, e);
    let node = choose|node: Entity|
        !back.doc.nodes.contains_key(node) && after == back.with_doc(
            #[trigger] with_node(back.doc, now, node, patches_for(r), node_above(back, now)),
        );
    law_entered_is_tracked(
        back.doc,
        now,
        node,
        patches_for(r),
        node_above(back, now),
        other,
    );
    lemma_patches_name(r);
    let patches = patches_for(r);
    assert forall|i: int| 0 <= i < w.entities[e].components.len() implies patches.contains(
        PatchView::Struct(#[trigger] w.entities[e].components[i]),
    ) by {
        let at = i + if r.name is Some {
            1int
        } else {
            0int
        };
        assert(patches[at] == PatchView::Struct(r.components[i]));
    }
}

/// The id that an entity comes back with after its deletion was undone.
pub open spec fn returning(e: Entity, respawned: Option<Entity>) -> Entity {
    match respawned {
        Some(n) => n,
        None => e,
    }
}

/// A deselected entity is no longer selected, and every other one keeps its place.
pub proof fn law_deselect(w: WorldView, entities: Seq<Entity>, e: Entity)
    ensures
        deselected(w, entities).selection.contains(e) <==> w.selection.contains(e)
            && !entities.contains(e),
{
    crate::seqs::lemma_filter_contains(w.selection, crate::seqs::not_among(entities), e);
}

/// An entity is called by its name, and one without a name by a word and its id.
pub proof fn law_labels(w: WorldView, e: Entity, n: Seq<char>)
    ensures
        w.alive(e) && w.entities[e].name == Some(n) ==> entity_label(w, e) == n,
        !w.alive(e) || w.entities[e].name is None ==> "Entity "@.is_prefix_of(entity_label(w, e)),
{
    if let Some(t) = entity_text(e) {
        assert(("Entity "@ + t).subrange(0, "Entity "@.len() as int) =~= "Entity "@);
    }
    assert("Entity "@.subrange(0, "Entity "@.len() as int) =~= "Entity "@);
}

proof fn lemma_walk_follows(w: WorldView, e: Entity, all: bool, depth: nat, x: Entity)
    ensures
        preorder(w, e, all, depth).contains(x) ==> x == e || follows(w, x, all),
    decreases depth, 0nat,
{
    if depth > 0 {
        let rest = preorder_all(w, w.children_of(e), all, (depth - 1) as nat);
        lemma_walks_follow(w, w.children_of(e), all, (depth - 1) as nat, x);
        let found = preorder(w, e, all, depth);
        if found.contains(x) && x != e {
            let i = choose|i: int| 0 <= i < found.len() && found[i] == x;
            assert(rest[i - 1] == x);
        }
    }
}

proof fn lemma_walks_follow(
    w: WorldView,
    children: Seq<Entity>,
    all: bool,
    depth: nat,
    x: Entity,
)
    ensures
        preorder_all(w, children, all, depth).contains(x) ==> follows(w, x, all),
    decreases depth, children.len() + 1,
{
    if children.len() > 0 {
        let init = children.drop_last();
        let before = preorder_all(w, init, all, depth);
        lemma_walks_follow(w, init, all, depth, x);
        if follows(w, children.last(), all) {
            let last = preorder(w, children.last(), all, depth);
            lemma_walk_follows(w, children.last(), all, depth, x);
            let found = before + last;
            if found.contains(x) {
                let i = choose|i: int| 0 <= i < found.len() && found[i] == x;
                if i < before.len() {
                    assert(before[i] == x);
                } else {
                    assert(last[i - before.len()] == x);
                }
            }
        }
    }
}

proof fn lemma_followed_is_walked(
    w: WorldView,
    children: Seq<Entity>,
    all: bool,
    depth: nat,
    c: Entity,
)
    requires
        children.contains(c),
        follows(w, c, all),
    ensures
        preorder_all(w, children, all, depth).contains(c),
    decreases children.len(),
{
    let init = children.drop_last();
    let before = preorder_all(w, init, all, depth);
    let found = preorder_all(w, children, all, depth);
    if init.contains(c) {
        lemma_followed_is_walked(w, init, all, depth, c);
        let i = choose|i: int| 0 <= i < before.len() && before[i] == c;
        assert(found[i] == c);
    } else {
        let k = choose|k: int| 0 <= k < children.len() && children[k] == c;
        if k < init.len() {
            assert(init[k] == c);
        }
        assert(children.last() == c);
        assert(found[before.len() as int] == preorder(w, c, all, depth)[0]);
    }
}

/// What is saved with an entity is the entity itself, then live entities below it, its children among
/// them, but nothing of the editor's own and nothing made at run time.
pub proof fn law_saved_entities(w: WorldView, e: Entity, x: Entity)
    requires
        w.entities.len() > 0,
    ensures
        ({
            let saved = preorder(w, e, false, w.entities.len());
            &&& saved[0] == e
            &&& saved.contains(x) && x != e ==> w.alive(x) && !w.entities[x].marks.editor_entity
                && !w.entities[x].marks.non_serializable
            &&& w.children_of(e).contains(x) && w.alive(x) && !w.entities[x].marks.editor_entity
                && !w.entities[x].marks.non_serializable ==> saved.contains(x)
        }),
{
    lemma_walk_follows(w, e, false, w.entities.len(), x);
    let depth = (w.entities.len() - 1) as nat;
    let rest = preorder_all(w, w.children_of(e), false, depth);
    let saved = preorder(w, e, false, w.entities.len());
    if w.children_of(e).contains(x) && follows(w, x, false) {
        lemma_followed_is_walked(w, w.children_of(e), false, depth, x);
        let i = choose|i: int| 0 <= i < rest.len() && rest[i] == x;
        assert(saved[i + 1] == x);
    }
}

} // verus!
