//! Entering live entities into the scene document.
use vstd::prelude::*;
use crate::document::{DocView, NodeView, SceneBsnAst};
use crate::patch::{is_name, name_in, patches_view, BsnPatch, PatchView};
use crate::seqs::{lemma_filter_all, lemma_first_index_is, not_entity, without};
use crate::value::{BsnStructData, Entity, StructView};
use crate::world::{RecordView, SceneWorld, WorldView};

verus! {

/// The document with a new node for an entity: with these patches, and as the last one below
/// `parent` or among the roots.
pub open spec fn with_node(
    doc: DocView,
    e: Entity,
    node: Entity,
    patches: Seq<PatchView>,
    parent: Option<Entity>,
) -> DocView {
    let entry = NodeView { entity: Some(e), parent, children: Seq::empty(), patches };
    let links = doc.links.insert(e, node);
    match parent {
        Some(p) => DocView {
            nodes: doc.nodes.insert(
                p,
                NodeView { children: doc.nodes[p].children.push(node), ..doc.nodes[p] },
            ).insert(node, entry),
            links,
            roots: doc.roots,
        },
        None => DocView {
            nodes: doc.nodes.insert(node, entry),
            links,
            roots: doc.roots.push(node),
        },
    }
}

/// Gives an entity a new node.
pub fn enter_node(
    doc: &mut SceneBsnAst,
    e: Entity,
    patches: Vec<BsnPatch>,
    parent: Option<Entity>,
) -> (node: Entity)
    requires
        old(doc).wf(),
        old(doc).next_node < u64::MAX,
        parent matches Some(p) ==> old(doc)@.nodes.contains_key(p),
    ensures
        final(doc).wf(),
        !old(doc)@.nodes.contains_key(node),
        final(doc)@ == with_node(old(doc)@, e, node, patches_view(patches@), parent),
        final(doc).next_node == old(doc).next_node + 1,
{
    let ghost start = doc@;
    let ghost views = patches_view(patches@);
    let node: Entity = doc.create_entity_node(patches);
    doc.link(e, node);
    let last: usize = match parent {
        Some(p) => doc.get_children_ast(p).len(),
        None => doc.roots.len(),
    };
    doc.attach_node(node, parent, last);
    proof {
        match parent {
            Some(p) => {
                assert(start.nodes[p].children.insert(last as int, node)
                    =~= start.nodes[p].children.push(node));
            },
            None => {
                assert(start.roots.insert(last as int, node) =~= start.roots.push(node));
            },
        }
        assert(doc@ =~= with_node(start, e, node, views, parent));
    }
    node
}

/// The patches of an entity that enters the document: its name, and its components as they are.
pub open spec fn patches_for(r: RecordView) -> Seq<PatchView> {
    (match r.name {
        Some(n) => seq![PatchView::Name(n)],
        None => Seq::empty(),
    }) + Seq::new(r.components.len(), |i: int| PatchView::Struct(r.components[i]))
}

/// The node that the node of an entity goes below.
pub open spec fn node_above(w: WorldView, e: Entity) -> Option<Entity> {
    match w.entities[e].parent {
        Some(p) => w.doc.node_of(p),
        None => None,
    }
}

/// Whether a scene became another by entering a live entity into the document. An entity that is
/// there already stays as it is.
pub open spec fn enrolled(before: WorldView, after: WorldView, e: Entity) -> bool {
    if before.alive(e) && !before.doc.links.contains_key(e) {
        exists|node: Entity|
            !before.doc.nodes.contains_key(node) && after == before.with_doc(
                #[trigger] with_node(
                    before.doc,
                    e,
                    node,
                    patches_for(before.entities[e]),
                    node_above(before, e),
                ),
            )
    } else {
        after == before
    }
}

/// How many nodes entering an entity into the document adds.
pub open spec fn nodes_added(w: WorldView, e: Entity) -> int {
    if w.alive(e) && !w.doc.links.contains_key(e) {
        1
    } else {
        0
    }
}

fn component_patches(components: Vec<BsnStructData>, patches: &mut Vec<BsnPatch>)
    ensures
        patches_view(final(patches)@) == patches_view(old(patches)@) + Seq::new(
            components@.len(),
            |i: int| PatchView::Struct(components@[i]@),
        ),
{
    let ghost start = patches_view(patches@);
    let mut i: usize = 0;
    while i < components.len()
        invariant
            i <= components.len(),
            patches_view(patches@) =~= start + Seq::new(
                i as nat,
                |j: int| PatchView::Struct(components@[j]@),
            ),
        decreases components.len() - i,
    {
        let ghost before = patches_view(patches@);
        let patch: BsnPatch = BsnPatch::Struct(components[i].copy());
        assert(patch@ == PatchView::Struct(components@[i as int]@));
        patches.push(patch);
        assert(patches_view(patches@) =~= before.push(PatchView::Struct(components@[i as int]@)));
        i = i + 1;
    }
}

/// Enters a live entity into the document: a node with its name and its components, below the node of
/// its parent, or among the roots when the document has none for the parent.
pub fn register_entity_in_ast(world: &mut SceneWorld, e: Entity)
    requires
        old(world).document.wf(),
        old(world).document.next_node < u64::MAX,
    ensures
        enrolled(old(world)@, final(world)@, e),
        final(world).document.wf(),
        final(world).document.next_node == old(world).document.next_node + nodes_added(
            old(world)@,
            e,
        ),
{
    if !world.is_alive(e) || world.document.ast_for(e).is_some() {
        return;
    }
    let ghost w = world@;
    let mut patches: Vec<BsnPatch> = Vec::new();
    assert(patches_view(patches@) =~= Seq::empty());
    if let Some(name) = world.name(e) {
        patches.push(BsnPatch::Name(name));
        assert(patches_view(patches@) =~= seq![PatchView::Name(name@)]);
    }
    component_patches(world.copy_components(e), &mut patches);
    assert(patches_view(patches@) =~= patches_for(w.entities[e]));
    let parent: Option<Entity> = match world.parent(e) {
        Some(p) => world.document.ast_for(p),
        None => None,
    };
    assert(parent == node_above(w, e));
    let node: Entity = enter_node(&mut world.document, e, patches, parent);
    assert(world@ =~= w.with_doc(with_node(w.doc, e, node, patches_for(w.entities[e]), parent)));
}

/// Whether nothing in a document speaks of a node.
pub open spec fn is_unknown(doc: DocView, node: Entity) -> bool {
    &&& !doc.nodes.contains_key(node)
    &&& !doc.roots.contains(node)
    &&& forall|n: Entity| #[trigger]
        doc.nodes.contains_key(n) ==> !doc.nodes[n].children.contains(node)
}

/// Whether the roots and the children that a document lists are nodes of it.
pub open spec fn is_tidy(doc: DocView) -> bool {
    &&& forall|n: Entity| #[trigger] doc.roots.contains(n) ==> doc.nodes.contains_key(n)
    &&& forall|n: Entity, c: Entity|
        doc.nodes.contains_key(n) && #[trigger] doc.nodes[n].children.contains(c)
            ==> doc.nodes.contains_key(c)
}

/// An entity that entered the document is tracked there, with its patches, and every other entity
/// keeps its own.
pub proof fn law_entered_is_tracked(
    doc: DocView,
    e: Entity,
    node: Entity,
    patches: Seq<PatchView>,
    parent: Option<Entity>,
    other: Entity,
)
    requires
        !doc.nodes.contains_key(node),
        doc.linked(),
        parent matches Some(p) ==> doc.nodes.contains_key(p),
    ensures
        with_node(doc, e, node, patches, parent).node_of(e) == Some(node),
        with_node(doc, e, node, patches, parent).entity_patches(e) == patches,
        other != e ==> with_node(doc, e, node, patches, parent).entity_patches(other)
            == doc.entity_patches(other),
{
    if doc.links.contains_key(other) {
        assert(doc.nodes.contains_key(doc.links[other]));
    }
}

/// Deleting an entity that just entered the document gives the document from before.
pub proof fn law_entering_is_undone(
    doc: DocView,
    e: Entity,
    node: Entity,
    patches: Seq<PatchView>,
    parent: Option<Entity>,
)
    requires
        is_unknown(doc, node),
        doc.linked(),
        !doc.links.contains_key(e),
        parent matches Some(p) ==> doc.nodes.contains_key(p),
    ensures
        with_node(doc, e, node, patches, parent).deleted(e) == doc,
{
    let after = with_node(doc, e, node, patches, parent);
    let gone = crate::lifecycle::node_preorder(after, node, after.nodes.len());
    assert(gone =~= seq![node]) by {
        assert(after.nodes[node].children =~= Seq::empty());
        if after.nodes.len() > 0 {
            assert(crate::lifecycle::node_preorder_all(
                after,
                Seq::empty(),
                (after.nodes.len() - 1) as nat,
            ) =~= Seq::empty());
        }
    }
    assert(gone.contains(node)) by {
        assert(gone[0] == node);
    }
    assert forall|n: Entity| gone.to_set().contains(n) <==> n == node by {
        if gone.contains(n) {
            let i = choose|i: int| 0 <= i < gone.len() && gone[i] == n;
            assert(gone[i] == node);
        }
    }
    let back = after.deleted(e);
    assert forall|x: Entity| doc.links.contains_key(x) implies doc.links[x] != node by {
        assert(doc.nodes.contains_key(doc.links[x]));
    }
    assert(back.links =~= doc.links);
    match parent {
        Some(p) => {
            let children = doc.nodes[p].children;
            lemma_push_is_undone(children, node);
            assert(back.roots =~= doc.roots);
            assert(back.nodes =~= doc.nodes) by {
                assert(back.nodes[p] == doc.nodes[p]);
            }
        },
        None => {
            lemma_push_is_undone(doc.roots, node);
            assert(back.roots =~= doc.roots);
            assert(back.nodes =~= doc.nodes);
        },
    }
    assert(back =~= doc);
}

/// Deleting an entity that entered the document gives the document from before, whichever node it
/// had.
pub proof fn law_enrolling_is_undone(before: WorldView, after: WorldView, e: Entity)
    requires
        enrolled(before, after, e),
        before.alive(e),
        !before.doc.links.contains_key(e),
        before.doc.linked(),
        is_tidy(before.doc),
    ensures
        after.doc.node_of(e) is Some,
        after.doc.deleted(e) == before.doc,
{
    let node = choose|node: Entity|
        !before.doc.nodes.contains_key(node) && after == before.with_doc(
            #[trigger] with_node(
                before.doc,
                e,
                node,
                patches_for(before.entities[e]),
                node_above(before, e),
            ),
        );
    law_entering_is_undone(
        before.doc,
        e,
        node,
        patches_for(before.entities[e]),
        node_above(before, e),
    );
}

/// Taking out what was put at the end, and was not there before, gives the same list.
proof fn lemma_push_is_undone(s: Seq<Entity>, e: Entity)
    requires
        !s.contains(e),
    ensures
        without(s.push(e), e) == s,
{
    crate::seqs::lemma_filter_push(s, e, not_entity(e));
    assert forall|i: int| 0 <= i < s.len() implies not_entity(e)(#[trigger] s[i]) by {
        assert(s.contains(s[i]));
    }
    lemma_filter_all(s, not_entity(e));
}

/// An entity enters the document with its name and with each of its components as it is, and with
/// nothing else.
pub proof fn law_patches_of_an_entity(r: RecordView, c: StructView)
    ensures
        name_in(patches_for(r)) == r.name,
        patches_for(r).contains(PatchView::Struct(c)) <==> r.components.contains(c),
        patches_for(r).len() == r.components.len() + (if r.name is Some {
            1int
        } else {
            0
        }),
{
    let patches = patches_for(r);
    let p = is_name();
    let skipped: int = if r.name is Some {
        1
    } else {
        0
    };
    assert forall|i: int| 0 <= i < r.components.len() implies #[trigger] patches[i + skipped]
        == PatchView::Struct(r.components[i]) by {}
    if r.name is Some {
        assert(p(patches[0]));
        lemma_first_index_is(patches, p, 0);
    } else {
        assert forall|i: int| 0 <= i < patches.len() implies !p(#[trigger] patches[i]) by {
            assert(patches[i + skipped] == PatchView::Struct(r.components[i]));
        }
        lemma_first_index_is(patches, p, patches.len() as int);
    }
    if r.components.contains(c) {
        let i = choose|i: int| 0 <= i < r.components.len() && r.components[i] == c;
        assert(patches[i + skipped] == PatchView::Struct(c));
    }
    if patches.contains(PatchView::Struct(c)) {
        let i = choose|i: int| 0 <= i < patches.len() && patches[i] == PatchView::Struct(c);
        assert(patches[(i - skipped) + skipped] == PatchView::Struct(r.components[i - skipped]));
    }
}

} // verus!
