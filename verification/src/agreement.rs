//! Parents and children agree: what keeps it so, and what follows for a move that is undone.
use vstd::prelude::*;
use crate::brush::BrushView;
use crate::document::{at_most, DocView};
use crate::draw_brush::with_brush;
use crate::lifecycle::{despawned, law_walk_is_complete, preorder, preorder_all, ranked};
use crate::location::LocationView;
use crate::location_laws::{
    agrees, law_move_back_restores_document, law_move_back_restores_live, lemma_agreeing_is_listed,
    lemma_insert_then_without, lemma_located, lemma_moved, lemma_without_absent, lemma_without_once,
    node_after, node_index, once, record_after,
};
use crate::patch::PatchView;
use crate::registration::{is_unknown, with_node};
use crate::seqs::{
    is_entity, lemma_filter_contains, lemma_first_index, not_entity, position_of, without,
};
use crate::value::{Entity, StructView};
use crate::world::{Marks, WorldView};

verus! {

/// Taking one entity out of a sequence keeps another that occurs once.
proof fn lemma_once_without(s: Seq<Entity>, e: Entity, x: Entity)
    requires
        once(s, x),
        x != e,
    ensures
        once(without(s, e), x),
    decreases s.len(),
{
    let i = choose|i: int|
        0 <= i < s.len() && s[i] == x && forall|j: int| 0 <= j < s.len() && j != i ==> s[j] != x;
    let init = s.drop_last();
    let p = not_entity(e);
    assert(s =~= init.push(s.last()));
    crate::seqs::lemma_filter_push(init, s.last(), p);
    let rest = without(init, e);
    if i == s.len() - 1 {
        assert(!init.contains(x)) by {
            if init.contains(x) {
                let k = choose|k: int| 0 <= k < init.len() && init[k] == x;
                assert(s[k] == x);
            }
        }
        lemma_filter_contains(init, p, x);
        assert(without(s, e) == rest.push(x));
        assert(rest.push(x)[rest.len() as int] == x);
        assert forall|j: int| 0 <= j < rest.push(x).len() && j != rest.len() implies rest.push(x)[j]
            != x by {
            assert(rest.contains(rest[j]));
        }
    } else {
        assert(once(init, x)) by {
            assert(init[i] == x);
        }
        lemma_once_without(init, e, x);
        if s.last() != e {
            let k = choose|k: int|
                0 <= k < rest.len() && rest[k] == x && forall|j: int|
                    0 <= j < rest.len() && j != k ==> rest[j] != x;
            assert(rest.push(s.last())[k] == x);
            assert(s[s.len() - 1] != x);
        }
    }
}

/// Putting one entity into a sequence keeps another that occurs once.
proof fn lemma_once_insert(s: Seq<Entity>, at: int, e: Entity, x: Entity)
    requires
        once(s, x),
        x != e,
        0 <= at <= s.len(),
    ensures
        once(s.insert(at, e), x),
{
    let i = choose|i: int|
        0 <= i < s.len() && s[i] == x && forall|j: int| 0 <= j < s.len() && j != i ==> s[j] != x;
    let t = s.insert(at, e);
    let k = if i < at {
        i
    } else {
        i + 1
    };
    assert(t[k] == x);
    assert forall|j: int| 0 <= j < t.len() && j != k implies t[j] != x by {
        if j < at {
            assert(t[j] == s[j]);
        } else if j > at {
            assert(t[j] == s[j - 1]);
        }
    }
}

/// Moving an entity keeps parents and children in agreement.
#[verifier::rlimit(40)]
pub proof fn law_move_keeps_agreement(w: WorldView, e: Entity, location: LocationView)
    requires
        agrees(w),
        w.can_move(e, location.parent),
    ensures
        agrees(w.located(e, location)),
{
    lemma_agreeing_is_listed(w, e, location.parent);
    lemma_located(w, e, location);
    let after = w.located(e, location);
    assert forall|x: Entity| after.alive(x) == w.alive(x) by {
        assert(after.entities.dom().contains(x) == w.entities.dom().contains(x));
    }
    assert forall|x: Entity| after.alive(x) implies (#[trigger] after.parent_of(x) matches Some(p)
        ==> after.alive(p) && p != x && once(after.children_of(p), x)) by {
        assert(after.entities[x] == record_after(w, e, location, x));
        if let Some(p) = after.parent_of(x) {
            if x == e {
                assert(location.parent == Some(p));
                assert(after.entities[p] == record_after(w, e, location, p));
                let rest = without(w.entities[p].children, e);
                lemma_filter_contains(w.entities[p].children, not_entity(e), e);
                lemma_insert_then_without(rest, e, at_most(location.index, rest.len()));
            } else {
                assert(w.parent_of(x) == Some(p));
                assert(once(w.children_of(p), x));
                assert(after.entities[p] == record_after(w, e, location, p));
                lemma_once_without(w.children_of(p), e, x);
                let rest = without(w.children_of(p), e);
                lemma_once_insert(rest, at_most(location.index, rest.len()), e, x);
            }
        }
    }
    assert forall|p: Entity, c: Entity| #[trigger] after.children_of(p).contains(c) implies
        after.alive(c) && after.parent_of(c) == Some(p) by {
        assert(after.entities[p] == record_after(w, e, location, p));
        let old = w.children_of(p);
        let rest = without(old, e);
        lemma_filter_contains(old, not_entity(e), c);
        lemma_filter_contains(old, not_entity(e), e);
        if c == e {
            if location.parent != Some(p) || p == e {
                if w.parent_of(e) == Some(p) {
                    assert(after.children_of(p) == rest);
                } else {
                    assert(after.children_of(p) == old);
                    assert(w.children_of(p).contains(e));
                }
                assert(false);
            }
            assert(after.entities[e] == record_after(w, e, location, e));
        } else {
            let at = at_most(location.index, rest.len());
            let now = after.children_of(p);
            let k = choose|k: int| 0 <= k < now.len() && now[k] == c;
            if now == rest.insert(at, e) {
                if k < at {
                    assert(rest[k] == c);
                } else {
                    assert(rest[k - 1] == c);
                }
                assert(rest.contains(c));
            }
            assert(w.children_of(p).contains(c));
            assert(after.entities[c] == record_after(w, e, location, c));
        }
    }
}

/// Two scenes with the same parents and children agree alike.
proof fn lemma_same_hierarchy(w: WorldView, after: WorldView)
    requires
        agrees(w),
        forall|x: Entity| #[trigger] after.alive(x) == w.alive(x),
        forall|x: Entity|
            w.alive(x) ==> (#[trigger] after.entities[x]).parent == w.entities[x].parent
                && after.entities[x].children == w.entities[x].children,
    ensures
        agrees(after),
{
    assert forall|x: Entity| after.alive(x) implies (#[trigger] after.parent_of(x) matches Some(p)
        ==> after.alive(p) && p != x && once(after.children_of(p), x)) by {
        assert(w.alive(x));
        assert(after.entities[x].parent == w.entities[x].parent);
        if let Some(p) = after.parent_of(x) {
            assert(w.parent_of(x) == Some(p));
            assert(after.entities[p].children == w.entities[p].children);
        }
    }
    assert forall|p: Entity, c: Entity| #[trigger] after.children_of(p).contains(c) implies
        after.alive(c) && after.parent_of(c) == Some(p) by {
        assert(after.entities[p].children == w.entities[p].children);
        assert(w.children_of(p).contains(c));
        assert(after.entities[c].parent == w.entities[c].parent);
    }
}

/// A new entity without a parent or children keeps parents and children in agreement.
pub proof fn law_new_entity_keeps_agreement(
    w: WorldView,
    entity: Entity,
    name: Seq<char>,
    marks: Marks,
    components: Seq<StructView>,
)
    requires
        agrees(w),
        !w.alive(entity),
    ensures
        agrees(crate::templates::with_named(w, entity, name, marks, components)),
{
    let record = crate::templates::named_record(name, marks, components);
    let there = WorldView { entities: w.entities.insert(entity, record), ..w };
    assert forall|x: Entity| there.alive(x) implies (#[trigger] there.parent_of(x) matches Some(p)
        ==> there.alive(p) && p != x && once(there.children_of(p), x)) by {
        if x != entity {
            assert(there.parent_of(x) == w.parent_of(x));
        }
    }
    assert forall|p: Entity, c: Entity| #[trigger] there.children_of(p).contains(c) implies
        there.alive(c) && there.parent_of(c) == Some(p) by {
        assert(p != entity);
        assert(w.children_of(p).contains(c));
    }
    let after = crate::templates::with_named(w, entity, name, marks, components);
    assert forall|x: Entity| #[trigger] after.alive(x) == there.alive(x) by {
        crate::templates::lemma_with_named(w, entity, name, marks, components, x);
    }
    assert forall|x: Entity| there.alive(x) implies (#[trigger] after.entities[x]).parent
        == there.entities[x].parent && after.entities[x].children == there.entities[x].children by {
        crate::templates::lemma_with_named(w, entity, name, marks, components, x);
    }
    lemma_same_hierarchy(there, after);
}

/// A new brush below a parent that is alive, or below none, keeps parents and children in agreement.
#[verifier::rlimit(40)]
pub proof fn law_new_brush_keeps_agreement(
    w: WorldView,
    name: Seq<char>,
    brush: BrushView,
    transform: StructView,
    entity: Entity,
    parent: Option<Entity>,
)
    requires
        agrees(w),
        !w.alive(entity),
        parent matches Some(p) ==> w.alive(p),
    ensures
        agrees(with_brush(w, name, brush, transform, entity, parent)),
{
    let after = with_brush(w, name, brush, transform, entity, parent);
    assert forall|x: Entity| #[trigger] after.alive(x) == (w.alive(x) || x == entity) by {}
    assert forall|x: Entity| after.alive(x) implies (#[trigger] after.parent_of(x) matches Some(p)
        ==> after.alive(p) && p != x && once(after.children_of(p), x)) by {
        if let Some(p) = after.parent_of(x) {
            let old = w.children_of(p);
            assert(old.push(entity) =~= old.insert(old.len() as int, entity));
            if x == entity {
                if old.contains(entity) {
                    assert(w.children_of(p).contains(entity));
                }
                lemma_insert_then_without(old, entity, old.len() as int);
            } else {
                assert(w.parent_of(x) == Some(p));
                assert(once(w.children_of(p), x));
                lemma_once_insert(old, old.len() as int, entity, x);
            }
        }
    }
    assert forall|p: Entity, c: Entity| #[trigger] after.children_of(p).contains(c) implies
        after.alive(c) && after.parent_of(c) == Some(p) by {
        let now = after.children_of(p);
        let k = choose|k: int| 0 <= k < now.len() && now[k] == c;
        if c == entity {
            if parent != Some(p) {
                assert(now == w.children_of(p));
                assert(w.children_of(p).contains(entity));
                assert(false);
            }
        } else {
            assert(p != entity);
            assert(w.children_of(p)[k] == c);
            assert(w.children_of(p).contains(c));
            assert(w.parent_of(c) == Some(p));
        }
    }
}

/// What a walk finds besides its start is below something else that it finds.
proof fn lemma_found_below(w: WorldView, e: Entity, depth: nat, c: Entity)
    requires
        preorder(w, e, true, depth).contains(c),
        c != e,
    ensures
        exists|q: Entity|
            #![trigger w.children_of(q)]
            preorder(w, e, true, depth).contains(q) && w.children_of(q).contains(c),
    decreases depth, 0nat,
{
    let walk = preorder(w, e, true, depth);
    let k = choose|k: int| 0 <= k < walk.len() && walk[k] == c;
    assert(walk[0] == e);
    if depth > 0 {
        let children = w.children_of(e);
        let rest = preorder_all(w, children, true, (depth - 1) as nat);
        assert(walk == seq![e] + rest);
        assert(rest[k - 1] == c);
        lemma_found_below_all(w, children, (depth - 1) as nat, c);
        if children.contains(c) {
            assert(walk.contains(e));
        } else {
            let q = choose|q: Entity|
                #![trigger w.children_of(q)]
                rest.contains(q) && w.children_of(q).contains(c);
            let j = choose|j: int| 0 <= j < rest.len() && rest[j] == q;
            assert(walk[j + 1] == q);
        }
    }
}

proof fn lemma_found_below_all(w: WorldView, children: Seq<Entity>, depth: nat, c: Entity)
    requires
        preorder_all(w, children, true, depth).contains(c),
    ensures
        children.contains(c) || exists|q: Entity|
            #![trigger w.children_of(q)]
            preorder_all(w, children, true, depth).contains(q) && w.children_of(q).contains(c),
    decreases depth, children.len() + 1,
{
    let all = preorder_all(w, children, true, depth);
    let k = choose|k: int| 0 <= k < all.len() && all[k] == c;
    if children.len() > 0 {
        let init = children.drop_last();
        let before = preorder_all(w, init, true, depth);
        let last = children.last();
        assert(children[children.len() - 1] == last);
        if k < before.len() {
            assert(before[k] == c);
            lemma_found_below_all(w, init, depth, c);
            if init.contains(c) {
                let i = choose|i: int| 0 <= i < init.len() && init[i] == c;
                assert(children[i] == c);
            } else {
                let q = choose|q: Entity|
                    #![trigger w.children_of(q)]
                    before.contains(q) && w.children_of(q).contains(c);
                let j = choose|j: int| 0 <= j < before.len() && before[j] == q;
                assert(all[j] == q);
            }
        } else {
            let own = preorder(w, last, true, depth);
            assert(all == before + own);
            assert(own[k - before.len()] == c);
            if c != last {
                lemma_found_below(w, last, depth, c);
                let q = choose|q: Entity|
                    #![trigger w.children_of(q)]
                    own.contains(q) && w.children_of(q).contains(c);
                let j = choose|j: int| 0 <= j < own.len() && own[j] == q;
                assert(all[before.len() + j] == q);
            }
        }
    }
}

/// A walk that goes one level deeper finds the live children of all that was found.
proof fn lemma_children_found(w: WorldView, e: Entity, depth: nat, p: Entity, c: Entity)
    requires
        preorder(w, e, true, depth).contains(p),
        w.children_of(p).contains(c),
        w.alive(c),
    ensures
        preorder(w, e, true, depth + 1).contains(c),
    decreases depth, 0nat,
{
    let walk = preorder(w, e, true, depth);
    let more = preorder(w, e, true, depth + 1);
    let children = w.children_of(e);
    let below = preorder_all(w, children, true, depth);
    assert(more == seq![e] + below);
    let k = choose|k: int| 0 <= k < walk.len() && walk[k] == p;
    if k == 0 {
        assert(p == e);
        lemma_child_is_walked(w, children, depth, c);
        let j = choose|j: int| 0 <= j < below.len() && below[j] == c;
        assert(more[j + 1] == c);
    } else {
        let rest = preorder_all(w, children, true, (depth - 1) as nat);
        assert(walk == seq![e] + rest);
        assert(rest[k - 1] == p);
        lemma_children_found_all(w, children, (depth - 1) as nat, p, c);
        let j = choose|j: int| 0 <= j < below.len() && below[j] == c;
        assert(more[j + 1] == c);
    }
}

proof fn lemma_children_found_all(
    w: WorldView,
    children: Seq<Entity>,
    depth: nat,
    p: Entity,
    c: Entity,
)
    requires
        preorder_all(w, children, true, depth).contains(p),
        w.children_of(p).contains(c),
        w.alive(c),
    ensures
        preorder_all(w, children, true, depth + 1).contains(c),
    decreases depth, children.len() + 1,
{
    let all = preorder_all(w, children, true, depth);
    let more = preorder_all(w, children, true, depth + 1);
    let k = choose|k: int| 0 <= k < all.len() && all[k] == p;
    if children.len() > 0 {
        let init = children.drop_last();
        let last = children.last();
        let before = preorder_all(w, init, true, depth);
        let before1 = preorder_all(w, init, true, depth + 1);
        if k < before.len() {
            assert(before[k] == p);
            lemma_children_found_all(w, init, depth, p, c);
            let j = choose|j: int| 0 <= j < before1.len() && before1[j] == c;
            assert(more[j] == c);
        } else {
            let own = preorder(w, last, true, depth);
            assert(own[k - before.len()] == p);
            lemma_children_found(w, last, depth, p, c);
            let own1 = preorder(w, last, true, depth + 1);
            let j = choose|j: int| 0 <= j < own1.len() && own1[j] == c;
            assert(more[before1.len() + j] == c);
        }
    }
}

/// A live child is on the walk from the children.
proof fn lemma_child_is_walked(w: WorldView, children: Seq<Entity>, depth: nat, c: Entity)
    requires
        children.contains(c),
        w.alive(c),
    ensures
        preorder_all(w, children, true, depth).contains(c),
    decreases children.len(),
{
    let all = preorder_all(w, children, true, depth);
    let i = choose|i: int| 0 <= i < children.len() && children[i] == c;
    let init = children.drop_last();
    let before = preorder_all(w, init, true, depth);
    if i < init.len() {
        assert(init[i] == c);
        lemma_child_is_walked(w, init, depth, c);
        let j = choose|j: int| 0 <= j < before.len() && before[j] == c;
        assert(all[j] == c);
    } else {
        assert(preorder(w, c, true, depth)[0] == c);
        assert(all[before.len() as int] == c);
    }
}

/// Despawning an entity, with all that is below it, keeps parents and children in agreement.
#[verifier::rlimit(40)]
pub proof fn law_despawn_keeps_agreement(
    w: WorldView,
    rank: spec_fn(Entity) -> nat,
    e: Entity,
)
    requires
        agrees(w),
        ranked(w, rank),
        rank(e) <= w.entities.len(),
    ensures
        agrees(despawned(w, e)),
{
    let after = despawned(w, e);
    if w.alive(e) {
        let depth = w.entities.len();
        let gone = preorder(w, e, true, depth);
        law_walk_is_complete(w, rank, e, true, depth, depth + 1);
        let cut = w.unparented(e);
        assert(gone[0] == e);
        assert(gone.contains(e));
        assert forall|x: Entity| #[trigger] after.alive(x) == (w.alive(x) && !gone.contains(x)) by {
            assert(gone.to_set().contains(x) == gone.contains(x));
        }
        assert forall|x: Entity| after.alive(x) implies after.entities[x].parent
            == w.entities[x].parent && after.entities[x].children == (if w.parent_of(e) == Some(x) {
            without(w.entities[x].children, e)
        } else {
            w.entities[x].children
        }) by {}
        assert forall|x: Entity| after.alive(x) implies (#[trigger] after.parent_of(x) matches Some(
            p,
        ) ==> after.alive(p) && p != x && once(after.children_of(p), x)) by {
            if let Some(p) = after.parent_of(x) {
                assert(w.parent_of(x) == Some(p));
                assert(once(w.children_of(p), x));
                assert(w.children_of(p).contains(x));
                if gone.contains(p) {
                    lemma_children_found(w, e, depth, p, x);
                    assert(false);
                }
                lemma_once_without(w.children_of(p), e, x);
            }
        }
        assert forall|p: Entity, c: Entity| #[trigger] after.children_of(p).contains(c) implies
            after.alive(c) && after.parent_of(c) == Some(p) by {
            lemma_filter_contains(w.children_of(p), not_entity(e), c);
            assert(w.children_of(p).contains(c));
            assert(w.parent_of(c) == Some(p));
            if gone.contains(c) {
                if c == e {
                    assert(w.parent_of(e) == Some(p));
                    assert(false);
                }
                lemma_found_below(w, e, depth, c);
                let q = choose|q: Entity|
                    #![trigger w.children_of(q)]
                    gone.contains(q) && w.children_of(q).contains(c);
                assert(w.parent_of(c) == Some(q));
                assert(false);
            }
        }
    } else {
        assert forall|x: Entity| #[trigger] after.alive(x) == w.alive(x) by {}
        lemma_same_hierarchy(w, after);
    }
}

/// Whether the parents and the children of the nodes of a document agree, and the nodes without a
/// parent are its roots.
pub open spec fn document_agrees(doc: DocView) -> bool {
    &&& forall|n: Entity| #[trigger]
        doc.nodes.contains_key(n) ==> match doc.nodes[n].parent {
            Some(p) => doc.nodes.contains_key(p) && p != n && once(doc.nodes[p].children, n)
                && !doc.roots.contains(n),
            None => once(doc.roots, n),
        }
    &&& forall|p: Entity, c: Entity|
        doc.nodes.contains_key(p) && #[trigger] doc.nodes[p].children.contains(c)
            ==> doc.nodes.contains_key(c) && doc.nodes[c].parent == Some(p)
}

/// Where the nodes of a document agree, moving one and moving it back leaves the document as it was.
pub proof fn law_document_move_undone(doc: DocView, n: Entity, parent: Option<Entity>, index: nat)
    requires
        document_agrees(doc),
        doc.nodes.contains_key(n),
        parent matches Some(p) ==> doc.nodes.contains_key(p) && p != n,
    ensures
        doc.moved(n, parent, index).moved(n, doc.nodes[n].parent, node_index(doc, n)) == doc,
{
    law_move_back_restores_document(doc, n, parent, index);
}

/// Entering a new node keeps the nodes of a document in agreement.
#[verifier::rlimit(40)]
pub proof fn law_entering_keeps_agreement(
    doc: DocView,
    e: Entity,
    node: Entity,
    patches: Seq<PatchView>,
    parent: Option<Entity>,
)
    requires
        document_agrees(doc),
        is_unknown(doc, node),
        parent matches Some(p) ==> doc.nodes.contains_key(p),
    ensures
        document_agrees(with_node(doc, e, node, patches, parent)),
{
    let after = with_node(doc, e, node, patches, parent);
    assert forall|n: Entity| #[trigger] after.nodes.contains_key(n) implies (
    match after.nodes[n].parent {
        Some(p) => after.nodes.contains_key(p) && p != n && once(after.nodes[p].children, n)
            && !after.roots.contains(n),
        None => once(after.roots, n),
    }) by {
        if n == node {
            match parent {
                Some(p) => {
                    let old = doc.nodes[p].children;
                    assert(old.push(node) =~= old.insert(old.len() as int, node));
                    lemma_insert_then_without(old, node, old.len() as int);
                },
                None => {
                    assert(doc.roots.push(node) =~= doc.roots.insert(doc.roots.len() as int, node));
                    lemma_insert_then_without(doc.roots, node, doc.roots.len() as int);
                },
            }
        } else {
            assert(doc.nodes.contains_key(n));
            match doc.nodes[n].parent {
                Some(q) => {
                    let old = doc.nodes[q].children;
                    assert(old.push(node) =~= old.insert(old.len() as int, node));
                    lemma_once_insert(old, old.len() as int, node, n);
                    if after.roots.contains(n) {
                        let k = choose|k: int| 0 <= k < after.roots.len() && after.roots[k] == n;
                        assert(doc.roots[k] == n);
                    }
                },
                None => {
                    assert(doc.roots.push(node) =~= doc.roots.insert(doc.roots.len() as int, node));
                    lemma_once_insert(doc.roots, doc.roots.len() as int, node, n);
                },
            }
        }
    }
    assert forall|p: Entity, c: Entity|
        after.nodes.contains_key(p) && #[trigger] after.nodes[p].children.contains(
            c,
        ) implies after.nodes.contains_key(c) && after.nodes[c].parent == Some(p) by {
        let now = after.nodes[p].children;
        let k = choose|k: int| 0 <= k < now.len() && now[k] == c;
        if c == node {
            assert(parent == Some(p));
        } else {
            assert(doc.nodes[p].children[k] == c);
            assert(doc.nodes[p].children.contains(c));
        }
    }
}

/// Moving a node keeps the nodes of a document in agreement.
#[verifier::rlimit(40)]
pub proof fn law_moving_keeps_agreement(
    doc: DocView,
    n: Entity,
    parent: Option<Entity>,
    index: nat,
)
    requires
        document_agrees(doc),
        doc.nodes.contains_key(n),
        parent matches Some(p) ==> doc.nodes.contains_key(p) && p != n,
    ensures
        document_agrees(doc.moved(n, parent, index)),
{
    let after = doc.moved(n, parent, index);
    if let Some(p) = parent {
        if doc.nodes[p].children.contains(n) {
            assert(doc.nodes[n].parent == Some(p));
        }
    }
    lemma_moved(doc, n, parent, index);
    assert forall|x: Entity| #[trigger] after.nodes.contains_key(x) == doc.nodes.contains_key(x) by {
        assert(after.nodes.dom().contains(x) == doc.nodes.dom().contains(x));
    }
    let rest = without(doc.roots, n);
    lemma_filter_contains(doc.roots, not_entity(n), n);
    assert forall|x: Entity| #[trigger] after.nodes.contains_key(x) implies (
    match after.nodes[x].parent {
        Some(p) => after.nodes.contains_key(p) && p != x && once(after.nodes[p].children, x)
            && !after.roots.contains(x),
        None => once(after.roots, x),
    }) by {
        assert(after.nodes[x] == node_after(doc, n, parent, index, x));
        lemma_filter_contains(doc.roots, not_entity(n), x);
        if x == n {
            match parent {
                Some(p) => {
                    assert(after.nodes[p] == node_after(doc, n, parent, index, p));
                    let left = without(doc.nodes[p].children, n);
                    lemma_filter_contains(doc.nodes[p].children, not_entity(n), n);
                    lemma_insert_then_without(left, n, at_most(index, left.len()));
                },
                None => {
                    lemma_insert_then_without(rest, n, at_most(index, rest.len()));
                },
            }
        } else {
            match doc.nodes[x].parent {
                Some(q) => {
                    assert(after.nodes[q] == node_after(doc, n, parent, index, q));
                    let old = doc.nodes[q].children;
                    lemma_once_without(old, n, x);
                    let left = without(old, n);
                    lemma_once_insert(left, at_most(index, left.len()), n, x);
                    if after.roots.contains(x) {
                        let at = at_most(index, rest.len());
                        let k = choose|k: int| 0 <= k < after.roots.len() && after.roots[k] == x;
                        if parent is None {
                            assert(after.roots == rest.insert(at, n));
                            if k < at {
                                assert(rest[k] == x);
                            } else {
                                assert(rest[k - 1] == x);
                            }
                            assert(rest.contains(x));
                        }
                        assert(false);
                    }
                },
                None => {
                    lemma_once_without(doc.roots, n, x);
                    lemma_once_insert(rest, at_most(index, rest.len()), n, x);
                },
            }
        }
    }
    assert forall|p: Entity, c: Entity|
        after.nodes.contains_key(p) && #[trigger] after.nodes[p].children.contains(
            c,
        ) implies after.nodes.contains_key(c) && after.nodes[c].parent == Some(p) by {
        assert(after.nodes[p] == node_after(doc, n, parent, index, p));
        let old = doc.nodes[p].children;
        let left = without(old, n);
        let now = after.nodes[p].children;
        lemma_filter_contains(old, not_entity(n), c);
        lemma_filter_contains(old, not_entity(n), n);
        if c == n {
            if parent != Some(p) {
                if doc.nodes[n].parent == Some(p) {
                    assert(now == left);
                } else {
                    assert(now == old);
                    assert(doc.nodes[p].children.contains(n));
                }
                assert(false);
            }
            assert(after.nodes[n] == node_after(doc, n, parent, index, n));
        } else {
            let at = at_most(index, left.len());
            let k = choose|k: int| 0 <= k < now.len() && now[k] == c;
            if now == left.insert(at, n) {
                if k < at {
                    assert(left[k] == c);
                } else {
                    assert(left[k - 1] == c);
                }
                assert(left.contains(c));
            }
            assert(doc.nodes[p].children.contains(c));
            assert(after.nodes[c] == node_after(doc, n, parent, index, c));
        }
    }
}

/// An entity that was moved can be moved back to where it was.
pub proof fn law_move_can_be_undone(w: WorldView, e: Entity, location: LocationView)
    requires
        agrees(w),
        w.can_move(e, location.parent),
        w.doc.linked(),
    ensures
        w.located(e, location).can_move(e, w.parent_of(e)),
        w.located(e, location).doc.linked(),
{
    crate::location::law_move_keeps_document(w, e, location);
    lemma_agreeing_is_listed(w, e, location.parent);
}

/// Undoing a move gives the entity the location that it had: the parent, the place among its
/// siblings or among the roots of the document, and the widget slot.
#[verifier::rlimit(40)]
pub proof fn law_move_undone(w: WorldView, e: Entity, location: LocationView)
    requires
        agrees(w),
        w.can_move(e, location.parent),
        w.doc.consistent(),
        document_agrees(w.doc),
    ensures
        w.located(e, location).located(e, w.location(e)).location(e) == w.location(e),
{
    let home = w.location(e);
    let w1 = w.located(e, location);
    let w2 = w1.located(e, home);
    law_move_back_restores_live(w, e, location);
    lemma_agreeing_is_listed(w, e, location.parent);
    assert(w2.entities == w.entities);
    match w.parent_of(e) {
        Some(p) => {
            lemma_without_once(w.children_of(p), e);
            assert(w2.children_of(p) == w.children_of(p));
        },
        None => {
            assert(position_of(Seq::empty(), e) == 0);
            if let Some(n) = w.doc.node_of(e) {
                assert(location.parent matches Some(p) ==> w.doc.node_of(p) != Some(n));
                lemma_root_restored(w, e, n, location);
                lemma_first_index(w2.doc.roots, is_entity(n));
            } else {
                assert(w1.doc == w.doc);
                assert(w2.doc == w.doc);
            }
        },
    }
}

/// A root that was moved and moved back is at its place among the roots again.
#[verifier::rlimit(60)]
#[verifier::spinoff_prover]
proof fn lemma_root_restored(w: WorldView, e: Entity, n: Entity, location: LocationView)
    requires
        agrees(w),
        w.can_move(e, location.parent),
        w.parent_of(e) is None,
        w.doc.linked(),
        w.doc.node_of(e) == Some(n),
        document_agrees(w.doc),
        location.parent matches Some(p) ==> w.doc.node_of(p) != Some(n),
    ensures
        ({
            let w2 = w.located(e, location).located(e, w.location(e));
            &&& w2.doc.node_of(e) == Some(n)
            &&& w2.doc.roots.contains(n)
            &&& position_of(w2.doc.roots, n) == w.location(e).index
        }),
{
    let home = w.location(e);
    let w1 = w.located(e, location);
    let d0 = w.doc;
    let d1 = w1.doc;
    let w2 = w1.located(e, home);
    assert(home.parent is None);
    assert(d1.node_of(e) == Some(n));
    assert(d1.nodes.contains_key(n));
    let m1 = w.moved_doc(e, location.parent, location.index);
    assert(d1.roots == m1.roots);
    assert(w2.doc.roots == d1.moved(n, None, home.index).roots);
    let left = without(d1.roots, n);
    lemma_filter_contains(d1.roots, not_entity(n), n);
    lemma_insert_then_without(left, n, at_most(home.index, left.len()));
    lemma_first_index(d0.roots, is_entity(n));
    assert(d1.nodes[n].parent == m1.nodes[n].parent);
    let rest = without(d0.roots, n);
    if d0.nodes[n].parent is None {
        lemma_without_once(d0.roots, n);
    } else {
        lemma_without_absent(d0.roots, n);
    }
    assert(w2.doc.roots == left.insert(at_most(home.index, left.len()), n)) by {
        if d1.nodes[n].parent is Some {
            lemma_filter_contains(d0.roots, not_entity(n), n);
            lemma_without_absent(d1.roots, n);
        }
    }
    assert(left == rest) by {
        if location.parent is None {
            lemma_insert_then_without(rest, n, at_most(location.index, rest.len()));
        } else {
            lemma_filter_contains(d0.roots, not_entity(n), n);
            lemma_without_absent(rest, n);
        }
    }
    assert(w2.doc.roots[at_most(home.index, left.len())] == n);
}

} // verus!
