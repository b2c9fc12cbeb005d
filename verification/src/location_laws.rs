//! What moving an entity in the hierarchy keeps, and what undoing a move restores.
use vstd::prelude::*;
use crate::document::{at_most, DocView, NodeView};
use crate::location::LocationView;
use crate::seqs::{
    is_entity, lemma_filter_all, lemma_filter_contains, lemma_filter_push, lemma_first_index_is,
    not_entity, position_of, without,
};
use crate::value::Entity;
use crate::world::{RecordView, WorldView};

verus! {

/// Whether `e` occurs in `s` exactly once.
pub open spec fn once(s: Seq<Entity>, e: Entity) -> bool {
    exists|i: int|
        0 <= i < s.len() && s[i] == e && forall|j: int| 0 <= j < s.len() && j != i ==> s[j] != e
}

/// Taking an entity out of a sequence that does not hold it changes nothing.
pub(crate) proof fn lemma_without_absent(s: Seq<Entity>, e: Entity)
    requires
        !s.contains(e),
    ensures
        without(s, e) == s,
{
    lemma_filter_all(s, not_entity(e));
}

/// Taking an entity out of a sequence that holds it at one position only removes that position.
proof fn lemma_without_at(s: Seq<Entity>, e: Entity, i: int)
    requires
        0 <= i < s.len(),
        s[i] == e,
        forall|j: int| 0 <= j < s.len() && j != i ==> s[j] != e,
    ensures
        without(s, e) == s.remove(i),
    decreases s.len(),
{
    let init = s.drop_last();
    assert(s =~= init.push(s.last()));
    lemma_filter_push(init, s.last(), not_entity(e));
    if i == s.len() - 1 {
        lemma_without_absent(init, e);
        assert(s.remove(i) =~= init);
    } else {
        lemma_without_at(init, e, i);
        assert(s.remove(i) =~= init.remove(i).push(s.last()));
    }
}

/// Taking an entity out of a sequence that holds it once removes it where it stands.
pub(crate) proof fn lemma_without_once(s: Seq<Entity>, e: Entity)
    requires
        once(s, e),
    ensures
        0 <= position_of(s, e) < s.len(),
        s[position_of(s, e)] == e,
        without(s, e) == s.remove(position_of(s, e)),
        without(s, e).insert(position_of(s, e), e) == s,
        !without(s, e).contains(e),
{
    let i = choose|i: int|
        0 <= i < s.len() && s[i] == e && forall|j: int| 0 <= j < s.len() && j != i ==> s[j] != e;
    lemma_first_index_is(s, is_entity(e), i);
    lemma_without_at(s, e, i);
    assert(s.remove(i).insert(i, e) =~= s);
    lemma_filter_contains(s, not_entity(e), e);
}

/// Putting an entity into a sequence that does not hold it, and taking it out, changes nothing.
pub(crate) proof fn lemma_insert_then_without(s: Seq<Entity>, e: Entity, at: int)
    requires
        !s.contains(e),
        0 <= at <= s.len(),
    ensures
        once(s.insert(at, e), e),
        position_of(s.insert(at, e), e) == at,
        without(s.insert(at, e), e) == s,
{
    let t = s.insert(at, e);
    assert(t[at] == e);
    assert forall|j: int| 0 <= j < t.len() && j != at implies t[j] != e by {
        if j < at {
            assert(t[j] == s[j]);
        } else {
            assert(t[j] == s[j - 1]);
        }
        assert(s.contains(t[j]));
    }
    assert(once(t, e));
    lemma_without_once(t, e);
    lemma_first_index_is(t, is_entity(e), at);
    assert(t.remove(at) =~= s);
}

/// Whether the parents and the children of a scene agree: an entity is listed once among the children
/// of its parent, and an entity that is listed among the children of another has it as its parent.
pub open spec fn agrees(w: WorldView) -> bool {
    &&& forall|e: Entity|
        w.alive(e) ==> (#[trigger] w.parent_of(e) matches Some(p) ==> w.alive(p) && p != e && once(
            w.children_of(p),
            e,
        ))
    &&& forall|p: Entity, c: Entity| #[trigger]
        w.children_of(p).contains(c) ==> w.alive(c) && w.parent_of(c) == Some(p)
}

/// Where parents and children agree, an entity is listed where its parent reference says.
pub(crate) proof fn lemma_agreeing_is_listed(w: WorldView, e: Entity, new_parent: Option<Entity>)
    requires
        agrees(w),
        w.can_move(e, new_parent),
    ensures
        listed(w, e, new_parent),
        w.can_move(e, w.parent_of(e)),
{
    if let Some(p) = new_parent {
        if w.children_of(p).contains(e) {
            assert(w.parent_of(e) == Some(p));
        }
    }
}

/// Whether the live hierarchy lists an entity where its parent reference says, and nowhere else
/// among the entities that a move concerns.
pub open spec fn listed(w: WorldView, e: Entity, new_parent: Option<Entity>) -> bool {
    &&& w.parent_of(e) matches Some(p) ==> w.alive(p) && p != e && once(w.children_of(p), e)
    &&& new_parent matches Some(p) ==> (Some(p) == w.parent_of(e) || !w.children_of(p).contains(e))
}

/// A moved entity stands where it was put: under the new parent, at the index or at the end when
/// there are fewer siblings, with the slot of the location.
pub proof fn law_move_lands(w: WorldView, e: Entity, location: LocationView)
    requires
        w.can_move(e, location.parent),
        location.parent is Some,
        agrees(w),
    ensures
        w.located(e, location).location(e) == (LocationView {
            parent: location.parent,
            index: at_most(
                location.index,
                without(w.children_of(location.parent->0), e).len(),
            ) as nat,
            slot: location.slot,
        }),
{
    lemma_agreeing_is_listed(w, e, location.parent);
    let p = location.parent->0;
    let w1 = w.with_doc(w.moved_doc(e, location.parent, location.index));
    let mid = w1.unparented(e);
    let base = without(w.children_of(p), e);
    if w.parent_of(e) == Some(p) {
        lemma_without_once(w.children_of(p), e);
    } else {
        lemma_without_absent(w.children_of(p), e);
    }
    assert(mid.children_of(p) == base);
    let at = at_most(location.index, base.len());
    lemma_insert_then_without(base, e, at);
    let after = w.located(e, location);
    assert(after.children_of(p) == base.insert(at, e));
}

/// The record of one entity after another was given a location.
pub open spec fn record_after(
    w: WorldView,
    e: Entity,
    location: LocationView,
    x: Entity,
) -> RecordView {
    let r = w.entities[x];
    if x == e {
        RecordView { parent: location.parent, slot: location.slot, ..r }
    } else if location.parent == Some(x) {
        let rest = without(r.children, e);
        RecordView { children: rest.insert(at_most(location.index, rest.len()), e), ..r }
    } else if w.parent_of(e) == Some(x) {
        RecordView { children: without(r.children, e), ..r }
    } else {
        r
    }
}

/// Taking an entity out of the children of its parent changes the parent's record alone.
proof fn lemma_unparented(w: WorldView, e: Entity)
    requires
        w.can_move(e, w.parent_of(e)),
    ensures
        w.unparented(e).entities.dom() == w.entities.dom(),
        forall|x: Entity|
            w.alive(x) ==> (#[trigger] w.unparented(e).entities[x]) == (if w.parent_of(e) == Some(
                x,
            ) {
                RecordView { children: without(w.entities[x].children, e), ..w.entities[x] }
            } else {
                w.entities[x]
            }),
{
    assert(w.unparented(e).entities.dom() =~= w.entities.dom());
}

/// Putting an entity among the children of a parent changes the two records alone.
proof fn lemma_parented(w: WorldView, e: Entity, parent: Option<Entity>, index: nat)
    requires
        w.can_move(e, parent),
    ensures
        w.parented(e, parent, index).entities.dom() == w.entities.dom(),
        forall|x: Entity|
            w.alive(x) ==> (#[trigger] w.parented(e, parent, index).entities[x]) == (if x == e {
                RecordView { parent, ..w.entities[x] }
            } else if parent == Some(x) {
                RecordView {
                    children: w.entities[x].children.insert(
                        at_most(index, w.entities[x].children.len()),
                        e,
                    ),
                    ..w.entities[x]
                }
            } else {
                w.entities[x]
            }),
{
    assert(w.parented(e, parent, index).entities.dom() =~= w.entities.dom());
}

/// Moving a live entity changes its parent, and the children of the two parents.
proof fn lemma_moved_live(w: WorldView, e: Entity, location: LocationView)
    requires
        w.can_move(e, location.parent),
        w.can_move(e, w.parent_of(e)),
        location.parent matches Some(p) ==> (Some(p) == w.parent_of(e) || !w.children_of(
            p,
        ).contains(e)),
    ensures
        w.moved_live(e, location.parent, location.index).entities.dom() == w.entities.dom(),
        forall|x: Entity|
            w.alive(x) ==> (#[trigger] w.moved_live(e, location.parent, location.index).entities[x])
                == record_after(w, e, LocationView { slot: w.entities[e].slot, ..location }, x),
{
    let mid = w.unparented(e);
    let kept = LocationView { slot: w.entities[e].slot, ..location };
    lemma_unparented(w, e);
    assert(mid.can_move(e, location.parent)) by {
        assert(mid.entities.dom().contains(e));
    }
    lemma_parented(mid, e, location.parent, location.index);
    match location.parent {
        Some(p) => {
            if w.parent_of(e) != Some(p) {
                lemma_without_absent(w.children_of(p), e);
            }
        },
        None => {},
    }
    let after = mid.parented(e, location.parent, location.index);
    assert forall|x: Entity| w.alive(x) implies (#[trigger] after.entities[x]) == record_after(
        w,
        e,
        kept,
        x,
    ) by {
        assert(mid.alive(x));
        assert(mid.entities[x].children == (if w.parent_of(e) == Some(x) || location.parent == Some(
            x,
        ) {
            without(w.entities[x].children, e)
        } else {
            w.entities[x].children
        }));
    }
}

/// Giving an entity a location changes its own record, and the children of the two parents.
pub(crate) proof fn lemma_located(w: WorldView, e: Entity, location: LocationView)
    requires
        w.can_move(e, location.parent),
        w.can_move(e, w.parent_of(e)),
        location.parent matches Some(p) ==> (Some(p) == w.parent_of(e) || !w.children_of(
            p,
        ).contains(e)),
    ensures
        w.located(e, location).entities.dom() == w.entities.dom(),
        forall|x: Entity|
            w.alive(x) ==> (#[trigger] w.located(e, location).entities[x]) == record_after(
                w,
                e,
                location,
                x,
            ),
{
    let doc = w.moved_doc(e, location.parent, location.index);
    lemma_located_over(w, doc, e, location);
}

/// As `lemma_located`, for any document.
pub(crate) proof fn lemma_located_over(w: WorldView, doc: DocView, e: Entity, location: LocationView)
    requires
        w.can_move(e, location.parent),
        w.can_move(e, w.parent_of(e)),
        location.parent matches Some(p) ==> (Some(p) == w.parent_of(e) || !w.children_of(
            p,
        ).contains(e)),
    ensures
        ({
            let after = w.with_doc(doc).moved_live(e, location.parent, location.index).slotted(
                e,
                location.slot,
            );
            &&& after.entities.dom() == w.entities.dom()
            &&& forall|x: Entity|
                w.alive(x) ==> (#[trigger] after.entities[x]) == record_after(w, e, location, x)
        }),
{
    let w1 = w.with_doc(doc);
    lemma_moved_live(w1, e, location);
    let mid = w1.moved_live(e, location.parent, location.index);
    let after = mid.slotted(e, location.slot);
    assert(after.entities.dom() =~= w.entities.dom());
    assert forall|x: Entity| w.alive(x) implies (#[trigger] after.entities[x]) == record_after(
        w,
        e,
        location,
        x,
    ) by {
        assert(mid.alive(x));
        assert(after.entities[x] =~= record_after(w, e, location, x));
    }
}

/// Moving an entity and moving it back to the location that it had leaves every live entity as it
/// was.
#[verifier::rlimit(40)]
pub proof fn law_move_back_restores_live(w: WorldView, e: Entity, location: LocationView)
    requires
        w.can_move(e, location.parent),
        agrees(w),
    ensures
        w.located(e, location).located(e, w.location(e)).entities == w.entities,
{
    lemma_agreeing_is_listed(w, e, location.parent);
    let home = w.location(e);
    let w1 = w.located(e, location);
    let w2 = w1.located(e, home);
    lemma_located(w, e, location);
    match w.parent_of(e) {
        Some(p) => {
            lemma_without_once(w.children_of(p), e);
        },
        None => {},
    }
    match location.parent {
        Some(np) => {
            if w.parent_of(e) != Some(np) {
                lemma_without_absent(w.children_of(np), e);
            }
            let base = without(w.children_of(np), e);
            lemma_insert_then_without(base, e, at_most(location.index, base.len()));
        },
        None => {},
    }
    assert(w1.parent_of(e) == location.parent);
    lemma_located(w1, e, home);
    assert forall|x: Entity| w.alive(x) implies #[trigger] w2.entities[x] == w.entities[x] by {
        assert(w1.alive(x));
        assert(w2.entities[x] == record_after(w1, e, home, x));
        assert(record_after(w1, e, home, x) =~= w.entities[x]);
    }
    assert(w2.entities =~= w.entities);
}

/// Whether the document lists a node where its parent reference says, and nowhere else among the
/// nodes that a move concerns.
pub open spec fn node_listed(doc: DocView, n: Entity, new_parent: Option<Entity>) -> bool {
    &&& doc.nodes.contains_key(n)
    &&& match doc.nodes[n].parent {
        Some(p) => doc.nodes.contains_key(p) && p != n && once(doc.nodes[p].children, n)
            && !doc.roots.contains(n),
        None => once(doc.roots, n),
    }
    &&& new_parent matches Some(p) ==> {
        &&& doc.nodes.contains_key(p)
        &&& p != n
        &&& Some(p) == doc.nodes[n].parent || !doc.nodes[p].children.contains(n)
    }
}

/// The place of a node among its siblings or among the roots.
pub open spec fn node_index(doc: DocView, n: Entity) -> nat {
    match doc.nodes[n].parent {
        Some(p) => position_of(doc.nodes[p].children, n) as nat,
        None => position_of(doc.roots, n) as nat,
    }
}

/// One node after another was moved in the document.
pub open spec fn node_after(
    doc: DocView,
    n: Entity,
    parent: Option<Entity>,
    index: nat,
    x: Entity,
) -> NodeView {
    let r = doc.nodes[x];
    if x == n {
        NodeView { parent, ..r }
    } else if parent == Some(x) {
        let rest = without(r.children, n);
        NodeView { children: rest.insert(at_most(index, rest.len()), n), ..r }
    } else if doc.nodes[n].parent == Some(x) {
        NodeView { children: without(r.children, n), ..r }
    } else {
        r
    }
}

/// The roots after a node was moved in the document.
pub open spec fn roots_after(
    doc: DocView,
    n: Entity,
    parent: Option<Entity>,
    index: nat,
) -> Seq<Entity> {
    let rest = without(doc.roots, n);
    if parent is None {
        rest.insert(at_most(index, rest.len()), n)
    } else if doc.nodes[n].parent is None {
        rest
    } else {
        doc.roots
    }
}

/// Taking a node out of its place changes its parent's children or the roots alone.
proof fn lemma_detached(doc: DocView, n: Entity)
    requires
        doc.nodes.contains_key(n),
        doc.nodes[n].parent matches Some(p) ==> doc.nodes.contains_key(p) && p != n,
    ensures
        doc.detached(n).nodes.dom() == doc.nodes.dom(),
        doc.detached(n).links == doc.links,
        doc.detached(n).roots == (if doc.nodes[n].parent is None {
            without(doc.roots, n)
        } else {
            doc.roots
        }),
        forall|x: Entity|
            doc.nodes.contains_key(x) ==> (#[trigger] doc.detached(n).nodes[x]) == (if doc.nodes[n].parent
                == Some(x) {
                NodeView { children: without(doc.nodes[x].children, n), ..doc.nodes[x] }
            } else {
                doc.nodes[x]
            }),
{
    assert(doc.detached(n).nodes.dom() =~= doc.nodes.dom());
}

/// Putting a node in a place changes its parent, and the parent's children or the roots.
proof fn lemma_attached(doc: DocView, n: Entity, parent: Option<Entity>, index: nat)
    requires
        doc.nodes.contains_key(n),
        parent matches Some(p) ==> doc.nodes.contains_key(p) && p != n,
    ensures
        doc.attached(n, parent, index).nodes.dom() == doc.nodes.dom(),
        doc.attached(n, parent, index).links == doc.links,
        doc.attached(n, parent, index).roots == (if parent is None {
            doc.roots.insert(at_most(index, doc.roots.len()), n)
        } else {
            doc.roots
        }),
        forall|x: Entity|
            doc.nodes.contains_key(x) ==> (#[trigger] doc.attached(n, parent, index).nodes[x])
                == (if x == n {
                NodeView { parent, ..doc.nodes[x] }
            } else if parent == Some(x) {
                NodeView {
                    children: doc.nodes[x].children.insert(
                        at_most(index, doc.nodes[x].children.len()),
                        n,
                    ),
                    ..doc.nodes[x]
                }
            } else {
                doc.nodes[x]
            }),
{
    assert(doc.attached(n, parent, index).nodes.dom() =~= doc.nodes.dom());
}

/// What a move changes in the document.
pub(crate) proof fn lemma_moved(doc: DocView, n: Entity, parent: Option<Entity>, index: nat)
    requires
        doc.nodes.contains_key(n),
        doc.nodes[n].parent matches Some(p) ==> doc.nodes.contains_key(p) && p != n,
        doc.nodes[n].parent is Some ==> !doc.roots.contains(n),
        parent matches Some(p) ==> {
            &&& doc.nodes.contains_key(p)
            &&& p != n
            &&& Some(p) == doc.nodes[n].parent || !doc.nodes[p].children.contains(n)
        },
    ensures
        doc.moved(n, parent, index).nodes.dom() == doc.nodes.dom(),
        doc.moved(n, parent, index).links == doc.links,
        doc.moved(n, parent, index).roots == roots_after(doc, n, parent, index),
        forall|x: Entity|
            doc.nodes.contains_key(x) ==> (#[trigger] doc.moved(n, parent, index).nodes[x])
                == node_after(doc, n, parent, index, x),
{
    let mid = doc.detached(n);
    lemma_detached(doc, n);
    assert(mid.nodes.contains_key(n)) by {
        assert(mid.nodes.dom().contains(n));
    }
    assert(parent matches Some(p) ==> mid.nodes.dom().contains(p));
    lemma_attached(mid, n, parent, index);
    if doc.nodes[n].parent is Some {
        lemma_without_absent(doc.roots, n);
    }
    match parent {
        Some(p) => {
            if doc.nodes[n].parent != Some(p) {
                lemma_without_absent(doc.nodes[p].children, n);
            }
        },
        None => {},
    }
    let after = mid.attached(n, parent, index);
    assert forall|x: Entity| doc.nodes.contains_key(x) implies (#[trigger] after.nodes[x])
        == node_after(doc, n, parent, index, x) by {
        assert(mid.nodes.dom().contains(x));
        assert(mid.nodes[x].children == (if doc.nodes[n].parent == Some(x) || parent == Some(x) {
            without(doc.nodes[x].children, n)
        } else {
            doc.nodes[x].children
        }));
    }
}

/// Moving a document node and moving it back to its place leaves the document as it was.
#[verifier::rlimit(60)]
#[verifier::spinoff_prover]
pub proof fn law_move_back_restores_document(
    doc: DocView,
    n: Entity,
    parent: Option<Entity>,
    index: nat,
)
    requires
        node_listed(doc, n, parent),
    ensures
        doc.moved(n, parent, index).moved(n, doc.nodes[n].parent, node_index(doc, n)) == doc,
{
    let home = doc.nodes[n].parent;
    let d1 = doc.moved(n, parent, index);
    let d2 = d1.moved(n, home, node_index(doc, n));
    lemma_moved(doc, n, parent, index);
    match home {
        Some(p) => {
            lemma_without_once(doc.nodes[p].children, n);
            lemma_without_absent(doc.roots, n);
        },
        None => {
            lemma_without_once(doc.roots, n);
        },
    }
    match parent {
        Some(np) => {
            if home != Some(np) {
                lemma_without_absent(doc.nodes[np].children, n);
            }
            let base = without(doc.nodes[np].children, n);
            lemma_insert_then_without(base, n, at_most(index, base.len()));
            assert(!without(doc.roots, n).contains(n));
            lemma_without_absent(without(doc.roots, n), n);
        },
        None => {
            let base = without(doc.roots, n);
            lemma_insert_then_without(base, n, at_most(index, base.len()));
        },
    }
    assert(d1.nodes.contains_key(n)) by {
        assert(d1.nodes.dom().contains(n));
    }
    assert(home matches Some(p) ==> d1.nodes.dom().contains(p));
    assert(parent matches Some(p) ==> d1.nodes.dom().contains(p));
    assert(d1.nodes[n].parent == parent);
    assert(home matches Some(p) ==> Some(p) == parent || d1.nodes[p].children == without(
        doc.nodes[p].children,
        n,
    ));
    lemma_moved(d1, n, home, node_index(doc, n));
    assert(d2.roots == doc.roots);
    assert forall|x: Entity| doc.nodes.contains_key(x) implies #[trigger] d2.nodes[x]
        == doc.nodes[x] by {
        assert(d1.nodes.dom().contains(x));
        assert(d1.nodes[x] == node_after(doc, n, parent, index, x));
        assert(d2.nodes[x] == node_after(d1, n, home, node_index(doc, n), x));
        assert(node_after(d1, n, home, node_index(doc, n), x) =~= doc.nodes[x]);
    }
    assert(d2.nodes =~= doc.nodes);
    assert(d2 =~= doc);
}

} // verus!
