//! Stable ids of document nodes.
use vstd::prelude::*;
use crate::document::{DocView, DocumentNode, SceneBsnAst};
use crate::patch::{
    is_name, name_in, patches_view, values_view, with_name, BsnPatch, BsnTupleStructData, PatchView,
};
use crate::seqs::{contains, first_index, lemma_first_index, lemma_first_index_is};
use crate::text::ends_with;
use crate::value::{BsnValue, Entity, ValueView};

verus! {

broadcast use vstd::std_specs::hash::group_hash_axioms;

/// The component that keeps the stable id of a node.
pub const SCENE_NODE_ID_TYPE_PATH: &'static str = "jackdaw_scene_types::node_id::SceneNodeId";

/// The test for being an id patch: a tuple struct whose type ends in `SceneNodeId`.
pub open spec fn is_id() -> spec_fn(PatchView) -> bool {
    |p: PatchView|
        match p {
            PatchView::Tuple { type_path, values } => "SceneNodeId"@.is_suffix_of(type_path),
            _ => false,
        }
}

/// The patch that keeps an id.
pub open spec fn id_patch(id: u64) -> PatchView {
    PatchView::Tuple {
        type_path: SCENE_NODE_ID_TYPE_PATH@,
        values: seq![ValueView::Int(id as i128)],
    }
}

/// The patches with an id: in the place of the one that is there, else at the end.
pub open spec fn with_id(patches: Seq<PatchView>, id: u64) -> Seq<PatchView> {
    let i = first_index(patches, is_id());
    if i < patches.len() {
        patches.update(i, id_patch(id))
    } else {
        patches.push(id_patch(id))
    }
}

/// The id that the first id patch keeps.
pub open spec fn id_in(patches: Seq<PatchView>) -> Option<i128> {
    let i = first_index(patches, is_id());
    if i < patches.len() && patches[i]->values.len() > 0 && patches[i]->values[0] is Int {
        Some(patches[i]->values[0]->Int_0)
    } else {
        None
    }
}

/// The document and the next unused id after fresh ids were given to `nodes` in turn, except to the
/// roots of assets.
pub open spec fn minted(
    doc: DocView,
    nodes: Seq<Entity>,
    asset_roots: Seq<Entity>,
    first: int,
) -> (DocView, int)
    decreases nodes.len(),
{
    if nodes.len() == 0 {
        (doc, first)
    } else {
        let before = minted(doc, nodes.drop_last(), asset_roots, first);
        let n = nodes.last();
        if asset_roots.contains(n) {
            before
        } else {
            (
                before.0.with_patches(n, with_id(before.0.patches_of(n), before.1 as u64)),
                before.1 + 1,
            )
        }
    }
}

/// The position of the id patch.
fn find_id(patches: &Vec<BsnPatch>) -> (r: Option<usize>)
    ensures
        match r {
            Some(i) => i < patches.len() && i == first_index(patches_view(patches@), is_id()),
            None => first_index(patches_view(patches@), is_id()) == patches.len(),
        },
{
    let ghost view = patches_view(patches@);
    let ghost p = is_id();
    let mut i: usize = 0;
    while i < patches.len()
        invariant
            i <= patches.len(),
            view == patches_view(patches@),
            p == is_id(),
            forall|j: int| 0 <= j < i ==> !p(#[trigger] view[j]),
        decreases patches.len() - i,
    {
        let matched: bool = match &patches[i] {
            BsnPatch::TupleStruct(data) => ends_with(data.type_path.as_str(), "SceneNodeId"),
            _ => false,
        };
        assert(matched == p(view[i as int]));
        if matched {
            proof {
                lemma_first_index_is(view, p, i as int);
            }
            return Some(i);
        }
        i = i + 1;
    }
    proof {
        lemma_first_index_is(view, p, i as int);
    }
    None
}

/// Gives a list of patches an id.
fn write_id(patches: &mut Vec<BsnPatch>, id: u64)
    ensures
        patches_view(final(patches)@) == with_id(patches_view(old(patches)@), id),
{
    let mut values: Vec<BsnValue> = Vec::new();
    values.push(BsnValue::Int(id as i128));
    let patch = BsnPatch::TupleStruct(
        BsnTupleStructData { type_path: SCENE_NODE_ID_TYPE_PATH.to_owned(), values },
    );
    assert(patch@ == id_patch(id)) by {
        assert(values_view(values@) =~= seq![ValueView::Int(id as i128)]);
    }
    match find_id(patches) {
        Some(i) => {
            patches.set(i, patch);
        },
        None => {
            patches.push(patch);
        },
    }
    assert(patches_view(patches@) =~= with_id(patches_view(old(patches)@), id));
}

impl SceneBsnAst {
    /// The stable id of a node.
    pub fn stable_id_of(&self, node: Entity) -> (r: Option<i128>)
        ensures
            r == id_in(self@.patches_of(node)),
    {
        match self.nodes.get(&node) {
            Some(n) => match find_id(&n.patches) {
                Some(i) => {
                    proof {
                        lemma_first_index(patches_view(n.patches@), is_id());
                    }
                    match &n.patches[i] {
                        BsnPatch::TupleStruct(data) => {
                            if data.values.len() > 0 {
                                match &data.values[0] {
                                    BsnValue::Int(v) => Some(*v),
                                    _ => None,
                                }
                            } else {
                                None
                            }
                        },
                        _ => None,
                    }
                },
                None => None,
            },
            None => None,
        }
    }

    /// Gives a node an id.
    fn set_id(&mut self, node: Entity, id: u64)
        ensures
            final(self)@ == old(self)@.with_patches(
                node,
                with_id(old(self)@.patches_of(node), id),
            ),
            final(self).next_node == old(self).next_node,
    {
        let taken: Option<DocumentNode> = self.take_node(node);
        if let Some(n) = taken {
            let mut patches: Vec<BsnPatch> = n.patches;
            write_id(&mut patches, id);
            self.nodes.insert(
                node,
                DocumentNode { entity: n.entity, parent: n.parent, children: n.children, patches },
            );
        }
        assert(self@ =~= old(self)@.with_patches(
            node,
            with_id(old(self)@.patches_of(node), id),
        ));
    }
}

/// A node and what is below it, down to `depth` levels: the node first, then its children from the
/// last to the first.
pub open spec fn visited(doc: DocView, n: Entity, depth: nat) -> Seq<Entity>
    decreases depth, 0nat,
{
    if depth == 0 || !doc.nodes.contains_key(n) {
        seq![n]
    } else {
        seq![n] + visited_all(doc, doc.nodes[n].children, (depth - 1) as nat)
    }
}

/// The nodes at and below each of `children`, from the last to the first.
pub open spec fn visited_all(doc: DocView, children: Seq<Entity>, depth: nat) -> Seq<Entity>
    decreases depth, children.len() + 1,
{
    if children.len() == 0 {
        Seq::empty()
    } else {
        visited(doc, children.last(), depth) + visited_all(doc, children.drop_last(), depth)
    }
}

fn visit(doc: &SceneBsnAst, n: Entity, depth: usize, out: &mut Vec<Entity>)
    ensures
        final(out)@ == old(out)@ + visited(doc@, n, depth as nat),
    decreases depth, 0nat,
{
    let ghost start = out@;
    out.push(n);
    if depth > 0 {
        let children: Vec<Entity> = doc.get_children_ast(n);
        visit_all(doc, &children, depth - 1, out);
    }
    assert(out@ =~= start + visited(doc@, n, depth as nat));
}

fn visit_all(doc: &SceneBsnAst, children: &Vec<Entity>, depth: usize, out: &mut Vec<Entity>)
    ensures
        final(out)@ == old(out)@ + visited_all(doc@, children@, depth as nat),
    decreases depth, 1nat,
{
    let ghost start = out@;
    let ghost all = visited_all(doc@, children@, depth as nat);
    let mut i: usize = children.len();
    assert(children@.subrange(0, i as int) =~= children@);
    while i > 0
        invariant
            i <= children.len(),
            start + all == out@ + visited_all(doc@, children@.subrange(0, i as int), depth as nat),
        decreases i,
    {
        let ghost cut = children@.subrange(0, i as int);
        assert(cut.last() == children@[i - 1]);
        assert(cut.drop_last() =~= children@.subrange(0, i - 1));
        let ghost before = out@;
        i = i - 1;
        visit(doc, children[i], depth, out);
        assert(before + visited_all(doc@, cut, depth as nat) =~= out@ + visited_all(
            doc@,
            cut.drop_last(),
            depth as nat,
        ));
    }
    assert(children@.subrange(0, 0) =~= Seq::empty());
    assert(out@ =~= start + all);
}

/// The nodes that a document holds, from the last root to the first.
pub open spec fn all_nodes(doc: DocView) -> Seq<Entity> {
    visited_all(doc, doc.roots, doc.nodes.len())
}

/// The nodes that a document holds, from the last root to the first.
pub fn collect_nodes(ast: &SceneBsnAst) -> (r: Vec<Entity>)
    ensures
        r@ == all_nodes(ast@),
{
    let mut out: Vec<Entity> = Vec::new();
    let depth: usize = ast.nodes.len();
    assert(ast@.nodes.dom() =~= ast.nodes@.dom());
    visit_all(ast, &ast.roots, depth, &mut out);
    assert(out@ =~= all_nodes(ast@));
    out
}

/// Gives every node of a document a fresh id, counting up from `first`, except the roots of
/// assets. Ids that are there are replaced. Returns the next unused id.
pub fn mint_scene_node_ids(ast: &mut SceneBsnAst, asset_roots: &Vec<Entity>, first: u64) -> (next:
    u64)
    requires
        first + all_nodes(old(ast)@).len() <= u64::MAX,
    ensures
        (final(ast)@, next as int) == minted(
            old(ast)@,
            all_nodes(old(ast)@),
            asset_roots@,
            first as int,
        ),
        final(ast).next_node == old(ast).next_node,
{
    let nodes: Vec<Entity> = collect_nodes(ast);
    let ghost doc = ast@;
    let mut next: u64 = first;
    let mut i: usize = 0;
    assert(nodes@.subrange(0, 0) =~= Seq::empty());
    while i < nodes.len()
        invariant
            i <= nodes.len(),
            first <= next <= first + i,
            first + nodes@.len() <= u64::MAX,
            (ast@, next as int) == minted(
                doc,
                nodes@.subrange(0, i as int),
                asset_roots@,
                first as int,
            ),
            ast.next_node == old(ast).next_node,
        decreases nodes.len() - i,
    {
        proof {
            assert(nodes@.subrange(0, i + 1).drop_last() =~= nodes@.subrange(0, i as int));
            assert(nodes@.subrange(0, i + 1).last() == nodes@[i as int]);
        }
        if !contains(asset_roots, nodes[i]) {
            ast.set_id(nodes[i], next);
            next = next + 1;
        }
        i = i + 1;
    }
    assert(nodes@.subrange(0, i as int) =~= nodes@);
    next
}

/// Giving patches an id: the id reads back, and the name stays.
pub proof fn law_id_written(patches: Seq<PatchView>, id: u64)
    ensures
        id_in(with_id(patches, id)) == Some(id as i128),
        name_in(with_id(patches, id)) == name_in(patches),
{
    let p = is_id();
    let after = with_id(patches, id);
    lemma_first_index(patches, p);
    let i = first_index(patches, p);
    assert(p(id_patch(id))) by {
        reveal_strlit("SceneNodeId");
        reveal_strlit("jackdaw_scene_types::node_id::SceneNodeId");
        let t = SCENE_NODE_ID_TYPE_PATH@;
        assert(t.subrange(t.len() - 11, t.len() as int) =~= "SceneNodeId"@);
    }
    lemma_first_index_is(after, p, i);
    let q = is_name();
    lemma_first_index(patches, q);
    let k = first_index(patches, q);
    if k < patches.len() {
        assert(after[k] == patches[k]);
        lemma_first_index_is(after, q, k);
    } else {
        assert forall|j: int| 0 <= j < after.len() implies !q(#[trigger] after[j]) by {
            if j < patches.len() && j != i {
                assert(after[j] == patches[j]);
            }
        }
        lemma_first_index_is(after, q, after.len() as int);
    }
}

/// Naming patches keeps the id.
pub(crate) proof fn lemma_name_keeps_id(patches: Seq<PatchView>, name: Seq<char>)
    ensures
        id_in(with_name(patches, Some(name))) == id_in(patches),
{
    let p = is_id();
    let q = is_name();
    let after = with_name(patches, Some(name));
    lemma_first_index(patches, p);
    lemma_first_index(patches, q);
    let i = first_index(patches, p);
    let k = first_index(patches, q);
    if k < patches.len() {
        assert(q(patches[k]));
        assert forall|j: int| 0 <= j < after.len() implies p(#[trigger] after[j]) == p(
            patches[j],
        ) by {
            if j != k {
                assert(after[j] == patches[j]);
            }
        }
        lemma_first_index_is(after, p, i);
        if i < patches.len() {
            assert(i != k);
        }
    } else {
        assert forall|j: int| 0 < j < after.len() implies after[j] == patches[j - 1] by {}
        assert(!p(after[0]));
        lemma_first_index_is(after, p, i + 1);
    }
}

/// After ids were minted every node among them has an id that was unused, no two nodes share one,
/// and names stay. The roots of assets and other nodes stay as they are.
pub proof fn law_minted_ids_are_fresh(
    doc: DocView,
    nodes: Seq<Entity>,
    asset_roots: Seq<Entity>,
    first: int,
)
    requires
        0 <= first,
        first + nodes.len() <= u64::MAX,
        nodes.no_duplicates(),
        forall|i: int| 0 <= i < nodes.len() ==> doc.nodes.contains_key(#[trigger] nodes[i]),
    ensures
        ({
            let after = minted(doc, nodes, asset_roots, first);
            &&& first <= after.1 <= first + nodes.len()
            &&& after.0.nodes.dom() == doc.nodes.dom()
            &&& forall|i: int|
                #![trigger after.0.patches_of(nodes[i])]
                0 <= i < nodes.len() && !asset_roots.contains(nodes[i]) ==> {
                    &&& id_in(after.0.patches_of(nodes[i])) matches Some(id) && first <= id
                        < after.1
                    &&& name_in(after.0.patches_of(nodes[i])) == name_in(doc.patches_of(nodes[i]))
                }
            &&& forall|i: int, j: int|
                #![trigger after.0.patches_of(nodes[i]), after.0.patches_of(nodes[j])]
                0 <= i < j < nodes.len() && !asset_roots.contains(nodes[i])
                    && !asset_roots.contains(nodes[j]) ==> id_in(after.0.patches_of(nodes[i]))
                    != id_in(after.0.patches_of(nodes[j]))
            &&& forall|n: Entity|
                !nodes.contains(n) || asset_roots.contains(n) ==> #[trigger] after.0.patches_of(n)
                    == doc.patches_of(n)
        }),
    decreases nodes.len(),
{
    let after = minted(doc, nodes, asset_roots, first);
    if nodes.len() == 0 {
        assert(after.0.nodes.dom() =~= doc.nodes.dom());
    } else {
        let init = nodes.drop_last();
        let n = nodes.last();
        assert(nodes[nodes.len() - 1] == n);
        assert(init.no_duplicates()) by {
            assert forall|i: int, j: int|
                0 <= i < init.len() && 0 <= j < init.len() && i != j implies init[i]
                != init[j] by {
                assert(nodes[i] != nodes[j]);
            }
        }
        assert(!init.contains(n)) by {
            if init.contains(n) {
                let i = choose|i: int| 0 <= i < init.len() && init[i] == n;
                assert(nodes[i] == nodes[nodes.len() - 1]);
            }
        }
        assert forall|i: int| 0 <= i < init.len() implies doc.nodes.contains_key(
            #[trigger] init[i],
        ) by {
            assert(init[i] == nodes[i]);
        }
        law_minted_ids_are_fresh(doc, init, asset_roots, first);
        let before = minted(doc, init, asset_roots, first);
        assert forall|i: int| 0 <= i < init.len() implies #[trigger] after.0.patches_of(nodes[i])
            == before.0.patches_of(init[i]) by {
            assert(init[i] == nodes[i]);
            assert(init.contains(init[i]));
        }
        assert(before.0.nodes.dom().contains(n));
        assert(after.0.nodes.dom() =~= doc.nodes.dom());
        if !asset_roots.contains(n) {
            law_id_written(before.0.patches_of(n), before.1 as u64);
            assert(before.0.patches_of(n) == doc.patches_of(n));
            assert(id_in(after.0.patches_of(n)) == Some(before.1 as i128));
        }
        assert forall|m: Entity|
            !nodes.contains(m) || asset_roots.contains(m) implies #[trigger] after.0.patches_of(m)
            == doc.patches_of(m) by {
            if !nodes.contains(m) {
                assert(!init.contains(m)) by {
                    if init.contains(m) {
                        let i = choose|i: int| 0 <= i < init.len() && init[i] == m;
                        assert(nodes[i] == m);
                    }
                }
            }
            assert(before.0.patches_of(m) == doc.patches_of(m));
        }
        assert forall|i: int, j: int|
            #![trigger after.0.patches_of(nodes[i]), after.0.patches_of(nodes[j])]
            0 <= i < j < nodes.len() && !asset_roots.contains(nodes[i]) && !asset_roots.contains(
                nodes[j],
            ) implies id_in(after.0.patches_of(nodes[i])) != id_in(
            after.0.patches_of(nodes[j]),
        ) by {
            assert(after.0.patches_of(nodes[i]) == before.0.patches_of(init[i]));
            if j < init.len() {
                assert(after.0.patches_of(nodes[j]) == before.0.patches_of(init[j]));
            }
        }
    }
}

/// Whether ranks fall from every node to those below it, so that none is below itself.
pub open spec fn nodes_ranked(doc: DocView, rank: spec_fn(Entity) -> nat) -> bool {
    forall|n: Entity, c: Entity|
        doc.nodes.contains_key(n) && #[trigger] doc.nodes[n].children.contains(c) ==> rank(c)
            < rank(n)
}

/// Whether nodes hold, with every node, those below it.
pub open spec fn closed_below(doc: DocView, found: Seq<Entity>) -> bool {
    forall|n: Entity, c: Entity|
        found.contains(n) && doc.nodes.contains_key(n) && #[trigger] doc.nodes[n].children.contains(
            c,
        ) ==> found.contains(c)
}

proof fn lemma_joined_contains(a: Seq<Entity>, b: Seq<Entity>, x: Entity)
    ensures
        (a + b).contains(x) <==> a.contains(x) || b.contains(x),
{
    let both = a + b;
    if a.contains(x) {
        let i = choose|i: int| 0 <= i < a.len() && a[i] == x;
        assert(both[i] == x);
    }
    if b.contains(x) {
        let i = choose|i: int| 0 <= i < b.len() && b[i] == x;
        assert(both[a.len() + i] == x);
    }
    if both.contains(x) {
        let i = choose|i: int| 0 <= i < both.len() && both[i] == x;
        if i < a.len() {
            assert(a[i] == x);
        } else {
            assert(b[i - a.len()] == x);
        }
    }
}

proof fn lemma_visit_is_closed(
    doc: DocView,
    rank: spec_fn(Entity) -> nat,
    n: Entity,
    depth: nat,
)
    requires
        nodes_ranked(doc, rank),
        rank(n) <= depth,
    ensures
        visited(doc, n, depth).contains(n),
        closed_below(doc, visited(doc, n, depth)),
    decreases depth, 0nat,
{
    let found = visited(doc, n, depth);
    assert(found[0] == n);
    if depth > 0 && doc.nodes.contains_key(n) {
        let children = doc.nodes[n].children;
        let rest = visited_all(doc, children, (depth - 1) as nat);
        assert forall|i: int| 0 <= i < children.len() implies rank(#[trigger] children[i]) <= depth
            - 1 by {
            assert(doc.nodes[n].children.contains(children[i]));
        }
        lemma_visits_are_closed(doc, rank, children, (depth - 1) as nat);
        assert forall|m: Entity, c: Entity|
            found.contains(m) && doc.nodes.contains_key(m)
                && #[trigger] doc.nodes[m].children.contains(c) implies found.contains(c) by {
            lemma_joined_contains(seq![n], rest, m);
            lemma_joined_contains(seq![n], rest, c);
            if m == n {
                let i = choose|i: int| 0 <= i < children.len() && children[i] == c;
                assert(rest.contains(children[i]));
            } else {
                assert(!seq![n].contains(m)) by {
                    if seq![n].contains(m) {
                        let i = choose|i: int| 0 <= i < seq![n].len() && seq![n][i] == m;
                    }
                }
            }
        }
    } else {
        assert forall|m: Entity, c: Entity|
            found.contains(m) && doc.nodes.contains_key(m)
                && #[trigger] doc.nodes[m].children.contains(c) implies found.contains(c) by {
            assert(m == n);
            assert(rank(c) < rank(n));
        }
    }
}

proof fn lemma_visits_are_closed(
    doc: DocView,
    rank: spec_fn(Entity) -> nat,
    children: Seq<Entity>,
    depth: nat,
)
    requires
        nodes_ranked(doc, rank),
        forall|i: int| 0 <= i < children.len() ==> rank(#[trigger] children[i]) <= depth,
    ensures
        forall|i: int|
            0 <= i < children.len() ==> visited_all(doc, children, depth).contains(
                #[trigger] children[i],
            ),
        closed_below(doc, visited_all(doc, children, depth)),
    decreases depth, children.len() + 1,
{
    if children.len() > 0 {
        let init = children.drop_last();
        let first = visited(doc, children.last(), depth);
        let rest = visited_all(doc, init, depth);
        let found = visited_all(doc, children, depth);
        assert forall|i: int| 0 <= i < init.len() implies rank(#[trigger] init[i]) <= depth by {
            assert(init[i] == children[i]);
        }
        lemma_visits_are_closed(doc, rank, init, depth);
        assert(children[children.len() - 1] == children.last());
        lemma_visit_is_closed(doc, rank, children.last(), depth);
        assert forall|i: int| 0 <= i < children.len() implies found.contains(
            #[trigger] children[i],
        ) by {
            lemma_joined_contains(first, rest, children[i]);
            if i < init.len() {
                assert(rest.contains(init[i]));
            }
        }
        assert forall|m: Entity, c: Entity|
            found.contains(m) && doc.nodes.contains_key(m)
                && #[trigger] doc.nodes[m].children.contains(c) implies found.contains(c) by {
            lemma_joined_contains(first, rest, m);
            lemma_joined_contains(first, rest, c);
        }
    }
}

/// Every root of a document is among its nodes, and with every node those below it. Ranks that are no
/// higher than the number of nodes exist where no node is below itself.
pub proof fn law_all_nodes_are_found(doc: DocView, rank: spec_fn(Entity) -> nat)
    requires
        nodes_ranked(doc, rank),
        forall|i: int| 0 <= i < doc.roots.len() ==> rank(#[trigger] doc.roots[i])
            <= doc.nodes.len(),
    ensures
        forall|i: int| 0 <= i < doc.roots.len() ==> all_nodes(doc).contains(
            #[trigger] doc.roots[i],
        ),
        closed_below(doc, all_nodes(doc)),
{
    lemma_visits_are_closed(doc, rank, doc.roots, doc.nodes.len());
}

} // verus!
