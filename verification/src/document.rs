//! The scene document: a forest of nodes, each with an ordered list of patches.
use std::collections::HashMap;
use vstd::prelude::*;
use crate::patch::{
    authored_value, find_patch, has_patch, name_in, patch_index, patches_view, put_patch,
    read_edit, read_name, remove_edit, remove_patch, type_paths_in, with_edit, with_name,
    with_patch, without_edit, without_patch, write_edit, write_name, BsnPatch, PatchView,
};
use crate::seqs::{copied, filter_one, without};
use crate::text::text_of;
use crate::value::{BsnValue, Entity};

verus! {

broadcast use vstd::std_specs::hash::group_hash_axioms;

/// One node of the document.
#[derive(Debug)]
pub struct DocumentNode {
    /// The live entity that the node describes.
    pub entity: Option<Entity>,
    pub parent: Option<Entity>,
    pub children: Vec<Entity>,
    pub patches: Vec<BsnPatch>,
}

/// What a [`DocumentNode`] stands for.
#[verifier::ext_equal]
pub ghost struct NodeView {
    pub entity: Option<Entity>,
    pub parent: Option<Entity>,
    pub children: Seq<Entity>,
    pub patches: Seq<PatchView>,
}

impl View for DocumentNode {
    type V = NodeView;

    open spec fn view(&self) -> NodeView {
        NodeView {
            entity: self.entity,
            parent: self.parent,
            children: self.children@,
            patches: patches_view(self.patches@),
        }
    }
}

/// The live scene document.
#[derive(Debug)]
pub struct SceneBsnAst {
    pub nodes: HashMap<u64, DocumentNode>,
    /// The node of each live entity that the document tracks.
    pub links: HashMap<u64, u64>,
    pub roots: Vec<Entity>,
    /// The id that the next new node gets.
    pub next_node: u64,
}

/// What a [`SceneBsnAst`] stands for.
#[verifier::ext_equal]
pub ghost struct DocView {
    pub nodes: Map<Entity, NodeView>,
    pub links: Map<Entity, Entity>,
    pub roots: Seq<Entity>,
}

impl View for SceneBsnAst {
    type V = DocView;

    open spec fn view(&self) -> DocView {
        DocView {
            nodes: self.nodes@.map_values(|n: DocumentNode| n@),
            links: self.links@,
            roots: self.roots@,
        }
    }
}

impl DocView {
    /// The node of a live entity, if the document tracks the entity.
    pub open spec fn node_of(self, entity: Entity) -> Option<Entity> {
        if self.links.contains_key(entity) {
            Some(self.links[entity])
        } else {
            None
        }
    }

    /// The patches of a node; none when there is no such node.
    pub open spec fn patches_of(self, node: Entity) -> Seq<PatchView> {
        if self.nodes.contains_key(node) {
            self.nodes[node].patches
        } else {
            Seq::empty()
        }
    }

    /// The patches of a live entity's node; none when the document does not track it.
    pub open spec fn entity_patches(self, entity: Entity) -> Seq<PatchView> {
        match self.node_of(entity) {
            Some(node) => self.patches_of(node),
            None => Seq::empty(),
        }
    }

    /// The document with the patches of one node replaced; unchanged when there is no such node.
    pub open spec fn with_patches(self, node: Entity, patches: Seq<PatchView>) -> DocView {
        if self.nodes.contains_key(node) {
            DocView {
                nodes: self.nodes.insert(node, NodeView { patches, ..self.nodes[node] }),
                ..self
            }
        } else {
            self
        }
    }

    /// The document with the patches of a live entity's node replaced; unchanged when the document
    /// does not track it.
    pub open spec fn with_entity_patches(
        self,
        entity: Entity,
        patches: Seq<PatchView>,
    ) -> DocView {
        match self.node_of(entity) {
            Some(node) => self.with_patches(node, patches),
            None => self,
        }
    }

    /// Whether the document carries a patch of a component type for a live entity.
    pub open spec fn authors(self, entity: Entity, type_path: Seq<char>) -> bool {
        self.node_of(entity) is Some && has_patch(self.entity_patches(entity), type_path)
    }

    /// Every link leads to a node.
    pub open spec fn linked(self) -> bool {
        forall|e: Entity| #[trigger] self.links.contains_key(e) ==> self.nodes.contains_key(
            self.links[e],
        )
    }

    /// Every link leads to a node that refers back to the entity.
    pub open spec fn consistent(self) -> bool {
        forall|e: Entity| #[trigger] self.links.contains_key(e) ==> self.nodes.contains_key(
            self.links[e],
        ) && self.nodes[self.links[e]].entity == Some(e)
    }

    /// The document with a node taken out of the children of its parent, or out of the roots.
    pub open spec fn detached(self, node: Entity) -> DocView {
        match self.nodes[node].parent {
            Some(p) => if self.nodes.contains_key(p) {
                DocView {
                    nodes: self.nodes.insert(
                        p,
                        NodeView {
                            children: without(self.nodes[p].children, node),
                            ..self.nodes[p]
                        },
                    ),
                    ..self
                }
            } else {
                self
            },
            None => DocView { roots: without(self.roots, node), ..self },
        }
    }

    /// The document with a node put under `parent`, or among the roots, at `index` or at the end
    /// when there are fewer.
    pub open spec fn attached(self, node: Entity, parent: Option<Entity>, index: nat) -> DocView {
        match parent {
            Some(p) => {
                let children = self.nodes[p].children;
                let moved = self.nodes.insert(
                    p,
                    NodeView {
                        children: children.insert(at_most(index, children.len()), node),
                        ..self.nodes[p]
                    },
                );
                DocView {
                    nodes: moved.insert(node, NodeView { parent, ..moved[node] }),
                    ..self
                }
            },
            None => DocView {
                nodes: self.nodes.insert(node, NodeView { parent, ..self.nodes[node] }),
                roots: self.roots.insert(at_most(index, self.roots.len()), node),
                ..self
            },
        }
    }

    /// The document after a node moved to `parent` at `index`.
    pub open spec fn moved(self, node: Entity, parent: Option<Entity>, index: nat) -> DocView {
        self.detached(node).attached(node, parent, index)
    }
}

/// The smaller of an index and a length.
pub open spec fn at_most(index: nat, len: nat) -> int {
    if index < len {
        index as int
    } else {
        len as int
    }
}

impl SceneBsnAst {
    /// An empty document.
    pub fn new() -> (r: SceneBsnAst)
        ensures
            r@ == (DocView { nodes: Map::empty(), links: Map::empty(), roots: Seq::empty() }),
            r.next_node == 0,
            r.wf(),
    {
        let r = SceneBsnAst {
            nodes: HashMap::new(),
            links: HashMap::new(),
            roots: Vec::new(),
            next_node: 0,
        };
        assert(r@ =~= (DocView {
            nodes: Map::empty(),
            links: Map::empty(),
            roots: Seq::empty(),
        }));
        r
    }

    /// Every link leads to a node, and every node id has been handed out.
    pub open spec fn wf(&self) -> bool {
        &&& self@.linked()
        &&& forall|n: Entity| #[trigger] self@.nodes.contains_key(n) ==> n < self.next_node
    }

    /// The node of a live entity.
    pub fn ast_for(&self, entity: Entity) -> (r: Option<Entity>)
        ensures
            r == self@.node_of(entity),
    {
        match self.links.get(&entity) {
            Some(node) => Some(*node),
            None => None,
        }
    }

    /// The live entity of a node.
    pub fn ecs_for_ast(&self, node: Entity) -> (r: Option<Entity>)
        ensures
            r == (if self@.nodes.contains_key(node) {
                self@.nodes[node].entity
            } else {
                None
            }),
    {
        match self.nodes.get(&node) {
            Some(n) => n.entity,
            None => None,
        }
    }

    /// The parent of a node.
    pub fn find_ast_parent_of(&self, node: Entity) -> (r: Option<Entity>)
        ensures
            r == (if self@.nodes.contains_key(node) {
                self@.nodes[node].parent
            } else {
                None
            }),
    {
        match self.nodes.get(&node) {
            Some(n) => n.parent,
            None => None,
        }
    }

    /// The children of a node, in order.
    pub fn get_children_ast(&self, node: Entity) -> (r: Vec<Entity>)
        ensures
            r@ == (if self@.nodes.contains_key(node) {
                self@.nodes[node].children
            } else {
                Seq::empty()
            }),
    {
        match self.nodes.get(&node) {
            Some(n) => copied(&n.children),
            None => Vec::new(),
        }
    }

    /// Adds a node with the given patches and returns its id.
    pub fn create_entity_node(&mut self, patches: Vec<BsnPatch>) -> (node: Entity)
        requires
            old(self).wf(),
            old(self).next_node < u64::MAX,
        ensures
            final(self).wf(),
            !old(self)@.nodes.contains_key(node),
            final(self)@ == (DocView {
                nodes: old(self)@.nodes.insert(
                    node,
                    NodeView {
                        entity: None,
                        parent: None,
                        children: Seq::empty(),
                        patches: patches_view(patches@),
                    },
                ),
                ..old(self)@
            }),
            final(self).next_node == old(self).next_node + 1,
    {
        let node: u64 = self.next_node;
        self.nodes.insert(
            node,
            DocumentNode { entity: None, parent: None, children: Vec::new(), patches },
        );
        self.next_node = node + 1;
        assert(self@ =~= (DocView {
            nodes: old(self)@.nodes.insert(
                node,
                NodeView {
                    entity: None,
                    parent: None,
                    children: Seq::empty(),
                    patches: patches_view(patches@),
                },
            ),
            ..old(self)@
        }));
        node
    }

    /// Puts a node at the end of the roots.
    pub fn add_to_roots(&mut self, node: Entity)
        ensures
            final(self)@ == (DocView { roots: old(self)@.roots.push(node), ..old(self)@ }),
            final(self).next_node == old(self).next_node,
    {
        self.roots.push(node);
        assert(self@ =~= (DocView { roots: old(self)@.roots.push(node), ..old(self)@ }));
    }

    /// Makes `node` the node of a live entity.
    pub fn link(&mut self, entity: Entity, node: Entity)
        requires
            old(self)@.nodes.contains_key(node),
        ensures
            final(self)@ == (DocView {
                nodes: old(self)@.nodes.insert(
                    node,
                    NodeView { entity: Some(entity), ..old(self)@.nodes[node] },
                ),
                links: old(self)@.links.insert(entity, node),
                ..old(self)@
            }),
            final(self).next_node == old(self).next_node,
            old(self).wf() ==> final(self).wf(),
    {
        match self.nodes.remove(&node) {
            Some(n) => {
                let n: DocumentNode = DocumentNode {
                    entity: Some(entity),
                    parent: n.parent,
                    children: n.children,
                    patches: n.patches,
                };
                self.nodes.insert(node, n);
            },
            None => {},
        }
        self.links.insert(entity, node);
        assert(self@ =~= (DocView {
            nodes: old(self)@.nodes.insert(
                node,
                NodeView { entity: Some(entity), ..old(self)@.nodes[node] },
            ),
            links: old(self)@.links.insert(entity, node),
            ..old(self)@
        }));
    }

    /// Takes a node out.
    pub(crate) fn take_node(&mut self, node: Entity) -> (r: Option<DocumentNode>)
        ensures
            final(self).links == old(self).links,
            final(self).roots == old(self).roots,
            final(self).next_node == old(self).next_node,
            final(self).nodes@ == old(self).nodes@.remove(node),
            match r {
                Some(n) => old(self).nodes@.contains_key(node) && n == old(self).nodes@[node],
                None => !old(self).nodes@.contains_key(node),
            },
    {
        let r: Option<DocumentNode> = self.nodes.remove(&node);
        r
    }

    /// The name of a node.
    pub fn get_name(&self, node: Entity) -> (r: Option<String>)
        ensures
            match r {
                Some(name) => name_in(self@.patches_of(node)) == Some(name@),
                None => name_in(self@.patches_of(node)) is None,
            },
    {
        match self.nodes.get(&node) {
            Some(n) => read_name(&n.patches),
            None => None,
        }
    }

    /// The position of a component's patch among the patches of a node.
    pub fn find_patch_by_type_path(&self, node: Entity, type_path: &str) -> (r: Option<usize>)
        ensures
            match r {
                Some(i) => has_patch(self@.patches_of(node), type_path@) && i == patch_index(
                    self@.patches_of(node),
                    type_path@,
                ),
                None => !has_patch(self@.patches_of(node), type_path@),
            },
    {
        match self.nodes.get(&node) {
            Some(n) => find_patch(&n.patches, type_path),
            None => None,
        }
    }

    /// A copy of a component's patch on a node.
    pub fn get_patch(&self, node: Entity, type_path: &str) -> (r: Option<BsnPatch>)
        ensures
            match r {
                Some(p) => has_patch(self@.patches_of(node), type_path@) && p@
                    == self@.patches_of(node)[patch_index(self@.patches_of(node), type_path@)],
                None => !has_patch(self@.patches_of(node), type_path@),
            },
    {
        match self.nodes.get(&node) {
            Some(n) => match find_patch(&n.patches, type_path) {
                Some(i) => Some(n.patches[i].copy()),
                None => None,
            },
            None => None,
        }
    }

    /// The component types that a node carries a patch of, in order.
    pub fn component_type_paths(&self, node: Entity) -> (r: Vec<String>)
        ensures
            r@.map_values(|t: String| t@) == type_paths_in(self@.patches_of(node)),
    {
        let mut out: Vec<String> = Vec::new();
        match self.nodes.get(&node) {
            Some(n) => {
                let ghost view = patches_view(n.patches@);
                let mut i: usize = 0;
                assert(view.subrange(0, 0) =~= Seq::empty());
                while i < n.patches.len()
                    invariant
                        i <= n.patches.len(),
                        view == patches_view(n.patches@),
                        out@.map_values(|t: String| t@) == type_paths_in(
                            view.subrange(0, i as int),
                        ),
                    decreases n.patches.len() - i,
                {
                    let ghost before = out@;
                    proof {
                        assert(view.subrange(0, i + 1).drop_last() =~= view.subrange(0, i as int));
                        assert(view.subrange(0, i + 1).last() == view[i as int]);
                    }
                    match n.patches[i].type_path() {
                        Some(t) => {
                            out.push(t);
                            assert(out@.map_values(|t: String| t@) =~= before.map_values(
                                |t: String| t@,
                            ).push(t@));
                        },
                        None => {},
                    }
                    i = i + 1;
                }
                assert(view.subrange(0, i as int) =~= view);
            },
            None => {},
        }
        assert(out@.map_values(|t: String| t@) =~= type_paths_in(self@.patches_of(node)));
        out
    }

    /// Takes a component's patch off a node.
    pub fn remove_component_patch(&mut self, node: Entity, type_path: &str)
        ensures
            final(self)@ == old(self)@.with_patches(
                node,
                without_patch(old(self)@.patches_of(node), type_path@),
            ),
            final(self).next_node == old(self).next_node,
    {
        let taken: Option<DocumentNode> = self.take_node(node);
        if let Some(n) = taken {
            let mut patches: Vec<BsnPatch> = n.patches;
            remove_patch(&mut patches, type_path);
            self.nodes.insert(
                node,
                DocumentNode { entity: n.entity, parent: n.parent, children: n.children, patches },
            );
        }
        assert(self@ =~= old(self)@.with_patches(
            node,
            without_patch(old(self)@.patches_of(node), type_path@),
        ));
    }

    /// Puts a component's patch on a node, in the place of the one it has or at the end.
    pub fn set_patch(&mut self, node: Entity, type_path: &str, patch: BsnPatch)
        ensures
            final(self)@ == old(self)@.with_patches(
                node,
                with_patch(old(self)@.patches_of(node), type_path@, patch@),
            ),
            final(self).next_node == old(self).next_node,
    {
        let taken: Option<DocumentNode> = self.take_node(node);
        if let Some(n) = taken {
            let mut patches: Vec<BsnPatch> = n.patches;
            put_patch(&mut patches, type_path, patch);
            self.nodes.insert(
                node,
                DocumentNode { entity: n.entity, parent: n.parent, children: n.children, patches },
            );
        }
        assert(self@ =~= old(self)@.with_patches(
            node,
            with_patch(old(self)@.patches_of(node), type_path@, patch@),
        ));
    }

    /// Edits one field of a component on a node, or the whole component.
    pub fn edit_field(
        &mut self,
        node: Entity,
        type_path: &str,
        whole: bool,
        name: &str,
        value: BsnValue,
    )
        ensures
            final(self)@ == old(self)@.with_patches(
                node,
                with_edit(old(self)@.patches_of(node), type_path@, whole, name@, value@),
            ),
            final(self).next_node == old(self).next_node,
    {
        let taken: Option<DocumentNode> = self.take_node(node);
        if let Some(n) = taken {
            let mut patches: Vec<BsnPatch> = n.patches;
            write_edit(&mut patches, type_path, whole, name, value);
            self.nodes.insert(
                node,
                DocumentNode { entity: n.entity, parent: n.parent, children: n.children, patches },
            );
        }
        assert(self@ =~= old(self)@.with_patches(
            node,
            with_edit(old(self)@.patches_of(node), type_path@, whole, name@, value@),
        ));
    }

    /// The authored value of a component's field on a node.
    pub fn get_bsn_field(&self, node: Entity, type_path: &str, field_path: &str) -> (r: Option<
        BsnValue,
    >)
        ensures
            match r {
                Some(v) => authored_value(self@.patches_of(node), type_path@, field_path@) == Some(
                    v@,
                ),
                None => authored_value(self@.patches_of(node), type_path@, field_path@) is None,
            },
    {
        match self.nodes.get(&node) {
            Some(n) => read_edit(&n.patches, type_path, field_path),
            None => None,
        }
    }

    /// Takes one field of a component off a node.
    pub fn remove_bsn_field(&mut self, node: Entity, type_path: &str, field_path: &str)
        ensures
            final(self)@ == old(self)@.with_patches(
                node,
                without_edit(old(self)@.patches_of(node), type_path@, field_path@),
            ),
            final(self).next_node == old(self).next_node,
    {
        let taken: Option<DocumentNode> = self.take_node(node);
        if let Some(n) = taken {
            let mut patches: Vec<BsnPatch> = n.patches;
            remove_edit(&mut patches, type_path, field_path);
            self.nodes.insert(
                node,
                DocumentNode { entity: n.entity, parent: n.parent, children: n.children, patches },
            );
        }
        assert(self@ =~= old(self)@.with_patches(
            node,
            without_edit(old(self)@.patches_of(node), type_path@, field_path@),
        ));
    }

    /// Takes a node out of the children of its parent, or out of the roots.
    pub(crate) fn detach_node(&mut self, node: Entity)
        requires
            old(self)@.nodes.contains_key(node),
        ensures
            final(self)@ == old(self)@.detached(node),
            final(self).next_node == old(self).next_node,
    {
        let parent: Option<Entity> = match self.nodes.get(&node) {
            Some(n) => n.parent,
            None => None,
        };
        match parent {
            Some(p) => {
                let taken: Option<DocumentNode> = self.take_node(p);
                if let Some(n) = taken {
                    let children: Vec<Entity> = filter_one(&n.children, node);
                    self.nodes.insert(
                        p,
                        DocumentNode {
                            entity: n.entity,
                            parent: n.parent,
                            children,
                            patches: n.patches,
                        },
                    );
                }
            },
            None => {
                self.roots = filter_one(&self.roots, node);
            },
        }
        assert(self@ =~= old(self)@.detached(node));
    }

    /// Puts a node under `parent`, or among the roots, at `index` or at the end.
    pub(crate) fn attach_node(&mut self, node: Entity, parent: Option<Entity>, index: usize)
        requires
            old(self)@.nodes.contains_key(node),
            parent is Some ==> old(self)@.nodes.contains_key(parent->0) && parent->0 != node,
        ensures
            final(self)@ == old(self)@.attached(node, parent, index as nat),
            final(self).next_node == old(self).next_node,
    {
        match parent {
            Some(p) => {
                let taken: Option<DocumentNode> = self.take_node(p);
                if let Some(n) = taken {
                    let mut children: Vec<Entity> = n.children;
                    let at: usize = if index < children.len() {
                        index
                    } else {
                        children.len()
                    };
                    children.insert(at, node);
                    self.nodes.insert(
                        p,
                        DocumentNode {
                            entity: n.entity,
                            parent: n.parent,
                            children,
                            patches: n.patches,
                        },
                    );
                }
            },
            None => {
                let at: usize = if index < self.roots.len() {
                    index
                } else {
                    self.roots.len()
                };
                self.roots.insert(at, node);
            },
        }
        let taken: Option<DocumentNode> = self.take_node(node);
        if let Some(n) = taken {
            self.nodes.insert(
                node,
                DocumentNode {
                    entity: n.entity,
                    parent,
                    children: n.children,
                    patches: n.patches,
                },
            );
        }
        assert(self@ =~= old(self)@.attached(node, parent, index as nat));
    }

    /// Moves a node under `parent`, or among the roots, to `index` or to the end.
    pub fn move_node(&mut self, node: Entity, parent: Option<Entity>, index: usize)
        requires
            old(self)@.nodes.contains_key(node),
            parent is Some ==> old(self)@.nodes.contains_key(parent->0) && parent->0 != node,
        ensures
            final(self)@ == old(self)@.moved(node, parent, index as nat),
            final(self).next_node == old(self).next_node,
    {
        self.detach_node(node);
        self.attach_node(node, parent, index);
    }

    /// Takes a node and its link out of the document.
    pub(crate) fn forget_node(&mut self, node: Entity)
        ensures
            final(self).nodes@ == old(self).nodes@.remove(node),
            final(self).roots == old(self).roots,
            final(self).next_node == old(self).next_node,
            final(self).links@ == (if old(self).nodes@.contains_key(node) {
                match old(self).nodes@[node].entity {
                    Some(e) => if old(self).links@.contains_key(e) && old(self).links@[e] == node {
                        old(self).links@.remove(e)
                    } else {
                        old(self).links@
                    },
                    None => old(self).links@,
                }
            } else {
                old(self).links@
            }),
    {
        let taken: Option<DocumentNode> = self.take_node(node);
        if let Some(n) = taken {
            if let Some(e) = n.entity {
                if self.ast_for(e) == Some(node) {
                    self.links.remove(&e);
                }
            }
        }
    }
}

/// Sets, replaces or removes the name patch of a node.
pub fn set_name_patch(ast: &mut SceneBsnAst, node: Entity, name: Option<String>)
    ensures
        final(ast)@ == old(ast)@.with_patches(
            node,
            with_name(
                old(ast)@.patches_of(node),
                text_of(name),
            ),
        ),
        final(ast).next_node == old(ast).next_node,
{
    let ghost wanted = text_of(name);
    let taken: Option<DocumentNode> = ast.take_node(node);
    if let Some(n) = taken {
        let mut patches: Vec<BsnPatch> = n.patches;
        write_name(&mut patches, name);
        ast.nodes.insert(
            node,
            DocumentNode { entity: n.entity, parent: n.parent, children: n.children, patches },
        );
    }
    assert(ast@ =~= old(ast)@.with_patches(node, with_name(old(ast)@.patches_of(node), wanted)));
}

} // verus!
