//! Which entities the outliner shows, below which, and as what.
use vstd::prelude::*;
use crate::document::DocView;
use crate::lifecycle::index_in;
use crate::seqs::contains;
use crate::sorting::{law_sorted, stable_sort, stably_sorted, Ranked};
use crate::value::Entity;
use crate::world::{Marks, SceneWorld, WorldView};

verus! {

broadcast use vstd::std_specs::hash::group_hash_axioms;

/// What an entity is shown as.
#[derive(Clone, Copy, Debug, PartialEq, Eq, Structural)]
pub enum EntityCategory {
    /// A node that the loader of a model made.
    AssetPart,
    Prefab,
    Camera,
    Light,
    Mesh,
    Scene,
    /// Something without a type of its own that holds other entities.
    Group,
    Entity,
}

impl WorldView {
    /// The marks of an entity; none for one that is not alive.
    pub open spec fn marks_of(self, e: Entity) -> Marks {
        if self.alive(e) {
            self.entities[e].marks
        } else {
            Marks::none_spec()
        }
    }

    /// The ancestors of an entity, the nearest first, up to `depth` of them.
    pub open spec fn ancestors_to(self, e: Entity, depth: nat) -> Seq<Entity>
        decreases depth,
    {
        match self.parent_of(e) {
            Some(p) => if depth == 0 {
                Seq::empty()
            } else {
                seq![p] + self.ancestors_to(p, (depth - 1) as nat)
            },
            None => Seq::empty(),
        }
    }

    /// The ancestors of an entity, the nearest first.
    pub open spec fn ancestors(self, e: Entity) -> Seq<Entity> {
        self.ancestors_to(e, self.entities.len())
    }

    /// Whether every parent ranks lower than its child, so that no entity is its own ancestor.
    pub open spec fn ranked_upwards(self, rank: spec_fn(Entity) -> nat) -> bool {
        forall|e: Entity, p: Entity|
            #[trigger] self.parent_of(e) == Some(p) ==> #[trigger] rank(p) < rank(e)
    }

    /// Whether an ancestor of an entity shows a model.
    pub open spec fn below_model(self, e: Entity) -> bool {
        exists|i: int|
            0 <= i < self.ancestors(e).len() && self.marks_of(
                #[trigger] self.ancestors(e)[i],
            ).gltf_source
    }

    /// Whether an entity was made by the loader of a model that it is below. What the user puts
    /// below a model has a node in the document.
    pub open spec fn asset_part(self, e: Entity) -> bool {
        self.doc.node_of(e) is None && self.below_model(e)
    }

    /// Whether an entity belongs in the outliner of the scene.
    pub open spec fn scene_member(self, e: Entity) -> bool {
        &&& self.alive(e)
        &&& !self.marks_of(e).editor_hidden
        &&& !self.marks_of(e).editor_entity
        &&& self.doc.node_of(e) is Some || self.asset_part(e)
    }

    /// The live entities of document nodes that belong in the outliner, in order.
    pub open spec fn members_at(self, nodes: Seq<Entity>) -> Seq<Entity>
        decreases nodes.len(),
    {
        if nodes.len() == 0 {
            Seq::empty()
        } else {
            let before = self.members_at(nodes.drop_last());
            match self.doc.entity_at(nodes.last()) {
                Some(e) => if self.scene_member(e) {
                    before.push(e)
                } else {
                    before
                },
                None => before,
            }
        }
    }

    /// The live entities of document nodes that belong in the outliner, in order, each once.
    pub open spec fn with_document_kids(self, nodes: Seq<Entity>) -> Seq<Entity>
        decreases nodes.len(),
    {
        if nodes.len() == 0 {
            Seq::empty()
        } else {
            let before = self.with_document_kids(nodes.drop_last());
            match self.doc.entity_at(nodes.last()) {
                Some(e) => if self.scene_member(e) && !before.contains(e) {
                    before.push(e)
                } else {
                    before
                },
                None => before,
            }
        }
    }

    /// `kids`, and behind them the loaded parts among `children` that are not there yet.
    pub open spec fn with_parts(self, kids: Seq<Entity>, children: Seq<Entity>) -> Seq<Entity>
        decreases children.len(),
    {
        if children.len() == 0 {
            kids
        } else {
            let before = self.with_parts(kids, children.drop_last());
            let c = children.last();
            if self.scene_member(c) && self.asset_part(c) && !before.contains(c) {
                before.push(c)
            } else {
                before
            }
        }
    }

    /// What the outliner of the scene shows below an entity: its children in the document, then,
    /// for a model and its parts, the parts that were loaded.
    pub open spec fn scene_children(self, e: Entity) -> Seq<Entity> {
        let kids = match self.doc.node_of(e) {
            Some(n) => self.with_document_kids(self.doc.children_at(n)),
            None => Seq::empty(),
        };
        if self.marks_of(e).gltf_source || self.asset_part(e) {
            self.with_parts(kids, self.children_of(e))
        } else {
            kids
        }
    }

    /// What the outliner of the running game shows below an entity.
    pub open spec fn live_children(self, e: Entity) -> Seq<Entity> {
        self.children_of(e).filter(self.is_live())
    }

    pub open spec fn is_live(self) -> spec_fn(Entity) -> bool {
        |e: Entity| self.marks_of(e).live_preview
    }

    /// What the outliner shows below an entity.
    pub open spec fn shown_children(self, live: bool, e: Entity) -> Seq<Entity> {
        if live {
            self.live_children(e)
        } else {
            self.scene_children(e)
        }
    }

    /// What an entity is shown as.
    pub open spec fn category(self, live: bool, e: Entity) -> EntityCategory {
        let m = self.marks_of(e);
        if self.asset_part(e) {
            EntityCategory::AssetPart
        } else if m.prefab_instance {
            EntityCategory::Prefab
        } else if m.camera {
            EntityCategory::Camera
        } else if m.light {
            EntityCategory::Light
        } else if m.mesh {
            EntityCategory::Mesh
        } else if m.scene_root || m.gltf_source || m.world_asset_root {
            EntityCategory::Scene
        } else if self.shown_children(live, e).len() > 0 {
            EntityCategory::Group
        } else {
            EntityCategory::Entity
        }
    }

    /// Whether an entity was made from a prefab without being the root of an instance.
    pub open spec fn inherited(self, e: Entity) -> bool {
        self.marks_of(e).prefab_entity && !self.marks_of(e).prefab_instance
    }

    /// The root of the prefab instance that an entity is in: the entity itself, or its nearest
    /// ancestor that is one.
    pub open spec fn instance_root(self, e: Entity) -> Option<Entity> {
        let chain = seq![e] + self.ancestors(e);
        let i = crate::seqs::first_index(chain, self.is_instance());
        if i < chain.len() {
            Some(chain[i])
        } else {
            None
        }
    }

    pub open spec fn is_instance(self) -> spec_fn(Entity) -> bool {
        |e: Entity| self.marks_of(e).prefab_instance
    }
}

impl DocView {
    /// The live entity of a node.
    pub open spec fn entity_at(self, node: Entity) -> Option<Entity> {
        if self.nodes.contains_key(node) {
            self.nodes[node].entity
        } else {
            None
        }
    }

    /// The children of a node.
    pub open spec fn children_at(self, node: Entity) -> Seq<Entity> {
        if self.nodes.contains_key(node) {
            self.nodes[node].children
        } else {
            Seq::empty()
        }
    }
}

/// The ancestors of an entity, the nearest first.
pub fn ancestors_of(world: &SceneWorld, entity: Entity) -> (r: Vec<Entity>)
    ensures
        r@ == world@.ancestors(entity),
{
    let mut out: Vec<Entity> = Vec::new();
    let mut current: Entity = entity;
    let mut depth: usize = world.entities.len();
    let ghost goal = world@.ancestors(entity);
    assert(world@.entities.dom() =~= world.entities@.dom());
    assert(out@ + world@.ancestors_to(current, depth as nat) =~= goal);
    while depth > 0
        invariant
            goal == world@.ancestors(entity),
            goal == out@ + world@.ancestors_to(current, depth as nat),
        decreases depth,
    {
        match world.parent(current) {
            Some(p) => {
                let ghost before = out@;
                let ghost rest = world@.ancestors_to(p, (depth - 1) as nat);
                out.push(p);
                depth = depth - 1;
                current = p;
                assert(before + (seq![p] + rest) =~= out@ + rest);
            },
            None => {
                assert(goal =~= out@);
                return out;
            },
        }
    }
    assert(goal =~= out@);
    out
}

/// With parents that rank lower, the ancestors are all there: looking further up finds no more.
pub proof fn law_ancestors_are_complete(
    w: WorldView,
    rank: spec_fn(Entity) -> nat,
    e: Entity,
    depth: nat,
    more: nat,
)
    requires
        w.ranked_upwards(rank),
        rank(e) <= depth <= more,
    ensures
        w.ancestors_to(e, depth) == w.ancestors_to(e, more),
    decreases depth,
{
    if let Some(p) = w.parent_of(e) {
        assert(rank(p) < rank(e));
        law_ancestors_are_complete(w, rank, p, (depth - 1) as nat, (more - 1) as nat);
    }
}

/// Whether an entity was made by the loader of a model.
pub fn is_asset_part(world: &SceneWorld, entity: Entity) -> (r: bool)
    ensures
        r == world@.asset_part(entity),
{
    if world.document.ast_for(entity).is_some() {
        return false;
    }
    let chain: Vec<Entity> = ancestors_of(world, entity);
    let mut i: usize = 0;
    while i < chain.len()
        invariant
            i <= chain.len(),
            world@.doc.node_of(entity) is None,
            chain@ == world@.ancestors(entity),
            forall|j: int| 0 <= j < i ==> !world@.marks_of(#[trigger] chain@[j]).gltf_source,
        decreases chain.len() - i,
    {
        if world.marks(chain[i]).gltf_source {
            assert(world@.marks_of(world@.ancestors(entity)[i as int]).gltf_source);
            return true;
        }
        i = i + 1;
    }
    false
}

/// Whether an entity belongs in the outliner of the scene.
pub fn is_scene_member(world: &SceneWorld, entity: Entity) -> (r: bool)
    ensures
        r == world@.scene_member(entity),
{
    let marks: Marks = world.marks(entity);
    world.is_alive(entity) && !marks.editor_hidden && !marks.editor_entity && (
    world.document.ast_for(entity).is_some() || is_asset_part(world, entity))
}

/// What the outliner of the scene shows at the top: the entities of the document's roots.
pub fn scene_roots(world: &SceneWorld) -> (r: Vec<Entity>)
    ensures
        r@ == world@.members_at(world@.doc.roots),
{
    let roots: &Vec<Entity> = &world.document.roots;
    let mut out: Vec<Entity> = Vec::new();
    let mut i: usize = 0;
    assert(roots@.subrange(0, 0) =~= Seq::empty());
    while i < roots.len()
        invariant
            i <= roots.len(),
            roots@ == world@.doc.roots,
            out@ == world@.members_at(roots@.subrange(0, i as int)),
        decreases roots.len() - i,
    {
        proof {
            assert(roots@.subrange(0, i + 1).drop_last() =~= roots@.subrange(0, i as int));
            assert(roots@.subrange(0, i + 1).last() == roots@[i as int]);
        }
        if let Some(e) = world.document.ecs_for_ast(roots[i]) {
            if is_scene_member(world, e) {
                out.push(e);
            }
        }
        i = i + 1;
    }
    assert(roots@.subrange(0, i as int) =~= roots@);
    out
}

fn document_kids(world: &SceneWorld, nodes: &Vec<Entity>) -> (r: Vec<Entity>)
    ensures
        r@ == world@.with_document_kids(nodes@),
{
    let mut kids: Vec<Entity> = Vec::new();
    let mut i: usize = 0;
    assert(nodes@.subrange(0, 0) =~= Seq::empty());
    while i < nodes.len()
        invariant
            i <= nodes.len(),
            kids@ == world@.with_document_kids(nodes@.subrange(0, i as int)),
        decreases nodes.len() - i,
    {
        proof {
            assert(nodes@.subrange(0, i + 1).drop_last() =~= nodes@.subrange(0, i as int));
            assert(nodes@.subrange(0, i + 1).last() == nodes@[i as int]);
        }
        if let Some(e) = world.document.ecs_for_ast(nodes[i]) {
            if is_scene_member(world, e) && !contains(&kids, e) {
                kids.push(e);
            }
        }
        i = i + 1;
    }
    assert(nodes@.subrange(0, i as int) =~= nodes@);
    kids
}

fn add_parts(world: &SceneWorld, kids: &mut Vec<Entity>, children: &Vec<Entity>)
    ensures
        final(kids)@ == world@.with_parts(old(kids)@, children@),
{
    let ghost start = kids@;
    let mut i: usize = 0;
    assert(children@.subrange(0, 0) =~= Seq::empty());
    while i < children.len()
        invariant
            i <= children.len(),
            kids@ == world@.with_parts(start, children@.subrange(0, i as int)),
        decreases children.len() - i,
    {
        proof {
            assert(children@.subrange(0, i + 1).drop_last() =~= children@.subrange(0, i as int));
            assert(children@.subrange(0, i + 1).last() == children@[i as int]);
        }
        let c: Entity = children[i];
        if is_scene_member(world, c) && is_asset_part(world, c) && !contains(kids, c) {
            kids.push(c);
        }
        i = i + 1;
    }
    assert(children@.subrange(0, i as int) =~= children@);
}

/// What the outliner of the scene shows below an entity.
pub fn scene_children(world: &SceneWorld, entity: Entity) -> (r: Vec<Entity>)
    ensures
        r@ == world@.scene_children(entity),
{
    let mut kids: Vec<Entity> = match world.document.ast_for(entity) {
        Some(node) => {
            let nodes: Vec<Entity> = world.document.get_children_ast(node);
            document_kids(world, &nodes)
        },
        None => Vec::new(),
    };
    if world.marks(entity).gltf_source || is_asset_part(world, entity) {
        let children: Vec<Entity> = world.children(entity);
        add_parts(world, &mut kids, &children);
    }
    kids
}

/// What the outliner of the running game shows below an entity.
pub fn live_children(world: &SceneWorld, entity: Entity) -> (r: Vec<Entity>)
    ensures
        r@ == world@.live_children(entity),
{
    let children: Vec<Entity> = world.children(entity);
    let ghost p = world@.is_live();
    let mut out: Vec<Entity> = Vec::new();
    let mut i: usize = 0;
    assert(children@.subrange(0, 0).filter(p) =~= Seq::empty()) by {
        reveal(Seq::filter);
    }
    while i < children.len()
        invariant
            i <= children.len(),
            p == world@.is_live(),
            out@ == children@.subrange(0, i as int).filter(p),
        decreases children.len() - i,
    {
        proof {
            let cut = children@.subrange(0, i as int);
            assert(children@.subrange(0, i + 1) =~= cut.push(children@[i as int]));
            crate::seqs::lemma_filter_push(cut, children@[i as int], p);
        }
        if world.marks(children[i]).live_preview {
            out.push(children[i]);
        }
        i = i + 1;
    }
    assert(children@.subrange(0, i as int) =~= children@);
    out
}

/// What the outliner shows below an entity.
pub fn outliner_children(world: &SceneWorld, live: bool, entity: Entity) -> (r: Vec<Entity>)
    ensures
        r@ == world@.shown_children(live, entity),
{
    if live {
        live_children(world, entity)
    } else {
        scene_children(world, entity)
    }
}

/// What an entity is shown as. The parts of a model come first: a part with a mesh is not an
/// authored mesh. A model is one whether or not it is loaded yet.
pub fn classify_entity(world: &SceneWorld, live: bool, entity: Entity) -> (r: EntityCategory)
    ensures
        r == world@.category(live, entity),
{
    if is_asset_part(world, entity) {
        return EntityCategory::AssetPart;
    }
    let marks: Marks = world.marks(entity);
    if marks.prefab_instance {
        EntityCategory::Prefab
    } else if marks.camera {
        EntityCategory::Camera
    } else if marks.light {
        EntityCategory::Light
    } else if marks.mesh {
        EntityCategory::Mesh
    } else if marks.scene_root {
        EntityCategory::Scene
    } else if marks.gltf_source || marks.world_asset_root {
        EntityCategory::Scene
    } else if outliner_children(world, live, entity).len() > 0 {
        EntityCategory::Group
    } else {
        EntityCategory::Entity
    }
}

/// Whether an entity was made from a prefab without being the root of an instance.
pub fn is_inherited_entity(world: &SceneWorld, entity: Entity) -> (r: bool)
    ensures
        r == world@.inherited(entity),
{
    let marks: Marks = world.marks(entity);
    marks.prefab_entity && !marks.prefab_instance
}

/// The root of the prefab instance that an entity is in.
pub fn find_instance_root(world: &SceneWorld, entity: Entity) -> (r: Option<Entity>)
    ensures
        r == world@.instance_root(entity),
{
    let ghost chain = seq![entity] + world@.ancestors(entity);
    let ghost p = world@.is_instance();
    if world.marks(entity).prefab_instance {
        proof {
            crate::seqs::lemma_first_index_is(chain, p, 0);
        }
        return Some(entity);
    }
    let above: Vec<Entity> = ancestors_of(world, entity);
    let mut i: usize = 0;
    while i < above.len()
        invariant
            i <= above.len(),
            above@ == world@.ancestors(entity),
            chain == seq![entity] + above@,
            p == world@.is_instance(),
            forall|j: int| 0 <= j < i + 1 ==> !p(#[trigger] chain[j]),
        decreases above.len() - i,
    {
        assert(chain[i + 1] == above@[i as int]);
        if world.marks(above[i]).prefab_instance {
            proof {
                crate::seqs::lemma_first_index_is(chain, p, i + 1);
            }
            return Some(above[i]);
        }
        i = i + 1;
    }
    proof {
        crate::seqs::lemma_first_index_is(chain, p, chain.len() as int);
    }
    None
}

/// `bevy::ecs::entity::Entity::try_from_bits` and `Entity::index_u32`: the index of the entity with
/// these bits, if they are an entity's. The low half of the bits is the inverted index.
#[verifier::external_body]
fn entity_index(bits: u64) -> (r: Option<u32>)
    ensures
        r == index_in(bits),
{
    bevy::ecs::entity::Entity::try_from_bits(bits).map(|e| e.index_u32())
}

/// An entity with the index that it is ordered by.
#[derive(Clone, Copy, Debug, PartialEq, Eq, Structural)]
pub struct Indexed {
    pub entity: Entity,
    pub index: Option<u32>,
}

impl Ranked for Indexed {
    open spec fn ranks_before(self, other: Self) -> bool {
        match (self.index, other.index) {
            (Some(a), Some(b)) => a <= b,
            (None, _) => true,
            (Some(_), None) => false,
        }
    }

    proof fn lemma_total(a: Self, b: Self) {
    }

    proof fn lemma_transitive(a: Self, b: Self, c: Self) {
    }

    fn may_precede(&self, other: &Self) -> (r: bool) {
        match (self.index, other.index) {
            (Some(a), Some(b)) => a <= b,
            (None, _) => true,
            (Some(_), None) => false,
        }
    }
}

/// Entities with the indexes that they are ordered by.
pub open spec fn indexed(s: Seq<Entity>) -> Seq<Indexed> {
    Seq::new(s.len(), |i: int| Indexed { entity: s[i], index: index_in(s[i]) })
}

pub open spec fn entities_in(s: Seq<Indexed>) -> Seq<Entity> {
    Seq::new(s.len(), |i: int| s[i].entity)
}

impl WorldView {
    /// Whether an entity of the running game hangs below no other.
    pub open spec fn live_root(self) -> spec_fn(Entity) -> bool {
        |e: Entity|
            match self.parent_of(e) {
                Some(p) => !self.marks_of(p).live_preview,
                None => true,
            }
    }

    /// The roots among the entities of the running game, by index.
    pub open spec fn live_roots(self, live: Seq<Entity>) -> Seq<Entity> {
        entities_in(stably_sorted(indexed(live.filter(self.live_root()))))
    }
}

/// What the outliner of the running game shows at the top, by index: the entities whose parent is
/// missing or not the game's own. `live` lists the game's entities.
pub fn live_tree_roots(world: &SceneWorld, live: &Vec<Entity>) -> (r: Vec<Entity>)
    ensures
        r@ == world@.live_roots(live@),
{
    let ghost p = world@.live_root();
    let mut found: Vec<Indexed> = Vec::new();
    let mut i: usize = 0;
    assert(live@.subrange(0, 0).filter(p) =~= Seq::empty()) by {
        reveal(Seq::filter);
    }
    assert(found@ =~= indexed(live@.subrange(0, 0).filter(p)));
    while i < live.len()
        invariant
            i <= live.len(),
            p == world@.live_root(),
            found@ == indexed(live@.subrange(0, i as int).filter(p)),
        decreases live.len() - i,
    {
        let ghost cut = live@.subrange(0, i as int);
        proof {
            assert(live@.subrange(0, i + 1) =~= cut.push(live@[i as int]));
            crate::seqs::lemma_filter_push(cut, live@[i as int], p);
        }
        let entity: Entity = live[i];
        let root: bool = match world.parent(entity) {
            Some(parent) => !world.marks(parent).live_preview,
            None => true,
        };
        if root {
            found.push(Indexed { entity, index: entity_index(entity) });
        }
        assert(found@ =~= indexed(live@.subrange(0, i + 1).filter(p)));
        i = i + 1;
    }
    assert(live@.subrange(0, i as int) =~= live@);
    let sorted: Vec<Indexed> = stable_sort(found);
    let mut out: Vec<Entity> = Vec::new();
    let mut k: usize = 0;
    while k < sorted.len()
        invariant
            k <= sorted.len(),
            out@ == entities_in(sorted@).subrange(0, k as int),
        decreases sorted.len() - k,
    {
        out.push(sorted[k].entity);
        k = k + 1;
        assert(out@ =~= entities_in(sorted@).subrange(0, k as int));
    }
    assert(entities_in(sorted@).subrange(0, k as int) =~= entities_in(sorted@));
    out
}

/// What the outliner shows at the top.
pub fn current_outliner_roots(world: &SceneWorld, live: bool, live_entities: &Vec<Entity>) -> (r:
    Vec<Entity>)
    ensures
        r@ == (if live {
            world@.live_roots(live_entities@)
        } else {
            world@.members_at(world@.doc.roots)
        }),
{
    if live {
        live_tree_roots(world, live_entities)
    } else {
        scene_roots(world)
    }
}

proof fn lemma_document_kids(w: WorldView, nodes: Seq<Entity>)
    ensures
        w.with_document_kids(nodes).no_duplicates(),
        forall|x: Entity| #[trigger]
            w.with_document_kids(nodes).contains(x) ==> w.scene_member(x),
    decreases nodes.len(),
{
    if nodes.len() > 0 {
        let before = w.with_document_kids(nodes.drop_last());
        lemma_document_kids(w, nodes.drop_last());
        if let Some(e) = w.doc.entity_at(nodes.last()) {
            if w.scene_member(e) && !before.contains(e) {
                lemma_pushed(before, e);
            }
        }
    }
}

proof fn lemma_pushed(s: Seq<Entity>, e: Entity)
    requires
        s.no_duplicates(),
        !s.contains(e),
    ensures
        s.push(e).no_duplicates(),
        forall|x: Entity| #[trigger] s.push(e).contains(x) == (s.contains(x) || x == e),
{
    let t = s.push(e);
    assert forall|x: Entity| #[trigger] t.contains(x) == (s.contains(x) || x == e) by {
        if s.contains(x) {
            let i = choose|i: int| 0 <= i < s.len() && s[i] == x;
            assert(t[i] == x);
        }
        if x == e {
            assert(t[s.len() as int] == x);
        }
        if t.contains(x) {
            let i = choose|i: int| 0 <= i < t.len() && t[i] == x;
            if i < s.len() {
                assert(s[i] == x);
            }
        }
    }
    assert forall|i: int, j: int| 0 <= i < t.len() && 0 <= j < t.len() && i != j implies t[i]
        != t[j] by {
        if i < s.len() {
            assert(s.contains(s[i]));
        }
        if j < s.len() {
            assert(s.contains(s[j]));
        }
    }
}

proof fn lemma_parts(w: WorldView, kids: Seq<Entity>, children: Seq<Entity>)
    requires
        kids.no_duplicates(),
        forall|x: Entity| #[trigger] kids.contains(x) ==> w.scene_member(x),
    ensures
        w.with_parts(kids, children).no_duplicates(),
        forall|x: Entity| #[trigger]
            w.with_parts(kids, children).contains(x) ==> w.scene_member(x),
    decreases children.len(),
{
    if children.len() > 0 {
        let before = w.with_parts(kids, children.drop_last());
        lemma_parts(w, kids, children.drop_last());
        let c = children.last();
        if w.scene_member(c) && w.asset_part(c) && !before.contains(c) {
            lemma_pushed(before, c);
        }
    }
}

/// The outliner of the scene shows nothing twice below an entity, and only live entities that
/// belong to the scene: neither the editor's own, nor what is neither in the document nor part of a
/// model.
pub proof fn law_scene_children_are_members(w: WorldView, e: Entity)
    ensures
        w.scene_children(e).no_duplicates(),
        forall|x: Entity| #[trigger]
            w.scene_children(e).contains(x) ==> {
                &&& w.alive(x)
                &&& !w.marks_of(x).editor_entity
                &&& !w.marks_of(x).editor_hidden
                &&& w.doc.node_of(x) is Some || w.asset_part(x)
            },
{
    let kids = match w.doc.node_of(e) {
        Some(n) => {
            lemma_document_kids(w, w.doc.children_at(n));
            w.with_document_kids(w.doc.children_at(n))
        },
        None => Seq::empty(),
    };
    lemma_parts(w, kids, w.children_of(e));
    assert forall|x: Entity| #[trigger] w.scene_children(e).contains(x) implies w.scene_member(
        x,
    ) by {}
}

/// The roots of the running game are ordered by their indexes.
pub proof fn law_live_roots_are_ordered(w: WorldView, live: Seq<Entity>)
    ensures
        forall|i: int, j: int|
            0 <= i < j < w.live_roots(live).len() ==> match (
                index_in(#[trigger] w.live_roots(live)[i]),
                index_in(#[trigger] w.live_roots(live)[j]),
            ) {
                (Some(a), Some(b)) => a <= b,
                (None, _) => true,
                (Some(_), None) => false,
            },
{
    broadcast use vstd::seq_lib::group_to_multiset_ensures;

    let keyed = indexed(live.filter(w.live_root()));
    let sorted = stably_sorted(keyed);
    law_sorted(keyed);
    let roots = w.live_roots(live);
    assert forall|i: int| 0 <= i < sorted.len() implies (#[trigger] sorted[i]).index == index_in(
        roots[i],
    ) by {
        assert(sorted.to_multiset().count(sorted[i]) > 0);
        assert(keyed.to_multiset().count(sorted[i]) > 0);
        assert(keyed.contains(sorted[i]));
    }
    assert forall|i: int, j: int| 0 <= i < j < roots.len() implies match (
        index_in(#[trigger] roots[i]),
        index_in(#[trigger] roots[j]),
    ) {
        (Some(a), Some(b)) => a <= b,
        (None, _) => true,
        (Some(_), None) => false,
    } by {
        assert(sorted[i].ranks_before(sorted[j]));
    }
}

/// What an entity is shown as goes by the first of these that holds: a loaded part, a prefab instance,
/// a camera, a light, a mesh, a scene or model, something with children, anything else.
pub proof fn law_category_of_an_entity(w: WorldView, live: bool, e: Entity)
    ensures
        ({
            let m = w.marks_of(e);
            let c = w.category(live, e);
            let part = w.asset_part(e);
            let scene = m.scene_root || m.gltf_source || m.world_asset_root;
            let children = w.shown_children(live, e).len() > 0;
            &&& part <==> c == EntityCategory::AssetPart
            &&& !part && m.prefab_instance <==> c == EntityCategory::Prefab
            &&& !part && !m.prefab_instance && m.camera <==> c == EntityCategory::Camera
            &&& !part && !m.prefab_instance && !m.camera && m.light <==> c == EntityCategory::Light
            &&& !part && !m.prefab_instance && !m.camera && !m.light && m.mesh <==> c
                == EntityCategory::Mesh
            &&& !part && !m.prefab_instance && !m.camera && !m.light && !m.mesh && scene <==> c
                == EntityCategory::Scene
            &&& !part && !m.prefab_instance && !m.camera && !m.light && !m.mesh && !scene
                && children <==> c == EntityCategory::Group
        }),
{
}

/// A loaded part is below a model and unknown to the document; what the document knows is never one.
pub proof fn law_asset_parts(w: WorldView, e: Entity, i: int)
    ensures
        w.doc.links.contains_key(e) ==> !w.asset_part(e),
        !w.doc.links.contains_key(e) && 0 <= i < w.ancestors(e).len() && w.alive(w.ancestors(e)[i])
            && w.entities[w.ancestors(e)[i]].marks.gltf_source ==> w.asset_part(e),
        w.ancestors(e).len() == 0 ==> !w.asset_part(e),
{
}

/// The members at document nodes are the entities of these nodes that belong in the outliner.
pub proof fn law_members_at_nodes(w: WorldView, nodes: Seq<Entity>, e: Entity)
    ensures
        w.members_at(nodes).contains(e) <==> w.scene_member(e) && exists|i: int|
            0 <= i < nodes.len() && w.doc.entity_at(#[trigger] nodes[i]) == Some(e),
    decreases nodes.len(),
{
    if nodes.len() > 0 {
        let init = nodes.drop_last();
        let before = w.members_at(init);
        law_members_at_nodes(w, init, e);
        assert(nodes[nodes.len() - 1] == nodes.last());
        if let Some(x) = w.doc.entity_at(nodes.last()) {
            crate::seqs::lemma_push_contains(before, x, e);
        }
        if before.contains(e) {
            let i = choose|i: int|
                0 <= i < init.len() && w.doc.entity_at(#[trigger] init[i]) == Some(e);
            assert(nodes[i] == init[i]);
        }
        if exists|i: int| 0 <= i < nodes.len() && w.doc.entity_at(#[trigger] nodes[i]) == Some(e) {
            let i = choose|i: int|
                0 <= i < nodes.len() && w.doc.entity_at(#[trigger] nodes[i]) == Some(e);
            if i < init.len() {
                assert(init[i] == nodes[i]);
            }
        }
    }
}

/// The outliner of the running game shows those children of an entity that belong to the game, and no
/// others.
pub proof fn law_live_children(w: WorldView, e: Entity, c: Entity)
    ensures
        w.shown_children(true, e).contains(c) <==> w.children_of(e).contains(c) && w.alive(c)
            && w.entities[c].marks.live_preview,
{
    crate::seqs::lemma_filter_contains(w.children_of(e), w.is_live(), c);
}

/// The prefab instance that an entity is in is the nearest at or above it.
pub proof fn law_nearest_instance(w: WorldView, e: Entity, i: int)
    ensures
        w.marks_of(e).prefab_instance ==> w.instance_root(e) == Some(e),
        !w.marks_of(e).prefab_instance && 0 <= i < w.ancestors(e).len() && w.marks_of(
            w.ancestors(e)[i],
        ).prefab_instance && (forall|j: int|
            0 <= j < i ==> !w.marks_of(#[trigger] w.ancestors(e)[j]).prefab_instance)
            ==> w.instance_root(e) == Some(w.ancestors(e)[i]),
        w.instance_root(e) matches Some(r) ==> w.marks_of(r).prefab_instance && (r == e
            || w.ancestors(e).contains(r)),
{
    let up = w.ancestors(e);
    let chain = seq![e] + up;
    let p = w.is_instance();
    crate::seqs::lemma_first_index(chain, p);
    assert(chain[0] == e);
    if w.marks_of(e).prefab_instance {
        crate::seqs::lemma_first_index_is(chain, p, 0);
    } else if 0 <= i < up.len() && w.marks_of(up[i]).prefab_instance && (forall|j: int|
        0 <= j < i ==> !w.marks_of(#[trigger] w.ancestors(e)[j]).prefab_instance) {
        assert(chain[i + 1] == up[i]);
        assert forall|j: int| 0 <= j < i + 1 implies !p(#[trigger] chain[j]) by {
            if j > 0 {
                assert(chain[j] == up[j - 1]);
                assert(!w.marks_of(w.ancestors(e)[j - 1]).prefab_instance);
            }
        }
        crate::seqs::lemma_first_index_is(chain, p, i + 1);
    }
    if let Some(r) = w.instance_root(e) {
        let k = crate::seqs::first_index(chain, p);
        if k > 0 {
            assert(up[k - 1] == r);
        }
    }
}

proof fn lemma_document_kids_are_all(w: WorldView, nodes: Seq<Entity>, x: Entity)
    ensures
        w.with_document_kids(nodes).contains(x) <==> w.scene_member(x) && exists|i: int|
            0 <= i < nodes.len() && w.doc.entity_at(#[trigger] nodes[i]) == Some(x),
    decreases nodes.len(),
{
    if nodes.len() > 0 {
        let init = nodes.drop_last();
        let before = w.with_document_kids(init);
        lemma_document_kids_are_all(w, init, x);
        assert(nodes[nodes.len() - 1] == nodes.last());
        if let Some(e) = w.doc.entity_at(nodes.last()) {
            crate::seqs::lemma_push_contains(before, e, x);
        }
        if before.contains(x) {
            let i = choose|i: int|
                0 <= i < init.len() && w.doc.entity_at(#[trigger] init[i]) == Some(x);
            assert(nodes[i] == init[i]);
        }
        if exists|i: int| 0 <= i < nodes.len() && w.doc.entity_at(#[trigger] nodes[i]) == Some(x) {
            let i = choose|i: int|
                0 <= i < nodes.len() && w.doc.entity_at(#[trigger] nodes[i]) == Some(x);
            if i < init.len() {
                assert(init[i] == nodes[i]);
            }
        }
    }
}

proof fn lemma_parts_are_all(w: WorldView, kids: Seq<Entity>, children: Seq<Entity>, x: Entity)
    ensures
        w.with_parts(kids, children).contains(x) <==> kids.contains(x) || (w.scene_member(x)
            && w.asset_part(x) && children.contains(x)),
    decreases children.len(),
{
    if children.len() > 0 {
        let init = children.drop_last();
        let c = children.last();
        let before = w.with_parts(kids, init);
        lemma_parts_are_all(w, kids, init, x);
        crate::seqs::lemma_push_contains(before, c, x);
        crate::seqs::lemma_push_contains(init, c, x);
        assert(init.push(c) =~= children);
    }
}

/// Below an entity the outliner of the scene shows the entities of the nodes below its own, and below
/// a model or a part of one the loaded parts among its children; of these, all that belong in it.
pub proof fn law_all_scene_children_are_shown(w: WorldView, e: Entity, x: Entity)
    ensures
        w.shown_children(false, e).contains(x) <==> w.scene_member(x) && ({
            ||| w.doc.links.contains_key(e) && w.doc.nodes.contains_key(w.doc.links[e]) && exists|
                i: int,
            |
                0 <= i < w.doc.nodes[w.doc.links[e]].children.len() && w.doc.entity_at(
                    #[trigger] w.doc.nodes[w.doc.links[e]].children[i],
                ) == Some(x)
            ||| (w.marks_of(e).gltf_source || w.asset_part(e)) && w.asset_part(x)
                && w.children_of(e).contains(x)
        }),
{
    let kids = match w.doc.node_of(e) {
        Some(n) => {
            lemma_document_kids_are_all(w, w.doc.children_at(n), x);
            w.with_document_kids(w.doc.children_at(n))
        },
        None => Seq::empty(),
    };
    lemma_parts_are_all(w, kids, w.children_of(e), x);
}

/// An entity belongs in the outliner of the scene if it is alive, not the editor's own and not hidden
/// from it, and in the document or part of a model.
pub proof fn law_scene_members(w: WorldView, e: Entity)
    ensures
        w.scene_member(e) ==> w.alive(e) && !w.entities[e].marks.editor_entity
            && !w.entities[e].marks.editor_hidden,
        w.alive(e) && !w.entities[e].marks.editor_entity && !w.entities[e].marks.editor_hidden
            && w.doc.links.contains_key(e) ==> w.scene_member(e),
        !w.doc.links.contains_key(e) && !w.asset_part(e) ==> !w.scene_member(e),
{
}

/// At the top of the outliner of the running game are the listed entities that hang below none of the
/// game's.
pub proof fn law_live_roots(w: WorldView, live: Seq<Entity>, e: Entity)
    ensures
        w.live_roots(live).contains(e) <==> live.contains(e) && (match w.parent_of(e) {
            Some(p) => !(w.alive(p) && w.entities[p].marks.live_preview),
            None => true,
        }),
{
    broadcast use vstd::seq_lib::group_to_multiset_ensures;

    let kept = live.filter(w.live_root());
    let keyed = indexed(kept);
    let sorted = stably_sorted(keyed);
    let roots = w.live_roots(live);
    law_sorted(keyed);
    crate::seqs::lemma_filter_contains(live, w.live_root(), e);
    if roots.contains(e) {
        let i = choose|i: int| 0 <= i < roots.len() && roots[i] == e;
        assert(sorted.to_multiset().count(sorted[i]) > 0);
        assert(keyed.to_multiset().count(sorted[i]) > 0);
        assert(keyed.contains(sorted[i]));
        let k = choose|k: int| 0 <= k < keyed.len() && keyed[k] == sorted[i];
        assert(kept[k] == e);
    }
    if kept.contains(e) {
        let k = choose|k: int| 0 <= k < kept.len() && kept[k] == e;
        assert(keyed[k].entity == e);
        assert(keyed.to_multiset().count(keyed[k]) > 0);
        assert(sorted.to_multiset().count(keyed[k]) > 0);
        assert(sorted.contains(keyed[k]));
        let i = choose|i: int| 0 <= i < sorted.len() && sorted[i] == keyed[k];
        assert(roots[i] == e);
    }
}

} // verus!
