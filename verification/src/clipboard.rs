//! Copying, pasting, duplicating and placing entities.
use vstd::prelude::*;
use crate::document::{DocView, SceneBsnAst};
use crate::history::{CommandHistory, EditorCommand, EngineCommand};
use crate::lifecycle::{
    deselect_entities, deselected, despawn_scene_entity, despawned, preorder, unmarked,
};
use crate::naming::{
    assign_unique_entity_root_names, named, names_in_scene, next_name, numbers_fit, scene_names,
};
use crate::node_ids::{
    all_nodes, id_in, law_id_written, lemma_name_keeps_id, mint_scene_node_ids, minted, visited,
    visited_all,
};
use crate::patch::name_in;
use crate::selection::{law_reselected, reselected};
use crate::seqs::{copied, lemma_push_contains};
use crate::text::{text_of, trim, trimmed};
use crate::value::Entity;
use crate::world::{SceneWorld, WorldView};

verus! {

/// The text that was copied last, for when the system clipboard cannot be read.
#[derive(Debug)]
pub struct SystemClipboard {
    pub last_jsn: String,
}

impl SystemClipboard {
    pub fn new() -> (r: SystemClipboard)
        ensures
            r.last_jsn@ == Seq::<char>::empty(),
    {
        SystemClipboard { last_jsn: String::new() }
    }

    /// Keeps a text that is copied, and says whether it goes to the system clipboard: one that is
    /// white space alone is not copied.
    pub fn copy(&mut self, text: &str) -> (r: bool)
        ensures
            r == (trimmed(text@).len() > 0),
            final(self).last_jsn@ == (if trimmed(text@).len() > 0 {
                text@
            } else {
                old(self).last_jsn@
            }),
    {
        let rest: String = trim(text);
        if rest.as_str().unicode_len() == 0 {
            return false;
        }
        self.last_jsn = text.to_owned();
        true
    }

    /// The text to paste: what the system clipboard holds, else what was copied last; nothing when
    /// it is white space alone.
    pub fn text_to_paste(&self, system: Option<String>) -> (r: Option<String>)
        ensures
            ({
                let text = match text_of(system) {
                    Some(t) => t,
                    None => self.last_jsn@,
                };
                if trimmed(text).len() > 0 {
                    r is Some && r->0@ == text
                } else {
                    r is None
                }
            }),
    {
        let text: String = match system {
            Some(t) => t,
            None => self.last_jsn.clone(),
        };
        let rest: String = trim(text.as_str());
        if rest.as_str().unicode_len() == 0 {
            None
        } else {
            Some(text)
        }
    }
}

/// The document nodes of the selected entities that have one, in order.
pub open spec fn nodes_among(doc: DocView, entities: Seq<Entity>) -> Seq<Entity>
    decreases entities.len(),
{
    if entities.len() == 0 {
        Seq::empty()
    } else {
        let before = nodes_among(doc, entities.drop_last());
        match doc.node_of(entities.last()) {
            Some(n) => before.push(n),
            None => before,
        }
    }
}

/// The document nodes that copying the selection writes out; nothing is copied when there are none.
pub fn nodes_to_copy(world: &SceneWorld) -> (r: Vec<Entity>)
    ensures
        r@ == nodes_among(world@.doc, world@.selection),
{
    let entities: &Vec<Entity> = &world.selection;
    let mut out: Vec<Entity> = Vec::new();
    let mut i: usize = 0;
    assert(entities@.subrange(0, 0) =~= Seq::empty());
    while i < entities.len()
        invariant
            i <= entities.len(),
            entities@ == world@.selection,
            out@ == nodes_among(world@.doc, entities@.subrange(0, i as int)),
        decreases entities.len() - i,
    {
        proof {
            assert(entities@.subrange(0, i + 1).drop_last() =~= entities@.subrange(0, i as int));
            assert(entities@.subrange(0, i + 1).last() == entities@[i as int]);
        }
        if let Some(n) = world.document.ast_for(entities[i]) {
            out.push(n);
        }
        i = i + 1;
    }
    assert(entities@.subrange(0, i as int) =~= entities@);
    out
}

/// A paste in the history. The first execute finds the paste done; later ones do it again.
#[derive(Debug)]
pub struct PasteEntitiesCommand {
    /// The ids of the pasted roots.
    pub spawned_node_ids: Vec<u64>,
    /// The pasted text, with its fresh ids and names.
    pub remapped_text: String,
    pub label: String,
    pub is_redo: bool,
}

/// The entities that carry one of `ids`, in the order of the ids.
pub open spec fn carriers(ids: Seq<u64>, known: Seq<(u64, Entity)>) -> Seq<Entity>
    decreases ids.len(),
{
    if ids.len() == 0 {
        Seq::empty()
    } else {
        let before = carriers(ids.drop_last(), known);
        match carrier(ids.last(), known) {
            Some(e) => before.push(e),
            None => before,
        }
    }
}

/// The entity that carries an id: the last one listed.
pub open spec fn carrier(id: u64, known: Seq<(u64, Entity)>) -> Option<Entity>
    decreases known.len(),
{
    if known.len() == 0 {
        None
    } else if known.last().0 == id {
        Some(known.last().1)
    } else {
        carrier(id, known.drop_last())
    }
}

/// The scene after each of `entities` was despawned in turn.
pub open spec fn all_despawned(w: WorldView, entities: Seq<Entity>) -> WorldView
    decreases entities.len(),
{
    if entities.len() == 0 {
        w
    } else {
        despawned(all_despawned(w, entities.drop_last()), entities.last())
    }
}

pub(crate) fn find_carrier(id: u64, known: &Vec<(u64, Entity)>) -> (r: Option<Entity>)
    ensures
        r == carrier(id, known@),
{
    let mut i: usize = known.len();
    assert(known@.subrange(0, i as int) =~= known@);
    while i > 0
        invariant
            i <= known.len(),
            carrier(id, known@) == carrier(id, known@.subrange(0, i as int)),
        decreases i,
    {
        let ghost cut = known@.subrange(0, i as int);
        assert(cut.last() == known@[i - 1]);
        assert(cut.drop_last() =~= known@.subrange(0, i - 1));
        i = i - 1;
        if known[i].0 == id {
            return Some(known[i].1);
        }
    }
    assert(known@.subrange(0, 0) =~= Seq::empty());
    None
}

/// The id of a root, if it has one.
pub open spec fn root_id(doc: DocView, root: Entity) -> Option<u64> {
    match id_in(doc.patches_of(root)) {
        Some(id) => if 0 <= id <= u64::MAX {
            Some(id as u64)
        } else {
            None
        },
        None => None,
    }
}

/// The id of a root, if it has one.
fn id_of_root(ast: &SceneBsnAst, root: Entity) -> (r: Option<u64>)
    ensures
        r == root_id(ast@, root),
{
    match ast.stable_id_of(root) {
        Some(id) => if 0 <= id && id <= 0xffff_ffff_ffff_ffff {
            Some(id as u64)
        } else {
            None
        },
        None => None,
    }
}

/// The entities that were spawned for the roots of a document, with the ids that they carry. Each
/// batch holds what was spawned for one root, that root's entity first; a root may have no id, and
/// nothing may have been spawned for it.
pub open spec fn carried(doc: DocView, roots: Seq<Entity>, batches: Seq<Seq<Entity>>) -> Seq<
    (u64, Entity),
>
    decreases roots.len(),
{
    if roots.len() == 0 || batches.len() == 0 {
        Seq::empty()
    } else {
        let n = roots.len() - 1;
        let before = carried(doc, roots.drop_last(), batches);
        match root_id(doc, roots[n]) {
            Some(id) => if n < batches.len() && batches[n].len() > 0 {
                before.push((id, batches[n][0]))
            } else {
                before
            },
            None => before,
        }
    }
}

/// Enters the entities that were spawned for the roots of a document among those that are known by
/// their ids.
fn enter_known(
    known: &mut Vec<(u64, Entity)>,
    ast: &SceneBsnAst,
    roots: &Vec<Entity>,
    batches: &Vec<Vec<Entity>>,
)
    ensures
        final(known)@ == old(known)@ + carried(ast@, roots@, batches_view(batches@)),
{
    let ghost all = batches_view(batches@);
    let mut i: usize = 0;
    assert(known@ =~= old(known)@ + carried(ast@, roots@.take(0), all));
    while i < roots.len()
        invariant
            i <= roots.len(),
            all == batches_view(batches@),
            known@ == old(known)@ + carried(ast@, roots@.take(i as int), all),
        decreases roots.len() - i,
    {
        let ghost before = carried(ast@, roots@.take(i as int), all);
        proof {
            assert(roots@.take(i + 1).drop_last() =~= roots@.take(i as int));
            assert(roots@.take(i + 1)[i as int] == roots@[i as int]);
        }
        if let Some(id) = id_of_root(ast, roots[i]) {
            if i < batches.len() {
                let batch: &Vec<Entity> = &batches[i];
                if batch.len() > 0 {
                    known.push((id, batch[0]));
                    assert(known@ =~= old(known)@ + before.push((id, all[i as int][0])));
                }
            }
        }
        i = i + 1;
    }
    assert(roots@.take(i as int) =~= roots@);
}

impl PasteEntitiesCommand {
    /// Whether the next execute pastes again.
    pub open spec fn pastes_again(self) -> bool {
        self.is_redo
    }

    /// The command after an execute or an undo: every execute from then on is a redo.
    pub open spec fn once_done(self) -> PasteEntitiesCommand {
        PasteEntitiesCommand { is_redo: true, ..self }
    }

    /// Whether the paste has to be done again: not on the first execute. Every execute after the
    /// first is a redo.
    pub fn execute(&mut self) -> (again: bool)
        ensures
            again == old(self).pastes_again(),
            *final(self) == old(self).once_done(),
    {
        let again: bool = self.is_redo;
        self.is_redo = true;
        again
    }

    /// Ends a paste that was done again. The text that was kept was read to `ast` and put into the
    /// scene once more, with a batch for each of its roots: these are selected alone, and carry the
    /// ids that stand in the text.
    pub fn finish_redo(
        &self,
        world: &mut SceneWorld,
        known: &mut Vec<(u64, Entity)>,
        ast: &SceneBsnAst,
        roots: &Vec<Entity>,
        batches: &Vec<Vec<Entity>>,
    )
        ensures
            final(world)@ == reselected(old(world)@, firsts(batches_view(batches@))),
            final(known)@ == old(known)@ + carried(ast@, roots@, batches_view(batches@)),
    {
        enter_known(known, ast, roots, batches);
        select_spawned(world, spawned_roots(batches));
    }

    /// Takes the pasted roots out of the selection and out of the scene. `known` lists the live
    /// entities with their ids.
    pub fn undo(&mut self, world: &mut SceneWorld, known: &Vec<(u64, Entity)>)
        requires
            old(world)@.doc.consistent(),
        ensures
            *final(self) == old(self).once_done(),
            ({
                let roots = carriers(old(self).spawned_node_ids@, known@);
                final(world)@ == all_despawned(deselected(old(world)@, roots), roots)
            }),
    {
        let ids: &Vec<u64> = &self.spawned_node_ids;
        let mut roots: Vec<Entity> = Vec::new();
        let mut i: usize = 0;
        assert(ids@.subrange(0, 0) =~= Seq::empty());
        while i < ids.len()
            invariant
                i <= ids.len(),
                roots@ == carriers(ids@.subrange(0, i as int), known@),
            decreases ids.len() - i,
        {
            proof {
                assert(ids@.subrange(0, i + 1).drop_last() =~= ids@.subrange(0, i as int));
                assert(ids@.subrange(0, i + 1).last() == ids@[i as int]);
            }
            if let Some(e) = find_carrier(ids[i], known) {
                roots.push(e);
            }
            i = i + 1;
        }
        assert(ids@.subrange(0, i as int) =~= ids@);
        deselect_entities(world, &roots);
        let ghost start = world@;
        assert(start.doc == old(world)@.doc);
        let mut k: usize = 0;
        assert(roots@.subrange(0, 0) =~= Seq::empty());
        while k < roots.len()
            invariant
                k <= roots.len(),
                world@ == all_despawned(start, roots@.subrange(0, k as int)),
                world@.doc.consistent(),
            decreases roots.len() - k,
        {
            proof {
                assert(roots@.subrange(0, k + 1).drop_last() =~= roots@.subrange(0, k as int));
                assert(roots@.subrange(0, k + 1).last() == roots@[k as int]);
                crate::entity_ops::lemma_despawned_consistent(world@, roots@[k as int]);
            }
            despawn_scene_entity(world, roots[k]);
            k = k + 1;
        }
        assert(roots@.subrange(0, k as int) =~= roots@);
        self.is_redo = true;
    }

    pub fn description(&self) -> (r: String)
        ensures
            r == self.label,
    {
        self.label.clone()
    }
}

/// A document node to duplicate, and the node that the copy goes under.
#[derive(Clone, Copy, Debug, PartialEq, Eq, Structural)]
pub struct DuplicatePlan {
    pub node: Entity,
    pub parent: Option<Entity>,
}

/// The plans for duplicating `entities`: one for each that is alive, not the editor's own, and has
/// a document node.
pub open spec fn plans(w: WorldView, entities: Seq<Entity>) -> Seq<DuplicatePlan>
    decreases entities.len(),
{
    if entities.len() == 0 {
        Seq::empty()
    } else {
        let before = plans(w, entities.drop_last());
        let e = entities.last();
        match w.doc.node_of(e) {
            Some(n) => if crate::entity_ops::deletable(w, e) {
                before.push(
                    DuplicatePlan {
                        node: n,
                        parent: if w.doc.nodes.contains_key(n) {
                            w.doc.nodes[n].parent
                        } else {
                            None
                        },
                    },
                )
            } else {
                before
            },
            None => before,
        }
    }
}

/// Begins duplicating the selection: takes the selection marks off and tells what to duplicate.
/// Nothing happens when nothing is selected.
pub fn duplicate_selected(world: &mut SceneWorld) -> (r: Vec<DuplicatePlan>)
    ensures
        r@ == plans(old(world)@, old(world)@.selection),
        final(world)@ == unmarked(old(world)@, old(world)@.selection),
{
    let entities: Vec<Entity> = copied(&world.selection);
    let ghost w = world@;
    let mut out: Vec<DuplicatePlan> = Vec::new();
    let mut i: usize = 0;
    assert(entities@.subrange(0, 0) =~= Seq::empty());
    while i < entities.len()
        invariant
            i <= entities.len(),
            world@ == w,
            out@ == plans(w, entities@.subrange(0, i as int)),
        decreases entities.len() - i,
    {
        proof {
            assert(entities@.subrange(0, i + 1).drop_last() =~= entities@.subrange(0, i as int));
            assert(entities@.subrange(0, i + 1).last() == entities@[i as int]);
        }
        let entity: Entity = entities[i];
        if world.is_alive(entity) && !world.marks(entity).editor_entity {
            if let Some(node) = world.document.ast_for(entity) {
                let parent: Option<Entity> = world.document.find_ast_parent_of(node);
                out.push(DuplicatePlan { node, parent });
            }
        }
        i = i + 1;
    }
    assert(entities@.subrange(0, i as int) =~= entities@);
    world.unmark_selection();
    out
}

/// Selects what a duplication or a repeated paste spawned: the root of each subtree.
pub fn select_spawned(world: &mut SceneWorld, spawned: Vec<Entity>)
    ensures
        final(world)@ == reselected(old(world)@, spawned@),
{
    world.select_all(spawned);
}

/// The first entity of each batch that is not empty, in order.
pub open spec fn firsts(batches: Seq<Seq<Entity>>) -> Seq<Entity>
    decreases batches.len(),
{
    if batches.len() == 0 {
        Seq::empty()
    } else {
        let before = firsts(batches.drop_last());
        if batches.last().len() > 0 {
            before.push(batches.last()[0])
        } else {
            before
        }
    }
}

pub open spec fn batches_view(batches: Seq<Vec<Entity>>) -> Seq<Seq<Entity>> {
    Seq::new(batches.len(), |i: int| batches[i]@)
}

/// The roots that were spawned: each batch holds what was spawned for one grafted root, that root's
/// entity first.
pub fn spawned_roots(batches: &Vec<Vec<Entity>>) -> (r: Vec<Entity>)
    ensures
        r@ == firsts(batches_view(batches@)),
{
    let ghost all = batches_view(batches@);
    let mut out: Vec<Entity> = Vec::new();
    let mut i: usize = 0;
    assert(all.subrange(0, 0) =~= Seq::empty());
    while i < batches.len()
        invariant
            i <= batches.len(),
            all == batches_view(batches@),
            out@ == firsts(all.subrange(0, i as int)),
        decreases batches.len() - i,
    {
        proof {
            assert(all.subrange(0, i + 1).drop_last() =~= all.subrange(0, i as int));
            assert(all.subrange(0, i + 1).last() == all[i as int]);
        }
        let batch: &Vec<Entity> = &batches[i];
        if batch.len() > 0 {
            out.push(batch[0]);
        }
        i = i + 1;
    }
    assert(all.subrange(0, i as int) =~= all);
    out
}

/// The live entity that grafted subtrees go under: that of the document parent, if it has one.
pub fn live_parent(doc: &SceneBsnAst, parent: Option<Entity>) -> (r: Option<Entity>)
    ensures
        parent is None ==> r is None,
        parent matches Some(p) ==> r == (if doc@.nodes.contains_key(p) {
            doc@.nodes[p].entity
        } else {
            None
        }),
{
    match parent {
        Some(p) => doc.ecs_for_ast(p),
        None => None,
    }
}

/// Giving nodes fresh ids keeps every name in the document.
pub proof fn law_minting_keeps_names(doc: DocView, nodes: Seq<Entity>, assets: Seq<Entity>, first: int, n: Entity)
    ensures
        name_in(minted(doc, nodes, assets, first).0.patches_of(n)) == name_in(doc.patches_of(n)),
    decreases nodes.len(),
{
    if nodes.len() > 0 {
        law_minting_keeps_names(doc, nodes.drop_last(), assets, first, n);
        let before = minted(doc, nodes.drop_last(), assets, first);
        law_id_written(before.0.patches_of(nodes.last()), before.1 as u64);
    }
}

/// The document of a subtree made ready to be spawned: fresh ids, then unique names for its roots.
pub open spec fn prepared(
    doc: DocView,
    asset_roots: Seq<Entity>,
    roots: Seq<Entity>,
    taken: Seq<Seq<char>>,
    first: int,
) -> DocView {
    named(minted(doc, all_nodes(doc), asset_roots, first).0, taken, roots).0
}

/// Makes a subtree ready to be spawned: gives its nodes fresh ids, counting up from `first`, and its
/// roots names that none of the scene's entities has. Returns the next unused id.
pub fn prepare_authored_subtree_for_spawn(
    world: &SceneWorld,
    entities: &Vec<Entity>,
    ast: &mut SceneBsnAst,
    asset_roots: &Vec<Entity>,
    roots: &Vec<Entity>,
    first: u64,
) -> (next: u64)
    requires
        first + all_nodes(old(ast)@).len() <= u64::MAX,
        numbers_fit(
            minted(old(ast)@, all_nodes(old(ast)@), asset_roots@, first as int).0,
            scene_names(world@, entities@),
            roots@,
        ),
    ensures
        final(ast)@ == prepared(
            old(ast)@,
            asset_roots@,
            roots@,
            scene_names(world@, entities@),
            first as int,
        ),
        next as int == minted(
            old(ast)@,
            all_nodes(old(ast)@),
            asset_roots@,
            first as int,
        ).1,
{
    let next: u64 = mint_scene_node_ids(ast, asset_roots, first);
    assign_unique_entity_root_names(names_in_scene(world, entities), roots, ast);
    next
}

/// The ids of the roots that have one, in order.
pub open spec fn root_ids(doc: DocView, roots: Seq<Entity>) -> Seq<u64>
    decreases roots.len(),
{
    if roots.len() == 0 {
        Seq::empty()
    } else {
        let before = root_ids(doc, roots.drop_last());
        match root_id(doc, roots.last()) {
            Some(id) => before.push(id),
            None => before,
        }
    }
}

/// The ids of the roots that have one, in order.
pub fn entity_root_scene_node_ids(ast: &SceneBsnAst, roots: &Vec<Entity>) -> (r: Vec<u64>)
    ensures
        r@ == root_ids(ast@, roots@),
{
    let mut out: Vec<u64> = Vec::new();
    let mut i: usize = 0;
    assert(roots@.subrange(0, 0) =~= Seq::empty());
    while i < roots.len()
        invariant
            i <= roots.len(),
            out@ == root_ids(ast@, roots@.subrange(0, i as int)),
        decreases roots.len() - i,
    {
        proof {
            assert(roots@.subrange(0, i + 1).drop_last() =~= roots@.subrange(0, i as int));
            assert(roots@.subrange(0, i + 1).last() == roots@[i as int]);
        }
        if let Some(id) = id_of_root(ast, roots[i]) {
            out.push(id);
        }
        i = i + 1;
    }
    assert(roots@.subrange(0, i as int) =~= roots@);
    out
}

/// Whether the history became another by recording a paste.
pub open spec fn paste_recorded(
    before: CommandHistory,
    after: CommandHistory,
    spawned_node_ids: Seq<u64>,
    remapped_text: Seq<char>,
) -> bool {
    &&& before.recorded(after)
    &&& after.undo_stack@.last() matches EditorCommand::Engine(EngineCommand::Paste(c))
        && c.spawned_node_ids@ == spawned_node_ids && c.remapped_text@ == remapped_text && c.label@
        == "Paste entities"@ && !c.is_redo
}

/// Ends a paste of the prepared document `ast`, with a batch of entities that were spawned for each of
/// its roots: selects the roots, enters them under their ids, and records the step. A paste that
/// spawned nothing changes nothing and leaves no step. `remapped_text` is the text of the document.
pub fn paste_components(
    world: &mut SceneWorld,
    history: &mut CommandHistory,
    known: &mut Vec<(u64, Entity)>,
    ast: &SceneBsnAst,
    roots: &Vec<Entity>,
    batches: &Vec<Vec<Entity>>,
    remapped_text: String,
)
    ensures
        ({
            let spawned = firsts(batches_view(batches@));
            if spawned.len() == 0 {
                *final(world) == *old(world) && *final(history) == *old(history) && final(known)@
                    == old(known)@
            } else {
                &&& final(world)@ == reselected(old(world)@, spawned)
                &&& final(known)@ == old(known)@ + carried(ast@, roots@, batches_view(batches@))
                &&& paste_recorded(
                    *old(history),
                    *final(history),
                    root_ids(ast@, roots@),
                    remapped_text@,
                )
            }
        }),
{
    let spawned: Vec<Entity> = spawned_roots(batches);
    if spawned.len() == 0 {
        return ;
    }
    world.select_all(spawned);
    enter_known(known, ast, roots, batches);
    let command = PasteEntitiesCommand {
        spawned_node_ids: entity_root_scene_node_ids(ast, roots),
        remapped_text,
        label: "Paste entities".to_owned(),
        is_redo: false,
    };
    history.push_executed(EditorCommand::Engine(EngineCommand::Paste(command)));
    assert(history.undo_stack@.drop_last() =~= old(history).undo_stack@);
}

proof fn lemma_despawned_alive(w: WorldView, e: Entity, x: Entity)
    ensures
        despawned(w, e).alive(x) ==> w.alive(x) && x != e,
        despawned(w, e).selection == w.selection,
{
    if w.alive(e) && x == e {
        let gone = preorder(w, e, true, w.entities.len());
        assert(gone[0] == e);
        assert(gone.to_set().contains(e));
    }
}

proof fn lemma_all_despawned_alive(w: WorldView, entities: Seq<Entity>, x: Entity)
    ensures
        all_despawned(w, entities).alive(x) ==> w.alive(x) && !entities.contains(x),
        all_despawned(w, entities).selection == w.selection,
    decreases entities.len(),
{
    if entities.len() > 0 {
        let init = entities.drop_last();
        lemma_all_despawned_alive(w, init, x);
        lemma_despawned_alive(all_despawned(w, init), entities.last(), x);
        if entities.contains(x) && x != entities.last() {
            let i = choose|i: int| 0 <= i < entities.len() && entities[i] == x;
            assert(init[i] == x);
        }
    }
}

/// After a paste was undone none of its roots is alive or selected, and no other entity joined the
/// scene or the selection.
pub proof fn law_paste_undone(w: WorldView, roots: Seq<Entity>, x: Entity)
    ensures
        ({
            let after = all_despawned(deselected(w, roots), roots);
            &&& roots.contains(x) ==> !after.alive(x) && !after.selection.contains(x)
            &&& after.alive(x) ==> w.alive(x)
            &&& after.selection.contains(x) ==> w.selection.contains(x)
        }),
{
    lemma_all_despawned_alive(deselected(w, roots), roots, x);
    crate::seqs::lemma_filter_contains(w.selection, crate::seqs::not_among(roots), x);
    lemma_unmarked_alive(w, roots, x);
}

proof fn lemma_unmarked_alive(w: WorldView, entities: Seq<Entity>, x: Entity)
    ensures
        unmarked(w, entities).alive(x) == w.alive(x),
    decreases entities.len(),
{
    if entities.len() > 0 {
        lemma_unmarked_alive(w, entities.drop_last(), x);
    }
}

/// A paste that was just recorded is not done again by its execute. After it was undone the next
/// execute is the first redo, and pastes again: the text that was recorded, whose roots carry the ids
/// that were recorded.
pub proof fn law_first_redo_pastes_again(
    before: CommandHistory,
    after: CommandHistory,
    ids: Seq<u64>,
    text: Seq<char>,
)
    requires
        paste_recorded(before, after, ids, text),
    ensures
        after.undo_stack@.last() matches EditorCommand::Engine(EngineCommand::Paste(c)) && {
            &&& !c.pastes_again()
            &&& c.once_done().pastes_again()
            &&& c.once_done().spawned_node_ids@ == ids
            &&& c.once_done().remapped_text@ == text
        },
{
}

/// Whether no two roots share an id.
pub open spec fn ids_differ(doc: DocView, roots: Seq<Entity>) -> bool {
    forall|i: int, j: int|
        #![trigger roots[i], roots[j]]
        0 <= i < j < roots.len() && root_id(doc, roots[i]) is Some ==> root_id(doc, roots[i])
            != root_id(doc, roots[j])
}

/// The entities that an undo takes after roots were spawned: for each root with an id that of its
/// batch, or, when nothing was spawned for it, the one that carried its id before.
pub open spec fn retaken(
    doc: DocView,
    roots: Seq<Entity>,
    batches: Seq<Seq<Entity>>,
    known: Seq<(u64, Entity)>,
) -> Seq<Entity>
    decreases roots.len(),
{
    if roots.len() == 0 {
        Seq::empty()
    } else {
        let n = roots.len() - 1;
        let before = retaken(doc, roots.drop_last(), batches, known);
        match root_id(doc, roots[n]) {
            Some(id) => if n < batches.len() && batches[n].len() > 0 {
                before.push(batches[n][0])
            } else {
                match carrier(id, known) {
                    Some(e) => before.push(e),
                    None => before,
                }
            },
            None => before,
        }
    }
}

/// The entity that carries the id of a root is the one that was spawned for it, if any was.
proof fn lemma_carrier_of_root(
    doc: DocView,
    roots: Seq<Entity>,
    batches: Seq<Seq<Entity>>,
    known: Seq<(u64, Entity)>,
    i: int,
    n: int,
)
    requires
        ids_differ(doc, roots),
        0 <= i < roots.len(),
        0 <= n <= roots.len(),
        root_id(doc, roots[i]) is Some,
    ensures
        carrier(root_id(doc, roots[i])->0, known + carried(doc, roots.take(n), batches)) == (if i
            < n && i < batches.len() && batches[i].len() > 0 {
            Some(batches[i][0])
        } else {
            carrier(root_id(doc, roots[i])->0, known)
        }),
    decreases n,
{
    let all = known + carried(doc, roots.take(n), batches);
    if n == 0 || batches.len() == 0 {
        assert(all =~= known);
    } else {
        let cut = roots.take(n);
        assert(cut.drop_last() =~= roots.take(n - 1));
        assert(cut[n - 1] == roots[n - 1]);
        lemma_carrier_of_root(doc, roots, batches, known, i, n - 1);
        let before = known + carried(doc, roots.take(n - 1), batches);
        if let Some(id) = root_id(doc, roots[n - 1]) {
            if n - 1 < batches.len() && batches[n - 1].len() > 0 {
                assert(all =~= before.push((id, batches[n - 1][0])));
                assert(all.last() == (id, batches[n - 1][0]));
                assert(all.drop_last() =~= before);
                if i < n - 1 {
                    assert(roots[i] == roots[i] && roots[n - 1] == roots[n - 1]);
                } else if i > n - 1 {
                    assert(root_id(doc, roots[n - 1]) != root_id(doc, roots[i]));
                }
            }
        }
    }
}

/// The entities that carry the ids of the first roots.
proof fn lemma_carriers_of_roots(
    doc: DocView,
    roots: Seq<Entity>,
    batches: Seq<Seq<Entity>>,
    known: Seq<(u64, Entity)>,
    n: int,
)
    requires
        ids_differ(doc, roots),
        0 <= n <= roots.len(),
    ensures
        carriers(
            root_ids(doc, roots.take(n)),
            known + carried(doc, roots, batches),
        ) == retaken(doc, roots.take(n), batches, known),
    decreases n,
{
    let all = known + carried(doc, roots, batches);
    let cut = roots.take(n);
    if n > 0 {
        lemma_carriers_of_roots(doc, roots, batches, known, n - 1);
        assert(cut.drop_last() =~= roots.take(n - 1));
        assert(cut.last() == roots[n - 1]);
        let before = root_ids(doc, roots.take(n - 1));
        if let Some(id) = root_id(doc, roots[n - 1]) {
            lemma_carrier_of_root(doc, roots, batches, known, n - 1, roots.len() as int);
            assert(roots.take(roots.len() as int) =~= roots);
            assert(before.push(id).drop_last() =~= before);
            assert(before.push(id).last() == id);
        }
    } else {
        assert(cut =~= Seq::empty());
    }
}

/// Where no root's id was carried before, and every root has one, an undo takes what was spawned.
proof fn lemma_retaken_spawned(
    doc: DocView,
    roots: Seq<Entity>,
    batches: Seq<Seq<Entity>>,
    known: Seq<(u64, Entity)>,
    n: int,
)
    requires
        0 <= n <= roots.len(),
        roots.len() == batches.len(),
        forall|i: int|
            0 <= i < roots.len() ==> root_id(doc, #[trigger] roots[i]) is Some && carrier(
                root_id(doc, roots[i])->0,
                known,
            ) is None,
    ensures
        retaken(doc, roots.take(n), batches, known) == firsts(batches.take(n)),
    decreases n,
{
    if n > 0 {
        lemma_retaken_spawned(doc, roots, batches, known, n - 1);
        assert(roots.take(n).drop_last() =~= roots.take(n - 1));
        assert(roots.take(n)[n - 1] == roots[n - 1]);
        assert(batches.take(n).drop_last() =~= batches.take(n - 1));
        assert(batches.take(n).last() == batches[n - 1]);
    } else {
        assert(roots.take(0) =~= Seq::empty());
        assert(batches.take(0) =~= Seq::empty());
    }
}

/// Where every root has an id and something was spawned for it, what was spawned for each carries the
/// id of that root.
proof fn lemma_carried_all(doc: DocView, roots: Seq<Entity>, batches: Seq<Seq<Entity>>, n: int)
    requires
        0 <= n <= roots.len(),
        roots.len() == batches.len(),
        forall|i: int|
            0 <= i < roots.len() ==> root_id(doc, #[trigger] roots[i]) is Some && batches[i].len()
                > 0,
    ensures
        root_ids(doc, roots.take(n)).len() == n,
        firsts(batches.take(n)).len() == n,
        carried(doc, roots.take(n), batches) == Seq::new(
            n as nat,
            |i: int| (root_ids(doc, roots.take(n))[i], firsts(batches.take(n))[i]),
        ),
    decreases n,
{
    let cut = roots.take(n);
    if n > 0 {
        lemma_carried_all(doc, roots, batches, n - 1);
        assert(cut.drop_last() =~= roots.take(n - 1));
        assert(cut.last() == roots[n - 1] && cut[n - 1] == roots[n - 1]);
        assert(batches.take(n).drop_last() =~= batches.take(n - 1));
        assert(batches.take(n).last() == batches[n - 1]);
    } else {
        assert(cut =~= Seq::empty());
        assert(batches.take(0) =~= Seq::empty());
    }
}

/// A node of a document that was given a fresh id keeps it when roots are named.
proof fn lemma_named_keeps_ids(doc: DocView, taken: Seq<Seq<char>>, roots: Seq<Entity>, n: Entity)
    ensures
        id_in(named(doc, taken, roots).0.patches_of(n)) == id_in(doc.patches_of(n)),
    decreases roots.len(),
{
    if roots.len() > 0 {
        lemma_named_keeps_ids(doc, taken, roots.drop_last(), n);
        let before = named(doc, taken, roots.drop_last());
        let root = roots.last();
        if let Some(name) = name_in(before.0.patches_of(root)) {
            let next = next_name(before.1, name);
            lemma_name_keeps_id(before.0.patches_of(root), next);
        }
    }
}

/// Two nodes that were given fresh ids have ids, and these differ.
proof fn lemma_minted_differ(
    doc: DocView,
    nodes: Seq<Entity>,
    asset_roots: Seq<Entity>,
    first: int,
    a: Entity,
)
    requires
        0 <= first,
        first + nodes.len() <= u64::MAX,
        nodes.contains(a),
        !asset_roots.contains(a),
        doc.nodes.contains_key(a),
    ensures
        ({
            let after = minted(doc, nodes, asset_roots, first);
            &&& first <= after.1 <= first + nodes.len()
            &&& id_in(after.0.patches_of(a)) matches Some(id) && first <= id < after.1
            &&& forall|b: Entity|
                b != a && nodes.contains(b) && !asset_roots.contains(b) && doc.nodes.contains_key(b)
                    ==> id_in(#[trigger] after.0.patches_of(b)) != id_in(after.0.patches_of(a))
        }),
    decreases nodes.len(),
{
    let after = minted(doc, nodes, asset_roots, first);
    let init = nodes.drop_last();
    let before = minted(doc, init, asset_roots, first);
    let n = nodes.last();
    lemma_minted_range(doc, init, asset_roots, first);
    if !asset_roots.contains(n) {
        law_id_written(before.0.patches_of(n), before.1 as u64);
    }
    assert forall|b: Entity| nodes.contains(b) && b != n implies init.contains(b) by {
        let i = choose|i: int| 0 <= i < nodes.len() && nodes[i] == b;
        assert(init[i] == b);
    }
    if n != a {
        lemma_minted_differ(doc, init, asset_roots, first, a);
        assert(after.0.patches_of(a) == before.0.patches_of(a));
    }
    assert forall|b: Entity|
        b != a && nodes.contains(b) && !asset_roots.contains(b) && doc.nodes.contains_key(
            b,
        ) implies id_in(#[trigger] after.0.patches_of(b)) != id_in(after.0.patches_of(a)) by {
        if b != n {
            assert(after.0.patches_of(b) == before.0.patches_of(b));
            if n == a {
                lemma_minted_differ(doc, init, asset_roots, first, b);
            }
        }
    }
}

/// Minting counts up by at most one for each node, and takes no node out.
proof fn lemma_minted_range(doc: DocView, nodes: Seq<Entity>, asset_roots: Seq<Entity>, first: int)
    ensures
        ({
            let after = minted(doc, nodes, asset_roots, first);
            &&& first <= after.1 <= first + nodes.len()
            &&& after.0.nodes.dom() == doc.nodes.dom()
        }),
    decreases nodes.len(),
{
    if nodes.len() > 0 {
        lemma_minted_range(doc, nodes.drop_last(), asset_roots, first);
        let before = minted(doc, nodes.drop_last(), asset_roots, first);
        let after = minted(doc, nodes, asset_roots, first);
        assert(after.0.nodes.dom() =~= doc.nodes.dom());
    }
}

/// Every root is among the nodes that are visited.
proof fn lemma_roots_are_visited(doc: DocView, roots: Seq<Entity>, depth: nat, n: Entity)
    requires
        roots.contains(n),
    ensures
        visited_all(doc, roots, depth).contains(n),
    decreases roots.len(),
{
    let first = visited(doc, roots.last(), depth);
    let rest = visited_all(doc, roots.drop_last(), depth);
    let all = visited_all(doc, roots, depth);
    assert(first[0] == roots.last());
    if n == roots.last() {
        assert(all[0] == n);
    } else {
        let i = choose|i: int| 0 <= i < roots.len() && roots[i] == n;
        assert(roots.drop_last()[i] == n);
        lemma_roots_are_visited(doc, roots.drop_last(), depth, n);
        let k = choose|k: int| 0 <= k < rest.len() && rest[k] == n;
        assert(all[first.len() + k] == n);
    }
}

/// In a document that was made ready to be spawned every root that is no asset has an id, and no two
/// of these roots share one.
pub proof fn law_prepared_ids_differ(
    doc: DocView,
    asset_roots: Seq<Entity>,
    roots: Seq<Entity>,
    taken: Seq<Seq<char>>,
    first: int,
)
    requires
        0 <= first,
        first + all_nodes(doc).len() <= u64::MAX,
        roots.no_duplicates(),
        forall|i: int|
            0 <= i < roots.len() ==> doc.roots.contains(#[trigger] roots[i])
                && doc.nodes.contains_key(roots[i]) && !asset_roots.contains(roots[i]),
    ensures
        ids_differ(prepared(doc, asset_roots, roots, taken, first), roots),
        forall|i: int|
            0 <= i < roots.len() ==> root_id(
                prepared(doc, asset_roots, roots, taken, first),
                #[trigger] roots[i],
            ) is Some,
{
    let after = prepared(doc, asset_roots, roots, taken, first);
    let mid = minted(doc, all_nodes(doc), asset_roots, first).0;
    assert forall|i: int| 0 <= i < roots.len() implies root_id(after, #[trigger] roots[i])
        is Some by {
        lemma_roots_are_visited(doc, doc.roots, doc.nodes.len(), roots[i]);
        lemma_minted_differ(doc, all_nodes(doc), asset_roots, first, roots[i]);
        lemma_named_keeps_ids(mid, taken, roots, roots[i]);
    }
    assert forall|i: int, j: int|
        #![trigger roots[i], roots[j]]
        0 <= i < j < roots.len() && root_id(after, roots[i]) is Some implies root_id(
        after,
        roots[i],
    ) != root_id(after, roots[j]) by {
        lemma_roots_are_visited(doc, doc.roots, doc.nodes.len(), roots[i]);
        lemma_roots_are_visited(doc, doc.roots, doc.nodes.len(), roots[j]);
        lemma_minted_differ(doc, all_nodes(doc), asset_roots, first, roots[i]);
        lemma_minted_differ(doc, all_nodes(doc), asset_roots, first, roots[j]);
        assert(mid.patches_of(roots[j]) == mid.patches_of(roots[j]));
        lemma_named_keeps_ids(mid, taken, roots, roots[i]);
        lemma_named_keeps_ids(mid, taken, roots, roots[j]);
    }
}

/// Whether the roots of two documents carry the same ids in turn.
pub open spec fn same_ids(a: DocView, a_roots: Seq<Entity>, b: DocView, b_roots: Seq<Entity>) -> bool {
    &&& a_roots.len() == b_roots.len()
    &&& forall|i: int|
        0 <= i < a_roots.len() ==> root_id(a, #[trigger] a_roots[i]) == root_id(b, b_roots[i])
}

proof fn lemma_same_root_ids(
    a: DocView,
    a_roots: Seq<Entity>,
    b: DocView,
    b_roots: Seq<Entity>,
    n: int,
)
    requires
        same_ids(a, a_roots, b, b_roots),
        0 <= n <= a_roots.len(),
    ensures
        root_ids(a, a_roots.take(n)) == root_ids(b, b_roots.take(n)),
    decreases n,
{
    if n > 0 {
        lemma_same_root_ids(a, a_roots, b, b_roots, n - 1);
        assert(a_roots.take(n).drop_last() =~= a_roots.take(n - 1));
        assert(b_roots.take(n).drop_last() =~= b_roots.take(n - 1));
        assert(a_roots.take(n).last() == a_roots[n - 1]);
        assert(b_roots.take(n).last() == b_roots[n - 1]);
    } else {
        assert(a_roots.take(0) =~= Seq::empty());
        assert(b_roots.take(0) =~= Seq::empty());
    }
}

/// A paste of any document that was undone and is done again has its roots back. What was spawned for
/// the roots is selected alone, and no entity that was selected before keeps its mark. The roots
/// carry the ids of the first time: exactly these, when something was spawned for each root. So
/// undoing the paste once more takes what was spawned for them; these alone, when no other entity
/// carried one of the ids. The text that is kept reads back with the ids that were written into it.
pub proof fn law_paste_redone(
    w: WorldView,
    doc: DocView,
    asset_roots: Seq<Entity>,
    roots: Seq<Entity>,
    taken: Seq<Seq<char>>,
    first: int,
    again: DocView,
    again_roots: Seq<Entity>,
    batches: Seq<Seq<Entity>>,
    known: Seq<(u64, Entity)>,
    x: Entity,
)
    requires
        0 <= first,
        first + all_nodes(doc).len() <= u64::MAX,
        roots.no_duplicates(),
        forall|i: int|
            0 <= i < roots.len() ==> doc.roots.contains(#[trigger] roots[i])
                && doc.nodes.contains_key(roots[i]) && !asset_roots.contains(roots[i]),
        same_ids(prepared(doc, asset_roots, roots, taken, first), roots, again, again_roots),
        batches.len() == roots.len(),
        w.alive(x) && w.entities[x].marks.selected ==> w.selection.contains(x),
    ensures
        ({
            let ids = root_ids(prepared(doc, asset_roots, roots, taken, first), roots);
            let spawned = firsts(batches);
            let after = reselected(w, spawned);
            let carried_then = carriers(ids, known + carried(again, again_roots, batches));
            &&& after.selection == spawned
            &&& after.alive(x) == w.alive(x)
            &&& w.alive(x) ==> after.entities[x].marks.selected == spawned.contains(x)
            &&& (forall|i: int| 0 <= i < batches.len() ==> (#[trigger] batches[i]).len() > 0)
                ==> ids.len() == spawned.len() && carried(again, again_roots, batches) == Seq::new(
                spawned.len(),
                |i: int| (ids[i], spawned[i]),
            )
            &&& carried_then == retaken(again, again_roots, batches, known)
            &&& (forall|i: int|
                0 <= i < again_roots.len() ==> carrier(
                    root_id(again, #[trigger] again_roots[i])->0,
                    known,
                ) is None) ==> carried_then == spawned
        }),
{
    let first_doc = prepared(doc, asset_roots, roots, taken, first);
    law_prepared_ids_differ(doc, asset_roots, roots, taken, first);
    assert(ids_differ(again, again_roots)) by {
        assert forall|i: int, j: int|
            #![trigger again_roots[i], again_roots[j]]
            0 <= i < j < again_roots.len() && root_id(again, again_roots[i]) is Some implies root_id(
            again,
            again_roots[i],
        ) != root_id(again, again_roots[j]) by {
            assert(root_id(first_doc, roots[i]) == root_id(again, again_roots[i]));
            assert(root_id(first_doc, roots[j]) == root_id(again, again_roots[j]));
        }
    }
    let n = roots.len() as int;
    lemma_same_root_ids(first_doc, roots, again, again_roots, n);
    assert(roots.take(n) =~= roots);
    assert(again_roots.take(n) =~= again_roots);
    assert(batches.take(n) =~= batches);
    lemma_carriers_of_roots(again, again_roots, batches, known, n);
    law_reselected(w, firsts(batches), x);
    assert forall|i: int| 0 <= i < again_roots.len() implies root_id(
        again,
        #[trigger] again_roots[i],
    ) is Some by {
        assert(root_id(first_doc, roots[i]) == root_id(again, again_roots[i]));
    }
    if forall|i: int| 0 <= i < batches.len() ==> (#[trigger] batches[i]).len() > 0 {
        lemma_carried_all(again, again_roots, batches, n);
    }
    if forall|i: int|
        0 <= i < again_roots.len() ==> carrier(
            root_id(again, #[trigger] again_roots[i])->0,
            known,
        ) is None {
        lemma_retaken_spawned(again, again_roots, batches, known, n);
    }
}

/// Copying writes out the node of every selected entity that has one, and no other.
pub proof fn law_copied_nodes(doc: DocView, entities: Seq<Entity>, n: Entity)
    ensures
        nodes_among(doc, entities).contains(n) <==> exists|i: int|
            0 <= i < entities.len() && doc.links.contains_key(#[trigger] entities[i])
                && doc.links[entities[i]] == n,
    decreases entities.len(),
{
    if entities.len() > 0 {
        let init = entities.drop_last();
        let e = entities.last();
        let before = nodes_among(doc, init);
        law_copied_nodes(doc, init, n);
        assert(entities[entities.len() - 1] == e);
        if let Some(m) = doc.node_of(e) {
            lemma_push_contains(before, m, n);
        }
        if before.contains(n) {
            let i = choose|i: int|
                0 <= i < init.len() && doc.links.contains_key(#[trigger] init[i])
                    && doc.links[init[i]] == n;
            assert(entities[i] == init[i]);
        }
        if exists|i: int|
            0 <= i < entities.len() && doc.links.contains_key(#[trigger] entities[i])
                && doc.links[entities[i]] == n {
            let i = choose|i: int|
                0 <= i < entities.len() && doc.links.contains_key(#[trigger] entities[i])
                    && doc.links[entities[i]] == n;
            if i < init.len() {
                assert(init[i] == entities[i]);
            }
        }
    }
}

/// Duplicating plans a copy of the node of every selected entity that is alive, is not the editor's
/// own and has one. The copy goes where the node is: below the same parent.
pub proof fn law_planned_duplicates(w: WorldView, entities: Seq<Entity>, p: DuplicatePlan)
    ensures
        plans(w, entities).contains(p) <==> exists|i: int|
            0 <= i < entities.len() && w.alive(#[trigger] entities[i])
                && !w.entities[entities[i]].marks.editor_entity && w.doc.links.contains_key(
                entities[i],
            ) && w.doc.links[entities[i]] == p.node && p.parent == (if w.doc.nodes.contains_key(
                p.node,
            ) {
                w.doc.nodes[p.node].parent
            } else {
                None
            }),
        plans(w, entities).len() <= entities.len(),
    decreases entities.len(),
{
    if entities.len() > 0 {
        let init = entities.drop_last();
        let e = entities.last();
        let before = plans(w, init);
        law_planned_duplicates(w, init, p);
        assert(entities[entities.len() - 1] == e);
        if plans(w, entities).len() > before.len() {
            lemma_push_contains(before, plans(w, entities).last(), p);
        }
        if before.contains(p) {
            let i = choose|i: int|
                0 <= i < init.len() && w.alive(#[trigger] init[i])
                    && !w.entities[init[i]].marks.editor_entity && w.doc.links.contains_key(init[i])
                    && w.doc.links[init[i]] == p.node && p.parent == (if w.doc.nodes.contains_key(
                    p.node,
                ) {
                    w.doc.nodes[p.node].parent
                } else {
                    None
                });
            assert(entities[i] == init[i]);
        }
        if exists|i: int|
            0 <= i < entities.len() && w.alive(#[trigger] entities[i])
                && !w.entities[entities[i]].marks.editor_entity && w.doc.links.contains_key(
                entities[i],
            ) && w.doc.links[entities[i]] == p.node && p.parent == (if w.doc.nodes.contains_key(
                p.node,
            ) {
                w.doc.nodes[p.node].parent
            } else {
                None
            }) {
            let i = choose|i: int|
                0 <= i < entities.len() && w.alive(#[trigger] entities[i])
                    && !w.entities[entities[i]].marks.editor_entity && w.doc.links.contains_key(
                    entities[i],
                ) && w.doc.links[entities[i]] == p.node && p.parent == (if w.doc.nodes.contains_key(
                    p.node,
                ) {
                    w.doc.nodes[p.node].parent
                } else {
                    None
                });
            if i < init.len() {
                assert(init[i] == entities[i]);
            }
        }
    }
}

/// Of the entities listed with an id, the last is the one that carries it. None does when none is
/// listed with it.
pub proof fn law_carrier_is_the_last_listed(id: u64, known: Seq<(u64, Entity)>, i: int)
    ensures
        0 <= i < known.len() && known[i].0 == id && (forall|j: int|
            i < j < known.len() ==> (#[trigger] known[j]).0 != id) ==> carrier(id, known) == Some(
            known[i].1,
        ),
        (forall|j: int| 0 <= j < known.len() ==> (#[trigger] known[j]).0 != id) ==> carrier(
            id,
            known,
        ) is None,
    decreases known.len(),
{
    if known.len() > 0 {
        let init = known.drop_last();
        assert forall|j: int| 0 <= j < init.len() implies #[trigger] init[j] == known[j] by {}
        assert(known[known.len() - 1] == known.last());
        law_carrier_is_the_last_listed(id, init, i);
        if 0 <= i < known.len() - 1 && known[i].0 == id && (forall|j: int|
            i < j < known.len() ==> (#[trigger] known[j]).0 != id) {
            assert forall|j: int| i < j < init.len() implies (#[trigger] init[j]).0 != id by {
                assert(known[j].0 != id);
            }
        }
        if forall|j: int| 0 <= j < known.len() ==> (#[trigger] known[j]).0 != id {
            assert forall|j: int| 0 <= j < init.len() implies (#[trigger] init[j]).0 != id by {
                assert(known[j].0 != id);
            }
        }
    }
}

/// Undoing a paste takes away the carrier of every pasted id that has one, and nothing else.
pub proof fn law_carriers_of_ids(ids: Seq<u64>, known: Seq<(u64, Entity)>, e: Entity)
    ensures
        carriers(ids, known).contains(e) <==> exists|i: int|
            0 <= i < ids.len() && carrier(#[trigger] ids[i], known) == Some(e),
    decreases ids.len(),
{
    if ids.len() > 0 {
        let init = ids.drop_last();
        let before = carriers(init, known);
        law_carriers_of_ids(init, known, e);
        assert(ids[ids.len() - 1] == ids.last());
        if let Some(x) = carrier(ids.last(), known) {
            lemma_push_contains(before, x, e);
        }
        if before.contains(e) {
            let i = choose|i: int| 0 <= i < init.len() && carrier(#[trigger] init[i], known) == Some(e);
            assert(ids[i] == init[i]);
        }
        if exists|i: int| 0 <= i < ids.len() && carrier(#[trigger] ids[i], known) == Some(e) {
            let i = choose|i: int| 0 <= i < ids.len() && carrier(#[trigger] ids[i], known) == Some(e);
            if i < init.len() {
                assert(init[i] == ids[i]);
            }
        }
    }
}

/// What a paste or a duplication selects is the first entity of every batch that has one.
pub proof fn law_spawned_roots_are_firsts(batches: Seq<Seq<Entity>>, e: Entity)
    ensures
        firsts(batches).contains(e) <==> exists|i: int|
            0 <= i < batches.len() && (#[trigger] batches[i]).len() > 0 && batches[i][0] == e,
        (forall|i: int| 0 <= i < batches.len() ==> (#[trigger] batches[i]).len() > 0) ==> firsts(
            batches,
        ).len() == batches.len(),
    decreases batches.len(),
{
    if batches.len() > 0 {
        let init = batches.drop_last();
        let before = firsts(init);
        law_spawned_roots_are_firsts(init, e);
        assert(batches[batches.len() - 1] == batches.last());
        assert forall|i: int| 0 <= i < init.len() implies #[trigger] init[i] == batches[i] by {}
        if batches.last().len() > 0 {
            lemma_push_contains(before, batches.last()[0], e);
        }
        if before.contains(e) {
            let i = choose|i: int|
                0 <= i < init.len() && (#[trigger] init[i]).len() > 0 && init[i][0] == e;
            assert(batches[i].len() > 0 && batches[i][0] == e);
        }
        if exists|i: int|
            0 <= i < batches.len() && (#[trigger] batches[i]).len() > 0 && batches[i][0] == e {
            let i = choose|i: int|
                0 <= i < batches.len() && (#[trigger] batches[i]).len() > 0 && batches[i][0] == e;
            if i < init.len() {
                assert(init[i].len() > 0 && init[i][0] == e);
            }
        }
        if forall|i: int| 0 <= i < batches.len() ==> (#[trigger] batches[i]).len() > 0 {
            assert forall|i: int| 0 <= i < init.len() implies (#[trigger] init[i]).len() > 0 by {
                assert(batches[i].len() > 0);
            }
        }
    }
}

} // verus!
