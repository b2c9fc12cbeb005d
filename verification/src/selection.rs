//! The selection and the marks that follow it.
use vstd::prelude::*;
use crate::lifecycle::{lemma_unmarked_keeps, same_but_selected, unmarked};
use crate::seqs::{
    contains, copied, filter_one, lemma_filter_contains, lemma_push_contains, not_entity, without,
};
use crate::value::Entity;
use crate::world::{Marks, RecordView, SceneWorld, WorldView};

verus! {

impl WorldView {
    /// The primary selected entity: the last one.
    pub open spec fn primary(self) -> Option<Entity> {
        if self.selection.len() == 0 {
            None
        } else {
            Some(self.selection.last())
        }
    }

    /// The scene with the selection mark of a live entity set.
    pub open spec fn marked(self, e: Entity, selected: bool) -> WorldView {
        self.with_record(
            e,
            RecordView {
                marks: Marks { selected, ..self.entities[e].marks },
                ..self.entities[e]
            },
        )
    }
}

/// The scene with the selection mark set on each of `entities` that is alive.
pub open spec fn all_marked(w: WorldView, entities: Seq<Entity>) -> WorldView
    decreases entities.len(),
{
    if entities.len() == 0 {
        w
    } else {
        all_marked(w, entities.drop_last()).marked(entities.last(), true)
    }
}

/// The scene with exactly `entities` selected.
pub open spec fn reselected(w: WorldView, entities: Seq<Entity>) -> WorldView {
    WorldView {
        selection: entities,
        ..all_marked(unmarked(w, w.selection), entities)
    }
}

impl SceneWorld {
    /// The primary selected entity: the last one.
    pub fn primary(&self) -> (r: Option<Entity>)
        ensures
            r == self@.primary(),
    {
        if self.selection.len() == 0 {
            None
        } else {
            Some(self.selection[self.selection.len() - 1])
        }
    }

    /// Takes the selection marks off every selected entity.
    pub(crate) fn unmark_selection(&mut self)
        ensures
            final(self)@ == unmarked(old(self)@, old(self)@.selection),
            final(self).document == old(self).document,
            final(self)@.selection == old(self)@.selection,
    {
        let entities: Vec<Entity> = copied(&self.selection);
        let ghost start = self@;
        let mut i: usize = 0;
        assert(entities@.subrange(0, 0) =~= Seq::empty());
        while i < entities.len()
            invariant
                i <= entities.len(),
                self@ == unmarked(start, entities@.subrange(0, i as int)),
                self@.selection == start.selection,
                self.document == old(self).document,
            decreases entities.len() - i,
        {
            proof {
                assert(entities@.subrange(0, i + 1).drop_last() =~= entities@.subrange(
                    0,
                    i as int,
                ));
                assert(entities@.subrange(0, i + 1).last() == entities@[i as int]);
            }
            self.mark_selected(entities[i], false);
            i = i + 1;
        }
        assert(entities@.subrange(0, i as int) =~= entities@);
    }

    /// Sets the selection mark of a live entity.
    fn mark_selected(&mut self, e: Entity, selected: bool)
        ensures
            final(self)@ == old(self)@.marked(e, selected),
            final(self).document == old(self).document,
    {
        let marks: Marks = self.marks(e);
        let marks: Marks = Marks { selected, ..marks };
        self.set_marks(e, marks);
    }

    /// Selects exactly `entities`.
    pub fn select_all(&mut self, entities: Vec<Entity>)
        ensures
            final(self)@ == reselected(old(self)@, entities@),
            final(self).document == old(self).document,
    {
        self.unmark_selection();
        let ghost start = self@;
        let mut i: usize = 0;
        assert(entities@.subrange(0, 0) =~= Seq::empty());
        while i < entities.len()
            invariant
                i <= entities.len(),
                self@ == all_marked(start, entities@.subrange(0, i as int)),
                self.document == old(self).document,
            decreases entities.len() - i,
        {
            proof {
                assert(entities@.subrange(0, i + 1).drop_last() =~= entities@.subrange(
                    0,
                    i as int,
                ));
                assert(entities@.subrange(0, i + 1).last() == entities@[i as int]);
            }
            self.mark_selected(entities[i], true);
            i = i + 1;
        }
        assert(entities@.subrange(0, i as int) =~= entities@);
        self.selection = entities;
        assert(self@ =~= reselected(old(self)@, entities@));
    }

    /// Selects one entity alone.
    pub fn select_single(&mut self, entity: Entity)
        ensures
            final(self)@ == reselected(old(self)@, seq![entity]),
            final(self).document == old(self).document,
    {
        let mut one: Vec<Entity> = Vec::new();
        one.push(entity);
        assert(one@ =~= seq![entity]);
        self.select_all(one);
    }

    /// Selects nothing.
    pub fn clear_selection(&mut self)
        ensures
            final(self)@ == reselected(old(self)@, Seq::empty()),
            final(self).document == old(self).document,
    {
        self.select_all(Vec::new());
    }

    /// Adds an entity to the selection, or takes it out when it is selected.
    pub fn toggle_selected(&mut self, entity: Entity)
        ensures
            final(self)@ == (if old(self)@.selection.contains(entity) {
                WorldView {
                    selection: without(old(self)@.selection, entity),
                    ..old(self)@.marked(entity, false)
                }
            } else {
                WorldView {
                    selection: old(self)@.selection.push(entity),
                    ..old(self)@.marked(entity, true)
                }
            }),
            final(self).document == old(self).document,
            final(self)@.selection.contains(entity) == !old(self)@.selection.contains(entity),
    {
        proof {
            lemma_filter_contains(self@.selection, not_entity(entity), entity);
            lemma_push_contains(self@.selection, entity, entity);
        }
        if contains(&self.selection, entity) {
            self.mark_selected(entity, false);
            self.selection = filter_one(&self.selection, entity);
        } else {
            self.mark_selected(entity, true);
            self.selection.push(entity);
        }
        assert(self@.entities =~= (if old(self)@.selection.contains(entity) {
            old(self)@.marked(entity, false)
        } else {
            old(self)@.marked(entity, true)
        }).entities);
    }
}

/// Taking marks off takes them off the listed entities and off no other.
pub(crate) proof fn lemma_unmarked_mark(w: WorldView, entities: Seq<Entity>, x: Entity)
    ensures
        unmarked(w, entities).alive(x) == w.alive(x),
        w.alive(x) ==> unmarked(w, entities).entities[x].marks.selected == (
        w.entities[x].marks.selected && !entities.contains(x)),
    decreases entities.len(),
{
    if entities.len() > 0 {
        let init = entities.drop_last();
        lemma_unmarked_mark(w, init, x);
        assert(entities.contains(x) <==> init.contains(x) || x == entities.last()) by {
            if entities.contains(x) && x != entities.last() {
                let i = choose|i: int| 0 <= i < entities.len() && entities[i] == x;
                assert(init[i] == x);
            }
            if init.contains(x) {
                let i = choose|i: int| 0 <= i < init.len() && init[i] == x;
                assert(entities[i] == x);
            }
            assert(entities[entities.len() - 1] == entities.last());
        }
    }
}

/// Putting marks on puts them on the listed entities and on no other.
proof fn lemma_all_marked_mark(w: WorldView, entities: Seq<Entity>, x: Entity)
    ensures
        all_marked(w, entities).alive(x) == w.alive(x),
        w.alive(x) ==> all_marked(w, entities).entities[x].marks.selected == (
        w.entities[x].marks.selected || entities.contains(x)),
    decreases entities.len(),
{
    if entities.len() > 0 {
        let init = entities.drop_last();
        lemma_all_marked_mark(w, init, x);
        assert(entities.contains(x) <==> init.contains(x) || x == entities.last()) by {
            if entities.contains(x) && x != entities.last() {
                let i = choose|i: int| 0 <= i < entities.len() && entities[i] == x;
                assert(init[i] == x);
            }
            if init.contains(x) {
                let i = choose|i: int| 0 <= i < init.len() && init[i] == x;
                assert(entities[i] == x);
            }
            assert(entities[entities.len() - 1] == entities.last());
        }
    }
}

/// Selecting entities alone leaves exactly these selected and, where only selected entities carried a
/// mark before, exactly these marked.
pub proof fn law_reselected(w: WorldView, entities: Seq<Entity>, x: Entity)
    requires
        w.alive(x) && w.entities[x].marks.selected ==> w.selection.contains(x),
    ensures
        reselected(w, entities).selection == entities,
        reselected(w, entities).alive(x) == w.alive(x),
        w.alive(x) ==> reselected(w, entities).entities[x].marks.selected == entities.contains(x),
{
    lemma_unmarked_mark(w, w.selection, x);
    lemma_all_marked_mark(unmarked(w, w.selection), entities, x);
}

/// What was selected last is the primary entity; nothing is where nothing is selected.
pub proof fn law_last_selected_is_primary(w: WorldView, entities: Seq<Entity>, e: Entity)
    ensures
        reselected(w, entities.push(e)).primary() == Some(e),
        reselected(w, Seq::empty()).primary() is None,
{
}

proof fn lemma_all_marked_keeps(w: WorldView, entities: Seq<Entity>, x: Entity)
    ensures
        all_marked(w, entities).doc == w.doc,
        all_marked(w, entities).alive(x) == w.alive(x),
        w.alive(x) ==> same_but_selected(all_marked(w, entities).entities[x], w.entities[x]),
    decreases entities.len(),
{
    if entities.len() > 0 {
        lemma_all_marked_keeps(w, entities.drop_last(), x);
    }
}

/// Selecting changes neither the document nor anything of an entity but its selection mark.
pub proof fn law_selecting_changes_marks_only(w: WorldView, entities: Seq<Entity>, x: Entity)
    requires
        w.alive(x),
    ensures
        ({
            let after = reselected(w, entities);
            &&& after.doc == w.doc
            &&& after.alive(x)
            &&& after.parent_of(x) == w.parent_of(x)
            &&& after.children_of(x) == w.children_of(x)
            &&& after.entities[x].name == w.entities[x].name
            &&& after.entities[x].slot == w.entities[x].slot
            &&& after.entities[x].components == w.entities[x].components
            &&& after.entities[x].marks.editor_hidden == w.entities[x].marks.editor_hidden
            &&& after.entities[x].marks.prefab_instance == w.entities[x].marks.prefab_instance
        }),
{
    lemma_unmarked_keeps(w, w.selection, x);
    lemma_all_marked_keeps(unmarked(w, w.selection), entities, x);
}

} // verus!
