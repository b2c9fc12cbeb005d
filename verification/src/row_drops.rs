//! Dropping rows of the outliner on each other.
use vstd::prelude::*;
use crate::hierarchy::{ancestors_of, find_instance_root, is_inherited_entity, law_ancestors_are_complete};
use crate::history::{CommandHistory, EditorCommand, EngineCommand};
use crate::location::{
    document_kept, transform_plan, LocationView, ReparentEntity, TransformPlan,
};
use crate::location_laws::{agrees, lemma_agreeing_is_listed, lemma_located};
use crate::outliner::Outliner;
use crate::outliner_events::{rehang_at_root, rows_changed, RowChange};
use crate::seqs::{contains, lemma_filter_contains, lemma_filter_length, not_entity, without};
use crate::value::Entity;
use crate::world::{SceneWorld, WorldView};

verus! {

/// What comes of dropping one row on another.
#[derive(Clone, Copy, Debug, PartialEq, Eq, Structural)]
pub enum DropPlan {
    /// Nothing: an entity cannot go below itself.
    Refused,
    /// The entity moves below the target. What a prefab instance brought is unpacked first when it
    /// leaves the instance.
    Move { unpack: bool },
}

/// The operator that unpacks an entity of a prefab instance.
pub const UNPACK_OPERATOR: &'static str = "prefab.unpack_child";

/// Whether an entity has to be unpacked before it moves below another.
pub open spec fn unpacks(w: WorldView, dragged: Entity, target: Entity) -> bool {
    &&& w.inherited(dragged)
    &&& w.instance_root(dragged) is Some
    &&& w.instance_root(dragged) != w.instance_root(target)
    &&& w.doc.node_of(dragged) is Some
    &&& w.doc.node_of(target) is Some
}

pub open spec fn drop_plan(w: WorldView, dragged: Entity, target: Entity) -> DropPlan {
    if dragged == target || w.ancestors(target).contains(dragged) {
        DropPlan::Refused
    } else {
        DropPlan::Move { unpack: unpacks(w, dragged, target) }
    }
}

/// Tells what comes of dropping a row on another. A drop on the entity itself, or on something below
/// it, is refused.
fn plan_drop(world: &SceneWorld, dragged: Entity, target: Entity) -> (r: DropPlan)
    ensures
        r == drop_plan(world@, dragged, target),
{
    if dragged == target {
        return DropPlan::Refused;
    }
    let above: Vec<Entity> = ancestors_of(world, target);
    if contains(&above, dragged) {
        return DropPlan::Refused;
    }
    let mut unpack: bool = false;
    if is_inherited_entity(world, dragged) {
        let from: Option<Entity> = find_instance_root(world, dragged);
        let to: Option<Entity> = find_instance_root(world, target);
        if from.is_some() && from != to {
            unpack = world.document.ast_for(dragged).is_some() && world.document.ast_for(
                target,
            ).is_some();
        }
    }
    DropPlan::Move { unpack }
}

/// What is left to do after a row was dropped on another.
#[derive(Clone, Copy, Debug, PartialEq, Eq, Structural)]
pub enum DropOutcome {
    /// Nothing: the drop was refused.
    Refused,
    /// Run [`UNPACK_OPERATOR`] on the entity and the target, then [`finish_drop`].
    Unpack,
    /// Let the transform of the moved entity follow.
    Moved(TransformPlan),
}

/// Drops a row on another: moves its entity below the target and records the step. A drop on the
/// entity itself, or on something below it, is refused. What leaves a prefab instance has to be
/// unpacked before it moves.
pub fn on_tree_row_dropped(
    world: &mut SceneWorld,
    history: &mut CommandHistory,
    dragged: Entity,
    target: Entity,
    entity_placed: bool,
    parent_placed: bool,
) -> (r: DropOutcome)
    requires
        drop_plan(old(world)@, dragged, target) == (DropPlan::Move { unpack: false }) ==> {
            &&& old(world)@.can_move(dragged, Some(target))
            &&& old(world)@.doc.linked()
        },
    ensures
        match drop_plan(old(world)@, dragged, target) {
            DropPlan::Refused => r == DropOutcome::Refused && *final(world) == *old(world)
                && *final(history) == *old(history),
            DropPlan::Move { unpack: true } => r == DropOutcome::Unpack && *final(world) == *old(
                world,
            ) && *final(history) == *old(history),
            DropPlan::Move { unpack: false } => {
                &&& r == DropOutcome::Moved(
                    transform_plan(Some(target), entity_placed, parent_placed),
                )
                &&& dropped(
                    old(world)@,
                    final(world)@,
                    *old(history),
                    *final(history),
                    dragged,
                    target,
                )
            },
        },
        dragged == target ==> r == DropOutcome::Refused,
{
    match plan_drop(world, dragged, target) {
        DropPlan::Refused => DropOutcome::Refused,
        DropPlan::Move { unpack } => if unpack {
            DropOutcome::Unpack
        } else {
            DropOutcome::Moved(
                finish_drop(world, history, dragged, target, entity_placed, parent_placed),
            )
        },
    }
}

/// Whether a dropped entity was moved below the target, and that was recorded.
pub open spec fn dropped(
    before: WorldView,
    after: WorldView,
    history_before: CommandHistory,
    history_after: CommandHistory,
    dragged: Entity,
    target: Entity,
) -> bool {
    &&& reparent_recorded(
        history_before,
        history_after,
        (ReparentEntity {
            entity: dragged,
            old_parent: before.parent_of(dragged),
            new_parent: Some(target),
        }),
    )
    &&& after == before.located(dragged, drop_location(before, dragged, Some(target)))
    &&& document_kept(before.doc, after.doc)
}

/// Where a dropped entity goes: behind the children of its new parent.
pub open spec fn drop_location(w: WorldView, e: Entity, parent: Option<Entity>) -> LocationView {
    LocationView { parent, index: usize::MAX as nat, slot: w.entities[e].slot }
}

/// Whether the history became another by recording that an entity was moved below another parent.
pub open spec fn reparent_recorded(
    before: CommandHistory,
    after: CommandHistory,
    step: ReparentEntity,
) -> bool {
    &&& before.recorded(after)
    &&& after.undo_stack@.last() == EditorCommand::Engine(EngineCommand::Reparent(step))
}

/// Moves a dropped entity below the target, records the step, and returns what has to be done about
/// its transform.
pub fn finish_drop(
    world: &mut SceneWorld,
    history: &mut CommandHistory,
    dragged: Entity,
    target: Entity,
    entity_placed: bool,
    parent_placed: bool,
) -> (plan: TransformPlan)
    requires
        old(world)@.can_move(dragged, Some(target)),
        old(world)@.doc.linked(),
    ensures
        plan == transform_plan(Some(target), entity_placed, parent_placed),
        dropped(
            old(world)@,
            final(world)@,
            *old(history),
            *final(history),
            dragged,
            target,
        ),
{
    let mut command: ReparentEntity = ReparentEntity {
        entity: dragged,
        old_parent: world.parent(dragged),
        new_parent: Some(target),
    };
    let plan: TransformPlan = command.execute(world, entity_placed, parent_placed);
    history.push_executed(EditorCommand::Engine(EngineCommand::Reparent(command)));
    assert(history.undo_stack@.drop_last() =~= old(history).undo_stack@);
    plan
}

/// Moves an entity that was dropped on the empty part of a panel to the top, and hangs its rows
/// there, and records the step. Nothing happens to one that has no parent, or is the editor's own.
pub fn on_tree_row_dropped_on_root(
    world: &mut SceneWorld,
    history: &mut CommandHistory,
    outliner: &mut Outliner,
    dragged: Entity,
    entity_placed: bool,
) -> (r: Option<TransformPlan>)
    requires
        old(world)@.doc.linked(),
    ensures
        ({
            let moves = old(world)@.parent_of(dragged) is Some && !old(world)@.marks_of(
                dragged,
            ).editor_entity;
            &&& !moves ==> r is None && final(world)@ == old(world)@ && *final(outliner) == *old(
                outliner,
            ) && *final(history) == *old(history)
            &&& moves ==> {
                &&& r == Some(transform_plan(None, entity_placed, false))
                &&& reparent_recorded(
                    *old(history),
                    *final(history),
                    (ReparentEntity {
                        entity: dragged,
                        old_parent: old(world)@.parent_of(dragged),
                        new_parent: None,
                    }),
                )
                &&& final(world)@ == old(world)@.located(
                    dragged,
                    drop_location(old(world)@, dragged, None),
                )
                &&& document_kept(old(world)@.doc, final(world)@.doc)
                &&& final(outliner)@.rows == rows_changed(
                    old(outliner)@.rows,
                    dragged,
                    RowChange::Parent,
                )
            }
        }),
{
    let old_parent: Option<Entity> = world.parent(dragged);
    if old_parent.is_none() || world.marks(dragged).editor_entity {
        return None;
    }
    let mut command: ReparentEntity = ReparentEntity {
        entity: dragged,
        old_parent,
        new_parent: None,
    };
    let plan: TransformPlan = command.execute(world, entity_placed, false);
    rehang_at_root(outliner, dragged);
    history.push_executed(EditorCommand::Engine(EngineCommand::Reparent(command)));
    assert(history.undo_stack@.drop_last() =~= old(history).undo_stack@);
    Some(plan)
}

/// Whether an entity is another or below it.
pub open spec fn at_or_below(
    w: WorldView,
    rank: spec_fn(Entity) -> nat,
    e: Entity,
    top: Entity,
) -> bool {
    e == top || w.ancestors_to(e, rank(e)).contains(top)
}

/// Ranks after a move of `dragged` below `target`: what moves ranks above everything that the target
/// ranks above.
pub open spec fn ranks_after_drop(
    w: WorldView,
    rank: spec_fn(Entity) -> nat,
    dragged: Entity,
    target: Entity,
) -> spec_fn(Entity) -> nat {
    |e: Entity|
        if at_or_below(w, rank, e, dragged) {
            rank(e) + rank(target) + 1
        } else {
            rank(e)
        }
}

/// A drop that is not refused leaves no entity its own ancestor: where parents ranked lower than
/// their children before, there are such ranks after it. Ranks are no higher than the number of
/// entities.
pub proof fn law_drop_makes_no_cycle(
    w: WorldView,
    rank: spec_fn(Entity) -> nat,
    dragged: Entity,
    target: Entity,
)
    requires
        w.can_move(dragged, Some(target)),
        w.ranked_upwards(rank),
        rank(target) <= w.entities.len(),
        drop_plan(w, dragged, target) is Move,
    ensures
        w.located(dragged, drop_location(w, dragged, Some(target))).ranked_upwards(
            ranks_after_drop(w, rank, dragged, target),
        ),
{
    let after = w.located(dragged, drop_location(w, dragged, Some(target)));
    let shifted = ranks_after_drop(w, rank, dragged, target);
    law_ancestors_are_complete(w, rank, target, rank(target), w.entities.len());
    assert(!at_or_below(w, rank, target, dragged));
    assert forall|e: Entity, p: Entity| #[trigger]
        after.parent_of(e) == Some(p) implies #[trigger] shifted(p) < shifted(e) by {
        if e == dragged {
            assert(p == target);
        } else {
            assert(w.parent_of(e) == Some(p));
            assert(rank(p) < rank(e));
            let up = w.ancestors_to(e, rank(e));
            let rest = w.ancestors_to(p, (rank(e) - 1) as nat);
            assert(up == seq![p] + rest);
            law_ancestors_are_complete(w, rank, p, rank(p), (rank(e) - 1) as nat);
            if at_or_below(w, rank, e, dragged) {
                let i = choose|i: int| 0 <= i < up.len() && up[i] == dragged;
                if i > 0 {
                    assert(rest[i - 1] == dragged);
                }
                assert(at_or_below(w, rank, p, dragged));
            } else if at_or_below(w, rank, p, dragged) {
                if p == dragged {
                    assert(up[0] == dragged);
                } else {
                    let i = choose|i: int| 0 <= i < rest.len() && rest[i] == dragged;
                    assert(up[i + 1] == dragged);
                }
            }
        }
    }
}

/// An entity cannot be dropped on itself, nor on its child or anything else below it.
pub proof fn law_nothing_goes_below_itself(w: WorldView, dragged: Entity, target: Entity)
    ensures
        drop_plan(w, dragged, dragged) == DropPlan::Refused,
        w.parent_of(target) == Some(dragged) && w.entities.len() > 0 ==> drop_plan(
            w,
            dragged,
            target,
        ) == DropPlan::Refused,
        w.parent_of(target) is None && dragged != target ==> drop_plan(w, dragged, target) is Move,
{
    if w.parent_of(target) == Some(dragged) && w.entities.len() > 0 {
        assert(w.ancestors(target)[0] == dragged);
    }
}

/// Only what a prefab instance brought is unpacked, when it leaves the instance and the document knows
/// it and where it goes.
pub proof fn law_leaving_a_prefab_unpacks(w: WorldView, dragged: Entity, target: Entity)
    requires
        drop_plan(w, dragged, target) is Move,
    ensures
        ({
            let unpack = drop_plan(w, dragged, target) == (DropPlan::Move { unpack: true });
            let known = w.doc.links.contains_key(dragged) && w.doc.links.contains_key(target);
            let from = w.instance_root(dragged);
            &&& !w.marks_of(dragged).prefab_entity ==> !unpack
            &&& w.marks_of(dragged).prefab_instance ==> !unpack
            &&& from == w.instance_root(target) ==> !unpack
            &&& !known ==> !unpack
            &&& w.marks_of(dragged).prefab_entity && !w.marks_of(dragged).prefab_instance && known
                && from is Some && from != w.instance_root(target) ==> unpack
        }),
{
}

/// A dropped entity is the last child of the target, and of no other entity. Its own children and its
/// name stay, and the target's other children keep their order.
pub proof fn law_dropped_entity_is_last(w: WorldView, dragged: Entity, target: Entity, other: Entity)
    requires
        w.can_move(dragged, Some(target)),
        agrees(w),
        w.children_of(target).len() <= usize::MAX,
    ensures
        ({
            let after = w.located(dragged, drop_location(w, dragged, Some(target)));
            &&& after.parent_of(dragged) == Some(target)
            &&& after.children_of(target) == without(w.children_of(target), dragged).push(dragged)
            &&& other != target ==> !after.children_of(other).contains(dragged)
            &&& after.entities[dragged].name == w.entities[dragged].name
            &&& after.entities[dragged].slot == w.entities[dragged].slot
            &&& after.children_of(dragged) == w.children_of(dragged)
        }),
{
    let location = drop_location(w, dragged, Some(target));
    let after = w.located(dragged, location);
    lemma_agreeing_is_listed(w, dragged, Some(target));
    lemma_located(w, dragged, location);
    assert(after.entities.dom().contains(dragged) && after.entities.dom().contains(target));
    let rest = without(w.children_of(target), dragged);
    lemma_filter_contains(w.children_of(target), not_entity(dragged), dragged);
    lemma_filter_length(w.children_of(target), not_entity(dragged));
    assert(rest.insert(rest.len() as int, dragged) =~= rest.push(dragged));
    if other != target && w.alive(other) {
        assert(after.entities.dom().contains(other));
        lemma_filter_contains(w.children_of(other), not_entity(dragged), dragged);
        if other == dragged && w.children_of(dragged).contains(dragged) {
            assert(w.parent_of(dragged) == Some(dragged));
        }
        if w.parent_of(dragged) != Some(other) && w.children_of(other).contains(dragged) {
            assert(w.parent_of(dragged) == Some(other));
        }
    }
}

} // verus!
