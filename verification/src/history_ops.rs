//! The undo and redo operators.
use vstd::prelude::*;
use crate::brush::Brushes;
use crate::core_extension::ModalState;
use crate::history::{CommandHistory, EditorCommand};
use crate::operators::{
    bind, bindings_resolve, bound, Binding, ExtensionContext, KeyInput, OperatorResult,
};
use crate::outliner::Outliner;
use crate::outliner_events::{all_reconciled, ids_last, reconcile_outliner, roots_of};
use crate::value::Entity;
use crate::world::SceneWorld;

verus! {

pub open spec fn history_operators() -> Seq<&'static str> {
    seq!["HistoryUndoOp", "HistoryRedoOp"]
}

pub open spec fn history_bindings() -> Seq<Binding> {
    seq![
        bound("HistoryUndoOp", KeyInput::key_spec("KeyZ").ctrl_spec()),
        bound("HistoryRedoOp", KeyInput::key_spec("KeyZ").ctrl_spec().shift_spec()),
    ]
}

/// Registers undo and redo and binds their keys.
pub fn add_to_extension(ctx: &mut ExtensionContext)
    ensures
        final(ctx).operators@ == old(ctx).operators@ + history_operators(),
        final(ctx).bindings@ == old(ctx).bindings@ + history_bindings(),
        final(ctx).features@ == old(ctx).features@,
{
    let operators: Vec<&'static str> = vec!["HistoryUndoOp", "HistoryRedoOp"];
    assert(operators@ =~= history_operators());
    ctx.register_operators(&operators);
    let bindings: Vec<Binding> = vec![
        bind("HistoryUndoOp", KeyInput::key("KeyZ").ctrl()),
        bind("HistoryRedoOp", KeyInput::key("KeyZ").ctrl().shift()),
    ];
    assert(bindings@ =~= history_bindings());
    ctx.bind_operators(&bindings);
}

/// The keys for undo and redo run operators that are registered.
pub proof fn law_history_bindings_resolve()
    ensures
        bindings_resolve(history_operators(), history_bindings()),
{
    let ops = history_operators();
    let bs = history_bindings();
    assert forall|i: int| 0 <= i < bs.len() implies ops.contains((#[trigger] bs[i]).operator) by {
        assert(ops[i] == bs[i].operator);
    }
}

/// The path of a cut that is being placed, and the points that were taken back. Points enter the
/// history only when the cut is made.
#[derive(Debug)]
pub struct KnifeMode {
    pub path: Vec<u64>,
    pub undone_path: Vec<u64>,
}

impl KnifeMode {
    /// Whether the path became another by taking its last point back.
    pub open spec fn point_undone(self, after: KnifeMode) -> bool {
        &&& self.path@.len() > 0
        &&& after.path@ == self.path@.drop_last()
        &&& after.undone_path@ == self.undone_path@.push(self.path@.last())
    }

    /// Whether the path became another by placing the point that was taken back last again.
    pub open spec fn point_redone(self, after: KnifeMode) -> bool {
        &&& self.undone_path@.len() > 0
        &&& after.undone_path@ == self.undone_path@.drop_last()
        &&& after.path@ == self.path@.push(self.undone_path@.last())
    }

    /// Takes the last point back, if there is one, and says whether there was.
    pub fn undo_point(&mut self) -> (r: bool)
        ensures
            r == (old(self).path@.len() > 0),
            r ==> old(self).point_undone(*final(self)),
            !r ==> final(self).path@ == old(self).path@ && final(self).undone_path@ == old(self).undone_path@,
    {
        match self.path.pop() {
            Some(p) => {
                self.undone_path.push(p);
                true
            },
            None => false,
        }
    }

    /// Places the point that was taken back last again, if there is one, and says whether there
    /// was.
    pub fn redo_point(&mut self) -> (r: bool)
        ensures
            r == (old(self).undone_path@.len() > 0),
            r ==> old(self).point_redone(*final(self)),
            !r ==> final(self).path@ == old(self).path@ && final(self).undone_path@ == old(self).undone_path@,
    {
        match self.undone_path.pop() {
            Some(p) => {
                self.path.push(p);
                true
            },
            None => false,
        }
    }
}

/// Placing a point again that was taken back leaves the path as it was.
pub proof fn law_knife_point_round_trip(a: KnifeMode, b: KnifeMode, c: KnifeMode)
    requires
        a.point_undone(b),
        b.point_redone(c),
    ensures
        c.path@ == a.path@,
        c.undone_path@ == a.undone_path@,
{
    assert(c.path@ =~= a.path@);
    assert(c.undone_path@ =~= a.undone_path@);
}

/// Undoes the last step. With the shift key held nothing happens: that chord is redo's. While a
/// cut is being placed its last point is taken back. Otherwise the running tool is cancelled, the
/// history steps back, and the result tells that the views have to be refreshed, and which command
/// has to be undone with the engine, if it is such a one.
pub fn history_undo(
    world: &mut SceneWorld,
    history: &mut CommandHistory,
    modal: &mut ModalState,
    knife: &mut KnifeMode,
    shift_held: bool,
) -> (r: (OperatorResult, bool, Option<EditorCommand>))
    ensures
        r.0 == OperatorResult::Finished,
        r.1 == (!shift_held && old(knife).path@.len() == 0),
        r.1 ==> {
            &&& old(history).stepped_back(*final(history), old(world)@, final(world)@, r.2)
            &&& final(modal).running is None
        },
        !r.1 ==> {
            &&& final(world)@ == old(world)@
            &&& *final(history) == *old(history)
            &&& final(modal).running == old(modal).running
            &&& r.2 is None
        },
        final(modal).pickers@ == old(modal).pickers@,
        !shift_held && old(knife).path@.len() > 0 ==> old(knife).point_undone(*final(knife)),
        shift_held || old(knife).path@.len() == 0 ==> final(knife).path@ == old(knife).path@
            && final(knife).undone_path@ == old(knife).undone_path@,
{
    if shift_held {
        return (OperatorResult::Finished, false, None);
    }
    if knife.undo_point() {
        return (OperatorResult::Finished, false, None);
    }
    modal.running = None;
    let handed: Option<EditorCommand> = history.undo(world);
    (OperatorResult::Finished, true, handed)
}

/// Does the step that was undone last again. While a cut is being placed, the point that was taken
/// back last is placed again. Otherwise the running tool is cancelled, the history steps on, and
/// the result tells that the views have to be refreshed, and which command has to be executed with
/// the engine, if it is such a one.
pub fn history_redo(
    world: &mut SceneWorld,
    history: &mut CommandHistory,
    modal: &mut ModalState,
    knife: &mut KnifeMode,
) -> (r: (OperatorResult, bool, Option<EditorCommand>))
    ensures
        r.0 == OperatorResult::Finished,
        r.1 == (old(knife).undone_path@.len() == 0),
        r.1 ==> {
            &&& old(history).stepped_on(*final(history), old(world)@, final(world)@, r.2)
            &&& final(modal).running is None
            &&& final(knife).path@ == old(knife).path@
            &&& final(knife).undone_path@ == old(knife).undone_path@
        },
        !r.1 ==> {
            &&& final(world)@ == old(world)@
            &&& *final(history) == *old(history)
            &&& final(modal).running == old(modal).running
            &&& old(knife).point_redone(*final(knife))
            &&& r.2 is None
        },
        final(modal).pickers@ == old(modal).pickers@,
{
    if knife.redo_point() {
        return (OperatorResult::Finished, false, None);
    }
    modal.running = None;
    let handed: Option<EditorCommand> = history.redo(world);
    (OperatorResult::Finished, true, handed)
}

/// Refreshes what is shown after a step of the history: brings the outliner in line with the scene, and
/// returns every brush, whose mesh has to be built again.
pub fn refresh_views_after_history(
    outliner: &mut Outliner,
    world: &SceneWorld,
    live: bool,
    icons: &Vec<(Entity, String)>,
    live_entities: &Vec<Entity>,
    containers: &Vec<Entity>,
    brushes: &Brushes,
) -> (touched: Vec<Entity>)
    requires
        world@.entities.len() < usize::MAX,
        ids_last(
            world@,
            live,
            icons@,
            old(outliner)@,
            containers@,
            roots_of(world@, live, live_entities@),
        ),
    ensures
        final(outliner)@ == all_reconciled(
            world@,
            live,
            icons@,
            old(outliner)@,
            containers@,
            roots_of(world@, live, live_entities@),
        ),
        touched@.to_set() == brushes@.dom(),
        touched@.no_duplicates(),
{
    reconcile_outliner(outliner, world, live, icons, live_entities, containers);
    brushes.entities()
}

/// Redo has the key of undo, with the shift key held as well.
pub proof fn law_redo_is_undo_with_shift(i: int, j: int)
    requires
        0 <= i < history_bindings().len(),
        0 <= j < history_bindings().len(),
        history_bindings()[i].operator == "HistoryUndoOp",
        history_bindings()[j].operator == "HistoryRedoOp",
    ensures
        ({
            let undo = history_bindings()[i].input;
            let redo = history_bindings()[j].input;
            &&& undo.key == "KeyZ" && redo.key == "KeyZ"
            &&& undo.ctrl && redo.ctrl
            &&& !undo.shift && redo.shift
            &&& !undo.alt && !redo.alt
            &&& undo.on_press && redo.on_press
        }),
{
    reveal_strlit("HistoryUndoOp");
    reveal_strlit("HistoryRedoOp");
    assert("HistoryUndoOp"@[7] == 'U');
    assert("HistoryRedoOp"@[7] == 'R');
}

} // verus!
