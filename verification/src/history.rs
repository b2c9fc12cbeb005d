//! Command groups and the undo history.
use vstd::prelude::*;
use crate::clipboard::PasteEntitiesCommand;
use crate::component_commands::{
    law_transform_is_read_back, transformed, AddComponent, AddProjectComponent, RemoveComponent, SetTransform,
};
use crate::draw_brush::{CreateBrushCommand, SetBrush};
use crate::lifecycle::{DespawnEntity, SpawnEntity};
use crate::location::{MoveEntity, ReparentEntity};
use crate::seqs::{lemma_first_index, lemma_first_index_is};
use crate::set_field::{SetBsnField, SetFieldView};
use crate::value::{Entity, StructView};
use crate::world::{component_index, typed, SceneWorld, WorldView};

verus! {

/// A command that the engine takes part in: it respawns what was despawned, places what was moved,
/// or keeps what the command changes.
#[derive(Debug)]
pub enum EngineCommand {
    Reparent(ReparentEntity),
    Move(MoveEntity),
    AddComponent(AddComponent),
    RemoveComponent(RemoveComponent),
    Spawn(SpawnEntity),
    Despawn(DespawnEntity),
    SetBrush(SetBrush),
    CreateBrush(CreateBrushCommand),
    Paste(PasteEntitiesCommand),
}

/// A command that the history keeps.
#[derive(Debug)]
pub enum EditorCommand {
    SetField(SetBsnField),
    SetTransform(SetTransform),
    AddProject(AddProjectComponent),
    Engine(EngineCommand),
    Group(CommandGroup),
}

/// Commands that are executed and undone together.
#[derive(Debug)]
pub struct CommandGroup {
    pub commands: Vec<EditorCommand>,
    pub label: String,
}

/// What an [`EditorCommand`] stands for.
pub ghost enum CommandView {
    SetField(SetFieldView),
    SetTransform { entity: Entity, before: StructView, after: StructView },
    AddProject(AddProjectComponent),
    Engine(EngineCommand),
    Group { commands: Seq<CommandView>, label: Seq<char> },
}

pub open spec fn command_view(c: EditorCommand) -> CommandView
    decreases c,
{
    match c {
        EditorCommand::SetField(f) => CommandView::SetField(f@),
        EditorCommand::SetTransform(t) => CommandView::SetTransform {
            entity: t.entity,
            before: t.old_transform@,
            after: t.new_transform@,
        },
        EditorCommand::AddProject(a) => CommandView::AddProject(a),
        EditorCommand::Engine(c) => CommandView::Engine(c),
        EditorCommand::Group(g) => group_view(g),
    }
}

pub open spec fn group_view(g: CommandGroup) -> CommandView
    decreases g,
{
    CommandView::Group { commands: commands_view(g.commands@), label: g.label@ }
}

pub open spec fn commands_view(commands: Seq<EditorCommand>) -> Seq<CommandView>
    decreases commands,
{
    Seq::new(
        commands.len(),
        |i: int|
            if 0 <= i < commands.len() {
                command_view(commands[i])
            } else {
                arbitrary()
            },
    )
}

impl View for EditorCommand {
    type V = CommandView;

    open spec fn view(&self) -> CommandView {
        command_view(*self)
    }
}

/// Whether a command needs the scene alone, without the engine.
pub open spec fn plain(c: CommandView) -> bool
    decreases c,
{
    match c {
        CommandView::Engine(_) => false,
        CommandView::Group { commands, label } => forall|i: int|
            0 <= i < commands.len() ==> plain(#[trigger] commands[i]),
        _ => true,
    }
}

/// A group needs the scene alone when each of its commands does.
proof fn lemma_plain_group(g: CommandGroup)
    ensures
        plain(group_view(g)) <==> forall|i: int|
            0 <= i < commands_view(g.commands@).len() ==> plain(
                #[trigger] commands_view(g.commands@)[i],
            ),
{
    let all = commands_view(g.commands@);
    let v = group_view(g);
    assert(v == CommandView::Group { commands: all, label: g.label@ });
    assert(v->commands == all);
}

/// The scene and the command after one command was executed. What the engine takes part in is not
/// executed here.
pub open spec fn executed(c: CommandView, w: WorldView) -> (WorldView, CommandView)
    decreases c,
{
    match c {
        CommandView::SetField(f) => (f.executed(w), CommandView::SetField(f.after_execute(w))),
        CommandView::SetTransform { entity, before, after } => (transformed(w, entity, after), c),
        CommandView::AddProject(a) => (
            a.executed(w),
            CommandView::AddProject(AddProjectComponent { added: a.adds(w), ..a }),
        ),
        CommandView::Engine(_) => (w, c),
        CommandView::Group { commands, label } => {
            let r = executed_all(commands, w);
            (r.0, CommandView::Group { commands: r.1, label })
        },
    }
}

/// The scene and the commands after commands were executed in order.
pub open spec fn executed_all(cs: Seq<CommandView>, w: WorldView) -> (WorldView, Seq<CommandView>)
    decreases cs,
{
    if cs.len() == 0 {
        (w, Seq::empty())
    } else {
        let init = executed_all(cs.drop_last(), w);
        let last = executed(cs[cs.len() - 1], init.0);
        (last.0, init.1.push(last.1))
    }
}

/// The scene after one command was undone.
pub open spec fn undone(c: CommandView, w: WorldView) -> WorldView
    decreases c,
{
    match c {
        CommandView::SetField(f) => f.undone(w),
        CommandView::SetTransform { entity, before, after } => transformed(w, entity, before),
        CommandView::AddProject(a) => a.undone(w),
        CommandView::Engine(_) => w,
        CommandView::Group { commands, label } => undone_all(commands, w),
    }
}

/// The scene after commands were undone, the last one first.
pub open spec fn undone_all(cs: Seq<CommandView>, w: WorldView) -> WorldView
    decreases cs,
{
    if cs.len() == 0 {
        w
    } else {
        undone_all(cs.drop_last(), undone(cs[cs.len() - 1], w))
    }
}

impl EditorCommand {
    /// Whether the command needs the scene alone, without the engine.
    pub fn is_plain(&self) -> (r: bool)
        ensures
            r == plain(self@),
        decreases self,
    {
        match self {
            EditorCommand::Engine(_) => false,
            EditorCommand::Group(g) => {
                let all: bool = g.is_plain();
                assert(all == plain(group_view(*g)));
                all
            },
            _ => true,
        }
    }

    /// Executes the command.
    pub fn execute(&mut self, world: &mut SceneWorld)
        requires
            plain(old(self)@),
        ensures
            final(world)@ == executed(old(self)@, old(world)@).0,
            final(self)@ == executed(old(self)@, old(world)@).1,
        decreases *old(self),
    {
        match self {
            EditorCommand::SetField(f) => {
                f.execute(world);
            },
            EditorCommand::SetTransform(t) => {
                t.execute(world);
            },
            EditorCommand::AddProject(a) => {
                a.execute(world);
            },
            EditorCommand::Engine(_) => {},
            EditorCommand::Group(g) => {
                g.execute(world);
            },
        }
    }

    /// Undoes the command.
    pub fn undo(&mut self, world: &mut SceneWorld)
        requires
            plain(old(self)@),
        ensures
            final(world)@ == undone(old(self)@, old(world)@),
            final(self)@ == old(self)@,
        decreases *old(self),
    {
        match self {
            EditorCommand::SetField(f) => {
                f.undo(world);
            },
            EditorCommand::SetTransform(t) => {
                t.undo(world);
            },
            EditorCommand::AddProject(a) => {
                a.undo(world);
            },
            EditorCommand::Engine(_) => {},
            EditorCommand::Group(g) => {
                g.undo(world);
            },
        }
    }
}

impl CommandGroup {
    /// Whether each of the commands needs the scene alone.
    fn is_plain(&self) -> (r: bool)
        ensures
            r == plain(group_view(*self)),
        decreases self,
    {
        let ghost all = commands_view(self.commands@);
        let mut i: usize = 0;
        while i < self.commands.len()
            invariant
                i <= self.commands.len(),
                all == commands_view(self.commands@),
                forall|j: int| 0 <= j < i ==> plain(#[trigger] all[j]),
            decreases self.commands.len() - i,
        {
            assert(decreases_to!(*self => self.commands));
            assert(decreases_to!(self.commands => self.commands@));
            assert(decreases_to!(self.commands@ => self.commands@[i as int]));
            if !self.commands[i].is_plain() {
                proof {
                    assert(!plain(all[i as int]));
                    lemma_plain_group(*self);
                }
                return false;
            }
            assert(plain(all[i as int]));
            i = i + 1;
        }
        proof {
            lemma_plain_group(*self);
        }
        true
    }

    /// Executes the commands in order.
    pub fn execute(&mut self, world: &mut SceneWorld)
        requires
            plain(group_view(*old(self))),
        ensures
            final(world)@ == executed_all(commands_view(old(self).commands@), old(world)@).0,
            commands_view(final(self).commands@) == executed_all(
                commands_view(old(self).commands@),
                old(world)@,
            ).1,
            final(self).label == old(self).label,
        decreases *old(self),
    {
        let ghost all = commands_view(self.commands@);
        proof {
            lemma_plain_group(*self);
        }
        let ghost start = world@;
        let n: usize = self.commands.len();
        let mut i: usize = 0;
        assert(all.subrange(0, 0) =~= Seq::empty());
        while i < n
            invariant
                i <= n,
                n == self.commands.len(),
                n == old(self).commands.len(),
                all == commands_view(old(self).commands@),
                self.label == old(self).label,
                forall|j: int| 0 <= j < n ==> plain(#[trigger] all[j]),
                forall|j: int| i <= j < n ==> self.commands[j] == old(self).commands[j],
                world@ == executed_all(all.subrange(0, i as int), start).0,
                commands_view(self.commands@).subrange(0, i as int) == executed_all(
                    all.subrange(0, i as int),
                    start,
                ).1,
            decreases n - i,
        {
            assert(decreases_to!(*old(self) => old(self).commands));
            assert(decreases_to!(old(self).commands => old(self).commands@));
            assert(decreases_to!(old(self).commands@ => old(self).commands@[i as int]));
            let ghost before = commands_view(self.commands@);
            assert(plain(all[i as int]));
            let mut c: EditorCommand = self.commands.remove(i);
            c.execute(world);
            self.commands.insert(i, c);
            proof {
                let cut = all.subrange(0, i + 1);
                assert(cut.drop_last() =~= all.subrange(0, i as int));
                assert(cut[cut.len() - 1] == all[i as int]);
                assert(commands_view(self.commands@).subrange(0, i + 1) =~= before.subrange(
                    0,
                    i as int,
                ).push(c@));
            }
            i = i + 1;
        }
        assert(all.subrange(0, n as int) =~= all);
        assert(commands_view(self.commands@).subrange(0, n as int) =~= commands_view(
            self.commands@,
        ));
    }

    /// Undoes the commands, the last one first.
    pub fn undo(&mut self, world: &mut SceneWorld)
        requires
            plain(group_view(*old(self))),
        ensures
            final(world)@ == undone_all(commands_view(old(self).commands@), old(world)@),
            commands_view(final(self).commands@) == commands_view(old(self).commands@),
            final(self).label == old(self).label,
        decreases *old(self),
    {
        let ghost all = commands_view(self.commands@);
        proof {
            lemma_plain_group(*self);
        }
        let ghost goal = undone_all(all, world@);
        let n: usize = self.commands.len();
        let mut i: usize = n;
        assert(all.subrange(0, n as int) =~= all);
        while i > 0
            invariant
                i <= n,
                n == self.commands.len(),
                n == old(self).commands.len(),
                all == commands_view(old(self).commands@),
                self.label == old(self).label,
                forall|j: int| 0 <= j < n ==> plain(#[trigger] all[j]),
                forall|j: int| 0 <= j < i ==> self.commands[j] == old(self).commands[j],
                goal == undone_all(all.subrange(0, i as int), world@),
                commands_view(self.commands@) == all,
            decreases i,
        {
            i = i - 1;
            assert(decreases_to!(*old(self) => old(self).commands));
            assert(decreases_to!(old(self).commands => old(self).commands@));
            assert(decreases_to!(old(self).commands@ => old(self).commands@[i as int]));
            assert(plain(all[i as int]));
            let mut c: EditorCommand = self.commands.remove(i);
            c.undo(world);
            self.commands.insert(i, c);
            proof {
                let cut = all.subrange(0, i + 1);
                assert(cut.drop_last() =~= all.subrange(0, i as int));
                assert(cut[cut.len() - 1] == all[i as int]);
                assert(commands_view(self.commands@) =~= all);
            }
        }
        assert(all.subrange(0, 0) =~= Seq::empty());
    }
}

/// The commands that can be undone and those that can be done again.
#[derive(Debug)]
pub struct CommandHistory {
    pub undo_stack: Vec<EditorCommand>,
    pub redo_stack: Vec<EditorCommand>,
}

impl CommandHistory {
    pub fn new() -> (r: CommandHistory)
        ensures
            r.undo_stack@ == Seq::<EditorCommand>::empty(),
            r.redo_stack@ == Seq::<EditorCommand>::empty(),
    {
        CommandHistory { undo_stack: Vec::new(), redo_stack: Vec::new() }
    }

    /// Records a command that was executed; what could be done again no longer can.
    pub fn push_executed(&mut self, command: EditorCommand)
        ensures
            final(self).undo_stack@ == old(self).undo_stack@.push(command),
            final(self).redo_stack@ == Seq::<EditorCommand>::empty(),
    {
        self.undo_stack.push(command);
        self.redo_stack = Vec::new();
    }

    /// Whether undoing led from this history and scene `w` to history `after` and scene `w2`: the
    /// last command is undone and can be done again; without one nothing changes. A command that the
    /// engine takes part in is taken off and handed out instead.
    pub open spec fn stepped_back(
        self,
        after: CommandHistory,
        w: WorldView,
        w2: WorldView,
        handed: Option<EditorCommand>,
    ) -> bool {
        if self.undo_stack@.len() == 0 {
            &&& w2 == w
            &&& after.undo_stack@ == self.undo_stack@
            &&& after.redo_stack@ == self.redo_stack@
            &&& handed is None
        } else {
            let last = self.undo_stack@.last();
            &&& after.undo_stack@ == self.undo_stack@.drop_last()
            &&& plain(last@) ==> {
                &&& w2 == undone(last@, w)
                &&& commands_view(after.redo_stack@) == commands_view(self.redo_stack@).push(last@)
                &&& handed is None
            }
            &&& !plain(last@) ==> {
                &&& w2 == w
                &&& after.redo_stack@ == self.redo_stack@
                &&& handed == Some(last)
            }
        }
    }

    /// Whether doing again led from this history and scene `w` to history `after` and scene `w2`:
    /// the command that was undone last is executed; without one nothing changes. A command that the
    /// engine takes part in is taken off and handed out instead.
    pub open spec fn stepped_on(
        self,
        after: CommandHistory,
        w: WorldView,
        w2: WorldView,
        handed: Option<EditorCommand>,
    ) -> bool {
        if self.redo_stack@.len() == 0 {
            &&& w2 == w
            &&& after.undo_stack@ == self.undo_stack@
            &&& after.redo_stack@ == self.redo_stack@
            &&& handed is None
        } else {
            let last = self.redo_stack@.last();
            let done = executed(last@, w);
            &&& after.redo_stack@ == self.redo_stack@.drop_last()
            &&& plain(last@) ==> {
                &&& w2 == done.0
                &&& commands_view(after.undo_stack@) == commands_view(self.undo_stack@).push(done.1)
                &&& handed is None
            }
            &&& !plain(last@) ==> {
                &&& w2 == w
                &&& after.undo_stack@ == self.undo_stack@
                &&& handed == Some(last)
            }
        }
    }

    /// Undoes the last command, if there is one. A command that the engine takes part in is handed
    /// out to be undone with it, and comes back through [`CommandHistory::finish_undo`].
    pub fn undo(&mut self, world: &mut SceneWorld) -> (handed: Option<EditorCommand>)
        ensures
            old(self).stepped_back(*final(self), old(world)@, final(world)@, handed),
    {
        let popped: Option<EditorCommand> = self.undo_stack.pop();
        if let Some(c) = popped {
            let mut c: EditorCommand = c;
            if !c.is_plain() {
                return Some(c);
            }
            c.undo(world);
            let ghost before = commands_view(self.redo_stack@);
            self.redo_stack.push(c);
            assert(commands_view(self.redo_stack@) =~= before.push(c@));
        }
        None
    }

    /// Takes back a command that was handed out and is undone: it can be done again.
    pub fn finish_undo(&mut self, command: EditorCommand)
        ensures
            final(self).redo_stack@ == old(self).redo_stack@.push(command),
            final(self).undo_stack@ == old(self).undo_stack@,
    {
        self.redo_stack.push(command);
    }

    /// Executes the command that was undone last again, if there is one. A command that the engine
    /// takes part in is handed out to be executed with it, and comes back through
    /// [`CommandHistory::finish_redo`].
    pub fn redo(&mut self, world: &mut SceneWorld) -> (handed: Option<EditorCommand>)
        ensures
            old(self).stepped_on(*final(self), old(world)@, final(world)@, handed),
    {
        let popped: Option<EditorCommand> = self.redo_stack.pop();
        if let Some(c) = popped {
            let mut c: EditorCommand = c;
            if !c.is_plain() {
                return Some(c);
            }
            c.execute(world);
            let ghost before = commands_view(self.undo_stack@);
            self.undo_stack.push(c);
            assert(commands_view(self.undo_stack@) =~= before.push(c@));
        }
        None
    }

    /// Takes back a command that was handed out and is executed: it can be undone again.
    pub fn finish_redo(&mut self, command: EditorCommand)
        ensures
            final(self).undo_stack@ == old(self).undo_stack@.push(command),
            final(self).redo_stack@ == old(self).redo_stack@,
    {
        self.undo_stack.push(command);
    }

    /// Whether this history became `after` by recording a command: it is the last to be undone, and
    /// nothing can be done again.
    pub open spec fn recorded(self, after: CommandHistory) -> bool {
        &&& after.undo_stack@.len() == self.undo_stack@.len() + 1
        &&& after.undo_stack@.drop_last() == self.undo_stack@
        &&& after.redo_stack@.len() == 0
    }

    /// Whether this history became `after` by recording that an entity was spawned.
    pub open spec fn spawn_recorded(
        self,
        after: CommandHistory,
        entity: Entity,
        label: Seq<char>,
    ) -> bool {
        &&& self.recorded(after)
        &&& after.undo_stack@.last() matches EditorCommand::Engine(EngineCommand::Spawn(s))
            && s.spawned == Some(entity) && s.label@ == label
    }

    /// Records that an entity was spawned.
    pub fn record_spawn(&mut self, entity: Entity, label: String)
        ensures
            old(self).spawn_recorded(*final(self), entity, label@),
    {
        let step = SpawnEntity { spawned: Some(entity), label };
        self.push_executed(EditorCommand::Engine(EngineCommand::Spawn(step)));
        assert(self.undo_stack@.drop_last() =~= old(self).undo_stack@);
    }
}

/// A command that was handed out to be undone and came back is the next to be handed out to be done
/// again, on a history that is otherwise as it was; once it came back from that, the history has it
/// where it was.
pub proof fn law_engine_command_round_trip(
    before: CommandHistory,
    out: CommandHistory,
    back: CommandHistory,
    again: CommandHistory,
    w0: WorldView,
    w1: WorldView,
    w2: WorldView,
    w3: WorldView,
    first: Option<EditorCommand>,
    undone_command: EditorCommand,
    second: Option<EditorCommand>,
)
    requires
        before.stepped_back(out, w0, w1, first),
        first is Some,
        back.redo_stack@ == out.redo_stack@.push(undone_command),
        back.undo_stack@ == out.undo_stack@,
        !plain(undone_command@),
        back.stepped_on(again, w2, w3, second),
    ensures
        first == Some(before.undo_stack@.last()),
        w1 == w0,
        second == Some(undone_command),
        w3 == w2,
        again.redo_stack@ == before.redo_stack@,
        again.undo_stack@ == before.undo_stack@.drop_last(),
{
    assert(back.redo_stack@.drop_last() =~= out.redo_stack@);
}

/// Doing again a command of the scene that was just undone executes the same command, on the scene that its undo left, and
/// leaves the same commands to be done again as before.
pub proof fn law_redo_after_undo(
    before: CommandHistory,
    between: CommandHistory,
    after: CommandHistory,
    w0: WorldView,
    w1: WorldView,
    w2: WorldView,
)
    requires
        before.undo_stack@.len() > 0,
        plain(before.undo_stack@.last()@),
        before.stepped_back(between, w0, w1, None),
        between.stepped_on(after, w1, w2, None),
    ensures
        ({
            let c = before.undo_stack@.last()@;
            &&& w2 == executed(c, undone(c, w0)).0
            &&& commands_view(after.redo_stack@) == commands_view(before.redo_stack@)
            &&& commands_view(after.undo_stack@) == commands_view(
                before.undo_stack@.drop_last(),
            ).push(executed(c, undone(c, w0)).1)
        }),
{
    let c = before.undo_stack@.last()@;
    let redo = commands_view(between.redo_stack@);
    assert(redo == commands_view(before.redo_stack@).push(c));
    assert(redo.last() == c);
    assert(commands_view(after.redo_stack@) =~= redo.drop_last());
    assert(redo.drop_last() =~= commands_view(before.redo_stack@));
}

/// Undoing a change of a transform gives the entity back the transform that it had: every entity is as
/// it was before the change.
pub proof fn law_transform_is_undone(
    w: WorldView,
    entity: Entity,
    before: StructView,
    after: StructView,
)
    requires
        w.held_component(entity, before.type_path) == Some(before),
        after.type_path == before.type_path,
    ensures
        ({
            let c = CommandView::SetTransform { entity, before, after };
            &&& executed(c, w).0.held_component(entity, after.type_path) == Some(after)
            &&& undone(executed(c, w).1, executed(c, w).0).entities == w.entities
            &&& undone(executed(c, w).1, executed(c, w).0).selection == w.selection
        }),
{
    let mid = transformed(w, entity, after);
    law_transform_is_read_back(w, entity, after, Seq::empty());
    let cs = w.components_of(entity);
    lemma_first_index(cs, typed(before.type_path));
    let i = component_index(cs, before.type_path);
    lemma_first_index_is(cs.update(i, after), typed(before.type_path), i);
    assert(mid.components_of(entity) =~= cs.update(i, after));
    assert(cs.update(i, after).update(i, before) =~= cs);
    let back = transformed(mid, entity, before);
    assert(back.entities =~= w.entities);
}

/// A group's undo restores the scene when the undo of each of its commands does, each on the scene
/// that it was executed on.
pub proof fn law_group_undo_restores(cs: Seq<CommandView>, w: WorldView)
    requires
        forall|i: int|
            0 <= i < cs.len() ==> {
                let before = (#[trigger] executed_all(cs.subrange(0, i), w)).0;
                let done = executed(cs[i], before);
                undone(done.1, done.0) == before
            },
    ensures
        undone_all(executed_all(cs, w).1, executed_all(cs, w).0) == w,
    decreases cs.len(),
{
    if cs.len() > 0 {
        let n = cs.len() - 1;
        let init = cs.drop_last();
        assert(cs.subrange(0, n) =~= init);
        let before = executed_all(cs.subrange(0, n), w);
        assert forall|i: int| 0 <= i < init.len() implies {
            let before = (#[trigger] executed_all(init.subrange(0, i), w)).0;
            let done = executed(init[i], before);
            undone(done.1, done.0) == before
        } by {
            assert(init.subrange(0, i) =~= cs.subrange(0, i));
            let again = executed_all(cs.subrange(0, i), w);
        }
        law_group_undo_restores(init, w);
        let done = executed(cs[n], before.0);
        let all = executed_all(cs, w).1;
        assert(all =~= before.1.push(done.1));
        assert(all.drop_last() =~= before.1);
    }
}

} // verus!
