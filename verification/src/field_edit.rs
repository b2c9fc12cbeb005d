//! Field-edit gestures: begin, preview, commit.
//!
//! A preview changes live values before any command exists. The live values at the beginning of
//! the gesture are kept so that the commit can build its undo baselines.
use vstd::prelude::*;
use crate::history::{
    commands_view, executed, plain, CommandGroup, CommandHistory, CommandView, EditorCommand,
};
use crate::patch::{authored_value, has_patch};
use crate::seqs::{
    copied, first_index, lemma_filter_push, lemma_first_index, lemma_first_index_is,
};
use crate::set_field::{value_of, SetBsnField, SetFieldView};
use crate::text::{leading_segment, leading_segment_of, text_eq};
use crate::value::{
    find_field, has_field, law_set_then_read, lemma_field_index, put_field, with_field, BsnField,
    BsnStructData, BsnValue, Entity, StructView, ValueView,
};
use crate::world::{
    law_put_component_is_held, texts_view, with_component, SceneWorld, WorldView,
};

verus! {

/// The live value of one field of one entity when a gesture began.
#[derive(Debug)]
pub struct SessionEntry {
    pub entity: Entity,
    pub type_path: String,
    pub field_path: String,
    pub value: BsnValue,
}

/// What a [`SessionEntry`] stands for.
pub ghost struct EntryView {
    pub entity: Entity,
    pub type_path: Seq<char>,
    pub field_path: Seq<char>,
    pub value: ValueView,
}

impl View for SessionEntry {
    type V = EntryView;

    open spec fn view(&self) -> EntryView {
        EntryView {
            entity: self.entity,
            type_path: self.type_path@,
            field_path: self.field_path@,
            value: self.value@,
        }
    }
}

/// The live values at the beginning of the gestures in progress.
#[derive(Debug)]
pub struct FieldEditSessions {
    pub live_at_begin: Vec<SessionEntry>,
}

impl View for FieldEditSessions {
    type V = Seq<EntryView>;

    open spec fn view(&self) -> Seq<EntryView> {
        Seq::new(self.live_at_begin@.len(), |i: int| self.live_at_begin@[i]@)
    }
}

/// The test for being the entry of a field of an entity.
pub open spec fn keyed(
    e: Entity,
    type_path: Seq<char>,
    field_path: Seq<char>,
) -> spec_fn(EntryView) -> bool {
    |x: EntryView| x.entity == e && x.type_path == type_path && x.field_path == field_path
}

/// The value that a gesture captured for a field of an entity.
pub open spec fn captured(
    entries: Seq<EntryView>,
    e: Entity,
    type_path: Seq<char>,
    field_path: Seq<char>,
) -> Option<ValueView> {
    let i = first_index(entries, keyed(e, type_path, field_path));
    if i < entries.len() {
        Some(entries[i].value)
    } else {
        None
    }
}

/// The entries after a gesture on a field began for `targets`: each target that has no entry yet
/// and a live value gets one.
pub open spec fn begun(
    entries: Seq<EntryView>,
    w: WorldView,
    targets: Seq<Entity>,
    type_path: Seq<char>,
    field_path: Seq<char>,
) -> Seq<EntryView>
    decreases targets.len(),
{
    if targets.len() == 0 {
        entries
    } else {
        let before = begun(entries, w, targets.drop_last(), type_path, field_path);
        let e = targets.last();
        if captured(before, e, type_path, field_path) is Some {
            before
        } else {
            match w.live_field(e, type_path, field_path) {
                Some(value) => before.push(
                    EntryView { entity: e, type_path, field_path, value },
                ),
                None => before,
            }
        }
    }
}

/// The test for being of another field.
pub open spec fn of_other_field(
    type_path: Seq<char>,
    field_path: Seq<char>,
) -> spec_fn(EntryView) -> bool {
    |x: EntryView| x.type_path != type_path || x.field_path != field_path
}

/// The undo baseline of one target: the authored value; nothing when the component is authored but
/// the field is not; the value at the beginning of the gesture; the live value.
pub open spec fn resolved_old_value(
    w: WorldView,
    entries: Seq<EntryView>,
    e: Entity,
    type_path: Seq<char>,
    field_path: Seq<char>,
) -> Option<ValueView> {
    let authored = match w.doc.node_of(e) {
        Some(_) => authored_value(w.doc.entity_patches(e), type_path, field_path),
        None => None,
    };
    if authored is Some {
        authored
    } else if w.doc.authors(e, type_path) {
        None
    } else {
        match captured(entries, e, type_path, field_path) {
            Some(v) => Some(v),
            None => w.live_field(e, type_path, field_path),
        }
    }
}

/// Whether a field edit applies to an entity: a registered component that is edited whole or has
/// the field live; or a project component whose schema has the leading segment of the path.
pub open spec fn edit_applies(
    w: WorldView,
    e: Entity,
    type_path: Seq<char>,
    field_path: Seq<char>,
) -> bool {
    if w.registered(type_path) {
        field_path.len() == 0 || w.live_field(e, type_path, field_path) is Some
    } else {
        w.is_project(type_path) && w.schema(type_path).fields.contains(
            leading_segment_of(field_path),
        )
    }
}

/// What the edit came to for the target at a place: the new value of its field, in its own component.
/// There is none when the engine could not make one.
pub open spec fn converted(values: Seq<Option<BsnValue>>, i: int) -> Option<ValueView> {
    if 0 <= i < values.len() {
        match values[i] {
            Some(v) => Some(v@),
            None => None,
        }
    } else {
        None
    }
}

/// The commands that a commit builds, one for each target that the edit applies to and came to a
/// value for.
pub open spec fn commit_commands(
    w: WorldView,
    entries: Seq<EntryView>,
    targets: Seq<Entity>,
    type_path: Seq<char>,
    field_path: Seq<char>,
    values: Seq<Option<BsnValue>>,
) -> Seq<CommandView>
    decreases targets.len(),
{
    if targets.len() == 0 {
        Seq::empty()
    } else {
        let before = commit_commands(
            w,
            entries,
            targets.drop_last(),
            type_path,
            field_path,
            values,
        );
        let e = targets.last();
        match converted(values, targets.len() - 1) {
            Some(value) => if edit_applies(w, e, type_path, field_path) {
                before.push(
                    CommandView::SetField(
                        SetFieldView {
                            entity: e,
                            type_path,
                            field_path,
                            old_value: resolved_old_value(w, entries, e, type_path, field_path),
                            new_value: value,
                            was_derived: false,
                        },
                    ),
                )
            } else {
                before
            },
            None => before,
        }
    }
}

/// The command that a list of commands goes into the history as: the one command itself, or a
/// group under a label.
pub open spec fn bundled(commands: Seq<CommandView>, label: Seq<char>) -> CommandView {
    if commands.len() == 1 {
        commands[0]
    } else {
        CommandView::Group { commands, label }
    }
}

/// The scene with a field value shown on one live entity.
pub open spec fn shown(
    w: WorldView,
    e: Entity,
    type_path: Seq<char>,
    field_path: Seq<char>,
    value: ValueView,
) -> WorldView {
    if !w.registered(type_path) || !w.alive(e) {
        w
    } else if field_path.len() == 0 {
        match value {
            ValueView::Struct(c) => w.with_components(e, with_component(w.components_of(e), c)),
            _ => w,
        }
    } else {
        match w.component(e, type_path) {
            Some(c) => if has_field(c.fields, field_path) {
                w.with_components(
                    e,
                    with_component(
                        w.components_of(e),
                        StructView { type_path, fields: with_field(c.fields, field_path, value) },
                    ),
                )
            } else {
                w
            },
            None => w,
        }
    }
}

/// The scene with what an edit came to shown on each of `targets` that it came to a value for.
pub open spec fn shown_all(
    w: WorldView,
    targets: Seq<Entity>,
    type_path: Seq<char>,
    field_path: Seq<char>,
    values: Seq<Option<BsnValue>>,
) -> WorldView
    decreases targets.len(),
{
    if targets.len() == 0 {
        w
    } else {
        let before = shown_all(w, targets.drop_last(), type_path, field_path, values);
        match converted(values, targets.len() - 1) {
            Some(value) => shown(before, targets.last(), type_path, field_path, value),
            None => before,
        }
    }
}

impl FieldEditSessions {
    pub fn new() -> (r: FieldEditSessions)
        ensures
            r@ == Seq::<EntryView>::empty(),
    {
        let r = FieldEditSessions { live_at_begin: Vec::new() };
        assert(r@ =~= Seq::<EntryView>::empty());
        r
    }

    /// The value that a gesture captured for a field of an entity.
    pub fn peek_live_at_begin(&self, entity: Entity, type_path: &str, field_path: &str) -> (r:
        Option<BsnValue>)
        ensures
            value_of(r) == captured(self@, entity, type_path@, field_path@),
    {
        let ghost p = keyed(entity, type_path@, field_path@);
        let mut i: usize = 0;
        while i < self.live_at_begin.len()
            invariant
                i <= self.live_at_begin.len(),
                p == keyed(entity, type_path@, field_path@),
                forall|j: int| 0 <= j < i ==> !p(#[trigger] self@[j]),
            decreases self.live_at_begin.len() - i,
        {
            let x: &SessionEntry = &self.live_at_begin[i];
            if x.entity == entity && text_eq(x.type_path.as_str(), type_path) && text_eq(
                x.field_path.as_str(),
                field_path,
            ) {
                proof {
                    lemma_first_index_is(self@, p, i as int);
                }
                return Some(x.value.copy());
            }
            assert(!p(self@[i as int]));
            i = i + 1;
        }
        proof {
            lemma_first_index_is(self@, p, i as int);
        }
        None
    }

    /// Forgets what the gestures on one field captured.
    pub fn clear(&mut self, type_path: &str, field_path: &str)
        ensures
            final(self)@ == old(self)@.filter(of_other_field(type_path@, field_path@)),
    {
        let ghost all = self@;
        let ghost p = of_other_field(type_path@, field_path@);
        let mut kept = FieldEditSessions { live_at_begin: Vec::new() };
        let mut i: usize = 0;
        assert(kept@ =~= all.subrange(0, 0).filter(p)) by {
            reveal(Seq::filter);
        }
        while i < self.live_at_begin.len()
            invariant
                i <= self.live_at_begin.len(),
                all == self@,
                p == of_other_field(type_path@, field_path@),
                kept@ == all.subrange(0, i as int).filter(p),
            decreases self.live_at_begin.len() - i,
        {
            proof {
                lemma_filter_push(all.subrange(0, i as int), all[i as int], p);
                assert(all.subrange(0, i as int).push(all[i as int]) =~= all.subrange(0, i + 1));
            }
            let ghost before = kept@;
            let x: &SessionEntry = &self.live_at_begin[i];
            if !text_eq(x.type_path.as_str(), type_path) || !text_eq(
                x.field_path.as_str(),
                field_path,
            ) {
                kept.live_at_begin.push(
                    SessionEntry {
                        entity: x.entity,
                        type_path: x.type_path.clone(),
                        field_path: x.field_path.clone(),
                        value: x.value.copy(),
                    },
                );
                assert(kept@ =~= before.push(all[i as int]));
            }
            i = i + 1;
        }
        assert(all.subrange(0, i as int) =~= all);
        self.live_at_begin = kept.live_at_begin;
        assert(self@ =~= kept@);
    }

    /// Captures the live value of a field for each target that has no entry yet.
    pub fn begin(
        &mut self,
        world: &SceneWorld,
        targets: &Vec<Entity>,
        type_path: &str,
        field_path: &str,
    )
        ensures
            final(self)@ == begun(old(self)@, world@, targets@, type_path@, field_path@),
    {
        let ghost start = self@;
        let mut i: usize = 0;
        assert(targets@.subrange(0, 0) =~= Seq::empty());
        while i < targets.len()
            invariant
                i <= targets.len(),
                self@ == begun(
                    start,
                    world@,
                    targets@.subrange(0, i as int),
                    type_path@,
                    field_path@,
                ),
            decreases targets.len() - i,
        {
            proof {
                assert(targets@.subrange(0, i + 1).drop_last() =~= targets@.subrange(0, i as int));
                assert(targets@.subrange(0, i + 1).last() == targets@[i as int]);
            }
            let ghost before = self@;
            let entity: Entity = targets[i];
            if self.peek_live_at_begin(entity, type_path, field_path).is_none() {
                match world.live_bsn_field(entity, type_path, field_path) {
                    Some(value) => {
                        let ghost v = value@;
                        self.live_at_begin.push(
                            SessionEntry {
                                entity,
                                type_path: type_path.to_owned(),
                                field_path: field_path.to_owned(),
                                value,
                            },
                        );
                        assert(self@ =~= before.push(
                            EntryView {
                                entity,
                                type_path: type_path@,
                                field_path: field_path@,
                                value: v,
                            },
                        ));
                    },
                    None => {},
                }
            }
            i = i + 1;
        }
        assert(targets@.subrange(0, i as int) =~= targets@);
    }
}

/// The undo baseline of one target.
pub fn resolve_field_edit_old_value(
    world: &SceneWorld,
    sessions: &FieldEditSessions,
    entity: Entity,
    type_path: &str,
    field_path: &str,
) -> (r: Option<BsnValue>)
    ensures
        value_of(r) == resolved_old_value(world@, sessions@, entity, type_path@, field_path@),
{
    match world.document.ast_for(entity) {
        Some(node) => {
            match world.document.get_bsn_field(node, type_path, field_path) {
                Some(v) => {
                    return Some(v);
                },
                None => {},
            }
            if world.document.find_patch_by_type_path(node, type_path).is_some() {
                return None;
            }
        },
        None => {},
    }
    match sessions.peek_live_at_begin(entity, type_path, field_path) {
        Some(v) => Some(v),
        None => world.live_bsn_field(entity, type_path, field_path),
    }
}

/// Begins a field-edit gesture for the current selection.
pub fn field_edit_begin(
    world: &SceneWorld,
    sessions: &mut FieldEditSessions,
    type_path: &str,
    field_path: &str,
)
    ensures
        final(sessions)@ == begun(
            old(sessions)@,
            world@,
            world@.selection,
            type_path@,
            field_path@,
        ),
{
    sessions.begin(world, &world.selection, type_path, field_path);
}

/// Shows a field value on one live entity, leaving the document alone.
pub fn apply_field_to_ecs(
    world: &mut SceneWorld,
    entity: Entity,
    type_path: &str,
    field_path: &str,
    value: &BsnValue,
)
    ensures
        final(world)@ == shown(old(world)@, entity, type_path@, field_path@, value@),
        final(world).document == old(world).document,
{
    if !world.is_registered(type_path) || !world.is_alive(entity) {
        return ;
    }
    if field_path.unicode_len() == 0 {
        match value {
            BsnValue::Struct(c) => {
                world.insert_component(entity, c.copy());
            },
            _ => {},
        }
        return ;
    }
    match world.component(entity, type_path) {
        Some(c) => {
            proof {
                lemma_field_index(crate::value::fields_view(c.fields@), field_path@);
            }
            let at: usize = find_field(&c.fields, field_path);
            if at < c.fields.len() {
                let mut fields: Vec<BsnField> = c.fields;
                put_field(&mut fields, field_path, value.copy());
                world.insert_component(
                    entity,
                    BsnStructData { type_path: type_path.to_owned(), fields },
                );
            }
        },
        None => {},
    }
}

/// Shows an edit on the live entities of the current selection. `values` holds, for each of them, what
/// the edit came to in its own component. The document and the history stay as they are; a baseline
/// is captured before the first change.
pub fn field_edit_preview(
    world: &mut SceneWorld,
    sessions: &mut FieldEditSessions,
    type_path: &str,
    field_path: &str,
    values: &Vec<Option<BsnValue>>,
)
    ensures
        final(sessions)@ == begun(
            old(sessions)@,
            old(world)@,
            old(world)@.selection,
            type_path@,
            field_path@,
        ),
        final(world)@ == shown_all(
            old(world)@,
            old(world)@.selection,
            type_path@,
            field_path@,
            values@,
        ),
{
    field_edit_begin(world, sessions, type_path, field_path);
    let targets: Vec<Entity> = copied(&world.selection);
    let ghost start = world@;
    let mut i: usize = 0;
    assert(targets@.subrange(0, 0) =~= Seq::empty());
    while i < targets.len()
        invariant
            i <= targets.len(),
            world@ == shown_all(
                start,
                targets@.subrange(0, i as int),
                type_path@,
                field_path@,
                values@,
            ),
        decreases targets.len() - i,
    {
        proof {
            assert(targets@.subrange(0, i + 1).drop_last() =~= targets@.subrange(0, i as int));
            assert(targets@.subrange(0, i + 1).last() == targets@[i as int]);
        }
        if i < values.len() {
            if let Some(value) = &values[i] {
                apply_field_to_ecs(world, targets[i], type_path, field_path, value);
            }
        }
        i = i + 1;
    }
    assert(targets@.subrange(0, i as int) =~= targets@);
}

/// Whether a schema lists a field.
fn schema_has_field(world: &SceneWorld, type_path: &str, name: &str) -> (r: bool)
    ensures
        r == (world@.is_project(type_path@) && world@.schema(type_path@).fields.contains(name@)),
{
    match world.find_schema(type_path) {
        Some(at) => {
            let fields: &Vec<String> = &world.project_types[at].fields;
            let ghost view = texts_view(fields@);
            let mut i: usize = 0;
            while i < fields.len()
                invariant
                    i <= fields.len(),
                    view == texts_view(fields@),
                    view == world@.schema(type_path@).fields,
                    world@.is_project(type_path@),
                    forall|j: int| 0 <= j < i ==> (#[trigger] view[j]) != name@,
                decreases fields.len() - i,
            {
                if text_eq(fields[i].as_str(), name) {
                    assert(view[i as int] == name@);
                    return true;
                }
                i = i + 1;
            }
            false
        },
        None => false,
    }
}

/// Whether a field edit applies to an entity.
pub fn field_edit_applies(
    world: &SceneWorld,
    entity: Entity,
    type_path: &str,
    field_path: &str,
) -> (r: bool)
    ensures
        r == edit_applies(world@, entity, type_path@, field_path@),
{
    if !world.is_registered(type_path) {
        let name: String = leading_segment(field_path);
        return schema_has_field(world, type_path, name.as_str());
    }
    field_path.unicode_len() == 0 || world.live_bsn_field(entity, type_path, field_path).is_some()
}

/// Builds one command for each target that the edit applies to and came to a value for.
fn build_commands(
    world: &SceneWorld,
    sessions: &FieldEditSessions,
    type_path: &str,
    field_path: &str,
    values: &Vec<Option<BsnValue>>,
) -> (r: Vec<EditorCommand>)
    ensures
        commands_view(r@) == commit_commands(
            world@,
            sessions@,
            world@.selection,
            type_path@,
            field_path@,
            values@,
        ),
        forall|i: int| 0 <= i < r@.len() ==> (#[trigger] r@[i]) is SetField,
{
    let targets: &Vec<Entity> = &world.selection;
    let mut out: Vec<EditorCommand> = Vec::new();
    let mut i: usize = 0;
    assert(targets@.subrange(0, 0) =~= Seq::empty());
    assert(commands_view(out@) =~= Seq::empty());
    while i < targets.len()
        invariant
            i <= targets.len(),
            targets@ == world@.selection,
            forall|k: int| 0 <= k < out@.len() ==> (#[trigger] out@[k]) is SetField,
            commands_view(out@) == commit_commands(
                world@,
                sessions@,
                targets@.subrange(0, i as int),
                type_path@,
                field_path@,
                values@,
            ),
        decreases targets.len() - i,
    {
        proof {
            assert(targets@.subrange(0, i + 1).drop_last() =~= targets@.subrange(0, i as int));
            assert(targets@.subrange(0, i + 1).last() == targets@[i as int]);
        }
        let ghost before = commands_view(out@);
        let entity: Entity = targets[i];
        let new_value: Option<BsnValue> = if i < values.len() {
            match &values[i] {
                Some(v) => Some(v.copy()),
                None => None,
            }
        } else {
            None
        };
        if let Some(new_value) = new_value {
            if field_edit_applies(world, entity, type_path, field_path) {
                let command = SetBsnField {
                    entity,
                    type_path: type_path.to_owned(),
                    field_path: field_path.to_owned(),
                    old_value: resolve_field_edit_old_value(
                        world,
                        sessions,
                        entity,
                        type_path,
                        field_path,
                    ),
                    new_value,
                    was_derived: false,
                };
                out.push(EditorCommand::SetField(command));
                assert(commands_view(out@) =~= before.push(CommandView::SetField(command@)));
            }
        }
        i = i + 1;
    }
    assert(targets@.subrange(0, i as int) =~= targets@);
    out
}

/// Bundles commands for the history: the one command itself, or a group under a label.
pub fn bundle(commands: Vec<EditorCommand>, label: &str) -> (r: EditorCommand)
    ensures
        r@ == bundled(commands_view(commands@), label@),
{
    let mut commands: Vec<EditorCommand> = commands;
    if commands.len() == 1 {
        commands.remove(0)
    } else {
        EditorCommand::Group(CommandGroup { commands, label: label.to_owned() })
    }
}

/// Commits a field edit for the current selection: builds the commands from the document and the
/// captured values, executes them, records them in the history and ends the gesture. `values` holds,
/// for each selected entity, what the edit came to in its own component. Nothing happens to the scene
/// when there is no command.
pub fn field_edit_commit(
    world: &mut SceneWorld,
    sessions: &mut FieldEditSessions,
    history: &mut CommandHistory,
    type_path: &str,
    field_path: &str,
    values: &Vec<Option<BsnValue>>,
    group_label: &str,
)
    ensures
        ({
            let started = begun(
                old(sessions)@,
                old(world)@,
                old(world)@.selection,
                type_path@,
                field_path@,
            );
            let commands = commit_commands(
                old(world)@,
                started,
                old(world)@.selection,
                type_path@,
                field_path@,
                values@,
            );
            let done = executed(bundled(commands, group_label@), old(world)@);
            &&& final(sessions)@ == started.filter(of_other_field(type_path@, field_path@))
            &&& commands.len() == 0 ==> final(world)@ == old(world)@ && *final(history)
                == *old(history)
            &&& commands.len() > 0 ==> {
                &&& final(world)@ == done.0
                &&& commands_view(final(history).undo_stack@) == commands_view(
                    old(history).undo_stack@,
                ).push(done.1)
                &&& final(history).redo_stack@.len() == 0
            }
        }),
{
    field_edit_begin(world, sessions, type_path, field_path);
    let commands: Vec<EditorCommand> = build_commands(
        world,
        sessions,
        type_path,
        field_path,
        values,
    );
    sessions.clear(type_path, field_path);
    if commands.len() == 0 {
        return ;
    }
    let ghost views = commands_view(commands@);
    assert forall|i: int| 0 <= i < views.len() implies plain(#[trigger] views[i]) by {
        assert(commands@[i] is SetField);
    }
    let mut command: EditorCommand = bundle(commands, group_label);
    assert(plain(command@));
    command.execute(world);
    let ghost before = commands_view(history.undo_stack@);
    history.push_executed(command);
    assert(commands_view(history.undo_stack@) =~= before.push(command@));
}

/// A captured value stays captured while a gesture goes on, whatever happens to the scene.
pub proof fn law_baseline_survives(
    entries: Seq<EntryView>,
    w: WorldView,
    targets: Seq<Entity>,
    type_path: Seq<char>,
    field_path: Seq<char>,
    e: Entity,
)
    requires
        captured(entries, e, type_path, field_path) is Some,
    ensures
        captured(begun(entries, w, targets, type_path, field_path), e, type_path, field_path)
            == captured(entries, e, type_path, field_path),
    decreases targets.len(),
{
    if targets.len() > 0 {
        law_baseline_survives(entries, w, targets.drop_last(), type_path, field_path, e);
        let before = begun(entries, w, targets.drop_last(), type_path, field_path);
        let after = begun(entries, w, targets, type_path, field_path);
        let p = keyed(e, type_path, field_path);
        lemma_first_index(before, p);
        lemma_first_index_is(after, p, first_index(before, p));
    }
}

/// Beginning a gesture captures the live value of every target that has none captured and has one
/// live.
pub proof fn law_begin_captures(
    entries: Seq<EntryView>,
    w: WorldView,
    targets: Seq<Entity>,
    type_path: Seq<char>,
    field_path: Seq<char>,
    e: Entity,
)
    requires
        targets.contains(e),
        captured(entries, e, type_path, field_path) is None,
    ensures
        captured(begun(entries, w, targets, type_path, field_path), e, type_path, field_path)
            == w.live_field(e, type_path, field_path),
    decreases targets.len(),
{
    let init = targets.drop_last();
    let before = begun(entries, w, init, type_path, field_path);
    let after = begun(entries, w, targets, type_path, field_path);
    let p = keyed(e, type_path, field_path);
    lemma_first_index(before, p);
    if init.contains(e) {
        law_begin_captures(entries, w, init, type_path, field_path, e);
        if first_index(before, p) < before.len() {
            lemma_first_index_is(after, p, first_index(before, p));
        } else if targets.last() != e && after.len() > before.len() {
            assert forall|j: int| 0 <= j < after.len() implies !p(#[trigger] after[j]) by {
                if j < before.len() {
                    assert(after[j] == before[j]);
                }
            }
            lemma_first_index_is(after, p, after.len() as int);
        }
    } else {
        let at = choose|i: int| 0 <= i < targets.len() && targets[i] == e;
        if at < init.len() {
            assert(init[at] == e);
        }
        assert(targets.last() == e);
        lemma_not_captured(entries, w, init, type_path, field_path, e);
        if after.len() > before.len() {
            lemma_first_index_is(after, p, before.len() as int);
        }
    }
}

/// Nothing is captured for an entity that is no target.
proof fn lemma_not_captured(
    entries: Seq<EntryView>,
    w: WorldView,
    targets: Seq<Entity>,
    type_path: Seq<char>,
    field_path: Seq<char>,
    e: Entity,
)
    requires
        !targets.contains(e),
        captured(entries, e, type_path, field_path) is None,
    ensures
        captured(begun(entries, w, targets, type_path, field_path), e, type_path, field_path)
            is None,
    decreases targets.len(),
{
    if targets.len() > 0 {
        let init = targets.drop_last();
        assert(!init.contains(e)) by {
            if init.contains(e) {
                let i = choose|i: int| 0 <= i < init.len() && init[i] == e;
                assert(targets[i] == e);
            }
        }
        assert(targets[targets.len() - 1] == targets.last());
        lemma_not_captured(entries, w, init, type_path, field_path, e);
        let before = begun(entries, w, init, type_path, field_path);
        let after = begun(entries, w, targets, type_path, field_path);
        let p = keyed(e, type_path, field_path);
        lemma_first_index(before, p);
        assert forall|j: int| 0 <= j < after.len() implies !p(#[trigger] after[j]) by {
            if j < before.len() {
                assert(after[j] == before[j]);
            }
        }
        lemma_first_index_is(after, p, after.len() as int);
    }
}

/// A commit of a field of a component that the document does not carry takes the value at the
/// beginning of the gesture as its baseline, not the value that a preview left.
pub proof fn law_commit_baseline_is_gesture_start(
    entries: Seq<EntryView>,
    at_begin: WorldView,
    at_commit: WorldView,
    e: Entity,
    type_path: Seq<char>,
    field_path: Seq<char>,
)
    requires
        at_begin.selection.contains(e),
        captured(entries, e, type_path, field_path) is None,
        at_begin.live_field(e, type_path, field_path) is Some,
        !at_commit.doc.authors(e, type_path),
    ensures
        ({
            let started = begun(entries, at_begin, at_begin.selection, type_path, field_path);
            let again = begun(started, at_commit, at_commit.selection, type_path, field_path);
            resolved_old_value(at_commit, again, e, type_path, field_path) == at_begin.live_field(
                e,
                type_path,
                field_path,
            )
        }),
{
    law_begin_captures(entries, at_begin, at_begin.selection, type_path, field_path, e);
    let started = begun(entries, at_begin, at_begin.selection, type_path, field_path);
    law_baseline_survives(started, at_commit, at_commit.selection, type_path, field_path, e);
}

/// A previewed value is the one that the live field reads then, on an entity that has the field; the
/// document stays.
pub proof fn law_preview_is_shown(
    w: WorldView,
    e: Entity,
    type_path: Seq<char>,
    field_path: Seq<char>,
    value: ValueView,
    other: Seq<char>,
)
    requires
        w.live_field(e, type_path, field_path) is Some,
        w.alive(e),
        field_path.len() > 0,
        other.len() > 0,
        other != field_path,
    ensures
        ({
            let after = shown(w, e, type_path, field_path, value);
            &&& after.live_field(e, type_path, field_path) == Some(value)
            &&& after.live_field(e, type_path, other) == w.live_field(e, type_path, other)
            &&& after.doc == w.doc
        }),
{
    let c = w.component(e, type_path)->0;
    lemma_field_index(c.fields, field_path);
    law_set_then_read(c.fields, field_path, value, other);
    let written = StructView { type_path, fields: with_field(c.fields, field_path, value) };
    law_put_component_is_held(w, e, written, type_path);
}

/// What an edit is undone to is what the document says. Where it says nothing of the component, it is
/// what the field was when the gesture began, or else what it is.
pub proof fn law_old_value(
    w: WorldView,
    entries: Seq<EntryView>,
    e: Entity,
    type_path: Seq<char>,
    field_path: Seq<char>,
)
    ensures
        ({
            let old_value = resolved_old_value(w, entries, e, type_path, field_path);
            let authored = authored_value(w.doc.entity_patches(e), type_path, field_path);
            let begun_with = captured(entries, e, type_path, field_path);
            let known = w.doc.links.contains_key(e);
            &&& known && authored is Some ==> old_value == authored
            &&& known && has_patch(w.doc.entity_patches(e), type_path) && authored is None
                ==> old_value is None
            &&& !has_patch(w.doc.entity_patches(e), type_path) && begun_with is Some ==> old_value
                == begun_with
            &&& !has_patch(w.doc.entity_patches(e), type_path) && begun_with is None ==> old_value
                == w.live_field(e, type_path, field_path)
        }),
{
}

/// A field edit applies where a registered component has the field live, or is edited whole, and
/// where the schema of a component of the project has the field.
pub proof fn law_where_edits_apply(
    w: WorldView,
    e: Entity,
    type_path: Seq<char>,
    field_path: Seq<char>,
)
    ensures
        w.live_field(e, type_path, field_path) is Some ==> edit_applies(w, e, type_path, field_path),
        w.registered(type_path) && field_path.len() > 0 && w.live_field(e, type_path, field_path)
            is None ==> !edit_applies(w, e, type_path, field_path),
        !w.registered(type_path) && !w.is_project(type_path) ==> !edit_applies(
            w,
            e,
            type_path,
            field_path,
        ),
        !w.registered(type_path) && w.is_project(type_path) ==> (edit_applies(
            w,
            e,
            type_path,
            field_path,
        ) <==> w.schema(type_path).fields.contains(leading_segment_of(field_path))),
{
}

/// A commit makes one command for each target that the edit applies to and came to a value for. It
/// writes that value into the field of that target.
pub proof fn law_commit_sets_each_target(
    w: WorldView,
    entries: Seq<EntryView>,
    targets: Seq<Entity>,
    type_path: Seq<char>,
    field_path: Seq<char>,
    values: Seq<Option<BsnValue>>,
    i: int,
)
    ensures
        ({
            let commands = commit_commands(w, entries, targets, type_path, field_path, values);
            &&& commands.len() <= targets.len()
            &&& 0 <= i < targets.len() && i < values.len() && values[i] is Some && edit_applies(
                w,
                targets[i],
                type_path,
                field_path,
            ) ==> exists|k: int|
                0 <= k < commands.len() && (#[trigger] commands[k] matches CommandView::SetField(c)
                    && c.entity == targets[i] && c.new_value == values[i]->0@ && c.type_path
                    == type_path && c.field_path == field_path && c.old_value
                    == resolved_old_value(w, entries, targets[i], type_path, field_path))
            &&& forall|k: int|
                0 <= k < commands.len() ==> (#[trigger] commands[k] matches CommandView::SetField(c)
                    && targets.contains(c.entity) && edit_applies(
                    w,
                    c.entity,
                    type_path,
                    field_path,
                ) && c.type_path == type_path && c.field_path == field_path)
        }),
    decreases targets.len(),
{
    if targets.len() > 0 {
        let init = targets.drop_last();
        let e = targets.last();
        law_commit_sets_each_target(w, entries, init, type_path, field_path, values, i);
        let before = commit_commands(w, entries, init, type_path, field_path, values);
        let after = commit_commands(w, entries, targets, type_path, field_path, values);
        assert(targets[targets.len() - 1] == e);
        assert forall|k: int| 0 <= k < before.len() implies #[trigger] after[k] == before[k] by {}
        assert forall|k: int| 0 <= k < after.len() implies (
        #[trigger] after[k] matches CommandView::SetField(c) && targets.contains(c.entity)
            && edit_applies(w, c.entity, type_path, field_path) && c.type_path == type_path
            && c.field_path == field_path) by {
            if k < before.len() {
                let c = before[k]->SetField_0;
                assert(init.contains(c.entity));
                let j = choose|j: int| 0 <= j < init.len() && init[j] == c.entity;
                assert(targets[j] == c.entity);
            }
        }
        if 0 <= i < init.len() && i < values.len() && values[i] is Some && edit_applies(
            w,
            targets[i],
            type_path,
            field_path,
        ) {
            assert(init[i] == targets[i]);
            let k = choose|k: int|
                0 <= k < before.len() && (#[trigger] before[k] matches CommandView::SetField(c)
                    && c.entity == targets[i] && c.new_value == values[i]->0@ && c.type_path
                    == type_path && c.field_path == field_path && c.old_value
                    == resolved_old_value(w, entries, targets[i], type_path, field_path));
            assert(after[k] == before[k]);
        }
        if i == targets.len() - 1 && i < values.len() && values[i] is Some && edit_applies(
            w,
            e,
            type_path,
            field_path,
        ) {
            assert(after[before.len() as int] is SetField);
        }
    }
}

/// A single command goes into the history as it is, several as one group under the label.
pub proof fn law_bundled(commands: Seq<CommandView>, label: Seq<char>)
    ensures
        commands.len() == 1 ==> bundled(commands, label) == commands[0],
        commands.len() != 1 ==> (bundled(commands, label) matches CommandView::Group {
            commands: inner,
            label: l,
        } && inner == commands && l == label),
{
}

} // verus!
