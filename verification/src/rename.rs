//! Renaming entities in the outliner.
use vstd::prelude::*;
use crate::history::{CommandHistory, CommandView, EditorCommand};
use crate::lifecycle::name_of;
use crate::operators::{OperatorParameters, OperatorResult, PropertyValue};
use crate::outliner::{Outliner, RowView};
use crate::seqs::{first_index, lemma_first_index_is};
use crate::set_field::{SetBsnField, SetFieldView, NAME_TYPE_PATH};
use crate::text::text_eq;
use crate::value::{BsnValue, Entity, ValueView};
use crate::world::{SceneWorld, WorldView};

verus! {

/// A field in which an entity is being renamed.
#[derive(Debug)]
pub struct InlineRenameInput {
    /// The row whose label the field stands for.
    pub row: Entity,
    pub source: Entity,
    /// What the field held at first.
    pub text: String,
}

/// The name of an entity; empty when it has none.
pub open spec fn shown_name(w: WorldView, e: Entity) -> Seq<char> {
    match name_of(w, e) {
        Some(n) => n,
        None => Seq::empty(),
    }
}

/// The name of an entity; empty when it has none.
pub fn entity_name(world: &SceneWorld, entity: Entity) -> (r: String)
    ensures
        r@ == shown_name(world@, entity),
{
    match world.name(entity) {
        Some(n) => n,
        None => String::new(),
    }
}

/// Whether a rename can begin: none is going on.
pub fn no_rename_in_progress(inputs: &Vec<InlineRenameInput>) -> (r: bool)
    ensures
        r == (inputs@.len() == 0),
{
    inputs.len() == 0
}

pub open spec fn rename_target(params: OperatorParameters, selection: Seq<Entity>) -> Option<
    Entity,
> {
    match params.value("entity"@) {
        Some(PropertyValue::Entity(e)) => Some(e),
        _ => if selection.len() > 0 {
            Some(selection.last())
        } else {
            None
        },
    }
}

/// The entity to rename: the one that the operator was called with, else the primary one of the
/// selection.
pub fn resolve_rename_target(params: &OperatorParameters, selection: &Vec<Entity>) -> (r: Option<
    Entity,
>)
    ensures
        r == rename_target(*params, selection@),
{
    match params.as_entity("entity") {
        Some(e) => Some(e),
        None => if selection.len() > 0 {
            Some(selection[selection.len() - 1])
        } else {
            None
        },
    }
}

pub open spec fn is_row_of(source: Entity) -> spec_fn(RowView) -> bool {
    |r: RowView| r.source == source
}

/// The row that an entity is renamed in: its first one, in whichever panel that is.
pub open spec fn rename_row(rows: Seq<RowView>, source: Entity) -> Option<Entity> {
    let i = first_index(rows, is_row_of(source));
    if i < rows.len() {
        Some(rows[i].row)
    } else {
        None
    }
}

/// The row that an entity is renamed in.
pub fn find_rename_targets(outliner: &Outliner, source: Entity) -> (r: Option<Entity>)
    ensures
        r == rename_row(outliner@.rows, source),
{
    let ghost p = is_row_of(source);
    let mut i: usize = 0;
    while i < outliner.rows.len()
        invariant
            i <= outliner.rows.len(),
            p == is_row_of(source),
            forall|j: int| 0 <= j < i ==> !p(#[trigger] outliner@.rows[j]),
        decreases outliner.rows.len() - i,
    {
        assert(outliner@.rows[i as int] == outliner.rows@[i as int]@);
        if outliner.rows[i].source == source {
            proof {
                lemma_first_index_is(outliner@.rows, p, i as int);
            }
            return Some(outliner.rows[i].row);
        }
        i = i + 1;
    }
    proof {
        lemma_first_index_is(outliner@.rows, p, outliner@.rows.len() as int);
    }
    None
}

/// Begins to rename an entity in its row. While a tool runs, the operator only tells whether the
/// rename goes on. Without an entity, or a row for it, it is cancelled.
pub fn rename_begin(
    params: &OperatorParameters,
    world: &SceneWorld,
    outliner: &Outliner,
    inputs: &mut Vec<InlineRenameInput>,
    modal_running: bool,
) -> (r: OperatorResult)
    ensures
        ({
            let row = match rename_target(*params, world@.selection) {
                Some(source) => rename_row(outliner@.rows, source),
                None => None,
            };
            &&& modal_running ==> final(inputs)@ == old(inputs)@ && r == (if old(inputs)@.len() == 0 {
                OperatorResult::Finished
            } else {
                OperatorResult::Running
            })
            &&& !modal_running && row is None ==> final(inputs)@ == old(inputs)@ && r
                == OperatorResult::Cancelled
            &&& !modal_running && row is Some ==> {
                let source = rename_target(*params, world@.selection)->0;
                &&& r == OperatorResult::Running
                &&& final(inputs)@.len() == old(inputs)@.len() + 1
                &&& final(inputs)@.drop_last() == old(inputs)@
                &&& final(inputs)@.last().row == row->0
                &&& final(inputs)@.last().source == source
                &&& final(inputs)@.last().text@ == shown_name(world@, source)
            }
        }),
{
    if modal_running {
        return if inputs.len() == 0 {
            OperatorResult::Finished
        } else {
            OperatorResult::Running
        };
    }
    let source: Entity = match resolve_rename_target(params, &world.selection) {
        Some(s) => s,
        None => {
            return OperatorResult::Cancelled;
        },
    };
    let row: Entity = match find_rename_targets(outliner, source) {
        Some(r) => r,
        None => {
            return OperatorResult::Cancelled;
        },
    };
    let ghost before = inputs@;
    inputs.push(InlineRenameInput { row, source, text: entity_name(world, source) });
    assert(inputs@.drop_last() =~= before);
    OperatorResult::Running
}

/// A label that shows its text again.
#[derive(Debug)]
pub struct RestoreLabel {
    pub row: Entity,
    pub text: String,
}

/// Ends every rename without a change: each label shows the entity's name again.
pub fn cancel_rename_begin(world: &SceneWorld, inputs: &mut Vec<InlineRenameInput>) -> (r: Vec<
    RestoreLabel,
>)
    ensures
        final(inputs)@.len() == 0,
        r@.len() == old(inputs)@.len(),
        forall|i: int|
            0 <= i < r@.len() ==> (#[trigger] r@[i]).row == old(inputs)@[i].row && r@[i].text@
                == shown_name(world@, old(inputs)@[i].source),
{
    let mut out: Vec<RestoreLabel> = Vec::new();
    let mut i: usize = 0;
    while i < inputs.len()
        invariant
            i <= inputs.len(),
            inputs@ == old(inputs)@,
            out@.len() == i,
            forall|k: int|
                0 <= k < i ==> (#[trigger] out@[k]).row == inputs@[k].row && out@[k].text@
                    == shown_name(world@, inputs@[k].source),
        decreases inputs.len() - i,
    {
        let text: String = entity_name(world, inputs[i].source);
        out.push(RestoreLabel { row: inputs[i].row, text });
        i = i + 1;
    }
    *inputs = Vec::new();
    out
}

/// How far up from a text field its rename is looked for.
pub const RENAME_REACH: usize = 4;

/// The first of `above` that is the field of a rename, within reach.
pub open spec fn owner_among(fields: Seq<Entity>, above: Seq<Entity>) -> Option<int> {
    let near = above.subrange(
        0,
        if above.len() < RENAME_REACH {
            above.len() as int
        } else {
            RENAME_REACH as int
        },
    );
    let i = first_index(near, among(fields));
    if i < near.len() {
        Some(crate::seqs::position_of(fields, near[i]))
    } else {
        None
    }
}

pub open spec fn among(fields: Seq<Entity>) -> spec_fn(Entity) -> bool {
    |e: Entity| fields.contains(e)
}

/// The rename that a text field belongs to. `fields` lists the entities of the renames, and `above`
/// what the text field is in, the nearest first.
pub fn find_rename_owner(fields: &Vec<Entity>, above: &Vec<Entity>) -> (r: Option<usize>)
    ensures
        match r {
            Some(i) => owner_among(fields@, above@) == Some(i as int) && i < fields@.len(),
            None => owner_among(fields@, above@) is None,
        },
{
    let n: usize = if above.len() < RENAME_REACH {
        above.len()
    } else {
        RENAME_REACH
    };
    let ghost near = above@.subrange(0, n as int);
    let ghost p = among(fields@);
    let mut i: usize = 0;
    while i < n
        invariant
            i <= n,
            n <= above.len(),
            near == above@.subrange(0, n as int),
            n == (if above@.len() < RENAME_REACH {
                above@.len() as int
            } else {
                RENAME_REACH as int
            }),
            p == among(fields@),
            forall|j: int| 0 <= j < i ==> !p(#[trigger] near[j]),
        decreases n - i,
    {
        assert(near[i as int] == above@[i as int]);
        if let Some(k) = crate::seqs::position(fields, above[i]) {
            proof {
                crate::seqs::lemma_first_index(fields@, crate::seqs::is_entity(above@[i as int]));
                assert(fields@[k as int] == above@[i as int]);
                assert(p(near[i as int]));
                lemma_first_index_is(near, p, i as int);
            }
            return Some(k);
        }
        proof {
            if fields@.contains(near[i as int]) {
                let k = choose|k: int| 0 <= k < fields@.len() && fields@[k] == near[i as int];
                crate::seqs::lemma_first_index(fields@, crate::seqs::is_entity(near[i as int]));
            }
        }
        i = i + 1;
    }
    proof {
        lemma_first_index_is(near, p, n as int);
    }
    None
}

/// A part of a rename field: whether it only holds settings, and what is in it, each with whether it
/// is a text field.
#[derive(Debug)]
pub struct RenamePart {
    pub settings: bool,
    pub children: Vec<(Entity, bool)>,
}

/// The first text field among children.
pub open spec fn first_text_field(children: Seq<(Entity, bool)>) -> Option<Entity>
    decreases children.len(),
{
    if children.len() == 0 {
        None
    } else if children[0].1 {
        Some(children[0].0)
    } else {
        first_text_field(children.drop_first())
    }
}

/// The first text field in the parts of a rename field.
pub open spec fn field_to_focus(parts: Seq<RenamePart>) -> Option<Entity>
    decreases parts.len(),
{
    if parts.len() == 0 {
        None
    } else {
        let own = if parts[0].settings {
            None
        } else {
            first_text_field(parts[0].children@)
        };
        match own {
            Some(e) => Some(e),
            None => field_to_focus(parts.drop_first()),
        }
    }
}

fn find_text_field(children: &Vec<(Entity, bool)>) -> (r: Option<Entity>)
    ensures
        r == first_text_field(children@),
{
    let n: usize = children.len();
    let mut i: usize = 0;
    assert(children@.subrange(0, n as int) =~= children@);
    while i < n
        invariant
            i <= n,
            n == children.len(),
            first_text_field(children@) == first_text_field(
                children@.subrange(i as int, n as int),
            ),
        decreases n - i,
    {
        assert(children@.subrange(i as int, n as int).drop_first() =~= children@.subrange(
            i + 1,
            n as int,
        ));
        if children[i].1 {
            return Some(children[i].0);
        }
        i = i + 1;
    }
    None
}

/// The text field that the keyboard goes to once a rename field is there. `parts` are those of all
/// rename fields, in order.
pub fn auto_focus_inline_rename(parts: &Vec<RenamePart>) -> (r: Option<Entity>)
    ensures
        r == field_to_focus(parts@),
{
    let n: usize = parts.len();
    let mut i: usize = 0;
    assert(parts@.subrange(0, n as int) =~= parts@);
    while i < n
        invariant
            i <= n,
            n == parts.len(),
            field_to_focus(parts@) == field_to_focus(parts@.subrange(i as int, n as int)),
        decreases n - i,
    {
        assert(parts@.subrange(i as int, n as int).drop_first() =~= parts@.subrange(
            i + 1,
            n as int,
        ));
        if !parts[i].settings {
            if let Some(e) = find_text_field(&parts[i].children) {
                return Some(e);
            }
        }
        i = i + 1;
    }
    None
}

/// What committing a text field comes to when it renames an entity.
#[derive(Debug)]
pub struct RenameCommit {
    pub restore: RestoreLabel,
    pub source: Entity,
    pub new_name: String,
}

/// The commit of a text field that belongs to a rename: the rename ends, its label shows the new
/// text, and the entity gets the new name. A field of something else is left alone.
pub fn handle_inline_rename_commit(
    inputs: &mut Vec<InlineRenameInput>,
    owner: Option<usize>,
    text: &str,
) -> (r: Option<RenameCommit>)
    requires
        owner matches Some(i) ==> i < old(inputs)@.len(),
    ensures
        owner is None ==> r is None && final(inputs)@ == old(inputs)@,
        owner matches Some(i) ==> {
            &&& r matches Some(c)
            &&& c.source == old(inputs)@[i as int].source
            &&& c.restore.row == old(inputs)@[i as int].row
            &&& c.restore.text@ == text@
            &&& c.new_name@ == text@
            &&& final(inputs)@ == old(inputs)@.remove(i as int)
        },
{
    match owner {
        Some(i) => {
            let input: InlineRenameInput = inputs.remove(i);
            Some(
                RenameCommit {
                    restore: RestoreLabel { row: input.row, text: text.to_owned() },
                    source: input.source,
                    new_name: text.to_owned(),
                },
            )
        },
        None => None,
    }
}

/// The command that gives an entity a new name.
pub open spec fn rename_command(w: WorldView, source: Entity, new_name: Seq<char>) -> SetFieldView {
    SetFieldView {
        entity: source,
        type_path: "bevy_ecs::name::Name"@,
        field_path: Seq::empty(),
        old_value: if shown_name(w, source).len() == 0 {
            None
        } else {
            Some(ValueView::Text(shown_name(w, source)))
        },
        new_value: ValueView::Text(new_name),
        was_derived: false,
    }
}

/// Gives an entity a new name as a step of the history. The name that it has already makes no step.
pub fn on_tree_row_renamed(
    world: &mut SceneWorld,
    history: &mut CommandHistory,
    source: Entity,
    new_name: &str,
)
    ensures
        shown_name(old(world)@, source) == new_name@ ==> final(world)@ == old(world)@
            && *final(history) == *old(history),
        shown_name(old(world)@, source) != new_name@ ==> {
            let c = rename_command(old(world)@, source, new_name@);
            &&& final(world)@ == c.executed(old(world)@)
            &&& final(history).undo_stack@.len() == old(history).undo_stack@.len() + 1
            &&& final(history).undo_stack@.drop_last() == old(history).undo_stack@
            &&& final(history).undo_stack@.last()@ == CommandView::SetField(
                c.after_execute(old(world)@),
            )
            &&& final(history).redo_stack@.len() == 0
        },
{
    let old_name: String = entity_name(world, source);
    if text_eq(old_name.as_str(), new_name) {
        return ;
    }
    let old_value: Option<BsnValue> = if old_name.as_str().unicode_len() == 0 {
        None
    } else {
        Some(BsnValue::String(old_name))
    };
    let mut command: SetBsnField = SetBsnField {
        entity: source,
        type_path: NAME_TYPE_PATH.to_owned(),
        field_path: String::new(),
        old_value,
        new_value: BsnValue::String(new_name.to_owned()),
        was_derived: false,
    };
    assert(command@ == rename_command(world@, source, new_name@));
    command.execute(world);
    let ghost before = history.undo_stack@;
    history.push_executed(EditorCommand::SetField(command));
    assert(history.undo_stack@.drop_last() =~= before);
}

/// An entity that an operator is called with is renamed, whatever is selected; without one the entity
/// that was selected last is.
pub proof fn law_rename_target(params: OperatorParameters, selection: Seq<Entity>, e: Entity)
    ensures
        params.value("entity"@) == Some(PropertyValue::Entity(e)) ==> rename_target(params, selection)
            == Some(e),
        params.value("entity"@) is None && selection.len() > 0 ==> rename_target(params, selection)
            == Some(selection[selection.len() - 1]),
        params.value("entity"@) is None && selection.len() == 0 ==> rename_target(params, selection)
            is None,
{
}

/// The row that an entity is renamed in shows that entity, and no row before it does. There is one
/// whenever a row shows the entity.
pub proof fn law_rename_row(rows: Seq<RowView>, source: Entity, i: int)
    requires
        0 <= i < rows.len(),
        rows[i].source == source,
        forall|j: int| 0 <= j < i ==> (#[trigger] rows[j]).source != source,
    ensures
        rename_row(rows, source) == Some(rows[i].row),
{
    lemma_first_index_is(rows, is_row_of(source), i);
}

/// A text field belongs to the nearest rename field around it, no more than four steps up.
pub proof fn law_rename_owner(fields: Seq<Entity>, above: Seq<Entity>, i: int)
    ensures
        0 <= i < above.len() && i < 4 && fields.contains(above[i]) && (forall|j: int|
            0 <= j < i ==> !fields.contains(#[trigger] above[j])) ==> (owner_among(fields, above)
            matches Some(k) && 0 <= k < fields.len() && fields[k] == above[i]),
        (forall|j: int| 0 <= j < above.len() && j < 4 ==> !fields.contains(#[trigger] above[j]))
            ==> owner_among(fields, above) is None,
{
    let n = if above.len() < RENAME_REACH {
        above.len() as int
    } else {
        RENAME_REACH as int
    };
    let near = above.subrange(0, n);
    let p = among(fields);
    if 0 <= i < above.len() && i < 4 && fields.contains(above[i]) && (forall|j: int|
        0 <= j < i ==> !fields.contains(#[trigger] above[j])) {
        assert(near[i] == above[i]);
        assert forall|j: int| 0 <= j < i implies !p(#[trigger] near[j]) by {
            assert(near[j] == above[j]);
        }
        lemma_first_index_is(near, p, i);
        crate::seqs::lemma_first_index(fields, crate::seqs::is_entity(above[i]));
        let k = choose|k: int| 0 <= k < fields.len() && fields[k] == above[i];
        assert(crate::seqs::is_entity(above[i])(fields[k]));
    }
    if forall|j: int| 0 <= j < above.len() && j < 4 ==> !fields.contains(#[trigger] above[j]) {
        assert forall|j: int| 0 <= j < near.len() implies !p(#[trigger] near[j]) by {
            assert(near[j] == above[j]);
        }
        lemma_first_index_is(near, p, near.len() as int);
    }
}

/// The first text field among children is one of them, and the children before it are none.
proof fn lemma_first_text_field(children: Seq<(Entity, bool)>, i: int)
    ensures
        0 <= i < children.len() && children[i].1 && (forall|j: int|
            0 <= j < i ==> !(#[trigger] children[j]).1) ==> first_text_field(children) == Some(
            children[i].0,
        ),
        (forall|j: int| 0 <= j < children.len() ==> !(#[trigger] children[j]).1)
            ==> first_text_field(children) is None,
    decreases children.len(),
{
    if children.len() > 0 {
        let rest = children.drop_first();
        assert forall|j: int| 0 <= j < rest.len() implies #[trigger] rest[j] == children[j + 1] by {}
        lemma_first_text_field(rest, i - 1);
        if 0 < i < children.len() && children[i].1 && (forall|j: int|
            0 <= j < i ==> !(#[trigger] children[j]).1) {
            assert(!children[0].1);
            assert(rest[i - 1] == children[i]);
            assert forall|j: int| 0 <= j < i - 1 implies !(#[trigger] rest[j]).1 by {
                assert(!children[j + 1].1);
            }
        }
        if forall|j: int| 0 <= j < children.len() ==> !(#[trigger] children[j]).1 {
            assert(!children[0].1);
            assert forall|j: int| 0 <= j < rest.len() implies !(#[trigger] rest[j]).1 by {
                assert(!children[j + 1].1);
            }
        }
    }
}

/// The keyboard goes to the first text field of the first part that does not only hold settings and
/// has one.
pub proof fn law_focused_field(parts: Seq<RenamePart>, k: int, i: int)
    requires
        0 <= k < parts.len(),
        !parts[k].settings,
        0 <= i < parts[k].children@.len(),
        parts[k].children@[i].1,
        forall|j: int| 0 <= j < i ==> !(#[trigger] parts[k].children@[j]).1,
        forall|m: int, j: int|
            #![trigger parts[m].children@[j]]
            0 <= m < k && !parts[m].settings && 0 <= j < parts[m].children@.len()
                ==> !parts[m].children@[j].1,
    ensures
        field_to_focus(parts) == Some(parts[k].children@[i].0),
    decreases parts.len(),
{
    if k == 0 {
        lemma_first_text_field(parts[0].children@, i);
    } else {
        let rest = parts.drop_first();
        lemma_first_text_field(parts[0].children@, 0);
        if !parts[0].settings {
            assert forall|j: int| 0 <= j < parts[0].children@.len() implies !(
            #[trigger] parts[0].children@[j]).1 by {}
        }
        assert(rest[k - 1] == parts[k]);
        assert forall|m: int, j: int|
            #![trigger rest[m].children@[j]]
            0 <= m < k - 1 && !rest[m].settings && 0 <= j < rest[m].children@.len() implies
            !rest[m].children@[j].1 by {
            assert(rest[m] == parts[m + 1]);
            assert(!parts[m + 1].children@[j].1);
        }
        law_focused_field(rest, k - 1, i);
    }
}

/// A rename sets the name of the entity to the new text, from the name that it has.
pub proof fn law_rename_command(w: WorldView, source: Entity, new_name: Seq<char>)
    ensures
        ({
            let c = rename_command(w, source, new_name);
            &&& c.entity == source
            &&& c.type_path == "bevy_ecs::name::Name"@
            &&& c.new_value == ValueView::Text(new_name)
            &&& w.alive(source) && (w.entities[source].name matches Some(n) && n.len() > 0)
                ==> c.old_value == Some(ValueView::Text(w.entities[source].name->0))
            &&& !w.alive(source) || w.entities[source].name is None ==> c.old_value is None
        }),
{
}

} // verus!
