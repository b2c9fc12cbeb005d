//! Operations on the selected entities: deleting, hiding, resetting, copying and pasting.
use vstd::prelude::*;
use crate::history::{
    commands_view, executed, CommandGroup, CommandHistory, CommandView, EditorCommand,
    EngineCommand,
};
use crate::lifecycle::{
    deselect_entities, deselected, despawn_scene_entity, despawned, lemma_unmarked_keeps,
    node_preorder, preorder, unmarked, DespawnEntity,
};
use crate::seqs::copied;
use crate::set_field::{SetBsnField, SetFieldView};
use crate::set_field_laws::{edits_reach, law_written_component_is_read};
use crate::text::text_eq;
use crate::value::{
    field_value, get_field, variant_view, BsnStructData, BsnValue, Entity, StructView, ValueView,
};
use crate::world::{SceneWorld, WorldView};

verus! {

/// Whether the entity operators may run: no text field has the focus, no modal operator or modal
/// transform runs, no brush is being drawn, and the editor is in object mode.
pub fn can_act_on_entities(
    text_focused: bool,
    modal_running: bool,
    transforming: bool,
    drawing: bool,
    object_mode: bool,
) -> (r: bool)
    ensures
        r == (!text_focused && !modal_running && !transforming && !drawing && object_mode),
{
    if text_focused || modal_running || transforming {
        return false;
    }
    if drawing {
        return false;
    }
    object_mode
}

// ---- Deleting ----

/// Whether deleting the selection despawns an entity: it is alive and not the editor's own.
pub open spec fn deletable(w: WorldView, e: Entity) -> bool {
    w.alive(e) && !w.entities[e].marks.editor_entity
}

/// The entities of `entities` that deleting despawns, in order.
pub open spec fn deletable_among(w: WorldView, entities: Seq<Entity>) -> Seq<Entity> {
    entities.filter(|e: Entity| deletable(w, e))
}

/// The scene after each of `entities` was despawned in turn.
pub open spec fn despawned_all(w: WorldView, entities: Seq<Entity>) -> WorldView
    decreases entities.len(),
{
    if entities.len() == 0 {
        w
    } else {
        let before = despawned_all(w, entities.drop_last());
        let e = entities.last();
        despawned(deselected(before, seq![e]), e)
    }
}

/// The label under which a deletion goes into the history.
pub const DELETE_LABEL: &'static str = "Delete entities";

/// Despawning keeps the links of the document in order.
pub proof fn lemma_despawned_consistent(w: WorldView, e: Entity)
    requires
        w.doc.consistent(),
    ensures
        despawned(w, e).doc.consistent(),
{
    let after = w.doc.deleted(e);
    match w.doc.node_of(e) {
        Some(n) => {
            let gone = node_preorder(w.doc, n, w.doc.nodes.len());
            let cut = w.doc.detached(n);
            assert forall|x: Entity| #[trigger] after.links.contains_key(x) implies {
                &&& after.nodes.contains_key(after.links[x])
                &&& after.nodes[after.links[x]].entity == Some(x)
            } by {
                let m = w.doc.links[x];
                assert(w.doc.links.contains_key(x));
                assert(!gone.contains(m));
                assert(w.doc.nodes.contains_key(m));
                assert(cut.nodes.contains_key(m));
                assert(cut.nodes[m].entity == w.doc.nodes[m].entity);
                assert(!gone.to_set().contains(m));
            }
        },
        None => {},
    }
}

/// Whether a command despawns an entity, as it was in the scene `w`.
pub open spec fn despawns(c: EditorCommand, w: WorldView, e: Entity) -> bool {
    c matches EditorCommand::Engine(EngineCommand::Despawn(d)) && d.entity == e && d.parent
        == w.parent_of(e) && d.snapshot@ == crate::lifecycle::preorder(
        w,
        e,
        false,
        w.entities.len(),
    ) && d.label@ == crate::lifecycle::despawn_label(e)
}

/// Whether the history became another by recording that entities were deleted, as one group, built
/// before anything was despawned. It stays when there are none.
pub open spec fn deletion_recorded(
    before: CommandHistory,
    after: CommandHistory,
    w: WorldView,
    gone: Seq<Entity>,
) -> bool {
    if gone.len() == 0 {
        after == before
    } else {
        &&& before.recorded(after)
        &&& after.undo_stack@.last() matches EditorCommand::Group(g) && g.label@
            == "Delete entities"@
            && g.commands@.len() == gone.len() && forall|i: int|
            0 <= i < gone.len() ==> despawns(#[trigger] g.commands@[i], w, gone[i])
    }
}

/// Whether a scene and its history became others by deleting the selected entities: all are taken out
/// of the selection, and those that are alive and not the editor's own are despawned.
pub open spec fn selection_deleted(
    before: WorldView,
    after: WorldView,
    history_before: CommandHistory,
    history_after: CommandHistory,
) -> bool {
    let gone = deletable_among(before, before.selection);
    let cleared = WorldView { selection: Seq::empty(), ..unmarked(before, before.selection) };
    &&& deletion_recorded(history_before, history_after, before, gone)
    &&& after == despawned_all(cleared, gone)
}

/// Deletes the selected entities: takes them out of the selection, despawns those that are alive and
/// not the editor's own, and records that as one group.
pub fn delete_selected(world: &mut SceneWorld, history: &mut CommandHistory)
    requires
        old(world)@.doc.consistent(),
    ensures
        selection_deleted(old(world)@, final(world)@, *old(history), *final(history)),
{
    let entities: Vec<Entity> = copied(&world.selection);
    let ghost w = world@;
    let ghost p = |e: Entity| deletable(w, e);
    let mut commands: Vec<EditorCommand> = Vec::new();
    let mut deleted: Vec<Entity> = Vec::new();
    let ghost mut gone: Seq<Entity> = Seq::empty();
    let mut i: usize = 0;
    assert(entities@.subrange(0, 0).filter(p) =~= Seq::empty()) by {
        reveal(Seq::filter);
    }
    while i < entities.len()
        invariant
            i <= entities.len(),
            world@ == w,
            entities@ == w.selection,
            p == (|e: Entity| deletable(w, e)),
            gone == entities@.subrange(0, i as int).filter(p),
            deleted@ == gone,
            commands@.len() == gone.len(),
            forall|j: int| 0 <= j < gone.len() ==> despawns(#[trigger] commands@[j], w, gone[j]),
        decreases entities.len() - i,
    {
        proof {
            crate::seqs::lemma_filter_push(
                entities@.subrange(0, i as int),
                entities@[i as int],
                p,
            );
            assert(entities@.subrange(0, i as int).push(entities@[i as int])
                =~= entities@.subrange(0, i + 1));
        }
        let entity: Entity = entities[i];
        if world.is_alive(entity) && !world.marks(entity).editor_entity {
            let command = DespawnEntity::from_world(world, entity);
            commands.push(EditorCommand::Engine(EngineCommand::Despawn(command)));
            deleted.push(entity);
            proof {
                gone = gone.push(entity);
            }
        }
        i = i + 1;
    }
    assert(entities@.subrange(0, i as int) =~= entities@);
    world.unmark_selection();
    world.selection = Vec::new();
    let ghost cleared = WorldView {
        selection: Seq::empty(),
        ..unmarked(w, w.selection)
    };
    assert(world@ =~= cleared);
    let mut k: usize = 0;
    assert(gone.subrange(0, 0) =~= Seq::empty());
    while k < deleted.len()
        invariant
            k <= deleted.len(),
            deleted@ == gone,
            world@ == despawned_all(cleared, gone.subrange(0, k as int)),
            world@.doc.consistent(),
        decreases deleted.len() - k,
    {
        proof {
            assert(gone.subrange(0, k + 1).drop_last() =~= gone.subrange(0, k as int));
            assert(gone.subrange(0, k + 1).last() == gone[k as int]);
        }
        let ghost before = world@;
        let mut one: Vec<Entity> = Vec::new();
        one.push(deleted[k]);
        assert(one@ =~= seq![gone[k as int]]);
        deselect_entities(world, &one);
        proof {
            lemma_unmarked_doc(before, seq![gone[k as int]]);
            lemma_despawned_consistent(world@, gone[k as int]);
        }
        despawn_scene_entity(world, deleted[k]);
        k = k + 1;
    }
    assert(gone.subrange(0, k as int) =~= gone);
    if commands.len() > 0 {
        let group = CommandGroup { commands, label: DELETE_LABEL.to_owned() };
        history.push_executed(EditorCommand::Group(group));
        assert(history.undo_stack@.drop_last() =~= old(history).undo_stack@);
    }
}

/// Taking marks off leaves the document alone.
pub(crate) proof fn lemma_unmarked_doc(w: WorldView, entities: Seq<Entity>)
    ensures
        unmarked(w, entities).doc == w.doc,
    decreases entities.len(),
{
    if entities.len() > 0 {
        lemma_unmarked_doc(w, entities.drop_last());
    }
}

// ---- Visibility ----

/// The component that keeps whether an entity is shown.
pub const VISIBILITY_TYPE_PATH: &'static str = "bevy_camera::visibility::Visibility";

/// Whether an entity is shown.
#[derive(Clone, Copy, Debug, PartialEq, Eq, Structural)]
pub enum Visibility {
    Inherited,
    Hidden,
    Visible,
}

impl Visibility {
    /// The variant as the document writes it.
    pub open spec fn text_spec(self) -> Seq<char> {
        match self {
            Visibility::Inherited => "bevy_camera::visibility::Visibility::Inherited"@,
            Visibility::Hidden => "bevy_camera::visibility::Visibility::Hidden"@,
            Visibility::Visible => "bevy_camera::visibility::Visibility::Visible"@,
        }
    }

    /// The variant as the document writes it.
    pub fn text(self) -> (r: &'static str)
        ensures
            r@ == self.text_spec(),
    {
        match self {
            Visibility::Inherited => "bevy_camera::visibility::Visibility::Inherited",
            Visibility::Hidden => "bevy_camera::visibility::Visibility::Hidden",
            Visibility::Visible => "bevy_camera::visibility::Visibility::Visible",
        }
    }

    /// What toggling leads to: a hidden entity inherits again, every other one is hidden.
    pub open spec fn toggled_spec(self) -> Visibility {
        if self == Visibility::Hidden {
            Visibility::Inherited
        } else {
            Visibility::Hidden
        }
    }

    /// What toggling leads to.
    pub fn toggled(self) -> (r: Visibility)
        ensures
            r == self.toggled_spec(),
    {
        if self == Visibility::Hidden {
            Visibility::Inherited
        } else {
            Visibility::Hidden
        }
    }
}

/// The component of an entity that is shown as its parent is.
pub open spec fn inherited_visibility() -> StructView {
    variant_view(VISIBILITY_TYPE_PATH@, Visibility::Inherited.text_spec())
}

/// The component of an entity that is shown as its parent is.
pub fn visible_by_parent() -> (r: BsnStructData)
    ensures
        r@ == inherited_visibility(),
{
    BsnStructData::variant(VISIBILITY_TYPE_PATH, Visibility::Inherited.text())
}

/// The visibility that a component value keeps.
pub open spec fn visibility_in(c: Option<StructView>) -> Visibility {
    match c {
        Some(s) => match field_value(s.fields, Seq::empty()) {
            Some(ValueView::Text(t)) => if t == Visibility::Hidden.text_spec() {
                Visibility::Hidden
            } else if t == Visibility::Visible.text_spec() {
                Visibility::Visible
            } else {
                Visibility::Inherited
            },
            _ => Visibility::Inherited,
        },
        None => Visibility::Inherited,
    }
}

/// The visibility of an entity; an entity without the component inherits.
pub fn visibility_of(world: &SceneWorld, e: Entity) -> (r: Visibility)
    ensures
        r == visibility_in(world@.held_component(e, VISIBILITY_TYPE_PATH@)),
{
    match world.held_component(e, VISIBILITY_TYPE_PATH) {
        Some(c) => {
            let none: String = String::new();
            match get_field(&c.fields, none.as_str()) {
                Some(BsnValue::String(t)) => {
                    if text_eq(t.as_str(), Visibility::Hidden.text()) {
                        Visibility::Hidden
                    } else if text_eq(t.as_str(), Visibility::Visible.text()) {
                        Visibility::Visible
                    } else {
                        Visibility::Inherited
                    }
                },
                _ => Visibility::Inherited,
            }
        },
        None => Visibility::Inherited,
    }
}

/// The command that changes the visibility of an entity.
pub open spec fn visibility_command(e: Entity, from: Visibility, to: Visibility) -> CommandView {
    CommandView::SetField(
        SetFieldView {
            entity: e,
            type_path: VISIBILITY_TYPE_PATH@,
            field_path: Seq::empty(),
            old_value: Some(
                ValueView::Struct(variant_view(VISIBILITY_TYPE_PATH@, from.text_spec())),
            ),
            new_value: ValueView::Struct(variant_view(VISIBILITY_TYPE_PATH@, to.text_spec())),
            was_derived: false,
        },
    )
}

/// The command that changes the visibility of an entity.
fn set_visibility(e: Entity, from: Visibility, to: Visibility) -> (r: EditorCommand)
    ensures
        r@ == visibility_command(e, from, to),
{
    let command = SetBsnField {
        entity: e,
        type_path: VISIBILITY_TYPE_PATH.to_owned(),
        field_path: String::new(),
        old_value: Some(
            BsnValue::Struct(BsnStructData::variant(VISIBILITY_TYPE_PATH, from.text())),
        ),
        new_value: BsnValue::Struct(BsnStructData::variant(VISIBILITY_TYPE_PATH, to.text())),
        was_derived: false,
    };
    EditorCommand::SetField(command)
}

/// Which visibilities an operation changes, and to what.
#[derive(Clone, Copy, Debug, PartialEq, Eq, Structural)]
pub enum VisibilityChange {
    /// Every one, to what toggling leads to.
    Toggle,
    /// The hidden ones, to inherited.
    Unhide,
    /// Those that are not hidden, to hidden.
    Hide,
}

impl VisibilityChange {
    /// What a visibility is changed to; none when it stays.
    pub open spec fn target_spec(self, current: Visibility) -> Option<Visibility> {
        match self {
            VisibilityChange::Toggle => Some(current.toggled_spec()),
            VisibilityChange::Unhide => if current == Visibility::Hidden {
                Some(Visibility::Inherited)
            } else {
                None
            },
            VisibilityChange::Hide => if current != Visibility::Hidden {
                Some(Visibility::Hidden)
            } else {
                None
            },
        }
    }

    /// What a visibility is changed to; none when it stays.
    pub fn target(self, current: Visibility) -> (r: Option<Visibility>)
        ensures
            r == self.target_spec(current),
    {
        match self {
            VisibilityChange::Toggle => Some(current.toggled()),
            VisibilityChange::Unhide => if current == Visibility::Hidden {
                Some(Visibility::Inherited)
            } else {
                None
            },
            VisibilityChange::Hide => if current != Visibility::Hidden {
                Some(Visibility::Hidden)
            } else {
                None
            },
        }
    }
}

/// The scene and the commands after the visibilities of `entities` were changed in turn.
pub open spec fn visibilities_changed(
    w: WorldView,
    entities: Seq<Entity>,
    change: VisibilityChange,
) -> (WorldView, Seq<CommandView>)
    decreases entities.len(),
{
    if entities.len() == 0 {
        (w, Seq::empty())
    } else {
        let before = visibilities_changed(w, entities.drop_last(), change);
        let e = entities.last();
        let current = visibility_in(before.0.held_component(e, VISIBILITY_TYPE_PATH@));
        match change.target_spec(current) {
            Some(to) => {
                let done = executed(visibility_command(e, current, to), before.0);
                (done.0, before.1.push(done.1))
            },
            None => before,
        }
    }
}

/// Whether the history grew by a group of `commands` under a label; it stays when there are none.
pub open spec fn group_recorded(
    before: CommandHistory,
    after: CommandHistory,
    commands: Seq<CommandView>,
    label: Seq<char>,
) -> bool {
    if commands.len() == 0 {
        after == before
    } else {
        &&& commands_view(after.undo_stack@) == commands_view(before.undo_stack@).push(
            CommandView::Group { commands, label },
        )
        &&& after.redo_stack@.len() == 0
    }
}

/// Records commands that were executed as one group; nothing when there are none.
pub fn record_group(history: &mut CommandHistory, commands: Vec<EditorCommand>, label: &str)
    ensures
        group_recorded(*old(history), *final(history), commands_view(commands@), label@),
{
    if commands.len() == 0 {
        return ;
    }
    let group = EditorCommand::Group(CommandGroup { commands, label: label.to_owned() });
    let ghost before = commands_view(history.undo_stack@);
    history.push_executed(group);
    assert(commands_view(history.undo_stack@) =~= before.push(group@));
}

/// Changes the visibilities of entities in turn and records the group.
fn change_visibilities(
    world: &mut SceneWorld,
    history: &mut CommandHistory,
    entities: &Vec<Entity>,
    change: VisibilityChange,
    label: &str,
)
    ensures
        final(world)@ == visibilities_changed(old(world)@, entities@, change).0,
        group_recorded(
            *old(history),
            *final(history),
            visibilities_changed(old(world)@, entities@, change).1,
            label@,
        ),
{
    let ghost start = world@;
    let mut commands: Vec<EditorCommand> = Vec::new();
    let mut i: usize = 0;
    assert(entities@.subrange(0, 0) =~= Seq::empty());
    assert(commands_view(commands@) =~= Seq::empty());
    while i < entities.len()
        invariant
            i <= entities.len(),
            world@ == visibilities_changed(start, entities@.subrange(0, i as int), change).0,
            commands_view(commands@) == visibilities_changed(
                start,
                entities@.subrange(0, i as int),
                change,
            ).1,
        decreases entities.len() - i,
    {
        proof {
            assert(entities@.subrange(0, i + 1).drop_last() =~= entities@.subrange(0, i as int));
            assert(entities@.subrange(0, i + 1).last() == entities@[i as int]);
        }
        let ghost before = commands_view(commands@);
        let entity: Entity = entities[i];
        let current: Visibility = visibility_of(world, entity);
        if let Some(to) = change.target(current) {
            let mut command: EditorCommand = set_visibility(entity, current, to);
            command.execute(world);
            commands.push(command);
            assert(commands_view(commands@) =~= before.push(command@));
        }
        i = i + 1;
    }
    assert(entities@.subrange(0, i as int) =~= entities@);
    record_group(history, commands, label);
}

/// Toggles the visibility of the selected entities.
pub fn hide_selected(world: &mut SceneWorld, history: &mut CommandHistory)
    ensures
        final(world)@ == visibilities_changed(
            old(world)@,
            old(world)@.selection,
            VisibilityChange::Toggle,
        ).0,
        group_recorded(
            *old(history),
            *final(history),
            visibilities_changed(
                old(world)@,
                old(world)@.selection,
                VisibilityChange::Toggle,
            ).1,
            "Toggle visibility"@,
        ),
{
    let entities: Vec<Entity> = copied(&world.selection);
    change_visibilities(
        world,
        history,
        &entities,
        VisibilityChange::Toggle,
        "Toggle visibility",
    );
}

/// Shows every hidden one of the scene's named entities again.
pub fn unhide_all_entities(
    world: &mut SceneWorld,
    history: &mut CommandHistory,
    scene_entities: &Vec<Entity>,
)
    ensures
        final(world)@ == visibilities_changed(
            old(world)@,
            scene_entities@,
            VisibilityChange::Unhide,
        ).0,
        group_recorded(
            *old(history),
            *final(history),
            visibilities_changed(old(world)@, scene_entities@, VisibilityChange::Unhide).1,
            "Unhide all"@,
        ),
        forall|e: Entity|
            can_be_hidden(old(world)@, e) && scene_entities@.contains(e) ==> #[trigger]
            visibility_on(final(world)@, e) == (if visibility_on(old(world)@, e)
                == Visibility::Hidden {
                Visibility::Inherited
            } else {
                visibility_on(old(world)@, e)
            }),
{
    let ghost w = world@;
    proof {
        assert forall|e: Entity|
            can_be_hidden(w, e) && scene_entities@.contains(e) implies #[trigger] visibility_on(
            visibilities_changed(w, scene_entities@, VisibilityChange::Unhide).0,
            e,
        ) == (if visibility_on(w, e) == Visibility::Hidden {
            Visibility::Inherited
        } else {
            visibility_on(w, e)
        }) by {
            law_visibilities_change_as_asked(
                w,
                scene_entities@,
                VisibilityChange::Unhide,
                e,
            );
        }
    }
    change_visibilities(world, history, scene_entities, VisibilityChange::Unhide, "Unhide all");
}

/// Hides every one of the scene's named entities that is not hidden.
pub fn hide_all_entities(
    world: &mut SceneWorld,
    history: &mut CommandHistory,
    scene_entities: &Vec<Entity>,
)
    ensures
        final(world)@ == visibilities_changed(
            old(world)@,
            scene_entities@,
            VisibilityChange::Hide,
        ).0,
        group_recorded(
            *old(history),
            *final(history),
            visibilities_changed(old(world)@, scene_entities@, VisibilityChange::Hide).1,
            "Hide all"@,
        ),
        forall|e: Entity|
            can_be_hidden(old(world)@, e) && scene_entities@.contains(e) ==> #[trigger]
            visibility_on(final(world)@, e) == Visibility::Hidden,
{
    let ghost w = world@;
    proof {
        assert forall|e: Entity|
            can_be_hidden(w, e) && scene_entities@.contains(e) implies #[trigger] visibility_on(
            visibilities_changed(w, scene_entities@, VisibilityChange::Hide).0,
            e,
        ) == Visibility::Hidden by {
            law_visibilities_change_as_asked(w, scene_entities@, VisibilityChange::Hide, e);
        }
    }
    change_visibilities(world, history, scene_entities, VisibilityChange::Hide, "Hide all");
}

/// The three visibilities are written differently.
proof fn lemma_visibility_texts()
    ensures
        "bevy_camera::visibility::Visibility::Inherited"@
            != "bevy_camera::visibility::Visibility::Hidden"@,
        "bevy_camera::visibility::Visibility::Inherited"@
            != "bevy_camera::visibility::Visibility::Visible"@,
        "bevy_camera::visibility::Visibility::Hidden"@
            != "bevy_camera::visibility::Visibility::Visible"@,
        "bevy_camera::visibility::Visibility"@ != "bevy_ecs::name::Name"@,
{
    reveal_strlit("bevy_camera::visibility::Visibility::Inherited");
    reveal_strlit("bevy_camera::visibility::Visibility::Hidden");
    reveal_strlit("bevy_camera::visibility::Visibility::Visible");
    reveal_strlit("bevy_camera::visibility::Visibility");
    reveal_strlit("bevy_ecs::name::Name");
    assert("bevy_camera::visibility::Visibility::Inherited"@.len() == 46);
    assert("bevy_camera::visibility::Visibility::Hidden"@.len() == 43);
    assert("bevy_camera::visibility::Visibility::Visible"@.len() == 44);
    assert("bevy_camera::visibility::Visibility"@.len() == 35);
    assert("bevy_ecs::name::Name"@.len() == 20);
}

/// Whether the visibility of an entity can be changed: it is alive and tracked, and visibilities are
/// registered.
pub open spec fn can_be_hidden(w: WorldView, e: Entity) -> bool {
    edits_reach(w, e, "bevy_camera::visibility::Visibility"@)
}

/// The visibility that an entity has.
pub open spec fn visibility_on(w: WorldView, e: Entity) -> Visibility {
    visibility_in(w.held_component(e, "bevy_camera::visibility::Visibility"@))
}

/// A visibility that was written is read back, and nothing else of the entity changes. No other
/// entity changes at all.
pub proof fn law_visibility_is_read_back(
    w: WorldView,
    e: Entity,
    from: Visibility,
    to: Visibility,
    x: Entity,
    other: Seq<char>,
)
    ensures
        ({
            let after = executed(visibility_command(e, from, to), w).0;
            &&& can_be_hidden(w, e) ==> visibility_on(after, e) == to
            &&& can_be_hidden(w, x) ==> can_be_hidden(after, x)
            &&& x != e ==> after.entities[x] == w.entities[x] && after.alive(x) == w.alive(x)
            &&& can_be_hidden(w, e) && other != "bevy_camera::visibility::Visibility"@
                ==> after.held_component(e, other) == w.held_component(e, other)
            &&& after.selection == w.selection
        }),
{
    lemma_visibility_texts();
    let c = visibility_command(e, from, to)->SetField_0;
    let after = c.executed(w);
    if can_be_hidden(w, e) {
        let data = variant_view(VISIBILITY_TYPE_PATH@, to.text_spec());
        law_written_component_is_read(w, c, data, 0, other);
        assert(data.fields[0].name == Seq::<char>::empty());
        assert(data.fields[0].value == ValueView::Text(to.text_spec()));
    }
}

/// Hiding entities hides each of them. Unhiding leaves none of them hidden: those that were inherit,
/// the others keep their visibility. Toggling swaps the two. An entity that is not among them stays
/// as it is.
pub proof fn law_visibilities_change_as_asked(
    w: WorldView,
    entities: Seq<Entity>,
    change: VisibilityChange,
    e: Entity,
)
    requires
        can_be_hidden(w, e),
        change == VisibilityChange::Toggle ==> entities.no_duplicates(),
    ensures
        ({
            let after = visibilities_changed(w, entities, change).0;
            &&& can_be_hidden(after, e)
            &&& !entities.contains(e) ==> after.entities[e] == w.entities[e]
            &&& entities.contains(e) && change == VisibilityChange::Hide ==> visibility_on(after, e)
                == Visibility::Hidden
            &&& entities.contains(e) && change == VisibilityChange::Unhide ==> visibility_on(
                after,
                e,
            ) == (if visibility_on(w, e) == Visibility::Hidden {
                Visibility::Inherited
            } else {
                visibility_on(w, e)
            })
            &&& entities.contains(e) && change == VisibilityChange::Toggle ==> visibility_on(
                after,
                e,
            ) == (if visibility_on(w, e) == Visibility::Hidden {
                Visibility::Inherited
            } else {
                Visibility::Hidden
            })
            &&& after.selection == w.selection
        }),
    decreases entities.len(),
{
    if entities.len() > 0 {
        let init = entities.drop_last();
        assert(change == VisibilityChange::Toggle ==> init.no_duplicates());
        law_visibilities_change_as_asked(w, init, change, e);
        let before = visibilities_changed(w, init, change).0;
        let x = entities.last();
        assert(entities[entities.len() - 1] == x);
        let current = visibility_in(before.held_component(x, VISIBILITY_TYPE_PATH@));
        if let Some(to) = change.target_spec(current) {
            law_visibility_is_read_back(before, x, current, to, e, Seq::empty());
        }
        assert(entities.contains(e) == (init.contains(e) || e == x)) by {
            if init.contains(e) {
                let i = choose|i: int| 0 <= i < init.len() && init[i] == e;
                assert(entities[i] == e);
            }
            if entities.contains(e) && e != x {
                let i = choose|i: int| 0 <= i < entities.len() && entities[i] == e;
                assert(init[i] == e);
            }
        }
        if change == VisibilityChange::Toggle && e == x && init.contains(e) {
            let i = choose|i: int| 0 <= i < init.len() && init[i] == e;
            assert(entities[i] == entities[entities.len() - 1]);
        }
    }
}

/// Every command in the group of a change of visibilities changes the visibility of one of the
/// entities, and from what it was to something else.
pub proof fn law_changes_are_recorded(
    w: WorldView,
    entities: Seq<Entity>,
    change: VisibilityChange,
    i: int,
)
    requires
        0 <= i < visibilities_changed(w, entities, change).1.len(),
    ensures
        visibilities_changed(w, entities, change).1.len() <= entities.len(),
        visibilities_changed(w, entities, change).1[i] matches CommandView::SetField(f)
            && entities.contains(f.entity) && f.type_path
            == "bevy_camera::visibility::Visibility"@ && f.field_path.len() == 0 && f.old_value
            is Some && f.old_value != Some(f.new_value),
    decreases entities.len(),
{
    if entities.len() > 0 {
        let init = entities.drop_last();
        let before = visibilities_changed(w, init, change);
        let all = visibilities_changed(w, entities, change).1;
        let x = entities.last();
        assert(entities[entities.len() - 1] == x);
        if i < before.1.len() {
            law_changes_are_recorded(w, init, change, i);
            assert(all[i] == before.1[i]);
            let f = before.1[i]->SetField_0;
            let k = choose|k: int| 0 <= k < init.len() && init[k] == f.entity;
            assert(entities[k] == f.entity);
        } else {
            lemma_visibility_texts();
            if before.1.len() > 0 {
                law_changes_are_recorded(w, init, change, 0);
            }
            let current = visibility_in(before.0.held_component(x, VISIBILITY_TYPE_PATH@));
            let to = change.target_spec(current)->0;
            let a = variant_view(VISIBILITY_TYPE_PATH@, current.text_spec());
            let b = variant_view(VISIBILITY_TYPE_PATH@, to.text_spec());
            assert(a.fields[0].value == ValueView::Text(current.text_spec()));
            assert(b.fields[0].value == ValueView::Text(to.text_spec()));
            assert(a != b);
        }
    }
}

/// An entity that was despawned is gone from the scene and from the document. No entity and no link
/// comes by that, and the selection stays.
proof fn lemma_despawned_is_gone(w: WorldView, e: Entity)
    ensures
        !despawned(w, e).alive(e),
        !despawned(w, e).doc.links.contains_key(e),
        despawned(w, e).selection == w.selection,
        forall|x: Entity| #[trigger] despawned(w, e).alive(x) ==> w.alive(x),
        forall|x: Entity| #[trigger]
            despawned(w, e).doc.links.contains_key(x) ==> w.doc.links.contains_key(x),
{
    let gone = preorder(w, e, true, w.entities.len());
    assert(gone[0] == e);
    assert(gone.contains(e));
    if let Some(n) = w.doc.node_of(e) {
        let nodes = node_preorder(w.doc, n, w.doc.nodes.len());
        assert(nodes[0] == n);
        assert(nodes.contains(n));
    }
}

/// Despawning entities one after the other leaves none of them in the scene or in the document, and
/// nothing that was not selected before is selected after.
proof fn lemma_all_are_gone(w: WorldView, entities: Seq<Entity>, e: Entity)
    requires
        entities.contains(e) || (!w.alive(e) && !w.doc.links.contains_key(e)),
    ensures
        !despawned_all(w, entities).alive(e),
        !despawned_all(w, entities).doc.links.contains_key(e),
        w.selection.len() == 0 ==> despawned_all(w, entities).selection.len() == 0,
    decreases entities.len(),
{
    if entities.len() > 0 {
        let init = entities.drop_last();
        let x = entities.last();
        let before = despawned_all(w, init);
        let cut = deselected(before, seq![x]);
        lemma_unmarked_keeps(before, seq![x], e);
        lemma_despawned_is_gone(cut, x);
        if e != x {
            if entities.contains(e) {
                let i = choose|i: int| 0 <= i < entities.len() && entities[i] == e;
                assert(init[i] == e);
            }
            lemma_all_are_gone(w, init, e);
            assert(despawned(cut, x).alive(e) ==> cut.alive(e));
            assert(despawned(cut, x).doc.links.contains_key(e) ==> cut.doc.links.contains_key(e));
        } else if init.len() > 0 {
            assert(init.contains(init[0]));
            lemma_all_are_gone(w, init, init[0]);
        }
        if w.selection.len() == 0 {
            if init.len() == 0 {
                assert(before == w);
            }
            assert(before.selection.len() == 0);
            reveal(Seq::filter);
            assert(cut.selection.len() == 0);
        }
    }
}

/// Deleting the selection leaves nothing selected. Every selected entity that was alive and not the
/// editor's own is gone, from the scene and from the document, and the history can bring each back:
/// its last step is a group with one command for each.
pub proof fn law_deleted_entities_are_gone(
    before: WorldView,
    after: WorldView,
    history_before: CommandHistory,
    history_after: CommandHistory,
    e: Entity,
)
    requires
        selection_deleted(before, after, history_before, history_after),
        before.selection.contains(e),
        before.alive(e),
        !before.entities[e].marks.editor_entity,
    ensures
        after.selection.len() == 0,
        !after.alive(e),
        !after.doc.links.contains_key(e),
        history_after.redo_stack@.len() == 0,
        history_after.undo_stack@.len() == history_before.undo_stack@.len() + 1,
        history_after.undo_stack@.last() matches EditorCommand::Group(g) && g.label@
            == "Delete entities"@ && exists|i: int|
            0 <= i < g.commands@.len() && (#[trigger] g.commands@[i] matches EditorCommand::Engine(
                EngineCommand::Despawn(d),
            ) && d.entity == e && d.snapshot@.contains(e)),
{
    let p = |x: Entity| deletable(before, x);
    let gone = deletable_among(before, before.selection);
    crate::seqs::lemma_filter_contains(before.selection, p, e);
    let cleared = WorldView { selection: Seq::empty(), ..unmarked(before, before.selection) };
    lemma_all_are_gone(cleared, gone, e);
    let i = choose|i: int| 0 <= i < gone.len() && gone[i] == e;
    let g = history_after.undo_stack@.last()->Group_0;
    assert(despawns(g.commands@[i], before, gone[i]));
    assert(preorder(before, e, false, before.entities.len())[0] == e);
}

/// Toggling hides what was shown and shows what was hidden: twice is back to inherited or hidden.
pub proof fn law_toggle_twice(v: Visibility)
    ensures
        v.toggled_spec().toggled_spec() == (if v == Visibility::Hidden {
            Visibility::Hidden
        } else {
            Visibility::Inherited
        }),
{
}

} // verus!
