//! The inspector's own state: which cards are collapsed, its name field, and when it has to be
//! rebuilt.
use vstd::prelude::*;
use vstd::string::*;
use crate::history::CommandHistory;
use crate::rename::{find_rename_owner, on_tree_row_renamed, owner_among, shown_name};
use crate::seqs::{first_index, lemma_first_index, lemma_first_index_is};
use crate::text::{char_to_uppercase, chars_of, starts_with, text_eq, upper_case_of};
use crate::value::Entity;
use crate::world::{SceneWorld, WorldView};

verus! {

broadcast use vstd::string::group_string_axioms;

/// Which cards are collapsed, by their names. A card is collapsed until it is opened.
#[derive(Debug)]
pub struct InspectorCollapseState {
    pub entries: Vec<(String, bool)>,
}

pub open spec fn entry_named(name: Seq<char>) -> spec_fn((String, bool)) -> bool {
    |e: (String, bool)| e.0@ == name
}

pub open spec fn entry_at(entries: Seq<(String, bool)>, name: Seq<char>) -> int {
    first_index(entries, entry_named(name))
}

impl View for InspectorCollapseState {
    type V = Map<Seq<char>, bool>;

    open spec fn view(&self) -> Map<Seq<char>, bool> {
        Map::new(
            |name: Seq<char>| entry_at(self.entries@, name) < self.entries@.len(),
            |name: Seq<char>| self.entries@[entry_at(self.entries@, name)].1,
        )
    }
}

/// Whether a card is collapsed.
pub open spec fn is_collapsed(state: Map<Seq<char>, bool>, name: Seq<char>) -> bool {
    if state.contains_key(name) {
        state[name]
    } else {
        true
    }
}

impl Default for InspectorCollapseState {
    fn default() -> (r: InspectorCollapseState)
        ensures
            r@ == Map::<Seq<char>, bool>::empty(),
    {
        let r: InspectorCollapseState = InspectorCollapseState { entries: Vec::new() };
        assert(r@ =~= Map::<Seq<char>, bool>::empty());
        r
    }
}

impl InspectorCollapseState {
    fn find(&self, name: &str) -> (r: usize)
        ensures
            r == entry_at(self.entries@, name@),
            r <= self.entries@.len(),
    {
        let ghost p = entry_named(name@);
        let mut i: usize = 0;
        while i < self.entries.len()
            invariant
                i <= self.entries.len(),
                p == entry_named(name@),
                forall|j: int| 0 <= j < i ==> !p(#[trigger] self.entries@[j]),
            decreases self.entries.len() - i,
        {
            if text_eq(self.entries[i].0.as_str(), name) {
                proof {
                    lemma_first_index_is(self.entries@, p, i as int);
                }
                return i;
            }
            i = i + 1;
        }
        proof {
            lemma_first_index_is(self.entries@, p, i as int);
        }
        i
    }

    /// Whether a card is collapsed.
    pub fn collapsed(&self, name: &str) -> (r: bool)
        ensures
            r == is_collapsed(self@, name@),
    {
        let i: usize = self.find(name);
        if i < self.entries.len() {
            self.entries[i].1
        } else {
            true
        }
    }

    /// Keeps whether a card is collapsed.
    pub fn set(&mut self, name: &str, collapsed: bool)
        ensures
            final(self)@ == old(self)@.insert(name@, collapsed),
    {
        let ghost before = self.entries@;
        let ghost view = self@;
        let i: usize = self.find(name);
        if i < self.entries.len() {
            self.entries.set(i, (name.to_owned(), collapsed));
        } else {
            self.entries.push((name.to_owned(), collapsed));
        }
        proof {
            let after = self.entries@;
            lemma_first_index(before, entry_named(name@));
            assert forall|k: Seq<char>| k != name@ implies #[trigger] entry_at(after, k) == (
            if entry_at(before, k) < before.len() {
                entry_at(before, k)
            } else {
                after.len() as int
            }) by {
                lemma_first_index(before, entry_named(k));
                let at = if entry_at(before, k) < before.len() {
                    entry_at(before, k)
                } else {
                    after.len() as int
                };
                assert forall|j: int| 0 <= j < at implies !entry_named(k)(
                    #[trigger] after[j],
                ) by {
                    if j < before.len() {
                        assert(!entry_named(k)(before[j]));
                    }
                }
                lemma_first_index_is(after, entry_named(k), at);
            }
            assert forall|j: int| 0 <= j < i implies !entry_named(name@)(
                #[trigger] after[j],
            ) by {
                assert(!entry_named(name@)(before[j]));
            }
            lemma_first_index_is(after, entry_named(name@), i as int);
            assert forall|k: Seq<char>| k != name@ implies #[trigger] self@.contains_key(k)
                == view.contains_key(k) by {
                assert(entry_at(after, k) == entry_at(after, k));
            }
            assert forall|k: Seq<char>| k != name@ && view.contains_key(k) implies #[trigger] self@[k]
                == view[k] by {
                assert(entry_at(after, k) == entry_at(before, k));
                lemma_first_index(before, entry_named(k));
            }
            assert(self@ =~= view.insert(name@, collapsed));
        }
    }
}

/// The state after the cards that were opened or closed were kept, in turn.
pub open spec fn persisted(
    state: Map<Seq<char>, bool>,
    changed: Seq<(String, bool)>,
) -> Map<Seq<char>, bool>
    decreases changed.len(),
{
    if changed.len() == 0 {
        state
    } else {
        persisted(state, changed.drop_last()).insert(changed.last().0@, changed.last().1)
    }
}

/// Keeps the cards that were opened or closed.
pub fn persist_inspector_collapse(
    state: &mut InspectorCollapseState,
    changed: &Vec<(String, bool)>,
)
    ensures
        final(state)@ == persisted(old(state)@, changed@),
{
    let ghost start = state@;
    let mut i: usize = 0;
    assert(changed@.subrange(0, 0) =~= Seq::empty());
    while i < changed.len()
        invariant
            i <= changed.len(),
            state@ == persisted(start, changed@.subrange(0, i as int)),
        decreases changed.len() - i,
    {
        proof {
            assert(changed@.subrange(0, i + 1).drop_last() =~= changed@.subrange(0, i as int));
            assert(changed@.subrange(0, i + 1).last() == changed@[i as int]);
        }
        state.set(changed[i].0.as_str(), changed[i].1);
        i = i + 1;
    }
    assert(changed@.subrange(0, i as int) =~= changed@);
}

/// A card comes back as it was left, and the cards with other names as they were.
pub proof fn law_collapse_is_kept(
    state: Map<Seq<char>, bool>,
    name: Seq<char>,
    collapsed: bool,
    other: Seq<char>,
)
    ensures
        is_collapsed(state.insert(name, collapsed), name) == collapsed,
        other != name ==> is_collapsed(state.insert(name, collapsed), other) == is_collapsed(
            state,
            other,
        ),
{
}

/// The offset of the first `::` in a path at or after `from`, or the length of the path.
pub open spec fn first_separator(path: Seq<char>, from: int) -> int
    decreases path.len() - from,
{
    if from < 0 || from + 1 >= path.len() {
        path.len() as int
    } else if path[from] == ':' && path[from + 1] == ':' {
        from
    } else {
        first_separator(path, from + 1)
    }
}

/// The name of the crate that a module belongs to.
pub open spec fn crate_of(path: Seq<char>) -> Seq<char> {
    path.subrange(0, first_separator(path, 0))
}

/// A name without the prefix of the engine's crates.
pub open spec fn without_engine_prefix(name: Seq<char>) -> Seq<char> {
    if "bevy_"@.is_prefix_of(name) {
        name.subrange("bevy_"@.len() as int, name.len() as int)
    } else {
        name
    }
}

/// The label of a group by the short name of a crate: a fixed one for the crates of the engine, else
/// the name with its first letter in upper case.
pub open spec fn group_label(name: Seq<char>) -> Seq<char> {
    if name == "pbr"@ || name == "core_pipeline"@ || name == "render"@ {
        "Render"@
    } else if name == "transform"@ {
        "Transform"@
    } else if name == "ecs"@ {
        "ECS"@
    } else if name == "hierarchy"@ {
        "Hierarchy"@
    } else if name == "window"@ || name == "winit"@ {
        "Window"@
    } else if name == "input"@ || name == "picking"@ {
        "Input"@
    } else if name == "asset"@ {
        "Asset"@
    } else if name == "scene"@ {
        "Scene"@
    } else if name == "gltf"@ {
        "GLTF"@
    } else if name == "ui"@ {
        "UI"@
    } else if name == "text"@ {
        "Text"@
    } else if name == "audio"@ {
        "Audio"@
    } else if name == "animation"@ {
        "Animation"@
    } else if name == "sprite"@ {
        "Sprite"@
    } else if name.len() == 0 {
        "Other"@
    } else {
        upper_case_of(name[0]) + name.subrange(1, name.len() as int)
    }
}

/// The group that a module is shown in. The physics engine and the editor's wrapper of it share one.
pub open spec fn module_group(module: Option<Seq<char>>) -> Seq<char> {
    match module {
        None => "Other"@,
        Some(path) => {
            let first = crate_of(path);
            if first == "avian3d"@ || first == "jackdaw_avian_integration"@ {
                "Avian3d"@
            } else {
                group_label(without_engine_prefix(first))
            }
        },
    }
}

fn find_separator(path: &str) -> (r: usize)
    ensures
        r == first_separator(path@, 0),
        r <= path@.len(),
{
    let chars: Vec<char> = chars_of(path);
    let n: usize = chars.len();
    let mut i: usize = 0;
    while i < n && n - i > 1
        invariant
            chars@ == path@,
            n == chars.len(),
            i <= n,
            first_separator(path@, 0) == first_separator(path@, i as int),
        decreases n - i,
    {
        if chars[i] == ':' && chars[i + 1] == ':' {
            return i;
        }
        i = i + 1;
    }
    n
}

fn label_of_group(name: &str) -> (r: String)
    ensures
        r@ == group_label(name@),
{
    if text_eq(name, "pbr") || text_eq(name, "core_pipeline") || text_eq(name, "render") {
        "Render".to_owned()
    } else if text_eq(name, "transform") {
        "Transform".to_owned()
    } else if text_eq(name, "ecs") {
        "ECS".to_owned()
    } else if text_eq(name, "hierarchy") {
        "Hierarchy".to_owned()
    } else if text_eq(name, "window") || text_eq(name, "winit") {
        "Window".to_owned()
    } else if text_eq(name, "input") || text_eq(name, "picking") {
        "Input".to_owned()
    } else if text_eq(name, "asset") {
        "Asset".to_owned()
    } else if text_eq(name, "scene") {
        "Scene".to_owned()
    } else if text_eq(name, "gltf") {
        "GLTF".to_owned()
    } else if text_eq(name, "ui") {
        "UI".to_owned()
    } else if text_eq(name, "text") {
        "Text".to_owned()
    } else if text_eq(name, "audio") {
        "Audio".to_owned()
    } else if text_eq(name, "animation") {
        "Animation".to_owned()
    } else if text_eq(name, "sprite") {
        "Sprite".to_owned()
    } else {
        let n: usize = name.unicode_len();
        if n == 0 {
            "Other".to_owned()
        } else {
            let head: String = char_to_uppercase(name.get_char(0));
            head.concat(name.substring_char(1, n))
        }
    }
}

/// The group that a module is shown in.
pub fn extract_module_group(module: Option<&str>) -> (r: String)
    ensures
        r@ == module_group(
            match module {
                Some(m) => Some(m@),
                None => None,
            },
        ),
{
    let path: &str = match module {
        Some(p) => p,
        None => {
            return "Other".to_owned();
        },
    };
    let end: usize = find_separator(path);
    let first: &str = path.substring_char(0, end);
    if text_eq(first, "avian3d") || text_eq(first, "jackdaw_avian_integration") {
        return "Avian3d".to_owned();
    }
    let n: usize = first.unicode_len();
    if starts_with(first, "bevy_") {
        let k: usize = "bevy_".unicode_len();
        label_of_group(first.substring_char(k, n))
    } else {
        label_of_group(first)
    }
}

/// A child of a text field: the text edit that it wraps, if any, and its own children with theirs.
#[derive(Debug)]
pub struct FieldChild {
    pub entity: Entity,
    pub wraps: Option<Entity>,
    pub children: Vec<(Entity, Option<Entity>)>,
}

/// The first of `children` that wraps a text edit, with that text edit.
pub open spec fn wrapper_among(children: Seq<(Entity, Option<Entity>)>) -> Option<(Entity, Entity)>
    decreases children.len(),
{
    if children.len() == 0 {
        None
    } else {
        match children[0].1 {
            Some(inner) => Some((children[0].0, inner)),
            None => wrapper_among(children.drop_first()),
        }
    }
}

/// The text edit of a field: that of the first child that wraps one or has a child that does.
pub open spec fn text_edit_in(children: Seq<FieldChild>) -> Option<(Entity, Entity)>
    decreases children.len(),
{
    if children.len() == 0 {
        None
    } else {
        let c = children[0];
        match c.wraps {
            Some(inner) => Some((c.entity, inner)),
            None => match wrapper_among(c.children@) {
                Some(found) => Some(found),
                None => text_edit_in(children.drop_first()),
            },
        }
    }
}

fn find_wrapper(children: &Vec<(Entity, Option<Entity>)>) -> (r: Option<(Entity, Entity)>)
    ensures
        r == wrapper_among(children@),
{
    let n: usize = children.len();
    let mut i: usize = 0;
    assert(children@.subrange(0, n as int) =~= children@);
    while i < n
        invariant
            i <= n,
            n == children.len(),
            wrapper_among(children@) == wrapper_among(children@.subrange(i as int, n as int)),
        decreases n - i,
    {
        assert(children@.subrange(i as int, n as int).drop_first() =~= children@.subrange(
            i + 1,
            n as int,
        ));
        if let Some(inner) = children[i].1 {
            return Some((children[i].0, inner));
        }
        i = i + 1;
    }
    None
}

/// The text edit of a field, with what wraps it.
pub fn find_text_edit_entities_local(children: &Vec<FieldChild>) -> (r: Option<(Entity, Entity)>)
    ensures
        r == text_edit_in(children@),
{
    let n: usize = children.len();
    let mut i: usize = 0;
    assert(children@.subrange(0, n as int) =~= children@);
    while i < n
        invariant
            i <= n,
            n == children.len(),
            text_edit_in(children@) == text_edit_in(children@.subrange(i as int, n as int)),
        decreases n - i,
    {
        assert(children@.subrange(i as int, n as int).drop_first() =~= children@.subrange(
            i + 1,
            n as int,
        ));
        if let Some(inner) = children[i].wraps {
            return Some((children[i].entity, inner));
        }
        if let Some(found) = find_wrapper(&children[i].children) {
            return Some(found);
        }
        i = i + 1;
    }
    None
}

/// A name field of the inspector.
#[derive(Debug)]
pub struct NameField {
    pub source: Entity,
    /// The text in the field.
    pub value: String,
    pub children: Vec<FieldChild>,
    /// The text is being dragged over.
    pub dragging: bool,
}

/// The text edit to fill with an entity's name, if the field shows something else and is not in use.
pub open spec fn name_refresh(w: WorldView, field: NameField, focus: Option<Entity>) -> Option<
    (Entity, Seq<char>),
> {
    match crate::lifecycle::name_of(w, field.source) {
        Some(name) => if name == field.value@ {
            None
        } else {
            match text_edit_in(field.children@) {
                Some((_, inner)) => if field.dragging || focus == Some(inner) {
                    None
                } else {
                    Some((inner, name))
                },
                None => None,
            }
        },
        None => None,
    }
}

/// The text to put into a name field so that it shows the entity's name again. A field that the user
/// is working in is left alone.
pub fn refresh_name_field(world: &SceneWorld, field: &NameField, focus: Option<Entity>) -> (r: Option<
    (Entity, String),
>)
    ensures
        match r {
            Some((inner, text)) => name_refresh(world@, *field, focus) == Some((inner, text@)),
            None => name_refresh(world@, *field, focus) is None,
        },
{
    let name: String = match world.name(field.source) {
        Some(n) => n,
        None => {
            return None;
        },
    };
    if text_eq(name.as_str(), field.value.as_str()) {
        return None;
    }
    match find_text_edit_entities_local(&field.children) {
        Some((_, inner)) => {
            let focused: bool = match focus {
                Some(f) => f == inner,
                None => false,
            };
            if field.dragging || focused {
                None
            } else {
                Some((inner, name))
            }
        },
        None => None,
    }
}

/// The commit of a text field. If it is in the name field of an entity, the entity gets the new name
/// as a step of the history. `fields` lists the name fields, `sources` the entities that they are for,
/// and `above` what the text field is in, the nearest first.
pub fn on_name_field_commit(
    world: &mut SceneWorld,
    history: &mut CommandHistory,
    fields: &Vec<Entity>,
    sources: &Vec<Entity>,
    above: &Vec<Entity>,
    text: &str,
)
    requires
        sources@.len() == fields@.len(),
    ensures
        match owner_among(fields@, above@) {
            Some(i) => if shown_name(old(world)@, sources@[i]) == text@ {
                final(world)@ == old(world)@ && *final(history) == *old(history)
            } else {
                let c = crate::rename::rename_command(old(world)@, sources@[i], text@);
                &&& final(world)@ == c.executed(old(world)@)
                &&& final(history).undo_stack@.len() == old(history).undo_stack@.len() + 1
                &&& final(history).undo_stack@.drop_last() == old(history).undo_stack@
                &&& final(history).undo_stack@.last()@ == crate::history::CommandView::SetField(
                    c.after_execute(old(world)@),
                )
                &&& final(history).redo_stack@.len() == 0
            },
            None => final(world)@ == old(world)@ && *final(history) == *old(history),
        },
{
    if let Some(i) = find_rename_owner(fields, above) {
        on_tree_row_renamed(world, history, sources[i], text);
    }
}

/// Marks an entity's inspector for a rebuild.
pub fn rebuild_inspector(world: &mut SceneWorld, source: Entity)
    ensures
        final(world)@ == old(world)@.dirtied(source),
{
    world.mark_dirty(source);
}

/// The scene with every shown entity marked whose modifiers changed.
pub open spec fn modifiers_flagged(
    w: WorldView,
    targets: Seq<Entity>,
    changed: Seq<Entity>,
) -> WorldView
    decreases targets.len(),
{
    if targets.len() == 0 {
        w
    } else {
        let before = modifiers_flagged(w, targets.drop_last(), changed);
        if changed.contains(targets.last()) {
            before.dirtied(targets.last())
        } else {
            before
        }
    }
}

/// Marks every entity that is shown in an inspector and whose modifiers changed for a rebuild.
pub fn flag_inspector_dirty_on_modifier_stack_change(
    world: &mut SceneWorld,
    targets: &Vec<Entity>,
    changed: &Vec<Entity>,
)
    ensures
        final(world)@ == modifiers_flagged(old(world)@, targets@, changed@),
{
    let ghost start = world@;
    let mut i: usize = 0;
    assert(targets@.subrange(0, 0) =~= Seq::empty());
    while i < targets.len()
        invariant
            i <= targets.len(),
            world@ == modifiers_flagged(start, targets@.subrange(0, i as int), changed@),
        decreases targets.len() - i,
    {
        proof {
            assert(targets@.subrange(0, i + 1).drop_last() =~= targets@.subrange(0, i as int));
            assert(targets@.subrange(0, i + 1).last() == targets@[i as int]);
        }
        if crate::seqs::contains(changed, targets[i]) {
            world.mark_dirty(targets[i]);
        }
        i = i + 1;
    }
    assert(targets@.subrange(0, i as int) =~= targets@);
}

/// Whether the components of the shown entity changed since the last look. A new entity, or one that
/// is gone, does not count.
pub open spec fn archetype_changed(
    last: Option<(Entity, u64)>,
    target: Entity,
    current: Option<u64>,
) -> bool {
    match (last, current) {
        (Some((e, a)), Some(c)) => e == target && a != c,
        _ => false,
    }
}

/// Marks the shown entity for a rebuild when the set of its components changed since the last look,
/// and remembers what it is now. `current` is the number of its set of components, if it is alive.
pub fn flag_inspector_dirty_on_archetype_change(
    world: &mut SceneWorld,
    last: &mut Option<(Entity, u64)>,
    target: Option<Entity>,
    current: Option<u64>,
)
    ensures
        match target {
            Some(t) => {
                &&& final(world)@ == (if archetype_changed(*old(last), t, current) {
                    old(world)@.dirtied(t)
                } else {
                    old(world)@
                })
                &&& *final(last) == (match current {
                    Some(a) => Some((t, a)),
                    None => if *old(last) matches Some((e, _)) && e == t {
                        None
                    } else {
                        *old(last)
                    },
                })
            },
            None => final(world)@ == old(world)@ && *final(last) is None,
        },
{
    let t: Entity = match target {
        Some(t) => t,
        None => {
            *last = None;
            return ;
        },
    };
    let stored: Option<u64> = match *last {
        Some((e, a)) => if e == t {
            Some(a)
        } else {
            None
        },
        None => None,
    };
    match (stored, current) {
        (Some(a), Some(c)) => {
            if a != c {
                world.mark_dirty(t);
                *last = Some((t, c));
            }
        },
        (None, Some(c)) => {
            *last = Some((t, c));
        },
        (Some(_), None) => {
            *last = None;
        },
        (None, None) => {},
    }
}

/// A card that was never opened or closed is collapsed.
pub proof fn law_cards_start_collapsed(state: Map<Seq<char>, bool>, name: Seq<char>)
    requires
        !state.contains_key(name),
    ensures
        is_collapsed(state, name),
{
}

/// Of several changes to a card the last counts, and a card that did not change stays as it was.
pub proof fn law_last_change_of_a_card(
    state: Map<Seq<char>, bool>,
    changed: Seq<(String, bool)>,
    name: Seq<char>,
    i: int,
)
    ensures
        0 <= i < changed.len() && changed[i].0@ == name && (forall|j: int|
            i < j < changed.len() ==> (#[trigger] changed[j]).0@ != name) ==> is_collapsed(
            persisted(state, changed),
            name,
        ) == changed[i].1,
        (forall|j: int| 0 <= j < changed.len() ==> (#[trigger] changed[j]).0@ != name)
            ==> is_collapsed(persisted(state, changed), name) == is_collapsed(state, name),
    decreases changed.len(),
{
    if changed.len() > 0 {
        let init = changed.drop_last();
        assert(changed[changed.len() - 1] == changed.last());
        assert forall|j: int| 0 <= j < init.len() implies #[trigger] init[j] == changed[j] by {}
        law_last_change_of_a_card(state, init, name, i);
        if 0 <= i < changed.len() - 1 && changed[i].0@ == name && (forall|j: int|
            i < j < changed.len() ==> (#[trigger] changed[j]).0@ != name) {
            assert forall|j: int| i < j < init.len() implies (#[trigger] init[j]).0@ != name by {
                assert(changed[j].0@ != name);
            }
        }
        if forall|j: int| 0 <= j < changed.len() ==> (#[trigger] changed[j]).0@ != name {
            assert forall|j: int| 0 <= j < init.len() implies (#[trigger] init[j]).0@ != name by {
                assert(changed[j].0@ != name);
            }
        }
    }
}

/// The first `::` of a path is one, and there is none before it.
proof fn lemma_first_separator(path: Seq<char>, from: int, at: int)
    requires
        0 <= from <= at,
        forall|i: int|
            from <= i < at && i + 1 < path.len() ==> !(#[trigger] path[i] == ':' && path[i + 1]
                == ':'),
        at + 1 < path.len(),
        path[at] == ':' && path[at + 1] == ':',
    ensures
        first_separator(path, from) == at,
    decreases at - from,
{
    if from < at {
        assert(!(path[from] == ':' && path[from + 1] == ':'));
        lemma_first_separator(path, from + 1, at);
    }
}

/// The group of a module is that of its crate: all modules of a crate share it, and the engine's prefix
/// of a crate's name makes no difference.
pub proof fn law_group_of_a_crate(name: Seq<char>, rest: Seq<char>)
    requires
        forall|i: int| 0 <= i < name.len() ==> #[trigger] name[i] != ':',
    ensures
        crate_of(name + "::"@ + rest) == name,
        module_group(Some(name + "::"@ + rest)) == module_group(Some(name)),
        without_engine_prefix("bevy_"@ + name) == name,
{
    reveal_strlit("::");
    reveal_strlit("bevy_");
    let path = name + "::"@ + rest;
    let n = name.len() as int;
    assert(path[n] == ':' && path[n + 1] == ':');
    assert forall|i: int| 0 <= i < n && i + 1 < path.len() implies !(#[trigger] path[i] == ':'
        && path[i + 1] == ':') by {
        assert(path[i] == name[i]);
    }
    lemma_first_separator(path, 0, n);
    assert(path.subrange(0, n) =~= name);
    lemma_no_separator(name, 0);
    assert(name.subrange(0, n) =~= name);
    let prefixed = "bevy_"@ + name;
    assert(prefixed.subrange(0, "bevy_"@.len() as int) =~= "bevy_"@);
    assert("bevy_"@.is_prefix_of(prefixed));
    assert(prefixed.subrange("bevy_"@.len() as int, prefixed.len() as int) =~= name);
}

proof fn lemma_no_separator(name: Seq<char>, from: int)
    requires
        forall|i: int| 0 <= i < name.len() ==> #[trigger] name[i] != ':',
        0 <= from,
    ensures
        first_separator(name, from) == name.len(),
    decreases name.len() - from,
{
    if from + 1 < name.len() {
        assert(name[from] != ':');
        lemma_no_separator(name, from + 1);
    }
}

/// The crates of the engine have groups of their own, some of them in common. The physics engine and
/// the editor's wrapper of it are one group, and a component without a module is in none of these.
pub proof fn law_engine_groups()
    ensures
        group_label("pbr"@) == "Render"@,
        group_label("core_pipeline"@) == "Render"@,
        group_label("render"@) == "Render"@,
        group_label("transform"@) == "Transform"@,
        group_label("ecs"@) == "ECS"@,
        group_label("hierarchy"@) == "Hierarchy"@,
        group_label("window"@) == "Window"@,
        group_label("winit"@) == "Window"@,
        group_label("input"@) == "Input"@,
        group_label("picking"@) == "Input"@,
        group_label("asset"@) == "Asset"@,
        group_label("scene"@) == "Scene"@,
        group_label("gltf"@) == "GLTF"@,
        group_label("ui"@) == "UI"@,
        group_label("text"@) == "Text"@,
        group_label("audio"@) == "Audio"@,
        group_label("animation"@) == "Animation"@,
        group_label("sprite"@) == "Sprite"@,
        group_label(Seq::empty()) == "Other"@,
        module_group(None) == "Other"@,
{
    reveal_strlit("pbr");
    reveal_strlit("core_pipeline");
    reveal_strlit("render");
    reveal_strlit("transform");
    reveal_strlit("ecs");
    reveal_strlit("hierarchy");
    reveal_strlit("window");
    reveal_strlit("winit");
    reveal_strlit("input");
    reveal_strlit("picking");
    reveal_strlit("asset");
    reveal_strlit("scene");
    reveal_strlit("gltf");
    reveal_strlit("ui");
    reveal_strlit("text");
    reveal_strlit("audio");
    reveal_strlit("animation");
    reveal_strlit("sprite");
    assert("pbr"@.len() == 3 && "ecs"@.len() == 3 && "pbr"@[0] == 'p' && "ecs"@[0] == 'e');
    assert("core_pipeline"@.len() == 13 && "picking"@.len() == 7 && "ui"@.len() == 2);
    assert("render"@.len() == 6 && "window"@.len() == 6 && "sprite"@.len() == 6);
    assert("render"@[0] == 'r' && "window"@[0] == 'w' && "sprite"@[0] == 's');
    assert("transform"@.len() == 9 && "hierarchy"@.len() == 9 && "animation"@.len() == 9);
    assert("transform"@[0] == 't' && "hierarchy"@[0] == 'h' && "animation"@[0] == 'a');
    assert("winit"@.len() == 5 && "input"@.len() == 5 && "asset"@.len() == 5);
    assert("scene"@.len() == 5 && "audio"@.len() == 5);
    assert("winit"@[0] == 'w' && "input"@[0] == 'i' && "asset"@[0] == 'a' && "scene"@[0] == 's');
    assert("audio"@[0] == 'a' && "audio"@[1] == 'u' && "asset"@[1] == 's');
    assert("gltf"@.len() == 4 && "text"@.len() == 4 && "gltf"@[0] == 'g' && "text"@[0] == 't');
}

/// The first child that wraps a text edit counts, with the text edit that it wraps.
proof fn lemma_wrapper_among(children: Seq<(Entity, Option<Entity>)>, i: int)
    ensures
        0 <= i < children.len() && children[i].1 is Some && (forall|j: int|
            0 <= j < i ==> (#[trigger] children[j]).1 is None) ==> wrapper_among(children) == Some(
            (children[i].0, children[i].1->0),
        ),
        (forall|j: int| 0 <= j < children.len() ==> (#[trigger] children[j]).1 is None)
            ==> wrapper_among(children) is None,
    decreases children.len(),
{
    if children.len() > 0 {
        let rest = children.drop_first();
        assert forall|j: int| 0 <= j < rest.len() implies #[trigger] rest[j] == children[j + 1] by {}
        lemma_wrapper_among(rest, i - 1);
        if 0 < i < children.len() && children[i].1 is Some && (forall|j: int|
            0 <= j < i ==> (#[trigger] children[j]).1 is None) {
            assert(children[0].1 is None);
            assert(rest[i - 1] == children[i]);
            assert forall|j: int| 0 <= j < i - 1 implies (#[trigger] rest[j]).1 is None by {
                assert(children[j + 1].1 is None);
            }
        }
        if forall|j: int| 0 <= j < children.len() ==> (#[trigger] children[j]).1 is None {
            assert(children[0].1 is None);
            assert forall|j: int| 0 <= j < rest.len() implies (#[trigger] rest[j]).1 is None by {
                assert(children[j + 1].1 is None);
            }
        }
    }
}

/// Whether nothing in a child of a field wraps a text edit.
pub open spec fn wraps_nothing(c: FieldChild) -> bool {
    c.wraps is None && forall|j: int|
        0 <= j < c.children@.len() ==> (#[trigger] c.children@[j]).1 is None
}

/// The text edit of a field is the one that its first child wraps, itself or through its first child
/// that does; children in which nothing is wrapped are passed over.
pub proof fn law_text_edit_of_a_field(children: Seq<FieldChild>, i: int, k: int)
    requires
        0 <= i < children.len(),
        forall|j: int| 0 <= j < i ==> wraps_nothing(#[trigger] children[j]),
    ensures
        children[i].wraps matches Some(inner) ==> text_edit_in(children) == Some(
            (children[i].entity, inner),
        ),
        children[i].wraps is None && 0 <= k < children[i].children@.len()
            && children[i].children@[k].1 is Some && (forall|j: int|
            0 <= j < k ==> (#[trigger] children[i].children@[j]).1 is None) ==> text_edit_in(
            children,
        ) == Some((children[i].children@[k].0, children[i].children@[k].1->0)),
    decreases children.len(),
{
    if i == 0 {
        lemma_wrapper_among(children[0].children@, k);
    } else {
        let rest = children.drop_first();
        assert(wraps_nothing(children[0]));
        lemma_wrapper_among(children[0].children@, 0);
        assert(rest[i - 1] == children[i]);
        assert forall|j: int| 0 <= j < i - 1 implies wraps_nothing(#[trigger] rest[j]) by {
            assert(wraps_nothing(children[j + 1]));
        }
        law_text_edit_of_a_field(rest, i - 1, k);
    }
}

/// A name field is filled with the name of its entity exactly when it shows another text and nobody is
/// working in it.
pub proof fn law_name_field_follows(w: WorldView, field: NameField, focus: Option<Entity>, n: Seq<char>)
    requires
        w.alive(field.source),
        w.entities[field.source].name == Some(n),
        text_edit_in(field.children@) is Some,
    ensures
        ({
            let inner = (text_edit_in(field.children@)->0).1;
            &&& n != field.value@ && !field.dragging && focus != Some(inner) ==> name_refresh(
                w,
                field,
                focus,
            ) == Some((inner, n))
            &&& n == field.value@ || field.dragging || focus == Some(inner) ==> name_refresh(
                w,
                field,
                focus,
            ) is None
        }),
{
}

/// After modifiers changed, the shown entities among those whose modifiers did are marked for a
/// rebuild, and no other entity is. Nothing else of any entity changes.
pub proof fn law_changed_modifiers_are_flagged(
    w: WorldView,
    targets: Seq<Entity>,
    changed: Seq<Entity>,
    e: Entity,
)
    requires
        w.alive(e),
    ensures
        ({
            let after = modifiers_flagged(w, targets, changed);
            &&& after.alive(e)
            &&& after.entities[e].marks.inspector_dirty == (w.entities[e].marks.inspector_dirty || (
            targets.contains(e) && changed.contains(e)))
            &&& after.entities[e].components == w.entities[e].components
            &&& after.entities[e].name == w.entities[e].name
            &&& after.entities[e].marks.selected == w.entities[e].marks.selected
            &&& after.selection == w.selection
            &&& after.doc == w.doc
        }),
    decreases targets.len(),
{
    if targets.len() > 0 {
        let init = targets.drop_last();
        law_changed_modifiers_are_flagged(w, init, changed, e);
        assert(targets =~= init.push(targets.last()));
        crate::seqs::lemma_push_contains(init, targets.last(), e);
    }
}

/// A look at a shown entity finds its components changed only when the last look was at the same
/// entity and found others.
pub proof fn law_archetype_changed(e: Entity, other: Entity, a: u64, b: u64)
    ensures
        archetype_changed(Some((e, a)), e, Some(b)) == (a != b),
        other != e ==> !archetype_changed(Some((e, a)), other, Some(b)),
        !archetype_changed(None, e, Some(b)),
        !archetype_changed(Some((e, a)), e, None),
{
}

} // verus!
