//! The context menu of the outliner.
use vstd::prelude::*;
use crate::brush::{BrushView, Brushes};
use crate::clipboard::{duplicate_selected, plans, DuplicatePlan};
use crate::entity_ops::{delete_selected, selection_deleted};
use crate::history::CommandHistory;
use crate::lifecycle::{name_of, unmarked};
use crate::location::{set_parent, transform_plan, LocationView, TransformPlan};
use crate::operators::{
    bind, bindings_resolve, bound, Binding, ExtensionContext, KeyInput, OperatorResult,
};
use crate::prefab_save::{PendingPrefabDefaultName, PendingPrefabSave, PrefabSaveMode};
use crate::registration::enrolled;
use crate::selection::{lemma_unmarked_mark, reselected};
use crate::seqs::{contains, copied};
use crate::sorting::{
    law_sorted, lemma_text_le_total, lemma_text_le_transitive, stable_sort, stably_sorted, text_at_most,
    text_le, Ranked,
};
use crate::templates::{
    create_entity_in_world, lemma_with_named, nodes_for, template_brush, template_marks,
    with_new_brush, with_template, EntityTemplate, PartValue, Supplies,
};
use crate::text::{starts_with, text_eq, text_of, trim, trimmed};
use crate::value::Entity;
use crate::world::{SceneWorld, WorldView};

verus! {

/// What stands before the id of an operator in the action of a menu item.
pub const OP_PREFIX: &'static str = "op:";

/// An item of a menu: what it does, and what it says.
#[derive(Debug)]
pub struct MenuItem {
    pub action: String,
    pub label: String,
}

/// What a [`MenuItem`] stands for.
pub ghost struct ItemView {
    pub action: Seq<char>,
    pub label: Seq<char>,
}

impl View for MenuItem {
    type V = ItemView;

    open spec fn view(&self) -> ItemView {
        ItemView { action: self.action@, label: self.label@ }
    }
}

pub open spec fn items_view(items: Seq<MenuItem>) -> Seq<ItemView> {
    Seq::new(items.len(), |i: int| items[i]@)
}

impl Ranked for MenuItem {
    open spec fn ranks_before(self, other: Self) -> bool {
        text_le(self.label@, other.label@)
    }

    proof fn lemma_total(a: Self, b: Self) {
        lemma_text_le_total(a.label@, b.label@);
    }

    proof fn lemma_transitive(a: Self, b: Self, c: Self) {
        lemma_text_le_transitive(a.label@, b.label@, c.label@);
    }

    fn may_precede(&self, other: &Self) -> (r: bool) {
        text_at_most(self.label.as_str(), other.label.as_str())
    }
}

pub open spec fn entry(action: &str, label: &str) -> ItemView {
    ItemView { action: action@, label: label@ }
}

fn item(action: &str, label: &str) -> (r: MenuItem)
    ensures
        r@ == entry(action, label),
{
    MenuItem { action: action.to_owned(), label: label.to_owned() }
}

/// The items that are always there.
pub open spec fn general_items() -> Seq<ItemView> {
    seq![
        entry("hierarchy.focus", "Focus                    F"),
        entry("hierarchy.rename", "Rename              F2"),
        entry("hierarchy.duplicate", "Duplicate        Ctrl+D"),
        entry("hierarchy.delete", "Delete             Del"),
        entry("hierarchy.save_prefab", "Save Selection as Prefab..."),
        entry("hierarchy.save_scene_as_prefab", "Save Scene as Prefab..."),
        entry("hierarchy.add_cube", "Add Child Cube"),
        entry("hierarchy.add_sphere", "Add Child Sphere"),
        entry("hierarchy.add_light", "Add Child Light"),
        entry("hierarchy.add_empty", "Add Child Empty"),
    ]
}

/// The items for the root of a prefab instance, which come first.
pub open spec fn instance_items() -> Seq<ItemView> {
    seq![
        entry("hierarchy.prefab.revert_all", "Revert All Overrides"),
        entry("hierarchy.prefab.save_as_variant", "Save as Variant..."),
        entry("hierarchy.prefab.apply_all_to_source", "Apply All Changes to Prefab Source"),
        entry("hierarchy.prefab.unbundle_instance", "Unbundle Prefab Instance"),
    ]
}

fn push_general_items(items: &mut Vec<MenuItem>)
    ensures
        items_view(final(items)@) == items_view(old(items)@) + general_items(),
{
    let ghost start = items_view(items@);
    items.push(item("hierarchy.focus", "Focus                    F"));
    items.push(item("hierarchy.rename", "Rename              F2"));
    items.push(item("hierarchy.duplicate", "Duplicate        Ctrl+D"));
    items.push(item("hierarchy.delete", "Delete             Del"));
    items.push(item("hierarchy.save_prefab", "Save Selection as Prefab..."));
    items.push(item("hierarchy.save_scene_as_prefab", "Save Scene as Prefab..."));
    items.push(item("hierarchy.add_cube", "Add Child Cube"));
    items.push(item("hierarchy.add_sphere", "Add Child Sphere"));
    items.push(item("hierarchy.add_light", "Add Child Light"));
    items.push(item("hierarchy.add_empty", "Add Child Empty"));
    assert(items_view(items@) =~= start + general_items());
}

fn push_instance_items(items: &mut Vec<MenuItem>)
    ensures
        items_view(final(items)@) == items_view(old(items)@) + instance_items(),
{
    let ghost start = items_view(items@);
    items.push(item("hierarchy.prefab.revert_all", "Revert All Overrides"));
    items.push(item("hierarchy.prefab.save_as_variant", "Save as Variant..."));
    items.push(
        item("hierarchy.prefab.apply_all_to_source", "Apply All Changes to Prefab Source"),
    );
    items.push(item("hierarchy.prefab.unbundle_instance", "Unbundle Prefab Instance"));
    assert(items_view(items@) =~= start + instance_items());
}

/// An entry that an extension brings to a menu.
#[derive(Debug)]
pub struct RegisteredMenuEntry {
    /// Whether it goes into the add menu.
    pub in_add_menu: bool,
    pub operator_id: String,
    pub label: String,
}

/// The items for the entries of the add menu, in their order.
pub open spec fn add_items(entries: Seq<RegisteredMenuEntry>) -> Seq<ItemView>
    decreases entries.len(),
{
    if entries.len() == 0 {
        Seq::empty()
    } else {
        let before = add_items(entries.drop_last());
        let e = entries.last();
        if e.in_add_menu {
            before.push(
                ItemView { action: OP_PREFIX@ + e.operator_id@, label: "Add "@ + e.label@ },
            )
        } else {
            before
        }
    }
}

/// Whether items are others, sorted by their labels; items with equal labels keep their order.
pub open spec fn sorted_items(sorted: Seq<ItemView>, items: Seq<ItemView>) -> bool {
    exists|s: Seq<MenuItem>| #[trigger] items_view(s) == items && sorted == items_view(
        stably_sorted(s),
    )
}

fn extension_items(entries: &Vec<RegisteredMenuEntry>) -> (r: Vec<MenuItem>)
    ensures
        sorted_items(items_view(r@), add_items(entries@)),
{
    let mut rows: Vec<MenuItem> = Vec::new();
    let mut i: usize = 0;
    assert(entries@.subrange(0, 0) =~= Seq::empty());
    assert(items_view(rows@) =~= Seq::empty());
    while i < entries.len()
        invariant
            i <= entries.len(),
            items_view(rows@) == add_items(entries@.subrange(0, i as int)),
        decreases entries.len() - i,
    {
        proof {
            assert(entries@.subrange(0, i + 1).drop_last() =~= entries@.subrange(0, i as int));
            assert(entries@.subrange(0, i + 1).last() == entries@[i as int]);
        }
        let ghost before = items_view(rows@);
        let e: &RegisteredMenuEntry = &entries[i];
        if e.in_add_menu {
            let row: MenuItem = MenuItem {
                action: OP_PREFIX.to_owned().concat(e.operator_id.as_str()),
                label: "Add ".to_owned().concat(e.label.as_str()),
            };
            let ghost v = row@;
            rows.push(row);
            assert(items_view(rows@) =~= before.push(v));
        }
        i = i + 1;
    }
    assert(entries@.subrange(0, i as int) =~= entries@);
    let ghost unsorted = rows@;
    let r: Vec<MenuItem> = stable_sort(rows);
    assert(items_view(unsorted) == add_items(entries@));
    r
}

/// The menu that is open, and what it is for.
#[derive(Clone, Copy, Debug, PartialEq, Eq, Structural)]
pub struct ContextMenuState {
    pub open: bool,
    pub target_entity: Option<Entity>,
}

/// What opening the menu comes to.
#[derive(Debug)]
pub struct MenuOpened {
    pub result: OperatorResult,
    pub items: Vec<MenuItem>,
}

/// Whether a menu holds the items for an entity: those for a prefab instance when it is the root of
/// one, then the general ones, then those of extensions, sorted by label.
pub open spec fn menu_for(items: Seq<ItemView>, instance: bool, entries: Seq<RegisteredMenuEntry>) -> bool {
    exists|more: Seq<ItemView>| #[trigger]
        sorted_items(more, add_items(entries)) && items == (if instance {
            instance_items()
        } else {
            Seq::empty()
        }) + general_items() + more
}

/// Opens the menu for the entity whose row is under the pointer. A menu that was open closes. With
/// the pointer outside, or on no row, nothing opens. An entity that is not selected is selected
/// alone first.
pub fn hierarchy_open_context_menu(
    world: &mut SceneWorld,
    state: &mut ContextMenuState,
    pointer_inside: bool,
    target: Option<Entity>,
    entries: &Vec<RegisteredMenuEntry>,
) -> (r: MenuOpened)
    ensures
        !pointer_inside ==> {
            &&& r.result == OperatorResult::Cancelled
            &&& r.items@.len() == 0
            &&& final(world)@ == old(world)@
            &&& *final(state) == *old(state)
        },
        pointer_inside && target is None ==> {
            &&& r.result == OperatorResult::Cancelled
            &&& r.items@.len() == 0
            &&& final(world)@ == old(world)@
            &&& *final(state) == (ContextMenuState { open: false, ..*old(state) })
        },
        pointer_inside && target is Some ==> {
            let t = target->0;
            &&& r.result == OperatorResult::Finished
            &&& menu_for(
                items_view(r.items@),
                old(world)@.marks_of(t).prefab_instance,
                entries@,
            )
            &&& final(world)@ == (if old(world)@.selection.contains(t) {
                old(world)@
            } else {
                reselected(old(world)@, seq![t])
            })
            &&& *final(state) == (ContextMenuState { open: true, target_entity: target })
        },
{
    if !pointer_inside {
        return MenuOpened { result: OperatorResult::Cancelled, items: Vec::new() };
    }
    state.open = false;
    let target: Entity = match target {
        Some(t) => t,
        None => {
            return MenuOpened { result: OperatorResult::Cancelled, items: Vec::new() };
        },
    };
    let instance: bool = world.marks(target).prefab_instance;
    if !contains(&world.selection, target) {
        world.select_single(target);
    }
    let mut items: Vec<MenuItem> = Vec::new();
    assert(items_view(items@) =~= Seq::empty());
    if instance {
        push_instance_items(&mut items);
    }
    push_general_items(&mut items);
    let mut more: Vec<MenuItem> = extension_items(entries);
    let ghost first = items_view(items@);
    let ghost tail = items_view(more@);
    let ghost whole = items@ + more@;
    items.append(&mut more);
    proof {
        assert(items@ =~= whole);
        assert(items_view(items@) =~= first + tail);
        assert(sorted_items(tail, add_items(entries@)));
        assert(first =~= (if instance {
            instance_items()
        } else {
            Seq::empty()
        }) + general_items());
    }
    state.open = true;
    state.target_entity = Some(target);
    MenuOpened { result: OperatorResult::Finished, items }
}

/// What an action of the menu asks for, but for the actions of extensions.
#[derive(Clone, Copy, Debug, PartialEq, Eq, Structural)]
pub enum MenuAction {
    Focus,
    Rename,
    Duplicate,
    Delete,
    AddChild(EntityTemplate),
    SavePrefab,
    SaveScene,
    RevertAll,
    SaveVariant,
    ApplyAllToSource,
    Unbundle,
}

/// What an action asks for, by its name.
pub open spec fn action_named(action: Seq<char>) -> Option<MenuAction> {
    if action == "hierarchy.focus"@ {
        Some(MenuAction::Focus)
    } else if action == "hierarchy.rename"@ {
        Some(MenuAction::Rename)
    } else if action == "hierarchy.duplicate"@ {
        Some(MenuAction::Duplicate)
    } else if action == "hierarchy.delete"@ {
        Some(MenuAction::Delete)
    } else if action == "hierarchy.add_cube"@ {
        Some(MenuAction::AddChild(EntityTemplate::Cube))
    } else if action == "hierarchy.add_sphere"@ {
        Some(MenuAction::AddChild(EntityTemplate::Sphere))
    } else if action == "hierarchy.add_light"@ {
        Some(MenuAction::AddChild(EntityTemplate::PointLight))
    } else if action == "hierarchy.add_empty"@ {
        Some(MenuAction::AddChild(EntityTemplate::Empty))
    } else if action == "hierarchy.save_prefab"@ {
        Some(MenuAction::SavePrefab)
    } else if action == "hierarchy.save_scene_as_prefab"@ {
        Some(MenuAction::SaveScene)
    } else if action == "hierarchy.prefab.revert_all"@ {
        Some(MenuAction::RevertAll)
    } else if action == "hierarchy.prefab.save_as_variant"@ {
        Some(MenuAction::SaveVariant)
    } else if action == "hierarchy.prefab.apply_all_to_source"@ {
        Some(MenuAction::ApplyAllToSource)
    } else if action == "hierarchy.prefab.unbundle_instance"@ {
        Some(MenuAction::Unbundle)
    } else {
        None
    }
}

/// What an action asks for, by its name.
pub fn parse_action(action: &str) -> (r: Option<MenuAction>)
    ensures
        r == action_named(action@),
{
    if text_eq(action, "hierarchy.focus") {
        Some(MenuAction::Focus)
    } else if text_eq(action, "hierarchy.rename") {
        Some(MenuAction::Rename)
    } else if text_eq(action, "hierarchy.duplicate") {
        Some(MenuAction::Duplicate)
    } else if text_eq(action, "hierarchy.delete") {
        Some(MenuAction::Delete)
    } else if text_eq(action, "hierarchy.add_cube") {
        Some(MenuAction::AddChild(EntityTemplate::Cube))
    } else if text_eq(action, "hierarchy.add_sphere") {
        Some(MenuAction::AddChild(EntityTemplate::Sphere))
    } else if text_eq(action, "hierarchy.add_light") {
        Some(MenuAction::AddChild(EntityTemplate::PointLight))
    } else if text_eq(action, "hierarchy.add_empty") {
        Some(MenuAction::AddChild(EntityTemplate::Empty))
    } else if text_eq(action, "hierarchy.save_prefab") {
        Some(MenuAction::SavePrefab)
    } else if text_eq(action, "hierarchy.save_scene_as_prefab") {
        Some(MenuAction::SaveScene)
    } else if text_eq(action, "hierarchy.prefab.revert_all") {
        Some(MenuAction::RevertAll)
    } else if text_eq(action, "hierarchy.prefab.save_as_variant") {
        Some(MenuAction::SaveVariant)
    } else if text_eq(action, "hierarchy.prefab.apply_all_to_source") {
        Some(MenuAction::ApplyAllToSource)
    } else if text_eq(action, "hierarchy.prefab.unbundle_instance") {
        Some(MenuAction::Unbundle)
    } else {
        None
    }
}

/// What is left to do for an action.
#[derive(Debug)]
pub enum MenuEffect {
    Nothing,
    /// Move the cameras so that they look at the entity.
    Focus(Entity),
    /// Run the rename operator for the entity.
    Rename(Entity),
    /// Duplicate these nodes.
    Duplicate { plans: Vec<DuplicatePlan> },
    /// Nothing but to show that the selection is gone.
    Deleted,
    /// Let the transform of the new child follow.
    ChildAdded { plan: TransformPlan },
    /// Ask for the name of a prefab in a dialog with this title.
    OpenDialog { title: &'static str, confirm: &'static str },
    /// Run an operator on the instance, as a step of the history.
    PrefabOperator { id: &'static str, instance: Entity },
    /// Write the overrides at this document node to the prefab.
    ApplyAllToSource { node: Entity },
    /// Run an operator that an extension brought.
    RunOperator { operator: String },
}

/// What an entity that the menu adds is made from: its id, what the engine has for it, the material
/// that was used last, and whether it and the entity that it goes below are placed in the world.
#[derive(Debug)]
pub struct NewChild {
    pub entity: Entity,
    pub supplies: Supplies,
    pub last_material: Option<u64>,
    pub entity_placed: bool,
    pub parent_placed: bool,
}

/// Whether the scene is fit for an action: for one that deletes, the document is consistent; for one
/// that adds, the document can take another node, and the entity that the menu was opened on is
/// alive.
pub open spec fn ready_for(
    world: SceneWorld,
    action: Option<MenuAction>,
    target: Option<Entity>,
    child: Entity,
) -> bool {
    match action {
        Some(MenuAction::Delete) => world@.doc.consistent(),
        Some(MenuAction::AddChild(_)) => target matches Some(t) ==> {
            &&& world.document.wf()
            &&& world.document.next_node < u64::MAX
            &&& world@.alive(t)
            &&& t != child
        },
        _ => true,
    }
}

/// Whether a new child of an entity was added, with its brush, and recorded.
pub open spec fn child_recorded(
    before: (WorldView, Map<Entity, BrushView>, CommandHistory),
    after: (WorldView, Map<Entity, BrushView>, CommandHistory),
    parent: Entity,
    template: EntityTemplate,
    child: NewChild,
) -> bool {
    let brush = template_brush(template, child.supplies.shape, child.last_material);
    &&& child_added(
        before.0,
        after.0,
        template,
        child.entity,
        child.supplies.values@,
        brush,
        parent,
    )
    &&& after.1 == with_new_brush(before.1, child.entity, brush)
    &&& before.2.spawn_recorded(after.2, child.entity, "Add "@ + template.label_spec())
}

/// Whether an action did to the scene, its brushes and its history what it does: deleting and adding
/// are done at once, duplicating begins, and every other action leaves them as they are.
pub open spec fn carried_out(
    before: (WorldView, Map<Entity, BrushView>, CommandHistory),
    after: (WorldView, Map<Entity, BrushView>, CommandHistory),
    action: Option<MenuAction>,
    target: Option<Entity>,
    child: NewChild,
) -> bool {
    match (action, target) {
        (Some(MenuAction::Delete), _) => {
            &&& selection_deleted(before.0, after.0, before.2, after.2)
            &&& after.1 == before.1
        },
        (Some(MenuAction::Duplicate), _) => {
            &&& after.0 == unmarked(before.0, before.0.selection)
            &&& after.1 == before.1
            &&& after.2 == before.2
        },
        (Some(MenuAction::AddChild(template)), Some(t)) => child_recorded(
            before,
            after,
            t,
            template,
            child,
        ),
        _ => after == before,
    }
}

/// The entities that saving a prefab packs: the selection, unless the menu was opened on an entity
/// outside of it.
pub open spec fn prefab_roots(selection: Seq<Entity>, target: Option<Entity>) -> Seq<Entity> {
    match target {
        Some(t) => if selection.contains(t) {
            selection
        } else {
            seq![t]
        },
        None => selection,
    }
}

/// The name that a scene's prefab is offered under: that of the tab, unless it has none of its own.
pub open spec fn scene_prefab_name(tab: Option<Seq<char>>) -> Seq<char> {
    match tab {
        Some(t) => if trimmed(t).len() > 0 && !"untitled"@.is_prefix_of(trimmed(t)) {
            trimmed(t)
        } else {
            "prefab"@
        },
        None => "prefab"@,
    }
}

/// What is pending after an action.
pub open spec fn pending_after(
    w: WorldView,
    action: Option<MenuAction>,
    target: Option<Entity>,
    tab: Option<Seq<char>>,
    roots: Seq<Entity>,
    mode: PrefabSaveMode,
    name: Seq<char>,
) -> (Seq<Entity>, PrefabSaveMode, Seq<char>) {
    match action {
        Some(MenuAction::SavePrefab) => {
            let packed = prefab_roots(w.selection, target);
            if packed.len() == 0 {
                (roots, mode, name)
            } else {
                (
                    packed,
                    PrefabSaveMode::Prefab,
                    match name_of(w, packed[0]) {
                        Some(n) => n,
                        None => "prefab"@,
                    },
                )
            }
        },
        Some(MenuAction::SaveScene) => (
            Seq::empty(),
            PrefabSaveMode::Scene,
            scene_prefab_name(tab),
        ),
        Some(MenuAction::SaveVariant) => match target {
            Some(t) => (
                seq![t],
                PrefabSaveMode::Variant,
                match name_of(w, t) {
                    Some(n) => n + "_variant"@,
                    None => "variant"@,
                },
            ),
            None => (roots, mode, name),
        },
        _ => (roots, mode, name),
    }
}

/// Whether an effect is the one that an action has.
pub open spec fn effect_of(
    w: WorldView,
    action: Seq<char>,
    target: Option<Entity>,
    child: NewChild,
    effect: MenuEffect,
) -> bool {
    match action_named(action) {
        Some(MenuAction::Focus) => match target {
            Some(t) => effect == MenuEffect::Focus(t),
            None => effect is Nothing,
        },
        Some(MenuAction::Rename) => match target {
            Some(t) => effect == MenuEffect::Rename(t),
            None => effect is Nothing,
        },
        Some(MenuAction::Duplicate) => effect matches MenuEffect::Duplicate { plans: p } && p@
            == plans(w, w.selection),
        Some(MenuAction::Delete) => effect is Deleted,
        Some(MenuAction::AddChild(template)) => match target {
            Some(t) => effect == (MenuEffect::ChildAdded {
                plan: transform_plan(Some(t), child.entity_placed, child.parent_placed),
            }),
            None => effect is Nothing,
        },
        Some(MenuAction::SavePrefab) => effect matches MenuEffect::OpenDialog { title, confirm }
            && title@ == "Save as Prefab"@ && confirm@ == "Save"@,
        Some(MenuAction::SaveScene) => effect matches MenuEffect::OpenDialog { title, confirm }
            && title@ == "Save Scene as Prefab"@ && confirm@ == "Save"@,
        Some(MenuAction::SaveVariant) => match target {
            Some(t) => effect matches MenuEffect::OpenDialog { title, confirm } && title@
                == "Save as Variant"@ && confirm@ == "Save"@,
            None => effect is Nothing,
        },
        Some(MenuAction::RevertAll) => match target {
            Some(t) => if w.doc.node_of(t) is Some {
                effect matches MenuEffect::PrefabOperator { id, instance } && id@
                    == "prefab.revert_all"@ && instance == t
            } else {
                effect is Nothing
            },
            None => effect is Nothing,
        },
        Some(MenuAction::ApplyAllToSource) => match target {
            Some(t) => match w.doc.node_of(t) {
                Some(node) => effect == (MenuEffect::ApplyAllToSource { node }),
                None => effect is Nothing,
            },
            None => effect is Nothing,
        },
        Some(MenuAction::Unbundle) => match target {
            Some(t) => effect matches MenuEffect::PrefabOperator { id, instance } && id@
                == "prefab.unbundle_instance"@ && instance == t,
            None => effect is Nothing,
        },
        None => if OP_PREFIX@.is_prefix_of(action) {
            effect matches MenuEffect::RunOperator { operator } && operator@ == action.subrange(
                OP_PREFIX@.len() as int,
                action.len() as int,
            )
        } else {
            effect is Nothing
        },
    }
}

fn set_pending(
    pending: &mut PendingPrefabSave,
    default_name: &mut PendingPrefabDefaultName,
    roots: Vec<Entity>,
    mode: PrefabSaveMode,
    name: String,
)
    ensures
        final(pending).roots@ == roots@,
        final(pending).mode == mode,
        final(default_name).name@ == name@,
{
    pending.roots = roots;
    pending.mode = mode;
    default_name.name = name;
}

/// Carries out an action of the menu, and tells what is left to do. `tab` is the name of the tab that
/// is shown, and `child` what an entity is made from if the action adds one.
pub fn on_context_menu_action(
    world: &mut SceneWorld,
    brushes: &mut Brushes,
    history: &mut CommandHistory,
    pending: &mut PendingPrefabSave,
    default_name: &mut PendingPrefabDefaultName,
    action: &str,
    target: Option<Entity>,
    tab: Option<String>,
    child: NewChild,
) -> (r: MenuEffect)
    requires
        ready_for(*old(world), action_named(action@), target, child.entity),
    ensures
        effect_of(old(world)@, action@, target, child, r),
        carried_out(
            (old(world)@, old(brushes)@, *old(history)),
            (final(world)@, final(brushes)@, *final(history)),
            action_named(action@),
            target,
            child,
        ),
        (final(pending).roots@, final(pending).mode, final(default_name).name@) == pending_after(
            old(world)@,
            action_named(action@),
            target,
            text_of(tab),
            old(pending).roots@,
            old(pending).mode,
            old(default_name).name@,
        ),
{
    match parse_action(action) {
        Some(MenuAction::Focus) => match target {
            Some(t) => MenuEffect::Focus(t),
            None => MenuEffect::Nothing,
        },
        Some(MenuAction::Rename) => match target {
            Some(t) => MenuEffect::Rename(t),
            None => MenuEffect::Nothing,
        },
        Some(MenuAction::Duplicate) => MenuEffect::Duplicate { plans: duplicate_selected(world) },
        Some(MenuAction::Delete) => {
            delete_selected(world, history);
            MenuEffect::Deleted
        },
        Some(MenuAction::AddChild(template)) => match target {
            Some(t) => {
                let plan: TransformPlan = add_child_entity(
                    world,
                    brushes,
                    history,
                    t,
                    template,
                    child.entity,
                    child.supplies,
                    child.last_material,
                    child.entity_placed,
                    child.parent_placed,
                );
                MenuEffect::ChildAdded { plan }
            },
            None => MenuEffect::Nothing,
        },
        Some(MenuAction::SavePrefab) => {
            let roots: Vec<Entity> = roots_to_pack(world, target);
            if roots.len() > 0 {
                let name: String = match world.name(roots[0]) {
                    Some(n) => n,
                    None => "prefab".to_owned(),
                };
                set_pending(pending, default_name, roots, PrefabSaveMode::Prefab, name);
            }
            MenuEffect::OpenDialog { title: "Save as Prefab", confirm: "Save" }
        },
        Some(MenuAction::SaveScene) => {
            let name: String = name_for_scene(tab);
            set_pending(pending, default_name, Vec::new(), PrefabSaveMode::Scene, name);
            MenuEffect::OpenDialog { title: "Save Scene as Prefab", confirm: "Save" }
        },
        Some(MenuAction::SaveVariant) => match target {
            Some(t) => {
                let name: String = match world.name(t) {
                    Some(n) => n.concat("_variant"),
                    None => "variant".to_owned(),
                };
                let mut roots: Vec<Entity> = Vec::new();
                roots.push(t);
                assert(roots@ =~= seq![t]);
                set_pending(pending, default_name, roots, PrefabSaveMode::Variant, name);
                MenuEffect::OpenDialog { title: "Save as Variant", confirm: "Save" }
            },
            None => MenuEffect::Nothing,
        },
        Some(MenuAction::RevertAll) => match target {
            Some(t) => if world.document.ast_for(t).is_some() {
                MenuEffect::PrefabOperator { id: "prefab.revert_all", instance: t }
            } else {
                MenuEffect::Nothing
            },
            None => MenuEffect::Nothing,
        },
        Some(MenuAction::ApplyAllToSource) => match target {
            Some(t) => match world.document.ast_for(t) {
                Some(node) => MenuEffect::ApplyAllToSource { node },
                None => MenuEffect::Nothing,
            },
            None => MenuEffect::Nothing,
        },
        Some(MenuAction::Unbundle) => match target {
            Some(t) => MenuEffect::PrefabOperator {
                id: "prefab.unbundle_instance",
                instance: t,
            },
            None => MenuEffect::Nothing,
        },
        None => if starts_with(action, OP_PREFIX) {
            let operator: String = action.substring_char(
                OP_PREFIX.unicode_len(),
                action.unicode_len(),
            ).to_owned();
            MenuEffect::RunOperator { operator }
        } else {
            MenuEffect::Nothing
        },
    }
}

/// The entities that saving a prefab packs.
fn roots_to_pack(world: &SceneWorld, target: Option<Entity>) -> (r: Vec<Entity>)
    ensures
        r@ == prefab_roots(world@.selection, target),
{
    match target {
        Some(t) => if contains(&world.selection, t) {
            copied(&world.selection)
        } else {
            let mut one: Vec<Entity> = Vec::new();
            one.push(t);
            assert(one@ =~= seq![t]);
            one
        },
        None => copied(&world.selection),
    }
}

fn name_for_scene(tab: Option<String>) -> (r: String)
    ensures
        r@ == scene_prefab_name(text_of(tab)),
{
    match tab {
        Some(t) => {
            let name: String = trim(t.as_str());
            if name.as_str().unicode_len() > 0 && !starts_with(name.as_str(), "untitled") {
                name
            } else {
                "prefab".to_owned()
            }
        },
        None => "prefab".to_owned(),
    }
}

/// Whether a scene became another by adding an entity of a template below a parent.
pub open spec fn child_added(
    before: WorldView,
    after: WorldView,
    template: EntityTemplate,
    entity: Entity,
    values: Seq<PartValue>,
    brush: Option<BrushView>,
    parent: Entity,
) -> bool {
    exists|mid: WorldView|
        {
            &&& #[trigger] enrolled(
                with_template(before, template, entity, values, brush),
                mid,
                entity,
            )
            &&& after == mid.located(
                entity,
                LocationView { parent: Some(parent), index: usize::MAX as nat, slot: None },
            )
        }
}

/// Adds an entity of a template to the scene and its document, as a step of the history, and moves it
/// below a parent. Returns what has to be done about the transform of the entity.
pub fn add_child_entity(
    world: &mut SceneWorld,
    brushes: &mut Brushes,
    history: &mut CommandHistory,
    parent: Entity,
    template: EntityTemplate,
    entity: Entity,
    supplies: Supplies,
    last_material: Option<u64>,
    entity_placed: bool,
    parent_placed: bool,
) -> (plan: TransformPlan)
    requires
        old(world).document.wf(),
        old(world).document.next_node < u64::MAX,
        old(world)@.alive(parent),
        parent != entity,
    ensures
        old(history).spawn_recorded(*final(history), entity, "Add "@ + template.label_spec()),
        plan == transform_plan(Some(parent), entity_placed, parent_placed),
        ({
            let brush = template_brush(template, supplies.shape, last_material);
            &&& child_added(
                old(world)@,
                final(world)@,
                template,
                entity,
                supplies.values@,
                brush,
                parent,
            )
            &&& final(brushes)@ == with_new_brush(old(brushes)@, entity, brush)
        }),
        final(world).document.next_node == old(world).document.next_node + nodes_for(
            old(world)@.doc,
            entity,
        ),
{
    let ghost before = world@;
    let ghost values = supplies.values@;
    let ghost brush = template_brush(template, supplies.shape, last_material);
    create_entity_in_world(world, brushes, history, template, entity, supplies, last_material);
    let ghost mid = world@;
    proof {
        let name = template.entity_name_spec();
        let marks = template_marks(template);
        let parts = crate::templates::assembled(template.parts_spec(), values, brush);
        lemma_with_named(before, entity, name, marks, parts, entity);
        lemma_with_named(before, entity, name, marks, parts, parent);
        let named = with_template(before, template, entity, values, brush);
        assert(enrolled(named, mid, entity));
        assert(mid.entities == named.entities);
    }
    set_parent(world, entity, Some(parent), entity_placed, parent_placed)
}

/// The operators of the outliner and of prefabs.
pub open spec fn hierarchy_operators() -> Seq<&'static str> {
    seq![
        "RenameBeginOp",
        "HierarchyOpenContextMenuOp",
        "PrefabSaveAsPrefabOp",
        "PrefabSaveSceneAsPrefabOp",
        "PrefabSaveAsVariantOp",
        "PrefabSaveOp",
        "PrefabSpawnInstanceOp",
        "PrefabRevertFieldOp",
        "PrefabRevertComponentOp",
        "PrefabRevertAllOp",
        "PrefabApplyToSourceOp",
        "PrefabBulkApplyInSceneOp",
        "PrefabSaveAsVariantEntityOp",
        "PrefabUnpackChildOp",
        "PrefabUnbundleInstanceOp",
        "PrefabRepairSelfCyclesOp",
    ]
}

/// The keys of the outliner; the right mouse button opens the menu.
pub open spec fn hierarchy_bindings() -> Seq<Binding> {
    seq![
        bound("HierarchyOpenContextMenuOp", KeyInput::key_spec("MouseRight")),
        bound("RenameBeginOp", KeyInput::key_spec("F2")),
    ]
}

/// Registers the operators of the outliner and of prefabs and binds their keys.
pub fn add_to_extension(ctx: &mut ExtensionContext)
    ensures
        final(ctx).operators@ == old(ctx).operators@ + hierarchy_operators(),
        final(ctx).bindings@ == old(ctx).bindings@ + hierarchy_bindings(),
        final(ctx).features@ == old(ctx).features@,
{
    let operators: Vec<&'static str> = vec![
        "RenameBeginOp",
        "HierarchyOpenContextMenuOp",
        "PrefabSaveAsPrefabOp",
        "PrefabSaveSceneAsPrefabOp",
        "PrefabSaveAsVariantOp",
        "PrefabSaveOp",
        "PrefabSpawnInstanceOp",
        "PrefabRevertFieldOp",
        "PrefabRevertComponentOp",
        "PrefabRevertAllOp",
        "PrefabApplyToSourceOp",
        "PrefabBulkApplyInSceneOp",
        "PrefabSaveAsVariantEntityOp",
        "PrefabUnpackChildOp",
        "PrefabUnbundleInstanceOp",
        "PrefabRepairSelfCyclesOp",
    ];
    assert(operators@ =~= hierarchy_operators());
    ctx.register_operators(&operators);
    let bindings: Vec<Binding> = vec![
        bind("HierarchyOpenContextMenuOp", KeyInput::key("MouseRight")),
        bind("RenameBeginOp", KeyInput::key("F2")),
    ];
    assert(bindings@ =~= hierarchy_bindings());
    ctx.bind_operators(&bindings);
}

/// The keys of the outliner run operators that are registered.
pub proof fn law_hierarchy_bindings_resolve()
    ensures
        bindings_resolve(hierarchy_operators(), hierarchy_bindings()),
{
    let ops = hierarchy_operators();
    let bs = hierarchy_bindings();
    assert forall|i: int| 0 <= i < bs.len() implies ops.contains((#[trigger] bs[i]).operator) by {
        assert(ops[1 - i] == bs[i].operator);
    }
}

/// Every action of the menu's own items begins like this.
proof fn lemma_action_names()
    ensures
        forall|a: Seq<char>| #[trigger] action_named(a) is Some ==> a.len() > 0 && a[0] == 'h',
{
    reveal_strlit("hierarchy.focus");
    reveal_strlit("hierarchy.rename");
    reveal_strlit("hierarchy.duplicate");
    reveal_strlit("hierarchy.delete");
    reveal_strlit("hierarchy.add_cube");
    reveal_strlit("hierarchy.add_sphere");
    reveal_strlit("hierarchy.add_light");
    reveal_strlit("hierarchy.add_empty");
    reveal_strlit("hierarchy.save_prefab");
    reveal_strlit("hierarchy.save_scene_as_prefab");
    reveal_strlit("hierarchy.prefab.revert_all");
    reveal_strlit("hierarchy.prefab.save_as_variant");
    reveal_strlit("hierarchy.prefab.apply_all_to_source");
    reveal_strlit("hierarchy.prefab.unbundle_instance");
}

/// Every item that the menu brings itself asks for something, and the items that add a child are there
/// for a cube, a sphere, a light and an empty entity.
pub proof fn law_menu_items_are_actions(i: int)
    ensures
        0 <= i < general_items().len() ==> action_named(general_items()[i].action) is Some,
        0 <= i < instance_items().len() ==> action_named(instance_items()[i].action) is Some,
        general_items().contains(entry("hierarchy.add_cube", "Add Child Cube")),
        general_items().contains(entry("hierarchy.add_sphere", "Add Child Sphere")),
        general_items().contains(entry("hierarchy.add_light", "Add Child Light")),
        general_items().contains(entry("hierarchy.add_empty", "Add Child Empty")),
{
    let items = general_items();
    assert(items[6] == entry("hierarchy.add_cube", "Add Child Cube"));
    assert(items[7] == entry("hierarchy.add_sphere", "Add Child Sphere"));
    assert(items[8] == entry("hierarchy.add_light", "Add Child Light"));
    assert(items[9] == entry("hierarchy.add_empty", "Add Child Empty"));
}

/// An entry of the add menu brings an item that says `Add` and its label. Choosing that item runs the
/// operator of the entry.
pub proof fn law_extension_item_runs_its_operator(
    entries: Seq<RegisteredMenuEntry>,
    i: int,
    w: WorldView,
    target: Option<Entity>,
    child: NewChild,
    effect: MenuEffect,
)
    requires
        0 <= i < entries.len(),
        entries[i].in_add_menu,
        effect_of(w, "op:"@ + entries[i].operator_id@, target, child, effect),
    ensures
        add_items(entries).contains(
            ItemView {
                action: "op:"@ + entries[i].operator_id@,
                label: "Add "@ + entries[i].label@,
            },
        ),
        effect matches MenuEffect::RunOperator { operator } && operator@
            == entries[i].operator_id@,
{
    lemma_action_names();
    reveal_strlit("op:");
    let id = entries[i].operator_id@;
    let action = "op:"@ + id;
    assert(action[0] == 'o');
    assert(action_named(action) is None);
    assert("op:"@.is_prefix_of(action)) by {
        assert(action.subrange(0, "op:"@.len() as int) =~= "op:"@);
    }
    assert(action.subrange("op:"@.len() as int, action.len() as int) =~= id);
    lemma_add_items(entries, i);
}

proof fn lemma_add_items(entries: Seq<RegisteredMenuEntry>, i: int)
    requires
        0 <= i < entries.len(),
        entries[i].in_add_menu,
    ensures
        add_items(entries).contains(
            ItemView {
                action: "op:"@ + entries[i].operator_id@,
                label: "Add "@ + entries[i].label@,
            },
        ),
    decreases entries.len(),
{
    let init = entries.drop_last();
    let last = entries.len() - 1;
    let before = add_items(init);
    let after = add_items(entries);
    let item = ItemView {
        action: "op:"@ + entries[i].operator_id@,
        label: "Add "@ + entries[i].label@,
    };
    if i < last {
        assert(init[i] == entries[i]);
        lemma_add_items(init, i);
        let k = choose|k: int| 0 <= k < before.len() && before[k] == item;
        assert(after[k] == item);
    } else {
        assert(after[before.len() as int] == item);
    }
}

/// Entries of other menus bring no item: there are as many items as entries of the add menu.
pub proof fn law_only_the_add_menu_brings_items(
    before: Seq<RegisteredMenuEntry>,
    entry: RegisteredMenuEntry,
)
    ensures
        !entry.in_add_menu ==> add_items(before.push(entry)) == add_items(before),
        entry.in_add_menu ==> add_items(before.push(entry)).len() == add_items(before).len() + 1,
        add_items(Seq::empty()).len() == 0,
{
    assert(before.push(entry).drop_last() =~= before);
}

/// Saving a prefab packs the entity that the menu was opened on: with the whole selection when it is
/// selected, and otherwise alone. Without such an entity it packs the selection.
pub proof fn law_packed_roots(selection: Seq<Entity>, target: Option<Entity>)
    ensures
        target matches Some(t) ==> prefab_roots(selection, target).contains(t),
        target matches Some(t) ==> !selection.contains(t) ==> prefab_roots(selection, target).len()
            == 1,
        target matches Some(t) ==> selection.contains(t) ==> prefab_roots(selection, target)
            == selection,
        target is None ==> prefab_roots(selection, target) == selection,
{
    if let Some(t) = target {
        if !selection.contains(t) {
            assert(prefab_roots(selection, target)[0] == t);
        }
    }
}

/// What a dialog offers as the name of a prefab: that of the first packed entity; for a variant that of
/// the instance and what marks it as a variant; for a scene that of its tab, unless it has none of its
/// own. Other actions leave what is pending.
pub proof fn law_offered_names(
    w: WorldView,
    target: Option<Entity>,
    tab: Option<Seq<char>>,
    roots: Seq<Entity>,
    mode: PrefabSaveMode,
    name: Seq<char>,
    e: Entity,
    n: Seq<char>,
)
    requires
        w.alive(e),
        w.entities[e].name == Some(n),
    ensures
        ({
            let pack = pending_after(w, Some(MenuAction::SavePrefab), target, tab, roots, mode, name);
            let variant = pending_after(
                w,
                Some(MenuAction::SaveVariant),
                Some(e),
                tab,
                roots,
                mode,
                name,
            );
            let scene = pending_after(w, Some(MenuAction::SaveScene), target, tab, roots, mode, name);
            &&& target == Some(e) && !w.selection.contains(e) ==> pack == (
                seq![e],
                PrefabSaveMode::Prefab,
                n,
            )
            &&& w.selection.len() > 0 && w.selection[0] == e && (target is None
                || w.selection.contains(target->0)) ==> pack == (
                w.selection,
                PrefabSaveMode::Prefab,
                n,
            )
            &&& w.selection.len() == 0 && target is None ==> pack == (roots, mode, name)
            &&& variant.0 == seq![e]
            &&& variant.1 == PrefabSaveMode::Variant
            &&& variant.2 == n + "_variant"@
            &&& scene.0.len() == 0
            &&& scene.1 == PrefabSaveMode::Scene
            &&& scene.2.len() > 0
            &&& !"untitled"@.is_prefix_of(scene.2)
            &&& tab is Some && trimmed(tab->0).len() > 0 && !"untitled"@.is_prefix_of(
                trimmed(tab->0),
            ) ==> scene.2 == trimmed(tab->0)
            &&& pending_after(w, Some(MenuAction::Delete), target, tab, roots, mode, name) == (
                roots,
                mode,
                name,
            )
            &&& pending_after(w, None, target, tab, roots, mode, name) == (roots, mode, name)
        }),
{
    reveal_strlit("prefab");
    reveal_strlit("untitled");
    assert("prefab"@.len() == 6);
    assert("untitled"@.len() == 8);
}

/// A child that the menu adds is alive below the entity that the menu was opened on, as its last child,
/// with the name of its template.
pub proof fn law_added_child_is_below(
    before: WorldView,
    after: WorldView,
    template: EntityTemplate,
    entity: Entity,
    values: Seq<PartValue>,
    brush: Option<BrushView>,
    parent: Entity,
)
    requires
        before.alive(parent),
        parent != entity,
        child_added(before, after, template, entity, values, brush, parent),
        before.entities[parent].children.len() < usize::MAX,
        !before.entities[parent].children.contains(entity),
    ensures
        after.alive(entity),
        after.entities[entity].parent == Some(parent),
        after.entities[entity].name == Some(template.entity_name_spec()),
        after.entities[parent].children == before.entities[parent].children.push(entity),
        after.selection == seq![entity],
{
    let name = template.entity_name_spec();
    let marks = template_marks(template);
    let parts = crate::templates::assembled(template.parts_spec(), values, brush);
    let named = with_template(before, template, entity, values, brush);
    lemma_with_named(before, entity, name, marks, parts, entity);
    lemma_with_named(before, entity, name, marks, parts, parent);
    let place = LocationView { parent: Some(parent), index: usize::MAX as nat, slot: None };
    let mid = choose|mid: WorldView|
        #[trigger] enrolled(named, mid, entity) && after == mid.located(entity, place);
    assert(mid.entities == named.entities);
    assert(mid.selection == seq![entity]);
}

/// A scene's prefab is offered under the name of the tab, without white space around it. A tab without
/// a name, or one that is called untitled, gives the plain word instead.
pub proof fn law_scene_prefab_name(tab: Option<Seq<char>>)
    ensures
        ({
            let name = scene_prefab_name(tab);
            let own = tab is Some && trimmed(tab->0).len() > 0 && !"untitled"@.is_prefix_of(
                trimmed(tab->0),
            );
            &&& own ==> name == trimmed(tab->0)
            &&& !own ==> name == "prefab"@
            &&& name.len() > 0
            &&& !"untitled"@.is_prefix_of(name)
        }),
{
    reveal_strlit("prefab");
    reveal_strlit("untitled");
    if "untitled"@.is_prefix_of("prefab"@) {
        assert("untitled"@.len() <= "prefab"@.len());
    }
}

/// Each item of the menu does what it says, to the entity that the menu was opened on.
pub proof fn law_items_do_what_they_say(
    w: WorldView,
    t: Entity,
    child: NewChild,
    effect: MenuEffect,
)
    ensures
        effect_of(w, "hierarchy.focus"@, Some(t), child, effect) ==> effect == MenuEffect::Focus(t),
        effect_of(w, "hierarchy.rename"@, Some(t), child, effect) ==> effect == MenuEffect::Rename(
            t,
        ),
        effect_of(w, "hierarchy.delete"@, Some(t), child, effect) ==> effect is Deleted,
        effect_of(w, "hierarchy.duplicate"@, Some(t), child, effect) ==> effect is Duplicate,
        effect_of(w, "hierarchy.add_cube"@, Some(t), child, effect) ==> effect is ChildAdded,
        effect_of(w, "hierarchy.prefab.unbundle_instance"@, Some(t), child, effect) ==> (
        effect matches MenuEffect::PrefabOperator { id, instance } && id@
            == "prefab.unbundle_instance"@ && instance == t),
        w.doc.links.contains_key(t) && effect_of(
            w,
            "hierarchy.prefab.revert_all"@,
            Some(t),
            child,
            effect,
        ) ==> (effect matches MenuEffect::PrefabOperator { id, instance } && id@
            == "prefab.revert_all"@ && instance == t),
        w.doc.links.contains_key(t) && effect_of(
            w,
            "hierarchy.prefab.apply_all_to_source"@,
            Some(t),
            child,
            effect,
        ) ==> effect == (MenuEffect::ApplyAllToSource { node: w.doc.links[t] }),
{
    lemma_actions_differ();
}

/// The names of the actions tell them apart.
proof fn lemma_actions_differ()
    ensures
        action_named("hierarchy.focus"@) == Some(MenuAction::Focus),
        action_named("hierarchy.rename"@) == Some(MenuAction::Rename),
        action_named("hierarchy.duplicate"@) == Some(MenuAction::Duplicate),
        action_named("hierarchy.delete"@) == Some(MenuAction::Delete),
        action_named("hierarchy.add_cube"@) == Some(MenuAction::AddChild(EntityTemplate::Cube)),
        action_named("hierarchy.prefab.revert_all"@) == Some(MenuAction::RevertAll),
        action_named("hierarchy.prefab.apply_all_to_source"@) == Some(MenuAction::ApplyAllToSource),
        action_named("hierarchy.prefab.unbundle_instance"@) == Some(MenuAction::Unbundle),
{
    reveal_strlit("hierarchy.focus");
    reveal_strlit("hierarchy.rename");
    reveal_strlit("hierarchy.duplicate");
    reveal_strlit("hierarchy.delete");
    reveal_strlit("hierarchy.add_cube");
    reveal_strlit("hierarchy.add_sphere");
    reveal_strlit("hierarchy.add_light");
    reveal_strlit("hierarchy.add_empty");
    reveal_strlit("hierarchy.save_prefab");
    reveal_strlit("hierarchy.save_scene_as_prefab");
    reveal_strlit("hierarchy.prefab.revert_all");
    reveal_strlit("hierarchy.prefab.save_as_variant");
    reveal_strlit("hierarchy.prefab.apply_all_to_source");
    reveal_strlit("hierarchy.prefab.unbundle_instance");
    assert("hierarchy.focus"@.len() == 15);
    assert("hierarchy.rename"@.len() == 16);
    assert("hierarchy.duplicate"@.len() == 19);
    assert("hierarchy.delete"@.len() == 16);
    assert("hierarchy.add_cube"@.len() == 18);
    assert("hierarchy.add_sphere"@.len() == 20);
    assert("hierarchy.add_light"@.len() == 19);
    assert("hierarchy.add_empty"@.len() == 19);
    assert("hierarchy.save_prefab"@.len() == 21);
    assert("hierarchy.save_scene_as_prefab"@.len() == 30);
    assert("hierarchy.prefab.revert_all"@.len() == 27);
    assert("hierarchy.prefab.save_as_variant"@.len() == 32);
    assert("hierarchy.prefab.apply_all_to_source"@.len() == 36);
    assert("hierarchy.prefab.unbundle_instance"@.len() == 34);
    assert("hierarchy.rename"@[10] == 'r');
    assert("hierarchy.delete"@[10] == 'd');
}

/// While duplicates are made, nothing of what was selected is marked. Adding and deleting aside, no
/// action changes the brushes.
pub proof fn law_duplicating_takes_marks_off(
    before: (WorldView, Map<Entity, BrushView>, CommandHistory),
    after: (WorldView, Map<Entity, BrushView>, CommandHistory),
    target: Option<Entity>,
    child: NewChild,
    e: Entity,
)
    requires
        carried_out(before, after, Some(MenuAction::Duplicate), target, child),
        before.0.selection.contains(e),
        before.0.alive(e),
    ensures
        after.0.alive(e),
        !after.0.entities[e].marks.selected,
        after.1 == before.1,
        after.2 == before.2,
{
    lemma_unmarked_mark(before.0, before.0.selection, e);
}

/// The menu of an entity holds the general items, those of extensions, and for the root of a prefab
/// instance those for instances, each of them and no other. Those for instances come first.
pub proof fn law_menu_holds_its_items(
    items: Seq<ItemView>,
    instance: bool,
    entries: Seq<RegisteredMenuEntry>,
    x: ItemView,
)
    requires
        menu_for(items, instance, entries),
    ensures
        items.contains(x) <==> general_items().contains(x) || add_items(entries).contains(x) || (
        instance && instance_items().contains(x)),
        instance ==> items.subrange(0, 4) == instance_items(),
        !instance ==> items.subrange(0, 10) == general_items(),
        items.len() == 10 + add_items(entries).len() + (if instance {
            4int
        } else {
            0
        }),
{
    broadcast use vstd::seq_lib::group_to_multiset_ensures;

    let more = choose|more: Seq<ItemView>| #[trigger]
        sorted_items(more, add_items(entries)) && items == (if instance {
            instance_items()
        } else {
            Seq::empty()
        }) + general_items() + more;
    let s = choose|s: Seq<MenuItem>| #[trigger]
        items_view(s) == add_items(entries) && more == items_view(stably_sorted(s));
    let sorted = stably_sorted(s);
    law_sorted(s);
    assert(sorted.len() == s.len()) by {
        assert(sorted.to_multiset().len() == s.to_multiset().len());
    }
    assert(more.contains(x) <==> add_items(entries).contains(x)) by {
        if more.contains(x) {
            let i = choose|i: int| 0 <= i < more.len() && more[i] == x;
            assert(sorted.to_multiset().count(sorted[i]) > 0);
            assert(s.contains(sorted[i]));
            let k = choose|k: int| 0 <= k < s.len() && s[k] == sorted[i];
            assert(items_view(s)[k] == x);
        }
        if items_view(s).contains(x) {
            let k = choose|k: int| 0 <= k < items_view(s).len() && items_view(s)[k] == x;
            assert(s.to_multiset().count(s[k]) > 0);
            assert(sorted.contains(s[k]));
            let i = choose|i: int| 0 <= i < sorted.len() && sorted[i] == s[k];
            assert(more[i] == x);
        }
    }
    let first: Seq<ItemView> = if instance {
        instance_items()
    } else {
        Seq::empty()
    };
    lemma_items_joined(first, general_items(), x);
    lemma_items_joined(first + general_items(), more, x);
    if instance {
        assert(items.subrange(0, 4) =~= instance_items());
    } else {
        assert(items.subrange(0, 10) =~= general_items());
    }
}

proof fn lemma_items_joined(a: Seq<ItemView>, b: Seq<ItemView>, x: ItemView)
    ensures
        (a + b).contains(x) <==> a.contains(x) || b.contains(x),
{
    let both = a + b;
    if a.contains(x) {
        let i = choose|i: int| 0 <= i < a.len() && a[i] == x;
        assert(both[i] == x);
    }
    if b.contains(x) {
        let i = choose|i: int| 0 <= i < b.len() && b[i] == x;
        assert(both[a.len() + i] == x);
    }
    if both.contains(x) {
        let i = choose|i: int| 0 <= i < both.len() && both[i] == x;
        if i < a.len() {
            assert(a[i] == x);
        } else {
            assert(b[i - a.len()] == x);
        }
    }
}

} // verus!
