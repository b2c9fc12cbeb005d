//! The component picker: which components it offers, and in which sections.
use vstd::prelude::*;
use crate::seqs::{contains, lemma_push_contains};
use crate::text::{starts_with, text_eq};
use crate::value::Entity;
use crate::world::{SceneWorld, WorldView};

verus! {

/// The type paths that the picker never offers.
#[derive(Debug)]
pub struct PickerDenylist {
    pub paths: Vec<&'static str>,
    pub prefixes: Vec<&'static str>,
}

/// What a [`PickerDenylist`] stands for: the denied paths, and the prefixes of denied paths.
#[verifier::ext_equal]
pub ghost struct DenylistView {
    pub paths: Set<Seq<char>>,
    pub prefixes: Set<Seq<char>>,
}

pub open spec fn has_text(texts: Seq<&'static str>, text: Seq<char>) -> bool {
    exists|i: int| 0 <= i < texts.len() && (#[trigger] texts[i])@ == text
}

impl View for PickerDenylist {
    type V = DenylistView;

    open spec fn view(&self) -> DenylistView {
        DenylistView {
            paths: Set::new(|t: Seq<char>| has_text(self.paths@, t)),
            prefixes: Set::new(|t: Seq<char>| has_text(self.prefixes@, t)),
        }
    }
}

impl DenylistView {
    /// Whether a path is denied.
    pub open spec fn denies(self, type_path: Seq<char>) -> bool {
        self.paths.contains(type_path) || self.denies_prefix(type_path)
    }

    /// Whether a path begins with a denied prefix.
    pub open spec fn denies_prefix(self, type_path: Seq<char>) -> bool {
        exists|p: Seq<char>| #[trigger] self.prefixes.contains(p) && p.is_prefix_of(type_path)
    }

    pub open spec fn with_path(self, path: Seq<char>) -> DenylistView {
        DenylistView { paths: self.paths.insert(path), ..self }
    }

    pub open spec fn with_prefix(self, prefix: Seq<char>) -> DenylistView {
        DenylistView { prefixes: self.prefixes.insert(prefix), ..self }
    }
}

proof fn lemma_pushed_text(texts: Seq<&'static str>, added: &'static str)
    ensures
        forall|t: Seq<char>|
            #![trigger has_text(texts.push(added), t)]
            has_text(texts.push(added), t) <==> has_text(texts, t) || t == added@,
{
    let after = texts.push(added);
    assert forall|t: Seq<char>|
        #![trigger has_text(after, t)]
        has_text(after, t) <==> has_text(texts, t) || t == added@ by {
        if has_text(texts, t) {
            let i = choose|i: int| 0 <= i < texts.len() && (#[trigger] texts[i])@ == t;
            assert(after[i]@ == t);
        }
        if t == added@ {
            assert(after[texts.len() as int]@ == t);
        }
        if has_text(after, t) && t != added@ {
            let i = choose|i: int| 0 <= i < after.len() && (#[trigger] after[i])@ == t;
            assert(texts[i]@ == t);
        }
    }
}

impl Default for PickerDenylist {
    fn default() -> (r: PickerDenylist)
        ensures
            r@ == (DenylistView { paths: Set::empty(), prefixes: Set::empty() }),
    {
        let r: PickerDenylist = PickerDenylist { paths: Vec::new(), prefixes: Vec::new() };
        assert(r@ =~= (DenylistView { paths: Set::empty(), prefixes: Set::empty() }));
        r
    }
}

impl PickerDenylist {
    /// Denies a single type path.
    pub fn deny_path(&mut self, path: &'static str) -> (r: &mut PickerDenylist)
        ensures
            r@ == old(self)@.with_path(path@),
            *final(self) == *final(r),
    {
        let ghost before = self@;
        proof {
            lemma_pushed_text(self.paths@, path);
        }
        self.paths.push(path);
        assert(self@ =~= before.with_path(path@));
        self
    }

    /// Denies every type path that begins with `prefix`.
    pub fn deny_prefix(&mut self, prefix: &'static str) -> (r: &mut PickerDenylist)
        ensures
            r@ == old(self)@.with_prefix(prefix@),
            *final(self) == *final(r),
    {
        let ghost before = self@;
        proof {
            lemma_pushed_text(self.prefixes@, prefix);
        }
        self.prefixes.push(prefix);
        assert(self@ =~= before.with_prefix(prefix@));
        self
    }

    /// Whether a type path is denied.
    pub fn contains(&self, type_path: &str) -> (r: bool)
        ensures
            r == self@.denies(type_path@),
    {
        let mut i: usize = 0;
        while i < self.paths.len()
            invariant
                i <= self.paths.len(),
                forall|j: int| 0 <= j < i ==> (#[trigger] self.paths@[j])@ != type_path@,
            decreases self.paths.len() - i,
        {
            if text_eq(self.paths[i], type_path) {
                assert(self.paths@[i as int]@ == type_path@);
                assert(has_text(self.paths@, type_path@));
                return true;
            }
            i = i + 1;
        }
        let mut k: usize = 0;
        while k < self.prefixes.len()
            invariant
                k <= self.prefixes.len(),
                forall|j: int|
                    0 <= j < k ==> !(#[trigger] self.prefixes@[j])@.is_prefix_of(type_path@),
            decreases self.prefixes.len() - k,
        {
            if starts_with(type_path, self.prefixes[k]) {
                assert(has_text(self.prefixes@, self.prefixes@[k as int]@));
                assert(self@.prefixes.contains(self.prefixes@[k as int]@));
                return true;
            }
            k = k + 1;
        }
        proof {
            assert(!has_text(self.paths@, type_path@));
            if self@.denies_prefix(type_path@) {
                let p = choose|p: Seq<char>| #[trigger]
                    self@.prefixes.contains(p) && p.is_prefix_of(type_path@);
                assert(has_text(self.prefixes@, p));
                let j = choose|j: int|
                    0 <= j < self.prefixes@.len() && (#[trigger] self.prefixes@[j])@ == p;
                assert(!self.prefixes@[j]@.is_prefix_of(type_path@));
            }
        }
        false
    }
}

/// A path is denied from then on when it, or a prefix of it, was denied.
pub proof fn law_denied_path_is_denied(list: DenylistView, path: Seq<char>, prefix: Seq<char>)
    ensures
        list.with_path(path).denies(path),
        prefix.is_prefix_of(path) ==> list.with_prefix(prefix).denies(path),
{
    assert(list.with_prefix(prefix).prefixes.contains(prefix));
}

/// Denying a path or a prefix allows no path that was denied, and denies no other path than it or
/// those that begin with the prefix.
pub proof fn law_denial_only_adds(
    list: DenylistView,
    path: Seq<char>,
    prefix: Seq<char>,
    other: Seq<char>,
)
    ensures
        list.with_path(path).denies(other) <==> list.denies(other) || other == path,
        list.with_prefix(prefix).denies(other) <==> list.denies(other) || prefix.is_prefix_of(other),
{
    let longer = list.with_prefix(prefix);
    if list.denies_prefix(other) {
        let p = choose|p: Seq<char>| #[trigger]
            list.prefixes.contains(p) && p.is_prefix_of(other);
        assert(longer.prefixes.contains(p));
        assert(list.with_path(path).prefixes.contains(p));
    }
    if prefix.is_prefix_of(other) {
        assert(longer.prefixes.contains(prefix));
    }
    if longer.denies_prefix(other) {
        let p = choose|p: Seq<char>| #[trigger]
            longer.prefixes.contains(p) && p.is_prefix_of(other);
        assert(p == prefix || list.prefixes.contains(p));
    }
    if list.with_path(path).denies_prefix(other) {
        let p = choose|p: Seq<char>| #[trigger]
            list.with_path(path).prefixes.contains(p) && p.is_prefix_of(other);
        assert(list.prefixes.contains(p));
    }
}

/// The denylist with the inner workings of the physics engine on it.
pub open spec fn with_avian_internals(list: DenylistView) -> DenylistView {
    list.with_prefix("avian3d::dynamics::solver::"@).with_prefix(
        "avian3d::collider_tree::"@,
    ).with_prefix("avian3d::ancestor_marker::"@).with_prefix(
        "avian3d::dynamics::rigid_body::mass_properties::components::computed::"@,
    ).with_path("avian3d::dynamics::rigid_body::sleeping::SleepTimer"@).with_path(
        "avian3d::dynamics::rigid_body::sleeping::TimeToSleep"@,
    ).with_path("avian3d::dynamics::integrator::VelocityIntegrationData"@).with_path(
        "avian3d::dynamics::integrator::IntegrationFlags"@,
    ).with_path("avian3d::collision::collider::constructor::ColliderConstructor"@)
}

/// Denies the inner workings of the physics engine: the state of its solver, its lookup structures,
/// its bookkeeping of ancestors, the masses that it derives, its timers and scratch data, and the
/// constructor that only works next to a mesh.
pub fn populate_avian_picker_denylist(denylist: &mut PickerDenylist)
    ensures
        final(denylist)@ == with_avian_internals(old(denylist)@),
{
    denylist.deny_prefix("avian3d::dynamics::solver::");
    denylist.deny_prefix("avian3d::collider_tree::");
    denylist.deny_prefix("avian3d::ancestor_marker::");
    denylist.deny_prefix("avian3d::dynamics::rigid_body::mass_properties::components::computed::");
    denylist.deny_path("avian3d::dynamics::rigid_body::sleeping::SleepTimer");
    denylist.deny_path("avian3d::dynamics::rigid_body::sleeping::TimeToSleep");
    denylist.deny_path("avian3d::dynamics::integrator::VelocityIntegrationData");
    denylist.deny_path("avian3d::dynamics::integrator::IntegrationFlags");
    denylist.deny_path("avian3d::collision::collider::constructor::ColliderConstructor");
}

/// What is known of a type for its display.
#[derive(Debug)]
pub struct TypeChrome {
    /// The category that was given to the type.
    pub category: String,
    /// The group that it is shown in; empty for the game's own.
    pub group: String,
    /// The place of its group: groups with higher numbers come first.
    pub order: i32,
    pub description: String,
    pub hidden: bool,
}

/// A type of the registry.
#[derive(Debug)]
pub struct RegisteredType {
    pub type_id: u64,
    pub is_component: bool,
    /// A default value can be made of it.
    pub has_default: bool,
    pub short_name: String,
    pub module: Option<String>,
    pub full_path: String,
    pub chrome: TypeChrome,
}

/// A component that the picker offers.
#[derive(Debug)]
pub struct PickableComponent {
    pub short_name: String,
    pub module: String,
    pub category: String,
    pub authored_category: String,
    pub order: i32,
    pub description: String,
    pub type_path_full: String,
}

/// What a [`PickableComponent`] stands for.
#[verifier::ext_equal]
pub ghost struct PickableView {
    pub short_name: Seq<char>,
    pub module: Seq<char>,
    pub category: Seq<char>,
    pub authored_category: Seq<char>,
    pub order: i32,
    pub description: Seq<char>,
    pub type_path_full: Seq<char>,
}

impl View for PickableComponent {
    type V = PickableView;

    open spec fn view(&self) -> PickableView {
        PickableView {
            short_name: self.short_name@,
            module: self.module@,
            category: self.category@,
            authored_category: self.authored_category@,
            order: self.order,
            description: self.description@,
            type_path_full: self.type_path_full@,
        }
    }
}

pub open spec fn pickables_view(list: Seq<PickableComponent>) -> Seq<PickableView> {
    Seq::new(list.len(), |i: int| list[i]@)
}

/// Whether the picker offers a registered type: a component that a default can be made of, that the
/// entity does not have, and that is neither denied nor hidden.
pub open spec fn is_pickable(t: RegisteredType, existing: Seq<u64>, denylist: DenylistView) -> bool {
    &&& t.is_component
    &&& t.has_default
    &&& !existing.contains(t.type_id)
    &&& !denylist.denies(t.full_path@)
    &&& !t.chrome.hidden
}

/// How a registered type is offered.
pub open spec fn offered(t: RegisteredType) -> PickableView {
    PickableView {
        short_name: t.short_name@,
        module: match t.module {
            Some(m) => m@,
            None => Seq::empty(),
        },
        category: t.chrome.group@,
        authored_category: t.chrome.category@,
        order: t.chrome.order,
        description: t.chrome.description@,
        type_path_full: t.full_path@,
    }
}

/// The components that the picker offers of a registry, in its order.
pub open spec fn pickable_among(
    types: Seq<RegisteredType>,
    existing: Seq<u64>,
    denylist: DenylistView,
) -> Seq<PickableView>
    decreases types.len(),
{
    if types.len() == 0 {
        Seq::empty()
    } else {
        let before = pickable_among(types.drop_last(), existing, denylist);
        if is_pickable(types.last(), existing, denylist) {
            before.push(offered(types.last()))
        } else {
            before
        }
    }
}

/// The components of the registry that the picker offers for an entity with the types `existing`.
pub fn enumerate_pickable_components(
    types: &Vec<RegisteredType>,
    existing: &Vec<u64>,
    denylist: &PickerDenylist,
) -> (r: Vec<PickableComponent>)
    ensures
        pickables_view(r@) == pickable_among(types@, existing@, denylist@),
{
    let mut out: Vec<PickableComponent> = Vec::new();
    let mut i: usize = 0;
    assert(types@.subrange(0, 0) =~= Seq::empty());
    assert(pickables_view(out@) =~= Seq::empty());
    while i < types.len()
        invariant
            i <= types.len(),
            pickables_view(out@) == pickable_among(
                types@.subrange(0, i as int),
                existing@,
                denylist@,
            ),
        decreases types.len() - i,
    {
        proof {
            assert(types@.subrange(0, i + 1).drop_last() =~= types@.subrange(0, i as int));
            assert(types@.subrange(0, i + 1).last() == types@[i as int]);
        }
        let ghost before = pickables_view(out@);
        let t: &RegisteredType = &types[i];
        if t.is_component && t.has_default && !contains(existing, t.type_id) && !denylist.contains(
            t.full_path.as_str(),
        ) && !t.chrome.hidden {
            let module: String = match &t.module {
                Some(m) => m.clone(),
                None => String::new(),
            };
            let item: PickableComponent = PickableComponent {
                short_name: t.short_name.clone(),
                module,
                category: t.chrome.group.clone(),
                authored_category: t.chrome.category.clone(),
                order: t.chrome.order,
                description: t.chrome.description.clone(),
                type_path_full: t.full_path.clone(),
            };
            let ghost v = item@;
            assert(v =~= offered(*t));
            out.push(item);
            assert(pickables_view(out@) =~= before.push(v));
        }
        i = i + 1;
    }
    assert(types@.subrange(0, i as int) =~= types@);
    out
}

/// Whether the picker offers a type among others.
pub open spec fn is_offered(
    types: Seq<RegisteredType>,
    existing: Seq<u64>,
    denylist: DenylistView,
    item: PickableView,
) -> bool {
    exists|i: int|
        0 <= i < types.len() && is_pickable(#[trigger] types[i], existing, denylist) && offered(
            types[i],
        ) == item
}

/// The picker offers a component if and only if it is one of the registry's that may be picked.
pub proof fn law_picker_offers_what_may_be_picked(
    types: Seq<RegisteredType>,
    existing: Seq<u64>,
    denylist: DenylistView,
    item: PickableView,
)
    ensures
        pickable_among(types, existing, denylist).contains(item) <==> is_offered(
            types,
            existing,
            denylist,
            item,
        ),
    decreases types.len(),
{
    if types.len() > 0 {
        let init = types.drop_last();
        law_picker_offers_what_may_be_picked(init, existing, denylist, item);
        let before = pickable_among(init, existing, denylist);
        let after = pickable_among(types, existing, denylist);
        let last = types.len() - 1;
        assert(types[last] == types.last());
        if is_offered(init, existing, denylist, item) {
            let i = choose|i: int|
                0 <= i < init.len() && is_pickable(#[trigger] init[i], existing, denylist)
                    && offered(init[i]) == item;
            assert(types[i] == init[i]);
        }
        if before.contains(item) {
            let k = choose|k: int| 0 <= k < before.len() && before[k] == item;
            assert(after[k] == item);
        }
        if is_pickable(types.last(), existing, denylist) {
            assert(after[before.len() as int] == offered(types.last()));
            if after.contains(item) && offered(types.last()) != item {
                let k = choose|k: int| 0 <= k < after.len() && after[k] == item;
                assert(before[k] == item);
            }
        }
        if is_offered(types, existing, denylist, item) {
            let i = choose|i: int|
                0 <= i < types.len() && is_pickable(#[trigger] types[i], existing, denylist)
                    && offered(types[i]) == item;
            if i < last {
                assert(init[i] == types[i]);
            }
        }
    }
}

/// No denied type is offered.
pub proof fn law_denied_is_not_offered(
    types: Seq<RegisteredType>,
    existing: Seq<u64>,
    denylist: DenylistView,
    item: PickableView,
)
    requires
        denylist.denies(item.type_path_full),
    ensures
        !pickable_among(types, existing, denylist).contains(item),
{
    law_picker_offers_what_may_be_picked(types, existing, denylist, item);
}

/// The name of the section for the game's own components.
pub const GAME_SECTION: &'static str = "Game";

/// The section of the picker that a component stands in, and its place.
pub fn picker_section(group: &str, order: i32) -> (r: (String, i32))
    ensures
        r.0@ == (if group@.len() == 0 {
            "Game"@
        } else {
            group@
        }),
        r.1 == order,
{
    if group.unicode_len() == 0 {
        (GAME_SECTION.to_owned(), order)
    } else {
        (group.to_owned(), order)
    }
}

/// A component of the game project, with what is known of its display, and whether the document
/// has it on the entity already.
#[derive(Debug)]
pub struct ProjectChoice {
    pub short_name: String,
    pub module: String,
    pub type_path: String,
    pub chrome: TypeChrome,
    pub authored: bool,
}

/// How a component of the project is offered.
pub open spec fn project_offered(p: ProjectChoice) -> PickableView {
    PickableView {
        short_name: p.short_name@,
        module: p.module@,
        category: p.chrome.group@,
        authored_category: p.chrome.category@,
        order: p.chrome.order,
        description: p.chrome.description@,
        type_path_full: p.type_path@,
    }
}

/// The components of the project that are offered: those that are neither hidden nor there already.
pub open spec fn project_among(choices: Seq<ProjectChoice>) -> Seq<PickableView>
    decreases choices.len(),
{
    if choices.len() == 0 {
        Seq::empty()
    } else {
        let before = project_among(choices.drop_last());
        let p = choices.last();
        if p.chrome.hidden || p.authored {
            before
        } else {
            before.push(project_offered(p))
        }
    }
}

fn project_pickables(choices: &Vec<ProjectChoice>, out: &mut Vec<PickableComponent>)
    ensures
        pickables_view(final(out)@) == pickables_view(old(out)@) + project_among(choices@),
{
    let ghost start = pickables_view(out@);
    let mut i: usize = 0;
    assert(choices@.subrange(0, 0) =~= Seq::empty());
    assert(start + Seq::<PickableView>::empty() =~= start);
    while i < choices.len()
        invariant
            i <= choices.len(),
            pickables_view(out@) == start + project_among(choices@.subrange(0, i as int)),
        decreases choices.len() - i,
    {
        proof {
            assert(choices@.subrange(0, i + 1).drop_last() =~= choices@.subrange(0, i as int));
            assert(choices@.subrange(0, i + 1).last() == choices@[i as int]);
        }
        let ghost before = pickables_view(out@);
        let p: &ProjectChoice = &choices[i];
        if !p.chrome.hidden && !p.authored {
            let item: PickableComponent = PickableComponent {
                short_name: p.short_name.clone(),
                module: p.module.clone(),
                category: p.chrome.group.clone(),
                authored_category: p.chrome.category.clone(),
                order: p.chrome.order,
                description: p.chrome.description.clone(),
                type_path_full: p.type_path.clone(),
            };
            let ghost v = item@;
            assert(v =~= project_offered(*p));
            out.push(item);
            assert(pickables_view(out@) =~= before.push(v));
            assert(before.push(v) =~= start + project_among(choices@.subrange(0, i as int)).push(v));
        }
        i = i + 1;
    }
    assert(choices@.subrange(0, i as int) =~= choices@);
}

/// What a click on a button comes to.
#[derive(Debug)]
pub enum PickerStep {
    /// It was another button, or there is nothing to add to.
    Nothing,
    /// The open picker closes.
    Close(Entity),
    /// A picker opens for an entity.
    Open(Entity, Vec<PickableComponent>),
}

/// Whether the picker may open for an entity.
pub open spec fn may_pick_for(w: WorldView, e: Entity) -> bool {
    w.alive(e) && w.entities[e].marks.selected && !w.entities[e].marks.editor_entity
}

/// The title of the picker, and what its search field says when it is empty.
pub const PICKER_TITLE: &'static str = "Add Component";

pub const PICKER_PLACEHOLDER: &'static str = "Search Components..";

/// A click on the button that adds components. It closes a picker that is open; else it opens one
/// for the primary selected entity, with the components of the registry and then those of the
/// project.
pub fn on_add_component_button_click(
    world: &SceneWorld,
    is_add_button: bool,
    open_pickers: &Vec<Entity>,
    types: &Vec<RegisteredType>,
    existing: &Vec<u64>,
    denylist: &PickerDenylist,
    project: &Vec<ProjectChoice>,
) -> (r: PickerStep)
    ensures
        match r {
            PickerStep::Nothing => !is_add_button || (open_pickers@.len() == 0 && (
            world@.primary() matches Some(e) ==> !may_pick_for(world@, e))),
            PickerStep::Close(p) => is_add_button && open_pickers@.len() > 0 && p
                == open_pickers@[0],
            PickerStep::Open(e, items) => {
                &&& is_add_button
                &&& open_pickers@.len() == 0
                &&& world@.primary() == Some(e)
                &&& may_pick_for(world@, e)
                &&& pickables_view(items@) == pickable_among(types@, existing@, denylist@)
                    + project_among(project@)
            },
        },
        r matches PickerStep::Open(e, _) ==> world@.selection.contains(e) && world@.alive(e)
            && world@.entities[e].marks.selected && !world@.entities[e].marks.editor_entity,
        is_add_button && open_pickers@.len() == 0 && world@.selection.len() > 0 && world@.alive(
            world@.selection.last(),
        ) && world@.entities[world@.selection.last()].marks.selected
            && !world@.entities[world@.selection.last()].marks.editor_entity ==> r is Open,
{
    if !is_add_button {
        return PickerStep::Nothing;
    }
    if open_pickers.len() > 0 {
        return PickerStep::Close(open_pickers[0]);
    }
    let target: Entity = match world.primary() {
        Some(e) => e,
        None => {
            return PickerStep::Nothing;
        },
    };
    if !world.is_alive(target) || !world.marks(target).selected || world.marks(target).editor_entity {
        return PickerStep::Nothing;
    }
    let mut items: Vec<PickableComponent> = enumerate_pickable_components(
        types,
        existing,
        denylist,
    );
    project_pickables(project, &mut items);
    PickerStep::Open(target, items)
}

/// A component to add to an entity.
#[derive(Debug)]
pub struct AddRequest {
    pub entity: Entity,
    pub type_path: String,
}

/// The operator that a choice in the picker runs.
pub const ADD_COMPONENT_OPERATOR: &'static str = "component.add";

/// A choice in the picker: the component at that place is added to the picker's entity. There is none
/// at a place that is not there.
pub fn on_select(target: Entity, items: &Vec<PickableComponent>, index: usize) -> (r: Option<
    AddRequest,
>)
    ensures
        match r {
            Some(a) => index < items@.len() && a.entity == target && a.type_path@
                == items@[index as int].type_path_full@,
            None => index >= items@.len(),
        },
{
    if index < items.len() {
        Some(AddRequest { entity: target, type_path: items[index].type_path_full.clone() })
    } else {
        None
    }
}

/// A row of the picker: its tooltip, and the line below the name.
#[derive(Debug)]
pub struct PickerRow {
    pub description: String,
    pub footer: String,
    pub subtitle: Option<String>,
}

/// The row of the picker for a component. Its footer names the module and the section; the module
/// stands below the name, if there is one.
pub fn spawn_item(item: &PickableComponent) -> (r: PickerRow)
    ensures
        r.description@ == item.description@,
        r.footer@ == item.module@ + " - "@ + (if item.category@.len() == 0 {
            "Game"@
        } else {
            item.category@
        }),
        crate::text::text_of(r.subtitle) == (if item.module@.len() == 0 {
            None
        } else {
            Some(item.module@)
        }),
{
    let (section, _): (String, i32) = picker_section(item.category.as_str(), item.order);
    let footer: String = item.module.clone().concat(" - ").concat(section.as_str());
    let subtitle: Option<String> = if item.module.as_str().unicode_len() == 0 {
        None
    } else {
        Some(item.module.clone())
    };
    PickerRow { description: item.description.clone(), footer, subtitle }
}

/// Whether a type says what an offered component says.
pub open spec fn tells(t: RegisteredType, item: PickableView) -> bool {
    &&& item.short_name == t.short_name@
    &&& item.type_path_full == t.full_path@
    &&& item.description == t.chrome.description@
    &&& item.category == t.chrome.group@
    &&& item.authored_category == t.chrome.category@
    &&& item.order == t.chrome.order
    &&& t.module is Some ==> item.module == t.module->0@
    &&& t.module is None ==> item.module.len() == 0
}

/// What the picker offers of the registry are components with a default that the entity lacks, that
/// are neither hidden nor denied, and each says what its type says. All of these are offered.
pub proof fn law_offered_components(
    types: Seq<RegisteredType>,
    existing: Seq<u64>,
    denylist: DenylistView,
    item: PickableView,
    i: int,
)
    ensures
        pickable_among(types, existing, denylist).contains(item) ==> exists|k: int|
            {
                &&& 0 <= k < types.len()
                &&& tells(#[trigger] types[k], item)
                &&& types[k].is_component && types[k].has_default && !types[k].chrome.hidden
                &&& !existing.contains(types[k].type_id)
                &&& !denylist.denies(types[k].full_path@)
            },
        0 <= i < types.len() && tells(types[i], item) && types[i].is_component
            && types[i].has_default && !types[i].chrome.hidden && !existing.contains(
            types[i].type_id,
        ) && !denylist.denies(types[i].full_path@) ==> pickable_among(
            types,
            existing,
            denylist,
        ).contains(item),
{
    law_picker_offers_what_may_be_picked(types, existing, denylist, item);
    if 0 <= i < types.len() && tells(types[i], item) {
        assert(offered(types[i]) =~= item);
    }
}

/// What the picker offers of the project are the components that are neither hidden nor on the entity
/// already, each under its own type path.
pub proof fn law_offered_project_components(choices: Seq<ProjectChoice>, item: PickableView)
    ensures
        project_among(choices).contains(item) <==> exists|k: int|
            {
                &&& 0 <= k < choices.len()
                &&& !(#[trigger] choices[k]).chrome.hidden && !choices[k].authored
                &&& item.short_name == choices[k].short_name@
                &&& item.module == choices[k].module@
                &&& item.type_path_full == choices[k].type_path@
                &&& item.description == choices[k].chrome.description@
                &&& item.category == choices[k].chrome.group@
                &&& item.authored_category == choices[k].chrome.category@
                &&& item.order == choices[k].chrome.order
            },
    decreases choices.len(),
{
    if choices.len() > 0 {
        let init = choices.drop_last();
        let last = choices.last();
        law_offered_project_components(init, item);
        assert(choices[choices.len() - 1] == last);
        assert forall|k: int| 0 <= k < init.len() implies #[trigger] init[k] == choices[k] by {}
        if !last.chrome.hidden && !last.authored {
            lemma_push_contains(project_among(init), project_offered(last), item);
            if item.short_name == last.short_name@ && item.module == last.module@
                && item.type_path_full == last.type_path@ && item.description
                == last.chrome.description@ && item.category == last.chrome.group@
                && item.authored_category == last.chrome.category@ && item.order
                == last.chrome.order {
                assert(item =~= project_offered(last));
            }
        }
        let fits = |c: ProjectChoice|
            {
                &&& !c.chrome.hidden && !c.authored
                &&& item.short_name == c.short_name@
                &&& item.module == c.module@
                &&& item.type_path_full == c.type_path@
                &&& item.description == c.chrome.description@
                &&& item.category == c.chrome.group@
                &&& item.authored_category == c.chrome.category@
                &&& item.order == c.chrome.order
            };
        if exists|k: int| 0 <= k < init.len() && fits(#[trigger] init[k]) {
            let k = choose|k: int| 0 <= k < init.len() && fits(#[trigger] init[k]);
            assert(fits(choices[k]));
        }
        if exists|k: int| 0 <= k < choices.len() && fits(#[trigger] choices[k]) {
            let k = choose|k: int| 0 <= k < choices.len() && fits(#[trigger] choices[k]);
            if k < init.len() {
                assert(fits(init[k]));
            }
        }
    }
}

/// The inner workings of the physics engine are denied, and nothing else comes to be.
pub proof fn law_avian_internals_are_denied(list: DenylistView, path: Seq<char>)
    ensures
        with_avian_internals(list).denies(path) <==> {
            ||| list.denies(path)
            ||| "avian3d::dynamics::solver::"@.is_prefix_of(path)
            ||| "avian3d::collider_tree::"@.is_prefix_of(path)
            ||| "avian3d::ancestor_marker::"@.is_prefix_of(path)
            ||| "avian3d::dynamics::rigid_body::mass_properties::components::computed::"@.is_prefix_of(
                path,
            )
            ||| path == "avian3d::dynamics::rigid_body::sleeping::SleepTimer"@
            ||| path == "avian3d::dynamics::rigid_body::sleeping::TimeToSleep"@
            ||| path == "avian3d::dynamics::integrator::VelocityIntegrationData"@
            ||| path == "avian3d::dynamics::integrator::IntegrationFlags"@
            ||| path == "avian3d::collision::collider::constructor::ColliderConstructor"@
        },
{
    let p1 = "avian3d::dynamics::solver::"@;
    let p2 = "avian3d::collider_tree::"@;
    let p3 = "avian3d::ancestor_marker::"@;
    let p4 = "avian3d::dynamics::rigid_body::mass_properties::components::computed::"@;
    let q1 = "avian3d::dynamics::rigid_body::sleeping::SleepTimer"@;
    let q2 = "avian3d::dynamics::rigid_body::sleeping::TimeToSleep"@;
    let q3 = "avian3d::dynamics::integrator::VelocityIntegrationData"@;
    let q4 = "avian3d::dynamics::integrator::IntegrationFlags"@;
    let q5 = "avian3d::collision::collider::constructor::ColliderConstructor"@;
    let a1 = list.with_prefix(p1);
    let a2 = a1.with_prefix(p2);
    let a3 = a2.with_prefix(p3);
    let a4 = a3.with_prefix(p4);
    let b1 = a4.with_path(q1);
    let b2 = b1.with_path(q2);
    let b3 = b2.with_path(q3);
    let b4 = b3.with_path(q4);
    law_denial_only_adds(list, path, p1, path);
    law_denial_only_adds(a1, path, p2, path);
    law_denial_only_adds(a2, path, p3, path);
    law_denial_only_adds(a3, path, p4, path);
    law_denial_only_adds(a4, q1, p1, path);
    law_denial_only_adds(b1, q2, p1, path);
    law_denial_only_adds(b2, q3, p1, path);
    law_denial_only_adds(b3, q4, p1, path);
    law_denial_only_adds(b4, q5, p1, path);
}

} // verus!
