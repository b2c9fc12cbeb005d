//! The cards of the inspector: which components of an entity are shown, in which order, and how.
use vstd::prelude::*;
use vstd::string::*;
use crate::brush::BRUSH_TYPE_PATH;
use crate::inspector::{is_collapsed, InspectorCollapseState};
use crate::naming::{decimal, decimal_text};
use crate::sorting::{
    lemma_text_le_total, lemma_text_le_transitive, stable_sort, stably_sorted, text_at_most,
    text_le, Ranked,
};
use crate::text::{lower_case_of, starts_with, text_eq, to_lowercase};
use crate::value::Entity;
use crate::world::{texts_view, SceneWorld, WorldView};

verus! {

broadcast use vstd::string::group_string_axioms;

/// The type of the scene itself whose card holds the tools of a terrain.
pub const TERRAIN_TYPE_PATH: &'static str = "jackdaw_scene_types::types::Terrain";

/// Whether a path is below the editor's own crates but not in one whose components are for the user.
pub open spec fn is_bookkeeping(path: Seq<char>) -> bool {
    &&& "jackdaw"@.is_prefix_of(path)
    &&& !"jackdaw_jsn"@.is_prefix_of(path)
    &&& !"jackdaw_geometry"@.is_prefix_of(path)
    &&& !"jackdaw::reference_image"@.is_prefix_of(path)
    &&& !"jackdaw_avian_integration"@.is_prefix_of(path)
    &&& !"jackdaw_animation"@.is_prefix_of(path)
}

/// Whether a registered type is kept out of the inspector: the editor's own bookkeeping, but not the
/// scene data that the user edits.
pub open spec fn is_hidden(path: Seq<char>) -> bool {
    &&& is_bookkeeping(path)
    &&& !"jackdaw_multiplayer"@.is_prefix_of(path)
    &&& path != BRUSH_TYPE_PATH@
    &&& path != TERRAIN_TYPE_PATH@
}

fn is_editor_bookkeeping(path: &str) -> (r: bool)
    ensures
        r == is_bookkeeping(path@),
{
    starts_with(path, "jackdaw") && !starts_with(path, "jackdaw_jsn") && !starts_with(
        path,
        "jackdaw_geometry",
    ) && !starts_with(path, "jackdaw::reference_image") && !starts_with(
        path,
        "jackdaw_avian_integration",
    ) && !starts_with(path, "jackdaw_animation")
}

/// Whether a registered type is kept out of the inspector.
pub fn hidden_by_namespace(full_path: &str) -> (r: bool)
    ensures
        r == is_hidden(full_path@),
{
    is_editor_bookkeeping(full_path) && !starts_with(full_path, "jackdaw_multiplayer") && !text_eq(
        full_path,
        BRUSH_TYPE_PATH,
    ) && !text_eq(full_path, TERRAIN_TYPE_PATH)
}

/// Whether a type is the user's: of no crate of the engine, the language or the editor, except for
/// those of the editor that add to the game.
pub open spec fn is_user_type(path: Seq<char>) -> bool {
    &&& !"bevy"@.is_prefix_of(path)
    &&& !"core"@.is_prefix_of(path)
    &&& !"std"@.is_prefix_of(path)
    &&& (!"jackdaw"@.is_prefix_of(path) || "jackdaw_avian_integration"@.is_prefix_of(path)
        || "jackdaw_multiplayer"@.is_prefix_of(path))
}

fn is_user_type_path(path: &str) -> (r: bool)
    ensures
        r == is_user_type(path@),
{
    !starts_with(path, "bevy") && !starts_with(path, "core") && !starts_with(path, "std") && (
    !starts_with(path, "jackdaw") || starts_with(path, "jackdaw_avian_integration") || starts_with(
        path,
        "jackdaw_multiplayer",
    ))
}

/// How a component is shown.
#[derive(Clone, Copy, Debug, PartialEq, Eq, Structural)]
pub enum ComponentKind {
    Plain,
    /// It says itself how it is shown.
    Displayable,
    CustomProperties,
    Brush,
    Terrain,
    ModifierStack,
}

/// A component of an entity, as the engine knows it.
#[derive(Debug)]
pub struct EntityComponent {
    pub id: u64,
    /// Its path and short name in the registry, if it is registered.
    pub registered: Option<(String, String)>,
    /// The engine's name for it, in full and short, if there is one.
    pub name: Option<(String, String)>,
    /// The group that its type is shown in, and the place of that group.
    pub group: String,
    pub order: i32,
    /// The document, or a prefab, has it on the entity.
    pub authored: bool,
    /// Its value can be read.
    pub reflected: bool,
    pub kind: ComponentKind,
    /// It is the camera.
    pub is_camera: bool,
    /// Its value differs from the one that the prefab started with.
    pub differs_from_baseline: bool,
    /// The document overrides it in a prefab instance.
    pub overridden_in_instance: bool,
}

/// A component that has a card.
#[derive(Debug)]
pub struct ListedComponent {
    pub name: String,
    pub group: String,
    pub order: i32,
    pub type_path: String,
    /// It is on the entity, but the document does not have it.
    pub derived: bool,
    /// The place of the component among those of the entity.
    pub index: usize,
}

/// What a [`ListedComponent`] stands for.
#[verifier::ext_equal]
pub ghost struct ListedView {
    pub name: Seq<char>,
    pub group: Seq<char>,
    pub order: i32,
    pub type_path: Seq<char>,
    pub derived: bool,
    pub index: usize,
}

impl View for ListedComponent {
    type V = ListedView;

    open spec fn view(&self) -> ListedView {
        ListedView {
            name: self.name@,
            group: self.group@,
            order: self.order,
            type_path: self.type_path@,
            derived: self.derived,
            index: self.index,
        }
    }
}

pub open spec fn listed_views(list: Seq<ListedComponent>) -> Seq<ListedView> {
    Seq::new(list.len(), |i: int| list[i]@)
}

/// The group of components that the registry does not know.
pub const OTHER_GROUP: &'static str = "Other";

/// The card of a component, if it has one. `any_authored` tells whether the document has any
/// component on the entity: if so, those of the engine that it does not have are left out, while the
/// user's own are always shown.
pub open spec fn listing(c: EntityComponent, any_authored: bool, index: usize) -> Option<ListedView> {
    let derived = any_authored && !c.authored;
    match c.registered {
        Some((path, short)) => if is_hidden(path@) || (!is_user_type(path@) && derived) {
            None
        } else {
            Some(
                ListedView {
                    name: short@,
                    group: c.group@,
                    order: c.order,
                    type_path: path@,
                    derived,
                    index,
                },
            )
        },
        None => match c.name {
            Some((full, short)) => if is_bookkeeping(full@) {
                None
            } else {
                Some(
                    ListedView {
                        name: short@,
                        group: "Other"@,
                        order: c.order,
                        type_path: full@,
                        derived,
                        index,
                    },
                )
            },
            None => None,
        },
    }
}

/// The cards of the first `n` components of an entity.
pub open spec fn listings(components: Seq<EntityComponent>, any_authored: bool, n: nat) -> Seq<
    ListedView,
>
    decreases n,
{
    if n == 0 || n > components.len() {
        Seq::empty()
    } else {
        let before = listings(components, any_authored, (n - 1) as nat);
        match listing(components[n - 1], any_authored, (n - 1) as usize) {
            Some(l) => before.push(l),
            None => before,
        }
    }
}

fn list_component(c: &EntityComponent, any_authored: bool, index: usize) -> (r: Option<
    ListedComponent,
>)
    ensures
        match r {
            Some(l) => listing(*c, any_authored, index) == Some(l@),
            None => listing(*c, any_authored, index) is None,
        },
{
    let derived: bool = any_authored && !c.authored;
    match &c.registered {
        Some((path, short)) => {
            if hidden_by_namespace(path.as_str()) || (!is_user_type_path(path.as_str()) && derived) {
                None
            } else {
                Some(
                    ListedComponent {
                        name: short.clone(),
                        group: c.group.clone(),
                        order: c.order,
                        type_path: path.clone(),
                        derived,
                        index,
                    },
                )
            }
        },
        None => match &c.name {
            Some((full, short)) => {
                if is_editor_bookkeeping(full.as_str()) {
                    None
                } else {
                    Some(
                        ListedComponent {
                            name: short.clone(),
                            group: OTHER_GROUP.to_owned(),
                            order: c.order,
                            type_path: full.clone(),
                            derived,
                            index,
                        },
                    )
                }
            },
            None => None,
        },
    }
}

impl Ranked for ListedComponent {
    /// Groups with higher numbers first, then by the name of the group, then what the document has
    /// before what it does not, then by the name in lower case.
    open spec fn ranks_before(self, other: ListedComponent) -> bool {
        if self.order != other.order {
            self.order > other.order
        } else if self.group@ != other.group@ {
            text_le(self.group@, other.group@)
        } else if self.derived != other.derived {
            !self.derived
        } else {
            text_le(lower_case_of(self.name@), lower_case_of(other.name@))
        }
    }

    proof fn lemma_total(a: ListedComponent, b: ListedComponent) {
        lemma_text_le_total(a.group@, b.group@);
        lemma_text_le_total(lower_case_of(a.name@), lower_case_of(b.name@));
    }

    proof fn lemma_transitive(a: ListedComponent, b: ListedComponent, c: ListedComponent) {
        lemma_text_le_total(a.group@, b.group@);
        lemma_text_le_total(b.group@, c.group@);
        lemma_text_le_total(a.group@, c.group@);
        if text_le(a.group@, b.group@) && text_le(b.group@, c.group@) {
            lemma_text_le_transitive(a.group@, b.group@, c.group@);
        }
        if text_le(lower_case_of(a.name@), lower_case_of(b.name@)) && text_le(
            lower_case_of(b.name@),
            lower_case_of(c.name@),
        ) {
            lemma_text_le_transitive(
                lower_case_of(a.name@),
                lower_case_of(b.name@),
                lower_case_of(c.name@),
            );
        }
    }

    fn may_precede(&self, other: &ListedComponent) -> (r: bool) {
        if self.order != other.order {
            self.order > other.order
        } else if !text_eq(self.group.as_str(), other.group.as_str()) {
            text_at_most(self.group.as_str(), other.group.as_str())
        } else if self.derived != other.derived {
            !self.derived
        } else {
            let a: String = to_lowercase(self.name.as_str());
            let b: String = to_lowercase(other.name.as_str());
            text_at_most(a.as_str(), b.as_str())
        }
    }
}

/// The components of an entity that have cards, in the order of the cards.
pub fn list_components(components: &Vec<EntityComponent>, any_authored: bool) -> (r: Vec<
    ListedComponent,
>)
    ensures
        exists|found: Seq<ListedComponent>|
            listed_views(found) == listings(components@, any_authored, components@.len()) && r@
                == #[trigger] stably_sorted(found),
{
    let mut found: Vec<ListedComponent> = Vec::new();
    let mut i: usize = 0;
    assert(listed_views(found@) =~= Seq::empty());
    while i < components.len()
        invariant
            i <= components.len(),
            listed_views(found@) == listings(components@, any_authored, i as nat),
        decreases components.len() - i,
    {
        let ghost before = listed_views(found@);
        if let Some(l) = list_component(&components[i], any_authored, i) {
            let ghost v = l@;
            found.push(l);
            assert(listed_views(found@) =~= before.push(v));
        }
        i = i + 1;
    }
    let ghost all = found@;
    stable_sort(found)
}

/// Whether a component has a card.
pub open spec fn has_card(
    components: Seq<EntityComponent>,
    any_authored: bool,
    l: ListedView,
) -> bool {
    exists|i: int|
        0 <= i < components.len() && listing(#[trigger] components[i], any_authored, i as usize)
            == Some(l)
}

proof fn lemma_listed(
    components: Seq<EntityComponent>,
    any_authored: bool,
    n: nat,
    l: ListedView,
)
    requires
        n <= components.len(),
    ensures
        listings(components, any_authored, n).contains(l) <==> (exists|i: int|
            0 <= i < n && listing(#[trigger] components[i], any_authored, i as usize) == Some(l)),
    decreases n,
{
    if n > 0 {
        lemma_listed(components, any_authored, (n - 1) as nat, l);
        let before = listings(components, any_authored, (n - 1) as nat);
        let after = listings(components, any_authored, n);
        match listing(components[n - 1], any_authored, (n - 1) as usize) {
            Some(x) => {
                assert(after[before.len() as int] == x);
                if before.contains(l) {
                    let k = choose|k: int| 0 <= k < before.len() && before[k] == l;
                    assert(after[k] == l);
                }
                if after.contains(l) && x != l {
                    let k = choose|k: int| 0 <= k < after.len() && after[k] == l;
                    assert(before[k] == l);
                }
            },
            None => {},
        }
    }
}

/// A card is listed if and only if a component of the entity has it.
pub proof fn law_listed_cards(
    components: Seq<EntityComponent>,
    any_authored: bool,
    l: ListedView,
)
    ensures
        listings(components, any_authored, components.len()).contains(l) <==> has_card(
            components,
            any_authored,
            l,
        ),
{
    lemma_listed(components, any_authored, components.len(), l);
}

/// No component of the editor's bookkeeping has a card, and a component that the document has, or
/// that is the user's, has one unless it is bookkeeping.
pub proof fn law_bookkeeping_has_no_card(c: EntityComponent, any_authored: bool, index: usize)
    ensures
        listing(c, any_authored, index) matches Some(l) ==> !is_hidden(l.type_path),
        c.registered matches Some((path, _)) ==> (!is_hidden(path@) && (c.authored || is_user_type(
            path@,
        )) ==> listing(c, any_authored, index) is Some),
{
}

/// The prefab instance that an entity belongs to.
#[derive(Debug)]
pub struct PrefabInstanceCtx {
    pub instance_entity: Entity,
    pub has_cached_prefab: bool,
    pub prefab_path: String,
    pub prefab_entity_id: u64,
}

/// Whether two contexts are of the same instance.
pub open spec fn same_context(a: Option<PrefabInstanceCtx>, b: Option<PrefabInstanceCtx>) -> bool {
    match (a, b) {
        (Some(x), Some(y)) => {
            &&& x.instance_entity == y.instance_entity
            &&& x.has_cached_prefab == y.has_cached_prefab
            &&& x.prefab_path@ == y.prefab_path@
            &&& x.prefab_entity_id == y.prefab_entity_id
        },
        (None, None) => true,
        _ => false,
    }
}

fn copy_context(c: &Option<PrefabInstanceCtx>) -> (r: Option<PrefabInstanceCtx>)
    ensures
        same_context(*c, r),
{
    match c {
        Some(x) => Some(
            PrefabInstanceCtx {
                instance_entity: x.instance_entity,
                has_cached_prefab: x.has_cached_prefab,
                prefab_path: x.prefab_path.clone(),
                prefab_entity_id: x.prefab_entity_id,
            },
        ),
        None => None,
    }
}

/// The context of an entity in the document: it is inside a prefab instance, it is known which entity
/// of which prefab it comes from, and the instance is in the scene. `cached` tells whether that prefab
/// is loaded.
pub fn prefab_instance_ctx(
    inside_instance: bool,
    inherits: Option<(String, u64)>,
    instance: Option<Entity>,
    cached: bool,
) -> (r: Option<PrefabInstanceCtx>)
    ensures
        match r {
            Some(c) => {
                &&& inside_instance
                &&& instance == Some(c.instance_entity)
                &&& inherits matches Some((path, id)) && c.prefab_path@ == path@
                    && c.prefab_entity_id == id
                &&& c.has_cached_prefab == cached
            },
            None => !inside_instance || inherits is None || instance is None,
        },
{
    if !inside_instance {
        return None;
    }
    match (inherits, instance) {
        (Some((prefab_path, prefab_entity_id)), Some(instance_entity)) => Some(
            PrefabInstanceCtx {
                instance_entity,
                has_cached_prefab: cached,
                prefab_path,
                prefab_entity_id,
            },
        ),
        _ => None,
    }
}

/// What a card shows, from a component or from the project's schema.
#[derive(Debug)]
pub struct ComponentDisplaySpec {
    pub name: String,
    pub type_path: String,
    pub entity: Entity,
    /// The component, if the engine has it.
    pub component: Option<u64>,
    pub is_overridden: bool,
    pub is_derived: bool,
    pub prefab_ctx: Option<PrefabInstanceCtx>,
    /// A revert goes to the prefab rather than to the value that the prefab started with.
    pub revert_through_prefab: bool,
}

/// The colour of the name on a card.
#[derive(Clone, Copy, Debug, PartialEq, Eq, Structural)]
pub enum NameColor {
    Overridden,
    Muted,
    Plain,
}

/// The operator that the revert button of a card runs.
#[derive(Clone, Copy, Debug, PartialEq, Eq, Structural)]
pub enum Revert {
    /// `prefab.revert_component`, as a step of the history; the inspector is then rebuilt.
    ToPrefab,
    /// The operator that goes back to the value that the prefab started with.
    ToBaseline,
}

/// A card of the inspector.
#[derive(Debug)]
pub struct ComponentDisplayCard {
    pub name: String,
    pub type_path: String,
    pub entity: Entity,
    pub collapsed: bool,
    pub name_color: NameColor,
    pub revert: Option<Revert>,
    pub can_remove: bool,
    /// The instance that the menu of the card is about.
    pub menu: Option<PrefabInstanceCtx>,
}

/// The entries of the menu of a card in a prefab instance.
pub const REVERT_COMPONENT_LABEL: &'static str = "Revert Component";

pub const APPLY_TO_SOURCE_LABEL: &'static str = "Apply Component to Prefab Source";

pub const BULK_APPLY_LABEL: &'static str = "Apply to All Instances in Scene";

/// The colour of the name on a card.
pub open spec fn color_of(overridden: bool, derived: bool) -> NameColor {
    if overridden {
        NameColor::Overridden
    } else if derived {
        NameColor::Muted
    } else {
        NameColor::Plain
    }
}

/// The revert button of a card: only for an overridden component that the engine has.
pub open spec fn revert_of(
    has_component: bool,
    overridden: bool,
    through_prefab: bool,
    in_instance: bool,
) -> Option<Revert> {
    if has_component && overridden {
        Some(
            if through_prefab && in_instance {
                Revert::ToPrefab
            } else {
                Revert::ToBaseline
            },
        )
    } else {
        None
    }
}

/// Whether a card shows what its specification says.
pub open spec fn card_shows(
    card: ComponentDisplayCard,
    spec_: ComponentDisplaySpec,
    state: Map<Seq<char>, bool>,
) -> bool {
    &&& card.name@ == spec_.name@
    &&& card.type_path@ == spec_.type_path@
    &&& card.entity == spec_.entity
    &&& card.collapsed == is_collapsed(state, spec_.name@)
    &&& card.name_color == color_of(spec_.is_overridden, spec_.is_derived)
    &&& card.revert == revert_of(
        spec_.component is Some,
        spec_.is_overridden,
        spec_.revert_through_prefab,
        spec_.prefab_ctx is Some,
    )
    &&& card.can_remove == (spec_.component is Some && !spec_.is_derived)
    &&& same_context(card.menu, spec_.prefab_ctx)
}

/// The card for a component. It opens as it was left; its name is coloured when the component is
/// overridden and muted when the document does not have it; it has a revert button when overridden, a
/// remove button unless derived, and in a prefab instance a menu.
pub fn spawn_component_display(
    spec_: ComponentDisplaySpec,
    collapse_state: &InspectorCollapseState,
) -> (card: ComponentDisplayCard)
    ensures
        card_shows(card, spec_, collapse_state@),
{
    let collapsed: bool = collapse_state.collapsed(spec_.name.as_str());
    let name_color: NameColor = if spec_.is_overridden {
        NameColor::Overridden
    } else if spec_.is_derived {
        NameColor::Muted
    } else {
        NameColor::Plain
    };
    let revert: Option<Revert> = if spec_.component.is_some() && spec_.is_overridden {
        if spec_.revert_through_prefab && spec_.prefab_ctx.is_some() {
            Some(Revert::ToPrefab)
        } else {
            Some(Revert::ToBaseline)
        }
    } else {
        None
    };
    let can_remove: bool = spec_.component.is_some() && !spec_.is_derived;
    let menu: Option<PrefabInstanceCtx> = copy_context(&spec_.prefab_ctx);
    ComponentDisplayCard {
        name: spec_.name,
        type_path: spec_.type_path,
        entity: spec_.entity,
        collapsed,
        name_color,
        revert,
        can_remove,
        menu,
    }
}

/// What the body of a card holds.
#[derive(Clone, Copy, Debug, PartialEq, Eq, Structural)]
pub enum CardBody {
    /// What the component says itself.
    Displayable,
    CustomProperties,
    /// The faces and corners, and a note when the collider is forced to follow the mesh.
    Brush { collider_note: bool },
    Terrain,
    /// One row for each field.
    Fields,
    /// The note that the component can only be looked at.
    ReadOnly,
}

/// The note on a brush that is not convex and collides.
pub const NON_CONVEX_NOTE: &'static str = "Status: non-convex (collider forced to TriMesh)";

/// What the body of a component's card holds.
pub open spec fn body_of(c: EntityComponent, note: bool) -> CardBody {
    if !c.reflected {
        CardBody::ReadOnly
    } else {
        match c.kind {
            ComponentKind::Displayable => CardBody::Displayable,
            ComponentKind::CustomProperties => CardBody::CustomProperties,
            ComponentKind::Brush => CardBody::Brush { collider_note: note },
            ComponentKind::Terrain => CardBody::Terrain,
            ComponentKind::Plain | ComponentKind::ModifierStack => CardBody::Fields,
        }
    }
}

/// What the inspector shows, from top to bottom.
#[derive(Debug)]
pub enum InspectorItem {
    /// The note that edits go to all selected entities.
    SelectionNote(String),
    /// A card for each modifier of the component with this place.
    Modifiers(usize),
    /// The cards of the material.
    Materials,
    /// The card of a component, with the camera's picture first if it is the camera.
    Component(ComponentDisplayCard, CardBody, bool),
    /// The card of a component of the project.
    Project(ComponentDisplayCard),
}

/// What the inspector needs to know of an entity.
#[derive(Debug)]
pub struct InspectedEntity {
    pub entity: Entity,
    pub components: Vec<EntityComponent>,
    /// The document has some component on the entity.
    pub any_authored: bool,
    pub prefab_ctx: Option<PrefabInstanceCtx>,
    /// The entity started from a prefab's values.
    pub has_baseline: bool,
    pub is_brush: bool,
    pub has_collider: bool,
    pub is_convex: bool,
}

/// The component that marks a material on the entity itself.
pub const BRUSH_MATERIAL_TYPE_PATH: &'static str = "bevy_pbr::mesh_material::MeshMaterial3d<bevy_pbr::pbr_material::StandardMaterial>";

/// What follows the number of entities in the note.
pub const SELECTION_NOTE_TAIL: &'static str = " entities selected, edits apply to all";

impl InspectedEntity {
    pub open spec fn in_loaded_instance(self) -> bool {
        self.prefab_ctx matches Some(c) && c.has_cached_prefab
    }

    /// Whether a component differs from its prefab, by either record of it.
    pub open spec fn overrides(self, c: EntityComponent) -> bool {
        (self.has_baseline && c.differs_from_baseline) || (self.in_loaded_instance()
            && c.overridden_in_instance)
    }

    pub open spec fn note(self) -> bool {
        self.has_collider && self.is_brush && !self.is_convex
    }
}

/// Whether the card is that of a listed component of an entity.
pub open spec fn is_card_of(
    card: ComponentDisplayCard,
    source: InspectedEntity,
    c: EntityComponent,
    l: ListedView,
    state: Map<Seq<char>, bool>,
) -> bool {
    &&& card.name@ == l.name
    &&& card.type_path@ == l.type_path
    &&& card.entity == source.entity
    &&& card.collapsed == is_collapsed(state, l.name)
    &&& card.name_color == color_of(source.overrides(c), l.derived)
    &&& card.revert == revert_of(
        true,
        source.overrides(c),
        source.in_loaded_instance() && c.overridden_in_instance,
        source.prefab_ctx is Some,
    )
    &&& card.can_remove == !l.derived
    &&& same_context(card.menu, source.prefab_ctx)
}

/// Whether an item is what the inspector shows for a listed component. A stack of modifiers whose
/// value cannot be read shows nothing.
pub open spec fn shows_component(
    item: Option<InspectorItem>,
    source: InspectedEntity,
    l: ListedView,
    state: Map<Seq<char>, bool>,
) -> bool {
    let c = source.components@[l.index as int];
    if c.kind == ComponentKind::ModifierStack {
        if c.reflected {
            item == Some(InspectorItem::Modifiers(l.index))
        } else {
            item is None
        }
    } else if l.type_path == BRUSH_MATERIAL_TYPE_PATH@ {
        item == Some(InspectorItem::Materials)
    } else {
        match item {
            Some(InspectorItem::Component(card, body, strip)) => {
                &&& is_card_of(card, source, c, l, state)
                &&& body == body_of(c, source.note())
                &&& strip == c.is_camera
            },
            _ => false,
        }
    }
}

fn body_for(c: &EntityComponent, note: bool) -> (r: CardBody)
    ensures
        r == body_of(*c, note),
{
    if !c.reflected {
        return CardBody::ReadOnly;
    }
    match c.kind {
        ComponentKind::Displayable => CardBody::Displayable,
        ComponentKind::CustomProperties => CardBody::CustomProperties,
        ComponentKind::Brush => CardBody::Brush { collider_note: note },
        ComponentKind::Terrain => CardBody::Terrain,
        ComponentKind::Plain => CardBody::Fields,
        ComponentKind::ModifierStack => CardBody::Fields,
    }
}

/// What the inspector shows for a listed component.
pub fn show_component(
    source: &InspectedEntity,
    l: &ListedComponent,
    collapse_state: &InspectorCollapseState,
) -> (r: Option<InspectorItem>)
    requires
        l.index < source.components@.len(),
    ensures
        shows_component(r, *source, l@, collapse_state@),
{
    let c: &EntityComponent = &source.components[l.index];
    if c.kind == ComponentKind::ModifierStack {
        return if c.reflected {
            Some(InspectorItem::Modifiers(l.index))
        } else {
            None
        };
    }
    if text_eq(l.type_path.as_str(), BRUSH_MATERIAL_TYPE_PATH) {
        return Some(InspectorItem::Materials);
    }
    let in_loaded_instance: bool = match &source.prefab_ctx {
        Some(x) => x.has_cached_prefab,
        None => false,
    };
    let overridden_prefab: bool = in_loaded_instance && c.overridden_in_instance;
    let is_overridden: bool = (source.has_baseline && c.differs_from_baseline)
        || overridden_prefab;
    let card: ComponentDisplayCard = spawn_component_display(
        ComponentDisplaySpec {
            name: l.name.clone(),
            type_path: l.type_path.clone(),
            entity: source.entity,
            component: Some(c.id),
            is_overridden,
            is_derived: l.derived,
            prefab_ctx: copy_context(&source.prefab_ctx),
            revert_through_prefab: overridden_prefab,
        },
        collapse_state,
    );
    let note: bool = source.has_collider && source.is_brush && !source.is_convex;
    Some(InspectorItem::Component(card, body_for(c, note), c.is_camera))
}

/// Whether `items` are what the inspector shows for listed components, in their order.
pub open spec fn shows_all(
    items: Seq<InspectorItem>,
    source: InspectedEntity,
    listed: Seq<ListedComponent>,
    state: Map<Seq<char>, bool>,
) -> bool
    decreases listed.len(),
{
    if listed.len() == 0 {
        items.len() == 0
    } else {
        ||| shows_component(None, source, listed.last()@, state) && shows_all(
            items,
            source,
            listed.drop_last(),
            state,
        )
        ||| items.len() > 0 && shows_component(
            Some(items.last()),
            source,
            listed.last()@,
            state,
        ) && shows_all(items.drop_last(), source, listed.drop_last(), state)
    }
}

/// The types of the project that the document has on an entity, in its order.
pub open spec fn project_types_on(w: WorldView, paths: Seq<Seq<char>>) -> Seq<Seq<char>>
    decreases paths.len(),
{
    if paths.len() == 0 {
        Seq::empty()
    } else {
        let before = project_types_on(w, paths.drop_last());
        if w.is_project(paths.last()) {
            before.push(paths.last())
        } else {
            before
        }
    }
}

/// Whether a card is that of a component of the project: it has neither revert nor remove button nor
/// menu.
pub open spec fn is_project_card(
    item: InspectorItem,
    w: WorldView,
    entity: Entity,
    type_path: Seq<char>,
    state: Map<Seq<char>, bool>,
) -> bool {
    match item {
        InspectorItem::Project(card) => {
            &&& card.name@ == w.schema(type_path).short_name
            &&& card.type_path@ == type_path
            &&& card.entity == entity
            &&& card.collapsed == is_collapsed(state, w.schema(type_path).short_name)
            &&& card.name_color == NameColor::Plain
            &&& card.revert is None
            &&& !card.can_remove
            &&& card.menu is None
        },
        _ => false,
    }
}

pub open spec fn are_project_cards(
    items: Seq<InspectorItem>,
    w: WorldView,
    entity: Entity,
    types: Seq<Seq<char>>,
    state: Map<Seq<char>, bool>,
) -> bool {
    &&& items.len() == types.len()
    &&& forall|i: int|
        0 <= i < items.len() ==> is_project_card(#[trigger] items[i], w, entity, types[i], state)
}

fn component_items(
    source: &InspectedEntity,
    listed: &Vec<ListedComponent>,
    collapse_state: &InspectorCollapseState,
) -> (r: Vec<InspectorItem>)
    requires
        forall|i: int|
            0 <= i < listed@.len() ==> (#[trigger] listed@[i]).index < source.components@.len(),
    ensures
        shows_all(r@, *source, listed@, collapse_state@),
{
    let mut items: Vec<InspectorItem> = Vec::new();
    let mut i: usize = 0;
    assert(listed@.subrange(0, 0) =~= Seq::empty());
    while i < listed.len()
        invariant
            i <= listed.len(),
            forall|j: int|
                0 <= j < listed@.len() ==> (#[trigger] listed@[j]).index
                    < source.components@.len(),
            shows_all(items@, *source, listed@.subrange(0, i as int), collapse_state@),
        decreases listed.len() - i,
    {
        proof {
            assert(listed@.subrange(0, i + 1).drop_last() =~= listed@.subrange(0, i as int));
            assert(listed@.subrange(0, i + 1).last() == listed@[i as int]);
        }
        let ghost before = items@;
        if let Some(item) = show_component(source, &listed[i], collapse_state) {
            items.push(item);
            assert(items@.drop_last() =~= before);
        }
        i = i + 1;
    }
    assert(listed@.subrange(0, i as int) =~= listed@);
    items
}

fn project_items(
    world: &SceneWorld,
    entity: Entity,
    collapse_state: &InspectorCollapseState,
) -> (r: Vec<InspectorItem>)
    ensures
        are_project_cards(
            r@,
            world@,
            entity,
            project_types_on(
                world@,
                crate::patch::type_paths_in(world@.doc.entity_patches(entity)),
            ),
            collapse_state@,
        ),
{
    let mut items: Vec<InspectorItem> = Vec::new();
    let node: Entity = match world.document.ast_for(entity) {
        Some(n) => n,
        None => {
            return items;
        },
    };
    let paths: Vec<String> = world.document.component_type_paths(node);
    let ghost all = texts_view(paths@);
    assert(all =~= paths@.map_values(|t: String| t@));
    let mut i: usize = 0;
    assert(all.subrange(0, 0) =~= Seq::empty());
    while i < paths.len()
        invariant
            i <= paths.len(),
            all == texts_view(paths@),
            are_project_cards(
                items@,
                world@,
                entity,
                project_types_on(world@, all.subrange(0, i as int)),
                collapse_state@,
            ),
        decreases paths.len() - i,
    {
        proof {
            assert(all.subrange(0, i + 1).drop_last() =~= all.subrange(0, i as int));
            assert(all.subrange(0, i + 1).last() == paths@[i as int]@);
        }
        if let Some(k) = world.find_schema(paths[i].as_str()) {
            let card: ComponentDisplayCard = spawn_component_display(
                ComponentDisplaySpec {
                    name: world.project_types[k].short_name.clone(),
                    type_path: paths[i].clone(),
                    entity,
                    component: None,
                    is_overridden: false,
                    is_derived: false,
                    prefab_ctx: None,
                    revert_through_prefab: false,
                },
                collapse_state,
            );
            items.push(InspectorItem::Project(card));
        }
        i = i + 1;
    }
    assert(all.subrange(0, i as int) =~= all);
    items
}

/// Whether `items` are what the inspector shows for an entity: the note for several selected
/// entities, what it shows for each listed component, the cards of the project's components, and for
/// a brush the cards of its material.
pub open spec fn shows_entity(
    items: Seq<InspectorItem>,
    w: WorldView,
    source: InspectedEntity,
    selection_count: usize,
    listed: Seq<ListedComponent>,
    state: Map<Seq<char>, bool>,
) -> bool {
    exists|cards: Seq<InspectorItem>, project: Seq<InspectorItem>|
        {
            &&& #[trigger] shows_all(cards, source, listed, state)
            &&& #[trigger] are_project_cards(
                project,
                w,
                source.entity,
                project_types_on(w, crate::patch::type_paths_in(w.doc.entity_patches(source.entity))),
                state,
            )
            &&& assembled(items, source, selection_count, cards, project)
        }
}

/// Whether items are put together from a note, cards, the project's cards and those of a brush.
pub open spec fn assembled(
    items: Seq<InspectorItem>,
    source: InspectedEntity,
    selection_count: usize,
    cards: Seq<InspectorItem>,
    project: Seq<InspectorItem>,
) -> bool {
    let note: nat = if selection_count > 1 {
        1
    } else {
        0
    };
    let tail: Seq<InspectorItem> = if source.is_brush {
        seq![InspectorItem::Materials]
    } else {
        Seq::empty()
    };
    &&& items.len() == note + cards.len() + project.len() + tail.len()
    &&& items.subrange(note as int, items.len() as int) == cards + project + tail
    &&& selection_count > 1 ==> (items[0] matches InspectorItem::SelectionNote(t) && t@
        == decimal(selection_count as nat)
        + " entities selected, edits apply to all"@)
}

/// The components that are listed for an entity.
pub open spec fn is_listing_of(listed: Seq<ListedComponent>, source: InspectedEntity) -> bool {
    exists|found: Seq<ListedComponent>|
        listed_views(found) == listings(
            source.components@,
            source.any_authored,
            source.components@.len(),
        ) && listed == #[trigger] stably_sorted(found)
}

proof fn lemma_listings_index(components: Seq<EntityComponent>, any_authored: bool, n: nat)
    requires
        n <= components.len(),
        components.len() <= usize::MAX,
    ensures
        forall|i: int|
            0 <= i < listings(components, any_authored, n).len() ==> (#[trigger] listings(
                components,
                any_authored,
                n,
            )[i]).index < n,
    decreases n,
{
    if n > 0 {
        lemma_listings_index(components, any_authored, (n - 1) as nat);
        let before = listings(components, any_authored, (n - 1) as nat);
        let after = listings(components, any_authored, n);
        assert forall|i: int| 0 <= i < after.len() implies (#[trigger] after[i]).index < n by {
            if i < before.len() {
                assert(after[i] == before[i]);
            }
        }
    }
}

proof fn lemma_listed_index(found: Seq<ListedComponent>, bound: nat)
    requires
        forall|i: int| 0 <= i < found.len() ==> (#[trigger] found[i]).index < bound,
    ensures
        forall|i: int|
            0 <= i < stably_sorted(found).len() ==> (#[trigger] stably_sorted(found)[i]).index
                < bound,
{
    crate::sorting::law_sorted(found);
    let sorted = stably_sorted(found);
    assert forall|i: int| 0 <= i < sorted.len() implies (#[trigger] sorted[i]).index < bound by {
        broadcast use vstd::seq_lib::group_to_multiset_ensures;

        assert(sorted.contains(sorted[i]));
        assert(sorted.to_multiset().count(sorted[i]) > 0);
        assert(found.to_multiset().count(sorted[i]) > 0);
        assert(found.contains(sorted[i]));
        let k = choose|k: int| 0 <= k < found.len() && found[k] == sorted[i];
        assert(found[k].index < bound);
    }
}

/// Whether `items` are what the inspector shows for an entity, with its components in the order of the
/// list.
pub open spec fn displays(
    items: Seq<InspectorItem>,
    w: WorldView,
    source: InspectedEntity,
    selection_count: usize,
    state: Map<Seq<char>, bool>,
) -> bool {
    exists|listed: Seq<ListedComponent>| #[trigger]
        is_listing_of(listed, source) && shows_entity(
            items,
            w,
            source,
            selection_count,
            listed,
            state,
        )
}

/// What the inspector shows for an entity, while so many are selected.
pub fn build_inspector_displays(
    world: &SceneWorld,
    source: &InspectedEntity,
    selection_count: usize,
    collapse_state: &InspectorCollapseState,
) -> (r: Vec<InspectorItem>)
    ensures
        displays(r@, world@, *source, selection_count, collapse_state@),
{
    let mut items: Vec<InspectorItem> = Vec::new();
    if selection_count > 1 {
        let note: String = decimal_text(selection_count as u64).concat(SELECTION_NOTE_TAIL);
        items.push(InspectorItem::SelectionNote(note));
    }
    let listed: Vec<ListedComponent> = list_components(&source.components, source.any_authored);
    proof {
        let found = choose|found: Seq<ListedComponent>|
            listed_views(found) == listings(
                source.components@,
                source.any_authored,
                source.components@.len(),
            ) && listed@ == #[trigger] stably_sorted(found);
        let n = source.components@.len();
        assert(n == source.components.len());
        lemma_listings_index(source.components@, source.any_authored, n);
        assert forall|i: int| 0 <= i < found.len() implies (#[trigger] found[i]).index < n by {
            assert(listed_views(found)[i] == found[i]@);
        }
        lemma_listed_index(found, n);
        assert(is_listing_of(listed@, *source));
    }
    let mut cards: Vec<InspectorItem> = component_items(source, &listed, collapse_state);
    let mut project: Vec<InspectorItem> = project_items(world, source.entity, collapse_state);
    let ghost note_part = items@;
    let ghost cards_part = cards@;
    let ghost project_part = project@;
    items.append(&mut cards);
    items.append(&mut project);
    if source.is_brush {
        items.push(InspectorItem::Materials);
    }
    proof {
        let tail: Seq<InspectorItem> = if source.is_brush {
            seq![InspectorItem::Materials]
        } else {
            Seq::empty()
        };
        assert(items@ =~= note_part + cards_part + project_part + tail);
        assert(items@.subrange(note_part.len() as int, items@.len() as int) =~= cards_part
            + project_part + tail);
        assert(assembled(items@, *source, selection_count, cards_part, project_part));
        assert(shows_entity(
            items@,
            world@,
            *source,
            selection_count,
            listed@,
            collapse_state@,
        ));
    }
    items
}

/// Types of the editor's own crates are kept out of the inspector, but for the data that the user
/// edits: scene files, geometry, reference images, physics, animation, multiplayer, brushes and
/// terrain. Types of other crates never are.
pub proof fn law_hidden_types(path: Seq<char>)
    ensures
        !"jackdaw"@.is_prefix_of(path) ==> !is_hidden(path),
        "jackdaw_jsn"@.is_prefix_of(path) ==> !is_hidden(path),
        "jackdaw_geometry"@.is_prefix_of(path) ==> !is_hidden(path),
        "jackdaw::reference_image"@.is_prefix_of(path) ==> !is_hidden(path),
        "jackdaw_avian_integration"@.is_prefix_of(path) ==> !is_hidden(path),
        "jackdaw_animation"@.is_prefix_of(path) ==> !is_hidden(path),
        "jackdaw_multiplayer"@.is_prefix_of(path) ==> !is_hidden(path),
        path == "jackdaw_scene_types::types::Terrain"@ ==> !is_hidden(path),
        path == BRUSH_TYPE_PATH@ ==> !is_hidden(path),
        is_hidden(path) ==> "jackdaw"@.is_prefix_of(path),
{
}

/// A type is not the user's when its crate is one of the engine, the language or the editor; those of
/// the editor that add to the game are the exception.
pub proof fn law_user_types(path: Seq<char>)
    ensures
        is_user_type(path) ==> !"bevy"@.is_prefix_of(path) && !"core"@.is_prefix_of(path)
            && !"std"@.is_prefix_of(path),
        is_user_type(path) && "jackdaw"@.is_prefix_of(path) ==> "jackdaw_avian_integration"@.is_prefix_of(path)
            || "jackdaw_multiplayer"@.is_prefix_of(path),
        !"bevy"@.is_prefix_of(path) && !"core"@.is_prefix_of(path) && !"std"@.is_prefix_of(path)
            && !"jackdaw"@.is_prefix_of(path) ==> is_user_type(path),
{
}

/// A card shows the component's own name, path, group and place. A component that the registry does not
/// know is in the last group. One that the document does not have is marked as derived as soon as the
/// document has another; of the engine's types such a one has no card.
pub proof fn law_card_of_a_component(c: EntityComponent, any_authored: bool, index: usize)
    ensures
        listing(c, any_authored, index) matches Some(l) ==> {
            &&& l.index == index
            &&& l.order == c.order
            &&& l.derived == (any_authored && !c.authored)
            &&& c.registered matches Some((path, short)) ==> l.name == short@ && l.type_path == path@
                && l.group == c.group@
            &&& c.registered is None ==> l.group == "Other"@ && (c.name matches Some((full, short))
                && l.name == short@ && l.type_path == full@)
        },
        c.registered matches Some((path, _)) ==> (!is_user_type(path@) && any_authored
            && !c.authored ==> listing(c, any_authored, index) is None),
        c.registered is None && c.name is None ==> listing(c, any_authored, index) is None,
{
}

/// Cards are ordered by their groups' numbers, the highest first; within a number by the name of the
/// group; within a group what the document has goes before what it does not, and then by name.
pub proof fn law_order_of_cards(a: ListedComponent, b: ListedComponent)
    ensures
        a.order > b.order ==> a.ranks_before(b) && !b.ranks_before(a),
        a.order == b.order && a.group@ != b.group@ ==> a.ranks_before(b) == text_le(
            a.group@,
            b.group@,
        ),
        a.order == b.order && a.group@ == b.group@ && !a.derived && b.derived ==> a.ranks_before(b)
            && !b.ranks_before(a),
        a.order == b.order && a.group@ == b.group@ && a.derived == b.derived ==> a.ranks_before(b)
            == text_le(lower_case_of(a.name@), lower_case_of(b.name@)),
{
}

/// In the list of cards no group stands before one with a higher number.
pub proof fn law_listed_order(found: Seq<ListedComponent>, i: int, j: int)
    requires
        0 <= i < j < stably_sorted(found).len(),
    ensures
        stably_sorted(found)[i].order >= stably_sorted(found)[j].order,
        stably_sorted(found)[i].order == stably_sorted(found)[j].order
            && stably_sorted(found)[i].group@ == stably_sorted(found)[j].group@
            && stably_sorted(found)[i].derived ==> stably_sorted(found)[j].derived,
{
    crate::sorting::law_sorted(found);
    let sorted = stably_sorted(found);
    assert(sorted[i].ranks_before(sorted[j]));
}

/// The name on a card is coloured when the component is overridden, and muted when it is derived. Only
/// an overridden component of the engine can be reverted: to its prefab when the override is the
/// instance's, and otherwise to what the prefab started with.
pub proof fn law_card_marks(
    has_component: bool,
    overridden: bool,
    derived: bool,
    through_prefab: bool,
    in_instance: bool,
)
    ensures
        overridden <==> color_of(overridden, derived) == NameColor::Overridden,
        !overridden && derived <==> color_of(overridden, derived) == NameColor::Muted,
        revert_of(has_component, overridden, through_prefab, in_instance) is Some <==> has_component
            && overridden,
        revert_of(has_component, overridden, through_prefab, in_instance) == Some(Revert::ToPrefab)
            <==> has_component && overridden && through_prefab && in_instance,
{
}

/// The body of a card is what its component asks for, and the note that it can only be looked at when
/// its value cannot be read. A brush is noted when it collides and is not convex.
pub proof fn law_body_of_a_card(c: EntityComponent, source: InspectedEntity)
    ensures
        !c.reflected <==> body_of(c, source.note()) == CardBody::ReadOnly,
        c.reflected && c.kind == ComponentKind::Brush ==> body_of(c, source.note())
            == (CardBody::Brush {
            collider_note: source.has_collider && source.is_brush && !source.is_convex,
        }),
        c.reflected && c.kind == ComponentKind::Displayable ==> body_of(c, source.note())
            == CardBody::Displayable,
        c.reflected && c.kind == ComponentKind::CustomProperties ==> body_of(c, source.note())
            == CardBody::CustomProperties,
        c.reflected && c.kind == ComponentKind::Terrain ==> body_of(c, source.note())
            == CardBody::Terrain,
        c.reflected && c.kind == ComponentKind::Plain ==> body_of(c, source.note())
            == CardBody::Fields,
        source.overrides(c) <==> (source.has_baseline && c.differs_from_baseline) || (
        c.overridden_in_instance && (source.prefab_ctx matches Some(x) && x.has_cached_prefab)),
{
}

/// The project's components that have cards are those of the document's types that belong to it.
pub proof fn law_project_cards(w: WorldView, paths: Seq<Seq<char>>, t: Seq<char>)
    ensures
        project_types_on(w, paths).contains(t) <==> paths.contains(t) && w.is_project(t),
    decreases paths.len(),
{
    if paths.len() > 0 {
        let init = paths.drop_last();
        law_project_cards(w, init, t);
        assert(paths =~= init.push(paths.last()));
        crate::seqs::lemma_push_contains(init, paths.last(), t);
        crate::seqs::lemma_push_contains(project_types_on(w, init), paths.last(), t);
    }
}

/// With several entities selected the inspector begins with a note of how many; with one it has none.
/// A brush ends with the cards of its material.
pub proof fn law_ends_of_the_inspector(
    items: Seq<InspectorItem>,
    source: InspectedEntity,
    selection_count: usize,
    cards: Seq<InspectorItem>,
    project: Seq<InspectorItem>,
)
    requires
        assembled(items, source, selection_count, cards, project),
    ensures
        selection_count > 1 ==> (items[0] matches InspectorItem::SelectionNote(t) && t@ == decimal(
            selection_count as nat,
        ) + " entities selected, edits apply to all"@),
        source.is_brush ==> items.last() == InspectorItem::Materials,
        selection_count <= 1 && !source.is_brush ==> items == cards + project,
{
    let note: int = if selection_count > 1 {
        1
    } else {
        0
    };
    let cut = items.subrange(note, items.len() as int);
    if source.is_brush {
        assert((cards + project + seq![InspectorItem::Materials]).last()
            == InspectorItem::Materials);
        assert(cut.last() == items.last());
    } else if selection_count <= 1 {
        assert(cut =~= items);
        assert(cards + project + Seq::<InspectorItem>::empty() =~= cards + project);
    }
}

} // verus!
