//! The header above the inspector's cards: what can be added in each category.
use vstd::prelude::*;
use crate::brush::DEFAULT_MATERIAL;
use crate::seqs::{first_index, lemma_first_index_is};
use crate::text::text_eq;
use crate::value::Entity;
use crate::world::texts_view;

verus! {

/// What may have changed since the header was built.
#[derive(Clone, Copy, Debug, PartialEq, Eq, Structural)]
pub struct HeaderChanges {
    pub category: bool,
    pub selection: bool,
    pub cards_added: bool,
    pub cards_removed: bool,
    pub materials: bool,
    pub mount_added: bool,
}

/// The components that the physics row attaches.
#[derive(Clone, Copy, Debug, PartialEq, Eq, Structural)]
pub enum PhysicsPart {
    RigidBody,
    Collider,
}

impl PhysicsPart {
    pub open spec fn label_spec(self) -> Seq<char> {
        match self {
            PhysicsPart::RigidBody => "Rigid Body"@,
            PhysicsPart::Collider => "Collider"@,
        }
    }

    pub fn label(self) -> (r: &'static str)
        ensures
            r@ == self.label_spec(),
    {
        match self {
            PhysicsPart::RigidBody => "Rigid Body",
            PhysicsPart::Collider => "Collider",
        }
    }
}

/// A button that attaches a physics component, or detaches it when it is there.
#[derive(Clone, Copy, Debug, PartialEq, Eq, Structural)]
pub struct PhysicsChipButton {
    pub part: PhysicsPart,
    pub present: bool,
}

/// What the text of a physics button ends with when the component is there.
pub const DETACH_MARK: &'static str = "  x";

impl PhysicsChipButton {
    /// The text on the button.
    pub fn text(self) -> (r: String)
        ensures
            r@ == (if self.present {
                self.part.label_spec() + "  x"@
            } else {
                self.part.label_spec()
            }),
    {
        let label: String = self.part.label().to_owned();
        if self.present {
            label.concat(DETACH_MARK)
        } else {
            label
        }
    }
}

/// What stands in the header.
#[derive(Clone, Copy, Debug, PartialEq, Eq, Structural)]
pub enum HeaderContent {
    /// The button that opens the component picker.
    AddComponent,
    /// The button that adds a mirror modifier.
    AddModifier,
    /// The two physics buttons.
    Physics(PhysicsChipButton, PhysicsChipButton),
    /// The choice of materials.
    Material,
    Nothing,
}

/// What stands in the header of a category.
pub open spec fn content_for(
    category: Seq<char>,
    has_rigid_body: bool,
    has_collider: bool,
) -> HeaderContent {
    if category == "components"@ {
        HeaderContent::AddComponent
    } else if category == "modifiers"@ {
        HeaderContent::AddModifier
    } else if category == "physics"@ {
        HeaderContent::Physics(
            PhysicsChipButton { part: PhysicsPart::RigidBody, present: has_rigid_body },
            PhysicsChipButton { part: PhysicsPart::Collider, present: has_collider },
        )
    } else if category == "material"@ {
        HeaderContent::Material
    } else {
        HeaderContent::Nothing
    }
}

/// What stands in the header of a category.
pub fn build_add_header_children(category: &str, has_rigid_body: bool, has_collider: bool) -> (r:
    HeaderContent)
    ensures
        r == content_for(category@, has_rigid_body, has_collider),
{
    if text_eq(category, "components") {
        HeaderContent::AddComponent
    } else if text_eq(category, "modifiers") {
        HeaderContent::AddModifier
    } else if text_eq(category, "physics") {
        HeaderContent::Physics(
            PhysicsChipButton { part: PhysicsPart::RigidBody, present: has_rigid_body },
            PhysicsChipButton { part: PhysicsPart::Collider, present: has_collider },
        )
    } else if text_eq(category, "material") {
        HeaderContent::Material
    } else {
        HeaderContent::Nothing
    }
}

/// Whether the primary selected entity has a rigid body, and a collider.
pub fn physics_presence(primary: Option<Entity>, has_rigid_body: bool, has_collider: bool) -> (r: (
    bool,
    bool,
))
    ensures
        r == (if primary is Some {
            (has_rigid_body, has_collider)
        } else {
            (false, false)
        }),
{
    match primary {
        Some(_) => (has_rigid_body, has_collider),
        None => (false, false),
    }
}

/// What the header shows anew, if anything that it depends on changed.
pub fn rebuild_add_header(
    changes: HeaderChanges,
    category: &str,
    primary: Option<Entity>,
    has_rigid_body: bool,
    has_collider: bool,
) -> (r: Option<HeaderContent>)
    ensures
        r == (if changes.category || changes.selection || changes.cards_added
            || changes.cards_removed || changes.materials || changes.mount_added {
            Some(
                content_for(
                    category@,
                    primary is Some && has_rigid_body,
                    primary is Some && has_collider,
                ),
            )
        } else {
            None
        }),
{
    if !(changes.category || changes.selection || changes.cards_added || changes.cards_removed
        || changes.materials || changes.mount_added) {
        return None;
    }
    let (rigid_body, collider): (bool, bool) = physics_presence(
        primary,
        has_rigid_body,
        has_collider,
    );
    Some(build_add_header_children(category, rigid_body, collider))
}

/// A component to attach to an entity, or to detach from it.
#[derive(Clone, Copy, Debug, PartialEq, Eq, Structural)]
pub enum PhysicsRequest {
    Add(Entity, PhysicsPart),
    Remove(Entity, PhysicsPart),
}

/// A click on a physics button: its component is attached to the primary selected entity, or detached
/// when the button shows that it is there. Without a selection nothing happens.
pub fn on_physics_chip_click(chip: Option<PhysicsChipButton>, primary: Option<Entity>) -> (r: Option<
    PhysicsRequest,
>)
    ensures
        r == (match (chip, primary) {
            (Some(c), Some(e)) => if c.present {
                Some(PhysicsRequest::Remove(e, c.part))
            } else {
                Some(PhysicsRequest::Add(e, c.part))
            },
            _ => None,
        }),
{
    match (chip, primary) {
        (Some(c), Some(e)) => if c.present {
            Some(PhysicsRequest::Remove(e, c.part))
        } else {
            Some(PhysicsRequest::Add(e, c.part))
        },
        _ => None,
    }
}

/// A material of the registry, with its name.
#[derive(Debug)]
pub struct MaterialEntry {
    pub name: String,
    pub handle: u64,
}

pub open spec fn has_handle(handle: u64) -> spec_fn(MaterialEntry) -> bool {
    |e: MaterialEntry| e.handle == handle
}

/// The row of a material, if it has one.
pub open spec fn row_of(entries: Seq<MaterialEntry>, handle: u64) -> Option<int> {
    let i = first_index(entries, has_handle(handle));
    if i < entries.len() {
        Some(i)
    } else {
        None
    }
}

/// The row that shows the material of the selection. A material without a row, or no material, is
/// shown by the row of the default material, or by the first row when there is none.
pub open spec fn selected_row(entries: Seq<MaterialEntry>, current: Option<u64>) -> int {
    let own = match current {
        Some(h) => row_of(entries, h),
        None => None,
    };
    match own {
        Some(i) => i,
        None => match row_of(entries, DEFAULT_MATERIAL) {
            Some(i) => i,
            None => 0,
        },
    }
}

fn find_row(entries: &Vec<MaterialEntry>, handle: u64) -> (r: Option<usize>)
    ensures
        match r {
            Some(i) => i < entries@.len() && row_of(entries@, handle) == Some(i as int),
            None => row_of(entries@, handle) is None,
        },
{
    let ghost p = has_handle(handle);
    let mut i: usize = 0;
    while i < entries.len()
        invariant
            i <= entries.len(),
            p == has_handle(handle),
            forall|j: int| 0 <= j < i ==> !p(#[trigger] entries@[j]),
        decreases entries.len() - i,
    {
        if entries[i].handle == handle {
            proof {
                lemma_first_index_is(entries@, p, i as int);
            }
            return Some(i);
        }
        i = i + 1;
    }
    proof {
        lemma_first_index_is(entries@, p, entries@.len() as int);
    }
    None
}

/// The row that shows the material of the selection.
pub fn material_combobox_selected_index(entries: &Vec<MaterialEntry>, current: Option<u64>) -> (r: usize)
    ensures
        r == selected_row(entries@, current),
{
    let own: Option<usize> = match current {
        Some(h) => find_row(entries, h),
        None => None,
    };
    match own {
        Some(i) => i,
        None => match find_row(entries, DEFAULT_MATERIAL) {
            Some(i) => i,
            None => 0,
        },
    }
}

/// The row shown for the selection is one of the registry's, or the first; a material that has a row
/// is shown by one with that material.
pub proof fn law_selected_row_shows_the_material(
    entries: Seq<MaterialEntry>,
    current: Option<u64>,
)
    ensures
        0 <= selected_row(entries, current),
        entries.len() > 0 ==> selected_row(entries, current) < entries.len(),
        current is Some && row_of(entries, current->0) is Some ==> entries[selected_row(
            entries,
            current,
        )].handle == current->0,
        (current is None || row_of(entries, current->0) is None) && row_of(entries, DEFAULT_MATERIAL)
            is Some ==> entries[selected_row(entries, current)].handle == DEFAULT_MATERIAL,
{
    crate::seqs::lemma_first_index(entries, has_handle(DEFAULT_MATERIAL));
    if let Some(h) = current {
        crate::seqs::lemma_first_index(entries, has_handle(h));
    }
}

/// The choice of materials: the names, which of them is shown, and the materials that they stand for.
#[derive(Debug)]
pub struct MaterialHeader {
    pub options: Vec<String>,
    pub selected: usize,
    pub handles: Vec<u64>,
}

/// What is shown when there is no material to choose.
pub const NO_MATERIALS: &'static str = "(none)";

/// The names of the materials.
pub open spec fn material_options(entries: Seq<MaterialEntry>) -> Seq<Seq<char>> {
    if entries.len() == 0 {
        seq!["(none)"@]
    } else {
        Seq::new(entries.len(), |i: int| entries[i].name@)
    }
}

/// The choice of materials for a header that is still there.
pub fn spawn_material_header(
    host_alive: bool,
    entries: &Vec<MaterialEntry>,
    current: Option<u64>,
) -> (r: Option<MaterialHeader>)
    ensures
        match r {
            Some(h) => {
                &&& host_alive
                &&& texts_view(h.options@) == material_options(entries@)
                &&& h.selected == selected_row(entries@, current)
                &&& h.handles@ == Seq::new(entries@.len(), |i: int| entries@[i].handle)
            },
            None => !host_alive,
        },
{
    if !host_alive {
        return None;
    }
    let selected: usize = material_combobox_selected_index(entries, current);
    let mut options: Vec<String> = Vec::new();
    let mut handles: Vec<u64> = Vec::new();
    let mut i: usize = 0;
    while i < entries.len()
        invariant
            i <= entries.len(),
            options@.len() == i,
            handles@.len() == i,
            forall|j: int| 0 <= j < i ==> (#[trigger] options@[j])@ == entries@[j].name@,
            forall|j: int| 0 <= j < i ==> #[trigger] handles@[j] == entries@[j].handle,
        decreases entries.len() - i,
    {
        options.push(entries[i].name.clone());
        handles.push(entries[i].handle);
        i = i + 1;
    }
    if entries.len() == 0 {
        options.push(NO_MATERIALS.to_owned());
    }
    assert(texts_view(options@) =~= material_options(entries@));
    assert(handles@ =~= Seq::new(entries@.len(), |i: int| entries@[i].handle));
    Some(MaterialHeader { options, selected, handles })
}

impl MaterialHeader {
    /// The material to put on the selection when an option was chosen.
    pub fn chosen(&self, index: usize) -> (r: Option<u64>)
        ensures
            r == (if index < self.handles@.len() {
                Some(self.handles@[index as int])
            } else {
                None
            }),
    {
        if index < self.handles.len() {
            Some(self.handles[index])
        } else {
            None
        }
    }
}

/// A click on the button for a new material: after the material was made, it is put on the selection.
/// `made` is the material that is active then.
pub fn on_material_new_click(is_new_button: bool, made: Option<u64>) -> (r: Option<u64>)
    ensures
        r == (if is_new_button {
            made
        } else {
            None
        }),
{
    if is_new_button {
        made
    } else {
        None
    }
}

/// Each of the four categories that things can be added in has a header of its own, and every other
/// category has none. The physics buttons tell which of the two components is there.
pub proof fn law_header_of_a_category(category: Seq<char>, has_rigid_body: bool, has_collider: bool)
    ensures
        ({
            let content = content_for(category, has_rigid_body, has_collider);
            &&& content is AddComponent <==> category == "components"@
            &&& content is AddModifier <==> category == "modifiers"@
            &&& content is Physics <==> category == "physics"@
            &&& content is Material <==> category == "material"@
            &&& content matches HeaderContent::Physics(a, b) ==> a.part == PhysicsPart::RigidBody
                && b.part == PhysicsPart::Collider && a.present == has_rigid_body && b.present
                == has_collider
        }),
{
    reveal_strlit("components");
    reveal_strlit("modifiers");
    reveal_strlit("physics");
    reveal_strlit("material");
    assert("components"@.len() == 10);
    assert("modifiers"@.len() == 9);
    assert("physics"@.len() == 7);
    assert("material"@.len() == 8);
}

/// The choice of materials has a name for each material, in their order, and one entry that says so
/// when there is none.
pub proof fn law_material_options(entries: Seq<MaterialEntry>, i: int)
    ensures
        entries.len() > 0 ==> material_options(entries).len() == entries.len(),
        0 <= i < entries.len() ==> material_options(entries)[i] == entries[i].name@,
        entries.len() == 0 ==> material_options(entries) == seq!["(none)"@],
{
}

} // verus!
