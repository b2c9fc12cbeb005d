//! What the inspector tells of a type: its tooltip, and the pane with its settings.
use vstd::prelude::*;
use crate::text::{text_of, trim, trimmed};
use crate::value::Entity;

verus! {

/// The type whose tooltip an element of the interface shows.
#[derive(Debug)]
pub struct ReflectedTypeTooltip {
    pub type_path: String,
}

impl ReflectedTypeTooltip {
    pub fn new(type_path: String) -> (r: ReflectedTypeTooltip)
        ensures
            r.type_path@ == type_path@,
    {
        ReflectedTypeTooltip { type_path }
    }
}

/// A tooltip.
#[derive(Debug)]
pub struct Tooltip {
    pub title: String,
    pub description: String,
    pub footer: String,
}

/// The title for a type: its short name in the registry, else in the project's schema.
pub open spec fn tooltip_title(
    registered: Option<Seq<char>>,
    schema: Option<Seq<char>>,
) -> Option<Seq<char>> {
    match registered {
        Some(t) => Some(t),
        None => schema,
    }
}

/// The tooltip of a type: its short name, its description, and below them its full path. A type that
/// neither the registry nor the project knows has none.
pub fn auto_attach_reflected_type_tooltip(
    source: &ReflectedTypeTooltip,
    registered: Option<String>,
    schema: Option<String>,
    description: String,
) -> (r: Option<Tooltip>)
    ensures
        match r {
            Some(t) => {
                &&& tooltip_title(text_of(registered), text_of(schema)) == Some(t.title@)
                &&& t.description@ == description@
                &&& t.footer@ == source.type_path@
            },
            None => registered is None && schema is None,
        },
        registered is Some ==> r is Some && r->0.title@ == registered->0@,
        registered is None && schema is Some ==> r is Some && r->0.title@ == schema->0@,
{
    let title: String = match registered {
        Some(t) => t,
        None => match schema {
            Some(t) => t,
            None => {
                return None;
            },
        },
    };
    Some(Tooltip { title, description, footer: source.type_path.clone() })
}

/// A card of the inspector with its settings pane.
#[derive(Clone, Copy, Debug, PartialEq, Eq, Structural)]
pub struct CardState {
    pub collapsed: bool,
    pub pane_open: bool,
}

/// The card after the button for its settings was pressed: an open pane on an open card closes;
/// otherwise card and pane open.
pub open spec fn pane_toggled(card: CardState) -> CardState {
    if !card.collapsed && card.pane_open {
        CardState { pane_open: false, ..card }
    } else {
        CardState { collapsed: false, pane_open: true }
    }
}

/// What a press of the settings button comes to: whether the pane is open then, and the disclosure
/// toggle that is worked to open a collapsed card.
#[derive(Clone, Copy, Debug, PartialEq, Eq, Structural)]
pub struct PaneStep {
    pub pane_open: bool,
    pub toggled: Option<Entity>,
}

/// A press of a button for the settings of a type. `card` is the state of the card that the button
/// belongs to, if it belongs to one with a pane, and `disclosure` the toggle of that card.
pub fn on_toggle_type_metadata(
    is_settings_button: bool,
    card: Option<CardState>,
    disclosure: Option<Entity>,
) -> (r: Option<PaneStep>)
    ensures
        match (r, card) {
            (Some(s), Some(c)) => {
                &&& is_settings_button
                &&& s.pane_open == pane_toggled(c).pane_open
                &&& s.toggled == (if c.collapsed {
                    disclosure
                } else {
                    None
                })
            },
            (Some(_), None) => false,
            (None, _) => !is_settings_button || card is None,
        },
{
    if !is_settings_button {
        return None;
    }
    let c: CardState = match card {
        Some(c) => c,
        None => {
            return None;
        },
    };
    if !c.collapsed && c.pane_open {
        return Some(PaneStep { pane_open: false, toggled: None });
    }
    Some(
        PaneStep {
            pane_open: true,
            toggled: if c.collapsed {
                disclosure
            } else {
                None
            },
        },
    )
}

/// On an open card two presses of the settings button leave the pane as it was.
pub proof fn law_pane_toggles_back(card: CardState)
    requires
        !card.collapsed,
    ensures
        pane_toggled(pane_toggled(card)) == card,
{
}

/// A category to write for a type.
#[derive(Debug)]
pub struct CategoryEdit {
    pub type_path: String,
    pub category: String,
}

/// The commit of the category field of a type: the category without the spaces around it, written
/// if there is a project to write it to.
pub fn on_category_commit(input: Option<String>, text: &str, has_project: bool) -> (r: Option<
    CategoryEdit,
>)
    ensures
        match r {
            Some(e) => {
                &&& has_project
                &&& input matches Some(t) && e.type_path@ == t@
                &&& e.category@ == trimmed(text@)
            },
            None => input is None || !has_project,
        },
{
    match input {
        Some(type_path) => if has_project {
            Some(CategoryEdit { type_path, category: trim(text) })
        } else {
            None
        },
        None => None,
    }
}

/// A press on the settings button of a closed card opens the card and its pane, and on an open card
/// turns the pane over.
pub proof fn law_settings_button(card: CardState)
    ensures
        card.collapsed ==> !pane_toggled(card).collapsed && pane_toggled(card).pane_open,
        !card.collapsed ==> !pane_toggled(card).collapsed && pane_toggled(card).pane_open
            == !card.pane_open,
{
}

} // verus!
