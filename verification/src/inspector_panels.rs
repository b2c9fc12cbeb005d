//! The inspector panels: what each shows, when it is rebuilt, and which cards the search leaves.
use vstd::prelude::*;
use crate::inspector::InspectorCollapseState;
use crate::inspector_cards::{
    build_inspector_displays, displays, InspectedEntity, InspectorItem,
};
use crate::seqs::{contains, first_index, lemma_first_index_is};
use crate::text::{contains_text, lower_case_of, occurs_in, text_eq, to_lowercase, trim, trimmed};
use crate::value::Entity;
use crate::world::{Marks, SceneWorld, WorldView};

verus! {

/// Whether the inspector can show an entity.
pub open spec fn inspectable(w: WorldView, e: Entity) -> bool {
    w.alive(e) && !w.entities[e].marks.editor_entity
}

fn is_inspectable(world: &SceneWorld, e: Entity) -> (r: bool)
    ensures
        r == inspectable(world@, e),
{
    world.is_alive(e) && !world.marks(e).editor_entity
}

/// An inspector panel and the entity that it shows.
#[derive(Clone, Copy, Debug, PartialEq, Eq, Structural)]
pub struct InspectorPanel {
    pub entity: Entity,
    pub target: Option<Entity>,
}

/// What happens to a panel.
#[derive(Clone, Copy, Debug, PartialEq, Eq, Structural)]
pub enum PanelStep {
    /// It stays as it is.
    Keep,
    /// Its cards go away.
    Clear,
    /// Its cards go away, and those of an entity come.
    Show(Entity),
}

/// What a step changes in a panel: the children that go away, and what comes in their place.
#[derive(Debug)]
pub struct PanelChange {
    pub despawned: Vec<Entity>,
    pub items: Vec<InspectorItem>,
}

/// A panel's children, each with whether it is a card or a picker.
pub type PanelChildren = Vec<(Entity, bool)>;

pub open spec fn inspects(e: Entity) -> spec_fn(InspectedEntity) -> bool {
    |s: InspectedEntity| s.entity == e
}

/// What is known of an entity, if anything is.
pub open spec fn source_for(sources: Seq<InspectedEntity>, e: Entity) -> Option<InspectedEntity> {
    let i = first_index(sources, inspects(e));
    if i < sources.len() {
        Some(sources[i])
    } else {
        None
    }
}

fn find_source(sources: &Vec<InspectedEntity>, e: Entity) -> (r: Option<usize>)
    ensures
        match r {
            Some(i) => i < sources@.len() && source_for(sources@, e) == Some(sources@[i as int]),
            None => source_for(sources@, e) is None,
        },
{
    let ghost p = inspects(e);
    let mut i: usize = 0;
    while i < sources.len()
        invariant
            i <= sources.len(),
            p == inspects(e),
            forall|j: int| 0 <= j < i ==> !p(#[trigger] sources@[j]),
        decreases sources.len() - i,
    {
        if sources[i].entity == e {
            proof {
                lemma_first_index_is(sources@, p, i as int);
            }
            return Some(i);
        }
        i = i + 1;
    }
    proof {
        lemma_first_index_is(sources@, p, i as int);
    }
    None
}

/// Whether a change is the one that a step makes: a panel that stays is left alone; from any other the
/// cards and pickers go away, and one that shows an entity gets what the inspector shows for it, as
/// far as anything is known of it.
pub open spec fn is_change(
    w: WorldView,
    step: PanelStep,
    children: Seq<(Entity, bool)>,
    sources: Seq<InspectedEntity>,
    selection_count: usize,
    state: Map<Seq<char>, bool>,
    change: PanelChange,
) -> bool {
    match step {
        PanelStep::Keep => change.despawned@.len() == 0 && change.items@.len() == 0,
        PanelStep::Clear => {
            &&& change.despawned@ == displays_among(children)
            &&& change.items@.len() == 0
        },
        PanelStep::Show(e) => {
            &&& change.despawned@ == displays_among(children)
            &&& match source_for(sources, e) {
                Some(s) => displays(change.items@, w, s, selection_count, state),
                None => change.items@.len() == 0,
            }
        },
    }
}

fn change_panel(
    world: &SceneWorld,
    step: PanelStep,
    children: &PanelChildren,
    sources: &Vec<InspectedEntity>,
    collapse_state: &InspectorCollapseState,
) -> (r: PanelChange)
    ensures
        is_change(
            world@,
            step,
            children@,
            sources@,
            world.selection.len(),
            collapse_state@,
            r,
        ),
{
    match step {
        PanelStep::Keep => PanelChange { despawned: Vec::new(), items: Vec::new() },
        PanelStep::Clear => PanelChange {
            despawned: despawn_inspector_display_children(children),
            items: Vec::new(),
        },
        PanelStep::Show(e) => {
            let despawned: Vec<Entity> = despawn_inspector_display_children(children);
            let items: Vec<InspectorItem> = match find_source(sources, e) {
                Some(i) => build_inspector_displays(
                    world,
                    &sources[i],
                    world.selection.len(),
                    collapse_state,
                ),
                None => Vec::new(),
            };
            PanelChange { despawned, items }
        },
    }
}

/// Whether the changes are those that the steps of the panels make.
pub open spec fn are_changes(
    w: WorldView,
    steps: Seq<PanelStep>,
    children: Seq<PanelChildren>,
    sources: Seq<InspectedEntity>,
    selection_count: usize,
    state: Map<Seq<char>, bool>,
    changes: Seq<PanelChange>,
) -> bool {
    &&& changes.len() == steps.len()
    &&& forall|i: int|
        0 <= i < steps.len() ==> is_change(
            w,
            steps[i],
            children[i]@,
            sources,
            selection_count,
            state,
            #[trigger] changes[i],
        )
}

fn change_panels(
    world: &SceneWorld,
    steps: &Vec<PanelStep>,
    children: &Vec<PanelChildren>,
    sources: &Vec<InspectedEntity>,
    collapse_state: &InspectorCollapseState,
) -> (r: Vec<PanelChange>)
    requires
        children@.len() == steps@.len(),
    ensures
        are_changes(
            world@,
            steps@,
            children@,
            sources@,
            world.selection.len(),
            collapse_state@,
            r@,
        ),
{
    let mut out: Vec<PanelChange> = Vec::new();
    let mut i: usize = 0;
    while i < steps.len()
        invariant
            i <= steps.len(),
            children@.len() == steps@.len(),
            out@.len() == i,
            forall|j: int|
                0 <= j < i ==> is_change(
                    world@,
                    steps@[j],
                    children@[j]@,
                    sources@,
                    world.selection.len(),
                    collapse_state@,
                    #[trigger] out@[j],
                ),
        decreases steps.len() - i,
    {
        out.push(change_panel(world, steps[i], &children[i], sources, collapse_state));
        i = i + 1;
    }
    out
}

/// What happens to a panel when the selection is looked at. `changed` tells whether the selection
/// changed. A panel that shows nothing yet waits for the entity to be there.
pub open spec fn panel_step(
    w: WorldView,
    panel: InspectorPanel,
    changed: bool,
    desired: Option<Entity>,
) -> PanelStep {
    if panel.target == desired && !changed {
        PanelStep::Keep
    } else {
        match desired {
            Some(e) => if inspectable(w, e) {
                PanelStep::Show(e)
            } else if panel.target is None {
                PanelStep::Keep
            } else {
                PanelStep::Clear
            },
            None => PanelStep::Clear,
        }
    }
}

/// Whether the panels have to be looked at: the selection changed, or there is a selected entity and
/// a panel that shows nothing.
pub open spec fn panels_due(
    panels: Seq<InspectorPanel>,
    changed: bool,
    desired: Option<Entity>,
) -> bool {
    changed || (desired is Some && exists|i: int|
        0 <= i < panels.len() && (#[trigger] panels[i]).target is None)
}

/// The panel after its step.
pub open spec fn after_step(panel: InspectorPanel, step: PanelStep) -> InspectorPanel {
    match step {
        PanelStep::Keep => panel,
        PanelStep::Clear => InspectorPanel { target: None, ..panel },
        PanelStep::Show(e) => InspectorPanel { target: Some(e), ..panel },
    }
}

/// The steps of the panels.
pub open spec fn panel_steps(
    w: WorldView,
    panels: Seq<InspectorPanel>,
    changed: bool,
) -> Seq<PanelStep> {
    let desired = w.primary();
    Seq::new(
        panels.len(),
        |i: int|
            if panels_due(panels, changed, desired) {
                panel_step(w, panels[i], changed, desired)
            } else {
                PanelStep::Keep
            },
    )
}

/// Keeps each panel on the primary selected entity. Returns what changes in each panel. `children` are
/// those of the panels, and `sources` what is known of the entities that can be shown.
pub fn sync_inspector_to_selection(
    world: &SceneWorld,
    panels: &mut Vec<InspectorPanel>,
    selection_changed: bool,
    children: &Vec<PanelChildren>,
    sources: &Vec<InspectedEntity>,
    collapse_state: &InspectorCollapseState,
) -> (r: Vec<PanelChange>)
    requires
        children@.len() == old(panels)@.len(),
    ensures
        ({
            let steps = panel_steps(world@, old(panels)@, selection_changed);
            &&& are_changes(
                world@,
                steps,
                children@,
                sources@,
                world.selection.len(),
                collapse_state@,
                r@,
            )
            &&& final(panels)@ == Seq::new(
                old(panels)@.len(),
                |i: int| after_step(old(panels)@[i], steps[i]),
            )
        }),
{
    let steps: Vec<PanelStep> = step_panels(world, panels, selection_changed);
    change_panels(world, &steps, children, sources, collapse_state)
}

fn step_panels(
    world: &SceneWorld,
    panels: &mut Vec<InspectorPanel>,
    selection_changed: bool,
) -> (r: Vec<PanelStep>)
    ensures
        r@ == panel_steps(world@, old(panels)@, selection_changed),
        final(panels)@ == Seq::new(
            old(panels)@.len(),
            |i: int| after_step(old(panels)@[i], r@[i]),
        ),
{
    let ghost start = panels@;
    let desired: Option<Entity> = world.primary();
    let n: usize = panels.len();
    let mut due: bool = selection_changed;
    if !due && desired.is_some() {
        let mut k: usize = 0;
        while k < n && !due
            invariant
                k <= n,
                n == panels@.len(),
                panels@ == start,
                due ==> exists|i: int| 0 <= i < start.len() && (#[trigger] start[i]).target is None,
                !due ==> forall|i: int| 0 <= i < k ==> (#[trigger] start[i]).target is Some,
            decreases n - k,
        {
            if panels[k].target.is_none() {
                assert(start[k as int].target is None);
                due = true;
            }
            k = k + 1;
        }
    }
    assert(due == panels_due(start, selection_changed, desired));
    let mut steps: Vec<PanelStep> = Vec::new();
    let mut i: usize = 0;
    while i < n
        invariant
            i <= n,
            n == start.len(),
            panels@.len() == n,
            steps@.len() == i,
            desired == world@.primary(),
            due == panels_due(start, selection_changed, desired),
            forall|j: int|
                0 <= j < i ==> #[trigger] steps@[j] == panel_steps(
                    world@,
                    start,
                    selection_changed,
                )[j],
            forall|j: int|
                0 <= j < n ==> (#[trigger] panels@[j]) == (if j < i {
                    after_step(start[j], steps@[j])
                } else {
                    start[j]
                }),
        decreases n - i,
    {
        let panel: InspectorPanel = panels[i];
        assert(panel == start[i as int]);
        let shown: bool = match (panel.target, desired) {
            (Some(a), Some(b)) => a == b,
            (None, None) => true,
            _ => false,
        };
        let step: PanelStep = if !due || (shown && !selection_changed) {
            PanelStep::Keep
        } else {
            match desired {
                Some(e) => if is_inspectable(world, e) {
                    PanelStep::Show(e)
                } else if panel.target.is_none() {
                    PanelStep::Keep
                } else {
                    PanelStep::Clear
                },
                None => PanelStep::Clear,
            }
        };
        let ghost so_far = steps@;
        steps.push(step);
        match step {
            PanelStep::Keep => {},
            PanelStep::Clear => {
                panels.set(i, InspectorPanel { target: None, ..panel });
            },
            PanelStep::Show(e) => {
                panels.set(i, InspectorPanel { target: Some(e), ..panel });
            },
        }
        i = i + 1;
    }
    assert(steps@ =~= panel_steps(world@, start, selection_changed));
    assert(panels@ =~= Seq::new(start.len(), |i: int| after_step(start[i], steps@[i])));
    steps
}

/// After the selection changed to an entity that can be shown, every panel shows it; after it became
/// empty, none shows any.
pub proof fn law_panels_follow_selection(w: WorldView, panels: Seq<InspectorPanel>, i: int)
    requires
        0 <= i < panels.len(),
        w.primary() matches Some(e) ==> inspectable(w, e),
    ensures
        after_step(panels[i], panel_steps(w, panels, true)[i]).target == w.primary(),
{
}

/// What a rebuild does to a panel that shows an entity: from that entity, or, when it is gone, from
/// the primary selected one; the cards only go away when neither is there.
pub open spec fn rebuild_source(w: WorldView, target: Entity) -> Option<Entity> {
    if inspectable(w, target) {
        Some(target)
    } else {
        match w.primary() {
            Some(e) => if inspectable(w, e) {
                Some(e)
            } else {
                None
            },
            None => None,
        }
    }
}

/// The step of a panel in a rebuild.
pub open spec fn rebuild_step(w: WorldView, panel: InspectorPanel) -> PanelStep {
    match panel.target {
        Some(t) => match rebuild_source(w, t) {
            Some(e) => PanelStep::Show(e),
            None => PanelStep::Clear,
        },
        None => PanelStep::Keep,
    }
}

/// The entity of the first panel that is rebuilt.
pub open spec fn first_rebuilt(w: WorldView, panels: Seq<InspectorPanel>) -> Option<Entity>
    decreases panels.len(),
{
    if panels.len() == 0 {
        None
    } else {
        match first_rebuilt(w, panels.drop_last()) {
            Some(e) => Some(e),
            None => match rebuild_step(w, panels.last()) {
                PanelStep::Show(e) => Some(e),
                _ => None,
            },
        }
    }
}

/// The scene with an entity's inspector marked as built.
pub open spec fn cleaned(w: WorldView, e: Entity) -> WorldView {
    w.with_record(
        e,
        crate::world::RecordView {
            marks: Marks { inspector_dirty: false, ..w.entities[e].marks },
            ..w.entities[e]
        },
    )
}

/// Rebuilds every panel that shows an entity. A panel whose entity is gone goes over to the primary
/// selected entity. The first entity that is shown is then no longer marked for a rebuild. Returns
/// what changes in each panel.
pub fn on_inspector_dirty(
    world: &mut SceneWorld,
    panels: &mut Vec<InspectorPanel>,
    children: &Vec<PanelChildren>,
    sources: &Vec<InspectedEntity>,
    collapse_state: &InspectorCollapseState,
) -> (r: Vec<PanelChange>)
    requires
        children@.len() == old(panels)@.len(),
    ensures
        are_changes(
            old(world)@,
            Seq::new(old(panels)@.len(), |i: int| rebuild_step(old(world)@, old(panels)@[i])),
            children@,
            sources@,
            old(world).selection.len(),
            collapse_state@,
            r@,
        ),
        rebuilt(old(world)@, final(world)@, old(panels)@, final(panels)@),
{
    let (steps, first) = rebuild_panels(world, panels);
    let changes: Vec<PanelChange> = change_panels(
        world,
        &steps,
        children,
        sources,
        collapse_state,
    );
    let ghost w = world@;
    if let Some(e) = first {
        let marks: Marks = world.marks(e);
        world.set_marks(e, Marks { inspector_dirty: false, ..marks });
        assert(world@ =~= cleaned(w, e));
    }
    changes
}

/// Whether panels and scene became others by a rebuild: each panel shows what it is rebuilt from, and
/// the first entity that is shown is no longer marked.
pub open spec fn rebuilt(
    before: WorldView,
    after: WorldView,
    panels: Seq<InspectorPanel>,
    panels_after: Seq<InspectorPanel>,
) -> bool {
    &&& panels_after == Seq::new(
        panels.len(),
        |i: int|
            match rebuild_step(before, panels[i]) {
                PanelStep::Show(e) => InspectorPanel { target: Some(e), ..panels[i] },
                _ => panels[i],
            },
    )
    &&& after == (match first_rebuilt(before, panels) {
        Some(e) => cleaned(before, e),
        None => before,
    })
}

/// The panels after a rebuild, the step of each, and the entity of the first that is rebuilt.
fn rebuild_panels(world: &SceneWorld, panels: &mut Vec<InspectorPanel>) -> (r: (
    Vec<PanelStep>,
    Option<Entity>,
))
    ensures
        r.0@ == Seq::new(old(panels)@.len(), |i: int| rebuild_step(world@, old(panels)@[i])),
        r.1 == first_rebuilt(world@, old(panels)@),
        final(panels)@ == Seq::new(
            old(panels)@.len(),
            |i: int|
                match rebuild_step(world@, old(panels)@[i]) {
                    PanelStep::Show(e) => InspectorPanel { target: Some(e), ..old(panels)@[i] },
                    _ => old(panels)@[i],
                },
        ),
{
    let ghost start = panels@;
    let ghost w = world@;
    let n: usize = panels.len();
    let mut steps: Vec<PanelStep> = Vec::new();
    let mut first: Option<Entity> = None;
    let mut i: usize = 0;
    assert(start.subrange(0, 0) =~= Seq::empty());
    while i < n
        invariant
            i <= n,
            n == start.len(),
            world@ == w,
            panels@.len() == n,
            steps@.len() == i,
            first == first_rebuilt(w, start.subrange(0, i as int)),
            forall|j: int| 0 <= j < i ==> #[trigger] steps@[j] == rebuild_step(w, start[j]),
            forall|j: int|
                0 <= j < n ==> (#[trigger] panels@[j]) == (if j < i {
                    match rebuild_step(w, start[j]) {
                        PanelStep::Show(e) => InspectorPanel { target: Some(e), ..start[j] },
                        _ => start[j],
                    }
                } else {
                    start[j]
                }),
        decreases n - i,
    {
        proof {
            assert(start.subrange(0, i + 1).drop_last() =~= start.subrange(0, i as int));
            assert(start.subrange(0, i + 1).last() == start[i as int]);
        }
        let panel: InspectorPanel = panels[i];
        let step: PanelStep = match panel.target {
            Some(t) => if is_inspectable(world, t) {
                PanelStep::Show(t)
            } else {
                match world.primary() {
                    Some(e) => if is_inspectable(world, e) {
                        PanelStep::Show(e)
                    } else {
                        PanelStep::Clear
                    },
                    None => PanelStep::Clear,
                }
            },
            None => PanelStep::Keep,
        };
        if let PanelStep::Show(e) = step {
            panels.set(i, InspectorPanel { target: Some(e), ..panel });
            if first.is_none() {
                first = Some(e);
            }
        }
        steps.push(step);
        i = i + 1;
    }
    assert(start.subrange(0, i as int) =~= start);
    assert(steps@ =~= Seq::new(start.len(), |i: int| rebuild_step(w, start[i])));
    assert(panels@ =~= Seq::new(
        start.len(),
        |i: int|
            match rebuild_step(w, start[i]) {
                PanelStep::Show(e) => InspectorPanel { target: Some(e), ..start[i] },
                _ => start[i],
            },
    ));
    (steps, first)
}

/// The children of a panel that a rebuild takes away: cards and pickers.
pub open spec fn displays_among(children: Seq<(Entity, bool)>) -> Seq<Entity>
    decreases children.len(),
{
    if children.len() == 0 {
        Seq::empty()
    } else {
        let before = displays_among(children.drop_last());
        if children.last().1 {
            before.push(children.last().0)
        } else {
            before
        }
    }
}

/// The children of a panel that a rebuild takes away. Each child comes with whether it is a card or a
/// picker.
pub fn despawn_inspector_display_children(children: &Vec<(Entity, bool)>) -> (r: Vec<Entity>)
    ensures
        r@ == displays_among(children@),
{
    let mut out: Vec<Entity> = Vec::new();
    let mut i: usize = 0;
    assert(children@.subrange(0, 0) =~= Seq::empty());
    while i < children.len()
        invariant
            i <= children.len(),
            out@ == displays_among(children@.subrange(0, i as int)),
        decreases children.len() - i,
    {
        proof {
            assert(children@.subrange(0, i + 1).drop_last() =~= children@.subrange(0, i as int));
            assert(children@.subrange(0, i + 1).last() == children@[i as int]);
        }
        if children[i].1 {
            out.push(children[i].0);
        }
        i = i + 1;
    }
    assert(children@.subrange(0, i as int) =~= children@);
    out
}

/// A card as the search sees it.
#[derive(Debug)]
pub struct FilterCard {
    pub entity: Entity,
    pub name: String,
    /// The category that its type belongs to.
    pub category: String,
}

/// What the search looks for: the text without the spaces around it, in lower case.
pub open spec fn search_filter(text: Option<Seq<char>>) -> Seq<char> {
    match text {
        Some(t) => lower_case_of(trimmed(t)),
        None => Seq::empty(),
    }
}

/// Whether a card is visible: it is of the active category, and its name holds what is searched for.
pub open spec fn card_visible(card: FilterCard, category: Seq<char>, filter: Seq<char>) -> bool {
    card.category@ == category && (filter.len() == 0 || occurs_in(
        lower_case_of(card.name@),
        filter,
    ))
}

/// Whether a visible card is among children.
pub open spec fn any_visible(
    children: Seq<Entity>,
    cards: Seq<FilterCard>,
    category: Seq<char>,
    filter: Seq<char>,
) -> bool {
    exists|i: int|
        0 <= i < cards.len() && card_visible(#[trigger] cards[i], category, filter)
            && children.contains(cards[i].entity)
}

/// Which cards and which groups are visible.
#[derive(Debug)]
pub struct Visibilities {
    pub cards: Vec<bool>,
    pub groups: Vec<bool>,
}

/// Which cards and groups are visible, when the search or the category changed. A group is visible
/// when one of its cards is.
pub fn filter_inspector_components(
    search_changed: bool,
    category_changed: bool,
    search: Option<&str>,
    category: &str,
    cards: &Vec<FilterCard>,
    groups: &Vec<Vec<Entity>>,
) -> (r: Option<Visibilities>)
    ensures
        ({
            let filter = search_filter(
                match search {
                    Some(t) => Some(t@),
                    None => None,
                },
            );
            match r {
                Some(v) => {
                    &&& search_changed || category_changed
                    &&& v.cards@ == Seq::new(
                        cards@.len(),
                        |i: int| card_visible(cards@[i], category@, filter),
                    )
                    &&& v.groups@ == Seq::new(
                        groups@.len(),
                        |i: int| any_visible(groups@[i]@, cards@, category@, filter),
                    )
                },
                None => !search_changed && !category_changed,
            }
        }),
{
    if !search_changed && !category_changed {
        return None;
    }
    let filter: String = match search {
        Some(t) => to_lowercase(trim(t).as_str()),
        None => String::new(),
    };
    let empty: bool = filter.as_str().unicode_len() == 0;
    let mut seen: Vec<bool> = Vec::new();
    let mut visible: Vec<Entity> = Vec::new();
    let mut i: usize = 0;
    while i < cards.len()
        invariant
            i <= cards.len(),
            empty == (filter@.len() == 0),
            seen@.len() == i,
            forall|j: int|
                0 <= j < i ==> #[trigger] seen@[j] == card_visible(cards@[j], category@, filter@),
            forall|e: Entity| #[trigger]
                visible@.contains(e) <==> (exists|j: int|
                    0 <= j < i && card_visible(#[trigger] cards@[j], category@, filter@)
                        && cards@[j].entity == e),
        decreases cards.len() - i,
    {
        let found: bool = empty || contains_text(
            to_lowercase(cards[i].name.as_str()).as_str(),
            filter.as_str(),
        );
        let shown: bool = text_eq(cards[i].category.as_str(), category) && found;
        seen.push(shown);
        let ghost before = visible@;
        if shown {
            visible.push(cards[i].entity);
        }
        proof {
            let c = cards@[i as int];
            assert forall|e: Entity| #[trigger] visible@.contains(e) <==> (exists|j: int|
                0 <= j < i + 1 && card_visible(#[trigger] cards@[j], category@, filter@)
                    && cards@[j].entity == e) by {
                if shown {
                    assert(visible@[before.len() as int] == c.entity);
                }
                if before.contains(e) {
                    let k = choose|k: int| 0 <= k < before.len() && before[k] == e;
                    assert(visible@[k] == e);
                }
                if visible@.contains(e) && !before.contains(e) {
                    let k = choose|k: int| 0 <= k < visible@.len() && visible@[k] == e;
                    if k < before.len() {
                        assert(before[k] == e);
                    }
                    assert(card_visible(cards@[i as int], category@, filter@));
                }
            }
        }
        i = i + 1;
    }
    assert(seen@ =~= Seq::new(
        cards@.len(),
        |i: int| card_visible(cards@[i], category@, filter@),
    ));
    let mut shown_groups: Vec<bool> = Vec::new();
    let mut g: usize = 0;
    while g < groups.len()
        invariant
            g <= groups.len(),
            shown_groups@.len() == g,
            forall|e: Entity| #[trigger]
                visible@.contains(e) <==> (exists|j: int|
                    0 <= j < cards@.len() && card_visible(#[trigger] cards@[j], category@, filter@)
                        && cards@[j].entity == e),
            forall|j: int|
                0 <= j < g ==> #[trigger] shown_groups@[j] == any_visible(
                    groups@[j]@,
                    cards@,
                    category@,
                    filter@,
                ),
        decreases groups.len() - g,
    {
        let children: &Vec<Entity> = &groups[g];
        let mut any: bool = false;
        let mut k: usize = 0;
        while k < children.len() && !any
            invariant
                k <= children.len(),
                any ==> exists|j: int|
                    0 <= j < children@.len() && visible@.contains(#[trigger] children@[j]),
                !any ==> forall|j: int| 0 <= j < k ==> !visible@.contains(#[trigger] children@[j]),
            decreases children.len() - k,
        {
            if contains(&visible, children[k]) {
                assert(visible@.contains(children@[k as int]));
                any = true;
            }
            k = k + 1;
        }
        proof {
            if any {
                let j = choose|j: int|
                    0 <= j < children@.len() && visible@.contains(#[trigger] children@[j]);
                let i = choose|i: int|
                    0 <= i < cards@.len() && card_visible(#[trigger] cards@[i], category@, filter@)
                        && cards@[i].entity == children@[j];
                assert(children@.contains(cards@[i].entity));
            }
            if any_visible(children@, cards@, category@, filter@) {
                let i = choose|i: int|
                    0 <= i < cards@.len() && card_visible(#[trigger] cards@[i], category@, filter@)
                        && children@.contains(cards@[i].entity);
                let j = choose|j: int| 0 <= j < children@.len() && children@[j] == cards@[i].entity;
                assert(visible@.contains(cards@[i].entity));
                assert(visible@.contains(children@[j]));
            }
        }
        shown_groups.push(any);
        g = g + 1;
    }
    assert(shown_groups@ =~= Seq::new(
        groups@.len(),
        |i: int| any_visible(groups@[i]@, cards@, category@, filter@),
    ));
    Some(Visibilities { cards: seen, groups: shown_groups })
}

/// Without a search every card of the active category is visible, and no card of another category
/// ever is.
pub proof fn law_category_goes_first(card: FilterCard, category: Seq<char>, filter: Seq<char>)
    ensures
        card.category@ != category ==> !card_visible(card, category, filter),
        card.category@ == category && filter.len() == 0 ==> card_visible(card, category, filter),
{
}

/// While the selection stays, a panel that shows the primary entity is left alone, and one that shows
/// nothing waits for it. A panel never goes over to an entity that is gone or the editor's own.
pub proof fn law_steps_of_a_panel(
    w: WorldView,
    panel: InspectorPanel,
    changed: bool,
    desired: Option<Entity>,
)
    ensures
        !changed && panel.target == desired ==> panel_step(w, panel, changed, desired)
            == PanelStep::Keep,
        panel_step(w, panel, changed, desired) matches PanelStep::Show(e) ==> desired == Some(e)
            && w.alive(e) && !w.entities[e].marks.editor_entity,
        changed && desired is None ==> panel_step(w, panel, changed, desired) == PanelStep::Clear,
        changed && (desired matches Some(e) && w.alive(e) && !w.entities[e].marks.editor_entity)
            ==> panel_step(w, panel, changed, desired) == PanelStep::Show(desired->0),
        panel.target is None && (desired matches Some(e) && !w.alive(e)) ==> panel_step(
            w,
            panel,
            changed,
            desired,
        ) == PanelStep::Keep,
        panel.target is Some && panel.target != desired && (desired matches Some(e) && !w.alive(e))
            ==> panel_step(w, panel, changed, desired) == PanelStep::Clear,
{
}

/// A rebuild shows the entity of a panel again while it is there, and otherwise goes over to the one
/// selected last, if that can be shown. A panel that shows nothing stays.
pub proof fn law_rebuilt_panels(
    before: WorldView,
    after: WorldView,
    panels: Seq<InspectorPanel>,
    panels_after: Seq<InspectorPanel>,
    i: int,
)
    requires
        rebuilt(before, after, panels, panels_after),
        0 <= i < panels.len(),
    ensures
        panels_after.len() == panels.len(),
        panels_after[i].entity == panels[i].entity,
        panels[i].target is None ==> panels_after[i].target is None,
        panels[i].target matches Some(t) ==> (before.alive(t)
            && !before.entities[t].marks.editor_entity ==> panels_after[i].target == Some(t)),
        panels[i].target matches Some(t) ==> (!before.alive(t) && before.selection.len() > 0
            && before.alive(before.selection.last())
            && !before.entities[before.selection.last()].marks.editor_entity
            ==> panels_after[i].target == Some(before.selection.last())),
{
}

/// After a rebuild the entity of the first panel that shows one is no longer marked for it. No other
/// mark and no other entity changes.
pub proof fn law_rebuild_takes_the_mark_off(
    before: WorldView,
    after: WorldView,
    panels: Seq<InspectorPanel>,
    panels_after: Seq<InspectorPanel>,
    i: int,
    e: Entity,
)
    requires
        rebuilt(before, after, panels, panels_after),
        0 <= i < panels.len(),
        panels[i].target == Some(e),
        before.alive(e),
        !before.entities[e].marks.editor_entity,
        forall|j: int| 0 <= j < i ==> (#[trigger] panels[j]).target is None,
    ensures
        after.alive(e),
        !after.entities[e].marks.inspector_dirty,
        after.entities[e].marks.selected == before.entities[e].marks.selected,
        after.entities[e].components == before.entities[e].components,
        forall|x: Entity| x != e ==> #[trigger] after.entities[x] == before.entities[x],
{
    lemma_first_rebuilt(before, panels, i, e);
}

proof fn lemma_first_rebuilt(w: WorldView, panels: Seq<InspectorPanel>, i: int, e: Entity)
    requires
        0 <= i < panels.len(),
        panels[i].target == Some(e),
        w.alive(e),
        !w.entities[e].marks.editor_entity,
        forall|j: int| 0 <= j < i ==> (#[trigger] panels[j]).target is None,
    ensures
        first_rebuilt(w, panels) == Some(e),
    decreases panels.len(),
{
    let init = panels.drop_last();
    let last = panels.len() - 1;
    if i < last {
        assert(init[i] == panels[i]);
        assert forall|j: int| 0 <= j < i implies (#[trigger] init[j]).target is None by {
            assert(init[j] == panels[j]);
        }
        lemma_first_rebuilt(w, init, i, e);
    } else {
        assert forall|j: int| 0 <= j < init.len() implies (#[trigger] init[j]).target is None by {
            assert(init[j] == panels[j]);
        }
        lemma_none_rebuilt(w, init);
    }
}

proof fn lemma_none_rebuilt(w: WorldView, panels: Seq<InspectorPanel>)
    requires
        forall|j: int| 0 <= j < panels.len() ==> (#[trigger] panels[j]).target is None,
    ensures
        first_rebuilt(w, panels) is None,
    decreases panels.len(),
{
    if panels.len() > 0 {
        let init = panels.drop_last();
        assert(panels[panels.len() - 1].target is None);
        assert forall|j: int| 0 <= j < init.len() implies (#[trigger] init[j]).target is None by {
            assert(init[j] == panels[j]);
        }
        lemma_none_rebuilt(w, init);
    }
}

/// What a rebuild takes away from a panel is exactly its cards and pickers.
pub proof fn law_displays_are_taken_away(children: Seq<(Entity, bool)>, e: Entity)
    ensures
        displays_among(children).contains(e) <==> children.contains((e, true)),
    decreases children.len(),
{
    if children.len() > 0 {
        let init = children.drop_last();
        law_displays_are_taken_away(init, e);
        assert(children =~= init.push(children.last()));
        crate::seqs::lemma_push_contains(init, children.last(), (e, true));
        crate::seqs::lemma_push_contains(displays_among(init), children.last().0, e);
    }
}

/// A search finds a card of the active category by any part of its name, in lower case, and no other
/// card of it.
pub proof fn law_search_finds_by_name(card: FilterCard, category: Seq<char>, filter: Seq<char>)
    requires
        card.category@ == category,
        filter.len() > 0,
    ensures
        card_visible(card, category, filter) <==> occurs_in(lower_case_of(card.name@), filter),
{
}

} // verus!
