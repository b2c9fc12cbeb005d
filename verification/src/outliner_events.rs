//! What the outliner does when the scene, the selection or a row changes.
use vstd::prelude::*;
use crate::entity_ops::{visibility_in, visibility_of, Visibility, VISIBILITY_TYPE_PATH};
use crate::hierarchy::current_outliner_roots;
use crate::outliner::{
    has_row, has_row_anywhere, is_row, placed, placements, reconciled, Outliner, OutlinerView,
    RowView, TreeRow,
};
use crate::outliner_laws::{
    elsewhere, law_open_rows_show_all_below, law_reconcile_keeps_other_panels,
    law_reconciled_panel, rows_unique, shown_downwards,
};
use crate::selection::reselected;
use crate::seqs::{
    contains, first_index, lemma_filter_contains, lemma_first_index, lemma_first_index_is, without,
};
use crate::text::text_of;
use crate::value::{variant_view, BsnStructData, Entity};
use crate::world::{component_index, typed, with_component, SceneWorld, WorldView};

verus! {

broadcast use vstd::std_specs::hash::group_hash_axioms;

/// The outliner with several panels brought in line with the scene in turn.
pub open spec fn all_reconciled(
    w: WorldView,
    live: bool,
    icons: Seq<(Entity, String)>,
    o: OutlinerView,
    containers: Seq<Entity>,
    roots: Seq<Entity>,
) -> OutlinerView
    decreases containers.len(),
{
    if containers.len() == 0 {
        o
    } else {
        reconciled(
            w,
            live,
            icons,
            all_reconciled(w, live, icons, o, containers.drop_last(), roots),
            containers.last(),
            roots,
        )
    }
}

/// Whether the numbers for fresh rows last for all panels.
pub open spec fn ids_last(
    w: WorldView,
    live: bool,
    icons: Seq<(Entity, String)>,
    o: OutlinerView,
    containers: Seq<Entity>,
    roots: Seq<Entity>,
) -> bool {
    forall|i: int|
        0 <= i < containers.len() ==> {
            let before = all_reconciled(w, live, icons, o, containers.subrange(0, i), roots);
            before.next_id + 2 * placements(
                w,
                live,
                before.rows,
                #[trigger] containers[i],
                roots,
            ).len() <= u64::MAX
        }
}

/// What the outliner shows at the top.
pub open spec fn roots_of(w: WorldView, live: bool, live_entities: Seq<Entity>) -> Seq<Entity> {
    if live {
        w.live_roots(live_entities)
    } else {
        w.members_at(w.doc.roots)
    }
}

/// Brings every panel in line with the scene. `icons` are those that are registered for entities.
pub fn reconcile_outliner(
    outliner: &mut Outliner,
    world: &SceneWorld,
    live: bool,
    icons: &Vec<(Entity, String)>,
    live_entities: &Vec<Entity>,
    containers: &Vec<Entity>,
)
    requires
        world@.entities.len() < usize::MAX,
        ids_last(
            world@,
            live,
            icons@,
            old(outliner)@,
            containers@,
            roots_of(world@, live, live_entities@),
        ),
    ensures
        final(outliner)@ == all_reconciled(
            world@,
            live,
            icons@,
            old(outliner)@,
            containers@,
            roots_of(world@, live, live_entities@),
        ),
{
    let roots: Vec<Entity> = current_outliner_roots(world, live, live_entities);
    let ghost start = outliner@;
    let mut i: usize = 0;
    assert(containers@.subrange(0, 0) =~= Seq::empty());
    while i < containers.len()
        invariant
            i <= containers.len(),
            world@.entities.len() < usize::MAX,
            ids_last(world@, live, icons@, start, containers@, roots@),
            outliner@ == all_reconciled(
                world@,
                live,
                icons@,
                start,
                containers@.subrange(0, i as int),
                roots@,
            ),
        decreases containers.len() - i,
    {
        proof {
            assert(containers@.subrange(0, i + 1).drop_last() =~= containers@.subrange(
                0,
                i as int,
            ));
            assert(containers@.subrange(0, i + 1).last() == containers@[i as int]);
        }
        outliner.reconcile_container(world, live, icons, containers[i], &roots);
        i = i + 1;
    }
    assert(containers@.subrange(0, i as int) =~= containers@);
}

/// Takes every row out.
pub fn despawn_tree_rows(outliner: &mut Outliner)
    ensures
        final(outliner)@ == (OutlinerView { rows: Seq::empty(), ..old(outliner)@ }),
{
    outliner.rows = Vec::new();
    assert(outliner@.rows =~= Seq::empty());
}

/// Starts over when the outliner changes between the scene and the running game.
pub fn sync_pie_live_outliner(
    outliner: &mut Outliner,
    mode_changed: bool,
    world: &SceneWorld,
    live: bool,
    icons: &Vec<(Entity, String)>,
    live_entities: &Vec<Entity>,
    containers: &Vec<Entity>,
)
    requires
        world@.entities.len() < usize::MAX,
        ids_last(
            world@,
            live,
            icons@,
            (OutlinerView { rows: Seq::empty(), ..old(outliner)@ }),
            containers@,
            roots_of(world@, live, live_entities@),
        ),
    ensures
        !mode_changed ==> *final(outliner) == *old(outliner),
        mode_changed ==> final(outliner)@ == all_reconciled(
            world@,
            live,
            icons@,
            (OutlinerView { rows: Seq::empty(), ..old(outliner)@ }),
            containers@,
            roots_of(world@, live, live_entities@),
        ),
{
    if mode_changed {
        despawn_tree_rows(outliner);
        reconcile_outliner(outliner, world, live, icons, live_entities, containers);
    }
}

/// The ancestors of `cursor`, the nearest first, up to one that was seen, and up to `depth`.
pub open spec fn chain_up(w: WorldView, cursor: Entity, seen: Seq<Entity>, depth: nat) -> Seq<Entity>
    decreases depth,
{
    match w.parent_of(cursor) {
        Some(p) => if depth == 0 || seen.contains(p) {
            Seq::empty()
        } else {
            seq![p] + chain_up(w, p, seen.push(p), (depth - 1) as nat)
        },
        None => Seq::empty(),
    }
}

/// The ancestors of an entity from the highest down, as far as they do not repeat.
pub open spec fn path_to(w: WorldView, target: Entity) -> Seq<Entity> {
    chain_up(w, target, seq![target], w.entities.len()).reverse()
}

/// The entities whose rows have to be expanded, from the highest down, before `target` can have a
/// row. While entities of a running game move about, parents may form a cycle for a moment: the
/// walk ends where it would repeat.
pub fn reveal_path(world: &SceneWorld, target: Entity) -> (r: Vec<Entity>)
    ensures
        r@ == path_to(world@, target),
{
    let mut up: Vec<Entity> = Vec::new();
    let mut seen: Vec<Entity> = Vec::new();
    seen.push(target);
    let mut cursor: Entity = target;
    assert(world@.entities.dom() =~= world.entities@.dom());
    let mut depth: usize = world.entities.len();
    let ghost goal = chain_up(world@, target, seq![target], world@.entities.len());
    assert(seen@ =~= seq![target]);
    assert(up@ + chain_up(world@, cursor, seen@, depth as nat) =~= goal);
    let mut going: bool = true;
    while going && depth > 0
        invariant
            going ==> goal == up@ + chain_up(world@, cursor, seen@, depth as nat),
            !going ==> goal == up@,
        decreases depth,
    {
        match world.parent(cursor) {
            Some(p) => {
                if contains(&seen, p) {
                    going = false;
                    assert(goal =~= up@);
                } else {
                    let ghost before = up@;
                    let ghost rest = chain_up(world@, p, seen@.push(p), (depth - 1) as nat);
                    up.push(p);
                    seen.push(p);
                    cursor = p;
                    assert(before + (seq![p] + rest) =~= up@ + rest);
                }
            },
            None => {
                going = false;
                assert(goal =~= up@);
            },
        }
        depth = depth - 1;
    }
    assert(goal =~= up@);
    let mut out: Vec<Entity> = Vec::new();
    let mut i: usize = up.len();
    while i > 0
        invariant
            i <= up.len(),
            out@ == up@.subrange(i as int, up@.len() as int).reverse(),
        decreases i,
    {
        i = i - 1;
        out.push(up[i]);
        assert(out@ =~= up@.subrange(i as int, up@.len() as int).reverse());
    }
    assert(up@.subrange(0, up@.len() as int) =~= up@);
    out
}

proof fn lemma_chain_up(w: WorldView, cursor: Entity, seen: Seq<Entity>, depth: nat)
    ensures
        ({
            let c = chain_up(w, cursor, seen, depth);
            &&& c.no_duplicates()
            &&& forall|i: int| 0 <= i < c.len() ==> !seen.contains(#[trigger] c[i])
            &&& c.len() > 0 ==> w.parent_of(cursor) == Some(c[0])
            &&& forall|i: int|
                0 < i < c.len() ==> w.parent_of(c[i - 1]) == Some(#[trigger] c[i])
        }),
    decreases depth,
{
    let c = chain_up(w, cursor, seen, depth);
    if c.len() > 0 {
        let p = w.parent_of(cursor)->0;
        let rest = chain_up(w, p, seen.push(p), (depth - 1) as nat);
        lemma_chain_up(w, p, seen.push(p), (depth - 1) as nat);
        assert forall|i: int| 0 <= i < c.len() implies !seen.contains(#[trigger] c[i]) by {
            if i > 0 {
                assert(c[i] == rest[i - 1]);
                if seen.contains(c[i]) {
                    let k = choose|k: int| 0 <= k < seen.len() && seen[k] == c[i];
                    assert(seen.push(p)[k] == c[i]);
                }
            }
        }
        assert forall|i: int, j: int| 0 <= i < c.len() && 0 <= j < c.len() && i != j implies c[i]
            != c[j] by {
            assert(seen.push(p)[seen.len() as int] == p);
            if i > 0 {
                assert(c[i] == rest[i - 1]);
            }
            if j > 0 {
                assert(c[j] == rest[j - 1]);
            }
        }
        assert forall|i: int| 0 < i < c.len() implies w.parent_of(c[i - 1]) == Some(
            #[trigger] c[i],
        ) by {
            assert(c[i] == rest[i - 1]);
            if i > 1 {
                assert(c[i - 1] == rest[i - 2]);
            }
        }
    }
}

/// The walk up from an entity ends at one without a parent, or where the parent was walked over.
proof fn lemma_chain_end(w: WorldView, cursor: Entity, seen: Seq<Entity>, depth: nat)
    requires
        w.entities.dom().finite(),
        seen.no_duplicates(),
        seen.len() > 0,
        seen.last() == cursor,
        forall|i: int| 0 <= i < seen.len() - 1 ==> w.entities.contains_key(#[trigger] seen[i]),
        seen.len() - 1 + depth == w.entities.len(),
    ensures
        ({
            let c = chain_up(w, cursor, seen, depth);
            let top = if c.len() > 0 {
                c.last()
            } else {
                cursor
            };
            w.parent_of(top) matches Some(p) ==> seen.contains(p) || c.contains(p)
        }),
    decreases depth,
{
    let c = chain_up(w, cursor, seen, depth);
    if let Some(p) = w.parent_of(cursor) {
        if seen.contains(p) {
        } else if depth == 0 {
            assert(w.entities.contains_key(cursor));
            assert(seen.to_set().subset_of(w.entities.dom())) by {
                assert forall|e: Entity| seen.to_set().contains(e) implies w.entities.dom().contains(
                    e,
                ) by {
                    let i = choose|i: int| 0 <= i < seen.len() && seen[i] == e;
                }
            }
            seen.unique_seq_to_set();
            vstd::set_lib::lemma_len_subset(seen.to_set(), w.entities.dom());
        } else {
            let next = seen.push(p);
            let rest = chain_up(w, p, next, (depth - 1) as nat);
            lemma_chain_end(w, p, next, (depth - 1) as nat);
            let top = if rest.len() > 0 {
                rest.last()
            } else {
                p
            };
            assert(c[0] == p);
            assert(c.last() == top);
            if let Some(q) = w.parent_of(top) {
                if next.contains(q) {
                    let i = choose|i: int| 0 <= i < next.len() && next[i] == q;
                    if i < seen.len() {
                        assert(seen[i] == q);
                    } else {
                        assert(c[0] == q);
                    }
                } else {
                    let i = choose|i: int| 0 <= i < rest.len() && rest[i] == q;
                    assert(c[i + 1] == q);
                }
            }
        }
    }
}

/// The path to an entity holds no entity twice and not the entity itself; each entity on it is the
/// parent of the next, and the last one is the parent of the entity. It goes all the way up: the
/// first entity on it has no parent, or one that is on the path or is the entity itself.
pub proof fn law_reveal_path(w: WorldView, target: Entity)
    requires
        w.entities.dom().finite(),
    ensures
        ({
            let path = path_to(w, target);
            &&& path.no_duplicates()
            &&& !path.contains(target)
            &&& path.len() > 0 ==> w.parent_of(target) == Some(path.last())
            &&& forall|i: int|
                0 <= i < path.len() - 1 ==> w.parent_of(path[i + 1]) == Some(#[trigger] path[i])
            &&& w.parent_of(
                if path.len() > 0 {
                    path[0]
                } else {
                    target
                },
            ) matches Some(p) ==> p == target || path.contains(p)
        }),
{
    let c = chain_up(w, target, seq![target], w.entities.len());
    lemma_chain_up(w, target, seq![target], w.entities.len());
    let path = path_to(w, target);
    assert(seq![target].contains(seq![target][0]));
    lemma_chain_end(w, target, seq![target], w.entities.len());
    if let Some(p) = w.parent_of(
        if c.len() > 0 {
            c.last()
        } else {
            target
        },
    ) {
        if c.contains(p) {
            let i = choose|i: int| 0 <= i < c.len() && c[i] == p;
            assert(path[c.len() - 1 - i] == p);
        } else {
            let i = choose|i: int| 0 <= i < seq![target].len() && seq![target][i] == p;
        }
    }
    assert forall|i: int| 0 <= i < path.len() - 1 implies w.parent_of(path[i + 1]) == Some(
        #[trigger] path[i],
    ) by {
        assert(path[i] == c[c.len() - 1 - i]);
        assert(path[i + 1] == c[c.len() - 2 - i]);
    }
    if path.contains(target) {
        let i = choose|i: int| 0 <= i < path.len() && path[i] == target;
        assert(c[c.len() - 1 - i] == target);
    }
}

/// The entity that the outliner has to open up to, and for how many more frames it tries.
#[derive(Clone, Copy, Debug, PartialEq, Eq, Structural)]
pub struct RevealTarget {
    pub entity: Option<Entity>,
    pub frames_left: u8,
}

/// For how many frames an entity is tried to be revealed.
pub const REVEAL_FRAMES: u8 = 16;

/// Sets out to reveal the primary entity when the selection changed, the running game is shown, and
/// that entity has no row yet.
pub fn watch_selection_for_reveal(
    aim: &mut RevealTarget,
    world: &SceneWorld,
    outliner: &Outliner,
    selection_changed: bool,
    live: bool,
)
    ensures
        *final(aim) == (match world@.primary() {
            Some(primary) => if selection_changed && live && !has_row_anywhere(
                outliner@.rows,
                primary,
            ) {
                (RevealTarget { entity: Some(primary), frames_left: 16 })
            } else {
                *old(aim)
            },
            None => *old(aim),
        }),
{
    if !selection_changed || !live {
        return ;
    }
    if let Some(primary) = world.primary() {
        if !outliner.contains_anywhere(primary) {
            aim.entity = Some(primary);
            aim.frames_left = REVEAL_FRAMES;
        }
    }
}

pub open spec fn is_closed_row(source: Entity) -> spec_fn(RowView) -> bool {
    |r: RowView| r.source == source && !r.expanded
}

/// The position of the row to expand: that of the last entity on the path with a closed row, the one
/// nearest to the target.
pub open spec fn row_to_expand(rows: Seq<RowView>, path: Seq<Entity>) -> Option<int>
    decreases path.len(),
{
    if path.len() == 0 {
        None
    } else {
        let i = first_index(rows, is_closed_row(path.last()));
        if i < rows.len() {
            Some(i)
        } else {
            row_to_expand(rows, path.drop_last())
        }
    }
}

/// The rows and the target after one frame of revealing.
pub open spec fn revealed(w: WorldView, rows: Seq<RowView>, aim: RevealTarget) -> (
    Seq<RowView>,
    RevealTarget,
) {
    match aim.entity {
        None => (rows, aim),
        Some(target) => if has_row_anywhere(rows, target) {
            (rows, RevealTarget { entity: None, frames_left: 0 })
        } else if aim.frames_left == 0 {
            (rows, RevealTarget { entity: None, frames_left: 0 })
        } else {
            let left = (aim.frames_left - 1) as u8;
            match row_to_expand(rows, path_to(w, target)) {
                Some(i) => (
                    rows.update(i, RowView { expanded: true, ..rows[i] }),
                    RevealTarget { frames_left: left, ..aim },
                ),
                None => (
                    rows,
                    RevealTarget {
                        entity: if left == 0 {
                            None
                        } else {
                            aim.entity
                        },
                        frames_left: left,
                    },
                ),
            }
        },
    }
}

fn find_row_to_expand(outliner: &Outliner, path: &Vec<Entity>) -> (r: Option<usize>)
    ensures
        match r {
            Some(i) => row_to_expand(outliner@.rows, path@) == Some(i as int) && i
                < outliner.rows@.len(),
            None => row_to_expand(outliner@.rows, path@) is None,
        },
{
    let mut k: usize = path.len();
    assert(path@.take(k as int) =~= path@);
    while k > 0
        invariant
            k <= path.len(),
            row_to_expand(outliner@.rows, path@) == row_to_expand(
                outliner@.rows,
                path@.take(k as int),
            ),
        decreases k,
    {
        let ghost rest = path@.take(k as int);
        let ghost p = is_closed_row(path@[k - 1]);
        assert(rest.last() == path@[k - 1]);
        assert(rest.drop_last() =~= path@.take(k - 1));
        let mut i: usize = 0;
        while i < outliner.rows.len()
            invariant
                i <= outliner.rows.len(),
                0 < k <= path.len(),
                p == is_closed_row(path@[k - 1]),
                rest == path@.take(k as int),
                rest.last() == path@[k - 1],
                row_to_expand(outliner@.rows, path@) == row_to_expand(outliner@.rows, rest),
                forall|j: int| 0 <= j < i ==> !p(#[trigger] outliner@.rows[j]),
            decreases outliner.rows.len() - i,
        {
            assert(outliner@.rows[i as int] == outliner.rows@[i as int]@);
            if outliner.rows[i].source == path[k - 1] && !outliner.rows[i].expanded {
                proof {
                    lemma_first_index_is(outliner@.rows, p, i as int);
                }
                return Some(i);
            }
            i = i + 1;
        }
        proof {
            lemma_first_index_is(outliner@.rows, p, outliner@.rows.len() as int);
        }
        k = k - 1;
    }
    None
}

/// One frame of revealing: opens the closed row on the path that is nearest to the target. The target
/// is dropped once it has a row, or when the frames run out without a row to open.
pub fn drive_reveal_target(world: &SceneWorld, outliner: &mut Outliner, aim: &mut RevealTarget)
    ensures
        (final(outliner)@.rows, *final(aim)) == revealed(
            world@,
            old(outliner)@.rows,
            *old(aim),
        ),
        final(outliner).next_id == old(outliner).next_id,
{
    let target: Entity = match aim.entity {
        Some(t) => t,
        None => {
            return ;
        },
    };
    if outliner.contains_anywhere(target) {
        aim.entity = None;
        aim.frames_left = 0;
        return ;
    }
    if aim.frames_left == 0 {
        aim.entity = None;
        return ;
    }
    aim.frames_left = aim.frames_left - 1;
    let path: Vec<Entity> = reveal_path(world, target);
    let ghost before = outliner@.rows;
    match find_row_to_expand(outliner, &path) {
        Some(i) => {
            let row: &mut TreeRow = &mut outliner.rows[i];
            row.expanded = true;
            assert(outliner@.rows =~= before.update(
                i as int,
                RowView { expanded: true, ..before[i as int] },
            ));
        },
        None => {
            if aim.frames_left == 0 {
                aim.entity = None;
            }
        },
    }
}

/// Revealing ends: a target with no frames left is dropped, and every other frame that keeps one
/// uses a frame up.
pub proof fn law_reveal_ends(w: WorldView, rows: Seq<RowView>, aim: RevealTarget)
    ensures
        ({
            let after = revealed(w, rows, aim).1;
            &&& after.entity is Some ==> aim.entity == after.entity && after.frames_left
                < aim.frames_left
            &&& aim.entity is Some && aim.frames_left == 0 ==> after.entity is None
        }),
{
}

/// The first time a row is expanded, the rows below it are to be kept. Rows of a remote game have
/// a browser of their own.
pub fn on_tree_node_expanded(outliner: &mut Outliner, at: usize, remote: bool)
    requires
        at < old(outliner).rows@.len(),
    ensures
        final(outliner)@.rows == (if old(outliner)@.rows[at as int].expanded && !remote {
            old(outliner)@.rows.update(
                at as int,
                RowView { populated: true, ..old(outliner)@.rows[at as int] },
            )
        } else {
            old(outliner)@.rows
        }),
        final(outliner).next_id == old(outliner).next_id,
{
    let ghost before = outliner@.rows;
    if outliner.rows[at].expanded && !remote {
        let row: &mut TreeRow = &mut outliner.rows[at];
        row.populated = true;
        assert(outliner@.rows =~= before.update(
            at as int,
            RowView { populated: true, ..before[at as int] },
        ));
    }
}

/// The scene after a click on an entity's row: with the control key the entity joins or leaves the
/// selection; without it a selected entity clears the selection, and another is selected alone.
pub open spec fn clicked(w: WorldView, source: Entity, ctrl: bool) -> WorldView {
    if ctrl {
        if w.selection.contains(source) {
            WorldView { selection: without(w.selection, source), ..w.marked(source, false) }
        } else {
            WorldView { selection: w.selection.push(source), ..w.marked(source, true) }
        }
    } else if w.selection.contains(source) {
        reselected(w, Seq::empty())
    } else {
        reselected(w, seq![source])
    }
}

/// A click on a row. `row` is the row that was hit, if it is one of the outliner's; it gets the
/// keyboard focus. Rows of a remote game have a browser of their own.
pub fn on_tree_row_clicked(
    world: &mut SceneWorld,
    focused: &mut Option<Entity>,
    source: Entity,
    row: Option<Entity>,
    ctrl: bool,
    remote: bool,
)
    ensures
        remote ==> final(world)@ == old(world)@ && *final(focused) == *old(focused),
        !remote ==> final(world)@ == clicked(old(world)@, source, ctrl),
        !remote ==> *final(focused) == (if row is Some {
            row
        } else {
            *old(focused)
        }),
        final(world).document == old(world).document,
{
    if remote {
        return ;
    }
    if ctrl {
        world.toggle_selected(source);
    } else if contains(&world.selection, source) {
        world.clear_selection();
    } else {
        world.select_single(source);
    }
    if row.is_some() {
        *focused = row;
    }
}

/// Something that changes in the rows of one entity.
pub enum RowChange {
    Selected(bool),
    Label(String),
    Glyph(String),
    Eye(bool),
    Parent,
}

pub open spec fn row_changed(r: RowView, source: Entity, change: RowChange) -> RowView {
    if r.source != source {
        r
    } else {
        match change {
            RowChange::Selected(s) => RowView { selected: s, ..r },
            RowChange::Label(l) => RowView { label: l@, ..r },
            RowChange::Glyph(g) => RowView { glyph: Some(g@), ..r },
            RowChange::Eye(closed) => RowView { eye_closed: closed, ..r },
            RowChange::Parent => RowView { parent: r.container, ..r },
        }
    }
}

/// The rows after a change in those of one entity, in every panel.
pub open spec fn rows_changed(rows: Seq<RowView>, source: Entity, change: RowChange) -> Seq<RowView> {
    Seq::new(rows.len(), |i: int| row_changed(rows[i], source, change))
}

fn change_rows(outliner: &mut Outliner, source: Entity, change: &RowChange)
    ensures
        final(outliner)@.rows == rows_changed(old(outliner)@.rows, source, *change),
        final(outliner).next_id == old(outliner).next_id,
{
    let ghost all = outliner@.rows;
    let n: usize = outliner.rows.len();
    let mut i: usize = 0;
    while i < n
        invariant
            i <= n,
            n == all.len(),
            all == old(outliner)@.rows,
            outliner@.rows.len() == n,
            forall|j: int|
                0 <= j < n ==> (#[trigger] outliner@.rows[j]) == (if j < i {
                    row_changed(all[j], source, *change)
                } else {
                    all[j]
                }),
            outliner.next_id == old(outliner).next_id,
        decreases n - i,
    {
        let ghost before = outliner@.rows;
        assert(before[i as int] == all[i as int]);
        assert(outliner.rows@[i as int]@ == all[i as int]);
        if outliner.rows[i].source == source {
            let row: &mut TreeRow = &mut outliner.rows[i];
            match change {
                RowChange::Selected(s) => {
                    row.selected = *s;
                },
                RowChange::Label(l) => {
                    row.label = l.clone();
                },
                RowChange::Glyph(g) => {
                    row.glyph = Some(g.clone());
                },
                RowChange::Eye(closed) => {
                    row.eye_closed = *closed;
                },
                RowChange::Parent => {
                    row.parent = row.container;
                },
            }
        }
        assert(outliner@.rows =~= before.update(
            i as int,
            row_changed(all[i as int], source, *change),
        ));
        i = i + 1;
    }
    assert(outliner@.rows =~= rows_changed(old(outliner)@.rows, source, *change));
}

/// Highlights the rows of an entity that was selected.
pub fn on_entity_selected(outliner: &mut Outliner, entity: Entity)
    ensures
        final(outliner)@.rows == rows_changed(
            old(outliner)@.rows,
            entity,
            RowChange::Selected(true),
        ),
        final(outliner).next_id == old(outliner).next_id,
{
    change_rows(outliner, entity, &RowChange::Selected(true));
}

/// Takes the highlight off the rows of an entity that was deselected.
pub fn on_entity_deselected(outliner: &mut Outliner, entity: Entity)
    ensures
        final(outliner)@.rows == rows_changed(
            old(outliner)@.rows,
            entity,
            RowChange::Selected(false),
        ),
        final(outliner).next_id == old(outliner).next_id,
{
    change_rows(outliner, entity, &RowChange::Selected(false));
}

/// The rows with the label of an entity's rows set to its name.
pub open spec fn relabelled(rows: Seq<RowView>, source: Entity, name: Seq<char>) -> Seq<RowView> {
    Seq::new(
        rows.len(),
        |i: int|
            if rows[i].source == source {
                RowView { label: name, ..rows[i] }
            } else {
                rows[i]
            },
    )
}

/// Shows the name of an entity in its rows after it was changed in place. Without a name the rows stay
/// as they are.
pub fn on_name_mutated(outliner: &mut Outliner, entity: Entity, name: Option<String>)
    ensures
        final(outliner)@.rows == renamed_rows(old(outliner)@.rows, entity, text_of(name)),
        final(outliner).next_id == old(outliner).next_id,
{
    let ghost before = outliner@.rows;
    if let Some(n) = name {
        let ghost text = n@;
        change_rows(outliner, entity, &RowChange::Label(n));
        assert(outliner@.rows =~= relabelled(before, entity, text));
    }
}

/// The rows with the label of an entity's rows set to its name, if it has one.
pub open spec fn renamed_rows(
    rows: Seq<RowView>,
    source: Entity,
    name: Option<Seq<char>>,
) -> Seq<RowView> {
    match name {
        Some(n) => relabelled(rows, source, n),
        None => rows,
    }
}

/// The rows with the icon of an entity's rows set to the one that is registered for it, if any.
pub open spec fn refreshed_rows(
    rows: Seq<RowView>,
    source: Entity,
    icon: Option<Seq<char>>,
) -> Seq<RowView> {
    match icon {
        Some(g) => reiconed(rows, source, g),
        None => rows,
    }
}

/// Shows the name of an entity in its rows after it was given, and the icon that is registered for it
/// now.
pub fn on_name_changed(
    outliner: &mut Outliner,
    entity: Entity,
    name: Option<String>,
    icon: Option<String>,
)
    ensures
        final(outliner)@.rows == refreshed_rows(
            renamed_rows(old(outliner)@.rows, entity, text_of(name)),
            entity,
            text_of(icon),
        ),
        final(outliner).next_id == old(outliner).next_id,
{
    on_name_mutated(outliner, entity, name);
    refresh_row_icon(outliner, entity, icon);
}

/// The rows with the icon of an entity's rows set.
pub open spec fn reiconed(rows: Seq<RowView>, source: Entity, glyph: Seq<char>) -> Seq<RowView> {
    Seq::new(
        rows.len(),
        |i: int|
            if rows[i].source == source {
                RowView { glyph: Some(glyph), ..rows[i] }
            } else {
                rows[i]
            },
    )
}

/// Shows the icon that is registered for an entity in its rows. Components may arrive after the row
/// was made, so the icon is looked up again when they do. Without one the rows stay as they are.
pub fn refresh_row_icon(outliner: &mut Outliner, entity: Entity, icon: Option<String>)
    ensures
        final(outliner)@.rows == refreshed_rows(old(outliner)@.rows, entity, text_of(icon)),
        final(outliner).next_id == old(outliner).next_id,
{
    let ghost before = outliner@.rows;
    if let Some(g) = icon {
        let ghost text = g@;
        change_rows(outliner, entity, &RowChange::Glyph(g));
        assert(outliner@.rows =~= reiconed(before, entity, text));
    }
}

/// Hangs every row of an entity below its own panel.
pub(crate) fn rehang_at_root(outliner: &mut Outliner, entity: Entity)
    ensures
        final(outliner)@.rows == rows_changed(old(outliner)@.rows, entity, RowChange::Parent),
        final(outliner).next_id == old(outliner).next_id,
{
    change_rows(outliner, entity, &RowChange::Parent);
}

/// The scene with the eye of an entity's row clicked: what was shown is hidden and what was hidden is
/// shown, in the live scene alone.
pub open spec fn eye_clicked(w: WorldView, e: Entity) -> WorldView {
    let shown = visibility_in(w.held_component(e, VISIBILITY_TYPE_PATH@)).toggled_spec();
    w.with_components(
        e,
        with_component(w.components_of(e), variant_view(VISIBILITY_TYPE_PATH@, shown.text_spec())),
    )
}

/// How strongly the eye of a row is drawn, in percent: a closed eye is dimmed.
pub open spec fn opacity(closed: bool) -> u32 {
    if closed {
        40u32
    } else {
        70u32
    }
}

/// How strongly the eye of a row is drawn, in percent: a closed eye is dimmed.
pub fn eye_opacity(closed: bool) -> (r: u32)
    ensures
        r == opacity(closed),
        closed ==> r == 40,
        !closed ==> r == 70,
{
    if closed {
        40
    } else {
        70
    }
}

/// Closes the eye in every row of an entity that is hidden, and opens it in those of one that is
/// shown.
pub fn refresh_row_visibility_glyph(outliner: &mut Outliner, entity: Entity, hidden: bool)
    ensures
        final(outliner)@.rows == rows_changed(old(outliner)@.rows, entity, RowChange::Eye(hidden)),
        final(outliner).next_id == old(outliner).next_id,
{
    change_rows(outliner, entity, &RowChange::Eye(hidden));
}

/// Whether an entity is hidden by its own component.
pub open spec fn is_hidden(w: WorldView, e: Entity) -> bool {
    visibility_in(w.held_component(e, VISIBILITY_TYPE_PATH@)) == Visibility::Hidden
}

/// A click on the eye of a row: hides what is shown and shows what is hidden, in the live scene
/// alone, and the eyes of the entity's rows follow. The document keeps no such state.
pub fn on_visibility_toggled(world: &mut SceneWorld, outliner: &mut Outliner, source: Entity)
    ensures
        final(world)@ == eye_clicked(old(world)@, source),
        final(outliner)@.rows == rows_changed(
            old(outliner)@.rows,
            source,
            RowChange::Eye(!is_hidden(old(world)@, source)),
        ),
        final(outliner).next_id == old(outliner).next_id,
{
    let shown: Visibility = visibility_of(world, source).toggled();
    world.insert_component(source, BsnStructData::variant(VISIBILITY_TYPE_PATH, shown.text()));
    refresh_row_visibility_glyph(outliner, source, shown == Visibility::Hidden);
}

/// After a click on its eye, every row of a live entity shows whether the entity is hidden, and the
/// rows of other entities are as they were.
pub proof fn law_eye_follows_visibility(w: WorldView, rows: Seq<RowView>, e: Entity)
    requires
        w.alive(e),
    ensures
        ({
            let after = rows_changed(rows, e, RowChange::Eye(!is_hidden(w, e)));
            &&& after.len() == rows.len()
            &&& forall|i: int|
                0 <= i < rows.len() ==> if rows[i].source == e {
                    (#[trigger] after[i]).eye_closed == is_hidden(eye_clicked(w, e), e)
                } else {
                    after[i] == rows[i]
                }
        }),
{
    let before = visibility_in(w.held_component(e, VISIBILITY_TYPE_PATH@));
    let c = variant_view(VISIBILITY_TYPE_PATH@, before.toggled_spec().text_spec());
    let p = typed(VISIBILITY_TYPE_PATH@);
    let cs = w.components_of(e);
    lemma_first_index(cs, p);
    let i = component_index(cs, VISIBILITY_TYPE_PATH@);
    if i < cs.len() {
        lemma_first_index_is(cs.update(i, c), p, i);
    } else {
        lemma_first_index_is(cs.push(c), p, i);
    }
    assert(eye_clicked(w, e).held_component(e, VISIBILITY_TYPE_PATH@) == Some(c));
    reveal_strlit("bevy_camera::visibility::Visibility::Inherited");
    reveal_strlit("bevy_camera::visibility::Visibility::Hidden");
    assert(Visibility::Inherited.text_spec().len() != Visibility::Hidden.text_spec().len());
    assert(is_hidden(eye_clicked(w, e), e) == !is_hidden(w, e));
}

/// The eye in every row of a hidden entity is drawn more weakly than the eye in any row of one that
/// is shown.
pub proof fn law_hidden_is_dimmed(rows: Seq<RowView>, e: Entity)
    ensures
        ({
            let hidden = rows_changed(rows, e, RowChange::Eye(true));
            let shown = rows_changed(rows, e, RowChange::Eye(false));
            forall|i: int, j: int|
                0 <= i < rows.len() && 0 <= j < rows.len() && rows[i].source == e
                    && rows[j].source == e ==> opacity((#[trigger] hidden[i]).eye_closed)
                    < opacity((#[trigger] shown[j]).eye_closed)
        }),
{
}

/// A row that a frame of revealing opens is that of an entity above the target, and no row of an
/// entity further down the path was left closed.
pub proof fn law_nearest_row_opens(rows: Seq<RowView>, path: Seq<Entity>)
    ensures
        match row_to_expand(rows, path) {
            Some(i) => exists|k: int|
                0 <= k < path.len() && 0 <= i < rows.len() && is_closed_row(#[trigger] path[k])(
                    rows[i],
                ) && forall|l: int, j: int|
                    k < l < path.len() && 0 <= j < rows.len() ==> !is_closed_row(
                        #[trigger] path[l],
                    )(#[trigger] rows[j]),
            None => forall|l: int, j: int|
                0 <= l < path.len() && 0 <= j < rows.len() ==> !is_closed_row(
                    #[trigger] path[l],
                )(#[trigger] rows[j]),
        },
    decreases path.len(),
{
    if path.len() > 0 {
        let p = is_closed_row(path.last());
        lemma_first_index(rows, p);
        let i = first_index(rows, p);
        let n = path.len() - 1;
        if i < rows.len() {
            assert(is_closed_row(path[n])(rows[i]));
        } else {
            let rest = path.drop_last();
            law_nearest_row_opens(rows, rest);
            if let Some(at) = row_to_expand(rows, rest) {
                let k = choose|k: int|
                    0 <= k < rest.len() && 0 <= at < rows.len() && is_closed_row(
                        #[trigger] rest[k],
                    )(rows[at]) && forall|l: int, j: int|
                        k < l < rest.len() && 0 <= j < rows.len() ==> !is_closed_row(
                            #[trigger] rest[l],
                        )(#[trigger] rows[j]);
                assert(is_closed_row(path[k])(rows[at]));
                assert forall|l: int, j: int|
                    k < l < path.len() && 0 <= j < rows.len() implies !is_closed_row(
                    #[trigger] path[l],
                )(#[trigger] rows[j]) by {
                    if l < n {
                        assert(rest[l] == path[l]);
                    }
                }
            } else {
                assert forall|l: int, j: int|
                    0 <= l < path.len() && 0 <= j < rows.len() implies !is_closed_row(
                    #[trigger] path[l],
                )(#[trigger] rows[j]) by {
                    if l < n {
                        assert(rest[l] == path[l]);
                    }
                }
            }
        }
    }
}

/// A click selects an entity alone, or selects nothing when it was selected. With the control key the
/// entity joins the selection as the last, or leaves it, and every other entity keeps its place.
pub proof fn law_click_on_a_row(w: WorldView, source: Entity, ctrl: bool, other: Entity)
    ensures
        ({
            let after = clicked(w, source, ctrl).selection;
            &&& !ctrl && !w.selection.contains(source) ==> after == seq![source]
            &&& !ctrl && w.selection.contains(source) ==> after.len() == 0
            &&& ctrl ==> (after.contains(source) <==> !w.selection.contains(source))
            &&& ctrl && other != source ==> (after.contains(other) <==> w.selection.contains(other))
            &&& ctrl && !w.selection.contains(source) ==> after == w.selection.push(source)
        }),
{
    crate::seqs::lemma_push_contains(w.selection, source, source);
    crate::seqs::lemma_push_contains(w.selection, source, other);
    let p = crate::seqs::not_entity(source);
    crate::seqs::lemma_filter_contains(w.selection, p, source);
    crate::seqs::lemma_filter_contains(w.selection, p, other);
}

/// The mark of a clicked entity follows the selection, and with the control key no other mark changes.
pub proof fn law_click_marks_the_entity(w: WorldView, source: Entity, other: Entity)
    requires
        w.alive(source),
    ensures
        ({
            let after = clicked(w, source, true);
            &&& after.entities[source].marks.selected == !w.selection.contains(source)
            &&& other != source ==> after.entities[other] == w.entities[other]
            &&& after.doc == w.doc
        }),
{
}

/// A change in the rows of an entity changes these alone, and in them nothing but what it is about.
pub proof fn law_row_changes(rows: Seq<RowView>, source: Entity, label: String, glyph: String, flag: bool, i: int)
    requires
        0 <= i < rows.len(),
    ensures
        rows[i].source != source ==> rows_changed(rows, source, RowChange::Selected(flag))[i]
            == rows[i] && rows_changed(rows, source, RowChange::Label(label))[i] == rows[i]
            && rows_changed(rows, source, RowChange::Glyph(glyph))[i] == rows[i] && rows_changed(
            rows,
            source,
            RowChange::Eye(flag),
        )[i] == rows[i] && rows_changed(rows, source, RowChange::Parent)[i] == rows[i],
        rows[i].source == source ==> {
            let marked = rows_changed(rows, source, RowChange::Selected(flag))[i];
            let named = rows_changed(rows, source, RowChange::Label(label))[i];
            let drawn = rows_changed(rows, source, RowChange::Glyph(glyph))[i];
            let hung = rows_changed(rows, source, RowChange::Parent)[i];
            &&& marked.selected == flag
            &&& marked.label == rows[i].label && marked.parent == rows[i].parent && marked.expanded
                == rows[i].expanded
            &&& named.label == label@
            &&& named.selected == rows[i].selected && named.glyph == rows[i].glyph && named.parent
                == rows[i].parent
            &&& drawn.glyph == Some(glyph@)
            &&& drawn.label == rows[i].label
            &&& hung.parent == rows[i].container
            &&& hung.slot == rows[i].slot && hung.label == rows[i].label
        },
        rows_changed(rows, source, RowChange::Parent).len() == rows.len(),
{
}

/// A new name is shown in every row of its entity and in no other; without a name the rows stay.
pub proof fn law_renamed_rows(rows: Seq<RowView>, source: Entity, name: Seq<char>, icon: Seq<char>, i: int)
    requires
        0 <= i < rows.len(),
    ensures
        ({
            let after = refreshed_rows(renamed_rows(rows, source, Some(name)), source, Some(icon));
            &&& after.len() == rows.len()
            &&& rows[i].source == source ==> after[i].label == name && after[i].glyph == Some(icon)
                && after[i].parent == rows[i].parent && after[i].selected == rows[i].selected
            &&& rows[i].source != source ==> after[i] == rows[i]
        }),
        renamed_rows(rows, source, None) == rows,
        refreshed_rows(rows, source, None) == rows,
{
}

/// One frame of revealing opens at most one row, and only while the target has none and frames are
/// left. Rows are never closed by it, and a target that has a row is reached.
pub proof fn law_reveal_opens_one_row(w: WorldView, rows: Seq<RowView>, aim: RevealTarget, i: int)
    requires
        0 <= i < rows.len(),
    ensures
        ({
            let after = revealed(w, rows, aim);
            &&& after.0.len() == rows.len()
            &&& rows[i].expanded ==> after.0[i] == rows[i]
            &&& after.0[i] != rows[i] ==> after.0[i].expanded && aim.frames_left > 0 && (
            aim.entity matches Some(t) && !has_row_anywhere(rows, t))
            &&& aim.entity is None ==> after == (rows, aim)
            &&& aim.entity matches Some(t) ==> (has_row_anywhere(rows, t) ==> after.1.entity is None
                && after.0 == rows)
        }),
{
    if let Some(target) = aim.entity {
        law_nearest_row_opens(rows, path_to(w, target));
    }
}

/// Every panel is brought in line: each of them has a row for each entity at the top, however many
/// there are. Ranks that are no higher than the number of entities exist where nothing is shown below
/// itself.
pub proof fn law_every_panel_shows_the_roots(
    w: WorldView,
    live: bool,
    icons: Seq<(Entity, String)>,
    o: OutlinerView,
    containers: Seq<Entity>,
    roots: Seq<Entity>,
    rank: spec_fn(Entity) -> nat,
    c: Entity,
    i: int,
)
    requires
        rows_unique(o.rows),
        shown_downwards(w, live, rank),
        forall|k: int| 0 <= k < roots.len() ==> rank(#[trigger] roots[k]) <= w.entities.len(),
        0 <= i < roots.len(),
    ensures
        rows_unique(all_reconciled(w, live, icons, o, containers, roots).rows),
        containers.contains(c) ==> has_row(
            all_reconciled(w, live, icons, o, containers, roots).rows,
            c,
            roots[i],
        ),
    decreases containers.len(),
{
    if containers.len() > 0 {
        let init = containers.drop_last();
        let last = containers.last();
        law_every_panel_shows_the_roots(w, live, icons, o, init, roots, rank, c, i);
        let before = all_reconciled(w, live, icons, o, init, roots);
        let after = all_reconciled(w, live, icons, o, containers, roots);
        law_reconciled_panel(w, live, icons, before, last, roots);
        law_open_rows_show_all_below(w, live, before.rows, last, roots, rank);
        assert(placed(placements(w, live, before.rows, last, roots), roots[i]));
        if containers.contains(c) && c != last {
            let k = choose|k: int| 0 <= k < containers.len() && containers[k] == c;
            assert(init[k] == c);
            law_reconcile_keeps_other_panels(w, live, icons, before, last, roots);
            let q = elsewhere(last);
            let p = is_row(c, roots[i]);
            lemma_first_index(before.rows, p);
            let at = first_index(before.rows, p);
            let row = before.rows[at];
            assert(p(row) && q(row));
            assert(before.rows.contains(row));
            lemma_filter_contains(before.rows, q, row);
            lemma_filter_contains(after.rows, q, row);
            let j = choose|j: int| 0 <= j < after.rows.len() && after.rows[j] == row;
            lemma_first_index(after.rows, p);
            assert(p(after.rows[j]));
        }
    }
}

} // verus!
