//! The rows of the outliner: which are there, where they hang, and bringing them in line with the
//! scene.
use vstd::prelude::*;
use crate::hierarchy::{classify_entity, is_inherited_entity, outliner_children, EntityCategory};
use crate::lifecycle::entity_label;
use crate::seqs::{first_index, lemma_first_index_is};
use crate::value::Entity;
use crate::world::{SceneWorld, WorldView};

verus! {

/// A row of the outliner, for one entity in one panel.
#[derive(Debug)]
pub struct TreeRow {
    /// The panel that the row is in.
    pub container: Entity,
    /// The entity that the row stands for.
    pub source: Entity,
    pub row: Entity,
    /// What the row hangs below: the panel, or the slot of another row.
    pub parent: Entity,
    /// What the rows of the entity's children hang below.
    pub slot: Entity,
    pub label: String,
    pub category: EntityCategory,
    /// Shown muted: made from a prefab.
    pub inherited: bool,
    pub has_children: bool,
    pub expanded: bool,
    /// Whether the rows of the entity's children are kept, too.
    pub populated: bool,
    pub selected: bool,
    /// The icon, where one is registered for the entity.
    pub glyph: Option<String>,
    /// Whether the eye of the row is closed: the entity is hidden.
    pub eye_closed: bool,
}

/// What a [`TreeRow`] stands for.
pub ghost struct RowView {
    pub container: Entity,
    pub source: Entity,
    pub row: Entity,
    pub parent: Entity,
    pub slot: Entity,
    pub label: Seq<char>,
    pub category: EntityCategory,
    pub inherited: bool,
    pub has_children: bool,
    pub expanded: bool,
    pub populated: bool,
    pub selected: bool,
    pub glyph: Option<Seq<char>>,
    pub eye_closed: bool,
}

impl View for TreeRow {
    type V = RowView;

    open spec fn view(&self) -> RowView {
        RowView {
            container: self.container,
            source: self.source,
            row: self.row,
            parent: self.parent,
            slot: self.slot,
            label: self.label@,
            category: self.category,
            inherited: self.inherited,
            has_children: self.has_children,
            expanded: self.expanded,
            populated: self.populated,
            selected: self.selected,
            glyph: crate::text::text_of(self.glyph),
            eye_closed: self.eye_closed,
        }
    }
}

pub open spec fn rows_view(rows: Seq<TreeRow>) -> Seq<RowView> {
    Seq::new(rows.len(), |i: int| rows[i]@)
}

/// The rows of all panels. Rows and slots are numbered on from `next_id`.
#[derive(Debug)]
pub struct Outliner {
    pub rows: Vec<TreeRow>,
    pub next_id: u64,
}

/// What an [`Outliner`] stands for.
pub ghost struct OutlinerView {
    pub rows: Seq<RowView>,
    pub next_id: int,
}

impl View for Outliner {
    type V = OutlinerView;

    open spec fn view(&self) -> OutlinerView {
        OutlinerView { rows: rows_view(self.rows@), next_id: self.next_id as int }
    }
}

pub open spec fn is_row(container: Entity, source: Entity) -> spec_fn(RowView) -> bool {
    |r: RowView| r.container == container && r.source == source
}

/// The position of the row for an entity in a panel, or the number of rows.
pub open spec fn row_index(rows: Seq<RowView>, container: Entity, source: Entity) -> int {
    first_index(rows, is_row(container, source))
}

/// Whether an entity has a row in a panel.
pub open spec fn has_row(rows: Seq<RowView>, container: Entity, source: Entity) -> bool {
    row_index(rows, container, source) < rows.len()
}

/// Whether an entity has a row in some panel.
pub open spec fn has_row_anywhere(rows: Seq<RowView>, source: Entity) -> bool {
    exists|i: int| 0 <= i < rows.len() && (#[trigger] rows[i]).source == source
}

/// What the rows of an entity's children hang below in a panel, if those rows are kept.
pub open spec fn populated_slot(rows: Seq<RowView>, container: Entity, source: Entity) -> Option<
    Entity,
> {
    let i = row_index(rows, container, source);
    if i < rows.len() && rows[i].populated {
        Some(rows[i].slot)
    } else {
        None
    }
}

/// An entity that has to have a row, and what the row has to hang below.
pub type Placement = (Entity, Entity);

/// Whether an entity is among placements.
pub open spec fn placed(desired: Seq<Placement>, source: Entity) -> bool {
    exists|i: int| 0 <= i < desired.len() && (#[trigger] desired[i]).0 == source
}

/// `desired` with the rows below an entity added, as far as they are kept.
pub open spec fn with_descendants(
    w: WorldView,
    live: bool,
    rows: Seq<RowView>,
    container: Entity,
    source: Entity,
    desired: Seq<Placement>,
    depth: nat,
) -> Seq<Placement>
    decreases depth, 0nat,
{
    match populated_slot(rows, container, source) {
        Some(slot) => if depth == 0 {
            desired
        } else {
            with_children(
                w,
                live,
                rows,
                container,
                slot,
                w.shown_children(live, source),
                desired,
                (depth - 1) as nat,
            )
        },
        None => desired,
    }
}

/// `desired` with the rows for `children` added below `slot`, each followed by those below it. An
/// entity that is placed already is not placed again.
pub open spec fn with_children(
    w: WorldView,
    live: bool,
    rows: Seq<RowView>,
    container: Entity,
    slot: Entity,
    children: Seq<Entity>,
    desired: Seq<Placement>,
    depth: nat,
) -> Seq<Placement>
    decreases depth, children.len() + 1,
{
    if children.len() == 0 {
        desired
    } else {
        let before = with_children(
            w,
            live,
            rows,
            container,
            slot,
            children.drop_last(),
            desired,
            depth,
        );
        let c = children.last();
        if placed(before, c) {
            before
        } else {
            with_descendants(w, live, rows, container, c, before.push((c, slot)), depth)
        }
    }
}

/// The rows that a panel has to show, from the roots down.
pub open spec fn placements(
    w: WorldView,
    live: bool,
    rows: Seq<RowView>,
    container: Entity,
    roots: Seq<Entity>,
) -> Seq<Placement>
    decreases roots.len(),
{
    if roots.len() == 0 {
        Seq::empty()
    } else {
        let before = placements(w, live, rows, container, roots.drop_last());
        with_descendants(
            w,
            live,
            rows,
            container,
            roots.last(),
            before.push((roots.last(), container)),
            (w.entities.len() + 1) as nat,
        )
    }
}

/// The rows with those for placed entities hung where they belong.
pub open spec fn rehung(
    rows: Seq<RowView>,
    container: Entity,
    desired: Seq<Placement>,
) -> Seq<RowView>
    decreases desired.len(),
{
    if desired.len() == 0 {
        rows
    } else {
        let before = rehung(rows, container, desired.drop_last());
        let p = desired.last();
        let i = row_index(before, container, p.0);
        if i < before.len() {
            before.update(i, RowView { parent: p.1, ..before[i] })
        } else {
            before
        }
    }
}

/// The rows that stay: those of other panels, and those for placed entities.
pub open spec fn stays(container: Entity, desired: Seq<Placement>) -> spec_fn(RowView) -> bool {
    |r: RowView| r.container != container || placed(desired, r.source)
}

/// The icon that is registered for an entity: the first one listed.
pub open spec fn icon_of(icons: Seq<(Entity, String)>, e: Entity) -> Option<Seq<char>>
    decreases icons.len(),
{
    if icons.len() == 0 {
        None
    } else if icons[0].0 == e {
        Some(icons[0].1@)
    } else {
        icon_of(icons.drop_first(), e)
    }
}

fn find_icon(icons: &Vec<(Entity, String)>, e: Entity) -> (r: Option<String>)
    ensures
        crate::text::text_of(r) == icon_of(icons@, e),
{
    let mut i: usize = 0;
    assert(icons@.skip(0) =~= icons@);
    while i < icons.len()
        invariant
            i <= icons.len(),
            icon_of(icons@, e) == icon_of(icons@.skip(i as int), e),
        decreases icons.len() - i,
    {
        assert(icons@.skip(i as int)[0] == icons@[i as int]);
        assert(icons@.skip(i as int).drop_first() =~= icons@.skip(i + 1));
        if icons[i].0 == e {
            return Some(icons[i].1.clone());
        }
        i = i + 1;
    }
    None
}

/// A fresh row for an entity: collapsed, with nothing below it yet, and with the icon that is
/// registered for the entity.
pub open spec fn fresh_row(
    w: WorldView,
    live: bool,
    icons: Seq<(Entity, String)>,
    container: Entity,
    p: Placement,
    id: int,
) -> RowView {
    RowView {
        container,
        source: p.0,
        row: id as u64,
        parent: p.1,
        slot: (id + 1) as u64,
        label: entity_label(w, p.0),
        category: w.category(live, p.0),
        inherited: w.inherited(p.0),
        has_children: w.shown_children(live, p.0).len() > 0,
        expanded: false,
        populated: false,
        selected: false,
        glyph: icon_of(icons, p.0),
        eye_closed: false,
    }
}

/// The outliner with rows added for the placed entities that have none.
pub open spec fn filled(
    w: WorldView,
    live: bool,
    icons: Seq<(Entity, String)>,
    o: OutlinerView,
    container: Entity,
    desired: Seq<Placement>,
) -> OutlinerView
    decreases desired.len(),
{
    if desired.len() == 0 {
        o
    } else {
        let before = filled(w, live, icons, o, container, desired.drop_last());
        let p = desired.last();
        if has_row(before.rows, container, p.0) {
            before
        } else {
            OutlinerView {
                rows: before.rows.push(fresh_row(w, live, icons, container, p, before.next_id)),
                next_id: before.next_id + 2,
            }
        }
    }
}

/// A row with its mark for children brought up to date, if it is in the panel.
pub open spec fn flagged(w: WorldView, live: bool, container: Entity, r: RowView) -> RowView {
    if r.container == container {
        RowView { has_children: w.shown_children(live, r.source).len() > 0, ..r }
    } else {
        r
    }
}

/// The outliner with one panel brought in line with the scene: rows hung where they belong, rows
/// that are no longer shown taken out, missing ones added, and the marks for children up to date.
pub open spec fn reconciled(
    w: WorldView,
    live: bool,
    icons: Seq<(Entity, String)>,
    o: OutlinerView,
    container: Entity,
    roots: Seq<Entity>,
) -> OutlinerView {
    let desired = placements(w, live, o.rows, container, roots);
    let hung = rehung(o.rows, container, desired);
    let kept = hung.filter(stays(container, desired));
    let full = filled(w, live, icons, OutlinerView { rows: kept, ..o }, container, desired);
    OutlinerView {
        rows: Seq::new(full.rows.len(), |i: int| flagged(w, live, container, full.rows[i])),
        ..full
    }
}

fn is_placed(desired: &Vec<Placement>, source: Entity) -> (r: bool)
    ensures
        r == placed(desired@, source),
{
    let mut i: usize = 0;
    while i < desired.len()
        invariant
            i <= desired.len(),
            forall|j: int| 0 <= j < i ==> (#[trigger] desired@[j]).0 != source,
        decreases desired.len() - i,
    {
        if desired[i].0 == source {
            assert(desired@[i as int].0 == source);
            return true;
        }
        i = i + 1;
    }
    false
}

impl Outliner {
    pub fn new() -> (r: Outliner)
        ensures
            r@.rows == Seq::<RowView>::empty(),
            r.next_id == 0,
    {
        let r: Outliner = Outliner { rows: Vec::new(), next_id: 0 };
        assert(r@.rows =~= Seq::empty());
        r
    }

    /// The position of the row for an entity in a panel.
    pub fn find(&self, container: Entity, source: Entity) -> (r: Option<usize>)
        ensures
            match r {
                Some(i) => i == row_index(self@.rows, container, source) && i < self@.rows.len(),
                None => !has_row(self@.rows, container, source),
            },
    {
        let ghost p = is_row(container, source);
        let mut i: usize = 0;
        while i < self.rows.len()
            invariant
                i <= self.rows.len(),
                p == is_row(container, source),
                forall|j: int| 0 <= j < i ==> !p(#[trigger] self@.rows[j]),
            decreases self.rows.len() - i,
        {
            assert(self@.rows[i as int] == self.rows@[i as int]@);
            if self.rows[i].container == container && self.rows[i].source == source {
                proof {
                    lemma_first_index_is(self@.rows, p, i as int);
                }
                return Some(i);
            }
            i = i + 1;
        }
        proof {
            lemma_first_index_is(self@.rows, p, self@.rows.len() as int);
        }
        None
    }

    /// Whether an entity has a row in some panel.
    pub fn contains_anywhere(&self, source: Entity) -> (r: bool)
        ensures
            r == has_row_anywhere(self@.rows, source),
    {
        let mut i: usize = 0;
        while i < self.rows.len()
            invariant
                i <= self.rows.len(),
                forall|j: int| 0 <= j < i ==> (#[trigger] self@.rows[j]).source != source,
            decreases self.rows.len() - i,
        {
            assert(self@.rows[i as int] == self.rows@[i as int]@);
            if self.rows[i].source == source {
                assert(self@.rows[i as int].source == source);
                return true;
            }
            i = i + 1;
        }
        false
    }

    /// What the rows of an entity's children hang below in a panel, if those rows are kept.
    fn tree_row_children_slot(&self, container: Entity, source: Entity) -> (r: Option<Entity>)
        ensures
            r == populated_slot(self@.rows, container, source),
    {
        match self.find(container, source) {
            Some(i) => {
                assert(self@.rows[i as int] == self.rows@[i as int]@);
                if self.rows[i].populated {
                    Some(self.rows[i].slot)
                } else {
                    None
                }
            },
            None => None,
        }
    }

    fn push_populated_descendants(
        &self,
        world: &SceneWorld,
        live: bool,
        container: Entity,
        source: Entity,
        depth: usize,
        desired: &mut Vec<Placement>,
    )
        ensures
            final(desired)@ == with_descendants(
                world@,
                live,
                self@.rows,
                container,
                source,
                old(desired)@,
                depth as nat,
            ),
        decreases depth, 0nat,
    {
        if let Some(slot) = self.tree_row_children_slot(container, source) {
            if depth > 0 {
                let children: Vec<Entity> = outliner_children(world, live, source);
                self.push_children(world, live, container, slot, &children, depth - 1, desired);
            }
        }
    }

    fn push_children(
        &self,
        world: &SceneWorld,
        live: bool,
        container: Entity,
        slot: Entity,
        children: &Vec<Entity>,
        depth: usize,
        desired: &mut Vec<Placement>,
    )
        ensures
            final(desired)@ == with_children(
                world@,
                live,
                self@.rows,
                container,
                slot,
                children@,
                old(desired)@,
                depth as nat,
            ),
        decreases depth, 1nat,
    {
        let ghost start = desired@;
        let mut i: usize = 0;
        assert(children@.subrange(0, 0) =~= Seq::empty());
        while i < children.len()
            invariant
                i <= children.len(),
                desired@ == with_children(
                    world@,
                    live,
                    self@.rows,
                    container,
                    slot,
                    children@.subrange(0, i as int),
                    start,
                    depth as nat,
                ),
            decreases children.len() - i,
        {
            proof {
                assert(children@.subrange(0, i + 1).drop_last() =~= children@.subrange(
                    0,
                    i as int,
                ));
                assert(children@.subrange(0, i + 1).last() == children@[i as int]);
            }
            let child: Entity = children[i];
            if !is_placed(desired, child) {
                desired.push((child, slot));
                self.push_populated_descendants(world, live, container, child, depth, desired);
            }
            i = i + 1;
        }
        assert(children@.subrange(0, i as int) =~= children@);
    }

    /// The rows that a panel has to show, from the roots down.
    pub fn visible_placements(
        &self,
        world: &SceneWorld,
        live: bool,
        container: Entity,
        roots: &Vec<Entity>,
    ) -> (r: Vec<Placement>)
        requires
            world@.entities.len() < usize::MAX,
        ensures
            r@ == placements(world@, live, self@.rows, container, roots@),
    {
        broadcast use vstd::std_specs::hash::group_hash_axioms;

        assert(world@.entities.dom() =~= world.entities@.dom());
        let depth: usize = world.entities.len() + 1;
        let mut desired: Vec<Placement> = Vec::new();
        let mut i: usize = 0;
        assert(roots@.subrange(0, 0) =~= Seq::empty());
        while i < roots.len()
            invariant
                i <= roots.len(),
                depth == world@.entities.len() + 1,
                desired@ == placements(
                    world@,
                    live,
                    self@.rows,
                    container,
                    roots@.subrange(0, i as int),
                ),
            decreases roots.len() - i,
        {
            proof {
                assert(roots@.subrange(0, i + 1).drop_last() =~= roots@.subrange(0, i as int));
                assert(roots@.subrange(0, i + 1).last() == roots@[i as int]);
            }
            desired.push((roots[i], container));
            self.push_populated_descendants(world, live, container, roots[i], depth, &mut desired);
            i = i + 1;
        }
        assert(roots@.subrange(0, i as int) =~= roots@);
        desired
    }

    fn rehang(&mut self, container: Entity, desired: &Vec<Placement>)
        ensures
            final(self)@.rows == rehung(old(self)@.rows, container, desired@),
            final(self).next_id == old(self).next_id,
    {
        let ghost start = self@.rows;
        let mut i: usize = 0;
        assert(desired@.subrange(0, 0) =~= Seq::empty());
        while i < desired.len()
            invariant
                i <= desired.len(),
                self@.rows == rehung(start, container, desired@.subrange(0, i as int)),
                self.next_id == old(self).next_id,
            decreases desired.len() - i,
        {
            proof {
                assert(desired@.subrange(0, i + 1).drop_last() =~= desired@.subrange(0, i as int));
                assert(desired@.subrange(0, i + 1).last() == desired@[i as int]);
            }
            let ghost before = self@.rows;
            let (source, slot) = desired[i];
            if let Some(k) = self.find(container, source) {
                let row: &mut TreeRow = &mut self.rows[k];
                row.parent = slot;
                assert(self@.rows =~= before.update(
                    k as int,
                    RowView { parent: slot, ..before[k as int] },
                ));
            }
            i = i + 1;
        }
        assert(desired@.subrange(0, i as int) =~= desired@);
    }

    fn drop_unplaced(&mut self, container: Entity, desired: &Vec<Placement>)
        ensures
            final(self)@.rows == old(self)@.rows.filter(stays(container, desired@)),
            final(self).next_id == old(self).next_id,
    {
        let ghost all = self@.rows;
        let ghost p = stays(container, desired@);
        let mut old_rows: Vec<TreeRow> = Vec::new();
        std::mem::swap(&mut old_rows, &mut self.rows);
        let n: usize = old_rows.len();
        let mut i: usize = 0;
        assert(all.subrange(0, 0).filter(p) =~= Seq::empty()) by {
            reveal(Seq::filter);
        }
        assert(self@.rows =~= Seq::empty());
        assert(rows_view(old_rows@) =~= all.subrange(0, n as int));
        while i < n
            invariant
                i <= n,
                n == all.len(),
                p == stays(container, desired@),
                rows_view(old_rows@) == all.subrange(i as int, n as int),
                self@.rows == all.subrange(0, i as int).filter(p),
                self.next_id == old(self).next_id,
            decreases n - i,
        {
            let ghost rest = rows_view(old_rows@);
            let ghost done = self@.rows;
            proof {
                assert(rest.len() == n - i);
                assert(all.subrange(0, i + 1) =~= all.subrange(0, i as int).push(all[i as int]));
                crate::seqs::lemma_filter_push(all.subrange(0, i as int), all[i as int], p);
                assert(rest[0] == all[i as int]);
            }
            let row: TreeRow = old_rows.remove(0);
            assert(row@ == rest[0]);
            assert(rows_view(old_rows@) =~= all.subrange(i + 1, n as int)) by {
                assert forall|k: int| 0 <= k < n - i - 1 implies rows_view(old_rows@)[k] == all[i
                    + 1 + k] by {
                    assert(rest[k + 1] == all[i + 1 + k]);
                }
            }
            if row.container != container || is_placed(desired, row.source) {
                self.rows.push(row);
                assert(self@.rows =~= done.push(all[i as int]));
            }
            i = i + 1;
        }
        assert(all.subrange(0, n as int) =~= all);
    }

    fn fill(
        &mut self,
        world: &SceneWorld,
        live: bool,
        icons: &Vec<(Entity, String)>,
        container: Entity,
        desired: &Vec<Placement>,
    )
        requires
            old(self).next_id + 2 * desired@.len() <= u64::MAX,
        ensures
            final(self)@ == filled(world@, live, icons@, old(self)@, container, desired@),
    {
        let ghost start = self@;
        let mut i: usize = 0;
        assert(desired@.subrange(0, 0) =~= Seq::empty());
        while i < desired.len()
            invariant
                i <= desired.len(),
                self@ == filled(world@, live, icons@, start, container, desired@.subrange(0, i as int)),
                self.next_id <= start.next_id + 2 * i,
                start.next_id + 2 * desired@.len() <= u64::MAX,
            decreases desired.len() - i,
        {
            proof {
                assert(desired@.subrange(0, i + 1).drop_last() =~= desired@.subrange(0, i as int));
                assert(desired@.subrange(0, i + 1).last() == desired@[i as int]);
            }
            let (source, slot) = desired[i];
            if self.find(container, source).is_none() {
                self.spawn_single_tree_row(world, live, icons, source, slot, container);
            }
            i = i + 1;
        }
        assert(desired@.subrange(0, i as int) =~= desired@);
    }

    /// Adds a row for an entity.
    fn spawn_single_tree_row(
        &mut self,
        world: &SceneWorld,
        live: bool,
        icons: &Vec<(Entity, String)>,
        source: Entity,
        parent: Entity,
        container: Entity,
    )
        requires
            old(self).next_id + 2 <= u64::MAX,
        ensures
            final(self)@.rows == old(self)@.rows.push(
                fresh_row(
                    world@,
                    live,
                    icons@,
                    container,
                    (source, parent),
                    old(self).next_id as int,
                ),
            ),
            final(self).next_id == old(self).next_id + 2,
    {
        let ghost before = self@.rows;
        let id: u64 = self.next_id;
        let row: TreeRow = TreeRow {
            container,
            source,
            row: id,
            parent,
            slot: id + 1,
            label: crate::lifecycle::label_of(world, source),
            category: classify_entity(world, live, source),
            inherited: is_inherited_entity(world, source),
            has_children: outliner_children(world, live, source).len() > 0,
            expanded: false,
            populated: false,
            selected: false,
            glyph: find_icon(icons, source),
            eye_closed: false,
        };
        assert(row@ == fresh_row(world@, live, icons@, container, (source, parent), id as int));
        self.rows.push(row);
        self.next_id = id + 2;
        assert(self@.rows =~= before.push(row@));
    }

    fn flag_children(&mut self, world: &SceneWorld, live: bool, container: Entity)
        ensures
            final(self)@.rows == Seq::new(
                old(self)@.rows.len(),
                |i: int| flagged(world@, live, container, old(self)@.rows[i]),
            ),
            final(self).next_id == old(self).next_id,
    {
        let ghost all = self@.rows;
        let n: usize = self.rows.len();
        let mut i: usize = 0;
        while i < n
            invariant
                i <= n,
                n == all.len(),
                self@.rows.len() == n,
                all == old(self)@.rows,
                forall|j: int|
                    0 <= j < n ==> (#[trigger] self@.rows[j]) == (if j < i {
                        flagged(world@, live, container, all[j])
                    } else {
                        all[j]
                    }),
                self.next_id == old(self).next_id,
            decreases n - i,
        {
            assert(self@.rows[i as int] == all[i as int]);
            assert(self.rows@[i as int]@ == all[i as int]);
            let ghost before = self@.rows;
            if self.rows[i].container == container {
                let want: bool = outliner_children(world, live, self.rows[i].source).len() > 0;
                let row: &mut TreeRow = &mut self.rows[i];
                row.has_children = want;
            }
            assert(self@.rows =~= before.update(
                i as int,
                flagged(world@, live, container, all[i as int]),
            ));
            i = i + 1;
        }
        assert(self@.rows =~= Seq::new(
            old(self)@.rows.len(),
            |i: int| flagged(world@, live, container, old(self)@.rows[i]),
        ));
    }

    /// Brings one panel in line with the scene. `icons` are those that are registered for entities.
    pub fn reconcile_container(
        &mut self,
        world: &SceneWorld,
        live: bool,
        icons: &Vec<(Entity, String)>,
        container: Entity,
        roots: &Vec<Entity>,
    )
        requires
            world@.entities.len() < usize::MAX,
            old(self).next_id + 2 * placements(
                world@,
                live,
                old(self)@.rows,
                container,
                roots@,
            ).len() <= u64::MAX,
        ensures
            final(self)@ == reconciled(world@, live, icons@, old(self)@, container, roots@),
    {
        let desired: Vec<Placement> = self.visible_placements(world, live, container, roots);
        self.rehang(container, &desired);
        self.drop_unplaced(container, &desired);
        self.fill(world, live, icons, container, &desired);
        let ghost full = self@;
        self.flag_children(world, live, container);
        assert(self@.rows =~= reconciled(world@, live, icons@, old(self)@, container, roots@).rows);
    }
}

} // verus!
