//! What holds of the outliner after it was brought in line with the scene.
use vstd::prelude::*;
use crate::outliner::{
    filled, flagged, fresh_row, has_row, icon_of, is_row, placed, placements, populated_slot,
    reconciled, rehung, row_index, stays, with_children, with_descendants, OutlinerView, Placement,
    RowView,
};
use crate::seqs::{lemma_filter_contains, lemma_filter_push, lemma_first_index};
use crate::value::Entity;
use crate::world::WorldView;

verus! {

/// Whether an entity has at most one row in each panel.
pub open spec fn rows_unique(rows: Seq<RowView>) -> bool {
    forall|i: int, j: int|
        0 <= i < j < rows.len() ==> (#[trigger] rows[i]).container != (
        #[trigger] rows[j]).container || rows[i].source != rows[j].source
}

/// Whether every row of a panel hangs where a placement says.
pub open spec fn hung_as(rows: Seq<RowView>, container: Entity, desired: Seq<Placement>) -> bool {
    forall|i: int|
        0 <= i < rows.len() && (#[trigger] rows[i]).container == container && placed(
            desired,
            rows[i].source,
        ) ==> desired.contains((rows[i].source, rows[i].parent))
}

/// Whether two rows are for the same entity in the same panel.
pub open spec fn same_key(a: RowView, b: RowView) -> bool {
    a.container == b.container && a.source == b.source
}

proof fn lemma_has_row(rows: Seq<RowView>, container: Entity, source: Entity)
    ensures
        has_row(rows, container, source) == (exists|i: int|
            0 <= i < rows.len() && (#[trigger] rows[i]).container == container && rows[i].source
                == source),
        has_row(rows, container, source) ==> {
            let i = row_index(rows, container, source);
            0 <= i && rows[i].container == container && rows[i].source == source
        },
{
    let p = is_row(container, source);
    lemma_first_index(rows, p);
    if exists|i: int|
        0 <= i < rows.len() && (#[trigger] rows[i]).container == container && rows[i].source
            == source {
        let i = choose|i: int|
            0 <= i < rows.len() && (#[trigger] rows[i]).container == container && rows[i].source
                == source;
        assert(p(rows[i]));
    }
}

proof fn lemma_rehung(rows: Seq<RowView>, container: Entity, desired: Seq<Placement>)
    requires
        rows_unique(rows),
    ensures
        ({
            let after = rehung(rows, container, desired);
            &&& after.len() == rows.len()
            &&& rows_unique(after)
            &&& forall|i: int|
                0 <= i < rows.len() ==> same_key(#[trigger] after[i], rows[i])
            &&& forall|i: int|
                0 <= i < rows.len() && (#[trigger] rows[i]).container != container ==> after[i]
                    == rows[i]
            &&& hung_as(after, container, desired)
        }),
    decreases desired.len(),
{
    let after = rehung(rows, container, desired);
    if desired.len() > 0 {
        let init = desired.drop_last();
        let p = desired.last();
        lemma_rehung(rows, container, init);
        let before = rehung(rows, container, init);
        lemma_has_row(before, container, p.0);
        let k = row_index(before, container, p.0);
        assert forall|i: int|
            0 <= i < after.len() && (#[trigger] after[i]).container == container && placed(
                desired,
                after[i].source,
            ) implies desired.contains((after[i].source, after[i].parent)) by {
            assert(same_key(before[i], after[i]));
            if k < before.len() && i == k {
                assert(desired[desired.len() - 1] == p);
            } else {
                assert(after[i] == before[i]);
                if after[i].source == p.0 {
                    assert(has_row(before, container, p.0));
                    assert(same_key(before[i], before[k]));
                    if i < k {
                        assert(before[i].container != before[k].container || before[i].source
                            != before[k].source);
                    } else {
                        assert(before[k].container != before[i].container || before[k].source
                            != before[i].source);
                    }
                }
                let j = choose|j: int|
                    0 <= j < desired.len() && (#[trigger] desired[j]).0 == after[i].source;
                assert(j < init.len());
                assert(init[j] == desired[j]);
                assert(placed(init, before[i].source));
                let m = choose|m: int|
                    0 <= m < init.len() && init[m] == (before[i].source, before[i].parent);
                assert(desired[m] == init[m]);
            }
        }
        assert(rows_unique(after)) by {
            assert forall|i: int, j: int| 0 <= i < j < after.len() implies (
            #[trigger] after[i]).container != (#[trigger] after[j]).container || after[i].source
                != after[j].source by {
                assert(same_key(before[i], after[i]));
                assert(same_key(before[j], after[j]));
                assert(before[i].container != before[j].container || before[i].source
                    != before[j].source);
            }
        }
    }
}

proof fn lemma_filter_rows(rows: Seq<RowView>, p: spec_fn(RowView) -> bool)
    requires
        rows_unique(rows),
    ensures
        rows_unique(rows.filter(p)),
        forall|i: int|
            0 <= i < rows.filter(p).len() ==> rows.contains(#[trigger] rows.filter(p)[i]) && p(
                rows.filter(p)[i],
            ),
    decreases rows.len(),
{
    let kept = rows.filter(p);
    assert forall|i: int| 0 <= i < kept.len() implies rows.contains(#[trigger] kept[i]) && p(
        kept[i],
    ) by {
        assert(kept.contains(kept[i]));
        lemma_filter_contains(rows, p, kept[i]);
    }
    if rows.len() > 0 {
        let init = rows.drop_last();
        let last = rows.last();
        assert(rows =~= init.push(last));
        lemma_filter_push(init, last, p);
        assert(rows_unique(init)) by {
            assert forall|i: int, j: int| 0 <= i < j < init.len() implies (
            #[trigger] init[i]).container != (#[trigger] init[j]).container || init[i].source
                != init[j].source by {
                assert(init[i] == rows[i] && init[j] == rows[j]);
            }
        }
        lemma_filter_rows(init, p);
        let inner = init.filter(p);
        assert forall|i: int, j: int| 0 <= i < j < kept.len() implies (
        #[trigger] kept[i]).container != (#[trigger] kept[j]).container || kept[i].source
            != kept[j].source by {
            if p(last) && j == inner.len() {
                assert(kept[i] == inner[i]);
                assert(init.contains(inner[i]));
                let k = choose|k: int| 0 <= k < init.len() && init[k] == inner[i];
                assert(rows[k] == kept[i]);
                assert(rows[rows.len() - 1] == kept[j]);
            } else {
                assert(kept[i] == inner[i] && kept[j] == inner[j]);
            }
        }
    } else {
        assert(kept =~= Seq::empty()) by {
            reveal(Seq::filter);
        }
    }
}

proof fn lemma_filled(
    w: WorldView,
    live: bool,
    icons: Seq<(Entity, String)>,
    o: OutlinerView,
    container: Entity,
    desired: Seq<Placement>,
    all: Seq<Placement>,
)
    requires
        rows_unique(o.rows),
        hung_as(o.rows, container, all),
        forall|i: int| 0 <= i < desired.len() ==> all.contains(#[trigger] desired[i]),
    ensures
        ({
            let after = filled(w, live, icons, o, container, desired).rows;
            &&& rows_unique(after)
            &&& hung_as(after, container, all)
            &&& forall|s: Entity| #[trigger]
                has_row(after, container, s) == (has_row(o.rows, container, s) || placed(
                    desired,
                    s,
                ))
            &&& o.rows.len() <= after.len()
            &&& forall|i: int| 0 <= i < o.rows.len() ==> #[trigger] after[i] == o.rows[i]
            &&& forall|i: int|
                o.rows.len() <= i < after.len() ==> (#[trigger] after[i]).container == container
        }),
    decreases desired.len(),
{
    let after = filled(w, live, icons, o, container, desired).rows;
    if desired.len() > 0 {
        let init = desired.drop_last();
        let p = desired.last();
        assert forall|i: int| 0 <= i < init.len() implies all.contains(#[trigger] init[i]) by {
            assert(init[i] == desired[i]);
        }
        lemma_filled(w, live, icons, o, container, init, all);
        let b = filled(w, live, icons, o, container, init);
        let before = b.rows;
        assert forall|s: Entity| placed(desired, s) == (placed(init, s) || s == p.0) by {
            if placed(init, s) {
                let j = choose|j: int| 0 <= j < init.len() && (#[trigger] init[j]).0 == s;
                assert(desired[j].0 == s);
            }
            if s == p.0 {
                assert(desired[desired.len() - 1].0 == s);
            }
            if placed(desired, s) && s != p.0 {
                let j = choose|j: int| 0 <= j < desired.len() && (#[trigger] desired[j]).0 == s;
                assert(init[j].0 == s);
            }
        }
        if !has_row(before, container, p.0) {
            let fresh = fresh_row(w, live, icons, container, p, b.next_id);
            lemma_has_row(before, container, p.0);
            assert(after == before.push(fresh));
            assert(desired[desired.len() - 1] == p);
            assert(all.contains(p));
            assert forall|i: int, j: int| 0 <= i < j < after.len() implies (
            #[trigger] after[i]).container != (#[trigger] after[j]).container || after[i].source
                != after[j].source by {
                assert(after[i] == before[i]);
                if j < before.len() {
                    assert(after[j] == before[j]);
                }
            }
            assert forall|s: Entity| #[trigger]
                has_row(after, container, s) == (has_row(before, container, s) || s == p.0) by {
                lemma_has_row(after, container, s);
                lemma_has_row(before, container, s);
                if s == p.0 {
                    assert(after[before.len() as int] == fresh);
                }
                if has_row(before, container, s) {
                    let i = row_index(before, container, s);
                    assert(after[i] == before[i]);
                }
                if has_row(after, container, s) {
                    let i = row_index(after, container, s);
                    if i < before.len() {
                        assert(before[i] == after[i]);
                    }
                }
            }
            assert forall|i: int|
                0 <= i < after.len() && (#[trigger] after[i]).container == container && placed(
                    all,
                    after[i].source,
                ) implies all.contains((after[i].source, after[i].parent)) by {
                if i < before.len() {
                    assert(after[i] == before[i]);
                } else {
                    assert(after[i] == fresh);
                    assert((fresh.source, fresh.parent) == p);
                }
            }
        }
    } else {
        assert forall|s: Entity| !placed(desired, s) by {}
    }
}

/// After a panel was brought in line with the scene, exactly the placed entities have a row in it,
/// one each; every row hangs where its placement says; and its mark tells whether the outliner shows
/// anything below its entity.
pub proof fn law_reconciled_panel(
    w: WorldView,
    live: bool,
    icons: Seq<(Entity, String)>,
    o: OutlinerView,
    container: Entity,
    roots: Seq<Entity>,
)
    requires
        rows_unique(o.rows),
    ensures
        ({
            let desired = placements(w, live, o.rows, container, roots);
            let after = reconciled(w, live, icons, o, container, roots).rows;
            &&& rows_unique(after)
            &&& forall|s: Entity| #[trigger]
                has_row(after, container, s) == placed(desired, s)
            &&& forall|i: int|
                0 <= i < after.len() && (#[trigger] after[i]).container == container ==> {
                    &&& desired.contains((after[i].source, after[i].parent))
                    &&& after[i].has_children == (w.shown_children(live, after[i].source).len()
                        > 0)
                }
        }),
{
    let desired = placements(w, live, o.rows, container, roots);
    let hung = rehung(o.rows, container, desired);
    let p = stays(container, desired);
    let kept = hung.filter(p);
    let k = OutlinerView { rows: kept, ..o };
    let full = filled(w, live, icons, k, container, desired).rows;
    let after = reconciled(w, live, icons, o, container, roots).rows;
    lemma_rehung(o.rows, container, desired);
    lemma_filter_rows(hung, p);
    assert(hung_as(kept, container, desired)) by {
        assert forall|i: int|
            0 <= i < kept.len() && (#[trigger] kept[i]).container == container && placed(
                desired,
                kept[i].source,
            ) implies desired.contains((kept[i].source, kept[i].parent)) by {
            assert(hung.contains(kept[i]));
            let j = choose|j: int| 0 <= j < hung.len() && hung[j] == kept[i];
            assert(hung[j].container == container);
        }
    }
    lemma_filled(w, live, icons, k, container, desired, desired);
    assert forall|i: int| 0 <= i < full.len() implies #[trigger] after[i] == flagged(
        w,
        live,
        container,
        full[i],
    ) by {}
    assert forall|s: Entity| #[trigger] has_row(after, container, s) == placed(desired, s) by {
        lemma_has_row(kept, container, s);
        lemma_has_row(full, container, s);
        lemma_has_row(after, container, s);
        if has_row(full, container, s) {
            let i = row_index(full, container, s);
            assert(after[i].container == container && after[i].source == s);
        }
        if has_row(after, container, s) {
            let i = row_index(after, container, s);
            assert(full[i].container == container && full[i].source == s);
        }
        if has_row(kept, container, s) {
            let i = row_index(kept, container, s);
            assert(p(kept[i]));
        }
    }
    assert forall|i: int, j: int| 0 <= i < j < after.len() implies (#[trigger] after[i]).container
        != (#[trigger] after[j]).container || after[i].source != after[j].source by {
        assert(full[i].container != full[j].container || full[i].source != full[j].source);
    }
    assert forall|i: int|
        0 <= i < after.len() && (#[trigger] after[i]).container == container implies desired.contains(
    (after[i].source, after[i].parent)) by {
        assert(full[i].container == container);
        lemma_has_row(full, container, full[i].source);
        assert(has_row(full, container, full[i].source));
        assert(has_row(after, container, full[i].source)) by {
            lemma_has_row(after, container, full[i].source);
        }
        assert(placed(desired, full[i].source));
    }
}

/// A row of another panel.
pub open spec fn elsewhere(container: Entity) -> spec_fn(RowView) -> bool {
    |r: RowView| r.container != container
}

/// Bringing a panel in line with the scene leaves the rows of the other panels as they are.
pub proof fn law_reconcile_keeps_other_panels(
    w: WorldView,
    live: bool,
    icons: Seq<(Entity, String)>,
    o: OutlinerView,
    container: Entity,
    roots: Seq<Entity>,
)
    requires
        rows_unique(o.rows),
    ensures
        reconciled(w, live, icons, o, container, roots).rows.filter(elsewhere(container))
            == o.rows.filter(elsewhere(container)),
{
    let q = elsewhere(container);
    let desired = placements(w, live, o.rows, container, roots);
    let hung = rehung(o.rows, container, desired);
    let p = stays(container, desired);
    let kept = hung.filter(p);
    let k = OutlinerView { rows: kept, ..o };
    let full = filled(w, live, icons, k, container, desired).rows;
    let after = reconciled(w, live, icons, o, container, roots).rows;
    lemma_rehung(o.rows, container, desired);
    lemma_filter_rows(hung, p);
    assert(hung_as(kept, container, desired)) by {
        assert forall|i: int|
            0 <= i < kept.len() && (#[trigger] kept[i]).container == container && placed(
                desired,
                kept[i].source,
            ) implies desired.contains((kept[i].source, kept[i].parent)) by {
            let j = choose|j: int| 0 <= j < hung.len() && hung[j] == kept[i];
            assert(hung[j].container == container);
        }
    }
    lemma_filled(w, live, icons, k, container, desired, desired);
    lemma_filter_same(o.rows, hung, q);
    lemma_filter_twice(hung, p, q);
    lemma_filter_tail(kept, full, q);
    lemma_filter_same(full, after, q);
}

/// Sequences that differ only outside a filter give the same when filtered.
proof fn lemma_filter_same(a: Seq<RowView>, b: Seq<RowView>, q: spec_fn(RowView) -> bool)
    requires
        a.len() == b.len(),
        forall|i: int| 0 <= i < a.len() ==> q(#[trigger] a[i]) == q(b[i]),
        forall|i: int| 0 <= i < a.len() && q(#[trigger] a[i]) ==> a[i] == b[i],
    ensures
        a.filter(q) == b.filter(q),
    decreases a.len(),
{
    if a.len() > 0 {
        let x = a.drop_last();
        let y = b.drop_last();
        assert forall|i: int| 0 <= i < x.len() implies q(#[trigger] x[i]) == q(y[i]) by {
            assert(x[i] == a[i]);
        }
        assert forall|i: int| 0 <= i < x.len() && q(#[trigger] x[i]) implies x[i] == y[i] by {
            assert(x[i] == a[i]);
        }
        lemma_filter_same(x, y, q);
        assert(a =~= x.push(a.last()));
        assert(b =~= y.push(b.last()));
        lemma_filter_push(x, a.last(), q);
        lemma_filter_push(y, b.last(), q);
        assert(q(a[a.len() - 1]) == q(b[a.len() - 1]));
    } else {
        assert(a =~= b);
    }
}

/// Filtering first by something weaker changes nothing.
proof fn lemma_filter_twice(
    a: Seq<RowView>,
    p: spec_fn(RowView) -> bool,
    q: spec_fn(RowView) -> bool,
)
    requires
        forall|r: RowView| q(r) ==> #[trigger] p(r),
    ensures
        a.filter(p).filter(q) == a.filter(q),
    decreases a.len(),
{
    if a.len() > 0 {
        let x = a.drop_last();
        let l = a.last();
        lemma_filter_twice(x, p, q);
        assert(a =~= x.push(l));
        lemma_filter_push(x, l, p);
        lemma_filter_push(x, l, q);
        lemma_filter_push(x.filter(p), l, q);
        if q(l) {
            assert(p(l));
        }
    } else {
        assert(a.filter(p) =~= a) by {
            reveal(Seq::filter);
        }
    }
}

/// What comes behind and is filtered out changes nothing.
proof fn lemma_filter_tail(a: Seq<RowView>, b: Seq<RowView>, q: spec_fn(RowView) -> bool)
    requires
        a.len() <= b.len(),
        forall|i: int| 0 <= i < a.len() ==> #[trigger] b[i] == a[i],
        forall|i: int| a.len() <= i < b.len() ==> !q(#[trigger] b[i]),
    ensures
        b.filter(q) == a.filter(q),
    decreases b.len(),
{
    if a.len() == b.len() {
        assert(a =~= b);
    } else {
        let y = b.drop_last();
        assert(b =~= y.push(b.last()));
        lemma_filter_push(y, b.last(), q);
        lemma_filter_tail(a, y, q);
        assert(!q(b[b.len() - 1]));
    }
}

/// Whether a placement is right: a root below the panel, or an entity below the slot of one that shows
/// it.
pub open spec fn rightly_placed(
    w: WorldView,
    live: bool,
    rows: Seq<RowView>,
    container: Entity,
    roots: Seq<Entity>,
    p: Placement,
) -> bool {
    ||| p.1 == container && roots.contains(p.0)
    ||| exists|x: Entity| #[trigger]
        populated_slot(rows, container, x) == Some(p.1) && w.shown_children(live, x).contains(p.0)
}

/// Whether all placements are right.
pub open spec fn all_rightly_placed(
    w: WorldView,
    live: bool,
    rows: Seq<RowView>,
    container: Entity,
    roots: Seq<Entity>,
    desired: Seq<Placement>,
) -> bool {
    forall|i: int|
        0 <= i < desired.len() ==> rightly_placed(
            w,
            live,
            rows,
            container,
            roots,
            #[trigger] desired[i],
        )
}

proof fn lemma_descendants_are_right(
    w: WorldView,
    live: bool,
    rows: Seq<RowView>,
    container: Entity,
    roots: Seq<Entity>,
    source: Entity,
    desired: Seq<Placement>,
    depth: nat,
)
    requires
        all_rightly_placed(w, live, rows, container, roots, desired),
    ensures
        all_rightly_placed(
            w,
            live,
            rows,
            container,
            roots,
            with_descendants(w, live, rows, container, source, desired, depth),
        ),
    decreases depth, 0nat,
{
    if let Some(slot) = populated_slot(rows, container, source) {
        if depth > 0 {
            lemma_children_are_right(
                w,
                live,
                rows,
                container,
                roots,
                source,
                slot,
                w.shown_children(live, source),
                desired,
                (depth - 1) as nat,
            );
        }
    }
}

proof fn lemma_children_are_right(
    w: WorldView,
    live: bool,
    rows: Seq<RowView>,
    container: Entity,
    roots: Seq<Entity>,
    parent: Entity,
    slot: Entity,
    children: Seq<Entity>,
    desired: Seq<Placement>,
    depth: nat,
)
    requires
        all_rightly_placed(w, live, rows, container, roots, desired),
        populated_slot(rows, container, parent) == Some(slot),
        forall|i: int|
            0 <= i < children.len() ==> w.shown_children(live, parent).contains(
                #[trigger] children[i],
            ),
    ensures
        all_rightly_placed(
            w,
            live,
            rows,
            container,
            roots,
            with_children(w, live, rows, container, slot, children, desired, depth),
        ),
    decreases depth, children.len() + 1,
{
    if children.len() > 0 {
        let init = children.drop_last();
        assert forall|i: int| 0 <= i < init.len() implies w.shown_children(live, parent).contains(
            #[trigger] init[i],
        ) by {
            assert(init[i] == children[i]);
        }
        lemma_children_are_right(
            w,
            live,
            rows,
            container,
            roots,
            parent,
            slot,
            init,
            desired,
            depth,
        );
        let before = with_children(w, live, rows, container, slot, init, desired, depth);
        let c = children.last();
        assert(children[children.len() - 1] == c);
        if !placed(before, c) {
            assert(rightly_placed(w, live, rows, container, roots, (c, slot)));
            lemma_descendants_are_right(
                w,
                live,
                rows,
                container,
                roots,
                c,
                before.push((c, slot)),
                depth,
            );
        }
    }
}

/// Every row that a panel has to show is that of a root, at the top, or that of an entity which is
/// shown below another whose row is open.
pub proof fn law_placements_are_right(
    w: WorldView,
    live: bool,
    rows: Seq<RowView>,
    container: Entity,
    roots: Seq<Entity>,
)
    ensures
        all_rightly_placed(
            w,
            live,
            rows,
            container,
            roots,
            placements(w, live, rows, container, roots),
        ),
{
    lemma_placements_are_right(w, live, rows, container, roots, roots);
}

proof fn lemma_placements_are_right(
    w: WorldView,
    live: bool,
    rows: Seq<RowView>,
    container: Entity,
    roots: Seq<Entity>,
    part: Seq<Entity>,
)
    requires
        forall|i: int| 0 <= i < part.len() ==> roots.contains(#[trigger] part[i]),
    ensures
        all_rightly_placed(
            w,
            live,
            rows,
            container,
            roots,
            placements(w, live, rows, container, part),
        ),
    decreases part.len(),
{
    if part.len() > 0 {
        let init = part.drop_last();
        assert forall|i: int| 0 <= i < init.len() implies roots.contains(#[trigger] init[i]) by {
            assert(init[i] == part[i]);
        }
        lemma_placements_are_right(w, live, rows, container, roots, init);
        let before = placements(w, live, rows, container, init);
        assert(roots.contains(part[part.len() - 1]));
        assert(rightly_placed(w, live, rows, container, roots, (part.last(), container)));
        lemma_descendants_are_right(
            w,
            live,
            rows,
            container,
            roots,
            part.last(),
            before.push((part.last(), container)),
            (w.entities.len() + 1) as nat,
        );
    }
}

/// Whether everything shown below an entity is placed, if the rows below it are kept.
pub open spec fn opened_up(
    w: WorldView,
    live: bool,
    rows: Seq<RowView>,
    container: Entity,
    desired: Seq<Placement>,
    e: Entity,
) -> bool {
    populated_slot(rows, container, e) is Some ==> forall|c: Entity| #[trigger]
        w.shown_children(live, e).contains(c) ==> placed(desired, c)
}

/// Whether ranks fall from every entity to what is shown below it, so that nothing is shown below
/// itself.
pub open spec fn shown_downwards(w: WorldView, live: bool, rank: spec_fn(Entity) -> nat) -> bool {
    forall|e: Entity, c: Entity| #[trigger]
        w.shown_children(live, e).contains(c) ==> rank(c) < rank(e)
}

proof fn lemma_still_opened_up(
    w: WorldView,
    live: bool,
    rows: Seq<RowView>,
    container: Entity,
    before: Seq<Placement>,
    after: Seq<Placement>,
    e: Entity,
)
    requires
        opened_up(w, live, rows, container, before, e),
        forall|x: Entity| #[trigger] placed(before, x) ==> placed(after, x),
    ensures
        opened_up(w, live, rows, container, after, e),
{
}

proof fn lemma_placed_push(desired: Seq<Placement>, p: Placement, x: Entity)
    ensures
        placed(desired.push(p), x) <==> placed(desired, x) || x == p.0,
{
    let after = desired.push(p);
    assert(after[desired.len() as int] == p);
    if placed(desired, x) {
        let i = choose|i: int| 0 <= i < desired.len() && (#[trigger] desired[i]).0 == x;
        assert(after[i].0 == x);
    }
    if placed(after, x) && x != p.0 {
        let i = choose|i: int| 0 <= i < after.len() && (#[trigger] after[i]).0 == x;
        assert(desired[i].0 == x);
    }
}

proof fn lemma_descendants_open_up(
    w: WorldView,
    live: bool,
    rows: Seq<RowView>,
    container: Entity,
    source: Entity,
    desired: Seq<Placement>,
    depth: nat,
    rank: spec_fn(Entity) -> nat,
)
    requires
        shown_downwards(w, live, rank),
        rank(source) < depth,
    ensures
        ({
            let after = with_descendants(w, live, rows, container, source, desired, depth);
            &&& forall|x: Entity| #[trigger] placed(desired, x) ==> placed(after, x)
            &&& opened_up(w, live, rows, container, after, source)
            &&& forall|x: Entity| #[trigger]
                placed(after, x) ==> placed(desired, x) || opened_up(
                    w,
                    live,
                    rows,
                    container,
                    after,
                    x,
                )
        }),
    decreases depth, 0nat,
{
    if let Some(slot) = populated_slot(rows, container, source) {
        let children = w.shown_children(live, source);
        assert forall|i: int| 0 <= i < children.len() implies rank(#[trigger] children[i]) < depth
            - 1 by {
            assert(w.shown_children(live, source).contains(children[i]));
        }
        lemma_children_open_up(
            w,
            live,
            rows,
            container,
            slot,
            children,
            desired,
            (depth - 1) as nat,
            rank,
        );
        let after = with_descendants(w, live, rows, container, source, desired, depth);
        assert forall|c: Entity| #[trigger] w.shown_children(live, source).contains(
            c,
        ) implies placed(after, c) by {
            let i = choose|i: int| 0 <= i < children.len() && children[i] == c;
            assert(placed(after, children[i]));
        }
    }
}

proof fn lemma_children_open_up(
    w: WorldView,
    live: bool,
    rows: Seq<RowView>,
    container: Entity,
    slot: Entity,
    children: Seq<Entity>,
    desired: Seq<Placement>,
    depth: nat,
    rank: spec_fn(Entity) -> nat,
)
    requires
        shown_downwards(w, live, rank),
        forall|i: int| 0 <= i < children.len() ==> rank(#[trigger] children[i]) < depth,
    ensures
        ({
            let after = with_children(w, live, rows, container, slot, children, desired, depth);
            &&& forall|x: Entity| #[trigger] placed(desired, x) ==> placed(after, x)
            &&& forall|i: int| 0 <= i < children.len() ==> placed(after, #[trigger] children[i])
            &&& forall|x: Entity| #[trigger]
                placed(after, x) ==> placed(desired, x) || opened_up(
                    w,
                    live,
                    rows,
                    container,
                    after,
                    x,
                )
        }),
    decreases depth, children.len() + 1,
{
    if children.len() > 0 {
        let init = children.drop_last();
        assert forall|i: int| 0 <= i < init.len() implies rank(#[trigger] init[i]) < depth by {
            assert(init[i] == children[i]);
        }
        lemma_children_open_up(w, live, rows, container, slot, init, desired, depth, rank);
        let before = with_children(w, live, rows, container, slot, init, desired, depth);
        let after = with_children(w, live, rows, container, slot, children, desired, depth);
        let c = children.last();
        assert(children[children.len() - 1] == c);
        if !placed(before, c) {
            let pushed = before.push((c, slot));
            lemma_descendants_open_up(w, live, rows, container, c, pushed, depth, rank);
            assert forall|x: Entity| #[trigger] placed(before, x) implies placed(after, x) by {
                lemma_placed_push(before, (c, slot), x);
                assert(placed(pushed, x));
            }
            lemma_placed_push(before, (c, slot), c);
            assert(placed(pushed, c));
            assert forall|x: Entity| #[trigger] placed(after, x) implies placed(desired, x)
                || opened_up(w, live, rows, container, after, x) by {
                if placed(pushed, x) {
                    lemma_placed_push(before, (c, slot), x);
                    if x != c && !placed(desired, x) {
                        assert(placed(before, x));
                        lemma_still_opened_up(w, live, rows, container, before, after, x);
                    }
                }
            }
        }
        assert forall|i: int| 0 <= i < children.len() implies placed(
            after,
            #[trigger] children[i],
        ) by {
            if i < init.len() {
                assert(placed(before, init[i]));
                assert(init[i] == children[i]);
            }
        }
    }
}

/// A panel has to show every root, and below every row that is open everything that is shown below its
/// entity. Ranks that are no higher than the number of entities exist where nothing is shown below
/// itself.
pub proof fn law_open_rows_show_all_below(
    w: WorldView,
    live: bool,
    rows: Seq<RowView>,
    container: Entity,
    roots: Seq<Entity>,
    rank: spec_fn(Entity) -> nat,
)
    requires
        shown_downwards(w, live, rank),
        forall|i: int| 0 <= i < roots.len() ==> rank(#[trigger] roots[i]) <= w.entities.len(),
    ensures
        ({
            let desired = placements(w, live, rows, container, roots);
            &&& forall|i: int| 0 <= i < roots.len() ==> placed(desired, #[trigger] roots[i])
            &&& forall|x: Entity| #[trigger]
                placed(desired, x) ==> opened_up(w, live, rows, container, desired, x)
        }),
    decreases roots.len(),
{
    if roots.len() > 0 {
        let init = roots.drop_last();
        assert forall|i: int| 0 <= i < init.len() implies rank(#[trigger] init[i])
            <= w.entities.len() by {
            assert(init[i] == roots[i]);
        }
        law_open_rows_show_all_below(w, live, rows, container, init, rank);
        let before = placements(w, live, rows, container, init);
        let root = roots.last();
        assert(roots[roots.len() - 1] == root);
        let pushed = before.push((root, container));
        let after = placements(w, live, rows, container, roots);
        lemma_descendants_open_up(
            w,
            live,
            rows,
            container,
            root,
            pushed,
            (w.entities.len() + 1) as nat,
            rank,
        );
        assert forall|x: Entity| #[trigger] placed(before, x) implies placed(after, x) by {
            lemma_placed_push(before, (root, container), x);
            assert(placed(pushed, x));
        }
        lemma_placed_push(before, (root, container), root);
        assert(placed(pushed, root));
        assert forall|x: Entity| #[trigger] placed(after, x) implies opened_up(
            w,
            live,
            rows,
            container,
            after,
            x,
        ) by {
            if placed(pushed, x) {
                lemma_placed_push(before, (root, container), x);
                if x != root {
                    assert(placed(before, x));
                    lemma_still_opened_up(w, live, rows, container, before, after, x);
                }
            }
        }
        assert forall|i: int| 0 <= i < roots.len() implies placed(after, #[trigger] roots[i]) by {
            if i < init.len() {
                assert(placed(before, init[i]));
                assert(init[i] == roots[i]);
            }
        }
    }
}

/// A fresh row is closed, unmarked, and says what its entity is called. Its slot is another number than
/// its own.
pub proof fn law_fresh_row(
    w: WorldView,
    live: bool,
    icons: Seq<(Entity, String)>,
    container: Entity,
    p: Placement,
    id: int,
    n: Seq<char>,
)
    requires
        0 <= id < u64::MAX,
    ensures
        ({
            let row = fresh_row(w, live, icons, container, p, id);
            &&& row.container == container
            &&& row.source == p.0
            &&& row.parent == p.1
            &&& row.row == id
            &&& row.slot == id + 1
            &&& !row.expanded && !row.populated && !row.selected && !row.eye_closed
            &&& row.category == w.category(live, p.0)
            &&& w.alive(p.0) && w.entities[p.0].name == Some(n) ==> row.label == n
            &&& row.has_children == (w.shown_children(live, p.0).len() > 0)
            &&& row.glyph == icon_of(icons, p.0)
        }),
{
}

/// The icon of an entity is the first that is registered for it.
pub proof fn law_first_icon_counts(icons: Seq<(Entity, String)>, e: Entity, i: int)
    ensures
        0 <= i < icons.len() && icons[i].0 == e && (forall|j: int|
            0 <= j < i ==> (#[trigger] icons[j]).0 != e) ==> icon_of(icons, e) == Some(icons[i].1@),
        (forall|j: int| 0 <= j < icons.len() ==> (#[trigger] icons[j]).0 != e) ==> icon_of(icons, e)
            is None,
    decreases icons.len(),
{
    if icons.len() > 0 {
        let rest = icons.drop_first();
        assert forall|j: int| 0 <= j < rest.len() implies #[trigger] rest[j] == icons[j + 1] by {}
        law_first_icon_counts(rest, e, i - 1);
        if 0 < i < icons.len() && icons[i].0 == e && (forall|j: int|
            0 <= j < i ==> (#[trigger] icons[j]).0 != e) {
            assert(icons[0].0 != e);
            assert(rest[i - 1] == icons[i]);
            assert forall|j: int| 0 <= j < i - 1 implies (#[trigger] rest[j]).0 != e by {
                assert(icons[j + 1].0 != e);
            }
        }
        if forall|j: int| 0 <= j < icons.len() ==> (#[trigger] icons[j]).0 != e {
            assert(icons[0].0 != e);
            assert forall|j: int| 0 <= j < rest.len() implies (#[trigger] rest[j]).0 != e by {
                assert(icons[j + 1].0 != e);
            }
        }
    }
}

/// Hanging rows elsewhere changes nothing but what they hang below.
proof fn lemma_rehung_keeps(rows: Seq<RowView>, container: Entity, desired: Seq<Placement>)
    ensures
        rehung(rows, container, desired).len() == rows.len(),
        forall|i: int|
            0 <= i < rows.len() ==> (#[trigger] rehung(rows, container, desired)[i]) == (RowView {
                parent: rehung(rows, container, desired)[i].parent,
                ..rows[i]
            }),
    decreases desired.len(),
{
    if desired.len() > 0 {
        lemma_rehung_keeps(rows, container, desired.drop_last());
        let before = rehung(rows, container, desired.drop_last());
        lemma_has_row(before, container, desired.last().0);
        assert forall|i: int| 0 <= i < rows.len() implies (
        #[trigger] rehung(rows, container, desired)[i]) == (RowView {
            parent: rehung(rows, container, desired)[i].parent,
            ..rows[i]
        }) by {
            assert(before[i] == (RowView { parent: before[i].parent, ..rows[i] }));
        }
    }
}

/// Whether a row is another, but for what it hangs below and its mark for children.
pub open spec fn same_row(a: RowView, b: RowView) -> bool {
    &&& a.container == b.container
    &&& a.source == b.source
    &&& a.row == b.row
    &&& a.slot == b.slot
    &&& a.label == b.label
    &&& a.glyph == b.glyph
    &&& a.category == b.category
    &&& a.inherited == b.inherited
    &&& a.expanded == b.expanded
    &&& a.populated == b.populated
    &&& a.selected == b.selected
    &&& a.eye_closed == b.eye_closed
}

/// A row that a panel goes on showing stays the same row: open or closed as it was, with its label, its
/// icon and its marks.
pub proof fn law_shown_rows_stay_as_they_are(
    w: WorldView,
    live: bool,
    icons: Seq<(Entity, String)>,
    o: OutlinerView,
    container: Entity,
    roots: Seq<Entity>,
    i: int,
)
    requires
        rows_unique(o.rows),
        0 <= i < o.rows.len(),
        o.rows[i].container == container,
        placed(placements(w, live, o.rows, container, roots), o.rows[i].source),
    ensures
        exists|k: int|
            0 <= k < reconciled(w, live, icons, o, container, roots).rows.len() && same_row(
                #[trigger] reconciled(w, live, icons, o, container, roots).rows[k],
                o.rows[i],
            ),
{
    let desired = placements(w, live, o.rows, container, roots);
    let hung = rehung(o.rows, container, desired);
    let p = stays(container, desired);
    let kept = hung.filter(p);
    let k = OutlinerView { rows: kept, ..o };
    let full = filled(w, live, icons, k, container, desired).rows;
    let after = reconciled(w, live, icons, o, container, roots).rows;
    lemma_rehung(o.rows, container, desired);
    lemma_rehung_keeps(o.rows, container, desired);
    lemma_filter_rows(hung, p);
    assert(hung_as(kept, container, desired)) by {
        assert forall|j: int|
            0 <= j < kept.len() && (#[trigger] kept[j]).container == container && placed(
                desired,
                kept[j].source,
            ) implies desired.contains((kept[j].source, kept[j].parent)) by {
            assert(hung.contains(kept[j]));
            let h = choose|h: int| 0 <= h < hung.len() && hung[h] == kept[j];
            assert(hung[h].container == container);
        }
    }
    lemma_filled(w, live, icons, k, container, desired, desired);
    let r = hung[i];
    assert(r == (RowView { parent: r.parent, ..o.rows[i] }));
    assert(p(r));
    assert(hung.contains(r));
    lemma_filter_contains(hung, p, r);
    let at = choose|j: int| 0 <= j < kept.len() && kept[j] == r;
    assert(full[at] == kept[at]);
    assert(after[at] == flagged(w, live, container, full[at]));
    assert(same_row(after[at], o.rows[i]));
}

} // verus!
