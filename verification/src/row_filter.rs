//! Filtering the rows of the outliner by a text.
use vstd::prelude::*;
use crate::lifecycle::{entity_text, name_of, show_entity};
use crate::outliner::{Outliner, RowView};
use crate::seqs::{first_index, lemma_first_index, lemma_first_index_is};
use crate::text::{
    contains_text, is_ascii_char, is_ascii_text, lower_case_of, occurs_at, occurs_in, to_lowercase,
    trim, trimmed,
};
use crate::value::Entity;
use crate::world::{SceneWorld, WorldView};

verus! {

/// The text that a row is found by, in lower case: the name of its entity, or `entity` and the text
/// of the entity's id.
pub open spec fn search_text(w: WorldView, source: Entity) -> Seq<char> {
    match name_of(w, source) {
        Some(n) => lower_case_of(n),
        None => lower_case_of(
            match entity_text(source) {
                Some(t) => "entity "@ + t,
                None => "entity "@,
            },
        ),
    }
}

fn searched(world: &SceneWorld, source: Entity) -> (r: String)
    ensures
        r@ == search_text(world@, source),
{
    match world.name(source) {
        Some(n) => to_lowercase(n.as_str()),
        None => {
            let label: String = match show_entity(source) {
                Some(t) => "entity ".to_owned().concat(t.as_str()),
                None => "entity ".to_owned(),
            };
            to_lowercase(label.as_str())
        },
    }
}

pub open spec fn owns_slot(slot: Entity) -> spec_fn(RowView) -> bool {
    |r: RowView| r.slot == slot
}

/// The positions of the rows that a row hangs below, the nearest first, up to `depth` of them.
pub open spec fn rows_above(rows: Seq<RowView>, at: int, depth: nat) -> Seq<int>
    decreases depth,
{
    let up = first_index(rows, owns_slot(rows[at].parent));
    if depth == 0 || up >= rows.len() {
        Seq::empty()
    } else {
        seq![up] + rows_above(rows, up, (depth - 1) as nat)
    }
}

/// Whether a row is found by a filter.
pub open spec fn found(w: WorldView, rows: Seq<RowView>, at: int, filter: Seq<char>) -> bool {
    occurs_in(search_text(w, rows[at].source), filter)
}

/// Whether a row stays visible: the filter finds it or a row below it.
pub open spec fn stays_visible(
    w: WorldView,
    rows: Seq<RowView>,
    at: int,
    filter: Seq<char>,
) -> bool {
    exists|j: int|
        0 <= j < rows.len() && #[trigger] found(w, rows, j, filter) && (j == at || rows_above(
            rows,
            j,
            rows.len(),
        ).contains(at))
}

/// The filter that a text asks for: without white space around it, in lower case.
pub open spec fn filter_of(text: Seq<char>) -> Seq<char> {
    lower_case_of(trimmed(text))
}

fn find_owner(outliner: &Outliner, slot: Entity) -> (r: Option<usize>)
    ensures
        match r {
            Some(i) => i == first_index(outliner@.rows, owns_slot(slot)) && i
                < outliner.rows@.len(),
            None => first_index(outliner@.rows, owns_slot(slot)) >= outliner@.rows.len(),
        },
{
    let ghost p = owns_slot(slot);
    let mut i: usize = 0;
    while i < outliner.rows.len()
        invariant
            i <= outliner.rows.len(),
            p == owns_slot(slot),
            forall|j: int| 0 <= j < i ==> !p(#[trigger] outliner@.rows[j]),
        decreases outliner.rows.len() - i,
    {
        assert(outliner@.rows[i as int] == outliner.rows@[i as int]@);
        if outliner.rows[i].slot == slot {
            proof {
                lemma_first_index_is(outliner@.rows, p, i as int);
            }
            return Some(i);
        }
        i = i + 1;
    }
    proof {
        lemma_first_index_is(outliner@.rows, p, outliner@.rows.len() as int);
    }
    None
}

/// Marks a row and every row that it hangs below.
fn mark_upwards(outliner: &Outliner, at: usize, visible: &mut Vec<bool>)
    requires
        at < outliner.rows@.len(),
        old(visible)@.len() == outliner.rows@.len(),
    ensures
        final(visible)@.len() == old(visible)@.len(),
        forall|i: int|
            0 <= i < final(visible)@.len() ==> #[trigger] final(visible)@[i] == (old(visible)@[i] || i == at || rows_above(
                outliner@.rows,
                at as int,
                outliner@.rows.len(),
            ).contains(i)),
{
    let ghost all = rows_above(outliner@.rows, at as int, outliner@.rows.len());
    let ghost start = visible@;
    visible.set(at, true);
    let mut depth: usize = outliner.rows.len();
    let mut current: usize = at;
    let ghost mut done: Seq<int> = Seq::empty();
    assert(done + all =~= all);
    while depth > 0
        invariant
            current < outliner.rows@.len(),
            visible@.len() == outliner.rows@.len(),
            start.len() == visible@.len(),
            all == done + rows_above(outliner@.rows, current as int, depth as nat),
            forall|i: int|
                0 <= i < visible@.len() ==> #[trigger] visible@[i] == (start[i] || i == at
                    || done.contains(i)),
        ensures
            visible@.len() == start.len(),
            all == done,
            forall|i: int|
                0 <= i < visible@.len() ==> #[trigger] visible@[i] == (start[i] || i == at
                    || done.contains(i)),
        decreases depth,
    {
        assert(outliner@.rows[current as int] == outliner.rows@[current as int]@);
        match find_owner(outliner, outliner.rows[current].parent) {
            Some(up) => {
                let ghost before = visible@;
                let ghost rest = rows_above(outliner@.rows, up as int, (depth - 1) as nat);
                let ghost longer = done.push(up as int);
                visible.set(up, true);
                proof {
                    assert(done + (seq![up as int] + rest) =~= longer + rest);
                    assert forall|i: int| 0 <= i < visible@.len() implies #[trigger] visible@[i]
                        == (start[i] || i == at || longer.contains(i)) by {
                        if done.contains(i) {
                            let k = choose|k: int| 0 <= k < done.len() && done[k] == i;
                            assert(longer[k] == i);
                        }
                        if i == up {
                            assert(longer[done.len() as int] == i);
                        } else {
                            assert(visible@[i] == before[i]);
                            if longer.contains(i) {
                                let k = choose|k: int| 0 <= k < longer.len() && longer[k] == i;
                                assert(done[k] == i);
                            }
                        }
                    }
                    done = longer;
                }
                depth = depth - 1;
                current = up;
                assert(depth == 0 ==> all =~= done);
            },
            None => {
                assert(all =~= done);
                break;
            },
        }
    }
}

/// Whether each row is visible under the text in the filter field. Without a text every row is.
/// With one, the rows whose label holds it are, and those that they hang below.
pub fn apply_hierarchy_filter(world: &SceneWorld, outliner: &Outliner, text: &str) -> (r: Vec<bool>)
    ensures
        r@.len() == outliner@.rows.len(),
        forall|i: int|
            0 <= i < r@.len() ==> #[trigger] r@[i] == (filter_of(text@).len() == 0
                || stays_visible(world@, outliner@.rows, i, filter_of(text@))),
        forall|at: int, up: int|
            #![trigger r@[at], r@[up]]
            0 <= at < r@.len() && 0 <= up < r@.len() && r@[at] && outliner@.rows[up].slot
                == outliner@.rows[at].parent && (forall|k: int|
                0 <= k < up ==> (#[trigger] outliner@.rows[k]).slot
                    != outliner@.rows[at].parent) ==> r@[up],
        forall|at: int|
            0 <= at < r@.len() && occurs_in(
                search_text(world@, outliner@.rows[at].source),
                filter_of(text@),
            ) ==> #[trigger] r@[at],
{
    let filter: String = to_lowercase(trim(text).as_str());
    let n: usize = outliner.rows.len();
    let empty: bool = filter.as_str().unicode_len() == 0;
    let mut visible: Vec<bool> = Vec::new();
    let mut i: usize = 0;
    while i < n
        invariant
            i <= n,
            n == outliner.rows@.len(),
            visible@.len() == i,
            forall|j: int| 0 <= j < i ==> #[trigger] visible@[j] == empty,
        decreases n - i,
    {
        visible.push(empty);
        i = i + 1;
    }
    if empty {
        return visible;
    }
    let mut k: usize = 0;
    while k < n
        invariant
            k <= n,
            n == outliner.rows@.len(),
            n == outliner@.rows.len(),
            filter@ == filter_of(text@),
            visible@.len() == n,
            forall|i: int|
                0 <= i < n ==> (#[trigger] visible@[i] == exists|j: int|
                    0 <= j < k && #[trigger] found(world@, outliner@.rows, j, filter@) && (j == i
                        || rows_above(outliner@.rows, j, n as nat).contains(i))),
        decreases n - k,
    {
        assert(outliner@.rows[k as int] == outliner.rows@[k as int]@);
        let label: String = searched(world, outliner.rows[k].source);
        let matches: bool = contains_text(label.as_str(), filter.as_str());
        assert(matches == found(world@, outliner@.rows, k as int, filter@));
        let ghost before = visible@;
        if matches {
            mark_upwards(outliner, k, &mut visible);
        }
        proof {
            assert forall|i: int| 0 <= i < n implies (#[trigger] visible@[i] == exists|j: int|
                0 <= j < k + 1 && #[trigger] found(world@, outliner@.rows, j, filter@) && (j == i
                    || rows_above(outliner@.rows, j, n as nat).contains(i))) by {
                let hit = found(world@, outliner@.rows, k as int, filter@) && (k == i
                    || rows_above(outliner@.rows, k as int, n as nat).contains(i));
                assert(visible@[i] == (before[i] || hit));
                if before[i] {
                    let j = choose|j: int|
                        0 <= j < k && #[trigger] found(world@, outliner@.rows, j, filter@) && (j
                            == i || rows_above(outliner@.rows, j, n as nat).contains(i));
                    assert(found(world@, outliner@.rows, j, filter@));
                }
            }
        }
        k = k + 1;
    }
    proof {
        assert forall|i: int| 0 <= i < visible@.len() implies #[trigger] visible@[i]
            == stays_visible(world@, outliner@.rows, i, filter@) by {}
        let rows = outliner@.rows;
        assert forall|at: int, up: int|
            #![trigger visible@[at], visible@[up]]
            0 <= at < visible@.len() && 0 <= up < visible@.len() && visible@[at] && rows[up].slot
                == rows[at].parent && (forall|k: int|
                0 <= k < up ==> (#[trigger] rows[k]).slot
                    != rows[at].parent) implies visible@[up] by {
            law_visibility_is_closed_upwards(world@, rows, at, up, filter@);
        }
        assert forall|at: int|
            0 <= at < visible@.len() && occurs_in(
                search_text(world@, rows[at].source),
                filter@,
            ) implies #[trigger] visible@[at] by {
            assert(found(world@, rows, at, filter@));
        }
    }
    visible
}

/// Each row of the way up owns the slot that the one before it hangs in, and a way that is shorter
/// than it may be ends at a row whose slot nothing owns.
proof fn lemma_way_up(rows: Seq<RowView>, at: int, depth: nat)
    requires
        0 <= at < rows.len(),
    ensures
        ({
            let way = seq![at] + rows_above(rows, at, depth);
            &&& way.len() <= depth + 1
            &&& forall|k: int| 0 <= k < way.len() ==> 0 <= #[trigger] way[k] < rows.len()
            &&& forall|k: int|
                0 <= k < way.len() - 1 ==> first_index(
                    rows,
                    owns_slot(rows[#[trigger] way[k]].parent),
                ) == way[k + 1]
            &&& way.len() <= depth ==> first_index(rows, owns_slot(rows[way.last()].parent))
                >= rows.len()
        }),
    decreases depth,
{
    let way = seq![at] + rows_above(rows, at, depth);
    let up = first_index(rows, owns_slot(rows[at].parent));
    lemma_first_index(rows, owns_slot(rows[at].parent));
    if depth > 0 && up < rows.len() {
        lemma_way_up(rows, up, (depth - 1) as nat);
        let rest = seq![up] + rows_above(rows, up, (depth - 1) as nat);
        assert(way =~= seq![at] + rest);
        assert forall|k: int| 0 <= k < way.len() - 1 implies first_index(
            rows,
            owns_slot(rows[#[trigger] way[k]].parent),
        ) == way[k + 1] by {
            if k > 0 {
                assert(way[k] == rest[k - 1]);
            }
        }
        assert(way.last() == rest.last());
    } else {
        assert(way =~= seq![at]);
    }
}

/// More positions than there are rows do not all differ.
proof fn lemma_positions_repeat(way: Seq<int>, n: nat) -> (r: (int, int))
    requires
        way.len() > n,
        forall|k: int| 0 <= k < way.len() ==> 0 <= #[trigger] way[k] < n,
    ensures
        0 <= r.0 < r.1 < way.len(),
        way[r.0] == way[r.1],
{
    if way.no_duplicates() {
        way.unique_seq_to_set();
        let all = vstd::set_lib::set_int_range(0, n as int);
        vstd::set_lib::lemma_int_range(0, n as int);
        assert(way.to_set().subset_of(all));
        vstd::set_lib::lemma_len_subset(way.to_set(), all);
        (0, 1)
    } else {
        let (i, j) = choose|i: int, j: int|
            0 <= i < way.len() && 0 <= j < way.len() && i != j && way[i] == way[j];
        if i < j {
            (i, j)
        } else {
            (j, i)
        }
    }
}

/// On a way up that comes round, what lies as far above two equal rows is equal.
proof fn lemma_way_comes_round(rows: Seq<RowView>, way: Seq<int>, a: int, b: int, t: nat)
    requires
        0 <= a < b,
        b + t < way.len(),
        way[a] == way[b],
        forall|k: int|
            0 <= k < way.len() - 1 ==> first_index(
                rows,
                owns_slot(rows[#[trigger] way[k]].parent),
            ) == way[k + 1],
    ensures
        way[a + t] == way[b + t],
    decreases t,
{
    if t > 0 {
        lemma_way_comes_round(rows, way, a, b, (t - 1) as nat);
        let i = a + t - 1;
        let j = b + t - 1;
        assert(way[i] == way[j]);
        assert(first_index(rows, owns_slot(rows[way[i]].parent)) == way[i + 1]);
        assert(first_index(rows, owns_slot(rows[way[j]].parent)) == way[j + 1]);
    }
}

/// What is visible under a filter is closed upwards: of the rows that own the slot a visible row hangs
/// in, the first is visible too.
pub proof fn law_visibility_is_closed_upwards(
    w: WorldView,
    rows: Seq<RowView>,
    at: int,
    up: int,
    filter: Seq<char>,
)
    requires
        0 <= at < rows.len(),
        stays_visible(w, rows, at, filter),
        0 <= up < rows.len(),
        rows[up].slot == rows[at].parent,
        forall|k: int| 0 <= k < up ==> (#[trigger] rows[k]).slot != rows[at].parent,
    ensures
        stays_visible(w, rows, up, filter),
{
    lemma_first_index_is(rows, owns_slot(rows[at].parent), up);
    let n = rows.len();
    let j = choose|j: int|
        0 <= j < rows.len() && #[trigger] found(w, rows, j, filter) && (j == at || rows_above(
            rows,
            j,
            rows.len(),
        ).contains(at));
    let above = rows_above(rows, j, n);
    let way = seq![j] + above;
    lemma_way_up(rows, j, n);
    let k = if j == at {
        0
    } else {
        1 + choose|k: int| 0 <= k < above.len() && above[k] == at
    };
    assert(way[k] == at);
    let on = if k + 1 < way.len() {
        k + 1
    } else {
        let (a, b) = lemma_positions_repeat(way, n);
        lemma_way_comes_round(rows, way, a, b, (n - b) as nat);
        assert(way[a + n - b] == way[n as int]);
        a + n - b + 1
    };
    assert(way[on - 1] == at);
    assert(way[on] == up);
    if on > 0 {
        assert(above[on - 1] == up);
    }
    assert(found(w, rows, j, filter) && (j == up || above.contains(up)));
}

/// A row that is visible without being found has a visible row below it, one that hangs in its slot.
pub proof fn law_visible_rows_lead_to_found_ones(
    w: WorldView,
    rows: Seq<RowView>,
    at: int,
    filter: Seq<char>,
)
    requires
        0 <= at < rows.len(),
        stays_visible(w, rows, at, filter),
        !occurs_in(search_text(w, rows[at].source), filter),
    ensures
        exists|below: int|
            0 <= below < rows.len() && (#[trigger] rows[below]).parent == rows[at].slot
                && stays_visible(w, rows, below, filter),
{
    let n = rows.len();
    let j = choose|j: int|
        0 <= j < rows.len() && #[trigger] found(w, rows, j, filter) && (j == at || rows_above(
            rows,
            j,
            rows.len(),
        ).contains(at));
    let above = rows_above(rows, j, n);
    let way = seq![j] + above;
    lemma_way_up(rows, j, n);
    let k = choose|k: int| 0 <= k < above.len() && above[k] == at;
    assert(way[k + 1] == at);
    let below = way[k];
    lemma_first_index(rows, owns_slot(rows[below].parent));
    assert(rows[below].parent == rows[at].slot);
    if k > 0 {
        assert(above[k - 1] == below);
    }
    assert(found(w, rows, j, filter) && (j == below || above.contains(below)));
}

/// A row that the filter finds is visible, and so is the row that it hangs below.
pub proof fn law_found_rows_stay(w: WorldView, rows: Seq<RowView>, at: int, filter: Seq<char>)
    requires
        0 <= at < rows.len(),
        found(w, rows, at, filter),
    ensures
        stays_visible(w, rows, at, filter),
        ({
            let up = first_index(rows, owns_slot(rows[at].parent));
            up < rows.len() ==> stays_visible(w, rows, up, filter)
        }),
{
    let up = first_index(rows, owns_slot(rows[at].parent));
    if up < rows.len() {
        let above = rows_above(rows, at, rows.len());
        assert(above[0] == up);
        assert(found(w, rows, at, filter) && above.contains(up));
    }
}

/// A row is found by every part of its entity's name, in upper or lower case.
pub proof fn law_row_is_found_by_its_name(
    w: WorldView,
    rows: Seq<RowView>,
    at: int,
    n: Seq<char>,
    i: int,
    j: int,
)
    requires
        0 <= at < rows.len(),
        name_of(w, rows[at].source) == Some(n),
        is_ascii_text(n),
        0 <= i <= j <= n.len(),
        trimmed(n.subrange(i, j)) == n.subrange(i, j),
    ensures
        found(w, rows, at, filter_of(n.subrange(i, j))),
{
    let part = n.subrange(i, j);
    assert(is_ascii_text(part)) by {
        assert forall|k: int| 0 <= k < part.len() implies is_ascii_char(#[trigger] part[k]) by {
            assert(part[k] == n[i + k]);
            assert(is_ascii_char(n[i + k]));
        }
    }
    let whole = lower_case_of(n);
    assert(whole.subrange(i, i + lower_case_of(part).len()) =~= lower_case_of(part));
    assert(occurs_at(whole, lower_case_of(part), i));
}

} // verus!
