//! A stable sort.
use vstd::prelude::*;

verus! {

/// A type with an order of its values. Distinct values may be ordered alike.
pub trait Ranked: Sized {
    /// Whether this value may stand before `other`.
    spec fn ranks_before(self, other: Self) -> bool;

    /// Of any two values one may stand before the other.
    proof fn lemma_total(a: Self, b: Self)
        ensures
            a.ranks_before(b) || b.ranks_before(a),
    ;

    /// The order is transitive.
    proof fn lemma_transitive(a: Self, b: Self, c: Self)
        requires
            a.ranks_before(b),
            b.ranks_before(c),
        ensures
            a.ranks_before(c),
    ;

    /// Whether this value may stand before `other`.
    fn may_precede(&self, other: &Self) -> (r: bool)
        ensures
            r == self.ranks_before(*other),
    ;
}

/// Whether each value may stand before every later one.
pub open spec fn is_sorted<T: Ranked>(s: Seq<T>) -> bool {
    forall|i: int, j: int| 0 <= i < j < s.len() ==> (#[trigger] s[i]).ranks_before(#[trigger] s[j])
}

/// `s` with `x` put behind the last value that may stand before it.
pub open spec fn with_inserted<T: Ranked>(s: Seq<T>, x: T) -> Seq<T>
    decreases s.len(),
{
    if s.len() == 0 {
        seq![x]
    } else if s.last().ranks_before(x) {
        s.push(x)
    } else {
        with_inserted(s.drop_last(), x).push(s.last())
    }
}

/// The values of `s` in order, values that are ordered alike in the order that they had.
pub open spec fn stably_sorted<T: Ranked>(s: Seq<T>) -> Seq<T>
    decreases s.len(),
{
    if s.len() == 0 {
        Seq::empty()
    } else {
        with_inserted(stably_sorted(s.drop_last()), s.last())
    }
}

proof fn lemma_with_inserted<T: Ranked>(s: Seq<T>, x: T, k: int)
    requires
        0 <= k <= s.len(),
        k > 0 ==> s[k - 1].ranks_before(x),
        forall|j: int| k <= j < s.len() ==> !(#[trigger] s[j]).ranks_before(x),
    ensures
        with_inserted(s, x) == s.insert(k, x),
    decreases s.len(),
{
    if s.len() == 0 {
        assert(s.insert(k, x) =~= seq![x]);
    } else if k == s.len() {
        assert(s.insert(k, x) =~= s.push(x));
    } else {
        let init = s.drop_last();
        assert(!s[s.len() - 1].ranks_before(x));
        assert forall|j: int| k <= j < init.len() implies !(#[trigger] init[j]).ranks_before(x) by {
            assert(init[j] == s[j]);
        }
        lemma_with_inserted(init, x, k);
        assert(init.insert(k, x).push(s.last()) =~= s.insert(k, x));
    }
}

/// Sorts values, keeping the order of those that are ordered alike.
pub fn stable_sort<T: Ranked>(items: Vec<T>) -> (r: Vec<T>)
    ensures
        r@ == stably_sorted(items@),
{
    let ghost all = items@;
    let mut rest: Vec<T> = items;
    let mut out: Vec<T> = Vec::new();
    let n: usize = rest.len();
    let mut i: usize = 0;
    assert(all.subrange(0, 0) =~= Seq::empty());
    assert(all.subrange(0, n as int) =~= all);
    while i < n
        invariant
            i <= n,
            n == all.len(),
            rest@ == all.subrange(i as int, n as int),
            out@ == stably_sorted(all.subrange(0, i as int)),
            out.len() == i,
        decreases n - i,
    {
        proof {
            assert(all.subrange(0, i + 1).drop_last() =~= all.subrange(0, i as int));
            assert(all.subrange(0, i + 1).last() == all[i as int]);
        }
        let x: T = rest.remove(0);
        assert(rest@ =~= all.subrange(i + 1, n as int));
        let mut k: usize = out.len();
        while k > 0 && !out[k - 1].may_precede(&x)
            invariant
                k <= out.len(),
                forall|j: int| k <= j < out.len() ==> !(#[trigger] out@[j]).ranks_before(x),
            decreases k,
        {
            k = k - 1;
        }
        proof {
            lemma_with_inserted(out@, x, k as int);
        }
        out.insert(k, x);
        i = i + 1;
    }
    assert(all.subrange(0, n as int) =~= all);
    out
}

proof fn lemma_inserted_multiset<T: Ranked>(s: Seq<T>, x: T)
    ensures
        with_inserted(s, x).to_multiset() == s.to_multiset().insert(x),
    decreases s.len(),
{
    broadcast use vstd::seq_lib::group_to_multiset_ensures;

    if s.len() == 0 {
        assert(seq![x] =~= Seq::<T>::empty().push(x));
        assert(s =~= Seq::empty());
    } else if !s.last().ranks_before(x) {
        lemma_inserted_multiset(s.drop_last(), x);
        assert(s =~= s.drop_last().push(s.last()));
        assert(s.to_multiset().insert(x) =~= s.drop_last().to_multiset().insert(x).insert(
            s.last(),
        ));
    }
}

proof fn lemma_inserted_sorted<T: Ranked>(s: Seq<T>, x: T)
    requires
        is_sorted(s),
    ensures
        is_sorted(with_inserted(s, x)),
        forall|y: T|
            with_inserted(s, x).contains(y) ==> #[trigger] s.contains(y) || y == x,
    decreases s.len(),
{
    let r = with_inserted(s, x);
    if s.len() > 0 {
        let init = s.drop_last();
        let last = s.last();
        assert(is_sorted(init)) by {
            assert forall|i: int, j: int| 0 <= i < j < init.len() implies (
            #[trigger] init[i]).ranks_before(#[trigger] init[j]) by {
                assert(init[i] == s[i] && init[j] == s[j]);
            }
        }
        if last.ranks_before(x) {
            assert forall|i: int, j: int| 0 <= i < j < r.len() implies (
            #[trigger] r[i]).ranks_before(#[trigger] r[j]) by {
                if j == s.len() {
                    if i < s.len() - 1 {
                        assert(s[i].ranks_before(s[s.len() - 1]));
                        T::lemma_transitive(s[i], last, x);
                    }
                } else {
                    assert(r[i] == s[i] && r[j] == s[j]);
                }
            }
            assert forall|y: T| r.contains(y) implies #[trigger] s.contains(y) || y == x by {
                let i = choose|i: int| 0 <= i < r.len() && r[i] == y;
                if i < s.len() {
                    assert(s[i] == y);
                }
            }
        } else {
            T::lemma_total(last, x);
            lemma_inserted_sorted(init, x);
            let inner = with_inserted(init, x);
            assert forall|i: int, j: int| 0 <= i < j < r.len() implies (
            #[trigger] r[i]).ranks_before(#[trigger] r[j]) by {
                if j == r.len() - 1 {
                    assert(inner.contains(inner[i]));
                    if init.contains(inner[i]) {
                        let k = choose|k: int| 0 <= k < init.len() && init[k] == inner[i];
                        assert(s[k].ranks_before(s[s.len() - 1]));
                    }
                } else {
                    assert(r[i] == inner[i] && r[j] == inner[j]);
                }
            }
            assert forall|y: T| r.contains(y) implies #[trigger] s.contains(y) || y == x by {
                let i = choose|i: int| 0 <= i < r.len() && r[i] == y;
                if i < inner.len() {
                    assert(inner.contains(inner[i]));
                    if init.contains(y) {
                        let k = choose|k: int| 0 <= k < init.len() && init[k] == y;
                        assert(s[k] == y);
                    }
                } else {
                    assert(s[s.len() - 1] == y);
                }
            }
        }
    } else {
        assert forall|y: T| r.contains(y) implies #[trigger] s.contains(y) || y == x by {}
    }
}

/// Sorting gives the same values, in order.
pub proof fn law_sorted<T: Ranked>(s: Seq<T>)
    ensures
        is_sorted(stably_sorted(s)),
        stably_sorted(s).to_multiset() == s.to_multiset(),
        stably_sorted(s).len() == s.len(),
    decreases s.len(),
{
    broadcast use vstd::seq_lib::group_to_multiset_ensures;

    if s.len() > 0 {
        let init = stably_sorted(s.drop_last());
        law_sorted(s.drop_last());
        lemma_inserted_sorted(init, s.last());
        lemma_inserted_multiset(init, s.last());
        assert(s =~= s.drop_last().push(s.last()));
        stably_sorted(s).to_multiset_ensures();
        s.to_multiset_ensures();
    } else {
        assert(stably_sorted(s) =~= s);
    }
}

/// Whether values are ordered alike.
pub open spec fn ranks_like<T: Ranked>(x: T) -> spec_fn(T) -> bool {
    |y: T| x.ranks_before(y) && y.ranks_before(x)
}

proof fn lemma_inserted_alike<T: Ranked>(s: Seq<T>, x: T, like: T)
    requires
        is_sorted(s),
    ensures
        with_inserted(s, x).filter(ranks_like(like)) == (if ranks_like(like)(x) {
            s.filter(ranks_like(like)).push(x)
        } else {
            s.filter(ranks_like(like))
        }),
    decreases s.len(),
{
    let p = ranks_like(like);
    if s.len() == 0 {
        assert(seq![x] =~= s.push(x));
        crate::seqs::lemma_filter_push(s, x, p);
    } else if s.last().ranks_before(x) {
        crate::seqs::lemma_filter_push(s, x, p);
    } else {
        let init = s.drop_last();
        let last = s.last();
        assert(is_sorted(init)) by {
            assert forall|i: int, j: int| 0 <= i < j < init.len() implies (
            #[trigger] init[i]).ranks_before(#[trigger] init[j]) by {
                assert(init[i] == s[i] && init[j] == s[j]);
            }
        }
        lemma_inserted_alike(init, x, like);
        assert(s =~= init.push(last));
        crate::seqs::lemma_filter_push(init, last, p);
        crate::seqs::lemma_filter_push(with_inserted(init, x), last, p);
        if p(x) && p(last) {
            T::lemma_transitive(last, like, x);
        }
    }
}

/// Sorting keeps the order of values that are ordered alike.
pub proof fn law_sort_is_stable<T: Ranked>(s: Seq<T>, like: T)
    ensures
        stably_sorted(s).filter(ranks_like(like)) == s.filter(ranks_like(like)),
    decreases s.len(),
{
    if s.len() > 0 {
        let init = s.drop_last();
        law_sort_is_stable(init, like);
        law_sorted(init);
        lemma_inserted_alike(stably_sorted(init), s.last(), like);
        assert(s =~= init.push(s.last()));
        crate::seqs::lemma_filter_push(init, s.last(), ranks_like(like));
    } else {
        assert(stably_sorted(s) =~= s);
    }
}

/// Whether `a` comes before `b` or is `b` in the order of the characters.
pub open spec fn text_le(a: Seq<char>, b: Seq<char>) -> bool
    decreases a.len(),
{
    if a.len() == 0 {
        true
    } else if b.len() == 0 {
        false
    } else if a[0] != b[0] {
        a[0] < b[0]
    } else {
        text_le(a.drop_first(), b.drop_first())
    }
}

pub proof fn lemma_text_le_total(a: Seq<char>, b: Seq<char>)
    ensures
        text_le(a, b) || text_le(b, a),
        text_le(a, b) && text_le(b, a) ==> a == b,
    decreases a.len(),
{
    if a.len() > 0 && b.len() > 0 && a[0] == b[0] {
        lemma_text_le_total(a.drop_first(), b.drop_first());
        if a.drop_first() == b.drop_first() {
            assert(a =~= seq![a[0]] + a.drop_first());
            assert(b =~= seq![b[0]] + b.drop_first());
        }
    }
    if a.len() == 0 && b.len() == 0 {
        assert(a =~= b);
    }
}

pub proof fn lemma_text_le_transitive(a: Seq<char>, b: Seq<char>, c: Seq<char>)
    requires
        text_le(a, b),
        text_le(b, c),
    ensures
        text_le(a, c),
    decreases a.len(),
{
    if a.len() > 0 && b.len() > 0 && c.len() > 0 && a[0] == b[0] && b[0] == c[0] {
        lemma_text_le_transitive(a.drop_first(), b.drop_first(), c.drop_first());
    }
}

/// Whether `a` comes before `b` or is `b` in the order of the characters.
pub fn text_at_most(a: &str, b: &str) -> (r: bool)
    ensures
        r == text_le(a@, b@),
{
    let x: Vec<char> = crate::text::chars_of(a);
    let y: Vec<char> = crate::text::chars_of(b);
    let mut i: usize = 0;
    assert(a@.subrange(0, a@.len() as int) =~= a@);
    assert(b@.subrange(0, b@.len() as int) =~= b@);
    while i < x.len() && i < y.len() && x[i] == y[i]
        invariant
            x@ == a@,
            y@ == b@,
            i <= x.len(),
            i <= y.len(),
            text_le(a@, b@) == text_le(
                a@.subrange(i as int, a@.len() as int),
                b@.subrange(i as int, b@.len() as int),
            ),
        decreases x.len() - i,
    {
        proof {
            let u = a@.subrange(i as int, a@.len() as int);
            let v = b@.subrange(i as int, b@.len() as int);
            assert(u.drop_first() =~= a@.subrange(i + 1, a@.len() as int));
            assert(v.drop_first() =~= b@.subrange(i + 1, b@.len() as int));
            assert(u[0] == v[0]);
        }
        i = i + 1;
    }
    if i == x.len() {
        true
    } else if i == y.len() {
        false
    } else {
        x[i] < y[i]
    }
}

/// The first character in which two texts differ decides which comes first; where one is the beginning
/// of the other, it does.
pub proof fn law_first_difference_decides(a: Seq<char>, b: Seq<char>, i: int)
    requires
        0 <= i <= a.len(),
        i <= b.len(),
        a.subrange(0, i) == b.subrange(0, i),
    ensures
        i < a.len() && i < b.len() && a[i] < b[i] ==> text_le(a, b) && !text_le(b, a),
        i == a.len() ==> text_le(a, b),
        i == a.len() && i < b.len() ==> !text_le(b, a),
    decreases i,
{
    if i > 0 {
        assert(a[0] == a.subrange(0, i)[0]);
        assert(b[0] == b.subrange(0, i)[0]);
        assert(a.drop_first().subrange(0, i - 1) =~= a.subrange(0, i).drop_first());
        assert(b.drop_first().subrange(0, i - 1) =~= b.subrange(0, i).drop_first());
        law_first_difference_decides(a.drop_first(), b.drop_first(), i - 1);
    }
}

} // verus!
