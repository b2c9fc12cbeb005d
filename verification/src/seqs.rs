//! Searching and filtering sequences.
use vstd::prelude::*;
use crate::value::Entity;

verus! {

/// The position of the first element that meets `p`, or the length.
pub open spec fn first_index<A>(s: Seq<A>, p: spec_fn(A) -> bool) -> int
    decreases s.len(),
{
    if s.len() == 0 || p(s[0]) {
        0
    } else {
        1 + first_index(s.drop_first(), p)
    }
}

/// `first_index` is the first position whose element meets `p`.
pub proof fn lemma_first_index<A>(s: Seq<A>, p: spec_fn(A) -> bool)
    ensures
        0 <= first_index(s, p) <= s.len(),
        first_index(s, p) < s.len() ==> p(s[first_index(s, p)]),
        forall|j: int| 0 <= j < first_index(s, p) ==> !p(#[trigger] s[j]),
    decreases s.len(),
{
    if s.len() > 0 && !p(s[0]) {
        let rest = s.drop_first();
        lemma_first_index(rest, p);
        assert forall|j: int| 0 <= j < first_index(s, p) implies !p(#[trigger] s[j]) by {
            if j > 0 {
                assert(rest[j - 1] == s[j]);
            }
        }
    }
}

/// A position whose element meets `p`, with none before it, is the first index.
pub proof fn lemma_first_index_is<A>(s: Seq<A>, p: spec_fn(A) -> bool, i: int)
    requires
        0 <= i <= s.len(),
        i < s.len() ==> p(s[i]),
        forall|j: int| 0 <= j < i ==> !p(#[trigger] s[j]),
    ensures
        first_index(s, p) == i,
{
    lemma_first_index(s, p);
    let k = first_index(s, p);
    if k < i {
        assert(!p(s[k]));
    }
    if i < k {
        assert(!p(s[i]));
    }
}

/// The test for being `e`.
pub open spec fn is_entity(e: Entity) -> spec_fn(Entity) -> bool {
    |x: Entity| x == e
}

/// The position of the first `e`, or the length.
pub open spec fn position_of(s: Seq<Entity>, e: Entity) -> int {
    first_index(s, is_entity(e))
}

/// The test for not being `e`.
pub open spec fn not_entity(e: Entity) -> spec_fn(Entity) -> bool {
    |x: Entity| x != e
}

/// The test for not being one of `gone`.
pub open spec fn not_among(gone: Seq<Entity>) -> spec_fn(Entity) -> bool {
    |x: Entity| !gone.contains(x)
}

/// The elements of `s` that are not `e`, in order.
pub open spec fn without(s: Seq<Entity>, e: Entity) -> Seq<Entity> {
    s.filter(not_entity(e))
}

/// The elements of `s` that are not in `gone`, in order.
pub open spec fn without_all(s: Seq<Entity>, gone: Seq<Entity>) -> Seq<Entity> {
    s.filter(not_among(gone))
}

/// Filtering a sequence one longer adds the new last element exactly when it passes.
pub proof fn lemma_filter_push<A>(s: Seq<A>, x: A, p: spec_fn(A) -> bool)
    ensures
        s.push(x).filter(p) == (if p(x) {
            s.filter(p).push(x)
        } else {
            s.filter(p)
        }),
{
    reveal(Seq::filter);
    assert(s.push(x).drop_last() =~= s);
}

/// A filtered sequence holds exactly the elements that pass.
pub proof fn lemma_filter_contains<A>(s: Seq<A>, p: spec_fn(A) -> bool, x: A)
    ensures
        s.filter(p).contains(x) <==> s.contains(x) && p(x),
    decreases s.len(),
{
    reveal(Seq::filter);
    if s.len() > 0 {
        let init = s.drop_last();
        lemma_filter_contains(init, p, x);
        assert(s =~= init.push(s.last()));
        if s.contains(x) {
            let i = choose|i: int| 0 <= i < s.len() && s[i] == x;
            if i < init.len() {
                assert(init[i] == x);
            }
        }
        if init.contains(x) {
            let i = choose|i: int| 0 <= i < init.len() && init[i] == x;
            assert(s[i] == x);
        }
        if p(s.last()) {
            let f = init.filter(p);
            assert(s.filter(p) == f.push(s.last()));
            if f.contains(x) {
                let i = choose|i: int| 0 <= i < f.len() && f[i] == x;
                assert(f.push(s.last())[i] == x);
            }
            if f.push(s.last()).contains(x) {
                let i = choose|i: int|
                    0 <= i < f.push(s.last()).len() && f.push(s.last())[i] == x;
                if i < f.len() {
                    assert(f[i] == x);
                } else {
                    assert(s[s.len() - 1] == x);
                }
            }
            if x == s.last() {
                assert(f.push(s.last())[f.len() as int] == x);
            }
        }
    }
}

/// Filtering keeps distinct elements distinct.
pub proof fn lemma_filter_no_duplicates<A>(s: Seq<A>, p: spec_fn(A) -> bool)
    requires
        s.no_duplicates(),
    ensures
        s.filter(p).no_duplicates(),
    decreases s.len(),
{
    reveal(Seq::filter);
    if s.len() > 0 {
        let init = s.drop_last();
        assert forall|i: int, j: int| 0 <= i < init.len() && 0 <= j < init.len() && i != j implies
            init[i] != init[j] by {
            assert(s[i] != s[j]);
        }
        lemma_filter_no_duplicates(init, p);
        if p(s.last()) {
            let f = init.filter(p);
            let g = f.push(s.last());
            assert(s.filter(p) == g);
            lemma_filter_contains(init, p, s.last());
            assert(!init.contains(s.last())) by {
                if init.contains(s.last()) {
                    let i = choose|i: int| 0 <= i < init.len() && init[i] == s.last();
                    assert(s[i] == s[s.len() - 1]);
                }
            }
            assert forall|i: int, j: int| 0 <= i < g.len() && 0 <= j < g.len() && i != j implies
                g[i] != g[j] by {
                if i == f.len() {
                    assert(f.contains(f[j]));
                } else if j == f.len() {
                    assert(f.contains(f[i]));
                }
            }
        }
    }
}

/// Filtering a sequence whose elements all pass leaves it as it is.
pub proof fn lemma_filter_all<A>(s: Seq<A>, p: spec_fn(A) -> bool)
    requires
        forall|i: int| 0 <= i < s.len() ==> p(#[trigger] s[i]),
    ensures
        s.filter(p) == s,
    decreases s.len(),
{
    reveal(Seq::filter);
    if s.len() > 0 {
        let init = s.drop_last();
        assert forall|i: int| 0 <= i < init.len() implies p(#[trigger] init[i]) by {
            assert(init[i] == s[i]);
        }
        lemma_filter_all(init, p);
        assert(init.push(s.last()) =~= s);
    }
}

/// Whether `e` is in `v`.
pub fn contains(v: &Vec<Entity>, e: Entity) -> (r: bool)
    ensures
        r == v@.contains(e),
{
    let mut i: usize = 0;
    while i < v.len()
        invariant
            i <= v.len(),
            forall|j: int| 0 <= j < i ==> v@[j] != e,
        decreases v.len() - i,
    {
        if v[i] == e {
            assert(v@[i as int] == e);
            return true;
        }
        i = i + 1;
    }
    false
}

/// The position of the first `e` in `v`.
pub fn position(v: &Vec<Entity>, e: Entity) -> (r: Option<usize>)
    ensures
        match r {
            Some(i) => i < v.len() && v@[i as int] == e && position_of(v@, e) == i,
            None => !v@.contains(e) && position_of(v@, e) == v.len(),
        },
{
    let mut i: usize = 0;
    while i < v.len()
        invariant
            i <= v.len(),
            forall|j: int| 0 <= j < i ==> v@[j] != e,
        decreases v.len() - i,
    {
        if v[i] == e {
            proof {
                lemma_first_index_is(v@, is_entity(e), i as int);
            }
            return Some(i);
        }
        i = i + 1;
    }
    proof {
        lemma_first_index_is(v@, is_entity(e), i as int);
    }
    None
}

/// The elements of `v` that are not in `gone`, in order.
pub fn filter_out(v: &Vec<Entity>, gone: &Vec<Entity>) -> (r: Vec<Entity>)
    ensures
        r@ == without_all(v@, gone@),
{
    let ghost p = not_among(gone@);
    let mut out: Vec<Entity> = Vec::new();
    let mut i: usize = 0;
    assert(v@.subrange(0, 0).filter(p) =~= Seq::empty()) by {
        reveal(Seq::filter);
    }
    while i < v.len()
        invariant
            i <= v.len(),
            p == not_among(gone@),
            out@ == v@.subrange(0, i as int).filter(p),
        decreases v.len() - i,
    {
        proof {
            lemma_filter_push(v@.subrange(0, i as int), v@[i as int], p);
            assert(v@.subrange(0, i as int).push(v@[i as int]) =~= v@.subrange(0, i + 1));
        }
        if !contains(gone, v[i]) {
            out.push(v[i]);
        }
        i = i + 1;
    }
    assert(v@.subrange(0, i as int) =~= v@);
    out
}

/// The elements of `v` that are not `e`, in order.
pub fn filter_one(v: &Vec<Entity>, e: Entity) -> (r: Vec<Entity>)
    ensures
        r@ == without(v@, e),
{
    let ghost p = not_entity(e);
    let mut out: Vec<Entity> = Vec::new();
    let mut i: usize = 0;
    assert(v@.subrange(0, 0).filter(p) =~= Seq::empty()) by {
        reveal(Seq::filter);
    }
    while i < v.len()
        invariant
            i <= v.len(),
            p == not_entity(e),
            out@ == v@.subrange(0, i as int).filter(p),
        decreases v.len() - i,
    {
        proof {
            lemma_filter_push(v@.subrange(0, i as int), v@[i as int], p);
            assert(v@.subrange(0, i as int).push(v@[i as int]) =~= v@.subrange(0, i + 1));
        }
        if v[i] != e {
            out.push(v[i]);
        }
        i = i + 1;
    }
    assert(v@.subrange(0, i as int) =~= v@);
    out
}

/// A copy of `v`.
pub fn copied(v: &Vec<Entity>) -> (r: Vec<Entity>)
    ensures
        r@ == v@,
{
    let r: Vec<Entity> = v.clone();
    assert(r@ =~= v@);
    r
}

/// A sequence one longer holds the new element and what it held.
pub proof fn lemma_push_contains<A>(s: Seq<A>, x: A, v: A)
    ensures
        s.push(x).contains(v) <==> s.contains(v) || v == x,
{
    let after = s.push(x);
    assert(after[s.len() as int] == x);
    if s.contains(v) {
        let i = choose|i: int| 0 <= i < s.len() && s[i] == v;
        assert(after[i] == v);
    }
    if after.contains(v) && v != x {
        let i = choose|i: int| 0 <= i < after.len() && after[i] == v;
        assert(s[i] == v);
    }
}

/// A selection of a sequence is no longer than it.
pub proof fn lemma_filter_length<A>(s: Seq<A>, p: spec_fn(A) -> bool)
    ensures
        s.filter(p).len() <= s.len(),
    decreases s.len(),
{
    if s.len() > 0 {
        lemma_filter_length(s.drop_last(), p);
        lemma_filter_push(s.drop_last(), s.last(), p);
        assert(s =~= s.drop_last().push(s.last()));
    } else {
        reveal(Seq::filter);
    }
}

} // verus!
