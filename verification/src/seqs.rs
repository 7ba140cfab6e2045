//! Facts about sequences.

use vstd::prelude::*;

verus! {

pub proof fn lemma_filter_insert<A>(s: Seq<A>, k: int, x: A, f: spec_fn(A) -> bool)
    requires
        0 <= k <= s.len(),
    ensures
        s.insert(k, x).filter(f) == s.take(k).filter(f) + (if f(x) {
            seq![x]
        } else {
            Seq::empty()
        }) + s.skip(k).filter(f),
        s.filter(f) == s.take(k).filter(f) + s.skip(k).filter(f),
{
    assert(s.insert(k, x) =~= s.take(k) + seq![x] + s.skip(k));
    Seq::filter_distributes_over_add(s.take(k) + seq![x], s.skip(k), f);
    Seq::filter_distributes_over_add(s.take(k), seq![x], f);
    lemma_filter_one(x, f);
    assert(s =~= s.take(k) + s.skip(k));
    Seq::filter_distributes_over_add(s.take(k), s.skip(k), f);
}

pub proof fn lemma_filter_one<A>(x: A, f: spec_fn(A) -> bool)
    ensures
        seq![x].filter(f) == if f(x) {
            seq![x]
        } else {
            Seq::<A>::empty()
        },
{
    reveal(Seq::filter);
    assert(seq![x].drop_last() =~= Seq::<A>::empty());
    assert(Seq::<A>::empty().filter(f) =~= Seq::<A>::empty());
    assert(Seq::<A>::empty().push(x) =~= seq![x]);
}

pub proof fn lemma_filter_none<A>(s: Seq<A>, f: spec_fn(A) -> bool)
    requires
        forall|i: int| 0 <= i < s.len() ==> !f(#[trigger] s[i]),
    ensures
        s.filter(f) == Seq::<A>::empty(),
    decreases s.len(),
{
    reveal(Seq::filter);
    if s.len() > 0 {
        lemma_filter_none(s.drop_last(), f);
    }
}

pub proof fn lemma_filter_push<A>(s: Seq<A>, x: A, f: spec_fn(A) -> bool)
    ensures
        s.push(x).filter(f) == if f(x) {
            s.filter(f).push(x)
        } else {
            s.filter(f)
        },
{
    reveal(Seq::filter);
    assert(s.push(x).drop_last() =~= s);
}

pub proof fn lemma_filter_from<A>(s: Seq<A>, f: spec_fn(A) -> bool, x: A)
    requires
        s.filter(f).contains(x),
    ensures
        s.contains(x),
        f(x),
    decreases s.len(),
{
    reveal(Seq::filter);
    let i = choose|i: int| 0 <= i < s.filter(f).len() && s.filter(f)[i] == x;
    if s.len() > 0 {
        let r = s.drop_last();
        if f(s.last()) && i == r.filter(f).len() {
            assert(s[s.len() - 1] == x);
        } else {
            assert(r.filter(f)[i] == x);
            lemma_filter_from(r, f, x);
            let j = choose|j: int| 0 <= j < r.len() && r[j] == x;
            assert(s[j] == x);
        }
    }
}

pub proof fn lemma_filter_same<A>(s: Seq<A>, f: spec_fn(A) -> bool, g: spec_fn(A) -> bool)
    requires
        forall|x: A| #[trigger] f(x) == g(x),
    ensures
        s.filter(f) == s.filter(g),
    decreases s.len(),
{
    reveal(Seq::filter);
    if s.len() > 0 {
        lemma_filter_same(s.drop_last(), f, g);
        assert(f(s.last()) == g(s.last()));
    }
}

pub proof fn lemma_filter_twice<A>(
    s: Seq<A>,
    f: spec_fn(A) -> bool,
    g: spec_fn(A) -> bool,
    both: spec_fn(A) -> bool,
)
    requires
        forall|x: A| #[trigger] both(x) == (f(x) && g(x)),
    ensures
        s.filter(f).filter(g) == s.filter(both),
    decreases s.len(),
{
    if s.len() == 0 {
        reveal(Seq::filter);
    } else {
        let r = s.drop_last();
        let x = s.last();
        lemma_filter_twice(r, f, g, both);
        assert(s =~= r.push(x));
        lemma_filter_push(r, x, f);
        lemma_filter_push(r, x, both);
        lemma_filter_push(r.filter(f), x, g);
        assert(both(x) == (f(x) && g(x)));
    }
}

} // verus!
