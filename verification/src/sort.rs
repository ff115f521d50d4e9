//! Sorting that keeps equal items in the order they came in.

use vstd::prelude::*;

verus! {

/// A strict order in which items that neither precede nor follow each other
/// are interchangeable.
pub open spec fn is_order<T>(before: spec_fn(T, T) -> bool) -> bool {
    &&& forall|a: T| !#[trigger] before(a, a)
    &&& forall|a: T, b: T, c: T| #[trigger]
        before(a, b) && #[trigger] before(b, c) ==> before(a, c)
    &&& forall|a: T, b: T, c: T| #[trigger]
        before(a, c) ==> #[trigger] before(a, b) || before(b, c)
}

/// Whether an item stands beside another: neither precedes the other.
pub open spec fn ties<T>(before: spec_fn(T, T) -> bool, a: T) -> spec_fn(T) -> bool {
    |b: T| !before(a, b) && !before(b, a)
}

/// Whether no item stands after one that it precedes.
pub open spec fn in_order<T>(s: Seq<T>, before: spec_fn(T, T) -> bool) -> bool {
    forall|i: int, j: int| 0 <= i < j < s.len() ==> !before(#[trigger] s[j], #[trigger] s[i])
}

/// Whether one list is another sorted, items that tie kept in their order:
/// it is in order, and the items beside any given one are the same list in both.
pub open spec fn sorted_from<T>(out: Seq<T>, v: Seq<T>, before: spec_fn(T, T) -> bool) -> bool {
    &&& in_order(out, before)
    &&& forall|a: T| out.filter(#[trigger] ties(before, a)) == v.filter(ties(before, a))
}

/// A filter that no item passes leaves nothing.
pub proof fn lemma_filter_none<T>(s: Seq<T>, p: spec_fn(T) -> bool)
    requires
        forall|i: int| 0 <= i < s.len() ==> !p(#[trigger] s[i]),
    ensures
        s.filter(p) == Seq::<T>::empty(),
    decreases s.len(),
{
    reveal(Seq::filter);
    if s.len() > 0 {
        lemma_filter_none(s.drop_last(), p);
    }
}

/// Putting an item in front of everything it precedes, and behind the rest,
/// sorts it in.
proof fn lemma_sorted_in<T>(
    a: Seq<T>,
    b: Seq<T>,
    x: T,
    v: Seq<T>,
    before: spec_fn(T, T) -> bool,
)
    requires
        is_order(before),
        sorted_from(a + b, v, before),
        forall|i: int| 0 <= i < a.len() ==> !before(x, #[trigger] a[i]),
        forall|i: int| 0 <= i < b.len() ==> before(x, #[trigger] b[i]),
    ensures
        sorted_from(a + seq![x] + b, v.push(x), before),
{
    let out = a + seq![x] + b;
    let was = a + b;
    assert forall|i: int, j: int| 0 <= i < j < out.len() implies !before(
        #[trigger] out[j],
        #[trigger] out[i],
    ) by {
        let n = a.len();
        if j < n {
            assert(out[i] == was[i] && out[j] == was[j]);
        } else if i > n {
            assert(out[i] == was[i - 1] && out[j] == was[j - 1]);
        } else if i == n {
            assert(out[j] == b[j - n - 1]);
            assert(before(x, out[j]));
            if before(out[j], x) {
                assert(before(x, x));
            }
        } else if j == n {
            assert(out[i] == a[i]);
        } else {
            assert(out[i] == was[i] && out[j] == was[j - 1]);
        }
    }
    assert forall|c: T| out.filter(#[trigger] ties(before, c)) == v.push(x).filter(
        ties(before, c),
    ) by {
        let p = ties(before, c);
        Seq::filter_distributes_over_add(a + seq![x], b, p);
        Seq::filter_distributes_over_add(a, seq![x], p);
        Seq::filter_distributes_over_add(a, b, p);
        Seq::filter_distributes_over_add(v, seq![x], p);
        assert(v.push(x) =~= v + seq![x]);
        if p(x) {
            assert forall|i: int| 0 <= i < b.len() implies !p(#[trigger] b[i]) by {
                if !before(c, b[i]) && !before(b[i], c) {
                    assert(before(x, b[i]));
                    assert(before(x, c) || before(c, b[i]));
                }
            }
            lemma_filter_none(b, p);
        } else {
            lemma_filter_none(seq![x], p);
        }
        assert(out.filter(p) =~= was.filter(p) + seq![x].filter(p));
    }
}

/// Two sortings of one list are the same list.
pub proof fn law_sorting_is_unique<T>(
    one: Seq<T>,
    two: Seq<T>,
    v: Seq<T>,
    before: spec_fn(T, T) -> bool,
)
    requires
        is_order(before),
        sorted_from(one, v, before),
        sorted_from(two, v, before),
    ensures
        one == two,
    decreases one.len(),
{
    reveal(Seq::filter);
    if one.len() == 0 {
        if two.len() > 0 {
            let p = ties(before, two[0]);
            two.lemma_filter_contains(p, 0);
            assert(one.filter(p).len() == 0);
        }
    } else if two.len() == 0 {
        let p = ties(before, one[0]);
        one.lemma_filter_contains(p, 0);
        assert(two.filter(p).len() == 0);
    } else {
        let x = one.last();
        let y = two.last();
        lemma_last_ties(one, two, before);
        lemma_last_ties(two, one, before);
        let p = ties(before, x);
        assert(p(x) && p(y));
        assert(one.filter(p).last() == x);
        assert(two.filter(p).last() == y);
        assert forall|a: T| one.drop_last().filter(#[trigger] ties(before, a))
            == two.drop_last().filter(ties(before, a)) by {
            let q = ties(before, a);
            assert(one.filter(q) == two.filter(q));
            if q(x) {
                assert(one.filter(q).drop_last() =~= one.drop_last().filter(q));
                assert(two.filter(q).drop_last() =~= two.drop_last().filter(q));
            }
        }
        law_sorting_is_unique(one.drop_last(), two.drop_last(), two.drop_last(), before);
        assert(one =~= one.drop_last().push(x));
        assert(two =~= two.drop_last().push(y));
    }
}

/// The last items of two sortings of one list tie.
proof fn lemma_last_ties<T>(one: Seq<T>, two: Seq<T>, before: spec_fn(T, T) -> bool)
    requires
        is_order(before),
        one.len() > 0,
        two.len() > 0,
        in_order(one, before),
        in_order(two, before),
        forall|a: T| one.filter(#[trigger] ties(before, a)) == two.filter(ties(before, a)),
    ensures
        !before(one.last(), two.last()),
{
    let x = one.last();
    let y = two.last();
    if before(x, y) {
        let p = ties(before, y);
        two.lemma_filter_contains(p, two.len() - 1);
        assert(one.filter(p).contains(y));
        let k = choose|k: int| 0 <= k < one.filter(p).len() && one.filter(p)[k] == y;
        one.lemma_filter_contains_rev(p, y);
    }
}

/// A list and its sorting hold the same items.
pub proof fn lemma_sorted_holds_the_same<T>(
    out: Seq<T>,
    v: Seq<T>,
    before: spec_fn(T, T) -> bool,
)
    requires
        is_order(before),
        sorted_from(out, v, before),
    ensures
        forall|x: T| #[trigger] out.contains(x) <==> v.contains(x),
{
    assert forall|x: T| #[trigger] out.contains(x) <==> v.contains(x) by {
        let p = ties(before, x);
        if out.contains(x) {
            let k = choose|k: int| 0 <= k < out.len() && out[k] == x;
            out.lemma_filter_contains(p, k);
            v.lemma_filter_contains_rev(p, x);
        }
        if v.contains(x) {
            let k = choose|k: int| 0 <= k < v.len() && v[k] == x;
            v.lemma_filter_contains(p, k);
            out.lemma_filter_contains_rev(p, x);
        }
    }
}

/// Sorts a list, items that tie kept in their order.
pub(crate) fn sorted<T, F: Fn(&T, &T) -> bool>(
    v: Vec<T>,
    precedes: F,
    Ghost(before): Ghost<spec_fn(T, T) -> bool>,
) -> (out: Vec<T>)
    requires
        is_order(before),
        forall|a: &T, b: &T| #[trigger] call_requires(precedes, (a, b)),
        forall|a: &T, b: &T, r: bool| #[trigger]
            call_ensures(precedes, (a, b), r) ==> r == before(*a, *b),
    ensures
        sorted_from(out@, v@, before),
{
    let ghost whole = v@;
    let mut out: Vec<T> = Vec::new();
    proof {
        reveal(Seq::filter);
        assert(whole.take(0) =~= out@);
    }
    for x in it: v
        invariant
            is_order(before),
            forall|a: &T, b: &T| #[trigger] call_requires(precedes, (a, b)),
            forall|a: &T, b: &T, r: bool| #[trigger]
                call_ensures(precedes, (a, b), r) ==> r == before(*a, *b),
            it.seq() == whole,
            sorted_from(out@, whole.take(it.index() as int), before),
    {
        let ghost was = out@;
        let ghost n = it.index() as int;
        let mut k: usize = 0;
        while k < out.len() && !precedes(&x, &out[k])
            invariant
                k <= out.len(),
                is_order(before),
                forall|a: &T, b: &T| #[trigger] call_requires(precedes, (a, b)),
                forall|a: &T, b: &T, r: bool| #[trigger]
                    call_ensures(precedes, (a, b), r) ==> r == before(*a, *b),
                forall|i: int| 0 <= i < k ==> !before(x, #[trigger] out@[i]),
            ensures
                k <= out.len(),
                forall|i: int| 0 <= i < k ==> !before(x, #[trigger] out@[i]),
                k < out.len() ==> before(x, out@[k as int]),
            decreases out.len() - k,
        {
            k = k + 1;
        }
        proof {
            let a = was.take(k as int);
            let b = was.skip(k as int);
            assert(a + b =~= was);
            assert forall|i: int| 0 <= i < b.len() implies before(x, #[trigger] b[i]) by {
                if i > 0 {
                    assert(!before(was[k + i], was[k as int]));
                    assert(before(x, was[k as int]));
                    assert(before(x, b[i]) || before(b[i], was[k as int]));
                }
            }
            lemma_sorted_in(a, b, x, whole.take(n), before);
            assert(was.insert(k as int, x) =~= a + seq![x] + b);
            assert(whole.take(n + 1) =~= whole.take(n).push(x));
        }
        out.insert(k, x);
    }
    assert(whole.take(whole.len() as int) =~= whole);
    out
}

/// A sorting puts nothing after what it precedes, leaves what ties in the order it
/// came in, and neither adds nor drops an item.
pub proof fn law_a_sorting_orders_and_keeps_everything<T>(
    out: Seq<T>,
    v: Seq<T>,
    before: spec_fn(T, T) -> bool,
    i: int,
    j: int,
    x: T,
)
    requires
        sorted_from(out, v, before),
        is_order(before),
    ensures
        0 <= i < j < out.len() ==> !before(out[j], out[i]),
        out.filter(|b: T| !before(x, b) && !before(b, x)) == v.filter(
            |b: T| !before(x, b) && !before(b, x),
        ),
        out.contains(x) <==> v.contains(x),
{
    lemma_sorted_holds_the_same(out, v, before);
    let p = |b: T| !before(x, b) && !before(b, x);
    assert(p =~= ties(before, x));
}

} // verus!
