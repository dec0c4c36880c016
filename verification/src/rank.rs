//! A stable sort, and what it means for a list to be sorted stably.

use vstd::prelude::*;

verus! {

/// Values that can be put in an order in which several may stand level.
pub trait Ranked: Sized {
    /// Whether `self` stands strictly before `other`.
    spec fn before(self, other: Self) -> bool;

    /// Two values cannot each stand before the other.
    proof fn asymmetric(a: Self, b: Self)
        ensures
            !(a.before(b) && b.before(a)),
    ;

    /// What stands before a value stands before or after any third one in a
    /// way that fits: "not before" is transitive.
    proof fn level_or_after(a: Self, b: Self, c: Self)
        requires
            !a.before(b),
            !b.before(c),
        ensures
            !a.before(c),
    ;

    /// Decides whether `self` stands strictly before `other`.
    fn is_before(&self, other: &Self) -> (r: bool)
        ensures
            r == self.before(*other),
    ;
}

/// Neither of two values stands before the other.
pub open spec fn level<T: Ranked>(a: T, b: T) -> bool {
    !a.before(b) && !b.before(a)
}

/// No item stands before an earlier one.
pub open spec fn in_order<T: Ranked>(s: Seq<T>) -> bool {
    forall|i: int, j: int| 0 <= i < j < s.len() ==> !(#[trigger] s[j]).before(#[trigger] s[i])
}

/// The items of `s` that are level with `x`, in the order they stand in.
pub open spec fn levels<T: Ranked>(s: Seq<T>, x: T) -> Seq<T> {
    s.filter(|y: T| level(x, y))
}

/// `out` is `s` sorted stably: it is in order, and items that are level with
/// each other are the same and stand in the same order as in `s`.
pub open spec fn stable_sort_of<T: Ranked>(out: Seq<T>, s: Seq<T>) -> bool {
    &&& in_order(out)
    &&& forall|x: T| #[trigger] levels(out, x) == levels(s, x)
}

/// A filter keeps nothing where the test fails throughout.
proof fn lemma_filter_none<T>(s: Seq<T>, p: spec_fn(T) -> bool)
    requires
        forall|i: int| 0 <= i < s.len() ==> !p(#[trigger] s[i]),
    ensures
        s.filter(p) == Seq::<T>::empty(),
    decreases s.len(),
{
    reveal(Seq::filter);
    if s.len() > 0 {
        assert forall|i: int| 0 <= i < s.drop_last().len() implies !p(
            #[trigger] s.drop_last()[i],
        ) by {
            assert(s.drop_last()[i] == s[i]);
        }
        lemma_filter_none(s.drop_last(), p);
        assert(!p(s[s.len() - 1]));
    }
}

/// Putting an item in front of everything that it stands before, and behind
/// the rest, adds it as the last of its level.
proof fn lemma_levels_insert<T: Ranked>(s: Seq<T>, p: int, item: T, x: T)
    requires
        0 <= p <= s.len(),
        forall|i: int| p <= i < s.len() ==> item.before(#[trigger] s[i]),
    ensures
        levels(s.insert(p, item), x) == levels(s.push(item), x),
{
    let test = |y: T| level(x, y);
    let low = s.take(p);
    let high = s.skip(p);
    let one = seq![item];
    assert(s =~= low + high);
    assert(s.insert(p, item) =~= (low + one) + high);
    assert(s.push(item) =~= (low + high) + one);
    Seq::filter_distributes_over_add(low, one, test);
    Seq::filter_distributes_over_add(low + one, high, test);
    Seq::filter_distributes_over_add(low, high, test);
    Seq::filter_distributes_over_add(low + high, one, test);
    if level(x, item) {
        assert forall|i: int| 0 <= i < high.len() implies !test(#[trigger] high[i]) by {
            assert(high[i] == s[p + i]);
            T::asymmetric(item, high[i]);
            if level(x, high[i]) {
                T::level_or_after(item, x, high[i]);
            }
        }
        lemma_filter_none(high, test);
    } else {
        assert forall|i: int| 0 <= i < one.len() implies !test(#[trigger] one[i]) by {}
        lemma_filter_none(one, test);
    }
    assert(levels(s.insert(p, item), x) =~= levels(s.push(item), x));
}

/// Putting an item behind everything that it does not stand before, and in
/// front of the rest, keeps a list in order.
proof fn lemma_in_order_insert<T: Ranked>(s: Seq<T>, p: int, item: T)
    requires
        in_order(s),
        0 <= p <= s.len(),
        p > 0 ==> !item.before(s[p - 1]),
        forall|i: int| p <= i < s.len() ==> item.before(#[trigger] s[i]),
    ensures
        in_order(s.insert(p, item)),
{
    let t = s.insert(p, item);
    assert forall|i: int, j: int| 0 <= i < j < t.len() implies !(#[trigger] t[j]).before(
        #[trigger] t[i],
    ) by {
        if j == p {
            if i < p - 1 {
                assert(!s[p - 1].before(s[i]));
                T::level_or_after(item, s[p - 1], s[i]);
            }
        } else if i == p {
            T::asymmetric(item, s[j - 1]);
        } else {
            let a = if i < p { i } else { i - 1 };
            let b = if j < p { j } else { j - 1 };
            assert(t[i] == s[a] && t[j] == s[b]);
        }
    }
}

/// The levels of a longer list follow from those of the shorter ones.
proof fn lemma_levels_push<T: Ranked>(a: Seq<T>, b: Seq<T>, item: T, x: T)
    requires
        levels(a, x) == levels(b, x),
    ensures
        levels(a.push(item), x) == levels(b.push(item), x),
{
    reveal(Seq::filter);
    assert(a.push(item).drop_last() =~= a);
    assert(b.push(item).drop_last() =~= b);
}

/// Sorts a list stably.
pub fn sort_stably<T: Ranked>(items: Vec<T>) -> (r: Vec<T>)
    ensures
        stable_sort_of(r@, items@),
{
    let mut rest: Vec<T> = items;
    let mut out: Vec<T> = Vec::new();
    let ghost whole = rest@;
    let mut pending: Vec<T> = Vec::new();
    while rest.len() > 0
        invariant
            whole == rest@ + pending@.reverse(),
        decreases rest@.len(),
    {
        let ghost left = rest@;
        let ghost taken = pending@;
        match rest.pop() {
            Some(item) => {
                pending.push(item);
                assert(left =~= rest@.push(item));
                assert(pending@.reverse() =~= seq![item] + taken.reverse());
                assert(left + taken.reverse() =~= rest@ + pending@.reverse());
            },
            None => {},
        }
    }
    assert(whole =~= pending@.reverse());
    let ghost n = whole.len() as int;
    assert(whole.take(0) =~= out@);
    while pending.len() > 0
        invariant
            n == whole.len(),
            pending@.len() <= n,
            pending@ == whole.skip(n - pending@.len()).reverse(),
            in_order(out@),
            forall|x: T| #[trigger] levels(out@, x) == levels(whole.take(n - pending@.len()), x),
        decreases pending@.len(),
    {
        let ghost k = n - pending@.len();
        let ghost before = pending@;
        match pending.pop() {
            Some(item) => {
                proof {
                    assert(item == whole[k]);
                    assert(pending@ =~= whole.skip(k + 1).reverse());
                    assert(whole.take(k + 1) =~= whole.take(k).push(item));
                }
                let ghost sorted = out@;
                let mut p: usize = out.len();
                while p > 0 && item.is_before(&out[p - 1])
                    invariant
                        p <= out@.len(),
                        out@ == sorted,
                        forall|i: int| p <= i < out@.len() ==> item.before(#[trigger] out@[i]),
                    ensures
                        p > 0 ==> !item.before(out@[p - 1]),
                    decreases p,
                {
                    p = p - 1;
                }
                out.insert(p, item);
                proof {
                    lemma_in_order_insert(sorted, p as int, item);
                    assert forall|x: T| #[trigger]
                        levels(out@, x) == levels(whole.take(k + 1), x) by {
                        lemma_levels_insert(sorted, p as int, item, x);
                        assert(levels(sorted, x) == levels(whole.take(k), x));
                        lemma_levels_push(sorted, whole.take(k), item, x);
                    }
                }
            },
            None => {},
        }
    }
    assert(whole.take(n) =~= whole);
    out
}

/// An item stands in a stably sorted list exactly where it stands in the
/// unsorted one.
pub proof fn lemma_sorted_members<T: Ranked>(out: Seq<T>, s: Seq<T>, x: T)
    requires
        stable_sort_of(out, s),
    ensures
        out.contains(x) <==> s.contains(x),
{
    T::asymmetric(x, x);
    assert(levels(out, x) == levels(s, x));
    lemma_levels_members(out, x);
    lemma_levels_members(s, x);
}

/// An item is among its own level.
proof fn lemma_levels_members<T: Ranked>(s: Seq<T>, x: T)
    ensures
        s.contains(x) <==> levels(s, x).contains(x),
{
    let test = |y: T| level(x, y);
    T::asymmetric(x, x);
    if s.contains(x) {
        let i = choose|i: int| 0 <= i < s.len() && s[i] == x;
        s.lemma_filter_contains(test, i);
    }
    if levels(s, x).contains(x) {
        lemma_filter_subset(s, test, x);
    }
}

/// A filter adds nothing.
proof fn lemma_filter_subset<T>(s: Seq<T>, p: spec_fn(T) -> bool, x: T)
    requires
        s.filter(p).contains(x),
    ensures
        s.contains(x),
    decreases s.len(),
{
    reveal(Seq::filter);
    if s.len() > 0 {
        if s.last() != x {
            if p(s.last()) {
                let f = s.drop_last().filter(p);
                let i = choose|i: int| 0 <= i < f.push(s.last()).len() && f.push(s.last())[i] == x;
                assert(f[i] == x);
            }
            lemma_filter_subset(s.drop_last(), p, x);
            let j = choose|j: int| 0 <= j < s.drop_last().len() && s.drop_last()[j] == x;
            assert(s[j] == x);
        } else {
            assert(s[s.len() - 1] == x);
        }
    }
}

/// A filter keeps every occurrence of what passes its test.
proof fn lemma_filter_count<T>(s: Seq<T>, p: spec_fn(T) -> bool, x: T)
    requires
        p(x),
    ensures
        s.filter(p).to_multiset().count(x) == s.to_multiset().count(x),
    decreases s.len(),
{
    broadcast use vstd::seq_lib::group_to_multiset_ensures;

    reveal(Seq::filter);
    if s.len() > 0 {
        lemma_filter_count(s.drop_last(), p, x);
        assert(s =~= s.drop_last().push(s.last()));
    } else {
        assert(s.filter(p) =~= s);
    }
}

/// A sorted list holds what the unsorted one holds, each item as often.
pub proof fn law_sort_is_a_permutation<T: Ranked>(out: Seq<T>, s: Seq<T>)
    requires
        stable_sort_of(out, s),
    ensures
        out.to_multiset() == s.to_multiset(),
{
    assert forall|x: T| out.to_multiset().count(x) == s.to_multiset().count(x) by {
        T::asymmetric(x, x);
        assert(levels(out, x) == levels(s, x));
        lemma_filter_count(out, |y: T| level(x, y), x);
        lemma_filter_count(s, |y: T| level(x, y), x);
    }
    assert(out.to_multiset() =~= s.to_multiset());
}

/// A list can be sorted stably in one way only.
pub proof fn law_stable_sort_is_unique<T: Ranked>(a: Seq<T>, b: Seq<T>, s: Seq<T>)
    requires
        stable_sort_of(a, s),
        stable_sort_of(b, s),
    ensures
        a == b,
{
    assert forall|x: T| #[trigger] levels(a, x) == levels(b, x) by {
        assert(levels(a, x) == levels(s, x));
        assert(levels(b, x) == levels(s, x));
    }
    lemma_same_levels(a, b);
}

/// Two lists in order with the same levels are equal.
proof fn lemma_same_levels<T: Ranked>(a: Seq<T>, b: Seq<T>)
    requires
        in_order(a),
        in_order(b),
        forall|x: T| #[trigger] levels(a, x) == levels(b, x),
    ensures
        a == b,
    decreases a.len(),
{
    if a.len() == 0 {
        if b.len() > 0 {
            let x = b.last();
            assert(levels(a, x) == levels(b, x));
            lemma_levels_members(a, x);
            lemma_levels_members(b, x);
        }
    } else {
        let x = a.last();
        assert(levels(a, x) == levels(b, x));
        lemma_levels_members(a, x);
        lemma_levels_members(b, x);
        assert(b.contains(x));
        let y = b.last();
        assert(levels(a, y) == levels(b, y));
        lemma_levels_members(a, y);
        lemma_levels_members(b, y);
        let i = choose|i: int| 0 <= i < a.len() && a[i] == y;
        let j = choose|j: int| 0 <= j < b.len() && b[j] == x;
        T::asymmetric(x, x);
        T::asymmetric(y, y);
        if i < a.len() - 1 {
            assert(!a[a.len() - 1].before(a[i]));
        }
        if j < b.len() - 1 {
            assert(!b[b.len() - 1].before(b[j]));
        }
        assert(level(x, y));
        reveal(Seq::filter);
        assert(levels(a, x).last() == x);
        assert(levels(b, x).last() == y);
        let c = a.drop_last();
        let d = b.drop_last();
        assert forall|z: T| #[trigger] levels(c, z) == levels(d, z) by {
            assert(levels(a, z) == levels(b, z));
            if level(z, x) {
                assert(levels(a, z) == levels(c, z).push(x));
                assert(levels(b, z) == levels(d, z).push(x));
                assert(levels(c, z) =~= levels(a, z).drop_last());
                assert(levels(d, z) =~= levels(b, z).drop_last());
            }
        }
        lemma_same_levels(c, d);
        assert(a =~= c.push(x));
        assert(b =~= d.push(x));
    }
}

} // verus!
