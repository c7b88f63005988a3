//! A stable sort by a strict order.

use vstd::prelude::*;

verus! {

/// `x` put into an ordered sequence, before the first element that does not
/// come before it.
pub open spec fn placed<T>(x: T, s: Seq<T>, before: spec_fn(T, T) -> bool) -> Seq<T>
    decreases s.len(),
{
    if s.len() == 0 || !before(s[0], x) {
        seq![x] + s
    } else {
        seq![s[0]] + placed(x, s.skip(1), before)
    }
}

/// The elements in order; those that neither comes before the other keep the
/// order in which they stood.
pub open spec fn sorted_by<T>(s: Seq<T>, before: spec_fn(T, T) -> bool) -> Seq<T>
    decreases s.len(),
{
    if s.len() == 0 {
        s
    } else {
        placed(s[0], sorted_by(s.skip(1), before), before)
    }
}

/// A strict order in which being neither before nor after is an equivalence.
pub open spec fn is_strict_order<T>(before: spec_fn(T, T) -> bool) -> bool {
    &&& forall|a: T, b: T| #[trigger] before(a, b) ==> !before(b, a)
    &&& forall|a: T, b: T, c: T| #[trigger]
        before(a, c) ==> #[trigger] before(a, b) || before(b, c)
}

/// No element comes before one that stands ahead of it.
pub open spec fn in_order<T>(s: Seq<T>, before: spec_fn(T, T) -> bool) -> bool {
    forall|i: int, j: int|
        #![trigger s[i], s[j]]
        0 <= i < j < s.len() ==> !before(s[j], s[i])
}

/// Sorting keeps every element and puts them in order.
pub proof fn sorting_sorts<T>(s: Seq<T>, before: spec_fn(T, T) -> bool)
    requires
        is_strict_order(before),
    ensures
        in_order(sorted_by(s, before), before),
        sorted_by(s, before).to_multiset() == s.to_multiset(),
        sorted_by(s, before).len() == s.len(),
    decreases s.len(),
{
    broadcast use vstd::seq_lib::group_to_multiset_ensures;

    if s.len() > 0 {
        sorting_sorts(s.skip(1), before);
        let rest = sorted_by(s.skip(1), before);
        lemma_placed(s[0], rest, before);
        assert(s =~= seq![s[0]] + s.skip(1));
        lemma_front_multiset(s[0], s.skip(1));
    }
}

/// Sorting keeps every element, whatever the order.
pub proof fn sorting_keeps_elements<T>(s: Seq<T>, before: spec_fn(T, T) -> bool)
    ensures
        sorted_by(s, before).to_multiset() == s.to_multiset(),
        sorted_by(s, before).len() == s.len(),
        forall|x: T| #[trigger] sorted_by(s, before).contains(x) <==> s.contains(x),
    decreases s.len(),
{
    broadcast use vstd::seq_lib::group_to_multiset_ensures;

    if s.len() > 0 {
        sorting_keeps_elements(s.skip(1), before);
        let rest = sorted_by(s.skip(1), before);
        lemma_placed_keeps(s[0], rest, before);
        assert(s =~= seq![s[0]] + s.skip(1));
        lemma_front_multiset(s[0], s.skip(1));
    }
    assert forall|x: T| #[trigger] sorted_by(s, before).contains(x) <==> s.contains(x) by {
        assert(s.to_multiset().count(x) > 0 <==> s.contains(x));
        assert(sorted_by(s, before).to_multiset().count(x) > 0 <==> sorted_by(
            s,
            before,
        ).contains(x));
    }
}

proof fn lemma_front_multiset<T>(x: T, s: Seq<T>)
    ensures
        (seq![x] + s).to_multiset() == s.to_multiset().insert(x),
{
    broadcast use vstd::seq_lib::group_to_multiset_ensures;

    vstd::seq_lib::lemma_multiset_commutative(seq![x], s);
    assert(seq![x] =~= Seq::<T>::empty().push(x));
    assert(seq![x].to_multiset() =~= vstd::multiset::Multiset::<T>::empty().insert(x));
    assert((seq![x] + s).to_multiset() =~= s.to_multiset().insert(x));
}

proof fn lemma_placed_keeps<T>(x: T, s: Seq<T>, before: spec_fn(T, T) -> bool)
    ensures
        placed(x, s, before).len() == s.len() + 1,
        placed(x, s, before).to_multiset() == s.to_multiset().insert(x),
    decreases s.len(),
{
    if s.len() == 0 || !before(s[0], x) {
        lemma_front_multiset(x, s);
    } else {
        lemma_placed_keeps(x, s.skip(1), before);
        lemma_front_multiset(s[0], placed(x, s.skip(1), before));
        lemma_front_multiset(s[0], s.skip(1));
        assert(s =~= seq![s[0]] + s.skip(1));
        assert(s.skip(1).to_multiset().insert(x).insert(s[0]) =~= s.skip(1).to_multiset().insert(
            s[0],
        ).insert(x));
    }
}

proof fn lemma_placed<T>(x: T, s: Seq<T>, before: spec_fn(T, T) -> bool)
    requires
        is_strict_order(before),
        in_order(s, before),
    ensures
        in_order(placed(x, s, before), before),
        placed(x, s, before).to_multiset() == s.to_multiset().insert(x),
        placed(x, s, before).len() == s.len() + 1,
        forall|i: int|
            0 <= i < placed(x, s, before).len() ==> #[trigger] placed(x, s, before)[i] == x
                || s.contains(placed(x, s, before)[i]),
    decreases s.len(),
{
    lemma_placed_keeps(x, s, before);
    let out = placed(x, s, before);
    if s.len() == 0 || !before(s[0], x) {
        assert forall|i: int, j: int|
            #![trigger out[i], out[j]]
            0 <= i < j < out.len() implies !before(out[j], out[i]) by {
            if i == 0 {
                let y = s[j - 1];
                assert(out[j] == y);
                if j > 1 {
                    assert(!before(s[j - 1], s[0]));
                    // y before x would put y before s[0], or s[0] before x.
                    if before(y, x) {
                        assert(before(y, s[0]) || before(s[0], x));
                    }
                }
            } else {
                assert(out[i] == s[i - 1] && out[j] == s[j - 1]);
            }
        }
        assert forall|i: int| 0 <= i < out.len() implies #[trigger] out[i] == x || s.contains(
            out[i],
        ) by {
            if i > 0 {
                assert(out[i] == s[i - 1]);
            }
        }
    } else {
        let tail = s.skip(1);
        assert forall|i: int, j: int|
            #![trigger tail[i], tail[j]]
            0 <= i < j < tail.len() implies !before(tail[j], tail[i]) by {
            assert(tail[i] == s[i + 1] && tail[j] == s[j + 1]);
        }
        lemma_placed(x, tail, before);
        let rest = placed(x, tail, before);
        assert forall|i: int, j: int|
            #![trigger out[i], out[j]]
            0 <= i < j < out.len() implies !before(out[j], out[i]) by {
            assert(out[j] == rest[j - 1]);
            if i == 0 {
                let y = rest[j - 1];
                if y != x {
                    assert(tail.contains(y));
                    let k = tail.index_of(y);
                    assert(s[k + 1] == y);
                    assert(!before(s[k + 1], s[0]));
                }
            } else {
                assert(out[i] == rest[i - 1]);
            }
        }
        assert forall|i: int| 0 <= i < out.len() implies #[trigger] out[i] == x || s.contains(
            out[i],
        ) by {
            if i == 0 {
                assert(out[0] == s[0]);
            } else {
                assert(out[i] == rest[i - 1]);
                if rest[i - 1] != x {
                    let k = tail.index_of(rest[i - 1]);
                    assert(tail.contains(rest[i - 1]));
                    assert(s[k + 1] == rest[i - 1]);
                }
            }
        }
    }
}

/// Sorting by an order on views sorts the views.
pub proof fn sorting_views<T: View>(
    s: Seq<T>,
    before: spec_fn(T, T) -> bool,
    before_v: spec_fn(T::V, T::V) -> bool,
)
    requires
        forall|a: T, b: T| #[trigger] before(a, b) == before_v(a@, b@),
    ensures
        sorted_by(s, before).map_values(|x: T| x@) == sorted_by(
            s.map_values(|x: T| x@),
            before_v,
        ),
    decreases s.len(),
{
    let view = |x: T| x@;
    if s.len() > 0 {
        sorting_views(s.skip(1), before, before_v);
        assert(s.skip(1).map_values(view) =~= s.map_values(view).skip(1));
        lemma_placed_views(s[0], sorted_by(s.skip(1), before), before, before_v);
    } else {
        assert(s.map_values(view) =~= Seq::<T::V>::empty());
    }
}

proof fn lemma_placed_views<T: View>(
    x: T,
    s: Seq<T>,
    before: spec_fn(T, T) -> bool,
    before_v: spec_fn(T::V, T::V) -> bool,
)
    requires
        forall|a: T, b: T| #[trigger] before(a, b) == before_v(a@, b@),
    ensures
        placed(x, s, before).map_values(|x: T| x@) == placed(
            x@,
            s.map_values(|x: T| x@),
            before_v,
        ),
    decreases s.len(),
{
    let view = |x: T| x@;
    if s.len() == 0 || !before(s[0], x) {
        assert((seq![x] + s).map_values(view) =~= seq![x@] + s.map_values(view));
    } else {
        lemma_placed_views(x, s.skip(1), before, before_v);
        assert(s.skip(1).map_values(view) =~= s.map_values(view).skip(1));
        assert((seq![s[0]] + placed(x, s.skip(1), before)).map_values(view) =~= seq![s[0]@]
            + placed(x, s.skip(1), before).map_values(view));
    }
}

/// Keeping one element more of a prefix keeps the element, or does not.
pub proof fn filter_step<T>(s: Seq<T>, keep: spec_fn(T) -> bool, i: int)
    requires
        0 <= i < s.len(),
    ensures
        s.take(i + 1).filter(keep) == (if keep(s[i]) {
            s.take(i).filter(keep).push(s[i])
        } else {
            s.take(i).filter(keep)
        }),
{
    reveal(Seq::filter);
    assert(s.take(i + 1).drop_last() =~= s.take(i));
    assert(s.take(i + 1).last() == s[i]);
}

/// Nothing is kept of nothing, and a whole sequence is its own prefix.
pub proof fn filter_ends<T>(s: Seq<T>, keep: spec_fn(T) -> bool)
    ensures
        s.take(0).filter(keep) == Seq::<T>::empty(),
        s.take(s.len() as int) == s,
{
    reveal(Seq::filter);
    assert(s.take(0) =~= Seq::<T>::empty());
    assert(s.take(s.len() as int) =~= s);
}

/// An element that is kept is there.
pub proof fn filter_has<T>(s: Seq<T>, keep: spec_fn(T) -> bool, i: int)
    requires
        0 <= i < s.len(),
        keep(s[i]),
    ensures
        s.filter(keep).contains(s[i]),
    decreases s.len(),
{
    reveal(Seq::filter);
    let shorter = s.drop_last();
    if i < s.len() - 1 {
        filter_has(shorter, keep, i);
        assert(shorter[i] == s[i]);
        let k = shorter.filter(keep).index_of(s[i]);
        assert(s.filter(keep)[k] == s[i]);
    } else {
        let f = s.filter(keep);
        assert(f[f.len() - 1] == s[i]);
    }
}

/// Everything that is there was there before, and is kept.
pub proof fn filter_from<T>(s: Seq<T>, keep: spec_fn(T) -> bool)
    ensures
        forall|i: int|
            0 <= i < s.filter(keep).len() ==> s.contains(#[trigger] s.filter(keep)[i]) && keep(
                s.filter(keep)[i],
            ),
    decreases s.len(),
{
    reveal(Seq::filter);
    if s.len() > 0 {
        let shorter = s.drop_last();
        filter_from(shorter, keep);
        assert forall|i: int| 0 <= i < s.filter(keep).len() implies s.contains(
            #[trigger] s.filter(keep)[i],
        ) && keep(s.filter(keep)[i]) by {
            if i < shorter.filter(keep).len() {
                let x = shorter.filter(keep)[i];
                assert(shorter.contains(x));
                let k = shorter.index_of(x);
                assert(s[k] == x);
            } else {
                assert(s[s.len() - 1] == s.filter(keep)[i]);
            }
        }
    }
}

/// Of elements that all differ, those that are kept all differ.
pub proof fn filter_distinct<T>(s: Seq<T>, keep: spec_fn(T) -> bool)
    requires
        s.no_duplicates(),
    ensures
        s.filter(keep).no_duplicates(),
    decreases s.len(),
{
    reveal(Seq::filter);
    if s.len() > 0 {
        let shorter = s.drop_last();
        filter_distinct(shorter, keep);
        filter_from(shorter, keep);
        let f = s.filter(keep);
        let g = shorter.filter(keep);
        assert forall|i: int, j: int|
            0 <= i < f.len() && 0 <= j < f.len() && i != j implies f[i] != f[j] by {
            if i < g.len() && j < g.len() {
                assert(f[i] == g[i] && f[j] == g[j]);
            } else {
                let k = if i < g.len() {
                    i
                } else {
                    j
                };
                assert(f[k] == g[k]);
                assert(shorter.contains(g[k]));
                let at = shorter.index_of(g[k]);
                assert(s[at] == g[k]);
                assert(f[f.len() - 1] == s[s.len() - 1]);
            }
        }
    }
}

/// Elements that all differ still do when they are put in order.
pub proof fn sorting_distinct<T>(s: Seq<T>, before: spec_fn(T, T) -> bool)
    requires
        s.no_duplicates(),
    ensures
        sorted_by(s, before).no_duplicates(),
{
    sorting_keeps_elements(s, before);
    s.lemma_multiset_has_no_duplicates();
    sorted_by(s, before).lemma_multiset_has_no_duplicates_conv();
}

/// More elements than stand ahead of a place cannot all come before what
/// stands in it.
pub proof fn sorting_fills_from_the_front<T>(
    s: Seq<T>,
    part: Seq<T>,
    before: spec_fn(T, T) -> bool,
    k: int,
)
    requires
        is_strict_order(before),
        part.to_multiset().subset_of(s.to_multiset()),
        0 <= k < s.len(),
        k < part.len(),
    ensures
        exists|i: int|
            0 <= i < part.len() && !before(#[trigger] part[i], sorted_by(s, before)[k]),
{
    broadcast use {
        vstd::seq_lib::group_to_multiset_ensures,
        vstd::multiset::group_multiset_axioms,
    };

    sorting_sorts(s, before);
    let t = sorted_by(s, before);
    if forall|i: int| 0 <= i < part.len() ==> before(#[trigger] part[i], t[k]) {
        let ahead = t.take(k);
        let rest = t.skip(k);
        assert(t =~= ahead + rest);
        vstd::seq_lib::lemma_multiset_commutative(ahead, rest);
        assert forall|x: T| #[trigger]
            part.to_multiset().count(x) <= ahead.to_multiset().count(x) by {
            if part.contains(x) {
                let i = part.index_of(x);
                assert(before(part[i], t[k]));
                if rest.contains(x) {
                    let j = rest.index_of(x);
                    assert(t[k + j] == x);
                    assert(!before(t[k + j], t[k]) || j == 0);
                }
                assert(rest.to_multiset().count(x) == 0);
                assert(part.to_multiset().count(x) <= s.to_multiset().count(x));
            }
        }
        assert(part.to_multiset().subset_of(ahead.to_multiset()));
        assert(ahead.to_multiset().sub(part.to_multiset()).len() == ahead.len() - part.len());
    }
}

/// Sort a list, stably, by a strict order.
pub fn sort_by<T, F: Fn(&T, &T) -> bool>(
    list: Vec<T>,
    comes_before: F,
    Ghost(before): Ghost<spec_fn(T, T) -> bool>,
) -> (out: Vec<T>)
    requires
        forall|a: &T, b: &T| call_requires(comes_before, (a, b)),
        forall|a: &T, b: &T, r: bool|
            call_ensures(comes_before, (a, b), r) ==> r == before(*a, *b),
    ensures
        out@ == sorted_by(list@, before),
{
    let mut list = list;
    let mut out: Vec<T> = Vec::new();
    let ghost all = list@;
    assert(all.skip(all.len() as int) =~= Seq::<T>::empty());
    while list.len() > 0
        invariant
            list@.len() <= all.len(),
            list@ == all.take(list@.len() as int),
            out@ == sorted_by(all.skip(list@.len() as int), before),
            forall|a: &T, b: &T| call_requires(comes_before, (a, b)),
            forall|a: &T, b: &T, r: bool|
                call_ensures(comes_before, (a, b), r) ==> r == before(*a, *b),
        decreases list.len(),
    {
        let ghost n = list@.len() as int;
        let ghost earlier = out@;
        match list.pop() {
            None => {},
            Some(x) => {
                assert(x == all[n - 1]);
                let mut at: usize = 0;
                assert(earlier.skip(0) =~= earlier);
                assert(earlier.take(0) + placed(x, earlier, before) =~= placed(x, earlier, before));
                while at < out.len() && comes_before(&out[at], &x)
                    invariant
                        at <= out.len(),
                        out@ == earlier,
                        earlier.take(at as int) + placed(x, earlier.skip(at as int), before)
                            == placed(x, earlier, before),
                        forall|a: &T, b: &T| call_requires(comes_before, (a, b)),
                        forall|a: &T, b: &T, r: bool|
                            call_ensures(comes_before, (a, b), r) ==> r == before(*a, *b),
                    decreases out.len() - at,
                {
                    proof {
                        let rest = earlier.skip(at as int);
                        assert(rest.skip(1) =~= earlier.skip(at + 1));
                        assert(earlier.take(at as int) + (seq![rest[0]] + placed(
                            x,
                            rest.skip(1),
                            before,
                        )) =~= earlier.take(at + 1) + placed(x, earlier.skip(at + 1), before));
                    }
                    at += 1;
                }
                proof {
                    let rest = earlier.skip(at as int);
                    assert(rest.len() == 0 || !before(rest[0], x));
                    assert(earlier.insert(at as int, x) =~= earlier.take(at as int) + (seq![x]
                        + rest));
                }
                out.insert(at, x);
                proof {
                    let whole = all.skip(n - 1);
                    assert(whole[0] == x);
                    assert(whole.skip(1) =~= all.skip(n));
                }
            },
        }
    }
    assert(all.skip(0) =~= all);
    out
}

} // verus!
