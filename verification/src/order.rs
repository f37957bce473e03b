//! Stable sorting.
//!
//! The order of a sort is a relation `le`: `le(a, b)` says that `a` may stand before `b`.
//! It is total, so two values may each stand before the other; a stable sort keeps such
//! values in the order in which it found them.

use vstd::prelude::*;

verus! {

/// Whether, of any two values, one may stand before the other.
pub open spec fn is_total<T>(le: spec_fn(T, T) -> bool) -> bool {
    forall|a: T, b: T| #[trigger] le(a, b) || le(b, a)
}

/// Whether what may stand before a value may stand before all that this value may stand
/// before.
pub open spec fn is_transitive<T>(le: spec_fn(T, T) -> bool) -> bool {
    forall|a: T, b: T, c: T| #[trigger] le(a, b) && #[trigger] le(b, c) ==> le(a, c)
}

/// Whether each element may stand before all that follow it.
pub open spec fn is_sorted_by<T>(s: Seq<T>, le: spec_fn(T, T) -> bool) -> bool {
    forall|i: int, j: int| #![trigger s[i], s[j]] 0 <= i < j < s.len() ==> le(s[i], s[j])
}

/// The sorted sequence `s` with `x` put behind the last element that may stand before it.
pub open spec fn inserted_by<T>(s: Seq<T>, x: T, le: spec_fn(T, T) -> bool) -> Seq<T>
    decreases s.len(),
{
    if s.len() > 0 && !le(s.last(), x) {
        inserted_by(s.drop_last(), x, le).push(s.last())
    } else {
        s.push(x)
    }
}

/// The elements of `s` in order, those that may each stand before the other in the order
/// in which they stand in `s`.
pub open spec fn stably_sorted_by<T>(s: Seq<T>, le: spec_fn(T, T) -> bool) -> Seq<T>
    decreases s.len(),
{
    if s.len() == 0 {
        s
    } else {
        inserted_by(stably_sorted_by(s.drop_last(), le), s.last(), le)
    }
}

/// Values that a rank puts in order.
pub trait Ranked: Sized {
    /// Whether `self` may stand before `other`.
    spec fn precedes(&self, other: &Self) -> bool;

    /// Whether `self` may stand before `other`.
    fn goes_before(&self, other: &Self) -> (r: bool)
        ensures
            r == self.precedes(other),
    ;

    /// Of any two values, one may stand before the other.
    proof fn precedes_is_total(a: &Self, b: &Self)
        ensures
            a.precedes(b) || b.precedes(a),
    ;

    /// What precedes a value precedes all that this value precedes.
    proof fn precedes_is_transitive(a: &Self, b: &Self, c: &Self)
        requires
            a.precedes(b),
            b.precedes(c),
        ensures
            a.precedes(c),
    ;
}

/// The order of a ranked type as a relation.
pub open spec fn rank_order<T: Ranked>() -> spec_fn(T, T) -> bool {
    |a: T, b: T| a.precedes(&b)
}

/// The elements of `s` in the order of their ranks, those of equal rank in the order in
/// which they stand in `s`.
pub open spec fn stably_sorted<T: Ranked>(s: Seq<T>) -> Seq<T> {
    stably_sorted_by(s, rank_order::<T>())
}

/// The order of a ranked type is total and transitive.
pub proof fn lemma_rank_order<T: Ranked>()
    ensures
        is_total(rank_order::<T>()),
        is_transitive(rank_order::<T>()),
{
    let le = rank_order::<T>();
    assert forall|a: T, b: T| #[trigger] le(a, b) || le(b, a) by {
        T::precedes_is_total(&a, &b);
    }
    assert forall|a: T, b: T, c: T| #[trigger] le(a, b) && #[trigger] le(b, c) implies le(
        a,
        c,
    ) by {
        T::precedes_is_transitive(&a, &b, &c);
    }
}

/// Sorts the vector by rank and keeps elements of equal rank in their order.
pub fn sort_stably<T: Ranked>(v: &mut Vec<T>)
    ensures
        final(v)@ == stably_sorted(old(v)@),
{
    let ghost le = rank_order::<T>();
    let n = v.len();
    if n == 0 {
        return ;
    }
    let mut i: usize = 1;
    proof {
        let first = v@.take(1);
        assert(first.drop_last() =~= Seq::<T>::empty());
        assert(stably_sorted_by(first.drop_last(), le) =~= Seq::<T>::empty());
        assert(inserted_by(Seq::<T>::empty(), first.last(), le) =~= first);
        assert(stably_sorted_by(first, le) == first);
    }
    while i < n
        invariant
            1 <= i <= n,
            v.len() == n,
            old(v)@.len() == n,
            le == rank_order::<T>(),
            v@.take(i as int) == stably_sorted_by(old(v)@.take(i as int), le),
            v@.skip(i as int) == old(v)@.skip(i as int),
        decreases n - i,
    {
        let ghost before = v@;
        let ghost sorted = v@.take(i as int);
        let x = v.remove(i);
        proof {
            assert(x == before.skip(i as int)[0]);
            assert(v@.take(i as int) =~= sorted);
        }
        let mut j: usize = i;
        proof {
            assert(sorted.take(i as int) =~= sorted);
            assert(inserted_by(sorted, x, le) + sorted.subrange(i as int, i as int)
                =~= inserted_by(sorted, x, le));
        }
        while j > 0 && !v[j - 1].goes_before(&x)
            invariant
                j <= i < n,
                v.len() == n - 1,
                le == rank_order::<T>(),
                v@.take(i as int) == sorted,
                sorted.len() == i,
                inserted_by(sorted, x, le) == inserted_by(sorted.take(j as int), x, le)
                    + sorted.subrange(j as int, i as int),
            decreases j,
        {
            proof {
                let head = sorted.take(j as int);
                assert(head.last() == v@[j - 1]);
                assert(!le(head.last(), x));
                assert(head.drop_last() =~= sorted.take(j - 1));
                assert(inserted_by(head, x, le) == inserted_by(sorted.take(j - 1), x, le).push(
                    head.last(),
                ));
                assert(inserted_by(sorted.take(j - 1), x, le).push(head.last()) + sorted.subrange(
                    j as int,
                    i as int,
                ) =~= inserted_by(sorted.take(j - 1), x, le) + sorted.subrange(j - 1, i as int));
            }
            j -= 1;
        }
        proof {
            let head = sorted.take(j as int);
            if j > 0 {
                assert(head.last() == v@[j - 1]);
                assert(le(head.last(), x));
            }
            assert(inserted_by(head, x, le) == head.push(x));
        }
        v.insert(j, x);
        proof {
            assert(v@.take(i + 1) =~= sorted.take(j as int).push(x) + sorted.subrange(
                j as int,
                i as int,
            ));
            let upto = old(v)@.take(i + 1);
            assert(upto.drop_last() =~= old(v)@.take(i as int));
            assert(upto.last() == old(v)@.skip(i as int)[0]);
            assert(v@.skip(i + 1) =~= before.skip(i as int).skip(1));
            assert(old(v)@.skip(i + 1) =~= old(v)@.skip(i as int).skip(1));
        }
        i += 1;
    }
    proof {
        assert(v@.take(n as int) =~= v@);
        assert(old(v)@.take(n as int) =~= old(v)@);
    }
}

/// Each element of the sequence after an insertion is the new element or was there before.
pub proof fn lemma_member_of_inserted<T>(s: Seq<T>, x: T, le: spec_fn(T, T) -> bool, k: int)
    requires
        0 <= k < inserted_by(s, x, le).len(),
    ensures
        inserted_by(s, x, le)[k] == x || exists|m: int|
            0 <= m < s.len() && s[m] == inserted_by(s, x, le)[k],
    decreases s.len(),
{
    let r = inserted_by(s, x, le);
    if s.len() > 0 && !le(s.last(), x) {
        let inner = inserted_by(s.drop_last(), x, le);
        if k < inner.len() {
            lemma_member_of_inserted(s.drop_last(), x, le, k);
            if inner[k] != x {
                let m = choose|m: int| 0 <= m < s.drop_last().len() && s.drop_last()[m] == inner[k];
                assert(s[m] == r[k]);
            }
        } else {
            assert(s[s.len() - 1] == r[k]);
        }
    } else {
        if k < s.len() {
            assert(s[k] == r[k]);
        }
    }
}

/// Insertion into a sorted sequence leaves it sorted, and adds `x` and nothing else.
pub proof fn lemma_inserted<T>(s: Seq<T>, x: T, le: spec_fn(T, T) -> bool)
    requires
        is_total(le),
        is_transitive(le),
        is_sorted_by(s, le),
    ensures
        is_sorted_by(inserted_by(s, x, le), le),
        inserted_by(s, x, le).len() == s.len() + 1,
        inserted_by(s, x, le).to_multiset() == s.to_multiset().insert(x),
    decreases s.len(),
{
    broadcast use vstd::seq_lib::to_multiset_build;

    let r = inserted_by(s, x, le);
    if s.len() > 0 && !le(s.last(), x) {
        let init = s.drop_last();
        let last = s.last();
        assert(is_sorted_by(init, le)) by {
            assert forall|i: int, j: int| #![trigger init[i], init[j]] 0 <= i < j < init.len() implies le(
                init[i],
                init[j],
            ) by {
                assert(le(s[i], s[j]));
            }
        }
        lemma_inserted(init, x, le);
        let inner = inserted_by(init, x, le);
        assert(s =~= init.push(last));
        assert(r == inner.push(last));
        assert(le(last, x) || le(x, last));
        assert forall|i: int, j: int| #![trigger r[i], r[j]] 0 <= i < j < r.len() implies le(
            r[i],
            r[j],
        ) by {
            if j < inner.len() {
                assert(le(inner[i], inner[j]));
            } else {
                lemma_member_of_inserted(init, x, le, i);
                if inner[i] == x {
                } else {
                    let m = choose|m: int| 0 <= m < init.len() && init[m] == inner[i];
                    assert(le(s[m], s[s.len() - 1]));
                }
            }
        }
        assert(r.to_multiset() =~= s.to_multiset().insert(x));
    } else {
        assert forall|i: int, j: int| #![trigger r[i], r[j]] 0 <= i < j < r.len() implies le(
            r[i],
            r[j],
        ) by {
            if j < s.len() {
                assert(le(s[i], s[j]));
            } else if i == s.len() - 1 {
            } else {
                assert(le(s[i], s[s.len() - 1]));
                assert(le(s[i], s.last()) && le(s.last(), x));
            }
        }
    }
}

/// A stable sort gives a sorted sequence that holds what the input held, each element as
/// often as the input held it.
pub proof fn lemma_stably_sorted<T>(s: Seq<T>, le: spec_fn(T, T) -> bool)
    requires
        is_total(le),
        is_transitive(le),
    ensures
        is_sorted_by(stably_sorted_by(s, le), le),
        stably_sorted_by(s, le).len() == s.len(),
        stably_sorted_by(s, le).to_multiset() == s.to_multiset(),
    decreases s.len(),
{
    broadcast use vstd::seq_lib::to_multiset_build;

    if s.len() > 0 {
        lemma_stably_sorted(s.drop_last(), le);
        lemma_inserted(stably_sorted_by(s.drop_last(), le), s.last(), le);
        assert(s =~= s.drop_last().push(s.last()));
    }
}

/// A stable sort leaves a sorted sequence as it is.
pub proof fn lemma_sorted_is_unchanged<T>(s: Seq<T>, le: spec_fn(T, T) -> bool)
    requires
        is_sorted_by(s, le),
    ensures
        stably_sorted_by(s, le) == s,
    decreases s.len(),
{
    if s.len() > 0 {
        let init = s.drop_last();
        assert(is_sorted_by(init, le)) by {
            assert forall|i: int, j: int| #![trigger init[i], init[j]] 0 <= i < j < init.len() implies le(
                init[i],
                init[j],
            ) by {
                assert(le(s[i], s[j]));
            }
        }
        lemma_sorted_is_unchanged(init, le);
        if init.len() > 0 {
            assert(le(s[init.len() - 1], s[s.len() - 1]));
        }
        assert(s =~= init.push(s.last()));
    }
}

/// The values that stand with `r`: each of them and `r` may stand before the other.
pub open spec fn stands_with<T>(le: spec_fn(T, T) -> bool, r: T) -> spec_fn(T) -> bool {
    |x: T| le(x, r) && le(r, x)
}

/// Insertion puts the new element behind all that stand with it.
pub proof fn lemma_inserted_behind_its_like<T>(s: Seq<T>, x: T, le: spec_fn(T, T) -> bool, r: T)
    requires
        is_transitive(le),
    ensures
        inserted_by(s, x, le).filter(stands_with(le, r)) == if stands_with(le, r)(x) {
            s.filter(stands_with(le, r)).push(x)
        } else {
            s.filter(stands_with(le, r))
        },
    decreases s.len(),
{
    let like = stands_with(le, r);
    if s.len() > 0 && !le(s.last(), x) {
        let init = s.drop_last();
        let last = s.last();
        lemma_inserted_behind_its_like(init, x, le, r);
        inserted_by(init, x, le).lemma_filter_push(last, like);
        init.lemma_filter_push(last, like);
        assert(s =~= init.push(last));
        if like(x) && like(last) {
            assert(le(last, r) && le(r, x));
        }
    } else {
        s.lemma_filter_push(x, like);
    }
}

/// A stable sort keeps the values that stand with one another in the order in which it
/// found them.
pub proof fn lemma_sort_is_stable<T>(s: Seq<T>, le: spec_fn(T, T) -> bool, r: T)
    requires
        is_transitive(le),
    ensures
        stably_sorted_by(s, le).filter(stands_with(le, r)) == s.filter(stands_with(le, r)),
    decreases s.len(),
{
    let like = stands_with(le, r);
    if s.len() > 0 {
        lemma_sort_is_stable(s.drop_last(), le, r);
        lemma_inserted_behind_its_like(stably_sorted_by(s.drop_last(), le), s.last(), le, r);
        s.drop_last().lemma_filter_push(s.last(), like);
        assert(s =~= s.drop_last().push(s.last()));
    }
}

/// Sorting and then looking at each element through `f` gives what looking first and
/// sorting then gives, where the two orders agree through `f`.
pub proof fn lemma_sort_through<T, V>(
    s: Seq<T>,
    f: spec_fn(T) -> V,
    le: spec_fn(T, T) -> bool,
    le_seen: spec_fn(V, V) -> bool,
)
    requires
        forall|a: T, b: T| #[trigger] le(a, b) == le_seen(f(a), f(b)),
    ensures
        stably_sorted_by(s, le).map_values(f) == stably_sorted_by(s.map_values(f), le_seen),
    decreases s.len(),
{
    if s.len() == 0 {
        assert(s.map_values(f) =~= Seq::<V>::empty());
        assert(stably_sorted_by(s, le).map_values(f) =~= Seq::<V>::empty());
    } else {
        lemma_sort_through(s.drop_last(), f, le, le_seen);
        assert(s.map_values(f).drop_last() =~= s.drop_last().map_values(f));
        assert(s.map_values(f).last() == f(s.last()));
        lemma_insert_through(stably_sorted_by(s.drop_last(), le), s.last(), f, le, le_seen);
    }
}

/// Insertion and then looking at each element through `f` gives what looking first and
/// inserting then gives, where the two orders agree through `f`.
pub proof fn lemma_insert_through<T, V>(
    s: Seq<T>,
    x: T,
    f: spec_fn(T) -> V,
    le: spec_fn(T, T) -> bool,
    le_seen: spec_fn(V, V) -> bool,
)
    requires
        forall|a: T, b: T| #[trigger] le(a, b) == le_seen(f(a), f(b)),
    ensures
        inserted_by(s, x, le).map_values(f) == inserted_by(s.map_values(f), f(x), le_seen),
    decreases s.len(),
{
    let seen = s.map_values(f);
    if s.len() > 0 && !le(s.last(), x) {
        assert(le(s.last(), x) == le_seen(f(s.last()), f(x)));
        assert(seen.last() == f(s.last()));
        lemma_insert_through(s.drop_last(), x, f, le, le_seen);
        assert(seen.drop_last() =~= s.drop_last().map_values(f));
        assert(inserted_by(s, x, le).map_values(f) =~= inserted_by(
            s.drop_last(),
            x,
            le,
        ).map_values(f).push(f(s.last())));
    } else {
        if s.len() > 0 {
            assert(le(s.last(), x) == le_seen(f(s.last()), f(x)));
            assert(seen.last() == f(s.last()));
        }
        assert(inserted_by(s, x, le).map_values(f) =~= seen.push(f(x)));
    }
}

} // verus!
