//! Facts about filtered and mapped sequences.

use vstd::prelude::*;

verus! {

/// Filtering one element more adds that element, where it passes.
pub proof fn lemma_filter_take<A>(s: Seq<A>, pred: spec_fn(A) -> bool, k: int)
    requires
        0 <= k < s.len(),
    ensures
        pred(s[k]) ==> s.take(k + 1).filter(pred) == s.take(k).filter(pred).push(s[k]),
        !pred(s[k]) ==> s.take(k + 1).filter(pred) == s.take(k).filter(pred),
{
    reveal(Seq::filter);
    assert(s.take(k + 1).drop_last() =~= s.take(k));
    assert(s.take(k + 1).last() == s[k]);
}

/// Nothing is left of an empty sequence.
pub proof fn lemma_filter_empty<A>(s: Seq<A>, pred: spec_fn(A) -> bool)
    requires
        s.len() == 0,
    ensures
        s.filter(pred) == Seq::<A>::empty(),
{
    reveal(Seq::filter);
    assert(s =~= Seq::<A>::empty());
}

/// Filtering the beginning of a sequence gives the beginning of the filtered sequence.
pub proof fn lemma_filter_take_prefix<A>(s: Seq<A>, pred: spec_fn(A) -> bool, k: int)
    requires
        0 <= k <= s.len(),
    ensures
        s.take(k).filter(pred).len() <= s.filter(pred).len(),
        s.take(k).filter(pred) == s.filter(pred).take(s.take(k).filter(pred).len() as int),
{
    assert(s =~= s.take(k) + s.skip(k));
    Seq::filter_distributes_over_add(s.take(k), s.skip(k), pred);
    assert(s.filter(pred).take(s.take(k).filter(pred).len() as int) =~= s.take(k).filter(pred));
}

/// A condition that never holds leaves nothing.
pub proof fn lemma_filter_none<A>(s: Seq<A>, pred: spec_fn(A) -> bool)
    requires
        forall|x: A| !#[trigger] pred(x),
    ensures
        s.filter(pred) == Seq::<A>::empty(),
    decreases s.len(),
{
    reveal(Seq::filter);
    if s.len() > 0 {
        lemma_filter_none(s.drop_last(), pred);
    } else {
        assert(s =~= Seq::<A>::empty());
    }
}

/// A condition that fails for some element leaves fewer.
pub proof fn lemma_filter_drops<A>(s: Seq<A>, pred: spec_fn(A) -> bool, k: int)
    requires
        0 <= k < s.len(),
        !pred(s[k]),
    ensures
        s.filter(pred).len() < s.len(),
{
    lemma_filter_take(s, pred, k);
    assert(s =~= s.take(k + 1) + s.skip(k + 1));
    Seq::filter_distributes_over_add(s.take(k + 1), s.skip(k + 1), pred);
    s.take(k).lemma_filter_len(pred);
    s.skip(k + 1).lemma_filter_len(pred);
}

/// A condition that fails for every element leaves nothing.
pub proof fn lemma_filter_fails<A>(s: Seq<A>, pred: spec_fn(A) -> bool)
    requires
        forall|k: int| 0 <= k < s.len() ==> !pred(#[trigger] s[k]),
    ensures
        s.filter(pred) == Seq::<A>::empty(),
{
    let never = |x: A| false;
    lemma_filter_same(s, pred, never);
    lemma_filter_none(s, never);
}

/// A condition that holds of every element leaves all of them.
pub proof fn lemma_filter_all<A>(s: Seq<A>, pred: spec_fn(A) -> bool)
    requires
        forall|k: int| 0 <= k < s.len() ==> pred(#[trigger] s[k]),
    ensures
        s.filter(pred) == s,
    decreases s.len(),
{
    reveal(Seq::filter);
    if s.len() > 0 {
        assert forall|k: int| 0 <= k < s.drop_last().len() implies pred(
            #[trigger] s.drop_last()[k],
        ) by {
            assert(s.drop_last()[k] == s[k]);
        }
        lemma_filter_all(s.drop_last(), pred);
        assert(pred(s[s.len() - 1]));
        assert(s =~= s.drop_last().push(s.last()));
    }
}

/// Counting the elements that pass, value by value.
pub proof fn lemma_filter_count<A>(s: Seq<A>, pred: spec_fn(A) -> bool, v: A)
    ensures
        s.filter(pred).to_multiset().count(v) == if pred(v) {
            s.to_multiset().count(v)
        } else {
            0
        },
    decreases s.len(),
{
    reveal(Seq::filter);
    broadcast use vstd::seq_lib::group_to_multiset_ensures;
    broadcast use vstd::multiset::group_multiset_axioms;

    if s.len() == 0 {
    } else {
        lemma_filter_count(s.drop_last(), pred, v);
        assert(s =~= s.drop_last().push(s.last()));
    }
}

/// Sequences with the same elements are mapped to sequences with the same elements.
pub proof fn lemma_map_multiset<A, B>(s: Seq<A>, t: Seq<A>, f: spec_fn(A) -> B)
    requires
        s.to_multiset() == t.to_multiset(),
    ensures
        s.map_values(f).to_multiset() == t.map_values(f).to_multiset(),
    decreases s.len(),
{
    broadcast use vstd::seq_lib::group_to_multiset_ensures;
    broadcast use vstd::multiset::group_multiset_axioms;

    assert(s.len() == s.to_multiset().len());
    assert(t.len() == t.to_multiset().len());
    if s.len() > 0 {
        let x = s.last();
        assert(s.to_multiset().contains(x));
        assert(t.contains(x));
        let k = choose|k: int| 0 <= k < t.len() && t[k] == x;
        assert(s.drop_last() =~= s.remove(s.len() - 1));
        lemma_map_multiset(s.drop_last(), t.remove(k), f);
        assert(s.map_values(f).remove(s.len() - 1) =~= s.drop_last().map_values(f));
        assert(t.map_values(f).remove(k) =~= t.remove(k).map_values(f));
        assert(s.map_values(f).to_multiset() =~= s.drop_last().map_values(f).to_multiset().insert(
            f(x),
        ));
        assert(t.map_values(f).to_multiset() =~= t.remove(k).map_values(f).to_multiset().insert(
            f(x),
        ));
    } else {
        assert(s.map_values(f) =~= t.map_values(f));
    }
}

/// What is left of a sorted sequence is sorted.
pub proof fn lemma_filter_sorted<A>(
    s: Seq<A>,
    pred: spec_fn(A) -> bool,
    le: spec_fn(A, A) -> bool,
)
    requires
        vstd::relations::sorted_by(s, le),
    ensures
        vstd::relations::sorted_by(s.filter(pred), le),
    decreases s.len(),
{
    reveal(Seq::filter);
    if s.len() > 0 {
        let rest = s.drop_last();
        lemma_filter_sorted(rest, pred, le);
        let kept = rest.filter(pred);
        assert forall|i: int| 0 <= i < kept.len() implies #[trigger] le(kept[i], s.last()) by {
            assert(kept.contains(kept[i]));
            rest.lemma_filter_contains_rev(pred, kept[i]);
            let k = choose|k: int| 0 <= k < rest.len() && rest[k] == kept[i];
            assert(le(s[k], s[s.len() - 1]));
        }
    }
}

/// Sorting and then filtering is filtering and then sorting.
pub proof fn lemma_sort_filter<A>(
    s: Seq<A>,
    pred: spec_fn(A) -> bool,
    le: spec_fn(A, A) -> bool,
)
    requires
        vstd::relations::total_ordering(le),
    ensures
        s.sort_by(le).filter(pred) == s.filter(pred).sort_by(le),
{
    s.lemma_sort_by_ensures(le);
    s.filter(pred).lemma_sort_by_ensures(le);
    let a = s.sort_by(le).filter(pred);
    let b = s.filter(pred).sort_by(le);
    lemma_filter_sorted(s.sort_by(le), pred, le);
    assert forall|v: A| a.to_multiset().count(v) == b.to_multiset().count(v) by {
        lemma_filter_count(s.sort_by(le), pred, v);
        lemma_filter_count(s, pred, v);
    }
    assert(a.to_multiset() =~= b.to_multiset());
    vstd::seq_lib::lemma_sorted_unique(a, b, le);
}

/// Conditions that agree on a sequence leave the same of it.
pub proof fn lemma_filter_same<A>(
    s: Seq<A>,
    first: spec_fn(A) -> bool,
    second: spec_fn(A) -> bool,
)
    requires
        forall|k: int| 0 <= k < s.len() ==> first(#[trigger] s[k]) == second(s[k]),
    ensures
        s.filter(first) == s.filter(second),
    decreases s.len(),
{
    reveal(Seq::filter);
    if s.len() > 0 {
        assert forall|k: int| 0 <= k < s.drop_last().len() implies first(
            #[trigger] s.drop_last()[k],
        ) == second(s.drop_last()[k]) by {
            assert(s.drop_last()[k] == s[k]);
        }
        lemma_filter_same(s.drop_last(), first, second);
        assert(first(s[s.len() - 1]) == second(s[s.len() - 1]));
    }
}

/// Filtering twice is filtering by both conditions.
pub proof fn lemma_filter_filter<A>(
    s: Seq<A>,
    first: spec_fn(A) -> bool,
    second: spec_fn(A) -> bool,
    both: spec_fn(A) -> bool,
)
    requires
        forall|x: A| #[trigger] both(x) == (first(x) && second(x)),
    ensures
        s.filter(first).filter(second) == s.filter(both),
    decreases s.len(),
{
    reveal(Seq::filter);
    if s.len() > 0 {
        lemma_filter_filter(s.drop_last(), first, second, both);
        assert(both(s.last()) == (first(s.last()) && second(s.last())));
        let kept = s.drop_last().filter(first);
        assert(kept.push(s.last()).drop_last() =~= kept);
    }
}

/// The element at `j` passes: it stands in the filtered sequence behind those before it.
pub proof fn lemma_filter_rank<A>(s: Seq<A>, pred: spec_fn(A) -> bool, j: int)
    requires
        0 <= j < s.len(),
        pred(s[j]),
    ensures
        s.take(j).filter(pred).len() < s.filter(pred).len(),
        s.filter(pred)[s.take(j).filter(pred).len() as int] == s[j],
{
    lemma_filter_take(s, pred, j);
    lemma_filter_take_prefix(s, pred, j + 1);
    let kept = s.take(j + 1).filter(pred);
    assert(kept[kept.len() - 1] == s[j]);
    assert(s.filter(pred)[kept.len() - 1] == kept[kept.len() - 1]);
}

/// As many elements pass in whatever order they stand, and they are the same.
pub proof fn lemma_filter_permuted<A>(s: Seq<A>, t: Seq<A>, pred: spec_fn(A) -> bool)
    requires
        s.to_multiset() == t.to_multiset(),
    ensures
        s.filter(pred).to_multiset() == t.filter(pred).to_multiset(),
        s.filter(pred).len() == t.filter(pred).len(),
{
    broadcast use vstd::seq_lib::group_to_multiset_ensures;

    let (a, b) = (s.filter(pred), t.filter(pred));
    assert forall|v: A| #[trigger] a.to_multiset().count(v) == b.to_multiset().count(v) by {
        lemma_filter_count(s, pred, v);
        lemma_filter_count(t, pred, v);
    }
    assert(a.to_multiset() =~= b.to_multiset());
    assert(a.len() == a.to_multiset().len());
    assert(b.len() == b.to_multiset().len());
}

/// Of the numbers that pass, those below `k` are those that pass of the first `k`.
pub proof fn lemma_filter_numbers(len: nat, pred: spec_fn(int) -> bool, k: int)
    requires
        0 <= k <= len,
    ensures
        Seq::new(len, |i: int| i).filter(pred).filter(|i: int| i < k) == Seq::new(
            len,
            |i: int| i,
        ).take(k).filter(pred),
{
    let all = Seq::new(len, |i: int| i);
    let below = |i: int| i < k;
    let both = |i: int| pred(i) && below(i);
    let never = |i: int| false;
    lemma_filter_filter(all, pred, below, both);
    Seq::filter_distributes_over_add(all.take(k), all.skip(k), both);
    assert(all =~= all.take(k) + all.skip(k));
    lemma_filter_same(all.take(k), both, pred);
    lemma_filter_same(all.skip(k), both, never);
    lemma_filter_none(all.skip(k), never);
}

/// Each element of the filtered sequence comes from an element that passes.
pub proof fn lemma_filter_origin<A>(s: Seq<A>, pred: spec_fn(A) -> bool, r: int) -> (j: int)
    requires
        0 <= r < s.filter(pred).len(),
    ensures
        0 <= j < s.len(),
        pred(s[j]),
        s.take(j).filter(pred).len() == r,
        s.filter(pred)[r] == s[j],
    decreases s.len(),
{
    reveal(Seq::filter);
    let rest = s.drop_last();
    if r < rest.filter(pred).len() {
        let j = lemma_filter_origin(rest, pred, r);
        assert(rest.take(j) =~= s.take(j));
        j
    } else {
        assert(s.take(s.len() - 1) =~= rest);
        s.len() - 1
    }
}

/// Filtering what was mapped is mapping what was filtered.
pub proof fn lemma_map_filter<A, B>(
    s: Seq<A>,
    f: spec_fn(A) -> B,
    pred: spec_fn(B) -> bool,
    before: spec_fn(A) -> bool,
)
    requires
        forall|x: A| #[trigger] before(x) == pred(f(x)),
    ensures
        s.map_values(f).filter(pred) == s.filter(before).map_values(f),
    decreases s.len(),
{
    reveal(Seq::filter);
    if s.len() > 0 {
        lemma_map_filter(s.drop_last(), f, pred, before);
        assert(s.map_values(f).drop_last() =~= s.drop_last().map_values(f));
        assert(before(s.last()) == pred(f(s.last())));
        assert(s.drop_last().filter(before).push(s.last()).map_values(f)
            =~= s.drop_last().filter(before).map_values(f).push(f(s.last())));
    } else {
        assert(s.map_values(f) =~= Seq::<B>::empty());
        assert(s.map_values(f).filter(pred) =~= s.filter(before).map_values(f));
    }
}

/// What a flattened sequence contains, some part of it contains.
pub proof fn lemma_flatten_contains<A>(groups: Seq<Seq<A>>, x: A)
    ensures
        groups.flatten().contains(x) <==> exists|k: int|
            0 <= k < groups.len() && (#[trigger] groups[k]).contains(x),
    decreases groups.len(),
{
    if groups.len() > 0 {
        let rest = groups.drop_last();
        lemma_flatten_contains(rest, x);
        assert(groups =~= rest.push(groups.last()));
        rest.lemma_flatten_push(groups.last());
        let flat = rest.flatten() + groups.last();
        if groups.flatten().contains(x) {
            let m = choose|m: int| 0 <= m < flat.len() && flat[m] == x;
            if m < rest.flatten().len() {
                assert(rest.flatten()[m] == x);
                let k = choose|k: int| 0 <= k < rest.len() && (#[trigger] rest[k]).contains(x);
                assert(groups[k].contains(x));
            } else {
                assert(groups.last()[m - rest.flatten().len()] == x);
                assert(groups[groups.len() - 1].contains(x));
            }
        }
        if exists|k: int| 0 <= k < groups.len() && (#[trigger] groups[k]).contains(x) {
            let k = choose|k: int| 0 <= k < groups.len() && (#[trigger] groups[k]).contains(x);
            if k < rest.len() {
                assert(rest[k].contains(x));
                let m = choose|m: int| 0 <= m < rest.flatten().len() && rest.flatten()[m] == x;
                assert(flat[m] == x);
            } else {
                let m = choose|m: int| 0 <= m < groups.last().len() && groups.last()[m] == x;
                assert(flat[rest.flatten().len() + m] == x);
            }
        }
    } else {
        assert(groups.flatten() =~= Seq::<A>::empty());
    }
}

/// Where the group at `j` stands once the groups are strung together.
pub proof fn lemma_flatten_block<A>(groups: Seq<Seq<A>>, j: int) -> (p: int)
    requires
        0 <= j < groups.len(),
    ensures
        0 <= p,
        p + groups[j].len() <= groups.flatten().len(),
        forall|q: int|
            0 <= q < groups[j].len() ==> groups.flatten()[p + q] == #[trigger] groups[j][q],
    decreases groups.len(),
{
    let rest = groups.drop_last();
    rest.lemma_flatten_push(groups.last());
    assert(groups =~= rest.push(groups.last()));
    if j == groups.len() - 1 {
        rest.flatten().len() as int
    } else {
        let p = lemma_flatten_block(rest, j);
        assert forall|q: int| 0 <= q < groups[j].len() implies groups.flatten()[p + q]
            == #[trigger] groups[j][q] by {
            assert(rest[j][q] == rest.flatten()[p + q]);
        }
        p
    }
}

/// The first so many numbers that pass come in increasing order.
pub proof fn lemma_filter_numbers_increase(len: nat, pred: spec_fn(int) -> bool)
    ensures
        vstd::relations::sorted_by(
            Seq::new(len, |i: int| i).filter(pred),
            |a: int, b: int| a < b,
        ),
{
    lemma_filter_sorted(Seq::new(len, |i: int| i), pred, |a: int, b: int| a < b);
}

/// Of different numbers, there is one that has just `r` of the others below it.
pub proof fn lemma_rank_reached(numbers: Seq<int>, r: int) -> (x: int)
    requires
        numbers.no_duplicates(),
        0 <= r < numbers.len(),
    ensures
        numbers.contains(x),
        numbers.filter(|other: int| other < x).len() == r,
{
    broadcast use vstd::seq_lib::group_to_multiset_ensures;

    let le = |a: int, b: int| a <= b;
    let sorted = numbers.sort_by(le);
    assert(vstd::relations::total_ordering(le));
    numbers.lemma_sort_by_ensures(le);
    assert(sorted.len() == sorted.to_multiset().len());
    assert(numbers.len() == numbers.to_multiset().len());
    numbers.lemma_multiset_has_no_duplicates();
    assert forall|v: int| #[trigger] sorted.to_multiset().contains(v) implies sorted.to_multiset().count(
        v,
    ) == 1 by {
        assert(numbers.to_multiset().contains(v));
    }
    sorted.lemma_multiset_has_no_duplicates_conv();
    let x = sorted[r];
    let below = |other: int| other < x;
    assert(numbers.contains(x)) by {
        assert(sorted.contains(x));
        assert(sorted.to_multiset().count(x) > 0);
    }
    lemma_filter_permuted(numbers, sorted, below);
    assert(sorted =~= sorted.take(r) + sorted.skip(r));
    Seq::filter_distributes_over_add(sorted.take(r), sorted.skip(r), below);
    assert forall|k: int| 0 <= k < r implies below(#[trigger] sorted.take(r)[k]) by {
        assert(le(sorted[k], sorted[r]));
    }
    lemma_filter_all(sorted.take(r), below);
    assert forall|k: int| 0 <= k < sorted.skip(r).len() implies !below(
        #[trigger] sorted.skip(r)[k],
    ) by {
        if k > 0 {
            assert(le(sorted[r], sorted[r + k]));
        }
    }
    lemma_filter_fails(sorted.skip(r), below);
    x
}

} // verus!
