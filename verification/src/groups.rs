//! Grouping and summation, shared by every document kind.
//!
//! A flat sequence of lines is grouped by a string key — the seller for
//! buyer orders, the buyer for pick lists — into one group per distinct
//! key, in first-seen order (hash-order grouping would make document output
//! non-deterministic, so the order is fixed here). Each group holds exactly
//! the lines with its key, in their original order. The partition theorem
//! at the bottom says that the groups' subtotals add up to the total of all
//! lines.

use vstd::prelude::*;

verus! {

/// The predicate selecting the lines whose key is `k`.
pub open spec fn key_is<L>(key: spec_fn(L) -> Seq<char>, k: Seq<char>) -> spec_fn(L) -> bool {
    |l: L| key(l) == k
}

/// The lines of `s` carrying key `k`, in their original order: one group of
/// a grouping.
pub open spec fn group_lines<L>(s: Seq<L>, key: spec_fn(L) -> Seq<char>, k: Seq<char>) -> Seq<L> {
    s.filter(key_is(key, k))
}

/// The distinct keys of `s` under `key`, in first-seen order.
pub open spec fn keys_of<L>(s: Seq<L>, key: spec_fn(L) -> Seq<char>) -> Seq<Seq<char>>
    decreases s.len(),
{
    if s.len() == 0 {
        Seq::<Seq<char>>::empty()
    } else {
        let rest = keys_of(s.drop_last(), key);
        if rest.contains(key(s.last())) {
            rest
        } else {
            rest.push(key(s.last()))
        }
    }
}

/// The sum of `f` over the elements of `s`.
pub open spec fn sum_by<L>(s: Seq<L>, f: spec_fn(L) -> int) -> int
    decreases s.len(),
{
    if s.len() == 0 {
        0
    } else {
        sum_by(s.drop_last(), f) + f(s.last())
    }
}

/// No two elements of `keys` are equal.
pub open spec fn distinct_keys(keys: Seq<Seq<char>>) -> bool {
    forall|i: int, j: int| 0 <= i < j < keys.len() ==> keys[i] != keys[j]
}

/// The sum over `keys` of the sums of `f` over each key's group: the total
/// of the groups' subtotals.
pub open spec fn groups_sum<L>(
    s: Seq<L>,
    keys: Seq<Seq<char>>,
    key: spec_fn(L) -> Seq<char>,
    f: spec_fn(L) -> int,
) -> int
    decreases keys.len(),
{
    if keys.len() == 0 {
        0
    } else {
        groups_sum(s, keys.drop_last(), key, f) + sum_by(group_lines(s, key, keys.last()), f)
    }
}

/// Filtering a sequence extended by one element keeps the old matches and
/// appends the new element exactly when it matches.
pub proof fn lemma_filter_push<A>(s: Seq<A>, pred: spec_fn(A) -> bool, x: A)
    ensures
        s.push(x).filter(pred) == if pred(x) {
            s.filter(pred).push(x)
        } else {
            s.filter(pred)
        },
{
    reveal(Seq::filter);
    assert(s.push(x).drop_last() =~= s);
    assert(s.push(x).last() == x);
}

/// A sequence none of whose elements match filters to nothing.
pub proof fn lemma_filter_none<A>(s: Seq<A>, pred: spec_fn(A) -> bool)
    requires
        forall|i: int| 0 <= i < s.len() ==> !pred(#[trigger] s[i]),
    ensures
        s.filter(pred) == Seq::<A>::empty(),
    decreases s.len(),
{
    reveal(Seq::filter);
    if s.len() > 0 {
        assert(!pred(s.last()));
        lemma_filter_none(s.drop_last(), pred);
    }
}

/// The keys of `s` are exactly the keys its elements carry.
pub proof fn lemma_keys_of_contains<L>(s: Seq<L>, key: spec_fn(L) -> Seq<char>, k: Seq<char>)
    ensures
        keys_of(s, key).contains(k) <==> exists|i: int|
            0 <= i < s.len() && key(#[trigger] s[i]) == k,
    decreases s.len(),
{
    if s.len() > 0 {
        let s0 = s.drop_last();
        lemma_keys_of_contains(s0, key, k);
        let rest = keys_of(s0, key);
        let kl = key(s.last());
        assert(s[s.len() - 1] == s.last());
        assert(forall|i: int| 0 <= i < s0.len() ==> #[trigger] s0[i] == s[i]);
        if keys_of(s, key).contains(k) {
            // the key comes from the older lines or from the last one
            if rest.contains(k) {
                let i = choose|i: int| 0 <= i < s0.len() && key(#[trigger] s0[i]) == k;
                assert(key(s[i]) == k);
            } else {
                assert(keys_of(s, key) == rest.push(kl));
                let j = choose|j: int|
                    0 <= j < rest.push(kl).len() && rest.push(kl)[j] == k;
                if j < rest.len() {
                    assert(rest[j] == k);
                    assert(rest.contains(k));
                    assert(false);
                } else {
                    assert(k == kl);
                    assert(key(s[s.len() - 1]) == k);
                }
            }
        }
        if exists|i: int| 0 <= i < s.len() && key(#[trigger] s[i]) == k {
            // conversely, a line's key is listed
            let i = choose|i: int| 0 <= i < s.len() && key(#[trigger] s[i]) == k;
            if i < s.len() - 1 {
                assert(key(s0[i]) == k);
                assert(rest.contains(k));
                if !rest.contains(kl) {
                    let j = choose|j: int| 0 <= j < rest.len() && rest[j] == k;
                    assert(rest.push(kl)[j] == k);
                    assert(keys_of(s, key).contains(k));
                }
            } else {
                assert(k == kl);
                if rest.contains(kl) {
                    assert(keys_of(s, key).contains(k));
                } else {
                    assert(rest.push(kl)[rest.len() as int] == kl);
                    assert(keys_of(s, key).contains(k));
                }
            }
        }
    }
}

/// The keys of a grouping are distinct: no key heads two groups.
pub proof fn lemma_keys_of_distinct<L>(s: Seq<L>, key: spec_fn(L) -> Seq<char>)
    ensures
        distinct_keys(keys_of(s, key)),
    decreases s.len(),
{
    if s.len() > 0 {
        lemma_keys_of_distinct(s.drop_last(), key);
        let rest = keys_of(s.drop_last(), key);
        let k = key(s.last());
        if !rest.contains(k) {
            assert forall|i: int, j: int|
                0 <= i < j < rest.push(k).len() implies rest.push(k)[i] != rest.push(k)[j] by {
                if j < rest.len() {
                    assert(rest[i] != rest[j]);
                } else {
                    assert(rest.push(k)[j] == k);
                    assert(rest.push(k)[i] == rest[i]);
                    assert(rest.contains(rest[i]));
                }
            }
        }
    }
}

/// Extending the lines by one adds its value to exactly the group whose key
/// it carries.
proof fn lemma_groups_sum_push<L>(
    s: Seq<L>,
    keys: Seq<Seq<char>>,
    key: spec_fn(L) -> Seq<char>,
    f: spec_fn(L) -> int,
    l: L,
)
    requires
        distinct_keys(keys),
    ensures
        groups_sum(s.push(l), keys, key, f) == groups_sum(s, keys, key, f) + if keys.contains(
            key(l),
        ) {
            f(l)
        } else {
            0
        },
    decreases keys.len(),
{
    if keys.len() > 0 {
        let kl = keys.last();
        assert(distinct_keys(keys.drop_last())) by {
            assert(forall|i: int, j: int|
                0 <= i < j < keys.drop_last().len() ==> keys.drop_last()[i]
                    != keys.drop_last()[j]);
        }
        lemma_groups_sum_push(s, keys.drop_last(), key, f, l);
        lemma_filter_push(s, key_is(key, kl), l);
        let single = group_lines(s.push(l), key, kl);
        if key(l) == kl {
            assert(group_lines(s.push(l), key, kl) == group_lines(s, key, kl).push(l));
            assert(sum_by(group_lines(s, key, kl).push(l), f) == sum_by(group_lines(s, key, kl), f)
                + f(l)) by {
                let g = group_lines(s, key, kl);
                assert(g.push(l).drop_last() =~= g);
                assert(g.push(l).last() == l);
            }
            // no earlier group has this key
            assert(!keys.drop_last().contains(key(l))) by {
                if keys.drop_last().contains(key(l)) {
                    let i = choose|i: int|
                        0 <= i < keys.drop_last().len() && keys.drop_last()[i] == key(l);
                    assert(keys[i] == keys[keys.len() - 1]);
                    assert(false);
                }
            }
            assert(keys.contains(key(l))) by {
                assert(keys[keys.len() - 1] == key(l));
            }
        } else {
            assert(group_lines(s.push(l), key, kl) == group_lines(s, key, kl));
            assert(keys.contains(key(l)) <==> keys.drop_last().contains(key(l))) by {
                if keys.contains(key(l)) {
                    let i = choose|i: int| 0 <= i < keys.len() && keys[i] == key(l);
                    assert(i < keys.len() - 1);
                    assert(keys.drop_last()[i] == keys[i]);
                }
                if keys.drop_last().contains(key(l)) {
                    let i = choose|i: int|
                        0 <= i < keys.drop_last().len() && keys.drop_last()[i] == key(l);
                    assert(keys[i] == key(l));
                }
            }
        }
    }
}

/// Partition theorem: the groups' subtotals add up to the total over all
/// lines. Grouping loses nothing and counts nothing twice.
pub proof fn lemma_partition<L>(s: Seq<L>, key: spec_fn(L) -> Seq<char>, f: spec_fn(L) -> int)
    ensures
        groups_sum(s, keys_of(s, key), key, f) == sum_by(s, f),
    decreases s.len(),
{
    if s.len() > 0 {
        let s0 = s.drop_last();
        let l = s.last();
        lemma_partition(s0, key, f);
        lemma_keys_of_distinct(s0, key);
        let keys0 = keys_of(s0, key);
        assert(s0.push(l) =~= s);
        lemma_groups_sum_push(s0, keys0, key, f, l);
        assert(groups_sum(s, keys0, key, f) == groups_sum(s0.push(l), keys0, key, f));
        if keys0.contains(key(l)) {
            assert(keys_of(s, key) == keys0);
        } else {
            assert(keys_of(s, key) == keys0.push(key(l)));
            let keys1 = keys0.push(key(l));
            assert(groups_sum(s, keys1, key, f) == groups_sum(s, keys0, key, f) + sum_by(
                group_lines(s, key, key(l)),
                f,
            )) by {
                assert(keys1.drop_last() =~= keys0);
                assert(keys1.last() == key(l));
            }
            lemma_keys_of_contains(s0, key, key(l));
            lemma_filter_none(s0, key_is(key, key(l)));
            lemma_filter_push(s0, key_is(key, key(l)), l);
            let single = group_lines(s, key, key(l));
            assert(single == Seq::<L>::empty().push(l));
            assert(sum_by(single, f) == f(l)) by {
                assert(single.len() == 1);
                assert(single.drop_last() =~= Seq::<L>::empty());
                assert(sum_by(single.drop_last(), f) == 0);
                assert(single.last() == l);
            }
        }
    }
}


/// Every element of a filtered sequence stands in the original sequence.
pub proof fn lemma_filter_elem<A>(s: Seq<A>, pred: spec_fn(A) -> bool, i: int)
    requires
        0 <= i < s.filter(pred).len(),
    ensures
        s.contains(s.filter(pred)[i]),
    decreases s.len(),
{
    reveal(Seq::filter);
    if s.len() > 0 {
        let sub = s.drop_last().filter(pred);
        if pred(s.last()) && i == sub.len() {
            assert(s.filter(pred)[i] == s.last());
            assert(s[s.len() - 1] == s.last());
        } else {
            lemma_filter_elem(s.drop_last(), pred, i);
            let x = s.filter(pred)[i];
            assert(s.drop_last().contains(x));
            let j = choose|j: int| 0 <= j < s.drop_last().len() && s.drop_last()[j] == x;
            assert(s[j] == x);
        }
    }
}

} // verus!
