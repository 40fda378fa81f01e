//! Median, mode and sum of a list of integers.

use std::collections::HashMap;
use vstd::prelude::*;
use vstd::relations::{sorted_by, total_ordering};
use vstd::seq_lib::lemma_sorted_unique;

verus! {

/// The order of the integers, as a relation.
pub open spec fn at_most() -> spec_fn(i32, i32) -> bool {
    |a: i32, b: i32| a <= b
}

/// The numbers of `v` in ascending order.
pub open spec fn ascending(v: Seq<i32>) -> Seq<i32> {
    v.sort_by(at_most())
}

/// How often `x` occurs in `v`.
pub open spec fn occurrences(v: Seq<i32>, x: i32) -> nat
    decreases v.len(),
{
    if v.len() == 0 {
        0
    } else {
        occurrences(v.drop_last(), x) + if v.last() == x {
            1nat
        } else {
            0nat
        }
    }
}

/// The sum of the numbers of `v`.
pub open spec fn sum_of(v: Seq<i32>) -> int
    decreases v.len(),
{
    if v.len() == 0 {
        0
    } else {
        sum_of(v.drop_last()) + v.last()
    }
}

/// Calls `slice::sort` on the vector. Trusted: afterwards the vector holds
/// the same numbers as before, each as often as before, in ascending order.
#[verifier::external_body]
fn sort_ascending(v: &mut Vec<i32>)
    ensures
        sorted_by(final(v)@, at_most()),
        final(v)@.to_multiset() == old(v)@.to_multiset(),
{
    v.sort();
}

/// The median of a list that is not empty: the number in the middle of its
/// ascending order, the upper of the two in the middle if its length is even.
pub fn median(v: &Vec<i32>) -> (m: i32)
    requires
        v@.len() > 0,
    ensures
        m == ascending(v@)[v@.len() as int / 2],
{
    let mut sorted = v.clone();
    assert(sorted@ =~= v@);
    sort_ascending(&mut sorted);
    proof {
        v@.lemma_sort_by_ensures(at_most());
        assert(total_ordering(at_most()));
        lemma_sorted_unique(sorted@, ascending(v@), at_most());
        v@.to_multiset_ensures();
        sorted@.to_multiset_ensures();
    }
    sorted[v.len() / 2]
}

/// A number occurs in a list as often as it occurs at the end of it, and
/// before that.
pub proof fn lemma_occurrences_push(v: Seq<i32>, y: i32, x: i32)
    ensures
        occurrences(v.push(y), x) == occurrences(v, x) + if y == x {
            1nat
        } else {
            0nat
        },
{
    assert(v.push(y).drop_last() =~= v);
}

/// A number occurs in a list at most as often as the list is long, and at
/// least as often as in any beginning of the list.
pub proof fn lemma_occurrences_bounds(v: Seq<i32>, upto: int, x: i32)
    requires
        0 <= upto <= v.len(),
    ensures
        occurrences(v.take(upto), x) <= occurrences(v, x) <= v.len(),
    decreases v.len(),
{
    if v.len() > 0 {
        if upto == v.len() {
            assert(v.take(upto) =~= v);
            lemma_occurrences_bounds(v.drop_last(), upto - 1, x);
        } else {
            lemma_occurrences_bounds(v.drop_last(), upto, x);
            assert(v.drop_last().take(upto) =~= v.take(upto));
        }
    } else {
        assert(v.take(upto) =~= v);
    }
}

/// A number of a list occurs in it at least once.
pub proof fn lemma_occurrences_positive(v: Seq<i32>, at: int)
    requires
        0 <= at < v.len(),
    ensures
        occurrences(v, v[at]) > 0,
    decreases v.len(),
{
    if at < v.len() - 1 {
        lemma_occurrences_positive(v.drop_last(), at);
    }
}

/// Whether `best` is the mode of `v` with its count: it occurs as often as
/// the count says and no number occurs more often; of several such numbers
/// it is the one that stands first in `v`.
pub open spec fn is_mode(v: Seq<i32>, best: (i32, i32)) -> bool {
    &&& occurrences(v, best.0) == best.1
    &&& forall|x: i32| occurrences(v, x) <= best.1
    &&& exists|at: int|
        0 <= at < v.len() && v[at] == best.0 && forall|k: int|
            0 <= k < at ==> occurrences(v, #[trigger] v[k]) < best.1
}

/// The mode of a list and how often it occurs; `(0, 0)` for the empty list.
/// The list must be short enough for a count to fit an `i32`.
pub fn mode(v: &Vec<i32>) -> (best: (i32, i32))
    requires
        v@.len() <= i32::MAX,
    ensures
        v@.len() == 0 ==> best == (0i32, 0i32),
        v@.len() > 0 ==> is_mode(v@, best),
{
    broadcast use vstd::std_specs::hash::group_hash_axioms;

    let mut counts: HashMap<i32, i32> = HashMap::new();
    let mut i: usize = 0;
    while i < v.len()
        invariant
            i <= v@.len(),
            v@.len() <= i32::MAX,
            forall|x: i32| counts@.contains_key(x) <==> occurrences(v@.take(i as int), x) > 0,
            forall|x: i32|
                counts@.contains_key(x) ==> #[trigger] counts@[x] == occurrences(
                    v@.take(i as int),
                    x,
                ),
        decreases v@.len() - i,
    {
        let x = v[i];
        proof {
            assert(v@.take(i + 1) =~= v@.take(i as int).push(x));
            assert forall|y: i32|
                occurrences(v@.take(i + 1), y) == occurrences(v@.take(i as int), y) + if x == y {
                    1nat
                } else {
                    0nat
                } by {
                lemma_occurrences_push(v@.take(i as int), x, y);
            }
            lemma_occurrences_bounds(v@.take(i as int), i as int, x);
        }
        let seen: i32 = match counts.get(&x) {
            Some(count) => *count,
            None => 0,
        };
        counts.insert(x, seen + 1);
        i = i + 1;
    }
    assert(v@.take(i as int) =~= v@);
    let mut best: (i32, i32) = (0, 0);
    let ghost mut at: int = 0;
    let mut j: usize = 0;
    while j < v.len()
        invariant
            j <= v@.len(),
            forall|x: i32| counts@.contains_key(x) <==> occurrences(v@, x) > 0,
            forall|x: i32| counts@.contains_key(x) ==> #[trigger] counts@[x] == occurrences(v@, x),
            j == 0 ==> best == (0i32, 0i32),
            forall|k: int| 0 <= k < j ==> occurrences(v@, #[trigger] v@[k]) <= best.1,
            j > 0 ==> 0 <= at < j && v@[at] == best.0 && occurrences(v@, best.0) == best.1,
            j > 0 ==> forall|k: int| 0 <= k < at ==> occurrences(v@, #[trigger] v@[k]) < best.1,
        decreases v@.len() - j,
    {
        let x = v[j];
        proof {
            lemma_occurrences_positive(v@, j as int);
        }
        let count: i32 = match counts.get(&x) {
            Some(count) => *count,
            None => 0,
        };
        if count > best.1 {
            best = (x, count);
            proof {
                at = j as int;
            }
        }
        j = j + 1;
    }
    proof {
        if v@.len() > 0 {
            assert forall|x: i32| occurrences(v@, x) <= best.1 by {
                if occurrences(v@, x) > 0 {
                    let k = lemma_occurrences_witness(v@, x);
                    assert(occurrences(v@, v@[k]) <= best.1);
                }
            }
        }
    }
    best
}

/// A number that occurs in a list stands somewhere in it.
pub proof fn lemma_occurrences_witness(v: Seq<i32>, x: i32) -> (at: int)
    requires
        occurrences(v, x) > 0,
    ensures
        0 <= at < v.len(),
        v[at] == x,
    decreases v.len(),
{
    if v.last() == x {
        v.len() - 1
    } else {
        lemma_occurrences_witness(v.drop_last(), x)
    }
}

/// The sum of a list whose running sums all fit an `i32`.
pub fn sum(v: &Vec<i32>) -> (total: i32)
    requires
        forall|n: int| 0 <= n <= v@.len() ==> i32::MIN <= #[trigger] sum_of(v@.take(n)) <= i32::MAX,
    ensures
        total == sum_of(v@),
{
    let mut total: i32 = 0;
    let mut i: usize = 0;
    while i < v.len()
        invariant
            i <= v@.len(),
            total == sum_of(v@.take(i as int)),
            forall|n: int|
                0 <= n <= v@.len() ==> i32::MIN <= #[trigger] sum_of(v@.take(n)) <= i32::MAX,
        decreases v@.len() - i,
    {
        proof {
            assert(v@.take(i + 1).drop_last() =~= v@.take(i as int));
            assert(i32::MIN <= sum_of(v@.take(i + 1)) <= i32::MAX);
        }
        total = total + v[i];
        i = i + 1;
    }
    assert(v@.take(i as int) =~= v@);
    total
}

} // verus!
