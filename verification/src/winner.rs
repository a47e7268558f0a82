//! The closest of a list of distances.
//!
//! A round is won by the guess that is closest to the true location. The
//! distances come from the caller, one for each guess of the round, as
//! unsigned integers in any unit in which a shorter distance is a smaller
//! number. The shortest wins; of several that are equally short, the first.

use vstd::prelude::*;

verus! {

/// `i` is the place of the least distance, and the first place where it
/// stands.
pub open spec fn is_first_minimum(distances: Seq<u64>, i: int) -> bool {
    &&& 0 <= i < distances.len()
    &&& forall|j: int| 0 <= j < distances.len() ==> distances[i] <= #[trigger] distances[j]
    &&& forall|j: int| 0 <= j < i ==> distances[i] < #[trigger] distances[j]
}

/// The first place of the least of the distances, if there are any.
pub fn closest(distances: &Vec<u64>) -> (won: Option<usize>)
    ensures
        match won {
            Some(i) => is_first_minimum(distances@, i as int),
            None => distances@.len() == 0,
        },
{
    if distances.len() == 0 {
        return None;
    }
    let mut closest: usize = 0;
    let mut k: usize = 1;
    while k < distances.len()
        invariant
            1 <= k <= distances@.len(),
            is_first_minimum(distances@.take(k as int), closest as int),
        decreases distances.len() - k,
    {
        let ghost seen = distances@.take(k as int);
        let ghost next = distances@.take(k + 1);
        let ghost was = closest;
        if distances[k] < distances[closest] {
            closest = k;
        }
        proof {
            assert forall|j: int| 0 <= j < next.len() implies next[closest as int]
                <= #[trigger] next[j] by {
                if j < k {
                    assert(seen[was as int] <= seen[j]);
                }
            }
            assert forall|j: int| 0 <= j < closest implies next[closest as int]
                < #[trigger] next[j] by {
                if closest == k {
                    assert(seen[was as int] <= seen[j]);
                } else {
                    assert(seen[was as int] < seen[j]);
                }
            }
        }
        k += 1;
    }
    assert(distances@.take(k as int) =~= distances@);
    Some(closest)
}

/// The winner is determined by the distances: two places that both are the
/// first place of the least distance are one place.
pub proof fn lemma_winner_is_unique(distances: Seq<u64>, i: int, j: int)
    requires
        is_first_minimum(distances, i),
        is_first_minimum(distances, j),
    ensures
        i == j,
{
    if i < j {
        assert(distances[j] < distances[i]);
        assert(distances[i] <= distances[j]);
    } else if j < i {
        assert(distances[i] < distances[j]);
        assert(distances[j] <= distances[i]);
    }
}

/// Every round with a guess has a winner.
pub proof fn lemma_winner_exists(distances: Seq<u64>)
    requires
        distances.len() > 0,
    ensures
        exists|i: int| is_first_minimum(distances, i),
    decreases distances.len(),
{
    if distances.len() == 1 {
        assert(is_first_minimum(distances, 0));
    } else {
        let rest = distances.drop_last();
        lemma_winner_exists(rest);
        let i = choose|i: int| is_first_minimum(rest, i);
        let last = distances.len() - 1;
        if distances[last] < rest[i] {
            assert forall|j: int| 0 <= j < distances.len() implies distances[last]
                <= #[trigger] distances[j] by {
                if j < last {
                    assert(rest[i] <= rest[j]);
                }
            }
            assert forall|j: int| 0 <= j < last implies distances[last] < #[trigger] distances[j] by {
                assert(rest[i] <= rest[j]);
            }
            assert(is_first_minimum(distances, last));
        } else {
            assert forall|j: int| 0 <= j < distances.len() implies distances[i]
                <= #[trigger] distances[j] by {
                if j < last {
                    assert(rest[i] <= rest[j]);
                }
            }
            assert forall|j: int| 0 <= j < i implies distances[i] < #[trigger] distances[j] by {
                assert(rest[i] < rest[j]);
            }
            assert(is_first_minimum(distances, i));
        }
    }
}

} // verus!
