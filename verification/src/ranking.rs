//! Exact ranking of scored records: order by score, best first, and keep the
//! first few.
//!
//! A score is the dot product of two embeddings, a double-precision number that
//! the caller computes. Here it is held as its IEEE-754 bit pattern and ordered
//! by an integer key that orders as the numbers do.

use vstd::prelude::*;

verus! {

/// The bit that holds the sign of a double-precision number.
pub const SIGN_BIT: u64 = 0x8000_0000_0000_0000;

/// The pattern of positive infinity: every larger magnitude is not a number.
pub const INFINITY_BITS: u64 = 0x7ff0_0000_0000_0000;

/// The bit pattern without its sign.
pub open spec fn magnitude(bits: u64) -> int {
    (bits % SIGN_BIT) as int
}

/// The key by which scores are ordered. Among numbers, a larger number has a
/// larger key, and the two zeros share a key. Every pattern that is not a
/// number has one key, which is above that of every number.
pub open spec fn score_key(bits: u64) -> int {
    if magnitude(bits) > INFINITY_BITS {
        INFINITY_BITS + 1
    } else if bits >= SIGN_BIT {
        -magnitude(bits)
    } else {
        magnitude(bits)
    }
}

/// The key of an optional score: an absent score is below every score.
pub open spec fn rank_value(score: Option<u64>) -> int {
    match score {
        Some(bits) => score_key(bits),
        None => -(INFINITY_BITS + 1),
    }
}

/// Position `a` is listed before position `b`: its score is higher, or the
/// scores tie and it comes first in the input.
pub open spec fn ranked_before(scores: Seq<Option<u64>>, a: int, b: int) -> bool {
    rank_value(scores[a]) > rank_value(scores[b]) || (rank_value(scores[a]) == rank_value(
        scores[b],
    ) && a < b)
}

/// `order` lists the best `limit` of the first `upto` positions, best first:
/// what `is_ranking` says, of a prefix of the scores.
pub open spec fn ranks_prefix(
    scores: Seq<Option<u64>>,
    upto: int,
    limit: int,
    order: Seq<usize>,
) -> bool {
    &&& order.len() == if limit < upto {
        limit
    } else {
        upto
    }
    &&& forall|j: int| 0 <= j < order.len() ==> 0 <= #[trigger] order[j] < upto
    &&& forall|j: int, k: int|
        0 <= j < k < order.len() ==> ranked_before(
            scores,
            #[trigger] order[j] as int,
            #[trigger] order[k] as int,
        )
    &&& forall|x: int| 0 <= x < upto && !#[trigger] listed(order, x) ==> order.len() == limit
    &&& forall|x: int, j: int|
        #![trigger order[j], listed(order, x)]
        0 <= x < upto && 0 <= j < order.len() && !listed(order, x) ==> ranked_before(
            scores,
            order[j] as int,
            x,
        )
}

/// Position `x` stands in `order`.
pub open spec fn listed(order: Seq<usize>, x: int) -> bool {
    exists|j: int| 0 <= j < order.len() && #[trigger] order[j] == x
}

/// `order` is the ranking of `scores` cut after `limit` positions: it lists
/// positions of `scores`, each listed position is ranked before the ones after
/// it, a position is left out only when `limit` positions are listed, and
/// every position that is left out is ranked after all that are listed.
pub open spec fn is_ranking(scores: Seq<Option<u64>>, limit: int, order: Seq<usize>) -> bool {
    ranks_prefix(scores, scores.len() as int, limit, order)
}

/// Ranking correctness: where position `a` has a higher score than position
/// `b` and `b` is listed, `a` is listed above it.
pub proof fn lemma_higher_score_first(
    scores: Seq<Option<u64>>,
    limit: int,
    order: Seq<usize>,
    a: int,
    b: int,
    at_b: int,
)
    requires
        is_ranking(scores, limit, order),
        0 <= a < scores.len(),
        0 <= b < scores.len(),
        rank_value(scores[a]) > rank_value(scores[b]),
        0 <= at_b < order.len(),
        order[at_b] == b,
    ensures
        exists|at_a: int| 0 <= at_a < at_b && #[trigger] order[at_a] == a,
{
    if !listed(order, a) {
        assert(ranked_before(scores, order[at_b] as int, a));
    }
    let at_a = choose|j: int| 0 <= j < order.len() && #[trigger] order[j] == a;
    if at_b < at_a {
        assert(ranked_before(scores, order[at_b] as int, order[at_a] as int));
    }
}

/// The ranking is unique: two orders that both are the ranking of the same
/// scores with the same limit are equal.
pub proof fn lemma_ranking_unique(
    scores: Seq<Option<u64>>,
    limit: int,
    first: Seq<usize>,
    second: Seq<usize>,
)
    requires
        is_ranking(scores, limit, first),
        is_ranking(scores, limit, second),
    ensures
        first == second,
{
    lemma_agree(scores, limit, first, second, first.len() as int);
    assert(first =~= second);
}

proof fn lemma_agree(
    scores: Seq<Option<u64>>,
    limit: int,
    first: Seq<usize>,
    second: Seq<usize>,
    upto: int,
)
    requires
        is_ranking(scores, limit, first),
        is_ranking(scores, limit, second),
        0 <= upto <= first.len(),
    ensures
        forall|k: int| 0 <= k < upto ==> first[k] == second[k],
    decreases upto,
{
    if upto > 0 {
        lemma_agree(scores, limit, first, second, upto - 1);
        lemma_not_displaced(scores, limit, first, second, upto - 1);
        lemma_not_displaced(scores, limit, second, first, upto - 1);
    }
}

/// Where two rankings agree before position `j`, the entry of the first at `j`
/// is not ranked before the entry of the second at `j`.
proof fn lemma_not_displaced(
    scores: Seq<Option<u64>>,
    limit: int,
    first: Seq<usize>,
    second: Seq<usize>,
    j: int,
)
    requires
        is_ranking(scores, limit, first),
        is_ranking(scores, limit, second),
        0 <= j < first.len(),
        forall|k: int| 0 <= k < j ==> first[k] == second[k],
    ensures
        !ranked_before(scores, first[j] as int, second[j] as int),
{
    let x = first[j];
    if !ranked_before(scores, x as int, second[j] as int) {
    } else if !listed(second, x as int) {
        assert(ranked_before(scores, second[j] as int, x as int));
    } else {
        let k = choose|k: int| 0 <= k < second.len() && #[trigger] second[k] == x;
        if k < j {
            assert(first[k] == x);
            assert(ranked_before(scores, first[k] as int, first[j] as int));
        } else if k > j {
            assert(ranked_before(scores, second[j] as int, second[k] as int));
        }
    }
}

/// Computes the key of a score.
pub fn key_of(bits: u64) -> (key: i64)
    ensures
        key == score_key(bits),
{
    let mag = bits % SIGN_BIT;
    if mag > INFINITY_BITS {
        0x7ff0_0000_0000_0001
    } else if bits >= SIGN_BIT {
        -(mag as i64)
    } else {
        mag as i64
    }
}

/// Computes the key of an optional score.
pub fn rank_of(score: Option<u64>) -> (key: i64)
    ensures
        key == rank_value(score),
{
    match score {
        Some(bits) => key_of(bits),
        None => -0x7ff0_0000_0000_0001,
    }
}

/// Ranks the positions of `scores` and keeps the first `limit`.
pub fn rank_order(scores: &Vec<Option<u64>>, limit: usize) -> (order: Vec<usize>)
    ensures
        is_ranking(scores@, limit as int, order@),
{
    let mut order: Vec<usize> = Vec::new();
    let mut i: usize = 0;
    while i < scores.len()
        invariant
            i <= scores.len(),
            ranks_prefix(scores@, i as int, limit as int, order@),
        decreases scores.len() - i,
    {
        let key = rank_of(scores[i]);
        let ghost old_order = order@;
        let mut p: usize = order.len();
        while p > 0 && rank_of(scores[order[p - 1]]) < key
            invariant
                p <= order.len(),
                order@ == old_order,
                i < scores.len(),
                key == rank_value(scores@[i as int]),
                forall|j: int| 0 <= j < order.len() ==> 0 <= #[trigger] order@[j] < i,
                forall|j: int|
                    p <= j < order.len() ==> rank_value(scores@[#[trigger] order@[j] as int]) < key,
            decreases p,
        {
            p -= 1;
        }
        proof {
            // Everything before the insertion point ties with or outranks `i`.
            assert forall|j: int| 0 <= j < p implies rank_value(
                scores@[#[trigger] old_order[j] as int],
            ) >= key by {
                if j < p - 1 {
                    assert(ranked_before(scores@, old_order[j] as int, old_order[p - 1] as int));
                }
            }
        }
        if p < limit {
            order.insert(p, i);
            let ghost grown = order@;
            assert(grown.len() == old_order.len() + 1);
            assert(forall|j: int| 0 <= j < p ==> grown[j] == old_order[j]);
            assert(grown[p as int] == i);
            assert(forall|j: int| p < j < grown.len() ==> grown[j] == old_order[j - 1]);
            if order.len() > limit {
                order.pop();
                assert(order@ =~= grown.drop_last());
            }
            proof {
                lemma_after_insert(scores@, i as int, limit as int, old_order, p as int, order@);
            }
        } else {
            proof {
                assert forall|x: int, j: int|
                    #![trigger order@[j], listed(order@, x)]
                    0 <= x < i + 1 && 0 <= j < order@.len() && !listed(
                        order@,
                        x,
                    ) implies ranked_before(scores@, order@[j] as int, x) by {
                    assert(order@[j] < i);
                }
            }
        }
        i += 1;
    }
    order
}

/// Inserting position `i` at `p` into the ranking of the positions before it,
/// and cutting what exceeds the limit, gives the ranking of the positions up
/// to and including `i`.
proof fn lemma_after_insert(
    scores: Seq<Option<u64>>,
    i: int,
    limit: int,
    old_order: Seq<usize>,
    p: int,
    new_order: Seq<usize>,
)
    requires
        0 <= i < scores.len(),
        0 <= p <= old_order.len(),
        p < limit,
        ranks_prefix(scores, i, limit, old_order),
        forall|j: int| 0 <= j < p ==> rank_value(scores[#[trigger] old_order[j] as int]) >= rank_value(scores[i]),
        forall|j: int|
            p <= j < old_order.len() ==> rank_value(scores[#[trigger] old_order[j] as int]) < rank_value(
                scores[i],
            ),
        new_order.len() == (if old_order.len() < limit {
            old_order.len() + 1
        } else {
            old_order.len()
        }),
        forall|j: int| 0 <= j < p ==> new_order[j] == old_order[j],
        new_order[p] == i,
        forall|j: int| p < j < new_order.len() ==> new_order[j] == old_order[j - 1],
    ensures
        ranks_prefix(scores, i + 1, limit, new_order),
{
    assert forall|j: int, k: int| 0 <= j < k < new_order.len() implies ranked_before(
        scores,
        #[trigger] new_order[j] as int,
        #[trigger] new_order[k] as int,
    ) by {
        if k < p {
            assert(ranked_before(scores, old_order[j] as int, old_order[k] as int));
        } else if k == p {
            assert(old_order[j] < i);
        } else if j < p {
            assert(ranked_before(scores, old_order[j] as int, old_order[k - 1] as int));
        } else if j == p {
            assert(rank_value(scores[old_order[k - 1] as int]) < rank_value(scores[i]));
        } else {
            assert(ranked_before(scores, old_order[j - 1] as int, old_order[k - 1] as int));
        }
    }
    assert forall|x: int| 0 <= x < i + 1 && !#[trigger] listed(new_order, x) implies new_order.len()
        == limit by {
        assert(new_order[p] == i);
        if listed(old_order, x) {
            let jx = choose|jx: int| 0 <= jx < old_order.len() && old_order[jx] == x;
            if jx < p {
                assert(new_order[jx] == x);
            } else if jx + 1 < new_order.len() {
                assert(new_order[jx + 1] == x);
            }
        }
    }
    assert forall|x: int, j: int|
        #![trigger new_order[j], listed(new_order, x)]
        0 <= x < i + 1 && 0 <= j < new_order.len() && !listed(new_order, x) implies ranked_before(
        scores,
        new_order[j] as int,
        x,
    ) by {
        // `x` is not `i`, which is listed at `p`.
        assert(new_order[p] == i);
        assert(x != i);
        if listed(old_order, x) {
            // `x` was listed and is no longer: it was the last entry, and the
            // order was full.
            let jx = choose|jx: int| 0 <= jx < old_order.len() && old_order[jx] == x;
            if jx < p {
                assert(new_order[jx] == x);
            } else if jx + 1 < new_order.len() {
                assert(new_order[jx + 1] == x);
            }
            assert(jx == old_order.len() - 1 && jx >= p);
            assert(rank_value(scores[x]) < rank_value(scores[i]));
            if j < p {
                if j != jx {
                    assert(ranked_before(scores, old_order[j] as int, old_order[jx] as int));
                }
            } else if j > p {
                assert(ranked_before(scores, old_order[j - 1] as int, old_order[jx] as int));
            }
        } else {
            // `x` was left out before, so the order was full then.
            if old_order.len() > 0 {
                let last = old_order.len() - 1;
                assert(ranked_before(scores, old_order[last] as int, x));
                if j < p {
                    assert(ranked_before(scores, old_order[j] as int, x));
                } else if j > p {
                    assert(ranked_before(scores, old_order[j - 1] as int, x));
                } else {
                    assert(rank_value(scores[old_order[last] as int]) < rank_value(scores[i]));
                }
            }
        }
    }
}

} // verus!
