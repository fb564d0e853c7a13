//! How many cards of a session were remembered at the first try.

use std::collections::HashSet;

use vstd::prelude::*;

use crate::cmd::drill::post::Review;
use crate::types::card::content_hash;
use crate::types::card::CardView;
use crate::types::card::Grade;

verus! {

broadcast use vstd::std_specs::hash::group_hash_axioms;

/// The values of a sequence of reviews.
pub open spec fn review_views(rs: Seq<Review>) -> Seq<(CardView, Grade)> {
    rs.map_values(|r: Review| (r.card@, r.grade))
}

/// The hash of the card of a review.
pub open spec fn review_hash(r: (CardView, Grade)) -> u64 {
    content_hash(r.0.content).value
}

/// Is the card of the `i`-th review reviewed before it?
pub open spec fn seen_before(rs: Seq<(CardView, Grade)>, i: int) -> bool {
    exists|j: int| 0 <= j < i && #[trigger] review_hash(rs[j]) == review_hash(rs[i])
}

/// The hashes of the cards of the reviews.
pub open spec fn seen_hashes(rs: Seq<(CardView, Grade)>) -> Set<u64> {
    Set::new(|h: u64| exists|j: int| 0 <= j < rs.len() && #[trigger] review_hash(rs[j]) == h)
}

/// The number of cards remembered at their first review, and the number of
/// cards reviewed: a card's later reviews do not count.
pub open spec fn retention_counts_of(rs: Seq<(CardView, Grade)>) -> (nat, nat)
    decreases rs.len(),
{
    if rs.len() == 0 {
        (0, 0)
    } else {
        let (r, t) = retention_counts_of(rs.drop_last());
        if seen_before(rs, rs.len() - 1) {
            (r, t)
        } else if rs.last().1 == Grade::Forgot {
            (r, t + 1)
        } else {
            (r + 1, t + 1)
        }
    }
}

/// The first reviews that were not `Forgot`, and the cards reviewed: the
/// retention rate of the session is the one over the other (`0` when no
/// card was reviewed).
pub fn retention_counts(reviews: &[Review]) -> (r: (usize, usize))
    ensures
        (r.0 as nat, r.1 as nat) == retention_counts_of(review_views(reviews@)),
        r.0 <= r.1 <= reviews@.len(),
{
    let ghost rv = review_views(reviews@);
    let mut seen: HashSet<u64> = HashSet::new();
    let mut total: usize = 0;
    let mut remembered: usize = 0;
    let mut i: usize = 0;
    assert(rv.take(0) =~= Seq::<(CardView, Grade)>::empty());
    assert(seen@ =~= seen_hashes(rv.take(0)));
    while i < reviews.len()
        invariant
            i <= reviews@.len(),
            rv == review_views(reviews@),
            seen@ == seen_hashes(rv.take(i as int)),
            (remembered as nat, total as nat) == retention_counts_of(rv.take(i as int)),
            remembered <= total <= i,
        decreases reviews.len() - i,
    {
        let ghost pre = rv.take(i as int);
        let ghost cur = rv.take(i + 1);
        proof {
            assert(cur.drop_last() =~= pre);
            assert(cur.last() == rv[i as int]);
            assert(rv[i as int] == (reviews@[i as int].card@, reviews@[i as int].grade));
        }
        let h = reviews[i].card.hash();
        assert(h.value == review_hash(rv[i as int]));
        let fresh = seen.insert(h.value);
        proof {
            assert(seen_before(cur, i as int) == !fresh) by {
                if fresh {
                    assert forall|j: int| 0 <= j < i implies #[trigger] review_hash(cur[j]) != review_hash(cur[i as int]) by {
                        assert(cur[j] == pre[j]);
                    }
                } else {
                    let j = choose|j: int| 0 <= j < pre.len() && #[trigger] review_hash(pre[j]) == h.value;
                    assert(cur[j] == pre[j]);
                }
            }
            assert forall|x: u64| seen@.contains(x) <==> seen_hashes(cur).contains(x) by {
                if seen@.contains(x) && x != h.value {
                    let j = choose|j: int| 0 <= j < pre.len() && #[trigger] review_hash(pre[j]) == x;
                    assert(cur[j] == pre[j]);
                }
                if seen_hashes(cur).contains(x) {
                    let j = choose|j: int| 0 <= j < cur.len() && #[trigger] review_hash(cur[j]) == x;
                    if j < i {
                        assert(cur[j] == pre[j]);
                    }
                }
            }
            assert(seen@ =~= seen_hashes(cur));
        }
        if fresh {
            total = total + 1;
            if reviews[i].grade != Grade::Forgot {
                remembered = remembered + 1;
            }
        }
        i = i + 1;
    }
    assert(rv.take(rv.len() as int) =~= rv);
    (remembered, total)
}

} // verus!
