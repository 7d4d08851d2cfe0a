//! The order of the rating history: highest score first, and among equal
//! scores what came first stays first.

use vstd::prelude::*;
use vstd::seq_lib::lemma_multiset_commutative;
use crate::distribution::{distribution_of, lemma_distribution_of_permutation};
use crate::rating::{all_in_range, ratings_view, Rating, RatingView, MAX_RATING, MIN_RATING};

verus! {

/// The ratings that gave the score `value`, in their order.
pub open spec fn with_score(ratings: Seq<RatingView>, value: nat) -> Seq<RatingView> {
    ratings.filter(|r: RatingView| r.value == value)
}

/// The ratings with a score from `lowest` to 10: those with the highest
/// score first, those with the score `lowest` last.
pub open spec fn descending_from(ratings: Seq<RatingView>, lowest: nat) -> Seq<RatingView>
    decreases MAX_RATING + 1 - lowest,
{
    if lowest > MAX_RATING {
        Seq::empty()
    } else {
        descending_from(ratings, lowest + 1) + with_score(ratings, lowest)
    }
}

/// The ratings ordered by score, highest first; ratings with the same score
/// keep their order.
pub open spec fn descending(ratings: Seq<RatingView>) -> Seq<RatingView> {
    descending_from(ratings, MIN_RATING as nat)
}

/// No score rises from one rating to the next.
pub open spec fn is_descending(ratings: Seq<RatingView>) -> bool {
    forall|i: int, j: int|
        0 <= i <= j < ratings.len() ==> (#[trigger] ratings[i]).value >= (#[trigger] ratings[j]).value
}

/// Each rating of `descending_from(ratings, lowest)` has a score from
/// `lowest` to 10.
proof fn lemma_descending_from_scores(ratings: Seq<RatingView>, lowest: nat, i: int)
    requires
        0 <= i < descending_from(ratings, lowest).len(),
    ensures
        lowest <= descending_from(ratings, lowest)[i].value <= MAX_RATING,
    decreases MAX_RATING + 1 - lowest,
{
    if lowest <= MAX_RATING {
        let higher = descending_from(ratings, lowest + 1);
        if i < higher.len() {
            lemma_descending_from_scores(ratings, lowest + 1, i);
        }
    }
}

/// In `descending_from` no score rises.
proof fn lemma_descending_from_sorted(ratings: Seq<RatingView>, lowest: nat)
    ensures
        is_descending(descending_from(ratings, lowest)),
    decreases MAX_RATING + 1 - lowest,
{
    let sorted = descending_from(ratings, lowest);
    if lowest <= MAX_RATING {
        let higher = descending_from(ratings, lowest + 1);
        lemma_descending_from_sorted(ratings, lowest + 1);
        assert forall|i: int, j: int| 0 <= i <= j < sorted.len() implies (#[trigger] sorted[i]).value
            >= (#[trigger] sorted[j]).value by {
            if i < higher.len() <= j {
                lemma_descending_from_scores(ratings, lowest + 1, i);
            }
        }
    }
}

/// Every score of `descending(ratings)` lies in `1..=10`.
pub proof fn lemma_descending_in_range(ratings: Seq<RatingView>)
    ensures
        all_in_range(descending(ratings)),
{
    assert forall|i: int| 0 <= i < descending(ratings).len() implies (#[trigger] descending(
        ratings,
    )[i]).in_range() by {
        lemma_descending_from_scores(ratings, MIN_RATING as nat, i);
    }
}

/// The law of the order: in `descending(ratings)` no score rises.
pub proof fn lemma_descending_sorted(ratings: Seq<RatingView>)
    ensures
        is_descending(descending(ratings)),
{
    lemma_descending_from_sorted(ratings, MIN_RATING as nat);
}

/// One more rating at the end joins the ratings of its score, at their end.
proof fn lemma_descending_from_push(ratings: Seq<RatingView>, r: RatingView, lowest: nat)
    requires
        r.in_range(),
    ensures
        descending_from(ratings.push(r), lowest).to_multiset() == if lowest <= r.value {
            descending_from(ratings, lowest).to_multiset().insert(r)
        } else {
            descending_from(ratings, lowest).to_multiset()
        },
    decreases MAX_RATING + 1 - lowest,
{
    broadcast use vstd::seq_lib::group_to_multiset_ensures;

    if lowest <= MAX_RATING {
        let same = |x: RatingView| x.value == lowest;
        lemma_descending_from_push(ratings, r, lowest + 1);
        ratings.lemma_filter_push(r, same);
        lemma_multiset_commutative(descending_from(ratings, lowest + 1), with_score(ratings, lowest));
        lemma_multiset_commutative(
            descending_from(ratings.push(r), lowest + 1),
            with_score(ratings.push(r), lowest),
        );
    }
}

/// The law of the order: `descending(ratings)` holds the ratings of
/// `ratings`, each as often as `ratings` does.
pub proof fn lemma_descending_permutes(ratings: Seq<RatingView>)
    requires
        all_in_range(ratings),
    ensures
        descending(ratings).to_multiset() == ratings.to_multiset(),
        descending(ratings).len() == ratings.len(),
    decreases ratings.len(),
{
    broadcast use vstd::seq_lib::group_to_multiset_ensures;

    if ratings.len() == 0 {
        lemma_descending_from_empty(MIN_RATING as nat);
        assert(ratings =~= Seq::empty());
    } else {
        let rest = ratings.drop_last();
        let r = ratings.last();
        assert(ratings =~= rest.push(r));
        lemma_descending_permutes(rest);
        lemma_descending_from_push(rest, r, MIN_RATING as nat);
    }
    descending(ratings).to_multiset_ensures();
}

/// Without ratings there is nothing to order.
proof fn lemma_descending_from_empty(lowest: nat)
    ensures
        descending_from(Seq::empty(), lowest) == Seq::<RatingView>::empty(),
    decreases MAX_RATING + 1 - lowest,
{
    if lowest <= MAX_RATING {
        lemma_descending_from_empty(lowest + 1);
    }
}

/// The ratings of one score among `descending_from(ratings, lowest)`.
proof fn lemma_descending_from_with_score(ratings: Seq<RatingView>, lowest: nat, value: nat)
    ensures
        with_score(descending_from(ratings, lowest), value) == if lowest <= value <= MAX_RATING {
            with_score(ratings, value)
        } else {
            Seq::empty()
        },
    decreases MAX_RATING + 1 - lowest,
{
    let picked = |r: RatingView| r.value == value;
    if lowest <= MAX_RATING {
        let same = |r: RatingView| r.value == lowest;
        let higher = descending_from(ratings, lowest + 1);
        lemma_descending_from_with_score(ratings, lowest + 1, value);
        Seq::filter_distributes_over_add(higher, with_score(ratings, lowest), picked);
        lemma_filter_twice(ratings, lowest, value);
    }
}

/// Among the ratings of one score, those of a score are all or none.
proof fn lemma_filter_twice(ratings: Seq<RatingView>, first: nat, second: nat)
    ensures
        with_score(with_score(ratings, first), second) == if first == second {
            with_score(ratings, first)
        } else {
            Seq::empty()
        },
    decreases ratings.len(),
{
    reveal(Seq::filter);
    let one = |r: RatingView| r.value == first;
    let two = |r: RatingView| r.value == second;
    if ratings.len() > 0 {
        let rest = ratings.drop_last();
        lemma_filter_twice(rest, first, second);
        if one(ratings.last()) {
            rest.filter(one).lemma_filter_push(ratings.last(), two);
        }
    }
}

/// The law of the order: it is stable. The ratings of each score stand in
/// `descending(ratings)` in the order in which they stand in `ratings`.
pub proof fn lemma_descending_stable(ratings: Seq<RatingView>, value: nat)
    requires
        MIN_RATING <= value <= MAX_RATING,
    ensures
        with_score(descending(ratings), value) == with_score(ratings, value),
{
    lemma_descending_from_with_score(ratings, MIN_RATING as nat, value);
}

/// The law of the order: ordering the ratings leaves their histogram as it
/// is.
pub proof fn lemma_descending_keeps_distribution(ratings: Seq<RatingView>)
    requires
        all_in_range(ratings),
    ensures
        distribution_of(descending(ratings)) == distribution_of(ratings),
{
    lemma_descending_permutes(ratings);
    lemma_distribution_of_permutation(descending(ratings), ratings);
}

/// Orders the ratings by score, highest first. Ratings with the same score
/// keep their order.
pub fn sort_descending(ratings: &Vec<Rating>) -> (sorted: Vec<Rating>)
    ensures
        ratings_view(sorted@) == descending(ratings_view(ratings@)),
        is_descending(ratings_view(sorted@)),
        all_in_range(ratings_view(sorted@)),
        sorted.len() == ratings.len(),
{
    let ghost given = ratings_view(ratings@);
    let mut sorted: Vec<Rating> = Vec::new();
    let mut value: usize = MAX_RATING;
    while value >= MIN_RATING
        invariant
            MIN_RATING - 1 <= value <= MAX_RATING,
            given == ratings_view(ratings@),
            ratings_view(sorted@) == descending_from(given, (value + 1) as nat),
            value < MAX_RATING ==> all_in_range(given),
        decreases value,
    {
        let ghost same = |r: RatingView| r.value == value as nat;
        let ghost higher = ratings_view(sorted@);
        let mut i: usize = 0;
        while i < ratings.len()
            invariant
                i <= ratings.len(),
                given == ratings_view(ratings@),
                same == |r: RatingView| r.value == value as nat,
                ratings_view(sorted@) == higher + given.take(i as int).filter(same),
                forall|k: int| 0 <= k < i ==> (#[trigger] given[k]).in_range(),
            decreases ratings.len() - i,
        {
            let rating = &ratings[i];
            let ghost before = ratings_view(sorted@);
            proof {
                assert(given.take(i + 1) =~= given.take(i as int).push(rating@));
                given.take(i as int).lemma_filter_push(rating@, same);
            }
            if rating.rating() == value {
                sorted.push(rating.clone());
                assert(ratings_view(sorted@) =~= before.push(rating@));
            }
            i += 1;
        }
        assert(given.take(ratings.len() as int) =~= given);
        value -= 1;
    }
    proof {
        lemma_descending_sorted(given);
        lemma_descending_in_range(given);
        lemma_descending_permutes(given);
    }
    sorted
}

} // verus!
