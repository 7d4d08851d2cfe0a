//! How often each score was given, and how strongly a score shows in the
//! histogram.

use vstd::prelude::*;
use crate::rating::{all_in_range, ratings_view, Rating, RatingView, MAX_RATING, MIN_RATING};

verus! {

/// The number of scores, and of histogram buckets.
pub const BUCKETS: usize = 10;

/// The intensity of a score that every rating gave.
pub const FULL_INTENSITY: usize = 255;

/// How many of the ratings gave the score `value`.
pub open spec fn occurrences(ratings: Seq<RatingView>, value: nat) -> nat {
    ratings.filter(|r: RatingView| r.value == value).len()
}

/// The histogram of the ratings: bucket `i` counts the score `i + 1`.
pub open spec fn distribution_of(ratings: Seq<RatingView>) -> Seq<nat> {
    Seq::new(BUCKETS as nat, |i: int| occurrences(ratings, (i + 1) as nat))
}

/// The sum of the counts.
pub open spec fn total_of(counts: Seq<nat>) -> nat
    decreases counts.len(),
{
    if counts.len() == 0 {
        0
    } else {
        total_of(counts.drop_last()) + counts.last()
    }
}

/// The intensity, from 0 to 255, of a score given `count` times among
/// `total` ratings: 255 times the square root of the frequency
/// `count / total`, rounded down. It is the one `a` with
/// `(a / 255)^2 <= count / total < ((a + 1) / 255)^2`, and 0 where there
/// are no ratings at all.
pub open spec fn intensity(count: nat, total: nat) -> nat {
    if total == 0 {
        0
    } else {
        choose|a: nat| is_intensity(a, count, total)
    }
}

/// `a` is 255 times the square root of `count / total`, rounded down.
pub open spec fn is_intensity(a: nat, count: nat, total: nat) -> bool {
    a * a * total <= FULL_INTENSITY * FULL_INTENSITY * count < (a + 1) * (a + 1) * total
}

/// The intensities of the ten scores of a histogram.
pub open spec fn intensities_of(counts: Seq<nat>) -> Seq<nat> {
    counts.map_values(|count: nat| intensity(count, total_of(counts)))
}

/// The histogram of a rating history: how often each score from 1 to 10 was
/// given. The frequency of a score is its count over the total.
pub struct RatingDistribution {
    counts: [usize; 10],
    total: usize,
}

impl View for RatingDistribution {
    type V = Seq<nat>;

    closed spec fn view(&self) -> Seq<nat> {
        self.counts@.map_values(|count: usize| count as nat)
    }
}

impl RatingDistribution {
    #[verifier::type_invariant]
    spec fn counts_add_up(self) -> bool {
        total_of(self@) == self.total
    }

    /// The histogram has a bucket for each of the ten scores.
    pub proof fn lemma_buckets(self)
        ensures
            self@.len() == BUCKETS,
    {
    }

    /// How many ratings the histogram counts.
    pub fn total(&self) -> (total: usize)
        ensures
            total == total_of(self@),
            self@.len() == BUCKETS,
    {
        proof {
            use_type_invariant(self);
        }
        self.total
    }

    /// How many ratings gave the score `value`; none gave a score outside
    /// `1..=10`.
    pub fn count(&self, value: usize) -> (count: usize)
        ensures
            self@.len() == BUCKETS,
            count == if MIN_RATING <= value <= MAX_RATING {
                self@[value - 1]
            } else {
                0
            },
    {
        if MIN_RATING <= value && value <= MAX_RATING {
            self.counts[value - 1]
        } else {
            0
        }
    }

    /// How strongly the score `value` shows in the histogram, from 0 to 255:
    /// 255 times the square root of its frequency, rounded down. A score
    /// outside `1..=10` does not show.
    pub fn intensity(&self, value: usize) -> (a: usize)
        ensures
            self@.len() == BUCKETS,
            a <= FULL_INTENSITY,
            a == if MIN_RATING <= value <= MAX_RATING {
                intensity(self@[value - 1], total_of(self@))
            } else {
                0
            },
    {
        proof {
            use_type_invariant(self);
        }
        if MIN_RATING <= value && value <= MAX_RATING {
            proof {
                lemma_count_within_total(self@, value - 1);
            }
            root_intensity(self.counts[value - 1], self.total)
        } else {
            0
        }
    }
}

/// The histogram with every bucket empty.
pub open spec fn empty_distribution() -> Seq<nat> {
    Seq::new(BUCKETS as nat, |i: int| 0nat)
}

/// Counts how often each score was given. The counts add up to the number
/// of ratings, so the frequencies add up to one; without ratings every
/// bucket is empty.
pub fn compute_distribution(ratings: &Vec<Rating>) -> (dist: RatingDistribution)
    ensures
        dist@ == distribution_of(ratings_view(ratings@)),
        total_of(dist@) == ratings.len(),
        ratings.len() == 0 ==> dist@ == empty_distribution(),
        all_in_range(ratings_view(ratings@)),
{
    let mut counts: [usize; 10] = [0; 10];
    let ghost given = ratings_view(ratings@);
    proof {
        lemma_total_of_zeros(distribution_of(given.take(0)));
    }
    let mut i: usize = 0;
    while i < ratings.len()
        invariant
            i <= ratings.len(),
            given == ratings_view(ratings@),
            counts@.map_values(|count: usize| count as nat) == distribution_of(given.take(i as int)),
            total_of(distribution_of(given.take(i as int))) == i,
            forall|k: int| 0 <= k < i ==> (#[trigger] given[k]).in_range(),
        decreases ratings.len() - i,
    {
        let value: usize = ratings[i].rating();
        let ghost before = distribution_of(given.take(i as int));
        proof {
            assert(given.take(i + 1) =~= given.take(i as int).push(ratings[i as int]@));
            lemma_distribution_of_push(given.take(i as int), ratings[i as int]@);
            lemma_total_of_update(before, value - 1);
        }
        counts[value - 1] = counts[value - 1] + 1;
        i += 1;
    }
    assert(given.take(ratings.len() as int) =~= given);
    RatingDistribution { counts, total: ratings.len() }
}

/// 255 times the square root of `count / total`, rounded down.
fn root_intensity(count: usize, total: usize) -> (a: usize)
    requires
        count <= total,
    ensures
        a == intensity(count as nat, total as nat),
        a <= FULL_INTENSITY,
{
    if total == 0 {
        return 0;
    }
    let scaled: u128 = (FULL_INTENSITY as u128) * (FULL_INTENSITY as u128) * (count as u128);
    let mut a: usize = 0;
    loop
        invariant_except_break
            a <= FULL_INTENSITY,
            a * a * total <= scaled,
        invariant
            total > 0,
            count <= total,
            scaled == FULL_INTENSITY * FULL_INTENSITY * count,
        ensures
            a <= FULL_INTENSITY,
            is_intensity(a as nat, count as nat, total as nat),
        decreases FULL_INTENSITY - a,
    {
        if a == FULL_INTENSITY {
            break;
        }
        let next: u128 = (a + 1) as u128;
        assert(next * next <= 65536) by (nonlinear_arith)
            requires
                next <= 256,
        ;
        assert(next * next * total <= 65536 * 0x1_0000_0000_0000_0000) by (nonlinear_arith)
            requires
                next * next <= 65536,
                total < 0x1_0000_0000_0000_0000,
        ;
        if next * next * (total as u128) > scaled {
            break;
        }
        a += 1;
    }
    proof {
        lemma_intensity_is(a as nat, count as nat, total as nat);
    }
    a
}

/// Raising one count by one raises the sum by one.
proof fn lemma_total_of_update(counts: Seq<nat>, i: int)
    requires
        0 <= i < counts.len(),
    ensures
        total_of(counts.update(i, counts[i] + 1)) == total_of(counts) + 1,
    decreases counts.len(),
{
    let raised = counts.update(i, counts[i] + 1);
    if i == counts.len() - 1 {
        assert(raised.drop_last() =~= counts.drop_last());
    } else {
        assert(raised.drop_last() =~= counts.drop_last().update(i, counts[i] + 1));
        lemma_total_of_update(counts.drop_last(), i);
    }
}

/// No count is larger than the sum.
pub proof fn lemma_count_within_total(counts: Seq<nat>, i: int)
    requires
        0 <= i < counts.len(),
    ensures
        counts[i] <= total_of(counts),
    decreases counts.len(),
{
    if i < counts.len() - 1 {
        lemma_count_within_total(counts.drop_last(), i);
    }
}

/// Counts that are all zero sum to zero.
proof fn lemma_total_of_zeros(counts: Seq<nat>)
    requires
        forall|i: int| 0 <= i < counts.len() ==> counts[i] == 0,
    ensures
        total_of(counts) == 0,
    decreases counts.len(),
{
    if counts.len() > 0 {
        lemma_total_of_zeros(counts.drop_last());
    }
}

/// The histogram after one more rating: the bucket of its score is one
/// higher.
proof fn lemma_distribution_of_push(ratings: Seq<RatingView>, r: RatingView)
    requires
        r.in_range(),
    ensures
        distribution_of(ratings.push(r)) == distribution_of(ratings).update(
            r.value - 1,
            distribution_of(ratings)[r.value - 1] + 1,
        ),
{
    let before = distribution_of(ratings);
    let after = distribution_of(ratings.push(r));
    assert forall|i: int| 0 <= i < BUCKETS implies after[i] == before.update(
        r.value - 1,
        before[r.value - 1] + 1,
    )[i] by {
        let same = |x: RatingView| x.value == (i + 1) as nat;
        ratings.lemma_filter_push(r, same);
    }
}

/// The frequencies of a histogram add up to one: the counts of the ten
/// scores add up to the number of ratings.
pub proof fn lemma_distribution_total(ratings: Seq<RatingView>)
    requires
        all_in_range(ratings),
    ensures
        total_of(distribution_of(ratings)) == ratings.len(),
    decreases ratings.len(),
{
    if ratings.len() == 0 {
        lemma_total_of_zeros(distribution_of(ratings));
    } else {
        let rest = ratings.drop_last();
        let r = ratings.last();
        assert(ratings =~= rest.push(r));
        lemma_distribution_total(rest);
        lemma_distribution_of_push(rest, r);
        lemma_total_of_update(distribution_of(rest), r.value - 1);
    }
}

/// The scores of the ratings, in their order.
pub open spec fn scores_of(ratings: Seq<RatingView>) -> Seq<nat> {
    ratings.map_values(|r: RatingView| r.value)
}

/// A score is counted as often as it stands among the scores.
proof fn lemma_occurrences_count(ratings: Seq<RatingView>, value: nat)
    ensures
        occurrences(ratings, value) == scores_of(ratings).to_multiset().count(value),
    decreases ratings.len(),
{
    broadcast use vstd::seq_lib::group_to_multiset_ensures;

    let same = |r: RatingView| r.value == value;
    if ratings.len() == 0 {
        assert(scores_of(ratings) =~= Seq::empty());
        assert(ratings.filter(same) =~= Seq::empty()) by {
            reveal(Seq::filter);
        }
    } else {
        let rest = ratings.drop_last();
        let r = ratings.last();
        assert(ratings =~= rest.push(r));
        lemma_occurrences_count(rest, value);
        rest.lemma_filter_push(r, same);
        assert(scores_of(ratings) =~= scores_of(rest).push(r.value));
    }
}

/// The histogram depends only on how often each score was given: two
/// rating histories with the same scores, in whatever order and for
/// whatever identifiers, have the same histogram.
pub proof fn lemma_distribution_of_scores(first: Seq<RatingView>, second: Seq<RatingView>)
    requires
        scores_of(first).to_multiset() == scores_of(second).to_multiset(),
    ensures
        distribution_of(first) == distribution_of(second),
{
    assert forall|i: int| 0 <= i < BUCKETS implies distribution_of(first)[i] == distribution_of(
        second,
    )[i] by {
        lemma_occurrences_count(first, (i + 1) as nat);
        lemma_occurrences_count(second, (i + 1) as nat);
    }
}

/// A score is counted as often as ratings with it stand among the ratings.
proof fn lemma_occurrences_multiset(ratings: Seq<RatingView>, value: nat)
    ensures
        occurrences(ratings, value) == ratings.to_multiset().filter(
            |r: RatingView| r.value == value,
        ).len(),
    decreases ratings.len(),
{
    broadcast use vstd::seq_lib::group_to_multiset_ensures;
    broadcast use vstd::multiset::group_multiset_axioms;

    let same = |r: RatingView| r.value == value;
    if ratings.len() == 0 {
        assert(ratings.filter(same) =~= Seq::empty()) by {
            reveal(Seq::filter);
        }
        assert(ratings.to_multiset().filter(same) =~= vstd::multiset::Multiset::empty());
    } else {
        let rest = ratings.drop_last();
        let r = ratings.last();
        assert(ratings =~= rest.push(r));
        lemma_occurrences_multiset(rest, value);
        rest.lemma_filter_push(r, same);
        if same(r) {
            assert(ratings.to_multiset().filter(same) =~= rest.to_multiset().filter(same).insert(r));
        } else {
            assert(ratings.to_multiset().filter(same) =~= rest.to_multiset().filter(same));
        }
    }
}

/// The histogram does not depend on the order of the ratings: two rating
/// histories that hold the same ratings, each as often, have the same
/// histogram.
pub proof fn lemma_distribution_of_permutation(first: Seq<RatingView>, second: Seq<RatingView>)
    requires
        first.to_multiset() == second.to_multiset(),
    ensures
        distribution_of(first) == distribution_of(second),
{
    assert forall|i: int| 0 <= i < BUCKETS implies distribution_of(first)[i] == distribution_of(
        second,
    )[i] by {
        lemma_occurrences_multiset(first, (i + 1) as nat);
        lemma_occurrences_multiset(second, (i + 1) as nat);
    }
}

/// Without ratings every bucket is empty.
pub proof fn lemma_distribution_of_empty()
    ensures
        distribution_of(Seq::empty()) == empty_distribution(),
        intensities_of(empty_distribution()) == empty_distribution(),
{
    lemma_total_of_zeros(empty_distribution());
}

/// The square root of every number has an integer part.
proof fn lemma_integer_root_exists(n: nat) -> (r: nat)
    ensures
        r * r <= n < (r + 1) * (r + 1),
    decreases n,
{
    if n == 0 {
        assert(0 * 0 <= n < (0 + 1) * (0 + 1)) by (nonlinear_arith)
            requires
                n == 0,
        ;
        0
    } else {
        let below = lemma_integer_root_exists((n - 1) as nat);
        let above = below + 1;
        if above * above <= n {
            assert((above + 1) * (above + 1) > above * above) by (nonlinear_arith);
            above
        } else {
            below
        }
    }
}

/// Where there are ratings, some number is the intensity.
pub proof fn lemma_intensity_exists(count: nat, total: nat) -> (a: nat)
    requires
        total > 0,
    ensures
        is_intensity(a, count, total),
{
    let scaled = FULL_INTENSITY * FULL_INTENSITY * count;
    let whole = (scaled / total as int) as nat;
    let a = lemma_integer_root_exists(whole);
    vstd::arithmetic::div_mod::lemma_fundamental_div_mod(scaled as int, total as int);
    assert(a * a * total <= scaled) by (nonlinear_arith)
        requires
            a * a <= whole,
            total * whole <= scaled,
    ;
    assert(total * (whole + 1) == total * whole + total) by (nonlinear_arith);
    assert(scaled < (a + 1) * (a + 1) * total) by (nonlinear_arith)
        requires
            whole + 1 <= (a + 1) * (a + 1),
            scaled < total * (whole + 1),
            total > 0,
    ;
    a
}

/// Only one number is the intensity.
pub proof fn lemma_intensity_unique(a: nat, b: nat, count: nat, total: nat)
    requires
        total > 0,
        is_intensity(a, count, total),
        is_intensity(b, count, total),
    ensures
        a == b,
{
    lemma_intensity_ordered(a, count, total, b, count, total);
    lemma_intensity_ordered(b, count, total, a, count, total);
}

/// The intensity grows with the frequency: where `count1 / total1` is at
/// most `count2 / total2`, an intensity of the first is at most one of the
/// second.
proof fn lemma_intensity_ordered(
    a1: nat,
    count1: nat,
    total1: nat,
    a2: nat,
    count2: nat,
    total2: nat,
)
    requires
        total1 > 0,
        total2 > 0,
        count1 * total2 <= count2 * total1,
        is_intensity(a1, count1, total1),
        is_intensity(a2, count2, total2),
    ensures
        a1 <= a2,
{
    if a1 > a2 {
        let full = (FULL_INTENSITY * FULL_INTENSITY) as int;
        let low = (a1 * a1) as int;
        let high = ((a2 + 1) * (a2 + 1)) as int;
        let (c1, t1, c2, t2) = (count1 as int, total1 as int, count2 as int, total2 as int);
        assert(high <= low) by (nonlinear_arith)
            requires
                a1 >= a2 + 1,
                low == a1 * a1,
                high == (a2 + 1) * (a2 + 1),
        ;
        assert((low * t1) * t2 <= (full * c1) * t2) by (nonlinear_arith)
            requires
                low * t1 <= full * c1,
                t2 > 0,
        ;
        assert((full * c1) * t2 <= (full * c2) * t1) by (nonlinear_arith)
            requires
                c1 * t2 <= c2 * t1,
                full >= 0,
        ;
        assert((full * c2) * t1 < (high * t2) * t1) by (nonlinear_arith)
            requires
                full * c2 < high * t2,
                t1 > 0,
        ;
        assert((high * t2) * t1 <= (low * t1) * t2) by (nonlinear_arith)
            requires
                high <= low,
                t1 > 0,
                t2 > 0,
        ;
    }
}

/// The number that fits is the intensity.
pub proof fn lemma_intensity_is(a: nat, count: nat, total: nat)
    requires
        total > 0,
        is_intensity(a, count, total),
    ensures
        intensity(count, total) == a,
{
    lemma_intensity_unique(a, intensity(count, total), count, total);
}

/// The intensity grows with the frequency: a score that is given at most
/// as often as another, in proportion, shows at most as strongly.
pub proof fn lemma_intensity_monotone(count1: nat, total1: nat, count2: nat, total2: nat)
    requires
        total1 > 0,
        total2 > 0,
        count1 * total2 <= count2 * total1,
    ensures
        intensity(count1, total1) <= intensity(count2, total2),
{
    let a1 = lemma_intensity_exists(count1, total1);
    let a2 = lemma_intensity_exists(count2, total2);
    lemma_intensity_is(a1, count1, total1);
    lemma_intensity_is(a2, count2, total2);
    lemma_intensity_ordered(a1, count1, total1, a2, count2, total2);
}

/// The intensity runs from 0, for a score never given, to 255, for a
/// score that every rating gave.
pub proof fn lemma_intensity_bounds(count: nat, total: nat)
    requires
        count <= total,
    ensures
        intensity(count, total) <= FULL_INTENSITY,
        intensity(0, total) == 0,
        total > 0 ==> intensity(total, total) == FULL_INTENSITY,
{
    if total > 0 {
        assert(is_intensity(0, 0, total)) by (nonlinear_arith)
            requires
                total > 0,
        ;
        lemma_intensity_is(0, 0, total);
        assert(is_intensity(FULL_INTENSITY as nat, total, total)) by (nonlinear_arith)
            requires
                total > 0,
        ;
        lemma_intensity_is(FULL_INTENSITY as nat, total, total);
        assert(count * total <= total * total) by (nonlinear_arith)
            requires
                count <= total,
        ;
        lemma_intensity_monotone(count, total, total, total);
    }
}

} // verus!
