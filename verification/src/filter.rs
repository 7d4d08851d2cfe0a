//! The rating filter of a request: a comma-separated list of scores, of
//! which the tokens that do not write a score from 1 to 10 are dropped.

use vstd::prelude::*;
use crate::rating::{chars_of, parse_rating_chars, rating_value, MAX_RATING, MIN_RATING};

verus! {

/// The parameters of a request.
pub struct Filter {
    /// The scores to show, separated by commas; all of them where absent.
    pub rating: Option<String>,
}

impl View for Filter {
    type V = Option<Seq<char>>;

    open spec fn view(&self) -> Option<Seq<char>> {
        match self.rating {
            Some(text) => Some(text@),
            None => None,
        }
    }
}

/// `text[from..to]` is one of the tokens that the commas of `text` part:
/// it holds no comma, starts at the start of the text or behind a comma,
/// and ends at the end of the text or before a comma.
pub open spec fn is_token(text: Seq<char>, from: int, to: int) -> bool {
    &&& 0 <= from <= to <= text.len()
    &&& (from == 0 || text[from - 1] == ',')
    &&& (to == text.len() || text[to] == ',')
    &&& forall|k: int| from <= k < to ==> text[k] != ','
}

/// Some token of `text` writes the score `value`.
pub open spec fn names_score(text: Seq<char>, value: nat) -> bool {
    exists|from: int, to: int|
        #[trigger] is_token(text, from, to) && rating_value(text.subrange(from, to)) == Some(value)
}

/// The scores that the tokens of `text` write.
pub open spec fn filter_values(text: Seq<char>) -> Set<nat> {
    Set::new(|value: nat| names_score(text, value))
}

/// Some token of `text` that ends before `limit` writes the score `value`.
spec fn names_score_before(text: Seq<char>, value: nat, limit: int) -> bool {
    exists|from: int, to: int|
        #[trigger] is_token(text, from, to) && to < limit && rating_value(text.subrange(from, to))
            == Some(value)
}

/// The scores that a request asks for: those that the tokens of its
/// parameter write, and none where it has no parameter.
pub open spec fn requested_scores(rating: Option<Seq<char>>) -> Set<nat> {
    match rating {
        Some(text) => filter_values(text),
        None => Set::empty(),
    }
}

/// An empty filter restricts nothing; any other admits the scores it holds.
pub open spec fn admits(filter: Set<nat>, value: nat) -> bool {
    filter.contains(value) || forall|other: nat| !filter.contains(other)
}

/// A set of scores to show. The empty set stands for "show all".
pub struct RatingFilter {
    allowed: [bool; 10],
}

impl View for RatingFilter {
    type V = Set<nat>;

    closed spec fn view(&self) -> Set<nat> {
        Set::new(|value: nat| MIN_RATING <= value <= MAX_RATING && self.allowed@[value - 1])
    }
}

impl RatingFilter {
    /// The filter that holds no score.
    pub fn new() -> (filter: RatingFilter)
        ensures
            filter@ == Set::<nat>::empty(),
    {
        let filter = RatingFilter { allowed: [false; 10] };
        filter
    }

    /// Adds `value` to the filter, where it is a score from 1 to 10;
    /// otherwise the filter stays as it is.
    pub fn insert(&mut self, value: usize)
        ensures
            final(self)@ == if MIN_RATING <= value <= MAX_RATING {
                old(self)@.insert(value as nat)
            } else {
                old(self)@
            },
    {
        if MIN_RATING <= value && value <= MAX_RATING {
            self.allowed[value - 1] = true;
        }
    }

    /// Whether the filter holds `value`.
    pub fn contains(&self, value: usize) -> (held: bool)
        ensures
            held == self@.contains(value as nat),
    {
        MIN_RATING <= value && value <= MAX_RATING && self.allowed[value - 1]
    }

    /// Whether the filter holds no score.
    pub fn is_empty(&self) -> (empty: bool)
        ensures
            empty == (self@ == Set::<nat>::empty()),
            empty == (forall|value: nat| !self@.contains(value)),
    {
        let mut i: usize = 0;
        while i < 10
            invariant
                i <= 10,
                forall|k: int| 0 <= k < i ==> !self.allowed@[k],
            decreases 10 - i,
        {
            if self.allowed[i] {
                assert(self@.contains((i + 1) as nat));
                return false;
            }
            i += 1;
        }
        assert(self@ =~= Set::<nat>::empty());
        true
    }

    /// Whether a rating with the score `value` is shown: the filter holds
    /// the score, or holds none.
    pub fn admits(&self, value: usize) -> (shown: bool)
        ensures
            shown == admits(self@, value as nat),
    {
        self.contains(value) || self.is_empty()
    }
}

/// Reads the rating filter of a request. Without a parameter the filter is
/// empty. With one, it holds the scores that the comma-separated tokens
/// write; a token that writes no score from 1 to 10 is dropped.
pub fn parse_rating_filter(raw: Option<&str>) -> (filter: RatingFilter)
    ensures
        filter@ == requested_scores(
            match raw {
                Some(text) => Some(text@),
                None => None,
            },
        ),
{
    let mut filter = RatingFilter::new();
    let text = match raw {
        Some(text) => text,
        None => {
            return filter;
        },
    };
    let chars = chars_of(text);
    let n: usize = chars.len();
    let mut start: usize = 0;
    let mut i: usize = 0;
    loop
        invariant_except_break
            filter@ == Set::new(|value: nat| names_score_before(chars@, value, start as int)),
        invariant
            start <= i <= n,
            n == chars@.len(),
            chars@ == text@,
            start == 0 || chars@[start - 1] == ',',
            forall|k: int| start <= k < i ==> chars@[k] != ',',
        ensures
            filter@ == filter_values(text@),
        decreases n - i,
    {
        if i == n || chars[i] == ',' {
            let score = parse_rating_chars(chars.as_slice(), start, i);
            if let Some(value) = score {
                filter.insert(value);
            }
            assert(is_token(chars@, start as int, i as int));
            if i == n {
                break;
            }
            start = i + 1;
        }
        i += 1;
    }
    filter
}

impl Filter {
    /// The rating filter that the parameters ask for.
    pub fn rating_filter(&self) -> (filter: RatingFilter)
        ensures
            filter@ == requested_scores(self@),
    {
        match &self.rating {
            Some(text) => parse_rating_filter(Some(text.as_str())),
            None => parse_rating_filter(None),
        }
    }
}

} // verus!
