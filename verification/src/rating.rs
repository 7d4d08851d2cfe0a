//! Ratings: a title identifier with a score from 1 to 10, and the text form
//! of a score.

use vstd::prelude::*;

verus! {

/// The lowest score a rating can hold.
pub const MIN_RATING: usize = 1;

/// The highest score a rating can hold.
pub const MAX_RATING: usize = 10;

/// What a [`Rating`] stands for: an identifier and a score.
pub struct RatingView {
    pub id: Seq<char>,
    pub value: nat,
}

impl RatingView {
    /// The score lies between [`MIN_RATING`] and [`MAX_RATING`].
    pub open spec fn in_range(self) -> bool {
        MIN_RATING <= self.value <= MAX_RATING
    }
}

/// One entry of the rating history. Its score always lies in `1..=10`.
#[derive(Debug)]
pub struct Rating {
    id: String,
    rating: usize,
}

impl View for Rating {
    type V = RatingView;

    closed spec fn view(&self) -> RatingView {
        RatingView { id: self.id@, value: self.rating as nat }
    }
}

impl Clone for Rating {
    fn clone(&self) -> (copy: Rating)
        ensures
            copy@ == self@,
    {
        proof {
            use_type_invariant(self);
        }
        Rating { id: self.id.clone(), rating: self.rating }
    }
}

impl Rating {
    #[verifier::type_invariant]
    spec fn score_in_range(self) -> bool {
        MIN_RATING <= self.rating <= MAX_RATING
    }

    /// A rating of `rating` for the title `id`, or `None` where `rating` is
    /// not a score from 1 to 10.
    pub fn new(id: String, rating: usize) -> (made: Option<Rating>)
        ensures
            made is Some <==> MIN_RATING <= rating <= MAX_RATING,
            made matches Some(r) ==> r@ == (RatingView { id: id@, value: rating as nat }),
    {
        if MIN_RATING <= rating && rating <= MAX_RATING {
            Some(Rating { id, rating })
        } else {
            None
        }
    }

    /// The identifier of the rated title.
    pub fn id(&self) -> (id: &str)
        ensures
            id@ == self@.id,
    {
        self.id.as_str()
    }

    /// The score given.
    pub fn rating(&self) -> (value: usize)
        ensures
            value == self@.value,
            self@.in_range(),
    {
        proof {
            use_type_invariant(self);
        }
        self.rating
    }
}

/// What a sequence of ratings stands for.
pub open spec fn ratings_view(ratings: Seq<Rating>) -> Seq<RatingView> {
    ratings.map_values(|r: Rating| r@)
}

/// Every score of the sequence lies in `1..=10`.
pub open spec fn all_in_range(ratings: Seq<RatingView>) -> bool {
    forall|i: int| 0 <= i < ratings.len() ==> (#[trigger] ratings[i]).in_range()
}

/// A decimal digit.
pub open spec fn is_digit(c: char) -> bool {
    '0' <= c <= '9'
}

/// The number that a sequence of decimal digits writes.
pub open spec fn digits_value(digits: Seq<char>) -> nat
    decreases digits.len(),
{
    if digits.len() == 0 {
        0
    } else {
        (digits_value(digits.drop_last()) * 10 + (digits.last() as nat - '0' as nat)) as nat
    }
}

/// The text without one leading plus sign.
pub open spec fn unsigned_part(text: Seq<char>) -> Seq<char> {
    if text.len() > 0 && text[0] == '+' {
        text.drop_first()
    } else {
        text
    }
}

/// The text is a decimal number: an optional plus sign, then one digit or
/// more, and nothing else.
pub open spec fn is_decimal(text: Seq<char>) -> bool {
    let digits = unsigned_part(text);
    digits.len() > 0 && forall|i: int| 0 <= i < digits.len() ==> is_digit(#[trigger] digits[i])
}

/// The score that a text writes: the number, where the text is a decimal
/// number from 1 to 10 (leading zeros allowed), and nothing otherwise.
pub open spec fn rating_value(text: Seq<char>) -> Option<nat> {
    let value = digits_value(unsigned_part(text));
    if is_decimal(text) && MIN_RATING <= value <= MAX_RATING {
        Some(value)
    } else {
        None
    }
}

/// What an executable score stands for.
pub open spec fn score_view(score: Option<usize>) -> Option<nat> {
    match score {
        Some(v) => Some(v as nat),
        None => None,
    }
}

/// One more digit at the end: ten times the number before, plus the digit.
proof fn lemma_digits_value_push(digits: Seq<char>, c: char)
    requires
        is_digit(c),
    ensures
        digits_value(digits.push(c)) == digits_value(digits) * 10 + (c as nat - '0' as nat),
{
    assert(digits.push(c).drop_last() =~= digits);
}

/// The characters of a text, one by one.
pub fn chars_of(text: &str) -> (chars: Vec<char>)
    ensures
        chars@ == text@,
{
    let mut chars: Vec<char> = Vec::new();
    for c in it: text.chars()
        invariant
            it.seq() == text@,
            chars@ == text@.take(it.index() as int),
    {
        chars.push(c);
    }
    chars
}

/// Reads the score written by `chars[from..to]`.
pub(crate) fn parse_rating_chars(chars: &[char], from: usize, to: usize) -> (score: Option<usize>)
    requires
        from <= to <= chars@.len(),
    ensures
        score_view(score) == rating_value(chars@.subrange(from as int, to as int)),
{
    let ghost text = chars@.subrange(from as int, to as int);
    let mut i: usize = from;
    if i < to && chars[i] == '+' {
        i += 1;
    }
    let start: usize = i;
    let ghost digits = unsigned_part(text);
    if i == to {
        return None;
    }
    let mut value: usize = 0;
    while i < to
        invariant
            from <= start <= i <= to <= chars@.len(),
            digits == unsigned_part(chars@.subrange(from as int, to as int)),
            digits == chars@.subrange(start as int, to as int),
            forall|k: int| 0 <= k < i - start ==> is_digit(#[trigger] digits[k]),
            value <= MAX_RATING + 1,
            value == MAX_RATING + 1 ==> digits_value(digits.take(i - start)) > MAX_RATING,
            value <= MAX_RATING ==> digits_value(digits.take(i - start)) == value,
        decreases to - i,
    {
        let c = chars[i];
        if !('0' <= c && c <= '9') {
            assert(!is_digit(digits[i - start]));
            return None;
        }
        let digit: usize = (c as u32 - '0' as u32) as usize;
        proof {
            lemma_digits_value_push(digits.take(i - start), c);
            assert(digits.take(i - start + 1) =~= digits.take(i - start).push(c));
        }
        value = if value > MAX_RATING || value * 10 + digit > MAX_RATING {
            MAX_RATING + 1
        } else {
            value * 10 + digit
        };
        i += 1;
    }
    assert(digits.take(to - start) =~= digits);
    if MIN_RATING <= value && value <= MAX_RATING {
        Some(value)
    } else {
        None
    }
}

/// Reads the score that a text writes.
pub fn parse_rating(text: &str) -> (score: Option<usize>)
    ensures
        score_view(score) == rating_value(text@),
{
    let chars = chars_of(text);
    let score = parse_rating_chars(chars.as_slice(), 0, chars.len());
    assert(chars@.subrange(0, chars@.len() as int) =~= text@);
    score
}

} // verus!
