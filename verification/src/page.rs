//! The page: a card for each rating that is shown, beside the histogram of
//! the scores.

use vstd::prelude::*;
use vstd::seq_lib::lemma_flatten_concat;
use crate::distribution::{intensities_of, RatingDistribution, BUCKETS};
use crate::filter::{admits, RatingFilter};
use crate::markup::{decimal, doctype, hexadecimal, html_escaped, push_escaped, push_hexadecimal, push_number};
use crate::rating::{ratings_view, Rating, RatingView};
use crate::titles::{TitleIndex, Titles};

verus! {

/// The title of the page.
pub const PAGE_TITLE: &'static str = "MARS - rate your movies and shows";

/// The style sheet of the page.
pub const PAGE_STYLE: &'static str = r#"
                        :root {
                            --text: #3d3d3d;
                            --background: #c56cf0;
                            --selection: #3ae374;
                            --link: #17c0eb;
                        }

                        a, a:visited, a:link {
                            color: var(--link);
                        }

                        body {
                            font-family: sans-serif;
                            color: var(--text);
                            background-color: var(--background);
                        }

                        ::selection {
                            background-color: var(--selection);
                        }

                        header {
                            text-align: center;
                            letter-spacing: 0.5em;
                            background-color: #67e6dc;
                            color: #c56cf0;
                            margin: 1em auto 1em auto;
                            width: 90vw;

                            display: grid;
                            grid-template-columns: 4em auto 4em;
                        }

                        article {
                            display: grid;
                            gap: 1em;
                            grid-template-columns: repeat(auto-fit, minmax(250px, 1fr));
                        }

                        article section {
                            text-align: center;
                            background-color: #fff;
                            box-shadow: 0 4px 8px 0 rgba(0,0,0,0.2);
                            padding: 1em;
                            display: grid;
                            grid-template-columns: 1fr;
                            grid-template-rows: 4em 2em;
                            transition: box-shadow 300ms ease-in, background-color 300ms ease-in;
                            background-color: #e6e6e6;
                        }

                        article section:hover {
                            transition: box-shadow 300ms ease-out, background-color 300ms ease-out;
                            box-shadow: 0 8px 32px 0 rgba(0,0,0,0.4);
                            background-color: white;
                        }

                        #occurance {
                            display: grid;
                            grid-template-columns: repeat(2, 1fr);
                            padding: 0.5em;
                        }
                    "#;

/// What a [`Card`] stands for.
pub struct CardView {
    pub title: Seq<char>,
    pub rating: nat,
}

/// What the page shows of one rating: the first title of the rated
/// identifier, and the score.
pub struct Card<'a> {
    pub title: &'a str,
    pub rating: usize,
}

impl<'a> View for Card<'a> {
    type V = CardView;

    open spec fn view(&self) -> CardView {
        CardView { title: self.title@, rating: self.rating as nat }
    }
}

/// What a sequence of cards stands for.
pub open spec fn cards_view(cards: Seq<Card>) -> Seq<CardView> {
    cards.map_values(|card: Card| card@)
}

/// The rating is shown: the filter admits its score and the index knows its
/// identifier.
pub open spec fn is_shown(rating: RatingView, titles: Titles, filter: Set<nat>) -> bool {
    admits(filter, rating.value) && titles.contains_key(rating.id)
}

/// The card of a rating that is shown: the first title of its identifier,
/// and its score.
pub open spec fn shown_card(rating: RatingView, titles: Titles) -> CardView {
    CardView { title: titles[rating.id][0], rating: rating.value }
}

/// The cards: one for each rating that is shown, in the order of the
/// ratings. A rating that is not shown has no card.
pub open spec fn cards_of(ratings: Seq<RatingView>, titles: Titles, filter: Set<nat>) -> Seq<CardView> {
    ratings.filter(|rating: RatingView| is_shown(rating, titles, filter)).map_values(
        |rating: RatingView| shown_card(rating, titles),
    )
}

/// The histogram cell of a score that shows with intensity `alpha`: the
/// page's accent colour, with `alpha` as its opacity.
pub open spec fn cell_html(alpha: nat) -> Seq<char> {
    "<div style=\"background-color: #c56cf0"@ + hexadecimal(alpha) + "\"></div>"@
}

/// The histogram cells, one after the other.
pub open spec fn cells_html(alphas: Seq<nat>) -> Seq<char> {
    alphas.map_values(|alpha: nat| cell_html(alpha)).flatten()
}

/// A card as HTML. The title is escaped: none of it is read as markup.
pub open spec fn card_html(card: CardView) -> Seq<char> {
    "<section><h3>"@ + html_escaped(card.title) + "</h3><p>"@ + decimal(card.rating)
        + "</p></section>"@
}

/// The cards, one after the other.
pub open spec fn cards_html(cards: Seq<CardView>) -> Seq<char> {
    cards.map_values(|card: CardView| card_html(card)).flatten()
}

/// The page up to the histogram.
pub open spec fn page_head() -> Seq<char> {
    "<!DOCTYPE html>"@ + "<html><head><title>"@ + PAGE_TITLE@ + "</title><style>"@ + PAGE_STYLE@
        + "</style></head><body><header><div id=\"occurance\">"@
}

/// The whole page: the histogram cells in the header, then the cards, then
/// the script, which stands as it is.
pub open spec fn page_html(alphas: Seq<nat>, cards: Seq<CardView>, script: Seq<char>) -> Seq<char> {
    page_head() + cells_html(alphas) + "</div><h1>MARS</h1></header><article>"@ + cards_html(cards)
        + "</article><script>"@ + script + "</script></body></html>"@
}

/// `part` stands in `whole` from position `at` on.
pub open spec fn stands_at(part: Seq<char>, whole: Seq<char>, at: int) -> bool {
    0 <= at <= whole.len() - part.len() && whole.subrange(at, at + part.len()) == part
}

/// `part` stands somewhere in `whole`.
pub open spec fn occurs_in(part: Seq<char>, whole: Seq<char>) -> bool {
    exists|at: int| stands_at(part, whole, at)
}

/// The cards after one more rating: its card follows, where it is shown.
proof fn lemma_cards_of_push(
    ratings: Seq<RatingView>,
    rating: RatingView,
    titles: Titles,
    filter: Set<nat>,
)
    ensures
        cards_of(ratings.push(rating), titles, filter) == if is_shown(rating, titles, filter) {
            cards_of(ratings, titles, filter).push(shown_card(rating, titles))
        } else {
            cards_of(ratings, titles, filter)
        },
{
    let shown = |rating: RatingView| is_shown(rating, titles, filter);
    ratings.lemma_filter_push(rating, shown);
}

/// Without a filter the cards are those of the ratings whose identifier
/// the index knows: one for each of them, none for any other.
pub proof fn lemma_unfiltered_cards(ratings: Seq<RatingView>, titles: Titles)
    ensures
        cards_of(ratings, titles, Set::empty()) == ratings.filter(
            |rating: RatingView| titles.contains_key(rating.id),
        ).map_values(|rating: RatingView| shown_card(rating, titles)),
{
    let known = |rating: RatingView| titles.contains_key(rating.id);
    let shown = |rating: RatingView| is_shown(rating, titles, Set::empty());
    assert(known =~= shown);
}

/// A rating that is shown has its card among the cards.
pub proof fn lemma_shown_has_card(
    ratings: Seq<RatingView>,
    titles: Titles,
    filter: Set<nat>,
    i: int,
) -> (k: int)
    requires
        0 <= i < ratings.len(),
        is_shown(ratings[i], titles, filter),
    ensures
        0 <= k < cards_of(ratings, titles, filter).len(),
        cards_of(ratings, titles, filter)[k] == shown_card(ratings[i], titles),
    decreases ratings.len(),
{
    let rest = ratings.drop_last();
    assert(ratings =~= rest.push(ratings.last()));
    lemma_cards_of_push(rest, ratings.last(), titles, filter);
    if i == ratings.len() - 1 {
        cards_of(rest, titles, filter).len() as int
    } else {
        lemma_shown_has_card(rest, titles, filter, i)
    }
}

/// A card among the cards is that of a rating that is shown.
pub proof fn lemma_card_has_shown(
    ratings: Seq<RatingView>,
    titles: Titles,
    filter: Set<nat>,
    k: int,
) -> (i: int)
    requires
        0 <= k < cards_of(ratings, titles, filter).len(),
    ensures
        0 <= i < ratings.len(),
        is_shown(ratings[i], titles, filter),
        cards_of(ratings, titles, filter)[k] == shown_card(ratings[i], titles),
    decreases ratings.len(),
{
    reveal(Seq::filter);
    if ratings.len() == 0 {
        0
    } else {
        let rest = ratings.drop_last();
        if k < cards_of(rest, titles, filter).len() {
            lemma_card_has_shown(rest, titles, filter, k)
        } else {
            ratings.len() - 1
        }
    }
}

/// The page holds the HTML of each of its cards.
pub proof fn lemma_card_on_page(alphas: Seq<nat>, cards: Seq<CardView>, script: Seq<char>, k: int)
    requires
        0 <= k < cards.len(),
    ensures
        occurs_in(card_html(cards[k]), page_html(alphas, cards, script)),
{
    let html = |card: CardView| card_html(card);
    let before = cards.take(k).map_values(html);
    let after = cards.skip(k + 1).map_values(html);
    let here = card_html(cards[k]);
    assert(cards.map_values(html) =~= before + seq![here] + after);
    lemma_flatten_concat(before + seq![here], after);
    lemma_flatten_concat(before, seq![here]);
    seq![here].lemma_flatten_singleton();
    let top = page_head() + cells_html(alphas) + "</div><h1>MARS</h1></header><article>"@
        + before.flatten();
    let page = page_html(alphas, cards, script);
    assert(page.subrange(top.len() as int, (top.len() + here.len()) as int) =~= here);
    assert(stands_at(here, page, top.len() as int));
}

/// Without a filter the page holds the card of every rating whose
/// identifier the index knows.
pub proof fn lemma_unfiltered_page_shows_known(
    ratings: Seq<RatingView>,
    titles: Titles,
    alphas: Seq<nat>,
    script: Seq<char>,
    i: int,
)
    requires
        0 <= i < ratings.len(),
        titles.contains_key(ratings[i].id),
    ensures
        occurs_in(
            card_html(shown_card(ratings[i], titles)),
            page_html(alphas, cards_of(ratings, titles, Set::empty()), script),
        ),
{
    let k = lemma_shown_has_card(ratings, titles, Set::empty(), i);
    lemma_card_on_page(alphas, cards_of(ratings, titles, Set::empty()), script, k);
}

/// Picks the ratings to show and joins each with its title. A rating is
/// left out where the filter holds scores but not this one, and where the
/// index has no title for the identifier.
pub fn select_cards<'a>(
    ratings: &'a Vec<Rating>,
    titles: &'a TitleIndex,
    filter: &RatingFilter,
) -> (cards: Vec<Card<'a>>)
    ensures
        cards_view(cards@) == cards_of(ratings_view(ratings@), titles@, filter@),
{
    let ghost given = ratings_view(ratings@);
    let mut cards: Vec<Card<'a>> = Vec::new();
    let mut i: usize = 0;
    while i < ratings.len()
        invariant
            i <= ratings.len(),
            given == ratings_view(ratings@),
            cards_view(cards@) == cards_of(given.take(i as int), titles@, filter@),
        decreases ratings.len() - i,
    {
        let rating = &ratings[i];
        proof {
            assert(given.take(i + 1) =~= given.take(i as int).push(rating@));
            lemma_cards_of_push(given.take(i as int), rating@, titles@, filter@);
        }
        if filter.admits(rating.rating()) {
            if let Some(title) = titles.first_title(rating.id()) {
                cards.push(Card { title, rating: rating.rating() });
            }
        }
        i += 1;
    }
    assert(given.take(ratings.len() as int) =~= given);
    cards
}

/// The cells of one more score follow those of the scores before.
proof fn lemma_cells_html_next(alphas: Seq<nat>, k: int)
    requires
        0 <= k < alphas.len(),
    ensures
        cells_html(alphas.take(k + 1)) == cells_html(alphas.take(k)) + cell_html(alphas[k]),
{
    let cell = |alpha: nat| cell_html(alpha);
    assert(alphas.take(k + 1).map_values(cell) =~= alphas.take(k).map_values(cell).push(
        cell_html(alphas[k]),
    ));
    alphas.take(k).map_values(cell).lemma_flatten_push(cell_html(alphas[k]));
}

/// The HTML of one more card follows that of the cards before.
proof fn lemma_cards_html_next(cards: Seq<CardView>, k: int)
    requires
        0 <= k < cards.len(),
    ensures
        cards_html(cards.take(k + 1)) == cards_html(cards.take(k)) + card_html(cards[k]),
{
    let html = |card: CardView| card_html(card);
    assert(cards.take(k + 1).map_values(html) =~= cards.take(k).map_values(html).push(
        card_html(cards[k]),
    ));
    cards.take(k).map_values(html).lemma_flatten_push(card_html(cards[k]));
}

/// Writes the page: the histogram of `dist`, the `cards`, and the `script`.
pub fn render_page(dist: &RatingDistribution, cards: &Vec<Card>, script: &str) -> (page: String)
    ensures
        page@ == page_html(intensities_of(dist@), cards_view(cards@), script@),
{
    let mut page = String::new();
    page.append(doctype());
    page.append("<html><head><title>");
    page.append(PAGE_TITLE);
    page.append("</title><style>");
    page.append(PAGE_STYLE);
    page.append("</style></head><body><header><div id=\"occurance\">");

    let ghost alphas = intensities_of(dist@);
    proof {
        dist.lemma_buckets();
    }
    let mut value: usize = 1;
    while value <= BUCKETS
        invariant
            1 <= value <= BUCKETS + 1,
            dist@.len() == BUCKETS,
            alphas == intensities_of(dist@),
            page@ == page_head() + cells_html(alphas.take(value - 1)),
        decreases BUCKETS + 1 - value,
    {
        let alpha: usize = dist.intensity(value);
        proof {
            lemma_cells_html_next(alphas, value - 1);
        }
        page.append("<div style=\"background-color: #c56cf0");
        push_hexadecimal(&mut page, alpha);
        page.append("\"></div>");
        value += 1;
    }
    assert(alphas.take(BUCKETS as int) =~= alphas);
    page.append("</div><h1>MARS</h1></header><article>");

    let ghost shown = cards_view(cards@);
    let ghost top = page@;
    let mut i: usize = 0;
    while i < cards.len()
        invariant
            i <= cards.len(),
            shown == cards_view(cards@),
            page@ == top + cards_html(shown.take(i as int)),
        decreases cards.len() - i,
    {
        let card = &cards[i];
        proof {
            lemma_cards_html_next(shown, i as int);
        }
        page.append("<section><h3>");
        push_escaped(&mut page, card.title);
        page.append("</h3><p>");
        push_number(&mut page, card.rating);
        page.append("</p></section>");
        i += 1;
    }
    assert(shown.take(cards.len() as int) =~= shown);
    page.append("</article><script>");
    page.append(script);
    page.append("</script></body></html>");
    page
}

/// Writes the page for the ratings: the histogram of `distribution`, and in
/// the order of the ratings a card for each rating that the filter admits
/// and the index has a title for. A rating without a title is left out.
/// `script` is the page's script; it is put into the page as it is.
pub fn render(
    ratings: &Vec<Rating>,
    titles: &TitleIndex,
    distribution: &RatingDistribution,
    filter: &RatingFilter,
    script: &str,
) -> (page: String)
    ensures
        page@ == page_html(
            intensities_of(distribution@),
            cards_of(ratings_view(ratings@), titles@, filter@),
            script@,
        ),
{
    let cards = select_cards(ratings, titles, filter);
    render_page(distribution, &cards, script)
}

} // verus!
