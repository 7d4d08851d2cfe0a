//! The state of the viewer: the rating history, the title index and the
//! histogram, built once and only read afterwards.

use vstd::prelude::*;
use crate::distribution::{compute_distribution, distribution_of, intensities_of, RatingDistribution};
use crate::filter::{requested_scores, Filter};
use crate::ingest::{is_loaded, load_personal_ratings, load_titles, title_index_of, ParseError, RATINGS_DELIMITER, TITLES_DELIMITER};
use crate::page::{cards_of, page_html, render};
use crate::rating::{all_in_range, ratings_view, Rating, RatingView};
use crate::records::csv_records;
use crate::titles::{TitleIndex, Titles};

verus! {

/// What the state stands for: the ratings and the titles. The histogram
/// follows from the ratings.
pub struct AppView {
    pub ratings: Seq<RatingView>,
    pub titles: Titles,
}

/// The state that all requests share.
pub struct App {
    ratings: Vec<Rating>,
    titles: TitleIndex,
    ratings_dist: RatingDistribution,
}

impl View for App {
    type V = AppView;

    closed spec fn view(&self) -> AppView {
        AppView { ratings: ratings_view(self.ratings@), titles: self.titles@ }
    }
}

/// The page for a request: the histogram of all ratings, and the cards of
/// the ratings that the request asks for and the index has a title for.
pub open spec fn index_html(app: AppView, rating: Option<Seq<char>>, script: Seq<char>) -> Seq<char> {
    page_html(
        intensities_of(distribution_of(app.ratings)),
        cards_of(app.ratings, app.titles, requested_scores(rating)),
        script,
    )
}

/// What loading the two files gives: the state with the ratings, highest
/// score first, and the title index; or the error of the ratings file.
pub open spec fn is_loaded_app(
    ratings_file: Seq<u8>,
    titles_file: Seq<u8>,
    loaded: Result<AppView, ParseError>,
) -> bool {
    match loaded {
        Ok(app) => is_loaded(csv_records(ratings_file, RATINGS_DELIMITER, true), Ok(app.ratings))
            && app.titles == title_index_of(csv_records(titles_file, TITLES_DELIMITER, false)),
        Err(error) => is_loaded(csv_records(ratings_file, RATINGS_DELIMITER, true), Err(error)),
    }
}

impl App {
    #[verifier::type_invariant]
    spec fn well_formed(self) -> bool {
        &&& self.ratings_dist@ == distribution_of(ratings_view(self.ratings@))
        &&& all_in_range(ratings_view(self.ratings@))
    }

    /// The state for the given ratings and titles, with the histogram of
    /// the ratings.
    pub fn new(ratings: Vec<Rating>, titles: TitleIndex) -> (app: App)
        ensures
            app@ == (AppView { ratings: ratings_view(ratings@), titles: titles@ }),
            all_in_range(app@.ratings),
    {
        let ratings_dist = compute_distribution(&ratings);
        App { ratings, titles, ratings_dist }
    }

    /// Loads the state from the contents of the ratings file and of the
    /// titles file. A row of the ratings file that cannot be read or holds
    /// no score from 1 to 10 fails the load; a row of the titles file that
    /// cannot be read is skipped.
    pub fn load(ratings_file: &[u8], titles_file: &[u8]) -> (loaded: Result<App, ParseError>)
        ensures
            is_loaded_app(
                ratings_file@,
                titles_file@,
                match loaded {
                    Ok(app) => Ok(app@),
                    Err(error) => Err(error),
                },
            ),
    {
        let ratings = match load_personal_ratings(ratings_file) {
            Ok(ratings) => ratings,
            Err(error) => {
                return Err(error);
            },
        };
        let titles = load_titles(titles_file);
        Ok(App::new(ratings, titles))
    }

    /// The rating history. Each of its scores lies in `1..=10`.
    pub fn ratings(&self) -> (ratings: &Vec<Rating>)
        ensures
            ratings_view(ratings@) == self@.ratings,
            all_in_range(self@.ratings),
    {
        proof {
            use_type_invariant(self);
        }
        &self.ratings
    }

    /// The title index.
    pub fn titles(&self) -> (titles: &TitleIndex)
        ensures
            titles@ == self@.titles,
    {
        &self.titles
    }

    /// The histogram of the rating history.
    pub fn ratings_dist(&self) -> (dist: &RatingDistribution)
        ensures
            dist@ == distribution_of(self@.ratings),
    {
        proof {
            use_type_invariant(self);
        }
        &self.ratings_dist
    }

}

/// Answers a request with the page: the histogram of all ratings, and a
/// card for each rating that the filter of the request admits and that has
/// a title. `script` is the page's script; it is put into the page as it
/// is.
pub fn index(filter: &Filter, app: &App, script: &str) -> (page: String)
    ensures
        page@ == index_html(app@, filter@, script@),
{
    proof {
        use_type_invariant(app);
    }
    let wanted = filter.rating_filter();
    render(&app.ratings, &app.titles, &app.ratings_dist, &wanted, script)
}

} // verus!
