//! Loading: the title index from a tab-separated file, the rating history
//! from a comma-separated one.

use vstd::prelude::*;
use crate::order::{descending, is_descending, lemma_descending_in_range, lemma_descending_permutes, lemma_descending_sorted, sort_descending};
use crate::rating::{all_in_range, parse_rating, rating_value, ratings_view, Rating, RatingView};
use crate::records::{csv_records, read_records, records_view};
use crate::titles::{all_titled, with_title, TitleIndex, Titles};

verus! {

/// The delimiter of the titles file: a tab.
pub const TITLES_DELIMITER: u8 = 0x09;

/// The delimiter of the ratings file: a comma.
pub const RATINGS_DELIMITER: u8 = 0x2c;

/// A record of the ratings file that could not be read or holds no score
/// from 1 to 10.
#[derive(Debug, Clone, Copy, PartialEq, Eq, Structural)]
pub struct ParseError {
    /// The position of the record among those behind the header row,
    /// counted from 0.
    pub record: usize,
}

/// The identifier and the title that a record of the titles file holds: its
/// first two fields. A record that could not be read, or has fewer than two
/// fields, holds none.
pub open spec fn title_entry(record: Option<Seq<Seq<char>>>) -> Option<(Seq<char>, Seq<char>)> {
    match record {
        Some(fields) => if fields.len() >= 2 {
            Some((fields[0], fields[1]))
        } else {
            None
        },
        None => None,
    }
}

/// The title that a record holds for `id`.
pub open spec fn title_for(record: Option<Seq<Seq<char>>>, id: Seq<char>) -> Option<Seq<char>> {
    match title_entry(record) {
        Some((key, title)) => if key == id {
            Some(title)
        } else {
            None
        },
        None => None,
    }
}

/// The titles that the records hold for `id`, in the order of the records.
pub open spec fn titles_for(records: Seq<Option<Seq<Seq<char>>>>, id: Seq<char>) -> Seq<Seq<char>> {
    records.filter_map(|record: Option<Seq<Seq<char>>>| title_for(record, id))
}

/// The title index of the records: each identifier that a record names,
/// with its titles in the order of the records.
pub open spec fn title_index_of(records: Seq<Option<Seq<Seq<char>>>>) -> Titles {
    Map::new(
        |id: Seq<char>| titles_for(records, id).len() > 0,
        |id: Seq<char>| titles_for(records, id),
    )
}

/// The index of the records up to and with record `i` is that of the
/// records before, with the title of record `i` added.
proof fn lemma_title_index_next(records: Seq<Option<Seq<Seq<char>>>>, i: int)
    requires
        0 <= i < records.len(),
    ensures
        title_index_of(records.take(i + 1)) == match title_entry(records[i]) {
            Some((id, title)) => with_title(title_index_of(records.take(i)), id, title),
            None => title_index_of(records.take(i)),
        },
{
    assert forall|id: Seq<char>|
        titles_for(records.take(i + 1), id) == titles_for(records.take(i), id) + (match title_for(
            records[i],
            id,
        ) {
            Some(title) => seq![title],
            None => Seq::empty(),
        }) by {
        let pick = |record: Option<Seq<Seq<char>>>| title_for(record, id);
        records.lemma_filter_map_take_succ(pick, i);
    }
    let before = title_index_of(records.take(i));
    match title_entry(records[i]) {
        Some((id, title)) => {
            assert(before.contains_key(id) ==> titles_for(records.take(i), id) + seq![title]
                == before[id].push(title));
            assert(!before.contains_key(id) ==> titles_for(records.take(i), id) + seq![title]
                == seq![title]);
            assert(title_index_of(records.take(i + 1)) =~= with_title(before, id, title));
        },
        None => {
            assert(title_index_of(records.take(i + 1)) =~= before);
        },
    }
}

/// Builds the title index from the records of the titles file. Each record
/// adds its second field as a title of its first; a record that could not
/// be read or has fewer than two fields is skipped.
pub fn titles_from_records(records: &Vec<Option<Vec<String>>>) -> (index: TitleIndex)
    ensures
        index@ == title_index_of(records_view(records@)),
        all_titled(index@),
{
    let ghost read = records_view(records@);
    let mut index = TitleIndex::new();
    let mut i: usize = 0;
    while i < records.len()
        invariant
            i <= records.len(),
            read == records_view(records@),
            index@ == title_index_of(read.take(i as int)),
        decreases records.len() - i,
    {
        proof {
            lemma_title_index_next(read, i as int);
        }
        if let Some(fields) = &records[i] {
            if fields.len() >= 2 {
                index.add(fields[0].clone(), fields[1].clone());
            }
        }
        i += 1;
    }
    assert(read.take(records.len() as int) =~= read);
    index
}

/// Loads the title index from the content of the titles file:
/// tab-separated, with a header row, without quote processing, each row an
/// identifier and a title. Rows that cannot be read are skipped.
pub fn load_titles(data: &[u8]) -> (index: TitleIndex)
    ensures
        index@ == title_index_of(csv_records(data@, TITLES_DELIMITER, false)),
        all_titled(index@),
{
    let records = read_records(data, TITLES_DELIMITER, false);
    titles_from_records(&records)
}

/// The rating that a record of the ratings file holds: its first field is
/// the identifier, its second writes the score.
pub open spec fn rating_entry(fields: Seq<Seq<char>>) -> Option<RatingView> {
    if fields.len() >= 2 {
        match rating_value(fields[1]) {
            Some(value) => Some(RatingView { id: fields[0], value }),
            None => None,
        }
    } else {
        None
    }
}

/// The record gives no rating: it could not be read, or it holds none.
pub open spec fn is_bad_record(record: Option<Seq<Seq<char>>>) -> bool {
    rating_of(record) is None
}

/// The rating of a record, where it was read and holds one.
pub open spec fn rating_of(record: Option<Seq<Seq<char>>>) -> Option<RatingView> {
    match record {
        Some(fields) => rating_entry(fields),
        None => None,
    }
}

/// The ratings of the records, in the order of the records: one for each
/// record that gives a rating.
pub open spec fn ratings_of(records: Seq<Option<Seq<Seq<char>>>>) -> Seq<RatingView> {
    records.filter_map(|record: Option<Seq<Seq<char>>>| rating_of(record))
}

/// Record `at` is the first that gives no rating.
pub open spec fn is_first_bad_record(records: Seq<Option<Seq<Seq<char>>>>, at: int) -> bool {
    &&& 0 <= at < records.len()
    &&& is_bad_record(records[at])
    &&& forall|i: int| 0 <= i < at ==> !is_bad_record(#[trigger] records[i])
}

/// Every record was read and holds a rating.
pub open spec fn all_records_rated(records: Seq<Option<Seq<Seq<char>>>>) -> bool {
    forall|i: int| 0 <= i < records.len() ==> !is_bad_record(#[trigger] records[i])
}

/// What loading the records of the ratings file gives: the error at the
/// first record that could not be read or holds no rating; or else, where
/// every record gives its rating, the ratings, highest score first.
pub open spec fn is_loaded(
    records: Seq<Option<Seq<Seq<char>>>>,
    loaded: Result<Seq<RatingView>, ParseError>,
) -> bool {
    match loaded {
        Ok(ratings) => all_records_rated(records) && ratings == descending(ratings_of(records)),
        Err(error) => is_first_bad_record(records, error.record as int),
    }
}

/// What the outcome of a load stands for.
pub open spec fn loaded_view(loaded: Result<Vec<Rating>, ParseError>) -> Result<
    Seq<RatingView>,
    ParseError,
> {
    match loaded {
        Ok(ratings) => Ok(ratings_view(ratings@)),
        Err(error) => Err(error),
    }
}

/// Every rating of the records has a score from 1 to 10; where every record
/// gives a rating, there are as many ratings as records.
proof fn lemma_ratings_of(records: Seq<Option<Seq<Seq<char>>>>)
    ensures
        all_in_range(ratings_of(records)),
        all_records_rated(records) ==> ratings_of(records).len() == records.len(),
    decreases records.len(),
{
    if records.len() > 0 {
        lemma_ratings_of(records.drop_last());
    }
}

/// The law of loading: a load that succeeds gives one rating for each
/// record, each with a score from 1 to 10, and no score rises from one
/// rating to the next.
pub proof fn lemma_loaded_in_range(
    records: Seq<Option<Seq<Seq<char>>>>,
    loaded: Result<Seq<RatingView>, ParseError>,
)
    requires
        is_loaded(records, loaded),
    ensures
        loaded matches Ok(ratings) ==> all_in_range(ratings) && is_descending(ratings)
            && ratings.len() == records.len(),
{
    lemma_ratings_of(records);
    lemma_descending_in_range(ratings_of(records));
    lemma_descending_sorted(ratings_of(records));
    lemma_descending_permutes(ratings_of(records));
}

/// The law of loading: a load fails if and only if some record could not be
/// read or holds no score from 1 to 10.
pub proof fn lemma_load_fails_on_bad_record(
    records: Seq<Option<Seq<Seq<char>>>>,
    loaded: Result<Seq<RatingView>, ParseError>,
)
    requires
        is_loaded(records, loaded),
    ensures
        loaded is Err <==> exists|i: int| 0 <= i < records.len() && is_bad_record(#[trigger] records[i]),
{
}

/// Builds the rating history from the records of the ratings file, highest
/// score first. A record that could not be read, that has no second field,
/// or whose second field does not write a score from 1 to 10 fails the
/// whole load; the error names the first such record.
pub fn ratings_from_records(records: &Vec<Option<Vec<String>>>) -> (loaded: Result<
    Vec<Rating>,
    ParseError,
>)
    ensures
        is_loaded(records_view(records@), loaded_view(loaded)),
        loaded matches Ok(ratings) ==> all_in_range(ratings_view(ratings@)) && is_descending(
            ratings_view(ratings@),
        ) && ratings.len() == records.len(),
{
    let ghost read = records_view(records@);
    let ghost pick = |record: Option<Seq<Seq<char>>>| rating_of(record);
    let mut ratings: Vec<Rating> = Vec::new();
    let mut i: usize = 0;
    while i < records.len()
        invariant
            i <= records.len(),
            read == records_view(records@),
            pick == |record: Option<Seq<Seq<char>>>| rating_of(record),
            ratings_view(ratings@) == read.take(i as int).filter_map(pick),
            ratings.len() == i,
            forall|k: int| 0 <= k < i ==> !is_bad_record(#[trigger] read[k]),
        decreases records.len() - i,
    {
        proof {
            read.lemma_filter_map_take_succ(pick, i as int);
        }
        let rating = match &records[i] {
            Some(fields) => if fields.len() >= 2 {
                match parse_rating(fields[1].as_str()) {
                    Some(value) => Rating::new(fields[0].clone(), value),
                    None => None,
                }
            } else {
                None
            },
            None => None,
        };
        match rating {
            Some(rating) => {
                ratings.push(rating);
            },
            None => {
                return Err(ParseError { record: i });
            },
        }
        i += 1;
    }
    assert(read.take(records.len() as int) =~= read);
    Ok(sort_descending(&ratings))
}

/// Loads the rating history from the content of the ratings file:
/// comma-separated, with a header row, each row an identifier and a score.
/// The ratings come highest score first. A row that cannot be read, or
/// whose score is not a number from 1 to 10, fails the load: no row of the
/// ratings file is skipped.
pub fn load_personal_ratings(data: &[u8]) -> (loaded: Result<Vec<Rating>, ParseError>)
    ensures
        is_loaded(csv_records(data@, RATINGS_DELIMITER, true), loaded_view(loaded)),
        loaded matches Ok(ratings) ==> all_in_range(ratings_view(ratings@)) && is_descending(
            ratings_view(ratings@),
        ) && ratings.len() == csv_records(data@, RATINGS_DELIMITER, true).len(),
{
    let records = read_records(data, RATINGS_DELIMITER, true);
    ratings_from_records(&records)
}

} // verus!
