use mars::ingest::{load_titles, titles_from_records};
use mars::titles::TitleIndex;

fn titles_of(index: &TitleIndex, id: &str) -> Option<Vec<String>> {
    index.titles(id).cloned()
}

#[test]
fn titles_are_grouped_by_identifier_in_the_order_of_the_file() {
    let data = "titleId\ttitle\ntt1\tMovie A\ntt2\tShow B\ntt1\tFilm A\ntt1\tPelicula A\n";
    let index = load_titles(data.as_bytes());
    assert_eq!(index.len(), 2);
    assert_eq!(
        titles_of(&index, "tt1"),
        Some(vec!["Movie A".to_string(), "Film A".to_string(), "Pelicula A".to_string()])
    );
    assert_eq!(titles_of(&index, "tt2"), Some(vec!["Show B".to_string()]));
    assert_eq!(index.first_title("tt1"), Some("Movie A"));
    assert_eq!(index.first_title("tt2"), Some("Show B"));
    assert_eq!(index.first_title("tt3"), None);
    assert!(index.contains("tt1"));
    assert!(!index.contains("tt3"));
}

#[test]
fn the_header_row_is_no_title() {
    let index = load_titles(b"titleId\ttitle\n");
    assert_eq!(index.len(), 0);
    assert!(!index.contains("titleId"));
    assert_eq!(load_titles(b"").len(), 0);
}

#[test]
fn the_titles_file_is_split_at_tabs_only() {
    let data = "titleId\ttitle\ntt1\tLock, Stock and Two Smoking Barrels\ntt2\t\"Quoted\" Title\n";
    let index = load_titles(data.as_bytes());
    assert_eq!(index.first_title("tt1"), Some("Lock, Stock and Two Smoking Barrels"));
    assert_eq!(index.first_title("tt2"), Some("\"Quoted\" Title"));
}

#[test]
fn a_quote_does_not_hold_a_title_together() {
    let data = "titleId\ttitle\ntt1\t\"Weird Al\tYankovic\"\ntt2\tPlain\n";
    let index = load_titles(data.as_bytes());
    assert_eq!(index.first_title("tt1"), None);
    assert_eq!(index.first_title("tt2"), Some("Plain"));
    let data = "titleId\ttitle\ntt1\t\"Open quote\ntt2\tPlain\n";
    let index = load_titles(data.as_bytes());
    assert_eq!(index.first_title("tt1"), Some("\"Open quote"));
    assert_eq!(index.first_title("tt2"), Some("Plain"));
}

#[test]
fn title_rows_that_cannot_be_read_are_skipped() {
    let data = b"titleId\ttitle\ntt1\tMovie A\ntt2\tShow B\textra\ntt3\ntt4\t\xff\xfe\ntt5\tMovie E\n";
    let index = load_titles(data);
    assert_eq!(index.len(), 2);
    assert_eq!(index.first_title("tt1"), Some("Movie A"));
    assert_eq!(index.first_title("tt5"), Some("Movie E"));
    assert!(!index.contains("tt2"));
    assert!(!index.contains("tt3"));
    assert!(!index.contains("tt4"));
}

#[test]
fn title_rows_with_a_single_field_are_skipped() {
    let index = load_titles(b"titleId\ntt1\ntt2\n");
    assert_eq!(index.len(), 0);
}

#[test]
fn further_columns_of_the_titles_file_are_ignored() {
    let data = "titleId\ttitle\tregion\ntt1\tMovie A\tUS\ntt1\tFilm A\tFR\n";
    let index = load_titles(data.as_bytes());
    assert_eq!(titles_of(&index, "tt1"), Some(vec!["Movie A".to_string(), "Film A".to_string()]));
}

#[test]
fn records_are_turned_into_titles() {
    let records = vec![
        Some(vec!["tt1".to_string(), "Movie A".to_string()]),
        None,
        Some(vec!["tt2".to_string()]),
        Some(vec![]),
        Some(vec!["tt1".to_string(), "Film A".to_string(), "FR".to_string()]),
    ];
    let index = titles_from_records(&records);
    assert_eq!(index.len(), 1);
    assert_eq!(titles_of(&index, "tt1"), Some(vec!["Movie A".to_string(), "Film A".to_string()]));
    assert_eq!(titles_from_records(&Vec::new()).len(), 0);
}

#[test]
fn a_title_is_added_behind_the_titles_before() {
    let mut index = TitleIndex::new();
    assert_eq!(index.len(), 0);
    assert_eq!(index.titles("tt1"), None);
    index.add("tt1".to_string(), "First".to_string());
    assert_eq!(titles_of(&index, "tt1"), Some(vec!["First".to_string()]));
    index.add("tt2".to_string(), "Other".to_string());
    index.add("tt1".to_string(), "Second".to_string());
    index.add("tt1".to_string(), "First".to_string());
    assert_eq!(
        titles_of(&index, "tt1"),
        Some(vec!["First".to_string(), "Second".to_string(), "First".to_string()])
    );
    assert_eq!(index.first_title("tt1"), Some("First"));
    assert_eq!(titles_of(&index, "tt2"), Some(vec!["Other".to_string()]));
    assert_eq!(index.len(), 2);
    assert_eq!(index.first_title(""), None);
}
