use mars::app::{index, App};
use mars::distribution::compute_distribution;
use mars::filter::{parse_rating_filter, Filter, RatingFilter};
use mars::page::{render, render_page, select_cards, Card, PAGE_STYLE, PAGE_TITLE};
use mars::rating::Rating;
use mars::titles::TitleIndex;

const SCRIPT: &str = "console.log(1 < 2 && \"ok\");";

fn ratings(entries: &[(&str, usize)]) -> Vec<Rating> {
    entries.iter().map(|(id, value)| Rating::new(id.to_string(), *value).unwrap()).collect()
}

fn titles(entries: &[(&str, &str)]) -> TitleIndex {
    let mut index = TitleIndex::new();
    for (id, title) in entries {
        index.add(id.to_string(), title.to_string());
    }
    index
}

fn request(rating: Option<&str>) -> Filter {
    Filter { rating: rating.map(|text| text.to_string()) }
}

fn scenario() -> App {
    App::new(ratings(&[("tt1", 9), ("tt2", 3)]), titles(&[("tt1", "Movie A")]))
}

fn expected_page(alphas: [&str; 10], cards: &[(&str, &str)], script: &str) -> String {
    let mut page = String::new();
    page.push_str("<!DOCTYPE html><html><head><title>MARS - rate your movies and shows</title>");
    page.push_str("<style>");
    page.push_str(PAGE_STYLE);
    page.push_str("</style></head><body><header><div id=\"occurance\">");
    for alpha in alphas {
        page.push_str(&format!("<div style=\"background-color: #c56cf0{}\"></div>", alpha));
    }
    page.push_str("</div><h1>MARS</h1></header><article>");
    for (title, rating) in cards {
        page.push_str(&format!("<section><h3>{}</h3><p>{}</p></section>", title, rating));
    }
    page.push_str("</article><script>");
    page.push_str(script);
    page.push_str("</script></body></html>");
    page
}

fn count_of(page: &str, part: &str) -> usize {
    page.matches(part).count()
}

#[test]
fn a_request_without_filter_shows_the_rating_that_has_a_title() {
    let page = index(&request(None), &scenario(), SCRIPT);
    assert!(page.contains("Movie A"));
    assert!(page.contains("<section><h3>Movie A</h3><p>9</p></section>"));
    assert_eq!(count_of(&page, "<section>"), 1);
    assert!(!page.contains("tt2"));
    assert!(!page.contains("<p>3</p>"));
}

#[test]
fn a_request_for_a_score_without_titled_ratings_shows_no_card() {
    let page = index(&request(Some("3")), &scenario(), SCRIPT);
    assert_eq!(count_of(&page, "<section>"), 0);
    assert!(!page.contains("Movie A"));
    assert!(page.contains("<article></article>"));
}

#[test]
fn the_page_is_written_out_in_full() {
    let page = index(&request(None), &scenario(), SCRIPT);
    let alphas = ["0", "0", "b4", "0", "0", "0", "0", "0", "b4", "0"];
    assert_eq!(page, expected_page(alphas, &[("Movie A", "9")], SCRIPT));

    let page = index(&request(Some("3")), &scenario(), "");
    assert_eq!(page, expected_page(alphas, &[], ""));
}

#[test]
fn the_page_starts_with_the_document_type_and_names_its_title() {
    let page = index(&request(None), &scenario(), SCRIPT);
    assert!(page.starts_with("<!DOCTYPE html><html><head><title>"));
    assert!(page.contains(&format!("<title>{}</title>", PAGE_TITLE)));
    assert_eq!(PAGE_TITLE, "MARS - rate your movies and shows");
    assert!(page.ends_with("</script></body></html>"));
}

#[test]
fn the_style_sheet_stands_in_the_page_as_it_is() {
    let page = index(&request(None), &scenario(), SCRIPT);
    assert!(page.contains(&format!("<style>{}</style>", PAGE_STYLE)));
    assert!(PAGE_STYLE.starts_with("\n                        :root {\n"));
    assert!(PAGE_STYLE.contains("--background: #c56cf0;"));
    assert!(PAGE_STYLE.contains("grid-template-columns: repeat(auto-fit, minmax(250px, 1fr));"));
    assert!(PAGE_STYLE.ends_with("padding: 0.5em;\n                        }\n                    "));
    assert_eq!(PAGE_STYLE.len(), 2544);
}

#[test]
fn the_script_stands_in_the_page_as_it_is() {
    let page = index(&request(None), &scenario(), SCRIPT);
    assert!(page.contains("<script>console.log(1 < 2 && \"ok\");</script>"));
}

#[test]
fn titles_are_escaped() {
    let app = App::new(
        ratings(&[("tt1", 10), ("tt2", 1), ("tt3", 5)]),
        titles(&[
            ("tt1", "<script>alert(\"Tom & Jerry\")</script>"),
            ("tt2", "Amélie's \"9 > 3\""),
            ("tt3", "&amp;"),
        ]),
    );
    let page = index(&request(None), &app, "");
    assert!(page.contains(
        "<h3>&lt;script&gt;alert(&quot;Tom &amp; Jerry&quot;)&lt;/script&gt;</h3><p>10</p>"
    ));
    assert!(page.contains("<h3>Amélie's &quot;9 &gt; 3&quot;</h3><p>1</p>"));
    assert!(page.contains("<h3>&amp;amp;</h3><p>5</p>"));
    assert!(!page.contains("alert(\""));
    assert_eq!(count_of(&page, "<script>"), 1);
}

#[test]
fn scores_are_written_in_decimal() {
    let app = App::new(
        ratings(&[("a", 10), ("b", 9), ("c", 1)]),
        titles(&[("a", "A"), ("b", "B"), ("c", "C")]),
    );
    let page = index(&request(None), &app, "");
    assert!(page.contains("<h3>A</h3><p>10</p>"));
    assert!(page.contains("<h3>B</h3><p>9</p>"));
    assert!(page.contains("<h3>C</h3><p>1</p>"));
}

#[test]
fn the_histogram_has_a_cell_for_each_score() {
    let app = App::new(ratings(&[("a", 2), ("b", 2), ("c", 2), ("d", 2)]), TitleIndex::new());
    let page = index(&request(None), &app, "");
    assert_eq!(count_of(&page, "<div style=\"background-color: #c56cf0"), 10);
    let alphas = ["0", "ff", "0", "0", "0", "0", "0", "0", "0", "0"];
    assert_eq!(page, expected_page(alphas, &[], ""));
}

#[test]
fn the_intensity_is_written_in_hexadecimal_without_padding() {
    // frequencies 1/65025 (intensity 1), 400/65025 (20), 6400/65025 (80), the rest (241)
    let mut entries: Vec<(&str, usize)> = vec![("x", 1)];
    entries.extend(vec![("x", 2); 400]);
    entries.extend(vec![("x", 3); 6400]);
    entries.extend(vec![("x", 4); 65025 - 6801]);
    let app = App::new(ratings(&entries), TitleIndex::new());
    let page = index(&request(Some("5")), &app, "");
    let alphas = ["1", "14", "50", "f1", "0", "0", "0", "0", "0", "0"];
    assert_eq!(page, expected_page(alphas, &[], ""));
}

#[test]
fn without_ratings_the_histogram_is_blank() {
    let app = App::new(Vec::new(), titles(&[("tt1", "Movie A")]));
    let page = index(&request(None), &app, SCRIPT);
    assert_eq!(page, expected_page(["0"; 10], &[], SCRIPT));
}

#[test]
fn the_histogram_counts_the_ratings_that_are_not_shown() {
    let app = scenario();
    let all = index(&request(None), &app, "");
    let none = index(&request(Some("3")), &app, "");
    let cells_of = |page: &str| page[..page.find("<h1>").unwrap()].to_string();
    assert_eq!(cells_of(&all), cells_of(&none));
}

#[test]
fn without_filter_every_rating_with_a_title_is_shown_and_no_other() {
    let entries = [("tt1", 9), ("tt2", 3), ("tt3", 9), ("tt4", 1), ("tt5", 10), ("tt3", 2)];
    let known = [("tt1", "Movie A"), ("tt3", "Movie C"), ("tt5", "Movie E"), ("tt9", "Movie I")];
    let app = App::new(ratings(&entries), titles(&known));
    let page = index(&request(None), &app, "");
    let cards = [("Movie A", "9"), ("Movie C", "9"), ("Movie E", "10"), ("Movie C", "2")];
    let alphas = ["68", "68", "68", "0", "0", "0", "0", "0", "93", "68"];
    assert_eq!(page, expected_page(alphas, &cards, ""));
    assert_eq!(count_of(&page, "<section>"), 4);
    assert!(!page.contains("Movie I"));
    for (id, _) in entries {
        assert!(!page.contains(id));
    }
}

#[test]
fn the_first_title_of_an_identifier_is_shown() {
    let app = App::new(
        ratings(&[("tt1", 6)]),
        titles(&[("tt1", "Les Diaboliques"), ("tt1", "Diabolique"), ("tt1", "The Fiends")]),
    );
    let page = index(&request(None), &app, "");
    assert!(page.contains("<section><h3>Les Diaboliques</h3><p>6</p></section>"));
    assert!(!page.contains("Diabolique<"));
    assert!(!page.contains("The Fiends"));
}

#[test]
fn the_cards_stand_in_the_order_of_the_ratings() {
    let entries = [("a", 4), ("b", 8), ("c", 4), ("d", 6)];
    let known = [("a", "A"), ("b", "B"), ("c", "C"), ("d", "D")];
    let app = App::new(ratings(&entries), titles(&known));
    let page = index(&request(Some("4,8,2")), &app, "");
    let alphas = ["0", "0", "0", "b4", "0", "7f", "0", "7f", "0", "0"];
    assert_eq!(page, expected_page(alphas, &[("A", "4"), ("B", "8"), ("C", "4")], ""));
}

#[test]
fn a_filter_of_dropped_tokens_only_shows_everything() {
    let page = index(&request(Some("99,abc")), &scenario(), "");
    assert!(page.contains("<section><h3>Movie A</h3><p>9</p></section>"));
    let page = index(&request(Some("")), &scenario(), "");
    assert!(page.contains("<section><h3>Movie A</h3><p>9</p></section>"));
}

#[test]
fn cards_are_selected_before_they_are_written() {
    let given = ratings(&[("tt1", 9), ("tt2", 3), ("tt3", 9)]);
    let known = titles(&[("tt1", "Movie A"), ("tt3", "Movie C"), ("tt3", "Film C")]);
    let cards = select_cards(&given, &known, &RatingFilter::new());
    let shown: Vec<(&str, usize)> = cards.iter().map(|card| (card.title, card.rating)).collect();
    assert_eq!(shown, vec![("Movie A", 9), ("Movie C", 9)]);
    let cards = select_cards(&given, &known, &parse_rating_filter(Some("3")));
    assert_eq!(cards.len(), 0);
}

#[test]
fn the_page_is_written_from_its_parts() {
    let given = ratings(&[("tt1", 9), ("tt2", 3)]);
    let known = titles(&[("tt1", "Movie A")]);
    let dist = compute_distribution(&given);
    let alphas = ["0", "0", "b4", "0", "0", "0", "0", "0", "b4", "0"];

    let page = render(&given, &known, &dist, &RatingFilter::new(), SCRIPT);
    assert_eq!(page, expected_page(alphas, &[("Movie A", "9")], SCRIPT));

    let cards = vec![Card { title: "A & B", rating: 7 }, Card { title: "C", rating: 10 }];
    let page = render_page(&dist, &cards, SCRIPT);
    assert_eq!(page, expected_page(alphas, &[("A &amp; B", "7"), ("C", "10")], SCRIPT));
}

#[test]
fn the_state_is_loaded_from_the_two_files() {
    let ratings_file = b"Const,Your Rating\ntt1,5\ntt2,9\ntt3,2\n";
    let titles_file = "titleId\ttitle\ntt2\tShow B\ntt1\tMovie A\ntt1\tFilm A\n";
    let app = App::load(ratings_file, titles_file.as_bytes()).unwrap();
    let loaded: Vec<(&str, usize)> =
        app.ratings().iter().map(|rating| (rating.id(), rating.rating())).collect();
    assert_eq!(loaded, vec![("tt2", 9), ("tt1", 5), ("tt3", 2)]);
    assert_eq!(app.titles().first_title("tt1"), Some("Movie A"));
    assert_eq!(app.titles().len(), 2);
    assert_eq!(app.ratings_dist().total(), 3);
    assert_eq!(app.ratings_dist().count(9), 1);

    let page = index(&request(None), &app, "");
    let alphas = ["0", "93", "0", "0", "93", "0", "0", "0", "93", "0"];
    assert_eq!(page, expected_page(alphas, &[("Show B", "9"), ("Movie A", "5")], ""));
}

#[test]
fn a_bad_rating_fails_the_load_of_the_state() {
    let loaded = App::load(b"id,rating\ntt1,5\ntt2,12\n", b"titleId\ttitle\ntt1\tMovie A\n");
    assert_eq!(loaded.err().map(|error| error.record), Some(1));
}

#[test]
fn the_ratings_file_is_strict_and_the_titles_file_is_lenient() {
    let loaded = App::load(b"id,rating\ntt1,5\ntt2\n", b"titleId\ttitle\ntt1\tMovie A\n");
    assert_eq!(loaded.err().map(|error| error.record), Some(1));
    let loaded = App::load(b"id,rating\ntt1,5\n", b"titleId\ttitle\ntt1\tMovie A\ntt2\n");
    let app = loaded.ok().unwrap();
    assert_eq!(app.titles().len(), 1);
    assert_eq!(app.ratings().len(), 1);
}
