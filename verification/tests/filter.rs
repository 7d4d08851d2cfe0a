use mars::filter::{parse_rating_filter, Filter, RatingFilter};

fn held(filter: &RatingFilter) -> Vec<usize> {
    (0..=12).filter(|value| filter.contains(*value)).collect()
}

fn parsed(text: &str) -> Vec<usize> {
    held(&parse_rating_filter(Some(text)))
}

#[test]
fn absent_parameter_gives_empty_filter() {
    let filter = parse_rating_filter(None);
    assert!(filter.is_empty());
    assert_eq!(held(&filter), Vec::<usize>::new());
}

#[test]
fn out_of_range_and_non_numeric_tokens_are_dropped() {
    let filter = parse_rating_filter(Some("3,7,99,abc"));
    assert_eq!(held(&filter), vec![3, 7]);
    assert!(!filter.is_empty());
}

#[test]
fn an_empty_filter_admits_every_score() {
    let filter = parse_rating_filter(None);
    for value in 1..=10 {
        assert!(filter.admits(value));
        assert!(!filter.contains(value));
    }
    let filter = parse_rating_filter(Some("0,11,x"));
    assert!(filter.is_empty());
    for value in 1..=10 {
        assert!(filter.admits(value));
    }
}

#[test]
fn a_filter_with_scores_admits_only_those() {
    let filter = parse_rating_filter(Some("3,7"));
    let admitted: Vec<usize> = (0..=12).filter(|value| filter.admits(*value)).collect();
    assert_eq!(admitted, vec![3, 7]);
}

#[test]
fn the_tokens_are_what_the_commas_part() {
    assert_eq!(parsed(""), Vec::<usize>::new());
    assert_eq!(parsed(","), Vec::<usize>::new());
    assert_eq!(parsed("5"), vec![5]);
    assert_eq!(parsed("5,"), vec![5]);
    assert_eq!(parsed(",5"), vec![5]);
    assert_eq!(parsed("3,,7"), vec![3, 7]);
    assert_eq!(parsed("10,1"), vec![1, 10]);
    assert_eq!(parsed("1,2,3,4,5,6,7,8,9,10"), vec![1, 2, 3, 4, 5, 6, 7, 8, 9, 10]);
    assert_eq!(parsed("3 7"), Vec::<usize>::new());
    assert_eq!(parsed("3;7"), Vec::<usize>::new());
    assert_eq!(parsed("37"), Vec::<usize>::new());
}

#[test]
fn a_token_is_read_as_a_whole() {
    assert_eq!(parsed(" 3,7"), vec![7]);
    assert_eq!(parsed("3 ,7"), vec![7]);
    assert_eq!(parsed("3,7\n"), vec![3]);
    assert_eq!(parsed("+3,07,0010"), vec![3, 7, 10]);
    assert_eq!(parsed("-3,3.0,0x3,3e0"), Vec::<usize>::new());
    assert_eq!(parsed("0,11,100,99999999999999999999999"), Vec::<usize>::new());
    assert_eq!(parsed("é,５,4"), vec![4]);
}

#[test]
fn a_score_named_twice_is_held_once() {
    assert_eq!(parsed("7,7,3,7"), vec![3, 7]);
}

#[test]
fn scores_are_added_to_a_filter() {
    let mut filter = RatingFilter::new();
    assert!(filter.is_empty());
    filter.insert(0);
    filter.insert(11);
    filter.insert(usize::MAX);
    assert!(filter.is_empty());
    filter.insert(10);
    filter.insert(1);
    filter.insert(10);
    assert_eq!(held(&filter), vec![1, 10]);
    assert!(!filter.is_empty());
}

#[test]
fn the_parameters_of_a_request_give_its_filter() {
    let none = Filter { rating: None };
    assert!(none.rating_filter().is_empty());
    let some = Filter { rating: Some("3,7,99,abc".to_string()) };
    assert_eq!(held(&some.rating_filter()), vec![3, 7]);
}
