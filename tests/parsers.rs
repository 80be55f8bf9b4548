use fractal_renderer::parsers::{pair_of, parse_pair};

#[test]
fn test_parse_pair() {
    assert_eq!(parse_pair::<i32>("", ','), None);
    assert_eq!(parse_pair::<i32>("10,", ','), None);
    assert_eq!(parse_pair::<i32>(",5", ','), None);
    assert_eq!(parse_pair::<i32>("10,5", ','), Some((10, 5)));
    assert_eq!(parse_pair::<i32>("10,20xy", ','), None);
    assert_eq!(parse_pair::<i32>("0.5x", 'x'), None);
    assert_eq!(parse_pair::<f64>("0.5x1.5", 'x'), Some((0.5, 1.5)));
}

#[test]
fn parse_pair_splits_at_the_first_separator() {
    assert_eq!(parse_pair::<usize>("1920x1080", 'x'), Some((1920, 1080)));
    assert_eq!(parse_pair::<i32>("1,2,3", ','), None);
    assert_eq!(parse_pair::<String>("a,b,c", ','), Some(("a".to_string(), "b,c".to_string())));
    assert_eq!(parse_pair::<f64>("-1.25,-0.0625", ','), Some((-1.25, -0.0625)));
    assert_eq!(parse_pair::<i32>("7\u{e9}8", '\u{e9}'), Some((7, 8)));
}

#[test]
fn pair_of_needs_both_halves() {
    assert_eq!(pair_of(Some(1), Some(2)), Some((1, 2)));
    assert_eq!(pair_of(Some(1), None::<i32>), None);
    assert_eq!(pair_of(None::<i32>, Some(2)), None);
    assert_eq!(pair_of(None::<i32>, None), None);
}
