use mandelbrot::argument::{find_separator, pair_of_parses, parse_pair};

#[test]
fn test_parse_pair() {
    assert_eq!(parse_pair::<i32>("", 's'), None);
    assert_eq!(parse_pair::<i32>("10", ','), None);
    assert_eq!(parse_pair::<i32>(",10", ','), None);
    assert_eq!(parse_pair::<i32>("10,20", ','), Some((10, 20)));
    assert_eq!(parse_pair::<i32>("10,20xy", ','), None);
    assert_eq!(parse_pair::<i32>("10x20", 'x'), Some((10, 20)));
    assert_eq!(parse_pair::<f64>("1.5x", 'x'), None);
    assert_eq!(parse_pair::<f64>("1.5x3.0", 'x'), Some((1.5, 3.0)));
}

#[test]
fn parse_pair_splits_at_first_separator_only() {
    // "1,2,3": the halves are "1" and "2,3"; the right one does not parse
    assert_eq!(parse_pair::<i32>("1,2,3", ','), None);
    assert_eq!(parse_pair::<usize>("4000x3000", 'x'), Some((4000, 3000)));
    assert_eq!(parse_pair::<f64>("0.035,", ','), None);
    assert_eq!(parse_pair::<f64>("-1.20,0.35", ','), Some((-1.20, 0.35)));
}

#[test]
fn find_separator_reports_first_occurrence() {
    assert_eq!(find_separator("10,20", ','), Some(2));
    assert_eq!(find_separator(",10", ','), Some(0));
    assert_eq!(find_separator("a,b,c", ','), Some(1));
    assert_eq!(find_separator("1020", ','), None);
    assert_eq!(find_separator("", ','), None);
}

#[test]
fn pair_of_parses_needs_both_halves() {
    assert_eq!(pair_of_parses::<i32>(Some(1), Some(2)), Some((1, 2)));
    assert_eq!(pair_of_parses::<i32>(None, Some(2)), None);
    assert_eq!(pair_of_parses::<i32>(Some(1), None), None);
    assert_eq!(pair_of_parses::<i32>(None, None), None);
}
