use bangs::tokenize::{_bisect, bisect_on, bisect_ws};

#[test]
fn bisect_ws_splits_head_and_rest() {
    let (head, tail) = bisect_ws("g hello world");
    assert_eq!(head, "g");
    assert_eq!(tail, "hello world");
}

#[test]
fn bisect_ws_collapses_runs_of_whitespace() {
    let (head, tail) = bisect_ws("  a \t b \n c  ");
    assert_eq!(head, "a");
    assert_eq!(tail, "b c");
}

#[test]
fn bisect_ws_single_token() {
    let (head, tail) = bisect_ws("alone");
    assert_eq!(head, "alone");
    assert_eq!(tail, "");
}

#[test]
fn bisect_ws_empty_input_yields_empty_pair() {
    assert_eq!(bisect_ws(""), (String::new(), String::new()));
    assert_eq!(bisect_ws("   \t "), (String::new(), String::new()));
}

#[test]
fn bisect_on_splits_at_first_separator() {
    let (head, tail) = bisect_on("a=b=c", "=");
    assert_eq!(head, "a");
    assert_eq!(tail, "b=c");
}

#[test]
fn bisect_on_trims_only_the_tail() {
    let (head, tail) = bisect_on("k = v", "=");
    assert_eq!(head, "k ");
    assert_eq!(tail, "v");
}

#[test]
fn bisect_on_without_separator() {
    let (head, tail) = bisect_on("plain", "=");
    assert_eq!(head, "plain");
    assert_eq!(tail, "");
}

#[test]
fn bisect_on_multichar_separator() {
    let (head, tail) = bisect_on("left::mid::right", "::");
    assert_eq!(head, "left");
    assert_eq!(tail, "mid::right");
}

#[test]
fn bisect_joins_remainder_with_separator() {
    let (head, tail) = _bisect(vec!["x", "y", "z"], "-");
    assert_eq!(head, "x");
    assert_eq!(tail, "y-z");
}

#[test]
fn bisect_trims_the_joined_remainder() {
    let (head, tail) = _bisect(vec!["x", " y ", " z "], " ");
    assert_eq!(head, "x");
    assert_eq!(tail, "y   z");
}

#[test]
fn bisect_empty_sequence_yields_empty_pair() {
    assert_eq!(_bisect(vec![], "-"), (String::new(), String::new()));
}

#[test]
fn bisect_single_element_has_empty_tail() {
    assert_eq!(_bisect(vec!["only"], "-"), ("only".to_string(), String::new()));
}
