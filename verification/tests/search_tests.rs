use minigrep::{contains_str, search, search_case_insensitive, str_eq};

#[test]
fn case_sensitive() {
    let query = "duct";
    let contents = "\
Rust:
safe, fast, productive.
Pick three.";
    assert_eq!(1, search(query, contents).get(0).unwrap().0);
    assert_eq!(
        "safe, fast, productive.",
        search(query, contents).get(0).unwrap().1
    );
}

#[test]
fn case_insensitive() {
    let query = "rUsT";
    let contents = "\
Rust:
safe, fast, productive.
Pick three.
Trust me.";
    assert_eq!(2, search_case_insensitive(query, contents).len());
    assert_eq!(
        0,
        search_case_insensitive(query, contents).get(0).unwrap().0
    );
    assert_eq!(
        "Rust:",
        search_case_insensitive(query, contents).get(0).unwrap().1
    );
    assert_eq!(
        3,
        search_case_insensitive(query, contents).get(1).unwrap().0
    );
    assert_eq!(
        "Trust me.",
        search_case_insensitive(query, contents).get(1).unwrap().1
    );
}

#[test]
fn exactly_one_match() {
    let results = search("duct", "Rust:\nsafe, fast, productive.\nPick three.");
    assert_eq!(results, vec![(1, "safe, fast, productive.")]);
}

#[test]
fn search_twice_is_identical() {
    let contents = "Rust:\nsafe, fast, productive.\nPick three.\nTrust me.";
    assert_eq!(search("st", contents), search("st", contents));
    assert_eq!(
        search_case_insensitive("rUsT", contents),
        search_case_insensitive("rUsT", contents)
    );
}

#[test]
fn empty_query_matches_every_line() {
    let results = search("", "a\nbb\nccc");
    assert_eq!(results, vec![(0, "a"), (1, "bb"), (2, "ccc")]);
    let results_ci = search_case_insensitive("", "a\nbb\nccc");
    assert_eq!(results_ci, vec![(0, "a"), (1, "bb"), (2, "ccc")]);
}

#[test]
fn crlf_line_boundaries() {
    let results = search("b", "a\r\nb\r\n");
    assert_eq!(results, vec![(1, "b")]);
}

#[test]
fn no_trailing_newline_artifact() {
    assert_eq!(search("a", "a\n"), vec![(0, "a")]);
    assert_eq!(search("", "a\n"), vec![(0, "a")]);
}

#[test]
fn lone_carriage_return_stays_in_line() {
    let results = search("one\rtwo", "one\rtwo");
    assert_eq!(results, vec![(0, "one\rtwo")]);
}

#[test]
fn empty_contents_yield_nothing() {
    assert_eq!(search("x", ""), vec![]);
    assert_eq!(search_case_insensitive("x", ""), vec![]);
}

#[test]
fn containment_and_equality_helpers() {
    assert!(contains_str("hello", "ell"));
    assert!(contains_str("hello", ""));
    assert!(!contains_str("hello", "hex"));
    assert!(!contains_str("a", "ab"));
    assert!(str_eq("abc", "abc"));
    assert!(!str_eq("abc", "abd"));
    assert!(!str_eq("abc", "ab"));
}
