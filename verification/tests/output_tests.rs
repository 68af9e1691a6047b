use minigrep::{matching_rows, render_row, Params};

#[test]
fn render_row_format() {
    assert_eq!(render_row(0, "abc"), "row[0]:abc");
    assert_eq!(render_row(7, ""), "row[7]:");
    assert_eq!(render_row(123, "x y"), "row[123]:x y");
}

#[test]
fn rows_case_sensitive() {
    let params = Params {
        query: "st".to_string(),
        file_path: "unused.txt".to_string(),
        ignore_case: false,
    };
    let rows = matching_rows(&params, "Rust\nstop\nnone");
    assert_eq!(rows, vec!["row[0]:Rust".to_string(), "row[1]:stop".to_string()]);
}

#[test]
fn rows_case_insensitive() {
    let params = Params {
        query: "RUST".to_string(),
        file_path: "unused.txt".to_string(),
        ignore_case: true,
    };
    let rows = matching_rows(&params, "Rust:\nsafe\nTrust me.");
    assert_eq!(
        rows,
        vec!["row[0]:Rust:".to_string(), "row[2]:Trust me.".to_string()]
    );
}

#[test]
fn rows_with_two_digit_index() {
    let params = Params {
        query: "hit".to_string(),
        file_path: "unused.txt".to_string(),
        ignore_case: false,
    };
    let contents = "a\na\na\na\na\na\na\na\na\na\nhit";
    assert_eq!(matching_rows(&params, contents), vec!["row[10]:hit".to_string()]);
}
