use minigrep::Params;

#[test]
fn params_build() {
    let params = vec![
        "".to_string(),
        "-i".to_string(),
        "-q=query".to_string(),
        "-f=test.txt".to_string(),
    ];
    let params_struct = Params::build(&params);
    assert_eq!(
        params_struct,
        Ok(Params {
            query: "query".to_string(),
            file_path: "test.txt".to_string(),
            ignore_case: true
        })
    )
}

#[test]
fn no_enough_param() {
    let params = vec!["".to_string(), "-i".to_string(), "-q=query".to_string()];
    let params_struct = Params::build(&params);
    assert_eq!(params_struct, Err("Not enough valid param"))
}

#[test]
fn missing_query() {
    let params = vec!["".to_string(), "-f=test.txt".to_string()];
    assert_eq!(Params::build(&params), Err("Not enough valid param"));
}

#[test]
fn ignore_case_off_by_default() {
    let params = vec!["".to_string(), "-q=a".to_string(), "-f=b".to_string()];
    let built = Params::build(&params).unwrap();
    assert_eq!(built.query, "a");
    assert_eq!(built.file_path, "b");
    assert!(!built.ignore_case);
}

#[test]
fn last_query_wins() {
    let params = vec![
        "".to_string(),
        "-q=a".to_string(),
        "-q=b".to_string(),
        "-f=c".to_string(),
    ];
    let built = Params::build(&params).unwrap();
    assert_eq!(built.query, "b");
}

#[test]
fn empty_value_is_missing() {
    let params = vec!["".to_string(), "-q=".to_string(), "-f=x".to_string()];
    assert_eq!(Params::build(&params), Err("Not enough valid param"));
}

#[test]
fn unrecognized_tokens_ignored() {
    let params = vec![
        "".to_string(),
        "--verbose".to_string(),
        "-q=a".to_string(),
        "stray".to_string(),
        "-f=b".to_string(),
    ];
    let built = Params::build(&params).unwrap();
    assert_eq!(built.query, "a");
    assert_eq!(built.file_path, "b");
    assert!(!built.ignore_case);
}
