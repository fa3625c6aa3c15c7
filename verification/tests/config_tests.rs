use minigrep::{run_search, Config};

#[test]
fn missing_query_is_rejected() {
    let result = Config::new(None, Some(String::from("poem.txt")), false);
    assert_eq!(Err("query must be specified."), result.map(|c| c.query));
}

#[test]
fn missing_filename_is_rejected() {
    let result = Config::new(Some(String::from("duct")), None, true);
    assert_eq!(Err("file must be specified."), result.map(|c| c.query));
}

#[test]
fn complete_arguments_build_the_config() {
    let config = Config::new(
        Some(String::from("duct")),
        Some(String::from("poem.txt")),
        true,
    )
    .unwrap();
    assert_eq!("duct", config.query);
    assert_eq!("poem.txt", config.filename);
    assert!(config.case_insensitive);
}

#[test]
fn run_search_honours_the_case_policy() {
    let contents = "Rust:\nsafe, fast, productive.\npick three.\nDuct tape";
    let sensitive = Config::new(
        Some(String::from("duct")),
        Some(String::from("poem.txt")),
        false,
    )
    .unwrap();
    let insensitive = Config::new(
        Some(String::from("duct")),
        Some(String::from("poem.txt")),
        true,
    )
    .unwrap();
    assert_eq!(
        vec!["safe, fast, productive."],
        run_search(&sensitive, contents)
    );
    assert_eq!(
        vec!["safe, fast, productive.", "Duct tape"],
        run_search(&insensitive, contents)
    );
}
