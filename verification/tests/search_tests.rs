use minigrep::{search, search_case_insensitive};

#[test]
fn one_result() {
    let query = "duct";
    let contents = "\
Rust:
safe, fast, productive.
pick three.";

    assert_eq!(vec!["safe, fast, productive."], search(&query, &contents));
}

#[test]
fn case_sensitive() {
    let query = "duct";
    let contents = "\
Rust:
safe, fast, productive.
pick three.
Duct tape";

    assert_eq!(vec!["safe, fast, productive."], search(&query, &contents));
}

#[test]
fn case_insensitive() {
    let query = "rust";
    let contents = "\
Rust:
safe, fast, productive.
pick three.
rust is the best language in the world.";

    assert_eq!(
        vec!["Rust:", "rust is the best language in the world."],
        search_case_insensitive(&query, &contents)
    );
}

#[test]
fn empty_query_matches_every_line() {
    let contents = "Rust:\nsafe, fast, productive.\npick three.";
    assert_eq!(
        vec!["Rust:", "safe, fast, productive.", "pick three."],
        search("", contents)
    );
    assert_eq!(
        vec!["Rust:", "safe, fast, productive.", "pick three."],
        search_case_insensitive("", contents)
    );
}

#[test]
fn empty_contents_has_no_lines() {
    assert_eq!(Vec::<&str>::new(), search("duct", ""));
    assert_eq!(Vec::<&str>::new(), search("", ""));
}

#[test]
fn no_trailing_newline_yields_final_line() {
    let with_newline = "one duct\ntwo duct\n";
    let without_newline = "one duct\ntwo duct";
    assert_eq!(vec!["one duct", "two duct"], search("duct", with_newline));
    assert_eq!(vec!["one duct", "two duct"], search("duct", without_newline));
}

#[test]
fn carriage_returns_are_stripped_before_newlines_only() {
    let contents = "safe\r\nfast\rslow\r\nduct\r";
    assert_eq!(vec!["safe", "fast\rslow", "duct\r"], search("", contents));
    assert_eq!(vec!["duct\r"], search("duct", contents));
}

#[test]
fn line_with_several_occurrences_appears_once() {
    let contents = "duct duct duct\nnothing here";
    assert_eq!(vec!["duct duct duct"], search("duct", contents));
}

#[test]
fn search_is_idempotent() {
    let query = "duct";
    let contents = "Rust:\nsafe, fast, productive.\npick three.\nDuct tape";
    assert_eq!(search(query, contents), search(query, contents));
    assert_eq!(
        search_case_insensitive(query, contents),
        search_case_insensitive(query, contents)
    );
}

#[test]
fn case_insensitive_results_are_a_superset() {
    let query = "duct";
    let contents = "Rust:\nsafe, fast, productive.\npick three.\nDuct tape";
    let sensitive = search(query, contents);
    let insensitive = search_case_insensitive(query, contents);
    assert_eq!(vec!["safe, fast, productive."], sensitive);
    assert_eq!(vec!["safe, fast, productive.", "Duct tape"], insensitive);
    for line in sensitive {
        assert!(insensitive.contains(&line));
    }
}

#[test]
fn case_insensitive_folds_query_and_line() {
    let contents = "DUCT TAPE\nduct tape\nDuCt TaPe\nnothing";
    assert_eq!(
        vec!["DUCT TAPE", "duct tape", "DuCt TaPe"],
        search_case_insensitive("dUcT", contents)
    );
    assert_eq!(Vec::<&str>::new(), search("dUcT", contents));
}

#[test]
fn case_folding_is_ascii_only() {
    let contents = "\u{dc}ber\n\u{fc}ber";
    assert_eq!(vec!["\u{fc}ber"], search_case_insensitive("\u{fc}ber", contents));
}

#[test]
fn multibyte_characters_do_not_disturb_matching() {
    let contents = "\u{3b1}\u{3b2}\u{3b3} duct\nno match \u{3b4}";
    assert_eq!(vec!["\u{3b1}\u{3b2}\u{3b3} duct"], search("duct", contents));
    assert_eq!(
        vec!["\u{3b1}\u{3b2}\u{3b3} duct"],
        search("\u{3b2}\u{3b3}", contents)
    );
}

#[test]
fn query_longer_than_line_does_not_match() {
    let contents = "ab\ncd";
    assert_eq!(Vec::<&str>::new(), search("abcd", contents));
}

#[test]
fn newline_only_contents_is_one_empty_line() {
    assert_eq!(vec![""], search("", "\n"));
    assert_eq!(Vec::<&str>::new(), search("x", "\n"));
}
