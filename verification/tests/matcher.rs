use minigrep::matcher::{search, search_case_insensitive};

#[test]
fn case_sensitive() {
    let query = "duct";
    let contents = "Rust:\nsafe, fast, productive.\nPick three.\nDuct tape";
    assert_eq!(vec!["safe, fast, productive."], search(query, contents));
}

#[test]
fn no_results() {
    let empty_vector: Vec<&str> = Vec::new();
    let query = "foo";
    let contents = "";
    assert_eq!(empty_vector, search(query, contents));
}

#[test]
fn case_insensitive() {
    let query = "rUsT";
    let contents = "Rust:\nsafe, fast, productive.\nPick three.\nTrust me.";
    assert_eq!(vec!["Rust:", "Trust me."], search_case_insensitive(query, contents));
}

#[test]
fn empty_contents_both_modes() {
    let empty: Vec<&str> = Vec::new();
    assert_eq!(empty, search("anything", ""));
    let empty: Vec<&str> = Vec::new();
    assert_eq!(empty, search_case_insensitive("anything", ""));
}

#[test]
fn matcher_is_deterministic() {
    let query = "prod";
    let contents = "Rust:\nsafe, fast, productive.\nPick three.";
    assert_eq!(search(query, contents), search(query, contents));
    assert_eq!(
        search_case_insensitive(query, contents),
        search_case_insensitive(query, contents)
    );
}

#[test]
fn insensitive_matches_at_least_as_many() {
    let query = "rust";
    let contents = "Rust is here\nrust is here\nnothing";
    let sensitive = search(query, contents);
    let insensitive = search_case_insensitive(query, contents);
    assert_eq!(sensitive.len(), 1);
    assert_eq!(insensitive.len(), 2);
    assert!(insensitive.len() >= sensitive.len());
}

#[test]
fn sensitive_results_contain_query_in_order() {
    let query = "ne";
    let contents = "one\ntwo\nnine\nten\nnineteen";
    let found = search(query, contents);
    assert_eq!(vec!["one", "nine", "nineteen"], found);
    for line in found {
        assert!(line.contains(query));
    }
}

#[test]
fn sensitive_keeps_whitespace_insensitive_trims() {
    let contents = "  padded match  \nno hit";
    assert_eq!(vec!["  padded match  "], search("match", contents));
    assert_eq!(vec!["padded match"], search_case_insensitive("MATCH", contents));
}

#[test]
fn carriage_returns_are_line_endings() {
    let contents = "alpha\r\nbeta\r\ngamma";
    assert_eq!(vec!["beta"], search("bet", contents));
}

#[test]
fn trailing_newline_adds_no_line() {
    let contents = "hit\nmiss\n";
    assert_eq!(vec!["hit"], search("hit", contents));
    let empty: Vec<&str> = Vec::new();
    assert_eq!(empty, search("\n", contents));
}

#[test]
fn whole_line_not_required() {
    let contents = "prefix query suffix";
    assert_eq!(vec!["prefix query suffix"], search("query", contents));
}
