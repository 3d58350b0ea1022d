use minigrep::config::{Config, InputType};
use minigrep::report::{run, search_directory, search_single_file, FileEntry, ReportLine};

fn sensitive_config(query: &str, input_type: InputType) -> Config {
    Config {
        query: query.to_string(),
        name: "target".to_string(),
        input_type,
        case_sensitive: true,
    }
}

fn insensitive_config(query: &str, input_type: InputType) -> Config {
    Config {
        query: query.to_string(),
        name: "target".to_string(),
        input_type,
        case_sensitive: false,
    }
}

#[test]
fn single_file_block_has_header_and_indices() {
    let config = sensitive_config("duct", InputType::File);
    let contents = "Rust:\nsafe, fast, productive.\nPick three.\nDuct tape";
    let report = search_single_file("notes.txt", contents, &config).unwrap();
    assert_eq!(
        vec![
            ReportLine::Header("notes.txt".to_string()),
            ReportLine::Matched(1, "safe, fast, productive.".to_string()),
        ],
        report
    );
}

#[test]
fn single_file_without_match_has_empty_block() {
    let config = sensitive_config("absent", InputType::File);
    let report = search_single_file("notes.txt", "one\ntwo", &config).unwrap();
    assert_eq!(Vec::<ReportLine>::new(), report);
}

#[test]
fn duplicate_lines_report_the_first_index() {
    let config = sensitive_config("dup", InputType::File);
    let report = search_single_file("d.txt", "dup\ndup", &config).unwrap();
    assert_eq!(
        vec![
            ReportLine::Header("d.txt".to_string()),
            ReportLine::Matched(0, "dup".to_string()),
            ReportLine::Matched(0, "dup".to_string()),
        ],
        report
    );
}

#[test]
fn trimmed_match_can_fail_the_index_lookup() {
    let config = insensitive_config("rust", InputType::File);
    let report = search_single_file("r.txt", "  Rust  ", &config);
    assert!(report.is_none());
}

#[test]
fn directory_with_one_matching_file_has_one_header() {
    let config = sensitive_config("needle", InputType::Directory);
    let files = vec![
        FileEntry {
            path: "with.txt".to_string(),
            contents: "hay\nneedle here\nhay".to_string(),
        },
        FileEntry {
            path: "without.txt".to_string(),
            contents: "hay\nonly hay".to_string(),
        },
    ];
    let report = search_directory(&files, &config).unwrap();
    let headers: Vec<&ReportLine> = report
        .iter()
        .filter(|line| matches!(line, ReportLine::Header(_)))
        .collect();
    assert_eq!(1, headers.len());
    assert_eq!(&ReportLine::Header("with.txt".to_string()), headers[0]);
}

#[test]
fn directory_blocks_are_separated_by_blank_lines() {
    let config = sensitive_config("x", InputType::Directory);
    let files = vec![
        FileEntry {
            path: "a.txt".to_string(),
            contents: "x marks".to_string(),
        },
        FileEntry {
            path: "b.txt".to_string(),
            contents: "nothing".to_string(),
        },
    ];
    let report = search_directory(&files, &config).unwrap();
    assert_eq!(
        vec![
            ReportLine::Header("a.txt".to_string()),
            ReportLine::Matched(0, "x marks".to_string()),
            ReportLine::Blank,
            ReportLine::Blank,
        ],
        report
    );
}

#[test]
fn run_on_a_file_builds_its_block() {
    let config = sensitive_config("hit", InputType::File);
    let files = vec![FileEntry {
        path: "f.txt".to_string(),
        contents: "miss\nhit".to_string(),
    }];
    let report = run(&config, &files).unwrap();
    assert_eq!(
        vec![
            ReportLine::Header("f.txt".to_string()),
            ReportLine::Matched(1, "hit".to_string()),
        ],
        report
    );
}

#[test]
fn run_on_a_directory_builds_all_blocks() {
    let config = insensitive_config("KEY", InputType::Directory);
    let files = vec![
        FileEntry {
            path: "k.txt".to_string(),
            contents: "the key line".to_string(),
        },
        FileEntry {
            path: "empty.txt".to_string(),
            contents: "".to_string(),
        },
    ];
    let report = run(&config, &files).unwrap();
    assert_eq!(
        vec![
            ReportLine::Header("k.txt".to_string()),
            ReportLine::Matched(0, "the key line".to_string()),
            ReportLine::Blank,
            ReportLine::Blank,
        ],
        report
    );
}
