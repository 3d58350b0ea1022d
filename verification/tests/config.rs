use minigrep::config::{Config, ConfigError, InputType};

fn args(parts: &[&str]) -> Vec<String> {
    parts.iter().map(|p| p.to_string()).collect()
}

#[test]
fn missing_path_is_rejected() {
    let result = Config::new(&args(&["prog"]), true, true);
    assert_eq!(Err(ConfigError::MissingPath), result.map(|_| ()));
}

#[test]
fn empty_query_is_rejected() {
    let result = Config::new(&args(&["prog", "some/path"]), true, true);
    assert_eq!(Err(ConfigError::EmptyQuery), result.map(|_| ()));
}

#[test]
fn query_words_are_joined_with_spaces() {
    let config = Config::new(&args(&["prog", "some/path", "hello", "wide", "world"]), true, true)
        .unwrap();
    assert_eq!("hello wide world", config.query);
    assert_eq!("some/path", config.name);
    assert!(config.case_sensitive);
    assert!(matches!(config.input_type, InputType::File));
}

#[test]
fn directory_targets_and_case_mode_are_recorded() {
    let config = Config::new(&args(&["prog", "dir", "q"]), false, false).unwrap();
    assert_eq!("q", config.query);
    assert!(!config.case_sensitive);
    assert!(matches!(config.input_type, InputType::Directory));
}

#[test]
fn error_messages_name_what_is_missing() {
    assert_eq!(
        "Didn't get a file or folder name",
        ConfigError::MissingPath.message()
    );
    assert_eq!("Didn't get a query", ConfigError::EmptyQuery.message());
}
