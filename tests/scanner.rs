use minigrep::{line_contains, scan, search, search_case_insensitive, Config, ConfigError};

fn config(query: &str, case_sensitive: bool) -> Config {
    Config {
        query: query.to_string(),
        filename: "poem.txt".to_string(),
        case_sensitive,
    }
}

#[test]
fn only_program_name_misses_query() {
    let args = vec!["minigrep".to_string()];
    assert_eq!(Config::new(args.into_iter(), false), Err(ConfigError::MissingQuery));
}

#[test]
fn no_arguments_at_all_misses_query() {
    let args: Vec<String> = Vec::new();
    assert_eq!(Config::new(args.into_iter(), true), Err(ConfigError::MissingQuery));
}

#[test]
fn program_name_and_query_misses_source() {
    let args = vec!["minigrep".to_string(), "to".to_string()];
    assert_eq!(Config::new(args.into_iter(), false), Err(ConfigError::MissingSource));
}

#[test]
fn flag_absent_means_case_sensitive() {
    let args = vec!["minigrep".to_string(), "to".to_string(), "poem.txt".to_string()];
    let c = Config::new(args.into_iter(), false).unwrap();
    assert!(c.case_sensitive);
    assert_eq!(c.query, "to");
    assert_eq!(c.filename, "poem.txt");
}

#[test]
fn flag_present_means_case_insensitive() {
    let args = vec!["minigrep".to_string(), "to".to_string(), "poem.txt".to_string()];
    let c = Config::new(args.into_iter(), true).unwrap();
    assert!(!c.case_sensitive);
}

#[test]
fn arguments_after_source_are_ignored() {
    let args = vec![
        "minigrep".to_string(),
        "to".to_string(),
        "poem.txt".to_string(),
        "extra".to_string(),
        "more".to_string(),
    ];
    assert_eq!(Config::new(args.into_iter(), false), Ok(config("to", true)));
}

#[test]
fn empty_query_keeps_every_line_exact() {
    let contents = "one\n\ntwo\nthree";
    assert_eq!(search("", contents), vec!["one", "", "two", "three"]);
}

#[test]
fn empty_query_keeps_every_line_folded() {
    let contents = "One\nTWO\n";
    assert_eq!(search_case_insensitive("", contents), vec!["One", "TWO"]);
}

#[test]
fn empty_text_has_no_lines() {
    assert!(search("x", "").is_empty());
    assert!(search("", "").is_empty());
    assert!(search_case_insensitive("X", "").is_empty());
    assert!(search_case_insensitive("", "").is_empty());
}

#[test]
fn trailing_newline_opens_no_line() {
    assert_eq!(search("", "a\nb\n"), vec!["a", "b"]);
    assert_eq!(search("", "\n"), vec![""]);
    assert_eq!(search("", "a\n\n"), vec!["a", ""]);
}

#[test]
fn last_line_without_newline_is_kept() {
    assert_eq!(search("end", "start\nthe end"), vec!["the end"]);
}

#[test]
fn exact_search_respects_case() {
    let contents = "Rust:\nrust belt\nTRUST";
    assert_eq!(search("rust", contents), vec!["rust belt"]);
    assert_eq!(search("Rust", contents), vec!["Rust:"]);
}

#[test]
fn matches_keep_text_order_and_repeats() {
    let contents = "b1\na\nb2\nb1";
    assert_eq!(search("b", contents), vec!["b1", "b2", "b1"]);
}

#[test]
fn query_longer_than_line_does_not_match() {
    assert!(search("abcdef", "abc\nde").is_empty());
}

#[test]
fn returned_lines_point_into_the_text() {
    let contents = String::from("alpha\nbeta\ngamma");
    let found = search("eta", &contents);
    assert_eq!(found, vec!["beta"]);
    let start = contents.as_ptr() as usize;
    let at = found[0].as_ptr() as usize;
    assert_eq!(at - start, 6);
}

#[test]
fn multibyte_text_splits_on_newlines() {
    let contents = "grüße\nnaïve café\n日本語";
    assert_eq!(search("é", contents), vec!["naïve café"]);
    assert_eq!(search("本", contents), vec!["日本語"]);
    assert_eq!(search("", contents), vec!["grüße", "naïve café", "日本語"]);
}

#[test]
fn folded_search_lowercases_non_ascii() {
    let contents = "ÄPFEL\nbirnen\näpfel";
    assert_eq!(search_case_insensitive("äPfEl", contents), vec!["ÄPFEL", "äpfel"]);
}

#[test]
fn line_contains_exact_values() {
    assert!(line_contains("safe, fast, productive.", "duct"));
    assert!(!line_contains("Duct tape.", "duct"));
    assert!(line_contains("abc", ""));
    assert!(line_contains("", ""));
    assert!(!line_contains("", "a"));
    assert!(line_contains("aaab", "aab"));
}

#[test]
fn scan_follows_the_mode() {
    let contents = "Rust:\nsafe, fast, productive.\nPick three.\nTrust me.";
    assert_eq!(scan(&config("rUsT", true), contents), Vec::<&str>::new());
    assert_eq!(scan(&config("rUsT", false), contents), vec!["Rust:", "Trust me."]);
    assert_eq!(scan(&config("Rust", true), contents), vec!["Rust:"]);
}

#[test]
fn scan_of_empty_text() {
    assert!(scan(&config("a", false), "").is_empty());
    assert!(scan(&config("a", true), "").is_empty());
}

#[test]
fn error_messages() {
    assert_eq!(ConfigError::MissingQuery.message(), "A query string must be specified");
    assert_eq!(ConfigError::MissingSource.message(), "A filename must be specified");
}

#[test]
fn crlf_terminator_is_dropped() {
    assert_eq!(search("a", "a\r\nb"), vec!["a"]);
    assert_eq!(search("", "a\r\nb"), vec!["a", "b"]);
    assert_eq!(search("", "one\r\ntwo\r\n"), vec!["one", "two"]);
    assert_eq!(search("", "\r\n"), vec![""]);
    assert_eq!(search_case_insensitive("A", "a\r\nb\r\nA"), vec!["a", "A"]);
}

#[test]
fn only_one_carriage_return_belongs_to_the_terminator() {
    assert_eq!(search("", "a\r\r\nb"), vec!["a\r", "b"]);
}

#[test]
fn lone_carriage_return_stays_in_the_line() {
    assert_eq!(search("", "a\rb\nc"), vec!["a\rb", "c"]);
    assert_eq!(search("", "a\nb\r"), vec!["a", "b\r"]);
    assert_eq!(search("\r", "x\r\ny\r"), vec!["y\r"]);
}
