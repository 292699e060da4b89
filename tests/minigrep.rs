use minigrep::{search, search_case_insensitive, Config};

#[test]
fn config_new_with_valid_args() {
    let args = vec!["".to_string(), "foo".to_string(), "bar".to_string()];
    assert_eq!(
        Config::new(args.into_iter(), false).unwrap(),
        Config {
            query: String::from("foo"),
            filename: String::from("bar"),
            case_sensitive: true
        }
    );
}

#[test]
fn config_new_without_query() {
    let args = vec!["".to_string()];
    assert_eq!(
        Config::new(args.into_iter(), false).unwrap_err().message(),
        "A query string must be specified"
    );
}

#[test]
fn config_new_without_filename() {
    let args = vec!["".to_string(), "".to_string()];
    assert_eq!(
        Config::new(args.into_iter(), false).unwrap_err().message(),
        "A filename must be specified"
    );
}

#[test]
fn test_search_case_sensitivity() {
    let query = "duct";
    let contents = "\
Rust:
safe, fast, productive.
Pick three.
Duct tape.";

    assert_eq!(vec!["safe, fast, productive."], search(query, contents));
}

#[test]
fn test_search_case_insensitive() {
    let query = "rUsT";
    let contents = "\
Rust:
safe, fast, productive.
Pick three.
Trust me.";

    assert_eq!(
        vec!["Rust:", "Trust me."],
        search_case_insensitive(query, contents)
    );
}
