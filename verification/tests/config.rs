use minigrep_cli_tool::config::{
    Config, EXACT_CASE_FLAG, IGNORE_CASE_FLAG, MISSING_FILE_PATH, MISSING_QUERY,
};

fn words(args: &[&str]) -> Vec<String> {
    args.iter().map(|arg| arg.to_string()).collect()
}

fn message(args: &[&str]) -> &'static str {
    match Config::build(&words(args), false) {
        Ok(_) => panic!("a configuration was built"),
        Err(message) => message,
    }
}

fn built(args: &[&str], otherwise: bool) -> Config {
    match Config::build(&words(args), otherwise) {
        Ok(config) => config,
        Err(message) => panic!("no configuration was built: {}", message),
    }
}

#[test]
fn the_messages_and_flags_are_spelled_out() {
    assert_eq!(MISSING_QUERY, "Didn't get a query string");
    assert_eq!(MISSING_FILE_PATH, "Didn't get a file path ");
    assert_eq!(IGNORE_CASE_FLAG, "/i");
    assert_eq!(EXACT_CASE_FLAG, "/s");
}

#[test]
fn no_query_is_refused() {
    assert_eq!(message(&[]), "Didn't get a query string");
    assert_eq!(message(&["minigrep"]), "Didn't get a query string");
}

#[test]
fn no_file_path_is_refused() {
    assert_eq!(message(&["minigrep", "needle"]), "Didn't get a file path ");
}

#[test]
fn query_and_file_path_are_taken_in_order() {
    let config = built(&["minigrep", "needle", "haystack.txt"], false);
    assert_eq!(config.query, "needle");
    assert_eq!(config.file_path, "haystack.txt");
    assert!(!config.ignore_case);
}

#[test]
fn without_a_flag_the_fallback_decides() {
    assert!(built(&["minigrep", "needle", "haystack.txt"], true).ignore_case);
    assert!(!built(&["minigrep", "needle", "haystack.txt"], false).ignore_case);
}

#[test]
fn the_flags_overrule_the_fallback() {
    assert!(built(&["minigrep", "needle", "haystack.txt", "/i"], false).ignore_case);
    assert!(built(&["minigrep", "needle", "haystack.txt", "/i"], true).ignore_case);
    assert!(!built(&["minigrep", "needle", "haystack.txt", "/s"], true).ignore_case);
    assert!(!built(&["minigrep", "needle", "haystack.txt", "/s"], false).ignore_case);
}

#[test]
fn anything_else_in_the_flag_s_place_leaves_it_to_the_fallback() {
    for other in ["/I", "/S", "-i", "i", "/i ", "", "/is"] {
        assert!(built(&["minigrep", "needle", "haystack.txt", other], true).ignore_case);
        assert!(!built(&["minigrep", "needle", "haystack.txt", other], false).ignore_case);
    }
}

#[test]
fn only_the_fourth_argument_can_be_a_flag() {
    assert!(!built(&["minigrep", "needle", "haystack.txt", "more", "/i"], false).ignore_case);
    assert!(built(&["minigrep", "needle", "haystack.txt", "/i", "/s"], false).ignore_case);
    let config = built(&["minigrep", "/i", "/s"], false);
    assert_eq!(config.query, "/i");
    assert_eq!(config.file_path, "/s");
    assert!(!config.ignore_case);
}
