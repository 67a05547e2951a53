use minigrep::config::{search_with_config, Config, ConfigError};

fn args_of(parts: &[&str]) -> Vec<String> {
    parts.iter().map(|p| p.to_string()).collect()
}

#[test]
fn one_argument_is_missing_argument() {
    let args = args_of(&["hello"]);
    match Config::new(&args, false) {
        Err(ConfigError::MissingArgument) => {}
        _ => panic!("expected MissingArgument"),
    }
}

#[test]
fn no_argument_is_missing_argument() {
    let args: Vec<String> = Vec::new();
    match Config::new(&args, true) {
        Err(ConfigError::MissingArgument) => {}
        _ => panic!("expected MissingArgument"),
    }
}

#[test]
fn unknown_flag_is_invalid_and_named() {
    let args = args_of(&["hello", "file.txt", "-x"]);
    match Config::new(&args, false) {
        Err(ConfigError::InvalidFlag(token)) => assert_eq!(token, "-x"),
        _ => panic!("expected InvalidFlag"),
    }
}

#[test]
fn defaults_to_case_sensitive_without_env() {
    let args = args_of(&["hello", "file.txt"]);
    let config = match Config::new(&args, false) {
        Ok(c) => c,
        Err(_) => panic!("expected a configuration"),
    };
    assert_eq!(config.query, "hello");
    assert_eq!(config.filename, "file.txt");
    assert!(config.case_sensitive);
}

#[test]
fn env_presence_defaults_to_case_insensitive() {
    let args = args_of(&["hello", "file.txt"]);
    let config = match Config::new(&args, true) {
        Ok(c) => c,
        Err(_) => panic!("expected a configuration"),
    };
    assert!(!config.case_sensitive);
}

#[test]
fn flag_i_forces_case_insensitive() {
    let args = args_of(&["q", "f", "-i"]);
    let config = match Config::new(&args, false) {
        Ok(c) => c,
        Err(_) => panic!("expected a configuration"),
    };
    assert!(!config.case_sensitive);
}

#[test]
fn flag_s_forces_case_sensitive() {
    let args = args_of(&["q", "f", "-s"]);
    let config = match Config::new(&args, true) {
        Ok(c) => c,
        Err(_) => panic!("expected a configuration"),
    };
    assert!(config.case_sensitive);
}

#[test]
fn search_with_config_selects_the_variant() {
    let contents = "Rust:\nsafe, fast, productive.\nPick three.";
    let sensitive = Config {
        query: "rUsT",
        filename: "unused.txt",
        case_sensitive: true,
    };
    assert_eq!(search_with_config(&sensitive, contents), Vec::<(usize, &str)>::new());
    let insensitive = Config {
        query: "rUsT",
        filename: "unused.txt",
        case_sensitive: false,
    };
    assert_eq!(search_with_config(&insensitive, contents), vec![(1, "Rust:")]);
}
