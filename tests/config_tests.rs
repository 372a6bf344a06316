use bwd::config::{parse_config, requested, Request};

fn strings(args: &[&str]) -> Vec<String> {
    args.iter().map(|a| a.to_string()).collect()
}

#[test]
fn test_parse_config_defaults() {
    let args: Vec<String> = vec![];
    let config = parse_config(&args);
    assert_eq!(config.target, None);
    assert_eq!(config.copy, false);
    assert_eq!(config.short, false);
    assert_eq!(config.json, false);
    assert_eq!(config.root, false);
}

#[test]
fn test_parse_config_short_flag() {
    let args: Vec<String> = vec!["-s".to_string()];
    let config = parse_config(&args);
    assert!(config.short);
    assert!(!config.json);
}

#[test]
fn test_parse_config_json_flag() {
    let args: Vec<String> = vec!["--json".to_string()];
    let config = parse_config(&args);
    assert!(config.json);
    assert!(!config.short);
}

#[test]
fn test_parse_config_all_flags() {
    let args: Vec<String> = vec!["-c".to_string(), "-s".to_string(), "-j".to_string()];
    let config = parse_config(&args);
    assert!(config.copy);
    assert!(config.short);
    assert!(config.json);
}

#[test]
fn test_parse_config_target_only() {
    let args: Vec<String> = vec!["some/path".to_string()];
    let config = parse_config(&args);
    assert_eq!(config.target, Some("some/path".to_string()));
}

#[test]
fn test_parse_config_ignore_unknown_flags_as_target() {
    let args: Vec<String> = vec!["-x".to_string()];
    let config = parse_config(&args);
    assert_eq!(config.target, None);
    let args2: Vec<String> = vec!["-x".to_string(), "path".to_string()];
    let config2 = parse_config(&args2);
    assert_eq!(config2.target, Some("path".to_string()));
}

#[test]
fn test_parse_config_dash_separator() {
    let args: Vec<String> = vec!["--".to_string(), "-file".to_string()];
    let config = parse_config(&args);
    assert_eq!(config.target, Some("-file".to_string()));
    assert!(!config.copy);
}

#[test]
fn test_parse_config_dash_separator_with_flags() {
    let args: Vec<String> = vec!["-c".to_string(), "--".to_string(), "-file".to_string()];
    let config = parse_config(&args);
    assert_eq!(config.target, Some("-file".to_string()));
    assert!(config.copy);
}

#[test]
fn test_parse_config_flags_after_separator_are_target() {
    let args: Vec<String> = vec!["--".to_string(), "-c".to_string()];
    let config = parse_config(&args);
    assert_eq!(config.target, Some("-c".to_string()));
    assert!(!config.copy);
}

#[test]
fn test_parse_config_root_flag() {
    let args: Vec<String> = vec!["-r".to_string()];
    let config = parse_config(&args);
    assert!(config.root);
}

#[test]
fn empty_arguments_give_defaults() {
    let config = parse_config(&[]);
    assert_eq!(config.target, None);
    assert!(!config.copy && !config.short && !config.json && !config.root);
}

#[test]
fn copy_target_short() {
    let config = parse_config(&strings(&["-c", "target", "-s"]));
    assert_eq!(config.target, Some("target".to_string()));
    assert!(config.copy);
    assert!(config.short);
    assert!(!config.root);
    assert!(!config.json);
}

#[test]
fn separator_then_flag_shaped_target() {
    let config = parse_config(&strings(&["--", "-file"]));
    assert_eq!(config.target, Some("-file".to_string()));
    assert!(!config.copy && !config.short && !config.json && !config.root);
    let config = parse_config(&strings(&["-c", "--", "-file"]));
    assert_eq!(config.target, Some("-file".to_string()));
    assert!(config.copy);
}

#[test]
fn long_flags_are_recognised() {
    let config = parse_config(&strings(&["--copy", "--short", "--json", "--root"]));
    assert!(config.copy && config.short && config.json && config.root);
    assert_eq!(config.target, None);
}

#[test]
fn first_target_wins() {
    let config = parse_config(&strings(&["a", "-r", "b", "--", "c"]));
    assert_eq!(config.target, Some("a".to_string()));
    assert!(config.root);
}

#[test]
fn unknown_flags_never_become_target() {
    let config = parse_config(&strings(&["-x", "--weird", "-"]));
    assert_eq!(config.target, None);
    assert!(!config.copy && !config.short && !config.json && !config.root);
    let config = parse_config(&strings(&["-x", "--", "-x"]));
    assert_eq!(config.target, Some("-x".to_string()));
}

#[test]
fn second_separator_is_a_target() {
    let config = parse_config(&strings(&["--", "--", "x"]));
    assert_eq!(config.target, Some("--".to_string()));
}

#[test]
fn separator_alone_gives_defaults() {
    let config = parse_config(&strings(&["--"]));
    assert_eq!(config.target, None);
    assert!(!config.copy && !config.short && !config.json && !config.root);
}

#[test]
fn target_is_kept_verbatim() {
    let config = parse_config(&strings(&[" spaced dir "]));
    assert_eq!(config.target, Some(" spaced dir ".to_string()));
}

#[test]
fn help_and_version_before_separator() {
    assert_eq!(requested(&strings(&["-h"])), Request::Help);
    assert_eq!(requested(&strings(&["x", "--help"])), Request::Help);
    assert_eq!(requested(&strings(&["-v"])), Request::Version);
    assert_eq!(requested(&strings(&["--version", "-h"])), Request::Help);
    assert_eq!(requested(&strings(&["--", "-h"])), Request::Resolve);
    assert_eq!(requested(&strings(&["-c", "--", "--version"])), Request::Resolve);
    assert_eq!(requested(&strings(&[])), Request::Resolve);
}
