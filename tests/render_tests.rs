use bwd::config::{parse_config, Config};
use bwd::error::BwdError;
use bwd::render::{assemble_document, finish_resolve, json_document, produce, render};

fn config(json: bool, short: bool, root: bool) -> Config {
    Config { target: None, copy: false, short, json, root }
}

#[test]
fn default_output_is_the_path() {
    let c = parse_config(&[]);
    let out = render("/home/user/project", &c, Some("/home/user"), None);
    assert_eq!(out, Ok("/home/user/project".to_string()));
}

#[test]
fn short_output_under_home() {
    let c = parse_config(&["-s".to_string()]);
    let out = render("/home/user/docs/x", &c, Some("/home/user"), None);
    assert_eq!(out, Ok("$HOME/docs/x".to_string()));
}

#[test]
fn root_relative_output() {
    let c = config(false, false, true);
    let out = render("/home/user/project/src", &c, None, Some("/home/user/project"));
    assert_eq!(out, Ok("src".to_string()));
    let out = render("/home/user/project", &c, None, Some("/home/user/project"));
    assert_eq!(out, Ok(".".to_string()));
}

#[test]
fn root_relative_without_root_fails() {
    let c = config(false, false, true);
    let out = render("/home/user/project", &c, None, None);
    assert_eq!(out, Err(BwdError::RootNotFound));
    assert_eq!(BwdError::RootNotFound.message(), "Root not found");
}

#[test]
fn short_wins_over_root() {
    let c = config(false, true, true);
    let out = render("/home/user/project/src", &c, Some("/home/user"), None);
    assert_eq!(out, Ok("$HOME/project/src".to_string()));
}

#[test]
fn json_output_holds_three_fields() {
    let expected = "{\"path\":\"/home/user/project/src\",\"short\":\"$HOME/project/src\",\"root\":\"src\"}";
    for (s, r) in [(false, false), (true, false), (false, true), (true, true)] {
        let c = config(true, s, r);
        let out = render("/home/user/project/src", &c, Some("/home/user"), Some("/home/user/project"));
        assert_eq!(out, Ok(expected.to_string()));
        assert!(!expected.contains('\n'));
    }
}

#[test]
fn json_output_without_root_or_home() {
    let c = config(true, false, false);
    let out = render("/var/log", &c, None, None);
    assert_eq!(out, Ok("{\"path\":\"/var/log\",\"short\":\"/var/log\",\"root\":null}".to_string()));
}

#[test]
fn json_strings_are_escaped() {
    let out = json_document("/a\"b", "x\\y", Some("t\nu"));
    assert_eq!(out, Ok("{\"path\":\"/a\\\"b\",\"short\":\"x\\\\y\",\"root\":\"t\\nu\"}".to_string()));
}

#[test]
fn assemble_frames_values() {
    assert_eq!(assemble_document("\"p\"", "\"s\"", None), "{\"path\":\"p\",\"short\":\"s\",\"root\":null}");
    assert_eq!(assemble_document("1", "2", Some("3")), "{\"path\":1,\"short\":2,\"root\":3}");
}

#[test]
fn produce_without_root_search() {
    let c = config(false, false, false);
    assert_eq!(produce("/tmp", &c, None), Ok("/tmp".to_string()));
    let c = config(false, true, true);
    assert_eq!(produce("/home/user/x", &c, Some("/home/user")), Ok("$HOME/x".to_string()));
}

#[test]
fn resolve_outcomes() {
    assert_eq!(
        finish_resolve("missing", false, Err(String::new())),
        Err(BwdError::InvalidPath("missing".to_string()))
    );
    assert_eq!(
        finish_resolve("x", true, Ok(r"\\?\C:\work\x".to_string())),
        Ok(r"C:\work\x".to_string())
    );
    assert_eq!(finish_resolve("x", true, Ok("/work/x".to_string())), Ok("/work/x".to_string()));
    assert_eq!(
        finish_resolve("x", true, Err("denied".to_string())),
        Err(BwdError::Io("denied".to_string()))
    );
}

#[test]
fn error_messages() {
    assert_eq!(BwdError::InvalidPath("nope".to_string()).message(), "Invalid path: 'nope'");
    assert_eq!(BwdError::Io("x".to_string()).message(), "IO Error: x");
    assert_eq!(BwdError::Clipboard("y".to_string()).message(), "Clipboard Error: y");
    assert_eq!(BwdError::Json("z".to_string()).message(), "JSON Error: z");
}

#[test]
fn json_control_characters() {
    let out = json_document("\u{1}\u{1f}", "\u{8}\u{c}\r\t", None);
    assert_eq!(out, Ok("{\"path\":\"\\u0001\\u001f\",\"short\":\"\\b\\f\\r\\t\",\"root\":null}".to_string()));
}
