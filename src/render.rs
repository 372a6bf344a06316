//! Choosing and producing the output: the structured document, the
//! home-shortened form, the root-relative form, or the absolute path.
use vstd::prelude::*;
use crate::config::Config;
use crate::error::BwdError;
use crate::paths::{
    clean_spec, clean_windows_path, relative_spec, relative_to, shorten_path, shorten_spec,
    str_opt_view, string_opt_view,
};
use crate::root::{find_root, root_of};

verus! {

/// The lower-case hexadecimal digit of `n` (below 16).
pub open spec fn hex_digit(n: int) -> char {
    seq!['0', '1', '2', '3', '4', '5', '6', '7', '8', '9', 'a', 'b', 'c', 'd', 'e', 'f'][n]
}

/// One character inside a JSON string: `"` and `\` behind a backslash, the
/// control characters with a short escape as `\b \t \n \f \r`, the other
/// characters below 0x20 as `\u00xx`, everything else as it is.
pub open spec fn escape_char(c: char) -> Seq<char> {
    if c == '"' {
        seq!['\\', '"']
    } else if c == '\\' {
        seq!['\\', '\\']
    } else if c == '\u{8}' {
        seq!['\\', 'b']
    } else if c == '\t' {
        seq!['\\', 't']
    } else if c == '\n' {
        seq!['\\', 'n']
    } else if c == '\u{c}' {
        seq!['\\', 'f']
    } else if c == '\r' {
        seq!['\\', 'r']
    } else if (c as u32) < 0x20 {
        seq!['\\', 'u', '0', '0', hex_digit((c as u32) as int / 16), hex_digit((c as u32) as int % 16)]
    } else {
        seq![c]
    }
}

/// The characters of `s`, each escaped.
pub open spec fn escape_seq(s: Seq<char>) -> Seq<char>
    decreases s.len(),
{
    if s.len() == 0 {
        Seq::empty()
    } else {
        escape_seq(s.drop_last()) + escape_char(s.last())
    }
}

/// The JSON text of a string value: its escaped characters between quotes.
pub open spec fn json_text_of(s: Seq<char>) -> Seq<char> {
    seq!['"'] + escape_seq(s) + seq!['"']
}

/// Relies on tinyjson's JsonValue::stringify on a string value: the quoted,
/// escaped text. Its generator writes into a `Vec`, which never fails, so a
/// string value always comes out.
#[verifier::external_body]
fn json_string(s: &str) -> (r: Result<String, String>)
    ensures
        r is Ok,
        r matches Ok(t) ==> t@ == json_text_of(s@),
{
    tinyjson::JsonValue::String(s.to_string()).stringify().map_err(|e| e.message().to_string())
}

/// The document with the three encoded values; a missing root is `null`.
pub open spec fn document_spec(
    path_text: Seq<char>,
    short_text: Seq<char>,
    root_text: Option<Seq<char>>,
) -> Seq<char> {
    "{\"path\":"@ + path_text + ",\"short\":"@ + short_text + ",\"root\":"@ + match root_text {
        Some(t) => t,
        None => "null"@,
    } + "}"@
}

/// The structured document of a path, its short form and its root-relative form.
pub open spec fn json_document_spec(
    path: Seq<char>,
    short: Seq<char>,
    root: Option<Seq<char>>,
) -> Seq<char> {
    document_spec(
        json_text_of(path),
        json_text_of(short),
        match root {
            Some(r) => Some(json_text_of(r)),
            None => None,
        },
    )
}

/// Frames already encoded values into the document, in the order path, short, root.
pub fn assemble_document(path_text: &str, short_text: &str, root_text: Option<&str>) -> (r: String)
    ensures
        r@ == document_spec(path_text@, short_text@, str_opt_view(root_text)),
{
    let mut out = String::from_str("{\"path\":");
    out.append(path_text);
    out.append(",\"short\":");
    out.append(short_text);
    out.append(",\"root\":");
    match root_text {
        Some(t) => out.append(t),
        None => out.append("null"),
    }
    out.append("}");
    out
}

/// Encodes the three values and frames them into the document.
pub fn json_document(path: &str, short: &str, root: Option<&str>) -> (r: Result<String, BwdError>)
    ensures
        r matches Ok(d) && d@ == json_document_spec(path@, short@, str_opt_view(root)),
{
    let p = match json_string(path) {
        Ok(t) => t,
        Err(m) => return Err(BwdError::Json(m)),
    };
    let s = match json_string(short) {
        Ok(t) => t,
        Err(m) => return Err(BwdError::Json(m)),
    };
    match root {
        Some(rt) => {
            let q = match json_string(rt) {
                Ok(t) => t,
                Err(m) => return Err(BwdError::Json(m)),
            };
            Ok(assemble_document(p.as_str(), s.as_str(), Some(q.as_str())))
        },
        None => Ok(assemble_document(p.as_str(), s.as_str(), None)),
    }
}

/// What rendering comes to, as a value of the model.
pub enum Outcome {
    Text(Seq<char>),
    NoRoot,
    JsonFailed,
    Other,
}

/// The outcome that a result stands for.
pub open spec fn outcome_of(r: Result<String, BwdError>) -> Outcome {
    match r {
        Ok(t) => Outcome::Text(t@),
        Err(BwdError::RootNotFound) => Outcome::NoRoot,
        Err(BwdError::Json(_)) => Outcome::JsonFailed,
        Err(_) => Outcome::Other,
    }
}

/// The root-relative form, when a root is known.
pub open spec fn relative_opt(path: Seq<char>, root: Option<Seq<char>>) -> Option<Seq<char>> {
    match root {
        Some(r) => Some(relative_spec(path, r)),
        None => None,
    }
}

/// The output for `path` under the mode flags, given its project root (if any):
/// the document first, then the short form, then the root-relative form (which
/// fails without a root), else the path itself.
pub open spec fn render_spec(
    path: Seq<char>,
    json: bool,
    short: bool,
    rooted: bool,
    home: Option<Seq<char>>,
    root: Option<Seq<char>>,
) -> Outcome {
    if json {
        Outcome::Text(json_document_spec(path, shorten_spec(path, home), relative_opt(path, root)))
    } else if short {
        Outcome::Text(shorten_spec(path, home))
    } else if rooted {
        match root {
            Some(r) => Outcome::Text(relative_spec(path, r)),
            None => Outcome::NoRoot,
        }
    } else {
        Outcome::Text(path)
    }
}

/// Renders `path` under `config`, with the home directory and the project
/// root found for it.
pub fn render(path: &str, config: &Config, home: Option<&str>, root: Option<&str>) -> (r: Result<
    String,
    BwdError,
>)
    ensures
        outcome_of(r) == render_spec(
            path@,
            config.json,
            config.short,
            config.root,
            str_opt_view(home),
            str_opt_view(root),
        ),
{
    if config.json {
        let short = shorten_path(path, home);
        match root {
            Some(rt) => {
                let rel = relative_to(path, rt);
                json_document(path, short.as_str(), Some(rel.as_str()))
            },
            None => json_document(path, short.as_str(), None),
        }
    } else if config.short {
        Ok(shorten_path(path, home))
    } else if config.root {
        match root {
            Some(rt) => Ok(relative_to(path, rt)),
            None => Err(BwdError::RootNotFound),
        }
    } else {
        Ok(String::from_str(path))
    }
}

/// Searches for the project root when the mode needs it, then renders. The
/// result is the rendering for the root that some set of marked directories
/// gives.
pub fn produce(path: &str, config: &Config, home: Option<&str>) -> (r: Result<String, BwdError>)
    ensures
        exists|marked: Set<Seq<char>>|
            outcome_of(r) == render_spec(
                path@,
                config.json,
                config.short,
                config.root,
                str_opt_view(home),
                #[trigger] root_of(path@, marked),
            ),
        !config.json && (config.short || !config.root) ==> outcome_of(r) == render_spec(
            path@,
            config.json,
            config.short,
            config.root,
            str_opt_view(home),
            None,
        ),
{
    if config.json || (!config.short && config.root) {
        let found = find_root(path);
        let root: Option<&str> = match &found {
            Some(rt) => Some(rt.as_str()),
            None => None,
        };
        let r = render(path, config, home, root);
        proof {
            let m = choose|m: Set<Seq<char>>| #[trigger] root_of(path@, m) == string_opt_view(found);
            assert(str_opt_view(root) == root_of(path@, m));
        }
        r
    } else {
        let r = render(path, config, home, None);
        proof {
            // This mode does not read the root: any set of marked directories serves.
            assert(outcome_of(r) == render_spec(
                path@,
                config.json,
                config.short,
                config.root,
                str_opt_view(home),
                root_of(path@, Set::empty()),
            ));
        }
        r
    }
}

/// The resolved form of an existing target: its canonical form without the
/// extended-length marker. A target that is not on disk is reported as given;
/// a failed canonicalisation as an I/O error.
pub fn finish_resolve(target: &str, found: bool, canonical: Result<String, String>) -> (r: Result<
    String,
    BwdError,
>)
    ensures
        !found ==> (r matches Err(BwdError::InvalidPath(t)) && t@ == target@),
        found ==> match canonical {
            Ok(c) => (r matches Ok(p) && p@ == clean_spec(c@)),
            Err(m) => r == Err::<String, BwdError>(BwdError::Io(m)),
        },
{
    if !found {
        return Err(BwdError::InvalidPath(String::from_str(target)));
    }
    match canonical {
        Ok(c) => Ok(clean_windows_path(c)),
        Err(m) => Err(BwdError::Io(m)),
    }
}

} // verus!
