//! The command-line reading: flags, the `--` separator, and the target.
use vstd::prelude::*;
use crate::paths::{same_text, string_opt_view};

verus! {

/// What one invocation asks for.
pub struct Config {
    /// The first token taken as a path, if any.
    pub target: Option<String>,
    /// Copy the output to the clipboard.
    pub copy: bool,
    /// Replace a leading home directory by `$HOME`.
    pub short: bool,
    /// Emit the structured document.
    pub json: bool,
    /// Show the path relative to the project root.
    pub root: bool,
}

/// The state of the scan over the arguments.
pub struct ParseModel {
    pub target: Option<Seq<char>>,
    pub copy: bool,
    pub short: bool,
    pub json: bool,
    pub root: bool,
    /// Whether tokens are still read as flags (no separator seen yet).
    pub flags: bool,
}

/// A token that starts with '-'.
pub open spec fn is_flag_shaped(a: Seq<char>) -> bool {
    a.len() > 0 && a[0] == '-'
}

pub open spec fn is_separator(a: Seq<char>) -> bool {
    a == "--"@
}

pub open spec fn is_copy_flag(a: Seq<char>) -> bool {
    a == "-c"@ || a == "--copy"@
}

pub open spec fn is_short_flag(a: Seq<char>) -> bool {
    a == "-s"@ || a == "--short"@
}

pub open spec fn is_json_flag(a: Seq<char>) -> bool {
    a == "-j"@ || a == "--json"@
}

pub open spec fn is_root_flag(a: Seq<char>) -> bool {
    a == "-r"@ || a == "--root"@
}

pub open spec fn is_help_flag(a: Seq<char>) -> bool {
    a == "-h"@ || a == "--help"@
}

pub open spec fn is_version_flag(a: Seq<char>) -> bool {
    a == "-v"@ || a == "--version"@
}

/// The scan before any token.
pub open spec fn initial_model() -> ParseModel {
    ParseModel { target: None, copy: false, short: false, json: false, root: false, flags: true }
}

/// The scan after one more token `a`. While flags are read, the separator ends
/// flag reading and a flag-shaped token sets its field or, unknown, nothing;
/// any other token becomes the target unless one was already taken.
pub open spec fn parse_step(st: ParseModel, a: Seq<char>) -> ParseModel {
    if st.flags && is_separator(a) {
        ParseModel { flags: false, ..st }
    } else if st.flags && is_flag_shaped(a) {
        ParseModel {
            copy: st.copy || is_copy_flag(a),
            short: st.short || is_short_flag(a),
            json: st.json || is_json_flag(a),
            root: st.root || is_root_flag(a),
            ..st
        }
    } else if st.target is None {
        ParseModel { target: Some(a), ..st }
    } else {
        st
    }
}

/// The scan after the first `n` tokens.
pub open spec fn parse_prefix(args: Seq<Seq<char>>, n: nat) -> ParseModel
    decreases n,
{
    if n == 0 || n > args.len() {
        initial_model()
    } else {
        parse_step(parse_prefix(args, (n - 1) as nat), args[n - 1])
    }
}

/// The configuration that a whole argument list gives.
pub open spec fn parse_spec(args: Seq<Seq<char>>) -> ParseModel {
    parse_prefix(args, args.len())
}

/// The characters of each argument.
pub open spec fn args_view(args: &[String]) -> Seq<Seq<char>> {
    args@.map_values(|s: String| s@)
}

/// `c` holds what the model `m` holds.
pub open spec fn config_agrees(c: Config, m: ParseModel) -> bool {
    &&& string_opt_view(c.target) == m.target
    &&& c.copy == m.copy
    &&& c.short == m.short
    &&& c.json == m.json
    &&& c.root == m.root
}

/// Reads the argument list into a configuration. It never fails: unknown flags
/// are dropped, and tokens after the first target are ignored.
pub fn parse_config(args: &[String]) -> (r: Config)
    ensures
        config_agrees(r, parse_spec(args_view(args))),
{
    let ghost v = args_view(args);
    let mut target: Option<String> = None;
    let mut copy = false;
    let mut short = false;
    let mut json = false;
    let mut root = false;
    let mut parsing_flags = true;
    let mut i: usize = 0;
    while i < args.len()
        invariant
            i <= args.len(),
            v == args_view(args),
            v.len() == args.len(),
            ({
                let m = parse_prefix(v, i as nat);
                &&& string_opt_view(target) == m.target
                &&& copy == m.copy
                &&& short == m.short
                &&& json == m.json
                &&& root == m.root
                &&& parsing_flags == m.flags
            }),
        decreases args.len() - i,
    {
        let arg = &args[i];
        let a = arg.as_str();
        assert(a@ == v[i as int]);
        if parsing_flags && same_text(a, "--") {
            parsing_flags = false;
        } else if parsing_flags && a.unicode_len() > 0 && a.get_char(0) == '-' {
            if same_text(a, "-c") || same_text(a, "--copy") {
                copy = true;
            }
            if same_text(a, "-s") || same_text(a, "--short") {
                short = true;
            }
            if same_text(a, "-j") || same_text(a, "--json") {
                json = true;
            }
            if same_text(a, "-r") || same_text(a, "--root") {
                root = true;
            }
        } else if target.is_none() {
            target = Some(arg.clone());
        }
        i = i + 1;
    }
    Config { target, copy, short, json, root }
}

/// A token that starts with '-' becomes the target only from after a separator:
/// an unknown flag read as a flag is never the target.
pub proof fn lemma_flag_shaped_target_after_separator(args: Seq<Seq<char>>)
    ensures
        parse_spec(args).target is Some && is_flag_shaped(parse_spec(args).target->0) ==> exists|
            j: int,
            i: int,
        |
            0 <= j < i < args.len() && #[trigger] is_separator(args[j]) && #[trigger] args[i]
                == parse_spec(args).target->0,
{
    lemma_target_origin(args, args.len());
}

/// While flags are read, a flag-shaped token that names no flag leaves the
/// scan as it was.
pub proof fn lemma_unknown_flag_ignored(st: ParseModel, a: Seq<char>)
    requires
        st.flags,
        is_flag_shaped(a),
        !is_separator(a),
        !is_copy_flag(a),
        !is_short_flag(a),
        !is_json_flag(a),
        !is_root_flag(a),
    ensures
        parse_step(st, a) == st,
{
}

/// Inserting a flag-shaped token that names no flag anywhere before the first
/// separator changes nothing in the configuration.
pub proof fn lemma_unknown_flag_insertion(args: Seq<Seq<char>>, i: int, u: Seq<char>)
    requires
        0 <= i <= args.len(),
        forall|j: int| 0 <= j < i ==> !is_separator(#[trigger] args[j]),
        is_flag_shaped(u),
        !is_separator(u),
        !is_copy_flag(u),
        !is_short_flag(u),
        !is_json_flag(u),
        !is_root_flag(u),
    ensures
        parse_spec(args.insert(i, u)) == parse_spec(args),
{
    let longer = args.insert(i, u);
    lemma_prefix_agrees(args, longer, i as nat);
    lemma_flags_kept(args, i as nat);
    lemma_unknown_flag_ignored(parse_prefix(args, i as nat), u);
    assert(longer[i] == u);
    lemma_shifted_agrees(args, i, u, args.len() as nat);
}

/// The scan of two lists that agree on their first `n` tokens agrees there.
proof fn lemma_prefix_agrees(a: Seq<Seq<char>>, b: Seq<Seq<char>>, n: nat)
    requires
        n <= a.len(),
        n <= b.len(),
        forall|j: int| 0 <= j < n ==> a[j] == b[j],
    ensures
        parse_prefix(a, n) == parse_prefix(b, n),
    decreases n,
{
    if n > 0 {
        lemma_prefix_agrees(a, b, (n - 1) as nat);
    }
}

/// Flags are still read after tokens that hold no separator.
proof fn lemma_flags_kept(a: Seq<Seq<char>>, n: nat)
    requires
        n <= a.len(),
        forall|j: int| 0 <= j < n ==> !is_separator(#[trigger] a[j]),
    ensures
        parse_prefix(a, n).flags,
    decreases n,
{
    if n > 0 {
        lemma_flags_kept(a, (n - 1) as nat);
    }
}

/// After the inserted token the scans stay one token apart and agree.
proof fn lemma_shifted_agrees(args: Seq<Seq<char>>, i: int, u: Seq<char>, n: nat)
    requires
        0 <= i <= n <= args.len(),
        parse_prefix(args.insert(i, u), (i + 1) as nat) == parse_prefix(args, i as nat),
    ensures
        parse_prefix(args.insert(i, u), n + 1) == parse_prefix(args, n),
    decreases n,
{
    if n > i {
        lemma_shifted_agrees(args, i, u, (n - 1) as nat);
        assert(args.insert(i, u)[n as int] == args[n - 1]);
    }
}

proof fn lemma_target_origin(args: Seq<Seq<char>>, n: nat)
    requires
        n <= args.len(),
    ensures
        !parse_prefix(args, n).flags ==> exists|j: int| 0 <= j < n && #[trigger] is_separator(args[j]),
        parse_prefix(args, n).target is Some && is_flag_shaped(parse_prefix(args, n).target->0)
            ==> exists|j: int, i: int|
            0 <= j < i < n && #[trigger] is_separator(args[j]) && #[trigger] args[i]
                == parse_prefix(args, n).target->0,
    decreases n,
{
    if n > 0 {
        lemma_target_origin(args, (n - 1) as nat);
        let prev = parse_prefix(args, (n - 1) as nat);
        let a = args[n - 1];
        if !prev.flags {
            let j = choose|j: int| 0 <= j < n - 1 && #[trigger] is_separator(args[j]);
            assert(0 <= j < n && is_separator(args[j]));
            if prev.target is None && is_flag_shaped(a) {
                assert(is_separator(args[j]) && args[n - 1] == a);
            }
        } else if is_separator(a) {
            assert(is_separator(args[n - 1]));
        }
    }
}

/// What the arguments ask for before any path work: help, the version, or a
/// resolution.
#[derive(PartialEq, Eq, Structural, Clone, Copy, Debug)]
pub enum Request {
    Help,
    Version,
    Resolve,
}

/// Some token before the first separator is a help flag.
pub open spec fn help_requested(args: Seq<Seq<char>>) -> bool {
    exists|i: int|
        0 <= i < args.len() && #[trigger] is_help_flag(args[i]) && forall|j: int|
            0 <= j < i ==> !is_separator(#[trigger] args[j])
}

/// Some token before the first separator is a version flag.
pub open spec fn version_requested(args: Seq<Seq<char>>) -> bool {
    exists|i: int|
        0 <= i < args.len() && #[trigger] is_version_flag(args[i]) && forall|j: int|
            0 <= j < i ==> !is_separator(#[trigger] args[j])
}

/// Help comes first, then the version, else the path is resolved.
pub open spec fn request_spec(args: Seq<Seq<char>>) -> Request {
    if help_requested(args) {
        Request::Help
    } else if version_requested(args) {
        Request::Version
    } else {
        Request::Resolve
    }
}

/// No help or version flag is the separator.
proof fn lemma_meta_flags_not_separator(a: Seq<char>)
    ensures
        is_help_flag(a) || is_version_flag(a) ==> !is_separator(a),
{
    reveal_strlit("--");
    reveal_strlit("-h");
    reveal_strlit("--help");
    reveal_strlit("-v");
    reveal_strlit("--version");
    if is_separator(a) {
        assert(a.len() == 2 && a[1] == '-');
    }
}

/// Looks for help and version flags among the tokens before the first `--`.
pub fn requested(args: &[String]) -> (r: Request)
    ensures
        r == request_spec(args_view(args)),
{
    let ghost v = args_view(args);
    let mut help = false;
    let mut version = false;
    let mut done = false;
    let mut i: usize = 0;
    while i < args.len() && !done
        invariant
            i <= args.len(),
            v == args_view(args),
            v.len() == args.len(),
            done ==> i < args.len() && is_separator(v[i as int]),
            forall|j: int| 0 <= j < i ==> !is_separator(#[trigger] v[j]),
            help == exists|k: int| 0 <= k < i && #[trigger] is_help_flag(v[k]),
            version == exists|k: int| 0 <= k < i && #[trigger] is_version_flag(v[k]),
        decreases args.len() - i + (if done { 0int } else { 1int }),
    {
        let a = args[i].as_str();
        assert(a@ == v[i as int]);
        if same_text(a, "--") {
            done = true;
        } else {
            let h = same_text(a, "-h") || same_text(a, "--help");
            let ver = same_text(a, "-v") || same_text(a, "--version");
            proof {
                assert(h == is_help_flag(v[i as int]));
                assert(ver == is_version_flag(v[i as int]));
                if help {
                    let k = choose|k: int| 0 <= k < i && #[trigger] is_help_flag(v[k]);
                    assert(0 <= k < i + 1);
                }
                if version {
                    let k = choose|k: int| 0 <= k < i && #[trigger] is_version_flag(v[k]);
                    assert(0 <= k < i + 1);
                }
                if (exists|k: int| 0 <= k < i + 1 && #[trigger] is_help_flag(v[k])) && !h {
                    let k = choose|k: int| 0 <= k < i + 1 && #[trigger] is_help_flag(v[k]);
                    assert(k < i);
                }
                if (exists|k: int| 0 <= k < i + 1 && #[trigger] is_version_flag(v[k])) && !ver {
                    let k = choose|k: int| 0 <= k < i + 1 && #[trigger] is_version_flag(v[k]);
                    assert(k < i);
                }
            }
            help = help || h;
            version = version || ver;
            i = i + 1;
        }
    }
    proof {
        if help_requested(v) {
            let k = choose|k: int|
                0 <= k < v.len() && #[trigger] is_help_flag(v[k]) && forall|j: int|
                    0 <= j < k ==> !is_separator(#[trigger] v[j]);
            if k > i {
                assert(!is_separator(v[i as int]));
            }
            if k == i {
                lemma_meta_flags_not_separator(v[k]);
            }
            assert(help);
        }
        if version_requested(v) {
            let k = choose|k: int|
                0 <= k < v.len() && #[trigger] is_version_flag(v[k]) && forall|j: int|
                    0 <= j < k ==> !is_separator(#[trigger] v[j]);
            if k > i {
                assert(!is_separator(v[i as int]));
            }
            if k == i {
                lemma_meta_flags_not_separator(v[k]);
            }
            assert(version);
        }
        if help {
            let k = choose|k: int| 0 <= k < i && #[trigger] is_help_flag(v[k]);
            assert(forall|j: int| 0 <= j < k ==> !is_separator(#[trigger] v[j]));
            assert(help_requested(v));
        }
        if version {
            let k = choose|k: int| 0 <= k < i && #[trigger] is_version_flag(v[k]);
            assert(forall|j: int| 0 <= j < k ==> !is_separator(#[trigger] v[j]));
            assert(version_requested(v));
        }
    }
    if help {
        Request::Help
    } else if version {
        Request::Version
    } else {
        Request::Resolve
    }
}

} // verus!
