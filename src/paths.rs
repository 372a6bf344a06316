//! A model of '/'-separated paths and the operations on it: components
//! (empty and "." segments dropped), prefix stripping by whole components,
//! home shortening, joining, and the parent walk. The parent walk reads the
//! text as it stands, which is exact for the canonical absolute paths the
//! resolver hands out.
use vstd::prelude::*;

verus! {

/// The directory separator.
pub open spec fn is_sep(c: char) -> bool {
    c == '/'
}

/// The placeholder that stands for the home directory.
pub open spec fn home_token() -> Seq<char> {
    seq!['$', 'H', 'O', 'M', 'E']
}

/// Whether `p` starts at the root.
pub open spec fn is_absolute(p: Seq<char>) -> bool {
    p.len() > 0 && is_sep(p[0])
}

/// A segment between separators, as a component: none when it is empty or ".".
pub open spec fn keep_segment(s: Seq<char>) -> Seq<Seq<char>> {
    if s.len() > 0 && s != seq!['.'] {
        seq![s]
    } else {
        Seq::empty()
    }
}

/// The components of `p`: its segments between separators, left to right,
/// without empty and "." segments.
pub open spec fn components(p: Seq<char>) -> Seq<Seq<char>>
    decreases p.len(),
    via components_decreases
{
    let k = last_sep(p);
    if k < 0 {
        keep_segment(p)
    } else {
        components(p.take(k)) + keep_segment(p.skip(k + 1))
    }
}

#[via_fn]
proof fn components_decreases(p: Seq<char>) {
    lemma_last_sep_bounds(p);
}

/// Components written one after the other, with one separator between two.
pub open spec fn join_components(cs: Seq<Seq<char>>) -> Seq<char>
    decreases cs.len(),
{
    if cs.len() == 0 {
        Seq::empty()
    } else if cs.len() == 1 {
        cs[0]
    } else {
        join_components(cs.drop_last()) + seq!['/'] + cs.last()
    }
}

/// `h` is `p` or a directory above it, compared component by component.
pub open spec fn is_dir_prefix(h: Seq<char>, p: Seq<char>) -> bool {
    is_absolute(h) == is_absolute(p) && components(h).is_prefix_of(components(p))
}

/// The components of `p` below the directory `h`, if `p` is `h` or lies under it.
pub open spec fn strip_dir_prefix(p: Seq<char>, h: Seq<char>) -> Option<Seq<Seq<char>>> {
    if is_dir_prefix(h, p) {
        Some(components(p).skip(components(h).len() as int))
    } else {
        None
    }
}

/// The home-shortened form of `p`: the placeholder alone for the home itself,
/// the placeholder and the components below the home for a path under it,
/// else `p` unchanged.
pub open spec fn shorten_spec(p: Seq<char>, home: Option<Seq<char>>) -> Seq<char> {
    match home {
        Some(h) => match strip_dir_prefix(p, h) {
            Some(rest) => if rest.len() == 0 {
                home_token()
            } else {
                home_token() + seq!['/'] + join_components(rest)
            },
            None => p,
        },
        None => p,
    }
}

/// `p` relative to the directory `root`: "." when they are the same directory
/// or when `root` does not contain `p`.
pub open spec fn relative_spec(p: Seq<char>, root: Seq<char>) -> Seq<char> {
    match strip_dir_prefix(p, root) {
        Some(rest) => if rest.len() == 0 {
            seq!['.']
        } else {
            join_components(rest)
        },
        None => seq!['.'],
    }
}

/// The characters of an optional text.
pub open spec fn str_opt_view(o: Option<&str>) -> Option<Seq<char>> {
    match o {
        Some(s) => Some(s@),
        None => None,
    }
}

/// Shortening against a home directory `h` gives the placeholder alone for
/// `h` itself, the placeholder followed by the components below `h` for a path
/// strictly under it, and the path unchanged when `h` is no directory prefix of
/// it or when no home directory is known.
pub proof fn lemma_shorten_cases(p: Seq<char>, h: Seq<char>)
    ensures
        shorten_spec(h, Some(h)) == home_token(),
        is_dir_prefix(h, p) && components(p) != components(h) ==> shorten_spec(p, Some(h))
            == home_token() + seq!['/'] + join_components(
            components(p).skip(components(h).len() as int),
        ),
        !is_dir_prefix(h, p) ==> shorten_spec(p, Some(h)) == p,
        shorten_spec(p, None) == p,
{
    assert(components(h).skip(components(h).len() as int) =~= Seq::<Seq<char>>::empty());
    if is_dir_prefix(h, p) && components(p) != components(h) {
        if components(p).len() == components(h).len() {
            assert(components(p) =~= components(h));
        }
    }
}

/// No component is empty.
pub proof fn lemma_components_nonempty(p: Seq<char>)
    ensures
        forall|i: int| 0 <= i < components(p).len() ==> #[trigger] components(p)[i].len() > 0,
    decreases p.len(),
{
    lemma_last_sep_bounds(p);
    let k = last_sep(p);
    if k >= 0 {
        lemma_components_nonempty(p.take(k));
        let a = components(p.take(k));
        let b = keep_segment(p.skip(k + 1));
        assert forall|i: int| 0 <= i < components(p).len() implies #[trigger] components(p)[i].len()
            > 0 by {
            if i < a.len() {
                assert(components(p)[i] == a[i]);
            } else {
                assert(components(p)[i] == b[i - a.len()]);
            }
        }
    }
}

/// Joined non-empty components are empty only when there are none.
pub proof fn lemma_join_empty(cs: Seq<Seq<char>>)
    requires
        forall|i: int| 0 <= i < cs.len() ==> #[trigger] cs[i].len() > 0,
    ensures
        (join_components(cs).len() == 0) == (cs.len() == 0),
    decreases cs.len(),
{
    if cs.len() > 1 {
        lemma_join_empty(cs.drop_last());
    }
}

/// What is left below a directory joins to nothing only when nothing is left.
proof fn lemma_rest_join_empty(p: Seq<char>, h: Seq<char>)
    ensures
        strip_dir_prefix(p, h) matches Some(rest) ==> (join_components(rest).len() == 0) == (
        rest.len() == 0),
{
    if let Some(rest) = strip_dir_prefix(p, h) {
        lemma_components_nonempty(p);
        assert forall|i: int| 0 <= i < rest.len() implies #[trigger] rest[i].len() > 0 by {
            assert(rest[i] == components(p)[i + components(h).len()]);
        }
        lemma_join_empty(rest);
    }
}

/// The last separator of `t` stands just before `s`, when nothing from `s` on is
/// a separator.
proof fn lemma_last_sep_at(t: Seq<char>, s: int)
    requires
        0 <= s <= t.len(),
        s > 0 ==> is_sep(t[s - 1]),
        forall|j: int| s <= j < t.len() ==> !is_sep(#[trigger] t[j]),
    ensures
        last_sep(t) == s - 1,
    decreases t.len(),
{
    if t.len() > s {
        lemma_last_sep_at(t.drop_last(), s);
    }
}

/// The characters of an optional string.
pub open spec fn string_opt_view(o: Option<String>) -> Option<Seq<char>> {
    match o {
        Some(s) => Some(s@),
        None => None,
    }
}

/// Whether `s` begins with `t`.
fn starts_with(s: &str, t: &str) -> (r: bool)
    ensures
        r == t@.is_prefix_of(s@),
{
    let n = s.unicode_len();
    let m = t.unicode_len();
    if m > n {
        return false;
    }
    let mut i: usize = 0;
    while i < m
        invariant
            n == s@.len(),
            m == t@.len(),
            m <= n,
            i <= m,
            forall|j: int| 0 <= j < i ==> s@[j] == t@[j],
        decreases m - i,
    {
        if s.get_char(i) != t.get_char(i) {
            return false;
        }
        i = i + 1;
    }
    true
}

/// Whether `s` and `t` hold the same characters.
pub fn same_text(s: &str, t: &str) -> (r: bool)
    ensures
        r == (s@ == t@),
{
    let b = s.unicode_len() == t.unicode_len() && starts_with(s, t);
    proof {
        if b {
            assert(s@ =~= t@);
        }
    }
    b
}

/// The components of `p`, in order.
pub fn split_components(p: &str) -> (r: Vec<String>)
    ensures
        r@.map_values(|s: String| s@) == components(p@),
{
    let n = p.unicode_len();
    let mut out: Vec<String> = Vec::new();
    let mut start: usize = 0;
    let mut i: usize = 0;
    proof {
        reveal_strlit(".");
    }
    while i < n
        invariant
            n == p@.len(),
            start <= i <= n,
            start > 0 ==> is_sep(p@[start - 1]),
            forall|j: int| start <= j < i ==> !is_sep(#[trigger] p@[j]),
            out@.map_values(|s: String| s@) == (if start == 0 {
                Seq::<Seq<char>>::empty()
            } else {
                components(p@.take(start - 1))
            }),
            "."@ == seq!['.'],
        decreases n - i,
    {
        if p.get_char(i) == '/' {
            let seg = p.substring_char(start, i);
            let ghost t = p@.take(i as int);
            proof {
                lemma_last_sep_at(t, start as int);
                if start > 0 {
                    assert(t.take(start - 1) =~= p@.take(start - 1));
                }
                assert(t.skip(start as int) =~= seg@);
                assert(start == 0 ==> t =~= seg@);
            }
            if seg.unicode_len() > 0 && !same_text(seg, ".") {
                let ghost before = out@.map_values(|s: String| s@);
                out.push(String::from_str(seg));
                proof {
                    assert(out@.map_values(|s: String| s@) =~= before.push(seg@));
                    assert(components(t) =~= before + keep_segment(seg@));
                }
            } else {
                proof {
                    assert(components(t) =~= out@.map_values(|s: String| s@) + keep_segment(seg@));
                }
            }
            start = i + 1;
        }
        i = i + 1;
    }
    let seg = p.substring_char(start, n);
    proof {
        lemma_last_sep_at(p@, start as int);
        assert(p@.skip(start as int) =~= seg@);
        assert(start == 0 ==> p@ =~= seg@);
    }
    if seg.unicode_len() > 0 && !same_text(seg, ".") {
        let ghost before = out@.map_values(|s: String| s@);
        out.push(String::from_str(seg));
        proof {
            assert(out@.map_values(|s: String| s@) =~= before.push(seg@));
            assert(components(p@) =~= before + keep_segment(seg@));
        }
    } else {
        proof {
            assert(components(p@) =~= out@.map_values(|s: String| s@) + keep_segment(seg@));
        }
    }
    out
}

/// Whether `p` starts at the root.
fn absolute(p: &str) -> (r: bool)
    ensures
        r == is_absolute(p@),
{
    p.unicode_len() > 0 && p.get_char(0) == '/'
}

/// The components of `p` below the directory `h`, joined by separators, if `p`
/// is `h` or lies under it.
pub fn strip_dir(p: &str, h: &str) -> (r: Option<String>)
    ensures
        match strip_dir_prefix(p@, h@) {
            Some(rest) => (r matches Some(s) && s@ == join_components(rest)),
            None => r is None,
        },
{
    let pc = split_components(p);
    let hc = split_components(h);
    let ghost pv = components(p@);
    let ghost hv = components(h@);
    proof {
        assert(pc@.len() == pv.len() && hc@.len() == hv.len());
    }
    if absolute(p) != absolute(h) || hc.len() > pc.len() {
        return None;
    }
    let m = hc.len();
    let mut j: usize = 0;
    while j < m
        invariant
            m == hc@.len(),
            m <= pc@.len(),
            pc@.map_values(|s: String| s@) == pv,
            hc@.map_values(|s: String| s@) == hv,
            j <= m,
            pv == components(p@),
            hv == components(h@),
            is_absolute(p@) == is_absolute(h@),
            forall|k: int| 0 <= k < j ==> pv[k] == hv[k],
        decreases m - j,
    {
        if !same_text(pc[j].as_str(), hc[j].as_str()) {
            proof {
                assert(pv[j as int] == pc@.map_values(|s: String| s@)[j as int]);
                assert(hv[j as int] == hc@.map_values(|s: String| s@)[j as int]);
                assert(pv[j as int] != hv[j as int]);
                assert(pv.subrange(0, m as int)[j as int] == pv[j as int]);
                assert(!hv.is_prefix_of(pv));
                assert(!is_dir_prefix(h@, p@));
                assert(strip_dir_prefix(p@, h@) is None);
            }
            return None;
        }
        proof {
            assert(pv[j as int] == pc@.map_values(|s: String| s@)[j as int]);
            assert(hv[j as int] == hc@.map_values(|s: String| s@)[j as int]);
        }
        j = j + 1;
    }
    let mut out = String::new();
    let mut k: usize = m;
    proof {
        assert(hv =~= pv.subrange(0, m as int));
        assert(is_dir_prefix(h@, p@));
        assert(pv.subrange(m as int, m as int) =~= Seq::<Seq<char>>::empty());
        reveal_strlit("/");
    }
    while k < pc.len()
        invariant
            m <= k <= pc@.len(),
            m == hv.len(),
            pv == components(p@),
            hv == components(h@),
            is_dir_prefix(h@, p@),
            pc@.map_values(|s: String| s@) == pv,
            out@ == join_components(pv.subrange(m as int, k as int)),
            "/"@ == seq!['/'],
        decreases pc@.len() - k,
    {
        if k > m {
            out.append("/");
        }
        out.append(pc[k].as_str());
        proof {
            assert(pv.subrange(m as int, k + 1).drop_last() =~= pv.subrange(m as int, k as int));
        }
        k = k + 1;
    }
    proof {
        assert(pv.subrange(m as int, pv.len() as int) =~= pv.skip(m as int));
    }
    Some(out)
}

/// Replaces a leading home directory in `path` by the placeholder `$HOME`,
/// matching whole components.
pub fn shorten_path(path: &str, home: Option<&str>) -> (r: String)
    ensures
        r@ == shorten_spec(path@, str_opt_view(home)),
{
    if let Some(h) = home {
        if let Some(rest) = strip_dir(path, h) {
            proof {
                lemma_rest_join_empty(path@, h@);
            }
            let mut out = String::from_str("$HOME");
            proof {
                reveal_strlit("$HOME");
                assert(out@ =~= home_token());
            }
            if rest.unicode_len() > 0 {
                out.append("/");
                out.append(rest.as_str());
                proof {
                    reveal_strlit("/");
                }
            }
            return out;
        }
    }
    String::from_str(path)
}

/// The prefix that marks an extended-length path: `\\?\`.
pub open spec fn verbatim_prefix() -> Seq<char> {
    seq!['\\', '\\', '?', '\\']
}

/// `p` without a leading extended-length marker.
pub open spec fn clean_spec(p: Seq<char>) -> Seq<char> {
    if verbatim_prefix().is_prefix_of(p) {
        p.skip(4)
    } else {
        p
    }
}

/// Removes the extended-length marker `\\?\` that canonicalisation puts in front
/// of a path on some platforms; any other path is returned as it is.
pub fn clean_windows_path(path: String) -> (r: String)
    ensures
        r@ == clean_spec(path@),
{
    let marker = "\\\\?\\";
    proof {
        reveal_strlit("\\\\?\\");
        assert(marker@ =~= verbatim_prefix());
    }
    if starts_with(path.as_str(), marker) {
        let n = path.unicode_len();
        String::from_str(path.as_str().substring_char(4, n))
    } else {
        path
    }
}

/// `p` relative to the directory `root` ("." when they coincide).
pub fn relative_to(p: &str, root: &str) -> (r: String)
    ensures
        r@ == relative_spec(p@, root@),
{
    proof {
        lemma_rest_join_empty(p@, root@);
    }
    match strip_dir(p, root) {
        Some(rest) => {
            if rest.unicode_len() > 0 {
                return rest;
            }
        },
        None => {},
    }
    let dot = String::from_str(".");
    proof {
        reveal_strlit(".");
        assert(dot@ =~= seq!['.']);
    }
    dot
}

/// `tail` joined onto `base`: an absolute `tail` replaces `base`, a relative one
/// is appended after a separator (none is added after an empty base or one that
/// already ends in a separator).
pub open spec fn join_spec(base: Seq<char>, tail: Seq<char>) -> Seq<char> {
    if tail.len() > 0 && is_sep(tail[0]) {
        tail
    } else if base.len() == 0 || is_sep(base.last()) {
        base + tail
    } else {
        base + seq!['/'] + tail
    }
}

/// Joins `tail` onto `base`.
pub fn join_path(base: &str, tail: &str) -> (r: String)
    ensures
        r@ == join_spec(base@, tail@),
{
    let n = base.unicode_len();
    if tail.unicode_len() > 0 && tail.get_char(0) == '/' {
        return String::from_str(tail);
    }
    let mut out = String::from_str(base);
    if n > 0 && base.get_char(n - 1) != '/' {
        out.append("/");
        proof {
            reveal_strlit("/");
        }
    }
    out.append(tail);
    out
}

/// The index of the last separator of `p`, or -1 if it has none.
pub open spec fn last_sep(p: Seq<char>) -> int
    decreases p.len(),
{
    if p.len() == 0 {
        -1
    } else if is_sep(p.last()) {
        p.len() - 1
    } else {
        last_sep(p.drop_last())
    }
}

/// The last separator lies inside `p`.
pub proof fn lemma_last_sep_bounds(p: Seq<char>)
    ensures
        -1 <= last_sep(p) < p.len(),
        last_sep(p) >= 0 ==> is_sep(p[last_sep(p)]),
    decreases p.len(),
{
    if p.len() > 0 && !is_sep(p.last()) {
        lemma_last_sep_bounds(p.drop_last());
    }
}

/// The directory that holds `p`: what precedes its last separator, or the root
/// for a path directly under it. The root, and a path without a separator, have
/// none.
pub open spec fn parent_of(p: Seq<char>) -> Option<Seq<char>> {
    let k = last_sep(p);
    if k < 0 || p.len() <= 1 {
        None
    } else if k == 0 {
        Some(seq!['/'])
    } else {
        Some(p.take(k))
    }
}

/// A parent is shorter than its child.
pub proof fn lemma_parent_shorter(p: Seq<char>)
    ensures
        parent_of(p) matches Some(q) ==> q.len() < p.len(),
{
    lemma_last_sep_bounds(p);
}

/// The directory that holds `p`, if any.
pub fn parent_dir(p: &str) -> (r: Option<String>)
    ensures
        r matches Some(q) ==> parent_of(p@) == Some(q@),
        r is None ==> parent_of(p@) is None,
{
    let n = p.unicode_len();
    let mut i = n;
    proof {
        assert(p@.take(n as int) =~= p@);
    }
    while i > 0 && p.get_char(i - 1) != '/'
        invariant
            i <= n,
            n == p@.len(),
            last_sep(p@.take(i as int)) == last_sep(p@),
        decreases i,
    {
        proof {
            assert(p@.take(i as int).drop_last() =~= p@.take(i - 1));
        }
        i = i - 1;
    }
    if i == 0 || n <= 1 {
        None
    } else if i == 1 {
        let root = String::from_str("/");
        proof {
            reveal_strlit("/");
            assert(root@ =~= seq!['/']);
        }
        Some(root)
    } else {
        Some(String::from_str(p.substring_char(0, i - 1)))
    }
}

} // verus!
