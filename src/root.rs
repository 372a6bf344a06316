//! The project-root search: the nearest directory on a path's parent chain
//! that holds a `.git` or `.bwd-root` entry.
use vstd::prelude::*;
use crate::paths::{join_path, join_spec, lemma_parent_shorter, parent_dir, parent_of, string_opt_view};

verus! {

/// The nearest directory on the parent chain of `p`, `p` included, that belongs
/// to `marked`: the directories that hold a project-root marker.
pub open spec fn root_of(p: Seq<char>, marked: Set<Seq<char>>) -> Option<Seq<char>>
    decreases p.len(),
    via root_of_decreases
{
    if marked.contains(p) {
        Some(p)
    } else {
        match parent_of(p) {
            Some(q) => root_of(q, marked),
            None => None,
        }
    }
}

#[via_fn]
proof fn root_of_decreases(p: Seq<char>, marked: Set<Seq<char>>) {
    lemma_parent_shorter(p);
}

/// Whether `a` is `d` or lies on the parent chain of `d`.
pub open spec fn is_ancestor(a: Seq<char>, d: Seq<char>) -> bool
    decreases d.len(),
    via is_ancestor_decreases
{
    if a == d {
        true
    } else {
        match parent_of(d) {
            Some(q) => is_ancestor(a, q),
            None => false,
        }
    }
}

#[via_fn]
proof fn is_ancestor_decreases(a: Seq<char>, d: Seq<char>) {
    lemma_parent_shorter(d);
}

/// Relies on std::path::Path::exists: whether an entry of that name is on disk
/// now. Nothing is promised of the answer.
#[verifier::external_body]
fn path_exists(p: &str) -> (r: bool) {
    std::path::Path::new(p).exists()
}

/// The two entries whose presence marks `dir` as a project root.
pub fn marker_paths(dir: &str) -> (r: (String, String))
    ensures
        r.0@ == join_spec(dir@, ".git"@),
        r.1@ == join_spec(dir@, ".bwd-root"@),
{
    (join_path(dir, ".git"), join_path(dir, ".bwd-root"))
}

/// One move of the upward walk.
pub enum RootStep {
    /// The directory holds a marker: it is the root.
    Found(String),
    /// Look next in this parent directory.
    Up(String),
    /// The chain ended without a marker.
    NotFound,
}

/// Decides the walk's next move at `current`, given whether a marker was found
/// there: stop there, climb to the parent, or give up at the top.
pub fn root_step(current: &str, marked: bool) -> (r: RootStep)
    ensures
        marked ==> (r matches RootStep::Found(d) && d@ == current@),
        !marked ==> match parent_of(current@) {
            Some(q) => (r matches RootStep::Up(p) && p@ == q),
            None => r is NotFound,
        },
{
    if marked {
        RootStep::Found(String::from_str(current))
    } else {
        match parent_dir(current) {
            Some(p) => RootStep::Up(p),
            None => RootStep::NotFound,
        }
    }
}

/// Walks up from `path`, probing each directory for `.git` or `.bwd-root` (an
/// entry of any kind), and returns the first one that has either, or `None`
/// once the chain ends. The probes read the disk, so what is promised holds
/// for every answer they give: the result is the one `root_of` gives for some
/// set of marked directories, hence `path` or one of its ancestors.
pub fn find_root(path: &str) -> (r: Option<String>)
    ensures
        exists|marked: Set<Seq<char>>| #[trigger] root_of(path@, marked) == string_opt_view(r),
{
    let mut current = String::from_str(path);
    let ghost mut seen: Set<Seq<char>> = Set::empty();
    loop
        invariant
            forall|m: Set<Seq<char>>|
                m.disjoint(seen) ==> #[trigger] root_of(path@, m) == root_of(current@, m),
            forall|s: Seq<char>| seen.contains(s) ==> s.len() > current@.len(),
        decreases current@.len(),
    {
        let (git, bwd) = marker_paths(current.as_str());
        let marked = path_exists(git.as_str()) || path_exists(bwd.as_str());
        match root_step(current.as_str(), marked) {
            RootStep::Found(d) => {
                proof {
                    let m = set![current@];
                    assert(m.disjoint(seen));
                    assert(root_of(path@, m) == string_opt_view(Some(d)));
                }
                return Some(d);
            },
            RootStep::Up(p) => {
                proof {
                    lemma_parent_shorter(current@);
                    assert forall|m: Set<Seq<char>>| m.disjoint(seen.insert(current@)) implies
                        #[trigger] root_of(path@, m) == root_of(p@, m) by {
                        assert(m.disjoint(seen));
                        assert(!m.contains(current@));
                    }
                    seen = seen.insert(current@);
                }
                current = p;
            },
            RootStep::NotFound => {
                proof {
                    let m = Set::<Seq<char>>::empty();
                    assert(m.disjoint(seen));
                    assert(root_of(path@, m) == string_opt_view(None));
                }
                return None;
            },
        }
    }
}

/// A directory that holds a marker is its own root.
pub proof fn lemma_marked_is_own_root(dir: Seq<char>, marked: Set<Seq<char>>)
    requires
        marked.contains(dir),
    ensures
        root_of(dir, marked) == Some(dir),
{
}

/// Below a marked directory `top`, every descendant `d` whose chain up to `top`
/// holds no other marked directory finds `top` as its root, as `top` itself does.
pub proof fn lemma_descendant_same_root(top: Seq<char>, d: Seq<char>, marked: Set<Seq<char>>)
    requires
        marked.contains(top),
        is_ancestor(top, d),
        forall|a: Seq<char>|
            is_ancestor(a, d) && is_ancestor(top, a) && a != top ==> !#[trigger] marked.contains(a),
    ensures
        root_of(d, marked) == root_of(top, marked),
        root_of(d, marked) == Some(top),
    decreases d.len(),
{
    if d != top {
        assert(is_ancestor(d, d));
        assert(!marked.contains(d));
        let q = parent_of(d)->0;
        lemma_parent_shorter(d);
        assert forall|a: Seq<char>|
            is_ancestor(a, q) && is_ancestor(top, a) && a != top implies !#[trigger] marked.contains(a) by {
            assert(is_ancestor(a, d));
        }
        lemma_descendant_same_root(top, q, marked);
    }
}

} // verus!
