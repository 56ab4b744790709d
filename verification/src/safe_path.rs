//! Output paths kept inside a base folder: a path is taken apart into its
//! components, `.` and `..` are resolved without touching the file system,
//! and a joined path must stay under the base.
use std::path::{Component, Path};
use vstd::prelude::*;
use crate::model::DawApp;
use crate::paths::{has_suffix, is_path_punct, path_join, plain_component};
use crate::text::{has_prefix, owned, same_text};

verus! {

/// One component of a path.
pub enum PathPart {
    /// A Windows prefix such as `C:`, as text.
    Prefix(String),
    RootDir,
    CurDir,
    ParentDir,
    Normal(String),
}

/// The value of a `PathPart`.
pub enum PathPartView {
    Prefix(Seq<char>),
    RootDir,
    CurDir,
    ParentDir,
    Normal(Seq<char>),
}

impl PathPart {
    pub open spec fn view(&self) -> PathPartView {
        match self {
            PathPart::Prefix(s) => PathPartView::Prefix(s@),
            PathPart::RootDir => PathPartView::RootDir,
            PathPart::CurDir => PathPartView::CurDir,
            PathPart::ParentDir => PathPartView::ParentDir,
            PathPart::Normal(s) => PathPartView::Normal(s@),
        }
    }
}

/// The values of a list of components.
pub open spec fn parts_view(parts: Seq<PathPart>) -> Seq<PathPartView> {
    parts.map_values(|p: PathPart| p.view())
}

/// The components of `path` (std `Path::components`), prefixes and names
/// as text.
///
/// Claimed: an empty path has no components, and a plain single component
/// is one normal component. How other paths are taken apart depends on the
/// platform and is not stated.
#[verifier::external_body]
pub(crate) fn path_components(path: &str) -> (r: Vec<PathPart>)
    ensures
        path@.len() == 0 ==> r@.len() == 0,
        plain_component(path@) ==> parts_view(r@) == seq![PathPartView::Normal(path@)],
{
    Path::new(path).components().map(|c| match c {
        Component::Prefix(p) => PathPart::Prefix(p.as_os_str().to_string_lossy().to_string()),
        Component::RootDir => PathPart::RootDir,
        Component::CurDir => PathPart::CurDir,
        Component::ParentDir => PathPart::ParentDir,
        Component::Normal(s) => PathPart::Normal(s.to_string_lossy().to_string()),
    }).collect()
}

/// The folder names that `parts` lead to, `.` skipped and `..` going back
/// up (prefix and root parts are skipped too); nothing when a `..` would go
/// above the start.
pub open spec fn resolved(parts: Seq<PathPartView>) -> Option<Seq<Seq<char>>>
    decreases parts.len(),
{
    if parts.len() == 0 {
        Some(Seq::empty())
    } else {
        match resolved(parts.drop_last()) {
            None => None,
            Some(stack) => match parts.last() {
                PathPartView::Normal(s) => Some(stack.push(s)),
                PathPartView::ParentDir => if stack.len() == 0 {
                    None
                } else {
                    Some(stack.drop_last())
                },
                _ => Some(stack),
            },
        }
    }
}

pub open spec fn escape_message() -> Seq<char> {
    "Output path escapes render base directory"@
}

/// Whether a path with components `cand` stays inside the folder with
/// components `base`: both start with the same first component, neither
/// climbs above its start, and the folders `cand` resolves to begin with
/// those of `base`.
pub open spec fn containment(base: Seq<PathPartView>, cand: Seq<PathPartView>) -> Result<(), Seq<char>> {
    if base.len() == 0 {
        Err("Base path is empty"@)
    } else {
        match resolved(base.drop_first()) {
            None => Err(escape_message()),
            Some(b) => if cand.len() == 0 {
                Err("Candidate path is empty"@)
            } else if cand[0] != base[0] {
                Err(escape_message())
            } else {
                match resolved(cand.drop_first()) {
                    None => Err(escape_message()),
                    Some(c) => if c.len() < b.len() || c.take(b.len() as int) != b {
                        Err(escape_message())
                    } else {
                        Ok(())
                    },
                }
            },
        }
    }
}

/// A path whose first `k` components already climb above the start does so
/// whatever follows.
proof fn lemma_resolved_none_extends(s: Seq<PathPartView>, k: int)
    requires
        0 <= k <= s.len(),
        resolved(s.take(k)) is None,
    ensures
        resolved(s) is None,
    decreases s.len() - k,
{
    if k < s.len() {
        assert(s.take(k + 1).drop_last() == s.take(k));
        lemma_resolved_none_extends(s, k + 1);
    } else {
        assert(s.take(k) == s);
    }
}

/// Whether two components are the same.
fn same_part(a: &PathPart, b: &PathPart) -> (r: bool)
    ensures
        r == (a.view() == b.view()),
{
    match (a, b) {
        (PathPart::Prefix(x), PathPart::Prefix(y)) => same_text(x.as_str(), y.as_str()),
        (PathPart::RootDir, PathPart::RootDir) => true,
        (PathPart::CurDir, PathPart::CurDir) => true,
        (PathPart::ParentDir, PathPart::ParentDir) => true,
        (PathPart::Normal(x), PathPart::Normal(y)) => same_text(x.as_str(), y.as_str()),
        _ => false,
    }
}

/// The folder names that the components `parts[from..]` lead to (see
/// `resolved`).
fn resolve_parts(parts: &Vec<PathPart>, from: usize) -> (r: Option<Vec<String>>)
    requires
        from <= parts@.len(),
    ensures
        match r {
            Some(v) => resolved(parts_view(parts@).skip(from as int)) == Some(v.deep_view()),
            None => resolved(parts_view(parts@).skip(from as int)) is None,
        },
{
    let ghost ps = parts_view(parts@).skip(from as int);
    let mut stack: Vec<String> = Vec::new();
    let mut i = from;
    assert(ps.take(0) =~= Seq::<PathPartView>::empty());
    while i < parts.len()
        invariant
            from <= i <= parts@.len(),
            ps == parts_view(parts@).skip(from as int),
            resolved(ps.take(i - from)) == Some(stack.deep_view()),
        decreases parts@.len() - i,
    {
        let ghost before = stack.deep_view();
        assert(ps.take(i + 1 - from).drop_last() == ps.take(i - from));
        assert(ps.take(i + 1 - from).last() == parts@[i as int].view());
        match &parts[i] {
            PathPart::Normal(s) => {
                stack.push(s.clone());
                assert(stack.deep_view() =~= before.push(s@));
            },
            PathPart::ParentDir => {
                if stack.len() == 0 {
                    proof {
                        lemma_resolved_none_extends(ps, i + 1 - from);
                    }
                    return None;
                }
                stack.pop();
                assert(stack.deep_view() =~= before.drop_last());
            },
            _ => {},
        }
        i = i + 1;
    }
    assert(ps.take(parts@.len() - from) =~= ps);
    Some(stack)
}

/// Whether `a` begins with all of `b`.
fn begins_with(a: &Vec<String>, b: &Vec<String>) -> (r: bool)
    ensures
        r == (b.deep_view().len() <= a.deep_view().len() && a.deep_view().take(b.deep_view().len() as int)
            == b.deep_view()),
{
    if a.len() < b.len() {
        return false;
    }
    let mut i: usize = 0;
    while i < b.len()
        invariant
            i <= b@.len() <= a@.len(),
            forall|k: int| 0 <= k < i ==> a.deep_view()[k] == b.deep_view()[k],
        decreases b@.len() - i,
    {
        if !same_text(a[i].as_str(), b[i].as_str()) {
            assert(a.deep_view().take(b@.len() as int)[i as int] != b.deep_view()[i as int]);
            return false;
        }
        i = i + 1;
    }
    assert(a.deep_view().take(b@.len() as int) =~= b.deep_view());
    true
}

impl DawApp {
    /// Whether a path with components `candidate` stays inside the folder
    /// with components `base` (see `containment`), with the reason when it
    /// does not.
    pub fn path_within_base(base: &Vec<PathPart>, candidate: &Vec<PathPart>) -> (r: Result<(), String>)
        ensures
            match r {
                Ok(()) => containment(parts_view(base@), parts_view(candidate@)) == Ok::<(), Seq<char>>(()),
                Err(e) => containment(parts_view(base@), parts_view(candidate@)) == Err::<(), Seq<char>>(e@),
            },
    {
        let ghost bv = parts_view(base@);
        let ghost cv = parts_view(candidate@);
        if base.len() == 0 {
            return Err(owned("Base path is empty"));
        }
        assert(bv.skip(1) =~= bv.drop_first());
        let base_stack = match resolve_parts(base, 1) {
            None => {
                return Err(owned("Output path escapes render base directory"));
            },
            Some(s) => s,
        };
        if candidate.len() == 0 {
            return Err(owned("Candidate path is empty"));
        }
        if !same_part(&candidate[0], &base[0]) {
            return Err(owned("Output path escapes render base directory"));
        }
        assert(cv.skip(1) =~= cv.drop_first());
        let cand_stack = match resolve_parts(candidate, 1) {
            None => {
                return Err(owned("Output path escapes render base directory"));
            },
            Some(s) => s,
        };
        if !begins_with(&cand_stack, &base_stack) {
            return Err(owned("Output path escapes render base directory"));
        }
        Ok(())
    }

    /// `child` joined to the folder `base`, refused when the result would not
    /// stay inside `base` once `.` and `..` are resolved (see
    /// `path_within_base`); the file system is not consulted.
    pub fn safe_join_within_base(base: &str, child: &str) -> (r: Result<String, String>)
        ensures
            base@.len() == 0 ==> (r matches Err(e) && e@ == "Base path is empty"@),
            r matches Err(e) ==> e@ == "Base path is empty"@ || e@ == "Candidate path is empty"@ || e@
                == escape_message(),
            !crate::paths::double_backslash_start(base@) && (forall|i: int| 0 <= i < child@.len() ==> !is_path_punct(
                #[trigger] child@[i],
            )) ==> (r matches Ok(c) ==> has_prefix(c@, base@) && has_suffix(c@, child@)),
    {
        let candidate = path_join(base, child);
        let base_parts = path_components(base);
        let cand_parts = path_components(candidate.as_str());
        match Self::path_within_base(&base_parts, &cand_parts) {
            Ok(()) => Ok(candidate),
            Err(e) => Err(e),
        }
    }
}

/// Components that only name folders or stay put (`.`).
pub open spec fn plain_parts(parts: Seq<PathPartView>) -> bool {
    forall|i: int| 0 <= i < parts.len() ==> (#[trigger] parts[i] is Normal || parts[i] is CurDir)
}

/// Following plain components after `p` adds their names to where `p` leads.
proof fn lemma_resolved_append_plain(p: Seq<PathPartView>, q: Seq<PathPartView>)
    requires
        resolved(p) is Some,
        plain_parts(q),
    ensures
        resolved(p + q) is Some,
        resolved(q) is Some,
        resolved(p + q).unwrap() == resolved(p).unwrap() + resolved(q).unwrap(),
    decreases q.len(),
{
    if q.len() == 0 {
        assert(p + q =~= p);
        assert(resolved(q).unwrap() =~= Seq::<Seq<char>>::empty());
        assert(resolved(p).unwrap() + resolved(q).unwrap() =~= resolved(p).unwrap());
    } else {
        assert((p + q).drop_last() =~= p + q.drop_last());
        assert((p + q).last() == q.last());
        assert(plain_parts(q.drop_last())) by {
            assert forall|i: int| 0 <= i < q.drop_last().len() implies (#[trigger] q.drop_last()[i] is Normal
                || q.drop_last()[i] is CurDir) by {
                assert(q.drop_last()[i] == q[i]);
            }
        }
        lemma_resolved_append_plain(p, q.drop_last());
        assert(q[q.len() - 1] is Normal || q[q.len() - 1] is CurDir);
        match q.last() {
            PathPartView::Normal(n) => {
                assert(resolved(p + q).unwrap() =~= resolved(p).unwrap() + resolved(q).unwrap());
            },
            _ => {},
        }
    }
}

/// A name made only of folder names (and `.`) joined to a base that does
/// not itself climb above its start is always accepted.
pub proof fn law_plain_child_accepted(base: Seq<PathPartView>, child: Seq<PathPartView>)
    requires
        base.len() > 0,
        resolved(base.drop_first()) is Some,
        plain_parts(child),
    ensures
        containment(base, base + child) == Ok::<(), Seq<char>>(()),
{
    let cand = base + child;
    assert(cand[0] == base[0]);
    assert(cand.drop_first() =~= base.drop_first() + child);
    lemma_resolved_append_plain(base.drop_first(), child);
    let b = resolved(base.drop_first()).unwrap();
    let c = resolved(cand.drop_first()).unwrap();
    assert(c.take(b.len() as int) =~= b);
}

/// Going up one folder right after the base leaves it, and is refused.
pub proof fn law_parent_of_base_refused(base: Seq<PathPartView>)
    requires
        base.len() > 0,
    ensures
        containment(base, base.push(PathPartView::ParentDir)) is Err,
{
    let cand = base.push(PathPartView::ParentDir);
    assert(cand[0] == base[0]);
    assert(cand.drop_first() =~= base.drop_first().push(PathPartView::ParentDir));
    assert(cand.drop_first().drop_last() =~= base.drop_first());
}

} // verus!
