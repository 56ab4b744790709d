//! Project naming: folder names, versioned names, render file names, the
//! license comment written into renders, and the recent-projects list.
use vstd::prelude::*;
use crate::model::{DawApp, DrumMachineState, TreeSynthState};
use crate::paths::{
    double_backslash_start,
    file_name_allowed, has_suffix, is_path_punct, path_file_name, path_is_relative, path_join, path_parent,
};
use crate::text::{
    chars_of, concat, contains, decimal, decimal_string, eq_ignore_ascii_case, eq_ignore_case, has_infix,
    has_prefix, is_blank, is_empty_text, leading_ws, lower_seq, occurs_at, owned, push_char, same_text,
    starts_with, string_from_range, to_ascii_lowercase, trailing_ws, trim, trim_end, trimmed, trimmed_end,
};

verus! {

/// Characters that cannot appear in a folder name.
pub open spec fn is_reserved(c: char) -> bool {
    c == '<' || c == '>' || c == ':' || c == '"' || c == '/' || c == '\\' || c == '|' || c == '?' || c == '*'
}

/// `name` made usable as a folder name: reserved characters become `_`, the
/// result is trimmed, and an empty result becomes "LingStationProject".
pub open spec fn sanitized_folder_name(name: Seq<char>) -> Seq<char> {
    let cleaned = Seq::new(name.len(), |i: int| if is_reserved(name[i]) { '_' } else { name[i] });
    let t = trimmed(cleaned);
    if t.len() == 0 {
        "LingStationProject"@
    } else {
        t
    }
}

/// The rightmost position `j <= i` where `p` occurs in `s`.
pub open spec fn rfind_at_or_before(s: Seq<char>, p: Seq<char>, i: int) -> Option<int>
    decreases i + 1,
{
    if i < 0 {
        None
    } else if occurs_at(s, p, i) {
        Some(i)
    } else {
        rfind_at_or_before(s, p, i - 1)
    }
}

/// The rightmost position where `p` occurs in `s`.
pub open spec fn rfind(s: Seq<char>, p: Seq<char>) -> Option<int> {
    rfind_at_or_before(s, p, s.len() - p.len())
}

pub open spec fn is_digit(c: char) -> bool {
    '0' <= c <= '9'
}

/// The number that the decimal digits `s` spell.
pub open spec fn digits_value(s: Seq<char>) -> nat
    decreases s.len(),
{
    if s.len() == 0 {
        0
    } else {
        digits_value(s.drop_last()) * 10 + ((s.last() as u32) - 48) as nat
    }
}

/// `name` split at its last " v" when what follows is a version number (one
/// or more ASCII digits whose value fits a `u32`); otherwise `name` and no
/// version.
pub open spec fn version_split(name: Seq<char>) -> (Seq<char>, Option<u32>) {
    match rfind(name, " v"@) {
        Some(i) => {
            let suffix = name.subrange(i + 2, name.len() as int);
            if suffix.len() > 0 && (forall|k: int| 0 <= k < suffix.len() ==> is_digit(#[trigger] suffix[k]))
                && digits_value(suffix) <= u32::MAX {
                (name.subrange(0, i), Some(digits_value(suffix) as u32))
            } else {
                (name, None)
            }
        },
        None => (name, None),
    }
}

/// Appending digits never makes the spelled number smaller.
proof fn lemma_digits_value_prefix(s: Seq<char>, k: int)
    requires
        0 <= k <= s.len(),
        forall|i: int| 0 <= i < s.len() ==> is_digit(#[trigger] s[i]),
    ensures
        digits_value(s.take(k)) <= digits_value(s),
    decreases s.len() - k,
{
    if k < s.len() {
        lemma_digits_value_prefix(s, k + 1);
        assert(s.take(k + 1).drop_last() == s.take(k));
        assert(is_digit(s[k]));
    } else {
        assert(s.take(k) == s);
    }
}

/// The rightmost position of " v" in `v`, searching down from `i`.
fn rfind_space_v(v: &Vec<char>) -> (r: Option<usize>)
    ensures
        match r {
            Some(i) => rfind(v@, " v"@) == Some(i as int) && i + 2 <= v.len(),
            None => rfind(v@, " v"@) is None,
        },
{
    proof {
        reveal_strlit(" v");
    }
    let n = v.len();
    if n < 2 {
        return None;
    }
    let mut i: usize = n - 2;
    loop
        invariant
            n == v.len(),
            n >= 2,
            i <= n - 2,
            " v"@ == seq![' ', 'v'],
            rfind(v@, " v"@) == rfind_at_or_before(v@, " v"@, i as int),
        decreases i,
    {
        if v[i] == ' ' && v[i + 1] == 'v' {
            assert(v@.subrange(i as int, i + 2) =~= " v"@);
            return Some(i);
        }
        assert(!occurs_at(v@, " v"@, i as int)) by {
            if occurs_at(v@, " v"@, i as int) {
                assert(v@.subrange(i as int, i + 2)[0] == v@[i as int]);
                assert(v@.subrange(i as int, i + 2)[1] == v@[i + 1]);
            }
        }
        if i == 0 {
            assert(rfind_at_or_before(v@, " v"@, -1) is None);
            return None;
        }
        i = i - 1;
    }
}

/// The extended-length prefix that Windows puts before absolute paths.
pub open spec fn verbatim_prefix() -> Seq<char> {
    seq!['\\', '\\', '?', '\\']
}

/// `path` without a leading extended-length prefix `\\?\`.
pub open spec fn normalized_path(path: Seq<char>) -> Seq<char> {
    if has_prefix(path, verbatim_prefix()) {
        path.skip(4)
    } else {
        path
    }
}

/// `list` without the entries equal to `p` when ASCII case is ignored.
pub open spec fn without_path(list: Seq<Seq<char>>, p: Seq<char>) -> Seq<Seq<char>>
    decreases list.len(),
{
    if list.len() == 0 {
        list
    } else {
        let rest = without_path(list.drop_last(), p);
        if eq_ignore_case(list.last(), p) {
            rest
        } else {
            rest.push(list.last())
        }
    }
}

/// Most entries the recent-projects list keeps.
pub const MAX_RECENT_PROJECTS: usize = 10;

/// The recent-projects list after `folder` was opened or saved: the folder,
/// normalized, moves to the front (other spellings of it that differ only in
/// ASCII case are dropped) and the list keeps its first ten entries. A blank
/// folder leaves the list as it is.
pub open spec fn registered_recent(list: Seq<Seq<char>>, folder: Seq<char>) -> Seq<Seq<char>> {
    let p = normalized_path(folder);
    if trimmed(p).len() == 0 {
        list
    } else {
        let l = seq![p] + without_path(list, p);
        if l.len() > MAX_RECENT_PROJECTS {
            l.take(MAX_RECENT_PROJECTS as int)
        } else {
            l
        }
    }
}

/// No entry left by `without_path` matches `p`, and each comes from `list`.
pub proof fn lemma_without_path(list: Seq<Seq<char>>, p: Seq<char>)
    ensures
        without_path(list, p).len() <= list.len(),
        forall|i: int| 0 <= i < without_path(list, p).len() ==> !eq_ignore_case(#[trigger] without_path(list, p)[i], p),
        forall|i: int| 0 <= i < without_path(list, p).len() ==> list.contains(#[trigger] without_path(list, p)[i]),
    decreases list.len(),
{
    if list.len() > 0 {
        lemma_without_path(list.drop_last(), p);
        let rest = without_path(list.drop_last(), p);
        assert forall|i: int| 0 <= i < without_path(list, p).len() implies list.contains(#[trigger] without_path(list, p)[i]) by {
            if i < rest.len() {
                assert(list.drop_last().contains(rest[i]));
                let j = choose|j: int| 0 <= j < list.drop_last().len() && list.drop_last()[j] == rest[i];
                assert(list[j] == rest[i]);
            } else {
                assert(list[list.len() - 1] == list.last());
            }
        }
    }
}

/// Dropping the matches of `p` from a list that has none changes nothing.
proof fn lemma_without_path_none(list: Seq<Seq<char>>, p: Seq<char>)
    requires
        forall|i: int| 0 <= i < list.len() ==> !eq_ignore_case(#[trigger] list[i], p),
    ensures
        without_path(list, p) == list,
    decreases list.len(),
{
    if list.len() > 0 {
        lemma_without_path_none(list.drop_last(), p);
        assert(!eq_ignore_case(list[list.len() - 1], p));
        assert(list.drop_last().push(list.last()) == list);
    }
}

/// `without_path` of a concatenation is the concatenation of the parts.
proof fn lemma_without_path_concat(a: Seq<Seq<char>>, b: Seq<Seq<char>>, p: Seq<char>)
    ensures
        without_path(a + b, p) == without_path(a, p) + without_path(b, p),
    decreases b.len(),
{
    if b.len() == 0 {
        assert(a + b == a);
        assert(without_path(a, p) + without_path(b, p) == without_path(a, p));
    } else {
        lemma_without_path_concat(a, b.drop_last(), p);
        assert((a + b).drop_last() == a + b.drop_last());
        assert((a + b).last() == b.last());
    }
}

/// After a folder is registered it heads the list, the list holds at most
/// ten entries, and no other entry names the same folder.
pub proof fn law_recent_projects_front(list: Seq<Seq<char>>, folder: Seq<char>)
    requires
        trimmed(normalized_path(folder)).len() > 0,
    ensures
        registered_recent(list, folder).len() >= 1,
        registered_recent(list, folder).len() <= MAX_RECENT_PROJECTS,
        registered_recent(list, folder)[0] == normalized_path(folder),
        forall|i: int|
            1 <= i < registered_recent(list, folder).len() ==> !eq_ignore_case(
                #[trigger] registered_recent(list, folder)[i],
                normalized_path(folder),
            ),
{
    let p = normalized_path(folder);
    lemma_without_path(list, p);
    let w = without_path(list, p);
    let l = seq![p] + w;
    let r = registered_recent(list, folder);
    assert forall|i: int| 1 <= i < r.len() implies !eq_ignore_case(#[trigger] r[i], p) by {
        assert(r[i] == l[i]);
        assert(l[i] == w[i - 1]);
    }
}

/// Registering the same folder twice gives the list that registering it once gives.
pub proof fn law_recent_projects_idempotent(list: Seq<Seq<char>>, folder: Seq<char>)
    ensures
        registered_recent(registered_recent(list, folder), folder) == registered_recent(list, folder),
{
    let p = normalized_path(folder);
    if trimmed(p).len() > 0 {
        lemma_without_path(list, p);
        let w = without_path(list, p);
        let m: int = if w.len() > 9 { 9 } else { w.len() as int };
        let l1 = registered_recent(list, folder);
        assert(l1 == seq![p] + w.take(m));
        assert(without_path(seq![p], p) == Seq::<Seq<char>>::empty()) by {
            assert(seq![p].drop_last() == Seq::<Seq<char>>::empty());
            assert(seq![p].last() == p);
            assert(without_path(Seq::<Seq<char>>::empty(), p) == Seq::<Seq<char>>::empty());
        }
        lemma_without_path_concat(seq![p], w.take(m), p);
        assert forall|i: int| 0 <= i < w.take(m).len() implies !eq_ignore_case(#[trigger] w.take(m)[i], p) by {
            assert(w.take(m)[i] == w[i]);
        }
        lemma_without_path_none(w.take(m), p);
        assert(Seq::<Seq<char>>::empty() + w.take(m) == w.take(m));
        assert(without_path(l1, p) == w.take(m));
        assert(registered_recent(l1, folder) == seq![p] + w.take(m));
    }
}

/// A user counts as registered when the license status says so or a
/// registration name is stored.
pub open spec fn registered(license_status: Seq<char>, registered_to: Seq<char>) -> bool {
    has_prefix(license_status, "Registered"@) || trimmed(registered_to).len() > 0
}

/// The name that renders are saved under: "artist - title", the title, the
/// artist, the project name, or "render", the first that is not blank, made
/// usable as a folder name.
pub open spec fn render_base(artist: Seq<char>, title: Seq<char>, project_name: Seq<char>) -> Seq<char> {
    let a = trimmed(artist);
    let t = trimmed(title);
    let base = if a.len() > 0 && t.len() > 0 {
        a + " - "@ + t
    } else if t.len() > 0 {
        t
    } else if a.len() > 0 {
        a
    } else if trimmed(project_name).len() > 0 {
        project_name
    } else {
        "render"@
    };
    sanitized_folder_name(base)
}

/// The comment that renders carry: none for a registered user, unless the
/// license status mentions an educational license; a note for everybody else.
pub open spec fn license_comment(license_status: Seq<char>, registered_to: Seq<char>) -> Option<Seq<char>> {
    let status = trimmed(license_status);
    if has_prefix(status, "Registered"@) || trimmed(registered_to).len() > 0 {
        let lower = lower_seq(status);
        if has_infix(lower, "edu"@) || has_infix(lower, "education"@) {
            Some("Made with an Educational License"@)
        } else {
            None
        }
    } else {
        Some("Made with LingStation[Unlicensed]"@)
    }
}

/// The folder a project is saved to: its own folder, or `default_dir` for a
/// project that has none yet.
pub open spec fn save_target(project_path: Seq<char>, default_dir: Option<Seq<char>>) -> Result<Seq<char>, Seq<char>> {
    if trimmed(project_path).len() == 0 {
        match default_dir {
            Some(d) => Ok(d),
            None => Err("Default project folder unavailable"@),
        }
    } else {
        Ok(project_path)
    }
}

/// The folder to create for the project: its trimmed folder, or
/// `default_dir` for a project that has none yet.
pub open spec fn folder_target(project_path: Seq<char>, default_dir: Option<Seq<char>>) -> Result<Seq<char>, Seq<char>> {
    if trimmed(project_path).len() == 0 {
        match default_dir {
            Some(d) => Ok(d),
            None => Err("Default project folder unavailable"@),
        }
    } else {
        Ok(trimmed(project_path))
    }
}

/// Where new versions of a project go: the folder's parent, the name
/// without version suffix and trailing blanks, and the first version number
/// to try (one past the current, 2 for an unversioned name).
pub struct VersionPlan {
    pub parent: String,
    pub base: String,
    pub first: u32,
}

/// The plan for saving a new version of a project whose folder has parent
/// `parent` and name `name`.
pub open spec fn version_plan(parent: Option<Seq<char>>, name: Option<Seq<char>>) -> Result<
    (Seq<char>, Seq<char>, u32),
    Seq<char>,
> {
    match parent {
        None => Err("Project folder has no parent"@),
        Some(p) => match name {
            None => Err("Project folder name unavailable"@),
            Some(n) => {
                let (base, version) = version_split(n);
                let b = trimmed_end(base);
                if b.len() == 0 {
                    Err("Project name unavailable"@)
                } else {
                    let v = match version {
                        Some(v) => v,
                        None => 1u32,
                    };
                    Ok((p, b, if v == u32::MAX { u32::MAX } else { (v + 1) as u32 }))
                }
            },
        },
    }
}

/// The folder name of version `n` of a project named `base`.
pub open spec fn version_folder(base: Seq<char>, n: u32) -> Seq<char> {
    base + " v"@ + decimal(n as nat)
}

/// Largest version number tried when looking for a free version folder.
pub const MAX_VERSION: u32 = 9999;

/// The version number to try after `n` (saturating), unless that passes
/// `MAX_VERSION`.
pub open spec fn version_after(n: u32) -> Option<u32> {
    let next: int = if n == u32::MAX { u32::MAX as int } else { n + 1 };
    if next > MAX_VERSION {
        None
    } else {
        Some(next as u32)
    }
}

/// `path` has no separators or drive colons: every platform reads it as a
/// relative path of plain names.
pub open spec fn plain_relative(path: Seq<char>) -> bool {
    forall|i: int| 0 <= i < path.len() ==> !is_path_punct(#[trigger] path[i])
}

/// `joined` is `root` and `child` joined as every platform's `Path::join`
/// joins a plain relative child: `root`, possibly one separator, `child`;
/// nothing is said for a root that begins with two backslashes (see
/// `double_backslash_start`).
pub open spec fn joined_under(root: Seq<char>, child: Seq<char>, joined: Seq<char>) -> bool {
    !double_backslash_start(root) ==> {
        &&& has_prefix(joined, root)
        &&& has_suffix(joined, child)
        &&& root.len() + child.len() <= joined.len() <= root.len() + child.len() + 1
    }
}

/// `new` is what resolving the stored path `old` against the project root
/// `root` may give: a plain relative path is joined under the root; any
/// other path is kept or joined, as the platform decides.
pub open spec fn resolved_path(root: Seq<char>, old: Seq<char>, new: Seq<char>) -> bool {
    plain_relative(old) ==> joined_under(root, old, new)
}

/// The digits of `decimal(n)` spell `n`.
proof fn lemma_decimal_digits(n: nat)
    ensures
        decimal(n).len() > 0,
        forall|i: int| 0 <= i < decimal(n).len() ==> is_digit(#[trigger] decimal(n)[i]),
        digits_value(decimal(n)) == n,
    decreases n,
{
    let k = n % 10;
    assert((crate::text::digit_char(k) as u32) == k + 48);
    if n < 10 {
        let d = decimal(n);
        assert(d.drop_last() =~= Seq::<char>::empty());
        assert(d.last() == crate::text::digit_char(k));
        assert(digits_value(d) == digits_value(d.drop_last()) * 10 + ((d.last() as u32) - 48) as nat);
        assert(digits_value(d.drop_last()) == 0);
    } else {
        lemma_decimal_digits(n / 10);
        let d = decimal(n);
        assert(d.drop_last() == decimal(n / 10));
        assert(d.last() == crate::text::digit_char(n % 10));
        assert(digits_value(d) == digits_value(d.drop_last()) * 10 + ((d.last() as u32) - 48) as nat);
        assert(digits_value(d.drop_last()) == n / 10);
        assert forall|i: int| 0 <= i < d.len() implies is_digit(#[trigger] d[i]) by {
            if i < d.len() - 1 {
                assert(d[i] == decimal(n / 10)[i]);
            }
        }
    }
}

/// No " v" starts after position `from` of `s` when no character there is a space.
proof fn lemma_rfind_stops_at(s: Seq<char>, from: int, i: int)
    requires
        0 <= from,
        from + 2 <= s.len(),
        occurs_at(s, " v"@, from),
        from <= i < s.len(),
        forall|k: int| from < k < s.len() ==> s[k] != ' ',
        " v"@ == seq![' ', 'v'],
    ensures
        rfind_at_or_before(s, " v"@, i) == Some(from),
    decreases i - from,
{
    if i > from {
        if occurs_at(s, " v"@, i) {
            assert(s.subrange(i, i + 2)[0] == s[i]);
        }
        lemma_rfind_stops_at(s, from, i - 1);
    }
}

/// A versioned folder name reads back as its base name and version: the
/// version number written by `version_folder` is the one `version_split`
/// finds.
pub proof fn law_version_round_trip(base: Seq<char>, n: u32)
    ensures
        version_split(version_folder(base, n)) == (base, Some(n)),
{
    reveal_strlit(" v");
    assert(" v"@ =~= seq![' ', 'v']);
    let d = decimal(n as nat);
    lemma_decimal_digits(n as nat);
    let name = version_folder(base, n);
    let from = base.len() as int;
    assert(name == base + " v"@ + d);
    assert(name.subrange(from, from + 2) =~= " v"@);
    assert forall|k: int| from < k < name.len() implies name[k] != ' ' by {
        if k == from + 1 {
            assert(name[k] == 'v');
        } else {
            assert(name[k] == d[k - from - 2]);
            assert(is_digit(d[k - from - 2]));
        }
    }
    lemma_rfind_stops_at(name, from, name.len() - 2);
    assert(name.subrange(from + 2, name.len() as int) =~= d);
    assert(name.subrange(0, from) =~= base);
}

/// A sanitized folder name is not empty, holds no reserved character and
/// has no white space at its ends; sanitizing it again changes nothing.
pub proof fn law_sanitized_folder_name(name: Seq<char>)
    ensures
        sanitized_folder_name(name).len() > 0,
        forall|i: int| 0 <= i < sanitized_folder_name(name).len() ==> !is_reserved(#[trigger] sanitized_folder_name(name)[i]),
        trimmed(sanitized_folder_name(name)) == sanitized_folder_name(name),
        sanitized_folder_name(sanitized_folder_name(name)) == sanitized_folder_name(name),
{
    reveal_strlit("LingStationProject");
    let cleaned = Seq::new(name.len(), |i: int| if is_reserved(name[i]) { '_' } else { name[i] });
    let t = trimmed(cleaned);
    crate::text::lemma_trimmed_edges(cleaned);
    crate::text::lemma_trimmed_idempotent(cleaned);
    let r = sanitized_folder_name(name);
    assert forall|i: int| 0 <= i < r.len() implies !is_reserved(#[trigger] r[i]) by {
        if t.len() > 0 {
            let j = choose|j: int| 0 <= j < cleaned.len() && cleaned[j] == t[i];
            assert(!is_reserved(cleaned[j]));
        }
    }
    if t.len() == 0 {
        let fallback = "LingStationProject"@;
        assert(leading_ws(fallback) == 0);
        assert(fallback.subrange(0, fallback.len() as int) =~= fallback);
        assert(trailing_ws(fallback) == 0);
        assert(trimmed(fallback) =~= fallback);
    }
    let cleaned2 = Seq::new(r.len(), |i: int| if is_reserved(r[i]) { '_' } else { r[i] });
    assert(cleaned2 =~= r);
}

impl DawApp {
    /// Splits a trailing version suffix " v<digits>" off a project name (see
    /// `version_split`).
    pub fn split_version_suffix(name: &str) -> (r: (String, Option<u32>))
        ensures
            (r.0@, r.1) == version_split(name@),
    {
        proof {
            reveal_strlit(" v");
        }
        let v = chars_of(name);
        let found = rfind_space_v(&v);
        let i = match found {
            Some(i) => i,
            None => {
                return (owned(name), None);
            },
        };
        let n = v.len();
        let start = i + 2;
        let ghost suffix = name@.subrange(start as int, n as int);
        if start == n {
            return (owned(name), None);
        }
        let mut val: u64 = 0;
        let mut k: usize = start;
        while k < n
            invariant
                start <= k <= n == v.len(),
                v@ == name@,
                suffix == name@.subrange(start as int, n as int),
                start == i + 2,
                rfind(name@, " v"@) == Some(i as int),
                forall|j: int| start <= j < k ==> is_digit(#[trigger] v@[j]),
                val == digits_value(suffix.take(k - start)),
                val <= u32::MAX,
            decreases n - k,
        {
            let c = v[k];
            if !('0' <= c && c <= '9') {
                assert(!is_digit(suffix[k - start]));
                return (owned(name), None);
            }
            let d = ((c as u32) - 48) as u64;
            let next = val * 10 + d;
            assert(suffix.take(k + 1 - start).drop_last() == suffix.take(k - start));
            assert(suffix.take(k + 1 - start).last() == c);
            if next > 0xFFFF_FFFF {
                proof {
                    if forall|j: int| 0 <= j < suffix.len() ==> is_digit(#[trigger] suffix[j]) {
                        lemma_digits_value_prefix(suffix, k + 1 - start);
                    }
                }
                return (owned(name), None);
            }
            val = next;
            k = k + 1;
        }
        assert(suffix.take(n - start) == suffix);
        assert forall|j: int| 0 <= j < suffix.len() implies is_digit(#[trigger] suffix[j]) by {
            assert(suffix[j] == v@[start + j]);
        }
        (string_from_range(&v, 0, i), Some(val as u32))
    }
}

impl DawApp {
    /// `name` made usable as a folder name (see `sanitized_folder_name`).
    pub fn sanitize_folder_name(name: &str) -> (r: String)
        ensures
            r@ == sanitized_folder_name(name@),
    {
        let v = chars_of(name);
        let mut cleaned = String::new();
        let mut i: usize = 0;
        let ghost target = Seq::new(name@.len(), |k: int| if is_reserved(name@[k]) { '_' } else { name@[k] });
        while i < v.len()
            invariant
                i <= v.len(),
                v@ == name@,
                target == Seq::new(name@.len(), |k: int| if is_reserved(name@[k]) { '_' } else { name@[k] }),
                cleaned@ == target.take(i as int),
            decreases v.len() - i,
        {
            let ch = v[i];
            let safe = if ch == '<' || ch == '>' || ch == ':' || ch == '"' || ch == '/' || ch == '\\' || ch == '|'
                || ch == '?' || ch == '*' {
                '_'
            } else {
                ch
            };
            push_char(&mut cleaned, safe);
            assert(target.take(i + 1) == target.take(i as int).push(safe));
            i = i + 1;
        }
        assert(target.take(v.len() as int) == target);
        let blank = is_blank(cleaned.as_str());
        if blank {
            owned("LingStationProject")
        } else {
            trim(cleaned.as_str())
        }
    }
    /// `path` without a leading extended-length prefix `\\?\`.
    pub fn normalize_windows_path(path: &str) -> (r: String)
        ensures
            r@ == normalized_path(path@),
    {
        let prefix = "\\\\?\\";
        proof {
            reveal_strlit("\\\\?\\");
            assert(prefix@ == verbatim_prefix());
        }
        if starts_with(path, prefix) {
            let v = chars_of(path);
            string_from_range(&v, 4, v.len())
        } else {
            owned(path)
        }
    }

    /// Whether two paths name the same location: equal after normalization,
    /// ignoring ASCII case.
    pub fn paths_equal(a: &str, b: &str) -> (r: bool)
        ensures
            r == (lower_seq(normalized_path(a@)) == lower_seq(normalized_path(b@))),
    {
        let left = to_ascii_lowercase(Self::normalize_windows_path(a).as_str());
        let right = to_ascii_lowercase(Self::normalize_windows_path(b).as_str());
        same_text(left.as_str(), right.as_str())
    }

    /// Moves `folder` to the front of the recent-projects list (see
    /// `registered_recent`).
    pub fn register_recent_project_path(&mut self, folder: &str)
        ensures
            final(self).settings.recent_projects.deep_view()
                == registered_recent(old(self).settings.recent_projects.deep_view(), folder@),
            final(self).tracks@ == old(self).tracks@,
            final(self).project_path@ == old(self).project_path@,
            final(self).status@ == old(self).status@,
            final(self).project_name@ == old(self).project_name@,
            final(self).dirty == old(self).dirty,
    {
        let path = Self::normalize_windows_path(folder);
        if is_blank(path.as_str()) {
            return;
        }
        let ghost p = path@;
        let ghost old_list = self.settings.recent_projects.deep_view();
        let mut kept: Vec<String> = Vec::new();
        let mut i: usize = 0;
        let n = self.settings.recent_projects.len();
        while i < n
            invariant
                i <= n == self.settings.recent_projects.len(),
                old_list == self.settings.recent_projects.deep_view(),
                p == path@,
                kept.deep_view() == without_path(old_list.take(i as int), p),
            decreases n - i,
        {
            let entry = &self.settings.recent_projects[i];
            let same = eq_ignore_ascii_case(entry.as_str(), path.as_str());
            assert(old_list.take(i + 1).drop_last() == old_list.take(i as int));
            assert(old_list[i as int] == entry@);
            assert(old_list.take(i + 1).last() == entry@);
            assert(same == eq_ignore_case(entry@, p));
            assert(old_list.take(i + 1).len() > 0);
            if !same {
                let ghost before = kept.deep_view();
                kept.push(entry.clone());
                assert(kept.deep_view() =~= before.push(entry@));
            }
            i = i + 1;
        }
        assert(old_list.take(n as int) == old_list);
        let mut list: Vec<String> = Vec::new();
        list.push(path);
        assert(list.deep_view() =~= seq![p]);
        let mut j: usize = 0;
        proof {
            lemma_without_path(old_list, p);
        }
        let ghost w = kept.deep_view();
        while j < kept.len() && list.len() < MAX_RECENT_PROJECTS
            invariant
                j <= kept.len(),
                w == kept.deep_view(),
                list.len() == j + 1,
                list.len() <= MAX_RECENT_PROJECTS,
                list.deep_view() == seq![p] + w.take(j as int),
            decreases kept.len() - j,
        {
            let ghost before = list.deep_view();
            list.push(kept[j].clone());
            assert(list.deep_view() =~= before.push(w[j as int]));
            assert(w.take(j + 1) == w.take(j as int).push(w[j as int]));
            j = j + 1;
        }
        proof {
            let l = seq![p] + w;
            if l.len() > MAX_RECENT_PROJECTS {
                assert(j == 9);
                assert(l.take(MAX_RECENT_PROJECTS as int) =~= seq![p] + w.take(j as int));
            } else {
                assert(w.take(j as int) == w);
            }
        }
        self.settings.recent_projects = list;
    }

    /// Opens the rename dialog of the project with its current name.
    pub fn begin_rename_project(&mut self)
        ensures
            final(self).project_name_buffer@ == old(self).project_name@,
            final(self).show_rename_project,
            final(self).project_name@ == old(self).project_name@,
            final(self).tracks@ == old(self).tracks@,
    {
        self.project_name_buffer = self.project_name.clone();
        self.show_rename_project = true;
    }

    /// Takes the trimmed name from the rename dialog as the project name,
    /// unless it is blank.
    pub fn apply_rename_project(&mut self)
        ensures
            trimmed(old(self).project_name_buffer@).len() > 0 ==> {
                &&& final(self).project_name@ == trimmed(old(self).project_name_buffer@)
                &&& final(self).dirty
                &&& final(self).status@ == "Project renamed"@
            },
            trimmed(old(self).project_name_buffer@).len() == 0 ==> {
                &&& final(self).project_name@ == old(self).project_name@
                &&& final(self).dirty == old(self).dirty
                &&& final(self).status@ == old(self).status@
            },
            final(self).project_name_buffer@ == old(self).project_name_buffer@,
            final(self).tracks@ == old(self).tracks@,
    {
        let name = trim(self.project_name_buffer.as_str());
        if !is_blank(self.project_name_buffer.as_str()) {
            self.project_name = name;
            self.dirty = true;
            self.status = owned("Project renamed");
        }
    }

    /// Whether the user is registered (see `registered`).
    pub fn is_registered_user(&self) -> (r: bool)
        ensures
            r == registered(self.license_status@, self.settings.registered_to@),
    {
        starts_with(self.license_status.as_str(), "Registered") || !is_blank(self.settings.registered_to.as_str())
    }

    /// Whether a custom wallpaper is shown: only for registered users who chose one.
    pub fn wallpaper_enabled(&self) -> (r: bool)
        ensures
            r == (registered(self.license_status@, self.settings.registered_to@) && trimmed(
                self.settings.wallpaper_path@,
            ).len() > 0),
    {
        self.is_registered_user() && !is_blank(self.settings.wallpaper_path.as_str())
    }

    /// The file name renders are saved under (see `render_base`).
    pub fn render_base_name(&self) -> (r: String)
        ensures
            r@ == render_base(self.metadata_artist@, self.metadata_title@, self.project_name@),
    {
        let artist = trim(self.metadata_artist.as_str());
        let title = trim(self.metadata_title.as_str());
        let has_artist = !is_blank(self.metadata_artist.as_str());
        let has_title = !is_blank(self.metadata_title.as_str());
        proof {
            reveal_strlit(" - ");
        }
        let base = if has_artist && has_title {
            let head = concat(artist.as_str(), " - ");
            concat(head.as_str(), title.as_str())
        } else if has_title {
            title
        } else if has_artist {
            artist
        } else if !is_blank(self.project_name.as_str()) {
            self.project_name.clone()
        } else {
            owned("render")
        };
        Self::sanitize_folder_name(base.as_str())
    }

    /// The comment written into renders (see `license_comment`).
    pub fn render_license_comment(&self) -> (r: Option<String>)
        ensures
            r.deep_view() == license_comment(self.license_status@, self.settings.registered_to@),
    {
        let status = trim(self.license_status.as_str());
        let registered = starts_with(status.as_str(), "Registered") || !is_blank(self.settings.registered_to.as_str());
        if registered {
            let lower = to_ascii_lowercase(status.as_str());
            if contains(lower.as_str(), "edu") || contains(lower.as_str(), "education") {
                Some(owned("Made with an Educational License"))
            } else {
                None
            }
        } else {
            Some(owned("Made with LingStation[Unlicensed]"))
        }
    }
    /// The folder `save_project` writes to (see `save_target`).
    pub fn save_project(&self, default_dir: Option<String>) -> (r: Result<String, String>)
        ensures
            match r {
                Ok(f) => save_target(self.project_path@, default_dir.deep_view()) == Ok::<Seq<char>, Seq<char>>(f@),
                Err(e) => save_target(self.project_path@, default_dir.deep_view()) == Err::<Seq<char>, Seq<char>>(e@),
            },
    {
        if is_blank(self.project_path.as_str()) {
            match default_dir {
                Some(d) => Ok(d),
                None => Err(owned("Default project folder unavailable")),
            }
        } else {
            Ok(self.project_path.clone())
        }
    }

    /// The folder the save command writes to; the same rule as `save_project`.
    pub fn save_project_or_prompt(&self, default_dir: Option<String>) -> (r: Result<String, String>)
        ensures
            match r {
                Ok(f) => save_target(self.project_path@, default_dir.deep_view()) == Ok::<Seq<char>, Seq<char>>(f@),
                Err(e) => save_target(self.project_path@, default_dir.deep_view()) == Err::<Seq<char>, Seq<char>>(e@),
            },
    {
        self.save_project(default_dir)
    }

    /// The folder the open project is loaded from.
    pub fn load_project(&self) -> (r: String)
        ensures
            r@ == self.project_path@,
    {
        self.project_path.clone()
    }

    /// The folder to create for the project (see `folder_target`).
    pub fn project_folder_target(&self, default_dir: Option<String>) -> (r: Result<String, String>)
        ensures
            match r {
                Ok(f) => folder_target(self.project_path@, default_dir.deep_view()) == Ok::<Seq<char>, Seq<char>>(f@),
                Err(e) => folder_target(self.project_path@, default_dir.deep_view()) == Err::<Seq<char>, Seq<char>>(e@),
            },
    {
        if is_blank(self.project_path.as_str()) {
            match default_dir {
                Some(d) => Ok(d),
                None => Err(owned("Default project folder unavailable")),
            }
        } else {
            Ok(trim(self.project_path.as_str()))
        }
    }

    /// Makes sure the project has a folder: `created` is the outcome of
    /// creating the folder `project_folder_target` named. On success a
    /// project without folder takes that folder as its own.
    pub fn ensure_project_folder(&mut self, default_dir: Option<String>, created: Result<(), String>) -> (r: Result<
        String,
        String,
    >)
        ensures
            match folder_target(old(self).project_path@, default_dir.deep_view()) {
                Err(e) => r matches Err(x) && x@ == e && final(self).project_path@ == old(self).project_path@,
                Ok(f) => match created {
                    Err(e) => r matches Err(x) && x@ == e@ && final(self).project_path@ == old(self).project_path@,
                    Ok(_) => r matches Ok(x) && x@ == f && final(self).project_path@ == (if trimmed(
                        old(self).project_path@,
                    ).len() == 0 {
                        f
                    } else {
                        old(self).project_path@
                    }),
                },
            },
            final(self).tracks.deep_view() == old(self).tracks.deep_view(),
    {
        let target = match self.project_folder_target(default_dir) {
            Ok(t) => t,
            Err(e) => {
                return Err(e);
            },
        };
        if let Err(e) = created {
            return Err(e);
        }
        if is_blank(self.project_path.as_str()) {
            self.project_path = target.clone();
        }
        Ok(target)
    }

    /// Opening a project folder: when `exists` says the folder is gone, it
    /// is dropped from the recent projects (any ASCII case) and the open is
    /// refused; otherwise the folder can be loaded.
    pub fn open_project_from_path(&mut self, path: &str, exists: bool) -> (r: Result<(), String>)
        ensures
            exists ==> r is Ok && final(self).settings.recent_projects.deep_view()
                == old(self).settings.recent_projects.deep_view(),
            !exists ==> (r matches Err(e) && e@ == "Project folder not found"@
                && final(self).settings.recent_projects.deep_view() == without_path(
                old(self).settings.recent_projects.deep_view(),
                path@,
            )),
            final(self).tracks.deep_view() == old(self).tracks.deep_view(),
    {
        if exists {
            return Ok(());
        }
        let ghost old_list = self.settings.recent_projects.deep_view();
        let mut kept: Vec<String> = Vec::new();
        let mut i: usize = 0;
        let n = self.settings.recent_projects.len();
        while i < n
            invariant
                i <= n == self.settings.recent_projects.len(),
                old_list == self.settings.recent_projects.deep_view(),
                kept.deep_view() == without_path(old_list.take(i as int), path@),
            decreases n - i,
        {
            let entry = &self.settings.recent_projects[i];
            let same = eq_ignore_ascii_case(entry.as_str(), path);
            assert(old_list.take(i + 1).drop_last() == old_list.take(i as int));
            assert(old_list[i as int] == entry@);
            assert(old_list.take(i + 1).last() == entry@);
            if !same {
                let ghost before = kept.deep_view();
                kept.push(entry.clone());
                assert(kept.deep_view() =~= before.push(entry@));
            }
            i = i + 1;
        }
        assert(old_list.take(n as int) == old_list);
        self.settings.recent_projects = kept;
        Err(owned("Project folder not found"))
    }

    /// The plan for a new version, from the parent and the name of the
    /// project folder (see `version_plan`).
    pub fn new_version_plan(parent: Option<String>, name: Option<String>) -> (r: Result<VersionPlan, String>)
        ensures
            match r {
                Ok(p) => version_plan(parent.deep_view(), name.deep_view()) == Ok::<
                    (Seq<char>, Seq<char>, u32),
                    Seq<char>,
                >((p.parent@, p.base@, p.first)),
                Err(e) => version_plan(parent.deep_view(), name.deep_view()) == Err::<
                    (Seq<char>, Seq<char>, u32),
                    Seq<char>,
                >(e@),
            },
    {
        let p = match parent {
            Some(p) => p,
            None => {
                return Err(owned("Project folder has no parent"));
            },
        };
        let n = match name {
            Some(n) => n,
            None => {
                return Err(owned("Project folder name unavailable"));
            },
        };
        let (base, version) = Self::split_version_suffix(n.as_str());
        let b = trim_end(base.as_str());
        if is_empty_text(b.as_str()) {
            return Err(owned("Project name unavailable"));
        }
        let v = match version {
            Some(v) => v,
            None => 1,
        };
        let first = if v == u32::MAX {
            u32::MAX
        } else {
            v + 1
        };
        Ok(VersionPlan { parent: p, base: b, first })
    }

    /// The plan for saving the project as a new version next to its folder:
    /// refused for a project without folder, otherwise `new_version_plan`
    /// of the folder's parent and name as the platform reads them.
    pub fn save_project_new_version(&self) -> (r: Result<VersionPlan, String>)
        ensures
            trimmed(self.project_path@).len() == 0 ==> (r matches Err(e) && e@ == "No project path to version"@),
            trimmed(self.project_path@).len() > 0 ==> exists|parent: Option<Seq<char>>, name: Option<Seq<char>>|
                #![trigger version_plan(parent, name)]
                {
                &&& (parent.is_some() ==> has_prefix(trimmed(self.project_path@), parent.unwrap()))
                &&& file_name_allowed(trimmed(self.project_path@), name)
                &&& match r {
                    Ok(p) => version_plan(parent, name) == Ok::<(Seq<char>, Seq<char>, u32), Seq<char>>(
                        (p.parent@, p.base@, p.first),
                    ),
                    Err(e) => version_plan(parent, name) == Err::<(Seq<char>, Seq<char>, u32), Seq<char>>(e@),
                }
            },
    {
        let current = trim(self.project_path.as_str());
        if is_empty_text(current.as_str()) {
            return Err(owned("No project path to version"));
        }
        let parent = path_parent(current.as_str());
        let name = path_file_name(current.as_str());
        let ghost pv = parent.deep_view();
        let ghost nv = name.deep_view();
        let r = Self::new_version_plan(parent, name);
        assert({
            &&& (pv.is_some() ==> has_prefix(trimmed(self.project_path@), pv.unwrap()))
            &&& file_name_allowed(trimmed(self.project_path@), nv)
            &&& match r {
                Ok(p) => version_plan(pv, nv) == Ok::<(Seq<char>, Seq<char>, u32), Seq<char>>((p.parent@, p.base@, p.first)),
                Err(e) => version_plan(pv, nv) == Err::<(Seq<char>, Seq<char>, u32), Seq<char>>(e@),
            }
        });
        r
    }

    /// The folder name of version `n` of a project named `base` (see `version_folder`).
    pub fn version_folder_name(base: &str, n: u32) -> (r: String)
        ensures
            r@ == version_folder(base@, n),
    {
        proof {
            reveal_strlit(" v");
        }
        let head = concat(base, " v");
        let num = decimal_string(n as u64);
        concat(head.as_str(), num.as_str())
    }

    /// The version number to try after `n` (see `version_after`).
    pub fn next_version_number(n: u32) -> (r: Option<u32>)
        ensures
            r == version_after(n),
    {
        let next = if n == u32::MAX {
            u32::MAX
        } else {
            n + 1
        };
        if next > MAX_VERSION {
            None
        } else {
            Some(next)
        }
    }

    /// Makes the paths of a sample instrument absolute against the project
    /// root (see `resolved_path`); paths the platform reads as absolute stay.
    pub fn resolve_treesynth_paths_from_project_root(state: &mut TreeSynthState, project_root: &str)
        ensures
            old(state).folder.is_none() ==> final(state).folder.is_none(),
            old(state).folder matches Some(f) ==> final(state).folder matches Some(g) && resolved_path(
                project_root@,
                f@,
                g@,
            ),
            final(state).sample_paths@.len() == old(state).sample_paths@.len(),
            forall|i: int|
                0 <= i < old(state).sample_paths@.len() ==> resolved_path(
                    project_root@,
                    #[trigger] old(state).sample_paths@[i]@,
                    final(state).sample_paths@[i]@,
                ),
    {
        let new_folder = match &state.folder {
            Some(f) => {
                if path_is_relative(f.as_str()) {
                    Some(path_join(project_root, f.as_str()))
                } else {
                    Some(f.clone())
                }
            },
            None => None,
        };
        state.folder = new_folder;
        let ghost folder_now = state.folder;
        let ghost old_paths = state.sample_paths@;
        let mut i: usize = 0;
        while i < state.sample_paths.len()
            invariant
                i <= state.sample_paths@.len() == old_paths.len(),
                state.folder == folder_now,
                forall|k: int| i <= k < old_paths.len() ==> state.sample_paths@[k] == old_paths[k],
                forall|k: int| 0 <= k < i ==> resolved_path(project_root@, #[trigger] old_paths[k]@, state.sample_paths@[k]@),
            decreases old_paths.len() - i,
        {
            if path_is_relative(state.sample_paths[i].as_str()) {
                let joined = path_join(project_root, state.sample_paths[i].as_str());
                state.sample_paths.set(i, joined);
            }
            i = i + 1;
        }
    }

    /// Makes the sample paths of a drum machine's pads absolute against the
    /// project root (see `resolved_path`); empty pads stay empty.
    pub fn resolve_drummachine_paths_from_project_root(state: &mut DrumMachineState, project_root: &str)
        ensures
            final(state).pad_paths@.len() == old(state).pad_paths@.len(),
            forall|i: int|
                0 <= i < old(state).pad_paths@.len() ==> match #[trigger] old(state).pad_paths@[i] {
                    None => final(state).pad_paths@[i].is_none(),
                    Some(p) => final(state).pad_paths@[i] matches Some(q) && resolved_path(project_root@, p@, q@),
                },
    {
        let ghost old_pads = state.pad_paths@;
        let mut i: usize = 0;
        while i < state.pad_paths.len()
            invariant
                i <= state.pad_paths@.len() == old_pads.len(),
                forall|k: int| i <= k < old_pads.len() ==> state.pad_paths@[k] == old_pads[k],
                forall|k: int|
                    0 <= k < i ==> match #[trigger] old_pads[k] {
                        None => state.pad_paths@[k].is_none(),
                        Some(p) => state.pad_paths@[k] matches Some(q) && resolved_path(project_root@, p@, q@),
                    },
            decreases old_pads.len() - i,
        {
            let replaced = match &state.pad_paths[i] {
                Some(p) => {
                    if path_is_relative(p.as_str()) {
                        Some(path_join(project_root, p.as_str()))
                    } else {
                        None
                    }
                },
                None => None,
            };
            if let Some(q) = replaced {
                state.pad_paths.set(i, Some(q));
            }
            i = i + 1;
        }
    }
    /// The asset folders to copy when a project is saved to another folder:
    /// its "audio" and "samples" folders, each from under `source` to under
    /// `target` (as `Path::join` joins them; see `joined_under`). Nothing is
    /// copied when the source folder does not exist (`source_exists`) or is
    /// the target (see `paths_equal`). The copies themselves, skipping
    /// missing folders, are done on disk.
    pub fn copy_project_assets_if_needed(source_exists: bool, source: &str, target: &str) -> (r: Vec<(String, String)>)
        ensures
            (!source_exists || lower_seq(normalized_path(source@)) == lower_seq(normalized_path(target@))) ==> r@.len()
                == 0,
            (source_exists && lower_seq(normalized_path(source@)) != lower_seq(normalized_path(target@))) ==> {
                &&& r@.len() == 2
                &&& joined_under(source@, "audio"@, r@[0].0@)
                &&& joined_under(target@, "audio"@, r@[0].1@)
                &&& joined_under(source@, "samples"@, r@[1].0@)
                &&& joined_under(target@, "samples"@, r@[1].1@)
            },
    {
        let mut r: Vec<(String, String)> = Vec::new();
        if !source_exists || Self::paths_equal(source, target) {
            return r;
        }
        proof {
            reveal_strlit("audio");
            reveal_strlit("samples");
        }
        r.push((path_join(source, "audio"), path_join(target, "audio")));
        r.push((path_join(source, "samples"), path_join(target, "samples")));
        r
    }
}

} // verus!
