//! File-system paths as the project sees them: names taken apart with std's
//! `Path`, plug-in paths classified, browser entries ordered.
//!
//! What `Path` makes of a string depends on the platform the program runs on
//! (which characters separate components, what a prefix is). The contracts
//! of the calls below therefore state only what holds on every platform.
use std::path::Path;
use vstd::prelude::*;
use crate::model::DawApp;
use crate::order::{name_order, stable_name_order};
use crate::text::{
    concat, contains, eq_ignore_ascii_case, eq_ignore_case, has_infix, has_prefix, lower_seq, owned, replace_char,
    replace_chars, same_text, starts_with, to_ascii_lowercase,
};

verus! {

/// Characters that separate or prefix path components on some platform.
pub open spec fn is_path_punct(c: char) -> bool {
    c == '/' || c == '\\' || c == ':'
}

/// A single plain component: not empty, not `.` or `..`, and free of
/// separators and drive colons on every platform.
pub open spec fn plain_component(p: Seq<char>) -> bool {
    &&& p.len() > 0
    &&& p != seq!['.']
    &&& p != seq!['.', '.']
    &&& forall|i: int| 0 <= i < p.len() ==> !is_path_punct(#[trigger] p[i])
}

/// `p` begins with two backslashes: a Windows UNC, device or verbatim
/// (`\\?\`) path, in which Windows does not always read `/` as a separator
/// and normalizes what is joined to it.
pub open spec fn double_backslash_start(p: Seq<char>) -> bool {
    p.len() >= 2 && p[0] == '\\' && p[1] == '\\'
}

/// A base that stays one after a plain name is joined to it (see
/// `lemma_join_keeps_base`): it does not begin with two backslashes and is
/// not a lone backslash.
pub open spec fn joinable_base(p: Seq<char>) -> bool {
    !double_backslash_start(p) && p != seq!['\\']
}

/// Joining a non-empty plain name to a joinable base gives a joinable base.
pub proof fn lemma_join_keeps_base(base: Seq<char>, child: Seq<char>, r: Seq<char>)
    requires
        joinable_base(base),
        child.len() > 0,
        forall|i: int| 0 <= i < child.len() ==> !is_path_punct(#[trigger] child[i]),
        has_prefix(r, base),
        has_suffix(r, child),
        base.len() + child.len() <= r.len() <= base.len() + child.len() + 1,
    ensures
        joinable_base(r),
{
    assert(r.skip(r.len() - child.len()) == child);
    if base.len() >= 2 {
        assert(r.take(base.len() as int) == base);
        assert(r[0] == base[0] && r[1] == base[1]);
    } else if base.len() == 1 {
        assert(r.take(1) == base);
        assert(r[0] == base[0]);
        assert(base != seq!['\\']);
        assert(base[0] != '\\') by {
            if base[0] == '\\' {
                assert(base =~= seq!['\\']);
            }
        }
    } else {
        if r.len() == child.len() {
            assert(r == child);
            assert(!is_path_punct(child[0]));
            assert(r[0] == child[0]);
        } else {
            assert(r[1] == child[0]);
            assert(!is_path_punct(child[0]));
        }
    }
    assert(r != seq!['\\']) by {
        if r == seq!['\\'] {
            assert(r.len() == 1);
        }
    }
}

/// Whether `s` ends with `t`.
pub open spec fn has_suffix(s: Seq<char>, t: Seq<char>) -> bool {
    t.len() <= s.len() && s.skip(s.len() - t.len()) == t
}

/// Whether `c` occurs in `s`.
pub open spec fn has_char(s: Seq<char>, c: char) -> bool {
    exists|i: int| 0 <= i < s.len() && s[i] == c
}

/// What every platform's `Path::file_name` may give for `path`: a name that
/// is not empty and occurs in `path`, holding no `/` unless `path` begins
/// with two backslashes; for a plain single component, the component
/// itself.
pub open spec fn file_name_allowed(path: Seq<char>, r: Option<Seq<char>>) -> bool {
    &&& r.is_some() ==> r.unwrap().len() > 0 && has_infix(path, r.unwrap())
    &&& r.is_some() && !double_backslash_start(path) ==> !has_char(r.unwrap(), '/')
    &&& plain_component(path) ==> r == Some(path)
}

/// The last component of `path` (std `Path::file_name`).
///
/// Claimed: `file_name_allowed`. Which other characters separate components
/// depends on the platform and is not stated.
#[verifier::external_body]
pub(crate) fn path_file_name(path: &str) -> (r: Option<String>)
    ensures
        file_name_allowed(path@, r.deep_view()),
{
    Path::new(path).file_name().and_then(|s| s.to_str()).map(|s| s.to_string())
}

/// The path without its last component (std `Path::parent`).
///
/// Claimed: a parent that is returned is a prefix of `path`; an empty path
/// has none; a plain single component has the empty parent.
#[verifier::external_body]
pub(crate) fn path_parent(path: &str) -> (r: Option<String>)
    ensures
        r.is_some() ==> has_prefix(path@, r.unwrap()@),
        path@.len() == 0 ==> r.is_none(),
        plain_component(path@) ==> r.is_some() && r.unwrap()@.len() == 0,
{
    Path::new(path).parent().and_then(|s| s.to_str()).map(|s| s.to_string())
}

/// What every platform's `Path::extension` may give for `path`: text that
/// follows a `.` in `path` and holds no `.`, nor `/` unless `path` begins
/// with two backslashes; for a plain single
/// component, what follows its last `.` when that `.` is not its first
/// character, and nothing when it has no `.`.
pub open spec fn extension_allowed(path: Seq<char>, r: Option<Seq<char>>) -> bool {
    &&& r.is_some() ==> has_infix(path, seq!['.'] + r.unwrap()) && !has_char(r.unwrap(), '.')
    &&& r.is_some() && !double_backslash_start(path) ==> !has_char(r.unwrap(), '/')
    &&& plain_component(path) && !has_char(path, '.') ==> r.is_none()
    &&& forall|k: int|
        0 < k < path.len() && plain_component(path) && #[trigger] path[k] == '.' && !has_char(path.skip(k + 1), '.')
            ==> r == Some(path.skip(k + 1))
}

/// The extension of the last component of `path` (std `Path::extension`).
///
/// Claimed: `extension_allowed`. Which other characters separate components
/// depends on the platform and is not stated.
#[verifier::external_body]
pub(crate) fn path_extension(path: &str) -> (r: Option<String>)
    ensures
        extension_allowed(path@, r.deep_view()),
{
    Path::new(path).extension().and_then(|s| s.to_str()).map(|s| s.to_string())
}

/// What every platform's `Path::file_stem` may give for `path`: text that
/// occurs in `path`, holding no `/` unless `path` begins with two
/// backslashes; for a plain single component, the
/// component up to its last `.` when that `.` is not its first character,
/// and the whole component when it has no `.`.
pub open spec fn file_stem_allowed(path: Seq<char>, r: Option<Seq<char>>) -> bool {
    &&& r.is_some() ==> has_infix(path, r.unwrap())
    &&& r.is_some() && !double_backslash_start(path) ==> !has_char(r.unwrap(), '/')
    &&& plain_component(path) && !has_char(path, '.') ==> r == Some(path)
    &&& forall|k: int|
        0 < k < path.len() && plain_component(path) && #[trigger] path[k] == '.' && !has_char(path.skip(k + 1), '.')
            ==> r == Some(path.take(k))
}

/// The last component of `path` without its extension (std `Path::file_stem`).
///
/// Claimed: `file_stem_allowed`. Which other characters separate components
/// depends on the platform and is not stated.
#[verifier::external_body]
pub(crate) fn path_file_stem(path: &str) -> (r: Option<String>)
    ensures
        file_stem_allowed(path@, r.deep_view()),
{
    Path::new(path).file_stem().and_then(|s| s.to_str()).map(|s| s.to_string())
}

/// Whether `path` is relative (std `Path::is_relative`).
///
/// Claimed: a path without separators and drive colons is relative. Which
/// other paths are relative depends on the platform and is not stated.
#[verifier::external_body]
pub(crate) fn path_is_relative(path: &str) -> (r: bool)
    ensures
        (forall|i: int| 0 <= i < path@.len() ==> !is_path_punct(#[trigger] path@[i])) ==> r,
{
    Path::new(path).is_relative()
}

/// `child` appended to `base` (std `Path::join`, then `to_string_lossy`).
///
/// Claimed: for a child without separators and drive colons, and a base
/// that does not begin with two backslashes (a verbatim base is normalized
/// by Windows), the result is `base`, possibly one separator, then `child`.
/// The separator depends on the platform and is not stated.
#[verifier::external_body]
pub(crate) fn path_join(base: &str, child: &str) -> (r: String)
    ensures
        !double_backslash_start(base@) && (forall|i: int| 0 <= i < child@.len() ==> !is_path_punct(#[trigger] child@[i])) ==> {
            &&& has_prefix(r@, base@)
            &&& has_suffix(r@, child@)
            &&& base@.len() + child@.len() <= r@.len() <= base@.len() + child@.len() + 1
        },
{
    Path::new(base).join(child).to_string_lossy().to_string()
}

/// Where a plug-in comes from.
#[derive(Clone, Copy, Debug, PartialEq, Eq, Structural)]
pub enum PluginCategory {
    Native,
    Bundled,
    System,
}

/// The plug-in format a path is loaded as.
#[derive(Clone, Copy, Debug, PartialEq, Eq, Structural)]
pub enum PluginKind {
    Native,
    Vst3,
    Clap,
}

/// What a file dragged from the browser becomes.
#[derive(Clone, Copy, Debug, PartialEq, Eq, Structural)]
pub enum FsDragKind {
    Midi,
    Audio,
}

/// A built-in instrument: its path starts with "native:".
pub open spec fn is_native(path: Seq<char>) -> bool {
    has_prefix(path, "native:"@)
}

/// A plug-in shipped in the program's "synths" folder.
pub open spec fn is_bundled(path: Seq<char>) -> bool {
    let lower = lower_seq(path);
    ||| has_prefix(lower, "synths\\"@)
    ||| has_prefix(lower, "synths/"@)
    ||| lower == "synths"@
    ||| has_infix(lower, "\\synths\\"@)
    ||| has_infix(lower, "/synths/"@)
}

pub open spec fn category_of(path: Seq<char>) -> PluginCategory {
    if is_native(path) {
        PluginCategory::Native
    } else if is_bundled(path) {
        PluginCategory::Bundled
    } else {
        PluginCategory::System
    }
}

/// The format of the plug-in at `path` whose extension is `ext`: native
/// paths are native, a "clap" extension (any ASCII case) is CLAP, anything
/// else VST3.
pub open spec fn kind_for_extension(path: Seq<char>, ext: Option<Seq<char>>) -> PluginKind {
    if is_native(path) {
        PluginKind::Native
    } else if ext.is_some() && lower_seq(ext.unwrap()) == "clap"@ {
        PluginKind::Clap
    } else {
        PluginKind::Vst3
    }
}

/// What a browser file with extension `ext` is dropped as.
pub open spec fn drag_kind_for_extension(ext: Option<Seq<char>>) -> Option<FsDragKind> {
    match ext {
        None => None,
        Some(e) => {
            let l = lower_seq(e);
            if l == "mid"@ || l == "midi"@ {
                Some(FsDragKind::Midi)
            } else if l == "wav"@ || l == "ogg"@ || l == "flac"@ || l == "mp3"@ || l == "aiff"@ || l == "aif"@ {
                Some(FsDragKind::Audio)
            } else {
                None
            }
        },
    }
}

/// The project name a folder name stands for: underscores read as spaces.
pub open spec fn name_from_file_name(name: Option<Seq<char>>) -> Option<Seq<char>> {
    match name {
        Some(n) => Some(replace_char(n, '_', ' ')),
        None => None,
    }
}

/// Where a copy of a file goes: its folder, its name without extension (or
/// "copy"), and its extension (or none).
pub struct DuplicatePlan {
    pub parent: String,
    pub stem: String,
    pub ext: String,
}

/// The plan for copying a file (see `DuplicatePlan`) whose folder, name
/// without extension and extension are `parent`, `stem` and `ext`; folders
/// are refused.
pub open spec fn duplicate_plan(
    is_dir: bool,
    parent: Option<Seq<char>>,
    stem: Option<Seq<char>>,
    ext: Option<Seq<char>>,
) -> Result<(Seq<char>, Seq<char>, Seq<char>), Seq<char>> {
    if is_dir {
        Err("Duplicate only supports files"@)
    } else {
        match parent {
            None => Err("Missing parent folder"@),
            Some(p) => Ok((
                p,
                match stem {
                    Some(s) => s,
                    None => "copy"@,
                },
                match ext {
                    Some(e) => e,
                    None => Seq::empty(),
                },
            )),
        }
    }
}

/// The name of the `counter`-th candidate copy of a file: "<stem> copy",
/// then "<stem> copy <n>", with the extension kept.
pub open spec fn duplicate_name(stem: Seq<char>, ext: Seq<char>, counter: u32) -> Seq<char> {
    let base = if counter == 1 {
        stem + " copy"@
    } else {
        stem + " copy "@ + crate::text::decimal(counter as nat)
    };
    if ext.len() == 0 {
        base
    } else {
        base + "."@ + ext
    }
}

/// A template folder found on disk: its name as the platform reads it, and
/// its path.
pub struct TemplateFolder {
    pub file_name: Option<String>,
    pub path: String,
}

/// The entry a template folder is listed with: its name ("Template" when it
/// has none) with underscores read as spaces, and its normalized path.
pub open spec fn template_entry(file_name: Option<Seq<char>>, path: Seq<char>) -> (Seq<char>, Seq<char>) {
    (
        replace_char(
            match file_name {
                Some(n) => n,
                None => "Template"@,
            },
            '_',
            ' ',
        ),
        crate::project::normalized_path(path),
    )
}

/// The entries of `folders` (see `template_entry`), in order.
pub open spec fn template_entries(folders: Seq<(Option<Seq<char>>, Seq<char>)>) -> Seq<(Seq<char>, Seq<char>)> {
    folders.map_values(|f: (Option<Seq<char>>, Seq<char>)| template_entry(f.0, f.1))
}

/// Template entries sorted by name (equal names keep their order).
pub open spec fn templates_sorted(entries: Seq<(Seq<char>, Seq<char>)>) -> Seq<(Seq<char>, Seq<char>)> {
    name_order(entries.map_values(|e: (Seq<char>, Seq<char>)| e.0)).map_values(|i: int| entries[i])
}

/// A file or folder shown in the file browser.
pub struct FsEntry {
    pub name: String,
    pub path: String,
    pub is_dir: bool,
}

/// The value of a browser entry.
pub struct FsEntryView {
    pub name: Seq<char>,
    pub path: Seq<char>,
    pub is_dir: bool,
}

impl DeepView for FsEntry {
    type V = FsEntryView;

    open spec fn deep_view(&self) -> FsEntryView {
        FsEntryView { name: self.name@, path: self.path@, is_dir: self.is_dir }
    }
}

impl FsEntry {
    pub fn copied(&self) -> (r: FsEntry)
        ensures
            r.deep_view() == self.deep_view(),
    {
        FsEntry { name: self.name.clone(), path: self.path.clone(), is_dir: self.is_dir }
    }
}

/// The folders (`dir`) or the files of `entries`, in order.
pub open spec fn entries_of_kind(entries: Seq<FsEntryView>, dir: bool) -> Seq<FsEntryView>
    decreases entries.len(),
{
    if entries.len() == 0 {
        entries
    } else {
        let rest = entries_of_kind(entries.drop_last(), dir);
        if entries.last().is_dir == dir {
            rest.push(entries.last())
        } else {
            rest
        }
    }
}

/// `entries` stably sorted by name.
pub open spec fn sorted_by_name(entries: Seq<FsEntryView>) -> Seq<FsEntryView> {
    name_order(entries.map_values(|e: FsEntryView| e.name)).map_values(|i: int| entries[i])
}

/// The order the browser lists a folder's entries in: folders first, then
/// files, each sorted by name (entries with equal names keep their order).
pub open spec fn browser_order(entries: Seq<FsEntryView>) -> Seq<FsEntryView> {
    sorted_by_name(entries_of_kind(entries, true)) + sorted_by_name(entries_of_kind(entries, false))
}

/// The entries of `entries` of one kind, copied.
fn entries_kind(entries: &Vec<FsEntry>, dir: bool) -> (r: Vec<FsEntry>)
    ensures
        r.deep_view() == entries_of_kind(entries.deep_view(), dir),
{
    let mut r: Vec<FsEntry> = Vec::new();
    let mut i: usize = 0;
    while i < entries.len()
        invariant
            i <= entries.len(),
            r.deep_view() == entries_of_kind(entries.deep_view().take(i as int), dir),
        decreases entries.len() - i,
    {
        assert(entries.deep_view().take(i + 1).drop_last() == entries.deep_view().take(i as int));
        assert(entries.deep_view().take(i + 1).last() == entries@[i as int].deep_view());
        if entries[i].is_dir == dir {
            let ghost before = r.deep_view();
            r.push(entries[i].copied());
            assert(r.deep_view() =~= before.push(entries@[i as int].deep_view()));
        }
        i = i + 1;
    }
    assert(entries.deep_view().take(entries.len() as int) == entries.deep_view());
    r
}

/// `entries` stably sorted by name.
fn sort_by_name(entries: &Vec<FsEntry>) -> (r: Vec<FsEntry>)
    ensures
        r.deep_view() == sorted_by_name(entries.deep_view()),
{
    let ghost ev = entries.deep_view();
    let mut names: Vec<Vec<char>> = Vec::new();
    let mut i: usize = 0;
    while i < entries.len()
        invariant
            i <= entries.len(),
            ev == entries.deep_view(),
            names.deep_view() == ev.map_values(|e: FsEntryView| e.name).take(i as int),
        decreases entries.len() - i,
    {
        let ghost before = names.deep_view();
        let cs = crate::text::chars_of(entries[i].name.as_str());
        assert(cs.deep_view() =~= cs@);
        names.push(cs);
        assert(ev[i as int] == entries@[i as int].deep_view());
        assert(names.deep_view() =~= before.push(ev[i as int].name));
        assert(ev.map_values(|e: FsEntryView| e.name).take(i + 1) =~= before.push(ev[i as int].name));
        i = i + 1;
    }
    assert(ev.map_values(|e: FsEntryView| e.name).take(entries.len() as int) =~= ev.map_values(|e: FsEntryView| e.name));
    let order = stable_name_order(&names);
    let ghost oi = order@.map_values(|x: usize| x as int);
    assert forall|k: int| 0 <= k < order@.len() implies 0 <= #[trigger] order@[k] < entries@.len() by {
        assert(oi[k] == order@[k] as int);
    }
    let mut r: Vec<FsEntry> = Vec::new();
    let mut j: usize = 0;
    while j < order.len()
        invariant
            j <= order@.len() == entries@.len(),
            ev == entries.deep_view(),
            oi == order@.map_values(|x: usize| x as int),
            oi == name_order(ev.map_values(|e: FsEntryView| e.name)),
            forall|k: int| 0 <= k < order@.len() ==> 0 <= #[trigger] order@[k] < entries@.len(),
            r.deep_view() == oi.map_values(|i: int| ev[i]).take(j as int),
        decreases order@.len() - j,
    {
        let ghost before = r.deep_view();
        let e = entries[order[j]].copied();
        assert(e.deep_view() == ev[oi[j as int]]);
        r.push(e);
        assert(r.deep_view() =~= before.push(ev[oi[j as int]]));
        assert(oi.map_values(|i: int| ev[i]).take(j + 1) =~= before.push(ev[oi[j as int]]));
        j = j + 1;
    }
    assert(oi.map_values(|i: int| ev[i]).take(order@.len() as int) =~= oi.map_values(|i: int| ev[i]));
    r
}

impl DawApp {
    pub fn is_native_plugin_path(path: &str) -> (r: bool)
        ensures
            r == is_native(path@),
    {
        starts_with(path, "native:")
    }

    pub fn is_treesynth_path(path: &str) -> (r: bool)
        ensures
            r == eq_ignore_case(path@, "native:treesynth"@),
    {
        eq_ignore_ascii_case(path, "native:treesynth")
    }

    pub fn is_drummachine_path(path: &str) -> (r: bool)
        ensures
            r == eq_ignore_case(path@, "native:drummachine"@),
    {
        eq_ignore_ascii_case(path, "native:drummachine")
    }

    pub fn is_bundled_plugin_path(path: &str) -> (r: bool)
        ensures
            r == is_bundled(path@),
    {
        let lower = to_ascii_lowercase(path);
        let l = lower.as_str();
        if starts_with(l, "synths\\") || starts_with(l, "synths/") || same_text(l, "synths") {
            return true;
        }
        contains(l, "\\synths\\") || contains(l, "/synths/")
    }

    pub fn categorize_plugin_path(path: &str) -> (r: PluginCategory)
        ensures
            r == category_of(path@),
    {
        if Self::is_native_plugin_path(path) {
            PluginCategory::Native
        } else if Self::is_bundled_plugin_path(path) {
            PluginCategory::Bundled
        } else {
            PluginCategory::System
        }
    }

    /// The format of the plug-in at `path`, given the extension that was
    /// read from it (see `kind_for_extension`).
    pub fn plugin_kind_for_extension(path: &str, ext: &Option<String>) -> (r: PluginKind)
        ensures
            r == kind_for_extension(path@, ext.deep_view()),
    {
        if Self::is_native_plugin_path(path) {
            return PluginKind::Native;
        }
        match ext {
            Some(e) => {
                let lower = to_ascii_lowercase(e.as_str());
                if same_text(lower.as_str(), "clap") {
                    PluginKind::Clap
                } else {
                    PluginKind::Vst3
                }
            },
            None => PluginKind::Vst3,
        }
    }

    /// The format of the plug-in at `path`: native for a native path,
    /// otherwise by its extension.
    pub fn plugin_kind_from_path(path: &str) -> (r: PluginKind)
        ensures
            is_native(path@) ==> r == PluginKind::Native,
            !is_native(path@) ==> exists|e: Option<Seq<char>>|
                extension_allowed(path@, e) && r == kind_for_extension(path@, e),
    {
        if Self::is_native_plugin_path(path) {
            return PluginKind::Native;
        }
        let ext = path_extension(path);
        let r = Self::plugin_kind_for_extension(path, &ext);
        assert(extension_allowed(path@, ext.deep_view()) && r == kind_for_extension(path@, ext.deep_view()));
        r
    }

    /// What a browser file with extension `ext` is dropped as (see
    /// `drag_kind_for_extension`).
    pub fn fs_drag_kind_for_extension(ext: &Option<String>) -> (r: Option<FsDragKind>)
        ensures
            r == drag_kind_for_extension(ext.deep_view()),
    {
        match ext {
            None => None,
            Some(e) => {
                let lower = to_ascii_lowercase(e.as_str());
                let l = lower.as_str();
                if same_text(l, "mid") || same_text(l, "midi") {
                    Some(FsDragKind::Midi)
                } else if same_text(l, "wav") || same_text(l, "ogg") || same_text(l, "flac") || same_text(l, "mp3")
                    || same_text(l, "aiff") || same_text(l, "aif") {
                    Some(FsDragKind::Audio)
                } else {
                    None
                }
            },
        }
    }

    /// What a browser file is dropped as, by its extension.
    pub fn fs_drag_kind_for_path(path: &str) -> (r: Option<FsDragKind>)
        ensures
            exists|e: Option<Seq<char>>| extension_allowed(path@, e) && r == drag_kind_for_extension(e),
    {
        let ext = path_extension(path);
        let r = Self::fs_drag_kind_for_extension(&ext);
        assert(extension_allowed(path@, ext.deep_view()) && r == drag_kind_for_extension(ext.deep_view()));
        r
    }

    /// The key under which caches and the browser remember a path: the path itself.
    pub fn fs_key(path: &str) -> (r: String)
        ensures
            r@ == path@,
    {
        owned(path)
    }

    /// The project name that a folder name gives (see `name_from_file_name`).
    pub fn project_name_from_file_name(name: &Option<String>) -> (r: Option<String>)
        ensures
            r.deep_view() == name_from_file_name(name.deep_view()),
    {
        match name {
            Some(n) => Some(replace_chars(n.as_str(), '_', ' ')),
            None => None,
        }
    }

    /// The project name that the project folder's name gives.
    pub fn project_name_from_path(&self) -> (r: Option<String>)
        ensures
            exists|n: Option<Seq<char>>| file_name_allowed(self.project_path@, n) && r.deep_view() == name_from_file_name(n),
    {
        let name = path_file_name(self.project_path.as_str());
        let r = Self::project_name_from_file_name(&name);
        assert(file_name_allowed(self.project_path@, name.deep_view()));
        r
    }

    /// Plug-in folders searched for VST3 plug-ins.
    pub fn vst3_search_roots(&self) -> (r: Vec<String>)
        ensures
            r.deep_view() == seq!["C:\\Program Files\\Common Files\\VST3"@, "synths"@],
    {
        let mut roots: Vec<String> = Vec::new();
        roots.push(owned("C:\\Program Files\\Common Files\\VST3"));
        roots.push(owned("synths"));
        assert(roots.deep_view() =~= seq!["C:\\Program Files\\Common Files\\VST3"@, "synths"@]);
        roots
    }

    /// Plug-in folders searched for CLAP plug-ins.
    pub fn clap_search_roots(&self) -> (r: Vec<String>)
        ensures
            r.deep_view() == seq!["C:\\Program Files\\Common Files\\CLAP"@, "synths"@],
    {
        let mut roots: Vec<String> = Vec::new();
        roots.push(owned("C:\\Program Files\\Common Files\\CLAP"));
        roots.push(owned("synths"));
        assert(roots.deep_view() =~= seq!["C:\\Program Files\\Common Files\\CLAP"@, "synths"@]);
        roots
    }
    /// The entries of a folder as the browser lists them (see
    /// `browser_order`); `entries` are the folder's entries as read.
    pub fn list_project_entries(&self, entries: Vec<FsEntry>) -> (r: Vec<FsEntry>)
        ensures
            r.deep_view() == browser_order(entries.deep_view()),
    {
        let dirs = sort_by_name(&entries_kind(&entries, true));
        let files = sort_by_name(&entries_kind(&entries, false));
        let mut r = dirs;
        let ghost head = r.deep_view();
        let mut i: usize = 0;
        while i < files.len()
            invariant
                i <= files.len(),
                r.deep_view() == head + files.deep_view().take(i as int),
            decreases files.len() - i,
        {
            let ghost before = r.deep_view();
            r.push(files[i].copied());
            assert(r.deep_view() =~= before.push(files.deep_view()[i as int]));
            assert(files.deep_view().take(i + 1) =~= files.deep_view().take(i as int).push(files.deep_view()[i as int]));
            i = i + 1;
        }
        assert(files.deep_view().take(files.len() as int) == files.deep_view());
        r
    }
    /// The plan for copying a file, from its folder, name without extension
    /// and extension (see `duplicate_plan`).
    pub fn duplicate_plan_for(
        is_dir: bool,
        parent: Option<String>,
        stem: Option<String>,
        ext: Option<String>,
    ) -> (r: Result<DuplicatePlan, String>)
        ensures
            match r {
                Ok(p) => duplicate_plan(is_dir, parent.deep_view(), stem.deep_view(), ext.deep_view()) == Ok::<
                    (Seq<char>, Seq<char>, Seq<char>),
                    Seq<char>,
                >((p.parent@, p.stem@, p.ext@)),
                Err(e) => duplicate_plan(is_dir, parent.deep_view(), stem.deep_view(), ext.deep_view()) == Err::<
                    (Seq<char>, Seq<char>, Seq<char>),
                    Seq<char>,
                >(e@),
            },
    {
        if is_dir {
            return Err(owned("Duplicate only supports files"));
        }
        let p = match parent {
            Some(p) => p,
            None => {
                return Err(owned("Missing parent folder"));
            },
        };
        let s = match stem {
            Some(s) => s,
            None => owned("copy"),
        };
        let e = match ext {
            Some(e) => e,
            None => String::new(),
        };
        Ok(DuplicatePlan { parent: p, stem: s, ext: e })
    }

    /// The plan for copying the file at `path` (`is_dir` says whether it is
    /// a folder), from its folder, stem and extension as the platform reads
    /// them (see `duplicate_plan`).
    pub fn duplicate_fs_path(path: &str, is_dir: bool) -> (r: Result<DuplicatePlan, String>)
        ensures
            is_dir ==> (r matches Err(e) && e@ == "Duplicate only supports files"@),
            exists|parent: Option<Seq<char>>, stem: Option<Seq<char>>, ext: Option<Seq<char>>|
                #![trigger duplicate_plan(is_dir, parent, stem, ext)]
                {
                    &&& (parent.is_some() ==> has_prefix(path@, parent.unwrap()))
                    &&& file_stem_allowed(path@, stem)
                    &&& extension_allowed(path@, ext)
                    &&& match r {
                        Ok(p) => duplicate_plan(is_dir, parent, stem, ext) == Ok::<
                            (Seq<char>, Seq<char>, Seq<char>),
                            Seq<char>,
                        >((p.parent@, p.stem@, p.ext@)),
                        Err(e) => duplicate_plan(is_dir, parent, stem, ext) == Err::<
                            (Seq<char>, Seq<char>, Seq<char>),
                            Seq<char>,
                        >(e@),
                    }
                },
    {
        let parent = path_parent(path);
        let stem = path_file_stem(path);
        let ext = path_extension(path);
        let ghost pv = parent.deep_view();
        let ghost sv = stem.deep_view();
        let ghost ev = ext.deep_view();
        let r = Self::duplicate_plan_for(is_dir, parent, stem, ext);
        assert({
            &&& (pv.is_some() ==> has_prefix(path@, pv.unwrap()))
            &&& file_stem_allowed(path@, sv)
            &&& extension_allowed(path@, ev)
            &&& match r {
                Ok(p) => duplicate_plan(is_dir, pv, sv, ev) == Ok::<(Seq<char>, Seq<char>, Seq<char>), Seq<char>>(
                    (p.parent@, p.stem@, p.ext@),
                ),
                Err(e) => duplicate_plan(is_dir, pv, sv, ev) == Err::<(Seq<char>, Seq<char>, Seq<char>), Seq<char>>(e@),
            }
        });
        r
    }

    /// The name of the `counter`-th candidate copy (see `duplicate_name`).
    pub fn duplicate_file_name(stem: &str, ext: &str, counter: u32) -> (r: String)
        ensures
            r@ == duplicate_name(stem@, ext@, counter),
    {
        proof {
            reveal_strlit(" copy");
            reveal_strlit(" copy ");
        }
        let base = if counter == 1 {
            concat(stem, " copy")
        } else {
            let head = concat(stem, " copy ");
            let num = crate::text::decimal_string(counter as u64);
            concat(head.as_str(), num.as_str())
        };
        if crate::text::is_empty_text(ext) {
            base
        } else {
            let with_dot = concat(base.as_str(), ".");
            concat(with_dot.as_str(), ext)
        }
    }

    /// The templates found on disk as the start screen lists them: each
    /// folder's entry (see `template_entry`), sorted by name.
    pub fn list_templates(&self, folders: Vec<TemplateFolder>) -> (r: Vec<(String, String)>)
        ensures
            r.deep_view() == templates_sorted(
                template_entries(folders@.map_values(|f: TemplateFolder| (f.file_name.deep_view(), f.path@))),
            ),
    {
        let ghost fv = folders@.map_values(|f: TemplateFolder| (f.file_name.deep_view(), f.path@));
        let ghost entries_v = template_entries(fv);
        let mut entries: Vec<(String, String)> = Vec::new();
        let mut names: Vec<Vec<char>> = Vec::new();
        let mut i: usize = 0;
        while i < folders.len()
            invariant
                i <= folders@.len(),
                fv == folders@.map_values(|f: TemplateFolder| (f.file_name.deep_view(), f.path@)),
                entries_v == template_entries(fv),
                entries.deep_view() == entries_v.take(i as int),
                names.deep_view() == entries_v.map_values(|e: (Seq<char>, Seq<char>)| e.0).take(i as int),
            decreases folders@.len() - i,
        {
            let f = &folders[i];
            let base = match &f.file_name {
                Some(n) => n.clone(),
                None => owned("Template"),
            };
            let name = replace_chars(base.as_str(), '_', ' ');
            let path = crate::model::DawApp::normalize_windows_path(f.path.as_str());
            assert(fv[i as int] == (f.file_name.deep_view(), f.path@));
            assert((name@, path@) == template_entry(fv[i as int].0, fv[i as int].1));
            let cs = crate::text::chars_of(name.as_str());
            assert(cs.deep_view() =~= cs@);
            let ghost before_e = entries.deep_view();
            let ghost before_n = names.deep_view();
            names.push(cs);
            entries.push((name, path));
            assert(entries.deep_view() =~= before_e.push(entries_v[i as int]));
            assert(entries_v.take(i + 1) =~= entries_v.take(i as int).push(entries_v[i as int]));
            assert(names.deep_view() =~= before_n.push(entries_v[i as int].0));
            assert(entries_v.map_values(|e: (Seq<char>, Seq<char>)| e.0).take(i + 1) =~= before_n.push(entries_v[i as int].0));
            i = i + 1;
        }
        assert(entries_v.take(folders@.len() as int) =~= entries_v);
        assert(entries_v.map_values(|e: (Seq<char>, Seq<char>)| e.0).take(folders@.len() as int) =~= entries_v.map_values(
            |e: (Seq<char>, Seq<char>)| e.0,
        ));
        let order = stable_name_order(&names);
        let ghost oi = order@.map_values(|x: usize| x as int);
        assert forall|k: int| 0 <= k < order@.len() implies 0 <= #[trigger] order@[k] < entries@.len() by {
            assert(oi[k] == order@[k] as int);
        }
        let mut r: Vec<(String, String)> = Vec::new();
        let mut j: usize = 0;
        while j < order.len()
            invariant
                j <= order@.len() == entries@.len(),
                entries.deep_view() == entries_v,
                oi == order@.map_values(|x: usize| x as int),
                oi == name_order(entries_v.map_values(|e: (Seq<char>, Seq<char>)| e.0)),
                forall|k: int| 0 <= k < order@.len() ==> 0 <= #[trigger] order@[k] < entries@.len(),
                r.deep_view() == oi.map_values(|i: int| entries_v[i]).take(j as int),
            decreases order@.len() - j,
        {
            let ghost before = r.deep_view();
            let e = &entries[order[j]];
            let item = (e.0.clone(), e.1.clone());
            assert(entries.deep_view()[oi[j as int]] == (e.0@, e.1@));
            r.push(item);
            assert(r.deep_view() =~= before.push(entries_v[oi[j as int]]));
            assert(oi.map_values(|i: int| entries_v[i]).take(j + 1) =~= before.push(entries_v[oi[j as int]]));
            j = j + 1;
        }
        assert(oi.map_values(|i: int| entries_v[i]).take(order@.len() as int) =~= oi.map_values(|i: int| entries_v[i]));
        r
    }
}

} // verus!
