//! The side bar's trees of files: the project folder and the folders the
//! user added to the browser. Which folders are shown open, which entry is
//! selected, how rows are labelled and which actions a row offers; listing
//! and changing files is left to the caller.
use vstd::prelude::*;
use crate::model::DawApp;
use crate::paths::{file_name_allowed, has_suffix, path_file_name};
use crate::project::sanitized_folder_name;
use crate::saving::default_project_name;
use crate::session::without_entry;
use crate::text::{after_last, concat, has_prefix, is_blank, last_segment, owned, same_text, to_ascii_uppercase, trim,
    trimmed, upper_seq};

verus! {

/// Which tree a row belongs to.
#[derive(Clone, Copy, Debug, PartialEq, Eq, Structural)]
pub enum FsSource {
    Project,
    Browser,
}

/// An action a row's menu offers.
#[derive(Clone, Copy, Debug, PartialEq, Eq, Structural)]
pub enum FsMenuItem {
    Delete,
    Duplicate,
    ShowInExplorer,
    RemoveFolder,
}

/// The folders shown open in the tree `source`.
pub open spec fn open_keys(app: DawApp, source: FsSource) -> Seq<Seq<char>> {
    match source {
        FsSource::Project => app.fs_expanded.deep_view(),
        FsSource::Browser => app.browser_expanded.deep_view(),
    }
}

/// The entry selected in the tree `source`.
pub open spec fn selected_key(app: DawApp, source: FsSource) -> Option<Seq<char>> {
    match source {
        FsSource::Project => app.fs_selected.deep_view(),
        FsSource::Browser => app.browser_selected.deep_view(),
    }
}

/// No folder occurs twice among `keys`.
pub open spec fn no_repeats(keys: Seq<Seq<char>>) -> bool {
    forall|i: int, j: int| 0 <= i < j < keys.len() ==> keys[i] != keys[j]
}

/// The open folders after a row for `key` was drawn (a folder when
/// `is_dir`, its arrow clicked when `toggled`): a clicked folder closes
/// when open and opens when closed.
pub open spec fn keys_after_row(keys: Seq<Seq<char>>, key: Seq<char>, is_dir: bool, toggled: bool) -> Seq<Seq<char>> {
    if is_dir && toggled {
        if keys.contains(key) {
            without_entry(keys, key)
        } else {
            keys.push(key)
        }
    } else {
        keys
    }
}

/// The number of bytes of `s` in UTF-8.
pub open spec fn utf8_len(s: Seq<char>) -> nat
    decreases s.len(),
{
    if s.len() == 0 {
        0
    } else {
        utf8_len(s.drop_last()) + utf8_char_len(s.last())
    }
}

/// The number of bytes of `c` in UTF-8.
pub open spec fn utf8_char_len(c: char) -> nat {
    if (c as u32) < 0x80 {
        1
    } else if (c as u32) < 0x800 {
        2
    } else if (c as u32) < 0x10000 {
        3
    } else {
        4
    }
}

/// The badge a file's row shows: the text after the last `.` of its label
/// (all of it when it has none) in upper case, when that takes 1 to 6
/// bytes; folders show none.
pub open spec fn fs_badge(label: Seq<char>, is_dir: bool) -> Option<Seq<char>> {
    let ext = last_segment(label, '.');
    if !is_dir && 0 < utf8_len(ext) && utf8_len(ext) <= 6 {
        Some(upper_seq(ext))
    } else {
        None
    }
}

/// The actions a row's menu offers: deleting and duplicating a file,
/// showing the entry in the file manager, and removing a folder the user
/// added to the browser (a folder at the top of the browser).
pub open spec fn fs_menu(is_dir: bool, source: FsSource, depth: usize) -> Seq<FsMenuItem> {
    let files = if is_dir {
        Seq::<FsMenuItem>::empty()
    } else {
        seq![FsMenuItem::Delete, FsMenuItem::Duplicate]
    };
    let shown = files.push(FsMenuItem::ShowInExplorer);
    if source == FsSource::Browser && depth == 0 && is_dir {
        shown.push(FsMenuItem::RemoveFolder)
    } else {
        shown
    }
}

/// What a list with `a` appended contains.
proof fn lemma_push_contains(s: Seq<Seq<char>>, a: Seq<char>)
    ensures
        forall|x: Seq<char>| #[trigger] s.push(a).contains(x) <==> (s.contains(x) || x == a),
{
    assert forall|x: Seq<char>| #[trigger] s.push(a).contains(x) <==> (s.contains(x) || x == a) by {
        if s.push(a).contains(x) {
            let i = choose|i: int| 0 <= i < s.len() + 1 && s.push(a)[i] == x;
            if i < s.len() {
                assert(s[i] == x);
            }
        }
        if s.contains(x) {
            let i = choose|i: int| 0 <= i < s.len() && s[i] == x;
            assert(s.push(a)[i] == x);
        }
        if x == a {
            assert(s.push(a)[s.len() as int] == x);
        }
    }
}

/// What `without_entry` keeps: exactly the other entries; a list without
/// `key` is kept whole; no entry comes to occur twice.
proof fn lemma_without_entry(list: Seq<Seq<char>>, key: Seq<char>)
    ensures
        forall|x: Seq<char>| #[trigger] without_entry(list, key).contains(x) <==> (list.contains(x) && x != key),
        !list.contains(key) ==> without_entry(list, key) == list,
        no_repeats(list) ==> no_repeats(without_entry(list, key)),
    decreases list.len(),
{
    if list.len() > 0 {
        let rest = list.drop_last();
        let last = list.last();
        lemma_without_entry(rest, key);
        let w = without_entry(rest, key);
        assert(list == rest.push(last));
        lemma_push_contains(rest, last);
        lemma_push_contains(w, last);
        if last == key {
            assert(without_entry(list, key) == w);
        } else {
            assert(without_entry(list, key) == w.push(last));
        }
        if !list.contains(key) {
            assert(!rest.contains(key));
            assert(last != key);
        }
        if no_repeats(list) {
            assert(no_repeats(rest)) by {
                assert forall|i: int, j: int| 0 <= i < j < rest.len() implies rest[i] != rest[j] by {
                    assert(list[i] == rest[i] && list[j] == rest[j]);
                }
            }
            if last != key {
                assert(!rest.contains(last)) by {
                    if rest.contains(last) {
                        let j = choose|j: int| 0 <= j < rest.len() && rest[j] == last;
                        assert(list[j] == list[list.len() - 1]);
                    }
                }
                assert(!w.contains(last));
                let p = w.push(last);
                assert forall|i: int, j: int| 0 <= i < j < p.len() implies p[i] != p[j] by {
                    if j == w.len() {
                        assert(p[i] == w[i]);
                        assert(w.contains(w[i]));
                    } else {
                        assert(p[i] == w[i] && p[j] == w[j]);
                    }
                }
            }
        }
    }
}

/// Each click on a folder's arrow flips whether it is open, the other open
/// folders staying open; two clicks leave the same folders open; no folder
/// comes to be listed twice.
pub proof fn law_folder_toggle(keys: Seq<Seq<char>>, key: Seq<char>)
    ensures
        keys_after_row(keys, key, true, true).contains(key) == !keys.contains(key),
        forall|x: Seq<char>| x != key ==> (#[trigger] keys_after_row(keys, key, true, true).contains(x) == keys.contains(x)),
        keys_after_row(keys_after_row(keys, key, true, true), key, true, true).to_set() == keys.to_set(),
        no_repeats(keys) ==> no_repeats(keys_after_row(keys, key, true, true)),
{
    lemma_without_entry(keys, key);
    let once = keys_after_row(keys, key, true, true);
    if !keys.contains(key) {
        assert(once == keys.push(key));
        lemma_push_contains(keys, key);
        lemma_without_entry(once, key);
        let twice = keys_after_row(once, key, true, true);
        assert(twice == without_entry(once, key));
        assert(twice.to_set() =~= keys.to_set());
        if no_repeats(keys) {
            assert forall|i: int, j: int| 0 <= i < j < once.len() implies once[i] != once[j] by {
                if j == keys.len() {
                    assert(keys[i] == once[i]);
                }
            }
        }
    } else {
        lemma_without_entry(once, key);
        let twice = keys_after_row(once, key, true, true);
        assert(!once.contains(key));
        assert(twice == once.push(key));
        assert(twice[once.len() as int] == key);
        lemma_push_contains(once, key);
        assert forall|x: Seq<char>| twice.to_set().contains(x) == keys.to_set().contains(x) by {
            assert(twice.contains(x) == (once.contains(x) || x == key));
        }
        assert(twice.to_set() =~= keys.to_set());
    }
}

/// The number of UTF-8 bytes of `s` where it is at most 6; above that, some
/// number from 7 to 10.
fn utf8_byte_count_to_six(s: &str) -> (r: usize)
    ensures
        utf8_len(s@) <= 6 ==> r == utf8_len(s@),
        utf8_len(s@) > 6 ==> 6 < r <= 10,
{
    let v = crate::text::chars_of(s);
    let mut n: usize = 0;
    let mut i: usize = 0;
    while i < v.len()
        invariant
            i <= v.len(),
            v@ == s@,
            utf8_len(v@.take(i as int)) <= 6 ==> n == utf8_len(v@.take(i as int)),
            utf8_len(v@.take(i as int)) > 6 ==> 6 < n <= 10,
        decreases v.len() - i,
    {
        let c = v[i];
        let code = c as u32;
        let step: usize = if code < 0x80 {
            1
        } else if code < 0x800 {
            2
        } else if code < 0x10000 {
            3
        } else {
            4
        };
        assert(v@.take(i + 1).drop_last() == v@.take(i as int));
        if n <= 6 {
            n = n + step;
        }
        i = i + 1;
    }
    assert(v@.take(v.len() as int) == v@);
    n
}

impl DawApp {
    /// The folder the project tree shows: the project's folder; without one
    /// the default project folder (see `default_project_dir`); without that
    /// the working folder ".".
    pub fn sidebar_project_root(&self, exe_dir: Option<String>) -> (r: String)
        ensures
            trimmed(self.project_path@).len() > 0 ==> r@ == trimmed(self.project_path@),
            trimmed(self.project_path@).len() == 0 && exe_dir is None ==> r@ == "."@,
            trimmed(self.project_path@).len() == 0 ==> (exe_dir matches Some(d) ==> (!crate::paths::double_backslash_start(
                d@,
            ) ==> has_prefix(r@, d@) && has_suffix(r@, sanitized_folder_name(default_project_name(self.project_name@))))),
    {
        if !is_blank(self.project_path.as_str()) {
            return trim(self.project_path.as_str());
        }
        match self.default_project_dir(exe_dir) {
            Some(d) => d,
            None => {
                proof {
                    reveal_strlit(".");
                }
                owned(".")
            },
        }
    }

    /// The label of a tree's top row for the folder `path`: its last
    /// component as the platform reads it, else the whole path.
    pub fn fs_row_label(path: &str) -> (r: String)
        ensures
            exists|name: Option<Seq<char>>|
                file_name_allowed(path@, name) && r@ == match name {
                    Some(n) => n,
                    None => path@,
                },
    {
        let name = path_file_name(path);
        match name {
            Some(n) => n,
            None => owned(path),
        }
    }

    /// Shows the project folder `root_key` open when no folder of the
    /// project tree is.
    pub fn open_project_root(&mut self, root_key: &str)
        ensures
            final(self).fs_expanded.deep_view() == if old(self).fs_expanded@.len() == 0 {
                seq![root_key@]
            } else {
                old(self).fs_expanded.deep_view()
            },
            *final(self) == (DawApp { fs_expanded: final(self).fs_expanded, ..*old(self) }),
    {
        if self.fs_expanded.len() == 0 {
            self.fs_expanded.push(owned(root_key));
            assert(self.fs_expanded.deep_view() =~= seq![root_key@]);
        }
    }

    /// Shows the browser folder `root_key` open.
    pub fn open_browser_root(&mut self, root_key: &str)
        ensures
            final(self).browser_expanded.deep_view() == keys_after_row(
                old(self).browser_expanded.deep_view(),
                root_key@,
                true,
                !old(self).browser_expanded.deep_view().contains(root_key@),
            ),
            final(self).browser_expanded.deep_view().contains(root_key@),
            no_repeats(old(self).browser_expanded.deep_view()) ==> no_repeats(final(self).browser_expanded.deep_view()),
            *final(self) == (DawApp { browser_expanded: final(self).browser_expanded, ..*old(self) }),
    {
        if !Self::holds_key(&self.browser_expanded, root_key) {
            let ghost before = self.browser_expanded.deep_view();
            self.browser_expanded.push(owned(root_key));
            assert(self.browser_expanded.deep_view() =~= before.push(root_key@));
            assert(self.browser_expanded.deep_view()[before.len() as int] == root_key@);
        }
    }

    /// Whether `key` is among `keys`.
    fn holds_key(keys: &Vec<String>, key: &str) -> (r: bool)
        ensures
            r == keys.deep_view().contains(key@),
    {
        let mut i: usize = 0;
        while i < keys.len()
            invariant
                i <= keys@.len(),
                forall|j: int| 0 <= j < i ==> keys.deep_view()[j] != key@,
            decreases keys@.len() - i,
        {
            if same_text(keys[i].as_str(), key) {
                assert(keys.deep_view()[i as int] == key@);
                return true;
            }
            i = i + 1;
        }
        false
    }

    /// Whether folder `key` is shown open in the tree `source`.
    pub fn is_fs_open(&self, source: FsSource, key: &str) -> (r: bool)
        ensures
            r == open_keys(*self, source).contains(key@),
    {
        match source {
            FsSource::Project => Self::holds_key(&self.fs_expanded, key),
            FsSource::Browser => Self::holds_key(&self.browser_expanded, key),
        }
    }

    /// `keys` without `key`.
    fn drop_key(keys: &Vec<String>, key: &str) -> (r: Vec<String>)
        ensures
            r.deep_view() == without_entry(keys.deep_view(), key@),
    {
        let mut kept: Vec<String> = Vec::new();
        let mut i: usize = 0;
        while i < keys.len()
            invariant
                i <= keys.len(),
                kept.deep_view() == without_entry(keys.deep_view().take(i as int), key@),
            decreases keys.len() - i,
        {
            let entry = &keys[i];
            assert(keys.deep_view().take(i + 1).drop_last() == keys.deep_view().take(i as int));
            assert(keys.deep_view()[i as int] == entry@);
            if !same_text(entry.as_str(), key) {
                let ghost before = kept.deep_view();
                kept.push(entry.clone());
                assert(kept.deep_view() =~= before.push(entry@));
            }
            i = i + 1;
        }
        assert(keys.deep_view().take(keys.len() as int) == keys.deep_view());
        kept
    }

    /// The open folders of `keys` after the row for `key` was drawn (see
    /// `keys_after_row`).
    fn keys_after(keys: &Vec<String>, key: &str, is_dir: bool, toggled: bool) -> (r: Vec<String>)
        ensures
            r.deep_view() == keys_after_row(keys.deep_view(), key@, is_dir, toggled),
    {
        let mut next = crate::model::copy_strings(keys);
        if is_dir && toggled {
            if Self::holds_key(keys, key) {
                next = Self::drop_key(keys, key);
            } else {
                let ghost before = next.deep_view();
                next.push(owned(key));
                assert(next.deep_view() =~= before.push(key@));
            }
        }
        next
    }

    /// Draws the state of the row for `key` in the tree `source`: a folder
    /// (`is_dir`) whose arrow was clicked (`toggled`) closes when open and
    /// opens when closed (see `keys_after_row`). The result says whether
    /// the folder's entries are to be shown below it: it is a folder and
    /// open now.
    pub fn fs_tree_step(&mut self, source: FsSource, key: &str, is_dir: bool, toggled: bool) -> (show: bool)
        ensures
            open_keys(*final(self), source) == keys_after_row(open_keys(*old(self), source), key@, is_dir, toggled),
            show == (is_dir && open_keys(*final(self), source).contains(key@)),
            source == FsSource::Project ==> *final(self) == (DawApp { fs_expanded: final(self).fs_expanded, ..*old(self) }),
            source == FsSource::Browser ==> *final(self) == (DawApp {
                browser_expanded: final(self).browser_expanded,
                ..*old(self)
            }),
    {
        match source {
            FsSource::Project => {
                let next = Self::keys_after(&self.fs_expanded, key, is_dir, toggled);
                self.fs_expanded = next;
                is_dir && Self::holds_key(&self.fs_expanded, key)
            },
            FsSource::Browser => {
                let next = Self::keys_after(&self.browser_expanded, key, is_dir, toggled);
                self.browser_expanded = next;
                is_dir && Self::holds_key(&self.browser_expanded, key)
            },
        }
    }

    /// Selects the entry `key` in the tree `source`.
    pub fn select_fs_entry(&mut self, source: FsSource, key: &str)
        ensures
            selected_key(*final(self), source) == Some(key@),
            source == FsSource::Project ==> *final(self) == (DawApp { fs_selected: final(self).fs_selected, ..*old(self) }),
            source == FsSource::Browser ==> *final(self) == (DawApp {
                browser_selected: final(self).browser_selected,
                ..*old(self)
            }),
    {
        match source {
            FsSource::Project => {
                self.fs_selected = Some(owned(key));
            },
            FsSource::Browser => {
                self.browser_selected = Some(owned(key));
            },
        }
    }

    /// Whether the entry `key` is the one selected in the tree `source`.
    pub fn is_fs_selected(&self, source: FsSource, key: &str) -> (r: bool)
        ensures
            r == (selected_key(*self, source) == Some(key@)),
    {
        let chosen = match source {
            FsSource::Project => &self.fs_selected,
            FsSource::Browser => &self.browser_selected,
        };
        match chosen {
            Some(k) => same_text(k.as_str(), key),
            None => false,
        }
    }

    /// The badge of a row (see `fs_badge`).
    pub fn fs_row_badge(label: &str, is_dir: bool) -> (r: Option<String>)
        ensures
            r.deep_view() == fs_badge(label@, is_dir),
    {
        if is_dir {
            return None;
        }
        let ext = after_last(label, '.');
        let bytes = utf8_byte_count_to_six(ext.as_str());
        if bytes > 0 && bytes <= 6 {
            Some(to_ascii_uppercase(ext.as_str()))
        } else {
            None
        }
    }

    /// The actions of a row's menu (see `fs_menu`).
    pub fn fs_row_menu(is_dir: bool, source: FsSource, depth: usize) -> (r: Vec<FsMenuItem>)
        ensures
            r@ == fs_menu(is_dir, source, depth),
    {
        let mut r: Vec<FsMenuItem> = Vec::new();
        if !is_dir {
            r.push(FsMenuItem::Delete);
            r.push(FsMenuItem::Duplicate);
        }
        r.push(FsMenuItem::ShowInExplorer);
        if source == FsSource::Browser && depth == 0 && is_dir {
            r.push(FsMenuItem::RemoveFolder);
        }
        assert(r@ =~= fs_menu(is_dir, source, depth));
        r
    }

    /// Reports a failed deletion ("Delete failed: <reason>"); a done one
    /// changes nothing.
    pub fn report_fs_delete(&mut self, result: Result<(), String>)
        ensures
            match result {
                Ok(()) => final(self).status@ == old(self).status@,
                Err(e) => final(self).status@ == "Delete failed: "@ + e@,
            },
            *final(self) == (DawApp { status: final(self).status, ..*old(self) }),
    {
        if let Err(e) = result {
            self.status = concat("Delete failed: ", e.as_str());
        }
    }

    /// Reports a duplication: "Duplicated: <new path>" or "Duplicate
    /// failed: <reason>".
    pub fn report_fs_duplicate(&mut self, result: Result<String, String>)
        ensures
            match result {
                Ok(p) => final(self).status@ == "Duplicated: "@ + p@,
                Err(e) => final(self).status@ == "Duplicate failed: "@ + e@,
            },
            *final(self) == (DawApp { status: final(self).status, ..*old(self) }),
    {
        match result {
            Ok(p) => {
                self.status = concat("Duplicated: ", p.as_str());
            },
            Err(e) => {
                self.status = concat("Duplicate failed: ", e.as_str());
            },
        }
    }

    /// Adds the folder `key` to the file browser unless it is there
    /// already; the result says whether it was added (and the settings are
    /// to be saved), which the status reports.
    pub fn add_browser_folder(&mut self, key: &str) -> (added: bool)
        ensures
            added == !old(self).settings.browser_folders.deep_view().contains(key@),
            added ==> final(self).settings.browser_folders.deep_view() == old(
                self,
            ).settings.browser_folders.deep_view().push(key@) && final(self).status@ == "Browser folder added: "@
                + key@,
            !added ==> *final(self) == *old(self),
            final(self).tracks.deep_view() == old(self).tracks.deep_view(),
    {
        if Self::holds_key(&self.settings.browser_folders, key) {
            return false;
        }
        let ghost before = self.settings.browser_folders.deep_view();
        self.settings.browser_folders.push(owned(key));
        assert(self.settings.browser_folders.deep_view() =~= before.push(key@));
        self.status = concat("Browser folder added: ", key);
        true
    }
}

} // verus!
