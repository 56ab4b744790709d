//! Where the program keeps its files: the settings file, the templates,
//! and the folders renders go to, worked out from the environment the
//! caller reads (the file system is consulted by the caller).
use vstd::prelude::*;
use crate::model::DawApp;
use crate::paths::{double_backslash_start, joinable_base, lemma_join_keeps_base, path_join};
use crate::text::{has_prefix, is_blank, owned, trim, trimmed};

verus! {

/// A folder to try: its path, and whether to create it before checking
/// that it exists.
pub struct FolderCandidate {
    pub path: String,
    pub create: bool,
}

impl DawApp {
    /// The user's home folder: `USERPROFILE` on Windows, `HOME` elsewhere.
    pub fn home_dir(windows: bool, userprofile: Option<String>, home: Option<String>) -> (r: Option<String>)
        ensures
            r.deep_view() == if windows {
                userprofile.deep_view()
            } else {
                home.deep_view()
            },
    {
        if windows {
            userprofile
        } else {
            home
        }
    }

    /// Where the settings are kept, and the folder to create for them: on
    /// Windows under `APPDATA`; elsewhere under `XDG_CONFIG_HOME`, else under
    /// `.config` in `HOME`; each in a "LingStation" folder, as
    /// "settings.ling.json". Without these, "settings.ling.json" in the
    /// working folder, with no folder to create.
    pub fn default_settings_path(
        windows: bool,
        appdata: Option<String>,
        xdg_config: Option<String>,
        home: Option<String>,
    ) -> (r: (String, Option<String>))
        ensures
            (windows && appdata is None) || (!windows && xdg_config is None && home is None) ==> r.0@
                == "settings.ling.json"@ && r.1 is None,
            windows && appdata is Some ==> r.1 is Some,
            !windows && (xdg_config is Some || home is Some) ==> r.1 is Some,
            windows ==> (appdata matches Some(a) ==> (joinable_base(a@) ==> (r.1 matches Some(d) && has_prefix(d@, a@)
                && has_prefix(r.0@, d@)))),
            !windows ==> (xdg_config matches Some(x) ==> (joinable_base(x@) ==> (r.1 matches Some(d) && has_prefix(d@, x@)
                && has_prefix(r.0@, d@)))),
            !windows && xdg_config is None ==> (home matches Some(h) ==> (joinable_base(h@) ==> (r.1 matches Some(d)
                && has_prefix(d@, h@) && has_prefix(r.0@, d@)))),
    {
        proof {
            reveal_strlit(".config");
            reveal_strlit("LingStation");
            reveal_strlit("settings.ling.json");
        }
        let ghost root: Option<Seq<char>> = if windows {
            appdata.deep_view()
        } else if xdg_config is Some {
            xdg_config.deep_view()
        } else {
            home.deep_view()
        };
        let base = if windows {
            match appdata {
                Some(a) => {
                    let dir = path_join(a.as_str(), "LingStation");
                    proof {
                        if joinable_base(a@) {
                            lemma_join_keeps_base(a@, "LingStation"@, dir@);
                        }
                    }
                    Some(dir)
                },
                None => None,
            }
        } else {
            match xdg_config {
                Some(x) => {
                    let dir = path_join(x.as_str(), "LingStation");
                    proof {
                        if joinable_base(x@) {
                            lemma_join_keeps_base(x@, "LingStation"@, dir@);
                        }
                    }
                    Some(dir)
                },
                None => match home {
                    Some(h) => {
                        let config = path_join(h.as_str(), ".config");
                        let dir = path_join(config.as_str(), "LingStation");
                        proof {
                            if joinable_base(h@) {
                                lemma_join_keeps_base(h@, ".config"@, config@);
                                lemma_join_keeps_base(config@, "LingStation"@, dir@);
                                assert(dir@.take(h@.len() as int) =~= config@.take(h@.len() as int));
                            }
                        }
                        Some(dir)
                    },
                    None => None,
                },
            }
        };
        assert(base is Some <==> root is Some);
        assert(root matches Some(rt) ==> (joinable_base(rt) ==> (base matches Some(d) && has_prefix(d@, rt)
            && joinable_base(d@))));
        match base {
            Some(dir) => {
                let path = path_join(dir.as_str(), "settings.ling.json");
                (path, Some(dir))
            },
            None => (owned("settings.ling.json"), None),
        }
    }

    /// The folders templates are looked for in, in order: "assets/templates"
    /// in the working folder, then beside the program; the first that
    /// exists is used.
    pub fn templates_dir(cwd: Option<String>, exe_dir: Option<String>) -> (r: Vec<String>)
        ensures
            r@.len() == (if cwd is Some { 1int } else { 0int }) + (if exe_dir is Some { 1int } else { 0int }),
            cwd matches Some(c) ==> (joinable_base(c@) ==> has_prefix(r@[0]@, c@)),
            exe_dir matches Some(e) ==> (joinable_base(e@) ==> has_prefix(r@[r@.len() - 1]@, e@)),
    {
        proof {
            reveal_strlit("assets");
            reveal_strlit("templates");
        }
        let mut r: Vec<String> = Vec::new();
        if let Some(c) = cwd {
            let a = path_join(c.as_str(), "assets");
            let t = path_join(a.as_str(), "templates");
            proof {
                if joinable_base(c@) {
                    lemma_join_keeps_base(c@, "assets"@, a@);
                    assert(t@.take(c@.len() as int) =~= a@.take(c@.len() as int));
                }
            }
            r.push(t);
        }
        if let Some(e) = exe_dir {
            let a = path_join(e.as_str(), "assets");
            let t = path_join(a.as_str(), "templates");
            proof {
                if joinable_base(e@) {
                    lemma_join_keeps_base(e@, "assets"@, a@);
                    assert(t@.take(e@.len() as int) =~= a@.take(e@.len() as int));
                }
            }
            r.push(t);
        }
        r
    }

    /// The folders a render may go to, in order, the first that exists (after
    /// creating it where asked) being used: the project's folder; the
    /// default project folder (see `default_project_dir`, created); "Music"
    /// in the Windows user folder (created); that user folder.
    pub fn default_render_dir(&self, exe_dir: Option<String>, userprofile: Option<String>) -> (r: Vec<FolderCandidate>)
        ensures
            trimmed(self.project_path@).len() > 0 ==> r@.len() > 0 && r@[0].path@ == trimmed(self.project_path@)
                && !r@[0].create,
            trimmed(self.project_path@).len() == 0 && exe_dir is None && userprofile is None ==> r@.len() == 0,
            userprofile matches Some(h) ==> r@.len() >= 2 && r@[r@.len() - 1].path@ == h@ && !r@[r@.len() - 1].create
                && r@[r@.len() - 2].create && (!double_backslash_start(h@) ==> has_prefix(r@[r@.len() - 2].path@, h@)),
    {
        let mut r: Vec<FolderCandidate> = Vec::new();
        if !is_blank(self.project_path.as_str()) {
            r.push(FolderCandidate { path: trim(self.project_path.as_str()), create: false });
        }
        if let Some(d) = self.default_project_dir(exe_dir) {
            r.push(FolderCandidate { path: d, create: true });
        }
        if let Some(h) = userprofile {
            proof {
                reveal_strlit("Music");
            }
            let music = path_join(h.as_str(), "Music");
            r.push(FolderCandidate { path: music, create: true });
            r.push(FolderCandidate { path: h, create: false });
        }
        r
    }
}

} // verus!
