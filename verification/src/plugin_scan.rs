//! The list of plug-ins the picker offers, assembled from what a scan of
//! the plug-in folders found: the built-in instruments, then the bundled
//! and the system plug-ins, each group in name order.
use vstd::prelude::*;
use crate::dialogs::{PluginCandidate, PluginCandidateView};
use crate::model::DawApp;
use crate::order::{name_order, stable_name_order};
use crate::paths::{PluginCategory, PluginKind, category_of};
use crate::text::{chars_of, concat, lower_seq, owned, to_ascii_lowercase};

verus! {

/// A CLAP file the scan found: its path, the name shown for it when it
/// lists no plug-in, and the plug-ins it lists (id and name; none when it
/// could not be read).
pub struct ClapScan {
    pub path: String,
    pub name: String,
    pub plugins: Vec<(String, String)>,
}

/// The value of a `ClapScan`.
pub struct ClapScanView {
    pub path: Seq<char>,
    pub name: Seq<char>,
    pub plugins: Seq<(Seq<char>, Seq<char>)>,
}

impl DeepView for ClapScan {
    type V = ClapScanView;

    open spec fn deep_view(&self) -> ClapScanView {
        ClapScanView { path: self.path@, name: self.name@, plugins: self.plugins.deep_view() }
    }
}

/// The built-in instruments, in name order.
pub open spec fn native_candidates() -> Seq<PluginCandidateView> {
    seq![
        PluginCandidateView {
            path: "native:drummachine"@,
            kind: PluginKind::Native,
            display: "Drum Machine (Sampler)"@,
            category: PluginCategory::Native,
            instrument_only: true,
            clap_id: None,
        },
        PluginCandidateView {
            path: "native:treesynth"@,
            kind: PluginKind::Native,
            display: "TreeSynth (Sampler)"@,
            category: PluginCategory::Native,
            instrument_only: true,
            clap_id: None,
        },
    ]
}

/// The entry of a VST3 file found at `path`, shown as `name`.
pub open spec fn vst3_entry(path: Seq<char>, name: Seq<char>) -> PluginCandidateView {
    PluginCandidateView {
        path,
        kind: PluginKind::Vst3,
        display: name,
        category: category_of(path),
        instrument_only: false,
        clap_id: None,
    }
}

/// The entries of a CLAP file: one per plug-in it lists, shown as "<name>
/// (CLAP)"; one for the file when it lists none.
pub open spec fn clap_entries(s: ClapScanView) -> Seq<PluginCandidateView> {
    if s.plugins.len() > 0 {
        s.plugins.map_values(
            |p: (Seq<char>, Seq<char>)|
                PluginCandidateView {
                    path: s.path,
                    kind: PluginKind::Clap,
                    display: p.1 + " (CLAP)"@,
                    category: category_of(s.path),
                    instrument_only: false,
                    clap_id: Some(p.0),
                },
        )
    } else {
        seq![
            PluginCandidateView {
                path: s.path,
                kind: PluginKind::Clap,
                display: s.name + " (CLAP)"@,
                category: category_of(s.path),
                instrument_only: false,
                clap_id: None,
            },
        ]
    }
}

/// The entries of the VST3 files (path and name) taken in the order `order`.
pub open spec fn vst3_found(files: Seq<(Seq<char>, Seq<char>)>, order: Seq<int>) -> Seq<PluginCandidateView> {
    order.map_values(|k: int| vst3_entry(files[k].0, files[k].1))
}

/// The entries of the CLAP files taken in the order `order`.
pub open spec fn clap_found(scans: Seq<ClapScanView>, order: Seq<int>) -> Seq<PluginCandidateView>
    decreases order.len(),
{
    if order.len() == 0 {
        Seq::empty()
    } else {
        clap_found(scans, order.drop_last()) + clap_entries(scans[order.last()])
    }
}

/// `cands` in stable order of their names, ignoring ASCII case.
pub open spec fn by_display(cands: Seq<PluginCandidateView>) -> Seq<PluginCandidateView> {
    name_order(cands.map_values(|c: PluginCandidateView| lower_seq(c.display))).map_values(|i: int| cands[i])
}

/// A bundled plug-in.
pub open spec fn is_bundled_entry(c: PluginCandidateView) -> bool {
    c.category == PluginCategory::Bundled
}

/// The picker's candidates from a scan that found the VST3 files `vst3`
/// (path and name) and the CLAP files `clap`: the built-in instruments;
/// then the bundled and then the other plug-ins found, each group in name
/// order. Files are taken in path order, VST3 before CLAP.
pub open spec fn scanned_candidates(vst3: Seq<(Seq<char>, Seq<char>)>, clap: Seq<ClapScanView>) -> Seq<PluginCandidateView> {
    let found = vst3_found(vst3, name_order(vst3.map_values(|f: (Seq<char>, Seq<char>)| f.0))) + clap_found(
        clap,
        name_order(clap.map_values(|s: ClapScanView| s.path)),
    );
    native_candidates() + by_display(found.filter(|c: PluginCandidateView| is_bundled_entry(c))) + by_display(
        found.filter(|c: PluginCandidateView| !is_bundled_entry(c)),
    )
}

impl PluginCandidate {
    /// A field-by-field copy.
    pub fn copied(&self) -> (r: PluginCandidate)
        ensures
            r.deep_view() == self.deep_view(),
    {
        PluginCandidate {
            path: self.path.clone(),
            kind: self.kind,
            display: self.display.clone(),
            category: self.category,
            instrument_only: self.instrument_only,
            clap_id: match &self.clap_id {
                Some(id) => Some(id.clone()),
                None => None,
            },
        }
    }
}

/// `cands` in stable order of their names, ignoring ASCII case (see
/// `by_display`).
fn sort_by_display(cands: &Vec<PluginCandidate>) -> (r: Vec<PluginCandidate>)
    ensures
        r.deep_view() == by_display(cands.deep_view()),
{
    let ghost cv = cands.deep_view();
    let mut keys: Vec<Vec<char>> = Vec::new();
    let mut i: usize = 0;
    while i < cands.len()
        invariant
            i <= cands@.len(),
            cv == cands.deep_view(),
            keys.deep_view() == cv.take(i as int).map_values(|c: PluginCandidateView| lower_seq(c.display)),
        decreases cands@.len() - i,
    {
        let lowered = to_ascii_lowercase(cands[i].display.as_str());
        let key = chars_of(lowered.as_str());
        let ghost before = keys.deep_view();
        let ghost kv = key.deep_view();
        assert(kv =~= key@);
        keys.push(key);
        assert(keys.deep_view() =~= before.push(kv));
        assert(cv[i as int] == cands@[i as int].deep_view());
        assert(keys.deep_view() =~= cv.take(i + 1).map_values(|c: PluginCandidateView| lower_seq(c.display)));
        i = i + 1;
    }
    assert(cv.take(cv.len() as int) == cv);
    let order = stable_name_order(&keys);
    let ghost ord = order@.map_values(|x: usize| x as int);
    assert(ord == name_order(cv.map_values(|c: PluginCandidateView| lower_seq(c.display))));
    let mut r: Vec<PluginCandidate> = Vec::new();
    let mut k: usize = 0;
    while k < order.len()
        invariant
            k <= order@.len(),
            cv == cands.deep_view(),
            order@.len() == cv.len(),
            ord == order@.map_values(|x: usize| x as int),
            forall|m: int| 0 <= m < ord.len() ==> 0 <= #[trigger] ord[m] < cv.len(),
            r.deep_view() == ord.take(k as int).map_values(|j: int| cv[j]),
        decreases order@.len() - k,
    {
        let j = order[k];
        assert(ord[k as int] == j as int);
        let c = cands[j].copied();
        let ghost before = r.deep_view();
        let ghost cvw = c.deep_view();
        r.push(c);
        assert(r.deep_view() =~= before.push(cvw));
        assert(cvw == cv[j as int]);
        assert(r.deep_view() =~= ord.take(k + 1).map_values(|j: int| cv[j]));
        k = k + 1;
    }
    assert(ord.take(ord.len() as int) == ord);
    r
}

impl DawApp {
    /// The built-in instruments, in name order (see `native_candidates`).
    fn native_plugins() -> (r: Vec<PluginCandidate>)
        ensures
            r.deep_view() == native_candidates(),
    {
        let mut r: Vec<PluginCandidate> = Vec::new();
        r.push(
            PluginCandidate {
                path: owned("native:drummachine"),
                kind: PluginKind::Native,
                display: owned("Drum Machine (Sampler)"),
                category: PluginCategory::Native,
                instrument_only: true,
                clap_id: None,
            },
        );
        r.push(
            PluginCandidate {
                path: owned("native:treesynth"),
                kind: PluginKind::Native,
                display: owned("TreeSynth (Sampler)"),
                category: PluginCategory::Native,
                instrument_only: true,
                clap_id: None,
            },
        );
        assert(r.deep_view() =~= native_candidates());
        r
    }

    /// The list of plug-ins the picker offers after a scan (see
    /// `scanned_candidates`): `vst3` holds the VST3 files found, with the
    /// name shown for each; `clap` the CLAP files found.
    pub fn assemble_plugin_candidates(vst3: &Vec<(String, String)>, clap: &Vec<ClapScan>) -> (r: Vec<PluginCandidate>)
        ensures
            r.deep_view() == scanned_candidates(vst3.deep_view(), clap.deep_view()),
    {
        let ghost vv = vst3.deep_view();
        let ghost cv = clap.deep_view();
        let ghost pred = |c: PluginCandidateView| is_bundled_entry(c);
        let ghost npred = |c: PluginCandidateView| !is_bundled_entry(c);
        // VST3 files in path order.
        let mut vpaths: Vec<Vec<char>> = Vec::new();
        let mut i: usize = 0;
        while i < vst3.len()
            invariant
                i <= vst3@.len(),
                vv == vst3.deep_view(),
                vpaths.deep_view() == vv.take(i as int).map_values(|f: (Seq<char>, Seq<char>)| f.0),
            decreases vst3@.len() - i,
        {
            let p = chars_of(vst3[i].0.as_str());
            let ghost before = vpaths.deep_view();
            let ghost pv = p.deep_view();
            assert(pv =~= p@);
            vpaths.push(p);
            assert(vpaths.deep_view() =~= before.push(pv));
            assert(vv[i as int].0 == vst3@[i as int].0@);
            assert(vpaths.deep_view() =~= vv.take(i + 1).map_values(|f: (Seq<char>, Seq<char>)| f.0));
            i = i + 1;
        }
        assert(vv.take(vv.len() as int) == vv);
        let vorder = stable_name_order(&vpaths);
        let ghost vo = vorder@.map_values(|x: usize| x as int);
        let mut bundled: Vec<PluginCandidate> = Vec::new();
        let mut system: Vec<PluginCandidate> = Vec::new();
        let mut k: usize = 0;
        while k < vorder.len()
            invariant
                k <= vorder@.len(),
                vv == vst3.deep_view(),
                vorder@.len() == vv.len(),
                vo == vorder@.map_values(|x: usize| x as int),
                forall|m: int| 0 <= m < vo.len() ==> 0 <= #[trigger] vo[m] < vv.len(),
                pred == (|c: PluginCandidateView| is_bundled_entry(c)),
                npred == (|c: PluginCandidateView| !is_bundled_entry(c)),
                bundled.deep_view() == vst3_found(vv, vo.take(k as int)).filter(pred),
                system.deep_view() == vst3_found(vv, vo.take(k as int)).filter(npred),
            decreases vorder@.len() - k,
        {
            let j = vorder[k];
            assert(vo[k as int] == j as int);
            let path = &vst3[j].0;
            let name = &vst3[j].1;
            let category = Self::categorize_plugin_path(path.as_str());
            let entry = PluginCandidate {
                path: path.clone(),
                kind: PluginKind::Vst3,
                display: name.clone(),
                category,
                instrument_only: false,
                clap_id: None,
            };
            assert(entry.deep_view() == vst3_entry(vv[j as int].0, vv[j as int].1));
            proof {
                assert(vst3_found(vv, vo.take(k + 1)) =~= vst3_found(vv, vo.take(k as int)).push(entry.deep_view()));
                vst3_found(vv, vo.take(k as int)).lemma_filter_push(entry.deep_view(), pred);
                vst3_found(vv, vo.take(k as int)).lemma_filter_push(entry.deep_view(), npred);
            }
            if category == PluginCategory::Bundled {
                let ghost before = bundled.deep_view();
                bundled.push(entry);
                assert(bundled.deep_view() =~= before.push(vst3_entry(vv[j as int].0, vv[j as int].1)));
            } else {
                let ghost before = system.deep_view();
                system.push(entry);
                assert(system.deep_view() =~= before.push(vst3_entry(vv[j as int].0, vv[j as int].1)));
            }
            k = k + 1;
        }
        assert(vo.take(vo.len() as int) == vo);
        let ghost vfound = vst3_found(vv, vo);
        // CLAP files in path order.
        let mut cpaths: Vec<Vec<char>> = Vec::new();
        let mut i: usize = 0;
        while i < clap.len()
            invariant
                i <= clap@.len(),
                cv == clap.deep_view(),
                cpaths.deep_view() == cv.take(i as int).map_values(|s: ClapScanView| s.path),
            decreases clap@.len() - i,
        {
            let p = chars_of(clap[i].path.as_str());
            let ghost before = cpaths.deep_view();
            let ghost pv = p.deep_view();
            assert(pv =~= p@);
            cpaths.push(p);
            assert(cpaths.deep_view() =~= before.push(pv));
            assert(cv[i as int].path == clap@[i as int].path@);
            assert(cpaths.deep_view() =~= cv.take(i + 1).map_values(|s: ClapScanView| s.path));
            i = i + 1;
        }
        assert(cv.take(cv.len() as int) == cv);
        let corder = stable_name_order(&cpaths);
        let ghost co = corder@.map_values(|x: usize| x as int);
        let mut k: usize = 0;
        while k < corder.len()
            invariant
                k <= corder@.len(),
                cv == clap.deep_view(),
                corder@.len() == cv.len(),
                co == corder@.map_values(|x: usize| x as int),
                forall|m: int| 0 <= m < co.len() ==> 0 <= #[trigger] co[m] < cv.len(),
                pred == (|c: PluginCandidateView| is_bundled_entry(c)),
                npred == (|c: PluginCandidateView| !is_bundled_entry(c)),
                bundled.deep_view() == (vfound + clap_found(cv, co.take(k as int))).filter(pred),
                system.deep_view() == (vfound + clap_found(cv, co.take(k as int))).filter(npred),
            decreases corder@.len() - k,
        {
            let j = corder[k];
            assert(co[k as int] == j as int);
            let entries = Self::clap_file_entries(&clap[j]);
            assert(clap@[j as int].deep_view() == cv[j as int]);
            proof {
                assert(co.take(k + 1).drop_last() == co.take(k as int));
                assert(clap_found(cv, co.take(k + 1)) == clap_found(cv, co.take(k as int)) + clap_entries(cv[j as int]));
                assert(vfound + clap_found(cv, co.take(k + 1)) =~= (vfound + clap_found(cv, co.take(k as int))) + entries.deep_view());
                Seq::filter_distributes_over_add(vfound + clap_found(cv, co.take(k as int)), entries.deep_view(), pred);
                Seq::filter_distributes_over_add(vfound + clap_found(cv, co.take(k as int)), entries.deep_view(), npred);
            }
            let category = Self::categorize_plugin_path(clap[j].path.as_str());
            proof {
                Self::lemma_entries_one_group(cv[j as int], pred, npred);
            }
            if category == PluginCategory::Bundled {
                Self::append_all(&mut bundled, entries);
            } else {
                Self::append_all(&mut system, entries);
            }
            k = k + 1;
        }
        assert(co.take(co.len() as int) == co);
        let native = Self::native_plugins();
        let bundled_sorted = sort_by_display(&bundled);
        let system_sorted = sort_by_display(&system);
        let mut r = native;
        Self::append_all(&mut r, bundled_sorted);
        Self::append_all(&mut r, system_sorted);
        r
    }

    /// Every entry of a CLAP file is in the same group, its file's.
    proof fn lemma_entries_one_group(
        s: ClapScanView,
        pred: spec_fn(PluginCandidateView) -> bool,
        npred: spec_fn(PluginCandidateView) -> bool,
    )
        requires
            pred == (|c: PluginCandidateView| is_bundled_entry(c)),
            npred == (|c: PluginCandidateView| !is_bundled_entry(c)),
        ensures
            category_of(s.path) == PluginCategory::Bundled ==> clap_entries(s).filter(pred) == clap_entries(s) && clap_entries(
                s,
            ).filter(npred) == Seq::<PluginCandidateView>::empty(),
            category_of(s.path) != PluginCategory::Bundled ==> clap_entries(s).filter(npred) == clap_entries(s)
                && clap_entries(s).filter(pred) == Seq::<PluginCandidateView>::empty(),
    {
        let e = clap_entries(s);
        assert forall|k: int| 0 <= k < e.len() implies (#[trigger] e[k]).category == category_of(s.path) by {}
        Self::lemma_filter_all(e, pred, category_of(s.path) == PluginCategory::Bundled);
        Self::lemma_filter_all(e, npred, category_of(s.path) != PluginCategory::Bundled);
    }

    /// A filter that keeps every item, or none, of `e`.
    proof fn lemma_filter_all(e: Seq<PluginCandidateView>, p: spec_fn(PluginCandidateView) -> bool, all: bool)
        requires
            forall|k: int| 0 <= k < e.len() ==> p(#[trigger] e[k]) == all,
        ensures
            all ==> e.filter(p) == e,
            !all ==> e.filter(p) == Seq::<PluginCandidateView>::empty(),
        decreases e.len(),
    {
        if e.len() > 0 {
            Self::lemma_filter_all(e.drop_last(), p, all);
            assert(e == e.drop_last().push(e.last()));
            e.drop_last().lemma_filter_push(e.last(), p);
            if all {
                assert(e.drop_last().push(e.last()) == e);
            }
        } else {
            assert(e.filter(p) =~= Seq::<PluginCandidateView>::empty()) by {
                e.filter_lemma(p);
            }
            if all {
                assert(e =~= Seq::<PluginCandidateView>::empty());
            }
        }
    }

    /// The entries of one CLAP file (see `clap_entries`).
    fn clap_file_entries(s: &ClapScan) -> (r: Vec<PluginCandidate>)
        ensures
            r.deep_view() == clap_entries(s.deep_view()),
    {
        let category = Self::categorize_plugin_path(s.path.as_str());
        let mut r: Vec<PluginCandidate> = Vec::new();
        let ghost sv = s.deep_view();
        if s.plugins.len() > 0 {
            let mut i: usize = 0;
            while i < s.plugins.len()
                invariant
                    i <= s.plugins@.len(),
                    sv == s.deep_view(),
                    sv.plugins.len() > 0,
                    category == category_of(sv.path),
                    r.deep_view() == clap_entries(sv).take(i as int),
                decreases s.plugins@.len() - i,
            {
                let (id, name) = (&s.plugins[i].0, &s.plugins[i].1);
                assert(sv.plugins[i as int] == (id@, name@));
                let entry = PluginCandidate {
                    path: s.path.clone(),
                    kind: PluginKind::Clap,
                    display: concat(name.as_str(), " (CLAP)"),
                    category,
                    instrument_only: false,
                    clap_id: Some(id.clone()),
                };
                let ghost before = r.deep_view();
                let ghost ev = entry.deep_view();
                r.push(entry);
                assert(r.deep_view() =~= before.push(ev));
                assert(ev == clap_entries(sv)[i as int]);
                assert(r.deep_view() =~= clap_entries(sv).take(i + 1));
                i = i + 1;
            }
            assert(clap_entries(sv).take(sv.plugins.len() as int) == clap_entries(sv));
        } else {
            r.push(
                PluginCandidate {
                    path: s.path.clone(),
                    kind: PluginKind::Clap,
                    display: concat(s.name.as_str(), " (CLAP)"),
                    category,
                    instrument_only: false,
                    clap_id: None,
                },
            );
            assert(r.deep_view() =~= clap_entries(sv));
        }
        r
    }

    /// Appends the items of `more` to `v`.
    fn append_all(v: &mut Vec<PluginCandidate>, more: Vec<PluginCandidate>)
        ensures
            final(v).deep_view() == old(v).deep_view() + more.deep_view(),
    {
        let ghost mv = more.deep_view();
        let mut i: usize = 0;
        while i < more.len()
            invariant
                i <= more@.len(),
                mv == more.deep_view(),
                v.deep_view() == old(v).deep_view() + mv.take(i as int),
            decreases more@.len() - i,
        {
            let c = more[i].copied();
            let ghost before = v.deep_view();
            let ghost cvw = c.deep_view();
            v.push(c);
            assert(v.deep_view() =~= before.push(cvw));
            assert(v.deep_view() =~= old(v).deep_view() + mv.take(i + 1));
            i = i + 1;
        }
        assert(mv.take(mv.len() as int) == mv);
    }
}

} // verus!
