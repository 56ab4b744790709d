//! What the dialogs decide: the unsaved-changes question asked before a
//! project action or exit, the plug-in picker's list, and the license
//! dialog's account and file buttons.
use vstd::prelude::*;
use crate::model::DawApp;
use crate::paths::{PluginCategory, PluginKind};
use crate::text::{concat, contains, has_infix, is_empty_text, lower_seq, owned, to_ascii_lowercase};

verus! {

/// The unsaved-changes question: whether it is shown, whether an exit
/// waits on it, the project action that waits on it, and whether exiting
/// was confirmed.
pub struct CloseConfirm<A> {
    pub open: bool,
    pub pending_exit: bool,
    pub pending_action: Option<A>,
    pub exit_confirmed: bool,
}

/// What the user did with the unsaved-changes question in one frame.
pub enum CloseClick {
    /// Nothing was clicked.
    Nothing,
    /// "Save & Continue", with the outcome of saving the project.
    Save(Result<(), String>),
    Discard,
    Cancel,
}

/// A plug-in the picker offers.
pub struct PluginCandidate {
    pub path: String,
    pub kind: PluginKind,
    pub display: String,
    pub category: PluginCategory,
    /// It can only be an instrument.
    pub instrument_only: bool,
    pub clap_id: Option<String>,
}

/// The value of a plug-in the picker offers.
pub struct PluginCandidateView {
    pub path: Seq<char>,
    pub kind: PluginKind,
    pub display: Seq<char>,
    pub category: PluginCategory,
    pub instrument_only: bool,
    pub clap_id: Option<Seq<char>>,
}

impl DeepView for PluginCandidate {
    type V = PluginCandidateView;

    open spec fn deep_view(&self) -> PluginCandidateView {
        PluginCandidateView {
            path: self.path@,
            kind: self.kind,
            display: self.display@,
            category: self.category,
            instrument_only: self.instrument_only,
            clap_id: self.clap_id.deep_view(),
        }
    }
}

/// The state after a frame of the unsaved-changes question, with the
/// project action to carry out now. Saving (when it worked) or discarding
/// goes on with the waiting action and confirms a waiting exit; cancelling
/// drops the exit; once closed, nothing waits any more but the action that
/// goes on.
pub open spec fn close_confirm_after<A>(s: CloseConfirm<A>, click: CloseClick, window_closed: bool) -> (
    CloseConfirm<A>,
    Option<A>,
) {
    if !s.open {
        (s, None)
    } else {
        let proceeds = click is Discard || (click matches CloseClick::Save(r) && r is Ok);
        let proceed = if proceeds {
            s.pending_action
        } else {
            None
        };
        let confirm_exit = proceeds && s.pending_exit;
        let closing = window_closed || proceeds || click is Cancel;
        let pending_exit = if confirm_exit || closing || click is Cancel {
            false
        } else {
            s.pending_exit
        };
        let pending_action = if proceeds || closing {
            None
        } else {
            s.pending_action
        };
        (
            CloseConfirm {
                open: !closing,
                pending_exit,
                pending_action,
                exit_confirmed: s.exit_confirmed || confirm_exit,
            },
            proceed,
        )
    }
}

/// Once the unsaved-changes question closes, no action and no exit waits
/// on it; cancelling carries out nothing, closes it and drops a waiting
/// exit without confirming one.
pub proof fn law_close_confirm_settles<A>(s: CloseConfirm<A>, click: CloseClick, window_closed: bool)
    requires
        s.open,
    ensures
        !close_confirm_after(s, click, window_closed).0.open ==> close_confirm_after(s, click, window_closed).0.pending_action
            is None && !close_confirm_after(s, click, window_closed).0.pending_exit,
        click is Cancel ==> {
            &&& close_confirm_after(s, click, window_closed).1 is None
            &&& !close_confirm_after(s, click, window_closed).0.open
            &&& !close_confirm_after(s, click, window_closed).0.pending_exit
            &&& close_confirm_after(s, click, window_closed).0.exit_confirmed == s.exit_confirmed
        },
{
}

/// Whether the picker lists candidate `c` under the lower-cased search
/// text `search`: not an instrument-only plug-in when an effect is picked,
/// and, unless the search is empty, with the search in its lower-cased
/// path or name.
pub open spec fn picker_lists(c: PluginCandidateView, search: Seq<char>, for_instrument: bool) -> bool {
    &&& !(c.instrument_only && !for_instrument)
    &&& (search.len() == 0 || has_infix(lower_seq(c.path), search) || has_infix(lower_seq(c.display), search))
}

/// The positions, in order, of the first `n` candidates of category `cat`
/// that the picker lists.
pub open spec fn listed_in(
    cands: Seq<PluginCandidateView>,
    n: int,
    cat: PluginCategory,
    search: Seq<char>,
    for_instrument: bool,
) -> Seq<usize>
    decreases n,
{
    if n <= 0 {
        Seq::empty()
    } else {
        let before = listed_in(cands, n - 1, cat, search, for_instrument);
        if cands[n - 1].category == cat && picker_lists(cands[n - 1], search, for_instrument) {
            before.push((n - 1) as usize)
        } else {
            before
        }
    }
}

/// The picker's list: the native, bundled and system plug-ins it lists,
/// in that order of groups, leaving out empty groups.
pub open spec fn picker_groups(cands: Seq<PluginCandidateView>, search: Seq<char>, for_instrument: bool) -> Seq<
    (PluginCategory, Seq<usize>),
> {
    let groups = seq![PluginCategory::Native, PluginCategory::Bundled, PluginCategory::System];
    groups.map_values(|cat: PluginCategory| (cat, listed_in(cands, cands.len() as int, cat, search, for_instrument))).filter(
        |g: (PluginCategory, Seq<usize>)| g.1.len() > 0,
    )
}

/// The group of category `cat` of the picker's list (see `picker_groups`).
fn picker_group(cands: &Vec<PluginCandidate>, cat: PluginCategory, search: &str, for_instrument: bool) -> (r: Vec<usize>)
    ensures
        r@ == listed_in(cands.deep_view(), cands@.len() as int, cat, search@, for_instrument),
{
    let mut r: Vec<usize> = Vec::new();
    let mut i: usize = 0;
    while i < cands.len()
        invariant
            i <= cands@.len(),
            r@ == listed_in(cands.deep_view(), i as int, cat, search@, for_instrument),
        decreases cands@.len() - i,
    {
        let c = &cands[i];
        assert(cands.deep_view()[i as int] == c.deep_view());
        let wanted_kind = !(c.instrument_only && !for_instrument);
        let found = if is_empty_text(search) {
            true
        } else {
            let p = to_ascii_lowercase(c.path.as_str());
            let d = to_ascii_lowercase(c.display.as_str());
            contains(p.as_str(), search) || contains(d.as_str(), search)
        };
        if c.category == cat && wanted_kind && found {
            r.push(i);
        }
        i = i + 1;
    }
    r
}

impl DawApp {
    /// One frame of the unsaved-changes question (see
    /// `close_confirm_after`): the result is the new state and the project
    /// action to carry out now. Saving or discarding clears the unsaved
    /// mark; a failed save is reported ("Save failed: <reason>").
    pub fn resolve_close_confirm<A>(&mut self, state: CloseConfirm<A>, click: CloseClick, window_closed: bool) -> (r: (
        CloseConfirm<A>,
        Option<A>,
    ))
        ensures
            r == close_confirm_after(state, click, window_closed),
            state.open && (click is Discard || (click matches CloseClick::Save(s) && s is Ok)) ==> !final(self).dirty,
            state.open ==> match click {
                CloseClick::Save(Err(e)) => final(self).status@ == "Save failed: "@ + e@,
                _ => true,
            },
            !(state.open && (click is Discard || click is Save)) ==> *final(self) == *old(self),
            final(self).tracks.deep_view() == old(self).tracks.deep_view(),
    {
        let ghost expected = close_confirm_after(state, click, window_closed);
        if !state.open {
            return (state, None);
        }
        let CloseConfirm { open: _, pending_exit, pending_action, exit_confirmed } = state;
        let mut pending_exit = pending_exit;
        let mut pending_action = pending_action;
        let mut exit_confirmed = exit_confirmed;
        let mut proceed: Option<A> = None;
        let mut close_requested = false;
        let mut confirm_exit = false;
        match click {
            CloseClick::Save(result) => {
                match result {
                    Ok(()) => {
                        self.dirty = false;
                        proceed = pending_action;
                        pending_action = None;
                        if pending_exit {
                            confirm_exit = true;
                        }
                        close_requested = true;
                    },
                    Err(e) => {
                        self.status = concat("Save failed: ", e.as_str());
                    },
                }
            },
            CloseClick::Discard => {
                self.dirty = false;
                proceed = pending_action;
                pending_action = None;
                if pending_exit {
                    confirm_exit = true;
                }
                close_requested = true;
            },
            CloseClick::Cancel => {
                pending_exit = false;
                close_requested = true;
            },
            CloseClick::Nothing => {},
        }
        let mut open = !window_closed;
        if close_requested {
            open = false;
        }
        if !open {
            pending_exit = false;
            if proceed.is_none() {
                pending_action = None;
            }
        }
        if confirm_exit {
            pending_exit = false;
            exit_confirmed = true;
        }
        (CloseConfirm { open, pending_exit, pending_action, exit_confirmed }, proceed)
    }

    /// The picker's list for the candidates `cands` (see `picker_groups`):
    /// the search text is compared without regard to ASCII case.
    pub fn plugin_picker_groups(
        cands: &Vec<PluginCandidate>,
        search: &str,
        for_instrument: bool,
    ) -> (r: Vec<(PluginCategory, Vec<usize>)>)
        ensures
            r@.len() == picker_groups(cands.deep_view(), lower_seq(search@), for_instrument).len(),
            forall|k: int|
                0 <= k < r@.len() ==> (#[trigger] r@[k]).0 == picker_groups(cands.deep_view(), lower_seq(search@), for_instrument)[k].0
                    && r@[k].1@ == picker_groups(cands.deep_view(), lower_seq(search@), for_instrument)[k].1,
    {
        let lowered = to_ascii_lowercase(search);
        let ghost s = lowered@;
        let ghost cv = cands.deep_view();
        let native = picker_group(cands, PluginCategory::Native, lowered.as_str(), for_instrument);
        let bundled = picker_group(cands, PluginCategory::Bundled, lowered.as_str(), for_instrument);
        let system = picker_group(cands, PluginCategory::System, lowered.as_str(), for_instrument);
        let ghost all = seq![PluginCategory::Native, PluginCategory::Bundled, PluginCategory::System].map_values(
            |cat: PluginCategory| (cat, listed_in(cv, cv.len() as int, cat, s, for_instrument)),
        );
        let ghost pred = |g: (PluginCategory, Seq<usize>)| g.1.len() > 0;
        assert(all[0] == (PluginCategory::Native, native@));
        assert(all[1] == (PluginCategory::Bundled, bundled@));
        assert(all[2] == (PluginCategory::System, system@));
        let mut r: Vec<(PluginCategory, Vec<usize>)> = Vec::new();
        proof {
            assert(all.take(0).filter(pred) =~= Seq::empty());
        }
        if native.len() > 0 {
            r.push((PluginCategory::Native, native));
        }
        proof {
            assert(all.take(1) == all.take(0).push(all[0]));
            all.take(0).lemma_filter_push(all[0], pred);
        }
        assert(r@.len() == all.take(1).filter(pred).len());
        assert(forall|k: int| 0 <= k < r@.len() ==> (#[trigger] r@[k]).0 == all.take(1).filter(pred)[k].0 && r@[k].1@
            == all.take(1).filter(pred)[k].1);
        if bundled.len() > 0 {
            r.push((PluginCategory::Bundled, bundled));
        }
        proof {
            assert(all.take(2) == all.take(1).push(all[1]));
            all.take(1).lemma_filter_push(all[1], pred);
        }
        assert(r@.len() == all.take(2).filter(pred).len());
        assert(forall|k: int| 0 <= k < r@.len() ==> (#[trigger] r@[k]).0 == all.take(2).filter(pred)[k].0 && r@[k].1@
            == all.take(2).filter(pred)[k].1);
        if system.len() > 0 {
            r.push((PluginCategory::System, system));
        }
        proof {
            assert(all.take(3) == all.take(2).push(all[2]));
            all.take(2).lemma_filter_push(all[2], pred);
            assert(all.take(3) == all);
        }
        r
    }

    /// The registration line of the license dialog: "Unregistered", or
    /// "Registered to: <name>".
    pub fn registration_label(&self) -> (r: String)
        ensures
            r@ == if self.settings.registered_to@.len() == 0 {
                "Unregistered"@
            } else {
                "Registered to: "@ + self.settings.registered_to@
            },
    {
        if is_empty_text(self.settings.registered_to.as_str()) {
            owned("Unregistered")
        } else {
            concat("Registered to: ", self.settings.registered_to.as_str())
        }
    }

    /// Forgets the license account's token ("Token cleared"); the settings
    /// are then to be saved.
    pub fn clear_license_token(&mut self)
        ensures
            final(self).settings.auth_token@.len() == 0,
            final(self).status@ == "Token cleared"@,
            *final(self) == (DawApp {
                status: final(self).status,
                settings: crate::model::SettingsState { auth_token: final(self).settings.auth_token, ..old(self).settings },
                ..*old(self)
            }),
    {
        self.settings.auth_token = String::new();
        self.status = owned("Token cleared");
    }

    /// Takes in the text of a license file the user chose (`None` when it
    /// could not be read: "License file read failed"); the license status is
    /// then to be refreshed (see `refresh_license_status`) and the settings
    /// saved.
    pub fn import_license_text(&mut self, text: Option<String>)
        ensures
            match text {
                Some(t) => final(self).settings.license_file@ == t@ && final(self).status@ == "License file imported"@,
                None => final(self).settings.license_file@ == old(self).settings.license_file@ && final(self).status@
                    == "License file read failed"@,
            },
            final(self).tracks.deep_view() == old(self).tracks.deep_view(),
            final(self).settings.auth_token@ == old(self).settings.auth_token@,
    {
        match text {
            Some(t) => {
                self.settings.license_file = t;
                self.status = owned("License file imported");
            },
            None => {
                self.status = owned("License file read failed");
            },
        }
    }
}

} // verus!
