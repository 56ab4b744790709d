//! The decisions taken when the audio engine starts: whether it may start,
//! which output device and sample rate it opens, how the buffer grows when
//! blocks overrun, and what is reported once the stream plays.
use vstd::prelude::*;
use crate::model::DawApp;
use crate::session::input_devices;
use crate::text::{is_blank, owned};

verus! {

/// How far apart two rates are.
pub open spec fn rate_distance(a: u32, b: u32) -> int {
    if a >= b {
        a - b
    } else {
        b - a
    }
}

/// The range `r` (lowest and highest rate a configuration supports)
/// holds `rate`.
pub open spec fn range_holds(r: (u32, u32), rate: u32) -> bool {
    r.0 <= rate && rate <= r.1
}

/// The rate nearest `target` among the ends of the first `n` ranges, with
/// its distance, scanning each range's lowest then highest rate and keeping
/// the first of equally near ones; `(u32::MAX, 44100)` before any range.
pub open spec fn nearest_end(ranges: Seq<(u32, u32)>, n: int, target: u32) -> (int, u32)
    decreases n,
{
    if n <= 0 {
        (u32::MAX as int, 44100u32)
    } else {
        let prev = nearest_end(ranges, n - 1, target);
        let r = ranges[n - 1];
        let after_low = if rate_distance(target, r.0) < prev.0 {
            (rate_distance(target, r.0), r.0)
        } else {
            prev
        };
        if rate_distance(target, r.1) < after_low.0 {
            (rate_distance(target, r.1), r.1)
        } else {
            after_low
        }
    }
}

/// The sample rate a stream opens at for the wanted rate `wanted` (at least
/// 1): that rate when the device's supported ranges are unknown or one of
/// them holds it; otherwise the nearest end of a range, when one is nearer
/// than `u32::MAX` (none is when there is no range).
pub open spec fn stream_rate(wanted: u32, supported: Option<Seq<(u32, u32)>>) -> u32 {
    let target = if wanted < 1 {
        1u32
    } else {
        wanted
    };
    match supported {
        None => target,
        Some(ranges) => if exists|k: int| 0 <= k < ranges.len() && range_holds(ranges[k], target) {
            target
        } else {
            let e = nearest_end(ranges, ranges.len() as int, target);
            if e.0 < u32::MAX as int {
                e.1
            } else {
                target
            }
        },
    }
}

/// The buffer size after a block overran with buffer `current`: doubled, at
/// most 8192; `None` when it cannot grow.
pub open spec fn grown_buffer(current: u32) -> Option<u32> {
    if 0 < current && current < 8192 {
        Some(if 2 * current <= 8192 {
            (2 * current) as u32
        } else {
            8192u32
        })
    } else {
        None
    }
}

/// The nearest end found is no farther than any end scanned and, unless
/// its distance is `u32::MAX`, is one of them.
proof fn lemma_nearest_end(ranges: Seq<(u32, u32)>, n: int, target: u32)
    requires
        0 <= n <= ranges.len(),
    ensures
        nearest_end(ranges, n, target).0 <= u32::MAX,
        nearest_end(ranges, n, target).0 < u32::MAX ==> {
            &&& nearest_end(ranges, n, target).0 == rate_distance(target, nearest_end(ranges, n, target).1)
            &&& exists|k: int|
                0 <= k < n && (#[trigger] ranges[k].0 == nearest_end(ranges, n, target).1 || ranges[k].1
                    == nearest_end(ranges, n, target).1)
        },
        forall|k: int|
            0 <= k < n ==> nearest_end(ranges, n, target).0 <= rate_distance(target, #[trigger] ranges[k].0)
                && nearest_end(ranges, n, target).0 <= rate_distance(target, ranges[k].1),
    decreases n,
{
    if n > 0 {
        lemma_nearest_end(ranges, n - 1, target);
        let e = nearest_end(ranges, n, target);
        let p = nearest_end(ranges, n - 1, target);
        if e.0 < u32::MAX {
            if e.1 == ranges[n - 1].0 && e.0 == rate_distance(target, ranges[n - 1].0) {
                assert(ranges[n - 1].0 == e.1);
            } else if e.1 == ranges[n - 1].1 && e.0 == rate_distance(target, ranges[n - 1].1) {
                assert(ranges[n - 1].1 == e.1);
            } else {
                assert(e == p);
                let k = choose|k: int| 0 <= k < n - 1 && (#[trigger] ranges[k].0 == p.1 || ranges[k].1 == p.1);
                assert(ranges[k].0 == e.1 || ranges[k].1 == e.1);
            }
        }
    }
}

impl DawApp {
    /// Whether the audio engine is to be started: refused while a render
    /// runs; `Ok(false)` when it already runs, with nothing to do.
    pub fn audio_start_check(&self, rendering: bool) -> (r: Result<bool, String>)
        ensures
            rendering ==> (r matches Err(e) && e@ == "Cannot start playback while rendering"@),
            !rendering ==> r == Ok::<bool, String>(!self.audio_running),
    {
        if rendering {
            return Err(owned("Cannot start playback while rendering"));
        }
        if self.audio_running {
            return Ok(false);
        }
        Ok(true)
    }

    /// Which output device the engine opens, given the names of the devices
    /// found (`None` for one whose name cannot be read): the first named as
    /// the settings ask; `None`, the system's default device, when the
    /// setting is blank or no device has that name.
    pub fn pick_output_device(&self, names: &Vec<Option<String>>) -> (r: Option<usize>)
        ensures
            match r {
                Some(i) => {
                    &&& crate::text::trimmed(self.settings.output_device@).len() > 0
                    &&& i < names@.len()
                    &&& names.deep_view()[i as int] == Some(self.settings.output_device@)
                    &&& forall|j: int| 0 <= j < i ==> names.deep_view()[j] != Some(self.settings.output_device@)
                },
                None => crate::text::trimmed(self.settings.output_device@).len() == 0 || forall|j: int|
                    0 <= j < names@.len() ==> names.deep_view()[j] != Some(self.settings.output_device@),
            },
    {
        if is_blank(self.settings.output_device.as_str()) {
            return None;
        }
        let mut i: usize = 0;
        while i < names.len()
            invariant
                i <= names@.len(),
                crate::text::trimmed(self.settings.output_device@).len() > 0,
                forall|j: int| 0 <= j < i ==> names.deep_view()[j] != Some(self.settings.output_device@),
            decreases names@.len() - i,
        {
            match &names[i] {
                Some(n) => {
                    if crate::text::same_text(n.as_str(), self.settings.output_device.as_str()) {
                        assert(names.deep_view()[i as int] == Some(n@));
                        return Some(i);
                    }
                },
                None => {},
            }
            i = i + 1;
        }
        None
    }

    /// The sample rate the stream opens at (see `stream_rate`), given the
    /// ranges of rates the device supports, `None` when they could not be
    /// read. Unless the wanted rate is kept, it is the end of a range and no
    /// end of a range is nearer the wanted rate.
    pub fn stream_sample_rate(&self, supported: &Option<Vec<(u32, u32)>>) -> (r: u32)
        ensures
            r == stream_rate(self.settings.sample_rate, supported.deep_view()),
            ({
                let target = if self.settings.sample_rate < 1 {
                    1u32
                } else {
                    self.settings.sample_rate
                };
                r != target ==> (supported matches Some(v) && {
                    &&& exists|k: int| 0 <= k < v@.len() && (#[trigger] v@[k].0 == r || v@[k].1 == r)
                    &&& forall|k: int|
                        0 <= k < v@.len() ==> rate_distance(target, r) <= rate_distance(target, #[trigger] v@[k].0)
                            && rate_distance(target, r) <= rate_distance(target, v@[k].1)
                })
            }),
    {
        let target = if self.settings.sample_rate < 1 {
            1u32
        } else {
            self.settings.sample_rate
        };
        let ranges = match supported {
            None => {
                return target;
            },
            Some(v) => v,
        };
        let ghost rs = ranges@;
        assert(supported.deep_view() == Some(rs));
        let mut found = false;
        let mut closest: u32 = 44100;
        let mut min_diff: u32 = u32::MAX;
        let mut i: usize = 0;
        while i < ranges.len() && !found
            invariant
                rs == ranges@,
                i <= rs.len(),
                target >= 1,
                !found ==> forall|k: int| 0 <= k < i ==> !range_holds(#[trigger] rs[k], target),
                !found ==> nearest_end(rs, i as int, target) == (min_diff as int, closest),
                found ==> exists|k: int| 0 <= k < rs.len() && range_holds(rs[k], target),
            decreases rs.len() - i + (if found { 0int } else { 1int }),
        {
            let (lo, hi) = ranges[i];
            if target >= lo && target <= hi {
                found = true;
                assert(range_holds(rs[i as int], target));
            } else {
            let diff_lo = if target >= lo {
                target - lo
            } else {
                lo - target
            };
            let diff_hi = if target >= hi {
                target - hi
            } else {
                hi - target
            };
            if diff_lo < min_diff {
                min_diff = diff_lo;
                closest = lo;
            }
            if diff_hi < min_diff {
                min_diff = diff_hi;
                closest = hi;
            }
            i = i + 1;
            }
        }
        proof {
            if !found {
                assert(i == rs.len());
                lemma_nearest_end(rs, rs.len() as int, target);
                assert(!(exists|k: int| 0 <= k < rs.len() && range_holds(rs[k], target)));
            }
        }
        if !found && min_diff != u32::MAX {
            closest
        } else {
            target
        }
    }

    /// The buffer size to restart with after a block overran with buffer
    /// `current` (see `grown_buffer`).
    pub fn grow_buffer_after_overrun(current: u32) -> (r: Option<u32>)
        ensures
            r == grown_buffer(current),
    {
        let doubled = if current > u32::MAX / 2 {
            u32::MAX
        } else {
            current * 2
        };
        let capped = if doubled < 8192 {
            doubled
        } else {
            8192
        };
        let next = if capped > current {
            capped
        } else {
            current
        };
        if next > current {
            Some(next)
        } else {
            None
        }
    }

    /// Records that the stream plays: the MIDI inputs are connected again
    /// (see `reconnect_midi_inputs`; its error becomes the status), the
    /// engine runs, and when a buffer change waited for this restart
    /// (`buffer_restart`) the status says it took effect.
    pub fn finish_audio_start(&mut self, outcomes: &Vec<(String, Option<String>)>, buffer_restart: bool)
        requires
            outcomes@.len() == input_devices(old(self).settings.midi_devices.deep_view(), old(self).settings.midi_input@).len(),
        ensures
            final(self).audio_running,
            buffer_restart ==> final(self).status@ == "Audio buffer applied"@,
            final(self).tracks.deep_view() == old(self).tracks.deep_view(),
    {
        let r = self.reconnect_midi_inputs(outcomes);
        if let Err(e) = r {
            self.status = e;
        }
        self.audio_running = true;
        if buffer_restart {
            self.status = owned("Audio buffer applied");
        }
    }
}

} // verus!
