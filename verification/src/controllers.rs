//! The controller devices page of the settings: adding and removing MIDI
//! devices, the labels of their port and channel choices, and reconnecting
//! their inputs on request.
use vstd::prelude::*;
use crate::model::{DawApp, MidiDeviceConfig, MidiDeviceProfile, MidiDeviceView, default_device};
use crate::session::input_devices;
use crate::text::{concat, decimal, decimal_string, is_blank, is_empty_text, owned, trimmed};
use crate::transport::{connect_failures, connected_count, outcomes_view};

verus! {

/// The name given to a device added with profile `p`, before its number:
/// the settings offer to add keyboards, Launchpads, APCs and generic
/// controllers.
pub open spec fn new_device_prefix(p: MidiDeviceProfile) -> Option<Seq<char>> {
    match p {
        MidiDeviceProfile::Keyboard => Some("Keyboard"@),
        MidiDeviceProfile::Launchpad => Some("Launchpad"@),
        MidiDeviceProfile::Apc => Some("APC"@),
        MidiDeviceProfile::Generic => Some("Controller"@),
        _ => None,
    }
}

/// The device added with profile `p` when `count` devices are configured:
/// named after the profile and numbered `count + 1`, otherwise as newly
/// added.
pub open spec fn new_device(p: MidiDeviceProfile, count: nat) -> MidiDeviceView {
    MidiDeviceView {
        profile: p,
        ..default_device(new_device_prefix(p).unwrap() + " "@ + decimal(count + 1), Seq::empty())
    }
}

/// How a port choice reads: "None" for a blank port, else the port.
pub open spec fn port_label(port: Seq<char>) -> Seq<char> {
    if trimmed(port).len() == 0 {
        "None"@
    } else {
        port
    }
}

/// How a channel choice reads: "Any MIDI Channel" for 0, else
/// "Channel <n>".
pub open spec fn channel_label(channel: u8) -> Seq<char> {
    if channel == 0 {
        "Any MIDI Channel"@
    } else {
        "Channel "@ + decimal(channel as nat)
    }
}

impl DawApp {
    /// Adds a device of profile `profile` (one the settings offer to add):
    /// see `new_device`.
    pub fn add_midi_device(&mut self, profile: MidiDeviceProfile)
        requires
            new_device_prefix(profile) is Some,
            old(self).settings.midi_devices@.len() < usize::MAX,
        ensures
            final(self).settings.midi_devices.deep_view() == old(self).settings.midi_devices.deep_view().push(
                new_device(profile, old(self).settings.midi_devices@.len()),
            ),
            final(self).tracks.deep_view() == old(self).tracks.deep_view(),
            final(self).status == old(self).status,
    {
        let prefix = match profile {
            MidiDeviceProfile::Keyboard => "Keyboard",
            MidiDeviceProfile::Launchpad => "Launchpad",
            MidiDeviceProfile::Apc => "APC",
            _ => "Controller",
        };
        proof {
            reveal_strlit("Keyboard");
            reveal_strlit("Launchpad");
            reveal_strlit("APC");
            reveal_strlit("Controller");
            reveal_strlit(" ");
        }
        let count = self.settings.midi_devices.len();
        let number = decimal_string((count + 1) as u64);
        let head = concat(prefix, " ");
        let name = concat(head.as_str(), number.as_str());
        let device = MidiDeviceConfig { name, profile, ..MidiDeviceConfig::default() };
        let ghost before = self.settings.midi_devices.deep_view();
        self.settings.midi_devices.push(device);
        assert(self.settings.midi_devices.deep_view() =~= before.push(new_device(profile, count as nat)));
    }

    /// Removes device `index` from the configured devices.
    pub fn remove_midi_device(&mut self, index: usize)
        requires
            index < old(self).settings.midi_devices@.len(),
        ensures
            final(self).settings.midi_devices.deep_view() == old(self).settings.midi_devices.deep_view().remove(
                index as int,
            ),
            final(self).tracks.deep_view() == old(self).tracks.deep_view(),
            final(self).status == old(self).status,
    {
        let ghost before = self.settings.midi_devices.deep_view();
        self.settings.midi_devices.remove(index);
        assert(self.settings.midi_devices.deep_view() =~= before.remove(index as int));
    }

    /// The label of a port choice (see `port_label`).
    pub fn port_choice_label(port: &str) -> (r: String)
        ensures
            r@ == port_label(port@),
    {
        proof {
            reveal_strlit("None");
        }
        if is_blank(port) {
            owned("None")
        } else {
            owned(port)
        }
    }

    /// The label of a channel choice (see `channel_label`).
    pub fn channel_choice_label(channel: u8) -> (r: String)
        ensures
            r@ == channel_label(channel),
    {
        if channel == 0 {
            owned("Any MIDI Channel")
        } else {
            let n = decimal_string(channel as u64);
            concat("Channel ", n.as_str())
        }
    }

    /// Reconnects the configured MIDI inputs on request (see
    /// `reconnect_midi_inputs`, whose outcome the result is): on success
    /// the status says so ("MIDI inputs reconnected") when it is empty and no
    /// input was skipped; a failure is reported as "MIDI reconnect failed:
    /// <reason>".
    pub fn reconnect_midi_now(&mut self, outcomes: &Vec<(String, Option<String>)>) -> (r: Result<(), String>)
        requires
            outcomes@.len() == input_devices(old(self).settings.midi_devices.deep_view(), old(self).settings.midi_input@).len(),
        ensures
            match r {
                Ok(()) => if connect_failures(outcomes_view(outcomes@)).len() == 0 && old(self).status@.len() == 0 {
                    final(self).status@ == "MIDI inputs reconnected"@
                } else if connect_failures(outcomes_view(outcomes@)).len() == 0 {
                    final(self).status@ == old(self).status@
                } else {
                    final(self).status@.len() > 0
                },
                Err(e) => final(self).status@ == "MIDI reconnect failed: "@ + e@,
            },
            final(self).settings.midi_devices.deep_view() == old(self).settings.midi_devices.deep_view(),
            final(self).tracks.deep_view() == old(self).tracks.deep_view(),
    {
        let r = self.reconnect_midi_inputs(outcomes);
        match &r {
            Ok(()) => {
                if is_empty_text(self.status.as_str()) {
                    self.status = owned("MIDI inputs reconnected");
                    proof {
                        reveal_strlit("MIDI inputs reconnected");
                    }
                }
            },
            Err(e) => {
                self.status = concat("MIDI reconnect failed: ", e.as_str());
            },
        }
        r
    }
}

} // verus!
