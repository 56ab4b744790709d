//! Verified core of the LingStation digital audio workstation: the project
//! model (tracks, clips, routes, performance settings) and the rules that
//! edit it.

pub mod automation;
pub mod controllers;
pub mod device;
pub mod dialogs;
pub mod dropped_audio;
pub mod engine_start;
pub mod file_browser;
pub mod follow;
pub mod instrument;
pub mod json;
pub mod launch;
pub mod midi_input;
pub mod mixer;
pub mod license;
pub mod loading;
pub mod locations;
pub mod model;
pub mod order;
pub mod param_lanes;
pub mod paths;
pub mod performance;
pub mod piano_roll;
pub mod plugin_scan;
pub mod project;
pub mod recording;
pub mod render;
pub mod routes;
pub mod safe_path;
pub mod saving;
pub mod session;
pub mod session_recording;
pub mod smart;
pub mod text;
pub mod tracks;
pub mod transport;
