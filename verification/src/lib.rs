//! Particelle: the control-plane logic of a granular synthesis engine,
//! verified with Verus.

pub mod audio;
pub mod context;
pub mod curve;
pub mod digest;
pub mod graph;
pub mod io_errors;
pub mod m0;
pub mod midi_host;
pub mod midi_offline;
pub mod osc_control;
pub mod patch_edit;
pub mod path_map;
pub mod reconstruction;
pub mod registry;
pub mod resample;
pub mod routing;
pub mod signal;
pub mod unit;
pub mod window;
pub mod text;
pub mod yaml_path;
