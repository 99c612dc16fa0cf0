//! A verified core for a small manager of the mihomo proxy: the configuration model,
//! the conversions that the generated configuration rests on, the paths of its files,
//! the requests to the controller, and the decisions of the command line.
use vstd::prelude::*;

pub mod text;
pub mod json;
pub mod yaml;
pub mod tomlval;
pub mod intent;
pub mod api;
pub mod sorting;
pub mod paths;
pub mod sub;
pub mod systemd;
pub mod commands;

verus! {

} // verus!
