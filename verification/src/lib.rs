//! rbob: sets of simulations of subsweep, made from a base parameter file
//! and substitutions, with their job files, builds, submissions, log files,
//! snapshots and plots.
use vstd::prelude::*;

pub mod arepo_log_file;
pub mod build_config;
pub mod capture;
pub mod diff;
pub mod grid;
pub mod job_cascade;
pub mod job_params;
pub mod order;
pub mod param_value;
pub mod paths;
pub mod pattern;
pub mod plots;
pub mod postprocess;
pub mod run;
pub mod selection;
pub mod sim_params;
pub mod sim_set;
pub mod snapshots;
pub mod substitutions;
pub mod template;
pub mod text;
pub mod yaml;

verus! {

} // verus!
