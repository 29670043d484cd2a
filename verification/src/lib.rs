//! Verified helpers of a double-pendulum simulation and its scaling
//! experiments: command-line handling, file and flag naming, experiment
//! invocations and the reading of trajectory records.

pub mod args;
pub mod naming;
pub mod scaling;
pub mod text;
pub mod trajectory;
