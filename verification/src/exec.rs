//! The executor: what a run does next, decided from plain values. Starting
//! processes, reading files and printing are left to the caller.
//!
//! [`run`] orders jobs ([`graph`]) and their combinations ([`matrix`]), [`job`]
//! takes a job's steps in turn, [`step`] decides on one, [`action`] on what it
//! `uses`, [`shell`] on the process that it starts, [`stdout`] on what that prints
//! and [`show`] on what is shown of it, with secrets masked ([`mask`]).
//! [`context`] is what expressions read.

pub mod action;
pub mod context;
pub mod graph;
pub mod job;
pub mod laws;
pub mod mask;
pub mod matrix;
pub mod run;
pub mod shell;
pub mod show;
pub mod stdout;
pub mod step;

use crate::strmap::StrMap;
use vstd::prelude::*;

pub use crate::exec::run::run_workflow;

verus! {

/// Options for a run.
#[derive(Debug)]
pub struct RunOptions {
    /// Run only this job, and not what it needs; without one all jobs run.
    pub job: Option<String>,
    /// The directory that is `github.workspace`, and under which a relative
    /// working directory lies.
    pub workspace: String,
    /// Pause before every step.
    pub step_all: bool,
    /// Pause before the steps with these ids.
    pub breakpoints: Vec<String>,
    /// The secrets by name.
    pub secrets: StrMap,
}

} // verus!
