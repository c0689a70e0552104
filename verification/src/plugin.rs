//! Which job an invocation of the plugin does.

use vstd::prelude::*;
use crate::text::str_eq;

verus! {

/// The job of one invocation.
#[derive(Debug)]
pub enum Job {
    /// Record a host event (`pane.focused` or `pane.closed`) about the pane
    /// the environment names.
    RecordEvent(String),
    /// Focus an attention pane: the first one, or with `next_pane` the one
    /// after the active pane.
    FocusAttention { next_pane: bool },
    /// Cycle through the most-recently-used panes from the active pane.
    Cycle,
}

/// Model of [`Job`].
pub enum JobModel {
    RecordEvent(Seq<char>),
    FocusAttention { next_pane: bool },
    Cycle,
}

impl View for Job {
    type V = JobModel;

    open spec fn view(&self) -> JobModel {
        match self {
            Job::RecordEvent(e) => JobModel::RecordEvent(e@),
            Job::FocusAttention { next_pane } => JobModel::FocusAttention { next_pane: *next_pane },
            Job::Cycle => JobModel::Cycle,
        }
    }
}

/// The job for the values of `HERDR_PLUGIN_EVENT` and
/// `HERDR_PLUGIN_ACTION_ID`: a focus or close event is recorded; otherwise
/// the action decides, and any other action (or none) cycles.
pub open spec fn job_for(event: Option<Seq<char>>, action: Option<Seq<char>>) -> JobModel {
    if event matches Some(e) && (e == "pane.focused"@ || e == "pane.closed"@) {
        JobModel::RecordEvent(event.unwrap())
    } else if action == Some("focus-attention"@) {
        JobModel::FocusAttention { next_pane: false }
    } else if action == Some("cycle-attention"@) {
        JobModel::FocusAttention { next_pane: true }
    } else {
        JobModel::Cycle
    }
}

/// The job of an invocation; see [`job_for`].
pub fn choose_job(event: Option<String>, action: Option<String>) -> (res: Job)
    ensures
        res@ == job_for(crate::actions::opt_view(event), crate::actions::opt_view(action)),
{
    if let Some(e) = event {
        if str_eq(e.as_str(), "pane.focused") || str_eq(e.as_str(), "pane.closed") {
            return Job::RecordEvent(e);
        }
    }
    match action {
        Some(a) => if str_eq(a.as_str(), "focus-attention") {
            Job::FocusAttention { next_pane: false }
        } else if str_eq(a.as_str(), "cycle-attention") {
            Job::FocusAttention { next_pane: true }
        } else {
            Job::Cycle
        },
        None => Job::Cycle,
    }
}

} // verus!
