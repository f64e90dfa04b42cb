//! The decision core of one sync task: given a discovered file and the
//! outcome of probing its counterpart under the target root, resolve the
//! target path and decide whether to copy, keep, or fail.
//!
//! Only the decision is made here; the probing and the copying themselves
//! are filesystem work done by the unverified glue, which feeds the probe
//! result in and carries the decision out.

use vstd::prelude::*;
use crate::meta::FileMeta;
use crate::meta::needs_update;
use crate::meta::spec_needs_update;
use crate::paths::joined;
use crate::paths::join_path;
use crate::tree::SourceEntry;

verus! {

/// What probing the target file's metadata yielded: the file is absent, it
/// was found with the given metadata, or the probe failed for some reason
/// other than absence.
pub enum Probe {
    Absent,
    Found(FileMeta),
    Failed,
}

/// What a sync task must do for one file.
#[derive(PartialEq, Eq, Structural)]
pub enum Decision {
    Copy,
    Skip,
    Fail,
}

/// The decision rule of a sync task: a failed probe fails the task, an
/// absent target is copied, and a present target is copied exactly when the
/// staleness oracle says it is out of date.
pub open spec fn spec_decide(source: FileMeta, probe: Probe) -> Decision {
    match probe {
        Probe::Failed => Decision::Fail,
        Probe::Absent => Decision::Copy,
        Probe::Found(t) => if spec_needs_update(source, Some(t)) {
            Decision::Copy
        } else {
            Decision::Skip
        },
    }
}

/// Decides what a sync task must do for one file.
pub fn decide(source: &FileMeta, probe: &Probe) -> (d: Decision)
    ensures
        d == spec_decide(*source, *probe),
{
    match probe {
        Probe::Failed => Decision::Fail,
        Probe::Absent => Decision::Copy,
        Probe::Found(t) => if needs_update(source, Some(t)) {
            Decision::Copy
        } else {
            Decision::Skip
        },
    }
}

/// The first steps of a sync task: the target path under `target_root` that
/// mirrors the entry's relative path, and the decision for the probed
/// target metadata.
pub fn plan_task(target_root: &str, entry: &SourceEntry, probe: &Probe) -> (plan: (String, Decision))
    ensures
        plan.0@ == joined(target_root@, entry.rel_path@),
        plan.1 == spec_decide(entry.meta, *probe),
{
    let target_path = join_path(target_root, entry.rel_path.as_str());
    let decision = decide(&entry.meta, probe);
    (target_path, decision)
}

/// The outcome of one completed sync task: the file's relative path and
/// whether its content was copied.
pub struct SyncOutcome {
    pub rel_path: String,
    pub copied: bool,
}

/// The mathematical content of a sync outcome.
pub struct OutcomeModel {
    pub path: Seq<char>,
    pub copied: bool,
}

impl View for SyncOutcome {
    type V = OutcomeModel;

    open spec fn view(&self) -> OutcomeModel {
        OutcomeModel { path: self.rel_path@, copied: self.copied }
    }
}

impl DeepView for SyncOutcome {
    type V = OutcomeModel;

    open spec fn deep_view(&self) -> OutcomeModel {
        self.view()
    }
}

} // verus!
