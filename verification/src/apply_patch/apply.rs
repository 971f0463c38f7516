//! A patch from its text to its answer: what is refused before anything is
//! done, what is done, and what is answered.
use vstd::prelude::*;

use crate::apply_patch;
use crate::apply_patch::commit;
use crate::apply_patch::commit::{Commit, CommitModel, Stage};
use crate::apply_patch::parse;
use crate::apply_patch::plan;
use crate::apply_patch::plan::{Facts, FactsModel};
use crate::apply_patch::publish::{ActionModel, Event, OutcomeModel};
use crate::apply_patch::{ApplyPatchOutput, Operation, OperationModel};
use crate::failure::Failure;
use crate::text::Text;

verus! {

// ---------------------------------------------------------------------------
// Before anything is done
// ---------------------------------------------------------------------------
/// The publishing that operations ask for, before its first action, or why they
/// are refused.
pub open spec fn prepared(
    cwd: Text,
    operations: Seq<OperationModel>,
    facts: Seq<FactsModel>,
) -> Result<CommitModel, Seq<Text>> {
    match plan::operations_planned(plan::empty_plan(), cwd, operations, facts, 0) {
        Ok(plan) => Ok(commit::begun(plan.changes, 0)),
        Err(chain) => Err(chain),
    }
}

/// The publishing that a patch asks for, before its first action, or why the
/// patch is refused.
pub open spec fn prepared_from(cwd: Text, patch: Text, facts: Seq<FactsModel>) -> Result<
    CommitModel,
    Seq<Text>,
> {
    match parse::parsed(patch) {
        Ok(operations) => prepared(cwd, operations, facts),
        Err(message) => Err(seq![message]),
    }
}

/// Plans the operations of a patch as a whole, and makes ready to publish the
/// plan. `facts` says of each operation what its path names.
pub fn prepare(cwd: &str, operations: &Vec<Operation>, facts: &Vec<Facts>) -> (r: Result<
    Commit,
    Failure,
>)
    requires
        facts@.len() == operations@.len(),
        apply_patch::complete(apply_patch::operation_models(operations@)),
    ensures
        match r {
            Ok(commit) => prepared(
                cwd@,
                apply_patch::operation_models(operations@),
                plan::facts_models(facts@),
            ) == Ok::<CommitModel, Seq<Text>>(commit@) && commit@.wf(),
            Err(failure) => prepared(
                cwd@,
                apply_patch::operation_models(operations@),
                plan::facts_models(facts@),
            ) == Err::<CommitModel, Seq<Text>>(failure@),
        },
{
    match plan::preflight(cwd, operations, facts) {
        Ok(changes) => Ok(Commit::start(changes)),
        Err(failure) => Err(failure),
    }
}

// ---------------------------------------------------------------------------
// The answer
// ---------------------------------------------------------------------------
/// What is answered once publishing is over.
pub open spec fn concluded(commit: CommitModel, cwd: Text) -> Result<Text, Seq<Text>> {
    if commit.stage == Stage::Failed {
        Err(commit.failure)
    } else {
        Ok(commit::summary(commit.changes, cwd))
    }
}

/// What is answered once publishing is over.
pub fn conclude(commit: Commit, cwd: &str) -> (r: Result<ApplyPatchOutput, Failure>)
    requires
        commit@.over(),
        cwd@.len() > 0,
    ensures
        match r {
            Ok(output) => concluded(commit@, cwd@) == Ok::<Text, Seq<Text>>(output.output@),
            Err(failure) => concluded(commit@, cwd@) == Err::<Text, Seq<Text>>(failure@),
        },
{
    if commit.stage == Stage::Failed {
        Err(commit.failure)
    } else {
        Ok(commit::patch_output(&commit.changes, cwd))
    }
}

// ---------------------------------------------------------------------------
// The whole
// ---------------------------------------------------------------------------
/// The actions of publishing a plan, one for each event until it is over.
pub open spec fn actions_done(start: CommitModel, events: Seq<Event>) -> Seq<ActionModel>
    decreases events.len(),
{
    if events.len() == 0 {
        Seq::empty()
    } else {
        let before = commit::commit_after(start.changes, events.drop_last());
        if before.over() {
            actions_done(start, events.drop_last())
        } else {
            actions_done(start, events.drop_last()).push(before.action())
        }
    }
}

/// What is left of a disk after the actions of publishing a plan, whatever each
/// action does to it.
pub open spec fn disk_published<D>(
    start: CommitModel,
    events: Seq<Event>,
    disk: D,
    effect: spec_fn(D, ActionModel, OutcomeModel) -> D,
) -> D
    decreases events.len(),
{
    if events.len() == 0 {
        disk
    } else {
        let before = commit::commit_after(start.changes, events.drop_last());
        let so_far = disk_published(start, events.drop_last(), disk, effect);
        if before.over() {
            so_far
        } else {
            effect(so_far, before.action(), events.last().outcome)
        }
    }
}

/// Applying a patch: the actions on the disk, what they leave of it, and the
/// answer, once there is one.
pub struct Application<D> {
    pub actions: Seq<ActionModel>,
    pub disk: D,
    pub answer: Option<Result<Text, Seq<Text>>>,
}

/// How a patch is applied: a patch that is refused is answered at once, any
/// other is published until that is over.
pub open spec fn applied<D>(
    cwd: Text,
    patch: Text,
    facts: Seq<FactsModel>,
    events: Seq<Event>,
    disk: D,
    effect: spec_fn(D, ActionModel, OutcomeModel) -> D,
) -> Application<D> {
    match prepared_from(cwd, patch, facts) {
        Err(chain) => Application { actions: Seq::empty(), disk, answer: Some(Err(chain)) },
        Ok(start) => {
            let now = commit::commit_after(start.changes, events);
            Application {
                actions: actions_done(start, events),
                disk: disk_published(start, events, disk, effect),
                answer: if now.over() {
                    Some(concluded(now, cwd))
                } else {
                    None
                },
            }
        },
    }
}

// ---------------------------------------------------------------------------
// Laws
// ---------------------------------------------------------------------------
/// A patch that cannot be read, or one of whose operations cannot be planned,
/// is answered with that failure and leaves the disk as it was: no action is
/// done for it, not even for the valid operations before.
pub proof fn refused_patches_change_nothing<D>(
    cwd: Text,
    patch: Text,
    facts: Seq<FactsModel>,
    events: Seq<Event>,
    disk: D,
    effect: spec_fn(D, ActionModel, OutcomeModel) -> D,
)
    ensures
        parse::parsed(patch) matches Err(message) ==> applied(
            cwd,
            patch,
            facts,
            events,
            disk,
            effect,
        ) == (Application {
            actions: Seq::empty(),
            disk,
            answer: Some(Err::<Text, Seq<Text>>(seq![message])),
        }),
        parse::parsed(patch) matches Ok(operations) ==> (plan::operations_planned(
            plan::empty_plan(),
            cwd,
            operations,
            facts,
            0,
        ) matches Err(chain) ==> applied(cwd, patch, facts, events, disk, effect) == (
        Application {
            actions: Seq::empty(),
            disk,
            answer: Some(Err::<Text, Seq<Text>>(chain)),
        })),
{
}

/// A patch whose every operation can be planned is published: its answer is the
/// report on all its changes, or a failure that starts with those that were
/// published before it.
pub proof fn planned_patches_are_published<D>(
    cwd: Text,
    patch: Text,
    facts: Seq<FactsModel>,
    events: Seq<Event>,
    disk: D,
    effect: spec_fn(D, ActionModel, OutcomeModel) -> D,
    start: CommitModel,
)
    requires
        prepared_from(cwd, patch, facts) == Ok::<CommitModel, Seq<Text>>(start),
    ensures
        ({
            let now = commit::commit_after(start.changes, events);
            match applied(cwd, patch, facts, events, disk, effect).answer {
                None => !now.over(),
                Some(Ok(report)) => now.at == start.changes.len() && report == commit::summary(
                    start.changes,
                    cwd,
                ),
                Some(Err(chain)) => 0 <= now.at < start.changes.len() && chain.len() > 1
                    && chain[0] == commit::completed(start.changes.take(now.at)),
            }
        }),
{
    commit::publishing_reports_what_was_done(start.changes, events);
}

} // verus!
