//! Publishing a plan change by change, and the report of what was done.
use vstd::prelude::*;

use crate::apply_patch::paths;
use crate::apply_patch::plan;
use crate::apply_patch::plan::{ChangeModel, PlannedChange};
use crate::apply_patch::publish;
use crate::apply_patch::publish::{
    ActionModel, Event, FsAction, Outcome, OutcomeModel, Phase, Write, WriteModel,
};
use crate::apply_patch::ApplyPatchOutput;
use crate::bytes;
use crate::crypto;
use crate::failure::Failure;
use crate::text;
use crate::text::Text;

verus! {

// ---------------------------------------------------------------------------
// Labels
// ---------------------------------------------------------------------------
/// The line that reports a change: a letter and the paths.
pub open spec fn label(change: ChangeModel) -> Text {
    match change {
        ChangeModel::Add { path, .. } => "A "@ + path,
        ChangeModel::Delete { path, .. } => "D "@ + path,
        ChangeModel::Update { reported_path, .. } => "M "@ + reported_path,
        ChangeModel::Move { from, to, .. } => "R "@ + from + " -> "@ + to,
        ChangeModel::MoveSymlink { from, to, .. } => "R "@ + from + " -> "@ + to,
    }
}

/// The same line with the paths as they read from a directory.
pub open spec fn label_relative(change: ChangeModel, cwd: Text) -> Text {
    match change {
        ChangeModel::Add { path, .. } => "A "@ + paths::relative(path, cwd),
        ChangeModel::Delete { path, .. } => "D "@ + paths::relative(path, cwd),
        ChangeModel::Update { reported_path, .. } => "M "@ + paths::relative(reported_path, cwd),
        ChangeModel::Move { from, to, .. } => "R "@ + paths::relative(from, cwd) + " -> "@
            + paths::relative(to, cwd),
        ChangeModel::MoveSymlink { from, to, .. } => "R "@ + paths::relative(from, cwd) + " -> "@
            + paths::relative(to, cwd),
    }
}

pub open spec fn labels(changes: Seq<ChangeModel>) -> Seq<Text> {
    changes.map_values(|c: ChangeModel| label(c))
}

/// The report on a published plan: a line for each change.
pub open spec fn summary(changes: Seq<ChangeModel>, cwd: Text) -> Text
    decreases changes.len(),
{
    if changes.len() == 0 {
        "Done!\n"@
    } else {
        summary(changes.drop_last(), cwd) + label_relative(changes.last(), cwd) + "\n"@
    }
}

fn lettered(letter: &str, path: &str) -> (r: String)
    ensures
        r@ == letter@ + path@,
{
    let mut out = letter.to_string();
    out.append(path);
    out
}

fn arrow(from: &str, to: &str) -> (r: String)
    ensures
        r@ == "R "@ + from@ + " -> "@ + to@,
{
    let mut out = "R ".to_string();
    out.append(from);
    out.append(" -> ");
    out.append(to);
    out
}

/// The line that reports a change.
pub fn change_label(change: &PlannedChange) -> (r: String)
    ensures
        r@ == label(change@),
{
    match change {
        PlannedChange::Add { path, .. } => lettered("A ", path.as_str()),
        PlannedChange::Delete { path, .. } => lettered("D ", path.as_str()),
        PlannedChange::Update { reported_path, .. } => lettered("M ", reported_path.as_str()),
        PlannedChange::Move { from, to, .. } => arrow(from.as_str(), to.as_str()),
        PlannedChange::MoveSymlink { from, to, .. } => arrow(from.as_str(), to.as_str()),
    }
}

/// The line that reports a change, as it reads from a directory.
pub fn change_label_relative(change: &PlannedChange, cwd: &str) -> (r: String)
    requires
        cwd@.len() > 0,
    ensures
        r@ == label_relative(change@, cwd@),
{
    match change {
        PlannedChange::Add { path, .. } => {
            let path = paths::relative_path(path.as_str(), cwd);
            lettered("A ", path.as_str())
        },
        PlannedChange::Delete { path, .. } => {
            let path = paths::relative_path(path.as_str(), cwd);
            lettered("D ", path.as_str())
        },
        PlannedChange::Update { reported_path, .. } => {
            let path = paths::relative_path(reported_path.as_str(), cwd);
            lettered("M ", path.as_str())
        },
        PlannedChange::Move { from, to, .. } => {
            let from = paths::relative_path(from.as_str(), cwd);
            let to = paths::relative_path(to.as_str(), cwd);
            arrow(from.as_str(), to.as_str())
        },
        PlannedChange::MoveSymlink { from, to, .. } => {
            let from = paths::relative_path(from.as_str(), cwd);
            let to = paths::relative_path(to.as_str(), cwd);
            arrow(from.as_str(), to.as_str())
        },
    }
}

/// The report on a published plan.
pub fn format_summary(changes: &Vec<PlannedChange>, cwd: &str) -> (r: String)
    requires
        cwd@.len() > 0,
    ensures
        r@ == summary(plan::change_models(changes@), cwd@),
{
    let ghost models = plan::change_models(changes@);
    let mut out = "Done!\n".to_string();
    for i in 0..changes.len()
        invariant
            models == plan::change_models(changes@),
            cwd@.len() > 0,
            out@ == summary(models.take(i as int), cwd@),
    {
        assert(models.take(i + 1).drop_last() =~= models.take(i as int));
        assert(models.take(i + 1).last() == changes@[i as int]@);
        let line = change_label_relative(&changes[i], cwd);
        out.append(line.as_str());
        out.append("\n");
    }
    assert(models.take(changes@.len() as int) =~= models);
    out
}

/// The answer to a patch whose plan was published.
pub fn patch_output(changes: &Vec<PlannedChange>, cwd: &str) -> (r: ApplyPatchOutput)
    requires
        cwd@.len() > 0,
    ensures
        r.output@ == summary(plan::change_models(changes@), cwd@),
{
    ApplyPatchOutput { output: format_summary(changes, cwd) }
}

// ---------------------------------------------------------------------------
// Publishing
// ---------------------------------------------------------------------------
/// What is being done to the current change.
#[derive(Debug, Clone, Copy, PartialEq, Eq, Structural)]
pub enum Stage {
    MakingDirectory,
    Renaming,
    Writing,
    Removing,
    RollingBack,
    Finished,
    Failed,
}

/// The publishing of a plan.
pub struct CommitModel {
    pub changes: Seq<ChangeModel>,
    pub at: int,
    pub stage: Stage,
    pub write: WriteModel,
    pub failure: Seq<Text>,
}

/// No writing.
pub open spec fn idle() -> WriteModel {
    publish::started(""@, ""@, false, None)
}

/// What is reported of the changes that were published before a failure.
pub open spec fn completed(changes: Seq<ChangeModel>) -> Text {
    "completed changes before failure: "@ + (if changes.len() == 0 {
        "none"@
    } else {
        text::join(labels(changes), ", "@)
    })
}

/// The publishing of a plan at the start of a change.
pub open spec fn begun(changes: Seq<ChangeModel>, at: int) -> CommitModel {
    let base = CommitModel {
        changes,
        at,
        stage: Stage::Finished,
        write: idle(),
        failure: Seq::empty(),
    };
    if at >= changes.len() {
        base
    } else {
        match changes[at] {
            ChangeModel::Add { path, content } => base.writing(
                publish::started(path, content, false, None),
            ),
            ChangeModel::Delete { .. } => base.to(Stage::Removing),
            ChangeModel::Update { path, original, content, .. } => base.writing(
                publish::started(path, content, true, Some(original)),
            ),
            ChangeModel::Move { .. } => base.to(Stage::Renaming),
            ChangeModel::MoveSymlink { .. } => base.to(Stage::MakingDirectory),
        }
    }
}

impl CommitModel {
    pub open spec fn to(self, stage: Stage) -> CommitModel {
        CommitModel { stage, ..self }
    }

    pub open spec fn writing(self, write: WriteModel) -> CommitModel {
        CommitModel { stage: Stage::Writing, write, ..self }
    }

    pub open spec fn over(self) -> bool {
        self.stage == Stage::Finished || self.stage == Stage::Failed
    }

    /// The change at hand.
    pub open spec fn change(self) -> ChangeModel {
        self.changes[self.at]
    }

    /// The failure that ends the publishing here: what was published before it
    /// comes first.
    pub open spec fn abandoned(self, failure: Seq<Text>) -> CommitModel {
        CommitModel {
            stage: Stage::Failed,
            write: idle(),
            failure: seq![completed(self.changes.take(self.at))] + failure,
            ..self
        }
    }

    /// What is to be done next.
    pub open spec fn action(self) -> ActionModel
        recommends
            !self.over(),
    {
        match (self.stage, self.change()) {
            (Stage::Removing, ChangeModel::Delete { path, .. }) => ActionModel::Remove(path),
            (Stage::MakingDirectory, ChangeModel::MoveSymlink { to, .. }) => {
                ActionModel::MakeDirectory(publish::directory(to))
            },
            (Stage::Renaming, ChangeModel::Move { from, to, .. }) => ActionModel::Rename {
                from,
                to,
            },
            (Stage::Renaming, ChangeModel::MoveSymlink { from, to, .. }) => ActionModel::Rename {
                from,
                to,
            },
            (Stage::RollingBack, ChangeModel::Move { from, to, .. }) => ActionModel::Rename {
                from: to,
                to: from,
            },
            (Stage::RollingBack, ChangeModel::MoveSymlink { from, to, .. }) => {
                ActionModel::Rename { from: to, to: from }
            },
            _ => self.write.action(),
        }
    }

    /// The publishing after an action of the writing at hand.
    pub open spec fn after_write(self, outcome: OutcomeModel, token: Text) -> CommitModel {
        let write = self.write.after(outcome, token);
        match write.phase {
            Phase::Finished => begun(self.changes, self.at + 1),
            Phase::Failed => match self.change() {
                ChangeModel::Move { .. } => CommitModel {
                    stage: Stage::RollingBack,
                    write: idle(),
                    failure: write.failure,
                    ..self
                },
                ChangeModel::MoveSymlink { .. } => CommitModel {
                    stage: Stage::RollingBack,
                    write: idle(),
                    failure: write.failure,
                    ..self
                },
                _ => self.abandoned(write.failure),
            },
            _ => CommitModel { write, ..self },
        }
    }

    /// The publishing after its action was done.
    pub open spec fn after_done(self) -> CommitModel {
        match (self.stage, self.change()) {
            (Stage::MakingDirectory, _) => self.to(Stage::Renaming),
            (Stage::Renaming, ChangeModel::Move { to, original, content, .. }) => self.writing(
                publish::started(to, content, true, Some(original)),
            ),
            (
                Stage::Renaming,
                ChangeModel::MoveSymlink { target_update: Some(update), .. },
            ) => self.writing(
                publish::started(update.path, update.content, true, Some(update.original)),
            ),
            (Stage::RollingBack, ChangeModel::Move { to, .. }) => self.abandoned(
                seq!["updating moved file "@ + to + "; move rolled back"@] + self.failure,
            ),
            (
                Stage::RollingBack,
                ChangeModel::MoveSymlink { target_update: Some(update), .. },
            ) => self.abandoned(
                seq![
                    "updating symlink target after moving "@ + update.path
                        + "; move rolled back"@,
                ] + self.failure,
            ),
            _ => begun(self.changes, self.at + 1),
        }
    }

    /// The publishing after its action failed.
    pub open spec fn after_failed(self, message: Text) -> CommitModel {
        match (self.stage, self.change()) {
            (Stage::Removing, ChangeModel::Delete { path, .. }) => self.abandoned(
                seq!["deleting "@ + path, message],
            ),
            (Stage::MakingDirectory, ChangeModel::MoveSymlink { to, .. }) => self.abandoned(
                seq!["creating parent directory "@ + publish::directory(to), message],
            ),
            (Stage::Renaming, ChangeModel::Move { from, to, .. }) => self.abandoned(
                seq!["moving "@ + from + " to "@ + to, message],
            ),
            (Stage::Renaming, ChangeModel::MoveSymlink { from, to, .. }) => self.abandoned(
                seq!["moving symlink "@ + from + " to "@ + to, message],
            ),
            (Stage::RollingBack, ChangeModel::Move { from, to, .. }) => self.abandoned(
                seq![
                    "updating moved file "@ + to + "; also failed to roll back "@ + to + " to "@
                        + from + ": "@ + message,
                ] + self.failure,
            ),
            (
                Stage::RollingBack,
                ChangeModel::MoveSymlink { from, to, target_update: Some(update) },
            ) => self.abandoned(
                seq![
                    "updating symlink target after moving "@ + update.path
                        + "; also failed to roll back "@ + to + " to "@ + from + ": "@ + message,
                ] + self.failure,
            ),
            _ => self.abandoned(seq![message]),
        }
    }

    /// The publishing after its action ended.
    pub open spec fn after(self, outcome: OutcomeModel, token: Text) -> CommitModel {
        if self.over() {
            self
        } else if self.stage == Stage::Writing {
            self.after_write(outcome, token)
        } else {
            match outcome {
                OutcomeModel::Done(_) => self.after_done(),
                OutcomeModel::Failed { message, .. } => self.after_failed(message),
            }
        }
    }

    /// Whether the stage is one that the change at hand can have.
    pub open spec fn wf(self) -> bool {
        &&& 0 <= self.at <= self.changes.len()
        &&& self.stage != Stage::Finished ==> self.at < self.changes.len()
        &&& match self.stage {
            Stage::MakingDirectory => self.change() is MoveSymlink,
            Stage::Renaming => self.change() is Move || self.change() is MoveSymlink,
            Stage::Removing => self.change() is Delete,
            Stage::Writing => !self.write.over() && self.write.explained() && !(
            self.change() is Delete) && (self.change() matches ChangeModel::MoveSymlink { target_update, .. }
                ==> target_update is Some),
            Stage::RollingBack => self.failure.len() > 0 && (self.change() is Move || (
            self.change() matches ChangeModel::MoveSymlink { target_update, .. }
                && target_update is Some)),
            Stage::Finished => self.at == self.changes.len(),
            Stage::Failed => self.failure.len() > 1 && self.failure[0] == completed(
                self.changes.take(self.at),
            ),
        }
    }
}

// ---------------------------------------------------------------------------
// Laws
// ---------------------------------------------------------------------------
/// The publishing of a plan after a number of actions.
pub open spec fn commit_after(changes: Seq<ChangeModel>, events: Seq<Event>) -> CommitModel
    decreases events.len(),
{
    if events.len() == 0 {
        begun(changes, 0)
    } else {
        commit_after(changes, events.drop_last()).after(
            events.last().outcome,
            events.last().token,
        )
    }
}

/// Each action keeps the publishing well formed, and at most one change is
/// finished by it.
pub proof fn publishing_goes_in_order(commit: CommitModel, outcome: OutcomeModel, token: Text)
    requires
        commit.wf(),
    ensures
        commit.after(outcome, token).wf(),
        commit.after(outcome, token).changes == commit.changes,
        commit.at <= commit.after(outcome, token).at <= commit.at + 1,
        commit.after(outcome, token).at == commit.at + 1 ==> outcome is Done,
{
}

/// Publishing ends with every change published, or with a failure whose first
/// message lists exactly the changes that were published before it.
pub proof fn publishing_reports_what_was_done(changes: Seq<ChangeModel>, events: Seq<Event>)
    ensures
        ({
            let commit = commit_after(changes, events);
            &&& commit.changes == changes
            &&& commit.wf()
            &&& commit.stage == Stage::Finished ==> commit.at == changes.len()
            &&& commit.stage == Stage::Failed ==> commit.at < changes.len()
                && commit.failure.len() > 1 && commit.failure[0] == completed(
                changes.take(commit.at),
            )
        }),
    decreases events.len(),
{
    if events.len() > 0 {
        publishing_reports_what_was_done(changes, events.drop_last());
        publishing_goes_in_order(
            commit_after(changes, events.drop_last()),
            events.last().outcome,
            events.last().token,
        );
    }
}

/// When the new content of a moved file cannot be written, the move is taken
/// back before the failure is reported.
pub proof fn failed_moves_are_rolled_back(
    commit: CommitModel,
    from: Text,
    to: Text,
    original: Seq<u8>,
    content: Text,
    outcome: OutcomeModel,
    token: Text,
)
    requires
        commit.wf(),
        commit.stage == Stage::Writing,
        commit.change() == (ChangeModel::Move { from, to, original, content }),
        commit.write.after(outcome, token).phase == Phase::Failed,
    ensures
        !commit.after(outcome, token).over(),
        commit.after(outcome, token).action() == (ActionModel::Rename { from: to, to: from }),
        forall|last: OutcomeModel, t: Text| #[trigger]
            commit.after(outcome, token).after(last, t).stage == Stage::Failed,
{
}

// ---------------------------------------------------------------------------
// Doing it
// ---------------------------------------------------------------------------
/// The publishing of a plan.
#[derive(Debug)]
pub struct Commit {
    pub changes: Vec<PlannedChange>,
    pub at: usize,
    pub stage: Stage,
    pub write: Write,
    pub failure: Failure,
}

impl View for Commit {
    type V = CommitModel;

    open spec fn view(&self) -> CommitModel {
        CommitModel {
            changes: plan::change_models(self.changes@),
            at: self.at as int,
            stage: self.stage,
            write: self.write@,
            failure: self.failure@,
        }
    }
}

fn no_failure() -> (r: Failure)
    ensures
        r@ == Seq::<Text>::empty(),
{
    let r = Failure { messages: Vec::new() };
    assert(r@ =~= Seq::empty());
    r
}

fn no_write() -> (r: Write)
    ensures
        r@ == idle(),
{
    Write::start("", "", false, None)
}

fn completed_before(changes: &Vec<PlannedChange>, at: usize) -> (r: String)
    requires
        at <= changes@.len(),
    ensures
        r@ == completed(plan::change_models(changes@).take(at as int)),
{
    let ghost models = plan::change_models(changes@);
    let mut names: Vec<String> = Vec::new();
    assert(text::strings(names@) =~= labels(models.take(0)));
    for i in 0..at
        invariant
            models == plan::change_models(changes@),
            at <= changes@.len(),
            text::strings(names@) =~= labels(models.take(i as int)),
    {
        let ghost before = names@;
        let name = change_label(&changes[i]);
        names.push(name);
        assert(text::strings(names@) =~= text::strings(before).push(name@));
        assert(models.take(i + 1) =~= models.take(i as int).push(changes@[i as int]@));
        assert(labels(models.take(i + 1)) =~= labels(models.take(i as int)).push(
            label(changes@[i as int]@),
        ));
    }
    let mut out = "completed changes before failure: ".to_string();
    if at == 0 {
        out.append("none");
    } else {
        let all = text::join_strings(&names, ", ");
        out.append(all.as_str());
    }
    out
}

impl Commit {
    /// The publishing of a plan, before its first action.
    pub fn start(changes: Vec<PlannedChange>) -> (r: Commit)
        ensures
            r@ == begun(plan::change_models(changes@), 0),
            r@.wf(),
    {
        let mut r = Commit {
            changes,
            at: 0,
            stage: Stage::Finished,
            write: no_write(),
            failure: no_failure(),
        };
        r.begin();
        r
    }

    /// Sets the stage for the change at hand.
    fn begin(&mut self)
        requires
            old(self).at <= old(self).changes@.len(),
        ensures
            final(self)@ == begun(old(self)@.changes, old(self)@.at),
    {
        self.failure = no_failure();
        self.write = no_write();
        if self.at >= self.changes.len() {
            self.stage = Stage::Finished;
        } else {
            assert(self@.changes[self.at as int] == self.changes@[self.at as int]@);
            match &self.changes[self.at] {
                PlannedChange::Add { path, content } => {
                    self.write = Write::start(path.as_str(), content.as_str(), false, None);
                    self.stage = Stage::Writing;
                },
                PlannedChange::Delete { .. } => {
                    self.stage = Stage::Removing;
                },
                PlannedChange::Update { path, original, content, .. } => {
                    self.write =
                    Write::start(
                        path.as_str(),
                        content.as_str(),
                        true,
                        Some(bytes::copy_bytes(original)),
                    );
                    self.stage = Stage::Writing;
                },
                PlannedChange::Move { .. } => {
                    self.stage = Stage::Renaming;
                },
                PlannedChange::MoveSymlink { .. } => {
                    self.stage = Stage::MakingDirectory;
                },
            }
        }
    }

    fn next_change(&mut self)
        requires
            old(self).at < old(self).changes@.len(),
        ensures
            final(self)@ == begun(old(self)@.changes, old(self)@.at + 1),
    {
        let count: usize = self.changes.len();
        assert(self.at < count);
        self.at = self.at + 1;
        self.begin();
    }

    fn abandon(&mut self, failure: Failure)
        requires
            old(self).at <= old(self).changes@.len(),
        ensures
            final(self)@ == old(self)@.abandoned(failure@),
    {
        self.failure = failure.context(completed_before(&self.changes, self.at));
        self.write = no_write();
        self.stage = Stage::Failed;
    }

    /// What is to be done next.
    pub fn next_action(&self) -> (r: FsAction)
        requires
            self@.wf(),
            !self@.over(),
        ensures
            r@ == self@.action(),
    {
        assert(self@.changes[self.at as int] == self.changes@[self.at as int]@);
        match (self.stage, &self.changes[self.at]) {
            (Stage::Removing, PlannedChange::Delete { path, .. }) => FsAction::Remove(
                path.clone(),
            ),
            (Stage::MakingDirectory, PlannedChange::MoveSymlink { to, .. }) => {
                FsAction::MakeDirectory(publish::directory_of(to.as_str()))
            },
            (Stage::Renaming, PlannedChange::Move { from, to, .. }) => FsAction::Rename {
                from: from.clone(),
                to: to.clone(),
            },
            (Stage::Renaming, PlannedChange::MoveSymlink { from, to, .. }) => FsAction::Rename {
                from: from.clone(),
                to: to.clone(),
            },
            (Stage::RollingBack, PlannedChange::Move { from, to, .. }) => FsAction::Rename {
                from: to.clone(),
                to: from.clone(),
            },
            (Stage::RollingBack, PlannedChange::MoveSymlink { from, to, .. }) => {
                FsAction::Rename { from: to.clone(), to: from.clone() }
            },
            _ => self.write.next_action(),
        }
    }

    fn advance_write(&mut self, outcome: Outcome, token: &str)
        requires
            old(self)@.wf(),
            old(self)@.stage == Stage::Writing,
        ensures
            final(self)@ == old(self)@.after_write(outcome@, token@),
    {
        self.write.advance(outcome, token);
        assert(self@.changes[self.at as int] == self.changes@[self.at as int]@);
        match self.write.phase {
            Phase::Finished => {
                self.next_change();
            },
            Phase::Failed => {
                let failure = self.write.failure.copy();
                let moved = match &self.changes[self.at] {
                    PlannedChange::Move { .. } => true,
                    PlannedChange::MoveSymlink { .. } => true,
                    _ => false,
                };
                if moved {
                    self.stage = Stage::RollingBack;
                    self.write = no_write();
                    self.failure = failure;
                } else {
                    self.abandon(failure);
                }
            },
            _ => {},
        }
    }

    fn advance_done(&mut self)
        requires
            old(self)@.wf(),
            !old(self)@.over(),
            old(self)@.stage != Stage::Writing,
        ensures
            final(self)@ == old(self)@.after_done(),
    {
        assert(self@.changes[self.at as int] == self.changes@[self.at as int]@);
        let failure = self.failure.copy();
        match (self.stage, &self.changes[self.at]) {
            (Stage::MakingDirectory, _) => {
                self.stage = Stage::Renaming;
            },
            (Stage::Renaming, PlannedChange::Move { to, original, content, .. }) => {
                let expected = bytes::copy_bytes(original);
                self.write = Write::start(to.as_str(), content.as_str(), true, Some(expected));
                self.stage = Stage::Writing;
            },
            (
                Stage::Renaming,
                PlannedChange::MoveSymlink { target_update: Some(update), .. },
            ) => {
                let expected = bytes::copy_bytes(&update.original);
                self.write =
                Write::start(
                    update.path.as_str(),
                    update.content.as_str(),
                    true,
                    Some(expected),
                );
                self.stage = Stage::Writing;
            },
            (Stage::RollingBack, PlannedChange::Move { to, .. }) => {
                let mut message = "updating moved file ".to_string();
                message.append(to.as_str());
                message.append("; move rolled back");
                self.abandon(failure.context(message));
            },
            (
                Stage::RollingBack,
                PlannedChange::MoveSymlink { target_update: Some(update), .. },
            ) => {
                let mut message = "updating symlink target after moving ".to_string();
                message.append(update.path.as_str());
                message.append("; move rolled back");
                self.abandon(failure.context(message));
            },
            _ => {
                self.next_change();
            },
        }
    }

    fn advance_failed(&mut self, message: &str)
        requires
            old(self)@.wf(),
            !old(self)@.over(),
            old(self)@.stage != Stage::Writing,
        ensures
            final(self)@ == old(self)@.after_failed(message@),
    {
        assert(self@.changes[self.at as int] == self.changes@[self.at as int]@);
        let before = self.failure.copy();
        let failure = match (self.stage, &self.changes[self.at]) {
            (Stage::Removing, PlannedChange::Delete { path, .. }) => {
                let mut outer = "deleting ".to_string();
                outer.append(path.as_str());
                Failure::because(outer, message)
            },
            (Stage::MakingDirectory, PlannedChange::MoveSymlink { to, .. }) => {
                let parent = publish::directory_of(to.as_str());
                let mut outer = "creating parent directory ".to_string();
                outer.append(parent.as_str());
                Failure::because(outer, message)
            },
            (Stage::Renaming, PlannedChange::Move { from, to, .. }) => {
                let mut outer = "moving ".to_string();
                outer.append(from.as_str());
                outer.append(" to ");
                outer.append(to.as_str());
                Failure::because(outer, message)
            },
            (Stage::Renaming, PlannedChange::MoveSymlink { from, to, .. }) => {
                let mut outer = "moving symlink ".to_string();
                outer.append(from.as_str());
                outer.append(" to ");
                outer.append(to.as_str());
                Failure::because(outer, message)
            },
            (Stage::RollingBack, PlannedChange::Move { from, to, .. }) => {
                let mut outer = "updating moved file ".to_string();
                outer.append(to.as_str());
                outer.append("; also failed to roll back ");
                outer.append(to.as_str());
                outer.append(" to ");
                outer.append(from.as_str());
                outer.append(": ");
                outer.append(message);
                before.context(outer)
            },
            (
                Stage::RollingBack,
                PlannedChange::MoveSymlink { from, to, target_update: Some(update) },
            ) => {
                let mut outer = "updating symlink target after moving ".to_string();
                outer.append(update.path.as_str());
                outer.append("; also failed to roll back ");
                outer.append(to.as_str());
                outer.append(" to ");
                outer.append(from.as_str());
                outer.append(": ");
                outer.append(message);
                before.context(outer)
            },
            _ => Failure::new(message.to_string()),
        };
        self.abandon(failure);
    }

    /// Goes on after the action ended. `token` makes the name of a temporary
    /// file unique where one is needed next.
    pub fn advance_with(&mut self, outcome: Outcome, token: &str)
        requires
            old(self)@.wf(),
            !old(self)@.over(),
        ensures
            final(self)@ == old(self)@.after(outcome@, token@),
            final(self)@.wf(),
    {
        proof {
            publishing_goes_in_order(self@, outcome@, token@);
        }
        if self.stage == Stage::Writing {
            self.advance_write(outcome, token);
        } else {
            match outcome {
                Outcome::Done(_) => self.advance_done(),
                Outcome::Failed { message, .. } => self.advance_failed(message.as_str()),
            }
        }
    }

    /// Goes on after the action ended, with a random token at hand.
    pub fn advance(&mut self, outcome: Outcome)
        requires
            old(self)@.wf(),
            !old(self)@.over(),
        ensures
            exists|bytes: Seq<u8>|
                bytes.len() == 12 && final(self)@ == old(self)@.after(
                    outcome@,
                    #[trigger] crypto::hexadecimal(bytes),
                ),
            final(self)@.wf(),
    {
        let token = publish::temp_token();
        self.advance_with(outcome, token.as_str());
    }
}

} // verus!
