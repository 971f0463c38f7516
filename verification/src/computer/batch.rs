//! Going through a batch action by action.
use vstd::prelude::*;

use crate::computer;
use crate::computer::{Action, ActionModel, Frame, Geometry};
use crate::screenshot::Screenshot;
use crate::text;
use crate::text::Text;

verus! {

/// How long a batch may take, in milliseconds.
pub const LIMIT_MS: u64 = 30_000;

/// A batch in progress: what was done and why it stopped.
#[derive(Debug)]
pub struct Batch {
    pub actions: Vec<Action>,
    pub completed: usize,
    pub error: Option<String>,
}

/// The model of [`Batch`].
pub struct BatchModel {
    pub actions: Seq<ActionModel>,
    pub completed: int,
    pub error: Option<Text>,
}

impl View for Batch {
    type V = BatchModel;

    open spec fn view(&self) -> BatchModel {
        BatchModel {
            actions: computer::action_models(self.actions@),
            completed: self.completed as int,
            error: text::opt_text(self.error),
        }
    }
}

/// What to do for the next action.
#[derive(Debug, Clone, Copy, PartialEq, Eq, Structural)]
pub enum Todo {
    /// Nothing: the batch is over.
    Finish,
    /// Wait for some milliseconds, or until the batch is cancelled.
    Wait(u64),
    /// Look at the desktop, then do the action.
    Measure,
}

impl BatchModel {
    /// No more actions were done than there are.
    pub open spec fn wf(self) -> bool {
        0 <= self.completed <= self.actions.len()
    }

    /// Whether nothing is left to do.
    pub open spec fn over(self) -> bool {
        self.error is Some || self.completed >= self.actions.len()
    }

    pub open spec fn failed(self, error: Text) -> BatchModel {
        BatchModel { error: Some(error), ..self }
    }

    pub open spec fn advanced(self) -> BatchModel {
        BatchModel { completed: self.completed + 1, ..self }
    }

    /// The batch before its next action, and what to do for it.
    pub open spec fn polled(self, cancelled: bool, elapsed_ms: u64) -> (BatchModel, Todo) {
        if self.over() {
            (self, Todo::Finish)
        } else if cancelled {
            (self.failed("batch cancelled"@), Todo::Finish)
        } else if elapsed_ms >= LIMIT_MS {
            (self.failed("batch exceeded 30 seconds"@), Todo::Finish)
        } else {
            match self.actions[self.completed] {
                ActionModel::Wait { ms } => (self, Todo::Wait(ms)),
                _ => (self, Todo::Measure),
            }
        }
    }

    /// The batch after a wait.
    pub open spec fn waited(self, cancelled: bool) -> BatchModel {
        if cancelled {
            self.failed("batch cancelled"@)
        } else {
            self.advanced()
        }
    }

    /// The batch after the desktop was looked at, and the frame for the action.
    pub open spec fn measured(
        self,
        frame: Option<Frame>,
        geometry: Result<Geometry, Text>,
        cancelled: bool,
    ) -> (BatchModel, Option<Frame>) {
        match geometry {
            Err(error) => (self.failed(error), None),
            Ok(geometry) => {
                let used = match frame {
                    Some(f) => f,
                    None => Frame { geometry, width: geometry.width, height: geometry.height },
                };
                if used.geometry != geometry {
                    (
                        self.failed(
                            "desktop geometry changed; inspect the new screenshot before retrying"@,
                        ),
                        None,
                    )
                } else if cancelled {
                    (self.failed("batch cancelled"@), None)
                } else {
                    (self, Some(used))
                }
            },
        }
    }

    /// The batch after an action was done or failed.
    pub open spec fn executed(self, result: Result<(), Text>) -> BatchModel {
        match result {
            Ok(()) => self.advanced(),
            Err(error) => self.failed(error),
        }
    }

    /// What is reported of a batch that stopped early.
    pub open spec fn report(self) -> Option<Text> {
        match self.error {
            Some(error) => Some(
                error + "; "@ + text::decimal(self.completed as nat)
                    + " actions completed; the failing action may have partially executed. Do not blindly replay the batch."@,
            ),
            None => None,
        }
    }
}

pub open spec fn unit_result(r: Result<(), String>) -> Result<(), Text> {
    match r {
        Ok(()) => Ok(()),
        Err(e) => Err(e@),
    }
}

pub open spec fn geometry_result(r: Result<Geometry, String>) -> Result<Geometry, Text> {
    match r {
        Ok(g) => Ok(g),
        Err(e) => Err(e@),
    }
}

impl Batch {
    /// A batch before its first action; one that is refused is over at once.
    pub fn start(actions: Vec<Action>, frame: Option<Frame>) -> (r: Batch)
        ensures
            r@ == (BatchModel {
                actions: computer::action_models(actions@),
                completed: 0,
                error: computer::batch_fault(computer::action_models(actions@), frame),
            }),
            r@.wf(),
    {
        let error = match computer::validate(&actions, frame) {
            Ok(()) => None,
            Err(e) => Some(e),
        };
        Batch { actions, completed: 0, error }
    }

    /// Looks at the next action.
    pub fn poll(&mut self, cancelled: bool, elapsed_ms: u64) -> (r: Todo)
        requires
            old(self)@.wf(),
        ensures
            (final(self)@, r) == old(self)@.polled(cancelled, elapsed_ms),
            final(self)@.wf(),
            r != Todo::Finish ==> !final(self)@.over(),
    {
        assert(self@.actions.len() == self.actions@.len());
        if self.error.is_some() || self.completed >= self.actions.len() {
            return Todo::Finish;
        }
        if cancelled {
            self.error = Some("batch cancelled".to_string());
            return Todo::Finish;
        }
        if elapsed_ms >= LIMIT_MS {
            self.error = Some("batch exceeded 30 seconds".to_string());
            return Todo::Finish;
        }
        assert(self@.actions[self.completed as int] == self.actions@[self.completed as int]@);
        match &self.actions[self.completed] {
            Action::Wait { ms } => Todo::Wait(*ms),
            _ => Todo::Measure,
        }
    }

    /// The action at hand.
    pub fn current(&self) -> (r: &Action)
        requires
            !self@.over(),
            self@.wf(),
        ensures
            r@ == self@.actions[self@.completed],
    {
        &self.actions[self.completed]
    }

    fn advance(&mut self)
        requires
            old(self)@.wf(),
            !old(self)@.over(),
        ensures
            final(self)@ == old(self)@.advanced(),
            final(self)@.wf(),
    {
        let count: usize = self.actions.len();
        assert(self@.actions.len() == count);
        self.completed = self.completed + 1;
    }

    /// Takes note of the end of a wait.
    pub fn waited(&mut self, cancelled: bool)
        requires
            old(self)@.wf(),
            !old(self)@.over(),
        ensures
            final(self)@ == old(self)@.waited(cancelled),
            final(self)@.wf(),
    {
        if cancelled {
            self.error = Some("batch cancelled".to_string());
        } else {
            self.advance();
        }
    }

    /// Takes note of what the desktop looks like now, and tells the frame for
    /// the action where it may be done.
    pub fn measured(
        &mut self,
        frame: Option<Frame>,
        geometry: Result<Geometry, String>,
        cancelled: bool,
    ) -> (r: Option<Frame>)
        requires
            old(self)@.wf(),
            !old(self)@.over(),
        ensures
            (final(self)@, r) == old(self)@.measured(frame, geometry_result(geometry), cancelled),
            final(self)@.wf(),
            r is Some ==> !final(self)@.over(),
    {
        match geometry {
            Err(e) => {
                self.error = Some(e);
                None
            },
            Ok(geometry) => {
                let used = match frame {
                    Some(f) => f,
                    None => Frame { geometry, width: geometry.width, height: geometry.height },
                };
                if used.geometry != geometry {
                    self.error =
                    Some(
                        "desktop geometry changed; inspect the new screenshot before retrying".to_string(),
                    );
                    None
                } else if cancelled {
                    self.error = Some("batch cancelled".to_string());
                    None
                } else {
                    Some(used)
                }
            },
        }
    }

    /// Takes note of how the action went.
    pub fn executed(&mut self, result: Result<(), String>)
        requires
            old(self)@.wf(),
            !old(self)@.over(),
        ensures
            final(self)@ == old(self)@.executed(unit_result(result)),
            final(self)@.wf(),
    {
        match result {
            Ok(()) => self.advance(),
            Err(e) => {
                self.error = Some(e);
            },
        }
    }

    /// What is reported of a batch that stopped early.
    pub fn report(&self) -> (r: Option<String>)
        ensures
            text::opt_text(r) == self@.report(),
    {
        match &self.error {
            None => None,
            Some(error) => {
                let count = text::number(self.completed as u64);
                let mut out = error.clone();
                out.append("; ");
                out.append(count.as_str());
                out.append(
                    " actions completed; the failing action may have partially executed. Do not blindly replay the batch.",
                );
                Some(out)
            },
        }
    }
}

/// What a batch leaves: how many actions were done, why it stopped early, and
/// the final screenshot.
#[derive(Debug)]
pub struct Output {
    pub completed: usize,
    pub error: Option<String>,
    pub screenshot: Result<Screenshot, String>,
}

impl Batch {
    /// What the batch leaves, with the final screenshot.
    pub fn output(&self, screenshot: Result<Screenshot, String>) -> (r: Output)
        ensures
            r.completed == self@.completed,
            text::opt_text(r.error) == self@.report(),
            r.screenshot == screenshot,
    {
        Output { completed: self.completed, error: self.report(), screenshot }
    }
}

// ---------------------------------------------------------------------------
// Laws
// ---------------------------------------------------------------------------
/// A refused batch does nothing.
pub proof fn refused_batches_do_nothing(
    actions: Seq<ActionModel>,
    frame: Option<Frame>,
    cancelled: bool,
    elapsed_ms: u64,
)
    requires
        computer::batch_fault(actions, frame) is Some,
    ensures
        ({
            let batch = BatchModel {
                actions,
                completed: 0,
                error: computer::batch_fault(actions, frame),
            };
            batch.polled(cancelled, elapsed_ms) == (batch, Todo::Finish)
        }),
{
}

/// After a cancellation no action is started.
pub proof fn cancellation_prevents_further_actions(
    batch: BatchModel,
    frame: Option<Frame>,
    geometry: Result<Geometry, Text>,
    elapsed_ms: u64,
)
    requires
        batch.wf(),
    ensures
        batch.polled(true, elapsed_ms).1 == Todo::Finish,
        batch.measured(frame, geometry, true).1 is None,
{
}

/// An action is only done on a desktop of the size that its screenshot showed.
pub proof fn actions_use_current_geometry(
    batch: BatchModel,
    frame: Option<Frame>,
    geometry: Result<Geometry, Text>,
    cancelled: bool,
)
    ensures
        batch.measured(frame, geometry, cancelled).1 matches Some(used) ==> geometry == Ok::<
            Geometry,
            Text,
        >(used.geometry) && (frame matches Some(f) ==> used == f),
{
}

/// A batch goes on with its next action until one fails, all are done, it is
/// cancelled, or thirty seconds are over.
pub proof fn batches_go_on_until_something_stops_them(
    batch: BatchModel,
    cancelled: bool,
    elapsed_ms: u64,
)
    requires
        batch.wf(),
    ensures
        ({
            let (next, step) = batch.polled(cancelled, elapsed_ms);
            &&& step == Todo::Finish <==> batch.error is Some || batch.completed
                == batch.actions.len() || cancelled || elapsed_ms >= 30_000
            &&& step != Todo::Finish ==> next == batch && step
                == match batch.actions[batch.completed] {
                ActionModel::Wait { ms } => Todo::Wait(ms),
                _ => Todo::Measure,
            }
            &&& next.actions == batch.actions
            &&& next.completed == batch.completed
            &&& batch.error is None && batch.completed < batch.actions.len() && step
                == Todo::Finish ==> next.error is Some
            &&& batch.error is Some ==> next.error == batch.error
            &&& batch.completed == batch.actions.len() ==> next.error == batch.error
        }),
{
}

/// An action that is done counts, and the next one is up; one that fails or is
/// cancelled does not count, and ends the batch for its reason.
pub proof fn done_actions_count(batch: BatchModel, error: Text, cancelled: bool)
    ensures
        batch.executed(Ok(())) == (BatchModel { completed: batch.completed + 1, ..batch }),
        batch.executed(Err(error)) == (BatchModel { error: Some(error), ..batch }),
        batch.waited(false) == (BatchModel { completed: batch.completed + 1, ..batch }),
        batch.waited(true).completed == batch.completed,
        batch.waited(true).error is Some,
        batch.waited(true).actions == batch.actions,
{
}

/// An action is done on the desktop that the screenshot showed, when it is still
/// the same, or, with no screenshot, on the desktop as it is, each of its pixels
/// standing for itself. Otherwise the batch ends.
pub proof fn actions_are_done_on_the_same_desktop(
    batch: BatchModel,
    frame: Option<Frame>,
    geometry: Geometry,
    error: Text,
)
    requires
        batch.error is None,
    ensures
        frame is Some && frame->0.geometry == geometry ==> batch.measured(
            frame,
            Ok(geometry),
            false,
        ) == (batch, frame),
        frame is Some && frame->0.geometry != geometry ==> ({
            let (next, used) = batch.measured(frame, Ok(geometry), false);
            used is None && next.error is Some && next.completed == batch.completed
        }),
        frame is None ==> ({
            let (next, used) = batch.measured(frame, Ok(geometry), false);
            &&& next == batch
            &&& used matches Some(f)
            &&& f.geometry == geometry
            &&& f.width == geometry.width
            &&& f.height == geometry.height
        }),
        batch.measured(frame, Err(error), false) == (
            BatchModel { error: Some(error), ..batch },
            None::<Frame>,
        ),
{
}

/// What is reported of a batch begins with the reason and tells how many
/// actions were done; a batch that went well reports nothing.
pub proof fn reports_tell_the_reason_and_the_count(batch: BatchModel)
    ensures
        batch.report() is Some <==> batch.error is Some,
        batch.error matches Some(e) ==> ({
            let count = text::decimal(batch.completed as nat);
            let report = batch.report()->0;
            &&& report.take(e.len() as int) == e
            &&& report.subrange((e.len() + 2) as int, (e.len() + 2 + count.len()) as int) == count
            &&& report.subrange(e.len() as int, (e.len() + 2) as int) == "; "@
            &&& report.skip((e.len() + 2 + count.len()) as int)
                == " actions completed; the failing action may have partially executed. Do not blindly replay the batch."@
        }),
{
    if let Some(e) = batch.error {
        reveal_strlit("; ");
        let count = text::decimal(batch.completed as nat);
        let report = batch.report()->0;
        assert(report.take(e.len() as int) =~= e);
        assert(report.subrange(e.len() as int, (e.len() + 2) as int) =~= "; "@);
        assert(report.subrange((e.len() + 2) as int, (e.len() + 2 + count.len()) as int) =~= count);
        assert(report.skip((e.len() + 2 + count.len()) as int)
            =~= " actions completed; the failing action may have partially executed. Do not blindly replay the batch."@);
    }
}

} // verus!
