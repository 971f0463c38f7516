//! How the gateway takes hold of the socket that it listens on.
use vstd::prelude::*;

use crate::apply_patch::paths;
use crate::failure::Failure;
use crate::text::Text;

verus! {

/// What is done with the file system next.
#[derive(Debug, Clone, Copy, PartialEq, Eq, Structural)]
pub enum Step {
    /// Is the parent of the socket a directory?
    InspectParent,
    /// Is there anything at the path of the socket?
    LookForSocket,
    /// Does anybody answer on it?
    Connect,
    /// Is it a socket?
    InspectSocket,
    /// Take it away.
    Remove,
    /// Listen on it.
    Bind,
    /// Let the group of the proxy reach it.
    SetMode(u32),
}

/// What came of a step.
#[derive(Debug)]
pub enum Outcome {
    /// The answer is yes, or the step is done.
    Yes,
    /// The answer is no.
    No,
    /// The step failed.
    Failed(String),
}

/// The mode of the socket.
pub const SOCKET_MODE: u32 = 0o660;

/// The step after an outcome: none when the socket is held, and a failure where
/// it cannot be had. Somebody who answers is left alone, and so is what is no
/// socket.
pub open spec fn following(path: Text, parent: Text, step: Step, outcome: Outcome) -> Result<
    Option<Step>,
    Seq<Text>,
> {
    match (step, outcome) {
        (Step::InspectParent, Outcome::Yes) => Ok(Some(Step::LookForSocket)),
        (Step::InspectParent, Outcome::No) => Err(
            seq!["gateway socket parent is not a directory: "@ + parent],
        ),
        (Step::InspectParent, Outcome::Failed(e)) => Err(
            seq!["access gateway socket directory "@ + parent, e@],
        ),
        (Step::LookForSocket, Outcome::Yes) => Ok(Some(Step::Connect)),
        (Step::LookForSocket, Outcome::No) => Ok(Some(Step::Bind)),
        (Step::LookForSocket, Outcome::Failed(e)) => Err(seq![e@]),
        (Step::Connect, Outcome::Yes) => Err(seq!["gateway socket is already in use: "@ + path]),
        (Step::Connect, _) => Ok(Some(Step::InspectSocket)),
        (Step::InspectSocket, Outcome::Yes) => Ok(Some(Step::Remove)),
        (Step::InspectSocket, Outcome::No) => Err(
            seq!["gateway socket path is not a socket: "@ + path],
        ),
        (Step::InspectSocket, Outcome::Failed(e)) => Err(seq![e@]),
        (Step::Remove, Outcome::Failed(e)) => Err(seq!["remove stale socket "@ + path, e@]),
        (Step::Remove, _) => Ok(Some(Step::Bind)),
        (Step::Bind, Outcome::Failed(e)) => Err(seq!["bind gateway socket "@ + path, e@]),
        (Step::Bind, _) => Ok(Some(Step::SetMode(SOCKET_MODE))),
        (Step::SetMode(_), Outcome::Failed(e)) => Err(seq![e@]),
        (Step::SetMode(_), _) => Ok(None),
    }
}

fn about(message: &str, path: &str) -> (r: String)
    ensures
        r@ == message@ + path@,
{
    let mut s = message.to_string();
    s.append(path);
    s
}

/// The directory of the socket, which is inspected first.
pub fn start(path: &str) -> (r: Result<String, Failure>)
    ensures
        match r {
            Ok(parent) => paths::parent(path@) == Some(parent@),
            Err(failure) => paths::parent(path@) is None && failure@
                == seq!["gateway socket path has no parent"@],
        },
{
    match paths::parent_path(path) {
        Some(parent) => Ok(parent),
        None => Err(Failure::new("gateway socket path has no parent".to_string())),
    }
}

/// The step after an outcome.
pub fn advance(path: &str, parent: &str, step: Step, outcome: Outcome) -> (r: Result<
    Option<Step>,
    Failure,
>)
    ensures
        match r {
            Ok(next) => following(path@, parent@, step, outcome) == Ok::<
                Option<Step>,
                Seq<Text>,
            >(next),
            Err(failure) => following(path@, parent@, step, outcome) == Err::<
                Option<Step>,
                Seq<Text>,
            >(failure@),
        },
{
    match (step, outcome) {
        (Step::InspectParent, Outcome::Yes) => Ok(Some(Step::LookForSocket)),
        (Step::InspectParent, Outcome::No) => Err(
            Failure::new(about("gateway socket parent is not a directory: ", parent)),
        ),
        (Step::InspectParent, Outcome::Failed(e)) => Err(
            Failure::because(about("access gateway socket directory ", parent), e.as_str()),
        ),
        (Step::LookForSocket, Outcome::Yes) => Ok(Some(Step::Connect)),
        (Step::LookForSocket, Outcome::No) => Ok(Some(Step::Bind)),
        (Step::LookForSocket, Outcome::Failed(e)) => Err(Failure::new(e)),
        (Step::Connect, Outcome::Yes) => Err(
            Failure::new(about("gateway socket is already in use: ", path)),
        ),
        (Step::Connect, _) => Ok(Some(Step::InspectSocket)),
        (Step::InspectSocket, Outcome::Yes) => Ok(Some(Step::Remove)),
        (Step::InspectSocket, Outcome::No) => Err(
            Failure::new(about("gateway socket path is not a socket: ", path)),
        ),
        (Step::InspectSocket, Outcome::Failed(e)) => Err(Failure::new(e)),
        (Step::Remove, Outcome::Failed(e)) => Err(
            Failure::because(about("remove stale socket ", path), e.as_str()),
        ),
        (Step::Remove, _) => Ok(Some(Step::Bind)),
        (Step::Bind, Outcome::Failed(e)) => Err(
            Failure::because(about("bind gateway socket ", path), e.as_str()),
        ),
        (Step::Bind, _) => Ok(Some(Step::SetMode(SOCKET_MODE))),
        (Step::SetMode(_), Outcome::Failed(e)) => Err(Failure::new(e)),
        (Step::SetMode(_), _) => Ok(None),
    }
}

/// A run of steps that each followed from the outcome of the one before, from
/// the first on.
pub open spec fn is_run(path: Text, parent: Text, steps: Seq<Step>, outcomes: Seq<Outcome>) -> bool {
    &&& steps.len() > 0
    &&& outcomes.len() >= steps.len() - 1
    &&& steps[0] == Step::InspectParent
    &&& forall|i: int|
        0 < i < steps.len() ==> following(path, parent, steps[i - 1], outcomes[i - 1]) == Ok::<
            Option<Step>,
            Seq<Text>,
        >(Some(#[trigger] steps[i]))
}

/// Only a socket on which nobody answers is ever removed.
pub proof fn active_sockets_are_left_alone(
    path: Text,
    parent: Text,
    steps: Seq<Step>,
    outcomes: Seq<Outcome>,
)
    requires
        is_run(path, parent, steps, outcomes),
        steps.last() == Step::Remove,
    ensures
        steps.len() >= 3,
        steps[steps.len() - 2] == Step::InspectSocket,
        outcomes[steps.len() - 2] is Yes,
        steps[steps.len() - 3] == Step::Connect,
        !(outcomes[steps.len() - 3] is Yes),
{
    let n = steps.len() as int;
    assert(n > 1);
    assert(following(path, parent, steps[n - 2], outcomes[n - 2]) == Ok::<
        Option<Step>,
        Seq<Text>,
    >(Some(steps[n - 1])));
    assert(steps[n - 2] == Step::InspectSocket);
    assert(n > 2);
    assert(following(path, parent, steps[n - 3], outcomes[n - 3]) == Ok::<
        Option<Step>,
        Seq<Text>,
    >(Some(steps[n - 2])));
}

/// With nothing at its path, or a socket there on which nobody answers, the
/// socket is bound, readable and writable for its owner and its group, and then
/// held.
pub proof fn free_sockets_are_taken(path: Text, parent: Text)
    ensures
        following(path, parent, Step::InspectParent, Outcome::Yes) == Ok::<
            Option<Step>,
            Seq<Text>,
        >(Some(Step::LookForSocket)),
        following(path, parent, Step::LookForSocket, Outcome::No) == Ok::<
            Option<Step>,
            Seq<Text>,
        >(Some(Step::Bind)),
        following(path, parent, Step::LookForSocket, Outcome::Yes) == Ok::<
            Option<Step>,
            Seq<Text>,
        >(Some(Step::Connect)),
        forall|outcome: Outcome|
            !(outcome is Yes) ==> #[trigger] following(path, parent, Step::Connect, outcome) == Ok::<
                Option<Step>,
                Seq<Text>,
            >(Some(Step::InspectSocket)),
        following(path, parent, Step::InspectSocket, Outcome::Yes) == Ok::<
            Option<Step>,
            Seq<Text>,
        >(Some(Step::Remove)),
        following(path, parent, Step::Remove, Outcome::Yes) == Ok::<Option<Step>, Seq<Text>>(
            Some(Step::Bind),
        ),
        following(path, parent, Step::Bind, Outcome::Yes) == Ok::<Option<Step>, Seq<Text>>(
            Some(Step::SetMode(0o660)),
        ),
        following(path, parent, Step::SetMode(0o660), Outcome::Yes) == Ok::<
            Option<Step>,
            Seq<Text>,
        >(None),
{
}

/// The socket is held only after it was bound and its mode was set; a step that
/// fails ends the run, but for a connection that nobody takes.
pub proof fn sockets_are_held_when_bound(
    path: Text,
    parent: Text,
    steps: Seq<Step>,
    outcomes: Seq<Outcome>,
    step: Step,
    outcome: Outcome,
)
    requires
        is_run(path, parent, steps, outcomes),
        outcomes.len() >= steps.len(),
    ensures
        following(path, parent, steps.last(), outcomes[steps.len() - 1]) == Ok::<
            Option<Step>,
            Seq<Text>,
        >(None) ==> steps.len() >= 2 && steps.last() == Step::SetMode(0o660) && steps[steps.len()
            - 2] == Step::Bind && !(outcomes[steps.len() - 1] is Failed) && !(outcomes[steps.len()
            - 2] is Failed),
        outcome is Failed && step != Step::Connect ==> following(path, parent, step, outcome) is Err,
        following(path, parent, Step::Connect, Outcome::Yes) is Err,
{
    let n = steps.len() as int;
    if n > 1 {
        assert(following(path, parent, steps[n - 2], outcomes[n - 2]) == Ok::<
            Option<Step>,
            Seq<Text>,
        >(Some(steps[n - 1])));
    }
}

} // verus!
