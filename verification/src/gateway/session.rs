//! The life of a link, from its admission to its end.
use vstd::prelude::*;

use crate::clock;
use crate::crypto;
use crate::db::model::Tables;
use crate::db::Database;
use crate::failure::Failure;
use crate::gateway::admission;
use crate::gateway::links;
use crate::gateway::links::{Links, LinksModel};
use crate::mcp::{ClientEnvironment, EnvironmentModel};
use crate::text::Text;

verus! {

/// How far a link has come.
#[derive(Debug, Clone, Copy, PartialEq, Eq, Structural)]
pub enum Phase {
    /// The machine is to say what it is.
    Initializing,
    /// Its code is to be looked up once more.
    Checking,
    /// Its channel is to be opened on this machine.
    Binding,
    /// It answers calls.
    Serving,
    /// The link is to be closed.
    Over,
}

/// A link.
#[derive(Debug)]
pub struct Session {
    pub name: String,
    pub code: String,
    pub connection_id: String,
    pub environment: Option<ClientEnvironment>,
    pub phase: Phase,
    pub failure: Failure,
}

/// The model of [`Session`].
pub struct SessionModel {
    pub name: Text,
    pub code: Text,
    pub connection_id: Text,
    pub environment: Option<EnvironmentModel>,
    pub phase: Phase,
    pub failure: Seq<Text>,
}

impl View for Session {
    type V = SessionModel;

    open spec fn view(&self) -> SessionModel {
        SessionModel {
            name: self.name@,
            code: self.code@,
            connection_id: self.connection_id@,
            environment: match self.environment {
                Some(environment) => Some(environment@),
                None => None,
            },
            phase: self.phase,
            failure: self.failure@,
        }
    }
}

/// The link of a client that has just been let in.
pub open spec fn opened(name: Text, code: Text) -> SessionModel {
    SessionModel {
        name,
        code,
        connection_id: Seq::empty(),
        environment: None,
        phase: Phase::Initializing,
        failure: Seq::empty(),
    }
}

/// The link after the machine has said what it is, or has not.
pub open spec fn introduced(
    s: SessionModel,
    said: Result<Option<EnvironmentModel>, Text>,
) -> SessionModel {
    match said {
        Ok(Some(environment)) => SessionModel {
            environment: Some(environment),
            phase: Phase::Checking,
            ..s
        },
        Ok(None) => SessionModel {
            phase: Phase::Over,
            failure: seq!["client did not report its system and shell"@],
            ..s
        },
        Err(e) => SessionModel {
            phase: Phase::Over,
            failure: seq!["initialize client MCP"@, e],
            ..s
        },
    }
}

/// The link after its code was looked up once more.
pub open spec fn rechecked(s: SessionModel, t: Tables, now: i64) -> SessionModel {
    SessionModel {
        phase: if admission::still_opens(t, s.name, s.code, now) {
            Phase::Binding
        } else {
            Phase::Over
        },
        ..s
    }
}

/// The link and the links after its channel was opened, or was not.
pub open spec fn connected(
    s: SessionModel,
    l: LinksModel,
    bound: Result<(), Seq<Text>>,
    connection_id: Text,
) -> (SessionModel, LinksModel) {
    match (bound, s.environment) {
        (Ok(()), Some(environment)) => (
            SessionModel { connection_id, phase: Phase::Serving, ..s },
            links::established(l, s.name, connection_id, environment),
        ),
        (Ok(()), None) => (SessionModel { phase: Phase::Over, ..s }, l),
        (Err(failure), _) => (SessionModel { phase: Phase::Over, failure, ..s }, l),
    }
}

/// The link and the links after the link ended.
pub open spec fn disconnected(s: SessionModel, l: LinksModel, end: Result<(), Text>) -> (
    SessionModel,
    LinksModel,
) {
    (
        SessionModel {
            phase: Phase::Over,
            failure: match end {
                Ok(()) => s.failure,
                Err(e) => seq!["client MCP task"@, e],
            },
            ..s
        },
        links::disestablished(l, s.name, s.connection_id),
    )
}

pub open spec fn said_model(said: Result<Option<ClientEnvironment>, String>) -> Result<
    Option<EnvironmentModel>,
    Text,
> {
    match said {
        Ok(Some(environment)) => Ok(Some(environment@)),
        Ok(None) => Ok(None),
        Err(e) => Err(e@),
    }
}

pub open spec fn bound_model(bound: Result<(), Failure>) -> Result<(), Seq<Text>> {
    match bound {
        Ok(()) => Ok(()),
        Err(failure) => Err(failure@),
    }
}

pub open spec fn end_model(end: Result<(), String>) -> Result<(), Text> {
    match end {
        Ok(()) => Ok(()),
        Err(e) => Err(e@),
    }
}

impl Session {
    /// The link of a client that has just been let in.
    pub fn open(name: String, code: String) -> (r: Session)
        ensures
            r@ == opened(name@, code@),
    {
        let r = Session {
            name,
            code,
            connection_id: "".to_string(),
            environment: None,
            phase: Phase::Initializing,
            failure: Failure { messages: Vec::new() },
        };
        proof {
            reveal_strlit("");
            assert(r@.connection_id =~= Seq::empty());
            assert(r@.failure =~= Seq::empty());
        }
        r
    }

    /// Takes note of what the machine says of itself.
    pub fn introduce(&mut self, said: Result<Option<ClientEnvironment>, String>)
        requires
            old(self).phase == Phase::Initializing,
        ensures
            final(self)@ == introduced(old(self)@, said_model(said)),
    {
        match said {
            Ok(Some(environment)) => {
                self.environment = Some(environment);
                self.phase = Phase::Checking;
            },
            Ok(None) => {
                self.failure = Failure::new(
                    "client did not report its system and shell".to_string(),
                );
                self.phase = Phase::Over;
            },
            Err(e) => {
                self.failure = Failure::because("initialize client MCP".to_string(), e.as_str());
                self.phase = Phase::Over;
            },
        }
    }

    /// Looks the code up once more, at a given time.
    pub fn recheck_at(&mut self, db: &Database, now: i64)
        requires
            old(self).phase == Phase::Checking,
            db.wf(),
        ensures
            final(self)@ == rechecked(old(self)@, db@, now),
    {
        if admission::code_opens_at(db, self.name.as_str(), self.code.as_str(), now) {
            self.phase = Phase::Binding;
        } else {
            self.phase = Phase::Over;
        }
    }

    /// Looks the code up once more.
    pub fn recheck(&mut self, db: &Database)
        requires
            old(self).phase == Phase::Checking,
            db.wf(),
        ensures
            exists|now: i64|
                clock::readable(now) && final(self)@ == #[trigger] rechecked(old(self)@, db@, now),
    {
        let now = clock::now();
        self.recheck_at(db, now);
    }

    /// Takes note that the channel is open, or why it is not, with an identifier
    /// for the connection at hand.
    pub fn connect_with(
        &mut self,
        links: &mut Links,
        bound: Result<(), Failure>,
        connection_id: String,
    )
        requires
            old(self).phase == Phase::Binding,
            old(links).wf(),
        ensures
            final(links).wf(),
            (final(self)@, final(links)@) == connected(
                old(self)@,
                old(links)@,
                bound_model(bound),
                connection_id@,
            ),
    {
        match bound {
            Ok(()) => {
                match &self.environment {
                    Some(environment) => {
                        links.establish(
                            self.name.as_str(),
                            connection_id.as_str(),
                            environment.copy(),
                        );
                        self.connection_id = connection_id;
                        self.phase = Phase::Serving;
                    },
                    None => {
                        self.phase = Phase::Over;
                    },
                }
            },
            Err(failure) => {
                self.failure = failure;
                self.phase = Phase::Over;
            },
        }
    }

    /// Takes note that the channel is open, or why it is not.
    pub fn connect(&mut self, links: &mut Links, bound: Result<(), Failure>)
        requires
            old(self).phase == Phase::Binding,
            old(links).wf(),
        ensures
            final(links).wf(),
            exists|id: Text|
                crypto::token_shaped(id) && (final(self)@, final(links)@) == #[trigger] connected(
                    old(self)@,
                    old(links)@,
                    bound_model(bound),
                    id,
                ),
    {
        let id = crypto::random_token();
        self.connect_with(links, bound, id);
    }

    /// Takes note that the link ended.
    pub fn disconnect(&mut self, links: &mut Links, end: Result<(), String>)
        requires
            old(self).phase == Phase::Serving,
            old(links).wf(),
        ensures
            final(links).wf(),
            (final(self)@, final(links)@) == disconnected(
                old(self)@,
                old(links)@,
                end_model(end),
            ),
    {
        links.disestablish(self.name.as_str(), self.connection_id.as_str());
        if let Err(e) = end {
            self.failure = Failure::because("client MCP task".to_string(), e.as_str());
        }
        self.phase = Phase::Over;
    }

    /// Makes room for another link of the client, and tells what went wrong.
    pub fn close(self, links: &mut Links) -> (r: Option<Failure>)
        requires
            self.phase == Phase::Over,
            old(links).wf(),
        ensures
            final(links).wf(),
            final(links)@ == links::left(old(links)@, self@.name),
            match r {
                Some(failure) => self@.failure.len() > 0 && failure@ == self@.failure,
                None => self@.failure.len() == 0,
            },
    {
        links.leave(self.name.as_str());
        if self.failure.messages.len() == 0 {
            None
        } else {
            Some(self.failure)
        }
    }
}

/// A machine answers calls only under a code that still opened links when it was
/// looked up the last time, and only after it has said what it is.
pub proof fn machines_serve_under_a_live_code(
    name: Text,
    code: Text,
    said: Result<Option<EnvironmentModel>, Text>,
    t: Tables,
    now: i64,
    l: LinksModel,
    bound: Result<(), Seq<Text>>,
    connection_id: Text,
)
    requires
        introduced(opened(name, code), said).phase == Phase::Checking,
        rechecked(introduced(opened(name, code), said), t, now).phase == Phase::Binding,
    ensures
        admission::still_opens(t, name, code, now),
        ({
            let s = rechecked(introduced(opened(name, code), said), t, now);
            let (next, next_links) = connected(s, l, bound, connection_id);
            &&& next.phase == Phase::Serving ==> bound is Ok && next_links.live.dom().contains(name)
                && next_links.live[name].environment == said->Ok_0->0
            &&& next.phase != Phase::Serving ==> next_links == l
        }),
{
}

/// A link that has ended leaves nothing behind: the client is not online any
/// more and may open another link. A connection that came after it stays.
pub proof fn ended_links_leave_nothing(s: SessionModel, l: LinksModel, end: Result<(), Text>)
    ensures
        ({
            let (next, next_links) = disconnected(s, l, end);
            let gone = links::left(next_links, s.name);
            &&& next.phase == Phase::Over
            &&& l.live.dom().contains(s.name) && l.live[s.name].connection_id == s.connection_id
                ==> links::admissible(gone, s.name)
            &&& l.live.dom().contains(s.name) && l.live[s.name].connection_id != s.connection_id
                ==> gone.live == l.live
        }),
{
}

/// A machine that says what it is, whose code still opens links and whose
/// channel could be opened serves calls, and is live with what it has said.
/// Otherwise its link is over, and it is not live through it.
pub proof fn sound_machines_serve(
    name: Text,
    code: Text,
    said: Result<Option<EnvironmentModel>, Text>,
    t: Tables,
    now: i64,
    l: LinksModel,
    bound: Result<(), Seq<Text>>,
    connection_id: Text,
)
    ensures
        ({
            let first = opened(name, code);
            let second = introduced(first, said);
            let third = rechecked(second, t, now);
            let (fourth, links) = connected(third, l, bound, connection_id);
            &&& first.phase == Phase::Initializing
            &&& first.name == name && first.code == code && first.failure.len() == 0
            &&& second.phase == Phase::Checking <==> said is Ok && said->Ok_0 is Some
            &&& second.phase == Phase::Checking || second.phase == Phase::Over
            &&& second.phase == Phase::Over ==> second.failure.len() > 0
            &&& third.phase == Phase::Binding <==> admission::still_opens(t, name, code, now)
            &&& third.phase == Phase::Binding || third.phase == Phase::Over
            &&& second.phase == Phase::Checking && third.phase == Phase::Binding && bound is Ok ==> {
                &&& fourth.phase == Phase::Serving
                &&& fourth.connection_id == connection_id
                &&& links.live.dom().contains(name)
                &&& links.live[name].connection_id == connection_id
                &&& Ok::<Option<EnvironmentModel>, Text>(Some(links.live[name].environment)) == said
                &&& links.pending == l.pending
            }
            &&& bound is Err ==> fourth.phase == Phase::Over && fourth.failure == bound->Err_0
                && links == l
        }),
{
}

/// A code still opens links for a client exactly while the client has it and is
/// neither revoked nor expired.
pub proof fn links_last_as_long_as_the_code(t: Tables, name: Text, code: Text, now: i64)
    requires
        crate::db::model::consistent(t),
    ensures
        admission::still_opens(t, name, code, now) <==> t.clients.dom().contains(name)
            && t.clients[name].code == code && t.clients[name].revoked_at is None && now
            < t.clients[name].expires_at,
{
    crate::db::laws::links_open_for_the_owner_of_the_code(t, code, now);
    if t.clients.dom().contains(name) && t.clients[name].code == code && t.clients[name].revoked_at
        is None && now < t.clients[name].expires_at {
        crate::db::laws::codes_open_for_live_clients(t, name, now);
    }
}

/// Why a link ended is told: that the machine did not say what it is, that it
/// could not be asked, or that its task failed. A link that ended well has
/// nothing to tell.
pub proof fn ended_links_tell_why(s: SessionModel, l: LinksModel, e: Text)
    ensures
        introduced(s, Ok(None)).phase == Phase::Over,
        introduced(s, Ok(None)).failure == seq!["client did not report its system and shell"@],
        introduced(s, Err(e)).phase == Phase::Over,
        introduced(s, Err(e)).failure == seq!["initialize client MCP"@, e],
        disconnected(s, l, Err(e)).0.failure == seq!["client MCP task"@, e],
        disconnected(s, l, Ok(())).0.failure == s.failure,
        disconnected(s, l, Ok(())).0.phase == Phase::Over,
        disconnected(s, l, Err(e)).0.phase == Phase::Over,
{
}

} // verus!
