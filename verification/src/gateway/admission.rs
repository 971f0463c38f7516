//! Who may open a link, and how often somebody may fail to.
use vstd::prelude::*;

use crate::clock;
use crate::config::SOCKET_DIR;
use crate::crypto;
use crate::db::model;
use crate::db::model::Tables;
use crate::db::rows::ClientView;
use crate::db::Database;
use crate::gateway;
use crate::gateway::links;
use crate::gateway::links::{Links, LinksModel};
use crate::gateway::{Body, BodyModel, Headers, HeadersModel, Reply, ReplyModel};
use crate::table::{Record, Table};
use crate::text;
use crate::text::Text;

verus! {

// ---------------------------------------------------------------------------
// Failures
// ---------------------------------------------------------------------------
/// How long a failure counts, in nanoseconds.
pub const FAILURE_WINDOW: u64 = 60_000_000_000;

/// How many failures are too many.
pub const MAX_FAILURES: usize = 5;

/// The failures of one address, the oldest first, in nanoseconds after an
/// arbitrary moment.
#[derive(Debug)]
pub struct Attempts {
    pub address: String,
    pub times: Vec<u64>,
}

/// The model of [`Attempts`].
pub struct AttemptsModel {
    pub address: Text,
    pub times: Seq<u64>,
}

impl View for Attempts {
    type V = AttemptsModel;

    open spec fn view(&self) -> AttemptsModel {
        AttemptsModel { address: self.address@, times: self.times@ }
    }
}

impl Record for Attempts {
    type Key = Text;

    open spec fn key(row: AttemptsModel) -> Text {
        row.address
    }
}

/// The failures by address.
pub type FailureTable = Map<Text, AttemptsModel>;

/// The failures of an address.
pub open spec fn failures_of(failures: FailureTable, address: Text) -> Seq<u64> {
    if failures.dom().contains(address) {
        failures[address].times
    } else {
        Seq::empty()
    }
}

/// The failures without those from the front that no longer count.
pub open spec fn recent(times: Seq<u64>, now: u64) -> Seq<u64>
    decreases times.len(),
{
    if times.len() > 0 && now - times[0] > FAILURE_WINDOW {
        recent(times.skip(1), now)
    } else {
        times
    }
}

/// The failures after those of an address were replaced.
pub open spec fn noted(failures: FailureTable, address: Text, times: Seq<u64>) -> FailureTable {
    failures.insert(address, AttemptsModel { address, times })
}

/// The failures after somebody asked whether an address is throttled: those that
/// no longer count are forgotten.
pub open spec fn looked_at(failures: FailureTable, address: Text, now: u64) -> FailureTable {
    noted(failures, address, recent(failures_of(failures, address), now))
}

/// Whether an address has failed too often.
pub open spec fn is_throttled(failures: FailureTable, address: Text, now: u64) -> bool {
    recent(failures_of(failures, address), now).len() >= MAX_FAILURES
}

/// The failures after an address failed once more.
pub open spec fn failed(failures: FailureTable, address: Text, now: u64) -> FailureTable {
    noted(failures, address, failures_of(failures, address).push(now))
}

/// Failures to open a link.
#[derive(Debug)]
pub struct Failures {
    table: Table<Attempts>,
}

impl View for Failures {
    type V = FailureTable;

    closed spec fn view(&self) -> FailureTable {
        self.table@
    }
}

fn find_attempts(table: &Table<Attempts>, address: &str) -> (r: Option<usize>)
    requires
        table.wf(),
    ensures
        match r {
            Some(i) => i < table.rows@.len() && table.rows@[i as int].address@ == address@
                && table@.dom().contains(address@) && table@[address@] == table.rows@[i as int]@,
            None => !table@.dom().contains(address@),
        },
{
    for i in 0..table.rows.len()
        invariant
            table.wf(),
            forall|k: int| 0 <= k < i ==> (#[trigger] table.rows@[k]).address@ != address@,
    {
        if text::same(table.rows[i].address.as_str(), address) {
            proof {
                table.lemma_row(i as int);
            }
            return Some(i);
        }
    }
    None
}

/// The failures that still count, one for one.
fn still_counting(times: &Vec<u64>, now: u64) -> (r: Vec<u64>)
    ensures
        r@ == recent(times@, now),
{
    let mut i: usize = 0;
    assert(times@.skip(0) =~= times@);
    while i < times.len() && now > times[i] && now - times[i] > FAILURE_WINDOW
        invariant
            i <= times@.len(),
            recent(times@, now) == recent(times@.skip(i as int), now),
        decreases times@.len() - i,
    {
        assert(times@.skip(i as int).skip(1) =~= times@.skip(i + 1));
        i = i + 1;
    }
    let mut r: Vec<u64> = Vec::new();
    for k in i..times.len()
        invariant
            i <= k,
            i <= times@.len(),
            r@ =~= times@.subrange(i as int, k as int),
    {
        r.push(times[k]);
    }
    assert(r@ =~= times@.skip(i as int));
    r
}

impl Failures {
    /// Every address is there once.
    pub closed spec fn wf(self) -> bool {
        self.table.wf()
    }

    /// No failures.
    pub fn new() -> (r: Failures)
        ensures
            r.wf(),
            r@ == Map::<Text, AttemptsModel>::empty(),
    {
        Failures { table: Table::new() }
    }

    fn note(&mut self, address: &str, times: Vec<u64>)
        requires
            old(self).wf(),
        ensures
            final(self).wf(),
            final(self)@ == noted(old(self)@, address@, times@),
    {
        let row = Attempts { address: address.to_string(), times };
        match find_attempts(&self.table, address) {
            Some(i) => self.table.replace(i, row),
            None => self.table.insert(row),
        }
    }

    /// Tells whether an address has failed too often, and forgets failures that
    /// no longer count.
    pub fn throttled(&mut self, address: &str, now: u64) -> (r: bool)
        requires
            old(self).wf(),
        ensures
            final(self).wf(),
            final(self)@ == looked_at(old(self)@, address@, now),
            r == is_throttled(old(self)@, address@, now),
    {
        let times = match find_attempts(&self.table, address) {
            Some(i) => still_counting(&self.table.rows[i].times, now),
            None => Vec::new(),
        };
        let r = times.len() >= MAX_FAILURES;
        self.note(address, times);
        r
    }

    /// Takes note that an address failed.
    pub fn record_failure(&mut self, address: &str, now: u64)
        requires
            old(self).wf(),
        ensures
            final(self).wf(),
            final(self)@ == failed(old(self)@, address@, now),
    {
        let mut times: Vec<u64> = Vec::new();
        if let Some(i) = find_attempts(&self.table, address) {
            let before = &self.table.rows[i].times;
            for k in 0..before.len()
                invariant
                    times@ == before@.take(k as int),
            {
                times.push(before[k]);
            }
            assert(before@.take(before@.len() as int) =~= before@);
        }
        times.push(now);
        self.note(address, times);
    }

    /// Forgets the failures of an address.
    pub fn forget(&mut self, address: &str)
        requires
            old(self).wf(),
        ensures
            final(self).wf(),
            final(self)@ == old(self)@.remove(address@),
    {
        match find_attempts(&self.table, address) {
            Some(i) => {
                self.table.remove(i);
            },
            None => {
                assert(self@ =~= old(self)@.remove(address@));
            },
        }
    }
}

/// Failures that all still count are kept.
proof fn lemma_recent_keeps(times: Seq<u64>, tail: Seq<u64>, now: u64)
    requires
        forall|i: int| 0 <= i < tail.len() ==> now - #[trigger] tail[i] <= FAILURE_WINDOW,
    ensures
        recent(times + tail, now).len() >= tail.len(),
    decreases times.len(),
{
    let all = times + tail;
    if times.len() > 0 {
        if now - all[0] > FAILURE_WINDOW {
            assert(all.skip(1) =~= times.skip(1) + tail);
            lemma_recent_keeps(times.skip(1), tail, now);
        }
    } else {
        assert(all =~= tail);
        if tail.len() > 0 {
            assert(all[0] == tail[0]);
        }
    }
}

/// The failures after a number of failures of an address.
pub open spec fn failed_often(failures: FailureTable, address: Text, at: Seq<u64>) -> FailureTable
    decreases at.len(),
{
    if at.len() == 0 {
        failures
    } else {
        failed(failed_often(failures, address, at.drop_last()), address, at.last())
    }
}

/// Five failures of an address that all still count throttle it, and other
/// addresses are as free as before.
pub proof fn failures_throttle_their_address(
    failures: FailureTable,
    address: Text,
    other: Text,
    at: Seq<u64>,
    now: u64,
)
    requires
        at.len() >= MAX_FAILURES,
        forall|i: int| 0 <= i < at.len() ==> now - #[trigger] at[i] <= FAILURE_WINDOW,
        other != address,
    ensures
        is_throttled(failed_often(failures, address, at), address, now),
        is_throttled(failed_often(failures, address, at), other, now) == is_throttled(
            failures,
            other,
            now,
        ),
{
    lemma_failed_often(failures, address, other, at);
    lemma_recent_keeps(failures_of(failures, address), at, now);
}

proof fn lemma_failed_often(failures: FailureTable, address: Text, other: Text, at: Seq<u64>)
    requires
        other != address,
    ensures
        failures_of(failed_often(failures, address, at), address) == failures_of(failures, address)
            + at,
        failures_of(failed_often(failures, address, at), other) == failures_of(failures, other),
    decreases at.len(),
{
    if at.len() > 0 {
        lemma_failed_often(failures, address, other, at.drop_last());
        assert(at =~= at.drop_last().push(at.last()));
        assert(failures_of(failures, address) + at =~= (failures_of(failures, address)
            + at.drop_last()).push(at.last()));
    } else {
        assert(failures_of(failures, address) + at =~= failures_of(failures, address));
    }
}

proof fn lemma_recent_drops(times: Seq<u64>, now: u64)
    requires
        forall|i: int| 0 <= i < times.len() ==> now - #[trigger] times[i] > FAILURE_WINDOW,
    ensures
        recent(times, now).len() == 0,
    decreases times.len(),
{
    if times.len() > 0 {
        assert(now - times[0] > FAILURE_WINDOW);
        assert forall|i: int| 0 <= i < times.skip(1).len() implies now - #[trigger] times.skip(1)[i]
            > FAILURE_WINDOW by {
            assert(times.skip(1)[i] == times[i + 1]);
        }
        lemma_recent_drops(times.skip(1), now);
    }
}

/// An address whose failures are all past counting is free.
pub proof fn throttling_ends(failures: FailureTable, address: Text, now: u64)
    requires
        forall|i: int|
            0 <= i < failures_of(failures, address).len() ==> now - #[trigger] failures_of(
                failures,
                address,
            )[i] > FAILURE_WINDOW,
    ensures
        !is_throttled(failures, address, now),
{
    lemma_recent_drops(failures_of(failures, address), now);
}

// ---------------------------------------------------------------------------
// Opening a link
// ---------------------------------------------------------------------------
/// The client that the code in a request opens a link for.
pub open spec fn linked(t: Tables, headers: HeadersModel, now: i64) -> Option<ClientView> {
    match gateway::bearer_of(headers) {
        Some(raw) => model::client_for(t, crypto::normalized_code(raw), now),
        None => None,
    }
}

/// What the wish to open a link does to the failures and the links, and what
/// comes of it: the name and the code of the client, or the refusal. `instant`
/// is the time on the clock of the failures.
pub open spec fn link_asked(
    t: Tables,
    l: LinksModel,
    failures: FailureTable,
    headers: HeadersModel,
    now: i64,
    instant: u64,
) -> (LinksModel, FailureTable, Result<(Text, Text), ReplyModel>) {
    let address = gateway::address_of(headers);
    let seen = looked_at(failures, address, instant);
    if is_throttled(failures, address, instant) {
        (
            l,
            seen,
            Err(
                gateway::answered(429, BodyModel::Plain("Too many failed connection attempts"@)),
            ),
        )
    } else {
        match linked(t, headers, now) {
            None => (l, failed(seen, address, instant), Err(gateway::bare(401))),
            Some(client) => if links::admissible(l, client.name) {
                (
                    links::admitted(l, client.name),
                    seen.remove(address),
                    Ok((client.name, crypto::normalized_code(gateway::bearer_of(headers)->0))),
                )
            } else {
                (
                    l,
                    seen.remove(address),
                    Err(gateway::answered(409, BodyModel::Plain("Client is already connected"@))),
                )
            },
        }
    }
}

pub open spec fn link_view(r: Result<(String, String), Reply>) -> Result<(Text, Text), ReplyModel> {
    match r {
        Ok((name, code)) => Ok((name@, code@)),
        Err(reply) => Err(reply@),
    }
}

/// Answers the wish to open a link at a given time.
pub fn link_at(
    db: &Database,
    links: &mut Links,
    failures: &mut Failures,
    headers: &Headers,
    now: i64,
    instant: u64,
) -> (r: Result<(String, String), Reply>)
    requires
        db.wf(),
        old(links).wf(),
        old(failures).wf(),
    ensures
        final(links).wf(),
        final(failures).wf(),
        (final(links)@, final(failures)@, link_view(r)) == link_asked(
            db@,
            old(links)@,
            old(failures)@,
            headers@,
            now,
            instant,
        ),
{
    let address = gateway::client_ip(headers);
    if failures.throttled(address.as_str(), instant) {
        return Err(
            gateway::reply(429, Body::Plain("Too many failed connection attempts".to_string())),
        );
    }
    let raw = match gateway::bearer(headers) {
        None => {
            failures.record_failure(address.as_str(), instant);
            return Err(gateway::status_only(401));
        },
        Some(raw) => raw,
    };
    let code = crypto::normalize_code(raw.as_str());
    let client = match db.client_for_code_at(code.as_str(), now) {
        None => {
            failures.record_failure(address.as_str(), instant);
            return Err(gateway::status_only(401));
        },
        Some(client) => client,
    };
    failures.forget(address.as_str());
    if links.let_in(client.name.as_str()) {
        Ok((client.name, code))
    } else {
        Err(gateway::reply(409, Body::Plain("Client is already connected".to_string())))
    }
}

/// Answers the wish to open a link.
pub fn link(
    db: &Database,
    links: &mut Links,
    failures: &mut Failures,
    headers: &Headers,
    instant: u64,
) -> (r: Result<(String, String), Reply>)
    requires
        db.wf(),
        old(links).wf(),
        old(failures).wf(),
    ensures
        final(links).wf(),
        final(failures).wf(),
        exists|now: i64|
            clock::readable(now) && (final(links)@, final(failures)@, link_view(r))
                == #[trigger] link_asked(
                db@,
                old(links)@,
                old(failures)@,
                headers@,
                now,
                instant,
            ),
{
    let now = clock::now();
    link_at(db, links, failures, headers, now, instant)
}

/// Whether a code still opens links for a client.
pub open spec fn still_opens(t: Tables, name: Text, code: Text, now: i64) -> bool {
    match model::client_for(t, code, now) {
        Some(client) => client.name == name,
        None => false,
    }
}

/// Tells whether the code of a client that has answered on its link still opens
/// links for it, at a given time.
pub fn code_opens_at(db: &Database, name: &str, code: &str, now: i64) -> (r: bool)
    requires
        db.wf(),
    ensures
        r == still_opens(db@, name@, code@, now),
{
    match db.client_for_code_at(code, now) {
        Some(client) => text::same(client.name.as_str(), name),
        None => false,
    }
}

/// The socket on which the tools of a client are offered on this machine.
pub open spec fn channel(name: Text) -> Text {
    SOCKET_DIR@ + "/"@ + name + ".sock"@
}

/// The socket on which the tools of a client are offered on this machine.
pub fn channel_path(name: &str) -> (r: String)
    ensures
        r@ == channel(name@),
{
    let mut path = SOCKET_DIR.to_string();
    path.append("/");
    path.append(name);
    path.append(".sock");
    path
}

} // verus!
