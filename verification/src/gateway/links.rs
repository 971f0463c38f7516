//! The links of machines: who may open one, which are open, and how often
//! somebody may fail.
use vstd::prelude::*;

use crate::mcp;
use crate::mcp::{ClientEnvironment, ClientSummary, EnvironmentModel, LiveClient, LiveModel, SummaryModel};
use crate::table;
use crate::table::{Record, Table};
use crate::text;
use crate::text::Text;

verus! {

// ---------------------------------------------------------------------------
// Open links
// ---------------------------------------------------------------------------
impl Record for LiveClient {
    type Key = Text;

    open spec fn key(row: LiveModel) -> Text {
        row.name
    }
}

/// The links that are being opened or open, and the clients that answer.
#[derive(Debug)]
pub struct Links {
    pending: Vec<String>,
    live: Table<LiveClient>,
}

/// The model of [`Links`].
pub struct LinksModel {
    pub pending: Set<Text>,
    pub live: Map<Text, LiveModel>,
}

impl View for Links {
    type V = LinksModel;

    closed spec fn view(&self) -> LinksModel {
        LinksModel { pending: text::strings(self.pending@).to_set(), live: self.live@ }
    }
}

/// Whether a client may open a link: it has none, and is not opening one.
pub open spec fn admissible(links: LinksModel, name: Text) -> bool {
    !links.live.dom().contains(name) && !links.pending.contains(name)
}

/// The links after a client was admitted.
pub open spec fn admitted(links: LinksModel, name: Text) -> LinksModel {
    LinksModel { pending: links.pending.insert(name), ..links }
}

/// The links after a session ended.
pub open spec fn left(links: LinksModel, name: Text) -> LinksModel {
    LinksModel { pending: links.pending.remove(name), ..links }
}

/// The links after a client answered.
pub open spec fn established(
    links: LinksModel,
    name: Text,
    connection_id: Text,
    environment: EnvironmentModel,
) -> LinksModel {
    LinksModel {
        live: links.live.insert(name, LiveModel { name, connection_id, environment }),
        ..links
    }
}

/// The links after the connection of a client ended; another connection of the
/// same client stays.
pub open spec fn disestablished(links: LinksModel, name: Text, connection_id: Text) -> LinksModel {
    if links.live.dom().contains(name) && links.live[name].connection_id == connection_id {
        LinksModel { live: links.live.remove(name), ..links }
    } else {
        links
    }
}

/// The links after a client was cut off.
pub open spec fn cut(links: LinksModel, name: Text) -> LinksModel {
    LinksModel { live: links.live.remove(name), ..links }
}

/// Whether a list shows every live client once, by name.
pub open spec fn all_listed(live: Map<Text, LiveModel>, list: Seq<SummaryModel>) -> bool {
    &&& forall|i: int, j: int|
        0 <= i < j < list.len() ==> text::before(list[i].name, list[j].name)
    &&& forall|i: int|
        0 <= i < list.len() ==> live.dom().contains((#[trigger] list[i]).name) && list[i]
            == mcp::summarized(live[list[i].name])
    &&& forall|name: Text| #[trigger]
        live.dom().contains(name) ==> exists|i: int|
            0 <= i < list.len() && (#[trigger] list[i]).name == name
}

pub open spec fn summaries(v: Seq<ClientSummary>) -> Seq<SummaryModel> {
    v.map_values(|s: ClientSummary| s@)
}

fn position(names: &Vec<String>, name: &str) -> (r: Option<usize>)
    ensures
        match r {
            Some(i) => i < names@.len() && names@[i as int]@ == name@ && text::strings(
                names@,
            ).to_set().contains(name@),
            None => !text::strings(names@).to_set().contains(name@),
        },
{
    for i in 0..names.len()
        invariant
            forall|k: int| 0 <= k < i ==> (#[trigger] names@[k])@ != name@,
    {
        if text::same(names[i].as_str(), name) {
            assert(text::strings(names@)[i as int] == name@);
            return Some(i);
        }
    }
    assert(!text::strings(names@).contains(name@)) by {
        if text::strings(names@).contains(name@) {
            let k = choose|k: int|
                0 <= k < text::strings(names@).len() && text::strings(names@)[k] == name@;
            assert(names@[k]@ == name@);
        }
    }
    None
}

fn find_live(table: &Table<LiveClient>, name: &str) -> (r: Option<usize>)
    requires
        table.wf(),
    ensures
        match r {
            Some(i) => i < table.rows@.len() && table.rows@[i as int].name@ == name@
                && table@.dom().contains(name@) && table@[name@] == table.rows@[i as int]@,
            None => !table@.dom().contains(name@),
        },
{
    for i in 0..table.rows.len()
        invariant
            table.wf(),
            forall|k: int| 0 <= k < i ==> (#[trigger] table.rows@[k]).name@ != name@,
    {
        if text::same(table.rows[i].name.as_str(), name) {
            proof {
                table.lemma_row(i as int);
            }
            return Some(i);
        }
    }
    None
}

fn put_summary(list: &mut Vec<ClientSummary>, new: ClientSummary) -> (p: usize)
    requires
        forall|i: int, j: int|
            0 <= i < j < old(list)@.len() ==> text::before(
                (#[trigger] old(list)@[i])@.name,
                (#[trigger] old(list)@[j])@.name,
            ),
        forall|i: int| 0 <= i < old(list)@.len() ==> (#[trigger] old(list)@[i])@.name != new@.name,
    ensures
        forall|i: int, j: int|
            0 <= i < j < final(list)@.len() ==> text::before(
                (#[trigger] final(list)@[i])@.name,
                (#[trigger] final(list)@[j])@.name,
            ),
        p <= old(list)@.len(),
        final(list)@ == old(list)@.insert(p as int, new),
{
    let mut p: usize = 0;
    while p < list.len() && text::less(list[p].name.as_str(), new.name.as_str())
        invariant
            p <= list@.len(),
            list@ == old(list)@,
            forall|i: int| 0 <= i < p ==> text::before((#[trigger] list@[i])@.name, new@.name),
        decreases list@.len() - p,
    {
        p = p + 1;
    }
    let ghost before = list@;
    list.insert(p, new);
    proof {
        assert forall|i: int, j: int| 0 <= i < j < list@.len() implies text::before(
            (#[trigger] list@[i])@.name,
            (#[trigger] list@[j])@.name,
        ) by {
            if i < p && j < p {
                assert(list@[i] == before[i] && list@[j] == before[j]);
            } else if i < p && j == p {
                assert(list@[i] == before[i]);
            } else if i < p {
                assert(list@[i] == before[i] && list@[j] == before[j - 1]);
            } else if i == p {
                let next = before[p as int]@.name;
                assert(list@[j] == before[j - 1]);
                text::lemma_before_total(next, new@.name);
                if j - 1 > p {
                    assert(text::before(next, before[j - 1]@.name));
                    text::lemma_before_order(new@.name, next, before[j - 1]@.name);
                }
            } else {
                assert(list@[i] == before[i - 1] && list@[j] == before[j - 1]);
            }
        }
    }
    p
}

proof fn lemma_inserted(s: Seq<int>, p: int, new: int, k: int)
    requires
        0 <= p <= s.len(),
        k == new || s.contains(k),
    ensures
        s.insert(p, new).contains(k),
{
    let t = s.insert(p, new);
    if k == new {
        assert(t[p] == new);
    } else {
        let a = choose|a: int| 0 <= a < s.len() && s[a] == k;
        assert(t[if a < p {
            a
        } else {
            a + 1
        }] == k);
    }
}

impl Links {
    /// Every open link belongs to one client, and no name is pending twice.
    pub closed spec fn wf(self) -> bool {
        self.live.wf() && text::strings(self.pending@).no_duplicates()
    }

    /// No links.
    pub fn new() -> (r: Links)
        ensures
            r.wf(),
            r@.pending == Set::<Text>::empty(),
            r@.live == Map::<Text, LiveModel>::empty(),
    {
        let r = Links { pending: Vec::new(), live: Table::new() };
        assert(r@.pending =~= Set::empty());
        r
    }

    /// Admits a client that has no link and is not opening one.
    pub fn let_in(&mut self, name: &str) -> (r: bool)
        requires
            old(self).wf(),
        ensures
            final(self).wf(),
            r == admissible(old(self)@, name@),
            final(self)@ == (if r {
                admitted(old(self)@, name@)
            } else {
                old(self)@
            }),
    {
        if find_live(&self.live, name).is_some() || position(&self.pending, name).is_some() {
            return false;
        }
        let ghost before = self.pending@;
        self.pending.push(name.to_string());
        proof {
            let b = text::strings(before);
            let a = text::strings(self.pending@);
            assert(a =~= b.push(name@));
            assert(!b.contains(name@));
            assert(a.to_set() =~= b.to_set().insert(name@)) by {
                assert forall|n: Text| a.contains(n) == (b.contains(n) || n == name@) by {
                    if n == name@ {
                        assert(a[b.len() as int] == n);
                    }
                    if b.contains(n) {
                        let k = choose|k: int| 0 <= k < b.len() && b[k] == n;
                        assert(a[k] == n);
                    }
                    if a.contains(n) {
                        let k = choose|k: int| 0 <= k < a.len() && a[k] == n;
                        if k < b.len() {
                            assert(b[k] == n);
                        }
                    }
                }
            }
        }
        true
    }

    /// Takes note that a session ended.
    pub fn leave(&mut self, name: &str)
        requires
            old(self).wf(),
        ensures
            final(self).wf(),
            final(self)@ == left(old(self)@, name@),
    {
        if let Some(i) = position(&self.pending, name) {
            let ghost b = text::strings(self.pending@);
            self.pending.remove(i);
            proof {
                let a = text::strings(self.pending@);
                assert(a =~= b.remove(i as int));
                assert forall|n: Text| a.contains(n) == (b.contains(n) && n != name@) by {
                    if a.contains(n) {
                        let k = choose|k: int| 0 <= k < a.len() && a[k] == n;
                        let o = if k < i {
                            k
                        } else {
                            k + 1
                        };
                        assert(b[o] == n);
                        assert(b[i as int] == name@);
                    }
                    if b.contains(n) && n != name@ {
                        let o = choose|o: int| 0 <= o < b.len() && b[o] == n;
                        let k = if o < i {
                            o
                        } else {
                            o - 1
                        };
                        assert(a[k] == n);
                    }
                }
                assert(a.to_set() =~= b.to_set().remove(name@));
            }
        } else {
            assert(self@.pending =~= old(self)@.pending.remove(name@));
        }
    }

    /// Takes note that a client answered on its link.
    pub fn establish(&mut self, name: &str, connection_id: &str, environment: ClientEnvironment)
        requires
            old(self).wf(),
        ensures
            final(self).wf(),
            final(self)@ == established(old(self)@, name@, connection_id@, environment@),
    {
        let client = LiveClient {
            name: name.to_string(),
            connection_id: connection_id.to_string(),
            environment,
        };
        match find_live(&self.live, name) {
            Some(i) => self.live.replace(i, client),
            None => self.live.insert(client),
        }
    }

    /// Takes note that a connection ended.
    pub fn disestablish(&mut self, name: &str, connection_id: &str)
        requires
            old(self).wf(),
        ensures
            final(self).wf(),
            final(self)@ == disestablished(old(self)@, name@, connection_id@),
    {
        if let Some(i) = find_live(&self.live, name) {
            if text::same(self.live.rows[i].connection_id.as_str(), connection_id) {
                self.live.remove(i);
            }
        }
    }

    /// Cuts a client off, and tells whether it had an open link.
    pub fn cut_off(&mut self, name: &str) -> (r: bool)
        requires
            old(self).wf(),
        ensures
            final(self).wf(),
            final(self)@ == cut(old(self)@, name@),
            r == old(self)@.live.dom().contains(name@),
    {
        match find_live(&self.live, name) {
            Some(i) => {
                self.live.remove(i);
                true
            },
            None => {
                assert(self@.live =~= old(self)@.live.remove(name@));
                false
            },
        }
    }

    /// Tells whether a client has an open link.
    pub fn is_live(&self, name: &str) -> (r: bool)
        requires
            self.wf(),
        ensures
            r == self@.live.dom().contains(name@),
    {
        find_live(&self.live, name).is_some()
    }

    /// How many clients have an open link.
    pub fn count(&self) -> (r: usize)
        requires
            self.wf(),
        ensures
            r == self@.live.dom().len(),
            self@.live.dom().finite(),
    {
        proof {
            self.live.lemma_count();
        }
        self.live.rows.len()
    }

    /// Every live client once, by name.
    pub fn list(&self) -> (r: Vec<ClientSummary>)
        requires
            self.wf(),
        ensures
            all_listed(self@.live, summaries(r@)),
    {
        let table = &self.live;
        let mut list: Vec<ClientSummary> = Vec::new();
        let ghost mut from: Seq<int> = Seq::empty();
        for i in 0..table.rows.len()
            invariant
                table.wf(),
                from.len() == list@.len(),
                forall|a: int, b: int|
                    0 <= a < b < list@.len() ==> text::before(
                        (#[trigger] list@[a])@.name,
                        (#[trigger] list@[b])@.name,
                    ),
                forall|a: int|
                    0 <= a < list@.len() ==> 0 <= #[trigger] from[a] < i && list@[a]@
                        == mcp::summarized(table.rows@[from[a]]@),
                forall|k: int| 0 <= k < i ==> #[trigger] from.contains(k),
        {
            let summary = mcp::summarize(&table.rows[i]);
            let ghost before = from;
            assert forall|a: int| 0 <= a < list@.len() implies (#[trigger] list@[a])@.name
                != summary@.name by {
                let k = from[a];
                assert(table.rows@[k]@.name != table.rows@[i as int]@.name);
            }
            let p = put_summary(&mut list, summary);
            proof {
                from = before.insert(p as int, i as int);
                assert forall|k: int| 0 <= k < i + 1 implies #[trigger] from.contains(k) by {
                    lemma_inserted(before, p as int, i as int, k);
                }
            }
        }
        proof {
            let views = summaries(list@);
            assert forall|a: int| 0 <= a < views.len() implies self@.live.dom().contains(
                (#[trigger] views[a]).name,
            ) && views[a] == mcp::summarized(self@.live[views[a].name]) by {
                assert(views[a] == list@[a]@);
                table.lemma_row(from[a]);
            }
            assert forall|name: Text| #[trigger] self@.live.dom().contains(name) implies exists|
                a: int,
            |
                0 <= a < views.len() && (#[trigger] views[a]).name == name by {
                let k = choose|k: int| table::has_key(table.rows@, name, k);
                assert(from.contains(k));
                let a = choose|a: int| 0 <= a < from.len() && from[a] == k;
                assert(views[a] == list@[a]@);
            }
        }
        list
    }
}

/// The links determine the list of live clients.
pub proof fn live_clients_are_listed_in_one_way(
    live: Map<Text, LiveModel>,
    a: Seq<SummaryModel>,
    b: Seq<SummaryModel>,
)
    requires
        all_listed(live, a),
        all_listed(live, b),
    ensures
        a == b,
{
    let less = |x: SummaryModel, y: SummaryModel| text::before(x.name, y.name);
    assert forall|x: SummaryModel, y: SummaryModel| #[trigger] less(x, y) implies !less(y, x) by {
        text::lemma_before_order(x.name, y.name, x.name);
    }
    assert forall|v: SummaryModel| #[trigger] a.contains(v) <==> b.contains(v) by {
        if a.contains(v) {
            let i = choose|i: int| 0 <= i < a.len() && a[i] == v;
            assert(live.dom().contains(a[i].name));
            let j = choose|j: int| 0 <= j < b.len() && (#[trigger] b[j]).name == v.name;
            assert(b[j] == v);
        }
        if b.contains(v) {
            let i = choose|i: int| 0 <= i < b.len() && b[i] == v;
            assert(live.dom().contains(b[i].name));
            let j = choose|j: int| 0 <= j < a.len() && (#[trigger] a[j]).name == v.name;
            assert(a[j] == v);
        }
    }
    table::lemma_one_order(a, b, less);
}

/// A client that was admitted is not admitted again before its session ends,
/// whatever other clients do: it has one link at most.
pub proof fn one_link_for_each_client(
    links: LinksModel,
    name: Text,
    other: Text,
    connection_id: Text,
    environment: EnvironmentModel,
)
    requires
        links.pending.contains(name),
        other != name,
    ensures
        !admissible(links, name),
        admitted(links, other).pending.contains(name),
        left(links, other).pending.contains(name),
        established(links, name, connection_id, environment).pending.contains(name),
        established(links, other, connection_id, environment).pending.contains(name),
        disestablished(links, name, connection_id).pending.contains(name),
        disestablished(links, other, connection_id).pending.contains(name),
        cut(links, name).pending.contains(name),
        cut(links, other).pending.contains(name),
{
}

/// A client that answers is live with its connection and what it says of itself;
/// when that connection ends it is not, unless another one has come; no other
/// client is touched by either.
pub proof fn answering_clients_are_live(
    links: LinksModel,
    name: Text,
    connection_id: Text,
    environment: EnvironmentModel,
    other: Text,
    later: Text,
)
    requires
        other != name,
        later != connection_id,
    ensures
        ({
            let next = established(links, name, connection_id, environment);
            let gone = disestablished(next, name, connection_id);
            &&& next.live.dom() =~= links.live.dom().insert(name)
            &&& next.live[name].name == name
            &&& next.live[name].connection_id == connection_id
            &&& next.live[name].environment == environment
            &&& next.pending == links.pending
            &&& links.live.dom().contains(other) ==> next.live[other] == links.live[other]
            &&& !gone.live.dom().contains(name)
            &&& gone.live.dom().contains(other) == links.live.dom().contains(other)
            &&& links.live.dom().contains(other) ==> gone.live[other] == links.live[other]
            &&& disestablished(next, name, later) == next
            &&& !cut(next, name).live.dom().contains(name)
            &&& cut(next, name).live.dom().contains(other) == links.live.dom().contains(other)
        }),
{
}

/// A client may open a link exactly when none of its links is open or being
/// opened; once it is let in it may not, until it leaves.
pub proof fn clients_enter_once(links: LinksModel, name: Text)
    ensures
        admissible(links, name) <==> !links.live.dom().contains(name) && !links.pending.contains(
            name,
        ),
        !admissible(admitted(links, name), name),
        admitted(links, name).live == links.live,
        admissible(links, name) ==> admissible(left(admitted(links, name), name), name),
        left(links, name).live == links.live,
{
}

/// The list of live clients tells of each its name, its system, its shell and
/// what it can do, in the order of the names.
pub proof fn live_clients_are_listed_as_they_are(
    live: Map<Text, LiveModel>,
    list: Seq<SummaryModel>,
    i: int,
)
    requires
        all_listed(live, list),
        0 <= i < list.len(),
    ensures
        live.dom().contains(list[i].name),
        list[i].system == live[list[i].name].environment.system,
        list[i].shell == live[list[i].name].environment.shell,
        list[i].computer == live[list[i].name].environment.computer,
        i > 0 ==> text::before(list[i - 1].name, list[i].name),
{
}

} // verus!
