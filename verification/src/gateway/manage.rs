//! The management of clients and grants by the person that the proxy vouches
//! for.
use chrono::DateTime;
use vstd::prelude::*;

use crate::clock;
use crate::config::PUBLIC_URL;
use crate::crypto;
use crate::db;
use crate::db::model;
use crate::db::model::{Tables, DAY};
use crate::db::rows::{ClientRecord, ClientView, GrantModel, GrantRecord};
use crate::db::Database;
use crate::gateway;
use crate::gateway::html;
use crate::gateway::html::{NewCode, NewCodeModel, NO_CLIENTS, NO_GRANTS};
use crate::gateway::links;
use crate::gateway::links::{Links, LinksModel};
use crate::gateway::{Headers, HeadersModel, Reply, ReplyModel};
use crate::mcp::LiveModel;
use crate::text;
use crate::text::Text;

verus! {

// ---------------------------------------------------------------------------
// Times
// ---------------------------------------------------------------------------
/// How times are shown.
pub const TIME_FORMAT: &'static str = "%Y-%m-%d %H:%M UTC";

/// How `chrono` writes the time that is a number of seconds after the Unix epoch
/// in a format; nothing where it has no such time.
pub uninterp spec fn formatted_time(timestamp: i64, format: Seq<char>) -> Option<Seq<char>>;

/// `chrono`'s `DateTime::from_timestamp` and `format`: the time in the format,
/// where the time is in `chrono`'s range. How the fields are written is not
/// stated.
#[verifier::external_body]
fn format_time(timestamp: i64, format: &str) -> (r: Option<String>)
    requires
        format@ == TIME_FORMAT@,
    ensures
        text::opt_text(r) == formatted_time(timestamp, format@),
{
    DateTime::from_timestamp(timestamp, 0).map(|time| time.format(format).to_string())
}

/// What is shown for a time, for how it is written.
pub open spec fn shown_time(written: Option<Text>) -> Text {
    match written {
        Some(time) => time,
        None => "Invalid date"@,
    }
}

/// What is shown for a time, for how it is written.
pub fn time_or_invalid(written: Option<String>) -> (r: String)
    ensures
        r@ == shown_time(text::opt_text(written)),
{
    match written {
        Some(time) => time,
        None => "Invalid date".to_string(),
    }
}

/// What is shown for a time.
pub open spec fn label(timestamp: i64) -> Text {
    shown_time(formatted_time(timestamp, TIME_FORMAT@))
}

/// What is shown for a time.
pub fn time_label(timestamp: i64) -> (r: String)
    ensures
        r@ == label(timestamp),
{
    time_or_invalid(format_time(timestamp, TIME_FORMAT))
}

// ---------------------------------------------------------------------------
// The page
// ---------------------------------------------------------------------------
/// The lines for clients, one after the other.
pub open spec fn client_lines(
    list: Seq<ClientView>,
    live: Map<Text, LiveModel>,
    csrf: Text,
    now: i64,
) -> Text
    decreases list.len(),
{
    if list.len() == 0 {
        Seq::empty()
    } else {
        let client = list.last();
        client_lines(list.drop_last(), live, csrf, now) + html::client_line(
            client,
            live.dom().contains(client.name),
            label(client.expires_at),
            csrf,
            now,
        )
    }
}

/// The lines for grants, one after the other.
pub open spec fn grant_lines(list: Seq<GrantModel>, csrf: Text) -> Text
    decreases list.len(),
{
    if list.len() == 0 {
        Seq::empty()
    } else {
        let grant = list.last();
        grant_lines(list.drop_last(), csrf) + html::grant_line(grant, label(grant.created_at), csrf)
    }
}

/// The table of clients.
pub open spec fn client_table(
    list: Seq<ClientView>,
    live: Map<Text, LiveModel>,
    csrf: Text,
    now: i64,
) -> Text {
    if list.len() == 0 {
        NO_CLIENTS@
    } else {
        client_lines(list, live, csrf, now)
    }
}

/// The table of grants.
pub open spec fn grant_table(list: Seq<GrantModel>, csrf: Text) -> Text {
    if list.len() == 0 {
        NO_GRANTS@
    } else {
        grant_lines(list, csrf)
    }
}

fn client_rows(list: &Vec<ClientRecord>, links: &Links, csrf: &str, now: i64) -> (r: String)
    requires
        links.wf(),
    ensures
        r@ == client_table(db::client_views(list@), links@.live, csrf@, now),
{
    if list.len() == 0 {
        return NO_CLIENTS.to_string();
    }
    let ghost views = db::client_views(list@);
    let mut out = "".to_string();
    proof {
        reveal_strlit("");
        assert(out@ =~= client_lines(views.take(0), links@.live, csrf@, now));
    }
    for i in 0..list.len()
        invariant
            links.wf(),
            views == db::client_views(list@),
            out@ == client_lines(views.take(i as int), links@.live, csrf@, now),
    {
        let client = &list[i];
        let online = links.is_live(client.name.as_str());
        let expires = time_label(client.expires_at);
        let line = html::client_row(client, online, expires.as_str(), csrf, now);
        out.append(line.as_str());
        proof {
            let next = views.take(i + 1);
            assert(next.drop_last() =~= views.take(i as int));
            assert(next.last() == client@);
        }
    }
    assert(views.take(list@.len() as int) =~= views);
    out
}

fn grant_rows(list: &Vec<GrantRecord>, csrf: &str) -> (r: String)
    ensures
        r@ == grant_table(db::grant_models(list@), csrf@),
{
    if list.len() == 0 {
        return NO_GRANTS.to_string();
    }
    let ghost views = db::grant_models(list@);
    let mut out = "".to_string();
    proof {
        reveal_strlit("");
        assert(out@ =~= grant_lines(views.take(0), csrf@));
    }
    for i in 0..list.len()
        invariant
            views == db::grant_models(list@),
            out@ == grant_lines(views.take(i as int), csrf@),
    {
        let grant = &list[i];
        let created = time_label(grant.created_at);
        let line = html::grant_row(grant, created.as_str(), csrf);
        out.append(line.as_str());
        proof {
            let next = views.take(i + 1);
            assert(next.drop_last() =~= views.take(i as int));
            assert(next.last() == grant@);
        }
    }
    assert(views.take(list@.len() as int) =~= views);
    out
}

/// What the page is made of besides the tables: who looks at it, a code that has
/// just come into force, the request, the time, and a token for the forms.
pub struct Visit {
    pub headers: HeadersModel,
    pub owner: Text,
    pub new: Option<NewCodeModel>,
    pub now: i64,
    pub fresh: Text,
}

/// The management page for lists of clients and grants.
pub open spec fn page_of(
    clients: Seq<ClientView>,
    grants: Seq<GrantModel>,
    live: Map<Text, LiveModel>,
    visit: Visit,
) -> ReplyModel {
    let (csrf, set_cookie) = gateway::csrf_of(visit.headers, visit.fresh);
    html::page(
        "Connector"@,
        html::management_text(
            visit.owner,
            visit.new,
            live.dom().len(),
            PUBLIC_URL@,
            csrf,
            client_table(clients, live, csrf, visit.now),
            grant_table(grants, csrf),
        ),
        set_cookie,
    )
}

/// Whether a reply is the management page: it shows every client and every grant
/// once and in order.
pub open spec fn is_page(
    t: Tables,
    live: Map<Text, LiveModel>,
    visit: Visit,
    reply: ReplyModel,
) -> bool {
    exists|clients: Seq<ClientView>, grants: Seq<GrantModel>|
        model::clients_listed(t, clients) && model::grants_listed(t, grants) && reply
            == #[trigger] page_of(clients, grants, live, visit)
}

/// Shows the management page.
pub fn render_management(
    db: &Database,
    links: &Links,
    headers: &Headers,
    owner: &str,
    new: &Option<NewCode>,
    now: i64,
    fresh: String,
) -> (r: Reply)
    requires
        db.wf(),
        links.wf(),
    ensures
        is_page(
            db@,
            links@.live,
            (Visit {
                headers: headers@,
                owner: owner@,
                new: html::new_code_model(*new),
                now,
                fresh: fresh@,
            }),
            r@,
        ),
{
    let ghost visit = Visit {
        headers: headers@,
        owner: owner@,
        new: html::new_code_model(*new),
        now,
        fresh: fresh@,
    };
    let clients = db.list_clients();
    let grants = db.list_grants();
    let (csrf, set_cookie) = gateway::csrf_with(headers, fresh);
    let client_table = client_rows(&clients, links, csrf.as_str(), now);
    let grant_table = grant_rows(&grants, csrf.as_str());
    let online: usize = links.count();
    let body = html::management_body(
        owner,
        new,
        online as u64,
        PUBLIC_URL,
        csrf.as_str(),
        client_table.as_str(),
        grant_table.as_str(),
    );
    let r = html::html_response("Connector", body.as_str(), set_cookie);
    assert(r@ == page_of(db::client_views(clients@), db::grant_models(grants@), links@.live, visit));
    r
}

/// Whether the management page, or a refusal, answers a request for it.
pub open spec fn managed(
    t: Tables,
    live: Map<Text, LiveModel>,
    headers: HeadersModel,
    now: i64,
    fresh: Text,
    reply: ReplyModel,
) -> bool {
    match gateway::subject_of(headers) {
        None => reply == gateway::bare(401),
        Some(owner) => is_page(t, live, Visit { headers, owner, new: None, now, fresh }, reply),
    }
}

/// Answers a request for the management page, at a given time and with a token
/// for its forms at hand.
pub fn management_with(db: &Database, links: &Links, headers: &Headers, now: i64, fresh: String) -> (r:
    Reply)
    requires
        db.wf(),
        links.wf(),
    ensures
        managed(db@, links@.live, headers@, now, fresh@, r@),
{
    match gateway::subject(headers) {
        None => gateway::status_only(401),
        Some(owner) => render_management(db, links, headers, owner.as_str(), &None, now, fresh),
    }
}

/// Answers a request for the management page.
pub fn management(db: &Database, links: &Links, headers: &Headers) -> (r: Reply)
    requires
        db.wf(),
        links.wf(),
    ensures
        exists|now: i64, fresh: Text|
            clock::readable(now) && crypto::token_shaped(fresh) && #[trigger] managed(
                db@,
                links@.live,
                headers@,
                now,
                fresh,
                r@,
            ),
{
    let fresh = crypto::random_token();
    let now = clock::now();
    management_with(db, links, headers, now, fresh)
}

// ---------------------------------------------------------------------------
// Creating clients
// ---------------------------------------------------------------------------
/// Whether a character may stand in the name of a client.
pub open spec fn is_name_char(c: char) -> bool {
    text::is_alphanumeric(c) || c == '.' || c == '_' || c == '-'
}

/// Whether a text may be the name of a client: up to 64 letters, digits, dots,
/// underscores and hyphens, the first a letter or a digit.
pub open spec fn is_client_name(s: Text) -> bool {
    &&& 1 <= s.len() <= 64
    &&& text::is_alphanumeric(s[0])
    &&& forall|i: int| 0 <= i < s.len() ==> is_name_char(#[trigger] s[i])
}

/// Tells whether a text may be the name of a client.
pub fn valid_name(name: &str) -> (r: bool)
    ensures
        r == is_client_name(name@),
{
    let s = text::chars_of(name);
    if s.len() == 0 || s.len() > 64 {
        return false;
    }
    for i in 0..s.len()
        invariant
            s@ == name@,
            1 <= s@.len() <= 64,
            i > 0 ==> text::is_alphanumeric(s@[0]),
            forall|k: int| 0 <= k < i ==> is_name_char(#[trigger] s@[k]),
    {
        let c = s[i];
        let plain = ('0' <= c && c <= '9') || ('A' <= c && c <= 'Z') || ('a' <= c && c <= 'z');
        if !plain && (i == 0 || (c != '.' && c != '_' && c != '-')) {
            assert(i == 0 || !is_name_char(name@[i as int]));
            return false;
        }
    }
    true
}

/// The name of a client can be the name of a file: it is neither empty nor a
/// step in a path, and holds no separator.
pub proof fn client_names_are_file_names(s: Text)
    requires
        is_client_name(s),
    ensures
        s.len() > 0,
        s != "."@,
        s != ".."@,
        !s.contains('/'),
        !s.contains('\0'),
{
    reveal_strlit(".");
    reveal_strlit("..");
    assert forall|i: int| 0 <= i < s.len() implies s[i] != '/' && s[i] != '\0' by {
        assert(is_name_char(s[i]));
    }
}

/// Whether a number of days may be granted at once.
pub open spec fn is_validity(days: u32) -> bool {
    1 <= days <= 3650
}

/// The wish for a new client.
#[derive(Debug)]
pub struct CreateClientForm {
    pub name: String,
    pub days: u32,
    pub csrf: String,
}

/// The model of [`CreateClientForm`].
pub struct CreateClientModel {
    pub name: Text,
    pub days: u32,
    pub csrf: Text,
}

impl View for CreateClientForm {
    type V = CreateClientModel;

    open spec fn view(&self) -> CreateClientModel {
        CreateClientModel { name: self.name@, days: self.days, csrf: self.csrf@ }
    }
}

/// Whether the wish for a new client has led to tables and a reply: the client
/// is there and its code is shown, or nothing has changed and the reply says why.
pub open spec fn creation(
    t: Tables,
    live: Map<Text, LiveModel>,
    headers: HeadersModel,
    form: CreateClientModel,
    code: Text,
    now: i64,
    fresh: Text,
    next: Tables,
    reply: ReplyModel,
) -> bool {
    match gateway::subject_of(headers) {
        None => next == t && reply == gateway::bare(401),
        Some(owner) => if !gateway::csrf_matches(headers, form.csrf) {
            next == t && reply == html::error(
                403,
                "Request rejected"@,
                "The form expired. Reload the page and try again."@,
            )
        } else if !is_client_name(form.name) || !is_validity(form.days) {
            next == t && reply == html::error(
                400,
                "Invalid client"@,
                "Names may use letters, numbers, dot, underscore, and hyphen. Validity must be 1 to 3650 days."@,
            )
        } else {
            match model::client_created(
                t,
                form.name,
                code,
                (now + form.days * DAY) as i64,
                now,
            ) {
                Ok(created) => next == created && is_page(
                    created,
                    live,
                    Visit {
                        headers,
                        owner,
                        new: Some(NewCodeModel { name: form.name, code, created: true }),
                        now,
                        fresh,
                    },
                    reply,
                ),
                Err(e) => next == t && reply == html::error(
                    409,
                    "Client not created"@,
                    "The name or code already exists: "@ + e.words(),
                ),
            }
        },
    }
}

/// Answers the wish for a new client, with a code and a token for the page at
/// hand, and at a given time.
pub fn create_client_with(
    db: &mut Database,
    links: &Links,
    headers: &Headers,
    form: &CreateClientForm,
    code: String,
    now: i64,
    fresh: String,
) -> (r: Reply)
    requires
        old(db).wf(),
        links.wf(),
        clock::readable(now),
    ensures
        final(db).wf(),
        creation(
            old(db)@,
            links@.live,
            headers@,
            form@,
            code@,
            now,
            fresh@,
            final(db)@,
            r@,
        ),
{
    let owner = match gateway::subject(headers) {
        None => {
            return gateway::status_only(401);
        },
        Some(owner) => owner,
    };
    if !gateway::check_csrf(headers, form.csrf.as_str()) {
        return html::error_page(
            403,
            "Request rejected",
            "The form expired. Reload the page and try again.",
        );
    }
    if !valid_name(form.name.as_str()) || form.days < 1 || form.days > 3650 {
        return html::error_page(
            400,
            "Invalid client",
            "Names may use letters, numbers, dot, underscore, and hyphen. Validity must be 1 to 3650 days.",
        );
    }
    let expires_at: i64 = now + (form.days as i64) * DAY;
    if let Err(e) = db.create_client_at(form.name.as_str(), code.as_str(), expires_at, now) {
        let mut detail = "The name or code already exists: ".to_string();
        detail.append(e.message().as_str());
        return html::error_page(409, "Client not created", detail.as_str());
    }
    let new = Some(NewCode { name: form.name.clone(), code, created: true });
    render_management(db, links, headers, owner.as_str(), &new, now, fresh)
}

/// Answers the wish for a new client.
pub fn create_client(
    db: &mut Database,
    links: &Links,
    headers: &Headers,
    form: &CreateClientForm,
) -> (r: Reply)
    requires
        old(db).wf(),
        links.wf(),
    ensures
        final(db).wf(),
        exists|bytes: Seq<u8>, now: i64, fresh: Text|
            bytes.len() == 5 && clock::readable(now) && crypto::token_shaped(fresh)
                && #[trigger] creation(
                old(db)@,
                links@.live,
                headers@,
                form@,
                crypto::code_of(bytes),
                now,
                fresh,
                final(db)@,
                r@,
            ),
{
    let code = crypto::connection_code();
    let fresh = crypto::random_token();
    let now = clock::now();
    create_client_with(db, links, headers, form, code, now, fresh)
}

// ---------------------------------------------------------------------------
// Changing clients and grants
// ---------------------------------------------------------------------------
/// Who may not change anything: nobody that the proxy does not vouch for, and no
/// form that is not from a page of the gateway.
pub open spec fn forbidden(headers: HeadersModel, csrf: Text) -> Option<ReplyModel> {
    if gateway::subject_of(headers) is None {
        Some(gateway::bare(401))
    } else if !gateway::csrf_matches(headers, csrf) {
        Some(gateway::bare(403))
    } else {
        None
    }
}

fn forbid(headers: &Headers, csrf: &str) -> (r: Option<Reply>)
    ensures
        match r {
            Some(reply) => forbidden(headers@, csrf@) == Some(reply@),
            None => forbidden(headers@, csrf@) == None::<ReplyModel>,
        },
{
    if gateway::subject(headers).is_none() {
        Some(gateway::status_only(401))
    } else if !gateway::check_csrf(headers, csrf) {
        Some(gateway::status_only(403))
    } else {
        None
    }
}

/// The reply that leads back to the management page.
pub open spec fn back() -> ReplyModel {
    gateway::redirected("/"@)
}

/// What the wish to extend a client does to the tables and what it is answered.
pub open spec fn extension(
    t: Tables,
    headers: HeadersModel,
    name: Text,
    days: u32,
    csrf: Text,
    now: i64,
) -> (Tables, ReplyModel) {
    match forbidden(headers, csrf) {
        Some(reply) => (t, reply),
        None => if !is_validity(days) {
            (
                t,
                html::error(
                    400,
                    "Invalid extension"@,
                    "Validity must be extended by 1 to 3650 days."@,
                ),
            )
        } else {
            match model::client_extended(t, name, days, now) {
                Ok((next, true)) => (next, back()),
                Ok((next, false)) => (
                    next,
                    html::error(
                        404,
                        "Client not extended"@,
                        "The client does not exist or has been revoked."@,
                    ),
                ),
                Err(e) => (t, html::error(500, "Client not extended"@, e.words())),
            }
        },
    }
}

/// Answers the wish to extend a client at a given time.
pub fn extend_client_at(
    db: &mut Database,
    headers: &Headers,
    name: &str,
    days: u32,
    csrf: &str,
    now: i64,
) -> (r: Reply)
    requires
        old(db).wf(),
        clock::readable(now),
    ensures
        final(db).wf(),
        (final(db)@, r@) == extension(old(db)@, headers@, name@, days, csrf@, now),
{
    if let Some(reply) = forbid(headers, csrf) {
        return reply;
    }
    if days < 1 || days > 3650 {
        return html::error_page(
            400,
            "Invalid extension",
            "Validity must be extended by 1 to 3650 days.",
        );
    }
    match db.extend_client_at(name, days, now) {
        Ok(true) => gateway::redirect("/".to_string()),
        Ok(false) => html::error_page(
            404,
            "Client not extended",
            "The client does not exist or has been revoked.",
        ),
        Err(e) => html::error_page(500, "Client not extended", e.message().as_str()),
    }
}

/// Answers the wish to extend a client.
pub fn extend_client(db: &mut Database, headers: &Headers, name: &str, days: u32, csrf: &str) -> (r:
    Reply)
    requires
        old(db).wf(),
    ensures
        final(db).wf(),
        exists|now: i64|
            clock::readable(now) && (final(db)@, r@) == #[trigger] extension(
                old(db)@,
                headers@,
                name@,
                days,
                csrf@,
                now,
            ),
{
    let now = clock::now();
    extend_client_at(db, headers, name, days, csrf, now)
}

/// What the wish to revoke a client does to the tables and the links, and what
/// it is answered.
pub open spec fn client_revocation(
    t: Tables,
    l: LinksModel,
    headers: HeadersModel,
    name: Text,
    csrf: Text,
    now: i64,
) -> (Tables, LinksModel, ReplyModel) {
    match forbidden(headers, csrf) {
        Some(reply) => (t, l, reply),
        None => (model::client_revoked(t, name, now).0, links::cut(l, name), back()),
    }
}

/// Answers the wish to revoke a client at a given time, and tells whether an open
/// link has to be closed.
pub fn revoke_client_at(
    db: &mut Database,
    links: &mut Links,
    headers: &Headers,
    name: &str,
    csrf: &str,
    now: i64,
) -> (r: (Reply, bool))
    requires
        old(db).wf(),
        old(links).wf(),
    ensures
        final(db).wf(),
        final(links).wf(),
        (final(db)@, final(links)@, r.0@) == client_revocation(
            old(db)@,
            old(links)@,
            headers@,
            name@,
            csrf@,
            now,
        ),
        r.1 == (forbidden(headers@, csrf@) is None && old(links)@.live.dom().contains(name@)),
{
    if let Some(reply) = forbid(headers, csrf) {
        return (reply, false);
    }
    let _ = db.revoke_client_at(name, now);
    let close = links.cut_off(name);
    (gateway::redirect("/".to_string()), close)
}

/// Answers the wish to revoke a client, and tells whether an open link has to be
/// closed.
pub fn revoke_client(
    db: &mut Database,
    links: &mut Links,
    headers: &Headers,
    name: &str,
    csrf: &str,
) -> (r: (Reply, bool))
    requires
        old(db).wf(),
        old(links).wf(),
    ensures
        final(db).wf(),
        final(links).wf(),
        exists|now: i64|
            clock::readable(now) && (final(db)@, final(links)@, r.0@)
                == #[trigger] client_revocation(
                old(db)@,
                old(links)@,
                headers@,
                name@,
                csrf@,
                now,
            ),
        r.1 == (forbidden(headers@, csrf@) is None && old(links)@.live.dom().contains(name@)),
{
    let now = clock::now();
    revoke_client_at(db, links, headers, name, csrf, now)
}

/// Whether the wish for a new code has led to tables, links and a reply: the
/// code is replaced, the open link is gone and the new code is shown, or nothing
/// has changed and the reply says why.
pub open spec fn rotation(
    t: Tables,
    l: LinksModel,
    headers: HeadersModel,
    name: Text,
    csrf: Text,
    code: Text,
    now: i64,
    fresh: Text,
    next: Tables,
    next_links: LinksModel,
    reply: ReplyModel,
) -> bool {
    match forbidden(headers, csrf) {
        Some(refusal) => next == t && next_links == l && reply == refusal,
        None => if !model::in_force(t, name) {
            next == t && next_links == l && reply == html::error(
                404,
                "Client not rotated"@,
                "The client does not exist or has been revoked."@,
            )
        } else {
            match model::code_rotated(t, name, code) {
                Ok((rotated, _)) => next == rotated && next_links == links::cut(l, name)
                    && is_page(
                    rotated,
                    next_links.live,
                    Visit {
                        headers,
                        owner: gateway::subject_of(headers)->0,
                        new: Some(NewCodeModel { name, code, created: false }),
                        now,
                        fresh,
                    },
                    reply,
                ),
                Err(e) => next == t && next_links == l && reply == html::error(
                    409,
                    "Client not rotated"@,
                    "The code already exists: "@ + e.words(),
                ),
            }
        },
    }
}

/// Answers the wish for a new code, with the code and a token for the page at
/// hand and at a given time, and tells whether an open link has to be closed.
pub fn rotate_client_with(
    db: &mut Database,
    links: &mut Links,
    headers: &Headers,
    name: &str,
    csrf: &str,
    code: String,
    now: i64,
    fresh: String,
) -> (r: (Reply, bool))
    requires
        old(db).wf(),
        old(links).wf(),
    ensures
        final(db).wf(),
        final(links).wf(),
        rotation(
            old(db)@,
            old(links)@,
            headers@,
            name@,
            csrf@,
            code@,
            now,
            fresh@,
            final(db)@,
            final(links)@,
            r.0@,
        ),
        r.1 == (old(links)@.live.dom().contains(name@) && !final(links)@.live.dom().contains(
            name@,
        )),
{
    if let Some(reply) = forbid(headers, csrf) {
        return (reply, false);
    }
    if !db.in_force(name) {
        return (
            html::error_page(
                404,
                "Client not rotated",
                "The client does not exist or has been revoked.",
            ),
            false,
        );
    }
    match db.rotate_client_code(name, code.as_str()) {
        Err(e) => {
            let mut detail = "The code already exists: ".to_string();
            detail.append(e.message().as_str());
            (html::error_page(409, "Client not rotated", detail.as_str()), false)
        },
        Ok(_) => {
            let close = links.cut_off(name);
            let owner = match gateway::subject(headers) {
                Some(owner) => owner,
                None => "".to_string(),
            };
            let new = Some(NewCode { name: name.to_string(), code, created: false });
            (render_management(db, links, headers, owner.as_str(), &new, now, fresh), close)
        },
    }
}

/// Answers the wish for a new code, and tells whether an open link has to be
/// closed.
pub fn rotate_client(
    db: &mut Database,
    links: &mut Links,
    headers: &Headers,
    name: &str,
    csrf: &str,
) -> (r: (Reply, bool))
    requires
        old(db).wf(),
        old(links).wf(),
    ensures
        final(db).wf(),
        final(links).wf(),
        exists|bytes: Seq<u8>, now: i64, fresh: Text|
            bytes.len() == 5 && clock::readable(now) && crypto::token_shaped(fresh)
                && #[trigger] rotation(
                old(db)@,
                old(links)@,
                headers@,
                name@,
                csrf@,
                crypto::code_of(bytes),
                now,
                fresh,
                final(db)@,
                final(links)@,
                r.0@,
            ),
        r.1 == (old(links)@.live.dom().contains(name@) && !final(links)@.live.dom().contains(
            name@,
        )),
{
    let code = crypto::connection_code();
    let fresh = crypto::random_token();
    let now = clock::now();
    rotate_client_with(db, links, headers, name, csrf, code, now, fresh)
}

/// What the wish to revoke a grant does to the tables and what it is answered.
pub open spec fn grant_revocation(
    t: Tables,
    headers: HeadersModel,
    id: i64,
    csrf: Text,
    now: i64,
) -> (Tables, ReplyModel) {
    match forbidden(headers, csrf) {
        Some(reply) => (t, reply),
        None => (model::grant_revoked(t, id, now).0, back()),
    }
}

/// Answers the wish to revoke a grant at a given time.
pub fn revoke_grant_at(db: &mut Database, headers: &Headers, id: i64, csrf: &str, now: i64) -> (r:
    Reply)
    requires
        old(db).wf(),
    ensures
        final(db).wf(),
        (final(db)@, r@) == grant_revocation(old(db)@, headers@, id, csrf@, now),
{
    if let Some(reply) = forbid(headers, csrf) {
        return reply;
    }
    let _ = db.revoke_grant_at(id, now);
    gateway::redirect("/".to_string())
}

/// Answers the wish to revoke a grant.
pub fn revoke_grant(db: &mut Database, headers: &Headers, id: i64, csrf: &str) -> (r: Reply)
    requires
        old(db).wf(),
    ensures
        final(db).wf(),
        exists|now: i64|
            clock::readable(now) && (final(db)@, r@) == #[trigger] grant_revocation(
                old(db)@,
                headers@,
                id,
                csrf@,
                now,
            ),
{
    let now = clock::now();
    revoke_grant_at(db, headers, id, csrf, now)
}

} // verus!
