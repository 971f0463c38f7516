//! What the pages of the gateway show.
use vstd::prelude::*;

use crate::db::model;
use crate::db::model::Tables;
use crate::db::rows::{ClientView, GrantModel};
use crate::gateway;
use crate::gateway::html;
use crate::gateway::html::NewCodeModel;
use crate::gateway::manage;
use crate::gateway::manage::Visit;
use crate::gateway::oauth;
use crate::gateway::oauth::AuthorizeModel;
use crate::gateway::{BodyModel, HeadersModel, ReplyModel};
use crate::mcp::LiveModel;
use crate::text;
use crate::text::Text;

verus! {

// ---------------------------------------------------------------------------
// Parts of texts
// ---------------------------------------------------------------------------
proof fn lemma_own_part(s: Text)
    ensures
        text::has_part(s, s),
{
    assert(s.subrange(0, s.len() as int) =~= s);
    assert(text::occurs_at(s, s, 0));
}

proof fn lemma_part_before(s: Text, more: Text, p: Text)
    requires
        text::has_part(s, p),
    ensures
        text::has_part(s + more, p),
{
    let i = choose|i: int| #[trigger] text::occurs_at(s, p, i);
    assert((s + more).subrange(i, i + p.len()) =~= s.subrange(i, i + p.len()));
    assert(text::occurs_at(s + more, p, i));
}

proof fn lemma_part_after(before: Text, s: Text, p: Text)
    requires
        text::has_part(s, p),
    ensures
        text::has_part(before + s, p),
{
    let i = choose|i: int| #[trigger] text::occurs_at(s, p, i);
    let at = before.len() + i;
    assert((before + s).subrange(at, at + p.len()) =~= s.subrange(i, i + p.len()));
    assert(text::occurs_at(before + s, p, at));
}

proof fn lemma_part_between(before: Text, s: Text, more: Text)
    ensures
        text::has_part(before + s + more, s),
{
    lemma_own_part(s);
    lemma_part_after(before, s, s);
    lemma_part_before(before + s, more, s);
}

// ---------------------------------------------------------------------------
// Pages
// ---------------------------------------------------------------------------
/// Whether a reply is a page that shows a part.
pub open spec fn page_shows(reply: ReplyModel, part: Text) -> bool {
    reply.body matches BodyModel::Html(page) && text::has_part(page, part)
}

/// A page shows its body and, safe to read, its title; nobody may keep it. A page
/// that tells what went wrong shows, safe to read, what it is about.
pub proof fn pages_show_their_body(
    title: Text,
    body: Text,
    set_cookie: Option<Text>,
    status: u16,
    detail: Text,
)
    ensures
        page_shows(html::page(title, body, set_cookie), body),
        page_shows(html::page(title, body, set_cookie), html::escaped(title)),
        html::page(title, body, set_cookie).status == 200,
        html::page(title, body, set_cookie).no_store,
        html::page(title, body, set_cookie).set_cookie == set_cookie,
        page_shows(html::error(status, title, detail), html::escaped(title)),
        page_shows(html::error(status, title, detail), html::escaped(detail)),
        html::error(status, title, detail).status == status,
        html::error(status, title, detail).no_store,
{
    lemma_page(title, body);
    let e = html::error_text(title, detail);
    lemma_page(title, e);
    let a = "<div class=\"error\"><h1>"@ + html::escaped(title) + "</h1><p>"@;
    lemma_part_between(a, html::escaped(detail), "</p></div>"@);
    lemma_part_in_page(title, e, html::escaped(detail));
}

proof fn lemma_page(title: Text, body: Text)
    ensures
        text::has_part(html::page_text(title, body), body),
        text::has_part(html::page_text(title, body), html::escaped(title)),
{
    let t = html::escaped(title);
    lemma_part_between(html::PAGE_START@ + t + html::PAGE_BODY@, body, html::PAGE_END@);
    lemma_part_between(html::PAGE_START@, t, html::PAGE_BODY@);
    lemma_part_before(html::PAGE_START@ + t + html::PAGE_BODY@, body, t);
    lemma_part_before(html::PAGE_START@ + t + html::PAGE_BODY@ + body, html::PAGE_END@, t);
}

proof fn lemma_part_in_page(title: Text, body: Text, part: Text)
    requires
        text::has_part(body, part),
    ensures
        text::has_part(html::page_text(title, body), part),
{
    let before = html::PAGE_START@ + html::escaped(title) + html::PAGE_BODY@;
    lemma_part_after(before, body, part);
    lemma_part_before(before + body, html::PAGE_END@, part);
}

/// A value that a form carries along stands in it under its name, safe to read.
pub proof fn forms_carry_their_values(name: Text, value: Text)
    ensures
        text::has_part(html::hidden(name, value), name),
        text::has_part(html::hidden(name, value), html::escaped(value)),
{
    let a = "<input type=\"hidden\" name=\""@;
    let b = "\" value=\""@;
    let v = html::escaped(value);
    let c = "\">"@;
    lemma_part_between(a, name, b);
    lemma_part_before(a + name + b, v, name);
    lemma_part_before(a + name + b + v, c, name);
    lemma_part_between(a + name + b, v, c);
}

/// The question whether a controller may have access names the controller and
/// the person, and carries the whole request and the token along.
#[verifier::rlimit(40)]
pub proof fn consent_pages_tell_who_asks(
    t: Tables,
    headers: HeadersModel,
    p: AuthorizeModel,
    fresh: Text,
)
    requires
        gateway::subject_of(headers) is Some,
        oauth::request_problem(t, p) is None,
    ensures
        ({
            let reply = oauth::asked(t, headers, p, fresh);
            let csrf = gateway::csrf_of(headers, fresh).0;
            &&& page_shows(reply, html::escaped(p.client_id))
            &&& page_shows(reply, html::escaped(gateway::subject_of(headers)->0))
            &&& page_shows(reply, html::hidden("csrf"@, csrf))
            &&& page_shows(reply, html::hidden("response_type"@, p.response_type))
            &&& page_shows(reply, html::hidden("code_challenge_method"@, p.code_challenge_method))
            &&& page_shows(reply, html::hidden("client_id"@, p.client_id))
            &&& page_shows(reply, html::hidden("redirect_uri"@, p.redirect_uri))
            &&& page_shows(reply, html::hidden("scope"@, p.scope))
            &&& page_shows(reply, html::hidden("resource"@, p.resource))
            &&& page_shows(reply, html::hidden("code_challenge"@, p.code_challenge))
            &&& page_shows(reply, html::hidden("state"@, p.state))
            &&& reply.set_cookie == gateway::csrf_of(headers, fresh).1
        }),
{
    let subject = gateway::subject_of(headers)->0;
    let csrf = gateway::csrf_of(headers, fresh).0;
    let offline = model::scope_named(p.scope, "offline_access"@);
    let request = oauth::hidden_request(p);
    let body = html::consent_text(p.client_id, subject, offline, request, csrf);
    let title = "Controller authorization"@;
    let id = html::escaped(p.client_id);
    let who = html::escaped(subject);
    let note = if offline {
        html::CONSENT_OFFLINE@
    } else {
        ""@
    };
    let s1 = html::CONSENT_START@ + id + html::CONSENT_SUBJECT@;
    let s2 = s1 + who + html::CONSENT_WARNING@;
    let s3 = s2 + note + html::CONSENT_FORM@;
    let s4 = s3 + request;
    let token = html::hidden("csrf"@, csrf);
    let s5 = s4 + token + html::CONSENT_END@;
    assert(body =~= s5);
    lemma_part_between(html::CONSENT_START@, id, html::CONSENT_SUBJECT@);
    lemma_four(s1, who + html::CONSENT_WARNING@, note + html::CONSENT_FORM@, request + token
        + html::CONSENT_END@, id);
    lemma_part_between(s1, who, html::CONSENT_WARNING@);
    assert(s5 =~= s2 + (note + html::CONSENT_FORM@ + request + token + html::CONSENT_END@));
    lemma_part_before(
        s2,
        note + html::CONSENT_FORM@ + request + token + html::CONSENT_END@,
        who,
    );
    assert(s5 =~= s1 + (who + html::CONSENT_WARNING@) + (note + html::CONSENT_FORM@) + (request
        + token + html::CONSENT_END@));
    lemma_part_between(s4, token, html::CONSENT_END@);
    lemma_part_in_page(title, body, id);
    lemma_part_in_page(title, body, who);
    lemma_part_in_page(title, body, token);
    lemma_request(p);
    lemma_request_shown(
        title,
        s3,
        request,
        token,
        body,
        html::hidden("response_type"@, p.response_type),
    );
    lemma_request_shown(
        title,
        s3,
        request,
        token,
        body,
        html::hidden("code_challenge_method"@, p.code_challenge_method),
    );
    lemma_request_shown(title, s3, request, token, body, html::hidden("client_id"@, p.client_id));
    lemma_request_shown(
        title,
        s3,
        request,
        token,
        body,
        html::hidden("redirect_uri"@, p.redirect_uri),
    );
    lemma_request_shown(title, s3, request, token, body, html::hidden("scope"@, p.scope));
    lemma_request_shown(title, s3, request, token, body, html::hidden("resource"@, p.resource));
    lemma_request_shown(
        title,
        s3,
        request,
        token,
        body,
        html::hidden("code_challenge"@, p.code_challenge),
    );
    lemma_request_shown(title, s3, request, token, body, html::hidden("state"@, p.state));
}

proof fn lemma_four(a: Text, b: Text, c: Text, d: Text, part: Text)
    requires
        text::has_part(a, part),
    ensures
        text::has_part(a + b + c + d, part),
{
    lemma_part_before(a, b, part);
    lemma_part_before(a + b, c, part);
    lemma_part_before(a + b + c, d, part);
}

proof fn lemma_request_shown(
    title: Text,
    before: Text,
    request: Text,
    token: Text,
    body: Text,
    part: Text,
)
    requires
        text::has_part(request, part),
        body == before + request + token + html::CONSENT_END@,
    ensures
        text::has_part(html::page_text(title, body), part),
{
    lemma_part_after(before, request, part);
    lemma_part_before(before + request, token, part);
    lemma_part_before(before + request + token, html::CONSENT_END@, part);
    lemma_part_in_page(title, body, part);
}

#[verifier::rlimit(40)]
proof fn lemma_request(p: AuthorizeModel)
    ensures
        text::has_part(
            oauth::hidden_request(p),
            html::hidden("response_type"@, p.response_type),
        ),
        text::has_part(
            oauth::hidden_request(p),
            html::hidden("code_challenge_method"@, p.code_challenge_method),
        ),
        text::has_part(oauth::hidden_request(p), html::hidden("client_id"@, p.client_id)),
        text::has_part(oauth::hidden_request(p), html::hidden("redirect_uri"@, p.redirect_uri)),
        text::has_part(oauth::hidden_request(p), html::hidden("scope"@, p.scope)),
        text::has_part(oauth::hidden_request(p), html::hidden("resource"@, p.resource)),
        text::has_part(
            oauth::hidden_request(p),
            html::hidden("code_challenge"@, p.code_challenge),
        ),
        text::has_part(oauth::hidden_request(p), html::hidden("state"@, p.state)),
{
    let a = html::hidden("response_type"@, p.response_type);
    let b = html::hidden("client_id"@, p.client_id);
    let c = html::hidden("redirect_uri"@, p.redirect_uri);
    let d = html::hidden("scope"@, p.scope);
    let e = html::hidden("resource"@, p.resource);
    let f = html::hidden("code_challenge"@, p.code_challenge);
    let g = html::hidden("code_challenge_method"@, p.code_challenge_method);
    let h = html::hidden("state"@, p.state);
    let whole = oauth::hidden_request(p);
    assert(whole =~= Seq::<char>::empty() + a + (b + c + d + e + f + g + h));
    lemma_part_between(Seq::empty(), a, b + c + d + e + f + g + h);
    assert(whole =~= (a + b + c + d + e + f) + g + h);
    lemma_part_between(a + b + c + d + e + f, g, h);
    assert(whole =~= a + b + (c + d + e + f + g + h));
    lemma_part_between(a, b, c + d + e + f + g + h);
    assert(whole =~= (a + b) + c + (d + e + f + g + h));
    lemma_part_between(a + b, c, d + e + f + g + h);
    assert(whole =~= (a + b + c) + d + (e + f + g + h));
    lemma_part_between(a + b + c, d, e + f + g + h);
    assert(whole =~= (a + b + c + d) + e + (f + g + h));
    lemma_part_between(a + b + c + d, e, f + g + h);
    assert(whole =~= (a + b + c + d + e) + f + (g + h));
    lemma_part_between(a + b + c + d + e, f, g + h);
    assert(whole =~= (a + b + c + d + e + f + g) + h + Seq::<char>::empty());
    lemma_part_between(a + b + c + d + e + f + g, h, Seq::empty());
}

// ---------------------------------------------------------------------------
// Clients and grants
// ---------------------------------------------------------------------------
/// A revoked client is shown as revoked, else an expired one as expired, else one
/// with a link as online, and any other as offline.
pub proof fn clients_are_shown_as_they_are_doing(client: ClientView, online: bool, now: i64)
    ensures
        ({
            let status = html::client_status(client, online, now);
            &&& client.revoked_at is Some ==> status
                == "<span class=\"pill revoked\">Revoked</span>"@
            &&& client.revoked_at is None && now >= client.expires_at ==> status
                == "<span class=\"pill expired\">Expired</span>"@
            &&& client.revoked_at is None && now < client.expires_at && online ==> status
                == "<span class=\"pill online\">Online</span>"@
            &&& client.revoked_at is None && now < client.expires_at && !online ==> status
                == "<span class=\"pill\">Offline</span>"@
        }),
{
}

/// The line of a client tells its name, how it is doing and when it expires; it
/// has the forms for the client exactly when that is not revoked.
#[verifier::rlimit(40)]
pub proof fn client_lines_tell_of_the_client(
    client: ClientView,
    online: bool,
    expires: Text,
    csrf: Text,
    now: i64,
)
    ensures
        ({
            let line = html::client_line(client, online, expires, csrf, now);
            &&& text::has_part(line, html::escaped(client.name))
            &&& text::has_part(line, html::client_status(client, online, now))
            &&& text::has_part(line, expires)
            &&& client.revoked_at is None ==> text::has_part(
                line,
                html::client_forms(client.name, csrf),
            )
            &&& client.revoked_at is Some ==> line == "<tr><td><strong>"@ + html::escaped(
                client.name,
            ) + "</strong></td><td>"@ + html::client_status(client, online, now) + "</td><td>"@
                + expires + "</td><td class=\"actions\">"@ + "</td></tr>"@
        }),
{
    reveal_strlit("");
    let a = "<tr><td><strong>"@;
    let name = html::escaped(client.name);
    let b = "</strong></td><td>"@;
    let status = html::client_status(client, online, now);
    let c = "</td><td>"@;
    let d = "</td><td class=\"actions\">"@;
    let forms = if client.revoked_at is None {
        html::client_forms(client.name, csrf)
    } else {
        ""@
    };
    let e = "</td></tr>"@;
    let line = html::client_line(client, online, expires, csrf, now);
    assert(line =~= a + name + (b + status + c + expires + d + forms + e));
    lemma_part_between(a, name, b + status + c + expires + d + forms + e);
    assert(line =~= (a + name + b) + status + (c + expires + d + forms + e));
    lemma_part_between(a + name + b, status, c + expires + d + forms + e);
    assert(line =~= (a + name + b + status + c) + expires + (d + forms + e));
    lemma_part_between(a + name + b + status + c, expires, d + forms + e);
    assert(line =~= (a + name + b + status + c + expires + d) + forms + e);
    lemma_part_between(a + name + b + status + c + expires + d, forms, e);
    if client.revoked_at is Some {
        assert(""@ =~= Seq::empty());
        assert(line =~= a + name + b + status + c + expires + d + e);
    }
}

/// The forms of a client lead to where it is extended, rotated and revoked, each
/// with the token.
#[verifier::rlimit(40)]
pub proof fn client_forms_lead_to_the_client(name: Text, csrf: Text)
    ensures
        text::has_part(
            html::client_forms(name, csrf),
            html::escaped(name) + "/extend\">"@ + html::hidden("csrf"@, csrf),
        ),
        text::has_part(
            html::client_forms(name, csrf),
            html::escaped(name) + "/rotate\">"@ + html::hidden("csrf"@, csrf),
        ),
        text::has_part(
            html::client_forms(name, csrf),
            html::escaped(name) + "/revoke\">"@ + html::hidden("csrf"@, csrf),
        ),
{
    let n = html::escaped(name);
    let token = html::hidden("csrf"@, csrf);
    let a = "<div class=\"client-actions\"><form class=\"extend\" method=\"post\" action=\"/clients/"@;
    let b = n + "/extend\">"@ + token;
    let c = "<input required type=\"number\" min=\"1\" max=\"3650\" value=\"30\" name=\"days\" aria-label=\"Days to extend\" title=\"Days to extend\"><button class=\"secondary\">Extend</button></form><form method=\"post\" action=\"/clients/"@;
    let d = n + "/rotate\">"@ + token;
    let e = "<button class=\"secondary\">Rotate</button></form><form method=\"post\" action=\"/clients/"@;
    let f = n + "/revoke\">"@ + token;
    let g = "<button class=\"danger\">Revoke</button></form></div>"@;
    let all = html::client_forms(name, csrf);
    assert(all =~= a + b + (c + d + e + f + g));
    lemma_part_between(a, b, c + d + e + f + g);
    assert(all =~= (a + b + c) + d + (e + f + g));
    lemma_part_between(a + b + c, d, e + f + g);
    assert(all =~= (a + b + c + d + e) + f + g);
    lemma_part_between(a + b + c + d + e, f, g);
}

/// The line of a grant tells the controller, its scopes, whether it is revoked
/// and when it was made; it has the form to revoke it exactly when it is not.
#[verifier::rlimit(40)]
pub proof fn grant_lines_tell_of_the_grant(grant: GrantModel, created: Text, csrf: Text)
    ensures
        ({
            let line = html::grant_line(grant, created, csrf);
            &&& text::has_part(line, html::escaped(grant.client_id))
            &&& text::has_part(line, html::escaped(grant.scopes))
            &&& text::has_part(line, created)
            &&& grant.revoked_at is None ==> text::has_part(
                line,
                "<span class=\"pill online\">Active</span>"@,
            ) && text::has_part(
                line,
                "/grants/"@ + text::decimal_int(grant.id as int) + "/revoke"@,
            )
            &&& grant.revoked_at is Some ==> text::has_part(
                line,
                "<span class=\"pill revoked\">Revoked</span>"@,
            )
        }),
{
    let a = "<tr><td>"@;
    let id = html::escaped(grant.client_id);
    let b = "</td><td><strong>"@;
    let scopes = html::escaped(grant.scopes);
    let c = "</strong></td><td>"@;
    let status = if grant.revoked_at is Some {
        html::REVOKED@
    } else {
        html::ACTIVE@
    };
    let d = "</td><td>"@;
    let e = "</td><td class=\"actions\">"@;
    let form = if grant.revoked_at is None {
        html::grant_form(grant.id, csrf)
    } else {
        ""@
    };
    let f = "</td></tr>"@;
    let line = html::grant_line(grant, created, csrf);
    assert(line =~= a + id + (b + scopes + c + status + d + created + e + form + f));
    lemma_part_between(a, id, b + scopes + c + status + d + created + e + form + f);
    assert(line =~= (a + id + b) + scopes + (c + status + d + created + e + form + f));
    lemma_part_between(a + id + b, scopes, c + status + d + created + e + form + f);
    assert(line =~= (a + id + b + scopes + c) + status + (d + created + e + form + f));
    lemma_part_between(a + id + b + scopes + c, status, d + created + e + form + f);
    assert(line =~= (a + id + b + scopes + c + status + d) + created + (e + form + f));
    lemma_part_between(a + id + b + scopes + c + status + d, created, e + form + f);
    let before = a + id + b + scopes + c + status + d + created + e;
    assert(line =~= before + form + f);
    lemma_part_between(before, form, f);
    if grant.revoked_at is None {
        lemma_grant_form(grant.id, csrf);
        lemma_part_of_part(
            line,
            form,
            "/grants/"@ + text::decimal_int(grant.id as int) + "/revoke"@,
        );
    }
}

#[verifier::rlimit(40)]
proof fn lemma_grant_form(id: i64, csrf: Text)
    ensures
        text::has_part(
            html::grant_form(id, csrf),
            "/grants/"@ + text::decimal_int(id as int) + "/revoke"@,
        ),
{
    let number = text::decimal_int(id as int);
    let want = "/grants/"@ + number + "/revoke"@;
    let head = "<form method=\"post\" action=\""@;
    let token = html::hidden("csrf"@, csrf);
    let button = "<button class=\"danger\">Revoke</button></form>"@;
    lemma_form_words();
    let form = html::grant_form(id, csrf);
    assert(form =~= (head + "/grants/"@) + number + ("/revoke"@ + "\">"@) + token + button);
    assert(form =~= head + want + ("\">"@ + token + button));
    lemma_part_between(head, want, "\">"@ + token + button);
}

proof fn lemma_form_words()
    ensures
        "<form method=\"post\" action=\"/grants/"@ == "<form method=\"post\" action=\""@
            + "/grants/"@,
        "/revoke\">"@ == "/revoke"@ + "\">"@,
{
    reveal_strlit("/grants/");
    reveal_strlit("<form method=\"post\" action=\"");
    reveal_strlit("<form method=\"post\" action=\"/grants/");
    reveal_strlit("/revoke");
    reveal_strlit("\">");
    reveal_strlit("/revoke\">");
    assert("<form method=\"post\" action=\"/grants/"@ =~= "<form method=\"post\" action=\""@
        + "/grants/"@);
    assert("/revoke\">"@ =~= "/revoke"@ + "\">"@);
}

/// The table of clients has a line for each, in their order, and says so when
/// there is none.
pub proof fn tables_have_a_line_for_each(
    list: Seq<ClientView>,
    live: Map<Text, LiveModel>,
    csrf: Text,
    now: i64,
    grants: Seq<GrantModel>,
    i: int,
)
    ensures
        0 <= i < list.len() ==> text::has_part(
            manage::client_table(list, live, csrf, now),
            html::client_line(
                list[i],
                live.dom().contains(list[i].name),
                manage::label(list[i].expires_at),
                csrf,
                now,
            ),
        ),
        0 <= i < grants.len() ==> text::has_part(
            manage::grant_table(grants, csrf),
            html::grant_line(grants[i], manage::label(grants[i].created_at), csrf),
        ),
        list.len() == 0 ==> manage::client_table(list, live, csrf, now) == html::NO_CLIENTS@,
        grants.len() == 0 ==> manage::grant_table(grants, csrf) == html::NO_GRANTS@,
{
    if 0 <= i < list.len() {
        lemma_client_lines(list, live, csrf, now, i);
    }
    if 0 <= i < grants.len() {
        lemma_grant_lines(grants, csrf, i);
    }
}

proof fn lemma_client_lines(
    list: Seq<ClientView>,
    live: Map<Text, LiveModel>,
    csrf: Text,
    now: i64,
    i: int,
)
    requires
        0 <= i < list.len(),
    ensures
        text::has_part(
            manage::client_lines(list, live, csrf, now),
            html::client_line(
                list[i],
                live.dom().contains(list[i].name),
                manage::label(list[i].expires_at),
                csrf,
                now,
            ),
        ),
    decreases list.len(),
{
    let first = list.drop_last();
    let last = list.last();
    let line = html::client_line(
        last,
        live.dom().contains(last.name),
        manage::label(last.expires_at),
        csrf,
        now,
    );
    let before = manage::client_lines(first, live, csrf, now);
    if i < first.len() {
        lemma_client_lines(first, live, csrf, now, i);
        assert(first[i] == list[i]);
        lemma_part_before(
            before,
            line,
            html::client_line(
                list[i],
                live.dom().contains(list[i].name),
                manage::label(list[i].expires_at),
                csrf,
                now,
            ),
        );
    } else {
        lemma_own_part(line);
        lemma_part_after(before, line, line);
    }
}

proof fn lemma_grant_lines(list: Seq<GrantModel>, csrf: Text, i: int)
    requires
        0 <= i < list.len(),
    ensures
        text::has_part(
            manage::grant_lines(list, csrf),
            html::grant_line(list[i], manage::label(list[i].created_at), csrf),
        ),
    decreases list.len(),
{
    let first = list.drop_last();
    let last = list.last();
    let line = html::grant_line(last, manage::label(last.created_at), csrf);
    let before = manage::grant_lines(first, csrf);
    if i < first.len() {
        lemma_grant_lines(first, csrf, i);
        assert(first[i] == list[i]);
        lemma_part_before(
            before,
            line,
            html::grant_line(list[i], manage::label(list[i].created_at), csrf),
        );
    } else {
        lemma_own_part(line);
        lemma_part_after(before, line, line);
    }
}

/// The management page shows who looks at it, the tables of clients and grants,
/// how many clients are online, and a code that has just come into force, with
/// the command that uses it.
#[verifier::rlimit(40)]
pub proof fn management_pages_show_the_tables(
    clients: Seq<ClientView>,
    grants: Seq<GrantModel>,
    live: Map<Text, LiveModel>,
    visit: Visit,
)
    ensures
        ({
            let reply = manage::page_of(clients, grants, live, visit);
            let csrf = gateway::csrf_of(visit.headers, visit.fresh).0;
            &&& reply.status == 200
            &&& reply.no_store
            &&& reply.set_cookie == gateway::csrf_of(visit.headers, visit.fresh).1
            &&& page_shows(reply, html::escaped(visit.owner))
            &&& page_shows(reply, manage::client_table(clients, live, csrf, visit.now))
            &&& page_shows(reply, manage::grant_table(grants, csrf))
            &&& page_shows(reply, html::count_text(live.dom().len()))
            &&& page_shows(reply, html::hidden("csrf"@, csrf))
            &&& visit.new matches Some(new) ==> page_shows(reply, html::escaped(new.name))
                && page_shows(reply, html::escaped(new.code)) && page_shows(
                reply,
                html::escaped(
                    "curl -fsSL "@ + "https://connector.ylxdzsw.com"@ + "/connect | bash -s -- '"@
                        + new.code + "'"@,
                ),
            )
        }),
{
    let csrf = gateway::csrf_of(visit.headers, visit.fresh).0;
    let base = crate::config::PUBLIC_URL@;
    let title = "Connector"@;
    let lines = manage::client_table(clients, live, csrf, visit.now);
    let rows = manage::grant_table(grants, csrf);
    let owner = html::escaped(visit.owner);
    let notice = html::notice_of(visit.new, base);
    let count = html::count_text(live.dom().len());
    let place = html::escaped(base);
    let token = html::hidden("csrf"@, csrf);
    let body = html::management_text(
        visit.owner,
        visit.new,
        live.dom().len(),
        base,
        csrf,
        lines,
        rows,
    );
    lemma_row(
        html::TOPBAR@,
        owner,
        html::MAIN@,
        notice,
        html::HEADING@,
        count,
        html::CONNECT_SECTION@,
        place,
        html::CREATE_FORM@,
        token,
        html::CLIENTS_SECTION@,
        lines,
        html::GRANTS_SECTION@,
        rows,
        html::MANAGEMENT_END@,
    );
    lemma_part_in_page(title, body, owner);
    lemma_part_in_page(title, body, lines);
    lemma_part_in_page(title, body, rows);
    lemma_part_in_page(title, body, count);
    lemma_part_in_page(title, body, token);
    if let Some(new) = visit.new {
        lemma_notice(new, base);
        let name = html::escaped(new.name);
        let code = html::escaped(new.code);
        let command = html::escaped(html::connect_command(base, new.code));
        lemma_part_of_part(body, notice, name);
        lemma_part_of_part(body, notice, code);
        lemma_part_of_part(body, notice, command);
        lemma_part_in_page(title, body, name);
        lemma_part_in_page(title, body, code);
        lemma_part_in_page(title, body, command);
    }
}

proof fn lemma_part_of_part(s: Text, middle: Text, p: Text)
    requires
        text::has_part(s, middle),
        text::has_part(middle, p),
    ensures
        text::has_part(s, p),
{
    let i = choose|i: int| #[trigger] text::occurs_at(s, middle, i);
    let j = choose|j: int| #[trigger] text::occurs_at(middle, p, j);
    assert(s.subrange(i + j, i + j + p.len()) =~= p) by {
        assert forall|k: int| 0 <= k < p.len() implies s[i + j + k] == p[k] by {
            assert(middle.subrange(j, j + p.len())[k] == p[k]);
            assert(s.subrange(i, i + middle.len())[j + k] == middle[j + k]);
        }
    }
    assert(text::occurs_at(s, p, i + j));
}

proof fn lemma_more(s: Text, a: Text, b: Text, c: Text, d: Text, p: Text)
    requires
        text::has_part(s, p),
    ensures
        text::has_part(s + a + b + c + d, p),
{
    lemma_part_before(s, a, p);
    lemma_part_before(s + a, b, p);
    lemma_part_before(s + a + b, c, p);
    lemma_part_before(s + a + b + c, d, p);
}

proof fn lemma_row(
    p0: Text,
    p1: Text,
    p2: Text,
    p3: Text,
    p4: Text,
    p5: Text,
    p6: Text,
    p7: Text,
    p8: Text,
    p9: Text,
    p10: Text,
    p11: Text,
    p12: Text,
    p13: Text,
    p14: Text,
)
    ensures
        ({
            let all = p0 + p1 + p2 + p3 + p4 + p5 + p6 + p7 + p8 + p9 + p10 + p11 + p12 + p13 + p14;
            &&& text::has_part(all, p1)
            &&& text::has_part(all, p3)
            &&& text::has_part(all, p5)
            &&& text::has_part(all, p9)
            &&& text::has_part(all, p11)
            &&& text::has_part(all, p13)
        }),
{
    let a1 = p0 + p1;
    let a2 = a1 + p2;
    let a3 = a2 + p3;
    let a5 = a3 + p4 + p5;
    let a8 = a5 + p6 + p7 + p8;
    let a9 = a8 + p9;
    let a11 = a9 + p10 + p11;
    let a13 = a11 + p12 + p13;
    lemma_own_part(p1);
    lemma_part_after(p0, p1, p1);
    lemma_more(a1, p2, p3, p4, p5, p1);
    lemma_more(a5, p6, p7, p8, p9, p1);
    lemma_more(a9, p10, p11, p12, p13, p1);
    lemma_part_before(a13, p14, p1);
    lemma_own_part(p3);
    lemma_part_after(a2, p3, p3);
    lemma_part_before(a3, p4, p3);
    lemma_part_before(a3 + p4, p5, p3);
    lemma_more(a5, p6, p7, p8, p9, p3);
    lemma_more(a9, p10, p11, p12, p13, p3);
    lemma_part_before(a13, p14, p3);
    lemma_own_part(p5);
    lemma_part_after(a3 + p4, p5, p5);
    lemma_more(a5, p6, p7, p8, p9, p5);
    lemma_more(a9, p10, p11, p12, p13, p5);
    lemma_part_before(a13, p14, p5);
    lemma_own_part(p9);
    lemma_part_after(a8, p9, p9);
    lemma_more(a9, p10, p11, p12, p13, p9);
    lemma_part_before(a13, p14, p9);
    lemma_own_part(p11);
    lemma_part_after(a9 + p10, p11, p11);
    lemma_part_before(a11, p12, p11);
    lemma_part_before(a11 + p12, p13, p11);
    lemma_part_before(a13, p14, p11);
    lemma_own_part(p13);
    lemma_part_after(a11 + p12, p13, p13);
    lemma_part_before(a13, p14, p13);
}

#[verifier::rlimit(40)]
proof fn lemma_notice(new: NewCodeModel, base: Text)
    ensures
        text::has_part(html::notice_text(new, base), html::escaped(new.name)),
        text::has_part(html::notice_text(new, base), html::escaped(new.code)),
        text::has_part(
            html::notice_text(new, base),
            html::escaped(html::connect_command(base, new.code)),
        ),
{
    let a = "<div class=\"notice\"><strong>Client "@;
    let name = html::escaped(new.name);
    let b = if new.created {
        " created"@
    } else {
        " rotated"@
    };
    let c = "</strong>Connection code: <code>"@;
    let code = html::escaped(new.code);
    let d = "</code>. This is the only time the code is shown.<div class=\"command\"><code>"@;
    let command = html::escaped(html::connect_command(base, new.code));
    let e = "</code></div></div>"@;
    let all = html::notice_text(new, base);
    assert(all =~= a + name + (b + c + code + d + command + e));
    lemma_part_between(a, name, b + c + code + d + command + e);
    assert(all =~= (a + name + b + c) + code + (d + command + e));
    lemma_part_between(a + name + b + c, code, d + command + e);
    assert(all =~= (a + name + b + c + code + d) + command + e);
    lemma_part_between(a + name + b + c + code + d, command, e);
}

/// The number of clients that are online is told in words.
pub proof fn counts_are_told_in_words(online: nat)
    ensures
        online == 1 ==> html::count_text(online) == text::decimal(1) + " client"@,
        online != 1 ==> html::count_text(online) == text::decimal(online) + " client"@ + "s"@,
{
    reveal_strlit("");
    assert(html::count_text(1) =~= text::decimal(1) + " client"@);
}

/// A time that cannot be written is told as such, and any other as it is written.
pub proof fn times_are_told_as_written(written: Text)
    ensures
        manage::shown_time(Some(written)) == written,
        manage::shown_time(None) == "Invalid date"@,
{
}

/// The five characters of markup are written as what browsers read as them, and
/// every other character as it is.
pub proof fn markup_is_written_as_entities(c: char)
    ensures
        ({
            let s = html::escaped(seq![c]);
            &&& c == '&' ==> s == "&amp;"@
            &&& c == '<' ==> s == "&lt;"@
            &&& c == '>' ==> s == "&gt;"@
            &&& c == '"' ==> s == "&quot;"@
            &&& c == '\'' ==> s == "&#39;"@
            &&& c != '&' && c != '<' && c != '>' && c != '"' && c != '\'' ==> s == seq![c]
        }),
{
    let one = seq![c];
    assert(one.drop_last() =~= Seq::empty());
    assert(html::escaped(one.drop_last()) =~= Seq::empty());
    assert(Seq::<char>::empty() + html::entity(c) =~= html::entity(c));
}

} // verus!
