//! The pages of the gateway and the script that connects a machine.
use vstd::prelude::*;

use crate::db::rows::{ClientRecord, ClientView, GrantModel, GrantRecord};
use crate::gateway;
use crate::gateway::{Body, BodyModel, Reply, ReplyModel};
use crate::text;
use crate::text::Text;

verus! {

// ---------------------------------------------------------------------------
// Escaping
// ---------------------------------------------------------------------------
/// How a character is written in a page.
pub open spec fn entity(c: char) -> Text {
    if c == '&' {
        "&amp;"@
    } else if c == '<' {
        "&lt;"@
    } else if c == '>' {
        "&gt;"@
    } else if c == '"' {
        "&quot;"@
    } else if c == '\'' {
        "&#39;"@
    } else {
        seq![c]
    }
}

/// How a text is written in a page.
pub open spec fn escaped(s: Text) -> Text
    decreases s.len(),
{
    if s.len() == 0 {
        Seq::empty()
    } else {
        escaped(s.drop_last()) + entity(s.last())
    }
}

/// Writes a text for a page.
pub fn escape(value: &str) -> (r: String)
    ensures
        r@ == escaped(value@),
{
    let chars = text::chars_of(value);
    let mut out = "".to_string();
    proof {
        reveal_strlit("");
        assert(out@ =~= escaped(chars@.take(0)));
    }
    for i in 0..chars.len()
        invariant
            out@ == escaped(chars@.take(i as int)),
    {
        let c = chars[i];
        let ghost done = out@;
        if c == '&' {
            out.append("&amp;");
        } else if c == '<' {
            out.append("&lt;");
        } else if c == '>' {
            out.append("&gt;");
        } else if c == '"' {
            out.append("&quot;");
        } else if c == '\'' {
            out.append("&#39;");
        } else {
            out.push(c);
            assert(out@ =~= done + seq![c]);
        }
        proof {
            let next = chars@.take(i + 1);
            assert(next.drop_last() =~= chars@.take(i as int));
            assert(next.last() == c);
        }
    }
    assert(chars@.take(chars@.len() as int) =~= value@);
    out
}

/// Whether a character could end the text or the attribute that it stands in.
pub open spec fn is_markup(c: char) -> bool {
    c == '<' || c == '>' || c == '"' || c == '\''
}

/// What is written for a page holds no markup, whatever the text holds.
pub proof fn escaped_text_holds_no_markup(s: Text)
    ensures
        forall|i: int| 0 <= i < escaped(s).len() ==> !is_markup(#[trigger] escaped(s)[i]),
    decreases s.len(),
{
    if s.len() > 0 {
        escaped_text_holds_no_markup(s.drop_last());
        reveal_strlit("&amp;");
        reveal_strlit("&lt;");
        reveal_strlit("&gt;");
        reveal_strlit("&quot;");
        reveal_strlit("&#39;");
        let before = escaped(s.drop_last());
        assert forall|i: int| 0 <= i < escaped(s).len() implies !is_markup(
            #[trigger] escaped(s)[i],
        ) by {
            if i < before.len() {
                assert(escaped(s)[i] == before[i]);
            } else {
                assert(escaped(s)[i] == entity(s.last())[i - before.len()]);
            }
        }
    }
}

/// A text without special characters is written as it is.
pub proof fn plain_text_is_kept(s: Text)
    requires
        forall|i: int| 0 <= i < s.len() ==> !is_markup(#[trigger] s[i]) && s[i] != '&',
    ensures
        escaped(s) == s,
    decreases s.len(),
{
    if s.len() > 0 {
        assert forall|i: int| 0 <= i < s.drop_last().len() implies !is_markup(
            #[trigger] s.drop_last()[i],
        ) && s.drop_last()[i] != '&' by {
            assert(s.drop_last()[i] == s[i]);
        }
        plain_text_is_kept(s.drop_last());
        assert(!is_markup(s[s.len() - 1]));
        assert(escaped(s) =~= s);
    }
}

/// Texts can be written for a page part by part.
pub proof fn escaping_goes_part_by_part(a: Text, b: Text)
    ensures
        escaped(a + b) == escaped(a) + escaped(b),
    decreases b.len(),
{
    if b.len() == 0 {
        assert(a + b =~= a);
        assert(escaped(a) + escaped(b) =~= escaped(a));
    } else {
        escaping_goes_part_by_part(a, b.drop_last());
        assert((a + b).drop_last() =~= a + b.drop_last());
        assert(escaped(a) + (escaped(b.drop_last()) + entity(b.last())) =~= (escaped(a) + escaped(
            b.drop_last(),
        )) + entity(b.last()));
    }
}

proof fn lemma_escaped_first(s: Text)
    requires
        s.len() > 0,
    ensures
        escaped(s) == entity(s[0]) + escaped(s.skip(1)),
{
    let head = s.take(1);
    assert(head + s.skip(1) =~= s);
    escaping_goes_part_by_part(head, s.skip(1));
    assert(escaped(head.drop_last()) =~= Seq::empty());
    assert(escaped(head) =~= entity(s[0]));
}

proof fn lemma_entities_differ(c: char, d: char, x: Text, y: Text)
    requires
        entity(c) + x == entity(d) + y,
    ensures
        c == d,
        x == y,
{
    reveal_strlit("&amp;");
    reveal_strlit("&lt;");
    reveal_strlit("&gt;");
    reveal_strlit("&quot;");
    reveal_strlit("&#39;");
    let e = entity(c);
    let f = entity(d);
    assert((e + x)[0] == e[0] && (f + y)[0] == f[0]);
    if e[0] == '&' {
        assert((e + x)[1] == e[1] && (f + y)[1] == f[1]);
    }
    assert(x =~= (e + x).skip(e.len() as int));
    assert(y =~= (f + y).skip(f.len() as int));
}

/// Different texts are written differently, so that what a page shows tells the
/// text.
pub proof fn escaped_text_tells_the_text(a: Text, b: Text)
    requires
        escaped(a) == escaped(b),
    ensures
        a == b,
    decreases a.len(),
{
    reveal_strlit("&amp;");
    reveal_strlit("&lt;");
    reveal_strlit("&gt;");
    reveal_strlit("&quot;");
    reveal_strlit("&#39;");
    if a.len() > 0 {
        lemma_escaped_first(a);
    }
    if b.len() > 0 {
        lemma_escaped_first(b);
    }
    if a.len() > 0 && b.len() > 0 {
        lemma_entities_differ(a[0], b[0], escaped(a.skip(1)), escaped(b.skip(1)));
        escaped_text_tells_the_text(a.skip(1), b.skip(1));
        assert(a =~= seq![a[0]] + a.skip(1));
        assert(b =~= seq![b[0]] + b.skip(1));
    } else {
        assert(a.len() > 0 ==> entity(a[0]).len() > 0);
        assert(b.len() > 0 ==> entity(b[0]).len() > 0);
        assert(escaped(a).len() == escaped(b).len());
        assert(a =~= b);
    }
}

// ---------------------------------------------------------------------------
// Pages
// ---------------------------------------------------------------------------
pub const PAGE_START: &'static str =
    "<!doctype html><html lang=\"en\"><head><meta charset=\"utf-8\"><meta name=\"viewport\" content=\"width=device-width,initial-scale=1\"><title>";

pub const PAGE_BODY: &'static str =
    "</title><link rel=\"stylesheet\" href=\"/assets/styles.css\"></head><body>";

pub const PAGE_END: &'static str = "</body></html>";

/// A whole page around a body.
pub open spec fn page_text(title: Text, body: Text) -> Text {
    PAGE_START@ + escaped(title) + PAGE_BODY@ + body + PAGE_END@
}

/// The reply with a page, which nobody may keep, and a cookie where one is to be
/// set.
pub open spec fn page(title: Text, body: Text, set_cookie: Option<Text>) -> ReplyModel {
    ReplyModel {
        no_store: true,
        set_cookie,
        ..gateway::answered(200, BodyModel::Html(page_text(title, body)))
    }
}

/// The reply with a page.
pub fn html_response(title: &str, body: &str, set_cookie: Option<String>) -> (r: Reply)
    ensures
        r@ == page(title@, body@, text::opt_text(set_cookie)),
{
    let mut html = PAGE_START.to_string();
    html.append(escape(title).as_str());
    html.append(PAGE_BODY);
    html.append(body);
    html.append(PAGE_END);
    let mut r = gateway::reply(200, Body::Html(html));
    r.no_store = true;
    r.set_cookie = set_cookie;
    r
}

/// The body of a page that tells what went wrong.
pub open spec fn error_text(title: Text, detail: Text) -> Text {
    "<div class=\"error\"><h1>"@ + escaped(title) + "</h1><p>"@ + escaped(detail) + "</p></div>"@
}

/// The reply that tells what went wrong.
pub open spec fn error(status: u16, title: Text, detail: Text) -> ReplyModel {
    ReplyModel { status, ..page(title, error_text(title, detail), None) }
}

/// The reply that tells what went wrong.
pub fn error_page(status: u16, title: &str, detail: &str) -> (r: Reply)
    ensures
        r@ == error(status, title@, detail@),
{
    let mut body = "<div class=\"error\"><h1>".to_string();
    body.append(escape(title).as_str());
    body.append("</h1><p>");
    body.append(escape(detail).as_str());
    body.append("</p></div>");
    let mut r = html_response(title, body.as_str(), None);
    r.status = status;
    r
}

/// A value that a form carries along.
pub open spec fn hidden(name: Text, value: Text) -> Text {
    "<input type=\"hidden\" name=\""@ + name + "\" value=\""@ + escaped(value) + "\">"@
}

/// A value that a form carries along.
pub fn hidden_input(name: &str, value: &str) -> (r: String)
    ensures
        r@ == hidden(name@, value@),
{
    let mut s = "<input type=\"hidden\" name=\"".to_string();
    s.append(name);
    s.append("\" value=\"");
    s.append(escape(value).as_str());
    s.append("\">");
    s
}

// ---------------------------------------------------------------------------
// Consent
// ---------------------------------------------------------------------------
pub const CONSENT_START: &'static str =
    "\n<div class=\"consent\"><div class=\"panel\">\n  <div class=\"consent-mark\">C</div>\n  <h1>Allow controller access?</h1>\n  <p><strong>";

pub const CONSENT_SUBJECT: &'static str =
    "</strong> is requesting control of Connector as <strong>";

pub const CONSENT_WARNING: &'static str =
    "</strong>.</p>\n  <div class=\"warning\">This controller will be able to run shell commands and capture graphical desktop screenshots on all current and future connected clients until access is revoked.</div>\n  <div class=\"scope\"><span>Discover clients</span><strong>Allowed</strong></div>\n  <div class=\"scope\"><span>Run commands and capture screenshots</span><strong>Allowed</strong></div>";

pub const CONSENT_OFFLINE: &'static str =
    "<div class=\"scope\"><span>Stay authorized</span><strong>Until revoked</strong></div>";

pub const CONSENT_FORM: &'static str =
    "\n  <form method=\"post\" action=\"/oauth/authorize\" class=\"consent-actions\">";

pub const CONSENT_END: &'static str =
    "\n    <button class=\"secondary\" name=\"decision\" value=\"deny\">Deny</button>\n    <button name=\"decision\" value=\"allow\">Allow access</button>\n  </form>\n</div></div>";

/// The page body that asks whether a controller may have access: who asks, as
/// whom, for how long, and the form with the request and the token in it.
pub open spec fn consent_text(
    client_id: Text,
    subject: Text,
    offline: bool,
    request: Text,
    csrf: Text,
) -> Text {
    CONSENT_START@ + escaped(client_id) + CONSENT_SUBJECT@ + escaped(subject) + CONSENT_WARNING@
        + if offline {
        CONSENT_OFFLINE@
    } else {
        ""@
    } + CONSENT_FORM@ + request + hidden("csrf"@, csrf) + CONSENT_END@
}

/// The page body that asks whether a controller may have access.
pub fn consent_body(client_id: &str, subject: &str, offline: bool, request: &str, csrf: &str) -> (r:
    String)
    ensures
        r@ == consent_text(client_id@, subject@, offline, request@, csrf@),
{
    let mut s = CONSENT_START.to_string();
    s.append(escape(client_id).as_str());
    s.append(CONSENT_SUBJECT);
    s.append(escape(subject).as_str());
    s.append(CONSENT_WARNING);
    s.append(
        if offline {
            CONSENT_OFFLINE
        } else {
            ""
        },
    );
    s.append(CONSENT_FORM);
    s.append(request);
    s.append(hidden_input("csrf", csrf).as_str());
    s.append(CONSENT_END);
    s
}

// ---------------------------------------------------------------------------
// Management
// ---------------------------------------------------------------------------
/// The command that connects a machine with its code.
pub open spec fn connect_command(base: Text, code: Text) -> Text {
    "curl -fsSL "@ + base + "/connect | bash -s -- '"@ + code + "'"@
}

/// The command that connects a machine with its code.
pub fn connection_command(base: &str, code: &str) -> (r: String)
    ensures
        r@ == connect_command(base@, code@),
{
    let mut s = "curl -fsSL ".to_string();
    s.append(base);
    s.append("/connect | bash -s -- '");
    s.append(code);
    s.append("'");
    s
}

/// A code that has just come into force for a client.
#[derive(Debug)]
pub struct NewCode {
    pub name: String,
    pub code: String,
    /// The client is new too.
    pub created: bool,
}

/// The model of [`NewCode`].
pub struct NewCodeModel {
    pub name: Text,
    pub code: Text,
    pub created: bool,
}

impl View for NewCode {
    type V = NewCodeModel;

    open spec fn view(&self) -> NewCodeModel {
        NewCodeModel { name: self.name@, code: self.code@, created: self.created }
    }
}

pub open spec fn new_code_model(new: Option<NewCode>) -> Option<NewCodeModel> {
    match new {
        Some(n) => Some(n@),
        None => None,
    }
}

/// What the page says of a code that has just come into force: for which client,
/// the code, and the command that uses it.
pub open spec fn notice_text(new: NewCodeModel, base: Text) -> Text {
    "<div class=\"notice\"><strong>Client "@ + escaped(new.name) + if new.created {
        " created"@
    } else {
        " rotated"@
    } + "</strong>Connection code: <code>"@ + escaped(new.code)
        + "</code>. This is the only time the code is shown.<div class=\"command\"><code>"@
        + escaped(connect_command(base, new.code)) + "</code></div></div>"@
}

pub open spec fn notice_of(new: Option<NewCodeModel>, base: Text) -> Text {
    match new {
        Some(n) => notice_text(n, base),
        None => ""@,
    }
}

fn notice(new: &Option<NewCode>, base: &str) -> (r: String)
    ensures
        r@ == notice_of(new_code_model(*new), base@),
{
    match new {
        Some(n) => {
            let mut s = "<div class=\"notice\"><strong>Client ".to_string();
            s.append(escape(n.name.as_str()).as_str());
            s.append(
                if n.created {
                    " created"
                } else {
                    " rotated"
                },
            );
            s.append("</strong>Connection code: <code>");
            s.append(escape(n.code.as_str()).as_str());
            s.append(
                "</code>. This is the only time the code is shown.<div class=\"command\"><code>",
            );
            s.append(escape(connection_command(base, n.code.as_str()).as_str()).as_str());
            s.append("</code></div></div>");
            s
        },
        None => "".to_string(),
    }
}

pub const REVOKED: &'static str = "<span class=\"pill revoked\">Revoked</span>";

pub const EXPIRED: &'static str = "<span class=\"pill expired\">Expired</span>";

pub const ONLINE: &'static str = "<span class=\"pill online\">Online</span>";

pub const OFFLINE: &'static str = "<span class=\"pill\">Offline</span>";

pub const ACTIVE: &'static str = "<span class=\"pill online\">Active</span>";

/// How a client is doing.
pub open spec fn client_status(client: ClientView, online: bool, now: i64) -> Text {
    if client.revoked_at is Some {
        REVOKED@
    } else if client.expires_at <= now {
        EXPIRED@
    } else if online {
        ONLINE@
    } else {
        OFFLINE@
    }
}

/// The forms for a client that is in force.
pub open spec fn client_forms(name: Text, csrf: Text) -> Text {
    "<div class=\"client-actions\"><form class=\"extend\" method=\"post\" action=\"/clients/"@
        + escaped(name) + "/extend\">"@ + hidden("csrf"@, csrf)
        + "<input required type=\"number\" min=\"1\" max=\"3650\" value=\"30\" name=\"days\" aria-label=\"Days to extend\" title=\"Days to extend\"><button class=\"secondary\">Extend</button></form><form method=\"post\" action=\"/clients/"@
        + escaped(name) + "/rotate\">"@ + hidden("csrf"@, csrf)
        + "<button class=\"secondary\">Rotate</button></form><form method=\"post\" action=\"/clients/"@
        + escaped(name) + "/revoke\">"@ + hidden("csrf"@, csrf)
        + "<button class=\"danger\">Revoke</button></form></div>"@
}

/// The line of the page for a client, with its expiration as it is to be shown.
pub open spec fn client_line(
    client: ClientView,
    online: bool,
    expires: Text,
    csrf: Text,
    now: i64,
) -> Text {
    "<tr><td><strong>"@ + escaped(client.name) + "</strong></td><td>"@ + client_status(
        client,
        online,
        now,
    ) + "</td><td>"@ + expires + "</td><td class=\"actions\">"@ + if client.revoked_at is None {
        client_forms(client.name, csrf)
    } else {
        ""@
    } + "</td></tr>"@
}

fn client_actions(name: &str, csrf: &str) -> (r: String)
    ensures
        r@ == client_forms(name@, csrf@),
{
    let name = escape(name);
    let token = hidden_input("csrf", csrf);
    let mut s =
        "<div class=\"client-actions\"><form class=\"extend\" method=\"post\" action=\"/clients/".to_string();
    s.append(name.as_str());
    s.append("/extend\">");
    s.append(token.as_str());
    s.append(
        "<input required type=\"number\" min=\"1\" max=\"3650\" value=\"30\" name=\"days\" aria-label=\"Days to extend\" title=\"Days to extend\"><button class=\"secondary\">Extend</button></form><form method=\"post\" action=\"/clients/",
    );
    s.append(name.as_str());
    s.append("/rotate\">");
    s.append(token.as_str());
    s.append(
        "<button class=\"secondary\">Rotate</button></form><form method=\"post\" action=\"/clients/",
    );
    s.append(name.as_str());
    s.append("/revoke\">");
    s.append(token.as_str());
    s.append("<button class=\"danger\">Revoke</button></form></div>");
    s
}

/// The line of the page for a client.
pub fn client_row(client: &ClientRecord, online: bool, expires: &str, csrf: &str, now: i64) -> (r:
    String)
    ensures
        r@ == client_line(client@, online, expires@, csrf@, now),
{
    let status = if client.revoked_at.is_some() {
        REVOKED
    } else if client.expires_at <= now {
        EXPIRED
    } else if online {
        ONLINE
    } else {
        OFFLINE
    };
    let forms = if client.revoked_at.is_none() {
        client_actions(client.name.as_str(), csrf)
    } else {
        "".to_string()
    };
    let mut s = "<tr><td><strong>".to_string();
    s.append(escape(client.name.as_str()).as_str());
    s.append("</strong></td><td>");
    s.append(status);
    s.append("</td><td>");
    s.append(expires);
    s.append("</td><td class=\"actions\">");
    s.append(forms.as_str());
    s.append("</td></tr>");
    s
}

/// The line of the page for a grant, with its time as it is to be shown.
pub open spec fn grant_line(grant: GrantModel, created: Text, csrf: Text) -> Text {
    "<tr><td>"@ + escaped(grant.client_id) + "</td><td><strong>"@ + escaped(grant.scopes)
        + "</strong></td><td>"@ + if grant.revoked_at is Some {
        REVOKED@
    } else {
        ACTIVE@
    } + "</td><td>"@ + created + "</td><td class=\"actions\">"@ + if grant.revoked_at is None {
        grant_form(grant.id, csrf)
    } else {
        ""@
    } + "</td></tr>"@
}

/// The form for a grant that is in force.
pub open spec fn grant_form(id: i64, csrf: Text) -> Text {
    "<form method=\"post\" action=\"/grants/"@ + text::decimal_int(id as int) + "/revoke\">"@
        + hidden("csrf"@, csrf) + "<button class=\"danger\">Revoke</button></form>"@
}

fn grant_action(id: i64, csrf: &str) -> (r: String)
    ensures
        r@ == grant_form(id, csrf@),
{
    let mut s = "<form method=\"post\" action=\"/grants/".to_string();
    s.append(text::signed_number(id).as_str());
    s.append("/revoke\">");
    s.append(hidden_input("csrf", csrf).as_str());
    s.append("<button class=\"danger\">Revoke</button></form>");
    s
}

/// The line of the page for a grant.
pub fn grant_row(grant: &GrantRecord, created: &str, csrf: &str) -> (r: String)
    ensures
        r@ == grant_line(grant@, created@, csrf@),
{
    let status = if grant.revoked_at.is_some() {
        REVOKED
    } else {
        ACTIVE
    };
    let form = if grant.revoked_at.is_none() {
        grant_action(grant.id, csrf)
    } else {
        "".to_string()
    };
    let mut s = "<tr><td>".to_string();
    s.append(escape(grant.client_id.as_str()).as_str());
    s.append("</td><td><strong>");
    s.append(escape(grant.scopes.as_str()).as_str());
    s.append("</strong></td><td>");
    s.append(status);
    s.append("</td><td>");
    s.append(created);
    s.append("</td><td class=\"actions\">");
    s.append(form.as_str());
    s.append("</td></tr>");
    s
}

pub const TOPBAR: &'static str =
    "\n<header class=\"topbar\"><div class=\"topbar-inner\"><div class=\"brand\"><span class=\"mark\">C</span>Connector</div><span class=\"subject\">";

pub const MAIN: &'static str = "</span></div></header>\n<main>";

pub const HEADING: &'static str =
    "<div class=\"page-head\"><div><h1>Connection control</h1><p>Provision Unix clients and manage controller access.</p></div><span class=\"status\"><span class=\"dot online\"></span>";

pub const CONNECT_SECTION: &'static str =
    " online</span></div>\n<section><div class=\"section-head\"><h2>Connect a client</h2></div><div class=\"panel\"><div class=\"command\"><code>curl -fsSL ";

pub const CREATE_FORM: &'static str =
    "/connect | bash</code></div><form class=\"create\" method=\"post\" action=\"/clients\">";

pub const CLIENTS_SECTION: &'static str =
    "<label>Client name<input required maxlength=\"64\" name=\"name\" placeholder=\"build-server\" pattern=\"[A-Za-z0-9][A-Za-z0-9._-]*\"></label><label>Valid for<input required type=\"number\" min=\"1\" max=\"3650\" value=\"30\" name=\"days\"></label><button>Create credential</button></form></div></section>\n<section class=\"section\"><div class=\"section-head\"><h2>Clients</h2></div><div class=\"panel table-wrap\"><table><thead><tr><th>Name</th><th>Status</th><th>Expires</th><th></th></tr></thead><tbody>";

pub const GRANTS_SECTION: &'static str =
    "</tbody></table></div></section>\n<section class=\"section\"><div class=\"section-head\"><h2>Controller grants</h2></div><div class=\"panel table-wrap\"><table><thead><tr><th>Controller</th><th>Scopes</th><th>Status</th><th>Created</th><th></th></tr></thead><tbody>";

pub const MANAGEMENT_END: &'static str = "</tbody></table></div></section>\n</main>";

pub const NO_CLIENTS: &'static str =
    "<tr><td colspan=\"4\" class=\"empty\">No client credentials yet.</td></tr>";

pub const NO_GRANTS: &'static str =
    "<tr><td colspan=\"5\" class=\"empty\">No controller grants yet.</td></tr>";

/// The number of clients that are online, in words.
pub open spec fn count_text(online: nat) -> Text {
    text::decimal(online) + " client"@ + if online == 1 {
        ""@
    } else {
        "s"@
    }
}

/// The body of the management page: who is there, a code that has just come into
/// force, how many clients are online, and the lines for clients and grants.
pub open spec fn management_text(
    owner: Text,
    new: Option<NewCodeModel>,
    online: nat,
    base: Text,
    csrf: Text,
    client_lines: Text,
    grant_lines: Text,
) -> Text {
    TOPBAR@ + escaped(owner) + MAIN@ + notice_of(new, base) + HEADING@ + count_text(online)
        + CONNECT_SECTION@ + escaped(base) + CREATE_FORM@ + hidden("csrf"@, csrf) + CLIENTS_SECTION@
        + client_lines + GRANTS_SECTION@ + grant_lines + MANAGEMENT_END@
}

/// The body of the management page.
pub fn management_body(
    owner: &str,
    new: &Option<NewCode>,
    online: u64,
    base: &str,
    csrf: &str,
    client_lines: &str,
    grant_lines: &str,
) -> (r: String)
    ensures
        r@ == management_text(
            owner@,
            new_code_model(*new),
            online as nat,
            base@,
            csrf@,
            client_lines@,
            grant_lines@,
        ),
{
    let mut count = text::number(online);
    count.append(" client");
    count.append(
        if online == 1 {
            ""
        } else {
            "s"
        },
    );
    let mut s = TOPBAR.to_string();
    s.append(escape(owner).as_str());
    s.append(MAIN);
    s.append(notice(new, base).as_str());
    s.append(HEADING);
    s.append(count.as_str());
    s.append(CONNECT_SECTION);
    s.append(escape(base).as_str());
    s.append(CREATE_FORM);
    s.append(hidden_input("csrf", csrf).as_str());
    s.append(CLIENTS_SECTION);
    s.append(client_lines);
    s.append(GRANTS_SECTION);
    s.append(grant_lines);
    s.append(MANAGEMENT_END);
    s
}

// ---------------------------------------------------------------------------
// Connecting a machine
// ---------------------------------------------------------------------------
pub const SCRIPT_START: &'static str =
    r#"#!/bin/sh
set -eu
client="$(command -v connector-client 2>/dev/null || true)"
if [ -z "$client" ] || [ ! -x "$client" ]; then
    client="$(mktemp "${TMPDIR:-/tmp}/connector-client.XXXXXX")"
    trap 'rm -f "$client"' EXIT HUP INT TERM
    curl -fsSL '"#;

pub const SCRIPT_RUN: &'static str =
    r#"/download/client' -o "$client"
    chmod 700 "$client"
fi
if [ "$#" -gt 0 ]; then
    "$client" --gateway '"#;

pub const SCRIPT_CODE: &'static str =
    r#"' --code "$1"
else
    "$client" --gateway '"#;

pub const SCRIPT_END: &'static str = r#"'
fi
"#;

/// The script that finds or fetches the client and runs it against a gateway,
/// with the connection code where the script is given one.
pub open spec fn script_text(base: Text) -> Text {
    SCRIPT_START@ + base + SCRIPT_RUN@ + base + SCRIPT_CODE@ + base + SCRIPT_END@
}

/// The script that connects a machine.
pub fn connect_script_body(base: &str) -> (r: String)
    ensures
        r@ == script_text(base@),
{
    let mut s = SCRIPT_START.to_string();
    s.append(base);
    s.append(SCRIPT_RUN);
    s.append(base);
    s.append(SCRIPT_CODE);
    s.append(base);
    s.append(SCRIPT_END);
    s
}

} // verus!
