//! What holds of the gateway across requests.
use vstd::prelude::*;

use crate::clock;
use crate::config::RESOURCE_URL;
use crate::crypto;
use crate::db::laws;
use crate::db::model;
use crate::db::model::{Tables, ACCESS_TTL, CODE_TTL};
use crate::gateway;
use crate::gateway::admission;
use crate::gateway::admission::FailureTable;
use crate::gateway::links;
use crate::gateway::links::LinksModel;
use crate::gateway::manage;
use crate::gateway::manage::CreateClientModel;
use crate::gateway::oauth;
use crate::gateway::oauth::{ConsentModel, TokenFormModel};
use crate::gateway::urls;
use crate::gateway::{BodyModel, HeadersModel, ReplyModel};
use crate::mcp::LiveModel;
use crate::text::Text;

verus! {

// ---------------------------------------------------------------------------
// Controllers
// ---------------------------------------------------------------------------
/// The one form of acceptable scopes names `control`, and names
/// `offline_access` where the request does.
pub proof fn canonical_scopes_keep_their_meaning(scope: Text)
    requires
        oauth::scopes_acceptable(scope),
    ensures
        forall|word: Text| #[trigger]
            model::scope_named(oauth::canonical(scope), word) == model::scope_named(scope, word),
        oauth::scopes_acceptable(oauth::canonical(scope)),
        oauth::canonical(oauth::canonical(scope)) == oauth::canonical(scope),
{
    reveal_strlit("control");
    reveal_strlit("offline_access");
    reveal_strlit("control offline_access");
    let c = oauth::canonical(scope);
    let control = "control"@;
    let offline = "offline_access"@;
    let both = "control offline_access"@;
    assert(both.subrange(0, 7) =~= control);
    assert(both.subrange(8, 22) =~= offline);
    assert(control.subrange(0, 7) =~= control);
    assert(model::word_at(control, control, 0));
    assert(model::word_at(both, control, 0));
    assert(model::word_at(both, offline, 8));
    assert(model::scope_named(control, control));
    assert(model::scope_named(both, control));
    assert(model::scope_named(both, offline));
    assert forall|word: Text| #[trigger] model::scope_named(c, word) implies word == control || (
    word == offline && c == both) by {
        let i = choose|i: int| model::word_at(c, word, i);
        let n = word.len() as int;
        assert(c.subrange(i, i + n) == word);
        assert(forall|k: int| 0 <= k < n ==> c[i + k] == #[trigger] word[k]);
        if c == control {
            assert(i == 0);
            if n < 7 {
                assert(!crate::text::is_ascii_space(c[n]));
            }
            assert(word =~= control);
        } else {
            assert(i == 0 || i == 8);
            if i == 0 {
                if n < 7 {
                    assert(!crate::text::is_ascii_space(c[n]));
                }
                if n > 7 {
                    assert(word[7] == c[7]);
                }
                assert(word =~= control);
            } else {
                if n < 14 {
                    assert(!crate::text::is_ascii_space(c[8 + n]));
                }
                assert(word =~= offline);
            }
        }
    }
    assert forall|word: Text| #[trigger] model::scope_named(c, word) == model::scope_named(
        scope,
        word,
    ) by {
        if model::scope_named(scope, word) {
            assert(word == control || word == offline);
        }
    }
}

/// A controller that a person has allowed access exchanges its code, with the
/// verifier of its challenge and within five minutes, for an access token, which
/// opens the tools for an hour. It gets a refresh token where it has asked for
/// one.
pub proof fn approved_controllers_get_control(
    t: Tables,
    headers: HeadersModel,
    form: ConsentModel,
    code: Text,
    created: i64,
    secret: Text,
    verifier: Text,
    now: i64,
    access: Text,
    refresh: Text,
    request: HeadersModel,
    later: i64,
)
    requires
        model::consistent(t),
        clock::readable(created),
        clock::readable(now),
        gateway::subject_of(headers) is Some,
        gateway::csrf_matches(headers, form.csrf),
        oauth::request_problem(t, form.oauth) is None,
        urls::is_url(form.oauth.redirect_uri),
        form.decision == "allow"@,
        model::next_id(t.grants) <= i64::MAX,
        !t.codes.dom().contains(crypto::hashed(code)),
        model::authentic(t, form.oauth.client_id, secret),
        now < created + CODE_TTL,
        model::proves(verifier, form.oauth.code_challenge),
        !t.access.dom().contains(crypto::hashed(access)),
        !t.refresh.dom().contains(crypto::hashed(refresh)),
        gateway::bearer_of(request) == Some(access),
        later < now + ACCESS_TTL,
    ensures
        oauth::consented(t, headers, form, code, created) matches Some((granted, told)) && told
            == gateway::redirected(
            urls::with_pairs(
                form.oauth.redirect_uri,
                oauth::approval(code, form.oauth.state),
            ),
        ) && ({
            let (next, reply) = oauth::token_answered(
                granted,
                Some((form.oauth.client_id, secret)),
                TokenFormModel {
                    grant_type: "authorization_code"@,
                    code: Some(code),
                    redirect_uri: Some(form.oauth.redirect_uri),
                    resource: Some(RESOURCE_URL@),
                    code_verifier: Some(verifier),
                    refresh_token: None,
                },
                now,
                access,
                refresh,
            );
            &&& reply.status == 200
            &&& reply.no_store
            &&& reply.body matches BodyModel::Tokens(issue)
            &&& issue.access_token == access
            &&& issue.scope == oauth::canonical(form.oauth.scope)
            &&& issue.refresh_token == (if model::scope_named(
                form.oauth.scope,
                "offline_access"@,
            ) {
                Some(refresh)
            } else {
                None
            })
            &&& oauth::controls(next, request, later)
        }),
{
    let subject = gateway::subject_of(headers)->0;
    let binding = oauth::bound(subject, form.oauth);
    canonical_scopes_keep_their_meaning(form.oauth.scope);
    laws::granted_codes_give_valid_tokens(
        t,
        binding,
        code,
        created,
        verifier,
        now,
        access,
        refresh,
        "control"@,
        later,
    );
}

/// A controller whose grant is revoked has no control any more.
pub proof fn revoked_controllers_lose_control(
    t: Tables,
    headers: HeadersModel,
    id: i64,
    csrf: Text,
    now: i64,
    request: HeadersModel,
    later: i64,
)
    requires
        manage::forbidden(headers, csrf) is None,
        gateway::bearer_of(request) is Some,
        t.grants.dom().contains(id),
        t.access.dom().contains(crypto::hashed(gateway::bearer_of(request)->0)),
        t.access[crypto::hashed(gateway::bearer_of(request)->0)].grant_id == id,
    ensures
        !oauth::controls(manage::grant_revocation(t, headers, id, csrf, now).0, request, later),
{
    let token = gateway::bearer_of(request)->0;
    laws::revocation_ends_tokens(t, id, now, token, RESOURCE_URL@, "control"@, later);
}

// ---------------------------------------------------------------------------
// People
// ---------------------------------------------------------------------------
/// Whom the proxy vouches for, and which cookies came along, does not matter for
/// the tools, for tokens and for links.
pub proof fn identity_opens_no_other_door(
    t: Tables,
    headers: HeadersModel,
    subject: Option<Text>,
    cookie: Option<Text>,
    now: i64,
)
    ensures
        ({
            let other = HeadersModel { subject, cookie, ..headers };
            &&& oauth::controls(t, other, now) == oauth::controls(t, headers, now)
            &&& gateway::credentials_of(other) == gateway::credentials_of(headers)
            &&& admission::linked(t, other, now) == admission::linked(t, headers, now)
            &&& gateway::address_of(other) == gateway::address_of(headers)
        }),
{
}

/// Nothing is changed by somebody that the proxy does not vouch for, or by a
/// form that is not from a page of the gateway.
pub proof fn strangers_change_nothing(
    t: Tables,
    l: LinksModel,
    headers: HeadersModel,
    csrf: Text,
    name: Text,
    days: u32,
    id: i64,
    code: Text,
    now: i64,
)
    requires
        gateway::subject_of(headers) is None || !gateway::csrf_matches(headers, csrf),
    ensures
        manage::extension(t, headers, name, days, csrf, now).0 == t,
        manage::client_revocation(t, l, headers, name, csrf, now).0 == t,
        manage::client_revocation(t, l, headers, name, csrf, now).1 == l,
        manage::grant_revocation(t, headers, id, csrf, now).0 == t,
        forall|live: Map<Text, LiveModel>, fresh: Text, next: Tables, reply: ReplyModel| #[trigger]
            manage::creation(
                t,
                live,
                headers,
                CreateClientModel { name, days, csrf },
                code,
                now,
                fresh,
                next,
                reply,
            ) ==> next == t && (reply.status == 401 || reply.status == 403),
        forall|fresh: Text, next: Tables, next_links: LinksModel, reply: ReplyModel| #[trigger]
            manage::rotation(
                t,
                l,
                headers,
                name,
                csrf,
                code,
                now,
                fresh,
                next,
                next_links,
                reply,
            ) ==> next == t && next_links == l && (reply.status == 401 || reply.status == 403),
        forall|form: ConsentModel|
            form.csrf == csrf ==> ((#[trigger] oauth::consented(
                t,
                headers,
                form,
                code,
                now,
            )) matches Some((next, reply)) && next == t && (reply.status == 401 || reply.status
                == 403)),
{
}

// ---------------------------------------------------------------------------
// Machines
// ---------------------------------------------------------------------------
/// A machine that presents a code, however it is written, is let in under the
/// name of the client that has the code, as long as the client is in force, has
/// no link and its address has not failed too often.
pub proof fn live_clients_are_let_in(
    t: Tables,
    l: LinksModel,
    failures: FailureTable,
    name: Text,
    headers: HeadersModel,
    raw: Text,
    now: i64,
    instant: u64,
)
    requires
        model::consistent(t),
        t.clients.dom().contains(name),
        model::live(t.clients[name], now),
        gateway::bearer_of(headers) == Some(raw),
        crypto::normalized_code(raw) == t.clients[name].code,
        links::admissible(l, name),
        !admission::is_throttled(failures, gateway::address_of(headers), instant),
    ensures
        admission::link_asked(t, l, failures, headers, now, instant).2 == Ok::<
            (Text, Text),
            ReplyModel,
        >((name, t.clients[name].code)),
        admission::link_asked(t, l, failures, headers, now, instant).0 == links::admitted(l, name),
        admission::failures_of(
            admission::link_asked(t, l, failures, headers, now, instant).1,
            gateway::address_of(headers),
        ).len() == 0,
{
    laws::codes_open_for_live_clients(t, name, now);
}

/// A new client is let in with its code, however it is written, until it
/// expires.
pub proof fn new_clients_are_let_in(
    t: Tables,
    name: Text,
    code: Text,
    expires_at: i64,
    created: i64,
    l: LinksModel,
    failures: FailureTable,
    headers: HeadersModel,
    raw: Text,
    now: i64,
    instant: u64,
)
    requires
        model::consistent(t),
        model::client_created(t, name, code, expires_at, created) is Ok,
        now < expires_at,
        gateway::bearer_of(headers) == Some(raw),
        crypto::normalized_code(raw) == code,
        links::admissible(l, name),
        !admission::is_throttled(failures, gateway::address_of(headers), instant),
    ensures
        admission::link_asked(
            model::client_created(t, name, code, expires_at, created)->Ok_0,
            l,
            failures,
            headers,
            now,
            instant,
        ).2 == Ok::<(Text, Text), ReplyModel>((name, code)),
{
    let next = model::client_created(t, name, code, expires_at, created)->Ok_0;
    assert forall|a: Text, b: Text| #[trigger]
        next.clients.dom().contains(a) && #[trigger] next.clients.dom().contains(b)
            && next.clients[a].code == next.clients[b].code implies a == b by {
        if a != b && a == name {
            assert(model::has_code(t.clients, b, code));
        }
        if a != b && b == name {
            assert(model::has_code(t.clients, a, code));
        }
    }
    assert(model::consistent(next));
    live_clients_are_let_in(next, l, failures, name, headers, raw, now, instant);
}

/// A second link of a client is refused with a conflict, and neither the first
/// link nor any other is touched.
pub proof fn second_links_are_refused(
    t: Tables,
    l: LinksModel,
    failures: FailureTable,
    headers: HeadersModel,
    now: i64,
    instant: u64,
)
    requires
        admission::linked(t, headers, now) is Some,
        !links::admissible(l, admission::linked(t, headers, now)->0.name),
    ensures
        admission::link_asked(t, l, failures, headers, now, instant).0 == l,
        admission::link_asked(t, l, failures, headers, now, instant).2 matches Err(reply) && (
        reply.status == 409 || reply.status == 429),
{
}

/// A client that is revoked has no open link any more, its code does not let it
/// in again, and every other client keeps its link.
pub proof fn revoked_clients_are_cut_off(
    t: Tables,
    l: LinksModel,
    headers: HeadersModel,
    name: Text,
    csrf: Text,
    now: i64,
    failures: FailureTable,
    request: HeadersModel,
    later: i64,
    instant: u64,
)
    requires
        model::consistent(t),
        manage::forbidden(headers, csrf) is None,
        t.clients.dom().contains(name),
        gateway::bearer_of(request) is Some,
        crypto::normalized_code(gateway::bearer_of(request)->0) == t.clients[name].code,
    ensures
        ({
            let (next, next_links, reply) = manage::client_revocation(
                t,
                l,
                headers,
                name,
                csrf,
                now,
            );
            &&& !next_links.live.dom().contains(name)
            &&& forall|other: Text|
                other != name && #[trigger] l.live.dom().contains(other)
                    ==> next_links.live.dom().contains(other) && next_links.live[other]
                    == l.live[other]
            &&& admission::link_asked(next, next_links, failures, request, later, instant).2 is Err
            &&& !admission::still_opens(next, name, t.clients[name].code, later)
        }),
{
    laws::revoked_clients_open_nothing(t, name, now, later);
}

/// A client whose code is replaced has no open link any more, its previous code
/// does not let it in again, and its new code does, until it expires.
pub proof fn rotated_clients_need_their_new_code(
    t: Tables,
    l: LinksModel,
    headers: HeadersModel,
    name: Text,
    csrf: Text,
    code: Text,
    now: i64,
    fresh: Text,
    next: Tables,
    next_links: LinksModel,
    reply: ReplyModel,
    later: i64,
)
    requires
        model::consistent(t),
        manage::forbidden(headers, csrf) is None,
        model::in_force(t, name),
        !model::code_taken(t, code),
        manage::rotation(t, l, headers, name, csrf, code, now, fresh, next, next_links, reply),
    ensures
        !next_links.live.dom().contains(name),
        !admission::still_opens(next, name, t.clients[name].code, later),
        model::client_for(next, t.clients[name].code, later) is None,
        admission::still_opens(next, name, code, later) == (later < t.clients[name].expires_at),
{
    laws::rotation_invalidates_the_previous_code(t, name, code, later);
    laws::rotation_keeps_consistent(t, name, code);
    laws::codes_open_for_live_clients(next, name, later);
}

} // verus!
