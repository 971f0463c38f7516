//! What holds of single requests to the gateway.
use vstd::prelude::*;

use crate::clock;
use crate::crypto;
use crate::db::laws;
use crate::db::model;
use crate::db::model::Tables;
use crate::gateway;
use crate::gateway::admission;
use crate::gateway::admission::FailureTable;
use crate::gateway::links::LinksModel;
use crate::gateway::manage;
use crate::gateway::oauth;
use crate::gateway::oauth::{AuthorizeModel, ConsentModel, TokenFormModel};
use crate::gateway::urls;
use crate::gateway::{BodyModel, HeadersModel, ReplyModel};
use crate::text;
use crate::text::Text;

verus! {

// ---------------------------------------------------------------------------
// Headers
// ---------------------------------------------------------------------------
/// The bearer credential is what follows `Bearer ` in the header, where anything
/// does.
pub proof fn bearers_follow_their_scheme(headers: HeadersModel, token: Text)
    ensures
        gateway::bearer_of(headers) == Some(token) <==> token.len() > 0 && headers.authorization
            == Some("Bearer "@ + token),
{
    reveal_strlit("Bearer ");
    let whole = "Bearer "@ + token;
    assert(whole.take(7) =~= "Bearer "@);
    assert(whole.skip(7) =~= token);
    if let Some(value) = headers.authorization {
        if text::begins(value, "Bearer "@) {
            assert(value =~= "Bearer "@ + value.skip(7));
        }
    }
}

/// A name without a colon and a secret that a client encodes come out as they
/// were put in.
pub proof fn credentials_come_out_as_put_in(headers: HeadersModel, id: Text, secret: Text)
    requires
        headers.authorization == Some(
            "Basic "@ + crypto::base64_padded(vstd::utf8::encode_utf8(id + ":"@ + secret)),
        ),
        !id.contains(':'),
    ensures
        gateway::credentials_of(headers) == Some((id, secret)),
        gateway::bearer_of(headers) is None,
{
    reveal_strlit("Basic ");
    reveal_strlit("Bearer ");
    reveal_strlit(":");
    let s = id + ":"@ + secret;
    let raw = vstd::utf8::encode_utf8(s);
    let encoded = crypto::base64_padded(raw);
    let value = "Basic "@ + encoded;
    assert(value.take(6) =~= "Basic "@);
    assert(value.skip(6) =~= encoded);
    crypto::encodings_lead_back(raw, raw, false);
    vstd::utf8::encode_utf8_valid_utf8(s);
    vstd::utf8::encode_utf8_decode_utf8(s);
    assert forall|k: int| 0 <= k < id.len() implies s[k] != ':' by {
        assert(id.contains(id[k]));
    }
    assert(s[id.len() as int] == ':');
    text::lemma_first_index(s, ':', id.len() as int);
    assert(s.take(id.len() as int) =~= id);
    assert(s.skip(id.len() as int + 1) =~= secret);
    if text::begins(value, "Bearer "@) {
        assert(value.take(7)[1] == value[1]);
    }
}

/// The proxy vouches for whom it names, unless the name is empty.
pub proof fn subjects_have_names(headers: HeadersModel, name: Text)
    ensures
        gateway::subject_of(headers) == Some(name) <==> headers.subject == Some(name) && name.len()
            > 0,
{
}

/// The value of a cookie is what follows its name and `=` in the first item of
/// the header that begins with them, white space around it aside.
pub proof fn cookies_are_found_by_name(headers: HeadersModel, name: Text, value: Text, i: int)
    requires
        headers.cookie is Some,
        0 <= i < text::split(headers.cookie->0, ';').len(),
        text::trim(text::split(headers.cookie->0, ';')[i]) == name + "="@ + value,
        forall|j: int|
            0 <= j < i ==> !text::begins(
                text::trim(#[trigger] text::split(headers.cookie->0, ';')[j]),
                name + "="@,
            ),
    ensures
        gateway::cookie_of(headers, name) == Some(value),
{
    lemma_cookie(text::split(headers.cookie->0, ';'), name, value, i, 0);
}

proof fn lemma_cookie(items: Seq<Text>, name: Text, value: Text, i: int, from: int)
    requires
        0 <= from <= i < items.len(),
        text::trim(items[i]) == name + "="@ + value,
        forall|j: int|
            0 <= j < i ==> !text::begins(text::trim(#[trigger] items[j]), name + "="@),
    ensures
        gateway::cookie_from(items, name, from) == Some(value),
    decreases i - from,
{
    if from < i {
        assert(!text::begins(text::trim(items[from]), name + "="@));
        lemma_cookie(items, name, value, i, from + 1);
    } else {
        let whole = name + "="@ + value;
        let n = (name + "="@).len() as int;
        assert(whole.take(n) =~= name + "="@);
        assert(whole.skip(n) =~= value);
    }
}

/// A header without an item that begins with the name of a cookie has no value
/// for it.
pub proof fn missing_cookies_have_no_value(headers: HeadersModel, name: Text)
    requires
        headers.cookie matches Some(value) ==> forall|j: int|
            0 <= j < text::split(value, ';').len() ==> !text::begins(
                text::trim(#[trigger] text::split(value, ';')[j]),
                name + "="@,
            ),
    ensures
        gateway::cookie_of(headers, name) is None,
{
    if let Some(value) = headers.cookie {
        lemma_no_cookie(text::split(value, ';'), name, 0);
    }
}

proof fn lemma_no_cookie(items: Seq<Text>, name: Text, from: int)
    requires
        0 <= from <= items.len(),
        forall|j: int|
            0 <= j < items.len() ==> !text::begins(text::trim(#[trigger] items[j]), name + "="@),
    ensures
        gateway::cookie_from(items, name, from) is None,
    decreases items.len() - from,
{
    if from < items.len() {
        assert(!text::begins(text::trim(items[from]), name + "="@));
        lemma_no_cookie(items, name, from + 1);
    }
}

/// A request comes from the first of the addresses that the proxy tells, white
/// space around it aside.
pub proof fn requests_come_from_the_first_address(headers: HeadersModel, first: Text, rest: Text)
    requires
        !first.contains(','),
    ensures
        headers.forwarded_for == Some(first) ==> gateway::address_of(headers) == text::trim(first),
        headers.forwarded_for == Some(first + ","@ + rest) ==> gateway::address_of(headers)
            == text::trim(first),
        headers.forwarded_for is None ==> gateway::address_of(headers) == "unix"@,
{
    reveal_strlit(",");
    let whole = first + ","@ + rest;
    assert forall|k: int| 0 <= k < first.len() implies first[k] != ',' by {
        assert(first.contains(first[k]));
    }
    text::lemma_first_index(first, ',', first.len() as int);
    assert(text::split(first, ',')[0] == first);
    assert forall|k: int| 0 <= k < first.len() implies whole[k] != ',' by {
        assert(first.contains(first[k]));
    }
    assert(whole[first.len() as int] == ',');
    text::lemma_first_index(whole, ',', first.len() as int);
    assert(whole.take(first.len() as int) =~= first);
    assert(text::split(whole, ',')[0] == first);
}

// ---------------------------------------------------------------------------
// Requests for access
// ---------------------------------------------------------------------------
/// Whether a character may stand in a challenge.
pub open spec fn may_stand_in_a_challenge(c: char) -> bool {
    'A' <= c <= 'Z' || 'a' <= c <= 'z' || '0' <= c <= '9' || c == '-' || c == '.' || c == '_' || c
        == '~'
}

/// A request for access is sound exactly when it asks for a code with a
/// challenge of 43 characters made by SHA-256, for the tools of this gateway,
/// with a state, for the scope `control` and at most `offline_access` besides,
/// in the name of a registered client and to its redirect URI.
pub proof fn sound_requests_are_accepted(t: Tables, p: AuthorizeModel)
    ensures
        oauth::request_problem(t, p) is None <==> {
            &&& p.response_type == "code"@
            &&& p.code_challenge_method == "S256"@
            &&& p.resource == "https://connector.ylxdzsw.com/mcp"@
            &&& p.state.len() > 0
            &&& p.code_challenge.len() == 43
            &&& forall|i: int| 0 <= i < 43 ==> may_stand_in_a_challenge(#[trigger] p.code_challenge[i])
            &&& laws::is_among(p.scope, "control"@)
            &&& forall|word: Text| #[trigger]
                laws::is_among(p.scope, word) ==> word == "control"@ || word == "offline_access"@
            &&& t.oauth_clients.dom().contains(p.client_id)
            &&& t.oauth_clients[p.client_id].redirect_uri == p.redirect_uri
        },
{
    let c = p.code_challenge;
    assert(oauth::challenge_shaped(c) <==> c.len() == 43 && forall|i: int|
        0 <= i < 43 ==> may_stand_in_a_challenge(#[trigger] c[i])) by {
        if oauth::challenge_shaped(c) {
            assert forall|i: int| 0 <= i < 43 implies may_stand_in_a_challenge(
                #[trigger] c[i],
            ) by {
                assert(oauth::is_challenge_char(c[i]));
            }
        }
        if c.len() == 43 && forall|i: int|
            0 <= i < 43 ==> may_stand_in_a_challenge(#[trigger] c[i]) {
            assert forall|i: int| 0 <= i < c.len() implies oauth::is_challenge_char(
                #[trigger] c[i],
            ) by {
                assert(may_stand_in_a_challenge(c[i]));
            }
        }
    }
    lemma_scopes(p.scope);
}

proof fn lemma_scopes(scope: Text)
    ensures
        oauth::scopes_acceptable(scope) <==> laws::is_among(scope, "control"@) && forall|word: Text|
            #[trigger] laws::is_among(scope, word) ==> word == "control"@ || word
                == "offline_access"@,
{
    assert forall|word: Text| #[trigger] laws::is_among(scope, word) == model::scope_named(
        scope,
        word,
    ) by {
        laws::scopes_are_words(scope, word);
    }
    assert(laws::is_among(scope, "control"@) == model::scope_named(scope, "control"@));
    if oauth::scopes_acceptable(scope) {
        assert forall|word: Text| #[trigger] laws::is_among(scope, word) implies word == "control"@
            || word == "offline_access"@ by {
            assert(model::scope_named(scope, word));
        }
    }
    if laws::is_among(scope, "control"@) && forall|word: Text| #[trigger]
        laws::is_among(scope, word) ==> word == "control"@ || word == "offline_access"@ {
        assert forall|word: Text| #[trigger] model::scope_named(scope, word) implies word
            == "control"@ || word == "offline_access"@ by {
            assert(laws::is_among(scope, word));
        }
    }
}

/// The scopes of a request are recorded in one form.
pub proof fn scopes_have_one_form(scope: Text)
    ensures
        oauth::canonical(scope) == if laws::is_among(scope, "offline_access"@) {
            "control offline_access"@
        } else {
            "control"@
        },
{
    laws::scopes_are_words(scope, "offline_access"@);
}

/// A sound request of a known person is answered with a page; an unsound one
/// with status 400; one of nobody with status 401.
pub proof fn requests_for_access_are_answered(
    t: Tables,
    headers: HeadersModel,
    p: AuthorizeModel,
    fresh: Text,
)
    ensures
        ({
            let reply = oauth::asked(t, headers, p, fresh);
            &&& gateway::subject_of(headers) is None ==> reply.status == 401 && reply.body is Empty
            &&& gateway::subject_of(headers) is Some && oauth::request_problem(t, p) is Some
                ==> reply.status == 400
            &&& gateway::subject_of(headers) is Some && oauth::request_problem(t, p) is None
                ==> reply.status == 200 && reply.body is Html
            &&& reply.location is None
        }),
{
}

/// A request that is denied changes nothing, and the controller is told so with
/// the state that it gave and the address of the gateway.
pub proof fn denied_requests_change_nothing(
    t: Tables,
    headers: HeadersModel,
    form: ConsentModel,
    code: Text,
    now: i64,
)
    requires
        gateway::subject_of(headers) is Some,
        gateway::csrf_matches(headers, form.csrf),
        oauth::request_problem(t, form.oauth) is None,
        urls::is_url(form.oauth.redirect_uri),
        form.decision != "allow"@,
    ensures
        oauth::consented(t, headers, form, code, now) matches Some((next, reply)) && next == t
            && reply.status == 303 && reply.location == Some(
            urls::with_pairs(
                form.oauth.redirect_uri,
                seq![
                    ("error"@, "access_denied"@),
                    ("state"@, form.oauth.state),
                    ("iss"@, "https://connector.ylxdzsw.com"@),
                ],
            ),
        ),
{
}

/// A request that is allowed is recorded as a grant of the person to the
/// controller, and the controller is told the code, the state that it gave and
/// the address of the gateway.
pub proof fn allowed_requests_are_granted(
    t: Tables,
    headers: HeadersModel,
    form: ConsentModel,
    code: Text,
    now: i64,
)
    requires
        model::consistent(t),
        clock::readable(now),
        gateway::subject_of(headers) is Some,
        gateway::csrf_matches(headers, form.csrf),
        oauth::request_problem(t, form.oauth) is None,
        urls::is_url(form.oauth.redirect_uri),
        form.decision == "allow"@,
        !t.codes.dom().contains(crypto::hashed(code)),
        !t.grants.dom().contains(i64::MAX),
    ensures
        oauth::consented(t, headers, form, code, now) matches Some((next, reply)) && reply.status
            == 303 && reply.location == Some(
            urls::with_pairs(
                form.oauth.redirect_uri,
                seq![
                    ("code"@, code),
                    ("state"@, form.oauth.state),
                    ("iss"@, "https://connector.ylxdzsw.com"@),
                ],
            ),
        ) && ({
            let row = next.codes[crypto::hashed(code)];
            &&& next.codes.dom().contains(crypto::hashed(code))
            &&& Some(row.subject) == gateway::subject_of(headers)
            &&& row.client_id == form.oauth.client_id
            &&& row.redirect_uri == form.oauth.redirect_uri
            &&& row.resource == "https://connector.ylxdzsw.com/mcp"@
            &&& row.code_challenge == form.oauth.code_challenge
            &&& row.consumed_at is None
            &&& row.expires_at == now + 300
            &&& forall|word: Text| #[trigger]
                laws::is_among(row.scopes, word) == laws::is_among(form.oauth.scope, word)
            &&& !t.grants.dom().contains(row.grant_id)
            &&& next.grants[row.grant_id].client_id == form.oauth.client_id
            &&& next.grants[row.grant_id].scopes == row.scopes
            &&& Some(next.grants[row.grant_id].subject) == gateway::subject_of(headers)
        }),
{
    let binding = oauth::bound(gateway::subject_of(headers)->0, form.oauth);
    laws::consents_are_recorded(t, binding, code, now);
    gateway::laws::canonical_scopes_keep_their_meaning(form.oauth.scope);
    let scopes = oauth::canonical(form.oauth.scope);
    assert forall|word: Text| #[trigger] laws::is_among(scopes, word) == laws::is_among(
        form.oauth.scope,
        word,
    ) by {
        laws::scopes_are_words(scopes, word);
        laws::scopes_are_words(form.oauth.scope, word);
        assert(model::scope_named(scopes, word) == model::scope_named(form.oauth.scope, word));
    }
}

// ---------------------------------------------------------------------------
// Tokens
// ---------------------------------------------------------------------------
/// Whether a reply tells an OAuth error, and may not be kept.
pub open spec fn tells(reply: ReplyModel, status: u16, error: Text) -> bool {
    &&& reply.status == status
    &&& reply.no_store
    &&& reply.no_cache
    &&& reply.body matches BodyModel::Problem { error: e, .. } && e == error
}

/// A request for tokens without the credentials of a registered client, for
/// another resource, of another kind, or without what its kind needs changes
/// nothing and is refused; the first of these reasons counts.
pub proof fn unsound_token_requests_change_nothing(
    t: Tables,
    credentials: Option<(Text, Text)>,
    form: TokenFormModel,
    now: i64,
    access: Text,
    refresh: Text,
)
    ensures
        ({
            let (next, reply) = oauth::token_answered(t, credentials, form, now, access, refresh);
            let known = credentials matches Some((id, secret)) && model::authentic(t, id, secret);
            let here = form.resource == Some("https://connector.ylxdzsw.com/mcp"@);
            &&& !known ==> next == t && tells(reply, 401, "invalid_client"@)
            &&& known && !here ==> next == t && tells(reply, 400, "invalid_target"@)
            &&& known && here && form.grant_type != "authorization_code"@ && form.grant_type
                != "refresh_token"@ ==> next == t && tells(reply, 400, "unsupported_grant_type"@)
            &&& known && here && form.grant_type == "authorization_code"@ && (form.code is None
                || form.redirect_uri is None || form.code_verifier is None) ==> next == t && tells(
                reply,
                400,
                "invalid_request"@,
            )
            &&& known && here && form.grant_type == "refresh_token"@ && form.refresh_token is None
                ==> next == t && tells(reply, 400, "invalid_request"@)
        }),
{
    reveal_strlit("authorization_code");
    reveal_strlit("refresh_token");
    assert("authorization_code"@.len() != "refresh_token"@.len());
}

/// A controller that returns with a good refresh token gets new tokens with the
/// same scopes: the new access token opens the tools for an hour where `control`
/// is among them, and the new refresh token is good for the next time.
pub proof fn returning_controllers_keep_control(
    t: Tables,
    id: Text,
    secret: Text,
    token: Text,
    form: TokenFormModel,
    now: i64,
    access: Text,
    refresh: Text,
    request: HeadersModel,
    later: i64,
)
    requires
        model::consistent(t),
        clock::readable(now),
        model::authentic(t, id, secret),
        form.grant_type == "refresh_token"@,
        form.resource == Some("https://connector.ylxdzsw.com/mcp"@),
        form.refresh_token == Some(token),
        t.refresh.dom().contains(crypto::hashed(token)),
        t.refresh[crypto::hashed(token)].client_id == id,
        laws::good_for(
            t,
            t.refresh[crypto::hashed(token)],
            "https://connector.ylxdzsw.com/mcp"@,
            now,
        ),
        !t.access.dom().contains(crypto::hashed(access)),
        !t.refresh.dom().contains(crypto::hashed(refresh)),
        request.authorization == Some("Bearer "@ + access),
        access.len() > 0,
    ensures
        ({
            let scopes = t.refresh[crypto::hashed(token)].scopes;
            let (next, reply) = oauth::token_answered(
                t,
                Some((id, secret)),
                form,
                now,
                access,
                refresh,
            );
            &&& reply.status == 200
            &&& reply.no_store
            &&& reply.body matches BodyModel::Tokens(issue)
            &&& issue.access_token == access
            &&& issue.token_type == "Bearer"@
            &&& issue.expires_in == 3_600
            &&& issue.scope == scopes
            &&& issue.refresh_token == Some(refresh)
            &&& oauth::controls(next, request, later) <==> later < now + 3_600 && laws::is_among(
                scopes,
                "control"@,
            )
            &&& laws::good_for(
                next,
                next.refresh[crypto::hashed(refresh)],
                "https://connector.ylxdzsw.com/mcp"@,
                now,
            )
            &&& next.refresh[crypto::hashed(refresh)].scopes == scopes
        }),
{
    reveal_strlit("authorization_code");
    reveal_strlit("refresh_token");
    assert("authorization_code"@.len() != "refresh_token"@.len());
    laws::refreshed_tokens_keep_their_scopes(
        t,
        token,
        id,
        "https://connector.ylxdzsw.com/mcp"@,
        now,
        access,
        refresh,
    );
    bearers_follow_their_scheme(request, access);
}

/// A request may use the tools exactly when it bears an access token that was
/// issued for them with the scope `control` and is still good; others are told
/// with status 401 where to get one.
pub proof fn tools_need_a_good_token(t: Tables, headers: HeadersModel, now: i64)
    ensures
        oauth::controls(t, headers, now) <==> exists|token: Text|
            {
                &&& headers.authorization == Some(#[trigger] ("Bearer "@ + token))
                &&& token.len() > 0
                &&& t.access.dom().contains(crypto::hashed(token))
                &&& laws::good_for(
                    t,
                    t.access[crypto::hashed(token)],
                    "https://connector.ylxdzsw.com/mcp"@,
                    now,
                )
                &&& laws::is_among(t.access[crypto::hashed(token)].scopes, "control"@)
            },
        oauth::challenged().status == 401,
        oauth::challenged().challenge is Some,
{
    reveal_strlit("Bearer ");
    assert forall|token: Text|
        headers.authorization == Some(#[trigger] ("Bearer "@ + token)) && token.len()
            > 0 implies gateway::bearer_of(headers) == Some(token) by {
        bearers_follow_their_scheme(headers, token);
    }
    if let Some(token) = gateway::bearer_of(headers) {
        bearers_follow_their_scheme(headers, token);
        assert(headers.authorization == Some("Bearer "@ + token));
        laws::tokens_open_what_they_were_issued_for(
            t,
            token,
            "https://connector.ylxdzsw.com/mcp"@,
            "control"@,
            now,
        );
    }
}

/// A token that its client gives back opens nothing any more: an access token
/// no tools, a refresh token no tools with any token of its grant. The reply is
/// the same whatever the token was.
pub proof fn returned_tokens_open_nothing(
    t: Tables,
    id: Text,
    secret: Text,
    token: Text,
    now: i64,
    request: HeadersModel,
    bearer: Text,
    later: i64,
)
    requires
        model::consistent(t),
        model::authentic(t, id, secret),
        request.authorization == Some("Bearer "@ + bearer),
    ensures
        ({
            let (next, reply) = oauth::revocation_answered(t, Some((id, secret)), token, now);
            let h = crypto::hashed(token);
            let b = crypto::hashed(bearer);
            &&& reply.status == 200
            &&& reply.no_store
            &&& reply.body is Empty
            &&& bearer == token && t.access.dom().contains(h) && t.access[h].client_id == id
                ==> !oauth::controls(next, request, later)
            &&& t.refresh.dom().contains(h) && t.refresh[h].client_id == id
                && t.access.dom().contains(b) && t.access[b].grant_id == t.refresh[h].grant_id
                ==> !oauth::controls(next, request, later)
        }),
{
    bearers_follow_their_scheme(request, bearer);
    laws::returned_tokens_end(t, token, id, now);
    let h = crypto::hashed(token);
    let b = crypto::hashed(bearer);
    if t.refresh.dom().contains(h) && t.access.dom().contains(b) && t.access[b].grant_id
        == t.refresh[h].grant_id {
        assert(t.grants.dom().contains(t.refresh[h].grant_id));
    }
    if bearer.len() == 0 {
        assert(gateway::bearer_of(request) is None) by {
            if let Some(other) = gateway::bearer_of(request) {
                bearers_follow_their_scheme(request, other);
                assert(("Bearer "@ + other).len() == ("Bearer "@ + bearer).len());
            }
        }
    }
}

// ---------------------------------------------------------------------------
// Links
// ---------------------------------------------------------------------------
/// An address is throttled exactly when it has failed five times in the last
/// minute: when its fifth failure from the end is no older.
pub proof fn five_failures_a_minute_throttle(failures: FailureTable, address: Text, now: u64)
    requires
        forall|i: int, j: int|
            0 <= i < j < admission::failures_of(failures, address).len()
                ==> admission::failures_of(failures, address)[i] <= admission::failures_of(
                failures,
                address,
            )[j],
    ensures
        ({
            let times = admission::failures_of(failures, address);
            admission::is_throttled(failures, address, now) <==> times.len() >= 5 && now
                - times[times.len() - 5] <= 60_000_000_000
        }),
{
    lemma_recent(admission::failures_of(failures, address), now);
}

proof fn lemma_recent(times: Seq<u64>, now: u64)
    requires
        forall|i: int, j: int| 0 <= i < j < times.len() ==> times[i] <= times[j],
    ensures
        admission::recent(times, now).len() >= 5 <==> times.len() >= 5 && now - times[times.len()
            - 5] <= 60_000_000_000,
    decreases times.len(),
{
    if times.len() > 0 && now - times[0] > 60_000_000_000 {
        let rest = times.skip(1);
        lemma_recent(rest, now);
        if times.len() > 5 {
            assert(rest[rest.len() - 5] == times[times.len() - 5]);
        }
    } else if times.len() >= 5 {
        assert(times[0] <= times[times.len() - 5]);
    }
}

/// A wish to open a link is refused with status 429 when its address is
/// throttled, with 401 when its code opens nothing, which counts as a failure of
/// that address alone, and with 409 when the client has a link. Otherwise the
/// client is let in, and its address starts anew.
pub proof fn links_are_refused_for_a_reason(
    t: Tables,
    l: LinksModel,
    failures: FailureTable,
    headers: HeadersModel,
    now: i64,
    instant: u64,
    other: Text,
)
    requires
        other != gateway::address_of(headers),
    ensures
        ({
            let address = gateway::address_of(headers);
            let (links, next, r) = admission::link_asked(t, l, failures, headers, now, instant);
            let client = admission::linked(t, headers, now);
            let throttled = admission::is_throttled(failures, address, instant);
            let busy = client matches Some(c) && (l.live.dom().contains(c.name)
                || l.pending.contains(c.name));
            &&& throttled ==> r is Err && r->Err_0.status == 429 && links == l
            &&& !throttled && client is None ==> r is Err && r->Err_0.status == 401 && links == l
                && admission::failures_of(next, address).len() > 0 && admission::failures_of(
                next,
                address,
            ).last() == instant
            &&& !throttled && busy ==> r is Err && r->Err_0.status == 409 && links == l
                && admission::failures_of(next, address).len() == 0
            &&& !throttled && client is Some && !busy ==> r == Ok::<(Text, Text), ReplyModel>(
                (client->0.name, client->0.code),
            ) && links.pending == l.pending.insert(client->0.name) && links.live == l.live
                && admission::failures_of(next, address).len() == 0
            &&& admission::failures_of(next, other) == admission::failures_of(failures, other)
        }),
{
}

/// A code opens a link for the client that has it, while that client is neither
/// revoked nor expired; how it is written, in either case and with white space
/// around it, does not matter.
pub proof fn links_need_a_live_code(t: Tables, headers: HeadersModel, now: i64)
    requires
        model::consistent(t),
    ensures
        match admission::linked(t, headers, now) {
            Some(client) => {
                &&& gateway::bearer_of(headers) matches Some(raw)
                &&& t.clients.dom().contains(client.name)
                &&& t.clients[client.name].code == crypto::normalized_code(raw)
                &&& t.clients[client.name].revoked_at is None
                &&& now < t.clients[client.name].expires_at
            },
            None => gateway::bearer_of(headers) matches Some(raw) ==> forall|name: Text| #[trigger]
                t.clients.dom().contains(name) && t.clients[name].code == crypto::normalized_code(
                    raw,
                ) ==> !(t.clients[name].revoked_at is None && now < t.clients[name].expires_at),
        },
{
    if let Some(raw) = gateway::bearer_of(headers) {
        laws::links_open_for_the_owner_of_the_code(t, crypto::normalized_code(raw), now);
    }
}

// ---------------------------------------------------------------------------
// Management
// ---------------------------------------------------------------------------
/// Names of clients have one to 64 letters, digits, dots, underscores and
/// hyphens, and begin with a letter or a digit; each such name is one.
pub proof fn names_are_plain(s: Text)
    ensures
        manage::is_client_name(s) <==> 1 <= s.len() <= 64 && s[0] != '.' && s[0] != '_' && s[0]
            != '-' && forall|i: int|
            0 <= i < s.len() ==> 'A' <= #[trigger] s[i] <= 'Z' || 'a' <= s[i] <= 'z' || '0' <= s[i]
                <= '9' || s[i] == '.' || s[i] == '_' || s[i] == '-',
{
    if manage::is_client_name(s) {
        assert forall|i: int| 0 <= i < s.len() implies 'A' <= #[trigger] s[i] <= 'Z' || 'a' <= s[i]
            <= 'z' || '0' <= s[i] <= '9' || s[i] == '.' || s[i] == '_' || s[i] == '-' by {
            assert(manage::is_name_char(s[i]));
        }
    }
}

/// A sound wish for a client, with one to 3650 days, makes one that expires
/// after that many days, and shows its code; a taken name or code is told with
/// status 409, and an unsound wish with 400. Nothing changes otherwise.
pub proof fn clients_are_created_for_their_days(
    t: Tables,
    live: Map<Text, crate::mcp::LiveModel>,
    headers: HeadersModel,
    form: manage::CreateClientModel,
    code: Text,
    now: i64,
    fresh: Text,
    next: Tables,
    reply: ReplyModel,
)
    requires
        model::consistent(t),
        clock::readable(now),
        gateway::subject_of(headers) is Some,
        gateway::csrf_matches(headers, form.csrf),
        manage::creation(t, live, headers, form, code, now, fresh, next, reply),
    ensures
        ({
            let sound = manage::is_client_name(form.name) && 1 <= form.days <= 3_650;
            let taken = t.clients.dom().contains(form.name) || exists|other: Text| #[trigger]
                t.clients.dom().contains(other) && t.clients[other].code == code;
            &&& !sound ==> next == t && reply.status == 400
            &&& sound && taken ==> next == t && reply.status == 409
            &&& sound && !taken ==> {
                &&& reply.status == 200
                &&& next.clients.dom() =~= t.clients.dom().insert(form.name)
                &&& next.clients[form.name].code == code
                &&& next.clients[form.name].revoked_at is None
                &&& next.clients[form.name].expires_at == now + form.days * 86_400
                &&& forall|other: Text|
                    t.clients.dom().contains(other) ==> #[trigger] next.clients[other]
                        == t.clients[other]
            }
        }),
{
    assert(0 <= form.days * 86_400 <= 0xffff_ffff * 86_400);
    if 1 <= form.days <= 3_650 {
        assert(now + form.days * 86_400 <= i64::MAX);
        let expires = (now + form.days * 86_400) as i64;
        laws::created_clients_open_until_they_expire(t, form.name, code, expires, now, now);
    }
}

/// A client in force is extended by one to 3650 days, from its expiration or, if
/// it has expired, from now, and the page is shown again; other wishes change
/// nothing and are told with status 400 or 404.
pub proof fn clients_are_extended_by_their_days(
    t: Tables,
    headers: HeadersModel,
    name: Text,
    days: u32,
    csrf: Text,
    now: i64,
)
    requires
        model::consistent(t),
        clock::readable(now),
        gateway::subject_of(headers) is Some,
        gateway::csrf_matches(headers, csrf),
        t.clients.dom().contains(name) ==> t.clients[name].expires_at + 3_650 * 86_400 <= i64::MAX,
    ensures
        ({
            let (next, reply) = manage::extension(t, headers, name, days, csrf, now);
            let known = t.clients.dom().contains(name) && t.clients[name].revoked_at is None;
            let start = if t.clients[name].expires_at >= now {
                t.clients[name].expires_at
            } else {
                now
            };
            &&& !(1 <= days <= 3_650) ==> next == t && reply.status == 400
            &&& 1 <= days <= 3_650 && !known ==> next == t && reply.status == 404
            &&& 1 <= days <= 3_650 && known ==> {
                &&& reply.status == 303
                &&& reply.location == Some("/"@)
                &&& next.clients.dom() =~= t.clients.dom()
                &&& next.clients[name].expires_at == start + days * 86_400
                &&& next.clients[name].code == t.clients[name].code
                &&& next.clients[name].revoked_at is None
            }
        }),
{
    assert(0 <= days * 86_400 <= 0xffff_ffff * 86_400);
    if 1 <= days <= 3_650 && t.clients.dom().contains(name) {
        assert(days * 86_400 <= 3_650 * 86_400);
    }
}

/// Whoever may change something is vouched for by the proxy and repeats the
/// token of its cookie; others get status 401 or 403.
pub proof fn changes_need_a_person_and_a_token(headers: HeadersModel, csrf: Text)
    ensures
        manage::forbidden(headers, csrf) is None <==> gateway::subject_of(headers) is Some
            && gateway::cookie_of(headers, "connector_csrf"@) == Some(csrf),
        gateway::subject_of(headers) is None ==> manage::forbidden(headers, csrf) is Some
            && manage::forbidden(headers, csrf)->0.status == 401,
        gateway::subject_of(headers) is Some && gateway::cookie_of(headers, "connector_csrf"@)
            != Some(csrf) ==> manage::forbidden(headers, csrf) is Some && manage::forbidden(
            headers,
            csrf,
        )->0.status == 403,
{
}

/// A grant or a client that is revoked by somebody who may is revoked, and the
/// page is shown again.
pub proof fn revocations_take_effect(
    t: Tables,
    l: LinksModel,
    headers: HeadersModel,
    id: i64,
    name: Text,
    csrf: Text,
    now: i64,
)
    requires
        gateway::subject_of(headers) is Some,
        gateway::csrf_matches(headers, csrf),
    ensures
        ({
            let (next, reply) = manage::grant_revocation(t, headers, id, csrf, now);
            &&& reply.status == 303 && reply.location == Some("/"@)
            &&& t.grants.dom().contains(id) ==> next.grants[id].revoked_at is Some
        }),
        ({
            let (next, links, reply) = manage::client_revocation(t, l, headers, name, csrf, now);
            &&& reply.status == 303 && reply.location == Some("/"@)
            &&& t.clients.dom().contains(name) ==> next.clients[name].revoked_at is Some
            &&& !links.live.dom().contains(name)
            &&& links.pending == l.pending
        }),
{
}

/// The channel of a client lies in the directory of the gateway, under its name.
pub proof fn channels_are_named_after_clients(name: Text, other: Text)
    ensures
        admission::channel(name) == "/run/connector"@ + "/"@ + name + ".sock"@,
        admission::channel(name) == admission::channel(other) ==> name == other,
{
    let head = "/run/connector"@ + "/"@;
    reveal_strlit(".sock");
    if admission::channel(name) == admission::channel(other) {
        let (a, b) = (admission::channel(name), admission::channel(other));
        assert(a.len() == head.len() + name.len() + 5);
        assert(b.len() == head.len() + other.len() + 5);
        assert(a.subrange(head.len() as int, head.len() + name.len() as int) =~= name);
        assert(b.subrange(head.len() as int, head.len() + other.len() as int) =~= other);
    }
}

/// A page for a request without a token hands out a new one, and sets it as a
/// cookie for an hour, for this gateway alone and out of reach of scripts; a
/// request with a token keeps it.
pub proof fn tokens_are_handed_out_once(headers: HeadersModel, fresh: Text)
    ensures
        gateway::cookie_of(headers, "connector_csrf"@) matches Some(token) ==> gateway::csrf_of(
            headers,
            fresh,
        ) == (token, None::<Text>),
        gateway::cookie_of(headers, "connector_csrf"@) is None ==> gateway::csrf_of(headers, fresh)
            == (
            fresh,
            Some(
                "connector_csrf="@ + fresh
                    + "; Path=/; HttpOnly; SameSite=Strict; Max-Age=3600; Secure"@,
            ),
        ),
        gateway::csrf_matches(headers, fresh) <==> gateway::cookie_of(headers, "connector_csrf"@)
            == Some(fresh),
{
}

/// A request without a good token is told where to learn of the tools.
pub proof fn challenges_lead_to_the_metadata()
    ensures
        oauth::challenged().challenge == Some(
            "Bearer resource_metadata=\""@ + "https://connector.ylxdzsw.com"@
                + "/.well-known/oauth-protected-resource\", scope=\"control\""@,
        ),
        oauth::challenged().body == BodyModel::Plain("OAuth access token required"@),
{
}

/// A refused exchange is answered with status 400 where the request is at fault,
/// and with 503 where the storage is; a good one with status 200 and its tokens,
/// which nobody may keep.
pub proof fn exchanges_are_answered(issue: crate::db::rows::IssueModel)
    ensures
        tells(
            oauth::refusal(crate::db::rows::OAuthError::InvalidRequest),
            400,
            "invalid_request"@,
        ),
        tells(oauth::refusal(crate::db::rows::OAuthError::InvalidGrant), 400, "invalid_grant"@),
        tells(
            oauth::refusal(crate::db::rows::OAuthError::Storage),
            503,
            "temporarily_unavailable"@,
        ),
        oauth::exchange_reply(Ok(issue)).status == 200,
        oauth::exchange_reply(Ok(issue)).body == BodyModel::Tokens(issue),
        oauth::exchange_reply(Ok(issue)).no_store,
        oauth::exchange_reply(Ok(issue)).no_cache,
{
}

} // verus!
