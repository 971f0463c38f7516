//! What holds of the tables whatever is requested.
use vstd::prelude::*;

use crate::clock;
use crate::crypto;
use crate::db::model;
use crate::db::model::Tables;
use crate::db::rows;
use crate::db::rows::{
    BindingModel, ClientView, GrantModel, IssueModel, OAuthError, StorageError, TokenModel,
};
use crate::table;
use crate::text;
use crate::text::Text;

verus! {

// ---------------------------------------------------------------------------
// Requests
// ---------------------------------------------------------------------------
/// Everything that may be asked of the tables.
pub enum Request {
    CreateClient { name: Text, code: Text, expires_at: i64 },
    RevokeClient { name: Text },
    RotateCode { name: Text, code: Text },
    ExtendClient { name: Text, days: u32 },
    Register { client_id: Text, secret: Text, redirect_uri: Text },
    CreateCode { binding: BindingModel, code: Text },
    Exchange {
        code: Text,
        client_id: Text,
        redirect_uri: Text,
        resource: Text,
        verifier: Text,
        access: Text,
        refresh: Text,
    },
    Refresh { token: Text, client_id: Text, resource: Text, access: Text, refresh: Text },
    RevokeToken { token: Text, client_id: Text },
    RevokeGrant { id: i64 },
}

impl Request {
    /// Whether a request concerns the machines and their connection codes.
    pub open spec fn about_clients(self) -> bool {
        self is CreateClient || self is RevokeClient || self is RotateCode || self is ExtendClient
    }
}

/// The tables after a request.
pub open spec fn after(t: Tables, request: Request, now: i64) -> Tables {
    match request {
        Request::CreateClient { name, code, expires_at } => {
            match model::client_created(t, name, code, expires_at, now) {
                Ok(next) => next,
                Err(_) => t,
            }
        },
        Request::RevokeClient { name } => model::client_revoked(t, name, now).0,
        Request::RotateCode { name, code } => match model::code_rotated(t, name, code) {
            Ok((next, _)) => next,
            Err(_) => t,
        },
        Request::ExtendClient { name, days } => match model::client_extended(t, name, days, now) {
            Ok((next, _)) => next,
            Err(_) => t,
        },
        Request::Register { client_id, secret, redirect_uri } => model::oauth_registered(
            t,
            client_id,
            secret,
            redirect_uri,
        ),
        Request::CreateCode { binding, code } => match model::code_created(t, binding, code, now) {
            Ok(next) => next,
            Err(_) => t,
        },
        Request::Exchange {
            code,
            client_id,
            redirect_uri,
            resource,
            verifier,
            access,
            refresh,
        } => match model::exchanged(
            t,
            code,
            client_id,
            redirect_uri,
            resource,
            verifier,
            now,
            access,
            refresh,
        ) {
            Ok((next, _)) => next,
            Err(_) => t,
        },
        Request::Refresh { token, client_id, resource, access, refresh } => model::refreshed(
            t,
            token,
            client_id,
            resource,
            now,
            access,
            refresh,
        ).0,
        Request::RevokeToken { token, client_id } => model::token_revoked(
            t,
            token,
            client_id,
            now,
        ),
        Request::RevokeGrant { id } => model::grant_revoked(t, id, now).0,
    }
}

// ---------------------------------------------------------------------------
// Consistency
// ---------------------------------------------------------------------------
/// A rotated code keeps the tables consistent.
pub proof fn rotation_keeps_consistent(t: Tables, name: Text, code: Text)
    requires
        model::consistent(t),
    ensures
        model::code_rotated(t, name, code) matches Ok((next, _)) ==> model::consistent(next),
{
    if let Ok((next, true)) = model::code_rotated(t, name, code) {
        assert forall|a: Text, b: Text| #[trigger]
            next.clients.dom().contains(a) && #[trigger] next.clients.dom().contains(b)
                && next.clients[a].code == next.clients[b].code implies a == b by {
            if a != b && (a == name || b == name) {
                let other = if a == name {
                    b
                } else {
                    a
                };
                assert(model::has_code(t.clients, other, code));
                assert(t.clients[name].code == code);
                assert(t.clients.dom().contains(name) && t.clients.dom().contains(other));
            } else if a != b {
                assert(t.clients.dom().contains(a) && t.clients.dom().contains(b));
            }
        }
    }
}

/// A new grant and its code keep the tables consistent.
pub proof fn creation_keeps_consistent(t: Tables, binding: BindingModel, code: Text, now: i64)
    requires
        model::consistent(t),
    ensures
        model::code_created(t, binding, code, now) matches Ok(next) ==> model::consistent(next),
{
}

/// An exchanged code keeps the tables consistent.
pub proof fn exchange_keeps_consistent(
    t: Tables,
    code: Text,
    client_id: Text,
    redirect_uri: Text,
    resource: Text,
    verifier: Text,
    now: i64,
    access: Text,
    refresh: Text,
)
    requires
        model::consistent(t),
    ensures
        model::exchanged(
            t,
            code,
            client_id,
            redirect_uri,
            resource,
            verifier,
            now,
            access,
            refresh,
        ) matches Ok((next, _)) ==> model::consistent(next),
{
}

/// An exchanged refresh token keeps the tables consistent.
pub proof fn refresh_keeps_consistent(
    t: Tables,
    token: Text,
    client_id: Text,
    resource: Text,
    now: i64,
    access: Text,
    refresh: Text,
)
    requires
        model::consistent(t),
    ensures
        model::consistent(
            model::refreshed(t, token, client_id, resource, now, access, refresh).0,
        ),
{
}

/// Every request keeps the tables consistent.
pub proof fn requests_keep_tables_consistent(t: Tables, request: Request, now: i64)
    requires
        model::consistent(t),
    ensures
        model::consistent(after(t, request, now)),
{
    match request {
        Request::RotateCode { name, code } => {
            rotation_keeps_consistent(t, name, code);
        },
        Request::CreateClient { name, code, expires_at } => {
            if let Ok(next) = model::client_created(t, name, code, expires_at, now) {
                assert forall|a: Text, b: Text| #[trigger]
                    next.clients.dom().contains(a) && #[trigger] next.clients.dom().contains(b)
                        && next.clients[a].code == next.clients[b].code implies a == b by {
                    if a != b {
                        let other = if a == name {
                            b
                        } else {
                            a
                        };
                        assert(t.clients.dom().contains(other));
                        if a == name || b == name {
                            assert(model::has_code(t.clients, other, code));
                        }
                    }
                }
            }
        },
        _ => {},
    }
}

// ---------------------------------------------------------------------------
// Separate credentials
// ---------------------------------------------------------------------------
/// The credentials of machines and of controllers live apart: a request about
/// machines changes nothing that controllers rely on, and any other request
/// changes no machine.
pub proof fn credential_domains_are_separate(t: Tables, request: Request, now: i64)
    ensures
        request.about_clients() ==> ({
            let next = after(t, request, now);
            &&& next.oauth_clients == t.oauth_clients
            &&& next.grants == t.grants
            &&& next.codes == t.codes
            &&& next.access == t.access
            &&& next.refresh == t.refresh
        }),
        !request.about_clients() ==> after(t, request, now).clients == t.clients,
{
}

/// A connection code opens a link only, whatever tokens are issued, used or
/// revoked; and what a token opens does not depend on any connection code.
pub proof fn no_credential_acts_in_another_role(
    t: Tables,
    request: Request,
    now: i64,
    secret: Text,
    resource: Text,
    scope: Text,
    later: i64,
)
    ensures
        request.about_clients() ==> model::access_valid(
            after(t, request, now),
            secret,
            resource,
            scope,
            later,
        ) == model::access_valid(t, secret, resource, scope, later),
        !request.about_clients() ==> model::client_for(after(t, request, now), secret, later)
            == model::client_for(t, secret, later),
{
    credential_domains_are_separate(t, request, now);
}

// ---------------------------------------------------------------------------
// Authorization codes
// ---------------------------------------------------------------------------
/// A code that was used stays used, whatever is requested.
pub proof fn used_codes_stay_used(t: Tables, request: Request, now: i64, h: Seq<u8>)
    requires
        t.codes.dom().contains(h),
        t.codes[h].consumed_at is Some,
    ensures
        after(t, request, now).codes.dom().contains(h),
        after(t, request, now).codes[h].consumed_at is Some,
{
}

/// The tables after a number of requests.
pub open spec fn after_all(t: Tables, requests: Seq<(Request, i64)>) -> Tables
    decreases requests.len(),
{
    if requests.len() == 0 {
        t
    } else {
        after(after_all(t, requests.drop_last()), requests.last().0, requests.last().1)
    }
}

proof fn lemma_used_for_good(t: Tables, requests: Seq<(Request, i64)>, h: Seq<u8>)
    requires
        t.codes.dom().contains(h),
        t.codes[h].consumed_at is Some,
    ensures
        after_all(t, requests).codes.dom().contains(h),
        after_all(t, requests).codes[h].consumed_at is Some,
    decreases requests.len(),
{
    if requests.len() > 0 {
        lemma_used_for_good(t, requests.drop_last(), h);
        used_codes_stay_used(
            after_all(t, requests.drop_last()),
            requests.last().0,
            requests.last().1,
            h,
        );
    }
}

/// An authorization code is exchanged once: after that, and after any number of
/// further requests, every exchange of it is refused.
pub proof fn codes_are_single_use(
    t: Tables,
    code: Text,
    client_id: Text,
    redirect_uri: Text,
    resource: Text,
    verifier: Text,
    now: i64,
    access: Text,
    refresh: Text,
    requests: Seq<(Request, i64)>,
    again: Request,
    later: i64,
)
    requires
        model::exchanged(
            t,
            code,
            client_id,
            redirect_uri,
            resource,
            verifier,
            now,
            access,
            refresh,
        ) is Ok,
        again matches Request::Exchange { code: c, .. } && c == code,
    ensures
        ({
            let next = model::exchanged(
                t,
                code,
                client_id,
                redirect_uri,
                resource,
                verifier,
                now,
                access,
                refresh,
            )->Ok_0.0;
            let then = after_all(next, requests);
            &&& after(then, again, later) == then
            &&& model::exchanged(
                then,
                code,
                again->Exchange_client_id,
                again->Exchange_redirect_uri,
                again->Exchange_resource,
                again->verifier,
                later,
                again->Exchange_access,
                again->Exchange_refresh,
            ) == Err::<(Tables, IssueModel), OAuthError>(OAuthError::InvalidGrant)
        }),
{
    let next = model::exchanged(
        t,
        code,
        client_id,
        redirect_uri,
        resource,
        verifier,
        now,
        access,
        refresh,
    )->Ok_0.0;
    lemma_used_for_good(next, requests, crypto::hashed(code));
}

/// A code is exchanged only with everything it is bound to: the client, the
/// redirect address, the resource and the verifier of its challenge, and only
/// before it expires.
pub proof fn exchanges_prove_every_binding(
    t: Tables,
    code: Text,
    client_id: Text,
    redirect_uri: Text,
    resource: Text,
    verifier: Text,
    now: i64,
    access: Text,
    refresh: Text,
)
    requires
        model::exchanged(
            t,
            code,
            client_id,
            redirect_uri,
            resource,
            verifier,
            now,
            access,
            refresh,
        ) is Ok,
    ensures
        t.codes.dom().contains(crypto::hashed(code)),
        t.codes[crypto::hashed(code)].client_id == client_id,
        t.codes[crypto::hashed(code)].redirect_uri == redirect_uri,
        t.codes[crypto::hashed(code)].resource == resource,
        t.codes[crypto::hashed(code)].code_challenge == crypto::challenge_of(verifier),
        now < t.codes[crypto::hashed(code)].expires_at,
{
}

/// A code that was just handed out is good for tokens with its scopes until it
/// expires, as long as the tokens are new. The access token then opens the
/// resource for each of these scopes until it expires.
pub proof fn granted_codes_give_valid_tokens(
    t: Tables,
    binding: BindingModel,
    code: Text,
    created: i64,
    verifier: Text,
    now: i64,
    access: Text,
    refresh: Text,
    scope: Text,
    later: i64,
)
    requires
        model::consistent(t),
        model::code_created(t, binding, code, created) is Ok,
        clock::readable(created),
        clock::readable(now),
        now < created + 300,
        model::proves(verifier, binding.code_challenge),
        !t.access.dom().contains(crypto::hashed(access)),
        !t.refresh.dom().contains(crypto::hashed(refresh)),
        model::scope_named(binding.scopes, scope),
        later < now + 3_600,
    ensures
        ({
            let granted = model::code_created(t, binding, code, created)->Ok_0;
            let r = model::exchanged(
                granted,
                code,
                binding.client_id,
                binding.redirect_uri,
                binding.resource,
                verifier,
                now,
                access,
                refresh,
            );
            &&& r matches Ok((next, issue))
            &&& issue.access_token == access
            &&& issue.token_type == "Bearer"@
            &&& issue.expires_in == 3_600
            &&& issue.scope == binding.scopes
            &&& issue.refresh_token == if model::scope_named(binding.scopes, "offline_access"@) {
                Some(refresh)
            } else {
                None
            }
            &&& model::access_valid(next, access, binding.resource, scope, later)
            &&& forall|word: Text, then: i64|
                then >= now + 3_600 ==> !#[trigger] model::access_valid(
                    next,
                    access,
                    binding.resource,
                    word,
                    then,
                )
            &&& issue.refresh_token is Some ==> ({
                let row = next.refresh[crypto::hashed(refresh)];
                &&& next.refresh.dom().contains(crypto::hashed(refresh))
                &&& good_for(next, row, binding.resource, now)
                &&& row.client_id == binding.client_id
                &&& row.scopes == binding.scopes
                &&& row.expires_at == now + 2_592_000
            })
            &&& issue.refresh_token is None ==> next.refresh == t.refresh
        }),
{
}

// ---------------------------------------------------------------------------
// Grants
// ---------------------------------------------------------------------------
/// Whether a grant is revoked.
pub open spec fn revoked(t: Tables, id: i64) -> bool {
    t.grants.dom().contains(id) && t.grants[id].revoked_at is Some
}

/// A revoked grant stays revoked, whatever is requested.
pub proof fn revoked_grants_stay_revoked(t: Tables, request: Request, now: i64, id: i64)
    requires
        revoked(t, id),
    ensures
        revoked(after(t, request, now), id),
{
    if let Request::CreateCode { binding, code } = request {
        lemma_next_id(t, id);
    }
}

/// The number of the next grant is free.
proof fn lemma_next_id(t: Tables, id: i64)
    requires
        t.grants.dom().contains(id),
    ensures
        model::next_id(t.grants) != id,
{
    if exists|top: i64| model::highest(t.grants, top) {
        let top = choose|top: i64| model::highest(t.grants, top);
        assert(id <= top);
    } else {
        lemma_climb(t.grants, id, i64::MAX - id);
    }
}

/// Where there are grants, one of them has the highest number.
proof fn lemma_climb(grants: Map<i64, rows::GrantModel>, from: i64, room: int)
    requires
        grants.dom().contains(from),
        room == i64::MAX - from,
    ensures
        exists|id: i64| model::highest(grants, id),
    decreases room,
{
    if !model::highest(grants, from) {
        let k = choose|k: i64| grants.dom().contains(k) && k > from;
        lemma_climb(grants, k, i64::MAX - k);
    }
}

/// No access token of a revoked grant opens anything, and no refresh token of
/// it is exchanged.
pub proof fn revoked_grants_open_nothing(
    t: Tables,
    id: i64,
    token: Text,
    client_id: Text,
    resource: Text,
    scope: Text,
    now: i64,
    access: Text,
    refresh: Text,
)
    requires
        revoked(t, id),
    ensures
        t.access.dom().contains(crypto::hashed(token)) && t.access[crypto::hashed(token)].grant_id
            == id ==> !model::access_valid(t, token, resource, scope, now),
        t.refresh.dom().contains(crypto::hashed(token)) && t.refresh[crypto::hashed(
            token,
        )].grant_id == id ==> model::refreshed(
            t,
            token,
            client_id,
            resource,
            now,
            access,
            refresh,
        ).1 is Err,
{
}

/// A refresh token that is presented again revokes its grant, and with it every
/// token that was issued for the grant.
pub proof fn refresh_reuse_revokes_the_grant(
    t: Tables,
    token: Text,
    client_id: Text,
    resource: Text,
    now: i64,
    access: Text,
    refresh: Text,
    again: i64,
    other: Text,
    more: Text,
)
    requires
        model::consistent(t),
        model::refreshed(t, token, client_id, resource, now, access, refresh).1 is Ok,
        again < t.refresh[crypto::hashed(token)].expires_at,
    ensures
        ({
            let first = model::refreshed(t, token, client_id, resource, now, access, refresh).0;
            let second = model::refreshed(first, token, client_id, resource, again, other, more);
            &&& second.1 == Err::<IssueModel, OAuthError>(OAuthError::InvalidGrant)
            &&& revoked(second.0, t.refresh[crypto::hashed(token)].grant_id)
            &&& forall|scope: Text, later: i64|
                !#[trigger] model::access_valid(second.0, access, resource, scope, later)
        }),
{
    let h = crypto::hashed(token);
    let first = model::refreshed(t, token, client_id, resource, now, access, refresh).0;
    assert(first.refresh.dom().contains(h));
    assert(first.refresh[h].ended_at is Some);
    assert(first.access.dom().contains(crypto::hashed(access)));
}

/// Revoking a grant ends its tokens.
pub proof fn revocation_ends_tokens(
    t: Tables,
    id: i64,
    now: i64,
    token: Text,
    resource: Text,
    scope: Text,
    later: i64,
)
    requires
        t.grants.dom().contains(id),
        t.access.dom().contains(crypto::hashed(token)),
        t.access[crypto::hashed(token)].grant_id == id,
    ensures
        !model::access_valid(model::grant_revoked(t, id, now).0, token, resource, scope, later),
{
}

/// A token that an OAuth client gives back opens nothing any more.
pub proof fn returned_tokens_open_nothing(
    t: Tables,
    token: Text,
    client_id: Text,
    now: i64,
    resource: Text,
    scope: Text,
    later: i64,
)
    requires
        t.access.dom().contains(crypto::hashed(token)) ==> t.access[crypto::hashed(
            token,
        )].client_id == client_id,
    ensures
        !model::access_valid(
            model::token_revoked(t, token, client_id, now),
            token,
            resource,
            scope,
            later,
        ),
{
}

// ---------------------------------------------------------------------------
// Tokens
// ---------------------------------------------------------------------------
/// Whether a word stands in a list of scopes: the list is that word with words
/// before and after it, parted by white space.
pub open spec fn is_among(scopes: Text, scope: Text) -> bool {
    &&& scope.len() > 0
    &&& !exists|i: int| 0 <= i < scope.len() && text::is_ascii_space(#[trigger] scope[i])
    &&& exists|before: Text, after: Text|
        {
            &&& scopes == #[trigger] (before + scope + after)
            &&& before.len() > 0 ==> text::is_ascii_space(before.last())
            &&& after.len() > 0 ==> text::is_ascii_space(after[0])
        }
}

/// A list of scopes names the words that stand in it.
pub proof fn scopes_are_words(scopes: Text, scope: Text)
    ensures
        model::scope_named(scopes, scope) <==> is_among(scopes, scope),
{
    if model::scope_named(scopes, scope) {
        let i = choose|i: int| model::word_at(scopes, scope, i);
        let before = scopes.take(i);
        let after = scopes.skip(i + scope.len());
        assert(scopes =~= before + scope + after) by {
            assert(scopes.subrange(i, i + scope.len()) == scope);
        }
    }
    if is_among(scopes, scope) {
        let (before, after) = choose|before: Text, after: Text|
            {
                &&& scopes == #[trigger] (before + scope + after)
                &&& before.len() > 0 ==> text::is_ascii_space(before.last())
                &&& after.len() > 0 ==> text::is_ascii_space(after[0])
            };
        let i = before.len() as int;
        assert(scopes.subrange(i, i + scope.len()) =~= scope);
        assert(model::word_at(scopes, scope, i));
    }
}

/// Whether a token row is good for a resource at a time: it was issued for the
/// resource, has not ended nor expired, and its grant is in force.
pub open spec fn good_for(t: Tables, row: TokenModel, resource: Text, now: i64) -> bool {
    &&& row.resource == resource
    &&& row.expires_at > now
    &&& row.ended_at is None
    &&& t.grants[row.grant_id].revoked_at is None
}

/// An access token opens a resource for exactly the scopes that it was issued
/// with, as long as it is good for that resource.
pub proof fn tokens_open_what_they_were_issued_for(
    t: Tables,
    token: Text,
    resource: Text,
    scope: Text,
    now: i64,
)
    ensures
        model::access_valid(t, token, resource, scope, now) <==> t.access.dom().contains(
            crypto::hashed(token),
        ) && good_for(t, t.access[crypto::hashed(token)], resource, now) && is_among(
            t.access[crypto::hashed(token)].scopes,
            scope,
        ),
{
    if t.access.dom().contains(crypto::hashed(token)) {
        scopes_are_words(t.access[crypto::hashed(token)].scopes, scope);
    }
}

/// A refresh token that is unused, bound to the client and the resource, not
/// expired and of a grant in force is exchanged: the new tokens carry its
/// scopes, the new access token opens the resource for each of them for an hour
/// and no longer, and the new refresh token is good for thirty days for the
/// same client, resource, grant and scopes. The old one is used up, and nothing
/// else changes.
pub proof fn refreshed_tokens_keep_their_scopes(
    t: Tables,
    token: Text,
    client_id: Text,
    resource: Text,
    now: i64,
    access: Text,
    refresh: Text,
)
    requires
        model::consistent(t),
        clock::readable(now),
        t.refresh.dom().contains(crypto::hashed(token)),
        t.refresh[crypto::hashed(token)].client_id == client_id,
        good_for(t, t.refresh[crypto::hashed(token)], resource, now),
        !t.access.dom().contains(crypto::hashed(access)),
        !t.refresh.dom().contains(crypto::hashed(refresh)),
    ensures
        ({
            let row = t.refresh[crypto::hashed(token)];
            let (next, answer) = model::refreshed(
                t,
                token,
                client_id,
                resource,
                now,
                access,
                refresh,
            );
            let renewed = next.refresh[crypto::hashed(refresh)];
            &&& answer matches Ok(issue)
            &&& issue.access_token == access
            &&& issue.token_type == "Bearer"@
            &&& issue.expires_in == 3_600
            &&& issue.scope == row.scopes
            &&& issue.refresh_token == Some(refresh)
            &&& forall|scope: Text, later: i64| #[trigger]
                model::access_valid(next, access, resource, scope, later) <==> later < now + 3_600
                    && is_among(row.scopes, scope)
            &&& next.refresh.dom() == t.refresh.dom().insert(crypto::hashed(refresh))
            &&& good_for(next, renewed, resource, now)
            &&& renewed.client_id == client_id
            &&& renewed.scopes == row.scopes
            &&& renewed.grant_id == row.grant_id
            &&& renewed.expires_at == now + 2_592_000
            &&& renewed.created_at == now
            &&& next.refresh[crypto::hashed(token)] == (TokenModel { ended_at: Some(now), ..row })
            &&& next.access[crypto::hashed(access)].grant_id == row.grant_id
            &&& next.access[crypto::hashed(access)].client_id == client_id
            &&& next.access[crypto::hashed(access)].created_at == now
            &&& forall|h: Seq<u8>|
                t.refresh.dom().contains(h) && h != crypto::hashed(token)
                    ==> #[trigger] next.refresh[h] == t.refresh[h]
            &&& next.access.dom() == t.access.dom().insert(crypto::hashed(access))
            &&& forall|h: Seq<u8>|
                t.access.dom().contains(h) ==> #[trigger] next.access[h] == t.access[h]
            &&& next.clients == t.clients
            &&& next.oauth_clients == t.oauth_clients
            &&& next.grants == t.grants
            &&& next.codes == t.codes
        }),
{
    let (next, answer) = model::refreshed(t, token, client_id, resource, now, access, refresh);
    assert forall|scope: Text, later: i64| #[trigger]
        model::access_valid(next, access, resource, scope, later) <==> later < now + 3_600
            && is_among(t.refresh[crypto::hashed(token)].scopes, scope) by {
        scopes_are_words(t.refresh[crypto::hashed(token)].scopes, scope);
    }
    assert(next.refresh.dom() =~= t.refresh.dom().insert(crypto::hashed(refresh)));
    assert(next.access.dom() =~= t.access.dom().insert(crypto::hashed(access)));
}

/// The refresh token that an exchange gave is exchanged in turn, with the same
/// scopes, until it expires after thirty days.
pub proof fn refreshing_goes_on(
    t: Tables,
    token: Text,
    client_id: Text,
    resource: Text,
    now: i64,
    access: Text,
    refresh: Text,
    later: i64,
    other: Text,
    more: Text,
)
    requires
        model::consistent(t),
        clock::readable(now),
        clock::readable(later),
        t.refresh.dom().contains(crypto::hashed(token)),
        t.refresh[crypto::hashed(token)].client_id == client_id,
        good_for(t, t.refresh[crypto::hashed(token)], resource, now),
        !t.access.dom().contains(crypto::hashed(access)),
        !t.refresh.dom().contains(crypto::hashed(refresh)),
        later < now + 2_592_000,
        !t.access.dom().contains(crypto::hashed(other)),
        crypto::hashed(other) != crypto::hashed(access),
        !t.refresh.dom().contains(crypto::hashed(more)),
        crypto::hashed(more) != crypto::hashed(refresh),
    ensures
        ({
            let first = model::refreshed(t, token, client_id, resource, now, access, refresh).0;
            let (next, answer) = model::refreshed(
                first,
                refresh,
                client_id,
                resource,
                later,
                other,
                more,
            );
            let scopes = t.refresh[crypto::hashed(token)].scopes;
            &&& answer matches Ok(issue)
            &&& issue.scope == scopes
            &&& issue.refresh_token == Some(more)
            &&& forall|scope: Text, then: i64| #[trigger]
                model::access_valid(next, other, resource, scope, then) <==> then < later + 3_600
                    && is_among(scopes, scope)
        }),
{
    refreshed_tokens_keep_their_scopes(t, token, client_id, resource, now, access, refresh);
    refresh_keeps_consistent(t, token, client_id, resource, now, access, refresh);
    let first = model::refreshed(t, token, client_id, resource, now, access, refresh).0;
    refreshed_tokens_keep_their_scopes(first, refresh, client_id, resource, later, other, more);
}

/// A refresh token that is unknown, of another client, expired, for another
/// resource or of a revoked grant is refused, and nothing changes.
pub proof fn stray_refresh_tokens_change_nothing(
    t: Tables,
    token: Text,
    client_id: Text,
    resource: Text,
    now: i64,
    access: Text,
    refresh: Text,
)
    requires
        !t.refresh.dom().contains(crypto::hashed(token)) || {
            let row = t.refresh[crypto::hashed(token)];
            ||| row.client_id != client_id
            ||| row.expires_at <= now
            ||| row.ended_at is None && !good_for(t, row, resource, now)
        },
    ensures
        model::refreshed(t, token, client_id, resource, now, access, refresh) == (
            t,
            Err::<IssueModel, OAuthError>(OAuthError::InvalidGrant),
        ),
{
}

/// A code is good for five minutes and for one exchange; a code that is not
/// exchanged leaves everything as it was.
pub proof fn codes_expire_after_five_minutes(
    t: Tables,
    binding: BindingModel,
    code: Text,
    created: i64,
    client_id: Text,
    redirect_uri: Text,
    resource: Text,
    verifier: Text,
    now: i64,
    access: Text,
    refresh: Text,
)
    requires
        model::consistent(t),
        clock::readable(created),
        model::code_created(t, binding, code, created) is Ok,
        now >= created + 300,
    ensures
        model::exchanged(
            model::code_created(t, binding, code, created)->Ok_0,
            code,
            client_id,
            redirect_uri,
            resource,
            verifier,
            now,
            access,
            refresh,
        ) == Err::<(Tables, IssueModel), OAuthError>(OAuthError::InvalidGrant),
{
}

/// A verifier belongs to a challenge exactly when it has 43 to 128 bytes and the
/// challenge is the Base64 for URLs of its SHA-256 digest.
pub proof fn verifiers_belong_to_their_challenge(verifier: Text, challenge: Text)
    ensures
        model::proves(verifier, challenge) <==> {
            &&& 43 <= vstd::utf8::encode_utf8(verifier).len() <= 128
            &&& challenge == crypto::base64_digits(
                crypto::sha256(vstd::utf8::encode_utf8(verifier)),
                true,
            )
        },
{
}

/// A code is exchanged exactly when it is unused, not expired, and presented by
/// its client with its redirect URI, its resource and a verifier of its
/// challenge, as long as the tokens are new. The exchange uses it up, gives the
/// tokens of its grant to its client, and changes nothing else.
pub proof fn exchanges_use_up_the_code(
    t: Tables,
    code: Text,
    client_id: Text,
    redirect_uri: Text,
    resource: Text,
    verifier: Text,
    now: i64,
    access: Text,
    refresh: Text,
)
    requires
        model::consistent(t),
        clock::readable(now),
        !t.access.dom().contains(crypto::hashed(access)),
        !t.refresh.dom().contains(crypto::hashed(refresh)),
    ensures
        ({
            let h = crypto::hashed(code);
            let row = t.codes[h];
            let r = model::exchanged(
                t,
                code,
                client_id,
                redirect_uri,
                resource,
                verifier,
                now,
                access,
                refresh,
            );
            let good = {
                &&& t.codes.dom().contains(h)
                &&& row.client_id == client_id
                &&& row.redirect_uri == redirect_uri
                &&& row.resource == resource
                &&& row.consumed_at is None
                &&& now < row.expires_at
                &&& model::proves(verifier, row.code_challenge)
            };
            &&& good <==> r is Ok
            &&& !good ==> r == Err::<(Tables, IssueModel), OAuthError>(OAuthError::InvalidGrant)
            &&& r matches Ok((next, issue)) ==> {
                let a = next.access[crypto::hashed(access)];
                &&& next.codes.dom() =~= t.codes.dom()
                &&& next.codes[h].consumed_at == Some(now)
                &&& forall|other: Seq<u8>|
                    other != h && t.codes.dom().contains(other) ==> #[trigger] next.codes[other]
                        == t.codes[other]
                &&& next.grants == t.grants
                &&& next.clients == t.clients
                &&& next.oauth_clients == t.oauth_clients
                &&& next.access.dom() =~= t.access.dom().insert(crypto::hashed(access))
                &&& forall|other: Seq<u8>|
                    t.access.dom().contains(other) ==> #[trigger] next.access[other]
                        == t.access[other]
                &&& a.grant_id == row.grant_id
                &&& a.client_id == client_id
                &&& a.scopes == row.scopes
                &&& a.resource == resource
                &&& a.created_at == now
                &&& a.expires_at == now + 3_600
                &&& a.ended_at is None
                &&& issue.scope == row.scopes
            }
        }),
{
}

/// A consent makes one grant and one code for it, with everything the code is
/// bound to; a client that is not registered gets none.
pub proof fn consents_are_recorded(t: Tables, binding: BindingModel, code: Text, now: i64)
    requires
        model::consistent(t),
        clock::readable(now),
    ensures
        !t.oauth_clients.dom().contains(binding.client_id) ==> model::code_created(
            t,
            binding,
            code,
            now,
        ) == Err::<Tables, StorageError>(StorageError::UnknownClient),
        t.oauth_clients.dom().contains(binding.client_id) && !t.codes.dom().contains(
            crypto::hashed(code),
        ) && !t.grants.dom().contains(i64::MAX) ==> ({
            let r = model::code_created(t, binding, code, now);
            &&& r matches Ok(next)
            &&& next.codes.dom() == t.codes.dom().insert(crypto::hashed(code))
            &&& ({
                let row = next.codes[crypto::hashed(code)];
                let grant = next.grants[row.grant_id];
                &&& !t.grants.dom().contains(row.grant_id)
                &&& row.grant_id == 1 || t.grants.dom().contains((row.grant_id - 1) as i64)
                &&& grant.id == row.grant_id
                &&& next.grants == t.grants.insert(row.grant_id, grant)
                &&& row.subject == binding.subject
                &&& row.client_id == binding.client_id
                &&& row.redirect_uri == binding.redirect_uri
                &&& row.resource == binding.resource
                &&& row.scopes == binding.scopes
                &&& row.code_challenge == binding.code_challenge
                &&& row.consumed_at is None
                &&& row.expires_at == now + 300
                &&& grant.subject == binding.subject
                &&& grant.client_id == binding.client_id
                &&& grant.scopes == binding.scopes
                &&& grant.created_at == now
                &&& grant.revoked_at is None
            })
            &&& forall|h: Seq<u8>|
                t.codes.dom().contains(h) ==> #[trigger] next.codes[h] == t.codes[h]
            &&& next.clients == t.clients
            &&& next.oauth_clients == t.oauth_clients
            &&& next.access == t.access
            &&& next.refresh == t.refresh
        }),
{
    let id = model::next_id(t.grants);
    if t.oauth_clients.dom().contains(binding.client_id) && !t.codes.dom().contains(
        crypto::hashed(code),
    ) && !t.grants.dom().contains(i64::MAX) {
        if exists|top: i64| model::highest(t.grants, top) {
            let top = choose|top: i64| model::highest(t.grants, top);
            assert(t.grants.dom().contains(top));
            assert(top < i64::MAX);
        }
        assert(id <= i64::MAX);
        assert(!t.grants.dom().contains(id as i64)) by {
            if t.grants.dom().contains(id as i64) {
                lemma_next_id(t, id as i64);
            }
        }
        let next = model::code_created(t, binding, code, now)->Ok_0;
        assert(next.codes.dom() =~= t.codes.dom().insert(crypto::hashed(code)));
    }
}

/// A token that is given back by the client that has it ends: an access token
/// alone, a refresh token with its whole grant. Other clients' tokens stay.
pub proof fn returned_tokens_end(t: Tables, token: Text, client_id: Text, now: i64)
    ensures
        ({
            let h = crypto::hashed(token);
            let next = model::token_revoked(t, token, client_id, now);
            &&& t.access.dom().contains(h) && t.access[h].client_id == client_id ==> next.access[h]
                == (TokenModel { ended_at: Some(now), ..t.access[h] })
            &&& t.refresh.dom().contains(h) && t.refresh[h].client_id == client_id
                && t.grants.dom().contains(t.refresh[h].grant_id) ==> revoked(
                next,
                t.refresh[h].grant_id,
            )
            &&& (t.access.dom().contains(h) ==> t.access[h].client_id != client_id) && (
            t.refresh.dom().contains(h) ==> t.refresh[h].client_id != client_id) ==> next == t
            &&& next.access.dom() =~= t.access.dom()
            &&& forall|other: Seq<u8>|
                other != h && t.access.dom().contains(other) ==> #[trigger] next.access[other]
                    == t.access[other]
            &&& next.grants.dom() =~= t.grants.dom()
            &&& forall|id: i64|
                t.grants.dom().contains(id) && !(t.refresh.dom().contains(h)
                    && t.refresh[h].client_id == client_id && t.refresh[h].grant_id == id)
                    ==> #[trigger] next.grants[id] == t.grants[id]
            &&& next.refresh == t.refresh
            &&& next.codes == t.codes
            &&& next.clients == t.clients
            &&& next.oauth_clients == t.oauth_clients
        }),
{
}

/// Revoking a grant revokes that grant and no other.
pub proof fn grants_are_revoked_one_by_one(t: Tables, id: i64, now: i64)
    ensures
        ({
            let (next, done) = model::grant_revoked(t, id, now);
            &&& done == (t.grants.dom().contains(id) && t.grants[id].revoked_at is None)
            &&& t.grants.dom().contains(id) ==> revoked(next, id)
            &&& done ==> next.grants[id] == (GrantModel { revoked_at: Some(now), ..t.grants[id] })
            &&& !done ==> next == t
            &&& next.grants.dom() =~= t.grants.dom()
            &&& forall|other: i64|
                other != id && t.grants.dom().contains(other) ==> #[trigger] next.grants[other]
                    == t.grants[other]
            &&& next.access == t.access
            &&& next.refresh == t.refresh
            &&& next.codes == t.codes
            &&& next.clients == t.clients
            &&& next.oauth_clients == t.oauth_clients
        }),
{
}

/// A registered OAuth client is known by its secret until it is registered
/// anew, and registration touches no other client.
pub proof fn registered_clients_are_known(
    t: Tables,
    client_id: Text,
    secret: Text,
    redirect_uri: Text,
    other: Text,
    guess: Text,
)
    ensures
        ({
            let next = model::oauth_registered(t, client_id, secret, redirect_uri);
            &&& model::authentic(next, client_id, secret)
            &&& model::authentic(next, client_id, guess) ==> crypto::hashed(guess)
                == crypto::hashed(secret)
            &&& next.oauth_clients[client_id].redirect_uri == redirect_uri
            &&& other != client_id ==> model::authentic(next, other, guess) == model::authentic(
                t,
                other,
                guess,
            )
            &&& next.oauth_clients.dom() =~= t.oauth_clients.dom().insert(client_id)
            &&& other != client_id && t.oauth_clients.dom().contains(other)
                ==> next.oauth_clients[other] == t.oauth_clients[other]
        }),
{
}

// ---------------------------------------------------------------------------
// Machines
// ---------------------------------------------------------------------------
/// A new client may open links with its code until it expires; a name or a code
/// that is taken is refused; and no other client is touched.
pub proof fn created_clients_open_until_they_expire(
    t: Tables,
    name: Text,
    code: Text,
    expires_at: i64,
    now: i64,
    later: i64,
)
    requires
        model::consistent(t),
    ensures
        t.clients.dom().contains(name) ==> model::client_created(t, name, code, expires_at, now)
            == Err::<Tables, StorageError>(StorageError::NameTaken),
        !t.clients.dom().contains(name) && (exists|other: Text| #[trigger]
            t.clients.dom().contains(other) && t.clients[other].code == code)
            ==> model::client_created(t, name, code, expires_at, now) == Err::<
            Tables,
            StorageError,
        >(StorageError::CodeTaken),
        !t.clients.dom().contains(name) && !(exists|other: Text| #[trigger]
            t.clients.dom().contains(other) && t.clients[other].code == code) ==> ({
            let r = model::client_created(t, name, code, expires_at, now);
            &&& r matches Ok(next)
            &&& next.clients[name].created_at == now
            &&& model::client_for(next, code, later) == if later < expires_at {
                Some(ClientView { name, code, expires_at, revoked_at: None })
            } else {
                None
            }
            &&& next.clients.dom() =~= t.clients.dom().insert(name)
            &&& forall|other: Text|
                t.clients.dom().contains(other) ==> #[trigger] next.clients[other]
                    == t.clients[other]
        }),
{
    if exists|other: Text| #[trigger]
        t.clients.dom().contains(other) && t.clients[other].code == code {
        let other = choose|other: Text| #[trigger]
            t.clients.dom().contains(other) && t.clients[other].code == code;
        assert(model::has_code(t.clients, other, code));
    } else if !t.clients.dom().contains(name) {
        assert(!model::code_taken(t, code)) by {
            if model::code_taken(t, code) {
                let other = choose|other: Text| model::has_code(t.clients, other, code);
                assert(t.clients.dom().contains(other));
            }
        }
        requests_keep_tables_consistent(t, Request::CreateClient { name, code, expires_at }, now);
        let next = model::client_created(t, name, code, expires_at, now)->Ok_0;
        codes_open_for_live_clients(next, name, later);
    }
}

/// Who a code opens a link for: the one client that has it, while that client
/// is neither revoked nor expired.
pub proof fn links_open_for_the_owner_of_the_code(t: Tables, code: Text, now: i64)
    requires
        model::consistent(t),
    ensures
        match model::client_for(t, code, now) {
            Some(client) => {
                &&& t.clients.dom().contains(client.name)
                &&& t.clients[client.name].code == code
                &&& t.clients[client.name].revoked_at is None
                &&& now < t.clients[client.name].expires_at
                &&& client.code == code
                &&& client.expires_at == t.clients[client.name].expires_at
                &&& client.revoked_at is None
            },
            None => forall|name: Text| #[trigger]
                t.clients.dom().contains(name) && t.clients[name].code == code ==> !(
                t.clients[name].revoked_at is None && now < t.clients[name].expires_at),
        },
{
    if exists|name: Text| model::opens(t.clients, name, code, now) {
        let name = choose|name: Text| model::opens(t.clients, name, code, now);
        assert(t.clients.dom().contains(name));
        codes_open_for_live_clients(t, name, now);
    } else {
        assert forall|name: Text| #[trigger]
            t.clients.dom().contains(name) && t.clients[name].code == code implies !(
        t.clients[name].revoked_at is None && now < t.clients[name].expires_at) by {
            assert(!model::opens(t.clients, name, code, now));
        }
    }
}

/// Revocation and rotation concern one client: revocation takes its code out of
/// force and keeps all else of it; rotation keeps its name and expiration.
pub proof fn clients_are_changed_one_by_one(t: Tables, name: Text, code: Text, now: i64)
    requires
        t.clients.dom().contains(name),
    ensures
        ({
            let (next, done) = model::client_revoked(t, name, now);
            &&& done == (t.clients[name].revoked_at is None)
            &&& next.clients[name].revoked_at is Some
            &&& done ==> next.clients[name].revoked_at == Some(now)
            &&& !done ==> next == t
            &&& next.clients[name].code == t.clients[name].code
            &&& next.clients[name].expires_at == t.clients[name].expires_at
            &&& next.clients.dom() =~= t.clients.dom()
            &&& forall|other: Text|
                other != name && t.clients.dom().contains(other) ==> #[trigger] next.clients[other]
                    == t.clients[other]
        }),
        model::code_rotated(t, name, code) matches Ok((next, done)) ==> {
            &&& done
            &&& next.clients[name].code == code
            &&& next.clients[name].revoked_at is None
            &&& next.clients[name].expires_at == t.clients[name].expires_at
            &&& next.clients[name].created_at == t.clients[name].created_at
            &&& next.clients.dom() =~= t.clients.dom()
            &&& forall|other: Text|
                other != name && t.clients.dom().contains(other) ==> #[trigger] next.clients[other]
                    == t.clients[other]
        },
        model::code_rotated(t, name, code) matches Err(e) ==> e == StorageError::CodeTaken
            && exists|other: Text|
            other != name && #[trigger] t.clients.dom().contains(other) && t.clients[other].code
                == code,
{
    if model::code_rotated(t, name, code) is Err {
        let other = choose|other: Text| model::has_code(t.clients, other, code);
        assert(t.clients.dom().contains(other));
    }
}

/// What is asked for a client that does not exist changes nothing.
pub proof fn unknown_clients_change_nothing(t: Tables, name: Text, code: Text, days: u32, now: i64)
    requires
        !t.clients.dom().contains(name),
    ensures
        model::client_revoked(t, name, now) == (t, false),
        model::code_rotated(t, name, code) == Ok::<(Tables, bool), StorageError>((t, false)),
        model::client_extended(t, name, days, now) == Ok::<(Tables, bool), StorageError>(
            (t, false),
        ),
        !model::in_force(t, name),
{
}

/// Clients are listed with those in force first, and by name among those in
/// force and among the others; each is shown as it is, and none is left out.
pub proof fn lists_show_clients_in_order(t: Tables, list: Seq<ClientView>, i: int, j: int)
    requires
        model::consistent(t),
        model::clients_listed(t, list),
        0 <= i < j < list.len(),
    ensures
        list[j].revoked_at is None ==> list[i].revoked_at is None,
        list[i].revoked_at is None == (list[j].revoked_at is None) ==> text::before(
            list[i].name,
            list[j].name,
        ),
        t.clients.dom().contains(list[i].name),
        list[i].code == t.clients[list[i].name].code,
        list[i].expires_at == t.clients[list[i].name].expires_at,
        list[i].revoked_at == t.clients[list[i].name].revoked_at,
{
    assert(model::listed_before(list[i], list[j]));
}

/// Every client and every grant is listed once; grants come latest first.
pub proof fn lists_leave_nothing_out(
    t: Tables,
    list: Seq<ClientView>,
    name: Text,
    grants: Seq<GrantModel>,
    id: i64,
)
    requires
        model::consistent(t),
        model::clients_listed(t, list),
        model::grants_listed(t, grants),
    ensures
        t.clients.dom().contains(name) <==> exists|i: int|
            0 <= i < list.len() && (#[trigger] list[i]).name == name,
        forall|i: int, j: int|
            #![trigger list[i], list[j]]
            0 <= i < j < list.len() ==> list[i].name != list[j].name,
        t.grants.dom().contains(id) <==> exists|i: int|
            0 <= i < grants.len() && (#[trigger] grants[i]).id == id && grants[i] == t.grants[id],
        forall|i: int, j: int|
            #![trigger grants[i], grants[j]]
            0 <= i < j < grants.len() ==> grants[j].id < grants[i].id,
{
    assert forall|i: int, j: int|
        #![trigger list[i], list[j]]
        0 <= i < j < list.len() implies list[i].name != list[j].name by {
        assert(model::listed_before(list[i], list[j]));
        text::names_come_in_alphabetical_order(list[i].name, list[j].name);
    }
    if t.grants.dom().contains(id) {
        let i = choose|i: int| 0 <= i < grants.len() && (#[trigger] grants[i]).id == id;
        assert(grants[i] == t.grants[id]);
    }
}

// ---------------------------------------------------------------------------
// Clients
// ---------------------------------------------------------------------------
/// A code opens a link for a client exactly while the client is neither revoked
/// nor expired, and for no other client.
pub proof fn codes_open_for_live_clients(t: Tables, name: Text, now: i64)
    requires
        model::consistent(t),
        t.clients.dom().contains(name),
    ensures
        model::client_for(t, t.clients[name].code, now) == (if model::live(
            t.clients[name],
            now,
        ) {
            Some(rows::shown(t.clients[name]))
        } else {
            None
        }),
{
    let code = t.clients[name].code;
    if model::live(t.clients[name], now) {
        assert(model::opens(t.clients, name, code, now));
    }
    assert forall|other: Text| #[trigger] model::opens(t.clients, other, code, now) implies other
        == name by {
        assert(t.clients.dom().contains(other));
    }
}

/// Revoking a client closes its code.
pub proof fn revoked_clients_open_nothing(t: Tables, name: Text, now: i64, later: i64)
    requires
        model::consistent(t),
        t.clients.dom().contains(name),
    ensures
        model::client_for(
            model::client_revoked(t, name, now).0,
            t.clients[name].code,
            later,
        ) is None,
{
    requests_keep_tables_consistent(t, Request::RevokeClient { name }, now);
    codes_open_for_live_clients(model::client_revoked(t, name, now).0, name, later);
}

/// Rotation replaces the code: the previous one opens nothing, and the new one
/// opens a link until the client expires. A revoked client comes back with it.
pub proof fn rotation_invalidates_the_previous_code(
    t: Tables,
    name: Text,
    code: Text,
    later: i64,
)
    requires
        model::consistent(t),
        t.clients.dom().contains(name),
        !model::code_taken(t, code),
    ensures
        ({
            let r = model::code_rotated(t, name, code);
            &&& r matches Ok((next, done))
            &&& done
            &&& model::client_for(next, t.clients[name].code, later) is None
            &&& model::client_for(next, code, later) is Some == (later
                < t.clients[name].expires_at)
        }),
{
    let old_code = t.clients[name].code;
    assert(model::has_code(t.clients, name, old_code));
    let next = model::code_rotated(t, name, code)->Ok_0.0;
    rotation_keeps_consistent(t, name, code);
    codes_open_for_live_clients(next, name, later);
    assert forall|other: Text| !#[trigger] model::opens(next.clients, other, old_code, later) by {
        if model::has_code(next.clients, other, old_code) {
            assert(next.clients.dom().contains(other));
            assert(t.clients.dom().contains(other) && t.clients.dom().contains(name));
        }
    }
}

/// Extending keeps the code and adds the days to the expiration, or to now when
/// the client has expired. A revoked client is not extended.
pub proof fn extension_adds_days(t: Tables, name: Text, days: u32, now: i64)
    requires
        t.clients.dom().contains(name),
        t.clients[name].expires_at + days * 86_400 <= i64::MAX,
        now + days * 86_400 <= i64::MAX,
    ensures
        ({
            let r = model::client_extended(t, name, days, now);
            &&& r matches Ok((next, done))
            &&& done == (t.clients[name].revoked_at is None)
            &&& next.clients[name].code == t.clients[name].code
            &&& done && t.clients[name].expires_at >= now ==> next.clients[name].expires_at
                == t.clients[name].expires_at + days * 86_400
            &&& done && t.clients[name].expires_at < now ==> next.clients[name].expires_at == now
                + days * 86_400
            &&& next.clients.dom() == t.clients.dom()
            &&& forall|other: Text|
                other != name && t.clients.dom().contains(other) ==> #[trigger] next.clients[other]
                    == t.clients[other]
            &&& !done ==> next == t
        }),
{
}

// ---------------------------------------------------------------------------
// Lists
// ---------------------------------------------------------------------------
/// The tables determine the list of clients.
pub proof fn clients_are_listed_in_one_way(t: Tables, a: Seq<ClientView>, b: Seq<ClientView>)
    requires
        model::clients_listed(t, a),
        model::clients_listed(t, b),
    ensures
        a == b,
{
    let less = |x: ClientView, y: ClientView| model::listed_before(x, y);
    assert forall|x: ClientView, y: ClientView| #[trigger] less(x, y) implies !less(y, x) by {
        text::lemma_before_order(x.name, y.name, x.name);
    }
    assert forall|v: ClientView| #[trigger] a.contains(v) <==> b.contains(v) by {
        if a.contains(v) {
            let i = choose|i: int| 0 <= i < a.len() && a[i] == v;
            assert(t.clients.dom().contains(a[i].name));
            let j = choose|j: int| 0 <= j < b.len() && (#[trigger] b[j]).name == v.name;
            assert(b[j] == v);
        }
        if b.contains(v) {
            let i = choose|i: int| 0 <= i < b.len() && b[i] == v;
            assert(t.clients.dom().contains(b[i].name));
            let j = choose|j: int| 0 <= j < a.len() && (#[trigger] a[j]).name == v.name;
            assert(a[j] == v);
        }
    }
    table::lemma_one_order(a, b, less);
}

/// The tables determine the list of grants.
pub proof fn grants_are_listed_in_one_way(t: Tables, a: Seq<GrantModel>, b: Seq<GrantModel>)
    requires
        model::grants_listed(t, a),
        model::grants_listed(t, b),
    ensures
        a == b,
{
    let less = |x: GrantModel, y: GrantModel| x.id > y.id;
    assert forall|v: GrantModel| #[trigger] a.contains(v) <==> b.contains(v) by {
        if a.contains(v) {
            let i = choose|i: int| 0 <= i < a.len() && a[i] == v;
            assert(t.grants.dom().contains(a[i].id));
            let j = choose|j: int| 0 <= j < b.len() && (#[trigger] b[j]).id == v.id;
            assert(b[j] == v);
        }
        if b.contains(v) {
            let i = choose|i: int| 0 <= i < b.len() && b[i] == v;
            assert(t.grants.dom().contains(b[i].id));
            let j = choose|j: int| 0 <= j < a.len() && (#[trigger] a[j]).id == v.id;
            assert(a[j] == v);
        }
    }
    table::lemma_one_order(a, b, less);
}

} // verus!
