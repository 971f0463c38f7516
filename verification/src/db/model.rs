//! What each request does to the tables and what it is answered.
use vstd::prelude::*;

use crate::crypto;
use crate::db::rows::{
    BindingModel, ClientModel, ClientView, CodeModel, GrantModel, IssueModel, OAuthError,
    OAuthModel, StorageError, TokenModel,
};
use crate::db::rows;
use crate::text;
use crate::text::Text;

verus! {

/// How long an access token is valid, in seconds.
pub const ACCESS_TTL: i64 = 3_600;

/// How long a refresh token is valid, in seconds.
pub const REFRESH_TTL: i64 = 2_592_000;

/// How long an authorization code is valid, in seconds.
pub const CODE_TTL: i64 = 300;

/// The seconds of a day.
pub const DAY: i64 = 86_400;

/// The rows of every table by their keys.
pub struct Tables {
    pub clients: Map<Text, ClientModel>,
    pub oauth_clients: Map<Text, OAuthModel>,
    pub grants: Map<i64, GrantModel>,
    pub codes: Map<Seq<u8>, CodeModel>,
    pub access: Map<Seq<u8>, TokenModel>,
    pub refresh: Map<Seq<u8>, TokenModel>,
}

pub open spec fn empty_tables() -> Tables {
    Tables {
        clients: Map::empty(),
        oauth_clients: Map::empty(),
        grants: Map::empty(),
        codes: Map::empty(),
        access: Map::empty(),
        refresh: Map::empty(),
    }
}

/// Whether a token belongs to a grant and an OAuth client that exist.
pub open spec fn anchored(t: Tables, grant_id: i64, client_id: Text) -> bool {
    t.grants.dom().contains(grant_id) && t.oauth_clients.dom().contains(client_id)
}

/// Why a token cannot belong to a grant and an OAuth client.
pub open spec fn missing(t: Tables, grant_id: i64, client_id: Text) -> Option<StorageError> {
    if !t.oauth_clients.dom().contains(client_id) {
        Some(StorageError::UnknownClient)
    } else if !t.grants.dom().contains(grant_id) {
        Some(StorageError::UnknownGrant)
    } else {
        None
    }
}

/// What always holds of the tables: every row stands under its own key, no two
/// clients share a code, and every row belongs to rows that exist.
pub open spec fn consistent(t: Tables) -> bool {
    &&& forall|k: Text| #[trigger] t.clients.dom().contains(k) ==> t.clients[k].name == k
    &&& forall|k: Text| #[trigger]
        t.oauth_clients.dom().contains(k) ==> t.oauth_clients[k].client_id == k
    &&& forall|k: i64| #[trigger]
        t.grants.dom().contains(k) ==> t.grants[k].id == k && t.oauth_clients.dom().contains(
            t.grants[k].client_id,
        )
    &&& forall|k: Seq<u8>| #[trigger]
        t.codes.dom().contains(k) ==> t.codes[k].code_hash == k && anchored(
            t,
            t.codes[k].grant_id,
            t.codes[k].client_id,
        )
    &&& forall|k: Seq<u8>| #[trigger]
        t.access.dom().contains(k) ==> t.access[k].token_hash == k && anchored(
            t,
            t.access[k].grant_id,
            t.access[k].client_id,
        )
    &&& forall|k: Seq<u8>| #[trigger]
        t.refresh.dom().contains(k) ==> t.refresh[k].token_hash == k && anchored(
            t,
            t.refresh[k].grant_id,
            t.refresh[k].client_id,
        )
    &&& forall|a: Text, b: Text| #[trigger]
        t.clients.dom().contains(a) && #[trigger] t.clients.dom().contains(b) && t.clients[a].code
            == t.clients[b].code ==> a == b
}

// ---------------------------------------------------------------------------
// Clients
// ---------------------------------------------------------------------------
/// Whether a client has the connection code.
pub open spec fn has_code(clients: Map<Text, ClientModel>, name: Text, code: Text) -> bool {
    clients.dom().contains(name) && clients[name].code == code
}

/// Whether some client has the connection code.
pub open spec fn code_taken(t: Tables, code: Text) -> bool {
    exists|name: Text| has_code(t.clients, name, code)
}

/// The tables with a new client.
pub open spec fn client_created(
    t: Tables,
    name: Text,
    code: Text,
    expires_at: i64,
    now: i64,
) -> Result<Tables, StorageError> {
    if t.clients.dom().contains(name) {
        Err(StorageError::NameTaken)
    } else if code_taken(t, code) {
        Err(StorageError::CodeTaken)
    } else {
        Ok(
            Tables {
                clients: t.clients.insert(
                    name,
                    ClientModel { name, code, expires_at, created_at: now, revoked_at: None },
                ),
                ..t
            },
        )
    }
}

/// Whether a client may use its code: it is neither revoked nor expired.
pub open spec fn live(row: ClientModel, now: i64) -> bool {
    row.revoked_at is None && row.expires_at > now
}

/// Whether a client has the connection code and may use it.
pub open spec fn opens(clients: Map<Text, ClientModel>, name: Text, code: Text, now: i64) -> bool {
    has_code(clients, name, code) && live(clients[name], now)
}

/// The client among these that a code opens a link for.
pub open spec fn opened(clients: Map<Text, ClientModel>, code: Text, now: i64) -> Option<
    ClientView,
> {
    if exists|name: Text| opens(clients, name, code, now) {
        Some(rows::shown(clients[choose|name: Text| opens(clients, name, code, now)]))
    } else {
        None
    }
}

/// The client that a code opens a link for.
pub open spec fn client_for(t: Tables, code: Text, now: i64) -> Option<ClientView> {
    opened(t.clients, code, now)
}

/// The tables with a client revoked, and whether there was one to revoke.
pub open spec fn client_revoked(t: Tables, name: Text, now: i64) -> (Tables, bool) {
    if t.clients.dom().contains(name) && t.clients[name].revoked_at is None {
        (
            Tables {
                clients: t.clients.insert(
                    name,
                    ClientModel { revoked_at: Some(now), ..t.clients[name] },
                ),
                ..t
            },
            true,
        )
    } else {
        (t, false)
    }
}

/// Whether there is a client of the name that is not revoked.
pub open spec fn in_force(t: Tables, name: Text) -> bool {
    t.clients.dom().contains(name) && t.clients[name].revoked_at is None
}

/// The tables with a client's code replaced, and whether there was such a
/// client. A revoked client comes back with its new code.
pub open spec fn code_rotated(t: Tables, name: Text, code: Text) -> Result<
    (Tables, bool),
    StorageError,
> {
    if !t.clients.dom().contains(name) {
        Ok((t, false))
    } else if code_taken(t, code) && t.clients[name].code != code {
        Err(StorageError::CodeTaken)
    } else {
        Ok(
            (
                Tables {
                    clients: t.clients.insert(
                        name,
                        ClientModel { code, revoked_at: None, ..t.clients[name] },
                    ),
                    ..t
                },
                true,
            ),
        )
    }
}

/// The moment that days are added to: the expiration, or now when it is past.
pub open spec fn extended_from(expires_at: i64, now: i64) -> int {
    if expires_at >= now {
        expires_at as int
    } else {
        now as int
    }
}

/// The tables with days added to a client, and whether there was one to extend.
pub open spec fn client_extended(t: Tables, name: Text, days: u32, now: i64) -> Result<
    (Tables, bool),
    StorageError,
> {
    if t.clients.dom().contains(name) && t.clients[name].revoked_at is None {
        let expires_at = extended_from(t.clients[name].expires_at, now) + days * DAY;
        if expires_at > i64::MAX {
            Err(StorageError::Exhausted)
        } else {
            Ok(
                (
                    Tables {
                        clients: t.clients.insert(
                            name,
                            ClientModel { expires_at: expires_at as i64, ..t.clients[name] },
                        ),
                        ..t
                    },
                    true,
                ),
            )
        }
    } else {
        Ok((t, false))
    }
}

/// The order in which clients are listed: those in force first, each group by
/// name.
pub open spec fn listed_before(a: ClientView, b: ClientView) -> bool {
    if a.revoked_at is None != (b.revoked_at is None) {
        a.revoked_at is None
    } else {
        text::before(a.name, b.name)
    }
}

/// Whether a list shows every client once, in order.
pub open spec fn clients_listed(t: Tables, list: Seq<ClientView>) -> bool {
    &&& forall|i: int, j: int| 0 <= i < j < list.len() ==> listed_before(list[i], list[j])
    &&& forall|i: int|
        0 <= i < list.len() ==> t.clients.dom().contains((#[trigger] list[i]).name) && list[i]
            == rows::shown(t.clients[list[i].name])
    &&& forall|name: Text| #[trigger]
        t.clients.dom().contains(name) ==> exists|i: int|
            0 <= i < list.len() && (#[trigger] list[i]).name == name
}

// ---------------------------------------------------------------------------
// OAuth clients
// ---------------------------------------------------------------------------
/// The tables with an OAuth client registered, or its registration renewed.
pub open spec fn oauth_registered(
    t: Tables,
    client_id: Text,
    secret: Text,
    redirect_uri: Text,
) -> Tables {
    Tables {
        oauth_clients: t.oauth_clients.insert(
            client_id,
            OAuthModel { client_id, secret_hash: crypto::hashed(secret), redirect_uri },
        ),
        ..t
    }
}

/// Whether a secret is that of a registered OAuth client.
pub open spec fn authentic(t: Tables, client_id: Text, secret: Text) -> bool {
    t.oauth_clients.dom().contains(client_id) && t.oauth_clients[client_id].secret_hash
        == crypto::hashed(secret)
}

// ---------------------------------------------------------------------------
// Scopes
// ---------------------------------------------------------------------------
/// Whether a scope list names a scope: whether it stands there as a word of its
/// own.
pub open spec fn scope_named(scopes: Text, scope: Text) -> bool {
    &&& scope.len() > 0
    &&& forall|i: int| 0 <= i < scope.len() ==> !text::is_ascii_space(#[trigger] scope[i])
    &&& exists|i: int| word_at(scopes, scope, i)
}

/// Whether a word stands at a position, with white space or an end around it.
pub open spec fn word_at(s: Text, word: Text, i: int) -> bool {
    &&& text::occurs_at(s, word, i)
    &&& i == 0 || text::is_ascii_space(s[i - 1])
    &&& i + word.len() == s.len() || text::is_ascii_space(s[i + word.len()])
}

// ---------------------------------------------------------------------------
// Grants and tokens
// ---------------------------------------------------------------------------
/// Whether a number is the highest of the grants.
pub open spec fn highest(grants: Map<i64, GrantModel>, id: i64) -> bool {
    grants.dom().contains(id) && forall|k: i64| #[trigger] grants.dom().contains(k) ==> k <= id
}

/// The number of the next grant: one more than the highest, from one on.
pub open spec fn next_id(grants: Map<i64, GrantModel>) -> int {
    if exists|id: i64| highest(grants, id) {
        (choose|id: i64| highest(grants, id)) + 1
    } else {
        1
    }
}

/// The tables with a grant and the authorization code for it.
pub open spec fn code_created(t: Tables, binding: BindingModel, code: Text, now: i64) -> Result<
    Tables,
    StorageError,
> {
    let id = next_id(t.grants);
    let h = crypto::hashed(code);
    if !t.oauth_clients.dom().contains(binding.client_id) {
        Err(StorageError::UnknownClient)
    } else if id > i64::MAX {
        Err(StorageError::Exhausted)
    } else if t.codes.dom().contains(h) {
        Err(StorageError::CodeHashTaken)
    } else {
        Ok(
            Tables {
                grants: t.grants.insert(
                    id as i64,
                    GrantModel {
                        id: id as i64,
                        subject: binding.subject,
                        client_id: binding.client_id,
                        scopes: binding.scopes,
                        created_at: now,
                        revoked_at: None,
                    },
                ),
                codes: t.codes.insert(
                    h,
                    CodeModel {
                        code_hash: h,
                        grant_id: id as i64,
                        subject: binding.subject,
                        client_id: binding.client_id,
                        redirect_uri: binding.redirect_uri,
                        resource: binding.resource,
                        scopes: binding.scopes,
                        code_challenge: binding.code_challenge,
                        expires_at: (now + CODE_TTL) as i64,
                        consumed_at: None,
                    },
                ),
                ..t
            },
        )
    }
}

/// Whether a code may be exchanged: it is unused, not expired, and presented
/// with everything it is bound to.
pub open spec fn exchangeable(
    t: Tables,
    code: Text,
    client_id: Text,
    redirect_uri: Text,
    resource: Text,
    now: i64,
) -> bool {
    let h = crypto::hashed(code);
    t.codes.dom().contains(h) && {
        let row = t.codes[h];
        &&& row.client_id == client_id
        &&& row.redirect_uri == redirect_uri
        &&& row.resource == resource
        &&& row.consumed_at is None
        &&& row.expires_at > now
    }
}

/// Whether a verifier has an acceptable length and belongs to a challenge.
pub open spec fn proves(verifier: Text, challenge: Text) -> bool {
    &&& 43 <= vstd::utf8::encode_utf8(verifier).len() <= 128
    &&& crypto::challenge_of(verifier) == challenge
}

/// A new token.
pub open spec fn token_row(
    token: Text,
    grant_id: i64,
    client_id: Text,
    scopes: Text,
    resource: Text,
    ttl: i64,
    now: i64,
) -> TokenModel {
    TokenModel {
        token_hash: crypto::hashed(token),
        grant_id,
        client_id,
        scopes,
        resource,
        expires_at: (now + ttl) as i64,
        created_at: now,
        ended_at: None,
    }
}

/// The tables with a new access token, and with a new refresh token where one
/// is given.
pub open spec fn issued(
    t: Tables,
    access: Text,
    refresh: Option<Text>,
    grant_id: i64,
    client_id: Text,
    scopes: Text,
    resource: Text,
    now: i64,
) -> Result<(Tables, IssueModel), OAuthError> {
    if t.access.dom().contains(crypto::hashed(access)) {
        Err(OAuthError::Storage)
    } else if refresh is Some && t.refresh.dom().contains(crypto::hashed(refresh->0)) {
        Err(OAuthError::Storage)
    } else {
        let new_access = t.access.insert(
            crypto::hashed(access),
            token_row(access, grant_id, client_id, scopes, resource, ACCESS_TTL, now),
        );
        let new_refresh = match refresh {
            Some(token) => t.refresh.insert(
                crypto::hashed(token),
                token_row(token, grant_id, client_id, scopes, resource, REFRESH_TTL, now),
            ),
            None => t.refresh,
        };
        Ok(
            (
                Tables { access: new_access, refresh: new_refresh, ..t },
                IssueModel {
                    access_token: access,
                    token_type: "Bearer"@,
                    expires_in: ACCESS_TTL,
                    scope: scopes,
                    refresh_token: refresh,
                },
            ),
        )
    }
}

/// The tables with an authorization code used up.
pub open spec fn code_consumed(t: Tables, code: Text, now: i64) -> Tables {
    let h = crypto::hashed(code);
    Tables {
        codes: t.codes.insert(h, CodeModel { consumed_at: Some(now), ..t.codes[h] }),
        ..t
    }
}

/// What the exchange of an authorization code does: the code is used up and
/// tokens are issued for its grant, a refresh token only with the scope
/// `offline_access`. A refused exchange changes nothing.
pub open spec fn exchanged(
    t: Tables,
    code: Text,
    client_id: Text,
    redirect_uri: Text,
    resource: Text,
    verifier: Text,
    now: i64,
    access: Text,
    refresh: Text,
) -> Result<(Tables, IssueModel), OAuthError> {
    if !exchangeable(t, code, client_id, redirect_uri, resource, now) {
        Err(OAuthError::InvalidGrant)
    } else {
        let row = t.codes[crypto::hashed(code)];
        if !proves(verifier, row.code_challenge) {
            Err(OAuthError::InvalidGrant)
        } else {
            issued(
                code_consumed(t, code, now),
                access,
                if scope_named(row.scopes, "offline_access"@) {
                    Some(refresh)
                } else {
                    None
                },
                row.grant_id,
                client_id,
                row.scopes,
                resource,
                now,
            )
        }
    }
}

/// The tables with a grant revoked, and whether there was one to revoke.
pub open spec fn grant_revoked(t: Tables, id: i64, now: i64) -> (Tables, bool) {
    if t.grants.dom().contains(id) && t.grants[id].revoked_at is None {
        (
            Tables {
                grants: t.grants.insert(id, GrantModel { revoked_at: Some(now), ..t.grants[id] }),
                ..t
            },
            true,
        )
    } else {
        (t, false)
    }
}

/// Whether a refresh token is known to an OAuth client and not expired.
pub open spec fn refresh_known(t: Tables, token: Text, client_id: Text, now: i64) -> bool {
    let h = crypto::hashed(token);
    t.refresh.dom().contains(h) && t.refresh[h].client_id == client_id && t.refresh[h].expires_at
        > now
}

/// The tables with a refresh token used up.
pub open spec fn refresh_consumed(t: Tables, token: Text, now: i64) -> Tables {
    let h = crypto::hashed(token);
    Tables {
        refresh: t.refresh.insert(h, TokenModel { ended_at: Some(now), ..t.refresh[h] }),
        ..t
    }
}

/// What the exchange of a refresh token does: the token is used up and a new
/// pair is issued. A token that was used before revokes its grant; any other
/// refused exchange changes nothing.
pub open spec fn refreshed(
    t: Tables,
    token: Text,
    client_id: Text,
    resource: Text,
    now: i64,
    access: Text,
    refresh: Text,
) -> (Tables, Result<IssueModel, OAuthError>) {
    let row = t.refresh[crypto::hashed(token)];
    if !refresh_known(t, token, client_id, now) {
        (t, Err(OAuthError::InvalidGrant))
    } else if row.ended_at is Some {
        (grant_revoked(t, row.grant_id, now).0, Err(OAuthError::InvalidGrant))
    } else if t.grants[row.grant_id].revoked_at is Some || row.resource != resource {
        (t, Err(OAuthError::InvalidGrant))
    } else {
        match issued(
            refresh_consumed(t, token, now),
            access,
            Some(refresh),
            row.grant_id,
            client_id,
            row.scopes,
            resource,
            now,
        ) {
            Ok((next, issue)) => (next, Ok(issue)),
            Err(error) => (t, Err(error)),
        }
    }
}

/// Whether an access token opens a resource: it is known for the resource, not
/// expired, neither it nor its grant is revoked, and it carries the scope.
pub open spec fn access_valid(
    t: Tables,
    token: Text,
    resource: Text,
    scope: Text,
    now: i64,
) -> bool {
    let h = crypto::hashed(token);
    t.access.dom().contains(h) && {
        let row = t.access[h];
        &&& row.resource == resource
        &&& row.expires_at > now
        &&& row.ended_at is None
        &&& t.grants[row.grant_id].revoked_at is None
        &&& scope_named(row.scopes, scope)
    }
}

/// The tables with an access token revoked for the OAuth client that has it.
pub open spec fn access_revoked(t: Tables, token: Text, client_id: Text, now: i64) -> Tables {
    let h = crypto::hashed(token);
    if t.access.dom().contains(h) && t.access[h].client_id == client_id {
        Tables {
            access: t.access.insert(h, TokenModel { ended_at: Some(now), ..t.access[h] }),
            ..t
        }
    } else {
        t
    }
}

/// The tables after an OAuth client gave a token back: an access token ends, a
/// refresh token ends its whole grant.
pub open spec fn token_revoked(t: Tables, token: Text, client_id: Text, now: i64) -> Tables {
    let h = crypto::hashed(token);
    let next = access_revoked(t, token, client_id, now);
    if t.refresh.dom().contains(h) && t.refresh[h].client_id == client_id {
        grant_revoked(next, t.refresh[h].grant_id, now).0
    } else {
        next
    }
}

/// Whether a list shows every grant once, the latest first.
pub open spec fn grants_listed(t: Tables, list: Seq<GrantModel>) -> bool {
    &&& forall|i: int, j: int| 0 <= i < j < list.len() ==> list[i].id > list[j].id
    &&& forall|i: int|
        0 <= i < list.len() ==> t.grants.dom().contains((#[trigger] list[i]).id) && list[i]
            == t.grants[list[i].id]
    &&& forall|id: i64| #[trigger]
        t.grants.dom().contains(id) ==> exists|i: int|
            0 <= i < list.len() && (#[trigger] list[i]).id == id
}

} // verus!
