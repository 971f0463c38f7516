//! Credentials and grants: the tables, what may be done with them and what each
//! request is answered.
use vstd::prelude::*;
use vstd::string::StrSliceExecFns;

use crate::bytes;
use crate::clock;
use crate::crypto;
use crate::db::rows::{ClientView, GrantModel, IssueModel, TokenModel};
pub use crate::db::rows::{
    AuthCodeBinding, ClientRecord, ClientRow, CodeRow, GrantRecord, OAuthClient, OAuthError,
    OAuthRow, StorageError, TokenIssue, TokenRow,
};
use crate::db::model::{Tables, ACCESS_TTL, CODE_TTL, DAY, REFRESH_TTL};
use crate::table;
use crate::table::Table;
use crate::text;
use crate::text::Text;

pub mod laws;
pub mod model;
pub mod rows;

verus! {

/// The tables.
#[derive(Debug)]
pub struct Database {
    clients: Table<ClientRow>,
    oauth_clients: Table<OAuthRow>,
    grants: Table<GrantRecord>,
    codes: Table<CodeRow>,
    access: Table<TokenRow>,
    refresh: Table<TokenRow>,
}

impl View for Database {
    type V = Tables;

    closed spec fn view(&self) -> Tables {
        Tables {
            clients: self.clients@,
            oauth_clients: self.oauth_clients@,
            grants: self.grants@,
            codes: self.codes@,
            access: self.access@,
            refresh: self.refresh@,
        }
    }
}

// ---------------------------------------------------------------------------
// Finding rows
// ---------------------------------------------------------------------------
fn find_client(table: &Table<ClientRow>, name: &str) -> (r: Option<usize>)
    requires
        table.wf(),
    ensures
        match r {
            Some(i) => i < table.rows@.len() && table.rows@[i as int].name@ == name@
                && table@.dom().contains(name@) && table@[name@] == table.rows@[i as int]@,
            None => !table@.dom().contains(name@),
        },
{
    for i in 0..table.rows.len()
        invariant
            table.wf(),
            forall|k: int| 0 <= k < i ==> (#[trigger] table.rows@[k]).name@ != name@,
    {
        if text::same(table.rows[i].name.as_str(), name) {
            proof {
                table.lemma_row(i as int);
            }
            return Some(i);
        }
    }
    None
}

fn find_oauth(table: &Table<OAuthRow>, client_id: &str) -> (r: Option<usize>)
    requires
        table.wf(),
    ensures
        match r {
            Some(i) => i < table.rows@.len() && table.rows@[i as int].client_id@ == client_id@
                && table@.dom().contains(client_id@) && table@[client_id@]
                == table.rows@[i as int]@,
            None => !table@.dom().contains(client_id@),
        },
{
    for i in 0..table.rows.len()
        invariant
            table.wf(),
            forall|k: int| 0 <= k < i ==> (#[trigger] table.rows@[k]).client_id@ != client_id@,
    {
        if text::same(table.rows[i].client_id.as_str(), client_id) {
            proof {
                table.lemma_row(i as int);
            }
            return Some(i);
        }
    }
    None
}

fn find_grant(table: &Table<GrantRecord>, id: i64) -> (r: Option<usize>)
    requires
        table.wf(),
    ensures
        match r {
            Some(i) => i < table.rows@.len() && table.rows@[i as int].id == id
                && table@.dom().contains(id) && table@[id] == table.rows@[i as int]@,
            None => !table@.dom().contains(id),
        },
{
    for i in 0..table.rows.len()
        invariant
            table.wf(),
            forall|k: int| 0 <= k < i ==> (#[trigger] table.rows@[k]).id != id,
    {
        if table.rows[i].id == id {
            proof {
                table.lemma_row(i as int);
            }
            return Some(i);
        }
    }
    None
}

fn find_code(table: &Table<CodeRow>, hash: &Vec<u8>) -> (r: Option<usize>)
    requires
        table.wf(),
    ensures
        match r {
            Some(i) => i < table.rows@.len() && table.rows@[i as int].code_hash@ == hash@
                && table@.dom().contains(hash@) && table@[hash@] == table.rows@[i as int]@,
            None => !table@.dom().contains(hash@),
        },
{
    for i in 0..table.rows.len()
        invariant
            table.wf(),
            forall|k: int| 0 <= k < i ==> (#[trigger] table.rows@[k]).code_hash@ != hash@,
    {
        if bytes::same_bytes(&table.rows[i].code_hash, hash) {
            proof {
                table.lemma_row(i as int);
            }
            return Some(i);
        }
    }
    None
}

fn find_token(table: &Table<TokenRow>, hash: &Vec<u8>) -> (r: Option<usize>)
    requires
        table.wf(),
    ensures
        match r {
            Some(i) => i < table.rows@.len() && table.rows@[i as int].token_hash@ == hash@
                && table@.dom().contains(hash@) && table@[hash@] == table.rows@[i as int]@,
            None => !table@.dom().contains(hash@),
        },
{
    for i in 0..table.rows.len()
        invariant
            table.wf(),
            forall|k: int| 0 <= k < i ==> (#[trigger] table.rows@[k]).token_hash@ != hash@,
    {
        if bytes::same_bytes(&table.rows[i].token_hash, hash) {
            proof {
                table.lemma_row(i as int);
            }
            return Some(i);
        }
    }
    None
}

/// The row of the client with a connection code.
fn find_holder(table: &Table<ClientRow>, code: &str) -> (r: Option<usize>)
    requires
        table.wf(),
    ensures
        match r {
            Some(i) => i < table.rows@.len() && table.rows@[i as int].code@ == code@
                && table@.dom().contains(table.rows@[i as int].name@)
                && table@[table.rows@[i as int].name@] == table.rows@[i as int]@,
            None => forall|name: Text| #[trigger]
                table@.dom().contains(name) ==> table@[name].code != code@,
        },
{
    for i in 0..table.rows.len()
        invariant
            table.wf(),
            forall|k: int| 0 <= k < i ==> (#[trigger] table.rows@[k]).code@ != code@,
    {
        if text::same(table.rows[i].code.as_str(), code) {
            proof {
                table.lemma_row(i as int);
            }
            return Some(i);
        }
    }
    assert forall|name: Text| #[trigger] table@.dom().contains(name) implies table@[name].code
        != code@ by {
        let i = choose|i: int| table::has_key(table.rows@, name, i);
        table.lemma_row(i);
    }
    None
}

impl Database {
    /// The tables hold each key once and what they hold is consistent.
    pub closed spec fn wf(self) -> bool {
        &&& self.clients.wf()
        &&& self.oauth_clients.wf()
        &&& self.grants.wf()
        &&& self.codes.wf()
        &&& self.access.wf()
        &&& self.refresh.wf()
        &&& model::consistent(self@)
    }

    /// What holds of a well-formed database holds of its tables.
    pub proof fn lemma_consistent(self)
        requires
            self.wf(),
        ensures
            model::consistent(self@),
    {
    }

    /// Empty tables.
    pub fn new() -> (r: Database)
        ensures
            r.wf(),
            r@ == model::empty_tables(),
    {
        Database {
            clients: Table::new(),
            oauth_clients: Table::new(),
            grants: Table::new(),
            codes: Table::new(),
            access: Table::new(),
            refresh: Table::new(),
        }
    }

    // -----------------------------------------------------------------------
    // Clients
    // -----------------------------------------------------------------------
    /// Adds a client at a given time.
    pub fn create_client_at(
        &mut self,
        name: &str,
        code: &str,
        expires_at: i64,
        now: i64,
    ) -> (r: Result<(), StorageError>)
        requires
            old(self).wf(),
        ensures
            final(self).wf(),
            match r {
                Ok(()) => model::client_created(old(self)@, name@, code@, expires_at, now) == Ok::<
                    Tables,
                    StorageError,
                >(final(self)@),
                Err(e) => model::client_created(old(self)@, name@, code@, expires_at, now)
                    == Err::<Tables, StorageError>(e) && final(self)@ == old(self)@,
            },
    {
        if find_client(&self.clients, name).is_some() {
            return Err(StorageError::NameTaken);
        }
        if let Some(i) = find_holder(&self.clients, code) {
            assert(model::has_code(self@.clients, self.clients.rows@[i as int].name@, code@));
            return Err(StorageError::CodeTaken);
        }
        assert(!model::code_taken(self@, code@));
        let row = ClientRow {
            name: name.to_string(),
            code: code.to_string(),
            expires_at,
            created_at: now,
            revoked_at: None,
        };
        self.clients.insert(row);
        Ok(())
    }

    /// Adds a client.
    pub fn create_client(&mut self, name: &str, code: &str, expires_at: i64) -> (r: Result<
        (),
        StorageError,
    >)
        requires
            old(self).wf(),
        ensures
            final(self).wf(),
            exists|now: i64|
                clock::readable(now) && match r {
                    Ok(()) => #[trigger] model::client_created(
                        old(self)@,
                        name@,
                        code@,
                        expires_at,
                        now,
                    ) == Ok::<Tables, StorageError>(final(self)@),
                    Err(e) => model::client_created(old(self)@, name@, code@, expires_at, now)
                        == Err::<Tables, StorageError>(e) && final(self)@ == old(self)@,
                },
    {
        let now = clock::now();
        self.create_client_at(name, code, expires_at, now)
    }

    /// The client that a connection code opens a link for at a given time.
    pub fn client_for_code_at(&self, code: &str, now: i64) -> (r: Option<ClientRecord>)
        requires
            self.wf(),
        ensures
            match r {
                Some(record) => model::client_for(self@, code@, now) == Some(record@),
                None => model::client_for(self@, code@, now) == None::<ClientView>,
            },
    {
        match find_holder(&self.clients, code) {
            None => None,
            Some(i) => {
                let row = &self.clients.rows[i];
                assert(model::has_code(self@.clients, row.name@, code@));
                if row.revoked_at.is_none() && row.expires_at > now {
                    assert(model::opens(self@.clients, row.name@, code@, now));
                    Some(rows::show(row))
                } else {
                    assert forall|name: Text| !#[trigger] model::opens(
                        self@.clients,
                        name,
                        code@,
                        now,
                    ) by {
                        if model::has_code(self@.clients, name, code@) {
                            assert(self@.clients.dom().contains(name));
                            assert(self@.clients.dom().contains(row.name@));
                        }
                    }
                    None
                }
            },
        }
    }

    /// The client that a connection code opens a link for.
    pub fn client_for_code(&self, code: &str) -> (r: Option<ClientRecord>)
        requires
            self.wf(),
        ensures
            exists|now: i64|
                clock::readable(now) && match r {
                    Some(record) => #[trigger] model::client_for(self@, code@, now) == Some(
                        record@,
                    ),
                    None => model::client_for(self@, code@, now) == None::<ClientView>,
                },
    {
        let now = clock::now();
        self.client_for_code_at(code, now)
    }

    /// Revokes a client at a given time.
    pub fn revoke_client_at(&mut self, name: &str, now: i64) -> (r: bool)
        requires
            old(self).wf(),
        ensures
            final(self).wf(),
            (final(self)@, r) == model::client_revoked(old(self)@, name@, now),
    {
        match find_client(&self.clients, name) {
            None => false,
            Some(i) => {
                let row = &self.clients.rows[i];
                if row.revoked_at.is_some() {
                    return false;
                }
                let next = ClientRow {
                    name: row.name.clone(),
                    code: row.code.clone(),
                    expires_at: row.expires_at,
                    created_at: row.created_at,
                    revoked_at: Some(now),
                };
                self.clients.replace(i, next);
                true
            },
        }
    }

    /// Revokes a client.
    pub fn revoke_client(&mut self, name: &str) -> (r: bool)
        requires
            old(self).wf(),
        ensures
            final(self).wf(),
            exists|now: i64|
                clock::readable(now) && (final(self)@, r) == #[trigger] model::client_revoked(
                    old(self)@,
                    name@,
                    now,
                ),
    {
        let now = clock::now();
        self.revoke_client_at(name, now)
    }

    /// Tells whether there is a client of the name that is not revoked.
    pub fn in_force(&self, name: &str) -> (r: bool)
        requires
            self.wf(),
        ensures
            r == model::in_force(self@, name@),
    {
        match find_client(&self.clients, name) {
            None => false,
            Some(i) => self.clients.rows[i].revoked_at.is_none(),
        }
    }

    /// Replaces a client's connection code; a revoked client comes back.
    pub fn rotate_client_code(&mut self, name: &str, code: &str) -> (r: Result<bool, StorageError>)
        requires
            old(self).wf(),
        ensures
            final(self).wf(),
            match r {
                Ok(done) => model::code_rotated(old(self)@, name@, code@) == Ok::<
                    (Tables, bool),
                    StorageError,
                >((final(self)@, done)),
                Err(e) => model::code_rotated(old(self)@, name@, code@) == Err::<
                    (Tables, bool),
                    StorageError,
                >(e) && final(self)@ == old(self)@,
            },
    {
        let i = match find_client(&self.clients, name) {
            None => {
                return Ok(false);
            },
            Some(i) => i,
        };
        let holder = find_holder(&self.clients, code);
        assert(holder is None ==> !model::code_taken(self@, code@));
        if let Some(j) = holder {
            assert(model::has_code(self@.clients, self.clients.rows@[j as int].name@, code@));
            if !text::same(self.clients.rows[i].code.as_str(), code) {
                return Err(StorageError::CodeTaken);
            }
        }
        let row = &self.clients.rows[i];
        let next = ClientRow {
            name: row.name.clone(),
            code: code.to_string(),
            expires_at: row.expires_at,
            created_at: row.created_at,
            revoked_at: None,
        };
        let ghost before = self@;
        self.clients.replace(i, next);
        proof {
            laws::rotation_keeps_consistent(before, name@, code@);
        }
        Ok(true)
    }

    /// Adds days to a client at a given time.
    pub fn extend_client_at(&mut self, name: &str, days: u32, now: i64) -> (r: Result<
        bool,
        StorageError,
    >)
        requires
            old(self).wf(),
        ensures
            final(self).wf(),
            match r {
                Ok(done) => model::client_extended(old(self)@, name@, days, now) == Ok::<
                    (Tables, bool),
                    StorageError,
                >((final(self)@, done)),
                Err(e) => model::client_extended(old(self)@, name@, days, now) == Err::<
                    (Tables, bool),
                    StorageError,
                >(e) && final(self)@ == old(self)@,
            },
    {
        let i = match find_client(&self.clients, name) {
            None => {
                return Ok(false);
            },
            Some(i) => i,
        };
        let row = &self.clients.rows[i];
        if row.revoked_at.is_some() {
            return Ok(false);
        }
        let from = if row.expires_at >= now {
            row.expires_at
        } else {
            now
        };
        let added: i64 = days as i64 * DAY;
        match from.checked_add(added) {
            None => Err(StorageError::Exhausted),
            Some(expires_at) => {
                let next = ClientRow {
                    name: row.name.clone(),
                    code: row.code.clone(),
                    expires_at,
                    created_at: row.created_at,
                    revoked_at: None,
                };
                self.clients.replace(i, next);
                Ok(true)
            },
        }
    }

    /// Adds days to a client.
    pub fn extend_client(&mut self, name: &str, days: u32) -> (r: Result<bool, StorageError>)
        requires
            old(self).wf(),
        ensures
            final(self).wf(),
            exists|now: i64|
                clock::readable(now) && match r {
                    Ok(done) => #[trigger] model::client_extended(old(self)@, name@, days, now)
                        == Ok::<(Tables, bool), StorageError>((final(self)@, done)),
                    Err(e) => model::client_extended(old(self)@, name@, days, now) == Err::<
                        (Tables, bool),
                        StorageError,
                    >(e) && final(self)@ == old(self)@,
                },
    {
        let now = clock::now();
        self.extend_client_at(name, days, now)
    }
}

fn ascii_space(c: char) -> (r: bool)
    ensures
        r == text::is_ascii_space(c),
{
    c == ' ' || c == '\t' || c == '\n' || c == '\u{c}' || c == '\r'
}

/// Tells whether a scope list names a scope.
pub fn scope_has(scopes: &str, required: &str) -> (r: bool)
    ensures
        r == model::scope_named(scopes@, required@),
{
    let s = text::chars_of(scopes);
    let word = text::chars_of(required);
    if word.len() == 0 {
        return false;
    }
    for k in 0..word.len()
        invariant
            word@ == required@,
            forall|j: int| 0 <= j < k ==> !text::is_ascii_space(#[trigger] word@[j]),
    {
        if ascii_space(word[k]) {
            assert(text::is_ascii_space(required@[k as int]));
            return false;
        }
    }
    for i in 0..s.len()
        invariant
            s@ == scopes@,
            word@ == required@,
            word@.len() > 0,
            forall|j: int| 0 <= j < word@.len() ==> !text::is_ascii_space(#[trigger] word@[j]),
            forall|j: int| 0 <= j < i ==> !model::word_at(s@, word@, j),
    {
        let count: usize = s.len();
        if text::stands_at(&s, &word, i) {
            let end: usize = i + word.len();
            if (i == 0 || ascii_space(s[i - 1])) && (end == count || ascii_space(s[end])) {
                assert(model::word_at(scopes@, required@, i as int));
                return true;
            }
        }
    }
    assert forall|j: int| !model::word_at(s@, word@, j) by {}
    false
}

fn new_token(
    token: &str,
    grant_id: i64,
    client_id: &str,
    scopes: &str,
    resource: &str,
    ttl: i64,
    now: i64,
) -> (r: TokenRow)
    requires
        clock::readable(now),
        0 <= ttl <= REFRESH_TTL,
    ensures
        r@ == model::token_row(token@, grant_id, client_id@, scopes@, resource@, ttl, now),
{
    TokenRow {
        token_hash: crypto::hash(token),
        grant_id,
        client_id: client_id.to_string(),
        scopes: scopes.to_string(),
        resource: resource.to_string(),
        expires_at: now + ttl,
        created_at: now,
        ended_at: None,
    }
}

fn ended(row: &TokenRow, now: i64) -> (r: TokenRow)
    ensures
        r@ == (TokenModel { ended_at: Some(now), ..row@ }),
{
    TokenRow {
        token_hash: bytes::copy_bytes(&row.token_hash),
        grant_id: row.grant_id,
        client_id: row.client_id.clone(),
        scopes: row.scopes.clone(),
        resource: row.resource.clone(),
        expires_at: row.expires_at,
        created_at: row.created_at,
        ended_at: Some(now),
    }
}

/// Tells whether a verifier has an acceptable length and belongs to a
/// challenge.
pub fn verifier_proves(verifier: &str, challenge: &str) -> (r: bool)
    ensures
        r == model::proves(verifier@, challenge@),
{
    let length: usize = verifier.as_bytes_vec().len();
    if length < 43 || length > 128 {
        return false;
    }
    let own = crypto::pkce_s256(verifier);
    proof {
        vstd::utf8::encode_utf8_decode_utf8(own@);
        vstd::utf8::encode_utf8_decode_utf8(challenge@);
    }
    crypto::constant_time_eq(&own.as_str().as_bytes_vec(), &challenge.as_bytes_vec())
}

impl Database {
    // -----------------------------------------------------------------------
    // OAuth clients
    // -----------------------------------------------------------------------
    /// Registers an OAuth client, or renews its registration.
    pub fn register_oauth_client(&mut self, client_id: &str, secret: &str, redirect_uri: &str)
        requires
            old(self).wf(),
        ensures
            final(self).wf(),
            final(self)@ == model::oauth_registered(
                old(self)@,
                client_id@,
                secret@,
                redirect_uri@,
            ),
    {
        let row = OAuthRow {
            client_id: client_id.to_string(),
            secret_hash: crypto::hash(secret),
            redirect_uri: redirect_uri.to_string(),
        };
        match find_oauth(&self.oauth_clients, client_id) {
            Some(i) => self.oauth_clients.replace(i, row),
            None => self.oauth_clients.insert(row),
        }
    }

    /// What is told of a registered OAuth client.
    pub fn oauth_client(&self, client_id: &str) -> (r: Option<OAuthClient>)
        requires
            self.wf(),
        ensures
            r is Some == self@.oauth_clients.dom().contains(client_id@),
            r matches Some(client) ==> client.client_id@ == client_id@ && client.redirect_uri@
                == self@.oauth_clients[client_id@].redirect_uri,
    {
        match find_oauth(&self.oauth_clients, client_id) {
            Some(i) => Some(
                OAuthClient {
                    client_id: client_id.to_string(),
                    redirect_uri: self.oauth_clients.rows[i].redirect_uri.clone(),
                },
            ),
            None => None,
        }
    }

    /// The OAuth client that a secret authenticates.
    pub fn authenticate_oauth_client(&self, client_id: &str, secret: &str) -> (r: Option<
        OAuthClient,
    >)
        requires
            self.wf(),
        ensures
            r is Some == model::authentic(self@, client_id@, secret@),
            r matches Some(client) ==> client.client_id@ == client_id@ && client.redirect_uri@
                == self@.oauth_clients[client_id@].redirect_uri,
    {
        match find_oauth(&self.oauth_clients, client_id) {
            None => None,
            Some(i) => {
                let row = &self.oauth_clients.rows[i];
                if crypto::verify_hash(secret, &row.secret_hash) {
                    Some(
                        OAuthClient {
                            client_id: client_id.to_string(),
                            redirect_uri: row.redirect_uri.clone(),
                        },
                    )
                } else {
                    None
                }
            },
        }
    }

    // -----------------------------------------------------------------------
    // Authorization codes
    // -----------------------------------------------------------------------
    /// The number of the next grant, where there is one.
    fn next_grant(&self) -> (r: Option<i64>)
        requires
            self.wf(),
        ensures
            match r {
                Some(id) => model::next_id(self@.grants) == id && !self@.grants.dom().contains(id),
                None => model::next_id(self@.grants) > i64::MAX,
            },
    {
        let table = &self.grants;
        if table.rows.len() == 0 {
            assert forall|id: i64| !#[trigger] model::highest(self@.grants, id) by {
                if table@.dom().contains(id) {
                    let i = choose|i: int| table::has_key(table.rows@, id, i);
                    assert(false);
                }
            }
            assert(!self@.grants.dom().contains(1));
            return Some(1);
        }
        let mut best: i64 = table.rows[0].id;
        let ghost mut at: int = 0;
        for i in 1..table.rows.len()
            invariant
                0 <= at < i,
                at < table.rows@.len(),
                best == table.rows@[at].id,
                forall|k: int| 0 <= k < i ==> (#[trigger] table.rows@[k]).id <= best,
        {
            if table.rows[i].id > best {
                best = table.rows[i].id;
                proof {
                    at = i as int;
                }
            }
        }
        proof {
            table.lemma_row(at);
            assert forall|k: i64| #[trigger] table@.dom().contains(k) implies k <= best by {
                let i = choose|i: int| table::has_key(table.rows@, k, i);
                assert(table.rows@[i].id <= best);
            }
            assert(model::highest(self@.grants, best));
        }
        if best == i64::MAX {
            None
        } else {
            Some(best + 1)
        }
    }

    /// Records a consent and the code for it, at a given time.
    pub fn create_authorization_code_with(
        &mut self,
        binding: &AuthCodeBinding,
        code: &str,
        now: i64,
    ) -> (r: Result<(), StorageError>)
        requires
            old(self).wf(),
            clock::readable(now),
        ensures
            final(self).wf(),
            match r {
                Ok(()) => model::code_created(old(self)@, binding@, code@, now) == Ok::<
                    Tables,
                    StorageError,
                >(final(self)@),
                Err(e) => model::code_created(old(self)@, binding@, code@, now) == Err::<
                    Tables,
                    StorageError,
                >(e) && final(self)@ == old(self)@,
            },
    {
        if find_oauth(&self.oauth_clients, binding.client_id.as_str()).is_none() {
            return Err(StorageError::UnknownClient);
        }
        let id = match self.next_grant() {
            None => {
                return Err(StorageError::Exhausted);
            },
            Some(id) => id,
        };
        let hash = crypto::hash(code);
        if find_code(&self.codes, &hash).is_some() {
            return Err(StorageError::CodeHashTaken);
        }
        let grant = GrantRecord {
            id,
            subject: binding.subject.clone(),
            client_id: binding.client_id.clone(),
            scopes: binding.scopes.clone(),
            created_at: now,
            revoked_at: None,
        };
        let row = CodeRow {
            code_hash: hash,
            grant_id: id,
            subject: binding.subject.clone(),
            client_id: binding.client_id.clone(),
            redirect_uri: binding.redirect_uri.clone(),
            resource: binding.resource.clone(),
            scopes: binding.scopes.clone(),
            code_challenge: binding.code_challenge.clone(),
            expires_at: now + CODE_TTL,
            consumed_at: None,
        };
        let ghost before = self@;
        self.grants.insert(grant);
        self.codes.insert(row);
        proof {
            laws::creation_keeps_consistent(before, binding@, code@, now);
        }
        Ok(())
    }

    /// Records a consent and hands out a random code for it.
    pub fn create_authorization_code(&mut self, binding: &AuthCodeBinding) -> (r: Result<
        String,
        StorageError,
    >)
        requires
            old(self).wf(),
        ensures
            final(self).wf(),
            match r {
                Ok(code) => crypto::token_shaped(code@) && exists|now: i64|
                    clock::readable(now) && #[trigger] model::code_created(
                        old(self)@,
                        binding@,
                        code@,
                        now,
                    ) == Ok::<Tables, StorageError>(final(self)@),
                Err(e) => final(self)@ == old(self)@ && exists|code: Text, now: i64|
                    crypto::token_shaped(code) && clock::readable(now)
                        && #[trigger] model::code_created(old(self)@, binding@, code, now)
                        == Err::<Tables, StorageError>(e),
            },
    {
        let code = crypto::random_token();
        let now = clock::now();
        match self.create_authorization_code_with(binding, code.as_str(), now) {
            Ok(()) => Ok(code),
            Err(e) => Err(e),
        }
    }

    /// Exchanges an authorization code at a given time, with the tokens that
    /// will be handed out.
    pub fn exchange_authorization_code_with(
        &mut self,
        code: &str,
        client_id: &str,
        redirect_uri: &str,
        resource: &str,
        verifier: &str,
        now: i64,
        access: String,
        refresh: String,
    ) -> (r: Result<TokenIssue, OAuthError>)
        requires
            old(self).wf(),
            clock::readable(now),
        ensures
            final(self).wf(),
            match r {
                Ok(issue) => model::exchanged(
                    old(self)@,
                    code@,
                    client_id@,
                    redirect_uri@,
                    resource@,
                    verifier@,
                    now,
                    access@,
                    refresh@,
                ) == Ok::<(Tables, IssueModel), OAuthError>((final(self)@, issue@)),
                Err(e) => model::exchanged(
                    old(self)@,
                    code@,
                    client_id@,
                    redirect_uri@,
                    resource@,
                    verifier@,
                    now,
                    access@,
                    refresh@,
                ) == Err::<(Tables, IssueModel), OAuthError>(e) && final(self)@ == old(self)@,
            },
    {
        let hash = crypto::hash(code);
        let i = match find_code(&self.codes, &hash) {
            None => {
                return Err(OAuthError::InvalidGrant);
            },
            Some(i) => i,
        };
        let row = &self.codes.rows[i];
        if !text::same(row.client_id.as_str(), client_id) || !text::same(
            row.redirect_uri.as_str(),
            redirect_uri,
        ) || !text::same(row.resource.as_str(), resource) || row.consumed_at.is_some()
            || row.expires_at <= now {
            return Err(OAuthError::InvalidGrant);
        }
        if !verifier_proves(verifier, row.code_challenge.as_str()) {
            return Err(OAuthError::InvalidGrant);
        }
        let grant_id = row.grant_id;
        let scopes = row.scopes.clone();
        let offline = scope_has(scopes.as_str(), "offline_access");
        if find_token(&self.access, &crypto::hash(access.as_str())).is_some() {
            return Err(OAuthError::Storage);
        }
        if offline && find_token(&self.refresh, &crypto::hash(refresh.as_str())).is_some() {
            return Err(OAuthError::Storage);
        }
        let used = CodeRow {
            code_hash: hash,
            grant_id,
            subject: row.subject.clone(),
            client_id: row.client_id.clone(),
            redirect_uri: row.redirect_uri.clone(),
            resource: row.resource.clone(),
            scopes: row.scopes.clone(),
            code_challenge: row.code_challenge.clone(),
            expires_at: row.expires_at,
            consumed_at: Some(now),
        };
        let ghost before = self@;
        self.codes.replace(i, used);
        let token = new_token(
            access.as_str(),
            grant_id,
            client_id,
            scopes.as_str(),
            resource,
            ACCESS_TTL,
            now,
        );
        self.access.insert(token);
        proof {
            laws::exchange_keeps_consistent(
                before,
                code@,
                client_id@,
                redirect_uri@,
                resource@,
                verifier@,
                now,
                access@,
                refresh@,
            );
        }
        let refresh_token = if offline {
            let token = new_token(
                refresh.as_str(),
                grant_id,
                client_id,
                scopes.as_str(),
                resource,
                REFRESH_TTL,
                now,
            );
            self.refresh.insert(token);
            Some(refresh)
        } else {
            None
        };
        Ok(
            TokenIssue {
                access_token: access,
                token_type: "Bearer",
                expires_in: ACCESS_TTL,
                scope: scopes,
                refresh_token,
            },
        )
    }

    /// Exchanges an authorization code for random tokens.
    pub fn exchange_authorization_code(
        &mut self,
        code: &str,
        client_id: &str,
        redirect_uri: &str,
        resource: &str,
        verifier: &str,
    ) -> (r: Result<TokenIssue, OAuthError>)
        requires
            old(self).wf(),
        ensures
            final(self).wf(),
            exists|now: i64, access: Text, refresh: Text|
                clock::readable(now) && crypto::token_shaped(access) && crypto::token_shaped(
                    refresh,
                ) && match r {
                    Ok(issue) => #[trigger] model::exchanged(
                        old(self)@,
                        code@,
                        client_id@,
                        redirect_uri@,
                        resource@,
                        verifier@,
                        now,
                        access,
                        refresh,
                    ) == Ok::<(Tables, IssueModel), OAuthError>((final(self)@, issue@)),
                    Err(e) => model::exchanged(
                        old(self)@,
                        code@,
                        client_id@,
                        redirect_uri@,
                        resource@,
                        verifier@,
                        now,
                        access,
                        refresh,
                    ) == Err::<(Tables, IssueModel), OAuthError>(e) && final(self)@ == old(
                        self,
                    )@,
                },
    {
        let access = crypto::random_token();
        let refresh = crypto::random_token();
        let now = clock::now();
        self.exchange_authorization_code_with(
            code,
            client_id,
            redirect_uri,
            resource,
            verifier,
            now,
            access,
            refresh,
        )
    }
}

impl Database {
    // -----------------------------------------------------------------------
    // Tokens
    // -----------------------------------------------------------------------
    /// Revokes a grant at a given time.
    pub fn revoke_grant_at(&mut self, id: i64, now: i64) -> (r: bool)
        requires
            old(self).wf(),
        ensures
            final(self).wf(),
            (final(self)@, r) == model::grant_revoked(old(self)@, id, now),
    {
        match find_grant(&self.grants, id) {
            None => false,
            Some(i) => {
                let row = &self.grants.rows[i];
                if row.revoked_at.is_some() {
                    return false;
                }
                let mut next = rows::copy_grant(row);
                next.revoked_at = Some(now);
                self.grants.replace(i, next);
                true
            },
        }
    }

    /// Revokes a grant.
    pub fn revoke_grant(&mut self, id: i64) -> (r: bool)
        requires
            old(self).wf(),
        ensures
            final(self).wf(),
            exists|now: i64|
                clock::readable(now) && (final(self)@, r) == #[trigger] model::grant_revoked(
                    old(self)@,
                    id,
                    now,
                ),
    {
        let now = clock::now();
        self.revoke_grant_at(id, now)
    }

    /// Exchanges a refresh token at a given time, with the tokens that will be
    /// handed out.
    pub fn rotate_refresh_token_with(
        &mut self,
        refresh_token: &str,
        client_id: &str,
        resource: &str,
        now: i64,
        access: String,
        refresh: String,
    ) -> (r: Result<TokenIssue, OAuthError>)
        requires
            old(self).wf(),
            clock::readable(now),
        ensures
            final(self).wf(),
            ({
                let (next, answer) = model::refreshed(
                    old(self)@,
                    refresh_token@,
                    client_id@,
                    resource@,
                    now,
                    access@,
                    refresh@,
                );
                final(self)@ == next && match r {
                    Ok(issue) => answer == Ok::<IssueModel, OAuthError>(issue@),
                    Err(e) => answer == Err::<IssueModel, OAuthError>(e),
                }
            }),
    {
        let hash = crypto::hash(refresh_token);
        let i = match find_token(&self.refresh, &hash) {
            None => {
                return Err(OAuthError::InvalidGrant);
            },
            Some(i) => i,
        };
        let row = &self.refresh.rows[i];
        if !text::same(row.client_id.as_str(), client_id) || row.expires_at <= now {
            return Err(OAuthError::InvalidGrant);
        }
        let grant_id = row.grant_id;
        let scopes = row.scopes.clone();
        if row.ended_at.is_some() {
            self.revoke_grant_at(grant_id, now);
            return Err(OAuthError::InvalidGrant);
        }
        let revoked = match find_grant(&self.grants, grant_id) {
            Some(g) => self.grants.rows[g].revoked_at.is_some(),
            None => false,
        };
        if revoked || !text::same(row.resource.as_str(), resource) {
            return Err(OAuthError::InvalidGrant);
        }
        if find_token(&self.access, &crypto::hash(access.as_str())).is_some() {
            return Err(OAuthError::Storage);
        }
        if find_token(&self.refresh, &crypto::hash(refresh.as_str())).is_some() {
            return Err(OAuthError::Storage);
        }
        let used = ended(row, now);
        let ghost before = self@;
        self.refresh.replace(i, used);
        let token = new_token(
            access.as_str(),
            grant_id,
            client_id,
            scopes.as_str(),
            resource,
            ACCESS_TTL,
            now,
        );
        self.access.insert(token);
        let token = new_token(
            refresh.as_str(),
            grant_id,
            client_id,
            scopes.as_str(),
            resource,
            REFRESH_TTL,
            now,
        );
        self.refresh.insert(token);
        proof {
            laws::refresh_keeps_consistent(
                before,
                refresh_token@,
                client_id@,
                resource@,
                now,
                access@,
                refresh@,
            );
        }
        Ok(
            TokenIssue {
                access_token: access,
                token_type: "Bearer",
                expires_in: ACCESS_TTL,
                scope: scopes,
                refresh_token: Some(refresh),
            },
        )
    }

    /// Exchanges a refresh token for random tokens.
    pub fn rotate_refresh_token(
        &mut self,
        refresh_token: &str,
        client_id: &str,
        resource: &str,
    ) -> (r: Result<TokenIssue, OAuthError>)
        requires
            old(self).wf(),
        ensures
            final(self).wf(),
            exists|now: i64, access: Text, refresh: Text|
                clock::readable(now) && crypto::token_shaped(access) && crypto::token_shaped(
                    refresh,
                ) && ({
                    let (next, answer) = #[trigger] model::refreshed(
                        old(self)@,
                        refresh_token@,
                        client_id@,
                        resource@,
                        now,
                        access,
                        refresh,
                    );
                    final(self)@ == next && match r {
                        Ok(issue) => answer == Ok::<IssueModel, OAuthError>(issue@),
                        Err(e) => answer == Err::<IssueModel, OAuthError>(e),
                    }
                }),
    {
        let access = crypto::random_token();
        let refresh = crypto::random_token();
        let now = clock::now();
        self.rotate_refresh_token_with(refresh_token, client_id, resource, now, access, refresh)
    }

    /// Tells whether an access token opens a resource at a given time.
    pub fn validate_access_token_at(
        &self,
        token: &str,
        resource: &str,
        required_scope: &str,
        now: i64,
    ) -> (r: bool)
        requires
            self.wf(),
        ensures
            r == model::access_valid(self@, token@, resource@, required_scope@, now),
    {
        let hash = crypto::hash(token);
        match find_token(&self.access, &hash) {
            None => false,
            Some(i) => {
                let row = &self.access.rows[i];
                if !text::same(row.resource.as_str(), resource) || row.expires_at <= now
                    || row.ended_at.is_some() {
                    return false;
                }
                assert(self@.grants.dom().contains(row.grant_id)) by {
                    assert(self@.access.dom().contains(hash@));
                }
                match find_grant(&self.grants, row.grant_id) {
                    None => false,
                    Some(g) => self.grants.rows[g].revoked_at.is_none() && scope_has(
                        row.scopes.as_str(),
                        required_scope,
                    ),
                }
            },
        }
    }

    /// Tells whether an access token opens a resource.
    pub fn validate_access_token(&self, token: &str, resource: &str, required_scope: &str) -> (r:
        bool)
        requires
            self.wf(),
        ensures
            exists|now: i64|
                clock::readable(now) && r == #[trigger] model::access_valid(
                    self@,
                    token@,
                    resource@,
                    required_scope@,
                    now,
                ),
    {
        let now = clock::now();
        self.validate_access_token_at(token, resource, required_scope, now)
    }

    /// Takes a token back from an OAuth client at a given time.
    pub fn revoke_token_at(&mut self, token: &str, client_id: &str, now: i64)
        requires
            old(self).wf(),
        ensures
            final(self).wf(),
            final(self)@ == model::token_revoked(old(self)@, token@, client_id@, now),
    {
        let hash = crypto::hash(token);
        let ghost before = self@;
        if let Some(i) = find_token(&self.access, &hash) {
            let row = &self.access.rows[i];
            if text::same(row.client_id.as_str(), client_id) {
                let next = ended(row, now);
                self.access.replace(i, next);
            }
        }
        assert(self@ == model::access_revoked(before, token@, client_id@, now));
        if let Some(i) = find_token(&self.refresh, &hash) {
            let row = &self.refresh.rows[i];
            if text::same(row.client_id.as_str(), client_id) {
                let grant_id = row.grant_id;
                self.revoke_grant_at(grant_id, now);
            }
        }
    }

    /// Takes a token back from an OAuth client.
    pub fn revoke_token(&mut self, token: &str, client_id: &str)
        requires
            old(self).wf(),
        ensures
            final(self).wf(),
            exists|now: i64|
                clock::readable(now) && final(self)@ == #[trigger] model::token_revoked(
                    old(self)@,
                    token@,
                    client_id@,
                    now,
                ),
    {
        let now = clock::now();
        self.revoke_token_at(token, client_id, now)
    }
}

// ---------------------------------------------------------------------------
// Lists
// ---------------------------------------------------------------------------
pub open spec fn client_views(v: Seq<ClientRecord>) -> Seq<ClientView> {
    v.map_values(|r: ClientRecord| r@)
}

pub open spec fn grant_models(v: Seq<GrantRecord>) -> Seq<GrantModel> {
    v.map_values(|r: GrantRecord| r@)
}

fn goes_before(a: &ClientRecord, b: &ClientRecord) -> (r: bool)
    ensures
        r == model::listed_before(a@, b@),
{
    if a.revoked_at.is_none() != b.revoked_at.is_none() {
        a.revoked_at.is_none()
    } else {
        text::less(a.name.as_str(), b.name.as_str())
    }
}

proof fn lemma_listed_order(a: ClientView, b: ClientView, c: ClientView)
    ensures
        model::listed_before(a, b) && model::listed_before(b, c) ==> model::listed_before(a, c),
        model::listed_before(a, b) || model::listed_before(b, a) || a.name == b.name,
{
    text::lemma_before_order(a.name, b.name, c.name);
    text::lemma_before_total(a.name, b.name);
}

/// Puts a record into an ordered list.
fn put_client(list: &mut Vec<ClientRecord>, record: ClientRecord) -> (p: usize)
    requires
        forall|i: int, j: int|
            0 <= i < j < old(list)@.len() ==> model::listed_before(
                #[trigger] old(list)@[i]@,
                #[trigger] old(list)@[j]@,
            ),
        forall|i: int| 0 <= i < old(list)@.len() ==> (#[trigger] old(list)@[i])@.name
            != record@.name,
    ensures
        forall|i: int, j: int|
            0 <= i < j < final(list)@.len() ==> model::listed_before(
                #[trigger] final(list)@[i]@,
                #[trigger] final(list)@[j]@,
            ),
        p <= old(list)@.len(),
        final(list)@ == old(list)@.insert(p as int, record),
{
    let mut p: usize = 0;
    while p < list.len() && goes_before(&list[p], &record)
        invariant
            p <= list@.len(),
            list@ == old(list)@,
            forall|i: int| 0 <= i < p ==> model::listed_before(
                #[trigger] list@[i]@,
                record@,
            ),
        decreases list@.len() - p,
    {
        p = p + 1;
    }
    let ghost before = list@;
    list.insert(p, record);
    proof {
        assert forall|i: int, j: int| 0 <= i < j < list@.len() implies model::listed_before(
            #[trigger] list@[i]@,
            #[trigger] list@[j]@,
        ) by {
            if i < p && j < p {
                assert(list@[i] == before[i] && list@[j] == before[j]);
            } else if i < p && j == p {
                assert(list@[i] == before[i]);
            } else if i < p {
                assert(list@[i] == before[i] && list@[j] == before[j - 1]);
            } else if i == p {
                assert(list@[j] == before[j - 1]);
                lemma_listed_order(before[p as int]@, record@, record@);
                assert(model::listed_before(record@, before[p as int]@));
                if j - 1 > p {
                    assert(model::listed_before(before[p as int]@, before[j - 1]@));
                    lemma_listed_order(record@, before[p as int]@, before[j - 1]@);
                }
            } else {
                assert(list@[i] == before[i - 1] && list@[j] == before[j - 1]);
            }
        }
    }
    p
}

impl Database {
    /// Every client once: those in force first, each group by name.
    pub fn list_clients(&self) -> (r: Vec<ClientRecord>)
        requires
            self.wf(),
        ensures
            model::clients_listed(self@, client_views(r@)),
    {
        let table = &self.clients;
        let mut list: Vec<ClientRecord> = Vec::new();
        let ghost mut from: Seq<int> = Seq::empty();
        for i in 0..table.rows.len()
            invariant
                table.wf(),
                from.len() == list@.len(),
                forall|a: int, b: int|
                    0 <= a < b < list@.len() ==> model::listed_before(
                        #[trigger] list@[a]@,
                        #[trigger] list@[b]@,
                    ),
                forall|a: int|
                    0 <= a < list@.len() ==> 0 <= #[trigger] from[a] < i && list@[a]@
                        == rows::shown(table.rows@[from[a]]@),
                forall|k: int| 0 <= k < i ==> #[trigger] from.contains(k),
        {
            let record = rows::show(&table.rows[i]);
            let ghost before = from;
            assert forall|a: int| 0 <= a < list@.len() implies (#[trigger] list@[a])@.name
                != record@.name by {
                let k = from[a];
                assert(table.rows@[k]@.name != table.rows@[i as int]@.name);
            }
            let p = put_client(&mut list, record);
            proof {
                from = before.insert(p as int, i as int);
                assert forall|k: int| 0 <= k < i + 1 implies #[trigger] from.contains(k) by {
                    lemma_inserted(before, p as int, i as int, k);
                }
            }
        }
        proof {
            let views = client_views(list@);
            assert forall|a: int| 0 <= a < views.len() implies self@.clients.dom().contains(
                (#[trigger] views[a]).name,
            ) && views[a] == rows::shown(self@.clients[views[a].name]) by {
                assert(views[a] == list@[a]@);
                table.lemma_row(from[a]);
            }
            assert forall|name: Text| #[trigger] self@.clients.dom().contains(name) implies exists|
                a: int,
            |
                0 <= a < views.len() && (#[trigger] views[a]).name == name by {
                let k = choose|k: int| table::has_key(table.rows@, name, k);
                assert(from.contains(k));
                let a = choose|a: int| 0 <= a < from.len() && from[a] == k;
                assert(views[a] == list@[a]@);
            }
        }
        list
    }
}

proof fn lemma_inserted(s: Seq<int>, p: int, new: int, k: int)
    requires
        0 <= p <= s.len(),
        k == new || s.contains(k),
    ensures
        s.insert(p, new).contains(k),
{
    let t = s.insert(p, new);
    if k == new {
        assert(t[p] == new);
    } else {
        let a = choose|a: int| 0 <= a < s.len() && s[a] == k;
        assert(t[if a < p {
            a
        } else {
            a + 1
        }] == k);
    }
}

fn put_grant(list: &mut Vec<GrantRecord>, record: GrantRecord) -> (p: usize)
    requires
        forall|i: int, j: int|
            0 <= i < j < old(list)@.len() ==> (#[trigger] old(list)@[i]).id > (
            #[trigger] old(list)@[j]).id,
        forall|i: int| 0 <= i < old(list)@.len() ==> (#[trigger] old(list)@[i]).id != record.id,
    ensures
        forall|i: int, j: int|
            0 <= i < j < final(list)@.len() ==> (#[trigger] final(list)@[i]).id > (
            #[trigger] final(list)@[j]).id,
        p <= old(list)@.len(),
        final(list)@ == old(list)@.insert(p as int, record),
{
    let mut p: usize = 0;
    while p < list.len() && list[p].id > record.id
        invariant
            p <= list@.len(),
            list@ == old(list)@,
            forall|i: int| 0 <= i < p ==> (#[trigger] list@[i]).id > record.id,
        decreases list@.len() - p,
    {
        p = p + 1;
    }
    let ghost before = list@;
    list.insert(p, record);
    proof {
        assert forall|i: int, j: int| 0 <= i < j < list@.len() implies (#[trigger] list@[i]).id > (
        #[trigger] list@[j]).id by {
            if i == p {
                assert(list@[j] == before[j - 1]);
                assert(before[p as int].id >= before[j - 1].id);
            }
        }
    }
    p
}

impl Database {
    /// Every grant once, the latest first.
    pub fn list_grants(&self) -> (r: Vec<GrantRecord>)
        requires
            self.wf(),
        ensures
            model::grants_listed(self@, grant_models(r@)),
    {
        let table = &self.grants;
        let mut list: Vec<GrantRecord> = Vec::new();
        let ghost mut from: Seq<int> = Seq::empty();
        for i in 0..table.rows.len()
            invariant
                table.wf(),
                from.len() == list@.len(),
                forall|a: int, b: int|
                    0 <= a < b < list@.len() ==> (#[trigger] list@[a]).id > (
                    #[trigger] list@[b]).id,
                forall|a: int|
                    0 <= a < list@.len() ==> 0 <= #[trigger] from[a] < i && list@[a]@
                        == table.rows@[from[a]]@,
                forall|k: int| 0 <= k < i ==> #[trigger] from.contains(k),
        {
            let record = rows::copy_grant(&table.rows[i]);
            let ghost before = from;
            assert forall|a: int| 0 <= a < list@.len() implies (#[trigger] list@[a]).id
                != record.id by {
                let k = from[a];
                assert(list@[a]@.id == table.rows@[k]@.id);
                assert(table.rows@[k]@.id != table.rows@[i as int]@.id);
                assert(record@.id == record.id);
            }
            let p = put_grant(&mut list, record);
            proof {
                from = before.insert(p as int, i as int);
                assert forall|k: int| 0 <= k < i + 1 implies #[trigger] from.contains(k) by {
                    lemma_inserted(before, p as int, i as int, k);
                }
            }
        }
        proof {
            let models = grant_models(list@);
            assert forall|a: int| 0 <= a < models.len() implies self@.grants.dom().contains(
                (#[trigger] models[a]).id,
            ) && models[a] == self@.grants[models[a].id] by {
                assert(models[a] == list@[a]@);
                table.lemma_row(from[a]);
            }
            assert forall|id: i64| #[trigger] self@.grants.dom().contains(id) implies exists|
                a: int,
            |
                0 <= a < models.len() && (#[trigger] models[a]).id == id by {
                let k = choose|k: int| table::has_key(table.rows@, id, k);
                assert(from.contains(k));
                let a = choose|a: int| 0 <= a < from.len() && from[a] == k;
                assert(models[a] == list@[a]@);
            }
        }
        list
    }
}

// ---------------------------------------------------------------------------
// Keeping the tables elsewhere
// ---------------------------------------------------------------------------
impl Database {
    /// Every client.
    pub fn client_rows(&self) -> (r: &Vec<ClientRow>)
        ensures
            table::by_key(r@) == self@.clients,
    {
        &self.clients.rows
    }

    /// Every OAuth client.
    pub fn oauth_rows(&self) -> (r: &Vec<OAuthRow>)
        ensures
            table::by_key(r@) == self@.oauth_clients,
    {
        &self.oauth_clients.rows
    }

    /// Every grant.
    pub fn grant_rows(&self) -> (r: &Vec<GrantRecord>)
        ensures
            table::by_key(r@) == self@.grants,
    {
        &self.grants.rows
    }

    /// Every authorization code.
    pub fn code_rows(&self) -> (r: &Vec<CodeRow>)
        ensures
            table::by_key(r@) == self@.codes,
    {
        &self.codes.rows
    }

    /// Every access token.
    pub fn access_rows(&self) -> (r: &Vec<TokenRow>)
        ensures
            table::by_key(r@) == self@.access,
    {
        &self.access.rows
    }

    /// Every refresh token.
    pub fn refresh_rows(&self) -> (r: &Vec<TokenRow>)
        ensures
            table::by_key(r@) == self@.refresh,
    {
        &self.refresh.rows
    }

    /// Puts a kept client back.
    pub fn restore_client(&mut self, row: ClientRow) -> (r: Result<(), StorageError>)
        requires
            old(self).wf(),
        ensures
            final(self).wf(),
            match r {
                Ok(()) => !old(self)@.clients.dom().contains(row@.name) && !model::code_taken(
                    old(self)@,
                    row@.code,
                ) && final(self)@ == (Tables {
                    clients: old(self)@.clients.insert(row@.name, row@),
                    ..old(self)@
                }),
                Err(e) => final(self)@ == old(self)@ && e == (if old(
                    self,
                )@.clients.dom().contains(row@.name) {
                    StorageError::NameTaken
                } else {
                    StorageError::CodeTaken
                }) && (old(self)@.clients.dom().contains(row@.name) || model::code_taken(
                    old(self)@,
                    row@.code,
                )),
            },
    {
        if find_client(&self.clients, row.name.as_str()).is_some() {
            return Err(StorageError::NameTaken);
        }
        if let Some(i) = find_holder(&self.clients, row.code.as_str()) {
            assert(model::has_code(self@.clients, self.clients.rows@[i as int].name@, row@.code));
            return Err(StorageError::CodeTaken);
        }
        assert(!model::code_taken(self@, row@.code));
        self.clients.insert(row);
        Ok(())
    }

    /// Puts a kept OAuth client back.
    pub fn restore_oauth_client(&mut self, row: OAuthRow) -> (r: Result<(), StorageError>)
        requires
            old(self).wf(),
        ensures
            final(self).wf(),
            match r {
                Ok(()) => !old(self)@.oauth_clients.dom().contains(row@.client_id) && final(self)@
                    == (Tables {
                    oauth_clients: old(self)@.oauth_clients.insert(row@.client_id, row@),
                    ..old(self)@
                }),
                Err(e) => final(self)@ == old(self)@ && e == StorageError::NameTaken && old(
                    self,
                )@.oauth_clients.dom().contains(row@.client_id),
            },
    {
        if find_oauth(&self.oauth_clients, row.client_id.as_str()).is_some() {
            return Err(StorageError::NameTaken);
        }
        self.oauth_clients.insert(row);
        Ok(())
    }

    /// Puts a kept grant back.
    pub fn restore_grant(&mut self, row: GrantRecord) -> (r: Result<(), StorageError>)
        requires
            old(self).wf(),
        ensures
            final(self).wf(),
            match r {
                Ok(()) => old(self)@.oauth_clients.dom().contains(row@.client_id) && !old(
                    self,
                )@.grants.dom().contains(row@.id) && final(self)@ == (Tables {
                    grants: old(self)@.grants.insert(row@.id, row@),
                    ..old(self)@
                }),
                Err(e) => final(self)@ == old(self)@ && if old(
                    self,
                )@.oauth_clients.dom().contains(row@.client_id) {
                    e == StorageError::GrantTaken && old(self)@.grants.dom().contains(row@.id)
                } else {
                    e == StorageError::UnknownClient
                },
            },
    {
        if find_oauth(&self.oauth_clients, row.client_id.as_str()).is_none() {
            return Err(StorageError::UnknownClient);
        }
        if find_grant(&self.grants, row.id).is_some() {
            return Err(StorageError::GrantTaken);
        }
        self.grants.insert(row);
        Ok(())
    }

    /// Why a row cannot belong to its OAuth client and grant.
    fn unanchored(&self, grant_id: i64, client_id: &str) -> (r: Option<StorageError>)
        requires
            self.wf(),
        ensures
            r == model::missing(self@, grant_id, client_id@),
    {
        if find_oauth(&self.oauth_clients, client_id).is_none() {
            Some(StorageError::UnknownClient)
        } else if find_grant(&self.grants, grant_id).is_none() {
            Some(StorageError::UnknownGrant)
        } else {
            None
        }
    }

    /// Puts a kept authorization code back.
    pub fn restore_code(&mut self, row: CodeRow) -> (r: Result<(), StorageError>)
        requires
            old(self).wf(),
        ensures
            final(self).wf(),
            match model::missing(old(self)@, row@.grant_id, row@.client_id) {
                Some(e) => r == Err::<(), StorageError>(e) && final(self)@ == old(self)@,
                None => if old(self)@.codes.dom().contains(row@.code_hash) {
                    r == Err::<(), StorageError>(StorageError::CodeHashTaken) && final(self)@ == old(
                        self,
                    )@
                } else {
                    r is Ok && final(self)@ == (Tables {
                        codes: old(self)@.codes.insert(row@.code_hash, row@),
                        ..old(self)@
                    })
                },
            },
    {
        if let Some(e) = self.unanchored(row.grant_id, row.client_id.as_str()) {
            return Err(e);
        }
        if find_code(&self.codes, &row.code_hash).is_some() {
            return Err(StorageError::CodeHashTaken);
        }
        self.codes.insert(row);
        Ok(())
    }

    /// Puts a kept access token back.
    pub fn restore_access(&mut self, row: TokenRow) -> (r: Result<(), StorageError>)
        requires
            old(self).wf(),
        ensures
            final(self).wf(),
            match model::missing(old(self)@, row@.grant_id, row@.client_id) {
                Some(e) => r == Err::<(), StorageError>(e) && final(self)@ == old(self)@,
                None => if old(self)@.access.dom().contains(row@.token_hash) {
                    r == Err::<(), StorageError>(StorageError::AccessTaken) && final(self)@ == old(
                        self,
                    )@
                } else {
                    r is Ok && final(self)@ == (Tables {
                        access: old(self)@.access.insert(row@.token_hash, row@),
                        ..old(self)@
                    })
                },
            },
    {
        if let Some(e) = self.unanchored(row.grant_id, row.client_id.as_str()) {
            return Err(e);
        }
        if find_token(&self.access, &row.token_hash).is_some() {
            return Err(StorageError::AccessTaken);
        }
        self.access.insert(row);
        Ok(())
    }

    /// Puts a kept refresh token back.
    pub fn restore_refresh(&mut self, row: TokenRow) -> (r: Result<(), StorageError>)
        requires
            old(self).wf(),
        ensures
            final(self).wf(),
            match model::missing(old(self)@, row@.grant_id, row@.client_id) {
                Some(e) => r == Err::<(), StorageError>(e) && final(self)@ == old(self)@,
                None => if old(self)@.refresh.dom().contains(row@.token_hash) {
                    r == Err::<(), StorageError>(StorageError::RefreshTaken) && final(self)@ == old(
                        self,
                    )@
                } else {
                    r is Ok && final(self)@ == (Tables {
                        refresh: old(self)@.refresh.insert(row@.token_hash, row@),
                        ..old(self)@
                    })
                },
            },
    {
        if let Some(e) = self.unanchored(row.grant_id, row.client_id.as_str()) {
            return Err(e);
        }
        if find_token(&self.refresh, &row.token_hash).is_some() {
            return Err(StorageError::RefreshTaken);
        }
        self.refresh.insert(row);
        Ok(())
    }
}

} // verus!
