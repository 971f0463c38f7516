//! The rows that are kept, and what is handed out of them.
use vstd::prelude::*;

use crate::table::Record;
use crate::text;
use crate::text::Text;

verus! {

// ---------------------------------------------------------------------------
// Rows
// ---------------------------------------------------------------------------
/// A machine that may open a link with its connection code.
#[derive(Debug, Clone, PartialEq, Eq)]
pub struct ClientRow {
    pub name: String,
    pub code: String,
    pub expires_at: i64,
    pub created_at: i64,
    pub revoked_at: Option<i64>,
}

/// A registered OAuth client.
#[derive(Debug, Clone, PartialEq, Eq)]
pub struct OAuthRow {
    pub client_id: String,
    pub secret_hash: Vec<u8>,
    pub redirect_uri: String,
}

/// A consent that somebody gave to an OAuth client.
#[derive(Debug, Clone, PartialEq, Eq)]
pub struct GrantRecord {
    pub id: i64,
    pub subject: String,
    pub client_id: String,
    pub scopes: String,
    pub created_at: i64,
    pub revoked_at: Option<i64>,
}

/// An authorization code and all it is bound to.
#[derive(Debug, Clone, PartialEq, Eq)]
pub struct CodeRow {
    pub code_hash: Vec<u8>,
    pub grant_id: i64,
    pub subject: String,
    pub client_id: String,
    pub redirect_uri: String,
    pub resource: String,
    pub scopes: String,
    pub code_challenge: String,
    pub expires_at: i64,
    pub consumed_at: Option<i64>,
}

/// An access token, or a refresh token. `ended_at` says when an access token
/// was revoked and when a refresh token was used.
#[derive(Debug, Clone, PartialEq, Eq)]
pub struct TokenRow {
    pub token_hash: Vec<u8>,
    pub grant_id: i64,
    pub client_id: String,
    pub scopes: String,
    pub resource: String,
    pub expires_at: i64,
    pub created_at: i64,
    pub ended_at: Option<i64>,
}

/// The model of [`ClientRow`].
pub struct ClientModel {
    pub name: Text,
    pub code: Text,
    pub expires_at: i64,
    pub created_at: i64,
    pub revoked_at: Option<i64>,
}

/// The model of [`OAuthRow`].
pub struct OAuthModel {
    pub client_id: Text,
    pub secret_hash: Seq<u8>,
    pub redirect_uri: Text,
}

/// The model of [`GrantRecord`].
pub struct GrantModel {
    pub id: i64,
    pub subject: Text,
    pub client_id: Text,
    pub scopes: Text,
    pub created_at: i64,
    pub revoked_at: Option<i64>,
}

/// The model of [`CodeRow`].
pub struct CodeModel {
    pub code_hash: Seq<u8>,
    pub grant_id: i64,
    pub subject: Text,
    pub client_id: Text,
    pub redirect_uri: Text,
    pub resource: Text,
    pub scopes: Text,
    pub code_challenge: Text,
    pub expires_at: i64,
    pub consumed_at: Option<i64>,
}

/// The model of [`TokenRow`].
pub struct TokenModel {
    pub token_hash: Seq<u8>,
    pub grant_id: i64,
    pub client_id: Text,
    pub scopes: Text,
    pub resource: Text,
    pub expires_at: i64,
    pub created_at: i64,
    pub ended_at: Option<i64>,
}

impl View for ClientRow {
    type V = ClientModel;

    open spec fn view(&self) -> ClientModel {
        ClientModel {
            name: self.name@,
            code: self.code@,
            expires_at: self.expires_at,
            created_at: self.created_at,
            revoked_at: self.revoked_at,
        }
    }
}

impl View for OAuthRow {
    type V = OAuthModel;

    open spec fn view(&self) -> OAuthModel {
        OAuthModel {
            client_id: self.client_id@,
            secret_hash: self.secret_hash@,
            redirect_uri: self.redirect_uri@,
        }
    }
}

impl View for GrantRecord {
    type V = GrantModel;

    open spec fn view(&self) -> GrantModel {
        GrantModel {
            id: self.id,
            subject: self.subject@,
            client_id: self.client_id@,
            scopes: self.scopes@,
            created_at: self.created_at,
            revoked_at: self.revoked_at,
        }
    }
}

impl View for CodeRow {
    type V = CodeModel;

    open spec fn view(&self) -> CodeModel {
        CodeModel {
            code_hash: self.code_hash@,
            grant_id: self.grant_id,
            subject: self.subject@,
            client_id: self.client_id@,
            redirect_uri: self.redirect_uri@,
            resource: self.resource@,
            scopes: self.scopes@,
            code_challenge: self.code_challenge@,
            expires_at: self.expires_at,
            consumed_at: self.consumed_at,
        }
    }
}

impl View for TokenRow {
    type V = TokenModel;

    open spec fn view(&self) -> TokenModel {
        TokenModel {
            token_hash: self.token_hash@,
            grant_id: self.grant_id,
            client_id: self.client_id@,
            scopes: self.scopes@,
            resource: self.resource@,
            expires_at: self.expires_at,
            created_at: self.created_at,
            ended_at: self.ended_at,
        }
    }
}

impl Record for ClientRow {
    type Key = Text;

    open spec fn key(row: ClientModel) -> Text {
        row.name
    }
}

impl Record for OAuthRow {
    type Key = Text;

    open spec fn key(row: OAuthModel) -> Text {
        row.client_id
    }
}

impl Record for GrantRecord {
    type Key = i64;

    open spec fn key(row: GrantModel) -> i64 {
        row.id
    }
}

impl Record for CodeRow {
    type Key = Seq<u8>;

    open spec fn key(row: CodeModel) -> Seq<u8> {
        row.code_hash
    }
}

impl Record for TokenRow {
    type Key = Seq<u8>;

    open spec fn key(row: TokenModel) -> Seq<u8> {
        row.token_hash
    }
}

// ---------------------------------------------------------------------------
// What is handed out and taken in
// ---------------------------------------------------------------------------
/// What is shown of a client.
#[derive(Debug, Clone)]
pub struct ClientRecord {
    pub name: String,
    pub code: String,
    pub expires_at: i64,
    pub revoked_at: Option<i64>,
}

/// The model of [`ClientRecord`].
pub struct ClientView {
    pub name: Text,
    pub code: Text,
    pub expires_at: i64,
    pub revoked_at: Option<i64>,
}

impl View for ClientRecord {
    type V = ClientView;

    open spec fn view(&self) -> ClientView {
        ClientView {
            name: self.name@,
            code: self.code@,
            expires_at: self.expires_at,
            revoked_at: self.revoked_at,
        }
    }
}

/// What is shown of a row.
pub open spec fn shown(row: ClientModel) -> ClientView {
    ClientView {
        name: row.name,
        code: row.code,
        expires_at: row.expires_at,
        revoked_at: row.revoked_at,
    }
}

pub fn show(row: &ClientRow) -> (r: ClientRecord)
    ensures
        r@ == shown(row@),
{
    ClientRecord {
        name: row.name.clone(),
        code: row.code.clone(),
        expires_at: row.expires_at,
        revoked_at: row.revoked_at,
    }
}

pub fn copy_grant(row: &GrantRecord) -> (r: GrantRecord)
    ensures
        r@ == row@,
{
    GrantRecord {
        id: row.id,
        subject: row.subject.clone(),
        client_id: row.client_id.clone(),
        scopes: row.scopes.clone(),
        created_at: row.created_at,
        revoked_at: row.revoked_at,
    }
}

/// What is told of a registered OAuth client.
#[derive(Debug, Clone)]
pub struct OAuthClient {
    pub client_id: String,
    pub redirect_uri: String,
}

/// What an authorization code is bound to.
#[derive(Debug, Clone)]
pub struct AuthCodeBinding {
    pub subject: String,
    pub client_id: String,
    pub redirect_uri: String,
    pub resource: String,
    pub scopes: String,
    pub code_challenge: String,
}

/// The model of [`AuthCodeBinding`].
pub struct BindingModel {
    pub subject: Text,
    pub client_id: Text,
    pub redirect_uri: Text,
    pub resource: Text,
    pub scopes: Text,
    pub code_challenge: Text,
}

impl View for AuthCodeBinding {
    type V = BindingModel;

    open spec fn view(&self) -> BindingModel {
        BindingModel {
            subject: self.subject@,
            client_id: self.client_id@,
            redirect_uri: self.redirect_uri@,
            resource: self.resource@,
            scopes: self.scopes@,
            code_challenge: self.code_challenge@,
        }
    }
}

/// The tokens that are handed to a controller.
#[derive(Debug, Clone)]
pub struct TokenIssue {
    pub access_token: String,
    pub token_type: &'static str,
    pub expires_in: i64,
    pub scope: String,
    pub refresh_token: Option<String>,
}

/// The model of [`TokenIssue`].
pub struct IssueModel {
    pub access_token: Text,
    pub token_type: Text,
    pub expires_in: i64,
    pub scope: Text,
    pub refresh_token: Option<Text>,
}

impl View for TokenIssue {
    type V = IssueModel;

    open spec fn view(&self) -> IssueModel {
        IssueModel {
            access_token: self.access_token@,
            token_type: self.token_type@,
            expires_in: self.expires_in,
            scope: self.scope@,
            refresh_token: text::opt_text(self.refresh_token),
        }
    }
}

/// Why a token request is refused.
#[derive(Debug, Clone, Copy, PartialEq, Eq, Structural)]
pub enum OAuthError {
    InvalidClient,
    InvalidGrant,
    InvalidRequest,
    Storage,
}

impl OAuthError {
    /// The error in words.
    pub open spec fn words(self) -> Text {
        match self {
            OAuthError::InvalidClient => "invalid client"@,
            OAuthError::InvalidGrant => "invalid grant"@,
            OAuthError::InvalidRequest => "invalid request"@,
            OAuthError::Storage => "temporarily unavailable"@,
        }
    }

    /// The error in words.
    pub fn message(self) -> (r: String)
        ensures
            r@ == self.words(),
    {
        match self {
            OAuthError::InvalidClient => "invalid client".to_string(),
            OAuthError::InvalidGrant => "invalid grant".to_string(),
            OAuthError::InvalidRequest => "invalid request".to_string(),
            OAuthError::Storage => "temporarily unavailable".to_string(),
        }
    }
}

/// Why a row cannot be written.
#[derive(Debug, Clone, Copy, PartialEq, Eq, Structural)]
pub enum StorageError {
    /// Another client has the name.
    NameTaken,
    /// Another client has the connection code.
    CodeTaken,
    /// No OAuth client of that name is registered.
    UnknownClient,
    /// No grant of that number exists.
    UnknownGrant,
    /// Another grant has the number.
    GrantTaken,
    /// Another authorization code has the hash.
    CodeHashTaken,
    /// Another access token has the hash.
    AccessTaken,
    /// Another refresh token has the hash.
    RefreshTaken,
    /// A number would leave its range.
    Exhausted,
}

impl StorageError {
    /// The error in words.
    pub open spec fn words(self) -> Text {
        match self {
            StorageError::NameTaken => "UNIQUE constraint failed: clients.name"@,
            StorageError::CodeTaken => "UNIQUE constraint failed: clients.code"@,
            StorageError::UnknownClient => "FOREIGN KEY constraint failed"@,
            StorageError::UnknownGrant => "FOREIGN KEY constraint failed"@,
            StorageError::GrantTaken => "UNIQUE constraint failed: grants.id"@,
            StorageError::CodeHashTaken => {
                "UNIQUE constraint failed: authorization_codes.code_hash"@
            },
            StorageError::AccessTaken => "UNIQUE constraint failed: access_tokens.token_hash"@,
            StorageError::RefreshTaken => "UNIQUE constraint failed: refresh_tokens.token_hash"@,
            StorageError::Exhausted => "database or disk is full"@,
        }
    }

    /// The error in words.
    pub fn message(self) -> (r: String)
        ensures
            r@ == self.words(),
    {
        match self {
            StorageError::NameTaken => "UNIQUE constraint failed: clients.name".to_string(),
            StorageError::CodeTaken => "UNIQUE constraint failed: clients.code".to_string(),
            StorageError::UnknownClient => "FOREIGN KEY constraint failed".to_string(),
            StorageError::UnknownGrant => "FOREIGN KEY constraint failed".to_string(),
            StorageError::GrantTaken => "UNIQUE constraint failed: grants.id".to_string(),
            StorageError::CodeHashTaken => {
                "UNIQUE constraint failed: authorization_codes.code_hash".to_string()
            },
            StorageError::AccessTaken => {
                "UNIQUE constraint failed: access_tokens.token_hash".to_string()
            },
            StorageError::RefreshTaken => {
                "UNIQUE constraint failed: refresh_tokens.token_hash".to_string()
            },
            StorageError::Exhausted => "database or disk is full".to_string(),
        }
    }
}

} // verus!
