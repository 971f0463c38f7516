use connector::crypto::pkce_s256;
use connector::db::{
    scope_has, verifier_proves, AuthCodeBinding, ClientRow, Database, GrantRecord, OAuthError,
    StorageError, TokenIssue,
};

const REDIRECT: &str = "https://example.com/callback";
const RESOURCE: &str = "https://connector.test/mcp";

fn setup() -> Database {
    let mut db = Database::new();
    db.register_oauth_client("chatgpt", "secret", REDIRECT);
    db
}

/// A moment of this year, read off a row.
fn now() -> i64 {
    let mut db = Database::new();
    db.create_client("probe", "AAAAAAAA", 0).unwrap();
    db.client_rows()[0].created_at
}

fn names(db: &Database) -> Vec<String> {
    db.list_clients().into_iter().map(|client| client.name).collect()
}

fn binding(challenge: String) -> AuthCodeBinding {
    AuthCodeBinding {
        subject: "owner".to_string(),
        client_id: "chatgpt".to_string(),
        redirect_uri: REDIRECT.to_string(),
        resource: RESOURCE.to_string(),
        scopes: "control offline_access".to_string(),
        code_challenge: challenge,
    }
}

#[test]
fn extends_active_and_expired_clients_but_not_revoked_clients() {
    let mut db = setup();
    let current = now();
    db.create_client("active", "AAAAAAAA", current + 100).unwrap();
    db.create_client("expired", "BBBBBBBB", current - 100).unwrap();
    db.create_client("revoked", "CCCCCCCC", current + 100).unwrap();
    assert!(db.revoke_client("revoked"));

    assert!(db.extend_client("active", 2).unwrap());
    assert!(db.extend_client("expired", 2).unwrap());
    assert!(!db.extend_client("revoked", 2).unwrap());

    let clients = db.list_clients();
    let active = clients.iter().find(|client| client.name == "active").unwrap();
    let expired = clients.iter().find(|client| client.name == "expired").unwrap();
    assert_eq!(active.expires_at, current + 100 + 2 * 86_400);
    assert!(expired.expires_at >= current + 2 * 86_400);
}

#[test]
fn rotates_client_code_reactivates_revoked_clients_and_sorts_them_last() {
    let mut db = setup();
    let current = now();
    db.create_client("z-active", "AAAAAAAA", current + 100).unwrap();
    db.create_client("a-revoked", "BBBBBBBB", current + 100).unwrap();
    assert!(db.revoke_client("a-revoked"));

    assert!(db.rotate_client_code("z-active", "CCCCCCCC").unwrap());
    assert!(db.client_for_code("AAAAAAAA").is_none());
    assert_eq!(db.client_for_code("CCCCCCCC").unwrap().name, "z-active");
    assert_eq!(names(&db), ["z-active", "a-revoked"]);

    assert!(db.rotate_client_code("a-revoked", "DDDDDDDD").unwrap());
    assert!(db.client_for_code("BBBBBBBB").is_none());
    let restored = db.client_for_code("DDDDDDDD").unwrap();
    assert_eq!(restored.name, "a-revoked");
    assert!(restored.revoked_at.is_none());
    assert_eq!(names(&db), ["a-revoked", "z-active"]);
}

#[test]
fn codes_are_single_use_and_pkce_bound() {
    let mut db = setup();
    let code = db.create_authorization_code(&binding(pkce_s256(&"x".repeat(43)))).unwrap();
    assert_eq!(
        db.exchange_authorization_code(&code, "chatgpt", REDIRECT, RESOURCE, &"y".repeat(43))
            .unwrap_err(),
        OAuthError::InvalidGrant
    );
    let issue = db
        .exchange_authorization_code(&code, "chatgpt", REDIRECT, RESOURCE, &"x".repeat(43))
        .unwrap();
    assert!(issue.refresh_token.is_some());
    assert_eq!(
        db.exchange_authorization_code(&code, "chatgpt", REDIRECT, RESOURCE, &"x".repeat(43))
            .unwrap_err(),
        OAuthError::InvalidGrant
    );
    assert!(db.validate_access_token(&issue.access_token, RESOURCE, "control"));
}

fn first_tokens(db: &mut Database) -> TokenIssue {
    let verifier = "z".repeat(43);
    let code = db.create_authorization_code(&binding(pkce_s256(&verifier))).unwrap();
    db.exchange_authorization_code(&code, "chatgpt", REDIRECT, RESOURCE, &verifier).unwrap()
}

#[test]
fn refresh_reuse_revokes_grant() {
    let mut db = setup();
    let first = first_tokens(&mut db);
    let old_refresh = first.refresh_token.unwrap();
    let second = db.rotate_refresh_token(&old_refresh, "chatgpt", RESOURCE).unwrap();
    assert_eq!(
        db.rotate_refresh_token(&old_refresh, "chatgpt", RESOURCE).unwrap_err(),
        OAuthError::InvalidGrant
    );
    assert!(!db.validate_access_token(&second.access_token, RESOURCE, "control"));
}

#[test]
fn codes_and_tokens_expire() {
    let mut db = setup();
    let verifier = "v".repeat(43);
    let challenge = pkce_s256(&verifier);
    db.create_authorization_code_with(&binding(challenge.clone()), "late", 1_000).unwrap();
    let exchange = |db: &mut Database, code: &str, at: i64| {
        db.exchange_authorization_code_with(
            code, "chatgpt", REDIRECT, RESOURCE, &verifier, at, "A".repeat(43), "R".repeat(43),
        )
    };
    assert_eq!(exchange(&mut db, "late", 1_300).unwrap_err(), OAuthError::InvalidGrant);
    let issue = exchange(&mut db, "late", 1_299).unwrap();
    assert_eq!(issue.expires_in, 3_600);
    assert_eq!(issue.token_type, "Bearer");
    assert!(db.validate_access_token_at(&issue.access_token, RESOURCE, "control", 4_898));
    assert!(!db.validate_access_token_at(&issue.access_token, RESOURCE, "control", 4_899));
    assert!(!db.validate_access_token_at(&issue.access_token, RESOURCE, "admin", 1_300));
    assert!(!db.validate_access_token_at(&issue.access_token, "https://other/mcp", "control", 1_300));
    let refresh = issue.refresh_token.unwrap();
    let rotate = |db: &mut Database, at: i64| {
        db.rotate_refresh_token_with(
            &refresh, "chatgpt", RESOURCE, at, "B".repeat(43), "S".repeat(43),
        )
    };
    assert_eq!(rotate(&mut db, 1_299 + 2_592_000).unwrap_err(), OAuthError::InvalidGrant);
    assert!(rotate(&mut db, 1_299 + 2_591_999).is_ok());
}

#[test]
fn exchanges_check_every_binding() {
    let verifier = "v".repeat(43);
    let tries = [
        ("other", REDIRECT, RESOURCE),
        ("chatgpt", "https://example.com/other", RESOURCE),
        ("chatgpt", REDIRECT, "https://other/mcp"),
    ];
    for (client, redirect, resource) in tries {
        let mut db = setup();
        let code = db.create_authorization_code(&binding(pkce_s256(&verifier))).unwrap();
        assert_eq!(
            db.exchange_authorization_code(&code, client, redirect, resource, &verifier)
                .unwrap_err(),
            OAuthError::InvalidGrant
        );
    }
    assert!(verifier_proves(&verifier, &pkce_s256(&verifier)));
    assert!(!verifier_proves(&"v".repeat(42), &pkce_s256(&"v".repeat(42))));
    assert!(!verifier_proves(&"v".repeat(129), &pkce_s256(&"v".repeat(129))));
}

#[test]
fn returned_tokens_end() {
    let mut db = setup();
    let issue = first_tokens(&mut db);
    db.revoke_token(&issue.access_token, "other");
    assert!(db.validate_access_token(&issue.access_token, RESOURCE, "control"));
    db.revoke_token(&issue.access_token, "chatgpt");
    assert!(!db.validate_access_token(&issue.access_token, RESOURCE, "control"));

    let issue = first_tokens(&mut db);
    db.revoke_token(&issue.refresh_token.unwrap(), "chatgpt");
    assert!(!db.validate_access_token(&issue.access_token, RESOURCE, "control"));
}

#[test]
fn revoked_grants_open_nothing() {
    let mut db = setup();
    let issue = first_tokens(&mut db);
    let grants = db.list_grants();
    assert_eq!(grants.len(), 1);
    assert_eq!(grants[0].subject, "owner");
    assert!(db.revoke_grant(grants[0].id));
    assert!(!db.revoke_grant(grants[0].id));
    assert!(!db.revoke_grant(99));
    assert!(!db.validate_access_token(&issue.access_token, RESOURCE, "control"));
    assert_eq!(
        db.rotate_refresh_token(&issue.refresh_token.unwrap(), "chatgpt", RESOURCE).unwrap_err(),
        OAuthError::InvalidGrant
    );
}

#[test]
fn grants_are_listed_latest_first() {
    let mut db = setup();
    first_tokens(&mut db);
    first_tokens(&mut db);
    let ids: Vec<i64> = db.list_grants().iter().map(|grant| grant.id).collect();
    assert_eq!(ids, [2, 1]);
}

#[test]
fn names_and_codes_are_unique() {
    let mut db = setup();
    db.create_client_at("a", "AAAAAAAA", 100, 1).unwrap();
    assert_eq!(db.create_client_at("a", "BBBBBBBB", 100, 1), Err(StorageError::NameTaken));
    assert_eq!(db.create_client_at("b", "AAAAAAAA", 100, 1), Err(StorageError::CodeTaken));
    db.create_client_at("b", "BBBBBBBB", 100, 1).unwrap();
    assert_eq!(db.rotate_client_code("b", "AAAAAAAA"), Err(StorageError::CodeTaken));
    assert_eq!(db.rotate_client_code("missing", "CCCCCCCC"), Ok(false));
    assert!(!db.revoke_client_at("missing", 2));
    assert_eq!(db.client_for_code_at("AAAAAAAA", 99).unwrap().name, "a");
    assert!(db.client_for_code_at("AAAAAAAA", 100).is_none());
    assert!(db.in_force("a"));
    assert!(db.revoke_client_at("a", 2));
    assert!(!db.in_force("a"));
    assert!(db.client_for_code_at("AAAAAAAA", 3).is_none());
    assert_eq!(StorageError::NameTaken.message(), "UNIQUE constraint failed: clients.name");
}

#[test]
fn codes_need_a_registered_client() {
    let mut db = Database::new();
    assert_eq!(
        db.create_authorization_code(&binding("c".to_string())).unwrap_err(),
        StorageError::UnknownClient
    );
    db.register_oauth_client("chatgpt", "secret", REDIRECT);
    db.create_authorization_code_with(&binding("c".to_string()), "same", 1).unwrap();
    assert_eq!(
        db.create_authorization_code_with(&binding("c".to_string()), "same", 1),
        Err(StorageError::CodeHashTaken)
    );
    assert_eq!(
        StorageError::CodeHashTaken.message(),
        "UNIQUE constraint failed: authorization_codes.code_hash"
    );
}

#[test]
fn secrets_authenticate_their_client() {
    let mut db = setup();
    assert_eq!(db.authenticate_oauth_client("chatgpt", "secret").unwrap().redirect_uri, REDIRECT);
    assert!(db.authenticate_oauth_client("chatgpt", "wrong").is_none());
    assert!(db.authenticate_oauth_client("other", "secret").is_none());
    db.register_oauth_client("chatgpt", "renewed", "https://example.com/new");
    assert!(db.authenticate_oauth_client("chatgpt", "secret").is_none());
    assert_eq!(db.oauth_client("chatgpt").unwrap().redirect_uri, "https://example.com/new");
    assert!(db.oauth_client("other").is_none());
    assert_ne!(db.oauth_rows()[0].secret_hash, b"renewed");
}

#[test]
fn scopes_are_words() {
    assert!(scope_has("control offline_access", "control"));
    assert!(scope_has("a\tcontrol", "control"));
    assert!(!scope_has("controls", "control"));
    assert!(!scope_has("control", ""));
}

#[test]
fn tables_can_be_restored() {
    let mut db = setup();
    db.create_client_at("a", "AAAAAAAA", 100, 1).unwrap();
    first_tokens(&mut db);
    let mut copy = Database::new();
    for row in db.oauth_rows() {
        copy.restore_oauth_client(connector::db::OAuthRow {
            client_id: row.client_id.clone(),
            secret_hash: row.secret_hash.clone(),
            redirect_uri: row.redirect_uri.clone(),
        })
        .unwrap();
    }
    for row in db.grant_rows() {
        copy.restore_grant(row.clone()).unwrap();
    }
    for row in db.client_rows() {
        copy.restore_client(ClientRow {
            name: row.name.clone(),
            code: row.code.clone(),
            expires_at: row.expires_at,
            created_at: row.created_at,
            revoked_at: row.revoked_at,
        })
        .unwrap();
    }
    assert_eq!(copy.client_for_code_at("AAAAAAAA", 50).unwrap().name, "a");
    assert_eq!(copy.list_grants().len(), 1);
    let stray = GrantRecord {
        id: 7,
        subject: "owner".to_string(),
        client_id: "unknown".to_string(),
        scopes: "control".to_string(),
        created_at: 1,
        revoked_at: None,
    };
    assert_eq!(copy.restore_grant(stray), Err(StorageError::UnknownClient));
}

#[test]
fn errors_have_words() {
    assert_eq!(OAuthError::InvalidClient.message(), "invalid client");
    assert_eq!(OAuthError::InvalidGrant.message(), "invalid grant");
    assert_eq!(OAuthError::InvalidRequest.message(), "invalid request");
    assert_eq!(OAuthError::Storage.message(), "temporarily unavailable");
}
