use connector::computer::Capability;
use connector::crypto::pkce_s256;
use connector::db::Database;
use connector::gateway::admission::{channel_path, code_opens_at, link, link_at, Failures};
use connector::gateway::html::{connect_script_body, connection_command, escape};
use connector::gateway::links::Links;
use connector::gateway::listener::{advance, start, Outcome, Step};
use connector::gateway::manage::{
    create_client, create_client_with, extend_client_at, management_with, revoke_client_at,
    revoke_grant_at, rotate_client, rotate_client_with, time_label, valid_name, CreateClientForm,
};
use connector::failure::Failure;
use connector::gateway::oauth::{
    authorization_server_metadata, authorize, authorize_consent, authorize_consent_with,
    authorize_with, canonical_scopes, mcp_auth, mcp_auth_at, protected_resource_metadata,
    revoke_token, token, token_with, AuthorizeParams, ConsentForm, TokenForm,
};
use connector::gateway::session::{Phase, Session};
use connector::gateway::urls::{allowed_hosts, host_of};
use connector::gateway::{
    basic_credentials, bearer, check_csrf, client_ip, connect_script, cookie, csrf_for,
    download_client, subject, Body, Headers, Reply,
};
use connector::mcp::ClientEnvironment;

const REDIRECT: &str = "https://chatgpt.com/connector_platform_oauth_redirect";
const RESOURCE: &str = "https://connector.ylxdzsw.com/mcp";
const TOKEN: &str = "TTTTTTTTTTTTTTTTTTTTTTTTTTTTTTTTTTTTTTTTTTT";

fn headers() -> Headers {
    Headers { authorization: None, cookie: None, subject: None, forwarded_for: None }
}

fn owner() -> Headers {
    Headers {
        subject: Some("owner".to_string()),
        cookie: Some("a=b; connector_csrf=secret".to_string()),
        ..headers()
    }
}

fn bearing(token: &str) -> Headers {
    Headers { authorization: Some(format!("Bearer {}", token)), ..headers() }
}

fn database() -> Database {
    let mut db = Database::new();
    db.register_oauth_client("chatgpt", "secret", REDIRECT);
    db
}

fn page(reply: &Reply) -> String {
    match &reply.body {
        Body::Html(html) => html.clone(),
        _ => panic!("a page"),
    }
}

fn problem(reply: &Reply) -> String {
    match &reply.body {
        Body::Problem { error, .. } => error.clone(),
        _ => panic!("a problem"),
    }
}

#[test]
fn connect_script_checks_for_an_installed_client_before_downloading() {
    let script = connect_script_body("https://connector.example.com");
    let check = script.find("command -v connector-client").unwrap();
    let download = script.find("curl -fsSL").unwrap();
    assert!(check < download);
    assert!(script.contains("\"$client\" --gateway 'https://connector.example.com'"));
}

#[test]
fn connect_script_hands_the_code_on() {
    let script = connect_script_body("https://g");
    assert!(script.contains("\"$client\" --gateway 'https://g' --code \"$1\"\n"));
    assert!(script.starts_with("#!/bin/sh\nset -eu\n"));
    assert!(script.contains("${TMPDIR:-/tmp}"));
    assert_eq!(
        connection_command("https://g", "0123ABCD"),
        "curl -fsSL https://g/connect | bash -s -- '0123ABCD'"
    );
    let reply = connect_script();
    assert!(reply.no_store);
    assert!(matches!(reply.body, Body::Script(_)));
    assert_eq!(download_client(None).status, 503);
    assert_eq!(download_client(Some(vec![1])).status, 200);
}

#[test]
fn text_is_escaped() {
    assert_eq!(escape("<a href=\"x\">&'"), "&lt;a href=&quot;x&quot;&gt;&amp;&#39;");
    assert_eq!(escape("plain"), "plain");
    assert_eq!(escape("&lt;"), "&amp;lt;");
    assert_eq!(escape("<b"), format!("{}{}", escape("<"), escape("b")));
}

#[test]
fn headers_are_read() {
    assert_eq!(subject(&owner()).as_deref(), Some("owner"));
    assert_eq!(subject(&headers()), None);
    assert_eq!(subject(&Headers { subject: Some(String::new()), ..headers() }), None);
    assert_eq!(bearer(&bearing("x")).as_deref(), Some("x"));
    assert_eq!(bearer(&bearing("")), None);
    assert_eq!(cookie(&owner(), "connector_csrf").as_deref(), Some("secret"));
    assert_eq!(cookie(&owner(), "csrf"), None);
    assert_eq!(client_ip(&headers()), "unix");
    let proxied =
        Headers { forwarded_for: Some(" 10.0.0.1 , 10.0.0.2".to_string()), ..headers() };
    assert_eq!(client_ip(&proxied), "10.0.0.1");
}

#[test]
fn basic_credentials_are_decoded() {
    let with = |value: &str| Headers { authorization: Some(value.to_string()), ..headers() };
    assert_eq!(
        basic_credentials(&with("Basic Y2hhdGdwdDpzZTpjcmV0")),
        Some(("chatgpt".to_string(), "se:cret".to_string()))
    );
    assert_eq!(basic_credentials(&with("Basic Y2hhdGdwdA==")), None);
    assert_eq!(basic_credentials(&with("Basic !!!!")), None);
    assert_eq!(
        basic_credentials(&with("Basic YTpi")),
        Some(("a".to_string(), "b".to_string()))
    );
    assert_eq!(basic_credentials(&with("Basic YTpi=")), None);
    assert_eq!(basic_credentials(&with("Basic YTpiYw")), None);
    assert_eq!(basic_credentials(&with("Basic YTpiYx==")), None);
    assert_eq!(basic_credentials(&with("Basic /zo=")), None);
    assert_eq!(basic_credentials(&with("Bearer Y2hhdGdwdDpzZTpjcmV0")), None);
}

#[test]
fn forms_repeat_the_token_of_the_cookie() {
    assert!(check_csrf(&owner(), "secret"));
    assert!(!check_csrf(&owner(), "secreT"));
    assert!(!check_csrf(&headers(), ""));
    assert_eq!(csrf_for(&owner()), ("secret".to_string(), None));
    let (fresh, set) = csrf_for(&headers());
    assert_eq!(fresh.len(), 43);
    assert_eq!(
        set.unwrap(),
        format!("connector_csrf={}; Path=/; HttpOnly; SameSite=Strict; Max-Age=3600; Secure", fresh)
    );
    let next = Headers { cookie: Some(format!("connector_csrf={}", fresh)), ..headers() };
    assert!(check_csrf(&next, &fresh));
}

#[test]
fn hosts_and_times_are_shown() {
    assert_eq!(host_of("https://connector.ylxdzsw.com"), "connector.ylxdzsw.com");
    assert_eq!(host_of("no url"), "localhost");
    assert_eq!(allowed_hosts("https://EXAMPLE.com:1"), ["example.com", "localhost", "127.0.0.1"]);
    assert_eq!(time_label(0), "1970-01-01 00:00 UTC");
    assert_eq!(time_label(1_700_000_000), "2023-11-14 22:13 UTC");
    assert_eq!(time_label(i64::MAX), "Invalid date");
}

fn params() -> AuthorizeParams {
    AuthorizeParams {
        response_type: "code".to_string(),
        client_id: "chatgpt".to_string(),
        redirect_uri: REDIRECT.to_string(),
        scope: "offline_access control".to_string(),
        resource: RESOURCE.to_string(),
        code_challenge: pkce_s256(&"v".repeat(43)),
        code_challenge_method: "S256".to_string(),
        state: "a&b".to_string(),
    }
}

#[test]
fn scopes_have_one_form() {
    assert_eq!(canonical_scopes("offline_access  control").unwrap(), "control offline_access");
    assert_eq!(canonical_scopes("control\tcontrol").unwrap(), "control");
    assert!(canonical_scopes("offline_access").is_err());
    assert!(canonical_scopes("control admin").is_err());
    assert!(canonical_scopes("").is_err());
}

#[test]
fn people_are_asked_for_consent() {
    let db = database();
    let reply = authorize_with(&db, &owner(), &params(), TOKEN.to_string());
    assert_eq!(reply.status, 200);
    assert!(reply.no_store);
    assert!(reply.set_cookie.is_none());
    let html = page(&reply);
    assert!(html.contains("<title>Controller authorization</title>"));
    assert!(html.contains("<strong>chatgpt</strong> is requesting control"));
    assert!(html.contains("<input type=\"hidden\" name=\"state\" value=\"a&amp;b\">"));
    assert!(html.contains("<input type=\"hidden\" name=\"csrf\" value=\"secret\">"));
    assert!(html.contains("Until revoked"));
    assert_eq!(authorize(&db, &headers(), &params()).status, 401);
}

#[test]
fn unsound_requests_are_refused() {
    let db = database();
    let refused = |change: &dyn Fn(&mut AuthorizeParams), words: &str| {
        let mut p = params();
        change(&mut p);
        let reply = authorize(&db, &owner(), &p);
        assert_eq!(reply.status, 400);
        assert!(page(&reply).contains(words), "{}", page(&reply));
    };
    refused(&|p| p.response_type = "token".to_string(), "Unsupported response type");
    refused(&|p| p.code_challenge_method = "plain".to_string(), "Unsupported response type");
    refused(&|p| p.resource = "https://other/mcp".to_string(), "Unsupported response type");
    refused(&|p| p.state = String::new(), "State and a valid S256");
    refused(&|p| p.code_challenge = "short".to_string(), "State and a valid S256");
    refused(&|p| p.code_challenge = "\u{e9}".repeat(43), "State and a valid S256");
    refused(&|p| p.scope = "admin".to_string(), "The request must use the control scope");
    refused(&|p| p.client_id = "other".to_string(), "Unknown OAuth client.");
    refused(&|p| p.redirect_uri = "https://evil/".to_string(), "The redirect URI is not registered");
}

fn consent(decision: &str) -> ConsentForm {
    ConsentForm {
        oauth: params(),
        csrf: "secret".to_string(),
        decision: decision.to_string(),
    }
}

#[test]
fn consent_leads_back_to_the_controller() {
    let mut db = database();
    let code = "C".repeat(43);
    let reply =
        authorize_consent_with(&mut db, &owner(), &consent("allow"), &code, 1_000).unwrap();
    assert_eq!(reply.status, 303);
    assert_eq!(
        reply.location.unwrap(),
        format!(
            "{}?code={}&state=a%26b&iss=https%3A%2F%2Fconnector.ylxdzsw.com",
            REDIRECT, code
        )
    );
    assert_eq!(db.list_grants().len(), 1);
    assert_eq!(db.list_grants()[0].scopes, "control offline_access");

    let reply = authorize_consent(&mut db, &owner(), &consent("deny")).unwrap();
    assert_eq!(
        reply.location.unwrap(),
        format!(
            "{}?error=access_denied&state=a%26b&iss=https%3A%2F%2Fconnector.ylxdzsw.com",
            REDIRECT
        )
    );
    assert_eq!(db.list_grants().len(), 1);

    let mut forged = consent("allow");
    forged.csrf = "other".to_string();
    assert_eq!(authorize_consent(&mut db, &owner(), &forged).unwrap().status, 403);
    assert_eq!(authorize_consent(&mut db, &headers(), &consent("allow")).unwrap().status, 401);
    assert_eq!(db.list_grants().len(), 1);

    let again = authorize_consent_with(&mut db, &owner(), &consent("allow"), &code, 1_000).unwrap();
    assert_eq!(again.status, 500);
}

#[test]
fn a_redirect_uri_has_to_be_a_url() {
    let mut db = Database::new();
    db.register_oauth_client("chatgpt", "secret", "no url");
    let mut form = consent("allow");
    form.oauth.redirect_uri = "no url".to_string();
    assert!(authorize_consent(&mut db, &owner(), &form).is_none());
    assert_eq!(db.list_grants().len(), 0);
}

fn token_form() -> TokenForm {
    TokenForm {
        grant_type: "authorization_code".to_string(),
        code: Some("C".repeat(43)),
        redirect_uri: Some(REDIRECT.to_string()),
        resource: Some(RESOURCE.to_string()),
        code_verifier: Some("v".repeat(43)),
        refresh_token: None,
    }
}

fn basic() -> Headers {
    Headers { authorization: Some("Basic Y2hhdGdwdDpzZWNyZXQ=".to_string()), ..headers() }
}

fn granted(now: i64) -> Database {
    let mut db = database();
    authorize_consent_with(&mut db, &owner(), &consent("allow"), &"C".repeat(43), now).unwrap();
    db
}

#[test]
fn approved_controllers_get_control() {
    let mut db = granted(1_000);
    let credentials = basic_credentials(&basic());
    let reply = token_with(
        &mut db, &credentials, &token_form(), 1_100, "A".repeat(43), "R".repeat(43),
    );
    assert_eq!(reply.status, 200);
    assert!(reply.no_store && reply.no_cache);
    match &reply.body {
        Body::Tokens(issue) => {
            assert_eq!(issue.access_token, "A".repeat(43));
            assert_eq!(issue.refresh_token, Some("R".repeat(43)));
            assert_eq!(issue.scope, "control offline_access");
        }
        _ => panic!("tokens"),
    }
    assert!(mcp_auth_at(&db, &bearing(&"A".repeat(43)), 1_101).is_none());
    assert!(mcp_auth_at(&db, &bearing(&"R".repeat(43)), 1_101).is_some());
    let expired = mcp_auth_at(&db, &bearing(&"A".repeat(43)), 4_700).unwrap();
    assert_eq!(expired.status, 401);
    assert_eq!(
        expired.challenge.unwrap(),
        "Bearer resource_metadata=\"https://connector.ylxdzsw.com/.well-known/oauth-protected-resource\", scope=\"control\""
    );
    let replayed = token_with(
        &mut db, &credentials, &token_form(), 1_101, "B".repeat(43), "S".repeat(43),
    );
    assert_eq!(problem(&replayed), "invalid_grant");
    let mut refresh = token_form();
    refresh.grant_type = "refresh_token".to_string();
    refresh.refresh_token = Some("R".repeat(43));
    let reply =
        token_with(&mut db, &credentials, &refresh, 1_102, "B".repeat(43), "S".repeat(43));
    assert_eq!(reply.status, 200);
    assert_eq!(revoke_token(&mut db, &basic(), &"B".repeat(43)).status, 200);
    assert!(mcp_auth_at(&db, &bearing(&"B".repeat(43)), 1_103).is_some());
    assert_eq!(revoke_grant_at(&mut db, &owner(), 1, "secret", 1_104).status, 303);
    assert!(mcp_auth_at(&db, &bearing(&"A".repeat(43)), 1_105).is_some());
}

#[test]
fn token_requests_are_refused_in_order() {
    let mut db = granted(1_000);
    let reply = token(&mut db, &headers(), &token_form());
    assert_eq!(reply.status, 401);
    assert_eq!(problem(&reply), "invalid_client");
    let wrong = Headers {
        authorization: Some("Basic Y2hhdGdwdDp3cm9uZw==".to_string()),
        ..headers()
    };
    assert_eq!(token(&mut db, &wrong, &token_form()).status, 401);
    assert_eq!(revoke_token(&mut db, &wrong, "x").status, 401);
    let mut form = token_form();
    form.resource = None;
    assert_eq!(problem(&token(&mut db, &basic(), &form)), "invalid_target");
    let mut form = token_form();
    form.grant_type = "password".to_string();
    assert_eq!(problem(&token(&mut db, &basic(), &form)), "unsupported_grant_type");
    let mut form = token_form();
    form.code_verifier = None;
    assert_eq!(problem(&token(&mut db, &basic(), &form)), "invalid_request");
    let mut form = token_form();
    form.grant_type = "refresh_token".to_string();
    assert_eq!(problem(&token(&mut db, &basic(), &form)), "invalid_request");
    assert_eq!(problem(&token(&mut db, &basic(), &token_form())), "invalid_grant");
    assert!(mcp_auth(&db, &headers()).is_some());
}

#[test]
fn metadata_lead_to_the_tokens() {
    let resource = protected_resource_metadata();
    assert_eq!(resource.resource, RESOURCE);
    assert_eq!(resource.authorization_servers, ["https://connector.ylxdzsw.com"]);
    let server = authorization_server_metadata();
    assert_eq!(server.token_endpoint, "https://connector.ylxdzsw.com/oauth/token");
    assert_eq!(server.scopes_supported, ["control", "offline_access"]);
}

fn environment() -> ClientEnvironment {
    ClientEnvironment::current("linux", false, Capability::default())
}

fn create(name: &str, days: u32) -> CreateClientForm {
    CreateClientForm { name: name.to_string(), days, csrf: "secret".to_string() }
}

#[test]
fn names_of_clients_are_plain() {
    for name in ["a", "build-server", "A.b_c-1", "0"] {
        assert!(valid_name(name), "{}", name);
    }
    for name in ["", ".", "..", "-a", "a/b", "a b", "\u{e9}", "a\n"] {
        assert!(!valid_name(name), "{}", name);
    }
    assert!(valid_name(&"a".repeat(64)));
    assert!(!valid_name(&"a".repeat(65)));
    assert_eq!(channel_path("a"), "/run/connector/a.sock");
}

#[test]
fn clients_are_created_and_shown_with_their_command() {
    let mut db = database();
    let links = Links::new();
    let reply = create_client_with(
        &mut db, &links, &owner(), &create("build", 30), "0123ABCD".to_string(), 1_000,
        TOKEN.to_string(),
    );
    assert_eq!(reply.status, 200);
    let html = page(&reply);
    assert!(html.contains("<strong>Client build created</strong>Connection code: <code>0123ABCD</code>"));
    assert!(html.contains(
        "curl -fsSL https://connector.ylxdzsw.com/connect | bash -s -- &#39;0123ABCD&#39;"
    ));
    assert!(html.contains("1970-01-31 00:16 UTC"));
    assert!(html.contains("<span class=\"pill\">Offline</span>"));
    assert!(html.contains("0 clients online"));
    assert!(html.contains("No controller grants yet."));
    assert_eq!(db.client_rows()[0].expires_at, 1_000 + 30 * 86_400);
    let again = create_client_with(
        &mut db, &links, &owner(), &create("build", 30), "1123ABCD".to_string(), 1_000,
        TOKEN.to_string(),
    );
    assert_eq!(again.status, 409);
    assert!(page(&again).contains("The name or code already exists: UNIQUE constraint failed"));
    assert_eq!(create_client(&mut db, &links, &owner(), &create("b", 0)).status, 400);
    assert_eq!(create_client(&mut db, &links, &owner(), &create("b", 3651)).status, 400);
    assert_eq!(create_client(&mut db, &links, &owner(), &create("..", 1)).status, 400);
    assert_eq!(create_client(&mut db, &links, &headers(), &create("b", 1)).status, 401);
    let mut forged = create("b", 1);
    forged.csrf = String::new();
    assert_eq!(create_client(&mut db, &links, &owner(), &forged).status, 403);
    assert_eq!(db.client_rows().len(), 1);
    assert_eq!(create_client(&mut db, &links, &owner(), &create("b", 1)).status, 200);
    assert_eq!(db.client_rows()[1].code.len(), 8);
}

#[test]
fn the_page_shows_how_clients_are_doing() {
    let mut db = granted(1_000);
    db.create_client_at("gone", "AAAAAAAA", 5_000, 1).unwrap();
    db.revoke_client_at("gone", 2);
    db.create_client_at("late", "BBBBBBBB", 1_500, 1).unwrap();
    db.create_client_at("near", "CCCCCCCC", 5_000, 1).unwrap();
    let mut links = Links::new();
    links.let_in("near");
    links.establish("near", "id", environment());
    let html = page(&management_with(&db, &links, &owner(), 2_000, TOKEN.to_string()));
    assert!(html.contains("1 client online"));
    let late = html.find("<strong>late</strong>").unwrap();
    let near = html.find("<strong>near</strong>").unwrap();
    let gone = html.find("<strong>gone</strong>").unwrap();
    assert!(late < near && near < gone);
    assert!(html[late..near].contains("Expired"));
    assert!(html[near..gone].contains("Online"));
    assert!(html[gone..].contains("Revoked"));
    assert!(html.contains("/clients/near/rotate"));
    assert!(!html.contains("/clients/gone/rotate"));
    assert!(html.contains("/grants/1/revoke"));
    assert_eq!(management_with(&db, &links, &headers(), 2_000, TOKEN.to_string()).status, 401);
}

#[test]
fn clients_are_extended() {
    let mut db = database();
    db.create_client_at("a", "AAAAAAAA", 500, 1).unwrap();
    let reply = extend_client_at(&mut db, &owner(), "a", 1, "secret", 100);
    assert_eq!(reply.status, 303);
    assert_eq!(reply.location.as_deref(), Some("/"));
    assert_eq!(db.client_rows()[0].expires_at, 500 + 86_400);
    assert_eq!(extend_client_at(&mut db, &owner(), "b", 1, "secret", 100).status, 404);
    assert_eq!(extend_client_at(&mut db, &owner(), "a", 0, "secret", 100).status, 400);
    assert_eq!(extend_client_at(&mut db, &owner(), "a", 1, "no", 100).status, 403);
    assert_eq!(extend_client_at(&mut db, &headers(), "a", 1, "secret", 100).status, 401);
}

#[test]
fn rotation_replaces_the_code_and_ends_the_link() {
    let mut db = database();
    let mut links = Links::new();
    db.create_client_at("a", "AAAAAAAA", 500, 1).unwrap();
    links.let_in("a");
    links.establish("a", "id", environment());
    let (reply, close) = rotate_client_with(
        &mut db, &mut links, &owner(), "a", "secret", "BBBBBBBB".to_string(), 100,
        TOKEN.to_string(),
    );
    assert_eq!(reply.status, 200);
    assert!(close);
    assert!(page(&reply).contains("<strong>Client a rotated</strong>"));
    assert!(page(&reply).contains("bash -s -- &#39;BBBBBBBB&#39;"));
    assert!(!links.is_live("a"));
    assert!(!code_opens_at(&db, "a", "AAAAAAAA", 200));
    assert!(code_opens_at(&db, "a", "BBBBBBBB", 200));
    db.revoke_client_at("a", 300);
    let (reply, close) = rotate_client(&mut db, &mut links, &owner(), "a", "secret");
    assert_eq!(reply.status, 404);
    assert!(!close);
    let (reply, _) = rotate_client(&mut db, &mut links, &owner(), "a", "no");
    assert_eq!(reply.status, 403);
}

#[test]
fn revocation_ends_the_link_of_one_client() {
    let mut db = database();
    let mut links = Links::new();
    for (name, code) in [("a", "AAAAAAAA"), ("b", "BBBBBBBB")] {
        db.create_client_at(name, code, 500, 1).unwrap();
        links.let_in(name);
        links.establish(name, "id", environment());
    }
    assert!(!revoke_client_at(&mut db, &mut links, &owner(), "a", "no", 100).1);
    assert_eq!(links.count(), 2);
    let (reply, close) = revoke_client_at(&mut db, &mut links, &owner(), "a", "secret", 100);
    assert_eq!(reply.status, 303);
    assert!(close);
    assert!(!links.is_live("a"));
    assert!(links.is_live("b"));
    links.leave("a");
    let mut failures = Failures::new();
    let refused = link_at(&db, &mut links, &mut failures, &bearing("AAAAAAAA"), 200, 0);
    assert_eq!(refused.unwrap_err().status, 401);
}

#[test]
fn machines_are_let_in_once() {
    let mut db = database();
    db.create_client_at("a", "01123456", 500, 1).unwrap();
    let mut links = Links::new();
    let mut failures = Failures::new();
    let (name, code) =
        link_at(&db, &mut links, &mut failures, &bearing("oil23456"), 100, 0).unwrap();
    assert_eq!((name.as_str(), code.as_str()), ("a", "01123456"));
    let second = link_at(&db, &mut links, &mut failures, &bearing("01123456"), 100, 0);
    assert_eq!(second.unwrap_err().status, 409);
    links.establish("a", "id", environment());
    links.disestablish("a", "other");
    assert!(links.is_live("a"));
    links.disestablish("a", "id");
    assert!(!links.is_live("a"));
    links.leave("a");
    assert!(link_at(&db, &mut links, &mut failures, &bearing("01123456"), 100, 0).is_ok());
    links.leave("a");
    let late = link(&db, &mut links, &mut failures, &bearing("01123456"), 0);
    assert_eq!(late.unwrap_err().status, 401);
}

#[test]
fn five_failures_throttle_an_address() {
    let db = database();
    let mut links = Links::new();
    let mut failures = Failures::new();
    let second: u64 = 1_000_000_000;
    for n in 0..5 {
        let refused = link_at(&db, &mut links, &mut failures, &bearing("x"), 1, n * second);
        assert_eq!(refused.unwrap_err().status, 401);
    }
    let refused = link_at(&db, &mut links, &mut failures, &bearing("x"), 1, 60 * second);
    assert_eq!(refused.unwrap_err().status, 429);
    let elsewhere = Headers { forwarded_for: Some("10.0.0.1".to_string()), ..bearing("x") };
    let refused = link_at(&db, &mut links, &mut failures, &elsewhere, 1, 60 * second);
    assert_eq!(refused.unwrap_err().status, 401);
    let refused = link_at(&db, &mut links, &mut failures, &headers(), 1, 60 * second + 1);
    assert_eq!(refused.unwrap_err().status, 401);
    failures.forget("unix");
    assert!(!failures.throttled("unix", 0));
}

#[test]
fn replaces_stale_socket_and_rejects_active_listener() {
    let path = "/run/gateway.sock";
    let parent = start(path).unwrap();
    assert_eq!(parent, "/run");
    let run = |answers: bool, socket: bool| -> Result<Vec<Step>, String> {
        let mut steps: Vec<Step> = Vec::new();
        let mut step = Step::InspectParent;
        loop {
            steps.push(step);
            let outcome = match step {
                Step::Connect => if answers { Outcome::Yes } else { Outcome::No },
                Step::InspectSocket => if socket { Outcome::Yes } else { Outcome::No },
                _ => Outcome::Yes,
            };
            match advance(path, &parent, step, outcome) {
                Ok(Some(next)) => step = next,
                Ok(None) => return Ok(steps),
                Err(failure) => return Err(failure.chain()),
            }
        }
    };
    let steps = run(false, true).unwrap();
    assert!(steps.contains(&Step::Remove));
    assert!(steps.contains(&Step::SetMode(0o660)));
    assert_eq!(run(true, true).unwrap_err(), "gateway socket is already in use: /run/gateway.sock");
    assert_eq!(
        run(false, false).unwrap_err(),
        "gateway socket path is not a socket: /run/gateway.sock"
    );
    assert!(start("/").is_err());
}

fn session() -> Session {
    Session::open("a".to_string(), "01123456".to_string())
}

#[test]
fn links_live_and_end() {
    let mut db = database();
    db.create_client_at("a", "01123456", 500, 1).unwrap();
    let mut links = Links::new();
    assert!(links.let_in("a"));
    let mut link = session();
    link.introduce(Ok(Some(environment())));
    assert!(link.phase == Phase::Checking);
    link.recheck_at(&db, 100);
    assert!(link.phase == Phase::Binding);
    link.connect(&mut links, Ok(()));
    assert!(link.phase == Phase::Serving);
    assert_eq!(link.connection_id.len(), 43);
    assert!(links.is_live("a"));
    link.disconnect(&mut links, Ok(()));
    assert!(!links.is_live("a"));
    assert!(!links.let_in("a"));
    assert!(link.close(&mut links).is_none());
    assert!(links.let_in("a"));
}

#[test]
fn links_without_a_live_code_end_at_once() {
    let mut db = database();
    db.create_client_at("a", "01123456", 500, 1).unwrap();
    let mut links = Links::new();
    let mut silent = session();
    silent.introduce(Ok(None));
    assert_eq!(
        silent.close(&mut links).unwrap().chain(),
        "client did not report its system and shell"
    );
    let mut broken = session();
    broken.introduce(Err("eof".to_string()));
    assert_eq!(broken.close(&mut links).unwrap().chain(), "initialize client MCP: eof");
    let mut expired = session();
    expired.introduce(Ok(Some(environment())));
    expired.recheck_at(&db, 500);
    assert!(expired.phase == Phase::Over);
    assert!(expired.close(&mut links).is_none());
    let mut unbound = session();
    unbound.introduce(Ok(Some(environment())));
    unbound.recheck_at(&db, 100);
    unbound.connect_with(&mut links, Err(Failure::new("no".to_string())), "id".to_string());
    assert!(!links.is_live("a"));
    assert_eq!(unbound.close(&mut links).unwrap().chain(), "no");
    let mut lost = session();
    lost.introduce(Ok(Some(environment())));
    lost.recheck_at(&db, 100);
    lost.connect_with(&mut links, Ok(()), "id".to_string());
    lost.disconnect(&mut links, Err("panic".to_string()));
    assert!(!links.is_live("a"));
    assert_eq!(lost.close(&mut links).unwrap().chain(), "client MCP task: panic");
}

#[test]
fn credentials_have_one_role() {
    let mut db = granted(1_000);
    db.create_client_at("a", "01123456", 5_000, 1).unwrap();
    let credentials = basic_credentials(&basic());
    token_with(&mut db, &credentials, &token_form(), 1_100, "A".repeat(43), "R".repeat(43));
    let mut links = Links::new();
    let mut failures = Failures::new();
    let refused = link_at(&db, &mut links, &mut failures, &bearing(&"A".repeat(43)), 1_101, 0);
    assert_eq!(refused.unwrap_err().status, 401);
    assert!(mcp_auth_at(&db, &bearing("01123456"), 1_101).is_some());
    assert!(mcp_auth_at(&db, &owner(), 1_101).is_some());
    let refused = link_at(&db, &mut links, &mut failures, &owner(), 1_101, 0);
    assert_eq!(refused.unwrap_err().status, 401);
    let known = Headers { subject: Some("owner".to_string()), ..bearing(&"A".repeat(43)) };
    assert!(mcp_auth_at(&db, &known, 1_101).is_none());
    assert_eq!(token(&mut db, &owner(), &token_form()).status, 401);
    let stranger = Headers { subject: None, ..owner() };
    assert_eq!(extend_client_at(&mut db, &stranger, "a", 1, "secret", 1_101).status, 401);
}
