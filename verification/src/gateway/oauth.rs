//! How a controller is granted access and gets its tokens.
use vstd::prelude::*;

use crate::clock;
use crate::config::{PUBLIC_URL, RESOURCE_URL};
use crate::crypto;
use crate::db;
use crate::db::model;
use crate::db::model::Tables;
use crate::db::rows::{AuthCodeBinding, BindingModel, IssueModel, OAuthError, TokenIssue};
use crate::db::Database;
use crate::gateway;
use crate::gateway::html;
use crate::gateway::urls;
use crate::gateway::{Body, BodyModel, Headers, HeadersModel, Reply, ReplyModel};
use crate::text;
use crate::text::Text;

verus! {

// ---------------------------------------------------------------------------
// Scopes
// ---------------------------------------------------------------------------
/// Whether a request may ask for scopes: `control` has to be among them, and
/// only `offline_access` besides.
pub open spec fn scopes_acceptable(scope: Text) -> bool {
    &&& model::scope_named(scope, "control"@)
    &&& forall|word: Text| #[trigger]
        model::scope_named(scope, word) ==> word == "control"@ || word == "offline_access"@
}

/// The scopes of a request in their one form.
pub open spec fn canonical(scope: Text) -> Text {
    if model::scope_named(scope, "offline_access"@) {
        "control offline_access"@
    } else {
        "control"@
    }
}

fn ascii_space(c: char) -> (r: bool)
    ensures
        r == text::is_ascii_space(c),
{
    c == ' ' || c == '\t' || c == '\n' || c == '\u{c}' || c == '\r'
}

/// Whether every word that starts before `i` is a known scope.
spec fn known_before(s: Text, i: int) -> bool {
    forall|word: Text, j: int|
        j < i && word.len() > 0 && !text::is_ascii_space(word[0]) && (forall|k: int|
            0 <= k < word.len() ==> !text::is_ascii_space(#[trigger] word[k]))
            && #[trigger] model::word_at(s, word, j) ==> word == "control"@ || word
            == "offline_access"@
}

/// Two words that stand at one place are the same.
proof fn lemma_one_word(s: Text, a: Text, b: Text, i: int)
    requires
        model::word_at(s, a, i),
        model::word_at(s, b, i),
        forall|k: int| 0 <= k < a.len() ==> !text::is_ascii_space(#[trigger] a[k]),
        forall|k: int| 0 <= k < b.len() ==> !text::is_ascii_space(#[trigger] b[k]),
    ensures
        a == b,
{
    if a.len() < b.len() {
        assert(s.subrange(i, i + b.len())[a.len() as int] == b[a.len() as int]);
        assert(s[i + a.len()] == b[a.len() as int]);
    }
    if b.len() < a.len() {
        assert(s.subrange(i, i + a.len())[b.len() as int] == a[b.len() as int]);
        assert(s[i + b.len()] == a[b.len() as int]);
    }
    assert(a =~= b);
}

fn only_known(scope: &str) -> (r: bool)
    ensures
        r == (forall|word: Text| #[trigger]
            model::scope_named(scope@, word) ==> word == "control"@ || word == "offline_access"@),
{
    let s = text::chars_of(scope);
    let mut i: usize = 0;
    while i < s.len()
        invariant
            s@ == scope@,
            i <= s@.len(),
            known_before(s@, i as int),
            i == 0 || i == s@.len() || text::is_ascii_space(s@[i - 1]) || text::is_ascii_space(
                s@[i as int],
            ),
        decreases s@.len() - i,
    {
        if ascii_space(s[i]) {
            assert forall|word: Text, j: int|
                j < i + 1 && word.len() > 0 && !text::is_ascii_space(word[0]) && (forall|k: int|
                    0 <= k < word.len() ==> !text::is_ascii_space(#[trigger] word[k]))
                    && #[trigger] model::word_at(s@, word, j) implies word == "control"@ || word
                == "offline_access"@ by {
                if j == i {
                    assert(s@.subrange(j, j + word.len())[0] == word[0]);
                }
            }
            i = i + 1;
        } else {
            let mut end: usize = i;
            while end < s.len() && !ascii_space(s[end])
                invariant
                    i <= end <= s@.len(),
                    forall|k: int| i <= k < end ==> !text::is_ascii_space(#[trigger] s@[k]),
                decreases s@.len() - end,
            {
                end = end + 1;
            }
            let word = text::chars_between(&s, i, end);
            assert(word@ =~= s@.subrange(i as int, end as int));
            assert(model::word_at(s@, word@, i as int));
            assert forall|k: int| 0 <= k < word@.len() implies !text::is_ascii_space(
                #[trigger] word@[k],
            ) by {
                assert(word@[k] == s@[i + k]);
            }
            if !text::chars_are(&word, "control") && !text::chars_are(&word, "offline_access") {
                assert(model::scope_named(scope@, word@));
                return false;
            }
            assert forall|other: Text, j: int|
                j < end && other.len() > 0 && !text::is_ascii_space(other[0]) && (forall|k: int|
                    0 <= k < other.len() ==> !text::is_ascii_space(#[trigger] other[k]))
                    && #[trigger] model::word_at(s@, other, j) implies other == "control"@ || other
                == "offline_access"@ by {
                if j == i {
                    lemma_one_word(s@, other, word@, i as int);
                } else if j > i {
                    assert(!text::is_ascii_space(s@[j - 1]));
                }
            }
            i = end;
        }
    }
    assert forall|word: Text| #[trigger] model::scope_named(scope@, word) implies word
        == "control"@ || word == "offline_access"@ by {
        let j = choose|j: int| model::word_at(scope@, word, j);
        assert(model::word_at(s@, word, j));
        assert(!text::is_ascii_space(word[0]));
        assert(j < s@.len());
    }
    true
}

/// The scopes of a request in their one form, where they may be asked for.
pub fn canonical_scopes(value: &str) -> (r: Result<String, String>)
    ensures
        match r {
            Ok(scopes) => scopes_acceptable(value@) && scopes@ == canonical(value@),
            Err(message) => !scopes_acceptable(value@) && message@
                == "The request must use the control scope and may request offline_access."@,
        },
{
    if !db::scope_has(value, "control") || !only_known(value) {
        return Err(
            "The request must use the control scope and may request offline_access.".to_string(),
        );
    }
    if db::scope_has(value, "offline_access") {
        Ok("control offline_access".to_string())
    } else {
        Ok("control".to_string())
    }
}

// ---------------------------------------------------------------------------
// Authorization requests
// ---------------------------------------------------------------------------
/// A request for access.
#[derive(Debug, Clone)]
pub struct AuthorizeParams {
    pub response_type: String,
    pub client_id: String,
    pub redirect_uri: String,
    pub scope: String,
    pub resource: String,
    pub code_challenge: String,
    pub code_challenge_method: String,
    pub state: String,
}

/// The model of [`AuthorizeParams`].
pub struct AuthorizeModel {
    pub response_type: Text,
    pub client_id: Text,
    pub redirect_uri: Text,
    pub scope: Text,
    pub resource: Text,
    pub code_challenge: Text,
    pub code_challenge_method: Text,
    pub state: Text,
}

impl View for AuthorizeParams {
    type V = AuthorizeModel;

    open spec fn view(&self) -> AuthorizeModel {
        AuthorizeModel {
            response_type: self.response_type@,
            client_id: self.client_id@,
            redirect_uri: self.redirect_uri@,
            scope: self.scope@,
            resource: self.resource@,
            code_challenge: self.code_challenge@,
            code_challenge_method: self.code_challenge_method@,
            state: self.state@,
        }
    }
}

/// Whether a character may stand in a challenge.
pub open spec fn is_challenge_char(c: char) -> bool {
    text::is_alphanumeric(c) || c == '-' || c == '.' || c == '_' || c == '~'
}

/// Whether a text has the form of a challenge.
pub open spec fn challenge_shaped(s: Text) -> bool {
    s.len() == 43 && forall|i: int| 0 <= i < s.len() ==> is_challenge_char(#[trigger] s[i])
}

fn challenge_like(value: &str) -> (r: bool)
    ensures
        r == challenge_shaped(value@),
{
    let s = text::chars_of(value);
    if s.len() != 43 {
        return false;
    }
    for i in 0..s.len()
        invariant
            s@ == value@,
            forall|k: int| 0 <= k < i ==> is_challenge_char(#[trigger] s@[k]),
    {
        let c = s[i];
        let fine = ('0' <= c && c <= '9') || ('A' <= c && c <= 'Z') || ('a' <= c && c <= 'z') || c
            == '-' || c == '.' || c == '_' || c == '~';
        if !fine {
            assert(!is_challenge_char(value@[i as int]));
            return false;
        }
    }
    true
}

/// What is wrong with a request.
pub open spec fn request_problem(t: Tables, p: AuthorizeModel) -> Option<Text> {
    if p.response_type != "code"@ || p.code_challenge_method != "S256"@ || p.resource
        != RESOURCE_URL@ {
        Some("Unsupported response type, PKCE method, or resource."@)
    } else if p.state.len() == 0 || !challenge_shaped(p.code_challenge) {
        Some("State and a valid S256 PKCE challenge are required."@)
    } else if !scopes_acceptable(p.scope) {
        Some("The request must use the control scope and may request offline_access."@)
    } else if !t.oauth_clients.dom().contains(p.client_id) {
        Some("Unknown OAuth client."@)
    } else if t.oauth_clients[p.client_id].redirect_uri != p.redirect_uri {
        Some("The redirect URI is not registered for this client."@)
    } else {
        None
    }
}

/// Tells what is wrong with a request.
pub fn validate_authorize(db: &Database, query: &AuthorizeParams) -> (r: Result<(), String>)
    requires
        db.wf(),
    ensures
        match r {
            Ok(()) => request_problem(db@, query@) is None,
            Err(message) => request_problem(db@, query@) == Some(message@),
        },
{
    if !text::same(query.response_type.as_str(), "code") || !text::same(
        query.code_challenge_method.as_str(),
        "S256",
    ) || !text::same(query.resource.as_str(), RESOURCE_URL) {
        return Err("Unsupported response type, PKCE method, or resource.".to_string());
    }
    if text::chars_of(query.state.as_str()).len() == 0 || !challenge_like(
        query.code_challenge.as_str(),
    ) {
        return Err("State and a valid S256 PKCE challenge are required.".to_string());
    }
    if let Err(message) = canonical_scopes(query.scope.as_str()) {
        return Err(message);
    }
    match db.oauth_client(query.client_id.as_str()) {
        None => Err("Unknown OAuth client.".to_string()),
        Some(client) => {
            if text::same(client.redirect_uri.as_str(), query.redirect_uri.as_str()) {
                Ok(())
            } else {
                Err("The redirect URI is not registered for this client.".to_string())
            }
        },
    }
}

/// The request as values that a form carries along.
pub open spec fn hidden_request(p: AuthorizeModel) -> Text {
    html::hidden("response_type"@, p.response_type) + html::hidden("client_id"@, p.client_id)
        + html::hidden("redirect_uri"@, p.redirect_uri) + html::hidden("scope"@, p.scope)
        + html::hidden("resource"@, p.resource) + html::hidden("code_challenge"@, p.code_challenge)
        + html::hidden("code_challenge_method"@, p.code_challenge_method) + html::hidden(
        "state"@,
        p.state,
    )
}

/// The request as values that a form carries along.
pub fn oauth_hidden(params: &AuthorizeParams) -> (r: String)
    ensures
        r@ == hidden_request(params@),
{
    let mut s = html::hidden_input("response_type", params.response_type.as_str());
    s.append(html::hidden_input("client_id", params.client_id.as_str()).as_str());
    s.append(html::hidden_input("redirect_uri", params.redirect_uri.as_str()).as_str());
    s.append(html::hidden_input("scope", params.scope.as_str()).as_str());
    s.append(html::hidden_input("resource", params.resource.as_str()).as_str());
    s.append(html::hidden_input("code_challenge", params.code_challenge.as_str()).as_str());
    s.append(
        html::hidden_input("code_challenge_method", params.code_challenge_method.as_str()).as_str(),
    );
    s.append(html::hidden_input("state", params.state.as_str()).as_str());
    s
}

/// What a request for access is answered: the question whether to allow it, or
/// what is wrong with it. `fresh` is a token for the form, where the request
/// brings none.
pub open spec fn asked(
    t: Tables,
    headers: HeadersModel,
    p: AuthorizeModel,
    fresh: Text,
) -> ReplyModel {
    match gateway::subject_of(headers) {
        None => gateway::bare(401),
        Some(subject) => match request_problem(t, p) {
            Some(message) => html::error(400, "Invalid authorization request"@, message),
            None => {
                let (csrf, set_cookie) = gateway::csrf_of(headers, fresh);
                html::page(
                    "Controller authorization"@,
                    html::consent_text(
                        p.client_id,
                        subject,
                        model::scope_named(p.scope, "offline_access"@),
                        hidden_request(p),
                        csrf,
                    ),
                    set_cookie,
                )
            },
        },
    }
}

/// Answers a request for access, with a token for the form at hand.
pub fn authorize_with(
    db: &Database,
    headers: &Headers,
    query: &AuthorizeParams,
    fresh: String,
) -> (r: Reply)
    requires
        db.wf(),
    ensures
        r@ == asked(db@, headers@, query@, fresh@),
{
    let subject = match gateway::subject(headers) {
        None => {
            return gateway::status_only(401);
        },
        Some(subject) => subject,
    };
    if let Err(message) = validate_authorize(db, query) {
        return html::error_page(400, "Invalid authorization request", message.as_str());
    }
    let (csrf, set_cookie) = gateway::csrf_with(headers, fresh);
    let request = oauth_hidden(query);
    let offline = db::scope_has(query.scope.as_str(), "offline_access");
    let body = html::consent_body(
        query.client_id.as_str(),
        subject.as_str(),
        offline,
        request.as_str(),
        csrf.as_str(),
    );
    html::html_response("Controller authorization", body.as_str(), set_cookie)
}

/// Answers a request for access.
pub fn authorize(db: &Database, headers: &Headers, query: &AuthorizeParams) -> (r: Reply)
    requires
        db.wf(),
    ensures
        exists|fresh: Text|
            crypto::token_shaped(fresh) && r@ == #[trigger] asked(
                db@,
                headers@,
                query@,
                fresh,
            ),
{
    let fresh = crypto::random_token();
    authorize_with(db, headers, query, fresh)
}

// ---------------------------------------------------------------------------
// Consent
// ---------------------------------------------------------------------------
/// The answer of a person to a request.
#[derive(Debug)]
pub struct ConsentForm {
    pub oauth: AuthorizeParams,
    pub csrf: String,
    pub decision: String,
}

/// The model of [`ConsentForm`].
pub struct ConsentModel {
    pub oauth: AuthorizeModel,
    pub csrf: Text,
    pub decision: Text,
}

impl View for ConsentForm {
    type V = ConsentModel;

    open spec fn view(&self) -> ConsentModel {
        ConsentModel { oauth: self.oauth@, csrf: self.csrf@, decision: self.decision@ }
    }
}

/// What the code for a request is bound to.
pub open spec fn bound(subject: Text, p: AuthorizeModel) -> BindingModel {
    BindingModel {
        subject,
        client_id: p.client_id,
        redirect_uri: p.redirect_uri,
        resource: p.resource,
        scopes: canonical(p.scope),
        code_challenge: p.code_challenge,
    }
}

/// What the controller is told when access is denied.
pub open spec fn denial(state: Text) -> Seq<(Text, Text)> {
    seq![("error"@, "access_denied"@), ("state"@, state), ("iss"@, PUBLIC_URL@)]
}

/// What the controller is told when access is granted.
pub open spec fn approval(code: Text, state: Text) -> Seq<(Text, Text)> {
    seq![("code"@, code), ("state"@, state), ("iss"@, PUBLIC_URL@)]
}

/// What a decision does to the tables, and what the controller is told of it: a
/// grant and a code for it are recorded only where access is allowed.
pub open spec fn decided(
    t: Tables,
    subject: Text,
    form: ConsentModel,
    code: Text,
    now: i64,
) -> (Tables, Result<Seq<(Text, Text)>, ReplyModel>) {
    if form.decision != "allow"@ {
        (t, Ok(denial(form.oauth.state)))
    } else {
        match model::code_created(t, bound(subject, form.oauth), code, now) {
            Ok(next) => (next, Ok(approval(code, form.oauth.state))),
            Err(e) => (t, Err(html::error(500, "Authorization failed"@, e.words()))),
        }
    }
}

fn pair(name: &str, value: &str) -> (r: (String, String))
    ensures
        r.0@ == name@,
        r.1@ == value@,
{
    (name.to_string(), value.to_string())
}

fn three_pairs(a: (String, String), b: (String, String), c: (String, String)) -> (r: Vec<
    (String, String),
>)
    ensures
        urls::pair_views(r@) == seq![(a.0@, a.1@), (b.0@, b.1@), (c.0@, c.1@)],
        r@.len() == 3,
{
    let ghost views = seq![(a.0@, a.1@), (b.0@, b.1@), (c.0@, c.1@)];
    let mut r: Vec<(String, String)> = Vec::new();
    r.push(a);
    r.push(b);
    r.push(c);
    assert(urls::pair_views(r@) =~= views);
    r
}

/// Carries out a decision on a sound request.
pub fn decide(db: &mut Database, subject: &str, form: &ConsentForm, code: &str, now: i64) -> (r:
    Result<Vec<(String, String)>, Reply>)
    requires
        old(db).wf(),
        clock::readable(now),
        scopes_acceptable(form.oauth.scope@),
    ensures
        final(db).wf(),
        final(db)@ == decided(old(db)@, subject@, form@, code@, now).0,
        match r {
            Ok(pairs) => decided(old(db)@, subject@, form@, code@, now).1 == Ok::<
                Seq<(Text, Text)>,
                ReplyModel,
            >(urls::pair_views(pairs@)) && pairs@.len() == 3,
            Err(reply) => decided(old(db)@, subject@, form@, code@, now).1 == Err::<
                Seq<(Text, Text)>,
                ReplyModel,
            >(reply@),
        },
{
    let state = form.oauth.state.as_str();
    if !text::same(form.decision.as_str(), "allow") {
        return Ok(
            three_pairs(
                pair("error", "access_denied"),
                pair("state", state),
                pair("iss", PUBLIC_URL),
            ),
        );
    }
    let scopes = match canonical_scopes(form.oauth.scope.as_str()) {
        Ok(scopes) => scopes,
        Err(message) => message,
    };
    let binding = AuthCodeBinding {
        subject: subject.to_string(),
        client_id: form.oauth.client_id.clone(),
        redirect_uri: form.oauth.redirect_uri.clone(),
        resource: form.oauth.resource.clone(),
        scopes,
        code_challenge: form.oauth.code_challenge.clone(),
    };
    assert(binding@ == bound(subject@, form@.oauth));
    match db.create_authorization_code_with(&binding, code, now) {
        Ok(()) => Ok(three_pairs(pair("code", code), pair("state", state), pair("iss", PUBLIC_URL))),
        Err(e) => Err(html::error_page(500, "Authorization failed", e.message().as_str())),
    }
}

/// What the answer to a request does to the tables and what it is answered: the
/// browser is led to the redirect URI of the controller with what it is told, or
/// shown what is wrong. Nothing where the registered redirect URI is no URL.
pub open spec fn consented(
    t: Tables,
    headers: HeadersModel,
    form: ConsentModel,
    code: Text,
    now: i64,
) -> Option<(Tables, ReplyModel)> {
    match gateway::subject_of(headers) {
        None => Some((t, gateway::bare(401))),
        Some(subject) => if !gateway::csrf_matches(headers, form.csrf) {
            Some(
                (
                    t,
                    html::error(
                        403,
                        "Request rejected"@,
                        "The form expired. Return to the authorization request and try again."@,
                    ),
                ),
            )
        } else {
            match request_problem(t, form.oauth) {
                Some(message) => Some(
                    (t, html::error(400, "Invalid authorization request"@, message)),
                ),
                None => if !urls::is_url(form.oauth.redirect_uri) {
                    None
                } else {
                    let (next, told) = decided(t, subject, form, code, now);
                    Some(
                        (
                            next,
                            match told {
                                Ok(pairs) => gateway::redirected(
                                    urls::with_pairs(form.oauth.redirect_uri, pairs),
                                ),
                                Err(reply) => reply,
                            },
                        ),
                    )
                },
            }
        },
    }
}

/// The most characters of a redirect URI and a state together that are answered.
pub const LONGEST_REQUEST: usize = 0x0fff_0000;

/// Answers a person's answer to a request, with a code at hand and at a given
/// time.
pub fn authorize_consent_with(
    db: &mut Database,
    headers: &Headers,
    form: &ConsentForm,
    code: &str,
    now: i64,
) -> (r: Option<Reply>)
    requires
        old(db).wf(),
        clock::readable(now),
        crypto::token_shaped(code@),
        form.oauth.redirect_uri@.len() + form.oauth.state@.len() <= LONGEST_REQUEST,
    ensures
        final(db).wf(),
        match r {
            Some(reply) => consented(old(db)@, headers@, form@, code@, now) == Some(
                (final(db)@, reply@),
            ),
            None => consented(old(db)@, headers@, form@, code@, now) == None::<
                (Tables, ReplyModel),
            > && final(db)@ == old(db)@,
        },
{
    let subject = match gateway::subject(headers) {
        None => {
            return Some(gateway::status_only(401));
        },
        Some(subject) => subject,
    };
    if !gateway::check_csrf(headers, form.csrf.as_str()) {
        return Some(
            html::error_page(
                403,
                "Request rejected",
                "The form expired. Return to the authorization request and try again.",
            ),
        );
    }
    if let Err(message) = validate_authorize(db, &form.oauth) {
        return Some(html::error_page(400, "Invalid authorization request", message.as_str()));
    }
    if !urls::parses(form.oauth.redirect_uri.as_str()) {
        return None;
    }
    match decide(db, subject.as_str(), form, code, now) {
        Err(reply) => Some(reply),
        Ok(pairs) => {
            proof {
                let views = urls::pair_views(pairs@);
                reveal_strlit("error");
                reveal_strlit("access_denied");
                reveal_strlit("state");
                reveal_strlit("iss");
                reveal_strlit("code");
                reveal_strlit("https://connector.ylxdzsw.com");
                reveal_with_fuel(urls::weight, 4);
                assert(views.drop_last() =~= seq![views[0], views[1]]);
                assert(views.drop_last().drop_last() =~= seq![views[0]]);
                assert(views.drop_last().drop_last().drop_last() =~= seq![]);
            }
            let to = urls::append_pairs(form.oauth.redirect_uri.as_str(), &pairs);
            Some(gateway::redirect(to))
        },
    }
}

/// Answers a person's answer to a request.
pub fn authorize_consent(db: &mut Database, headers: &Headers, form: &ConsentForm) -> (r: Option<
    Reply,
>)
    requires
        old(db).wf(),
        form.oauth.redirect_uri@.len() + form.oauth.state@.len() <= LONGEST_REQUEST,
    ensures
        final(db).wf(),
        exists|code: Text, now: i64|
            crypto::token_shaped(code) && clock::readable(now) && match r {
                Some(reply) => #[trigger] consented(old(db)@, headers@, form@, code, now) == Some(
                    (final(db)@, reply@),
                ),
                None => consented(old(db)@, headers@, form@, code, now) == None::<
                    (Tables, ReplyModel),
                > && final(db)@ == old(db)@,
            },
{
    let code = crypto::random_token();
    let now = clock::now();
    authorize_consent_with(db, headers, form, code.as_str(), now)
}

// ---------------------------------------------------------------------------
// Tokens
// ---------------------------------------------------------------------------
/// A request for tokens.
#[derive(Debug)]
pub struct TokenForm {
    pub grant_type: String,
    pub code: Option<String>,
    pub redirect_uri: Option<String>,
    pub resource: Option<String>,
    pub code_verifier: Option<String>,
    pub refresh_token: Option<String>,
}

/// The model of [`TokenForm`].
pub struct TokenFormModel {
    pub grant_type: Text,
    pub code: Option<Text>,
    pub redirect_uri: Option<Text>,
    pub resource: Option<Text>,
    pub code_verifier: Option<Text>,
    pub refresh_token: Option<Text>,
}

impl View for TokenForm {
    type V = TokenFormModel;

    open spec fn view(&self) -> TokenFormModel {
        TokenFormModel {
            grant_type: self.grant_type@,
            code: text::opt_text(self.code),
            redirect_uri: text::opt_text(self.redirect_uri),
            resource: text::opt_text(self.resource),
            code_verifier: text::opt_text(self.code_verifier),
            refresh_token: text::opt_text(self.refresh_token),
        }
    }
}

/// What is wrong with the credentials of a request.
pub open spec fn unauthentic(t: Tables, credentials: Option<(Text, Text)>) -> Option<ReplyModel> {
    match credentials {
        None => Some(
            gateway::problem(
                401,
                "invalid_client"@,
                "HTTP Basic client authentication is required"@,
            ),
        ),
        Some((client_id, secret)) => if model::authentic(t, client_id, secret) {
            None
        } else {
            Some(gateway::problem(401, "invalid_client"@, "Client authentication failed"@))
        },
    }
}

/// What a refused exchange is answered.
pub open spec fn refusal(error: OAuthError) -> ReplyModel {
    match error {
        OAuthError::InvalidRequest => gateway::problem(
            400,
            "invalid_request"@,
            "Required token parameters are missing"@,
        ),
        OAuthError::InvalidGrant => gateway::problem(
            400,
            "invalid_grant"@,
            "The grant is invalid, expired, consumed, or revoked"@,
        ),
        OAuthError::InvalidClient => gateway::problem(
            503,
            "temporarily_unavailable"@,
            "Authorization storage is unavailable"@,
        ),
        OAuthError::Storage => gateway::problem(
            503,
            "temporarily_unavailable"@,
            "Authorization storage is unavailable"@,
        ),
    }
}

/// What an exchange is answered.
pub open spec fn exchange_reply(issue: Result<IssueModel, OAuthError>) -> ReplyModel {
    match issue {
        Ok(issue) => gateway::unkept(gateway::answered(200, BodyModel::Tokens(issue))),
        Err(error) => refusal(error),
    }
}

/// What an exchange does to the tables and what it yields.
pub open spec fn exchange(
    t: Tables,
    client_id: Text,
    form: TokenFormModel,
    now: i64,
    access: Text,
    refresh: Text,
) -> (Tables, Result<IssueModel, OAuthError>) {
    if form.grant_type == "authorization_code"@ {
        match (form.code, form.redirect_uri, form.code_verifier) {
            (Some(code), Some(redirect_uri), Some(verifier)) => match model::exchanged(
                t,
                code,
                client_id,
                redirect_uri,
                RESOURCE_URL@,
                verifier,
                now,
                access,
                refresh,
            ) {
                Ok((next, issue)) => (next, Ok(issue)),
                Err(error) => (t, Err(error)),
            },
            _ => (t, Err(OAuthError::InvalidRequest)),
        }
    } else {
        match form.refresh_token {
            Some(token) => model::refreshed(
                t,
                token,
                client_id,
                RESOURCE_URL@,
                now,
                access,
                refresh,
            ),
            None => (t, Err(OAuthError::InvalidRequest)),
        }
    }
}

/// What a request for tokens does to the tables and what it is answered:
/// credentials first, then the resource, then the kind of grant.
pub open spec fn token_answered(
    t: Tables,
    credentials: Option<(Text, Text)>,
    form: TokenFormModel,
    now: i64,
    access: Text,
    refresh: Text,
) -> (Tables, ReplyModel) {
    match unauthentic(t, credentials) {
        Some(reply) => (t, reply),
        None => if form.resource != Some(RESOURCE_URL@) {
            (t, gateway::problem(400, "invalid_target"@, "The Connector resource is required"@))
        } else if form.grant_type != "authorization_code"@ && form.grant_type != "refresh_token"@ {
            (t, gateway::problem(400, "unsupported_grant_type"@, "Unsupported grant type"@))
        } else {
            let (next, issue) = exchange(t, (credentials->0).0, form, now, access, refresh);
            (next, exchange_reply(issue))
        },
    }
}

/// Tells what is wrong with the credentials of a request.
pub fn check_client(db: &Database, credentials: &Option<(String, String)>) -> (r: Option<Reply>)
    requires
        db.wf(),
    ensures
        match r {
            Some(reply) => unauthentic(db@, gateway::pair_view(*credentials)) == Some(reply@),
            None => unauthentic(db@, gateway::pair_view(*credentials)) == None::<ReplyModel>,
        },
{
    match credentials {
        None => Some(
            gateway::oauth_error(
                401,
                "invalid_client",
                "HTTP Basic client authentication is required",
            ),
        ),
        Some((client_id, secret)) => {
            if db.authenticate_oauth_client(client_id.as_str(), secret.as_str()).is_some() {
                None
            } else {
                Some(gateway::oauth_error(401, "invalid_client", "Client authentication failed"))
            }
        },
    }
}

fn refuse(error: OAuthError) -> (r: Reply)
    ensures
        r@ == refusal(error),
{
    match error {
        OAuthError::InvalidRequest => gateway::oauth_error(
            400,
            "invalid_request",
            "Required token parameters are missing",
        ),
        OAuthError::InvalidGrant => gateway::oauth_error(
            400,
            "invalid_grant",
            "The grant is invalid, expired, consumed, or revoked",
        ),
        _ => gateway::oauth_error(
            503,
            "temporarily_unavailable",
            "Authorization storage is unavailable",
        ),
    }
}

fn exchange_with(
    db: &mut Database,
    client_id: &str,
    form: &TokenForm,
    now: i64,
    access: String,
    refresh: String,
) -> (r: Result<TokenIssue, OAuthError>)
    requires
        old(db).wf(),
        clock::readable(now),
    ensures
        final(db).wf(),
        match r {
            Ok(issue) => exchange(old(db)@, client_id@, form@, now, access@, refresh@) == (
                final(db)@,
                Ok::<IssueModel, OAuthError>(issue@),
            ),
            Err(e) => exchange(old(db)@, client_id@, form@, now, access@, refresh@) == (
                final(db)@,
                Err::<IssueModel, OAuthError>(e),
            ),
        },
{
    if text::same(form.grant_type.as_str(), "authorization_code") {
        match (&form.code, &form.redirect_uri, &form.code_verifier) {
            (Some(code), Some(redirect_uri), Some(verifier)) => db.exchange_authorization_code_with(
                code.as_str(),
                client_id,
                redirect_uri.as_str(),
                RESOURCE_URL,
                verifier.as_str(),
                now,
                access,
                refresh,
            ),
            _ => Err(OAuthError::InvalidRequest),
        }
    } else {
        match &form.refresh_token {
            Some(token) => db.rotate_refresh_token_with(
                token.as_str(),
                client_id,
                RESOURCE_URL,
                now,
                access,
                refresh,
            ),
            None => Err(OAuthError::InvalidRequest),
        }
    }
}

/// Answers a request for tokens, with the credentials that came with it, tokens
/// at hand and at a given time.
pub fn token_with(
    db: &mut Database,
    credentials: &Option<(String, String)>,
    form: &TokenForm,
    now: i64,
    access: String,
    refresh: String,
) -> (r: Reply)
    requires
        old(db).wf(),
        clock::readable(now),
    ensures
        final(db).wf(),
        (final(db)@, r@) == token_answered(
            old(db)@,
            gateway::pair_view(*credentials),
            form@,
            now,
            access@,
            refresh@,
        ),
{
    if let Some(reply) = check_client(db, credentials) {
        return reply;
    }
    let wanted = match &form.resource {
        Some(resource) => text::same(resource.as_str(), RESOURCE_URL),
        None => false,
    };
    if !wanted {
        return gateway::oauth_error(400, "invalid_target", "The Connector resource is required");
    }
    if !text::same(form.grant_type.as_str(), "authorization_code") && !text::same(
        form.grant_type.as_str(),
        "refresh_token",
    ) {
        return gateway::oauth_error(400, "unsupported_grant_type", "Unsupported grant type");
    }
    match credentials {
        None => gateway::oauth_error(
            401,
            "invalid_client",
            "HTTP Basic client authentication is required",
        ),
        Some((client_id, _)) => match exchange_with(
            db,
            client_id.as_str(),
            form,
            now,
            access,
            refresh,
        ) {
            Ok(issue) => gateway::no_store(gateway::reply(200, Body::Tokens(issue))),
            Err(error) => refuse(error),
        },
    }
}

/// Answers a request for tokens.
pub fn token(db: &mut Database, headers: &Headers, form: &TokenForm) -> (r: Reply)
    requires
        old(db).wf(),
    ensures
        final(db).wf(),
        exists|now: i64, access: Text, refresh: Text|
            clock::readable(now) && crypto::token_shaped(access) && crypto::token_shaped(refresh)
                && (final(db)@, r@) == #[trigger] token_answered(
                old(db)@,
                gateway::credentials_of(headers@),
                form@,
                now,
                access,
                refresh,
            ),
{
    let credentials = gateway::basic_credentials(headers);
    let access = crypto::random_token();
    let refresh = crypto::random_token();
    let now = clock::now();
    token_with(db, &credentials, form, now, access, refresh)
}

/// What the return of a token does to the tables and what it is answered: the
/// same whether or not there was such a token.
pub open spec fn revocation_answered(
    t: Tables,
    credentials: Option<(Text, Text)>,
    token: Text,
    now: i64,
) -> (Tables, ReplyModel) {
    match unauthentic(t, credentials) {
        Some(reply) => (t, reply),
        None => (
            model::token_revoked(t, token, (credentials->0).0, now),
            gateway::unkept(gateway::bare(200)),
        ),
    }
}

/// Answers the return of a token, with the credentials that came with it and at
/// a given time.
pub fn revoke_token_with(
    db: &mut Database,
    credentials: &Option<(String, String)>,
    token: &str,
    now: i64,
) -> (r: Reply)
    requires
        old(db).wf(),
    ensures
        final(db).wf(),
        (final(db)@, r@) == revocation_answered(
            old(db)@,
            gateway::pair_view(*credentials),
            token@,
            now,
        ),
{
    if let Some(reply) = check_client(db, credentials) {
        return reply;
    }
    if let Some((client_id, _)) = credentials {
        db.revoke_token_at(token, client_id.as_str(), now);
    }
    gateway::no_store(gateway::status_only(200))
}

/// Answers the return of a token.
pub fn revoke_token(db: &mut Database, headers: &Headers, token: &str) -> (r: Reply)
    requires
        old(db).wf(),
    ensures
        final(db).wf(),
        exists|now: i64|
            clock::readable(now) && (final(db)@, r@) == #[trigger] revocation_answered(
                old(db)@,
                gateway::credentials_of(headers@),
                token@,
                now,
            ),
{
    let credentials = gateway::basic_credentials(headers);
    let now = clock::now();
    revoke_token_with(db, &credentials, token, now)
}

// ---------------------------------------------------------------------------
// Controllers
// ---------------------------------------------------------------------------
/// Whether a request may use the tools: it bears an access token for them.
pub open spec fn controls(t: Tables, headers: HeadersModel, now: i64) -> bool {
    match gateway::bearer_of(headers) {
        Some(token) => model::access_valid(t, token, RESOURCE_URL@, "control"@, now),
        None => false,
    }
}

/// What a request without an access token is answered: where to get one.
pub open spec fn challenged() -> ReplyModel {
    ReplyModel {
        challenge: Some(
            "Bearer resource_metadata=\""@ + PUBLIC_URL@
                + "/.well-known/oauth-protected-resource\", scope=\"control\""@,
        ),
        ..gateway::answered(401, BodyModel::Plain("OAuth access token required"@))
    }
}

/// Lets a request with an access token pass at a given time, and answers any
/// other.
pub fn mcp_auth_at(db: &Database, headers: &Headers, now: i64) -> (r: Option<Reply>)
    requires
        db.wf(),
    ensures
        match r {
            None => controls(db@, headers@, now),
            Some(reply) => !controls(db@, headers@, now) && reply@ == challenged(),
        },
{
    if let Some(token) = gateway::bearer(headers) {
        if db.validate_access_token_at(token.as_str(), RESOURCE_URL, "control", now) {
            return None;
        }
    }
    let mut challenge = "Bearer resource_metadata=\"".to_string();
    challenge.append(PUBLIC_URL);
    challenge.append("/.well-known/oauth-protected-resource\", scope=\"control\"");
    let mut reply = gateway::reply(401, Body::Plain("OAuth access token required".to_string()));
    reply.challenge = Some(challenge);
    Some(reply)
}

/// Lets a request with an access token pass, and answers any other.
pub fn mcp_auth(db: &Database, headers: &Headers) -> (r: Option<Reply>)
    requires
        db.wf(),
    ensures
        exists|now: i64|
            clock::readable(now) && match r {
                None => #[trigger] controls(db@, headers@, now),
                Some(reply) => !controls(db@, headers@, now) && reply@ == challenged(),
            },
{
    let now = clock::now();
    mcp_auth_at(db, headers, now)
}

// ---------------------------------------------------------------------------
// Discovery
// ---------------------------------------------------------------------------
/// What a controller learns of the tools.
#[derive(Debug)]
pub struct ProtectedResourceMetadata {
    pub resource: String,
    pub authorization_servers: Vec<String>,
    pub scopes_supported: Vec<String>,
}

/// What a controller learns of the way to tokens.
#[derive(Debug)]
pub struct AuthorizationServerMetadata {
    pub issuer: String,
    pub authorization_endpoint: String,
    pub token_endpoint: String,
    pub revocation_endpoint: String,
    pub response_types_supported: Vec<String>,
    pub grant_types_supported: Vec<String>,
    pub code_challenge_methods_supported: Vec<String>,
    pub token_endpoint_auth_methods_supported: Vec<String>,
    pub scopes_supported: Vec<String>,
    pub authorization_response_iss_parameter_supported: bool,
}

fn one(a: &str) -> (r: Vec<String>)
    ensures
        text::strings(r@) == seq![a@],
{
    let mut r: Vec<String> = Vec::new();
    r.push(a.to_string());
    assert(text::strings(r@) =~= seq![a@]);
    r
}

fn two(a: &str, b: &str) -> (r: Vec<String>)
    ensures
        text::strings(r@) == seq![a@, b@],
{
    let mut r: Vec<String> = Vec::new();
    r.push(a.to_string());
    r.push(b.to_string());
    assert(text::strings(r@) =~= seq![a@, b@]);
    r
}

fn joined(base: &str, path: &str) -> (r: String)
    ensures
        r@ == base@ + path@,
{
    let mut r = base.to_string();
    r.append(path);
    r
}

/// What a controller learns of the tools.
pub fn protected_resource_metadata() -> (r: ProtectedResourceMetadata)
    ensures
        r.resource@ == RESOURCE_URL@,
        text::strings(r.authorization_servers@) == seq![PUBLIC_URL@],
        text::strings(r.scopes_supported@) == seq!["control"@],
{
    ProtectedResourceMetadata {
        resource: RESOURCE_URL.to_string(),
        authorization_servers: one(PUBLIC_URL),
        scopes_supported: one("control"),
    }
}

/// What a controller learns of the way to tokens.
pub fn authorization_server_metadata() -> (r: AuthorizationServerMetadata)
    ensures
        r.issuer@ == PUBLIC_URL@,
        r.authorization_endpoint@ == PUBLIC_URL@ + "/oauth/authorize"@,
        r.token_endpoint@ == PUBLIC_URL@ + "/oauth/token"@,
        r.revocation_endpoint@ == PUBLIC_URL@ + "/oauth/revoke"@,
        text::strings(r.response_types_supported@) == seq!["code"@],
        text::strings(r.grant_types_supported@) == seq!["authorization_code"@, "refresh_token"@],
        text::strings(r.code_challenge_methods_supported@) == seq!["S256"@],
        text::strings(r.token_endpoint_auth_methods_supported@) == seq!["client_secret_basic"@],
        text::strings(r.scopes_supported@) == seq!["control"@, "offline_access"@],
        r.authorization_response_iss_parameter_supported,
{
    AuthorizationServerMetadata {
        issuer: PUBLIC_URL.to_string(),
        authorization_endpoint: joined(PUBLIC_URL, "/oauth/authorize"),
        token_endpoint: joined(PUBLIC_URL, "/oauth/token"),
        revocation_endpoint: joined(PUBLIC_URL, "/oauth/revoke"),
        response_types_supported: one("code"),
        grant_types_supported: two("authorization_code", "refresh_token"),
        code_challenge_methods_supported: one("S256"),
        token_endpoint_auth_methods_supported: one("client_secret_basic"),
        scopes_supported: two("control", "offline_access"),
        authorization_response_iss_parameter_supported: true,
    }
}

} // verus!
