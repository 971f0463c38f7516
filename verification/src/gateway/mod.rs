//! The gateway: who may do what with it, and what every request is answered.
use vstd::prelude::*;
use vstd::string::StrSliceExecFns;

use crate::config::PUBLIC_URL;
use crate::crypto;
use crate::db::rows::{IssueModel, TokenIssue};
use crate::text;
use crate::text::Text;

pub mod admission;
pub mod html;
pub mod laws;
pub mod links;
pub mod listener;
pub mod manage;
pub mod oauth;
pub mod pages;
pub mod requests;
pub mod session;
pub mod urls;

verus! {

// ---------------------------------------------------------------------------
// Requests
// ---------------------------------------------------------------------------
/// The headers of a request that count, each where it is there and readable.
#[derive(Debug)]
pub struct Headers {
    pub authorization: Option<String>,
    pub cookie: Option<String>,
    pub subject: Option<String>,
    pub forwarded_for: Option<String>,
}

/// The model of [`Headers`].
pub struct HeadersModel {
    pub authorization: Option<Text>,
    pub cookie: Option<Text>,
    pub subject: Option<Text>,
    pub forwarded_for: Option<Text>,
}

impl View for Headers {
    type V = HeadersModel;

    open spec fn view(&self) -> HeadersModel {
        HeadersModel {
            authorization: text::opt_text(self.authorization),
            cookie: text::opt_text(self.cookie),
            subject: text::opt_text(self.subject),
            forwarded_for: text::opt_text(self.forwarded_for),
        }
    }
}

/// The person that the proxy vouches for.
pub open spec fn subject_of(headers: HeadersModel) -> Option<Text> {
    match headers.subject {
        Some(s) => if s.len() > 0 {
            Some(s)
        } else {
            None
        },
        None => None,
    }
}

/// The person that the proxy vouches for.
pub fn subject(headers: &Headers) -> (r: Option<String>)
    ensures
        text::opt_text(r) == subject_of(headers@),
{
    match &headers.subject {
        Some(s) => {
            if text::chars_of(s.as_str()).len() > 0 {
                Some(s.clone())
            } else {
                None
            }
        },
        None => None,
    }
}

/// What follows a scheme in the authorization header.
pub open spec fn after_scheme(headers: HeadersModel, scheme: Text) -> Option<Text> {
    match headers.authorization {
        Some(value) => text::after_prefix(value, scheme),
        None => None,
    }
}

fn authorization_after(headers: &Headers, scheme: &str) -> (r: Option<String>)
    ensures
        text::opt_text(r) == after_scheme(headers@, scheme@),
{
    match &headers.authorization {
        Some(value) => match text::strip_prefix(&text::chars_of(value.as_str()), scheme) {
            Some(rest) => Some(text::string_of(&rest)),
            None => None,
        },
        None => None,
    }
}

/// The bearer credential of a request.
pub open spec fn bearer_of(headers: HeadersModel) -> Option<Text> {
    match after_scheme(headers, "Bearer "@) {
        Some(value) => if value.len() > 0 {
            Some(value)
        } else {
            None
        },
        None => None,
    }
}

/// The bearer credential of a request.
pub fn bearer(headers: &Headers) -> (r: Option<String>)
    ensures
        text::opt_text(r) == bearer_of(headers@),
{
    match authorization_after(headers, "Bearer ") {
        Some(value) => {
            if text::chars_of(value.as_str()).len() > 0 {
                Some(value)
            } else {
                None
            }
        },
        None => None,
    }
}

/// `String::from_utf8`: the text that bytes spell, where they are UTF-8.
#[verifier::external_body]
fn text_from_utf8(bytes: Vec<u8>) -> (r: Option<String>)
    ensures
        match r {
            Some(s) => vstd::utf8::valid_utf8(bytes@) && s@ == vstd::utf8::decode_utf8(bytes@),
            None => !vstd::utf8::valid_utf8(bytes@),
        },
{
    String::from_utf8(bytes).ok()
}

/// The name and the secret that bytes spell: what stands before and after the
/// first colon.
pub open spec fn split_of(bytes: Seq<u8>) -> Option<(Text, Text)> {
    if vstd::utf8::valid_utf8(bytes) {
        let s = vstd::utf8::decode_utf8(bytes);
        let i = text::first_index(s, ':');
        if i < s.len() {
            Some((s.take(i), s.skip(i + 1)))
        } else {
            None
        }
    } else {
        None
    }
}

pub open spec fn pair_view(p: Option<(String, String)>) -> Option<(Text, Text)> {
    match p {
        Some((a, b)) => Some((a@, b@)),
        None => None,
    }
}

/// The name and the secret that decoded credentials spell.
pub fn split_credentials(bytes: Vec<u8>) -> (r: Option<(String, String)>)
    ensures
        pair_view(r) == split_of(bytes@),
{
    let decoded = match text_from_utf8(bytes) {
        Some(s) => s,
        None => {
            return None;
        },
    };
    let chars = text::chars_of(decoded.as_str());
    for i in 0..chars.len()
        invariant
            chars@ == vstd::utf8::decode_utf8(bytes@),
            vstd::utf8::valid_utf8(bytes@),
            forall|k: int| 0 <= k < i ==> chars@[k] != ':',
    {
        if chars[i] == ':' {
            proof {
                text::lemma_first_index(chars@, ':', i as int);
            }
            let id = text::string_between(&chars, 0, i);
            let secret = text::string_between(&chars, i + 1, chars.len());
            assert(id@ =~= chars@.take(i as int));
            assert(secret@ =~= chars@.skip(i + 1));
            return Some((id, secret));
        }
    }
    proof {
        text::lemma_first_index_bounds(chars@, ':');
    }
    None
}

/// The name and the secret of an OAuth client in a request.
pub open spec fn credentials_of(headers: HeadersModel) -> Option<(Text, Text)> {
    match after_scheme(headers, "Basic "@) {
        Some(encoded) => match crypto::base64_decoded(encoded) {
            Some(bytes) => split_of(bytes),
            None => None,
        },
        None => None,
    }
}

/// The name and the secret of an OAuth client in a request. What a client
/// encodes comes out as it was put in, unless the name holds a colon.
pub fn basic_credentials(headers: &Headers) -> (r: Option<(String, String)>)
    ensures
        pair_view(r) == credentials_of(headers@),
        forall|id: Text, secret: Text|
            after_scheme(headers@, "Basic "@) == Some(
                #[trigger] crypto::base64_padded(vstd::utf8::encode_utf8(id + ":"@ + secret)),
            ) && !id.contains(':') ==> pair_view(r) == Some((id, secret)),
{
    let encoded = match authorization_after(headers, "Basic ") {
        Some(e) => e,
        None => {
            return None;
        },
    };
    let bytes = match crypto::decode_standard(encoded.as_str()) {
        Some(b) => b,
        None => {
            return None;
        },
    };
    let r = split_credentials(bytes);
    assert forall|id: Text, secret: Text|
        after_scheme(headers@, "Basic "@) == Some(
            #[trigger] crypto::base64_padded(vstd::utf8::encode_utf8(id + ":"@ + secret)),
        ) && !id.contains(':') implies pair_view(r) == Some((id, secret)) by {
        let s = id + ":"@ + secret;
        let raw = vstd::utf8::encode_utf8(s);
        reveal_strlit(":");
        crypto::encodings_lead_back(raw, raw, false);
        assert(bytes@ == raw);
        vstd::utf8::encode_utf8_valid_utf8(s);
        vstd::utf8::encode_utf8_decode_utf8(s);
        assert forall|k: int| 0 <= k < id.len() implies s[k] != ':' by {
            assert(id.contains(id[k]));
        }
        assert(s[id.len() as int] == ':');
        text::lemma_first_index(s, ':', id.len() as int);
        assert(s.take(id.len() as int) =~= id);
        assert(s.skip(id.len() as int + 1) =~= secret);
    }
    r
}

/// The value of a cookie among the items of the header from number `i` on.
pub open spec fn cookie_from(items: Seq<Text>, name: Text, i: int) -> Option<Text>
    decreases items.len() - i,
{
    if i < 0 || i >= items.len() {
        None
    } else {
        match text::after_prefix(text::trim(items[i]), name + "="@) {
            Some(value) => Some(value),
            None => cookie_from(items, name, i + 1),
        }
    }
}

/// The value of a cookie.
pub open spec fn cookie_of(headers: HeadersModel, name: Text) -> Option<Text> {
    match headers.cookie {
        Some(value) => cookie_from(text::split(value, ';'), name, 0),
        None => None,
    }
}

/// The value of a cookie.
pub fn cookie(headers: &Headers, name: &str) -> (r: Option<String>)
    ensures
        text::opt_text(r) == cookie_of(headers@, name@),
{
    let value = match &headers.cookie {
        Some(v) => v,
        None => {
            return None;
        },
    };
    let mut wanted = name.to_string();
    wanted.append("=");
    let items = text::split_chars(&text::chars_of(value.as_str()), ';');
    let ghost models = text::texts(items@);
    let ghost whole = cookie_from(models, name@, 0);
    let mut i: usize = 0;
    while i < items.len()
        invariant
            models == text::texts(items@),
            wanted@ == name@ + "="@,
            i <= items@.len(),
            whole == cookie_of(headers@, name@),
            whole == cookie_from(models, name@, i as int),
        decreases items@.len() - i,
    {
        assert(models[i as int] == items@[i as int]@);
        let item = text::trim_chars(&items[i]);
        if let Some(rest) = text::strip_prefix(&item, wanted.as_str()) {
            return Some(text::string_of(&rest));
        }
        i = i + 1;
    }
    None
}

/// The address that a request came from, as far as the proxy tells.
pub open spec fn address_of(headers: HeadersModel) -> Text {
    match headers.forwarded_for {
        Some(value) => text::trim(text::split(value, ',')[0]),
        None => "unix"@,
    }
}

/// The address that a request came from.
pub fn client_ip(headers: &Headers) -> (r: String)
    ensures
        r@ == address_of(headers@),
{
    match &headers.forwarded_for {
        Some(value) => {
            let parts = text::split_chars(&text::chars_of(value.as_str()), ',');
            assert(text::texts(parts@)[0] == parts@[0]@);
            text::string_of(&text::trim_chars(&parts[0]))
        },
        None => "unix".to_string(),
    }
}

// ---------------------------------------------------------------------------
// Forged forms
// ---------------------------------------------------------------------------
/// The name of the cookie that guards forms.
pub open spec fn csrf_cookie() -> Text {
    "connector_csrf"@
}

/// The token for the forms of a page, and the cookie to set for it: the token
/// of the request, or a new one.
pub open spec fn csrf_of(headers: HeadersModel, fresh: Text) -> (Text, Option<Text>) {
    match cookie_of(headers, csrf_cookie()) {
        Some(value) => (value, None),
        None => (
            fresh,
            Some(
                "connector_csrf="@ + fresh
                    + "; Path=/; HttpOnly; SameSite=Strict; Max-Age=3600; Secure"@,
            ),
        ),
    }
}

/// The token for the forms of a page, with a new one at hand.
pub fn csrf_with(headers: &Headers, fresh: String) -> (r: (String, Option<String>))
    ensures
        (r.0@, text::opt_text(r.1)) == csrf_of(headers@, fresh@),
{
    match cookie(headers, "connector_csrf") {
        Some(value) => (value, None),
        None => {
            let mut set = "connector_csrf=".to_string();
            set.append(fresh.as_str());
            set.append("; Path=/; HttpOnly; SameSite=Strict; Max-Age=3600; Secure");
            (fresh, Some(set))
        },
    }
}

/// The token for the forms of a page.
pub fn csrf_for(headers: &Headers) -> (r: (String, Option<String>))
    ensures
        exists|fresh: Text|
            crypto::token_shaped(fresh) && (r.0@, text::opt_text(r.1)) == #[trigger] csrf_of(
                headers@,
                fresh,
            ),
{
    let fresh = crypto::random_token();
    csrf_with(headers, fresh)
}

/// Whether a form comes from a page of the gateway: it repeats the token of the
/// cookie.
pub open spec fn csrf_matches(headers: HeadersModel, form: Text) -> bool {
    cookie_of(headers, csrf_cookie()) == Some(form)
}

/// Tells whether a form comes from a page of the gateway.
pub fn check_csrf(headers: &Headers, form: &str) -> (r: bool)
    ensures
        r == csrf_matches(headers@, form@),
{
    match cookie(headers, "connector_csrf") {
        Some(value) => {
            proof {
                vstd::utf8::encode_utf8_decode_utf8(value@);
                vstd::utf8::encode_utf8_decode_utf8(form@);
            }
            crypto::constant_time_eq(&value.as_str().as_bytes_vec(), &form.as_bytes_vec())
        },
        None => false,
    }
}

/// The token that a page hands out is accepted with the cookie that it sets.
pub proof fn handed_out_tokens_are_accepted(headers: HeadersModel, fresh: Text, next: HeadersModel)
    requires
        crypto::token_shaped(fresh),
        cookie_of(headers, csrf_cookie()) is None,
        next.cookie == Some("connector_csrf="@ + fresh),
    ensures
        csrf_matches(next, csrf_of(headers, fresh).0),
{
    let value = "connector_csrf="@ + fresh;
    reveal_strlit("connector_csrf=");
    reveal_strlit("connector_csrf");
    reveal_strlit("=");
    assert("connector_csrf="@ =~= csrf_cookie() + "="@);
    assert forall|i: int| 0 <= i < value.len() implies value[i] != ';' && !text::is_space(
        value[i],
    ) by {
        if i >= 15 {
            assert(value[i] == fresh[i - 15]);
            assert(crypto::is_token_char(fresh[i - 15]));
        }
    }
    text::lemma_first_index(value, ';', value.len() as int);
    let items = text::split(value, ';');
    assert(items =~= seq![value]);
    assert(text::trim(value) == value);
    assert(value.skip(15) =~= fresh);
    assert(value.take(15) =~= csrf_cookie() + "="@);
}

// ---------------------------------------------------------------------------
// Replies
// ---------------------------------------------------------------------------
/// What a reply holds.
#[derive(Debug)]
pub enum Body {
    Empty,
    Plain(String),
    Html(String),
    Script(String),
    /// The program for machines.
    Program(Vec<u8>),
    Tokens(TokenIssue),
    Problem { error: String, description: String },
}

/// The model of [`Body`].
pub enum BodyModel {
    Empty,
    Plain(Text),
    Html(Text),
    Script(Text),
    Program(Seq<u8>),
    Tokens(IssueModel),
    Problem { error: Text, description: Text },
}

/// The answer to a request.
#[derive(Debug)]
pub struct Reply {
    pub status: u16,
    pub body: Body,
    /// Nobody may keep the reply.
    pub no_store: bool,
    /// The same for old caches.
    pub no_cache: bool,
    pub location: Option<String>,
    pub set_cookie: Option<String>,
    /// How to authenticate.
    pub challenge: Option<String>,
}

/// The model of [`Reply`].
pub struct ReplyModel {
    pub status: u16,
    pub body: BodyModel,
    pub no_store: bool,
    pub no_cache: bool,
    pub location: Option<Text>,
    pub set_cookie: Option<Text>,
    pub challenge: Option<Text>,
}

impl View for Body {
    type V = BodyModel;

    open spec fn view(&self) -> BodyModel {
        match self {
            Body::Empty => BodyModel::Empty,
            Body::Plain(s) => BodyModel::Plain(s@),
            Body::Html(s) => BodyModel::Html(s@),
            Body::Script(s) => BodyModel::Script(s@),
            Body::Program(bytes) => BodyModel::Program(bytes@),
            Body::Tokens(issue) => BodyModel::Tokens(issue@),
            Body::Problem { error, description } => BodyModel::Problem {
                error: error@,
                description: description@,
            },
        }
    }
}

impl View for Reply {
    type V = ReplyModel;

    open spec fn view(&self) -> ReplyModel {
        ReplyModel {
            status: self.status,
            body: self.body@,
            no_store: self.no_store,
            no_cache: self.no_cache,
            location: text::opt_text(self.location),
            set_cookie: text::opt_text(self.set_cookie),
            challenge: text::opt_text(self.challenge),
        }
    }
}

pub open spec fn answered(status: u16, body: BodyModel) -> ReplyModel {
    ReplyModel {
        status,
        body,
        no_store: false,
        no_cache: false,
        location: None,
        set_cookie: None,
        challenge: None,
    }
}

/// A reply with nothing but a status.
pub open spec fn bare(status: u16) -> ReplyModel {
    answered(status, BodyModel::Empty)
}

/// A reply that leads elsewhere.
pub open spec fn redirected(to: Text) -> ReplyModel {
    ReplyModel { location: Some(to), ..bare(303) }
}

/// The same reply, not to be kept by anybody.
pub open spec fn unkept(reply: ReplyModel) -> ReplyModel {
    ReplyModel { no_store: true, no_cache: true, ..reply }
}

/// The error of a token request.
pub open spec fn problem(status: u16, error: Text, description: Text) -> ReplyModel {
    unkept(answered(status, BodyModel::Problem { error, description }))
}

pub fn reply(status: u16, body: Body) -> (r: Reply)
    ensures
        r@ == answered(status, body@),
{
    Reply {
        status,
        body,
        no_store: false,
        no_cache: false,
        location: None,
        set_cookie: None,
        challenge: None,
    }
}

/// A reply with nothing but a status.
pub fn status_only(status: u16) -> (r: Reply)
    ensures
        r@ == bare(status),
{
    reply(status, Body::Empty)
}

/// A reply that leads elsewhere.
pub fn redirect(to: String) -> (r: Reply)
    ensures
        r@ == redirected(to@),
{
    let mut r = status_only(303);
    r.location = Some(to);
    r
}

/// The same reply, not to be kept by anybody.
pub fn no_store(reply: Reply) -> (r: Reply)
    ensures
        r@ == unkept(reply@),
{
    let mut r = reply;
    r.no_store = true;
    r.no_cache = true;
    r
}

/// The error of a token request.
pub fn oauth_error(status: u16, error: &str, description: &str) -> (r: Reply)
    ensures
        r@ == problem(status, error@, description@),
{
    no_store(
        reply(
            status,
            Body::Problem { error: error.to_string(), description: description.to_string() },
        ),
    )
}

// ---------------------------------------------------------------------------
// What machines fetch
// ---------------------------------------------------------------------------
/// The reply with the script that connects a machine.
pub fn connect_script() -> (r: Reply)
    ensures
        r@ == (ReplyModel {
            no_store: true,
            ..answered(200, BodyModel::Script(html::script_text(PUBLIC_URL@)))
        }),
{
    let mut r = reply(200, Body::Script(html::connect_script_body(PUBLIC_URL)));
    r.no_store = true;
    r
}

/// The reply with the program for machines, where it could be read.
pub fn download_client(program: Option<Vec<u8>>) -> (r: Reply)
    ensures
        r@ == match program {
            Some(bytes) => answered(200, BodyModel::Program(bytes@)),
            None => answered(
                503,
                BodyModel::Plain("Client binary is not available on the gateway"@),
            ),
        },
{
    match program {
        Some(bytes) => reply(200, Body::Program(bytes)),
        None => reply(503, Body::Plain("Client binary is not available on the gateway".to_string())),
    }
}

} // verus!
