//! The addresses that the gateway works with.
use url::Url;
use vstd::prelude::*;

use crate::text;
use crate::text::Text;

verus! {

/// Whether `url`'s `Url::parse` accepts a text.
pub uninterp spec fn is_url(url: Seq<char>) -> bool;

/// `url`'s `Url::parse`: whether it accepts the text.
#[verifier::external_body]
pub(crate) fn parses(url: &str) -> (r: bool)
    ensures
        r == is_url(url@),
{
    Url::parse(url).is_ok()
}

/// What `query_pairs_mut().extend_pairs` of the `url` crate makes of a URL and
/// pairs: the URL as text with the pairs behind its query.
pub uninterp spec fn with_pairs(
    url: Seq<char>,
    pairs: Seq<(Seq<char>, Seq<char>)>,
) -> Seq<char>;

pub open spec fn pair_views(pairs: Seq<(String, String)>) -> Seq<(Text, Text)> {
    pairs.map_values(|p: (String, String)| (p.0@, p.1@))
}

/// How many characters pairs hold.
pub open spec fn weight(pairs: Seq<(Text, Text)>) -> nat
    decreases pairs.len(),
{
    if pairs.len() == 0 {
        0
    } else {
        weight(pairs.drop_last()) + pairs.last().0.len() + pairs.last().1.len()
    }
}

/// The most characters that a URL is made of here: encoded, they stay below the
/// four gigabytes that the `url` crate can hold.
pub const LONGEST: usize = 0x1000_0000;

/// `query_pairs_mut().extend_pairs` of the `url` crate: the URL with the pairs
/// behind its query, a function of both. How the pairs are encoded is not stated.
#[verifier::external_body]
pub(crate) fn append_pairs(url: &str, pairs: &Vec<(String, String)>) -> (r: String)
    requires
        is_url(url@),
        pairs@.len() <= 100,
        url@.len() + weight(pair_views(pairs@)) <= LONGEST,
    ensures
        r@ == with_pairs(url@, pair_views(pairs@)),
{
    let mut url = Url::parse(url).expect("a URL");
    url.query_pairs_mut().extend_pairs(pairs);
    url.into()
}

/// The host of a URL, as `url`'s `Url::parse` and `host_str` give it.
pub uninterp spec fn url_host(url: Seq<char>) -> Option<Seq<char>>;

/// `url`'s `Url::parse` and `host_str`: the host, where the text is a URL that
/// has one.
#[verifier::external_body]
fn host(url: &str) -> (r: Option<String>)
    ensures
        text::opt_text(r) == url_host(url@),
{
    Url::parse(url).ok().and_then(|url| url.host_str().map(|host| host.to_string()))
}

/// The host that requests are expected to name.
pub open spec fn expected_host(host: Option<Text>) -> Text {
    match host {
        Some(h) => h,
        None => "localhost"@,
    }
}

/// The host that requests are expected to name, for the host of the gateway.
pub fn host_or_local(host: Option<String>) -> (r: String)
    ensures
        r@ == expected_host(text::opt_text(host)),
{
    match host {
        Some(h) => h,
        None => "localhost".to_string(),
    }
}

/// The host that requests are expected to name.
pub fn host_of(public_url: &str) -> (r: String)
    ensures
        r@ == expected_host(url_host(public_url@)),
{
    host_or_local(host(public_url))
}

/// The hosts that requests may name: that of the gateway, and this machine.
pub fn allowed_hosts(public_url: &str) -> (r: Vec<String>)
    ensures
        text::strings(r@) == seq![expected_host(url_host(public_url@)), "localhost"@, "127.0.0.1"@],
{
    let mut r: Vec<String> = Vec::new();
    r.push(host_of(public_url));
    r.push("localhost".to_string());
    r.push("127.0.0.1".to_string());
    assert(text::strings(r@) =~= seq![
        expected_host(url_host(public_url@)),
        "localhost"@,
        "127.0.0.1"@,
    ]);
    r
}

} // verus!
