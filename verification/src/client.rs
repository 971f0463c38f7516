//! The client's side of a link: its code, where it connects to, and when it
//! tries again.
use vstd::prelude::*;
use vstd::string::StrSliceExecFns;

use crate::crypto;
use crate::text;
use crate::text::Text;

verus! {

// ---------------------------------------------------------------------------
// Connection codes
// ---------------------------------------------------------------------------
/// The code as the gateway stores it, where it has the length of a code.
pub fn validate_code(value: &str) -> (r: Result<String, String>)
    ensures
        match r {
            Ok(code) => code@ == crypto::normalized_code(value@) && vstd::utf8::encode_utf8(
                crypto::normalized_code(value@),
            ).len() == 8,
            Err(e) => vstd::utf8::encode_utf8(crypto::normalized_code(value@)).len() != 8 && e@
                == "connection code must contain 8 characters"@,
        },
{
    let code = crypto::normalize_code(value);
    if code.as_str().as_bytes_vec().len() != 8 {
        return Err("connection code must contain 8 characters".to_string());
    }
    Ok(code)
}

/// Every connection code that the gateway hands out is accepted, in either case.
pub proof fn issued_codes_are_accepted(bytes: Seq<u8>)
    ensures
        vstd::utf8::encode_utf8(crypto::normalized_code(crypto::code_of(bytes))).len() == 8,
        vstd::utf8::encode_utf8(
            crypto::normalized_code(text::lower_text(crypto::code_of(bytes))),
        ).len() == 8,
{
    crypto::codes_are_crockford(bytes);
    let code = crypto::code_of(bytes);
    assert forall|i: int| 0 <= i < code.len() implies 0 <= (#[trigger] code[i]) as int <= 127 by {
        assert(crypto::is_crockford(code[i]));
    }
    assert(vstd::utf8::is_ascii_chars(code));
    vstd::utf8::is_ascii_chars_encode_utf8(code);
}

// ---------------------------------------------------------------------------
// The address of the link
// ---------------------------------------------------------------------------
/// A text without the slashes at its end.
pub open spec fn without_slashes(s: Text) -> Text
    decreases s.len(),
{
    if s.len() > 0 && s.last() == '/' {
        without_slashes(s.drop_last())
    } else {
        s
    }
}

/// Where the link of a gateway is opened.
pub open spec fn link_of(gateway: Text) -> Option<Text> {
    let base = without_slashes(gateway);
    match text::after_prefix(base, "https://"@) {
        Some(rest) => Some("wss://"@ + rest + "/link"@),
        None => match text::after_prefix(base, "http://"@) {
            Some(rest) => Some("ws://"@ + rest + "/link"@),
            None => None,
        },
    }
}

/// Where the link of a gateway is opened.
pub fn websocket_endpoint(gateway: &str) -> (r: Result<String, String>)
    ensures
        match r {
            Ok(endpoint) => link_of(gateway@) == Some(endpoint@),
            Err(e) => link_of(gateway@) is None && e@
                == "gateway URL must begin with http:// or https://"@,
        },
{
    let chars = text::chars_of(gateway);
    let mut end: usize = chars.len();
    assert(chars@.take(end as int) =~= chars@);
    while end > 0 && chars[end - 1] == '/'
        invariant
            end <= chars@.len(),
            without_slashes(chars@) == without_slashes(chars@.take(end as int)),
        decreases end,
    {
        assert(chars@.take(end as int).drop_last() =~= chars@.take(end - 1));
        end = end - 1;
    }
    let base = text::chars_between(&chars, 0, end);
    assert(base@ =~= chars@.take(end as int));
    assert(base@ == without_slashes(gateway@));
    if let Some(rest) = text::strip_prefix(&base, "https://") {
        let rest = text::string_of(&rest);
        let mut out = "wss://".to_string();
        out.append(rest.as_str());
        out.append("/link");
        return Ok(out);
    }
    if let Some(rest) = text::strip_prefix(&base, "http://") {
        let rest = text::string_of(&rest);
        let mut out = "ws://".to_string();
        out.append(rest.as_str());
        out.append("/link");
        return Ok(out);
    }
    Err("gateway URL must begin with http:// or https://".to_string())
}

// ---------------------------------------------------------------------------
// Trying again
// ---------------------------------------------------------------------------
/// How a try to hold a link ended.
#[derive(Debug, Clone, Copy, PartialEq, Eq, Structural)]
pub enum LinkEnd {
    /// The link was open and closed.
    Closed,
    /// The gateway answered with a status.
    Answered(u16),
    /// The gateway could not be reached.
    Unreachable,
}

/// When to try again.
#[derive(Debug, Clone, Copy, PartialEq, Eq, Structural)]
pub struct Retry {
    pub delay: u64,
}

/// Whether a gateway refuses the client for good.
pub open spec fn is_rejection(end: LinkEnd) -> bool {
    end matches LinkEnd::Answered(status) && 400 <= status < 500
}

/// How long to wait after a try, in seconds.
pub open spec fn pause(retry: Retry, end: LinkEnd) -> u64 {
    if end == LinkEnd::Closed {
        1
    } else {
        retry.delay
    }
}

/// The smaller of twice a delay and half a minute.
pub open spec fn doubled(delay: u64) -> int {
    if delay * 2 < 30 {
        delay * 2
    } else {
        30
    }
}

impl Retry {
    /// Before the first try.
    pub fn new() -> (r: Retry)
        ensures
            r.delay == 1,
    {
        Retry { delay: 1 }
    }

    /// How long to wait before the next try, or nothing when the gateway
    /// refuses the client. The wait doubles up to half a minute, and starts
    /// again after a link that was open.
    pub fn next(&mut self, end: LinkEnd) -> (r: Option<u64>)
        requires
            old(self).delay <= 30,
        ensures
            r == (if is_rejection(end) {
                None
            } else {
                Some(pause(*old(self), end))
            }),
            is_rejection(end) ==> *final(self) == *old(self),
            !is_rejection(end) ==> final(self).delay == doubled(pause(*old(self), end)),
            final(self).delay <= 30,
    {
        match end {
            LinkEnd::Answered(status) => {
                if 400 <= status && status < 500 {
                    return None;
                }
            },
            LinkEnd::Closed => {
                self.delay = 1;
            },
            LinkEnd::Unreachable => {},
        }
        let wait = self.delay;
        self.delay = if wait * 2 < 30 {
            wait * 2
        } else {
            30
        };
        Some(wait)
    }
}

// ---------------------------------------------------------------------------
// Liveness
// ---------------------------------------------------------------------------
/// The time between two pings, in seconds.
pub const PING_INTERVAL: u64 = 15;

/// How long a link may stay silent, in nanoseconds.
pub const SILENCE_LIMIT: u64 = 45_000_000_000;

/// How long a closing link is waited for, in seconds.
pub const CLOSE_TIMEOUT: u64 = 2;

/// Tells whether a link is dead, by the time since its last pong.
pub fn is_silent(since_pong: u64) -> (r: bool)
    ensures
        r == (since_pong > SILENCE_LIMIT),
{
    since_pong > SILENCE_LIMIT
}

// ---------------------------------------------------------------------------
// Laws
// ---------------------------------------------------------------------------
/// The link of a gateway has the gateway's host and path, with `/link` behind
/// them: over TLS exactly where the gateway is. Slashes at the end of the
/// gateway's address do not matter.
pub proof fn links_are_opened_at_the_gateway(place: Text, slashes: nat)
    requires
        place.len() > 0,
        place.last() != '/',
    ensures
        link_of("https://"@ + place + Seq::new(slashes, |i: int| '/')) == Some(
            "wss://"@ + place + "/link"@,
        ),
        link_of("http://"@ + place + Seq::new(slashes, |i: int| '/')) == Some(
            "ws://"@ + place + "/link"@,
        ),
{
    reveal_strlit("https://");
    reveal_strlit("http://");
    let secure = "https://"@ + place;
    let plain = "http://"@ + place;
    lemma_without_slashes(secure, slashes);
    lemma_without_slashes(plain, slashes);
    assert(secure.take(8) =~= "https://"@);
    assert(secure.skip(8) =~= place);
    assert(plain.take(7) =~= "http://"@);
    assert(plain.skip(7) =~= place);
    if text::begins(plain, "https://"@) {
        assert(plain.take(8)[4] == plain[4]);
    }
}

proof fn lemma_without_slashes(s: Text, slashes: nat)
    requires
        s.len() > 0,
        s.last() != '/',
    ensures
        without_slashes(s + Seq::new(slashes, |i: int| '/')) == s,
    decreases slashes,
{
    let whole = s + Seq::new(slashes, |i: int| '/');
    if slashes == 0 {
        assert(whole =~= s);
    } else {
        lemma_without_slashes(s, (slashes - 1) as nat);
        assert(whole.drop_last() =~= s + Seq::new((slashes - 1) as nat, |i: int| '/'));
    }
}

/// An address of another kind is the address of no gateway.
pub proof fn other_addresses_are_refused(gateway: Text)
    requires
        !text::begins(gateway, "https://"@),
        !text::begins(gateway, "http://"@),
    ensures
        link_of(gateway) is None,
{
    reveal_strlit("https://");
    reveal_strlit("http://");
    lemma_shortened(gateway, "https://"@);
    lemma_shortened(gateway, "http://"@);
}

proof fn lemma_shortened(s: Text, p: Text)
    requires
        !text::begins(s, p),
    ensures
        !text::begins(without_slashes(s), p),
    decreases s.len(),
{
    if s.len() > 0 && s.last() == '/' {
        if text::begins(s.drop_last(), p) {
            assert(s.take(p.len() as int) =~= s.drop_last().take(p.len() as int));
        }
        lemma_shortened(s.drop_last(), p);
    }
}

/// The delay after a number of tries that did not reach the gateway.
pub open spec fn delay_after(tries: nat) -> int
    decreases tries,
{
    if tries == 0 {
        1
    } else {
        doubled(delay_after((tries - 1) as nat) as u64)
    }
}

/// A gateway that cannot be reached is tried again after one second, then after
/// twice as long each time, and after half a minute from the sixth time on.
pub proof fn delays_double_up_to_half_a_minute(tries: nat)
    ensures
        tries <= 4 ==> delay_after(tries) == vstd::arithmetic::power2::pow2(tries),
        tries >= 5 ==> delay_after(tries) == 30,
    decreases tries,
{
    vstd::arithmetic::power2::lemma2_to64();
    if tries > 0 {
        delays_double_up_to_half_a_minute((tries - 1) as nat);
    }
}

/// A client gives up only when the gateway refuses it, with a status from 400 to
/// 499; it waits as long as its delay says otherwise, and one second after a
/// link that was open.
pub proof fn clients_give_up_only_when_refused(retry: Retry, end: LinkEnd, status: u16)
    ensures
        is_rejection(LinkEnd::Answered(status)) <==> 400 <= status <= 499,
        !is_rejection(LinkEnd::Closed),
        !is_rejection(LinkEnd::Unreachable),
        pause(retry, LinkEnd::Closed) == 1,
        end != LinkEnd::Closed ==> pause(retry, end) == retry.delay,
{
}

/// A link may miss three pings, one every fifteen seconds.
pub proof fn links_may_miss_three_pings(since_pong: u64)
    ensures
        PING_INTERVAL == 15,
        SILENCE_LIMIT == 3 * 15 * 1_000_000_000,
        CLOSE_TIMEOUT == 2,
{
}

} // verus!
