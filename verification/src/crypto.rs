//! Random tokens, connection codes, hashes and the encodings they travel in.
use vstd::prelude::*;
use vstd::string::StrSliceExecFns;

use base64::engine::general_purpose::{STANDARD, URL_SAFE_NO_PAD};
use base64::Engine;
use rand::RngCore;
use sha2::{Digest, Sha256};
use subtle::ConstantTimeEq;

use crate::text;
use crate::text::Text;

verus! {

// ---------------------------------------------------------------------------
// Outside calls
// ---------------------------------------------------------------------------
/// `rand::rng().fill_bytes`: random bytes. Nothing is claimed of them but how
/// many there are.
#[verifier::external_body]
pub(crate) fn random_bytes(n: usize) -> (r: Vec<u8>)
    requires
        n <= 1024,
    ensures
        r@.len() == n,
{
    let mut bytes = vec![0u8; n];
    rand::rng().fill_bytes(&mut bytes);
    bytes
}

/// The byte at an index, and zero past the end.
pub open spec fn byte_at(bytes: Seq<u8>, i: int) -> int {
    if 0 <= i < bytes.len() {
        bytes[i] as int
    } else {
        0
    }
}

/// The digit for six bits: letters, digits, and two signs that differ between
/// the standard alphabet and the one for URLs.
pub open spec fn base64_digit(v: int, url: bool) -> char {
    if v < 26 {
        ('A' as int + v) as char
    } else if v < 52 {
        ('a' as int + (v - 26)) as char
    } else if v < 62 {
        ('0' as int + (v - 52)) as char
    } else if v == 62 {
        if url {
            '-'
        } else {
            '+'
        }
    } else if url {
        '_'
    } else {
        '/'
    }
}

/// The six bits at index `i` of the bits of `bytes`, with zeros past the end.
pub open spec fn six_bits(bytes: Seq<u8>, i: int) -> int {
    let pair = byte_at(bytes, 6 * i / 8) * 256 + byte_at(bytes, 6 * i / 8 + 1);
    let shift = 6 * i % 8;
    if shift == 0 {
        pair / 1024 % 64
    } else if shift == 2 {
        pair / 256 % 64
    } else if shift == 4 {
        pair / 64 % 64
    } else {
        pair / 16 % 64
    }
}

/// The Base64 digits of bytes, without padding.
pub open spec fn base64_digits(bytes: Seq<u8>, url: bool) -> Text {
    Seq::new(
        ((8 * bytes.len() + 5) / 6) as nat,
        |i: int| base64_digit(six_bits(bytes, i), url),
    )
}

/// The Base64 digits of bytes, padded with `=` to a multiple of four.
pub open spec fn base64_padded(bytes: Seq<u8>) -> Text {
    let digits = base64_digits(bytes, false);
    digits + Seq::new(((4 - digits.len() % 4) % 4) as nat, |i: int| '=')
}

/// `base64`'s `URL_SAFE_NO_PAD.encode`: six bits of the input for each digit,
/// the last one filled up with zero bits, no padding.
#[verifier::external_body]
pub(crate) fn encode_url(bytes: &Vec<u8>) -> (r: String)
    ensures
        r@ == base64_digits(bytes@, true),
{
    URL_SAFE_NO_PAD.encode(bytes)
}

/// `base64`'s `STANDARD.encode`: six bits of the input for each digit, the last
/// one filled up with zero bits, padded to a multiple of four digits.
#[verifier::external_body]
pub(crate) fn encode_standard(bytes: &Vec<u8>) -> (r: String)
    ensures
        r@ == base64_padded(bytes@),
{
    STANDARD.encode(bytes)
}

/// The bytes of which a text is the padded Base64 encoding, where it is one.
pub open spec fn base64_decoded(encoded: Text) -> Option<Seq<u8>> {
    if exists|b: Seq<u8>| #[trigger] base64_padded(b) == encoded {
        Some(choose|b: Seq<u8>| #[trigger] base64_padded(b) == encoded)
    } else {
        None
    }
}

/// `base64`'s `STANDARD.decode`, with its error dropped: the bytes of which the
/// text is the padded encoding, and nothing where it is that of none. Missing
/// padding, stray characters and set bits past the last byte are refused.
#[verifier::external_body]
fn decode_padded(encoded: &str) -> (r: Option<Vec<u8>>)
    ensures
        match r {
            Some(bytes) => base64_padded(bytes@) == encoded@,
            None => forall|b: Seq<u8>| #[trigger] base64_padded(b) != encoded@,
        },
{
    STANDARD.decode(encoded).ok()
}

proof fn lemma_digit_injective(v: int, w: int, url: bool)
    requires
        0 <= v < 64,
        0 <= w < 64,
        base64_digit(v, url) == base64_digit(w, url),
    ensures
        v == w,
{
}

#[verifier::spinoff_prover]
#[verifier::rlimit(60)]
proof fn lemma_bits(x: int, y: int)
    requires
        0 <= x < 256,
        0 <= y < 256,
    ensures
        (x * 256 + y) / 1024 % 64 == x / 4,
        (x * 256 + y) / 16 % 64 == x % 4 * 16 + y / 16,
        (x * 256 + y) / 64 % 64 == x % 16 * 4 + y / 64,
        (x * 256 + y) / 256 % 64 == x % 64,
{
    assert((x * 256 + y) / 256 == x);
    assert((x * 256 + y) / 1024 == x / 4);
    assert((x * 256 + y) / 16 == x * 16 + y / 16);
    assert((x * 256 + y) / 64 == x * 4 + y / 64);
}

/// Four digits hold the bits of three bytes.
proof fn lemma_four_digits(bytes: Seq<u8>, q: int)
    requires
        0 <= q,
    ensures
        six_bits(bytes, 4 * q) == byte_at(bytes, 3 * q) / 4,
        six_bits(bytes, 4 * q + 1) == byte_at(bytes, 3 * q) % 4 * 16 + byte_at(bytes, 3 * q + 1)
            / 16,
        six_bits(bytes, 4 * q + 2) == byte_at(bytes, 3 * q + 1) % 16 * 4 + byte_at(
            bytes,
            3 * q + 2,
        ) / 64,
        six_bits(bytes, 4 * q + 3) == byte_at(bytes, 3 * q + 2) % 64,
{
    assert(6 * (4 * q) / 8 == 3 * q && 6 * (4 * q) % 8 == 0);
    assert(6 * (4 * q + 1) / 8 == 3 * q && 6 * (4 * q + 1) % 8 == 6);
    assert(6 * (4 * q + 2) / 8 == 3 * q + 1 && 6 * (4 * q + 2) % 8 == 4);
    assert(6 * (4 * q + 3) / 8 == 3 * q + 2 && 6 * (4 * q + 3) % 8 == 2);
    lemma_bits(byte_at(bytes, 3 * q), byte_at(bytes, 3 * q + 1));
    lemma_bits(byte_at(bytes, 3 * q + 1), byte_at(bytes, 3 * q + 2));
    lemma_bits(byte_at(bytes, 3 * q + 2), byte_at(bytes, 3 * q + 3));
}

proof fn lemma_digits_injective(a: Seq<u8>, b: Seq<u8>, url: bool)
    requires
        base64_digits(a, url) == base64_digits(b, url),
    ensures
        a == b,
{
    let x = base64_digits(a, url);
    let y = base64_digits(b, url);
    let count = x.len() as int;
    assert(count == (8 * a.len() + 5) / 6);
    assert(y.len() == (8 * b.len() + 5) / 6);
    assert(a.len() == b.len());
    assert forall|i: int| 0 <= i < count implies #[trigger] six_bits(a, i) == six_bits(b, i) by {
        assert(x[i] == base64_digit(six_bits(a, i), url));
        assert(y[i] == base64_digit(six_bits(b, i), url));
        lemma_digit_injective(six_bits(a, i), six_bits(b, i), url);
    }
    assert forall|j: int| 0 <= j < a.len() implies a[j] == b[j] by {
        let q = j / 3;
        lemma_four_digits(a, q);
        lemma_four_digits(b, q);
        assert(a[j] == byte_at(a, j) && b[j] == byte_at(b, j));
        if j % 3 == 0 {
            assert(six_bits(a, 4 * q) == six_bits(b, 4 * q));
            assert(six_bits(a, 4 * q + 1) == six_bits(b, 4 * q + 1));
        } else if j % 3 == 1 {
            assert(six_bits(a, 4 * q + 1) == six_bits(b, 4 * q + 1));
            assert(six_bits(a, 4 * q + 2) == six_bits(b, 4 * q + 2));
        } else {
            assert(six_bits(a, 4 * q + 2) == six_bits(b, 4 * q + 2));
            assert(six_bits(a, 4 * q + 3) == six_bits(b, 4 * q + 3));
        }
    }
    assert(a =~= b);
}

proof fn lemma_padded_injective(a: Seq<u8>, b: Seq<u8>)
    requires
        base64_padded(a) == base64_padded(b),
    ensures
        a == b,
{
    let x = base64_digits(a, false);
    let y = base64_digits(b, false);
    let p = base64_padded(a);
    assert(p.len() == base64_padded(b).len());
    assert forall|i: int| 0 <= i < x.len() implies p[i] == x[i] && x[i] != '=' by {
        assert(0 <= six_bits(a, i) < 64);
    }
    assert forall|i: int| 0 <= i < y.len() implies p[i] == y[i] && y[i] != '=' by {
        assert(0 <= six_bits(b, i) < 64);
    }
    if x.len() < y.len() {
        assert(p[x.len() as int] == '=');
    }
    if y.len() < x.len() {
        assert(base64_padded(b)[y.len() as int] == '=');
    }
    assert(x =~= y);
    lemma_digits_injective(a, b, false);
}

/// Decoding gives back what was encoded, and no two byte sequences share an
/// encoding, with padding or without.
pub proof fn encodings_lead_back(a: Seq<u8>, b: Seq<u8>, url: bool)
    ensures
        base64_decoded(base64_padded(a)) == Some(a),
        base64_digits(a, url) == base64_digits(b, url) ==> a == b,
{
    let c = choose|c: Seq<u8>| #[trigger] base64_padded(c) == base64_padded(a);
    lemma_padded_injective(c, a);
    if base64_digits(a, url) == base64_digits(b, url) {
        lemma_digits_injective(a, b, url);
    }
}

/// The bytes of which a text is the padded Base64 encoding.
pub fn decode_standard(encoded: &str) -> (r: Option<Vec<u8>>)
    ensures
        match r {
            Some(bytes) => base64_decoded(encoded@) == Some(bytes@),
            None => base64_decoded(encoded@) == None::<Seq<u8>>,
        },
{
    let r = decode_padded(encoded);
    proof {
        if r is Some {
            encodings_lead_back(r->0@, r->0@, false);
        }
    }
    r
}

/// The SHA-256 digest of bytes.
pub uninterp spec fn sha256(bytes: Seq<u8>) -> Seq<u8>;

/// `sha2`'s `Sha256::digest`: thirty-two bytes that depend on the input alone.
#[verifier::external_body]
fn digest(bytes: &Vec<u8>) -> (r: Vec<u8>)
    ensures
        r@ == sha256(bytes@),
        r@.len() == 32,
{
    Sha256::digest(bytes).to_vec()
}

/// `subtle`'s `ct_eq` on byte slices: whether the two are equal.
#[verifier::external_body]
pub(crate) fn constant_time_eq(a: &Vec<u8>, b: &Vec<u8>) -> (r: bool)
    ensures
        r == (a@ == b@),
{
    a.as_slice().ct_eq(b.as_slice()).into()
}

// ---------------------------------------------------------------------------
// Tokens
// ---------------------------------------------------------------------------
/// Whether a character is a digit of the Base64 alphabet for URLs.
pub open spec fn is_token_char(c: char) -> bool {
    text::is_alphanumeric(c) || c == '-' || c == '_'
}

/// Whether a text has the form of a random token: 43 digits of the Base64
/// alphabet for URLs.
pub open spec fn token_shaped(s: Text) -> bool {
    s.len() == 43 && forall|i: int| 0 <= i < s.len() ==> is_token_char(#[trigger] s[i])
}

/// The token for 32 random bytes.
pub fn token_from(bytes: &Vec<u8>) -> (r: String)
    requires
        bytes@.len() == 32,
    ensures
        r@ == base64_digits(bytes@, true),
        token_shaped(r@),
{
    let r = encode_url(bytes);
    assert forall|i: int| 0 <= i < r@.len() implies is_token_char(#[trigger] r@[i]) by {
        let v = six_bits(bytes@, i);
        assert(0 <= v < 64);
    }
    r
}

/// A token of 32 random bytes.
pub fn random_token() -> (r: String)
    ensures
        token_shaped(r@),
        exists|bytes: Seq<u8>|
            bytes.len() == 32 && r@ == #[trigger] base64_digits(bytes, true),
{
    let bytes = random_bytes(32);
    token_from(&bytes)
}

// ---------------------------------------------------------------------------
// Connection codes
// ---------------------------------------------------------------------------
/// The Crockford Base32 digit for a value below 32: no I, L, O or U.
pub open spec fn crockford(v: int) -> char {
    if v < 10 {
        ('0' as int + v) as char
    } else if v < 18 {
        ('A' as int + (v - 10)) as char
    } else if v < 20 {
        ('J' as int + (v - 18)) as char
    } else if v < 22 {
        ('M' as int + (v - 20)) as char
    } else if v < 27 {
        ('P' as int + (v - 22)) as char
    } else {
        ('V' as int + (v - 27)) as char
    }
}

/// The number that bytes spell, the first byte first.
pub open spec fn big_endian(bytes: Seq<u8>) -> int
    decreases bytes.len(),
{
    if bytes.len() == 0 {
        0
    } else {
        big_endian(bytes.drop_last()) * 256 + bytes.last() as int
    }
}

/// The lowest `count` digits of a number in base 32, the highest first.
pub open spec fn code_digits(bits: int, count: nat) -> Text
    decreases count,
{
    if count == 0 {
        Seq::empty()
    } else {
        code_digits(bits / 32, (count - 1) as nat).push(crockford(bits % 32))
    }
}

/// The connection code for five bytes: their forty bits as eight digits.
pub open spec fn code_of(bytes: Seq<u8>) -> Text {
    code_digits(big_endian(bytes), 8)
}

fn crockford_digit(v: u64) -> (r: char)
    requires
        v < 32,
    ensures
        r == crockford(v as int),
{
    let v = v as u8;
    if v < 10 {
        (48u8 + v) as char
    } else if v < 18 {
        (65u8 + (v - 10)) as char
    } else if v < 20 {
        (74u8 + (v - 18)) as char
    } else if v < 22 {
        (77u8 + (v - 20)) as char
    } else if v < 27 {
        (80u8 + (v - 22)) as char
    } else {
        (86u8 + (v - 27)) as char
    }
}

fn append_digits(out: &mut String, bits: u64, count: u64)
    ensures
        final(out)@ == old(out)@ + code_digits(bits as int, count as nat),
    decreases count,
{
    if count > 0 {
        append_digits(out, bits / 32, count - 1);
        out.push(crockford_digit(bits % 32));
    }
}

/// The connection code for five bytes.
pub fn code_from(bytes: &Vec<u8>) -> (r: String)
    requires
        bytes@.len() == 5,
    ensures
        r@ == code_of(bytes@),
{
    reveal_with_fuel(big_endian, 6);
    let bits: u64 = (((bytes[0] as u64 * 256 + bytes[1] as u64) * 256 + bytes[2] as u64) * 256
        + bytes[3] as u64) * 256 + bytes[4] as u64;
    assert(bits == big_endian(bytes@)) by {
        let b = bytes@;
        assert(b.drop_last().drop_last().drop_last().drop_last().drop_last().len() == 0);
        assert(b.drop_last().last() == b[3]);
        assert(b.drop_last().drop_last().last() == b[2]);
        assert(b.drop_last().drop_last().drop_last().last() == b[1]);
        assert(b.drop_last().drop_last().drop_last().drop_last().last() == b[0]);
    }
    let mut out = "".to_string();
    proof {
        reveal_strlit("");
    }
    append_digits(&mut out, bits, 8);
    assert(out@ =~= code_of(bytes@));
    out
}

/// A connection code of forty random bits.
pub fn connection_code() -> (r: String)
    ensures
        exists|bytes: Seq<u8>| bytes.len() == 5 && r@ == #[trigger] code_of(bytes),
{
    let bytes = random_bytes(5);
    code_from(&bytes)
}

/// One character of a code as it is stored.
pub open spec fn plain_code_char(c: char) -> char {
    if text::upper(c) == 'I' || text::upper(c) == 'L' {
        '1'
    } else if text::upper(c) == 'O' {
        '0'
    } else {
        text::upper(c)
    }
}

/// A code as it is stored: without surrounding white space, in capitals, with
/// the letters that Crockford's alphabet lacks read as the digits they look
/// like.
pub open spec fn normalized_code(value: Text) -> Text {
    text::trim(value).map_values(|c: char| plain_code_char(c))
}

/// A code as it is stored.
pub fn normalize_code(value: &str) -> (r: String)
    ensures
        r@ == normalized_code(value@),
{
    let chars = text::trim_chars(&text::chars_of(value));
    let mut out = "".to_string();
    proof {
        reveal_strlit("");
    }
    for i in 0..chars.len()
        invariant
            out@ =~= chars@.take(i as int).map_values(|c: char| plain_code_char(c)),
    {
        let up = text::to_upper(chars[i]);
        if up == 'I' || up == 'L' {
            out.push('1');
        } else if up == 'O' {
            out.push('0');
        } else {
            out.push(up);
        }
    }
    assert(chars@.take(chars@.len() as int) =~= chars@);
    out
}

/// Whether a character is one of the 32 digits.
pub open spec fn is_crockford(c: char) -> bool {
    text::is_digit(c) || (text::is_upper(c) && c != 'I' && c != 'L' && c != 'O' && c != 'U')
}

proof fn lemma_code_digits(bits: int, count: nat)
    requires
        bits >= 0,
    ensures
        code_digits(bits, count).len() == count,
        forall|i: int| 0 <= i < count ==> is_crockford(#[trigger] code_digits(bits, count)[i]),
    decreases count,
{
    if count > 0 {
        lemma_code_digits(bits / 32, (count - 1) as nat);
        let v = bits % 32;
        assert(0 <= v < 32);
        assert(is_crockford(crockford(v)));
    }
}

proof fn lemma_big_endian(bytes: Seq<u8>)
    ensures
        big_endian(bytes) >= 0,
    decreases bytes.len(),
{
    if bytes.len() > 0 {
        lemma_big_endian(bytes.drop_last());
    }
}

proof fn lemma_trim_end_changed(s: Text, f: spec_fn(char) -> char)
    requires
        forall|c: char| text::is_space(#[trigger] f(c)) == text::is_space(c),
    ensures
        text::trim_end(s.map_values(f)) == text::trim_end(s).map_values(f),
    decreases s.len(),
{
    if s.len() > 0 {
        assert(s.map_values(f).last() == f(s.last()));
        if text::is_space(s.last()) {
            lemma_trim_end_changed(s.drop_last(), f);
            assert(s.map_values(f).drop_last() =~= s.drop_last().map_values(f));
        }
    } else {
        assert(s.map_values(f) =~= s);
    }
}

proof fn lemma_trim_start_changed(s: Text, f: spec_fn(char) -> char)
    requires
        forall|c: char| text::is_space(#[trigger] f(c)) == text::is_space(c),
    ensures
        text::trim_start(s.map_values(f)) == text::trim_start(s).map_values(f),
    decreases s.len(),
{
    if s.len() > 0 {
        assert(s.map_values(f)[0] == f(s[0]));
        if text::is_space(s[0]) {
            lemma_trim_start_changed(s.skip(1), f);
            assert(s.map_values(f).skip(1) =~= s.skip(1).map_values(f));
        }
    } else {
        assert(s.map_values(f) =~= s);
    }
}

/// The case of a code does not matter.
pub proof fn codes_are_case_insensitive(value: Text)
    ensures
        normalized_code(text::lower_text(value)) == normalized_code(value),
        normalized_code(text::upper_text(value)) == normalized_code(value),
{
    let low = |c: char| text::lower(c);
    let up = |c: char| text::upper(c);
    let plain = |c: char| plain_code_char(c);
    lemma_trim_start_changed(value, low);
    lemma_trim_start_changed(value, up);
    lemma_trim_end_changed(text::trim_start(value), low);
    lemma_trim_end_changed(text::trim_start(value), up);
    assert forall|c: char| plain_code_char(text::lower(c)) == #[trigger] plain_code_char(c)
        && plain_code_char(text::upper(c)) == plain_code_char(c) by {}
    let t = text::trim(value);
    assert(text::trim(text::lower_text(value)) =~= t.map_values(low));
    assert(text::trim(text::upper_text(value)) =~= t.map_values(up));
    assert(t.map_values(low).map_values(plain) =~= t.map_values(plain));
    assert(t.map_values(up).map_values(plain) =~= t.map_values(plain));
}

/// A code that is stored is read as it is: normalizing it again changes
/// nothing.
pub proof fn stored_codes_are_kept(value: Text)
    ensures
        normalized_code(normalized_code(value)) == normalized_code(value),
{
    let plain = |c: char| plain_code_char(c);
    let t = text::trim(value);
    text::lemma_trimmed(value);
    assert forall|c: char| text::is_space(#[trigger] plain(c)) == text::is_space(c) by {}
    lemma_trim_start_changed(t, plain);
    lemma_trim_end_changed(text::trim_start(t), plain);
    assert(text::trim(t.map_values(plain)) =~= t.map_values(plain));
    assert forall|c: char| plain_code_char(#[trigger] plain_code_char(c)) == plain_code_char(
        c,
    ) by {}
    assert(t.map_values(plain).map_values(plain) =~= t.map_values(plain));
}

spec fn codes_of_length(count: nat) -> int
    decreases count,
{
    if count == 0 {
        1
    } else {
        32 * codes_of_length((count - 1) as nat)
    }
}

proof fn lemma_digits_tell_bits(a: int, b: int, count: nat)
    requires
        0 <= a < codes_of_length(count),
        0 <= b < codes_of_length(count),
        code_digits(a, count) == code_digits(b, count),
    ensures
        a == b,
    decreases count,
{
    if count > 0 {
        let x = code_digits(a / 32, (count - 1) as nat);
        let y = code_digits(b / 32, (count - 1) as nat);
        assert(x.push(crockford(a % 32)).last() == y.push(crockford(b % 32)).last());
        assert(x.push(crockford(a % 32)).drop_last() =~= x);
        assert(y.push(crockford(b % 32)).drop_last() =~= y);
        assert(a % 32 == b % 32);
        lemma_digits_tell_bits(a / 32, b / 32, (count - 1) as nat);
    }
}

proof fn lemma_bits_tell_bytes(a: Seq<u8>, b: Seq<u8>)
    requires
        a.len() == b.len(),
        big_endian(a) == big_endian(b),
    ensures
        a == b,
    decreases a.len(),
{
    if a.len() > 0 {
        lemma_big_endian(a.drop_last());
        lemma_big_endian(b.drop_last());
        lemma_bits_tell_bytes(a.drop_last(), b.drop_last());
        assert(a =~= a.drop_last().push(a.last()));
        assert(b =~= b.drop_last().push(b.last()));
    } else {
        assert(a =~= b);
    }
}

proof fn lemma_forty_bits(bytes: Seq<u8>)
    requires
        bytes.len() == 5,
    ensures
        0 <= big_endian(bytes) < codes_of_length(8),
{
    reveal_with_fuel(big_endian, 6);
    reveal_with_fuel(codes_of_length, 9);
    lemma_big_endian(bytes);
    assert(bytes.drop_last().drop_last().drop_last().drop_last().drop_last().len() == 0);
}

/// Different bytes give different connection codes.
pub proof fn codes_tell_their_bytes(a: Seq<u8>, b: Seq<u8>)
    requires
        a.len() == 5,
        b.len() == 5,
        code_of(a) == code_of(b),
    ensures
        a == b,
{
    lemma_forty_bits(a);
    lemma_forty_bits(b);
    lemma_digits_tell_bits(big_endian(a), big_endian(b), 8);
    lemma_bits_tell_bytes(a, b);
}

/// A connection code has eight digits of Crockford's alphabet and is stored as
/// it is, also when it is entered in lower case.
pub proof fn codes_are_crockford(bytes: Seq<u8>)
    ensures
        code_of(bytes).len() == 8,
        forall|i: int| 0 <= i < 8 ==> is_crockford(#[trigger] code_of(bytes)[i]),
        normalized_code(code_of(bytes)) == code_of(bytes),
        normalized_code(text::lower_text(code_of(bytes))) == code_of(bytes),
{
    let code = code_of(bytes);
    lemma_big_endian(bytes);
    lemma_code_digits(big_endian(bytes), 8);
    codes_are_case_insensitive(code);
    assert(is_crockford(code[0]) && is_crockford(code[7]));
    assert(code.last() == code[7]);
    assert(text::trim(code) == code);
    assert forall|i: int| 0 <= i < 8 implies plain_code_char(#[trigger] code[i]) == code[i] by {
        assert(is_crockford(code[i]));
    }
    assert(normalized_code(code) =~= code);
}

// ---------------------------------------------------------------------------
// Hashes
// ---------------------------------------------------------------------------
/// The hash of a text: the SHA-256 digest of its UTF-8 bytes.
pub open spec fn hashed(value: Text) -> Seq<u8> {
    sha256(vstd::utf8::encode_utf8(value))
}

/// The hash of a text.
pub fn hash(value: &str) -> (r: Vec<u8>)
    ensures
        r@ == hashed(value@),
        r@.len() == 32,
{
    digest(&value.as_bytes_vec())
}

/// Tells whether a text has the given hash.
pub fn verify_hash(value: &str, expected: &Vec<u8>) -> (r: bool)
    ensures
        r == (hashed(value@) == expected@),
{
    let actual = hash(value);
    constant_time_eq(&actual, expected)
}

/// The challenge that belongs to a verifier under the method `S256`.
pub open spec fn challenge_of(verifier: Text) -> Text {
    base64_digits(hashed(verifier), true)
}

/// The challenge that belongs to a verifier under the method `S256`.
pub fn pkce_s256(verifier: &str) -> (r: String)
    ensures
        r@ == challenge_of(verifier@),
{
    encode_url(&hash(verifier))
}

// ---------------------------------------------------------------------------
// Hexadecimal
// ---------------------------------------------------------------------------
/// The lower-case hexadecimal digit for a value below 16.
pub open spec fn hex_digit(v: int) -> char {
    if v < 10 {
        ('0' as int + v) as char
    } else {
        ('a' as int + (v - 10)) as char
    }
}

/// Two hexadecimal digits for each byte.
pub open spec fn hexadecimal(bytes: Seq<u8>) -> Text
    decreases bytes.len(),
{
    if bytes.len() == 0 {
        Seq::empty()
    } else {
        hexadecimal(bytes.drop_last()).push(hex_digit(bytes.last() as int / 16)).push(
            hex_digit(bytes.last() as int % 16),
        )
    }
}

fn hex_char(v: u8) -> (r: char)
    requires
        v < 16,
    ensures
        r == hex_digit(v as int),
{
    if v < 10 {
        (48u8 + v) as char
    } else {
        (97u8 + (v - 10)) as char
    }
}

/// Two hexadecimal digits for each byte.
pub fn hex(bytes: &Vec<u8>) -> (r: String)
    ensures
        r@ == hexadecimal(bytes@),
{
    let mut out = "".to_string();
    proof {
        reveal_strlit("");
    }
    for i in 0..bytes.len()
        invariant
            out@ =~= hexadecimal(bytes@.take(i as int)),
    {
        assert(bytes@.take(i + 1).drop_last() =~= bytes@.take(i as int));
        out.push(hex_char(bytes[i] / 16));
        out.push(hex_char(bytes[i] % 16));
    }
    assert(bytes@.take(bytes@.len() as int) =~= bytes@);
    out
}

// ---------------------------------------------------------------------------
// Laws
// ---------------------------------------------------------------------------
/// A code is read without white space around it, in capitals; `I` and `L` are
/// read as one, `O` as zero, and every other character stays what it is.
pub proof fn lookalikes_are_read_as_digits(value: Text, i: int)
    requires
        0 <= i < text::trim(value).len(),
    ensures
        normalized_code(value).len() == text::trim(value).len(),
        ({
            let c = text::trim(value)[i];
            let r = normalized_code(value)[i];
            &&& c == 'I' || c == 'i' || c == 'L' || c == 'l' ==> r == '1'
            &&& c == 'O' || c == 'o' ==> r == '0'
            &&& 'a' <= c <= 'z' && c != 'i' && c != 'l' && c != 'o' ==> r as int == c as int - 32
            &&& !('a' <= c <= 'z') && c != 'I' && c != 'L' && c != 'O' ==> r == c
        }),
{
}

/// What a digit of Crockford's alphabet is worth.
pub open spec fn crockford_value(c: char) -> int {
    if '0' <= c <= '9' {
        c as int - 48
    } else if 'A' <= c <= 'H' {
        c as int - 55
    } else if 'J' <= c <= 'K' {
        c as int - 56
    } else if 'M' <= c <= 'N' {
        c as int - 57
    } else if 'P' <= c <= 'T' {
        c as int - 58
    } else {
        c as int - 59
    }
}

/// The number that the digits of a code spell, the highest first.
pub open spec fn code_value(code: Text) -> int
    decreases code.len(),
{
    if code.len() == 0 {
        0
    } else {
        code_value(code.drop_last()) * 32 + crockford_value(code.last())
    }
}

/// The digits of a connection code spell the number that its five bytes do, the
/// first byte counting most.
pub proof fn codes_spell_their_bytes(bytes: Seq<u8>)
    requires
        bytes.len() == 5,
    ensures
        code_value(code_of(bytes)) == bytes[0] * 4_294_967_296 + bytes[1] * 16_777_216 + bytes[2]
            * 65_536 + bytes[3] * 256 + bytes[4],
{
    lemma_forty_bits(bytes);
    lemma_code_value(big_endian(bytes), 8);
    reveal_with_fuel(big_endian, 6);
    let a = bytes.drop_last();
    let b = a.drop_last();
    let c = b.drop_last();
    let d = c.drop_last();
    let e = d.drop_last();
    assert(e.len() == 0);
    assert(d.last() == bytes[0] && c.last() == bytes[1] && b.last() == bytes[2] && a.last()
        == bytes[3]);
    assert(big_endian(e) == 0);
    assert(big_endian(d) == bytes[0]);
    assert(big_endian(c) == bytes[0] * 256 + bytes[1]);
    assert(big_endian(b) == (bytes[0] * 256 + bytes[1]) * 256 + bytes[2]);
    assert(big_endian(a) == ((bytes[0] * 256 + bytes[1]) * 256 + bytes[2]) * 256 + bytes[3]);
}

proof fn lemma_code_value(bits: int, count: nat)
    requires
        0 <= bits < codes_of_length(count),
    ensures
        code_value(code_digits(bits, count)) == bits,
    decreases count,
{
    if count > 0 {
        let rest = code_digits(bits / 32, (count - 1) as nat);
        lemma_code_value(bits / 32, (count - 1) as nat);
        assert(code_digits(bits, count).drop_last() =~= rest);
        let v = bits % 32;
        assert(crockford_value(crockford(v)) == v);
    } else {
        assert(bits == 0);
    }
}

/// What a hexadecimal digit is worth.
pub open spec fn hex_value(c: char) -> int {
    if '0' <= c <= '9' {
        c as int - 48
    } else {
        c as int - 87
    }
}

/// Each byte has two hexadecimal digits in lower case, the high one first.
pub proof fn hexadecimal_digits_tell_the_bytes(bytes: Seq<u8>, i: int)
    requires
        0 <= i < bytes.len(),
    ensures
        ({
            let s = hexadecimal(bytes);
            let (a, b) = (s[2 * i], s[2 * i + 1]);
            &&& s.len() == 2 * bytes.len()
            &&& '0' <= a <= '9' || 'a' <= a <= 'f'
            &&& '0' <= b <= '9' || 'a' <= b <= 'f'
            &&& 16 * hex_value(a) + hex_value(b) == bytes[i]
        }),
    decreases bytes.len(),
{
    lemma_hex_length(bytes);
    let before = hexadecimal(bytes.drop_last());
    lemma_hex_length(bytes.drop_last());
    if i < bytes.len() - 1 {
        hexadecimal_digits_tell_the_bytes(bytes.drop_last(), i);
        assert(hexadecimal(bytes)[2 * i] == before[2 * i]);
        assert(hexadecimal(bytes)[2 * i + 1] == before[2 * i + 1]);
    }
}

proof fn lemma_hex_length(bytes: Seq<u8>)
    ensures
        hexadecimal(bytes).len() == 2 * bytes.len(),
    decreases bytes.len(),
{
    if bytes.len() > 0 {
        lemma_hex_length(bytes.drop_last());
    }
}

/// A verifier belongs to a challenge exactly when the challenge is the SHA-256
/// digest of its UTF-8 bytes, in the Base64 for URLs without padding.
pub proof fn challenges_are_digests(verifier: Text)
    ensures
        challenge_of(verifier) == base64_digits(sha256(vstd::utf8::encode_utf8(verifier)), true),
        hashed(verifier) == sha256(vstd::utf8::encode_utf8(verifier)),
{
}

} // verus!
