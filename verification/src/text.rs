//! Text as sequences of characters: splitting, trimming, joining and numbers.
use vstd::prelude::*;

verus! {

/// The model of a string: its characters in order.
pub type Text = Seq<char>;

/// `String::push` of the standard library appends the given character to the
/// end of the string; nothing else in the string changes.
pub assume_specification[ String::push ](s: &mut String, c: char)
    ensures
        final(s)@ == old(s)@.push(c),
;

// ---------------------------------------------------------------------------
// Characters
// ---------------------------------------------------------------------------
/// The characters with the Unicode property `White_Space`.
pub open spec fn is_space(c: char) -> bool {
    ||| '\u{9}' <= c <= '\u{d}'
    ||| c == ' '
    ||| c == '\u{85}'
    ||| c == '\u{a0}'
    ||| c == '\u{1680}'
    ||| '\u{2000}' <= c <= '\u{200a}'
    ||| c == '\u{2028}'
    ||| c == '\u{2029}'
    ||| c == '\u{202f}'
    ||| c == '\u{205f}'
    ||| c == '\u{3000}'
}

/// Tells whether a character is white space.
pub fn space(c: char) -> (r: bool)
    ensures
        r == is_space(c),
{
    ('\u{9}' <= c && c <= '\u{d}') || c == ' ' || c == '\u{85}' || c == '\u{a0}' || c == '\u{1680}'
        || ('\u{2000}' <= c && c <= '\u{200a}') || c == '\u{2028}' || c == '\u{2029}' || c
        == '\u{202f}' || c == '\u{205f}' || c == '\u{3000}'
}

/// The five ASCII characters that separate words in a scope list: space, tab,
/// line feed, form feed and carriage return.
pub open spec fn is_ascii_space(c: char) -> bool {
    c == ' ' || c == '\t' || c == '\n' || c == '\u{c}' || c == '\r'
}

pub open spec fn is_digit(c: char) -> bool {
    '0' <= c <= '9'
}

pub open spec fn is_upper(c: char) -> bool {
    'A' <= c <= 'Z'
}

pub open spec fn is_lower(c: char) -> bool {
    'a' <= c <= 'z'
}

pub open spec fn is_alphanumeric(c: char) -> bool {
    is_digit(c) || is_upper(c) || is_lower(c)
}

/// The lower-case form of an ASCII letter; every other character is kept.
pub open spec fn lower(c: char) -> char {
    if is_upper(c) {
        (c as u32 + 32) as char
    } else {
        c
    }
}

/// The upper-case form of an ASCII letter; every other character is kept.
pub open spec fn upper(c: char) -> char {
    if is_lower(c) {
        (c as u32 - 32) as char
    } else {
        c
    }
}

pub open spec fn lower_text(s: Text) -> Text {
    s.map_values(|c: char| lower(c))
}

pub open spec fn upper_text(s: Text) -> Text {
    s.map_values(|c: char| upper(c))
}

pub fn to_lower(c: char) -> (r: char)
    ensures
        r == lower(c),
{
    if 'A' <= c && c <= 'Z' {
        ((c as u8) + 32u8) as char
    } else {
        c
    }
}

pub fn to_upper(c: char) -> (r: char)
    ensures
        r == upper(c),
{
    if 'a' <= c && c <= 'z' {
        ((c as u8) - 32u8) as char
    } else {
        c
    }
}

// ---------------------------------------------------------------------------
// Conversions between strings and character vectors
// ---------------------------------------------------------------------------
/// The characters of a string.
pub fn chars_of(s: &str) -> (r: Vec<char>)
    ensures
        r@ == s@,
{
    let mut out: Vec<char> = Vec::new();
    for c in it: s.chars()
        invariant
            out@ == it.seq().take(it.index() as int),
            it.seq() == s@,
    {
        out.push(c);
    }
    out
}

/// The string made of the characters from `from` up to `to`.
pub fn string_between(v: &Vec<char>, from: usize, to: usize) -> (r: String)
    requires
        from <= to <= v@.len(),
    ensures
        r@ == v@.subrange(from as int, to as int),
{
    let mut out = String::new();
    for i in from..to
        invariant
            from <= to <= v@.len(),
            out@ == v@.subrange(from as int, i as int),
    {
        out.push(v[i]);
        assert(v@.subrange(from as int, i + 1) =~= v@.subrange(from as int, i as int).push(
            v@[i as int],
        ));
    }
    out
}

/// The string made of the given characters.
pub fn string_of(v: &Vec<char>) -> (r: String)
    ensures
        r@ == v@,
{
    let r = string_between(v, 0, v.len());
    assert(v@.subrange(0, v@.len() as int) =~= v@);
    r
}

/// Tells whether two character vectors hold the same characters.
pub fn same_chars(a: &Vec<char>, b: &Vec<char>) -> (r: bool)
    ensures
        r == (a@ == b@),
{
    if a.len() != b.len() {
        return false;
    }
    for i in 0..a.len()
        invariant
            a@.len() == b@.len(),
            a@.take(i as int) =~= b@.take(i as int),
    {
        if a[i] != b[i] {
            return false;
        }
        assert(a@.take(i + 1) =~= a@.take(i as int).push(a@[i as int]));
        assert(b@.take(i + 1) =~= b@.take(i as int).push(b@[i as int]));
    }
    assert(a@.take(a@.len() as int) =~= a@);
    assert(b@.take(b@.len() as int) =~= b@);
    true
}

/// Tells whether two strings hold the same characters.
pub fn same(a: &str, b: &str) -> (r: bool)
    ensures
        r == (a@ == b@),
{
    same_chars(&chars_of(a), &chars_of(b))
}

/// Tells whether a character vector holds the characters of a string.
pub fn chars_are(a: &Vec<char>, b: &str) -> (r: bool)
    ensures
        r == (a@ == b@),
{
    same_chars(a, &chars_of(b))
}

/// The model of a list of character vectors.
pub open spec fn texts(v: Seq<Vec<char>>) -> Seq<Text> {
    v.map_values(|l: Vec<char>| l@)
}

/// The model of a list of strings.
pub open spec fn strings(v: Seq<String>) -> Seq<Text> {
    v.map_values(|l: String| l@)
}

/// The model of an optional string.
pub open spec fn opt_text(v: Option<String>) -> Option<Text> {
    match v {
        Some(s) => Some(s@),
        None => None,
    }
}

/// Appends a string.
pub fn append(out: &mut String, s: &str)
    ensures
        final(out)@ == old(out)@ + s@,
{
    out.append(s);
}

/// A copy of a list of strings.
pub fn copy_strings(v: &Vec<String>) -> (r: Vec<String>)
    ensures
        strings(r@) == strings(v@),
        r@.len() == v@.len(),
{
    let mut out: Vec<String> = Vec::new();
    for i in 0..v.len()
        invariant
            out@.len() == i,
            forall|k: int| 0 <= k < i ==> out@[k]@ == v@[k]@,
    {
        out.push(v[i].clone());
    }
    assert(strings(out@) =~= strings(v@));
    out
}

/// A copy of a character vector.
pub fn copy_chars(v: &Vec<char>) -> (r: Vec<char>)
    ensures
        r@ == v@,
{
    chars_between(v, 0, v.len())
}

/// The characters from `from` up to `to`.
pub fn chars_between(v: &Vec<char>, from: usize, to: usize) -> (r: Vec<char>)
    requires
        from <= to <= v@.len(),
    ensures
        r@ == v@.subrange(from as int, to as int),
        from == 0 && to == v@.len() ==> r@ == v@,
{
    let mut out: Vec<char> = Vec::new();
    for i in from..to
        invariant
            from <= to <= v@.len(),
            out@ == v@.subrange(from as int, i as int),
    {
        out.push(v[i]);
        assert(v@.subrange(from as int, i + 1) =~= v@.subrange(from as int, i as int).push(
            v@[i as int],
        ));
    }
    assert(v@.subrange(0, v@.len() as int) =~= v@);
    out
}

// ---------------------------------------------------------------------------
// Prefixes and substrings
// ---------------------------------------------------------------------------
/// Whether `s` begins with `p`.
pub open spec fn begins(s: Text, p: Text) -> bool {
    p.len() <= s.len() && s.take(p.len() as int) == p
}

/// Whether `s` ends with `p`.
pub open spec fn ends(s: Text, p: Text) -> bool {
    p.len() <= s.len() && s.skip(s.len() - p.len()) == p
}

/// What follows the prefix `p`, when `s` begins with it.
pub open spec fn after_prefix(s: Text, p: Text) -> Option<Text> {
    if begins(s, p) {
        Some(s.skip(p.len() as int))
    } else {
        None
    }
}

/// Whether `p` stands in `s` at position `i`.
pub open spec fn occurs_at(s: Text, p: Text, i: int) -> bool {
    0 <= i && i + p.len() <= s.len() && s.subrange(i, i + p.len()) == p
}

/// Whether `p` stands somewhere in `s`.
pub open spec fn has_part(s: Text, p: Text) -> bool {
    exists|i: int| #[trigger] occurs_at(s, p, i)
}

/// Tells whether `p` stands in `s` at position `at`.
pub fn stands_at(s: &Vec<char>, p: &Vec<char>, at: usize) -> (r: bool)
    requires
        at <= s@.len(),
    ensures
        r == occurs_at(s@, p@, at as int),
{
    if p.len() > s.len() - at {
        return false;
    }
    for i in 0..p.len()
        invariant
            at + p@.len() <= s.len(),
            forall|k: int| 0 <= k < i ==> s@[at + k] == p@[k],
    {
        if s[at + i] != p[i] {
            assert(s@.subrange(at as int, at + p@.len())[i as int] != p@[i as int]);
            return false;
        }
    }
    assert(s@.subrange(at as int, at + p@.len()) =~= p@);
    true
}

/// Tells whether `s` begins with `p`.
pub fn starts_with(s: &Vec<char>, p: &str) -> (r: bool)
    ensures
        r == begins(s@, p@),
{
    let p = chars_of(p);
    if p.len() > s.len() {
        return false;
    }
    let r = stands_at(s, &p, 0);
    assert(s@.subrange(0, p@.len() as int) =~= s@.take(p@.len() as int));
    r
}

/// What follows the prefix `p` in `s`.
pub fn strip_prefix(s: &Vec<char>, p: &str) -> (r: Option<Vec<char>>)
    ensures
        match r {
            Some(rest) => after_prefix(s@, p@) == Some(rest@),
            None => after_prefix(s@, p@) is None,
        },
{
    if starts_with(s, p) {
        let n = chars_of(p).len();
        let rest = chars_between(s, n, s.len());
        assert(rest@ =~= s@.skip(p@.len() as int));
        Some(rest)
    } else {
        None
    }
}

/// Tells whether `p` stands somewhere in `s`.
pub fn contains(s: &Vec<char>, p: &Vec<char>) -> (r: bool)
    ensures
        r == has_part(s@, p@),
{
    for i in 0..s.len()
        invariant
            forall|k: int| 0 <= k < i ==> !#[trigger] occurs_at(s@, p@, k),
    {
        if stands_at(s, p, i) {
            return true;
        }
    }
    let r = stands_at(s, p, s.len());
    assert(!r ==> !has_part(s@, p@)) by {
        if has_part(s@, p@) {
            let k = choose|k: int| #[trigger] occurs_at(s@, p@, k);
            assert(k <= s@.len());
        }
    }
    r
}

// ---------------------------------------------------------------------------
// Splitting and joining
// ---------------------------------------------------------------------------
/// The position of the first `c` in `s`, or the length when there is none.
pub open spec fn first_index(s: Text, c: char) -> int
    decreases s.len(),
{
    if s.len() == 0 || s[0] == c {
        0
    } else {
        1 + first_index(s.skip(1), c)
    }
}

/// The parts of `s` between the occurrences of `sep`; there is always one.
pub open spec fn split(s: Text, sep: char) -> Seq<Text>
    decreases s.len(),
{
    let i = first_index(s, sep);
    if 0 <= i < s.len() {
        seq![s.take(i)] + split(s.skip(i + 1), sep)
    } else {
        seq![s]
    }
}

/// `i` is the first position of `c` when nothing before it is `c`.
pub proof fn lemma_first_index(s: Text, c: char, i: int)
    requires
        0 <= i <= s.len(),
        forall|k: int| 0 <= k < i ==> s[k] != c,
        i < s.len() ==> s[i] == c,
    ensures
        first_index(s, c) == i,
    decreases s.len(),
{
    if i > 0 {
        lemma_first_index(s.skip(1), c, i - 1);
    }
}

/// The first position is within the text, and nothing before it is `c`.
pub proof fn lemma_first_index_bounds(s: Text, c: char)
    ensures
        0 <= first_index(s, c) <= s.len(),
        forall|k: int| 0 <= k < first_index(s, c) ==> s[k] != c,
        first_index(s, c) < s.len() ==> s[first_index(s, c)] == c,
    decreases s.len(),
{
    if s.len() > 0 && s[0] != c {
        lemma_first_index_bounds(s.skip(1), c);
        assert forall|k: int| 0 <= k < first_index(s, c) implies s[k] != c by {
            if k > 0 {
                assert(s.skip(1)[k - 1] == s[k]);
            }
        }
    }
}

/// The parts of `s` between the occurrences of `sep`.
pub fn split_chars(s: &Vec<char>, sep: char) -> (r: Vec<Vec<char>>)
    ensures
        texts(r@) == split(s@, sep),
        r@.len() >= 1,
{
    let mut out: Vec<Vec<char>> = Vec::new();
    let mut start: usize = 0;
    let mut i: usize = 0;
    assert(s@.skip(0) =~= s@);
    assert(texts(out@) =~= Seq::<Text>::empty());
    assert(texts(out@) + split(s@, sep) =~= split(s@, sep));
    while i < s.len()
        invariant
            start <= i <= s@.len(),
            forall|k: int| start <= k < i ==> s@[k] != sep,
            split(s@, sep) == texts(out@) + split(s@.skip(start as int), sep),
        decreases s@.len() - i,
    {
        if s[i] == sep {
            let ghost before = out@;
            proof {
                lemma_first_index(s@.skip(start as int), sep, i - start);
            }
            let part = chars_between(s, start, i);
            out.push(part);
            proof {
                let t = s@.skip(start as int);
                assert(t.take(i - start) =~= part@);
                assert(t.skip(i - start + 1) =~= s@.skip(i + 1));
                assert(texts(out@) =~= texts(before).push(part@));
                assert(texts(before) + (seq![part@] + split(s@.skip(i + 1), sep)) =~= texts(out@)
                    + split(s@.skip(i + 1), sep));
            }
            start = i + 1;
        }
        i = i + 1;
    }
    let ghost before = out@;
    proof {
        lemma_first_index(s@.skip(start as int), sep, s@.len() - start);
    }
    let part = chars_between(s, start, s.len());
    out.push(part);
    proof {
        assert(part@ =~= s@.skip(start as int));
        assert(texts(out@) =~= texts(before).push(part@));
        assert(texts(before) + seq![part@] =~= texts(out@));
    }
    out
}

/// The parts one after the other with `sep` between them.
pub open spec fn join(parts: Seq<Text>, sep: Text) -> Text
    decreases parts.len(),
{
    if parts.len() == 0 {
        Seq::empty()
    } else if parts.len() == 1 {
        parts[0]
    } else {
        join(parts.drop_last(), sep) + sep + parts.last()
    }
}

/// The parts one after the other with `sep` between them.
pub fn join_chars(parts: &Vec<Vec<char>>, sep: &str) -> (r: String)
    ensures
        r@ == join(texts(parts@), sep@),
{
    let mut out = String::new();
    let ghost all = texts(parts@);
    for i in 0..parts.len()
        invariant
            all == texts(parts@),
            out@ == join(all.take(i as int), sep@),
    {
        proof {
            assert(all.take(i + 1).drop_last() =~= all.take(i as int));
            assert(all.take(i + 1).last() == parts@[i as int]@);
        }
        if i > 0 {
            out.append(sep);
        }
        let piece = string_of(&parts[i]);
        out.append(piece.as_str());
        assert(out@ =~= join(all.take(i + 1), sep@));
    }
    assert(all.take(parts@.len() as int) =~= all);
    out
}

/// The strings one after the other with `sep` between them.
pub fn join_strings(parts: &Vec<String>, sep: &str) -> (r: String)
    ensures
        r@ == join(strings(parts@), sep@),
{
    let mut out = String::new();
    let ghost all = strings(parts@);
    for i in 0..parts.len()
        invariant
            all == strings(parts@),
            out@ == join(all.take(i as int), sep@),
    {
        proof {
            assert(all.take(i + 1).drop_last() =~= all.take(i as int));
            assert(all.take(i + 1).last() == parts@[i as int]@);
        }
        if i > 0 {
            out.append(sep);
        }
        out.append(parts[i].as_str());
        assert(out@ =~= join(all.take(i + 1), sep@));
    }
    assert(all.take(parts@.len() as int) =~= all);
    out
}

// ---------------------------------------------------------------------------
// Order
// ---------------------------------------------------------------------------
/// Whether a text comes before another, character by character.
pub open spec fn before(a: Text, b: Text) -> bool
    decreases a.len(),
{
    if b.len() == 0 {
        false
    } else if a.len() == 0 {
        true
    } else if a[0] != b[0] {
        a[0] < b[0]
    } else {
        before(a.skip(1), b.skip(1))
    }
}

/// Of two different texts one comes before the other.
pub proof fn lemma_before_total(a: Text, b: Text)
    ensures
        before(a, b) || before(b, a) || a == b,
    decreases a.len(),
{
    if a.len() > 0 && b.len() > 0 && a[0] == b[0] {
        lemma_before_total(a.skip(1), b.skip(1));
        if a.skip(1) == b.skip(1) {
            assert(a =~= seq![a[0]] + a.skip(1));
            assert(b =~= seq![b[0]] + b.skip(1));
        }
    } else if a.len() == 0 && b.len() == 0 {
        assert(a =~= b);
    }
}

/// What comes before a text comes before all that follow it, and no text comes
/// before itself.
pub proof fn lemma_before_order(a: Text, b: Text, c: Text)
    ensures
        before(a, b) && before(b, c) ==> before(a, c),
        !before(a, a),
    decreases a.len(),
{
    if a.len() > 0 {
        lemma_before_order(
            a.skip(1),
            if b.len() > 0 {
                b.skip(1)
            } else {
                b
            },
            if c.len() > 0 {
                c.skip(1)
            } else {
                c
            },
        );
    }
}

/// Tells whether a text comes before another.
pub fn less(a: &str, b: &str) -> (r: bool)
    ensures
        r == before(a@, b@),
{
    let x = chars_of(a);
    let y = chars_of(b);
    let mut i: usize = 0;
    assert(x@.skip(0) =~= x@);
    assert(y@.skip(0) =~= y@);
    while i < x.len() && i < y.len() && x[i] == y[i]
        invariant
            i <= x@.len(),
            i <= y@.len(),
            before(x@, y@) == before(x@.skip(i as int), y@.skip(i as int)),
        decreases x@.len() - i,
    {
        assert(x@.skip(i as int).skip(1) =~= x@.skip(i + 1));
        assert(y@.skip(i as int).skip(1) =~= y@.skip(i + 1));
        i = i + 1;
    }
    if i >= y.len() {
        false
    } else if i >= x.len() {
        true
    } else {
        x[i] < y[i]
    }
}

// ---------------------------------------------------------------------------
// Trimming
// ---------------------------------------------------------------------------
/// `s` without the white space at its end.
pub open spec fn trim_end(s: Text) -> Text
    decreases s.len(),
{
    if s.len() > 0 && is_space(s.last()) {
        trim_end(s.drop_last())
    } else {
        s
    }
}

/// `s` without the white space at its start.
pub open spec fn trim_start(s: Text) -> Text
    decreases s.len(),
{
    if s.len() > 0 && is_space(s[0]) {
        trim_start(s.skip(1))
    } else {
        s
    }
}

/// `s` without the white space at both ends.
pub open spec fn trim(s: Text) -> Text {
    trim_end(trim_start(s))
}

proof fn lemma_trim_start(s: Text)
    ensures
        trim_start(s).len() > 0 ==> !is_space(trim_start(s)[0]),
    decreases s.len(),
{
    if s.len() > 0 && is_space(s[0]) {
        lemma_trim_start(s.skip(1));
    }
}

proof fn lemma_trim_end(s: Text)
    ensures
        trim_end(s).len() <= s.len(),
        trim_end(s) == s.take(trim_end(s).len() as int),
        trim_end(s).len() > 0 ==> !is_space(trim_end(s).last()),
    decreases s.len(),
{
    if s.len() > 0 && is_space(s.last()) {
        lemma_trim_end(s.drop_last());
        let n = trim_end(s).len() as int;
        assert(s.drop_last().take(n) =~= s.take(n));
    } else {
        assert(s.take(s.len() as int) =~= s);
    }
}

/// A trimmed text has no white space at either end, so that trimming it again
/// changes nothing.
pub proof fn lemma_trimmed(s: Text)
    ensures
        trim(s).len() > 0 ==> !is_space(trim(s)[0]) && !is_space(trim(s).last()),
        trim(trim(s)) == trim(s),
{
    lemma_trim_start(s);
    lemma_trim_end(trim_start(s));
}

/// No part of a split text holds the separator.
pub proof fn lemma_split_parts(s: Text, sep: char)
    ensures
        split(s, sep).len() >= 1,
        forall|i: int| 0 <= i < split(s, sep).len() ==> !(#[trigger] split(s, sep)[i]).contains(sep),
    decreases s.len(),
{
    lemma_first_index_bounds(s, sep);
    let i = first_index(s, sep);
    if i < s.len() {
        lemma_split_parts(s.skip(i + 1), sep);
    }
}

/// The white space at the end of a character vector is left out.
pub fn trim_end_chars(s: &Vec<char>) -> (r: Vec<char>)
    ensures
        r@ == trim_end(s@),
{
    let mut n: usize = s.len();
    assert(s@.take(s@.len() as int) =~= s@);
    while n > 0 && space(s[n - 1])
        invariant
            n <= s@.len(),
            trim_end(s@) == trim_end(s@.take(n as int)),
        decreases n,
    {
        assert(s@.take(n as int).drop_last() =~= s@.take(n - 1));
        n = n - 1;
    }
    let r = chars_between(s, 0, n);
    assert(r@ =~= s@.take(n as int));
    r
}

/// The white space at both ends of a character vector is left out.
pub fn trim_chars(s: &Vec<char>) -> (r: Vec<char>)
    ensures
        r@ == trim(s@),
{
    let mut i: usize = 0;
    assert(s@.skip(0) =~= s@);
    while i < s.len() && space(s[i])
        invariant
            i <= s@.len(),
            trim_start(s@) == trim_start(s@.skip(i as int)),
        decreases s@.len() - i,
    {
        assert(s@.skip(i as int).skip(1) =~= s@.skip(i + 1));
        i = i + 1;
    }
    let rest = chars_between(s, i, s.len());
    assert(rest@ =~= s@.skip(i as int));
    trim_end_chars(&rest)
}

// ---------------------------------------------------------------------------
// Numbers
// ---------------------------------------------------------------------------
/// The decimal digit `d`.
pub open spec fn digit(d: int) -> char {
    (48 + d) as char
}

/// A natural number in decimal notation.
pub open spec fn decimal(n: nat) -> Text
    decreases n,
{
    if n < 10 {
        seq![digit(n as int)]
    } else {
        decimal(n / 10).push(digit((n % 10) as int))
    }
}

/// An integer in decimal notation, with `-` before a negative one.
pub open spec fn decimal_int(n: int) -> Text {
    if n < 0 {
        seq!['-'] + decimal((-n) as nat)
    } else {
        decimal(n as nat)
    }
}

/// A natural number in decimal notation.
pub fn number(n: u64) -> (r: String)
    ensures
        r@ == decimal(n as nat),
    decreases n,
{
    let last = ((n % 10) as u8 + 48u8) as char;
    let mut out = if n < 10 {
        String::new()
    } else {
        number(n / 10)
    };
    out.push(last);
    assert(n < 10 ==> out@ =~= seq![digit(n as int)]);
    out
}

/// An integer in decimal notation.
pub fn signed_number(n: i64) -> (r: String)
    ensures
        r@ == decimal_int(n as int),
{
    if n < 0 {
        let mut out = String::new();
        out.push('-');
        let magnitude = number((-(n as i128)) as u64);
        out.append(magnitude.as_str());
        assert(out@ =~= seq!['-'] + decimal((-n) as nat));
        out
    } else {
        number(n as u64)
    }
}

// ---------------------------------------------------------------------------
// Words and numbers
// ---------------------------------------------------------------------------
/// Where the word that reaches `i` ends: at the next white space or the end.
pub open spec fn word_end(s: Text, i: int) -> int
    decreases s.len() - i,
{
    if i < 0 || i >= s.len() || is_space(s[i]) {
        i
    } else {
        word_end(s, i + 1)
    }
}

/// The words of a text from an index on: what stands between white space.
pub open spec fn words_from(s: Text, i: int) -> Seq<Text>
    decreases s.len() - i,
{
    if i < 0 || i >= s.len() {
        Seq::empty()
    } else if is_space(s[i]) {
        words_from(s, i + 1)
    } else {
        proof {
            lemma_word_end(s, i);
        }
        seq![s.subrange(i, word_end(s, i))] + words_from(s, word_end(s, i))
    }
}

/// A word ends within the text, after its start.
pub proof fn lemma_word_end(s: Text, i: int)
    requires
        0 <= i <= s.len(),
    ensures
        i <= word_end(s, i) <= s.len(),
        i < s.len() && !is_space(s[i]) ==> i < word_end(s, i),
    decreases s.len() - i,
{
    if i < s.len() && !is_space(s[i]) {
        lemma_word_end(s, i + 1);
    }
}

/// The words of a text.
pub fn words(s: &Vec<char>) -> (r: Vec<Vec<char>>)
    ensures
        texts(r@) == words_from(s@, 0),
{
    let mut out: Vec<Vec<char>> = Vec::new();
    let mut i: usize = 0;
    let ghost whole = words_from(s@, 0);
    assert(texts(out@) + words_from(s@, 0) =~= whole);
    while i < s.len()
        invariant
            i <= s@.len(),
            whole == words_from(s@, 0),
            texts(out@) + words_from(s@, i as int) == whole,
        decreases s@.len() - i,
    {
        if space(s[i]) {
            i = i + 1;
        } else {
            let mut end: usize = i;
            while end < s.len() && !space(s[end])
                invariant
                    i <= end <= s@.len(),
                    word_end(s@, i as int) == word_end(s@, end as int),
                decreases s@.len() - end,
            {
                end = end + 1;
            }
            proof {
                lemma_word_end(s@, i as int);
            }
            let word = chars_between(s, i, end);
            let ghost before = out@;
            out.push(word);
            assert(texts(out@) =~= texts(before).push(word@));
            assert(texts(out@) + words_from(s@, end as int) =~= texts(before) + (seq![word@]
                + words_from(s@, end as int)));
            i = end;
        }
    }
    assert(texts(out@) + Seq::<Text>::empty() =~= texts(out@));
    out
}

/// Whether every character is a digit.
pub open spec fn all_digits(s: Text) -> bool {
    forall|i: int| 0 <= i < s.len() ==> is_digit(#[trigger] s[i])
}

/// The number that digits spell.
pub open spec fn value_of(s: Text) -> nat
    decreases s.len(),
{
    if s.len() == 0 {
        0
    } else {
        value_of(s.drop_last()) * 10 + (s.last() as nat - '0' as nat) as nat
    }
}

/// The digits of a number without a plus sign before them.
pub open spec fn unsigned(s: Text) -> Text {
    if s.len() > 0 && s[0] == '+' {
        s.skip(1)
    } else {
        s
    }
}

/// The number that a text spells, where it is one up to `max`.
pub open spec fn parsed_number(s: Text, max: nat) -> Option<nat> {
    let digits = unsigned(s);
    if digits.len() == 0 || !all_digits(digits) || value_of(digits) > max {
        None
    } else {
        Some(value_of(digits))
    }
}

proof fn lemma_value_grows(s: Text, n: int)
    requires
        0 <= n <= s.len(),
        all_digits(s),
    ensures
        value_of(s.take(n)) <= value_of(s),
    decreases s.len() - n,
{
    if n < s.len() {
        lemma_value_grows(s, n + 1);
        assert(s.take(n + 1).drop_last() =~= s.take(n));
        assert(is_digit(s[n]));
    } else {
        assert(s.take(n) =~= s);
    }
}

fn digits_value(digits: &Vec<char>) -> (r: Option<u32>)
    requires
        all_digits(digits@),
    ensures
        match r {
            Some(n) => value_of(digits@) == n,
            None => value_of(digits@) > u32::MAX,
        },
{
    let mut value: u64 = 0;
    assert(digits@.take(0) =~= Seq::empty());
    for i in 0..digits.len()
        invariant
            all_digits(digits@),
            value == value_of(digits@.take(i as int)),
            value <= u32::MAX,
    {
        assert(is_digit(digits@[i as int]));
        assert(digits@.take(i + 1).drop_last() =~= digits@.take(i as int));
        let digit: u64 = (digits[i] as u32 - '0' as u32) as u64;
        value = value * 10 + digit;
        if value > u32::MAX as u64 {
            proof {
                lemma_value_grows(digits@, i + 1);
            }
            return None;
        }
    }
    assert(digits@.take(digits@.len() as int) =~= digits@);
    Some(value as u32)
}

/// The number that a text spells, where it is one of 32 bits.
pub fn parse_u32(s: &Vec<char>) -> (r: Option<u32>)
    ensures
        match r {
            Some(n) => parsed_number(s@, u32::MAX as nat) == Some(n as nat),
            None => parsed_number(s@, u32::MAX as nat) == None::<nat>,
        },
{
    let start: usize = if s.len() > 0 && s[0] == '+' {
        1
    } else {
        0
    };
    let digits = chars_between(s, start, s.len());
    assert(digits@ =~= unsigned(s@));
    if digits.len() == 0 {
        return None;
    }
    for k in 0..digits.len()
        invariant
            digits@ == unsigned(s@),
            forall|j: int| 0 <= j < k ==> is_digit(#[trigger] digits@[j]),
    {
        if digits[k] < '0' || digits[k] > '9' {
            assert(!is_digit(digits@[k as int]));
            return None;
        }
    }
    digits_value(&digits)
}

// ---------------------------------------------------------------------------
// Laws
// ---------------------------------------------------------------------------
/// White space is what Unicode calls so, and nothing else.
pub proof fn white_space_is_that_of_unicode(c: char)
    ensures
        is_space(c) <==> (9 <= c as u32 <= 13 || c as u32 == 32 || c as u32 == 0x85 || c as u32
            == 0xa0 || c as u32 == 0x1680 || 0x2000 <= c as u32 <= 0x200a || c as u32 == 0x2028
            || c as u32 == 0x2029 || c as u32 == 0x202f || c as u32 == 0x205f || c as u32
            == 0x3000),
        is_ascii_space(c) <==> (c as u32 == 9 || c as u32 == 10 || c as u32 == 12 || c as u32 == 13
            || c as u32 == 32),
{
}

proof fn lemma_trimmed_start(s: Text) -> (n: int)
    ensures
        0 <= n <= s.len(),
        trim_start(s) == s.skip(n),
        forall|k: int| 0 <= k < n ==> is_space(#[trigger] s[k]),
        n < s.len() ==> !is_space(s[n]),
    decreases s.len(),
{
    if s.len() > 0 && is_space(s[0]) {
        let m = lemma_trimmed_start(s.skip(1));
        assert(s.skip(1).skip(m) =~= s.skip(m + 1));
        assert forall|k: int| 0 <= k < m + 1 implies is_space(#[trigger] s[k]) by {
            if k > 0 {
                assert(s.skip(1)[k - 1] == s[k]);
            }
        }
        m + 1
    } else {
        assert(s.skip(0) =~= s);
        0
    }
}

proof fn lemma_trimmed_end(s: Text) -> (n: int)
    ensures
        0 <= n <= s.len(),
        trim_end(s) == s.take(n),
        forall|k: int| n <= k < s.len() ==> is_space(#[trigger] s[k]),
        n > 0 ==> !is_space(s[n - 1]),
    decreases s.len(),
{
    if s.len() > 0 && is_space(s.last()) {
        let m = lemma_trimmed_end(s.drop_last());
        assert(s.drop_last().take(m) =~= s.take(m));
        assert forall|k: int| m <= k < s.len() implies is_space(#[trigger] s[k]) by {
            if k < s.len() - 1 {
                assert(s.drop_last()[k] == s[k]);
            }
        }
        m
    } else {
        assert(s.take(s.len() as int) =~= s);
        s.len() as int
    }
}

/// Trimming drops white space at the ends, all of it there and nothing else.
pub proof fn trimming_drops_only_white_space(s: Text)
    ensures
        exists|n: int|
            0 <= n <= s.len() && trim_end(s) == #[trigger] s.take(n) && (forall|k: int|
                n <= k < s.len() ==> is_space(#[trigger] s[k])) && (n > 0 ==> !is_space(s[n - 1])),
        exists|a: int, b: int|
            0 <= a <= b <= s.len() && trim(s) == #[trigger] s.subrange(a, b) && (forall|k: int|
                0 <= k < s.len() && !(a <= k < b) ==> is_space(#[trigger] s[k])) && (a < b
                ==> !is_space(s[a]) && !is_space(s[b - 1])),
{
    let n = lemma_trimmed_end(s);
    assert(trim_end(s) == s.take(n));
    let a = lemma_trimmed_start(s);
    let rest = trim_start(s);
    let m = lemma_trimmed_end(rest);
    let b = a + m;
    assert(rest.take(m) =~= s.subrange(a, b));
    assert forall|k: int| 0 <= k < s.len() && !(a <= k < b) implies is_space(#[trigger] s[k]) by {
        if k >= b {
            assert(rest[k - a] == s[k]);
        }
    }
    if a < b {
        assert(rest[m - 1] == s[b - 1]);
        assert(rest[0] == s[a]);
    }
    assert(trim(s) == s.subrange(a, b));
}

pub proof fn lemma_join_first(parts: Seq<Text>, sep: Text)
    requires
        parts.len() >= 2,
    ensures
        join(parts, sep) == parts[0] + sep + join(parts.skip(1), sep),
    decreases parts.len(),
{
    if parts.len() == 2 {
        assert(parts.drop_last().len() == 1 && parts.drop_last()[0] == parts[0]);
        assert(parts.skip(1).len() == 1 && parts.skip(1)[0] == parts[1]);
        assert(join(parts.drop_last(), sep) == parts[0]);
        assert(join(parts.skip(1), sep) == parts[1]);
        assert(join(parts, sep) =~= parts[0] + sep + join(parts.skip(1), sep));
    } else {
        lemma_join_first(parts.drop_last(), sep);
        assert(parts.drop_last().skip(1) =~= parts.skip(1).drop_last());
        assert(parts.skip(1).last() == parts.last());
        assert(join(parts.skip(1), sep) == join(parts.skip(1).drop_last(), sep) + sep
            + parts.last());
        assert(join(parts, sep) =~= parts[0] + sep + join(parts.skip(1), sep));
    }
}

/// Splitting loses nothing: the parts with the separator between them are the
/// text again, and none of them holds the separator.
pub proof fn splitting_loses_nothing(s: Text, sep: char)
    ensures
        join(split(s, sep), seq![sep]) == s,
        forall|i: int| 0 <= i < split(s, sep).len() ==> !(#[trigger] split(s, sep)[i]).contains(sep),
    decreases s.len(),
{
    lemma_split_parts(s, sep);
    lemma_first_index_bounds(s, sep);
    let i = first_index(s, sep);
    if i < s.len() {
        let rest = s.skip(i + 1);
        splitting_loses_nothing(rest, sep);
        lemma_split_parts(rest, sep);
        let parts = split(s, sep);
        lemma_join_first(parts, seq![sep]);
        assert(parts.skip(1) =~= split(rest, sep));
        assert(s =~= s.take(i) + seq![sep] + rest);
    }
}

/// The parts of a text that was joined from parts without the separator are
/// those parts.
pub proof fn joining_loses_nothing(parts: Seq<Text>, sep: char)
    requires
        parts.len() > 0,
        forall|i: int| 0 <= i < parts.len() ==> !(#[trigger] parts[i]).contains(sep),
    ensures
        split(join(parts, seq![sep]), sep) == parts,
    decreases parts.len(),
{
    let s = join(parts, seq![sep]);
    let first = parts[0];
    assert forall|k: int| 0 <= k < first.len() implies first[k] != sep by {
        assert(first.contains(first[k]));
    }
    if parts.len() == 1 {
        lemma_first_index(s, sep, s.len() as int);
        assert(split(s, sep) =~= parts);
    } else {
        lemma_join_first(parts, seq![sep]);
        let tail = parts.skip(1);
        assert forall|i: int| 0 <= i < tail.len() implies !(#[trigger] tail[i]).contains(sep) by {
            assert(tail[i] == parts[i + 1]);
        }
        joining_loses_nothing(tail, sep);
        lemma_first_index(s, sep, first.len() as int);
        assert(s.take(first.len() as int) =~= first);
        assert(s.skip(first.len() as int + 1) =~= join(tail, seq![sep]));
        assert(split(s, sep) =~= parts);
    }
}

/// A number in decimal notation is read back as that number, and has no
/// needless zero before it.
pub proof fn numbers_read_back(n: nat)
    ensures
        all_digits(decimal(n)),
        value_of(decimal(n)) == n,
        decimal(n).len() > 0,
        n > 0 ==> decimal(n)[0] != '0',
        n == 0 ==> decimal(n) == seq!['0'],
    decreases n,
{
    if n >= 10 {
        numbers_read_back(n / 10);
        assert(decimal(n).drop_last() =~= decimal(n / 10));
        assert(decimal(n)[0] == decimal(n / 10)[0]);
        assert(value_of(decimal(n)) == value_of(decimal(n / 10)) * 10 + (decimal(n).last() as nat
            - '0' as nat) as nat);
    } else {
        assert(decimal(n).drop_last() =~= Seq::empty());
        assert(value_of(Seq::empty()) == 0);
        assert(value_of(decimal(n)) == value_of(decimal(n).drop_last()) * 10 + (decimal(
            n,
        ).last() as nat - '0' as nat) as nat);
    }
}

/// An integer is written with `-` before it exactly when it is negative, and
/// different integers are written differently.
pub proof fn integers_read_back(n: int, other: int)
    ensures
        n >= 0 ==> all_digits(decimal_int(n)) && value_of(decimal_int(n)) == n,
        n < 0 ==> decimal_int(n)[0] == '-' && all_digits(decimal_int(n).skip(1)) && value_of(
            decimal_int(n).skip(1),
        ) == -n,
        decimal_int(n) == decimal_int(other) ==> n == other,
{
    if n >= 0 {
        numbers_read_back(n as nat);
    } else {
        numbers_read_back((-n) as nat);
        assert(decimal_int(n).skip(1) =~= decimal((-n) as nat));
    }
    if other >= 0 {
        numbers_read_back(other as nat);
        assert(is_digit(decimal_int(other)[0]));
    } else {
        numbers_read_back((-other) as nat);
        assert(decimal_int(other).skip(1) =~= decimal((-other) as nat));
    }
    if n >= 0 {
        assert(is_digit(decimal_int(n)[0]));
    }
}

/// Names come in alphabetical order: at the first place where two of them
/// differ, the one with the smaller character, or with none, comes first.
pub proof fn names_come_in_alphabetical_order(a: Text, b: Text)
    ensures
        before(a, b) <==> exists|k: int|
            {
                &&& 0 <= k <= a.len()
                &&& k < b.len()
                &&& #[trigger] a.take(k) == b.take(k)
                &&& k == a.len() || a[k] < b[k]
            },
        !(before(a, b) && before(b, a)),
        a == b ==> !before(a, b),
    decreases a.len(),
{
    if a.len() > 0 && b.len() > 0 && a[0] == b[0] {
        let (x, y) = (a.skip(1), b.skip(1));
        names_come_in_alphabetical_order(x, y);
        if before(x, y) {
            let k = choose|k: int|
                {
                    &&& 0 <= k <= x.len()
                    &&& k < y.len()
                    &&& #[trigger] x.take(k) == y.take(k)
                    &&& k == x.len() || x[k] < y[k]
                };
            assert(a.take(k + 1) =~= b.take(k + 1)) by {
                assert forall|i: int| 0 <= i < k + 1 implies a[i] == b[i] by {
                    if i > 0 {
                        assert(x.take(k)[i - 1] == y.take(k)[i - 1]);
                    }
                }
            }
        }
        if exists|k: int|
            {
                &&& 0 <= k <= a.len()
                &&& k < b.len()
                &&& #[trigger] a.take(k) == b.take(k)
                &&& k == a.len() || a[k] < b[k]
            } {
            let k = choose|k: int|
                {
                    &&& 0 <= k <= a.len()
                    &&& k < b.len()
                    &&& #[trigger] a.take(k) == b.take(k)
                    &&& k == a.len() || a[k] < b[k]
                };
            assert(k > 0);
            assert(x.take(k - 1) =~= y.take(k - 1)) by {
                assert forall|i: int| 0 <= i < k - 1 implies x[i] == y[i] by {
                    assert(a.take(k)[i + 1] == b.take(k)[i + 1]);
                }
            }
        }
    } else if b.len() > 0 {
        if before(a, b) {
            assert(a.take(0) =~= b.take(0));
        }
        assert forall|k: int|
            {
                &&& 0 < k <= a.len()
                &&& k < b.len()
            } implies #[trigger] a.take(k) != b.take(k) by {
            assert(a.take(k)[0] == a[0]);
            assert(b.take(k)[0] == b[0]);
        }
    }
}

/// Letters of ASCII change their case by their distance in the alphabet, and
/// nothing else changes.
pub proof fn only_letters_have_a_case(c: char, s: Text)
    ensures
        'A' <= c <= 'Z' ==> lower(c) as int == c as int + 32,
        !('A' <= c <= 'Z') ==> lower(c) == c,
        'a' <= c <= 'z' ==> upper(c) as int == c as int - 32,
        !('a' <= c <= 'z') ==> upper(c) == c,
        lower(upper(c)) == lower(c),
        upper(lower(c)) == upper(c),
        lower_text(s).len() == s.len(),
        forall|i: int| 0 <= i < s.len() ==> #[trigger] lower_text(s)[i] == lower(s[i]),
{
}

/// The white space between words of scopes is that of ASCII.
pub proof fn ascii_has_five_spaces(c: char)
    ensures
        is_ascii_space(c) <==> c as int == 32 || c as int == 9 || c as int == 10 || c as int == 12
            || c as int == 13,
{
}

/// A number in decimal notation, with or without a plus sign, is read up to the
/// largest one that is asked for; what is no number is not.
pub proof fn numbers_are_read(n: nat, max: nat, s: Text)
    ensures
        parsed_number(decimal(n), max) == (if n <= max {
            Some(n)
        } else {
            None
        }),
        parsed_number(seq!['+'] + decimal(n), max) == (if n <= max {
            Some(n)
        } else {
            None
        }),
        parsed_number(s, max) is Some ==> s.len() > 0 && forall|i: int|
            0 < i < s.len() ==> '0' <= #[trigger] s[i] <= '9',
        parsed_number(s, max) is Some ==> '0' <= s[0] <= '9' || s[0] == '+' && s.len() > 1,
        parsed_number(s, max) matches Some(v) ==> v <= max,
{
    numbers_read_back(n);
    let d = decimal(n);
    assert(is_digit(d[0]));
    assert((seq!['+'] + d).skip(1) =~= d);
    if parsed_number(s, max) is Some {
        let u = unsigned(s);
        assert(is_digit(u[0]));
        assert forall|i: int| 0 < i < s.len() implies '0' <= #[trigger] s[i] <= '9' by {
            if s[0] == '+' {
                assert(is_digit(u[i - 1]));
            } else {
                assert(is_digit(u[i]));
            }
        }
    }
}

/// The words of a text are what stands between its white space: a word with
/// white space behind it is the first word, and the others are those of the
/// rest.
pub proof fn words_stand_between_white_space(word: Text, c: char, rest: Text)
    requires
        word.len() > 0,
        forall|i: int| 0 <= i < word.len() ==> !is_space(#[trigger] word[i]),
        is_space(c),
    ensures
        words_from(word, 0) == seq![word],
        words_from(word + seq![c] + rest, 0) == seq![word] + words_from(rest, 0),
        words_from(seq![c] + rest, 0) == words_from(rest, 0),
{
    lemma_word_ends(word, word, 0);
    assert(word.subrange(0, word.len() as int) =~= word);
    assert(words_from(word, word.len() as int) =~= Seq::empty());
    let whole = word + seq![c] + rest;
    assert forall|i: int| 0 <= i < word.len() implies whole[i] == word[i] by {}
    assert(whole[word.len() as int] == c);
    lemma_word_ends(whole, word, 0);
    assert(whole.subrange(0, word.len() as int) =~= word);
    let n = word.len() as int;
    assert(words_from(whole, n) == words_from(whole, n + 1));
    lemma_words_shifted(word + seq![c], rest, 0);
    let behind = seq![c] + rest;
    assert(behind[0] == c);
    lemma_words_shifted(seq![c], rest, 0);
}

proof fn lemma_word_ends(s: Text, word: Text, i: int)
    requires
        0 <= i <= word.len() <= s.len(),
        forall|k: int| 0 <= k < word.len() ==> s[k] == word[k] && !is_space(#[trigger] word[k]),
        word.len() < s.len() ==> is_space(s[word.len() as int]),
    ensures
        word_end(s, i) == word.len(),
    decreases word.len() - i,
{
    if i < word.len() {
        assert(!is_space(word[i]));
        lemma_word_ends(s, word, i + 1);
    }
}

proof fn lemma_words_shifted(before: Text, s: Text, i: int)
    requires
        0 <= i <= s.len(),
    ensures
        words_from(before + s, before.len() + i) == words_from(s, i),
    decreases s.len() - i,
{
    let whole = before + s;
    if i < s.len() {
        assert(whole[before.len() + i] == s[i]);
        if is_space(s[i]) {
            lemma_words_shifted(before, s, i + 1);
        } else {
            lemma_end_shifted(before, s, i);
            lemma_word_end(s, i);
            lemma_words_shifted(before, s, word_end(s, i));
            assert(whole.subrange(before.len() + i, before.len() + word_end(s, i)) =~= s.subrange(
                i,
                word_end(s, i),
            ));
        }
    }
}

proof fn lemma_end_shifted(before: Text, s: Text, i: int)
    requires
        0 <= i <= s.len(),
    ensures
        word_end(before + s, before.len() + i) == before.len() + word_end(s, i),
    decreases s.len() - i,
{
    if i < s.len() {
        assert((before + s)[before.len() + i] == s[i]);
        if !is_space(s[i]) {
            lemma_end_shifted(before, s, i + 1);
        }
    }
}

} // verus!
