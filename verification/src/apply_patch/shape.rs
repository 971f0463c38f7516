//! What every patch that was read looks like.
use vstd::prelude::*;

use crate::apply_patch::parse;
use crate::apply_patch::{ChunkModel, HunkModel, OperationModel};
use crate::text;
use crate::text::Text;

verus! {

// ---------------------------------------------------------------------------
// The shape of operations
// ---------------------------------------------------------------------------
/// The text of a hunk line, without the character that tells its kind.
pub open spec fn line_text(line: HunkModel) -> Text {
    match line {
        HunkModel::Context(s) => s,
        HunkModel::Remove(s) => s,
        HunkModel::Add(s) => s,
    }
}

/// Whether each hunk line is one line.
pub open spec fn single_lines(lines: Seq<HunkModel>) -> bool {
    forall|i: int| 0 <= i < lines.len() ==> !line_text(#[trigger] lines[i]).contains('\n')
}

/// Whether a hunk has lines, each of them one line, and a locator that is
/// neither empty nor surrounded by white space, where it has one.
pub open spec fn chunk_shaped(chunk: ChunkModel) -> bool {
    &&& chunk.lines.len() > 0
    &&& single_lines(chunk.lines)
    &&& chunk.locator matches Some(locator) ==> locator.len() > 0 && text::trim(locator) == locator
}

pub open spec fn chunks_shaped(chunks: Seq<ChunkModel>) -> bool {
    forall|i: int| 0 <= i < chunks.len() ==> chunk_shaped(#[trigger] chunks[i])
}

/// Whether an operation names paths, adds whole lines, and changes something.
pub open spec fn shaped(operation: OperationModel) -> bool {
    match operation {
        OperationModel::Add { path, content } => {
            &&& path.len() > 0
            &&& content.len() == 0 || content.last() == '\n'
        },
        OperationModel::Delete { path } => path.len() > 0,
        OperationModel::Update { path, move_to, chunks } => {
            &&& path.len() > 0
            &&& move_to matches Some(to) ==> to.len() > 0
            &&& chunks.len() > 0 || move_to is Some
            &&& chunks_shaped(chunks)
        },
    }
}

// ---------------------------------------------------------------------------
// The headers of a patch
// ---------------------------------------------------------------------------
/// What the header line of an operation tells.
pub enum Header {
    Add(Text),
    Delete(Text),
    Update(Text),
}

/// What a line tells, where it is the header of an operation.
pub open spec fn header_of(line: Text) -> Option<Header> {
    if let Some(path) = text::after_prefix(line, "*** Add File: "@) {
        Some(Header::Add(path))
    } else if let Some(path) = text::after_prefix(line, "*** Delete File: "@) {
        Some(Header::Delete(path))
    } else if let Some(path) = text::after_prefix(line, "*** Update File: "@) {
        Some(Header::Update(path))
    } else {
        None
    }
}

/// The headers among the lines from `i` on, in order.
pub open spec fn headers_from(ls: Seq<Text>, i: int) -> Seq<Header>
    decreases ls.len() - i,
{
    if i < 0 || i >= ls.len() {
        Seq::empty()
    } else {
        match header_of(ls[i]) {
            Some(header) => seq![header] + headers_from(ls, i + 1),
            None => headers_from(ls, i + 1),
        }
    }
}

/// The header that an operation has in a patch.
pub open spec fn header_for(operation: OperationModel) -> Header {
    match operation {
        OperationModel::Add { path, .. } => Header::Add(path),
        OperationModel::Delete { path } => Header::Delete(path),
        OperationModel::Update { path, .. } => Header::Update(path),
    }
}

pub open spec fn headers_for(operations: Seq<OperationModel>) -> Seq<Header> {
    operations.map_values(|o: OperationModel| header_for(o))
}

// ---------------------------------------------------------------------------
// Lines
// ---------------------------------------------------------------------------
spec fn unbroken(ls: Seq<Text>) -> bool {
    forall|i: int| 0 <= i < ls.len() ==> !(#[trigger] ls[i]).contains('\n')
}

proof fn lemma_lines_unbroken(s: Text)
    ensures
        unbroken(parse::lines(s)),
{
    let parts = text::split(s, '\n');
    let ls = parse::lines(s);
    text::lemma_split_parts(s, '\n');
    assert forall|i: int| 0 <= i < ls.len() implies !(#[trigger] ls[i]).contains('\n') by {
        assert(!parts[i].contains('\n'));
        if ls[i].contains('\n') {
            let k = choose|k: int| 0 <= k < ls[i].len() && ls[i][k] == '\n';
            assert(parts[i][k] == '\n');
        }
    }
}

spec fn plain(ls: Seq<Text>, from: int, to: int) -> bool {
    forall|k: int| from <= k < to ==> header_of(#[trigger] ls[k]) is None
}

proof fn lemma_no_headers(ls: Seq<Text>, from: int, to: int)
    requires
        0 <= from <= to <= ls.len(),
        plain(ls, from, to),
    ensures
        headers_from(ls, from) == headers_from(ls, to),
    decreases to - from,
{
    if from < to {
        assert(header_of(ls[from]) is None);
        lemma_no_headers(ls, from + 1, to);
    }
}

proof fn lemma_begins(s: Text, p: Text, k: int)
    requires
        text::begins(s, p),
        0 <= k < p.len(),
    ensures
        s[k] == p[k],
{
    assert(s.take(p.len() as int)[k] == s[k]);
}

/// A line that starts no directive, or starts another one, is no header.
proof fn lemma_other_lines(l: Text)
    ensures
        !text::begins(l, "*** "@) ==> header_of(l) is None,
        text::begins(l, "@@"@) ==> header_of(l) is None,
        text::begins(l, "*** Move to: "@) ==> header_of(l) is None,
        l == "*** End of File"@ ==> header_of(l) is None,
        l == "*** End Patch"@ ==> header_of(l) is None,
        l == "*** Begin Patch"@ ==> header_of(l) is None,
{
    reveal_strlit("*** ");
    reveal_strlit("@@");
    reveal_strlit("*** Add File: ");
    reveal_strlit("*** Delete File: ");
    reveal_strlit("*** Update File: ");
    reveal_strlit("*** Move to: ");
    reveal_strlit("*** End of File");
    reveal_strlit("*** End Patch");
    reveal_strlit("*** Begin Patch");
    if text::begins(l, "*** Move to: "@) {
        lemma_begins(l, "*** Move to: "@, 4);
    }
    if text::begins(l, "@@"@) {
        lemma_begins(l, "@@"@, 0);
    }
    if text::begins(l, "*** Add File: "@) {
        lemma_begins(l, "*** Add File: "@, 0);
        lemma_begins(l, "*** Add File: "@, 4);
        assert(l.take(4) =~= l.take(14).take(4));
        assert("*** Add File: "@.take(4) =~= "*** "@);
    }
    if text::begins(l, "*** Delete File: "@) {
        lemma_begins(l, "*** Delete File: "@, 0);
        lemma_begins(l, "*** Delete File: "@, 4);
        assert(l.take(4) =~= l.take(17).take(4));
        assert("*** Delete File: "@.take(4) =~= "*** "@);
    }
    if text::begins(l, "*** Update File: "@) {
        lemma_begins(l, "*** Update File: "@, 0);
        lemma_begins(l, "*** Update File: "@, 4);
        assert(l.take(4) =~= l.take(17).take(4));
        assert("*** Update File: "@.take(4) =~= "*** "@);
    }
}

proof fn lemma_block_is_plain(ls: Seq<Text>, i: int, hunk: bool)
    requires
        0 <= i <= ls.len(),
    ensures
        i <= parse::end_of(ls, i, hunk) <= ls.len(),
        plain(ls, i, parse::end_of(ls, i, hunk)),
    decreases ls.len() - i,
{
    if i < ls.len() && !(text::begins(ls[i], "*** "@) || (hunk && text::begins(ls[i], "@@"@))) {
        lemma_block_is_plain(ls, i + 1, hunk);
        lemma_other_lines(ls[i]);
    }
}

// ---------------------------------------------------------------------------
// Operations
// ---------------------------------------------------------------------------
proof fn lemma_hunk_lines(ls: Seq<Text>, k: int, e: int, done: Seq<HunkModel>)
    requires
        unbroken(ls),
        0 <= k,
        e <= ls.len(),
        single_lines(done),
    ensures
        parse::hunk_lines(ls, k, e, done) matches Ok(body) ==> single_lines(body),
    decreases e - k,
{
    if k < e {
        if let Ok(line) = parse::hunk_line(ls[k]) {
            let rest = line_text(line);
            if rest.contains('\n') {
                let j = choose|j: int| 0 <= j < rest.len() && rest[j] == '\n';
                assert(ls[k][j + 1] == '\n');
            }
            lemma_hunk_lines(ls, k + 1, e, done.push(line));
        }
    }
}

proof fn lemma_chunks(ls: Seq<Text>, k: int, done: Seq<ChunkModel>)
    requires
        unbroken(ls),
        0 <= k <= ls.len(),
        chunks_shaped(done),
    ensures
        parse::parse_chunks(ls, k, done) matches Ok((chunks, next)) ==> {
            &&& k <= next <= ls.len()
            &&& chunks_shaped(chunks)
            &&& plain(ls, k, next)
        },
    decreases ls.len() - k,
{
    if k < ls.len() && text::begins(ls[k], "@@"@) {
        let e = parse::end_of(ls, k + 1, true);
        lemma_block_is_plain(ls, k + 1, true);
        lemma_other_lines(ls[k]);
        lemma_hunk_lines(ls, k + 1, e, Seq::empty());
        text::lemma_trimmed(ls[k].skip(2));
        if let Ok(body) = parse::hunk_lines(ls, k + 1, e, Seq::empty()) {
            if body.len() > 0 {
                let end_of_file = e < ls.len() && ls[e] == "*** End of File"@;
                let next = if end_of_file {
                    e + 1
                } else {
                    e
                };
                if end_of_file {
                    lemma_other_lines(ls[e]);
                }
                let chunk = ChunkModel {
                    locator: parse::locator_of(ls[k]),
                    lines: body,
                    end_of_file,
                };
                assert(chunk_shaped(chunk));
                lemma_chunks(ls, next, done.push(chunk));
            }
        }
    }
}

proof fn lemma_operation(ls: Seq<Text>, i: int)
    requires
        unbroken(ls),
        0 <= i < ls.len(),
    ensures
        parse::parse_operation(ls, i) matches Ok((operation, next)) ==> {
            &&& i < next <= ls.len()
            &&& shaped(operation)
            &&& headers_from(ls, i) == seq![header_for(operation)] + headers_from(ls, next)
        },
{
    lemma_block_is_plain(ls, i + 1, false);
    lemma_chunks(ls, i + 1, Seq::empty());
    if i + 1 < ls.len() {
        lemma_other_lines(ls[i + 1]);
        lemma_chunks(ls, i + 2, Seq::empty());
    }
    if let Ok((operation, next)) = parse::parse_operation(ls, i) {
        assert(header_of(ls[i]) == Some(header_for(operation)));
        lemma_no_headers(ls, i + 1, next);
    }
}

proof fn lemma_operations(ls: Seq<Text>, i: int, done: Seq<OperationModel>)
    requires
        unbroken(ls),
        0 <= i <= ls.len(),
        forall|k: int| 0 <= k < done.len() ==> shaped(#[trigger] done[k]),
    ensures
        parse::parse_operations(ls, i, done) matches Ok(operations) ==> {
            &&& operations.len() > 0
            &&& forall|k: int| 0 <= k < operations.len() ==> shaped(#[trigger] operations[k])
            &&& headers_for(operations) == headers_for(done) + headers_from(ls, i)
        },
    decreases ls.len() - i,
{
    if i < ls.len() {
        if ls[i] == "*** End Patch"@ {
            lemma_other_lines(ls[i]);
            assert(headers_from(ls, i + 1).len() == 0 || i + 1 < ls.len());
            assert(i + 1 >= ls.len() ==> headers_for(done) + headers_from(ls, i) =~= headers_for(
                done,
            ));
        } else {
            lemma_operation(ls, i);
            if let Ok((operation, next)) = parse::parse_operation(ls, i) {
                lemma_operations(ls, next, done.push(operation));
                assert(headers_for(done.push(operation)) =~= headers_for(done).push(
                    header_for(operation),
                ));
                assert(headers_for(done.push(operation)) + headers_from(ls, next) =~= headers_for(
                    done,
                ) + headers_from(ls, i));
            }
        }
    }
}

// ---------------------------------------------------------------------------
// Laws
// ---------------------------------------------------------------------------
/// What is read from a patch is well formed: there is at least one operation,
/// one for each header line, in the order of those lines and with their paths;
/// no path is empty; added content consists of whole lines; each update has a
/// hunk or a destination; each hunk has lines, none of which holds a line feed,
/// and a locator without white space around it, where it has one.
pub proof fn parsed_operations_are_well_formed(patch: Text)
    ensures
        parse::parsed(patch) matches Ok(operations) ==> {
            &&& operations.len() > 0
            &&& forall|i: int| 0 <= i < operations.len() ==> shaped(#[trigger] operations[i])
            &&& headers_for(operations) == headers_from(
                parse::lines(parse::without_crlf(patch)),
                0,
            )
        },
{
    let ls = parse::lines(parse::without_crlf(patch));
    lemma_lines_unbroken(parse::without_crlf(patch));
    if ls.len() > 0 && ls[0] == "*** Begin Patch"@ {
        lemma_other_lines(ls[0]);
        lemma_operations(ls, 1, Seq::empty());
        assert(headers_for(Seq::empty()) + headers_from(ls, 1) =~= headers_from(ls, 1));
    }
}

/// The text with a carriage return before each line feed.
pub open spec fn with_crlf(s: Text) -> Text
    decreases s.len(),
{
    if s.len() == 0 {
        s
    } else if s[0] == '\n' {
        seq!['\r', '\n'] + with_crlf(s.skip(1))
    } else {
        seq![s[0]] + with_crlf(s.skip(1))
    }
}

/// Whether a text holds a carriage return before a line feed.
pub open spec fn has_crlf(s: Text) -> bool {
    exists|i: int| 0 <= i < s.len() - 1 && #[trigger] s[i] == '\r' && s[i + 1] == '\n'
}

proof fn lemma_crlf_undone(s: Text)
    ensures
        parse::without_crlf(with_crlf(s)) == s,
        s.len() > 0 ==> with_crlf(s).len() > 0 && with_crlf(s)[0] != '\n',
    decreases s.len(),
{
    if s.len() > 0 {
        lemma_crlf_undone(s.skip(1));
        let t = with_crlf(s);
        if s[0] == '\n' {
            assert(t.skip(2) =~= with_crlf(s.skip(1)));
            assert(t[0] == '\r' && t[1] == '\n');
        } else {
            assert(t.skip(1) =~= with_crlf(s.skip(1)));
            assert(t[0] == s[0]);
            if s.len() > 1 {
                assert(t[1] == with_crlf(s.skip(1))[0]);
            }
        }
        assert(seq![s[0]] + s.skip(1) =~= s);
    }
}

/// A text without such a pair is kept as it is.
pub proof fn lemma_no_crlf(s: Text)
    requires
        !has_crlf(s),
    ensures
        parse::without_crlf(s) == s,
    decreases s.len(),
{
    if s.len() > 0 {
        if has_crlf(s.skip(1)) {
            let i = choose|i: int|
                0 <= i < s.skip(1).len() - 1 && #[trigger] s.skip(1)[i] == '\r' && s.skip(1)[i + 1]
                    == '\n';
            assert(s[i + 1] == '\r' && s[i + 1 + 1] == '\n');
        }
        lemma_no_crlf(s.skip(1));
        assert(seq![s[0]] + s.skip(1) =~= s);
    }
}

/// A patch reads the same with carriage returns at its line ends.
pub proof fn line_ends_do_not_matter(patch: Text)
    requires
        !has_crlf(patch),
    ensures
        parse::parsed(with_crlf(patch)) == parse::parsed(patch),
{
    lemma_crlf_undone(patch);
    lemma_no_crlf(patch);
}

} // verus!
