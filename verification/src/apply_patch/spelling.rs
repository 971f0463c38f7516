//! How a patch is spelled, and that what is spelled is read.
use vstd::prelude::*;

use crate::apply_patch::parse;
use crate::apply_patch::shape;
use crate::apply_patch::{ChunkModel, HunkModel, OperationModel};
use crate::text;
use crate::text::Text;

verus! {

// ---------------------------------------------------------------------------
// Spelling
// ---------------------------------------------------------------------------
/// An operation as somebody writes it down: the lines of an added file one by
/// one.
pub enum Entry {
    Add { path: Text, lines: Seq<Text> },
    Delete { path: Text },
    Update { path: Text, move_to: Option<Text>, chunks: Seq<ChunkModel> },
}

/// Lines one after the other, each with a line feed after it.
pub open spec fn ended(lines: Seq<Text>) -> Text
    decreases lines.len(),
{
    if lines.len() == 0 {
        Seq::empty()
    } else {
        ended(lines.drop_last()) + lines.last() + seq!['\n']
    }
}

/// The operation that an entry stands for.
pub open spec fn meant(entry: Entry) -> OperationModel {
    match entry {
        Entry::Add { path, lines } => OperationModel::Add { path, content: ended(lines) },
        Entry::Delete { path } => OperationModel::Delete { path },
        Entry::Update { path, move_to, chunks } => OperationModel::Update { path, move_to, chunks },
    }
}

/// A line of a hunk, after the character that tells its kind.
pub open spec fn line_spelled(line: HunkModel) -> Text {
    match line {
        HunkModel::Context(s) => seq![' '] + s,
        HunkModel::Remove(s) => seq!['-'] + s,
        HunkModel::Add(s) => seq!['+'] + s,
    }
}

/// The lines of a hunk.
pub open spec fn lines_spelled(lines: Seq<HunkModel>) -> Seq<Text> {
    Seq::new(lines.len(), |i: int| line_spelled(lines[i]))
}

/// The header of a hunk.
pub open spec fn header_spelled(locator: Option<Text>) -> Text {
    match locator {
        Some(l) => "@@ "@ + l,
        None => "@@"@,
    }
}

/// A hunk: its header, its lines, and a mark where it belongs at the end of the
/// file.
pub open spec fn chunk_spelled(chunk: ChunkModel) -> Seq<Text> {
    seq![header_spelled(chunk.locator)] + lines_spelled(chunk.lines) + (if chunk.end_of_file {
        seq!["*** End of File"@]
    } else {
        Seq::<Text>::empty()
    })
}

/// Hunks one after the other.
pub open spec fn chunks_spelled(chunks: Seq<ChunkModel>) -> Seq<Text>
    decreases chunks.len(),
{
    if chunks.len() == 0 {
        Seq::empty()
    } else {
        chunk_spelled(chunks[0]) + chunks_spelled(chunks.skip(1))
    }
}

/// The lines of an entry.
pub open spec fn spelled(entry: Entry) -> Seq<Text> {
    match entry {
        Entry::Add { path, lines } => seq!["*** Add File: "@ + path] + Seq::new(
            lines.len(),
            |i: int| seq!['+'] + lines[i],
        ),
        Entry::Delete { path } => seq!["*** Delete File: "@ + path],
        Entry::Update { path, move_to, chunks } => seq!["*** Update File: "@ + path] + (
        match move_to {
            Some(to) => seq!["*** Move to: "@ + to],
            None => Seq::<Text>::empty(),
        }) + chunks_spelled(chunks),
    }
}

/// The lines of entries one after the other.
pub open spec fn all_spelled(entries: Seq<Entry>) -> Seq<Text>
    decreases entries.len(),
{
    if entries.len() == 0 {
        Seq::empty()
    } else {
        spelled(entries[0]) + all_spelled(entries.skip(1))
    }
}

/// The lines of a patch: the entries between its first and its last line.
pub open spec fn patch_spelled(entries: Seq<Entry>) -> Seq<Text> {
    seq!["*** Begin Patch"@] + all_spelled(entries) + seq!["*** End Patch"@]
}

/// Whether an entry can be written down: its paths are not empty, its hunks have
/// lines, and their locators have no white space around them.
pub open spec fn spellable(entry: Entry) -> bool {
    match entry {
        Entry::Add { path, .. } => path.len() > 0,
        Entry::Delete { path } => path.len() > 0,
        Entry::Update { path, move_to, chunks } => {
            &&& path.len() > 0
            &&& move_to matches Some(to) ==> to.len() > 0
            &&& chunks.len() > 0 || move_to is Some
            &&& forall|i: int| 0 <= i < chunks.len() ==> chunk_spellable(#[trigger] chunks[i])
        },
    }
}

pub open spec fn chunk_spellable(chunk: ChunkModel) -> bool {
    &&& chunk.lines.len() > 0
    &&& chunk.locator matches Some(l) ==> l.len() > 0 && text::trim(l) == l
}

// ---------------------------------------------------------------------------
// Reading what is spelled
// ---------------------------------------------------------------------------
/// Whether lines stand among others from a place on.
spec fn stand(ls: Seq<Text>, at: int, part: Seq<Text>) -> bool {
    &&& 0 <= at
    &&& at + part.len() <= ls.len()
    &&& forall|i: int| 0 <= i < part.len() ==> ls[at + i] == #[trigger] part[i]
}

/// Whether a line ends what stands before it: it is a directive, and none that
/// belongs to a hunk or an update.
spec fn closes(line: Text) -> bool {
    &&& text::begins(line, "*** "@)
    &&& line != "*** End of File"@
    &&& !text::begins(line, "*** Move to: "@)
}

proof fn lemma_stand_parts(ls: Seq<Text>, at: int, a: Seq<Text>, b: Seq<Text>)
    requires
        stand(ls, at, a + b),
    ensures
        stand(ls, at, a),
        stand(ls, at + a.len(), b),
{
    assert forall|i: int| 0 <= i < a.len() implies ls[at + i] == #[trigger] a[i] by {
        assert((a + b)[i] == a[i]);
    }
    assert forall|i: int| 0 <= i < b.len() implies ls[at + a.len() + i] == #[trigger] b[i] by {
        assert((a + b)[a.len() + i] == b[i]);
    }
}

proof fn lemma_end(ls: Seq<Text>, i: int, e: int, hunk: bool)
    requires
        0 <= i <= e < ls.len(),
        forall|k: int|
            i <= k < e ==> !text::begins(#[trigger] ls[k], "*** "@) && !text::begins(
                ls[k],
                "@@"@,
            ),
        text::begins(ls[e], "*** "@) || hunk && text::begins(ls[e], "@@"@),
    ensures
        parse::end_of(ls, i, hunk) == e,
    decreases e - i,
{
    if i < e {
        assert(!text::begins(ls[i], "*** "@));
        lemma_end(ls, i + 1, e, hunk);
    }
}

/// A line that begins with a sign is no directive and no header of a hunk.
proof fn lemma_sign(c: char, s: Text)
    requires
        c == ' ' || c == '-' || c == '+',
    ensures
        !text::begins(seq![c] + s, "*** "@),
        !text::begins(seq![c] + s, "@@"@),
{
    reveal_strlit("*** ");
    reveal_strlit("@@");
    let l = seq![c] + s;
    assert(l[0] == c);
    if text::begins(l, "*** "@) {
        assert(l.take(4)[0] == l[0]);
    }
    if text::begins(l, "@@"@) {
        assert(l.take(2)[0] == l[0]);
    }
}

proof fn lemma_line(line: HunkModel)
    ensures
        parse::hunk_line(line_spelled(line)) == Ok::<HunkModel, Text>(line),
        !text::begins(line_spelled(line), "*** "@),
        !text::begins(line_spelled(line), "@@"@),
{
    match line {
        HunkModel::Context(s) => {
            lemma_sign(' ', s);
            assert((seq![' '] + s).skip(1) =~= s);
        },
        HunkModel::Remove(s) => {
            lemma_sign('-', s);
            assert((seq!['-'] + s).skip(1) =~= s);
        },
        HunkModel::Add(s) => {
            lemma_sign('+', s);
            assert((seq!['+'] + s).skip(1) =~= s);
        },
    }
}

proof fn lemma_hunk(ls: Seq<Text>, at: int, lines: Seq<HunkModel>, k: int)
    requires
        stand(ls, at, lines_spelled(lines)),
        0 <= k <= lines.len(),
    ensures
        parse::hunk_lines(ls, at + k, at + lines.len(), lines.take(k)) == Ok::<
            Seq<HunkModel>,
            Text,
        >(lines),
    decreases lines.len() - k,
{
    if k < lines.len() {
        assert(ls[at + k] == lines_spelled(lines)[k]);
        lemma_line(lines[k]);
        assert(lines.take(k).push(lines[k]) =~= lines.take(k + 1));
        lemma_hunk(ls, at, lines, k + 1);
    } else {
        assert(lines.take(k) =~= lines);
    }
}

proof fn lemma_header(locator: Option<Text>)
    requires
        locator matches Some(l) ==> l.len() > 0 && text::trim(l) == l,
    ensures
        text::begins(header_spelled(locator), "@@"@),
        !text::begins(header_spelled(locator), "*** "@),
        !text::begins(header_spelled(locator), "*** Move to: "@),
        header_spelled(locator) != "*** End of File"@,
        parse::locator_of(header_spelled(locator)) == locator,
{
    reveal_strlit("@@");
    reveal_strlit("@@ ");
    reveal_strlit("*** ");
    reveal_strlit("*** Move to: ");
    reveal_strlit("*** End of File");
    let h = header_spelled(locator);
    assert(h[0] == '@');
    assert(h.take(2) =~= "@@"@);
    if text::begins(h, "*** "@) {
        assert(h.take(4)[0] == h[0]);
    }
    if text::begins(h, "*** Move to: "@) {
        assert(h.take(13)[0] == h[0]);
    }
    match locator {
        Some(l) => {
            assert(h.skip(2) =~= seq![' '] + l);
            lemma_trim_space(l);
        },
        None => {
            assert(h.skip(2) =~= Seq::empty());
            assert(text::trim(h.skip(2)).len() == 0);
        },
    }
}

/// White space before a text is trimmed away.
proof fn lemma_trim_space(s: Text)
    ensures
        text::trim(seq![' '] + s) == text::trim(s),
{
    let t = seq![' '] + s;
    assert(t.skip(1) =~= s);
    assert(t[0] == ' ');
    assert(text::trim_start(t) == text::trim_start(s));
}

proof fn lemma_chunks(ls: Seq<Text>, at: int, chunks: Seq<ChunkModel>, done: Seq<ChunkModel>)
    requires
        stand(ls, at, chunks_spelled(chunks)),
        forall|i: int| 0 <= i < chunks.len() ==> chunk_spellable(#[trigger] chunks[i]),
        at + chunks_spelled(chunks).len() < ls.len(),
        closes(ls[at + chunks_spelled(chunks).len()]),
    ensures
        parse::parse_chunks(ls, at, done) == Ok::<(Seq<ChunkModel>, int), Text>(
            (done + chunks, at + chunks_spelled(chunks).len()),
        ),
    decreases chunks.len(),
{
    reveal_strlit("*** ");
    reveal_strlit("@@");
    if chunks.len() == 0 {
        assert(done + chunks =~= done);
        let l = ls[at];
        if text::begins(l, "@@"@) {
            assert(l.take(2)[0] == l[0]);
            assert(l.take(4)[0] == l[0]);
        }
    } else {
        let c = chunks[0];
        let more = chunks.skip(1);
        assert(chunk_spellable(c));
        assert forall|i: int| 0 <= i < more.len() implies chunk_spellable(#[trigger] more[i]) by {
            assert(more[i] == chunks[i + 1]);
        }
        let whole = chunk_spelled(c);
        lemma_stand_parts(ls, at, whole, chunks_spelled(more));
        let head = seq![header_spelled(c.locator)];
        let body = lines_spelled(c.lines);
        let mark = if c.end_of_file {
            seq!["*** End of File"@]
        } else {
            Seq::<Text>::empty()
        };
        assert(whole =~= head + (body + mark));
        lemma_stand_parts(ls, at, head, body + mark);
        lemma_stand_parts(ls, at + 1, body, mark);
        assert(ls[at] == head[0]);
        lemma_header(c.locator);
        let e = at + 1 + c.lines.len();
        assert forall|k: int| at + 1 <= k < e implies !text::begins(#[trigger] ls[k], "*** "@)
            && !text::begins(ls[k], "@@"@) by {
            assert(ls[at + 1 + (k - at - 1)] == body[k - at - 1]);
            lemma_line(c.lines[k - at - 1]);
        }
        let next = at + whole.len();
        if c.end_of_file {
            assert(ls[e + 0] == mark[0]);
            reveal_strlit("*** End of File");
            assert("*** End of File"@.take(4) =~= "*** "@);
        } else if more.len() > 0 {
            let first = more[0];
            assert(chunks_spelled(more)[0] == header_spelled(first.locator));
            assert(ls[next + 0] == chunks_spelled(more)[0]);
            lemma_header(first.locator);
        } else {
            assert(chunks_spelled(more).len() == 0);
        }
        lemma_end(ls, at + 1, e, true);
        lemma_hunk(ls, at + 1, c.lines, 0);
        assert(c.lines.take(0) =~= Seq::empty());
        assert(c == (ChunkModel {
            locator: parse::locator_of(ls[at]),
            lines: c.lines,
            end_of_file: e < ls.len() && ls[e] == "*** End of File"@,
        }));
        lemma_chunks(ls, next, more, done.push(c));
        assert(done.push(c) + more =~= done + chunks);
    }
}

/// A directive with a path after it closes what stands before it, and tells its
/// path.
proof fn lemma_directives(path: Text)
    ensures
        closes("*** Add File: "@ + path),
        closes("*** Delete File: "@ + path),
        closes("*** Update File: "@ + path),
        closes("*** End Patch"@),
        "*** Add File: "@ + path != "*** End Patch"@,
        "*** Delete File: "@ + path != "*** End Patch"@,
        "*** Update File: "@ + path != "*** End Patch"@,
        text::after_prefix("*** Add File: "@ + path, "*** Add File: "@) == Some(path),
        text::after_prefix("*** Delete File: "@ + path, "*** Delete File: "@) == Some(path),
        text::after_prefix("*** Update File: "@ + path, "*** Update File: "@) == Some(path),
        text::after_prefix("*** Move to: "@ + path, "*** Move to: "@) == Some(path),
        text::after_prefix("*** Delete File: "@ + path, "*** Add File: "@) is None,
        text::after_prefix("*** Update File: "@ + path, "*** Add File: "@) is None,
        text::after_prefix("*** Update File: "@ + path, "*** Delete File: "@) is None,
{
    reveal_strlit("*** ");
    reveal_strlit("*** Add File: ");
    reveal_strlit("*** Delete File: ");
    reveal_strlit("*** Update File: ");
    reveal_strlit("*** Move to: ");
    reveal_strlit("*** End Patch");
    reveal_strlit("*** End of File");
    let a = "*** Add File: "@ + path;
    let d = "*** Delete File: "@ + path;
    let u = "*** Update File: "@ + path;
    let m = "*** Move to: "@ + path;
    let e = "*** End Patch"@;
    assert(a[4] == 'A' && d[4] == 'D' && u[4] == 'U' && m[4] == 'M' && e[4] == 'E');
    assert(e[8] == 'P' && "*** End of File"@[8] == 'o');
    assert("*** Move to: "@[4] == 'M');
    assert("*** End of File"@[4] == 'E');
    assert(a.take(4) =~= "*** "@);
    assert(d.take(4) =~= "*** "@);
    assert(u.take(4) =~= "*** "@);
    assert(e.take(4) =~= "*** "@);
    assert(a.take(14) =~= "*** Add File: "@ && a.skip(14) =~= path);
    assert(d.take(17) =~= "*** Delete File: "@ && d.skip(17) =~= path);
    assert(u.take(17) =~= "*** Update File: "@ && u.skip(17) =~= path);
    assert(m.take(13) =~= "*** Move to: "@ && m.skip(13) =~= path);
    lemma_not_begins(a, "*** Move to: "@);
    lemma_not_begins(d, "*** Move to: "@);
    lemma_not_begins(u, "*** Move to: "@);
    lemma_not_begins(e, "*** Move to: "@);
    lemma_not_begins(d, "*** Add File: "@);
    lemma_not_begins(u, "*** Add File: "@);
    lemma_not_begins(u, "*** Delete File: "@);
}

proof fn lemma_not_begins(s: Text, p: Text)
    requires
        s.len() > 4,
        p.len() > 4,
        s[4] != p[4],
    ensures
        !text::begins(s, p),
{
    if text::begins(s, p) {
        assert(s.take(p.len() as int)[4] == s[4]);
    }
}

proof fn lemma_added(ls: Seq<Text>, from: int, lines: Seq<Text>, n: int)
    requires
        0 <= n <= lines.len(),
        stand(ls, from, Seq::new(lines.len(), |i: int| seq!['+'] + lines[i])),
    ensures
        parse::added_content(ls, from, from + n) == ended(lines.take(n)),
    decreases n,
{
    if n > 0 {
        lemma_added(ls, from, lines, n - 1);
        let part = Seq::new(lines.len(), |i: int| seq!['+'] + lines[i]);
        assert(ls[from + (n - 1)] == part[n - 1]);
        assert((seq!['+'] + lines[n - 1]).skip(1) =~= lines[n - 1]);
        assert(lines.take(n).drop_last() =~= lines.take(n - 1));
        assert(ended(lines.take(n)) =~= (ended(lines.take(n - 1)) + lines[n - 1]).push('\n'));
    } else {
        assert(ended(lines.take(0)) =~= Seq::empty());
    }
}

proof fn lemma_entry(ls: Seq<Text>, at: int, entry: Entry)
    requires
        stand(ls, at, spelled(entry)),
        spellable(entry),
        at + spelled(entry).len() < ls.len(),
        closes(ls[at + spelled(entry).len()]),
    ensures
        parse::parse_operation(ls, at) == Ok::<(OperationModel, int), Text>(
            (meant(entry), at + spelled(entry).len()),
        ),
        closes(ls[at]),
        ls[at] != "*** End Patch"@,
{
    match entry {
        Entry::Add { path, lines } => {
            lemma_directives(path);
            let head = seq!["*** Add File: "@ + path];
            let part = Seq::new(lines.len(), |i: int| seq!['+'] + lines[i]);
            lemma_stand_parts(ls, at, head, part);
            assert(ls[at + 0] == head[0]);
            let e = at + 1 + lines.len();
            assert forall|k: int| at + 1 <= k < e implies !text::begins(#[trigger] ls[k], "*** "@)
                && !text::begins(ls[k], "@@"@) && text::begins(ls[k], seq!['+']) by {
                assert(ls[at + 1 + (k - at - 1)] == part[k - at - 1]);
                lemma_sign('+', lines[k - at - 1]);
                assert((seq!['+'] + lines[k - at - 1]).take(1) =~= seq!['+']);
            }
            lemma_end(ls, at + 1, e, false);
            lemma_added(ls, at + 1, lines, lines.len() as int);
            assert(lines.take(lines.len() as int) =~= lines);
        },
        Entry::Delete { path } => {
            lemma_directives(path);
            assert(ls[at + 0] == spelled(entry)[0]);
        },
        Entry::Update { path, move_to, chunks } => {
            lemma_directives(path);
            let head = seq!["*** Update File: "@ + path];
            let to = match move_to {
                Some(to) => seq!["*** Move to: "@ + to],
                None => Seq::<Text>::empty(),
            };
            assert(spelled(entry) =~= head + (to + chunks_spelled(chunks)));
            lemma_stand_parts(ls, at, head, to + chunks_spelled(chunks));
            lemma_stand_parts(ls, at + 1, to, chunks_spelled(chunks));
            assert(ls[at + 0] == head[0]);
            lemma_chunks(ls, at + 1 + to.len(), chunks, Seq::empty());
            assert(Seq::<ChunkModel>::empty() + chunks =~= chunks);
            match move_to {
                Some(t) => {
                    assert(ls[at + 1 + 0] == to[0]);
                    lemma_directives(t);
                },
                None => {
                    assert(chunk_spellable(chunks[0]));
                    assert(chunks_spelled(chunks)[0] == header_spelled(chunks[0].locator));
                    assert(ls[at + 1 + 0] == chunks_spelled(chunks)[0]);
                    lemma_header(chunks[0].locator);
                },
            }
        },
    }
}

proof fn lemma_entries(
    ls: Seq<Text>,
    at: int,
    entries: Seq<Entry>,
    done: Seq<OperationModel>,
)
    requires
        stand(ls, at, all_spelled(entries) + seq!["*** End Patch"@]),
        ls.len() == at + all_spelled(entries).len() + 1,
        forall|i: int| 0 <= i < entries.len() ==> spellable(#[trigger] entries[i]),
        done.len() + entries.len() > 0,
    ensures
        parse::parse_operations(ls, at, done) == Ok::<Seq<OperationModel>, Text>(
            done + entries.map_values(|e: Entry| meant(e)),
        ),
        closes(ls[at]),
    decreases entries.len(),
{
    let end = seq!["*** End Patch"@];
    lemma_directives(Seq::empty());
    if entries.len() == 0 {
        assert(all_spelled(entries) + end =~= end);
        assert(ls[at + 0] == end[0]);
        assert(done + entries.map_values(|e: Entry| meant(e)) =~= done);
    } else {
        let entry = entries[0];
        let more = entries.skip(1);
        assert(spellable(entry));
        assert forall|i: int| 0 <= i < more.len() implies spellable(#[trigger] more[i]) by {
            assert(more[i] == entries[i + 1]);
        }
        assert(all_spelled(entries) + end =~= spelled(entry) + (all_spelled(more) + end));
        lemma_stand_parts(ls, at, spelled(entry), all_spelled(more) + end);
        let next = at + spelled(entry).len();
        lemma_entries(ls, next, more, done.push(meant(entry)));
        lemma_entry(ls, at, entry);
        assert(done.push(meant(entry)) + more.map_values(|e: Entry| meant(e)) =~= done
            + entries.map_values(|e: Entry| meant(e)));
    }
}

// ---------------------------------------------------------------------------
// Laws
// ---------------------------------------------------------------------------
/// Every patch that is spelled as patches are is read as the operations that
/// were meant, in their order: with or without a line feed at its end.
pub proof fn spelled_patches_are_read(entries: Seq<Entry>, patch: Text)
    requires
        entries.len() > 0,
        forall|i: int| 0 <= i < entries.len() ==> spellable(#[trigger] entries[i]),
        forall|i: int|
            0 <= i < patch_spelled(entries).len() ==> !(#[trigger] patch_spelled(
                entries,
            )[i]).contains('\n') && !patch_spelled(entries)[i].contains('\r'),
        patch == text::join(patch_spelled(entries), seq!['\n']) || patch == text::join(
            patch_spelled(entries),
            seq!['\n'],
        ) + seq!['\n'],
    ensures
        parse::parsed(patch) == Ok::<Seq<OperationModel>, Text>(
            entries.map_values(|e: Entry| meant(e)),
        ),
{
    let ls = patch_spelled(entries);
    reveal_strlit("*** End Patch");
    assert(ls.last() == "*** End Patch"@);
    lemma_lines(ls, patch);
    let begin = seq!["*** Begin Patch"@];
    let rest = all_spelled(entries) + seq!["*** End Patch"@];
    assert(ls =~= begin + rest);
    assert(stand(ls, 0, ls));
    lemma_stand_parts(ls, 0, begin, rest);
    assert(ls[0] == "*** Begin Patch"@);
    lemma_entries(ls, 1, entries, Seq::empty());
    assert(Seq::<OperationModel>::empty() + entries.map_values(|e: Entry| meant(e))
        =~= entries.map_values(|e: Entry| meant(e)));
}

proof fn lemma_no_return(parts: Seq<Text>)
    requires
        forall|i: int| 0 <= i < parts.len() ==> !(#[trigger] parts[i]).contains('\r'),
    ensures
        !text::join(parts, seq!['\n']).contains('\r'),
    decreases parts.len(),
{
    let all = text::join(parts, seq!['\n']);
    if parts.len() == 1 {
        assert(!parts[0].contains('\r'));
    } else if parts.len() > 1 {
        let first = parts.drop_last();
        assert forall|i: int| 0 <= i < first.len() implies !(#[trigger] first[i]).contains(
            '\r',
        ) by {
            assert(first[i] == parts[i]);
        }
        lemma_no_return(first);
        let before = text::join(first, seq!['\n']);
        let last = parts[parts.len() - 1];
        assert(!last.contains('\r'));
        if all.contains('\r') {
            let k = choose|k: int| 0 <= k < all.len() && all[k] == '\r';
            if k < before.len() {
                assert(before[k] == '\r');
            } else if k > before.len() {
                assert(last[k - before.len() - 1] == '\r');
            }
        }
    }
}

proof fn lemma_lines(ls: Seq<Text>, s: Text)
    requires
        ls.len() > 0,
        ls.last().len() > 0,
        forall|i: int|
            0 <= i < ls.len() ==> !(#[trigger] ls[i]).contains('\n') && !ls[i].contains('\r'),
        s == text::join(ls, seq!['\n']) || s == text::join(ls, seq!['\n']) + seq!['\n'],
    ensures
        parse::lines(parse::without_crlf(s)) == ls,
{
    let plain = text::join(ls, seq!['\n']);
    lemma_no_return(ls);
    assert(!shape::has_crlf(s)) by {
        if shape::has_crlf(s) {
            let i = choose|i: int|
                0 <= i < s.len() - 1 && #[trigger] s[i] == '\r' && s[i + 1] == '\n';
            assert(plain[i] == '\r');
        }
    }
    shape::lemma_no_crlf(s);
    assert forall|i: int| 0 <= i < ls.len() implies parse::without_cr(#[trigger] ls[i])
        == ls[i] by {
        if ls[i].len() > 0 && ls[i].last() == '\r' {
            assert(ls[i].contains('\r'));
        }
    }
    if s == plain {
        text::joining_loses_nothing(ls, '\n');
        assert(parse::lines(s) =~= ls);
    } else {
        let longer = ls.push(Seq::empty());
        assert(longer.drop_last() =~= ls);
        assert(text::join(longer, seq!['\n']) =~= s);
        text::joining_loses_nothing(longer, '\n');
        assert(parse::lines(s) =~= ls);
    }
}

/// Whether a line may stand between the first and the last line of a patch: a
/// directive with a path, the header of a hunk, a line of a hunk or of an added
/// file after the character that tells its kind, or the mark for the end of a
/// file.
pub open spec fn known_line(l: Text) -> bool {
    ||| text::after_prefix(l, "*** Add File: "@) matches Some(path) && path.len() > 0
    ||| text::after_prefix(l, "*** Delete File: "@) matches Some(path) && path.len() > 0
    ||| text::after_prefix(l, "*** Update File: "@) matches Some(path) && path.len() > 0
    ||| text::after_prefix(l, "*** Move to: "@) matches Some(path) && path.len() > 0
    ||| l == "*** End of File"@
    ||| text::begins(l, "@@"@)
    ||| l.len() > 0 && (l[0] == ' ' || l[0] == '-' || l[0] == '+')
}

/// A patch that is read begins and ends as patches do, and holds nothing between
/// but lines of patches.
pub proof fn only_lines_of_patches_are_read(patch: Text)
    ensures
        parse::parsed(patch) is Ok ==> ({
            let ls = parse::lines(parse::without_crlf(patch));
            &&& ls.len() > 2
            &&& ls[0] == "*** Begin Patch"@
            &&& ls.last() == "*** End Patch"@
            &&& forall|i: int| 0 < i < ls.len() - 1 ==> known_line(#[trigger] ls[i])
        }),
{
    let ls = parse::lines(parse::without_crlf(patch));
    if parse::parsed(patch) is Ok {
        lemma_known(ls, 1, Seq::empty());
        assert(ls.len() > 2) by {
            if ls.len() == 2 {
                assert(ls[1] == "*** End Patch"@);
            }
        }
    }
}

proof fn lemma_known_hunk(ls: Seq<Text>, k: int, e: int, done: Seq<HunkModel>)
    requires
        parse::hunk_lines(ls, k, e, done) is Ok,
    ensures
        forall|i: int| k <= i < e ==> known_line(#[trigger] ls[i]),
    decreases e - k,
{
    if k < e {
        lemma_known_hunk(ls, k + 1, e, done.push(parse::hunk_line(ls[k])->Ok_0));
        assert(known_line(ls[k]));
    }
}

proof fn lemma_known_chunks(ls: Seq<Text>, k: int, done: Seq<ChunkModel>)
    requires
        0 <= k <= ls.len(),
        parse::parse_chunks(ls, k, done) is Ok,
    ensures
        forall|i: int|
            k <= i < parse::parse_chunks(ls, k, done)->Ok_0.1 ==> known_line(#[trigger] ls[i]),
    decreases ls.len() - k,
{
    if k < ls.len() && text::begins(ls[k], "@@"@) {
        let e = parse::end_of(ls, k + 1, true);
        parse::lemma_end_of(ls, k + 1, true);
        let body = parse::hunk_lines(ls, k + 1, e, Seq::empty())->Ok_0;
        lemma_known_hunk(ls, k + 1, e, Seq::empty());
        let end_of_file = e < ls.len() && ls[e] == "*** End of File"@;
        let next = if end_of_file {
            e + 1
        } else {
            e
        };
        let more = done.push(
            ChunkModel { locator: parse::locator_of(ls[k]), lines: body, end_of_file },
        );
        lemma_known_chunks(ls, next, more);
        assert forall|i: int|
            k <= i < parse::parse_chunks(ls, k, done)->Ok_0.1 implies known_line(
            #[trigger] ls[i],
        ) by {
            assert(parse::parse_chunks(ls, k, done) == parse::parse_chunks(ls, next, more));
        }
    }
}

proof fn lemma_known_operation(ls: Seq<Text>, i: int)
    requires
        0 <= i < ls.len(),
        parse::parse_operation(ls, i) is Ok,
    ensures
        forall|k: int|
            i <= k < parse::parse_operation(ls, i)->Ok_0.1 ==> known_line(#[trigger] ls[k]),
{
    let line = ls[i];
    parse::lemma_parse_operation(ls, i);
    if let Some(path) = text::after_prefix(line, "*** Add File: "@) {
        let e = parse::end_of(ls, i + 1, false);
        assert forall|k: int| i <= k < e implies known_line(#[trigger] ls[k]) by {
            if k > i {
                assert(text::begins(ls[k], seq!['+']));
                assert(ls[k].take(1)[0] == ls[k][0]);
            }
        }
    } else if let Some(path) = text::after_prefix(line, "*** Delete File: "@) {
    } else if let Some(path) = text::after_prefix(line, "*** Update File: "@) {
        match parse::move_of(ls, i + 1) {
            None => {
                lemma_known_chunks(ls, i + 1, Seq::empty());
            },
            Some(to) => {
                assert(known_line(ls[i + 1]));
                lemma_known_chunks(ls, i + 2, Seq::empty());
            },
        }
        assert(known_line(ls[i]));
    }
}

proof fn lemma_known(ls: Seq<Text>, i: int, done: Seq<OperationModel>)
    requires
        0 <= i <= ls.len(),
        parse::parse_operations(ls, i, done) is Ok,
    ensures
        i < ls.len(),
        ls.last() == "*** End Patch"@,
        forall|k: int| i <= k < ls.len() - 1 ==> known_line(#[trigger] ls[k]),
        done.len() == 0 ==> ls.len() > i + 1,
    decreases ls.len() - i,
{
    if ls[i] != "*** End Patch"@ {
        let (operation, next) = parse::parse_operation(ls, i)->Ok_0;
        parse::lemma_parse_operation(ls, i);
        lemma_known_operation(ls, i);
        lemma_known(ls, next, done.push(operation));
    }
}

} // verus!
