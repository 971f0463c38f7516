//! What it means that a hunk is applied: where it takes effect, what it changes
//! there, and when it is refused.
use vstd::prelude::*;

use crate::apply_patch::chunks;
use crate::apply_patch::chunks::{Progress, Tolerance};
use crate::apply_patch::{ChunkModel, HunkModel};
use crate::text;
use crate::text::Text;

verus! {

// ---------------------------------------------------------------------------
// Lines that count as equal
// ---------------------------------------------------------------------------
/// Whether a character is one of the dashes that are read as a hyphen.
pub open spec fn is_dash(c: char) -> bool {
    c == '\u{2010}' || c == '\u{2011}' || c == '\u{2012}' || c == '\u{2013}' || c == '\u{2014}' || c
        == '\u{2015}' || c == '\u{2212}'
}

/// Whether a character is one of the marks that are read as an apostrophe.
pub open spec fn is_single_quote(c: char) -> bool {
    c == '\u{2018}' || c == '\u{2019}' || c == '\u{201a}' || c == '\u{201b}'
}

/// Whether a character is one of the marks that are read as a quotation mark.
pub open spec fn is_double_quote(c: char) -> bool {
    c == '\u{201c}' || c == '\u{201d}' || c == '\u{201e}' || c == '\u{201f}'
}

/// Whether a character is one of the spaces that are read as a plain one.
pub open spec fn is_wide_space(c: char) -> bool {
    c == '\u{a0}' || c == '\u{2002}' || c == '\u{2003}' || c == '\u{2004}' || c == '\u{2005}' || c
        == '\u{2006}' || c == '\u{2007}' || c == '\u{2008}' || c == '\u{2009}' || c == '\u{200a}' || c
        == '\u{202f}' || c == '\u{205f}' || c == '\u{3000}'
}

/// Typography is forgiven for dashes, quotation marks and spaces, and for
/// nothing else.
pub proof fn typography_is_forgiven(c: char)
    ensures
        is_dash(c) ==> chunks::plain(c) == '-',
        is_single_quote(c) ==> chunks::plain(c) == '\'',
        is_double_quote(c) ==> chunks::plain(c) == '"',
        is_wide_space(c) ==> chunks::plain(c) == ' ',
        !is_dash(c) && !is_single_quote(c) && !is_double_quote(c) && !is_wide_space(c)
            ==> chunks::plain(c) == c,
{
}

/// What counts of a line: all of it; the line without the white space at its
/// end; without that at both ends; or that with plain typography.
pub proof fn lines_count_as_equal(a: Text, b: Text)
    ensures
        chunks::key(Tolerance::Exact, a) == chunks::key(Tolerance::Exact, b) <==> a == b,
        chunks::key(Tolerance::TrailingSpace, a) == chunks::key(Tolerance::TrailingSpace, b)
            <==> text::trim_end(a) == text::trim_end(b),
        chunks::key(Tolerance::SurroundingSpace, a) == chunks::key(Tolerance::SurroundingSpace, b)
            <==> text::trim(a) == text::trim(b),
        chunks::key(Tolerance::Typography, a) == chunks::key(Tolerance::Typography, b) <==> (
        text::trim(a).len() == text::trim(b).len() && forall|i: int|
            0 <= i < text::trim(a).len() ==> chunks::plain(#[trigger] text::trim(a)[i])
                == chunks::plain(text::trim(b)[i])),
{
    let x = chunks::normalized(a);
    let y = chunks::normalized(b);
    if x == y {
        assert(x.len() == text::trim(a).len() && y.len() == text::trim(b).len());
        assert forall|i: int| 0 <= i < text::trim(a).len() implies chunks::plain(
            #[trigger] text::trim(a)[i],
        ) == chunks::plain(text::trim(b)[i]) by {
            assert(x[i] == chunks::plain(text::trim(a)[i]));
            assert(y[i] == chunks::plain(text::trim(b)[i]));
        }
    }
    if text::trim(a).len() == text::trim(b).len() && forall|i: int|
        0 <= i < text::trim(a).len() ==> chunks::plain(#[trigger] text::trim(a)[i])
            == chunks::plain(text::trim(b)[i]) {
        assert(x =~= y);
    }
}

// ---------------------------------------------------------------------------
// Places
// ---------------------------------------------------------------------------
/// Whether lines stand at a position, up to a tolerance.
pub open spec fn stand_at(lines: Seq<Text>, wanted: Seq<Text>, t: Tolerance, i: int) -> bool {
    0 <= i <= lines.len() - wanted.len() && forall|k: int|
        0 <= k < wanted.len() ==> chunks::key(t, #[trigger] wanted[k]) == chunks::key(
            t,
            lines[i + k],
        )
}

/// Whether lines stand somewhere from a position on, up to a tolerance.
pub open spec fn stand_from(lines: Seq<Text>, wanted: Seq<Text>, t: Tolerance, from: int) -> bool {
    exists|i: int| from <= i && #[trigger] stand_at(lines, wanted, t, i)
}

/// The tolerances that forgive less than another.
pub open spec fn stricter(a: Tolerance, b: Tolerance) -> bool {
    match b {
        Tolerance::Exact => false,
        Tolerance::TrailingSpace => a == Tolerance::Exact,
        Tolerance::SurroundingSpace => a == Tolerance::Exact || a == Tolerance::TrailingSpace,
        Tolerance::Typography => a != Tolerance::Typography,
    }
}

/// Whether lines that are looked for from a position on belong at another: they
/// stand there, not before, and not anywhere under a stricter tolerance.
pub open spec fn belong_at(lines: Seq<Text>, wanted: Seq<Text>, from: int, i: int) -> bool {
    exists|t: Tolerance|
        {
            &&& from <= i
            &&& #[trigger] stand_at(lines, wanted, t, i)
            &&& forall|k: int| from <= k < i ==> !#[trigger] stand_at(lines, wanted, t, k)
            &&& forall|s: Tolerance|
                stricter(s, t) ==> !#[trigger] stand_from(lines, wanted, s, from)
        }
}

/// Whether lines that are looked for at the end of a file, or else from a
/// position on, belong at another.
pub open spec fn belong_at_end(lines: Seq<Text>, wanted: Seq<Text>, from: int, i: int) -> bool {
    let last = lines.len() - wanted.len();
    exists|t: Tolerance|
        {
            &&& #[trigger] stand_at(lines, wanted, t, i)
            &&& i == last || (from <= i && !stand_at(lines, wanted, t, last) && forall|k: int|
                from <= k < i ==> !#[trigger] stand_at(lines, wanted, t, k))
            &&& forall|s: Tolerance|
                stricter(s, t) ==> !#[trigger] stand_from(lines, wanted, s, from) && !stand_at(
                    lines,
                    wanted,
                    s,
                    last,
                )
        }
}

/// The lines that a hunk expects, in order.
pub open spec fn expected(chunk: ChunkModel) -> Seq<Text> {
    chunk.lines.filter_map(
        |l: HunkModel|
            match l {
                HunkModel::Context(s) => Some(s),
                HunkModel::Remove(s) => Some(s),
                HunkModel::Add(_) => None,
            },
    )
}

/// The lines that a hunk leaves, in order.
pub open spec fn left(chunk: ChunkModel) -> Seq<Text> {
    chunk.lines.filter_map(
        |l: HunkModel|
            match l {
                HunkModel::Context(s) => Some(s),
                HunkModel::Remove(_) => None,
                HunkModel::Add(s) => Some(s),
            },
    )
}

/// Whether a hunk is looked for from a line on: from the end of the hunk before
/// it, or from the line after its locator.
pub open spec fn looked_for_from(p: Progress, chunk: ChunkModel, from: int) -> bool {
    match chunk.locator {
        None => from == p.cursor,
        Some(locator) => belong_at(p.lines, seq![locator], p.cursor, from - 1),
    }
}

/// Whether a hunk that is looked for from a line on takes effect at another.
pub open spec fn takes_effect_at(
    lines: Seq<Text>,
    chunk: ChunkModel,
    from: int,
    at: int,
) -> bool {
    if expected(chunk).len() == 0 {
        at == if chunk.end_of_file {
            lines.len() as int
        } else {
            from
        }
    } else if chunk.end_of_file {
        belong_at_end(lines, expected(chunk), from, at)
    } else {
        belong_at(lines, expected(chunk), from, at)
    }
}

/// Whether a file is another with a hunk applied at a line: what the hunk
/// expects has become what it leaves, every other line stays, and the next hunk
/// is looked for behind it.
pub open spec fn replaced_at(p: Progress, chunk: ChunkModel, at: int, next: Progress) -> bool {
    &&& next.lines == p.lines.take(at) + left(chunk) + p.lines.skip(at + expected(chunk).len())
    &&& next.cursor == at + left(chunk).len()
}

/// Whether a file is another with a hunk applied where it belongs.
pub open spec fn applied_to(p: Progress, chunk: ChunkModel, next: Progress) -> bool {
    exists|from: int, at: int| #[trigger]
        looked_for_from(p, chunk, from) && #[trigger] takes_effect_at(p.lines, chunk, from, at)
            && replaced_at(p, chunk, at, next)
}

// ---------------------------------------------------------------------------
// Proofs
// ---------------------------------------------------------------------------
proof fn lemma_same_place(lines: Seq<Text>, wanted: Seq<Text>, t: Tolerance, i: int)
    ensures
        stand_at(lines, wanted, t, i) == chunks::matches_at(lines, wanted, t, i),
{
}

proof fn lemma_first(lines: Seq<Text>, wanted: Seq<Text>, t: Tolerance, from: int)
    requires
        0 <= from <= lines.len(),
    ensures
        match chunks::first_match(lines, wanted, t, from) {
            Some(i) => from <= i && stand_at(lines, wanted, t, i) && forall|k: int|
                from <= k < i ==> !#[trigger] stand_at(lines, wanted, t, k),
            None => !stand_from(lines, wanted, t, from),
        },
        chunks::first_match(lines, wanted, t, from) is Some == stand_from(lines, wanted, t, from),
{
    chunks::lemma_first_match(lines, wanted, t, from);
    if let Some(i) = chunks::first_match(lines, wanted, t, from) {
        lemma_same_place(lines, wanted, t, i);
        assert forall|k: int| from <= k < i implies !#[trigger] stand_at(lines, wanted, t, k) by {
            lemma_same_place(lines, wanted, t, k);
            assert(!chunks::matches_at(lines, wanted, t, k));
        }
    } else if stand_from(lines, wanted, t, from) {
        let i = choose|i: int| from <= i && #[trigger] stand_at(lines, wanted, t, i);
        lemma_same_place(lines, wanted, t, i);
        assert(!chunks::matches_at(lines, wanted, t, i));
    }
}

proof fn lemma_all_first(lines: Seq<Text>, wanted: Seq<Text>, from: int)
    requires
        0 <= from <= lines.len(),
    ensures
        forall|t: Tolerance| #![trigger chunks::first_match(lines, wanted, t, from)]
            match chunks::first_match(lines, wanted, t, from) {
                Some(i) => from <= i && stand_at(lines, wanted, t, i) && forall|k: int|
                    from <= k < i ==> !#[trigger] stand_at(lines, wanted, t, k),
                None => true,
            } && chunks::first_match(lines, wanted, t, from) is Some == stand_from(
                lines,
                wanted,
                t,
                from,
            ),
{
    assert forall|t: Tolerance| #![trigger chunks::first_match(lines, wanted, t, from)]
        match chunks::first_match(lines, wanted, t, from) {
            Some(i) => from <= i && stand_at(lines, wanted, t, i) && forall|k: int|
                from <= k < i ==> !#[trigger] stand_at(lines, wanted, t, k),
            None => true,
        } && chunks::first_match(lines, wanted, t, from) is Some == stand_from(
            lines,
            wanted,
            t,
            from,
        ) by {
        lemma_first(lines, wanted, t, from);
    }
}

proof fn lemma_found(lines: Seq<Text>, wanted: Seq<Text>, from: int, i: int)
    requires
        0 <= from <= lines.len(),
        wanted.len() > 0,
    ensures
        chunks::found(lines, wanted, from, false) == Some(i) <==> belong_at(lines, wanted, from, i),
{
    lemma_all_first(lines, wanted, from);
    let e = Tolerance::Exact;
    let r = Tolerance::TrailingSpace;
    let s = Tolerance::SurroundingSpace;
    let y = Tolerance::Typography;
    let fe = chunks::first_match(lines, wanted, e, from);
    let fr = chunks::first_match(lines, wanted, r, from);
    let fs = chunks::first_match(lines, wanted, s, from);
    let fy = chunks::first_match(lines, wanted, y, from);
    if chunks::found(lines, wanted, from, false) == Some(i) {
        let t = if fe is Some {
            e
        } else if fr is Some {
            r
        } else if fs is Some {
            s
        } else {
            y
        };
        assert(stand_at(lines, wanted, t, i));
    }
    if belong_at(lines, wanted, from, i) {
        let t = choose|t: Tolerance|
            {
                &&& from <= i
                &&& #[trigger] stand_at(lines, wanted, t, i)
                &&& forall|k: int| from <= k < i ==> !#[trigger] stand_at(lines, wanted, t, k)
                &&& forall|s: Tolerance|
                    stricter(s, t) ==> !#[trigger] stand_from(lines, wanted, s, from)
            };
        assert(stand_from(lines, wanted, t, from));
        let f = chunks::first_match(lines, wanted, t, from);
        assert(f == Some(i));
        assert(stricter(e, t) ==> !stand_from(lines, wanted, e, from));
        assert(stricter(r, t) ==> !stand_from(lines, wanted, r, from));
        assert(stricter(s, t) ==> !stand_from(lines, wanted, s, from));
    }
}

proof fn lemma_found_at_end(lines: Seq<Text>, wanted: Seq<Text>, from: int, i: int)
    requires
        0 <= from <= lines.len(),
        wanted.len() > 0,
    ensures
        chunks::found(lines, wanted, from, true) == Some(i) <==> belong_at_end(
            lines,
            wanted,
            from,
            i,
        ),
{
    lemma_all_first(lines, wanted, from);
    let last = lines.len() - wanted.len();
    let e = Tolerance::Exact;
    let r = Tolerance::TrailingSpace;
    let s = Tolerance::SurroundingSpace;
    let y = Tolerance::Typography;
    let fe = chunks::found_with(lines, wanted, from, true, e);
    let fr = chunks::found_with(lines, wanted, from, true, r);
    let fs = chunks::found_with(lines, wanted, from, true, s);
    let fy = chunks::found_with(lines, wanted, from, true, y);
    lemma_same_place(lines, wanted, e, last);
    lemma_same_place(lines, wanted, r, last);
    lemma_same_place(lines, wanted, s, last);
    lemma_same_place(lines, wanted, y, last);
    if chunks::found(lines, wanted, from, true) == Some(i) {
        let t = if fe is Some {
            e
        } else if fr is Some {
            r
        } else if fs is Some {
            s
        } else {
            y
        };
        assert(stand_at(lines, wanted, t, i));
    }
    if belong_at_end(lines, wanted, from, i) {
        let t = choose|t: Tolerance|
            {
                &&& #[trigger] stand_at(lines, wanted, t, i)
                &&& i == last || (from <= i && !stand_at(lines, wanted, t, last) && forall|k: int|
                    from <= k < i ==> !#[trigger] stand_at(lines, wanted, t, k))
                &&& forall|s: Tolerance|
                    stricter(s, t) ==> !#[trigger] stand_from(lines, wanted, s, from) && !stand_at(
                        lines,
                        wanted,
                        s,
                        last,
                    )
            };
        let f = chunks::found_with(lines, wanted, from, true, t);
        if i != last {
            assert(stand_from(lines, wanted, t, from));
            assert(chunks::first_match(lines, wanted, t, from) == Some(i));
        }
        assert(f == Some(i));
        assert(stricter(e, t) ==> !stand_from(lines, wanted, e, from));
        assert(stricter(r, t) ==> !stand_from(lines, wanted, r, from));
        assert(stricter(s, t) ==> !stand_from(lines, wanted, s, from));
    }
}

proof fn lemma_sides(chunk: ChunkModel)
    ensures
        chunks::old_lines(chunk.lines) == expected(chunk),
        chunks::new_lines(chunk.lines) == left(chunk),
    decreases chunk.lines.len(),
{
    if chunk.lines.len() > 0 {
        let shorter = ChunkModel { lines: chunk.lines.drop_last(), ..chunk };
        lemma_sides(shorter);
        assert(chunks::old_lines(chunk.lines) =~= expected(chunk));
        assert(chunks::new_lines(chunk.lines) =~= left(chunk));
    }
}

proof fn lemma_one_place(lines: Seq<Text>, wanted: Seq<Text>, from: int, i: int, j: int)
    requires
        0 <= from <= lines.len(),
        wanted.len() > 0,
    ensures
        belong_at(lines, wanted, from, i) && belong_at(lines, wanted, from, j) ==> i == j,
        belong_at_end(lines, wanted, from, i) && belong_at_end(lines, wanted, from, j) ==> i == j,
{
    lemma_found(lines, wanted, from, i);
    lemma_found(lines, wanted, from, j);
    lemma_found_at_end(lines, wanted, from, i);
    lemma_found_at_end(lines, wanted, from, j);
}

proof fn lemma_located(p: Progress, chunk: ChunkModel, path: Text, from: int)
    requires
        0 <= p.cursor <= p.lines.len(),
    ensures
        chunks::located(p, chunk, path) == Ok::<int, Text>(from) <==> looked_for_from(
            p,
            chunk,
            from,
        ),
        looked_for_from(p, chunk, from) ==> p.cursor <= from <= p.lines.len(),
{
    if let Some(locator) = chunk.locator {
        lemma_found(p.lines, seq![locator], p.cursor, from - 1);
    }
}

proof fn lemma_positioned(p: Progress, chunk: ChunkModel, path: Text, from: int, at: int)
    requires
        0 <= from <= p.lines.len(),
    ensures
        chunks::position(p, from, chunk, path) == Ok::<int, Text>(at) <==> takes_effect_at(
            p.lines,
            chunk,
            from,
            at,
        ),
{
    lemma_sides(chunk);
    if expected(chunk).len() > 0 {
        lemma_found(p.lines, expected(chunk), from, at);
        lemma_found_at_end(p.lines, expected(chunk), from, at);
    }
}

// ---------------------------------------------------------------------------
// Laws
// ---------------------------------------------------------------------------
/// A hunk is applied exactly where it belongs, and refused exactly where it
/// belongs nowhere: its locator is the first line behind the hunk before it
/// that resembles it, under the strictest tolerance that finds one; the lines
/// that it expects are the first ones behind the locator that resemble them,
/// or those at the end of the file for a hunk that asks for it.
pub proof fn hunks_are_applied_where_they_belong(
    p: Progress,
    chunk: ChunkModel,
    path: Text,
    next: Progress,
)
    requires
        0 <= p.cursor <= p.lines.len(),
    ensures
        chunks::chunk_applied(p, chunk, path) == Ok::<Progress, Text>(next) <==> applied_to(
            p,
            chunk,
            next,
        ),
{
    lemma_sides(chunk);
    if chunks::chunk_applied(p, chunk, path) == Ok::<Progress, Text>(next) {
        let from = chunks::located(p, chunk, path)->Ok_0;
        lemma_located(p, chunk, path, from);
        let at = chunks::position(p, from, chunk, path)->Ok_0;
        lemma_positioned(p, chunk, path, from, at);
        assert(looked_for_from(p, chunk, from) && takes_effect_at(p.lines, chunk, from, at));
    }
    if applied_to(p, chunk, next) {
        let (from, at) = choose|from: int, at: int| #[trigger]
            looked_for_from(p, chunk, from) && #[trigger] takes_effect_at(
                p.lines,
                chunk,
                from,
                at,
            ) && replaced_at(p, chunk, at, next);
        lemma_located(p, chunk, path, from);
        lemma_positioned(p, chunk, path, from, at);
    }
}

/// A hunk without the mark for the end of the file never takes effect before
/// the end of the previous hunk; and where it names a locator, a line behind
/// that hunk matches the locator, and the hunk takes effect after it.
pub proof fn hunks_follow_their_locator(p: Progress, chunk: ChunkModel, path: Text)
    requires
        0 <= p.cursor <= p.lines.len(),
        !chunk.end_of_file,
        chunks::chunk_applied(p, chunk, path) is Ok,
    ensures
        ({
            let next = chunks::chunk_applied(p, chunk, path)->Ok_0;
            let at = next.cursor - left(chunk).len();
            &&& p.cursor <= at
            &&& next.lines == p.lines.take(at) + left(chunk) + p.lines.skip(
                at + expected(chunk).len(),
            )
            &&& chunk.locator matches Some(locator) ==> exists|l: int, t: Tolerance|
                {
                    &&& p.cursor <= l < at
                    &&& l < p.lines.len()
                    &&& #[trigger] stand_at(p.lines, seq![locator], t, l)
                    &&& forall|k: int|
                        p.cursor <= k < l ==> !#[trigger] stand_at(p.lines, seq![locator], t, k)
                    &&& forall|s: Tolerance|
                        stricter(s, t) ==> !#[trigger] stand_from(
                            p.lines,
                            seq![locator],
                            s,
                            p.cursor,
                        )
                }
        }),
{
    let next = chunks::chunk_applied(p, chunk, path)->Ok_0;
    hunks_are_applied_where_they_belong(p, chunk, path, next);
    let (from, at) = choose|from: int, at: int| #[trigger]
        looked_for_from(p, chunk, from) && #[trigger] takes_effect_at(p.lines, chunk, from, at)
            && replaced_at(p, chunk, at, next);
    lemma_located(p, chunk, path, from);
    lemma_positioned(p, chunk, path, from, at);
    assert(from <= at);
    if let Some(locator) = chunk.locator {
        assert(belong_at(p.lines, seq![locator], p.cursor, from - 1));
        let t = choose|t: Tolerance|
            {
                &&& p.cursor <= from - 1
                &&& #[trigger] stand_at(p.lines, seq![locator], t, from - 1)
                &&& forall|k: int|
                    p.cursor <= k < from - 1 ==> !#[trigger] stand_at(
                        p.lines,
                        seq![locator],
                        t,
                        k,
                    )
                &&& forall|s: Tolerance|
                    stricter(s, t) ==> !#[trigger] stand_from(
                        p.lines,
                        seq![locator],
                        s,
                        p.cursor,
                    )
            };
        assert(stand_at(p.lines, seq![locator], t, from - 1));
    }
}

/// Whether files are the stages of an update: each is the one before it with
/// the next hunk applied where it belongs.
pub open spec fn stages(files: Seq<Progress>, chunks: Seq<ChunkModel>) -> bool {
    files.len() == chunks.len() + 1 && forall|n: int|
        0 <= n < chunks.len() ==> #[trigger] applied_to(files[n], chunks[n], files[n + 1])
}

proof fn lemma_stages(files: Seq<Progress>, chunks: Seq<ChunkModel>, n: int, path: Text)
    requires
        stages(files, chunks),
        0 <= n <= chunks.len(),
        0 <= files[n].cursor <= files[n].lines.len(),
    ensures
        chunks::chunks_applied(files[n], chunks, n, path) == Ok::<Progress, Text>(
            files[chunks.len() as int],
        ),
    decreases chunks.len() - n,
{
    if n < chunks.len() {
        assert(applied_to(files[n], chunks[n], files[n + 1]));
        hunks_are_applied_where_they_belong(files[n], chunks[n], path, files[n + 1]);
        chunks::lemma_chunk_in_range(files[n], chunks[n], path);
        lemma_stages(files, chunks, n + 1, path);
    }
}

proof fn lemma_stages_exist(p: Progress, chunks: Seq<ChunkModel>, n: int, path: Text) -> (files:
    Seq<Progress>)
    requires
        0 <= n <= chunks.len(),
        0 <= p.cursor <= p.lines.len(),
        chunks::chunks_applied(p, chunks, n, path) is Ok,
    ensures
        files.len() == chunks.len() - n + 1,
        files[0] == p,
        files.last() == chunks::chunks_applied(p, chunks, n, path)->Ok_0,
        forall|k: int|
            n <= k < chunks.len() ==> applied_to(
                files[k - n],
                #[trigger] chunks[k],
                files[k - n + 1],
            ),
    decreases chunks.len() - n,
{
    if n == chunks.len() {
        seq![p]
    } else {
        let next = chunks::chunk_applied(p, chunks[n], path)->Ok_0;
        hunks_are_applied_where_they_belong(p, chunks[n], path, next);
        chunks::lemma_chunk_in_range(p, chunks[n], path);
        let rest = lemma_stages_exist(next, chunks, n + 1, path);
        let files = seq![p] + rest;
        assert forall|k: int| n <= k < chunks.len() implies applied_to(
            files[k - n],
            #[trigger] chunks[k],
            files[k - n + 1],
        ) by {
            if k > n {
                assert(files[k - n] == rest[k - (n + 1)]);
                assert(files[k - n + 1] == rest[k - (n + 1) + 1]);
            }
        }
        files
    }
}

/// An update applies its hunks one after the other to the lines of the file,
/// each where it belongs behind the one before it; the result is what the last
/// one leaves, each line with a line feed after it. It succeeds exactly where
/// every hunk belongs somewhere.
pub proof fn updates_apply_hunk_by_hunk(
    lines: Seq<Text>,
    original: Text,
    path: Text,
    hunks: Seq<ChunkModel>,
    content: Text,
)
    requires
        is_lines_of(lines, original),
    ensures
        chunks::applied(original, path, hunks) == Ok::<Text, Text>(content) <==> exists|
            files: Seq<Progress>,
        | #[trigger]
            stages(files, hunks) && files[0] == (Progress { lines, cursor: 0 }) && content
                == written(files.last().lines),
{
    lemma_lines_of(lines, original);
    let start = Progress { lines, cursor: 0 };
    if chunks::applied(original, path, hunks) == Ok::<Text, Text>(content) {
        let files = lemma_stages_exist(start, hunks, 0, path);
        assert forall|n: int| 0 <= n < hunks.len() implies #[trigger] applied_to(
            files[n],
            hunks[n],
            files[n + 1],
        ) by {
            assert(applied_to(files[n - 0], hunks[n], files[n - 0 + 1]));
        }
        assert(stages(files, hunks));
        lemma_written(files.last().lines);
    }
    if exists|files: Seq<Progress>| #[trigger]
        stages(files, hunks) && files[0] == start && content == written(files.last().lines) {
        let files = choose|files: Seq<Progress>| #[trigger]
            stages(files, hunks) && files[0] == start && content == written(files.last().lines);
        lemma_stages(files, hunks, 0, path);
        lemma_written(files.last().lines);
    }
}

// ---------------------------------------------------------------------------
// The lines of a file
// ---------------------------------------------------------------------------
/// The content of a file with given lines; a file without lines still has one
/// line feed.
pub open spec fn written(lines: Seq<Text>) -> Text
    decreases lines.len(),
{
    if lines.len() == 0 {
        seq!['\n']
    } else if lines.len() == 1 {
        lines[0].push('\n')
    } else {
        written(lines.drop_last()) + lines.last().push('\n')
    }
}

/// Whether these are the lines of a file: none holds a line feed, and one after
/// the other, with line feeds between them and perhaps one at the end, they
/// make up the content. An empty file has none.
pub open spec fn is_lines_of(lines: Seq<Text>, content: Text) -> bool {
    &&& forall|i: int| 0 <= i < lines.len() ==> !(#[trigger] lines[i]).contains('\n')
    &&& if lines.len() == 0 {
        content.len() == 0
    } else {
        ||| written(lines) == content
        ||| written(lines) == content.push('\n') && lines.last().len() > 0
    }
}

proof fn lemma_written(lines: Seq<Text>)
    ensures
        text::join(lines, "\n"@) + "\n"@ == written(lines),
    decreases lines.len(),
{
    reveal_strlit("\n");
    if lines.len() == 0 {
        assert(text::join(lines, "\n"@) + "\n"@ =~= seq!['\n']);
    } else if lines.len() == 1 {
        assert(text::join(lines, "\n"@) + "\n"@ =~= lines[0].push('\n'));
    } else {
        lemma_written(lines.drop_last());
        assert(text::join(lines, "\n"@) + "\n"@ =~= written(lines.drop_last())
            + lines.last().push('\n'));
    }
}

proof fn lemma_lines_of(lines: Seq<Text>, content: Text)
    requires
        is_lines_of(lines, content),
    ensures
        chunks::file_lines(content) == lines,
{
    if lines.len() == 0 {
        text::lemma_first_index(content, '\n', 0);
        assert(text::split(content, '\n') =~= seq![content]);
        assert(chunks::file_lines(content) =~= lines);
    } else if written(lines) == content {
        lemma_split_written(lines, Seq::empty());
        assert(written(lines) + Seq::<char>::empty() =~= content);
        assert(chunks::file_lines(content) =~= lines);
    } else {
        let init = lines.drop_last();
        if lines.len() == 1 {
            assert(content =~= lines[0]) by {
                assert(content.push('\n').drop_last() =~= content);
                assert(lines[0].push('\n').drop_last() =~= lines[0]);
            }
            lemma_unbroken(content);
            assert(chunks::file_lines(content) =~= lines);
        } else {
            assert(content =~= written(init) + lines.last()) by {
                assert(content.push('\n').drop_last() =~= content);
                assert((written(init) + lines.last().push('\n')).drop_last() =~= written(init)
                    + lines.last());
            }
            assert forall|i: int| 0 <= i < init.len() implies !(#[trigger] init[i]).contains(
                '\n',
            ) by {
                assert(init[i] == lines[i]);
            }
            lemma_split_written(init, lines.last());
            assert(!lines[lines.len() - 1].contains('\n'));
            assert(chunks::file_lines(content) =~= lines);
        }
    }
}

proof fn lemma_unbroken(s: Text)
    requires
        !s.contains('\n'),
    ensures
        text::split(s, '\n') == seq![s],
{
    assert forall|k: int| 0 <= k < s.len() implies s[k] != '\n' by {
        assert(s.contains(s[k]));
    }
    text::lemma_first_index(s, '\n', s.len() as int);
}

proof fn lemma_split_written(lines: Seq<Text>, rest: Text)
    requires
        lines.len() > 0,
        forall|i: int| 0 <= i < lines.len() ==> !(#[trigger] lines[i]).contains('\n'),
        !rest.contains('\n'),
    ensures
        text::split(written(lines) + rest, '\n') == lines.push(rest),
    decreases lines.len(),
{
    let s = written(lines) + rest;
    let first = lines[0];
    lemma_written_first(lines);
    let tail = lines.skip(1);
    let after = if tail.len() == 0 {
        rest
    } else {
        written(tail) + rest
    };
    assert(s =~= first.push('\n') + after);
    assert forall|k: int| 0 <= k < first.len() implies s[k] != '\n' by {
        assert(first.contains(first[k]));
    }
    text::lemma_first_index(s, '\n', first.len() as int);
    assert(s.take(first.len() as int) =~= first);
    assert(s.skip(first.len() as int + 1) =~= after);
    if tail.len() == 0 {
        lemma_unbroken(rest);
        assert(text::split(s, '\n') =~= lines.push(rest));
    } else {
        assert forall|i: int| 0 <= i < tail.len() implies !(#[trigger] tail[i]).contains('\n') by {
            assert(tail[i] == lines[i + 1]);
        }
        lemma_split_written(tail, rest);
        assert(text::split(s, '\n') =~= lines.push(rest));
    }
}

proof fn lemma_written_first(lines: Seq<Text>)
    requires
        lines.len() > 0,
    ensures
        written(lines) == lines[0].push('\n') + (if lines.len() == 1 {
            Seq::empty()
        } else {
            written(lines.skip(1))
        }),
    decreases lines.len(),
{
    if lines.len() == 1 {
        assert(written(lines) =~= lines[0].push('\n') + Seq::<char>::empty());
    } else if lines.len() == 2 {
        assert(lines.skip(1).len() == 1 && lines.skip(1)[0] == lines[1]);
        assert(lines.drop_last().len() == 1 && lines.drop_last()[0] == lines[0]);
        assert(written(lines.drop_last()) == lines[0].push('\n'));
        assert(written(lines.skip(1)) == lines[1].push('\n'));
        assert(written(lines) =~= lines[0].push('\n') + written(lines.skip(1)));
    } else {
        lemma_written_first(lines.drop_last());
        assert(lines.drop_last().skip(1) =~= lines.skip(1).drop_last());
        assert(lines.skip(1).last() == lines.last());
        assert(written(lines.skip(1)) == written(lines.skip(1).drop_last()) + lines.last().push(
            '\n',
        ));
        assert(written(lines) =~= lines[0].push('\n') + written(lines.skip(1)));
    }
}

/// Every file has lines, and there is only one way to read them.
pub proof fn files_have_lines(content: Text)
    ensures
        is_lines_of(chunks::file_lines(content), content),
        forall|lines: Seq<Text>|
            #[trigger] is_lines_of(lines, content) ==> lines == chunks::file_lines(content),
    decreases content.len(),
{
    assert forall|lines: Seq<Text>| #[trigger] is_lines_of(lines, content) implies lines
        == chunks::file_lines(content) by {
        lemma_lines_of(lines, content);
    }
    text::lemma_first_index_bounds(content, '\n');
    let i = text::first_index(content, '\n');
    let parts = text::split(content, '\n');
    let lines = chunks::file_lines(content);
    text::lemma_split_parts(content, '\n');
    assert forall|k: int| 0 <= k < lines.len() implies !(#[trigger] lines[k]).contains('\n') by {
        assert(!parts[k].contains('\n'));
    }
    if i < content.len() {
        let rest = content.skip(i + 1);
        files_have_lines(rest);
        let tail = chunks::file_lines(rest);
        assert(parts.skip(1) =~= text::split(rest, '\n'));
        text::lemma_split_parts(rest, '\n');
        assert(lines =~= seq![content.take(i)] + tail);
        assert(content =~= content.take(i).push('\n') + rest);
        lemma_written_first(lines);
        assert(lines.skip(1) =~= tail);
        if tail.len() == 0 {
            assert(written(lines) =~= content);
        } else if written(tail) == rest {
            assert(written(lines) =~= content);
        } else {
            assert(written(lines) =~= content.push('\n'));
            assert(lines.last() == tail.last());
        }
    } else {
        assert(parts =~= seq![content]);
        if content.len() == 0 {
            assert(lines =~= Seq::empty());
        } else {
            assert(lines =~= seq![content]);
            assert(written(lines) =~= content.push('\n'));
        }
    }
}

} // verus!
