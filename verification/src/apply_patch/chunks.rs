//! Applying the hunks of an update to the content of a file.
use vstd::prelude::*;

use crate::apply_patch::{Chunk, ChunkModel, HunkLine, HunkModel};
use crate::apply_patch;
use crate::text;
use crate::text::Text;

verus! {

// ---------------------------------------------------------------------------
// When two lines count as equal
// ---------------------------------------------------------------------------
/// How far a line of a file may differ from the line a hunk expects. Later
/// tolerances forgive more than earlier ones.
#[derive(Debug, Clone, Copy, PartialEq, Eq, Structural)]
pub enum Tolerance {
    Exact,
    TrailingSpace,
    SurroundingSpace,
    Typography,
}

/// The plain character that stands for typographic dashes, quotes and spaces.
pub open spec fn plain(c: char) -> char {
    if '\u{2010}' <= c <= '\u{2015}' || c == '\u{2212}' {
        '-'
    } else if '\u{2018}' <= c <= '\u{201b}' {
        '\''
    } else if '\u{201c}' <= c <= '\u{201f}' {
        '"'
    } else if c == '\u{a0}' || '\u{2002}' <= c <= '\u{200a}' || c == '\u{202f}' || c == '\u{205f}'
        || c == '\u{3000}' {
        ' '
    } else {
        c
    }
}

/// A line without surrounding white space and typographic variants.
pub open spec fn normalized(l: Text) -> Text {
    text::trim(l).map_values(|c: char| plain(c))
}

/// What of a line counts under a tolerance.
pub open spec fn key(t: Tolerance, l: Text) -> Text {
    match t {
        Tolerance::Exact => l,
        Tolerance::TrailingSpace => text::trim_end(l),
        Tolerance::SurroundingSpace => text::trim(l),
        Tolerance::Typography => normalized(l),
    }
}

/// Whether the pattern stands in the lines at position `i`.
pub open spec fn matches_at(
    lines: Seq<Text>,
    pattern: Seq<Text>,
    t: Tolerance,
    i: int,
) -> bool {
    &&& 0 <= i
    &&& i + pattern.len() <= lines.len()
    &&& forall|k: int|
        0 <= k < pattern.len() ==> key(t, #[trigger] pattern[k]) == key(t, lines[i + k])
}

// ---------------------------------------------------------------------------
// Where a pattern is found
// ---------------------------------------------------------------------------
/// The first position at or after `from` where the pattern stands.
pub open spec fn first_match(
    lines: Seq<Text>,
    pattern: Seq<Text>,
    t: Tolerance,
    from: int,
) -> Option<int>
    decreases lines.len() - from,
{
    if from < 0 || from + pattern.len() > lines.len() {
        None
    } else if matches_at(lines, pattern, t, from) {
        Some(from)
    } else if from >= lines.len() {
        None
    } else {
        first_match(lines, pattern, t, from + 1)
    }
}

pub open spec fn at_most(a: int, b: int) -> int {
    if a <= b {
        a
    } else {
        b
    }
}

/// Where the pattern is found under one tolerance: at the end of the file when
/// the hunk asks for it and it stands there, else at its first position.
pub open spec fn found_with(
    lines: Seq<Text>,
    pattern: Seq<Text>,
    start: int,
    eof: bool,
    t: Tolerance,
) -> Option<int> {
    let last = lines.len() - pattern.len();
    if eof && matches_at(lines, pattern, t, last) {
        Some(last)
    } else {
        first_match(lines, pattern, t, at_most(start, lines.len() as int))
    }
}

/// Where a pattern is found at or after `start`: under the strictest tolerance
/// that finds it.
pub open spec fn found(
    lines: Seq<Text>,
    pattern: Seq<Text>,
    start: int,
    eof: bool,
) -> Option<int> {
    if pattern.len() == 0 {
        Some(at_most(start, lines.len() as int))
    } else if pattern.len() > lines.len() {
        None
    } else if found_with(lines, pattern, start, eof, Tolerance::Exact) is Some {
        found_with(lines, pattern, start, eof, Tolerance::Exact)
    } else if found_with(lines, pattern, start, eof, Tolerance::TrailingSpace) is Some {
        found_with(lines, pattern, start, eof, Tolerance::TrailingSpace)
    } else if found_with(lines, pattern, start, eof, Tolerance::SurroundingSpace) is Some {
        found_with(lines, pattern, start, eof, Tolerance::SurroundingSpace)
    } else {
        found_with(lines, pattern, start, eof, Tolerance::Typography)
    }
}

/// A first match is a match, and none comes before it.
pub proof fn lemma_first_match(lines: Seq<Text>, pattern: Seq<Text>, t: Tolerance, from: int)
    requires
        0 <= from,
    ensures
        match first_match(lines, pattern, t, from) {
            Some(i) => from <= i && matches_at(lines, pattern, t, i) && forall|k: int|
                from <= k < i ==> !#[trigger] matches_at(lines, pattern, t, k),
            None => forall|k: int| from <= k ==> !#[trigger] matches_at(lines, pattern, t, k),
        },
    decreases lines.len() - from,
{
    if from + pattern.len() <= lines.len() && !matches_at(lines, pattern, t, from) && from
        < lines.len() {
        lemma_first_match(lines, pattern, t, from + 1);
    }
}

/// Where a pattern is found there is room for it.
pub proof fn lemma_found_in_range(lines: Seq<Text>, pattern: Seq<Text>, start: int, eof: bool)
    requires
        0 <= start,
    ensures
        found(lines, pattern, start, eof) matches Some(i) ==> 0 <= i && i + pattern.len()
            <= lines.len(),
{
    let from = at_most(start, lines.len() as int);
    lemma_first_match(lines, pattern, Tolerance::Exact, from);
    lemma_first_match(lines, pattern, Tolerance::TrailingSpace, from);
    lemma_first_match(lines, pattern, Tolerance::SurroundingSpace, from);
    lemma_first_match(lines, pattern, Tolerance::Typography, from);
}

// ---------------------------------------------------------------------------
// Applying hunks
// ---------------------------------------------------------------------------
/// The lines a hunk expects: those it keeps and those it removes.
pub open spec fn old_lines(lines: Seq<HunkModel>) -> Seq<Text>
    decreases lines.len(),
{
    if lines.len() == 0 {
        Seq::empty()
    } else {
        let before = old_lines(lines.drop_last());
        match lines.last() {
            HunkModel::Context(s) => before.push(s),
            HunkModel::Remove(s) => before.push(s),
            HunkModel::Add(_) => before,
        }
    }
}

/// The lines a hunk leaves: those it keeps and those it adds.
pub open spec fn new_lines(lines: Seq<HunkModel>) -> Seq<Text>
    decreases lines.len(),
{
    if lines.len() == 0 {
        Seq::empty()
    } else {
        let before = new_lines(lines.drop_last());
        match lines.last() {
            HunkModel::Context(s) => before.push(s),
            HunkModel::Add(s) => before.push(s),
            HunkModel::Remove(_) => before,
        }
    }
}

/// The lines with `count` of them, from `at` on, replaced.
pub open spec fn spliced(lines: Seq<Text>, at: int, count: int, new: Seq<Text>) -> Seq<Text> {
    lines.take(at) + new + lines.skip(at + count)
}

/// A file while hunks are applied to it: its lines and the line from which the
/// next hunk is looked for.
pub struct Progress {
    pub lines: Seq<Text>,
    pub cursor: int,
}

/// The line from which a hunk is looked for: the one after its locator.
pub open spec fn located(p: Progress, chunk: ChunkModel, path: Text) -> Result<int, Text> {
    match chunk.locator {
        None => Ok(p.cursor),
        Some(locator) => match found(p.lines, seq![locator], p.cursor, false) {
            Some(i) => Ok(i + 1),
            None => Err("failed to find context `"@ + locator + "` in "@ + path),
        },
    }
}

/// Where a hunk takes effect.
pub open spec fn position(p: Progress, from: int, chunk: ChunkModel, path: Text) -> Result<
    int,
    Text,
> {
    let old = old_lines(chunk.lines);
    if old.len() == 0 {
        Ok(
            if chunk.end_of_file {
                p.lines.len() as int
            } else {
                from
            },
        )
    } else {
        match found(p.lines, old, from, chunk.end_of_file) {
            Some(i) => Ok(i),
            None => Err(
                "failed to find expected lines in "@ + path + ":\n"@ + text::join(old, "\n"@),
            ),
        }
    }
}

/// The file after one hunk.
pub open spec fn chunk_applied(p: Progress, chunk: ChunkModel, path: Text) -> Result<
    Progress,
    Text,
> {
    match located(p, chunk, path) {
        Err(message) => Err(message),
        Ok(from) => match position(p, from, chunk, path) {
            Err(message) => Err(message),
            Ok(at) => {
                let new = new_lines(chunk.lines);
                Ok(
                    Progress {
                        lines: spliced(p.lines, at, old_lines(chunk.lines).len() as int, new),
                        cursor: at + new.len(),
                    },
                )
            },
        },
    }
}

/// The file after the hunks from number `n` on.
pub open spec fn chunks_applied(
    p: Progress,
    chunks: Seq<ChunkModel>,
    n: int,
    path: Text,
) -> Result<Progress, Text>
    decreases chunks.len() - n,
{
    if n >= chunks.len() {
        Ok(p)
    } else {
        match chunk_applied(p, chunks[n], path) {
            Err(message) => Err(message),
            Ok(next) => chunks_applied(next, chunks, n + 1, path),
        }
    }
}

/// The lines of a file; a line feed at the end starts no further line.
pub open spec fn file_lines(content: Text) -> Seq<Text> {
    let parts = text::split(content, '\n');
    if parts.last().len() == 0 {
        parts.drop_last()
    } else {
        parts
    }
}

/// The content of a file after the hunks of an update. It always ends in a
/// line feed.
pub open spec fn applied(original: Text, path: Text, chunks: Seq<ChunkModel>) -> Result<
    Text,
    Text,
> {
    match chunks_applied(
        Progress { lines: file_lines(original), cursor: 0 },
        chunks,
        0,
        path,
    ) {
        Err(message) => Err(message),
        Ok(end) => Ok(text::join(end.lines, "\n"@) + "\n"@),
    }
}

/// A hunk keeps the cursor within the lines, and takes effect within them.
pub proof fn lemma_chunk_in_range(p: Progress, chunk: ChunkModel, path: Text)
    requires
        0 <= p.cursor <= p.lines.len(),
    ensures
        located(p, chunk, path) matches Ok(from) ==> 0 <= from <= p.lines.len() && (position(
            p,
            from,
            chunk,
            path,
        ) matches Ok(at) ==> 0 <= at && at + old_lines(chunk.lines).len() <= p.lines.len()),
        chunk_applied(p, chunk, path) matches Ok(next) ==> 0 <= next.cursor <= next.lines.len(),
{
    if let Some(locator) = chunk.locator {
        lemma_found_in_range(p.lines, seq![locator], p.cursor, false);
    }
    if let Ok(from) = located(p, chunk, path) {
        lemma_found_in_range(p.lines, old_lines(chunk.lines), from, chunk.end_of_file);
    }
}

// ---------------------------------------------------------------------------
// Laws
// ---------------------------------------------------------------------------
/// Lines that stand in the file exactly as a hunk expects them are preferred to
/// lines that only resemble them, and the first of them is taken.
pub proof fn exact_lines_are_preferred(lines: Seq<Text>, pattern: Seq<Text>, start: int, i: int)
    requires
        0 <= start <= i,
        pattern.len() > 0,
        matches_at(lines, pattern, Tolerance::Exact, i),
        forall|k: int| start <= k < i ==> !#[trigger] matches_at(
            lines,
            pattern,
            Tolerance::Exact,
            k,
        ),
    ensures
        found(lines, pattern, start, false) == Some(i),
{
    lemma_first_match(lines, pattern, Tolerance::Exact, start);
}

/// A hunk takes effect where the lines it expects stand, up to white space and
/// typography, and all other lines stay as they are.
pub proof fn hunks_replace_what_they_expect(p: Progress, chunk: ChunkModel, path: Text)
    requires
        0 <= p.cursor <= p.lines.len(),
        chunk_applied(p, chunk, path) is Ok,
    ensures
        ({
            let next = chunk_applied(p, chunk, path)->Ok_0;
            let old = old_lines(chunk.lines);
            let new = new_lines(chunk.lines);
            let at = next.cursor - new.len();
            &&& old.len() > 0 ==> exists|t: Tolerance| #[trigger] matches_at(p.lines, old, t, at)
            &&& next.lines.take(at) == p.lines.take(at)
            &&& next.lines.subrange(at, next.cursor) == new
            &&& next.lines.skip(next.cursor) == p.lines.skip(at + old.len())
        }),
{
    lemma_chunk_in_range(p, chunk, path);
    let from = located(p, chunk, path)->Ok_0;
    let old = old_lines(chunk.lines);
    let start = at_most(from, p.lines.len() as int);
    lemma_first_match(p.lines, old, Tolerance::Exact, start);
    lemma_first_match(p.lines, old, Tolerance::TrailingSpace, start);
    lemma_first_match(p.lines, old, Tolerance::SurroundingSpace, start);
    lemma_first_match(p.lines, old, Tolerance::Typography, start);
    let next = chunk_applied(p, chunk, path)->Ok_0;
    let at = position(p, from, chunk, path)->Ok_0;
    assert(next.cursor - new_lines(chunk.lines).len() == at);
    if old.len() > 0 {
        assert(matches_at(p.lines, old, Tolerance::Exact, at) || matches_at(
            p.lines,
            old,
            Tolerance::TrailingSpace,
            at,
        ) || matches_at(p.lines, old, Tolerance::SurroundingSpace, at) || matches_at(
            p.lines,
            old,
            Tolerance::Typography,
            at,
        ));
    }
    assert(next.lines.take(at) =~= p.lines.take(at));
    assert(next.lines.subrange(at, next.cursor) =~= new_lines(chunk.lines));
    assert(next.lines.skip(next.cursor) =~= p.lines.skip(at + old.len()));
}

/// An updated file ends in a line feed.
pub proof fn updated_files_end_in_a_line_feed(
    original: Text,
    path: Text,
    chunks: Seq<ChunkModel>,
)
    ensures
        applied(original, path, chunks) matches Ok(content) ==> content.len() > 0
            && content.last() == '\n',
{
    reveal_strlit("\n");
}

// ---------------------------------------------------------------------------
// Doing it
// ---------------------------------------------------------------------------
fn plain_char(c: char) -> (r: char)
    ensures
        r == plain(c),
{
    if ('\u{2010}' <= c && c <= '\u{2015}') || c == '\u{2212}' {
        '-'
    } else if '\u{2018}' <= c && c <= '\u{201b}' {
        '\''
    } else if '\u{201c}' <= c && c <= '\u{201f}' {
        '"'
    } else if c == '\u{a0}' || ('\u{2002}' <= c && c <= '\u{200a}') || c == '\u{202f}' || c
        == '\u{205f}' || c == '\u{3000}' {
        ' '
    } else {
        c
    }
}

/// A line without surrounding white space and typographic variants.
pub fn normalize_line(line: &Vec<char>) -> (r: Vec<char>)
    ensures
        r@ == normalized(line@),
{
    let trimmed = text::trim_chars(line);
    let mut out: Vec<char> = Vec::new();
    for i in 0..trimmed.len()
        invariant
            out@.len() == i,
            forall|k: int| 0 <= k < i ==> out@[k] == plain(trimmed@[k]),
    {
        out.push(plain_char(trimmed[i]));
    }
    assert(out@ =~= normalized(line@));
    out
}

/// Tells whether two lines count as equal.
pub fn lines_match(t: Tolerance, actual: &Vec<char>, expected: &Vec<char>) -> (r: bool)
    ensures
        r == (key(t, expected@) == key(t, actual@)),
{
    match t {
        Tolerance::Exact => text::same_chars(expected, actual),
        Tolerance::TrailingSpace => text::same_chars(
            &text::trim_end_chars(expected),
            &text::trim_end_chars(actual),
        ),
        Tolerance::SurroundingSpace => text::same_chars(
            &text::trim_chars(expected),
            &text::trim_chars(actual),
        ),
        Tolerance::Typography => text::same_chars(
            &normalize_line(expected),
            &normalize_line(actual),
        ),
    }
}

fn stands_at(lines: &Vec<Vec<char>>, pattern: &Vec<Vec<char>>, t: Tolerance, at: usize) -> (r: bool)
    requires
        at + pattern@.len() <= lines@.len(),
    ensures
        r == matches_at(text::texts(lines@), text::texts(pattern@), t, at as int),
{
    let ghost ls = text::texts(lines@);
    let ghost ps = text::texts(pattern@);
    let count: usize = lines.len();
    for k in 0..pattern.len()
        invariant
            ls == text::texts(lines@),
            ps == text::texts(pattern@),
            at + pattern@.len() <= lines@.len() == count,
            forall|j: int| 0 <= j < k ==> key(t, #[trigger] ps[j]) == key(t, ls[at + j]),
    {
        assert(ps[k as int] == pattern@[k as int]@);
        assert(ls[at + k] == lines@[at + k]@);
        if !lines_match(t, &lines[at + k], &pattern[k]) {
            return false;
        }
    }
    true
}

fn seek_with(
    lines: &Vec<Vec<char>>,
    pattern: &Vec<Vec<char>>,
    start: usize,
    eof: bool,
    t: Tolerance,
) -> (r: Option<usize>)
    requires
        pattern@.len() <= lines@.len(),
    ensures
        match r {
            Some(i) => found_with(
                text::texts(lines@),
                text::texts(pattern@),
                start as int,
                eof,
                t,
            ) == Some(i as int),
            None => found_with(
                text::texts(lines@),
                text::texts(pattern@),
                start as int,
                eof,
                t,
            ) is None,
        },
{
    let ghost ls = text::texts(lines@);
    let ghost ps = text::texts(pattern@);
    let last: usize = lines.len() - pattern.len();
    if eof && stands_at(lines, pattern, t, last) {
        return Some(last);
    }
    let from = if start <= lines.len() {
        start
    } else {
        lines.len()
    };
    let mut i: usize = from;
    while i <= last && i < lines.len()
        invariant
            ls == text::texts(lines@),
            ps == text::texts(pattern@),
            from <= i <= lines@.len(),
            last == lines@.len() - pattern@.len(),
            first_match(ls, ps, t, from as int) == first_match(ls, ps, t, i as int),
            from == at_most(start as int, lines@.len() as int),
            !(eof && matches_at(ls, ps, t, last as int)),
        decreases lines@.len() - i,
    {
        if stands_at(lines, pattern, t, i) {
            return Some(i);
        }
        i = i + 1;
    }
    if i <= last && stands_at(lines, pattern, t, i) {
        return Some(i);
    }
    None
}

/// Where a pattern is found at or after `start`.
pub fn seek_sequence(
    lines: &Vec<Vec<char>>,
    pattern: &Vec<Vec<char>>,
    start: usize,
    eof: bool,
) -> (r: Option<usize>)
    ensures
        match r {
            Some(i) => found(text::texts(lines@), text::texts(pattern@), start as int, eof)
                == Some(i as int),
            None => found(text::texts(lines@), text::texts(pattern@), start as int, eof) is None,
        },
{
    if pattern.len() == 0 {
        return Some(
            if start <= lines.len() {
                start
            } else {
                lines.len()
            },
        );
    }
    if pattern.len() > lines.len() {
        return None;
    }
    if let Some(i) = seek_with(lines, pattern, start, eof, Tolerance::Exact) {
        return Some(i);
    }
    if let Some(i) = seek_with(lines, pattern, start, eof, Tolerance::TrailingSpace) {
        return Some(i);
    }
    if let Some(i) = seek_with(lines, pattern, start, eof, Tolerance::SurroundingSpace) {
        return Some(i);
    }
    seek_with(lines, pattern, start, eof, Tolerance::Typography)
}

fn chunk_sides(lines: &Vec<HunkLine>) -> (r: (Vec<Vec<char>>, Vec<Vec<char>>))
    ensures
        text::texts(r.0@) == old_lines(apply_patch::hunk_models(lines@)),
        text::texts(r.1@) == new_lines(apply_patch::hunk_models(lines@)),
{
    let ghost models = apply_patch::hunk_models(lines@);
    let mut old: Vec<Vec<char>> = Vec::new();
    let mut new: Vec<Vec<char>> = Vec::new();
    assert(text::texts(old@) =~= Seq::empty());
    for i in 0..lines.len()
        invariant
            models == apply_patch::hunk_models(lines@),
            text::texts(old@) == old_lines(models.take(i as int)),
            text::texts(new@) == new_lines(models.take(i as int)),
    {
        let ghost old_before = old@;
        let ghost new_before = new@;
        assert(models.take(i + 1).drop_last() =~= models.take(i as int));
        assert(models.take(i + 1).last() == lines@[i as int]@);
        match &lines[i] {
            HunkLine::Context(s) => {
                let line = text::chars_of(s.as_str());
                old.push(line);
                let line = text::chars_of(s.as_str());
                new.push(line);
                assert(text::texts(old@) =~= text::texts(old_before).push(s@));
                assert(text::texts(new@) =~= text::texts(new_before).push(s@));
            },
            HunkLine::Remove(s) => {
                let line = text::chars_of(s.as_str());
                old.push(line);
                assert(text::texts(old@) =~= text::texts(old_before).push(s@));
            },
            HunkLine::Add(s) => {
                let line = text::chars_of(s.as_str());
                new.push(line);
                assert(text::texts(new@) =~= text::texts(new_before).push(s@));
            },
        }
    }
    assert(models.take(lines@.len() as int) =~= models);
    (old, new)
}

fn splice(lines: &Vec<Vec<char>>, at: usize, count: usize, new: &Vec<Vec<char>>) -> (r: Vec<
    Vec<char>,
>)
    requires
        at + count <= lines@.len(),
    ensures
        text::texts(r@) == spliced(
            text::texts(lines@),
            at as int,
            count as int,
            text::texts(new@),
        ),
{
    let mut out: Vec<Vec<char>> = Vec::new();
    let total: usize = lines.len();
    for i in 0..at
        invariant
            at <= lines@.len(),
            out@.len() == i,
            forall|k: int| 0 <= k < i ==> out@[k]@ == lines@[k]@,
    {
        out.push(text::copy_chars(&lines[i]));
    }
    for i in 0..new.len()
        invariant
            out@.len() == at + i,
            at <= lines@.len(),
            forall|k: int| 0 <= k < at ==> out@[k]@ == lines@[k]@,
            forall|j: int| at <= j < at + i ==> #[trigger] out@[j]@ == new@[j - at]@,
    {
        out.push(text::copy_chars(&new[i]));
    }
    let ghost middle = out@;
    for i in at + count..total
        invariant
            at + count <= lines@.len() == total,
            middle.len() == at + new@.len(),
            out@.len() == middle.len() + (i - (at + count)),
            forall|k: int| 0 <= k < middle.len() ==> out@[k]@ == middle[k]@,
            forall|j: int|
                middle.len() <= j < out@.len() ==> #[trigger] out@[j]@ == lines@[j - middle.len()
                    + at + count]@,
    {
        out.push(text::copy_chars(&lines[i]));
    }
    proof {
        let goal = spliced(
            text::texts(lines@),
            at as int,
            count as int,
            text::texts(new@),
        );
        assert(text::texts(out@).len() == goal.len());
        assert forall|k: int| 0 <= k < goal.len() implies text::texts(out@)[k] == goal[k] by {
            if k < at {
                assert(out@[k]@ == middle[k]@);
            } else if k < at + new@.len() {
                assert(middle[k]@ == new@[k - at]@);
                assert(out@[k]@ == middle[k]@);
            } else {
                assert(out@[k]@ == lines@[k - middle.len() + at + count]@);
            }
        }
        assert(text::texts(out@) =~= goal);
    }
    out
}

fn content_lines(content: &str) -> (r: Vec<Vec<char>>)
    ensures
        text::texts(r@) == file_lines(content@),
{
    let mut parts = text::split_chars(&text::chars_of(content), '\n');
    let ghost whole = text::texts(parts@);
    let last: usize = parts.len() - 1;
    assert(whole.last() == parts@[last as int]@);
    if parts[last].len() == 0 {
        parts.pop();
        assert(text::texts(parts@) =~= whole.drop_last());
    }
    parts
}

fn locate(lines: &Vec<Vec<char>>, cursor: usize, chunk: &Chunk, path: &str) -> (r: Result<
    usize,
    String,
>)
    requires
        cursor <= lines@.len(),
    ensures
        match r {
            Ok(from) => located(
                Progress { lines: text::texts(lines@), cursor: cursor as int },
                chunk@,
                path@,
            ) == Ok::<int, Text>(from as int),
            Err(message) => located(
                Progress { lines: text::texts(lines@), cursor: cursor as int },
                chunk@,
                path@,
            ) == Err::<int, Text>(message@),
        },
{
    match &chunk.locator {
        None => Ok(cursor),
        Some(locator) => {
            let mut pattern: Vec<Vec<char>> = Vec::new();
            pattern.push(text::chars_of(locator.as_str()));
            assert(text::texts(pattern@) =~= seq![locator@]);
            let count: usize = lines.len();
            match seek_sequence(lines, &pattern, cursor, false) {
                Some(i) => {
                    proof {
                        lemma_found_in_range(
                            text::texts(lines@),
                            seq![locator@],
                            cursor as int,
                            false,
                        );
                    }
                    assert(i < count);
                    Ok(i + 1)
                },
                None => {
                    let mut message = "failed to find context `".to_string();
                    message.append(locator.as_str());
                    message.append("` in ");
                    message.append(path);
                    Err(message)
                },
            }
        },
    }
}

/// The content of a file after the hunks of an update.
pub fn apply_chunks(original: &str, path: &str, chunks: &Vec<Chunk>) -> (r: Result<
    String,
    String,
>)
    ensures
        match r {
            Ok(content) => applied(original@, path@, apply_patch::chunk_models(chunks@)) == Ok::<
                Text,
                Text,
            >(content@),
            Err(message) => applied(original@, path@, apply_patch::chunk_models(chunks@)) == Err::<
                Text,
                Text,
            >(message@),
        },
{
    let ghost models = apply_patch::chunk_models(chunks@);
    let mut lines = content_lines(original);
    let ghost whole = chunks_applied(
        Progress { lines: text::texts(lines@), cursor: 0 },
        models,
        0,
        path@,
    );
    let mut cursor: usize = 0;
    for n in 0..chunks.len()
        invariant
            models == apply_patch::chunk_models(chunks@),
            cursor <= lines@.len(),
            whole == chunks_applied(
                Progress { lines: file_lines(original@), cursor: 0 },
                models,
                0,
                path@,
            ),
            whole == chunks_applied(
                Progress { lines: text::texts(lines@), cursor: cursor as int },
                models,
                n as int,
                path@,
            ),
    {
        let chunk = &chunks[n];
        let ghost p = Progress { lines: text::texts(lines@), cursor: cursor as int };
        assert(models[n as int] == chunk@);
        proof {
            lemma_chunk_in_range(p, chunk@, path@);
        }
        let from = match locate(&lines, cursor, chunk, path) {
            Ok(from) => from,
            Err(message) => {
                return Err(message);
            },
        };
        let (old, new) = chunk_sides(&chunk.lines);
        let at = if old.len() == 0 {
            if chunk.end_of_file {
                lines.len()
            } else {
                from
            }
        } else {
            match seek_sequence(&lines, &old, from, chunk.end_of_file) {
                Some(i) => i,
                None => {
                    let mut message = "failed to find expected lines in ".to_string();
                    message.append(path);
                    message.append(":\n");
                    let expected = text::join_chars(&old, "\n");
                    message.append(expected.as_str());
                    return Err(message);
                },
            }
        };
        assert(position(p, from as int, chunk@, path@) == Ok::<int, Text>(at as int));
        let next = splice(&lines, at, old.len(), &new);
        let total: usize = next.len();
        assert(text::texts(next@).len() == total);
        cursor = at + new.len();
        lines = next;
    }
    let mut content = text::join_chars(&lines, "\n");
    content.append("\n");
    Ok(content)
}

} // verus!
