//! The text form of a patch.
use vstd::prelude::*;

use crate::apply_patch::{Chunk, ChunkModel, HunkLine, HunkModel, Operation, OperationModel};
use crate::apply_patch;
use crate::text;
use crate::text::Text;

verus! {

// ---------------------------------------------------------------------------
// Lines
// ---------------------------------------------------------------------------
/// The text with a line feed in place of each carriage return and line feed.
pub open spec fn without_crlf(s: Text) -> Text
    decreases s.len(),
{
    if s.len() == 0 {
        s
    } else if s.len() >= 2 && s[0] == '\r' && s[1] == '\n' {
        seq!['\n'] + without_crlf(s.skip(2))
    } else {
        seq![s[0]] + without_crlf(s.skip(1))
    }
}

/// A line without the carriage return at its end.
pub open spec fn without_cr(s: Text) -> Text {
    if s.len() > 0 && s.last() == '\r' {
        s.drop_last()
    } else {
        s
    }
}

/// The lines of a text: each ends at a line feed and loses one carriage return
/// before it; what follows the last line feed is a line unless it is empty.
pub open spec fn lines(s: Text) -> Seq<Text> {
    let parts = text::split(s, '\n');
    let ended = parts.drop_last().map_values(|p: Text| without_cr(p));
    if parts.last().len() == 0 {
        ended
    } else {
        ended.push(parts.last())
    }
}

fn replace_crlf(s: &Vec<char>) -> (r: Vec<char>)
    ensures
        r@ == without_crlf(s@),
{
    let mut out: Vec<char> = Vec::new();
    let mut i: usize = 0;
    assert(s@.skip(0) =~= s@);
    assert(out@ + without_crlf(s@) =~= without_crlf(s@));
    while i < s.len()
        invariant
            i <= s@.len(),
            without_crlf(s@) == out@ + without_crlf(s@.skip(i as int)),
        decreases s@.len() - i,
    {
        let ghost before = out@;
        let ghost rest = s@.skip(i as int);
        if s.len() - i >= 2 && s[i] == '\r' && s[i + 1] == '\n' {
            out.push('\n');
            assert(rest.skip(2) =~= s@.skip(i + 2));
            assert(before + (seq!['\n'] + without_crlf(s@.skip(i + 2))) =~= out@ + without_crlf(
                s@.skip(i + 2),
            ));
            i = i + 2;
        } else {
            out.push(s[i]);
            assert(rest.skip(1) =~= s@.skip(i + 1));
            assert(before + (seq![rest[0]] + without_crlf(s@.skip(i + 1))) =~= out@ + without_crlf(
                s@.skip(i + 1),
            ));
            i = i + 1;
        }
    }
    assert(out@ + without_crlf(s@.skip(i as int)) =~= out@);
    out
}

/// The lines of a patch.
pub fn patch_lines(patch: &str) -> (r: Vec<Vec<char>>)
    ensures
        text::texts(r@) == lines(without_crlf(patch@)),
{
    let normalized = replace_crlf(&text::chars_of(patch));
    let parts = text::split_chars(&normalized, '\n');
    let ghost models = text::texts(parts@);
    let mut out: Vec<Vec<char>> = Vec::new();
    let last: usize = parts.len() - 1;
    for i in 0..last
        invariant
            last == parts@.len() - 1,
            models == text::texts(parts@),
            text::texts(out@) =~= models.take(i as int).map_values(|p: Text| without_cr(p)),
    {
        let part = &parts[i];
        let n = part.len();
        let ghost before = out@;
        let line = if n > 0 && part[n - 1] == '\r' {
            text::chars_between(part, 0, n - 1)
        } else {
            text::copy_chars(part)
        };
        assert(line@ =~= without_cr(models[i as int]));
        out.push(line);
        assert(text::texts(out@) =~= text::texts(before).push(line@));
        assert(models.take(i + 1).map_values(|p: Text| without_cr(p)) =~= models.take(
            i as int,
        ).map_values(|p: Text| without_cr(p)).push(without_cr(models[i as int])));
    }
    assert(models.drop_last() =~= models.take(last as int));
    if parts[last].len() > 0 {
        let ghost before = out@;
        let line = text::copy_chars(&parts[last]);
        out.push(line);
        assert(text::texts(out@) =~= text::texts(before).push(line@));
    }
    out
}

// ---------------------------------------------------------------------------
// Hunks
// ---------------------------------------------------------------------------
/// The first line at or after `i` that starts a patch directive or, inside an
/// update, another hunk; the number of lines when there is none.
pub open spec fn end_of(ls: Seq<Text>, i: int, hunk: bool) -> int
    decreases ls.len() - i,
{
    if i >= ls.len() {
        ls.len() as int
    } else if text::begins(ls[i], "*** "@) || (hunk && text::begins(ls[i], "@@"@)) {
        i
    } else {
        end_of(ls, i + 1, hunk)
    }
}

/// The end of a block lies at or after its start, within the lines.
pub proof fn lemma_end_of(ls: Seq<Text>, i: int, hunk: bool)
    requires
        0 <= i <= ls.len(),
    ensures
        i <= end_of(ls, i, hunk) <= ls.len(),
    decreases ls.len() - i,
{
    if i < ls.len() && !(text::begins(ls[i], "*** "@) || (hunk && text::begins(ls[i], "@@"@))) {
        lemma_end_of(ls, i + 1, hunk);
    }
}

/// One line of a hunk: its first character tells whether it is kept, removed
/// or added.
pub open spec fn hunk_line(l: Text) -> Result<HunkModel, Text> {
    if l.len() == 0 || l[0] >= '\u{80}' {
        Err("empty hunk line must be written as a single space"@)
    } else if l[0] == ' ' {
        Ok(HunkModel::Context(l.skip(1)))
    } else if l[0] == '-' {
        Ok(HunkModel::Remove(l.skip(1)))
    } else if l[0] == '+' {
        Ok(HunkModel::Add(l.skip(1)))
    } else {
        Err("hunk lines must begin with space, `-`, or `+`"@)
    }
}

/// The hunk lines from `k` up to `e`, after those already read; the first line
/// that is not one decides the error.
pub open spec fn hunk_lines(
    ls: Seq<Text>,
    k: int,
    e: int,
    done: Seq<HunkModel>,
) -> Result<Seq<HunkModel>, Text>
    decreases e - k,
{
    if k >= e {
        Ok(done)
    } else {
        match hunk_line(ls[k]) {
            Ok(line) => hunk_lines(ls, k + 1, e, done.push(line)),
            Err(message) => Err(message),
        }
    }
}

/// The text after `@@` in a hunk header, when there is any.
pub open spec fn locator_of(header: Text) -> Option<Text> {
    let locator = text::trim(header.skip(2));
    if locator.len() == 0 {
        None
    } else {
        Some(locator)
    }
}

/// The hunks that start at line `k`, after those already read, and the first
/// line after them.
pub open spec fn parse_chunks(
    ls: Seq<Text>,
    k: int,
    done: Seq<ChunkModel>,
) -> Result<(Seq<ChunkModel>, int), Text>
    decreases ls.len() - k,
{
    if 0 <= k < ls.len() && text::begins(ls[k], "@@"@) {
        let e = end_of(ls, k + 1, true);
        match hunk_lines(ls, k + 1, e, Seq::empty()) {
            Err(message) => Err(message),
            Ok(body) => if body.len() == 0 {
                Err("update hunk must contain at least one line"@)
            } else {
                let end_of_file = e < ls.len() && ls[e] == "*** End of File"@;
                proof {
                    lemma_end_of(ls, k + 1, true);
                }
                parse_chunks(
                    ls,
                    if end_of_file {
                        e + 1
                    } else {
                        e
                    },
                    done.push(
                        ChunkModel { locator: locator_of(ls[k]), lines: body, end_of_file },
                    ),
                )
            },
        }
    } else {
        Ok((done, k))
    }
}

// ---------------------------------------------------------------------------
// Operations
// ---------------------------------------------------------------------------
/// A path of a patch: anything but the empty text.
pub open spec fn path_of(path: Text) -> Result<Text, Text> {
    if path.len() == 0 {
        Err("patch path cannot be empty"@)
    } else {
        Ok(path)
    }
}

/// Whether each line from `from` up to `to` begins with `+`.
pub open spec fn all_added(ls: Seq<Text>, from: int, to: int) -> bool {
    forall|k: int| from <= k < to ==> #[trigger] text::begins(ls[k], seq!['+'])
}

/// The lines from `from` up to `to` without their first character, each with a
/// line feed after it.
pub open spec fn added_content(ls: Seq<Text>, from: int, to: int) -> Text
    decreases to - from,
{
    if from >= to {
        Seq::empty()
    } else {
        (added_content(ls, from, to - 1) + ls[to - 1].skip(1)).push('\n')
    }
}

/// The destination named in line `i`, when that line names one.
pub open spec fn move_of(ls: Seq<Text>, i: int) -> Option<Text> {
    if i < ls.len() {
        text::after_prefix(ls[i], "*** Move to: "@)
    } else {
        None
    }
}

/// The operation that starts at line `i` and the first line after it.
pub open spec fn parse_operation(ls: Seq<Text>, i: int) -> Result<(OperationModel, int), Text> {
    let line = ls[i];
    if let Some(path) = text::after_prefix(line, "*** Add File: "@) {
        let e = end_of(ls, i + 1, false);
        match path_of(path) {
            Err(message) => Err(message),
            Ok(path) => if all_added(ls, i + 1, e) {
                Ok((OperationModel::Add { path, content: added_content(ls, i + 1, e) }, e))
            } else {
                Err("add-file content lines must begin with `+`"@)
            },
        }
    } else if let Some(path) = text::after_prefix(line, "*** Delete File: "@) {
        match path_of(path) {
            Err(message) => Err(message),
            Ok(path) => Ok((OperationModel::Delete { path }, i + 1)),
        }
    } else if let Some(path) = text::after_prefix(line, "*** Update File: "@) {
        match path_of(path) {
            Err(message) => Err(message),
            Ok(path) => match move_of(ls, i + 1) {
                None => parse_update(ls, i + 1, path, None),
                Some(destination) => match path_of(destination) {
                    Err(message) => Err(message),
                    Ok(destination) => parse_update(ls, i + 2, path, Some(destination)),
                },
            },
        }
    } else {
        Err("unrecognized patch line `"@ + line + "`"@)
    }
}

/// The update whose hunks start at line `k`, and the first line after it.
pub open spec fn parse_update(
    ls: Seq<Text>,
    k: int,
    path: Text,
    move_to: Option<Text>,
) -> Result<(OperationModel, int), Text> {
    match parse_chunks(ls, k, Seq::empty()) {
        Err(message) => Err(message),
        Ok((chunks, next)) => if chunks.len() == 0 && move_to is None {
            Err("update-file operation needs a hunk or move destination"@)
        } else {
            Ok((OperationModel::Update { path, move_to, chunks }, next))
        },
    }
}

/// The hunks end after they start, within the lines.
pub proof fn lemma_parse_chunks(ls: Seq<Text>, k: int, done: Seq<ChunkModel>)
    requires
        0 <= k <= ls.len(),
    ensures
        parse_chunks(ls, k, done) matches Ok((chunks, next)) ==> k <= next <= ls.len()
            && done.len() <= chunks.len(),
    decreases ls.len() - k,
{
    if k < ls.len() && text::begins(ls[k], "@@"@) {
        let e = end_of(ls, k + 1, true);
        lemma_end_of(ls, k + 1, true);
        if let Ok(body) = hunk_lines(ls, k + 1, e, Seq::empty()) {
            let end_of_file = e < ls.len() && ls[e] == "*** End of File"@;
            let next = if end_of_file {
                e + 1
            } else {
                e
            };
            lemma_parse_chunks(
                ls,
                next,
                done.push(ChunkModel { locator: locator_of(ls[k]), lines: body, end_of_file }),
            );
        }
    }
}

/// An operation takes at least one line.
pub proof fn lemma_parse_operation(ls: Seq<Text>, i: int)
    requires
        0 <= i < ls.len(),
    ensures
        parse_operation(ls, i) matches Ok((_, next)) ==> i < next <= ls.len(),
{
    lemma_end_of(ls, i + 1, false);
    lemma_parse_chunks(ls, i + 1, Seq::empty());
    if i + 2 <= ls.len() {
        lemma_parse_chunks(ls, i + 2, Seq::empty());
    }
}

/// The operations from line `i` up to the end marker, after those already
/// read.
pub open spec fn parse_operations(
    ls: Seq<Text>,
    i: int,
    done: Seq<OperationModel>,
) -> Result<Seq<OperationModel>, Text>
    decreases ls.len() - i,
{
    if i < 0 || i >= ls.len() {
        Err("patch is missing `*** End Patch`"@)
    } else if ls[i] == "*** End Patch"@ {
        if i + 1 < ls.len() {
            Err("unexpected content after `*** End Patch`"@)
        } else if done.len() == 0 {
            Err("patch contains no file operations"@)
        } else {
            Ok(done)
        }
    } else {
        match parse_operation(ls, i) {
            Err(message) => Err(message),
            Ok((operation, next)) => {
                proof {
                    lemma_parse_operation(ls, i);
                }
                parse_operations(ls, next, done.push(operation))
            },
        }
    }
}

/// The operations of a patch, or why it is not one.
pub open spec fn parsed(patch: Text) -> Result<Seq<OperationModel>, Text> {
    let ls = lines(without_crlf(patch));
    if ls.len() == 0 || ls[0] != "*** Begin Patch"@ {
        Err("patch must begin with `*** Begin Patch`"@)
    } else {
        parse_operations(ls, 1, Seq::empty())
    }
}

// ---------------------------------------------------------------------------
// Reading
// ---------------------------------------------------------------------------
fn find_end(ls: &Vec<Vec<char>>, start: usize, hunk: bool) -> (r: usize)
    requires
        start <= ls@.len(),
    ensures
        r == end_of(text::texts(ls@), start as int, hunk),
        start <= r <= ls@.len(),
{
    let ghost models = text::texts(ls@);
    let mut i: usize = start;
    while i < ls.len()
        invariant
            models == text::texts(ls@),
            start <= i <= ls@.len(),
            end_of(models, start as int, hunk) == end_of(models, i as int, hunk),
        decreases ls@.len() - i,
    {
        assert(models[i as int] == ls@[i as int]@);
        if text::starts_with(&ls[i], "*** ") || (hunk && text::starts_with(&ls[i], "@@")) {
            return i;
        }
        i = i + 1;
    }
    i
}

fn read_hunk_line(line: &Vec<char>) -> (r: Result<HunkLine, String>)
    ensures
        match r {
            Ok(parsed) => hunk_line(line@) == Ok::<HunkModel, Text>(parsed@),
            Err(message) => hunk_line(line@) == Err::<HunkModel, Text>(message@),
        },
{
    if line.len() == 0 || line[0] >= '\u{80}' {
        return Err("empty hunk line must be written as a single space".to_string());
    }
    let rest = text::string_between(line, 1, line.len());
    assert(rest@ =~= line@.skip(1));
    if line[0] == ' ' {
        Ok(HunkLine::Context(rest))
    } else if line[0] == '-' {
        Ok(HunkLine::Remove(rest))
    } else if line[0] == '+' {
        Ok(HunkLine::Add(rest))
    } else {
        Err("hunk lines must begin with space, `-`, or `+`".to_string())
    }
}

fn read_hunk_lines(ls: &Vec<Vec<char>>, start: usize, end: usize) -> (r: Result<
    Vec<HunkLine>,
    String,
>)
    requires
        start <= end <= ls@.len(),
    ensures
        match r {
            Ok(body) => hunk_lines(text::texts(ls@), start as int, end as int, Seq::empty()) == Ok::<
                Seq<HunkModel>,
                Text,
            >(apply_patch::hunk_models(body@)),
            Err(message) => hunk_lines(text::texts(ls@), start as int, end as int, Seq::empty())
                == Err::<Seq<HunkModel>, Text>(message@),
        },
{
    let ghost models = text::texts(ls@);
    let ghost whole = hunk_lines(models, start as int, end as int, Seq::empty());
    let mut body: Vec<HunkLine> = Vec::new();
    let mut k: usize = start;
    assert(apply_patch::hunk_models(body@) =~= Seq::empty());
    while k < end
        invariant
            models == text::texts(ls@),
            start <= k <= end <= ls@.len(),
            whole == hunk_lines(models, start as int, end as int, Seq::empty()),
            whole == hunk_lines(models, k as int, end as int, apply_patch::hunk_models(body@)),
        decreases end - k,
    {
        assert(models[k as int] == ls@[k as int]@);
        match read_hunk_line(&ls[k]) {
            Ok(line) => {
                let ghost before = body@;
                body.push(line);
                assert(apply_patch::hunk_models(body@) =~= apply_patch::hunk_models(before).push(
                    line@,
                ));
            },
            Err(message) => {
                return Err(message);
            },
        }
        k = k + 1;
    }
    Ok(body)
}

fn read_locator(header: &Vec<char>) -> (r: Option<String>)
    requires
        header@.len() >= 2,
    ensures
        text::opt_text(r) == locator_of(header@),
{
    let rest = text::chars_between(header, 2, header.len());
    assert(rest@ =~= header@.skip(2));
    let locator = text::trim_chars(&rest);
    if locator.len() == 0 {
        None
    } else {
        Some(text::string_of(&locator))
    }
}

fn read_chunks(ls: &Vec<Vec<char>>, start: usize) -> (r: Result<(Vec<Chunk>, usize), String>)
    requires
        start <= ls@.len(),
    ensures
        match r {
            Ok((chunks, next)) => parse_chunks(text::texts(ls@), start as int, Seq::empty()) == Ok::<
                (Seq<ChunkModel>, int),
                Text,
            >((apply_patch::chunk_models(chunks@), next as int)) && start <= next <= ls@.len(),
            Err(message) => parse_chunks(text::texts(ls@), start as int, Seq::empty()) == Err::<
                (Seq<ChunkModel>, int),
                Text,
            >(message@),
        },
{
    let ghost models = text::texts(ls@);
    let ghost whole = parse_chunks(models, start as int, Seq::empty());
    let mut chunks: Vec<Chunk> = Vec::new();
    let mut k: usize = start;
    assert(apply_patch::chunk_models(chunks@) =~= Seq::empty());
    while k < ls.len() && text::starts_with(&ls[k], "@@")
        invariant
            models == text::texts(ls@),
            start <= k <= ls@.len(),
            whole == parse_chunks(models, start as int, Seq::empty()),
            whole == parse_chunks(models, k as int, apply_patch::chunk_models(chunks@)),
        decreases ls@.len() - k,
    {
        proof {
            reveal_strlit("@@");
        }
        assert(models[k as int] == ls@[k as int]@);
        let locator = read_locator(&ls[k]);
        let end = find_end(ls, k + 1, true);
        let body = match read_hunk_lines(ls, k + 1, end) {
            Ok(body) => body,
            Err(message) => {
                return Err(message);
            },
        };
        if body.len() == 0 {
            return Err("update hunk must contain at least one line".to_string());
        }
        let end_of_file = end < ls.len() && text::chars_are(&ls[end], "*** End of File");
        assert(end < ls@.len() ==> models[end as int] == ls@[end as int]@);
        let ghost before = chunks@;
        let chunk = Chunk { locator, lines: body, end_of_file };
        chunks.push(chunk);
        assert(apply_patch::chunk_models(chunks@) =~= apply_patch::chunk_models(before).push(
            chunk@,
        ));
        k = if end_of_file {
            end + 1
        } else {
            end
        };
    }
    assert(k < ls@.len() ==> models[k as int] == ls@[k as int]@);
    Ok((chunks, k))
}

/// A path of a patch.
pub fn parse_path(path: &Vec<char>) -> (r: Result<String, String>)
    ensures
        match r {
            Ok(parsed) => path_of(path@) == Ok::<Text, Text>(parsed@),
            Err(message) => path_of(path@) == Err::<Text, Text>(message@),
        },
{
    if path.len() == 0 {
        Err("patch path cannot be empty".to_string())
    } else {
        Ok(text::string_of(path))
    }
}

fn read_added(ls: &Vec<Vec<char>>, start: usize, end: usize) -> (r: Option<String>)
    requires
        start <= end <= ls@.len(),
    ensures
        match r {
            Some(content) => all_added(text::texts(ls@), start as int, end as int) && content@
                == added_content(text::texts(ls@), start as int, end as int),
            None => !all_added(text::texts(ls@), start as int, end as int),
        },
{
    let ghost models = text::texts(ls@);
    let mut content = String::new();
    for k in start..end
        invariant
            models == text::texts(ls@),
            start <= end <= ls@.len(),
            content@ == added_content(models, start as int, k as int),
            all_added(models, start as int, k as int),
    {
        let line = &ls[k];
        assert(models[k as int] == line@);
        if line.len() == 0 || line[0] != '+' {
            assert(!text::begins(models[k as int], seq!['+'])) by {
                if text::begins(models[k as int], seq!['+']) {
                    assert(models[k as int].take(1)[0] == '+');
                }
            }
            return None;
        }
        assert(models[k as int].take(1) =~= seq!['+']);
        let rest = text::string_between(line, 1, line.len());
        assert(rest@ =~= models[k as int].skip(1));
        content.append(rest.as_str());
        content.push('\n');
    }
    Some(content)
}

fn read_update(
    ls: &Vec<Vec<char>>,
    start: usize,
    path: String,
    move_to: Option<String>,
) -> (r: Result<(Operation, usize), String>)
    requires
        start <= ls@.len(),
    ensures
        match r {
            Ok((operation, next)) => parse_update(
                text::texts(ls@),
                start as int,
                path@,
                text::opt_text(move_to),
            ) == Ok::<(OperationModel, int), Text>((operation@, next as int)) && start <= next
                <= ls@.len(),
            Err(message) => parse_update(
                text::texts(ls@),
                start as int,
                path@,
                text::opt_text(move_to),
            ) == Err::<(OperationModel, int), Text>(message@),
        },
{
    match read_chunks(ls, start) {
        Err(message) => Err(message),
        Ok((chunks, next)) => {
            if chunks.len() == 0 && move_to.is_none() {
                Err("update-file operation needs a hunk or move destination".to_string())
            } else {
                Ok((Operation::Update { path, move_to, chunks }, next))
            }
        },
    }
}

fn read_operation(ls: &Vec<Vec<char>>, i: usize) -> (r: Result<(Operation, usize), String>)
    requires
        i < ls@.len(),
    ensures
        match r {
            Ok((operation, next)) => parse_operation(text::texts(ls@), i as int) == Ok::<
                (OperationModel, int),
                Text,
            >((operation@, next as int)) && i < next <= ls@.len(),
            Err(message) => parse_operation(text::texts(ls@), i as int) == Err::<
                (OperationModel, int),
                Text,
            >(message@),
        },
{
    let ghost models = text::texts(ls@);
    let count: usize = ls.len();
    let line = &ls[i];
    assert(models[i as int] == line@);
    assert(i < count);
    if let Some(path) = text::strip_prefix(line, "*** Add File: ") {
        let end = find_end(ls, i + 1, false);
        match parse_path(&path) {
            Err(message) => Err(message),
            Ok(path) => match read_added(ls, i + 1, end) {
                Some(content) => Ok((Operation::Add { path, content }, end)),
                None => Err("add-file content lines must begin with `+`".to_string()),
            },
        }
    } else if let Some(path) = text::strip_prefix(line, "*** Delete File: ") {
        match parse_path(&path) {
            Err(message) => Err(message),
            Ok(path) => Ok((Operation::Delete { path }, i + 1)),
        }
    } else if let Some(path) = text::strip_prefix(line, "*** Update File: ") {
        let path = match parse_path(&path) {
            Err(message) => {
                return Err(message);
            },
            Ok(path) => path,
        };
        let destination = if i + 1 < ls.len() {
            assert(models[i + 1] == ls@[i + 1]@);
            text::strip_prefix(&ls[i + 1], "*** Move to: ")
        } else {
            None
        };
        match destination {
            None => read_update(ls, i + 1, path, None),
            Some(destination) => match parse_path(&destination) {
                Err(message) => Err(message),
                Ok(destination) => read_update(ls, i + 2, path, Some(destination)),
            },
        }
    } else {
        let mut message = "unrecognized patch line `".to_string();
        let shown = text::string_of(line);
        message.append(shown.as_str());
        message.append("`");
        Err(message)
    }
}

/// The operations of a patch envelope.
///
/// Success is owed exactly on the texts that [`parsed`] accepts, and the error
/// is the message of the first thing that is wrong.
pub fn parse_patch(patch: &str) -> (r: Result<Vec<Operation>, String>)
    ensures
        match r {
            Ok(operations) => parsed(patch@) == Ok::<Seq<OperationModel>, Text>(
                apply_patch::operation_models(operations@),
            ) && apply_patch::complete(apply_patch::operation_models(operations@)),
            Err(message) => parsed(patch@) == Err::<Seq<OperationModel>, Text>(message@),
        },
{
    let ls = patch_lines(patch);
    let ghost models = text::texts(ls@);
    assert(ls@.len() > 0 ==> models[0] == ls@[0]@);
    if ls.len() == 0 || !text::chars_are(&ls[0], "*** Begin Patch") {
        return Err("patch must begin with `*** Begin Patch`".to_string());
    }
    let ghost whole = parse_operations(models, 1, Seq::empty());
    let mut operations: Vec<Operation> = Vec::new();
    let mut i: usize = 1;
    assert(apply_patch::operation_models(operations@) =~= Seq::empty());
    while i < ls.len()
        invariant
            models == text::texts(ls@),
            1 <= i <= ls@.len(),
            whole == parse_operations(models, i as int, apply_patch::operation_models(operations@)),
            parsed(patch@) == whole,
            apply_patch::complete(apply_patch::operation_models(operations@)),
        decreases ls@.len() - i,
    {
        assert(models[i as int] == ls@[i as int]@);
        if text::chars_are(&ls[i], "*** End Patch") {
            if i + 1 < ls.len() {
                return Err("unexpected content after `*** End Patch`".to_string());
            }
            if operations.len() == 0 {
                return Err("patch contains no file operations".to_string());
            }
            return Ok(operations);
        }
        match read_operation(&ls, i) {
            Err(message) => {
                return Err(message);
            },
            Ok((operation, next)) => {
                let ghost before = operations@;
                operations.push(operation);
                assert(apply_patch::operation_models(operations@)
                    =~= apply_patch::operation_models(before).push(operation@));
                i = next;
            },
        }
    }
    Err("patch is missing `*** End Patch`".to_string())
}

} // verus!
