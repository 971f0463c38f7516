//! Unix paths as text: their components, when two name the same entry, and how
//! one reads from a directory. Every path that is read here belongs to a Unix
//! machine.
use vstd::prelude::*;

use crate::text;
use crate::text::Text;

verus! {

/// Whether a path starts at the root.
pub open spec fn is_absolute(p: Text) -> bool {
    p.len() > 0 && p[0] == '/'
}

/// A path read from a directory.
pub open spec fn resolved(cwd: Text, path: Text) -> Text {
    if is_absolute(path) || cwd.len() == 0 {
        path
    } else if cwd.last() == '/' {
        cwd + path
    } else {
        cwd + "/"@ + path
    }
}

/// Whether a part between slashes names nothing: the empty one and `.`.
pub open spec fn blank(part: Text) -> bool {
    part.len() == 0 || part == seq!['.']
}

/// The parts that name something, in order.
pub open spec fn named(parts: Seq<Text>) -> Seq<Text>
    decreases parts.len(),
{
    if parts.len() == 0 {
        Seq::empty()
    } else if blank(parts.last()) {
        named(parts.drop_last())
    } else {
        named(parts.drop_last()).push(parts.last())
    }
}

/// What stands before the named parts: the root, the `.` of a path that starts
/// with it, or nothing.
pub open spec fn lead(p: Text) -> Seq<Text> {
    let parts = text::split(p, '/');
    if is_absolute(p) {
        seq![seq!['/']]
    } else if parts[0] == seq!['.'] {
        seq![seq!['.']]
    } else {
        Seq::empty()
    }
}

/// The components of a path. Two paths are equal when their components are.
pub open spec fn components(p: Text) -> Seq<Text> {
    lead(p) + named(text::split(p, '/'))
}

/// The named parts with each `..` taking the part before it away.
pub open spec fn folded(parts: Seq<Text>) -> Seq<Text>
    decreases parts.len(),
{
    if parts.len() == 0 {
        Seq::empty()
    } else {
        let before = folded(parts.drop_last());
        if parts.last() == seq!['.', '.'] {
            if before.len() == 0 {
                before
            } else {
                before.drop_last()
            }
        } else {
            before.push(parts.last())
        }
    }
}

/// The entry that a path names, as far as its text tells.
pub struct Place {
    pub absolute: bool,
    pub parts: Seq<Text>,
}

/// The entry that a path names: no empty part, no `.` and no `..`.
pub open spec fn place(p: Text) -> Place {
    Place { absolute: is_absolute(p), parts: folded(named(text::split(p, '/'))) }
}

/// The parts after the first `n` that name something.
pub open spec fn after_named(parts: Seq<Text>, n: int) -> Seq<Text>
    decreases parts.len(),
{
    if parts.len() == 0 {
        parts
    } else if blank(parts[0]) {
        after_named(parts.skip(1), n)
    } else if n <= 0 {
        parts
    } else {
        after_named(parts.skip(1), n - 1)
    }
}

/// The parts without the blank ones at the end.
pub open spec fn without_blank_end(parts: Seq<Text>) -> Seq<Text>
    decreases parts.len(),
{
    if parts.len() > 0 && blank(parts.last()) {
        without_blank_end(parts.drop_last())
    } else {
        parts
    }
}

/// How a path reads from a directory: what follows the directory when the path
/// lies beneath it, else the path itself.
pub open spec fn relative(path: Text, cwd: Text) -> Text {
    let c = components(cwd);
    if c.len() <= components(path).len() && components(path).take(c.len() as int) == c {
        text::join(
            without_blank_end(
                after_named(text::split(path, '/'), named(text::split(cwd, '/')).len() as int),
            ),
            "/"@,
        )
    } else {
        path
    }
}

/// The parts without the blank ones at the end, but for the first part.
pub open spec fn ended(parts: Seq<Text>) -> Seq<Text>
    decreases parts.len(),
{
    if parts.len() > 1 && blank(parts.last()) {
        ended(parts.drop_last())
    } else {
        parts
    }
}

/// The path of the directory that holds an entry: nothing for the root and the
/// empty path.
pub open spec fn parent(p: Text) -> Option<Text> {
    let body = ended(text::split(p, '/'));
    if body.len() <= 1 {
        if is_absolute(p) || p.len() == 0 {
            None
        } else {
            Some(Seq::empty())
        }
    } else {
        let rest = ended(body.drop_last());
        if rest.len() == 1 && rest[0].len() == 0 {
            Some(seq!['/'])
        } else {
            Some(text::join(rest, "/"@))
        }
    }
}

/// The last component of a path, where it is a name.
pub open spec fn file_name(p: Text) -> Option<Text> {
    let body = ended(text::split(p, '/'));
    if blank(body.last()) || body.last() == seq!['.', '.'] {
        None
    } else {
        Some(body.last())
    }
}

// ---------------------------------------------------------------------------
// Executable forms
// ---------------------------------------------------------------------------
/// Tells whether two lists hold the same texts.
pub fn same_parts(a: &Vec<Vec<char>>, b: &Vec<Vec<char>>) -> (r: bool)
    ensures
        r == (text::texts(a@) == text::texts(b@)),
{
    if a.len() != b.len() {
        assert(text::texts(a@).len() != text::texts(b@).len());
        return false;
    }
    for i in 0..a.len()
        invariant
            a@.len() == b@.len(),
            forall|k: int| 0 <= k < i ==> a@[k]@ == b@[k]@,
    {
        if !text::same_chars(&a[i], &b[i]) {
            assert(text::texts(a@)[i as int] != text::texts(b@)[i as int]);
            return false;
        }
    }
    assert(text::texts(a@) =~= text::texts(b@));
    true
}

fn is_blank(part: &Vec<char>) -> (r: bool)
    ensures
        r == blank(part@),
{
    if part.len() == 0 {
        true
    } else if part.len() == 1 && part[0] == '.' {
        assert(part@ =~= seq!['.']);
        true
    } else {
        assert(part@.len() == 1 ==> part@[0] != seq!['.'][0]);
        false
    }
}

fn is_up(part: &Vec<char>) -> (r: bool)
    ensures
        r == (part@ == seq!['.', '.']),
{
    if part.len() == 2 && part[0] == '.' && part[1] == '.' {
        assert(part@ =~= seq!['.', '.']);
        true
    } else {
        assert(part@ == seq!['.', '.'] ==> part@.len() == 2 && part@[0] == '.' && part@[1] == '.');
        false
    }
}

fn keep_named(parts: &Vec<Vec<char>>) -> (r: Vec<Vec<char>>)
    ensures
        text::texts(r@) == named(text::texts(parts@)),
{
    let ghost models = text::texts(parts@);
    let mut out: Vec<Vec<char>> = Vec::new();
    assert(text::texts(out@) =~= Seq::empty());
    for i in 0..parts.len()
        invariant
            models == text::texts(parts@),
            text::texts(out@) == named(models.take(i as int)),
    {
        let ghost before = out@;
        assert(models.take(i + 1).drop_last() =~= models.take(i as int));
        assert(models.take(i + 1).last() == parts@[i as int]@);
        if !is_blank(&parts[i]) {
            let part = text::copy_chars(&parts[i]);
            out.push(part);
            assert(text::texts(out@) =~= text::texts(before).push(part@));
        }
    }
    assert(models.take(parts@.len() as int) =~= models);
    out
}

fn fold_parts(parts: &Vec<Vec<char>>) -> (r: Vec<Vec<char>>)
    ensures
        text::texts(r@) == folded(text::texts(parts@)),
{
    let ghost models = text::texts(parts@);
    let mut out: Vec<Vec<char>> = Vec::new();
    assert(text::texts(out@) =~= Seq::empty());
    for i in 0..parts.len()
        invariant
            models == text::texts(parts@),
            text::texts(out@) == folded(models.take(i as int)),
    {
        let ghost before = out@;
        assert(models.take(i + 1).drop_last() =~= models.take(i as int));
        assert(models.take(i + 1).last() == parts@[i as int]@);
        if is_up(&parts[i]) {
            if out.len() > 0 {
                out.pop();
                assert(text::texts(out@) =~= text::texts(before).drop_last());
            }
        } else {
            let part = text::copy_chars(&parts[i]);
            out.push(part);
            assert(text::texts(out@) =~= text::texts(before).push(part@));
        }
    }
    assert(models.take(parts@.len() as int) =~= models);
    out
}

/// The entry that a path names, for comparison.
#[derive(Debug)]
pub struct NormalPath {
    pub absolute: bool,
    pub parts: Vec<Vec<char>>,
}

impl View for NormalPath {
    type V = Place;

    open spec fn view(&self) -> Place {
        Place { absolute: self.absolute, parts: text::texts(self.parts@) }
    }
}

impl NormalPath {
    /// Tells whether two entries are the same.
    pub fn same(&self, other: &NormalPath) -> (r: bool)
        ensures
            r == (self@ == other@),
    {
        self.absolute == other.absolute && same_parts(&self.parts, &other.parts)
    }
}

/// The entry that a path names.
pub fn normalize_path(path: &str) -> (r: NormalPath)
    ensures
        r@ == place(path@),
{
    let chars = text::chars_of(path);
    let absolute = chars.len() > 0 && chars[0] == '/';
    let parts = fold_parts(&keep_named(&text::split_chars(&chars, '/')));
    NormalPath { absolute, parts }
}

/// A path read from a directory.
pub fn resolve_path(cwd: &str, path: &str) -> (r: String)
    ensures
        r@ == resolved(cwd@, path@),
{
    let p = text::chars_of(path);
    let c = text::chars_of(cwd);
    if (p.len() > 0 && p[0] == '/') || c.len() == 0 {
        return path.to_string();
    }
    let mut out = cwd.to_string();
    if c[c.len() - 1] != '/' {
        out.append("/");
    }
    out.append(path);
    out
}

fn path_components(path: &str) -> (r: Vec<Vec<char>>)
    ensures
        text::texts(r@) == components(path@),
{
    let chars = text::chars_of(path);
    let parts = text::split_chars(&chars, '/');
    let ghost models = text::texts(parts@);
    assert(models[0] == parts@[0]@);
    let rest = keep_named(&parts);
    let mut out: Vec<Vec<char>> = Vec::new();
    if chars.len() > 0 && chars[0] == '/' {
        let first: Vec<char> = vec!['/'];
        assert(first@ =~= seq!['/']);
        out.push(first);
        assert(text::texts(out@) =~= seq![seq!['/']]);
    } else if parts[0].len() == 1 && parts[0][0] == '.' {
        assert(parts@[0]@ =~= seq!['.']);
        let first: Vec<char> = vec!['.'];
        assert(first@ =~= seq!['.']);
        out.push(first);
        assert(text::texts(out@) =~= seq![seq!['.']]);
    } else {
        assert(parts@[0]@ == seq!['.'] ==> parts@[0]@.len() == 1 && parts@[0]@[0] == '.');
        assert(text::texts(out@) =~= Seq::empty());
    }
    let ghost start = text::texts(out@);
    for i in 0..rest.len()
        invariant
            text::texts(out@) =~= start + text::texts(rest@).take(i as int),
    {
        let ghost before = out@;
        let part = text::copy_chars(&rest[i]);
        out.push(part);
        assert(text::texts(out@) =~= text::texts(before).push(part@));
        assert(text::texts(rest@).take(i + 1) =~= text::texts(rest@).take(i as int).push(
            rest@[i as int]@,
        ));
    }
    assert(text::texts(rest@).take(rest@.len() as int) =~= text::texts(rest@));
    out
}

/// Tells whether two paths are equal: whether they have the same components.
pub fn same_path(a: &str, b: &str) -> (r: bool)
    ensures
        r == (components(a@) == components(b@)),
{
    same_parts(&path_components(a), &path_components(b))
}

/// How a path reads from a directory.
pub fn relative_path(path: &str, cwd: &str) -> (r: String)
    requires
        cwd@.len() > 0,
    ensures
        r@ == relative(path@, cwd@),
{
    let own = path_components(path);
    let base = path_components(cwd);
    let ghost c = components(cwd@);
    let ghost p = components(path@);
    if base.len() > own.len() {
        return path.to_string();
    }
    for i in 0..base.len()
        invariant
            base@.len() <= own@.len(),
            c == text::texts(base@),
            p == text::texts(own@),
            c == components(cwd@),
            p == components(path@),
            forall|k: int| 0 <= k < i ==> p[k] == c[k],
    {
        if !text::same_chars(&base[i], &own[i]) {
            assert(p.take(c.len() as int)[i as int] != c[i as int]);
            return path.to_string();
        }
    }
    assert(p.take(c.len() as int) =~= c);
    let named_base = keep_named(&text::split_chars(&text::chars_of(cwd), '/'));
    let parts = text::split_chars(&text::chars_of(path), '/');
    let ghost models = text::texts(parts@);
    let ghost whole = after_named(models, named_base@.len() as int);
    let mut left: usize = named_base.len();
    let mut from: usize = 0;
    assert(models.skip(0) =~= models);
    assert(text::texts(named_base@).len() == named_base@.len());
    while from < parts.len() && (is_blank(&parts[from]) || left > 0)
        invariant
            models == text::texts(parts@),
            from <= parts@.len(),
            whole == after_named(models.skip(from as int), left as int),
        decreases parts@.len() - from,
    {
        assert(models.skip(from as int)[0] == parts@[from as int]@);
        assert(models.skip(from as int).skip(1) =~= models.skip(from + 1));
        if !is_blank(&parts[from]) {
            left = left - 1;
        }
        from = from + 1;
    }
    assert(from < parts@.len() ==> models.skip(from as int)[0] == parts@[from as int]@);
    let mut to: usize = parts.len();
    assert(whole =~= models.subrange(from as int, to as int));
    while to > from && is_blank(&parts[to - 1])
        invariant
            models == text::texts(parts@),
            from <= to <= parts@.len(),
            without_blank_end(whole) == without_blank_end(models.subrange(from as int, to as int)),
        decreases to,
    {
        assert(models.subrange(from as int, to as int).last() == parts@[to - 1]@);
        assert(models.subrange(from as int, to as int).drop_last() =~= models.subrange(
            from as int,
            to - 1,
        ));
        to = to - 1;
    }
    assert(to > from ==> models.subrange(from as int, to as int).last() == parts@[to - 1]@);
    let mut kept: Vec<Vec<char>> = Vec::new();
    for i in from..to
        invariant
            models == text::texts(parts@),
            from <= to <= parts@.len(),
            text::texts(kept@) =~= models.subrange(from as int, i as int),
    {
        let ghost before = kept@;
        let part = text::copy_chars(&parts[i]);
        kept.push(part);
        assert(text::texts(kept@) =~= text::texts(before).push(part@));
        assert(models.subrange(from as int, i + 1) =~= models.subrange(
            from as int,
            i as int,
        ).push(parts@[i as int]@));
    }
    text::join_chars(&kept, "/")
}

/// How many parts are left of the first `count` without the blank ones at the
/// end.
fn ended_at(parts: &Vec<Vec<char>>, count: usize) -> (r: usize)
    requires
        1 <= count <= parts@.len(),
    ensures
        1 <= r <= count,
        ended(text::texts(parts@).take(count as int)) == text::texts(parts@).take(r as int),
{
    let ghost models = text::texts(parts@);
    let mut to: usize = count;
    while to > 1 && is_blank(&parts[to - 1])
        invariant
            models == text::texts(parts@),
            1 <= to <= count <= parts@.len(),
            ended(models.take(count as int)) == ended(models.take(to as int)),
        decreases to,
    {
        assert(models.take(to as int).last() == parts@[to - 1]@);
        assert(models.take(to as int).drop_last() =~= models.take(to - 1));
        to = to - 1;
    }
    assert(models.take(to as int).last() == parts@[to - 1]@);
    to
}

/// The path of the directory that holds an entry.
pub fn parent_path(path: &str) -> (r: Option<String>)
    ensures
        text::opt_text(r) == parent(path@),
{
    let chars = text::chars_of(path);
    let parts = text::split_chars(&chars, '/');
    let ghost models = text::texts(parts@);
    assert(models.take(parts@.len() as int) =~= models);
    let body = ended_at(&parts, parts.len());
    if body == 1 {
        if chars.len() == 0 || chars[0] == '/' {
            return None;
        }
        let nothing = text::string_between(&chars, 0, 0);
        assert(nothing@ =~= Seq::empty());
        return Some(nothing);
    }
    assert(models.take(body as int).drop_last() =~= models.take(body - 1));
    let rest = ended_at(&parts, body - 1);
    assert(models.take(rest as int)[0] == parts@[0]@);
    if rest == 1 && parts[0].len() == 0 {
        let mut root = text::string_between(&chars, 0, 0);
        root.push('/');
        assert(root@ =~= seq!['/']);
        return Some(root);
    }
    let mut kept: Vec<Vec<char>> = Vec::new();
    for i in 0..rest
        invariant
            models == text::texts(parts@),
            rest <= parts@.len(),
            text::texts(kept@) =~= models.take(i as int),
    {
        let ghost before = kept@;
        let part = text::copy_chars(&parts[i]);
        kept.push(part);
        assert(text::texts(kept@) =~= text::texts(before).push(part@));
        assert(models.take(i + 1) =~= models.take(i as int).push(parts@[i as int]@));
    }
    Some(text::join_chars(&kept, "/"))
}

/// The last component of a path, where it is a name.
pub fn file_name_of(path: &str) -> (r: Option<String>)
    ensures
        text::opt_text(r) == file_name(path@),
{
    let parts = text::split_chars(&text::chars_of(path), '/');
    let ghost models = text::texts(parts@);
    assert(models.take(parts@.len() as int) =~= models);
    let body = ended_at(&parts, parts.len());
    let last = &parts[body - 1];
    assert(models.take(body as int).last() == last@);
    if is_blank(last) || is_up(last) {
        None
    } else {
        Some(text::string_of(last))
    }
}

} // verus!
