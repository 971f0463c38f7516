//! What paths made of plain names come to.
use vstd::prelude::*;

use crate::apply_patch::paths;
use crate::apply_patch::paths::Place;
use crate::apply_patch::publish;
use crate::text;
use crate::text::Text;

verus! {

/// Whether a text is the name of an entry: not empty, no step in a path, and
/// without a slash.
pub open spec fn is_name(n: Text) -> bool {
    n.len() > 0 && n != seq!['.'] && n != seq!['.', '.'] && !n.contains('/')
}

/// Whether all parts are names.
pub open spec fn all_names(parts: Seq<Text>) -> bool {
    forall|i: int| 0 <= i < parts.len() ==> is_name(#[trigger] parts[i])
}

/// Whether no part holds a slash.
pub open spec fn unslashed(parts: Seq<Text>) -> bool {
    forall|i: int| 0 <= i < parts.len() ==> !(#[trigger] parts[i]).contains('/')
}

/// Parts with slashes between them.
pub open spec fn slashed(parts: Seq<Text>) -> Text {
    text::join(parts, seq!['/'])
}

/// Names with a slash before each, from the root on.
pub open spec fn rooted(parts: Seq<Text>) -> Text {
    seq!['/'] + slashed(parts)
}

proof fn lemma_rooted(parts: Seq<Text>)
    requires
        parts.len() > 0,
        unslashed(parts),
    ensures
        text::split(rooted(parts), '/') == seq![Seq::<char>::empty()] + parts,
        paths::is_absolute(rooted(parts)),
{
    let all = seq![Seq::<char>::empty()] + parts;
    text::lemma_join_first(all, seq!['/']);
    assert(all.skip(1) =~= parts);
    assert(text::join(all, seq!['/']) =~= rooted(parts));
    assert forall|i: int| 0 <= i < all.len() implies !(#[trigger] all[i]).contains('/') by {
        if i > 0 {
            assert(all[i] == parts[i - 1]);
        }
    }
    text::joining_loses_nothing(all, '/');
}

proof fn lemma_slashed(parts: Seq<Text>)
    requires
        parts.len() > 0,
        unslashed(parts),
    ensures
        text::split(slashed(parts), '/') == parts,
        parts[0].len() > 0 ==> !paths::is_absolute(slashed(parts)),
{
    text::joining_loses_nothing(parts, '/');
    if parts[0].len() > 0 {
        let s = slashed(parts);
        if parts.len() > 1 {
            text::lemma_join_first(parts, seq!['/']);
        }
        assert(s[0] == parts[0][0]);
        assert(parts[0].contains(parts[0][0]));
    }
}

proof fn lemma_named_all(parts: Seq<Text>)
    requires
        all_names(parts),
    ensures
        paths::named(parts) == parts,
        paths::folded(parts) == parts,
    decreases parts.len(),
{
    if parts.len() > 0 {
        let first = parts.drop_last();
        assert forall|i: int| 0 <= i < first.len() implies is_name(#[trigger] first[i]) by {
            assert(first[i] == parts[i]);
        }
        lemma_named_all(first);
        assert(is_name(parts[parts.len() - 1]));
        assert(first.push(parts.last()) =~= parts);
    }
}

proof fn lemma_named_one(part: Text)
    ensures
        paths::named(seq![part]) == (if paths::blank(part) {
            Seq::<Text>::empty()
        } else {
            seq![part]
        }),
{
    let one = seq![part];
    assert(one.drop_last() =~= Seq::empty());
    assert(paths::named(one.drop_last()) == Seq::<Text>::empty());
    assert(Seq::<Text>::empty().push(part) =~= one);
}

proof fn lemma_named_both(a: Seq<Text>, b: Seq<Text>)
    ensures
        paths::named(a + b) == paths::named(a) + paths::named(b),
    decreases b.len(),
{
    if b.len() == 0 {
        assert(a + b =~= a);
        assert(paths::named(a) + paths::named(b) =~= paths::named(a));
    } else {
        assert((a + b).drop_last() =~= a + b.drop_last());
        lemma_named_both(a, b.drop_last());
        assert(paths::named(a + b) =~= paths::named(a) + paths::named(b));
    }
}

proof fn lemma_folded_after(a: Seq<Text>, other: Seq<Text>, b: Seq<Text>)
    requires
        paths::folded(a) == paths::folded(other),
    ensures
        paths::folded(a + b) == paths::folded(other + b),
    decreases b.len(),
{
    if b.len() == 0 {
        assert(a + b =~= a);
        assert(other + b =~= other);
    } else {
        assert((a + b).drop_last() =~= a + b.drop_last());
        assert((other + b).drop_last() =~= other + b.drop_last());
        lemma_folded_after(a, other, b.drop_last());
    }
}

proof fn lemma_all_unslashed(parts: Seq<Text>)
    requires
        all_names(parts),
    ensures
        unslashed(parts),
{
    assert forall|i: int| 0 <= i < parts.len() implies !(#[trigger] parts[i]).contains('/') by {
        assert(is_name(parts[i]));
    }
}

/// A path of names leads to the entry with these names, from the root or from
/// where one stands.
pub proof fn names_lead_to_their_entry(parts: Seq<Text>)
    requires
        parts.len() > 0,
        all_names(parts),
    ensures
        paths::place(rooted(parts)) == (Place { absolute: true, parts }),
        paths::place(slashed(parts)) == (Place { absolute: false, parts }),
{
    lemma_all_unslashed(parts);
    lemma_rooted(parts);
    assert(is_name(parts[0]));
    lemma_slashed(parts);
    lemma_named_all(parts);
    let root = seq![Seq::<char>::empty()];
    lemma_named_both(root, parts);
    lemma_named_one(Seq::empty());
    assert(Seq::<Text>::empty() + parts =~= parts);
}

/// Empty parts and `.` in a path lead nowhere else, and a name with `..` after
/// it leads back.
pub proof fn steps_back_undo_names(a: Seq<Text>, n: Text, b: Seq<Text>, blank: Text)
    requires
        a.len() > 0,
        a.len() > 1 || a[0].len() > 0,
        unslashed(a),
        unslashed(b),
        is_name(n),
        blank.len() == 0 || blank == seq!['.'],
    ensures
        paths::place(slashed(a + seq![blank] + b)) == paths::place(slashed(a + b)),
        paths::place(slashed(a + seq![n, seq!['.', '.']] + b)) == paths::place(slashed(a + b)),
{
    let dots = seq!['.', '.'];
    let one = a + seq![blank] + b;
    let two = a + seq![n, dots] + b;
    let none = a + b;
    assert(unslashed(one)) by {
        assert forall|i: int| 0 <= i < one.len() implies !(#[trigger] one[i]).contains('/') by {
            if i < a.len() {
                assert(one[i] == a[i]);
            } else if i > a.len() {
                assert(one[i] == b[i - a.len() - 1]);
            } else {
                assert(one[i] == blank);
            }
        }
    }
    assert(unslashed(two)) by {
        assert forall|i: int| 0 <= i < two.len() implies !(#[trigger] two[i]).contains('/') by {
            if i < a.len() {
                assert(two[i] == a[i]);
            } else if i > a.len() + 1 {
                assert(two[i] == b[i - a.len() - 2]);
            } else if i == a.len() {
                assert(two[i] == n);
            } else {
                assert(two[i] == dots);
            }
        }
    }
    assert(unslashed(none)) by {
        assert forall|i: int| 0 <= i < none.len() implies !(#[trigger] none[i]).contains('/') by {
            if i < a.len() {
                assert(none[i] == a[i]);
            } else {
                assert(none[i] == b[i - a.len()]);
            }
        }
    }
    text::joining_loses_nothing(one, '/');
    text::joining_loses_nothing(two, '/');
    text::joining_loses_nothing(none, '/');
    lemma_absolute(one);
    lemma_absolute(two);
    lemma_absolute(none);
    lemma_named_both(a + seq![blank], b);
    lemma_named_both(a, seq![blank]);
    lemma_named_both(a + seq![n, dots], b);
    lemma_named_both(a, seq![n, dots]);
    lemma_named_both(a, b);
    let na = paths::named(a);
    let nb = paths::named(b);
    lemma_named_one(blank);
    assert(na + Seq::empty() =~= na);
    let pair = seq![n, dots];
    assert(dots.len() == 2);
    lemma_named_one(n);
    lemma_named_one(dots);
    lemma_named_both(seq![n], seq![dots]);
    assert(pair =~= seq![n] + seq![dots]);
    assert((na + pair).drop_last() =~= na.push(n));
    assert((na + pair).last() == dots);
    assert(na.push(n).drop_last() =~= na);
    assert(paths::folded(na.push(n)) == paths::folded(na).push(n));
    assert(paths::folded(na).push(n).drop_last() =~= paths::folded(na));
    assert(paths::folded(na + pair) == paths::folded(na));
    lemma_folded_after(na + pair, na, nb);
}

proof fn lemma_absolute(parts: Seq<Text>)
    requires
        parts.len() > 0,
        unslashed(parts),
    ensures
        paths::is_absolute(slashed(parts)) <==> parts[0].len() == 0 && parts.len() > 1,
{
    let s = slashed(parts);
    if parts.len() > 1 {
        text::lemma_join_first(parts, seq!['/']);
        if parts[0].len() == 0 {
            assert(s[0] == '/');
        } else {
            assert(s[0] == parts[0][0]);
            assert(parts[0].contains(parts[0][0]));
        }
    } else if parts[0].len() > 0 {
        assert(s[0] == parts[0][0]);
        assert(parts[0].contains(parts[0][0]));
    }
}

/// A path is read from the directory, unless it starts at the root.
pub proof fn paths_are_read_from_the_directory(dir: Seq<Text>, parts: Seq<Text>)
    requires
        dir.len() > 0,
        parts.len() > 0,
        all_names(dir),
        all_names(parts),
    ensures
        paths::resolved(rooted(dir), slashed(parts)) == rooted(dir + parts),
        paths::resolved(rooted(dir) + seq!['/'], slashed(parts)) == rooted(dir + parts),
        paths::resolved(rooted(dir), rooted(parts)) == rooted(parts),
        paths::resolved(seq!['/'], slashed(parts)) == rooted(parts),
        paths::place(paths::resolved(rooted(dir), slashed(parts))) == (Place {
            absolute: true,
            parts: dir + parts,
        }),
{
    reveal_strlit("/");
    lemma_all_unslashed(dir);
    lemma_all_unslashed(parts);
    assert(is_name(parts[0]));
    lemma_slashed(parts);
    lemma_rooted(parts);
    let d = rooted(dir);
    lemma_last(dir);
    assert(is_name(dir[dir.len() - 1]));
    assert(d.last() == slashed(dir).last());
    assert(dir.last().contains(dir.last().last()));
    lemma_join_both(dir, parts);
    assert("/"@ =~= seq!['/']);
    assert(d + "/"@ + slashed(parts) =~= rooted(dir + parts));
    assert((d + seq!['/']) + slashed(parts) =~= rooted(dir + parts));
    let both = dir + parts;
    assert forall|i: int| 0 <= i < both.len() implies is_name(#[trigger] both[i]) by {
        if i < dir.len() {
            assert(both[i] == dir[i]);
        } else {
            assert(both[i] == parts[i - dir.len()]);
        }
    }
    names_lead_to_their_entry(both);
}

proof fn lemma_last(parts: Seq<Text>)
    requires
        parts.len() > 0,
        all_names(parts),
    ensures
        slashed(parts).len() > 0,
        slashed(parts).last() == parts.last().last(),
{
    assert(is_name(parts[parts.len() - 1]));
}

proof fn lemma_join_both(a: Seq<Text>, b: Seq<Text>)
    requires
        a.len() > 0,
        b.len() > 0,
    ensures
        slashed(a + b) == slashed(a) + seq!['/'] + slashed(b),
    decreases b.len(),
{
    assert((a + b).drop_last() =~= a + b.drop_last());
    assert((a + b).last() == b.last());
    if b.len() == 1 {
        assert(b.drop_last() =~= Seq::empty());
        assert(a + b.drop_last() =~= a);
    } else {
        lemma_join_both(a, b.drop_last());
    }
    assert(slashed(a + b) =~= slashed(a) + seq!['/'] + slashed(b));
}

/// The directory of an entry has the names before the last one, and the last one
/// is the name of the entry.
pub proof fn entries_lie_in_their_directory(dir: Seq<Text>, name: Text)
    requires
        all_names(dir),
        is_name(name),
    ensures
        paths::parent(rooted(dir.push(name))) == Some(
            if dir.len() == 0 {
                seq!['/']
            } else {
                rooted(dir)
            },
        ),
        paths::file_name(rooted(dir.push(name))) == Some(name),
        paths::parent(slashed(dir.push(name))) == Some(slashed(dir)),
        paths::file_name(slashed(dir.push(name))) == Some(name),
{
    reveal_strlit("/");
    assert("/"@ =~= seq!['/']);
    let parts = dir.push(name);
    assert forall|i: int| 0 <= i < parts.len() implies is_name(#[trigger] parts[i]) by {
        if i < dir.len() {
            assert(parts[i] == dir[i]);
        }
    }
    lemma_all_unslashed(parts);
    lemma_rooted(parts);
    assert(is_name(parts[0]));
    lemma_slashed(parts);
    let root = seq![Seq::<char>::empty()];
    let all = root + parts;
    assert(all.last() == name);
    assert(paths::ended(all) == all);
    assert(all.drop_last() =~= root + dir);
    if dir.len() > 0 {
        let above = root + dir;
        assert(is_name(dir[dir.len() - 1]));
        assert(above.last() == dir.last());
        assert(paths::ended(above) == above);
        text::lemma_join_first(above, seq!['/']);
        assert(above.skip(1) =~= dir);
        assert(text::join(above, seq!['/']) =~= rooted(dir));
        assert(parts.drop_last() =~= dir);
        assert(paths::ended(parts) == parts);
        assert(paths::ended(dir) == dir);
    } else {
        assert(root + dir =~= root);
        assert(paths::ended(root) == root);
        assert(parts.len() == 1);
        assert(paths::ended(parts) == parts);
        assert(slashed(dir) =~= Seq::empty());
    }
}

/// A path beneath a directory reads as what follows it, and the directory itself
/// as nothing; any other path reads as it is.
pub proof fn paths_read_from_their_directory(dir: Seq<Text>, parts: Seq<Text>, other: Seq<Text>)
    requires
        dir.len() > 0,
        parts.len() > 0,
        other.len() > 0,
        all_names(dir),
        all_names(parts),
        all_names(other),
    ensures
        paths::relative(rooted(dir + parts), rooted(dir)) == slashed(parts),
        paths::relative(rooted(dir), rooted(dir)) == Seq::<char>::empty(),
        !(dir.len() <= other.len() && other.take(dir.len() as int) == dir) ==> paths::relative(
            rooted(other),
            rooted(dir),
        ) == rooted(other),
{
    reveal_strlit("/");
    assert("/"@ =~= seq!['/']);
    let both = dir + parts;
    assert forall|i: int| 0 <= i < both.len() implies is_name(#[trigger] both[i]) by {
        if i < dir.len() {
            assert(both[i] == dir[i]);
        } else {
            assert(both[i] == parts[i - dir.len()]);
        }
    }
    lemma_components(dir);
    lemma_components(both);
    lemma_components(other);
    let root = seq![Seq::<char>::empty()];
    let slash = seq![seq!['/']];
    assert((slash + both).take((slash + dir).len() as int) =~= slash + dir);
    lemma_after_named(root + both, dir, parts);
    assert(root + both =~= root + dir + parts);
    lemma_without_blank_end(parts);
    let none = Seq::<Text>::empty();
    assert((slash + dir).take((slash + dir).len() as int) =~= slash + dir);
    assert(root + dir =~= root + (dir + none));
    lemma_after_named(root + dir, dir, none);
    assert(paths::without_blank_end(none) == none);
    if (slash + dir).len() <= (slash + other).len() && (slash + other).take(
        (slash + dir).len() as int,
    ) == slash + dir {
        assert(other.take(dir.len() as int) =~= dir) by {
            assert forall|i: int| 0 <= i < dir.len() implies other[i] == dir[i] by {
                assert((slash + other).take((slash + dir).len() as int)[i + 1] == (slash + dir)[i
                    + 1]);
            }
        }
    }
}

proof fn lemma_components(parts: Seq<Text>)
    requires
        parts.len() > 0,
        all_names(parts),
    ensures
        paths::components(rooted(parts)) == seq![seq!['/']] + parts,
        text::split(rooted(parts), '/') == seq![Seq::<char>::empty()] + parts,
        paths::named(text::split(rooted(parts), '/')) == parts,
{
    lemma_all_unslashed(parts);
    lemma_rooted(parts);
    lemma_named_all(parts);
    let root = seq![Seq::<char>::empty()];
    lemma_named_both(root, parts);
    lemma_named_one(Seq::empty());
    assert(Seq::<Text>::empty() + parts =~= parts);
}

proof fn lemma_after_named(all: Seq<Text>, dir: Seq<Text>, parts: Seq<Text>)
    requires
        all == seq![Seq::<char>::empty()] + (dir + parts),
        all_names(dir),
        all_names(parts),
    ensures
        paths::after_named(all, dir.len() as int) == parts,
{
    assert(all[0].len() == 0);
    assert(all.skip(1) =~= dir + parts);
    lemma_after_names(dir, parts);
}

proof fn lemma_after_names(dir: Seq<Text>, parts: Seq<Text>)
    requires
        all_names(dir),
        all_names(parts),
    ensures
        paths::after_named(dir + parts, dir.len() as int) == parts,
    decreases dir.len(),
{
    if dir.len() == 0 {
        assert(dir + parts =~= parts);
        if parts.len() > 0 {
            assert(is_name(parts[0]));
        }
    } else {
        let rest = dir.skip(1);
        assert forall|i: int| 0 <= i < rest.len() implies is_name(#[trigger] rest[i]) by {
            assert(rest[i] == dir[i + 1]);
        }
        assert(is_name(dir[0]));
        assert((dir + parts)[0] == dir[0]);
        assert((dir + parts).skip(1) =~= rest + parts);
        lemma_after_names(rest, parts);
    }
}

proof fn lemma_without_blank_end(parts: Seq<Text>)
    requires
        parts.len() > 0,
        all_names(parts),
    ensures
        paths::without_blank_end(parts) == parts,
{
    assert(is_name(parts[parts.len() - 1]));
}

/// The temporary file for an entry lies in its directory, hidden, under the name
/// of the entry with what it is for and a token behind it.
pub proof fn temporary_files_lie_beside(
    dir: Seq<Text>,
    name: Text,
    purpose: Text,
    token: Text,
)
    requires
        dir.len() > 0,
        all_names(dir),
        is_name(name),
    ensures
        publish::temp_path(rooted(dir.push(name)), purpose, token) == rooted(dir) + seq!['/', '.']
            + name + purpose + token + ".tmp"@,
        publish::directory(rooted(dir.push(name))) == rooted(dir),
{
    entries_lie_in_their_directory(dir, name);
    reveal_strlit(".");
    reveal_strlit("/");
    let file = "."@ + name + purpose + token + ".tmp"@;
    assert(file[0] == '.');
    let d = rooted(dir);
    lemma_last(dir);
    assert(is_name(dir[dir.len() - 1]));
    assert(d.last() == slashed(dir).last());
    assert(dir.last().contains(dir.last().last()));
    assert(d + "/"@ + file =~= d + seq!['/', '.'] + name + purpose + token + ".tmp"@);
}

} // verus!
