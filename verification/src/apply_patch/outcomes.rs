//! What operations come to: which changes they plan, and what these leave on
//! disk when every action succeeds.
use vstd::prelude::*;

use crate::apply_patch::chunks;
use crate::apply_patch::commit;
use crate::apply_patch::commit::{CommitModel, Stage};
use crate::apply_patch::paths;
use crate::apply_patch::plan;
use crate::apply_patch::plan::{
    ChangeModel, EntryModel, FactsModel, PlanModel, Repeatable, TargetModel, TargetStateModel,
    TargetUpdateModel,
};
use crate::apply_patch::publish;
use crate::apply_patch::publish::{ActionModel, OutcomeModel};
use crate::apply_patch::{ChunkModel, OperationModel};
use crate::text::Text;

verus! {

// ---------------------------------------------------------------------------
// Planning
// ---------------------------------------------------------------------------
/// Whether a patch has planned nothing yet for the entry that a path names.
pub open spec fn free(plan: PlanModel, path: Text) -> bool {
    !plan.claims.dom().contains(paths::place(path))
}

/// Whether a plan is another one with one more change, which owns some entries
/// and nothing else.
pub open spec fn grown(
    plan: PlanModel,
    next: PlanModel,
    change: ChangeModel,
    reported: Text,
    owned: Seq<Text>,
) -> bool {
    &&& next.changes == plan.changes.push(change)
    &&& next.reported == plan.reported.push(reported)
    &&& forall|i: int| 0 <= i < owned.len() ==> !free(next, #[trigger] owned[i])
    &&& forall|p: paths::Place| #[trigger]
        next.claims.dom().contains(p) ==> plan.claims.dom().contains(p) || exists|i: int|
            0 <= i < owned.len() && p == paths::place(#[trigger] owned[i])
    &&& forall|p: paths::Place|
        plan.claims.dom().contains(p) ==> #[trigger] next.claims.dom().contains(p)
}

/// A file is added where nothing stands, with its content; where something
/// stands, the patch is refused.
pub proof fn files_are_added_where_nothing_stands(
    plan: PlanModel,
    cwd: Text,
    path: Text,
    content: Text,
    facts: FactsModel,
)
    requires
        free(plan, paths::resolved(cwd, path)),
    ensures
        ({
            let full = paths::resolved(cwd, path);
            let r = plan::operation_planned(
                plan,
                cwd,
                OperationModel::Add { path, content },
                facts,
            );
            &&& facts.entry is Absent <==> r is Ok
            &&& r matches Ok(next) ==> grown(
                plan,
                next,
                ChangeModel::Add { path: full, content },
                path,
                seq![full],
            )
        }),
{
    let full = paths::resolved(cwd, path);
    let owned = seq![full];
    assert(owned[0] == full);
}

/// A file or a symbolic link is deleted; what is missing or of another kind is
/// not.
pub proof fn files_and_links_are_deleted(
    plan: PlanModel,
    cwd: Text,
    path: Text,
    facts: FactsModel,
)
    requires
        free(plan, paths::resolved(cwd, path)),
    ensures
        ({
            let full = paths::resolved(cwd, path);
            let r = plan::operation_planned(plan, cwd, OperationModel::Delete { path }, facts);
            &&& r is Ok <==> facts.entry is File || facts.entry is Symlink
            &&& r matches Ok(next) ==> grown(
                plan,
                next,
                ChangeModel::Delete { path: full, regular: facts.entry is File },
                path,
                seq![full],
            )
        }),
{
    let full = paths::resolved(cwd, path);
    let owned = seq![full];
    assert(owned[0] == full);
}

/// A file is updated in its place with what its hunks make of its text; when
/// they cannot be applied, or the text cannot be read, the patch is refused.
pub proof fn files_are_updated_by_their_hunks(
    plan: PlanModel,
    cwd: Text,
    path: Text,
    chunks: Seq<ChunkModel>,
    facts: FactsModel,
    bytes: Result<Seq<u8>, Text>,
    original: Text,
)
    requires
        free(plan, paths::resolved(cwd, path)),
        facts.entry == (EntryModel::File { bytes, text: Ok::<Text, Text>(original) }),
        chunks.len() > 0,
    ensures
        ({
            let full = paths::resolved(cwd, path);
            let r = plan::operation_planned(
                plan,
                cwd,
                OperationModel::Update { path, move_to: None, chunks },
                facts,
            );
            match chunks::applied(original, path, chunks) {
                Ok(content) => r matches Ok(next) && grown(
                    plan,
                    next,
                    ChangeModel::Update {
                        path: full,
                        reported_path: full,
                        original: vstd::utf8::encode_utf8(original),
                        content,
                    },
                    path,
                    seq![full],
                ),
                Err(message) => r == Err::<PlanModel, Seq<Text>>(seq![message]),
            }
        }),
{
    let full = paths::resolved(cwd, path);
    let owned = seq![full];
    assert(owned[0] == full);
}

/// A file is moved to where nothing stands, with its text as it is or with what
/// its hunks make of it; where something stands, or the patch has planned
/// something, it is refused.
pub proof fn files_are_moved_where_nothing_stands(
    plan: PlanModel,
    cwd: Text,
    path: Text,
    to: Text,
    chunks: Seq<ChunkModel>,
    facts: FactsModel,
    bytes: Result<Seq<u8>, Text>,
    original: Text,
)
    requires
        free(plan, paths::resolved(cwd, path)),
        facts.entry == (EntryModel::File { bytes, text: Ok::<Text, Text>(original) }),
    ensures
        ({
            let full = paths::resolved(cwd, path);
            let end = paths::resolved(cwd, to);
            let r = plan::operation_planned(
                plan,
                cwd,
                OperationModel::Update { path, move_to: Some(to), chunks },
                facts,
            );
            let room = free(plan, end) && paths::place(end) != paths::place(full)
                && !facts.destination_exists;
            &&& !room ==> r is Err
            &&& room && chunks.len() == 0 ==> r is Ok && grown(
                plan,
                r->Ok_0,
                ChangeModel::Move {
                    from: full,
                    to: end,
                    original: vstd::utf8::encode_utf8(original),
                    content: original,
                },
                path,
                seq![full, end],
            )
            &&& room && chunks.len() > 0 ==> match chunks::applied(original, path, chunks) {
                Ok(content) => r is Ok && grown(
                    plan,
                    r->Ok_0,
                    ChangeModel::Move {
                        from: full,
                        to: end,
                        original: vstd::utf8::encode_utf8(original),
                        content,
                    },
                    path,
                    seq![full, end],
                ),
                Err(message) => r == Err::<PlanModel, Seq<Text>>(seq![message]),
            }
        }),
{
    let full = paths::resolved(cwd, path);
    let end = paths::resolved(cwd, to);
    let owned = seq![full, end];
    assert(owned[0] == full && owned[1] == end);
}

/// An update of a symbolic link changes the file that it leads to, and leaves the
/// link; with a destination the link is moved, and the file stays where it is.
pub proof fn links_are_followed(
    plan: PlanModel,
    cwd: Text,
    path: Text,
    to: Text,
    chunks: Seq<ChunkModel>,
    target: Text,
    original: Text,
)
    requires
        free(plan, paths::resolved(cwd, path)),
        free(plan, paths::resolved(cwd, to)),
        free(plan, target),
        paths::place(target) != paths::place(paths::resolved(cwd, path)),
        paths::place(target) != paths::place(paths::resolved(cwd, to)),
        paths::place(paths::resolved(cwd, to)) != paths::place(paths::resolved(cwd, path)),
        chunks.len() > 0,
        chunks::applied(original, path, chunks) is Ok,
    ensures
        ({
            let full = paths::resolved(cwd, path);
            let end = paths::resolved(cwd, to);
            let content = chunks::applied(original, path, chunks)->Ok_0;
            let facts = FactsModel {
                entry: EntryModel::Symlink(
                    Ok(
                        TargetModel {
                            path: target,
                            state: TargetStateModel::File(Ok::<Text, Text>(original)),
                        },
                    ),
                ),
                destination_exists: false,
            };
            let stay = plan::operation_planned(
                plan,
                cwd,
                OperationModel::Update { path, move_to: None, chunks },
                facts,
            );
            let go = plan::operation_planned(
                plan,
                cwd,
                OperationModel::Update { path, move_to: Some(to), chunks },
                facts,
            );
            let rename = plan::operation_planned(
                plan,
                cwd,
                OperationModel::Update { path, move_to: Some(to), chunks: Seq::empty() },
                facts,
            );
            &&& stay is Ok && grown(
                plan,
                stay->Ok_0,
                ChangeModel::Update {
                    path: target,
                    reported_path: full,
                    original: vstd::utf8::encode_utf8(original),
                    content,
                },
                path,
                seq![full, target],
            )
            &&& go is Ok && grown(
                plan,
                go->Ok_0,
                ChangeModel::MoveSymlink {
                    from: full,
                    to: end,
                    target_update: Some(
                        TargetUpdateModel {
                            path: target,
                            original: vstd::utf8::encode_utf8(original),
                            content,
                        },
                    ),
                },
                path,
                seq![full, end, target],
            )
            &&& rename is Ok && grown(
                plan,
                rename->Ok_0,
                ChangeModel::MoveSymlink { from: full, to: end, target_update: None },
                path,
                seq![full, end],
            )
        }),
{
    let full = paths::resolved(cwd, path);
    let end = paths::resolved(cwd, to);
    let two = seq![full, target];
    let three = seq![full, end, target];
    let ends = seq![full, end];
    assert(two[0] == full && two[1] == target);
    assert(three[0] == full && three[1] == end && three[2] == target);
    assert(ends[0] == full && ends[1] == end);
}

/// Nothing can be updated where there is no file and no link to one.
pub proof fn only_files_are_updated(
    plan: PlanModel,
    cwd: Text,
    path: Text,
    move_to: Option<Text>,
    chunks: Seq<ChunkModel>,
    facts: FactsModel,
)
    requires
        free(plan, paths::resolved(cwd, path)),
        facts.entry is Absent || facts.entry is Other || (facts.entry matches EntryModel::File {
            text,
            ..
        } && text is Err),
    ensures
        plan::operation_planned(
            plan,
            cwd,
            OperationModel::Update { path, move_to, chunks },
            facts,
        ) is Err,
{
}

/// An entry for which the patch has planned a change is changed again only by
/// another update of an updated file under the same path, which works on what
/// the first one leaves, or by adding a file under the path of a deleted one,
/// which then is replaced. Everything else that meets a planned change is
/// refused.
pub proof fn planned_entries_are_left_alone(
    plan: PlanModel,
    cwd: Text,
    operation: OperationModel,
    facts: FactsModel,
    path: Text,
)
    requires
        plan::sound(plan),
        !free(plan, paths::resolved(cwd, path)),
        operation matches OperationModel::Add { path: p, .. } ==> p == path,
        operation matches OperationModel::Delete { path: p } ==> p == path,
        operation matches OperationModel::Update { path: p, .. } ==> p == path,
    ensures
        ({
            let full = paths::resolved(cwd, path);
            let owner = plan.claims[paths::place(full)];
            let r = plan::operation_planned(plan, cwd, operation, facts);
            let same = paths::components(plan.reported[owner]) == paths::components(path);
            &&& operation is Delete ==> r is Err
            &&& !same ==> r is Err
            &&& r is Ok ==> r->Ok_0.claims == plan.claims && r->Ok_0.changes.len()
                == plan.changes.len()
            &&& operation matches OperationModel::Add { content, .. } ==> {
                &&& r is Ok <==> same && plan.changes[owner] is Delete
                    && plan.changes[owner]->regular && facts.entry is File
                    && facts.entry->bytes is Ok
                &&& r is Ok ==> r->Ok_0.changes[owner]
                    == (ChangeModel::Update {
                    path: full,
                    reported_path: full,
                    original: facts.entry->bytes->Ok_0,
                    content,
                })
            }
            &&& operation matches OperationModel::Update { move_to, chunks, .. } ==> {
                &&& r is Ok <==> same && move_to is None && plan.repeatable[owner]
                    == Repeatable::Update && plan.changes[owner] is Update && chunks::applied(
                    plan.changes[owner]->Update_content,
                    path,
                    chunks,
                ) is Ok
                &&& r is Ok ==> r->Ok_0.changes[owner]
                    == (ChangeModel::Update {
                    path: plan.changes[owner]->Update_path,
                    reported_path: plan.changes[owner]->reported_path,
                    original: plan.changes[owner]->Update_original,
                    content: chunks::applied(
                        plan.changes[owner]->Update_content,
                        path,
                        chunks,
                    )->Ok_0,
                })
            }
        }),
{
    let owner = plan.claims[paths::place(paths::resolved(cwd, path))];
    assert(plan.claims.dom().contains(paths::place(paths::resolved(cwd, path))));
    assert(0 <= owner < plan.changes.len());
}

/// The operations of a patch are planned one after the other, and the patch is
/// refused as a whole where one of them cannot be planned.
pub proof fn operations_are_planned_in_order(
    plan: PlanModel,
    cwd: Text,
    operations: Seq<OperationModel>,
    facts: Seq<FactsModel>,
    n: int,
)
    requires
        0 <= n <= operations.len(),
    ensures
        ({
            let whole = plan::operations_planned(plan, cwd, operations, facts, 0);
            let first = plan::operations_planned(plan, cwd, operations.take(n), facts, 0);
            &&& first matches Err(e) ==> whole == Err::<PlanModel, Seq<Text>>(e)
            &&& first matches Ok(middle) ==> whole == plan::operations_planned(
                middle,
                cwd,
                operations,
                facts,
                n,
            )
        }),
{
    lemma_planned(plan, cwd, operations, facts, n, 0);
}

proof fn lemma_planned(
    plan: PlanModel,
    cwd: Text,
    operations: Seq<OperationModel>,
    facts: Seq<FactsModel>,
    n: int,
    from: int,
)
    requires
        0 <= from <= n <= operations.len(),
    ensures
        ({
            let whole = plan::operations_planned(plan, cwd, operations, facts, from);
            let first = plan::operations_planned(plan, cwd, operations.take(n), facts, from);
            &&& first matches Err(e) ==> whole == Err::<PlanModel, Seq<Text>>(e)
            &&& first matches Ok(middle) ==> whole == plan::operations_planned(
                middle,
                cwd,
                operations,
                facts,
                n,
            )
        }),
    decreases n - from,
{
    if from < n {
        assert(operations.take(n)[from] == operations[from]);
        if let Ok(next) = plan::operation_planned(plan, cwd, operations[from], facts[from]) {
            lemma_planned(next, cwd, operations, facts, n, from + 1);
        }
    }
}

// ---------------------------------------------------------------------------
// Publishing
// ---------------------------------------------------------------------------
/// Files by name, and the file that is open and the one that was created last.
pub struct Files {
    pub held: Map<Text, Seq<u8>>,
    pub opened: Text,
    pub created: Text,
}

/// The files after an action that succeeds.
pub open spec fn done(files: Files, action: ActionModel) -> Files {
    match action {
        ActionModel::CreateNew(p) => Files {
            held: files.held.insert(p, Seq::empty()),
            created: p,
            ..files
        },
        ActionModel::WriteNew(b) => Files { held: files.held.insert(files.created, b), ..files },
        ActionModel::Link { from, to } => Files {
            held: files.held.insert(to, files.held[from]),
            ..files
        },
        ActionModel::Remove(p) => Files { held: files.held.remove(p), ..files },
        ActionModel::OpenTarget(p) => Files { opened: p, ..files },
        ActionModel::RewriteTarget(b) => Files {
            held: files.held.insert(files.opened, b),
            ..files
        },
        ActionModel::Rename { from, to } => Files {
            held: files.held.insert(to, files.held[from]).remove(from),
            ..files
        },
        _ => files,
    }
}

/// The bytes that an action gives when it succeeds.
pub open spec fn given(files: Files, action: ActionModel) -> Seq<u8> {
    if action is ReadTarget {
        files.held[files.opened]
    } else {
        Seq::empty()
    }
}

/// The publishing and the files after one action that succeeds.
pub open spec fn step(commit: CommitModel, files: Files, token: Text) -> (CommitModel, Files) {
    (
        commit.after(OutcomeModel::Done(given(files, commit.action())), token),
        done(files, commit.action()),
    )
}

/// The publishing and the files after actions that all succeed.
pub open spec fn steps(commit: CommitModel, files: Files, tokens: Seq<Text>) -> (
    CommitModel,
    Files,
)
    decreases tokens.len(),
{
    if tokens.len() == 0 {
        (commit, files)
    } else {
        let (next, left) = step(commit, files, tokens[0]);
        steps(next, left, tokens.skip(1))
    }
}

proof fn lemma_steps(commit: CommitModel, files: Files, tokens: Seq<Text>, more: Seq<Text>)
    ensures
        steps(commit, files, tokens + more) == ({
            let (next, left) = steps(commit, files, tokens);
            steps(next, left, more)
        }),
    decreases tokens.len(),
{
    if tokens.len() == 0 {
        assert(tokens + more =~= more);
    } else {
        let (next, left) = step(commit, files, tokens[0]);
        assert((tokens + more)[0] == tokens[0]);
        assert((tokens + more).skip(1) =~= tokens.skip(1) + more);
        lemma_steps(next, left, tokens.skip(1), more);
    }
}

proof fn lemma_step(commit: CommitModel, files: Files, tokens: Seq<Text>, n: int)
    requires
        0 <= n < tokens.len(),
    ensures
        steps(commit, files, tokens.take(n + 1)) == ({
            let (next, left) = steps(commit, files, tokens.take(n));
            step(next, left, tokens[n])
        }),
{
    let one = seq![tokens[n]];
    assert(tokens.take(n + 1) =~= tokens.take(n) + one);
    lemma_steps(commit, files, tokens.take(n), one);
    let (next, left) = steps(commit, files, tokens.take(n));
    let (a, b) = step(next, left, tokens[n]);
    assert(one.skip(1) =~= Seq::empty());
    assert(one[0] == tokens[n]);
    assert(steps(a, b, one.skip(1)) == (a, b));
}

/// A file that is added is there with its content, and nothing else is changed;
/// then the next change is up.
pub proof fn added_files_are_there(
    changes: Seq<ChangeModel>,
    at: int,
    path: Text,
    content: Text,
    files: Files,
    tokens: Seq<Text>,
)
    requires
        0 <= at < changes.len(),
        changes[at] == (ChangeModel::Add { path, content }),
        tokens.len() == 6,
        !files.held.dom().contains(publish::temp_path(path, ".connector-tmp-"@, tokens[1])),
        publish::temp_path(path, ".connector-tmp-"@, tokens[1]) != path,
    ensures
        ({
            let (next, left) = steps(commit::begun(changes, at), files, tokens);
            &&& next == commit::begun(changes, at + 1)
            &&& left.held == files.held.insert(path, vstd::utf8::encode_utf8(content))
        }),
{
    let c = commit::begun(changes, at);
    assert(tokens.take(0) =~= Seq::empty());
    lemma_step(c, files, tokens, 0);
    lemma_step(c, files, tokens, 1);
    lemma_step(c, files, tokens, 2);
    lemma_step(c, files, tokens, 3);
    lemma_step(c, files, tokens, 4);
    lemma_step(c, files, tokens, 5);
    assert(tokens.take(6) =~= tokens);
    let left = steps(c, files, tokens).1;
    assert(left.held =~= files.held.insert(path, vstd::utf8::encode_utf8(content)));
}

/// A file or a link that is deleted is gone, and nothing else is changed.
pub proof fn deleted_files_are_gone(
    changes: Seq<ChangeModel>,
    at: int,
    path: Text,
    regular: bool,
    files: Files,
    token: Text,
)
    requires
        0 <= at < changes.len(),
        changes[at] == (ChangeModel::Delete { path, regular }),
    ensures
        ({
            let (next, left) = step(commit::begun(changes, at), files, token);
            &&& next == commit::begun(changes, at + 1)
            &&& left.held == files.held.remove(path)
        }),
{
}

#[verifier::rlimit(40)]
proof fn lemma_rewritten(
    c: CommitModel,
    path: Text,
    content: Text,
    original: Seq<u8>,
    files: Files,
    tokens: Seq<Text>,
)
    requires
        c.stage == Stage::Writing,
        c.write == publish::started(path, content, true, Some(original)),
        c.failure.len() == 0,
        0 <= c.at < c.changes.len(),
        tokens.len() == 9,
        files.held.dom().contains(path),
        files.held[path] == original,
        !files.held.dom().contains(publish::temp_path(path, ".connector-backup-"@, tokens[4])),
    ensures
        ({
            let (next, left) = steps(c, files, tokens);
            &&& next == commit::begun(c.changes, c.at + 1)
            &&& left.held == files.held.insert(path, vstd::utf8::encode_utf8(content))
        }),
{
    let w = c.write;
    let temp = publish::temp_path(path, ".connector-backup-"@, tokens[4]);
    let new = vstd::utf8::encode_utf8(content);
    let open = Files { opened: path, ..files };
    let read = publish::WriteModel {
        old: original,
        phase: publish::Phase::MakeBackupDirectory,
        ..w
    };
    let backed = publish::WriteModel { temp, ..read };
    let empty = Files { held: files.held.insert(temp, Seq::empty()), created: temp, ..open };
    let full = Files { held: empty.held.insert(temp, original), ..empty };
    let written = Files { held: full.held.insert(path, new), ..full };
    assert(tokens.take(0) =~= Seq::empty());
    lemma_step(c, files, tokens, 0);
    assert(steps(c, files, tokens.take(1)) == (c.writing(w.at(publish::Phase::Open)), files));
    lemma_step(c, files, tokens, 1);
    assert(steps(c, files, tokens.take(2)) == (c.writing(w.at(publish::Phase::Lock)), open));
    lemma_step(c, files, tokens, 2);
    assert(steps(c, files, tokens.take(3)) == (c.writing(w.at(publish::Phase::Read)), open));
    lemma_step(c, files, tokens, 3);
    assert(steps(c, files, tokens.take(4)) == (c.writing(read), open));
    lemma_step(c, files, tokens, 4);
    assert(steps(c, files, tokens.take(5)) == (
        c.writing(backed.at(publish::Phase::CreateBackup(0))),
        open,
    ));
    lemma_step(c, files, tokens, 5);
    assert(steps(c, files, tokens.take(6)) == (
        c.writing(backed.at(publish::Phase::WriteBackup)),
        empty,
    ));
    lemma_step(c, files, tokens, 6);
    assert(steps(c, files, tokens.take(7)) == (
        c.writing(backed.at(publish::Phase::Rewrite)),
        full,
    ));
    lemma_step(c, files, tokens, 7);
    assert(steps(c, files, tokens.take(8)) == (
        c.writing(backed.at(publish::Phase::RemoveBackup)),
        written,
    ));
    lemma_step(c, files, tokens, 8);
    assert(tokens.take(9) =~= tokens);
    let left = steps(c, files, tokens).1;
    assert(left.held == written.held.remove(temp));
    assert(left.held =~= files.held.insert(path, new));
}

/// A file that is updated holds its new content, and nothing else is changed.
pub proof fn updated_files_hold_their_new_content(
    changes: Seq<ChangeModel>,
    at: int,
    path: Text,
    reported_path: Text,
    original: Seq<u8>,
    content: Text,
    files: Files,
    tokens: Seq<Text>,
)
    requires
        0 <= at < changes.len(),
        changes[at] == (ChangeModel::Update { path, reported_path, original, content }),
        tokens.len() == 9,
        files.held.dom().contains(path),
        files.held[path] == original,
        !files.held.dom().contains(publish::temp_path(path, ".connector-backup-"@, tokens[4])),
    ensures
        ({
            let (next, left) = steps(commit::begun(changes, at), files, tokens);
            &&& next == commit::begun(changes, at + 1)
            &&& left.held == files.held.insert(path, vstd::utf8::encode_utf8(content))
        }),
{
    lemma_rewritten(commit::begun(changes, at), path, content, original, files, tokens);
}

/// A file that is moved is gone from where it was, and holds its new content
/// where it is now; nothing else is changed.
pub proof fn moved_files_hold_their_new_content(
    changes: Seq<ChangeModel>,
    at: int,
    from: Text,
    to: Text,
    original: Seq<u8>,
    content: Text,
    files: Files,
    tokens: Seq<Text>,
)
    requires
        0 <= at < changes.len(),
        changes[at] == (ChangeModel::Move { from, to, original, content }),
        from != to,
        tokens.len() == 10,
        files.held.dom().contains(from),
        files.held[from] == original,
        !files.held.dom().contains(publish::temp_path(to, ".connector-backup-"@, tokens[5])),
        publish::temp_path(to, ".connector-backup-"@, tokens[5]) != to,
    ensures
        ({
            let (next, left) = steps(commit::begun(changes, at), files, tokens);
            &&& next == commit::begun(changes, at + 1)
            &&& left.held == files.held.remove(from).insert(to, vstd::utf8::encode_utf8(content))
        }),
{
    let c = commit::begun(changes, at);
    let (moved, left) = step(c, files, tokens[0]);
    let rest = tokens.skip(1);
    assert(rest[4] == tokens[5]);
    assert(left.held == files.held.insert(to, files.held[from]).remove(from));
    lemma_rewritten(moved, to, content, original, left, rest);
    let end = steps(c, files, tokens).1;
    assert(end.held =~= files.held.remove(from).insert(to, vstd::utf8::encode_utf8(content)));
}

/// A symbolic link that is moved keeps what it holds under its new name; where
/// the file that it leads to is updated, that file holds its new content.
pub proof fn moved_links_are_kept(
    changes: Seq<ChangeModel>,
    at: int,
    from: Text,
    to: Text,
    target_update: Option<TargetUpdateModel>,
    files: Files,
    tokens: Seq<Text>,
)
    requires
        0 <= at < changes.len(),
        changes[at] == (ChangeModel::MoveSymlink { from, to, target_update }),
        from != to,
        files.held.dom().contains(from),
        target_update is None ==> tokens.len() == 2,
        target_update matches Some(update) ==> {
            &&& tokens.len() == 11
            &&& update.path != from
            &&& update.path != to
            &&& files.held.dom().contains(update.path)
            &&& files.held[update.path] == update.original
            &&& !files.held.dom().contains(
                publish::temp_path(update.path, ".connector-backup-"@, tokens[6]),
            )
            &&& publish::temp_path(update.path, ".connector-backup-"@, tokens[6]) != to
        },
    ensures
        ({
            let (next, left) = steps(commit::begun(changes, at), files, tokens);
            let moved = files.held.remove(from).insert(to, files.held[from]);
            &&& next == commit::begun(changes, at + 1)
            &&& left.held == match target_update {
                Some(update) => moved.insert(
                    update.path,
                    vstd::utf8::encode_utf8(update.content),
                ),
                None => moved,
            }
        }),
{
    let c = commit::begun(changes, at);
    assert(tokens.take(0) =~= Seq::empty());
    lemma_step(c, files, tokens, 0);
    lemma_step(c, files, tokens, 1);
    let (moved, left) = steps(c, files, tokens.take(2));
    let held = files.held.remove(from).insert(to, files.held[from]);
    assert(left.held =~= held);
    match target_update {
        None => {
            assert(tokens.take(2) =~= tokens);
        },
        Some(update) => {
            let rest = tokens.skip(2);
            assert(tokens =~= tokens.take(2) + rest);
            assert(rest[4] == tokens[6]);
            lemma_steps(c, files, tokens.take(2), rest);
            lemma_rewritten(moved, update.path, update.content, update.original, left, rest);
        },
    }
}

/// Publishing is over, with nothing left to do and the report as its answer,
/// exactly when every change was published.
pub proof fn publishing_ends_after_the_last_change(changes: Seq<ChangeModel>, at: int, cwd: Text)
    requires
        0 <= at <= changes.len(),
    ensures
        commit::begun(changes, at).over() <==> at == changes.len(),
        commit::begun(changes, at).changes == changes,
        at == changes.len() ==> crate::apply_patch::apply::concluded(
            commit::begun(changes, at),
            cwd,
        ) == Ok::<Text, Seq<Text>>(commit::summary(changes, cwd)),
{
}

// ---------------------------------------------------------------------------
// The report
// ---------------------------------------------------------------------------
/// The report begins with `Done!` and has one line for each change, in order: a
/// letter for its kind, and the paths as they read from the directory.
pub proof fn reports_have_a_line_for_each_change(
    changes: Seq<ChangeModel>,
    change: ChangeModel,
    cwd: Text,
)
    ensures
        commit::summary(Seq::empty(), cwd) == "Done!\n"@,
        commit::summary(changes.push(change), cwd) == commit::summary(changes, cwd)
            + commit::label_relative(change, cwd) + "\n"@,
        change matches ChangeModel::Add { path, .. } ==> commit::label_relative(change, cwd)
            == "A "@ + paths::relative(path, cwd) && commit::label(change) == "A "@ + path,
        change matches ChangeModel::Delete { path, .. } ==> commit::label_relative(change, cwd)
            == "D "@ + paths::relative(path, cwd) && commit::label(change) == "D "@ + path,
        change matches ChangeModel::Update { reported_path, .. } ==> commit::label_relative(
            change,
            cwd,
        ) == "M "@ + paths::relative(reported_path, cwd) && commit::label(change) == "M "@
            + reported_path,
        change matches ChangeModel::Move { from, to, .. } ==> commit::label_relative(change, cwd)
            == "R "@ + paths::relative(from, cwd) + " -> "@ + paths::relative(to, cwd)
            && commit::label(change) == "R "@ + from + " -> "@ + to,
        change matches ChangeModel::MoveSymlink { from, to, .. } ==> commit::label_relative(
            change,
            cwd,
        ) == "R "@ + paths::relative(from, cwd) + " -> "@ + paths::relative(to, cwd)
            && commit::label(change) == "R "@ + from + " -> "@ + to,
{
    assert(changes.push(change).drop_last() =~= changes);
}

/// A failure tells first which changes were published before it, one after the
/// other, or that there was none.
pub proof fn failures_tell_what_was_done(changes: Seq<ChangeModel>, change: ChangeModel)
    ensures
        commit::completed(Seq::empty()) == "completed changes before failure: "@ + "none"@,
        commit::completed(seq![change]) == "completed changes before failure: "@ + commit::label(
            change,
        ),
        changes.len() > 0 ==> commit::completed(changes.push(change)) == commit::completed(changes)
            + ", "@ + commit::label(change),
{
    let one = seq![change];
    assert(commit::labels(one) =~= seq![commit::label(change)]);
    if changes.len() > 0 {
        let all = commit::labels(changes.push(change));
        assert(all.drop_last() =~= commit::labels(changes));
        assert(all.last() == commit::label(change));
        assert(commit::completed(changes.push(change)) =~= commit::completed(changes) + ", "@
            + commit::label(change));
    }
}

/// A temporary name that is taken is tried again under another token, up to 32
/// times; any other failure to create the file ends the writing.
pub proof fn taken_names_are_tried_again(
    write: publish::WriteModel,
    n: u8,
    message: Text,
    token: Text,
)
    requires
        n < 32,
    ensures
        write.phase == publish::Phase::CreateTemp(n) ==> ({
            let taken = write.after(OutcomeModel::Failed { exists: true, message }, token);
            let other = write.after(OutcomeModel::Failed { exists: false, message }, token);
            &&& n < 31 ==> taken.phase == publish::Phase::CreateTemp((n + 1) as u8) && taken.temp
                == publish::temp_path(write.path, ".connector-tmp-"@, token)
            &&& n == 31 ==> taken.phase == publish::Phase::Failed
            &&& other.phase == publish::Phase::Failed
        }),
        write.phase == publish::Phase::CreateBackup(n) ==> ({
            let taken = write.after(OutcomeModel::Failed { exists: true, message }, token);
            let other = write.after(OutcomeModel::Failed { exists: false, message }, token);
            &&& n < 31 ==> taken.phase == publish::Phase::CreateBackup((n + 1) as u8) && taken.temp
                == publish::temp_path(write.path, ".connector-backup-"@, token)
            &&& n == 31 ==> taken.phase == publish::Phase::Failed
            &&& other.phase == publish::Phase::Failed
        }),
{
}

/// Whatever goes wrong after a temporary file was created, its name is removed
/// again, except for a backup that holds what could not be restored; and the
/// writing has then failed.
pub proof fn temporary_files_are_removed(
    write: publish::WriteModel,
    exists: bool,
    message: Text,
    token: Text,
    outcome: OutcomeModel,
)
    requires
        write.phase == publish::Phase::WriteTemp || write.phase == publish::Phase::LinkTemp
            || write.phase == publish::Phase::WriteBackup,
    ensures
        ({
            let next = write.after(OutcomeModel::Failed { exists, message }, token);
            &&& next.action() == ActionModel::Remove(write.temp)
            &&& !next.over()
            &&& next.failure.len() > 0
            &&& next.failure.last() == message
            &&& next.after(outcome, token).phase == publish::Phase::Failed
            &&& next.after(outcome, token).failure == next.failure
        }),
{
}

/// When new content could not be written, the old content is written back; when
/// that succeeds the backup is removed and the failure says so, and when it fails
/// the backup stays and the failure names it.
pub proof fn old_content_is_written_back(
    write: publish::WriteModel,
    exists: bool,
    message: Text,
    token: Text,
    bytes: Seq<u8>,
)
    requires
        write.phase == publish::Phase::Rewrite,
    ensures
        ({
            let next = write.after(OutcomeModel::Failed { exists, message }, token);
            let back = next.after(OutcomeModel::Done(bytes), token);
            let lost = next.after(OutcomeModel::Failed { exists, message }, token);
            &&& next.action() == ActionModel::RewriteTarget(write.old)
            &&& back.action() == ActionModel::Remove(write.temp)
            &&& back.failure == seq!["edit failed; the original file was restored"@, message]
            &&& back.after(OutcomeModel::Done(bytes), token).phase == publish::Phase::Failed
            &&& lost.phase == publish::Phase::Failed
            &&& lost.failure == seq![
                "edit failed; recovery backup remains at "@ + write.temp,
                message,
            ]
        }),
{
    assert(seq!["edit failed; the original file was restored"@] + seq![message] =~= seq![
        "edit failed; the original file was restored"@,
        message,
    ]);
    assert(seq!["edit failed; recovery backup remains at "@ + write.temp] + seq![message] =~= seq![
        "edit failed; recovery backup remains at "@ + write.temp,
        message,
    ]);
}

/// A moved link is moved back when the file that it leads to cannot be written,
/// before the failure is reported.
pub proof fn failed_link_moves_are_rolled_back(
    commit: CommitModel,
    from: Text,
    to: Text,
    update: TargetUpdateModel,
    outcome: OutcomeModel,
    token: Text,
    last: OutcomeModel,
)
    requires
        commit.wf(),
        commit.stage == Stage::Writing,
        commit.change() == (ChangeModel::MoveSymlink { from, to, target_update: Some(update) }),
        commit.write.after(outcome, token).phase == publish::Phase::Failed,
    ensures
        !commit.after(outcome, token).over(),
        commit.after(outcome, token).action() == (ActionModel::Rename { from: to, to: from }),
        commit.after(outcome, token).after(last, token).stage == Stage::Failed,
{
}

/// A change that fails ends the publishing: no later change is begun, and the
/// failure ends with the reason.
pub proof fn failed_changes_end_the_publishing(
    commit: CommitModel,
    exists: bool,
    message: Text,
    token: Text,
)
    requires
        commit.wf(),
        commit.stage == Stage::Removing || commit.stage == Stage::Renaming || commit.stage
            == Stage::MakingDirectory,
    ensures
        ({
            let next = commit.after(OutcomeModel::Failed { exists, message }, token);
            &&& next.stage == Stage::Failed
            &&& next.at == commit.at
            &&& next.failure.last() == message
        }),
{
}

} // verus!
