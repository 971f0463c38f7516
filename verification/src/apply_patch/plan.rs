//! From the operations of a patch and what stands on disk to the changes that
//! will be published.
use vstd::prelude::*;
use vstd::string::StrSliceExecFns;

use crate::apply_patch::chunks;
use crate::apply_patch::paths;
use crate::apply_patch::paths::{NormalPath, Place};
use crate::apply_patch::{Chunk, ChunkModel, Operation, OperationModel};
use crate::apply_patch;
use crate::bytes;
use crate::failure::Failure;
use crate::text;
use crate::text::Text;

verus! {

// ---------------------------------------------------------------------------
// What stands on disk
// ---------------------------------------------------------------------------
/// What a path names before the patch is applied.
#[derive(Debug)]
pub enum Entry {
    /// Nothing that can be examined, with the reason.
    Absent(String),
    /// A regular file, with its bytes and its text as far as they can be read.
    File { bytes: Result<Vec<u8>, String>, text: Result<String, String> },
    /// A symbolic link, with what it leads to.
    Symlink(Result<Target, String>),
    /// Anything else.
    Other,
}

/// What a symbolic link leads to.
#[derive(Debug)]
pub struct Target {
    pub path: String,
    pub state: TargetState,
}

/// Whether the end of a symbolic link is a file.
#[derive(Debug)]
pub enum TargetState {
    Absent(String),
    File(Result<String, String>),
    Other,
}

/// What stands at the path of an operation and at its destination.
#[derive(Debug)]
pub struct Facts {
    pub entry: Entry,
    pub destination_exists: bool,
}

/// The model of [`Entry`].
pub enum EntryModel {
    Absent(Text),
    File { bytes: Result<Seq<u8>, Text>, text: Result<Text, Text> },
    Symlink(Result<TargetModel, Text>),
    Other,
}

/// The model of [`Target`].
pub struct TargetModel {
    pub path: Text,
    pub state: TargetStateModel,
}

/// The model of [`TargetState`].
pub enum TargetStateModel {
    Absent(Text),
    File(Result<Text, Text>),
    Other,
}

/// The model of [`Facts`].
pub struct FactsModel {
    pub entry: EntryModel,
    pub destination_exists: bool,
}

pub open spec fn text_result(r: Result<String, String>) -> Result<Text, Text> {
    match r {
        Ok(s) => Ok(s@),
        Err(e) => Err(e@),
    }
}

pub open spec fn bytes_result(r: Result<Vec<u8>, String>) -> Result<Seq<u8>, Text> {
    match r {
        Ok(b) => Ok(b@),
        Err(e) => Err(e@),
    }
}

impl View for Target {
    type V = TargetModel;

    open spec fn view(&self) -> TargetModel {
        TargetModel {
            path: self.path@,
            state: match self.state {
                TargetState::Absent(e) => TargetStateModel::Absent(e@),
                TargetState::File(r) => TargetStateModel::File(text_result(r)),
                TargetState::Other => TargetStateModel::Other,
            },
        }
    }
}

impl View for Entry {
    type V = EntryModel;

    open spec fn view(&self) -> EntryModel {
        match self {
            Entry::Absent(e) => EntryModel::Absent(e@),
            Entry::File { bytes, text } => EntryModel::File {
                bytes: bytes_result(*bytes),
                text: text_result(*text),
            },
            Entry::Symlink(Ok(target)) => EntryModel::Symlink(Ok(target@)),
            Entry::Symlink(Err(e)) => EntryModel::Symlink(Err(e@)),
            Entry::Other => EntryModel::Other,
        }
    }
}

impl View for Facts {
    type V = FactsModel;

    open spec fn view(&self) -> FactsModel {
        FactsModel { entry: self.entry@, destination_exists: self.destination_exists }
    }
}

pub open spec fn facts_models(v: Seq<Facts>) -> Seq<FactsModel> {
    v.map_values(|f: Facts| f@)
}

// ---------------------------------------------------------------------------
// Planned changes
// ---------------------------------------------------------------------------
/// New content for the file that a moved symbolic link leads to.
#[derive(Debug)]
pub struct TargetUpdate {
    pub path: String,
    pub original: Vec<u8>,
    pub content: String,
}

/// One change that a patch makes on disk.
#[derive(Debug)]
pub enum PlannedChange {
    Add { path: String, content: String },
    Delete { path: String, regular: bool },
    Update { path: String, reported_path: String, original: Vec<u8>, content: String },
    Move { from: String, to: String, original: Vec<u8>, content: String },
    MoveSymlink { from: String, to: String, target_update: Option<TargetUpdate> },
}

/// The model of [`TargetUpdate`].
pub struct TargetUpdateModel {
    pub path: Text,
    pub original: Seq<u8>,
    pub content: Text,
}

/// The model of [`PlannedChange`].
pub enum ChangeModel {
    Add { path: Text, content: Text },
    Delete { path: Text, regular: bool },
    Update { path: Text, reported_path: Text, original: Seq<u8>, content: Text },
    Move { from: Text, to: Text, original: Seq<u8>, content: Text },
    MoveSymlink { from: Text, to: Text, target_update: Option<TargetUpdateModel> },
}

impl View for TargetUpdate {
    type V = TargetUpdateModel;

    open spec fn view(&self) -> TargetUpdateModel {
        TargetUpdateModel {
            path: self.path@,
            original: self.original@,
            content: self.content@,
        }
    }
}

impl View for PlannedChange {
    type V = ChangeModel;

    open spec fn view(&self) -> ChangeModel {
        match self {
            PlannedChange::Add { path, content } => ChangeModel::Add {
                path: path@,
                content: content@,
            },
            PlannedChange::Delete { path, regular } => ChangeModel::Delete {
                path: path@,
                regular: *regular,
            },
            PlannedChange::Update { path, reported_path, original, content } => {
                ChangeModel::Update {
                    path: path@,
                    reported_path: reported_path@,
                    original: original@,
                    content: content@,
                }
            },
            PlannedChange::Move { from, to, original, content } => ChangeModel::Move {
                from: from@,
                to: to@,
                original: original@,
                content: content@,
            },
            PlannedChange::MoveSymlink { from, to, target_update } => ChangeModel::MoveSymlink {
                from: from@,
                to: to@,
                target_update: match target_update {
                    Some(u) => Some(u@),
                    None => None,
                },
            },
        }
    }
}

pub open spec fn change_models(v: Seq<PlannedChange>) -> Seq<ChangeModel> {
    v.map_values(|c: PlannedChange| c@)
}

// ---------------------------------------------------------------------------
// Planning
// ---------------------------------------------------------------------------
/// Whether a later operation of the same patch may build on a change.
#[derive(Debug, Clone, Copy, PartialEq, Eq, Structural)]
pub enum Repeatable {
    No,
    Update,
}

/// A plan in the making: which change owns each claimed entry, the changes, and
/// for each change the path it was asked for under and whether it may repeat.
pub struct PlanModel {
    pub claims: Map<Place, int>,
    pub changes: Seq<ChangeModel>,
    pub reported: Seq<Text>,
    pub repeatable: Seq<Repeatable>,
}

pub open spec fn empty_plan() -> PlanModel {
    PlanModel {
        claims: Map::empty(),
        changes: Seq::empty(),
        reported: Seq::empty(),
        repeatable: Seq::empty(),
    }
}

impl PlanModel {
    /// Whether an entry is claimed.
    pub open spec fn claimed(self, path: Text) -> bool {
        self.claims.dom().contains(paths::place(path))
    }

    /// The change that owns a claimed entry.
    pub open spec fn owner(self, path: Text) -> int {
        self.claims[paths::place(path)]
    }

    /// The plan with an entry claimed for the next change.
    pub open spec fn claim(self, path: Text) -> PlanModel {
        PlanModel {
            claims: self.claims.insert(paths::place(path), self.changes.len() as int),
            ..self
        }
    }

    /// The plan with one more change.
    pub open spec fn with(
        self,
        change: ChangeModel,
        reported: Text,
        repeatable: Repeatable,
    ) -> PlanModel {
        PlanModel {
            claims: self.claims,
            changes: self.changes.push(change),
            reported: self.reported.push(reported),
            repeatable: self.repeatable.push(repeatable),
        }
    }

    /// The plan with one change replaced.
    pub open spec fn replaced(
        self,
        owner: int,
        change: ChangeModel,
        repeatable: Repeatable,
    ) -> PlanModel {
        PlanModel {
            changes: self.changes.update(owner, change),
            repeatable: self.repeatable.update(owner, repeatable),
            ..self
        }
    }
}

/// The outcome of planning: a plan, or the chain of messages.
pub type Planned = Result<PlanModel, Seq<Text>>;

pub open spec fn failed(message: Text) -> Planned {
    Err(seq![message])
}

pub open spec fn failed_because(message: Text, cause: Text) -> Planned {
    Err(seq![message, cause])
}

/// Two operations of one patch meet at an entry.
pub open spec fn conflict(reported: Text) -> Planned {
    failed("multiple operations target "@ + reported)
}

/// What is said when an operation would write over an existing entry.
pub open spec fn in_the_way(what: Text, path: Text) -> Text {
    what + path
        + "; inspect it first, then use run to move or remove the existing file before retrying apply_patch"@
}

/// The plan after an operation that adds a file.
///
/// A file may be added where nothing stands, or where the same patch deletes a
/// regular file under the same path: the deletion then becomes an update.
pub open spec fn add_planned(
    plan: PlanModel,
    full: Text,
    path: Text,
    content: Text,
    entry: EntryModel,
) -> Planned {
    if plan.claimed(full) {
        let owner = plan.owner(full);
        if paths::components(plan.reported[owner]) != paths::components(path) {
            conflict(path)
        } else if !(plan.changes[owner] matches ChangeModel::Delete { regular, .. } && regular) {
            conflict(path)
        } else {
            match entry {
                EntryModel::Absent(e) => failed_because(
                    "cannot replace missing file "@ + path,
                    e,
                ),
                EntryModel::File { bytes: Err(e), .. } => failed_because(
                    "reading file to replace "@ + path,
                    e,
                ),
                EntryModel::File { bytes: Ok(original), .. } => Ok(
                    plan.replaced(
                        owner,
                        ChangeModel::Update {
                            path: full,
                            reported_path: full,
                            original,
                            content,
                        },
                        Repeatable::No,
                    ),
                ),
                _ => conflict(path),
            }
        }
    } else if !(entry is Absent) {
        failed(in_the_way("add destination already exists: "@, path))
    } else {
        Ok(
            plan.claim(full).with(
                ChangeModel::Add { path: full, content },
                path,
                Repeatable::No,
            ),
        )
    }
}

/// The plan after an operation that deletes a file or a symbolic link.
pub open spec fn delete_planned(
    plan: PlanModel,
    full: Text,
    path: Text,
    entry: EntryModel,
) -> Planned {
    if plan.claimed(full) {
        conflict(path)
    } else {
        match entry {
            EntryModel::Absent(e) => failed_because("cannot delete missing file "@ + full, e),
            EntryModel::Other => failed("cannot delete non-file "@ + full),
            _ => Ok(
                plan.claim(full).with(
                    ChangeModel::Delete { path: full, regular: entry is File },
                    path,
                    Repeatable::No,
                ),
            ),
        }
    }
}

/// The plan after an update of an entry that the patch already claimed: the
/// hunks are applied to what the earlier update leaves.
pub open spec fn update_repeated(
    plan: PlanModel,
    full: Text,
    path: Text,
    move_to: Option<Text>,
    chunks: Seq<ChunkModel>,
) -> Planned {
    let owner = plan.owner(full);
    if paths::components(plan.reported[owner]) != paths::components(path) || move_to is Some
        || plan.repeatable[owner] != Repeatable::Update {
        conflict(path)
    } else {
        match plan.changes[owner] {
            ChangeModel::Update { path: target, reported_path, original, content } => {
                match chunks::applied(content, path, chunks) {
                    Err(message) => failed(message),
                    Ok(content) => Ok(
                        plan.replaced(
                            owner,
                            ChangeModel::Update { path: target, reported_path, original, content },
                            plan.repeatable[owner],
                        ),
                    ),
                }
            },
            _ => conflict(path),
        }
    }
}

/// The plan after an update of a symbolic link, once its path and destination
/// are claimed.
pub open spec fn symlink_planned(
    plan: PlanModel,
    full: Text,
    path: Text,
    destination: Option<Text>,
    chunks: Seq<ChunkModel>,
    target: Result<TargetModel, Text>,
) -> Planned {
    match (destination, target) {
        (Some(to), _) if chunks.len() == 0 => Ok(
            plan.with(
                ChangeModel::MoveSymlink { from: full, to, target_update: None },
                path,
                Repeatable::No,
            ),
        ),
        (_, Err(e)) => failed_because("resolving symlink to update "@ + path, e),
        (_, Ok(target)) => {
            if plan.claimed(target.path) {
                conflict(path)
            } else {
                let plan = plan.claim(target.path);
                match target.state {
                    TargetStateModel::Absent(e) => failed_because(
                        "cannot update symlink target missing file "@ + target.path,
                        e,
                    ),
                    TargetStateModel::Other => failed(
                        "cannot update symlink target non-regular file "@ + target.path,
                    ),
                    TargetStateModel::File(Err(e)) => failed_because(
                        "reading symlink target to update "@ + path,
                        e,
                    ),
                    TargetStateModel::File(Ok(original)) => match chunks::applied(
                        original,
                        path,
                        chunks,
                    ) {
                        Err(message) => failed(message),
                        Ok(content) => {
                            let bytes = vstd::utf8::encode_utf8(original);
                            match destination {
                                Some(to) => Ok(
                                    plan.with(
                                        ChangeModel::MoveSymlink {
                                            from: full,
                                            to,
                                            target_update: Some(
                                                TargetUpdateModel {
                                                    path: target.path,
                                                    original: bytes,
                                                    content,
                                                },
                                            ),
                                        },
                                        path,
                                        Repeatable::No,
                                    ),
                                ),
                                None => Ok(
                                    plan.with(
                                        ChangeModel::Update {
                                            path: target.path,
                                            reported_path: full,
                                            original: bytes,
                                            content,
                                        },
                                        path,
                                        Repeatable::Update,
                                    ),
                                ),
                            }
                        },
                    },
                }
            }
        },
    }
}

/// The plan after an update of a regular file, once its path and destination
/// are claimed. Without hunks the content stays as it is.
pub open spec fn file_planned(
    plan: PlanModel,
    full: Text,
    path: Text,
    destination: Option<Text>,
    chunks: Seq<ChunkModel>,
    text: Result<Text, Text>,
) -> Planned {
    match text {
        Err(e) => failed_because("reading file to update "@ + path, e),
        Ok(original) => {
            let content = if chunks.len() == 0 {
                Ok(original)
            } else {
                chunks::applied(original, path, chunks)
            };
            let bytes = vstd::utf8::encode_utf8(original);
            match content {
                Err(message) => failed(message),
                Ok(content) => match destination {
                    Some(to) => Ok(
                        plan.with(
                            ChangeModel::Move { from: full, to, original: bytes, content },
                            path,
                            Repeatable::No,
                        ),
                    ),
                    None => Ok(
                        plan.with(
                            ChangeModel::Update {
                                path: full,
                                reported_path: full,
                                original: bytes,
                                content,
                            },
                            path,
                            Repeatable::Update,
                        ),
                    ),
                },
            }
        },
    }
}

/// The plan after an update of an entry that the patch has not claimed yet.
pub open spec fn update_planned(
    plan: PlanModel,
    cwd: Text,
    path: Text,
    move_to: Option<Text>,
    chunks: Seq<ChunkModel>,
    facts: FactsModel,
) -> Planned {
    let full = paths::resolved(cwd, path);
    let own = plan.claim(full);
    let destination = match move_to {
        Some(to) => Some(paths::resolved(cwd, to)),
        None => None,
    };
    if destination is Some && own.claimed(destination->0) {
        conflict(move_to->0)
    } else if destination is Some && facts.destination_exists {
        failed(in_the_way("move destination already exists: "@, move_to->0))
    } else {
        let both = match destination {
            Some(to) => own.claim(to),
            None => own,
        };
        match facts.entry {
            EntryModel::Absent(e) => failed_because("cannot update missing file "@ + path, e),
            EntryModel::Symlink(target) => symlink_planned(
                both,
                full,
                path,
                destination,
                chunks,
                target,
            ),
            EntryModel::Other => failed("cannot update non-regular file "@ + path),
            EntryModel::File { text, .. } => file_planned(
                both,
                full,
                path,
                destination,
                chunks,
                text,
            ),
        }
    }
}

/// The plan after one operation.
pub open spec fn operation_planned(
    plan: PlanModel,
    cwd: Text,
    operation: OperationModel,
    facts: FactsModel,
) -> Planned {
    match operation {
        OperationModel::Add { path, content } => add_planned(
            plan,
            paths::resolved(cwd, path),
            path,
            content,
            facts.entry,
        ),
        OperationModel::Delete { path } => delete_planned(
            plan,
            paths::resolved(cwd, path),
            path,
            facts.entry,
        ),
        OperationModel::Update { path, move_to, chunks } => if plan.claimed(
            paths::resolved(cwd, path),
        ) {
            update_repeated(plan, paths::resolved(cwd, path), path, move_to, chunks)
        } else {
            update_planned(plan, cwd, path, move_to, chunks, facts)
        },
    }
}

/// The plan after the operations from number `n` on.
pub open spec fn operations_planned(
    plan: PlanModel,
    cwd: Text,
    operations: Seq<OperationModel>,
    facts: Seq<FactsModel>,
    n: int,
) -> Planned
    decreases operations.len() - n,
{
    if n >= operations.len() {
        Ok(plan)
    } else {
        match operation_planned(plan, cwd, operations[n], facts[n]) {
            Err(chain) => Err(chain),
            Ok(next) => operations_planned(next, cwd, operations, facts, n + 1),
        }
    }
}


// ---------------------------------------------------------------------------
// Laws
// ---------------------------------------------------------------------------
/// The entries that a change reads, writes, creates or takes away.
pub open spec fn touched(change: ChangeModel) -> Set<Place> {
    match change {
        ChangeModel::Add { path, .. } => set![paths::place(path)],
        ChangeModel::Delete { path, .. } => set![paths::place(path)],
        ChangeModel::Update { path, reported_path, .. } => {
            set![paths::place(path), paths::place(reported_path)]
        },
        ChangeModel::Move { from, to, .. } => set![paths::place(from), paths::place(to)],
        ChangeModel::MoveSymlink { from, to, target_update: None } => {
            set![paths::place(from), paths::place(to)]
        },
        ChangeModel::MoveSymlink { from, to, target_update: Some(update) } => {
            set![paths::place(from), paths::place(to), paths::place(update.path)]
        },
    }
}

/// A plan whose lists agree, whose claims belong to changes that exist, and in
/// which each change owns every entry that it touches.
pub open spec fn sound(plan: PlanModel) -> bool {
    &&& plan.reported.len() == plan.changes.len()
    &&& plan.repeatable.len() == plan.changes.len()
    &&& owners_within(plan.claims, plan.changes.len() as int)
    &&& forall|i: int, p: Place|
        0 <= i < plan.changes.len() && #[trigger] touched(plan.changes[i]).contains(p)
            ==> plan.claims.dom().contains(p) && plan.claims[p] == i
}

/// Each claim belongs to one of the first `n` changes.
pub open spec fn owners_within(claims: Map<Place, int>, n: int) -> bool {
    forall|p: Place| #[trigger] claims.dom().contains(p) ==> 0 <= claims[p] < n
}

/// Adding a change after its entries were claimed for it.
proof fn lemma_with(before: PlanModel, plan: PlanModel, change: ChangeModel, reported: Text, r: Repeatable)
    requires
        sound(before),
        plan.changes == before.changes,
        plan.reported == before.reported,
        plan.repeatable == before.repeatable,
        forall|p: Place| #[trigger]
            plan.claims.dom().contains(p) ==> plan.claims[p] == before.changes.len() || (
            before.claims.dom().contains(p) && plan.claims[p] == before.claims[p]),
        forall|p: Place| #[trigger]
            before.claims.dom().contains(p) ==> plan.claims.dom().contains(p) && plan.claims[p]
                == before.claims[p],
        forall|p: Place| #[trigger]
            touched(change).contains(p) ==> plan.claims.dom().contains(p) && plan.claims[p]
                == before.changes.len(),
    ensures
        sound(plan.with(change, reported, r)),
{
    let next = plan.with(change, reported, r);
    assert forall|i: int, p: Place|
        0 <= i < next.changes.len() && #[trigger] touched(next.changes[i]).contains(
            p,
        ) implies next.claims.dom().contains(p) && next.claims[p] == i by {
        if i < before.changes.len() {
            assert(next.changes[i] == before.changes[i]);
            assert(touched(before.changes[i]).contains(p));
            assert(before.claims.dom().contains(p));
        }
    }
}

/// Replacing a change by one that touches no more than its claims.
proof fn lemma_replaced(plan: PlanModel, owner: int, change: ChangeModel, r: Repeatable)
    requires
        sound(plan),
        0 <= owner < plan.changes.len(),
        forall|p: Place| #[trigger]
            touched(change).contains(p) ==> plan.claims.dom().contains(p) && plan.claims[p]
                == owner,
    ensures
        sound(plan.replaced(owner, change, r)),
{
    let next = plan.replaced(owner, change, r);
    assert forall|i: int, p: Place|
        0 <= i < next.changes.len() && #[trigger] touched(next.changes[i]).contains(
            p,
        ) implies next.claims.dom().contains(p) && next.claims[p] == i by {
        if i != owner {
            assert(next.changes[i] == plan.changes[i]);
            assert(touched(plan.changes[i]).contains(p));
        }
    }
}

proof fn lemma_update_sound(
    plan: PlanModel,
    cwd: Text,
    path: Text,
    move_to: Option<Text>,
    chunks: Seq<ChunkModel>,
    facts: FactsModel,
)
    requires
        sound(plan),
        !plan.claimed(paths::resolved(cwd, path)),
    ensures
        update_planned(plan, cwd, path, move_to, chunks, facts) matches Ok(next) ==> sound(next)
            && next.changes.len() == plan.changes.len() + 1,
{
    let full = paths::resolved(cwd, path);
    let own = plan.claim(full);
    let both = match move_to {
        Some(to) => own.claim(paths::resolved(cwd, to)),
        None => own,
    };
    if let Ok(next) = update_planned(plan, cwd, path, move_to, chunks, facts) {
        let change = next.changes.last();
        let r = next.repeatable.last();
        match facts.entry {
            EntryModel::Symlink(Ok(target)) if !(move_to is Some && chunks.len() == 0) => {
                lemma_with(plan, both.claim(target.path), change, path, r);
                assert(next =~= both.claim(target.path).with(change, path, r));
            },
            _ => {
                lemma_with(plan, both, change, path, r);
                assert(next =~= both.with(change, path, r));
            },
        }
    }
}

/// One operation keeps a plan sound.
pub proof fn operation_keeps_plan_sound(
    plan: PlanModel,
    cwd: Text,
    operation: OperationModel,
    facts: FactsModel,
)
    requires
        sound(plan),
    ensures
        operation_planned(plan, cwd, operation, facts) matches Ok(next) ==> sound(next),
{
    match operation {
        OperationModel::Add { path, content } => {
            let full = paths::resolved(cwd, path);
            if plan.claimed(full) {
                assert(plan.claims.dom().contains(paths::place(full)));
                if let Ok(next) = operation_planned(plan, cwd, operation, facts) {
                    let owner = plan.owner(full);
                    lemma_replaced(plan, owner, next.changes[owner], Repeatable::No);
                }
            } else {
                lemma_with(
                    plan,
                    plan.claim(full),
                    ChangeModel::Add { path: full, content },
                    path,
                    Repeatable::No,
                );
            }
        },
        OperationModel::Delete { path } => {
            let full = paths::resolved(cwd, path);
            if !plan.claimed(full) {
                lemma_with(
                    plan,
                    plan.claim(full),
                    ChangeModel::Delete { path: full, regular: facts.entry is File },
                    path,
                    Repeatable::No,
                );
            }
        },
        OperationModel::Update { path, move_to, chunks } => {
            let full = paths::resolved(cwd, path);
            if plan.claimed(full) {
                assert(plan.claims.dom().contains(paths::place(full)));
                if let Ok(next) = operation_planned(plan, cwd, operation, facts) {
                    let owner = plan.owner(full);
                    let change = next.changes[owner];
                    assert forall|p: Place| #[trigger] touched(change).contains(p) implies
                        plan.claims.dom().contains(p) && plan.claims[p] == owner by {
                        assert(touched(plan.changes[owner]).contains(p));
                    }
                    lemma_replaced(plan, owner, change, plan.repeatable[owner]);
                }
            } else {
                lemma_update_sound(plan, cwd, path, move_to, chunks, facts);
            }
        },
    }
}

proof fn lemma_operations_sound(
    plan: PlanModel,
    cwd: Text,
    operations: Seq<OperationModel>,
    facts: Seq<FactsModel>,
    n: int,
)
    requires
        sound(plan),
    ensures
        operations_planned(plan, cwd, operations, facts, n) matches Ok(last) ==> sound(last),
    decreases operations.len() - n,
{
    if n < operations.len() {
        operation_keeps_plan_sound(plan, cwd, operations[n], facts[n]);
        if let Ok(next) = operation_planned(plan, cwd, operations[n], facts[n]) {
            lemma_operations_sound(next, cwd, operations, facts, n + 1);
        }
    }
}

/// No two changes of a plan touch the same entry, so that the changes can be
/// published one after the other without one undoing another.
pub proof fn changes_are_disjoint(
    cwd: Text,
    operations: Seq<OperationModel>,
    facts: Seq<FactsModel>,
    plan: PlanModel,
    i: int,
    j: int,
)
    requires
        operations_planned(empty_plan(), cwd, operations, facts, 0) == Ok::<
            PlanModel,
            Seq<Text>,
        >(plan),
        0 <= i < j < plan.changes.len(),
    ensures
        touched(plan.changes[i]).disjoint(touched(plan.changes[j])),
{
    lemma_operations_sound(empty_plan(), cwd, operations, facts, 0);
}

/// Two updates of one file in one patch do what their hunks do one after the
/// other: the second works on what the first leaves, and the file is still
/// expected to hold what it held before the patch.
pub proof fn repeated_updates_compose(
    cwd: Text,
    path: Text,
    first: Seq<ChunkModel>,
    second: Seq<ChunkModel>,
    facts: Seq<FactsModel>,
    original: Text,
)
    requires
        facts.len() == 2,
        facts[0].entry matches EntryModel::File { text, .. } && text == Ok::<Text, Text>(original),
        first.len() > 0,
        second.len() > 0,
    ensures
        operations_planned(
            empty_plan(),
            cwd,
            seq![
                OperationModel::Update { path, move_to: None, chunks: first },
                OperationModel::Update { path, move_to: None, chunks: second },
            ],
            facts,
            0,
        ) == match chunks::applied(original, path, first) {
            Err(message) => failed(message),
            Ok(middle) => match chunks::applied(middle, path, second) {
                Err(message) => failed(message),
                Ok(content) => Ok(
                    empty_plan().claim(paths::resolved(cwd, path)).with(
                        ChangeModel::Update {
                            path: paths::resolved(cwd, path),
                            reported_path: paths::resolved(cwd, path),
                            original: vstd::utf8::encode_utf8(original),
                            content,
                        },
                        path,
                        Repeatable::Update,
                    ),
                ),
            },
        },
{
    let ops = seq![
        OperationModel::Update { path, move_to: None, chunks: first },
        OperationModel::Update { path, move_to: None, chunks: second },
    ];
    reveal_with_fuel(operations_planned, 3);
    let full = paths::resolved(cwd, path);
    if let Ok(middle) = chunks::applied(original, path, first) {
        let change = ChangeModel::Update {
            path: full,
            reported_path: full,
            original: vstd::utf8::encode_utf8(original),
            content: middle,
        };
        let one = empty_plan().claim(full).with(change, path, Repeatable::Update);
        assert(operation_planned(empty_plan(), cwd, ops[0], facts[0]) == Ok::<
            PlanModel,
            Seq<Text>,
        >(one));
        assert(one.claimed(full) && one.owner(full) == 0);
        if let Ok(content) = chunks::applied(middle, path, second) {
            let last = ChangeModel::Update {
                path: full,
                reported_path: full,
                original: vstd::utf8::encode_utf8(original),
                content,
            };
            let goal = empty_plan().claim(full).with(last, path, Repeatable::Update);
            let two = one.replaced(0, last, Repeatable::Update);
            assert(two.changes =~= goal.changes);
            assert(two.repeatable =~= goal.repeatable);
            assert(two == goal);
        }
    }
}

// ---------------------------------------------------------------------------
// Doing it
// ---------------------------------------------------------------------------
struct Claim {
    place: NormalPath,
    owner: usize,
}

spec fn claims_of(v: Seq<Claim>) -> Map<Place, int>
    decreases v.len(),
{
    if v.len() == 0 {
        Map::empty()
    } else {
        claims_of(v.drop_last()).insert(v.last().place@, v.last().owner as int)
    }
}

struct Plan {
    claims: Vec<Claim>,
    changes: Vec<PlannedChange>,
    reported: Vec<String>,
    repeatable: Vec<Repeatable>,
}

impl View for Plan {
    type V = PlanModel;

    closed spec fn view(&self) -> PlanModel {
        PlanModel {
            claims: claims_of(self.claims@),
            changes: change_models(self.changes@),
            reported: text::strings(self.reported@),
            repeatable: self.repeatable@,
        }
    }
}

impl Plan {
    spec fn wf(self) -> bool {
        &&& self.changes@.len() == self.reported@.len()
        &&& self.changes@.len() == self.repeatable@.len()
    }

    /// The change that owns the entry that a path names.
    fn owner_of(&self, path: &str) -> (r: Option<usize>)
        ensures
            match r {
                Some(owner) => self@.claimed(path@) && self@.owner(path@) == owner,
                None => !self@.claimed(path@),
            },
    {
        let wanted = paths::normalize_path(path);
        let mut i: usize = self.claims.len();
        assert(self.claims@.take(i as int) =~= self.claims@);
        while i > 0
            invariant
                i <= self.claims@.len(),
                wanted@ == paths::place(path@),
                claims_of(self.claims@).dom().contains(wanted@) == claims_of(
                    self.claims@.take(i as int),
                ).dom().contains(wanted@),
                claims_of(self.claims@)[wanted@] == claims_of(self.claims@.take(i as int))[wanted@],
            decreases i,
        {
            let claim = &self.claims[i - 1];
            assert(self.claims@.take(i as int).last() == claim);
            assert(self.claims@.take(i as int).drop_last() =~= self.claims@.take(i - 1));
            if claim.place.same(&wanted) {
                return Some(claim.owner);
            }
            i = i - 1;
        }
        None
    }

    /// Claims an entry for the next change.
    fn add_claim(&mut self, path: &str)
        ensures
            final(self)@ == old(self)@.claim(path@),
            final(self).changes == old(self).changes,
            final(self).reported == old(self).reported,
            final(self).repeatable == old(self).repeatable,
    {
        let owner = self.changes.len();
        let ghost before = self.claims@;
        let claim = Claim { place: paths::normalize_path(path), owner };
        self.claims.push(claim);
        assert(self.claims@.drop_last() =~= before);
    }

    /// Claims an entry for the next change unless another operation has it.
    fn claim_path(&mut self, path: &str, reported: &str) -> (r: Result<(), Failure>)
        ensures
            match r {
                Ok(()) => !old(self)@.claimed(path@) && final(self)@ == old(self)@.claim(path@)
                    && final(self).changes == old(self).changes && final(self).reported == old(
                    self,
                ).reported && final(self).repeatable == old(self).repeatable,
                Err(failure) => old(self)@.claimed(path@) && Err::<PlanModel, Seq<Text>>(failure@)
                    == conflict(reported@),
            },
    {
        match self.owner_of(path) {
            Some(_) => Err(conflicting_operation(reported)),
            None => {
                self.add_claim(path);
                Ok(())
            },
        }
    }

    fn add_change(&mut self, change: PlannedChange, reported: &str, repeatable: Repeatable)
        requires
            old(self).wf(),
        ensures
            final(self).wf(),
            final(self)@ == old(self)@.with(change@, reported@, repeatable),
    {
        let ghost changes = self.changes@;
        let ghost names = self.reported@;
        self.changes.push(change);
        self.reported.push(reported.to_string());
        self.repeatable.push(repeatable);
        assert(change_models(self.changes@) =~= change_models(changes).push(change@));
        assert(text::strings(self.reported@) =~= text::strings(names).push(reported@));
    }

    fn replace_change(&mut self, owner: usize, change: PlannedChange, repeatable: Repeatable)
        requires
            old(self).wf(),
            owner < old(self).changes@.len(),
        ensures
            final(self).wf(),
            final(self)@ == old(self)@.replaced(owner as int, change@, repeatable),
    {
        let ghost changes = self.changes@;
        self.changes.set(owner, change);
        self.repeatable.set(owner, repeatable);
        assert(change_models(self.changes@) =~= change_models(changes).update(
            owner as int,
            change@,
        ));
    }
}

/// The failure of an operation that meets another one of the same patch.
pub fn conflicting_operation(reported: &str) -> (r: Failure)
    ensures
        Err::<PlanModel, Seq<Text>>(r@) == conflict(reported@),
{
    let mut message = "multiple operations target ".to_string();
    message.append(reported);
    Failure::new(message)
}

fn failure_on(what: &str, path: &str) -> (r: Failure)
    ensures
        r@ == seq![what@ + path@],
{
    let mut message = what.to_string();
    message.append(path);
    Failure::new(message)
}

fn failure_from(what: &str, path: &str, cause: &str) -> (r: Failure)
    ensures
        r@ == seq![what@ + path@, cause@],
{
    let mut message = what.to_string();
    message.append(path);
    Failure::because(message, cause)
}

fn entry_in_the_way(what: &str, path: &str) -> (r: Failure)
    ensures
        r@ == seq![in_the_way(what@, path@)],
{
    let mut message = what.to_string();
    message.append(path);
    message.append(
        "; inspect it first, then use run to move or remove the existing file before retrying apply_patch",
    );
    Failure::new(message)
}

/// Whether a step of the planner did what the plan model says.
spec fn agrees(after: Plan, r: Result<(), Failure>, goal: Planned) -> bool {
    match r {
        Ok(()) => goal == Ok::<PlanModel, Seq<Text>>(after@) && after.wf(),
        Err(failure) => goal == Err::<PlanModel, Seq<Text>>(failure@),
    }
}

fn plan_add(plan: &mut Plan, full: String, path: &str, content: &str, entry: &Entry) -> (r: Result<
    (),
    Failure,
>)
    requires
        old(plan).wf(),
        owners_within(old(plan)@.claims, old(plan).changes@.len() as int),
    ensures
        agrees(*final(plan), r, add_planned(old(plan)@, full@, path@, content@, entry@)),
{
    if let Some(owner) = plan.owner_of(full.as_str()) {
        assert(plan@.claims.dom().contains(paths::place(full@)));
        assert(plan@.reported[owner as int] == plan.reported@[owner as int]@);
        assert(plan@.changes[owner as int] == plan.changes@[owner as int]@);
        if !paths::same_path(plan.reported[owner].as_str(), path) {
            return Err(conflicting_operation(path));
        }
        let replaceable = match &plan.changes[owner] {
            PlannedChange::Delete { regular, .. } => *regular,
            _ => false,
        };
        if !replaceable {
            return Err(conflicting_operation(path));
        }
        match entry {
            Entry::Absent(e) => Err(
                failure_from("cannot replace missing file ", path, e.as_str()),
            ),
            Entry::File { bytes: Err(e), .. } => Err(
                failure_from("reading file to replace ", path, e.as_str()),
            ),
            Entry::File { bytes: Ok(original), .. } => {
                let original = bytes::copy_bytes(original);
                let change = PlannedChange::Update {
                    path: full.clone(),
                    reported_path: full,
                    original,
                    content: content.to_string(),
                };
                plan.replace_change(owner, change, Repeatable::No);
                Ok(())
            },
            _ => Err(conflicting_operation(path)),
        }
    } else {
        match entry {
            Entry::Absent(_) => {
                plan.add_claim(full.as_str());
                let change = PlannedChange::Add { path: full, content: content.to_string() };
                plan.add_change(change, path, Repeatable::No);
                Ok(())
            },
            _ => Err(entry_in_the_way("add destination already exists: ", path)),
        }
    }
}

fn plan_delete(plan: &mut Plan, full: String, path: &str, entry: &Entry) -> (r: Result<(), Failure>)
    requires
        old(plan).wf(),
    ensures
        agrees(*final(plan), r, delete_planned(old(plan)@, full@, path@, entry@)),
{
    if plan.owner_of(full.as_str()).is_some() {
        return Err(conflicting_operation(path));
    }
    let regular = match entry {
        Entry::Absent(e) => {
            return Err(failure_from("cannot delete missing file ", full.as_str(), e.as_str()));
        },
        Entry::Other => {
            return Err(failure_on("cannot delete non-file ", full.as_str()));
        },
        Entry::File { .. } => true,
        Entry::Symlink(_) => false,
    };
    plan.add_claim(full.as_str());
    plan.add_change(PlannedChange::Delete { path: full, regular }, path, Repeatable::No);
    Ok(())
}

fn plan_repeated(
    plan: &mut Plan,
    owner: usize,
    path: &str,
    moves: bool,
    chunks: &Vec<Chunk>,
    Ghost(full): Ghost<Text>,
    Ghost(move_to): Ghost<Option<Text>>,
) -> (r: Result<(), Failure>)
    requires
        old(plan).wf(),
        owner < old(plan).changes@.len(),
        owner == old(plan)@.owner(full),
        moves == (move_to is Some),
    ensures
        agrees(
            *final(plan),
            r,
            update_repeated(
                old(plan)@,
                full,
                path@,
                move_to,
                apply_patch::chunk_models(chunks@),
            ),
        ),
{
    assert(plan@.reported[owner as int] == plan.reported@[owner as int]@);
    assert(plan@.changes[owner as int] == plan.changes@[owner as int]@);
    if !paths::same_path(plan.reported[owner].as_str(), path) || moves || plan.repeatable[owner]
        != Repeatable::Update {
        return Err(conflicting_operation(path));
    }
    let repeatable = plan.repeatable[owner];
    match &plan.changes[owner] {
        PlannedChange::Update { path: target, reported_path, original, content } => {
            let next = match chunks::apply_chunks(content.as_str(), path, chunks) {
                Ok(next) => next,
                Err(message) => {
                    return Err(Failure::new(message));
                },
            };
            let change = PlannedChange::Update {
                path: target.clone(),
                reported_path: reported_path.clone(),
                original: bytes::copy_bytes(original),
                content: next,
            };
            plan.replace_change(owner, change, repeatable);
            Ok(())
        },
        _ => Err(conflicting_operation(path)),
    }
}

fn plan_symlink(
    plan: &mut Plan,
    full: String,
    path: &str,
    destination: Option<String>,
    chunks: &Vec<Chunk>,
    target: &Result<Target, String>,
) -> (r: Result<(), Failure>)
    requires
        old(plan).wf(),
    ensures
        agrees(
            *final(plan),
            r,
            symlink_planned(
                old(plan)@,
                full@,
                path@,
                text::opt_text(destination),
                apply_patch::chunk_models(chunks@),
                match *target {
                    Ok(t) => Ok(t@),
                    Err(e) => Err(e@),
                },
            ),
        ),
{
    assert(apply_patch::chunk_models(chunks@).len() == chunks@.len());
    if chunks.len() == 0 && destination.is_some() {
        if let Some(to) = destination {
            let change = PlannedChange::MoveSymlink { from: full, to, target_update: None };
            plan.add_change(change, path, Repeatable::No);
        }
        return Ok(());
    }
    let target = match target {
        Err(e) => {
            return Err(failure_from("resolving symlink to update ", path, e.as_str()));
        },
        Ok(target) => target,
    };
    if let Err(failure) = plan.claim_path(target.path.as_str(), path) {
        return Err(failure);
    }
    let original = match &target.state {
        TargetState::Absent(e) => {
            return Err(
                failure_from(
                    "cannot update symlink target missing file ",
                    target.path.as_str(),
                    e.as_str(),
                ),
            );
        },
        TargetState::Other => {
            return Err(
                failure_on(
                    "cannot update symlink target non-regular file ",
                    target.path.as_str(),
                ),
            );
        },
        TargetState::File(Err(e)) => {
            return Err(failure_from("reading symlink target to update ", path, e.as_str()));
        },
        TargetState::File(Ok(original)) => original,
    };
    let content = match chunks::apply_chunks(original.as_str(), path, chunks) {
        Ok(content) => content,
        Err(message) => {
            return Err(Failure::new(message));
        },
    };
    let bytes = original.as_str().as_bytes_vec();
    match destination {
        Some(to) => {
            let update = TargetUpdate { path: target.path.clone(), original: bytes, content };
            let change = PlannedChange::MoveSymlink {
                from: full,
                to,
                target_update: Some(update),
            };
            plan.add_change(change, path, Repeatable::No);
        },
        None => {
            let change = PlannedChange::Update {
                path: target.path.clone(),
                reported_path: full,
                original: bytes,
                content,
            };
            plan.add_change(change, path, Repeatable::Update);
        },
    }
    Ok(())
}

fn plan_file(
    plan: &mut Plan,
    full: String,
    path: &str,
    destination: Option<String>,
    chunks: &Vec<Chunk>,
    text: &Result<String, String>,
) -> (r: Result<(), Failure>)
    requires
        old(plan).wf(),
    ensures
        agrees(
            *final(plan),
            r,
            file_planned(
                old(plan)@,
                full@,
                path@,
                text::opt_text(destination),
                apply_patch::chunk_models(chunks@),
                text_result(*text),
            ),
        ),
{
    assert(apply_patch::chunk_models(chunks@).len() == chunks@.len());
    let original = match text {
        Err(e) => {
            return Err(failure_from("reading file to update ", path, e.as_str()));
        },
        Ok(original) => original,
    };
    let content = if chunks.len() == 0 {
        original.clone()
    } else {
        match chunks::apply_chunks(original.as_str(), path, chunks) {
            Ok(content) => content,
            Err(message) => {
                return Err(Failure::new(message));
            },
        }
    };
    let bytes = original.as_str().as_bytes_vec();
    match destination {
        Some(to) => {
            let change = PlannedChange::Move { from: full, to, original: bytes, content };
            plan.add_change(change, path, Repeatable::No);
        },
        None => {
            let change = PlannedChange::Update {
                path: full.clone(),
                reported_path: full,
                original: bytes,
                content,
            };
            plan.add_change(change, path, Repeatable::Update);
        },
    }
    Ok(())
}

fn plan_update(
    plan: &mut Plan,
    cwd: &str,
    path: &str,
    move_to: &Option<String>,
    chunks: &Vec<Chunk>,
    facts: &Facts,
) -> (r: Result<(), Failure>)
    requires
        old(plan).wf(),
    ensures
        agrees(
            *final(plan),
            r,
            update_planned(
                old(plan)@,
                cwd@,
                path@,
                text::opt_text(*move_to),
                apply_patch::chunk_models(chunks@),
                facts@,
            ),
        ),
{
    let full = paths::resolve_path(cwd, path);
    plan.add_claim(full.as_str());
    let destination = match move_to {
        Some(to) => {
            let resolved = paths::resolve_path(cwd, to.as_str());
            if let Err(failure) = plan.claim_path(resolved.as_str(), to.as_str()) {
                return Err(failure);
            }
            if facts.destination_exists {
                return Err(entry_in_the_way("move destination already exists: ", to.as_str()));
            }
            Some(resolved)
        },
        None => None,
    };
    match &facts.entry {
        Entry::Absent(e) => Err(failure_from("cannot update missing file ", path, e.as_str())),
        Entry::Symlink(target) => plan_symlink(plan, full, path, destination, chunks, target),
        Entry::Other => Err(failure_on("cannot update non-regular file ", path)),
        Entry::File { text, .. } => plan_file(plan, full, path, destination, chunks, text),
    }
}

/// The changes that a patch makes of what stands on disk.
///
/// `facts` says of each operation what its path names. Success is owed exactly
/// where [`operations_planned`] succeeds; nothing has been written by then.
pub fn preflight(cwd: &str, operations: &Vec<Operation>, facts: &Vec<Facts>) -> (r: Result<
    Vec<PlannedChange>,
    Failure,
>)
    requires
        facts@.len() == operations@.len(),
        apply_patch::complete(apply_patch::operation_models(operations@)),
    ensures
        match r {
            Ok(changes) => operations_planned(
                empty_plan(),
                cwd@,
                apply_patch::operation_models(operations@),
                facts_models(facts@),
                0,
            ) matches Ok(plan) && plan.changes == change_models(changes@),
            Err(failure) => operations_planned(
                empty_plan(),
                cwd@,
                apply_patch::operation_models(operations@),
                facts_models(facts@),
                0,
            ) == Err::<PlanModel, Seq<Text>>(failure@),
        },
{
    let ghost ops = apply_patch::operation_models(operations@);
    let ghost known = facts_models(facts@);
    let mut plan = Plan {
        claims: Vec::new(),
        changes: Vec::new(),
        reported: Vec::new(),
        repeatable: Vec::new(),
    };
    assert(plan@.changes =~= empty_plan().changes);
    assert(plan@.reported =~= empty_plan().reported);
    assert(plan@.repeatable =~= empty_plan().repeatable);
    let ghost whole = operations_planned(empty_plan(), cwd@, ops, known, 0);
    let mut i: usize = 0;
    while i < operations.len()
        invariant
            ops == apply_patch::operation_models(operations@),
            known == facts_models(facts@),
            facts@.len() == operations@.len(),
            i <= operations@.len(),
            whole == operations_planned(empty_plan(), cwd@, ops, known, 0),
            whole == operations_planned(plan@, cwd@, ops, known, i as int),
            plan.wf(),
            sound(plan@),
        decreases operations@.len() - i,
    {
        assert(ops[i as int] == operations@[i as int]@);
        assert(known[i as int] == facts@[i as int]@);
        let fact = &facts[i];
        let ghost before = plan@;
        proof {
            operation_keeps_plan_sound(before, cwd@, ops[i as int], known[i as int]);
        }
        let step = match &operations[i] {
            Operation::Add { path, content } => {
                let full = paths::resolve_path(cwd, path.as_str());
                plan_add(&mut plan, full, path.as_str(), content.as_str(), &fact.entry)
            },
            Operation::Delete { path } => {
                let full = paths::resolve_path(cwd, path.as_str());
                plan_delete(&mut plan, full, path.as_str(), &fact.entry)
            },
            Operation::Update { path, move_to, chunks } => {
                let full = paths::resolve_path(cwd, path.as_str());
                match plan.owner_of(full.as_str()) {
                    Some(owner) => {
                        assert(plan@.claims.dom().contains(paths::place(full@)));
                        plan_repeated(
                            &mut plan,
                            owner,
                            path.as_str(),
                            move_to.is_some(),
                            chunks,
                            Ghost(full@),
                            Ghost(text::opt_text(*move_to)),
                        )
                    },
                    None => plan_update(&mut plan, cwd, path.as_str(), move_to, chunks, fact),
                }
            },
        };
        match step {
            Err(failure) => {
                return Err(failure);
            },
            Ok(()) => {},
        }
        i = i + 1;
    }
    Ok(plan.changes)
}

} // verus!
