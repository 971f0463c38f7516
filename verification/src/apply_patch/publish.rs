//! Writing one file so that its old content is never lost: the steps, what
//! follows from how each one ends, and the failures they report.
use vstd::prelude::*;
use vstd::string::StrSliceExecFns;

use crate::apply_patch::paths;
use crate::bytes;
use crate::crypto;
use crate::failure::Failure;
use crate::text::Text;

verus! {

/// How often another name is tried for a temporary file.
pub const MAX_ATTEMPTS: u8 = 32;

// ---------------------------------------------------------------------------
// Actions and outcomes
// ---------------------------------------------------------------------------
/// One thing to do on the file system.
#[derive(Debug)]
pub enum FsAction {
    /// Create a directory and those above it.
    MakeDirectory(String),
    /// Create a private file that must not exist, and hold it open.
    CreateNew(String),
    /// Write the bytes to the created file and flush it to disk.
    WriteNew(Vec<u8>),
    /// Give a file a second name that must not exist.
    Link { from: String, to: String },
    /// Remove a name.
    Remove(String),
    /// Open a file for reading and writing, and hold it open.
    OpenTarget(String),
    /// Lock the opened file.
    LockTarget,
    /// Read the opened file from its start.
    ReadTarget,
    /// Replace the content of the opened file and flush it to disk.
    RewriteTarget(Vec<u8>),
    /// Give an entry another name.
    Rename { from: String, to: String },
}

/// The model of [`FsAction`].
pub enum ActionModel {
    MakeDirectory(Text),
    CreateNew(Text),
    WriteNew(Seq<u8>),
    Link { from: Text, to: Text },
    Remove(Text),
    OpenTarget(Text),
    LockTarget,
    ReadTarget,
    RewriteTarget(Seq<u8>),
    Rename { from: Text, to: Text },
}

impl View for FsAction {
    type V = ActionModel;

    open spec fn view(&self) -> ActionModel {
        match self {
            FsAction::MakeDirectory(p) => ActionModel::MakeDirectory(p@),
            FsAction::CreateNew(p) => ActionModel::CreateNew(p@),
            FsAction::WriteNew(b) => ActionModel::WriteNew(b@),
            FsAction::Link { from, to } => ActionModel::Link { from: from@, to: to@ },
            FsAction::Remove(p) => ActionModel::Remove(p@),
            FsAction::OpenTarget(p) => ActionModel::OpenTarget(p@),
            FsAction::LockTarget => ActionModel::LockTarget,
            FsAction::ReadTarget => ActionModel::ReadTarget,
            FsAction::RewriteTarget(b) => ActionModel::RewriteTarget(b@),
            FsAction::Rename { from, to } => ActionModel::Rename { from: from@, to: to@ },
        }
    }
}

/// How an action ended. Only reading gives bytes.
#[derive(Debug)]
pub enum Outcome {
    Done(Vec<u8>),
    Failed { exists: bool, message: String },
}

/// The model of [`Outcome`].
pub enum OutcomeModel {
    Done(Seq<u8>),
    Failed { exists: bool, message: Text },
}

impl View for Outcome {
    type V = OutcomeModel;

    open spec fn view(&self) -> OutcomeModel {
        match self {
            Outcome::Done(b) => OutcomeModel::Done(b@),
            Outcome::Failed { exists, message } => OutcomeModel::Failed {
                exists: *exists,
                message: message@,
            },
        }
    }
}

// ---------------------------------------------------------------------------
// One file
// ---------------------------------------------------------------------------
/// Where the writing of a file stands.
#[derive(Debug, Clone, Copy, PartialEq, Eq, Structural)]
pub enum Phase {
    MakeParent,
    MakeTempDirectory,
    CreateTemp(u8),
    WriteTemp,
    LinkTemp,
    RemoveTemp,
    DiscardTemp,
    Open,
    Lock,
    Read,
    MakeBackupDirectory,
    CreateBackup(u8),
    WriteBackup,
    DiscardBackup,
    Rewrite,
    Restore,
    RemoveRestored,
    RemoveBackup,
    Finished,
    Failed,
}

/// The writing of one file: a new one, or new content for an existing one.
pub struct WriteModel {
    pub path: Text,
    pub content: Text,
    pub replace: bool,
    pub expected: Option<Seq<u8>>,
    pub phase: Phase,
    pub old: Seq<u8>,
    pub temp: Text,
    pub failure: Seq<Text>,
}

/// The directory of a path, or the current one.
pub open spec fn directory(path: Text) -> Text {
    match paths::parent(path) {
        Some(p) => p,
        None => "."@,
    }
}

/// The name of the temporary file next to a path: hidden, marked with what it
/// is for, and with a token that makes it unique.
pub open spec fn temp_path(path: Text, purpose: Text, token: Text) -> Text {
    let name = match paths::file_name(path) {
        Some(n) => n,
        None => "file"@,
    };
    paths::resolved(directory(path), "."@ + name + purpose + token + ".tmp"@)
}

pub open spec fn started(
    path: Text,
    content: Text,
    replace: bool,
    expected: Option<Seq<u8>>,
) -> WriteModel {
    WriteModel {
        path,
        content,
        replace,
        expected,
        phase: Phase::MakeParent,
        old: Seq::empty(),
        temp: Seq::empty(),
        failure: Seq::empty(),
    }
}

impl WriteModel {
    pub open spec fn at(self, phase: Phase) -> WriteModel {
        WriteModel { phase, ..self }
    }

    pub open spec fn with_temp(self, temp: Text) -> WriteModel {
        WriteModel { temp, ..self }
    }

    pub open spec fn with_failure(self, failure: Seq<Text>) -> WriteModel {
        WriteModel { failure, ..self }
    }

    /// The failure that ends the writing here.
    pub open spec fn fails(self, failure: Seq<Text>) -> WriteModel {
        self.with_failure(failure).at(Phase::Failed)
    }

    /// Whether there is nothing left to do.
    pub open spec fn over(self) -> bool {
        self.phase == Phase::Finished || self.phase == Phase::Failed
    }

    /// Whether a writing that went wrong says why.
    pub open spec fn explained(self) -> bool {
        match self.phase {
            Phase::DiscardTemp
            | Phase::DiscardBackup
            | Phase::Restore
            | Phase::RemoveRestored
            | Phase::Failed => self.failure.len() > 0,
            _ => true,
        }
    }

    /// What is to be done next.
    pub open spec fn action(self) -> ActionModel
        recommends
            !self.over(),
    {
        match self.phase {
            Phase::MakeParent => ActionModel::MakeDirectory(directory(self.path)),
            Phase::MakeTempDirectory => ActionModel::MakeDirectory(directory(self.path)),
            Phase::CreateTemp(_) => ActionModel::CreateNew(self.temp),
            Phase::WriteTemp => ActionModel::WriteNew(vstd::utf8::encode_utf8(self.content)),
            Phase::LinkTemp => ActionModel::Link { from: self.temp, to: self.path },
            Phase::RemoveTemp => ActionModel::Remove(self.temp),
            Phase::DiscardTemp => ActionModel::Remove(self.temp),
            Phase::Open => ActionModel::OpenTarget(self.path),
            Phase::Lock => ActionModel::LockTarget,
            Phase::Read => ActionModel::ReadTarget,
            Phase::MakeBackupDirectory => ActionModel::MakeDirectory(directory(self.path)),
            Phase::CreateBackup(_) => ActionModel::CreateNew(self.temp),
            Phase::WriteBackup => ActionModel::WriteNew(self.old),
            Phase::DiscardBackup => ActionModel::Remove(self.temp),
            Phase::Rewrite => ActionModel::RewriteTarget(vstd::utf8::encode_utf8(self.content)),
            Phase::Restore => ActionModel::RewriteTarget(self.old),
            Phase::RemoveRestored => ActionModel::Remove(self.temp),
            Phase::RemoveBackup => ActionModel::Remove(self.temp),
            Phase::Finished => ActionModel::LockTarget,
            Phase::Failed => ActionModel::LockTarget,
        }
    }

    /// The writing after its action was done, with the bytes that were read.
    pub open spec fn after_done(self, bytes: Seq<u8>, token: Text) -> WriteModel {
        match self.phase {
            Phase::MakeParent => self.at(
                if self.replace {
                    Phase::Open
                } else {
                    Phase::MakeTempDirectory
                },
            ),
            Phase::MakeTempDirectory => self.with_temp(
                temp_path(self.path, ".connector-tmp-"@, token),
            ).at(Phase::CreateTemp(0)),
            Phase::CreateTemp(_) => self.at(Phase::WriteTemp),
            Phase::WriteTemp => self.at(Phase::LinkTemp),
            Phase::LinkTemp => self.at(Phase::RemoveTemp),
            Phase::RemoveTemp => self.at(Phase::Finished),
            Phase::DiscardTemp => self.at(Phase::Failed),
            Phase::Open => self.at(Phase::Lock),
            Phase::Lock => self.at(Phase::Read),
            Phase::Read => if self.expected is Some && self.expected->0 != bytes {
                self.fails(
                    seq![
                        "file changed while the edit was being prepared; re-read "@ + self.path
                            + " and retry"@,
                    ],
                )
            } else {
                WriteModel { old: bytes, phase: Phase::MakeBackupDirectory, ..self }
            },
            Phase::MakeBackupDirectory => self.with_temp(
                temp_path(self.path, ".connector-backup-"@, token),
            ).at(Phase::CreateBackup(0)),
            Phase::CreateBackup(_) => self.at(Phase::WriteBackup),
            Phase::WriteBackup => self.at(Phase::Rewrite),
            Phase::DiscardBackup => self.at(Phase::Failed),
            Phase::Rewrite => self.at(Phase::RemoveBackup),
            Phase::Restore => self.with_failure(
                seq!["edit failed; the original file was restored"@] + self.failure,
            ).at(Phase::RemoveRestored),
            Phase::RemoveRestored => self.at(Phase::Failed),
            Phase::RemoveBackup => self.at(Phase::Finished),
            Phase::Finished => self,
            Phase::Failed => self,
        }
    }

    /// The next try for a temporary name, or the failure when there were enough.
    pub open spec fn retried(self, attempt: u8, purpose: Text, token: Text) -> WriteModel {
        if attempt + 1 >= MAX_ATTEMPTS {
            self.fails(
                seq!["could not choose a unique temporary filename in "@ + directory(self.path)],
            )
        } else {
            self.with_temp(temp_path(self.path, purpose, token))
        }
    }

    /// The writing after its action failed.
    pub open spec fn after_failed(self, exists: bool, message: Text, token: Text) -> WriteModel {
        match self.phase {
            Phase::MakeParent => self.fails(
                seq!["creating parent directory "@ + directory(self.path), message],
            ),
            Phase::MakeTempDirectory => self.fails(
                seq!["creating temporary directory "@ + directory(self.path), message],
            ),
            Phase::CreateTemp(n) => if !exists {
                self.fails(seq!["creating temporary file "@ + self.temp, message])
            } else {
                let next = self.retried(n, ".connector-tmp-"@, token);
                if next.phase == Phase::Failed {
                    next
                } else {
                    next.at(Phase::CreateTemp((n + 1) as u8))
                }
            },
            Phase::WriteTemp => self.with_failure(seq![message]).at(Phase::DiscardTemp),
            Phase::LinkTemp => self.with_failure(
                seq!["creating "@ + self.path + " without overwriting"@, message],
            ).at(Phase::DiscardTemp),
            Phase::RemoveTemp => self.with_failure(seq![message]).at(Phase::DiscardTemp),
            Phase::DiscardTemp => self.at(Phase::Failed),
            Phase::Open => self.fails(
                seq!["opening "@ + self.path + " for locked update"@, message],
            ),
            Phase::Lock => self.fails(seq!["file is busy or cannot be locked: "@ + message]),
            Phase::Read => self.fails(seq![message]),
            Phase::MakeBackupDirectory => self.fails(
                seq!["creating temporary directory "@ + directory(self.path), message],
            ),
            Phase::CreateBackup(n) => if !exists {
                self.fails(seq!["creating temporary file "@ + self.temp, message])
            } else {
                let next = self.retried(n, ".connector-backup-"@, token);
                if next.phase == Phase::Failed {
                    next
                } else {
                    next.at(Phase::CreateBackup((n + 1) as u8))
                }
            },
            Phase::WriteBackup => self.with_failure(
                seq!["writing edit backup "@ + self.temp, message],
            ).at(Phase::DiscardBackup),
            Phase::DiscardBackup => self.at(Phase::Failed),
            Phase::Rewrite => self.with_failure(seq![message]).at(Phase::Restore),
            Phase::Restore => self.fails(
                seq!["edit failed; recovery backup remains at "@ + self.temp] + self.failure,
            ),
            Phase::RemoveRestored => self.at(Phase::Failed),
            Phase::RemoveBackup => self.fails(
                seq![
                    "file was updated, but transient edit backup could not be removed: "@
                        + self.temp,
                    message,
                ],
            ),
            Phase::Finished => self,
            Phase::Failed => self,
        }
    }

    /// The writing after its action ended.
    pub open spec fn after(self, outcome: OutcomeModel, token: Text) -> WriteModel {
        match outcome {
            OutcomeModel::Done(bytes) => self.after_done(bytes, token),
            OutcomeModel::Failed { exists, message } => self.after_failed(exists, message, token),
        }
    }
}

// ---------------------------------------------------------------------------
// Laws
// ---------------------------------------------------------------------------
/// What a name leads to on disk.
pub enum Content {
    Absent,
    Holds(Seq<u8>),
    Unknown,
}

/// The file that is written and the temporary file next to it.
pub struct Disk {
    pub target: Content,
    pub temp: Content,
}

/// What an action leaves on disk. A write that failed may have left anything.
pub open spec fn effect(disk: Disk, action: ActionModel, outcome: OutcomeModel) -> Disk {
    match action {
        ActionModel::CreateNew(_) => if outcome is Done {
            Disk { temp: Content::Holds(Seq::empty()), ..disk }
        } else {
            disk
        },
        ActionModel::WriteNew(b) => if outcome is Done {
            Disk { temp: Content::Holds(b), ..disk }
        } else {
            Disk { temp: Content::Unknown, ..disk }
        },
        ActionModel::Link { .. } => if outcome is Done {
            Disk { target: disk.temp, ..disk }
        } else {
            disk
        },
        ActionModel::Remove(_) => if outcome is Done {
            Disk { temp: Content::Absent, ..disk }
        } else {
            Disk { temp: Content::Unknown, ..disk }
        },
        ActionModel::RewriteTarget(b) => if outcome is Done {
            Disk { target: Content::Holds(b), ..disk }
        } else {
            Disk { target: Content::Unknown, ..disk }
        },
        _ => disk,
    }
}

/// Whether an outcome can be that of an action: reading gives what is there,
/// and a second name is never given over an existing one.
pub open spec fn possible(disk: Disk, action: ActionModel, outcome: OutcomeModel) -> bool {
    match (action, outcome) {
        (ActionModel::ReadTarget, OutcomeModel::Done(b)) => disk.target == Content::Holds(b),
        (ActionModel::Link { .. }, OutcomeModel::Done(_)) => disk.target == Content::Absent,
        _ => true,
    }
}

/// How one action ended, and the token that was at hand for the next one.
pub struct Event {
    pub outcome: OutcomeModel,
    pub token: Text,
}

/// The writing after a number of actions.
pub open spec fn write_after(write: WriteModel, events: Seq<Event>) -> WriteModel
    decreases events.len(),
{
    if events.len() == 0 {
        write
    } else {
        write_after(write, events.drop_last()).after(events.last().outcome, events.last().token)
    }
}

/// The disk after a number of actions.
pub open spec fn disk_after(write: WriteModel, disk: Disk, events: Seq<Event>) -> Disk
    decreases events.len(),
{
    if events.len() == 0 {
        disk
    } else {
        effect(
            disk_after(write, disk, events.drop_last()),
            write_after(write, events.drop_last()).action(),
            events.last().outcome,
        )
    }
}

/// Whether every outcome was possible when it came.
pub open spec fn all_possible(write: WriteModel, disk: Disk, events: Seq<Event>) -> bool
    decreases events.len(),
{
    events.len() == 0 || {
        &&& all_possible(write, disk, events.drop_last())
        &&& possible(
            disk_after(write, disk, events.drop_last()),
            write_after(write, events.drop_last()).action(),
            events.last().outcome,
        )
    }
}

spec fn rewrite_holds(write: WriteModel, disk: Disk, before: Seq<u8>) -> bool {
    let new = vstd::utf8::encode_utf8(write.content);
    let unchanged = write.expected is Some ==> write.expected->0 == before;
    write.replace && match write.phase {
        Phase::MakeParent | Phase::Open | Phase::Lock | Phase::Read => {
            disk.target == Content::Holds(before)
        },
        Phase::MakeBackupDirectory
        | Phase::CreateBackup(_)
        | Phase::WriteBackup
        | Phase::DiscardBackup => {
            disk.target == Content::Holds(before) && write.old == before && unchanged
        },
        Phase::Rewrite => {
            &&& disk.target == Content::Holds(before)
            &&& disk.temp == Content::Holds(before)
            &&& write.old == before
            &&& unchanged
        },
        Phase::Restore => {
            &&& disk.temp == Content::Holds(before)
            &&& write.old == before
            &&& unchanged
        },
        Phase::RemoveRestored => disk.target == Content::Holds(before),
        Phase::RemoveBackup => disk.target == Content::Holds(new) && unchanged,
        Phase::Finished => {
            &&& disk.target == Content::Holds(new)
            &&& disk.temp == Content::Absent
            &&& unchanged
        },
        Phase::Failed => {
            ||| disk.target == Content::Holds(before)
            ||| disk.target == Content::Holds(new) && unchanged
            ||| {
                &&& unchanged
                &&& disk.temp == Content::Holds(before)
                &&& write.failure.len() > 0
                &&& write.failure[0] == "edit failed; recovery backup remains at "@ + write.temp
            }
        },
        _ => false,
    }
}

proof fn lemma_rewrite(
    path: Text,
    content: Text,
    expected: Option<Seq<u8>>,
    before: Seq<u8>,
    disk: Disk,
    events: Seq<Event>,
)
    requires
        disk.target == Content::Holds(before),
        all_possible(started(path, content, true, expected), disk, events),
    ensures
        rewrite_holds(
            write_after(started(path, content, true, expected), events),
            disk_after(started(path, content, true, expected), disk, events),
            before,
        ),
        write_after(started(path, content, true, expected), events).content == content,
        write_after(started(path, content, true, expected), events).expected == expected,
    decreases events.len(),
{
    if events.len() > 0 {
        lemma_rewrite(path, content, expected, before, disk, events.drop_last());
    }
}

/// New content for an existing file never loses the old content.
///
/// However the actions end, at every point the file holds what it held or the
/// new content, or the backup next to it holds what the file held. Success
/// means that the file holds the new content, that nobody had changed it since
/// it was examined, and that the backup is gone. After a failure that left neither content in place,
/// the first message names the backup.
pub proof fn rewriting_is_recoverable(
    path: Text,
    content: Text,
    expected: Option<Seq<u8>>,
    before: Seq<u8>,
    disk: Disk,
    events: Seq<Event>,
)
    requires
        disk.target == Content::Holds(before),
        all_possible(started(path, content, true, expected), disk, events),
    ensures
        ({
            let write = write_after(started(path, content, true, expected), events);
            let now = disk_after(started(path, content, true, expected), disk, events);
            let new = vstd::utf8::encode_utf8(content);
            &&& now.target == Content::Holds(before) || now.target == Content::Holds(new)
                || now.temp == Content::Holds(before)
            &&& write.phase == Phase::Finished ==> now.target == Content::Holds(new) && now.temp
                == Content::Absent && (expected is Some ==> expected->0 == before)
            &&& write.phase == Phase::Failed ==> now.target == Content::Holds(before)
                || now.target == Content::Holds(new) || (now.temp == Content::Holds(before)
                && write.failure.len() > 0 && write.failure[0]
                == "edit failed; recovery backup remains at "@ + write.temp)
        }),
{
    lemma_rewrite(path, content, expected, before, disk, events);
}

/// A file that somebody changed since it was examined is left alone.
pub proof fn changed_files_are_left_alone(
    path: Text,
    content: Text,
    expected: Seq<u8>,
    before: Seq<u8>,
    disk: Disk,
    events: Seq<Event>,
)
    requires
        disk.target == Content::Holds(before),
        expected != before,
        all_possible(started(path, content, true, Some(expected)), disk, events),
    ensures
        disk_after(started(path, content, true, Some(expected)), disk, events).target
            == Content::Holds(before),
        write_after(started(path, content, true, Some(expected)), events).phase != Phase::Finished,
{
    lemma_rewrite(path, content, Some(expected), before, disk, events);
}

/// Whether a name is one that the backup of a file may have.
pub open spec fn is_backup(path: Text, name: Text) -> bool {
    exists|token: Text| name == #[trigger] temp_path(path, ".connector-backup-"@, token)
}

/// Whether the content of a file stays in the file: the only name that an action
/// makes or removes is that of the backup.
pub open spec fn in_place(path: Text, action: ActionModel) -> bool {
    match action {
        ActionModel::CreateNew(name) => is_backup(path, name),
        ActionModel::Remove(name) => is_backup(path, name),
        ActionModel::OpenTarget(name) => name == path,
        ActionModel::Link { .. } => false,
        ActionModel::Rename { .. } => false,
        _ => true,
    }
}

spec fn rewrites(write: WriteModel, path: Text) -> bool {
    write.replace && write.path == path && match write.phase {
        Phase::MakeTempDirectory
        | Phase::CreateTemp(_)
        | Phase::WriteTemp
        | Phase::LinkTemp
        | Phase::RemoveTemp
        | Phase::DiscardTemp => false,
        Phase::CreateBackup(_)
        | Phase::WriteBackup
        | Phase::DiscardBackup
        | Phase::Rewrite
        | Phase::Restore
        | Phase::RemoveRestored
        | Phase::RemoveBackup => is_backup(path, write.temp),
        _ => true,
    }
}

proof fn lemma_rewrites(
    path: Text,
    content: Text,
    expected: Option<Seq<u8>>,
    events: Seq<Event>,
)
    ensures
        rewrites(write_after(started(path, content, true, expected), events), path),
    decreases events.len(),
{
    if events.len() > 0 {
        lemma_rewrites(path, content, expected, events.drop_last());
        let token = events.last().token;
        assert(is_backup(path, temp_path(path, ".connector-backup-"@, token)));
    }
}

/// An existing file is written in place, however the actions end: it is neither
/// replaced by another file nor renamed nor removed, so that it keeps its other
/// names, its permissions and the links that lead to it.
pub proof fn existing_files_are_written_in_place(
    path: Text,
    content: Text,
    expected: Option<Seq<u8>>,
    events: Seq<Event>,
)
    ensures
        ({
            let write = write_after(started(path, content, true, expected), events);
            !write.over() ==> in_place(path, write.action())
        }),
{
    lemma_rewrites(path, content, expected, events);
}

spec fn create_holds(write: WriteModel, disk: Disk, before: Content) -> bool {
    let new = vstd::utf8::encode_utf8(write.content);
    !write.replace && match write.phase {
        Phase::MakeParent
        | Phase::MakeTempDirectory
        | Phase::CreateTemp(_)
        | Phase::WriteTemp => disk.target == before,
        Phase::LinkTemp => disk.target == before && disk.temp == Content::Holds(new),
        Phase::RemoveTemp => disk.target == Content::Holds(new) && before == Content::Absent,
        Phase::Finished => {
            &&& disk.target == Content::Holds(new)
            &&& disk.temp == Content::Absent
            &&& before == Content::Absent
        },
        Phase::DiscardTemp | Phase::Failed => {
            ||| disk.target == before
            ||| disk.target == Content::Holds(new) && before == Content::Absent
        },
        _ => false,
    }
}

/// A new file appears with its whole content or not at all, and an existing one
/// is never written over. Success leaves no temporary file.
pub proof fn creating_never_overwrites(
    path: Text,
    content: Text,
    expected: Option<Seq<u8>>,
    disk: Disk,
    events: Seq<Event>,
)
    requires
        all_possible(started(path, content, false, expected), disk, events),
    ensures
        ({
            let write = write_after(started(path, content, false, expected), events);
            let now = disk_after(started(path, content, false, expected), disk, events);
            let new = vstd::utf8::encode_utf8(content);
            &&& disk.target != Content::Absent ==> now.target == disk.target && write.phase
                != Phase::Finished
            &&& disk.target == Content::Absent ==> now.target == Content::Absent || now.target
                == Content::Holds(new)
            &&& write.phase == Phase::Finished ==> now.target == Content::Holds(new) && now.temp
                == Content::Absent
        }),
{
    lemma_create(path, content, expected, disk, events);
}

proof fn lemma_create(
    path: Text,
    content: Text,
    expected: Option<Seq<u8>>,
    disk: Disk,
    events: Seq<Event>,
)
    requires
        all_possible(started(path, content, false, expected), disk, events),
    ensures
        create_holds(
            write_after(started(path, content, false, expected), events),
            disk_after(started(path, content, false, expected), disk, events),
            disk.target,
        ),
        write_after(started(path, content, false, expected), events).content == content,
    decreases events.len(),
{
    if events.len() > 0 {
        lemma_create(path, content, expected, disk, events.drop_last());
    }
}

// ---------------------------------------------------------------------------
// Doing it
// ---------------------------------------------------------------------------
/// The writing of one file.
#[derive(Debug)]
pub struct Write {
    pub path: String,
    pub content: String,
    pub replace: bool,
    pub expected: Option<Vec<u8>>,
    pub phase: Phase,
    pub old: Vec<u8>,
    pub temp: String,
    pub failure: Failure,
}

pub open spec fn opt_bytes(v: Option<Vec<u8>>) -> Option<Seq<u8>> {
    match v {
        Some(b) => Some(b@),
        None => None,
    }
}

impl View for Write {
    type V = WriteModel;

    open spec fn view(&self) -> WriteModel {
        WriteModel {
            path: self.path@,
            content: self.content@,
            replace: self.replace,
            expected: opt_bytes(self.expected),
            phase: self.phase,
            old: self.old@,
            temp: self.temp@,
            failure: self.failure@,
        }
    }
}

/// The directory of a path, or the current one.
pub fn directory_of(path: &str) -> (r: String)
    ensures
        r@ == directory(path@),
{
    match paths::parent_path(path) {
        Some(p) => p,
        None => ".".to_string(),
    }
}

/// The name of a temporary file next to a path.
pub fn temp_path_of(path: &str, purpose: &str, token: &str) -> (r: String)
    ensures
        r@ == temp_path(path@, purpose@, token@),
{
    let name = match paths::file_name_of(path) {
        Some(n) => n,
        None => "file".to_string(),
    };
    let mut file = ".".to_string();
    file.append(name.as_str());
    file.append(purpose);
    file.append(token);
    file.append(".tmp");
    let parent = directory_of(path);
    paths::resolve_path(parent.as_str(), file.as_str())
}

fn joined(a: &str, b: &str) -> (r: String)
    ensures
        r@ == a@ + b@,
{
    let mut out = a.to_string();
    out.append(b);
    out
}

fn enclosed(a: &str, b: &str, c: &str) -> (r: String)
    ensures
        r@ == a@ + b@ + c@,
{
    let mut out = a.to_string();
    out.append(b);
    out.append(c);
    out
}

/// Twenty-four random hexadecimal digits for the name of a temporary file.
pub fn temp_token() -> (r: String)
    ensures
        exists|bytes: Seq<u8>| bytes.len() == 12 && r@ == #[trigger] crypto::hexadecimal(bytes),
{
    let bytes = crypto::random_bytes(12);
    crypto::hex(&bytes)
}

impl Write {
    /// The writing of a file, before its first action.
    pub fn start(path: &str, content: &str, replace: bool, expected: Option<Vec<u8>>) -> (r: Write)
        ensures
            r@ == started(path@, content@, replace, opt_bytes(expected)),
    {
        let failure = Failure { messages: Vec::new() };
        let r = Write {
            path: path.to_string(),
            content: content.to_string(),
            replace,
            expected,
            phase: Phase::MakeParent,
            old: Vec::new(),
            temp: "".to_string(),
            failure,
        };
        proof {
            reveal_strlit("");
        }
        assert(r@.temp =~= Seq::empty());
        assert(r@.failure =~= Seq::empty());
        assert(r@.old =~= Seq::empty());
        r
    }

    /// What is to be done next.
    pub fn next_action(&self) -> (r: FsAction)
        requires
            !self@.over(),
        ensures
            r@ == self@.action(),
    {
        match self.phase {
            Phase::MakeParent | Phase::MakeTempDirectory | Phase::MakeBackupDirectory => {
                FsAction::MakeDirectory(directory_of(self.path.as_str()))
            },
            Phase::CreateTemp(_) | Phase::CreateBackup(_) => FsAction::CreateNew(
                self.temp.clone(),
            ),
            Phase::WriteTemp => FsAction::WriteNew(self.content.as_str().as_bytes_vec()),
            Phase::LinkTemp => FsAction::Link { from: self.temp.clone(), to: self.path.clone() },
            Phase::RemoveTemp
            | Phase::DiscardTemp
            | Phase::DiscardBackup
            | Phase::RemoveRestored
            | Phase::RemoveBackup => FsAction::Remove(self.temp.clone()),
            Phase::Open => FsAction::OpenTarget(self.path.clone()),
            Phase::Lock => FsAction::LockTarget,
            Phase::Read => FsAction::ReadTarget,
            Phase::WriteBackup => FsAction::WriteNew(bytes::copy_bytes(&self.old)),
            Phase::Rewrite => FsAction::RewriteTarget(self.content.as_str().as_bytes_vec()),
            Phase::Restore => FsAction::RewriteTarget(bytes::copy_bytes(&self.old)),
            Phase::Finished | Phase::Failed => FsAction::LockTarget,
        }
    }

    fn fail(&mut self, failure: Failure)
        ensures
            final(self)@ == old(self)@.fails(failure@),
    {
        self.failure = failure;
        self.phase = Phase::Failed;
    }

    fn advance_done(&mut self, bytes: Vec<u8>, token: &str)
        ensures
            final(self)@ == old(self)@.after_done(bytes@, token@),
    {
        match self.phase {
            Phase::MakeParent => {
                if self.replace {
                    self.phase = Phase::Open;
                } else {
                    self.phase = Phase::MakeTempDirectory;
                }
            },
            Phase::MakeTempDirectory => {
                self.temp = temp_path_of(self.path.as_str(), ".connector-tmp-", token);
                self.phase = Phase::CreateTemp(0);
            },
            Phase::CreateTemp(_) => {
                self.phase = Phase::WriteTemp;
            },
            Phase::WriteTemp => {
                self.phase = Phase::LinkTemp;
            },
            Phase::LinkTemp => {
                self.phase = Phase::RemoveTemp;
            },
            Phase::RemoveTemp | Phase::RemoveBackup => {
                self.phase = Phase::Finished;
            },
            Phase::DiscardTemp | Phase::DiscardBackup | Phase::RemoveRestored => {
                self.phase = Phase::Failed;
            },
            Phase::Open => {
                self.phase = Phase::Lock;
            },
            Phase::Lock => {
                self.phase = Phase::Read;
            },
            Phase::Read => {
                let changed = match &self.expected {
                    Some(expected) => !bytes::same_bytes(expected, &bytes),
                    None => false,
                };
                if changed {
                    let message = enclosed(
                        "file changed while the edit was being prepared; re-read ",
                        self.path.as_str(),
                        " and retry",
                    );
                    self.fail(Failure::new(message));
                } else {
                    self.old = bytes;
                    self.phase = Phase::MakeBackupDirectory;
                }
            },
            Phase::MakeBackupDirectory => {
                self.temp = temp_path_of(self.path.as_str(), ".connector-backup-", token);
                self.phase = Phase::CreateBackup(0);
            },
            Phase::CreateBackup(_) => {
                self.phase = Phase::WriteBackup;
            },
            Phase::WriteBackup => {
                self.phase = Phase::Rewrite;
            },
            Phase::Rewrite => {
                self.phase = Phase::RemoveBackup;
            },
            Phase::Restore => {
                self.failure =
                self.failure.copy().context(
                    "edit failed; the original file was restored".to_string(),
                );
                self.phase = Phase::RemoveRestored;
            },
            Phase::Finished | Phase::Failed => {},
        }
    }

    fn retry(&mut self, attempt: u8, purpose: &str, token: &str) -> (again: bool)
        ensures
            final(self)@ == old(self)@.retried(attempt, purpose@, token@),
            again == (attempt + 1 < MAX_ATTEMPTS),
    {
        if attempt >= MAX_ATTEMPTS - 1 {
            let parent = directory_of(self.path.as_str());
            let message = joined(
                "could not choose a unique temporary filename in ",
                parent.as_str(),
            );
            self.fail(Failure::new(message));
            false
        } else {
            self.temp = temp_path_of(self.path.as_str(), purpose, token);
            true
        }
    }

    fn advance_failed(&mut self, exists: bool, message: &str, token: &str)
        requires
            !old(self)@.over(),
        ensures
            final(self)@ == old(self)@.after_failed(exists, message@, token@),
    {
        match self.phase {
            Phase::MakeParent => {
                let parent = directory_of(self.path.as_str());
                let outer = joined("creating parent directory ", parent.as_str());
                self.fail(Failure::because(outer, message));
            },
            Phase::MakeTempDirectory | Phase::MakeBackupDirectory => {
                let parent = directory_of(self.path.as_str());
                let outer = joined("creating temporary directory ", parent.as_str());
                self.fail(Failure::because(outer, message));
            },
            Phase::CreateTemp(n) => {
                if !exists {
                    let outer = joined("creating temporary file ", self.temp.as_str());
                    self.fail(Failure::because(outer, message));
                } else if self.retry(n, ".connector-tmp-", token) {
                    self.phase = Phase::CreateTemp(n + 1);
                }
            },
            Phase::CreateBackup(n) => {
                if !exists {
                    let outer = joined("creating temporary file ", self.temp.as_str());
                    self.fail(Failure::because(outer, message));
                } else if self.retry(n, ".connector-backup-", token) {
                    self.phase = Phase::CreateBackup(n + 1);
                }
            },
            Phase::WriteTemp | Phase::RemoveTemp => {
                self.failure = Failure::new(message.to_string());
                self.phase = Phase::DiscardTemp;
            },
            Phase::LinkTemp => {
                let outer = enclosed("creating ", self.path.as_str(), " without overwriting");
                self.failure = Failure::because(outer, message);
                self.phase = Phase::DiscardTemp;
            },
            Phase::DiscardTemp | Phase::DiscardBackup | Phase::RemoveRestored => {
                self.phase = Phase::Failed;
            },
            Phase::Open => {
                let outer = enclosed("opening ", self.path.as_str(), " for locked update");
                self.fail(Failure::because(outer, message));
            },
            Phase::Lock => {
                self.fail(Failure::new(joined("file is busy or cannot be locked: ", message)));
            },
            Phase::Read => {
                self.fail(Failure::new(message.to_string()));
            },
            Phase::WriteBackup => {
                let outer = joined("writing edit backup ", self.temp.as_str());
                self.failure = Failure::because(outer, message);
                self.phase = Phase::DiscardBackup;
            },
            Phase::Rewrite => {
                self.failure = Failure::new(message.to_string());
                self.phase = Phase::Restore;
            },
            Phase::Restore => {
                let outer = joined(
                    "edit failed; recovery backup remains at ",
                    self.temp.as_str(),
                );
                let failure = self.failure.copy().context(outer);
                self.fail(failure);
            },
            Phase::RemoveBackup => {
                let outer = joined(
                    "file was updated, but transient edit backup could not be removed: ",
                    self.temp.as_str(),
                );
                self.fail(Failure::because(outer, message));
            },
            Phase::Finished | Phase::Failed => {},
        }
    }

    /// Goes on after the action ended. `token` makes the name of a temporary
    /// file unique where one is needed next.
    pub fn advance(&mut self, outcome: Outcome, token: &str)
        requires
            !old(self)@.over(),
        ensures
            final(self)@ == old(self)@.after(outcome@, token@),
    {
        match outcome {
            Outcome::Done(bytes) => self.advance_done(bytes, token),
            Outcome::Failed { exists, message } => self.advance_failed(
                exists,
                message.as_str(),
                token,
            ),
        }
    }
}

} // verus!
