//! Structured patches: their text form, the plan they make of a directory, the
//! steps that publish the plan and the report of what was done. Patches are
//! applied on Unix machines, so that every path here is a Unix path.
use vstd::prelude::*;

use crate::failure::Failure;
use crate::text;
use crate::text::Text;

pub mod apply;
pub mod chunks;
pub mod commit;
pub mod outcomes;
pub mod parse;
pub mod paths;
pub mod places;
pub mod placing;
pub mod plan;
pub mod publish;
pub mod shape;
pub mod spelling;

verus! {

/// A patch and the directory that its relative paths start from.
#[derive(Debug, Clone)]
pub struct ApplyPatchArgs {
    pub patch: String,
    pub cwd: Option<String>,
}

/// The report on an applied patch.
#[derive(Debug, Clone, PartialEq, Eq)]
pub struct ApplyPatchOutput {
    pub output: String,
}

/// One file operation of a patch.
#[derive(Debug)]
pub enum Operation {
    Add { path: String, content: String },
    Delete { path: String },
    Update { path: String, move_to: Option<String>, chunks: Vec<Chunk> },
}

/// One hunk of an update.
#[derive(Debug)]
pub struct Chunk {
    pub locator: Option<String>,
    pub lines: Vec<HunkLine>,
    pub end_of_file: bool,
}

/// One line of a hunk.
#[derive(Debug)]
pub enum HunkLine {
    Context(String),
    Remove(String),
    Add(String),
}

/// The model of [`HunkLine`].
pub enum HunkModel {
    Context(Text),
    Remove(Text),
    Add(Text),
}

/// The model of [`Chunk`].
pub struct ChunkModel {
    pub locator: Option<Text>,
    pub lines: Seq<HunkModel>,
    pub end_of_file: bool,
}

/// The model of [`Operation`].
pub enum OperationModel {
    Add { path: Text, content: Text },
    Delete { path: Text },
    Update { path: Text, move_to: Option<Text>, chunks: Seq<ChunkModel> },
}

impl View for HunkLine {
    type V = HunkModel;

    open spec fn view(&self) -> HunkModel {
        match self {
            HunkLine::Context(s) => HunkModel::Context(s@),
            HunkLine::Remove(s) => HunkModel::Remove(s@),
            HunkLine::Add(s) => HunkModel::Add(s@),
        }
    }
}

pub open spec fn hunk_models(v: Seq<HunkLine>) -> Seq<HunkModel> {
    v.map_values(|l: HunkLine| l@)
}

impl View for Chunk {
    type V = ChunkModel;

    open spec fn view(&self) -> ChunkModel {
        ChunkModel {
            locator: text::opt_text(self.locator),
            lines: hunk_models(self.lines@),
            end_of_file: self.end_of_file,
        }
    }
}

pub open spec fn chunk_models(v: Seq<Chunk>) -> Seq<ChunkModel> {
    v.map_values(|c: Chunk| c@)
}

impl View for Operation {
    type V = OperationModel;

    open spec fn view(&self) -> OperationModel {
        match self {
            Operation::Add { path, content } => OperationModel::Add {
                path: path@,
                content: content@,
            },
            Operation::Delete { path } => OperationModel::Delete { path: path@ },
            Operation::Update { path, move_to, chunks } => OperationModel::Update {
                path: path@,
                move_to: text::opt_text(*move_to),
                chunks: chunk_models(chunks@),
            },
        }
    }
}

pub open spec fn operation_models(v: Seq<Operation>) -> Seq<OperationModel> {
    v.map_values(|o: Operation| o@)
}

/// Whether each update without hunks has a destination, as in every patch that
/// was read from its text form.
pub open spec fn complete(operations: Seq<OperationModel>) -> bool {
    forall|i: int|
        0 <= i < operations.len() ==> (#[trigger] operations[i] matches OperationModel::Update {
            move_to,
            chunks,
            ..
        } ==> chunks.len() > 0 || move_to is Some)
}

/// The directory that the relative paths of a patch start from: the one that was
/// asked for, where it exists, and otherwise the current one.
pub fn working_directory(
    cwd: Option<String>,
    exists: bool,
    current: Result<String, String>,
) -> (r: Result<String, Failure>)
    ensures
        match (cwd, r) {
            (Some(asked), Ok(directory)) => exists && directory@ == asked@,
            (Some(asked), Err(failure)) => !exists && failure@
                == seq!["working directory does not exist: "@ + asked@],
            (None, Ok(directory)) => current matches Ok(c) && directory@ == c@,
            (None, Err(failure)) => current matches Err(e) && failure@
                == seq!["determining current directory"@, e@],
        },
{
    match cwd {
        Some(asked) => {
            if exists {
                Ok(asked)
            } else {
                let mut message = "working directory does not exist: ".to_string();
                message.append(asked.as_str());
                Err(Failure::new(message))
            }
        },
        None => match current {
            Ok(directory) => Ok(directory),
            Err(e) => Err(
                Failure::because("determining current directory".to_string(), e.as_str()),
            ),
        },
    }
}

} // verus!
