//! A project: its commands, each with a flow and declared options.
use vstd::prelude::*;
use crate::flow::DisbotterFlow;

verus! {

/// A project: metadata and content.
#[derive(Clone, Debug)]
pub struct DisbotterProjectData {
    pub metadata: DisbotterProjectMetadata,
    pub content: DisbotterProjectContent,
}

/// Project metadata.
#[derive(Clone, Debug)]
pub struct DisbotterProjectMetadata {
    pub name: String,
}

/// The compile units of a project.
#[derive(Clone, Debug)]
pub struct DisbotterProjectContent {
    pub commands: Vec<DisbotterProjectCommand>,
}

/// One command: a compile unit with its own flow and options.
#[derive(Clone, Debug)]
pub struct DisbotterProjectCommand {
    pub uid: String,
    pub name: String,
    pub description: String,
    pub flow: DisbotterFlow,
    pub options: Vec<DisbotterProjectCommandOption>,
}

/// A declared option of a command. Its kind is 0 (string), 1 (user) or 2 (channel).
#[derive(Clone, Debug)]
pub struct DisbotterProjectCommandOption {
    pub name: String,
    pub description: String,
    pub option_type: i32,
    pub required: bool,
    pub choices: Vec<String>,
}

} // verus!
