//! The generated program: files with their paths and text.
use vstd::prelude::*;
use crate::builder::CodeBuilder;
use crate::compiler::{NodeAction, NodesJSCompiler};
use crate::port::PortAddr;

verus! {

/// One generated file.
#[derive(Clone, Debug)]
pub struct ProgramFile {
    pub code: String,
    pub path: String,
}

/// The generated files, in the order their units were compiled.
pub struct Program {
    pub files: Vec<ProgramFile>,
}

impl Program {
    /// A program with no files.
    pub fn new() -> (r: Program)
        ensures
            r.files@.len() == 0,
    {
        Program { files: Vec::new() }
    }

    /// A builder for a new file at `path`, empty, with `compiler` for nested
    /// branches. The file joins the program when it is finished and added.
    pub fn get_file_builder<A: NodeAction>(&self, path: String, compiler: NodesJSCompiler<A>) -> (r: CodeBuilder<A>)
        ensures
            r@.lines.len() == 0,
            r@.indent == 0,
            r@.cache == Map::<PortAddr, Seq<char>>::empty(),
            r@.stack.len() == 0,
            r@.node_id.len() == 0,
            r@.path == path@,
    {
        CodeBuilder::new(path, compiler)
    }

    /// Appends a finished file.
    pub fn add_file(&mut self, file: ProgramFile)
        ensures
            final(self).files@ == old(self).files@.push(file),
    {
        self.files.push(file);
    }
}

} // verus!
