//! What can be asked for on the command line.

use vstd::prelude::*;

verus! {

/// The command line: one command.
#[derive(Debug)]
pub struct Cli {
    pub command: Commands,
}

/// The commands.
#[derive(Debug)]
pub enum Commands {
    /// Merge the input files, in the order given, into the output file.
    Merge { output: String, inputs: Vec<String> },
    /// Write the input file without some of its pages to the output file;
    /// the pages are written as in `3`, `3-5` or `1,3,5-7`.
    Delete { input: String, output: String, pages: String },
    /// Split the input file into one file for each segment of `pages`,
    /// written as in `1-3,5,7`, or with names as in `intro:1-3,rest:4-9`.
    Split { input: String, pages: String, output_prefix: String, named: bool },
    /// Start the terminal front end.
    Tui,
}

} // verus!
