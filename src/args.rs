use vstd::prelude::*;

verus! {

#[derive(Debug)]
pub struct RunArgs {
    pub path: String,
}

#[derive(Debug)]
pub struct AstArgs {
    pub path: String,
}

/// What the command line asks for.
#[derive(Debug)]
pub enum Commands {
    /// Runs a program, given as a file path or as source text.
    Run(RunArgs),
    /// Prints the syntax tree of a program.
    Ast(AstArgs),
    /// Opens the window.
    Donitsi,
}

#[derive(Debug)]
pub struct Args {
    pub command: Commands,
}

} // verus!
