//! The arguments of each command, as plain values.
use vstd::prelude::*;

verus! {

/// `init`: the directory to create and how to scaffold it.
#[derive(Debug)]
pub struct InitArgs {
    pub name: Option<String>,
    pub strict: bool,
    pub lib: bool,
    pub force: bool,
}

/// `check`: the project, and whether to fix or print markdown.
#[derive(Debug)]
pub struct CheckArgs {
    pub path: String,
    pub fix: bool,
    pub markdown: bool,
}

/// `deps`: the project, and whether to stay offline.
#[derive(Debug)]
pub struct DepsArgs {
    pub path: String,
    pub offline: bool,
}

/// `fmt`: the project, and whether to only check.
#[derive(Debug)]
pub struct FmtArgs {
    pub path: String,
    pub check: bool,
}

/// `build`: the project and the output file.
#[derive(Debug)]
pub struct BuildArgs {
    pub path: String,
    pub output: Option<String>,
}

/// `update`: the project, whether to write, and whether to stay offline.
#[derive(Debug)]
pub struct UpdateArgs {
    pub path: String,
    pub write: bool,
    pub offline: bool,
}

} // verus!
