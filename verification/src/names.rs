//! The fixed names the walker knows: the manifest that marks a project, the
//! directory it never enters, and the command that cleans a project.

use vstd::prelude::*;

verus! {

/// Name of the file whose presence marks a directory as a project.
pub open spec fn manifest_name() -> Seq<char> {
    "Cargo.toml"@
}

/// Name of the build output directory, which is never entered.
pub open spec fn artifact_name() -> Seq<char> {
    "target"@
}

/// Name of the program that cleans a project.
pub open spec fn clean_program_name() -> Seq<char> {
    "cargo"@
}

/// The single argument handed to the clean program.
pub open spec fn clean_argument_name() -> Seq<char> {
    "clean"@
}

/// The manifest file name, to be joined to a directory's path.
pub fn manifest_file() -> (name: &'static str)
    ensures
        name@ == manifest_name(),
{
    "Cargo.toml"
}

/// The name of the directory that is excluded from the walk.
pub fn artifact_dir() -> (name: &'static str)
    ensures
        name@ == artifact_name(),
{
    "target"
}

/// The program to launch in a project directory.
pub fn clean_program() -> (name: &'static str)
    ensures
        name@ == clean_program_name(),
{
    "cargo"
}

/// The argument to launch it with.
pub fn clean_argument() -> (name: &'static str)
    ensures
        name@ == clean_argument_name(),
{
    "clean"
}

/// Whether `name` is exactly the excluded directory name. The test is on the
/// name alone, so it holds at every depth of a tree.
pub fn is_artifact_name(name: &String) -> (excluded: bool)
    ensures
        excluded == (name@ == artifact_name()),
{
    let reserved: String = artifact_dir().to_owned();
    *name == reserved
}

} // verus!
