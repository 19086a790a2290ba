//! What a repository handle is set up with.
use vstd::prelude::*;
use vstd::string::StringExecFns;

verus! {

/// Where output goes, and which name the metadata directory bears.
#[derive(Debug)]
pub struct Config {
    /// What the commands print.
    pub writer: Vec<u8>,
    /// What the commands report beside their result.
    pub error_writer: Vec<u8>,
    /// The name of the metadata directory, which no snapshot includes.
    pub dot_git_name: String,
}

impl Default for Config {
    fn default() -> (config: Config)
        ensures
            config.writer@ == Seq::<u8>::empty(),
            config.error_writer@ == Seq::<u8>::empty(),
            config.dot_git_name@ == ".git"@,
    {
        Config { writer: Vec::new(), error_writer: Vec::new(), dot_git_name: String::from_str(".git") }
    }
}

} // verus!
