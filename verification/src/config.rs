//! The optional repository configuration: a project name and the
//! chosen template folder.  Loading it from a YAML file is I/O and
//! lives in the unverified shell, which falls back to [`Config::new`]
//! with a default name when the file is absent or invalid.

use vstd::prelude::*;

verus! {

/// The `project` section of the repository configuration.
#[derive(Debug)]
pub struct Project {
    pub name: String,
    pub template: String,
}

/// The repository configuration.
#[derive(Debug)]
pub struct Config {
    pub project: Project,
}

impl Config {
    /// A configuration holding just a project name and no template.
    pub fn new(name: &str) -> (r: Self)
        ensures
            r.project.name@ == name@,
            r.project.template@ == Seq::<char>::empty(),
    {
        Config { project: Project { name: name.to_owned(), template: String::new() } }
    }
}

} // verus!
