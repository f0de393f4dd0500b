//! Run configuration: the repository path, the branch to walk, and an
//! optional path filter, merged from a file-based base and command-line
//! overrides.

use vstd::prelude::*;

verus! {

/// The name of the branch whose tip starts the history walk.
#[derive(Debug)]
pub struct Branch(pub String);

impl View for Branch {
    type V = Seq<char>;

    open spec fn view(&self) -> Seq<char> {
        self.0@
    }
}

impl Branch {
    /// Wraps a branch name.
    pub fn new(name: String) -> (r: Branch)
        ensures
            r@ == name@,
    {
        Branch(name)
    }
}

impl Default for Branch {
    /// The branch inspected when none is configured.
    fn default() -> (r: Branch)
        ensures
            r@ == "main"@,
    {
        Branch(String::from_str("main"))
    }
}

/// A fully merged run configuration.
#[derive(Debug)]
pub struct Config {
    /// Branch whose tip starts the walk.
    pub branch: Branch,
    /// Path filter, passed through to the diff classifier's callers.
    pub pathspec: Vec<String>,
    /// Where the repository lives on disk.
    pub repository_path: String,
}

impl Default for Config {
    /// An empty configuration: branch `main`, no path filter, empty
    /// repository path.
    fn default() -> (r: Config)
        ensures
            r.branch@ == "main"@,
            r.pathspec@ == Seq::<String>::empty(),
            r.repository_path@ == Seq::<char>::empty(),
    {
        Config { branch: Branch::default(), pathspec: Vec::new(), repository_path: String::new() }
    }
}

/// Merges command-line overrides over a base configuration: an override
/// replaces the base value where given, and extra pathspec entries are
/// appended after the base ones.
pub fn load_config(
    base: Config,
    repository_path: Option<String>,
    branch: Option<String>,
    pathspec: Vec<String>,
) -> (r: Config)
    ensures
        r.repository_path@ == (match repository_path {
            Option::Some(p) => p@,
            Option::None => base.repository_path@,
        }),
        r.branch@ == (match branch {
            Option::Some(b) => b@,
            Option::None => base.branch@,
        }),
        r.pathspec@ == base.pathspec@ + pathspec@,
{
    let mut config = base;
    match repository_path {
        Option::Some(p) => {
            config.repository_path = p;
        },
        Option::None => {},
    }
    match branch {
        Option::Some(b) => {
            config.branch = Branch(b);
        },
        Option::None => {},
    }
    let mut extra = pathspec;
    config.pathspec.append(&mut extra);
    config
}

} // verus!
