//! The run configuration: the branches to follow, the binaries to diff in
//! each, and where repositories and results are kept.

use vstd::prelude::*;
use vstd::string::*;
use crate::git::{GitError, GitHelper};

verus! {

/// Why the configuration could not be read, written or acted on.
#[derive(Debug, Clone, Copy, PartialEq, Eq, Structural)]
pub enum ConfigFileError {
    FileIOError,
    ImproperlyFormattedConfigFile,
    ConfigFileCreation,
    GitError(GitError),
}

/// One followed branch: its repository, branch, the directory of its feeds
/// inside the repository, and the binaries to diff.
#[derive(Debug)]
pub struct BranchConfig {
    pub repo_url: String,
    pub branch: String,
    pub data_dir: String,
    pub files: Vec<String>,
}

/// The whole configuration; branches are keyed by name.
#[derive(Debug)]
pub struct ConfigFile {
    pub branches: Vec<(String, BranchConfig)>,
    pub store_dir: String,
    pub repo_dir: String,
}

impl ConfigFile {
    /// Each branch is configured at most once.
    pub open spec fn wf(&self) -> bool {
        forall|i: int, j: int|
            0 <= i < self.branches@.len() && 0 <= j < self.branches@.len() && i != j
                ==> #[trigger] self.branches@[i].0@ != #[trigger] self.branches@[j].0@
    }

    /// The configuration written when none exists: no branches, and the
    /// sample store and repository directories.
    pub fn default_config() -> (r: Self)
        ensures
            r.branches@.len() == 0,
            r.wf(),
            r.store_dir@ == "../sample/store"@,
            r.repo_dir@ == "../sample/repos"@,
    {
        ConfigFile {
            branches: Vec::new(),
            store_dir: String::from_str("../sample/store"),
            repo_dir: String::from_str("../sample/repos"),
        }
    }

    /// One repository to keep in sync per branch, in branch order: cloned
    /// under the repository directory by branch name.
    pub fn sync_jobs(&self) -> (r: Vec<GitHelper>)
        ensures
            r@.len() == self.branches@.len(),
            self.wf() ==> forall|a: int, b: int|
                0 <= a < r@.len() && 0 <= b < r@.len() && a != b ==> #[trigger] r@[a].repo_name@
                    != #[trigger] r@[b].repo_name@,
            forall|k: int|
                0 <= k < r@.len() ==> {
                    &&& (#[trigger] r@[k]).repo_dir@ == self.repo_dir@
                    &&& r@[k].branch_name@ == self.branches@[k].1.branch@
                    &&& r@[k].url@ == self.branches@[k].1.repo_url@
                    &&& r@[k].repo_name@ == self.branches@[k].0@
                },
    {
        let mut r: Vec<GitHelper> = Vec::new();
        let mut k: usize = 0;
        while k < self.branches.len()
            invariant
                k <= self.branches@.len(),
                r@.len() == k,
                forall|m: int|
                    0 <= m < k ==> {
                        &&& (#[trigger] r@[m]).repo_dir@ == self.repo_dir@
                        &&& r@[m].branch_name@ == self.branches@[m].1.branch@
                        &&& r@[m].url@ == self.branches@[m].1.repo_url@
                        &&& r@[m].repo_name@ == self.branches@[m].0@
                    },
            decreases self.branches@.len() - k,
        {
            let (name, branch) = &self.branches[k];
            r.push(
                GitHelper::new(
                    self.repo_dir.as_str(),
                    branch.branch.as_str(),
                    branch.repo_url.as_str(),
                    name.as_str(),
                ),
            );
            k = k + 1;
        }
        r
    }
}

} // verus!
