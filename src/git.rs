//! What keeping a local copy of a feed repository in sync involves: where
//! it lives, which branch it follows, and how a fetched head is merged.

use vstd::prelude::*;
use vstd::string::*;
use crate::text::{join, join_path};

verus! {

/// Why a repository could not be brought up to date.
#[derive(Debug, Clone, Copy, PartialEq, Eq, Structural)]
pub enum GitError {
    FailedRepoClone,
    RepoFetchFailed,
    CouldNotFindRemote,
    CouldNotFindReference,
    MergeAnalysisFailed,
    CouldNotSetTarget,
    SetHeadFailure,
    CheckoutFailure,
}

/// How a fetched head relates to the local branch.
#[derive(Debug, Clone, Copy, PartialEq, Eq, Structural)]
pub enum MergeStep {
    /// Nothing to do.
    UpToDate,
    /// Move the branch to the fetched commit and check it out.
    FastForward,
}

/// One repository to keep in sync: cloned into `<repo_dir>/<repo_name>`,
/// following `branch_name` of `url`.
#[derive(Debug)]
pub struct GitHelper {
    pub repo_dir: String,
    pub branch_name: String,
    pub url: String,
    pub repo_name: String,
}

impl GitHelper {
    /// The copy of `repo_url`'s `branch_name` kept at
    /// `<repository_path>/<repo_name>`.
    pub fn new(repository_path: &str, branch_name: &str, repo_url: &str, repo_name: &str) -> (r: Self)
        ensures
            r.repo_dir@ == repository_path@,
            r.branch_name@ == branch_name@,
            r.url@ == repo_url@,
            r.repo_name@ == repo_name@,
    {
        GitHelper {
            repo_dir: String::from_str(repository_path),
            branch_name: String::from_str(branch_name),
            url: String::from_str(repo_url),
            repo_name: String::from_str(repo_name),
        }
    }

    /// `<repo_dir>/<repo_name>`, where the copy lives.
    pub fn clone_path(&self) -> (r: String)
        ensures
            r@ == join_path(self.repo_dir@, self.repo_name@),
    {
        join(self.repo_dir.as_str(), self.repo_name.as_str())
    }

    /// `refs/heads/<branch>`, the reference a fast-forward moves.
    pub fn branch_ref(&self) -> (r: String)
        ensures
            r@ == "refs/heads/"@ + self.branch_name@,
    {
        let mut r = String::from_str("refs/heads/");
        r.append(self.branch_name.as_str());
        r
    }

    /// What to do after a fetch: nothing when up to date, a fast-forward when
    /// one is possible; a branch that has diverged is an error.
    pub fn merge_step(is_up_to_date: bool, is_fast_forward: bool) -> (r: Result<MergeStep, GitError>)
        ensures
            is_up_to_date ==> r == Ok::<MergeStep, GitError>(MergeStep::UpToDate),
            !is_up_to_date && is_fast_forward ==> r == Ok::<MergeStep, GitError>(MergeStep::FastForward),
            !is_up_to_date && !is_fast_forward ==> r == Err::<MergeStep, GitError>(GitError::RepoFetchFailed),
    {
        if is_up_to_date {
            Ok(MergeStep::UpToDate)
        } else if is_fast_forward {
            Ok(MergeStep::FastForward)
        } else {
            Err(GitError::RepoFetchFailed)
        }
    }
}

} // verus!
