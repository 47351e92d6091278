//! The ways in which a command can fail.

use vstd::prelude::*;
use vstd::string::StringExecFns;

verus! {

/// Why a command stops without doing anything.
#[derive(Debug, Clone, PartialEq, Eq)]
pub enum GwwError {
    /// The command does not run inside a git repository.
    NotAGitRepository,
    /// No root for the worktrees is configured, and the home directory,
    /// under which the default root lies, is not known.
    HomeNotSet,
    /// Neither the origin's address nor the repository's directory gives a
    /// name for the repository.
    RepositoryNameUnknown,
    /// There is no branch to select from.
    NoBranchesFound,
    /// There is no worktree to select from.
    NoWorktreesFound,
    /// The user left the selection without choosing.
    SelectionCancelled,
    /// The branch does not exist, and the user declined to create it.
    BranchDoesNotExist { branch: String },
    /// No worktree has the branch checked out.
    NoWorktreeForBranch { branch: String },
    /// A worktree that tracks a remote branch needs the name of its local
    /// branch.
    LocalBranchRequired,
    /// git reported a failure; the message is what it printed.
    GitFailed { message: String },
}

/// The view of a `GwwError`.
pub enum ErrorView {
    NotAGitRepository,
    HomeNotSet,
    RepositoryNameUnknown,
    NoBranchesFound,
    NoWorktreesFound,
    SelectionCancelled,
    BranchDoesNotExist { branch: Seq<char> },
    NoWorktreeForBranch { branch: Seq<char> },
    LocalBranchRequired,
    GitFailed { message: Seq<char> },
}

impl View for GwwError {
    type V = ErrorView;

    open spec fn view(&self) -> ErrorView {
        match self {
            GwwError::NotAGitRepository => ErrorView::NotAGitRepository,
            GwwError::HomeNotSet => ErrorView::HomeNotSet,
            GwwError::RepositoryNameUnknown => ErrorView::RepositoryNameUnknown,
            GwwError::NoBranchesFound => ErrorView::NoBranchesFound,
            GwwError::NoWorktreesFound => ErrorView::NoWorktreesFound,
            GwwError::SelectionCancelled => ErrorView::SelectionCancelled,
            GwwError::BranchDoesNotExist { branch } => ErrorView::BranchDoesNotExist {
                branch: branch@,
            },
            GwwError::NoWorktreeForBranch { branch } => ErrorView::NoWorktreeForBranch {
                branch: branch@,
            },
            GwwError::LocalBranchRequired => ErrorView::LocalBranchRequired,
            GwwError::GitFailed { message } => ErrorView::GitFailed { message: message@ },
        }
    }
}

/// The message that is shown for a failure.
pub open spec fn message_of(error: ErrorView) -> Seq<char> {
    match error {
        ErrorView::NotAGitRepository => "Not a git repository"@,
        ErrorView::HomeNotSet => "HOME not set"@,
        ErrorView::RepositoryNameUnknown => "Unable to determine repository name"@,
        ErrorView::NoBranchesFound => "No branches found"@,
        ErrorView::NoWorktreesFound => "No worktrees found"@,
        ErrorView::SelectionCancelled => "Selection cancelled"@,
        ErrorView::BranchDoesNotExist { branch } => "Branch '"@ + branch + "' does not exist"@,
        ErrorView::NoWorktreeForBranch { branch } => "No worktree found for branch '"@ + branch
            + "'"@,
        ErrorView::LocalBranchRequired => "local branch required for remote"@,
        ErrorView::GitFailed { message } => message,
    }
}

/// The view of what a run of git came to: what it printed, or the
/// failure.
pub open spec fn outcome_view(outcome: Result<String, GwwError>) -> Result<Seq<char>, ErrorView> {
    match outcome {
        Ok(text) => Ok(text@),
        Err(e) => Err(e@),
    }
}

impl GwwError {
    /// A failure of the same kind with the same texts.
    pub fn duplicate(&self) -> (r: GwwError)
        ensures
            r@ == self@,
    {
        match self {
            GwwError::NotAGitRepository => GwwError::NotAGitRepository,
            GwwError::HomeNotSet => GwwError::HomeNotSet,
            GwwError::RepositoryNameUnknown => GwwError::RepositoryNameUnknown,
            GwwError::NoBranchesFound => GwwError::NoBranchesFound,
            GwwError::NoWorktreesFound => GwwError::NoWorktreesFound,
            GwwError::SelectionCancelled => GwwError::SelectionCancelled,
            GwwError::BranchDoesNotExist { branch } => GwwError::BranchDoesNotExist {
                branch: branch.clone(),
            },
            GwwError::NoWorktreeForBranch { branch } => GwwError::NoWorktreeForBranch {
                branch: branch.clone(),
            },
            GwwError::LocalBranchRequired => GwwError::LocalBranchRequired,
            GwwError::GitFailed { message } => GwwError::GitFailed { message: message.clone() },
        }
    }

    /// The message that is shown for this failure.
    pub fn message(&self) -> (r: String)
        ensures
            r@ == message_of(self@),
    {
        match self {
            GwwError::NotAGitRepository => "Not a git repository".to_owned(),
            GwwError::HomeNotSet => "HOME not set".to_owned(),
            GwwError::RepositoryNameUnknown => "Unable to determine repository name".to_owned(),
            GwwError::NoBranchesFound => "No branches found".to_owned(),
            GwwError::NoWorktreesFound => "No worktrees found".to_owned(),
            GwwError::SelectionCancelled => "Selection cancelled".to_owned(),
            GwwError::BranchDoesNotExist { branch } => {
                let mut text = "Branch '".to_owned();
                text.append(branch.as_str());
                text.append("' does not exist");
                text
            },
            GwwError::NoWorktreeForBranch { branch } => {
                let mut text = "No worktree found for branch '".to_owned();
                text.append(branch.as_str());
                text.append("'");
                text
            },
            GwwError::LocalBranchRequired => "local branch required for remote".to_owned(),
            GwwError::GitFailed { message } => message.clone(),
        }
    }
}

} // verus!
