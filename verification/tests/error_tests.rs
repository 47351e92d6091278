use gww::error::GwwError;

#[test]
fn messages() {
    assert_eq!(GwwError::NotAGitRepository.message(), "Not a git repository");
    assert_eq!(GwwError::HomeNotSet.message(), "HOME not set");
    assert_eq!(GwwError::RepositoryNameUnknown.message(), "Unable to determine repository name");
    assert_eq!(GwwError::NoBranchesFound.message(), "No branches found");
    assert_eq!(GwwError::NoWorktreesFound.message(), "No worktrees found");
    assert_eq!(GwwError::SelectionCancelled.message(), "Selection cancelled");
    assert_eq!(GwwError::LocalBranchRequired.message(), "local branch required for remote");
}

#[test]
fn messages_name_the_branch() {
    assert_eq!(
        GwwError::BranchDoesNotExist { branch: "feat".to_string() }.message(),
        "Branch 'feat' does not exist"
    );
    assert_eq!(
        GwwError::NoWorktreeForBranch { branch: "feat".to_string() }.message(),
        "No worktree found for branch 'feat'"
    );
}

#[test]
fn message_of_git_is_passed_on() {
    assert_eq!(GwwError::GitFailed { message: "fatal: bad".to_string() }.message(), "fatal: bad");
}

#[test]
fn duplicate_is_the_same_failure() {
    for e in [
        GwwError::NotAGitRepository,
        GwwError::HomeNotSet,
        GwwError::RepositoryNameUnknown,
        GwwError::NoBranchesFound,
        GwwError::NoWorktreesFound,
        GwwError::SelectionCancelled,
        GwwError::BranchDoesNotExist { branch: "b".to_string() },
        GwwError::NoWorktreeForBranch { branch: "w".to_string() },
        GwwError::LocalBranchRequired,
        GwwError::GitFailed { message: "fatal: bad".to_string() },
    ] {
        assert_eq!(e.duplicate(), e);
    }
}
