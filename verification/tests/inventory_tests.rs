use gww::inventory::{list_worktrees_info, worktree_for_branch};
use gww::model::WorktreeInfo;

fn wt(path: &str, branch: Option<&str>) -> WorktreeInfo {
    WorktreeInfo { path: path.to_string(), branch: branch.map(|b| b.to_string()) }
}

#[test]
fn reads_a_porcelain_listing() {
    let listing = "worktree /r/main\nHEAD 1234\nbranch refs/heads/main\n\nworktree /r/dev\nHEAD 5678\nbranch refs/heads/feature/x\n\n";
    assert_eq!(
        list_worktrees_info(listing),
        vec![wt("/r/main", Some("main")), wt("/r/dev", Some("feature/x"))]
    );
}

#[test]
fn detached_worktree_has_no_branch() {
    let listing = "worktree /r/main\nHEAD 1234\nbranch refs/heads/main\n\nworktree /r/tmp\nHEAD 5678\ndetached\n";
    assert_eq!(list_worktrees_info(listing), vec![wt("/r/main", Some("main")), wt("/r/tmp", None)]);
}

#[test]
fn last_record_is_kept_without_final_line_feed() {
    assert_eq!(
        list_worktrees_info("worktree /r/a\nbranch refs/heads/a"),
        vec![wt("/r/a", Some("a"))]
    );
    assert_eq!(list_worktrees_info("worktree /r/a"), vec![wt("/r/a", None)]);
}

#[test]
fn empty_listing_has_no_worktrees() {
    assert_eq!(list_worktrees_info(""), Vec::<WorktreeInfo>::new());
    assert_eq!(list_worktrees_info("HEAD 1\nbare\n"), Vec::<WorktreeInfo>::new());
}

#[test]
fn branch_outside_local_heads_is_no_branch() {
    assert_eq!(
        list_worktrees_info("worktree /r/a\nbranch refs/remotes/origin/a\n"),
        vec![wt("/r/a", None)]
    );
}

#[test]
fn later_branch_line_replaces_earlier_one() {
    assert_eq!(
        list_worktrees_info("worktree /r/a\nbranch refs/heads/a\nbranch refs/heads/b\n"),
        vec![wt("/r/a", Some("b"))]
    );
    assert_eq!(
        list_worktrees_info("worktree /r/a\nbranch refs/heads/a\nbranch elsewhere\n"),
        vec![wt("/r/a", None)]
    );
}

#[test]
fn branch_line_before_first_worktree_is_passed_over() {
    assert_eq!(
        list_worktrees_info("branch refs/heads/x\nworktree /r/a\nworktree /r/b\n"),
        vec![wt("/r/a", None), wt("/r/b", None)]
    );
}

#[test]
fn branch_does_not_leak_into_next_record() {
    assert_eq!(
        list_worktrees_info("worktree /r/a\nbranch refs/heads/a\nworktree /r/b\n"),
        vec![wt("/r/a", Some("a")), wt("/r/b", None)]
    );
}

#[test]
fn branch_line_is_trimmed_and_path_is_not() {
    assert_eq!(
        list_worktrees_info("worktree /r/with space \nbranch   refs/heads/a  \n"),
        vec![wt("/r/with space ", Some("a"))]
    );
}

#[test]
fn carriage_returns_before_line_feeds_are_dropped() {
    assert_eq!(
        list_worktrees_info("worktree /r/a\r\nbranch refs/heads/a\r\n"),
        vec![wt("/r/a", Some("a"))]
    );
}

#[test]
fn repeated_keyword_is_taken_away() {
    assert_eq!(list_worktrees_info("worktree worktree /r/a\n"), vec![wt("/r/a", None)]);
}

#[test]
fn worktree_for_branch_finds_first_match() {
    let wts = vec![wt("/r/main", Some("main")), wt("/r/x", None), wt("/r/dev", Some("dev")), wt("/r/dev2", Some("dev"))];
    assert_eq!(worktree_for_branch(&wts, "dev"), Some(&wts[2]));
    assert_eq!(worktree_for_branch(&wts, "main"), Some(&wts[0]));
    assert_eq!(worktree_for_branch(&wts, "de"), None);
    assert_eq!(worktree_for_branch(&wts, ""), None);
    assert_eq!(worktree_for_branch(&[], "main"), None);
}
