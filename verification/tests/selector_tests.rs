use gww::error::GwwError;
use gww::model::{BranchInfo, BranchSource, BranchSummary, WorktreeInfo};
use gww::selector::{
    format_branch_item, picked_branch, picked_name, select_branch, select_worktree_branch,
    SelectStep,
};

fn wt(path: &str, branch: Option<&str>) -> WorktreeInfo {
    WorktreeInfo { path: path.to_string(), branch: branch.map(|b| b.to_string()) }
}

fn info(name: &str, source: BranchSource, is_current: bool) -> BranchInfo {
    BranchInfo {
        name: name.to_string(),
        source,
        summary: BranchSummary {
            timestamp_label: "2024-01-02T03:04:05+00:00".to_string(),
            author: "Ada".to_string(),
            subject: "Fix \"it\"".to_string(),
        },
        is_current,
    }
}

#[test]
fn plain_item() {
    assert_eq!(
        format_branch_item(&info("main", BranchSource::Worktree, true), false),
        "[T*] main \"Fix \"it\"\" [Ada] (2024-01-02T03:04:05+00:00)"
    );
    assert_eq!(
        format_branch_item(&info("dev", BranchSource::Local, false), false),
        "[L ] dev \"Fix \"it\"\" [Ada] (2024-01-02T03:04:05+00:00)"
    );
    assert_eq!(
        format_branch_item(&info("origin/x", BranchSource::Remote, false), false),
        "[R ] origin/x \"Fix \"it\"\" [Ada] (2024-01-02T03:04:05+00:00)"
    );
}

#[test]
fn coloured_item() {
    assert_eq!(
        format_branch_item(&info("main", BranchSource::Worktree, true), true),
        "\x1b[36m\x1b[1m[T*]\x1b[0m main \x1b[35m\"Fix \"it\"\"\x1b[0m \x1b[33m[Ada]\x1b[0m \x1b[2m(2024-01-02T03:04:05+00:00)\x1b[0m"
    );
}

#[test]
fn coloured_item_is_what_the_terminal_library_renders() {
    let i = info("dev", BranchSource::Local, false);
    console::set_colors_enabled(true);
    let want = format!(
        "{} {} {} {} {}",
        console::style("[L ]").cyan().bold(),
        "dev",
        console::style("\"Fix \"it\"\"").magenta(),
        console::style("[Ada]").yellow(),
        console::style("(2024-01-02T03:04:05+00:00)").dim()
    );
    assert_eq!(format_branch_item(&i, true), want);
}

#[test]
fn explicit_name_is_taken_as_it_stands() {
    let candidates = vec![info("main", BranchSource::Worktree, true)];
    assert_eq!(
        select_branch(Some("no such/branch "), &candidates, false),
        Ok(SelectStep::Resolved { name: "no such/branch ".to_string() })
    );
    assert_eq!(
        select_branch(Some("x"), &[], true),
        Ok(SelectStep::Resolved { name: "x".to_string() })
    );
}

#[test]
fn no_candidates_is_a_failure() {
    assert_eq!(select_branch(None, &[], false), Err(GwwError::NoBranchesFound));
}

#[test]
fn picker_is_seeded_with_the_candidates_in_order() {
    let candidates = vec![info("main", BranchSource::Worktree, true), info("origin/x", BranchSource::Remote, false)];
    assert_eq!(
        select_branch(None, &candidates, false),
        Ok(SelectStep::Ask {
            items: vec![
                "[T*] main \"Fix \"it\"\" [Ada] (2024-01-02T03:04:05+00:00)".to_string(),
                "[R ] origin/x \"Fix \"it\"\" [Ada] (2024-01-02T03:04:05+00:00)".to_string(),
            ],
            default_index: 0,
        })
    );
}

#[test]
fn pick_gives_the_name_and_cancelling_fails() {
    let candidates = vec![info("main", BranchSource::Worktree, true), info("origin/x", BranchSource::Remote, false)];
    assert_eq!(picked_branch(&candidates, Some(1)), Ok("origin/x".to_string()));
    assert_eq!(picked_branch(&candidates, Some(0)), Ok("main".to_string()));
    assert_eq!(picked_branch(&candidates, None), Err(GwwError::SelectionCancelled));
}

#[test]
fn removal_offers_sorted_unique_worktree_branches() {
    let worktrees = vec![wt("/1", Some("zeta")), wt("/2", None), wt("/3", Some("alpha")), wt("/4", Some("zeta")), wt("/5", Some("Beta"))];
    assert_eq!(
        select_worktree_branch(&worktrees),
        Ok(SelectStep::Ask {
            items: vec!["Beta".to_string(), "alpha".to_string(), "zeta".to_string()],
            default_index: 0,
        })
    );
}

#[test]
fn removal_without_worktree_branches_fails() {
    assert_eq!(select_worktree_branch(&[]), Err(GwwError::NoWorktreesFound));
    assert_eq!(select_worktree_branch(&[wt("/1", None)]), Err(GwwError::NoWorktreesFound));
}

#[test]
fn picked_name_gives_the_choice() {
    let choices = vec!["a".to_string(), "b".to_string()];
    assert_eq!(picked_name(&choices, Some(1)), Ok("b".to_string()));
    assert_eq!(picked_name(&choices, None), Err(GwwError::SelectionCancelled));
}
