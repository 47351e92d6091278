use gww::queries::GitQuery;
use gww::shell::{autocd, cd_line, CD_PREFIX};

fn names(v: &[&str]) -> Vec<String> {
    v.iter().map(|s| s.to_string()).collect()
}

#[test]
fn cd_line_begins_with_the_token() {
    assert_eq!(cd_line("/wt/repo/feat"), "GWW_CD:/wt/repo/feat");
    assert_eq!(cd_line(""), "GWW_CD:");
    assert_eq!(CD_PREFIX, "GWW_CD:");
}

#[test]
fn autocd_script_reads_the_token() {
    let want = "gww() {\n    local output\n    output=$(command gww \"$@\")\n    local exit_code=$?\n    echo \"$output\"\n    if [ $exit_code -eq 0 ]; then\n        local cd_path\n        cd_path=$(echo \"$output\" | grep \"^GWW_CD:\" | cut -d: -f2-)\n        [ -n \"$cd_path\" ] && cd \"$cd_path\"\n    fi\n    return $exit_code\n}\n\n_gww_cd() {\n    local output\n    output=$(command gww checkout \"$@\")\n    local exit_code=$?\n    if [ $exit_code -ne 0 ]; then\n        echo \"$output\"\n        return $exit_code\n    fi\n    local cd_path\n    cd_path=$(echo \"$output\" | grep \"^GWW_CD:\" | cut -d: -f2-)\n    [ -n \"$cd_path\" ] && cd \"$cd_path\"\n}\n";
    assert_eq!(autocd(), want);
}

#[test]
fn query_arguments() {
    assert_eq!(GitQuery::WorktreeList.arguments(), names(&["worktree", "list"]));
    assert_eq!(GitQuery::WorktreeListPorcelain.arguments(), names(&["worktree", "list", "--porcelain"]));
    assert_eq!(GitQuery::Toplevel.arguments(), names(&["rev-parse", "--show-toplevel"]));
    assert_eq!(GitQuery::OriginUrl.arguments(), names(&["remote", "get-url", "origin"]));
    assert_eq!(
        GitQuery::LocalBranches.arguments(),
        names(&["for-each-ref", "refs/heads", "--format=%(refname:short)"])
    );
    assert_eq!(
        GitQuery::RemoteBranches.arguments(),
        names(&["for-each-ref", "refs/remotes", "--format=%(refname:short)"])
    );
    assert_eq!(GitQuery::CurrentBranch.arguments(), names(&["rev-parse", "--abbrev-ref", "HEAD"]));
}

#[test]
fn metadata_query_asks_for_five_fields() {
    assert_eq!(
        GitQuery::BranchMetadata.arguments(),
        names(&[
            "for-each-ref",
            "refs/heads",
            "refs/remotes",
            "--format=%(refname:short)%x1f%(committerdate:unix)%x1f%(committerdate:iso8601-strict)%x1f%(authorname)%x1f%(subject)"
        ])
    );
}

#[test]
fn existence_queries_name_the_full_ref() {
    assert_eq!(
        GitQuery::BranchExists { branch: "feat/x".to_string() }.arguments(),
        names(&["show-ref", "--verify", "--quiet", "refs/heads/feat/x"])
    );
    assert_eq!(
        GitQuery::RemoteBranchExists { branch: "origin/x".to_string() }.arguments(),
        names(&["show-ref", "--verify", "--quiet", "refs/remotes/origin/x"])
    );
}
