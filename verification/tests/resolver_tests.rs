use gww::model::{
    placeholder_summary, BranchInfo, BranchMeta, BranchMetadata, BranchSource, BranchSummary,
    WorktreeInfo,
};
use gww::ranking::sort_by_recent;
use gww::resolver::{branches_with_worktree, build_branch_candidates};

fn names(v: &[&str]) -> Vec<String> {
    v.iter().map(|s| s.to_string()).collect()
}

fn wt(path: &str, branch: Option<&str>) -> WorktreeInfo {
    WorktreeInfo { path: path.to_string(), branch: branch.map(|b| b.to_string()) }
}

fn summary(tag: &str) -> BranchSummary {
    BranchSummary {
        timestamp_label: format!("time of {tag}"),
        author: format!("author of {tag}"),
        subject: format!("subject of {tag}"),
    }
}

fn table(entries: &[(&str, i64)]) -> BranchMetadata {
    let mut meta = BranchMetadata::new();
    for (name, ts) in entries {
        meta.insert(name.to_string(), BranchMeta { timestamp_unix: *ts, summary: summary(name) });
    }
    meta
}

fn shown(candidates: &[BranchInfo]) -> Vec<(String, BranchSource, bool)> {
    candidates.iter().map(|c| (c.name.clone(), c.source, c.is_current)).collect()
}

#[test]
fn placeholder_summary_names_the_unknown() {
    let p = placeholder_summary();
    assert_eq!(p.timestamp_label, "unknown time");
    assert_eq!(p.author, "unknown author");
    assert_eq!(p.subject, "unknown subject");
}

#[test]
fn metadata_table_replaces_and_finds() {
    let mut meta = BranchMetadata::new();
    assert_eq!(meta.get("a"), None);
    meta.insert("a".to_string(), BranchMeta { timestamp_unix: 1, summary: summary("old") });
    meta.insert("a".to_string(), BranchMeta { timestamp_unix: 2, summary: summary("new") });
    assert_eq!(meta.get("a"), Some(&BranchMeta { timestamp_unix: 2, summary: summary("new") }));
    assert_eq!(meta.timestamp("a"), 2);
    assert_eq!(meta.timestamp("b"), 0);
    assert_eq!(meta.summary("a"), summary("new"));
    assert_eq!(meta.summary("b"), placeholder_summary());
    assert_eq!(summary("new").duplicate(), summary("new"));
}

#[test]
fn sort_puts_later_commits_first() {
    let meta = table(&[("a", 10), ("b", 30), ("c", 20)]);
    assert_eq!(sort_by_recent(&names(&["a", "b", "c"]), &meta), names(&["b", "c", "a"]));
}

#[test]
fn sort_breaks_ties_by_name() {
    let meta = table(&[("zeta", 10), ("alpha", 10), ("mid", 10), ("new", 11)]);
    assert_eq!(
        sort_by_recent(&names(&["zeta", "mid", "new", "alpha"]), &meta),
        names(&["new", "alpha", "mid", "zeta"])
    );
}

#[test]
fn sort_removes_duplicates() {
    let meta = table(&[("a", 1), ("b", 2)]);
    assert_eq!(sort_by_recent(&names(&["a", "b", "a", "b", "a"]), &meta), names(&["b", "a"]));
}

#[test]
fn sort_ranks_unrecorded_names_as_of_time_zero() {
    let meta = table(&[("old", 5), ("older", 1), ("ancient", -7), ("epoch", 0)]);
    assert_eq!(
        sort_by_recent(&names(&["ancient", "unknown", "older", "epoch", "old", "a"]), &meta),
        names(&["old", "older", "a", "epoch", "unknown", "ancient"])
    );
}

#[test]
fn sort_of_nothing_is_nothing() {
    assert_eq!(sort_by_recent(&[], &BranchMetadata::new()), Vec::<String>::new());
}

#[test]
fn sort_handles_many_names() {
    let mut input = Vec::new();
    let mut meta = BranchMetadata::new();
    for i in 0..200i64 {
        let name = format!("b{:03}", (i * 37) % 200);
        meta.insert(
            name.clone(),
            BranchMeta { timestamp_unix: ((i * 37) % 200) / 2, summary: summary("x") },
        );
        input.push(name);
    }
    let mut want = input.clone();
    want.sort_by(|a, b| {
        let ta: i64 = a[1..].parse::<i64>().unwrap() / 2;
        let tb: i64 = b[1..].parse::<i64>().unwrap() / 2;
        tb.cmp(&ta).then_with(|| a.cmp(b))
    });
    assert_eq!(sort_by_recent(&input, &meta), want);
}

#[test]
fn scenario_main_dev_feat() {
    let worktrees = vec![wt("/r/main", Some("main"))];
    let locals = names(&["main", "dev"]);
    let remotes = names(&["origin/dev", "origin/feat"]);
    let got = build_branch_candidates(&worktrees, &locals, &remotes, &BranchMetadata::new(), Some("main"));
    assert_eq!(
        shown(&got),
        vec![
            ("main".to_string(), BranchSource::Worktree, true),
            ("dev".to_string(), BranchSource::Local, false),
            ("origin/feat".to_string(), BranchSource::Remote, false),
        ]
    );
}

#[test]
fn candidates_carry_summaries_or_the_placeholder() {
    let worktrees = vec![wt("/r/main", Some("main"))];
    let locals = names(&["dev"]);
    let remotes = names(&["origin/feat"]);
    let meta = table(&[("main", 3), ("origin/feat", 1)]);
    let got = build_branch_candidates(&worktrees, &locals, &remotes, &meta, None);
    assert_eq!(
        got,
        vec![
            BranchInfo {
                name: "main".to_string(),
                source: BranchSource::Worktree,
                summary: summary("main"),
                is_current: false
            },
            BranchInfo {
                name: "dev".to_string(),
                source: BranchSource::Local,
                summary: placeholder_summary(),
                is_current: false
            },
            BranchInfo {
                name: "origin/feat".to_string(),
                source: BranchSource::Remote,
                summary: summary("origin/feat"),
                is_current: false
            },
        ]
    );
}

#[test]
fn current_branch_with_worktree_is_first() {
    let worktrees = vec![wt("/r/a", Some("a")), wt("/r/b", Some("b")), wt("/r/c", Some("c")), wt("/r/d", None)];
    let meta = table(&[("a", 30), ("b", 20), ("c", 10)]);
    let got = build_branch_candidates(&worktrees, &[], &[], &meta, Some("c"));
    assert_eq!(
        shown(&got),
        vec![
            ("c".to_string(), BranchSource::Worktree, true),
            ("a".to_string(), BranchSource::Worktree, false),
            ("b".to_string(), BranchSource::Worktree, false),
        ]
    );
}

#[test]
fn current_branch_without_worktree_stays_in_its_tier() {
    let worktrees = vec![wt("/r/a", Some("a"))];
    let locals = names(&["x", "y"]);
    let meta = table(&[("x", 5), ("y", 9)]);
    let got = build_branch_candidates(&worktrees, &locals, &[], &meta, Some("x"));
    assert_eq!(
        shown(&got),
        vec![
            ("a".to_string(), BranchSource::Worktree, false),
            ("y".to_string(), BranchSource::Local, false),
            ("x".to_string(), BranchSource::Local, true),
        ]
    );
}

#[test]
fn remote_is_current_by_its_short_name() {
    let remotes = names(&["origin/x", "origin/y"]);
    let got = build_branch_candidates(&[], &[], &remotes, &BranchMetadata::new(), Some("y"));
    assert_eq!(
        shown(&got),
        vec![
            ("origin/x".to_string(), BranchSource::Remote, false),
            ("origin/y".to_string(), BranchSource::Remote, true),
        ]
    );
}

#[test]
fn tiers_keep_their_order_whatever_the_times() {
    let worktrees = vec![wt("/r/w", Some("w"))];
    let locals = names(&["l"]);
    let remotes = names(&["origin/r"]);
    let meta = table(&[("w", 1), ("l", 2), ("origin/r", 3)]);
    let got = build_branch_candidates(&worktrees, &locals, &remotes, &meta, None);
    assert_eq!(
        shown(&got),
        vec![
            ("w".to_string(), BranchSource::Worktree, false),
            ("l".to_string(), BranchSource::Local, false),
            ("origin/r".to_string(), BranchSource::Remote, false),
        ]
    );
}

#[test]
fn no_name_is_offered_twice() {
    let worktrees = vec![wt("/r/main", Some("main")), wt("/r/main2", Some("main")), wt("/r/dev", Some("dev"))];
    let locals = names(&["main", "dev", "feat", "feat"]);
    let remotes = names(&["origin/main", "origin/feat", "origin/new", "fork/new", "origin/new"]);
    let got = build_branch_candidates(&worktrees, &locals, &remotes, &BranchMetadata::new(), Some("dev"));
    let got_names: Vec<String> = got.iter().map(|c| c.name.clone()).collect();
    assert_eq!(got_names, names(&["dev", "main", "feat", "fork/new", "origin/new"]));
}

#[test]
fn remote_is_suppressed_by_worktree_or_local_of_its_short_name() {
    let worktrees = vec![wt("/r/a", Some("a"))];
    let locals = names(&["b"]);
    let remotes = names(&["origin/a", "origin/b", "origin/c"]);
    let got = build_branch_candidates(&worktrees, &locals, &remotes, &BranchMetadata::new(), None);
    let got_names: Vec<String> = got.iter().map(|c| c.name.clone()).collect();
    assert_eq!(got_names, names(&["a", "b", "origin/c"]));
}

#[test]
fn remote_under_the_name_of_a_local_branch_is_offered_twice() {
    let locals = names(&["origin/x"]);
    let remotes = names(&["origin/x"]);
    let got = build_branch_candidates(&[], &locals, &remotes, &BranchMetadata::new(), None);
    assert_eq!(
        shown(&got),
        vec![
            ("origin/x".to_string(), BranchSource::Local, false),
            ("origin/x".to_string(), BranchSource::Remote, false),
        ]
    );
}

#[test]
fn tiers_are_sorted_by_time_then_name() {
    let worktrees = vec![wt("/1", Some("w-old")), wt("/2", Some("w-new")), wt("/3", Some("w-none"))];
    let locals = names(&["l-b", "l-a", "l-new", "l-none"]);
    let remotes = names(&["o/r-old", "o/r-none", "o/r-new"]);
    let meta = table(&[
        ("w-old", 1),
        ("w-new", 2),
        ("l-a", 5),
        ("l-b", 5),
        ("l-new", 6),
        ("o/r-old", 100),
        ("o/r-new", 200),
    ]);
    let got = build_branch_candidates(&worktrees, &locals, &remotes, &meta, None);
    let got_names: Vec<String> = got.iter().map(|c| c.name.clone()).collect();
    assert_eq!(
        got_names,
        names(&["w-new", "w-old", "w-none", "l-new", "l-a", "l-b", "l-none", "o/r-new", "o/r-old", "o/r-none"])
    );
}

#[test]
fn nothing_gives_no_candidates() {
    assert_eq!(build_branch_candidates(&[], &[], &[], &BranchMetadata::new(), None), Vec::<BranchInfo>::new());
}

#[test]
fn branches_with_worktree_keep_the_order_of_the_worktrees() {
    let worktrees = vec![wt("/1", Some("zeta")), wt("/2", None), wt("/3", Some("alpha")), wt("/4", Some("zeta"))];
    assert_eq!(branches_with_worktree(&worktrees), names(&["zeta", "alpha", "zeta"]));
    assert_eq!(branches_with_worktree(&[]), Vec::<String>::new());
}

#[test]
fn unrecorded_name_stands_after_recorded_ones_of_its_tier() {
    let locals = names(&["aaa", "zzz", "mmm"]);
    let meta = table(&[("zzz", 1), ("mmm", 1_000_000)]);
    let got = build_branch_candidates(&[], &locals, &[], &meta, None);
    let got_names: Vec<String> = got.iter().map(|c| c.name.clone()).collect();
    assert_eq!(got_names, names(&["mmm", "zzz", "aaa"]));
}

#[test]
fn name_recorded_before_the_epoch_stands_after_unrecorded_ones() {
    let locals = names(&["a", "b"]);
    let meta = table(&[("a", -1)]);
    let got = build_branch_candidates(&[], &locals, &[], &meta, None);
    let got_names: Vec<String> = got.iter().map(|c| c.name.clone()).collect();
    assert_eq!(got_names, names(&["b", "a"]));
}
