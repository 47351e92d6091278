use gww::error::GwwError;
use gww::planner::{
    base_name, join_path, parent_dir, repo_name_from_url, repo_name_stem,
    worktree_path_for_branch, worktree_root, PathConfig,
};

fn cs(s: &str) -> Vec<char> {
    s.chars().collect()
}

fn top(path: &str) -> Result<String, GwwError> {
    Ok(path.to_string())
}

fn no_top() -> Result<String, GwwError> {
    Err(GwwError::GitFailed { message: "fatal: not a git repository".to_string() })
}

fn config(
    root: Option<&str>,
    home: Option<&str>,
    origin: Option<&str>,
    toplevel: Result<String, GwwError>,
) -> PathConfig {
    PathConfig {
        worktree_root: root.map(|s| s.to_string()),
        home: home.map(|s| s.to_string()),
        origin_url: origin.map(|s| s.to_string()),
        toplevel,
    }
}

#[test]
fn repo_identity_from_origin_url() {
    assert_eq!(repo_name_from_url("git@host:org/my-repo.git"), Some("my-repo".to_string()));
    assert_eq!(
        repo_name_stem(Some("git@host:org/my-repo.git"), &no_top()),
        Ok("my-repo".to_string())
    );
}

#[test]
fn repo_identity_from_toplevel_without_origin() {
    assert_eq!(repo_name_stem(None, &top("/home/u/proj")), Ok("proj".to_string()));
}

#[test]
fn repo_name_from_url_strips_slashes_and_suffix() {
    assert_eq!(repo_name_from_url("https://host/org/repo.git/"), Some("repo".to_string()));
    assert_eq!(repo_name_from_url("https://host/org/repo///"), Some("repo".to_string()));
    assert_eq!(repo_name_from_url("https://host/org/repo"), Some("repo".to_string()));
    assert_eq!(repo_name_from_url("repo.git.git"), Some("repo".to_string()));
    assert_eq!(repo_name_from_url("git@host:repo.git"), Some("git@host:repo".to_string()));
}

#[test]
fn address_without_a_name_gives_none() {
    assert_eq!(repo_name_from_url(""), None);
    assert_eq!(repo_name_from_url("/"), None);
    assert_eq!(repo_name_from_url("///"), None);
    assert_eq!(repo_name_from_url("x/.git"), None);
    assert_eq!(repo_name_from_url(".git"), None);
    assert_eq!(repo_name_from_url("https://host/org/.git/"), None);
}

#[test]
fn origin_without_a_name_falls_back_to_the_top_directory() {
    assert_eq!(repo_name_stem(Some(""), &top("/home/u/proj")), Ok("proj".to_string()));
    assert_eq!(repo_name_stem(Some(" / \n"), &top("/home/u/proj")), Ok("proj".to_string()));
    assert_eq!(repo_name_stem(Some("x/.git"), &top("/home/u/proj\n")), Ok("proj".to_string()));
    assert_eq!(repo_name_stem(Some(""), &top("/")), Err(GwwError::RepositoryNameUnknown));
    assert_eq!(repo_name_stem(Some(""), &no_top()), Err(no_top().unwrap_err()));
}

#[test]
fn repo_name_stem_prefers_origin_and_trims() {
    assert_eq!(
        repo_name_stem(Some("  https://host/org/repo.git\n"), &top("/home/u/proj")),
        Ok("repo".to_string())
    );
    assert_eq!(repo_name_stem(None, &top(" /home/u/proj\n")), Ok("proj".to_string()));
}

#[test]
fn repo_name_stem_fails_without_a_name() {
    assert_eq!(repo_name_stem(None, &top("/")), Err(GwwError::RepositoryNameUnknown));
    assert_eq!(repo_name_stem(None, &top("")), Err(GwwError::RepositoryNameUnknown));
    assert_eq!(repo_name_stem(None, &top("/a/..")), Err(GwwError::RepositoryNameUnknown));
}

#[test]
fn failure_of_git_to_name_the_top_directory_is_passed_on() {
    assert_eq!(
        repo_name_stem(None, &no_top()),
        Err(GwwError::GitFailed { message: "fatal: not a git repository".to_string() })
    );
}

#[test]
fn base_name_is_the_last_component() {
    assert_eq!(base_name(&cs("/usr/bin/")), Some("bin".to_string()));
    assert_eq!(base_name(&cs("tmp/foo.txt")), Some("foo.txt".to_string()));
    assert_eq!(base_name(&cs("foo.txt/.")), Some("foo.txt".to_string()));
    assert_eq!(base_name(&cs("foo.txt/.//")), Some("foo.txt".to_string()));
    assert_eq!(base_name(&cs("foo.txt/..")), None);
    assert_eq!(base_name(&cs("/")), None);
    assert_eq!(base_name(&cs("")), None);
    assert_eq!(base_name(&cs(".")), None);
    assert_eq!(base_name(&cs("./")), None);
    assert_eq!(base_name(&cs("..")), None);
    assert_eq!(base_name(&cs("./a")), Some("a".to_string()));
    assert_eq!(base_name(&cs("a/../.")), None);
    assert_eq!(base_name(&cs("...")), Some("...".to_string()));
    assert_eq!(base_name(&cs(".git")), Some(".git".to_string()));
}

#[test]
fn base_name_matches_the_standard_library() {
    for p in ["/home/u/proj", "/home/u/proj/", "a//b", "a/./", "/..", "x/.", " ", "a/b/c.d"] {
        let want = std::path::Path::new(p).file_name().map(|n| n.to_str().unwrap().to_string());
        assert_eq!(base_name(&cs(p)), want, "{:?}", p);
    }
}

#[test]
fn join_path_puts_one_separator_between() {
    assert_eq!(join_path("/root", "repo"), "/root/repo");
    assert_eq!(join_path("/root/", "repo"), "/root/repo");
    assert_eq!(join_path("", "repo"), "repo");
    assert_eq!(join_path("/root", ""), "/root/");
    assert_eq!(join_path("/", "x"), "/x");
    assert_eq!(join_path("a", "b/c"), "a/b/c");
}

#[test]
fn join_path_lets_an_absolute_part_replace_the_base() {
    assert_eq!(join_path("/root", "/etc"), "/etc");
}

#[test]
fn join_path_matches_the_standard_library() {
    for (a, b) in [("/r", "x"), ("/r/", "x"), ("", "x"), ("r", ""), ("/r", "/x"), ("r//", "x/y"), ("", "")] {
        let want = std::path::Path::new(a).join(b).to_str().unwrap().to_string();
        assert_eq!(join_path(a, b), want, "{:?} {:?}", a, b);
    }
}

#[test]
fn worktree_root_prefers_the_configured_one() {
    assert_eq!(worktree_root(Some("/wt"), Some("/home/u")), Ok("/wt".to_string()));
    assert_eq!(worktree_root(Some("/wt"), None), Ok("/wt".to_string()));
}

#[test]
fn worktree_root_defaults_under_home() {
    assert_eq!(worktree_root(None, Some("/home/u")), Ok("/home/u/devel/worktrees".to_string()));
    assert_eq!(worktree_root(None, Some("/home/u/")), Ok("/home/u/devel/worktrees".to_string()));
}

#[test]
fn worktree_root_needs_home_without_configuration() {
    assert_eq!(worktree_root(None, None), Err(GwwError::HomeNotSet));
}

#[test]
fn path_is_root_repo_branch() {
    let c = config(Some("/wt"), None, Some("git@host:org/my-repo.git"), top("/home/u/proj"));
    assert_eq!(worktree_path_for_branch(&c, "feature/x"), Ok("/wt/my-repo/feature/x".to_string()));
    let c = config(None, Some("/home/u"), None, top("/home/u/proj"));
    assert_eq!(
        worktree_path_for_branch(&c, "main"),
        Ok("/home/u/devel/worktrees/proj/main".to_string())
    );
}

#[test]
fn path_fails_first_on_the_root_then_on_the_name() {
    let c = config(None, None, None, no_top());
    assert_eq!(worktree_path_for_branch(&c, "main"), Err(GwwError::HomeNotSet));
    let c = config(Some("/wt"), None, None, no_top());
    assert_eq!(worktree_path_for_branch(&c, "main"), Err(no_top().unwrap_err()));
    let c = config(None, Some("/h"), None, top("/"));
    assert_eq!(worktree_path_for_branch(&c, "main"), Err(GwwError::RepositoryNameUnknown));
}

#[test]
fn path_of_a_repository_whose_origin_gives_no_name_lies_under_its_directory_name() {
    let c = config(Some("/wt"), None, Some(""), top("/home/u/proj"));
    assert_eq!(worktree_path_for_branch(&c, "main"), Ok("/wt/proj/main".to_string()));
}

#[test]
fn parent_dir_is_the_path_without_its_last_component() {
    assert_eq!(parent_dir("/wt/repo/feature/x"), Some("/wt/repo/feature".to_string()));
    assert_eq!(parent_dir("/wt/repo/main"), Some("/wt/repo".to_string()));
    assert_eq!(parent_dir("/a"), Some("/".to_string()));
    assert_eq!(parent_dir("a"), Some("".to_string()));
    assert_eq!(parent_dir("a/b/"), Some("a".to_string()));
    assert_eq!(parent_dir("a//b"), Some("a".to_string()));
    assert_eq!(parent_dir("a/./b"), Some("a".to_string()));
    assert_eq!(parent_dir("./a"), Some(".".to_string()));
    assert_eq!(parent_dir("../a"), Some("..".to_string()));
}

#[test]
fn root_and_empty_path_have_no_parent() {
    assert_eq!(parent_dir("/"), None);
    assert_eq!(parent_dir(""), None);
    assert_eq!(parent_dir("//"), None);
    assert_eq!(parent_dir("/."), None);
}

#[test]
fn parent_dir_matches_the_standard_library() {
    let alphabet = ['/', '.', 'a'];
    let mut paths = vec![String::new()];
    let mut start = 0;
    for _ in 0..8 {
        let end = paths.len();
        for i in start..end {
            for c in alphabet {
                let mut p = paths[i].clone();
                p.push(c);
                paths.push(p);
            }
        }
        start = end;
    }
    assert_eq!(paths.len(), 9841);
    for p in paths {
        let want = std::path::Path::new(&p).parent().map(|d| d.to_str().unwrap().to_string());
        assert_eq!(parent_dir(&p), want, "{:?}", p);
    }
}

#[test]
fn base_name_and_join_match_the_standard_library_on_short_paths() {
    let alphabet = ['/', '.', 'a'];
    let mut paths = vec![String::new()];
    let mut start = 0;
    for _ in 0..6 {
        let end = paths.len();
        for i in start..end {
            for c in alphabet {
                let mut p = paths[i].clone();
                p.push(c);
                paths.push(p);
            }
        }
        start = end;
    }
    for p in &paths {
        let want = std::path::Path::new(p).file_name().map(|n| n.to_str().unwrap().to_string());
        assert_eq!(base_name(&cs(p)), want, "{:?}", p);
    }
    for a in paths.iter().take(121) {
        for b in paths.iter().take(121) {
            let want = std::path::Path::new(a).join(b).to_str().unwrap().to_string();
            assert_eq!(join_path(a, b), want, "{:?} {:?}", a, b);
        }
    }
}
