//! The questions that are put to git, each as the arguments of one run of
//! `git`. The readers of the other modules take what these runs print.

use vstd::prelude::*;
use vstd::string::StringExecFns;

verus! {

/// The format of one line of the batch of ref metadata: the short name,
/// the commit time in seconds, the commit time as a label, the author and
/// the subject, with U+001F between them.
pub const METADATA_FORMAT: &'static str =
    "--format=%(refname:short)%x1f%(committerdate:unix)%x1f%(committerdate:iso8601-strict)%x1f%(authorname)%x1f%(subject)";

/// A question to git.
#[derive(Debug, Clone, PartialEq, Eq)]
pub enum GitQuery {
    /// The worktrees, as git shows them to a reader.
    WorktreeList,
    /// The worktrees, in the form that `list_worktrees_info` reads.
    WorktreeListPorcelain,
    /// The repository's top directory.
    Toplevel,
    /// The address of the remote `origin`.
    OriginUrl,
    /// The short names of the local branches, one per line.
    LocalBranches,
    /// The short names of the remote branches, one per line.
    RemoteBranches,
    /// The metadata of the local and the remote refs, one ref per line.
    BranchMetadata,
    /// The branch that is checked out.
    CurrentBranch,
    /// Whether the local branch exists; git answers by its exit status.
    BranchExists { branch: String },
    /// Whether the remote branch exists; git answers by its exit status.
    RemoteBranchExists { branch: String },
}

/// The view of a `GitQuery`.
pub enum GitQueryView {
    WorktreeList,
    WorktreeListPorcelain,
    Toplevel,
    OriginUrl,
    LocalBranches,
    RemoteBranches,
    BranchMetadata,
    CurrentBranch,
    BranchExists { branch: Seq<char> },
    RemoteBranchExists { branch: Seq<char> },
}

impl View for GitQuery {
    type V = GitQueryView;

    open spec fn view(&self) -> GitQueryView {
        match self {
            GitQuery::WorktreeList => GitQueryView::WorktreeList,
            GitQuery::WorktreeListPorcelain => GitQueryView::WorktreeListPorcelain,
            GitQuery::Toplevel => GitQueryView::Toplevel,
            GitQuery::OriginUrl => GitQueryView::OriginUrl,
            GitQuery::LocalBranches => GitQueryView::LocalBranches,
            GitQuery::RemoteBranches => GitQueryView::RemoteBranches,
            GitQuery::BranchMetadata => GitQueryView::BranchMetadata,
            GitQuery::CurrentBranch => GitQueryView::CurrentBranch,
            GitQuery::BranchExists { branch } => GitQueryView::BranchExists { branch: branch@ },
            GitQuery::RemoteBranchExists { branch } => GitQueryView::RemoteBranchExists {
                branch: branch@,
            },
        }
    }
}

/// The arguments with which `git` is run for a question.
pub open spec fn arguments_of(query: GitQueryView) -> Seq<Seq<char>> {
    match query {
        GitQueryView::WorktreeList => seq!["worktree"@, "list"@],
        GitQueryView::WorktreeListPorcelain => seq!["worktree"@, "list"@, "--porcelain"@],
        GitQueryView::Toplevel => seq!["rev-parse"@, "--show-toplevel"@],
        GitQueryView::OriginUrl => seq!["remote"@, "get-url"@, "origin"@],
        GitQueryView::LocalBranches => seq![
            "for-each-ref"@,
            "refs/heads"@,
            "--format=%(refname:short)"@,
        ],
        GitQueryView::RemoteBranches => seq![
            "for-each-ref"@,
            "refs/remotes"@,
            "--format=%(refname:short)"@,
        ],
        GitQueryView::BranchMetadata => seq![
            "for-each-ref"@,
            "refs/heads"@,
            "refs/remotes"@,
            METADATA_FORMAT@,
        ],
        GitQueryView::CurrentBranch => seq!["rev-parse"@, "--abbrev-ref"@, "HEAD"@],
        GitQueryView::BranchExists { branch } => seq![
            "show-ref"@,
            "--verify"@,
            "--quiet"@,
            "refs/heads/"@ + branch,
        ],
        GitQueryView::RemoteBranchExists { branch } => seq![
            "show-ref"@,
            "--verify"@,
            "--quiet"@,
            "refs/remotes/"@ + branch,
        ],
    }
}

/// `args` with one more word.
fn with_word(args: Vec<String>, word: &str) -> (r: Vec<String>)
    ensures
        r.deep_view() == args.deep_view().push(word@),
{
    let mut args = args;
    let ghost before = args.deep_view();
    args.push(word.to_owned());
    assert(args.deep_view() =~= before.push(word@));
    args
}

/// The two words `a` and `b`.
fn two_words(a: &str, b: &str) -> (r: Vec<String>)
    ensures
        r.deep_view() == seq![a@, b@],
{
    let r = with_word(with_word(Vec::new(), a), b);
    assert(r.deep_view() =~= seq![a@, b@]);
    r
}

/// The three words `a`, `b` and `c`.
fn three_words(a: &str, b: &str, c: &str) -> (r: Vec<String>)
    ensures
        r.deep_view() == seq![a@, b@, c@],
{
    let r = with_word(two_words(a, b), c);
    assert(r.deep_view() =~= seq![a@, b@, c@]);
    r
}

/// The four words `a`, `b`, `c` and `d`.
fn four_words(a: &str, b: &str, c: &str, d: &str) -> (r: Vec<String>)
    ensures
        r.deep_view() == seq![a@, b@, c@, d@],
{
    let r = with_word(three_words(a, b, c), d);
    assert(r.deep_view() =~= seq![a@, b@, c@, d@]);
    r
}

impl GitQuery {
    /// The arguments with which `git` is run for this question.
    pub fn arguments(&self) -> (r: Vec<String>)
        ensures
            r.deep_view() == arguments_of(self@),
    {
        match self {
            GitQuery::WorktreeList => two_words("worktree", "list"),
            GitQuery::WorktreeListPorcelain => three_words("worktree", "list", "--porcelain"),
            GitQuery::Toplevel => two_words("rev-parse", "--show-toplevel"),
            GitQuery::OriginUrl => three_words("remote", "get-url", "origin"),
            GitQuery::LocalBranches => three_words(
                "for-each-ref",
                "refs/heads",
                "--format=%(refname:short)",
            ),
            GitQuery::RemoteBranches => three_words(
                "for-each-ref",
                "refs/remotes",
                "--format=%(refname:short)",
            ),
            GitQuery::BranchMetadata => four_words(
                "for-each-ref",
                "refs/heads",
                "refs/remotes",
                METADATA_FORMAT,
            ),
            GitQuery::CurrentBranch => three_words("rev-parse", "--abbrev-ref", "HEAD"),
            GitQuery::BranchExists { branch } => {
                let mut name = "refs/heads/".to_owned();
                name.append(branch.as_str());
                four_words("show-ref", "--verify", "--quiet", name.as_str())
            },
            GitQuery::RemoteBranchExists { branch } => {
                let mut name = "refs/remotes/".to_owned();
                name.append(branch.as_str());
                four_words("show-ref", "--verify", "--quiet", name.as_str())
            },
        }
    }
}

} // verus!
