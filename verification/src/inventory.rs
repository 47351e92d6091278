//! The inventory reader: the existing worktrees, read from the listing
//! that git prints of them.

use crate::model::{WorktreeInfo, WorktreeView};
use crate::text::{
    chars_of, has_prefix, lines, lines_of, starts_with, string_of, strip_prefix, texts_of, trim,
    trim_leading, trimmed, without_leading, without_prefix,
};
use vstd::prelude::*;

verus! {

/// The branch that a `branch` line names: what follows the keyword,
/// without the white space around it and without `refs/heads/` before it.
/// `None` where it names no local branch.
pub open spec fn branch_of_line(line: Seq<char>) -> Option<Seq<char>> {
    without_prefix(trimmed(without_leading(line, "branch "@)), "refs/heads/"@)
}

/// The records after one more line of the listing. A line that begins
/// with `worktree ` starts a record, whose path is what follows the
/// keyword. A line that begins with `branch ` gives the record started
/// last its branch; before the first record it says nothing. Every other
/// line is passed over.
pub open spec fn read_line(records: Seq<WorktreeView>, line: Seq<char>) -> Seq<WorktreeView> {
    if starts_with(line, "worktree "@) {
        records.push(WorktreeView { path: without_leading(line, "worktree "@), branch: None })
    } else if starts_with(line, "branch "@) && records.len() > 0 {
        records.update(
            records.len() - 1,
            WorktreeView { path: records.last().path, branch: branch_of_line(line) },
        )
    } else {
        records
    }
}

/// The records after the given lines of the listing.
pub open spec fn read_lines(lines: Seq<Seq<char>>) -> Seq<WorktreeView>
    decreases lines.len(),
{
    if lines.len() == 0 {
        seq![]
    } else {
        read_line(read_lines(lines.drop_last()), lines.last())
    }
}

/// The worktrees that a listing describes, in the order of the listing.
pub open spec fn worktrees_of(listing: Seq<char>) -> Seq<WorktreeView> {
    read_lines(lines_of(listing))
}

/// The records that are done, and after them the one in progress.
spec fn with_open_record(
    done: Seq<WorktreeView>,
    path: Option<Seq<char>>,
    branch: Option<Seq<char>>,
) -> Seq<WorktreeView> {
    match path {
        Some(p) => done.push(WorktreeView { path: p, branch }),
        None => done,
    }
}

/// Reads the worktrees from the listing that `git worktree list
/// --porcelain` prints.
pub fn list_worktrees_info(output: &str) -> (r: Vec<WorktreeInfo>)
    ensures
        r.deep_view() == worktrees_of(output@),
{
    let text = chars_of(output);
    let all = lines(text.as_slice());
    let worktree_word = chars_of("worktree ");
    let branch_word = chars_of("branch ");
    let heads = chars_of("refs/heads/");
    let mut worktrees: Vec<WorktreeInfo> = Vec::new();
    let mut current_path: Option<String> = None;
    let mut current_branch: Option<String> = None;
    let mut i: usize = 0;
    while i < all.len()
        invariant
            i <= all.len(),
            worktree_word@ == "worktree "@,
            branch_word@ == "branch "@,
            heads@ == "refs/heads/"@,
            current_path is None ==> current_branch is None && worktrees.len() == 0,
            with_open_record(
                worktrees.deep_view(),
                current_path.deep_view(),
                current_branch.deep_view(),
            ) == read_lines(texts_of(all@).take(i as int)),
        decreases all.len() - i,
    {
        let line = all[i];
        let ghost before = read_lines(texts_of(all@).take(i as int));
        proof {
            assert(texts_of(all@).take(i + 1).drop_last() =~= texts_of(all@).take(i as int));
            assert(texts_of(all@).take(i + 1).last() == line@);
        }
        if has_prefix(line, worktree_word.as_slice()) {
            match current_path {
                Some(path) => {
                    worktrees.push(WorktreeInfo { path, branch: current_branch });
                    assert(worktrees.deep_view() =~= before);
                },
                None => {},
            }
            current_path = Some(string_of(trim_leading(line, worktree_word.as_slice())));
            current_branch = None;
            assert(with_open_record(
                worktrees.deep_view(),
                current_path.deep_view(),
                current_branch.deep_view(),
            ) =~= read_line(before, line@));
        } else if has_prefix(line, branch_word.as_slice()) {
            let name = trim(trim_leading(line, branch_word.as_slice()));
            if current_path.is_some() {
                current_branch = match strip_prefix(name, heads.as_slice()) {
                    Some(b) => Some(string_of(b)),
                    None => None,
                };
                assert(with_open_record(
                    worktrees.deep_view(),
                    current_path.deep_view(),
                    current_branch.deep_view(),
                ) =~= read_line(before, line@));
            }
        }
        i += 1;
    }
    assert(texts_of(all@).take(all.len() as int) =~= texts_of(all@));
    match current_path {
        Some(path) => {
            worktrees.push(WorktreeInfo { path, branch: current_branch });
            assert(worktrees.deep_view() =~= worktrees_of(output@));
        },
        None => {},
    }
    worktrees
}

/// The first worktree that has `branch` checked out.
pub open spec fn worktree_with_branch(
    worktrees: Seq<WorktreeView>,
    branch: Seq<char>,
) -> Option<WorktreeView>
    decreases worktrees.len(),
{
    if worktrees.len() == 0 {
        None
    } else if worktrees[0].branch == Some(branch) {
        Some(worktrees[0])
    } else {
        worktree_with_branch(worktrees.drop_first(), branch)
    }
}

/// The first worktree that has `branch` checked out.
pub fn worktree_for_branch<'a>(worktrees: &'a [WorktreeInfo], branch: &str) -> (r: Option<
    &'a WorktreeInfo,
>)
    ensures
        r.deep_view() == worktree_with_branch(worktrees.deep_view(), branch@),
{
    let wanted = branch.to_owned();
    let ghost views = worktrees.deep_view();
    let mut i: usize = 0;
    assert(views.skip(0) =~= views);
    while i < worktrees.len()
        invariant
            i <= worktrees.len(),
            views == worktrees.deep_view(),
            wanted@ == branch@,
            worktree_with_branch(views.skip(i as int), branch@) == worktree_with_branch(
                views,
                branch@,
            ),
        decreases worktrees.len() - i,
    {
        let found = match &worktrees[i].branch {
            Some(b) => *b == wanted,
            None => false,
        };
        assert(views.skip(i as int)[0] == worktrees[i as int]@);
        if found {
            return Some(&worktrees[i]);
        }
        assert(views.skip(i as int).drop_first() =~= views.skip(i + 1));
        i += 1;
    }
    None
}

/// Where a branch has a worktree, `worktree_with_branch` gives the first
/// record with that branch: no record before it has the branch.
pub proof fn lemma_worktree_with_branch_is_first(
    worktrees: Seq<WorktreeView>,
    branch: Seq<char>,
    i: int,
)
    requires
        0 <= i < worktrees.len(),
        worktrees[i].branch == Some(branch),
    ensures
        exists|k: int|
            0 <= k <= i && worktree_with_branch(worktrees, branch) == Some(#[trigger] worktrees[k])
                && worktrees[k].branch == Some(branch) && forall|j: int|
                0 <= j < k ==> (#[trigger] worktrees[j]).branch != Some(branch),
    decreases worktrees.len(),
{
    if worktrees[0].branch == Some(branch) {
        assert(worktree_with_branch(worktrees, branch) == Some(worktrees[0]));
    } else {
        let rest = worktrees.drop_first();
        assert(rest[i - 1] == worktrees[i]);
        lemma_worktree_with_branch_is_first(rest, branch, i - 1);
        let k = choose|k: int|
            0 <= k <= i - 1 && worktree_with_branch(rest, branch) == Some(#[trigger] rest[k])
                && rest[k].branch == Some(branch) && forall|j: int|
                0 <= j < k ==> (#[trigger] rest[j]).branch != Some(branch);
        assert(worktrees[k + 1] == rest[k]);
        assert forall|j: int| 0 <= j < k + 1 implies (#[trigger] worktrees[j]).branch != Some(
            branch,
        ) by {
            if j > 0 {
                assert(rest[j - 1] == worktrees[j]);
            }
        }
    }
}

} // verus!
