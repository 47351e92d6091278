//! The candidate resolver: one ranked list of selectable branches out of
//! the worktrees, the local branches and the remote branches.

use crate::catalog::{strip_remote_prefix, stripped};
use crate::model::{
    summary_of, BranchInfo, BranchMetadata, BranchSource, CandidateView, MetaView, WorktreeInfo,
    WorktreeView,
};
use crate::ranking::{recency_before, sort_by_recent, sorted_by_recent};
use crate::tiers::{
    lemma_candidates_have_distinct_names, lemma_candidates_keep_tier_order,
    lemma_candidates_sorted_within_tiers, lemma_current_branch_is_first, lemma_position_of,
};
use vstd::hash_set::StringHashSet;
use vstd::prelude::*;

verus! {

/// The branches that have a worktree, in the order of the worktrees. A
/// worktree whose head is detached adds none.
pub open spec fn worktree_branches(worktrees: Seq<WorktreeView>) -> Seq<Seq<char>> {
    worktrees.filter_map(|w: WorktreeView| w.branch)
}

/// The first index at which `names` holds `name`, or the length of `names`
/// where it does not hold it.
pub open spec fn position_of(names: Seq<Seq<char>>, name: Seq<char>) -> nat
    decreases names.len(),
{
    if names.len() == 0 || names[0] == name {
        0
    } else {
        1 + position_of(names.drop_first(), name)
    }
}

/// `names` with the current branch moved to the front, where there is a
/// current branch and `names` holds it.
pub open spec fn current_first(names: Seq<Seq<char>>, current: Option<Seq<char>>) -> Seq<
    Seq<char>,
> {
    match current {
        Some(c) => {
            let p = position_of(names, c) as int;
            if p < names.len() {
                seq![c] + names.remove(p)
            } else {
                names
            }
        },
        None => names,
    }
}

/// The candidate for a branch that has a worktree.
pub open spec fn worktree_candidate(
    meta: Map<Seq<char>, MetaView>,
    current: Option<Seq<char>>,
) -> spec_fn(Seq<char>) -> CandidateView {
    |name: Seq<char>|
        CandidateView {
            name,
            source: BranchSource::Worktree,
            summary: summary_of(meta, name),
            is_current: current == Some(name),
        }
}

/// The candidate for a local branch, unless the branch has a worktree.
pub open spec fn local_candidate(
    meta: Map<Seq<char>, MetaView>,
    with_worktree: Seq<Seq<char>>,
    current: Option<Seq<char>>,
) -> spec_fn(Seq<char>) -> Option<CandidateView> {
    |name: Seq<char>|
        if with_worktree.contains(name) {
            None
        } else {
            Some(
                CandidateView {
                    name,
                    source: BranchSource::Local,
                    summary: summary_of(meta, name),
                    is_current: current == Some(name),
                },
            )
        }
}

/// The candidate for a remote branch, unless its name without the remote's
/// own is that of a branch with a worktree or of a local branch.
pub open spec fn remote_candidate(
    meta: Map<Seq<char>, MetaView>,
    with_worktree: Seq<Seq<char>>,
    locals: Seq<Seq<char>>,
    current: Option<Seq<char>>,
) -> spec_fn(Seq<char>) -> Option<CandidateView> {
    |name: Seq<char>|
        if with_worktree.contains(stripped(name)) || locals.contains(stripped(name)) {
            None
        } else {
            Some(
                CandidateView {
                    name,
                    source: BranchSource::Remote,
                    summary: summary_of(meta, name),
                    is_current: current == Some(stripped(name)),
                },
            )
        }
}

/// The first tier: the branches that have a worktree, the current branch
/// first and the others by recency.
pub open spec fn worktree_tier(
    meta: Map<Seq<char>, MetaView>,
    with_worktree: Seq<Seq<char>>,
    current: Option<Seq<char>>,
) -> Seq<CandidateView> {
    current_first(sorted_by_recent(meta, with_worktree), current).map_values(
        worktree_candidate(meta, current),
    )
}

/// The second tier: the local branches without a worktree, by recency.
pub open spec fn local_tier(
    meta: Map<Seq<char>, MetaView>,
    with_worktree: Seq<Seq<char>>,
    locals: Seq<Seq<char>>,
    current: Option<Seq<char>>,
) -> Seq<CandidateView> {
    sorted_by_recent(meta, locals).filter_map(local_candidate(meta, with_worktree, current))
}

/// The third tier: the remote branches that no local branch and no
/// worktree stands for, by recency.
pub open spec fn remote_tier(
    meta: Map<Seq<char>, MetaView>,
    with_worktree: Seq<Seq<char>>,
    locals: Seq<Seq<char>>,
    remotes: Seq<Seq<char>>,
    current: Option<Seq<char>>,
) -> Seq<CandidateView> {
    sorted_by_recent(meta, remotes).filter_map(
        remote_candidate(meta, with_worktree, locals, current),
    )
}

/// The candidates: the three tiers, one after another.
pub open spec fn candidates_of(
    worktrees: Seq<WorktreeView>,
    locals: Seq<Seq<char>>,
    remotes: Seq<Seq<char>>,
    meta: Map<Seq<char>, MetaView>,
    current: Option<Seq<char>>,
) -> Seq<CandidateView> {
    let with_worktree = worktree_branches(worktrees);
    worktree_tier(meta, with_worktree, current) + local_tier(
        meta,
        with_worktree,
        locals,
        current,
    ) + remote_tier(meta, with_worktree, locals, remotes, current)
}

/// The place of a tier in the list: the worktrees' first, the remotes'
/// last.
pub open spec fn tier_rank(source: BranchSource) -> int {
    match source {
        BranchSource::Worktree => 0,
        BranchSource::Local => 1,
        BranchSource::Remote => 2,
    }
}

/// Whether no candidate of a later tier stands before one of an earlier
/// tier.
pub open spec fn tiers_in_order(candidates: Seq<CandidateView>) -> bool {
    forall|i: int, j: int|
        0 <= i < j < candidates.len() ==> tier_rank((#[trigger] candidates[i]).source)
            <= tier_rank((#[trigger] candidates[j]).source)
}

/// Whether no two candidates have one name.
pub open spec fn distinct_names(candidates: Seq<CandidateView>) -> bool {
    forall|i: int, j: int|
        0 <= i < j < candidates.len() ==> (#[trigger] candidates[i]).name
            != (#[trigger] candidates[j]).name
}

/// Whether each tier is ordered by recency, but for the current branch at
/// the front of the first tier.
pub open spec fn sorted_within_tiers(
    meta: Map<Seq<char>, MetaView>,
    candidates: Seq<CandidateView>,
) -> bool {
    forall|i: int, j: int|
        0 <= i < j < candidates.len() && (#[trigger] candidates[i]).source
            == (#[trigger] candidates[j]).source && !(candidates[i].source
            == BranchSource::Worktree && candidates[i].is_current) ==> recency_before(
            meta,
            candidates[i].name,
            candidates[j].name,
        )
}

/// Whether a remote branch would be offered under the very name of a local
/// branch or of a branch with a worktree: its full name is such a name,
/// and its name without the remote's own is not.
pub open spec fn remote_shadows_branch(
    with_worktree: Seq<Seq<char>>,
    locals: Seq<Seq<char>>,
    remotes: Seq<Seq<char>>,
) -> bool {
    exists|r: Seq<char>|
        #![trigger remotes.contains(r)]
        remotes.contains(r) && (with_worktree.contains(r) || locals.contains(r))
            && !with_worktree.contains(stripped(r)) && !locals.contains(stripped(r))
}

/// The branches that have a worktree, in the order of the worktrees.
pub fn branches_with_worktree(worktrees: &[WorktreeInfo]) -> (r: Vec<String>)
    ensures
        r.deep_view() == worktree_branches(worktrees.deep_view()),
{
    let ghost views = worktrees.deep_view();
    let ghost pick = |w: WorktreeView| w.branch;
    let mut out: Vec<String> = Vec::new();
    let mut i: usize = 0;
    while i < worktrees.len()
        invariant
            i <= worktrees.len(),
            views == worktrees.deep_view(),
            pick == |w: WorktreeView| w.branch,
            out.deep_view() == views.take(i as int).filter_map(pick),
        decreases worktrees.len() - i,
    {
        let ghost before = out.deep_view();
        proof {
            views.lemma_filter_map_take_succ(pick, i as int);
        }
        match &worktrees[i].branch {
            Some(b) => {
                out.push(b.clone());
                assert(out.deep_view() =~= before + seq![b@]);
            },
            None => {
                assert(out.deep_view() =~= before + Seq::<Seq<char>>::empty());
            },
        }
        i += 1;
    }
    assert(views.take(worktrees.len() as int) =~= views);
    out
}

/// The set of the names in `names`.
fn set_of_names(names: &[String]) -> (r: StringHashSet)
    ensures
        forall|n: Seq<char>| r@.contains(n) <==> names.deep_view().contains(n),
{
    let ghost all = names.deep_view();
    let mut set = StringHashSet::new();
    let mut i: usize = 0;
    while i < names.len()
        invariant
            i <= names.len(),
            all == names.deep_view(),
            forall|n: Seq<char>| set@.contains(n) <==> all.take(i as int).contains(n),
        decreases names.len() - i,
    {
        let ghost text = all[i as int];
        set.insert(names[i].clone());
        proof {
            let grown = all.take(i + 1);
            assert forall|n: Seq<char>| set@.contains(n) <==> grown.contains(n) by {
                if grown.contains(n) {
                    let w = choose|w: int| 0 <= w < grown.len() && grown[w] == n;
                    if w < i {
                        assert(all.take(i as int)[w] == n);
                    }
                }
                if all.take(i as int).contains(n) {
                    let w = choose|w: int|
                        0 <= w < all.take(i as int).len() && all.take(i as int)[w] == n;
                    assert(grown[w] == n);
                }
                if n == text {
                    assert(grown[i as int] == n);
                }
            }
        }
        i += 1;
    }
    assert(all.take(names.len() as int) =~= all);
    set
}

/// `names` with the current branch moved to the front.
fn move_current_first(names: Vec<String>, current: &Option<String>) -> (r: Vec<String>)
    ensures
        r.deep_view() == current_first(names.deep_view(), current.deep_view()),
{
    let mut names = names;
    let ghost all = names.deep_view();
    match current {
        None => names,
        Some(c) => {
            let mut p: usize = 0;
            while p < names.len() && names[p] != *c
                invariant
                    p <= names.len(),
                    all == names.deep_view(),
                    forall|i: int| 0 <= i < p ==> #[trigger] all[i] != c@,
                decreases names.len() - p,
            {
                p += 1;
            }
            proof {
                lemma_position_of(all, c@, p as int);
            }
            if p < names.len() {
                let found = names.remove(p);
                names.insert(0, found);
                assert(names.deep_view() =~= seq![c@] + all.remove(p as int));
            }
            names
        },
    }
}

/// Whether `name` is the current branch.
fn is_current_branch(current: &Option<String>, name: &String) -> (r: bool)
    ensures
        r == (current.deep_view() == Some(name@)),
{
    match current {
        Some(c) => *c == *name,
        None => false,
    }
}

/// The ranked list of selectable branches.
///
/// First come the branches that have a worktree, then the local branches
/// without one, then the remote branches whose name without the remote's
/// own is neither that of a branch with a worktree nor that of a local
/// branch. Each tier holds each of its names once and is ordered by
/// recency; in the first tier the current branch, if it is there, is moved
/// to the front. A candidate shows the summary on record for its name, or
/// the placeholder, and is marked as current where its name (for a remote
/// branch: without the remote's own) is the current branch.
pub fn build_branch_candidates(
    worktrees: &[WorktreeInfo],
    locals: &[String],
    remotes: &[String],
    meta: &BranchMetadata,
    current_branch: Option<&str>,
) -> (r: Vec<BranchInfo>)
    ensures
        r.deep_view() == candidates_of(
            worktrees.deep_view(),
            locals.deep_view(),
            remotes.deep_view(),
            meta@,
            current_branch.deep_view(),
        ),
        tiers_in_order(r.deep_view()),
        sorted_within_tiers(meta@, r.deep_view()),
        !remote_shadows_branch(
            worktree_branches(worktrees.deep_view()),
            locals.deep_view(),
            remotes.deep_view(),
        ) ==> distinct_names(r.deep_view()),
        current_branch is Some && worktree_branches(worktrees.deep_view()).contains(
            current_branch.unwrap()@,
        ) ==> r.len() > 0 && r[0].name@ == current_branch.unwrap()@ && r[0].is_current
            && r[0].source == BranchSource::Worktree,
{
    let ghost with_worktree = worktree_branches(worktrees.deep_view());
    let ghost local_texts = locals.deep_view();
    let ghost current_text = current_branch.deep_view();
    let current: Option<String> = match current_branch {
        Some(c) => Some(c.to_owned()),
        None => None,
    };
    let worktree_list = branches_with_worktree(worktrees);
    let worktree_set = set_of_names(worktree_list.as_slice());
    let local_set = set_of_names(locals);
    let worktree_names = move_current_first(
        sort_by_recent(worktree_list.as_slice(), meta),
        &current,
    );
    let local_names = sort_by_recent(locals, meta);
    let remote_names = sort_by_recent(remotes, meta);

    let mut candidates: Vec<BranchInfo> = Vec::new();
    let ghost first = worktree_candidate(meta@, current_text);
    let ghost first_names = worktree_names.deep_view();
    let mut i: usize = 0;
    while i < worktree_names.len()
        invariant
            i <= worktree_names.len(),
            first_names == worktree_names.deep_view(),
            current.deep_view() == current_text,
            first == worktree_candidate(meta@, current_text),
            candidates.deep_view() == first_names.take(i as int).map_values(first),
        decreases worktree_names.len() - i,
    {
        let name = worktree_names[i].clone();
        let ghost before = candidates.deep_view();
        let info = BranchInfo {
            is_current: is_current_branch(&current, &name),
            summary: meta.summary(name.as_str()),
            name,
            source: BranchSource::Worktree,
        };
        candidates.push(info);
        assert(candidates.deep_view() =~= before.push(first(first_names[i as int])));
        assert(first_names.take(i + 1).map_values(first) =~= before.push(
            first(first_names[i as int]),
        ));
        i += 1;
    }
    assert(first_names.take(worktree_names.len() as int) =~= first_names);
    let ghost tier_one = candidates.deep_view();

    let ghost second = local_candidate(meta@, with_worktree, current_text);
    let ghost second_names = local_names.deep_view();
    let mut j: usize = 0;
    while j < local_names.len()
        invariant
            j <= local_names.len(),
            second_names == local_names.deep_view(),
            current.deep_view() == current_text,
            second == local_candidate(meta@, with_worktree, current_text),
            forall|n: Seq<char>| worktree_set@.contains(n) <==> with_worktree.contains(n),
            candidates.deep_view() == tier_one + second_names.take(j as int).filter_map(second),
        decreases local_names.len() - j,
    {
        let name = local_names[j].clone();
        let ghost before = candidates.deep_view();
        proof {
            second_names.lemma_filter_map_take_succ(second, j as int);
        }
        if !worktree_set.contains(name.as_str()) {
            let info = BranchInfo {
                is_current: is_current_branch(&current, &name),
                summary: meta.summary(name.as_str()),
                name,
                source: BranchSource::Local,
            };
            candidates.push(info);
            assert(candidates.deep_view() =~= before.push(second(second_names[j as int]).unwrap()));
        }
        assert(candidates.deep_view() =~= tier_one + second_names.take(j + 1).filter_map(second));
        j += 1;
    }
    assert(second_names.take(local_names.len() as int) =~= second_names);
    let ghost tier_two = candidates.deep_view();

    let ghost third = remote_candidate(meta@, with_worktree, local_texts, current_text);
    let ghost third_names = remote_names.deep_view();
    let mut k: usize = 0;
    while k < remote_names.len()
        invariant
            k <= remote_names.len(),
            third_names == remote_names.deep_view(),
            current.deep_view() == current_text,
            third == remote_candidate(meta@, with_worktree, local_texts, current_text),
            forall|n: Seq<char>| worktree_set@.contains(n) <==> with_worktree.contains(n),
            forall|n: Seq<char>| local_set@.contains(n) <==> local_texts.contains(n),
            candidates.deep_view() == tier_two + third_names.take(k as int).filter_map(third),
        decreases remote_names.len() - k,
    {
        let name = remote_names[k].clone();
        let local_name = strip_remote_prefix(name.as_str());
        let ghost before = candidates.deep_view();
        proof {
            third_names.lemma_filter_map_take_succ(third, k as int);
        }
        if !worktree_set.contains(local_name.as_str()) && !local_set.contains(local_name.as_str()) {
            let info = BranchInfo {
                is_current: is_current_branch(&current, &local_name),
                summary: meta.summary(name.as_str()),
                name,
                source: BranchSource::Remote,
            };
            candidates.push(info);
            assert(candidates.deep_view() =~= before.push(third(third_names[k as int]).unwrap()));
        }
        assert(candidates.deep_view() =~= tier_two + third_names.take(k + 1).filter_map(third));
        k += 1;
    }
    proof {
        assert(third_names.take(remote_names.len() as int) =~= third_names);
        let w = worktrees.deep_view();
        let l = locals.deep_view();
        let r = remotes.deep_view();
        lemma_candidates_keep_tier_order(w, l, r, meta@, current_text);
        lemma_candidates_sorted_within_tiers(w, l, r, meta@, current_text);
        if !remote_shadows_branch(with_worktree, l, r) {
            lemma_candidates_have_distinct_names(w, l, r, meta@, current_text);
        }
        if current_text is Some && with_worktree.contains(current_text.unwrap()) {
            lemma_current_branch_is_first(w, l, r, meta@, current_text.unwrap());
            assert(candidates.deep_view()[0] == candidates[0]@);
        }
    }
    candidates
}

} // verus!
