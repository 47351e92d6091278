//! What holds of the candidates, proved of every input: the tiers keep
//! their order, each tier is ordered by recency, no name is offered twice,
//! and a current branch with a worktree comes first.

use crate::catalog::stripped;
use crate::model::{timestamp_of, BranchSource, CandidateView, MetaView, WorktreeView};
use crate::ranking::{
    lemma_recency_irreflexive, lemma_sorted_by_recent, recency_before, recency_sorted,
    sorted_by_recent,
};
use crate::resolver::{
    candidates_of, current_first, distinct_names, local_candidate, local_tier, position_of,
    remote_candidate, remote_shadows_branch, remote_tier, sorted_within_tiers, tier_rank,
    tiers_in_order, worktree_branches, worktree_tier,
};
use vstd::prelude::*;

verus! {

/// `position_of(names, name)` is the one `k` before which `name` does not
/// stand and at which it stands, or the length of `names`.
pub proof fn lemma_position_of(names: Seq<Seq<char>>, name: Seq<char>, k: int)
    requires
        0 <= k <= names.len(),
        forall|i: int| 0 <= i < k ==> #[trigger] names[i] != name,
        k < names.len() ==> names[k] == name,
    ensures
        position_of(names, name) == k,
    decreases k,
{
    if k > 0 {
        let rest = names.drop_first();
        assert forall|i: int| 0 <= i < k - 1 implies #[trigger] rest[i] != name by {
            assert(rest[i] == names[i + 1]);
        }
        lemma_position_of(rest, name, k - 1);
    }
}

/// `position_of` stays within the list exactly where the list holds the
/// name, and then points at it.
pub proof fn lemma_position_of_bounds(names: Seq<Seq<char>>, name: Seq<char>)
    ensures
        position_of(names, name) <= names.len(),
        position_of(names, name) < names.len() <==> names.contains(name),
        position_of(names, name) < names.len() ==> names[position_of(names, name) as int] == name,
    decreases names.len(),
{
    if names.len() == 0 || names[0] == name {
    } else {
        let rest = names.drop_first();
        lemma_position_of_bounds(rest, name);
        if names.contains(name) {
            let w = choose|w: int| 0 <= w < names.len() && names[w] == name;
            assert(rest[w - 1] == name);
        }
        if rest.contains(name) {
            let w = choose|w: int| 0 <= w < rest.len() && rest[w] == name;
            assert(names[w + 1] == name);
        }
    }
}

/// What a tier that is filtered out of a sorted list of names looks like:
/// each candidate stands for a name of the list, and the candidates are in
/// the order of the list.
proof fn lemma_filtered_tier(
    meta: Map<Seq<char>, MetaView>,
    names: Seq<Seq<char>>,
    pick: spec_fn(Seq<char>) -> Option<CandidateView>,
)
    requires
        recency_sorted(meta, names),
        forall|n: Seq<char>| (#[trigger] pick(n)) is Some ==> pick(n).unwrap().name == n,
    ensures
        forall|i: int|
            0 <= i < names.filter_map(pick).len() ==> names.contains(
                (#[trigger] names.filter_map(pick)[i]).name,
            ) && pick(names.filter_map(pick)[i].name) == Some(names.filter_map(pick)[i]),
        forall|i: int, j: int|
            0 <= i < j < names.filter_map(pick).len() ==> recency_before(
                meta,
                (#[trigger] names.filter_map(pick)[i]).name,
                (#[trigger] names.filter_map(pick)[j]).name,
            ),
    decreases names.len(),
{
    let tier = names.filter_map(pick);
    if names.len() > 0 {
        let front = names.drop_last();
        let last = names.last();
        let sub = front.filter_map(pick);
        assert forall|a: int, b: int| 0 <= a < b < front.len() implies recency_before(
            meta,
            front[a],
            front[b],
        ) by {
            assert(front[a] == names[a] && front[b] == names[b]);
        }
        lemma_filtered_tier(meta, front, pick);
        assert forall|i: int| 0 <= i < tier.len() implies names.contains(
            (#[trigger] tier[i]).name,
        ) && pick(tier[i].name) == Some(tier[i]) by {
            if i < sub.len() {
                assert(tier[i] == sub[i]);
                let w = choose|w: int| 0 <= w < front.len() && front[w] == sub[i].name;
                assert(names[w] == sub[i].name);
            } else {
                assert(names[names.len() - 1] == last);
            }
        }
        assert forall|i: int, j: int| 0 <= i < j < tier.len() implies recency_before(
            meta,
            (#[trigger] tier[i]).name,
            (#[trigger] tier[j]).name,
        ) by {
            assert(tier[i] == sub[i]);
            if j < sub.len() {
                assert(tier[j] == sub[j]);
            } else {
                let w = choose|w: int| 0 <= w < front.len() && front[w] == sub[i].name;
                assert(names[w] == sub[i].name);
                assert(tier[j].name == last);
                assert(names[names.len() - 1] == last);
            }
        }
    }
}

/// What the first tier looks like.
proof fn lemma_worktree_tier(
    meta: Map<Seq<char>, MetaView>,
    with_worktree: Seq<Seq<char>>,
    current: Option<Seq<char>>,
)
    ensures
        forall|i: int|
            0 <= i < worktree_tier(meta, with_worktree, current).len() ==> {
                let c = #[trigger] worktree_tier(meta, with_worktree, current)[i];
                &&& c.source == BranchSource::Worktree
                &&& with_worktree.contains(c.name)
                &&& c.is_current == (current == Some(c.name))
                &&& (c.is_current ==> i == 0)
            },
        forall|i: int, j: int|
            0 <= i < j < worktree_tier(meta, with_worktree, current).len() ==> (#[trigger] worktree_tier(
                meta,
                with_worktree,
                current,
            )[i]).name != (#[trigger] worktree_tier(meta, with_worktree, current)[j]).name,
        forall|i: int, j: int|
            0 <= i < j < worktree_tier(meta, with_worktree, current).len() && !(#[trigger] worktree_tier(
                meta,
                with_worktree,
                current,
            )[i]).is_current ==> recency_before(
                meta,
                worktree_tier(meta, with_worktree, current)[i].name,
                (#[trigger] worktree_tier(meta, with_worktree, current)[j]).name,
            ),
        current is Some && with_worktree.contains(current.unwrap()) ==> worktree_tier(
            meta,
            with_worktree,
            current,
        ).len() > 0 && worktree_tier(meta, with_worktree, current)[0].name == current.unwrap(),
{
    let sorted = sorted_by_recent(meta, with_worktree);
    let names = current_first(sorted, current);
    let tier = worktree_tier(meta, with_worktree, current);
    lemma_sorted_by_recent(meta, with_worktree);
    assert(tier.len() == names.len());
    assert forall|i: int| 0 <= i < tier.len() implies (#[trigger] tier[i]).name == names[i] by {}
    // Where each name of the tier stands in the sorted list.
    let moved = current is Some && position_of(sorted, current.unwrap()) < sorted.len();
    let p = if current is Some {
        position_of(sorted, current.unwrap()) as int
    } else {
        0
    };
    let place = |i: int|
        if !moved {
            i
        } else if i == 0 {
            p
        } else if i - 1 < p {
            i - 1
        } else {
            i
        };
    if current is Some {
        lemma_position_of_bounds(sorted, current.unwrap());
    }
    assert forall|i: int| 0 <= i < names.len() implies 0 <= place(i) < sorted.len() && names[i]
        == sorted[place(i)] by {}
    assert forall|i: int, j: int| 0 <= i < j < sorted.len() implies sorted[i] != sorted[j] by {
        lemma_recency_irreflexive(meta, sorted[i]);
    }
    assert forall|i: int| 0 <= i < tier.len() implies {
        let c = #[trigger] tier[i];
        &&& c.source == BranchSource::Worktree
        &&& with_worktree.contains(c.name)
        &&& c.is_current == (current == Some(c.name))
        &&& (c.is_current ==> i == 0)
    } by {
        assert(tier[i].name == sorted[place(i)]);
        assert(sorted.contains(sorted[place(i)]));
        if tier[i].is_current {
            assert(sorted.contains(current.unwrap()));
            assert(moved);
            if i != 0 {
                assert(place(i) != p);
            }
        }
    }
    assert forall|i: int, j: int| 0 <= i < j < tier.len() implies (#[trigger] tier[i]).name
        != (#[trigger] tier[j]).name by {
        assert(tier[i].name == sorted[place(i)]);
        assert(tier[j].name == sorted[place(j)]);
        assert(place(i) != place(j));
    }
    assert forall|i: int, j: int|
        0 <= i < j < tier.len() && !(#[trigger] tier[i]).is_current implies recency_before(
        meta,
        tier[i].name,
        (#[trigger] tier[j]).name,
    ) by {
        assert(tier[i].name == sorted[place(i)]);
        assert(tier[j].name == sorted[place(j)]);
        if moved && i == 0 {
            assert(tier[0].name == current.unwrap());
        }
        assert(place(i) < place(j));
    }
    if current is Some && with_worktree.contains(current.unwrap()) {
        assert(sorted.contains(current.unwrap()));
        assert(tier[0].name == names[0]);
    }
}

/// What the three tiers of the candidates look like, each by itself.
proof fn lemma_tiers(
    worktrees: Seq<WorktreeView>,
    locals: Seq<Seq<char>>,
    remotes: Seq<Seq<char>>,
    meta: Map<Seq<char>, MetaView>,
    current: Option<Seq<char>>,
)
    ensures
        forall|i: int|
            0 <= i < local_tier(meta, worktree_branches(worktrees), locals, current).len() ==> {
                let c = #[trigger] local_tier(meta, worktree_branches(worktrees), locals, current)[i];
                &&& c.source == BranchSource::Local
                &&& locals.contains(c.name)
                &&& !worktree_branches(worktrees).contains(c.name)
            },
        forall|i: int, j: int|
            0 <= i < j < local_tier(meta, worktree_branches(worktrees), locals, current).len()
                ==> recency_before(
                meta,
                (#[trigger] local_tier(meta, worktree_branches(worktrees), locals, current)[i]).name,
                (#[trigger] local_tier(meta, worktree_branches(worktrees), locals, current)[j]).name,
            ),
        forall|i: int|
            0 <= i < remote_tier(
                meta,
                worktree_branches(worktrees),
                locals,
                remotes,
                current,
            ).len() ==> {
                let c = #[trigger] remote_tier(
                    meta,
                    worktree_branches(worktrees),
                    locals,
                    remotes,
                    current,
                )[i];
                &&& c.source == BranchSource::Remote
                &&& remotes.contains(c.name)
                &&& !worktree_branches(worktrees).contains(stripped(c.name))
                &&& !locals.contains(stripped(c.name))
            },
        forall|i: int, j: int|
            0 <= i < j < remote_tier(
                meta,
                worktree_branches(worktrees),
                locals,
                remotes,
                current,
            ).len() ==> recency_before(
                meta,
                (#[trigger] remote_tier(
                    meta,
                    worktree_branches(worktrees),
                    locals,
                    remotes,
                    current,
                )[i]).name,
                (#[trigger] remote_tier(
                    meta,
                    worktree_branches(worktrees),
                    locals,
                    remotes,
                    current,
                )[j]).name,
            ),
{
    let with_worktree = worktree_branches(worktrees);
    lemma_sorted_by_recent(meta, locals);
    lemma_sorted_by_recent(meta, remotes);
    lemma_filtered_tier(
        meta,
        sorted_by_recent(meta, locals),
        local_candidate(meta, with_worktree, current),
    );
    lemma_filtered_tier(
        meta,
        sorted_by_recent(meta, remotes),
        remote_candidate(meta, with_worktree, locals, current),
    );
}

/// The candidates keep the order of the tiers: those with a worktree, then
/// the local ones, then the remote ones.
pub proof fn lemma_candidates_keep_tier_order(
    worktrees: Seq<WorktreeView>,
    locals: Seq<Seq<char>>,
    remotes: Seq<Seq<char>>,
    meta: Map<Seq<char>, MetaView>,
    current: Option<Seq<char>>,
)
    ensures
        tiers_in_order(candidates_of(worktrees, locals, remotes, meta, current)),
{
    let with_worktree = worktree_branches(worktrees);
    let one = worktree_tier(meta, with_worktree, current);
    let two = local_tier(meta, with_worktree, locals, current);
    let three = remote_tier(meta, with_worktree, locals, remotes, current);
    let all = candidates_of(worktrees, locals, remotes, meta, current);
    lemma_worktree_tier(meta, with_worktree, current);
    lemma_tiers(worktrees, locals, remotes, meta, current);
    assert forall|i: int| 0 <= i < all.len() implies tier_rank((#[trigger] all[i]).source) == (if i
        < one.len() {
        0int
    } else if i < one.len() + two.len() {
        1int
    } else {
        2int
    }) by {
        if i < one.len() {
            assert(all[i] == one[i]);
        } else if i < one.len() + two.len() {
            assert(all[i] == two[i - one.len()]);
        } else {
            assert(all[i] == three[i - one.len() - two.len()]);
        }
    }
}

/// No name is offered twice, unless a remote branch is offered under the
/// very name of a local branch or of a branch with a worktree.
pub proof fn lemma_candidates_have_distinct_names(
    worktrees: Seq<WorktreeView>,
    locals: Seq<Seq<char>>,
    remotes: Seq<Seq<char>>,
    meta: Map<Seq<char>, MetaView>,
    current: Option<Seq<char>>,
)
    requires
        !remote_shadows_branch(worktree_branches(worktrees), locals, remotes),
    ensures
        distinct_names(candidates_of(worktrees, locals, remotes, meta, current)),
{
    let with_worktree = worktree_branches(worktrees);
    let one = worktree_tier(meta, with_worktree, current);
    let two = local_tier(meta, with_worktree, locals, current);
    let three = remote_tier(meta, with_worktree, locals, remotes, current);
    let all = candidates_of(worktrees, locals, remotes, meta, current);
    lemma_worktree_tier(meta, with_worktree, current);
    lemma_tiers(worktrees, locals, remotes, meta, current);
    assert forall|i: int, j: int| 0 <= i < j < all.len() implies (#[trigger] all[i]).name
        != (#[trigger] all[j]).name by {
        if j < one.len() {
            assert(all[i] == one[i] && all[j] == one[j]);
        } else if j < one.len() + two.len() {
            let c = two[j - one.len()];
            assert(all[j] == c);
            if i < one.len() {
                assert(all[i] == one[i]);
            } else {
                assert(all[i] == two[i - one.len()]);
                lemma_recency_irreflexive(meta, c.name);
            }
        } else {
            let c = three[j - one.len() - two.len()];
            assert(all[j] == c);
            assert(remotes.contains(c.name));
            if i < one.len() {
                assert(all[i] == one[i]);
            } else if i < one.len() + two.len() {
                assert(all[i] == two[i - one.len()]);
            } else {
                assert(all[i] == three[i - one.len() - two.len()]);
                lemma_recency_irreflexive(meta, c.name);
            }
        }
    }
}

/// A current branch that has a worktree is the first candidate.
pub proof fn lemma_current_branch_is_first(
    worktrees: Seq<WorktreeView>,
    locals: Seq<Seq<char>>,
    remotes: Seq<Seq<char>>,
    meta: Map<Seq<char>, MetaView>,
    current: Seq<char>,
)
    requires
        worktree_branches(worktrees).contains(current),
    ensures
        candidates_of(worktrees, locals, remotes, meta, Some(current)).len() > 0,
        candidates_of(worktrees, locals, remotes, meta, Some(current))[0].name == current,
        candidates_of(worktrees, locals, remotes, meta, Some(current))[0].source
            == BranchSource::Worktree,
        candidates_of(worktrees, locals, remotes, meta, Some(current))[0].is_current,
{
    let with_worktree = worktree_branches(worktrees);
    let one = worktree_tier(meta, with_worktree, Some(current));
    lemma_worktree_tier(meta, with_worktree, Some(current));
    assert(candidates_of(worktrees, locals, remotes, meta, Some(current))[0] == one[0]);
}

/// Within a tier the candidates stand by recency: the later commit first,
/// and of two commits of one time the name that is first in the order of
/// texts. The one exception is the current branch at the front of the
/// first tier.
pub proof fn lemma_candidates_sorted_within_tiers(
    worktrees: Seq<WorktreeView>,
    locals: Seq<Seq<char>>,
    remotes: Seq<Seq<char>>,
    meta: Map<Seq<char>, MetaView>,
    current: Option<Seq<char>>,
)
    ensures
        sorted_within_tiers(meta, candidates_of(worktrees, locals, remotes, meta, current)),
{
    let with_worktree = worktree_branches(worktrees);
    let one = worktree_tier(meta, with_worktree, current);
    let two = local_tier(meta, with_worktree, locals, current);
    let three = remote_tier(meta, with_worktree, locals, remotes, current);
    let all = candidates_of(worktrees, locals, remotes, meta, current);
    lemma_worktree_tier(meta, with_worktree, current);
    lemma_tiers(worktrees, locals, remotes, meta, current);
    assert forall|i: int, j: int|
        0 <= i < j < all.len() && (#[trigger] all[i]).source == (#[trigger] all[j]).source && !(
        all[i].source == BranchSource::Worktree && all[i].is_current) implies recency_before(
        meta,
        all[i].name,
        all[j].name,
    ) by {
        if j < one.len() {
            assert(all[i] == one[i] && all[j] == one[j]);
        } else if j < one.len() + two.len() {
            assert(all[j] == two[j - one.len()]);
            if i < one.len() {
                assert(all[i] == one[i]);
            } else {
                assert(all[i] == two[i - one.len()]);
            }
        } else {
            assert(all[j] == three[j - one.len() - two.len()]);
            if i < one.len() {
                assert(all[i] == one[i]);
            } else if i < one.len() + two.len() {
                assert(all[i] == two[i - one.len()]);
            } else {
                assert(all[i] == three[i - one.len() - two.len()]);
            }
        }
    }
}

/// A name of which nothing is on record stands after every name of its
/// tier whose commit time on record is above 0. (A commit time of 0 or
/// below ranks a name with or after the unrecorded ones, and a current
/// branch with a worktree is first whatever is on record.)
pub proof fn lemma_unrecorded_name_stands_last(
    worktrees: Seq<WorktreeView>,
    locals: Seq<Seq<char>>,
    remotes: Seq<Seq<char>>,
    meta: Map<Seq<char>, MetaView>,
    current: Option<Seq<char>>,
    unrecorded: int,
    recorded: int,
)
    requires
        0 <= unrecorded < candidates_of(worktrees, locals, remotes, meta, current).len(),
        0 <= recorded < candidates_of(worktrees, locals, remotes, meta, current).len(),
        candidates_of(worktrees, locals, remotes, meta, current)[unrecorded].source
            == candidates_of(worktrees, locals, remotes, meta, current)[recorded].source,
        !meta.contains_key(
            candidates_of(worktrees, locals, remotes, meta, current)[unrecorded].name,
        ),
        timestamp_of(
            meta,
            candidates_of(worktrees, locals, remotes, meta, current)[recorded].name,
        ) > 0,
        !(candidates_of(worktrees, locals, remotes, meta, current)[unrecorded].source
            == BranchSource::Worktree && candidates_of(
            worktrees,
            locals,
            remotes,
            meta,
            current,
        )[unrecorded].is_current),
    ensures
        recorded < unrecorded,
{
    let all = candidates_of(worktrees, locals, remotes, meta, current);
    lemma_candidates_sorted_within_tiers(worktrees, locals, remotes, meta, current);
    if unrecorded < recorded {
        assert(recency_before(meta, all[unrecorded].name, all[recorded].name));
    }
}

} // verus!
