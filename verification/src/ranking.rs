//! The order within a tier: by recency, and by name where the times are
//! the same.

use crate::model::{timestamp_of, BranchMetadata, MetaView};
use crate::text::{
    chars_of, is_text_before, lemma_text_before_asymmetric, lemma_text_before_irreflexive,
    lemma_text_before_total, lemma_text_before_transitive, text_before,
};
use vstd::hash_set::StringHashSet;
use vstd::prelude::*;

verus! {

/// The order within a tier: the later commit first, and of two commits of
/// one time (0 where nothing is on record) the name that is first in the
/// order of texts.
pub open spec fn recency_before(
    meta: Map<Seq<char>, MetaView>,
    a: Seq<char>,
    b: Seq<char>,
) -> bool {
    timestamp_of(meta, a) > timestamp_of(meta, b) || (timestamp_of(meta, a) == timestamp_of(
        meta,
        b,
    ) && text_before(a, b))
}

/// Whether every name of `s` stands before every later one in the order of
/// its tier. Such a list holds no name twice.
pub open spec fn recency_sorted(meta: Map<Seq<char>, MetaView>, s: Seq<Seq<char>>) -> bool {
    forall|i: int, j: int| 0 <= i < j < s.len() ==> recency_before(meta, s[i], s[j])
}

/// No name stands before itself.
pub proof fn lemma_recency_irreflexive(meta: Map<Seq<char>, MetaView>, a: Seq<char>)
    ensures
        !recency_before(meta, a, a),
{
    lemma_text_before_irreflexive(a);
}

/// Two names do not stand before each other.
pub proof fn lemma_recency_asymmetric(meta: Map<Seq<char>, MetaView>, a: Seq<char>, b: Seq<char>)
    requires
        recency_before(meta, a, b),
    ensures
        !recency_before(meta, b, a),
{
    if text_before(a, b) {
        lemma_text_before_asymmetric(a, b);
    }
}

/// The order within a tier is transitive.
pub proof fn lemma_recency_transitive(
    meta: Map<Seq<char>, MetaView>,
    a: Seq<char>,
    b: Seq<char>,
    c: Seq<char>,
)
    requires
        recency_before(meta, a, b),
        recency_before(meta, b, c),
    ensures
        recency_before(meta, a, c),
{
    if text_before(a, b) && text_before(b, c) {
        lemma_text_before_transitive(a, b, c);
    }
}

/// Of two different names, one stands before the other.
pub proof fn lemma_recency_total(meta: Map<Seq<char>, MetaView>, a: Seq<char>, b: Seq<char>)
    requires
        a != b,
    ensures
        recency_before(meta, a, b) || recency_before(meta, b, a),
{
    lemma_text_before_total(a, b);
}

/// `sorted` with `name` put where the order of the tier wants it; `sorted`
/// itself where it holds `name` already.
pub open spec fn insert_by_recent(
    meta: Map<Seq<char>, MetaView>,
    sorted: Seq<Seq<char>>,
    name: Seq<char>,
) -> Seq<Seq<char>>
    decreases sorted.len(),
{
    if sorted.len() == 0 {
        seq![name]
    } else if sorted[0] == name {
        sorted
    } else if recency_before(meta, name, sorted[0]) {
        seq![name] + sorted
    } else {
        seq![sorted[0]] + insert_by_recent(meta, sorted.drop_first(), name)
    }
}

/// The names of `names`, each once, in the order of their tier.
pub open spec fn sorted_by_recent(
    meta: Map<Seq<char>, MetaView>,
    names: Seq<Seq<char>>,
) -> Seq<Seq<char>>
    decreases names.len(),
{
    if names.len() == 0 {
        seq![]
    } else {
        insert_by_recent(meta, sorted_by_recent(meta, names.drop_last()), names.last())
    }
}

/// Putting a name into a sorted list leaves it sorted and adds that name
/// and no other.
pub proof fn lemma_insert_by_recent(
    meta: Map<Seq<char>, MetaView>,
    sorted: Seq<Seq<char>>,
    name: Seq<char>,
)
    requires
        recency_sorted(meta, sorted),
    ensures
        recency_sorted(meta, insert_by_recent(meta, sorted, name)),
        forall|n: Seq<char>|
            #![trigger insert_by_recent(meta, sorted, name).contains(n)]
            #![trigger sorted.contains(n)]
            insert_by_recent(meta, sorted, name).contains(n) <==> (n == name || sorted.contains(
                n,
            )),
    decreases sorted.len(),
{
    let out = insert_by_recent(meta, sorted, name);
    if sorted.len() == 0 {
        assert(out[0] == name);
    } else if sorted[0] == name {
    } else if recency_before(meta, name, sorted[0]) {
        assert forall|i: int, j: int| 0 <= i < j < out.len() implies recency_before(
            meta,
            out[i],
            out[j],
        ) by {
            if i == 0 {
                if j > 1 {
                    lemma_recency_transitive(meta, name, sorted[0], sorted[j - 1]);
                }
            } else {
                assert(out[i] == sorted[i - 1] && out[j] == sorted[j - 1]);
            }
        }
        assert forall|n: Seq<char>| out.contains(n) <==> (n == name || sorted.contains(n)) by {
            if out.contains(n) {
                let k = choose|k: int| 0 <= k < out.len() && out[k] == n;
                if k > 0 {
                    assert(sorted[k - 1] == n);
                }
            }
            if n == name {
                assert(out[0] == n);
            }
            if sorted.contains(n) {
                let k = choose|k: int| 0 <= k < sorted.len() && sorted[k] == n;
                assert(out[k + 1] == n);
            }
        }
    } else {
        let rest = sorted.drop_first();
        let tail = insert_by_recent(meta, rest, name);
        assert(recency_sorted(meta, rest)) by {
            assert forall|i: int, j: int| 0 <= i < j < rest.len() implies recency_before(
                meta,
                rest[i],
                rest[j],
            ) by {
                assert(rest[i] == sorted[i + 1] && rest[j] == sorted[j + 1]);
            }
        }
        lemma_insert_by_recent(meta, rest, name);
        lemma_recency_total(meta, name, sorted[0]);
        assert forall|i: int, j: int| 0 <= i < j < out.len() implies recency_before(
            meta,
            out[i],
            out[j],
        ) by {
            if i == 0 {
                assert(out[j] == tail[j - 1]);
                assert(tail.contains(out[j]));
                if out[j] != name {
                    assert(rest.contains(out[j]));
                    let k = choose|k: int| 0 <= k < rest.len() && rest[k] == out[j];
                    assert(sorted[k + 1] == out[j]);
                }
            } else {
                assert(out[i] == tail[i - 1] && out[j] == tail[j - 1]);
            }
        }
        assert forall|n: Seq<char>| out.contains(n) <==> (n == name || sorted.contains(n)) by {
            if out.contains(n) {
                let k = choose|k: int| 0 <= k < out.len() && out[k] == n;
                if k > 0 {
                    assert(tail[k - 1] == n);
                    assert(tail.contains(n));
                    if n != name {
                        assert(rest.contains(n));
                        let m = choose|m: int| 0 <= m < rest.len() && rest[m] == n;
                        assert(sorted[m + 1] == n);
                    }
                }
            }
            if n == name {
                assert(tail.contains(n));
                let k = choose|k: int| 0 <= k < tail.len() && tail[k] == n;
                assert(out[k + 1] == n);
            }
            if sorted.contains(n) {
                let k = choose|k: int| 0 <= k < sorted.len() && sorted[k] == n;
                if k == 0 {
                    assert(out[0] == n);
                } else {
                    assert(rest[k - 1] == n);
                    assert(tail.contains(n));
                    let m = choose|m: int| 0 <= m < tail.len() && tail[m] == n;
                    assert(out[m + 1] == n);
                }
            }
        }
    }
}

/// `sorted_by_recent` gives a list in the order of the tier that holds the
/// names of `names` and no others.
pub proof fn lemma_sorted_by_recent(meta: Map<Seq<char>, MetaView>, names: Seq<Seq<char>>)
    ensures
        recency_sorted(meta, sorted_by_recent(meta, names)),
        forall|n: Seq<char>|
            #![trigger sorted_by_recent(meta, names).contains(n)]
            #![trigger names.contains(n)]
            sorted_by_recent(meta, names).contains(n) <==> names.contains(n),
    decreases names.len(),
{
    if names.len() > 0 {
        let front = names.drop_last();
        lemma_sorted_by_recent(meta, front);
        lemma_insert_by_recent(meta, sorted_by_recent(meta, front), names.last());
        assert forall|n: Seq<char>|
            sorted_by_recent(meta, names).contains(n) <==> names.contains(n) by {
            if names.contains(n) {
                let k = choose|k: int| 0 <= k < names.len() && names[k] == n;
                if k < names.len() - 1 {
                    assert(front[k] == n);
                }
            }
            if front.contains(n) {
                let k = choose|k: int| 0 <= k < front.len() && front[k] == n;
                assert(names[k] == n);
            }
            if n == names.last() {
                assert(names[names.len() - 1] == n);
            }
        }
    }
}

/// Two lists in the order of the tier that hold the same names are the
/// same list.
pub proof fn lemma_recency_sorted_unique(
    meta: Map<Seq<char>, MetaView>,
    a: Seq<Seq<char>>,
    b: Seq<Seq<char>>,
)
    requires
        recency_sorted(meta, a),
        recency_sorted(meta, b),
        forall|n: Seq<char>| a.contains(n) <==> b.contains(n),
    ensures
        a == b,
    decreases a.len(),
{
    if a.len() == 0 {
        if b.len() > 0 {
            assert(b.contains(b[0]));
        }
        assert(a =~= b);
    } else if b.len() == 0 {
        assert(a.contains(a[0]));
    } else {
        assert(a.contains(a[0]));
        assert(b.contains(b[0]));
        let k = choose|k: int| 0 <= k < b.len() && b[k] == a[0];
        let m = choose|m: int| 0 <= m < a.len() && a[m] == b[0];
        if k > 0 {
            if m > 0 {
                lemma_recency_asymmetric(meta, a[0], a[m]);
            } else {
                lemma_recency_irreflexive(meta, a[0]);
            }
        }
        assert(a[0] == b[0]);
        let ra = a.drop_first();
        let rb = b.drop_first();
        lemma_recency_irreflexive(meta, a[0]);
        assert forall|n: Seq<char>| ra.contains(n) <==> rb.contains(n) by {
            if ra.contains(n) {
                let i = choose|i: int| 0 <= i < ra.len() && ra[i] == n;
                assert(a[i + 1] == n);
                assert(b.contains(n));
                let j = choose|j: int| 0 <= j < b.len() && b[j] == n;
                assert(j > 0);
                assert(rb[j - 1] == n);
            }
            if rb.contains(n) {
                let i = choose|i: int| 0 <= i < rb.len() && rb[i] == n;
                assert(b[i + 1] == n);
                assert(a.contains(n));
                let j = choose|j: int| 0 <= j < a.len() && a[j] == n;
                assert(j > 0);
                assert(ra[j - 1] == n);
            }
        }
        assert forall|i: int, j: int| 0 <= i < j < ra.len() implies recency_before(
            meta,
            ra[i],
            ra[j],
        ) by {
            assert(ra[i] == a[i + 1] && ra[j] == a[j + 1]);
        }
        assert forall|i: int, j: int| 0 <= i < j < rb.len() implies recency_before(
            meta,
            rb[i],
            rb[j],
        ) by {
            assert(rb[i] == b[i + 1] && rb[j] == b[j + 1]);
        }
        lemma_recency_sorted_unique(meta, ra, rb);
        assert(a =~= seq![a[0]] + ra);
        assert(b =~= seq![b[0]] + rb);
    }
}

/// What a name is ranked by: its commit time and its characters.
struct RankKey {
    timestamp: i64,
    chars: Vec<char>,
}

/// The order of the tier, on keys.
spec fn key_precedes(a: RankKey, b: RankKey) -> bool {
    a.timestamp > b.timestamp || (a.timestamp == b.timestamp && text_before(a.chars@, b.chars@))
}

/// Whether no two keys are keys of one name.
spec fn distinct_keys(keys: Seq<RankKey>) -> bool {
    forall|i: int, j: int| 0 <= i < j < keys.len() ==> keys[i].chars@ != keys[j].chars@
}

/// Whether one of the keys is the key of `name`.
spec fn has_key(keys: Seq<RankKey>, name: Seq<char>) -> bool {
    exists|k: int| 0 <= k < keys.len() && #[trigger] keys[k].chars@ == name
}

/// Whether the keys that `order` points at stand in the order of the tier.
spec fn in_order(keys: Seq<RankKey>, order: Seq<usize>) -> bool {
    forall|i: int, j: int|
        0 <= i < j < order.len() ==> key_precedes(
            keys[#[trigger] order[i] as int],
            keys[#[trigger] order[j] as int],
        )
}

/// Whether `order` holds every index from `lo` up to `hi`, and nothing
/// else.
spec fn spans(order: Seq<usize>, lo: int, hi: int) -> bool {
    &&& forall|i: int| 0 <= i < order.len() ==> lo <= #[trigger] order[i] < hi
    &&& forall|k: usize| lo <= k < hi ==> #[trigger] order.contains(k)
}

proof fn lemma_key_precedes_transitive(a: RankKey, b: RankKey, c: RankKey)
    requires
        key_precedes(a, b),
        key_precedes(b, c),
    ensures
        key_precedes(a, c),
{
    if text_before(a.chars@, b.chars@) && text_before(b.chars@, c.chars@) {
        lemma_text_before_transitive(a.chars@, b.chars@, c.chars@);
    }
}

proof fn lemma_key_precedes_total(a: RankKey, b: RankKey)
    requires
        a.chars@ != b.chars@,
    ensures
        key_precedes(a, b) || key_precedes(b, a),
{
    lemma_text_before_total(a.chars@, b.chars@);
}

/// Whether `a` stands before `b` in the order of the tier.
fn precedes(a: &RankKey, b: &RankKey) -> (r: bool)
    ensures
        r == key_precedes(*a, *b),
{
    if a.timestamp != b.timestamp {
        a.timestamp > b.timestamp
    } else {
        is_text_before(a.chars.as_slice(), b.chars.as_slice())
    }
}

/// Merges two sorted runs of indices, of which the first holds the
/// indices below `mid` and the second those from `mid` on.
fn merge_runs(
    keys: &Vec<RankKey>,
    a: &Vec<usize>,
    b: &Vec<usize>,
    Ghost(lo): Ghost<int>,
    Ghost(mid): Ghost<int>,
    Ghost(hi): Ghost<int>,
) -> (r: Vec<usize>)
    requires
        distinct_keys(keys@),
        0 <= lo <= mid <= hi <= keys.len(),
        spans(a@, lo, mid),
        spans(b@, mid, hi),
        in_order(keys@, a@),
        in_order(keys@, b@),
    ensures
        spans(r@, lo, hi),
        in_order(keys@, r@),
{
    let mut out: Vec<usize> = Vec::new();
    let mut i: usize = 0;
    let mut j: usize = 0;
    while i < a.len() || j < b.len()
        invariant
            distinct_keys(keys@),
            0 <= lo <= mid <= hi <= keys.len(),
            spans(a@, lo, mid),
            spans(b@, mid, hi),
            in_order(keys@, a@),
            in_order(keys@, b@),
            i <= a.len(),
            j <= b.len(),
            forall|x: int| 0 <= x < out.len() ==> lo <= #[trigger] out@[x] < hi,
            forall|p: int| 0 <= p < i ==> out@.contains(#[trigger] a@[p]),
            forall|q: int| 0 <= q < j ==> out@.contains(#[trigger] b@[q]),
            in_order(keys@, out@),
            forall|x: int, p: int|
                0 <= x < out.len() && i <= p < a.len() ==> key_precedes(
                    keys@[#[trigger] out@[x] as int],
                    keys@[#[trigger] a@[p] as int],
                ),
            forall|x: int, q: int|
                0 <= x < out.len() && j <= q < b.len() ==> key_precedes(
                    keys@[#[trigger] out@[x] as int],
                    keys@[#[trigger] b@[q] as int],
                ),
        decreases (a.len() - i) + (b.len() - j),
    {
        let take_first = if j >= b.len() {
            true
        } else if i >= a.len() {
            false
        } else {
            precedes(&keys[a[i]], &keys[b[j]])
        };
        let ghost before = out@;
        if take_first {
            let x = a[i];
            out.push(x);
            proof {
                assert forall|p: int| 0 <= p < i + 1 implies out@.contains(#[trigger] a@[p]) by {
                    if p < i {
                        let w = choose|w: int| 0 <= w < before.len() && before[w] == a@[p];
                        assert(out@[w] == a@[p]);
                    } else {
                        assert(out@[before.len() as int] == a@[p]);
                    }
                }
                assert forall|q: int| 0 <= q < j implies out@.contains(#[trigger] b@[q]) by {
                    let w = choose|w: int| 0 <= w < before.len() && before[w] == b@[q];
                    assert(out@[w] == b@[q]);
                }
                assert forall|y: int, q: int|
                    0 <= y < out.len() && j <= q < b.len() implies key_precedes(
                    keys@[#[trigger] out@[y] as int],
                    keys@[#[trigger] b@[q] as int],
                ) by {
                    if y == before.len() && q > j {
                        lemma_key_precedes_transitive(
                            keys@[x as int],
                            keys@[b@[j as int] as int],
                            keys@[b@[q] as int],
                        );
                    }
                }
            }
            i += 1;
        } else {
            let x = b[j];
            out.push(x);
            proof {
                assert forall|p: int| 0 <= p < i implies out@.contains(#[trigger] a@[p]) by {
                    let w = choose|w: int| 0 <= w < before.len() && before[w] == a@[p];
                    assert(out@[w] == a@[p]);
                }
                assert forall|q: int| 0 <= q < j + 1 implies out@.contains(#[trigger] b@[q]) by {
                    if q < j {
                        let w = choose|w: int| 0 <= w < before.len() && before[w] == b@[q];
                        assert(out@[w] == b@[q]);
                    } else {
                        assert(out@[before.len() as int] == b@[q]);
                    }
                }
                assert forall|y: int, p: int|
                    0 <= y < out.len() && i <= p < a.len() implies key_precedes(
                    keys@[#[trigger] out@[y] as int],
                    keys@[#[trigger] a@[p] as int],
                ) by {
                    if y == before.len() {
                        let first = a@[i as int];
                        assert(first < x);
                        lemma_key_precedes_total(keys@[first as int], keys@[x as int]);
                        if p > i {
                            lemma_key_precedes_transitive(
                                keys@[x as int],
                                keys@[first as int],
                                keys@[a@[p] as int],
                            );
                        }
                    }
                }
            }
            j += 1;
        }
    }
    proof {
        assert forall|k: usize| lo <= k < hi implies #[trigger] out@.contains(k) by {
            if k < mid {
                assert(a@.contains(k));
                let p = choose|p: int| 0 <= p < a.len() && a@[p] == k;
                assert(out@.contains(a@[p]));
            } else {
                assert(b@.contains(k));
                let q = choose|q: int| 0 <= q < b.len() && b@[q] == k;
                assert(out@.contains(b@[q]));
            }
        }
    }
    out
}

/// The indices from `lo` up to `hi`, in the order of the keys they point
/// at.
fn sort_range(keys: &Vec<RankKey>, lo: usize, hi: usize) -> (r: Vec<usize>)
    requires
        distinct_keys(keys@),
        lo <= hi <= keys.len(),
    ensures
        spans(r@, lo as int, hi as int),
        in_order(keys@, r@),
    decreases hi - lo,
{
    if hi - lo == 0 {
        Vec::new()
    } else if hi - lo == 1 {
        let mut one: Vec<usize> = Vec::new();
        one.push(lo);
        assert(one@[0] == lo);
        one
    } else {
        let mid = lo + (hi - lo) / 2;
        let a = sort_range(keys, lo, mid);
        let b = sort_range(keys, mid, hi);
        merge_runs(keys, &a, &b, Ghost(lo as int), Ghost(mid as int), Ghost(hi as int))
    }
}

/// The names of `names`, each once, in the order of their tier: the later
/// commit first, and of two commits of one time the name that is first in
/// the order of texts. A name of which nothing is on record is ranked as
/// of time 0.
pub fn sort_by_recent(names: &[String], meta: &BranchMetadata) -> (r: Vec<String>)
    ensures
        r.deep_view() == sorted_by_recent(meta@, names.deep_view()),
        recency_sorted(meta@, r.deep_view()),
        forall|n: Seq<char>| r.deep_view().contains(n) <==> names.deep_view().contains(n),
{
    let ghost all = names.deep_view();
    let mut seen = StringHashSet::new();
    let mut firsts: Vec<usize> = Vec::new();
    let mut keys: Vec<RankKey> = Vec::new();
    let mut i: usize = 0;
    while i < names.len()
        invariant
            i <= names.len(),
            all == names.deep_view(),
            firsts.len() == keys.len(),
            forall|n: Seq<char>| seen@.contains(n) <==> all.take(i as int).contains(n),
            forall|k: int|
                0 <= k < keys.len() ==> (#[trigger] firsts@[k]) < i && keys@[k].chars@
                    == all[firsts@[k] as int] && keys@[k].timestamp == timestamp_of(
                    meta@,
                    all[firsts@[k] as int],
                ),
            forall|k: int| 0 <= k < keys.len() ==> seen@.contains(#[trigger] keys@[k].chars@),
            forall|p: int| 0 <= p < i ==> has_key(keys@, #[trigger] all[p]),
            distinct_keys(keys@),
        decreases names.len() - i,
    {
        let name = &names[i];
        let ghost text = all[i as int];
        assert(text == name@);
        let ghost seen_before = seen@;
        let ghost keys_before = keys@;
        let fresh = !seen.contains(name.as_str());
        if fresh {
            seen.insert(name.clone());
            firsts.push(i);
            keys.push(RankKey { timestamp: meta.timestamp(name.as_str()), chars: chars_of(name.as_str()) });
        }
        proof {
            let grown = all.take(i + 1);
            assert(grown =~= all.take(i as int).push(text));
            assert forall|n: Seq<char>| seen@.contains(n) <==> grown.contains(n) by {
                if grown.contains(n) {
                    let w = choose|w: int| 0 <= w < grown.len() && grown[w] == n;
                    if w < i {
                        assert(all.take(i as int)[w] == n);
                    }
                }
                if all.take(i as int).contains(n) {
                    let w = choose|w: int|
                        0 <= w < all.take(i as int).len() && all.take(i as int)[w] == n;
                    assert(grown[w] == n);
                }
                if n == text {
                    assert(grown[i as int] == n);
                }
            }
            assert forall|p: int| 0 <= p < i + 1 implies has_key(keys@, #[trigger] all[p]) by {
                if p < i {
                    assert(has_key(keys_before, all[p]));
                    let k = choose|k: int|
                        0 <= k < keys_before.len() && #[trigger] keys_before[k].chars@ == all[p];
                    assert(keys@[k].chars@ == all[p]);
                } else if fresh {
                    assert(keys@[keys.len() - 1].chars@ == all[p]);
                } else {
                    assert(all.take(i as int).contains(text));
                    let w = choose|w: int|
                        0 <= w < all.take(i as int).len() && all.take(i as int)[w] == text;
                    assert(all[w] == text);
                    assert(has_key(keys_before, all[w]));
                    let k = choose|k: int|
                        0 <= k < keys_before.len() && #[trigger] keys_before[k].chars@ == all[w];
                    assert(keys@[k].chars@ == all[p]);
                }
            }
            if fresh {
                assert forall|a: int, b: int| 0 <= a < b < keys.len() implies keys@[a].chars@
                    != keys@[b].chars@ by {
                    if b == keys.len() - 1 {
                        assert(keys_before[a].chars@ == keys@[a].chars@);
                        assert(seen_before.contains(keys_before[a].chars@));
                    } else {
                        assert(keys_before[a].chars@ == keys@[a].chars@);
                        assert(keys_before[b].chars@ == keys@[b].chars@);
                    }
                }
            }
        }
        i += 1;
    }
    proof {
        assert forall|k: int| 0 <= k < keys.len() implies #[trigger] keys@[k].timestamp
            == timestamp_of(meta@, keys@[k].chars@) by {
            assert(firsts@[k] < i);
        }
    }
    let order = sort_range(&keys, 0, keys.len());
    let mut out: Vec<String> = Vec::new();
    let mut t: usize = 0;
    while t < order.len()
        invariant
            t <= order.len(),
            out.len() == t,
            all == names.deep_view(),
            firsts.len() == keys.len(),
            spans(order@, 0, keys.len() as int),
            forall|k: int|
                0 <= k < keys.len() ==> (#[trigger] firsts@[k]) < names.len() && keys@[k].chars@
                    == all[firsts@[k] as int],
            forall|x: int| 0 <= x < t ==> #[trigger] out@[x]@ == keys@[order@[x] as int].chars@,
            forall|p: int| 0 <= p < all.len() ==> has_key(keys@, #[trigger] all[p]),
            in_order(keys@, order@),
            forall|k: int|
                0 <= k < keys.len() ==> #[trigger] keys@[k].timestamp == timestamp_of(
                    meta@,
                    keys@[k].chars@,
                ),
        decreases order.len() - t,
    {
        let from = firsts[order[t]];
        out.push(names[from].clone());
        t += 1;
    }
    proof {
        let got = out.deep_view();
        assert(all.take(names.len() as int) =~= all);
        assert forall|x: int, y: int| 0 <= x < y < got.len() implies recency_before(
            meta@,
            got[x],
            got[y],
        ) by {
            let kx = order@[x] as int;
            let ky = order@[y] as int;
            assert(key_precedes(keys@[kx], keys@[ky]));
            assert(firsts@[kx] < names.len() && firsts@[ky] < names.len());
        }
        assert forall|n: Seq<char>| got.contains(n) <==> all.contains(n) by {
            if got.contains(n) {
                let x = choose|x: int| 0 <= x < got.len() && got[x] == n;
                let k = order@[x] as int;
                assert(all[firsts@[k] as int] == n);
            }
            if all.contains(n) {
                let p = choose|p: int| 0 <= p < all.len() && all[p] == n;
                assert(has_key(keys@, all[p]));
                let k = choose|k: int| 0 <= k < keys.len() && #[trigger] keys@[k].chars@ == all[p];
                assert(order@.contains(k as usize));
                let x = choose|x: int| 0 <= x < order.len() && order@[x] == k as usize;
                assert(got[x] == n);
            }
        }
        lemma_sorted_by_recent(meta@, all);
        lemma_recency_sorted_unique(meta@, got, sorted_by_recent(meta@, all));
    }
    out
}

} // verus!
