//! The branch catalog: the names of the local and of the remote branches,
//! and what is known of each ref's last commit.

use crate::model::{BranchMeta, BranchMetadata, BranchSummary, MetaView, SummaryView};
use crate::text::{
    after_first, chars_of, decimal_i64, ends_with, has_suffix, holds_char, lines, lines_of,
    parse_i64, same_text, skip_past_first, split, split_on, string_of, texts_of, trim, trimmed,
};
use vstd::prelude::*;

verus! {

/// The name of a remote branch without the remote's own name: what
/// follows the first `/`, or the whole name where it holds no `/`.
pub open spec fn stripped(branch: Seq<char>) -> Seq<char> {
    after_first(branch, '/')
}

/// The name of a remote branch without the remote's own name.
pub fn strip_remote_prefix(branch: &str) -> (r: String)
    ensures
        r@ == stripped(branch@),
{
    let chars = chars_of(branch);
    string_of(skip_past_first(chars.as_slice(), '/'))
}

/// The local branch that a line of the listing of local refs names: the
/// line without the white space around it, unless nothing is left.
pub open spec fn local_branch_of_line() -> spec_fn(Seq<char>) -> Option<Seq<char>> {
    |line: Seq<char>|
        if trimmed(line).len() == 0 {
            None
        } else {
            Some(trimmed(line))
        }
}

/// The remote branch that a line of the listing of remote refs names: the
/// line without the white space around it, unless it is empty, holds no
/// `/`, or ends with `/HEAD` (the remote's pointer at its default branch).
pub open spec fn remote_branch_of_line() -> spec_fn(Seq<char>) -> Option<Seq<char>> {
    |line: Seq<char>|
        {
            let name = trimmed(line);
            if name.len() == 0 || !name.contains('/') || ends_with(name, "/HEAD"@) {
                None
            } else {
                Some(name)
            }
        }
}

/// The local branches that the listing of the local refs names.
pub open spec fn local_branches_of(listing: Seq<char>) -> Seq<Seq<char>> {
    lines_of(listing).filter_map(local_branch_of_line())
}

/// The remote branches that the listing of the remote refs names.
pub open spec fn remote_branches_of(listing: Seq<char>) -> Seq<Seq<char>> {
    lines_of(listing).filter_map(remote_branch_of_line())
}

/// Reads the local branches from what `git for-each-ref refs/heads` prints
/// with one short name per line.
pub fn list_local_branches(output: &str) -> (r: Vec<String>)
    ensures
        r.deep_view() == local_branches_of(output@),
{
    let text = chars_of(output);
    let all = lines(text.as_slice());
    let ghost pick = local_branch_of_line();
    let mut out: Vec<String> = Vec::new();
    let mut i: usize = 0;
    while i < all.len()
        invariant
            i <= all.len(),
            pick == local_branch_of_line(),
            out.deep_view() == texts_of(all@).take(i as int).filter_map(pick),
        decreases all.len() - i,
    {
        let ghost before = out.deep_view();
        proof {
            texts_of(all@).lemma_filter_map_take_succ(pick, i as int);
        }
        let name = trim(all[i]);
        if name.len() > 0 {
            out.push(string_of(name));
            assert(out.deep_view() =~= before + seq![name@]);
        } else {
            assert(out.deep_view() =~= before + Seq::<Seq<char>>::empty());
        }
        i += 1;
    }
    assert(texts_of(all@).take(all.len() as int) =~= texts_of(all@));
    out
}

/// Reads the remote branches from what `git for-each-ref refs/remotes`
/// prints with one short name per line.
pub fn list_remote_branches(output: &str) -> (r: Vec<String>)
    ensures
        r.deep_view() == remote_branches_of(output@),
{
    let text = chars_of(output);
    let all = lines(text.as_slice());
    let head = chars_of("/HEAD");
    let ghost pick = remote_branch_of_line();
    let mut out: Vec<String> = Vec::new();
    let mut i: usize = 0;
    while i < all.len()
        invariant
            i <= all.len(),
            head@ == "/HEAD"@,
            pick == remote_branch_of_line(),
            out.deep_view() == texts_of(all@).take(i as int).filter_map(pick),
        decreases all.len() - i,
    {
        let ghost before = out.deep_view();
        proof {
            texts_of(all@).lemma_filter_map_take_succ(pick, i as int);
        }
        let name = trim(all[i]);
        if name.len() > 0 && holds_char(name, '/') && !has_suffix(name, head.as_slice()) {
            out.push(string_of(name));
            assert(out.deep_view() =~= before + seq![name@]);
        } else {
            assert(out.deep_view() =~= before + Seq::<Seq<char>>::empty());
        }
        i += 1;
    }
    assert(texts_of(all@).take(all.len() as int) =~= texts_of(all@));
    out
}

/// The branch that is checked out, as `git rev-parse --abbrev-ref HEAD`
/// reports it: the first line without the white space around it. `None`
/// where that is empty or `HEAD`, which stands for a detached head.
pub open spec fn current_branch_of(output: Seq<char>) -> Option<Seq<char>> {
    let all = lines_of(output);
    let name = if all.len() > 0 {
        trimmed(all[0])
    } else {
        seq![]
    };
    if name.len() == 0 || name == "HEAD"@ {
        None
    } else {
        Some(name)
    }
}

/// Reads the branch that is checked out from what `git rev-parse
/// --abbrev-ref HEAD` prints.
pub fn current_branch(output: &str) -> (r: Option<String>)
    ensures
        r.deep_view() == current_branch_of(output@),
{
    let text = chars_of(output);
    let all = lines(text.as_slice());
    if all.len() == 0 {
        return None;
    }
    assert(texts_of(all@)[0] == all@[0]@);
    let name = trim(all[0]);
    let head = chars_of("HEAD");
    if name.len() == 0 || same_text(name, head.as_slice()) {
        None
    } else {
        Some(string_of(name))
    }
}

/// The `k`-th field of a line, without the white space around it; empty
/// where the line has no such field.
pub open spec fn field_of(fields: Seq<Seq<char>>, k: int) -> Seq<char> {
    if 0 <= k < fields.len() {
        trimmed(fields[k])
    } else {
        seq![]
    }
}

/// What one line of the batch says: the ref's short name and what is known
/// of its last commit. The fields are the name, the commit time as a
/// decimal number of seconds, the commit time as a label, the author and
/// the subject, with the unit separator U+001F between them. A field that
/// is missing counts as empty, a time that is no 64-bit number as 0, and
/// fields after the fifth are passed over. A line without a name says
/// nothing.
pub open spec fn entry_of_line(line: Seq<char>) -> Option<(Seq<char>, MetaView)> {
    let fields = split_on(line, '\x1f');
    if field_of(fields, 0).len() == 0 {
        None
    } else {
        Some(
            (
                field_of(fields, 0),
                MetaView {
                    timestamp_unix: match decimal_i64(field_of(fields, 1)) {
                        Some(t) => t,
                        None => 0,
                    },
                    summary: SummaryView {
                        timestamp_label: field_of(fields, 2),
                        author: field_of(fields, 3),
                        subject: field_of(fields, 4),
                    },
                },
            ),
        )
    }
}

/// What the given lines of the batch say, a later line of a name
/// replacing an earlier one.
pub open spec fn metadata_of_lines(lines: Seq<Seq<char>>) -> Map<Seq<char>, MetaView>
    decreases lines.len(),
{
    if lines.len() == 0 {
        Map::empty()
    } else {
        let known = metadata_of_lines(lines.drop_last());
        match entry_of_line(lines.last()) {
            Some((name, meta)) => known.insert(name, meta),
            None => known,
        }
    }
}

/// What a batch of ref metadata says, by short ref name.
pub open spec fn metadata_of(output: Seq<char>) -> Map<Seq<char>, MetaView> {
    metadata_of_lines(lines_of(output))
}

/// The `k`-th field of a line, without the white space around it.
fn field<'a>(fields: &Vec<&'a [char]>, k: usize) -> (r: &'a [char])
    ensures
        r@ == field_of(texts_of(fields@), k as int),
{
    if k < fields.len() {
        assert(texts_of(fields@)[k as int] == fields@[k as int]@);
        trim(fields[k])
    } else {
        let empty: &'a [char] = &[];
        assert(empty@ =~= Seq::<char>::empty());
        empty
    }
}

/// Reads one line of the batch.
pub fn parse_metadata_line(line: &[char]) -> (r: Option<(String, BranchMeta)>)
    ensures
        match r {
            Some((name, meta)) => entry_of_line(line@) == Some((name@, meta@)),
            None => entry_of_line(line@) is None,
        },
{
    let fields = split(line, '\x1f');
    let refname = field(&fields, 0);
    if refname.len() == 0 {
        return None;
    }
    let timestamp_unix = match parse_i64(field(&fields, 1)) {
        Some(t) => t,
        None => 0,
    };
    let summary = BranchSummary {
        timestamp_label: string_of(field(&fields, 2)),
        author: string_of(field(&fields, 3)),
        subject: string_of(field(&fields, 4)),
    };
    Some((string_of(refname), BranchMeta { timestamp_unix, summary }))
}

/// Reads the metadata of the refs from one batch: what `git for-each-ref`
/// prints for the local and the remote refs with five fields per line,
/// the short name, the commit time in seconds, the commit time as a
/// label, the author and the subject, and U+001F between them.
pub fn batch_branch_metadata(output: &str) -> (r: BranchMetadata)
    ensures
        r@ == metadata_of(output@),
{
    let text = chars_of(output);
    let all = lines(text.as_slice());
    let mut map = BranchMetadata::new();
    let mut i: usize = 0;
    while i < all.len()
        invariant
            i <= all.len(),
            map@ == metadata_of_lines(texts_of(all@).take(i as int)),
        decreases all.len() - i,
    {
        proof {
            assert(texts_of(all@).take(i + 1).drop_last() =~= texts_of(all@).take(i as int));
            assert(texts_of(all@).take(i + 1).last() == all@[i as int]@);
        }
        match parse_metadata_line(all[i]) {
            Some((name, meta)) => {
                map.insert(name, meta);
            },
            None => {},
        }
        i += 1;
    }
    assert(texts_of(all@).take(all.len() as int) =~= texts_of(all@));
    map
}

/// The first of `remotes` whose name without the remote's own is `branch`.
pub open spec fn first_stripping_to(remotes: Seq<Seq<char>>, branch: Seq<char>) -> Option<
    Seq<char>,
>
    decreases remotes.len(),
{
    if remotes.len() == 0 {
        None
    } else if stripped(remotes[0]) == branch {
        Some(remotes[0])
    } else {
        first_stripping_to(remotes.drop_first(), branch)
    }
}

/// The remote branch that `branch` stands for: `branch` itself where it is
/// the full name of a remote branch, else the first remote branch whose
/// name without the remote's own is `branch`.
pub open spec fn matching_remote(branch: Seq<char>, remotes: Seq<Seq<char>>) -> Option<
    Seq<char>,
> {
    if remotes.contains(branch) {
        Some(branch)
    } else {
        first_stripping_to(remotes, branch)
    }
}

/// The remote branch that `branch` stands for.
pub fn match_remote_branch(branch: &str, remotes: &[String]) -> (r: Option<String>)
    ensures
        r.deep_view() == matching_remote(branch@, remotes.deep_view()),
{
    let wanted = branch.to_owned();
    let ghost all = remotes.deep_view();
    let mut i: usize = 0;
    while i < remotes.len()
        invariant
            i <= remotes.len(),
            all == remotes.deep_view(),
            wanted@ == branch@,
            forall|k: int| 0 <= k < i ==> #[trigger] all[k] != branch@,
        decreases remotes.len() - i,
    {
        if remotes[i] == wanted {
            assert(all[i as int] == branch@);
            return Some(wanted);
        }
        i += 1;
    }
    assert(!all.contains(branch@));
    let mut j: usize = 0;
    assert(all.skip(0) =~= all);
    while j < remotes.len()
        invariant
            j <= remotes.len(),
            all == remotes.deep_view(),
            wanted@ == branch@,
            !all.contains(branch@),
            first_stripping_to(all.skip(j as int), branch@) == first_stripping_to(all, branch@),
        decreases remotes.len() - j,
    {
        let remote = &remotes[j];
        assert(all.skip(j as int)[0] == remote@);
        if strip_remote_prefix(remote.as_str()) == wanted {
            return Some(remote.clone());
        }
        assert(all.skip(j as int).drop_first() =~= all.skip(j + 1));
        j += 1;
    }
    None
}

} // verus!
