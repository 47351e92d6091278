//! The records that the resolver works on, and their mathematical views.
//!
//! Every record holds plain strings. Its view holds the same fields as
//! `Seq<char>`; contracts speak of views, so that two records with the
//! same text are the same to them.

use vstd::hash_map::StringHashMap;
use vstd::prelude::*;

verus! {

/// Where a branch candidate comes from.
#[derive(Debug, Clone, Copy, PartialEq, Eq, Structural)]
pub enum BranchSource {
    /// A local branch without a worktree.
    Local,
    /// A branch that only a remote has.
    Remote,
    /// A branch that is checked out in a worktree.
    Worktree,
}

/// One existing worktree: its directory, and its branch unless its head is
/// detached.
#[derive(Debug, Clone, PartialEq, Eq)]
pub struct WorktreeInfo {
    pub path: String,
    pub branch: Option<String>,
}

/// The view of a `WorktreeInfo`.
pub struct WorktreeView {
    pub path: Seq<char>,
    pub branch: Option<Seq<char>>,
}

impl View for WorktreeInfo {
    type V = WorktreeView;

    open spec fn view(&self) -> WorktreeView {
        WorktreeView {
            path: self.path@,
            branch: match self.branch {
                Some(b) => Some(b@),
                None => None,
            },
        }
    }
}

impl DeepView for WorktreeInfo {
    type V = WorktreeView;

    open spec fn deep_view(&self) -> WorktreeView {
        self@
    }
}

/// What is shown of a branch's last commit.
#[derive(Debug, Clone, PartialEq, Eq)]
pub struct BranchSummary {
    pub timestamp_label: String,
    pub author: String,
    pub subject: String,
}

/// The view of a `BranchSummary`.
pub struct SummaryView {
    pub timestamp_label: Seq<char>,
    pub author: Seq<char>,
    pub subject: Seq<char>,
}

impl View for BranchSummary {
    type V = SummaryView;

    open spec fn view(&self) -> SummaryView {
        SummaryView {
            timestamp_label: self.timestamp_label@,
            author: self.author@,
            subject: self.subject@,
        }
    }
}

impl DeepView for BranchSummary {
    type V = SummaryView;

    open spec fn deep_view(&self) -> SummaryView {
        self@
    }
}

impl BranchSummary {
    /// A summary with the same three texts.
    pub fn duplicate(&self) -> (r: BranchSummary)
        ensures
            r == *self,
    {
        BranchSummary {
            timestamp_label: self.timestamp_label.clone(),
            author: self.author.clone(),
            subject: self.subject.clone(),
        }
    }
}

/// What is known of a ref's last commit.
#[derive(Debug, Clone, PartialEq, Eq)]
pub struct BranchMeta {
    pub timestamp_unix: i64,
    pub summary: BranchSummary,
}

/// The view of a `BranchMeta`.
pub struct MetaView {
    pub timestamp_unix: i64,
    pub summary: SummaryView,
}

impl View for BranchMeta {
    type V = MetaView;

    open spec fn view(&self) -> MetaView {
        MetaView { timestamp_unix: self.timestamp_unix, summary: self.summary@ }
    }
}

impl DeepView for BranchMeta {
    type V = MetaView;

    open spec fn deep_view(&self) -> MetaView {
        self@
    }
}

/// One selectable branch.
#[derive(Debug, Clone, PartialEq, Eq)]
pub struct BranchInfo {
    pub name: String,
    pub source: BranchSource,
    pub summary: BranchSummary,
    pub is_current: bool,
}

/// The view of a `BranchInfo`.
pub struct CandidateView {
    pub name: Seq<char>,
    pub source: BranchSource,
    pub summary: SummaryView,
    pub is_current: bool,
}

impl View for BranchInfo {
    type V = CandidateView;

    open spec fn view(&self) -> CandidateView {
        CandidateView {
            name: self.name@,
            source: self.source,
            summary: self.summary@,
            is_current: self.is_current,
        }
    }
}

impl DeepView for BranchInfo {
    type V = CandidateView;

    open spec fn deep_view(&self) -> CandidateView {
        self@
    }
}

/// The summary that stands in for a ref of which nothing is known.
pub open spec fn placeholder() -> SummaryView {
    SummaryView {
        timestamp_label: "unknown time"@,
        author: "unknown author"@,
        subject: "unknown subject"@,
    }
}

/// The summary that stands in for a ref of which nothing is known.
pub fn placeholder_summary() -> (r: BranchSummary)
    ensures
        r@ == placeholder(),
{
    BranchSummary {
        timestamp_label: "unknown time".to_owned(),
        author: "unknown author".to_owned(),
        subject: "unknown subject".to_owned(),
    }
}

/// The commit time by which `name` is ranked: the one on record, or 0
/// where nothing is on record.
pub open spec fn timestamp_of(meta: Map<Seq<char>, MetaView>, name: Seq<char>) -> int {
    if meta.contains_key(name) {
        meta[name].timestamp_unix as int
    } else {
        0
    }
}

/// The summary shown for `name`: the one on record, or the placeholder.
pub open spec fn summary_of(meta: Map<Seq<char>, MetaView>, name: Seq<char>) -> SummaryView {
    if meta.contains_key(name) {
        meta[name].summary
    } else {
        placeholder()
    }
}

/// What is known of the refs' last commits, by short ref name.
pub struct BranchMetadata {
    entries: StringHashMap<BranchMeta>,
}

impl View for BranchMetadata {
    type V = Map<Seq<char>, MetaView>;

    closed spec fn view(&self) -> Map<Seq<char>, MetaView> {
        self.entries@.map_values(|m: BranchMeta| m@)
    }
}

impl BranchMetadata {
    /// A table without entries.
    pub fn new() -> (r: BranchMetadata)
        ensures
            r@ == Map::<Seq<char>, MetaView>::empty(),
    {
        let r = BranchMetadata { entries: StringHashMap::new() };
        assert(r@ =~= Map::<Seq<char>, MetaView>::empty());
        r
    }

    /// Records `meta` for `name`; what was on record for `name` is
    /// replaced.
    pub fn insert(&mut self, name: String, meta: BranchMeta)
        ensures
            final(self)@ == old(self)@.insert(name@, meta@),
    {
        self.entries.insert(name, meta);
        assert(self@ =~= old(self)@.insert(name@, meta@));
    }

    /// What is on record for `name`.
    pub fn get(&self, name: &str) -> (r: Option<&BranchMeta>)
        ensures
            match r {
                Some(m) => self@.contains_key(name@) && self@[name@] == m@,
                None => !self@.contains_key(name@),
            },
    {
        self.entries.get(name)
    }

    /// The commit time by which `name` is ranked.
    pub fn timestamp(&self, name: &str) -> (r: i64)
        ensures
            r == timestamp_of(self@, name@),
    {
        match self.entries.get(name) {
            Some(m) => m.timestamp_unix,
            None => 0,
        }
    }

    /// The summary shown for `name`.
    pub fn summary(&self, name: &str) -> (r: BranchSummary)
        ensures
            r@ == summary_of(self@, name@),
    {
        match self.entries.get(name) {
            Some(m) => m.summary.duplicate(),
            None => placeholder_summary(),
        }
    }
}

} // verus!
