//! The branch selector: what is put before the user, and what the user's
//! choice comes to. The picker itself is the caller's.

use crate::error::{ErrorView, GwwError};
use crate::model::{
    BranchInfo, BranchMetadata, BranchSource, CandidateView, MetaView, WorktreeInfo,
    WorktreeView,
};
use crate::ranking::{lemma_sorted_by_recent, recency_before, sort_by_recent, sorted_by_recent};
use crate::resolver::{branches_with_worktree, worktree_branches};
use crate::text::text_before;
use vstd::prelude::*;
use vstd::string::StringExecFns;

verus! {

/// `text` between the escape sequences `codes`, which switch a style on,
/// and the sequence that switches all styles off.
pub open spec fn styled(codes: Seq<char>, text: Seq<char>) -> Seq<char> {
    codes + text + "\x1b[0m"@
}

/// `text` in bold cyan. Stands for `console::style` with `cyan`, `bold`
/// and `force_styling(true)`, rendered by the `Display` of
/// `console::StyledObject`: with styling forced on, that writes the
/// escape sequence of the foreground colour (30 plus the colour's number,
/// 6 for cyan), the escape sequence of each attribute (1 for bold), the
/// text as it is, and the reset sequence.
#[verifier::external_body]
fn style_tag(text: &str) -> (r: String)
    ensures
        r@ == styled("\x1b[36m\x1b[1m"@, text@),
{
    console::style(text).cyan().bold().force_styling(true).to_string()
}

/// `text` in magenta. Stands for `console::style` with `magenta` and
/// `force_styling(true)`, rendered by the `Display` of
/// `console::StyledObject`: the escape sequence of the foreground colour
/// (30 plus 5 for magenta), the text as it is, and the reset sequence.
#[verifier::external_body]
fn style_subject(text: &str) -> (r: String)
    ensures
        r@ == styled("\x1b[35m"@, text@),
{
    console::style(text).magenta().force_styling(true).to_string()
}

/// `text` in yellow. Stands for `console::style` with `yellow` and
/// `force_styling(true)`, rendered by the `Display` of
/// `console::StyledObject`: the escape sequence of the foreground colour
/// (30 plus 3 for yellow), the text as it is, and the reset sequence.
#[verifier::external_body]
fn style_author(text: &str) -> (r: String)
    ensures
        r@ == styled("\x1b[33m"@, text@),
{
    console::style(text).yellow().force_styling(true).to_string()
}

/// `text` dimmed. Stands for `console::style` with `dim` and
/// `force_styling(true)`, rendered by the `Display` of
/// `console::StyledObject`: the escape sequence of the attribute (2 for
/// dim), the text as it is, and the reset sequence.
#[verifier::external_body]
fn style_timestamp(text: &str) -> (r: String)
    ensures
        r@ == styled("\x1b[2m"@, text@),
{
    console::style(text).dim().force_styling(true).to_string()
}

/// The letter that stands for a tier.
pub open spec fn source_label(source: BranchSource) -> Seq<char> {
    match source {
        BranchSource::Worktree => "T"@,
        BranchSource::Local => "L"@,
        BranchSource::Remote => "R"@,
    }
}

/// The tag of a candidate: its tier's letter and a star for the current
/// branch, in square brackets. A tag has four characters.
pub open spec fn tag_of(candidate: CandidateView) -> Seq<char> {
    "["@ + source_label(candidate.source) + (if candidate.is_current {
        "*"@
    } else {
        " "@
    }) + "]"@
}

/// `text` in the style given by `codes` where colours are wanted, else as
/// it is.
pub open spec fn painted(color: bool, codes: Seq<char>, text: Seq<char>) -> Seq<char> {
    if color {
        styled(codes, text)
    } else {
        text
    }
}

/// The line that the picker shows for a candidate: the tag, the name, the
/// subject in quotes, the author in square brackets and the time in round
/// brackets, with one space between them. Where colours are wanted the
/// tag is bold cyan, the subject magenta, the author yellow and the time
/// dim.
pub open spec fn item_text(candidate: CandidateView, color: bool) -> Seq<char> {
    painted(color, "\x1b[36m\x1b[1m"@, tag_of(candidate)) + " "@ + candidate.name + " "@ + painted(
        color,
        "\x1b[35m"@,
        "\""@ + candidate.summary.subject + "\""@,
    ) + " "@ + painted(color, "\x1b[33m"@, "["@ + candidate.summary.author + "]"@) + " "@
        + painted(color, "\x1b[2m"@, "("@ + candidate.summary.timestamp_label + ")"@)
}

/// `text` between `open` and `close`.
fn bracketed(open: &str, text: &str, close: &str) -> (r: String)
    ensures
        r@ == open@ + text@ + close@,
{
    let mut out = open.to_owned();
    out.append(text);
    out.append(close);
    out
}

/// The line that the picker shows for a candidate.
pub fn format_branch_item(info: &BranchInfo, color: bool) -> (r: String)
    ensures
        r@ == item_text(info@, color),
{
    let label = match info.source {
        BranchSource::Worktree => "T",
        BranchSource::Local => "L",
        BranchSource::Remote => "R",
    };
    let marker = if info.is_current {
        "*"
    } else {
        " "
    };
    let mut tag = "[".to_owned();
    tag.append(label);
    tag.append(marker);
    tag.append("]");
    let mut subject = bracketed("\"", info.summary.subject.as_str(), "\"");
    let mut author = bracketed("[", info.summary.author.as_str(), "]");
    let mut timestamp = bracketed("(", info.summary.timestamp_label.as_str(), ")");
    if color {
        tag = style_tag(tag.as_str());
        subject = style_subject(subject.as_str());
        author = style_author(author.as_str());
        timestamp = style_timestamp(timestamp.as_str());
    }
    let mut line = tag;
    line.append(" ");
    line.append(info.name.as_str());
    line.append(" ");
    line.append(subject.as_str());
    line.append(" ");
    line.append(author.as_str());
    line.append(" ");
    line.append(timestamp.as_str());
    line
}

/// What the selection of a branch comes to before the user is asked.
#[derive(Debug, Clone, PartialEq, Eq)]
pub enum SelectStep {
    /// The branch is known.
    Resolved { name: String },
    /// The user picks among `items`, with the one at `default_index`
    /// offered.
    Ask { items: Vec<String>, default_index: usize },
}

/// The view of a `SelectStep`.
pub enum SelectStepView {
    Resolved { name: Seq<char> },
    Ask { items: Seq<Seq<char>>, default_index: nat },
}

impl View for SelectStep {
    type V = SelectStepView;

    open spec fn view(&self) -> SelectStepView {
        match self {
            SelectStep::Resolved { name } => SelectStepView::Resolved { name: name@ },
            SelectStep::Ask { items, default_index } => SelectStepView::Ask {
                items: items.deep_view(),
                default_index: *default_index as nat,
            },
        }
    }
}

/// The lines that the picker shows for the candidates, in their order.
pub open spec fn item_texts(candidates: Seq<CandidateView>, color: bool) -> Seq<Seq<char>> {
    candidates.map_values(|c: CandidateView| item_text(c, color))
}

/// The selection of a branch: a name that was given is the branch, as it
/// stands; without one the user picks among the candidates, the first one
/// offered, and it is a failure where there is no candidate.
pub open spec fn select_step_of(
    explicit: Option<Seq<char>>,
    candidates: Seq<CandidateView>,
    color: bool,
) -> Result<SelectStepView, ErrorView> {
    match explicit {
        Some(name) => Ok(SelectStepView::Resolved { name }),
        None => if candidates.len() == 0 {
            Err(ErrorView::NoBranchesFound)
        } else {
            Ok(SelectStepView::Ask { items: item_texts(candidates, color), default_index: 0 })
        },
    }
}

/// Begins the selection of a branch. `explicit` is the name that was
/// given on the command line; with it, `candidates` is not looked at.
/// `color` says whether the items are styled for a terminal.
pub fn select_branch(explicit: Option<&str>, candidates: &[BranchInfo], color: bool) -> (r: Result<
    SelectStep,
    GwwError,
>)
    ensures
        match r {
            Ok(step) => select_step_of(explicit.deep_view(), candidates.deep_view(), color) == Ok::<
                SelectStepView,
                ErrorView,
            >(step@),
            Err(e) => select_step_of(explicit.deep_view(), candidates.deep_view(), color) == Err::<
                SelectStepView,
                ErrorView,
            >(e@),
        },
{
    if let Some(name) = explicit {
        return Ok(SelectStep::Resolved { name: name.to_owned() });
    }
    if candidates.len() == 0 {
        return Err(GwwError::NoBranchesFound);
    }
    let ghost views = candidates.deep_view();
    let mut items: Vec<String> = Vec::new();
    let mut i: usize = 0;
    while i < candidates.len()
        invariant
            i <= candidates.len(),
            views == candidates.deep_view(),
            items.deep_view() == item_texts(views.take(i as int), color),
        decreases candidates.len() - i,
    {
        let ghost before = items.deep_view();
        items.push(format_branch_item(&candidates[i], color));
        assert(items.deep_view() =~= before.push(item_text(views[i as int], color)));
        i += 1;
    }
    assert(views.take(candidates.len() as int) =~= views);
    Ok(SelectStep::Ask { items, default_index: 0 })
}

/// What the user's pick among the candidates comes to: the name of the
/// candidate picked. To leave without picking is a failure.
pub fn picked_branch(candidates: &[BranchInfo], picked: Option<usize>) -> (r: Result<
    String,
    GwwError,
>)
    requires
        picked is Some ==> picked.unwrap() < candidates.len(),
    ensures
        picked is Some ==> r is Ok && r->Ok_0@ == candidates[picked.unwrap() as int].name@,
        picked is None ==> r is Err && r->Err_0@ == ErrorView::SelectionCancelled,
{
    match picked {
        Some(index) => Ok(candidates[index].name.clone()),
        None => Err(GwwError::SelectionCancelled),
    }
}

/// The names of `names`, each once, in the order of texts.
pub open spec fn sorted_names(names: Seq<Seq<char>>) -> Seq<Seq<char>> {
    sorted_by_recent(Map::<Seq<char>, MetaView>::empty(), names)
}

/// `sorted_names` gives a list in the order of texts that holds the names
/// of `names` and no others.
pub proof fn lemma_sorted_names(names: Seq<Seq<char>>)
    ensures
        forall|i: int, j: int|
            0 <= i < j < sorted_names(names).len() ==> text_before(
                #[trigger] sorted_names(names)[i],
                #[trigger] sorted_names(names)[j],
            ),
        forall|n: Seq<char>|
            #![trigger sorted_names(names).contains(n)]
            #![trigger names.contains(n)]
            sorted_names(names).contains(n) <==> names.contains(n),
{
    let none = Map::<Seq<char>, MetaView>::empty();
    lemma_sorted_by_recent(none, names);
    assert forall|i: int, j: int| 0 <= i < j < sorted_names(names).len() implies text_before(
        #[trigger] sorted_names(names)[i],
        #[trigger] sorted_names(names)[j],
    ) by {
        assert(recency_before(none, sorted_names(names)[i], sorted_names(names)[j]));
    }
}

/// The selection of a worktree to remove: the user picks among the
/// branches that have a worktree, each once and in the order of texts,
/// the first one offered. It is a failure where there is none.
pub open spec fn removal_step_of(worktrees: Seq<WorktreeView>) -> Result<SelectStepView, ErrorView> {
    let branches = sorted_names(worktree_branches(worktrees));
    if branches.len() == 0 {
        Err(ErrorView::NoWorktreesFound)
    } else {
        Ok(SelectStepView::Ask { items: branches, default_index: 0 })
    }
}

/// Begins the selection of a worktree to remove. The items of the step
/// are the branches themselves: `picked_name` takes them with the pick.
pub fn select_worktree_branch(worktrees: &[WorktreeInfo]) -> (r: Result<SelectStep, GwwError>)
    ensures
        match r {
            Ok(step) => removal_step_of(worktrees.deep_view()) == Ok::<SelectStepView, ErrorView>(
                step@,
            ),
            Err(e) => removal_step_of(worktrees.deep_view()) == Err::<SelectStepView, ErrorView>(
                e@,
            ),
        },
        r is Err <==> worktree_branches(worktrees.deep_view()).len() == 0,
        r matches Ok(SelectStep::Ask { items, default_index }) ==> {
            &&& default_index == 0
            &&& items.len() > 0
            &&& forall|i: int, j: int|
                0 <= i < j < items.len() ==> text_before(
                    #[trigger] items.deep_view()[i],
                    #[trigger] items.deep_view()[j],
                )
            &&& forall|n: Seq<char>|
                items.deep_view().contains(n) <==> worktree_branches(
                    worktrees.deep_view(),
                ).contains(n)
        },
{
    let names = branches_with_worktree(worktrees);
    let none = BranchMetadata::new();
    let branches = sort_by_recent(names.as_slice(), &none);
    proof {
        let all = names.deep_view();
        let sorted = branches.deep_view();
        lemma_sorted_names(all);
        assert(sorted == sorted_names(all));
        if names.len() > 0 {
            assert(all.contains(all[0]));
            assert(sorted.contains(all[0]));
        }
        if sorted.len() > 0 {
            assert(sorted.contains(sorted[0]));
        }
        assert forall|i: int, j: int| 0 <= i < j < sorted.len() implies text_before(
            #[trigger] sorted[i],
            #[trigger] sorted[j],
        ) by {
            assert(text_before(sorted_names(all)[i], sorted_names(all)[j]));
        }
    }
    if branches.len() == 0 {
        Err(GwwError::NoWorktreesFound)
    } else {
        Ok(SelectStep::Ask { items: branches, default_index: 0 })
    }
}

/// What the user's pick among the branches comes to: the branch picked.
/// To leave without picking is a failure.
pub fn picked_name(choices: &[String], picked: Option<usize>) -> (r: Result<String, GwwError>)
    requires
        picked is Some ==> picked.unwrap() < choices.len(),
    ensures
        picked is Some ==> r is Ok && r->Ok_0@ == choices[picked.unwrap() as int]@,
        picked is None ==> r is Err && r->Err_0@ == ErrorView::SelectionCancelled,
{
    match picked {
        Some(index) => Ok(choices[index].clone()),
        None => Err(GwwError::SelectionCancelled),
    }
}

} // verus!
