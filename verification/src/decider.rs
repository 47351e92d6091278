//! The action decider: what has to happen for a chosen branch.

use crate::catalog::{match_remote_branch, matching_remote, strip_remote_prefix, stripped};
use crate::error::{ErrorView, GwwError};
use crate::inventory::{
    lemma_worktree_with_branch_is_first, worktree_for_branch, worktree_with_branch,
};
use crate::model::{WorktreeInfo, WorktreeView};
use crate::planner::{
    parent_dir, parent_of, planned_path, worktree_path_for_branch, PathConfig, PathConfigView,
};
use crate::text::{chars_of, string_of, trim, trimmed};
use vstd::prelude::*;
use vstd::string::StringExecFns;

verus! {

/// What a checkout of a branch comes to.
#[derive(Debug, Clone, PartialEq, Eq)]
pub enum Action {
    /// The branch has a worktree at `path`: nothing is created.
    Reuse { path: String },
    /// A worktree is created at `path` for the local branch `branch`.
    CreateFromLocal { path: String, branch: String },
    /// A worktree is created at `path` for a new local branch
    /// `local_branch` that tracks `remote_ref`.
    CreateFromRemote { path: String, local_branch: String, remote_ref: String },
    /// A worktree is created at `path` for a branch that neither exists
    /// locally nor on a remote.
    CreateNew { path: String, branch: String },
}

/// The view of an `Action`.
pub enum ActionView {
    Reuse { path: Seq<char> },
    CreateFromLocal { path: Seq<char>, branch: Seq<char> },
    CreateFromRemote { path: Seq<char>, local_branch: Seq<char>, remote_ref: Seq<char> },
    CreateNew { path: Seq<char>, branch: Seq<char> },
}

impl View for Action {
    type V = ActionView;

    open spec fn view(&self) -> ActionView {
        match self {
            Action::Reuse { path } => ActionView::Reuse { path: path@ },
            Action::CreateFromLocal { path, branch } => ActionView::CreateFromLocal {
                path: path@,
                branch: branch@,
            },
            Action::CreateFromRemote {
                path,
                local_branch,
                remote_ref,
            } => ActionView::CreateFromRemote {
                path: path@,
                local_branch: local_branch@,
                remote_ref: remote_ref@,
            },
            Action::CreateNew { path, branch } => ActionView::CreateNew {
                path: path@,
                branch: branch@,
            },
        }
    }
}

/// The action for `selected`, by the first of these that applies:
/// - a worktree has `selected` checked out: that worktree is reused;
/// - `selected` is a local branch: a worktree is created for it;
/// - `selected` stands for a remote branch: where the local branch of
///   that remote branch has a worktree, that one is reused; else a
///   worktree is created for a local branch that tracks the remote one;
/// - else a worktree is created for a new branch.
/// A worktree that is created lies at the planned path of its local
/// branch; where no path can be planned, that is the failure.
pub open spec fn action_of(
    selected: Seq<char>,
    worktrees: Seq<WorktreeView>,
    locals: Seq<Seq<char>>,
    remotes: Seq<Seq<char>>,
    config: PathConfigView,
) -> Result<ActionView, ErrorView> {
    match worktree_with_branch(worktrees, selected) {
        Some(existing) => Ok(ActionView::Reuse { path: existing.path }),
        None => if locals.contains(selected) {
            match planned_path(config, selected) {
                Ok(path) => Ok(ActionView::CreateFromLocal { path, branch: selected }),
                Err(e) => Err(e),
            }
        } else {
            match matching_remote(selected, remotes) {
                Some(remote_ref) => match worktree_with_branch(worktrees, stripped(remote_ref)) {
                    Some(existing) => Ok(ActionView::Reuse { path: existing.path }),
                    None => match planned_path(config, stripped(remote_ref)) {
                        Ok(path) => Ok(
                            ActionView::CreateFromRemote {
                                path,
                                local_branch: stripped(remote_ref),
                                remote_ref,
                            },
                        ),
                        Err(e) => Err(e),
                    },
                },
                None => match planned_path(config, selected) {
                    Ok(path) => Ok(ActionView::CreateNew { path, branch: selected }),
                    Err(e) => Err(e),
                },
            }
        },
    }
}

/// A branch that has a worktree is never given a second one: whatever
/// the local and the remote branches and the configuration are, the
/// action is to reuse the first worktree that has the branch checked out,
/// at the path on record for it.
pub proof fn lemma_branch_with_worktree_is_reused(
    selected: Seq<char>,
    worktrees: Seq<WorktreeView>,
    locals: Seq<Seq<char>>,
    remotes: Seq<Seq<char>>,
    config: PathConfigView,
    i: int,
)
    requires
        0 <= i < worktrees.len(),
        worktrees[i].branch == Some(selected),
    ensures
        exists|k: int|
            0 <= k <= i && (#[trigger] worktrees[k]).branch == Some(selected) && action_of(
                selected,
                worktrees,
                locals,
                remotes,
                config,
            ) == Ok::<ActionView, ErrorView>(ActionView::Reuse { path: worktrees[k].path })
                && forall|j: int| 0 <= j < k ==> (#[trigger] worktrees[j]).branch != Some(selected),
{
    lemma_worktree_with_branch_is_first(worktrees, selected, i);
    let k = choose|k: int|
        0 <= k <= i && worktree_with_branch(worktrees, selected) == Some(#[trigger] worktrees[k])
            && worktrees[k].branch == Some(selected) && forall|j: int|
            0 <= j < k ==> (#[trigger] worktrees[j]).branch != Some(selected);
    assert(action_of(selected, worktrees, locals, remotes, config) == Ok::<ActionView, ErrorView>(
        ActionView::Reuse { path: worktrees[k].path },
    ));
}

/// Whether `names` holds `name`.
fn holds_name(names: &[String], name: &str) -> (r: bool)
    ensures
        r == names.deep_view().contains(name@),
{
    let wanted = name.to_owned();
    let ghost all = names.deep_view();
    let mut i: usize = 0;
    while i < names.len()
        invariant
            i <= names.len(),
            all == names.deep_view(),
            wanted@ == name@,
            forall|k: int| 0 <= k < i ==> #[trigger] all[k] != name@,
        decreases names.len() - i,
    {
        if names[i] == wanted {
            assert(all[i as int] == name@);
            return true;
        }
        i += 1;
    }
    false
}

/// Decides what a checkout of `selected_branch` comes to.
///
/// A branch that has a worktree is never given a second one: the action
/// is then to reuse that worktree, at the path on record for it, whatever
/// the configuration holds.
pub fn checkout(
    selected_branch: &str,
    worktrees: &[WorktreeInfo],
    locals: &[String],
    remotes: &[String],
    config: &PathConfig,
) -> (r: Result<Action, GwwError>)
    ensures
        match r {
            Ok(action) => action_of(
                selected_branch@,
                worktrees.deep_view(),
                locals.deep_view(),
                remotes.deep_view(),
                config@,
            ) == Ok::<ActionView, ErrorView>(action@),
            Err(e) => action_of(
                selected_branch@,
                worktrees.deep_view(),
                locals.deep_view(),
                remotes.deep_view(),
                config@,
            ) == Err::<ActionView, ErrorView>(e@),
        },
        worktree_with_branch(worktrees.deep_view(), selected_branch@) is Some ==> r is Ok
            && r.unwrap()@ == (ActionView::Reuse {
            path: worktree_with_branch(worktrees.deep_view(), selected_branch@).unwrap().path,
        }),
{
    if let Some(existing) = worktree_for_branch(worktrees, selected_branch) {
        return Ok(Action::Reuse { path: existing.path.clone() });
    }
    if holds_name(locals, selected_branch) {
        return match worktree_path_for_branch(config, selected_branch) {
            Ok(path) => Ok(Action::CreateFromLocal { path, branch: selected_branch.to_owned() }),
            Err(e) => Err(e),
        };
    }
    if let Some(remote_ref) = match_remote_branch(selected_branch, remotes) {
        let local_name = strip_remote_prefix(remote_ref.as_str());
        if let Some(existing) = worktree_for_branch(worktrees, local_name.as_str()) {
            return Ok(Action::Reuse { path: existing.path.clone() });
        }
        return match worktree_path_for_branch(config, local_name.as_str()) {
            Ok(path) => Ok(Action::CreateFromRemote { path, local_branch: local_name, remote_ref }),
            Err(e) => Err(e),
        };
    }
    match worktree_path_for_branch(config, selected_branch) {
        Ok(path) => Ok(Action::CreateNew { path, branch: selected_branch.to_owned() }),
        Err(e) => Err(e),
    }
}

impl ActionView {
    /// The path of the worktree that the action ends in.
    pub open spec fn path(self) -> Seq<char> {
        match self {
            ActionView::Reuse { path } => path,
            ActionView::CreateFromLocal { path, .. } => path,
            ActionView::CreateFromRemote { path, .. } => path,
            ActionView::CreateNew { path, .. } => path,
        }
    }

    /// The local branch of the worktree that the action creates; `None`
    /// where it creates none.
    pub open spec fn local_branch(self) -> Option<Seq<char>> {
        match self {
            ActionView::Reuse { .. } => None,
            ActionView::CreateFromLocal { branch, .. } => Some(branch),
            ActionView::CreateFromRemote { local_branch, .. } => Some(local_branch),
            ActionView::CreateNew { branch, .. } => Some(branch),
        }
    }

    /// The remote branch that the new local branch tracks; `None` where
    /// the action creates no such branch.
    pub open spec fn remote_ref(self) -> Option<Seq<char>> {
        match self {
            ActionView::CreateFromRemote { remote_ref, .. } => Some(remote_ref),
            _ => None,
        }
    }
}

impl Action {
    /// The path of the worktree that the action ends in.
    pub fn path(&self) -> (r: &String)
        ensures
            r@ == self@.path(),
    {
        match self {
            Action::Reuse { path } => path,
            Action::CreateFromLocal { path, .. } => path,
            Action::CreateFromRemote { path, .. } => path,
            Action::CreateNew { path, .. } => path,
        }
    }

    /// The local branch of the worktree that the action creates; `None`
    /// where it creates none.
    pub fn local_branch(&self) -> (r: Option<&String>)
        ensures
            r.deep_view() == self@.local_branch(),
    {
        match self {
            Action::Reuse { .. } => None,
            Action::CreateFromLocal { branch, .. } => Some(branch),
            Action::CreateFromRemote { local_branch, .. } => Some(local_branch),
            Action::CreateNew { branch, .. } => Some(branch),
        }
    }

    /// The remote branch that the new local branch tracks; `None` where
    /// the action creates no such branch.
    pub fn remote_ref(&self) -> (r: Option<&String>)
        ensures
            r.deep_view() == self@.remote_ref(),
    {
        match self {
            Action::CreateFromRemote { remote_ref, .. } => Some(remote_ref),
            _ => None,
        }
    }
}

/// What has to happen before a worktree is created for a branch.
#[derive(Debug, Clone, PartialEq, Eq)]
pub enum Confirmation {
    /// Nothing: the worktree can be created.
    Proceed,
    /// The user is asked `prompt`, with yes as the answer offered.
    Ask { prompt: String },
}

/// The view of a `Confirmation`.
pub enum ConfirmationView {
    Proceed,
    Ask { prompt: Seq<char> },
}

impl View for Confirmation {
    type V = ConfirmationView;

    open spec fn view(&self) -> ConfirmationView {
        match self {
            Confirmation::Proceed => ConfirmationView::Proceed,
            Confirmation::Ask { prompt } => ConfirmationView::Ask { prompt: prompt@ },
        }
    }
}

/// The question that is put before a branch is created.
pub open spec fn creation_prompt(branch: Seq<char>) -> Seq<char> {
    "Branch '"@ + branch + "' does not exist. Create it?"@
}

/// Whether the user has to confirm that `branch` is created: only where
/// neither the local branch nor the remote branch that it is to track
/// exists, and creation was not asked for outright.
pub open spec fn confirmation_of(
    branch: Seq<char>,
    create: bool,
    branch_exists: bool,
    remote_exists: bool,
) -> ConfirmationView {
    if branch_exists || remote_exists || create {
        ConfirmationView::Proceed
    } else {
        ConfirmationView::Ask { prompt: creation_prompt(branch) }
    }
}

/// Decides whether the user has to confirm that `branch` is created.
/// `branch_exists` says whether the local branch exists, `remote_exists`
/// whether the remote branch that it is to track exists (false where
/// there is none), and `create` whether creation was asked for outright.
pub fn ensure_branch_or_prompt(
    branch: &str,
    create: bool,
    branch_exists: bool,
    remote_exists: bool,
) -> (r: Confirmation)
    ensures
        r@ == confirmation_of(branch@, create, branch_exists, remote_exists),
{
    if branch_exists || remote_exists || create {
        return Confirmation::Proceed;
    }
    let mut prompt = "Branch '".to_owned();
    prompt.append(branch);
    prompt.append("' does not exist. Create it?");
    Confirmation::Ask { prompt }
}

/// What the user's answer to the question comes to: to decline is to
/// fail.
pub fn confirm_creation(branch: &str, answer: bool) -> (r: Result<(), GwwError>)
    ensures
        answer ==> r is Ok,
        !answer ==> r is Err && r->Err_0@ == (ErrorView::BranchDoesNotExist { branch: branch@ }),
{
    if answer {
        Ok(())
    } else {
        Err(GwwError::BranchDoesNotExist { branch: branch.to_owned() })
    }
}

/// The arguments with which git creates a worktree at `path`.
///
/// With a remote branch to track, a new local branch is made from it,
/// and the name of that local branch is required. Without one, an
/// existing branch is checked out and a missing one is made; without any
/// branch, git picks one.
pub open spec fn worktree_add_request(
    path: Seq<char>,
    branch: Option<Seq<char>>,
    remote: Option<Seq<char>>,
    branch_exists: bool,
) -> Result<Seq<Seq<char>>, ErrorView> {
    let start = seq!["worktree"@, "add"@, path];
    match remote {
        Some(remote_branch) => match branch {
            Some(local_branch) => Ok(start + seq!["-b"@, local_branch, remote_branch]),
            None => Err(ErrorView::LocalBranchRequired),
        },
        None => match branch {
            Some(b) => if branch_exists {
                Ok(start + seq![b])
            } else {
                Ok(start + seq!["-b"@, b])
            },
            None => Ok(start),
        },
    }
}

/// The arguments with which git creates a worktree at `path`.
/// `branch_exists` says whether `branch` exists as a local branch.
pub fn git_worktree_add(
    path: &str,
    branch: Option<&str>,
    remote: Option<&str>,
    branch_exists: bool,
) -> (r: Result<Vec<String>, GwwError>)
    ensures
        match r {
            Ok(args) => worktree_add_request(
                path@,
                branch.deep_view(),
                remote.deep_view(),
                branch_exists,
            ) == Ok::<Seq<Seq<char>>, ErrorView>(args.deep_view()),
            Err(e) => worktree_add_request(
                path@,
                branch.deep_view(),
                remote.deep_view(),
                branch_exists,
            ) == Err::<Seq<Seq<char>>, ErrorView>(e@),
        },
{
    let mut args: Vec<String> = Vec::new();
    args.push("worktree".to_owned());
    args.push("add".to_owned());
    args.push(path.to_owned());
    assert(args.deep_view() =~= seq!["worktree"@, "add"@, path@]);
    match remote {
        Some(remote_branch) => match branch {
            Some(local_branch) => {
                args.push("-b".to_owned());
                args.push(local_branch.to_owned());
                args.push(remote_branch.to_owned());
                assert(args.deep_view() =~= seq!["worktree"@, "add"@, path@] + seq![
                    "-b"@,
                    local_branch@,
                    remote_branch@,
                ]);
                Ok(args)
            },
            None => Err(GwwError::LocalBranchRequired),
        },
        None => match branch {
            Some(b) => {
                if branch_exists {
                    args.push(b.to_owned());
                    assert(args.deep_view() =~= seq!["worktree"@, "add"@, path@] + seq![b@]);
                } else {
                    args.push("-b".to_owned());
                    args.push(b.to_owned());
                    assert(args.deep_view() =~= seq!["worktree"@, "add"@, path@] + seq![
                        "-b"@,
                        b@,
                    ]);
                }
                Ok(args)
            },
            None => Ok(args),
        },
    }
}

/// The arguments with which git removes the worktree at `path`.
pub fn git_worktree_remove(path: &str) -> (r: Vec<String>)
    ensures
        r.deep_view() == seq!["worktree"@, "remove"@, path@],
{
    let mut args: Vec<String> = Vec::new();
    args.push("worktree".to_owned());
    args.push("remove".to_owned());
    args.push(path.to_owned());
    assert(args.deep_view() =~= seq!["worktree"@, "remove"@, path@]);
    args
}

/// Decides which worktree a removal of `selected_branch` removes: the
/// first that has the branch checked out. It is a failure where there is
/// none.
pub fn remove_worktree(selected_branch: &str, worktrees: &[WorktreeInfo]) -> (r: Result<
    String,
    GwwError,
>)
    ensures
        match r {
            Ok(path) => worktree_with_branch(worktrees.deep_view(), selected_branch@) is Some
                && worktree_with_branch(worktrees.deep_view(), selected_branch@).unwrap().path
                == path@,
            Err(e) => worktree_with_branch(worktrees.deep_view(), selected_branch@) is None && e@
                == (ErrorView::NoWorktreeForBranch { branch: selected_branch@ }),
        },
{
    match worktree_for_branch(worktrees, selected_branch) {
        Some(worktree) => Ok(worktree.path.clone()),
        None => Err(GwwError::NoWorktreeForBranch { branch: selected_branch.to_owned() }),
    }
}

/// What a run of git comes to: what it printed where it succeeded, else
/// the failure with what it printed as its complaint, without the white
/// space around it.
pub fn git_output(success: bool, stdout: &str, stderr: &str) -> (r: Result<String, GwwError>)
    ensures
        success ==> r is Ok && r->Ok_0@ == stdout@,
        !success ==> r is Err && r->Err_0@ == (ErrorView::GitFailed { message: trimmed(stderr@) }),
{
    if success {
        Ok(stdout.to_owned())
    } else {
        let chars = chars_of(stderr);
        Err(GwwError::GitFailed { message: string_of(trim(chars.as_slice())) })
    }
}

/// Whether the command runs inside a git repository: it does where git
/// could name the repository's top directory.
pub fn ensure_git_repo(toplevel: &Result<String, GwwError>) -> (r: Result<(), GwwError>)
    ensures
        toplevel is Ok ==> r is Ok,
        toplevel is Err ==> r is Err && r->Err_0@ == ErrorView::NotAGitRepository,
{
    match toplevel {
        Ok(_) => Ok(()),
        Err(_) => Err(GwwError::NotAGitRepository),
    }
}

/// What is to be done next for a checkout.
#[derive(Debug, Clone, PartialEq, Eq)]
pub enum CheckoutStep {
    /// Nothing is created: the worktree at `path` is reported.
    Report { path: String },
    /// The user is asked `prompt`, with yes as the answer offered, and the
    /// step is taken again with the answer.
    Ask { prompt: String },
    /// The directory `parent`, in which `path` lies, is made with all that
    /// is missing above it; then git is run with `arguments`, and the
    /// worktree at `path` is reported.
    Create { path: String, parent: Option<String>, arguments: Vec<String> },
}

/// The view of a `CheckoutStep`.
pub enum CheckoutStepView {
    Report { path: Seq<char> },
    Ask { prompt: Seq<char> },
    Create { path: Seq<char>, parent: Option<Seq<char>>, arguments: Seq<Seq<char>> },
}

impl View for CheckoutStep {
    type V = CheckoutStepView;

    open spec fn view(&self) -> CheckoutStepView {
        match self {
            CheckoutStep::Report { path } => CheckoutStepView::Report { path: path@ },
            CheckoutStep::Ask { prompt } => CheckoutStepView::Ask { prompt: prompt@ },
            CheckoutStep::Create { path, parent, arguments } => CheckoutStepView::Create {
                path: path@,
                parent: parent.deep_view(),
                arguments: arguments.deep_view(),
            },
        }
    }
}

/// The step that creates the worktree of an action: the directory in
/// which the worktree is to lie is made before git creates the worktree.
pub open spec fn creation_of(action: ActionView, branch_exists: bool) -> Result<
    CheckoutStepView,
    ErrorView,
> {
    match worktree_add_request(
        action.path(),
        action.local_branch(),
        action.remote_ref(),
        branch_exists,
    ) {
        Ok(arguments) => Ok(
            CheckoutStepView::Create {
                path: action.path(),
                parent: parent_of(action.path()),
                arguments,
            },
        ),
        Err(e) => Err(e),
    }
}

/// The next step of a checkout. An action that reuses a worktree only
/// reports it, and nothing is asked or created. For an action that
/// creates one, the creation comes only after the user has confirmed it
/// where `confirmation_of` wants that: without an answer the user is
/// asked, and an answer of no is a failure.
pub open spec fn checkout_step_of(
    action: ActionView,
    create: bool,
    branch_exists: bool,
    remote_exists: bool,
    answer: Option<bool>,
) -> Result<CheckoutStepView, ErrorView> {
    match action.local_branch() {
        None => Ok(CheckoutStepView::Report { path: action.path() }),
        Some(branch) => match confirmation_of(
            branch,
            create,
            branch_exists,
            action.remote_ref() is Some && remote_exists,
        ) {
            ConfirmationView::Proceed => creation_of(action, branch_exists),
            ConfirmationView::Ask { prompt } => match answer {
                None => Ok(CheckoutStepView::Ask { prompt }),
                Some(true) => creation_of(action, branch_exists),
                Some(false) => Err(ErrorView::BranchDoesNotExist { branch }),
            },
        },
    }
}

/// The text of an optional string.
fn as_text(value: Option<&String>) -> (r: Option<&str>)
    ensures
        r.deep_view() == value.deep_view(),
{
    match value {
        Some(s) => Some(s.as_str()),
        None => None,
    }
}

/// Decides the next step of a checkout.
///
/// `create` says whether creation was asked for outright, `branch_exists`
/// whether the action's local branch exists, `remote_exists` whether the
/// remote branch that it is to track exists, and `answer` what the user
/// answered where the question was put already.
pub fn checkout_step(
    action: &Action,
    create: bool,
    branch_exists: bool,
    remote_exists: bool,
    answer: Option<bool>,
) -> (r: Result<CheckoutStep, GwwError>)
    ensures
        match r {
            Ok(step) => checkout_step_of(action@, create, branch_exists, remote_exists, answer)
                == Ok::<CheckoutStepView, ErrorView>(step@),
            Err(e) => checkout_step_of(action@, create, branch_exists, remote_exists, answer)
                == Err::<CheckoutStepView, ErrorView>(e@),
        },
        action@ is Reuse ==> r is Ok && r->Ok_0@ == (CheckoutStepView::Report {
            path: action@.path(),
        }),
{
    let branch = match action.local_branch() {
        Some(branch) => branch,
        None => {
            return Ok(CheckoutStep::Report { path: action.path().clone() });
        },
    };
    let remote = as_text(action.remote_ref());
    let asked = ensure_branch_or_prompt(
        branch.as_str(),
        create,
        branch_exists,
        remote.is_some() && remote_exists,
    );
    if let Confirmation::Ask { prompt } = asked {
        match answer {
            None => {
                return Ok(CheckoutStep::Ask { prompt });
            },
            Some(yes) => {
                if let Err(e) = confirm_creation(branch.as_str(), yes) {
                    return Err(e);
                }
            },
        }
    }
    match git_worktree_add(action.path().as_str(), Some(branch.as_str()), remote, branch_exists) {
        Ok(arguments) => Ok(
            CheckoutStep::Create {
                path: action.path().clone(),
                parent: parent_dir(action.path().as_str()),
                arguments,
            },
        ),
        Err(e) => Err(e),
    }
}

} // verus!
