//! The path planner: where the worktree of a branch lies.
//!
//! A path is a text whose components are separated by `/`. Nothing here
//! touches the file system.

use crate::error::{outcome_view, ErrorView, GwwError};
use crate::text::{
    after_last, chars_of, skip_past_last, split, split_on, string_of, texts_of, trim,
    trim_trailing, trimmed, without_trailing,
};
use vstd::prelude::*;
use vstd::slice::slice_subrange;
use vstd::string::StringExecFns;

verus! {

/// The name of the repository that the address of its origin gives: the
/// address without the `/` at its end, of that what follows the last `/`,
/// and of that what is left when `.git` is taken from its end.
pub open spec fn repo_name_of_url(url: Seq<char>) -> Seq<char> {
    without_trailing(after_last(without_trailing(url, seq!['/']), '/'), ".git"@)
}

/// The name of the repository that the address of its origin gives;
/// `None` where nothing is left of the address, which then gives no name.
pub fn repo_name_from_url(url: &str) -> (r: Option<String>)
    ensures
        r.deep_view() == if repo_name_of_url(url@).len() == 0 {
            None
        } else {
            Some(repo_name_of_url(url@))
        },
{
    let chars = chars_of(url);
    let mut slash: Vec<char> = Vec::new();
    slash.push('/');
    assert(slash@ =~= seq!['/']);
    let suffix = chars_of(".git");
    let cleaned = trim_trailing(chars.as_slice(), slash.as_slice());
    let name = trim_trailing(skip_past_last(cleaned, '/'), suffix.as_slice());
    if name.len() == 0 {
        None
    } else {
        Some(string_of(name))
    }
}

/// The last of `pieces` that names something: pieces that are empty or
/// `.` are passed over from the end, and `..` names nothing.
pub open spec fn last_named(pieces: Seq<Seq<char>>) -> Option<Seq<char>>
    decreases pieces.len(),
{
    if pieces.len() == 0 {
        None
    } else if pieces.last().len() == 0 || pieces.last() == seq!['.'] {
        last_named(pieces.drop_last())
    } else if pieces.last() == seq!['.', '.'] {
        None
    } else {
        Some(pieces.last())
    }
}

/// The base name of a path: its last component. A path that ends in `..`
/// or has no component but `/` and `.` has none.
pub open spec fn base_name_of(path: Seq<char>) -> Option<Seq<char>> {
    last_named(split_on(path, '/'))
}

/// The base name of a path.
pub fn base_name(path: &[char]) -> (r: Option<String>)
    ensures
        r.deep_view() == base_name_of(path@),
{
    let pieces = split(path, '/');
    let mut k: usize = pieces.len();
    assert(texts_of(pieces@).take(k as int) =~= texts_of(pieces@));
    while k > 0
        invariant
            k <= pieces.len(),
            last_named(texts_of(pieces@).take(k as int)) == base_name_of(path@),
        decreases k,
    {
        let piece = pieces[k - 1];
        proof {
            assert(texts_of(pieces@).take(k as int).last() == piece@);
            assert(texts_of(pieces@).take(k as int).drop_last() =~= texts_of(pieces@).take(k - 1));
        }
        let dot = piece.len() == 1 && piece[0] == '.';
        let dots = piece.len() == 2 && piece[0] == '.' && piece[1] == '.';
        assert(dot == (piece@ == seq!['.'])) by {
            if dot {
                assert(piece@ =~= seq!['.']);
            }
        }
        assert(dots == (piece@ == seq!['.', '.'])) by {
            if dots {
                assert(piece@ =~= seq!['.', '.']);
            }
        }
        if piece.len() == 0 || dot {
            k -= 1;
        } else if dots {
            return None;
        } else {
            return Some(string_of(piece));
        }
    }
    None
}

/// `base` with `part` adjoined: `part` alone where it begins with `/`,
/// else `base` and `part` with one `/` between them, which is left out
/// where `base` is empty or ends with `/` already.
pub open spec fn joined(base: Seq<char>, part: Seq<char>) -> Seq<char> {
    if part.len() > 0 && part[0] == '/' {
        part
    } else if base.len() == 0 || base.last() == '/' {
        base + part
    } else {
        base + seq!['/'] + part
    }
}

/// `base` with `part` adjoined.
pub fn join_path(base: &str, part: &str) -> (r: String)
    ensures
        r@ == joined(base@, part@),
{
    let head = chars_of(base);
    let tail = chars_of(part);
    if tail.len() > 0 && tail[0] == '/' {
        return part.to_owned();
    }
    let mut out = base.to_owned();
    if head.len() > 0 && head[head.len() - 1] != '/' {
        out.append("/");
        proof {
            reveal_strlit("/");
            assert("/"@ =~= seq!['/']);
        }
    }
    out.append(part);
    out
}

/// The name that the origin gives the repository: the one in its
/// address, without the white space around the address. `None` where no
/// origin is configured or its address gives no name.
pub open spec fn name_by_origin(origin_url: Option<Seq<char>>) -> Option<Seq<char>> {
    match origin_url {
        Some(url) => if repo_name_of_url(trimmed(url)).len() == 0 {
            None
        } else {
            Some(repo_name_of_url(trimmed(url)))
        },
        None => None,
    }
}

/// The name of the repository: the one that its origin gives, else the
/// base name of the repository's top directory, taken without the white
/// space around it. Where the origin gives none and git could not name
/// the top directory, git's failure is the failure; where the top
/// directory has no base name, no name is to be had.
pub open spec fn repo_name_of(
    origin_url: Option<Seq<char>>,
    toplevel: Result<Seq<char>, ErrorView>,
) -> Result<Seq<char>, ErrorView> {
    match name_by_origin(origin_url) {
        Some(name) => Ok(name),
        None => match toplevel {
            Ok(path) => match base_name_of(trimmed(path)) {
                Some(name) => Ok(name),
                None => Err(ErrorView::RepositoryNameUnknown),
            },
            Err(e) => Err(e),
        },
    }
}

/// The name of the repository. `origin_url` is what `git remote get-url
/// origin` printed, `None` where it failed; `toplevel` is what `git
/// rev-parse --show-toplevel` came to.
pub fn repo_name_stem(origin_url: Option<&str>, toplevel: &Result<String, GwwError>) -> (r: Result<
    String,
    GwwError,
>)
    ensures
        match r {
            Ok(name) => repo_name_of(origin_url.deep_view(), outcome_view(*toplevel)) == Ok::<
                Seq<char>,
                ErrorView,
            >(name@),
            Err(e) => repo_name_of(origin_url.deep_view(), outcome_view(*toplevel)) == Err::<
                Seq<char>,
                ErrorView,
            >(e@),
        },
{
    if let Some(url) = origin_url {
        let chars = chars_of(url);
        let cleaned = string_of(trim(chars.as_slice()));
        if let Some(name) = repo_name_from_url(cleaned.as_str()) {
            return Ok(name);
        }
    }
    match toplevel {
        Ok(path) => {
            let chars = chars_of(path.as_str());
            match base_name(trim(chars.as_slice())) {
                Some(name) => Ok(name),
                None => Err(GwwError::RepositoryNameUnknown),
            }
        },
        Err(e) => Err(e.duplicate()),
    }
}

/// The directory under which the worktrees lie: the configured one, else
/// `devel/worktrees` under the home directory.
pub open spec fn worktree_root_of(configured: Option<Seq<char>>, home: Option<Seq<char>>) -> Result<
    Seq<char>,
    ErrorView,
> {
    match configured {
        Some(root) => Ok(root),
        None => match home {
            Some(h) => Ok(joined(joined(h, "devel"@), "worktrees"@)),
            None => Err(ErrorView::HomeNotSet),
        },
    }
}

/// The directory under which the worktrees lie.
pub fn worktree_root(configured: Option<&str>, home: Option<&str>) -> (r: Result<String, GwwError>)
    ensures
        match r {
            Ok(root) => worktree_root_of(configured.deep_view(), home.deep_view()) == Ok::<
                Seq<char>,
                ErrorView,
            >(root@),
            Err(e) => worktree_root_of(configured.deep_view(), home.deep_view()) == Err::<
                Seq<char>,
                ErrorView,
            >(e@),
        },
{
    match configured {
        Some(root) => Ok(root.to_owned()),
        None => match home {
            Some(h) => {
                let devel = join_path(h, "devel");
                Ok(join_path(devel.as_str(), "worktrees"))
            },
            None => Err(GwwError::HomeNotSet),
        },
    }
}

/// What the planner is told of the machine and of the repository. A
/// field is `None` where the value could not be had.
#[derive(Debug, PartialEq, Eq)]
pub struct PathConfig {
    /// The configured root of the worktrees.
    pub worktree_root: Option<String>,
    /// The user's home directory.
    pub home: Option<String>,
    /// The address of the remote `origin`.
    pub origin_url: Option<String>,
    /// The repository's top directory, or the failure of git to name it.
    pub toplevel: Result<String, GwwError>,
}

/// The view of a `PathConfig`.
pub struct PathConfigView {
    pub worktree_root: Option<Seq<char>>,
    pub home: Option<Seq<char>>,
    pub origin_url: Option<Seq<char>>,
    pub toplevel: Result<Seq<char>, ErrorView>,
}

impl View for PathConfig {
    type V = PathConfigView;

    open spec fn view(&self) -> PathConfigView {
        PathConfigView {
            worktree_root: self.worktree_root.deep_view(),
            home: self.home.deep_view(),
            origin_url: self.origin_url.deep_view(),
            toplevel: outcome_view(self.toplevel),
        }
    }
}

/// Where the worktree of `branch` lies: under the root of the worktrees,
/// in the directory of the repository, in the directory of the branch.
/// Where the root is not to be had, that is the failure; else where the
/// repository's name is not to be had, that is.
pub open spec fn planned_path(config: PathConfigView, branch: Seq<char>) -> Result<
    Seq<char>,
    ErrorView,
> {
    match worktree_root_of(config.worktree_root, config.home) {
        Ok(root) => match repo_name_of(config.origin_url, config.toplevel) {
            Ok(repo) => Ok(joined(joined(root, repo), branch)),
            Err(e) => Err(e),
        },
        Err(e) => Err(e),
    }
}

/// The text of an optional string.
fn as_text(value: &Option<String>) -> (r: Option<&str>)
    ensures
        r.deep_view() == value.deep_view(),
{
    match value {
        Some(s) => Some(s.as_str()),
        None => None,
    }
}

/// Where the worktree of `branch` lies.
pub fn worktree_path_for_branch(config: &PathConfig, branch: &str) -> (r: Result<String, GwwError>)
    ensures
        match r {
            Ok(path) => planned_path(config@, branch@) == Ok::<Seq<char>, ErrorView>(path@),
            Err(e) => planned_path(config@, branch@) == Err::<Seq<char>, ErrorView>(e@),
        },
{
    let root = match worktree_root(as_text(&config.worktree_root), as_text(&config.home)) {
        Ok(root) => root,
        Err(e) => {
            return Err(e);
        },
    };
    let repo = match repo_name_stem(as_text(&config.origin_url), &config.toplevel) {
        Ok(repo) => repo,
        Err(e) => {
            return Err(e);
        },
    };
    let inner = join_path(root.as_str(), repo.as_str());
    Ok(join_path(inner.as_str(), branch))
}

/// Where the last component ends that lies within the first `e`
/// characters of `path`: separators at the end do not count, nor do `.`
/// components that follow a separator. The first character is never
/// given up.
pub open spec fn component_end(path: Seq<char>, e: nat) -> nat
    decreases e,
{
    if e >= 2 && e <= path.len() && (path[e - 1] == '/' || (path[e - 1] == '.' && path[e - 2]
        == '/')) {
        component_end(path, (e - 1) as nat)
    } else {
        e
    }
}

/// Where the component begins that ends at `e`: after the last separator
/// before `e`, or at the start of `path`.
pub open spec fn component_start(path: Seq<char>, e: nat) -> nat
    decreases e,
{
    if e > 0 && e <= path.len() && path[e - 1] != '/' {
        component_start(path, (e - 1) as nat)
    } else {
        e
    }
}

/// The directory that a path lies in: the path as far as its last but one
/// component reaches, which is `/` for a path right under the root and
/// empty for a path of one component. The empty path and the root lie in
/// no directory.
pub open spec fn parent_of(path: Seq<char>) -> Option<Seq<char>> {
    let e = component_end(path, path.len());
    if e == 0 || (e == 1 && path[0] == '/') {
        None
    } else {
        Some(path.take(component_end(path, component_start(path, e)) as int))
    }
}

/// Where the last component ends that lies within the first `e`
/// characters of `path`.
fn find_component_end(path: &[char], e: usize) -> (r: usize)
    requires
        e <= path.len(),
    ensures
        r == component_end(path@, e as nat),
        r <= e,
{
    let mut k: usize = e;
    while k >= 2 && (path[k - 1] == '/' || (path[k - 1] == '.' && path[k - 2] == '/'))
        invariant
            k <= e <= path.len(),
            component_end(path@, k as nat) == component_end(path@, e as nat),
        decreases k,
    {
        k -= 1;
    }
    k
}

/// Where the component begins that ends at `e`.
fn find_component_start(path: &[char], e: usize) -> (r: usize)
    requires
        e <= path.len(),
    ensures
        r == component_start(path@, e as nat),
        r <= e,
{
    let mut k: usize = e;
    while k > 0 && path[k - 1] != '/'
        invariant
            k <= e <= path.len(),
            component_start(path@, k as nat) == component_start(path@, e as nat),
        decreases k,
    {
        k -= 1;
    }
    k
}

/// The directory that a path lies in.
pub fn parent_dir(path: &str) -> (r: Option<String>)
    ensures
        r.deep_view() == parent_of(path@),
{
    let chars = chars_of(path);
    let e = find_component_end(chars.as_slice(), chars.len());
    if e == 0 || (e == 1 && chars[0] == '/') {
        return None;
    }
    let s = find_component_start(chars.as_slice(), e);
    let f = find_component_end(chars.as_slice(), s);
    Some(string_of(slice_subrange(chars.as_slice(), 0, f)))
}

} // verus!
