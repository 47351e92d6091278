//! What the command prints for the shell: the line that names the
//! worktree to change into, and the shell functions that read that line.

use vstd::prelude::*;
use vstd::string::StringExecFns;

verus! {

/// The token that the line with the worktree's path begins with.
pub const CD_PREFIX: &'static str = "GWW_CD:";

/// The shell functions up to the first pattern that looks for the token.
pub const AUTOCD_HEAD: &'static str =
    "gww() {\n    local output\n    output=$(command gww \"$@\")\n    local exit_code=$?\n    echo \"$output\"\n    if [ $exit_code -eq 0 ]; then\n        local cd_path\n        cd_path=$(echo \"$output\" | grep \"^";

/// The shell functions between the two patterns that look for the token.
pub const AUTOCD_MIDDLE: &'static str =
    "\" | cut -d: -f2-)\n        [ -n \"$cd_path\" ] && cd \"$cd_path\"\n    fi\n    return $exit_code\n}\n\n_gww_cd() {\n    local output\n    output=$(command gww checkout \"$@\")\n    local exit_code=$?\n    if [ $exit_code -ne 0 ]; then\n        echo \"$output\"\n        return $exit_code\n    fi\n    local cd_path\n    cd_path=$(echo \"$output\" | grep \"^";

/// The shell functions after the second pattern that looks for the token.
pub const AUTOCD_TAIL: &'static str =
    "\" | cut -d: -f2-)\n    [ -n \"$cd_path\" ] && cd \"$cd_path\"\n}\n";

/// The line that reports the worktree's path to the shell: the token, and
/// then the path.
pub fn cd_line(path: &str) -> (r: String)
    ensures
        r@ == CD_PREFIX@ + path@,
{
    let mut line = CD_PREFIX.to_owned();
    line.append(path);
    line
}

/// The shell functions `gww` and `_gww_cd`, which run the command and
/// change into the directory that the line with the token names. Both
/// look for the very token that `cd_line` writes.
pub fn autocd() -> (r: String)
    ensures
        r@ == AUTOCD_HEAD@ + CD_PREFIX@ + AUTOCD_MIDDLE@ + CD_PREFIX@ + AUTOCD_TAIL@,
{
    let mut script = AUTOCD_HEAD.to_owned();
    script.append(CD_PREFIX);
    script.append(AUTOCD_MIDDLE);
    script.append(CD_PREFIX);
    script.append(AUTOCD_TAIL);
    script
}

} // verus!
