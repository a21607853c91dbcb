//! Worktrees for the parallel "start in a worktree" flow: each ticket gets a
//! branch named after the issue, checked out in a sibling `worktrees/` dir.
use vstd::prelude::*;
use crate::text::{chars_of, decimal, push_char, push_decimal, to_owned_string};

verus! {

/// Branch (and tmux session) name for an issue's worktree, e.g. `issue-123`.
pub fn branch_for(issue: u64) -> (r: String)
    ensures
        r@ == "issue-"@ + decimal(issue as nat),
{
    let mut s = to_owned_string("issue-");
    push_decimal(&mut s, issue);
    s
}

/// What `Path::parent` gives for the path `p`, as text.
pub uninterp spec fn path_parent(p: Seq<char>) -> Option<Seq<char>>;

/// `a` joined with `b` as `Path::join` does it on Unix: an absolute `b`
/// replaces `a`; otherwise `b` is appended, after a `/` unless `a` is empty or
/// already ends in one.
pub open spec fn path_join(a: Seq<char>, b: Seq<char>) -> Seq<char> {
    if b.len() > 0 && b[0] == '/' {
        b
    } else if a.len() > 0 && a.last() != '/' {
        a + seq!['/'] + b
    } else {
        a + b
    }
}

/// `Path::parent` on `p`: the path without its final component. The result
/// is `path_parent(p)`; per the documentation it is `None` for an empty path
/// and for one that ends in a root (such as `/`).
#[verifier::external_body]
fn parent_dir(p: &str) -> (r: Option<String>)
    ensures
        match r {
            Some(q) => path_parent(p@) == Some(q@),
            None => path_parent(p@) is None,
        },
        (p@.len() == 0 || p@ == seq!['/']) ==> r is None,
{
    std::path::Path::new(p).parent().map(|q| q.to_string_lossy().into_owned())
}

/// `a` joined with `b`, as `Path::join` joins on Unix.
fn join_path(a: &str, b: &str) -> (r: String)
    ensures
        r@ == path_join(a@, b@),
{
    let bc = chars_of(b);
    if bc.len() > 0 && bc[0] == '/' {
        return to_owned_string(b);
    }
    let ac = chars_of(a);
    let mut out = to_owned_string(a);
    if ac.len() > 0 && ac[ac.len() - 1] != '/' {
        push_char(&mut out, '/');
    }
    out.append(b);
    out
}

/// Where an issue's worktree lives: `<parent of repo_root>/worktrees/<branch>`,
/// the path joins done as `Path::join` does them.
pub open spec fn worktree_path_spec(repo_root: Seq<char>, branch: Seq<char>) -> Option<Seq<char>> {
    match path_parent(repo_root) {
        Some(p) => Some(path_join(path_join(p, "worktrees"@), branch)),
        None => None,
    }
}

/// Where an issue's worktree lives: `<parent of repo_root>/worktrees/<branch>`.
/// `None` if the repo root has no parent (an empty path or the filesystem root).
pub fn worktree_path(repo_root: &str, branch: &str) -> (r: Option<String>)
    ensures
        match r {
            Some(q) => worktree_path_spec(repo_root@, branch@) == Some(q@),
            None => worktree_path_spec(repo_root@, branch@) is None,
        },
        (repo_root@.len() == 0 || repo_root@ == seq!['/']) ==> r is None,
{
    let parent = match parent_dir(repo_root) {
        Some(p) => p,
        None => return None,
    };
    let dir = join_path(parent.as_str(), "worktrees");
    Some(join_path(dir.as_str(), branch))
}

} // verus!
