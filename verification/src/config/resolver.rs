//! Map the current repo to a configured project. In order, stop at first hit:
//!   1. an explicit per-folder override (repo root path, else the cwd → name);
//!   2. a git-remote match (`origin` normalised to `owner/repo` → a project's
//!      `repos`);
//!   3. unknown → the caller runs the first-run wizard.
use vstd::prelude::*;
use crate::board::{first_where, lemma_first_where_found, lemma_first_where_none};
use crate::config::schema::{ProjectConfig, ProjectView, any_eq_ic, any_ic, opt_str};
use crate::config::{Config, project_pos, projects_view};
use crate::model::{opt_view, strs_view};
use crate::text::{
    is_ws, lead_ws, lemma_split_char_after, lemma_split_char_free, trail_ws, chars_of, occurs_at, occurs_at_exec, push_char, split_char, split_on, str_eq, string_of_range, trim,
    trim_bounds,
};

verus! {

/// Outcome of resolving the current repo against the config.
pub enum Resolution {
    /// A configured project matched — open its board directly.
    Project(Box<ProjectConfig>),
    /// No match. `repo` is the normalised `owner/name` if this is a GitHub
    /// repo, else `None`.
    Unknown { repo: Option<String> },
}

/// `github.com`, as characters.
pub open spec fn github_host() -> Seq<char> {
    seq!['g', 'i', 't', 'h', 'u', 'b', '.', 'c', 'o', 'm']
}

/// Index `i` of `s` is neither `:` nor `/`.
pub open spec fn not_sep(s: Seq<char>) -> spec_fn(int) -> bool {
    |i: int| s[i] != ':' && s[i] != '/'
}

/// `s` without its leading `:` and `/` characters.
pub open spec fn skip_seps(s: Seq<char>) -> Seq<char> {
    match first_where(s.len() as int, not_sep(s)) {
        Some(i) => s.subrange(i, s.len() as int),
        None => Seq::empty(),
    }
}

/// The non-empty pieces, in order.
pub open spec fn nonempty_pieces(p: Seq<Seq<char>>) -> Seq<Seq<char>>
    decreases p.len(),
{
    if p.len() == 0 {
        Seq::empty()
    } else {
        let q = nonempty_pieces(p.drop_last());
        if p.last().len() > 0 {
            q.push(p.last())
        } else {
            q
        }
    }
}

/// `r` without one trailing `.git`.
pub open spec fn strip_git(r: Seq<char>) -> Seq<char> {
    if r.len() >= 4 && r.subrange(r.len() - 4, r.len() as int) == seq!['.', 'g', 'i', 't'] {
        r.subrange(0, r.len() - 4)
    } else {
        r
    }
}

/// A GitHub host starts at index `i` of `u`: `github.com` stands there as the
/// whole host name, preceded by the start of the URL, a `user@` or a
/// `scheme://`, and followed by `:` (scp-style) or `/` (a URL path or port).
pub open spec fn host_at(u: Seq<char>) -> spec_fn(int) -> bool {
    |i: int|
        occurs_at(u, github_host(), i) && (i == 0 || u[i - 1] == '@' || (i >= 2 && u[i - 2] == '/'
            && u[i - 1] == '/')) && i + 10 < u.len() && (u[i + 10] == ':' || u[i + 10] == '/')
}

/// The `owner/repo` a GitHub remote URL names: the URL (trimmed) must have
/// `github.com` as its host; after the host, skip `:`/`/` separators, take the
/// first two non-empty `/` segments and drop a `.git` suffix from the second.
/// `None` when the host is not `github.com`, there are fewer than two
/// segments, or the repo name is empty.
pub open spec fn normalize_spec(url: Seq<char>) -> Option<Seq<char>> {
    let u = trim(url);
    match first_where(u.len() as int, host_at(u)) {
        None => None,
        Some(idx) => {
            let rest = skip_seps(u.subrange(idx + 10, u.len() as int));
            let segs = nonempty_pieces(split_char(rest, '/'));
            if segs.len() < 2 {
                None
            } else {
                let owner = segs[0];
                let repo = strip_git(segs[1]);
                if owner.len() == 0 || repo.len() == 0 {
                    None
                } else {
                    Some(owner + seq!['/'] + repo)
                }
            }
        },
    }
}

/// `r` without one trailing `.git`.
fn strip_git_exec(r: &str) -> (out: String)
    ensures
        out@ == strip_git(r@),
{
    let rc = chars_of(r);
    let n = rc.len();
    if n >= 4 && rc[n - 4] == '.' && rc[n - 3] == 'g' && rc[n - 2] == 'i' && rc[n - 1] == 't' {
        assert(rc@.subrange(n - 4, n as int) =~= seq!['.', 'g', 'i', 't']);
        string_of_range(rc.as_slice(), 0, n - 4)
    } else {
        proof {
            if n >= 4 && rc@.subrange(n - 4, n as int) == seq!['.', 'g', 'i', 't'] {
                assert(rc@[n - 4] == rc@.subrange(n - 4, n as int)[0]);
                assert(rc@[n - 3] == rc@.subrange(n - 4, n as int)[1]);
                assert(rc@[n - 2] == rc@.subrange(n - 4, n as int)[2]);
                assert(rc@[n - 1] == rc@.subrange(n - 4, n as int)[3]);
            }
        }
        let out = string_of_range(rc.as_slice(), 0, n);
        assert(rc@.subrange(0, n as int) =~= rc@);
        out
    }
}

/// Normalise a git remote URL to `owner/repo`, or `None` if it isn't a
/// recognisable GitHub remote. Handles scp-style, https, and ssh:// forms.
pub fn normalize_remote(url: &str) -> (r: Option<String>)
    ensures
        opt_view(r) == normalize_spec(url@),
{
    let cs = chars_of(url);
    let (a, b) = trim_bounds(cs.as_slice());
    let ts = string_of_range(cs.as_slice(), a, b);
    let u = chars_of(ts.as_str());
    let host = chars_of("github.com");
    proof {
        reveal_strlit("github.com");
        assert(host@ =~= github_host());
    }
    let ghost hp = host_at(u@);
    let mut idx: usize = 0;
    while idx < u.len()
        invariant
            idx <= u@.len(),
            host@ == github_host(),
            hp == host_at(u@),
            forall|j: int| 0 <= j < idx ==> !#[trigger] hp(j),
        ensures
            idx == u@.len() || hp(idx as int),
        decreases u.len() - idx,
    {
        let i = idx;
        if occurs_at_exec(u.as_slice(), host.as_slice(), i) && (i == 0 || u[i - 1] == '@' || (i >= 2
            && u[i - 2] == '/' && u[i - 1] == '/')) && i + 10 < u.len() && (u[i + 10] == ':' || u[i
            + 10] == '/') {
            break;
        }
        idx += 1;
    }
    if idx == u.len() {
        proof {
            lemma_first_where_none(u@.len() as int, hp);
        }
        return None;
    }
    proof {
        lemma_first_where_found(u@.len() as int, idx as int, hp);
    }
    let start = idx + host.len();
    let ghost after = u@.subrange(start as int, u@.len() as int);
    let ghost pred = not_sep(after);
    let mut k: usize = start;
    while k < u.len() && (u[k] == ':' || u[k] == '/')
        invariant
            start <= k <= u@.len(),
            after == u@.subrange(start as int, u@.len() as int),
            pred == not_sep(after),
            forall|j: int| 0 <= j < k - start ==> !#[trigger] pred(j),
        decreases u.len() - k,
    {
        assert(after[k - start] == u@[k as int]);
        k += 1;
    }
    proof {
        if k < u@.len() {
            assert(after[k - start] == u@[k as int]);
            lemma_first_where_found(after.len() as int, k - start, pred);
        } else {
            lemma_first_where_none(after.len() as int, pred);
        }
    }
    let rest = string_of_range(u.as_slice(), k, u.len());
    let rc = chars_of(rest.as_str());
    assert(rc@ =~= skip_seps(after));
    let pieces = split_on(rc.as_slice(), '/');
    let ghost pv = strs_view(pieces@);
    let mut segs: Vec<String> = Vec::new();
    let mut i: usize = 0;
    while i < pieces.len()
        invariant
            i <= pieces@.len(),
            pv == strs_view(pieces@),
            strs_view(segs@) == nonempty_pieces(pv.take(i as int)),
        decreases pieces.len() - i,
    {
        proof {
            assert(pv.take(i + 1).drop_last() =~= pv.take(i as int));
            assert(pv[i as int] == pieces@[i as int]@);
        }
        if !pieces[i].as_str().is_empty() {
            let ghost before = strs_view(segs@);
            segs.push(pieces[i].clone());
            assert(strs_view(segs@) =~= before.push(pv[i as int]));
        }
        i += 1;
    }
    assert(pv.take(pv.len() as int) =~= pv);
    if segs.len() < 2 {
        return None;
    }
    let ghost sv = strs_view(segs@);
    assert(sv[0] == segs@[0]@ && sv[1] == segs@[1]@);
    let repo = strip_git_exec(segs[1].as_str());
    if segs[0].as_str().is_empty() || repo.as_str().is_empty() {
        return None;
    }
    let mut out = segs[0].clone();
    push_char(&mut out, '/');
    out.append(repo.as_str());
    assert(out@ =~= sv[0] + seq!['/'] + repo@);
    Some(out)
}

/// The repo an `origin` URL names, if any.
pub open spec fn repo_of(origin: Option<Seq<char>>) -> Option<Seq<char>> {
    match origin {
        Some(o) => normalize_spec(o),
        None => None,
    }
}

/// Override `j` is keyed by `path`.
pub open spec fn override_at(ov: Seq<(String, String)>, path: Seq<char>) -> spec_fn(int) -> bool {
    |j: int| ov[j].0@ == path
}

/// The project an override for `path` points at, when there is one and that
/// project exists.
pub open spec fn override_target(cfg: Config, path: Option<Seq<char>>) -> Option<int> {
    match path {
        None => None,
        Some(p) => match first_where(cfg.overrides@.len() as int, override_at(cfg.overrides@, p)) {
            Some(j) => project_pos(projects_view(cfg.projects@), cfg.overrides@[j].1@),
            None => None,
        },
    }
}

/// Project `j` lists `repo`, ignoring ASCII case.
pub open spec fn lists_repo(ps: Seq<ProjectView>, repo: Seq<char>) -> spec_fn(int) -> bool {
    |j: int| any_ic(ps[j].repos, repo)
}

/// The project the repo resolves to: an override on the root, else on the
/// cwd, else the first project listing the origin's `owner/repo`.
pub open spec fn resolved(
    cfg: Config,
    root: Option<Seq<char>>,
    cwd: Option<Seq<char>>,
    origin: Option<Seq<char>>,
) -> Option<int> {
    match override_target(cfg, root) {
        Some(j) => Some(j),
        None => match override_target(cfg, cwd) {
            Some(j) => Some(j),
            None => match repo_of(origin) {
                Some(repo) => first_where(
                    cfg.projects@.len() as int,
                    lists_repo(projects_view(cfg.projects@), repo),
                ),
                None => None,
            },
        },
    }
}

/// The project an override for `path` points at.
fn override_lookup(config: &Config, path: Option<&str>) -> (r: Option<usize>)
    ensures
        match r {
            Some(j) => override_target(*config, opt_str(path)) == Some(j as int)
                && j < config.projects@.len(),
            None => override_target(*config, opt_str(path)) is None,
        },
{
    let p = match path {
        Some(p) => p,
        None => return None,
    };
    let ghost pred = override_at(config.overrides@, p@);
    let mut j: usize = 0;
    while j < config.overrides.len()
        invariant
            j <= config.overrides@.len(),
            path == Some(p),
            pred == override_at(config.overrides@, p@),
            forall|x: int| 0 <= x < j ==> !#[trigger] pred(x),
        decreases config.overrides.len() - j,
    {
        if str_eq(config.overrides[j].0.as_str(), p) {
            proof {
                lemma_first_where_found(config.overrides@.len() as int, j as int, pred);
            }
            return config.project_index(config.overrides[j].1.as_str());
        }
        j += 1;
    }
    proof {
        lemma_first_where_none(config.overrides@.len() as int, pred);
    }
    None
}

/// Resolve the repo at `root` (its top-level directory, when inside a git
/// repo) or `cwd`, whose `origin` remote URL is `origin`, to a project, or
/// report it unknown.
pub fn resolve(config: &Config, root: Option<&str>, cwd: Option<&str>, origin: Option<&str>) -> (r: Resolution)
    ensures
        match r {
            Resolution::Project(p) => resolved(*config, opt_str(root), opt_str(cwd), opt_str(origin)) matches Some(
                j,
            ) && p@ == config.projects@[j]@,
            Resolution::Unknown { repo } => resolved(
                *config,
                opt_str(root),
                opt_str(cwd),
                opt_str(origin),
            ) is None && opt_view(repo) == repo_of(opt_str(origin)),
        },
{
    if let Some(j) = override_lookup(config, root) {
        return Resolution::Project(Box::new(config.projects[j].clone()));
    }
    if let Some(j) = override_lookup(config, cwd) {
        return Resolution::Project(Box::new(config.projects[j].clone()));
    }
    let repo = repo_at(origin);
    if let Some(rp) = &repo {
        let ghost pv = projects_view(config.projects@);
        let ghost pred = lists_repo(pv, rp@);
        let mut j: usize = 0;
        while j < config.projects.len()
            invariant
                j <= config.projects@.len(),
                pv == projects_view(config.projects@),
                pred == lists_repo(pv, rp@),
                override_target(*config, opt_str(root)) is None,
                override_target(*config, opt_str(cwd)) is None,
                repo_of(opt_str(origin)) == Some(rp@),
                forall|x: int| 0 <= x < j ==> !#[trigger] pred(x),
            decreases config.projects.len() - j,
        {
            assert(pv[j as int] == config.projects@[j as int]@);
            if any_eq_ic(&config.projects[j].repos, rp.as_str()) {
                proof {
                    lemma_first_where_found(config.projects@.len() as int, j as int, pred);
                }
                return Resolution::Project(Box::new(config.projects[j].clone()));
            }
            j += 1;
        }
        proof {
            lemma_first_where_none(config.projects@.len() as int, pred);
        }
    }
    Resolution::Unknown { repo }
}

/// The normalised `owner/repo` an `origin` remote URL names, or `None` if
/// there is no origin or it isn't a GitHub remote.
pub fn repo_at(origin: Option<&str>) -> (r: Option<String>)
    ensures
        opt_view(r) == repo_of(opt_str(origin)),
{
    match origin {
        Some(o) => normalize_remote(o),
        None => None,
    }
}

/// `https://github.com/`.
pub open spec fn https_github() -> Seq<char> {
    seq!['h', 't', 't', 'p', 's', ':', '/', '/'] + github_host() + seq!['/']
}

/// `.git`.
pub open spec fn dot_git() -> Seq<char> {
    seq!['.', 'g', 'i', 't']
}

/// A path segment as owners and repo names are written: non-empty, with no
/// `/`, no `:` and no whitespace.
pub open spec fn plain_segment(s: Seq<char>) -> bool {
    &&& s.len() > 0
    &&& forall|i: int| 0 <= i < s.len() ==> s[i] != '/' && s[i] != ':' && !is_ws(#[trigger] s[i])
}

/// An https GitHub remote names `owner/repo` exactly: one trailing `.git` is
/// removed and every other character of the repo name, dots included, is kept;
/// without a `.git` suffix the repo name is kept whole.
pub proof fn law_https_remote_names_owner_repo(owner: Seq<char>, repo: Seq<char>)
    requires
        plain_segment(owner),
        plain_segment(repo),
    ensures
        normalize_spec(https_github() + owner + seq!['/'] + repo + dot_git()) == Some(
            owner + seq!['/'] + repo,
        ),
        !(repo.len() >= 4 && repo.subrange(repo.len() - 4, repo.len() as int) == dot_git())
            ==> normalize_spec(https_github() + owner + seq!['/'] + repo) == Some(
            owner + seq!['/'] + repo,
        ),
{
    let tail = repo + dot_git();
    assert(plain_segment(tail)) by {
        assert forall|i: int| 0 <= i < tail.len() implies tail[i] != '/' && tail[i] != ':'
            && !is_ws(#[trigger] tail[i]) by {
            if i >= repo.len() {
                assert(tail[i] == dot_git()[i - repo.len()]);
            } else {
                assert(tail[i] == repo[i]);
            }
        }
    }
    assert(tail.subrange(tail.len() - 4, tail.len() as int) =~= dot_git());
    assert(tail.subrange(0, tail.len() - 4) =~= repo);
    assert(strip_git(tail) == repo);
    lemma_remote_of(owner, tail);
    assert(https_github() + owner + seq!['/'] + repo + dot_git() =~= https_url(owner, tail));
    if !(repo.len() >= 4 && repo.subrange(repo.len() - 4, repo.len() as int) == dot_git()) {
        assert(strip_git(repo) == repo);
        lemma_remote_of(owner, repo);
    }
}

/// `https://github.com/<owner>/<tail>`.
pub open spec fn https_url(owner: Seq<char>, tail: Seq<char>) -> Seq<char> {
    https_github() + owner + seq!['/'] + tail
}

/// Such a URL has nothing to trim.
proof fn lemma_url_trimmed(owner: Seq<char>, tail: Seq<char>)
    requires
        plain_segment(owner),
        plain_segment(tail),
    ensures
        trim(https_url(owner, tail)) == https_url(owner, tail),
{
    let u = https_url(owner, tail);
    assert(u[0] == 'h');
    assert(lead_ws(u) == 0);
    assert(u.last() == tail[tail.len() - 1]);
    assert(trail_ws(u) == 0);
    assert(u.skip(0).take(u.len() as int) =~= u);
}

/// Its host starts at index 8 and no earlier.
proof fn lemma_url_host(owner: Seq<char>, tail: Seq<char>)
    ensures
        first_where(https_url(owner, tail).len() as int, host_at(https_url(owner, tail))) == Some(8int),
{
    let p = https_github();
    let u = https_url(owner, tail);
    let hp = host_at(u);
    assert(u.subrange(8, 18) =~= github_host());
    assert(u[6] == '/' && u[7] == '/' && u[18] == '/');
    assert(hp(8));
    assert(u[0] == 'h' && u[1] == 't' && u[2] == 't' && u[3] == 'p');
    assert(u[4] == 's' && u[5] == ':' && u[6] == '/' && u[7] == '/');
    assert forall|j: int| 0 <= j < 8 implies !#[trigger] hp(j) by {
        if occurs_at(u, github_host(), j) {
            assert(u.subrange(j, j + 10)[0] == u[j]);
            assert(u[j] == 'g');
            assert(j == 0 || j == 1 || j == 2 || j == 3 || j == 4 || j == 5 || j == 6 || j == 7);
        }
    }
    crate::board::lemma_first_where_found(u.len() as int, 8, hp);
}

/// After the host and its `/`: `owner/tail`.
proof fn lemma_url_rest(owner: Seq<char>, tail: Seq<char>)
    requires
        plain_segment(owner),
        plain_segment(tail),
    ensures
        skip_seps(https_url(owner, tail).subrange(18, https_url(owner, tail).len() as int)) == owner
            + seq!['/'] + tail,
{
    let u = https_url(owner, tail);
    let after = u.subrange(18, u.len() as int);
    let rest = owner + seq!['/'] + tail;
    assert(after =~= seq!['/'] + rest);
    assert(after[1] == owner[0]);
    assert(!not_sep(after)(0));
    assert(not_sep(after)(1));
    crate::board::lemma_first_where_found(after.len() as int, 1, not_sep(after));
    assert(after.subrange(1, after.len() as int) =~= rest);
}

/// The non-empty `/`-pieces of `owner/tail` are the owner and the tail.
proof fn lemma_rest_pieces(owner: Seq<char>, tail: Seq<char>)
    requires
        plain_segment(owner),
        plain_segment(tail),
    ensures
        nonempty_pieces(split_char(owner + seq!['/'] + tail, '/')) == seq![owner, tail],
{
    lemma_split_char_free(owner, '/');
    lemma_split_char_after(owner, tail, '/');
    let pieces = seq![owner, tail];
    assert(split_char(owner + seq!['/'] + tail, '/') =~= pieces);
    assert(pieces.drop_last() =~= seq![owner]);
    assert(seq![owner].drop_last() =~= Seq::<Seq<char>>::empty());
    assert(seq![owner].last() == owner);
    assert(nonempty_pieces(Seq::<Seq<char>>::empty()) == Seq::<Seq<char>>::empty());
    assert(owner.len() > 0);
    assert(nonempty_pieces(seq![owner]) =~= seq![owner]);
    assert(pieces.last() == tail);
    assert(tail.len() > 0);
    assert(nonempty_pieces(pieces) =~= pieces);
}

/// `normalize_spec` of `https://github.com/<owner>/<tail>`: `owner` and the
/// tail with one `.git` stripped.
proof fn lemma_remote_of(owner: Seq<char>, tail: Seq<char>)
    requires
        plain_segment(owner),
        plain_segment(tail),
        strip_git(tail).len() > 0,
    ensures
        normalize_spec(https_url(owner, tail)) == Some(owner + seq!['/'] + strip_git(tail)),
{
    lemma_url_trimmed(owner, tail);
    lemma_url_host(owner, tail);
    lemma_url_rest(owner, tail);
    lemma_rest_pieces(owner, tail);
}

} // verus!
