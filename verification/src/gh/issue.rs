//! A single issue's detail, as shown in the detail pane.
use vstd::prelude::*;
use crate::board::last_where;
use crate::text::{
    char_at, chars_of, contains, contains_exec, last_piece_start, line_at, parse_uint, parse_uint_exec,
    split_char, split_on, string_of_range, to_owned_string, trim, trim_end_char, trim_string,
};

verus! {

/// A fetched issue: title, body, state, labels, url and comments.
#[derive(Debug)]
pub struct IssueDetail {
    pub title: String,
    pub body: String,
    /// "OPEN" / "CLOSED".
    pub state: String,
    pub labels: Vec<String>,
    pub url: String,
    pub comments: Vec<Comment>,
}

/// One comment on an issue.
#[derive(Debug)]
pub struct Comment {
    pub author: String,
    pub body: String,
}

impl Clone for Comment {
    fn clone(&self) -> (r: Self)
        ensures
            r == *self,
    {
        Comment { author: self.author.clone(), body: self.body.clone() }
    }
}

impl Clone for IssueDetail {
    fn clone(&self) -> (r: Self)
        ensures
            r.title == self.title,
            r.body == self.body,
            r.state == self.state,
            r.url == self.url,
            r.labels@ == self.labels@,
            r.comments@ == self.comments@,
    {
        let labels = crate::model::clone_strings(&self.labels);
        let mut comments: Vec<Comment> = Vec::new();
        let mut i: usize = 0;
        while i < self.comments.len()
            invariant
                i <= self.comments@.len(),
                comments@ == self.comments@.take(i as int),
            decreases self.comments.len() - i,
        {
            comments.push(self.comments[i].clone());
            assert(self.comments@.take(i + 1) =~= self.comments@.take(i as int).push(
                self.comments@[i as int],
            ));
            i += 1;
        }
        assert(self.comments@.take(self.comments@.len() as int) =~= self.comments@);
        IssueDetail {
            title: self.title.clone(),
            body: self.body.clone(),
            state: self.state.clone(),
            labels,
            url: self.url.clone(),
            comments,
        }
    }
}


/// A freshly-created issue: enough to add it to a board and report it back.
#[derive(Debug)]
pub struct CreatedIssue {
    pub url: String,
    pub number: u64,
}

/// The issue number an issue URL ends in: the last `/`-separated segment
/// (trailing slashes ignored), parsed as a `u64`.
pub open spec fn issue_number_spec(url: Seq<char>) -> Option<u64> {
    let t = trim_end_char(url, '/');
    let seg = t.subrange(last_piece_start(t, '/'), t.len() as int);
    match parse_uint(seg, u64::MAX as nat) {
        Some(v) => Some(v as u64),
        None => None,
    }
}

/// The trailing number in an issue URL (`…/issues/365` → `365`).
pub fn issue_number_from_url(url: &str) -> (r: Option<u64>)
    ensures
        r == issue_number_spec(url@),
{
    let cs = chars_of(url);
    assert(cs@.take(cs@.len() as int) =~= cs@);
    let mut k: usize = cs.len();
    while k > 0 && cs[k - 1] == '/'
        invariant
            k <= cs@.len(),
            cs@ == url@,
            trim_end_char(url@, '/') == trim_end_char(cs@.take(k as int), '/'),
        decreases k,
    {
        assert(cs@.take(k as int).drop_last() =~= cs@.take(k - 1));
        k -= 1;
    }
    assert(cs@.take(k as int) =~= cs@.take(k as int));
    let ghost t = cs@.take(k as int);
    assert(trim_end_char(url@, '/') == t) by {
        if k == cs@.len() {
            assert(cs@.take(k as int) =~= cs@);
        }
    }
    let ghost pred = char_at(t, '/');
    let mut j: usize = k;
    while j > 0 && cs[j - 1] != '/'
        invariant
            j <= k <= cs@.len(),
            t == cs@.take(k as int),
            pred == char_at(t, '/'),
            last_where(k as int, pred) == last_where(j as int, pred),
        decreases j,
    {
        assert(!pred(j - 1));
        j -= 1;
    }
    assert(j == last_piece_start(t, '/')) by {
        if j > 0 {
            assert(pred(j - 1));
        }
    }
    let seg_s = string_of_range(cs.as_slice(), j, k);
    let seg = chars_of(seg_s.as_str());
    assert(seg@ =~= t.subrange(j as int, t.len() as int));
    parse_uint_exec(seg.as_slice(), u64::MAX)
}

/// A comment's author: its login, or `ghost` for a deleted account.
pub fn author_or_ghost(login: String) -> (r: String)
    ensures
        r@ == if login@.len() == 0 {
            "ghost"@
        } else {
            login@
        },
{
    if login.as_str().is_empty() {
        to_owned_string("ghost")
    } else {
        login
    }
}


/// Why the output of `gh issue create` names no created issue.
#[derive(Debug, Clone, Copy, PartialEq, Eq, Structural)]
pub enum CreateError {
    /// No line of the output mentions `/issues/`.
    NoUrl,
    /// The URL line does not end in an issue number.
    NoNumber,
}

/// Line `k` of the output cut into `pieces` mentions `/issues/`.
pub open spec fn url_line(pieces: Seq<Seq<char>>) -> spec_fn(int) -> bool {
    |k: int| contains(line_at(pieces, k), "/issues/"@)
}

/// The trimmed last line of `text` that mentions `/issues/`, or empty when no
/// line does.
pub open spec fn created_url_spec(text: Seq<char>) -> Seq<char> {
    let pieces = split_char(text, '\n');
    match last_where(pieces.len() as int, url_line(pieces)) {
        Some(k) => trim(line_at(pieces, k)),
        None => Seq::empty(),
    }
}

/// The issue `gh issue create` reports: the URL it printed (the last line
/// mentioning `/issues/`, trimmed) and the number that URL ends in.
pub fn created_issue(output: &str) -> (r: Result<CreatedIssue, CreateError>)
    ensures
        match r {
            Ok(c) => {
                &&& c.url@ == created_url_spec(output@)
                &&& c.url@.len() > 0
                &&& issue_number_spec(c.url@) == Some(c.number)
            },
            Err(CreateError::NoUrl) => created_url_spec(output@).len() == 0,
            Err(CreateError::NoNumber) => {
                &&& created_url_spec(output@).len() > 0
                &&& issue_number_spec(created_url_spec(output@)) is None
            },
        },
{
    let cs = chars_of(output);
    let pieces = split_on(cs.as_slice(), '\n');
    let ghost pv = crate::model::strs_view(pieces@);
    let ghost pred = url_line(pv);
    let marker = chars_of("/issues/");
    let mut k: usize = pieces.len();
    while k > 0
        invariant
            k <= pieces@.len(),
            cs@ == output@,
            pv == crate::model::strs_view(pieces@),
            pv == split_char(output@, '\n'),
            pred == url_line(pv),
            marker@ == "/issues/"@,
            last_where(pv.len() as int, pred) == last_where(k as int, pred),
        decreases k,
    {
        let i = k - 1;
        let pc = chars_of(pieces[i].as_str());
        assert(pv[i as int] == pieces@[i as int]@);
        let line: Vec<char> = if i + 1 < pieces.len() && pc.len() > 0 && pc[pc.len() - 1] == '\r' {
            let s = string_of_range(pc.as_slice(), 0, pc.len() - 1);
            chars_of(s.as_str())
        } else {
            pc
        };
        assert(line@ == line_at(pv, i as int));
        if contains_exec(line.as_slice(), marker.as_slice()) {
            assert(pred(i as int));
            let ls = string_of_range(line.as_slice(), 0, line.len());
            assert(line@.subrange(0, line@.len() as int) =~= line@);
            let url = trim_string(ls.as_str());
            if url.as_str().is_empty() {
                return Err(CreateError::NoUrl);
            }
            return match issue_number_from_url(url.as_str()) {
                Some(number) => Ok(CreatedIssue { url, number }),
                None => Err(CreateError::NoNumber),
            };
        }
        k = i;
    }
    Err(CreateError::NoUrl)
}

} // verus!
