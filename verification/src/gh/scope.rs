//! Token scope check for status writes: the scopes a `gh auth status` report
//! lists. Writing a card's Status field needs the `project` scope.
use vstd::prelude::*;
use crate::board::{first_where, lemma_first_where_found, lemma_first_where_none};
use crate::model::strs_view;
use crate::text::{chars_of, contains, contains_exec, line_at, split_char, split_on, strip_cr};

verus! {

/// The pieces at odd positions (the quoted tokens of a `'a', 'b'` list).
pub open spec fn odd_pieces(p: Seq<Seq<char>>) -> Seq<Seq<char>>
    decreases p.len(),
{
    if p.len() == 0 {
        Seq::empty()
    } else {
        let q = odd_pieces(p.drop_last());
        if (p.len() - 1) % 2 == 1 {
            q.push(p.last())
        } else {
            q
        }
    }
}

/// Line `k` of the text cut into `pieces` mentions the token scopes.
pub open spec fn scope_line(pieces: Seq<Seq<char>>) -> spec_fn(int) -> bool {
    |k: int| contains(line_at(pieces, k), "Token scopes"@)
}

/// The single-quoted tokens of the first line mentioning "Token scopes", or
/// none when no line does.
pub open spec fn scopes_spec(text: Seq<char>) -> Seq<Seq<char>> {
    let pieces = split_char(text, '\n');
    match first_where(pieces.len() as int, scope_line(pieces)) {
        Some(k) => odd_pieces(split_char(line_at(pieces, k), '\'')),
        None => Seq::empty(),
    }
}

/// The scope tokens from a `gh auth status` "Token scopes:" line.
pub fn scopes(text: &str) -> (r: Vec<String>)
    ensures
        strs_view(r@) == scopes_spec(text@),
{
    let cs = chars_of(text);
    let pieces = split_on(cs.as_slice(), '\n');
    let ghost pv = strs_view(pieces@);
    let ghost pred = scope_line(pv);
    let marker = chars_of("Token scopes");
    let mut k: usize = 0;
    while k < pieces.len()
        invariant
            k <= pieces@.len(),
            cs@ == text@,
            pv == strs_view(pieces@),
            pv == split_char(text@, '\n'),
            pred == scope_line(pv),
            marker@ == "Token scopes"@,
            forall|j: int| 0 <= j < k ==> !#[trigger] pred(j),
        decreases pieces.len() - k,
    {
        let pc = chars_of(pieces[k].as_str());
        assert(pv[k as int] == pieces@[k as int]@);
        let line: Vec<char> = if k + 1 < pieces.len() && pc.len() > 0 && pc[pc.len() - 1] == '\r' {
            let s = crate::text::string_of_range(pc.as_slice(), 0, pc.len() - 1);
            chars_of(s.as_str())
        } else {
            pc
        };
        assert(line@ == line_at(pv, k as int));
        if contains_exec(line.as_slice(), marker.as_slice()) {
            proof {
                lemma_first_where_found(pv.len() as int, k as int, pred);
            }
            let parts = split_on(line.as_slice(), '\'');
            let ghost qv = strs_view(parts@);
            let mut out: Vec<String> = Vec::new();
            let mut i: usize = 0;
            while i < parts.len()
                invariant
                    i <= parts@.len(),
                    qv == strs_view(parts@),
                    strs_view(out@) == odd_pieces(qv.take(i as int)),
                decreases parts.len() - i,
            {
                proof {
                    assert(qv.take(i + 1).drop_last() =~= qv.take(i as int));
                }
                if i % 2 == 1 {
                    let ghost before = strs_view(out@);
                    out.push(parts[i].clone());
                    assert(strs_view(out@) =~= before.push(qv[i as int]));
                }
                i += 1;
            }
            assert(qv.take(qv.len() as int) =~= qv);
            return out;
        }
        k += 1;
    }
    proof {
        lemma_first_where_none(pv.len() as int, pred);
    }
    Vec::new()
}

} // verus!
