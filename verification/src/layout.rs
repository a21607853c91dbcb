//! Text layout for the terminal panes: display-width truncation, greedy word
//! wrapping with hard splits of overlong words, and the row height of an
//! inline image. Column widths come from `unicode-width`.
use vstd::prelude::*;
use crate::board::{first_where, lemma_first_where_found, lemma_first_where_none};
use crate::model::strs_view;
use crate::text::{chars_of, push_char, split_char, split_on, string_of, string_of_range};

verus! {

/// `UnicodeWidthChar::width`: a character's display width in columns, `None`
/// for a control character.
pub uninterp spec fn char_width(c: char) -> Option<usize>;

/// `UnicodeWidthStr::width`: a string's display width in columns.
pub uninterp spec fn str_width(s: Seq<char>) -> usize;

/// `unicode_width::UnicodeWidthChar::width`; the result is `char_width(c)`.
#[verifier::external_body]
fn width_of_char(c: char) -> (r: Option<usize>)
    ensures
        r == char_width(c),
{
    unicode_width::UnicodeWidthChar::width(c)
}

/// `unicode_width::UnicodeWidthStr::width`; the result is `str_width(s)`.
#[verifier::external_body]
fn width_of_str(s: &str) -> (r: usize)
    ensures
        r == str_width(s@),
{
    unicode_width::UnicodeWidthStr::width(s)
}

/// A character's width in a run, control characters counting 0.
pub open spec fn cw(c: char) -> int {
    match char_width(c) {
        Some(w) => w as int,
        None => 0,
    }
}

/// The sum of the characters' widths.
pub open spec fn sum_width(s: Seq<char>) -> int
    decreases s.len(),
{
    if s.len() == 0 {
        0
    } else {
        sum_width(s.drop_last()) + cw(s.last())
    }
}

/// Keeping the first `i + 1` characters would exceed `budget` columns.
pub open spec fn overflows_at(s: Seq<char>, budget: int) -> spec_fn(int) -> bool {
    |i: int| sum_width(s.take(i + 1)) > budget
}

/// How many leading characters fit in `budget` columns.
pub open spec fn fit_len(s: Seq<char>, budget: int) -> int {
    match first_where(s.len() as int, overflows_at(s, budget)) {
        Some(i) => i,
        None => s.len() as int,
    }
}

/// `s` cut to at most `max` columns with `…` appended when clipped, and the
/// width of the result.
pub open spec fn truncate_spec(s: Seq<char>, max: int) -> (Seq<char>, int) {
    if str_width(s) <= max {
        (s, str_width(s) as int)
    } else if max == 0 {
        (Seq::empty(), 0)
    } else {
        let n = fit_len(s, max - 1);
        (s.take(n).push('…'), sum_width(s.take(n)) + 1)
    }
}

/// A character's width in a run (control characters count 0).
fn run_width(c: char) -> (r: usize)
    ensures
        r == cw(c),
{
    match width_of_char(c) {
        Some(w) => w,
        None => 0,
    }
}

/// Truncate `s` to at most `max` display columns, appending `…` when clipped.
/// Returns the (possibly shortened) string and its display width.
pub fn truncate(s: &str, max: usize) -> (r: (String, usize))
    ensures
        r.0@ == truncate_spec(s@, max as int).0,
        r.1 == truncate_spec(s@, max as int).1,
{
    let w = width_of_str(s);
    if w <= max {
        return (string_of(chars_of(s).as_slice()), w);
    }
    if max == 0 {
        return (String::new(), 0);
    }
    let budget = max - 1;
    let cs = chars_of(s);
    let ghost pred = overflows_at(s@, budget as int);
    let mut acc: usize = 0;
    let mut i: usize = 0;
    while i < cs.len()
        invariant
            i <= cs@.len(),
            cs@ == s@,
            acc <= budget,
            acc == sum_width(cs@.take(i as int)),
            pred == overflows_at(s@, budget as int),
            forall|j: int| 0 <= j < i ==> !#[trigger] pred(j),
        ensures
            acc == sum_width(cs@.take(i as int)),
            i == cs@.len() || pred(i as int),
        decreases cs.len() - i,
    {
        assert(cs@.take(i + 1).drop_last() =~= cs@.take(i as int));
        let c = run_width(cs[i]);
        if c > budget - acc {
            break;
        }
        acc = acc + c;
        i += 1;
    }
    proof {
        if i < cs@.len() {
            lemma_first_where_found(cs@.len() as int, i as int, pred);
        } else {
            lemma_first_where_none(cs@.len() as int, pred);
        }
    }
    let mut out = string_of_range(cs.as_slice(), 0, i);
    push_char(&mut out, '…');
    assert(out@ =~= s@.take(i as int).push('…'));
    (out, acc + 1)
}

/// The chunks, the pending chunk and its width after splitting `s` into runs
/// of at most `w` columns (a single wider character still takes a run).
pub open spec fn split_state(s: Seq<char>, w: int) -> (Seq<Seq<char>>, Seq<char>, int)
    decreases s.len(),
{
    if s.len() == 0 {
        (Seq::empty(), Seq::empty(), 0)
    } else {
        let p = split_state(s.drop_last(), w);
        let c = s.last();
        if p.2 + cw(c) > w && p.1.len() > 0 {
            (p.0.push(p.1), seq![c], cw(c))
        } else {
            (p.0, p.1.push(c), p.2 + cw(c))
        }
    }
}

/// A word broken into runs of at most `w` columns.
pub open spec fn hard_split_spec(s: Seq<char>, w: int) -> Seq<Seq<char>> {
    let p = split_state(s, w);
    if p.1.len() > 0 {
        p.0.push(p.1)
    } else {
        p.0
    }
}

/// Break a word longer than `w` columns into `w`-wide chunks.
pub fn hard_split(word: &str, w: usize) -> (r: Vec<String>)
    ensures
        strs_view(r@) == hard_split_spec(word@, w as int),
{
    let cs = chars_of(word);
    let mut chunks: Vec<String> = Vec::new();
    let mut cur = String::new();
    let mut cur_w: usize = 0;
    let mut i: usize = 0;
    while i < cs.len()
        invariant
            i <= cs@.len(),
            cs@ == word@,
            (strs_view(chunks@), cur@, cur_w as int) == split_state(cs@.take(i as int), w as int),
            cur@.len() == 0 ==> cur_w == 0,
            cur@.len() > 0 ==> cur_w <= w || cur@.len() == 1,
        decreases cs.len() - i,
    {
        assert(cs@.take(i + 1).drop_last() =~= cs@.take(i as int));
        let c = cs[i];
        let cwc = run_width(c);
        let nonempty = !cur.as_str().is_empty();
        let over = nonempty && (cur_w > w || cwc > w - cur_w);
        if over {
            let ghost before = strs_view(chunks@);
            chunks.push(cur);
            assert(strs_view(chunks@) =~= before.push(split_state(cs@.take(i as int), w as int).1));
            cur = String::new();
            push_char(&mut cur, c);
            assert(cur@ =~= seq![c]);
            cur_w = cwc;
        } else {
            push_char(&mut cur, c);
            cur_w = cur_w + cwc;
        }
        i += 1;
    }
    assert(cs@.take(cs@.len() as int) =~= cs@);
    if !cur.as_str().is_empty() {
        let ghost before = strs_view(chunks@);
        chunks.push(cur);
        assert(strs_view(chunks@) =~= before.push(split_state(word@, w as int).1));
    }
    chunks
}

/// The lines, the pending line and its width after greedily wrapping `words`
/// to `w` columns: empty words (runs of spaces) add one space while there is
/// room; a word that doesn't fit moves to a new line; a word wider than a
/// line is hard-split onto lines of its own.
pub open spec fn wrap_state(words: Seq<Seq<char>>, w: int) -> (Seq<Seq<char>>, Seq<char>, int)
    decreases words.len(),
{
    if words.len() == 0 {
        (Seq::empty(), Seq::empty(), 0)
    } else {
        let p = wrap_state(words.drop_last(), w);
        let lines = p.0;
        let cur = p.1;
        let cur_w = p.2;
        let word = words.last();
        if word.len() == 0 {
            if cur_w < w {
                (lines, cur.push(' '), cur_w + 1)
            } else {
                (lines, cur, cur_w)
            }
        } else {
            let ww = str_width(word) as int;
            let need = if cur.len() == 0 {
                ww
            } else {
                ww + 1
            };
            let flush = cur_w + need > w && cur.len() > 0;
            let l1 = if flush {
                lines.push(cur)
            } else {
                lines
            };
            let c1 = if flush {
                Seq::empty()
            } else {
                cur
            };
            let w1 = if flush {
                0
            } else {
                cur_w
            };
            if ww > w {
                let l2 = if c1.len() > 0 {
                    l1.push(c1)
                } else {
                    l1
                };
                (l2 + hard_split_spec(word, w), Seq::empty(), 0)
            } else if c1.len() > 0 {
                (l1, c1.push(' ') + word, w1 + 1 + ww)
            } else {
                (l1, c1 + word, w1 + ww)
            }
        }
    }
}

/// One source line wrapped to `width` columns (at least 1); an empty input
/// still yields one (blank) line.
pub open spec fn wrap_spec(text: Seq<char>, width: int) -> Seq<Seq<char>> {
    let w = if width < 1 {
        1
    } else {
        width
    };
    let p = wrap_state(split_char(text, ' '), w);
    if p.1.len() > 0 || p.0.len() == 0 {
        p.0.push(p.1)
    } else {
        p.0
    }
}

/// Greedy word-wrap of one source line (no embedded newlines) to `width`
/// columns.
pub fn wrap(text: &str, width: u16) -> (r: Vec<String>)
    ensures
        strs_view(r@) == wrap_spec(text@, width as int),
{
    let w: usize = if width < 1 {
        1
    } else {
        width as usize
    };
    let cs = chars_of(text);
    let words = split_on(cs.as_slice(), ' ');
    let ghost wv = strs_view(words@);
    let mut lines: Vec<String> = Vec::new();
    let mut cur = String::new();
    let mut cur_w: usize = 0;
    let mut k: usize = 0;
    while k < words.len()
        invariant
            k <= words@.len(),
            w >= 1,
            wv == strs_view(words@),
            wv == split_char(text@, ' '),
            (strs_view(lines@), cur@, cur_w as int) == wrap_state(wv.take(k as int), w as int),
            cur_w <= w,
            cur@.len() == 0 ==> cur_w == 0,
        decreases words.len() - k,
    {
        assert(wv.take(k + 1).drop_last() =~= wv.take(k as int));
        assert(wv[k as int] == words@[k as int]@);
        let word = words[k].as_str();
        if word.is_empty() {
            if cur_w < w {
                push_char(&mut cur, ' ');
                cur_w = cur_w + 1;
            }
        } else {
            let ww = width_of_str(word);
            let nonempty = !cur.as_str().is_empty();
            let too_wide = if nonempty {
                ww >= w - cur_w
            } else {
                ww > w - cur_w
            };
            if too_wide && nonempty {
                let ghost before = strs_view(lines@);
                lines.push(cur);
                assert(strs_view(lines@) =~= before.push(wrap_state(wv.take(k as int), w as int).1));
                cur = String::new();
                cur_w = 0;
            }
            if ww > w {
                if !cur.as_str().is_empty() {
                    let ghost before = strs_view(lines@);
                    lines.push(cur);
                    assert(strs_view(lines@) =~= before.push(before.last()));
                    cur = String::new();
                    cur_w = 0;
                }
                let mut parts = hard_split(word, w);
                let ghost before = strs_view(lines@);
                let ghost pv = strs_view(parts@);
                lines.append(&mut parts);
                assert(strs_view(lines@) =~= before + pv);
            } else {
                if !cur.as_str().is_empty() {
                    push_char(&mut cur, ' ');
                    cur_w = cur_w + 1;
                }
                cur.append(word);
                cur_w = cur_w + ww;
            }
        }
        k += 1;
    }
    assert(wv.take(wv.len() as int) =~= wv);
    if !cur.as_str().is_empty() || lines.len() == 0 {
        let ghost before = strs_view(lines@);
        lines.push(cur);
        assert(strs_view(lines@) =~= before.push(wrap_state(wv, w as int).1));
    }
    lines
}

/// The cell height of an `img_w`×`img_h` pixel image drawn `cols` cells wide
/// with `font` = (width, height) pixels per cell (1:2 when unknown), keeping
/// its aspect and capped to `max_rows` (at least 1).
pub open spec fn image_rows_spec(font: Option<(u16, u16)>, img_w: u32, img_h: u32, cols: u16, max_rows: u16) -> u16 {
    if img_w == 0 || img_h == 0 || cols == 0 {
        1
    } else {
        let (fw, fh) = match font {
            Some(f) => (f.0 as int, f.1 as int),
            None => (1int, 2int),
        };
        let rows = (cols * fw * img_h) / (fh * img_w);
        let at_least_one = if rows < 1 {
            1
        } else {
            rows
        };
        let cap = if max_rows < 1 {
            1
        } else {
            max_rows as int
        };
        if at_least_one < cap {
            at_least_one as u16
        } else {
            cap as u16
        }
    }
}

/// Cell height an image should occupy; see `image_rows_spec`.
pub fn image_rows(font: Option<(u16, u16)>, img_w: u32, img_h: u32, cols: u16, max_rows: u16) -> (r: u16)
    requires
        font matches Some(f) ==> f.1 > 0,
    ensures
        r == image_rows_spec(font, img_w, img_h, cols, max_rows),
{
    if img_w == 0 || img_h == 0 || cols == 0 {
        return 1;
    }
    let (fw, fh): (u64, u64) = match font {
        Some(f) => (f.0 as u64, f.1 as u64),
        None => (1, 2),
    };
    assert(cols * fw <= 0xffff * 0xffff) by (nonlinear_arith)
        requires
            cols <= 0xffff,
            fw <= 0xffff,
    ;
    assert((cols * fw) * img_h <= 0xffff * 0xffff * 0xffff_ffff) by (nonlinear_arith)
        requires
            cols * fw <= 0xffff * 0xffff,
            img_h <= 0xffff_ffff,
    ;
    assert(fh * img_w <= 0xffff * 0xffff_ffff) by (nonlinear_arith)
        requires
            fh <= 0xffff,
            img_w <= 0xffff_ffff,
    ;
    assert(fh * img_w > 0) by (nonlinear_arith)
        requires
            fh > 0,
            img_w > 0,
    ;
    let num: u64 = (cols as u64) * fw * (img_h as u64);
    let den: u64 = fh * (img_w as u64);
    let rows = num / den;
    let at_least_one = if rows < 1 {
        1
    } else {
        rows
    };
    let cap: u16 = if max_rows < 1 {
        1
    } else {
        max_rows
    };
    if at_least_one < cap as u64 {
        at_least_one as u16
    } else {
        cap
    }
}

/// `a - b`, or 0 when `b` is larger.
pub open spec fn sat_sub(a: int, b: int) -> int {
    if a > b {
        a - b
    } else {
        0
    }
}

/// A card row's title, truncated to what the left and right clusters leave
/// of `content_w` (keeping a column of gap), and the gap that pads the row to
/// `content_w` (at least one column).
pub open spec fn card_fit_spec(content_w: int, left_w: int, right_w: int, title: Seq<char>) -> (Seq<char>, int) {
    let t = truncate_spec(title, sat_sub(content_w, left_w + right_w + 1));
    let gap = sat_sub(content_w, left_w + t.1 + right_w);
    (t.0, if gap < 1 {
        1
    } else {
        gap
    })
}

/// Fit a card's title between its left cluster (`left_w` columns) and right
/// cluster (`right_w` columns) on a `content_w`-column row.
pub fn card_fit(content_w: usize, left_w: usize, right_w: usize, title: &str) -> (r: (String, usize))
    requires
        left_w + right_w + 1 <= usize::MAX,
    ensures
        r.0@ == card_fit_spec(content_w as int, left_w as int, right_w as int, title@).0,
        r.1 as int == card_fit_spec(content_w as int, left_w as int, right_w as int, title@).1,
{
    let taken = left_w + right_w + 1;
    let avail = if content_w > taken {
        content_w - taken
    } else {
        0
    };
    let (t, tw) = truncate(title, avail);
    let gap = if tw <= usize::MAX - left_w - right_w && content_w > left_w + tw + right_w {
        content_w - (left_w + tw + right_w)
    } else {
        0
    };
    (t, if gap < 1 {
        1
    } else {
        gap
    })
}

/// A status group header's name, truncated to what the fold glyph, marker
/// and count (`count_w` columns) leave of `content_w` (at least 4 columns),
/// and the width of the rule that fills the rest.
pub open spec fn header_fit_spec(content_w: int, count_w: int, name: Seq<char>) -> (Seq<char>, int) {
    let room = sat_sub(content_w, 4 + count_w + 2);
    let t = truncate_spec(name, if room < 4 {
        4
    } else {
        room
    });
    (t.0, sat_sub(content_w, 2 + 2 + t.1 + 1 + count_w + 1))
}

/// Fit a group header's name and rule on a `content_w`-column row.
pub fn header_fit(content_w: usize, count_w: usize, name: &str) -> (r: (String, usize))
    requires
        count_w + 6 <= usize::MAX,
    ensures
        r.0@ == header_fit_spec(content_w as int, count_w as int, name@).0,
        r.1 as int == header_fit_spec(content_w as int, count_w as int, name@).1,
{
    let room = if content_w > 4 + count_w + 2 {
        content_w - (4 + count_w + 2)
    } else {
        0
    };
    let (t, tw) = truncate(name, if room < 4 {
        4
    } else {
        room
    });
    let used_ok = tw <= usize::MAX - (count_w + 6);
    let rule = if used_ok && content_w > 2 + 2 + tw + 1 + count_w + 1 {
        content_w - (2 + 2 + tw + 1 + count_w + 1)
    } else {
        0
    };
    (t, rule)
}

/// Every chunk of a hard split fits in `w` columns, except a chunk of one
/// character that is wider on its own; no chunk is empty.
pub proof fn law_hard_split_chunks_fit(s: Seq<char>, w: int)
    requires
        w >= 0,
    ensures
        forall|k: int|
            0 <= k < hard_split_spec(s, w).len() ==> (#[trigger] hard_split_spec(s, w)[k]).len() > 0
                && (sum_width(hard_split_spec(s, w)[k]) <= w || hard_split_spec(s, w)[k].len() == 1),
{
    lemma_split_state_fits(s, w);
    let p = split_state(s, w);
    assert forall|k: int| 0 <= k < hard_split_spec(s, w).len() implies (#[trigger] hard_split_spec(
        s,
        w,
    )[k]).len() > 0 && (sum_width(hard_split_spec(s, w)[k]) <= w || hard_split_spec(s, w)[k].len()
        == 1) by {
        if k < p.0.len() {
            assert(hard_split_spec(s, w)[k] == p.0[k]);
        }
    }
}

/// The pending chunk's tracked width is its width, and every finished chunk
/// (and the pending one) fits or is a single character.
proof fn lemma_split_state_fits(s: Seq<char>, w: int)
    requires
        w >= 0,
    ensures
        split_state(s, w).2 == sum_width(split_state(s, w).1),
        split_state(s, w).1.len() > 0 ==> (sum_width(split_state(s, w).1) <= w
            || split_state(s, w).1.len() == 1),
        forall|k: int|
            0 <= k < split_state(s, w).0.len() ==> (#[trigger] split_state(s, w).0[k]).len() > 0
                && (sum_width(split_state(s, w).0[k]) <= w || split_state(s, w).0[k].len() == 1),
    decreases s.len(),
{
    if s.len() > 0 {
        lemma_split_state_fits(s.drop_last(), w);
        let p = split_state(s.drop_last(), w);
        let c = s.last();
        assert(seq![c].drop_last() =~= Seq::<char>::empty());
        assert(p.1.push(c).drop_last() =~= p.1);
        assert(sum_width(seq![c]) == sum_width(Seq::<char>::empty()) + cw(c));
        if !(p.2 + cw(c) > w && p.1.len() > 0) {
            assert(sum_width(p.1.push(c)) == sum_width(p.1) + cw(c));
            if p.1.len() == 0 {
                assert(p.1.push(c).len() == 1);
            }
        }
    }
}

} // verus!
