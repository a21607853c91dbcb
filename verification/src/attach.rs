//! Ticket attachments: pull image references out of an issue body, splitting it
//! into text and image runs in reading order. Recognises Markdown `![alt](url)`
//! and HTML `<img … src="url" …>`.
use vstd::prelude::*;
use crate::text::{
    chars_of, find_from, has_char, lower, lower_char_exec, occurs_at, parse_uint, parse_uint_exec,
    string_of_range, trim, trim_bounds,
};

verus! {

/// One image referenced in a body: its URL plus any author-declared pixel size.
#[derive(Debug, Clone, PartialEq, Eq)]
pub struct ImageRef {
    pub url: String,
    pub width: Option<u32>,
    pub height: Option<u32>,
}

/// A run of the body in reading order: either a block of text or an image.
#[derive(Debug, Clone, PartialEq, Eq)]
pub enum ContentPart {
    Text(String),
    Image(ImageRef),
}

/// The mathematical content of an image reference.
pub struct ImageView {
    pub url: Seq<char>,
    pub width: Option<u32>,
    pub height: Option<u32>,
}

/// The mathematical content of a body run.
pub enum PartView {
    Text(Seq<char>),
    Image(ImageView),
}

impl View for ImageRef {
    type V = ImageView;

    open spec fn view(&self) -> ImageView {
        ImageView { url: self.url@, width: self.width, height: self.height }
    }
}

impl View for ContentPart {
    type V = PartView;

    open spec fn view(&self) -> PartView {
        match self {
            ContentPart::Text(t) => PartView::Text(t@),
            ContentPart::Image(i) => PartView::Image(i@),
        }
    }
}

/// The views of a list of runs.
pub open spec fn parts_view(v: Seq<ContentPart>) -> Seq<PartView> {
    v.map_values(|p: ContentPart| p@)
}

// ---------------------------------------------------------------------------
// Search vocabulary
// ---------------------------------------------------------------------------

/// The first index `>= from` at which `pat` occurs in `s`.
pub open spec fn find_spec(s: Seq<char>, pat: Seq<char>, from: int) -> Option<int>
    decreases s.len() + 1 - from,
{
    if from < 0 || from > s.len() {
        None
    } else if occurs_at(s, pat, from) {
        Some(from)
    } else {
        find_spec(s, pat, from + 1)
    }
}

proof fn lemma_find_spec_none(s: Seq<char>, pat: Seq<char>, from: int)
    requires
        0 <= from,
        forall|j: int| from <= j ==> !occurs_at(s, pat, j),
    ensures
        find_spec(s, pat, from) is None,
    decreases s.len() + 1 - from,
{
    if from <= s.len() {
        lemma_find_spec_none(s, pat, from + 1);
    }
}

proof fn lemma_find_spec_some(s: Seq<char>, pat: Seq<char>, from: int, i: int)
    requires
        0 <= from <= i,
        occurs_at(s, pat, i),
        forall|j: int| from <= j < i ==> !occurs_at(s, pat, j),
    ensures
        find_spec(s, pat, from) == Some(i),
    decreases i - from,
{
    if from < i {
        lemma_find_spec_some(s, pat, from + 1, i);
    }
}

/// `find_from`, stated through `find_spec`.
pub(crate) fn find(s: &[char], pat: &[char], from: usize) -> (r: Option<usize>)
    ensures
        match r {
            Some(i) => find_spec(s@, pat@, from as int) == Some(i as int) && i + pat@.len()
                <= s@.len() && occurs_at(s@, pat@, i as int) && from <= i,
            None => find_spec(s@, pat@, from as int) is None,
        },
{
    let r = find_from(s, pat, from);
    proof {
        match r {
            Some(i) => lemma_find_spec_some(s@, pat@, from as int, i as int),
            None => lemma_find_spec_none(s@, pat@, from as int),
        }
    }
    r
}

/// The first index `>= from` holding `c`.
pub open spec fn find_char_spec(s: Seq<char>, c: char, from: int) -> Option<int> {
    find_spec(s, seq![c], from)
}

fn find_char(s: &[char], c: char, from: usize) -> (r: Option<usize>)
    ensures
        match r {
            Some(i) => find_char_spec(s@, c, from as int) == Some(i as int) && from <= i < s@.len()
                && s@[i as int] == c,
            None => find_char_spec(s@, c, from as int) is None,
        },
{
    let pat = vec![c];
    assert(pat@ == seq![c]);
    let r = find(s, pat.as_slice(), from);
    if let Some(i) = r {
        assert(s@.subrange(i as int, i + 1) == seq![c]);
        assert(s@.subrange(i as int, i + 1)[0] == s@[i as int]);
    }
    r
}

/// `u8::is_ascii_whitespace`: space, tab, line feed, form feed, carriage return.
pub open spec fn is_ascii_ws(c: char) -> bool {
    c == ' ' || c == '\t' || c == '\n' || c == '\x0C' || c == '\r'
}

// ---------------------------------------------------------------------------
// Markdown images
// ---------------------------------------------------------------------------

/// The first Markdown image `![alt](url)` found starting the scan at `from`, as
/// `(start, end, url)`: `url` is the trimmed text between `](` and the next
/// `)`; a candidate whose url is empty or spans a line is skipped.
pub open spec fn md_from(s: Seq<char>, from: int) -> Option<(int, int, Seq<char>)>
    decreases s.len() + 2 - from,
{
    if from < 0 || from > s.len() {
        None
    } else {
        match find_spec(s, seq!['!', '['], from) {
            None => None,
            Some(bang) => match find_spec(s, seq![']', '('], bang) {
                None => if from < bang + 2 && bang <= s.len() {
                    md_from(s, bang + 2)
                } else {
                    None
                },
                Some(a) => match find_char_spec(s, ')', a + 2) {
                    None => None,
                    Some(close) => {
                        let url = trim(s.subrange(a + 2, close));
                        if has_char(url, '\n') || url.len() == 0 {
                            if from < bang + 2 && bang <= s.len() {
                                md_from(s, bang + 2)
                            } else {
                                None
                            }
                        } else {
                            Some((bang, close + 1, url))
                        }
                    },
                },
            },
        }
    }
}

/// The first Markdown image in `s`.
pub open spec fn md_spec(s: Seq<char>) -> Option<(int, int, Seq<char>)> {
    md_from(s, 0)
}

fn has_char_exec(s: &[char], c: char) -> (r: bool)
    ensures
        r == has_char(s@, c),
{
    let mut i: usize = 0;
    while i < s.len()
        invariant
            i <= s@.len(),
            forall|j: int| 0 <= j < i ==> s@[j] != c,
        decreases s.len() - i,
    {
        if s[i] == c {
            return true;
        }
        i += 1;
    }
    false
}

/// `find_markdown`: the first Markdown image, as `(start, end, image)`.
pub fn find_markdown(s: &[char]) -> (r: Option<(usize, usize, ImageRef)>)
    ensures
        match md_spec(s@) {
            None => r is None,
            Some((a, b, u)) => r matches Some((a2, b2, img)) && a2 == a && b2 == b && img@
                == (ImageView { url: u, width: None, height: None }) && a < b <= s@.len(),
        },
{
    let bang_pat = vec!['!', '['];
    let close_pat = vec![']', '('];
    assert(bang_pat@ == seq!['!', '[']);
    assert(close_pat@ == seq![']', '(']);
    let mut from: usize = 0;
    while from <= s.len()
        invariant
            from <= s@.len() + 2,
            bang_pat@ == seq!['!', '['],
            close_pat@ == seq![']', '('],
            md_from(s@, 0) == md_from(s@, from as int),
        decreases s.len() + 2 - from,
    {
        let bang = match find(s, bang_pat.as_slice(), from) {
            None => return None,
            Some(b) => b,
        };
        let a = match find(s, close_pat.as_slice(), bang) {
            None => {
                from = bang + 2;
                continue ;
            },
            Some(a) => a,
        };
        let close = match find_char(s, ')', a + 2) {
            None => return None,
            Some(c) => c,
        };
        let (t0, t1) = trim_bounds_in(s, a + 2, close);
        let ghost url = trim(s@.subrange(a + 2, close as int));
        let url_cs = copy_range(s, t0, t1);
        assert(url_cs@ == url);
        if has_char_exec(url_cs.as_slice(), '\n') || t1 == t0 {
            from = bang + 2;
            continue ;
        }
        let u = string_of_range(url_cs.as_slice(), 0, url_cs.len());
        assert(url_cs@.subrange(0, url_cs@.len() as int) == url_cs@);
        return Some((bang, close + 1, ImageRef { url: u, width: None, height: None }));
    }
    assert(md_from(s@, from as int) is None);
    None
}

/// A copy of `s[from..to]`.
fn copy_range(s: &[char], from: usize, to: usize) -> (r: Vec<char>)
    requires
        from <= to <= s@.len(),
    ensures
        r@ == s@.subrange(from as int, to as int),
{
    let mut out: Vec<char> = Vec::new();
    let mut i = from;
    while i < to
        invariant
            from <= i <= to <= s@.len(),
            out@ == s@.subrange(from as int, i as int),
        decreases to - i,
    {
        out.push(s[i]);
        assert(s@.subrange(from as int, i + 1) == s@.subrange(from as int, i as int).push(
            s@[i as int],
        ));
        i += 1;
    }
    out
}

/// Bounds of `trim(s[from..to])` within `s`.
fn trim_bounds_in(s: &[char], from: usize, to: usize) -> (r: (usize, usize))
    requires
        from <= to <= s@.len(),
    ensures
        from <= r.0 <= r.1 <= to,
        s@.subrange(r.0 as int, r.1 as int) == trim(s@.subrange(from as int, to as int)),
{
    let piece = copy_range(s, from, to);
    let (a, b) = trim_bounds(piece.as_slice());
    assert(s@.subrange(from + a, from + b) =~= piece@.subrange(a as int, b as int));
    (from + a, from + b)
}

// ---------------------------------------------------------------------------
// HTML images
// ---------------------------------------------------------------------------

/// The value of attribute `name` in `tag`, scanning from `search`: a
/// case-insensitive `name=` at the tag's start or after ASCII whitespace,
/// followed by a single- or double-quoted value.
pub open spec fn attr_from(tag: Seq<char>, key: Seq<char>, search: int) -> Option<Seq<char>>
    decreases tag.len() + 1 - search,
{
    if search < 0 || search > tag.len() {
        None
    } else {
        match find_spec(lower(tag), key, search) {
            None => None,
            Some(at) => {
                let vstart = at + key.len();
                let boundary_ok = at == 0 || is_ascii_ws(lower(tag)[at - 1]);
                if !boundary_ok {
                    if search < vstart <= tag.len() + 1 {
                        attr_from(tag, key, vstart)
                    } else {
                        None
                    }
                } else if vstart >= tag.len() {
                    None
                } else if tag[vstart] != '"' && tag[vstart] != '\'' {
                    if search < vstart <= tag.len() + 1 {
                        attr_from(tag, key, vstart)
                    } else {
                        None
                    }
                } else {
                    match find_char_spec(tag, tag[vstart], vstart + 1) {
                        None => None,
                        Some(close) => Some(tag.subrange(vstart + 1, close)),
                    }
                }
            },
        }
    }
}

/// The value of attribute `name` (given in lowercase) in an HTML tag.
pub open spec fn attr_spec(tag: Seq<char>, name: Seq<char>) -> Option<Seq<char>> {
    attr_from(tag, name.push('='), 0)
}

/// Read `name="value"` (or single-quoted) out of an HTML tag, case-insensitively.
/// Attribute names are whitespace-separated, so `data-src=` doesn't count as `src=`.
pub fn attr(tag: &str, name: &str) -> (r: Option<String>)
    ensures
        match attr_spec(tag@, name@) {
            Some(v) => r matches Some(s) && s@ == v,
            None => r is None,
        },
{
    let cs = chars_of(tag);
    let n = chars_of(name);
    let r = attr_chars(cs.as_slice(), n.as_slice());
    match r {
        Some((a, b)) => Some(string_of_range(cs.as_slice(), a, b)),
        None => None,
    }
}

fn lower_chars(s: &[char]) -> (r: Vec<char>)
    ensures
        r@ == lower(s@),
{
    let mut out: Vec<char> = Vec::new();
    let mut i: usize = 0;
    while i < s.len()
        invariant
            i <= s@.len(),
            out@ == lower(s@.take(i as int)),
        decreases s.len() - i,
    {
        out.push(lower_char_exec(s[i]));
        assert(lower(s@.take(i + 1)) =~= lower(s@.take(i as int)).push(
            crate::text::lower_char(s@[i as int]),
        ));
        i += 1;
    }
    assert(s@.take(s@.len() as int) =~= s@);
    out
}

/// Bounds of the value of attribute `name` within `tag`.
fn attr_chars(tag: &[char], name: &[char]) -> (r: Option<(usize, usize)>)
    ensures
        match attr_spec(tag@, name@) {
            Some(v) => r matches Some((a, b)) && a <= b <= tag@.len() && tag@.subrange(
                a as int,
                b as int,
            ) == v,
            None => r is None,
        },
{
    let lower_tag = lower_chars(tag);
    let mut key: Vec<char> = Vec::new();
    let mut i: usize = 0;
    while i < name.len()
        invariant
            i <= name@.len(),
            key@ == name@.take(i as int),
        decreases name.len() - i,
    {
        key.push(name[i]);
        assert(name@.take(i + 1) =~= name@.take(i as int).push(name@[i as int]));
        i += 1;
    }
    key.push('=');
    assert(name@.take(name@.len() as int) =~= name@);
    let ghost k = name@.push('=');
    assert(key@ == k);
    let mut search: usize = 0;
    while search <= tag.len()
        invariant
            search <= tag@.len() + key@.len(),
            lower_tag@ == lower(tag@),
            lower_tag@.len() == tag@.len(),
            key@ == k,
            k == name@.push('='),
            attr_from(tag@, k, 0) == attr_from(tag@, k, search as int),
        decreases tag.len() + key.len() + 1 - search,
    {
        let at = match find(lower_tag.as_slice(), key.as_slice(), search) {
            None => return None,
            Some(at) => at,
        };
        let vstart = at + key.len();
        let boundary_ok = at == 0 || {
            let c = lower_tag[at - 1];
            c == ' ' || c == '\t' || c == '\n' || c == '\x0C' || c == '\r'
        };
        if !boundary_ok {
            search = vstart;
            continue ;
        }
        if vstart >= tag.len() {
            return None;
        }
        let quote = tag[vstart];
        if quote != '"' && quote != '\'' {
            search = vstart;
            continue ;
        }
        let close = match find_char(tag, quote, vstart + 1) {
            None => return None,
            Some(c) => c,
        };
        return Some((vstart + 1, close));
    }
    assert(attr_from(tag@, k, search as int) is None);
    None
}

/// The first HTML `<img …>` tag with a `src` starting the scan at `from`, as
/// `(start, end, url, width, height)`; the tag is found case-insensitively and
/// ends at the next `>`; a tag without `src` is skipped.
pub open spec fn html_from(s: Seq<char>, from: int) -> Option<(int, int, ImageView)>
    decreases s.len() + 1 - from,
{
    if from < 0 || from > s.len() {
        None
    } else {
        match find_spec(lower(s), seq!['<', 'i', 'm', 'g'], from) {
            None => None,
            Some(start) => match find_char_spec(lower(s), '>', start) {
                None => None,
                Some(gt) => {
                    let tag = s.subrange(start, gt + 1);
                    match attr_spec(tag, seq!['s', 'r', 'c']) {
                        Some(url) => Some(
                            (
                                start,
                                gt + 1,
                                ImageView {
                                    url,
                                    width: dimension(attr_spec(tag, seq!['w', 'i', 'd', 't', 'h'])),
                                    height: dimension(
                                        attr_spec(tag, seq!['h', 'e', 'i', 'g', 'h', 't']),
                                    ),
                                },
                            ),
                        ),
                        None => if from < gt + 1 <= s.len() + 1 {
                            html_from(s, gt + 1)
                        } else {
                            None
                        },
                    }
                },
            },
        }
    }
}

/// An author-declared pixel size: the attribute value parsed as a `u32`.
pub open spec fn dimension(v: Option<Seq<char>>) -> Option<u32> {
    match v {
        None => None,
        Some(t) => match parse_uint(t, u32::MAX as nat) {
            Some(n) => Some(n as u32),
            None => None,
        },
    }
}

/// The first HTML image in `s`.
pub open spec fn html_spec(s: Seq<char>) -> Option<(int, int, ImageView)> {
    html_from(s, 0)
}

fn parse_dimension(tag: &[char], name: &[char]) -> (r: Option<u32>)
    ensures
        r == dimension(attr_spec(tag@, name@)),
{
    match attr_chars(tag, name) {
        None => None,
        Some((a, b)) => {
            let v = copy_range(tag, a, b);
            match parse_uint_exec(v.as_slice(), u32::MAX as u64) {
                Some(n) => Some(n as u32),
                None => None,
            }
        },
    }
}

/// `find_html`: the first HTML image, as `(start, end, image)`.
pub fn find_html(s: &[char]) -> (r: Option<(usize, usize, ImageRef)>)
    ensures
        match html_spec(s@) {
            None => r is None,
            Some((a, b, img)) => r matches Some((a2, b2, i2)) && a2 == a && b2 == b && i2@ == img
                && a < b <= s@.len(),
        },
{
    let lower_s = lower_chars(s);
    let img_pat = vec!['<', 'i', 'm', 'g'];
    assert(img_pat@ == seq!['<', 'i', 'm', 'g']);
    let src = vec!['s', 'r', 'c'];
    let width = vec!['w', 'i', 'd', 't', 'h'];
    let height = vec!['h', 'e', 'i', 'g', 'h', 't'];
    assert(src@ == seq!['s', 'r', 'c']);
    assert(width@ == seq!['w', 'i', 'd', 't', 'h']);
    assert(height@ == seq!['h', 'e', 'i', 'g', 'h', 't']);
    let mut from: usize = 0;
    while from <= s.len()
        invariant
            from <= s@.len() + 1,
            lower_s@ == lower(s@),
            lower_s@.len() == s@.len(),
            img_pat@ == seq!['<', 'i', 'm', 'g'],
            src@ == seq!['s', 'r', 'c'],
            width@ == seq!['w', 'i', 'd', 't', 'h'],
            height@ == seq!['h', 'e', 'i', 'g', 'h', 't'],
            html_from(s@, 0) == html_from(s@, from as int),
        decreases s.len() + 1 - from,
    {
        let start = match find(lower_s.as_slice(), img_pat.as_slice(), from) {
            None => return None,
            Some(st) => st,
        };
        let gt = match find_char(lower_s.as_slice(), '>', start) {
            None => return None,
            Some(g) => g,
        };
        let tag = copy_range(s, start, gt + 1);
        match attr_chars(tag.as_slice(), src.as_slice()) {
            Some((a, b)) => {
                let url = string_of_range(tag.as_slice(), a, b);
                let w = parse_dimension(tag.as_slice(), width.as_slice());
                let h = parse_dimension(tag.as_slice(), height.as_slice());
                return Some((start, gt + 1, ImageRef { url, width: w, height: h }));
            },
            None => {
                from = gt + 1;
            },
        }
    }
    assert(html_from(s@, from as int) is None);
    None
}

// ---------------------------------------------------------------------------
// Splitting a body
// ---------------------------------------------------------------------------

/// The earliest image token in `s` (Markdown wins a tie).
pub open spec fn next_image_spec(s: Seq<char>) -> Option<(int, int, ImageView)> {
    match (md_spec(s), html_spec(s)) {
        (Some((a, b, u)), Some((c, d, img))) => if a <= c {
            Some((a, b, ImageView { url: u, width: None, height: None }))
        } else {
            Some((c, d, img))
        },
        (Some((a, b, u)), None) => Some((a, b, ImageView { url: u, width: None, height: None })),
        (None, Some(h)) => Some(h),
        (None, None) => None,
    }
}

/// Find the earliest image token in `s`, returning `(start, end, image)`
/// offsets so the caller can slice the text around it.
pub fn next_image(s: &[char]) -> (r: Option<(usize, usize, ImageRef)>)
    ensures
        match next_image_spec(s@) {
            None => r is None,
            Some((a, b, img)) => r matches Some((a2, b2, i2)) && a2 == a && b2 == b && i2@ == img
                && a < b <= s@.len(),
        },
{
    let md = find_markdown(s);
    let html = find_html(s);
    match (md, html) {
        (Some(m), Some(h)) => Some(
            if m.0 <= h.0 {
                m
            } else {
                h
            },
        ),
        (Some(m), None) => Some(m),
        (None, Some(h)) => Some(h),
        (None, None) => None,
    }
}

/// The body split into text and image runs, in order. Text between images is
/// kept as is; an empty run is dropped.
pub open spec fn split_spec(s: Seq<char>) -> Seq<PartView>
    decreases s.len(),
{
    match next_image_spec(s) {
        None => if s.len() > 0 {
            seq![PartView::Text(s)]
        } else {
            Seq::empty()
        },
        Some((start, end, img)) => if 0 <= start < end <= s.len() {
            (if start > 0 {
                seq![PartView::Text(s.subrange(0, start))]
            } else {
                Seq::empty()
            }) + seq![PartView::Image(img)] + split_spec(s.subrange(end, s.len() as int))
        } else {
            Seq::empty()
        },
    }
}

/// Split a body into text/image parts in order. Recognises Markdown
/// `![alt](url)` and HTML `<img … src="url" …>`; everything else stays text.
pub fn split_content(body: &str) -> (r: Vec<ContentPart>)
    ensures
        parts_view(r@) == split_spec(body@),
{
    let all = chars_of(body);
    let mut parts: Vec<ContentPart> = Vec::new();
    let mut pos: usize = 0;
    let mut rest = copy_range(all.as_slice(), 0, all.len());
    assert(all@.subrange(0, all@.len() as int) =~= all@);
    let total = all.len();
    loop
        invariant
            total == all@.len(),
            pos <= all@.len(),
            all@ == body@,
            rest@ == all@.subrange(pos as int, all@.len() as int),
            parts_view(parts@) + split_spec(rest@) == split_spec(all@),
        decreases all@.len() - pos,
    {
        match next_image(rest.as_slice()) {
            None => {
                if rest.len() > 0 {
                    let t = string_of_range(rest.as_slice(), 0, rest.len());
                    assert(rest@.subrange(0, rest@.len() as int) == rest@);
                    let ghost before = parts_view(parts@);
                    parts.push(ContentPart::Text(t));
                    assert(parts_view(parts@) =~= before.push(PartView::Text(rest@)));
                    assert(parts_view(parts@) =~= split_spec(all@));
                } else {
                    assert(parts_view(parts@) =~= split_spec(all@));
                }
                return parts;
            },
            Some((start, end, img)) => {
                let ghost before = parts_view(parts@);
                let ghost tail = split_spec(rest@.subrange(end as int, rest@.len() as int));
                if start > 0 {
                    let t = string_of_range(rest.as_slice(), 0, start);
                    parts.push(ContentPart::Text(t));
                }
                let ghost with_text = parts_view(parts@);
                parts.push(ContentPart::Image(img));
                proof {
                    assert(parts_view(parts@) =~= with_text.push(PartView::Image(img@)));
                    if start > 0 {
                        assert(with_text =~= before.push(PartView::Text(rest@.subrange(0, start as int))));
                    } else {
                        assert(with_text =~= before);
                    }
                    assert(parts_view(parts@) + tail =~= before + split_spec(rest@));
                }
                assert(rest@.len() == all@.len() - pos);
                assert(end <= rest@.len());
                let next = copy_range(rest.as_slice(), end, rest.len());
                assert(next@ =~= all@.subrange(pos + end, all@.len() as int));
                pos = pos + end;
                rest = next;
            },
        }
    }
}

/// Every image URL in a body, in order.
pub open spec fn image_urls_spec(parts: Seq<PartView>) -> Seq<Seq<char>>
    decreases parts.len(),
{
    if parts.len() == 0 {
        Seq::empty()
    } else {
        image_urls_spec(parts.drop_last()) + match parts.last() {
            PartView::Image(i) => seq![i.url],
            PartView::Text(_) => Seq::empty(),
        }
    }
}

/// Every image URL in a body, in order — what the detail loader fetches.
pub fn image_urls(body: &str) -> (r: Vec<String>)
    ensures
        crate::model::strs_view(r@) == image_urls_spec(split_spec(body@)),
{
    let parts = split_content(body);
    let mut out: Vec<String> = Vec::new();
    let mut k: usize = 0;
    while k < parts.len()
        invariant
            k <= parts@.len(),
            parts_view(parts@) == split_spec(body@),
            crate::model::strs_view(out@) == image_urls_spec(parts_view(parts@).take(k as int)),
        decreases parts.len() - k,
    {
        let ghost before = crate::model::strs_view(out@);
        assert(parts_view(parts@).take(k + 1).drop_last() =~= parts_view(parts@).take(k as int));
        assert(parts_view(parts@).take(k + 1).last() == parts@[k as int]@);
        match &parts[k] {
            ContentPart::Image(i) => {
                out.push(i.url.clone());
                assert(crate::model::strs_view(out@) =~= before.push(i.url@));
            },
            ContentPart::Text(_) => {},
        }
        assert(crate::model::strs_view(out@) =~= image_urls_spec(parts_view(parts@).take(k + 1)));
        k += 1;
    }
    assert(parts_view(parts@).take(parts@.len() as int) =~= parts_view(parts@));
    out
}


/// The most bytes of an attachment that are read.
pub const MAX_IMAGE_BYTES: u64 = 26214400;

/// What to do with the first response of an attachment fetch.
#[derive(Debug, Clone, Copy, PartialEq, Eq, Structural)]
pub enum FetchStep {
    /// 200: read the body.
    Read,
    /// A redirect: fetch its `Location` again, without the token.
    Follow,
    /// Anything else fails the fetch.
    Refuse,
}

/// The step an HTTP status calls for when fetching an attachment.
pub fn fetch_step(status: u16) -> (r: FetchStep)
    ensures
        r == if status == 200 {
            FetchStep::Read
        } else if 300 <= status <= 399 {
            FetchStep::Follow
        } else {
            FetchStep::Refuse
        },
{
    if status == 200 {
        FetchStep::Read
    } else if 300 <= status && status <= 399 {
        FetchStep::Follow
    } else {
        FetchStep::Refuse
    }
}

/// The scan returns the earliest image token of the text: there is one
/// exactly when a Markdown or an HTML image is found, it is one of those, and
/// it starts no later than either (Markdown wins a tie).
pub proof fn law_next_image_is_earliest(s: Seq<char>)
    ensures
        next_image_spec(s) is Some <==> (md_spec(s) is Some || html_spec(s) is Some),
        next_image_spec(s) matches Some((a, b, img)) ==> {
            &&& (md_spec(s) matches Some((c, d, u)) ==> a <= c)
            &&& (html_spec(s) matches Some((c, d, h)) ==> a <= c)
            &&& ((md_spec(s) matches Some((c, d, u)) && a == c && b == d && img.url == u
                && img.width is None && img.height is None) || html_spec(s) == Some((a, b, img)))
        },
        md_spec(s) is Some && (html_spec(s) is None || (md_spec(s)->0).0 <= (html_spec(s)->0).0)
            ==> (next_image_spec(s) is Some && (next_image_spec(s)->0).2.url == (md_spec(s)->0).2),
{
}

} // verus!
