//! Raw-HTML opening-tag scanner over one line of source text.
//!
//! A match is a `<` that opens a tag-shaped run — an optional `/`, a name
//! starting with an ASCII letter and continuing with ASCII letters, digits
//! or `-`, then `>`, `/>`, or whitespace and attributes up to a `>` outside
//! quotes — and that either stands at a tag boundary (start of line or
//! after whitespace) or is followed later on the line by a closing tag of
//! the same name. Positions are character positions; columns are 1-based.

use vstd::prelude::*;

use crate::text::{char_is_ws, chars_of, is_ws};

verus! {

pub open spec fn is_ascii_alpha(c: char) -> bool {
    ('a' <= c && c <= 'z') || ('A' <= c && c <= 'Z')
}

/// A character that may continue a tag name.
pub open spec fn is_name_char(c: char) -> bool {
    is_ascii_alpha(c) || ('0' <= c && c <= '9') || c == '-'
}

/// The first position at or after `i` that does not continue a tag name.
pub open spec fn name_end_from(s: Seq<char>, i: int) -> int
    decreases s.len() - i,
{
    if i < 0 || i >= s.len() || !is_name_char(s[i]) {
        i
    } else {
        name_end_from(s, i + 1)
    }
}

/// The position of the first `>` at or after `i` that stands outside a
/// single- or double-quoted run, `quote` being the quote open at `i`.
pub open spec fn quote_close(s: Seq<char>, i: int, quote: Option<char>) -> Option<int>
    decreases s.len() - i,
{
    if i < 0 || i >= s.len() {
        None
    } else {
        match quote {
            Some(q) => if s[i] == q {
                quote_close(s, i + 1, None)
            } else {
                quote_close(s, i + 1, Some(q))
            },
            None => if s[i] == '"' || s[i] == '\'' {
                quote_close(s, i + 1, Some(s[i]))
            } else if s[i] == '>' {
                Some(i)
            } else {
                quote_close(s, i + 1, None)
            },
        }
    }
}

/// The shape of a tag: its name's span, where it ends (one past its `>`),
/// and whether it is a closing tag.
pub struct TagShape {
    pub end: int,
    pub name_start: int,
    pub name_end: int,
    pub closing: bool,
}

/// The tag whose text starts at position `b` (just after a `<`), if the
/// text there is tag-shaped.
pub open spec fn tag_at(s: Seq<char>, b: int) -> Option<TagShape> {
    let closing = 0 <= b < s.len() && s[b] == '/';
    let ns = if closing {
        b + 1
    } else {
        b
    };
    if ns < 0 || ns >= s.len() || !is_ascii_alpha(s[ns]) {
        None
    } else {
        let ne = name_end_from(s, ns + 1);
        if ne >= s.len() {
            None
        } else if s[ne] == '>' {
            Some(TagShape { end: ne + 1, name_start: ns, name_end: ne, closing })
        } else if s[ne] == '/' {
            if ne + 1 < s.len() && s[ne + 1] == '>' {
                Some(TagShape { end: ne + 2, name_start: ns, name_end: ne, closing })
            } else {
                None
            }
        } else if is_ws(s[ne]) {
            match quote_close(s, ne, None) {
                Some(p) => Some(TagShape { end: p + 1, name_start: ns, name_end: ne, closing }),
                None => None,
            }
        } else {
            None
        }
    }
}

/// A `<` at `p` opens a closing tag named `name`.
pub open spec fn closes_name_at(s: Seq<char>, p: int, name: Seq<char>) -> bool {
    &&& 0 <= p < s.len()
    &&& s[p] == '<'
    &&& match tag_at(s, p + 1) {
        Some(c) => c.closing && s.subrange(c.name_start, c.name_end) == name,
        None => false,
    }
}

/// An opening tag `t` is closed later on the line by a tag of its name.
pub open spec fn has_closing_for(s: Seq<char>, t: TagShape) -> bool {
    &&& !t.closing
    &&& exists|p: int| t.end <= p && #[trigger] closes_name_at(s, p, s.subrange(t.name_start, t.name_end))
}

/// Position `i` starts a raw-HTML match.
pub open spec fn is_match_at(s: Seq<char>, i: int) -> bool {
    &&& 0 <= i < s.len()
    &&& s[i] == '<'
    &&& match tag_at(s, i + 1) {
        Some(t) => i == 0 || is_ws(s[i - 1]) || has_closing_for(s, t),
        None => false,
    }
}

/// The first match position at or after `i`.
pub open spec fn first_match_from(s: Seq<char>, i: int) -> Option<int>
    decreases s.len() - i,
{
    if i < 0 || i >= s.len() {
        None
    } else if is_match_at(s, i) {
        Some(i)
    } else {
        first_match_from(s, i + 1)
    }
}

/// The 1-based column range of a raw-HTML opening tag: from its `<` to
/// just past its `>`.
#[derive(Debug, Clone, Copy, PartialEq, Eq, Structural)]
pub struct RawHtmlMatch {
    pub start_column: u32,
    pub end_column: u32,
}

/// The match the scanner reports for a line.
pub open spec fn raw_html_in(s: Seq<char>) -> Option<RawHtmlMatch> {
    match first_match_from(s, 0) {
        Some(i) => Some(
            RawHtmlMatch { start_column: (i + 1) as u32, end_column: (tag_at(s, i + 1).unwrap().end + 1) as u32 },
        ),
        None => None,
    }
}

proof fn lemma_name_end_bounds(s: Seq<char>, i: int)
    requires
        0 <= i <= s.len(),
    ensures
        i <= name_end_from(s, i) <= s.len(),
    decreases s.len() - i,
{
    if i < s.len() && is_name_char(s[i]) {
        lemma_name_end_bounds(s, i + 1);
    }
}

proof fn lemma_quote_close_bounds(s: Seq<char>, i: int, quote: Option<char>)
    requires
        0 <= i,
    ensures
        quote_close(s, i, quote) matches Some(p) ==> i <= p < s.len(),
    decreases s.len() - i,
{
    if i < s.len() {
        match quote {
            Some(q) => if s[i] == q {
                lemma_quote_close_bounds(s, i + 1, None);
            } else {
                lemma_quote_close_bounds(s, i + 1, Some(q));
            },
            None => if s[i] == '"' || s[i] == '\'' {
                lemma_quote_close_bounds(s, i + 1, Some(s[i]));
            } else if s[i] == '>' {
            } else {
                lemma_quote_close_bounds(s, i + 1, None);
            },
        }
    }
}

/// A tag found at `b` lies within the line, its name non-empty.
proof fn lemma_tag_bounds(s: Seq<char>, b: int)
    requires
        0 <= b <= s.len(),
    ensures
        tag_at(s, b) matches Some(t) ==> b <= t.name_start < t.name_end < t.end <= s.len(),
{
    let closing = 0 <= b < s.len() && s[b] == '/';
    let ns = if closing { b + 1 } else { b };
    if 0 <= ns < s.len() {
        lemma_name_end_bounds(s, ns + 1);
        let ne = name_end_from(s, ns + 1);
        if ne < s.len() {
            lemma_quote_close_bounds(s, ne, None);
        }
    }
}

struct RawHtmlTag {
    end: usize,
    name_start: usize,
    name_end: usize,
    is_closing: bool,
}

spec fn shape_of(t: RawHtmlTag) -> TagShape {
    TagShape { end: t.end as int, name_start: t.name_start as int, name_end: t.name_end as int, closing: t.is_closing }
}

fn is_ascii_alphabetic(c: char) -> (r: bool)
    ensures
        r == is_ascii_alpha(c),
{
    ('a' <= c && c <= 'z') || ('A' <= c && c <= 'Z')
}

fn is_tag_name_char(c: char) -> (r: bool)
    ensures
        r == is_name_char(c),
{
    is_ascii_alphabetic(c) || ('0' <= c && c <= '9') || c == '-'
}

/// The position of the first `>` at or after `from` outside quotes.
fn tag_close_after_attributes(s: &Vec<char>, from: usize) -> (r: Option<usize>)
    requires
        from <= s@.len(),
    ensures
        match r {
            Some(p) => quote_close(s@, from as int, None) == Some(p as int),
            None => quote_close(s@, from as int, None) is None,
        },
{
    let mut quote: Option<char> = None;
    let mut i: usize = from;
    while i < s.len()
        invariant
            from <= i <= s@.len(),
            quote_close(s@, from as int, None) == quote_close(s@, i as int, quote),
        decreases s.len() - i,
    {
        let c = s[i];
        match quote {
            Some(q) => {
                if c == q {
                    quote = None;
                }
            },
            None => {
                if c == '"' || c == '\'' {
                    quote = Some(c);
                } else if c == '>' {
                    return Some(i);
                }
            },
        }
        i = i + 1;
    }
    None
}

/// The tag whose text starts at `b`, just after a `<`.
fn raw_html_tag(s: &Vec<char>, b: usize) -> (r: Option<RawHtmlTag>)
    requires
        b <= s@.len(),
    ensures
        match r {
            Some(t) => tag_at(s@, b as int) == Some(shape_of(t)),
            None => tag_at(s@, b as int) is None,
        },
{
    let mut name_start = b;
    let mut is_closing = false;
    if b < s.len() && s[b] == '/' {
        name_start = b + 1;
        is_closing = true;
    }
    if name_start >= s.len() || !is_ascii_alphabetic(s[name_start]) {
        return None;
    }
    let mut name_end = name_start + 1;
    while name_end < s.len() && is_tag_name_char(s[name_end])
        invariant
            name_start < name_end <= s@.len(),
            name_end_from(s@, name_start + 1) == name_end_from(s@, name_end as int),
        decreases s.len() - name_end,
    {
        name_end = name_end + 1;
    }
    if name_end >= s.len() {
        return None;
    }
    let next = s[name_end];
    let end = if next == '>' {
        name_end + 1
    } else if next == '/' {
        if name_end + 1 < s.len() && s[name_end + 1] == '>' {
            name_end + 2
        } else {
            return None;
        }
    } else if char_is_ws(next) {
        proof {
            lemma_quote_close_bounds(s@, name_end as int, None);
        }
        match tag_close_after_attributes(s, name_end) {
            Some(p) => p + 1,
            None => {
                return None;
            },
        }
    } else {
        return None;
    };
    Some(RawHtmlTag { end, name_start, name_end, is_closing })
}

fn same_chars(s: &Vec<char>, a: usize, b: usize, len: usize) -> (r: bool)
    requires
        a + len <= s@.len(),
        b + len <= s@.len(),
    ensures
        r == (s@.subrange(a as int, a + len) == s@.subrange(b as int, b + len)),
{
    let mut k: usize = 0;
    while k < len
        invariant
            a + len <= s.len(),
            b + len <= s.len(),
            k <= len,
            s@.subrange(a as int, a + k) == s@.subrange(b as int, b + k),
        decreases len - k,
    {
        if s[a + k] != s[b + k] {
            proof {
                assert(s@.subrange(a as int, a + len)[k as int] != s@.subrange(b as int, b + len)[k as int]);
            }
            return false;
        }
        proof {
            assert(s@.subrange(a as int, a + k + 1) =~= s@.subrange(a as int, a + k).push(s@[a + k]));
            assert(s@.subrange(b as int, b + k + 1) =~= s@.subrange(b as int, b + k).push(s@[b + k]));
        }
        k = k + 1;
    }
    true
}

/// Whether an opening tag is closed later on the line by a tag of the
/// same name.
fn has_matching_closing_tag(s: &Vec<char>, t: &RawHtmlTag) -> (r: bool)
    requires
        t.name_start < t.name_end <= s@.len(),
        t.end <= s@.len(),
    ensures
        r == has_closing_for(s@, shape_of(*t)),
{
    if t.is_closing {
        return false;
    }
    let ghost name = s@.subrange(t.name_start as int, t.name_end as int);
    let name_len = t.name_end - t.name_start;
    let mut p: usize = t.end;
    while p < s.len()
        invariant
            t.end <= p <= s@.len(),
            !t.is_closing,
            t.name_start < t.name_end <= s@.len(),
            name == s@.subrange(t.name_start as int, t.name_end as int),
            name_len == t.name_end - t.name_start,
            forall|q: int| t.end <= q < p ==> !#[trigger] closes_name_at(s@, q, name),
        decreases s.len() - p,
    {
        if s[p] == '<' {
            match raw_html_tag(s, p + 1) {
                Some(c) => {
                    proof {
                        lemma_tag_bounds(s@, p + 1);
                    }
                    if c.is_closing && c.name_end - c.name_start == name_len
                        && same_chars(s, c.name_start, t.name_start, name_len) {
                        proof {
                            assert(tag_at(s@, p + 1) == Some(shape_of(c)));
                            assert(s@.subrange(c.name_start as int, c.name_end as int) == name);
                            assert(closes_name_at(s@, p as int, name));
                            assert(closes_name_at(s@, p as int, s@.subrange(shape_of(*t).name_start, shape_of(*t).name_end)));
                        }
                        return true;
                    }
                    proof {
                        if c.is_closing && c.name_end - c.name_start != name_len {
                            assert(s@.subrange(c.name_start as int, c.name_end as int).len() != name.len());
                        }
                    }
                },
                None => {},
            }
        }
        p = p + 1;
    }
    false
}

/// The column range of the first raw-HTML opening tag on `line`, or
/// `None` when every `<` on it is prose (`Vec<String>`, `a < b`).
pub fn find_raw_html(line: &str) -> (r: Option<RawHtmlMatch>)
    requires
        line@.len() + 2 <= u32::MAX,
    ensures
        r == raw_html_in(line@),
{
    let s = chars_of(line);
    let mut i: usize = 0;
    while i < s.len()
        invariant
            s@ == line@,
            s@.len() + 2 <= u32::MAX,
            i <= s@.len(),
            first_match_from(s@, 0) == first_match_from(s@, i as int),
        decreases s.len() - i,
    {
        if s[i] == '<' {
            match raw_html_tag(&s, i + 1) {
                Some(tag) => {
                    proof {
                        lemma_tag_bounds(s@, i + 1);
                    }
                    let boundary = i == 0 || char_is_ws(s[i - 1]);
                    if boundary || has_matching_closing_tag(&s, &tag) {
                        return Some(RawHtmlMatch { start_column: (i + 1) as u32, end_column: (tag.end + 1) as u32 });
                    }
                },
                None => {},
            }
        }
        i = i + 1;
    }
    None
}

} // verus!
