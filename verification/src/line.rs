use vstd::prelude::*;
use vstd::string::StrSliceExecFns;

use crate::chars::is_prefix_of;
use crate::chars::is_ws;
use crate::chars::str_starts_with_from;
use crate::comments::tc_cut;
use crate::comments::lemma_tc_cut_bounds;
use crate::comments::trim_comments;

verus! {

/// How many leading space or tab characters the line has.
pub open spec fn line_indent(s: Seq<char>) -> int
    decreases s.len(),
{
    if s.len() == 0 || !(s[0] == ' ' || s[0] == '\t') {
        0
    } else {
        1 + line_indent(s.drop_first())
    }
}

/// The length of the text once trailing whitespace is dropped.
pub open spec fn trim_end_len(s: Seq<char>) -> int
    decreases s.len(),
{
    if s.len() == 0 {
        0
    } else if !is_ws(s.last()) {
        s.len() as int
    } else {
        trim_end_len(s.drop_last())
    }
}

/// Where the real content of the line ends: past the indent, comments and
/// trailing whitespace dropped.
pub open spec fn line_inner_end(s: Seq<char>) -> int {
    let deindented = s.skip(line_indent(s));
    line_indent(s) + trim_end_len(deindented.take(tc_cut(deindented, 0)))
}

/// The indent is a prefix.
pub proof fn lemma_line_indent_le_len(s: Seq<char>)
    ensures
        0 <= line_indent(s) <= s.len(),
    decreases s.len(),
{
    if s.len() > 0 && (s[0] == ' ' || s[0] == '\t') {
        lemma_line_indent_le_len(s.drop_first());
    }
}

/// The trimmed length is a prefix length.
pub proof fn lemma_trim_end_le_len(s: Seq<char>)
    ensures
        0 <= trim_end_len(s) <= s.len(),
    decreases s.len(),
{
    if s.len() > 0 && is_ws(s.last()) {
        lemma_trim_end_le_len(s.drop_last());
    }
}

/// The content bounds hold for every line.
pub proof fn lemma_line_bounds(s: Seq<char>)
    ensures
        0 <= line_indent(s) <= line_inner_end(s) <= s.len(),
{
    lemma_line_indent_le_len(s);
    let deindented = s.skip(line_indent(s));
    lemma_tc_cut_bounds(deindented, 0);
    lemma_trim_end_le_len(deindented.take(tc_cut(deindented, 0)));
}

/// One source line with the bounds of its significant content: the bytes
/// after the indent and before trailing spaces and end-of-line comments.
#[derive(Debug, Clone)]
pub struct Line {
    pub content: String,
    /// Number of leading spaces and tabs
    pub indent: usize,
    /// One past the end of the real content
    /// (excluding trailing spaces and comments)
    pub inner_end: usize,
}

impl View for Line {
    type V = Seq<char>;

    open spec fn view(&self) -> Seq<char> {
        self.content@
    }
}

impl Line {
    /// The fields always agree with the content.
    pub open spec fn wf(self) -> bool {
        &&& self.indent == line_indent(self.content@)
        &&& self.inner_end == line_inner_end(self.content@)
    }

    pub fn new(content: String) -> (r: Line)
        ensures
            r@ == content@,
            r.wf(),
    {
        let n = content.as_str().unicode_len();
        let mut indent: usize = 0;
        proof {
            assert(content@.skip(0) =~= content@);
        }
        loop
            invariant_except_break
                0 <= indent <= n,
                n == content@.len(),
                line_indent(content@) == indent + line_indent(content@.skip(indent as int)),
            ensures
                0 <= indent <= n,
                n == content@.len(),
                line_indent(content@) == indent,
            decreases n - indent,
        {
            if indent >= n {
                proof {
                    assert(content@.skip(n as int).len() == 0);
                }
                break ;
            }
            proof {
                assert(content@.skip(indent as int)[0] == content@[indent as int]);
            }
            let c = content.as_str().get_char(indent);
            if !(c == ' ' || c == '\t') {
                break ;
            }
            proof {
                assert(content@.skip(indent as int).drop_first() =~= content@.skip(indent + 1));
            }
            indent += 1;
        }
        proof {
            lemma_line_bounds(content@);
        }
        let deindented = content.as_str().substring_char(indent, n);
        let trimmed = trim_comments(deindented);
        let tlen = trimmed.unicode_len();
        let mut e = tlen;
        let ghost tv = trimmed@;
        proof {
            assert(tv.take(tlen as int) =~= tv);
        }
        loop
            invariant_except_break
                0 <= e <= tlen,
                tlen == tv.len(),
                tv == trimmed@,
                trim_end_len(tv) == trim_end_len(tv.take(e as int)),
            ensures
                0 <= e <= tlen,
                trim_end_len(tv) == e,
            decreases e,
        {
            if e == 0 {
                proof {
                    assert(tv.take(0).len() == 0);
                }
                break ;
            }
            proof {
                assert(tv.take(e as int).last() == tv[e - 1]);
                assert(tv.take(e as int).drop_last() =~= tv.take(e - 1));
            }
            let c = trimmed.get_char(e - 1);
            if !crate::chars::char_is_whitespace(c) {
                proof {
                    assert(trim_end_len(tv.take(e as int)) == e);
                }
                break ;
            }
            e -= 1;
        }
        proof {
            assert(tv == content@.skip(indent as int).take(
                tc_cut(content@.skip(indent as int), 0),
            ));
        }
        let inner_end = e + indent;
        Line { content, indent, inner_end }
    }

    pub fn content(&self) -> (r: &str)
        ensures
            r@ == self@,
    {
        self.content.as_str()
    }

    /// The significant part of the line: indent, trailing whitespace and
    /// end-of-line comments dropped.
    pub fn inner(&self) -> (r: &str)
        requires
            self.wf(),
        ensures
            r@ == self@.subrange(line_indent(self@), line_inner_end(self@)),
    {
        proof {
            lemma_line_bounds(self@);
        }
        self.content.as_str().substring_char(self.indent, self.inner_end)
    }

    /// Whether the significant part starts with the given string
    pub fn starts_with(&self, s: &str) -> (r: bool)
        requires
            self.wf(),
        ensures
            r == is_prefix_of(s@, self@.subrange(line_indent(self@), line_inner_end(self@))),
    {
        let inner = self.inner();
        let r = str_starts_with_from(inner, s, 0);
        proof {
            assert(inner@.skip(0) =~= inner@);
        }
        r
    }

    /// Whether the significant part ends with the given string
    pub fn ends_with(&self, s: &str) -> (r: bool)
        requires
            self.wf(),
        ensures
            r == is_suffix_of(s@, self@.subrange(line_indent(self@), line_inner_end(self@))),
    {
        let inner = self.inner();
        let ilen = inner.unicode_len();
        let slen = s.unicode_len();
        if slen > ilen {
            return false;
        }
        let r = str_starts_with_from(inner, s, ilen - slen);
        proof {
            if r {
                assert(inner@.skip(ilen - slen).subrange(0, slen as int) =~= inner@.subrange(
                    ilen - slen,
                    ilen as int,
                ));
            } else {
                assert(inner@.skip(ilen - slen).subrange(0, slen as int) =~= inner@.subrange(
                    ilen - slen,
                    ilen as int,
                ));
            }
        }
        r
    }

    pub fn indent(&self) -> (r: usize)
        ensures
            r == self.spec_indent(),
    {
        self.indent
    }

    /// The indent, as the field holds it.
    pub open spec fn spec_indent(self) -> usize {
        self.indent
    }

    pub fn into_content(self) -> (r: String)
        ensures
            r@ == self@,
    {
        self.content
    }

    pub fn is_empty(&self) -> (r: bool)
        requires
            self.wf(),
        ensures
            r == line_is_empty(self@),
    {
        let n = self.content.as_str().unicode_len();
        let mut i: usize = 0;
        while i < n
            invariant
                0 <= i <= n,
                n == self@.len(),
                forall|j: int| 0 <= j < i ==> is_ws(#[trigger] self@[j]),
            decreases n - i,
        {
            if !crate::chars::char_is_whitespace(self.content.as_str().get_char(i)) {
                return false;
            }
            i += 1;
        }
        true
    }

    pub fn is_comment_or_attribute(&self) -> (r: bool)
        requires
            self.wf(),
        ensures
            r == spec_comment_or_attribute(self@),
    {
        proof {
            reveal_strlit("#");
            reveal_strlit("@");
            lemma_line_bounds(self@);
        }
        self.indent == self.inner_end || self.starts_with("#") || self.starts_with("@")
    }

    pub fn is_opening(&self) -> (r: bool)
        requires
            self.wf(),
        ensures
            r == ({
                let inner = self@.subrange(line_indent(self@), line_inner_end(self@));
                is_suffix_of("{"@, inner) || is_suffix_of("("@, inner)
            }),
    {
        self.ends_with("{") || self.ends_with("(")
    }

    pub fn is_closing(&self) -> (r: bool)
        requires
            self.wf(),
        ensures
            r == ({
                let inner = self@.subrange(line_indent(self@), line_inner_end(self@));
                is_prefix_of("}"@, inner) || is_prefix_of(")"@, inner) || is_suffix_of(","@, inner)
            }),
    {
        self.starts_with("}") || self.starts_with(")") || self.ends_with(",")
    }

    /// Whether the line may extend a block whose base indent is given: it
    /// is either at least as deep, or blank.
    pub fn can_extend(&self, indent: usize) -> (r: bool)
        requires
            self.wf(),
        ensures
            r == (self.spec_indent() >= indent || line_is_empty(self@)),
    {
        self.indent >= indent || self.is_empty()
    }

    /// Returns true if the line is empty, a comment, a doc comment,
    /// an attribute or an annotation.
    ///
    /// Those lines must be ignored when sorting
    pub fn exclude_from_sort(&self) -> (r: bool)
        requires
            self.wf(),
        ensures
            r == (line_is_empty(self@) || spec_comment_or_attribute(self@)),
    {
        self.is_empty() || self.is_comment_or_attribute()
    }
}

/// The line holds only whitespace.
pub open spec fn line_is_empty(s: Seq<char>) -> bool {
    forall|j: int| 0 <= j < s.len() ==> is_ws(#[trigger] s[j])
}

/// The line holds no content, or starts a comment in some languages, an
/// attribute in others, or an annotation.
pub open spec fn spec_comment_or_attribute(s: Seq<char>) -> bool {
    let inner = s.subrange(line_indent(s), line_inner_end(s));
    ||| line_indent(s) == line_inner_end(s)
    ||| is_prefix_of("#"@, inner)
    ||| is_prefix_of("@"@, inner)
}

/// `p` is a suffix of `s`.
pub open spec fn is_suffix_of(p: Seq<char>, s: Seq<char>) -> bool {
    p.len() <= s.len() && s.subrange(s.len() - p.len(), s.len() as int) == p
}

} // verus!
