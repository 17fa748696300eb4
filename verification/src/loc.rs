use vstd::prelude::*;
use vstd::string::StrSliceExecFns;
use core::cmp::Ordering;

use crate::chars::is_prefix_of;
use crate::chars::is_ws;
use crate::chars::last_non_ws;
use crate::chars::str_last_non_ws;
use crate::chars::str_starts_with_from;
use crate::gifts::Gift;
use crate::gifts::GiftV;
use crate::gifts::Wish;
use crate::gifts::WishV;

verus! {

/// The ghost value of a `Loc`
pub ghost struct LocV {
    pub content: Seq<char>,
    pub sort_key: Seq<char>,
    pub indent: usize,
    pub start_depth: usize,
    pub end_depth: usize,
    pub is_annotation: bool,
    pub can_complete: bool,
    pub wishes: Seq<WishV>,
    pub gifts: Seq<GiftV>,
}

impl LocV {
    /// Either the depth at start, or the depth at end, whichever is smaller
    pub open spec fn min_depth(self) -> usize {
        if self.start_depth <= self.end_depth {
            self.start_depth
        } else {
            self.end_depth
        }
    }

    /// A line takes part in comparisons when it is not a decorator and its
    /// sort key is not empty.
    pub open spec fn is_sortable(self) -> bool {
        !self.is_annotation && self.sort_key.len() > 0
    }

    /// Whether the line holds nothing but whitespace
    pub open spec fn is_blank(self) -> bool {
        forall|i: int| self.indent <= i < self.content.len() ==> is_ws(#[trigger] self.content[i])
    }

    /// The leading `indent` characters are whitespace, and no more.
    pub open spec fn wf(self) -> bool {
        &&& self.indent <= self.content.len()
        &&& forall|i: int| 0 <= i < self.indent ==> is_ws(#[trigger] self.content[i])
    }
}

/// A Line of Code, analyzed.
///
/// `content` is the whole original line, ending newline included;
/// `sort_key` is the derived string used purely for ordering, with
/// insignificant whitespace and comments stripped.
#[derive(Debug, Clone)]
pub struct Loc {
    /// The whole content of the line, including the ending newline
    pub content: String,
    /// The key used for sorting, may be empty
    pub sort_key: String,
    /// number of leading whitespace characters
    pub indent: usize,
    /// The syntactic depth considered on the whole file, at start of line
    pub start_depth: usize,
    /// The syntactic depth considered on the whole file, at end of line
    pub end_depth: usize,
    /// Whether this line starts a java annotation, a rust attribute, etc.
    pub is_annotation: bool,
    /// Whether this line may end a complete block
    pub can_complete: bool,
    /// wishes needed after this loc
    pub wishes: Vec<Wish>,
    /// gifts not required by this loc
    pub gifts: Vec<Gift>,
}

impl View for Loc {
    type V = LocV;

    open spec fn view(&self) -> LocV {
        LocV {
            content: self.content@,
            sort_key: self.sort_key@,
            indent: self.indent,
            start_depth: self.start_depth,
            end_depth: self.end_depth,
            is_annotation: self.is_annotation,
            can_complete: self.can_complete,
            wishes: self.wishes@.map_values(|w: Wish| w@),
            gifts: self.gifts@.map_values(|g: Gift| g@),
        }
    }
}

impl Loc {
    /// Either the depth at start, or the depth at end, whichever is smaller
    pub fn min_depth(&self) -> (r: usize)
        ensures
            r == self@.min_depth(),
    {
        if self.start_depth <= self.end_depth {
            self.start_depth
        } else {
            self.end_depth
        }
    }

    /// Whether the deindented content starts with the given string
    pub fn starts_with(&self, s: &str) -> (r: bool)
        requires
            self@.wf(),
        ensures
            r == is_prefix_of(s@, self@.content.skip(self@.indent as int)),
    {
        str_starts_with_from(self.content.as_str(), s, self.indent)
    }

    /// the last character which is not a whitespace or part of a comment
    pub fn last_significant_char(&self) -> (r: Option<char>)
        ensures
            r == last_non_ws(self@.sort_key),
    {
        str_last_non_ws(self.sort_key.as_str())
    }

    pub fn is_blank(&self) -> (r: bool)
        ensures
            r == self@.is_blank(),
    {
        let len = self.content.as_str().unicode_len();
        if self.indent >= len {
            return true;
        }
        let mut i = self.indent;
        while i < len
            invariant
                self@.indent <= i <= len,
                len == self@.content.len(),
                forall|j: int| self@.indent <= j < i ==> is_ws(#[trigger] self@.content[j]),
            decreases len - i,
        {
            if !char_is_whitespace_here(self.content.as_str(), i) {
                return false;
            }
            i += 1;
        }
        true
    }

    pub fn is_sortable(&self) -> (r: bool)
        ensures
            r == self@.is_sortable(),
    {
        !self.is_annotation && !self.sort_key.as_str().is_empty()
    }
}

/// Two lines compare as their sort keys do, and nothing else is looked at.
impl PartialEq for Loc {
    fn eq(&self, other: &Self) -> (r: bool) {
        crate::chars::str_eq(self.sort_key.as_str(), other.sort_key.as_str())
    }
}

impl vstd::std_specs::cmp::PartialEqSpecImpl for Loc {
    open spec fn obeys_eq_spec() -> bool {
        true
    }

    open spec fn eq_spec(&self, other: &Loc) -> bool {
        self.sort_key@ == other.sort_key@
    }
}

impl PartialOrd for Loc {
    fn partial_cmp(&self, other: &Self) -> (r: Option<Ordering>) {
        Some(crate::chars::str_lex_cmp(self.sort_key.as_str(), other.sort_key.as_str()))
    }
}

impl vstd::std_specs::cmp::PartialOrdSpecImpl for Loc {
    open spec fn obeys_partial_cmp_spec() -> bool {
        true
    }

    open spec fn partial_cmp_spec(&self, other: &Loc) -> Option<Ordering> {
        Some(crate::chars::lex_cmp(self.sort_key@, other.sort_key@))
    }
}

/// Whether the character of `s` at position `i` is whitespace.
fn char_is_whitespace_here(s: &str, i: usize) -> (r: bool)
    requires
        i < s@.len(),
    ensures
        r == is_ws(s@[i as int]),
{
    crate::chars::char_is_whitespace(s.get_char(i))
}

} // verus!
