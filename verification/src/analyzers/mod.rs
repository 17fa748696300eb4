use vstd::prelude::*;
use vstd::string::StrSliceExecFns;

pub mod java;
pub mod javascript;
pub mod rust;

use crate::error::CsResult;
use crate::loc::LocV;
use crate::loc_list::LocList;
use crate::chars::str_eq;

verus! {

broadcast use vstd::string::group_string_axioms;

/// Where the line starting at `start` ends: one past its newline, or the
/// end of the text.
pub open spec fn line_end(s: Seq<char>, start: int) -> int
    decreases s.len() - start,
{
    if start < 0 || start >= s.len() {
        start
    } else if s[start] == '\n' {
        start + 1
    } else {
        line_end(s, start + 1)
    }
}

/// A line reaches past its start and at most to the end of the text.
pub proof fn lemma_line_end_bounds(s: Seq<char>, start: int)
    requires
        0 <= start < s.len(),
    ensures
        start < line_end(s, start) <= s.len(),
    decreases s.len() - start,
{
    if s[start] != '\n' {
        if start + 1 < s.len() {
            lemma_line_end_bounds(s, start + 1);
        } else {
            assert(line_end(s, start + 1) == start + 1);
        }
    }
}

/// The number of leading whitespace characters: what `trim_start` drops.
pub open spec fn ws_prefix_len(s: Seq<char>) -> int
    decreases s.len(),
{
    if s.len() == 0 || !crate::chars::is_ws(s[0]) {
        0
    } else {
        1 + ws_prefix_len(s.drop_first())
    }
}

/// The whitespace prefix is a prefix.
pub proof fn lemma_ws_prefix_le_len(s: Seq<char>)
    ensures
        0 <= ws_prefix_len(s) <= s.len(),
        forall|i: int| 0 <= i < ws_prefix_len(s) ==> crate::chars::is_ws(#[trigger] s[i]),
        ws_prefix_len(s) < s.len() ==> !crate::chars::is_ws(s[ws_prefix_len(s)]),
    decreases s.len(),
{
    if s.len() > 0 && crate::chars::is_ws(s[0]) {
        lemma_ws_prefix_le_len(s.drop_first());
        assert forall|i: int| 0 <= i < ws_prefix_len(s) implies crate::chars::is_ws(
            #[trigger] s[i],
        ) by {
            if i > 0 {
                assert(s.drop_first()[i - 1] == s[i]);
            }
        }
        if ws_prefix_len(s) < s.len() {
            assert(s.drop_first()[ws_prefix_len(s) - 1] == s[ws_prefix_len(s)]);
        }
    }
}

/// Count the leading whitespace characters of a line.
pub(crate) fn find_indent(line: &Vec<char>) -> (r: usize)
    ensures
        r == ws_prefix_len(line@),
{
    let n = line.len();
    let mut i: usize = 0;
    proof {
        assert(line@.skip(0) =~= line@);
    }
    while i < n
        invariant
            i <= n,
            n == line@.len(),
            ws_prefix_len(line@) == i + ws_prefix_len(line@.skip(i as int)),
        decreases n - i,
    {
        proof {
            assert(line@.skip(i as int)[0] == line@[i as int]);
        }
        if !crate::chars::char_is_whitespace(line[i]) {
            return i;
        }
        proof {
            assert(line@.skip(i as int).drop_first() =~= line@.skip(i + 1));
        }
        i += 1;
    }
    proof {
        assert(line@.skip(n as int).len() == 0);
    }
    n
}

/// Find one past the end of the line starting at `pos`.
pub(crate) fn find_line_end(cs: &Vec<char>, pos: usize) -> (r: usize)
    requires
        pos < cs@.len(),
    ensures
        r == line_end(cs@, pos as int),
        pos < r <= cs@.len(),
{
    let n = cs.len();
    let mut i = pos;
    while i < n
        invariant
            pos <= i <= n,
            n == cs@.len(),
            line_end(cs@, pos as int) == line_end(cs@, i as int),
            forall|j: int| pos <= j < i ==> cs@[j] != '\n',
        decreases n - i,
    {
        if cs[i] == '\n' {
            return i + 1;
        }
        i += 1;
    }
    n
}

/// The language syntax to use for analyzing the code
#[derive(Debug, Clone, Copy, PartialEq, Eq, Structural)]
pub enum Language {
    C,
    Java,
    Javascript,
    Rust,
    Zig,
}

impl Language {
    /// Pick the language from a file extension, e.g. "rs" or "java".
    pub fn detect(ext: &str) -> (r: Option<Language>)
        ensures
            ext@ == "rs"@ ==> r == Some(Language::Rust),
            ext@ == "java"@ ==> r == Some(Language::Java),
            ext@ == "js"@ ==> r == Some(Language::Javascript),
            ext@ != "rs"@ && ext@ != "java"@ && ext@ != "js"@ ==> r is None,
    {
        proof {
            reveal_strlit("rs");
            reveal_strlit("java");
            reveal_strlit("js");
        }
        assert("rs"@ != "java"@ && "js"@ != "java"@) by {
            assert("rs"@.len() == 2);
            assert("js"@.len() == 2);
            assert("java"@.len() == 4);
        }
        assert("js"@ != "rs"@) by {
            assert("js"@[0] == 'j');
            assert("rs"@[0] == 'r');
        }
        if str_eq(ext, "rs") {
            Some(Language::Rust)
        } else if str_eq(ext, "java") {
            Some(Language::Java)
        } else if str_eq(ext, "js") {
            Some(Language::Javascript)
        } else {
            None
        }
    }

    pub fn analyzer(self) -> (r: Analyzer)
        ensures
            r == self.spec_analyzer(),
    {
        match self {
            Self::C => Analyzer::Rust,  // close enough to be useful
            Self::Java => Analyzer::Java,
            Self::Javascript => Analyzer::Javascript,
            Self::Rust => Analyzer::Rust,
            Self::Zig => Analyzer::Rust,  // close enough to be useful
        }
    }

    pub open spec fn spec_analyzer(self) -> Analyzer {
        match self {
            Language::Java => Analyzer::Java,
            Language::Javascript => Analyzer::Javascript,
            _ => Analyzer::Rust,
        }
    }
}

#[derive(Debug, Clone, Copy, PartialEq, Eq, Structural)]
pub enum Analyzer {
    Java,
    Javascript,
    /// Rust, C and Zig are analyzed the same way
    Rust,
}

impl Analyzer {
    /// Analyze a whole source text, line by line.
    pub fn read(&self, s: &str) -> (r: CsResult<LocList>)
        ensures
            res_view(r) == self.spec_read(s@),
            r matches Ok(ll) ==> ll.wf(),
    {
        match self {
            Self::Java => java::read(s),
            Self::Javascript => javascript::read(s),
            Self::Rust => rust::read(s),
        }
    }

    /// What analyzing a text in this profile yields.
    pub open spec fn spec_read(self, s: Seq<char>) -> Result<Seq<LocV>, crate::error::CsError> {
        match self {
            Analyzer::Java => java::spec_read(s),
            Analyzer::Javascript => javascript::spec_read(s),
            Analyzer::Rust => rust::spec_read(s),
        }
    }
}

/// The abstract value of an analysis result.
pub open spec fn res_view(r: CsResult<LocList>) -> Result<Seq<LocV>, crate::error::CsError> {
    match r {
        Ok(ll) => Ok(ll@),
        Err(e) => Err(e),
    }
}

} // verus!
