use vstd::prelude::*;

pub mod java;
pub mod javascript;
pub mod rust;

use crate::balanced::Balanced;
use crate::balanced::BalancedV;
use crate::brace_stack::is_brace;
use crate::brace_stack::is_opening_brace;
use crate::brace_stack::opener_of;
use crate::chars::str_eq;

verus! {

/// The language syntax to use for checking the balance of the code
#[derive(Debug, Clone, Copy, PartialEq, Eq, Structural)]
pub enum Language {
    /// Should also work for C, Zig, and probably some other ones
    Rust,
    /// It should work, but I didn't do much Java in recent years
    Java,
    /// Should also work for TypeScript
    JavaScript,
}

/// The abstract value of a balance check.
pub open spec fn cb_view(r: Option<Balanced>) -> Option<BalancedV> {
    match r {
        Some(b) => Some(b@),
        None => None,
    }
}

impl Language {
    /// Return a `Balanced` when the given code is balanced according to
    /// the language's syntax.
    pub fn check_balanced(&self, s: &str) -> (r: Option<Balanced>)
        ensures
            cb_view(r) == self.spec_check_balanced(s@),
    {
        match self {
            Language::Rust => rust::check_balanced(s),
            Language::Java => java::check_balanced(s),
            Language::JavaScript => javascript::check_balanced(s),
        }
    }

    /// What the balance check yields for each language.
    pub open spec fn spec_check_balanced(self, s: Seq<char>) -> Option<BalancedV> {
        match self {
            Language::Rust => rust::spec_check_balanced(s),
            Language::Java => java::spec_check_balanced(s),
            Language::JavaScript => javascript::spec_check_balanced(s),
        }
    }

    /// Pick the language from a file extension, e.g. "rs" or "java".
    pub fn detect(ext: &str) -> (r: Option<Language>)
        ensures
            ext@ == "rs"@ ==> r == Some(Language::Rust),
            ext@ == "java"@ ==> r == Some(Language::Java),
            ext@ == "js"@ ==> r == Some(Language::JavaScript),
            ext@ != "rs"@ && ext@ != "java"@ && ext@ != "js"@ ==> r is None,
    {
        proof {
            reveal_strlit("rs");
            reveal_strlit("java");
            reveal_strlit("js");
        }
        assert("rs"@ != "java"@ && "js"@ != "java"@) by {
            assert("rs"@.len() == 2);
            assert("js"@.len() == 2);
            assert("java"@.len() == 4);
        }
        assert("js"@ != "rs"@) by {
            assert("js"@[0] == 'j');
            assert("rs"@[0] == 'r');
        }
        if str_eq(ext, "rs") {
            Some(Language::Rust)
        } else if str_eq(ext, "java") {
            Some(Language::Java)
        } else if str_eq(ext, "js") {
            Some(Language::JavaScript)
        } else {
            None
        }
    }
}

/// The stack of open brackets after folding `i` bracket characters, or
/// nothing once a closer failed to match.
pub open spec fn bb_fold(s: Seq<char>, i: int) -> Option<Seq<char>>
    decreases i,
{
    if i <= 0 {
        Some(Seq::empty())
    } else {
        match bb_fold(s, i - 1) {
            None => None,
            Some(st) => {
                let c = s[i - 1];
                if is_opening_brace(c) {
                    Some(st.push(c))
                } else if st.len() > 0 && st.last() == opener_of(c) {
                    Some(st.drop_last())
                } else {
                    None
                }
            },
        }
    }
}

/// A bracket string balances when it has even length, every closer matches
/// the latest opener, and nothing stays open.
pub open spec fn spec_braces_balanced(s: Seq<char>) -> bool {
    &&& s.len() % 2 == 0
    &&& bb_fold(s, s.len() as int) == Some(Seq::<char>::empty())
}

/// Check that the collected bracket characters nest correctly.
pub(crate) fn braces_are_balanced(braces: &Vec<char>) -> (r: bool)
    requires
        forall|i: int| 0 <= i < braces@.len() ==> is_brace(#[trigger] braces@[i]),
    ensures
        r == spec_braces_balanced(braces@),
{
    let len = braces.len();
    if len % 2 != 0 {
        return false;
    }
    let mut stack: Vec<char> = Vec::new();
    let mut i: usize = 0;
    proof {
        assert(bb_fold(braces@, 0) == Some(stack@));
        assert(stack@ =~= Seq::<char>::empty());
    }
    while i < len
        invariant
            i <= len,
            len == braces@.len(),
            len % 2 == 0,
            forall|j: int| 0 <= j < braces@.len() ==> is_brace(#[trigger] braces@[j]),
            bb_fold(braces@, i as int) == Some(stack@),
        decreases len - i,
    {
        let c = braces[i];
        match c {
            '(' | '[' | '{' => {
                stack.push(c);
            },
            _ => {
                match stack.pop() {
                    Some(top) => {
                        let expected = if c == ')' {
                            '('
                        } else if c == ']' {
                            '['
                        } else {
                            '{'
                        };
                        if top != expected {
                            proof {
                                lemma_bb_fold_none(braces@, i + 1, braces@.len() as int);
                            }
                            return false;
                        }
                    },
                    None => {
                        proof {
                            lemma_bb_fold_none(braces@, i + 1, braces@.len() as int);
                        }
                        return false;
                    },
                }
            },
        }
        i += 1;
    }
    let r = stack.is_empty();
    proof {
        if stack@.len() == 0 {
            assert(stack@ =~= Seq::<char>::empty());
        }
    }
    r
}

/// Once the fold fails it stays failed.
proof fn lemma_bb_fold_none(s: Seq<char>, i: int, j: int)
    requires
        bb_fold(s, i) is None,
        i <= j,
    ensures
        bb_fold(s, j) is None,
    decreases j - i,
{
    if i < j {
        lemma_bb_fold_none(s, i, j - 1);
    }
}

} // verus!
