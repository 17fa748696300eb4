use vstd::prelude::*;

use crate::error::CsError;
use crate::error::CsResult;

verus! {

/// The bracket characters the trackers care about.
pub open spec fn is_brace(c: char) -> bool {
    c == '{' || c == '}' || c == '[' || c == ']' || c == '(' || c == ')'
}

/// Brackets that open a nesting level.
pub open spec fn is_opening_brace(c: char) -> bool {
    c == '(' || c == '[' || c == '{'
}

/// Brackets that close a nesting level.
pub open spec fn is_closing_brace(c: char) -> bool {
    c == ')' || c == ']' || c == '}'
}

#[verifier::when_used_as_spec(is_closing_brace)]
pub fn char_is_closing_brace(c: char) -> (r: bool)
    ensures
        r == is_closing_brace(c),
{
    match c {
        ')' | ']' | '}' => true,
        _ => false,
    }
}

/// The opener a closing bracket must match.
pub open spec fn opener_of(c: char) -> char {
    if c == ')' {
        '('
    } else if c == ']' {
        '['
    } else {
        '{'
    }
}

#[verifier::when_used_as_spec(is_brace)]
pub fn char_is_brace(c: char) -> (r: bool)
    ensures
        r == is_brace(c),
{
    match c {
        '{' | '}' | '[' | ']' | '(' | ')' => true,
        _ => false,
    }
}

/// What pushing a bracket does to the stack of open brackets: an opener is
/// stacked, a closer pops the stack when its top is the matching opener and
/// is refused otherwise.
pub open spec fn spec_push(s: Seq<char>, brace: char) -> Result<Seq<char>, CsError> {
    if is_opening_brace(brace) {
        Ok(s.push(brace))
    } else if s.len() > 0 && s.last() == opener_of(brace) {
        Ok(s.drop_last())
    } else {
        Err(CsError::UnexpectedClosingBrace(brace))
    }
}

/// A stack of the currently open brackets
#[derive(Debug, Clone)]
pub struct BraceStack {
    pub braces: Vec<char>,
}

impl BraceStack {
    pub fn new() -> (r: BraceStack)
        ensures
            r.braces@ =~= Seq::<char>::empty(),
    {
        BraceStack { braces: Vec::new() }
    }

    /// Track one bracket. A closing bracket that does not match the top of
    /// the stack is reported as `UnexpectedClosingBrace`; the mismatched top
    /// is consumed either way, as the callers abort on the error.
    pub fn push(&mut self, brace: char) -> (r: CsResult<()>)
        requires
            is_brace(brace),
        ensures
            match spec_push(old(self).braces@, brace) {
                Ok(s2) => r is Ok && final (self).braces@ == s2,
                Err(e) => r == CsResult::<()>::Err(e) && final (self).braces@ == (
                if old(self).braces@.len() > 0 {
                    old(self).braces@.drop_last()
                } else {
                    old(self).braces@
                }),
            },
    {
        match brace {
            '(' | '[' | '{' => {
                self.braces.push(brace);
            },
            ')' => {
                match self.braces.pop() {
                    Some('(') => {},
                    _ => {
                        return Err(CsError::UnexpectedClosingBrace(brace));
                    },
                }
            },
            ']' => {
                match self.braces.pop() {
                    Some('[') => {},
                    _ => {
                        return Err(CsError::UnexpectedClosingBrace(brace));
                    },
                }
            },
            _ => {
                match self.braces.pop() {
                    Some('{') => {},
                    _ => {
                        return Err(CsError::UnexpectedClosingBrace(brace));
                    },
                }
            },
        }
        Ok(())
    }

    pub fn depth(&self) -> (r: usize)
        ensures
            r == self.braces@.len(),
    {
        self.braces.len()
    }

    /// Whether the given opener is anywhere on the stack.
    pub fn is_in(&self, brace: char) -> (r: bool)
        ensures
            r == self.braces@.contains(brace),
    {
        let n = self.braces.len();
        let mut i: usize = 0;
        while i < n
            invariant
                i <= n,
                n == self.braces@.len(),
                forall|j: int| 0 <= j < i ==> self.braces@[j] != brace,
            decreases n - i,
        {
            if self.braces[i] == brace {
                return true;
            }
            i += 1;
        }
        false
    }
}

} // verus!
