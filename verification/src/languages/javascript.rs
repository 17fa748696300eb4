use vstd::prelude::*;

use crate::balanced::Balanced;
use crate::balanced::BalancedV;
use crate::brace_stack::char_is_brace;
use crate::brace_stack::is_brace;
use crate::chars::chars_of_str;
use crate::chars::string_from_chars;
use crate::languages::Language;
use crate::languages::braces_are_balanced;
use crate::languages::spec_braces_balanced;

verus! {

/// The lexical state of the balance scan
#[derive(Debug, Clone, Copy, PartialEq, Eq, Structural)]
pub enum CbState {
    Normal,
    SingleQuotedString,
    DoubleQuotedString,
    LineComment,
    /// in a block comment, before a star
    BlockComment,
    /// in a block comment, right after a star
    BlockCommentStar,
}

/// The whole state of the balance scan
pub ghost struct CbSt {
    pub state: CbState,
    pub last_antislash: bool,
    pub sort_key: Seq<char>,
    pub braces: Seq<char>,
    pub last_sig: Option<char>,
}

/// One character of the balance scan: strings and comments are skipped
/// over (string contents still reach the sort key), bracket characters are
/// collected for the final nesting check.
pub open spec fn cb_step(st: CbSt, s: Seq<char>, i: int) -> CbSt {
    let c = s[i];
    match st.state {
        CbState::Normal => {
            if c == '\'' && !st.last_antislash {
                CbSt { state: CbState::SingleQuotedString, ..st }
            } else if c == '"' && !st.last_antislash {
                CbSt { state: CbState::DoubleQuotedString, ..st }
            } else if c == '/' && !st.last_antislash {
                if i + 1 < s.len() && s[i + 1] == '/' {
                    CbSt { state: CbState::LineComment, ..st }
                } else if i + 1 < s.len() && s[i + 1] == '*' {
                    CbSt { state: CbState::BlockComment, ..st }
                } else {
                    st
                }
            } else if is_brace(c) && !st.last_antislash {
                CbSt {
                    braces: st.braces.push(c),
                    last_sig: Some(c),
                    sort_key: st.sort_key.push(c),
                    ..st
                }
            } else if (c == ' ' || c == '\t' || c == '\n' || c == '\r') && !st.last_antislash {
                st
            } else if c == '\\' && !st.last_antislash {
                CbSt { last_sig: Some(c), last_antislash: true, ..st }
            } else {
                CbSt {
                    sort_key: st.sort_key.push(c),
                    last_sig: Some(c),
                    last_antislash: false,
                    ..st
                }
            }
        },
        CbState::SingleQuotedString => {
            if c == '\'' && !st.last_antislash {
                CbSt { state: CbState::Normal, ..st }
            } else {
                CbSt { sort_key: st.sort_key.push(c), last_antislash: c == '\\', ..st }
            }
        },
        CbState::DoubleQuotedString => {
            if c == '"' && !st.last_antislash {
                CbSt { state: CbState::Normal, ..st }
            } else {
                CbSt { sort_key: st.sort_key.push(c), last_antislash: c == '\\', ..st }
            }
        },
        CbState::LineComment => {
            if c == '\n' {
                CbSt { state: CbState::Normal, ..st }
            } else {
                st
            }
        },
        CbState::BlockComment => {
            if c == '*' {
                CbSt { state: CbState::BlockCommentStar, ..st }
            } else {
                st
            }
        },
        CbState::BlockCommentStar => {
            if c == '/' {
                CbSt { state: CbState::Normal, ..st }
            } else {
                CbSt { state: CbState::BlockComment, ..st }
            }
        },
    }
}

/// The scan state after the first `i` characters.
pub open spec fn cb_scan(s: Seq<char>, i: int) -> CbSt
    decreases i,
{
    if i <= 0 {
        CbSt {
            state: CbState::Normal,
            last_antislash: false,
            sort_key: Seq::empty(),
            braces: Seq::empty(),
            last_sig: None,
        }
    } else {
        cb_step(cb_scan(s, i - 1), s, i - 1)
    }
}

/// What the balance check yields: nothing when the text ends inside a
/// string or block comment or its brackets do not nest; otherwise the
/// collected sort key, the last significant character, and the annotation
/// flag (none in this profile).
pub open spec fn spec_check_balanced(s: Seq<char>) -> Option<BalancedV> {
    let st = cb_scan(s, s.len() as int);
    if st.state != CbState::Normal && st.state != CbState::LineComment {
        None
    } else if !spec_braces_balanced(st.braces) {
        None
    } else {
        Some(
            BalancedV {
                sort_key: st.sort_key,
                is_annotation: false,
                last_significant_char: st.last_sig,
                language: Language::JavaScript,
            },
        )
    }
}

/// Return a `Balanced` when the given code is balanced according to
/// ECMAScript-like syntax.
pub fn check_balanced(s: &str) -> (r: Option<Balanced>)
    ensures
        crate::languages::cb_view(r) == spec_check_balanced(s@),
{
    let cs = chars_of_str(s);
    let n = cs.len();
    let mut state = CbState::Normal;
    let mut last_antislash = false;
    let mut sort_key: Vec<char> = Vec::new();
    let mut braces: Vec<char> = Vec::new();
    let mut last_sig: Option<char> = None;
    let mut i: usize = 0;
    proof {
        assert(sort_key@ =~= cb_scan(s@, 0).sort_key);
        assert(braces@ =~= cb_scan(s@, 0).braces);
    }
    while i < n
        invariant
            i <= n,
            n == s@.len(),
            cs@ == s@,
            state == cb_scan(s@, i as int).state,
            last_antislash == cb_scan(s@, i as int).last_antislash,
            sort_key@ == cb_scan(s@, i as int).sort_key,
            braces@ == cb_scan(s@, i as int).braces,
            last_sig == cb_scan(s@, i as int).last_sig,
            forall|j: int| 0 <= j < braces@.len() ==> is_brace(#[trigger] braces@[j]),
        decreases n - i,
    {
        let c = cs[i];
        match state {
            CbState::Normal => {
                if c == '\'' && !last_antislash {
                    state = CbState::SingleQuotedString;
                } else if c == '"' && !last_antislash {
                    state = CbState::DoubleQuotedString;
                } else if c == '/' && !last_antislash {
                    if i + 1 < n && cs[i + 1] == '/' {
                        state = CbState::LineComment;
                    } else if i + 1 < n && cs[i + 1] == '*' {
                        state = CbState::BlockComment;
                    }
                } else if char_is_brace(c) && !last_antislash {
                    braces.push(c);
                    last_sig = Some(c);
                    sort_key.push(c);
                } else if (c == ' ' || c == '\t' || c == '\n' || c == '\r') && !last_antislash {
                    // insignificant whitespace
                } else if c == '\\' && !last_antislash {
                    last_sig = Some(c);
                    last_antislash = true;
                } else {
                    sort_key.push(c);
                    last_sig = Some(c);
                    last_antislash = false;
                }
            },
            CbState::SingleQuotedString => {
                if c == '\'' && !last_antislash {
                    state = CbState::Normal;
                } else {
                    sort_key.push(c);
                    last_antislash = c == '\\';
                }
            },
            CbState::DoubleQuotedString => {
                if c == '"' && !last_antislash {
                    state = CbState::Normal;
                } else {
                    sort_key.push(c);
                    last_antislash = c == '\\';
                }
            },
            CbState::LineComment => {
                if c == '\n' {
                    state = CbState::Normal;
                }
            },
            CbState::BlockComment => {
                if c == '*' {
                    state = CbState::BlockCommentStar;
                }
            },
            CbState::BlockCommentStar => {
                if c == '/' {
                    state = CbState::Normal;
                } else {
                    state = CbState::BlockComment;
                }
            },
        }
        proof {
            let stn = cb_scan(s@, i + 1);
            assert(stn == cb_step(cb_scan(s@, i as int), s@, i as int));
            assert(state == stn.state);
            assert(last_antislash == stn.last_antislash);
            assert(sort_key@ == stn.sort_key);
            assert(braces@ == stn.braces);
            assert(last_sig == stn.last_sig);
        }
        i += 1;
    }
    match state {
        CbState::Normal | CbState::LineComment => {},
        _ => {
            return None;
        },
    }
    if !braces_are_balanced(&braces) {
        return None;
    }
    Some(
        Balanced {
            sort_key: string_from_chars(sort_key.as_slice()),
            is_annotation: false,
            last_significant_char: last_sig,
            language: Language::JavaScript,
        },
    )
}

} // verus!
