use vstd::prelude::*;

use crate::balanced::Balanced;
use crate::balanced::BalancedV;
use crate::brace_stack::char_is_brace;
use crate::brace_stack::is_brace;
use crate::chars::chars_of_str;
use crate::chars::string_from_chars;
use crate::languages::Language;
use crate::languages::braces_are_balanced;
use crate::languages::spec_braces_balanced;

verus! {

/// The lexical state of the balance scan
#[derive(Debug, Clone, Copy, PartialEq, Eq, Structural)]
pub enum CbState {
    Normal,
    DoubleQuotedString,
    /// inside a raw string whose opener had this many '#'
    RawString(usize),
    LineComment,
    /// in a block comment, before a star
    BlockComment,
    /// in a block comment, right after a star
    BlockCommentStar,
}

/// The whole state of the balance scan
pub ghost struct CbSt {
    pub state: CbState,
    pub last_antislash: bool,
    pub last_quote: bool,
    pub sort_key: Seq<char>,
    pub braces: Seq<char>,
    pub last_sig: Option<char>,
}

/// The number of consecutive '#' just before position `i`, never reaching
/// the first character.
pub open spec fn cb_count_sharps(s: Seq<char>, i: int) -> int
    decreases i,
{
    if i - 1 > 0 && 0 <= i - 1 < s.len() && s[i - 1] == '#' {
        1 + cb_count_sharps(s, i - 1)
    } else {
        0
    }
}

/// The sharps lie strictly inside the text before the quote.
pub proof fn lemma_cb_sharps_bound(s: Seq<char>, i: int)
    ensures
        0 <= cb_count_sharps(s, i),
        i >= 1 ==> cb_count_sharps(s, i) <= i - 1,
    decreases i,
{
    if i - 1 > 0 && 0 <= i - 1 < s.len() && s[i - 1] == '#' {
        lemma_cb_sharps_bound(s, i - 1);
    }
}

/// Whether a raw string with `k` sharps closes at the quote at `i`.
pub open spec fn cb_raw_closes(s: Seq<char>, i: int, k: int) -> bool {
    i + 1 + k <= s.len() && forall|j: int| i + 1 <= j < i + 1 + k ==> #[trigger] s[j] == '#'
}

/// One character of the balance scan: strings (raw ones included) and
/// comments are skipped over, bracket characters are collected for the
/// final nesting check, and a single quote shields the next character.
pub open spec fn cb_step(st: CbSt, s: Seq<char>, i: int) -> CbSt {
    let c = s[i];
    match st.state {
        CbState::Normal => {
            if c == '"' && !st.last_antislash && !st.last_quote {
                let k = cb_count_sharps(s, i);
                if k > 0 && s[i - k - 1] == 'r' {
                    CbSt { state: CbState::RawString(k as usize), ..st }
                } else {
                    CbSt { state: CbState::DoubleQuotedString, ..st }
                }
            } else if c == '/' && !st.last_antislash && !st.last_quote {
                if i + 1 < s.len() && s[i + 1] == '/' {
                    CbSt { state: CbState::LineComment, ..st }
                } else if i + 1 < s.len() && s[i + 1] == '*' {
                    CbSt { state: CbState::BlockComment, ..st }
                } else {
                    st
                }
            } else if is_brace(c) && !st.last_antislash && !st.last_quote {
                CbSt {
                    braces: st.braces.push(c),
                    last_sig: Some(c),
                    sort_key: st.sort_key.push(c),
                    ..st
                }
            } else if (c == ' ' || c == '\t' || c == '\n' || c == '\r') && !st.last_antislash
                && !st.last_quote {
                st
            } else if c == '\\' && !st.last_antislash {
                CbSt { last_sig: Some(c), last_antislash: true, last_quote: false, ..st }
            } else {
                CbSt {
                    sort_key: st.sort_key.push(c),
                    last_sig: Some(c),
                    last_antislash: false,
                    last_quote: c == '\'',
                    ..st
                }
            }
        },
        CbState::DoubleQuotedString => {
            if c == '"' && !st.last_antislash {
                CbSt { state: CbState::Normal, ..st }
            } else {
                CbSt { sort_key: st.sort_key.push(c), last_antislash: c == '\\', ..st }
            }
        },
        CbState::RawString(k) => {
            if c == '"' {
                if cb_raw_closes(s, i, k as int) {
                    CbSt { state: CbState::Normal, ..st }
                } else {
                    st
                }
            } else {
                CbSt { sort_key: st.sort_key.push(c), ..st }
            }
        },
        CbState::LineComment => {
            if c == '\n' {
                CbSt { state: CbState::Normal, ..st }
            } else {
                st
            }
        },
        CbState::BlockComment => {
            if c == '*' {
                CbSt { state: CbState::BlockCommentStar, ..st }
            } else {
                st
            }
        },
        CbState::BlockCommentStar => {
            if c == '/' {
                CbSt { state: CbState::Normal, ..st }
            } else {
                CbSt { state: CbState::BlockComment, ..st }
            }
        },
    }
}

/// The scan state after the first `i` characters.
pub open spec fn cb_scan(s: Seq<char>, i: int) -> CbSt
    decreases i,
{
    if i <= 0 {
        CbSt {
            state: CbState::Normal,
            last_antislash: false,
            last_quote: false,
            sort_key: Seq::empty(),
            braces: Seq::empty(),
            last_sig: None,
        }
    } else {
        cb_step(cb_scan(s, i - 1), s, i - 1)
    }
}

/// What the balance check yields: nothing when the text ends inside a
/// string, a raw string or a block comment or its brackets do not nest;
/// otherwise the collected sort key (with a leading '_' demoted to '~', so
/// that fallback match arms sort last), the last significant character,
/// and whether the code is an attribute.
pub open spec fn spec_check_balanced(s: Seq<char>) -> Option<BalancedV> {
    let st = cb_scan(s, s.len() as int);
    if st.state != CbState::Normal && st.state != CbState::LineComment {
        None
    } else if !spec_braces_balanced(st.braces) {
        None
    } else {
        let sk = if st.sort_key.len() >= 1 && st.sort_key[0] == '_' {
            st.sort_key.update(0, '~')
        } else {
            st.sort_key
        };
        Some(
            BalancedV {
                sort_key: sk,
                is_annotation: sk.len() >= 1 && sk[0] == '#',
                last_significant_char: st.last_sig,
                language: Language::Rust,
            },
        )
    }
}

/// Whether the raw string with `k` sharps closes at the quote at `i`.
fn raw_closes_at(cs: &Vec<char>, i: usize, k: usize) -> (r: bool)
    requires
        i < cs@.len(),
    ensures
        r == cb_raw_closes(cs@, i as int, k as int),
{
    let n = cs.len();
    if k > n - 1 - i {
        return false;
    }
    let mut j: usize = 0;
    while j < k
        invariant
            j <= k,
            i < n,
            k <= n - 1 - i,
            n == cs@.len(),
            forall|m: int| i + 1 <= m < i + 1 + j ==> #[trigger] cs@[m] == '#',
        decreases k - j,
    {
        if cs[i + 1 + j] != '#' {
            return false;
        }
        j += 1;
    }
    true
}

/// Return a `Balanced` when the given code is balanced according to
/// Rust-like syntax.
pub fn check_balanced(s: &str) -> (r: Option<Balanced>)
    ensures
        crate::languages::cb_view(r) == spec_check_balanced(s@),
{
    let cs = chars_of_str(s);
    let n = cs.len();
    let mut state = CbState::Normal;
    let mut last_antislash = false;
    let mut last_quote = false;
    let mut sort_key: Vec<char> = Vec::new();
    let mut braces: Vec<char> = Vec::new();
    let mut last_sig: Option<char> = None;
    let mut i: usize = 0;
    proof {
        assert(sort_key@ =~= cb_scan(s@, 0).sort_key);
        assert(braces@ =~= cb_scan(s@, 0).braces);
    }
    while i < n
        invariant
            i <= n,
            n == s@.len(),
            cs@ == s@,
            state == cb_scan(s@, i as int).state,
            last_antislash == cb_scan(s@, i as int).last_antislash,
            last_quote == cb_scan(s@, i as int).last_quote,
            sort_key@ == cb_scan(s@, i as int).sort_key,
            braces@ == cb_scan(s@, i as int).braces,
            last_sig == cb_scan(s@, i as int).last_sig,
            forall|j: int| 0 <= j < braces@.len() ==> is_brace(#[trigger] braces@[j]),
        decreases n - i,
    {
        let c = cs[i];
        match state {
            CbState::Normal => {
                if c == '"' && !last_antislash && !last_quote {
                    let mut k: usize = 0;
                    while k + 1 < i && i - (k + 1) > 0 && cs[i - (k + 1)] == '#'
                        invariant
                            k <= i,
                            i < n,
                            n == cs@.len(),
                            cs@ == s@,
                            cb_count_sharps(s@, i as int) == k + cb_count_sharps(s@, i - k),
                        decreases i - k,
                    {
                        k += 1;
                    }
                    proof {
                        assert(cb_count_sharps(s@, i - k) == 0);
                        assert(cb_count_sharps(s@, i as int) == k);
                        lemma_cb_sharps_bound(s@, i as int);
                    }
                    if k > 0 && cs[i - k - 1] == 'r' {
                        state = CbState::RawString(k);
                    } else {
                        state = CbState::DoubleQuotedString;
                    }
                } else if c == '/' && !last_antislash && !last_quote {
                    if i + 1 < n && cs[i + 1] == '/' {
                        state = CbState::LineComment;
                    } else if i + 1 < n && cs[i + 1] == '*' {
                        state = CbState::BlockComment;
                    }
                } else if char_is_brace(c) && !last_antislash && !last_quote {
                    braces.push(c);
                    last_sig = Some(c);
                    sort_key.push(c);
                } else if (c == ' ' || c == '\t' || c == '\n' || c == '\r') && !last_antislash
                    && !last_quote {
                    // insignificant whitespace
                } else if c == '\\' && !last_antislash {
                    last_sig = Some(c);
                    last_antislash = true;
                    last_quote = false;
                } else {
                    sort_key.push(c);
                    last_sig = Some(c);
                    last_antislash = false;
                    last_quote = c == '\'';
                }
            },
            CbState::DoubleQuotedString => {
                if c == '"' && !last_antislash {
                    state = CbState::Normal;
                } else {
                    sort_key.push(c);
                    last_antislash = c == '\\';
                }
            },
            CbState::RawString(k) => {
                if c == '"' {
                    if raw_closes_at(&cs, i, k) {
                        state = CbState::Normal;
                    }
                } else {
                    sort_key.push(c);
                }
            },
            CbState::LineComment => {
                if c == '\n' {
                    state = CbState::Normal;
                }
            },
            CbState::BlockComment => {
                if c == '*' {
                    state = CbState::BlockCommentStar;
                }
            },
            CbState::BlockCommentStar => {
                if c == '/' {
                    state = CbState::Normal;
                } else {
                    state = CbState::BlockComment;
                }
            },
        }
        proof {
            let stn = cb_scan(s@, i + 1);
            assert(stn == cb_step(cb_scan(s@, i as int), s@, i as int));
            assert(state == stn.state);
            assert(last_antislash == stn.last_antislash);
            assert(last_quote == stn.last_quote);
            assert(sort_key@ == stn.sort_key);
            assert(braces@ == stn.braces);
            assert(last_sig == stn.last_sig);
        }
        i += 1;
    }
    match state {
        CbState::Normal | CbState::LineComment => {},
        _ => {
            return None;
        },
    }
    if !braces_are_balanced(&braces) {
        return None;
    }
    if sort_key.len() >= 1 && sort_key[0] == '_' {
        // A block starting with '_' in Rust should be sorted last
        // (it's probably the fallback case in a match)
        let ghost sk0 = sort_key@;
        let _ = sort_key.remove(0);
        sort_key.insert(0, '~');
        proof {
            assert(sort_key@ =~= sk0.update(0, '~'));
        }
    }
    let is_annotation = sort_key.len() >= 1 && sort_key[0] == '#';
    Some(
        Balanced {
            sort_key: string_from_chars(sort_key.as_slice()),
            is_annotation,
            last_significant_char: last_sig,
            language: Language::Rust,
        },
    )
}

} // verus!
