use vstd::prelude::*;
use vstd::string::StrSliceExecFns;

use crate::analyzers::find_indent;
use crate::analyzers::find_line_end;
use crate::analyzers::line_end;
use crate::analyzers::lemma_line_end_bounds;
use crate::analyzers::lemma_ws_prefix_le_len;
use crate::analyzers::res_view;
use crate::analyzers::ws_prefix_len;
use crate::brace_stack::BraceStack;
use crate::brace_stack::is_brace;
use crate::brace_stack::is_closing_brace;
use crate::brace_stack::char_is_closing_brace;
use crate::brace_stack::char_is_brace;
use crate::brace_stack::spec_push;
use crate::chars::chars_of_str;
use crate::chars::is_token_char;
use crate::chars::char_is_token_char;
use crate::chars::last_non_ws;
use crate::chars::string_from_chars;
use crate::chars::vec_last_non_ws;
use crate::error::CsError;
use crate::error::CsResult;
use crate::gifts::CharSet;
use crate::gifts::Gift;
use crate::gifts::GiftV;
use crate::gifts::Wish;
use crate::gifts::WishV;
use crate::loc::Loc;
use crate::loc::LocV;
use crate::loc_list::LocList;
use crate::loc_list::retire;
use crate::loc_list::retire_exec;
use crate::loc_list::wishes_view;

verus! {

/// The lexical state carried across characters and line boundaries
#[derive(Debug, Clone, Copy, PartialEq, Eq, Structural)]
pub enum ScanState {
    Normal,
    /// inside a character literal
    CharLit,
    /// inside a normal double-quoted string
    DoubleQuotedString,
    /// inside a raw string whose opener had this many '#'
    RawString(usize),
    /// inside a line comment, to the end of the line
    LineComment,
    /// inside a block comment, nested this deep below the outermost one
    BlockComment(usize),
}

/// The whole scanner state: the cross-line lexical state, plus the
/// accumulators of the line being scanned.
pub ghost struct RustSt {
    pub state: ScanState,
    pub last_antislash: bool,
    /// the depth an open decorator started at, while its brackets are open
    pub ann_depth: Option<usize>,
    pub braces: Seq<char>,
    pub sort_key: Seq<char>,
    pub token: Seq<char>,
    pub wishes: Seq<WishV>,
    pub gifts: Seq<GiftV>,
    pub error: Option<char>,
}

/// Characters that may retire a forward obligation.
pub open spec fn is_gift_char(c: char) -> bool {
    c == '(' || c == '{' || c == ';'
}

#[verifier::when_used_as_spec(is_gift_char)]
pub fn char_is_gift(c: char) -> (r: bool)
    ensures
        r == is_gift_char(c),
{
    match c {
        '(' | '{' | ';' => true,
        _ => false,
    }
}

/// What a keyword token calls for: after a `fn`, first a `(` and later one
/// of `{` or `;`; after `impl`, `enum`, `trait` or `match`, a `{`.
pub open spec fn token_wishes_spec(t: Seq<char>) -> Seq<Seq<char>> {
    if t == seq!['f', 'n'] {
        seq![seq!['('], seq!['{', ';']]
    } else if t == seq!['i', 'm', 'p', 'l'] || t == seq!['e', 'n', 'u', 'm'] || t == seq!['t', 'r', 'a', 'i', 't']
        || t == seq!['m', 'a', 't', 'c', 'h'] {
        seq![seq!['{']]
    } else {
        Seq::empty()
    }
}

/// Return what the token calls for: we don't want a block boundary between
/// this token and the characters it wishes for, at the same depth.
pub fn token_wishes(token: &Vec<char>) -> (r: Vec<CharSet>)
    ensures
        r@.map_values(|cs: CharSet| cs@) == token_wishes_spec(token@),
{
    let n = token.len();
    if n == 2 && token[0] == 'f' && token[1] == 'n' {
        proof {
            assert(token@ =~= seq!['f', 'n']);
        }
        let open_paren = CharSet::of_char('(');
        let mut body = Vec::new();
        body.push('{');
        body.push(';');
        proof {
            assert(body@ =~= seq!['{', ';']);
        }
        let body_set = CharSet::of_chars(body);
        let mut r = Vec::new();
        r.push(open_paren);
        r.push(body_set);
        proof {
            assert(r@.map_values(|cs: CharSet| cs@) =~= token_wishes_spec(token@));
        }
        r
    } else if (n == 4 && token[0] == 'i' && token[1] == 'm' && token[2] == 'p' && token[3] == 'l')
        || (n == 4 && token[0] == 'e' && token[1] == 'n' && token[2] == 'u' && token[3] == 'm') || (
    n == 5 && token[0] == 't' && token[1] == 'r' && token[2] == 'a' && token[3] == 'i' && token[4]
        == 't') || (n == 5 && token[0] == 'm' && token[1] == 'a' && token[2] == 't' && token[3]
        == 'c' && token[4] == 'h') {
        proof {
            if n == 4 {
                assert(token@ =~= seq!['i', 'm', 'p', 'l'] || token@ =~= seq!['e', 'n', 'u', 'm']);
            } else {
                assert(token@ =~= seq!['t', 'r', 'a', 'i', 't'] || token@ =~= seq!['m', 'a', 't', 'c', 'h']);
            }
        }
        let mut r = Vec::new();
        r.push(CharSet::of_char('{'));
        proof {
            assert(r@.map_values(|cs: CharSet| cs@) =~= token_wishes_spec(token@));
        }
        r
    } else {
        proof {
            assert(token@ != seq!['f', 'n'] && token@ != seq!['i', 'm', 'p', 'l'] && token@
                != seq!['e', 'n', 'u', 'm'] && token@ != seq!['t', 'r', 'a', 'i', 't'] && token@
                != seq!['m', 'a', 't', 'c', 'h']);
        }
        let r = Vec::new();
        proof {
            assert(r@.map_values(|cs: CharSet| cs@) =~= Seq::<Seq<char>>::empty());
        }
        r
    }
}

/// The number of consecutive '#' just before position `i`, stopping before
/// the line's indent.
pub open spec fn count_sharps(line: Seq<char>, indent: int, i: int) -> int
    decreases i - indent,
{
    if i - 1 > indent && 0 <= i - 1 < line.len() && line[i - 1] == '#' {
        1 + count_sharps(line, indent, i - 1)
    } else {
        0
    }
}

/// Whether a raw string with `k` sharps closes at the quote at `i`.
pub open spec fn raw_closes(line: Seq<char>, i: int, k: int) -> bool {
    i + 1 + k <= line.len() && forall|j: int| i + 1 <= j < i + 1 + k ==> #[trigger] line[j] == '#'
}

/// One character of the scan, at position `i` of the line (`i` is at or
/// past the indent). Mirrors, state by state, what the scanner does: build
/// the sort key, track brackets, open and close strings and comments, and
/// raise and retire the keyword obligations.
pub open spec fn rust_step(st0: RustSt, line: Seq<char>, indent: int, i: int) -> RustSt {
    if st0.error is Some {
        st0
    } else {
        let c = line[i];
        let taken: Option<Seq<char>> = if is_token_char(c) {
            None
        } else {
            Some(st0.token)
        };
        let token2 = if is_token_char(c) {
            st0.token.push(c)
        } else {
            Seq::empty()
        };
        let st = RustSt { token: token2, ..st0 };
        let last2 = c == '\\' && !st.last_antislash;
        match st.state {
            ScanState::Normal => {
                let wishes1 = if taken is Some && !st.braces.contains('[') && !st.braces.contains(
                    '(',
                ) {
                    st.wishes + token_wishes_spec(taken->0).map_values(
                        |a: Seq<char>| WishV { any_of: a, depth: st.braces.len() as usize },
                    )
                } else {
                    st.wishes
                };
                let st = if is_gift_char(c) {
                    let g = GiftV { depth: st.braces.len() as usize, c };
                    RustSt { wishes: retire(wishes1, g), gifts: st.gifts.push(g), ..st }
                } else {
                    RustSt { wishes: wishes1, ..st }
                };
                if c == '\'' && !st.last_antislash {
                    let state2 = if i + 2 < line.len() {
                        let a = line[i + 1];
                        let b = line[i + 2];
                        if a == '\\' {
                            ScanState::CharLit
                        } else if is_token_char(a) {
                            if b == '\'' {
                                ScanState::CharLit
                            } else {
                                ScanState::Normal
                            }
                        } else {
                            ScanState::CharLit
                        }
                    } else {
                        ScanState::Normal
                    };
                    RustSt { state: state2, sort_key: st.sort_key.push(c), last_antislash: last2, ..st }
                } else if c == '"' && !st.last_antislash {
                    let k = count_sharps(line, indent, i);
                    let state2 = if i - indent > k && line[i - k - 1] == 'r' {
                        ScanState::RawString(k as usize)
                    } else {
                        ScanState::DoubleQuotedString
                    };
                    RustSt { state: state2, sort_key: st.sort_key.push(c), last_antislash: last2, ..st }
                } else if c == '/' && !st.last_antislash {
                    if i + 1 < line.len() && line[i + 1] == '/' {
                        RustSt { state: ScanState::LineComment, last_antislash: last2, ..st }
                    } else if i + 1 < line.len() && line[i + 1] == '*' {
                        RustSt { state: ScanState::BlockComment(0), last_antislash: last2, ..st }
                    } else {
                        RustSt { sort_key: st.sort_key.push(c), last_antislash: last2, ..st }
                    }
                } else if is_brace(c) && !st.last_antislash {
                    match spec_push(st.braces, c) {
                        Ok(b2) => RustSt {
                            braces: b2,
                            sort_key: st.sort_key.push(c),
                            last_antislash: last2,
                            ..st
                        },
                        Err(_) => RustSt { error: Some(c), ..st },
                    }
                } else if (c == ' ' || c == '\t' || c == '\n' || c == '\r') && !st.last_antislash {
                    RustSt { last_antislash: last2, ..st }
                } else {
                    RustSt { sort_key: st.sort_key.push(c), last_antislash: last2, ..st }
                }
            },
            ScanState::CharLit => {
                let state2 = if c == '\'' && !st.last_antislash {
                    ScanState::Normal
                } else {
                    st.state
                };
                RustSt { state: state2, sort_key: st.sort_key.push(c), last_antislash: last2, ..st }
            },
            ScanState::DoubleQuotedString => {
                let state2 = if c == '"' && !st.last_antislash {
                    ScanState::Normal
                } else {
                    st.state
                };
                RustSt { state: state2, sort_key: st.sort_key.push(c), last_antislash: last2, ..st }
            },
            ScanState::RawString(k) => {
                let state2 = if c == '"' && raw_closes(line, i, k as int) {
                    ScanState::Normal
                } else {
                    st.state
                };
                RustSt { state: state2, sort_key: st.sort_key.push(c), last_antislash: last2, ..st }
            },
            ScanState::LineComment => {
                RustSt { last_antislash: last2, ..st }
            },
            ScanState::BlockComment(d) => {
                let state2 = if c == '/' && i - 1 >= indent && 0 <= i - 1 < line.len() && line[i
                    - 1] == '*' {
                    if d > 0 {
                        ScanState::BlockComment((d - 1) as usize)
                    } else {
                        ScanState::Normal
                    }
                } else if c == '/' && !st.last_antislash && i + 1 < line.len() && line[i + 1]
                    == '*' {
                    ScanState::BlockComment(if d < usize::MAX {
                        (d + 1) as usize
                    } else {
                        d
                    })
                } else {
                    st.state
                };
                RustSt { state: state2, last_antislash: last2, ..st }
            },
        }
    }
}

/// The scanner state after the characters of the line before position `i`.
pub open spec fn rust_scan(line: Seq<char>, indent: int, st0: RustSt, i: int) -> RustSt
    decreases i - indent,
{
    if i <= indent {
        st0
    } else {
        rust_step(rust_scan(line, indent, st0, i - 1), line, indent, i - 1)
    }
}

/// Scan a whole line: the accumulators start empty, the lexical state is
/// carried over.
pub open spec fn rust_scan_line(line: Seq<char>, st: RustSt) -> RustSt {
    let st0 = RustSt {
        sort_key: Seq::empty(),
        token: Seq::empty(),
        wishes: Seq::empty(),
        gifts: Seq::empty(),
        ..st
    };
    rust_scan(line, ws_prefix_len(line), st0, line.len() as int)
}

/// Whether a scanned line is a decorator line: it opens one, or it
/// continues one whose brackets are still open.
pub open spec fn line_is_annotation(st1: RustSt, st2: RustSt) -> bool {
    (st2.sort_key.len() >= 2 && st2.sort_key[0] == '#' && st2.sort_key[1] == '[')
        || st1.ann_depth is Some
}

/// The depth an open decorator started at, carried to the next line while
/// the decorator's brackets stay open.
pub open spec fn next_ann_depth(st1: RustSt, st2: RustSt) -> Option<usize> {
    if line_is_annotation(st1, st2) {
        let base = match st1.ann_depth {
            Some(d) => d as int,
            None => st1.braces.len() as int,
        };
        if st2.braces.len() > base {
            Some(base as usize)
        } else {
            None
        }
    } else {
        None
    }
}

/// The analyzed line built from a scanned line.
pub open spec fn loc_of_line(line: Seq<char>, st1: RustSt, st2: RustSt) -> LocV {
    LocV {
        content: line,
        sort_key: st2.sort_key,
        indent: ws_prefix_len(line) as usize,
        start_depth: st1.braces.len() as usize,
        end_depth: st2.braces.len() as usize,
        is_annotation: line_is_annotation(st1, st2),
        can_complete: match last_non_ws(st2.sort_key) {
            Some(c) => is_closing_brace(c) || c == ',' || c == ';',
            None => false,
        },
        wishes: st2.wishes,
        gifts: st2.gifts,
    }
}

/// The whole analysis, one line at a time, from position `pos`. At each
/// line start a pending line comment ends; a pending character literal is
/// an error. At the end of the text an open string, raw string or block
/// comment leaves the input unbalanced.
pub open spec fn rust_read_rec(s: Seq<char>, pos: int, st: RustSt, line_index: int) -> Result<
    Seq<LocV>,
    CsError,
>
    decreases s.len() - pos via rust_read_rec_decreases
{
    let st1 = if st.state == ScanState::LineComment {
        RustSt { state: ScanState::Normal, ..st }
    } else {
        st
    };
    if st.state == ScanState::CharLit {
        Err(CsError::UnclosedCharLiteral((line_index - 1) as usize))
    } else if pos < 0 || pos >= s.len() {
        if st1.state == ScanState::Normal {
            Ok(Seq::empty())
        } else {
            Err(CsError::InputNotBalanced)
        }
    } else {
        let e = line_end(s, pos);
        let line = s.subrange(pos, e);
        let st2 = rust_scan_line(line, st1);
        if st2.error is Some {
            Err(CsError::UnexpectedClosingBrace(st2.error->0))
        } else {
            let st3 = RustSt { ann_depth: next_ann_depth(st1, st2), ..st2 };
            match rust_read_rec(s, e, st3, line_index + 1) {
                Err(err) => Err(err),
                Ok(rest) => Ok(seq![loc_of_line(line, st1, st2)] + rest),
            }
        }
    }
}

#[via_fn]
proof fn rust_read_rec_decreases(s: Seq<char>, pos: int, st: RustSt, line_index: int) {
    if 0 <= pos < s.len() {
        lemma_line_end_bounds(s, pos);
    }
}

/// The scanner state at the start of the whole text.
pub open spec fn rust_init() -> RustSt {
    RustSt {
        state: ScanState::Normal,
        last_antislash: false,
        ann_depth: None,
        braces: Seq::empty(),
        sort_key: Seq::empty(),
        token: Seq::empty(),
        wishes: Seq::empty(),
        gifts: Seq::empty(),
        error: None,
    }
}

/// What analyzing a text yields.
pub open spec fn spec_read(s: Seq<char>) -> Result<Seq<LocV>, CsError> {
    rust_read_rec(s, 0, rust_init(), 0)
}

/// Whether the raw string with `k` sharps closes at the quote at `i`.
fn raw_closes_at(line: &Vec<char>, i: usize, k: usize) -> (r: bool)
    requires
        i < line@.len(),
    ensures
        r == raw_closes(line@, i as int, k as int),
{
    let n = line.len();
    if k > n - 1 - i {
        return false;
    }
    let mut j: usize = 0;
    while j < k
        invariant
            j <= k,
            i < n,
            k <= n - 1 - i,
            n == line@.len(),
            forall|m: int| i + 1 <= m < i + 1 + j ==> #[trigger] line@[m] == '#',
        decreases k - j,
    {
        if line[i + 1 + j] != '#' {
            return false;
        }
        j += 1;
    }
    true
}

/// Analyze a whole source text in the Rust-like lexical profile, one line
/// record per input line. The result is exactly what `spec_read` describes:
/// the per-line scan of `rust_step`, the bracket depths threaded across
/// lines, and the keyword obligations raised and retired along the way.
/// Unbalanced brackets and input ending inside a literal or comment are
/// reported as errors.
pub fn read(s: &str) -> (r: CsResult<LocList>)
    ensures
        res_view(r) == spec_read(s@),
        r matches Ok(ll) ==> ll.wf(),
{
    let cs = chars_of_str(s);
    let n = cs.len();
    let mut locs: Vec<Loc> = Vec::new();
    let mut braces = BraceStack::new();
    let mut state = ScanState::Normal;
    let mut last_antislash = false;
    let mut ann_depth: Option<usize> = None;
    let mut pos: usize = 0;
    let mut line_index: usize = 0;
    let ghost mut gst = rust_init();
    proof {
        assert(locs@.map_values(|l: Loc| l@) =~= Seq::<LocV>::empty());
        assert(Seq::<LocV>::empty() + Seq::<LocV>::empty() =~= Seq::<LocV>::empty());
    }
    loop
        invariant
            n == s@.len(),
            cs@ == s@,
            pos <= n,
            line_index <= pos,
            state == gst.state,
            last_antislash == gst.last_antislash,
            ann_depth == gst.ann_depth,
            braces.braces@ == gst.braces,
            gst.error is None,
            gst.state == ScanState::CharLit ==> line_index >= 1,
            forall|m: int| 0 <= m < locs@.len() ==> (#[trigger] locs@[m])@.wf(),
            spec_read(s@) == match rust_read_rec(s@, pos as int, gst, line_index as int) {
                Ok(rest) => Ok::<Seq<LocV>, CsError>(locs@.map_values(|l: Loc| l@) + rest),
                Err(e) => Err::<Seq<LocV>, CsError>(e),
            },
        decreases n - pos,
    {
        let ghost gst_in = gst;
        if state == ScanState::LineComment {
            state = ScanState::Normal;
            proof {
                gst = RustSt { state: ScanState::Normal, ..gst };
                assert(rust_read_rec(s@, pos as int, gst_in, line_index as int) == rust_read_rec(
                    s@,
                    pos as int,
                    gst,
                    line_index as int,
                ));
            }
        }
        if state == ScanState::CharLit {
            proof {
                assert(rust_read_rec(s@, pos as int, gst, line_index as int)
                    == Result::<Seq<LocV>, CsError>::Err(
                    CsError::UnclosedCharLiteral((line_index - 1) as usize),
                ));
            }
            return Err(CsError::UnclosedCharLiteral(line_index - 1));
        }
        if pos >= n {
            if state == ScanState::Normal {
                let ll = LocList { locs };
                proof {
                    assert(rust_read_rec(s@, pos as int, gst, line_index as int) == Result::<
                        Seq<LocV>,
                        CsError,
                    >::Ok(Seq::<LocV>::empty()));
                    assert(ll@ + Seq::<LocV>::empty() =~= ll@);
                }
                return Ok(ll);
            }
            proof {
                assert(rust_read_rec(s@, pos as int, gst, line_index as int)
                    == Result::<Seq<LocV>, CsError>::Err(CsError::InputNotBalanced));
            }
            return Err(CsError::InputNotBalanced);
        }
        let e = find_line_end(&cs, pos);
        let line: Vec<char> = vstd::slice::slice_to_vec(
            vstd::slice::slice_subrange(cs.as_slice(), pos, e),
        );
        let content: String = s.substring_char(pos, e).to_owned();
        let indent = find_indent(&line);
        let start_depth = braces.depth();
        let llen = line.len();
        let ghost lv = line@;
        let ghost st1 = gst;
        let ghost st0 = RustSt {
            sort_key: Seq::empty(),
            token: Seq::empty(),
            wishes: Seq::empty(),
            gifts: Seq::empty(),
            ..st1
        };
        let mut sort_key: Vec<char> = Vec::new();
        let mut token: Vec<char> = Vec::new();
        let mut wishes: Vec<Wish> = Vec::new();
        let mut gifts: Vec<Gift> = Vec::new();
        let mut i = indent;
        proof {
            lemma_ws_prefix_le_len(lv);
            assert(lv == s@.subrange(pos as int, e as int));
            assert(st1.state != ScanState::CharLit && st1.state != ScanState::LineComment);
            assert(rust_scan(lv, indent as int, st0, indent as int) == st0);
            assert(sort_key@ =~= st0.sort_key);
            assert(token@ =~= st0.token);
            assert(wishes_view(wishes@) =~= st0.wishes);
            assert(gifts@.map_values(|g: Gift| g@) =~= st0.gifts);
        }
        while i < llen
            invariant
                indent <= i <= llen,
                llen == lv.len(),
                lv == line@,
                indent == ws_prefix_len(lv),
                st0 == (RustSt {
                    sort_key: Seq::<char>::empty(),
                    token: Seq::<char>::empty(),
                    wishes: Seq::<WishV>::empty(),
                    gifts: Seq::<GiftV>::empty(),
                    ..st1
                }),
                st1.state != ScanState::CharLit,
                st1.state != ScanState::LineComment,
                st1.error is None,
                pos < s@.len(),
                e == line_end(s@, pos as int),
                lv == s@.subrange(pos as int, e as int),
                spec_read(s@) == match rust_read_rec(s@, pos as int, st1, line_index as int) {
                    Ok(rest) => Ok::<Seq<LocV>, CsError>(locs@.map_values(|l: Loc| l@) + rest),
                    Err(e2) => Err::<Seq<LocV>, CsError>(e2),
                },
                state == rust_scan(lv, indent as int, st0, i as int).state,
                last_antislash == rust_scan(lv, indent as int, st0, i as int).last_antislash,
                braces.braces@ == rust_scan(lv, indent as int, st0, i as int).braces,
                sort_key@ == rust_scan(lv, indent as int, st0, i as int).sort_key,
                token@ == rust_scan(lv, indent as int, st0, i as int).token,
                wishes_view(wishes@) == rust_scan(lv, indent as int, st0, i as int).wishes,
                gifts@.map_values(|g: Gift| g@) == rust_scan(lv, indent as int, st0, i as int).gifts,
                rust_scan(lv, indent as int, st0, i as int).error is None,
            decreases llen - i,
        {
            let ghost sti = rust_scan(lv, indent as int, st0, i as int);
            let c = line[i];
            let mut taken: Option<Vec<char>> = None;
            if char_is_token_char(c) {
                token.push(c);
            } else {
                let mut t: Vec<char> = Vec::new();
                core::mem::swap(&mut t, &mut token);
                taken = Some(t);
            }
            match state {
                ScanState::Normal => {
                    let in_sq = braces.is_in('[');
                    let in_par = braces.is_in('(');
                    match taken {
                        Some(t) => {
                            if !in_sq && !in_par {
                                let depth = braces.depth();
                                let mut tws = token_wishes(&t);
                                let ghost tws_spec = token_wishes_spec(t@);
                                let ghost wstart = wishes_view(wishes@);
                                let total = tws.len();
                                let mut j: usize = 0;
                                proof {
                                    assert(tws_spec.map_values(
                                        |a: Seq<char>| WishV { any_of: a, depth: depth },
                                    ).take(0) =~= Seq::<WishV>::empty());
                                    assert(wstart + Seq::<WishV>::empty() =~= wstart);
                                }
                                while j < total
                                    invariant
                                        j <= total,
                                        tws@.len() == total - j,
                                        tws@.map_values(|cs: CharSet| cs@) == tws_spec.skip(
                                            j as int,
                                        ),
                                        tws_spec.len() == total,
                                        wishes_view(wishes@) == wstart + tws_spec.map_values(
                                            |a: Seq<char>| WishV { any_of: a, depth: depth },
                                        ).take(j as int),
                                    decreases total - j,
                                {
                                    let ghost tws_prev = tws@.map_values(|cs: CharSet| cs@);
                                    let a = tws.remove(0);
                                    proof {
                                        assert(tws_prev[0] == a@);
                                        assert(tws_prev[0] == tws_spec.skip(j as int)[0]);
                                        assert(tws_spec.skip(j as int)[0] == tws_spec[j as int]);
                                        assert(tws@.map_values(|cs: CharSet| cs@)
                                            =~= tws_prev.drop_first());
                                        assert(tws_prev.drop_first() =~= tws_spec.skip(j + 1));
                                    }
                                    let ghost wprev = wishes_view(wishes@);
                                    let w = Wish { any_of: a, depth };
                                    wishes.push(w);
                                    proof {
                                        let f = |aa: Seq<char>| WishV { any_of: aa, depth: depth };
                                        assert(wishes_view(wishes@) =~= wprev.push(w@));
                                        assert(w@ == f(tws_spec[j as int]));
                                        assert(tws_spec.map_values(f).take(j + 1)
                                            =~= tws_spec.map_values(f).take(j as int).push(
                                            f(tws_spec[j as int]),
                                        ));
                                        assert(wprev.push(w@) =~= wstart + tws_spec.map_values(
                                            f,
                                        ).take(j + 1));
                                    }
                                    j += 1;
                                }
                                proof {
                                    let f = |aa: Seq<char>| WishV { any_of: aa, depth: depth };
                                    assert(tws_spec.map_values(f).take(total as int)
                                        =~= tws_spec.map_values(f));
                                }
                            }
                        },
                        None => {},
                    }
                    if char_is_gift(c) {
                        let g = Gift { depth: braces.depth(), c };
                        let mut w2: Vec<Wish> = Vec::new();
                        core::mem::swap(&mut w2, &mut wishes);
                        wishes = retire_exec(w2, &g);
                        let ghost gprev = gifts@.map_values(|x: Gift| x@);
                        gifts.push(g);
                        proof {
                            assert(gifts@.map_values(|x: Gift| x@) =~= gprev.push(g@));
                        }
                    }
                    if c == '\'' && !last_antislash {
                        if llen - i > 2 {
                            let a = line[i + 1];
                            let b = line[i + 2];
                            if a == '\\' {
                                state = ScanState::CharLit;
                            } else if char_is_token_char(a) {
                                if b == '\'' {
                                    state = ScanState::CharLit;
                                }
                            } else {
                                state = ScanState::CharLit;
                            }
                        }
                        sort_key.push(c);
                    } else if c == '"' && !last_antislash {
                        let mut k: usize = 0;
                        while k + 1 < i && i - (k + 1) > indent && line[i - (k + 1)] == '#'
                            invariant
                                k <= i,
                                i < llen,
                                llen == lv.len(),
                                lv == line@,
                                count_sharps(lv, indent as int, i as int) == k + count_sharps(
                                    lv,
                                    indent as int,
                                    i - k,
                                ),
                            decreases i - k,
                        {
                            k += 1;
                        }
                        proof {
                            assert(count_sharps(lv, indent as int, i - k) == 0);
                            assert(count_sharps(lv, indent as int, i as int) == k);
                        }
                        if i - indent > k && line[i - k - 1] == 'r' {
                            state = ScanState::RawString(k);
                        } else {
                            state = ScanState::DoubleQuotedString;
                        }
                        sort_key.push(c);
                    } else if c == '/' && !last_antislash {
                        if i + 1 < llen && line[i + 1] == '/' {
                            state = ScanState::LineComment;
                        } else if i + 1 < llen && line[i + 1] == '*' {
                            state = ScanState::BlockComment(0);
                        } else {
                            sort_key.push(c);
                        }
                    } else if char_is_brace(c) && !last_antislash {
                        match braces.push(c) {
                            Ok(_) => {},
                            Err(err) => {
                                proof {
                                    let stn = rust_scan(lv, indent as int, st0, i + 1);
                                    assert(stn == rust_step(sti, lv, indent as int, i as int));
                                    assert(stn.error == Some(c));
                                    lemma_scan_error_sticky(
                                        lv,
                                        indent as int,
                                        st0,
                                        i + 1,
                                        lv.len() as int,
                                    );
                                    assert(rust_scan_line(lv, st1).error == Some(c));
                                    assert(lv == s@.subrange(pos as int, e as int));
                                    assert(rust_read_rec(s@, pos as int, st1, line_index as int)
                                        == Result::<Seq<LocV>, CsError>::Err(
                                        CsError::UnexpectedClosingBrace(c),
                                    ));
                                    assert(err == CsError::UnexpectedClosingBrace(c));
                                }
                                return Err(err);
                            },
                        }
                        sort_key.push(c);
                    } else if (c == ' ' || c == '\t' || c == '\n' || c == '\r') && !last_antislash {
                        // insignificant whitespace is dropped from the key
                    } else {
                        sort_key.push(c);
                    }
                },
                ScanState::CharLit => {
                    if c == '\'' && !last_antislash {
                        state = ScanState::Normal;
                    }
                    sort_key.push(c);
                },
                ScanState::DoubleQuotedString => {
                    if c == '"' && !last_antislash {
                        state = ScanState::Normal;
                    }
                    sort_key.push(c);
                },
                ScanState::RawString(k) => {
                    if c == '"' && raw_closes_at(&line, i, k) {
                        state = ScanState::Normal;
                    }
                    sort_key.push(c);
                },
                ScanState::LineComment => {},
                ScanState::BlockComment(d) => {
                    if c == '/' && i > indent && line[i - 1] == '*' {
                        if d > 0 {
                            state = ScanState::BlockComment(d - 1);
                        } else {
                            state = ScanState::Normal;
                        }
                    } else if c == '/' && !last_antislash && i + 1 < llen && line[i + 1] == '*' {
                        state = ScanState::BlockComment(
                            if d < usize::MAX {
                                d + 1
                            } else {
                                d
                            },
                        );
                    }
                },
            }
            last_antislash = c == '\\' && !last_antislash;
            proof {
                let stn = rust_scan(lv, indent as int, st0, i + 1);
                assert(stn == rust_step(sti, lv, indent as int, i as int));
                assert(state == stn.state);
                assert(last_antislash == stn.last_antislash);
                assert(braces.braces@ == stn.braces);
                assert(sort_key@ == stn.sort_key);
                assert(token@ == stn.token);
                assert(wishes_view(wishes@) == stn.wishes);
                assert(gifts@.map_values(|g: Gift| g@) == stn.gifts);
                assert(stn.error is None);
            }
            i += 1;
        }
        let ghost st2 = rust_scan_line(lv, st1);
        proof {
            assert(st2 == rust_scan(lv, indent as int, st0, lv.len() as int));
        }
        let opens_annotation = sort_key.len() >= 2 && sort_key[0] == '#' && sort_key[1] == '[';
        let is_annotation = opens_annotation || match ann_depth {
            Some(_) => true,
            None => false,
        };
        let can_complete = match vec_last_non_ws(&sort_key) {
            Some(c) => char_is_closing_brace(c) || c == ',' || c == ';',
            None => false,
        };
        let sk_str = string_from_chars(sort_key.as_slice());
        let end_depth = braces.depth();
        let ann_base = match ann_depth {
            Some(d) => d,
            None => start_depth,
        };
        ann_depth = if is_annotation && end_depth > ann_base {
            Some(ann_base)
        } else {
            None
        };
        let loc = Loc {
            content,
            sort_key: sk_str,
            indent,
            start_depth,
            end_depth,
            is_annotation,
            can_complete,
            wishes,
            gifts,
        };
        proof {
            assert(loc@ == loc_of_line(lv, st1, st2));
            lemma_ws_prefix_le_len(lv);
            assert(loc@.wf());
        }
        let ghost locs_prev = locs@.map_values(|l: Loc| l@);
        locs.push(loc);
        proof {
            assert(locs@.map_values(|l: Loc| l@) =~= locs_prev.push(loc@));
            assert(lv == s@.subrange(pos as int, e as int));
            let st3 = RustSt { ann_depth: next_ann_depth(st1, st2), ..st2 };
            let inner = rust_read_rec(s@, e as int, st3, line_index + 1);
            assert(rust_read_rec(s@, pos as int, st1, line_index as int) == match inner {
                Err(err) => Result::<Seq<LocV>, CsError>::Err(err),
                Ok(rest) => Ok(seq![loc_of_line(lv, st1, st2)] + rest),
            });
            if inner is Ok {
                assert(locs_prev.push(loc@) + inner->Ok_0 =~= locs_prev + (seq![loc@]
                    + inner->Ok_0));
            }
            assert(ann_depth == st3.ann_depth);
            gst = st3;
        }
        pos = e;
        line_index += 1;
    }
}

/// An error, once hit, stops the scan of the line.
proof fn lemma_scan_error_sticky(line: Seq<char>, indent: int, st0: RustSt, i: int, j: int)
    requires
        rust_scan(line, indent, st0, i).error is Some,
        i <= j,
    ensures
        rust_scan(line, indent, st0, j) == rust_scan(line, indent, st0, i),
    decreases j - i,
{
    if i < j {
        lemma_scan_error_sticky(line, indent, st0, i, j - 1);
    }
}

} // verus!
