use vstd::prelude::*;
use vstd::string::StrSliceExecFns;

use crate::analyzers::find_indent;
use crate::analyzers::find_line_end;
use crate::analyzers::line_end;
use crate::analyzers::lemma_line_end_bounds;
use crate::analyzers::lemma_ws_prefix_le_len;
use crate::analyzers::res_view;
use crate::analyzers::ws_prefix_len;
use crate::brace_stack::BraceStack;
use crate::brace_stack::is_brace;
use crate::brace_stack::is_closing_brace;
use crate::brace_stack::char_is_closing_brace;
use crate::brace_stack::char_is_brace;
use crate::brace_stack::spec_push;
use crate::chars::chars_of_str;
use crate::chars::last_non_ws;
use crate::chars::string_from_chars;
use crate::chars::vec_last_non_ws;
use crate::error::CsError;
use crate::error::CsResult;
use crate::loc::Loc;
use crate::loc::LocV;
use crate::loc_list::LocList;

verus! {

/// The lexical state carried across characters and line boundaries
#[derive(Debug, Clone, Copy, PartialEq, Eq, Structural)]
pub enum JsScanState {
    Normal,
    DoubleQuotedString,
    SingleQuotedString,
    LineComment,
    StarComment,
}

/// The whole scanner state for the ECMAScript-like profile
pub ghost struct JsSt {
    pub state: JsScanState,
    pub last_antislash: bool,
    pub braces: Seq<char>,
    pub sort_key: Seq<char>,
    pub error: Option<char>,
}

/// One character of the scan, at position `i` of the line.
pub open spec fn js_step(st: JsSt, line: Seq<char>, i: int) -> JsSt {
    if st.error is Some {
        st
    } else {
        let c = line[i];
        match st.state {
            JsScanState::Normal => {
                let last2 = c == '\\' && !st.last_antislash;
                if c == '\'' && !st.last_antislash {
                    JsSt {
                        state: JsScanState::SingleQuotedString,
                        sort_key: st.sort_key.push(c),
                        last_antislash: last2,
                        ..st
                    }
                } else if c == '"' && !st.last_antislash {
                    JsSt {
                        state: JsScanState::DoubleQuotedString,
                        sort_key: st.sort_key.push(c),
                        last_antislash: last2,
                        ..st
                    }
                } else if c == '/' && !st.last_antislash {
                    if i + 1 < line.len() && line[i + 1] == '/' {
                        JsSt { state: JsScanState::LineComment, last_antislash: last2, ..st }
                    } else if i + 1 < line.len() && line[i + 1] == '*' {
                        JsSt { state: JsScanState::StarComment, last_antislash: last2, ..st }
                    } else {
                        JsSt { sort_key: st.sort_key.push(c), last_antislash: last2, ..st }
                    }
                } else if is_brace(c) && !st.last_antislash {
                    match spec_push(st.braces, c) {
                        Ok(b2) => JsSt {
                            braces: b2,
                            sort_key: st.sort_key.push(c),
                            last_antislash: last2,
                            ..st
                        },
                        Err(_) => JsSt { error: Some(c), ..st },
                    }
                } else if (c == ' ' || c == '\t' || c == '\n' || c == '\r') && !st.last_antislash {
                    JsSt { last_antislash: last2, ..st }
                } else {
                    JsSt { sort_key: st.sort_key.push(c), last_antislash: last2, ..st }
                }
            },
            JsScanState::SingleQuotedString => {
                let state2 = if c == '\'' && !st.last_antislash {
                    JsScanState::Normal
                } else {
                    st.state
                };
                JsSt { state: state2, sort_key: st.sort_key.push(c), ..st }
            },
            JsScanState::DoubleQuotedString => {
                let state2 = if c == '"' && !st.last_antislash {
                    JsScanState::Normal
                } else {
                    st.state
                };
                JsSt { state: state2, sort_key: st.sort_key.push(c), ..st }
            },
            JsScanState::LineComment => st,
            JsScanState::StarComment => {
                if c == '/' && i - 1 >= ws_prefix_len(line) && 0 <= i - 1 < line.len() && line[i
                    - 1] == '*' {
                    JsSt { state: JsScanState::Normal, ..st }
                } else {
                    st
                }
            },
        }
    }
}

/// The scanner state after the characters of the line before position `i`.
pub open spec fn js_scan(line: Seq<char>, st0: JsSt, i: int) -> JsSt
    decreases i - ws_prefix_len(line),
{
    if i <= ws_prefix_len(line) {
        st0
    } else {
        js_step(js_scan(line, st0, i - 1), line, i - 1)
    }
}

/// Scan a whole line: the sort key starts empty, the lexical state is
/// carried over.
pub open spec fn js_scan_line(line: Seq<char>, st: JsSt) -> JsSt {
    let st0 = JsSt { sort_key: Seq::empty(), ..st };
    js_scan(line, st0, line.len() as int)
}

/// The analyzed line built from a scanned line.
pub open spec fn js_loc_of_line(line: Seq<char>, start_depth: int, st: JsSt) -> LocV {
    LocV {
        content: line,
        sort_key: st.sort_key,
        indent: ws_prefix_len(line) as usize,
        start_depth: start_depth as usize,
        end_depth: st.braces.len() as usize,
        is_annotation: st.sort_key.len() >= 2 && st.sort_key[0] == '#' && st.sort_key[1] == '[',
        can_complete: match last_non_ws(st.sort_key) {
            Some(c) => is_closing_brace(c) || c == ';' || c == ',',
            None => false,
        },
        wishes: Seq::empty(),
        gifts: Seq::empty(),
    }
}

/// The whole analysis, one line at a time, from position `pos`.
pub open spec fn js_read_rec(s: Seq<char>, pos: int, st: JsSt) -> Result<Seq<LocV>, CsError>
    decreases s.len() - pos via js_read_rec_decreases
{
    let st1 = if st.state == JsScanState::LineComment {
        JsSt { state: JsScanState::Normal, ..st }
    } else {
        st
    };
    if pos < 0 || pos >= s.len() {
        if st1.state == JsScanState::Normal {
            Ok(Seq::empty())
        } else {
            Err(CsError::InputNotBalanced)
        }
    } else {
        let e = line_end(s, pos);
        let line = s.subrange(pos, e);
        let st2 = js_scan_line(line, st1);
        if st2.error is Some {
            Err(CsError::UnexpectedClosingBrace(st2.error->0))
        } else {
            match js_read_rec(s, e, st2) {
                Err(err) => Err(err),
                Ok(rest) => Ok(seq![js_loc_of_line(line, st1.braces.len() as int, st2)] + rest),
            }
        }
    }
}

#[via_fn]
proof fn js_read_rec_decreases(s: Seq<char>, pos: int, st: JsSt) {
    if 0 <= pos < s.len() {
        lemma_line_end_bounds(s, pos);
    }
}

/// The scanner state at the start of the whole text.
pub open spec fn js_init() -> JsSt {
    JsSt {
        state: JsScanState::Normal,
        last_antislash: false,
        braces: Seq::empty(),
        sort_key: Seq::empty(),
        error: None,
    }
}

/// What analyzing a text yields.
pub open spec fn spec_read(s: Seq<char>) -> Result<Seq<LocV>, CsError> {
    js_read_rec(s, 0, js_init())
}

/// An error, once hit, stops the scan of the line.
proof fn lemma_js_scan_error_sticky(line: Seq<char>, st0: JsSt, i: int, j: int)
    requires
        js_scan(line, st0, i).error is Some,
        i <= j,
    ensures
        js_scan(line, st0, j) == js_scan(line, st0, i),
    decreases j - i,
{
    if i < j {
        lemma_js_scan_error_sticky(line, st0, i, j - 1);
    }
}

/// Analyze a whole source text in the ECMAScript-like lexical profile, one
/// line record per input line, exactly as `spec_read` describes. Unbalanced
/// brackets and input ending inside a literal or comment are errors.
pub fn read(s: &str) -> (r: CsResult<LocList>)
    ensures
        res_view(r) == spec_read(s@),
        r matches Ok(ll) ==> ll.wf(),
{
    let cs = chars_of_str(s);
    let n = cs.len();
    let mut locs: Vec<Loc> = Vec::new();
    let mut braces = BraceStack::new();
    let mut state = JsScanState::Normal;
    let mut last_antislash = false;
    let mut pos: usize = 0;
    let ghost mut gst = js_init();
    proof {
        assert(locs@.map_values(|l: Loc| l@) =~= Seq::<LocV>::empty());
    }
    loop
        invariant
            n == s@.len(),
            cs@ == s@,
            pos <= n,
            state == gst.state,
            last_antislash == gst.last_antislash,
            braces.braces@ == gst.braces,
            gst.error is None,
            forall|m: int| 0 <= m < locs@.len() ==> (#[trigger] locs@[m])@.wf(),
            spec_read(s@) == match js_read_rec(s@, pos as int, gst) {
                Ok(rest) => Ok::<Seq<LocV>, CsError>(locs@.map_values(|l: Loc| l@) + rest),
                Err(e) => Err::<Seq<LocV>, CsError>(e),
            },
        decreases n - pos,
    {
        let ghost gst_in = gst;
        if state == JsScanState::LineComment {
            state = JsScanState::Normal;
            proof {
                gst = JsSt { state: JsScanState::Normal, ..gst };
                assert(js_read_rec(s@, pos as int, gst_in) == js_read_rec(s@, pos as int, gst));
            }
        }
        if pos >= n {
            if state == JsScanState::Normal {
                let ll = LocList { locs };
                proof {
                    assert(js_read_rec(s@, pos as int, gst) == Result::<Seq<LocV>, CsError>::Ok(
                        Seq::<LocV>::empty(),
                    ));
                    assert(ll@ + Seq::<LocV>::empty() =~= ll@);
                }
                return Ok(ll);
            }
            proof {
                assert(js_read_rec(s@, pos as int, gst) == Result::<Seq<LocV>, CsError>::Err(
                    CsError::InputNotBalanced,
                ));
            }
            return Err(CsError::InputNotBalanced);
        }
        let e = find_line_end(&cs, pos);
        let line: Vec<char> = vstd::slice::slice_to_vec(
            vstd::slice::slice_subrange(cs.as_slice(), pos, e),
        );
        let content: String = s.substring_char(pos, e).to_owned();
        let indent = find_indent(&line);
        let start_depth = braces.depth();
        let llen = line.len();
        let ghost lv = line@;
        let ghost st1 = gst;
        let ghost st0 = JsSt { sort_key: Seq::empty(), ..st1 };
        let mut sort_key: Vec<char> = Vec::new();
        let mut i = indent;
        proof {
            lemma_ws_prefix_le_len(lv);
            assert(lv == s@.subrange(pos as int, e as int));
            assert(st1.state != JsScanState::LineComment);
            assert(js_scan(lv, st0, indent as int) == st0);
            assert(sort_key@ =~= st0.sort_key);
        }
        while i < llen
            invariant
                indent <= i <= llen,
                llen == lv.len(),
                lv == line@,
                indent == ws_prefix_len(lv),
                st0 == (JsSt { sort_key: Seq::<char>::empty(), ..st1 }),
                state == js_scan(lv, st0, i as int).state,
                last_antislash == js_scan(lv, st0, i as int).last_antislash,
                braces.braces@ == js_scan(lv, st0, i as int).braces,
                sort_key@ == js_scan(lv, st0, i as int).sort_key,
                js_scan(lv, st0, i as int).error is None,
                st1.state != JsScanState::LineComment,
                st1.error is None,
                pos < s@.len(),
                e == line_end(s@, pos as int),
                lv == s@.subrange(pos as int, e as int),
                spec_read(s@) == match js_read_rec(s@, pos as int, st1) {
                    Ok(rest) => Ok::<Seq<LocV>, CsError>(locs@.map_values(|l: Loc| l@) + rest),
                    Err(e2) => Err::<Seq<LocV>, CsError>(e2),
                },
            decreases llen - i,
        {
            let ghost sti = js_scan(lv, st0, i as int);
            let c = line[i];
            match state {
                JsScanState::Normal => {
                    if c == '\'' && !last_antislash {
                        state = JsScanState::SingleQuotedString;
                        sort_key.push(c);
                    } else if c == '"' && !last_antislash {
                        state = JsScanState::DoubleQuotedString;
                        sort_key.push(c);
                    } else if c == '/' && !last_antislash {
                        if i + 1 < llen && line[i + 1] == '/' {
                            state = JsScanState::LineComment;
                        } else if i + 1 < llen && line[i + 1] == '*' {
                            state = JsScanState::StarComment;
                        } else {
                            sort_key.push(c);
                        }
                    } else if char_is_brace(c) && !last_antislash {
                        match braces.push(c) {
                            Ok(_) => {},
                            Err(err) => {
                                proof {
                                    let stn = js_scan(lv, st0, i + 1);
                                    assert(stn == js_step(sti, lv, i as int));
                                    assert(stn.error == Some(c));
                                    lemma_js_scan_error_sticky(lv, st0, i + 1, lv.len() as int);
                                    assert(js_scan_line(lv, st1).error == Some(c));
                                    assert(js_read_rec(s@, pos as int, st1) == Result::<
                                        Seq<LocV>,
                                        CsError,
                                    >::Err(CsError::UnexpectedClosingBrace(c)));
                                    assert(err == CsError::UnexpectedClosingBrace(c));
                                }
                                return Err(err);
                            },
                        }
                        sort_key.push(c);
                    } else if (c == ' ' || c == '\t' || c == '\n' || c == '\r') && !last_antislash {
                        // insignificant whitespace is dropped from the key
                    } else {
                        sort_key.push(c);
                    }
                    last_antislash = c == '\\' && !last_antislash;
                },
                JsScanState::SingleQuotedString => {
                    if c == '\'' && !last_antislash {
                        state = JsScanState::Normal;
                    }
                    sort_key.push(c);
                },
                JsScanState::DoubleQuotedString => {
                    if c == '"' && !last_antislash {
                        state = JsScanState::Normal;
                    }
                    sort_key.push(c);
                },
                JsScanState::LineComment => {},
                JsScanState::StarComment => {
                    if c == '/' && i > indent && line[i - 1] == '*' {
                        state = JsScanState::Normal;
                    }
                },
            }
            proof {
                let stn = js_scan(lv, st0, i + 1);
                assert(stn == js_step(sti, lv, i as int));
                assert(state == stn.state);
                assert(last_antislash == stn.last_antislash);
                assert(braces.braces@ == stn.braces);
                assert(sort_key@ == stn.sort_key);
                assert(stn.error is None);
            }
            i += 1;
        }
        let ghost st2 = js_scan_line(lv, st1);
        proof {
            assert(st2 == js_scan(lv, st0, lv.len() as int));
        }
        let is_annotation = sort_key.len() >= 2 && sort_key[0] == '#' && sort_key[1] == '[';
        let can_complete = match vec_last_non_ws(&sort_key) {
            Some(c) => char_is_closing_brace(c) || c == ';' || c == ',',
            None => false,
        };
        let sk_str = string_from_chars(sort_key.as_slice());
        let end_depth = braces.depth();
        let loc = Loc {
            content,
            sort_key: sk_str,
            indent,
            start_depth,
            end_depth,
            is_annotation,
            can_complete,
            wishes: Vec::new(),
            gifts: Vec::new(),
        };
        proof {
            assert(loc@.wishes =~= Seq::<crate::gifts::WishV>::empty());
            assert(loc@.gifts =~= Seq::<crate::gifts::GiftV>::empty());
            assert(loc@ == js_loc_of_line(lv, st1.braces.len() as int, st2));
            lemma_ws_prefix_le_len(lv);
            assert(loc@.wf());
        }
        let ghost locs_prev = locs@.map_values(|l: Loc| l@);
        locs.push(loc);
        proof {
            assert(locs@.map_values(|l: Loc| l@) =~= locs_prev.push(loc@));
            let inner = js_read_rec(s@, e as int, st2);
            assert(js_read_rec(s@, pos as int, st1) == match inner {
                Err(err) => Result::<Seq<LocV>, CsError>::Err(err),
                Ok(rest) => Ok(seq![js_loc_of_line(lv, st1.braces.len() as int, st2)] + rest),
            });
            if inner is Ok {
                assert(locs_prev.push(loc@) + inner->Ok_0 =~= locs_prev + (seq![loc@]
                    + inner->Ok_0));
            }
            gst = st2;
        }
        pos = e;
    }
}

/// The ECMAScript-like analyzer, as a unit type that reads text through
/// the `Analyzer` trait.
#[derive(Debug, Clone, Copy)]
pub struct JavascriptAnalyzer;

} // verus!
