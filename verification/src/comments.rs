use vstd::prelude::*;
use vstd::string::StrSliceExecFns;

verus! {

/// The string/escape state before position `i`: whether a double-quoted
/// string is open, and whether the previous character was a backslash.
pub open spec fn tc_state(s: Seq<char>, i: int) -> (bool, bool)
    decreases i,
{
    if i <= 0 {
        (false, false)
    } else {
        let st = tc_state(s, i - 1);
        let c = s[i - 1];
        let ins2 = if c == '"' && !st.1 {
            !st.0
        } else {
            st.0
        };
        (ins2, c == '\\')
    }
}

/// Where the end-of-line comment starts: the first `//` outside a string
/// and not escaped, or the end of the text.
pub open spec fn tc_cut(s: Seq<char>, i: int) -> int
    decreases s.len() - i,
{
    if i < 0 || i >= s.len() {
        s.len() as int
    } else {
        let st = tc_state(s, i);
        let c = s[i];
        let ins1 = if c == '"' && !st.1 {
            !st.0
        } else {
            st.0
        };
        if !ins1 && !st.1 && c == '/' && i + 1 < s.len() && s[i + 1] == '/' {
            i
        } else {
            tc_cut(s, i + 1)
        }
    }
}

/// The cut falls inside the text.
pub proof fn lemma_tc_cut_bounds(s: Seq<char>, i: int)
    requires
        0 <= i <= s.len(),
    ensures
        i <= tc_cut(s, i) <= s.len(),
    decreases s.len() - i,
{
    if i < s.len() {
        lemma_tc_cut_bounds(s, i + 1);
    }
}

/// Try to trim end of line comments without parsing the code, so as to
/// work in most cases and most languages of the C family (hard to make a
/// correct expression checker which accepts all raw strings, single quoted
/// strings, lifetimes, etc.).
///
/// This function isn't used to check block balancing or completeness, but
/// only to determine what part of the line should be used for sorting.
pub fn trim_comments(s: &str) -> (r: &str)
    ensures
        r@ == s@.take(tc_cut(s@, 0)),
{
    let n = s.unicode_len();
    let mut in_string = false;
    let mut last_antislash = false;
    let mut i: usize = 0;
    while i < n
        invariant
            0 <= i <= n,
            n == s@.len(),
            (in_string, last_antislash) == tc_state(s@, i as int),
            tc_cut(s@, 0) == tc_cut(s@, i as int),
        decreases n - i,
    {
        let c = s.get_char(i);
        let ins1 = if c == '"' && !last_antislash {
            !in_string
        } else {
            in_string
        };
        if !ins1 && !last_antislash && c == '/' && i + 1 < n && s.get_char(i + 1) == '/' {
            proof {
                assert(tc_cut(s@, i as int) == i);
            }
            return s.substring_char(0, i);
        }
        in_string = ins1;
        last_antislash = c == '\\';
        i += 1;
    }
    proof {
        assert(tc_cut(s@, n as int) == s@.len());
        assert(s@.take(s@.len() as int) =~= s@);
    }
    s
}

} // verus!
