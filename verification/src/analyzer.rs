use vstd::prelude::*;

use crate::analyzers::res_view;
use crate::error::CsError;
use crate::error::CsResult;
use crate::loc::LocV;
use crate::loc_list::LocList;

verus! {

/// Something that reads a whole source text into analyzed lines
pub trait Analyzer {
    /// What reading a text through this analyzer yields.
    spec fn spec_read_str(&self, s: Seq<char>) -> Result<Seq<LocV>, CsError>;

    /// Analyze a whole source text, one line record per input line.
    fn read_str(&self, s: &str) -> (r: CsResult<LocList>)
        ensures
            res_view(r) == self.spec_read_str(s@),
            r matches Ok(ll) ==> ll.wf(),
    ;
}

impl Analyzer for crate::analyzers::javascript::JavascriptAnalyzer {
    open spec fn spec_read_str(&self, s: Seq<char>) -> Result<Seq<LocV>, CsError> {
        crate::analyzers::javascript::spec_read(s)
    }

    fn read_str(&self, s: &str) -> (r: CsResult<LocList>) {
        crate::analyzers::javascript::read(s)
    }
}

} // verus!
