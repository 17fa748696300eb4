use vstd::prelude::*;
use vstd::string::StrSliceExecFns;
use vstd::string::StringExecFns;

use crate::balanced::Balanced;
use crate::balanced::BalancedV;
use crate::languages::Language;
use crate::line::line_indent;
use crate::list::List;

verus! {

/// The ghost value of a `Block`
pub ghost struct BlockV {
    pub code: Seq<char>,
    pub balanced: Option<BalancedV>,
    pub start: int,
    pub end: int,
    pub base_indent: int,
}

/// A "block" of code: a run of consecutive lines of a list, with the
/// balance check of their concatenated text
#[derive(Debug, Clone)]
pub struct Block {
    pub code: String,
    pub balanced: Option<Balanced>,
    pub start: usize,
    /// index of the first line not included
    pub end: usize,
    pub base_indent: usize,
}

impl View for Block {
    type V = BlockV;

    open spec fn view(&self) -> BlockV {
        BlockV {
            code: self.code@,
            balanced: crate::languages::cb_view(self.balanced),
            start: self.start as int,
            end: self.end as int,
            base_indent: self.base_indent as int,
        }
    }
}

/// The block a single line starts.
pub open spec fn spec_block_new(lines: Seq<Seq<char>>, lang: Language, start: int) -> BlockV {
    BlockV {
        code: lines[start],
        balanced: lang.spec_check_balanced(lines[start]),
        start: start,
        end: start + 1,
        base_indent: line_indent(lines[start]),
    }
}

/// The block extended by the next line.
pub open spec fn spec_block_augment(b: BlockV, lines: Seq<Seq<char>>, lang: Language) -> BlockV {
    BlockV {
        code: b.code + lines[b.end],
        balanced: lang.spec_check_balanced(b.code + lines[b.end]),
        start: b.start,
        end: b.end + 1,
        base_indent: b.base_indent,
    }
}

/// Whether a block can end where it does: its text balances and its last
/// significant character may close a unit.
pub open spec fn spec_block_complete(b: BlockV) -> bool {
    match b.balanced {
        Some(bal) => match bal.last_significant_char {
            Some(c) => c == ';' || c == '}' || c == ',' || c == ']',
            None => false,
        },
        None => false,
    }
}

/// The key a block sorts under: its balanced sort key, or, for a block
/// with no significant content, a stand-in that sorts last.
pub open spec fn spec_block_key(b: BlockV) -> Seq<char> {
    match b.balanced {
        Some(bal) => if bal.last_significant_char is Some {
            bal.sort_key
        } else {
            seq!['~', '~']
        },
        None => seq!['~', '~'],
    }
}

impl Block {
    pub fn new(start: usize, list: &List) -> (r: Block)
        requires
            list.wf(),
            start < list@.len(),
        ensures
            r@ == spec_block_new(list@, list.lang, start as int),
    {
        let n = list.lines.len();
        assert(start < n);
        let line = &list.lines[start];
        let code: String = line.content().to_owned();
        let balanced = list.lang.check_balanced(code.as_str());
        let base_indent = line.indent();
        Block { code, balanced, start, end: start + 1, base_indent }
    }

    pub fn content(&self) -> (r: &str)
        ensures
            r@ == self@.code,
    {
        self.code.as_str()
    }

    pub fn start(&self) -> (r: usize)
        ensures
            r == self@.start,
    {
        self.start
    }

    pub fn end(&self) -> (r: usize)
        ensures
            r == self@.end,
    {
        self.end
    }

    /// Extend the block with the next line of the list.
    pub fn augment(&mut self, list: &List)
        requires
            list.wf(),
            old(self).end < list@.len(),
        ensures
            final (self)@ == spec_block_augment(old(self)@, list@, list.lang),
    {
        let n = list.lines.len();
        assert(self.end < n);
        let line = &list.lines[self.end];
        self.code.append(line.content());
        self.balanced = list.lang.check_balanced(self.code.as_str());
        self.end = self.end + 1;
    }

    pub fn is_balanced(&self) -> (r: bool)
        ensures
            r == (self@.balanced is Some),
    {
        match &self.balanced {
            Some(_) => true,
            None => false,
        }
    }

    pub fn len(&self) -> (r: usize)
        requires
            self@.start <= self@.end,
        ensures
            r == self@.end - self@.start,
    {
        self.end - self.start
    }

    pub fn is_empty(&self) -> (r: bool)
        requires
            self@.start <= self@.end,
        ensures
            r == (self@.end == self@.start),
    {
        self.end - self.start == 0
    }

    /// is the block an annotation which should be merged with
    /// a following block (unless it's the last one)
    pub fn is_annotation(&self) -> (r: bool)
        ensures
            r == match self@.balanced {
                Some(b) => b.is_annotation,
                None => false,
            },
    {
        match &self.balanced {
            Some(b) => b.is_annotation,
            None => false,
        }
    }

    pub fn is_complete(&self) -> (r: bool)
        ensures
            r == spec_block_complete(self@),
    {
        match &self.balanced {
            Some(balanced) => match balanced.last_significant_char {
                Some(c) => c == ';' || c == '}' || c == ',' || c == ']',
                None => false,
            },
            None => false,
        }
    }

    /// the key to use for sorting
    ///
    /// If the block is empty, it should be at the end (it was originally
    /// at the end or it would have been merged during block extraction)
    pub fn sort_key(&self) -> (r: &str)
        ensures
            r@ == spec_block_key(self@),
    {
        proof {
            reveal_strlit("~~");
            assert("~~"@.len() == 2);
            assert("~~"@[0] == '~' && "~~"@[1] == '~');
            assert("~~"@ =~= seq!['~', '~']);
        }
        match &self.balanced {
            Some(b) => match b.last_significant_char {
                Some(_) => b.sort_key.as_str(),
                None => "~~",
            },
            None => "~~",
        }
    }
}

} // verus!
