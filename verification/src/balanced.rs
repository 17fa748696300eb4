use vstd::prelude::*;

use crate::languages::Language;

verus! {

/// The ghost value of a `Balanced`
pub ghost struct BalancedV {
    pub sort_key: Seq<char>,
    pub is_annotation: bool,
    pub last_significant_char: Option<char>,
    pub language: Language,
}

/// A piece of code made of complete lines, with balanced brackets
/// and some significant content
#[derive(Debug, Clone)]
pub struct Balanced {
    pub sort_key: String,
    pub is_annotation: bool,
    pub last_significant_char: Option<char>,
    pub language: Language,
}

impl View for Balanced {
    type V = BalancedV;

    open spec fn view(&self) -> BalancedV {
        BalancedV {
            sort_key: self.sort_key@,
            is_annotation: self.is_annotation,
            last_significant_char: self.last_significant_char,
            language: self.language,
        }
    }
}

impl Balanced {
    /// A balanced piece with no significant character holds no code.
    pub fn is_empty(&self) -> (r: bool)
        ensures
            r == (self@.last_significant_char is None),
    {
        match self.last_significant_char {
            None => true,
            Some(_) => false,
        }
    }
}

} // verus!
