use vstd::prelude::*;

verus! {

/// A small set of acceptable characters
#[derive(Debug, Clone)]
pub struct CharSet {
    pub chars: Vec<char>,
}

impl View for CharSet {
    type V = Seq<char>;

    open spec fn view(&self) -> Seq<char> {
        self.chars@
    }
}

impl CharSet {
    /// An exact copy of the set.
    pub fn duplicate(&self) -> (r: CharSet)
        ensures
            r@ == self@,
    {
        CharSet { chars: vstd::slice::slice_to_vec(self.chars.as_slice()) }
    }

    /// The set holding one character.
    pub fn of_char(c: char) -> (r: CharSet)
        ensures
            r@ == seq![c],
    {
        let chars = vec![c];
        assert(chars@ =~= seq![c]);
        CharSet { chars }
    }

    /// The set holding exactly the given characters.
    pub fn of_chars(chars: Vec<char>) -> (r: CharSet)
        ensures
            r@ == chars@,
    {
        CharSet { chars }
    }
}

/// The ghost value of a `Wish`
pub ghost struct WishV {
    pub any_of: Seq<char>,
    pub depth: usize,
}

/// An outstanding forward obligation: some character among `any_of` must
/// still occur while the bracket nesting depth equals `depth`.
#[derive(Debug, Clone)]
pub struct Wish {
    pub any_of: CharSet,
    pub depth: usize,
}

impl View for Wish {
    type V = WishV;

    open spec fn view(&self) -> WishV {
        WishV { any_of: self.any_of@, depth: self.depth }
    }
}

impl Wish {
    /// An exact copy of the wish.
    pub fn duplicate(&self) -> (r: Wish)
        ensures
            r@ == self@,
    {
        Wish { any_of: self.any_of.duplicate(), depth: self.depth }
    }
}

/// The ghost value of a `Gift`
pub ghost struct GiftV {
    pub depth: usize,
    pub c: char,
}

/// A punctuation occurrence that may retire a `Wish`
#[derive(Debug, Clone, Copy)]
pub struct Gift {
    pub depth: usize,
    pub c: char,
}

impl View for Gift {
    type V = GiftV;

    open spec fn view(&self) -> GiftV {
        GiftV { depth: self.depth, c: self.c }
    }
}

/// A gift satisfies a wish when both sit at the same depth and the gift's
/// character is among the ones the wish accepts.
pub open spec fn spec_satisfies(g: GiftV, w: WishV) -> bool {
    w.depth == g.depth && w.any_of.contains(g.c)
}

impl Gift {
    pub fn satisfies(&self, wish: &Wish) -> (r: bool)
        ensures
            r == spec_satisfies(self@, wish@),
    {
        if wish.depth != self.depth {
            return false;
        }
        let n = wish.any_of.chars.len();
        let mut i: usize = 0;
        while i < n
            invariant
                i <= n,
                n == wish.any_of.chars@.len(),
                wish.depth == self.depth,
                forall|j: int| 0 <= j < i ==> wish.any_of.chars@[j] != self.c,
            decreases n - i,
        {
            if wish.any_of.chars[i] == self.c {
                assert(wish.any_of@.contains(self.c)) by {
                    assert(wish.any_of@[i as int] == self.c);
                }
                return true;
            }
            i += 1;
        }
        assert(!wish.any_of@.contains(self.c));
        false
    }
}

} // verus!
