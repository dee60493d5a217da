//! Maps symbols to the text of the identifiers they stand for.
use vstd::prelude::*;

use crate::path::Symbol;

verus! {

/// The text of interned identifiers; a symbol is the position of its text.
pub struct Interner {
    names: Vec<String>,
}

impl Interner {
    /// The interned texts, in order of interning.
    pub closed spec fn names(&self) -> Seq<Seq<char>> {
        self.names@.map_values(|s: String| s@)
    }

    pub open spec fn knows(&self, s: Symbol) -> bool {
        s.idx < self.names().len()
    }

    pub open spec fn text(&self, s: Symbol) -> Seq<char> {
        self.names()[s.idx as int]
    }

    pub fn new() -> (r: Interner)
        ensures
            r.names().len() == 0,
    {
        Interner { names: Vec::new() }
    }

    /// The symbol of `name`, interning it if it is new.
    pub fn intern(&mut self, name: &str) -> (r: Symbol)
        requires
            old(self).names().len() < u64::MAX,
        ensures
            final(self).knows(r),
            final(self).text(r) == name@,
            old(self).names().contains(name@) ==> final(self).names() == old(self).names(),
            !old(self).names().contains(name@) ==> final(self).names() == old(self).names().push(name@),
    {
        let text = String::from_str(name);
        let mut i: usize = 0;
        while i < self.names.len()
            invariant
                i <= self.names@.len(),
                self.names@.len() < u64::MAX,
                self == old(self),
                self.names() == old(self).names(),
                text@ == name@,
                forall|j: int| 0 <= j < i ==> self.names()[j] != name@,
            decreases self.names@.len() - i,
        {
            if self.names[i] == text {
                assert(self.names()[i as int] == self.names@[i as int]@);
                assert(old(self).names().contains(name@));
                return Symbol::new(i as u64);
            }
            assert(self.names()[i as int] == self.names@[i as int]@);
            i += 1;
        }
        let r = Symbol::new(self.names.len() as u64);
        let ghost before = self.names();
        self.names.push(text);
        assert(self.names() =~= before.push(name@));
        r
    }

    pub fn get(&self, s: Symbol) -> (r: &str)
        requires
            self.knows(s),
        ensures
            r@ == self.text(s),
    {
        assert(self.names()[s.idx as int] == self.names@[s.idx as int]@);
        let n = self.names.len();
        assert(s.idx < n);
        self.names[s.idx as usize].as_str()
    }
}

} // verus!
