use vstd::prelude::*;

use crate::interner::Interner;

verus! {

/// A handle on an interned identifier; equal handles denote the same text.
#[derive(Clone, Copy, Debug, PartialEq, Eq, Hash, Structural)]
pub struct Symbol {
    pub idx: u64,
}

impl Symbol {
    pub fn new(idx: u64) -> (r: Symbol)
        ensures
            r.idx == idx,
    {
        Symbol { idx }
    }

    /// The handle used where no identifier is known yet.
    pub open spec fn spec_dummy() -> Symbol {
        Symbol { idx: u64::MAX }
    }

    pub fn dummy() -> (r: Symbol)
        ensures
            r == Symbol::spec_dummy(),
    {
        Symbol { idx: u64::MAX }
    }
}

/// A fully qualified name: an ordered sequence of symbols.
#[derive(Debug)]
pub struct Path {
    pub parts: Vec<Symbol>,
}

impl View for Path {
    type V = Seq<Symbol>;

    open spec fn view(&self) -> Seq<Symbol> {
        self.parts@
    }
}

impl Path {
    pub fn empty() -> (r: Path)
        ensures
            r@ == Seq::<Symbol>::empty(),
    {
        Path { parts: Vec::new() }
    }

    pub fn len(&self) -> (r: usize)
        ensures
            r == self@.len(),
    {
        self.parts.len()
    }

    /// A copy of this path.
    pub fn duplicate(&self) -> (r: Path)
        ensures
            r@ == self@,
    {
        self.append_parts(&[])
    }

    /// A copy of this path with one more segment at its end.
    pub fn append(&self, symbol: Symbol) -> (r: Path)
        ensures
            r@ == self@.push(symbol),
    {
        let mut r = self.append_parts(&[]);
        r.parts.push(symbol);
        r
    }

    /// A copy of this path followed by the given segments.
    pub fn append_parts(&self, parts: &[Symbol]) -> (r: Path)
        ensures
            r@ == self@ + parts@,
    {
        let r = self.append_parts_from(parts, 0);
        assert(parts@.subrange(0, parts@.len() as int) == parts@);
        r
    }

    /// A copy of this path followed by the segments of `parts` from `from` on.
    pub fn append_parts_from(&self, parts: &[Symbol], from: usize) -> (r: Path)
        ensures
            from <= parts@.len() ==> r@ == self@ + parts@.subrange(from as int, parts@.len() as int),
            from > parts@.len() ==> r@ == self@,
    {
        let mut out: Vec<Symbol> = Vec::new();
        let mut i: usize = 0;
        while i < self.parts.len()
            invariant
                i <= self@.len(),
                out@ == self@.subrange(0, i as int),
            decreases self@.len() - i,
        {
            out.push(self.parts[i]);
            i += 1;
        }
        assert(self@.subrange(0, self@.len() as int) == self@);
        if from > parts.len() {
            return Path { parts: out };
        }
        let mut j: usize = from;
        while j < parts.len()
            invariant
                from <= j <= parts@.len(),
                out@ == self@ + parts@.subrange(from as int, j as int),
            decreases parts@.len() - j,
        {
            out.push(parts[j]);
            assert(parts@.subrange(from as int, j + 1) == parts@.subrange(from as int, j as int).push(parts@[j as int]));
            j += 1;
        }
        Path { parts: out }
    }

    pub fn push(&mut self, symbol: Symbol)
        ensures
            final(self)@ == old(self)@.push(symbol),
    {
        self.parts.push(symbol);
    }

    pub fn pop(&mut self)
        ensures
            old(self)@.len() > 0 ==> final(self)@ == old(self)@.drop_last(),
            old(self)@.len() == 0 ==> final(self)@ == old(self)@,
    {
        if self.parts.len() > 0 {
            self.parts.pop();
        }
    }

    /// Whether both paths hold the same segments in the same order.
    pub fn same(&self, other: &Path) -> (r: bool)
        ensures
            r == (self@ == other@),
    {
        if self.parts.len() != other.parts.len() {
            return false;
        }
        let mut i: usize = 0;
        while i < self.parts.len()
            invariant
                self@.len() == other@.len(),
                i <= self@.len(),
                self@.subrange(0, i as int) == other@.subrange(0, i as int),
            decreases self@.len() - i,
        {
            if self.parts[i] != other.parts[i] {
                assert(self@[i as int] != other@[i as int]);
                return false;
            }
            assert(self@.subrange(0, i + 1) == self@.subrange(0, i as int).push(self@[i as int]));
            assert(other@.subrange(0, i + 1) == other@.subrange(0, i as int).push(other@[i as int]));
            i += 1;
        }
        assert(self@.subrange(0, i as int) == self@);
        assert(other@.subrange(0, i as int) == other@);
        true
    }
}

/// The segments of `p` as text, separated by dots.
pub open spec fn path_text(names: Seq<Seq<char>>, p: Seq<Symbol>) -> Seq<char>
    decreases p.len(),
{
    if p.len() == 0 {
        Seq::empty()
    } else if p.len() == 1 {
        names[p[0].idx as int]
    } else {
        path_text(names, p.drop_last()) + seq!['.'] + names[p.last().idx as int]
    }
}

impl Path {
    /// The path as text, its segments separated by dots.
    pub fn as_string(&self, interner: &Interner) -> (r: String)
        requires
            forall|i: int| 0 <= i < self@.len() ==> interner.knows(#[trigger] self@[i]),
        ensures
            r@ == path_text(interner.names(), self@),
    {
        let mut out = String::new();
        let mut i: usize = 0;
        while i < self.parts.len()
            invariant
                i <= self@.len(),
                forall|j: int| 0 <= j < self@.len() ==> interner.knows(#[trigger] self@[j]),
                out@ == path_text(interner.names(), self@.subrange(0, i as int)),
            decreases self@.len() - i,
        {
            let ghost before = out@;
            if i > 0 {
                out.append(".");
            }
            out.append(interner.get(self.parts[i]));
            proof {
                let p = self@.subrange(0, i + 1);
                assert(p.drop_last() == self@.subrange(0, i as int));
                if i == 0 {
                    assert(before == Seq::<char>::empty());
                    assert(out@ =~= interner.text(self@[0]));
                } else {
                    reveal_strlit(".");
                    assert(out@ =~= before + seq!['.'] + interner.text(self@[i as int]));
                }
            }
            i += 1;
        }
        assert(self@.subrange(0, self@.len() as int) == self@);
        out
    }
}

/// What an identifier occurrence refers to, seen as a mathematical value.
pub enum Binding {
    Local(nat),
    Absolute(Seq<Symbol>),
    Undetermined,
}

/// What an identifier occurrence refers to.
#[derive(Debug)]
pub enum Bound {
    /// A local binding, counted from the innermost visible one (0).
    Local(usize),
    /// A declaration named by its fully qualified path.
    Absolute(Path),
    /// The placeholder that a successful resolution never leaves behind.
    Undetermined,
}

impl View for Bound {
    type V = Binding;

    open spec fn view(&self) -> Binding {
        match self {
            Bound::Local(i) => Binding::Local(*i as nat),
            Bound::Absolute(p) => Binding::Absolute(p@),
            Bound::Undetermined => Binding::Undetermined,
        }
    }
}

impl Bound {
    pub fn is_undetermined(&self) -> (r: bool)
        ensures
            r == (self@ is Undetermined),
    {
        match self {
            Bound::Undetermined => true,
            _ => false,
        }
    }
}

} // verus!
