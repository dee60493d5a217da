//! Spans, errors with messages, and the environment of names that the type
//! checker and the evaluator keep.
use vstd::prelude::*;

verus! {

/// A range of character offsets, `start..end`.
#[derive(Clone, Copy, Debug, PartialEq, Eq, Structural)]
pub struct Span {
    pub start: usize,
    pub end: usize,
}

/// A value with the span of source it came from.
#[derive(Clone, Debug)]
pub struct Spanned<Data> {
    pub data: Data,
    pub span: Span,
}

pub trait HasSpan: Sized {
    fn spanned(self, span: Span) -> (r: Spanned<Self>)
        ensures
            r.data == self,
            r.span == span,
    {
        Spanned { data: self, span }
    }

    /// Spans from the start of `start_span` to the end of `end_span`.
    fn start_end(self, start_span: Span, end_span: Span) -> (r: Spanned<Self>)
        ensures
            r.data == self,
            r.span == (Span { start: start_span.start, end: end_span.end }),
    {
        Spanned { data: self, span: Span { start: start_span.start, end: end_span.end } }
    }
}

/// An error that can describe itself.
pub trait Error {
    fn message(&self) -> String;
}

/// The value of the first entry named `name` in `entries`, from index `i` on.
pub open spec fn first_entry<T>(entries: Seq<(String, T)>, name: Seq<char>, i: int) -> Option<T>
    decreases entries.len() - i,
{
    if i < 0 || i >= entries.len() {
        None
    } else if entries[i].0@ == name {
        Some(entries[i].1)
    } else {
        first_entry(entries, name, i + 1)
    }
}

/// The value of the last entry named `name` among the first `n` entries.
pub open spec fn last_entry<T>(entries: Seq<(String, T)>, name: Seq<char>, n: int) -> Option<T>
    decreases n,
{
    if n <= 0 || n > entries.len() {
        None
    } else if entries[n - 1].0@ == name {
        Some(entries[n - 1].1)
    } else {
        last_entry(entries, name, n - 1)
    }
}

/// The position of the last entry named `name` among the first `n` entries.
pub open spec fn last_position<T>(entries: Seq<(String, T)>, name: Seq<char>, n: int) -> Option<int>
    decreases n,
{
    if n <= 0 || n > entries.len() {
        None
    } else if entries[n - 1].0@ == name {
        Some(n - 1)
    } else {
        last_position(entries, name, n - 1)
    }
}

/// The position of the first entry named `name` from index `i` on.
pub open spec fn first_position<T>(entries: Seq<(String, T)>, name: Seq<char>, i: int) -> Option<int>
    decreases entries.len() - i,
{
    if i < 0 || i >= entries.len() {
        None
    } else if entries[i].0@ == name {
        Some(i)
    } else {
        first_position(entries, name, i + 1)
    }
}

/// `entries` with `name` bound to `value`: its first entry gets the value,
/// or a new entry goes last.
pub open spec fn define_entry<T>(entries: Seq<(String, T)>, name: String, value: T) -> Seq<(String, T)> {
    match first_position(entries, name@, 0) {
        Some(i) => entries.update(i, (entries[i].0, value)),
        None => entries.push((name, value)),
    }
}

/// Global definitions, and a stack of local ones that shadow them.
pub struct Environment<T> {
    global: Vec<(String, T)>,
    locals: Vec<(String, T)>,
}

impl<T> Environment<T> {
    /// The value a global name is bound to.
    pub closed spec fn global(&self, name: Seq<char>) -> Option<T> {
        first_entry(self.global@, name, 0)
    }

    /// The local bindings, innermost last.
    pub closed spec fn locals(&self) -> Seq<(String, T)> {
        self.locals@
    }

    /// The global bindings, in order of definition.
    pub closed spec fn globals(&self) -> Seq<(String, T)> {
        self.global@
    }

    /// A global name is bound to its first global entry.
    pub proof fn lemma_global(&self, name: Seq<char>)
        ensures
            self.global(name) == first_entry(self.globals(), name, 0),
    {
    }

    /// The value `name` stands for: its innermost local binding, else its
    /// global one.
    pub open spec fn lookup(&self, name: Seq<char>) -> Option<T> {
        match last_entry(self.locals(), name, self.locals().len() as int) {
            Some(v) => Some(v),
            None => self.global(name),
        }
    }

    pub fn new() -> (r: Self)
        ensures
            r.locals().len() == 0,
            forall|name: Seq<char>| #[trigger] r.global(name) is None,
    {
        Environment { global: Vec::new(), locals: Vec::new() }
    }

    /// Position of the global entry named `name`.
    fn global_index(&self, name: &String) -> (r: Option<usize>)
        ensures
            r is None ==> self.global(name@) is None,
            r is Some ==> r->Some_0 < self.global@.len() && self.global@[r->Some_0 as int].0@ == name@
                && self.global(name@) == Some(self.global@[r->Some_0 as int].1),
            r is Some ==> forall|j: int| 0 <= j < r->Some_0 ==> self.global@[j].0@ != name@,
            r is Some ==> first_position(self.global@, name@, 0) == Some(r->Some_0 as int),
            r is None ==> first_position(self.global@, name@, 0) is None,
    {
        let mut i: usize = 0;
        while i < self.global.len()
            invariant
                i <= self.global@.len(),
                forall|j: int| 0 <= j < i ==> self.global@[j].0@ != name@,
                first_entry(self.global@, name@, i as int) == self.global(name@),
                first_position(self.global@, name@, i as int) == first_position(self.global@, name@, 0),
            decreases self.global@.len() - i,
        {
            if self.global[i].0 == *name {
                return Some(i);
            }
            i += 1;
        }
        None
    }

    /// Removes the `n` innermost local bindings (all of them if fewer).
    pub fn shallow(&mut self, n: usize)
        ensures
            final(self).locals() == old(self).locals().subrange(
                0,
                if n <= old(self).locals().len() {
                    old(self).locals().len() - n
                } else {
                    0
                },
            ),
            final(self).globals() == old(self).globals(),
            forall|other: Seq<char>| #[trigger] final(self).global(other) == old(self).global(other),
    {
        let mut k: usize = 0;
        while k < n
            invariant
                k <= n,
                self.global == old(self).global,
                self.locals@ == old(self).locals@.subrange(
                    0,
                    if k <= old(self).locals@.len() {
                        old(self).locals@.len() - k
                    } else {
                        0
                    },
                ),
            decreases n - k,
        {
            self.locals.pop();
            k += 1;
        }
    }

    /// Binds `name` globally to `value`, replacing an earlier global binding.
    pub fn define_global(&mut self, name: String, value: T)
        ensures
            final(self).locals() == old(self).locals(),
            final(self).global(name@) == Some(value),
            forall|other: Seq<char>| other != name@ ==> #[trigger] final(self).global(other) == old(self).global(other),
            final(self).globals() == define_entry(old(self).globals(), name, value),
    {
        match self.global_index(&name) {
            Some(i) => {
                let entry = &mut self.global[i];
                entry.1 = value;
                proof {
                    assert forall|other: Seq<char>| other != name@ implies #[trigger] first_entry(self.global@, other, 0)
                        == first_entry(old(self).global@, other, 0) by {
                        lemma_first_entry_update(old(self).global@, self.global@, other, i as int, 0);
                    }
                    lemma_first_entry_update_same(old(self).global@, self.global@, name@, i as int, 0);
                }
            },
            None => {
                let ghost before = self.global@;
                self.global.push((name, value));
                proof {
                    assert forall|other: Seq<char>| #![trigger first_entry(self.global@, other, 0)]
                        first_entry(self.global@, other, 0) == if first_entry(before, other, 0) is Some {
                            first_entry(before, other, 0)
                        } else if other == self.global@.last().0@ {
                            Some(self.global@.last().1)
                        } else {
                            None
                        } by {
                        lemma_first_entry_push(before, self.global@, other, 0);
                    }
                }
            },
        }
    }

    /// Pushes a local binding of `name` to `value`.
    pub fn define_local(&mut self, name: String, value: T)
        ensures
            final(self).locals() == old(self).locals().push((name, value)),
            final(self).globals() == old(self).globals(),
            forall|other: Seq<char>| #[trigger] final(self).global(other) == old(self).global(other),
    {
        self.locals.push((name, value));
    }

    /// The global binding of `name`.
    pub fn resolve_global(&self, name: &String) -> (r: Option<&T>)
        ensures
            r is None <==> self.global(name@) is None,
            r is Some ==> self.global(name@) == Some(*r->Some_0),
    {
        match self.global_index(name) {
            Some(i) => Some(&self.global[i].1),
            None => None,
        }
    }

    /// What `name` stands for: its innermost local binding, else its global
    /// one.
    pub fn resolve(&self, name: &String) -> (r: Option<&T>)
        ensures
            r is None <==> self.lookup(name@) is None,
            r is Some ==> self.lookup(name@) == Some(*r->Some_0),
    {
        let mut n: usize = self.locals.len();
        while n > 0
            invariant
                n <= self.locals@.len(),
                last_entry(self.locals@, name@, n as int) == last_entry(
                    self.locals@,
                    name@,
                    self.locals@.len() as int,
                ),
            decreases n,
        {
            if self.locals[n - 1].0 == *name {
                return Some(&self.locals[n - 1].1);
            }
            n -= 1;
        }
        self.resolve_global(name)
    }

    /// Rebinds the global `name` to `value`.
    pub fn assign_global(&mut self, name: &String, value: T)
        requires
            old(self).global(name@) is Some,
        ensures
            final(self).locals() == old(self).locals(),
            final(self).global(name@) == Some(value),
            forall|other: Seq<char>| other != name@ ==> #[trigger] final(self).global(other) == old(self).global(other),
    {
        let i = match self.global_index(name) {
            Some(i) => i,
            None => return,
        };
        let entry = &mut self.global[i];
        entry.1 = value;
        proof {
            assert forall|other: Seq<char>| other != name@ implies #[trigger] first_entry(self.global@, other, 0)
                == first_entry(old(self).global@, other, 0) by {
                lemma_first_entry_update(old(self).global@, self.global@, other, i as int, 0);
            }
            lemma_first_entry_update_same(old(self).global@, self.global@, name@, i as int, 0);
        }
    }

    /// Rebinds what `name` stands for: its innermost local binding, else its
    /// global one.
    pub fn assign(&mut self, name: &String, value: T)
        requires
            old(self).lookup(name@) is Some,
        ensures
            final(self).lookup(name@) == Some(value),
            forall|other: Seq<char>| other != name@ ==> #[trigger] final(self).lookup(other) == old(self).lookup(other),
            final(self).locals().len() == old(self).locals().len(),
            match last_position(old(self).locals(), name@, old(self).locals().len() as int) {
                Some(k) => final(self).locals() == old(self).locals().update(k, (old(self).locals()[k].0, value))
                    && final(self).globals() == old(self).globals(),
                None => final(self).locals() == old(self).locals() && final(self).global(name@) == Some(value)
                    && forall|other: Seq<char>| other != name@ ==> #[trigger] final(self).global(other) == old(
                    self,
                ).global(other),
            },
    {
        let mut n: usize = self.locals.len();
        while n > 0
            invariant
                n <= self.locals@.len(),
                self.locals == old(self).locals,
                self.global == old(self).global,
                old(self).lookup(name@) is Some,
                last_entry(self.locals@, name@, n as int) == last_entry(
                    self.locals@,
                    name@,
                    self.locals@.len() as int,
                ),
                last_position(self.locals@, name@, n as int) == last_position(
                    self.locals@,
                    name@,
                    self.locals@.len() as int,
                ),
                forall|k: int| n <= k < self.locals@.len() ==> self.locals@[k].0@ != name@,
            decreases n,
        {
            if self.locals[n - 1].0 == *name {
                let ghost before = self.locals@;
                let entry = &mut self.locals[n - 1];
                entry.1 = value;
                proof {
                    lemma_last_entry_update(before, self.locals@, name@, (n - 1) as int);
                }
                return;
            }
            n -= 1;
        }
        proof {
            lemma_last_entry_none(self.locals@, name@);
        }
        let ghost before = self.locals@;
        self.assign_global(name, value);
        proof {
            assert forall|other: Seq<char>| other != name@ implies #[trigger] self.lookup(other) == old(self).lookup(other) by {}
        }
    }

    /// Appends the given bindings to the local ones.
    pub fn extend(&mut self, closure: Vec<(String, T)>)
        ensures
            final(self).locals() == old(self).locals() + closure@,
            final(self).globals() == old(self).globals(),
            forall|other: Seq<char>| #[trigger] final(self).global(other) == old(self).global(other),
    {
        let mut closure = closure;
        self.locals.append(&mut closure);
    }
}

impl<T: Clone> Environment<T> {
    /// A copy of the local bindings.
    pub fn capture(&self) -> (r: Vec<(String, T)>)
        ensures
            r@.len() == self.locals().len(),
            forall|i: int| 0 <= i < r@.len() ==> (#[trigger] r@[i]).0 == self.locals()[i].0,
            forall|i: int| 0 <= i < r@.len() ==> cloned(self.locals()[i].1, #[trigger] r@[i].1),
    {
        let mut r: Vec<(String, T)> = Vec::new();
        let mut i: usize = 0;
        while i < self.locals.len()
            invariant
                i <= self.locals@.len(),
                r@.len() == i,
                forall|j: int| 0 <= j < i ==> (#[trigger] r@[j]).0 == self.locals@[j].0,
                forall|j: int| 0 <= j < i ==> cloned(self.locals@[j].1, #[trigger] r@[j].1),
            decreases self.locals@.len() - i,
        {
            let name = self.locals[i].0.clone();
            let value = self.locals[i].1.clone();
            r.push((name, value));
            i += 1;
        }
        r
    }
}

proof fn lemma_first_entry_update<T>(before: Seq<(String, T)>, after: Seq<(String, T)>, name: Seq<char>, k: int, i: int)
    requires
        0 <= k < before.len(),
        after.len() == before.len(),
        after[k].0 == before[k].0,
        before[k].0@ != name,
        forall|j: int| 0 <= j < before.len() && j != k ==> after[j] == before[j],
    ensures
        first_entry(after, name, i) == first_entry(before, name, i),
    decreases before.len() - i,
{
    if 0 <= i < before.len() {
        lemma_first_entry_update(before, after, name, k, i + 1);
    }
}

proof fn lemma_first_entry_update_same<T>(before: Seq<(String, T)>, after: Seq<(String, T)>, name: Seq<char>, k: int, i: int)
    requires
        0 <= i <= k < after.len(),
        after[k].0@ == name,
        forall|j: int| 0 <= j < k ==> after[j].0@ != name,
    ensures
        first_entry(after, name, i) == Some(after[k].1),
    decreases k - i,
{
    if i < k {
        lemma_first_entry_update_same(before, after, name, k, i + 1);
    }
}

proof fn lemma_first_entry_push<T>(before: Seq<(String, T)>, after: Seq<(String, T)>, name: Seq<char>, i: int)
    requires
        after.len() == before.len() + 1,
        forall|j: int| 0 <= j < before.len() ==> after[j] == before[j],
        0 <= i <= before.len(),
    ensures
        first_entry(after, name, i) == if first_entry(before, name, i) is Some {
            first_entry(before, name, i)
        } else if name == after.last().0@ {
            Some(after.last().1)
        } else {
            None
        },
    decreases before.len() - i,
{
    if i < before.len() {
        lemma_first_entry_push(before, after, name, i + 1);
    } else {
        assert(first_entry(after, name, i + 1) is None);
    }
}

proof fn lemma_last_entry_update<T>(before: Seq<(String, T)>, after: Seq<(String, T)>, name: Seq<char>, k: int)
    requires
        0 <= k < before.len(),
        after.len() == before.len(),
        after[k].0 == before[k].0,
        before[k].0@ == name,
        forall|j: int| k < j < before.len() ==> before[j].0@ != name,
        forall|j: int| 0 <= j < before.len() && j != k ==> after[j] == before[j],
    ensures
        last_entry(after, name, after.len() as int) == Some(after[k].1),
        forall|other: Seq<char>| other != name ==> #[trigger] last_entry(after, other, after.len() as int)
            == last_entry(before, other, before.len() as int),
{
    lemma_last_entry_skip(after, name, k, after.len() as int);
    assert forall|other: Seq<char>| other != name implies #[trigger] last_entry(after, other, after.len() as int)
        == last_entry(before, other, before.len() as int) by {
        lemma_last_entry_other(before, after, other, k, after.len() as int);
    }
}

proof fn lemma_last_entry_skip<T>(entries: Seq<(String, T)>, name: Seq<char>, k: int, n: int)
    requires
        0 <= k < n <= entries.len(),
        entries[k].0@ == name,
        forall|j: int| k < j < entries.len() ==> entries[j].0@ != name,
    ensures
        last_entry(entries, name, n) == Some(entries[k].1),
    decreases n,
{
    if n - 1 > k {
        lemma_last_entry_skip(entries, name, k, n - 1);
    }
}

proof fn lemma_last_entry_other<T>(before: Seq<(String, T)>, after: Seq<(String, T)>, other: Seq<char>, k: int, n: int)
    requires
        0 <= k < before.len(),
        after.len() == before.len(),
        after[k].0 == before[k].0,
        before[k].0@ != other,
        forall|j: int| 0 <= j < before.len() && j != k ==> after[j] == before[j],
        0 <= n <= before.len(),
    ensures
        last_entry(after, other, n) == last_entry(before, other, n),
    decreases n,
{
    if n > 0 {
        lemma_last_entry_other(before, after, other, k, n - 1);
    }
}

proof fn lemma_last_entry_none<T>(entries: Seq<(String, T)>, name: Seq<char>)
    requires
        forall|k: int| 0 <= k < entries.len() ==> entries[k].0@ != name,
    ensures
        last_entry(entries, name, entries.len() as int) is None,
{
    lemma_last_entry_none_below(entries, name, entries.len() as int);
}

proof fn lemma_last_entry_none_below<T>(entries: Seq<(String, T)>, name: Seq<char>, n: int)
    requires
        0 <= n <= entries.len(),
        forall|k: int| 0 <= k < entries.len() ==> entries[k].0@ != name,
    ensures
        last_entry(entries, name, n) is None,
    decreases n,
{
    if n > 0 {
        lemma_last_entry_none_below(entries, name, n - 1);
    }
}

} // verus!
