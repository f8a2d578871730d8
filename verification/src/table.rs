//! Insertion-ordered, duplicate-free symbol tables.
//!
//! A table binds string names to dense identifiers equal to insertion rank:
//! the identifier of the i-th distinct name ever created is i, and
//! identifiers are never reused or reassigned.  The same primitive serves
//! register names and instruction labels.
//!
//! The storage is indexmap's `IndexSet`, kept behind trusted wrappers; its
//! abstract contents are the insertion-ordered sequence `set_names`.

use vstd::prelude::*;

verus! {

/// A dense identifier: a thin wrapper around a table index.
pub trait Id: Sized + Copy {
    /// The index this identifier stands for.
    spec fn id_index(self) -> usize;

    /// Wraps an index.
    fn from_index(index: usize) -> (r: Self)
        ensures
            r.id_index() == index,
    ;

    /// Unwraps back to the index.
    fn into_index(self) -> (r: usize)
        ensures
            r == self.id_index(),
    ;
}

impl Id for usize {
    open spec fn id_index(self) -> usize {
        self
    }

    fn from_index(index: usize) -> (r: Self) {
        index
    }

    fn into_index(self) -> (r: usize) {
        self
    }
}

/// indexmap's insertion-ordered set, kept opaque.
#[verifier::external_type_specification]
#[verifier::external_body]
#[verifier::reject_recursive_types(T)]
#[verifier::reject_recursive_types(S)]
pub struct ExIndexSet<T, S>(indexmap::IndexSet<T, S>);

/// The elements of a name set, in insertion order.
pub uninterp spec fn set_names(s: indexmap::IndexSet<String>) -> Seq<Seq<char>>;

/// Relies on `IndexSet::new`: the new set is empty.
#[verifier::external_body]
fn index_set_new() -> (s: indexmap::IndexSet<String>)
    ensures
        set_names(s) == Seq::<Seq<char>>::empty(),
{
    indexmap::IndexSet::new()
}

/// Relies on `IndexSet::len`: the number of elements.
#[verifier::external_body]
fn index_set_len(s: &indexmap::IndexSet<String>) -> (r: usize)
    ensures
        r == set_names(*s).len(),
{
    s.len()
}

/// Relies on `IndexSet::insert_full`: a new element is appended and its index
/// returned with `true`; an equal existing element is left in place, in its
/// insertion order, and its index returned with `false`.
#[verifier::external_body]
fn index_set_insert_full(s: &mut indexmap::IndexSet<String>, value: String) -> (r: (usize, bool))
    ensures
        r.1 == !set_names(*old(s)).contains(value@),
        r.1 ==> set_names(*final(s)) == set_names(*old(s)).push(value@) && r.0 == set_names(
            *old(s),
        ).len(),
        !r.1 ==> set_names(*final(s)) == set_names(*old(s)) && r.0 < set_names(*old(s)).len()
            && set_names(*old(s))[r.0 as int] == value@,
{
    s.insert_full(value)
}

/// Relies on `IndexSet::get_index_of`: the index of the element equal to the
/// query, or `None` when no element is equal to it.
#[verifier::external_body]
fn index_set_get_index_of(s: &indexmap::IndexSet<String>, value: &str) -> (r: Option<usize>)
    ensures
        (match r {
            Some(i) => i < set_names(*s).len() && set_names(*s)[i as int] == value@,
            None => !set_names(*s).contains(value@),
        }),
{
    s.get_index_of(value)
}

/// Relies on `IndexSet::get_index`: the element at the index, if any.
#[verifier::external_body]
fn index_set_get_index<'a>(s: &'a indexmap::IndexSet<String>, index: usize) -> (r: Option<
    &'a String,
>)
    ensures
        (match r {
            Some(v) => index < set_names(*s).len() && v@ == set_names(*s)[index as int],
            None => index >= set_names(*s).len(),
        }),
{
    s.get_index(index)
}

/// An insertion-ordered bijection between string names and dense identifiers.
pub struct SymbolTable<I: Id> {
    symbols: indexmap::IndexSet<String>,
    _marker: core::marker::PhantomData<I>,
}

impl<I: Id> View for SymbolTable<I> {
    type V = Seq<Seq<char>>;

    closed spec fn view(&self) -> Seq<Seq<char>> {
        set_names(self.symbols)
    }
}

impl<I: Id> SymbolTable<I> {
    /// The names are pairwise distinct, so rank determines name and name
    /// determines rank.
    pub open spec fn wf(&self) -> bool {
        forall|i: int, j: int| 0 <= i < j < self@.len() ==> self@[i] != self@[j]
    }

    /// Creates an empty table.
    pub fn empty() -> (t: Self)
        ensures
            t@ == Seq::<Seq<char>>::empty(),
            t.wf(),
    {
        SymbolTable { symbols: index_set_new(), _marker: core::marker::PhantomData }
    }

    /// The number of names bound so far.
    pub fn len(&self) -> (r: usize)
        ensures
            r == self@.len(),
    {
        index_set_len(&self.symbols)
    }

    /// Binds a new name to the next rank, or reports the identifier the name
    /// already has, leaving the table unchanged.
    pub fn try_create(&mut self, symbol: String) -> (r: Result<I, I>)
        requires
            old(self).wf(),
        ensures
            final(self).wf(),
            (match r {
                Ok(id) => !old(self)@.contains(symbol@) && final(self)@ == old(self)@.push(symbol@)
                    && id.id_index() == old(self)@.len(),
                Err(id) => old(self)@.contains(symbol@) && final(self)@ == old(self)@
                    && id.id_index() < old(self)@.len() && old(self)@[id.id_index() as int]
                    == symbol@,
            }),
    {
        let ghost pre = self@;
        let (index, created) = index_set_insert_full(&mut self.symbols, symbol);
        if created {
            proof {
                assert forall|i: int, j: int| 0 <= i < j < self@.len() implies self@[i]
                    != self@[j] by {
                    if j < pre.len() {
                    } else {
                        assert(self@[j] == symbol@);
                        assert(!pre.contains(symbol@));
                        assert(pre[i] == self@[i]);
                    }
                }
            }
            Ok(I::from_index(index))
        } else {
            Err(I::from_index(index))
        }
    }

    /// Binds a new name, which must not be present yet.
    pub fn create(&mut self, symbol: &str) -> (id: I)
        requires
            old(self).wf(),
            !old(self)@.contains(symbol@),
        ensures
            final(self).wf(),
            final(self)@ == old(self)@.push(symbol@),
            id.id_index() == old(self)@.len(),
    {
        match self.try_create(symbol.to_owned()) {
            Ok(id) => id,
            Err(_) => vstd::pervasive::unreached(),
        }
    }

    /// Binds the name if it is new, and either way returns its identifier.
    pub fn insert(&mut self, symbol: String) -> (id: I)
        requires
            old(self).wf(),
        ensures
            final(self).wf(),
            old(self)@.contains(symbol@) ==> final(self)@ == old(self)@ && id.id_index() < old(
                self,
            )@.len() && old(self)@[id.id_index() as int] == symbol@,
            !old(self)@.contains(symbol@) ==> final(self)@ == old(self)@.push(symbol@)
                && id.id_index() == old(self)@.len(),
    {
        match self.try_create(symbol) {
            Ok(id) => id,
            Err(id) => id,
        }
    }

    /// Looks a name up, returning its identifier if it is bound.
    pub fn try_symbol_to_id(&self, symbol: &str) -> (r: Option<I>)
        ensures
            (match r {
                Some(id) => self@.contains(symbol@) && id.id_index() < self@.len()
                    && self@[id.id_index() as int] == symbol@,
                None => !self@.contains(symbol@),
            }),
    {
        match index_set_get_index_of(&self.symbols, symbol) {
            Some(index) => Some(I::from_index(index)),
            None => None,
        }
    }

    /// Looks a bound name up.
    pub fn symbol_to_id(&self, symbol: &str) -> (id: I)
        requires
            self@.contains(symbol@),
        ensures
            id.id_index() < self@.len(),
            self@[id.id_index() as int] == symbol@,
    {
        match self.try_symbol_to_id(symbol) {
            Some(id) => id,
            None => vstd::pervasive::unreached(),
        }
    }

    /// Reads the name at an identifier, if the identifier has been issued.
    pub fn try_id_to_symbol(&self, id: I) -> (r: Option<&String>)
        ensures
            (match r {
                Some(s) => id.id_index() < self@.len() && s@ == self@[id.id_index() as int],
                None => id.id_index() >= self@.len(),
            }),
    {
        index_set_get_index(&self.symbols, id.into_index())
    }

    /// Reads the name at an issued identifier.
    pub fn id_to_symbol(&self, id: I) -> (s: &String)
        requires
            id.id_index() < self@.len(),
        ensures
            s@ == self@[id.id_index() as int],
    {
        match self.try_id_to_symbol(id) {
            Some(s) => s,
            None => vstd::pervasive::unreached(),
        }
    }

    /// Whether the name is bound.
    pub fn contains_symbol(&self, symbol: &str) -> (r: bool)
        ensures
            r == self@.contains(symbol@),
    {
        match index_set_get_index_of(&self.symbols, symbol) {
            Some(_) => true,
            None => false,
        }
    }

    /// Whether the identifier has been issued.
    pub fn contains_id(&self, id: I) -> (r: bool)
        ensures
            r == (id.id_index() < self@.len()),
    {
        match self.try_id_to_symbol(id) {
            Some(_) => true,
            None => false,
        }
    }

    /// All `(name, identifier)` pairs, in insertion order.
    pub fn iter(&self) -> (r: Vec<(String, I)>)
        ensures
            r@.len() == self@.len(),
            forall|i: int|
                0 <= i < self@.len() ==> (#[trigger] r@[i]).0@ == self@[i] && r@[i].1.id_index()
                    as int == i,
    {
        let mut pairs: Vec<(String, I)> = Vec::new();
        let n = self.len();
        let mut k: usize = 0;
        while k < n
            invariant
                n == self@.len(),
                k <= n,
                pairs@.len() == k as int,
                forall|i: int|
                    0 <= i < k as int ==> (#[trigger] pairs@[i]).0@ == self@[i]
                        && pairs@[i].1.id_index() as int == i,
            decreases n - k,
        {
            let name = match index_set_get_index(&self.symbols, k) {
                Some(s) => s,
                None => vstd::pervasive::unreached(),
            };
            pairs.push((name.clone(), I::from_index(k)));
            k = k + 1;
        }
        pairs
    }
}

/// The name↔identifier mapping is a bijection onto `[0, len)`: reading the
/// name at a rank and looking that name up returns the same rank, and
/// looking a bound name up and reading the name at the resulting rank
/// returns the same name.
pub proof fn lemma_symbol_table_bijection<I: Id>(t: SymbolTable<I>, i: int, k: Seq<char>)
    requires
        t.wf(),
    ensures
        0 <= i < t@.len() ==> t@.index_of(t@[i]) == i,
        t@.contains(k) ==> t@[t@.index_of(k)] == k,
{
    if 0 <= i < t@.len() {
        assert(t@.contains(t@[i]));
        let j = t@.index_of(t@[i]);
        assert(0 <= j < t@.len() && t@[j] == t@[i]);
        if i != j {
            assert(false);
        }
    }
    if t@.contains(k) {
        let j = choose|j: int| 0 <= j < t@.len() && t@[j] == k;
        assert(0 <= t@.index_of(k) < t@.len() && t@[t@.index_of(k)] == k);
    }
}

} // verus!
