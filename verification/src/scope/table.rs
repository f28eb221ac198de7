//! Association table keyed by identifier.

use vstd::prelude::*;
use crate::identifier::Identifier;

verus! {

/// A table from identifiers to entries in which no name occurs twice.
///
/// Its view is the map from each name to the entry stored under it.
#[derive(Debug)]
pub struct Table<E> {
    names: Vec<Identifier>,
    entries: Vec<E>,
}

impl<E> View for Table<E> {
    type V = Map<Seq<char>, E>;

    closed spec fn view(&self) -> Map<Seq<char>, E> {
        Map::new(
            |name: Seq<char>| self.position(name) is Some,
            |name: Seq<char>| self.entries[self.position(name).unwrap()],
        )
    }
}

impl<E> Table<E> {
    #[verifier::type_invariant]
    spec fn distinct_names(self) -> bool {
        &&& self.names.len() == self.entries.len()
        &&& forall|i: int, j: int|
            0 <= i < j < self.names.len() ==> self.names[i]@ != self.names[j]@
    }

    /// Where a name stands among the entries, if it does.
    closed spec fn position(self, name: Seq<char>) -> Option<int> {
        if exists|i: int| 0 <= i < self.names.len() && self.names[i]@ == name {
            Some(choose|i: int| 0 <= i < self.names.len() && self.names[i]@ == name)
        } else {
            None
        }
    }

    /// A table without entries.
    pub fn new() -> (table: Table<E>)
        ensures
            table@ == Map::<Seq<char>, E>::empty(),
    {
        let table = Table { names: Vec::new(), entries: Vec::new() };
        assert(table@ =~= Map::<Seq<char>, E>::empty());
        table
    }

    /// Number of names in the table.
    pub fn len(&self) -> (n: usize)
        ensures
            n == self@.len(),
            self@.dom().finite(),
    {
        proof {
            use_type_invariant(self);
            self.lemma_domain_size(self.names.len() as int);
            assert(self.known_below(self.names.len() as int) =~= self@.dom());
        }
        self.names.len()
    }

    /// The names held by the first `n` entries.
    spec fn known_below(self, n: int) -> Set<Seq<char>> {
        Set::new(|name: Seq<char>| exists|i: int| 0 <= i < n && self.names[i]@ == name)
    }

    proof fn lemma_domain_size(self, n: int)
        requires
            self.distinct_names(),
            0 <= n <= self.names.len(),
        ensures
            self.known_below(n).finite(),
            self.known_below(n).len() == n,
        decreases n,
    {
        if n == 0 {
            assert(self.known_below(0) =~= Set::<Seq<char>>::empty());
        } else {
            self.lemma_domain_size(n - 1);
            let name = self.names[n - 1]@;
            assert(self.known_below(n) =~= self.known_below(n - 1).insert(name));
            assert(!self.known_below(n - 1).contains(name));
        }
    }

    proof fn lemma_position_at(self, name: Seq<char>, i: int)
        requires
            self.distinct_names(),
            0 <= i < self.names.len(),
            self.names[i]@ == name,
        ensures
            self.position(name) == Some(i),
    {
    }

    fn find(&self, ident: &Identifier) -> (at: Option<usize>)
        ensures
            at matches Some(i) ==> i < self.names.len() && self.names[i as int]@ == ident@
                && self.position(ident@) == Some(i as int),
            at is None ==> self.position(ident@) is None,
    {
        proof {
            use_type_invariant(self);
        }
        let mut i: usize = 0;
        while i < self.names.len()
            invariant
                i <= self.names.len(),
                self.distinct_names(),
                forall|j: int| 0 <= j < i ==> self.names[j]@ != ident@,
            decreases self.names.len() - i,
        {
            if self.names[i].same_name(ident) {
                return Some(i);
            }
            i += 1;
        }
        None
    }

    /// The entry stored under a name, if there is one.
    pub fn get(&self, ident: &Identifier) -> (entry: Option<&E>)
        ensures
            entry == match self@.get(ident@) {
                Some(e) => Some(&e),
                None => None,
            },
    {
        proof {
            use_type_invariant(self);
        }
        match self.find(ident) {
            Some(i) => Some(&self.entries[i]),
            None => None,
        }
    }

    /// Mutable access to the entry stored under a name, if there is one. Whatever the caller
    /// leaves in the entry is what the table then holds under that name.
    pub fn get_mut(&mut self, ident: &Identifier) -> (entry: Option<&mut E>)
        ensures
            match entry {
                Some(e) => old(self)@.contains_key(ident@) && *e == old(self)@[ident@]
                    && final(self)@ =~= old(self)@.insert(ident@, *final(e)),
                None => !old(self)@.contains_key(ident@) && *final(self) == *old(self),
            },
    {
        proof {
            use_type_invariant(&*self);
        }
        match self.find(ident) {
            Some(i) => {
Some(&mut self.entries[i])
            },
            None => None,
        }
    }

    /// Stores an entry under a name and hands back the entry that it replaces, if any.
    pub fn insert(&mut self, ident: Identifier, entry: E) -> (previous: Option<E>)
        ensures
            final(self)@ =~= old(self)@.insert(ident@, entry),
            previous == old(self)@.get(ident@),
    {
        proof {
            use_type_invariant(&*self);
        }
        match self.find(&ident) {
            Some(i) => {
                let mut held = entry;
                core::mem::swap(&mut self.entries[i], &mut held);
                Some(held)
            },
            None => {
                proof {
                    use_type_invariant(&*self);
                }
                let mut grown = Table::new();
                core::mem::swap(self, &mut grown);
                let Table { mut names, mut entries } = grown;
                names.push(ident);
                entries.push(entry);
                *self = Table { names, entries };
                proof {
                    let before = *old(self);
                    let after = *self;
                    let last = before.names.len() as int;
                    assert forall|name: Seq<char>|
                        after.position(name) == (if name == ident@ {
                            Some(last)
                        } else {
                            before.position(name)
                        }) by {
                        if name == ident@ {
                            after.lemma_position_at(name, last);
                        } else if before.position(name) is Some {
                            after.lemma_position_at(name, before.position(name).unwrap());
                        }
                    }
                }
                None
            },
        }
    }
}

impl<E: Clone> Clone for Table<E> {
    /// A table with the same names, each with a clone of its entry.
    fn clone(&self) -> (copy: Table<E>)
        ensures
            copy@.dom() == self@.dom(),
            forall|name: Seq<char>| #[trigger]
                self@.contains_key(name) ==> cloned(self@[name], copy@[name]),
    {
        proof {
            use_type_invariant(self);
        }
        let mut names: Vec<Identifier> = Vec::new();
        let mut entries: Vec<E> = Vec::new();
        let mut i: usize = 0;
        while i < self.names.len()
            invariant
                self.distinct_names(),
                i <= self.names.len(),
                names.len() == i,
                entries.len() == i,
                forall|j: int| 0 <= j < i ==> names[j]@ == self.names[j]@,
                forall|j: int| 0 <= j < i ==> cloned(self.entries[j], #[trigger] entries[j]),
            decreases self.names.len() - i,
        {
            names.push(Identifier(self.names[i].0.clone()));
            entries.push(self.entries[i].clone());
            i += 1;
        }
        let copy = Table { names, entries };
        proof {
            assert forall|name: Seq<char>| copy.position(name) == self.position(name) by {
                if self.position(name) is Some {
                    copy.lemma_position_at(name, self.position(name).unwrap());
                } else if copy.position(name) is Some {
                    self.lemma_position_at(name, copy.position(name).unwrap());
                }
            }
            assert(copy@.dom() =~= self@.dom());
        }
        copy
    }
}

impl<E> Default for Table<E> {
    fn default() -> (table: Table<E>)
        ensures
            table@ == Map::<Seq<char>, E>::empty(),
    {
        Table::new()
    }
}

} // verus!
