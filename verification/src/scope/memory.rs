//! Memory space implementation and scope specification.

use vstd::prelude::*;
use vstd::string::*;
use crate::identifier::Identifier;
use crate::scope::{lemma_nearest_alike, nearest, Scope, ScopeArena, ScopeId};
use crate::scope::symbol::SymbolTable;
use crate::scope::table::Table;

verus! {

/// Symbol and associated memory (if any) structure.
///
/// `memory` is `None` for a symbol that is declared and holds no value yet.
#[derive(Debug, Clone, PartialEq)]
pub struct SymbolMemory<Sym, Val> {
    /// The declared symbol.
    pub symbol: Sym,
    /// What the symbol holds.
    pub memory: Option<Val>,
}

/// Scope specialization with both symbol (of type `Sym`) and memory (values of type `Val`)
/// information.
pub type MemoryScope<Sym, Val> = Scope<Table<SymbolMemory<Sym, Val>>>;

impl<Sym, Val> SymbolTable<Sym> for Table<SymbolMemory<Sym, Val>> {
    open spec fn symbols(&self) -> Map<Seq<char>, Sym> {
        self@.map_values(|slot: SymbolMemory<Sym, Val>| slot.symbol)
    }

    /// A declaration makes the slot anew: whatever the name held before is gone.
    open spec fn declared_from(&self, before: &Self, name: Seq<char>, symbol: Sym) -> bool {
        self@ == before@.insert(name, (SymbolMemory { symbol, memory: None }))
    }

    fn symbol_set(&mut self, ident: Identifier, symbol: Sym) -> (previous: Option<Sym>) {
        let replaced = self.insert(ident, SymbolMemory { symbol, memory: None });
        assert(self.symbols() =~= old(self).symbols().insert(ident@, symbol));
        match replaced {
            Some(slot) => Some(slot.symbol),
            None => None,
        }
    }

    fn symbol_get(&self, ident: &Identifier) -> (symbol: Option<&Sym>) {
        match self.get(ident) {
            Some(slot) => Some(&slot.symbol),
            None => None,
        }
    }
}

/// Methods for accessing a value in a particular memory table.
///
/// These methods return nested `Option`s: the outer one is `Some(..)` if the identifier is
/// declared in this table at all, the inner one is `Some(..)` if it holds a value. This allows
/// for an identifier that is declared and not yet assigned.
pub trait MemoryTable<Val>: Sized {
    /// What each name declared in this table holds.
    spec fn slots(&self) -> Map<Seq<char>, Option<Val>>;

    /// Whether this table is `before` with the slot of `name` holding `content`, in everything
    /// that the table holds.
    spec fn assigned_from(&self, before: &Self, name: Seq<char>, content: Option<Val>) -> bool;

    /// Accesses the value in memory for an identifier.
    fn memory(&self, ident: &Identifier) -> (slot: Option<&Option<Val>>)
        ensures
            slot == match self.slots().get(ident@) {
                Some(content) => Some(&content),
                None => None,
            },
    ;

    /// Accesses the value in memory for an identifier, for writing. What the caller leaves in
    /// the slot is what the table then holds for the identifier; nothing else changes.
    fn memory_mut(&mut self, ident: &Identifier) -> (slot: Option<&mut Option<Val>>)
        ensures
            match slot {
                Some(content) => {
                    &&& old(self).slots().contains_key(ident@)
                    &&& *content == old(self).slots()[ident@]
                    &&& final(self).slots() == old(self).slots().insert(ident@, *final(content))
                    &&& final(self).assigned_from(old(self), ident@, *final(content))
                },
                None => !old(self).slots().contains_key(ident@) && *final(self) == *old(self),
            },
    ;
}

impl<Sym, Val> MemoryTable<Val> for Table<SymbolMemory<Sym, Val>> {
    open spec fn slots(&self) -> Map<Seq<char>, Option<Val>> {
        self@.map_values(|slot: SymbolMemory<Sym, Val>| slot.memory)
    }

    open spec fn assigned_from(&self, before: &Self, name: Seq<char>, content: Option<Val>) -> bool {
        before@.contains_key(name) && self@ == before@.insert(
            name,
            (SymbolMemory { symbol: before@[name].symbol, memory: content }),
        )
    }

    fn memory(&self, ident: &Identifier) -> (slot: Option<&Option<Val>>) {
        match self.get(ident) {
            Some(slot) => Some(&slot.memory),
            None => None,
        }
    }

    fn memory_mut(&mut self, ident: &Identifier) -> (slot: Option<&mut Option<Val>>) {
        match self.get_mut(ident) {
            Some(slot) => Some(&mut slot.memory),
            None => None,
        }
    }
}

/// The message of the failure of [`MemoryStore::set`] on a name that no scope declares.
pub open spec fn missing_symbol_message(name: Seq<char>) -> Seq<char> {
    "attempt to set memory for missing symbol: "@ + name
}

/// Methods for setting and getting values in a memory store. This is used instead of a
/// `MemoryTable` when a structure (like a scope) may search through multiple memory tables
/// to find the value.
pub trait MemoryStore<Val> {
    /// Whether `scope` is a scope of this store, and the store is sound.
    spec fn addressed(&self, scope: ScopeId) -> bool;

    /// Whether `name` is declared in `scope` or in a scope that encloses it.
    spec fn declared(&self, scope: ScopeId, name: Seq<char>) -> bool;

    /// What `name` holds when seen from `scope`: `None` both for a name that holds nothing yet
    /// and for a name that is not declared.
    spec fn value(&self, scope: ScopeId, name: Seq<char>) -> Option<Val>;

    /// Sets the value in memory for an identifier, in the nearest scope from `scope` outward
    /// that declares it, and returns what the identifier held before.
    ///
    /// # Failures
    /// Fails, and changes nothing, if no scope from `scope` outward declares the identifier:
    /// assignment never declares.
    fn set(&mut self, scope: ScopeId, ident: Identifier, value: Val) -> (outcome: Result<
        Option<Val>,
        String,
    >)
        requires
            old(self).addressed(scope),
        ensures
            final(self).addressed(scope),
            match outcome {
                Ok(previous) => {
                    &&& old(self).declared(scope, ident@)
                    &&& previous == old(self).value(scope, ident@)
                    &&& final(self).declared(scope, ident@)
                    &&& final(self).value(scope, ident@) == Some(value)
                },
                Err(message) => {
                    &&& !old(self).declared(scope, ident@)
                    &&& message@ == missing_symbol_message(ident@)
                    &&& !final(self).declared(scope, ident@)
                },
            },
    ;

    /// Retrieves the value for an identifier as seen from `scope`, if it holds one.
    fn get(&self, scope: ScopeId, ident: &Identifier) -> (value: Option<&Val>)
        requires
            self.addressed(scope),
        ensures
            value == match self.value(scope, ident@) {
                Some(v) => Some(&v),
                None => None,
            },
    ;
}

/// The test of a table for a slot of `name`.
pub open spec fn has_slot<Val, Tbl: MemoryTable<Val>>(name: Seq<char>) -> spec_fn(Tbl) -> bool {
    |table: Tbl| table.slots().contains_key(name)
}

/// The nearest scope, from `scope` outward, that has a slot for `name`.
pub open spec fn slot_scope<Val, Tbl: MemoryTable<Val>>(
    scopes: Seq<Scope<Tbl>>,
    scope: ScopeId,
    name: Seq<char>,
) -> Option<ScopeId> {
    nearest(scopes, scope, has_slot::<Val, Tbl>(name))
}

/// Whether `after` is `before` with `value` put into the slot that `name` has in the nearest
/// scope, from `scope` outward, that has one. Nothing else is changed. Where no scope has a
/// slot for `name`, nothing at all is changed.
pub open spec fn assigns<Val, Tbl: MemoryTable<Val>>(
    before: Seq<Scope<Tbl>>,
    after: Seq<Scope<Tbl>>,
    scope: ScopeId,
    name: Seq<char>,
    value: Val,
) -> bool {
    match slot_scope::<Val, Tbl>(before, scope, name) {
        Some(site) => {
            &&& after.len() == before.len()
            &&& forall|i: int| 0 <= i < before.len() && i != site.0 ==> after[i] == before[i]
            &&& after[site.0 as int].parent == before[site.0 as int].parent
            &&& after[site.0 as int].item.slots() == before[site.0 as int].item.slots().insert(
                name,
                Some(value),
            )
            &&& after[site.0 as int].item.assigned_from(
                &before[site.0 as int].item,
                name,
                Some(value),
            )
        },
        None => after == before,
    }
}

/// What `name` holds when seen from `scope`: the content of its slot in the nearest scope
/// that has one, `None` when no scope has one.
pub open spec fn value_in<Val, Tbl: MemoryTable<Val>>(
    scopes: Seq<Scope<Tbl>>,
    scope: ScopeId,
    name: Seq<char>,
) -> Option<Val> {
    match slot_scope::<Val, Tbl>(scopes, scope, name) {
        Some(site) => scopes[site.0 as int].item.slots()[name],
        None => None,
    }
}

impl<Val, Tbl> MemoryStore<Val> for ScopeArena<Tbl> where Tbl: MemoryTable<Val> {
    open spec fn addressed(&self, scope: ScopeId) -> bool {
        self.wf() && self.contains(scope)
    }

    open spec fn declared(&self, scope: ScopeId, name: Seq<char>) -> bool {
        slot_scope::<Val, Tbl>(self@, scope, name) is Some
    }

    open spec fn value(&self, scope: ScopeId, name: Seq<char>) -> Option<Val> {
        value_in::<Val, Tbl>(self@, scope, name)
    }

    fn set(&mut self, scope: ScopeId, ident: Identifier, value: Val) -> (outcome: Result<
        Option<Val>,
        String,
    >)
        ensures
            assigns(old(self)@, final(self)@, scope, ident@, value),
    {
        let mut at = scope;
        loop
            invariant
                self@ == old(self)@,
                self.wf(),
                self.contains(scope),
                self.contains(at),
                slot_scope::<Val, Tbl>(self@, at, ident@) == slot_scope::<Val, Tbl>(
                    self@,
                    scope,
                    ident@,
                ),
            decreases at.0,
        {
            match self.nodes[at.0].item.memory_mut(&ident) {
                Some(slot) => {
                    let mut held = Some(value);
                    core::mem::swap(slot, &mut held);
                    proof {
                        let wanted = has_slot::<Val, Tbl>(ident@);
                        assert(self@[at.0 as int].item.slots().contains_key(ident@));
                        lemma_nearest_alike(old(self)@, self@, scope, wanted, wanted);
                    }
                    return Ok(held);
                },
                None => {
                    assert(self@ =~= old(self)@);
                },
            }
            match self.nodes[at.0].parent {
                Some(parent) => {
                    at = parent;
                },
                None => {
                    let mut message = String::from_str("attempt to set memory for missing symbol: ");
                    message.append(ident.name());
                    return Err(message);
                },
            }
        }
    }

    fn get(&self, scope: ScopeId, ident: &Identifier) -> (value: Option<&Val>) {
        let mut at = scope;
        loop
            invariant
                self.wf(),
                self.contains(at),
                slot_scope::<Val, Tbl>(self@, at, ident@) == slot_scope::<Val, Tbl>(
                    self@,
                    scope,
                    ident@,
                ),
            decreases at.0,
        {
            match self.nodes[at.0].item.memory(ident) {
                Some(slot) => {
                    return slot.as_ref();
                },
                None => match self.nodes[at.0].parent {
                    Some(parent) => {
                        at = parent;
                    },
                    None => {
                        return None;
                    },
                },
            }
        }
    }
}

} // verus!
