//! Symbol table implementation and scope specification.

use vstd::prelude::*;
use crate::identifier::Identifier;
use crate::scope::{nearest, Scope, ScopeArena, ScopeId};
use crate::scope::table::Table;

verus! {

/// Scope specialization for a symbol table using symbol type `Sym`.
pub type SymbolScope<Sym> = Scope<Table<Sym>>;

/// Methods for setting and retrieving symbols of type `Sym` from a symbol table.
///
/// These act on one table only: no enclosing scope is consulted.
pub trait SymbolTable<Sym>: Sized {
    /// The symbols declared in this table, by name.
    spec fn symbols(&self) -> Map<Seq<char>, Sym>;

    /// Whether this table is `before` after one declaration of `name` as `symbol`, in
    /// everything that the table holds.
    spec fn declared_from(&self, before: &Self, name: Seq<char>, symbol: Sym) -> bool;

    /// Adds (or updates) a symbol in the symbol table under the given identifier. Returns the
    /// symbol that this table held under that identifier before, if any.
    fn symbol_set(&mut self, ident: Identifier, symbol: Sym) -> (previous: Option<Sym>)
        ensures
            final(self).symbols() == old(self).symbols().insert(ident@, symbol),
            final(self).declared_from(old(self), ident@, symbol),
            previous == old(self).symbols().get(ident@),
    ;

    /// Retrieves the symbol for an identifier, or `None` if this table has none for it.
    fn symbol_get(&self, ident: &Identifier) -> (symbol: Option<&Sym>)
        ensures
            symbol == match self.symbols().get(ident@) {
                Some(s) => Some(&s),
                None => None,
            },
    ;
}

/// Methods for defining and resolving symbols of type `Sym`. Similar to `SymbolTable`, but
/// for use when a search through enclosing scopes is required to find a symbol.
pub trait SymbolStore<Sym> {
    /// Whether `scope` is a scope of this store, and the store is sound.
    spec fn scoped(&self, scope: ScopeId) -> bool;

    /// The symbol that `name` stands for when seen from `scope`.
    spec fn resolved(&self, scope: ScopeId, name: Seq<char>) -> Option<Sym>;

    /// Defines (or updates) a symbol in `scope` itself. Returns the symbol that this scope
    /// held under the identifier before, if any; enclosing scopes are not consulted.
    fn define(&mut self, scope: ScopeId, ident: Identifier, symbol: Sym) -> (previous: Option<Sym>)
        requires
            old(self).scoped(scope),
        ensures
            final(self).scoped(scope),
            final(self).resolved(scope, ident@) == Some(symbol),
    ;

    /// Resolves a symbol as seen from `scope`: the declaration in the nearest scope, from
    /// `scope` outward, that has one. `None` if no scope up to the root has one.
    fn resolve(&self, scope: ScopeId, ident: &Identifier) -> (symbol: Option<&Sym>)
        requires
            self.scoped(scope),
        ensures
            symbol == match self.resolved(scope, ident@) {
                Some(s) => Some(&s),
                None => None,
            },
    ;
}

impl<Sym> SymbolTable<Sym> for Table<Sym> {
    open spec fn symbols(&self) -> Map<Seq<char>, Sym> {
        self@
    }

    open spec fn declared_from(&self, before: &Self, name: Seq<char>, symbol: Sym) -> bool {
        self@ == before@.insert(name, symbol)
    }

    fn symbol_set(&mut self, ident: Identifier, symbol: Sym) -> (previous: Option<Sym>) {
        self.insert(ident, symbol)
    }

    fn symbol_get(&self, ident: &Identifier) -> (symbol: Option<&Sym>) {
        self.get(ident)
    }
}

/// Whether `after` is `before` with `name` declared as `symbol` in the table of `scope`. No
/// other scope is changed, and no parent link.
pub open spec fn defines<Sym, Tbl: SymbolTable<Sym>>(
    before: Seq<Scope<Tbl>>,
    after: Seq<Scope<Tbl>>,
    scope: ScopeId,
    name: Seq<char>,
    symbol: Sym,
) -> bool {
    &&& scope.0 < before.len()
    &&& after.len() == before.len()
    &&& forall|i: int| 0 <= i < before.len() && i != scope.0 ==> after[i] == before[i]
    &&& after[scope.0 as int].parent == before[scope.0 as int].parent
    &&& after[scope.0 as int].item.symbols() == before[scope.0 as int].item.symbols().insert(
        name,
        symbol,
    )
    &&& after[scope.0 as int].item.declared_from(&before[scope.0 as int].item, name, symbol)
}

/// The test of a table for a declaration of `name`.
pub open spec fn declares<Sym, Tbl: SymbolTable<Sym>>(name: Seq<char>) -> spec_fn(Tbl) -> bool {
    |table: Tbl| table.symbols().contains_key(name)
}

/// The nearest scope, from `scope` outward, that declares `name`.
pub open spec fn declaring_scope<Sym, Tbl: SymbolTable<Sym>>(
    scopes: Seq<Scope<Tbl>>,
    scope: ScopeId,
    name: Seq<char>,
) -> Option<ScopeId> {
    nearest(scopes, scope, declares::<Sym, Tbl>(name))
}

/// The symbol that `name` stands for when seen from `scope`: the one declared in the nearest
/// scope that declares `name`. Inner declarations shadow outer ones.
pub open spec fn resolved_in<Sym, Tbl: SymbolTable<Sym>>(
    scopes: Seq<Scope<Tbl>>,
    scope: ScopeId,
    name: Seq<char>,
) -> Option<Sym> {
    match declaring_scope::<Sym, Tbl>(scopes, scope, name) {
        Some(site) => Some(scopes[site.0 as int].item.symbols()[name]),
        None => None,
    }
}

impl<Sym, Tbl> SymbolStore<Sym> for ScopeArena<Tbl> where Tbl: SymbolTable<Sym> {
    open spec fn scoped(&self, scope: ScopeId) -> bool {
        self.wf() && self.contains(scope)
    }

    open spec fn resolved(&self, scope: ScopeId, name: Seq<char>) -> Option<Sym> {
        resolved_in::<Sym, Tbl>(self@, scope, name)
    }

    fn define(&mut self, scope: ScopeId, ident: Identifier, symbol: Sym) -> (previous: Option<Sym>)
        ensures
            defines(old(self)@, final(self)@, scope, ident@, symbol),
            previous == old(self).item(scope).symbols().get(ident@),
    {
        let previous = self.nodes[scope.0].item.symbol_set(ident, symbol);
        previous
    }

    fn resolve(&self, scope: ScopeId, ident: &Identifier) -> (symbol: Option<&Sym>) {
        let mut at = scope;
        loop
            invariant
                self.wf(),
                self.contains(at),
                declaring_scope::<Sym, Tbl>(self@, at, ident@) == declaring_scope::<Sym, Tbl>(
                    self@,
                    scope,
                    ident@,
                ),
            decreases at.0,
        {
            match self.nodes[at.0].item.symbol_get(ident) {
                Some(symbol) => {
                    return Some(symbol);
                },
                None => match self.nodes[at.0].parent {
                    Some(parent) => {
                        at = parent;
                    },
                    None => {
                        return None;
                    },
                },
            }
        }
    }
}

} // verus!
