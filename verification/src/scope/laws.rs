//! What holds of scopes, symbols and memory whatever the program does with them.
//!
//! Each law speaks of arenas by their views, and of the operations by the predicates that
//! their contracts establish: `adds_scope` for `root` and `push`, `defines` for `define`,
//! `assigns` for `set`.

use vstd::prelude::*;
use crate::scope::{adds_scope, ancestry, forest, lemma_nearest_alike, lemma_nearest_is_first,
    lemma_nearest_within, nearest, Scope, ScopeId};
use crate::scope::memory::{assigns, has_slot, slot_scope, value_in, MemoryTable, SymbolMemory};
use crate::scope::symbol::{declares, declaring_scope, defines, resolved_in, SymbolTable};
use crate::scope::table::Table;

verus! {

/// Every scope of a chain was created before the scope that the chain starts from, or is that
/// scope.
pub proof fn lemma_ancestry_descends<T>(scopes: Seq<Scope<T>>, scope: ScopeId)
    ensures
        forall|k: int|
            0 <= k < ancestry(scopes, scope).len() ==> (#[trigger] ancestry(scopes, scope)[k]).0
                <= scope.0,
        scope.0 < scopes.len() ==> ancestry(scopes, scope).len() > 0 && ancestry(scopes, scope)[0]
            == scope,
    decreases scope.0,
{
    if scope.0 < scopes.len() {
        let chain = ancestry(scopes, scope);
        match scopes[scope.0 as int].parent {
            Some(p) if p.0 < scope.0 => {
                lemma_ancestry_descends(scopes, p);
                let rest = ancestry(scopes, p);
                assert(chain == seq![scope] + rest);
                assert forall|k: int| 0 <= k < chain.len() implies (#[trigger] chain[k]).0
                    <= scope.0 by {
                    if k > 0 {
                        assert(chain[k] == rest[k - 1]);
                    }
                }
            },
            _ => {},
        }
    }
}

/// What a scope resolves depends on the scopes of its own chain and on nothing else: two
/// arenas that agree on the chain of `scope` resolve every name alike from `scope`.
pub proof fn lemma_resolution_reads_chain<Sym, Tbl: SymbolTable<Sym>>(
    a: Seq<Scope<Tbl>>,
    b: Seq<Scope<Tbl>>,
    scope: ScopeId,
    name: Seq<char>,
)
    requires
        scope.0 < a.len(),
        a.len() == b.len(),
        forall|k: int|
            0 <= k < ancestry(a, scope).len() ==> a[(#[trigger] ancestry(a, scope)[k]).0 as int]
                == b[ancestry(a, scope)[k].0 as int],
    ensures
        declaring_scope::<Sym, Tbl>(a, scope, name) == declaring_scope::<Sym, Tbl>(b, scope, name),
        resolved_in::<Sym, Tbl>(a, scope, name) == resolved_in::<Sym, Tbl>(b, scope, name),
    decreases scope.0,
{
    let chain = ancestry(a, scope);
    assert(chain[0] == scope) by {
        lemma_ancestry_descends(a, scope);
    }
    assert(a[scope.0 as int] == b[scope.0 as int]);
    match a[scope.0 as int].parent {
        Some(p) if p.0 < scope.0 => {
            let rest = ancestry(a, p);
            assert(chain == seq![scope] + rest);
            assert forall|k: int| 0 <= k < rest.len() implies a[(#[trigger] rest[k]).0 as int]
                == b[rest[k].0 as int] by {
                assert(chain[k + 1] == rest[k]);
            }
            lemma_resolution_reads_chain::<Sym, Tbl>(a, b, p, name);
        },
        _ => {},
    }
}

/// Shadowing. A root scope declares a name, a scope pushed on it declares the same name
/// again: from the inner scope the name resolves to the inner declaration, from the outer
/// scope it still resolves to the outer one.
pub proof fn law_shadowing<Sym, Tbl: SymbolTable<Sym> + Default>(
    a0: Seq<Scope<Tbl>>,
    a1: Seq<Scope<Tbl>>,
    a2: Seq<Scope<Tbl>>,
    a3: Seq<Scope<Tbl>>,
    outer: ScopeId,
    inner: ScopeId,
    name: Seq<char>,
    outer_symbol: Sym,
    inner_symbol: Sym,
)
    requires
        defines(a0, a1, outer, name, outer_symbol),
        adds_scope(a1, a2, Some(outer), inner),
        defines(a2, a3, inner, name, inner_symbol),
    ensures
        resolved_in::<Sym, Tbl>(a3, inner, name) == Some(inner_symbol),
        resolved_in::<Sym, Tbl>(a3, outer, name) == Some(outer_symbol),
{
    let wanted = declares::<Sym, Tbl>(name);
    assert forall|i: int| 0 <= i < a1.len() implies a2[i] == a1[i] by {
        assert(a2.take(a1.len() as int)[i] == a2[i]);
    }
    lemma_nearest_alike(a1, a2, outer, wanted, wanted);
    lemma_nearest_alike(a2, a3, outer, wanted, wanted);
    assert(a3[outer.0 as int] == a1[outer.0 as int]);
}

/// Chain resolution. From a scope that does not declare a name itself, the name resolves as
/// it does from the enclosing scope.
pub proof fn law_chain_resolution<Sym, Tbl: SymbolTable<Sym>>(
    scopes: Seq<Scope<Tbl>>,
    outer: ScopeId,
    inner: ScopeId,
    name: Seq<char>,
)
    requires
        forest(scopes),
        inner.0 < scopes.len(),
        scopes[inner.0 as int].parent == Some(outer),
        !scopes[inner.0 as int].item.symbols().contains_key(name),
    ensures
        resolved_in::<Sym, Tbl>(scopes, inner, name) == resolved_in::<Sym, Tbl>(
            scopes,
            outer,
            name,
        ),
{
}

/// Chain resolution, from the operations. A scope declares a name, and a scope is pushed on
/// it whose fresh table does not declare the name: from the inner scope the name resolves to
/// the outer declaration.
pub proof fn law_chain_resolution_after_push<Sym, Tbl: SymbolTable<Sym> + Default>(
    a0: Seq<Scope<Tbl>>,
    a1: Seq<Scope<Tbl>>,
    a2: Seq<Scope<Tbl>>,
    outer: ScopeId,
    inner: ScopeId,
    name: Seq<char>,
    symbol: Sym,
)
    requires
        defines(a0, a1, outer, name, symbol),
        adds_scope(a1, a2, Some(outer), inner),
        !a2[inner.0 as int].item.symbols().contains_key(name),
    ensures
        resolved_in::<Sym, Tbl>(a2, inner, name) == Some(symbol),
{
    let wanted = declares::<Sym, Tbl>(name);
    assert forall|i: int| 0 <= i < a1.len() implies a2[i] == a1[i] by {
        assert(a2.take(a1.len() as int)[i] == a2[i]);
    }
    lemma_nearest_alike(a1, a2, outer, wanted, wanted);
}

/// Unknown identifier. A name resolves to nothing exactly when no scope of the chain
/// declares it.
pub proof fn law_unknown_identifier<Sym, Tbl: SymbolTable<Sym>>(
    scopes: Seq<Scope<Tbl>>,
    scope: ScopeId,
    name: Seq<char>,
)
    ensures
        resolved_in::<Sym, Tbl>(scopes, scope, name) is None <==> forall|k: int|
            0 <= k < ancestry(scopes, scope).len() ==> !scopes[(#[trigger] ancestry(
                scopes,
                scope,
            )[k]).0 as int].item.symbols().contains_key(name),
{
    let wanted = declares::<Sym, Tbl>(name);
    lemma_nearest_is_first(scopes, scope, wanted);
}

/// A declaration changes what its own name resolves to, and no other name.
pub proof fn law_define_keeps_other_names<Sym, Tbl: SymbolTable<Sym>>(
    before: Seq<Scope<Tbl>>,
    after: Seq<Scope<Tbl>>,
    scope: ScopeId,
    name: Seq<char>,
    symbol: Sym,
    from: ScopeId,
    other: Seq<char>,
)
    requires
        defines(before, after, scope, name, symbol),
        other != name,
    ensures
        resolved_in::<Sym, Tbl>(after, from, other) == resolved_in::<Sym, Tbl>(before, from, other),
{
    let wanted = declares::<Sym, Tbl>(other);
    lemma_nearest_alike(before, after, from, wanted, wanted);
    lemma_nearest_within(before, from, wanted);
}

/// A declaration is seen only from the declaring scope and from the scopes inside it: a
/// scope whose chain does not hold the declaring scope resolves every name as before.
pub proof fn law_define_is_local<Sym, Tbl: SymbolTable<Sym>>(
    before: Seq<Scope<Tbl>>,
    after: Seq<Scope<Tbl>>,
    scope: ScopeId,
    name: Seq<char>,
    symbol: Sym,
    from: ScopeId,
    other: Seq<char>,
)
    requires
        defines(before, after, scope, name, symbol),
        from.0 < before.len(),
        forall|k: int|
            0 <= k < ancestry(before, from).len() ==> #[trigger] ancestry(before, from)[k]
                != scope,
    ensures
        resolved_in::<Sym, Tbl>(after, from, other) == resolved_in::<Sym, Tbl>(before, from, other),
{
    lemma_nearest_is_first(before, from, declares::<Sym, Tbl>(other));
    lemma_resolution_reads_chain::<Sym, Tbl>(before, after, from, other);
}

/// A new scope changes nothing for the scopes that were there: each resolves every name as
/// before.
pub proof fn law_new_scope_keeps_resolution<Sym, Tbl: SymbolTable<Sym> + Default>(
    before: Seq<Scope<Tbl>>,
    after: Seq<Scope<Tbl>>,
    parent: Option<ScopeId>,
    top: ScopeId,
    from: ScopeId,
    name: Seq<char>,
)
    requires
        adds_scope(before, after, parent, top),
        from.0 < before.len(),
    ensures
        resolved_in::<Sym, Tbl>(after, from, name) == resolved_in::<Sym, Tbl>(before, from, name),
{
    let wanted = declares::<Sym, Tbl>(name);
    assert forall|i: int| 0 <= i < before.len() implies after[i] == before[i] by {
        assert(after.take(before.len() as int)[i] == after[i]);
    }
    lemma_nearest_alike(before, after, from, wanted, wanted);
    lemma_nearest_within(before, from, wanted);
}

/// A fresh scope declares nothing: the table that a new scope gets is empty.
pub proof fn law_fresh_table_is_empty<E>(
    before: Seq<Scope<Table<E>>>,
    after: Seq<Scope<Table<E>>>,
    parent: Option<ScopeId>,
    top: ScopeId,
)
    requires
        adds_scope(before, after, parent, top),
    ensures
        after[top.0 as int].item@ == Map::<Seq<char>, E>::empty(),
{
}

/// Push and pop. The parent of a scope made by a push is the scope that was pushed on.
pub proof fn law_push_pop<T: Default>(
    before: Seq<Scope<T>>,
    after: Seq<Scope<T>>,
    current: ScopeId,
    top: ScopeId,
)
    requires
        adds_scope(before, after, Some(current), top),
    ensures
        after[top.0 as int].parent == Some(current),
{
}

/// A shared enclosing scope. Two scopes are pushed on the same scope; whatever then becomes
/// of the first of them, the second resolves every name as before, and a name that it does
/// not declare itself as the enclosing scope does.
pub proof fn law_siblings_are_independent<Sym, Tbl: SymbolTable<Sym> + Default>(
    a0: Seq<Scope<Tbl>>,
    a1: Seq<Scope<Tbl>>,
    a2: Seq<Scope<Tbl>>,
    a3: Seq<Scope<Tbl>>,
    shared: ScopeId,
    first: ScopeId,
    second: ScopeId,
    name: Seq<char>,
)
    requires
        forest(a0),
        shared.0 < a0.len(),
        adds_scope(a0, a1, Some(shared), first),
        adds_scope(a1, a2, Some(shared), second),
        a3.len() == a2.len(),
        forall|i: int| 0 <= i < a2.len() && i != first.0 ==> a3[i] == a2[i],
    ensures
        resolved_in::<Sym, Tbl>(a3, second, name) == resolved_in::<Sym, Tbl>(a2, second, name),
        !a2[second.0 as int].item.symbols().contains_key(name) ==> resolved_in::<Sym, Tbl>(
            a3,
            second,
            name,
        ) == resolved_in::<Sym, Tbl>(a0, shared, name),
{
    let wanted = declares::<Sym, Tbl>(name);
    assert forall|i: int| 0 <= i < a0.len() implies a1[i] == a0[i] by {
        assert(a1.take(a0.len() as int)[i] == a1[i]);
    }
    assert forall|i: int| 0 <= i < a1.len() implies a2[i] == a1[i] by {
        assert(a2.take(a1.len() as int)[i] == a2[i]);
    }
    lemma_nearest_alike(a0, a1, shared, wanted, wanted);
    lemma_nearest_alike(a1, a2, shared, wanted, wanted);
    lemma_nearest_alike(a2, a3, shared, wanted, wanted);
    lemma_nearest_within(a0, shared, wanted);
    assert(a3[second.0 as int] == a2[second.0 as int]);
}

/// In a table of symbols with memory, the names that have a slot are the declared names: a
/// slot is searched for where the declaration is.
pub proof fn law_slot_is_at_declaration<Sym, Val>(
    scopes: Seq<Scope<Table<SymbolMemory<Sym, Val>>>>,
    scope: ScopeId,
    name: Seq<char>,
)
    ensures
        slot_scope::<Val, Table<SymbolMemory<Sym, Val>>>(scopes, scope, name) == declaring_scope::<
            Sym,
            Table<SymbolMemory<Sym, Val>>,
        >(scopes, scope, name),
{
    lemma_nearest_alike(
        scopes,
        scopes,
        scope,
        has_slot::<Val, Table<SymbolMemory<Sym, Val>>>(name),
        declares::<Sym, Table<SymbolMemory<Sym, Val>>>(name),
    );
}

/// Declare before assign. An assignment to a name that resolves to nothing from the scope
/// finds no slot, and leaves every scope as it was: assignment never declares.
pub proof fn law_declare_before_assign<Sym, Val>(
    before: Seq<Scope<Table<SymbolMemory<Sym, Val>>>>,
    after: Seq<Scope<Table<SymbolMemory<Sym, Val>>>>,
    scope: ScopeId,
    name: Seq<char>,
    value: Val,
)
    requires
        resolved_in::<Sym, Table<SymbolMemory<Sym, Val>>>(before, scope, name) is None,
        assigns(before, after, scope, name, value),
    ensures
        slot_scope::<Val, Table<SymbolMemory<Sym, Val>>>(before, scope, name) is None,
        after == before,
{
    law_slot_is_at_declaration::<Sym, Val>(before, scope, name);
}

/// Assignment reaches the declaration. A scope declares a name, a scope is pushed on it, and
/// the name is assigned from the inner scope: the slot found is the one of the outer scope,
/// it held nothing before, and afterwards the name holds the value seen from either scope.
pub proof fn law_assignment_reaches_declaration<Sym, Val>(
    a0: Seq<Scope<Table<SymbolMemory<Sym, Val>>>>,
    a1: Seq<Scope<Table<SymbolMemory<Sym, Val>>>>,
    a2: Seq<Scope<Table<SymbolMemory<Sym, Val>>>>,
    a3: Seq<Scope<Table<SymbolMemory<Sym, Val>>>>,
    outer: ScopeId,
    inner: ScopeId,
    name: Seq<char>,
    symbol: Sym,
    value: Val,
)
    requires
        defines(a0, a1, outer, name, symbol),
        adds_scope(a1, a2, Some(outer), inner),
        assigns(a2, a3, inner, name, value),
    ensures
        slot_scope::<Val, Table<SymbolMemory<Sym, Val>>>(a2, inner, name) == Some(outer),
        value_in::<Val, Table<SymbolMemory<Sym, Val>>>(a2, inner, name) is None,
        value_in::<Val, Table<SymbolMemory<Sym, Val>>>(a3, outer, name) == Some(value),
        value_in::<Val, Table<SymbolMemory<Sym, Val>>>(a3, inner, name) == Some(value),
{
    let wanted = has_slot::<Val, Table<SymbolMemory<Sym, Val>>>(name);
    assert forall|i: int| 0 <= i < a1.len() implies a2[i] == a1[i] by {
        assert(a2.take(a1.len() as int)[i] == a2[i]);
    }
    assert(a1[outer.0 as int].item@.contains_key(name));
    assert(a2[inner.0 as int].item@ == Map::<Seq<char>, SymbolMemory<Sym, Val>>::empty());
    assert(nearest(a2, outer, wanted) == Some(outer));
    assert(nearest(a2, inner, wanted) == Some(outer));
    assert(a3[inner.0 as int] == a2[inner.0 as int]);
    assert(nearest(a3, outer, wanted) == Some(outer));
    assert(nearest(a3, inner, wanted) == Some(outer));
}

/// Declared is not assigned. Right after its declaration a name has a slot in the declaring
/// scope, and the slot holds nothing: to a reader of values the name looks like one that was
/// never declared.
pub proof fn law_declared_is_unassigned<Sym, Val>(
    before: Seq<Scope<Table<SymbolMemory<Sym, Val>>>>,
    after: Seq<Scope<Table<SymbolMemory<Sym, Val>>>>,
    scope: ScopeId,
    name: Seq<char>,
    symbol: Sym,
)
    requires
        defines(before, after, scope, name, symbol),
    ensures
        slot_scope::<Val, Table<SymbolMemory<Sym, Val>>>(after, scope, name) == Some(scope),
        value_in::<Val, Table<SymbolMemory<Sym, Val>>>(after, scope, name) is None,
{
    assert(after[scope.0 as int].item@.contains_key(name));
}

/// A name without a slot holds nothing.
pub proof fn law_undeclared_holds_nothing<Val, Tbl: MemoryTable<Val>>(
    scopes: Seq<Scope<Tbl>>,
    scope: ScopeId,
    name: Seq<char>,
)
    requires
        slot_scope::<Val, Tbl>(scopes, scope, name) is None,
    ensures
        value_in::<Val, Tbl>(scopes, scope, name) is None,
{
}

/// An assignment changes what its own name holds, and no other name.
pub proof fn law_assignment_keeps_other_names<Val, Tbl: MemoryTable<Val>>(
    before: Seq<Scope<Tbl>>,
    after: Seq<Scope<Tbl>>,
    scope: ScopeId,
    name: Seq<char>,
    value: Val,
    from: ScopeId,
    other: Seq<char>,
)
    requires
        assigns(before, after, scope, name, value),
        other != name,
    ensures
        value_in::<Val, Tbl>(after, from, other) == value_in::<Val, Tbl>(before, from, other),
{
    let wanted = has_slot::<Val, Tbl>(other);
    lemma_nearest_within(before, scope, has_slot::<Val, Tbl>(name));
    lemma_nearest_alike(before, after, from, wanted, wanted);
    lemma_nearest_within(before, from, wanted);
}

/// A new scope changes nothing for the scopes that were there: seen from each, every name
/// holds what it held.
pub proof fn law_new_scope_keeps_values<Val, Tbl: MemoryTable<Val> + Default>(
    before: Seq<Scope<Tbl>>,
    after: Seq<Scope<Tbl>>,
    parent: Option<ScopeId>,
    top: ScopeId,
    from: ScopeId,
    name: Seq<char>,
)
    requires
        adds_scope(before, after, parent, top),
        from.0 < before.len(),
    ensures
        value_in::<Val, Tbl>(after, from, name) == value_in::<Val, Tbl>(before, from, name),
{
    let wanted = has_slot::<Val, Tbl>(name);
    assert forall|i: int| 0 <= i < before.len() implies after[i] == before[i] by {
        assert(after.take(before.len() as int)[i] == after[i]);
    }
    lemma_nearest_alike(before, after, from, wanted, wanted);
    lemma_nearest_within(before, from, wanted);
}

/// An assignment is seen from every scope that finds the same slot for the name, and from
/// no other: seen from a scope that finds another slot or none, the name holds what it held.
pub proof fn law_assignment_is_seen_at_slot<Val, Tbl: MemoryTable<Val>>(
    before: Seq<Scope<Tbl>>,
    after: Seq<Scope<Tbl>>,
    scope: ScopeId,
    name: Seq<char>,
    value: Val,
    from: ScopeId,
)
    requires
        assigns(before, after, scope, name, value),
        slot_scope::<Val, Tbl>(before, scope, name) is Some,
    ensures
        slot_scope::<Val, Tbl>(after, from, name) == slot_scope::<Val, Tbl>(before, from, name),
        value_in::<Val, Tbl>(after, from, name) == if slot_scope::<Val, Tbl>(before, from, name)
            == slot_scope::<Val, Tbl>(before, scope, name) {
            Some(value)
        } else {
            value_in::<Val, Tbl>(before, from, name)
        },
{
    let wanted = has_slot::<Val, Tbl>(name);
    lemma_nearest_within(before, scope, wanted);
    lemma_nearest_alike(before, after, from, wanted, wanted);
    lemma_nearest_within(before, from, wanted);
}

/// Assignment changes no declaration: every name resolves from every scope as before.
pub proof fn law_assignment_keeps_symbols<Sym, Val>(
    before: Seq<Scope<Table<SymbolMemory<Sym, Val>>>>,
    after: Seq<Scope<Table<SymbolMemory<Sym, Val>>>>,
    scope: ScopeId,
    name: Seq<char>,
    value: Val,
    from: ScopeId,
    other: Seq<char>,
)
    requires
        assigns(before, after, scope, name, value),
    ensures
        resolved_in::<Sym, Table<SymbolMemory<Sym, Val>>>(after, from, other) == resolved_in::<
            Sym,
            Table<SymbolMemory<Sym, Val>>,
        >(before, from, other),
{
    let wanted = declares::<Sym, Table<SymbolMemory<Sym, Val>>>(other);
    let slot = has_slot::<Val, Table<SymbolMemory<Sym, Val>>>(name);
    lemma_nearest_within(before, scope, slot);
    match nearest(before, scope, slot) {
        Some(site) => {
            assert(after[site.0 as int].item@.dom() =~= before[site.0 as int].item@.dom());
            lemma_nearest_alike(before, after, from, wanted, wanted);
            lemma_nearest_within(before, from, wanted);
        },
        None => {},
    }
}

} // verus!
