use sindra::scope::memory::{MemoryStore, MemoryTable, SymbolMemory};
use sindra::scope::symbol::{SymbolStore, SymbolTable};
use sindra::scope::{ScopeArena, ScopeId, Stack, Table};
use sindra::Identifier;

type Symbols = ScopeArena<Table<&'static str>>;
type Memory = ScopeArena<Table<SymbolMemory<&'static str, i64>>>;

fn id(name: &str) -> Identifier {
    Identifier(name.to_string())
}

fn resolve_in<'a>(arena: &'a Memory, scope: ScopeId, name: &str) -> Option<&'a &'static str> {
    arena.resolve(scope, &id(name))
}

#[test]
fn shadowing_inner_declaration_wins() {
    let mut arena = Symbols::new();
    let root = arena.root();
    assert_eq!(arena.define(root, id("x"), "A"), None);
    let child = arena.push(root);
    assert_eq!(arena.define(child, id("x"), "B"), None);
    assert_eq!(arena.resolve(child, &id("x")), Some(&"B"));
    assert_eq!(arena.resolve(root, &id("x")), Some(&"A"));
}

#[test]
fn chain_resolution_finds_outer_declaration() {
    let mut arena = Symbols::new();
    let root = arena.root();
    arena.define(root, id("y"), "S");
    let child = arena.push(root);
    let grandchild = arena.push(child);
    assert_eq!(arena.resolve(child, &id("y")), Some(&"S"));
    assert_eq!(arena.resolve(grandchild, &id("y")), Some(&"S"));
}

#[test]
fn unknown_identifier_resolves_to_none() {
    let mut arena = Symbols::new();
    let root = arena.root();
    arena.define(root, id("y"), "S");
    let child = arena.push(root);
    assert_eq!(arena.resolve(root, &id("z")), None);
    assert_eq!(arena.resolve(child, &id("z")), None);
}

#[test]
fn inner_declaration_is_invisible_outside() {
    let mut arena = Symbols::new();
    let root = arena.root();
    let child = arena.push(root);
    arena.define(child, id("local"), "L");
    assert_eq!(arena.resolve(child, &id("local")), Some(&"L"));
    assert_eq!(arena.resolve(root, &id("local")), None);
}

#[test]
fn define_returns_previous_local_symbol_only() {
    let mut arena = Symbols::new();
    let root = arena.root();
    assert_eq!(arena.define(root, id("x"), "A"), None);
    assert_eq!(arena.define(root, id("x"), "A2"), Some("A"));
    let child = arena.push(root);
    assert_eq!(arena.define(child, id("x"), "B"), None);
    assert_eq!(arena.define(child, id("x"), "B2"), Some("B"));
    assert_eq!(arena.resolve(root, &id("x")), Some(&"A2"));
    assert_eq!(arena.resolve(child, &id("x")), Some(&"B2"));
}

#[test]
fn set_fails_for_undeclared_identifier() {
    let mut arena = Memory::new();
    let root = arena.root();
    assert_eq!(
        arena.set(root, id("w"), 1),
        Err("attempt to set memory for missing symbol: w".to_string())
    );
    assert_eq!(arena.get(root, &id("w")), None);
    assert_eq!(resolve_in(&arena, root, "w"), None);
    let child = arena.push(root);
    assert_eq!(
        arena.set(child, id("w"), 1),
        Err("attempt to set memory for missing symbol: w".to_string())
    );
    assert_eq!(arena.get(child, &id("w")), None);
    assert_eq!(arena.get(root, &id("w")), None);
}

#[test]
fn assignment_propagates_to_declaration_site() {
    let mut arena = Memory::new();
    let root = arena.root();
    arena.define(root, id("x"), "int");
    let child = arena.push(root);
    assert_eq!(arena.set(child, id("x"), 41), Ok(None));
    assert_eq!(arena.get(root, &id("x")), Some(&41));
    assert_eq!(arena.get(child, &id("x")), Some(&41));
    assert_eq!(arena.set(child, id("x"), 42), Ok(Some(41)));
    assert_eq!(arena.get(root, &id("x")), Some(&42));
    assert_eq!(arena.table(child).memory(&id("x")), None);
    assert_eq!(arena.table(root).memory(&id("x")), Some(&Some(42)));
}

#[test]
fn assignment_goes_to_nearest_declaration() {
    let mut arena = Memory::new();
    let root = arena.root();
    arena.define(root, id("x"), "outer");
    let child = arena.push(root);
    arena.define(child, id("x"), "inner");
    assert_eq!(arena.set(child, id("x"), 5), Ok(None));
    assert_eq!(arena.get(child, &id("x")), Some(&5));
    assert_eq!(arena.get(root, &id("x")), None);
    assert_eq!(arena.set(root, id("x"), 6), Ok(None));
    assert_eq!(arena.get(child, &id("x")), Some(&5));
    assert_eq!(arena.get(root, &id("x")), Some(&6));
}

#[test]
fn declared_but_unassigned_reads_as_none() {
    let mut arena = Memory::new();
    let root = arena.root();
    arena.define(root, id("x"), "sym");
    assert_eq!(arena.get(root, &id("x")), None);
    assert_eq!(arena.get(root, &id("never")), None);
    assert_eq!(arena.table(root).memory(&id("x")), Some(&None));
    assert_eq!(arena.table(root).memory(&id("never")), None);
}

#[test]
fn redeclaration_clears_the_slot() {
    let mut arena = Memory::new();
    let root = arena.root();
    arena.define(root, id("x"), "first");
    assert_eq!(arena.set(root, id("x"), 3), Ok(None));
    assert_eq!(arena.define(root, id("x"), "second"), Some("first"));
    assert_eq!(arena.get(root, &id("x")), None);
    assert_eq!(resolve_in(&arena, root, "x"), Some(&"second"));
}

#[test]
fn assignment_keeps_symbols() {
    let mut arena = Memory::new();
    let root = arena.root();
    arena.define(root, id("x"), "sym");
    arena.define(root, id("y"), "other");
    assert_eq!(arena.set(root, id("x"), 10), Ok(None));
    assert_eq!(resolve_in(&arena, root, "x"), Some(&"sym"));
    assert_eq!(resolve_in(&arena, root, "y"), Some(&"other"));
    assert_eq!(arena.get(root, &id("y")), None);
}

#[test]
fn push_pop_round_trip() {
    let mut arena = Symbols::new();
    let root = arena.root();
    assert_eq!(arena.pop(root), None);
    let child = arena.push(root);
    assert_ne!(child, root);
    assert_eq!(arena.pop(child), Some(root));
    let grandchild = arena.push(child);
    assert_eq!(arena.pop(grandchild), Some(child));
    assert_eq!(arena.pop(root), None);
    assert_eq!(arena.len(), 3);
}

#[test]
fn siblings_share_an_enclosing_scope() {
    let mut arena = Memory::new();
    let root = arena.root();
    arena.define(root, id("shared"), "R");
    let first = arena.push(root);
    let second = arena.push(root);
    arena.define(first, id("shared"), "F");
    arena.define(first, id("own"), "O");
    assert_eq!(arena.set(first, id("shared"), 1), Ok(None));
    assert_eq!(resolve_in(&arena, second, "shared"), Some(&"R"));
    assert_eq!(resolve_in(&arena, second, "own"), None);
    assert_eq!(arena.get(second, &id("shared")), None);
    assert_eq!(arena.set(second, id("shared"), 2), Ok(None));
    assert_eq!(arena.get(root, &id("shared")), Some(&2));
    assert_eq!(arena.get(first, &id("shared")), Some(&1));
    assert_eq!(arena.pop(first), Some(root));
    assert_eq!(arena.pop(second), Some(root));
}

#[test]
fn separate_roots_do_not_see_each_other() {
    let mut arena = Symbols::new();
    let one = arena.root();
    let two = arena.root();
    arena.define(one, id("x"), "A");
    assert_eq!(arena.resolve(one, &id("x")), Some(&"A"));
    assert_eq!(arena.resolve(two, &id("x")), None);
    assert_eq!(arena.pop(two), None);
}

#[test]
fn table_insert_get_and_len() {
    let mut table: Table<u32> = Table::new();
    assert_eq!(table.len(), 0);
    assert_eq!(table.insert(id("a"), 1), None);
    assert_eq!(table.insert(id("b"), 2), None);
    assert_eq!(table.insert(id("a"), 3), Some(1));
    assert_eq!(table.len(), 2);
    assert_eq!(table.get(&id("a")), Some(&3));
    assert_eq!(table.get(&id("b")), Some(&2));
    assert_eq!(table.get(&id("c")), None);
    if let Some(entry) = table.get_mut(&id("b")) {
        *entry = 20;
    }
    assert_eq!(table.get(&id("b")), Some(&20));
    assert!(table.get_mut(&id("c")).is_none());
}

#[test]
fn symbol_table_is_local() {
    let mut table: Table<&'static str> = Table::new();
    assert_eq!(table.symbol_set(id("x"), "A"), None);
    assert_eq!(table.symbol_set(id("x"), "B"), Some("A"));
    assert_eq!(table.symbol_get(&id("x")), Some(&"B"));
    assert_eq!(table.symbol_get(&id("y")), None);
}

#[test]
fn memory_table_slots() {
    let mut table: Table<SymbolMemory<&'static str, i64>> = Table::new();
    assert_eq!(table.symbol_set(id("x"), "A"), None);
    assert_eq!(table.memory(&id("x")), Some(&None));
    assert!(table.memory_mut(&id("y")).is_none());
    if let Some(slot) = table.memory_mut(&id("x")) {
        *slot = Some(7);
    }
    assert_eq!(table.memory(&id("x")), Some(&Some(7)));
    let symbol: Option<&&'static str> = table.symbol_get(&id("x"));
    assert_eq!(symbol, Some(&"A"));
    assert_eq!(table.symbol_set(id("x"), "B"), Some("A"));
    assert_eq!(table.memory(&id("x")), Some(&None));
}
