use nyx_lang::symbol::SymbolRegistry;

#[test]
fn test_symbol_registry_lifecycle() {
    let mut registry = SymbolRegistry::new();
    let sym_a = registry.intern("var_a");
    let sym_b = registry.intern("var_b");
    assert_ne!(sym_a, sym_b, "Symbols for different strings must be unique");
    assert_eq!(registry.get("var_a"), Some(sym_a));
    assert_eq!(registry.get("var_b"), Some(sym_b));
    assert_eq!(registry.get("unknown"), None);
    let sym_a_again = registry.intern("var_a");
    assert_eq!(sym_a, sym_a_again, "Storing same string should return same symbol");
    assert_eq!(registry.resolve(sym_a), "var_a");
    assert_eq!(registry.resolve(sym_b), "var_b");
}

#[test]
fn interning_again_does_not_grow_the_registry() {
    let mut registry = SymbolRegistry::default();
    registry.intern("x");
    registry.intern("y");
    registry.intern("x");
    assert_eq!(registry.len(), 2);
}

#[test]
fn registry_knows_only_the_symbols_it_issued() {
    let mut registry = SymbolRegistry::new();
    let a = registry.intern("a");
    let mut other = SymbolRegistry::new();
    other.intern("p");
    let q = other.intern("q");
    assert!(registry.knows(a));
    assert!(!registry.knows(q));
}

#[test]
fn symbols_stay_distinct_and_resolvable_across_many_interns() {
    let mut registry = SymbolRegistry::new();
    let first = registry.intern("var_a");
    let mut between = Vec::new();
    for i in 0..50 {
        between.push(registry.intern(&format!("tmp_{}", i)));
    }
    let again = registry.intern("var_a");
    let other = registry.intern("var_b");
    assert_eq!(first, again);
    assert_ne!(first, other);
    assert!(between.iter().all(|s| *s != first && *s != other));
    assert_eq!(registry.resolve(first), "var_a");
    assert_eq!(registry.resolve(other), "var_b");
    assert_eq!(registry.resolve(between[17]), "tmp_17");
    assert_eq!(registry.len(), 52);
}
