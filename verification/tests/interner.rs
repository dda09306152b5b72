use frontend_core::common::Interner;

#[test]
fn test_intern_is_idempotent() {
    let mut interner = Interner::new();
    let a = interner.intern("hello");
    let b = interner.intern("hello");
    assert_eq!(a, b);
}

#[test]
fn test_resolve_round_trips() {
    let mut interner = Interner::new();
    let sym = interner.intern("some_identifier");
    assert_eq!(interner.resolve(sym), "some_identifier");
}

#[test]
fn test_distinct_strings_get_distinct_symbols() {
    let mut interner = Interner::new();
    let a = interner.intern("a");
    let b = interner.intern("b");
    let c = interner.intern("c");
    assert_ne!(a, b);
    assert_ne!(b, c);
    assert_ne!(a, c);
    // Symbols are dense integers issued in first-interning order.
    assert_eq!(a.0, 0);
    assert_eq!(b.0, 1);
    assert_eq!(c.0, 2);
}

#[test]
fn test_reinterning_keeps_earlier_symbols() {
    let mut interner = Interner::new();
    let mut symbols = Vec::new();
    for word in ["fn", "x", "y", "x", "fn", "z"] {
        symbols.push(interner.intern(word));
    }
    assert_eq!(symbols[0], symbols[4]);
    assert_eq!(symbols[1], symbols[3]);
    assert_eq!(interner.resolve(symbols[0]), "fn");
    assert_eq!(interner.resolve(symbols[5]), "z");
}

#[test]
fn test_many_strings() {
    let mut interner = Interner::new();
    let mut first_pass = Vec::new();
    for n in 0..200 {
        first_pass.push(interner.intern(&format!("ident_{}", n)));
    }
    for n in 0..200 {
        let again = interner.intern(&format!("ident_{}", n));
        assert_eq!(again, first_pass[n]);
        assert_eq!(interner.resolve(again), format!("ident_{}", n));
    }
}
