use tuc::ast::Type;
use tuc::symtab::{Error, SymbolTable};
use tuc::value::{Value, ValueTable};

// pop_scope on a single-frame table fails with ScopeUnderflow and the
// table still has exactly its one frame afterward.
#[test]
fn pop_scope_underflow() {
    let mut t = SymbolTable::new();
    assert_eq!(t.pop_scope(), Err(Error::ScopeUnderflow));
    // The root frame is still usable after the failed pop.
    t.define_symbol("a".to_string(), Type::I32).unwrap();
    assert!(t.is_defined("a"));
    assert_eq!(t.pop_scope(), Err(Error::ScopeUnderflow));
    assert!(t.is_defined("a"));
}

#[test]
fn push_then_pop_restores_outer_scope() {
    let mut t = SymbolTable::new();
    t.define_symbol("a".to_string(), Type::I32).unwrap();
    t.push_scope();
    t.define_symbol("a".to_string(), Type::Unknown).unwrap();
    t.define_symbol("b".to_string(), Type::I32).unwrap();
    // The inner definition shadows the outer one.
    assert_eq!(t.get_type("a"), Ok(Type::Unknown));
    assert!(t.is_defined("b"));
    assert_eq!(t.pop_scope(), Ok(()));
    assert_eq!(t.get_type("a"), Ok(Type::I32));
    assert!(!t.is_defined("b"));
}

#[test]
fn set_and_get_value() {
    let mut t = SymbolTable::new();
    let mut vt = ValueTable::new();
    assert_eq!(
        t.set_value("x", Value { id: 0 }),
        Err(Error::UndefinedSymbol("x".to_string()))
    );
    t.define_symbol("x".to_string(), Type::I32).unwrap();
    // Defined but never assigned: no value, but no error either.
    assert_eq!(t.get_value("x"), Ok(None));
    let v0 = vt.new_value();
    t.set_value("x", v0).unwrap();
    assert_eq!(t.get_value("x"), Ok(Some(v0)));
    assert_eq!(
        t.get_value("y"),
        Err(Error::UndefinedSymbol("y".to_string()))
    );
}

#[test]
fn is_in_top_scope_sees_only_the_top_frame() {
    let mut t = SymbolTable::new();
    t.define_symbol("a".to_string(), Type::I32).unwrap();
    assert_eq!(t.is_in_top_scope("a"), Ok(true));
    t.push_scope();
    assert_eq!(t.is_in_top_scope("a"), Ok(false));
    assert!(t.is_defined("a"));
}

// revalue_live replaces exactly the symbols that currently hold a
// value, one fresh value per live symbol in a stable order, and leaves
// unassigned symbols untouched.
#[test]
fn revalue_live_replaces_exactly_live_symbols() {
    let mut t = SymbolTable::new();
    let mut vt = ValueTable::new();
    t.define_symbol("a".to_string(), Type::I32).unwrap();
    t.define_symbol("b".to_string(), Type::I32).unwrap();
    t.define_symbol("c".to_string(), Type::I32).unwrap();
    let v0 = vt.new_value();
    let v1 = vt.new_value();
    t.set_value("a", v0).unwrap();
    t.set_value("c", v1).unwrap();

    t.revalue_live(&mut vt);

    // The two live symbols got the two fresh values v2 and v3 in
    // insertion order; the unassigned symbol still has no value.
    assert_eq!(t.get_value("a"), Ok(Some(Value { id: 2 })));
    assert_eq!(t.get_value("b"), Ok(None));
    assert_eq!(t.get_value("c"), Ok(Some(Value { id: 3 })));
    assert_eq!(t.get_live_values(), vec![Value { id: 2 }, Value { id: 3 }]);

    // Running it again issues the next two identifiers.
    t.revalue_live(&mut vt);
    assert_eq!(t.get_live_values(), vec![Value { id: 4 }, Value { id: 5 }]);
}

#[test]
fn live_values_keep_insertion_order() {
    let mut t = SymbolTable::new();
    let mut vt = ValueTable::new();
    t.define_symbol("x".to_string(), Type::I32).unwrap();
    t.push_scope();
    t.define_symbol("y".to_string(), Type::I32).unwrap();
    let v0 = vt.new_value();
    let v1 = vt.new_value();
    t.set_value("y", v0).unwrap();
    t.set_value("x", v1).unwrap();
    // Outermost frame first, then inner frames.
    assert_eq!(t.get_live_values(), vec![v1, v0]);
}

#[test]
fn define_overwrites_in_same_frame() {
    let mut t = SymbolTable::new();
    let mut vt = ValueTable::new();
    t.define_symbol("x".to_string(), Type::I32).unwrap();
    let v0 = vt.new_value();
    t.set_value("x", v0).unwrap();
    // Redefining drops the held value and keeps the new type.
    t.define_symbol("x".to_string(), Type::Unknown).unwrap();
    assert_eq!(t.get_value("x"), Ok(None));
    assert_eq!(t.get_type("x"), Ok(Type::Unknown));
}

#[test]
fn symtab_error_descriptions() {
    assert_eq!(
        Error::UndefinedSymbol("q".to_string()).description(),
        "Use of undefined symbol".to_string()
    );
    assert_eq!(
        Error::ScopeUnderflow.description(),
        "Internal error: removing last available scope".to_string()
    );
}
