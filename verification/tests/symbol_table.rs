use omflink::linker_error::LinkerError;
use omflink::symbols::{Symbol, SymbolTable};

#[test]
fn undefined_symbols() -> Result<(), LinkerError> {
    let mut symbols = SymbolTable::new();

    // Add one undefined symbol.
    //
    let symbol = Symbol::Undefined;
    symbols.update("main", symbol)?;

    // And one defined symbol.
    //
    let symbol = Symbol::public(1, 1, 0, 0);
    symbols.update("printf", symbol)?;

    // "main" should be undefined.
    //
    let undefs = symbols.undefined_symbols();
    assert_eq!(undefs, ["main"]);

    // Define "main" and the undef list should be empty.
    //
    let symbol = Symbol::public(1, 1, 0, 0);
    symbols.update("main", symbol)?;

    let undefs = symbols.undefined_symbols();
    assert!(undefs.is_empty());

    Ok(())
}

#[test]
fn undefined_to_public() -> Result<(), LinkerError> {
    let mut symbols = SymbolTable::new();

    // Add as undefined symbol.
    //
    let symbol = Symbol::Undefined;
    symbols.update("main", symbol)?;

    // Upgrade it to be defined.
    //
    let symbol = Symbol::public(1, 1, 0, 0);
    symbols.update("main", symbol)?;

    let symbol = symbols.get("main").unwrap();

    match symbol {
        Symbol::Public(public) => {
            assert_eq!(public.group, 1);
            assert_eq!(public.segment, 1);
            assert_eq!(public.frame, 0);
            assert_eq!(public.offset, 0);
        }
        _ => panic!("symbol is not public"),
    };

    Ok(())
}

#[test]
fn downgrade_ignored() -> Result<(), LinkerError> {
    let mut symbols = SymbolTable::new();

    // Public symbol.
    //
    let symbol = Symbol::public(1, 1, 0, 0);
    symbols.update("main", symbol)?;

    // This should succeed
    //
    let symbol = Symbol::Undefined;
    symbols.update("main", symbol)?;

    // But the symbol should remain public
    //
    assert!(matches!(symbols.get("main"), Some(Symbol::Public(_))));

    Ok(())
}

#[test]
fn bad_upgrade() -> Result<(), LinkerError> {
    let mut symbols = SymbolTable::new();

    // Public symbol.
    //
    let symbol = Symbol::public(1, 1, 0, 0);
    symbols.update("main", symbol)?;

    // Cannot change to another kind of symbol.
    //
    let symbol = Symbol::common(1234, false);
    assert!(symbols.update("main", symbol).is_err());

    Ok(())
}

#[test]
fn multiply_defined() -> Result<(), LinkerError> {
    let mut symbols = SymbolTable::new();

    // Public symbol.
    //
    let symbol = Symbol::public(1, 1, 0, 0);
    symbols.update("main", symbol)?;

    // Cannot set to public once already public
    //
    let symbol = Symbol::public(1, 1, 0, 0);
    assert!(symbols.update("main", symbol).is_err());

    Ok(())
}

#[test]
fn common_grows() -> Result<(), LinkerError> {
    let mut symbols = SymbolTable::new();

    let symbol = Symbol::common(100, false);
    symbols.update("buffer", symbol)?;

    let symbol = Symbol::common(200, false);
    symbols.update("buffer", symbol)?;

    match symbols.get("buffer") {
        Some(Symbol::Common(common)) => {
            assert_eq!(common.size, 200);
        }
        _ => panic!("invalid symbol type"),
    }

    Ok(())
}

#[test]
fn common_() -> Result<(), LinkerError> {
    let mut symbols = SymbolTable::new();

    let symbol = Symbol::common(100, false);
    symbols.update("buffer", symbol)?;

    // Try to change near to far.
    //
    let symbol = Symbol::common(200, true);
    assert!(symbols.update("buffer", symbol).is_err());

    Ok(())
}

#[test]
fn symbol_upgrade_marks_used() {
    let mut symbols = SymbolTable::new();
    symbols.update("main", Symbol::Undefined).unwrap();
    symbols.update("main", Symbol::public(0, 1, 0, 0)).unwrap();
    match symbols.get("main") {
        Some(Symbol::Public(public)) => {
            assert!(public.used);
            assert_eq!(public.segment, 1);
            assert_eq!(public.offset, 0);
        }
        _ => panic!("symbol is not public"),
    }
}

#[test]
fn definition_without_reference_is_idle_until_referenced() {
    let mut symbols = SymbolTable::new();
    symbols.update("f", Symbol::public(2, 3, 4, 5)).unwrap();
    match symbols.get("f") {
        Some(Symbol::Public(public)) => {
            assert!(!public.used);
            assert_eq!((public.group, public.segment, public.frame, public.offset), (2, 3, 4, 5));
        }
        _ => panic!("symbol is not public"),
    }
    symbols.update("f", Symbol::Undefined).unwrap();
    match symbols.get("f") {
        Some(Symbol::Public(public)) => {
            assert!(public.used);
            assert_eq!((public.group, public.segment, public.frame, public.offset), (2, 3, 4, 5));
        }
        _ => panic!("symbol is not public"),
    }
}

#[test]
fn common_keeps_the_larger_size() {
    let mut symbols = SymbolTable::new();
    symbols.update("b", Symbol::common(200, true)).unwrap();
    symbols.update("b", Symbol::common(100, true)).unwrap();
    assert_eq!(symbols.get("b"), Some(Symbol::common(200, true)));
    symbols.update("b", Symbol::Undefined).unwrap();
    assert_eq!(symbols.get("b"), Some(Symbol::common(200, true)));
    assert!(symbols.update("b", Symbol::public(0, 0, 0, 0)).is_err());
    assert_eq!(symbols.get("b"), Some(Symbol::common(200, true)));
}

#[test]
fn common_resolves_a_reference() {
    let mut symbols = SymbolTable::new();
    symbols.update("b", Symbol::Undefined).unwrap();
    symbols.update("b", Symbol::common(8, false)).unwrap();
    assert_eq!(symbols.get("b"), Some(Symbol::common(8, false)));
    assert!(symbols.undefined_symbols().is_empty());
}

#[test]
fn names_are_case_sensitive_and_keep_their_order() {
    let mut symbols = SymbolTable::new();
    symbols.update("b", Symbol::Undefined).unwrap();
    symbols.update("B", Symbol::Undefined).unwrap();
    symbols.update("a", Symbol::public(0, 0, 0, 0)).unwrap();
    symbols.update("c", Symbol::Undefined).unwrap();
    symbols.update("b", Symbol::Undefined).unwrap();
    assert_eq!(symbols.undefined_symbols(), ["b", "B", "c"]);
    assert_eq!(symbols.get("A"), None);
    assert_eq!(symbols.get("a"), Some(Symbol::public(0, 0, 0, 0)));
    assert_eq!(symbols.entries.len(), 4);
    symbols.update("B", Symbol::public(1, 2, 3, 4)).unwrap();
    assert_eq!(symbols.undefined_symbols(), ["b", "c"]);
    assert_eq!(symbols.entries.len(), 4);
    assert_eq!(symbols.entries[1].name, "B");
}
