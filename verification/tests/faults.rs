use norma::fault::{
    index_out_of_bounds, inconsistent_register_table, symbol_already_exist, symbol_does_not_exist,
    Fault,
};

#[test]
fn fault_symbol_already_exist() {
    let f = symbol_already_exist(String::from("X"), 0);
    assert!(matches!(f, Fault::SymbolAlreadyExist { ref symbol, index: 0 } if symbol == "X"));
}

#[test]
fn fault_symbol_does_not_exist() {
    let f = symbol_does_not_exist(String::from("missing"));
    assert!(matches!(f, Fault::SymbolDoesNotExist { ref symbol } if symbol == "missing"));
}

#[test]
fn fault_index_out_of_bounds() {
    let f = index_out_of_bounds(9, 4);
    assert!(matches!(f, Fault::IndexOutOfBounds { index: 9, length: 4 }));
}

#[test]
fn fault_inconsistent_register_table() {
    let f = inconsistent_register_table();
    assert!(matches!(f, Fault::InconsistentRegisterTable));
}
