use bn128::registers::Registers;

#[test]
fn next_register_counts_up_to_max() {
    let mut r = Registers::new("vector", 2);
    assert_eq!(r.next_register(), Some(1));
    assert_eq!(r.next_register(), Some(2));
    assert_eq!(r.next_register(), None);
    assert_eq!(r.last_number, 2);
    assert_eq!(r.get_reg("__tmp_vector_var1"), Ok((1, false)));
    assert_eq!(r.get_reg("__tmp_vector_var2"), Ok((2, false)));
}

#[test]
fn insert_and_lookup() {
    let mut r = Registers::new("general", 32);
    r.insert("a".to_string(), (3, true));
    r.insert("b".to_string(), (4, false));
    r.insert("a".to_string(), (5, true));
    assert_eq!(r.mapping.len(), 2);
    assert_eq!(r.get_reg("a"), Ok((5, true)));
    assert_eq!(r.search_reg(4), Some(("b".to_string(), false)));
    assert_eq!(r.search_reg(3), None);
}

#[test]
fn unknown_name_is_an_error() {
    let r = Registers::new("vector", 32);
    assert_eq!(r.get_reg("x"), Err("Unrecognized vector variable name: x".to_string()));
}

#[test]
fn temporary_names_use_decimal_numbers() {
    let mut r = Registers::new("v", 12);
    for _ in 0..12 {
        r.next_register();
    }
    assert_eq!(r.search_reg(12), Some(("__tmp_v_var12".to_string(), false)));
}
