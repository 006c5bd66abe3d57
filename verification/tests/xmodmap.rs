use x11_input_supercharger::x::xmodmap::transaction;

#[test]
fn empty_transaction_empty_script() {
    assert!(transaction().commit().is_empty());
}

#[test]
fn bindings_in_order() {
    let keysyms = [0x77u64, 0, 18446744073709551615];
    let mut t = transaction();
    t.bind(25, &[]);
    t.bind(0, &keysyms);
    t.bind(255, &keysyms[..1]);
    let script = String::from_utf8(t.commit()).unwrap();
    assert_eq!(
        script,
        "keycode 25 = \nkeycode 0 = 119 NoSymbol 18446744073709551615 \nkeycode 255 = 119 \n"
    );
}
