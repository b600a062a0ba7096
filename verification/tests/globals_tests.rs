use rust_minibrowser::globals::make_globals;

#[test]
fn test_make_globals() {
    let globals = make_globals();
    assert_eq!(globals.named_color("aqua").unwrap(), "#00ffff");
    assert!(globals.named_color("fuchsia").is_none());
}

#[test]
fn it_works() {
    assert_eq!(2 + 2, 4);
}
