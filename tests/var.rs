use symterm::Var;

#[test]
fn test_display_and_eq() {
    let x = Var("x".to_string());
    let y = Var("y".to_string());
    let z = Var("x".to_string());
    assert_eq!(x, z);
    assert_eq!("x", x.to_string());
    assert_eq!("y", y.to_string());
}

#[test]
fn var_names_differ() {
    assert_ne!(Var("x".to_string()), Var("y".to_string()));
}
