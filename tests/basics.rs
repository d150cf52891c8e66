use symterm::{check, combine, remove_braces, split};

#[test]
fn test_remove_braces() {
    let i = ["((4+3))", "()", "", "(4+3)^3+(4+3)"];
    let o = ["4+3", "", "", "(4+3)^3+(4+3)"];
    for j in 0..i.len() {
        assert_eq!(remove_braces(i[j]), o[j]);
    }
}

#[test]
fn test_split() {
    let i = ["(4+3)*2", "4+3^2", "4/(3*2)", "sin(5*x)", "-x", "3-2"];
    let o = [
        ("(4+3)", Some(2), Some("2")),
        ("4", Some(0), Some("3^2")),
        ("4", Some(3), Some("(3*2)")),
        ("(5*x)", None, Some("sin")),
        ("-1", Some(2), Some("x")),
        ("3", Some(1), Some("2")),
    ];
    for j in 0..i.len() {
        assert_eq!(split(i[j]), o[j]);
    }
}

#[test]
fn test_combine() {
    let i = [
        ("4+3^2", None, Some("sin")),
        ("4+3", Some(4), Some("2*sin(4)")),
        ("4+1", Some(3), Some("3/3")),
    ];
    let o = ["sin(4+3^2)", "(4+3)^(2*sin(4))", "(4+1)/(3/3)"];
    for j in 0..i.len() {
        assert_eq!(combine(i[j].0, i[j].1, i[j].2), o[j]);
    }
}

#[test]
fn remove_braces_is_idempotent() {
    for s in ["((4+3))", "(((x)))", "(a)+(b)", "((a)", "()()", "(", ")", "x"] {
        let once = remove_braces(s);
        assert_eq!(remove_braces(once), once);
    }
}

#[test]
fn remove_braces_keeps_unbalanced_input() {
    assert_eq!(remove_braces("((4+3)"), "((4+3)");
    assert_eq!(remove_braces("()()"), "()()");
    assert_eq!(remove_braces("(x)"), "x");
}

#[test]
fn split_minus_is_last_top_level() {
    assert_eq!(split("a-b-c"), ("a-b", Some(1), Some("c")));
    assert_eq!(split("-a-b"), ("-a", Some(1), Some("b")));
    assert_eq!(split("(a-b)"), ("(a-b)", None, None));
}

#[test]
fn split_division_is_last_top_level() {
    assert_eq!(split("a/b/c"), ("a/b", Some(3), Some("c")));
    assert_eq!(split("a*b*c"), ("a", Some(2), Some("b*c")));
    assert_eq!(split("a^b^c"), ("a", Some(4), Some("b^c")));
}

#[test]
fn split_leaves_negative_one_and_atoms_alone() {
    assert_eq!(split("-1"), ("-1", None, None));
    assert_eq!(split("xyz"), ("xyz", None, None));
    assert_eq!(split(""), ("", None, None));
    assert_eq!(split("-"), ("-1", Some(2), Some("")));
}

#[test]
fn split_functions_by_prefix() {
    assert_eq!(split("sinh(x)"), ("(x)", None, Some("sinh")));
    assert_eq!(split("ln(2)"), ("(2)", None, Some("ln")));
    assert_eq!(split("exp(x)"), ("(x)", None, Some("exp")));
}

#[test]
fn combine_parenthesizes_by_table() {
    assert_eq!(combine("a-b", Some(1), Some("c-d")), "a-b-(c-d)");
    assert_eq!(combine("a+b", Some(2), Some("c+d")), "(a+b)*(c+d)");
    assert_eq!(combine("a*b", Some(3), Some("c^d")), "a*b/c^d");
    assert_eq!(combine("a", Some(0), Some("b")), "a+b");
    assert_eq!(combine("((x))", None, Some("cos")), "cos(x)");
    assert_eq!(combine("x", None, None), "x");
}

#[test]
fn check_reads_integers() {
    assert_eq!(check("42").ok(), Some(Some(42)));
    assert_eq!(check("-7").ok(), Some(Some(-7)));
    assert_eq!(check("+7").ok(), Some(Some(7)));
    assert_eq!(check("2147483647").ok(), Some(Some(2147483647)));
    assert_eq!(check("-2147483648").ok(), Some(Some(-2147483648)));
}

#[test]
fn check_accepts_names() {
    assert_eq!(check("x").ok(), Some(None));
    assert_eq!(check("alpha_2").ok(), Some(None));
}

#[test]
fn check_rejects_bad_tokens() {
    for s in ["", "2x", "9a", "2147483648", "*x", "/x", "^x", "a(", "b)", "c{", "d}", "a b"] {
        let e = check(s).err().expect("rejected");
        assert_eq!(e.to_string(), format!("Invalid string: {}", s));
    }
}
