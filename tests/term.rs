use symterm::{Power, Term, Var};

fn v(name: &str) -> Term {
    Term::V(Var(name.to_string()))
}

fn children(t: &Term) -> usize {
    match t {
        Term::ST(l) | Term::PT(l) => l.len(),
        _ => 0,
    }
}

#[test]
fn test_term_display() {
    let z = Var("z".to_string());
    let i = [
        Term::N(5),
        Term::V(z.clone()),
        Term::FT("sin".to_string(), Box::new(Term::N(-4))),
        Term::ET(Box::new((
            Term::ST(vec![Term::N(1), Term::V(z.clone())]),
            Term::PT(vec![Term::N(4), Term::N(7)]),
        ))),
        Term::INVALID("Hello there".to_string()),
    ];
    let o = ["5", "z", "sin(-4)", "(1+z)^(4*7)", "Invalid Term: Hello there"];
    for j in 0..i.len() {
        assert_eq!(i[j].to_string(), o[j]);
    }
}

#[test]
fn test_term_equality() {
    let v1 = Var("x".to_string());
    let v2 = Var("y".to_string());
    let t1 = Term::ST(vec![Term::PT(vec![Term::V(v1.clone()), Term::V(v2.clone())]), Term::N(4)]);
    let t2 = Term::ST(vec![Term::N(4), Term::PT(vec![Term::V(v2.clone()), Term::V(v1.clone())])]);
    assert_eq!(t1, t2);
}

#[test]
fn test_parse_string() {
    let z = Var("z".to_string());
    let i = [
        Term::N(5),
        Term::V(z.clone()),
        Term::FT("sin".to_string(), Box::new(Term::PT(vec![Term::N(-1), Term::N(4)]))),
        Term::ET(Box::new((
            Term::ST(vec![Term::N(1), Term::V(z.clone())]),
            Term::PT(vec![Term::V(z.clone()), Term::N(7)]),
        ))),
        Term::INVALID("Hello there".to_string()),
    ];
    let o = ["5", "z", "sin(-4)", "(1+z)^(z*7)", "In skjdh "];
    for j in 0..i.len() {
        assert_eq!(i[j], Term::from(o[j]));
    }
}

#[test]
fn from_integer() {
    assert_eq!(Term::from(7).to_string(), "7");
    assert_eq!(Term::from(-7).to_string(), "-7");
}

#[test]
fn round_trip_of_chosen_expressions() {
    for s in ["4+3", "x*y*z", "(1+z)^(z*7)", "sin(x)+cos(y)", "a-b", "2*(x+y)", "x^2", "exp(a*b)", "a+b*c", "x-y", "sin(-4)", "x/y", "a/(b+c)", "4+3*x^(3*y/2)", "2^-3"] {
        let t = Term::from(s);
        let again = Term::from(t.to_string().as_str());
        assert_eq!(again, t, "{}", s);
    }
}

#[test]
fn printed_forms() {
    assert_eq!(Term::from("a-b").to_string(), "a+-b");
    assert_eq!(Term::from("-x").to_string(), "-x");
    assert_eq!(Term::from("x/y").to_string(), "x*y^-1");
    assert_eq!(Term::from("((a+b))*c").to_string(), "(a+b)*c");
}

#[test]
fn identities_are_removed() {
    assert_eq!(v("x").add(Term::N(0)), v("x"));
    assert_eq!(Term::N(0).add(v("x")), v("x"));
    assert_eq!(v("x").mul(Term::N(1)), v("x"));
    assert_eq!(Term::N(1).mul(v("x")), v("x"));
    assert_eq!(v("x").mul(Term::N(0)), Term::N(0));
    assert_eq!(Term::N(0).mul(v("x")), Term::N(0));
    assert_eq!(Term::from("x+0"), v("x"));
    assert_eq!(Term::from("1*x"), v("x"));
    assert_eq!(Term::from("x*0").to_string(), "0");
}

#[test]
fn errors_absorb() {
    let e = || Term::INVALID("boom".to_string());
    let f = || Term::INVALID("other".to_string());
    assert_eq!(e().add(v("x")).to_string(), "Invalid Term: boom");
    assert_eq!(v("x").add(e()).to_string(), "Invalid Term: boom");
    assert_eq!(e().mul(Term::N(0)).to_string(), "Invalid Term: boom");
    assert_eq!(Term::N(0).mul(e()).to_string(), "Invalid Term: boom");
    assert_eq!(Term::N(0).add(e()).to_string(), "Invalid Term: boom");
    assert_eq!(e().sub(f()).to_string(), "Invalid Term: boom");
    assert_eq!(v("x").div(e()).to_string(), "Invalid Term: boom");
    assert_eq!(e().pow(f()).to_string(), "Invalid Term: boom");
    assert_eq!(f().pow_raw(e()).to_string(), "Invalid Term: other");
    assert_eq!(v("x").add_raw(e()).to_string(), "Invalid Term: boom");
    assert_eq!(v("x").mul_raw(e()).to_string(), "Invalid Term: boom");
    assert_eq!(<Term as Power>::pow(v("x"), e()).to_string(), "Invalid Term: boom");
    assert_eq!(e().neg().to_string(), "Invalid Term: boom");
    assert_eq!(Term::from("x+(2x)").to_string(), "Invalid Term: Invalid string: 2x");
}

#[test]
fn sums_and_products_flatten() {
    let left = v("a").add(v("b")).add(v("c"));
    let right = v("a").add(v("b").add(v("c")));
    assert_eq!(children(&left), 3);
    assert_eq!(children(&right), 3);
    assert_eq!(left.to_string(), "a+b+c");
    assert_eq!(children(&Term::from("(a+b)+c")), 3);
    assert_eq!(children(&Term::from("a+(b+c)")), 3);
    assert_eq!(children(&Term::from("(a*b)*(c*d)")), 4);
    let joined = Term::ST(vec![v("a"), v("b")]).add_raw(Term::ST(vec![v("c"), v("d")]));
    assert_eq!(joined.to_string(), "a+b+c+d");
}

#[test]
fn nested_power_parses() {
    let t = Term::from("4+3*x^(3*y/2)");
    match &t {
        Term::ST(l) => {
            assert_eq!(l.len(), 2);
            assert_eq!(l[0], Term::N(4));
            assert!(matches!(l[1], Term::PT(_)));
        }
        _ => panic!("not a sum"),
    }
    let text = t.to_string();
    assert_eq!(text, "4+3*x^(3*y*2^-1)");
    assert_eq!(Term::from(text.as_str()), t);
}

#[test]
fn equality_ignores_multiplicity() {
    let ab = || Term::PT(vec![v("a"), v("b")]);
    let aa = || Term::PT(vec![v("a"), v("a")]);
    let s1 = Term::ST(vec![ab(), aa()]);
    let s2 = Term::ST(vec![ab(), ab()]);
    assert_eq!(s1, s2);
    let l1 = Term::PT(vec![v("a"), v("b"), v("b"), v("b")]);
    let l2 = Term::PT(vec![v("a"), v("a"), v("b"), v("b")]);
    assert_eq!(l1, l2);
    assert_ne!(Term::PT(vec![v("a"), v("b")]), Term::PT(vec![v("a"), v("c")]));
    assert_ne!(Term::ST(vec![v("a"), v("b")]), Term::PT(vec![v("a"), v("b")]));
    assert_ne!(Term::ST(vec![v("a")]), Term::ST(vec![v("a"), v("a")]));
    assert_eq!(Term::INVALID("p".to_string()), Term::INVALID("q".to_string()));
}

#[test]
fn powers_normalize() {
    assert_eq!(Term::from("2^3"), Term::N(8));
    assert_eq!(Term::from("(-2)^3").to_string(), "(-2)^3");
    assert_eq!(Term::from("-2^3").to_string(), "-8");
    assert_eq!(Term::from("0^0").to_string(), "Invalid Term: 0^0");
    assert_eq!(Term::N(0).pow(Term::N(-3)).to_string(), "Invalid Term: 0^0");
    assert_eq!(Term::N(2).pow(Term::N(-2)).to_string(), "4^-1");
    assert_eq!(Term::N(2).pow(Term::N(40)).to_string(), "2^40");
    assert_eq!(Term::N(3).pow(Term::N(i32::MIN)).to_string(), "3^(-2147483648)");
    assert_eq!(Term::N(-1).pow(Term::N(7)), Term::N(-1));
    assert_eq!(Term::N(2).pow(Term::N(31)).to_string(), "2^31");
    assert_eq!(Term::N(-2).pow(Term::N(31)), Term::N(i32::MIN));
    assert_eq!(v("x").pow(Term::N(0)), Term::N(1));
    assert_eq!(v("x").pow(Term::N(1)), v("x"));
    assert_eq!(Term::N(0).pow(v("x")), Term::N(0));
    assert_eq!(Term::from("(x^y)^z").to_string(), "x^(y*z)");
    assert_eq!(Term::from("(x^y)^2").to_string(), "x^(y*2)");
    assert_eq!(Term::ET(Box::new((v("x"), v("y")))).pow(Term::N(-1)).to_string(), "x^(y*-1)");
    assert_eq!(Term::N(1).pow(v("x")), Term::N(1));
    assert_eq!(Term::N(1).pow(Term::N(-3)), Term::N(1));
    assert_eq!(Term::from("1^(a+b)"), Term::N(1));
    assert_eq!(v("x").pow(v("y")).to_string(), "x^y");
    assert_eq!(v("x").pow_raw(Term::N(1)).to_string(), "x^1");
}

#[test]
fn associated_power_shortcuts() {
    assert_eq!(<Term as Power>::pow(Term::N(0), Term::N(0)).to_string(), "Invalid Term: 0^0");
    assert_eq!(<Term as Power>::pow(Term::N(0), Term::N(-2)).to_string(), "Invalid Term: 0^0");
    assert_eq!(<Term as Power>::pow(Term::N(0), Term::N(2)), Term::N(0));
    assert_eq!(<Term as Power>::pow(Term::N(1), v("x")), Term::N(1));
    assert_eq!(<Term as Power>::pow(Term::N(0), v("x")), Term::N(0));
    assert_eq!(<Term as Power>::pow(v("x"), Term::N(0)), Term::N(1));
    assert_eq!(<Term as Power>::pow(v("x"), Term::N(1)), v("x"));
    let p = Term::ET(Box::new((v("x"), v("y"))));
    assert_eq!(<Term as Power>::pow(p, Term::N(2)).to_string(), "x^(y*2)");
    assert_eq!(<Term as Power>::pow(v("x"), v("y")).to_string(), "x^y");
}

#[test]
fn subtraction_and_negation() {
    assert_eq!(v("x").neg().to_string(), "-x");
    assert_eq!(v("a").sub(v("b")).to_string(), "a+-b");
    assert_eq!(Term::from("3-2").to_string(), "3+-2");
}

#[test]
fn empty_sum_prints_nothing() {
    assert_eq!(Term::ST(vec![]).to_string(), "");
    assert_eq!(Term::PT(vec![v("q")]).to_string(), "q");
}

#[test]
fn printing_drops_leading_identities() {
    assert_eq!(Term::ST(vec![Term::N(0), v("x")]).to_string(), "x");
    assert_eq!(Term::PT(vec![Term::N(1), v("x")]).to_string(), "x");
    assert_eq!(Term::PT(vec![Term::N(-1), v("x"), v("y")]).to_string(), "-x*y");
}

#[test]
fn base_and_exponent() {
    let p = Term::ET(Box::new((v("x"), Term::N(3))));
    assert_eq!(*p.base(), v("x"));
    assert_eq!(*p.expo(), Term::N(3));
    let q = v("y");
    assert_eq!(*q.base(), v("y"));
    assert_eq!(*q.expo(), Term::N(1));
}

#[test]
fn minus_after_operator_is_a_sign() {
    assert_eq!(symterm::split("2^-1"), ("2", Some(4), Some("-1")));
    assert_eq!(symterm::split("a*-b"), ("a", Some(2), Some("-b")));
    assert_eq!(symterm::split("a/-b-c"), ("a/-b", Some(1), Some("c")));
    assert_eq!(Term::from("2^-1").to_string(), "2^-1");
}

#[test]
fn operators_and_clone() {
    let s = v("a") + v("b") - v("c");
    assert_eq!(s.to_string(), "a+b+-c");
    let p = v("a") * v("b") / v("c");
    assert_eq!(p.to_string(), "a*b*c^-1");
    assert_eq!((-v("x")).to_string(), "-x");
    let copy = p.clone();
    assert_eq!(copy, p);
    assert_eq!(copy.to_string(), p.to_string());
}
