use crate::basics::{
    check, combine, combine_spec, int_text, int_to_text, invalid_string_message, lemma_split_shorter,
    lemma_strip_parens_len, parens, parse_i32, rejected_token, remove_braces, split, split_spec,
    strip_parens, StringParseError,
};
use crate::var::Var;
use vstd::prelude::*;

verus! {

broadcast use {vstd::seq::group_seq_axioms, vstd::std_specs::vec::group_vec_axioms};

/// Exponentiation as an associated function.
pub trait Power: Sized {
    fn pow(a: Self, b: Self) -> Self;
}

/// An expression tree.
#[derive(Debug, Hash)]
pub enum Term {
    /// An integer literal.
    N(i32),
    /// A variable.
    V(Var),
    /// A named function applied to one argument.
    FT(String, Box<Term>),
    /// A sum of its children.
    ST(Vec<Term>),
    /// A product of its children.
    PT(Vec<Term>),
    /// A base raised to an exponent.
    ET(Box<(Term, Term)>),
    /// An error, with its message.
    INVALID(String),
}

/// The mathematical value of a `Term`.
pub enum Expr {
    Num(int),
    Name(Seq<char>),
    Call(Seq<char>, Box<Expr>),
    Sum(Seq<Expr>),
    Prod(Seq<Expr>),
    Pow(Box<Expr>, Box<Expr>),
    Bad(Seq<char>),
}

/// The value of term `t`.
pub open spec fn model(t: Term) -> Expr
    decreases t,
{
    match t {
        Term::N(n) => Expr::Num(n as int),
        Term::V(v) => Expr::Name(v.0@),
        Term::FT(f, b) => Expr::Call(f@, Box::new(model(*b))),
        Term::ST(v) => Expr::Sum(models(v@)),
        Term::PT(v) => Expr::Prod(models(v@)),
        Term::ET(b) => Expr::Pow(Box::new(model(b.0)), Box::new(model(b.1))),
        Term::INVALID(m) => Expr::Bad(m@),
    }
}

/// The values of a sequence of terms.
pub open spec fn models(s: Seq<Term>) -> Seq<Expr>
    decreases s,
{
    if s.len() == 0 {
        Seq::empty()
    } else {
        models(s.subrange(0, s.len() - 1)).push(model(s[s.len() - 1]))
    }
}

impl View for Term {
    type V = Expr;

    open spec fn view(&self) -> Expr {
        model(*self)
    }
}

proof fn lemma_models(s: Seq<Term>)
    ensures
        models(s).len() == s.len(),
        forall|i: int| 0 <= i < s.len() ==> #[trigger] models(s)[i] == model(s[i]),
    decreases s.len(),
{
    if s.len() > 0 {
        lemma_models(s.subrange(0, s.len() - 1));
    }
}

proof fn lemma_models_concat(a: Seq<Term>, b: Seq<Term>)
    ensures
        models(a + b) == models(a) + models(b),
{
    lemma_models(a);
    lemma_models(b);
    lemma_models(a + b);
    assert(models(a + b) =~= models(a) + models(b));
}

proof fn lemma_models_one(t: Term)
    ensures
        models(seq![t]) == seq![model(t)],
{
    lemma_models(seq![t]);
    assert(models(seq![t]) =~= seq![model(t)]);
}

/// The terms added by `e`: its children if it is a sum, else `e` alone.
pub open spec fn summands(e: Expr) -> Seq<Expr> {
    match e {
        Expr::Sum(cs) => cs,
        _ => seq![e],
    }
}

/// The terms multiplied by `e`: its children if it is a product, else `e` alone.
pub open spec fn factors(e: Expr) -> Seq<Expr> {
    match e {
        Expr::Prod(cs) => cs,
        _ => seq![e],
    }
}

/// `a + b` flattened into one sum, an error operand winning (the left first).
pub open spec fn add_raw_spec(a: Expr, b: Expr) -> Expr {
    if a is Bad {
        a
    } else if b is Bad {
        b
    } else {
        Expr::Sum(summands(a) + summands(b))
    }
}

/// `a * b` flattened into one product, an error operand winning (the left first).
pub open spec fn mul_raw_spec(a: Expr, b: Expr) -> Expr {
    if a is Bad {
        a
    } else if b is Bad {
        b
    } else {
        Expr::Prod(factors(a) + factors(b))
    }
}

/// `a ^ b` as it stands, an error operand winning (the left first).
pub open spec fn pow_raw_spec(a: Expr, b: Expr) -> Expr {
    if a is Bad {
        a
    } else if b is Bad {
        b
    } else {
        Expr::Pow(Box::new(a), Box::new(b))
    }
}

/// `a + b` with a zero operand dropped.
pub open spec fn add_spec(a: Expr, b: Expr) -> Expr {
    if a is Bad {
        a
    } else if b is Bad {
        b
    } else if a == Expr::Num(0) {
        b
    } else if b == Expr::Num(0) {
        a
    } else {
        add_raw_spec(a, b)
    }
}

/// `a * b` with a factor one dropped and a factor zero absorbing the rest.
pub open spec fn mul_spec(a: Expr, b: Expr) -> Expr {
    if a is Bad {
        a
    } else if b is Bad {
        b
    } else if a == Expr::Num(1) {
        b
    } else if b == Expr::Num(1) {
        a
    } else if a == Expr::Num(0) || b == Expr::Num(0) {
        Expr::Num(0)
    } else {
        mul_raw_spec(a, b)
    }
}

/// `-a`, as `-1 * a`.
pub open spec fn neg_spec(a: Expr) -> Expr {
    mul_spec(Expr::Num(-1), a)
}

/// `a - b`, as `a + (-b)`.
pub open spec fn sub_spec(a: Expr, b: Expr) -> Expr {
    add_spec(a, neg_spec(b))
}

/// `b` to the power `e`.
pub open spec fn ipow(b: int, e: nat) -> int
    decreases e,
{
    if e == 0 {
        1
    } else {
        b * ipow(b, (e - 1) as nat)
    }
}

/// `b ^ e` for an exponent `e >= 0`: its value where that fits in an `i32`,
/// else the power unevaluated.
pub open spec fn num_pow(b: int, e: int) -> Expr {
    if i32::MIN <= ipow(b, e as nat) <= i32::MAX {
        Expr::Num(ipow(b, e as nat))
    } else {
        Expr::Pow(Box::new(Expr::Num(b)), Box::new(Expr::Num(e)))
    }
}

/// The message of the error for a zero base with an exponent that is not positive.
pub open spec fn zero_pow_message() -> Seq<char> {
    seq!['0', '^', '0']
}

/// `a ^ b` normalized: numbers folded, `0 ^ n` an error for `n <= 0`, a
/// negative integer exponent taken as the inverse of the positive power,
/// bases zero and one kept, exponents zero and one removed, and `(b ^ e) ^ x`
/// read as `b ^ (e * x)`.
pub open spec fn pow_spec(a: Expr, b: Expr) -> Expr {
    if a is Bad {
        a
    } else if b is Bad {
        b
    } else {
        match (a, b) {
            (Expr::Num(n1), Expr::Num(n2)) => if n1 == 0 && n2 <= 0 {
                Expr::Bad(zero_pow_message())
            } else if n1 == 1 {
                Expr::Num(1)
            } else if n2 < 0 {
                if n2 == i32::MIN {
                    Expr::Pow(Box::new(a), Box::new(b))
                } else {
                    Expr::Pow(Box::new(num_pow(n1, -n2)), Box::new(Expr::Num(-1)))
                }
            } else {
                num_pow(n1, n2)
            },
            (Expr::Num(n), t) => if n == 0 || n == 1 {
                a
            } else {
                Expr::Pow(Box::new(a), Box::new(t))
            },
            _ => if b == Expr::Num(0) {
                Expr::Num(1)
            } else if b == Expr::Num(1) {
                a
            } else {
                match a {
                    Expr::Pow(base, e) => Expr::Pow(base, Box::new(mul_spec(*e, b))),
                    _ => Expr::Pow(Box::new(a), Box::new(b)),
                }
            },
        }
    }
}

/// `a ^ b` with the shortcuts of the associated `Power::pow`: `0 ^ n` an
/// error for an integer `n <= 0`, bases zero and one kept, exponents zero and
/// one removed, and `(b ^ e) ^ x` read as `b ^ (e * x)`.
pub open spec fn power_spec(a: Expr, b: Expr) -> Expr {
    if a is Bad {
        a
    } else if b is Bad {
        b
    } else if a == Expr::Num(0) && b is Num && b->Num_0 <= 0 {
        Expr::Bad(zero_pow_message())
    } else if a == Expr::Num(0) || a == Expr::Num(1) {
        a
    } else if b == Expr::Num(0) {
        Expr::Num(1)
    } else if b == Expr::Num(1) {
        a
    } else {
        match a {
            Expr::Pow(base, e) => Expr::Pow(base, Box::new(mul_spec(*e, b))),
            _ => pow_raw_spec(a, b),
        }
    }
}

/// `a / b`, as `a * b ^ -1`.
pub open spec fn div_spec(a: Expr, b: Expr) -> Expr {
    mul_spec(a, pow_spec(b, Expr::Num(-1)))
}

impl Term {
    /// Whether this is an error.
    pub fn is_invalid(&self) -> (r: bool)
        ensures
            r == self@ is Bad,
    {
        matches!(self, Term::INVALID(_))
    }

    /// Whether this is the integer `n`.
    pub fn is_number(&self, n: i32) -> (r: bool)
        ensures
            r == (self@ == Expr::Num(n as int)),
    {
        match self {
            Term::N(m) => *m == n,
            _ => false,
        }
    }

    /// The base of a power; any other term is its own base.
    pub fn base(&self) -> (r: &Term)
        ensures
            r@ == (match self@ {
                Expr::Pow(b, _) => *b,
                _ => self@,
            }),
    {
        match self {
            Term::ET(bb) => &bb.0,
            _ => self,
        }
    }

    /// The exponent of a power; any other term has exponent one.
    pub fn expo(&self) -> (r: &Term)
        ensures
            r@ == (match self@ {
                Expr::Pow(_, e) => *e,
                _ => Expr::Num(1),
            }),
    {
        match self {
            Term::ET(bb) => &bb.1,
            _ => &Term::N(1),
        }
    }

    /// The sum of `self` and `other`, flattened, with no identity removed.
    pub fn add_raw(self, other: Self) -> (r: Self)
        ensures
            r@ == add_raw_spec(self@, other@),
    {
        if self.is_invalid() {
            return self;
        }
        if other.is_invalid() {
            return other;
        }
        let ghost a = self;
        let ghost b = other;
        match (self, other) {
            (Term::ST(mut v1), Term::ST(mut v2)) => {
                let ghost s1 = v1@;
                let ghost s2 = v2@;
                v1.append(&mut v2);
                proof {
                    lemma_models_concat(s1, s2);
                }
                Term::ST(v1)
            },
            (Term::ST(mut v), t) => {
                let ghost s1 = v@;
                v.push(t);
                proof {
                    lemma_models_concat(s1, seq![t]);
                    lemma_models_one(t);
                    assert(v@ =~= s1 + seq![t]);
                }
                Term::ST(v)
            },
            (t, Term::ST(mut v)) => {
                let ghost s2 = v@;
                let mut v2 = vec![t];
                v2.append(&mut v);
                proof {
                    lemma_models_concat(seq![t], s2);
                    lemma_models_one(t);
                    assert(v2@ =~= seq![t] + s2);
                }
                Term::ST(v2)
            },
            (a, b) => {
                let r = vec![a, b];
                proof {
                    lemma_models_concat(seq![a], seq![b]);
                    lemma_models_one(a);
                    lemma_models_one(b);
                    assert(r@ =~= seq![a] + seq![b]);
                }
                Term::ST(r)
            },
        }
    }

    /// The product of `self` and `other`, flattened, with no identity removed.
    pub fn mul_raw(self, other: Self) -> (r: Self)
        ensures
            r@ == mul_raw_spec(self@, other@),
    {
        if self.is_invalid() {
            return self;
        }
        if other.is_invalid() {
            return other;
        }
        let ghost a = self;
        let ghost b = other;
        match (self, other) {
            (Term::PT(mut v1), Term::PT(mut v2)) => {
                let ghost s1 = v1@;
                let ghost s2 = v2@;
                v1.append(&mut v2);
                proof {
                    lemma_models_concat(s1, s2);
                }
                Term::PT(v1)
            },
            (Term::PT(mut v), t) => {
                let ghost s1 = v@;
                v.push(t);
                proof {
                    lemma_models_concat(s1, seq![t]);
                    lemma_models_one(t);
                    assert(v@ =~= s1 + seq![t]);
                }
                Term::PT(v)
            },
            (t, Term::PT(mut v)) => {
                let ghost s2 = v@;
                let mut v2 = vec![t];
                v2.append(&mut v);
                proof {
                    lemma_models_concat(seq![t], s2);
                    lemma_models_one(t);
                    assert(v2@ =~= seq![t] + s2);
                }
                Term::PT(v2)
            },
            (a, b) => {
                let r = vec![a, b];
                proof {
                    lemma_models_concat(seq![a], seq![b]);
                    lemma_models_one(a);
                    lemma_models_one(b);
                    assert(r@ =~= seq![a] + seq![b]);
                }
                Term::PT(r)
            },
        }
    }

    /// `self ^ other` as it stands.
    pub fn pow_raw(self, other: Self) -> (r: Self)
        ensures
            r@ == pow_raw_spec(self@, other@),
    {
        if self.is_invalid() {
            return self;
        }
        if other.is_invalid() {
            return other;
        }
        Term::ET(Box::new((self, other)))
    }

    /// `self + other`, dropping a zero operand.
    pub fn add(self, other: Self) -> (r: Self)
        ensures
            r@ == add_spec(self@, other@),
    {
        if self.is_invalid() {
            return self;
        }
        if other.is_invalid() {
            return other;
        }
        if self.is_number(0) {
            other
        } else if other.is_number(0) {
            self
        } else {
            self.add_raw(other)
        }
    }

    /// `self * other`, dropping a factor one; a factor zero gives zero.
    pub fn mul(self, other: Self) -> (r: Self)
        ensures
            r@ == mul_spec(self@, other@),
    {
        if self.is_invalid() {
            return self;
        }
        if other.is_invalid() {
            return other;
        }
        if self.is_number(1) {
            other
        } else if other.is_number(1) {
            self
        } else if self.is_number(0) || other.is_number(0) {
            Term::N(0)
        } else {
            self.mul_raw(other)
        }
    }

    /// `-self`, as `-1 * self`.
    pub fn neg(self) -> (r: Self)
        ensures
            r@ == neg_spec(self@),
    {
        Term::N(-1).mul(self)
    }

    /// `self - other`, as `self + (-other)`.
    pub fn sub(self, other: Self) -> (r: Self)
        ensures
            r@ == sub_spec(self@, other@),
    {
        self.add(other.neg())
    }

    /// `self / other`, as `self * other ^ -1`.
    pub fn div(self, other: Self) -> (r: Self)
        ensures
            r@ == div_spec(self@, other@),
    {
        self.mul(other.pow(Term::N(-1)))
    }

    /// `self ^ other`, normalized as `pow_spec` says.
    pub fn pow(self, other: Self) -> (r: Self)
        ensures
            r@ == pow_spec(self@, other@),
    {
        if self.is_invalid() {
            return self;
        }
        if other.is_invalid() {
            return other;
        }
        let ghost a = self@;
        let ghost b = other@;
        match (self, other) {
            (Term::N(n1), Term::N(n2)) => {
                assert(model(Term::N(-1i32)) == Expr::Num(-1));
                assert(model(Term::N(n1)) == a && model(Term::N(n2)) == b);
                if n1 == 0 && n2 <= 0 {
                    Term::INVALID(zero_pow_text())
                } else if n1 == 1 {
                    Term::N(1)
                } else if n2 < 0 {
                    if n2 == i32::MIN {
                        Term::ET(Box::new((Term::N(n1), Term::N(n2))))
                    } else {
                        Term::ET(Box::new((number_pow(n1, -n2), Term::N(-1))))
                    }
                } else {
                    number_pow(n1, n2)
                }
            },
            (Term::N(n), t) => {
                if n == 0 || n == 1 {
                    Term::N(n)
                } else {
                    Term::ET(Box::new((Term::N(n), t)))
                }
            },
            (t, e) => {
                if e.is_number(0) {
                    Term::N(1)
                } else if e.is_number(1) {
                    t
                } else {
                    match t {
                        Term::ET(bb) => {
                            let (base, x) = *bb;
                            Term::ET(Box::new((base, x.mul(e))))
                        },
                        t => Term::ET(Box::new((t, e))),
                    }
                }
            },
        }
    }
}

impl Power for Term {
    /// `a ^ b` with the shortcuts that `power_spec` lists.
    fn pow(a: Self, b: Self) -> (r: Self)
        ensures
            r@ == power_spec(a@, b@),
    {
        if a.is_invalid() {
            return a;
        }
        if b.is_invalid() {
            return b;
        }
        if a.is_number(0) {
            if let Term::N(n) = b {
                if n <= 0 {
                    return Term::INVALID(zero_pow_text());
                }
            }
        }
        if a.is_number(0) || a.is_number(1) {
            return a;
        }
        if b.is_number(0) {
            return Term::N(1);
        }
        if b.is_number(1) {
            return a;
        }
        match a {
            Term::ET(bb) => {
                let (base, e) = *bb;
                Term::ET(Box::new((base, e.mul(b))))
            },
            t => t.pow_raw(b),
        }
    }
}

fn zero_pow_text() -> (r: String)
    ensures
        r@ == zero_pow_message(),
{
    proof {
        reveal_strlit("0^0");
    }
    let r = String::from_str("0^0");
    assert(r@ =~= zero_pow_message());
    r
}

/// Absolute value.
pub open spec fn abs(x: int) -> int {
    if x < 0 {
        -x
    } else {
        x
    }
}

proof fn lemma_ipow_units(b: int, e: nat)
    ensures
        b == 1 ==> ipow(b, e) == 1,
        b == 0 && e > 0 ==> ipow(b, e) == 0,
        b == -1 ==> ipow(b, e) == (if e % 2 == 0 {
            1int
        } else {
            -1int
        }),
    decreases e,
{
    if e > 0 {
        lemma_ipow_units(b, (e - 1) as nat);
    }
}

proof fn lemma_ipow_grows(b: int, k: nat, e: nat)
    requires
        abs(b) >= 2,
        k <= e,
    ensures
        abs(ipow(b, e)) >= abs(ipow(b, k)),
        e > k ==> abs(ipow(b, e)) >= 2 * abs(ipow(b, k)),
    decreases e,
{
    if e > k {
        lemma_ipow_grows(b, k, (e - 1) as nat);
        let p = ipow(b, (e - 1) as nat);
        assert(abs(b * p) == abs(b) * abs(p)) by (nonlinear_arith);
        assert(abs(b) * abs(p) >= 2 * abs(p)) by (nonlinear_arith)
            requires
                abs(b) >= 2,
                abs(p) >= 0,
        ;
    }
}

/// `b ^ e` for `e >= 0`: a number where it fits in an `i32`, else unevaluated.
fn number_pow(b: i32, e: i32) -> (r: Term)
    requires
        e >= 0,
    ensures
        r@ == num_pow(b as int, e as int),
{
    proof {
        lemma_ipow_units(b as int, e as nat);
    }
    if b == 1 {
        return Term::N(1);
    }
    if b == 0 {
        return Term::N(if e == 0 {
            1
        } else {
            0
        });
    }
    if b == -1 {
        return Term::N(if e % 2 == 0 {
            1
        } else {
            -1
        });
    }
    let mut acc: i64 = 1;
    let mut i: i32 = 0;
    while i < e
        invariant
            0 <= i <= e,
            abs(b as int) >= 2,
            acc as int == ipow(b as int, i as nat),
            i32::MIN <= acc <= i32::MAX,
        decreases e - i,
    {
        assert(-4611686018427387904 <= acc * b <= 4611686018427387904) by (nonlinear_arith)
            requires
                i32::MIN <= acc <= i32::MAX,
                i32::MIN <= b <= i32::MAX,
        ;
        assert(ipow(b as int, (i + 1) as nat) == b * ipow(b as int, i as nat));
        acc = acc * (b as i64);
        i = i + 1;
        if acc > i32::MAX as i64 || acc < i32::MIN as i64 {
            proof {
                lemma_ipow_grows(b as int, i as nat, e as nat);
                if i < e {
                    assert(abs(ipow(b as int, e as nat)) > 2 * i32::MAX);
                }
                assert(ipow(b as int, e as nat) > i32::MAX || ipow(b as int, e as nat) < i32::MIN);
                assert(!(i32::MIN <= ipow(b as int, (e as int) as nat) <= i32::MAX));
            }
            let r = Term::ET(Box::new((Term::N(b), Term::N(e))));
            assert(model(Term::N(b)) == Expr::Num(b as int));
            assert(model(Term::N(e)) == Expr::Num(e as int));
            return r;
        }
    }
    Term::N(acc as i32)
}

/// The prefix of the text of an error term.
pub open spec fn invalid_term_prefix() -> Seq<char> {
    "Invalid Term: "@
}

/// `r` without a leading `0+`.
pub open spec fn drop_zero_plus(r: Seq<char>) -> Seq<char> {
    if r.len() >= 2 && r[0] == '0' && r[1] == '+' {
        r.subrange(2, r.len() as int)
    } else {
        r
    }
}

/// `r` without a leading `1*`, or with a leading `-1*` read as `-`.
pub open spec fn drop_one_times(r: Seq<char>) -> Seq<char> {
    if r.len() >= 2 && r[0] == '1' && r[1] == '*' {
        r.subrange(2, r.len() as int)
    } else if r.len() >= 3 && r[0] == '-' && r[1] == '1' && r[2] == '*' {
        seq!['-'] + r.subrange(3, r.len() as int)
    } else {
        r
    }
}

/// The text of expression `e`.
pub open spec fn show(e: Expr) -> Seq<char>
    decreases e, 0nat,
{
    match e {
        Expr::Bad(m) => invalid_term_prefix() + m,
        Expr::Num(n) => int_text(n),
        Expr::Name(v) => v,
        Expr::Call(f, b) => f + parens(show(*b)),
        Expr::Sum(cs) => drop_zero_plus(show_fold(cs, 0, cs.len())),
        Expr::Prod(cs) => drop_one_times(show_fold(cs, 2, cs.len())),
        Expr::Pow(b, x) => combine_spec(show(*b), Some(4usize), Some(show(*x))),
    }
}

/// The text of the first `k` of `cs` joined left to right by operator `op`.
pub open spec fn show_fold(cs: Seq<Expr>, op: usize, k: nat) -> Seq<char>
    decreases cs, k,
{
    if k == 0 || k > cs.len() {
        Seq::empty()
    } else if k == 1 {
        show(cs[0])
    } else {
        combine_spec(show_fold(cs, op, (k - 1) as nat), Some(op), Some(show(cs[k - 1])))
    }
}

impl Term {
    fn fold_text(v: &Vec<Term>, op: usize) -> (r: String)
        requires
            op == 0 || op == 2,
        ensures
            r@ == show_fold(models(v@), op, v@.len()),
        decreases v@, 0nat,
    {
        proof {
            lemma_models(v@);
        }
        if v.len() == 0 {
            return String::new();
        }
        let mut r = v[0].to_string();
        let mut k: usize = 1;
        while k < v.len()
            invariant
                op == 0 || op == 2,
                1 <= k <= v.len(),
                models(v@).len() == v@.len(),
                forall|i: int| 0 <= i < v@.len() ==> #[trigger] models(v@)[i] == model(v@[i]),
                r@ == show_fold(models(v@), op, k as nat),
            decreases v.len() - k,
        {
            let t = v[k].to_string();
            r = combine(r.as_str(), Some(op), Some(t.as_str()));
            k = k + 1;
        }
        r
    }

    /// The text of this expression, with the parentheses it needs; a sum or
    /// a product without children prints as nothing.
    pub fn to_string(&self) -> (r: String)
        ensures
            r@ == show(self@),
        decreases self, 1nat,
    {
        let r = match self {
            Term::INVALID(m) => {
                proof {
                    reveal_strlit("Invalid Term: ");
                }
                let mut r = String::from_str("Invalid Term: ");
                r.append(m.as_str());
                r
            },
            Term::N(n) => int_to_text(*n),
            Term::V(v) => v.to_string(),
            Term::FT(f, b) => {
                let mut r = f.clone();
                let inner = b.to_string();
                proof {
                    reveal_strlit("(");
                    reveal_strlit(")");
                }
                r.append("(");
                r.append(inner.as_str());
                r.append(")");
                r
            },
            Term::ST(v) => {
                let r = Term::fold_text(v, 0);
                proof {
                    lemma_models(v@);
                }
                let n = r.as_str().unicode_len();
                let r = if n >= 2 && r.as_str().get_char(0) == '0' && r.as_str().get_char(1) == '+' {
                    String::from_str(r.as_str().substring_char(2, n))
                } else {
                    r
                };
                assert(r@ == show(self@));
                r
            },
            Term::PT(v) => {
                let r = Term::fold_text(v, 2);
                proof {
                    lemma_models(v@);
                }
                let n = r.as_str().unicode_len();
                if n >= 2 && r.as_str().get_char(0) == '1' && r.as_str().get_char(1) == '*' {
                    String::from_str(r.as_str().substring_char(2, n))
                } else if n >= 3 && r.as_str().get_char(0) == '-' && r.as_str().get_char(1) == '1'
                    && r.as_str().get_char(2) == '*' {
                    proof {
                        reveal_strlit("-");
                    }
                    let mut t = String::from_str("-");
                    t.append(r.as_str().substring_char(3, n));
                    t
                } else {
                    r
                }
            },
            Term::ET(b) => {
                let x = b.0.to_string();
                let y = b.1.to_string();
                combine(x.as_str(), Some(4), Some(y.as_str()))
            },
        };
        r
    }
}

/// What an atomic token stands for: an integer, a variable, or an error.
pub open spec fn token_spec(l: Seq<char>) -> Expr {
    match parse_i32(l) {
        Some(v) => Expr::Num(v as int),
        None => if rejected_token(l) {
            Expr::Bad(invalid_string_message(l))
        } else {
            Expr::Name(l)
        },
    }
}

/// Operator number `i` applied to `a` and `b` through its constructor.
pub open spec fn apply_op(i: usize, a: Expr, b: Expr) -> Expr {
    if i == 0 {
        add_spec(a, b)
    } else if i == 1 {
        sub_spec(a, b)
    } else if i == 2 {
        mul_spec(a, b)
    } else if i == 3 {
        div_spec(a, b)
    } else {
        pow_spec(a, b)
    }
}

/// A size of `s` that every recursive step of the parser makes smaller.
pub open spec fn parse_measure(s: Seq<char>) -> nat {
    if s == seq!['-', '1'] {
        0
    } else {
        s.len() + 1
    }
}

/// The expression that `s` denotes: redundant outer braces removed, then
/// split at its root, each operand read in the same way and joined by the
/// root's constructor; a function applied to its argument; or a token.
pub open spec fn parse_spec(s: Seq<char>) -> Expr
    decreases parse_measure(s),
    via parse_spec_decreases
{
    let u = strip_parens(s);
    let p = split_spec(u);
    match (p.1, p.2) {
        (None, Some(f)) => Expr::Call(f, Box::new(parse_spec(p.0))),
        (Some(i), Some(t)) => apply_op(
            i,
            parse_spec(strip_parens(p.0)),
            parse_spec(strip_parens(t)),
        ),
        (_, None) => token_spec(p.0),
    }
}

proof fn lemma_parse_steps(s: Seq<char>)
    ensures
        ({
            let u = strip_parens(s);
            let p = split_spec(u);
            &&& (p.1 is None && p.2 is Some ==> parse_measure(p.0) < parse_measure(s))
            &&& (p.1 is Some && p.2 is Some ==> parse_measure(strip_parens(p.0)) < parse_measure(
                s,
            ) && parse_measure(strip_parens(p.2->0)) < parse_measure(s))
        }),
{
    let u = strip_parens(s);
    let p = split_spec(u);
    lemma_strip_parens_len(s);
    lemma_split_shorter(u);
    lemma_strip_parens_len(p.0);
    if p.2 is Some {
        lemma_strip_parens_len(p.2->0);
    }
    if s == seq!['-', '1'] {
        assert(!crate::basics::is_enclosed(s));
        assert(u == s);
    }
    if p.0 == seq!['-', '1'] {
        assert(!crate::basics::is_enclosed(p.0));
    }
}

#[via_fn]
proof fn parse_spec_decreases(s: Seq<char>) {
    lemma_parse_steps(s);
}

impl Term {
    /// Reads the expression that `s` spells.
    pub fn parse(s: &str) -> (r: Term)
        ensures
            r@ == parse_spec(s@),
        decreases parse_measure(s@),
    {
        let u = remove_braces(s);
        proof {
            lemma_parse_steps(s@);
        }
        let v = split(u);
        match (v.1, v.2) {
            (None, Some(t)) => Term::FT(String::from_str(t), Box::new(Term::parse(v.0))),
            (Some(i), Some(t)) => {
                let t1 = Term::parse(remove_braces(v.0));
                let t2 = Term::parse(remove_braces(t));
                if i == 0 {
                    t1.add(t2)
                } else if i == 1 {
                    t1.sub(t2)
                } else if i == 2 {
                    t1.mul(t2)
                } else if i == 3 {
                    t1.div(t2)
                } else {
                    t1.pow(t2)
                }
            },
            (_, None) => match check(v.0) {
                Ok(None) => Term::V(Var(String::from_str(v.0))),
                Ok(Some(n)) => Term::N(n),
                Err(e) => Term::INVALID(e.to_string()),
            },
        }
    }
}

/// Structural equality of expressions, as `==` on terms decides it: errors
/// are all equal, whatever their messages; two sums (or two products) are
/// equal when they have as many children and each child of the left one
/// equals some child of the right one. This does not count multiplicities:
/// `[a, b, b]` and `[a, a, b]` compare equal.
pub open spec fn expr_eq(a: Expr, b: Expr) -> bool
    decreases a, 0nat,
{
    match (a, b) {
        (Expr::Bad(_), Expr::Bad(_)) => true,
        (Expr::Num(x), Expr::Num(y)) => x == y,
        (Expr::Name(x), Expr::Name(y)) => x == y,
        (Expr::Call(f, x), Expr::Call(g, y)) => f == g && expr_eq(*x, *y),
        (Expr::Sum(l1), Expr::Sum(l2)) => l1.len() == l2.len() && all_matched(l1, l2, l1.len()),
        (Expr::Prod(l1), Expr::Prod(l2)) => l1.len() == l2.len() && all_matched(l1, l2, l1.len()),
        (Expr::Pow(b1, e1), Expr::Pow(b2, e2)) => expr_eq(*b1, *b2) && expr_eq(*e1, *e2),
        _ => false,
    }
}

/// Each of the first `k` members of `l1` equals some member of `l2`.
pub open spec fn all_matched(l1: Seq<Expr>, l2: Seq<Expr>, k: nat) -> bool
    decreases l1, k,
{
    if k == 0 || k > l1.len() {
        true
    } else {
        all_matched(l1, l2, (k - 1) as nat) && some_match(l1[k - 1], l2, l2.len())
    }
}

/// `x` equals one of the first `j` members of `l2`.
pub open spec fn some_match(x: Expr, l2: Seq<Expr>, j: nat) -> bool
    decreases x, j,
{
    if j == 0 || j > l2.len() {
        false
    } else {
        some_match(x, l2, (j - 1) as nat) || expr_eq(x, l2[j - 1])
    }
}

impl Term {
    fn children_eq(v1: &Vec<Term>, v2: &Vec<Term>) -> (r: bool)
        requires
            v1@.len() == v2@.len(),
        ensures
            r == all_matched(models(v1@), models(v2@), v1@.len()),
        decreases v1@, 0nat,
    {
        proof {
            lemma_models(v1@);
            lemma_models(v2@);
        }
        let n = v1.len();
        let mut i: usize = 0;
        while i < n
            invariant
                n == v1@.len(),
                n == v2@.len(),
                i <= n,
                models(v1@).len() == n,
                models(v2@).len() == n,
                forall|k: int| 0 <= k < n ==> #[trigger] models(v1@)[k] == model(v1@[k]),
                forall|k: int| 0 <= k < n ==> #[trigger] models(v2@)[k] == model(v2@[k]),
                all_matched(models(v1@), models(v2@), i as nat),
            decreases n - i,
        {
            let ghost x = models(v1@)[i as int];
            let mut found = false;
            let mut j: usize = 0;
            while j < n
                invariant
                    n == v1@.len(),
                    n == v2@.len(),
                    i < n,
                    j <= n,
                    x == model(v1@[i as int]),
                    models(v2@).len() == n,
                    forall|k: int| 0 <= k < n ==> #[trigger] models(v2@)[k] == model(v2@[k]),
                    found == some_match(x, models(v2@), j as nat),
                    found ==> some_match(x, models(v2@), n as nat),
                decreases n - j,
            {
                if !found {
                    found = v1[i].term_eq(&v2[j]);
                } else {
                    proof {
                        lemma_some_match_mono(x, models(v2@), (j + 1) as nat, n as nat);
                    }
                }
                j = j + 1;
                proof {
                    if found {
                        lemma_some_match_mono(x, models(v2@), j as nat, n as nat);
                    }
                }
            }
            if !found {
                proof {
                    if all_matched(models(v1@), models(v2@), n as nat) {
                        lemma_all_matched_mono(models(v1@), models(v2@), (i + 1) as nat, n as nat);
                    }
                }
                return false;
            }
            i = i + 1;
        }
        true
    }

    /// Equality of terms, as `expr_eq` says.
    fn term_eq(&self, other: &Term) -> (r: bool)
        ensures
            r == expr_eq(self@, other@),
        decreases self, 1nat,
    {
        proof {
            match (self, other) {
                (Term::ST(l1), Term::ST(l2)) => {
                    lemma_models(l1@);
                    lemma_models(l2@);
                },
                (Term::PT(l1), Term::PT(l2)) => {
                    lemma_models(l1@);
                    lemma_models(l2@);
                },
                _ => {},
            }
        }
        match (self, other) {
            (Term::INVALID(_), Term::INVALID(_)) => true,
            (Term::N(x), Term::N(y)) => *x == *y,
            (Term::V(x), Term::V(y)) => x.0 == y.0,
            (Term::FT(f, x), Term::FT(g, y)) => *f == *g && x.term_eq(y),
            (Term::ST(l1), Term::ST(l2)) => l1.len() == l2.len() && Term::children_eq(l1, l2),
            (Term::PT(l1), Term::PT(l2)) => l1.len() == l2.len() && Term::children_eq(l1, l2),
            (Term::ET(x), Term::ET(y)) => x.0.term_eq(&y.0) && x.1.term_eq(&y.1),
            _ => false,
        }
    }
}

proof fn lemma_all_matched_mono(l1: Seq<Expr>, l2: Seq<Expr>, j: nat, k: nat)
    requires
        j <= k <= l1.len(),
        all_matched(l1, l2, k),
    ensures
        all_matched(l1, l2, j),
    decreases k - j,
{
    if j < k {
        lemma_all_matched_mono(l1, l2, j, (k - 1) as nat);
    }
}

proof fn lemma_some_match_mono(x: Expr, l2: Seq<Expr>, j: nat, k: nat)
    requires
        j <= k <= l2.len(),
        some_match(x, l2, j),
    ensures
        some_match(x, l2, k),
    decreases k - j,
{
    if j < k {
        lemma_some_match_mono(x, l2, j, (k - 1) as nat);
    }
}

impl PartialEq for Term {
    fn eq(&self, other: &Term) -> (r: bool) {
        self.term_eq(other)
    }
}

impl vstd::std_specs::cmp::PartialEqSpecImpl for Term {
    open spec fn obeys_eq_spec() -> bool {
        true
    }

    open spec fn eq_spec(&self, other: &Term) -> bool {
        expr_eq(self@, other@)
    }
}

impl Eq for Term {}

impl From<i32> for Term {
    fn from(i: i32) -> (r: Term) {
        Term::N(i)
    }
}

impl vstd::std_specs::convert::FromSpecImpl<i32> for Term {
    open spec fn obeys_from_spec() -> bool {
        true
    }

    open spec fn from_spec(i: i32) -> Term {
        Term::N(i)
    }
}

impl<'a> From<&'a str> for Term {
    /// Reads the expression that `s` spells, as `Term::parse` does.
    fn from(s: &'a str) -> (r: Term)
        ensures
            r@ == parse_spec(s@),
    {
        Term::parse(s)
    }
}

/// Reading text builds vectors, which no spec function can: `from` states its
/// result through the view instead (`parse_spec`).
impl<'a> vstd::std_specs::convert::FromSpecImpl<&'a str> for Term {
    open spec fn obeys_from_spec() -> bool {
        false
    }

    open spec fn from_spec(s: &'a str) -> Term {
        Term::N(0)
    }
}

/// Adding zero, on either side, and multiplying by one, on either side, give
/// back the other operand unchanged; multiplying a term that is no error by
/// zero, on either side, gives zero.
pub proof fn lemma_identities(x: Expr)
    ensures
        add_spec(x, Expr::Num(0)) == x,
        add_spec(Expr::Num(0), x) == x,
        mul_spec(x, Expr::Num(1)) == x,
        mul_spec(Expr::Num(1), x) == x,
        !(x is Bad) ==> mul_spec(x, Expr::Num(0)) == Expr::Num(0),
        !(x is Bad) ==> mul_spec(Expr::Num(0), x) == Expr::Num(0),
{
}

/// A constructor given an error operand returns that error; given two, the
/// left one.
pub proof fn lemma_error_absorbs(e: Expr, x: Expr)
    requires
        e is Bad,
    ensures
        add_raw_spec(e, x) == e,
        mul_raw_spec(e, x) == e,
        pow_raw_spec(e, x) == e,
        add_spec(e, x) == e,
        sub_spec(e, x) == e,
        mul_spec(e, x) == e,
        div_spec(e, x) == e,
        pow_spec(e, x) == e,
        power_spec(e, x) == e,
        neg_spec(e) == e,
        !(x is Bad) ==> add_raw_spec(x, e) == e,
        !(x is Bad) ==> mul_raw_spec(x, e) == e,
        !(x is Bad) ==> pow_raw_spec(x, e) == e,
        !(x is Bad) ==> add_spec(x, e) == e,
        !(x is Bad) ==> sub_spec(x, e) == e,
        !(x is Bad) ==> mul_spec(x, e) == e,
        !(x is Bad) ==> div_spec(x, e) == e,
        !(x is Bad) ==> pow_spec(x, e) == e,
        !(x is Bad) ==> power_spec(x, e) == e,
{
}

/// A sum of three terms is one flat sum of three children, however it is
/// grouped, when none of the terms is itself a sum, zero or an error.
pub proof fn lemma_sum_flattens(a: Expr, b: Expr, c: Expr)
    requires
        !(a is Sum) && !(a is Bad) && a != Expr::Num(0),
        !(b is Sum) && !(b is Bad) && b != Expr::Num(0),
        !(c is Sum) && !(c is Bad) && c != Expr::Num(0),
    ensures
        add_spec(add_spec(a, b), c) == Expr::Sum(seq![a, b, c]),
        add_spec(a, add_spec(b, c)) == Expr::Sum(seq![a, b, c]),
{
    assert(seq![a] + seq![b] + seq![c] =~= seq![a, b, c]);
    assert(seq![a] + (seq![b] + seq![c]) =~= seq![a, b, c]);
}

/// A product of three terms is one flat product of three children, however
/// it is grouped, when none of the terms is itself a product, zero, one or an
/// error.
pub proof fn lemma_product_flattens(a: Expr, b: Expr, c: Expr)
    requires
        !(a is Prod) && !(a is Bad) && a != Expr::Num(0) && a != Expr::Num(1),
        !(b is Prod) && !(b is Bad) && b != Expr::Num(0) && b != Expr::Num(1),
        !(c is Prod) && !(c is Bad) && c != Expr::Num(0) && c != Expr::Num(1),
    ensures
        mul_spec(mul_spec(a, b), c) == Expr::Prod(seq![a, b, c]),
        mul_spec(a, mul_spec(b, c)) == Expr::Prod(seq![a, b, c]),
{
    assert(seq![a] + seq![b] + seq![c] =~= seq![a, b, c]);
    assert(seq![a] + (seq![b] + seq![c]) =~= seq![a, b, c]);
}

/// No child of `e`, if `e` is a sum, is itself a sum.
pub open spec fn sum_is_flat(e: Expr) -> bool {
    e is Sum ==> forall|i: int| 0 <= i < e->Sum_0.len() ==> !(#[trigger] e->Sum_0[i] is Sum)
}

/// No child of `e`, if `e` is a product, is itself a product.
pub open spec fn product_is_flat(e: Expr) -> bool {
    e is Prod ==> forall|i: int| 0 <= i < e->Prod_0.len() ==> !(#[trigger] e->Prod_0[i] is Prod)
}

/// Adding two terms in which no sum holds a sum gives such a term again.
pub proof fn lemma_add_keeps_sums_flat(a: Expr, b: Expr)
    requires
        sum_is_flat(a),
        sum_is_flat(b),
    ensures
        sum_is_flat(add_spec(a, b)),
        sum_is_flat(add_raw_spec(a, b)),
{
    let s = summands(a) + summands(b);
    assert forall|i: int| 0 <= i < s.len() implies !(#[trigger] s[i] is Sum) by {
        if i < summands(a).len() {
            assert(s[i] == summands(a)[i]);
        } else {
            assert(s[i] == summands(b)[i - summands(a).len()]);
        }
    }
}

/// Multiplying two terms in which no product holds a product gives such a
/// term again.
pub proof fn lemma_mul_keeps_products_flat(a: Expr, b: Expr)
    requires
        product_is_flat(a),
        product_is_flat(b),
    ensures
        product_is_flat(mul_spec(a, b)),
        product_is_flat(mul_raw_spec(a, b)),
{
    let s = factors(a) + factors(b);
    assert forall|i: int| 0 <= i < s.len() implies !(#[trigger] s[i] is Prod) by {
        if i < factors(a).len() {
            assert(s[i] == factors(a)[i]);
        } else {
            assert(s[i] == factors(b)[i - factors(a).len()]);
        }
    }
}

impl Term {
    fn copy_all(v: &Vec<Term>) -> (r: Vec<Term>)
        ensures
            models(r@) == models(v@),
        decreases v@, 0nat,
    {
        proof {
            lemma_models(v@);
        }
        let mut r: Vec<Term> = Vec::new();
        let mut k: usize = 0;
        while k < v.len()
            invariant
                k <= v@.len(),
                r@.len() == k,
                models(v@).len() == v@.len(),
                forall|i: int| 0 <= i < v@.len() ==> #[trigger] models(v@)[i] == model(v@[i]),
                forall|i: int| 0 <= i < k ==> #[trigger] model(r@[i]) == model(v@[i]),
            decreases v.len() - k,
        {
            r.push(v[k].deep_copy());
            k = k + 1;
        }
        proof {
            lemma_models(r@);
            assert(models(r@) =~= models(v@));
        }
        r
    }

    /// A copy of this term, equal to it in every part.
    pub fn deep_copy(&self) -> (r: Term)
        ensures
            r@ == self@,
        decreases self, 1nat,
    {
        match self {
            Term::N(n) => Term::N(*n),
            Term::V(x) => Term::V(Var(x.0.clone())),
            Term::FT(f, b) => Term::FT(f.clone(), Box::new(b.deep_copy())),
            Term::ST(v) => Term::ST(Term::copy_all(v)),
            Term::PT(v) => Term::PT(Term::copy_all(v)),
            Term::ET(b) => Term::ET(Box::new((b.0.deep_copy(), b.1.deep_copy()))),
            Term::INVALID(m) => Term::INVALID(m.clone()),
        }
    }
}

impl Clone for Term {
    fn clone(&self) -> (r: Term)
        ensures
            r@ == self@,
    {
        self.deep_copy()
    }
}

impl std::ops::Add for Term {
    type Output = Term;

    /// `self + rhs`, as `Term::add`.
    fn add(self, rhs: Term) -> (r: Term)
        ensures
            r@ == add_spec(self@, rhs@),
    {
        Term::add(self, rhs)
    }
}

/// Sums may build vectors, which no spec function can: `+` states its
/// result through the view instead (`add_spec`).
impl vstd::std_specs::ops::AddSpecImpl for Term {
    open spec fn obeys_add_spec() -> bool {
        false
    }

    open spec fn add_req(self, rhs: Term) -> bool {
        true
    }

    open spec fn add_spec(self, rhs: Term) -> Term {
        rhs
    }
}

impl std::ops::Sub for Term {
    type Output = Term;

    /// `self - rhs`, as `Term::sub`.
    fn sub(self, rhs: Term) -> (r: Term)
        ensures
            r@ == sub_spec(self@, rhs@),
    {
        Term::sub(self, rhs)
    }
}

/// Differences may build vectors, which no spec function can: `-` states its
/// result through the view instead (`sub_spec`).
impl vstd::std_specs::ops::SubSpecImpl for Term {
    open spec fn obeys_sub_spec() -> bool {
        false
    }

    open spec fn sub_req(self, rhs: Term) -> bool {
        true
    }

    open spec fn sub_spec(self, rhs: Term) -> Term {
        rhs
    }
}

impl std::ops::Mul for Term {
    type Output = Term;

    /// `self * rhs`, as `Term::mul`.
    fn mul(self, rhs: Term) -> (r: Term)
        ensures
            r@ == mul_spec(self@, rhs@),
    {
        Term::mul(self, rhs)
    }
}

/// Products may build vectors, which no spec function can: `*` states its
/// result through the view instead (`mul_spec`).
impl vstd::std_specs::ops::MulSpecImpl for Term {
    open spec fn obeys_mul_spec() -> bool {
        false
    }

    open spec fn mul_req(self, rhs: Term) -> bool {
        true
    }

    open spec fn mul_spec(self, rhs: Term) -> Term {
        rhs
    }
}

impl std::ops::Div for Term {
    type Output = Term;

    /// `self / rhs`, as `Term::div`.
    fn div(self, rhs: Term) -> (r: Term)
        ensures
            r@ == div_spec(self@, rhs@),
    {
        Term::div(self, rhs)
    }
}

/// Quotients may build vectors, which no spec function can: `/` states its
/// result through the view instead (`div_spec`).
impl vstd::std_specs::ops::DivSpecImpl for Term {
    open spec fn obeys_div_spec() -> bool {
        false
    }

    open spec fn div_req(self, rhs: Term) -> bool {
        true
    }

    open spec fn div_spec(self, rhs: Term) -> Term {
        rhs
    }
}

impl std::ops::Neg for Term {
    type Output = Term;

    /// `-self`, as `Term::neg`.
    fn neg(self) -> (r: Term)
        ensures
            r@ == neg_spec(self@),
    {
        Term::neg(self)
    }
}

/// Negations may build vectors, which no spec function can: `-` states its
/// result through the view instead (`neg_spec`).
impl vstd::std_specs::ops::NegSpecImpl for Term {
    open spec fn obeys_neg_spec() -> bool {
        false
    }

    open spec fn neg_req(self) -> bool {
        true
    }

    open spec fn neg_spec(self) -> Term {
        self
    }
}

} // verus!
