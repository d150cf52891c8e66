use vstd::prelude::*;

verus! {

/// Change of bracket depth caused by one character.
pub open spec fn paren_step(c: char) -> int {
    if c == '(' {
        1
    } else if c == ')' {
        -1
    } else {
        0
    }
}

/// Bracket depth after the first `k` characters of `s`.
pub open spec fn depth(s: Seq<char>, k: int) -> int
    decreases k,
{
    if k <= 0 {
        0
    } else {
        depth(s, k - 1) + paren_step(s[k - 1])
    }
}

/// `s` is one pair of parentheses around the rest: it starts with `(`, ends
/// with `)`, and the first `(` is closed by the last `)`.
pub open spec fn is_enclosed(s: Seq<char>) -> bool {
    &&& s.len() > 1
    &&& s[0] == '('
    &&& s[s.len() - 1] == ')'
    &&& depth(s, s.len() - 1) == 1
    &&& forall|k: int| 1 <= k < s.len() - 1 ==> depth(s, k) != 0
}

/// `s` with every redundant enclosing pair of parentheses removed.
pub open spec fn strip_parens(s: Seq<char>) -> Seq<char>
    decreases s.len(),
{
    if is_enclosed(s) {
        strip_parens(s.subrange(1, s.len() - 1))
    } else {
        s
    }
}

/// Stripping twice is stripping once.
pub proof fn lemma_strip_parens_idempotent(s: Seq<char>)
    ensures
        strip_parens(strip_parens(s)) == strip_parens(s),
    decreases s.len(),
{
    if is_enclosed(s) {
        lemma_strip_parens_idempotent(s.subrange(1, s.len() - 1));
    }
}

/// Removes redundant parentheses around the whole of `s`, as many pairs as
/// there are; a string whose braces do not enclose it all is returned as is.
pub fn remove_braces(s: &str) -> (r: &str)
    ensures
        r@ == strip_parens(s@),
    decreases s@.len(),
{
    let n = s.unicode_len();
    if n > 1 && s.get_char(0) == '(' && s.get_char(n - 1) == ')' {
        let mut l: usize = 0;
        let mut i: usize = 0;
        while i < n - 1
            invariant
                n == s@.len(),
                n > 1,
                s@[0] == '(',
                0 <= i <= n - 1,
                l <= i,
                l as int == depth(s@, i as int),
                i > 0 ==> l > 0,
                forall|k: int| 1 <= k <= i ==> depth(s@, k) != 0,
            decreases n - 1 - i,
        {
            let d = s.get_char(i);
            if d == '(' {
                l = l + 1;
            } else if d == ')' {
                l = l - 1;
            }
            i = i + 1;
            assert(l as int == depth(s@, i as int));
            if l == 0 {
                assert(!is_enclosed(s@));
                return s;
            }
        }
        if l == 1 {
            return remove_braces(s.substring_char(1, n - 1));
        }
    }
    s
}

/// The operator symbols, in the order the splitter tries them.
pub open spec fn op_char(i: int) -> char {
    if i == 0 {
        '+'
    } else if i == 1 {
        '-'
    } else if i == 2 {
        '*'
    } else if i == 3 {
        '/'
    } else {
        '^'
    }
}

/// The operator symbol with index `i` (`+ - * / ^`).
pub fn operator(i: usize) -> (r: char)
    requires
        i < 5,
    ensures
        r == op_char(i as int),
{
    match i {
        0 => '+',
        1 => '-',
        2 => '*',
        3 => '/',
        _ => '^',
    }
}

/// The `k`-th known function name (`sinh cosh tanh sin cos tan exp ln`).
pub open spec fn func_name(k: int) -> Seq<char> {
    if k == 0 {
        seq!['s', 'i', 'n', 'h']
    } else if k == 1 {
        seq!['c', 'o', 's', 'h']
    } else if k == 2 {
        seq!['t', 'a', 'n', 'h']
    } else if k == 3 {
        seq!['s', 'i', 'n']
    } else if k == 4 {
        seq!['c', 'o', 's']
    } else if k == 5 {
        seq!['t', 'a', 'n']
    } else if k == 6 {
        seq!['e', 'x', 'p']
    } else {
        seq!['l', 'n']
    }
}

/// Number of known function names.
pub const N_FUNCTIONS: usize = 8;

fn function_name(k: usize) -> (r: &'static str)
    requires
        k < N_FUNCTIONS,
    ensures
        r@ == func_name(k as int),
{
    proof {
        reveal_strlit("sinh");
        reveal_strlit("cosh");
        reveal_strlit("tanh");
        reveal_strlit("sin");
        reveal_strlit("cos");
        reveal_strlit("tan");
        reveal_strlit("exp");
        reveal_strlit("ln");
    }
    match k {
        0 => "sinh",
        1 => "cosh",
        2 => "tanh",
        3 => "sin",
        4 => "cos",
        5 => "tan",
        6 => "exp",
        _ => "ln",
    }
}

/// `p` is a prefix of `s`.
pub open spec fn has_prefix(s: Seq<char>, p: Seq<char>) -> bool {
    p.len() <= s.len() && s.subrange(0, p.len() as int) == p
}

/// Index of the first function name that starts `s`, from `k` on; 8 if none.
pub open spec fn func_index(s: Seq<char>, k: int) -> int
    decreases 8 - k,
{
    if k >= 8 {
        8
    } else if has_prefix(s, func_name(k)) {
        k
    } else {
        func_index(s, k + 1)
    }
}

/// `c` stands at index `i` of `s` outside any parentheses, counting from the left.
pub open spec fn top_left(s: Seq<char>, c: char, i: int) -> bool {
    s[i] == c && depth(s, i) == 0
}

/// `c` stands at index `i` of `s` outside any parentheses, counting from the right.
pub open spec fn top_right(s: Seq<char>, c: char, i: int) -> bool {
    s[i] == c && depth(s, s.len() as int) - depth(s, i + 1) == 0
}

/// First index from `i` on where `c` stands at top level; `s.len()` if none.
pub open spec fn first_top(s: Seq<char>, c: char, i: int) -> int
    decreases s.len() - i,
{
    if i < 0 || i >= s.len() {
        s.len() as int
    } else if top_left(s, c, i) {
        i
    } else {
        first_top(s, c, i + 1)
    }
}

/// Last index in `lo..=i` where `c` stands at top level, seen from the right;
/// -1 if none.
pub open spec fn last_top(s: Seq<char>, c: char, lo: int, i: int) -> int
    decreases i + 1 - lo,
{
    if i < lo || i >= s.len() {
        -1
    } else if top_right(s, c, i) {
        i
    } else {
        last_top(s, c, lo, i - 1)
    }
}

proof fn lemma_first_top_range(s: Seq<char>, c: char, i: int)
    requires
        0 <= i,
    ensures
        i <= first_top(s, c, i) <= s.len() || (i > s.len() && first_top(s, c, i) == s.len()),
        first_top(s, c, i) < s.len() ==> top_left(s, c, first_top(s, c, i)),
    decreases s.len() - i,
{
    if i < s.len() && !top_left(s, c, i) {
        lemma_first_top_range(s, c, i + 1);
    }
}

proof fn lemma_last_top_range(s: Seq<char>, c: char, lo: int, i: int)
    requires
        i < s.len(),
    ensures
        last_top(s, c, lo, i) == -1 || lo <= last_top(s, c, lo, i) <= i,
    decreases i + 1 - lo,
{
    if i >= lo && !top_right(s, c, i) {
        lemma_last_top_range(s, c, lo, i - 1);
    }
}

/// One of the operators after which a `-` is the sign of what follows.
pub open spec fn is_sign_taker(c: char) -> bool {
    c == '+' || c == '*' || c == '/' || c == '^'
}

/// The `-` at index `i` of `s` is a binary minus at top level: it is outside
/// any parentheses, seen from the right, and does not directly follow one of
/// `+ * / ^`.
pub open spec fn minus_splits(s: Seq<char>, i: int) -> bool {
    top_right(s, '-', i) && !is_sign_taker(s[i - 1])
}

/// Last index in `1..=i` where `s` has a binary minus at top level; -1 if none.
pub open spec fn last_minus(s: Seq<char>, i: int) -> int
    decreases i,
{
    if i < 1 || i >= s.len() {
        -1
    } else if minus_splits(s, i) {
        i
    } else {
        last_minus(s, i - 1)
    }
}

proof fn lemma_last_minus_range(s: Seq<char>, i: int)
    requires
        i < s.len(),
    ensures
        last_minus(s, i) == -1 || 1 <= last_minus(s, i) <= i,
    decreases i,
{
    if i >= 1 && !minus_splits(s, i) {
        lemma_last_minus_range(s, i - 1);
    }
}

/// The split of `s` at its root: the left operand, the index of the operator,
/// and the right operand; or the argument, no operator, and a function name;
/// or `s` itself with neither.
pub open spec fn split_spec(s: Seq<char>) -> (Seq<char>, Option<usize>, Option<Seq<char>>) {
    let n = s.len() as int;
    let a = first_top(s, '+', 0);
    let b = last_minus(s, n - 1);
    let m = first_top(s, '*', 0);
    let d = last_top(s, '/', 0, n - 1);
    let p = first_top(s, '^', 0);
    let f = func_index(s, 0);
    if a < n {
        (s.subrange(0, a), Some(0usize), Some(s.subrange(a + 1, n)))
    } else if b >= 1 {
        (s.subrange(0, b), Some(1usize), Some(s.subrange(b + 1, n)))
    } else if n > 0 && s[0] == '-' && s != seq!['-', '1'] {
        (seq!['-', '1'], Some(2usize), Some(s.subrange(1, n)))
    } else if m < n {
        (s.subrange(0, m), Some(2usize), Some(s.subrange(m + 1, n)))
    } else if d >= 0 {
        (s.subrange(0, d), Some(3usize), Some(s.subrange(d + 1, n)))
    } else if p < n {
        (s.subrange(0, p), Some(4usize), Some(s.subrange(p + 1, n)))
    } else if f < 8 {
        (s.subrange(func_name(f).len() as int, n), None, Some(func_name(f)))
    } else {
        (s, None, None)
    }
}

pub proof fn lemma_strip_parens_len(s: Seq<char>)
    ensures
        strip_parens(s).len() <= s.len(),
    decreases s.len(),
{
    if is_enclosed(s) {
        lemma_strip_parens_len(s.subrange(1, s.len() - 1));
    }
}

/// The parts that the splitter yields are shorter than what it split, but
/// for the factor `-1` that a leading minus gives; `-1` itself is not split.
pub proof fn lemma_split_shorter(u: Seq<char>)
    ensures
        split_spec(u).1 is Some ==> split_spec(u).2 is Some && split_spec(u).2->0.len() < u.len()
            && (split_spec(u).0.len() < u.len() || split_spec(u).0 == seq!['-', '1']),
        split_spec(u).1 is None && split_spec(u).2 is Some ==> split_spec(u).0.len() < u.len(),
        u == seq!['-', '1'] ==> split_spec(u).2 is None,
{
    let n = u.len() as int;
    lemma_first_top_range(u, '+', 0);
    lemma_last_minus_range(u, n - 1);
    lemma_first_top_range(u, '*', 0);
    lemma_last_top_range(u, '/', 0, n - 1);
    lemma_first_top_range(u, '^', 0);
    lemma_func_index(u, 0);
    if u == seq!['-', '1'] {
        reveal_with_fuel(first_top, 3);
        reveal_with_fuel(last_top, 3);
        reveal_with_fuel(last_minus, 3);
        reveal_with_fuel(func_index, 9);
        reveal_with_fuel(depth, 3);
        assert(!has_prefix(u, func_name(7)));
        assert(!has_prefix(u, func_name(6)));
        assert(!has_prefix(u, func_name(5)));
        assert(!has_prefix(u, func_name(4)));
        assert(!has_prefix(u, func_name(3)));
        assert(!has_prefix(u, func_name(2)));
        assert(!has_prefix(u, func_name(1)));
        assert(!has_prefix(u, func_name(0)));
    }
}

/// The text of an optional string slice.
pub open spec fn opt_view(o: Option<&str>) -> Option<Seq<char>> {
    match o {
        Some(t) => Some(t@),
        None => None,
    }
}

fn find_first(s: &str, n: usize, c: char) -> (r: usize)
    requires
        n == s@.len(),
        c != '(' && c != ')',
    ensures
        r as int == first_top(s@, c, 0),
{
    let mut opens: usize = 0;
    let mut closes: usize = 0;
    let mut i: usize = 0;
    while i < n
        invariant
            n == s@.len(),
            c != '(' && c != ')',
            i <= n,
            opens <= i && closes <= i,
            opens - closes == depth(s@, i as int),
            first_top(s@, c, 0) == first_top(s@, c, i as int),
        decreases n - i,
    {
        let d = s.get_char(i);
        assert(depth(s@, i + 1) == depth(s@, i as int) + paren_step(d));
        if d == '(' {
            opens = opens + 1;
        } else if d == ')' {
            closes = closes + 1;
        } else if opens == closes && d == c {
            return i;
        }
        assert(first_top(s@, c, i as int) == first_top(s@, c, i + 1));
        i = i + 1;
    }
    n
}

fn find_last(s: &str, n: usize, c: char, lo: usize) -> (r: Option<usize>)
    requires
        n == s@.len(),
        c != '(' && c != ')',
    ensures
        match r {
            Some(k) => k as int == last_top(s@, c, lo as int, n - 1),
            None => last_top(s@, c, lo as int, n - 1) == -1,
        },
{
    let mut opens: usize = 0;
    let mut closes: usize = 0;
    let mut i: usize = n;
    while i > lo
        invariant
            n == s@.len(),
            c != '(' && c != ')',
            i <= n,
            opens <= n - i && closes <= n - i,
            opens - closes == depth(s@, n as int) - depth(s@, i as int),
            last_top(s@, c, lo as int, n - 1) == last_top(s@, c, lo as int, i - 1),
        decreases i,
    {
        let k = i - 1;
        let d = s.get_char(k);
        assert(depth(s@, i as int) == depth(s@, k as int) + paren_step(d));
        if d == '(' {
            opens = opens + 1;
        } else if d == ')' {
            closes = closes + 1;
        } else if opens == closes && d == c {
            return Some(k);
        }
        assert(last_top(s@, c, lo as int, k as int) == last_top(s@, c, lo as int, k - 1));
        i = k;
    }
    None
}

fn find_last_minus(s: &str, n: usize) -> (r: Option<usize>)
    requires
        n == s@.len(),
    ensures
        match r {
            Some(k) => k as int == last_minus(s@, n - 1),
            None => last_minus(s@, n - 1) == -1,
        },
{
    let mut opens: usize = 0;
    let mut closes: usize = 0;
    let mut i: usize = n;
    while i > 1
        invariant
            n == s@.len(),
            i <= n,
            opens <= n - i && closes <= n - i,
            opens - closes == depth(s@, n as int) - depth(s@, i as int),
            last_minus(s@, n - 1) == last_minus(s@, i - 1),
        decreases i,
    {
        let k = i - 1;
        let d = s.get_char(k);
        assert(depth(s@, i as int) == depth(s@, k as int) + paren_step(d));
        if d == '(' {
            opens = opens + 1;
        } else if d == ')' {
            closes = closes + 1;
        } else if opens == closes && d == '-' {
            let p = s.get_char(k - 1);
            if !(p == '+' || p == '*' || p == '/' || p == '^') {
                return Some(k);
            }
        }
        assert(last_minus(s@, k as int) == last_minus(s@, k - 1));
        i = k;
    }
    None
}

fn starts_with(s: &str, n: usize, p: &str) -> (r: bool)
    requires
        n == s@.len(),
    ensures
        r == has_prefix(s@, p@),
{
    let m = p.unicode_len();
    if m > n {
        return false;
    }
    let mut i: usize = 0;
    while i < m
        invariant
            n == s@.len(),
            m == p@.len(),
            m <= n,
            i <= m,
            forall|j: int| 0 <= j < i ==> s@[j] == p@[j],
        decreases m - i,
    {
        if s.get_char(i) != p.get_char(i) {
            assert(s@.subrange(0, m as int)[i as int] != p@[i as int]);
            return false;
        }
        i = i + 1;
    }
    assert(s@.subrange(0, m as int) =~= p@);
    true
}

proof fn lemma_func_index(s: Seq<char>, k: int)
    requires
        0 <= k,
    ensures
        func_index(s, k) <= 8,
        func_index(s, k) < 8 ==> k <= func_index(s, k) && has_prefix(s, func_name(func_index(s, k))),
    decreases 8 - k,
{
    if k < 8 && !has_prefix(s, func_name(k)) {
        lemma_func_index(s, k + 1);
    }
}

fn find_function(s: &str, n: usize) -> (r: usize)
    requires
        n == s@.len(),
    ensures
        r == func_index(s@, 0),
{
    let mut k: usize = 0;
    while k < N_FUNCTIONS
        invariant
            n == s@.len(),
            k <= N_FUNCTIONS,
            func_index(s@, 0) == func_index(s@, k as int),
        decreases N_FUNCTIONS - k,
    {
        if starts_with(s, n, function_name(k)) {
            return k;
        }
        k = k + 1;
    }
    N_FUNCTIONS
}

/// Finds the root of `s`: the operator that joins its two top-level
/// operands, tried in the order `+ - * / ^` (`+ * ^` at their first top-level
/// place, `- /` at their last, a `-` right after `+ * / ^` being a sign and
/// no operator), with a leading `-` read as a factor `-1`;
/// failing that, a function name that starts `s`; failing that, nothing.
pub fn split(s: &str) -> (r: (&str, Option<usize>, Option<&str>))
    ensures
        r.0@ == split_spec(s@).0,
        r.1 == split_spec(s@).1,
        opt_view(r.2) == split_spec(s@).2,
{
    let n = s.unicode_len();
    let a = find_first(s, n, '+');
    proof {
        lemma_first_top_range(s@, '+', 0);
        lemma_last_minus_range(s@, n - 1);
        lemma_first_top_range(s@, '*', 0);
        lemma_last_top_range(s@, '/', 0, n - 1);
        lemma_first_top_range(s@, '^', 0);
    }
    if a < n {
        return (s.substring_char(0, a), Some(0), Some(s.substring_char(a + 1, n)));
    }
    if let Some(b) = find_last_minus(s, n) {
        return (s.substring_char(0, b), Some(1), Some(s.substring_char(b + 1, n)));
    }
    if n > 0 && s.get_char(0) == '-' && !(n == 2 && s.get_char(1) == '1') {
        proof {
            reveal_strlit("-1");
            assert(s@ != seq!['-', '1']);
        }
        return ("-1", Some(2), Some(s.substring_char(1, n)));
    }
    proof {
        if n == 2 && s@[0] == '-' && s@[1] == '1' {
            assert(s@ =~= seq!['-', '1']);
        }
    }
    let m = find_first(s, n, '*');
    if m < n {
        return (s.substring_char(0, m), Some(2), Some(s.substring_char(m + 1, n)));
    }
    if let Some(d) = find_last(s, n, '/', 0) {
        return (s.substring_char(0, d), Some(3), Some(s.substring_char(d + 1, n)));
    }
    let p = find_first(s, n, '^');
    if p < n {
        return (s.substring_char(0, p), Some(4), Some(s.substring_char(p + 1, n)));
    }
    let k = find_function(s, n);
    proof {
        lemma_func_index(s@, 0);
    }
    if k < N_FUNCTIONS {
        let f = function_name(k);
        return (s.substring_char(f.unicode_len(), n), None, Some(f));
    }
    (s, None, None)
}

/// `s` between parentheses.
pub open spec fn parens(s: Seq<char>) -> Seq<char> {
    seq!['('] + s + seq![')']
}

/// A left operand whose root is `c1` needs parentheses under operator `c`.
pub open spec fn wraps_left(c: char, c1: char) -> bool {
    ((c == '*' || c == '/') && (c1 == '+' || c1 == '-')) || c == '^'
}

/// A right operand whose root is `c2` needs parentheses under operator `c`.
pub open spec fn wraps_right(c: char, c2: char) -> bool {
    (c == '-' && c2 == '-') || (c == '*' && (c2 == '+' || c2 == '-')) || (c == '/' && c2 != '^')
        || c == '^'
}

/// `s` as an operand under operator `c`, wrapped when its own root operator
/// (as the splitter finds it) would otherwise bind wrongly.
pub open spec fn operand(s: Seq<char>, c: char, left: bool) -> Seq<char> {
    match split_spec(s).1 {
        Some(i) => if (left && wraps_left(c, op_char(i as int))) || (!left && wraps_right(
            c,
            op_char(i as int),
        )) {
            parens(s)
        } else {
            s
        },
        None => s,
    }
}

/// The text of `s` joined to `t` by operator `c`, or of function `t` applied
/// to `s`.
pub open spec fn combine_spec(s: Seq<char>, c: Option<usize>, t: Option<Seq<char>>) -> Seq<char> {
    match (c, t) {
        (None, Some(t)) => t + parens(strip_parens(s)),
        (Some(i), Some(t)) => operand(s, op_char(i as int), true) + seq![op_char(i as int)]
            + operand(t, op_char(i as int), false),
        _ => s,
    }
}

fn operator_text(i: usize) -> (r: &'static str)
    requires
        i < 5,
    ensures
        r@ == seq![op_char(i as int)],
{
    proof {
        reveal_strlit("+");
        reveal_strlit("-");
        reveal_strlit("*");
        reveal_strlit("/");
        reveal_strlit("^");
    }
    match i {
        0 => "+",
        1 => "-",
        2 => "*",
        3 => "/",
        _ => "^",
    }
}

fn wrapped(s: &str) -> (r: String)
    ensures
        r@ == parens(s@),
{
    proof {
        reveal_strlit("(");
        reveal_strlit(")");
    }
    let mut r = String::from_str("(");
    r.append(s);
    r.append(")");
    r
}

fn operand_text(s: &str, c: usize, left: bool) -> (r: String)
    requires
        c < 5,
    ensures
        r@ == operand(s@, op_char(c as int), left),
{
    let v = split(s);
    match v.1 {
        Some(i) => {
            let op = operator(c);
            let o = operator(i);
            let wrap = if left {
                ((op == '*' || op == '/') && (o == '+' || o == '-')) || op == '^'
            } else {
                (op == '-' && o == '-') || (op == '*' && (o == '+' || o == '-')) || (op == '/'
                    && o != '^') || op == '^'
            };
            if wrap {
                wrapped(s)
            } else {
                String::from_str(s)
            }
        },
        None => String::from_str(s),
    }
}

/// Joins `s` and `t` with operator number `c`, wrapping either side in
/// parentheses where its own root operator would bind wrongly; with no
/// operator, applies function `t` to `s` with its outer braces removed.
pub fn combine(s: &str, c: Option<usize>, t: Option<&str>) -> (r: String)
    requires
        c is Some && t is Some ==> c->0 < 5,
    ensures
        r@ == combine_spec(s@, c, opt_view(t)),
{
    match (c, t) {
        (None, Some(t)) => {
            let mut r = String::from_str(t);
            let w = wrapped(remove_braces(s));
            r.append(w.as_str());
            r
        },
        (Some(i), Some(t)) => {
            let mut r = operand_text(s, i, true);
            r.append(operator_text(i));
            let b = operand_text(t, i, false);
            r.append(b.as_str());
            r
        },
        _ => String::from_str(s),
    }
}

/// A decimal digit.
pub open spec fn is_digit(c: char) -> bool {
    '0' <= c && c <= '9'
}

/// A non-empty run of decimal digits.
pub open spec fn all_digits(d: Seq<char>) -> bool {
    d.len() > 0 && forall|i: int| 0 <= i < d.len() ==> is_digit(#[trigger] d[i])
}

/// The number a run of decimal digits denotes.
pub open spec fn digits_value(d: Seq<char>) -> int
    decreases d.len(),
{
    if d.len() == 0 {
        0
    } else {
        digits_value(d.drop_last()) * 10 + (d.last() as int - '0' as int)
    }
}

/// The number an integer literal (an optional `+` or `-`, then digits)
/// denotes, if `s` is one.
pub open spec fn int_value(s: Seq<char>) -> Option<int> {
    if s.len() > 0 && s[0] == '-' && all_digits(s.subrange(1, s.len() as int)) {
        Some(-digits_value(s.subrange(1, s.len() as int)))
    } else if s.len() > 0 && s[0] == '+' && all_digits(s.subrange(1, s.len() as int)) {
        Some(digits_value(s.subrange(1, s.len() as int)))
    } else if all_digits(s) {
        Some(digits_value(s))
    } else {
        None
    }
}

/// The `i32` that `s` spells, if it spells one in range.
pub open spec fn parse_i32(s: Seq<char>) -> Option<i32> {
    match int_value(s) {
        Some(v) => if i32::MIN <= v <= i32::MAX {
            Some(v as i32)
        } else {
            None
        },
        None => None,
    }
}

proof fn lemma_digits_prefix(d: Seq<char>, k: int)
    requires
        0 <= k <= d.len(),
        forall|i: int| 0 <= i < d.len() ==> is_digit(#[trigger] d[i]),
    ensures
        0 <= digits_value(d.subrange(0, k)) <= digits_value(d),
    decreases d.len(),
{
    if d.len() > 0 {
        let e = d.drop_last();
        if k == d.len() {
            assert(d.subrange(0, k) =~= d);
            lemma_digits_prefix(e, e.len() as int);
            assert(e.subrange(0, e.len() as int) =~= e);
        } else {
            lemma_digits_prefix(e, k);
            assert(e.subrange(0, k) =~= d.subrange(0, k));
            lemma_digits_prefix(e, e.len() as int);
            assert(e.subrange(0, e.len() as int) =~= e);
        }
    }
}

/// Reads `s` as a decimal `i32` literal.
fn parse_int(s: &str) -> (r: Option<i32>)
    ensures
        r == parse_i32(s@),
{
    let n = s.unicode_len();
    if n == 0 {
        return None;
    }
    let c0 = s.get_char(0);
    let start: usize = if c0 == '-' || c0 == '+' {
        1
    } else {
        0
    };
    if start == n {
        assert(!all_digits(s@));
        return None;
    }
    let ghost ds = s@.subrange(start as int, n as int);
    let mut acc: u64 = 0;
    let mut i: usize = start;
    while i < n
        invariant
            n == s@.len(),
            start <= i <= n,
            start < n,
            c0 == s@[0],
            start == 1 <==> (c0 == '-' || c0 == '+'),
            start <= 1,
            ds == s@.subrange(start as int, n as int),
            forall|j: int| 0 <= j < i - start ==> is_digit(#[trigger] ds[j]),
            acc as int == digits_value(ds.subrange(0, i - start)),
            acc <= 2147483648,
        decreases n - i,
    {
        let d = s.get_char(i);
        if !('0' <= d && d <= '9') {
            assert(ds[i - start] == d);
            assert(!all_digits(ds));
            assert(!all_digits(s@)) by {
                if start == 0 {
                    assert(ds =~= s@);
                } else {
                    assert(!is_digit(s@[0]));
                }
            }
            return None;
        }
        assert(ds.subrange(0, i + 1 - start).drop_last() =~= ds.subrange(0, i - start));
        acc = acc * 10 + (d as u32 - '0' as u32) as u64;
        i = i + 1;
        if acc > 2147483648 {
            proof {
                if all_digits(ds) {
                    lemma_digits_prefix(ds, i - start);
                }
                if start == 0 {
                    assert(ds =~= s@);
                } else {
                    assert(!is_digit(s@[0]));
                }
            }
            return None;
        }
    }
    assert(ds.subrange(0, n - start) =~= ds);
    proof {
        if start == 0 {
            assert(ds =~= s@);
        } else {
            assert(!is_digit(s@[0]));
        }
    }
    if c0 == '-' {
        Some((-(acc as i64)) as i32)
    } else if acc <= 2147483647 {
        Some(acc as i32)
    } else {
        None
    }
}

/// The character of digit `d`.
pub open spec fn digit_char(d: int) -> char {
    seq!['0', '1', '2', '3', '4', '5', '6', '7', '8', '9'][d]
}

/// Decimal digits of `n`, most significant first.
pub open spec fn nat_text(n: nat) -> Seq<char>
    decreases n,
{
    if n < 10 {
        seq![digit_char(n as int)]
    } else {
        nat_text(n / 10) + seq![digit_char((n % 10) as int)]
    }
}

/// Decimal text of `n`, with a `-` when negative.
pub open spec fn int_text(n: int) -> Seq<char> {
    if n < 0 {
        seq!['-'] + nat_text((-n) as nat)
    } else {
        nat_text(n as nat)
    }
}

fn digit_text(d: u64) -> (r: &'static str)
    requires
        d < 10,
    ensures
        r@ == seq![digit_char(d as int)],
{
    let all = "0123456789";
    proof {
        reveal_strlit("0123456789");
    }
    let r = all.substring_char(d as usize, d as usize + 1);
    assert(r@ =~= seq![digit_char(d as int)]);
    r
}

fn nat_to_text(n: u64) -> (r: String)
    ensures
        r@ == nat_text(n as nat),
    decreases n,
{
    if n < 10 {
        String::from_str(digit_text(n))
    } else {
        let mut r = nat_to_text(n / 10);
        r.append(digit_text(n % 10));
        r
    }
}

/// Decimal text of `n`.
pub fn int_to_text(n: i32) -> (r: String)
    ensures
        r@ == int_text(n as int),
{
    if n < 0 {
        proof {
            reveal_strlit("-");
        }
        let mut r = String::from_str("-");
        let t = nat_to_text((-(n as i64)) as u64);
        r.append(t.as_str());
        r
    } else {
        nat_to_text(n as u64)
    }
}

/// Why a token could not be read.
#[derive(Debug)]
pub enum StringParseError {
    ErrorMessage(String),
}

impl StringParseError {
    /// The message the error carries.
    pub fn to_string(&self) -> (r: String)
        ensures
            r@ == self->ErrorMessage_0@,
    {
        match self {
            StringParseError::ErrorMessage(m) => m.clone(),
        }
    }
}

/// A token that is no integer and cannot name a variable: empty, starting
/// with a digit or with `*`, `/` or `^`, or holding a brace or a space.
pub open spec fn rejected_token(s: Seq<char>) -> bool {
    ||| s.len() == 0
    ||| is_digit(s[0])
    ||| s[0] == '*' || s[0] == '/' || s[0] == '^'
    ||| s.contains('(') || s.contains(')') || s.contains('{') || s.contains('}')
    ||| s.contains(' ')
}

/// The message for a token that was rejected.
pub open spec fn invalid_string_message(s: Seq<char>) -> Seq<char> {
    "Invalid string: "@ + s
}

fn contains_char(s: &str, n: usize, c: char) -> (r: bool)
    requires
        n == s@.len(),
    ensures
        r == s@.contains(c),
{
    let mut i: usize = 0;
    while i < n
        invariant
            n == s@.len(),
            i <= n,
            forall|j: int| 0 <= j < i ==> s@[j] != c,
        decreases n - i,
    {
        if s.get_char(i) == c {
            return true;
        }
        i = i + 1;
    }
    false
}

/// Reads a token that has no operator or function left in it: its integer
/// value, or `None` when it is a valid variable name, or an error.
pub fn check(s: &str) -> (r: Result<Option<i32>, StringParseError>)
    ensures
        match r {
            Ok(Some(v)) => parse_i32(s@) == Some(v),
            Ok(None) => parse_i32(s@) is None && !rejected_token(s@),
            Err(StringParseError::ErrorMessage(m)) => parse_i32(s@) is None && rejected_token(s@)
                && m@ == invalid_string_message(s@),
        },
{
    if let Some(v) = parse_int(s) {
        return Ok(Some(v));
    }
    let n = s.unicode_len();
    let bad = if n == 0 {
        true
    } else {
        let c = s.get_char(0);
        ('0' <= c && c <= '9') || c == '*' || c == '/' || c == '^' || contains_char(s, n, '(')
            || contains_char(s, n, ')') || contains_char(s, n, '{') || contains_char(s, n, '}')
            || contains_char(s, n, ' ')
    };
    if bad {
        let mut m = String::from_str("Invalid string: ");
        m.append(s);
        Err(StringParseError::ErrorMessage(m))
    } else {
        Ok(None)
    }
}

} // verus!
