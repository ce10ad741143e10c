//! Printing expressions in prefix form, as in `(+ 1 (* 2 3))`.
use vstd::prelude::*;
use crate::ast::{AST, ExprId, ExprKind, ExprView, Literal, LitView};
use crate::text::{decimal, push_char, push_decimal, push_str};

verus! {

// ---------------------------------------------------------------------------
// Number literals
// ---------------------------------------------------------------------------

/// The position of the first '.' at or after `i`, or the length.
pub open spec fn first_dot(t: Seq<char>, i: int) -> int
    decreases t.len() - i,
{
    if 0 <= i < t.len() && t[i] != '.' { first_dot(t, i + 1) } else { i }
}

/// The first position at or after `i`, and before `d`, that holds no '0'; or `d`.
pub open spec fn zeros_end(t: Seq<char>, i: int, d: int) -> int
    decreases d - i,
{
    if i < d && t[i] == '0' { zeros_end(t, i + 1, d) } else { i }
}

/// The last position at or before `j`, and after `lo`, that follows no '0';
/// or `lo`.
pub open spec fn zeros_start(t: Seq<char>, lo: int, j: int) -> int
    decreases j - lo,
{
    if j > lo && t[j - 1] == '0' { zeros_start(t, lo, j - 1) } else { j }
}

/// A decimal literal (digits, optionally a point and more digits) in its
/// shortest form: no leading zeros before the point (but a single `0` for
/// a zero whole part), no trailing zeros after it, and no point where no
/// fraction is left. `"007.50"` reads `"7.5"`, `"3.0"` reads `"3"`.
///
/// This is the text a double-precision number prints as only while the
/// literal has at most 15 significant digits. Longer literals are printed
/// here as written (trimmed), where a double would print its nearest
/// value: `12345678901234567890` prints as `12345678901234567000` once
/// read into a double. The library holds no floating-point numbers, so
/// that rounding is not made here.
pub open spec fn number_text(t: Seq<char>) -> Seq<char> {
    let d = first_dot(t, 0);
    let a = zeros_end(t, 0, d);
    let whole = if a == d { seq!['0'] } else { t.subrange(a, d) };
    if d < t.len() {
        let b = zeros_start(t, d + 1, t.len() as int);
        if b > d + 1 { whole + seq!['.'] + t.subrange(d + 1, b) } else { whole }
    } else {
        whole
    }
}

proof fn lemma_first_dot(t: Seq<char>, i: int)
    requires
        0 <= i <= t.len(),
    ensures
        i <= first_dot(t, i) <= t.len(),
        first_dot(t, i) < t.len() ==> t[first_dot(t, i)] == '.',
    decreases t.len() - i,
{
    if i < t.len() {
        lemma_first_dot(t, i + 1);
    }
}

proof fn lemma_zeros_end(t: Seq<char>, i: int, d: int)
    requires
        0 <= i <= d <= t.len(),
    ensures
        i <= zeros_end(t, i, d) <= d,
    decreases d - i,
{
    if i < d {
        lemma_zeros_end(t, i + 1, d);
    }
}

proof fn lemma_zeros_start(t: Seq<char>, lo: int, j: int)
    requires
        0 <= lo <= j <= t.len(),
    ensures
        lo <= zeros_start(t, lo, j) <= j,
    decreases j - lo,
{
    if j > lo {
        lemma_zeros_start(t, lo, j - 1);
    }
}

/// Whether every character of `s` is a decimal digit.
pub open spec fn all_digits(s: Seq<char>) -> bool {
    forall|i: int| 0 <= i < s.len() ==> '0' <= #[trigger] s[i] <= '9'
}

proof fn lemma_first_dot_at(t: Seq<char>, i: int, d: int)
    requires
        0 <= i <= d <= t.len(),
        forall|k: int| i <= k < d ==> t[k] != '.',
        d == t.len() || t[d] == '.',
    ensures
        first_dot(t, i) == d,
    decreases d - i,
{
    if i < d {
        lemma_first_dot_at(t, i + 1, d);
    }
}

proof fn lemma_zeros_end_at(t: Seq<char>, i: int, d: int, k: int)
    requires
        0 <= i <= k <= d <= t.len(),
        forall|m: int| i <= m < k ==> t[m] == '0',
        k == d || t[k] != '0',
    ensures
        zeros_end(t, i, d) == k,
    decreases k - i,
{
    if i < k {
        lemma_zeros_end_at(t, i + 1, d, k);
    }
}

proof fn lemma_zeros_start_at(t: Seq<char>, lo: int, j: int, b: int)
    requires
        0 <= lo <= b <= j <= t.len(),
        forall|m: int| b <= m < j ==> t[m] == '0',
        b == lo || t[b - 1] != '0',
    ensures
        zeros_start(t, lo, j) == b,
    decreases j - b,
{
    if j > b {
        lemma_zeros_start_at(t, lo, j - 1, b);
    }
}

/// Printing a number literal only drops zeros that do not change its
/// value: for the literal `w` or `w.f`, where `w` has `k` leading zeros and
/// only zeros follow the first `j` digits of `f`, the text is `w` without
/// those `k` zeros (or `0` when nothing is left), then, when `j > 0`, a
/// point and the first `j` digits of `f`, all kept.
pub proof fn law_number_text_keeps_value(w: Seq<char>, f: Seq<char>, k: int, j: int)
    requires
        w.len() > 0,
        all_digits(w),
        all_digits(f),
        0 <= k <= w.len(),
        forall|i: int| 0 <= i < k ==> w[i] == '0',
        k < w.len() ==> w[k] != '0',
        0 <= j <= f.len(),
        forall|i: int| j <= i < f.len() ==> f[i] == '0',
        j > 0 ==> f[j - 1] != '0',
    ensures
        number_text(if f.len() > 0 { w + seq!['.'] + f } else { w })
            == (if k == w.len() { seq!['0'] } else { w.skip(k) })
                + (if j > 0 { seq!['.'] + f.take(j) } else { Seq::empty() }),
{
    let t = if f.len() > 0 { w + seq!['.'] + f } else { w };
    let d = w.len() as int;
    assert forall|m: int| 0 <= m < d implies t[m] != '.' by {
        assert(t[m] == w[m]);
    }
    lemma_first_dot_at(t, 0, d);
    assert forall|m: int| 0 <= m < k implies t[m] == '0' by {
        assert(t[m] == w[m]);
    }
    if k < d {
        assert(t[k] == w[k]);
    }
    lemma_zeros_end_at(t, 0, d, k);
    if k < d {
        assert(t.subrange(k, d) =~= w.skip(k));
    }
    if f.len() > 0 {
        let b = d + 1 + j;
        assert forall|m: int| b <= m < t.len() implies t[m] == '0' by {
            assert(t[m] == f[m - d - 1]);
        }
        if j > 0 {
            assert(t[b - 1] == f[j - 1]);
        }
        lemma_zeros_start_at(t, d + 1, t.len() as int, b);
        assert(t.subrange(d + 1, b) =~= f.take(j));
    } else {
        assert(j == 0);
    }
    let whole = if k == w.len() { seq!['0'] } else { w.skip(k) };
    let frac = if j > 0 { seq!['.'] + f.take(j) } else { Seq::empty() };
    if j > 0 {
        assert(whole + seq!['.'] + f.take(j) =~= whole + frac);
    } else {
        assert(whole =~= whole + frac);
    }
}

/// The characters of `s`.
fn chars_of(s: &str) -> (v: Vec<char>)
    ensures
        v@ == s@,
{
    let mut v: Vec<char> = Vec::new();
    for c in it: s.chars()
        invariant
            v@ == it.seq().take(it.index() as int),
    {
        v.push(c);
    }
    v
}

/// Appends `t[from..to]` to `s`.
fn push_range(s: &mut String, t: &Vec<char>, from: usize, to: usize)
    requires
        from <= to <= t@.len(),
    ensures
        final(s)@ == old(s)@ + t@.subrange(from as int, to as int),
{
    let mut k = from;
    while k < to
        invariant
            from <= k <= to <= t@.len(),
            s@ == old(s)@ + t@.subrange(from as int, k as int),
        decreases to - k,
    {
        push_char(s, t[k]);
        proof {
            assert(t@.subrange(from as int, k + 1) =~= t@.subrange(from as int, k as int).push(t@[k as int]));
        }
        k = k + 1;
    }
}

/// Appends the shortest form of the decimal literal `lit` to `s`.
pub fn push_number_text(s: &mut String, lit: &str)
    ensures
        final(s)@ == old(s)@ + number_text(lit@),
{
    let t = chars_of(lit);
    let ghost tv = t@;
    let n = t.len();
    let mut d: usize = 0;
    proof { lemma_first_dot(tv, 0); }
    while d < n && t[d] != '.'
        invariant
            t@ == tv,
            n == tv.len(),
            0 <= d <= n,
            first_dot(tv, d as int) == first_dot(tv, 0),
        decreases n - d,
    {
        d = d + 1;
    }
    let mut a: usize = 0;
    proof { lemma_zeros_end(tv, 0, d as int); }
    while a < d && t[a] == '0'
        invariant
            t@ == tv,
            n == tv.len(),
            0 <= a <= d <= n,
            zeros_end(tv, a as int, d as int) == zeros_end(tv, 0, d as int),
        decreases d - a,
    {
        a = a + 1;
    }
    if a == d {
        push_char(s, '0');
    } else {
        push_range(s, &t, a, d);
    }
    let ghost whole = if a == d { seq!['0'] } else { tv.subrange(a as int, d as int) };
    assert(s@ == old(s)@ + whole);
    if d < n {
        let mut b: usize = n;
        proof { lemma_zeros_start(tv, d + 1, n as int); }
        while b > d + 1 && t[b - 1] == '0'
            invariant
                t@ == tv,
                n == tv.len(),
                d < n,
                d + 1 <= b <= n,
                zeros_start(tv, d + 1, b as int) == zeros_start(tv, d + 1, n as int),
            decreases b,
        {
            b = b - 1;
        }
        if b > d + 1 {
            push_char(s, '.');
            push_range(s, &t, d + 1, b);
            proof {
                assert(s@ =~= old(s)@ + (whole + seq!['.'] + tv.subrange(d + 1, b as int)));
            }
        }
    }
}

// ---------------------------------------------------------------------------
// Expressions
// ---------------------------------------------------------------------------

/// Whether the expression at `id` can be printed while following at most
/// `fuel` nodes down any path: every index met is held, and no node met
/// is a call, a logical operation, a block or an `if`.
pub open spec fn formattable_within(exprs: Seq<ExprView>, id: nat, fuel: nat) -> bool
    decreases fuel,
{
    fuel > 0 && id < exprs.len() && match exprs[id as int] {
        ExprView::Grouping(c) => formattable_within(exprs, c, (fuel - 1) as nat),
        ExprView::Binary { left, right, .. } =>
            formattable_within(exprs, left, (fuel - 1) as nat) && formattable_within(exprs, right, (fuel - 1) as nat),
        ExprView::Unary { right, .. } => formattable_within(exprs, right, (fuel - 1) as nat),
        ExprView::Literal(_) => true,
        ExprView::Range { .. } => true,
        ExprView::Variable(_) => true,
        ExprView::Assign { .. } => true,
        _ => false,
    }
}

/// Whether the expression at `id` can be printed: every index reached from
/// it is held, no path from it runs in a cycle, and no node reached is a
/// call, a logical operation, a block or an `if`.
pub open spec fn formattable(exprs: Seq<ExprView>, id: nat) -> bool {
    exists|fuel: nat| formattable_within(exprs, id, fuel)
}

/// The text of a literal.
pub open spec fn literal_text(l: LitView) -> Seq<char> {
    match l {
        LitView::String(s) => s,
        LitView::Number(t) => number_text(t),
        LitView::Boolean(b) => if b { "true"@ } else { "false"@ },
        LitView::Unit => "()"@,
    }
}

/// The prefix form of the expression at `id`, following at most `fuel`
/// nodes down any path: operators before their operands, each compound in
/// parentheses, groupings marked `group`. A range shows the indices of its
/// two ends; an assignment shows nothing.
pub open spec fn format_within(exprs: Seq<ExprView>, id: nat, fuel: nat) -> Seq<char>
    decreases fuel,
{
    if fuel == 0 || id >= exprs.len() {
        Seq::empty()
    } else {
        let f = (fuel - 1) as nat;
        match exprs[id as int] {
            ExprView::Literal(l) => literal_text(l),
            ExprView::Range { start, end, inclusive } =>
                decimal(start) + (if inclusive { "..="@ } else { ".."@ }) + decimal(end),
            ExprView::Grouping(c) => "(group ("@ + format_within(exprs, c, f) + "))"@,
            ExprView::Binary { left, operator, right } =>
                "("@ + operator.lexeme + " "@ + format_within(exprs, left, f) + " "@ + format_within(exprs, right, f) + ")"@,
            ExprView::Unary { operator, right } => "("@ + operator.lexeme + format_within(exprs, right, f) + ")"@,
            ExprView::Variable(tok) => tok.lexeme,
            _ => Seq::empty(),
        }
    }
}

/// The prefix form of a printable expression at `id`; by
/// `lemma_format_fuel`, any fuel that suffices gives the same text.
pub open spec fn format_spec(exprs: Seq<ExprView>, id: nat) -> Seq<char> {
    format_within(exprs, id, choose|fuel: nat| formattable_within(exprs, id, fuel))
}

/// More fuel than an expression needs changes neither whether it can be
/// printed nor its text.
pub proof fn lemma_format_fuel(exprs: Seq<ExprView>, id: nat, f: nat, g: nat)
    requires
        formattable_within(exprs, id, f),
        f <= g,
    ensures
        formattable_within(exprs, id, g),
        format_within(exprs, id, g) == format_within(exprs, id, f),
    decreases f,
{
    let f1 = (f - 1) as nat;
    let g1 = (g - 1) as nat;
    match exprs[id as int] {
        ExprView::Grouping(c) => {
            lemma_format_fuel(exprs, c, f1, g1);
        },
        ExprView::Binary { left, right, .. } => {
            lemma_format_fuel(exprs, left, f1, g1);
            lemma_format_fuel(exprs, right, f1, g1);
        },
        ExprView::Unary { right, .. } => {
            lemma_format_fuel(exprs, right, f1, g1);
        },
        _ => {},
    }
}

proof fn lemma_format_spec_at(exprs: Seq<ExprView>, id: nat, f: nat)
    requires
        formattable_within(exprs, id, f),
    ensures
        format_spec(exprs, id) == format_within(exprs, id, f),
{
    let g = choose|fuel: nat| formattable_within(exprs, id, fuel);
    if g <= f {
        lemma_format_fuel(exprs, id, g, f);
    } else {
        lemma_format_fuel(exprs, id, f, g);
    }
}

/// The text of a printable expression is made from the texts of its
/// operands, which are printable too: a printed tree reads the same
/// whatever the order in which its nodes were added.
pub proof fn law_format_by_parts(exprs: Seq<ExprView>, id: nat)
    requires
        formattable(exprs, id),
    ensures
        match exprs[id as int] {
            ExprView::Grouping(c) => formattable(exprs, c)
                && format_spec(exprs, id) == "(group ("@ + format_spec(exprs, c) + "))"@,
            ExprView::Binary { left, operator, right } => formattable(exprs, left) && formattable(exprs, right)
                && format_spec(exprs, id)
                    == "("@ + operator.lexeme + " "@ + format_spec(exprs, left) + " "@ + format_spec(exprs, right) + ")"@,
            ExprView::Unary { operator, right } => formattable(exprs, right)
                && format_spec(exprs, id) == "("@ + operator.lexeme + format_spec(exprs, right) + ")"@,
            ExprView::Literal(l) => format_spec(exprs, id) == match l {
                LitView::String(t) => t,
                LitView::Number(t) => number_text(t),
                LitView::Boolean(b) => if b { "true"@ } else { "false"@ },
                LitView::Unit => "()"@,
            },
            ExprView::Variable(tok) => format_spec(exprs, id) == tok.lexeme,
            ExprView::Assign { .. } => format_spec(exprs, id) == Seq::<char>::empty(),
            ExprView::Range { start, end, inclusive } => format_spec(exprs, id)
                == decimal(start) + (if inclusive { "..="@ } else { ".."@ }) + decimal(end),
            _ => false,
        },
{
    let f = choose|fuel: nat| formattable_within(exprs, id, fuel);
    let f1 = (f - 1) as nat;
    match exprs[id as int] {
        ExprView::Grouping(c) => {
            assert(formattable_within(exprs, c, f1));
            lemma_format_spec_at(exprs, c, f1);
        },
        ExprView::Binary { left, right, .. } => {
            assert(formattable_within(exprs, left, f1));
            assert(formattable_within(exprs, right, f1));
            lemma_format_spec_at(exprs, left, f1);
            lemma_format_spec_at(exprs, right, f1);
        },
        ExprView::Unary { right, .. } => {
            assert(formattable_within(exprs, right, f1));
            lemma_format_spec_at(exprs, right, f1);
        },
        _ => {},
    }
    assert(format_spec(exprs, id) == format_within(exprs, id, f));
}

/// Appends the prefix form of the expression at `id` to `s`.
fn push_format(ast: &AST, id: ExprId, s: &mut String, Ghost(fuel): Ghost<nat>)
    requires
        formattable_within(ast@.exprs, id as nat, fuel),
    ensures
        final(s)@ == old(s)@ + format_within(ast@.exprs, id as nat, fuel),
    decreases fuel,
{
    let ghost exprs = ast@.exprs;
    let ghost f = (fuel - 1) as nat;
    match ast.get_node(id) {
        ExprKind::Literal(lit) => match lit {
            Literal::String(t) => push_str(s, t),
            Literal::Number(t) => push_number_text(s, t),
            Literal::Boolean(b) => if *b { push_str(s, "true") } else { push_str(s, "false") },
            Literal::Unit => push_str(s, "()"),
        },
        ExprKind::Range { start, end, inclusive } => {
            push_decimal(s, *start);
            if *inclusive { push_str(s, "..=") } else { push_str(s, "..") }
            push_decimal(s, *end);
            proof {
                assert(s@ =~= old(s)@ + format_within(exprs, id as nat, fuel));
            }
        },
        ExprKind::Grouping(c) => {
            push_str(s, "(group (");
            push_format(ast, *c, s, Ghost(f));
            push_str(s, "))");
            proof {
                assert(s@ =~= old(s)@ + format_within(exprs, id as nat, fuel));
            }
        },
        ExprKind::Binary { left, operator, right } => {
            push_str(s, "(");
            push_str(s, operator.lexeme);
            push_str(s, " ");
            push_format(ast, *left, s, Ghost(f));
            push_str(s, " ");
            push_format(ast, *right, s, Ghost(f));
            push_str(s, ")");
            proof {
                assert(s@ =~= old(s)@ + format_within(exprs, id as nat, fuel));
            }
        },
        ExprKind::Unary { operator, right } => {
            push_str(s, "(");
            push_str(s, operator.lexeme);
            push_format(ast, *right, s, Ghost(f));
            push_str(s, ")");
            proof {
                assert(s@ =~= old(s)@ + format_within(exprs, id as nat, fuel));
            }
        },
        ExprKind::Variable(tok) => push_str(s, tok.lexeme),
        ExprKind::Assign { .. } => {
            assert(s@ =~= old(s)@ + format_within(exprs, id as nat, fuel));
        },
        _ => {},
    }
}

/// The prefix form of the expression at `id`, as in `(+ 1 (* 2 3))`.
pub fn format_ast(ast: &AST, id: ExprId) -> (s: String)
    requires
        formattable(ast@.exprs, id as nat),
    ensures
        s@ == format_spec(ast@.exprs, id as nat),
{
    let ghost fuel = choose|fuel: nat| formattable_within(ast@.exprs, id as nat, fuel);
    let mut s = String::new();
    push_format(ast, id, &mut s, Ghost(fuel));
    s
}

} // verus!
