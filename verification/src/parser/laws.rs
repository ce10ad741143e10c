//! Laws of the expression grammar: how operators of different precedence
//! group, that operators of one level group to the left, and that
//! assignment groups to the right.
use vstd::prelude::*;
use crate::ast::{ExprView, LitView, StmtView};
use crate::lexer::token::{SpecToken, TokenKind};
use crate::parser::grammar::{
    assignment, binary, level_node, binary_rest, call, call_rest, expression, is_level_op, Level,
    operand, primary, PState, range, unary, valid, block, block_items, consume, finish_call, call_args,
    args_more, declaration, statement, print_stmt, var_declaration, expression_stmt, consume_identifier, error_at,
    sync_rest, parse_type, for_stmt, while_stmt, consume_identifier_st, consume_st,
    function, params, param, params_more, return_type,
};
use crate::ast::ParamView;
use crate::ast::TypeView;
use crate::diagnostics::report_text;

verus! {

/// A token that is an expression on its own: a number, a string or a name.
pub open spec fn is_atom(k: TokenKind) -> bool {
    k == TokenKind::Number || k == TokenKind::String || k == TokenKind::Identifier
}

/// The node that an atom token becomes.
pub open spec fn atom_node(tok: SpecToken) -> ExprView {
    match tok.kind {
        TokenKind::Number => ExprView::Literal(LitView::Number(tok.text)),
        TokenKind::String => ExprView::Literal(LitView::String(tok.text)),
        _ => ExprView::Variable(tok),
    }
}

/// Whether `k` is an operator of level `lv` or of a level that binds tighter.
pub open spec fn op_within(lv: Level, k: TokenKind) -> bool {
    let f = is_level_op(Level::Factor, k);
    let t = f || is_level_op(Level::Term, k);
    let c = t || is_level_op(Level::Comparison, k);
    let e = c || is_level_op(Level::Equality, k);
    let a = e || is_level_op(Level::And, k);
    match lv {
        Level::Factor => f,
        Level::Term => t,
        Level::Comparison => c,
        Level::Equality => e,
        Level::And => a,
        Level::Or => a || is_level_op(Level::Or, k),
    }
}

/// The state after an atom at `st.pos` is read.
pub open spec fn after_atom(ts: Seq<SpecToken>, st: PState) -> PState {
    PState { pos: st.pos + 1, exprs: st.exprs.push(atom_node(ts[st.pos])), stmts: st.stmts }
}

/// Whether `k` may follow an atom that ends an expression: not an
/// operator, a call, a range, or an assignment.
pub open spec fn ends_expression(k: TokenKind) -> bool {
    !op_within(Level::Or, k) && k != TokenKind::LeftParen && k != TokenKind::DotDot
        && k != TokenKind::DotDotEqual && k != TokenKind::Equal
}

proof fn lemma_unary_atom(ts: Seq<SpecToken>, st: PState)
    requires
        0 <= st.pos,
        st.pos + 1 < ts.len(),
        is_atom(ts[st.pos].kind),
        ts[st.pos + 1].kind != TokenKind::LeftParen,
    ensures
        unary(ts, st) == (after_atom(ts, st), Ok::<nat, Seq<char>>(st.exprs.len())),
{
    let st1 = after_atom(ts, st);
    assert(primary(ts, st) == (st1, Ok::<nat, Seq<char>>(st.exprs.len())));
    assert(call_rest(ts, st1, st.exprs.len()) == (st1, Ok::<nat, Seq<char>>(st.exprs.len())));
    assert(call(ts, st) == (st1, Ok::<nat, Seq<char>>(st.exprs.len())));
}

proof fn lemma_rest_stops(ts: Seq<SpecToken>, st: PState, left: nat, lv: Level)
    requires
        valid(ts, st),
        !is_level_op(lv, ts[st.pos].kind),
    ensures
        binary_rest(ts, st, left, lv) == (st, Ok::<nat, Seq<char>>(left)),
{
}

proof fn lemma_binary_atom(ts: Seq<SpecToken>, st: PState, lv: Level)
    requires
        0 <= st.pos,
        st.pos + 1 < ts.len(),
        is_atom(ts[st.pos].kind),
        ts[st.pos + 1].kind != TokenKind::LeftParen,
        !op_within(lv, ts[st.pos + 1].kind),
    ensures
        binary(ts, st, lv) == (after_atom(ts, st), Ok::<nat, Seq<char>>(st.exprs.len())),
    decreases crate::parser::grammar::level_rank(lv),
{
    let st1 = after_atom(ts, st);
    let r = (st1, Ok::<nat, Seq<char>>(st.exprs.len()));
    match lv {
        Level::Factor => { lemma_unary_atom(ts, st); },
        Level::Term => { lemma_binary_atom(ts, st, Level::Factor); },
        Level::Comparison => { lemma_binary_atom(ts, st, Level::Term); },
        Level::Equality => { lemma_binary_atom(ts, st, Level::Comparison); },
        Level::And => { lemma_binary_atom(ts, st, Level::Equality); },
        Level::Or => { lemma_binary_atom(ts, st, Level::And); },
    }
    assert(operand(ts, st, lv) == r);
    lemma_rest_stops(ts, st1, st.exprs.len(), lv);
}

/// The level whose chains are the operands of `lv`'s chains.
spec fn tighter(lv: Level) -> Level {
    match lv {
        Level::Or => Level::And,
        Level::And => Level::Equality,
        Level::Equality => Level::Comparison,
        Level::Comparison => Level::Term,
        _ => Level::Factor,
    }
}

/// A chain of a looser level whose next token is none of its operators is
/// the chain of the level below it.
proof fn lemma_lift(ts: Seq<SpecToken>, st: PState, lv: Level, r: (PState, Result<nat, Seq<char>>))
    requires
        lv != Level::Factor,
        valid(ts, st),
        binary(ts, st, tighter(lv)) == r,
        r.1 is Ok,
        st.pos <= r.0.pos,
        valid(ts, r.0),
        !is_level_op(lv, ts[r.0.pos].kind),
    ensures
        binary(ts, st, lv) == r,
{
    assert(operand(ts, st, lv) == r);
    lemma_rest_stops(ts, r.0, r.1->Ok_0, lv);
}

/// A chain at level `lv` that ends where the whole expression ends is the
/// expression.
proof fn lemma_expression_of_chain(ts: Seq<SpecToken>, st: PState, lv: Level, r: (PState, Result<nat, Seq<char>>))
    requires
        valid(ts, st),
        binary(ts, st, lv) == r,
        r.1 is Ok,
        st.pos < r.0.pos,
        valid(ts, r.0),
        ends_expression(ts[r.0.pos].kind),
    ensures
        expression(ts, st) == r,
{
    let k = ts[r.0.pos].kind;
    if lv == Level::Factor {
        lemma_lift(ts, st, Level::Term, r);
    }
    if lv == Level::Factor || lv == Level::Term {
        lemma_lift(ts, st, Level::Comparison, r);
    }
    if lv == Level::Factor || lv == Level::Term || lv == Level::Comparison {
        lemma_lift(ts, st, Level::Equality, r);
    }
    if lv != Level::And && lv != Level::Or {
        lemma_lift(ts, st, Level::And, r);
    }
    if lv != Level::Or {
        lemma_lift(ts, st, Level::Or, r);
    }
    assert(binary(ts, st, Level::Or) == r);
    assert(range(ts, st) == r);
    assert(assignment(ts, st) == r);
}

/// Precedence: in `a o1 b o2 c`, where `o1` adds or subtracts and `o2`
/// multiplies or divides, `o2` takes `b` and `c` first, and `o1` joins
/// `a` with that product: the tree is `(o1 a (o2 b c))`.
#[verifier::spinoff_prover]
pub proof fn law_product_binds_tighter(ts: Seq<SpecToken>, st: PState)
    requires
        0 <= st.pos,
        st.pos + 5 < ts.len(),
        is_atom(ts[st.pos].kind),
        is_level_op(Level::Term, ts[st.pos + 1].kind),
        is_atom(ts[st.pos + 2].kind),
        is_level_op(Level::Factor, ts[st.pos + 3].kind),
        is_atom(ts[st.pos + 4].kind),
        ends_expression(ts[st.pos + 5].kind),
    ensures
        ({
            let p = st.pos;
            let n = st.exprs.len();
            let exprs = st.exprs
                .push(atom_node(ts[p]))
                .push(atom_node(ts[p + 2]))
                .push(atom_node(ts[p + 4]))
                .push(ExprView::Binary { left: n + 1, operator: ts[p + 3], right: n + 2 })
                .push(ExprView::Binary { left: n, operator: ts[p + 1], right: n + 3 });
            expression(ts, st) == (PState { pos: p + 5, exprs, stmts: st.stmts }, Ok::<nat, Seq<char>>(n + 4))
        }),
{
    let p = st.pos;
    let n = st.exprs.len();
    // `a`, as an operand of `+`.
    lemma_binary_atom(ts, st, Level::Factor);
    let st1 = after_atom(ts, st);
    // `b * c`, the right operand of `+`.
    let sb = PState { pos: p + 2, exprs: st1.exprs, stmts: st.stmts };
    lemma_unary_atom(ts, sb);
    let sb1 = after_atom(ts, sb);
    let sc = PState { pos: p + 4, exprs: sb1.exprs, stmts: st.stmts };
    lemma_unary_atom(ts, sc);
    let sc1 = after_atom(ts, sc);
    assert(operand(ts, sc, Level::Factor) == (sc1, Ok::<nat, Seq<char>>(n + 2)));
    let prod = ExprView::Binary { left: n + 1, operator: ts[p + 3], right: n + 2 };
    let sm = PState { pos: p + 5, exprs: sc1.exprs.push(prod), stmts: st.stmts };
    lemma_rest_stops(ts, sm, n + 3, Level::Factor);
    assert(binary_rest(ts, sb1, n + 1, Level::Factor) == (sm, Ok::<nat, Seq<char>>(n + 3)));
    assert(operand(ts, sb, Level::Factor) == (sb1, Ok::<nat, Seq<char>>(n + 1)));
    assert(binary(ts, sb, Level::Factor) == (sm, Ok::<nat, Seq<char>>(n + 3)));
    // `a + (b * c)`.
    assert(operand(ts, sb, Level::Term) == (sm, Ok::<nat, Seq<char>>(n + 3)));
    let sum = ExprView::Binary { left: n, operator: ts[p + 1], right: n + 3 };
    let ss = PState { pos: p + 5, exprs: sm.exprs.push(sum), stmts: st.stmts };
    lemma_rest_stops(ts, ss, n + 4, Level::Term);
    assert(binary_rest(ts, st1, n, Level::Term) == (ss, Ok::<nat, Seq<char>>(n + 4)));
    assert(operand(ts, st, Level::Term) == (st1, Ok::<nat, Seq<char>>(n)));
    assert(binary(ts, st, Level::Term) == (ss, Ok::<nat, Seq<char>>(n + 4)));
    lemma_expression_of_chain(ts, st, Level::Term, (ss, Ok::<nat, Seq<char>>(n + 4)));
}

/// An atom is an operand of any level when what follows it is an operator
/// of that level or ends the expression.
proof fn lemma_operand_atom(ts: Seq<SpecToken>, st: PState, lv: Level)
    requires
        0 <= st.pos,
        st.pos + 1 < ts.len(),
        is_atom(ts[st.pos].kind),
        is_level_op(lv, ts[st.pos + 1].kind) || ends_expression(ts[st.pos + 1].kind),
    ensures
        operand(ts, st, lv) == (after_atom(ts, st), Ok::<nat, Seq<char>>(st.exprs.len())),
{
    match lv {
        Level::Factor => { lemma_unary_atom(ts, st); },
        _ => { lemma_binary_atom(ts, st, tighter(lv)); },
    }
}

/// Left associativity: in `a o1 b o2 c`, where `o1` and `o2` are operators
/// of one level, `o1` joins `a` and `b` first and `o2` joins that with
/// `c`: the tree is `(o2 (o1 a b) c)`. This holds at every level.
#[verifier::spinoff_prover]
pub proof fn law_same_level_groups_left(ts: Seq<SpecToken>, st: PState, lv: Level)
    requires
        0 <= st.pos,
        st.pos + 5 < ts.len(),
        is_atom(ts[st.pos].kind),
        is_level_op(lv, ts[st.pos + 1].kind),
        is_atom(ts[st.pos + 2].kind),
        is_level_op(lv, ts[st.pos + 3].kind),
        is_atom(ts[st.pos + 4].kind),
        ends_expression(ts[st.pos + 5].kind),
    ensures
        ({
            let p = st.pos;
            let n = st.exprs.len();
            let exprs = st.exprs
                .push(atom_node(ts[p]))
                .push(atom_node(ts[p + 2]))
                .push(level_node(lv, n, ts[p + 1], n + 1))
                .push(atom_node(ts[p + 4]))
                .push(level_node(lv, n + 2, ts[p + 3], n + 3));
            expression(ts, st) == (PState { pos: p + 5, exprs, stmts: st.stmts }, Ok::<nat, Seq<char>>(n + 4))
        }),
{
    let p = st.pos;
    let n = st.exprs.len();
    lemma_operand_atom(ts, st, lv);
    let st1 = after_atom(ts, st);
    let sb = PState { pos: p + 2, exprs: st1.exprs, stmts: st.stmts };
    lemma_operand_atom(ts, sb, lv);
    let sb1 = after_atom(ts, sb);
    let s2 = PState { pos: p + 3, exprs: sb1.exprs.push(level_node(lv, n, ts[p + 1], n + 1)), stmts: st.stmts };
    let sc = PState { pos: p + 4, exprs: s2.exprs, stmts: st.stmts };
    lemma_operand_atom(ts, sc, lv);
    let sc1 = after_atom(ts, sc);
    let s4 = PState { pos: p + 5, exprs: sc1.exprs.push(level_node(lv, n + 2, ts[p + 3], n + 3)), stmts: st.stmts };
    lemma_rest_stops(ts, s4, n + 4, lv);
    assert(binary_rest(ts, s2, n + 2, lv) == (s4, Ok::<nat, Seq<char>>(n + 4)));
    assert(binary_rest(ts, st1, n, lv) == (s4, Ok::<nat, Seq<char>>(n + 4)));
    assert(binary(ts, st, lv) == (s4, Ok::<nat, Seq<char>>(n + 4)));
    lemma_expression_of_chain(ts, st, lv, (s4, Ok::<nat, Seq<char>>(n + 4)));
}

/// Right associativity of assignment: in `x = y = a`, `y = a` is read
/// first and its node is the value given to `x`.
#[verifier::spinoff_prover]
#[verifier::rlimit(80)]
pub proof fn law_assignment_groups_right(ts: Seq<SpecToken>, st: PState)
    requires
        0 <= st.pos,
        st.pos + 5 < ts.len(),
        ts[st.pos].kind == TokenKind::Identifier,
        ts[st.pos + 1].kind == TokenKind::Equal,
        ts[st.pos + 2].kind == TokenKind::Identifier,
        ts[st.pos + 3].kind == TokenKind::Equal,
        is_atom(ts[st.pos + 4].kind),
        ends_expression(ts[st.pos + 5].kind),
    ensures
        ({
            let p = st.pos;
            let n = st.exprs.len();
            let exprs = st.exprs
                .push(ExprView::Variable(ts[p]))
                .push(ExprView::Variable(ts[p + 2]))
                .push(atom_node(ts[p + 4]))
                .push(ExprView::Assign { name: ts[p + 2], value: n + 2 })
                .push(ExprView::Assign { name: ts[p], value: n + 3 });
            expression(ts, st) == (PState { pos: p + 5, exprs, stmts: st.stmts }, Ok::<nat, Seq<char>>(n + 4))
        }),
{
    let p = st.pos;
    let n = st.exprs.len();
    // `x`, then `y`, then `a`, each read as a range of one atom.
    lemma_binary_atom(ts, st, Level::Or);
    let st1 = after_atom(ts, st);
    assert(range(ts, st) == (st1, Ok::<nat, Seq<char>>(n)));
    let sy = PState { pos: p + 2, exprs: st1.exprs, stmts: st.stmts };
    lemma_binary_atom(ts, sy, Level::Or);
    let sy1 = after_atom(ts, sy);
    assert(range(ts, sy) == (sy1, Ok::<nat, Seq<char>>(n + 1)));
    let sa = PState { pos: p + 4, exprs: sy1.exprs, stmts: st.stmts };
    lemma_binary_atom(ts, sa, Level::Or);
    let sa1 = after_atom(ts, sa);
    assert(range(ts, sa) == (sa1, Ok::<nat, Seq<char>>(n + 2)));
    assert(assignment(ts, sa) == (sa1, Ok::<nat, Seq<char>>(n + 2)));
    // `y = a`, then `x = (y = a)`.
    let s3 = PState { pos: p + 5, exprs: sa1.exprs.push(ExprView::Assign { name: ts[p + 2], value: n + 2 }), stmts: st.stmts };
    assert(sa1.exprs[(n + 1) as int] == ExprView::Variable(ts[p + 2]));
    assert(assignment(ts, sy) == (s3, Ok::<nat, Seq<char>>(n + 3)));
    let s4 = PState { pos: p + 5, exprs: s3.exprs.push(ExprView::Assign { name: ts[p], value: n + 3 }), stmts: st.stmts };
    assert(s3.exprs[n as int] == ExprView::Variable(ts[p]));
    assert(assignment(ts, st) == (s4, Ok::<nat, Seq<char>>(n + 4)));
}

// ---------------------------------------------------------------------------
// Precedence, stated by token kinds
// ---------------------------------------------------------------------------

/// How tightly a binary operator binds, from `or` (loosest) to `*` and `/`
/// (tightest); 0 for a token that is no binary operator.
pub open spec fn precedence(k: TokenKind) -> int {
    if k == TokenKind::Or { 1 }
    else if k == TokenKind::And { 2 }
    else if k == TokenKind::BangEqual || k == TokenKind::EqualEqual { 3 }
    else if k == TokenKind::Greater || k == TokenKind::GreaterEqual || k == TokenKind::Less
        || k == TokenKind::LessEqual { 4 }
    else if k == TokenKind::Minus || k == TokenKind::Plus { 5 }
    else if k == TokenKind::Slash || k == TokenKind::Star { 6 }
    else { 0 }
}

/// The node that a binary operator makes of two operands: `and` and `or`
/// make logical nodes, the others binary ones.
pub open spec fn op_node(op: SpecToken, left: nat, right: nat) -> ExprView {
    if op.kind == TokenKind::Or || op.kind == TokenKind::And {
        ExprView::Logical { left, operator: op, right }
    } else {
        ExprView::Binary { left, operator: op, right }
    }
}

/// A token at which an expression ends: no binary operator, no call, no
/// range and no assignment.
pub open spec fn closes_expression(k: TokenKind) -> bool {
    precedence(k) == 0 && k != TokenKind::LeftParen && k != TokenKind::DotDot
        && k != TokenKind::DotDotEqual && k != TokenKind::Equal
}

/// The precedence of the operators of a level of the grammar.
pub open spec fn level_precedence(lv: Level) -> int {
    match lv {
        Level::Or => 1,
        Level::And => 2,
        Level::Equality => 3,
        Level::Comparison => 4,
        Level::Term => 5,
        Level::Factor => 6,
    }
}

/// The level of the grammar whose operators have precedence `p`.
spec fn level_at(p: int) -> Level {
    if p == 1 { Level::Or }
    else if p == 2 { Level::And }
    else if p == 3 { Level::Equality }
    else if p == 4 { Level::Comparison }
    else if p == 5 { Level::Term }
    else { Level::Factor }
}

/// Each level of the grammar reads exactly the binary operators of one
/// precedence, from `or` for the loosest level to `*` and `/` for the
/// tightest, and joins its operands with the node that operator makes.
#[verifier::spinoff_prover]
pub proof fn law_level_operators(lv: Level, k: TokenKind, op: SpecToken, left: nat, right: nat)
    ensures
        is_level_op(lv, k) <==> precedence(k) == level_precedence(lv),
        is_level_op(lv, op.kind) ==> level_node(lv, left, op, right) == op_node(op, left, right),
{
}

proof fn lemma_level_at(k: TokenKind)
    requires
        precedence(k) > 0,
    ensures
        is_level_op(level_at(precedence(k)), k),
        level_precedence(level_at(precedence(k))) == precedence(k),
{
}

proof fn lemma_closes(k: TokenKind)
    requires
        closes_expression(k),
    ensures
        ends_expression(k),
{
}

/// An atom is an operand of level `lv` when what follows it binds no
/// tighter than `lv`'s operators.
proof fn lemma_operand_atom_loose(ts: Seq<SpecToken>, st: PState, lv: Level)
    requires
        0 <= st.pos,
        st.pos + 1 < ts.len(),
        is_atom(ts[st.pos].kind),
        ts[st.pos + 1].kind != TokenKind::LeftParen,
        precedence(ts[st.pos + 1].kind) <= level_precedence(lv),
    ensures
        operand(ts, st, lv) == (after_atom(ts, st), Ok::<nat, Seq<char>>(st.exprs.len())),
{
    match lv {
        Level::Factor => { lemma_unary_atom(ts, st); },
        _ => { lemma_binary_atom(ts, st, tighter(lv)); },
    }
}

/// A chain of level `to` is a chain of the looser level `from` when the
/// token after it is no operator of the levels from `from` up to `to`.
proof fn lemma_lift_to(ts: Seq<SpecToken>, st: PState, from: Level, to: Level, r: (PState, Result<nat, Seq<char>>))
    requires
        level_precedence(from) <= level_precedence(to),
        valid(ts, st),
        binary(ts, st, to) == r,
        r.1 is Ok,
        st.pos <= r.0.pos,
        valid(ts, r.0),
        !(level_precedence(from) <= precedence(ts[r.0.pos].kind) < level_precedence(to)),
    ensures
        binary(ts, st, from) == r,
    decreases level_precedence(to) - level_precedence(from),
{
    if level_precedence(from) < level_precedence(to) {
        lemma_lift_to(ts, st, tighter(from), to, r);
        lemma_lift(ts, st, from, r);
    } else {
        assert(from == to);
    }
}

/// `a o b` at the level of `o`, where what follows binds looser than `o`.
proof fn lemma_pair(ts: Seq<SpecToken>, st: PState, lv: Level)
    requires
        0 <= st.pos,
        st.pos + 3 < ts.len(),
        is_atom(ts[st.pos].kind),
        is_level_op(lv, ts[st.pos + 1].kind),
        is_atom(ts[st.pos + 2].kind),
        ts[st.pos + 3].kind != TokenKind::LeftParen,
        precedence(ts[st.pos + 3].kind) < level_precedence(lv),
    ensures
        ({
            let p = st.pos;
            let n = st.exprs.len();
            let exprs = st.exprs
                .push(atom_node(ts[p]))
                .push(atom_node(ts[p + 2]))
                .push(level_node(lv, n, ts[p + 1], n + 1));
            binary(ts, st, lv) == (PState { pos: p + 3, exprs, stmts: st.stmts }, Ok::<nat, Seq<char>>(n + 2))
        }),
{
    let p = st.pos;
    let n = st.exprs.len();
    law_level_operators(lv, ts[p + 1].kind, ts[p + 1], n, n + 1);
    lemma_operand_atom_loose(ts, st, lv);
    let st1 = after_atom(ts, st);
    let sb = PState { pos: p + 2, exprs: st1.exprs, stmts: st.stmts };
    lemma_operand_atom_loose(ts, sb, lv);
    let sb1 = after_atom(ts, sb);
    let s2 = PState { pos: p + 3, exprs: sb1.exprs.push(level_node(lv, n, ts[p + 1], n + 1)), stmts: st.stmts };
    law_level_operators(lv, ts[p + 3].kind, ts[p + 3], n, n + 1);
    lemma_rest_stops(ts, s2, n + 2, lv);
    assert(binary_rest(ts, st1, n, lv) == (s2, Ok::<nat, Seq<char>>(n + 2)));
}

/// Precedence and associativity of binary operators: in `a o1 b o2 c`,
/// where `a`, `b`, `c` are numbers, strings or names, `o2` takes `b` and
/// `c` first when it binds tighter than `o1`, giving `(o1 a (o2 b c))`;
/// otherwise `o1` takes `a` and `b` first, giving `(o2 (o1 a b) c)`. So `*`
/// and `/` bind tighter than `+` and `-`, those tighter than comparisons,
/// comparisons tighter than `==` and `!=`, those tighter than `and`, and
/// `and` tighter than `or`; operators that bind alike group to the left.
#[verifier::spinoff_prover]
pub proof fn law_precedence(ts: Seq<SpecToken>, st: PState)
    requires
        0 <= st.pos,
        st.pos + 5 < ts.len(),
        is_atom(ts[st.pos].kind),
        precedence(ts[st.pos + 1].kind) > 0,
        is_atom(ts[st.pos + 2].kind),
        precedence(ts[st.pos + 3].kind) > 0,
        is_atom(ts[st.pos + 4].kind),
        closes_expression(ts[st.pos + 5].kind),
    ensures
        ({
            let p = st.pos;
            let n = st.exprs.len();
            let (o1, o2) = (ts[p + 1], ts[p + 3]);
            let exprs = if precedence(o1.kind) < precedence(o2.kind) {
                st.exprs
                    .push(atom_node(ts[p]))
                    .push(atom_node(ts[p + 2]))
                    .push(atom_node(ts[p + 4]))
                    .push(op_node(o2, n + 1, n + 2))
                    .push(op_node(o1, n, n + 3))
            } else {
                st.exprs
                    .push(atom_node(ts[p]))
                    .push(atom_node(ts[p + 2]))
                    .push(op_node(o1, n, n + 1))
                    .push(atom_node(ts[p + 4]))
                    .push(op_node(o2, n + 2, n + 3))
            };
            expression(ts, st) == (PState { pos: p + 5, exprs, stmts: st.stmts }, Ok::<nat, Seq<char>>(n + 4))
        }),
{
    let p = st.pos;
    let n = st.exprs.len();
    let o1 = ts[p + 1];
    let o2 = ts[p + 3];
    let l1 = level_at(precedence(o1.kind));
    let l2 = level_at(precedence(o2.kind));
    lemma_level_at(o1.kind);
    lemma_level_at(o2.kind);
    lemma_closes(ts[p + 5].kind);
    if precedence(o1.kind) < precedence(o2.kind) {
        // `b o2 c` is the right operand of `o1`.
        lemma_operand_atom_loose(ts, st, l1);
        let st1 = after_atom(ts, st);
        let sb = PState { pos: p + 2, exprs: st1.exprs, stmts: st.stmts };
        lemma_pair(ts, sb, l2);
        let m = level_node(l2, n + 1, o2, n + 2);
        law_level_operators(l2, o2.kind, o2, n + 1, n + 2);
        let sm = PState { pos: p + 5, exprs: sb.exprs.push(atom_node(ts[p + 2])).push(atom_node(ts[p + 4])).push(m), stmts: st.stmts };
        let rm = (sm, Ok::<nat, Seq<char>>(n + 3));
        assert(binary(ts, sb, l2) == rm);
        lemma_lift_to(ts, sb, tighter(l1), l2, rm);
        assert(operand(ts, sb, l1) == rm);
        let top = level_node(l1, n, o1, n + 3);
        law_level_operators(l1, o1.kind, o1, n, n + 3);
        let s4 = PState { pos: p + 5, exprs: sm.exprs.push(top), stmts: st.stmts };
        law_level_operators(l1, ts[p + 5].kind, o1, n, n + 3);
        lemma_rest_stops(ts, s4, n + 4, l1);
        assert(binary_rest(ts, st1, n, l1) == (s4, Ok::<nat, Seq<char>>(n + 4)));
        assert(binary(ts, st, l1) == (s4, Ok::<nat, Seq<char>>(n + 4)));
        lemma_expression_of_chain(ts, st, l1, (s4, Ok::<nat, Seq<char>>(n + 4)));
    } else if precedence(o1.kind) == precedence(o2.kind) {
        law_same_level_groups_left(ts, st, l1);
        law_level_operators(l1, o1.kind, o1, n, n + 1);
        law_level_operators(l1, o2.kind, o2, n + 2, n + 3);
    } else {
        // `a o1 b` is the left operand of `o2`.
        lemma_pair(ts, st, l1);
        law_level_operators(l1, o1.kind, o1, n, n + 1);
        let left = level_node(l1, n, o1, n + 1);
        let s2 = PState { pos: p + 3, exprs: st.exprs.push(atom_node(ts[p])).push(atom_node(ts[p + 2])).push(left), stmts: st.stmts };
        let r2 = (s2, Ok::<nat, Seq<char>>(n + 2));
        lemma_lift_to(ts, st, tighter(l2), l1, r2);
        assert(operand(ts, st, l2) == r2);
        let sc = PState { pos: p + 4, exprs: s2.exprs, stmts: st.stmts };
        lemma_operand_atom_loose(ts, sc, l2);
        let sc1 = after_atom(ts, sc);
        let top = level_node(l2, n + 2, o2, n + 3);
        law_level_operators(l2, o2.kind, o2, n + 2, n + 3);
        let s4 = PState { pos: p + 5, exprs: sc1.exprs.push(top), stmts: st.stmts };
        law_level_operators(l2, ts[p + 5].kind, o2, n, n + 3);
        lemma_rest_stops(ts, s4, n + 4, l2);
        assert(binary_rest(ts, s2, n + 2, l2) == (s4, Ok::<nat, Seq<char>>(n + 4)));
        assert(binary(ts, st, l2) == (s4, Ok::<nat, Seq<char>>(n + 4)));
        lemma_expression_of_chain(ts, st, l2, (s4, Ok::<nat, Seq<char>>(n + 4)));
    }
}

// ---------------------------------------------------------------------------
// Blocks
// ---------------------------------------------------------------------------

/// An atom followed by a token that ends an expression is the expression.
proof fn lemma_expression_atom(ts: Seq<SpecToken>, st: PState)
    requires
        0 <= st.pos,
        st.pos + 1 < ts.len(),
        is_atom(ts[st.pos].kind),
        closes_expression(ts[st.pos + 1].kind),
    ensures
        expression(ts, st) == (after_atom(ts, st), Ok::<nat, Seq<char>>(st.exprs.len())),
{
    lemma_closes(ts[st.pos + 1].kind);
    lemma_binary_atom(ts, st, Level::Or);
    lemma_expression_of_chain(ts, st, Level::Or, (after_atom(ts, st), Ok::<nat, Seq<char>>(st.exprs.len())));
}

/// A primary expression followed by a token that ends an expression is
/// the expression.
proof fn lemma_expression_of_primary(ts: Seq<SpecToken>, st: PState, r: (PState, Result<nat, Seq<char>>))
    requires
        valid(ts, st),
        primary(ts, st) == r,
        r.1 is Ok,
        st.pos < r.0.pos,
        valid(ts, r.0),
        closes_expression(ts[r.0.pos].kind),
        ts[st.pos].kind != TokenKind::Bang && ts[st.pos].kind != TokenKind::Minus,
    ensures
        expression(ts, st) == r,
{
    lemma_closes(ts[r.0.pos].kind);
    assert(call_rest(ts, r.0, r.1->Ok_0) == r);
    assert(call(ts, st) == r);
    assert(unary(ts, st) == r);
    assert(operand(ts, st, Level::Factor) == r);
    lemma_rest_stops(ts, r.0, r.1->Ok_0, Level::Factor);
    assert(binary(ts, st, Level::Factor) == r);
    lemma_expression_of_chain(ts, st, Level::Factor, r);
}

/// An `if` in a block need not be followed by `;`: in the block
/// `{ if c { } x; }`, where `c` and `x` are numbers, strings or names, the
/// `if` becomes a statement of the block of its own and the block goes on
/// with `x;`, so the block holds two statements and ends with no value.
#[verifier::spinoff_prover]
#[verifier::rlimit(80)]
pub proof fn law_if_in_block_is_a_statement(ts: Seq<SpecToken>, st: PState)
    requires
        0 <= st.pos,
        st.pos + 7 < ts.len(),
        ts[st.pos].kind == TokenKind::LeftBrace,
        ts[st.pos + 1].kind == TokenKind::If,
        is_atom(ts[st.pos + 2].kind),
        ts[st.pos + 3].kind == TokenKind::LeftBrace,
        ts[st.pos + 4].kind == TokenKind::RightBrace,
        is_atom(ts[st.pos + 5].kind),
        ts[st.pos + 6].kind == TokenKind::Semicolon,
        ts[st.pos + 7].kind == TokenKind::RightBrace,
    ensures
        ({
            let p = st.pos;
            let n = st.exprs.len();
            let m = st.stmts.len();
            let exprs = st.exprs
                .push(atom_node(ts[p + 2]))
                .push(ExprView::Block { stmts: Seq::empty(), expr: None })
                .push(ExprView::If { condition: n, then_branch: n + 1, else_branch: None })
                .push(atom_node(ts[p + 5]))
                .push(ExprView::Block { stmts: seq![m, m + 1], expr: None });
            let stmts = st.stmts.push(StmtView::Expression(n + 2)).push(StmtView::Expression(n + 3));
            block(ts, st) == (PState { pos: p + 8, exprs, stmts }, Ok::<nat, Seq<char>>(n + 4))
        }),
{
    reveal(consume);
    let p = st.pos;
    let n = st.exprs.len();
    let m = st.stmts.len();
    // The condition `c`.
    let sc = PState { pos: p + 2, exprs: st.exprs, stmts: st.stmts };
    lemma_expression_atom(ts, sc);
    let sc1 = after_atom(ts, sc);
    // The empty block `{ }`.
    let sb = PState { pos: p + 4, exprs: sc1.exprs, stmts: st.stmts };
    assert(block_items(ts, sb, Seq::empty()) == (sb, Ok::<(Seq<nat>, Option<nat>), Seq<char>>((Seq::empty(), None))));
    let sb1 = PState { pos: p + 5, exprs: sc1.exprs.push(ExprView::Block { stmts: Seq::empty(), expr: None }), stmts: st.stmts };
    assert(block(ts, sc1) == (sb1, Ok::<nat, Seq<char>>(n + 1)));
    // The `if`, a statement of the block.
    let si = PState { pos: p + 1, exprs: st.exprs, stmts: st.stmts };
    let si1 = PState {
        pos: p + 5,
        exprs: sb1.exprs.push(ExprView::If { condition: n, then_branch: n + 1, else_branch: None }),
        stmts: st.stmts,
    };
    assert(primary(ts, si) == (si1, Ok::<nat, Seq<char>>(n + 2)));
    lemma_expression_of_primary(ts, si, (si1, Ok::<nat, Seq<char>>(n + 2)));
    let s2 = PState { pos: p + 5, exprs: si1.exprs, stmts: st.stmts.push(StmtView::Expression(n + 2)) };
    // `x;`, the next statement.
    lemma_expression_atom(ts, s2);
    let sx1 = after_atom(ts, s2);
    let s3 = PState { pos: p + 7, exprs: sx1.exprs, stmts: s2.stmts.push(StmtView::Expression(n + 3)) };
    assert(block_items(ts, s3, seq![m, m + 1]) == (s3, Ok::<(Seq<nat>, Option<nat>), Seq<char>>((seq![m, m + 1], None))));
    assert(seq![m].push(m + 1) == seq![m, m + 1]);
    assert(block_items(ts, s2, seq![m]) == (s3, Ok::<(Seq<nat>, Option<nat>), Seq<char>>((seq![m, m + 1], None))));
    assert(Seq::<nat>::empty().push(m) == seq![m]);
    assert(block_items(ts, si, Seq::empty()) == (s3, Ok::<(Seq<nat>, Option<nat>), Seq<char>>((seq![m, m + 1], None))));
}

// ---------------------------------------------------------------------------
// Unary operators, ranges, calls, groupings and literals
// ---------------------------------------------------------------------------

/// A unary expression followed by a token that ends an expression is the
/// expression.
proof fn lemma_expression_of_unary(ts: Seq<SpecToken>, st: PState, r: (PState, Result<nat, Seq<char>>))
    requires
        valid(ts, st),
        unary(ts, st) == r,
        r.1 is Ok,
        st.pos < r.0.pos,
        valid(ts, r.0),
        closes_expression(ts[r.0.pos].kind),
    ensures
        expression(ts, st) == r,
{
    lemma_closes(ts[r.0.pos].kind);
    assert(operand(ts, st, Level::Factor) == r);
    lemma_rest_stops(ts, r.0, r.1->Ok_0, Level::Factor);
    assert(binary(ts, st, Level::Factor) == r);
    lemma_expression_of_chain(ts, st, Level::Factor, r);
}

/// Prefix operators: `!a` and `-a`, where `a` is a number, string or name,
/// make a unary node over `a`.
#[verifier::spinoff_prover]
pub proof fn law_prefix_operators(ts: Seq<SpecToken>, st: PState)
    requires
        0 <= st.pos,
        st.pos + 2 < ts.len(),
        ts[st.pos].kind == TokenKind::Bang || ts[st.pos].kind == TokenKind::Minus,
        is_atom(ts[st.pos + 1].kind),
        closes_expression(ts[st.pos + 2].kind),
    ensures
        ({
            let p = st.pos;
            let n = st.exprs.len();
            let exprs = st.exprs.push(atom_node(ts[p + 1])).push(ExprView::Unary { operator: ts[p], right: n });
            expression(ts, st) == (PState { pos: p + 2, exprs, stmts: st.stmts }, Ok::<nat, Seq<char>>(n + 1))
        }),
{
    let p = st.pos;
    let n = st.exprs.len();
    let sa = PState { pos: p + 1, exprs: st.exprs, stmts: st.stmts };
    lemma_unary_atom(ts, sa);
    let exprs = st.exprs.push(atom_node(ts[p + 1])).push(ExprView::Unary { operator: ts[p], right: n });
    let r = (PState { pos: p + 2, exprs, stmts: st.stmts }, Ok::<nat, Seq<char>>(n + 1));
    assert(unary(ts, st) == r);
    lemma_expression_of_unary(ts, st, r);
}

/// Ranges: `a..b` and `a..=b` make a range node from `a` to `b`, which
/// includes its end exactly when written with `..=`.
#[verifier::spinoff_prover]
pub proof fn law_ranges(ts: Seq<SpecToken>, st: PState)
    requires
        0 <= st.pos,
        st.pos + 3 < ts.len(),
        is_atom(ts[st.pos].kind),
        ts[st.pos + 1].kind == TokenKind::DotDot || ts[st.pos + 1].kind == TokenKind::DotDotEqual,
        is_atom(ts[st.pos + 2].kind),
        closes_expression(ts[st.pos + 3].kind),
    ensures
        ({
            let p = st.pos;
            let n = st.exprs.len();
            let inclusive = ts[p + 1].kind == TokenKind::DotDotEqual;
            let exprs = st.exprs
                .push(atom_node(ts[p]))
                .push(atom_node(ts[p + 2]))
                .push(ExprView::Range { start: n, end: n + 1, inclusive });
            expression(ts, st) == (PState { pos: p + 3, exprs, stmts: st.stmts }, Ok::<nat, Seq<char>>(n + 2))
        }),
{
    let p = st.pos;
    let n = st.exprs.len();
    lemma_binary_atom(ts, st, Level::Or);
    let st1 = after_atom(ts, st);
    let sb = PState { pos: p + 2, exprs: st1.exprs, stmts: st.stmts };
    lemma_closes(ts[p + 3].kind);
    lemma_binary_atom(ts, sb, Level::Or);
    let inclusive = ts[p + 1].kind == TokenKind::DotDotEqual;
    let exprs = st.exprs
        .push(atom_node(ts[p]))
        .push(atom_node(ts[p + 2]))
        .push(ExprView::Range { start: n, end: n + 1, inclusive });
    let r = (PState { pos: p + 3, exprs, stmts: st.stmts }, Ok::<nat, Seq<char>>(n + 2));
    assert(range(ts, st) == r);
    assert(assignment(ts, st) == r);
}

/// Calls: `f(a)` makes a call node of `f` with the one argument `a`, and
/// keeps the closing parenthesis.
#[verifier::spinoff_prover]
pub proof fn law_calls(ts: Seq<SpecToken>, st: PState)
    requires
        0 <= st.pos,
        st.pos + 4 < ts.len(),
        is_atom(ts[st.pos].kind),
        ts[st.pos + 1].kind == TokenKind::LeftParen,
        is_atom(ts[st.pos + 2].kind),
        ts[st.pos + 3].kind == TokenKind::RightParen,
        closes_expression(ts[st.pos + 4].kind),
    ensures
        ({
            let p = st.pos;
            let n = st.exprs.len();
            let exprs = st.exprs
                .push(atom_node(ts[p]))
                .push(atom_node(ts[p + 2]))
                .push(ExprView::Call { callee: n, paren: ts[p + 3], arguments: seq![n + 1] });
            expression(ts, st) == (PState { pos: p + 4, exprs, stmts: st.stmts }, Ok::<nat, Seq<char>>(n + 2))
        }),
{
    reveal(consume);
    let p = st.pos;
    let n = st.exprs.len();
    let st1 = after_atom(ts, st);
    assert(primary(ts, st) == (st1, Ok::<nat, Seq<char>>(n)));
    let sa = PState { pos: p + 2, exprs: st1.exprs, stmts: st.stmts };
    lemma_expression_atom(ts, sa);
    let sa1 = after_atom(ts, sa);
    assert(args_more(ts, sa1, seq![n + 1]) == (sa1, Ok::<Seq<nat>, Seq<char>>(seq![n + 1])));
    assert(call_args(ts, sa) == (sa1, Ok::<Seq<nat>, Seq<char>>(seq![n + 1])));
    let exprs = sa1.exprs.push(ExprView::Call { callee: n, paren: ts[p + 3], arguments: seq![n + 1] });
    let r = (PState { pos: p + 4, exprs, stmts: st.stmts }, Ok::<nat, Seq<char>>(n + 2));
    assert(finish_call(ts, sa, n) == r);
    assert(call_rest(ts, r.0, n + 2) == r);
    assert(call_rest(ts, st1, n) == r);
    assert(call(ts, st) == r);
    assert(unary(ts, st) == r);
    lemma_expression_of_unary(ts, st, r);
}

/// Groupings: `(a)` makes a grouping node over `a`.
#[verifier::spinoff_prover]
pub proof fn law_groupings(ts: Seq<SpecToken>, st: PState)
    requires
        0 <= st.pos,
        st.pos + 3 < ts.len(),
        ts[st.pos].kind == TokenKind::LeftParen,
        is_atom(ts[st.pos + 1].kind),
        ts[st.pos + 2].kind == TokenKind::RightParen,
        closes_expression(ts[st.pos + 3].kind),
    ensures
        ({
            let p = st.pos;
            let n = st.exprs.len();
            let exprs = st.exprs.push(atom_node(ts[p + 1])).push(ExprView::Grouping(n));
            expression(ts, st) == (PState { pos: p + 3, exprs, stmts: st.stmts }, Ok::<nat, Seq<char>>(n + 1))
        }),
{
    reveal(consume);
    let p = st.pos;
    let n = st.exprs.len();
    let sa = PState { pos: p + 1, exprs: st.exprs, stmts: st.stmts };
    lemma_expression_atom(ts, sa);
    let exprs = st.exprs.push(atom_node(ts[p + 1])).push(ExprView::Grouping(n));
    let r = (PState { pos: p + 3, exprs, stmts: st.stmts }, Ok::<nat, Seq<char>>(n + 1));
    assert(primary(ts, st) == r);
    lemma_expression_of_primary(ts, st, r);
}

/// Literals: a number or string token makes a literal holding its text, a
/// name makes a variable, and `true`, `false` make boolean literals.
#[verifier::spinoff_prover]
pub proof fn law_literals(ts: Seq<SpecToken>, st: PState)
    requires
        0 <= st.pos,
        st.pos + 1 < ts.len(),
        is_atom(ts[st.pos].kind) || ts[st.pos].kind == TokenKind::True || ts[st.pos].kind == TokenKind::False,
        closes_expression(ts[st.pos + 1].kind),
    ensures
        ({
            let p = st.pos;
            let tok = ts[p];
            let node = match tok.kind {
                TokenKind::Number => ExprView::Literal(LitView::Number(tok.text)),
                TokenKind::String => ExprView::Literal(LitView::String(tok.text)),
                TokenKind::True => ExprView::Literal(LitView::Boolean(true)),
                TokenKind::False => ExprView::Literal(LitView::Boolean(false)),
                _ => ExprView::Variable(tok),
            };
            expression(ts, st)
                == (PState { pos: p + 1, exprs: st.exprs.push(node), stmts: st.stmts }, Ok::<nat, Seq<char>>(st.exprs.len()))
        }),
{
    let p = st.pos;
    let tok = ts[p];
    let node = match tok.kind {
        TokenKind::Number => ExprView::Literal(LitView::Number(tok.text)),
        TokenKind::String => ExprView::Literal(LitView::String(tok.text)),
        TokenKind::True => ExprView::Literal(LitView::Boolean(true)),
        TokenKind::False => ExprView::Literal(LitView::Boolean(false)),
        _ => ExprView::Variable(tok),
    };
    let r = (PState { pos: p + 1, exprs: st.exprs.push(node), stmts: st.stmts }, Ok::<nat, Seq<char>>(st.exprs.len()));
    assert(primary(ts, st) == r);
    lemma_expression_of_primary(ts, st, r);
}

// ---------------------------------------------------------------------------
// Statements
// ---------------------------------------------------------------------------

/// `print a;` is a print statement of `a`; `a;` alone is an expression
/// statement; without the `;`, the error names the token found instead.
#[verifier::spinoff_prover]
pub proof fn law_print_and_expression_statements(ts: Seq<SpecToken>, st: PState)
    requires
        0 <= st.pos,
        st.pos + 2 < ts.len(),
    ensures
        ({
            let p = st.pos;
            let n = st.exprs.len();
            &&& ts[p].kind == TokenKind::Print && is_atom(ts[p + 1].kind) && ts[p + 2].kind == TokenKind::Semicolon
                ==> declaration(ts, st) == (
                    PState { pos: p + 3, exprs: st.exprs.push(atom_node(ts[p + 1])), stmts: st.stmts },
                    Ok::<StmtView, Seq<char>>(StmtView::Print(n)),
                )
            &&& is_atom(ts[p].kind) && ts[p + 1].kind == TokenKind::Semicolon
                ==> declaration(ts, st) == (
                    PState { pos: p + 2, exprs: st.exprs.push(atom_node(ts[p])), stmts: st.stmts },
                    Ok::<StmtView, Seq<char>>(StmtView::Expression(n)),
                )
            &&& is_atom(ts[p].kind) && closes_expression(ts[p + 1].kind) && ts[p + 1].kind != TokenKind::Semicolon
                && ts[p + 1].kind != TokenKind::Eof
                ==> declaration(ts, st) == (
                    PState { pos: p + 1, exprs: st.exprs.push(atom_node(ts[p])), stmts: st.stmts },
                    Err::<StmtView, Seq<char>>(report_text(
                        ts[p + 1].line,
                        Some(" at '"@ + ts[p + 1].lexeme + "'"@),
                        "Expect ';' after expression."@,
                    )),
                )
        }),
{
    reveal(consume);
    reveal(error_at);
    let p = st.pos;
    if ts[p].kind == TokenKind::Print && is_atom(ts[p + 1].kind) && ts[p + 2].kind == TokenKind::Semicolon {
        let sa = PState { pos: p + 1, exprs: st.exprs, stmts: st.stmts };
        lemma_expression_atom(ts, sa);
        assert(print_stmt(ts, sa).0.pos == p + 3);
        assert(statement(ts, st) == print_stmt(ts, sa));
    }
    if is_atom(ts[p].kind) && closes_expression(ts[p + 1].kind) {
        lemma_expression_atom(ts, st);
        assert(statement(ts, st) == expression_stmt(ts, st));
    }
}

/// `let x = a;` declares `x` with the value `a`; `let x;` declares `x`
/// with none.
#[verifier::spinoff_prover]
pub proof fn law_variable_declarations(ts: Seq<SpecToken>, st: PState)
    requires
        0 <= st.pos,
        st.pos + 2 < ts.len(),
        ts[st.pos].kind == TokenKind::Let,
        ts[st.pos + 1].kind == TokenKind::Identifier,
    ensures
        ({
            let p = st.pos;
            let n = st.exprs.len();
            &&& ts[p + 2].kind == TokenKind::Semicolon
                ==> declaration(ts, st) == (
                    PState { pos: p + 3, exprs: st.exprs, stmts: st.stmts },
                    Ok::<StmtView, Seq<char>>(StmtView::Var { name: ts[p + 1], initializer: None }),
                )
            &&& p + 4 < ts.len() && ts[p + 2].kind == TokenKind::Equal && is_atom(ts[p + 3].kind)
                && ts[p + 4].kind == TokenKind::Semicolon
                ==> declaration(ts, st) == (
                    PState { pos: p + 5, exprs: st.exprs.push(atom_node(ts[p + 3])), stmts: st.stmts },
                    Ok::<StmtView, Seq<char>>(StmtView::Var { name: ts[p + 1], initializer: Some(n) }),
                )
        }),
{
    reveal(consume);
    reveal(consume_identifier);
    let p = st.pos;
    let sx = PState { pos: p + 1, exprs: st.exprs, stmts: st.stmts };
    if p + 4 < ts.len() && ts[p + 2].kind == TokenKind::Equal && is_atom(ts[p + 3].kind)
        && ts[p + 4].kind == TokenKind::Semicolon {
        let sa = PState { pos: p + 3, exprs: st.exprs, stmts: st.stmts };
        lemma_expression_atom(ts, sa);
    }
    assert(declaration(ts, st) == var_declaration(ts, sx));
}

/// A block whose last item has no `;` gives that item as its value:
/// `{ a }` is a block with no statements and the value `a`.
#[verifier::spinoff_prover]
pub proof fn law_block_value(ts: Seq<SpecToken>, st: PState)
    requires
        0 <= st.pos,
        st.pos + 2 < ts.len(),
        ts[st.pos].kind == TokenKind::LeftBrace,
        is_atom(ts[st.pos + 1].kind),
        ts[st.pos + 2].kind == TokenKind::RightBrace,
    ensures
        ({
            let p = st.pos;
            let n = st.exprs.len();
            let exprs = st.exprs.push(atom_node(ts[p + 1])).push(ExprView::Block { stmts: Seq::empty(), expr: Some(n) });
            block(ts, st) == (PState { pos: p + 3, exprs, stmts: st.stmts }, Ok::<nat, Seq<char>>(n + 1))
        }),
{
    reveal(consume);
    let p = st.pos;
    let sa = PState { pos: p + 1, exprs: st.exprs, stmts: st.stmts };
    lemma_expression_atom(ts, sa);
    let sa1 = after_atom(ts, sa);
    assert(block_items(ts, sa, Seq::empty())
        == (sa1, Ok::<(Seq<nat>, Option<nat>), Seq<char>>((Seq::empty(), Some(st.exprs.len())))));
}

/// Error recovery skips tokens up to the end of the file, up to just after
/// a `;`, or up to just before a keyword that starts a declaration or a
/// statement (`class`, `for`, `fn`, `if`, `print`, `return`, `let`, `while`),
/// whichever comes first; any other token is skipped.
#[verifier::spinoff_prover]
pub proof fn law_recovery_stops(ts: Seq<SpecToken>, pos: int)
    requires
        0 <= pos < ts.len(),
    ensures
        ({
            let k = ts[pos].kind;
            let stops = k == TokenKind::Eof || (pos >= 1 && ts[pos - 1].kind == TokenKind::Semicolon)
                || k == TokenKind::Class || k == TokenKind::For || k == TokenKind::Fn || k == TokenKind::If
                || k == TokenKind::Print || k == TokenKind::Return || k == TokenKind::Let || k == TokenKind::While;
            &&& stops ==> sync_rest(ts, pos) == pos
            &&& !stops ==> sync_rest(ts, pos) == sync_rest(ts, pos + 1)
        }),
{
}

/// A declaration in a block is a statement of the block: `{ let x = a; }`
/// holds one statement, the declaration, and has no value.
#[verifier::spinoff_prover]
pub proof fn law_declaration_in_block(ts: Seq<SpecToken>, st: PState)
    requires
        0 <= st.pos,
        st.pos + 6 < ts.len(),
        ts[st.pos].kind == TokenKind::LeftBrace,
        ts[st.pos + 1].kind == TokenKind::Let,
        ts[st.pos + 2].kind == TokenKind::Identifier,
        ts[st.pos + 3].kind == TokenKind::Equal,
        is_atom(ts[st.pos + 4].kind),
        ts[st.pos + 5].kind == TokenKind::Semicolon,
        ts[st.pos + 6].kind == TokenKind::RightBrace,
    ensures
        ({
            let p = st.pos;
            let n = st.exprs.len();
            let m = st.stmts.len();
            let exprs = st.exprs.push(atom_node(ts[p + 4])).push(ExprView::Block { stmts: seq![m], expr: None });
            let stmts = st.stmts.push(StmtView::Var { name: ts[p + 2], initializer: Some(n) });
            block(ts, st) == (PState { pos: p + 7, exprs, stmts }, Ok::<nat, Seq<char>>(n + 1))
        }),
{
    reveal(consume);
    let p = st.pos;
    let n = st.exprs.len();
    let m = st.stmts.len();
    let sd = PState { pos: p + 1, exprs: st.exprs, stmts: st.stmts };
    law_variable_declarations(ts, sd);
    let s1 = PState { pos: p + 6, exprs: st.exprs.push(atom_node(ts[p + 4])), stmts: st.stmts.push(StmtView::Var { name: ts[p + 2], initializer: Some(n) }) };
    assert(block_items(ts, s1, seq![m]) == (s1, Ok::<(Seq<nat>, Option<nat>), Seq<char>>((seq![m], None))));
    assert(Seq::<nat>::empty().push(m) == seq![m]);
    assert(block_items(ts, sd, Seq::empty()) == (s1, Ok::<(Seq<nat>, Option<nat>), Seq<char>>((seq![m], None))));
}

// ---------------------------------------------------------------------------
// Errors in expressions
// ---------------------------------------------------------------------------

proof fn lemma_binary_of_unary_err(ts: Seq<SpecToken>, st: PState, lv: Level, r: (PState, Result<nat, Seq<char>>))
    requires
        valid(ts, st),
        unary(ts, st) == r,
        r.1 is Err,
    ensures
        binary(ts, st, lv) == r,
    decreases crate::parser::grammar::level_rank(lv),
{
    match lv {
        Level::Factor => {},
        Level::Term => { lemma_binary_of_unary_err(ts, st, Level::Factor, r); },
        Level::Comparison => { lemma_binary_of_unary_err(ts, st, Level::Term, r); },
        Level::Equality => { lemma_binary_of_unary_err(ts, st, Level::Comparison, r); },
        Level::And => { lemma_binary_of_unary_err(ts, st, Level::Equality, r); },
        Level::Or => { lemma_binary_of_unary_err(ts, st, Level::And, r); },
    }
    assert(operand(ts, st, lv) == r);
}

/// A token that cannot start an expression: no literal, name, `(`, `{`,
/// `if`, prefix operator, and not the end of the file.
pub open spec fn starts_no_expression(k: TokenKind) -> bool {
    !is_atom(k) && k != TokenKind::True && k != TokenKind::False && k != TokenKind::Unit
        && k != TokenKind::LeftParen && k != TokenKind::LeftBrace && k != TokenKind::If
        && k != TokenKind::Bang && k != TokenKind::Minus && k != TokenKind::Eof
}

/// Where an expression must start but the token cannot start one, the
/// error names that token: `[line L] Error  at 'lexeme': Expect expression.`
#[verifier::spinoff_prover]
pub proof fn law_expect_expression(ts: Seq<SpecToken>, st: PState)
    requires
        0 <= st.pos < ts.len(),
        starts_no_expression(ts[st.pos].kind),
    ensures
        expression(ts, st).1 == Err::<nat, Seq<char>>(report_text(
            ts[st.pos].line,
            Some(" at '"@ + ts[st.pos].lexeme + "'"@),
            "Expect expression."@,
        )),
{
    reveal(error_at);
    let r = primary(ts, st);
    assert(r.1 is Err);
    assert(call(ts, st) == r);
    assert(unary(ts, st) == r);
    lemma_binary_of_unary_err(ts, st, Level::Or, r);
    assert(range(ts, st) == r);
    assert(assignment(ts, st) == r);
}

/// The type a name stands for in an annotation.
pub open spec fn named_type(w: Seq<char>) -> TypeView {
    if w == seq!['i', 'n', 't'] { TypeView::Int }
    else if w == seq!['f', 'l', 'o', 'a', 't'] { TypeView::Float }
    else if w == seq!['s', 't', 'r', 'i', 'n', 'g'] { TypeView::String }
    else if w == seq!['b', 'o', 'o', 'l'] { TypeView::Bool }
    else if w == seq!['u', 'n', 'i', 't'] { TypeView::Unit }
    else { TypeView::Named(w) }
}

/// Type annotations: `()` is the unit type; a name is `int`, `float`,
/// `string`, `bool` or `unit` when spelled so, and otherwise a named type.
#[verifier::spinoff_prover]
pub proof fn law_type_names(ts: Seq<SpecToken>, pos: int, message: Seq<char>)
    requires
        0 <= pos,
        pos + 1 < ts.len(),
    ensures
        ts[pos].kind == TokenKind::LeftParen && ts[pos + 1].kind == TokenKind::RightParen
            ==> parse_type(ts, pos, message) == (pos + 2, Ok::<TypeView, Seq<char>>(TypeView::Unit)),
        ts[pos].kind == TokenKind::Identifier
            ==> parse_type(ts, pos, message) == (pos + 1, Ok::<TypeView, Seq<char>>(named_type(ts[pos].lexeme))),
{
    reveal(consume);
    reveal(consume_identifier);
    reveal_strlit("int");
    reveal_strlit("float");
    reveal_strlit("string");
    reveal_strlit("bool");
    reveal_strlit("unit");
    let w = ts[pos].lexeme;
    assert(("int"@ == w) == (w == seq!['i', 'n', 't'])) by {
        if w == seq!['i', 'n', 't'] { assert("int"@ =~= w); }
        if "int"@ == w { assert(w =~= seq!['i', 'n', 't']); }
    }
    assert(("float"@ == w) == (w == seq!['f', 'l', 'o', 'a', 't'])) by {
        if w == seq!['f', 'l', 'o', 'a', 't'] { assert("float"@ =~= w); }
        if "float"@ == w { assert(w =~= seq!['f', 'l', 'o', 'a', 't']); }
    }
    assert(("string"@ == w) == (w == seq!['s', 't', 'r', 'i', 'n', 'g'])) by {
        if w == seq!['s', 't', 'r', 'i', 'n', 'g'] { assert("string"@ =~= w); }
        if "string"@ == w { assert(w =~= seq!['s', 't', 'r', 'i', 'n', 'g']); }
    }
    assert(("bool"@ == w) == (w == seq!['b', 'o', 'o', 'l'])) by {
        if w == seq!['b', 'o', 'o', 'l'] { assert("bool"@ =~= w); }
        if "bool"@ == w { assert(w =~= seq!['b', 'o', 'o', 'l']); }
    }
    assert(("unit"@ == w) == (w == seq!['u', 'n', 'i', 't'])) by {
        if w == seq!['u', 'n', 'i', 't'] { assert("unit"@ =~= w); }
        if "unit"@ == w { assert(w =~= seq!['u', 'n', 'i', 't']); }
    }
}

/// `for` loops: `for x in a b;` loops `x` over `a` with the body `b;`; the
/// body is added as a statement of its own just before the loop.
#[verifier::spinoff_prover]
#[verifier::rlimit(80)]
pub proof fn law_for_loops(ts: Seq<SpecToken>, st: PState)
    requires
        0 <= st.pos,
        st.pos + 5 < ts.len(),
        ts[st.pos].kind == TokenKind::For,
        ts[st.pos + 1].kind == TokenKind::Identifier,
        ts[st.pos + 2].kind == TokenKind::In,
        is_atom(ts[st.pos + 3].kind),
        is_atom(ts[st.pos + 4].kind),
        ts[st.pos + 5].kind == TokenKind::Semicolon,
    ensures
        ({
            let p = st.pos;
            let n = st.exprs.len();
            let m = st.stmts.len();
            declaration(ts, st) == (
                PState {
                    pos: p + 6,
                    exprs: st.exprs.push(atom_node(ts[p + 3])).push(atom_node(ts[p + 4])),
                    stmts: st.stmts.push(StmtView::Expression(n + 1)),
                },
                Ok::<StmtView, Seq<char>>(StmtView::For { variable: ts[p + 1], iterable: n, body: m }),
            )
        }),
{
    reveal(consume);
    reveal(consume_identifier);
    let p = st.pos;
    let n = st.exprs.len();
    let sa = PState { pos: p + 3, exprs: st.exprs, stmts: st.stmts };
    lemma_expression_atom(ts, sa);
    let sb = PState { pos: p + 4, exprs: after_atom(ts, sa).exprs, stmts: st.stmts };
    lemma_expression_atom(ts, sb);
    let body = (
        PState { pos: p + 6, exprs: sb.exprs.push(atom_node(ts[p + 4])), stmts: st.stmts },
        Ok::<StmtView, Seq<char>>(StmtView::Expression(n + 1)),
    );
    assert(statement(ts, sb) == expression_stmt(ts, sb));
    assert(statement(ts, sb) == body);
    let sf = PState { pos: p + 1, exprs: st.exprs, stmts: st.stmts };
    assert(consume_identifier_st(ts, sf, "Expected an identifier."@).0.pos == p + 2);
    assert(statement(ts, st) == for_stmt(ts, sf));
}

/// `while` loops: `while a b;` repeats `b;` while `a` holds; the body is
/// added as a statement of its own just before the loop.
#[verifier::spinoff_prover]
#[verifier::rlimit(80)]
pub proof fn law_while_loops(ts: Seq<SpecToken>, st: PState)
    requires
        0 <= st.pos,
        st.pos + 3 < ts.len(),
        ts[st.pos].kind == TokenKind::While,
        is_atom(ts[st.pos + 1].kind),
        is_atom(ts[st.pos + 2].kind),
        ts[st.pos + 3].kind == TokenKind::Semicolon,
    ensures
        ({
            let p = st.pos;
            let n = st.exprs.len();
            let m = st.stmts.len();
            declaration(ts, st) == (
                PState {
                    pos: p + 4,
                    exprs: st.exprs.push(atom_node(ts[p + 1])).push(atom_node(ts[p + 2])),
                    stmts: st.stmts.push(StmtView::Expression(n + 1)),
                },
                Ok::<StmtView, Seq<char>>(StmtView::While { condition: n, body: m }),
            )
        }),
{
    reveal(consume);
    let p = st.pos;
    let n = st.exprs.len();
    let sa = PState { pos: p + 1, exprs: st.exprs, stmts: st.stmts };
    lemma_expression_atom(ts, sa);
    let sb = PState { pos: p + 2, exprs: after_atom(ts, sa).exprs, stmts: st.stmts };
    lemma_expression_atom(ts, sb);
    assert(statement(ts, sb) == expression_stmt(ts, sb));
    assert(statement(ts, st) == while_stmt(ts, sa));
}

/// Function declarations: `fn f(mut x: t) -> r { }` declares `f` with the
/// one parameter `x`, changeable and of type `t`, the return type `r`,
/// and an empty block as its body; `fn f() { }` declares `f` with no
/// parameters and no return type.
#[verifier::spinoff_prover]
#[verifier::rlimit(80)]
pub proof fn law_function_declarations(ts: Seq<SpecToken>, st: PState)
    requires
        0 <= st.pos,
        st.pos + 5 < ts.len(),
        ts[st.pos].kind == TokenKind::Fn,
        ts[st.pos + 1].kind == TokenKind::Identifier,
        ts[st.pos + 2].kind == TokenKind::LeftParen,
    ensures
        ({
            let p = st.pos;
            let n = st.exprs.len();
            let body = ExprView::Block { stmts: Seq::empty(), expr: None };
            &&& ts[p + 3].kind == TokenKind::RightParen && ts[p + 4].kind == TokenKind::LeftBrace
                && ts[p + 5].kind == TokenKind::RightBrace
                ==> declaration(ts, st) == (
                    PState { pos: p + 6, exprs: st.exprs.push(body), stmts: st.stmts },
                    Ok::<StmtView, Seq<char>>(StmtView::Function {
                        name: ts[p + 1], params: Seq::empty(), body: n, return_type: None,
                    }),
                )
            &&& p + 10 < ts.len() && ts[p + 3].kind == TokenKind::Mut && ts[p + 4].kind == TokenKind::Identifier
                && ts[p + 5].kind == TokenKind::Colon && ts[p + 6].kind == TokenKind::Identifier
                && ts[p + 7].kind == TokenKind::RightParen && ts[p + 8].kind == TokenKind::Arrow
                && ts[p + 9].kind == TokenKind::Identifier && ts[p + 10].kind == TokenKind::LeftBrace
                && p + 11 < ts.len() && ts[p + 11].kind == TokenKind::RightBrace
                ==> declaration(ts, st) == (
                    PState { pos: p + 12, exprs: st.exprs.push(body), stmts: st.stmts },
                    Ok::<StmtView, Seq<char>>(StmtView::Function {
                        name: ts[p + 1],
                        params: seq![ParamView { name: ts[p + 4], is_mut: true, type_annotation: Some(named_type(ts[p + 6].lexeme)) }],
                        body: n,
                        return_type: Some(named_type(ts[p + 9].lexeme)),
                    }),
                )
        }),
{
    reveal(consume);
    reveal(consume_identifier);
    let p = st.pos;
    let n = st.exprs.len();
    let sf = PState { pos: p + 1, exprs: st.exprs, stmts: st.stmts };
    assert(declaration(ts, st) == function(ts, sf));
    if ts[p + 3].kind == TokenKind::RightParen && ts[p + 4].kind == TokenKind::LeftBrace
        && ts[p + 5].kind == TokenKind::RightBrace {
        let sb = PState { pos: p + 4, exprs: st.exprs, stmts: st.stmts };
        let sb1 = PState { pos: p + 5, exprs: st.exprs, stmts: st.stmts };
        assert(block_items(ts, sb1, Seq::empty()) == (sb1, Ok::<(Seq<nat>, Option<nat>), Seq<char>>((Seq::empty(), None))));
        assert(params(ts, p + 3) == (p + 3, Ok::<Seq<ParamView>, Seq<char>>(Seq::empty())));
        assert(return_type(ts, p + 4) == (p + 4, Ok::<Option<TypeView>, Seq<char>>(None)));
    }
    if p + 10 < ts.len() && ts[p + 3].kind == TokenKind::Mut && ts[p + 4].kind == TokenKind::Identifier
        && ts[p + 5].kind == TokenKind::Colon && ts[p + 6].kind == TokenKind::Identifier
        && ts[p + 7].kind == TokenKind::RightParen && ts[p + 8].kind == TokenKind::Arrow
        && ts[p + 9].kind == TokenKind::Identifier && ts[p + 10].kind == TokenKind::LeftBrace
        && p + 11 < ts.len() && ts[p + 11].kind == TokenKind::RightBrace {
        law_type_names(ts, p + 6, "Expected parameter type identifier."@);
        law_type_names(ts, p + 9, "Expected return type."@);
        let pv = ParamView { name: ts[p + 4], is_mut: true, type_annotation: Some(named_type(ts[p + 6].lexeme)) };
        assert(param(ts, p + 3) == (p + 7, Ok::<ParamView, Seq<char>>(pv)));
        assert(params_more(ts, p + 7, seq![pv]) == (p + 7, Ok::<Seq<ParamView>, Seq<char>>(seq![pv])));
        assert(params(ts, p + 3) == (p + 7, Ok::<Seq<ParamView>, Seq<char>>(seq![pv])));
        assert(return_type(ts, p + 8) == (p + 10, Ok::<Option<TypeView>, Seq<char>>(Some(named_type(ts[p + 9].lexeme)))));
        let sb1 = PState { pos: p + 11, exprs: st.exprs, stmts: st.stmts };
        assert(block_items(ts, sb1, Seq::empty()) == (sb1, Ok::<(Seq<nat>, Option<nat>), Seq<char>>((Seq::empty(), None))));
    }
}

} // verus!
