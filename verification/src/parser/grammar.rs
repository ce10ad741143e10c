//! The grammar of the language, as functions on token sequences that
//! thread the parser's state: the position in the tokens and the arena
//! of expressions and statements built so far.
use vstd::prelude::*;
use crate::ast::{ExprView, LitView, ParamView, StmtView, TypeView};
use crate::diagnostics::report_text;
use crate::lexer::token::{SpecToken, TokenKind};

verus! {

/// The state of the parser: where it is, and what it has built.
pub struct PState {
    pub pos: int,
    pub exprs: Seq<ExprView>,
    pub stmts: Seq<StmtView>,
}

/// The precedence levels of binary operators, loosest first.
#[derive(Clone, Copy, PartialEq, Eq, Structural)]
pub enum Level {
    Or,
    And,
    Equality,
    Comparison,
    Term,
    Factor,
}

/// The place of a level in the order in which the grammar's steps call
/// each other; looser levels call tighter ones.
pub open spec fn level_rank(lv: Level) -> int {
    match lv {
        Level::Or => 21,
        Level::And => 19,
        Level::Equality => 17,
        Level::Comparison => 15,
        Level::Term => 13,
        Level::Factor => 11,
    }
}

/// The operators of a level.
pub open spec fn is_level_op(lv: Level, k: TokenKind) -> bool {
    match lv {
        Level::Or => k == TokenKind::Or,
        Level::And => k == TokenKind::And,
        Level::Equality => k == TokenKind::BangEqual || k == TokenKind::EqualEqual,
        Level::Comparison => k == TokenKind::Greater || k == TokenKind::GreaterEqual
            || k == TokenKind::Less || k == TokenKind::LessEqual,
        Level::Term => k == TokenKind::Minus || k == TokenKind::Plus,
        Level::Factor => k == TokenKind::Slash || k == TokenKind::Star,
    }
}

/// The node that joins two operands at a level: `and` and `or` make
/// logical nodes, the rest binary ones.
pub open spec fn level_node(lv: Level, left: nat, op: SpecToken, right: nat) -> ExprView {
    match lv {
        Level::Or => ExprView::Logical { left, operator: op, right },
        Level::And => ExprView::Logical { left, operator: op, right },
        _ => ExprView::Binary { left, operator: op, right },
    }
}

/// There is an end-of-file token at or after `pos`.
pub open spec fn eof_ahead(ts: Seq<SpecToken>, pos: int) -> bool {
    exists|e: int| pos <= e < ts.len() && ts[e].kind == TokenKind::Eof
}

/// Whether the state's position names a token.
pub open spec fn valid(ts: Seq<SpecToken>, st: PState) -> bool {
    0 <= st.pos < ts.len()
}

/// Whether the current token ends the file.
pub open spec fn at_end(ts: Seq<SpecToken>, st: PState) -> bool {
    ts[st.pos].kind == TokenKind::Eof
}

/// Whether the current token has kind `k` (never so at the end of the file).
pub open spec fn check(ts: Seq<SpecToken>, st: PState, k: TokenKind) -> bool {
    !at_end(ts, st) && ts[st.pos].kind == k
}

/// The state moved to position `pos`.
pub open spec fn moved(st: PState, pos: int) -> PState {
    PState { pos, exprs: st.exprs, stmts: st.stmts }
}

/// The state moved past the current token, unless it ends the file.
pub open spec fn advance(ts: Seq<SpecToken>, st: PState) -> PState {
    if at_end(ts, st) { st } else { moved(st, st.pos + 1) }
}

/// The state with `e` added to the arena, and the index it gets.
pub open spec fn add_expr(st: PState, e: ExprView) -> (PState, nat) {
    (PState { pos: st.pos, exprs: st.exprs.push(e), stmts: st.stmts }, st.exprs.len())
}

/// The state with `s` added to the arena, and the index it gets.
pub open spec fn add_stmt(st: PState, s: StmtView) -> (PState, nat) {
    (PState { pos: st.pos, exprs: st.exprs, stmts: st.stmts.push(s) }, st.stmts.len())
}

/// A step that ends by adding the expression `e`.
pub open spec fn new_expr(st: PState, e: ExprView) -> (PState, Result<nat, Seq<char>>) {
    (add_expr(st, e).0, Ok(add_expr(st, e).1))
}

/// ` at 'lexeme'`
pub open spec fn at_text(tok: SpecToken) -> Seq<char> {
    " at '"@ + tok.lexeme + "'"@
}

/// An error reported at a token.
#[verifier::opaque]
pub open spec fn error_at(tok: SpecToken, message: Seq<char>) -> Seq<char> {
    report_text(tok.line, Some(at_text(tok)), message)
}

/// The outcome given for a state that no step reaches: a position outside
/// the tokens, or one that did not move where it must.
pub open spec fn junk<T>(st: PState) -> (PState, Result<T, Seq<char>>) {
    (st, Err(Seq::empty()))
}

/// Consumes a token of kind `k` at `pos`, or reports `message` at the token there.
#[verifier::opaque]
pub open spec fn consume(ts: Seq<SpecToken>, pos: int, k: TokenKind, message: Seq<char>) -> (int, Result<SpecToken, Seq<char>>) {
    if ts[pos].kind != TokenKind::Eof && ts[pos].kind == k {
        (pos + 1, Ok(ts[pos]))
    } else if k == TokenKind::Eof {
        (pos, Err(report_text(ts[pos].line, Some(" at end"@), message)))
    } else {
        (pos, Err(error_at(ts[pos], message)))
    }
}

/// Consumes an identifier at `pos`, or reports `message` at the token there.
#[verifier::opaque]
pub open spec fn consume_identifier(ts: Seq<SpecToken>, pos: int, message: Seq<char>) -> (int, Result<SpecToken, Seq<char>>) {
    if ts[pos].kind == TokenKind::Identifier {
        (pos + 1, Ok(ts[pos]))
    } else {
        (pos, Err(error_at(ts[pos], message)))
    }
}

/// `consume` on a whole state.
pub open spec fn consume_st(ts: Seq<SpecToken>, st: PState, k: TokenKind, message: Seq<char>) -> (PState, Result<SpecToken, Seq<char>>) {
    (moved(st, consume(ts, st.pos, k, message).0), consume(ts, st.pos, k, message).1)
}

/// `consume_identifier` on a whole state.
pub open spec fn consume_identifier_st(ts: Seq<SpecToken>, st: PState, message: Seq<char>) -> (PState, Result<SpecToken, Seq<char>>) {
    (moved(st, consume_identifier(ts, st.pos, message).0), consume_identifier(ts, st.pos, message).1)
}

/// The kind of the token at `pos` is `k`, and it is not the end of the file.
pub open spec fn check_at(ts: Seq<SpecToken>, pos: int, k: TokenKind) -> bool {
    ts[pos].kind != TokenKind::Eof && ts[pos].kind == k
}

/// The type that a type name stands for.
pub open spec fn type_of_name(w: Seq<char>) -> TypeView {
    if w == "int"@ { TypeView::Int }
    else if w == "float"@ { TypeView::Float }
    else if w == "string"@ { TypeView::String }
    else if w == "bool"@ { TypeView::Bool }
    else if w == "unit"@ { TypeView::Unit }
    else { TypeView::Named(w) }
}

/// type := "(" ")" | IDENTIFIER
pub open spec fn parse_type(ts: Seq<SpecToken>, pos: int, message: Seq<char>) -> (int, Result<TypeView, Seq<char>>) {
    if check_at(ts, pos, TokenKind::LeftParen) {
        let (p1, r) = consume(ts, pos + 1, TokenKind::RightParen, "Expected ')' to close unit type."@);
        match r {
            Ok(_) => (p1, Ok(TypeView::Unit)),
            Err(m) => (p1, Err(m)),
        }
    } else {
        let (p1, r) = consume_identifier(ts, pos, message);
        match r {
            Ok(tok) => (p1, Ok(type_of_name(tok.lexeme))),
            Err(m) => (p1, Err(m)),
        }
    }
}

/// param := "mut"? IDENTIFIER (":" type)?
pub open spec fn param(ts: Seq<SpecToken>, pos: int) -> (int, Result<ParamView, Seq<char>>) {
    let is_mut = check_at(ts, pos, TokenKind::Mut);
    let p1 = if is_mut { pos + 1 } else { pos };
    let (p2, rn) = consume_identifier(ts, p1, "Expect parameter name."@);
    match rn {
        Err(m) => (p2, Err(m)),
        Ok(name) => if check_at(ts, p2, TokenKind::Colon) {
            let (p3, rt) = parse_type(ts, p2 + 1, "Expected parameter type identifier."@);
            match rt {
                Err(m) => (p3, Err(m)),
                Ok(t) => (p3, Ok(ParamView { name, is_mut, type_annotation: Some(t) })),
            }
        } else {
            (p2, Ok(ParamView { name, is_mut, type_annotation: None }))
        },
    }
}

/// More parameters, each after a comma.
pub open spec fn params_more(ts: Seq<SpecToken>, pos: int, acc: Seq<ParamView>) -> (int, Result<Seq<ParamView>, Seq<char>>)
    decreases ts.len() - pos,
{
    if !(0 <= pos < ts.len()) {
        (pos, Err(Seq::empty()))
    } else if check_at(ts, pos, TokenKind::Comma) {
        let (p1, r) = param(ts, pos + 1);
        match r {
            Err(m) => (p1, Err(m)),
            Ok(p) => if pos < p1 <= ts.len() { params_more(ts, p1, acc.push(p)) } else { (p1, Err(Seq::empty())) },
        }
    } else {
        (pos, Ok(acc))
    }
}

/// params := (param ("," param)*)?
pub open spec fn params(ts: Seq<SpecToken>, pos: int) -> (int, Result<Seq<ParamView>, Seq<char>>) {
    if !check_at(ts, pos, TokenKind::RightParen) {
        let (p1, r) = param(ts, pos);
        match r {
            Err(m) => (p1, Err(m)),
            Ok(p) => params_more(ts, p1, seq![p]),
        }
    } else {
        (pos, Ok(Seq::empty()))
    }
}

/// The optional return type of a function: "->" type.
pub open spec fn return_type(ts: Seq<SpecToken>, pos: int) -> (int, Result<Option<TypeView>, Seq<char>>) {
    if check_at(ts, pos, TokenKind::Arrow) {
        let (p1, r) = parse_type(ts, pos + 1, "Expected return type."@);
        (p1, match r { Ok(t) => Ok(Some(t)), Err(m) => Err(m) })
    } else {
        (pos, Ok(None))
    }
}

/// declaration := "fn" function | "let" var_declaration | statement
pub open spec fn declaration(ts: Seq<SpecToken>, st: PState) -> (PState, Result<StmtView, Seq<char>>)
    decreases ts.len() - st.pos, 30int,
{
    if !valid(ts, st) {
        junk(st)
    } else if check(ts, st, TokenKind::Fn) {
        function(ts, advance(ts, st))
    } else if check(ts, st, TokenKind::Let) {
        var_declaration(ts, advance(ts, st))
    } else {
        statement(ts, st)
    }
}

/// statement := "for" for_stmt | "print" print_stmt | "return" return_stmt
///            | "while" while_stmt | expression_stmt
pub open spec fn statement(ts: Seq<SpecToken>, st: PState) -> (PState, Result<StmtView, Seq<char>>)
    decreases ts.len() - st.pos, 29int,
{
    if !valid(ts, st) {
        junk(st)
    } else if check(ts, st, TokenKind::For) {
        for_stmt(ts, advance(ts, st))
    } else if check(ts, st, TokenKind::Print) {
        print_stmt(ts, advance(ts, st))
    } else if check(ts, st, TokenKind::Return) {
        return_stmt(ts, advance(ts, st))
    } else if check(ts, st, TokenKind::While) {
        while_stmt(ts, advance(ts, st))
    } else {
        expression_stmt(ts, st)
    }
}

/// for_stmt := IDENTIFIER "in" expression statement
pub open spec fn for_stmt(ts: Seq<SpecToken>, st: PState) -> (PState, Result<StmtView, Seq<char>>)
    decreases ts.len() - st.pos, 28int,
{
    if !valid(ts, st) {
        junk(st)
    } else {
        let (st1, rv) = consume_identifier_st(ts, st, "Expected an identifier."@);
        match rv {
            Err(m) => (st1, Err(m)),
            Ok(variable) => {
                let (st2, ri) = consume_st(ts, st1, TokenKind::In, "Expected 'in'."@);
                match ri {
                    Err(m) => (st2, Err(m)),
                    Ok(_) => if st.pos < st2.pos <= ts.len() {
                        let (st3, re) = expression(ts, st2);
                        match re {
                            Err(m) => (st3, Err(m)),
                            Ok(iterable) => if st.pos < st3.pos <= ts.len() {
                                let (st4, rb) = statement(ts, st3);
                                match rb {
                                    Err(m) => (st4, Err(m)),
                                    Ok(body_stmt) => {
                                        let (st5, body) = add_stmt(st4, body_stmt);
                                        (st5, Ok(StmtView::For { variable, iterable, body }))
                                    },
                                }
                            } else {
                                junk(st3)
                            },
                        }
                    } else {
                        junk(st2)
                    },
                }
            },
        }
    }
}

/// print_stmt := expression ";"
pub open spec fn print_stmt(ts: Seq<SpecToken>, st: PState) -> (PState, Result<StmtView, Seq<char>>)
    decreases ts.len() - st.pos, 28int,
{
    if !valid(ts, st) {
        junk(st)
    } else {
        let (st1, r) = expression(ts, st);
        match r {
            Err(m) => (st1, Err(m)),
            Ok(v) => {
                let (st2, rs) = consume_st(ts, st1, TokenKind::Semicolon, "Expect ';' after value."@);
                match rs {
                    Err(m) => (st2, Err(m)),
                    Ok(_) => (st2, Ok(StmtView::Print(v))),
                }
            },
        }
    }
}

/// return_stmt := expression? ";"
pub open spec fn return_stmt(ts: Seq<SpecToken>, st: PState) -> (PState, Result<StmtView, Seq<char>>)
    decreases ts.len() - st.pos, 28int,
{
    if !valid(ts, st) {
        junk(st)
    } else {
        let keyword = ts[st.pos - 1];
        let (st1, r) = if !check(ts, st, TokenKind::Semicolon) {
            expression(ts, st)
        } else {
            new_expr(st, ExprView::Literal(LitView::Unit))
        };
        match r {
            Err(m) => (st1, Err(m)),
            Ok(value) => {
                let (st2, rs) = consume_st(ts, st1, TokenKind::Semicolon, "Expect ';' after return value"@);
                match rs {
                    Err(m) => (st2, Err(m)),
                    Ok(_) => (st2, Ok(StmtView::Return { keyword, value })),
                }
            },
        }
    }
}

/// var_declaration := IDENTIFIER ("=" expression)? ";"
pub open spec fn var_declaration(ts: Seq<SpecToken>, st: PState) -> (PState, Result<StmtView, Seq<char>>)
    decreases ts.len() - st.pos, 28int,
{
    if !valid(ts, st) {
        junk(st)
    } else {
        let (st1, rn) = consume_identifier_st(ts, st, "Expect variable name."@);
        match rn {
            Err(m) => (st1, Err(m)),
            Ok(name) => {
                let (st2, ri) = if check(ts, st1, TokenKind::Equal) && st.pos < st1.pos + 1 <= ts.len() {
                    let (s, r) = expression(ts, advance(ts, st1));
                    (s, match r { Ok(e) => Ok(Some(e)), Err(m) => Err(m) })
                } else {
                    (st1, Ok(None))
                };
                match ri {
                    Err(m) => (st2, Err(m)),
                    Ok(initializer) => {
                        let (st3, rs) = consume_st(ts, st2, TokenKind::Semicolon, "Expect ';' after variable declaration."@);
                        match rs {
                            Err(m) => (st3, Err(m)),
                            Ok(_) => (st3, Ok(StmtView::Var { name, initializer })),
                        }
                    },
                }
            },
        }
    }
}

/// while_stmt := expression statement
pub open spec fn while_stmt(ts: Seq<SpecToken>, st: PState) -> (PState, Result<StmtView, Seq<char>>)
    decreases ts.len() - st.pos, 28int,
{
    if !valid(ts, st) {
        junk(st)
    } else {
        let (st1, r) = expression(ts, st);
        match r {
            Err(m) => (st1, Err(m)),
            Ok(condition) => if st.pos < st1.pos <= ts.len() {
                let (st2, rb) = statement(ts, st1);
                match rb {
                    Err(m) => (st2, Err(m)),
                    Ok(body_stmt) => {
                        let (st3, body) = add_stmt(st2, body_stmt);
                        (st3, Ok(StmtView::While { condition, body }))
                    },
                }
            } else {
                junk(st1)
            },
        }
    }
}

/// expression_stmt := expression ";"
pub open spec fn expression_stmt(ts: Seq<SpecToken>, st: PState) -> (PState, Result<StmtView, Seq<char>>)
    decreases ts.len() - st.pos, 28int,
{
    if !valid(ts, st) {
        junk(st)
    } else {
        let (st1, r) = expression(ts, st);
        match r {
            Err(m) => (st1, Err(m)),
            Ok(v) => {
                let (st2, rs) = consume_st(ts, st1, TokenKind::Semicolon, "Expect ';' after expression."@);
                match rs {
                    Err(m) => (st2, Err(m)),
                    Ok(_) => (st2, Ok(StmtView::Expression(v))),
                }
            },
        }
    }
}

/// function := IDENTIFIER "(" params ")" ("->" type)? block
pub open spec fn function(ts: Seq<SpecToken>, st: PState) -> (PState, Result<StmtView, Seq<char>>)
    decreases ts.len() - st.pos, 28int,
{
    if !valid(ts, st) {
        junk(st)
    } else {
        let (st1, rn) = consume_identifier_st(ts, st, "Expect function name."@);
        match rn {
            Err(m) => (st1, Err(m)),
            Ok(name) => {
                let (st2, rp) = consume_st(ts, st1, TokenKind::LeftParen, "Expect '(' after function name."@);
                match rp {
                    Err(m) => (st2, Err(m)),
                    Ok(_) => {
                        let (p3, rps) = params(ts, st2.pos);
                        let st3 = moved(st2, p3);
                        match rps {
                            Err(m) => (st3, Err(m)),
                            Ok(ps) => {
                                let (st4, rr) = consume_st(ts, st3, TokenKind::RightParen, "Expect ')' after parameters."@);
                                match rr {
                                    Err(m) => (st4, Err(m)),
                                    Ok(_) => {
                                        let (p5, rt) = return_type(ts, st4.pos);
                                        let st5 = moved(st4, p5);
                                        match rt {
                                            Err(m) => (st5, Err(m)),
                                            Ok(ret) => if st.pos < st5.pos <= ts.len() {
                                                let (st6, rb) = block(ts, st5);
                                                match rb {
                                                    Err(m) => (st6, Err(m)),
                                                    Ok(body) => (st6, Ok(StmtView::Function { name, params: ps, body, return_type: ret })),
                                                }
                                            } else {
                                                junk(st5)
                                            },
                                        }
                                    },
                                }
                            },
                        }
                    },
                }
            },
        }
    }
}

/// The statements of a block, and the expression that may close it.
pub open spec fn block_items(ts: Seq<SpecToken>, st: PState, stmts: Seq<nat>) -> (PState, Result<(Seq<nat>, Option<nat>), Seq<char>>)
    decreases ts.len() - st.pos, 31int,
{
    if !valid(ts, st) {
        junk(st)
    } else if !check(ts, st, TokenKind::RightBrace) && !at_end(ts, st) {
        if check(ts, st, TokenKind::Let) || check(ts, st, TokenKind::Fn) {
            let (st1, r) = declaration(ts, st);
            match r {
                Err(m) => (st1, Err(m)),
                Ok(s) => {
                    let (st2, sid) = add_stmt(st1, s);
                    if st.pos < st2.pos <= ts.len() { block_items(ts, st2, stmts.push(sid)) } else { junk(st2) }
                },
            }
        } else if check(ts, st, TokenKind::For) || check(ts, st, TokenKind::While)
            || check(ts, st, TokenKind::Print) || check(ts, st, TokenKind::Return) {
            let (st1, r) = statement(ts, st);
            match r {
                Err(m) => (st1, Err(m)),
                Ok(s) => {
                    let (st2, sid) = add_stmt(st1, s);
                    if st.pos < st2.pos <= ts.len() { block_items(ts, st2, stmts.push(sid)) } else { junk(st2) }
                },
            }
        } else {
            let (st1, r) = expression(ts, st);
            match r {
                Err(m) => (st1, Err(m)),
                Ok(e) => if check(ts, st1, TokenKind::Semicolon) {
                    let (st2, sid) = add_stmt(advance(ts, st1), StmtView::Expression(e));
                    if st.pos < st2.pos <= ts.len() { block_items(ts, st2, stmts.push(sid)) } else { junk(st2) }
                } else if check(ts, st1, TokenKind::RightBrace) {
                    (st1, Ok((stmts, Some(e))))
                } else if e < st1.exprs.len() && (st1.exprs[e as int] is If || st1.exprs[e as int] is Block) {
                    let (st2, sid) = add_stmt(st1, StmtView::Expression(e));
                    if st.pos < st2.pos <= ts.len() { block_items(ts, st2, stmts.push(sid)) } else { junk(st2) }
                } else {
                    (st1, Err(error_at(ts[st1.pos], "Expect ';' after expression."@)))
                },
            }
        }
    } else {
        (st, Ok((stmts, None)))
    }
}

/// block := "{" (declaration | statement | expression ";")* expression? "}"
pub open spec fn block(ts: Seq<SpecToken>, st: PState) -> (PState, Result<nat, Seq<char>>)
    decreases ts.len() - st.pos, 4int,
{
    if !valid(ts, st) {
        junk(st)
    } else {
        let (st1, rl) = consume_st(ts, st, TokenKind::LeftBrace, "Expect '{' before block."@);
        match rl {
            Err(m) => (st1, Err(m)),
            Ok(_) => if st.pos < st1.pos <= ts.len() {
                let (st2, rb) = block_items(ts, st1, Seq::empty());
                match rb {
                    Err(m) => (st2, Err(m)),
                    Ok(items) => {
                        let (st3, rr) = consume_st(ts, st2, TokenKind::RightBrace, "Expect '}' after block."@);
                        match rr {
                            Err(m) => (st3, Err(m)),
                            Ok(_) => new_expr(st3, ExprView::Block { stmts: items.0, expr: items.1 }),
                        }
                    },
                }
            } else {
                junk(st1)
            },
        }
    }
}

/// expression := assignment
pub open spec fn expression(ts: Seq<SpecToken>, st: PState) -> (PState, Result<nat, Seq<char>>)
    decreases ts.len() - st.pos, 24int,
{
    if !valid(ts, st) {
        junk(st)
    } else {
        assignment(ts, st)
    }
}

/// assignment := range ("=" assignment)?, where the target must be a variable
pub open spec fn assignment(ts: Seq<SpecToken>, st: PState) -> (PState, Result<nat, Seq<char>>)
    decreases ts.len() - st.pos, 23int,
{
    if !valid(ts, st) {
        junk(st)
    } else {
        let (st1, r) = range(ts, st);
        match r {
            Err(m) => (st1, Err(m)),
            Ok(e) => if valid(ts, st1) && check(ts, st1, TokenKind::Equal) {
                if st.pos < st1.pos + 1 <= ts.len() {
                    let (st2, rv) = assignment(ts, advance(ts, st1));
                    match rv {
                        Err(m) => (st2, Err(m)),
                        Ok(value) => if e < st2.exprs.len() && st2.exprs[e as int] is Variable {
                            new_expr(st2, ExprView::Assign { name: st2.exprs[e as int]->Variable_0, value })
                        } else {
                            (st2, Err("Invalid assignment target."@))
                        },
                    }
                } else {
                    junk(st1)
                }
            } else {
                (st1, Ok(e))
            },
        }
    }
}

/// range := or ((".." | "..=") or)?
pub open spec fn range(ts: Seq<SpecToken>, st: PState) -> (PState, Result<nat, Seq<char>>)
    decreases ts.len() - st.pos, 22int,
{
    if !valid(ts, st) {
        junk(st)
    } else {
        let (st1, r) = binary(ts, st, Level::Or);
        match r {
            Err(m) => (st1, Err(m)),
            Ok(e) => if valid(ts, st1) && (check(ts, st1, TokenKind::DotDot) || check(ts, st1, TokenKind::DotDotEqual)) {
                let inclusive = ts[st1.pos].kind == TokenKind::DotDotEqual;
                if st.pos < st1.pos + 1 <= ts.len() {
                    let (st2, rr) = binary(ts, advance(ts, st1), Level::Or);
                    match rr {
                        Err(m) => (st2, Err(m)),
                        Ok(right) => new_expr(st2, ExprView::Range { start: e, end: right, inclusive }),
                    }
                } else {
                    junk(st1)
                }
            } else {
                (st1, Ok(e))
            },
        }
    }
}

/// An operand of a level: the next tighter level, or a unary expression.
pub open spec fn operand(ts: Seq<SpecToken>, st: PState, lv: Level) -> (PState, Result<nat, Seq<char>>)
    decreases ts.len() - st.pos, level_rank(lv) - 1,
{
    if !valid(ts, st) {
        junk(st)
    } else {
        match lv {
            Level::Or => binary(ts, st, Level::And),
            Level::And => binary(ts, st, Level::Equality),
            Level::Equality => binary(ts, st, Level::Comparison),
            Level::Comparison => binary(ts, st, Level::Term),
            Level::Term => binary(ts, st, Level::Factor),
            Level::Factor => unary(ts, st),
        }
    }
}

/// A left-associative chain of operands joined by the operators of `lv`.
pub open spec fn binary(ts: Seq<SpecToken>, st: PState, lv: Level) -> (PState, Result<nat, Seq<char>>)
    decreases ts.len() - st.pos, level_rank(lv),
{
    if !valid(ts, st) {
        junk(st)
    } else {
        let (st1, r) = operand(ts, st, lv);
        match r {
            Err(m) => (st1, Err(m)),
            Ok(e) => if st.pos <= st1.pos <= ts.len() { binary_rest(ts, st1, e, lv) } else { junk(st1) },
        }
    }
}

/// The rest of a chain at level `lv` whose left part is `left`.
pub open spec fn binary_rest(ts: Seq<SpecToken>, st: PState, left: nat, lv: Level) -> (PState, Result<nat, Seq<char>>)
    decreases ts.len() - st.pos, level_rank(lv) - 1,
{
    if !valid(ts, st) {
        junk(st)
    } else if !at_end(ts, st) && is_level_op(lv, ts[st.pos].kind) {
        let op = ts[st.pos];
        let (st1, r) = operand(ts, advance(ts, st), lv);
        match r {
            Err(m) => (st1, Err(m)),
            Ok(right) => {
                let (st2, id) = add_expr(st1, level_node(lv, left, op, right));
                if st.pos < st2.pos <= ts.len() { binary_rest(ts, st2, id, lv) } else { junk(st2) }
            },
        }
    } else {
        (st, Ok(left))
    }
}

/// unary := ("!" | "-") unary | call
pub open spec fn unary(ts: Seq<SpecToken>, st: PState) -> (PState, Result<nat, Seq<char>>)
    decreases ts.len() - st.pos, 8int,
{
    if !valid(ts, st) {
        junk(st)
    } else if check(ts, st, TokenKind::Bang) || check(ts, st, TokenKind::Minus) {
        let operator = ts[st.pos];
        let (st1, r) = unary(ts, advance(ts, st));
        match r {
            Err(m) => (st1, Err(m)),
            Ok(right) => new_expr(st1, ExprView::Unary { operator, right }),
        }
    } else {
        call(ts, st)
    }
}

/// call := primary ("(" arguments ")")*
pub open spec fn call(ts: Seq<SpecToken>, st: PState) -> (PState, Result<nat, Seq<char>>)
    decreases ts.len() - st.pos, 7int,
{
    if !valid(ts, st) {
        junk(st)
    } else {
        let (st1, r) = primary(ts, st);
        match r {
            Err(m) => (st1, Err(m)),
            Ok(e) => if st.pos <= st1.pos <= ts.len() { call_rest(ts, st1, e) } else { junk(st1) },
        }
    }
}

/// The calls applied to `callee`.
pub open spec fn call_rest(ts: Seq<SpecToken>, st: PState, callee: nat) -> (PState, Result<nat, Seq<char>>)
    decreases ts.len() - st.pos, 6int,
{
    if !valid(ts, st) {
        junk(st)
    } else if check(ts, st, TokenKind::LeftParen) {
        let (st1, r) = finish_call(ts, advance(ts, st), callee);
        match r {
            Err(m) => (st1, Err(m)),
            Ok(id) => if st.pos < st1.pos <= ts.len() { call_rest(ts, st1, id) } else { junk(st1) },
        }
    } else {
        (st, Ok(callee))
    }
}

/// The arguments of a call and its closing parenthesis.
pub open spec fn finish_call(ts: Seq<SpecToken>, st: PState, callee: nat) -> (PState, Result<nat, Seq<char>>)
    decreases ts.len() - st.pos, 27int,
{
    if !valid(ts, st) {
        junk(st)
    } else {
        let (st1, ra) = call_args(ts, st);
        match ra {
            Err(m) => (st1, Err(m)),
            Ok(arguments) => {
                let (st2, rp) = consume_st(ts, st1, TokenKind::RightParen, "Expect ')' after arguments."@);
                match rp {
                    Err(m) => (st2, Err(m)),
                    Ok(paren) => new_expr(st2, ExprView::Call { callee, paren, arguments }),
                }
            },
        }
    }
}

/// arguments := (expression ("," expression)*)?
pub open spec fn call_args(ts: Seq<SpecToken>, st: PState) -> (PState, Result<Seq<nat>, Seq<char>>)
    decreases ts.len() - st.pos, 26int,
{
    if !valid(ts, st) {
        junk(st)
    } else if !check(ts, st, TokenKind::RightParen) {
        let (st1, r) = expression(ts, st);
        match r {
            Err(m) => (st1, Err(m)),
            Ok(a) => if st.pos < st1.pos <= ts.len() { args_more(ts, st1, seq![a]) } else { junk(st1) },
        }
    } else {
        (st, Ok(Seq::empty()))
    }
}

/// More arguments, each after a comma.
pub open spec fn args_more(ts: Seq<SpecToken>, st: PState, acc: Seq<nat>) -> (PState, Result<Seq<nat>, Seq<char>>)
    decreases ts.len() - st.pos, 25int,
{
    if !valid(ts, st) {
        junk(st)
    } else if check(ts, st, TokenKind::Comma) {
        let (st1, r) = expression(ts, advance(ts, st));
        match r {
            Err(m) => (st1, Err(m)),
            Ok(a) => if st.pos < st1.pos <= ts.len() { args_more(ts, st1, acc.push(a)) } else { junk(st1) },
        }
    } else {
        (st, Ok(acc))
    }
}

/// The else branch of an `if` expression: either `if` followed by a
/// primary expression, or a block.
pub open spec fn else_branch(ts: Seq<SpecToken>, st: PState) -> (PState, Result<nat, Seq<char>>)
    decreases ts.len() - st.pos, 6int,
{
    if !valid(ts, st) {
        junk(st)
    } else if check(ts, st, TokenKind::If) {
        primary(ts, advance(ts, st))
    } else {
        block(ts, st)
    }
}

/// primary := "false" | "true" | "()" | NUMBER | STRING | "(" expression ")"
///          | block | "if" expression block ("else" (if primary | block))?
///          | IDENTIFIER
pub open spec fn primary(ts: Seq<SpecToken>, st: PState) -> (PState, Result<nat, Seq<char>>)
    decreases ts.len() - st.pos, 5int,
{
    if !valid(ts, st) {
        junk(st)
    } else if at_end(ts, st) {
        (st, Err("Invalid token"@))
    } else {
        let tok = ts[st.pos];
        let st1 = advance(ts, st);
        match tok.kind {
            TokenKind::False => new_expr(st1, ExprView::Literal(LitView::Boolean(false))),
            TokenKind::True => new_expr(st1, ExprView::Literal(LitView::Boolean(true))),
            TokenKind::Unit => new_expr(st1, ExprView::Literal(LitView::Unit)),
            TokenKind::Number => new_expr(st1, ExprView::Literal(LitView::Number(tok.text))),
            TokenKind::String => new_expr(st1, ExprView::Literal(LitView::String(tok.text))),
            TokenKind::LeftParen => {
                let (st2, r) = expression(ts, st1);
                match r {
                    Err(m) => (st2, Err(m)),
                    Ok(e) => {
                        let (st3, rc) = consume_st(ts, st2, TokenKind::RightParen, "Expected ')' after expression."@);
                        match rc {
                            Err(m) => (st3, Err(m)),
                            Ok(_) => new_expr(st3, ExprView::Grouping(e)),
                        }
                    },
                }
            },
            TokenKind::LeftBrace => block(ts, st),
            TokenKind::If => {
                let (st2, rc) = expression(ts, st1);
                match rc {
                    Err(m) => (st2, Err(m)),
                    Ok(condition) => if st.pos < st2.pos <= ts.len() {
                        let (st3, rt) = block(ts, st2);
                        match rt {
                            Err(m) => (st3, Err(m)),
                            Ok(then_branch) => if check(ts, st3, TokenKind::Else) && st.pos < st3.pos + 1 <= ts.len() {
                                let (st4, re) = else_branch(ts, advance(ts, st3));
                                match re {
                                    Err(m) => (st4, Err(m)),
                                    Ok(eb) => new_expr(st4, ExprView::If { condition, then_branch, else_branch: Some(eb) }),
                                }
                            } else {
                                new_expr(st3, ExprView::If { condition, then_branch, else_branch: None })
                            },
                        }
                    } else {
                        junk(st2)
                    },
                }
            },
            TokenKind::Identifier => new_expr(st1, ExprView::Variable(tok)),
            _ => (st1, Err(error_at(tok, "Expect expression."@))),
        }
    }
}

/// Token kinds at which error recovery stops.
pub open spec fn is_sync_kind(k: TokenKind) -> bool {
    k == TokenKind::Class || k == TokenKind::For || k == TokenKind::Fn || k == TokenKind::If
        || k == TokenKind::Print || k == TokenKind::Return || k == TokenKind::Let || k == TokenKind::While
}

/// Skips tokens from `pos` until just after a semicolon or just before a
/// keyword that starts a declaration or statement.
pub open spec fn sync_rest(ts: Seq<SpecToken>, pos: int) -> int
    decreases ts.len() - pos,
{
    if !(0 <= pos < ts.len()) || ts[pos].kind == TokenKind::Eof {
        pos
    } else if pos >= 1 && ts[pos - 1].kind == TokenKind::Semicolon {
        pos
    } else if is_sync_kind(ts[pos].kind) {
        pos
    } else {
        sync_rest(ts, pos + 1)
    }
}

/// Error recovery: moves past the current token, then skips as `sync_rest` does.
pub open spec fn synchronize(ts: Seq<SpecToken>, pos: int) -> int {
    if ts[pos].kind == TokenKind::Eof { sync_rest(ts, pos) } else { sync_rest(ts, pos + 1) }
}

/// The declarations of a program from `st` on: the statements read, and
/// the messages of the errors met, each followed by recovery.
pub open spec fn program(ts: Seq<SpecToken>, st: PState, roots: Seq<nat>, errors: Seq<Seq<char>>) -> (PState, Seq<nat>, Seq<Seq<char>>)
    decreases ts.len() - st.pos,
{
    if !valid(ts, st) || at_end(ts, st) {
        (st, roots, errors)
    } else {
        let (st1, r) = declaration(ts, st);
        let (st2, roots2, errors2) = match r {
            Ok(s) => {
                let (st2, sid) = add_stmt(st1, s);
                (st2, roots.push(sid), errors)
            },
            Err(m) => (moved(st1, synchronize(ts, st1.pos)), roots, errors.push(m)),
        };
        if st.pos < st2.pos <= ts.len() { program(ts, st2, roots2, errors2) } else { (st2, roots2, errors2) }
    }
}

} // verus!
