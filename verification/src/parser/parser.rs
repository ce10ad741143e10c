use vstd::prelude::*;
use crate::ast::{
    AmystType, AST, ExprId, ExprKind, ExprView, ids_view, Literal, LitView, opt_id_view, opt_type_view, Param, ParamView,
    Stmt, StmtId, StmtView, stmt_exprs_below, stmt_stmts_below, TypeView, well_ordered,
};
use crate::diagnostics::{report_error, AmystError};
use crate::lexer::token::{SpecToken, Token, TokenKind, TokenType, tokens_view};
use crate::parser::grammar::{
    add_expr, add_stmt, advance, args_more, assignment, at_end, binary, binary_rest, block, block_items, call,
    call_args, call_rest, check, check_at, consume, consume_identifier, declaration, moved, else_branch, eof_ahead, error_at,
    expression, expression_stmt, finish_call, for_stmt, function, is_level_op, is_sync_kind, Level, level_node,
    level_rank, new_expr, operand, param, params, params_more, parse_type, primary, print_stmt, program, PState,
    range, return_stmt, return_type, statement, sync_rest, synchronize, type_of_name, unary, var_declaration,
    while_stmt,
};
use crate::text::{push_str, str_eq, string_of};

verus! {

/// Reads declarations, statements and expressions from tokens.
pub struct Parser<'a> {
    tokens: Vec<Token<'a>>,
    current: usize,
}

/// The error with message `m`.
pub open spec fn is_runtime(e: AmystError, m: Seq<char>) -> bool {
    e is Runtime && e->message@ == m
}

/// The grammar's state for a parser and an arena.
pub open spec fn pstate<'a>(p: Parser<'a>, ast: AST<'a>) -> PState {
    PState { pos: p.position(), exprs: ast@.exprs, stmts: ast@.stmts }
}

/// A result that matches the grammar's: the same index, or a runtime error
/// with the same message.
pub open spec fn id_rel(res: Result<ExprId, AmystError>, s: Result<nat, Seq<char>>) -> bool {
    match (res, s) {
        (Ok(i), Ok(j)) => i as nat == j,
        (Err(e), Err(m)) => is_runtime(e, m),
        _ => false,
    }
}

/// A statement result that matches the grammar's.
pub open spec fn stmt_rel<'a>(res: Result<Stmt<'a>, AmystError>, s: Result<StmtView, Seq<char>>) -> bool {
    match (res, s) {
        (Ok(a), Ok(b)) => a@ == b,
        (Err(e), Err(m)) => is_runtime(e, m),
        _ => false,
    }
}

/// A token result that matches the grammar's.
pub open spec fn tok_rel<'a>(res: Result<Token<'a>, AmystError>, s: Result<SpecToken, Seq<char>>) -> bool {
    match (res, s) {
        (Ok(a), Ok(b)) => a@ == b,
        (Err(e), Err(m)) => is_runtime(e, m),
        _ => false,
    }
}

/// What every parsing step keeps: the tokens, a position before the end of
/// the file, and an arena that only grows; and the position only moves on.
pub open spec fn kept<'a>(p0: Parser<'a>, a0: AST<'a>, p: Parser<'a>, a: AST<'a>) -> bool {
    &&& p.token_models() == p0.token_models()
    &&& eof_ahead(p.token_models(), p.position())
    &&& p.position() >= p0.position()
    &&& a@.exprs.len() >= a0@.exprs.len()
    &&& a@.stmts.len() >= a0@.stmts.len()
    &&& well_ordered(a0@) ==> well_ordered(a@)
}

/// The outcome of an expression step: the state and the result the grammar
/// gives; a result that is a valid index, reached by consuming tokens.
pub open spec fn expr_post<'a>(p0: Parser<'a>, a0: AST<'a>, p: Parser<'a>, a: AST<'a>,
    res: Result<ExprId, AmystError>, s: (PState, Result<nat, Seq<char>>)) -> bool {
    &&& kept(p0, a0, p, a)
    &&& pstate(p, a) == s.0
    &&& id_rel(res, s.1)
    &&& res is Ok ==> p.position() > p0.position() && res->Ok_0 < a@.exprs.len()
}

/// The outcome of a statement step.
pub open spec fn stmt_post<'a>(p0: Parser<'a>, a0: AST<'a>, p: Parser<'a>, a: AST<'a>,
    res: Result<Stmt<'a>, AmystError>, s: (PState, Result<StmtView, Seq<char>>)) -> bool {
    &&& kept(p0, a0, p, a)
    &&& pstate(p, a) == s.0
    &&& stmt_rel(res, s.1)
    &&& res is Ok ==> p.position() > p0.position()
    &&& res is Ok ==> stmt_exprs_below(res->Ok_0@, a@.exprs.len()) && stmt_stmts_below(res->Ok_0@, a@.stmts.len())
}


/// The outcome of a step that may consume nothing: the state and the result
/// the grammar gives, and a result that is a valid index.
pub open spec fn rest_post<'a>(p0: Parser<'a>, a0: AST<'a>, p: Parser<'a>, a: AST<'a>,
    res: Result<ExprId, AmystError>, s: (PState, Result<nat, Seq<char>>)) -> bool {
    &&& kept(p0, a0, p, a)
    &&& pstate(p, a) == s.0
    &&& id_rel(res, s.1)
    &&& res is Ok ==> res->Ok_0 < a@.exprs.len()
}

/// A list of indices that matches the grammar's.
pub open spec fn ids_rel(res: Result<Vec<ExprId>, AmystError>, s: Result<Seq<nat>, Seq<char>>) -> bool {
    match (res, s) {
        (Ok(a), Ok(b)) => ids_view(a@) == b,
        (Err(e), Err(m)) => is_runtime(e, m),
        _ => false,
    }
}

/// The items of a block that match the grammar's.
pub open spec fn items_rel(res: Result<(Vec<StmtId>, Option<ExprId>), AmystError>, s: Result<(Seq<nat>, Option<nat>), Seq<char>>) -> bool {
    match (res, s) {
        (Ok(a), Ok(b)) => ids_view(a.0@) == b.0 && opt_id_view(a.1) == b.1,
        (Err(e), Err(m)) => is_runtime(e, m),
        _ => false,
    }
}

/// A type annotation that matches the grammar's.
pub open spec fn type_rel(res: Result<AmystType, AmystError>, s: Result<TypeView, Seq<char>>) -> bool {
    match (res, s) {
        (Ok(a), Ok(b)) => a.view_type() == b,
        (Err(e), Err(m)) => is_runtime(e, m),
        _ => false,
    }
}

/// An optional type annotation that matches the grammar's.
pub open spec fn opt_type_rel(res: Result<Option<AmystType>, AmystError>, s: Result<Option<TypeView>, Seq<char>>) -> bool {
    match (res, s) {
        (Ok(a), Ok(b)) => opt_type_view(a) == b,
        (Err(e), Err(m)) => is_runtime(e, m),
        _ => false,
    }
}

/// A parameter that matches the grammar's.
pub open spec fn param_rel<'a>(res: Result<Param<'a>, AmystError>, s: Result<ParamView, Seq<char>>) -> bool {
    match (res, s) {
        (Ok(a), Ok(b)) => a@ == b,
        (Err(e), Err(m)) => is_runtime(e, m),
        _ => false,
    }
}

/// A parameter list that matches the grammar's.
pub open spec fn params_rel<'a>(res: Result<Vec<Param<'a>>, AmystError>, s: Result<Seq<ParamView>, Seq<char>>) -> bool {
    match (res, s) {
        (Ok(a), Ok(b)) => a@.map_values(|p: Param<'a>| p@) == b,
        (Err(e), Err(m)) => is_runtime(e, m),
        _ => false,
    }
}

/// A step that moves only the position.
pub open spec fn pos_post<'a>(p0: Parser<'a>, p: Parser<'a>, pos: int) -> bool {
    &&& p.token_models() == p0.token_models()
    &&& eof_ahead(p.token_models(), p.position())
    &&& p.position() == pos
    &&& pos >= p0.position()
}

proof fn lemma_eof_step(ts: Seq<SpecToken>, pos: int)
    requires
        eof_ahead(ts, pos),
        ts[pos].kind != TokenKind::Eof,
    ensures
        eof_ahead(ts, pos + 1),
        pos + 1 < ts.len(),
{
    let e = choose|e: int| pos <= e < ts.len() && ts[e].kind == TokenKind::Eof;
    assert(pos + 1 <= e);
}

fn runtime(message: String) -> (e: AmystError)
    ensures
        is_runtime(e, message@),
{
    AmystError::Runtime { message }
}

/// The error `message`, reported at `tok`.
fn error_at_token(tok: Token, message: &str) -> (e: AmystError)
    ensures
        is_runtime(e, error_at(tok@, message@)),
{
    reveal(error_at);
    let mut w = string_of(" at '");
    push_str(&mut w, tok.lexeme);
    push_str(&mut w, "'");
    runtime(report_error(tok.line, Some(w.as_str()), message))
}

fn is_level_op_kind(lv: Level, k: TokenKind) -> (b: bool)
    ensures
        b == is_level_op(lv, k),
{
    match lv {
        Level::Or => k == TokenKind::Or,
        Level::And => k == TokenKind::And,
        Level::Equality => k == TokenKind::BangEqual || k == TokenKind::EqualEqual,
        Level::Comparison => k == TokenKind::Greater || k == TokenKind::GreaterEqual
            || k == TokenKind::Less || k == TokenKind::LessEqual,
        Level::Term => k == TokenKind::Minus || k == TokenKind::Plus,
        Level::Factor => k == TokenKind::Slash || k == TokenKind::Star,
    }
}

fn make_level_node<'a>(lv: Level, left: ExprId, operator: Token<'a>, right: ExprId) -> (e: ExprKind<'a>)
    ensures
        e@ == level_node(lv, left as nat, operator@, right as nat),
{
    match lv {
        Level::Or => ExprKind::Logical { left, operator, right },
        Level::And => ExprKind::Logical { left, operator, right },
        _ => ExprKind::Binary { left, operator, right },
    }
}

fn type_named(name: &str) -> (t: AmystType)
    ensures
        t.view_type() == type_of_name(name@),
{
    if str_eq(name, "int") { AmystType::Int }
    else if str_eq(name, "float") { AmystType::Float }
    else if str_eq(name, "string") { AmystType::String }
    else if str_eq(name, "bool") { AmystType::Bool }
    else if str_eq(name, "unit") { AmystType::Unit }
    else { AmystType::Named(string_of(name)) }
}

impl<'a> Parser<'a> {
    /// The models of the tokens.
    pub closed spec fn token_models(&self) -> Seq<SpecToken> {
        tokens_view(self.tokens@)
    }

    /// The index of the current token.
    pub closed spec fn position(&self) -> int {
        self.current as int
    }

    spec fn wf(&self) -> bool {
        eof_ahead(self.token_models(), self.position())
    }

    /// A parser at the first of `tokens`.
    pub fn new(tokens: Vec<Token<'a>>) -> (p: Self)
        ensures
            p.token_models() == tokens_view(tokens@),
            p.position() == 0,
    {
        Self { tokens, current: 0 }
    }

    fn peek(&self) -> (t: Token<'a>)
        requires
            self.wf(),
        ensures
            t@ == self.token_models()[self.position()],
    {
        self.tokens[self.current]
    }

    fn previous(&self) -> (t: Token<'a>)
        requires
            1 <= self.current <= self.tokens@.len(),
        ensures
            t@ == self.token_models()[self.position() - 1],
    {
        self.tokens[self.current - 1]
    }

    fn is_at_end(&self) -> (b: bool)
        requires
            self.wf(),
        ensures
            b == at_end(self.token_models(), pstate_pos(self.position())),
    {
        self.peek().token_type.kind() == TokenKind::Eof
    }

    fn check(&self, k: TokenKind) -> (b: bool)
        requires
            self.wf(),
        ensures
            b == check(self.token_models(), pstate_pos(self.position()), k),
    {
        if self.is_at_end() {
            false
        } else {
            self.peek().token_type.kind() == k
        }
    }

    /// Moves past the current token unless it ends the file, and returns
    /// the token before the new position.
    fn advance(&mut self) -> (t: Token<'a>)
        requires
            old(self).wf(),
            !at_end(old(self).token_models(), pstate_pos(old(self).position())) || old(self).current >= 1,
        ensures
            final(self).wf(),
            final(self).token_models() == old(self).token_models(),
            final(self).position() == advance(old(self).token_models(), pstate_pos(old(self).position())).pos,
            t@ == old(self).token_models()[final(self).position() - 1],
            final(self).position() >= 1,
    {
        if !self.is_at_end() {
            let n = self.tokens.len();
            proof {
                lemma_eof_step(self.token_models(), self.position());
                assert(self.token_models().len() == n);
            }
            self.current = self.current + 1;
        }
        self.previous()
    }

    /// Consumes the current token if it is of kind `k`.
    fn matches(&mut self, k: TokenKind) -> (b: bool)
        requires
            old(self).wf(),
        ensures
            final(self).wf(),
            final(self).token_models() == old(self).token_models(),
            b == check(old(self).token_models(), pstate_pos(old(self).position()), k),
            final(self).position() == if b { old(self).position() + 1 } else { old(self).position() },
    {
        if self.check(k) {
            self.advance();
            true
        } else {
            false
        }
    }

    fn consume(&mut self, k: TokenKind, message: &str) -> (res: Result<Token<'a>, AmystError>)
        requires
            old(self).wf(),
        ensures
            final(self).wf(),
            final(self).token_models() == old(self).token_models(),
            final(self).position() == consume(old(self).token_models(), old(self).position(), k, message@).0,
            tok_rel(res, consume(old(self).token_models(), old(self).position(), k, message@).1),
            res is Ok ==> final(self).position() == old(self).position() + 1,
            res is Err ==> final(self).position() == old(self).position(),
    {
        reveal(consume);
        reveal(error_at);
        if self.check(k) {
            return Ok(self.advance());
        }
        let tok = self.peek();
        if k == TokenKind::Eof {
            Err(runtime(report_error(tok.line, Some(" at end"), message)))
        } else {
            Err(error_at_token(tok, message))
        }
    }

    fn consume_identifier(&mut self, message: &str) -> (res: Result<Token<'a>, AmystError>)
        requires
            old(self).wf(),
        ensures
            final(self).wf(),
            final(self).token_models() == old(self).token_models(),
            final(self).position() == consume_identifier(old(self).token_models(), old(self).position(), message@).0,
            tok_rel(res, consume_identifier(old(self).token_models(), old(self).position(), message@).1),
            res is Ok ==> final(self).position() == old(self).position() + 1,
            res is Err ==> final(self).position() == old(self).position(),
    {
        reveal(consume_identifier);
        let tok = self.peek();
        if tok.token_type.kind() == TokenKind::Identifier {
            Ok(self.advance())
        } else {
            Err(error_at_token(tok, message))
        }
    }
}

} // verus!

verus! {

impl<'a> Parser<'a> {
    // ------------------------------------------------------------------
    // Types and parameters
    // ------------------------------------------------------------------

    fn parse_type(&mut self, message: &str) -> (res: Result<AmystType, AmystError>)
        requires
            old(self).wf(),
        ensures
            pos_post(*old(self), *final(self), parse_type(old(self).token_models(), old(self).position(), message@).0),
            type_rel(res, parse_type(old(self).token_models(), old(self).position(), message@).1),
            res is Ok ==> final(self).position() > old(self).position(),
    {
        if self.matches(TokenKind::LeftParen) {
            match self.consume(TokenKind::RightParen, "Expected ')' to close unit type.") {
                Ok(_) => Ok(AmystType::Unit),
                Err(e) => Err(e),
            }
        } else {
            match self.consume_identifier(message) {
                Ok(tok) => Ok(type_named(tok.lexeme)),
                Err(e) => Err(e),
            }
        }
    }

    fn param(&mut self) -> (res: Result<Param<'a>, AmystError>)
        requires
            old(self).wf(),
        ensures
            pos_post(*old(self), *final(self), param(old(self).token_models(), old(self).position()).0),
            param_rel(res, param(old(self).token_models(), old(self).position()).1),
            res is Ok ==> final(self).position() > old(self).position(),
    {
        let is_mut = self.matches(TokenKind::Mut);
        let name = match self.consume_identifier("Expect parameter name.") {
            Ok(t) => t,
            Err(e) => return Err(e),
        };
        let type_annotation = if self.matches(TokenKind::Colon) {
            match self.parse_type("Expected parameter type identifier.") {
                Ok(t) => Some(t),
                Err(e) => return Err(e),
            }
        } else {
            None
        };
        Ok(Param { name, is_mut, type_annotation })
    }

    fn params_more(&mut self, acc: Vec<Param<'a>>) -> (res: Result<Vec<Param<'a>>, AmystError>)
        requires
            old(self).wf(),
        ensures
            pos_post(*old(self), *final(self),
                params_more(old(self).token_models(), old(self).position(), acc@.map_values(|p: Param<'a>| p@)).0),
            params_rel(res, params_more(old(self).token_models(), old(self).position(), acc@.map_values(|p: Param<'a>| p@)).1),
        decreases old(self).token_models().len() - old(self).position(),
    {
        let mut acc = acc;
        if self.matches(TokenKind::Comma) {
            let p = match self.param() {
                Ok(p) => p,
                Err(e) => return Err(e),
            };
            let ghost old_acc = acc@;
            acc.push(p);
            proof {
                assert(acc@.map_values(|p: Param<'a>| p@) =~= old_acc.map_values(|p: Param<'a>| p@).push(p@));
            }
            self.params_more(acc)
        } else {
            Ok(acc)
        }
    }

    fn params(&mut self) -> (res: Result<Vec<Param<'a>>, AmystError>)
        requires
            old(self).wf(),
        ensures
            pos_post(*old(self), *final(self), params(old(self).token_models(), old(self).position()).0),
            params_rel(res, params(old(self).token_models(), old(self).position()).1),
    {
        if !self.check(TokenKind::RightParen) {
            let p = match self.param() {
                Ok(p) => p,
                Err(e) => return Err(e),
            };
            let mut v = Vec::new();
            v.push(p);
            proof {
                assert(v@.map_values(|p: Param<'a>| p@) =~= seq![p@]);
            }
            self.params_more(v)
        } else {
            let v = Vec::new();
            proof {
                assert(v@.map_values(|p: Param<'a>| p@) =~= Seq::<ParamView>::empty());
            }
            Ok(v)
        }
    }

    fn return_type(&mut self) -> (res: Result<Option<AmystType>, AmystError>)
        requires
            old(self).wf(),
        ensures
            pos_post(*old(self), *final(self), return_type(old(self).token_models(), old(self).position()).0),
            opt_type_rel(res, return_type(old(self).token_models(), old(self).position()).1),
    {
        if self.check(TokenKind::Arrow) {
            self.advance();
            match self.parse_type("Expected return type.") {
                Ok(t) => Ok(Some(t)),
                Err(e) => Err(e),
            }
        } else {
            Ok(None)
        }
    }

    // ------------------------------------------------------------------
    // Declarations and statements
    // ------------------------------------------------------------------

    fn declaration(&mut self, ast: &mut AST<'a>) -> (res: Result<Stmt<'a>, AmystError>)
        requires
            old(self).wf(),
        ensures
            stmt_post(*old(self), *old(ast), *final(self), *final(ast), res,
                declaration(old(self).token_models(), pstate(*old(self), *old(ast)))),
        decreases old(self).token_models().len() - old(self).position(), 30int,
    {
        if self.matches(TokenKind::Fn) {
            self.function(ast)
        } else if self.matches(TokenKind::Let) {
            self.var_declaration(ast)
        } else {
            self.statement(ast)
        }
    }

    fn statement(&mut self, ast: &mut AST<'a>) -> (res: Result<Stmt<'a>, AmystError>)
        requires
            old(self).wf(),
        ensures
            stmt_post(*old(self), *old(ast), *final(self), *final(ast), res,
                statement(old(self).token_models(), pstate(*old(self), *old(ast)))),
        decreases old(self).token_models().len() - old(self).position(), 29int,
    {
        if self.matches(TokenKind::For) {
            self.for_stmt(ast)
        } else if self.matches(TokenKind::Print) {
            self.print_stmt(ast)
        } else if self.matches(TokenKind::Return) {
            self.return_stmt(ast)
        } else if self.matches(TokenKind::While) {
            self.while_stmt(ast)
        } else {
            self.expression_stmt(ast)
        }
    }

    fn for_stmt(&mut self, ast: &mut AST<'a>) -> (res: Result<Stmt<'a>, AmystError>)
        requires
            old(self).wf(),
        ensures
            stmt_post(*old(self), *old(ast), *final(self), *final(ast), res,
                for_stmt(old(self).token_models(), pstate(*old(self), *old(ast)))),
        decreases old(self).token_models().len() - old(self).position(), 28int,
    {
        let variable = match self.consume_identifier("Expected an identifier.") {
            Ok(t) => t,
            Err(e) => return Err(e),
        };
        match self.consume(TokenKind::In, "Expected 'in'.") {
            Ok(_) => {},
            Err(e) => return Err(e),
        }
        let iterable = match self.expression(ast) {
            Ok(i) => i,
            Err(e) => return Err(e),
        };
        let body_stmt = match self.statement(ast) {
            Ok(s) => s,
            Err(e) => return Err(e),
        };
        let body = ast.add_stmt(body_stmt);
        Ok(Stmt::For { variable, iterable, body })
    }

    fn print_stmt(&mut self, ast: &mut AST<'a>) -> (res: Result<Stmt<'a>, AmystError>)
        requires
            old(self).wf(),
        ensures
            stmt_post(*old(self), *old(ast), *final(self), *final(ast), res,
                print_stmt(old(self).token_models(), pstate(*old(self), *old(ast)))),
        decreases old(self).token_models().len() - old(self).position(), 28int,
    {
        let val = match self.expression(ast) {
            Ok(v) => v,
            Err(e) => return Err(e),
        };
        match self.consume(TokenKind::Semicolon, "Expect ';' after value.") {
            Ok(_) => Ok(Stmt::Print(val)),
            Err(e) => Err(e),
        }
    }

    #[verifier::rlimit(30)]
    fn return_stmt(&mut self, ast: &mut AST<'a>) -> (res: Result<Stmt<'a>, AmystError>)
        requires
            old(self).wf(),
            old(self).position() >= 1,
        ensures
            stmt_post(*old(self), *old(ast), *final(self), *final(ast), res,
                return_stmt(old(self).token_models(), pstate(*old(self), *old(ast)))),
        decreases old(self).token_models().len() - old(self).position(), 28int,
    {
        let keyword = self.previous();
        let value = if !self.check(TokenKind::Semicolon) {
            match self.expression(ast) {
                Ok(v) => v,
                Err(e) => return Err(e),
            }
        } else {
            ast.add_node(ExprKind::Literal(Literal::Unit))
        };
        match self.consume(TokenKind::Semicolon, "Expect ';' after return value") {
            Ok(_) => Ok(Stmt::Return { keyword, value }),
            Err(e) => Err(e),
        }
    }

    #[verifier::rlimit(30)]
    fn var_declaration(&mut self, ast: &mut AST<'a>) -> (res: Result<Stmt<'a>, AmystError>)
        requires
            old(self).wf(),
        ensures
            stmt_post(*old(self), *old(ast), *final(self), *final(ast), res,
                var_declaration(old(self).token_models(), pstate(*old(self), *old(ast)))),
        decreases old(self).token_models().len() - old(self).position(), 28int,
    {
        let name = match self.consume_identifier("Expect variable name.") {
            Ok(t) => t,
            Err(e) => return Err(e),
        };
        let initializer = if self.matches(TokenKind::Equal) {
            match self.expression(ast) {
                Ok(v) => Some(v),
                Err(e) => return Err(e),
            }
        } else {
            None
        };
        match self.consume(TokenKind::Semicolon, "Expect ';' after variable declaration.") {
            Ok(_) => Ok(Stmt::Var { name, initializer }),
            Err(e) => Err(e),
        }
    }

    fn while_stmt(&mut self, ast: &mut AST<'a>) -> (res: Result<Stmt<'a>, AmystError>)
        requires
            old(self).wf(),
        ensures
            stmt_post(*old(self), *old(ast), *final(self), *final(ast), res,
                while_stmt(old(self).token_models(), pstate(*old(self), *old(ast)))),
        decreases old(self).token_models().len() - old(self).position(), 28int,
    {
        let condition = match self.expression(ast) {
            Ok(v) => v,
            Err(e) => return Err(e),
        };
        let body_stmt = match self.statement(ast) {
            Ok(s) => s,
            Err(e) => return Err(e),
        };
        let body = ast.add_stmt(body_stmt);
        Ok(Stmt::While { condition, body })
    }

    fn expression_stmt(&mut self, ast: &mut AST<'a>) -> (res: Result<Stmt<'a>, AmystError>)
        requires
            old(self).wf(),
        ensures
            stmt_post(*old(self), *old(ast), *final(self), *final(ast), res,
                expression_stmt(old(self).token_models(), pstate(*old(self), *old(ast)))),
        decreases old(self).token_models().len() - old(self).position(), 28int,
    {
        let val = match self.expression(ast) {
            Ok(v) => v,
            Err(e) => return Err(e),
        };
        match self.consume(TokenKind::Semicolon, "Expect ';' after expression.") {
            Ok(_) => Ok(Stmt::Expression(val)),
            Err(e) => Err(e),
        }
    }

    fn function(&mut self, ast: &mut AST<'a>) -> (res: Result<Stmt<'a>, AmystError>)
        requires
            old(self).wf(),
        ensures
            stmt_post(*old(self), *old(ast), *final(self), *final(ast), res,
                function(old(self).token_models(), pstate(*old(self), *old(ast)))),
        decreases old(self).token_models().len() - old(self).position(), 28int,
    {
        let name = match self.consume_identifier("Expect function name.") {
            Ok(t) => t,
            Err(e) => return Err(e),
        };
        match self.consume(TokenKind::LeftParen, "Expect '(' after function name.") {
            Ok(_) => {},
            Err(e) => return Err(e),
        }
        let params = match self.params() {
            Ok(p) => p,
            Err(e) => return Err(e),
        };
        match self.consume(TokenKind::RightParen, "Expect ')' after parameters.") {
            Ok(_) => {},
            Err(e) => return Err(e),
        }
        let return_type = match self.return_type() {
            Ok(t) => t,
            Err(e) => return Err(e),
        };
        let body = match self.block(ast) {
            Ok(b) => b,
            Err(e) => return Err(e),
        };
        Ok(Stmt::Function { name, params, body, return_type })
    }

    // ------------------------------------------------------------------
    // Blocks
    // ------------------------------------------------------------------

    fn block_items(&mut self, ast: &mut AST<'a>, stmts: Vec<StmtId>) -> (res: Result<(Vec<StmtId>, Option<ExprId>), AmystError>)
        requires
            old(self).wf(),
            forall|k: int| 0 <= k < stmts@.len() ==> #[trigger] stmts@[k] < old(ast)@.stmts.len(),
        ensures
            kept(*old(self), *old(ast), *final(self), *final(ast)),
            pstate(*final(self), *final(ast)) == block_items(old(self).token_models(), pstate(*old(self), *old(ast)), ids_view(stmts@)).0,
            items_rel(res, block_items(old(self).token_models(), pstate(*old(self), *old(ast)), ids_view(stmts@)).1),
            res is Ok ==> forall|k: int| 0 <= k < res->Ok_0.0@.len() ==> #[trigger] res->Ok_0.0@[k] < final(ast)@.stmts.len(),
            res is Ok ==> match res->Ok_0.1 {
                Some(e) => e < final(ast)@.exprs.len(),
                None => true,
            },
        decreases old(self).token_models().len() - old(self).position(), 31int,
    {
        let mut stmts = stmts;
        if !self.check(TokenKind::RightBrace) && !self.is_at_end() {
            if self.check(TokenKind::Let) || self.check(TokenKind::Fn) {
                let stmt = match self.declaration(ast) {
                    Ok(s) => s,
                    Err(e) => return Err(e),
                };
                let sid = ast.add_stmt(stmt);
                let ghost old_ids = stmts@;
                stmts.push(sid);
                proof { assert(ids_view(stmts@) =~= ids_view(old_ids).push(sid as nat)); }
                self.block_items(ast, stmts)
            } else if self.check(TokenKind::For) || self.check(TokenKind::While) || self.check(TokenKind::Print)
                || self.check(TokenKind::Return) {
                let stmt = match self.statement(ast) {
                    Ok(s) => s,
                    Err(e) => return Err(e),
                };
                let sid = ast.add_stmt(stmt);
                let ghost old_ids = stmts@;
                stmts.push(sid);
                proof { assert(ids_view(stmts@) =~= ids_view(old_ids).push(sid as nat)); }
                self.block_items(ast, stmts)
            } else {
                let expr_id = match self.expression(ast) {
                    Ok(e) => e,
                    Err(e) => return Err(e),
                };
                if self.matches(TokenKind::Semicolon) {
                    let sid = ast.add_stmt(Stmt::Expression(expr_id));
                    let ghost old_ids = stmts@;
                    stmts.push(sid);
                    proof { assert(ids_view(stmts@) =~= ids_view(old_ids).push(sid as nat)); }
                    self.block_items(ast, stmts)
                } else if self.check(TokenKind::RightBrace) {
                    Ok((stmts, Some(expr_id)))
                } else {
                    let ends_with_block = match ast.get_node(expr_id) {
                        ExprKind::If { .. } => true,
                        ExprKind::Block { .. } => true,
                        _ => false,
                    };
                    if ends_with_block {
                        let sid = ast.add_stmt(Stmt::Expression(expr_id));
                        let ghost old_ids = stmts@;
                        stmts.push(sid);
                        proof { assert(ids_view(stmts@) =~= ids_view(old_ids).push(sid as nat)); }
                        self.block_items(ast, stmts)
                    } else {
                        Err(error_at_token(self.peek(), "Expect ';' after expression."))
                    }
                }
            }
        } else {
            Ok((stmts, None))
        }
    }

    fn block(&mut self, ast: &mut AST<'a>) -> (res: Result<ExprId, AmystError>)
        requires
            old(self).wf(),
        ensures
            expr_post(*old(self), *old(ast), *final(self), *final(ast), res,
                block(old(self).token_models(), pstate(*old(self), *old(ast)))),
        decreases old(self).token_models().len() - old(self).position(), 4int,
    {
        match self.consume(TokenKind::LeftBrace, "Expect '{' before block.") {
            Ok(_) => {},
            Err(e) => return Err(e),
        }
        let v = Vec::new();
        proof { assert(ids_view(v@) =~= Seq::<nat>::empty()); }
        let (stmts, expr) = match self.block_items(ast, v) {
            Ok(items) => items,
            Err(e) => return Err(e),
        };
        match self.consume(TokenKind::RightBrace, "Expect '}' after block.") {
            Ok(_) => Ok(ast.add_node(ExprKind::Block { stmts, expr })),
            Err(e) => Err(e),
        }
    }

    // ------------------------------------------------------------------
    // Expressions
    // ------------------------------------------------------------------

    /// Parses one expression, adding its nodes to `ast` and returning the
    /// index of its root.
    pub fn expression(&mut self, ast: &mut AST<'a>) -> (res: Result<ExprId, AmystError>)
        requires
            eof_ahead(old(self).token_models(), old(self).position()),
        ensures
            expr_post(*old(self), *old(ast), *final(self), *final(ast), res,
                expression(old(self).token_models(), pstate(*old(self), *old(ast)))),
        decreases old(self).token_models().len() - old(self).position(), 24int,
    {
        self.assignment(ast)
    }

    fn assignment(&mut self, ast: &mut AST<'a>) -> (res: Result<ExprId, AmystError>)
        requires
            old(self).wf(),
        ensures
            expr_post(*old(self), *old(ast), *final(self), *final(ast), res,
                assignment(old(self).token_models(), pstate(*old(self), *old(ast)))),
        decreases old(self).token_models().len() - old(self).position(), 23int,
    {
        let expr = match self.range(ast) {
            Ok(e) => e,
            Err(e) => return Err(e),
        };
        if self.matches(TokenKind::Equal) {
            let value = match self.assignment(ast) {
                Ok(v) => v,
                Err(e) => return Err(e),
            };
            let target = match ast.get_node(expr) {
                ExprKind::Variable(tk) => Some(*tk),
                _ => None,
            };
            match target {
                Some(name) => Ok(ast.add_node(ExprKind::Assign { name, value })),
                None => Err(runtime(string_of("Invalid assignment target."))),
            }
        } else {
            Ok(expr)
        }
    }

    fn range(&mut self, ast: &mut AST<'a>) -> (res: Result<ExprId, AmystError>)
        requires
            old(self).wf(),
        ensures
            expr_post(*old(self), *old(ast), *final(self), *final(ast), res,
                range(old(self).token_models(), pstate(*old(self), *old(ast)))),
        decreases old(self).token_models().len() - old(self).position(), 22int,
    {
        let expr = match self.binary(ast, Level::Or) {
            Ok(e) => e,
            Err(e) => return Err(e),
        };
        if self.check(TokenKind::DotDot) || self.check(TokenKind::DotDotEqual) {
            let op = self.advance();
            let inclusive = op.token_type.kind() == TokenKind::DotDotEqual;
            let right = match self.binary(ast, Level::Or) {
                Ok(r) => r,
                Err(e) => return Err(e),
            };
            Ok(ast.add_node(ExprKind::Range { start: expr, end: right, inclusive }))
        } else {
            Ok(expr)
        }
    }

    fn operand(&mut self, ast: &mut AST<'a>, lv: Level) -> (res: Result<ExprId, AmystError>)
        requires
            old(self).wf(),
        ensures
            expr_post(*old(self), *old(ast), *final(self), *final(ast), res,
                operand(old(self).token_models(), pstate(*old(self), *old(ast)), lv)),
        decreases old(self).token_models().len() - old(self).position(), level_rank(lv) - 1,
    {
        match lv {
            Level::Or => self.binary(ast, Level::And),
            Level::And => self.binary(ast, Level::Equality),
            Level::Equality => self.binary(ast, Level::Comparison),
            Level::Comparison => self.binary(ast, Level::Term),
            Level::Term => self.binary(ast, Level::Factor),
            Level::Factor => self.unary(ast),
        }
    }

    fn binary(&mut self, ast: &mut AST<'a>, lv: Level) -> (res: Result<ExprId, AmystError>)
        requires
            old(self).wf(),
        ensures
            expr_post(*old(self), *old(ast), *final(self), *final(ast), res,
                binary(old(self).token_models(), pstate(*old(self), *old(ast)), lv)),
        decreases old(self).token_models().len() - old(self).position(), level_rank(lv),
    {
        let left = match self.operand(ast, lv) {
            Ok(e) => e,
            Err(e) => return Err(e),
        };
        self.binary_rest(ast, left, lv)
    }

    fn binary_rest(&mut self, ast: &mut AST<'a>, left: ExprId, lv: Level) -> (res: Result<ExprId, AmystError>)
        requires
            old(self).wf(),
            left < old(ast)@.exprs.len(),
        ensures
            rest_post(*old(self), *old(ast), *final(self), *final(ast), res,
                binary_rest(old(self).token_models(), pstate(*old(self), *old(ast)), left as nat, lv)),
        decreases old(self).token_models().len() - old(self).position(), level_rank(lv) - 1,
    {
        if !self.is_at_end() && is_level_op_kind(lv, self.peek().token_type.kind()) {
            let operator = self.advance();
            let right = match self.operand(ast, lv) {
                Ok(r) => r,
                Err(e) => return Err(e),
            };
            let id = ast.add_node(make_level_node(lv, left, operator, right));
            self.binary_rest(ast, id, lv)
        } else {
            Ok(left)
        }
    }

    fn unary(&mut self, ast: &mut AST<'a>) -> (res: Result<ExprId, AmystError>)
        requires
            old(self).wf(),
        ensures
            expr_post(*old(self), *old(ast), *final(self), *final(ast), res,
                unary(old(self).token_models(), pstate(*old(self), *old(ast)))),
        decreases old(self).token_models().len() - old(self).position(), 8int,
    {
        if self.check(TokenKind::Bang) || self.check(TokenKind::Minus) {
            let operator = self.advance();
            let right = match self.unary(ast) {
                Ok(r) => r,
                Err(e) => return Err(e),
            };
            Ok(ast.add_node(ExprKind::Unary { operator, right }))
        } else {
            self.call(ast)
        }
    }

    fn call(&mut self, ast: &mut AST<'a>) -> (res: Result<ExprId, AmystError>)
        requires
            old(self).wf(),
        ensures
            expr_post(*old(self), *old(ast), *final(self), *final(ast), res,
                call(old(self).token_models(), pstate(*old(self), *old(ast)))),
        decreases old(self).token_models().len() - old(self).position(), 7int,
    {
        let expr = match self.primary(ast) {
            Ok(e) => e,
            Err(e) => return Err(e),
        };
        self.call_rest(ast, expr)
    }

    fn call_rest(&mut self, ast: &mut AST<'a>, callee: ExprId) -> (res: Result<ExprId, AmystError>)
        requires
            old(self).wf(),
            callee < old(ast)@.exprs.len(),
        ensures
            rest_post(*old(self), *old(ast), *final(self), *final(ast), res,
                call_rest(old(self).token_models(), pstate(*old(self), *old(ast)), callee as nat)),
        decreases old(self).token_models().len() - old(self).position(), 6int,
    {
        if self.matches(TokenKind::LeftParen) {
            let id = match self.finish_call(ast, callee) {
                Ok(i) => i,
                Err(e) => return Err(e),
            };
            self.call_rest(ast, id)
        } else {
            Ok(callee)
        }
    }

    fn finish_call(&mut self, ast: &mut AST<'a>, callee: ExprId) -> (res: Result<ExprId, AmystError>)
        requires
            old(self).wf(),
            callee < old(ast)@.exprs.len(),
        ensures
            expr_post(*old(self), *old(ast), *final(self), *final(ast), res,
                finish_call(old(self).token_models(), pstate(*old(self), *old(ast)), callee as nat)),
        decreases old(self).token_models().len() - old(self).position(), 27int,
    {
        let arguments = match self.call_args(ast) {
            Ok(a) => a,
            Err(e) => return Err(e),
        };
        match self.consume(TokenKind::RightParen, "Expect ')' after arguments.") {
            Ok(paren) => Ok(ast.add_node(ExprKind::Call { callee, paren, arguments })),
            Err(e) => Err(e),
        }
    }

    fn call_args(&mut self, ast: &mut AST<'a>) -> (res: Result<Vec<ExprId>, AmystError>)
        requires
            old(self).wf(),
        ensures
            kept(*old(self), *old(ast), *final(self), *final(ast)),
            pstate(*final(self), *final(ast)) == call_args(old(self).token_models(), pstate(*old(self), *old(ast))).0,
            ids_rel(res, call_args(old(self).token_models(), pstate(*old(self), *old(ast))).1),
            res is Ok ==> forall|k: int| 0 <= k < res->Ok_0@.len() ==> #[trigger] res->Ok_0@[k] < final(ast)@.exprs.len(),
        decreases old(self).token_models().len() - old(self).position(), 26int,
    {
        if !self.check(TokenKind::RightParen) {
            let a = match self.expression(ast) {
                Ok(a) => a,
                Err(e) => return Err(e),
            };
            let mut v = Vec::new();
            v.push(a);
            proof { assert(ids_view(v@) =~= seq![a as nat]); }
            self.args_more(ast, v)
        } else {
            let v = Vec::new();
            proof { assert(ids_view(v@) =~= Seq::<nat>::empty()); }
            Ok(v)
        }
    }

    fn args_more(&mut self, ast: &mut AST<'a>, acc: Vec<ExprId>) -> (res: Result<Vec<ExprId>, AmystError>)
        requires
            old(self).wf(),
            forall|k: int| 0 <= k < acc@.len() ==> #[trigger] acc@[k] < old(ast)@.exprs.len(),
        ensures
            kept(*old(self), *old(ast), *final(self), *final(ast)),
            pstate(*final(self), *final(ast)) == args_more(old(self).token_models(), pstate(*old(self), *old(ast)), ids_view(acc@)).0,
            ids_rel(res, args_more(old(self).token_models(), pstate(*old(self), *old(ast)), ids_view(acc@)).1),
            res is Ok ==> forall|k: int| 0 <= k < res->Ok_0@.len() ==> #[trigger] res->Ok_0@[k] < final(ast)@.exprs.len(),
        decreases old(self).token_models().len() - old(self).position(), 25int,
    {
        let mut acc = acc;
        if self.matches(TokenKind::Comma) {
            let a = match self.expression(ast) {
                Ok(a) => a,
                Err(e) => return Err(e),
            };
            let ghost old_ids = acc@;
            acc.push(a);
            proof { assert(ids_view(acc@) =~= ids_view(old_ids).push(a as nat)); }
            self.args_more(ast, acc)
        } else {
            Ok(acc)
        }
    }

    fn else_branch(&mut self, ast: &mut AST<'a>) -> (res: Result<ExprId, AmystError>)
        requires
            old(self).wf(),
        ensures
            expr_post(*old(self), *old(ast), *final(self), *final(ast), res,
                else_branch(old(self).token_models(), pstate(*old(self), *old(ast)))),
        decreases old(self).token_models().len() - old(self).position(), 6int,
    {
        if self.check(TokenKind::If) {
            self.advance();
            self.primary(ast)
        } else {
            self.block(ast)
        }
    }

    #[verifier::rlimit(30)]
    fn primary(&mut self, ast: &mut AST<'a>) -> (res: Result<ExprId, AmystError>)
        requires
            old(self).wf(),
        ensures
            expr_post(*old(self), *old(ast), *final(self), *final(ast), res,
                primary(old(self).token_models(), pstate(*old(self), *old(ast)))),
        decreases old(self).token_models().len() - old(self).position(), 5int,
    {
        if self.is_at_end() {
            return Err(runtime(string_of("Invalid token")));
        }
        let tok = self.advance();
        match tok.token_type {
            TokenType::False => Ok(ast.add_node(ExprKind::Literal(Literal::Boolean(false)))),
            TokenType::True => Ok(ast.add_node(ExprKind::Literal(Literal::Boolean(true)))),
            TokenType::Unit => Ok(ast.add_node(ExprKind::Literal(Literal::Unit))),
            TokenType::Number(n) => Ok(ast.add_node(ExprKind::Literal(Literal::Number(n)))),
            TokenType::String(s) => Ok(ast.add_node(ExprKind::Literal(Literal::String(s)))),
            TokenType::LeftParen => {
                let exp = match self.expression(ast) {
                    Ok(e) => e,
                    Err(e) => return Err(e),
                };
                match self.consume(TokenKind::RightParen, "Expected ')' after expression.") {
                    Ok(_) => Ok(ast.add_node(ExprKind::Grouping(exp))),
                    Err(e) => Err(e),
                }
            },
            TokenType::LeftBrace => {
                self.current = self.current - 1;
                self.block(ast)
            },
            TokenType::If => {
                let condition = match self.expression(ast) {
                    Ok(c) => c,
                    Err(e) => return Err(e),
                };
                let then_branch = match self.block(ast) {
                    Ok(t) => t,
                    Err(e) => return Err(e),
                };
                let else_branch = if self.matches(TokenKind::Else) {
                    match self.else_branch(ast) {
                        Ok(e) => Some(e),
                        Err(e) => return Err(e),
                    }
                } else {
                    None
                };
                Ok(ast.add_node(ExprKind::If { condition, then_branch, else_branch }))
            },
            TokenType::Identifier(_) => Ok(ast.add_node(ExprKind::Variable(tok))),
            _ => Err(error_at_token(tok, "Expect expression.")),
        }
    }
}

} // verus!

verus! {

/// The messages of a list of errors.
pub open spec fn messages(es: Seq<AmystError>) -> Seq<Seq<char>> {
    es.map_values(|e: AmystError| match e {
        AmystError::Runtime { message } => message@,
        _ => Seq::empty(),
    })
}

/// What `parse` returns for the tokens of `p` and the arena `ast`: the
/// indices of the top-level statements, or, where any declaration failed,
/// every error met, each a runtime error with its message.
pub open spec fn parse_result_matches<'a>(p: Parser<'a>, ast: AST<'a>, res: Result<Vec<StmtId>, AmystError>) -> bool {
    let (st, roots, errors) = program(p.token_models(), pstate(p, ast), Seq::empty(), Seq::empty());
    if errors.len() == 0 {
        res is Ok && ids_view(res->Ok_0@) == roots
    } else {
        &&& res is Err
        &&& res->Err_0 is Multiple
        &&& messages(res->Err_0->Multiple_0@) == errors
        &&& forall|i: int| 0 <= i < res->Err_0->Multiple_0@.len() ==> #[trigger] res->Err_0->Multiple_0@[i] is Runtime
    }
}

impl<'a> Parser<'a> {
    /// Skips tokens after an error until just after a semicolon, or just
    /// before a keyword that starts a declaration or statement.
    fn synchronize(&mut self)
        requires
            old(self).wf(),
            !at_end(old(self).token_models(), pstate_pos(old(self).position())) || old(self).position() >= 1,
        ensures
            final(self).wf(),
            final(self).token_models() == old(self).token_models(),
            final(self).position() == synchronize(old(self).token_models(), old(self).position()),
            final(self).position() >= old(self).position(),
            !at_end(old(self).token_models(), pstate_pos(old(self).position())) ==> final(self).position() > old(self).position(),
    {
        let ghost ts = self.token_models();
        let ghost start = advance(ts, pstate_pos(self.position())).pos;
        self.advance();
        while !self.is_at_end()
            invariant
                self.wf(),
                self.token_models() == ts,
                ts == old(self).token_models(),
                start == advance(ts, pstate_pos(old(self).position())).pos,
                synchronize(ts, old(self).position()) == sync_rest(ts, start),
                self.position() >= start,
                self.position() >= 1,
                sync_rest(ts, start) == sync_rest(ts, self.position()),
            decreases ts.len() - self.position(),
        {
            if self.previous().token_type.kind() == TokenKind::Semicolon {
                return;
            }
            let k = self.peek().token_type.kind();
            if k == TokenKind::Class || k == TokenKind::For || k == TokenKind::Fn || k == TokenKind::If
                || k == TokenKind::Print || k == TokenKind::Return || k == TokenKind::Let || k == TokenKind::While {
                return;
            }
            self.advance();
        }
    }

    /// Parses every declaration up to the end of the file. Statements are
    /// added to `ast` and their indices returned in order; a declaration
    /// that fails is skipped up to the next likely start of a statement,
    /// and if any failed, every error met is returned together.
    pub fn parse(&mut self, ast: &mut AST<'a>) -> (res: Result<Vec<StmtId>, AmystError>)
        requires
            eof_ahead(old(self).token_models(), old(self).position()),
        ensures
            final(self).token_models() == old(self).token_models(),
            pstate(*final(self), *final(ast))
                == program(old(self).token_models(), pstate(*old(self), *old(ast)), Seq::empty(), Seq::empty()).0,
            parse_result_matches(*old(self), *old(ast), res),
            well_ordered(old(ast)@) ==> well_ordered(final(ast)@),
            res is Ok ==> forall|k: int| 0 <= k < res->Ok_0@.len() ==> #[trigger] res->Ok_0@[k] < final(ast)@.stmts.len(),
            0 <= final(self).position() < final(self).token_models().len(),
            final(self).token_models()[final(self).position()].kind == TokenKind::Eof,
    {
        let ghost ts = self.token_models();
        let ghost st0 = pstate(*self, *ast);
        let mut root_stmt: Vec<StmtId> = Vec::new();
        let mut errors: Vec<AmystError> = Vec::new();
        proof {
            assert(ids_view(root_stmt@) =~= Seq::<nat>::empty());
            assert(messages(errors@) =~= Seq::<Seq<char>>::empty());
        }
        while !self.is_at_end()
            invariant
                self.wf(),
                self.token_models() == ts,
                program(ts, st0, Seq::empty(), Seq::empty())
                    == program(ts, pstate(*self, *ast), ids_view(root_stmt@), messages(errors@)),
                forall|i: int| 0 <= i < errors@.len() ==> #[trigger] errors@[i] is Runtime,
                well_ordered(old(ast)@) ==> well_ordered(ast@),
                forall|k: int| 0 <= k < root_stmt@.len() ==> #[trigger] root_stmt@[k] < ast@.stmts.len(),
            decreases ts.len() - self.position(),
        {
            let ghost before = pstate(*self, *ast);
            match self.declaration(ast) {
                Ok(stmt) => {
                    let id = ast.add_stmt(stmt);
                    let ghost old_roots = root_stmt@;
                    root_stmt.push(id);
                    proof { assert(ids_view(root_stmt@) =~= ids_view(old_roots).push(id as nat)); }
                },
                Err(e) => {
                    let ghost old_errors = errors@;
                    errors.push(e);
                    proof { assert(messages(errors@) =~= messages(old_errors).push(e->message@)); }
                    self.synchronize();
                },
            }
        }
        if errors.len() == 0 {
            Ok(root_stmt)
        } else {
            Err(AmystError::Multiple(errors))
        }
    }
}

/// A state holding only a position; the steps above look at nothing else.
pub open spec fn pstate_pos(pos: int) -> PState {
    PState { pos, exprs: Seq::empty(), stmts: Seq::empty() }
}

} // verus!
