//! From source text to syntax tree: scanning, then parsing.
use vstd::prelude::*;
use crate::ast::{AST, ExprId, ids_view, StmtId, well_ordered};
use crate::diagnostics::AmystError;
use crate::lexer::scanner::{law_scan_ends_with_eof, scan_spec, Scanner};
use crate::lexer::token::TokenKind;
use crate::parser::grammar::{expression, program, PState};
use crate::parser::parser::{is_runtime, messages, Parser};

verus! {

/// The parser's state before it reads anything: at the first token, with
/// nothing built.
pub open spec fn start_state() -> PState {
    PState { pos: 0, exprs: Seq::empty(), stmts: Seq::empty() }
}

/// What `compile` gives for the source text `src`: the scanner's error
/// where scanning fails; otherwise the arena and top-level statements of
/// the whole program, or, where any declaration failed, every parse error
/// met, in order.
pub open spec fn compile_matches<'a>(src: Seq<char>, r: Result<(AST<'a>, Vec<StmtId>), AmystError>) -> bool {
    match scan_spec(src) {
        Err(e) => r is Err && r->Err_0 == e,
        Ok(ts) => {
            let (st, roots, errors) = program(ts, start_state(), Seq::empty(), Seq::empty());
            if errors.len() == 0 {
                &&& r is Ok
                &&& r->Ok_0.0@.exprs == st.exprs
                &&& r->Ok_0.0@.stmts == st.stmts
                &&& ids_view(r->Ok_0.1@) == roots
            } else {
                &&& r is Err
                &&& r->Err_0 is Multiple
                &&& messages(r->Err_0->Multiple_0@) == errors
                &&& forall|i: int| 0 <= i < r->Err_0->Multiple_0@.len() ==> #[trigger] r->Err_0->Multiple_0@[i] is Runtime
            }
        },
    }
}

/// What `compile_expression` gives for the source text `src`: the
/// scanner's error where scanning fails; otherwise the arena and root of
/// the expression that the text starts with, or the parse error met.
pub open spec fn compile_expression_matches<'a>(src: Seq<char>, r: Result<(AST<'a>, ExprId), AmystError>) -> bool {
    match scan_spec(src) {
        Err(e) => r is Err && r->Err_0 == e,
        Ok(ts) => {
            let (st, res) = expression(ts, start_state());
            match res {
                Ok(id) => {
                    &&& r is Ok
                    &&& r->Ok_0.0@.exprs == st.exprs
                    &&& r->Ok_0.0@.stmts == st.stmts
                    &&& r->Ok_0.1 == id
                },
                Err(m) => r is Err && is_runtime(r->Err_0, m),
            }
        },
    }
}

/// Scans `source` and parses the tokens as a whole program, without
/// running it.
pub fn compile<'a>(source: &'a str) -> (r: Result<(AST<'a>, Vec<StmtId>), AmystError>)
    requires
        source@.len() < usize::MAX,
    ensures
        compile_matches(source@, r),
        r is Ok ==> well_ordered(r->Ok_0.0@),
        r is Ok ==> forall|k: int| 0 <= k < r->Ok_0.1@.len() ==> #[trigger] r->Ok_0.1@[k] < r->Ok_0.0@.stmts.len(),
{
    let scanner = Scanner::new(source);
    let tokens = match scanner.scan_tokens() {
        Ok(tokens) => tokens,
        Err(e) => return Err(e),
    };
    let mut parser = Parser::new(tokens);
    let mut ast = AST::new();
    proof {
        law_scan_ends_with_eof(source@);
        let ts = parser.token_models();
        assert(ts[ts.len() - 1].kind == TokenKind::Eof);
    }
    match parser.parse(&mut ast) {
        Ok(stmts) => Ok((ast, stmts)),
        Err(e) => Err(e),
    }
}

/// Scans `source` and parses the one expression it starts with.
pub fn compile_expression<'a>(source: &'a str) -> (r: Result<(AST<'a>, ExprId), AmystError>)
    requires
        source@.len() < usize::MAX,
    ensures
        compile_expression_matches(source@, r),
        r is Ok ==> well_ordered(r->Ok_0.0@),
        r is Ok ==> r->Ok_0.1 < r->Ok_0.0@.exprs.len(),
{
    let scanner = Scanner::new(source);
    let tokens = match scanner.scan_tokens() {
        Ok(tokens) => tokens,
        Err(e) => return Err(e),
    };
    let mut parser = Parser::new(tokens);
    let mut ast = AST::new();
    proof {
        law_scan_ends_with_eof(source@);
        let ts = parser.token_models();
        assert(ts[ts.len() - 1].kind == TokenKind::Eof);
    }
    match parser.expression(&mut ast) {
        Ok(id) => Ok((ast, id)),
        Err(e) => Err(e),
    }
}

} // verus!
