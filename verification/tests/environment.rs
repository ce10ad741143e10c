use amyst::interpreter::errors::{not_callable, uninitialized, wrong_arity};
use amyst::interpreter::ScopeStack;
use amyst::lexer::{Token, TokenType};
use amyst::AmystError;

fn name(text: &'static str, line: usize) -> Token<'static> {
    Token { token_type: TokenType::Identifier(text), lexeme: text, line }
}

fn runtime_message(e: AmystError) -> String {
    match e {
        AmystError::Runtime { message } => message,
        other => panic!("not a runtime error: {:?}", other),
    }
}

#[test]
fn a_defined_name_reads_back() {
    let mut env: ScopeStack<i64> = ScopeStack::new();
    env.define("x", 1);
    assert_eq!(env.get(&name("x", 1)), Ok(&1));
    env.define("x", 2);
    assert_eq!(env.get(&name("x", 1)), Ok(&2));
}

#[test]
fn an_undefined_name_is_an_error() {
    let env: ScopeStack<i64> = ScopeStack::new();
    let e = env.get(&name("y", 4)).expect_err("nothing binds y");
    assert_eq!(runtime_message(e), "[line 4] Error  at 'y': Undefined variable 'y'.");
}

#[test]
fn inner_scopes_shadow_and_end() {
    let mut env: ScopeStack<i64> = ScopeStack::new();
    env.define("x", 1);
    env.push_scope();
    assert_eq!(env.get(&name("x", 1)), Ok(&1));
    env.define("x", 10);
    env.define("z", 3);
    assert_eq!(env.get(&name("x", 1)), Ok(&10));
    env.pop_scope();
    assert_eq!(env.get(&name("x", 1)), Ok(&1));
    assert!(env.get(&name("z", 1)).is_err());
}

#[test]
fn the_global_scope_is_never_closed() {
    let mut env: ScopeStack<i64> = ScopeStack::new();
    env.define("x", 1);
    env.pop_scope();
    env.pop_scope();
    assert_eq!(env.get(&name("x", 1)), Ok(&1));
}

#[test]
fn globals_are_seen_from_inner_scopes() {
    let mut env: ScopeStack<i64> = ScopeStack::new();
    env.push_scope();
    env.push_scope();
    env.define_global("clock", 7);
    assert_eq!(env.get(&name("clock", 1)), Ok(&7));
    env.define("clock", 8);
    assert_eq!(env.get(&name("clock", 1)), Ok(&8));
    env.pop_scope();
    assert_eq!(env.get(&name("clock", 1)), Ok(&7));
}

#[test]
fn assignment_changes_the_innermost_binding() {
    let mut env: ScopeStack<i64> = ScopeStack::new();
    env.define("x", 1);
    env.push_scope();
    env.define("x", 2);
    assert_eq!(env.assign(&name("x", 1), 5), Ok(()));
    assert_eq!(env.get(&name("x", 1)), Ok(&5));
    env.pop_scope();
    assert_eq!(env.get(&name("x", 1)), Ok(&1));
    assert_eq!(env.assign(&name("x", 1), 6), Ok(()));
    assert_eq!(env.get(&name("x", 1)), Ok(&6));
}

#[test]
fn assignment_to_an_unbound_name_fails() {
    let mut env: ScopeStack<i64> = ScopeStack::new();
    let e = env.assign(&name("w", 2), 1).expect_err("nothing binds w");
    assert_eq!(runtime_message(e), "[line 2] Error  at 'w': Undefined variable 'w'.");
    assert!(env.get(&name("w", 2)).is_err());
}

#[test]
fn call_errors_name_the_parenthesis() {
    let paren = Token { token_type: TokenType::RightParen, lexeme: ")", line: 3 };
    assert_eq!(
        runtime_message(not_callable(&paren)),
        "[line 3] Error  at ')': Can only call functions and classes."
    );
    assert_eq!(
        runtime_message(wrong_arity(&paren, 2, 10)),
        "[line 3] Error  at ')': Expected 2 arguments but got 10 instead."
    );
}

#[test]
fn declarations_need_a_value() {
    assert_eq!(
        runtime_message(uninitialized(&name("v", 9))),
        "[line 9] Error  at 'v': Variable should have an initial value."
    );
}

#[test]
fn assignment_leaves_other_names_alone() {
    let mut env: ScopeStack<i64> = ScopeStack::new();
    env.define("a", 1);
    env.define("b", 2);
    env.push_scope();
    assert_eq!(env.assign(&name("a", 1), 10), Ok(()));
    assert_eq!(env.get(&name("b", 1)), Ok(&2));
    assert_eq!(env.get(&name("a", 1)), Ok(&10));
    env.pop_scope();
    assert_eq!(env.get(&name("a", 1)), Ok(&10));
}
