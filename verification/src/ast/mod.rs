//! The syntax tree: expressions and statements held in an arena and
//! referred to by their index.
use vstd::prelude::*;
use crate::lexer::token::{SpecToken, Token};

pub mod format;

pub use format::format_ast;

verus! {

/// The index of an expression in the arena.
pub type ExprId = usize;

/// The index of a statement in the arena.
pub type StmtId = usize;

/// A type annotation.
#[derive(PartialEq, Debug)]
pub enum AmystType {
    Int,
    Float,
    String,
    Bool,
    Unit,
    Named(String),
    Option(Box<AmystType>),
}

impl Clone for AmystType {
    fn clone(&self) -> (r: Self)
        ensures
            r == *self,
        decreases self,
    {
        match self {
            AmystType::Int => AmystType::Int,
            AmystType::Float => AmystType::Float,
            AmystType::String => AmystType::String,
            AmystType::Bool => AmystType::Bool,
            AmystType::Unit => AmystType::Unit,
            AmystType::Named(s) => AmystType::Named(s.clone()),
            AmystType::Option(t) => AmystType::Option(Box::new((**t).clone())),
        }
    }
}

/// A parameter of a function.
#[derive(Clone, PartialEq, Debug)]
pub struct Param<'a> {
    pub name: Token<'a>,
    pub is_mut: bool,
    pub type_annotation: Option<AmystType>,
}

/// A literal as written in the source: numbers keep their decimal text.
#[derive(Clone, Copy, PartialEq, Debug)]
pub enum Literal<'a> {
    Number(&'a str),
    String(&'a str),
    Boolean(bool),
    Unit,
}

/// An expression node.
#[derive(Debug, Clone, PartialEq)]
pub enum ExprKind<'a> {
    Binary { left: ExprId, operator: Token<'a>, right: ExprId },
    Call { callee: ExprId, paren: Token<'a>, arguments: Vec<ExprId> },
    Range { start: ExprId, end: ExprId, inclusive: bool },
    Assign { name: Token<'a>, value: ExprId },
    Logical { left: ExprId, operator: Token<'a>, right: ExprId },
    Unary { operator: Token<'a>, right: ExprId },
    Grouping(ExprId),
    Literal(Literal<'a>),
    Variable(Token<'a>),
    Block { stmts: Vec<StmtId>, expr: Option<ExprId> },
    If { condition: ExprId, then_branch: ExprId, else_branch: Option<ExprId> },
}

/// A statement node.
#[derive(Debug)]
pub enum Stmt<'a> {
    Block(ExprId),
    Expression(ExprId),
    Function { name: Token<'a>, params: Vec<Param<'a>>, body: ExprId, return_type: Option<AmystType> },
    If(ExprId),
    Print(ExprId),
    Return { keyword: Token<'a>, value: ExprId },
    For { variable: Token<'a>, iterable: ExprId, body: StmtId },
    While { condition: ExprId, body: StmtId },
    Var { name: Token<'a>, initializer: Option<ExprId> },
}

// ---------------------------------------------------------------------------
// Models
// ---------------------------------------------------------------------------

/// The model of a type annotation.
pub enum TypeView {
    Int,
    Float,
    String,
    Bool,
    Unit,
    Named(Seq<char>),
    Option(Box<TypeView>),
}

/// The model of a parameter.
pub struct ParamView {
    pub name: SpecToken,
    pub is_mut: bool,
    pub type_annotation: Option<TypeView>,
}

/// The model of a literal.
pub enum LitView {
    Number(Seq<char>),
    String(Seq<char>),
    Boolean(bool),
    Unit,
}

/// The model of an expression node.
pub enum ExprView {
    Binary { left: nat, operator: SpecToken, right: nat },
    Call { callee: nat, paren: SpecToken, arguments: Seq<nat> },
    Range { start: nat, end: nat, inclusive: bool },
    Assign { name: SpecToken, value: nat },
    Logical { left: nat, operator: SpecToken, right: nat },
    Unary { operator: SpecToken, right: nat },
    Grouping(nat),
    Literal(LitView),
    Variable(SpecToken),
    Block { stmts: Seq<nat>, expr: Option<nat> },
    If { condition: nat, then_branch: nat, else_branch: Option<nat> },
}

/// The model of a statement node.
pub enum StmtView {
    Block(nat),
    Expression(nat),
    Function { name: SpecToken, params: Seq<ParamView>, body: nat, return_type: Option<TypeView> },
    If(nat),
    Print(nat),
    Return { keyword: SpecToken, value: nat },
    For { variable: SpecToken, iterable: nat, body: nat },
    While { condition: nat, body: nat },
    Var { name: SpecToken, initializer: Option<nat> },
}

/// The model of the arena.
pub struct AstView {
    pub exprs: Seq<ExprView>,
    pub stmts: Seq<StmtView>,
}

pub open spec fn ids_view(v: Seq<usize>) -> Seq<nat> {
    v.map_values(|i: usize| i as nat)
}

pub open spec fn opt_id_view(o: Option<usize>) -> Option<nat> {
    match o {
        Some(i) => Some(i as nat),
        None => None,
    }
}

impl AmystType {
    pub open spec fn view_type(self) -> TypeView
        decreases self,
    {
        match self {
            AmystType::Int => TypeView::Int,
            AmystType::Float => TypeView::Float,
            AmystType::String => TypeView::String,
            AmystType::Bool => TypeView::Bool,
            AmystType::Unit => TypeView::Unit,
            AmystType::Named(s) => TypeView::Named(s@),
            AmystType::Option(t) => TypeView::Option(Box::new((*t).view_type())),
        }
    }
}

pub open spec fn opt_type_view(o: Option<AmystType>) -> Option<TypeView> {
    match o {
        Some(t) => Some(t.view_type()),
        None => None,
    }
}

impl<'a> View for Param<'a> {
    type V = ParamView;

    open spec fn view(&self) -> ParamView {
        ParamView { name: self.name@, is_mut: self.is_mut, type_annotation: opt_type_view(self.type_annotation) }
    }
}

impl<'a> View for Literal<'a> {
    type V = LitView;

    open spec fn view(&self) -> LitView {
        match *self {
            Literal::Number(s) => LitView::Number(s@),
            Literal::String(s) => LitView::String(s@),
            Literal::Boolean(b) => LitView::Boolean(b),
            Literal::Unit => LitView::Unit,
        }
    }
}

impl<'a> View for ExprKind<'a> {
    type V = ExprView;

    open spec fn view(&self) -> ExprView {
        match *self {
            ExprKind::Binary { left, operator, right } =>
                ExprView::Binary { left: left as nat, operator: operator@, right: right as nat },
            ExprKind::Call { callee, paren, arguments } =>
                ExprView::Call { callee: callee as nat, paren: paren@, arguments: ids_view(arguments@) },
            ExprKind::Range { start, end, inclusive } =>
                ExprView::Range { start: start as nat, end: end as nat, inclusive },
            ExprKind::Assign { name, value } => ExprView::Assign { name: name@, value: value as nat },
            ExprKind::Logical { left, operator, right } =>
                ExprView::Logical { left: left as nat, operator: operator@, right: right as nat },
            ExprKind::Unary { operator, right } => ExprView::Unary { operator: operator@, right: right as nat },
            ExprKind::Grouping(e) => ExprView::Grouping(e as nat),
            ExprKind::Literal(l) => ExprView::Literal(l@),
            ExprKind::Variable(t) => ExprView::Variable(t@),
            ExprKind::Block { stmts, expr } => ExprView::Block { stmts: ids_view(stmts@), expr: opt_id_view(expr) },
            ExprKind::If { condition, then_branch, else_branch } => ExprView::If {
                condition: condition as nat,
                then_branch: then_branch as nat,
                else_branch: opt_id_view(else_branch),
            },
        }
    }
}

impl<'a> View for Stmt<'a> {
    type V = StmtView;

    open spec fn view(&self) -> StmtView {
        match *self {
            Stmt::Block(e) => StmtView::Block(e as nat),
            Stmt::Expression(e) => StmtView::Expression(e as nat),
            Stmt::Function { name, params, body, return_type } => StmtView::Function {
                name: name@,
                params: params@.map_values(|p: Param<'a>| p@),
                body: body as nat,
                return_type: opt_type_view(return_type),
            },
            Stmt::If(e) => StmtView::If(e as nat),
            Stmt::Print(e) => StmtView::Print(e as nat),
            Stmt::Return { keyword, value } => StmtView::Return { keyword: keyword@, value: value as nat },
            Stmt::For { variable, iterable, body } =>
                StmtView::For { variable: variable@, iterable: iterable as nat, body: body as nat },
            Stmt::While { condition, body } => StmtView::While { condition: condition as nat, body: body as nat },
            Stmt::Var { name, initializer } => StmtView::Var { name: name@, initializer: opt_id_view(initializer) },
        }
    }
}

/// Whether every expression index that `e` holds lies below `bound`.
pub open spec fn expr_refs_below(e: ExprView, bound: nat) -> bool {
    match e {
        ExprView::Binary { left, right, .. } => left < bound && right < bound,
        ExprView::Call { callee, arguments, .. } =>
            callee < bound && forall|k: int| 0 <= k < arguments.len() ==> #[trigger] arguments[k] < bound,
        ExprView::Range { start, end, .. } => start < bound && end < bound,
        ExprView::Assign { value, .. } => value < bound,
        ExprView::Logical { left, right, .. } => left < bound && right < bound,
        ExprView::Unary { right, .. } => right < bound,
        ExprView::Grouping(c) => c < bound,
        ExprView::Literal(_) => true,
        ExprView::Variable(_) => true,
        ExprView::Block { expr, .. } => match expr {
            Some(x) => x < bound,
            None => true,
        },
        ExprView::If { condition, then_branch, else_branch } => condition < bound && then_branch < bound
            && match else_branch {
            Some(x) => x < bound,
            None => true,
        },
    }
}

/// Whether every statement index that `e` holds lies below `bound`.
pub open spec fn expr_stmts_below(e: ExprView, bound: nat) -> bool {
    match e {
        ExprView::Block { stmts, .. } => forall|k: int| 0 <= k < stmts.len() ==> #[trigger] stmts[k] < bound,
        _ => true,
    }
}

/// Whether every expression index that `s` holds lies below `bound`.
pub open spec fn stmt_exprs_below(s: StmtView, bound: nat) -> bool {
    match s {
        StmtView::Block(e) => e < bound,
        StmtView::Expression(e) => e < bound,
        StmtView::Function { body, .. } => body < bound,
        StmtView::If(e) => e < bound,
        StmtView::Print(e) => e < bound,
        StmtView::Return { value, .. } => value < bound,
        StmtView::For { iterable, .. } => iterable < bound,
        StmtView::While { condition, .. } => condition < bound,
        StmtView::Var { initializer, .. } => match initializer {
            Some(x) => x < bound,
            None => true,
        },
    }
}

/// Whether every statement index that `s` holds lies below `bound`.
pub open spec fn stmt_stmts_below(s: StmtView, bound: nat) -> bool {
    match s {
        StmtView::For { body, .. } => body < bound,
        StmtView::While { body, .. } => body < bound,
        _ => true,
    }
}

/// Whether the arena holds no dangling index: every index a node holds
/// names a node of the arena, an expression's operands come before it,
/// and a loop's body comes before the loop.
#[verifier::opaque]
pub open spec fn well_ordered(a: AstView) -> bool {
    &&& forall|i: int| 0 <= i < a.exprs.len() ==>
        expr_refs_below(#[trigger] a.exprs[i], i as nat) && expr_stmts_below(a.exprs[i], a.stmts.len())
    &&& forall|j: int| 0 <= j < a.stmts.len() ==>
        stmt_exprs_below(#[trigger] a.stmts[j], a.exprs.len()) && stmt_stmts_below(a.stmts[j], j as nat)
}

proof fn lemma_expr_refs_mono(e: ExprView, b1: nat, b2: nat)
    requires
        b1 <= b2,
    ensures
        expr_refs_below(e, b1) ==> expr_refs_below(e, b2),
        expr_stmts_below(e, b1) ==> expr_stmts_below(e, b2),
{
}

proof fn lemma_stmt_refs_mono(s: StmtView, b1: nat, b2: nat)
    requires
        b1 <= b2,
    ensures
        stmt_exprs_below(s, b1) ==> stmt_exprs_below(s, b2),
        stmt_stmts_below(s, b1) ==> stmt_stmts_below(s, b2),
{
}

/// Adding an expression whose indices are all held keeps the arena well ordered.
proof fn lemma_push_expr_ordered(a: AstView, e: ExprView)
    requires
        well_ordered(a),
        expr_refs_below(e, a.exprs.len()),
        expr_stmts_below(e, a.stmts.len()),
    ensures
        well_ordered(AstView { exprs: a.exprs.push(e), stmts: a.stmts }),
{
    reveal(well_ordered);
    let b = AstView { exprs: a.exprs.push(e), stmts: a.stmts };
    assert forall|j: int| 0 <= j < b.stmts.len() implies
        stmt_exprs_below(#[trigger] b.stmts[j], b.exprs.len()) && stmt_stmts_below(b.stmts[j], j as nat) by {
        lemma_stmt_refs_mono(b.stmts[j], a.exprs.len(), b.exprs.len());
    }
    assert forall|i: int| 0 <= i < b.exprs.len() implies
        expr_refs_below(#[trigger] b.exprs[i], i as nat) && expr_stmts_below(b.exprs[i], b.stmts.len()) by {
        if i < a.exprs.len() {
            assert(b.exprs[i] == a.exprs[i]);
        }
    }
}

/// Adding a statement whose indices are all held keeps the arena well ordered.
proof fn lemma_push_stmt_ordered(a: AstView, s: StmtView)
    requires
        well_ordered(a),
        stmt_exprs_below(s, a.exprs.len()),
        stmt_stmts_below(s, a.stmts.len()),
    ensures
        well_ordered(AstView { exprs: a.exprs, stmts: a.stmts.push(s) }),
{
    reveal(well_ordered);
    let b = AstView { exprs: a.exprs, stmts: a.stmts.push(s) };
    assert forall|i: int| 0 <= i < b.exprs.len() implies
        expr_refs_below(#[trigger] b.exprs[i], i as nat) && expr_stmts_below(b.exprs[i], b.stmts.len()) by {
        lemma_expr_refs_mono(b.exprs[i], a.stmts.len(), b.stmts.len());
    }
    assert forall|j: int| 0 <= j < b.stmts.len() implies
        stmt_exprs_below(#[trigger] b.stmts[j], b.exprs.len()) && stmt_stmts_below(b.stmts[j], j as nat) by {
        if j < a.stmts.len() {
            assert(b.stmts[j] == a.stmts[j]);
        }
    }
}

// ---------------------------------------------------------------------------
// The arena
// ---------------------------------------------------------------------------

/// The arena that holds every expression and statement of a program.
pub struct AST<'a> {
    expressions: Vec<ExprKind<'a>>,
    statements: Vec<Stmt<'a>>,
}

impl<'a> View for AST<'a> {
    type V = AstView;

    closed spec fn view(&self) -> AstView {
        AstView {
            exprs: self.expressions@.map_values(|e: ExprKind<'a>| e@),
            stmts: self.statements@.map_values(|s: Stmt<'a>| s@),
        }
    }
}

impl<'a> AST<'a> {
    /// An empty arena.
    pub fn new() -> (ast: Self)
        ensures
            ast@.exprs == Seq::<ExprView>::empty(),
            ast@.stmts == Seq::<StmtView>::empty(),
            well_ordered(ast@),
    {
        let ast = AST { expressions: Vec::new(), statements: Vec::new() };
        proof {
            assert(ast@.exprs =~= Seq::<ExprView>::empty());
            assert(ast@.stmts =~= Seq::<StmtView>::empty());
            reveal(well_ordered);
        }
        ast
    }

    /// Adds an expression and returns its index, which is the number of
    /// expressions held before.
    pub fn add_node(&mut self, kind: ExprKind<'a>) -> (id: ExprId)
        ensures
            id == old(self)@.exprs.len(),
            final(self)@.exprs == old(self)@.exprs.push(kind@),
            final(self)@.stmts == old(self)@.stmts,
            well_ordered(old(self)@) && expr_refs_below(kind@, old(self)@.exprs.len())
                && expr_stmts_below(kind@, old(self)@.stmts.len()) ==> well_ordered(final(self)@),
    {
        let id = self.expressions.len();
        self.expressions.push(kind);
        proof {
            assert(self@.exprs =~= old(self)@.exprs.push(kind@));
            if well_ordered(old(self)@) && expr_refs_below(kind@, old(self)@.exprs.len())
                && expr_stmts_below(kind@, old(self)@.stmts.len()) {
                lemma_push_expr_ordered(old(self)@, kind@);
            }
        }
        id
    }

    /// Adds a statement and returns its index, which is the number of
    /// statements held before.
    pub fn add_stmt(&mut self, stmt: Stmt<'a>) -> (id: StmtId)
        ensures
            id == old(self)@.stmts.len(),
            final(self)@.stmts == old(self)@.stmts.push(stmt@),
            final(self)@.exprs == old(self)@.exprs,
            well_ordered(old(self)@) && stmt_exprs_below(stmt@, old(self)@.exprs.len())
                && stmt_stmts_below(stmt@, old(self)@.stmts.len()) ==> well_ordered(final(self)@),
    {
        let id = self.statements.len();
        self.statements.push(stmt);
        proof {
            assert(self@.stmts =~= old(self)@.stmts.push(stmt@));
            if well_ordered(old(self)@) && stmt_exprs_below(stmt@, old(self)@.exprs.len())
                && stmt_stmts_below(stmt@, old(self)@.stmts.len()) {
                lemma_push_stmt_ordered(old(self)@, stmt@);
            }
        }
        id
    }

    /// The expression at index `id`.
    pub fn get_node(&self, id: ExprId) -> (e: &ExprKind<'a>)
        requires
            id < self@.exprs.len(),
        ensures
            e@ == self@.exprs[id as int],
    {
        &self.expressions[id]
    }

    /// The statement at index `id`.
    pub fn get_stmt(&self, id: StmtId) -> (s: &Stmt<'a>)
        requires
            id < self@.stmts.len(),
        ensures
            s@ == self@.stmts[id as int],
    {
        &self.statements[id]
    }

    /// The number of expressions held.
    pub fn node_count(&self) -> (n: usize)
        ensures
            n == self@.exprs.len(),
    {
        self.expressions.len()
    }
}

/// An expression added to the arena is read back at the index it was
/// given, and every expression held before keeps its index; the same holds
/// of statements.
pub proof fn law_get_after_add(a: AstView, e: ExprView, s: StmtView)
    ensures
        a.exprs.push(e)[a.exprs.len() as int] == e,
        forall|i: int| 0 <= i < a.exprs.len() ==> #[trigger] a.exprs.push(e)[i] == a.exprs[i],
        a.stmts.push(s)[a.stmts.len() as int] == s,
        forall|i: int| 0 <= i < a.stmts.len() ==> #[trigger] a.stmts.push(s)[i] == a.stmts[i],
{
}

} // verus!
