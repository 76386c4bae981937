use vstd::prelude::*;

use crate::types::TejxType;

verus! {

/// An expression of the typed intermediate form, with the source line it came from.
#[derive(Debug)]
pub enum HIRExpression {
    Literal { line: usize, value: String, ty: TejxType },
    Variable { line: usize, name: String, ty: TejxType },
    Call { line: usize, callee: String, args: Vec<HIRExpression>, ty: TejxType },
    ArrayLiteral {
        line: usize,
        elements: Vec<HIRExpression>,
        ty: TejxType,
        sized_allocation: Option<Box<HIRExpression>>,
    },
}

/// A statement of the typed intermediate form, with the source line it came from.
#[derive(Debug)]
pub enum HIRStatement {
    VarDecl { name: String, initializer: Option<HIRExpression>, ty: TejxType, _is_const: bool, line: usize },
    ExpressionStmt { line: usize, expr: HIRExpression },
    Block { line: usize, statements: Vec<HIRStatement> },
    Try {
        line: usize,
        try_block: Box<HIRStatement>,
        catch_var: Option<String>,
        catch_block: Box<HIRStatement>,
        finally_block: Option<Box<HIRStatement>>,
    },
    Return { line: usize, value: Option<HIRExpression> },
    Function {
        name: String,
        params: Vec<(String, TejxType)>,
        _return_type: TejxType,
        body: Box<HIRStatement>,
        is_extern: bool,
        async_params: Option<Vec<(String, TejxType)>>,
        line: usize,
    },
}

/// `e` reads the variable `name` of type `ty`.
pub open spec fn var_is(e: HIRExpression, line: usize, name: Seq<char>, ty: TejxType) -> bool {
    match e {
        HIRExpression::Variable { line: l, name: n, ty: t } => l == line && n@ == name && t == ty,
        _ => false,
    }
}

/// `e` is the literal `value` of type `ty`.
pub open spec fn lit_is(e: HIRExpression, line: usize, value: Seq<char>, ty: TejxType) -> bool {
    match e {
        HIRExpression::Literal { line: l, value: v, ty: t } => l == line && v@ == value && t == ty,
        _ => false,
    }
}

/// `e` calls `callee`, giving type `ty`.
pub open spec fn call_is(e: HIRExpression, line: usize, callee: Seq<char>, ty: TejxType) -> bool {
    match e {
        HIRExpression::Call { line: l, callee: c, ty: t, .. } => l == line && c@ == callee && t == ty,
        _ => false,
    }
}

/// The arguments of a call, or the elements of an array literal.
pub open spec fn parts_of(e: HIRExpression) -> Seq<HIRExpression> {
    match e {
        HIRExpression::Call { args, .. } => args@,
        HIRExpression::ArrayLiteral { elements, .. } => elements@,
        _ => Seq::empty(),
    }
}

/// `s` is a statement that evaluates a call of `callee` with no arguments.
pub open spec fn bare_call_stmt(s: HIRStatement, line: usize, callee: Seq<char>) -> bool {
    match s {
        HIRStatement::ExpressionStmt { line: l, expr } => l == line && call_is(expr, line, callee, TejxType::Void)
            && parts_of(expr).len() == 0,
        _ => false,
    }
}

/// The expression a statement evaluates, where it is one that evaluates one.
pub open spec fn stmt_expr(s: HIRStatement) -> Option<HIRExpression> {
    match s {
        HIRStatement::ExpressionStmt { expr, .. } => Some(expr),
        HIRStatement::VarDecl { initializer, .. } => initializer,
        HIRStatement::Return { value, .. } => value,
        _ => None,
    }
}

/// `s` is a block at `line`; `block_items` gives what it holds.
pub open spec fn block_at(s: HIRStatement, line: usize) -> bool {
    match s {
        HIRStatement::Block { line: l, .. } => l == line,
        _ => false,
    }
}

/// The statements of a block.
pub open spec fn block_items(s: HIRStatement) -> Seq<HIRStatement> {
    match s {
        HIRStatement::Block { statements, .. } => statements@,
        _ => Seq::empty(),
    }
}

/// `s` declares the mutable variable `name` of type `ty`, with an initializer exactly
/// when `has_init`.
pub open spec fn var_decl_is(s: HIRStatement, line: usize, name: Seq<char>, ty: TejxType, has_init: bool) -> bool {
    match s {
        HIRStatement::VarDecl { name: n, initializer, ty: t, _is_const, line: l } => {
            &&& l == line
            &&& n@ == name
            &&& t == ty
            &&& !_is_const
            &&& (initializer is Some) == has_init
        },
        _ => false,
    }
}

/// Two parameter lists with the same names and types built alike.
pub open spec fn same_params(a: Seq<(String, TejxType)>, b: Seq<(String, TejxType)>) -> bool {
    &&& a.len() == b.len()
    &&& forall|i: int| 0 <= i < a.len() ==> (#[trigger] a[i]).0@ == b[i].0@ && b[i].1.same_as(&a[i].1)
}

/// A copy of a parameter list, with the same names and types built alike.
pub fn copy_params(params: &Vec<(String, TejxType)>) -> (r: Vec<(String, TejxType)>)
    ensures
        same_params(r@, params@),
{
    let mut r: Vec<(String, TejxType)> = Vec::new();
    let mut i: usize = 0;
    while i < params.len()
        invariant
            i <= params@.len(),
            r@.len() == i,
            forall|k: int| 0 <= k < i ==> (#[trigger] r@[k]).0@ == params@[k].0@ && params@[k].1.same_as(&r@[k].1),
        decreases params@.len() - i,
    {
        let name = params[i].0.clone();
        let ty = params[i].1.duplicate();
        proof { assert(name@ == params@[i as int].0@); }
        r.push((name, ty));
        proof { assert(r@[i as int] == (name, ty)); }
        i = i + 1;
    }
    r
}

/// A call of `callee` on `args`, giving type `ty`.
pub fn call_of(line: usize, callee: &str, args: Vec<HIRExpression>, ty: TejxType) -> (e: HIRExpression)
    ensures
        call_is(e, line, callee@, ty),
        parts_of(e) == args@,
{
    HIRExpression::Call { line, callee: String::from_str(callee), args, ty }
}

/// A statement that calls `callee` with no arguments, for its effect.
pub fn bare_call(line: usize, callee: &str) -> (s: HIRStatement)
    ensures
        bare_call_stmt(s, line, callee@),
{
    HIRStatement::ExpressionStmt { line, expr: call_of(line, callee, Vec::new(), TejxType::Void) }
}

} // verus!
