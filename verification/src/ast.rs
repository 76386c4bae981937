use vstd::prelude::*;

use crate::token::TokenType;

verus! {

/// A parsed source file.
#[derive(Debug, PartialEq)]
pub struct Program {
    pub statements: Vec<Statement>,
}

/// A pattern on the left of a binding or in a match arm.
#[derive(Debug, PartialEq)]
pub enum BindingNode {
    Identifier(String),
    ArrayBinding { elements: Vec<BindingNode>, rest: Option<Box<BindingNode>> },
    ObjectBinding { entries: Vec<(String, BindingNode)> },
    LiteralMatch(Box<Expression>),
}

#[derive(Debug, PartialEq)]
pub struct Parameter {
    pub name: String,
    pub type_annotation: String,
    pub _default_value: Option<Box<Expression>>,
    pub _is_rest: bool,
}

#[derive(Debug, PartialEq)]
pub struct MatchArm {
    pub pattern: BindingNode,
    pub guard: Option<Box<Expression>>,
    pub body: Box<Expression>,
}

#[derive(Debug, PartialEq)]
pub struct Case {
    pub value: Option<Box<Expression>>,
    pub statements: Vec<Statement>,
}

#[derive(Clone, Copy, Debug, PartialEq, Eq, Structural)]
pub enum AccessModifier {
    Public,
    Private,
    Protected,
}

#[derive(Debug, PartialEq)]
pub struct FunctionDeclaration {
    pub name: String,
    pub params: Vec<Parameter>,
    pub return_type: String,
    pub body: Box<Statement>,
    pub _is_async: bool,
    pub _line: usize,
    pub _col: usize,
}

#[derive(Debug, PartialEq)]
pub struct ClassMember {
    pub _name: String,
    pub _type_name: String,
    pub _access: AccessModifier,
    pub _is_static: bool,
    pub _initializer: Option<Box<Expression>>,
}

#[derive(Debug, PartialEq)]
pub struct ClassMethod {
    pub func: FunctionDeclaration,
    pub _access: AccessModifier,
    pub is_static: bool,
    pub _is_abstract: bool,
}

#[derive(Debug, PartialEq)]
pub struct ClassGetter {
    pub _name: String,
    pub _return_type: String,
    pub _body: Box<Statement>,
    pub _access: AccessModifier,
}

#[derive(Debug, PartialEq)]
pub struct ClassSetter {
    pub _name: String,
    pub _param_name: String,
    pub _param_type: String,
    pub _body: Box<Statement>,
    pub _access: AccessModifier,
}

#[derive(Debug, PartialEq)]
pub struct ClassDeclaration {
    pub name: String,
    pub _parent_name: String,
    pub generic_params: Vec<String>,
    pub _is_abstract: bool,
    pub _implemented_protocols: Vec<String>,
    pub _members: Vec<ClassMember>,
    pub methods: Vec<ClassMethod>,
    pub _getters: Vec<ClassGetter>,
    pub _setters: Vec<ClassSetter>,
    pub _constructor: Option<FunctionDeclaration>,
    pub _line: usize,
    pub _col: usize,
}

#[derive(Debug, PartialEq)]
pub struct ExtensionDeclaration {
    pub _target_type: String,
    pub _methods: Vec<FunctionDeclaration>,
    pub _line: usize,
    pub _col: usize,
}

#[derive(Debug, PartialEq)]
pub struct EnumMember {
    pub _name: String,
    pub _value: Option<Box<Expression>>,
}

#[derive(Debug, PartialEq)]
pub struct EnumDeclaration {
    pub name: String,
    pub _members: Vec<EnumMember>,
    pub _line: usize,
    pub _col: usize,
}

#[derive(Debug, PartialEq)]
pub struct InterfaceMethod {
    pub _name: String,
    pub _params: Vec<Parameter>,
    pub _return_type: String,
}

/// Statements. Types are kept as the text of their annotation.
#[derive(Debug, PartialEq)]
pub enum Statement {
    VarDeclaration {
        pattern: BindingNode,
        type_annotation: String,
        initializer: Option<Box<Expression>>,
        is_const: bool,
        line: usize,
        _col: usize,
    },
    BlockStmt { statements: Vec<Statement>, _line: usize, _col: usize },
    ExpressionStmt { _expression: Box<Expression>, _line: usize, _col: usize },
    IfStmt {
        condition: Box<Expression>,
        then_branch: Box<Statement>,
        else_branch: Option<Box<Statement>>,
        _line: usize,
        _col: usize,
    },
    WhileStmt { condition: Box<Expression>, body: Box<Statement>, _line: usize, _col: usize },
    ForStmt {
        init: Option<Box<Statement>>,
        condition: Option<Box<Expression>>,
        increment: Option<Box<Expression>>,
        body: Box<Statement>,
        _line: usize,
        _col: usize,
    },
    ForOfStmt {
        variable: BindingNode,
        iterable: Box<Expression>,
        body: Box<Statement>,
        _line: usize,
        _col: usize,
    },
    ReturnStmt { value: Option<Box<Expression>>, _line: usize, _col: usize },
    BreakStmt { _line: usize, _col: usize },
    ContinueStmt { _line: usize, _col: usize },
    SwitchStmt { condition: Box<Expression>, cases: Vec<Case>, _line: usize, _col: usize },
    TryStmt {
        _try_block: Box<Statement>,
        _catch_var: String,
        _catch_block: Box<Statement>,
        _finally_block: Option<Box<Statement>>,
        _line: usize,
        _col: usize,
    },
    ThrowStmt { _expression: Box<Expression>, _line: usize, _col: usize },
    FunctionDeclaration(FunctionDeclaration),
    ClassDeclaration(ClassDeclaration),
    ExtensionDeclaration(ExtensionDeclaration),
    EnumDeclaration(EnumDeclaration),
    InterfaceDeclaration { name: String, _methods: Vec<InterfaceMethod>, _line: usize, _col: usize },
    TypeAliasDeclaration { name: String, _type_def: String, _line: usize, _col: usize },
    ImportDecl {
        _names: Vec<String>,
        source: String,
        _is_default: bool,
        _line: usize,
        _col: usize,
    },
    ExportDecl { declaration: Box<Statement>, _is_default: bool, _line: usize, _col: usize },
}

/// Expressions. A number literal keeps the digits as written.
#[derive(Debug, PartialEq)]
pub enum Expression {
    NumberLiteral { value: String, _line: usize, _col: usize },
    StringLiteral { value: String, _line: usize, _col: usize },
    BooleanLiteral { value: bool, _line: usize, _col: usize },
    Identifier { name: String, _line: usize, _col: usize },
    ThisExpr { _line: usize, _col: usize },
    SuperExpr { _line: usize, _col: usize },
    NoneExpr { _line: usize, _col: usize },
    SomeExpr { _value: Box<BindingNode>, _line: usize, _col: usize },
    BinaryExpr {
        left: Box<Expression>,
        op: TokenType,
        right: Box<Expression>,
        _line: usize,
        _col: usize,
    },
    UnaryExpr { op: TokenType, right: Box<Expression>, _line: usize, _col: usize },
    AwaitExpr { expr: Box<Expression>, _line: usize, _col: usize },
    AssignmentExpr {
        target: Box<Expression>,
        value: Box<Expression>,
        _op: TokenType,
        _line: usize,
        _col: usize,
    },
    TernaryExpr {
        _condition: Box<Expression>,
        _true_branch: Box<Expression>,
        _false_branch: Box<Expression>,
        _line: usize,
        _col: usize,
    },
    NullishCoalescingExpr {
        _left: Box<Expression>,
        _right: Box<Expression>,
        _line: usize,
        _col: usize,
    },
    SequenceExpr { expressions: Vec<Expression>, _line: usize, _col: usize },
    CallExpr { callee: Box<Expression>, args: Vec<Expression>, _line: usize, _col: usize },
    OptionalCallExpr {
        callee: Box<Expression>,
        args: Vec<Expression>,
        _line: usize,
        _col: usize,
    },
    MemberAccessExpr {
        object: Box<Expression>,
        member: String,
        _line: usize,
        _col: usize,
        _is_namespace: bool,
    },
    OptionalMemberAccessExpr {
        object: Box<Expression>,
        member: String,
        _line: usize,
        _col: usize,
    },
    ArrayAccessExpr {
        target: Box<Expression>,
        index: Box<Expression>,
        _line: usize,
        _col: usize,
    },
    OptionalArrayAccessExpr {
        target: Box<Expression>,
        index: Box<Expression>,
        _line: usize,
        _col: usize,
    },
    NewExpr { class_name: String, args: Vec<Expression>, _line: usize, _col: usize },
    LambdaExpr { params: Vec<Parameter>, body: Box<Statement>, _line: usize, _col: usize },
    ArrayLiteral { elements: Vec<Expression>, _line: usize, _col: usize },
    ObjectLiteralExpr {
        entries: Vec<(String, Expression)>,
        _spreads: Vec<Expression>,
        _line: usize,
        _col: usize,
    },
    SpreadExpr { _expr: Box<Expression>, _line: usize, _col: usize },
    BlockExpr { statements: Vec<Statement>, _line: usize, _col: usize },
    MatchExpr { target: Box<Expression>, arms: Vec<MatchArm>, _line: usize, _col: usize },
}

} // verus!
