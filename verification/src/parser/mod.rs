use vstd::prelude::*;

use crate::ast::{BindingNode, Expression, Program, Statement};
use crate::diagnostics::Diagnostic;
use crate::text::owned;
use crate::token::{Token, TokenType};
use declarations::{class_body, function_head, function_read, lemma_class_body_suffix, lemma_function_head_same, plain_class_at};

pub mod declarations;
pub mod expressions;
pub mod patterns;
pub mod statements;
pub mod template;
pub mod type_syntax;

verus! {

/// An end-of-input token stands at index `i` of `toks` or after it.
pub open spec fn eof_ahead(toks: Seq<Token>, i: int) -> bool {
    exists|k: int| i <= k < toks.len() && #[trigger] toks[k].token_type == TokenType::EndOfFile
}

/// `later` holds every diagnostic of `earlier`, in order, at the same places.
pub open spec fn extends(later: Seq<Diagnostic>, earlier: Seq<Diagnostic>) -> bool {
    &&& earlier.len() <= later.len()
    &&& forall|i: int| 0 <= i < earlier.len() ==> later[i] == earlier[i]
}

/// A diagnostic with the given text and place.
pub open spec fn diag_is(d: Diagnostic, msg: Seq<char>, line: int, col: int, file: Seq<char>) -> bool {
    &&& d.message@ == msg
    &&& d.line == line
    &&& d.column == col
    &&& d.filename@ == file
}

/// The pair of tokens that a two-character operator is written as when its
/// characters were lexed apart (`= =` for `==`).
pub open spec fn split_parts(tt: TokenType) -> Option<(TokenType, TokenType)> {
    match tt {
        TokenType::EqualEqual => Some((TokenType::Equals, TokenType::Equals)),
        TokenType::BangEqual => Some((TokenType::Bang, TokenType::Equals)),
        TokenType::LessEqual => Some((TokenType::Less, TokenType::Equals)),
        TokenType::GreaterEqual => Some((TokenType::Greater, TokenType::Equals)),
        TokenType::PlusPlus => Some((TokenType::Plus, TokenType::Plus)),
        TokenType::MinusMinus => Some((TokenType::Minus, TokenType::Minus)),
        _ => None,
    }
}

/// A token made by joining two: an operator that `split_parts` knows, with its text.
pub open spec fn is_joined(t: Token) -> bool {
    split_parts(t.token_type) is Some && t.value@ == joined_text(t.token_type)
}

/// The text of an operator that `split_parts` can join.
pub open spec fn joined_text(tt: TokenType) -> Seq<char> {
    match tt {
        TokenType::EqualEqual => seq!['=', '='],
        TokenType::BangEqual => seq!['!', '='],
        TokenType::LessEqual => seq!['<', '='],
        TokenType::GreaterEqual => seq!['>', '='],
        TokenType::PlusPlus => seq!['+', '+'],
        _ => seq!['-', '-'],
    }
}

/// Token kinds that may also stand where a name is expected.
pub open spec fn is_keyword_name(tt: TokenType) -> bool {
    match tt {
        TokenType::Get | TokenType::KwSet | TokenType::Interface | TokenType::Enum
        | TokenType::Async | TokenType::Await | TokenType::Option | TokenType::String
        | TokenType::Number | TokenType::From | TokenType::To | TokenType::Of
        | TokenType::Public | TokenType::Private | TokenType::Protected | TokenType::Static
        | TokenType::Abstract | TokenType::Extends | TokenType::KwSome | TokenType::KwNone
        | TokenType::TypeAny | TokenType::TypeVoid | TokenType::TypeInt | TokenType::TypeFloat
        | TokenType::TypeInt16 | TokenType::TypeInt64 | TokenType::TypeInt128
        | TokenType::TypeFloat16 | TokenType::TypeFloat64 | TokenType::TypeChar
        | TokenType::TypeString | TokenType::TypeBoolean => true,
        _ => false,
    }
}

/// Error recovery stops skipping before the token at `p`.
pub open spec fn sync_stop(toks: Seq<Token>, p: int) -> bool {
    ||| toks[p].token_type == TokenType::EndOfFile
    ||| toks[p - 1].token_type == TokenType::Semicolon
    ||| is_sync_point(toks[p].token_type)
}

/// Token kinds that can name something: identifiers and the keywords allowed as names.
pub open spec fn is_name_like(tt: TokenType) -> bool {
    tt == TokenType::Identifier || is_keyword_name(tt)
}

/// Token kinds at which error recovery stops skipping.
pub open spec fn is_sync_point(tt: TokenType) -> bool {
    match tt {
        TokenType::Class | TokenType::Function | TokenType::Let | TokenType::Const
        | TokenType::For | TokenType::If | TokenType::While | TokenType::Return
        | TokenType::Switch | TokenType::Export | TokenType::Import
        | TokenType::CloseBrace => true,
        _ => false,
    }
}

/// The kind of statement that a declaration beginning with a token of kind `tt` is
/// read as. `async` and `abstract` depend on the token after them and are left open.
pub open spec fn opens_as(tt: TokenType, s: Statement) -> bool {
    match tt {
        TokenType::Let | TokenType::Const => s is VarDeclaration || s is BlockStmt,
        TokenType::Function => s is FunctionDeclaration,
        TokenType::Class => s is ClassDeclaration,
        TokenType::Interface => s is InterfaceDeclaration,
        TokenType::Extension => s is ExtensionDeclaration,
        TokenType::Enum => s is EnumDeclaration,
        TokenType::TypeAlias => s is TypeAliasDeclaration,
        TokenType::Export => s is ExportDecl,
        TokenType::Import => s is ImportDecl,
        TokenType::Async | TokenType::Abstract | TokenType::EndOfFile => true,
        TokenType::OpenBrace => s is BlockStmt,
        TokenType::If => s is IfStmt,
        TokenType::While => s is WhileStmt,
        TokenType::For => s is ForStmt || s is ForOfStmt,
        TokenType::Return => s is ReturnStmt,
        TokenType::Break => s is BreakStmt,
        TokenType::Continue => s is ContinueStmt,
        TokenType::Switch => s is SwitchStmt,
        TokenType::Try => s is TryStmt,
        TokenType::Throw => s is ThrowStmt,
        _ => s is ExpressionStmt,
    }
}

/// `stmts` were read one after another from `toks`, the first at `from` and each
/// where the one before ended, the last ending at `to`: `starts` and `ends` give
/// where each began and ended. Each is of the kind its first token opens; a
/// declaration `let NAME = OPERAND ;` is read as such and takes its five tokens, and
/// one with the name missing takes its four; a class as `plain_class_at` reads it ends
/// after its `}`; a function whose head `function_head` reads is read as
/// `function_read` says.
pub open spec fn read_in_order(toks: Seq<Token>, from: int, to: int, stmts: Seq<Statement>, starts: Seq<int>, ends: Seq<int>) -> bool {
    &&& starts.len() == stmts.len()
    &&& ends.len() == stmts.len()
    &&& forall|k: int| 0 <= k < ends.len() ==> starts[k] < #[trigger] ends[k]
    &&& forall|k: int| 0 <= k < ends.len() - 1 ==> starts[k + 1] == #[trigger] ends[k]
    &&& stmts.len() > 0 ==> ends.last() == to
    &&& stmts.len() == 0 ==> from == to
    &&& forall|k: int| 0 <= k < stmts.len() && simple_declaration_at(toks, #[trigger] starts[k])
        ==> ends[k] == starts[k] + 5
    &&& forall|k: int| 0 <= k < stmts.len() && nameless_declaration_at(toks, #[trigger] starts[k])
        ==> ends[k] == starts[k] + 4
    &&& forall|k: int| 0 <= k < stmts.len() && plain_class_at(toks, #[trigger] starts[k])
        ==> ends[k] == class_body(toks, starts[k] + 3).unwrap().4 + 1
    &&& stmts.len() > 0 ==> starts[0] == from
    &&& forall|k: int| 0 <= k < starts.len() ==> from <= #[trigger] starts[k] < to
    &&& forall|k: int| 0 <= k < starts.len() - 1 ==> #[trigger] starts[k] < starts[k + 1]
    &&& forall|k: int| 0 <= k < stmts.len() ==> opens_as(toks[#[trigger] starts[k]].token_type, stmts[k])
    &&& forall|k: int| 0 <= k < stmts.len() && simple_declaration_at(toks, #[trigger] starts[k])
        ==> simple_declaration_is(toks, starts[k], stmts[k])
    &&& forall|k: int| 0 <= k < stmts.len() && toks[#[trigger] starts[k]].token_type == TokenType::Function
        && function_head(toks, starts[k]) is Some ==> function_read(toks, starts[k], stmts[k])
}

/// Token kinds after which no level of expression reads further.
pub open spec fn ends_expression(tt: TokenType) -> bool {
    match tt {
        TokenType::Semicolon | TokenType::CloseParen | TokenType::CloseBracket | TokenType::CloseBrace
        | TokenType::EndOfFile => true,
        _ => false,
    }
}

/// Token kinds that make an expression on their own.
pub open spec fn is_lone_operand(tt: TokenType) -> bool {
    match tt {
        TokenType::Number | TokenType::String | TokenType::True | TokenType::False | TokenType::KwNone
        | TokenType::This | TokenType::Super | TokenType::Identifier => true,
        _ => false,
    }
}

/// The expression a token that makes one on its own is read as.
pub open spec fn operand_expr(t: Token) -> Expression {
    match t.token_type {
        TokenType::Number => Expression::NumberLiteral { value: t.value, _line: t.line, _col: t.column },
        TokenType::String => Expression::StringLiteral { value: t.value, _line: t.line, _col: t.column },
        TokenType::True => Expression::BooleanLiteral { value: true, _line: 0, _col: 0 },
        TokenType::False => Expression::BooleanLiteral { value: false, _line: 0, _col: 0 },
        TokenType::KwNone => Expression::NoneExpr { _line: 0, _col: 0 },
        TokenType::This => Expression::ThisExpr { _line: 0, _col: 0 },
        TokenType::Super => Expression::SuperExpr { _line: 0, _col: 0 },
        _ => Expression::Identifier { name: t.value, _line: t.line, _col: t.column },
    }
}

/// How tightly a token binds as an operator between two operands, loosest first:
/// `||` 2, `&&` 3, `|` 4, `^` 5, `&` 6, equality 7, comparison 8, shifts 9, `+ -` 10,
/// `* / %` 11; 0 for a token that is no such operator.
pub open spec fn binary_level(tt: TokenType) -> int {
    match tt {
        TokenType::PipePipe => 2,
        TokenType::AmpersandAmpersand => 3,
        TokenType::Pipe => 4,
        TokenType::Caret => 5,
        TokenType::Ampersand => 6,
        TokenType::EqualEqual | TokenType::BangEqual | TokenType::EqualEqualEqual | TokenType::BangEqualEqual => 7,
        TokenType::GreaterEqual | TokenType::Greater | TokenType::LessEqual | TokenType::Less
        | TokenType::Instanceof => 8,
        TokenType::LessLess | TokenType::GreaterGreater => 9,
        TokenType::Plus | TokenType::Minus => 10,
        TokenType::Star | TokenType::Slash | TokenType::Modulo => 11,
        _ => 0,
    }
}

/// The expression `X op Y` from `p` is read as: `op` joining the two operands, at the
/// place of `op`.
pub open spec fn binary_expr(t: Seq<Token>, p: int) -> Expression {
    Expression::BinaryExpr {
        left: Box::new(operand_expr(t[p])),
        op: t[p + 1].token_type,
        right: Box::new(operand_expr(t[p + 2])),
        _line: t[p + 1].line,
        _col: t[p + 1].column,
    }
}

/// The level at which the right operand of a binary operator of level `level` is
/// read: after `&&`, that of equality; after a comparison, that of `+`; else the next
/// tighter one.
pub open spec fn right_operand_level(level: int) -> int {
    if level == 3 {
        7
    } else if level == 8 {
        10
    } else {
        level + 1
    }
}

/// `X op1 Y op2 Z` from `p`, with `op2` binding more tightly, grouped to the right:
/// `op1` joins `X` and `Y op2 Z`, at the place of `op1`.
pub open spec fn right_grouped(t: Seq<Token>, p: int) -> Expression {
    Expression::BinaryExpr {
        left: Box::new(operand_expr(t[p])),
        op: t[p + 1].token_type,
        right: Box::new(binary_expr(t, p + 2)),
        _line: t[p + 1].line,
        _col: t[p + 1].column,
    }
}

/// `X op1 Y op2 Z` from `p`, with `op1` binding at least as tightly as `op2`, grouped
/// to the left: `op2` joins `X op1 Y` and `Z`, at the place of `op2`.
pub open spec fn left_grouped(t: Seq<Token>, p: int) -> Expression {
    Expression::BinaryExpr {
        left: Box::new(Expression::BinaryExpr {
            left: Box::new(operand_expr(t[p])),
            op: t[p + 1].token_type,
            right: Box::new(operand_expr(t[p + 2])),
            _line: t[p + 1].line,
            _col: t[p + 1].column,
        }),
        op: t[p + 3].token_type,
        right: Box::new(operand_expr(t[p + 4])),
        _line: t[p + 3].line,
        _col: t[p + 3].column,
    }
}

/// From `p` the tokens read `let NAME = OPERAND ;` (or `const`): one name, given a
/// value by a token that makes an expression on its own.
pub open spec fn simple_declaration_at(toks: Seq<Token>, p: int) -> bool {
    &&& 0 <= p
    &&& p + 4 < toks.len()
    &&& (toks[p].token_type == TokenType::Let || toks[p].token_type == TokenType::Const)
    &&& toks[p + 1].token_type == TokenType::Identifier
    &&& toks[p + 2].token_type == TokenType::Equals
    &&& is_lone_operand(toks[p + 3].token_type)
    &&& toks[p + 4].token_type == TokenType::Semicolon
}

/// `s` is the declaration that `simple_declaration_at(toks, p)` describes.
pub open spec fn simple_declaration_is(toks: Seq<Token>, p: int, s: Statement) -> bool {
    s matches Statement::VarDeclaration { pattern, type_annotation, initializer, is_const, line, _col }
        && pattern == BindingNode::Identifier(toks[p + 1].value) && type_annotation@.len() == 0
        && initializer == Some(Box::new(operand_expr(toks[p + 3])))
        && is_const == (toks[p].token_type == TokenType::Const) && line == toks[p].line
        && _col == toks[p].column
}

/// From `p` the tokens read `let = OPERAND ;` (or `const`): the name is missing.
pub open spec fn nameless_declaration_at(toks: Seq<Token>, p: int) -> bool {
    &&& 0 <= p
    &&& p + 3 < toks.len()
    &&& (toks[p].token_type == TokenType::Let || toks[p].token_type == TokenType::Const)
    &&& toks[p + 1].token_type == TokenType::Equals
    &&& is_lone_operand(toks[p + 2].token_type)
    &&& toks[p + 3].token_type == TokenType::Semicolon
}

/// `errs` is `before` with one diagnostic more: the missing binding pattern,
/// reported at the `=` that stands at `p + 1`.
pub open spec fn reports_missing_pattern(errs: Seq<Diagnostic>, before: Seq<Diagnostic>, toks: Seq<Token>, p: int, file: Seq<char>) -> bool {
    &&& errs.len() == before.len() + 1
    &&& extends(errs, before)
    &&& diag_is(errs.last(), "Expected binding pattern"@, toks[p + 1].line as int, toks[p + 1].column as int, file)
}

/// The interpolation tokens `entries` give for the token at `index`: those of the
/// latest entry for it, or none.
pub open spec fn tokens_for(entries: Seq<(usize, Seq<Seq<Token>>)>, index: int) -> Seq<Seq<Token>>
    decreases entries.len(),
{
    if entries.len() == 0 {
        Seq::empty()
    } else if entries.last().0 == index {
        entries.last().1
    } else {
        tokens_for(entries.drop_last(), index)
    }
}

/// A token-by-token copy of `v`.
pub fn copy_tokens(v: &Vec<Token>) -> (r: Vec<Token>)
    ensures
        r@ == v@,
{
    let mut out: Vec<Token> = Vec::new();
    let mut i: usize = 0;
    while i < v.len()
        invariant
            i <= v@.len(),
            out@ =~= v@.take(i as int),
        decreases v@.len() - i,
    {
        out.push(v[i].duplicate());
        proof {
            assert(v@.take(i + 1) =~= v@.take(i as int).push(v@[i as int]));
        }
        i = i + 1;
    }
    proof {
        assert(v@.take(v@.len() as int) =~= v@);
    }
    out
}

/// Whether an end-of-input token stands in `v`.
pub fn has_end(v: &Vec<Token>) -> (r: bool)
    ensures
        r == eof_ahead(v@, 0),
{
    let mut i: usize = 0;
    while i < v.len()
        invariant
            i <= v@.len(),
            forall|k: int| 0 <= k < i ==> v@[k].token_type != TokenType::EndOfFile,
        decreases v@.len() - i,
    {
        if v[i].token_type == TokenType::EndOfFile {
            return true;
        }
        i = i + 1;
    }
    false
}

/// Recursive-descent parser from tokens to a syntax tree, with error recovery.
pub struct Parser {
    tokens: Vec<Token>,
    current: usize,
    errors: Vec<Diagnostic>,
    filename: String,
    pub async_enabled: bool,
    /// For a template-string token, by its index, the tokens of each of its `${...}`.
    template_tokens: Vec<(usize, Vec<Vec<Token>>)>,
    /// Whether interpolations are parsed here; a parser made for one does not.
    reads_interpolations: bool,
}

impl Parser {
    /// The token stream, with the operators that parsing has joined.
    pub closed spec fn toks(&self) -> Seq<Token> {
        self.tokens@
    }

    /// The index of the token the parser stands on.
    pub closed spec fn pos(&self) -> int {
        self.current as int
    }

    /// The diagnostics reported so far.
    pub closed spec fn errs(&self) -> Seq<Diagnostic> {
        self.errors@
    }

    /// Whether `async` and `await` are accepted.
    pub closed spec fn async_on(&self) -> bool {
        self.async_enabled
    }

    /// The name of the file the tokens come from.
    pub closed spec fn file(&self) -> Seq<char> {
        self.filename@
    }

    /// The tokens given for the interpolations of template strings: for a token index,
    /// one token list per `${...}`; a later entry for an index counts over an earlier.
    pub closed spec fn interpolations(&self) -> Seq<(usize, Seq<Seq<Token>>)> {
        self.template_tokens@.map_values(|e: (usize, Vec<Vec<Token>>)| (e.0, e.1@.map_values(|v: Vec<Token>| v@)))
    }

    /// 1 for a parser that parses interpolations, 0 for one made for an interpolation.
    pub closed spec fn nest(&self) -> int {
        if self.reads_interpolations { 1 } else { 0 }
    }

    /// The parser stands on a token, and an end-of-input token lies at or after it.
    pub open spec fn inv(self) -> bool {
        &&& 0 <= self.pos() < self.toks().len() <= usize::MAX
        &&& eof_ahead(self.toks(), self.pos())
    }

    /// As `inv`, and a token lies behind the parser unless it stands on a real token.
    pub open spec fn wf(self) -> bool {
        &&& self.inv()
        &&& (self.pos() > 0 || !self.spec_at_end())
    }

    /// The token the parser stands on.
    pub open spec fn spec_peek(self) -> Token {
        self.toks()[self.pos()]
    }

    /// The token before the current one.
    pub open spec fn spec_previous(self) -> Token {
        self.toks()[self.pos() - 1]
    }

    /// The parser stands on the end-of-input token.
    pub open spec fn spec_at_end(self) -> bool {
        self.spec_peek().token_type == TokenType::EndOfFile
    }

    /// Before the end of input, the current token is of kind `tt`.
    pub open spec fn spec_check(self, tt: TokenType) -> bool {
        !self.spec_at_end() && self.spec_peek().token_type == tt
    }

    /// The token after the current one is of kind `tt`.
    pub open spec fn spec_check_next(self, tt: TokenType) -> bool {
        self.pos() + 1 < self.toks().len() && self.toks()[self.pos() + 1].token_type == tt
    }

    /// The parser stands on a token that makes an expression on its own, and a token
    /// that ends every expression follows it.
    pub open spec fn lone_operand(self) -> bool {
        &&& self.pos() + 1 < self.toks().len()
        &&& is_lone_operand(self.spec_peek().token_type)
        &&& ends_expression(self.toks()[self.pos() + 1].token_type)
    }

    /// The parser stands on `X op Y` and a token that ends every expression: `X` and
    /// `Y` make an expression on their own, and `op` is a binary operator of level
    /// `level` or tighter.
    pub open spec fn simple_binary(self, level: int) -> bool {
        let t = self.toks();
        let p = self.pos();
        &&& 0 <= p
        &&& p + 3 < t.len()
        &&& is_lone_operand(t[p].token_type)
        &&& 1 <= binary_level(t[p + 1].token_type)
        &&& level <= binary_level(t[p + 1].token_type)
        &&& is_lone_operand(t[p + 2].token_type)
        &&& ends_expression(t[p + 3].token_type)
    }

    /// The parser stands on a token that makes an expression on its own, then a binary
    /// operator looser than `level`, then another token that makes one on its own.
    pub open spec fn operand_then(self, level: int) -> bool {
        let t = self.toks();
        let p = self.pos();
        &&& 0 <= p
        &&& p + 2 < t.len()
        &&& is_lone_operand(t[p].token_type)
        &&& 1 <= binary_level(t[p + 1].token_type) < level
        &&& is_lone_operand(t[p + 2].token_type)
    }

    /// The parser stands on `X op1 Y op2 Z` and a token that ends every expression:
    /// `X`, `Y` and `Z` make an expression on their own, and `op1` and `op2` are binary
    /// operators, `op2` of level `level` or tighter and `op1` binding at least as
    /// tightly as `op2`.
    pub open spec fn chain_of_two(self, level: int) -> bool {
        let t = self.toks();
        let p = self.pos();
        &&& 0 <= p
        &&& p + 5 < t.len()
        &&& is_lone_operand(t[p].token_type)
        &&& is_lone_operand(t[p + 2].token_type)
        &&& is_lone_operand(t[p + 4].token_type)
        &&& 1 <= binary_level(t[p + 3].token_type)
        &&& level <= binary_level(t[p + 3].token_type)
        &&& binary_level(t[p + 3].token_type) <= binary_level(t[p + 1].token_type)
        &&& ends_expression(t[p + 5].token_type)
    }

    /// The parser stands on `X op1 Y op2 W`: `X`, `Y` and `W` make an expression on
    /// their own, `op1` is a binary operator of level `level` or tighter, and `op2` a
    /// binary operator looser than `level`.
    pub open spec fn binary_then(self, level: int) -> bool {
        let t = self.toks();
        let p = self.pos();
        &&& 0 <= p
        &&& p + 4 < t.len()
        &&& is_lone_operand(t[p].token_type)
        &&& is_lone_operand(t[p + 2].token_type)
        &&& is_lone_operand(t[p + 4].token_type)
        &&& 1 <= binary_level(t[p + 3].token_type)
        &&& binary_level(t[p + 3].token_type) < level
        &&& level <= binary_level(t[p + 1].token_type)
    }

    /// The parser stands on `X op1 Y op2 Z` and a token that ends every expression:
    /// `X`, `Y` and `Z` make an expression on their own, `op1` is a binary operator of
    /// level `level` or tighter, and `op2` binds more tightly than `op1`, at least as
    /// tightly as the operands on the right of `op1` are read.
    pub open spec fn tighter_second(self, level: int) -> bool {
        let t = self.toks();
        let p = self.pos();
        &&& 0 <= p
        &&& p + 5 < t.len()
        &&& is_lone_operand(t[p].token_type)
        &&& is_lone_operand(t[p + 2].token_type)
        &&& is_lone_operand(t[p + 4].token_type)
        &&& 1 <= binary_level(t[p + 1].token_type)
        &&& level <= binary_level(t[p + 1].token_type)
        &&& binary_level(t[p + 1].token_type) < binary_level(t[p + 3].token_type)
        &&& right_operand_level(binary_level(t[p + 1].token_type)) <= binary_level(t[p + 3].token_type)
        &&& ends_expression(t[p + 5].token_type)
    }

    /// `self` read the `X op1 Y op2 Z` that `before` stood on, as `r`, grouped to the
    /// right, and nothing else.
    pub open spec fn read_right(self, before: Parser, r: Expression) -> bool {
        &&& r == right_grouped(before.toks(), before.pos())
        &&& self.pos() == before.pos() + 5
        &&& self.toks() == before.toks()
        &&& self.errs() == before.errs()
    }

    /// `self` read the `X op1 Y op2 Z` that `before` stood on, as `r`, and nothing else.
    pub open spec fn read_chain(self, before: Parser, r: Expression) -> bool {
        &&& r == left_grouped(before.toks(), before.pos())
        &&& self.pos() == before.pos() + 5
        &&& self.toks() == before.toks()
        &&& self.errs() == before.errs()
    }

    /// `self` read the `X op Y` that `before` stood on, as `r`, and nothing else.
    pub open spec fn read_binary(self, before: Parser, r: Expression) -> bool {
        &&& r == binary_expr(before.toks(), before.pos())
        &&& self.pos() == before.pos() + 3
        &&& self.toks() == before.toks()
        &&& self.errs() == before.errs()
    }

    /// What an expression reader for operators of level `level` and tighter gives on
    /// the short forms that `before` may stand on: a lone operand before a looser
    /// operator is read alone; `X op Y` is read as `op` joining them; `X op1 Y op2 Z`
    /// is grouped to the left where `op1` binds at least as tightly as `op2`, and to
    /// the right where `op2` binds more tightly (and its operands are read at its level).
    #[verifier::opaque]
    pub open spec fn reads_forms(self, before: Parser, r: Expression, level: int) -> bool {
        &&& before.operand_then(level) ==> self.read_lone(before, r)
        &&& before.simple_binary(level) ==> self.read_binary(before, r)
        &&& before.chain_of_two(level) ==> self.read_chain(before, r)
        &&& before.binary_then(level) ==> self.read_binary(before, r)
        &&& before.tighter_second(level) ==> self.read_right(before, r)
    }

    /// `self` read the lone operand that `before` stood on, as `r`, and nothing else.
    pub open spec fn read_lone(self, before: Parser, r: Expression) -> bool {
        &&& r == operand_expr(before.spec_peek())
        &&& self.pos() == before.pos() + 1
        &&& self.toks() == before.toks()
        &&& self.errs() == before.errs()
    }

    /// The number of tokens from the parser's place to the end of the stream.
    pub open spec fn remaining(self) -> int {
        self.toks().len() - self.pos()
    }

    /// `self` is a later state of `before`: the same input and settings, not
    /// moved back, no diagnostic lost, and tokens changed only strictly between the
    /// two places, each into an operator joined from two tokens.
    pub open spec fn follows(self, before: Parser) -> bool {
        &&& self.wf()
        &&& self.toks().len() == before.toks().len()
        &&& forall|i: int| 0 <= i < self.toks().len() && !(before.pos() < i < self.pos())
            ==> #[trigger] self.toks()[i] == before.toks()[i]
        &&& forall|i: int| 0 <= i < self.toks().len() && #[trigger] self.toks()[i] != before.toks()[i]
            ==> is_joined(self.toks()[i])
        &&& self.pos() >= before.pos()
        &&& self.file() == before.file()
        &&& self.async_on() == before.async_on()
        &&& self.nest() == before.nest()
        &&& self.interpolations() == before.interpolations()
        &&& extends(self.errs(), before.errs())
    }

    /// `self` stands past the token `before` stood on, unless that was the end of input.
    pub open spec fn moved_from(self, before: Parser) -> bool {
        before.spec_at_end() || self.pos() > before.pos()
    }

    /// Only the place changed, by the way `advance` moves.
    pub open spec fn advanced_once(self, before: Parser) -> bool {
        &&& self.toks() == before.toks()
        &&& self.errs() == before.errs()
        &&& self.file() == before.file()
        &&& self.async_on() == before.async_on()
        &&& self.nest() == before.nest()
        &&& self.interpolations() == before.interpolations()
        &&& self.pos() == (if before.spec_at_end() { before.pos() } else { before.pos() + 1 })
    }


    /// Being a later state is transitive.
    pub proof fn lemma_follows_trans(a: Parser, b: Parser, c: Parser)
        requires
            b.follows(a),
            c.follows(b),
        ensures
            c.follows(a),
    {
    }

    proof fn lemma_step(self)
        requires
            self.inv(),
            !self.spec_at_end(),
        ensures
            self.pos() + 1 < self.toks().len(),
            eof_ahead(self.toks(), self.pos() + 1),
    {
        let k = choose|k: int|
            self.pos() <= k < self.toks().len() && #[trigger] self.toks()[k].token_type
                == TokenType::EndOfFile;
        assert(k != self.pos());
        assert(self.pos() + 1 <= k < self.toks().len() && self.toks()[k].token_type
            == TokenType::EndOfFile);
    }

    /// A parser at the first of `tokens`, with no diagnostics and async enabled.
    pub fn new(tokens: Vec<Token>, filename: &str) -> (p: Self)
        ensures
            p.toks() == tokens@,
            p.toks().len() <= usize::MAX,
            p.pos() == 0,
            p.errs() == Seq::<Diagnostic>::empty(),
            p.file() == filename@,
            p.async_on(),
            p.nest() == 1,
            p.interpolations().len() == 0,
    {
        let n = tokens.len();
        assert(tokens@.len() == n);
        Parser {
            tokens,
            current: 0,
            errors: Vec::new(),
            filename: owned(filename),
            async_enabled: true,
            template_tokens: Vec::new(),
            reads_interpolations: true,
        }
    }

    /// A parser for the tokens of one interpolation: as `new`, but it does not parse
    /// interpolations of its own.
    fn new_for_interpolation(tokens: Vec<Token>, filename: &str) -> (p: Self)
        ensures
            p.toks() == tokens@,
            p.pos() == 0,
            p.errs() == Seq::<Diagnostic>::empty(),
            p.file() == filename@,
            p.async_on(),
            p.nest() == 0,
    {
        Parser {
            tokens,
            current: 0,
            errors: Vec::new(),
            filename: owned(filename),
            async_enabled: true,
            template_tokens: Vec::new(),
            reads_interpolations: false,
        }
    }

    /// Gives, for the template-string token at `index`, the tokens of each of its
    /// interpolations, as a lexer made them of the text inside each `${...}`.
    pub fn set_interpolations(&mut self, index: usize, lists: Vec<Vec<Token>>)
        ensures
            final(self).interpolations() == old(self).interpolations().push((index, lists@.map_values(|v: Vec<Token>| v@))),
            final(self).toks() == old(self).toks(),
            final(self).pos() == old(self).pos(),
            final(self).errs() == old(self).errs(),
            final(self).file() == old(self).file(),
            final(self).async_on() == old(self).async_on(),
            final(self).nest() == old(self).nest(),
    {
        self.template_tokens.push((index, lists));
        assert(self.interpolations() =~= old(self).interpolations().push((index, lists@.map_values(|v: Vec<Token>| v@))));
    }

    /// The interpolation tokens given for the token at `index`.
    pub(crate) fn interpolations_at(&self, index: usize) -> (r: Vec<Vec<Token>>)
        ensures
            r@.map_values(|v: Vec<Token>| v@) == tokens_for(self.interpolations(), index as int),
    {
        let mut i = self.template_tokens.len();
        assert(self.interpolations().take(i as int) =~= self.interpolations());
        while i > 0
            invariant
                i <= self.template_tokens@.len(),
                tokens_for(self.interpolations(), index as int)
                    == tokens_for(self.interpolations().take(i as int), index as int),
            decreases i,
        {
            proof {
                assert(self.interpolations().take(i as int).drop_last() =~= self.interpolations().take(i - 1));
            }
            if self.template_tokens[i - 1].0 == index {
                let lists = &self.template_tokens[i - 1].1;
                let mut out: Vec<Vec<Token>> = Vec::new();
                let mut k: usize = 0;
                while k < lists.len()
                    invariant
                        k <= lists@.len(),
                        out@.map_values(|v: Vec<Token>| v@) =~= lists@.take(k as int).map_values(|v: Vec<Token>| v@),
                    decreases lists@.len() - k,
                {
                    let ghost before = out@;
                    out.push(copy_tokens(&lists[k]));
                    proof {
                        assert(out@.map_values(|v: Vec<Token>| v@) =~= before.map_values(|v: Vec<Token>| v@).push(lists@[k as int]@));
                        assert(lists@.take(k + 1) =~= lists@.take(k as int).push(lists@[k as int]));
                    }
                    k = k + 1;
                }
                proof {
                    assert(lists@.take(lists@.len() as int) =~= lists@);
                }
                return out;
            }
            i = i - 1;
        }
        Vec::new()
    }

    /// Parses declarations up to the end of input. When a declaration cannot be
    /// read, recovery skips to the next statement boundary.
    pub fn parse_program(&mut self) -> (prog: Program)
        requires
            old(self).inv(),
        ensures
            final(self).inv(),
            final(self).spec_at_end(),
            final(self).toks().len() == old(self).toks().len(),
            final(self).pos() >= old(self).pos(),
            final(self).file() == old(self).file(),
            final(self).async_on() == old(self).async_on(),
            final(self).nest() == old(self).nest(),
            final(self).interpolations() == old(self).interpolations(),
            extends(final(self).errs(), old(self).errs()),
            old(self).spec_at_end() ==> prog.statements@.len() == 0 && *final(self) == *old(self),
            !old(self).spec_at_end() ==> prog.statements@.len() > 0
                && opens_as(old(self).spec_peek().token_type, prog.statements@[0]),
            exists|starts: Seq<int>, ends: Seq<int>| read_in_order(
                old(self).toks(),
                old(self).pos(),
                final(self).pos(),
                prog.statements@,
                starts,
                ends,
            ),
            simple_declaration_at(old(self).toks(), old(self).pos()) ==> prog.statements@.len() > 0
                && simple_declaration_is(old(self).toks(), old(self).pos(), prog.statements@[0]),
            nameless_declaration_at(old(self).toks(), old(self).pos())
                && old(self).toks()[old(self).pos() + 4].token_type == TokenType::EndOfFile ==> {
                &&& prog.statements@.len() == 1
                &&& reports_missing_pattern(final(self).errs(), old(self).errs(), old(self).toks(), old(self).pos(), old(self).file())
            },
            simple_declaration_at(old(self).toks(), old(self).pos())
                && old(self).toks()[old(self).pos() + 5].token_type == TokenType::EndOfFile ==> {
                &&& prog.statements@.len() == 1
                &&& final(self).errs() == old(self).errs()
            },
            forall|i: int| 0 <= i <= old(self).pos() ==> #[trigger] final(self).toks()[i] == old(self).toks()[i],
            forall|i: int| 0 <= i < final(self).toks().len() && #[trigger] final(self).toks()[i] != old(self).toks()[i]
                ==> is_joined(final(self).toks()[i]),
    {
        let ghost start = *self;
        let ghost mut starts: Seq<int> = Seq::empty();
        let ghost mut ends: Seq<int> = Seq::empty();
        let mut statements: Vec<Statement> = Vec::new();
        while !self.is_at_end()
            invariant
                start == *old(self),
                self.inv(),
                self.toks().len() == start.toks().len(),
                self.pos() >= start.pos(),
                self.file() == start.file(),
                self.async_on() == start.async_on(),
                self.nest() == start.nest(),
                self.interpolations() == start.interpolations(),
                extends(self.errs(), start.errs()),
                start.spec_at_end() ==> statements@.len() == 0 && *self == start,
                statements@.len() == 0 ==> *self == start,
                read_in_order(start.toks(), start.pos(), self.pos(), statements@, starts, ends),
                forall|k: int| 0 <= k < starts.len() ==> #[trigger] self.toks()[starts[k]] == start.toks()[starts[k]],
                forall|i: int| self.pos() <= i < self.toks().len() ==> #[trigger] self.toks()[i] == start.toks()[i],
                forall|i: int| 0 <= i <= start.pos() ==> #[trigger] self.toks()[i] == start.toks()[i],
                simple_declaration_at(start.toks(), start.pos()) && start.pos() + 5 < start.toks().len()
                    && start.toks()[start.pos() + 5].token_type == TokenType::EndOfFile
                    && statements@.len() > 0 ==> {
                    &&& statements@.len() == 1
                    &&& self.pos() == start.pos() + 5
                    &&& self.errs() == start.errs()
                },
                nameless_declaration_at(start.toks(), start.pos()) && start.pos() + 4 < start.toks().len()
                    && start.toks()[start.pos() + 4].token_type == TokenType::EndOfFile
                    && statements@.len() > 0 ==> {
                    &&& statements@.len() == 1
                    &&& self.pos() == start.pos() + 4
                    &&& reports_missing_pattern(self.errs(), start.errs(), start.toks(), start.pos(), start.file())
                },
                forall|i: int| 0 <= i < self.toks().len() && #[trigger] self.toks()[i] != start.toks()[i]
                    ==> is_joined(self.toks()[i]),
            decreases self.remaining(),
        {
            let ghost before = *self;
            let ghost at = self.pos();
            proof {
                if at + 3 < self.toks().len() {
                    assert(self.toks()[at] == start.toks()[at]);
                    assert(self.toks()[at + 1] == start.toks()[at + 1]);
                    assert(self.toks()[at + 2] == start.toks()[at + 2]);
                    assert(self.toks()[at + 3] == start.toks()[at + 3]);
                }
                if at + 4 < self.toks().len() {
                    assert(self.toks()[at + 4] == start.toks()[at + 4]);
                }
                assert(simple_declaration_at(self.toks(), at) == simple_declaration_at(start.toks(), at));
                assert(nameless_declaration_at(self.toks(), at) == nameless_declaration_at(start.toks(), at));
                lemma_class_body_suffix(self.toks(), start.toks(), at + 3);
                lemma_function_head_same(self.toks(), start.toks(), at);
                if function_head(self.toks(), at) is Some {
                    let b = function_head(self.toks(), at).unwrap().2;
                    assert(self.toks()[b] == start.toks()[b]);
                }
                assert(plain_class_at(self.toks(), at) == plain_class_at(start.toks(), at));
            }
            match self.parse_declaration() {
                Some(stmt) => {
                    proof {
                        starts = starts.push(at);
                        ends = ends.push(self.pos());
                    }
                    statements.push(stmt);
                },
                None => self.synchronize(),
            }
            proof {
                assert forall|k: int| 0 <= k < starts.len() implies #[trigger] self.toks()[starts[k]] == start.toks()[starts[k]] by {
                    assert(self.toks()[starts[k]] == before.toks()[starts[k]]);
                }
                assert forall|i: int| self.pos() <= i < self.toks().len() implies #[trigger] self.toks()[i] == start.toks()[i] by {
                    assert(self.toks()[i] == before.toks()[i]);
                }
                assert forall|i: int| 0 <= i <= start.pos() implies #[trigger] self.toks()[i] == start.toks()[i] by {
                    assert(self.toks()[i] == before.toks()[i]);
                }
                assert forall|i: int| 0 <= i < self.toks().len() && #[trigger] self.toks()[i] != start.toks()[i]
                    implies is_joined(self.toks()[i]) by {
                    if self.toks()[i] == before.toks()[i] {
                        assert(before.toks()[i] != start.toks()[i]);
                    }
                }
            }
        }
        proof {
            assert(read_in_order(start.toks(), start.pos(), self.pos(), statements@, starts, ends));
            assert(exists|st: Seq<int>, en: Seq<int>| read_in_order(start.toks(), start.pos(), self.pos(), statements@, st, en));
        }
        Program { statements }
    }

    /// Whether a diagnostic has been reported.
    pub fn has_errors(&self) -> (r: bool)
        ensures
            r == (self.errs().len() > 0),
    {
        self.errors.len() > 0
    }

    /// The diagnostics reported so far, in order.
    pub fn get_errors(&self) -> (r: &Vec<Diagnostic>)
        ensures
            r@ == self.errs(),
    {
        &self.errors
    }

    /// The token before the one the parser stands on.
    pub fn previous(&self) -> (t: &Token)
        requires
            0 < self.pos() <= self.toks().len(),
        ensures
            *t == self.spec_previous(),
    {
        &self.tokens[self.current - 1]
    }

    /// The current place, to return to after looking ahead.
    pub(crate) fn position(&self) -> (p: usize)
        ensures
            p == self.pos(),
    {
        self.current
    }

    /// Goes back to a place saved by `position`.
    pub(crate) fn rewind(&mut self, p: usize)
        requires
            old(self).wf(),
            0 < p <= old(self).pos(),
        ensures
            final(self).pos() == p,
            final(self).toks() == old(self).toks(),
            final(self).errs() == old(self).errs(),
            final(self).file() == old(self).file(),
            final(self).async_on() == old(self).async_on(),
            final(self).nest() == old(self).nest(),
            final(self).interpolations() == old(self).interpolations(),
    {
        self.current = p;
    }

    /// Records a diagnostic at the given place.
    pub(crate) fn report(&mut self, message: String, line: usize, column: usize)
        ensures
            final(self).toks() == old(self).toks(),
            final(self).pos() == old(self).pos(),
            final(self).file() == old(self).file(),
            final(self).async_on() == old(self).async_on(),
            final(self).nest() == old(self).nest(),
            final(self).interpolations() == old(self).interpolations(),
            final(self).errs().len() == old(self).errs().len() + 1,
            extends(final(self).errs(), old(self).errs()),
            diag_is(final(self).errs().last(), message@, line as int, column as int, old(self).file()),
    {
        let d = Diagnostic::new(message, line, column, self.filename.clone());
        self.errors.push(d);
    }

    /// Whether the parser stands on the end-of-input token.
    pub(crate) fn is_at_end(&self) -> (r: bool)
        requires
            self.inv(),
        ensures
            r == self.spec_at_end(),
    {
        self.peek().token_type == TokenType::EndOfFile
    }

    /// The token the parser stands on.
    pub(crate) fn peek(&self) -> (t: &Token)
        requires
            self.inv(),
        ensures
            *t == self.spec_peek(),
    {
        &self.tokens[self.current]
    }

    /// Whether the current token, before the end of input, is of kind `token_type`.
    pub(crate) fn check(&self, token_type: TokenType) -> (r: bool)
        requires
            self.inv(),
        ensures
            r == self.spec_check(token_type),
    {
        if self.is_at_end() {
            return false;
        }
        self.peek().token_type == token_type
    }

    /// Whether the token after the current one is of kind `token_type`.
    pub(crate) fn check_next(&self, token_type: TokenType) -> (r: bool)
        requires
            self.inv(),
        ensures
            r == self.spec_check_next(token_type),
    {
        let n = self.tokens.len();
        if self.current + 1 >= n {
            return false;
        }
        self.tokens[self.current + 1].token_type == token_type
    }

    /// Moves past the current token unless it ends the input; gives the token passed
    /// (at the end of input, the one before it).
    pub(crate) fn advance(&mut self) -> (t: Token)
        requires
            old(self).wf(),
        ensures
            final(self).advanced_once(*old(self)),
            final(self).follows(*old(self)),
            final(self).moved_from(*old(self)),
            t == final(self).spec_previous(),
    {
        if !self.is_at_end() {
            proof { self.lemma_step(); }
            let n = self.tokens.len();
            assert(self.current + 1 < n);
            self.current = self.current + 1;
        }
        self.tokens[self.current - 1].duplicate()
    }

    /// The two kinds and the text that a two-character operator is joined from.
    fn joined_operator(token_type: TokenType) -> (r: Option<(TokenType, TokenType, String)>)
        ensures
            r is None <==> split_parts(token_type) is None,
            r matches Some((a, b, s)) ==> split_parts(token_type) == Some((a, b)) && s@ == joined_text(token_type),
    {
        match token_type {
            TokenType::EqualEqual => {
                proof { reveal_strlit("=="); }
                Some((TokenType::Equals, TokenType::Equals, owned("==")))
            },
            TokenType::BangEqual => {
                proof { reveal_strlit("!="); }
                Some((TokenType::Bang, TokenType::Equals, owned("!=")))
            },
            TokenType::LessEqual => {
                proof { reveal_strlit("<="); }
                Some((TokenType::Less, TokenType::Equals, owned("<=")))
            },
            TokenType::GreaterEqual => {
                proof { reveal_strlit(">="); }
                Some((TokenType::Greater, TokenType::Equals, owned(">=")))
            },
            TokenType::PlusPlus => {
                proof { reveal_strlit("++"); }
                Some((TokenType::Plus, TokenType::Plus, owned("++")))
            },
            TokenType::MinusMinus => {
                proof { reveal_strlit("--"); }
                Some((TokenType::Minus, TokenType::Minus, owned("--")))
            },
            _ => None,
        }
    }

    /// The two tokens `split_parts` gives for `tt` stand at the parser's place.
    pub open spec fn joinable(self, tt: TokenType) -> bool {
        match split_parts(tt) {
            Some((a, b)) => self.spec_check(a) && self.spec_check_next(b),
            None => false,
        }
    }

    /// What `match_token(tt)` does when it succeeds.
    pub open spec fn matched(self, before: Parser, tt: TokenType) -> bool {
        &&& self.errs() == before.errs()
        &&& self.file() == before.file()
        &&& self.async_on() == before.async_on()
        &&& self.nest() == before.nest()
        &&& self.interpolations() == before.interpolations()
        &&& if before.spec_check(tt) {
            self.pos() == before.pos() + 1 && self.toks() == before.toks()
        } else {
            &&& self.pos() == before.pos() + 2
            &&& self.toks().len() == before.toks().len()
            &&& forall|i: int| 0 <= i < self.toks().len() && i != before.pos() + 1
                ==> self.toks()[i] == before.toks()[i]
            &&& self.toks()[before.pos() + 1].token_type == tt
            &&& self.toks()[before.pos() + 1].value@ == joined_text(tt)
            &&& self.toks()[before.pos() + 1].line == before.toks()[before.pos() + 1].line
            &&& self.toks()[before.pos() + 1].column == before.toks()[before.pos() + 1].column
        }
    }

    /// Moves past the current token when it is of kind `token_type`; for a two-character
    /// operator, also when its characters were lexed as two tokens, which are then
    /// joined into one token of that kind.
    pub(crate) fn match_token(&mut self, token_type: TokenType) -> (r: bool)
        requires
            old(self).wf(),
        ensures
            final(self).follows(*old(self)),
            r == (old(self).spec_check(token_type) || old(self).joinable(token_type)),
            r ==> final(self).matched(*old(self), token_type),
            r ==> final(self).spec_previous().token_type == token_type,
            !r ==> *final(self) == *old(self),
    {
        if self.check(token_type) {
            self.advance();
            return true;
        }
        match Self::joined_operator(token_type) {
            Some((first, second, text)) => {
                if self.check(first) && self.check_next(second) {
                    let ghost before = *self;
                    self.advance();
                    self.advance();
                    let idx = self.current - 1;
                    assert(idx == before.pos() + 1);
                    let line = self.tokens[idx].line;
                    let column = self.tokens[idx].column;
                    let joined = Token { token_type, value: text, line, column };
                    self.tokens.set(idx, joined);
                    proof {
                        let k = choose|k: int|
                            before.pos() <= k < before.toks().len()
                                && #[trigger] before.toks()[k].token_type == TokenType::EndOfFile;
                        assert(k >= self.pos());
                        assert(self.toks()[k] == before.toks()[k]);
                    }
                    return true;
                }
            },
            None => {},
        }
        false
    }

    /// Where a missing token is reported: a missing `;` at the end of the token
    /// before, anything else at the current token.
    pub open spec fn spec_missing_at(self, token_type: TokenType) -> (int, int) {
        if token_type == TokenType::Semicolon && self.pos() > 0 {
            (
                self.spec_previous().line as int,
                self.spec_previous().column.wrapping_add(
                    vstd::utf8::encode_utf8(self.spec_previous().value@).len() as usize,
                ) as int,
            )
        } else {
            (self.spec_peek().line as int, self.spec_peek().column as int)
        }
    }

    /// Expects a token of kind `token_type`; when another stands there, reports
    /// `message` and moves on all the same.
    pub(crate) fn consume(&mut self, token_type: TokenType, message: &str) -> (t: Token)
        requires
            old(self).wf(),
        ensures
            final(self).follows(*old(self)),
            final(self).moved_from(*old(self)),
            final(self).toks() == old(self).toks(),
            final(self).pos() == (if old(self).spec_at_end() { old(self).pos() } else { old(self).pos() + 1 }),
            t == final(self).spec_previous(),
            old(self).spec_check(token_type) ==> final(self).errs() == old(self).errs(),
            !old(self).spec_check(token_type) ==> {
                &&& final(self).errs().len() == old(self).errs().len() + 1
                &&& diag_is(
                    final(self).errs().last(),
                    message@,
                    old(self).spec_missing_at(token_type).0,
                    old(self).spec_missing_at(token_type).1,
                    old(self).file(),
                )
            },
    {
        if self.check(token_type) {
            self.advance()
        } else {
            let (line, col) = if token_type == TokenType::Semicolon && self.current > 0 {
                let prev = self.previous();
                let len = prev.value.as_str().len();
                (prev.line, prev.column.wrapping_add(len))
            } else {
                let t = self.peek();
                (t.line, t.column)
            };
            self.report(owned(message), line, col);
            self.advance()
        }
    }

    /// Whether the current token is a keyword that may stand for a name.
    pub(crate) fn is_keyword_identifier(&self) -> (r: bool)
        requires
            self.inv(),
        ensures
            r == is_keyword_name(self.spec_peek().token_type),
    {
        match self.peek().token_type {
            TokenType::Get | TokenType::KwSet | TokenType::Interface | TokenType::Enum
            | TokenType::Async | TokenType::Await | TokenType::Option | TokenType::String
            | TokenType::Number | TokenType::From | TokenType::To | TokenType::Of
            | TokenType::Public | TokenType::Private | TokenType::Protected | TokenType::Static
            | TokenType::Abstract | TokenType::Extends | TokenType::KwSome | TokenType::KwNone
            | TokenType::TypeAny | TokenType::TypeVoid | TokenType::TypeInt | TokenType::TypeFloat
            | TokenType::TypeInt16 | TokenType::TypeInt64 | TokenType::TypeInt128
            | TokenType::TypeFloat16 | TokenType::TypeFloat64 | TokenType::TypeChar
            | TokenType::TypeString | TokenType::TypeBoolean => true,
            _ => false,
        }
    }

    /// Expects a name; a keyword allowed as a name is given back as an identifier.
    /// Anything else is reported with `error_msg`, given back as it is, and passed.
    pub(crate) fn consume_identifier(&mut self, error_msg: &str) -> (t: Token)
        requires
            old(self).wf(),
        ensures
            final(self).follows(*old(self)),
            final(self).moved_from(*old(self)),
            final(self).toks() == old(self).toks(),
            final(self).pos() == (if old(self).spec_at_end() { old(self).pos() } else { old(self).pos() + 1 }),
            t.value == old(self).spec_peek().value,
            t.line == old(self).spec_peek().line,
            t.column == old(self).spec_peek().column,
            t.token_type == (if is_name_like(old(self).spec_peek().token_type) {
                TokenType::Identifier
            } else {
                old(self).spec_peek().token_type
            }),
            is_name_like(old(self).spec_peek().token_type) ==> final(self).errs() == old(self).errs(),
            !is_name_like(old(self).spec_peek().token_type) ==> {
                &&& final(self).errs().len() == old(self).errs().len() + 1
                &&& diag_is(
                    final(self).errs().last(),
                    error_msg@,
                    old(self).spec_peek().line as int,
                    old(self).spec_peek().column as int,
                    old(self).file(),
                )
            },
    {
        if self.check(TokenType::Identifier) {
            self.advance()
        } else if self.is_keyword_identifier() {
            let mut t = self.advance();
            t.token_type = TokenType::Identifier;
            t
        } else {
            let t = self.peek().duplicate();
            self.report(owned(error_msg), t.line, t.column);
            self.advance();
            t
        }
    }

    /// Error recovery: skips tokens up to the next statement boundary, which is
    /// the end of input, a token after `;`, or a token that starts a declaration
    /// or statement (or `}`). Stays put when standing on such a token already.
    pub(crate) fn synchronize(&mut self)
        requires
            old(self).wf(),
        ensures
            final(self).follows(*old(self)),
            final(self).toks() == old(self).toks(),
            final(self).errs() == old(self).errs(),
            is_sync_point(old(self).spec_peek().token_type) ==> final(self).pos() == old(self).pos(),
            !is_sync_point(old(self).spec_peek().token_type) ==> {
                &&& final(self).moved_from(*old(self))
                &&& forall|p: int| old(self).pos() < p < final(self).pos() ==> !sync_stop(old(self).toks(), p)
                &&& final(self).pos() > old(self).pos() ==> sync_stop(old(self).toks(), final(self).pos())
            },
    {
        let ghost start = *self;
        if is_sync_point_exec(self.peek().token_type) {
            return;
        }
        self.advance();
        while !self.is_at_end()
            invariant
                start == *old(self),
                self.follows(start),
                self.toks() == start.toks(),
                self.errs() == start.errs(),
                self.moved_from(start),
                !is_sync_point(start.spec_peek().token_type),
                forall|p: int| start.pos() < p < self.pos() ==> !sync_stop(start.toks(), p),
            decreases self.remaining(),
        {
            if self.previous().token_type == TokenType::Semicolon {
                return;
            }
            if is_sync_point_exec(self.peek().token_type) {
                return;
            }
            assert(!sync_stop(start.toks(), self.pos()));
            self.advance();
        }
    }

    /// Whether `offset` places ahead lies past the last token.
    pub(crate) fn is_at_offset_end(&self, offset: usize) -> (r: bool)
        requires
            self.inv(),
            self.pos() + offset <= usize::MAX,
        ensures
            r == (self.pos() + offset >= self.toks().len()),
    {
        self.current + offset >= self.tokens.len()
    }

    /// The token `offset` places ahead, or the last token when that lies beyond the stream.
    pub(crate) fn peek_offset(&self, offset: usize) -> (t: &Token)
        requires
            self.inv(),
            self.pos() + offset <= usize::MAX,
        ensures
            self.pos() + offset >= self.toks().len() ==> *t == self.toks().last(),
            self.pos() + offset < self.toks().len() ==> *t == self.toks()[self.pos() + offset],
    {
        if self.is_at_offset_end(offset) {
            let n = self.tokens.len();
            &self.tokens[n - 1]
        } else {
            &self.tokens[self.current + offset]
        }
    }
}

/// Whether error recovery stops before a token of kind `tt`.
pub fn is_sync_point_exec(tt: TokenType) -> (r: bool)
    ensures
        r == is_sync_point(tt),
{
    match tt {
        TokenType::Class | TokenType::Function | TokenType::Let | TokenType::Const
        | TokenType::For | TokenType::If | TokenType::While | TokenType::Return
        | TokenType::Switch | TokenType::Export | TokenType::Import
        | TokenType::CloseBrace => true,
        _ => false,
    }
}

} // verus!
