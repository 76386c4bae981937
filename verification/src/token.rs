use vstd::prelude::*;

verus! {

/// Kinds of tokens produced by the lexer.
#[derive(Clone, Copy, Debug, PartialEq, Eq, Structural)]
pub enum TokenType {
    Abstract,
    Ampersand,
    AmpersandAmpersand,
    AmpersandEquals,
    Arrow,
    Async,
    Await,
    Bang,
    BangEqual,
    BangEqualEqual,
    Break,
    Caret,
    CaretEquals,
    Case,
    Catch,
    Class,
    CloseBrace,
    CloseBracket,
    CloseParen,
    Colon,
    Comma,
    Const,
    Constructor,
    Continue,
    Default,
    Dot,
    DoubleColon,
    Ellipsis,
    Else,
    EndOfFile,
    Enum,
    EqualEqual,
    EqualEqualEqual,
    Equals,
    Export,
    Extends,
    Extension,
    False,
    Finally,
    For,
    From,
    Function,
    Get,
    Greater,
    GreaterEqual,
    GreaterGreater,
    GreaterGreaterEquals,
    Identifier,
    If,
    Implements,
    Import,
    Instanceof,
    Interface,
    Less,
    LessEqual,
    LessLess,
    LessLessEquals,
    Let,
    Minus,
    MinusEquals,
    MinusMinus,
    Modulo,
    ModuloEquals,
    New,
    KwNone,
    Number,
    Of,
    OpenBrace,
    OpenBracket,
    OpenParen,
    Option,
    Pipe,
    PipeEquals,
    PipePipe,
    Plus,
    PlusEquals,
    PlusPlus,
    Private,
    Protected,
    Protocol,
    Public,
    Question,
    QuestionDot,
    QuestionQuestion,
    Return,
    Semicolon,
    KwSet,
    Slash,
    SlashEquals,
    KwSome,
    Star,
    StarEquals,
    Static,
    String,
    Super,
    Switch,
    TemplateString,
    This,
    Throw,
    To,
    True,
    Try,
    TypeAlias,
    TypeAny,
    TypeBoolean,
    TypeChar,
    TypeFloat,
    TypeFloat16,
    TypeFloat64,
    TypeInt,
    TypeInt128,
    TypeInt16,
    TypeInt64,
    TypeString,
    TypeVoid,
    While,
}

/// A token with its text and position in the source.
#[derive(Clone, Debug)]
pub struct Token {
    pub token_type: TokenType,
    pub value: String,
    pub line: usize,
    pub column: usize,
}

impl Token {
    /// A field-by-field copy of the token.
    pub fn duplicate(&self) -> (t: Token)
        ensures
            t == *self,
    {
        Token { token_type: self.token_type, value: self.value.clone(), line: self.line, column: self.column }
    }
}

} // verus!
