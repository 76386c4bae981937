use vstd::prelude::*;

use super::{
    diag_is, is_name_like, nameless_declaration_at, opens_as, reports_missing_pattern, simple_declaration_at, simple_declaration_is,
    Parser,
};
use crate::ast::{
    AccessModifier, ClassDeclaration, ClassGetter, ClassMember, ClassMethod, ClassSetter, EnumDeclaration,
    EnumMember, Expression, ExtensionDeclaration, FunctionDeclaration, InterfaceMethod, Parameter, Statement,
};
use crate::text::{decimal_string, owned, str_equals};
use crate::token::{Token, TokenType};
use super::type_syntax::{annot_text, lemma_annot_text_same};

verus! {

/// The names from `i`, split by `,`, up to a token of kind `end`: the names and the
/// place of that token.
pub open spec fn names_until(toks: Seq<Token>, i: int, end: TokenType) -> Option<(Seq<String>, int)>
    decreases toks.len() - i,
{
    if i < 0 || i + 1 >= toks.len() || toks[i].token_type != TokenType::Identifier {
        None
    } else if toks[i + 1].token_type == TokenType::Comma {
        match names_until(toks, i + 2, end) {
            Some((ns, e)) => Some((seq![toks[i].value] + ns, e)),
            None => None,
        }
    } else if toks[i + 1].token_type == end {
        Some((seq![toks[i].value], i + 1))
    } else {
        None
    }
}

/// The names end at a token of kind `end`, after `i`.
pub proof fn lemma_names_until_end(toks: Seq<Token>, i: int, end: TokenType)
    ensures
        names_until(toks, i, end) is Some ==> {
            let e = names_until(toks, i, end).unwrap().1;
            &&& i < e < toks.len()
            &&& toks[e].token_type == end
        },
    decreases toks.len() - i,
{
    if 0 <= i && i + 1 < toks.len() && toks[i].token_type == TokenType::Identifier
        && toks[i + 1].token_type == TokenType::Comma {
        lemma_names_until_end(toks, i + 2, end);
    }
}

/// One parameter from `i`: `[...]NAME`, with `: TYPE` where a type is written and no
/// default value. Gives its name, type text and whether it gathers the rest, and the
/// place after it.
pub open spec fn param_at(toks: Seq<Token>, i: int) -> Option<((Seq<char>, Seq<char>, bool), int)> {
    if !(0 <= i < toks.len()) {
        None
    } else {
        let rest = toks[i].token_type == TokenType::Ellipsis;
        let j = if rest { i + 1 } else { i };
        if !(j + 1 < toks.len()) || toks[j].token_type != TokenType::Identifier {
            None
        } else if toks[j + 1].token_type == TokenType::Colon {
            match annot_text(toks, j + 2) {
                Some((t, k)) => if 0 <= k < toks.len() && toks[k].token_type != TokenType::Equals {
                    Some(((toks[j].value@, t, rest), k))
                } else {
                    None
                },
                None => None,
            }
        } else if toks[j + 1].token_type == TokenType::Equals {
            None
        } else {
            Some(((toks[j].value@, Seq::<char>::empty(), rest), j + 1))
        }
    }
}

/// Parameters from `i`, as `param_at` reads them, split by `,` up to `)`: the
/// parameters and the place of the `)`.
pub open spec fn params_from(toks: Seq<Token>, i: int) -> Option<(Seq<(Seq<char>, Seq<char>, bool)>, int)>
    decreases toks.len() - i,
{
    match param_at(toks, i) {
        Some((p, k)) => if i < k < toks.len() {
            if toks[k].token_type == TokenType::Comma {
                match params_from(toks, k + 1) {
                    Some((ps, e)) => Some((seq![p] + ps, e)),
                    None => None,
                }
            } else if toks[k].token_type == TokenType::CloseParen {
                Some((seq![p], k))
            } else {
                None
            }
        } else {
            None
        },
        None => None,
    }
}

/// The parameters end at a `)`, after `i`.
pub proof fn lemma_params_from_end(toks: Seq<Token>, i: int)
    ensures
        params_from(toks, i) is Some ==> {
            let e = params_from(toks, i).unwrap().1;
            &&& i < e < toks.len()
            &&& toks[e].token_type == TokenType::CloseParen
        },
    decreases toks.len() - i,
{
    match param_at(toks, i) {
        Some((p, k)) => {
            if i < k < toks.len() && toks[k].token_type == TokenType::Comma {
                lemma_params_from_end(toks, k + 1);
            }
        },
        None => {},
    }
}

/// The head of `function NAME ( PARAMS ) [: TYPE] {` from `p`, with parameters as
/// `params_from` reads them: the parameters, the return type's text (empty where none
/// is written), and the place of the `{`.
pub open spec fn function_head(toks: Seq<Token>, p: int) -> Option<(Seq<(Seq<char>, Seq<char>, bool)>, Seq<char>, int)> {
    if !(0 <= p && p + 3 < toks.len()) || toks[p + 1].token_type != TokenType::Identifier
        || toks[p + 2].token_type != TokenType::OpenParen {
        None
    } else {
        let ps = if toks[p + 3].token_type == TokenType::CloseParen {
            Some((Seq::empty(), p + 3))
        } else {
            params_from(toks, p + 3)
        };
        match ps {
            None => None,
            Some((ps, c)) => if !(0 <= c && c + 1 < toks.len()) {
                None
            } else {
                let rt = if toks[c + 1].token_type == TokenType::Colon {
                    annot_text(toks, c + 2)
                } else {
                    Some((Seq::<char>::empty(), c + 1))
                };
                match rt {
                    Some((t, b)) => if 0 <= b < toks.len() && toks[b].token_type == TokenType::OpenBrace {
                        Some((ps, t, b))
                    } else {
                        None
                    },
                    None => None,
                }
            },
        }
    }
}

/// What a parameter is read as: its name, type text, and whether it gathers the rest.
pub open spec fn param_view(p: Parameter) -> (Seq<char>, Seq<char>, bool) {
    (p.name@, p.type_annotation@, p._is_rest)
}

/// `s` is the declaration of a function, not async, that `function_head(toks, p)`
/// describes: named by the token after `function`, with those parameters, none with
/// a default, that return type, and a block body opened at the `{`.
pub open spec fn function_read(toks: Seq<Token>, p: int, s: Statement) -> bool {
    let (ps, rt, b) = function_head(toks, p).unwrap();
    s matches Statement::FunctionDeclaration(f) && {
        &&& f.name@ == toks[p + 1].value@
        &&& !f._is_async
        &&& f._line == toks[p].line
        &&& f._col == toks[p].column
        &&& f.params@.map_values(|q: Parameter| param_view(q)) == ps
        &&& forall|k: int| 0 <= k < f.params@.len() ==> (#[trigger] f.params@[k])._default_value is None
        &&& f.return_type@ == rt
        &&& *f.body matches Statement::BlockStmt { _line, _col, .. } && _line == toks[b].line && _col == toks[b].column
    }
}

/// A parameter read alike from two token lists that agree from `lo` on.
pub proof fn lemma_param_at_same(a: Seq<Token>, b: Seq<Token>, lo: int, i: int)
    requires
        a.len() == b.len(),
        0 <= lo <= i,
        forall|k: int| lo <= k < a.len() ==> a[k] == b[k],
    ensures
        param_at(a, i) == param_at(b, i),
        param_at(a, i) matches Some((_, e)) ==> e > i,
{
    if i < a.len() {
        assert(a[i] == b[i]);
        let j = if a[i].token_type == TokenType::Ellipsis { i + 1 } else { i };
        if j + 1 < a.len() {
            assert(a[j] == b[j] && a[j + 1] == b[j + 1]);
            if a[j + 1].token_type == TokenType::Colon {
                lemma_annot_text_same(a, b, lo, j + 2);
                match annot_text(a, j + 2) {
                    Some((t, k)) => if 0 <= k < a.len() {
                        assert(a[k] == b[k]);
                    },
                    None => {},
                }
            }
        }
    }
}

/// Parameters read alike from two token lists that agree from `lo` on.
pub proof fn lemma_params_from_same(a: Seq<Token>, b: Seq<Token>, lo: int, i: int)
    requires
        a.len() == b.len(),
        0 <= lo <= i,
        forall|k: int| lo <= k < a.len() ==> a[k] == b[k],
    ensures
        params_from(a, i) == params_from(b, i),
        params_from(a, i) matches Some((_, e)) ==> e > i,
    decreases a.len() - i,
{
    lemma_param_at_same(a, b, lo, i);
    match param_at(a, i) {
        Some((q, k)) => if i < k < a.len() {
            assert(a[k] == b[k]);
            if a[k].token_type == TokenType::Comma {
                lemma_params_from_same(a, b, lo, k + 1);
            }
        },
        None => {},
    }
}

/// A function head read alike from two token lists that agree from `p` on.
pub proof fn lemma_function_head_same(a: Seq<Token>, b: Seq<Token>, p: int)
    requires
        a.len() == b.len(),
        0 <= p,
        forall|k: int| p <= k < a.len() ==> a[k] == b[k],
    ensures
        function_head(a, p) == function_head(b, p),
        function_head(a, p) matches Some((_, _, e)) ==> p < e < a.len() && a[e] == b[e],
{
    if p + 3 < a.len() {
        assert(a[p + 1] == b[p + 1] && a[p + 2] == b[p + 2] && a[p + 3] == b[p + 3]);
        lemma_params_from_same(a, b, p, p + 3);
        let ps = if a[p + 3].token_type == TokenType::CloseParen {
            Some((Seq::<(Seq<char>, Seq<char>, bool)>::empty(), p + 3))
        } else {
            params_from(a, p + 3)
        };
        match ps {
            Some((q, c)) => if 0 <= c && c + 1 < a.len() {
                assert(a[c + 1] == b[c + 1]);
                lemma_annot_text_same(a, b, p, c + 2);
                let rt = if a[c + 1].token_type == TokenType::Colon {
                    annot_text(a, c + 2)
                } else {
                    Some((Seq::<char>::empty(), c + 1))
                };
                match rt {
                    Some((t, e)) => if 0 <= e < a.len() {
                        assert(a[e] == b[e]);
                    },
                    None => {},
                }
            },
            None => {},
        }
    }
}

/// What stands between a class's name (from `a`) and its `{`: type parameters
/// `<T, U>`, a parent after `extends`, protocols after `implements`. Gives them and
/// the place of the `{`.
pub open spec fn class_header(toks: Seq<Token>, a: int) -> Option<(Seq<String>, Seq<char>, Seq<String>, int)> {
    if !(0 <= a < toks.len()) {
        None
    } else {
        let g = if toks[a].token_type == TokenType::Less {
            match names_until(toks, a + 1, TokenType::Greater) {
                Some((gs, k)) => Some((gs, k + 1)),
                None => None,
            }
        } else {
            Some((Seq::<String>::empty(), a))
        };
        match g {
            None => None,
            Some((gs, b)) => if !(0 <= b && b + 1 < toks.len()) {
                None
            } else if toks[b].token_type == TokenType::Extends && toks[b + 1].token_type != TokenType::Identifier {
                None
            } else {
                let par = if toks[b].token_type == TokenType::Extends { toks[b + 1].value@ } else { Seq::<char>::empty() };
                let c = if toks[b].token_type == TokenType::Extends { b + 2 } else { b };
                if !(c < toks.len()) {
                    None
                } else if toks[c].token_type == TokenType::Implements {
                    match names_until(toks, c + 1, TokenType::OpenBrace) {
                        Some((ps, d)) => Some((gs, par, ps, d)),
                        None => None,
                    }
                } else if toks[c].token_type == TokenType::OpenBrace {
                    Some((gs, par, Seq::<String>::empty(), c))
                } else {
                    None
                }
            },
        }
    }
}

/// From `i` the tokens read `NAME : TYPE ;`, a field with a one-word type.
pub open spec fn field_at(toks: Seq<Token>, i: int) -> bool {
    &&& 0 <= i
    &&& i + 3 < toks.len()
    &&& toks[i].token_type == TokenType::Identifier
    &&& toks[i + 1].token_type == TokenType::Colon
    &&& is_name_like(toks[i + 2].token_type)
    &&& toks[i + 3].token_type == TokenType::Semicolon
}

/// From `i` the tokens read `NAME ( ) { }`, a method with no parameters and an empty body.
pub open spec fn method_at(toks: Seq<Token>, i: int) -> bool {
    &&& 0 <= i
    &&& i + 4 < toks.len()
    &&& toks[i].token_type == TokenType::Identifier
    &&& toks[i + 1].token_type == TokenType::OpenParen
    &&& toks[i + 2].token_type == TokenType::CloseParen
    &&& toks[i + 3].token_type == TokenType::OpenBrace
    &&& toks[i + 4].token_type == TokenType::CloseBrace
}

/// From `i` the tokens read `get NAME ( ) { }`.
pub open spec fn getter_at(toks: Seq<Token>, i: int) -> bool {
    &&& 0 <= i
    &&& i + 5 < toks.len()
    &&& toks[i].token_type == TokenType::Get
    &&& toks[i + 1].token_type == TokenType::Identifier
    &&& toks[i + 2].token_type == TokenType::OpenParen
    &&& toks[i + 3].token_type == TokenType::CloseParen
    &&& toks[i + 4].token_type == TokenType::OpenBrace
    &&& toks[i + 5].token_type == TokenType::CloseBrace
}

/// From `i` the tokens read `set NAME ( PARAM ) { }`.
pub open spec fn setter_at(toks: Seq<Token>, i: int) -> bool {
    &&& 0 <= i
    &&& i + 6 < toks.len()
    &&& toks[i].token_type == TokenType::KwSet
    &&& toks[i + 1].token_type == TokenType::Identifier
    &&& toks[i + 2].token_type == TokenType::OpenParen
    &&& toks[i + 3].token_type == TokenType::Identifier
    &&& toks[i + 4].token_type == TokenType::CloseParen
    &&& toks[i + 5].token_type == TokenType::OpenBrace
    &&& toks[i + 6].token_type == TokenType::CloseBrace
}

/// From `i` the tokens read `constructor ( ) { }`.
pub open spec fn ctor_at(toks: Seq<Token>, i: int) -> bool {
    &&& 0 <= i
    &&& i + 4 < toks.len()
    &&& toks[i].token_type == TokenType::Constructor
    &&& toks[i + 1].token_type == TokenType::OpenParen
    &&& toks[i + 2].token_type == TokenType::CloseParen
    &&& toks[i + 3].token_type == TokenType::OpenBrace
    &&& toks[i + 4].token_type == TokenType::CloseBrace
}

/// The body of a class from `i` up to its `}`, made of fields `NAME : TYPE ;`, methods
/// `NAME ( ) { }`, getters `get NAME ( ) { }`, setters `set NAME ( PARAM ) { }` and
/// constructors `constructor ( ) { }`: where its fields, methods, getters and setters
/// begin, where its last constructor begins, and the place of the `}`. `None` for a
/// body of any other form.
pub open spec fn class_body(toks: Seq<Token>, i: int) -> Option<(Seq<int>, Seq<int>, Seq<int>, Option<int>, int, Seq<int>)>
    decreases toks.len() - i,
{
    if i < 0 || i >= toks.len() {
        None
    } else if toks[i].token_type == TokenType::CloseBrace {
        Some((Seq::empty(), Seq::empty(), Seq::empty(), None, i, Seq::empty()))
    } else if field_at(toks, i) {
        match class_body(toks, i + 4) {
            Some((f, m, g, c, e, st)) => Some((seq![i] + f, m, g, c, e, st)),
            None => None,
        }
    } else if method_at(toks, i) {
        match class_body(toks, i + 5) {
            Some((f, m, g, c, e, st)) => Some((f, seq![i] + m, g, c, e, st)),
            None => None,
        }
    } else if getter_at(toks, i) {
        match class_body(toks, i + 6) {
            Some((f, m, g, c, e, st)) => Some((f, m, seq![i] + g, c, e, st)),
            None => None,
        }
    } else if setter_at(toks, i) {
        match class_body(toks, i + 7) {
            Some((f, m, g, c, e, st)) => Some((f, m, g, c, e, seq![i] + st)),
            None => None,
        }
    } else if ctor_at(toks, i) {
        match class_body(toks, i + 5) {
            Some((f, m, g, c, e, st)) => Some((f, m, g, if c is Some { c } else { Some(i) }, e, st)),
            None => None,
        }
    } else {
        None
    }
}

/// Two token sequences that agree from `i` on read the same class body there.
pub proof fn lemma_class_body_suffix(a: Seq<Token>, b: Seq<Token>, i: int)
    requires
        a.len() == b.len(),
        0 <= i,
        forall|j: int| i <= j < a.len() ==> a[j] == b[j],
    ensures
        class_body(a, i) == class_body(b, i),
    decreases a.len() - i,
{
    if i < a.len() {
        if field_at(a, i) {
            lemma_class_body_suffix(a, b, i + 4);
        } else if method_at(a, i) {
            lemma_class_body_suffix(a, b, i + 5);
        } else if getter_at(a, i) {
            lemma_class_body_suffix(a, b, i + 6);
        } else if setter_at(a, i) {
            lemma_class_body_suffix(a, b, i + 7);
        } else if ctor_at(a, i) {
            lemma_class_body_suffix(a, b, i + 5);
        }
    }
}

/// From `p` the tokens read `class NAME { body }`, with a body as `class_body` reads it.
pub open spec fn plain_class_at(toks: Seq<Token>, p: int) -> bool {
    &&& 0 <= p
    &&& p + 3 < toks.len()
    &&& toks[p].token_type == TokenType::Class
    &&& toks[p + 1].token_type == TokenType::Identifier
    &&& toks[p + 2].token_type == TokenType::OpenBrace
    &&& class_body(toks, p + 3) is Some
}

/// `m` is the public, non-static field without initializer that `field_at(toks, i)` reads.
pub open spec fn reads_field(m: ClassMember, toks: Seq<Token>, i: int) -> bool {
    &&& m._name@ == toks[i].value@
    &&& m._type_name@ == toks[i + 2].value@
    &&& m._access == AccessModifier::Public
    &&& !m._is_static
    &&& m._initializer is None
}

/// `b` is an empty block placed at the token `t`.
pub open spec fn empty_block_at(b: Statement, t: Token) -> bool {
    b matches Statement::BlockStmt { statements, _line, _col } && statements@.len() == 0 && _line == t.line
        && _col == t.column
}

/// `m` is the public, non-static, concrete method that `method_at(toks, i)` reads.
pub open spec fn reads_method(m: ClassMethod, toks: Seq<Token>, i: int) -> bool {
    &&& m.func.name@ == toks[i].value@
    &&& m.func.params@.len() == 0
    &&& m.func.return_type@ == "void"@
    &&& empty_block_at(*m.func.body, toks[i + 3])
    &&& !m.func._is_async
    &&& m.func._line == 0 && m.func._col == 0
    &&& m._access == AccessModifier::Public
    &&& !m.is_static
    &&& !m._is_abstract
}

/// `g` is the public getter that `getter_at(toks, i)` reads.
pub open spec fn reads_getter(g: ClassGetter, toks: Seq<Token>, i: int) -> bool {
    &&& g._name@ == toks[i + 1].value@
    &&& g._return_type@.len() == 0
    &&& empty_block_at(*g._body, toks[i + 4])
    &&& g._access == AccessModifier::Public
}

/// `s` is the public setter that `setter_at(toks, i)` reads.
pub open spec fn reads_setter(s: ClassSetter, toks: Seq<Token>, i: int) -> bool {
    &&& s._name@ == toks[i + 1].value@
    &&& s._param_name@ == toks[i + 3].value@
    &&& s._param_type@.len() == 0
    &&& empty_block_at(*s._body, toks[i + 5])
    &&& s._access == AccessModifier::Public
}

/// `f` is the constructor that `ctor_at(toks, i)` reads, in a class placed at `line`, `col`.
pub open spec fn reads_ctor(f: FunctionDeclaration, toks: Seq<Token>, i: int, line: usize, col: usize) -> bool {
    &&& f.name@ == "constructor"@
    &&& f.params@.len() == 0
    &&& f.return_type@ == "void"@
    &&& empty_block_at(*f.body, toks[i + 3])
    &&& !f._is_async
    &&& f._line == line && f._col == col
}

/// The names of `import { a, b } from ..` from `i`, after the `{`: names, each perhaps
/// followed by `,`, up to `}`. Gives the names and the place after the `}`.
pub open spec fn import_names_from(toks: Seq<Token>, i: int) -> Option<(Seq<String>, int)>
    decreases toks.len() - i,
{
    if i < 0 || i + 1 >= toks.len() {
        None
    } else if toks[i].token_type == TokenType::CloseBrace {
        Some((Seq::empty(), i + 1))
    } else if is_name_like(toks[i].token_type) {
        let next = if toks[i + 1].token_type == TokenType::Comma { i + 2 } else { i + 1 };
        match import_names_from(toks, next) {
            Some((ns, end)) => Some((seq![toks[i].value] + ns, end)),
            None => None,
        }
    } else {
        None
    }
}

/// From `e` the tokens read `from "path" ;`.
pub open spec fn braced_import_tail(toks: Seq<Token>, e: int) -> bool {
    &&& 0 <= e
    &&& e + 2 < toks.len()
    &&& toks[e].token_type == TokenType::From
    &&& toks[e + 1].token_type == TokenType::String
    &&& toks[e + 2].token_type == TokenType::Semicolon
}

/// The constructor a class without one gets: no parameters, `void`, an empty body,
/// placed at the class.
pub open spec fn is_default_constructor(f: FunctionDeclaration, line: usize, col: usize) -> bool {
    &&& f.name@ == "constructor"@
    &&& f.params@.len() == 0
    &&& f.return_type@ == "void"@
    &&& !f._is_async
    &&& f._line == line
    &&& f._col == col
    &&& *f.body matches Statement::BlockStmt { statements, _line, _col }
        && statements@.len() == 0 && _line == line && _col == col
}

impl Parser {
    /// A declaration or, failing that, a statement.
    pub(crate) fn parse_declaration(&mut self) -> (r: Option<Statement>)
        requires
            old(self).wf(),
        ensures
            final(self).follows(*old(self)),
            final(self).moved_from(*old(self)),
            r is Some,
            old(self).spec_check(TokenType::Let) || old(self).spec_check(TokenType::Const)
                ==> (r->0 is VarDeclaration || r->0 is BlockStmt),
            old(self).spec_check(TokenType::Function) ==> r->0 is FunctionDeclaration,
            old(self).spec_check(TokenType::Class) ==> r->0 is ClassDeclaration,
            old(self).spec_check(TokenType::Interface) ==> r->0 is InterfaceDeclaration,
            old(self).spec_check(TokenType::Extension) ==> r->0 is ExtensionDeclaration,
            old(self).spec_check(TokenType::Enum) ==> r->0 is EnumDeclaration,
            old(self).spec_check(TokenType::TypeAlias) ==> r->0 is TypeAliasDeclaration,
            old(self).spec_check(TokenType::Export) ==> r->0 is ExportDecl,
            old(self).spec_check(TokenType::Import) ==> r->0 is ImportDecl,
            old(self).spec_check(TokenType::Async) && old(self).spec_check_next(TokenType::Function)
                ==> r->0 is FunctionDeclaration,
            old(self).spec_check(TokenType::Abstract) && old(self).spec_check_next(TokenType::Class)
                ==> r->0 is ClassDeclaration,
            opens_as(old(self).spec_peek().token_type, r->0),
            old(self).spec_check(TokenType::Function) && function_head(old(self).toks(), old(self).pos()) is Some
                ==> function_read(old(self).toks(), old(self).pos(), r->0),
            plain_class_at(old(self).toks(), old(self).pos()) ==> {
                &&& final(self).pos() == class_body(old(self).toks(), old(self).pos() + 3).unwrap().4 + 1
                &&& final(self).toks() == old(self).toks()
                &&& final(self).errs() == old(self).errs()
            },
            simple_declaration_at(old(self).toks(), old(self).pos()) ==> {
                &&& simple_declaration_is(old(self).toks(), old(self).pos(), r->0)
                &&& final(self).pos() == old(self).pos() + 5
                &&& final(self).toks() == old(self).toks()
                &&& final(self).errs() == old(self).errs()
            },
            nameless_declaration_at(old(self).toks(), old(self).pos()) ==> {
                &&& final(self).pos() == old(self).pos() + 4
                &&& final(self).toks() == old(self).toks()
                &&& reports_missing_pattern(final(self).errs(), old(self).errs(), old(self).toks(), old(self).pos(), old(self).file())
            },
        decreases old(self).nest(), old(self).remaining(), 100int,
    {
        let tt = self.peek().token_type;
        match tt {
            TokenType::Let | TokenType::Const => Some(self.parse_var_declaration()),
            TokenType::Function => Some(self.parse_function_declaration(false)),
            TokenType::Async => {
                if !self.async_enabled {
                    let line = self.peek().line;
                    let column = self.peek().column;
                    self.report(owned("async/await is disabled"), line, column);
                }
                if self.check_next(TokenType::Function) {
                    self.advance();
                    Some(self.parse_function_declaration(true))
                } else {
                    Some(self.parse_statement())
                }
            },
            TokenType::Class => Some(self.parse_class_declaration(false)),
            TokenType::Abstract => {
                if self.check_next(TokenType::Class) {
                    self.advance();
                    Some(self.parse_class_declaration(true))
                } else {
                    Some(self.parse_statement())
                }
            },
            TokenType::Interface => Some(self.parse_interface_declaration()),
            TokenType::Extension => Some(self.parse_extension_declaration()),
            TokenType::Enum => Some(self.parse_enum_declaration()),
            TokenType::TypeAlias => Some(self.parse_type_alias_declaration()),
            TokenType::Export => {
                self.advance();
                let is_default = self.match_token(TokenType::Default);
                match self.parse_declaration() {
                    Some(decl) => Some(Statement::ExportDecl {
                        declaration: Box::new(decl),
                        _is_default: is_default,
                        _line: 0,
                        _col: 0,
                    }),
                    None => None,
                }
            },
            TokenType::Import => Some(self.parse_import_statement()),
            _ => Some(self.parse_statement()),
        }
    }

    /// A `let` or `const` declaration and its `;`.
    pub(crate) fn parse_var_declaration(&mut self) -> (r: Statement)
        requires
            old(self).wf(),
            old(self).spec_check(TokenType::Let) || old(self).spec_check(TokenType::Const),
        ensures
            final(self).follows(*old(self)),
            final(self).pos() > old(self).pos(),
            r is VarDeclaration || r is BlockStmt,
            simple_declaration_at(old(self).toks(), old(self).pos()) ==> {
                &&& simple_declaration_is(old(self).toks(), old(self).pos(), r)
                &&& final(self).pos() == old(self).pos() + 5
                &&& final(self).toks() == old(self).toks()
                &&& final(self).errs() == old(self).errs()
            },
            nameless_declaration_at(old(self).toks(), old(self).pos()) ==> {
                &&& final(self).pos() == old(self).pos() + 4
                &&& final(self).toks() == old(self).toks()
                &&& reports_missing_pattern(final(self).errs(), old(self).errs(), old(self).toks(), old(self).pos(), old(self).file())
            },
        decreases old(self).nest(), old(self).remaining(), 96int,
    {
        self.parse_var_declaration_internal(true)
    }

    /// `let`/`const` with one or more `pattern[: type][= value]` separated by commas;
    /// several become a block of declarations.
    pub(crate) fn parse_var_declaration_internal(&mut self, consume_semicolon: bool) -> (r: Statement)
        requires
            old(self).wf(),
            old(self).spec_check(TokenType::Let) || old(self).spec_check(TokenType::Const),
        ensures
            final(self).follows(*old(self)),
            final(self).pos() > old(self).pos(),
            r is VarDeclaration || r is BlockStmt,
            r matches Statement::VarDeclaration { is_const, line, .. } ==> is_const == old(self).spec_check(TokenType::Const)
                && line == old(self).spec_peek().line,
            consume_semicolon && nameless_declaration_at(old(self).toks(), old(self).pos()) ==> {
                &&& final(self).pos() == old(self).pos() + 4
                &&& final(self).toks() == old(self).toks()
                &&& reports_missing_pattern(final(self).errs(), old(self).errs(), old(self).toks(), old(self).pos(), old(self).file())
            },
            consume_semicolon && simple_declaration_at(old(self).toks(), old(self).pos()) ==> {
                &&& simple_declaration_is(old(self).toks(), old(self).pos(), r)
                &&& final(self).pos() == old(self).pos() + 5
                &&& final(self).toks() == old(self).toks()
                &&& final(self).errs() == old(self).errs()
            },
        decreases old(self).nest(), old(self).remaining(), 95int,
    {
        let ghost entry = *self;
        let ghost simple = simple_declaration_at(entry.toks(), entry.pos());
        let ghost nameless = nameless_declaration_at(entry.toks(), entry.pos());
        let start = self.advance();
        let is_const = start.token_type == TokenType::Const;
        let pattern = self.parse_binding_pattern();
        let mut type_annotation = String::new();
        if self.match_token(TokenType::Colon) {
            type_annotation = self.parse_type_annotation();
        }
        let mut initializer = None;
        if self.match_token(TokenType::Equals) {
            initializer = Some(Box::new(self.parse_assignment()));
        }
        let mut declarations: Vec<Statement> = Vec::new();
        declarations.push(Statement::VarDeclaration {
            pattern,
            type_annotation,
            initializer,
            is_const,
            line: start.line,
            _col: start.column,
        });
        loop
            invariant
                entry == *old(self),
                self.follows(entry),
                self.pos() > entry.pos(),
                declarations.len() >= 1,
                declarations@[0] matches Statement::VarDeclaration { is_const: c, line: l, .. }
                    && c == is_const && l == start.line,
                simple == simple_declaration_at(entry.toks(), entry.pos()),
                nameless == nameless_declaration_at(entry.toks(), entry.pos()),
                nameless ==> {
                    &&& self.pos() == entry.pos() + 3
                    &&& self.toks() == entry.toks()
                    &&& reports_missing_pattern(self.errs(), entry.errs(), entry.toks(), entry.pos(), entry.file())
                },
                simple ==> {
                    &&& self.pos() == entry.pos() + 4
                    &&& self.toks() == entry.toks()
                    &&& self.errs() == entry.errs()
                    &&& declarations@.len() == 1
                    &&& simple_declaration_is(entry.toks(), entry.pos(), declarations@[0])
                },
            decreases self.remaining(),
        {
            if !self.match_token(TokenType::Comma) {
                break;
            }
            let p = self.parse_binding_pattern();
            let mut ta = String::new();
            if self.match_token(TokenType::Colon) {
                ta = self.parse_type_annotation();
            }
            let mut init = None;
            if self.match_token(TokenType::Equals) {
                init = Some(Box::new(self.parse_assignment()));
            }
            declarations.push(Statement::VarDeclaration {
                pattern: p,
                type_annotation: ta,
                initializer: init,
                is_const,
                line: start.line,
                _col: start.column,
            });
        }
        if consume_semicolon {
            self.consume(TokenType::Semicolon, "Expected ';' after variable declaration.");
        }
        if declarations.len() == 1 {
            declarations.pop().unwrap()
        } else {
            Statement::BlockStmt { statements: declarations, _line: start.line, _col: start.column }
        }
    }

    /// A function declaration: `function NAME ( PARAMS ) [: TYPE]` and a block body.
    #[verifier::rlimit(100)]
    pub(crate) fn parse_function_declaration(&mut self, is_async: bool) -> (r: Statement)
        requires
            old(self).wf(),
            old(self).spec_check(TokenType::Function),
        ensures
            final(self).follows(*old(self)),
            final(self).pos() > old(self).pos(),
            r matches Statement::FunctionDeclaration(f) && f._is_async == is_async
                && f._line == old(self).spec_peek().line && f._col == old(self).spec_peek().column
                && f.name@ == old(self).toks()[old(self).pos() + 1].value@,
            function_head(old(self).toks(), old(self).pos()) is Some ==> {
                let (ps, rt, b) = function_head(old(self).toks(), old(self).pos()).unwrap();
                r matches Statement::FunctionDeclaration(f) && {
                    &&& f.params@.map_values(|q: Parameter| param_view(q)) == ps
                    &&& forall|k: int| 0 <= k < f.params@.len() ==> (#[trigger] f.params@[k])._default_value is None
                    &&& f.return_type@ == rt
                    &&& *f.body matches Statement::BlockStmt { _line, _col, .. }
                        && _line == old(self).toks()[b].line && _col == old(self).toks()[b].column
                }
            },
        decreases old(self).nest(), old(self).remaining(), 90int,
    {
        let ghost entry = *self;
        let ghost t = entry.toks();
        let ghost h = function_head(t, entry.pos());
        let ghost whole = h.unwrap();
        let start = self.consume(TokenType::Function, "Expected 'function'");
        let name = self.consume_identifier("Expected function name").value;
        self.consume(TokenType::OpenParen, "Expected '('");
        let ghost after_open = *self;
        proof {
            lemma_params_from_end(t, entry.pos() + 3);
        }
        let params = self.parse_function_params();
        proof {
            Parser::lemma_follows_trans(entry, after_open, *self);
            if h is Some {
                assert(self.pos() == entry.pos() + 3 || params_from(t, entry.pos() + 3) is Some);
            }
        }
        self.consume(TokenType::CloseParen, "Expected ')'");
        let mut return_type = String::new();
        if self.match_token(TokenType::Colon) {
            return_type = self.parse_type_annotation();
        }
        let body_stmt = self.parse_block();
        Statement::FunctionDeclaration(FunctionDeclaration {
            name,
            params,
            return_type,
            body: Box::new(body_stmt),
            _is_async: is_async,
            _line: start.line,
            _col: start.column,
        })
    }

    /// The parameters of a function, after its `(`: `[...]name[: type][= default]`,
    /// split by `,`.
    #[verifier::rlimit(100)]
    fn parse_function_params(&mut self) -> (params: Vec<Parameter>)
        requires
            old(self).wf(),
        ensures
            final(self).follows(*old(self)),
            old(self).spec_check(TokenType::CloseParen) ==> params@.len() == 0 && *final(self) == *old(self),
            params_from(old(self).toks(), old(self).pos()) is Some ==> {
                let pl = params_from(old(self).toks(), old(self).pos()).unwrap();
                &&& params@.map_values(|q: Parameter| param_view(q)) == pl.0
                &&& forall|k: int| 0 <= k < params@.len() ==> (#[trigger] params@[k])._default_value is None
                &&& final(self).pos() == pl.1
                &&& final(self).toks() == old(self).toks()
                &&& final(self).errs() == old(self).errs()
            },
        decreases old(self).nest(), old(self).remaining(), 80int,
    {
        let ghost entry = *self;
        let ghost t = entry.toks();
        let ghost h = params_from(t, entry.pos()) is Some;
        let ghost pl = params_from(t, entry.pos()).unwrap();
        let mut params: Vec<Parameter> = Vec::new();
        if !self.check(TokenType::CloseParen) {
            loop
                invariant_except_break
                    h ==> {
                        &&& params_from(t, self.pos()) is Some
                        &&& pl.0 == params@.map_values(|q: Parameter| param_view(q)) + params_from(t, self.pos()).unwrap().0
                        &&& pl.1 == params_from(t, self.pos()).unwrap().1
                    },
                invariant
                    entry == *old(self),
                    self.follows(entry),
                    t == entry.toks(),
                    h == params_from(t, entry.pos()) is Some,
                    pl == params_from(t, entry.pos()).unwrap(),
                    h ==> self.toks() == t && self.errs() == entry.errs(),
                    h ==> forall|k: int| 0 <= k < params@.len() ==> (#[trigger] params@[k])._default_value is None,
                ensures
                    self.follows(entry),
                    h ==> self.toks() == t && self.errs() == entry.errs()
                        && params@.map_values(|q: Parameter| param_view(q)) == pl.0 && self.pos() == pl.1
                        && forall|k: int| 0 <= k < params@.len() ==> (#[trigger] params@[k])._default_value is None,
                decreases self.remaining(),
            {
                let ghost here = self.pos();
                let ghost before = params@.map_values(|q: Parameter| param_view(q));
                let ghost before_params = params@;
                let is_rest = self.match_token(TokenType::Ellipsis);
                let p_name = self.consume(TokenType::Identifier, "Expected param name").value;
                let mut p_type = String::new();
                if self.match_token(TokenType::Colon) {
                    p_type = self.parse_type_annotation();
                }
                let mut default_val = None;
                if self.match_token(TokenType::Equals) {
                    default_val = Some(Box::new(self.parse_assignment()));
                }
                params.push(Parameter {
                    name: p_name,
                    type_annotation: p_type,
                    _default_value: default_val,
                    _is_rest: is_rest,
                });
                proof {
                    if h {
                        let one = param_at(t, here).unwrap().0;
                        assert(params@.map_values(|q: Parameter| param_view(q)) =~= before.push(one));
                        assert forall|k: int| 0 <= k < params@.len() implies (#[trigger] params@[k])._default_value is None by {
                            if k < before_params.len() {
                                assert(params@[k] == before_params[k]);
                            }
                        }
                    }
                }
                if !self.match_token(TokenType::Comma) {
                    break;
                }
                proof {
                    if h {
                        let one = param_at(t, here).unwrap().0;
                        let rest = params_from(t, self.pos()).unwrap().0;
                        assert(before + (seq![one] + rest) =~= before.push(one) + rest);
                    }
                }
            }
        }
        params
    }

    /// Plain parameters `name[: type]` up to `)`, after `(`.
    fn parse_simple_params(&mut self, message: &str) -> (params: Vec<Parameter>)
        requires
            old(self).wf(),
        ensures
            final(self).follows(*old(self)),
            forall|i: int| 0 <= i < params@.len() ==> (#[trigger] params@[i])._default_value is None
                && !params@[i]._is_rest,
            old(self).spec_check(TokenType::CloseParen) ==> params@.len() == 0 && *final(self) == *old(self),
            !old(self).spec_check(TokenType::CloseParen) ==> {
                &&& params@.len() > 0
                &&& final(self).moved_from(*old(self))
                &&& !final(self).spec_check(TokenType::Comma)
                &&& !old(self).spec_at_end() ==> params@[0].name == old(self).spec_peek().value
            },
    {
        let ghost entry = *self;
        let mut params: Vec<Parameter> = Vec::new();
        if !self.check(TokenType::CloseParen) {
            loop
                invariant
                    entry == *old(self),
                    self.follows(entry),
                    !entry.spec_check(TokenType::CloseParen),
                    forall|i: int| 0 <= i < params@.len() ==> (#[trigger] params@[i])._default_value is None
                        && !params@[i]._is_rest,
                    params@.len() > 0 ==> self.moved_from(entry),
                    params@.len() > 0 && !entry.spec_at_end() ==> params@[0].name == entry.spec_peek().value,
                    params@.len() == 0 ==> *self == entry,
                ensures
                    params@.len() > 0,
                    !self.spec_check(TokenType::Comma),
                decreases self.remaining(),
            {
                let ghost at = *self;
                let name = self.consume(TokenType::Identifier, message).value;
                proof {
                    if params@.len() == 0 && !entry.spec_at_end() {
                        assert(self.spec_previous() == entry.spec_peek());
                    }
                }
                let mut p_type = String::new();
                if self.match_token(TokenType::Colon) {
                    p_type = self.parse_type_annotation();
                }
                params.push(Parameter { name, type_annotation: p_type, _default_value: None, _is_rest: false });
                if !self.match_token(TokenType::Comma) {
                    break;
                }
            }
        }
        params
    }

    /// What follows a class's name up to its `{`: type parameters, the parent after
    /// `extends`, the protocols after `implements`.
    fn parse_class_header(&mut self) -> (r: (Vec<String>, String, Vec<String>))
        requires
            old(self).wf(),
        ensures
            final(self).follows(*old(self)),
            final(self).toks() == old(self).toks(),
            final(self).pos() >= old(self).pos(),
            class_header(old(self).toks(), old(self).pos()) matches Some((gs, par, ps, d)) ==> {
                &&& r.0@ == gs
                &&& r.1@ == par
                &&& r.2@ == ps
                &&& final(self).pos() == d
                &&& final(self).errs() == old(self).errs()
            },
    {
        let ghost entry = *self;
        let ghost h = class_header(entry.toks(), entry.pos());
        let ghost t = entry.toks();
        proof {
            lemma_names_until_end(t, entry.pos() + 1, TokenType::Greater);
        }
        let mut generic_params: Vec<String> = Vec::new();
        if self.match_token(TokenType::Less) {
            let ghost gl = names_until(t, entry.pos() + 1, TokenType::Greater).unwrap();
            loop
                invariant_except_break
                    h is Some ==> {
                        &&& names_until(t, self.pos(), TokenType::Greater) is Some
                        &&& gl.0 == generic_params@ + names_until(t, self.pos(), TokenType::Greater).unwrap().0
                        &&& gl.1 == names_until(t, self.pos(), TokenType::Greater).unwrap().1
                        &&& self.errs() == entry.errs()
                    },
                invariant
                    entry == *old(self),
                    self.follows(entry),
                    self.toks() == t,
                    self.pos() > entry.pos(),
                    h == class_header(t, entry.pos()),
                    t == entry.toks(),
                    gl == names_until(t, entry.pos() + 1, TokenType::Greater).unwrap(),
                ensures
                    self.follows(entry),
                    self.toks() == t,
                    self.pos() > entry.pos(),
                    h is Some ==> generic_params@ == gl.0 && self.pos() == gl.1 && self.errs() == entry.errs(),
                decreases self.remaining(),
            {
                let ghost here = self.pos();
                let ghost before = generic_params@;
                let param = self.consume(TokenType::Identifier, "Expected type parameter").value;
                generic_params.push(param);
                if !self.match_token(TokenType::Comma) {
                    break;
                }
                proof {
                    if h is Some {
                        let rest = names_until(t, self.pos(), TokenType::Greater).unwrap().0;
                        assert(before + (seq![t[here].value] + rest) == before.push(t[here].value) + rest);
                    }
                }
            }
            self.consume(TokenType::Greater, "Expected '>'");
        }
        let ghost mid = *self;
        let ghost b: int = if t[entry.pos()].token_type == TokenType::Less {
            names_until(t, entry.pos() + 1, TokenType::Greater).unwrap().1 + 1
        } else {
            entry.pos()
        };
        proof {
            if h is Some {
                assert(generic_params@ == h.unwrap().0);
                assert(self.pos() == b);
                assert(self.errs() == entry.errs());
            }
        }
        let mut parent_name = String::new();
        if self.match_token(TokenType::Extends) {
            parent_name = self.consume(TokenType::Identifier, "Expected parent name").value;
        }
        let ghost c: int = if t[b].token_type == TokenType::Extends { b + 2 } else { b };
        proof {
            lemma_names_until_end(t, c + 1, TokenType::OpenBrace);
        }
        proof {
            if h is Some {
                assert(parent_name@ == h.unwrap().1);
                assert(self.pos() == c);
                assert(self.errs() == entry.errs());
                assert(self.toks() == t);
            }
        }
        let mut implemented_protocols: Vec<String> = Vec::new();
        if self.match_token(TokenType::Implements) {
            let ghost here0 = self.pos();
            proof {
                if h is Some {
                    assert(here0 == c + 1);
                    assert(names_until(t, here0, TokenType::OpenBrace) is Some);
                }
            }
            let ghost pl = names_until(t, here0, TokenType::OpenBrace).unwrap();
            loop
                invariant_except_break
                    h is Some ==> {
                        &&& names_until(t, self.pos(), TokenType::OpenBrace) is Some
                        &&& pl.0 == implemented_protocols@ + names_until(t, self.pos(), TokenType::OpenBrace).unwrap().0
                        &&& pl.1 == names_until(t, self.pos(), TokenType::OpenBrace).unwrap().1
                        &&& self.errs() == entry.errs()
                    },
                invariant
                    entry == *old(self),
                    self.follows(entry),
                    self.toks() == t,
                    self.pos() > entry.pos() || self.pos() == entry.pos(),
                    self.pos() >= here0,
                    h == class_header(t, entry.pos()),
                    t == entry.toks(),
                    pl == names_until(t, here0, TokenType::OpenBrace).unwrap(),
                    h is Some ==> names_until(t, here0, TokenType::OpenBrace) is Some,
                ensures
                    self.follows(entry),
                    self.toks() == t,
                    self.pos() >= entry.pos(),
                    h is Some ==> implemented_protocols@ == pl.0 && self.pos() == pl.1 && self.errs() == entry.errs(),
                decreases self.remaining(),
            {
                let ghost here = self.pos();
                let ghost before = implemented_protocols@;
                implemented_protocols.push(self.consume(TokenType::Identifier, "Expected protocol name").value);
                if !self.match_token(TokenType::Comma) {
                    break;
                }
                proof {
                    if h is Some {
                        let rest = names_until(t, self.pos(), TokenType::OpenBrace).unwrap().0;
                        assert(before + (seq![t[here].value] + rest) == before.push(t[here].value) + rest);
                    }
                }
            }
            proof {
                if h is Some {
                    assert(implemented_protocols@ + Seq::<String>::empty() == implemented_protocols@);
                }
            }
        }
        (generic_params, parent_name, implemented_protocols)
    }

    /// One member of a class body, after its modifiers: the constructor, a getter, a
    /// setter, a method or a field, added to the list it belongs in.
    #[verifier::rlimit(60)]
    fn parse_class_member(
        &mut self,
        start: &Token,
        access: AccessModifier,
        is_static: bool,
        is_abstract_member: bool,
        is_async: bool,
        members: &mut Vec<ClassMember>,
        methods: &mut Vec<ClassMethod>,
        getters: &mut Vec<ClassGetter>,
        setters: &mut Vec<ClassSetter>,
        constructor: &mut Option<FunctionDeclaration>,
    )
        requires
            old(self).wf(),
        ensures
            final(self).follows(*old(self)),
            !old(self).spec_at_end() ==> final(self).pos() > old(self).pos(),
            ({
                let t = old(self).toks();
                let p = old(self).pos();
                let plain = access == AccessModifier::Public && !is_static && !is_abstract_member && !is_async;
                let same = {
                    &&& final(self).toks() == t
                    &&& final(self).errs() == old(self).errs()
                };
                let no_setter = final(setters)@ == old(setters)@;
                &&& plain && field_at(t, p) ==> {
                    &&& same
                    &&& final(self).pos() == p + 4
                    &&& final(members)@.len() == old(members)@.len() + 1
                    &&& final(members)@.drop_last() == old(members)@
                    &&& reads_field(final(members)@.last(), t, p)
                    &&& no_setter
                    &&& final(methods)@ == old(methods)@ && final(getters)@ == old(getters)@
                    &&& *final(constructor) == *old(constructor)
                }
                &&& plain && method_at(t, p) ==> {
                    &&& same
                    &&& final(self).pos() == p + 5
                    &&& final(methods)@.len() == old(methods)@.len() + 1
                    &&& final(methods)@.drop_last() == old(methods)@
                    &&& reads_method(final(methods)@.last(), t, p)
                    &&& no_setter
                    &&& final(members)@ == old(members)@ && final(getters)@ == old(getters)@
                    &&& *final(constructor) == *old(constructor)
                }
                &&& plain && getter_at(t, p) ==> {
                    &&& same
                    &&& final(self).pos() == p + 6
                    &&& final(getters)@.len() == old(getters)@.len() + 1
                    &&& final(getters)@.drop_last() == old(getters)@
                    &&& reads_getter(final(getters)@.last(), t, p)
                    &&& no_setter
                    &&& final(members)@ == old(members)@ && final(methods)@ == old(methods)@
                    &&& *final(constructor) == *old(constructor)
                }
                &&& plain && setter_at(t, p) ==> {
                    &&& same
                    &&& final(self).pos() == p + 7
                    &&& final(setters)@.len() == old(setters)@.len() + 1
                    &&& final(setters)@.drop_last() == old(setters)@
                    &&& reads_setter(final(setters)@.last(), t, p)
                    &&& final(members)@ == old(members)@ && final(methods)@ == old(methods)@
                    &&& final(getters)@ == old(getters)@
                    &&& *final(constructor) == *old(constructor)
                }
                &&& plain && ctor_at(t, p) ==> {
                    &&& same
                    &&& final(self).pos() == p + 5
                    &&& *final(constructor) matches Some(f) && reads_ctor(f, t, p, start.line, start.column)
                    &&& no_setter
                    &&& final(members)@ == old(members)@ && final(methods)@ == old(methods)@
                    &&& final(getters)@ == old(getters)@
                }
            }),
        decreases old(self).nest(), old(self).remaining(), 89int,
    {
        let ghost s0 = *self;
        if self.match_token(TokenType::Constructor) {
            self.consume(TokenType::OpenParen, "Expected '('");
            let params = self.parse_simple_params("Expected param name");
            self.consume(TokenType::CloseParen, "Expected ')' after constructor parameters.");
            let body = self.parse_block();
            *constructor = Some(FunctionDeclaration {
                name: owned("constructor"),
                params,
                return_type: owned("void"),
                body: Box::new(body),
                _is_async: false,
                _line: start.line,
                _col: start.column,
            });
            return;
        }
        if self.check(TokenType::Get) && self.check_next(TokenType::Identifier) {
            self.advance();
            let getter_name = self.consume_identifier("Expected getter name").value;
            self.consume(TokenType::OpenParen, "Expected '('");
            self.consume(TokenType::CloseParen, "Expected ')'");
            let mut return_type = String::new();
            if self.match_token(TokenType::Colon) {
                return_type = self.parse_type_annotation();
            }
            let body = self.parse_block();
            getters.push(ClassGetter { _name: getter_name, _return_type: return_type, _body: Box::new(body), _access: access });
            proof {
                assert(final(getters)@.drop_last() =~= old(getters)@) by {
                    assert(getters@.drop_last() =~= old(getters)@);
                }
            }
            return;
        }
        if self.check(TokenType::KwSet) && self.check_next(TokenType::Identifier) {
            self.advance();
            let setter_name = self.consume_identifier("Expected setter name").value;
            self.consume(TokenType::OpenParen, "Expected '('");
            let param = self.consume(TokenType::Identifier, "Expected param").value;
            let mut p_type = String::new();
            if self.match_token(TokenType::Colon) {
                p_type = self.parse_type_annotation();
            }
            self.consume(TokenType::CloseParen, "Expected ')'");
            let body = self.parse_block();
            setters.push(ClassSetter {
                _name: setter_name,
                _param_name: param,
                _param_type: p_type,
                _body: Box::new(body),
                _access: access,
            });
            proof {
                assert(setters@.drop_last() =~= old(setters)@);
            }
            return;
        }
        let member_name = self.consume_identifier("Expected member name").value;
        if self.check(TokenType::OpenParen) {
            self.consume(TokenType::OpenParen, "Expected '('");
            let params = self.parse_simple_params("Expected param");
            self.consume(TokenType::CloseParen, "Expected ')'");
            let mut return_type = owned("void");
            if self.match_token(TokenType::Colon) {
                return_type = self.parse_type_annotation();
            }
            let body = if is_abstract_member {
                self.consume(TokenType::Semicolon, "Expected ';'");
                Box::new(Statement::BlockStmt { statements: Vec::new(), _line: 0, _col: 0 })
            } else {
                Box::new(self.parse_block())
            };
            methods.push(ClassMethod {
                func: FunctionDeclaration {
                    name: member_name,
                    params,
                    return_type,
                    body,
                    _is_async: is_async,
                    _line: 0,
                    _col: 0,
                },
                _access: access,
                is_static,
                _is_abstract: is_abstract_member,
            });
        } else {
            let mut type_annotation = String::new();
            if self.match_token(TokenType::Colon) {
                type_annotation = self.parse_type_annotation();
            }
            let mut initializer = None;
            if self.match_token(TokenType::Equals) {
                initializer = Some(Box::new(self.parse_expression()));
            }
            self.consume(TokenType::Semicolon, "Expected ';'");
            members.push(ClassMember {
                _name: member_name,
                _type_name: type_annotation,
                _access: access,
                _is_static: is_static,
                _initializer: initializer,
            });
        }
    }

    /// `[abstract] class Name<T, ..> [extends P] [implements A, ..] { members }`. A class
    /// without a constructor gets an empty one.
    #[verifier::rlimit(60)]
    pub(crate) fn parse_class_declaration(&mut self, is_abstract: bool) -> (r: Statement)
        requires
            old(self).wf(),
            old(self).spec_check(TokenType::Class),
        ensures
            final(self).follows(*old(self)),
            final(self).pos() > old(self).pos(),
            r matches Statement::ClassDeclaration(c) && c._is_abstract == is_abstract
                && c._line == old(self).spec_peek().line && c._col == old(self).spec_peek().column
                && c.name@ == old(self).toks()[old(self).pos() + 1].value@
                && c._constructor is Some,
            old(self).toks()[old(self).pos() + 1].token_type == TokenType::Identifier
                && class_header(old(self).toks(), old(self).pos() + 2) is Some ==> ({
                let h = class_header(old(self).toks(), old(self).pos() + 2).unwrap();
                r matches Statement::ClassDeclaration(c) && c.generic_params@ == h.0 && c._parent_name@ == h.1
                    && c._implemented_protocols@ == h.2
            }),
            plain_class_at(old(self).toks(), old(self).pos()) ==> {
                let toks = old(self).toks();
                let (fs, ms, gs, ct, end, ss) = class_body(toks, old(self).pos() + 3).unwrap();
                let line = toks[old(self).pos()].line;
                let col = toks[old(self).pos()].column;
                r matches Statement::ClassDeclaration(c) && {
                    &&& c._members@.len() == fs.len()
                    &&& forall|k: int| 0 <= k < fs.len() ==> reads_field(#[trigger] c._members@[k], toks, fs[k])
                    &&& c.methods@.len() == ms.len()
                    &&& forall|k: int| 0 <= k < ms.len() ==> reads_method(#[trigger] c.methods@[k], toks, ms[k])
                    &&& c._getters@.len() == gs.len()
                    &&& forall|k: int| 0 <= k < gs.len() ==> reads_getter(#[trigger] c._getters@[k], toks, gs[k])
                    &&& c._setters@.len() == ss.len()
                    &&& forall|k: int| 0 <= k < ss.len() ==> reads_setter(#[trigger] c._setters@[k], toks, ss[k])
                    &&& ct matches Some(q) ==> (c._constructor matches Some(f) && reads_ctor(f, toks, q, line, col))
                    &&& ct is None ==> (c._constructor matches Some(f) && is_default_constructor(f, line, col))
                    &&& final(self).pos() == end + 1
                    &&& final(self).toks() == toks
                    &&& final(self).errs() == old(self).errs()
                }
            },
        decreases old(self).nest(), old(self).remaining(), 90int,
    {
        let ghost entry = *self;
        let ghost plain = plain_class_at(entry.toks(), entry.pos());
        let ghost t = entry.toks();
        let ghost whole = class_body(t, entry.pos() + 3).unwrap();
        let start = self.consume(TokenType::Class, "Expected 'class'");
        let name = self.consume_identifier("Expected class name").value;
        let ghost after_name = *self;
        let (generic_params, parent_name, implemented_protocols) = self.parse_class_header();
        proof {
            Parser::lemma_follows_trans(entry, after_name, *self);
        }
        self.consume(TokenType::OpenBrace, "Expected '{' before class body.");
        let mut members: Vec<ClassMember> = Vec::new();
        let mut methods: Vec<ClassMethod> = Vec::new();
        let mut getters: Vec<ClassGetter> = Vec::new();
        let mut setters: Vec<ClassSetter> = Vec::new();
        let mut constructor: Option<FunctionDeclaration> = None;
        let ghost mut ctor_at_pos: Option<int> = None;
        while !self.check(TokenType::CloseBrace) && !self.is_at_end()
            invariant
                entry == *old(self),
                self.follows(entry),
                self.pos() > entry.pos(),
                plain == plain_class_at(entry.toks(), entry.pos()),
                t == entry.toks(),
                whole == class_body(t, entry.pos() + 3).unwrap(),
                plain ==> {
                    let rest = class_body(t, self.pos()).unwrap();
                    &&& class_body(t, self.pos()) is Some
                    &&& self.toks() == t
                    &&& self.errs() == entry.errs()
                    &&& members@.len() + rest.0.len() == whole.0.len()
                    &&& rest.0 == whole.0.skip(members@.len() as int)
                    &&& forall|k: int| 0 <= k < members@.len() ==> reads_field(#[trigger] members@[k], t, whole.0[k])
                    &&& methods@.len() + rest.1.len() == whole.1.len()
                    &&& rest.1 == whole.1.skip(methods@.len() as int)
                    &&& forall|k: int| 0 <= k < methods@.len() ==> reads_method(#[trigger] methods@[k], t, whole.1[k])
                    &&& getters@.len() + rest.2.len() == whole.2.len()
                    &&& rest.2 == whole.2.skip(getters@.len() as int)
                    &&& forall|k: int| 0 <= k < getters@.len() ==> reads_getter(#[trigger] getters@[k], t, whole.2[k])
                    &&& setters@.len() + rest.5.len() == whole.5.len()
                    &&& rest.5 == whole.5.skip(setters@.len() as int)
                    &&& forall|k: int| 0 <= k < setters@.len() ==> reads_setter(#[trigger] setters@[k], t, whole.5[k])
                    &&& whole.3 == (if rest.3 is Some { rest.3 } else { ctor_at_pos })
                    &&& ctor_at_pos matches Some(q) ==> (constructor matches Some(f) && reads_ctor(f, t, q, start.line, start.column))
                    &&& ctor_at_pos is None ==> constructor is None
                    &&& whole.4 == rest.4
                    &&& parent_name@.len() == 0
                    &&& generic_params@.len() == 0
                    &&& implemented_protocols@.len() == 0
                    &&& start == t[entry.pos()]
                },
            decreases self.remaining(),
        {
            let mut is_static = false;
            let mut is_abstract_member = false;
            let mut is_async = false;
            let mut access = AccessModifier::Public;
            let ghost member_start = *self;
            let ghost at = self.pos();
            loop
                invariant
                    entry == *old(self),
                    self.follows(member_start),
                    member_start.follows(entry),
                    member_start.pos() > entry.pos(),
                    !member_start.spec_at_end(),
                    self.pos() == member_start.pos() || self.pos() > member_start.pos(),
                    self.pos() == member_start.pos() ==> *self == member_start,
                    plain ==> (field_at(t, at) || method_at(t, at) || getter_at(t, at) || setter_at(t, at) || ctor_at(t, at))
                        && member_start.toks() == t && member_start.pos() == at
                        && *self == member_start
                        && access == AccessModifier::Public && !is_static && !is_abstract_member && !is_async,
                decreases self.remaining(),
            {
                if self.match_token(TokenType::Public) {
                    access = AccessModifier::Public;
                } else if self.match_token(TokenType::Private) {
                    access = AccessModifier::Private;
                } else if self.match_token(TokenType::Protected) {
                    access = AccessModifier::Protected;
                } else if self.match_token(TokenType::Static) {
                    is_static = true;
                } else if self.match_token(TokenType::Abstract) {
                    is_abstract_member = true;
                } else if self.match_token(TokenType::Async) {
                    is_async = true;
                } else {
                    break;
                }
            }
            proof { Parser::lemma_follows_trans(entry, member_start, *self); }
            let ghost before = *self;
            let ghost members_before = members@;
            let ghost methods_before = methods@;
            let ghost getters_before = getters@;
            let ghost setters_before = setters@;
            self.parse_class_member(
                &start,
                access,
                is_static,
                is_abstract_member,
                is_async,
                &mut members,
                &mut methods,
                &mut getters,
                &mut setters,
                &mut constructor,
            );
            proof {
                Parser::lemma_follows_trans(entry, before, *self);
                if plain {
                    let rest = class_body(t, at).unwrap();
                    if field_at(t, at) {
                        let next = class_body(t, at + 4).unwrap();
                        assert(rest.0 == seq![at] + next.0);
                        assert(whole.0[members_before.len() as int] == at) by {
                            assert(whole.0.skip(members_before.len() as int)[0] == rest.0[0]);
                        }
                        assert(whole.0.skip(members@.len() as int) =~= next.0) by {
                            assert(whole.0.skip(members_before.len() as int).skip(1) =~= whole.0.skip(members@.len() as int));
                        }
                        assert forall|k: int| 0 <= k < members@.len() implies reads_field(#[trigger] members@[k], t, whole.0[k]) by {
                            if k < members_before.len() {
                                assert(members@[k] == members_before[k]);
                            }
                        }
                    } else if method_at(t, at) {
                        let next = class_body(t, at + 5).unwrap();
                        assert(rest.1 == seq![at] + next.1);
                        assert(whole.1[methods_before.len() as int] == at) by {
                            assert(whole.1.skip(methods_before.len() as int)[0] == rest.1[0]);
                        }
                        assert(whole.1.skip(methods@.len() as int) =~= next.1) by {
                            assert(whole.1.skip(methods_before.len() as int).skip(1) =~= whole.1.skip(methods@.len() as int));
                        }
                        assert forall|k: int| 0 <= k < methods@.len() implies reads_method(#[trigger] methods@[k], t, whole.1[k]) by {
                            if k < methods_before.len() {
                                assert(methods@[k] == methods_before[k]);
                            }
                        }
                    } else if getter_at(t, at) {
                        let next = class_body(t, at + 6).unwrap();
                        assert(rest.2 == seq![at] + next.2);
                        assert(whole.2[getters_before.len() as int] == at) by {
                            assert(whole.2.skip(getters_before.len() as int)[0] == rest.2[0]);
                        }
                        assert(whole.2.skip(getters@.len() as int) =~= next.2) by {
                            assert(whole.2.skip(getters_before.len() as int).skip(1) =~= whole.2.skip(getters@.len() as int));
                        }
                        assert forall|k: int| 0 <= k < getters@.len() implies reads_getter(#[trigger] getters@[k], t, whole.2[k]) by {
                            if k < getters_before.len() {
                                assert(getters@[k] == getters_before[k]);
                            }
                        }
                    } else if setter_at(t, at) {
                        let next = class_body(t, at + 7).unwrap();
                        assert(rest.5 == seq![at] + next.5);
                        assert(whole.5[setters_before.len() as int] == at) by {
                            assert(whole.5.skip(setters_before.len() as int)[0] == rest.5[0]);
                        }
                        assert(whole.5.skip(setters@.len() as int) =~= next.5) by {
                            assert(whole.5.skip(setters_before.len() as int).skip(1) =~= whole.5.skip(setters@.len() as int));
                        }
                        assert forall|k: int| 0 <= k < setters@.len() implies reads_setter(#[trigger] setters@[k], t, whole.5[k]) by {
                            if k < setters_before.len() {
                                assert(setters@[k] == setters_before[k]);
                            }
                        }
                    } else {
                        ctor_at_pos = Some(at);
                    }
                }
            }
        }
        if self.is_at_end() && !self.check(TokenType::CloseBrace) {
            let mut message = owned("Unclosed class body for '");
            message.append(name.as_str());
            message.append("' starting at line ");
            message.append(decimal_string(start.line).as_str());
            message.append(":");
            message.append(decimal_string(start.column).as_str());
            let prev = self.previous();
            let line = prev.line;
            let column = prev.column.wrapping_add(prev.value.as_str().len());
            self.report(message, line, column);
        } else {
            self.consume(TokenType::CloseBrace, "Expected '}' after class body.");
        }
        if constructor.is_none() {
            constructor = Some(FunctionDeclaration {
                name: owned("constructor"),
                params: Vec::new(),
                return_type: owned("void"),
                body: Box::new(Statement::BlockStmt { statements: Vec::new(), _line: start.line, _col: start.column }),
                _is_async: false,
                _line: start.line,
                _col: start.column,
            });
        }
        Statement::ClassDeclaration(ClassDeclaration {
            name,
            _parent_name: parent_name,
            generic_params,
            _is_abstract: is_abstract,
            _implemented_protocols: implemented_protocols,
            _members: members,
            methods,
            _getters: getters,
            _setters: setters,
            _constructor: constructor,
            _line: start.line,
            _col: start.column,
        })
    }

    /// `type Name = annotation;`
    pub(crate) fn parse_type_alias_declaration(&mut self) -> (r: Statement)
        requires
            old(self).wf(),
            old(self).spec_check(TokenType::TypeAlias),
        ensures
            final(self).follows(*old(self)),
            final(self).pos() > old(self).pos(),
            r matches Statement::TypeAliasDeclaration { name, _line, _col, .. } && _line == old(self).spec_peek().line
                && _col == old(self).spec_peek().column && name@ == old(self).toks()[old(self).pos() + 1].value@,
    {
        let start = self.consume(TokenType::TypeAlias, "Expected 'type'");
        let name = self.consume_identifier("Expected type name").value;
        self.consume(TokenType::Equals, "Expected '='");
        let type_def = self.parse_type_annotation();
        self.consume(TokenType::Semicolon, "Expected ';'");
        Statement::TypeAliasDeclaration { name, _type_def: type_def, _line: start.line, _col: start.column }
    }

    /// `extension Type { name(params): type { body } .. }`.
    pub(crate) fn parse_extension_declaration(&mut self) -> (r: Statement)
        requires
            old(self).wf(),
            old(self).spec_check(TokenType::Extension),
        ensures
            final(self).follows(*old(self)),
            final(self).pos() > old(self).pos(),
            r matches Statement::ExtensionDeclaration(e) && e._line == old(self).spec_peek().line
                && e._col == old(self).spec_peek().column
                && e._target_type@ == old(self).toks()[old(self).pos() + 1].value@,
        decreases old(self).nest(), old(self).remaining(), 90int,
    {
        let ghost entry = *self;
        let start = self.consume(TokenType::Extension, "Expected 'extension'");
        let target_type = self.consume_identifier("Expected type name").value;
        self.consume(TokenType::OpenBrace, "Expected '{'");
        let mut methods: Vec<FunctionDeclaration> = Vec::new();
        while !self.check(TokenType::CloseBrace) && !self.is_at_end()
            invariant
                entry == *old(self),
                self.follows(entry),
                self.pos() > entry.pos(),
            decreases self.remaining(),
        {
            let name = self.consume_identifier("Expected method name").value;
            self.consume(TokenType::OpenParen, "Expected '('");
            let params = self.parse_simple_params("Param name");
            self.consume(TokenType::CloseParen, "Expected ')'");
            let mut return_type = owned("void");
            if self.match_token(TokenType::Colon) {
                return_type = self.parse_type_annotation();
            }
            let body = self.parse_block();
            methods.push(FunctionDeclaration {
                name,
                params,
                return_type,
                body: Box::new(body),
                _is_async: false,
                _line: 0,
                _col: 0,
            });
        }
        self.consume(TokenType::CloseBrace, "Expected '}'");
        Statement::ExtensionDeclaration(ExtensionDeclaration {
            _target_type: target_type,
            _methods: methods,
            _line: start.line,
            _col: start.column,
        })
    }

    /// `enum Name { A, B = value, .. }`.
    pub(crate) fn parse_enum_declaration(&mut self) -> (r: Statement)
        requires
            old(self).wf(),
            old(self).spec_check(TokenType::Enum),
        ensures
            final(self).follows(*old(self)),
            final(self).pos() > old(self).pos(),
            r matches Statement::EnumDeclaration(e) && e._line == old(self).spec_peek().line
                && e._col == old(self).spec_peek().column
                && e.name@ == old(self).toks()[old(self).pos() + 1].value@,
        decreases old(self).nest(), old(self).remaining(), 90int,
    {
        let ghost entry = *self;
        let start = self.consume(TokenType::Enum, "Expected 'enum'");
        let name = self.consume_identifier("Expected enum name").value;
        self.consume(TokenType::OpenBrace, "Expected '{'");
        let mut members: Vec<EnumMember> = Vec::new();
        while !self.check(TokenType::CloseBrace) && !self.is_at_end()
            invariant
                entry == *old(self),
                self.follows(entry),
                self.pos() > entry.pos(),
            decreases self.remaining(),
        {
            let member_name = self.consume_identifier("Expected enum member").value;
            let mut value = None;
            if self.match_token(TokenType::Equals) {
                value = Some(Box::new(self.parse_expression()));
            }
            members.push(EnumMember { _name: member_name, _value: value });
            if self.check(TokenType::Comma) {
                self.advance();
            }
        }
        self.consume(TokenType::CloseBrace, "Expected '}'");
        Statement::EnumDeclaration(EnumDeclaration { name, _members: members, _line: start.line, _col: start.column })
    }

    /// Moves past a `from`, written as a keyword or as a name.
    fn skip_from(&mut self)
        requires
            old(self).wf(),
        ensures
            final(self).follows(*old(self)),
            final(self).toks() == old(self).toks(),
            final(self).errs() == old(self).errs(),
            old(self).spec_check(TokenType::From) || (old(self).spec_check(TokenType::Identifier)
                && old(self).spec_peek().value@ == "from"@) ==> final(self).advanced_once(*old(self)),
            !(old(self).spec_check(TokenType::From) || (old(self).spec_check(TokenType::Identifier)
                && old(self).spec_peek().value@ == "from"@)) ==> *final(self) == *old(self),
    {
        if self.check(TokenType::Identifier) {
            if str_equals(self.peek().value.as_str(), "from") {
                self.advance();
            }
        } else if self.match_token(TokenType::From) {
        }
    }

    /// `import std:module;`, `import name from "path";` or `import { a, b } from "path";`.
    pub(crate) fn parse_import_statement(&mut self) -> (r: Statement)
        requires
            old(self).wf(),
            old(self).spec_check(TokenType::Import),
        ensures
            final(self).follows(*old(self)),
            final(self).pos() > old(self).pos(),
            r matches Statement::ImportDecl { _line, _col, .. } && _line == old(self).spec_peek().line
                && _col == old(self).spec_peek().column,
            ({
                let p = old(self).pos();
                let t = old(self).toks();
                let std_name = t[p + 1].token_type == TokenType::Identifier && t[p + 1].value@ == "std"@;
                let std_form = std_name && p + 3 < t.len() && t[p + 2].token_type == TokenType::Colon;
                &&& std_form && t[p + 3].token_type != TokenType::EndOfFile ==> (r matches Statement::ImportDecl {
                    _names,
                    source,
                    _is_default,
                    ..
                } && _names@.len() == 0 && !_is_default && source@ == "std:"@ + t[p + 3].value@)
                &&& !std_form && t[p + 1].token_type == TokenType::Identifier ==> (r matches Statement::ImportDecl {
                    _names,
                    _is_default,
                    ..
                } && _names@.len() == 1 && _names@[0]@ == t[p + 1].value@ && _is_default)
                &&& t[p + 1].token_type == TokenType::OpenBrace ==> (r matches Statement::ImportDecl {
                    _is_default,
                    ..
                } && !_is_default)
                &&& t[p + 1].token_type == TokenType::OpenBrace && import_names_from(t, p + 2) is Some
                    ==> (r matches Statement::ImportDecl { _names, .. }
                    && _names@ == import_names_from(t, p + 2).unwrap().0)
                &&& t[p + 1].token_type == TokenType::OpenBrace && import_names_from(t, p + 2) is Some
                    && braced_import_tail(t, import_names_from(t, p + 2).unwrap().1) ==> {
                    let e = import_names_from(t, p + 2).unwrap().1;
                    &&& final(self).errs() == old(self).errs()
                    &&& final(self).pos() == e + 3
                    &&& r matches Statement::ImportDecl { source, .. } && source == t[e + 1].value
                }
                &&& t[p + 1].token_type != TokenType::Identifier && t[p + 1].token_type != TokenType::OpenBrace
                    ==> (r matches Statement::ImportDecl { _names, _is_default, .. } && _names@.len() == 0
                    && !_is_default)
                &&& !std_form && final(self).errs() == old(self).errs() ==> (r matches Statement::ImportDecl {
                    source,
                    ..
                } && final(self).pos() >= 2 && final(self).toks()[final(self).pos() - 2].token_type == TokenType::String
                    && source == final(self).toks()[final(self).pos() - 2].value)
            }),
    {
        let ghost entry = *self;
        proof {
            self.lemma_step();
        }
        let start = self.consume(TokenType::Import, "Expected 'import'");
        let ghost p = entry.pos();
        let ghost t = entry.toks();
        if self.check(TokenType::Identifier) && str_equals(self.peek().value.as_str(), "std") {
            self.advance();
            if self.match_token(TokenType::Colon) {
                let module_name = self.consume(TokenType::Identifier, "Expected module name").value;
                proof {
                    if t[p + 3].token_type != TokenType::EndOfFile {
                        assert(module_name == t[p + 3].value);
                    }
                }
                self.consume(TokenType::Semicolon, "Expected ';'");
                let mut source = owned("std:");
                source.append(module_name.as_str());
                return Statement::ImportDecl {
                    _names: Vec::new(),
                    source,
                    _is_default: false,
                    _line: start.line,
                    _col: start.column,
                };
            }
            let mut names: Vec<String> = Vec::new();
            names.push(owned("std"));
            self.skip_from();
            let ghost before_path = *self;
            let source = self.consume(TokenType::String, "Expected module path").value;
            let ghost after_path = *self;
            self.consume(TokenType::Semicolon, "Expected ';'");
            proof {
                self.lemma_import_tail(entry, before_path, after_path, source);
                reveal_strlit("std");
                assert(names@[0]@ == t[p + 1].value@);
            }
            return Statement::ImportDecl {
                _names: names,
                source,
                _is_default: true,
                _line: start.line,
                _col: start.column,
            };
        }
        let ghost after_import = *self;
        let mut names: Vec<String> = Vec::new();
        let mut is_default = false;
        if self.check(TokenType::Identifier) {
            names.push(self.consume_identifier("Expected import name").value);
            is_default = true;
        } else if self.match_token(TokenType::OpenBrace) {
            let ghost listed = import_names_from(t, p + 2) is Some;
            let ghost all = import_names_from(t, p + 2).unwrap().0;
            let ghost end_all = import_names_from(t, p + 2).unwrap().1;
            while !self.check(TokenType::CloseBrace) && !self.is_at_end()
                invariant
                    self.follows(entry),
                    self.follows(after_import),
                    listed == (import_names_from(t, p + 2) is Some),
                    all == import_names_from(t, p + 2).unwrap().0,
                    end_all == import_names_from(t, p + 2).unwrap().1,
                    t == entry.toks(),
                    listed ==> {
                        &&& self.toks() == t
                        &&& import_names_from(t, self.pos()) is Some
                        &&& all == names@ + import_names_from(t, self.pos()).unwrap().0
                        &&& end_all == import_names_from(t, self.pos()).unwrap().1
                        &&& self.errs() == entry.errs()
                    },
                ensures
                    self.follows(entry),
                    self.follows(after_import),
                    listed ==> names@ == all && self.toks() == t && self.errs() == entry.errs()
                        && self.pos() + 1 == end_all && t[self.pos()].token_type == TokenType::CloseBrace,
                decreases self.remaining(),
            {
                let ghost here = self.pos();
                let ghost before = names@;
                names.push(self.consume_identifier("Expected import name").value);
                if self.check(TokenType::Comma) {
                    self.advance();
                }
                proof {
                    if listed {
                        let rest = import_names_from(t, self.pos()).unwrap().0;
                        assert(before + (seq![t[here].value] + rest) == before.push(t[here].value) + rest);
                    }
                }
            }
            proof {
                if listed {
                    assert(names@ + Seq::<String>::empty() == names@);
                }
            }
            self.consume(TokenType::CloseBrace, "Expected '}'");
        }
        self.skip_from();
        let ghost before_path = *self;
        let source = self.consume(TokenType::String, "Expected module path").value;
        let ghost after_path = *self;
        self.consume(TokenType::Semicolon, "Expected ';'");
        proof {
            self.lemma_import_tail(entry, before_path, after_path, source);
        }
        Statement::ImportDecl { _names: names, source, _is_default: is_default, _line: start.line, _col: start.column }
    }

    /// After `consume(String)` then `consume(Semicolon)`, with no diagnostic since
    /// `entry`, the path token stands two places before the end.
    proof fn lemma_import_tail(self, entry: Parser, before_path: Parser, after_path: Parser, source: String)
        requires
            before_path.follows(entry),
            after_path.follows(before_path),
            after_path.toks() == before_path.toks(),
            after_path.pos() == (if before_path.spec_at_end() { before_path.pos() } else { before_path.pos() + 1 }),
            source == after_path.spec_previous().value,
            before_path.spec_check(TokenType::String) ==> after_path.errs() == before_path.errs(),
            !before_path.spec_check(TokenType::String) ==> after_path.errs().len() == before_path.errs().len() + 1,
            self.follows(after_path),
            self.toks() == after_path.toks(),
            self.pos() == (if after_path.spec_at_end() { after_path.pos() } else { after_path.pos() + 1 }),
            after_path.spec_check(TokenType::Semicolon) ==> self.errs() == after_path.errs(),
            !after_path.spec_check(TokenType::Semicolon) ==> self.errs().len() == after_path.errs().len() + 1,
        ensures
            self.errs() == entry.errs() ==> {
                &&& self.pos() >= 2
                &&& self.toks()[self.pos() - 2].token_type == TokenType::String
                &&& source == self.toks()[self.pos() - 2].value
            },
    {
        if self.errs() == entry.errs() {
            assert(self.errs().len() == entry.errs().len());
            assert(before_path.errs().len() >= entry.errs().len());
        }
    }

    /// `interface Name { method(p: T): R; field: T; }`; fields are read and left out.
    pub(crate) fn parse_interface_declaration(&mut self) -> (r: Statement)
        requires
            old(self).wf(),
            old(self).spec_check(TokenType::Interface),
        ensures
            final(self).follows(*old(self)),
            final(self).pos() > old(self).pos(),
            r matches Statement::InterfaceDeclaration { name, _line, _col, .. } && _line == old(self).spec_peek().line
                && _col == old(self).spec_peek().column && name@ == old(self).toks()[old(self).pos() + 1].value@,
    {
        let ghost entry = *self;
        let start = self.consume(TokenType::Interface, "Expected 'interface'");
        let name = self.consume_identifier("Expected interface name").value;
        self.consume(TokenType::OpenBrace, "Expected '{'");
        let mut methods: Vec<InterfaceMethod> = Vec::new();
        while !self.check(TokenType::CloseBrace) && !self.is_at_end()
            invariant
                self.follows(entry),
                self.pos() > entry.pos(),
            decreases self.remaining(),
        {
            let member_name = self.consume_identifier("Expected member name").value;
            if self.check(TokenType::OpenParen) {
                self.consume(TokenType::OpenParen, "Expected '('");
                let mut params: Vec<Parameter> = Vec::new();
                let ghost mark = self.pos();
                if !self.check(TokenType::CloseParen) {
                    loop
                        invariant
                            self.follows(entry),
                            self.pos() > entry.pos(),
                            self.pos() >= mark,
                        decreases self.remaining(),
                    {
                        let p_name = self.consume(TokenType::Identifier, "Param name").value;
                        self.consume(TokenType::Colon, "Expected ':'");
                        let p_type = self.parse_type_annotation();
                        params.push(Parameter { name: p_name, type_annotation: p_type, _default_value: None, _is_rest: false });
                        if !self.match_token(TokenType::Comma) {
                            break;
                        }
                    }
                }
                self.consume(TokenType::CloseParen, "Expected ')'");
                self.consume(TokenType::Colon, "Expected ':'");
                let ret_type = self.parse_type_annotation();
                self.consume(TokenType::Semicolon, "Expected ';'");
                methods.push(InterfaceMethod { _name: member_name, _params: params, _return_type: ret_type });
            } else {
                self.consume(TokenType::Colon, "Expected ':'");
                let _field_type = self.parse_type_annotation();
                self.consume(TokenType::Semicolon, "Expected ';'");
            }
        }
        self.consume(TokenType::CloseBrace, "Expected '}'");
        Statement::InterfaceDeclaration { name, _methods: methods, _line: start.line, _col: start.column }
    }
}

} // verus!
