use vstd::prelude::*;

use super::{diag_is, Parser};
use crate::ast::{BindingNode, Expression};
use crate::text::owned;
use crate::token::{Token, TokenType};

verus! {

impl Parser {
    /// A binding pattern: a name, `[a, b, ...rest]`, `{ key: pattern, other }`, or a
    /// literal to match (`true`, `false`, a number, a string, `Some(p)`, `None`).
    pub(crate) fn parse_binding_pattern(&mut self) -> (r: BindingNode)
        requires
            old(self).wf(),
        ensures
            final(self).follows(*old(self)),
            final(self).toks() == old(self).toks(),
            old(self).spec_check(TokenType::OpenBracket) ==> r is ArrayBinding && final(self).pos() > old(self).pos(),
            old(self).spec_check(TokenType::OpenBrace) ==> r is ObjectBinding && final(self).pos() > old(self).pos(),
            old(self).spec_check(TokenType::True) ==> r == BindingNode::LiteralMatch(
                Box::new(Expression::BooleanLiteral { value: true, _line: 0, _col: 0 })),
            old(self).spec_check(TokenType::False) ==> r == BindingNode::LiteralMatch(
                Box::new(Expression::BooleanLiteral { value: false, _line: 0, _col: 0 })),
            old(self).spec_check(TokenType::Number) ==> r == BindingNode::LiteralMatch(
                Box::new(Expression::NumberLiteral {
                    value: old(self).spec_peek().value,
                    _line: old(self).spec_peek().line,
                    _col: old(self).spec_peek().column,
                })),
            old(self).spec_check(TokenType::String) ==> r == BindingNode::LiteralMatch(
                Box::new(Expression::StringLiteral {
                    value: old(self).spec_peek().value,
                    _line: old(self).spec_peek().line,
                    _col: old(self).spec_peek().column,
                })),
            old(self).spec_check(TokenType::KwSome) ==> (r matches BindingNode::LiteralMatch(e) && *e is SomeExpr)
                && final(self).pos() > old(self).pos(),
            old(self).spec_check(TokenType::KwNone) ==> r == BindingNode::LiteralMatch(
                Box::new(Expression::NoneExpr {
                    _line: old(self).spec_peek().line,
                    _col: old(self).spec_peek().column,
                })),
            old(self).spec_check(TokenType::Identifier) ==> r == BindingNode::Identifier(old(self).spec_peek().value),
            old(self).spec_check(TokenType::True) || old(self).spec_check(TokenType::False)
                || old(self).spec_check(TokenType::Number) || old(self).spec_check(TokenType::String)
                || old(self).spec_check(TokenType::KwNone) || old(self).spec_check(TokenType::Identifier) ==> {
                &&& final(self).pos() == old(self).pos() + 1
                &&& final(self).errs() == old(self).errs()
            },
            old(self).spec_check(TokenType::OpenBracket) && name_array_from(old(self).toks(), old(self).pos() + 1) is Some ==> {
                let (es, rest, end) = name_array_from(old(self).toks(), old(self).pos() + 1).unwrap();
                &&& r matches BindingNode::ArrayBinding { elements, rest: rr } && elements@ == es && rr == rest
                &&& final(self).pos() == end
                &&& final(self).errs() == old(self).errs()
            },
            old(self).spec_check(TokenType::OpenBrace) && name_object_from(old(self).toks(), old(self).pos() + 1) is Some ==> {
                let (es, end) = name_object_from(old(self).toks(), old(self).pos() + 1).unwrap();
                &&& r matches BindingNode::ObjectBinding { entries } && entries@ == es
                &&& final(self).pos() == end
                &&& final(self).errs() == old(self).errs()
            },
            !is_pattern_start(old(self).spec_peek().token_type) || old(self).spec_at_end() ==> {
                &&& r matches BindingNode::Identifier(n) && n@ == "__error__"@
                &&& final(self).pos() == old(self).pos()
                &&& final(self).errs().len() == old(self).errs().len() + 1
                &&& diag_is(final(self).errs().last(), "Expected binding pattern"@,
                    old(self).spec_peek().line as int, old(self).spec_peek().column as int, old(self).file())
            },
        decreases old(self).nest(), old(self).remaining(),
    {
        let ghost start = *self;
        if self.check(TokenType::OpenBracket) {
            self.advance();
            let ghost plain = name_array_from(start.toks(), start.pos() + 1) is Some;
            let ghost whole = name_array_from(start.toks(), start.pos() + 1).unwrap();
            let mut elements: Vec<BindingNode> = Vec::new();
            let mut rest: Option<Box<BindingNode>> = None;
            while !self.check(TokenType::CloseBracket) && !self.is_at_end()
                invariant
                    start == *old(self),
                    self.follows(start),
                    self.pos() > start.pos(),
                    self.toks() == start.toks(),
                    plain == name_array_from(start.toks(), start.pos() + 1) is Some,
                    whole == name_array_from(start.toks(), start.pos() + 1).unwrap(),
                    plain ==> self.errs() == start.errs(),
                    plain ==> ({
                        &&& rest is None
                        &&& name_array_from(start.toks(), self.pos()) is Some
                        &&& whole.0 == elements@ + name_array_from(start.toks(), self.pos()).unwrap().0
                        &&& whole.1 == name_array_from(start.toks(), self.pos()).unwrap().1
                        &&& whole.2 == name_array_from(start.toks(), self.pos()).unwrap().2
                    } || {
                        &&& rest is Some
                        &&& start.toks()[self.pos()].token_type == TokenType::CloseBracket
                        &&& whole == (elements@, rest, self.pos() + 1)
                    }),
                ensures
                    plain ==> start.toks()[self.pos()].token_type == TokenType::CloseBracket,
                decreases self.remaining(),
            {
                if self.match_token(TokenType::Ellipsis) {
                    rest = Some(Box::new(self.parse_binding_pattern()));
                    break;
                }
                let before = self.position();
                elements.push(self.parse_binding_pattern());
                if self.check(TokenType::Comma) {
                    self.advance();
                } else if self.position() == before {
                    // Nothing could be read here: stop rather than try the same token again.
                    break;
                }
            }
            proof {
                if plain && rest is None {
                    let sub = name_array_from(start.toks(), self.pos()).unwrap();
                    assert(start.toks()[self.pos()].token_type == TokenType::CloseBracket);
                    assert(sub.0 == Seq::<BindingNode>::empty());
                    assert(elements@ + sub.0 == elements@);
                }
            }
            self.consume(TokenType::CloseBracket, "Expected ']'");
            return BindingNode::ArrayBinding { elements, rest };
        } else if self.check(TokenType::OpenBrace) {
            self.advance();
            let ghost plain = name_object_from(start.toks(), start.pos() + 1) is Some;
            let ghost whole = name_object_from(start.toks(), start.pos() + 1).unwrap();
            let mut entries: Vec<(String, BindingNode)> = Vec::new();
            while !self.check(TokenType::CloseBrace) && !self.is_at_end()
                invariant
                    start == *old(self),
                    self.follows(start),
                    self.pos() > start.pos(),
                    self.toks() == start.toks(),
                    plain == name_object_from(start.toks(), start.pos() + 1) is Some,
                    whole == name_object_from(start.toks(), start.pos() + 1).unwrap(),
                    plain ==> {
                        &&& self.errs() == start.errs()
                        &&& name_object_from(start.toks(), self.pos()) is Some
                        &&& whole.0 == entries@ + name_object_from(start.toks(), self.pos()).unwrap().0
                        &&& whole.1 == name_object_from(start.toks(), self.pos()).unwrap().1
                    },
                decreases self.remaining(),
            {
                let key = self.consume_identifier("Expected property name").value;
                let target = if self.match_token(TokenType::Colon) {
                    self.parse_binding_pattern()
                } else {
                    BindingNode::Identifier(key.clone())
                };
                entries.push((key, target));
                if self.check(TokenType::Comma) {
                    self.advance();
                }
            }
            self.consume(TokenType::CloseBrace, "Expected '}'");
            return BindingNode::ObjectBinding { entries };
        } else if self.match_token(TokenType::True) {
            return BindingNode::LiteralMatch(
                Box::new(Expression::BooleanLiteral { value: true, _line: 0, _col: 0 }),
            );
        } else if self.match_token(TokenType::False) {
            return BindingNode::LiteralMatch(
                Box::new(Expression::BooleanLiteral { value: false, _line: 0, _col: 0 }),
            );
        } else if self.match_token(TokenType::Number) {
            let t = self.previous();
            return BindingNode::LiteralMatch(
                Box::new(Expression::NumberLiteral { value: t.value.clone(), _line: t.line, _col: t.column }),
            );
        } else if self.match_token(TokenType::String) {
            let t = self.previous();
            return BindingNode::LiteralMatch(
                Box::new(Expression::StringLiteral { value: t.value.clone(), _line: t.line, _col: t.column }),
            );
        } else if self.match_token(TokenType::KwSome) {
            let line = self.previous().line;
            let col = self.previous().column;
            self.consume(TokenType::OpenParen, "Expected '(' after Some");
            let inner = self.parse_binding_pattern();
            self.consume(TokenType::CloseParen, "Expected ')' after Some pattern");
            return BindingNode::LiteralMatch(
                Box::new(Expression::SomeExpr { _value: Box::new(inner), _line: line, _col: col }),
            );
        } else if self.match_token(TokenType::KwNone) {
            let t = self.previous();
            return BindingNode::LiteralMatch(Box::new(Expression::NoneExpr { _line: t.line, _col: t.column }));
        } else if self.match_token(TokenType::Identifier) {
            let name = self.previous().value.clone();
            return BindingNode::Identifier(name);
        } else {
            let t = self.peek();
            let line = t.line;
            let column = t.column;
            self.report(owned("Expected binding pattern"), line, column);
            return BindingNode::Identifier(owned("__error__"));
        }
    }
}

/// The rest of an array pattern of plain names from `i`, after its `[`: names split by
/// `,`, perhaps `...name` last, then `]`. Gives the elements, the rest, and the place
/// after the `]`.
pub open spec fn name_array_from(toks: Seq<Token>, i: int) -> Option<(Seq<BindingNode>, Option<Box<BindingNode>>, int)>
    decreases toks.len() - i,
{
    if i < 0 || i + 1 >= toks.len() {
        None
    } else if toks[i].token_type == TokenType::CloseBracket {
        Some((Seq::empty(), None, i + 1))
    } else if toks[i].token_type == TokenType::Ellipsis {
        if i + 2 < toks.len() && toks[i + 1].token_type == TokenType::Identifier
            && toks[i + 2].token_type == TokenType::CloseBracket {
            Some((Seq::empty(), Some(Box::new(BindingNode::Identifier(toks[i + 1].value))), i + 3))
        } else {
            None
        }
    } else if toks[i].token_type == TokenType::Identifier {
        let first = BindingNode::Identifier(toks[i].value);
        if toks[i + 1].token_type == TokenType::CloseBracket {
            Some((seq![first], None, i + 2))
        } else if toks[i + 1].token_type == TokenType::Comma {
            match name_array_from(toks, i + 2) {
                Some((es, rest, end)) => Some((seq![first] + es, rest, end)),
                None => None,
            }
        } else {
            None
        }
    } else {
        None
    }
}

/// Where the entry of an object pattern that starts at `i` ends: after `key: name`
/// or after a lone `key`.
pub open spec fn name_entry_end(toks: Seq<Token>, i: int) -> int {
    if i + 2 < toks.len() && toks[i + 1].token_type == TokenType::Colon {
        i + 3
    } else {
        i + 1
    }
}

/// The rest of an object pattern of plain names from `i`, after its `{`: entries
/// `key` or `key: name`, each perhaps followed by `,`, then `}`. Gives the entries and
/// the place after the `}`.
pub open spec fn name_object_from(toks: Seq<Token>, i: int) -> Option<(Seq<(String, BindingNode)>, int)>
    decreases toks.len() - i,
{
    if i < 0 || i + 1 >= toks.len() {
        None
    } else if toks[i].token_type == TokenType::CloseBrace {
        Some((Seq::empty(), i + 1))
    } else if toks[i].token_type == TokenType::Identifier {
        let key = toks[i].value;
        let j = name_entry_end(toks, i);
        if j == i + 3 && toks[i + 2].token_type != TokenType::Identifier {
            None
        } else {
            let entry = (key, BindingNode::Identifier(toks[j - 1].value));
            let next = if j < toks.len() && toks[j].token_type == TokenType::Comma { j + 1 } else { j };
            match name_object_from(toks, next) {
                Some((es, end)) => Some((seq![entry] + es, end)),
                None => None,
            }
        }
    } else {
        None
    }
}

/// Token kinds a binding pattern can start with.
pub open spec fn is_pattern_start(tt: TokenType) -> bool {
    match tt {
        TokenType::OpenBracket | TokenType::OpenBrace | TokenType::True | TokenType::False
        | TokenType::Number | TokenType::String | TokenType::KwSome | TokenType::KwNone
        | TokenType::Identifier => true,
        _ => false,
    }
}

} // verus!
