use vstd::prelude::*;

use super::{diag_is, is_name_like, Parser};
use crate::text::owned;
use crate::token::{Token, TokenType};

verus! {

/// The array suffixes `[]` and `[N]` from `j` on, appended to `t`; gives the text and
/// the place after them. `None` where a `[` is not closed as these forms close it.
pub open spec fn suffix_text(toks: Seq<Token>, j: int, t: Seq<char>) -> Option<(Seq<char>, int)>
    decreases toks.len() - j,
{
    if 0 <= j && j + 1 < toks.len() && toks[j].token_type == TokenType::OpenBracket {
        if toks[j + 1].token_type == TokenType::CloseBracket {
            suffix_text(toks, j + 2, t + "[]"@)
        } else if j + 2 < toks.len() && toks[j + 1].token_type == TokenType::Number
            && toks[j + 2].token_type == TokenType::CloseBracket {
            suffix_text(toks, j + 3, t + "["@ + toks[j + 1].value@ + "]"@)
        } else {
            None
        }
    } else {
        Some((t, j))
    }
}

/// A named type from `i`: a name, perhaps type arguments `<A, B>`, then array suffixes.
/// Gives its text (`Map<string, int>[]`) and the place after it; `None` for any other
/// form of type.
pub open spec fn base_text(toks: Seq<Token>, i: int) -> Option<(Seq<char>, int)>
    decreases toks.len() - i, 0int,
{
    if !(0 <= i && i + 1 < toks.len()) || !is_name_like(toks[i].token_type) {
        None
    } else if toks[i + 1].token_type == TokenType::Less {
        match args_text(toks, i + 2) {
            Some((a, k)) => if 0 <= k < toks.len() && toks[k].token_type == TokenType::Greater {
                suffix_text(toks, k + 1, toks[i].value@ + "<"@ + a + ">"@)
            } else {
                None
            },
            None => None,
        }
    } else {
        suffix_text(toks, i + 1, toks[i].value@)
    }
}

/// Type arguments from `i`: annotations split by `,`, joined by `, `.
pub open spec fn args_text(toks: Seq<Token>, i: int) -> Option<(Seq<char>, int)>
    decreases toks.len() - i, 2int,
{
    match annot_text(toks, i) {
        Some((a, j)) => if i < j < toks.len() && toks[j].token_type == TokenType::Comma {
            match args_text(toks, j + 1) {
                Some((b, k)) => Some((a + ", "@ + b, k)),
                None => None,
            }
        } else {
            Some((a, j))
        },
        None => None,
    }
}

/// The members after the first of a union, from `j`: each `| T` adds ` | T`.
pub open spec fn union_tail(toks: Seq<Token>, j: int) -> Option<(Seq<char>, int)>
    decreases toks.len() - j, 3int,
{
    if 0 <= j < toks.len() && toks[j].token_type == TokenType::Pipe {
        match base_text(toks, j + 1) {
            Some((c, k)) => if j < k < toks.len() {
                match union_tail(toks, k) {
                    Some((t, e)) => Some((" | "@ + c + t, e)),
                    None => None,
                }
            } else {
                None
            },
            None => None,
        }
    } else {
        Some((Seq::empty(), j))
    }
}

/// A type annotation from `i` built of named types, type arguments, array suffixes and
/// unions: its text and the place after it.
pub open spec fn annot_text(toks: Seq<Token>, i: int) -> Option<(Seq<char>, int)>
    decreases toks.len() - i, 1int,
{
    match base_text(toks, i) {
        Some((b, j)) => if i < j < toks.len() {
            match union_tail(toks, j) {
                Some((t, e)) => Some((b + t, e)),
                None => None,
            }
        } else {
            None
        },
        None => None,
    }
}

/// Array suffixes read alike from two token lists that agree from `lo` on.
pub proof fn lemma_suffix_text_same(a: Seq<Token>, b: Seq<Token>, lo: int, j: int, t: Seq<char>)
    requires
        a.len() == b.len(),
        0 <= lo <= j,
        forall|k: int| lo <= k < a.len() ==> a[k] == b[k],
    ensures
        suffix_text(a, j, t) == suffix_text(b, j, t),
        suffix_text(a, j, t) matches Some((_, e)) ==> e >= j,
    decreases a.len() - j,
{
    if j + 1 < a.len() && a[j].token_type == TokenType::OpenBracket {
        assert(a[j + 1] == b[j + 1]);
        if a[j + 1].token_type == TokenType::CloseBracket {
            lemma_suffix_text_same(a, b, lo, j + 2, t + "[]"@);
        } else if j + 2 < a.len() && a[j + 1].token_type == TokenType::Number
            && a[j + 2].token_type == TokenType::CloseBracket {
            assert(a[j + 2] == b[j + 2]);
            lemma_suffix_text_same(a, b, lo, j + 3, t + "["@ + a[j + 1].value@ + "]"@);
        }
    } else if j < a.len() {
        assert(a[j] == b[j]);
    }
}

/// A named type read alike from two token lists that agree from `lo` on.
pub proof fn lemma_base_text_same(a: Seq<Token>, b: Seq<Token>, lo: int, i: int)
    requires
        a.len() == b.len(),
        0 <= lo <= i,
        forall|k: int| lo <= k < a.len() ==> a[k] == b[k],
    ensures
        base_text(a, i) == base_text(b, i),
        base_text(a, i) matches Some((_, e)) ==> e >= i,
    decreases a.len() - i, 0int,
{
    if i + 1 < a.len() {
        assert(a[i] == b[i] && a[i + 1] == b[i + 1]);
        if is_name_like(a[i].token_type) {
            if a[i + 1].token_type == TokenType::Less {
                lemma_args_text_same(a, b, lo, i + 2);
                match args_text(a, i + 2) {
                    Some((x, k)) => if 0 <= k < a.len() && a[k].token_type == TokenType::Greater {
                        lemma_suffix_text_same(a, b, lo, k + 1, a[i].value@ + "<"@ + x + ">"@);
                    } else if 0 <= k < a.len() {
                        assert(a[k] == b[k]);
                    },
                    None => {},
                }
            } else {
                lemma_suffix_text_same(a, b, lo, i + 1, a[i].value@);
            }
        }
    }
}

/// Type arguments read alike from two token lists that agree from `lo` on.
pub proof fn lemma_args_text_same(a: Seq<Token>, b: Seq<Token>, lo: int, i: int)
    requires
        a.len() == b.len(),
        0 <= lo <= i,
        forall|k: int| lo <= k < a.len() ==> a[k] == b[k],
    ensures
        args_text(a, i) == args_text(b, i),
        args_text(a, i) matches Some((_, e)) ==> e >= i,
    decreases a.len() - i, 2int,
{
    lemma_annot_text_same(a, b, lo, i);
    match annot_text(a, i) {
        Some((x, j)) => if i < j < a.len() {
            assert(a[j] == b[j]);
            if a[j].token_type == TokenType::Comma {
                lemma_args_text_same(a, b, lo, j + 1);
            }
        },
        None => {},
    }
}

/// Union members read alike from two token lists that agree from `lo` on.
pub proof fn lemma_union_tail_same(a: Seq<Token>, b: Seq<Token>, lo: int, j: int)
    requires
        a.len() == b.len(),
        0 <= lo <= j,
        forall|k: int| lo <= k < a.len() ==> a[k] == b[k],
    ensures
        union_tail(a, j) == union_tail(b, j),
        union_tail(a, j) matches Some((_, e)) ==> e >= j,
    decreases a.len() - j, 3int,
{
    if j < a.len() {
        assert(a[j] == b[j]);
        if a[j].token_type == TokenType::Pipe {
            lemma_base_text_same(a, b, lo, j + 1);
            match base_text(a, j + 1) {
                Some((c, k)) => if j < k < a.len() {
                    lemma_union_tail_same(a, b, lo, k);
                },
                None => {},
            }
        }
    }
}

/// A type annotation read alike from two token lists that agree from `lo` on.
pub proof fn lemma_annot_text_same(a: Seq<Token>, b: Seq<Token>, lo: int, i: int)
    requires
        a.len() == b.len(),
        0 <= lo <= i,
        forall|k: int| lo <= k < a.len() ==> a[k] == b[k],
    ensures
        annot_text(a, i) == annot_text(b, i),
        annot_text(a, i) matches Some((_, e)) ==> e >= i,
    decreases a.len() - i, 1int,
{
    lemma_base_text_same(a, b, lo, i);
    match base_text(a, i) {
        Some((x, j)) => if i < j < a.len() {
            lemma_union_tail_same(a, b, lo, j);
        },
        None => {},
    }
}

impl Parser {
    /// A type annotation: a type, or several joined by `|`, given as text
    /// (`A | B`).
    pub(crate) fn parse_type_annotation(&mut self) -> (r: String)
        requires
            old(self).wf(),
        ensures
            final(self).follows(*old(self)),
            final(self).moved_from(*old(self)),
            final(self).toks() == old(self).toks(),
            is_name_like(old(self).spec_peek().token_type) && !old(self).spec_check_next(TokenType::Less)
                && !old(self).spec_check_next(TokenType::OpenBracket) && !old(self).spec_check_next(TokenType::Pipe)
                ==> {
                &&& r@ == old(self).spec_peek().value@
                &&& final(self).pos() == old(self).pos() + 1
                &&& final(self).errs() == old(self).errs()
            },
            annot_text(old(self).toks(), old(self).pos()) is Some ==> {
                &&& r@ == annot_text(old(self).toks(), old(self).pos()).unwrap().0
                &&& final(self).pos() == annot_text(old(self).toks(), old(self).pos()).unwrap().1
                &&& final(self).errs() == old(self).errs()
            },
        decreases old(self).nest(), old(self).remaining(), 3int,
    {
        let ghost start = *self;
        let ghost plain = annot_text(start.toks(), start.pos()) is Some;
        let ghost whole = annot_text(start.toks(), start.pos()).unwrap();
        let mut base_type = self.parse_base_type();
        loop
            invariant
                start == *old(self),
                self.follows(start),
                self.moved_from(start),
                self.toks() == start.toks(),
                is_name_like(start.spec_peek().token_type) && !start.spec_check_next(TokenType::Less)
                    && !start.spec_check_next(TokenType::OpenBracket) && !start.spec_check_next(TokenType::Pipe)
                    ==> {
                    &&& base_type@ == start.spec_peek().value@
                    &&& self.pos() == start.pos() + 1
                    &&& self.errs() == start.errs()
                },
                plain == annot_text(start.toks(), start.pos()) is Some,
                whole == annot_text(start.toks(), start.pos()).unwrap(),
                plain ==> {
                    &&& union_tail(start.toks(), self.pos()) is Some
                    &&& whole.0 == base_type@ + union_tail(start.toks(), self.pos()).unwrap().0
                    &&& whole.1 == union_tail(start.toks(), self.pos()).unwrap().1
                    &&& self.errs() == start.errs()
                },
            ensures
                plain ==> base_type@ == whole.0 && self.pos() == whole.1 && self.errs() == start.errs(),
                is_name_like(start.spec_peek().token_type) && !start.spec_check_next(TokenType::Less)
                    && !start.spec_check_next(TokenType::OpenBracket) && !start.spec_check_next(TokenType::Pipe)
                    ==> {
                    &&& base_type@ == start.spec_peek().value@
                    &&& self.pos() == start.pos() + 1
                    &&& self.errs() == start.errs()
                },
                self.follows(start),
                self.moved_from(start),
                self.toks() == start.toks(),
            decreases self.remaining(),
        {
            let ghost here = self.pos();
            if !self.match_token(TokenType::Pipe) {
                proof {
                    if plain {
                        assert(union_tail(start.toks(), here).unwrap().0 == Seq::<char>::empty());
                        assert(base_type@ + Seq::<char>::empty() == base_type@);
                    }
                }
                break;
            }
            let ghost before = base_type@;
            let next_type = self.parse_single_type();
            base_type.append(" | ");
            base_type.append(next_type.as_str());
            proof {
                if plain {
                    let c = base_text(start.toks(), here + 1).unwrap().0;
                    let t = union_tail(start.toks(), self.pos()).unwrap().0;
                    assert(before + (" | "@ + c + t) == before + " | "@ + c + t);
                }
            }
        }
        base_type
    }

    /// One member of a union type.
    pub(crate) fn parse_single_type(&mut self) -> (r: String)
        requires
            old(self).wf(),
        ensures
            final(self).follows(*old(self)),
            final(self).moved_from(*old(self)),
            final(self).toks() == old(self).toks(),
            base_text(old(self).toks(), old(self).pos()) is Some ==> {
                &&& r@ == base_text(old(self).toks(), old(self).pos()).unwrap().0
                &&& final(self).pos() == base_text(old(self).toks(), old(self).pos()).unwrap().1
                &&& final(self).errs() == old(self).errs()
            },
        decreases old(self).nest(), old(self).remaining(), 2int,
    {
        self.parse_base_type()
    }

    /// One type: a function type `(a: A, B) => R`, an object type `{ x: A; y?: B }`,
    /// or a name with type arguments `<..>` and array suffixes `[]` or `[n]`.
    pub(crate) fn parse_base_type(&mut self) -> (r: String)
        requires
            old(self).wf(),
        ensures
            final(self).follows(*old(self)),
            final(self).moved_from(*old(self)),
            final(self).toks() == old(self).toks(),
            is_name_like(old(self).spec_peek().token_type) && !old(self).spec_check_next(TokenType::Less)
                && !old(self).spec_check_next(TokenType::OpenBracket) ==> {
                &&& r@ == old(self).spec_peek().value@
                &&& final(self).pos() == old(self).pos() + 1
                &&& final(self).errs() == old(self).errs()
            },
            !old(self).spec_check(TokenType::OpenParen) && !old(self).spec_check(TokenType::OpenBrace)
                && !is_name_like(old(self).spec_peek().token_type) ==> {
                &&& r@ == "any"@
                &&& final(self).errs().len() == old(self).errs().len() + 1
                &&& diag_is(final(self).errs().last(), "Expected type"@,
                    old(self).spec_peek().line as int, old(self).spec_peek().column as int, old(self).file())
                &&& final(self).pos() == (if old(self).spec_at_end() { old(self).pos() } else { old(self).pos() + 1 })
            },
            base_text(old(self).toks(), old(self).pos()) is Some ==> {
                &&& r@ == base_text(old(self).toks(), old(self).pos()).unwrap().0
                &&& final(self).pos() == base_text(old(self).toks(), old(self).pos()).unwrap().1
                &&& final(self).errs() == old(self).errs()
            },
        decreases old(self).nest(), old(self).remaining(), 1int,
    {
        let ghost start = *self;
        let ghost plain = base_text(start.toks(), start.pos()) is Some;
        let ghost whole = base_text(start.toks(), start.pos()).unwrap();
        let ghost generic = start.pos() + 1 < start.toks().len() && start.toks()[start.pos() + 1].token_type == TokenType::Less;
        let ghost args = args_text(start.toks(), start.pos() + 2).unwrap();
        let ghost name = start.spec_peek().value@;
        if self.match_token(TokenType::OpenParen) {
            let mut params_str = owned("(");
            if !self.check(TokenType::CloseParen) {
                loop
                    invariant
                        start == *old(self),
                        self.follows(start),
                        self.pos() > start.pos(),
                        self.toks() == start.toks(),
                    decreases self.remaining(),
                {
                    if self.check(TokenType::Identifier) && self.check_next(TokenType::Colon) {
                        let name = self.consume(TokenType::Identifier, "Param name").value;
                        self.consume(TokenType::Colon, "Expected ':'");
                        let p_type = self.parse_type_annotation();
                        params_str.append(name.as_str());
                        params_str.append(": ");
                        params_str.append(p_type.as_str());
                    } else {
                        let p_type = self.parse_type_annotation();
                        params_str.append(p_type.as_str());
                    }
                    if self.match_token(TokenType::Comma) {
                        params_str.append(", ");
                    } else {
                        break;
                    }
                }
            }
            self.consume(TokenType::CloseParen, "Expected ')'");
            params_str.append(")");
            self.consume(TokenType::Arrow, "Expected '=>'");
            let ret_type = self.parse_type_annotation();
            params_str.append(" => ");
            params_str.append(ret_type.as_str());
            return params_str;
        }
        if self.match_token(TokenType::OpenBrace) {
            let mut members: Vec<String> = Vec::new();
            while !self.check(TokenType::CloseBrace) && !self.is_at_end()
                invariant
                    start == *old(self),
                    self.follows(start),
                    self.pos() > start.pos(),
                    self.toks() == start.toks(),
                decreases self.remaining(),
            {
                let key = self.consume_identifier("Expected property name").value;
                let mut member = key;
                if self.match_token(TokenType::Question) {
                    member.append("?");
                }
                self.consume(TokenType::Colon, "Expected ':'");
                let val_type = self.parse_type_annotation();
                member.append(": ");
                member.append(val_type.as_str());
                members.push(member);
                if self.match_token(TokenType::Comma) {
                } else if self.match_token(TokenType::Semicolon) {
                } else {
                    break;
                }
            }
            self.consume(TokenType::CloseBrace, "Expected '}'");
            let mut text = owned("{ ");
            let mut i: usize = 0;
            while i < members.len()
                invariant
                    i <= members.len(),
                decreases members.len() - i,
            {
                if i > 0 {
                    text.append("; ");
                }
                text.append(members[i].as_str());
                i = i + 1;
            }
            text.append(" }");
            return text;
        }
        let mut base_type;
        if self.check(TokenType::Identifier) || self.is_keyword_identifier() {
            base_type = self.consume_identifier("Expected type name").value;
            if self.match_token(TokenType::Less) {
                base_type.append("<");
                loop
                    invariant_except_break
                        plain && generic ==> {
                            &&& args_text(start.toks(), self.pos()) is Some
                            &&& name + "<"@ + args.0 == base_type@ + args_text(start.toks(), self.pos()).unwrap().0
                            &&& args.1 == args_text(start.toks(), self.pos()).unwrap().1
                            &&& self.errs() == start.errs()
                        },
                    invariant
                        start == *old(self),
                        self.follows(start),
                        self.pos() > start.pos(),
                        self.toks() == start.toks(),
                        plain == base_text(start.toks(), start.pos()) is Some,
                        generic == (start.pos() + 1 < start.toks().len()
                            && start.toks()[start.pos() + 1].token_type == TokenType::Less),
                        args == args_text(start.toks(), start.pos() + 2).unwrap(),
                    ensures
                        self.follows(start),
                        self.pos() > start.pos(),
                        self.toks() == start.toks(),
                        plain && generic ==> {
                            &&& base_type@ == name + "<"@ + args.0
                            &&& self.pos() == args.1
                            &&& self.errs() == start.errs()
                        },
                    decreases self.remaining(),
                {
                    let ghost before = base_type@;
                    let ghost here = self.pos();
                    let arg = self.parse_type_annotation();
                    base_type.append(arg.as_str());
                    if self.match_token(TokenType::Comma) {
                        base_type.append(", ");
                        proof {
                            if plain && generic {
                                let a = annot_text(start.toks(), here).unwrap().0;
                                let b = args_text(start.toks(), self.pos()).unwrap().0;
                                assert(before + (a + ", "@ + b) == before + a + ", "@ + b);
                            }
                        }
                    } else {
                        break;
                    }
                }
                self.consume(TokenType::Greater, "Expected '>'");
                base_type.append(">");
            }
        } else {
            if self.match_token(TokenType::TypeAny) { base_type = owned("any"); }
            else if self.match_token(TokenType::TypeVoid) { base_type = owned("void"); }
            else if self.match_token(TokenType::TypeInt) { base_type = owned("int"); }
            else if self.match_token(TokenType::TypeInt16) { base_type = owned("int16"); }
            else if self.match_token(TokenType::TypeInt64) { base_type = owned("int64"); }
            else if self.match_token(TokenType::TypeInt128) { base_type = owned("int128"); }
            else if self.match_token(TokenType::TypeFloat) { base_type = owned("float"); }
            else if self.match_token(TokenType::TypeFloat16) { base_type = owned("float16"); }
            else if self.match_token(TokenType::TypeFloat64) { base_type = owned("float64"); }
            else if self.match_token(TokenType::TypeChar) { base_type = owned("char"); }
            else if self.match_token(TokenType::TypeString) { base_type = owned("string"); }
            else if self.match_token(TokenType::TypeBoolean) { base_type = owned("bool"); }
            else {
                let t = self.peek();
                let line = t.line;
                let column = t.column;
                self.report(owned("Expected type"), line, column);
                self.advance();
                return owned("any");
            }
        }
        let ghost named = *self;
        loop
            invariant
                start == *old(self),
                self.follows(start),
                self.pos() > start.pos(),
                self.toks() == start.toks(),
                self.pos() >= named.pos(),
                is_name_like(start.spec_peek().token_type) && !start.spec_check_next(TokenType::Less)
                    && !start.spec_check_next(TokenType::OpenBracket) ==> {
                    &&& base_type@ == start.spec_peek().value@
                    &&& self.pos() == start.pos() + 1
                    &&& self.errs() == start.errs()
                },
                plain == base_text(start.toks(), start.pos()) is Some,
                whole == base_text(start.toks(), start.pos()).unwrap(),
                plain ==> {
                    &&& suffix_text(start.toks(), self.pos(), base_type@) == Some(whole)
                    &&& self.errs() == start.errs()
                },
            ensures
                self.follows(start),
                self.pos() > start.pos(),
                self.toks() == start.toks(),
                is_name_like(start.spec_peek().token_type) && !start.spec_check_next(TokenType::Less)
                    && !start.spec_check_next(TokenType::OpenBracket) ==> {
                    &&& base_type@ == start.spec_peek().value@
                    &&& self.pos() == start.pos() + 1
                    &&& self.errs() == start.errs()
                },
                plain ==> base_type@ == whole.0 && self.pos() == whole.1 && self.errs() == start.errs(),
            decreases self.remaining(),
        {
            if !self.match_token(TokenType::OpenBracket) {
                break;
            }
            if self.check(TokenType::Number) {
                let size = self.consume(TokenType::Number, "Expected size").value;
                self.consume(TokenType::CloseBracket, "Expected ']'");
                base_type.append("[");
                base_type.append(size.as_str());
                base_type.append("]");
            } else {
                self.consume(TokenType::CloseBracket, "Expected ']'");
                base_type.append("[]");
            }
        }
        base_type
    }
}

} // verus!
