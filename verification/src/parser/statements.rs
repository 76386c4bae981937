use vstd::prelude::*;

use super::declarations::{function_head, lemma_class_body_suffix, lemma_function_head_same, plain_class_at};
use super::{diag_is, nameless_declaration_at, read_in_order, simple_declaration_at, Parser};
use crate::ast::{BindingNode, Case, Expression, Statement};
use crate::text::{decimal, decimal_string, owned};
use crate::token::TokenType;

verus! {

impl Parser {
    /// One statement; anything that starts no other statement is an expression statement.
    pub(crate) fn parse_statement(&mut self) -> (r: Statement)
        requires
            old(self).wf(),
        ensures
            final(self).follows(*old(self)),
            final(self).moved_from(*old(self)),
            old(self).spec_check(TokenType::OpenBrace) ==> r is BlockStmt,
            old(self).spec_check(TokenType::If) ==> r is IfStmt,
            old(self).spec_check(TokenType::While) ==> r is WhileStmt,
            old(self).spec_check(TokenType::For) ==> r is ForStmt || r is ForOfStmt,
            old(self).spec_check(TokenType::Return) ==> r is ReturnStmt,
            old(self).spec_check(TokenType::Break) ==> r is BreakStmt,
            old(self).spec_check(TokenType::Continue) ==> r is ContinueStmt,
            old(self).spec_check(TokenType::Switch) ==> r is SwitchStmt,
            old(self).spec_check(TokenType::Try) ==> r is TryStmt,
            old(self).spec_check(TokenType::Throw) ==> r is ThrowStmt,
            !is_statement_keyword(old(self).spec_peek().token_type) || old(self).spec_at_end()
                ==> r is ExpressionStmt,
        decreases old(self).nest(), old(self).remaining(), 80int,
    {
        if self.check(TokenType::OpenBrace) {
            return self.parse_block();
        }
        if self.check(TokenType::If) {
            return self.parse_if_statement();
        }
        if self.check(TokenType::While) {
            return self.parse_while_statement();
        }
        if self.check(TokenType::For) {
            return self.parse_for_statement();
        }
        if self.check(TokenType::Return) {
            return self.parse_return_statement();
        }
        if self.check(TokenType::Break) {
            return self.parse_break_statement();
        }
        if self.check(TokenType::Continue) {
            return self.parse_continue_statement();
        }
        if self.check(TokenType::Switch) {
            return self.parse_switch_statement();
        }
        if self.check(TokenType::Try) {
            return self.parse_try_statement();
        }
        if self.check(TokenType::Throw) {
            let start = self.consume(TokenType::Throw, "Expected 'throw'");
            let expr = self.parse_expression();
            self.consume(TokenType::Semicolon, "Expected ';'");
            return Statement::ThrowStmt { _expression: Box::new(expr), _line: start.line, _col: start.column };
        }
        self.parse_expression_statement()
    }

    /// `{ declarations }`; a block that the input ends inside is reported as unclosed.
    #[verifier::rlimit(100)]
    pub(crate) fn parse_block(&mut self) -> (r: Statement)
        requires
            old(self).wf(),
        ensures
            final(self).follows(*old(self)),
            final(self).moved_from(*old(self)),
            !old(self).spec_at_end() ==> (r matches Statement::BlockStmt { _line, _col, .. }
                && _line == old(self).spec_peek().line && _col == old(self).spec_peek().column),
            old(self).spec_check(TokenType::OpenBrace) && old(self).spec_check_next(TokenType::CloseBrace) ==> {
                &&& r matches Statement::BlockStmt { statements, .. } && statements@.len() == 0
                &&& final(self).pos() == old(self).pos() + 2
                &&& final(self).toks() == old(self).toks()
                &&& final(self).errs() == old(self).errs()
            },
            old(self).spec_check(TokenType::OpenBrace) ==> (r matches Statement::BlockStmt { statements, .. }
                && exists|to: int, starts: Seq<int>, ends: Seq<int>| #[trigger] read_in_order(
                old(self).toks(),
                old(self).pos() + 1,
                to,
                statements@,
                starts,
                ends,
            )),
        decreases old(self).nest(), old(self).remaining(), 75int,
    {
        let ghost start = *self;
        let ghost empty = start.spec_check(TokenType::OpenBrace) && start.spec_check_next(TokenType::CloseBrace);
        let start_tok = self.consume(TokenType::OpenBrace, "Expected '{'");
        let ghost opened = start.spec_check(TokenType::OpenBrace);
        let ghost from = start.pos() + 1;
        let ghost mut starts: Seq<int> = Seq::empty();
        let ghost mut ends: Seq<int> = Seq::empty();
        let mut statements: Vec<Statement> = Vec::new();
        while !self.check(TokenType::CloseBrace) && !self.is_at_end()
            invariant
                start == *old(self),
                self.follows(start),
                self.pos() > start.pos() || (start.spec_at_end() && self.toks() == start.toks()
                    && self.pos() == start.pos()),
                empty == (start.spec_check(TokenType::OpenBrace) && start.spec_check_next(TokenType::CloseBrace)),
                empty ==> self.pos() == start.pos() + 1 && self.toks() == start.toks() && self.errs() == start.errs()
                    && statements@.len() == 0,
                opened == start.spec_check(TokenType::OpenBrace),
                from == start.pos() + 1,
                opened ==> {
                    &&& self.pos() >= from
                    &&& read_in_order(start.toks(), from, self.pos(), statements@, starts, ends)
                    &&& forall|i: int| self.pos() <= i < self.toks().len() ==> #[trigger] self.toks()[i] == start.toks()[i]
                },
            decreases self.remaining(),
        {
            let ghost before = *self;
            let ghost at = self.pos();
            proof {
                if opened {
                    if at + 3 < self.toks().len() {
                        assert(self.toks()[at] == start.toks()[at]);
                        assert(self.toks()[at + 1] == start.toks()[at + 1]);
                        assert(self.toks()[at + 2] == start.toks()[at + 2]);
                        assert(self.toks()[at + 3] == start.toks()[at + 3]);
                    }
                    if at + 4 < self.toks().len() {
                        assert(self.toks()[at + 4] == start.toks()[at + 4]);
                    }
                    assert(simple_declaration_at(self.toks(), at) == simple_declaration_at(start.toks(), at));
                    assert(nameless_declaration_at(self.toks(), at) == nameless_declaration_at(start.toks(), at));
                    lemma_class_body_suffix(self.toks(), start.toks(), at + 3);
                    assert(plain_class_at(self.toks(), at) == plain_class_at(start.toks(), at));
                    lemma_function_head_same(self.toks(), start.toks(), at);
                    if function_head(self.toks(), at) is Some {
                        let b = function_head(self.toks(), at).unwrap().2;
                        assert(self.toks()[b] == start.toks()[b]);
                    }
                }
            }
            match self.parse_declaration() {
                Some(stmt) => {
                    proof {
                        starts = starts.push(at);
                        ends = ends.push(self.pos());
                    }
                    statements.push(stmt);
                },
                None => {},
            }
            proof {
                if opened {
                    assert forall|i: int| self.pos() <= i < self.toks().len() implies #[trigger] self.toks()[i] == start.toks()[i] by {
                        assert(self.toks()[i] == before.toks()[i]);
                    }
                }
            }
        }
        proof {
            if opened {
                assert(read_in_order(start.toks(), from, self.pos(), statements@, starts, ends));
            }
        }
        let ghost to = self.pos();
        if self.is_at_end() && !self.check(TokenType::CloseBrace) {
            let mut message = owned("Unclosed block starting at line ");
            message.append(decimal_string(start_tok.line).as_str());
            message.append(":");
            message.append(decimal_string(start_tok.column).as_str());
            let prev = self.previous();
            let line = prev.line;
            let column = prev.column.wrapping_add(prev.value.as_str().len());
            self.report(message, line, column);
        } else {
            self.consume(TokenType::CloseBrace, "Expected '}' after block.");
        }
        let ghost read = statements@;
        let r = Statement::BlockStmt { statements, _line: start_tok.line, _col: start_tok.column };
        proof {
            if opened {
                assert(read_in_order(start.toks(), from, to, read, starts, ends));
                assert(r->BlockStmt_statements@ == read);
                assert(exists|t: int, st: Seq<int>, en: Seq<int>| #[trigger] read_in_order(
                    start.toks(), start.pos() + 1, t, read, st, en));
            }
        }
        r
    }

    /// `if (condition) statement`, with `else statement` when it follows.
    pub(crate) fn parse_if_statement(&mut self) -> (r: Statement)
        requires
            old(self).wf(),
            old(self).spec_check(TokenType::If),
        ensures
            final(self).follows(*old(self)),
            final(self).pos() > old(self).pos(),
            r matches Statement::IfStmt { _line, _col, .. } && _line == old(self).spec_peek().line
                && _col == old(self).spec_peek().column,
            r matches Statement::IfStmt { else_branch: None, .. } ==> !final(self).spec_check(TokenType::Else),
            r matches Statement::IfStmt { else_branch: Some(b), .. } ==> exists|q: int| {
                &&& old(self).pos() < q < final(self).pos()
                &&& #[trigger] final(self).toks()[q].token_type == TokenType::Else
                &&& final(self).toks()[q + 1].token_type == TokenType::OpenBrace ==> *b is BlockStmt
                &&& final(self).toks()[q + 1].token_type == TokenType::If ==> *b is IfStmt
            },
        decreases old(self).nest(), old(self).remaining(), 70int,
    {
        let start = self.consume(TokenType::If, "Expected 'if'");
        self.consume(TokenType::OpenParen, "Expected '(' after 'if'.");
        let condition = self.parse_expression();
        self.consume(TokenType::CloseParen, "Expected ')' after if condition.");
        let then_branch = Box::new(self.parse_statement());
        let mut else_branch = None;
        let ghost at = self.pos();
        let ghost before_else = *self;
        if self.match_token(TokenType::Else) {
            let ghost opened = *self;
            let branch = self.parse_statement();
            proof {
                assert(opened.toks() == before_else.toks());
                assert(self.toks()[at] == opened.toks()[at]);
                assert(self.toks()[at + 1] == opened.toks()[at + 1]);
            }
            else_branch = Some(Box::new(branch));
        }
        Statement::IfStmt {
            condition: Box::new(condition),
            then_branch,
            else_branch,
            _line: start.line,
            _col: start.column,
        }
    }

    /// `while (condition) statement`.
    pub(crate) fn parse_while_statement(&mut self) -> (r: Statement)
        requires
            old(self).wf(),
            old(self).spec_check(TokenType::While),
        ensures
            final(self).follows(*old(self)),
            final(self).pos() > old(self).pos(),
            r matches Statement::WhileStmt { _line, _col, .. } && _line == old(self).spec_peek().line
                && _col == old(self).spec_peek().column,
        decreases old(self).nest(), old(self).remaining(), 70int,
    {
        let start = self.consume(TokenType::While, "Expected 'while'");
        self.consume(TokenType::OpenParen, "Expected '(' after 'while'.");
        let condition = self.parse_expression();
        self.consume(TokenType::CloseParen, "Expected ')' after while condition.");
        let body = self.parse_statement();
        Statement::WhileStmt {
            condition: Box::new(condition),
            body: Box::new(body),
            _line: start.line,
            _col: start.column,
        }
    }

    /// `for (init; cond; step) body` or `for (let x of items) body`; which of the two
    /// is decided by looking ahead for `of` after `let name[: type]`.
    #[verifier::rlimit(100)]
    #[verifier::spinoff_prover]
    pub(crate) fn parse_for_statement(&mut self) -> (r: Statement)
        requires
            old(self).wf(),
            old(self).spec_check(TokenType::For),
        ensures
            final(self).follows(*old(self)),
            final(self).pos() > old(self).pos(),
            r is ForStmt || r is ForOfStmt,
        decreases old(self).nest(), old(self).remaining(), 70int,
    {
        let ghost entry = *self;
        let start = self.consume(TokenType::For, "Expected 'for'");
        self.consume(TokenType::OpenParen, "Expected '(' after 'for'.");
        let mut is_for_of = false;
        let start_pos = self.position();
        let binds = if self.match_token(TokenType::Let) {
            true
        } else {
            self.match_token(TokenType::Const)
        };
        if binds {
            if self.check(TokenType::Identifier) {
                self.advance();
                if self.match_token(TokenType::Colon) {
                    self.parse_type_annotation();
                }
                if self.check(TokenType::Of) {
                    is_for_of = true;
                }
            }
        }
        self.rewind(start_pos);
        if is_for_of {
            let is_const = self.match_token(TokenType::Const);
            if !is_const {
                self.consume(TokenType::Let, "Expected 'let'");
            }
            let pattern = self.parse_binding_pattern();
            if self.match_token(TokenType::Colon) {
                self.parse_type_annotation();
            }
            self.consume(TokenType::Of, "Expected 'of'");
            let iterable = self.parse_expression();
            self.consume(TokenType::CloseParen, "Expected ')'");
            let body = self.parse_statement();
            return Statement::ForOfStmt {
                variable: pattern,
                iterable: Box::new(iterable),
                body: Box::new(body),
                _line: start.line,
                _col: start.column,
            };
        }
        let init = if self.match_token(TokenType::Semicolon) {
            None
        } else if self.check(TokenType::Let) || self.check(TokenType::Const) {
            Some(Box::new(self.parse_var_declaration_internal(false)))
        } else {
            let expr = self.parse_expression();
            Some(Box::new(Statement::ExpressionStmt { _expression: Box::new(expr), _line: start.line, _col: start.column }))
        };
        if init.is_some() {
            self.consume(TokenType::Semicolon, "Expected ';' after for init.");
        }
        let mut condition = None;
        if !self.check(TokenType::Semicolon) {
            condition = Some(Box::new(self.parse_expression()));
        }
        self.consume(TokenType::Semicolon, "Expected ';'");
        let mut increment = None;
        if !self.check(TokenType::CloseParen) {
            increment = Some(Box::new(self.parse_expression()));
        }
        self.consume(TokenType::CloseParen, "Expected ')' after for clauses.");
        let body = self.parse_statement();
        Statement::ForStmt {
            init,
            condition,
            increment,
            body: Box::new(body),
            _line: start.line,
            _col: start.column,
        }
    }

    /// `return;` or `return value;`.
    pub(crate) fn parse_return_statement(&mut self) -> (r: Statement)
        requires
            old(self).wf(),
            old(self).spec_check(TokenType::Return),
        ensures
            final(self).follows(*old(self)),
            final(self).pos() > old(self).pos(),
            r matches Statement::ReturnStmt { value, _line, _col } && _line == old(self).spec_peek().line
                && _col == old(self).spec_peek().column
                && (value is None <==> old(self).spec_check_next(TokenType::Semicolon)),
        decreases old(self).nest(), old(self).remaining(), 70int,
    {
        let start = self.consume(TokenType::Return, "Expected 'return'");
        let mut value = None;
        if !self.check(TokenType::Semicolon) {
            value = Some(Box::new(self.parse_expression()));
        }
        self.consume(TokenType::Semicolon, "Expected ';'");
        Statement::ReturnStmt { value, _line: start.line, _col: start.column }
    }

    /// `break;`
    pub(crate) fn parse_break_statement(&mut self) -> (r: Statement)
        requires
            old(self).wf(),
            old(self).spec_check(TokenType::Break),
        ensures
            final(self).follows(*old(self)),
            final(self).pos() > old(self).pos(),
            r == (Statement::BreakStmt { _line: old(self).spec_peek().line, _col: old(self).spec_peek().column }),
            old(self).spec_check_next(TokenType::Semicolon) ==> final(self).errs() == old(self).errs()
                && final(self).pos() == old(self).pos() + 2,
            !old(self).spec_check_next(TokenType::Semicolon) ==> final(self).errs().len() == old(self).errs().len() + 1,
    {
        let start = self.consume(TokenType::Break, "Expected 'break'");
        self.consume(TokenType::Semicolon, "Expected ';'");
        Statement::BreakStmt { _line: start.line, _col: start.column }
    }

    /// `continue;`
    pub(crate) fn parse_continue_statement(&mut self) -> (r: Statement)
        requires
            old(self).wf(),
            old(self).spec_check(TokenType::Continue),
        ensures
            final(self).follows(*old(self)),
            final(self).pos() > old(self).pos(),
            r == (Statement::ContinueStmt { _line: old(self).spec_peek().line, _col: old(self).spec_peek().column }),
            old(self).spec_check_next(TokenType::Semicolon) ==> final(self).errs() == old(self).errs()
                && final(self).pos() == old(self).pos() + 2,
            !old(self).spec_check_next(TokenType::Semicolon) ==> final(self).errs().len() == old(self).errs().len() + 1,
    {
        let start = self.consume(TokenType::Continue, "Expected 'continue'");
        self.consume(TokenType::Semicolon, "Expected ';'");
        Statement::ContinueStmt { _line: start.line, _col: start.column }
    }

    /// `switch (value) { case v: ... default: ... }`; each arm holds the statements
    /// up to the next arm or `}`.
    pub(crate) fn parse_switch_statement(&mut self) -> (r: Statement)
        requires
            old(self).wf(),
            old(self).spec_check(TokenType::Switch),
        ensures
            final(self).follows(*old(self)),
            final(self).pos() > old(self).pos(),
            r matches Statement::SwitchStmt { _line, _col, .. } && _line == old(self).spec_peek().line
                && _col == old(self).spec_peek().column,
        decreases old(self).nest(), old(self).remaining(), 70int,
    {
        let ghost entry = *self;
        let start = self.consume(TokenType::Switch, "Expected 'switch'");
        self.consume(TokenType::OpenParen, "Expected '(' after 'switch'.");
        let condition = self.parse_expression();
        self.consume(TokenType::CloseParen, "Expected ')' after switch condition.");
        self.consume(TokenType::OpenBrace, "Expected '{' before switch body.");
        let mut cases: Vec<Case> = Vec::new();
        while !self.check(TokenType::CloseBrace) && !self.is_at_end()
            invariant
                entry == *old(self),
                self.follows(entry),
                self.pos() > entry.pos(),
            decreases self.remaining(),
        {
            let value = if self.match_token(TokenType::Case) {
                let value = self.parse_expression();
                self.consume(TokenType::Colon, "Expected ':'");
                Some(Box::new(value))
            } else if self.match_token(TokenType::Default) {
                self.consume(TokenType::Colon, "Expected ':'");
                None
            } else {
                break;
            };
            let mut statements: Vec<Statement> = Vec::new();
            let ghost mark = self.pos();
            while !self.check(TokenType::Case) && !self.check(TokenType::Default)
                && !self.check(TokenType::CloseBrace) && !self.is_at_end()
                invariant
                    entry == *old(self),
                    self.follows(entry),
                    self.pos() > entry.pos(),
                    self.pos() >= mark,
                decreases self.remaining(),
            {
                match self.parse_declaration() {
                    Some(stmt) => statements.push(stmt),
                    None => {},
                }
            }
            cases.push(Case { value, statements });
        }
        self.consume(TokenType::CloseBrace, "Expected '}'");
        Statement::SwitchStmt { condition: Box::new(condition), cases, _line: start.line, _col: start.column }
    }

    /// `try { } catch (e) { } finally { }`; a missing catch gives an empty block.
    pub(crate) fn parse_try_statement(&mut self) -> (r: Statement)
        requires
            old(self).wf(),
            old(self).spec_check(TokenType::Try),
        ensures
            final(self).follows(*old(self)),
            final(self).pos() > old(self).pos(),
            r matches Statement::TryStmt { _line, _col, .. } && _line == old(self).spec_peek().line
                && _col == old(self).spec_peek().column,
            r matches Statement::TryStmt { _finally_block: None, .. } ==> !final(self).spec_check(TokenType::Finally),
            r matches Statement::TryStmt { _finally_block: Some(b), .. } ==> exists|q: int| {
                &&& old(self).pos() < q
                &&& q + 1 < final(self).toks().len()
                &&& #[trigger] final(self).toks()[q].token_type == TokenType::Finally
                &&& final(self).toks()[q + 1].token_type != TokenType::EndOfFile ==> (*b matches Statement::BlockStmt {
                    _line,
                    _col,
                    ..
                } && _line == final(self).toks()[q + 1].line && _col == final(self).toks()[q + 1].column)
            },
        decreases old(self).nest(), old(self).remaining(), 70int,
    {
        let start = self.consume(TokenType::Try, "Expected 'try'");
        let try_block = self.parse_block();
        let mut catch_var = String::new();
        let mut catch_block = Box::new(Statement::BlockStmt { statements: Vec::new(), _line: 0, _col: 0 });
        if self.match_token(TokenType::Catch) {
            self.consume(TokenType::OpenParen, "Expected '('");
            catch_var = self.consume(TokenType::Identifier, "Expected catch variable").value;
            self.consume(TokenType::CloseParen, "Expected ')'");
            catch_block = Box::new(self.parse_block());
        }
        let mut finally_block = None;
        let ghost at = self.pos();
        let ghost before_finally = *self;
        if self.match_token(TokenType::Finally) {
            let ghost opened = *self;
            let block = self.parse_block();
            proof {
                assert(self.toks()[at] == opened.toks()[at]);
                assert(self.toks()[at + 1] == opened.toks()[at + 1]);
                assert(opened.toks() == before_finally.toks());
                assert(old(self).pos() < at);
            }
            finally_block = Some(Box::new(block));
        }
        Statement::TryStmt {
            _try_block: Box::new(try_block),
            _catch_var: catch_var,
            _catch_block: catch_block,
            _finally_block: finally_block,
            _line: start.line,
            _col: start.column,
        }
    }

    /// An expression and `;`; the place is that of the expression's last token.
    pub(crate) fn parse_expression_statement(&mut self) -> (r: Statement)
        requires
            old(self).wf(),
        ensures
            final(self).follows(*old(self)),
            final(self).moved_from(*old(self)),
            r is ExpressionStmt,
        decreases old(self).nest(), old(self).remaining(), 70int,
    {
        let expr = self.parse_expression();
        let line = self.previous().line;
        let col = self.previous().column;
        self.consume(TokenType::Semicolon, "Expected ';'");
        Statement::ExpressionStmt { _expression: Box::new(expr), _line: line, _col: col }
    }
}

/// Token kinds that start a statement other than an expression statement.
pub open spec fn is_statement_keyword(tt: TokenType) -> bool {
    match tt {
        TokenType::OpenBrace | TokenType::If | TokenType::While | TokenType::For | TokenType::Return
        | TokenType::Break | TokenType::Continue | TokenType::Switch | TokenType::Try
        | TokenType::Throw => true,
        _ => false,
    }
}

} // verus!
