use vstd::prelude::*;

use super::template::template_read;
use super::{diag_is, tokens_for, Parser};
use crate::ast::{BindingNode, Expression, MatchArm, Parameter, Statement};
use crate::text::owned;
use crate::token::TokenType;

verus! {

impl Parser {
    /// An expression, commas included.
    pub(crate) fn parse_expression(&mut self) -> (r: Expression)
        requires
            old(self).wf(),
        ensures
            final(self).follows(*old(self)),
            final(self).moved_from(*old(self)),
            old(self).lone_operand() ==> final(self).read_lone(*old(self), r),
            final(self).reads_forms(*old(self), r, 2),
        decreases old(self).nest(), old(self).remaining(), 60int,
    {
        proof {
            reveal(Parser::reads_forms);
        }
        self.parse_comma_expression()
    }

    /// A list of assignments separated by commas, as one sequence expression.
    pub(crate) fn parse_comma_expression(&mut self) -> (r: Expression)
        requires
            old(self).wf(),
        ensures
            final(self).follows(*old(self)),
            final(self).moved_from(*old(self)),
            old(self).lone_operand() ==> final(self).read_lone(*old(self), r),
            final(self).reads_forms(*old(self), r, 2),
        decreases old(self).nest(), old(self).remaining(), 59int,
    {
        proof {
            reveal(Parser::reads_forms);
        }
        let ghost start = *self;
        let expr = self.parse_assignment();
        let line = self.peek().line;
        let col = self.peek().column;
        if self.check(TokenType::Comma) {
            let mut expressions: Vec<Expression> = Vec::new();
            expressions.push(expr);
            loop
                invariant
                    start == *old(self),
                    self.follows(start),
                    self.moved_from(start),
                decreases self.remaining(),
            {
                if !self.match_token(TokenType::Comma) {
                    break;
                }
                expressions.push(self.parse_assignment());
            }
            return Expression::SequenceExpr { expressions, _line: line, _col: col };
        }
        expr
    }

    /// An assignment (`=`, `+=`, `-=`, `*=`, `/=`), which groups to the right.
    pub(crate) fn parse_assignment(&mut self) -> (r: Expression)
        requires
            old(self).wf(),
        ensures
            final(self).follows(*old(self)),
            final(self).moved_from(*old(self)),
            old(self).lone_operand() ==> final(self).read_lone(*old(self), r),
            final(self).reads_forms(*old(self), r, 2),
        decreases old(self).nest(), old(self).remaining(), 58int,
    {
        proof {
            reveal(Parser::reads_forms);
        }
        let expr = self.parse_conditional();
        let matched = if self.match_token(TokenType::Equals) {
            true
        } else if self.match_token(TokenType::PlusEquals) {
            true
        } else if self.match_token(TokenType::MinusEquals) {
            true
        } else if self.match_token(TokenType::StarEquals) {
            true
        } else {
            self.match_token(TokenType::SlashEquals)
        };
        if matched {
            let op = self.previous().token_type;
            let line = self.previous().line;
            let col = self.previous().column;
            let value = self.parse_assignment();
            return Expression::AssignmentExpr {
                target: Box::new(expr),
                value: Box::new(value),
                _op: op,
                _line: line,
                _col: col,
            };
        }
        expr
    }

    /// `c ? a : b`.
    pub(crate) fn parse_conditional(&mut self) -> (r: Expression)
        requires
            old(self).wf(),
        ensures
            final(self).follows(*old(self)),
            final(self).moved_from(*old(self)),
            old(self).lone_operand() ==> final(self).read_lone(*old(self), r),
            final(self).reads_forms(*old(self), r, 2),
        decreases old(self).nest(), old(self).remaining(), 57int,
    {
        proof {
            reveal(Parser::reads_forms);
        }
        let expr = self.parse_nullish_coalescing();
        if self.match_token(TokenType::Question) {
            let true_branch = self.parse_expression();
            self.consume(TokenType::Colon, "Expected ':' in ternary");
            let false_branch = self.parse_expression();
            return Expression::TernaryExpr {
                _condition: Box::new(expr),
                _true_branch: Box::new(true_branch),
                _false_branch: Box::new(false_branch),
                _line: 0,
                _col: 0,
            };
        }
        expr
    }

    /// `a ?? b`, grouping to the left.
    pub(crate) fn parse_nullish_coalescing(&mut self) -> (r: Expression)
        requires
            old(self).wf(),
        ensures
            final(self).follows(*old(self)),
            final(self).moved_from(*old(self)),
            old(self).lone_operand() ==> final(self).read_lone(*old(self), r),
            final(self).reads_forms(*old(self), r, 2),
        decreases old(self).nest(), old(self).remaining(), 56int,
    {
        proof {
            reveal(Parser::reads_forms);
        }
        let ghost start = *self;
        let mut expr = self.parse_logical_or();
        loop
            invariant
                start == *old(self),
                start.lone_operand() ==> self.read_lone(start, expr),
                start.simple_binary(2) ==> self.read_binary(start, expr),
                start.chain_of_two(2) ==> self.read_chain(start, expr),
                start.tighter_second(2) ==> self.read_right(start, expr),
                self.follows(start),
                self.moved_from(start),
            decreases self.remaining(),
        {
            proof {
                reveal(Parser::reads_forms);
            }
            if !self.match_token(TokenType::QuestionQuestion) {
                break;
            }
            let right = self.parse_logical_or();
            expr = Expression::NullishCoalescingExpr {
                _left: Box::new(expr),
                _right: Box::new(right),
                _line: 0,
                _col: 0,
            };
        }
        expr
    }

    /// Operands joined by `||`, grouped to the left.
    pub(crate) fn parse_logical_or(&mut self) -> (r: Expression)
        requires
            old(self).wf(),
        ensures
            final(self).follows(*old(self)),
            final(self).moved_from(*old(self)),
            old(self).lone_operand() ==> final(self).read_lone(*old(self), r),
            final(self).reads_forms(*old(self), r, 2),
        decreases old(self).nest(), old(self).remaining(), 55int,
    {
        proof {
            reveal(Parser::reads_forms);
        }
        let ghost start = *self;
        let mut expr = self.parse_logical_and();
        loop
            invariant
                start == *old(self),
                start.lone_operand() ==> self.read_lone(start, expr),
                start.operand_then(2) ==> self.read_lone(start, expr),
                start.simple_binary(3) ==> self.read_binary(start, expr),
                start.simple_binary(2) && !start.simple_binary(3) ==> (self.read_lone(start, expr)
                    || self.read_binary(start, expr)),
                start.chain_of_two(3) ==> self.read_chain(start, expr),
                start.chain_of_two(2) && !start.chain_of_two(3) ==> (self.read_lone(start, expr)
                    || self.read_binary(start, expr) || self.read_chain(start, expr)),
                start.chain_of_two(2) && start.binary_then(3) ==> (self.read_binary(start, expr)
                    || self.read_chain(start, expr)),
                start.binary_then(2) && start.binary_then(3) ==> self.read_binary(start, expr),
                start.binary_then(2) && !start.binary_then(3) ==> (self.read_lone(start, expr)
                    || self.read_binary(start, expr)),
                start.tighter_second(3) ==> self.read_right(start, expr),
                start.tighter_second(2) && !start.tighter_second(3) ==> (self.read_lone(start, expr)
                    || self.read_right(start, expr)),
                self.follows(start),
                self.moved_from(start),
            ensures
                start.simple_binary(2) ==> self.read_binary(start, expr),
                start.chain_of_two(2) ==> self.read_chain(start, expr),
                start.binary_then(2) ==> self.read_binary(start, expr),
                start.tighter_second(2) ==> self.read_right(start, expr),
            decreases self.remaining(),
        {
            proof {
                reveal(Parser::reads_forms);
            }
            if !self.match_token(TokenType::PipePipe) {
                break;
            }
            let op = self.previous().token_type;
            let line = self.previous().line;
            let col = self.previous().column;
            let right = self.parse_logical_and();
            expr = Expression::BinaryExpr { left: Box::new(expr), op, right: Box::new(right), _line: line, _col: col };
        }
        expr
    }

    /// `a && b`; the right operand is read at the level of equality.
    pub(crate) fn parse_logical_and(&mut self) -> (r: Expression)
        requires
            old(self).wf(),
        ensures
            final(self).follows(*old(self)),
            final(self).moved_from(*old(self)),
            old(self).lone_operand() ==> final(self).read_lone(*old(self), r),
            final(self).reads_forms(*old(self), r, 3),
        decreases old(self).nest(), old(self).remaining(), 54int,
    {
        proof {
            reveal(Parser::reads_forms);
        }
        let ghost start = *self;
        let mut expr = self.parse_bitwise_or();
        loop
            invariant
                start == *old(self),
                start.lone_operand() ==> self.read_lone(start, expr),
                start.operand_then(3) ==> self.read_lone(start, expr),
                start.simple_binary(4) ==> self.read_binary(start, expr),
                start.simple_binary(3) && !start.simple_binary(4) ==> (self.read_lone(start, expr)
                    || self.read_binary(start, expr)),
                start.chain_of_two(4) ==> self.read_chain(start, expr),
                start.chain_of_two(3) && !start.chain_of_two(4) ==> (self.read_lone(start, expr)
                    || self.read_binary(start, expr) || self.read_chain(start, expr)),
                start.chain_of_two(3) && start.binary_then(4) ==> (self.read_binary(start, expr)
                    || self.read_chain(start, expr)),
                start.binary_then(3) && start.binary_then(4) ==> self.read_binary(start, expr),
                start.binary_then(3) && !start.binary_then(4) ==> (self.read_lone(start, expr)
                    || self.read_binary(start, expr)),
                start.tighter_second(4) ==> self.read_right(start, expr),
                start.tighter_second(3) && !start.tighter_second(4) ==> (self.read_lone(start, expr)
                    || self.read_right(start, expr)),
                self.follows(start),
                self.moved_from(start),
            ensures
                start.simple_binary(3) ==> self.read_binary(start, expr),
                start.chain_of_two(3) ==> self.read_chain(start, expr),
                start.binary_then(3) ==> self.read_binary(start, expr),
                start.tighter_second(3) ==> self.read_right(start, expr),
            decreases self.remaining(),
        {
            proof {
                reveal(Parser::reads_forms);
            }
            if !self.match_token(TokenType::AmpersandAmpersand) {
                break;
            }
            let op = self.previous().token_type;
            let line = self.previous().line;
            let col = self.previous().column;
            let right = self.parse_equality();
            expr = Expression::BinaryExpr { left: Box::new(expr), op, right: Box::new(right), _line: line, _col: col };
        }
        expr
    }

    /// Operands joined by `|`, grouped to the left.
    pub(crate) fn parse_bitwise_or(&mut self) -> (r: Expression)
        requires
            old(self).wf(),
        ensures
            final(self).follows(*old(self)),
            final(self).moved_from(*old(self)),
            old(self).lone_operand() ==> final(self).read_lone(*old(self), r),
            final(self).reads_forms(*old(self), r, 4),
        decreases old(self).nest(), old(self).remaining(), 53int,
    {
        proof {
            reveal(Parser::reads_forms);
        }
        let ghost start = *self;
        let mut expr = self.parse_bitwise_xor();
        loop
            invariant
                start == *old(self),
                start.lone_operand() ==> self.read_lone(start, expr),
                start.operand_then(4) ==> self.read_lone(start, expr),
                start.simple_binary(5) ==> self.read_binary(start, expr),
                start.simple_binary(4) && !start.simple_binary(5) ==> (self.read_lone(start, expr)
                    || self.read_binary(start, expr)),
                start.chain_of_two(5) ==> self.read_chain(start, expr),
                start.chain_of_two(4) && !start.chain_of_two(5) ==> (self.read_lone(start, expr)
                    || self.read_binary(start, expr) || self.read_chain(start, expr)),
                start.chain_of_two(4) && start.binary_then(5) ==> (self.read_binary(start, expr)
                    || self.read_chain(start, expr)),
                start.binary_then(4) && start.binary_then(5) ==> self.read_binary(start, expr),
                start.binary_then(4) && !start.binary_then(5) ==> (self.read_lone(start, expr)
                    || self.read_binary(start, expr)),
                start.tighter_second(5) ==> self.read_right(start, expr),
                start.tighter_second(4) && !start.tighter_second(5) ==> (self.read_lone(start, expr)
                    || self.read_right(start, expr)),
                self.follows(start),
                self.moved_from(start),
            ensures
                start.simple_binary(4) ==> self.read_binary(start, expr),
                start.chain_of_two(4) ==> self.read_chain(start, expr),
                start.binary_then(4) ==> self.read_binary(start, expr),
                start.tighter_second(4) ==> self.read_right(start, expr),
            decreases self.remaining(),
        {
            proof {
                reveal(Parser::reads_forms);
            }
            if !self.match_token(TokenType::Pipe) {
                break;
            }
            let op = self.previous().token_type;
            let line = self.previous().line;
            let col = self.previous().column;
            let right = self.parse_bitwise_xor();
            expr = Expression::BinaryExpr { left: Box::new(expr), op, right: Box::new(right), _line: line, _col: col };
        }
        expr
    }

    /// Operands joined by `^`, grouped to the left.
    pub(crate) fn parse_bitwise_xor(&mut self) -> (r: Expression)
        requires
            old(self).wf(),
        ensures
            final(self).follows(*old(self)),
            final(self).moved_from(*old(self)),
            old(self).lone_operand() ==> final(self).read_lone(*old(self), r),
            final(self).reads_forms(*old(self), r, 5),
        decreases old(self).nest(), old(self).remaining(), 52int,
    {
        proof {
            reveal(Parser::reads_forms);
        }
        let ghost start = *self;
        let mut expr = self.parse_bitwise_and();
        loop
            invariant
                start == *old(self),
                start.lone_operand() ==> self.read_lone(start, expr),
                start.operand_then(5) ==> self.read_lone(start, expr),
                start.simple_binary(6) ==> self.read_binary(start, expr),
                start.simple_binary(5) && !start.simple_binary(6) ==> (self.read_lone(start, expr)
                    || self.read_binary(start, expr)),
                start.chain_of_two(6) ==> self.read_chain(start, expr),
                start.chain_of_two(5) && !start.chain_of_two(6) ==> (self.read_lone(start, expr)
                    || self.read_binary(start, expr) || self.read_chain(start, expr)),
                start.chain_of_two(5) && start.binary_then(6) ==> (self.read_binary(start, expr)
                    || self.read_chain(start, expr)),
                start.binary_then(5) && start.binary_then(6) ==> self.read_binary(start, expr),
                start.binary_then(5) && !start.binary_then(6) ==> (self.read_lone(start, expr)
                    || self.read_binary(start, expr)),
                start.tighter_second(6) ==> self.read_right(start, expr),
                start.tighter_second(5) && !start.tighter_second(6) ==> (self.read_lone(start, expr)
                    || self.read_right(start, expr)),
                self.follows(start),
                self.moved_from(start),
            ensures
                start.simple_binary(5) ==> self.read_binary(start, expr),
                start.chain_of_two(5) ==> self.read_chain(start, expr),
                start.binary_then(5) ==> self.read_binary(start, expr),
                start.tighter_second(5) ==> self.read_right(start, expr),
            decreases self.remaining(),
        {
            proof {
                reveal(Parser::reads_forms);
            }
            if !self.match_token(TokenType::Caret) {
                break;
            }
            let op = self.previous().token_type;
            let line = self.previous().line;
            let col = self.previous().column;
            let right = self.parse_bitwise_and();
            expr = Expression::BinaryExpr { left: Box::new(expr), op, right: Box::new(right), _line: line, _col: col };
        }
        expr
    }

    /// Operands joined by `&`, grouped to the left.
    pub(crate) fn parse_bitwise_and(&mut self) -> (r: Expression)
        requires
            old(self).wf(),
        ensures
            final(self).follows(*old(self)),
            final(self).moved_from(*old(self)),
            old(self).lone_operand() ==> final(self).read_lone(*old(self), r),
            final(self).reads_forms(*old(self), r, 6),
        decreases old(self).nest(), old(self).remaining(), 51int,
    {
        proof {
            reveal(Parser::reads_forms);
        }
        let ghost start = *self;
        let mut expr = self.parse_equality();
        loop
            invariant
                start == *old(self),
                start.lone_operand() ==> self.read_lone(start, expr),
                start.operand_then(6) ==> self.read_lone(start, expr),
                start.simple_binary(7) ==> self.read_binary(start, expr),
                start.simple_binary(6) && !start.simple_binary(7) ==> (self.read_lone(start, expr)
                    || self.read_binary(start, expr)),
                start.chain_of_two(7) ==> self.read_chain(start, expr),
                start.chain_of_two(6) && !start.chain_of_two(7) ==> (self.read_lone(start, expr)
                    || self.read_binary(start, expr) || self.read_chain(start, expr)),
                start.chain_of_two(6) && start.binary_then(7) ==> (self.read_binary(start, expr)
                    || self.read_chain(start, expr)),
                start.binary_then(6) && start.binary_then(7) ==> self.read_binary(start, expr),
                start.binary_then(6) && !start.binary_then(7) ==> (self.read_lone(start, expr)
                    || self.read_binary(start, expr)),
                start.tighter_second(7) ==> self.read_right(start, expr),
                start.tighter_second(6) && !start.tighter_second(7) ==> (self.read_lone(start, expr)
                    || self.read_right(start, expr)),
                self.follows(start),
                self.moved_from(start),
            ensures
                start.simple_binary(6) ==> self.read_binary(start, expr),
                start.chain_of_two(6) ==> self.read_chain(start, expr),
                start.binary_then(6) ==> self.read_binary(start, expr),
                start.tighter_second(6) ==> self.read_right(start, expr),
            decreases self.remaining(),
        {
            proof {
                reveal(Parser::reads_forms);
            }
            if !self.match_token(TokenType::Ampersand) {
                break;
            }
            let op = self.previous().token_type;
            let line = self.previous().line;
            let col = self.previous().column;
            let right = self.parse_equality();
            expr = Expression::BinaryExpr { left: Box::new(expr), op, right: Box::new(right), _line: line, _col: col };
        }
        expr
    }

    /// `==`, `!=`, `===`, `!==`, grouping to the left.
    pub(crate) fn parse_equality(&mut self) -> (r: Expression)
        requires
            old(self).wf(),
        ensures
            final(self).follows(*old(self)),
            final(self).moved_from(*old(self)),
            old(self).lone_operand() ==> final(self).read_lone(*old(self), r),
            final(self).reads_forms(*old(self), r, 7),
        decreases old(self).nest(), old(self).remaining(), 50int,
    {
        proof {
            reveal(Parser::reads_forms);
        }
        let ghost start = *self;
        let mut expr = self.parse_comparison();
        loop
            invariant
                start == *old(self),
                start.lone_operand() ==> self.read_lone(start, expr),
                start.operand_then(7) ==> self.read_lone(start, expr),
                start.simple_binary(8) ==> self.read_binary(start, expr),
                start.simple_binary(7) && !start.simple_binary(8) ==> (self.read_lone(start, expr)
                    || self.read_binary(start, expr)),
                start.chain_of_two(8) ==> self.read_chain(start, expr),
                start.chain_of_two(7) && !start.chain_of_two(8) ==> (self.read_lone(start, expr)
                    || self.read_binary(start, expr) || self.read_chain(start, expr)),
                start.chain_of_two(7) && start.binary_then(8) ==> (self.read_binary(start, expr)
                    || self.read_chain(start, expr)),
                start.binary_then(7) && start.binary_then(8) ==> self.read_binary(start, expr),
                start.binary_then(7) && !start.binary_then(8) ==> (self.read_lone(start, expr)
                    || self.read_binary(start, expr)),
                start.tighter_second(8) ==> self.read_right(start, expr),
                start.tighter_second(7) && !start.tighter_second(8) ==> (self.read_lone(start, expr)
                    || self.read_right(start, expr)),
                self.follows(start),
                self.moved_from(start),
            ensures
                start.simple_binary(7) ==> self.read_binary(start, expr),
                start.chain_of_two(7) ==> self.read_chain(start, expr),
                start.binary_then(7) ==> self.read_binary(start, expr),
                start.tighter_second(7) ==> self.read_right(start, expr),
            decreases self.remaining(),
        {
            proof {
                reveal(Parser::reads_forms);
            }
            let matched = if self.match_token(TokenType::EqualEqual) {
                true
            } else if self.match_token(TokenType::BangEqual) {
                true
            } else if self.match_token(TokenType::EqualEqualEqual) {
                true
            } else {
                self.match_token(TokenType::BangEqualEqual)
            };
            if !matched {
                break;
            }
            let op = self.previous().token_type;
            let line = self.previous().line;
            let col = self.previous().column;
            let right = self.parse_comparison();
            expr = Expression::BinaryExpr { left: Box::new(expr), op, right: Box::new(right), _line: line, _col: col };
        }
        expr
    }

    /// `>=`, `>`, `<=`, `<`, `instanceof`; the right operand is read at the level of `+`.
    pub(crate) fn parse_comparison(&mut self) -> (r: Expression)
        requires
            old(self).wf(),
        ensures
            final(self).follows(*old(self)),
            final(self).moved_from(*old(self)),
            old(self).lone_operand() ==> final(self).read_lone(*old(self), r),
            final(self).reads_forms(*old(self), r, 8),
        decreases old(self).nest(), old(self).remaining(), 49int,
    {
        proof {
            reveal(Parser::reads_forms);
        }
        let ghost start = *self;
        let mut expr = self.parse_shift();
        loop
            invariant
                start == *old(self),
                start.lone_operand() ==> self.read_lone(start, expr),
                start.operand_then(8) ==> self.read_lone(start, expr),
                start.simple_binary(9) ==> self.read_binary(start, expr),
                start.simple_binary(8) && !start.simple_binary(9) ==> (self.read_lone(start, expr)
                    || self.read_binary(start, expr)),
                start.chain_of_two(9) ==> self.read_chain(start, expr),
                start.chain_of_two(8) && !start.chain_of_two(9) ==> (self.read_lone(start, expr)
                    || self.read_binary(start, expr) || self.read_chain(start, expr)),
                start.chain_of_two(8) && start.binary_then(9) ==> (self.read_binary(start, expr)
                    || self.read_chain(start, expr)),
                start.binary_then(8) && start.binary_then(9) ==> self.read_binary(start, expr),
                start.binary_then(8) && !start.binary_then(9) ==> (self.read_lone(start, expr)
                    || self.read_binary(start, expr)),
                start.tighter_second(9) ==> self.read_right(start, expr),
                start.tighter_second(8) && !start.tighter_second(9) ==> (self.read_lone(start, expr)
                    || self.read_right(start, expr)),
                self.follows(start),
                self.moved_from(start),
            ensures
                start.simple_binary(8) ==> self.read_binary(start, expr),
                start.chain_of_two(8) ==> self.read_chain(start, expr),
                start.binary_then(8) ==> self.read_binary(start, expr),
                start.tighter_second(8) ==> self.read_right(start, expr),
            decreases self.remaining(),
        {
            proof {
                reveal(Parser::reads_forms);
            }
            let matched = if self.match_token(TokenType::GreaterEqual) {
                true
            } else if self.match_token(TokenType::Greater) {
                true
            } else if self.match_token(TokenType::LessEqual) {
                true
            } else if self.match_token(TokenType::Less) {
                true
            } else {
                self.match_token(TokenType::Instanceof)
            };
            if !matched {
                break;
            }
            let op = self.previous().token_type;
            let line = self.previous().line;
            let col = self.previous().column;
            let right = self.parse_term();
            expr = Expression::BinaryExpr { left: Box::new(expr), op, right: Box::new(right), _line: line, _col: col };
        }
        expr
    }

    /// Operands joined by `<<` or `>>`, grouped to the left.
    pub(crate) fn parse_shift(&mut self) -> (r: Expression)
        requires
            old(self).wf(),
        ensures
            final(self).follows(*old(self)),
            final(self).moved_from(*old(self)),
            old(self).lone_operand() ==> final(self).read_lone(*old(self), r),
            final(self).reads_forms(*old(self), r, 9),
        decreases old(self).nest(), old(self).remaining(), 48int,
    {
        proof {
            reveal(Parser::reads_forms);
        }
        let ghost start = *self;
        let mut expr = self.parse_term();
        loop
            invariant
                start == *old(self),
                start.lone_operand() ==> self.read_lone(start, expr),
                start.operand_then(9) ==> self.read_lone(start, expr),
                start.simple_binary(10) ==> self.read_binary(start, expr),
                start.simple_binary(9) && !start.simple_binary(10) ==> (self.read_lone(start, expr)
                    || self.read_binary(start, expr)),
                start.chain_of_two(10) ==> self.read_chain(start, expr),
                start.chain_of_two(9) && !start.chain_of_two(10) ==> (self.read_lone(start, expr)
                    || self.read_binary(start, expr) || self.read_chain(start, expr)),
                start.chain_of_two(9) && start.binary_then(10) ==> (self.read_binary(start, expr)
                    || self.read_chain(start, expr)),
                start.binary_then(9) && start.binary_then(10) ==> self.read_binary(start, expr),
                start.binary_then(9) && !start.binary_then(10) ==> (self.read_lone(start, expr)
                    || self.read_binary(start, expr)),
                start.tighter_second(10) ==> self.read_right(start, expr),
                start.tighter_second(9) && !start.tighter_second(10) ==> (self.read_lone(start, expr)
                    || self.read_right(start, expr)),
                self.follows(start),
                self.moved_from(start),
            ensures
                start.simple_binary(9) ==> self.read_binary(start, expr),
                start.chain_of_two(9) ==> self.read_chain(start, expr),
                start.binary_then(9) ==> self.read_binary(start, expr),
                start.tighter_second(9) ==> self.read_right(start, expr),
            decreases self.remaining(),
        {
            proof {
                reveal(Parser::reads_forms);
            }
            let matched = if self.match_token(TokenType::LessLess) {
                true
            } else {
                self.match_token(TokenType::GreaterGreater)
            };
            if !matched {
                break;
            }
            let op = self.previous().token_type;
            let line = self.previous().line;
            let col = self.previous().column;
            let right = self.parse_term();
            expr = Expression::BinaryExpr { left: Box::new(expr), op, right: Box::new(right), _line: line, _col: col };
        }
        expr
    }

    /// Operands joined by `+` or `-`, grouped to the left.
    pub(crate) fn parse_term(&mut self) -> (r: Expression)
        requires
            old(self).wf(),
        ensures
            final(self).follows(*old(self)),
            final(self).moved_from(*old(self)),
            old(self).lone_operand() ==> final(self).read_lone(*old(self), r),
            final(self).reads_forms(*old(self), r, 10),
        decreases old(self).nest(), old(self).remaining(), 47int,
    {
        proof {
            reveal(Parser::reads_forms);
        }
        let ghost start = *self;
        let mut expr = self.parse_factor();
        loop
            invariant
                start == *old(self),
                start.lone_operand() ==> self.read_lone(start, expr),
                start.operand_then(10) ==> self.read_lone(start, expr),
                start.simple_binary(11) ==> self.read_binary(start, expr),
                start.simple_binary(10) && !start.simple_binary(11) ==> (self.read_lone(start, expr)
                    || self.read_binary(start, expr)),
                start.chain_of_two(11) ==> self.read_chain(start, expr),
                start.chain_of_two(10) && !start.chain_of_two(11) ==> (self.read_lone(start, expr)
                    || self.read_binary(start, expr) || self.read_chain(start, expr)),
                start.chain_of_two(10) && start.binary_then(11) ==> (self.read_binary(start, expr)
                    || self.read_chain(start, expr)),
                start.binary_then(10) && start.binary_then(11) ==> self.read_binary(start, expr),
                start.binary_then(10) && !start.binary_then(11) ==> (self.read_lone(start, expr)
                    || self.read_binary(start, expr)),
                start.tighter_second(11) ==> self.read_right(start, expr),
                start.tighter_second(10) && !start.tighter_second(11) ==> (self.read_lone(start, expr)
                    || self.read_right(start, expr)),
                self.follows(start),
                self.moved_from(start),
            ensures
                start.simple_binary(10) ==> self.read_binary(start, expr),
                start.chain_of_two(10) ==> self.read_chain(start, expr),
                start.binary_then(10) ==> self.read_binary(start, expr),
                start.tighter_second(10) ==> self.read_right(start, expr),
            decreases self.remaining(),
        {
            proof {
                reveal(Parser::reads_forms);
            }
            let matched = if self.match_token(TokenType::Plus) {
                true
            } else {
                self.match_token(TokenType::Minus)
            };
            if !matched {
                break;
            }
            let op = self.previous().token_type;
            let line = self.previous().line;
            let col = self.previous().column;
            let right = self.parse_factor();
            expr = Expression::BinaryExpr { left: Box::new(expr), op, right: Box::new(right), _line: line, _col: col };
        }
        expr
    }

    /// Operands joined by `*`, `/` or `%`, grouped to the left.
    pub(crate) fn parse_factor(&mut self) -> (r: Expression)
        requires
            old(self).wf(),
        ensures
            final(self).follows(*old(self)),
            final(self).moved_from(*old(self)),
            old(self).lone_operand() ==> final(self).read_lone(*old(self), r),
            final(self).reads_forms(*old(self), r, 11),
        decreases old(self).nest(), old(self).remaining(), 46int,
    {
        proof {
            reveal(Parser::reads_forms);
        }
        let ghost start = *self;
        let mut expr = self.parse_unary();
        loop
            invariant
                start == *old(self),
                start.lone_operand() ==> self.read_lone(start, expr),
                start.operand_then(11) ==> self.read_lone(start, expr),
                start.simple_binary(12) ==> self.read_binary(start, expr),
                start.simple_binary(11) && !start.simple_binary(12) ==> (self.read_lone(start, expr)
                    || self.read_binary(start, expr)),
                start.chain_of_two(12) ==> self.read_chain(start, expr),
                start.chain_of_two(11) && !start.chain_of_two(12) ==> (self.read_lone(start, expr)
                    || self.read_binary(start, expr) || self.read_chain(start, expr)),
                start.chain_of_two(11) && start.binary_then(12) ==> (self.read_binary(start, expr)
                    || self.read_chain(start, expr)),
                start.binary_then(11) && start.binary_then(12) ==> self.read_binary(start, expr),
                start.binary_then(11) && !start.binary_then(12) ==> (self.read_lone(start, expr)
                    || self.read_binary(start, expr)),
                start.tighter_second(12) ==> self.read_right(start, expr),
                start.tighter_second(11) && !start.tighter_second(12) ==> (self.read_lone(start, expr)
                    || self.read_right(start, expr)),
                self.follows(start),
                self.moved_from(start),
            ensures
                start.simple_binary(11) ==> self.read_binary(start, expr),
                start.chain_of_two(11) ==> self.read_chain(start, expr),
                start.binary_then(11) ==> self.read_binary(start, expr),
                start.tighter_second(11) ==> self.read_right(start, expr),
            decreases self.remaining(),
        {
            proof {
                reveal(Parser::reads_forms);
            }
            let matched = if self.match_token(TokenType::Star) {
                true
            } else if self.match_token(TokenType::Slash) {
                true
            } else {
                self.match_token(TokenType::Modulo)
            };
            if !matched {
                break;
            }
            let op = self.previous().token_type;
            let line = self.previous().line;
            let col = self.previous().column;
            let right = self.parse_unary();
            expr = Expression::BinaryExpr { left: Box::new(expr), op, right: Box::new(right), _line: line, _col: col };
        }
        expr
    }

    /// `await e`, prefix `++ -- ! -`, and postfix `++ --`.
    pub(crate) fn parse_unary(&mut self) -> (r: Expression)
        requires
            old(self).wf(),
        ensures
            final(self).follows(*old(self)),
            final(self).moved_from(*old(self)),
            old(self).spec_check(TokenType::Await) ==> r is AwaitExpr,
            old(self).spec_check(TokenType::Await) && !old(self).async_on() ==> {
                &&& final(self).errs().len() > old(self).errs().len()
                &&& diag_is(final(self).errs()[old(self).errs().len() as int], "async/await is disabled"@,
                    old(self).spec_peek().line as int, old(self).spec_peek().column as int, old(self).file())
            },
            old(self).spec_check(TokenType::Bang) ==> (r matches Expression::UnaryExpr { op, .. } && op == TokenType::Bang),
            old(self).spec_check(TokenType::Minus) && !old(self).joinable(TokenType::MinusMinus)
                ==> (r matches Expression::UnaryExpr { op, .. } && op == TokenType::Minus),
            old(self).lone_operand() ==> final(self).read_lone(*old(self), r),
            final(self).reads_forms(*old(self), r, 12),
        decreases old(self).nest(), old(self).remaining(), 45int,
    {
        proof {
            reveal(Parser::reads_forms);
        }
        if self.match_token(TokenType::Await) {
            let line = self.previous().line;
            let col = self.previous().column;
            if !self.async_enabled {
                self.report(owned("async/await is disabled"), line, col);
            }
            let right = self.parse_unary();
            return Expression::AwaitExpr { expr: Box::new(right), _line: line, _col: col };
        }
        let matched = if self.match_token(TokenType::PlusPlus) {
            true
        } else if self.match_token(TokenType::MinusMinus) {
            true
        } else if self.match_token(TokenType::Bang) {
            true
        } else {
            self.match_token(TokenType::Minus)
        };
        if matched {
            let op = self.previous().token_type;
            let line = self.previous().line;
            let col = self.previous().column;
            let right = self.parse_unary();
            return Expression::UnaryExpr { op, right: Box::new(right), _line: line, _col: col };
        }
        let mut expr = self.parse_call();
        let post = if self.match_token(TokenType::PlusPlus) {
            true
        } else {
            self.match_token(TokenType::MinusMinus)
        };
        if post {
            let op = self.previous().token_type;
            let line = self.previous().line;
            let col = self.previous().column;
            expr = Expression::UnaryExpr { op, right: Box::new(expr), _line: line, _col: col };
        }
        expr
    }

    /// A primary expression followed by calls `(..)`, optional chaining `?.`,
    /// member access `.`/`::` and indexing `[..]`.
    pub(crate) fn parse_call(&mut self) -> (r: Expression)
        requires
            old(self).wf(),
        ensures
            final(self).follows(*old(self)),
            final(self).moved_from(*old(self)),
            old(self).lone_operand() ==> final(self).read_lone(*old(self), r),
            final(self).reads_forms(*old(self), r, 12),
        decreases old(self).nest(), old(self).remaining(), 44int,
    {
        proof {
            reveal(Parser::reads_forms);
        }
        let ghost start = *self;
        let start_line = self.peek().line;
        let start_col = self.peek().column;
        let mut expr = self.parse_primary();
        loop
            invariant
                start == *old(self),
                start.lone_operand() ==> self.read_lone(start, expr),
                start.operand_then(12) ==> self.read_lone(start, expr),
                self.follows(start),
                self.moved_from(start),
            decreases self.remaining(),
        {
            proof {
                reveal(Parser::reads_forms);
            }
            if self.match_token(TokenType::OpenParen) {
                let mut args: Vec<Expression> = Vec::new();
                let ghost mark = self.pos();
                if !self.check(TokenType::CloseParen) {
                    loop
                        invariant
                            start == *old(self),
                            self.follows(start),
                            self.pos() > start.pos(),
                            self.pos() >= mark,
                        decreases self.remaining(),
                    {
                        args.push(self.parse_assignment());
                        if !self.match_token(TokenType::Comma) {
                            break;
                        }
                    }
                }
                self.consume(TokenType::CloseParen, "Expected ')'");
                expr = Expression::CallExpr { callee: Box::new(expr), args, _line: start_line, _col: start_col };
            } else if self.match_token(TokenType::QuestionDot) {
                if self.match_token(TokenType::OpenParen) {
                    let mut args: Vec<Expression> = Vec::new();
                    let ghost mark = self.pos();
                    if !self.check(TokenType::CloseParen) {
                        loop
                            invariant
                                start == *old(self),
                                self.follows(start),
                                self.pos() > start.pos(),
                                self.pos() >= mark,
                            decreases self.remaining(),
                        {
                            args.push(self.parse_assignment());
                            if !self.match_token(TokenType::Comma) {
                                break;
                            }
                        }
                    }
                    let end = self.consume(TokenType::CloseParen, "Expected ')'");
                    expr = Expression::OptionalCallExpr {
                        callee: Box::new(expr),
                        args,
                        _line: end.line,
                        _col: end.column,
                    };
                } else if self.match_token(TokenType::OpenBracket) {
                    let index = self.parse_assignment();
                    self.consume(TokenType::CloseBracket, "Expected ']'");
                    expr = Expression::OptionalArrayAccessExpr {
                        target: Box::new(expr),
                        index: Box::new(index),
                        _line: 0,
                        _col: 0,
                    };
                } else {
                    let member = self.consume_identifier("Expected property name after '?.'").value;
                    expr = Expression::OptionalMemberAccessExpr { object: Box::new(expr), member, _line: 0, _col: 0 };
                }
            } else if self.match_token(TokenType::Dot) || self.match_token(TokenType::DoubleColon) {
                let is_double_colon = self.previous().token_type == TokenType::DoubleColon;
                let name = self.consume_identifier("Expected property name after separator").value;
                expr = Expression::MemberAccessExpr {
                    object: Box::new(expr),
                    member: name,
                    _line: 0,
                    _col: 0,
                    _is_namespace: is_double_colon,
                };
            } else if self.match_token(TokenType::OpenBracket) {
                let index = self.parse_assignment();
                self.consume(TokenType::CloseBracket, "Expected ']'");
                expr = Expression::ArrayAccessExpr {
                    target: Box::new(expr),
                    index: Box::new(index),
                    _line: 0,
                    _col: 0,
                };
            } else {
                break;
            }
        }
        expr
    }

    /// `new Name<Args>(args)`.
    pub(crate) fn parse_new_expression(&mut self) -> (r: Expression)
        requires
            old(self).wf(),
            old(self).spec_check(TokenType::New),
        ensures
            final(self).follows(*old(self)),
            final(self).pos() > old(self).pos(),
            r matches Expression::NewExpr { _line, _col, .. } && _line == old(self).spec_peek().line
                && _col == old(self).spec_peek().column,
        decreases old(self).nest(), old(self).remaining(), 42int,
    {
        let ghost start = *self;
        let start_tok = self.consume(TokenType::New, "Expected 'new'");
        let mut class_name = self.consume(TokenType::Identifier, "Expected class name").value;
        if self.match_token(TokenType::Less) {
            class_name.append("<");
            loop
                invariant
                    start == *old(self),
                    self.follows(start),
                    self.pos() > start.pos(),
                decreases self.remaining(),
            {
                let arg = self.parse_type_annotation();
                class_name.append(arg.as_str());
                if self.match_token(TokenType::Comma) {
                    class_name.append(", ");
                } else {
                    break;
                }
            }
            self.consume(TokenType::Greater, "Expected '>'");
            class_name.append(">");
        }
        self.consume(TokenType::OpenParen, "Expected '('");
        let mut args: Vec<Expression> = Vec::new();
        if !self.check(TokenType::CloseParen) {
            loop
                invariant
                    start == *old(self),
                    self.follows(start),
                    self.pos() > start.pos(),
                decreases self.remaining(),
            {
                args.push(self.parse_assignment());
                if !self.match_token(TokenType::Comma) {
                    break;
                }
            }
        }
        self.consume(TokenType::CloseParen, "Expected ')'");
        Expression::NewExpr { class_name, args, _line: start_tok.line, _col: start_tok.column }
    }

    /// Literals, names, `this`, `super`, `Some(..)`, `None`, `new`, lambdas, array and
    /// object literals, template strings and parenthesized expressions.
    pub(crate) fn parse_primary(&mut self) -> (r: Expression)
        requires
            old(self).wf(),
        ensures
            final(self).follows(*old(self)),
            final(self).moved_from(*old(self)),
            old(self).spec_check(TokenType::True) ==> r == (Expression::BooleanLiteral { value: true, _line: 0, _col: 0 }),
            old(self).spec_check(TokenType::False) ==> r == (Expression::BooleanLiteral { value: false, _line: 0, _col: 0 }),
            old(self).spec_check(TokenType::KwNone) ==> r == (Expression::NoneExpr { _line: 0, _col: 0 }),
            old(self).spec_check(TokenType::This) ==> r == (Expression::ThisExpr { _line: 0, _col: 0 }),
            old(self).spec_check(TokenType::Super) ==> r == (Expression::SuperExpr { _line: 0, _col: 0 }),
            old(self).spec_check(TokenType::KwSome) ==> r is SomeExpr,
            old(self).spec_check(TokenType::New) ==> r is NewExpr,
            old(self).spec_check(TokenType::Number) ==> r == (Expression::NumberLiteral {
                value: old(self).spec_peek().value,
                _line: old(self).spec_peek().line,
                _col: old(self).spec_peek().column,
            }),
            old(self).spec_check(TokenType::String) ==> r == (Expression::StringLiteral {
                value: old(self).spec_peek().value,
                _line: old(self).spec_peek().line,
                _col: old(self).spec_peek().column,
            }),
            old(self).spec_check(TokenType::Identifier) && !old(self).spec_check_next(TokenType::Arrow)
                ==> r == (Expression::Identifier {
                name: old(self).spec_peek().value,
                _line: old(self).spec_peek().line,
                _col: old(self).spec_peek().column,
            }),
            old(self).spec_check(TokenType::Identifier) && old(self).spec_check_next(TokenType::Arrow)
                ==> r is LambdaExpr,
            old(self).spec_check(TokenType::OpenBracket) ==> r is ArrayLiteral,
            old(self).spec_check(TokenType::OpenBrace) ==> r is ObjectLiteralExpr,
            old(self).spec_check(TokenType::TemplateString) ==> {
                &&& template_read(r, old(self).spec_peek(), tokens_for(old(self).interpolations(), old(self).pos()), old(self).nest())
                &&& final(self).toks() == old(self).toks()
                &&& final(self).pos() == old(self).pos() + 1
                &&& final(self).errs() == old(self).errs()
            },
            old(self).spec_check(TokenType::True) || old(self).spec_check(TokenType::False)
                || old(self).spec_check(TokenType::KwNone) || old(self).spec_check(TokenType::This)
                || old(self).spec_check(TokenType::Super) || old(self).spec_check(TokenType::Number)
                || old(self).spec_check(TokenType::String)
                || (old(self).spec_check(TokenType::Identifier) && !old(self).spec_check_next(TokenType::Arrow)) ==> {
                &&& final(self).toks() == old(self).toks()
                &&& final(self).pos() == old(self).pos() + 1
                &&& final(self).errs() == old(self).errs()
            },
            !is_primary_start(old(self).spec_peek().token_type) ==> {
                &&& r == (Expression::Identifier {
                    name: r->Identifier_name,
                    _line: old(self).spec_peek().line,
                    _col: old(self).spec_peek().column,
                })
                &&& r->Identifier_name@ == "__error__"@
                &&& final(self).toks() == old(self).toks()
                &&& final(self).pos() == (if old(self).spec_at_end() { old(self).pos() } else { old(self).pos() + 1 })
                &&& final(self).errs().len() == old(self).errs().len() + 1
                &&& diag_is(final(self).errs().last(),
                    "Unexpected token '"@ + old(self).spec_peek().value@ + "'"@,
                    old(self).spec_peek().line as int, old(self).spec_peek().column as int, old(self).file())
            },
            old(self).lone_operand() ==> final(self).read_lone(*old(self), r),
            final(self).reads_forms(*old(self), r, 12),
        decreases old(self).nest(), old(self).remaining(), 43int,
    {
        proof {
            reveal(Parser::reads_forms);
        }
        let ghost start = *self;
        if self.match_token(TokenType::True) {
            return Expression::BooleanLiteral { value: true, _line: 0, _col: 0 };
        }
        if self.match_token(TokenType::False) {
            return Expression::BooleanLiteral { value: false, _line: 0, _col: 0 };
        }
        if self.match_token(TokenType::KwNone) {
            return Expression::NoneExpr { _line: 0, _col: 0 };
        }
        if self.match_token(TokenType::KwSome) {
            let line = self.previous().line;
            let col = self.previous().column;
            self.consume(TokenType::OpenParen, "Expected '(' after Some");
            let inner = self.parse_expression();
            self.consume(TokenType::CloseParen, "Expected ')' after Some value");
            return Expression::SomeExpr {
                _value: Box::new(BindingNode::LiteralMatch(Box::new(inner))),
                _line: line,
                _col: col,
            };
        }
        if self.match_token(TokenType::This) {
            return Expression::ThisExpr { _line: 0, _col: 0 };
        }
        if self.match_token(TokenType::Super) {
            return Expression::SuperExpr { _line: 0, _col: 0 };
        }
        if self.check(TokenType::New) {
            return self.parse_new_expression();
        }
        let token = self.peek().duplicate();
        match token.token_type {
            TokenType::Number => {
                self.advance();
                Expression::NumberLiteral { value: token.value, _line: token.line, _col: token.column }
            },
            TokenType::String => {
                self.advance();
                Expression::StringLiteral { value: token.value, _line: token.line, _col: token.column }
            },
            TokenType::TemplateString => {
                let index = self.position();
                let inner = self.interpolations_at(index);
                self.advance();
                self.parse_template_string(token, inner)
            },
            TokenType::Identifier => {
                if self.check_next(TokenType::Arrow) {
                    return self.parse_lambda();
                }
                self.advance();
                Expression::Identifier { name: token.value, _line: token.line, _col: token.column }
            },
            TokenType::OpenBracket => self.parse_array_literal(),
            TokenType::OpenParen => {
                // Lambda `(a, b) => ..` when the first `)` ahead, before any `;`, is followed by `=>`.
                let mut is_lambda = false;
                let mut i: usize = 0;
                while !self.is_at_offset_end(i)
                    invariant
                        self.inv(),
                        self.pos() + i <= self.toks().len(),
                    decreases self.toks().len() - self.pos() - i,
                {
                    let tt = self.peek_offset(i).token_type;
                    if tt == TokenType::CloseParen {
                        if self.peek_offset(i + 1).token_type == TokenType::Arrow {
                            is_lambda = true;
                        }
                        break;
                    }
                    if tt == TokenType::Semicolon {
                        break;
                    }
                    i = i + 1;
                }
                if is_lambda {
                    return self.parse_lambda();
                }
                self.advance();
                let expr = self.parse_expression();
                self.consume(TokenType::CloseParen, "Expected ')'");
                expr
            },
            TokenType::OpenBrace => self.parse_object_literal(),
            _ => {
                let mut message = owned("Unexpected token '");
                message.append(token.value.as_str());
                message.append("'");
                self.report(message, token.line, token.column);
                self.advance();
                Expression::Identifier { name: owned("__error__"), _line: token.line, _col: token.column }
            },
        }
    }

    /// `x => body` or `(a, b: T, ...rest) => body`; an expression body becomes a block
    /// that returns it.
    pub(crate) fn parse_lambda(&mut self) -> (r: Expression)
        requires
            old(self).wf(),
            old(self).spec_check(TokenType::Identifier) || old(self).spec_check(TokenType::OpenParen),
        ensures
            final(self).follows(*old(self)),
            final(self).pos() > old(self).pos(),
            r matches Expression::LambdaExpr { _line, _col, .. } && _line == old(self).spec_peek().line
                && _col == old(self).spec_peek().column,
        decreases old(self).nest(), old(self).remaining(), 42int,
    {
        let ghost start = *self;
        let start_line = self.peek().line;
        let start_col = self.peek().column;
        let mut params: Vec<Parameter> = Vec::new();
        if self.check(TokenType::Identifier) {
            let name = self.consume(TokenType::Identifier, "Expected param name").value;
            params.push(Parameter { name, type_annotation: String::new(), _default_value: None, _is_rest: false });
        } else {
            self.consume(TokenType::OpenParen, "Expected '('");
            if !self.check(TokenType::CloseParen) {
                loop
                    invariant
                        start == *old(self),
                        self.follows(start),
                        self.pos() > start.pos(),
                    decreases self.remaining(),
                {
                    let is_rest = self.match_token(TokenType::Ellipsis);
                    let name = self.consume(TokenType::Identifier, "Expected param name").value;
                    let mut type_annotation = String::new();
                    if self.match_token(TokenType::Colon) {
                        type_annotation = self.parse_type_annotation();
                    }
                    params.push(Parameter { name, type_annotation, _default_value: None, _is_rest: is_rest });
                    if !self.match_token(TokenType::Comma) {
                        break;
                    }
                }
            }
            self.consume(TokenType::CloseParen, "Expected ')'");
        }
        self.consume(TokenType::Arrow, "Expected '=>'");
        let body = if self.check(TokenType::OpenBrace) {
            self.parse_block()
        } else {
            let expr = self.parse_expression();
            let ret = Statement::ReturnStmt { value: Some(Box::new(expr)), _line: start_line, _col: start_col };
            let mut statements: Vec<Statement> = Vec::new();
            statements.push(ret);
            Statement::BlockStmt { statements, _line: start_line, _col: start_col }
        };
        Expression::LambdaExpr { params, body: Box::new(body), _line: start_line, _col: start_col }
    }

    /// `{ key: value, short, ...spread }`.
    pub(crate) fn parse_object_literal(&mut self) -> (r: Expression)
        requires
            old(self).wf(),
            old(self).spec_check(TokenType::OpenBrace),
        ensures
            final(self).follows(*old(self)),
            final(self).pos() > old(self).pos(),
            r matches Expression::ObjectLiteralExpr { _line, _col, .. } && _line == old(self).spec_peek().line
                && _col == old(self).spec_peek().column,
        decreases old(self).nest(), old(self).remaining(), 42int,
    {
        let ghost start = *self;
        let start_tok = self.consume(TokenType::OpenBrace, "Expected '{'");
        let mut entries: Vec<(String, Expression)> = Vec::new();
        let mut spreads: Vec<Expression> = Vec::new();
        while !self.check(TokenType::CloseBrace) && !self.is_at_end()
            invariant
                start == *old(self),
                self.follows(start),
                self.pos() > start.pos(),
            decreases self.remaining(),
        {
            if self.match_token(TokenType::Ellipsis) {
                let expr = self.parse_assignment();
                spreads.push(expr);
            } else {
                let key_token = self.consume_identifier("Expected property name");
                let key = key_token.value.clone();
                let value = if self.match_token(TokenType::Colon) {
                    self.parse_assignment()
                } else {
                    Expression::Identifier { name: key.clone(), _line: key_token.line, _col: key_token.column }
                };
                entries.push((key, value));
            }
            if self.check(TokenType::Comma) {
                self.advance();
            }
        }
        self.consume(TokenType::CloseBrace, "Expected '}'");
        Expression::ObjectLiteralExpr { entries, _spreads: spreads, _line: start_tok.line, _col: start_tok.column }
    }

    /// `[a, ...rest, b]`.
    pub(crate) fn parse_array_literal(&mut self) -> (r: Expression)
        requires
            old(self).wf(),
            old(self).spec_check(TokenType::OpenBracket),
        ensures
            final(self).follows(*old(self)),
            final(self).pos() > old(self).pos(),
            r matches Expression::ArrayLiteral { _line, _col, .. } && _line == old(self).spec_peek().line
                && _col == old(self).spec_peek().column,
        decreases old(self).nest(), old(self).remaining(), 42int,
    {
        let ghost start = *self;
        let start_tok = self.consume(TokenType::OpenBracket, "Expected '['");
        let mut elements: Vec<Expression> = Vec::new();
        while !self.check(TokenType::CloseBracket) && !self.is_at_end()
            invariant
                start == *old(self),
                self.follows(start),
                self.pos() > start.pos(),
            decreases self.remaining(),
        {
            if self.match_token(TokenType::Ellipsis) {
                let line = self.previous().line;
                let col = self.previous().column;
                let expr = self.parse_assignment();
                elements.push(Expression::SpreadExpr { _expr: Box::new(expr), _line: line, _col: col });
            } else {
                elements.push(self.parse_assignment());
            }
            if self.check(TokenType::Comma) {
                self.advance();
            }
        }
        self.consume(TokenType::CloseBracket, "Expected ']'");
        Expression::ArrayLiteral { elements, _line: start_tok.line, _col: start_tok.column }
    }

    /// `(target) { pattern [if (guard)] => body, .. }`, after the word `match`.
    pub(crate) fn parse_match_expression(&mut self) -> (r: Expression)
        requires
            old(self).wf(),
            old(self).pos() > 0,
        ensures
            final(self).follows(*old(self)),
            r matches Expression::MatchExpr { _line, _col, .. } && _line == old(self).spec_previous().line
                && _col == old(self).spec_previous().column,
    {
        let ghost entry = *self;
        let line = self.previous().line;
        let col = self.previous().column;
        self.consume(TokenType::OpenParen, "Expected '(' after match");
        let target = self.parse_expression();
        self.consume(TokenType::CloseParen, "Expected ')' after match target");
        self.consume(TokenType::OpenBrace, "Expected '{' in match");
        let mut arms: Vec<MatchArm> = Vec::new();
        while !self.check(TokenType::CloseBrace) && !self.is_at_end()
            invariant
                self.follows(entry),
            decreases self.remaining(),
        {
            let pattern = self.parse_binding_pattern();
            let mut guard = None;
            if self.match_token(TokenType::If) {
                self.consume(TokenType::OpenParen, "Expected '(' after if");
                guard = Some(Box::new(self.parse_expression()));
                self.consume(TokenType::CloseParen, "Expected ')' after guard");
            }
            self.consume(TokenType::Arrow, "Expected '=>' in match arm");
            let body = if self.check(TokenType::OpenBrace) {
                let brace_line = self.peek().line;
                let brace_col = self.peek().column;
                let stmt = self.parse_statement();
                let mut statements: Vec<Statement> = Vec::new();
                statements.push(stmt);
                Box::new(Expression::BlockExpr { statements, _line: brace_line, _col: brace_col })
            } else {
                Box::new(self.parse_expression())
            };
            if self.check(TokenType::Comma) {
                self.advance();
            }
            arms.push(MatchArm { pattern, guard, body });
        }
        self.consume(TokenType::CloseBrace, "Expected '}' after match arms");
        Expression::MatchExpr { target: Box::new(target), arms, _line: line, _col: col }
    }

    /// A readable name for what is called: names, `this`, `super` and member
    /// paths as written, placeholders for other expressions.
    pub(crate) fn expr_to_callee_name(expr: &Expression) -> (r: String)
        ensures
            r@ == callee_name(*expr),
        decreases expr,
    {
        match expr {
            Expression::ArrayLiteral { .. } => {
                proof { reveal_strlit("(array)"); }
                owned("(array)")
            },
            Expression::ObjectLiteralExpr { .. } => {
                proof { reveal_strlit("(object)"); }
                owned("(object)")
            },
            Expression::SequenceExpr { .. } => {
                proof { reveal_strlit("(sequence)"); }
                owned("(sequence)")
            },
            Expression::Identifier { name, .. } => name.clone(),
            Expression::ThisExpr { .. } => {
                proof { reveal_strlit("this"); }
                owned("this")
            },
            Expression::SuperExpr { .. } => {
                proof { reveal_strlit("super"); }
                owned("super")
            },
            Expression::MemberAccessExpr { object, member, _is_namespace, .. } => {
                let mut name = Self::expr_to_callee_name(object);
                if *_is_namespace {
                    proof { reveal_strlit("::"); }
                    name.append("::");
                } else {
                    proof { reveal_strlit("."); }
                    name.append(".");
                }
                name.append(member.as_str());
                name
            },
            _ => {
                proof { reveal_strlit("__callee__"); }
                owned("__callee__")
            },
        }
    }
}

/// The name `expr_to_callee_name` gives an expression.
pub open spec fn callee_name(e: Expression) -> Seq<char>
    decreases e,
{
    match e {
        Expression::ArrayLiteral { .. } => seq!['(', 'a', 'r', 'r', 'a', 'y', ')'],
        Expression::ObjectLiteralExpr { .. } => seq!['(', 'o', 'b', 'j', 'e', 'c', 't', ')'],
        Expression::SequenceExpr { .. } => seq!['(', 's', 'e', 'q', 'u', 'e', 'n', 'c', 'e', ')'],
        Expression::Identifier { name, .. } => name@,
        Expression::ThisExpr { .. } => seq!['t', 'h', 'i', 's'],
        Expression::SuperExpr { .. } => seq!['s', 'u', 'p', 'e', 'r'],
        Expression::MemberAccessExpr { object, member, _is_namespace, .. } =>
            callee_name(*object) + (if _is_namespace { seq![':', ':'] } else { seq!['.'] }) + member@,
        _ => seq!['_', '_', 'c', 'a', 'l', 'l', 'e', 'e', '_', '_'],
    }
}

/// Token kinds `parse_primary` reads as the start of an expression.
pub open spec fn is_primary_start(tt: TokenType) -> bool {
    match tt {
        TokenType::True | TokenType::False | TokenType::KwNone | TokenType::KwSome | TokenType::This
        | TokenType::Super | TokenType::New | TokenType::Number | TokenType::String
        | TokenType::TemplateString | TokenType::Identifier | TokenType::OpenBracket
        | TokenType::OpenParen | TokenType::OpenBrace => true,
        _ => false,
    }
}

} // verus!
