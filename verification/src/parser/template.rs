use vstd::prelude::*;

use super::{binary_expr, binary_level, copy_tokens, eof_ahead, ends_expression, has_end, is_lone_operand, operand_expr, Parser};
use crate::ast::Expression;
use crate::text::owned;
use crate::token::{Token, TokenType};

verus! {

/// A piece of a template string: literal text, or the source of a `${...}`.
#[derive(Debug, PartialEq)]
pub enum TemplatePart {
    Text(String),
    Interpolation(String),
}

pub enum SpecPart {
    Text(Seq<char>),
    Interpolation(Seq<char>),
}

impl View for TemplatePart {
    type V = SpecPart;

    open spec fn view(&self) -> SpecPart {
        match self {
            TemplatePart::Text(s) => SpecPart::Text(s@),
            TemplatePart::Interpolation(s) => SpecPart::Interpolation(s@),
        }
    }
}

/// The first `${` at index `from` or after.
pub open spec fn find_open(s: Seq<char>, from: int) -> Option<int>
    decreases s.len() - from,
{
    if from < 0 || from + 1 >= s.len() {
        None
    } else if s[from] == '$' && s[from + 1] == '{' {
        Some(from)
    } else {
        find_open(s, from + 1)
    }
}

/// The `}` that closes a `${` whose body starts at `i`, with `depth` braces open.
pub open spec fn find_close(s: Seq<char>, i: int, depth: nat) -> Option<int>
    decreases s.len() - i,
{
    if i < 0 || i >= s.len() {
        None
    } else if s[i] == '{' {
        find_close(s, i + 1, depth + 1)
    } else if s[i] == '}' {
        if depth <= 1 {
            Some(i)
        } else {
            find_close(s, i + 1, (depth - 1) as nat)
        }
    } else {
        find_close(s, i + 1, depth)
    }
}

/// The text from `cur` to the end, as a piece, unless it is empty.
pub open spec fn tail_part(s: Seq<char>, cur: int) -> Seq<SpecPart> {
    if cur < s.len() {
        seq![SpecPart::Text(s.subrange(cur, s.len() as int))]
    } else {
        seq![]
    }
}

/// The pieces of a template string from index `cur` on. An unclosed `${` ends the
/// scan: the text before it is given, and then the whole rest from `cur` again.
pub open spec fn template_parts(s: Seq<char>, cur: int) -> Seq<SpecPart>
    decreases s.len() - cur,
{
    if cur < 0 || cur > s.len() {
        seq![]
    } else {
        match find_open(s, cur) {
            None => tail_part(s, cur),
            Some(st) => {
                let pre = if st > cur { seq![SpecPart::Text(s.subrange(cur, st))] } else { seq![] };
                match find_close(s, st + 2, 1) {
                    Some(e) => if cur < e + 1 <= s.len() {
                        pre + seq![SpecPart::Interpolation(s.subrange(st + 2, e))] + template_parts(s, e + 1)
                    } else {
                        seq![]
                    },
                    None => pre + tail_part(s, cur),
                }
            },
        }
    }
}

proof fn lemma_find_open(s: Seq<char>, from: int)
    requires
        0 <= from,
    ensures
        find_open(s, from) matches Some(st) ==> from <= st && st + 1 < s.len() && s[st] == '$' && s[st + 1] == '{',
    decreases s.len() - from,
{
    if from + 1 < s.len() && !(s[from] == '$' && s[from + 1] == '{') {
        lemma_find_open(s, from + 1);
    }
}

proof fn lemma_find_close(s: Seq<char>, i: int, depth: nat)
    requires
        0 <= i,
    ensures
        find_close(s, i, depth) matches Some(e) ==> i <= e < s.len(),
    decreases s.len() - i,
{
    if 0 <= i < s.len() {
        if s[i] == '{' {
            lemma_find_close(s, i + 1, depth + 1);
        } else if s[i] == '}' {
            if depth > 1 {
                lemma_find_close(s, i + 1, (depth - 1) as nat);
            }
        } else {
            lemma_find_close(s, i + 1, depth);
        }
    }
}

/// The index of the first `${` at or after `from`.
fn find_open_exec(s: &str, n: usize, from: usize) -> (r: Option<usize>)
    requires
        n == s@.len(),
        from <= n,
    ensures
        r matches Some(st) ==> find_open(s@, from as int) == Some(st as int),
        r is None ==> find_open(s@, from as int) is None,
{
    let mut j = from;
    while n > 0 && j < n - 1
        invariant
            n == s@.len(),
            from <= j <= n,
            find_open(s@, from as int) == find_open(s@, j as int),
        decreases n - j,
    {
        if s.get_char(j) == '$' && s.get_char(j + 1) == '{' {
            return Some(j);
        }
        j = j + 1;
    }
    None
}

/// The index of the `}` that closes an interpolation whose body starts at `from`.
fn find_close_exec(s: &str, n: usize, from: usize) -> (r: Option<usize>)
    requires
        n == s@.len(),
        2 <= from <= n,
    ensures
        r matches Some(e) ==> find_close(s@, from as int, 1) == Some(e as int),
        r is None ==> find_close(s@, from as int, 1) is None,
{
    let mut depth: usize = 1;
    let mut i = from;
    while i < n
        invariant
            n == s@.len(),
            2 <= from <= i <= n,
            1 <= depth <= i - from + 1,
            find_close(s@, from as int, 1) == find_close(s@, i as int, depth as nat),
        decreases n - i,
    {
        let c = s.get_char(i);
        if c == '{' {
            assert(depth + 1 <= n);
            depth = depth + 1;
        }
        if c == '}' {
            depth = depth - 1;
            if depth == 0 {
                return Some(i);
            }
        }
        i = i + 1;
    }
    None
}

/// Splits a template string into literal text and the sources of its `${...}`
/// interpolations, in order.
pub fn split_template(value: &str) -> (parts: Vec<TemplatePart>)
    ensures
        parts@.map_values(|p: TemplatePart| p@) == template_parts(value@, 0),
{
    let n = value.unicode_len();
    let mut parts: Vec<TemplatePart> = Vec::new();
    let mut current_pos: usize = 0;
    loop
        invariant
            n == value@.len(),
            current_pos <= n,
            parts@.map_values(|p: TemplatePart| p@) + template_parts(value@, current_pos as int)
                == template_parts(value@, 0),
        decreases n - current_pos,
    {
        let ghost before = parts@.map_values(|p: TemplatePart| p@);
        proof { lemma_find_open(value@, current_pos as int); }
        match find_open_exec(value, n, current_pos) {
            None => {
                assert(template_parts(value@, current_pos as int) == tail_part(value@, current_pos as int));
                if current_pos < n {
                    parts.push(TemplatePart::Text(owned(value.substring_char(current_pos, n))));
                }
                assert(parts@.map_values(|p: TemplatePart| p@) =~= before + tail_part(value@, current_pos as int));
                return parts;
            },
            Some(start) => {
                proof { lemma_find_close(value@, start + 2, 1); }
                match find_close_exec(value, n, start + 2) {
                    Some(end) => {
                        if start > current_pos {
                            parts.push(TemplatePart::Text(owned(value.substring_char(current_pos, start))));
                        }
                        parts.push(TemplatePart::Interpolation(owned(value.substring_char(start + 2, end))));
                        let ghost pre: Seq<SpecPart> = if start > current_pos {
                            seq![SpecPart::Text(value@.subrange(current_pos as int, start as int))]
                        } else {
                            seq![]
                        };
                        assert(parts@.map_values(|p: TemplatePart| p@) =~= before + pre
                            + seq![SpecPart::Interpolation(value@.subrange(start + 2, end as int))]);
                        current_pos = end + 1;
                    },
                    None => {
                        if start > current_pos {
                            parts.push(TemplatePart::Text(owned(value.substring_char(current_pos, start))));
                            assert(parts@.map_values(|p: TemplatePart| p@) =~= before
                                + seq![SpecPart::Text(value@.subrange(current_pos as int, start as int))]);
                        } else {
                            assert(parts@.map_values(|p: TemplatePart| p@) =~= before);
                        }
                        assert(template_parts(value@, current_pos as int)
                            == (if start > current_pos {
                                seq![SpecPart::Text(value@.subrange(current_pos as int, start as int))]
                            } else {
                                seq![]
                            }) + tail_part(value@, current_pos as int));
                        if current_pos < n {
                            parts.push(TemplatePart::Text(owned(value.substring_char(current_pos, n))));
                        }
                        assert(parts@.map_values(|p: TemplatePart| p@) =~= template_parts(value@, 0));
                        return parts;
                    },
                }
            },
        }
    }
}

/// How many interpolations stand among `parts`.
pub open spec fn count_interps(parts: Seq<SpecPart>) -> nat
    decreases parts.len(),
{
    if parts.len() == 0 {
        0
    } else {
        count_interps(parts.drop_last()) + (if parts.last() is Interpolation { 1nat } else { 0nat })
    }
}

/// The expression a template piece stands for: a literal for text; for the
/// interpolation that is the `k`-th of the template, `es[k]`.
pub open spec fn part_expr_is(e: Expression, p: SpecPart, k: int, es: Seq<Expression>, line: usize, col: usize) -> bool {
    match p {
        SpecPart::Text(t) => e matches Expression::StringLiteral { value, _line, _col }
            && value@ == t && _line == line && _col == col,
        SpecPart::Interpolation(_) => e == es[k],
    }
}

/// `e` joins the pieces with `+`, from left to right, the interpolations being `es`
/// in order.
pub open spec fn joins_parts(e: Expression, parts: Seq<SpecPart>, es: Seq<Expression>, line: usize, col: usize) -> bool
    decreases parts.len(),
{
    if parts.len() == 0 {
        false
    } else if parts.len() == 1 {
        part_expr_is(e, parts[0], 0, es, line, col)
    } else {
        match e {
            Expression::BinaryExpr { left, op, right, _line, _col } => {
                &&& op == TokenType::Plus
                &&& _line == line
                &&& _col == col
                &&& part_expr_is(*right, parts.last(), count_interps(parts.drop_last()) as int, es, line, col)
                &&& joins_parts(*left, parts.drop_last(), es, line, col)
            },
            _ => false,
        }
    }
}

/// Giving more interpolation expressions after those used changes nothing.
proof fn lemma_joins_more_es(e: Expression, parts: Seq<SpecPart>, es: Seq<Expression>, more: Seq<Expression>, line: usize, col: usize)
    requires
        joins_parts(e, parts, es, line, col),
        count_interps(parts) <= es.len() <= more.len(),
        forall|k: int| 0 <= k < es.len() ==> more[k] == es[k],
    ensures
        joins_parts(e, parts, more, line, col),
    decreases parts.len(),
{
    lemma_count_interps_last(parts);
    if parts.len() > 1 {
        match e {
            Expression::BinaryExpr { left, .. } => {
                lemma_joins_more_es(*left, parts.drop_last(), es, more, line, col);
            },
            _ => {},
        }
    }
}

/// An interpolation at the end of `parts` is counted among them.
proof fn lemma_count_interps_last(parts: Seq<SpecPart>)
    ensures
        parts.len() > 0 && parts.last() is Interpolation ==> count_interps(parts.drop_last()) < count_interps(parts),
        parts.len() == 1 ==> count_interps(parts.drop_last()) == 0,
        parts.len() > 0 ==> count_interps(parts.drop_last()) <= count_interps(parts),
{
}

/// `e` is an identifier named `__error__` at `line` and `col`.
pub open spec fn error_name_at(e: Expression, line: usize, col: usize) -> bool {
    e matches Expression::Identifier { name, _line, _col } && name@ == "__error__"@ && _line == line && _col == col
}

/// `e` is what reading the interpolation tokens `ts` gives: a parser made for them
/// reads one expression. Where they are a lone operand and the end, that operand;
/// where they are two such operands joined by a binary operator and the end, that
/// operator joining them; where they hold nothing but the end of input, the error
/// name at that token; where they hold no end of input, or interpolations are not
/// parsed here, the error name at the template string.
pub open spec fn interpolation_read(e: Expression, ts: Seq<Token>, nest: int, line: usize, col: usize) -> bool {
    let parsed = nest == 1 && ts.len() > 0 && ts[0].token_type != TokenType::EndOfFile && eof_ahead(ts, 0);
    &&& parsed && ts.len() >= 2 && is_lone_operand(ts[0].token_type) && ends_expression(ts[1].token_type)
        ==> e == operand_expr(ts[0])
    &&& parsed && ts.len() >= 4 && is_lone_operand(ts[0].token_type) && 1 <= binary_level(ts[1].token_type)
        && is_lone_operand(ts[2].token_type) && ends_expression(ts[3].token_type) ==> e == binary_expr(ts, 0)
    &&& !parsed && ts.len() > 0 && ts[0].token_type == TokenType::EndOfFile ==> error_name_at(e, ts[0].line, ts[0].column)
    &&& !parsed && !(ts.len() > 0 && ts[0].token_type == TokenType::EndOfFile) ==> error_name_at(e, line, col)
}

/// The `k`-th token list of `inner`, or none.
pub open spec fn list_or_empty(inner: Seq<Seq<Token>>, k: int) -> Seq<Token> {
    if 0 <= k < inner.len() { inner[k] } else { Seq::empty() }
}

/// `r` is what the template-string token `token` reads as, with `lists` the tokens of
/// its interpolations in order: its pieces joined by `+`, the text as string literals
/// and each interpolation as `interpolation_read` says; `""` for an empty template.
pub open spec fn template_read(r: Expression, token: Token, lists: Seq<Seq<Token>>, nest: int) -> bool {
    let parts = template_parts(token.value@, 0);
    &&& parts.len() > 0 ==> exists|es: Seq<Expression>| {
        &&& es.len() == count_interps(parts)
        &&& joins_parts(r, parts, es, token.line, token.column)
        &&& forall|k: int| 0 <= k < es.len() ==> interpolation_read(
            #[trigger] es[k],
            list_or_empty(lists, k),
            nest,
            token.line,
            token.column,
        )
    }
    &&& parts.len() == 0 ==> (r matches Expression::StringLiteral { value, _line, _col }
        && value@.len() == 0 && _line == token.line && _col == token.column)
}

impl Parser {
    /// One interpolation: a parser made for its tokens, the text inside `${...}` as a
    /// lexer reads it, reads an expression. Without tokens to read, or inside an
    /// interpolation already, the error name stands for it.
    fn interpolation_expr(&self, tokens: Vec<Token>, line: usize, col: usize) -> (e: Expression)
        requires
            self.inv(),
        ensures
            interpolation_read(e, tokens@, self.nest(), line, col),
        decreases self.nest(), self.remaining(), 41int,
    {
        let n = tokens.len();
        if self.reads_interpolations && n > 0 && tokens[0].token_type != TokenType::EndOfFile && has_end(&tokens) {
            let ghost ts = tokens@;
            let mut sub = Parser::new_for_interpolation(tokens, self.filename.as_str());
            let e = sub.parse_expression();
            proof {
                reveal(Parser::reads_forms);
            }
            e
        } else if n > 0 && tokens[0].token_type == TokenType::EndOfFile {
            Expression::Identifier { name: owned("__error__"), _line: tokens[0].line, _col: tokens[0].column }
        } else {
            Expression::Identifier { name: owned("__error__"), _line: line, _col: col }
        }
    }

    /// The expression of a template string: its pieces joined by `+`, the text as
    /// string literals and each `${...}` as what its tokens in `inner` read as (the
    /// first list for the first interpolation, and so on); `""` for an empty template.
    pub(crate) fn parse_template_string(&self, token: Token, inner: Vec<Vec<Token>>) -> (r: Expression)
        requires
            self.inv(),
        ensures
            template_read(r, token, inner@.map_values(|v: Vec<Token>| v@), self.nest()),
        decreases self.nest(), self.remaining(), 42int,
    {
        let parts = split_template(token.value.as_str());
        let ghost sp = parts@.map_values(|p: TemplatePart| p@);
        let ghost lists = inner@.map_values(|v: Vec<Token>| v@);
        let ghost mut es: Seq<Expression> = Seq::empty();
        let mut expr: Option<Expression> = None;
        let mut i: usize = 0;
        let mut j: usize = 0;
        while i < parts.len()
            invariant
                self.inv(),
                i <= parts.len(),
                sp == parts@.map_values(|p: TemplatePart| p@),
                lists == inner@.map_values(|v: Vec<Token>| v@),
                j == count_interps(sp.take(i as int)),
                j <= i,
                es.len() == j,
                forall|k: int| 0 <= k < es.len() ==> interpolation_read(
                    #[trigger] es[k],
                    list_or_empty(lists, k),
                    self.nest(),
                    token.line,
                    token.column,
                ),
                i == 0 <==> expr is None,
                expr matches Some(e) ==> joins_parts(e, sp.take(i as int), es, token.line, token.column),
            decreases parts.len() - i,
        {
            assert(sp.take(i + 1).drop_last() =~= sp.take(i as int));
            let ghost es_before = es;
            let part = match &parts[i] {
                TemplatePart::Text(t) => Expression::StringLiteral {
                    value: t.clone(),
                    _line: token.line,
                    _col: token.column,
                },
                TemplatePart::Interpolation(_) => {
                    let ts = if j < inner.len() { copy_tokens(&inner[j]) } else { Vec::new() };
                    let e = self.interpolation_expr(ts, token.line, token.column);
                    proof {
                        es = es.push(e);
                    }
                    j = j + 1;
                    e
                },
            };
            proof {
                let k = count_interps(sp.take(i as int)) as int;
                assert(part_expr_is(part, sp[i as int], k, es, token.line, token.column));
                if expr is Some {
                    lemma_joins_more_es(expr->0, sp.take(i as int), es_before, es, token.line, token.column);
                }
            }
            expr = match expr {
                None => Some(part),
                Some(e) => Some(Expression::BinaryExpr {
                    left: Box::new(e),
                    op: TokenType::Plus,
                    right: Box::new(part),
                    _line: token.line,
                    _col: token.column,
                }),
            };
            i = i + 1;
        }
        assert(sp.take(parts@.len() as int) =~= sp);
        match expr {
            Some(e) => e,
            None => Expression::StringLiteral { value: String::new(), _line: token.line, _col: token.column },
        }
    }
}

} // verus!
