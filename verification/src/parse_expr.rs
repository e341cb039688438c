//! Parsing of expressions.

use crate::ast::{
    arms_view, exprs_view, fields_view, opt_expr_view, stmts_view, BinOp, Expr, ExprKind, Pattern,
    Stmt, StmtKind, UnaryOp,
};
use crate::diagnostic::{Diagnostic, Span};
use crate::grammar::{
    block_value, branch_value, code_end, code_scan, content_scan, joined, lemma_piece_ends,
    literal, p_arms, p_binop, p_binop_rest, p_else_expr, p_expr, p_exprs_until, p_field_values,
    p_for_expr, p_guard, p_if_expr, p_interp, p_match, p_postfix, p_postfix_rest, p_primary,
    p_array, p_paren, p_named, p_struct_lit, p_unary, p_while_expr, piece_error, pieces, rule_arms,
    rule_binop, rule_binop_rest, rule_else_expr, rule_expr, rule_exprs_until, rule_field_values,
    rule_for_expr, rule_guard, rule_if_expr, rule_match, rule_postfix, rule_postfix_rest,
    rule_primary, rule_array, rule_paren, rule_named, rule_struct_lit, rule_unary, rule_while_expr,
    stmt_value, text_end, Cursor, Piece,
};
use crate::lexer::{lemma_advance, unescape_chars, unescaped, Lexer, Token, TokenV};
use crate::text::{cat2, cat3, chars_of, string_of, trim};
use crate::parser::{agrees, is_fixed, starts_upper, Parser};
use vstd::prelude::*;

verus! {

broadcast use crate::ast::group_views;

proof fn lemma_unescaped_len(t: Seq<char>, i: int)
    requires
        0 <= i <= t.len(),
    ensures
        unescaped(t, i).len() <= t.len() - i,
    decreases t.len() - i,
{
    if i < t.len() {
        lemma_unescaped_len(t, i + 1);
        if i + 1 < t.len() {
            lemma_unescaped_len(t, i + 2);
        }
    }
}

/// A part of an interpolated string.
struct PieceX {
    code: bool,
    from: usize,
    to: usize,
}

impl PieceX {
    spec fn view(&self) -> Piece {
        if self.code {
            Piece::Code(self.from as int, self.to as int)
        } else {
            Piece::Text(self.from as int, self.to as int)
        }
    }
}

spec fn pieces_view(ps: Seq<PieceX>) -> Seq<Piece> {
    ps.map_values(|p: PieceX| p@)
}

fn find_text_end(t: &Vec<char>, from: usize) -> (end: usize)
    requires
        from <= t@.len(),
    ensures
        end == text_end(t@, from as int),
        from <= end <= t@.len(),
{
    let mut i: usize = from;
    while i < t.len() && t[i] != '{'
        invariant
            from <= i <= t@.len(),
            text_end(t@, i as int) == text_end(t@, from as int),
        decreases t@.len() - i,
    {
        if t[i] == '\\' && t.len() - i > 1 {
            i += 2;
        } else {
            i += 1;
        }
    }
    i
}

fn find_code_end(t: &Vec<char>, from: usize) -> (end: usize)
    requires
        1 <= from <= t@.len(),
    ensures
        end == code_end(t@, from as int, 1),
        from <= end <= t@.len(),
{
    let mut i: usize = from;
    let mut depth: usize = 1;
    assert(t.len() <= usize::MAX);
    while i < t.len() && !(t[i] == '}' && depth <= 1)
        invariant
            1 <= from <= i <= t@.len(),
            1 <= depth <= i - from + 1,
            t@.len() <= usize::MAX,
            code_end(t@, i as int, depth as int) == code_end(t@, from as int, 1),
        decreases t@.len() - i,
    {
        assert(i < t.len());
        if t[i] == '\\' && t.len() - i > 1 {
            i += 2;
        } else if t[i] == '{' {
            i += 1;
            depth += 1;
        } else if t[i] == '}' {
            i += 1;
            depth -= 1;
        } else {
            i += 1;
        }
    }
    i
}

/// The pieces of an interpolated string's content.
fn split_pieces(t: &Vec<char>) -> (ps: Vec<PieceX>)
    ensures
        pieces_view(ps@) == pieces(t@, 0),
        forall|k: int|
            0 <= k < ps@.len() ==> (#[trigger] ps@[k]).from <= ps@[k].to <= t@.len() && (
            ps@[k].code ==> ps@[k].from >= 1),
{
    let mut ps: Vec<PieceX> = Vec::new();
    let mut i: usize = 0;
    while i < t.len()
        invariant
            pieces_view(ps@) + pieces(t@, i as int) == pieces(t@, 0),
            forall|k: int|
                0 <= k < ps@.len() ==> (#[trigger] ps@[k]).from <= ps@[k].to <= t@.len() && (
                ps@[k].code ==> ps@[k].from >= 1),
        decreases
                if i < t@.len() {
                    t@.len() - i
                } else {
                    0
                },
    {
        let ghost before = ps@;
        let ghost at = i as int;
        if t[i] == '{' {
            let e = find_code_end(t, i + 1);
            let p = PieceX { code: true, from: i + 1, to: e };
            ps.push(p);
            assert(pieces_view(before) + (seq![p@] + pieces(t@, e + 1)) =~= pieces_view(ps@)
                + pieces(t@, e + 1));
            if e >= t.len() {
                assert(pieces(t@, e + 1) =~= Seq::<Piece>::empty());
                assert(pieces_view(ps@) =~= pieces(t@, 0));
                return ps;
            }
            i = e + 1;
        } else {
            let e = find_text_end(t, i);
            proof {
                lemma_piece_ends(t@, i as int, 0);
            }
            let p = PieceX { code: false, from: i, to: e };
            ps.push(p);
            assert(pieces_view(before) + (seq![p@] + pieces(t@, e as int)) =~= pieces_view(ps@)
                + pieces(t@, e as int));
            i = e;
        }
    }
    assert(pieces_view(ps@) =~= pieces(t@, 0));
    ps
}

/// The position of the `n`-th character of a content that starts behind the
/// quote at `span`.
fn position_in(t: &Vec<char>, span: Span, n: usize) -> (r: Span)
    requires
        content_scan(t@, span).fits(),
        n <= t@.len(),
    ensures
        r.line == content_scan(t@, span).advance(n as int).line,
        r.col == content_scan(t@, span).advance(n as int).col,
{
    let mut line: u32 = span.line;
    let mut col: u32 = span.col + 1;
    let mut i: usize = 0;
    while i < n
        invariant
            i <= n <= t@.len(),
            content_scan(t@, span).fits(),
            line == content_scan(t@, span).advance(i as int).line,
            col == content_scan(t@, span).advance(i as int).col,
        decreases n - i,
    {
        proof {
            lemma_advance(content_scan(t@, span), i as int);
            lemma_advance(content_scan(t@, span), i + 1);
        }
        if t[i] == '\n' {
            line += 1;
            col = 1;
        } else {
            col += 1;
        }
        i += 1;
    }
    Span::new(line, col)
}

fn copy_range(t: &Vec<char>, from: usize, to: usize) -> (v: Vec<char>)
    requires
        from <= to <= t@.len(),
    ensures
        v@ == t@.subrange(from as int, to as int),
{
    let mut v: Vec<char> = Vec::new();
    let mut i: usize = from;
    while i < to
        invariant
            from <= i <= to <= t@.len(),
            v@ == t@.subrange(from as int, i as int),
        decreases to - i,
    {
        v.push(t[i]);
        i += 1;
    }
    v
}

fn make_piece_error(code: &str, e: Diagnostic, span: Span) -> (d: Diagnostic)
    ensures
        d@ == piece_error(code@, e@, span),
{
    let t = trim(code);
    Diagnostic::new(
        cat2(
            cat3("in interpolated expression `", t.as_str(), "`: ").as_str(),
            e.message.as_str(),
        ),
        span,
    )
}

/// The parts of an interpolated string added up from the left.
fn join_parts(parts: Vec<Expr>, span: Span) -> (e: Expr)
    ensures
        e@ == joined(exprs_view(parts@), span),
{
    let ghost all = exprs_view(parts@);
    let mut rest = parts;
    if rest.len() == 0 {
        return Expr::new(ExprKind::Str(String::new()), span);
    }
    let mut i: usize = 1;
    let n = rest.len();
    let mut acc = rest.remove(0);
    assert(exprs_view(rest@) =~= all.skip(1));
    assert(joined(all.take(1), span) == all[0]);
    while i < n
        invariant
            1 <= i <= n,
            n == all.len(),
            exprs_view(rest@) == all.skip(i as int),
            rest@.len() == n - i,
            acc@ == joined(all.take(i as int), span),
        decreases n - i,
    {
        let ghost before = rest@;
        let part = rest.remove(0);
        proof {
            assert(part@ == exprs_view(before)[0]);
            assert forall|k: int| 0 <= k < rest@.len() implies exprs_view(rest@)[k] == all.skip(
                i + 1,
            )[k] by {
                assert(exprs_view(rest@)[k] == exprs_view(before)[k + 1]);
            }
            assert(exprs_view(rest@) =~= all.skip(i + 1));
            assert(all.take(i + 1).drop_last() =~= all.take(i as int));
            assert(all.take(i + 1).last() == part@);
        }
        acc = Expr::new(ExprKind::Binary(Box::new(acc), BinOp::Add, Box::new(part)), span);
        i += 1;
    }
    assert(all.take(n as int) =~= all);
    acc
}

/// The value that a statement gives as the last of a block.
fn take_value(s: Stmt) -> (r: Option<Expr>)
    ensures
        opt_expr_view(r) == stmt_value(s@),
{
    match s.kind {
        StmtKind::Expr(e) => Some(e),
        StmtKind::Return(Some(e)) => Some(e),
        _ => None,
    }
}

/// The value of a block in expression position.
fn value_of_block(stmts: Vec<Stmt>, span: Span) -> (e: Expr)
    ensures
        e@ == block_value(stmts_view(stmts@), span),
{
    let ghost all = stmts@;
    let mut rest = stmts;
    match rest.pop() {
        Some(last) => {
            assert(stmts_view(all).last() == last@);
            match take_value(last) {
                Some(e) => e,
                None => Expr::new(ExprKind::Bool(false), span),
            }
        },
        None => Expr::new(ExprKind::Bool(false), span),
    }
}

/// The value of a branch of an `if` expression.
fn value_of_branch(stmts: Vec<Stmt>, span: Span) -> (e: Expr)
    ensures
        e@ == branch_value(stmts_view(stmts@), span),
{
    let ghost all = stmts@;
    let mut rest = stmts;
    if rest.len() == 1 {
        match rest.pop() {
            Some(only) => {
                assert(stmts_view(all)[0] == only@);
                match take_value(only) {
                    Some(e) => {
                        return e;
                    },
                    None => {},
                }
            },
            None => {},
        }
    }
    Expr::new(ExprKind::Int(0), span)
}

/// The parts of an interpolated string. The string's token has been read;
/// `begin` is where it stood.
fn parse_interp_string(content: String, span: Span, begin: Ghost<Cursor>) -> (r: Result<
    Expr,
    Diagnostic,
>)
    requires
        begin@.cur == TokenV::InterpStr(content@),
        begin@.span == span,
        content_scan(content@, span).fits(),
    ensures
        match p_interp(begin@, content@, 0, Seq::empty()) {
            Ok((parts, _)) => r is Ok && r->Ok_0@ == joined(parts, span),
            Err(d) => r is Err && r->Err_0@ == d,
        },
    decreases begin@.size(), 4int, 0int,
{
    let t = chars_of(content.as_str());
    let ps = split_pieces(&t);
    let mut parts: Vec<Expr> = Vec::new();
    assert(exprs_view(parts@) =~= Seq::empty());
    let mut i: usize = 0;
    while i < ps.len()
        invariant
            i <= ps@.len(),
            t@ == content@,
            begin@.cur == TokenV::InterpStr(content@),
            begin@.span == span,
            content_scan(content@, span).fits(),
            pieces_view(ps@) == pieces(t@, 0),
            forall|k: int|
                0 <= k < ps@.len() ==> (#[trigger] ps@[k]).from <= ps@[k].to <= t@.len() && (
                ps@[k].code ==> ps@[k].from >= 1),
            p_interp(begin@, content@, i as int, exprs_view(parts@)) == p_interp(
                begin@,
                content@,
                0,
                Seq::empty(),
            ),
        decreases ps@.len() - i,
    {
        let from = ps[i].from;
        let to = ps[i].to;
        let raw = copy_range(&t, from, to);
        let text = unescape_chars(&raw);
        assert(pieces(t@, 0)[i as int] == ps@[i as int]@);
        if ps[i].code {
            let at = position_in(&t, span, from);
            let code = string_of(&text, 0, text.len());
            assert(code@ =~= text@);
            proof {
                lemma_unescaped_len(raw@, 0);
                lemma_advance(content_scan(t@, span), from as int);
            }
            let ghost scan = code_scan(t@, span, from as int, to as int);
            assert(text@ == scan.rest);
            let started = Parser::from_lexer(Lexer::at(text, at));
            let mut sub = match started {
                Ok(p) => p,
                Err(e) => {
                    return Err(make_piece_error(code.as_str(), e, span));
                },
            };
            let inner = match sub.parse_expr() {
                Ok(e) => e,
                Err(e) => {
                    return Err(make_piece_error(code.as_str(), e, span));
                },
            };
            let mut args: Vec<Expr> = Vec::new();
            let ghost inner_v = inner@;
            args.push(inner);
            assert(exprs_view(args@) =~= seq![inner_v]);
            parts.push(
                Expr::new(
                    ExprKind::Call(
                        Box::new(Expr::new(ExprKind::Ident("to_string".to_owned()), span)),
                        args,
                    ),
                    span,
                ),
            );
        } else {
            let text = string_of(&text, 0, text.len());
            assert(text@ =~= unescaped(raw@, 0));
            parts.push(Expr::new(ExprKind::Str(text), span));
        }
        i += 1;
    }
    Ok(join_parts(parts, span))
}

impl Parser {
    /// Parse one expression.
    pub fn parse_expr(&mut self) -> (r: Result<Expr, Diagnostic>)
        requires
            old(self).wf(),
        ensures
            final(self).wf(),
            agrees(r, final(self)@, p_expr(old(self)@)),
            r is Ok ==> final(self)@.size() < old(self)@.size(),
        decreases old(self)@.size(), 10int, 0int,
    {
        assert(p_expr(self@) == rule_expr(self@));
        let left = self.parse_binop(0)?;
        if self.at(&Token::DotDot) {
            self.advance()?;
            let right = self.parse_binop(0)?;
            let span = left.span;
            return Ok(Expr::new(ExprKind::Range(Box::new(left), Box::new(right)), span));
        }
        Ok(left)
    }

    /// Binding power, loosest to tightest: `||` < `&&` < comparison < `+ -` <
    /// `* / %`. All levels are left-associative, hence the `prec + 1` on the
    /// right operand.
    pub(crate) fn parse_binop(&mut self, min_prec: u8) -> (r: Result<Expr, Diagnostic>)
        requires
            old(self).wf(),
            min_prec <= 6,
        ensures
            final(self).wf(),
            agrees(r, final(self)@, p_binop(old(self)@, min_prec as int)),
            r is Ok ==> final(self)@.size() < old(self)@.size(),
        decreases old(self)@.size(), 9int, 0int,
    {
        assert(p_binop(self@, min_prec as int) == rule_binop(self@, min_prec as int));
        let mut left = self.parse_unary()?;
        let ghost begin = self@;
        let ghost first = left@;
        loop
            invariant
                self.wf(),
                min_prec <= 6,
                begin.size() < old(self)@.size(),
                self@.size() <= begin.size(),
                p_binop(old(self)@, min_prec as int) == p_binop_rest(first, begin, min_prec as int),
                p_binop_rest(left@, self@, min_prec as int) == p_binop_rest(
                    first,
                    begin,
                    min_prec as int,
                ),
            decreases self@.size(),
        {
            assert(p_binop_rest(left@, self@, min_prec as int) == rule_binop_rest(left@, self@, min_prec as int));
            let (prec, op) = match self.operator_here() {
                Some(found) => found,
                None => {
                    return Ok(left);
                },
            };
            if prec < min_prec {
                return Ok(left);
            }
            self.advance()?;
            let right = self.parse_binop(prec + 1)?;
            let span = left.span;
            left = Expr::new(ExprKind::Binary(Box::new(left), op, Box::new(right)), span);
        }
    }

    pub(crate) fn parse_unary(&mut self) -> (r: Result<Expr, Diagnostic>)
        requires
            old(self).wf(),
        ensures
            final(self).wf(),
            agrees(r, final(self)@, p_unary(old(self)@)),
            r is Ok ==> final(self)@.size() < old(self)@.size(),
        decreases old(self)@.size(), 8int, 0int,
    {
        assert(p_unary(self@) == rule_unary(self@));
        let span = self.here();
        let op = if self.at(&Token::Minus) {
            UnaryOp::Neg
        } else if self.at(&Token::Bang) {
            UnaryOp::Not
        } else {
            return self.parse_postfix();
        };
        self.advance()?;
        let expr = self.parse_unary()?;
        Ok(Expr::new(ExprKind::Unary(op, Box::new(expr)), span))
    }

    pub(crate) fn parse_postfix(&mut self) -> (r: Result<Expr, Diagnostic>)
        requires
            old(self).wf(),
        ensures
            final(self).wf(),
            agrees(r, final(self)@, p_postfix(old(self)@)),
            r is Ok ==> final(self)@.size() < old(self)@.size(),
        decreases old(self)@.size(), 7int, 0int,
    {
        assert(p_postfix(self@) == rule_postfix(self@));
        let mut expr = self.parse_primary()?;
        let ghost begin = self@;
        let ghost first = expr@;
        loop
            invariant
                self.wf(),
                begin.size() < old(self)@.size(),
                self@.size() <= begin.size(),
                p_postfix(old(self)@) == p_postfix_rest(first, begin),
                p_postfix_rest(expr@, self@) == p_postfix_rest(first, begin),
            decreases self@.size(),
        {
            assert(p_postfix_rest(expr@, self@) == rule_postfix_rest(expr@, self@));
            let span = expr.span;
            if self.at(&Token::Dot) {
                self.advance()?;
                let name = self.expect_name("field/method name after '.'")?;
                if self.at(&Token::LParen) {
                    self.advance()?;
                    let args = self.parse_exprs_until(Token::RParen)?;
                    self.expect(Token::RParen)?;
                    expr = Expr::new(ExprKind::MethodCall(Box::new(expr), name, args), span);
                } else {
                    expr = Expr::new(ExprKind::FieldAccess(Box::new(expr), name), span);
                }
            } else if self.at(&Token::LBrack) {
                self.advance()?;
                let index = self.parse_expr()?;
                self.expect(Token::RBrack)?;
                expr = Expr::new(ExprKind::Index(Box::new(expr), Box::new(index)), span);
            } else {
                return Ok(expr);
            }
        }
    }

    pub(crate) fn parse_exprs_until(&mut self, close: Token) -> (r: Result<Vec<Expr>, Diagnostic>)
        requires
            old(self).wf(),
            is_fixed(close),
            close != Token::Eof,
        ensures
            final(self).wf(),
            agrees(r, final(self)@, p_exprs_until(old(self)@, close, Seq::empty())),
            r is Ok ==> final(self)@.size() <= old(self)@.size(),
        decreases old(self)@.size(), 13int, 0int,
    {
        assert(p_exprs_until(self@, close, Seq::empty()) == rule_exprs_until(self@, close, Seq::empty()));
        let mut out: Vec<Expr> = Vec::new();
        let ghost begin = self@;
        assert(exprs_view(out@) =~= Seq::empty());
        while !self.at(&close)
            invariant
                self.wf(),
                is_fixed(close),
                begin == old(self)@,
                self@.size() <= begin.size(),
                p_exprs_until(self@, close, exprs_view(out@)) == p_exprs_until(begin, close, Seq::empty()),
            decreases self@.size(),
        {
            assert(p_exprs_until(self@, close, exprs_view(out@)) == rule_exprs_until(self@, close, exprs_view(out@)));
            let item = self.parse_expr()?;
            self.skip_comma()?;
            out.push(item);
        }
        assert(p_exprs_until(self@, close, exprs_view(out@)) == rule_exprs_until(self@, close, exprs_view(out@)));
        Ok(out)
    }

    pub(crate) fn parse_primary(&mut self) -> (r: Result<Expr, Diagnostic>)
        requires
            old(self).wf(),
        ensures
            final(self).wf(),
            agrees(r, final(self)@, p_primary(old(self)@)),
            r is Ok ==> final(self)@.size() < old(self)@.size(),
        decreases old(self)@.size(), 6int, 0int,
    {
        assert(p_primary(self@) == rule_primary(self@));
        match self.name_here() {
            Some(name) => {
                return self.parse_named(name);
            },
            None => {},
        }
        let span = self.here();
        if self.at_interpolated() {
            let ghost begin = self@;
            proof {
                self.lemma_content_fits();
            }
            return match self.advance()? {
                Token::InterpStr(content) => parse_interp_string(content, span, Ghost(begin)),
                _ => Ok(Expr::new(ExprKind::Str(String::new()), span)),
            };
        }
        if self.at(&Token::Match) {
            return self.parse_match();
        }
        if self.at(&Token::If) {
            return self.parse_if_expr();
        }
        if self.at(&Token::While) {
            return self.parse_while_expr();
        }
        if self.at(&Token::For) {
            return self.parse_for_expr();
        }
        if self.at(&Token::LParen) {
            return self.parse_paren();
        }
        if self.at(&Token::LBrack) {
            return self.parse_array();
        }
        if self.at(&Token::LBrace) {
            let stmts = self.parse_body()?;
            return Ok(value_of_block(stmts, span));
        }
        match self.literal_here() {
            Some(kind) => {
                self.advance()?;
                Ok(Expr::new(kind, span))
            },
            None => Err(
                self.error_at_prev(
                    cat2("unexpected token in expression: ", self.describe_here().as_str()),
                ),
            ),
        }
    }

    pub(crate) fn parse_named(&mut self, name: String) -> (r: Result<Expr, Diagnostic>)
        requires
            old(self).wf(),
            !old(self)@.at(Token::Eof),
        ensures
            final(self).wf(),
            agrees(r, final(self)@, p_named(old(self)@, name@)),
            r is Ok ==> final(self)@.size() < old(self)@.size(),
        decreases old(self)@.size(), 1int, 0int,
    {
        assert(p_named(self@, name@) == rule_named(self@, name@));
        let span = self.here();
        self.advance()?;
        if self.at(&Token::LBrace) && starts_upper(name.as_str()) {
            return self.parse_struct_lit(name, span);
        }
        if self.at(&Token::LParen) {
            self.advance()?;
            let args = self.parse_exprs_until(Token::RParen)?;
            self.expect(Token::RParen)?;
            return Ok(
                Expr::new(
                    ExprKind::Call(Box::new(Expr::new(ExprKind::Ident(name), span)), args),
                    span,
                ),
            );
        }
        Ok(Expr::new(ExprKind::Ident(name), span))
    }

    pub(crate) fn parse_paren(&mut self) -> (r: Result<Expr, Diagnostic>)
        requires
            old(self).wf(),
            !old(self)@.at(Token::Eof),
        ensures
            final(self).wf(),
            agrees(r, final(self)@, p_paren(old(self)@)),
            r is Ok ==> final(self)@.size() < old(self)@.size(),
        decreases old(self)@.size(), 1int, 0int,
    {
        assert(p_paren(self@) == rule_paren(self@));
        self.advance()?;
        let e = self.parse_expr()?;
        self.expect(Token::RParen)?;
        Ok(e)
    }

    pub(crate) fn parse_array(&mut self) -> (r: Result<Expr, Diagnostic>)
        requires
            old(self).wf(),
            !old(self)@.at(Token::Eof),
        ensures
            final(self).wf(),
            agrees(r, final(self)@, p_array(old(self)@)),
            r is Ok ==> final(self)@.size() < old(self)@.size(),
        decreases old(self)@.size(), 1int, 0int,
    {
        assert(p_array(self@) == rule_array(self@));
        let span = self.here();
        self.advance()?;
        let elems = self.parse_exprs_until(Token::RBrack)?;
        self.expect(Token::RBrack)?;
        Ok(Expr::new(ExprKind::ArrayLit(elems), span))
    }

    pub(crate) fn parse_struct_lit(&mut self, name: String, span: Span) -> (r: Result<Expr, Diagnostic>)
        requires
            old(self).wf(),
            !old(self)@.at(Token::Eof),
        ensures
            final(self).wf(),
            agrees(r, final(self)@, p_struct_lit(old(self)@, name@, span)),
            r is Ok ==> final(self)@.size() < old(self)@.size(),
        decreases old(self)@.size(), 0int, 0int,
    {
        assert(p_struct_lit(self@, name@, span) == rule_struct_lit(self@, name@, span));
        self.advance()?;
        let fields = self.parse_field_values()?;
        self.expect(Token::RBrace)?;
        Ok(Expr::new(ExprKind::StructLit { name, fields }, span))
    }

    pub(crate) fn parse_field_values(&mut self) -> (r: Result<Vec<(String, Expr)>, Diagnostic>)
        requires
            old(self).wf(),
        ensures
            final(self).wf(),
            agrees(r, final(self)@, p_field_values(old(self)@, Seq::empty())),
            r is Ok ==> final(self)@.size() <= old(self)@.size(),
        decreases old(self)@.size(), 0int, 0int,
    {
        assert(p_field_values(self@, Seq::empty()) == rule_field_values(self@, Seq::empty()));
        let mut out: Vec<(String, Expr)> = Vec::new();
        let ghost begin = self@;
        assert(fields_view(out@) =~= Seq::empty());
        while !self.at(&Token::RBrace)
            invariant
                self.wf(),
                begin == old(self)@,
                self@.size() <= begin.size(),
                p_field_values(self@, fields_view(out@)) == p_field_values(begin, Seq::empty()),
            decreases self@.size(),
        {
            assert(p_field_values(self@, fields_view(out@)) == rule_field_values(self@, fields_view(out@)));
            let name = self.expect_name("field name in struct literal")?;
            self.expect(Token::Colon)?;
            let value = self.parse_expr()?;
            self.skip_comma()?;
            out.push((name, value));
        }
        assert(p_field_values(self@, fields_view(out@)) == rule_field_values(self@, fields_view(out@)));
        Ok(out)
    }

    pub(crate) fn parse_match(&mut self) -> (r: Result<Expr, Diagnostic>)
        requires
            old(self).wf(),
            !old(self)@.at(Token::Eof),
        ensures
            final(self).wf(),
            agrees(r, final(self)@, p_match(old(self)@)),
            r is Ok ==> final(self)@.size() < old(self)@.size(),
        decreases old(self)@.size(), 0int, 0int,
    {
        assert(p_match(self@) == rule_match(self@));
        let span = self.here();
        self.advance()?;
        let scrutinee = self.parse_expr()?;
        self.expect(Token::LBrace)?;
        let arms = self.parse_arms()?;
        self.expect(Token::RBrace)?;
        Ok(Expr::new(ExprKind::Match { scrutinee: Box::new(scrutinee), arms }, span))
    }

    pub(crate) fn parse_guard(&mut self) -> (r: Result<Option<Expr>, Diagnostic>)
        requires
            old(self).wf(),
        ensures
            final(self).wf(),
            agrees(r, final(self)@, p_guard(old(self)@)),
            r is Ok ==> final(self)@.size() <= old(self)@.size(),
        decreases old(self)@.size(), 0int, 0int,
    {
        assert(p_guard(self@) == rule_guard(self@));
        if self.at(&Token::If) {
            self.advance()?;
            let e = self.parse_expr()?;
            return Ok(Some(e));
        }
        Ok(None)
    }

    pub(crate) fn parse_arms(&mut self) -> (r: Result<Vec<(Vec<Pattern>, Option<Expr>, Expr)>, Diagnostic>)
        requires
            old(self).wf(),
        ensures
            final(self).wf(),
            agrees(r, final(self)@, p_arms(old(self)@, Seq::empty())),
            r is Ok ==> final(self)@.size() <= old(self)@.size(),
        decreases old(self)@.size(), 0int, 0int,
    {
        assert(p_arms(self@, Seq::empty()) == rule_arms(self@, Seq::empty()));
        let mut out: Vec<(Vec<Pattern>, Option<Expr>, Expr)> = Vec::new();
        let ghost begin = self@;
        assert(arms_view(out@) =~= Seq::empty());
        while !self.at(&Token::RBrace)
            invariant
                self.wf(),
                begin == old(self)@,
                self@.size() <= begin.size(),
                p_arms(self@, arms_view(out@)) == p_arms(begin, Seq::empty()),
            decreases self@.size(),
        {
            assert(p_arms(self@, arms_view(out@)) == rule_arms(self@, arms_view(out@)));
            let patterns = self.parse_alternatives()?;
            let guard = self.parse_guard()?;
            self.expect(Token::FatArrow)?;
            let body = self.parse_expr()?;
            self.skip_comma()?;
            out.push((patterns, guard, body));
        }
        assert(p_arms(self@, arms_view(out@)) == rule_arms(self@, arms_view(out@)));
        Ok(out)
    }

    pub(crate) fn parse_if_expr(&mut self) -> (r: Result<Expr, Diagnostic>)
        requires
            old(self).wf(),
            !old(self)@.at(Token::Eof),
        ensures
            final(self).wf(),
            agrees(r, final(self)@, p_if_expr(old(self)@)),
            r is Ok ==> final(self)@.size() < old(self)@.size(),
        decreases old(self)@.size(), 1int, 0int,
    {
        assert(p_if_expr(self@) == rule_if_expr(self@));
        let span = self.here();
        self.advance()?;
        let cond = self.parse_expr()?;
        let stmts = self.parse_body()?;
        let then_body = value_of_branch(stmts, span);
        let else_body = self.parse_else_expr()?;
        Ok(
            Expr::new(
                ExprKind::If { cond: Box::new(cond), then_body: Box::new(then_body), else_body },
                span,
            ),
        )
    }

    pub(crate) fn parse_else_expr(&mut self) -> (r: Result<Option<Box<Expr>>, Diagnostic>)
        requires
            old(self).wf(),
        ensures
            final(self).wf(),
            agrees(r, final(self)@, p_else_expr(old(self)@)),
            r is Ok ==> final(self)@.size() <= old(self)@.size(),
        decreases old(self)@.size(), 0int, 0int,
    {
        assert(p_else_expr(self@) == rule_else_expr(self@));
        if !self.at(&Token::Else) {
            return Ok(None);
        }
        self.advance()?;
        if self.at(&Token::If) {
            let e = self.parse_if_expr()?;
            return Ok(Some(Box::new(e)));
        }
        let span = self.here();
        let stmts = self.parse_body()?;
        Ok(Some(Box::new(value_of_branch(stmts, span))))
    }

    pub(crate) fn parse_while_expr(&mut self) -> (r: Result<Expr, Diagnostic>)
        requires
            old(self).wf(),
            !old(self)@.at(Token::Eof),
        ensures
            final(self).wf(),
            agrees(r, final(self)@, p_while_expr(old(self)@)),
            r is Ok ==> final(self)@.size() < old(self)@.size(),
        decreases old(self)@.size(), 1int, 0int,
    {
        assert(p_while_expr(self@) == rule_while_expr(self@));
        let span = self.here();
        let (cond, body) = self.parse_while()?;
        Ok(Expr::new(ExprKind::While { cond: Box::new(cond), body }, span))
    }

    pub(crate) fn parse_for_expr(&mut self) -> (r: Result<Expr, Diagnostic>)
        requires
            old(self).wf(),
            !old(self)@.at(Token::Eof),
        ensures
            final(self).wf(),
            agrees(r, final(self)@, p_for_expr(old(self)@)),
            r is Ok ==> final(self)@.size() < old(self)@.size(),
        decreases old(self)@.size(), 1int, 0int,
    {
        assert(p_for_expr(self@) == rule_for_expr(self@));
        let span = self.here();
        let (var, iter, body) = self.parse_for()?;
        Ok(Expr::new(ExprKind::For { var, iter: Box::new(iter), body }, span))
    }
}

} // verus!
