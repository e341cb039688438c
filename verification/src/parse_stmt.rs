//! Parsing of statements.

use crate::ast::{stmts_view, Expr, ExprKind, Program, Stmt, StmtKind, Type};
use crate::diagnostic::Diagnostic;
use crate::grammar::{
    name_of, p_assign, rule_assign, p_body, p_else, p_expr_stmt, p_fn, p_for, p_if, p_impl,
    p_impl_for, p_jump, p_let, p_macro, p_methods, p_stmt, p_stmt_kind, p_stmts_until, p_while,
    rule_body, rule_else, rule_expr_stmt, rule_fn, rule_for, rule_if, rule_impl, rule_jump,
    rule_let, rule_macro, rule_methods, rule_stmt, rule_stmt_kind, rule_stmts_until, rule_while,
};
use crate::lexer::Token;
use crate::parser::{agrees, is_fixed, Parser};
use vstd::prelude::*;

verus! {

broadcast use crate::ast::group_views;

/// The name that an expression is, where it is one.
fn into_name(e: Expr) -> (r: Option<String>)
    ensures
        match name_of(e@) {
            Some(name) => r is Some && r->Some_0@ == name,
            None => r is None,
        },
{
    match *e.kind {
        ExprKind::Ident(name) => Some(name),
        _ => None,
    }
}

impl Parser {
    pub(crate) fn parse_while(&mut self) -> (r: Result<(Expr, Vec<Stmt>), Diagnostic>)
        requires
            old(self).wf(),
            !old(self)@.at(Token::Eof),
        ensures
            final(self).wf(),
            agrees(r, final(self)@, p_while(old(self)@)),
            r is Ok ==> final(self)@.size() < old(self)@.size(),
        decreases old(self)@.size(), 0int, 0int,
    {
        assert(p_while(self@) == rule_while(self@));
        self.advance()?;
        let cond = self.parse_expr()?;
        let body = self.parse_body()?;
        Ok((cond, body))
    }

    pub(crate) fn parse_for(&mut self) -> (r: Result<(String, Expr, Vec<Stmt>), Diagnostic>)
        requires
            old(self).wf(),
            !old(self)@.at(Token::Eof),
        ensures
            final(self).wf(),
            agrees(r, final(self)@, p_for(old(self)@)),
            r is Ok ==> final(self)@.size() < old(self)@.size(),
        decreases old(self)@.size(), 0int, 0int,
    {
        assert(p_for(self@) == rule_for(self@));
        self.advance()?;
        let var = self.expect_name("variable name after for")?;
        self.expect(Token::In)?;
        let iter = self.parse_expr()?;
        let body = self.parse_body()?;
        Ok((var, iter, body))
    }

    /// Statements between braces.
    pub(crate) fn parse_body(&mut self) -> (r: Result<Vec<Stmt>, Diagnostic>)
        requires
            old(self).wf(),
        ensures
            final(self).wf(),
            agrees(r, final(self)@, p_body(old(self)@)),
            r is Ok ==> final(self)@.size() < old(self)@.size(),
        decreases old(self)@.size(), 0int, 0int,
    {
        assert(p_body(self@) == rule_body(self@));
        self.expect(Token::LBrace)?;
        let stmts = self.parse_stmts_until(Token::RBrace)?;
        self.expect(Token::RBrace)?;
        Ok(stmts)
    }

    pub(crate) fn parse_stmts_until(&mut self, close: Token) -> (r: Result<Vec<Stmt>, Diagnostic>)
        requires
            old(self).wf(),
            is_fixed(close),
        ensures
            final(self).wf(),
            agrees(r, final(self)@, p_stmts_until(old(self)@, close, Seq::empty())),
            r is Ok ==> final(self)@.size() <= old(self)@.size(),
        decreases old(self)@.size(), 20int, 0int,
    {
        assert(p_stmts_until(self@, close, Seq::empty()) == rule_stmts_until(self@, close, Seq::empty()));
        let mut out: Vec<Stmt> = Vec::new();
        let ghost begin = self@;
        assert(stmts_view(out@) =~= Seq::empty());
        while !self.at(&close)
            invariant
                self.wf(),
                is_fixed(close),
                begin == old(self)@,
                self@.size() <= begin.size(),
                p_stmts_until(self@, close, stmts_view(out@)) == p_stmts_until(
                    begin,
                    close,
                    Seq::empty(),
                ),
            decreases self@.size(),
        {
            assert(p_stmts_until(self@, close, stmts_view(out@)) == rule_stmts_until(self@, close, stmts_view(out@)));
            let s = self.parse_stmt()?;
            out.push(s);
        }
        assert(p_stmts_until(self@, close, stmts_view(out@)) == rule_stmts_until(self@, close, stmts_view(out@)));
        Ok(out)
    }

    pub(crate) fn parse_stmt(&mut self) -> (r: Result<Stmt, Diagnostic>)
        requires
            old(self).wf(),
        ensures
            final(self).wf(),
            agrees(r, final(self)@, p_stmt(old(self)@)),
            r is Ok ==> final(self)@.size() < old(self)@.size(),
        decreases old(self)@.size(), 16int, 0int,
    {
        assert(p_stmt(self@) == rule_stmt(self@));
        let span = self.here();
        let kind = self.parse_stmt_kind()?;
        Ok(Stmt::new(kind, span))
    }

    pub(crate) fn parse_stmt_kind(&mut self) -> (r: Result<StmtKind, Diagnostic>)
        requires
            old(self).wf(),
        ensures
            final(self).wf(),
            agrees(r, final(self)@, p_stmt_kind(old(self)@)),
            r is Ok ==> final(self)@.size() < old(self)@.size(),
        decreases old(self)@.size(), 15int, 0int,
    {
        assert(p_stmt_kind(self@) == rule_stmt_kind(self@));
        if self.at(&Token::Let) {
            return self.parse_let();
        }
        if self.at(&Token::Fn) {
            return self.parse_fn();
        }
        if self.at(&Token::Struct) {
            return self.parse_struct();
        }
        if self.at(&Token::Enum) {
            return self.parse_enum();
        }
        if self.at(&Token::Trait) {
            return self.parse_trait();
        }
        if self.at(&Token::Impl) {
            return self.parse_impl();
        }
        if self.at(&Token::Extern) {
            return self.parse_extern_fn();
        }
        if self.at(&Token::Macro) {
            return self.parse_macro();
        }
        if self.at(&Token::Import) {
            return self.parse_import();
        }
        if self.at(&Token::If) {
            return self.parse_if();
        }
        if self.at(&Token::While) {
            let (cond, body) = self.parse_while()?;
            return Ok(StmtKind::While { cond, body });
        }
        if self.at(&Token::For) {
            let (var, iter, body) = self.parse_for()?;
            return Ok(StmtKind::For { var, iter, body });
        }
        if self.at(&Token::Break) {
            let e = self.parse_jump()?;
            return Ok(StmtKind::Break(e));
        }
        if self.at(&Token::Continue) {
            let e = self.parse_jump()?;
            return Ok(StmtKind::Continue(e));
        }
        if self.at(&Token::Return) {
            let e = self.parse_jump()?;
            return Ok(StmtKind::Return(e));
        }
        self.parse_expr_stmt()
    }

    pub(crate) fn parse_expr_stmt(&mut self) -> (r: Result<StmtKind, Diagnostic>)
        requires
            old(self).wf(),
        ensures
            final(self).wf(),
            agrees(r, final(self)@, p_expr_stmt(old(self)@)),
            r is Ok ==> final(self)@.size() < old(self)@.size(),
        decreases old(self)@.size(), 14int, 0int,
    {
        assert(p_expr_stmt(self@) == rule_expr_stmt(self@));
        let e = self.parse_expr()?;
        if self.at(&Token::Assign) {
            return self.parse_assign(e);
        }
        if self.at(&Token::RBrace) || self.at(&Token::Eof) {
            return Ok(StmtKind::Return(Some(e)));
        }
        self.expect(Token::Semicolon)?;
        Ok(StmtKind::Expr(e))
    }

    pub(crate) fn parse_assign(&mut self, left: Expr) -> (r: Result<StmtKind, Diagnostic>)
        requires
            old(self).wf(),
            !old(self)@.at(Token::Eof),
        ensures
            final(self).wf(),
            agrees(r, final(self)@, p_assign(old(self)@, left@)),
            r is Ok ==> final(self)@.size() < old(self)@.size(),
        decreases old(self)@.size(), 0int, 0int,
    {
        assert(p_assign(self@, left@) == rule_assign(self@, left@));
        self.advance()?;
        let value = self.parse_expr()?;
        self.expect(Token::Semicolon)?;
        match into_name(left) {
            Some(name) => Ok(StmtKind::Assign { name, value }),
            None => Err(
                self.error("expected identifier on left side of assignment".to_owned()),
            ),
        }
    }

    pub(crate) fn parse_let(&mut self) -> (r: Result<StmtKind, Diagnostic>)
        requires
            old(self).wf(),
            !old(self)@.at(Token::Eof),
        ensures
            final(self).wf(),
            agrees(r, final(self)@, p_let(old(self)@)),
            r is Ok ==> final(self)@.size() < old(self)@.size(),
        decreases old(self)@.size(), 0int, 0int,
    {
        assert(p_let(self@) == rule_let(self@));
        self.advance()?;
        let name = self.expect_name("identifier after let")?;
        let ty = self.parse_type_after(Token::Colon, Type::Inferred)?;
        self.expect(Token::Assign)?;
        let value = self.parse_expr()?;
        self.expect(Token::Semicolon)?;
        Ok(StmtKind::Let { name, ty, value })
    }

    pub(crate) fn parse_fn(&mut self) -> (r: Result<StmtKind, Diagnostic>)
        requires
            old(self).wf(),
        ensures
            final(self).wf(),
            agrees(r, final(self)@, p_fn(old(self)@)),
            r is Ok ==> final(self)@.size() < old(self)@.size(),
        decreases old(self)@.size(), 0int, 0int,
    {
        assert(p_fn(self@) == rule_fn(self@));
        self.advance()?;
        let name = self.expect_name("fn name")?;
        let generics = self.parse_generics()?;
        let (params, ret) = self.parse_signature(true)?;
        let body = self.parse_body()?;
        Ok(StmtKind::Fn { name, generics, params, ret, body })
    }

    pub(crate) fn parse_impl(&mut self) -> (r: Result<StmtKind, Diagnostic>)
        requires
            old(self).wf(),
            !old(self)@.at(Token::Eof),
        ensures
            final(self).wf(),
            agrees(r, final(self)@, p_impl(old(self)@)),
            r is Ok ==> final(self)@.size() < old(self)@.size(),
        decreases old(self)@.size(), 0int, 0int,
    {
        assert(p_impl(self@) == rule_impl(self@));
        self.advance()?;
        let first = self.expect_name("name after impl")?;
        let (trait_name, for_type) = self.parse_impl_for(first)?;
        self.expect(Token::LBrace)?;
        let methods = self.parse_methods()?;
        self.expect(Token::RBrace)?;
        Ok(StmtKind::Impl { trait_name, for_type, methods })
    }

    pub(crate) fn parse_impl_for(&mut self, first: String) -> (r: Result<(String, String), Diagnostic>)
        requires
            old(self).wf(),
        ensures
            final(self).wf(),
            agrees(r, final(self)@, p_impl_for(old(self)@, first@)),
            r is Ok ==> final(self)@.size() <= old(self)@.size(),
    {
        if self.at(&Token::For) {
            self.advance()?;
            let for_type = self.expect_name("type name after for")?;
            return Ok((first, for_type));
        }
        let none = String::new();
        assert(none@ =~= Seq::empty());
        Ok((none, first))
    }

    pub(crate) fn parse_methods(&mut self) -> (r: Result<Vec<Stmt>, Diagnostic>)
        requires
            old(self).wf(),
        ensures
            final(self).wf(),
            agrees(r, final(self)@, p_methods(old(self)@, Seq::empty())),
            r is Ok ==> final(self)@.size() <= old(self)@.size(),
        decreases old(self)@.size(), 1int, 0int,
    {
        assert(p_methods(self@, Seq::empty()) == rule_methods(self@, Seq::empty()));
        let mut out: Vec<Stmt> = Vec::new();
        let ghost begin = self@;
        assert(stmts_view(out@) =~= Seq::empty());
        while !self.at(&Token::RBrace)
            invariant
                self.wf(),
                begin == old(self)@,
                self@.size() <= begin.size(),
                p_methods(self@, stmts_view(out@)) == p_methods(begin, Seq::empty()),
            decreases self@.size(),
        {
            assert(p_methods(self@, stmts_view(out@)) == rule_methods(self@, stmts_view(out@)));
            let span = self.here();
            let kind = self.parse_fn()?;
            out.push(Stmt::new(kind, span));
        }
        assert(p_methods(self@, stmts_view(out@)) == rule_methods(self@, stmts_view(out@)));
        Ok(out)
    }

    pub(crate) fn parse_macro(&mut self) -> (r: Result<StmtKind, Diagnostic>)
        requires
            old(self).wf(),
            !old(self)@.at(Token::Eof),
        ensures
            final(self).wf(),
            agrees(r, final(self)@, p_macro(old(self)@)),
            r is Ok ==> final(self)@.size() < old(self)@.size(),
        decreases old(self)@.size(), 0int, 0int,
    {
        assert(p_macro(self@) == rule_macro(self@));
        self.advance()?;
        let name = self.expect_name("macro name")?;
        self.expect(Token::LParen)?;
        let params = self.parse_names_until(Token::RParen, "macro param")?;
        self.expect(Token::RParen)?;
        let body = self.parse_body()?;
        Ok(StmtKind::Macro { name, params, body })
    }

    pub(crate) fn parse_if(&mut self) -> (r: Result<StmtKind, Diagnostic>)
        requires
            old(self).wf(),
            !old(self)@.at(Token::Eof),
        ensures
            final(self).wf(),
            agrees(r, final(self)@, p_if(old(self)@)),
            r is Ok ==> final(self)@.size() < old(self)@.size(),
        decreases old(self)@.size(), 0int, 0int,
    {
        assert(p_if(self@) == rule_if(self@));
        self.advance()?;
        let cond = self.parse_expr()?;
        let then_body = self.parse_body()?;
        let else_body = self.parse_else()?;
        Ok(StmtKind::If { cond, then_body, else_body })
    }

    pub(crate) fn parse_else(&mut self) -> (r: Result<Option<Vec<Stmt>>, Diagnostic>)
        requires
            old(self).wf(),
        ensures
            final(self).wf(),
            agrees(r, final(self)@, p_else(old(self)@)),
            r is Ok ==> final(self)@.size() <= old(self)@.size(),
        decreases old(self)@.size(), 0int, 0int,
    {
        assert(p_else(self@) == rule_else(self@));
        if !self.at(&Token::Else) {
            return Ok(None);
        }
        self.advance()?;
        if self.at(&Token::If) {
            let s = self.parse_stmt()?;
            let ghost sv = s@;
            let mut body: Vec<Stmt> = Vec::new();
            body.push(s);
            assert(stmts_view(body@) =~= seq![sv]);
            return Ok(Some(body));
        }
        let body = self.parse_body()?;
        Ok(Some(body))
    }

    pub(crate) fn parse_jump(&mut self) -> (r: Result<Option<Expr>, Diagnostic>)
        requires
            old(self).wf(),
            !old(self)@.at(Token::Eof),
        ensures
            final(self).wf(),
            agrees(r, final(self)@, p_jump(old(self)@)),
            r is Ok ==> final(self)@.size() < old(self)@.size(),
        decreases old(self)@.size(), 0int, 0int,
    {
        assert(p_jump(self@) == rule_jump(self@));
        self.advance()?;
        if self.at(&Token::Semicolon) {
            self.advance()?;
            return Ok(None);
        }
        let e = self.parse_expr()?;
        self.expect(Token::Semicolon)?;
        Ok(Some(e))
    }

    /// Parse statements up to the end of the text.
    pub fn parse_program(&mut self) -> (r: Result<Program, Diagnostic>)
        requires
            old(self).wf(),
        ensures
            match p_stmts_until(old(self)@, Token::Eof, Seq::empty()) {
                Ok((stmts, c)) => r is Ok && r->Ok_0@ == stmts && final(self)@ == c,
                Err(d) => r is Err && r->Err_0@ == d,
            },
    {
        let stmts = self.parse_stmts_until(Token::Eof)?;
        Ok(Program { stmts })
    }
}

} // verus!
