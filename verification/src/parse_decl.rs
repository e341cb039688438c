//! Parsing of types, declarations without bodies, and patterns.

use crate::ast::{
    cases_view, methods_view, params_view, patterns_view, types_view, Expr, ExprKind, Pattern,
    StmtKind, TraitMethod, Type,
};
use crate::diagnostic::Diagnostic;
use crate::grammar::{
    p_alternatives, p_cases, p_enum, p_field_decls, p_foreign, p_generics, p_import, p_names_until,
    p_params, p_pattern, p_patterns_until, p_payload, p_signature, p_struct, p_trait,
    p_trait_methods, p_type, p_type_after, p_types_sep, p_types_until, p_variant,
};
use crate::lexer::Token;
use crate::text::{cat2, cat3, str_eq, texts};
use crate::parser::{agrees, is_fixed, starts_upper, Parser};
use vstd::prelude::*;

verus! {

broadcast use crate::ast::group_views;

impl Parser {
    pub(crate) fn parse_type(&mut self) -> (r: Result<Type, Diagnostic>)
        requires
            old(self).wf(),
        ensures
            final(self).wf(),
            agrees(r, final(self)@, p_type(old(self)@)),
            r is Ok ==> final(self)@.size() < old(self)@.size(),
        decreases old(self)@.size(), 1int,
    {
        match self.name_here() {
            Some(n) => {
                self.advance()?;
                if str_eq(n.as_str(), "int") {
                    return Ok(Type::Int);
                }
                if str_eq(n.as_str(), "float") {
                    return Ok(Type::Float);
                }
                if str_eq(n.as_str(), "bool") {
                    return Ok(Type::Bool);
                }
                if str_eq(n.as_str(), "string") {
                    return Ok(Type::String);
                }
                if str_eq(n.as_str(), "range") {
                    return Ok(Type::Range);
                }
                if self.at(&Token::Lt) {
                    self.advance()?;
                    let args = self.parse_types_until(Token::Gt)?;
                    self.expect(Token::Gt)?;
                    return Ok(Type::Named(n, args));
                }
                let none: Vec<Type> = Vec::new();
                assert(types_view(none@) =~= Seq::empty());
                return Ok(Type::Named(n, none));
            },
            None => {},
        }
        if self.at(&Token::LBrack) {
            self.advance()?;
            let el = self.parse_type()?;
            self.expect(Token::RBrack)?;
            return Ok(Type::Array(Box::new(el)));
        }
        if self.at(&Token::Fn) {
            self.advance()?;
            self.expect(Token::LParen)?;
            let params: Vec<Type> = if self.at(&Token::RParen) {
                let none: Vec<Type> = Vec::new();
                assert(types_view(none@) =~= Seq::empty());
                none
            } else {
                self.parse_types_sep()?
            };
            self.expect(Token::RParen)?;
            let ret = self.parse_type_after(Token::Arrow, Type::Unit)?;
            return Ok(Type::Fn(params, Box::new(ret)));
        }
        Err(
            self.error_at_prev(
                cat2("expected type, found ", self.describe_here().as_str()),
            ),
        )
    }

    pub(crate) fn parse_type_after(&mut self, mark: Token, default: Type) -> (r: Result<Type, Diagnostic>)
        requires
            old(self).wf(),
            is_fixed(mark),
            mark != Token::Eof,
        ensures
            final(self).wf(),
            agrees(r, final(self)@, p_type_after(old(self)@, mark, default@)),
            r is Ok ==> final(self)@.size() <= old(self)@.size(),
        decreases old(self)@.size(), 0int,
    {
        if self.at(&mark) {
            self.advance()?;
            self.parse_type()
        } else {
            Ok(default)
        }
    }

    pub(crate) fn parse_types_until(&mut self, close: Token) -> (r: Result<Vec<Type>, Diagnostic>)
        requires
            old(self).wf(),
            is_fixed(close),
            close != Token::Eof,
        ensures
            final(self).wf(),
            agrees(r, final(self)@, p_types_until(old(self)@, close, Seq::empty())),
            r is Ok ==> final(self)@.size() <= old(self)@.size(),
        decreases old(self)@.size(), 2int,
    {
        let mut out: Vec<Type> = Vec::new();
        let ghost begin = self@;
        assert(types_view(out@) =~= Seq::empty());
        while !self.at(&close)
            invariant
                self.wf(),
                is_fixed(close),
                begin == old(self)@,
                self@.size() <= begin.size(),
                p_types_until(self@, close, types_view(out@)) == p_types_until(begin, close, Seq::empty()),
            decreases self@.size(),
        {
            let item = self.parse_type()?;
            self.skip_comma()?;
            out.push(item);
        }
        Ok(out)
    }

    pub(crate) fn parse_types_sep(&mut self) -> (r: Result<Vec<Type>, Diagnostic>)
        requires
            old(self).wf(),
        ensures
            final(self).wf(),
            agrees(r, final(self)@, p_types_sep(old(self)@, Seq::empty())),
            r is Ok ==> final(self)@.size() < old(self)@.size(),
        decreases old(self)@.size(), 2int,
    {
        let mut out: Vec<Type> = Vec::new();
        let ghost begin = self@;
        assert(types_view(out@) =~= Seq::empty());
        loop
            invariant
                self.wf(),
                begin == old(self)@,
                self@.size() <= begin.size(),
                p_types_sep(self@, types_view(out@)) == p_types_sep(begin, Seq::empty()),
            decreases self@.size(),
        {
            let t = self.parse_type()?;
            out.push(t);
            if !self.at(&Token::Comma) {
                return Ok(out);
            }
            self.advance()?;
        }
    }

    pub(crate) fn parse_names_until(&mut self, close: Token, what: &str) -> (r: Result<
        Vec<String>,
        Diagnostic,
    >)
        requires
            old(self).wf(),
            is_fixed(close),
        ensures
            final(self).wf(),
            agrees(r, final(self)@, p_names_until(old(self)@, close, what@, Seq::empty())),
            r is Ok ==> final(self)@.size() <= old(self)@.size(),
    {
        let mut out: Vec<String> = Vec::new();
        let ghost begin = self@;
        assert(texts(out@) =~= Seq::empty());
        while !self.at(&close)
            invariant
                self.wf(),
                is_fixed(close),
                begin == old(self)@,
                self@.size() <= begin.size(),
                p_names_until(self@, close, what@, texts(out@)) == p_names_until(
                    begin,
                    close,
                    what@,
                    Seq::empty(),
                ),
            decreases self@.size(),
        {
            let n = self.expect_name(what)?;
            self.skip_comma()?;
            out.push(n);
        }
        Ok(out)
    }

    pub(crate) fn parse_generics(&mut self) -> (r: Result<Vec<String>, Diagnostic>)
        requires
            old(self).wf(),
        ensures
            final(self).wf(),
            agrees(r, final(self)@, p_generics(old(self)@)),
            r is Ok ==> final(self)@.size() <= old(self)@.size(),
    {
        if !self.at(&Token::Lt) {
            let none: Vec<String> = Vec::new();
            assert(texts(none@) =~= Seq::empty());
            return Ok(none);
        }
        self.advance()?;
        let generics = self.parse_names_until(Token::Gt, "generic name")?;
        self.expect(Token::Gt)?;
        Ok(generics)
    }

    pub(crate) fn parse_params(&mut self, with_self: bool) -> (r: Result<Vec<(String, Type)>, Diagnostic>)
        requires
            old(self).wf(),
        ensures
            final(self).wf(),
            agrees(r, final(self)@, p_params(old(self)@, with_self, Seq::empty())),
            r is Ok ==> final(self)@.size() < old(self)@.size(),
    {
        let mut out: Vec<(String, Type)> = Vec::new();
        let ghost begin = self@;
        assert(params_view(out@) =~= Seq::empty());
        loop
            invariant
                self.wf(),
                begin == old(self)@,
                self@.size() <= begin.size(),
                p_params(self@, with_self, params_view(out@)) == p_params(
                    begin,
                    with_self,
                    Seq::empty(),
                ),
            decreases self@.size(),
        {
            let name = self.expect_name("param name")?;
            let ty = if with_self && str_eq(name.as_str(), "self") {
                let none: Vec<Type> = Vec::new();
                assert(types_view(none@) =~= Seq::empty());
                Type::Named("Self".to_owned(), none)
            } else {
                self.expect(Token::Colon)?;
                self.parse_type()?
            };
            out.push((name, ty));
            if !self.at(&Token::Comma) {
                return Ok(out);
            }
            self.advance()?;
        }
    }

    pub(crate) fn parse_signature(&mut self, with_self: bool) -> (r: Result<(Vec<(String, Type)>, Type), Diagnostic>)
        requires
            old(self).wf(),
        ensures
            final(self).wf(),
            agrees(r, final(self)@, p_signature(old(self)@, with_self)),
            r is Ok ==> final(self)@.size() < old(self)@.size(),
    {
        self.expect(Token::LParen)?;
        let params: Vec<(String, Type)> = if self.at(&Token::RParen) {
            let none: Vec<(String, Type)> = Vec::new();
            assert(params_view(none@) =~= Seq::empty());
            none
        } else {
            self.parse_params(with_self)?
        };
        self.expect(Token::RParen)?;
        let ret = self.parse_type_after(Token::Arrow, Type::Unit)?;
        Ok((params, ret))
    }

    pub(crate) fn parse_field_decls(&mut self) -> (r: Result<Vec<(String, Type)>, Diagnostic>)
        requires
            old(self).wf(),
        ensures
            final(self).wf(),
            agrees(r, final(self)@, p_field_decls(old(self)@, Seq::empty())),
            r is Ok ==> final(self)@.size() <= old(self)@.size(),
    {
        let mut out: Vec<(String, Type)> = Vec::new();
        let ghost begin = self@;
        assert(params_view(out@) =~= Seq::empty());
        while !self.at(&Token::RBrace)
            invariant
                self.wf(),
                begin == old(self)@,
                self@.size() <= begin.size(),
                p_field_decls(self@, params_view(out@)) == p_field_decls(begin, Seq::empty()),
            decreases self@.size(),
        {
            let name = self.expect_name("field name")?;
            self.expect(Token::Colon)?;
            let ty = self.parse_type()?;
            self.skip_comma()?;
            out.push((name, ty));
        }
        Ok(out)
    }

    pub(crate) fn parse_cases(&mut self) -> (r: Result<Vec<(String, Vec<Type>)>, Diagnostic>)
        requires
            old(self).wf(),
        ensures
            final(self).wf(),
            agrees(r, final(self)@, p_cases(old(self)@, Seq::empty())),
            r is Ok ==> final(self)@.size() <= old(self)@.size(),
    {
        let mut out: Vec<(String, Vec<Type>)> = Vec::new();
        let ghost begin = self@;
        assert(cases_view(out@) =~= Seq::empty());
        while !self.at(&Token::RBrace)
            invariant
                self.wf(),
                begin == old(self)@,
                self@.size() <= begin.size(),
                p_cases(self@, cases_view(out@)) == p_cases(begin, Seq::empty()),
            decreases self@.size(),
        {
            let name = self.expect_name("variant name")?;
            let payload = self.parse_payload()?;
            self.skip_comma()?;
            out.push((name, payload));
        }
        Ok(out)
    }

    pub(crate) fn parse_payload(&mut self) -> (r: Result<Vec<Type>, Diagnostic>)
        requires
            old(self).wf(),
        ensures
            final(self).wf(),
            agrees(r, final(self)@, p_payload(old(self)@)),
            r is Ok ==> final(self)@.size() <= old(self)@.size(),
    {
        if !self.at(&Token::LParen) {
            let none: Vec<Type> = Vec::new();
            assert(types_view(none@) =~= Seq::empty());
            return Ok(none);
        }
        self.advance()?;
        let args = self.parse_types_until(Token::RParen)?;
        self.expect(Token::RParen)?;
        Ok(args)
    }

    pub(crate) fn parse_trait_methods(&mut self) -> (r: Result<Vec<TraitMethod>, Diagnostic>)
        requires
            old(self).wf(),
        ensures
            final(self).wf(),
            agrees(r, final(self)@, p_trait_methods(old(self)@, Seq::empty())),
            r is Ok ==> final(self)@.size() <= old(self)@.size(),
    {
        let mut out: Vec<TraitMethod> = Vec::new();
        let ghost begin = self@;
        assert(methods_view(out@) =~= Seq::empty());
        while !self.at(&Token::RBrace)
            invariant
                self.wf(),
                begin == old(self)@,
                self@.size() <= begin.size(),
                p_trait_methods(self@, methods_view(out@)) == p_trait_methods(begin, Seq::empty()),
            decreases self@.size(),
        {
            self.expect(Token::Fn)?;
            let name = self.expect_name("method name")?;
            let (params, ret) = self.parse_signature(true)?;
            self.expect(Token::Semicolon)?;
            out.push(TraitMethod { name, params, ret });
        }
        Ok(out)
    }

    pub(crate) fn parse_struct(&mut self) -> (r: Result<StmtKind, Diagnostic>)
        requires
            old(self).wf(),
            !old(self)@.at(Token::Eof),
        ensures
            final(self).wf(),
            agrees(r, final(self)@, p_struct(old(self)@)),
            r is Ok ==> final(self)@.size() < old(self)@.size(),
    {
        self.advance()?;
        let name = self.expect_name("struct name")?;
        let generics = self.parse_generics()?;
        self.expect(Token::LBrace)?;
        let fields = self.parse_field_decls()?;
        self.expect(Token::RBrace)?;
        Ok(StmtKind::Struct { name, generics, fields })
    }

    pub(crate) fn parse_enum(&mut self) -> (r: Result<StmtKind, Diagnostic>)
        requires
            old(self).wf(),
            !old(self)@.at(Token::Eof),
        ensures
            final(self).wf(),
            agrees(r, final(self)@, p_enum(old(self)@)),
            r is Ok ==> final(self)@.size() < old(self)@.size(),
    {
        self.advance()?;
        let name = self.expect_name("enum name")?;
        self.expect(Token::LBrace)?;
        let variants = self.parse_cases()?;
        self.expect(Token::RBrace)?;
        Ok(StmtKind::Enum { name, variants })
    }

    pub(crate) fn parse_trait(&mut self) -> (r: Result<StmtKind, Diagnostic>)
        requires
            old(self).wf(),
            !old(self)@.at(Token::Eof),
        ensures
            final(self).wf(),
            agrees(r, final(self)@, p_trait(old(self)@)),
            r is Ok ==> final(self)@.size() < old(self)@.size(),
    {
        self.advance()?;
        let name = self.expect_name("trait name")?;
        self.expect(Token::LBrace)?;
        let methods = self.parse_trait_methods()?;
        self.expect(Token::RBrace)?;
        Ok(StmtKind::Trait { name, methods })
    }

    pub(crate) fn parse_extern_fn(&mut self) -> (r: Result<StmtKind, Diagnostic>)
        requires
            old(self).wf(),
            !old(self)@.at(Token::Eof),
        ensures
            final(self).wf(),
            agrees(r, final(self)@, p_foreign(old(self)@)),
            r is Ok ==> final(self)@.size() < old(self)@.size(),
    {
        self.advance()?;
        if self.at_string() {
            self.advance()?;
        }
        self.expect(Token::Fn)?;
        let name = self.expect_name("fn name")?;
        let (params, ret) = self.parse_signature(false)?;
        self.expect(Token::Semicolon)?;
        Ok(StmtKind::ExternFn { name, params, ret })
    }

    pub(crate) fn parse_import(&mut self) -> (r: Result<StmtKind, Diagnostic>)
        requires
            old(self).wf(),
            !old(self)@.at(Token::Eof),
        ensures
            final(self).wf(),
            agrees(r, final(self)@, p_import(old(self)@)),
            r is Ok ==> final(self)@.size() < old(self)@.size(),
    {
        self.advance()?;
        let path = match self.literal_here() {
            Some(ExprKind::Str(path)) => path,
            _ => {
                return Err(
                    self.error_at_prev(
                        cat2(
                            "expected string path after import, found ",
                            self.describe_here().as_str(),
                        ),
                    ),
                );
            },
        };
        self.advance()?;
        self.expect(Token::Semicolon)?;
        Ok(StmtKind::Import(path))
    }

    pub(crate) fn parse_pattern(&mut self) -> (r: Result<Pattern, Diagnostic>)
        requires
            old(self).wf(),
        ensures
            final(self).wf(),
            agrees(r, final(self)@, p_pattern(old(self)@)),
            r is Ok ==> final(self)@.size() < old(self)@.size(),
        decreases old(self)@.size(), 1int,
    {
        let span = self.here();
        match self.name_here() {
            Some(name) => {
                self.advance()?;
                if str_eq(name.as_str(), "_") {
                    return Ok(Pattern::Wildcard);
                }
                if self.at(&Token::ColonColon) {
                    self.advance()?;
                    match self.name_here() {
                        Some(variant) => {
                            self.advance()?;
                            let full = cat3(name.as_str(), "::", variant.as_str());
                            return self.parse_variant(full, true);
                        },
                        None => {},
                    }
                }
                let upper = starts_upper(name.as_str());
                return self.parse_variant(name, upper);
            },
            None => {},
        }
        let kind = match self.literal_here() {
            Some(ExprKind::Int(n)) => ExprKind::Int(n),
            Some(ExprKind::Str(t)) => ExprKind::Str(t),
            Some(ExprKind::Bool(b)) => ExprKind::Bool(b),
            _ => {
                return Err(
                    self.error(
                        cat2("unexpected token in pattern: ", self.describe_here().as_str()),
                    ),
                );
            },
        };
        self.advance()?;
        Ok(Pattern::Literal(Expr::new(kind, span)))
    }

    pub(crate) fn parse_variant(&mut self, name: String, is_variant: bool) -> (r: Result<Pattern, Diagnostic>)
        requires
            old(self).wf(),
        ensures
            final(self).wf(),
            agrees(r, final(self)@, p_variant(old(self)@, name@, is_variant)),
            r is Ok ==> final(self)@.size() <= old(self)@.size(),
        decreases old(self)@.size(), 0int,
    {
        if self.at(&Token::LParen) {
            self.advance()?;
            let inner = self.parse_patterns_until()?;
            self.expect(Token::RParen)?;
            return Ok(Pattern::EnumVariant { name, inner });
        }
        if is_variant {
            let inner: Vec<Pattern> = Vec::new();
            assert(patterns_view(inner@) =~= Seq::empty());
            return Ok(Pattern::EnumVariant { name, inner });
        }
        Ok(Pattern::Variable(name))
    }

    pub(crate) fn parse_patterns_until(&mut self) -> (r: Result<Vec<Pattern>, Diagnostic>)
        requires
            old(self).wf(),
        ensures
            final(self).wf(),
            agrees(r, final(self)@, p_patterns_until(old(self)@, Seq::empty())),
            r is Ok ==> final(self)@.size() <= old(self)@.size(),
        decreases old(self)@.size(), 2int,
    {
        let mut out: Vec<Pattern> = Vec::new();
        let ghost begin = self@;
        assert(patterns_view(out@) =~= Seq::empty());
        while !self.at(&Token::RParen)
            invariant
                self.wf(),
                begin == old(self)@,
                self@.size() <= begin.size(),
                p_patterns_until(self@, patterns_view(out@)) == p_patterns_until(begin, Seq::empty()),
            decreases self@.size(),
        {
            let item = self.parse_pattern()?;
            self.skip_comma()?;
            out.push(item);
        }
        Ok(out)
    }

    pub(crate) fn parse_alternatives(&mut self) -> (r: Result<Vec<Pattern>, Diagnostic>)
        requires
            old(self).wf(),
        ensures
            final(self).wf(),
            agrees(r, final(self)@, p_alternatives(old(self)@, Seq::empty())),
            r is Ok ==> final(self)@.size() < old(self)@.size(),
    {
        let mut out: Vec<Pattern> = Vec::new();
        let ghost begin = self@;
        assert(patterns_view(out@) =~= Seq::empty());
        loop
            invariant
                self.wf(),
                begin == old(self)@,
                self@.size() <= begin.size(),
                p_alternatives(self@, patterns_view(out@)) == p_alternatives(begin, Seq::empty()),
            decreases self@.size(),
        {
            let p = self.parse_pattern()?;
            out.push(p);
            if !self.at(&Token::Pipe) {
                return Ok(out);
            }
            self.advance()?;
        }
    }
}

} // verus!
