//! The parts of the library one by one, and the laws on concrete values.

use zarrinc::ast::{BinOp, ExprKind, Pattern, Program, StmtKind, Type, UnaryOp};
use zarrinc::builtins::{method_signature, signature};
use zarrinc::codegen_llvm::compile_to_module;
use zarrinc::diagnostic::{Diagnostic, Span};
use zarrinc::imports::{Import, Resolver};
use zarrinc::interp_state::{Action, Interpreter};
use zarrinc::ir::{Op as Code, Module, Room, Ty, Val};
use zarrinc::lexer::{Lexer, Token};
use zarrinc::macros::expand_macros_program;
use zarrinc::monomorphize::{expand, mangle};
use zarrinc::parser::{parse, Parser};
use zarrinc::primitives::{call_builtin, get_element, Builtin};
use zarrinc::text::{int_to_string, join, trim};
use zarrinc::typecheck::TypeChecker;
use zarrinc::types::{compatible, TypeError};
use zarrinc::value::{contains_str, eval_binop, eval_unop, split_str, value_to_string, Op, Value};
use zarrinc::variants::{Lookup, VariantIndex};

fn tokens(src: &str) -> Vec<(Token, Span)> {
    let mut lexer = Lexer::new(src);
    let mut out = Vec::new();
    loop {
        let (token, span) = lexer.next_token().unwrap();
        if token == Token::Eof {
            return out;
        }
        out.push((token, span));
    }
}

fn lex_error(src: &str) -> Diagnostic {
    let mut lexer = Lexer::new(src);
    loop {
        match lexer.next_token() {
            Ok((Token::Eof, _)) => panic!("no error in {:?}", src),
            Ok(_) => {}
            Err(d) => return d,
        }
    }
}

fn program(src: &str) -> Program {
    match parse(src) {
        Ok(p) => p,
        Err(d) => panic!("{}", d.render("t.zr", src)),
    }
}

fn check_message(src: &str) -> String {
    TypeChecker::check(&program(src)).unwrap_err().message
}

/// What a program without floats prints, and its failure if it has one, run in
/// slices of so many steps.
fn output(p: &Program, slice: u64) -> (Vec<String>, Option<Diagnostic>) {
    let mut machine = Interpreter::new(p);
    let mut out = Vec::new();
    loop {
        match machine.run(slice) {
            Action::Continue => {}
            Action::Print(line) => out.push(line),
            Action::Fail(d) => return (out, Some(d)),
            Action::Done => return (out, None),
            other => panic!("unexpected {:?}", other),
        }
    }
}

fn printed(src: &str) -> Vec<String> {
    let (out, failure) = output(&expand(&program(src)).unwrap(), 1_000_000);
    assert!(failure.is_none(), "{:?}", failure);
    out
}

fn failure(src: &str) -> Diagnostic {
    output(&expand(&program(src)).unwrap(), 1_000_000).1.unwrap()
}

fn done(o: Op) -> Value {
    match o {
        Op::Done(v) => v,
        other => panic!("{:?}", other),
    }
}

fn refused(o: Op) -> String {
    match o {
        Op::Fail(m) => m,
        other => panic!("{:?}", other),
    }
}

fn called(name: &str, vals: Vec<Value>) -> Value {
    match call_builtin(name, &vals) {
        Builtin::Done(v) => v,
        other => panic!("{:?}", other),
    }
}

fn call_fails(name: &str, vals: Vec<Value>) -> String {
    match call_builtin(name, &vals) {
        Builtin::Fail(m) => m,
        other => panic!("{:?}", other),
    }
}

fn text(s: &str) -> Value {
    Value::Str(s.to_string())
}

// ---- lexer ----

#[test]
fn every_token_has_its_position() {
    let ts = tokens("let x = 10\n  foo // gone\n\n\"s\"");
    let want = vec![
        (Token::Let, Span::new(1, 1)),
        (Token::Ident("x".to_string()), Span::new(1, 5)),
        (Token::Assign, Span::new(1, 7)),
        (Token::Int(10), Span::new(1, 9)),
        (Token::Ident("foo".to_string()), Span::new(2, 3)),
        (Token::Str("s".to_string()), Span::new(4, 1)),
    ];
    assert_eq!(ts, want);
}

#[test]
fn symbols_take_the_longest_match() {
    let ts: Vec<Token> = tokens("== = => != ! <= < >= > -> - && || | :: : .. .").into_iter().map(|t| t.0).collect();
    assert_eq!(
        ts,
        vec![
            Token::Eq,
            Token::Assign,
            Token::FatArrow,
            Token::Ne,
            Token::Bang,
            Token::Le,
            Token::Lt,
            Token::Ge,
            Token::Gt,
            Token::Arrow,
            Token::Minus,
            Token::AmpAmp,
            Token::PipePipe,
            Token::Pipe,
            Token::ColonColon,
            Token::Colon,
            Token::DotDot,
            Token::Dot,
        ]
    );
}

#[test]
fn words_may_hold_letters_of_any_script() {
    let ts = tokens("naïve été2 _x λ");
    let names: Vec<Token> = ts.into_iter().map(|t| t.0).collect();
    let want: Vec<Token> = ["naïve", "été2", "_x", "λ"].iter().map(|s| Token::Ident(s.to_string())).collect();
    assert_eq!(names, want);
    // a superscript is numeric but no letter: it may go on a word, not begin one
    assert_eq!(tokens("x²")[0].0, Token::Ident("x²".to_string()));
    assert_eq!(lex_error("²").message, "unexpected character `²`");
}

#[test]
fn a_number_before_two_dots_is_an_integer() {
    let ts: Vec<Token> = tokens("1..2 1.5 3.").into_iter().map(|t| t.0).collect();
    assert_eq!(
        ts,
        vec![
            Token::Int(1),
            Token::DotDot,
            Token::Int(2),
            Token::Float("1.5".to_string()),
            Token::Float("3.".to_string()),
        ]
    );
}

#[test]
fn the_largest_integer_literal_fits_and_the_next_does_not() {
    assert_eq!(tokens("9223372036854775807")[0].0, Token::Int(i64::MAX));
    let d = lex_error("\n 9223372036854775808");
    assert_eq!(d.message, "integer literal `9223372036854775808` does not fit in a 64-bit int");
    assert_eq!(d.span, Span::new(2, 2));
}

#[test]
fn a_written_string_reads_back() {
    let original = "a\"b\\c\nd\te\rf{g}h";
    let literal = "\"a\\\"b\\\\c\\nd\\te\\rf\\{g\\}h\"";
    assert_eq!(tokens(literal)[0].0, Token::Str(original.to_string()));
    // an unknown escape stands for itself
    assert_eq!(tokens("\"a\\0b\"")[0].0, Token::Str("a\\0b".to_string()));
    // an open brace starts an interpolation
    assert_eq!(tokens("\"a{b}\"")[0].0, Token::InterpStr("a{b}".to_string()));
}

#[test]
fn lexer_errors_say_what_is_wrong() {
    assert_eq!(lex_error("a & b").message, "unexpected `&`; did you mean `&&`?");
    assert_eq!(lex_error("a & b").span, Span::new(1, 3));
    assert_eq!(lex_error("x \"abc").message, "unterminated string literal");
    assert_eq!(lex_error("#").message, "unexpected character `#`");
}

// ---- diagnostics ----

#[test]
fn a_diagnostic_quotes_its_line_with_a_caret_below() {
    let d = Diagnostic::new("bad thing".to_string(), Span::new(2, 5));
    assert_eq!(
        d.render("f.zr", "one\nlet x = 1\n"),
        "error: bad thing\n --> f.zr:2:5\n  |\n2 | let x = 1\n  |     ^\n"
    );
}

#[test]
fn a_diagnostic_past_the_text_has_no_quote() {
    let d = Diagnostic::new("m".to_string(), Span::new(9, 1));
    assert_eq!(d.render("f.zr", "one\n"), "error: m\n --> f.zr:9:1\n");
}

// ---- parser ----

fn shape(e: &ExprKind) -> String {
    match e {
        ExprKind::Int(n) => format!("{}", n),
        ExprKind::Ident(n) => n.clone(),
        ExprKind::Binary(l, op, r) => format!("({} {:?} {})", shape(&l.kind), op, shape(&r.kind)),
        ExprKind::Unary(op, x) => format!("({:?} {})", op, shape(&x.kind)),
        ExprKind::Range(a, b) => format!("({}..{})", shape(&a.kind), shape(&b.kind)),
        other => format!("{:?}", other),
    }
}

fn expr(src: &str) -> String {
    shape(&Parser::new(src).unwrap().parse_expr().unwrap().kind)
}

#[test]
fn operators_bind_by_precedence_and_to_the_left() {
    assert_eq!(expr("1 + 2 * 3"), "(1 Add (2 Mul 3))");
    assert_eq!(expr("1 * 2 + 3"), "((1 Mul 2) Add 3)");
    assert_eq!(expr("1 - 2 - 3"), "((1 Sub 2) Sub 3)");
    assert_eq!(expr("8 / 4 % 3"), "((8 Div 4) Mod 3)");
    assert_eq!(expr("a || b && c"), "(a Or (b And c))");
    assert_eq!(expr("a == b && c < d"), "((a Eq b) And (c Lt d))");
    assert_eq!(expr("-a * b"), "((Neg a) Mul b)");
    assert_eq!(expr("!a == b"), "((Not a) Eq b)");
    assert_eq!(expr("(1 + 2) * 3"), "((1 Add 2) Mul 3)");
    assert_eq!(expr("a + 1 .. b * 2"), "((a Add 1)..(b Mul 2))");
}

#[test]
fn a_capital_letter_makes_a_pattern_a_variant() {
    let p = program("let r = match x { Ärger => 1, öl => 2 };");
    let StmtKind::Let { value, .. } = &p.stmts[0].kind else { panic!() };
    let ExprKind::Match { arms, .. } = &*value.kind else { panic!() };
    assert!(matches!(&arms[0].0[0], Pattern::EnumVariant { name, .. } if name == "Ärger"));
    assert!(matches!(&arms[1].0[0], Pattern::Variable(name) if name == "öl"));
}

#[test]
fn a_syntax_error_names_what_was_found() {
    let d = parse("let x 5").unwrap_err();
    assert_eq!(d.span, Span::new(1, 7));
    let d = parse("fn f( {").unwrap_err();
    assert_eq!(d.span.line, 1);
}

// ---- imports ----

fn asked(i: Import) -> Option<(String, usize)> {
    match i {
        Import::Read(path, file) => Some((path, file)),
        Import::Done => None,
    }
}

#[test]
fn imports_are_put_in_their_place_once() {
    let main = program("let a = 1;\nimport \"one.zr\";\nlet b = 2;\nimport \"one.zr\";\n");
    let mut r = Resolver::new(main);
    assert_eq!(asked(r.advance()), Some(("one.zr".to_string(), 0)));
    r.supply(program("let c = 3;\nimport \"two.zr\";\nlet d = 4;"));
    assert_eq!(asked(r.advance()), Some(("two.zr".to_string(), 1)));
    // a file that imports its importer ends there
    r.supply(program("import \"one.zr\";\nlet e = 5;"));
    assert_eq!(asked(r.advance()), None);
    let names: Vec<String> = r
        .finish()
        .stmts
        .iter()
        .map(|s| match &s.kind {
            StmtKind::Let { name, .. } => name.clone(),
            other => panic!("{:?}", other),
        })
        .collect();
    assert_eq!(names, ["a", "c", "e", "d", "b"]);
}

#[test]
fn a_program_without_imports_resolves_to_itself() {
    let src = "let a = 1;\nfn f() -> int { return 2; }\n";
    let mut r = Resolver::new(program(src));
    assert_eq!(asked(r.advance()), None);
    assert_eq!(r.finish().stmts, program(src).stmts);
}

// ---- types ----

#[test]
fn every_type_error_has_its_words() {
    let cases = [
        ("fn main() { print(y); }", "undefined variable: `y`"),
        ("fn main() { nope(1); }", "undefined function: `nope`"),
        ("fn main() { let p = Nope { x: 1 }; }", "undefined type: `Nope`"),
        ("struct P { x: int }\nimpl Nope for P { fn f(self) -> int { return 1; } }", "undefined trait: `Nope`"),
        ("fn main() { let x: int = true; }", "type mismatch: expected `int`, found `bool`"),
        ("struct P { x: int }\nfn main() { let p = P { x: 1 }; print(p.y); }", "type `P` has no field `y`"),
        ("fn f(a: int) -> int { return a; }\nfn main() { f(); }", "`f` expects 1 args, found 0"),
        (
            "enum A { V(int) }\nenum B { V(int) }\nfn main() { let x = V(1); }",
            "variant `V` is declared by `A` and `B`; rename one of them to disambiguate",
        ),
        (
            "enum A { X, Y }\nfn main() { let a = X; let n = match a { X => 1 }; }",
            "no matching pattern for some values: the match does not cover `Y`",
        ),
        (
            "fn main() { let n = match 3 { 1 => 1 }; }",
            "no matching pattern for some values: add a `_` arm",
        ),
        (
            "fn g<T>(n: int) -> int { return n; }\nfn main() { g(1); }",
            "cannot tell what `T` stands for in this call of `g`",
        ),
        (
            "extern fn puts(s: string) -> int;\nfn main() { puts(\"x\"); }",
            "`puts` is declared `extern`, and such functions cannot be called yet",
        ),
    ];
    for (src, want) in cases {
        assert_eq!(check_message(src), want, "{}", src);
    }
}

#[test]
fn a_missing_method_is_reported() {
    let m = check_message("trait S { fn show(self) -> string; }\nstruct P { x: int }\nimpl S for P { }");
    assert!(m.contains("show") && m.contains("P") && m.contains("S"), "{}", m);
}

#[test]
fn a_type_error_knows_its_text() {
    let e = TypeError::UndefinedVariable("q".to_string());
    assert_eq!(e.to_text(), "undefined variable: `q`");
    let e = TypeError::WrongArity { name: "f".to_string(), expected: 2, found: 3 };
    assert_eq!(e.to_text(), "`f` expects 2 args, found 3");
    let e = TypeError::Located(Diagnostic::new("inner".to_string(), Span::new(1, 1)));
    assert_eq!(e.to_text(), "inner");
}

#[test]
fn compatibility_is_reflexive_and_symmetric() {
    let ts = [
        Type::Int,
        Type::Inferred,
        Type::Array(Box::new(Type::String)),
        Type::Named("Option".to_string(), vec![Type::Float]),
        Type::Named("Option".to_string(), vec![]),
        Type::Fn(vec![Type::Int], Box::new(Type::Bool)),
    ];
    for a in &ts {
        assert!(compatible(a, a), "{:?}", a);
        for b in &ts {
            assert_eq!(compatible(a, b), compatible(b, a), "{:?} {:?}", a, b);
        }
    }
    assert!(!compatible(&Type::Int, &Type::Bool));
    assert!(compatible(&Type::Inferred, &Type::Bool));
}

#[test]
fn what_a_block_defines_ends_with_it() {
    assert_eq!(check_message("fn main() { if true { let x = 1; } print(x); }"), "undefined variable: `x`");
    assert_eq!(
        check_message("fn f(a: int) -> int { return a; }\nfn main() { print(a); }"),
        "undefined variable: `a`"
    );
    assert_eq!(
        check_message("enum A { V(int) }\nfn main() { let n = match V(1) { V(k) => k }; print(k); }"),
        "undefined variable: `k`"
    );
}

#[test]
fn builtins_have_signatures() {
    assert_eq!(signature("substring").unwrap().0, 3);
    assert_eq!(signature("len").unwrap(), (1, Type::Int));
    assert!(signature("nope").is_none());
    assert_eq!(
        method_signature("Option", &[Type::Float], "unwrap").unwrap(),
        (0, Type::Float)
    );
    assert!(method_signature("P", &[], "unwrap").is_none());
}

#[test]
fn a_shared_variant_name_is_ambiguous_and_a_path_is_not() {
    let idx = VariantIndex::build(&program("enum A { V, W }\nenum B { V }"));
    assert!(idx.is_enum("A") && idx.is_enum("B") && idx.is_enum("Option"));
    assert!(!idx.is_enum("V") && !idx.is_enum("C"));
    assert!(matches!(idx.lookup("V"), Lookup::Ambiguous(c) if c == ["A", "B"]));
    assert!(matches!(idx.lookup("A::V"), Lookup::Unique(v) if v.enum_name == "A" && v.tag == 0));
    assert!(matches!(idx.lookup("W"), Lookup::Unique(v) if v.tag == 1));
    assert!(matches!(idx.lookup("Z"), Lookup::Unknown));
    let names: Vec<String> = idx.variants_of("A").into_iter().map(|v| v.name).collect();
    assert_eq!(names, ["V", "W"]);
}

// ---- copies of generic functions ----

#[test]
fn a_copy_is_named_after_its_types() {
    assert_eq!(mangle("id", &vec![Type::String]), "id$string");
    assert_eq!(mangle("id", &vec![]), "id");
    assert_eq!(
        mangle("f", &vec![Type::Array(Box::new(Type::Int)), Type::Named("Option".to_string(), vec![Type::Float])]),
        "f$arr.int$Option.float"
    );
}

#[test]
fn originals_stay_and_copies_follow() {
    let src = "fn id<T>(x: T) -> T { return x; }\nfn main() { print(id(1)); print(id(\"a\")); print(id(2)); }\n";
    let before = program(src);
    let after = expand(&before).unwrap();
    let names: Vec<String> = after
        .stmts
        .iter()
        .map(|s| match &s.kind {
            StmtKind::Fn { name, .. } => name.clone(),
            other => panic!("{:?}", other),
        })
        .collect();
    assert_eq!(names, ["id", "main", "id$int", "id$string"]);
    assert_eq!(after.stmts[0], before.stmts[0]);
    assert_eq!(printed(src), ["1", "a", "2"]);
}

#[test]
fn a_program_without_generic_calls_is_unchanged() {
    let src = "fn f(a: int) -> int { return a + 1; }\nfn main() { print(f(1)); }\n";
    assert_eq!(expand(&program(src)).unwrap().stmts, program(src).stmts);
}

#[test]
fn a_rejected_program_is_rejected_with_the_checkers_words() {
    let p = program("fn main() { print(y); }");
    assert_eq!(expand(&p).unwrap_err(), TypeChecker::check(&p).unwrap_err());
}

#[test]
fn copies_without_end_are_reported() {
    let src = "fn f<T>(x: T, n: int) -> int { if n == 0 { return 0; } return f([x], n - 1); }\nfn main() { print(f(1, 3)); }\n";
    let d = expand(&program(src)).unwrap_err();
    assert!(d.message.starts_with("this call needs a new copy of the function every time it runs"), "{}", d.message);
}

#[test]
fn a_program_without_macros_unfolds_to_itself() {
    let src = "fn main() { let x = 1; while x < 3 { x = x + 1; } print(x); }\n";
    assert_eq!(expand_macros_program(&program(src)).stmts, program(src).stmts);
}

// ---- values ----

#[test]
fn integers_are_checked_and_division_goes_towards_zero() {
    let int = |a: i64, op: BinOp, b: i64| eval_binop(&Value::Int(a), op, &Value::Int(b));
    assert!(matches!(done(int(-7, BinOp::Div, 2)), Value::Int(-3)));
    assert!(matches!(done(int(-7, BinOp::Mod, 2)), Value::Int(-1)));
    assert!(matches!(done(int(7, BinOp::Div, -2)), Value::Int(-3)));
    assert!(matches!(done(int(7, BinOp::Mod, -2)), Value::Int(1)));
    assert!(matches!(done(int(i64::MAX, BinOp::Sub, 1)), Value::Int(9223372036854775806)));
    assert!(refused(int(i64::MAX, BinOp::Add, 1)).contains("overflowed"));
    assert!(refused(int(i64::MIN, BinOp::Div, -1)).contains("overflowed"));
    assert!(refused(int(1, BinOp::Div, 0)).contains("zero"));
    assert!(refused(int(1, BinOp::Mod, 0)).contains("zero"));
    assert!(matches!(done(eval_unop(UnaryOp::Neg, &Value::Int(5))), Value::Int(-5)));
    assert!(matches!(done(eval_unop(UnaryOp::Not, &Value::Bool(true))), Value::Bool(false)));
    assert!(refused(eval_unop(UnaryOp::Neg, &Value::Int(i64::MIN))).contains("overflowed"));
}

#[test]
fn float_arithmetic_is_left_to_the_host() {
    let o = eval_binop(&Value::Float("1.5".to_string()), BinOp::Mul, &Value::Float("2".to_string()));
    assert!(matches!(o, Op::FloatOp(BinOp::Mul, a, b) if a == "1.5" && b == "2"));
    let o = eval_unop(UnaryOp::Neg, &Value::Float("1.5".to_string()));
    assert!(matches!(o, Op::FloatNeg(a) if a == "1.5"));
}

#[test]
fn values_print_as_they_are_written() {
    let v = Value::EnumVariant {
        enum_name: "Option".to_string(),
        variant: "Some".to_string(),
        args: vec![Value::Int(-3)],
    };
    assert_eq!(value_to_string(&v), "Some(-3)");
    assert_eq!(value_to_string(&Value::Array(vec![Value::Int(1), text("a")])), "[1, a]");
    assert_eq!(value_to_string(&Value::Bool(true)), "true");
    assert_eq!(int_to_string(i64::MIN), "-9223372036854775808");
    assert_eq!(int_to_string(0), "0");
}

#[test]
fn splitting_and_joining_give_the_text_back() {
    for (s, d) in [("a,b,,c", ","), ("aXXbXXXc", "XX"), ("", ","), (",", ","), ("none", "-")] {
        let parts: Vec<String> = split_str(s, d)
            .into_iter()
            .map(|v| match v {
                Value::Str(t) => t,
                other => panic!("{:?}", other),
            })
            .collect();
        assert_eq!(join(&parts, d), s);
        let std_parts: Vec<&str> = s.split(d).collect();
        assert_eq!(parts, std_parts);
    }
    let chars: Vec<String> = split_str("ab", "").iter().map(value_to_string).collect();
    assert_eq!(chars, ["", "a", "b", ""]);
}

#[test]
fn white_space_of_any_kind_is_trimmed() {
    assert_eq!(trim(" \t\u{a0}\u{2003}hi there\u{3000}\n"), "hi there");
    assert_eq!(trim("\u{200b}x"), "\u{200b}x");
    assert_eq!(trim(&trim("  a  ")), "a");
    assert_eq!(trim("   "), "");
}

#[test]
fn strings_are_counted_in_characters() {
    assert!(matches!(called("len", vec![text("naïve")]), Value::Int(5)));
    let cut = called("substring", vec![text("naïve"), Value::Int(2), Value::Int(5)]);
    assert_eq!(value_to_string(&cut), "ïve");
    assert_eq!(value_to_string(&called("char_at", vec![text("naïve"), Value::Int(2)])), "ï");
    assert!(contains_str("naïve", "ïv"));
    assert!(!contains_str("naïve", "iv"));
    assert!(contains_str("x", ""));
    assert_eq!(
        call_fails("substring", vec![text("abc"), Value::Int(2), Value::Int(1)]),
        "substring start 2 is past end 1"
    );
    assert_eq!(
        call_fails("char_at", vec![text("abc"), Value::Int(3)]),
        "char_at index 3 is out of bounds for length 3"
    );
}

#[test]
fn an_array_gives_back_what_was_set() {
    let a = vec![Value::Int(1), Value::Int(2), Value::Int(3)];
    let set = called("array_set", vec![Value::Array(a), Value::Int(1), Value::Int(9)]);
    let Value::Array(now) = &set else { panic!() };
    assert!(matches!(get_element(now, 1), Ok(Value::Int(9))));
    assert!(matches!(get_element(now, 0), Ok(Value::Int(1))));
    assert!(matches!(get_element(now, 2), Ok(Value::Int(3))));
    assert_eq!(get_element(now, 3).unwrap_err(), "array index 3 is out of bounds for length 3");
    assert_eq!(get_element(now, -1).unwrap_err(), "array index -1 is out of bounds for length 3");
}

// ---- running ----

#[test]
fn how_a_run_is_sliced_does_not_matter() {
    let src = "fn f(n: int) -> int { if n < 2 { return n; } return f(n - 1) + f(n - 2); }\nfn main() { let i = 0; while i < 8 { print(f(i)); i = i + 1; } panic(\"end\"); }\n";
    let p = expand(&program(src)).unwrap();
    let whole = output(&p, 1_000_000);
    assert_eq!(whole.0, ["0", "1", "1", "2", "3", "5", "8", "13"]);
    assert_eq!(whole.1.as_ref().unwrap().message, "end");
    for slice in [1, 2, 7, 100] {
        let part = output(&p, slice);
        assert_eq!(part.0, whole.0);
        assert_eq!(part.1.unwrap().message, "end");
    }
}

#[test]
fn a_stopped_machine_stays_stopped() {
    let p = expand(&program("fn main() { print(1); }")).unwrap();
    let mut m = Interpreter::new(&p);
    assert!(matches!(m.run(1_000), Action::Print(line) if line == "1"));
    assert!(matches!(m.run(1_000), Action::Done));
    assert!(matches!(m.run(1_000), Action::Done));
    assert!(matches!(m.step(), Action::Done));
}

#[test]
fn a_failure_names_the_statement_that_was_running() {
    let d = failure("fn main() {\n    let a = [1];\n    print(a[0]);\n    print(a[5]);\n}\n");
    assert_eq!(d.span, Span::new(4, 5));
    assert_eq!(d.message, "array index 5 is out of bounds for length 1");
}

#[test]
fn assignment_reaches_outer_names_and_declaration_shadows() {
    assert_eq!(
        printed("fn main() { let x = 1; if true { let x = 2; x = 3; print(x); } print(x); if true { x = 4; } print(x); }"),
        ["3", "1", "4"]
    );
}

#[test]
fn a_callee_does_not_see_its_callers_locals() {
    let src = "let g = 7;\nfn f() -> int { return g; }\nfn main() { let g = 8; print(f()); print(g); }\n";
    assert_eq!(printed(src), ["7", "8"]);
}

#[test]
fn a_guard_that_turns_an_arm_down_goes_on_to_the_next() {
    let src = "enum E { A(int), B }\nfn f(e: E) -> int { return match e { A(n) if n > 5 => 1, A(n) if n > 3 => 2, A(_) => 3, B => 4 }; }\nfn main() { print(f(A(9))); print(f(A(4))); print(f(A(0))); print(f(B)); }\n";
    assert_eq!(printed(src), ["1", "2", "3", "4"]);
}

// ---- native code ----

#[test]
fn control_leaves_every_block_exactly_once() {
    let src = "fn f(n: int) -> int { while true { if n > 3 { return n; } n = n + 1; } return 0; }\nenum E { A(string), B }\nfn main() { let i = 0; for k in 0..5 { if k == 2 { continue; } if k == 4 { break; } i = i + f(k); } let e = A(\"x\" + \"y\"); match e { A(s) => print(s), B => print(i) } }\n";
    let m = compile_to_module(&expand(&program(src)).unwrap(), "t.zr", src).unwrap();
    assert!(m.done.len() > 5);
    for f in &m.done {
        assert_eq!(f.blocks[0].name, "entry");
        for b in 0..f.blocks.len() {
            let ops: Vec<&Code> = f.insts.iter().filter(|i| i.block == b).map(|i| &i.op).collect();
            assert!(ops.last().unwrap().leaves(), "{} of {} is open", f.blocks[b].name, f.name);
            assert_eq!(ops.iter().filter(|o| o.leaves()).count(), 1);
        }
    }
}

#[test]
fn a_block_that_was_left_takes_nothing_more() {
    let mut m = Module::new();
    m.begin("f", vec![Ty::Word], true);
    let s = m.slot(Room::Word, "x");
    assert_eq!(s, Val::Slot(0));
    m.emit(Code::Store(s, Val::Param(0)), "");
    let v = m.emit(Code::Load(Ty::Word, s), "v");
    assert_eq!(v, Val::Reg(1));
    m.emit(Code::Return(Some(v)), "");
    assert!(m.is_left());
    m.emit(Code::Neg(v), "late");
    let open = m.block("open");
    m.position(open);
    m.finish();
    assert_eq!(m.done[0].insts.len(), 4);
    assert!(matches!(m.done[0].insts[3].op, Code::Unreachable));
    assert_eq!(m.done[0].insts[3].block, open);
}

#[test]
fn native_code_that_cannot_be_made_is_refused() {
    // none of these passes the checker, but the last
    let cases = [
        ("fn main() { print(nope); }", "undefined var: nope"),
        ("fn main() { nope(1); }", "undefined function: nope"),
        ("fn main() { let b = -\"a\"; }", "cannot negate this value"),
        ("fn main() { let r = while true { break \"a\"; }; }", "a loop gives an int"),
    ];
    for (src, want) in cases {
        assert_eq!(compile_to_module(&program(src), "t.zr", src).unwrap_err(), want);
    }
}

#[test]
fn tokens_stand_where_their_first_character_does() {
    let src = "a // b c\n  / bb\t//\n\"x\ny\" d";
    let spans: Vec<Span> = tokens(src).into_iter().map(|t| t.1).collect();
    assert_eq!(
        spans,
        vec![Span::new(1, 1), Span::new(2, 3), Span::new(2, 5), Span::new(3, 1), Span::new(4, 4)],
    );
    assert_eq!(lex_error("x // y\n $").span, Span::new(2, 2));
}

#[test]
fn keywords_and_symbols_read_back() {
    let fixed = vec![
        ("let", Token::Let),
        ("continue", Token::Continue),
        ("in", Token::In),
        ("import", Token::Import),
        ("/", Token::Slash),
        ("=", Token::Assign),
        ("==", Token::Eq),
        ("=>", Token::FatArrow),
        ("..", Token::DotDot),
        ("||", Token::PipePipe),
        ("|", Token::Pipe),
    ];
    for (text, token) in fixed {
        assert_eq!(tokens(text), vec![(token, Span::new(1, 1))]);
    }
}

#[test]
fn an_added_enum_leaves_the_others_as_they_are() {
    let idx = VariantIndex::build(&program("enum A { V, W } enum B { V, X } enum C { V, Some }"));
    assert!(matches!(idx.lookup("W"), Lookup::Unique(v) if v.enum_name == "A"));
    assert!(matches!(idx.lookup("X"), Lookup::Unique(v) if v.enum_name == "B"));
    match idx.lookup("V") {
        Lookup::Ambiguous(names) => assert_eq!(names, vec!["A", "B", "C"]),
        other => panic!("{:?}", other),
    }
    match idx.lookup("Some") {
        Lookup::Ambiguous(names) => assert_eq!(names, vec!["Option", "C"]),
        other => panic!("{:?}", other),
    }
}

#[test]
fn a_call_leaves_its_callers_variables_alone() {
    let p = program(
        "let g = 1; fn f(x: int) -> int { let y = 5; g = g + x; if x > 1 { return y; } return x; } \
         fn main() { let x = 2; let y = 3; print(f(x) + f(1)); print(x); print(y); print(g); }",
    );
    assert_eq!(output(&p, 1).0, vec!["6", "2", "3", "4"]);
}
