//! Whole programs: from source text to what they print, or how they fail.

use std::time::{SystemTime, UNIX_EPOCH};
use zarrinc::ast::BinOp;
use zarrinc::interp_state::{Action, Interpreter};
use zarrinc::monomorphize::expand;
use zarrinc::parser::parse;
use zarrinc::typecheck::TypeChecker;
use zarrinc::value::Value;

struct RunResult {
    stdout: String,
    stderr: String,
    success: bool,
}

impl RunResult {
    fn lines(&self) -> Vec<&str> {
        self.stdout.lines().collect()
    }
}

fn number(text: &str) -> f64 {
    text.parse().unwrap()
}

fn float(x: f64) -> Value {
    Value::Float(format!("{}", x))
}

fn float_op(op: BinOp, a: f64, b: f64) -> Value {
    match op {
        BinOp::Add => float(a + b),
        BinOp::Sub => float(a - b),
        BinOp::Mul => float(a * b),
        BinOp::Div => float(a / b),
        BinOp::Mod => float(a % b),
        BinOp::Eq => Value::Bool(a == b),
        BinOp::Ne => Value::Bool(a != b),
        BinOp::Lt => Value::Bool(a < b),
        BinOp::Le => Value::Bool(a <= b),
        BinOp::Gt => Value::Bool(a > b),
        BinOp::Ge => Value::Bool(a >= b),
        BinOp::And | BinOp::Or => unreachable!(),
    }
}

/// Run a program that checks, doing what it asks of its host.
fn interpret(program: &zarrinc::ast::Program, src: &str) -> RunResult {
    let mut r = RunResult { stdout: String::new(), stderr: String::new(), success: true };
    let mut machine = Interpreter::new(program);
    loop {
        match machine.run(1_000_000) {
            Action::Continue => {}
            Action::Print(line) => {
                r.stdout.push_str(&line);
                r.stdout.push('\n');
            }
            Action::Fail(d) => {
                r.stderr = d.render("prog.zr", src);
                r.success = false;
                return r;
            }
            Action::Done => return r,
            Action::FloatLit(t) => machine.answer(float(number(&t))),
            Action::FloatNeg(t) => machine.answer(float(-number(&t))),
            Action::FloatOp(op, a, b) => machine.answer(float_op(op, number(&a), number(&b))),
            Action::Clock => {
                let now = SystemTime::now().duration_since(UNIX_EPOCH).unwrap();
                machine.answer(Value::Int(now.as_millis() as i64))
            }
            Action::Sleep(_) => machine.answer(Value::Unit),
        }
    }
}

fn failed(stderr: String) -> RunResult {
    RunResult { stdout: String::new(), stderr, success: false }
}

/// What the command does with a program.
fn zarrinc(cmd: &str, src: &str) -> RunResult {
    let program = match parse(src) {
        Ok(p) => p,
        Err(d) => return failed(d.render("prog.zr", src)),
    };
    match cmd {
        "run" => match expand(&program) {
            Ok(p) => interpret(&p, src),
            Err(d) => failed(d.render("prog.zr", src)),
        },
        "check" => match TypeChecker::check(&program) {
            Ok(()) => RunResult { stdout: "OK\n".to_string(), stderr: String::new(), success: true },
            Err(d) => failed(d.render("prog.zr", src)),
        },
        _ => RunResult { stdout: format!("{:#?}\n", program), stderr: String::new(), success: true },
    }
}

fn run(src: &str) -> RunResult {
    zarrinc("run", src)
}

/// The program runs to completion and prints exactly these lines.
fn assert_output(src: &str, expected: &[&str]) {
    let r = run(src);
    assert!(r.success, "program failed unexpectedly:\n{}", r.stderr);
    assert_eq!(r.lines().as_slice(), expected, "\nstderr was:\n{}", r.stderr);
}

/// The program aborts, and `needle` appears in the diagnostic.
fn assert_run_fails(src: &str, needle: &str) {
    let r = run(src);
    assert!(!r.success, "expected the program to fail; it printed:\n{}", r.stdout);
    assert!(
        r.stderr.contains(needle),
        "diagnostic did not mention {:?}; stderr was:\n{}",
        needle,
        r.stderr
    );
}

fn assert_checks(src: &str) {
    let r = zarrinc("check", src);
    assert!(r.success, "expected the program to type-check:\n{}", r.stderr);
}

fn assert_check_error(src: &str, needle: &str) {
    let r = zarrinc("check", src);
    assert!(!r.success, "expected a type error; got:\n{}", r.stdout);
    assert!(
        r.stderr.contains(needle),
        "type error did not mention {:?}; stderr was:\n{}",
        needle,
        r.stderr
    );
}

/// The program is rejected with a diagnostic mentioning `needle`, pointing at
/// `line:col`, and underlining that column.
fn assert_diagnostic(src: &str, needle: &str, line: u32, col: u32) {
    assert_diagnostic_from("run", src, needle, line, col)
}

fn assert_diagnostic_from(cmd: &str, src: &str, needle: &str, line: u32, col: u32) {
    let r = zarrinc(cmd, src);
    assert!(!r.success, "expected a syntax error; got:\n{}", r.stdout);
    let err = &r.stderr;
    assert!(err.contains(needle), "message {:?} not in:\n{}", needle, err);
    assert!(
        err.contains(&format!(":{}:{}", line, col)),
        "expected position {}:{} in:\n{}",
        line, col, err
    );
    assert!(err.starts_with("error: "), "not rendered as a diagnostic:\n{}", err);
    let caret = err.lines().last().unwrap_or_default();
    let at = caret.find('^').unwrap_or_else(|| panic!("no caret in:\n{}", err));
    let gutter = caret.find('|').unwrap_or_else(|| panic!("no gutter in:\n{}", err));
    assert_eq!(
        at - gutter - 2,
        (col - 1) as usize,
        "caret is not under column {}:\n{}",
        col, err
    );
}

#[test]
fn unexpected_character() {
    assert_diagnostic("fn f(x: int) -> int {\n    return x @ 1;\n}\n", "unexpected character `@`", 2, 14);
}

#[test]
fn ampersand_suggests_and_and() {
    assert_diagnostic("fn main() {\n    let a = 1 & 2;\n}\n", "did you mean `&&`", 2, 15);
}

#[test]
fn unterminated_string_is_rejected() {
    assert_diagnostic("fn main() {\n    let s = \"oops;\n}\n", "unterminated string literal", 2, 13);
}

#[test]
fn oversized_integer_literal_is_rejected() {
    assert_diagnostic(
        "fn main() {\n    let n = 99999999999999999999;\n}\n",
        "does not fit in a 64-bit int",
        2,
        13,
    );
}

#[test]
fn parse_error_points_at_the_offending_token() {
    assert_diagnostic("fn main() {\n    let 5 = x;\n}\n", "expected identifier after let, found `5`", 2, 9);
}

#[test]
fn missing_token_names_what_was_expected() {
    assert_diagnostic("fn main() {\n    let x = 1\n    print(x);\n}\n", "expected `;`, found `print`", 3, 5);
}

#[test]
fn error_inside_an_interpolated_expression_points_at_the_string() {
    assert_diagnostic(
        "fn main() {\n    print(\"v = {1 +}\");\n}\n",
        "in interpolated expression `1 +`",
        2,
        11,
    );
}

#[test]
fn positions_survive_comments_and_blank_lines() {
    let src = "// a comment\n\nfn main() {\n    // another\n\n    let a = 1 & 2;\n}\n";
    assert_diagnostic(src, "did you mean `&&`", 6, 15);
}

#[test]
fn the_quoted_line_is_the_source_line() {
    let r = zarrinc("run", "fn main() {\n    let a = 1 & 2;\n}\n");
    assert!(r.stderr.contains("let a = 1 & 2;"), "source line not quoted:\n{}", r.stderr);
}

#[test]
fn runtime_failures_are_not_rust_panics() {
    let r = zarrinc("run", "fn main() {\n    nope(1);\n}\n");
    assert!(!r.success);
    assert!(r.stderr.starts_with("error: "), "not a clean error:\n{}", r.stderr);
    assert!(
        !r.stderr.contains("panicked at") && !r.stderr.contains("RUST_BACKTRACE"),
        "Rust panic internals leaked:\n{}",
        r.stderr
    );
}

#[test]
fn type_errors_report_a_position() {
    assert_diagnostic_from(
        "check",
        "fn f(x: int) -> int {\n    return x;\n}\n\nfn main() {\n    let a = 1;\n    let b = f(\"nope\");\n}\n",
        "type mismatch",
        7,
        5,
    );
}

#[test]
fn a_type_error_points_at_the_innermost_statement() {
    assert_diagnostic_from(
        "check",
        "fn main() {\n    let i = 0;\n    while i < 3 {\n        let z = nothing;\n    }\n}\n",
        "undefined variable",
        4,
        9,
    );
}

#[test]
fn run_reports_type_errors_with_a_position_too() {
    assert_diagnostic(
        "fn f(x: int) -> int {\n    return x;\n}\nfn main() {\n    let b = f(\"nope\");\n}\n",
        "type mismatch",
        5,
        5,
    );
}

#[test]
fn runtime_failures_report_a_position() {
    assert_diagnostic(
        "enum C { R, G }\nfn main() {\n    let c = G;\n    let v = match c { R => 1 };\n}\n",
        "no matching pattern",
        4,
        5,
    );
}

#[test]
fn unwrapping_none_reports_a_position() {
    assert_diagnostic("fn main() {\n    let o = None;\n    print(o.unwrap());\n}\n", "unwrap() called on None", 3, 5);
}

#[test]
fn an_out_of_bounds_index_is_our_error_not_rusts() {
    assert_diagnostic(
        "fn main() {\n    let a = [1, 2, 3];\n    print(a[10]);\n}\n",
        "array index 10 is out of bounds for length 3",
        3,
        5,
    );
}

#[test]
fn substring_bounds_are_checked() {
    assert_diagnostic("fn main() {\n    print(substring(\"hello\", 2, 99));\n}\n", "out of bounds", 2, 5);
}

#[test]
fn a_failure_inside_a_function_points_into_that_function() {
    assert_diagnostic(
        "fn boom(a: int) -> int {\n    let xs = [1];\n    return xs[a];\n}\nfn main() {\n    print(boom(5));\n}\n",
        "out of bounds",
        3,
        5,
    );
}

#[test]
fn comparison_binds_tighter_than_logical_and() {
    assert_output(
        r#"fn main() { let a = 1; let b = 2; print(a == 1 && b == 2); }"#,
        &["true"],
    );
}

#[test]
fn or_binds_looser_than_and() {
    assert_output(
        r#"fn main() { print(true || false && false); print(false && true || true); }"#,
        &["true", "true"],
    );
}

#[test]
fn arithmetic_binds_tighter_than_comparison() {
    assert_output(
        r#"fn main() { print(2 + 3 * 4 == 14); print(10 % 3 == 1); print(1 + 2 == 3); }"#,
        &["true", "true", "true"],
    );
}

#[test]
fn mixed_precedence_tree_shape() {
    let r = zarrinc("emit-ast", "let z = a == 1 && b == 2 || c;");
    let flat: String = r.stdout.chars().filter(|c| !c.is_whitespace()).collect();
    let shape = regex_lite_strip(&flat);
    let expected = "Binary(Binary(Binary(Ident(\"a\",),Eq,Int(1,),),And,\
Binary(Ident(\"b\",),Eq,Int(2,),),),Or,Ident(\"c\",),)";
    assert!(
        shape.contains(expected),
        "precedence tree changed.\n  expected to contain: {}\n  got: {}",
        expected,
        shape
    );
}

fn regex_lite_strip(s: &str) -> String {
    let mut out = s.replace("Expr{kind:", "");
    loop {
        let Some(i) = out.find(",span:Span{") else { break };
        let Some(rel) = out[i..].find("},}") else { break };
        out.replace_range(i..i + rel + 3, "");
    }
    out
}

#[test]
fn top_level_lets_are_visible_everywhere() {
    assert_output(
        r#"
let g = 42;
fn show() { print(g); }
fn main() { print(g); show(); }
"#,
        &["42", "42"],
    );
}

#[test]
fn functions_can_mutate_a_global() {
    assert_output(
        r#"
let counter = 0;
fn bump(x: int) -> int { counter = counter + x; return counter; }
fn main() { print(bump(5)); print(bump(3)); print(counter); }
"#,
        &["5", "8", "8"],
    );
}

#[test]
fn a_callee_cannot_see_its_callers_locals() {
    assert_run_fails(
        r#"
fn helper() { print(secret); }
fn main() { let secret = 99; helper(); }
"#,
        "undefined variable",
    );
}

#[test]
fn assignment_updates_the_outer_binding_not_a_shadow() {
    assert_output(
        r#"
fn main() {
    let i = 0;
    while i < 3 { i = i + 1; }
    print(i);
    let total = 0;
    for k in 0..4 { total = total + k; }
    print(total);
}
"#,
        &["3", "6"],
    );
}

#[test]
fn block_locals_do_not_leak() {
    assert_run_fails(
        r#"fn main() { if true { let inner = 5; } print(inner); }"#,
        "undefined variable",
    );
}

#[test]
fn loop_variable_does_not_leak() {
    assert_run_fails(
        r#"fn main() { for k in 0..3 { print(k); } print(k); }"#,
        "undefined variable",
    );
}

#[test]
fn match_bindings_are_scoped_to_their_arm() {
    assert_output(
        r#"
enum E { A(int), B(int) }
fn main() {
    let e = A(5);
    let r = match e { A(n) if n > 100 => 1, A(n) => n + 1, _ => 0 };
    print(r);
}
"#,
        &["6"],
    );
}

#[test]
fn recursion_gets_distinct_frames() {
    assert_output(
        r#"
fn fact(n: int) -> int {
    if n <= 1 { return 1; }
    return n * fact(n - 1);
}
fn main() { print(fact(10)); }
"#,
        &["3628800"],
    );
}

#[test]
fn method_self_is_scoped_to_the_method() {
    assert_run_fails(
        r#"
struct P { x: int, y: int }
impl P { fn sum(self) -> int { return self.x + self.y; } }
fn main() { let p = P { x: 3, y: 4 }; print(p.sum()); print(self); }
"#,
        "undefined variable",
    );
}

#[test]
fn continue_inside_an_if_skips_the_rest_of_the_body() {
    assert_output(
        r#"
fn main() {
    let i = 0;
    while i < 4 {
        i = i + 1;
        if i == 2 { continue; print("LEAKED"); }
        print(i);
    }
}
"#,
        &["1", "3", "4"],
    );
}

#[test]
fn continue_propagates_through_nested_ifs() {
    assert_output(
        r#"
fn main() {
    let i = 0;
    while i < 5 {
        i = i + 1;
        if i == 2 { if i > 1 { continue; } print("LEAKED"); }
        print(i);
    }
}
"#,
        &["1", "3", "4", "5"],
    );
}

#[test]
fn continue_works_in_a_while_expression() {
    assert_output(
        r#"
fn main() {
    let i = 0;
    let r = while i < 4 { i = i + 1; continue; print("LEAKED"); };
    print(i);
}
"#,
        &["4"],
    );
}

#[test]
fn continue_works_in_a_for_expression() {
    assert_output(
        r#"
fn main() {
    let r = for k in 0..3 { continue; print("LEAKED"); };
    print("done");
}
"#,
        &["done"],
    );
}

#[test]
fn break_and_return_still_escape_from_inside_an_if() {
    assert_output(
        r#"
fn f(n: int) -> int {
    let i = 0;
    while i < 10 { i = i + 1; if i == n { return i * 100; } }
    return 0;
}
fn main() {
    let i = 0;
    while i < 10 { i = i + 1; if i > 3 { break; } print(i); }
    print(f(3));
    print(f(99));
}
"#,
        &["1", "2", "3", "300", "0"],
    );
}

#[test]
fn break_and_continue_bind_to_the_innermost_loop() {
    assert_output(
        r#"
fn main() {
    for a in 0..3 {
        for b in 0..3 {
            if b == 1 { continue; }
            if b == 2 { break; }
            print(a * 10 + b);
        }
    }
}
"#,
        &["0", "10", "20"],
    );
}

const AMBIGUOUS: &str = r#"
enum A { Foo(int) }
enum B { Foo(int) }
fn takesA(x: A) -> int { return 1; }
fn main() { let v = takesA(Foo(1)); print(v); }
"#;

#[test]
fn ambiguous_variant_is_reported_not_guessed() {
    assert_check_error(AMBIGUOUS, "declared by");
}

#[test]
fn variant_resolution_is_deterministic() {
    let message = |src: &str| {
        zarrinc("check", src)
            .stderr
            .lines()
            .next()
            .unwrap_or_default()
            .to_string()
    };
    let first = message(AMBIGUOUS);
    assert!(first.contains("declared by"), "unexpected first run: {}", first);
    for i in 0..20 {
        assert_eq!(first, message(AMBIGUOUS), "run {} disagreed with the first run", i);
    }
}

#[test]
fn qualified_patterns_match() {
    assert_output(
        r#"
enum C { R, G }
fn main() {
    let c = R;
    print(match c { C::R => 1, C::G => 2, _ => 99 });
    let d = G;
    print(match d { C::R => 1, C::G => 2, _ => 99 });
}
"#,
        &["1", "2"],
    );
}

#[test]
fn builtin_option_payload_accepts_any_type() {
    assert_output(r#"fn main() { let a = Some(5); print(a.is_some()); }"#, &["true"]);
    let r = zarrinc("check", r#"fn main() { let a = Some(5); }"#);
    assert!(r.success, "Some(5) should type-check:\n{}", r.stderr);
}

#[test]
fn arithmetic_and_strings() {
    assert_output(
        r#"
fn main() {
    print(7 / 2);
    print(-3 + 1);
    print("a" + "b");
    print(len("hello"));
    print(trim("  hi  "));
}
"#,
        &["3", "-2", "ab", "5", "hi"],
    );
}

#[test]
fn string_interpolation() {
    assert_output(r#"fn main() { let n = 5; print("n is {n}"); }"#, &["n is 5"]);
}

#[test]
fn structs_and_methods() {
    assert_output(
        r#"
struct P { x: int, y: int }
impl P { fn sum(self) -> int { return self.x + self.y; } }
fn main() { let p = P { x: 3, y: 4 }; print(p.x); print(p.sum()); }
"#,
        &["3", "7"],
    );
}

#[test]
fn enums_and_match_with_payloads() {
    assert_output(
        r#"
enum Shape { Circle(int), Rect(int, int) }
fn area(s: Shape) -> int {
    return match s { Circle(r) => 3 * r * r, Rect(w, h) => w * h };
}
fn main() { print(area(Circle(2))); print(area(Rect(3, 4))); }
"#,
        &["12", "12"],
    );
}

#[test]
fn arrays_and_indexing() {
    assert_output(
        r#"fn main() { let a = [10, 20, 30]; print(a[1]); print(len(a)); }"#,
        &["20", "3"],
    );
}

#[test]
fn macros_expand() {
    assert_output(
        r#"
macro double(x) { return x + x; }
fn main() { print(double(21)); }
"#,
        &["42"],
    );
}

#[test]
fn multi_pattern_arms_and_guards() {
    assert_output(
        r#"
fn classify(n: int) -> string {
    return match n {
        0 | 1 => "small",
        x if x > 100 => "huge",
        _ => "middling",
    };
}
fn main() { print(classify(0)); print(classify(1)); print(classify(500)); print(classify(7)); }
"#,
        &["small", "small", "huge", "middling"],
    );
}

#[test]
fn type_checker_accepts_the_simple_examples() {
    assert_checks(r#"fn square(x: int) -> int { return x * x; } fn main() { print(square(3)); }"#);
}

#[test]
fn type_checker_rejects_a_real_mismatch() {
    assert_check_error(
        r#"fn f(x: int) -> int { return x; } fn main() { let a = f("nope"); }"#,
        "type mismatch",
    );
}

#[test]
fn unknown_function_is_reported() {
    assert_run_fails(r#"fn main() { nope(1); }"#, "undefined function");
}

#[test]
fn a_forgotten_semicolon_is_an_error_not_an_early_return() {
    let r = run("fn main() {\n    print(\"a\")\n    print(\"b\");\n    print(\"c\");\n}\n");
    assert!(!r.success, "accepted a missing semicolon; printed:\n{}", r.stdout);
    assert!(r.stderr.contains("expected `;`"), "wrong diagnostic:\n{}", r.stderr);
    assert!(!r.stdout.contains('a'), "program ran before failing:\n{}", r.stdout);
}

#[test]
fn a_trailing_expression_is_still_the_value_of_its_block() {
    assert_output("fn double(x: int) -> int {\n    x * 2\n}\nfn main() { print(double(21)); }\n", &["42"]);
    assert_output("fn main() {\n    let r = if true { 100 } else { 0 };\n    print(r);\n}\n", &["100"]);
    assert_output("fn main() {\n    let v = match 2 { 1 => 10, _ => 20 };\n    print(v);\n}\n", &["20"]);
}

#[test]
fn a_trailing_expression_at_top_level_is_allowed() {
    let r = run("fn f() -> int { return 7; }\nprint(f())\n");
    assert!(r.success, "rejected a top-level trailing expression:\n{}", r.stderr);
    assert_eq!(r.lines().as_slice(), &["7"]);
}

#[test]
fn operators_in_a_chain_bind_as_they_do_in_pairs() {
    assert_output("fn main() { print(1 + 2 * 3 - 4 - 5 * 6 / 2); print(10 - 3 - 2 - 1); }\n", &["-12", "4"]);
    assert_output("fn main() { print(false && true || 1 + 1 == 2 && 7 - 2 * 3 < 2); }\n", &["true"]);
}

#[test]
fn a_callee_does_not_see_its_callers_variables_at_any_time() {
    assert_output(
        "let g = 5;\nfn f(x: int) -> int { let y = x; let i = 0; while i < 2 { y = y + g; i = i + 1; } return y; }\nfn main() { let g = 100; let y = 1; print(f(1)); print(g + y); }\n",
        &["11", "101"],
    );
}

#[test]
fn a_trailing_expression_at_top_level_leaves_main_whole() {
    assert_output("fn f() { print(7); }\nfn main() { print(1); print(2); }\nf()\n", &["7", "1", "2"]);
}

#[test]
fn escapes_produce_real_characters() {
    assert_output("fn main() { print(\"a\\nb\"); }\n", &["a", "b"]);
    assert_output("fn main() { print(len(\"a\\nb\")); }\n", &["3"]);
    assert_output("fn main() { print(\"x\\ty\"); }\n", &["x\ty"]);
    assert_output("fn main() { print(\"q\\\"d\"); }\n", &["q\"d"]);
    assert_output("fn main() { print(\"b\\\\s\"); }\n", &["b\\s"]);
}

#[test]
fn braces_can_be_escaped_in_an_interpolated_string() {
    assert_output("fn main() { let n = 5; print(\"\\{ {n} \\}\"); }\n", &["{ 5 }"]);
    assert_output("fn main() { print(\"\\{plain\\}\"); }\n", &["{plain}"]);
}

#[test]
fn a_carriage_return_escape_works() {
    assert_output("fn main() { print(len(\"a\\rb\")); }\n", &["3"]);
}

#[test]
fn a_struct_prints_its_fields_in_declaration_order() {
    let src = "struct P { x: int, y: int, z: int }\n\
               fn main() { print(P { z: 3, x: 1, y: 2 }); }\n";
    assert_output(src, &["P { x: 1, y: 2, z: 3 }"]);
}

#[test]
fn the_field_order_is_the_same_every_run() {
    let src = "struct Wide { alpha: int, beta: int, gamma: int, delta: int }\n\
               fn main() { print(Wide { alpha: 1, beta: 2, gamma: 3, delta: 4 }); }\n";
    let want = &["Wide { alpha: 1, beta: 2, gamma: 3, delta: 4 }"];
    for _ in 0..8 {
        assert_output(src, want);
    }
}

#[test]
fn strings_can_be_ordered() {
    assert_output(
        "fn main() { print(\"a\" < \"b\"); print(\"b\" <= \"a\"); print(\"abc\" > \"ab\"); }\n",
        &["true", "false", "true"],
    );
}

#[test]
fn break_ends_a_while_loop() {
    assert_output(
        "fn main() {\n\
         \x20   let i = 0;\n\
         \x20   while i < 5 {\n\
         \x20       print(i);\n\
         \x20       i = i + 1;\n\
         \x20       break;\n\
         \x20   }\n\
         \x20   print(\"after\");\n}\n",
        &["0", "after"],
    );
}

#[test]
fn break_ends_a_for_loop() {
    assert_output(
        "fn main() {\n\
         \x20   for j in 0..5 {\n\
         \x20       if j == 2 { break; }\n\
         \x20       print(j);\n\
         \x20   }\n\
         \x20   print(\"after\");\n}\n",
        &["0", "1", "after"],
    );
}

#[test]
fn break_ends_only_the_loop_it_is_in() {
    assert_output(
        "fn main() {\n\
         \x20   for a in 0..2 {\n\
         \x20       for b in 0..3 {\n\
         \x20           if b == 1 { break; }\n\
         \x20           print(a * 10 + b);\n\
         \x20       }\n\
         \x20   }\n\
         \x20   print(\"after\");\n}\n",
        &["0", "10", "after"],
    );
}

#[test]
fn break_ends_a_loop_over_an_array() {
    assert_output(
        "fn main() {\n\
         \x20   for s in [\"a\", \"b\", \"c\"] {\n\
         \x20       if s == \"b\" { break; }\n\
         \x20       print(s);\n\
         \x20   }\n\
         \x20   print(\"after\");\n}\n",
        &["a", "after"],
    );
}

#[test]
fn a_while_expression_takes_the_first_break_value() {
    assert_output(
        "fn main() {\n\
         \x20   let n = 0;\n\
         \x20   let w = while n < 100 {\n\
         \x20       n = n + 1;\n\
         \x20       break n * 2;\n\
         \x20   };\n\
         \x20   print(w);\n\
         \x20   print(n);\n}\n",
        &["2", "1"],
    );
}

#[test]
fn continue_still_skips_the_rest_of_the_body() {
    assert_output(
        "fn main() {\n\
         \x20   for i in 0..5 {\n\
         \x20       if i % 2 == 0 { continue; }\n\
         \x20       print(i);\n\
         \x20   }\n}\n",
        &["1", "3"],
    );
}

#[test]
fn dividing_by_zero_points_at_the_statement() {
    let r = run("fn main() {\n    let n = 0;\n    print(7 / n);\n}\n");
    assert!(!r.success, "expected the program to fail; it printed:\n{}", r.stdout);
    assert!(r.stderr.contains("division by zero"), "stderr was:\n{}", r.stderr);
    assert!(r.stderr.contains("--> "), "no position in the diagnostic:\n{}", r.stderr);
    assert!(r.stderr.contains("3 |"), "wrong line in the diagnostic:\n{}", r.stderr);
}

#[test]
fn remainder_by_zero_points_at_the_statement() {
    let r = run("fn main() {\n    let n = 0;\n    print(7 % n);\n}\n");
    assert!(!r.success, "expected the program to fail; it printed:\n{}", r.stdout);
    assert!(r.stderr.contains("remainder by zero"), "stderr was:\n{}", r.stderr);
    assert!(r.stderr.contains("--> "), "no position in the diagnostic:\n{}", r.stderr);
}

#[test]
fn division_that_can_be_done_still_is() {
    assert_output(
        "fn main() { print(7 / 2); print(0 - 7 / 2); print(7 % 3); print(1.0 / 0.0); }\n",
        &["3", "-3", "1", "inf"],
    );
}

#[test]
fn overflowing_addition_points_at_the_statement() {
    let r = run("fn main() {\n    print(9223372036854775807 + 1);\n}\n");
    assert!(!r.success, "expected the program to fail; it printed:\n{}", r.stdout);
    assert!(r.stderr.contains("addition overflowed"), "stderr was:\n{}", r.stderr);
    assert!(r.stderr.contains("--> "), "no position in the diagnostic:\n{}", r.stderr);
}

#[test]
fn overflowing_subtraction_and_multiplication_are_caught() {
    assert_run_fails(
        "fn main() { print(0 - 9223372036854775807 - 2); }\n",
        "subtraction overflowed",
    );
    assert_run_fails(
        "fn main() { print(4611686018427387904 * 4); }\n",
        "multiplication overflowed",
    );
}

#[test]
fn the_one_division_that_overflows_is_caught() {
    assert_run_fails(
        "fn main() {\n    let m = 0 - 9223372036854775807 - 1;\n    let d = 0 - 1;\n    print(m / d);\n}\n",
        "division overflowed",
    );
}

#[test]
fn arithmetic_that_fits_is_untouched() {
    assert_output(
        "fn main() {\n\
         \x20   print(2 + 3 * 4 - 1);\n\
         \x20   print(9223372036854775807);\n\
         \x20   print(0 - 9223372036854775807);\n\
         \x20   print(9223372036854775806 + 1);\n}\n",
        &["13", "9223372036854775807", "-9223372036854775807", "9223372036854775807"],
    );
}

#[test]
fn len_counts_characters() {
    assert_output(
        "fn main() { print(len(\"héllo\")); print(len(\"日本語\")); print(len(\"abc\")); print(len(\"\")); }\n",
        &["5", "3", "3", "0"],
    );
}

#[test]
fn substring_takes_character_indices() {
    assert_output(
        "fn main() {\n\
         \x20   print(substring(\"héllo\", 0, 2));\n\
         \x20   print(substring(\"héllo\", 1, 3));\n\
         \x20   print(substring(\"日本語\", 1, 3));\n\
         \x20   print(substring(\"héllo\", 0, len(\"héllo\")));\n}\n",
        &["hé", "él", "本語", "héllo"],
    );
}

#[test]
fn walking_a_string_by_index_rebuilds_it() {
    assert_output(
        "fn main() {\n\
         \x20   let s = \"aébc\";\n\
         \x20   let out = \"\";\n\
         \x20   let i = 0;\n\
         \x20   while i < len(s) { out = out + char_at(s, i); i = i + 1; }\n\
         \x20   print(out);\n}\n",
        &["aébc"],
    );
}

#[test]
fn char_at_past_the_end_is_an_error() {
    assert_run_fails("fn main() { print(char_at(\"abc\", 3)); }\n", "char_at index 3 is out of bounds");
    assert_run_fails("fn main() { print(char_at(\"\", 0)); }\n", "char_at index 0 is out of bounds");
}

#[test]
fn floats_compare() {
    assert_output(
        "fn main() {\n\
         \x20   print(1.0 == 1.0); print(1.0 != 2.0);\n\
         \x20   print(1.0 < 2.0); print(2.0 <= 2.0);\n\
         \x20   print(3.0 > 2.0); print(2.0 >= 3.0);\n}\n",
        &["true", "true", "true", "true", "true", "false"],
    );
}

#[test]
fn floats_have_a_remainder() {
    assert_output("fn main() { print(2.5 % 1.0); print(7.5 % 2.0); }\n", &["0.5", "1.5"]);
}

#[test]
fn not_on_an_integer_answers_with_a_bool() {
    assert_output("fn main() { print(!0); print(!1); print(!true); }\n", &["true", "false", "false"]);
}

#[test]
fn and_or_need_something_that_can_be_true_or_false() {
    assert_check_error("fn main() { print(1.0 && 2.0); }\n", "expected `bool`, found `float`");
    assert_check_error("fn main() { print(\"a\" || \"b\"); }\n", "expected `bool`, found `string`");
    assert_checks("fn main() { print(1 && 0); print(true || false); }\n");
}

const BUILTIN_NAMES: &[&str] = &[
    "print", "panic", "len", "to_string", "int_to_str", "substring", "contains",
    "split", "trim", "char_at", "array_len", "array_get", "array_set",
];

#[test]
fn every_builtin_is_known_to_the_checker() {
    let calls = [
        ("print", r#"print(1);"#),
        ("panic", r#"if false { panic("x"); }"#),
        ("len", r#"let a = len("hi");"#),
        ("to_string", r#"let a = to_string(1);"#),
        ("int_to_str", r#"let a = int_to_str(1);"#),
        ("substring", r#"let a = substring("hello", 1, 3);"#),
        ("contains", r#"let a = contains("hello", "ell");"#),
        ("split", r#"let a = split("a,b", ",");"#),
        ("trim", r#"let a = trim("  x  ");"#),
        ("char_at", r#"let a = char_at("abc", 1);"#),
        ("array_len", r#"let a = array_len([1, 2]);"#),
        ("array_get", r#"let a = array_get([1, 2], 0);"#),
        ("array_set", r#"let a = array_set([1, 2], 0, 9);"#),
    ];
    let covered: Vec<&str> = calls.iter().map(|(n, _)| *n).collect();
    for name in BUILTIN_NAMES {
        assert!(covered.contains(name), "builtin `{}` has no test call", name);
    }
    for (name, call) in calls {
        let src = format!("fn main() {{ {} }}", call);
        let r = zarrinc("check", &src);
        assert!(r.success, "builtin `{}` rejected by the checker:\n{}", name, r.stderr);
    }
}

#[test]
fn builtin_arity_is_enforced() {
    assert_check_error(r#"fn main() { let a = substring("abc", 1); }"#, "expects 3 args");
    assert_check_error(r#"fn main() { print(1, 2); }"#, "expects 1 args");
}

#[test]
fn option_and_result_methods_are_known() {
    assert_checks(r#"fn main() { let a = Some(5); let b = a.unwrap(); let c = a.is_some(); }"#);
    assert_checks(r#"fn main() { let a = Ok(5); let b = a.is_ok(); let c = a.is_err(); }"#);
}

#[test]
fn string_interpolation_type_checks() {
    assert_checks(r#"fn main() { let n = 5; print("n is {n}"); }"#);
}

#[test]
fn inherent_impl_is_accepted() {
    assert_checks(
        r#"
struct P { x: int, y: int }
impl P { fn sum(self) -> int { return self.x + self.y; } }
fn main() { let p = P { x: 1, y: 2 }; print(p.sum()); }
"#,
    );
}

#[test]
fn a_missing_trait_method_is_still_reported() {
    assert_check_error(
        r#"
struct P { x: int }
trait Show { fn show(self) -> string; }
impl Show for P { }
fn main() { }
"#,
        "missing method",
    );
}

#[test]
fn an_undefined_trait_is_still_reported() {
    assert_check_error(
        r#"
struct P { x: int }
impl Nope for P { fn f(self) -> int { return 1; } }
fn main() { }
"#,
        "undefined trait",
    );
}

#[test]
fn macro_calls_type_check() {
    assert_checks(r#"macro double(x) { return x + x; } fn main() { print(double(21)); }"#);
    assert_check_error(
        r#"macro double(x) { return x + x; } fn main() { print(double(1, 2)); }"#,
        "expects 1 args",
    );
}

#[test]
fn run_rejects_a_program_that_does_not_type_check() {
    let r = zarrinc("run", r#"fn f(x: int) -> int { return x; } fn main() { f("nope"); }"#);
    assert!(!r.success, "run executed an ill-typed program:\n{}", r.stdout);
    assert!(r.stderr.contains("type mismatch"), "not a type error:\n{}", r.stderr);
}

#[test]
fn run_reports_the_error_before_executing_anything() {
    let r = zarrinc("run", r#"fn main() { print("side effect"); let x = nothing; }"#);
    assert!(!r.success);
    assert!(
        !r.stdout.contains("side effect"),
        "program ran before failing the check:\n{}",
        r.stdout
    );
}

#[test]
fn checker_block_scoping_matches_the_interpreter() {
    assert_check_error(r#"fn main() { if true { let inner = 5; } print(inner); }"#, "undefined variable");
    assert_check_error(r#"fn main() { while false { let w = 1; } print(w); }"#, "undefined variable");
    assert_check_error(r#"fn main() { for k in 0..3 { } print(k); }"#, "undefined variable");
    assert_check_error(
        r#"enum E { A(int) } fn main() { let e = A(1); let r = match e { A(n) => n }; print(n); }"#,
        "undefined variable",
    );
}

#[test]
fn well_typed_programs_still_run() {
    assert_output(
        r#"
struct P { x: int, y: int }
impl P { fn sum(self) -> int { return self.x + self.y; } }
enum Shape { Circle(int) }
macro twice(n) { return n * 2; }
fn main() {
    let p = P { x: 3, y: 4 };
    print(p.sum());
    print(twice(5));
    print(len("hello"));
    let s = Circle(2);
    print(match s { Circle(r) => r * r });
    let o = Some(9);
    print(o.unwrap());
    print("done {p.x}");
}
"#,
        &["7", "10", "5", "4", "9", "done 3"],
    );
}

#[test]
fn a_match_missing_variants_names_them() {
    assert_check_error(
        "enum C { R, G, B }\nfn f(c: C) -> int { return match c { R => 1 }; }\nfn main() { print(f(R)); }\n",
        "does not cover `G`, `B`",
    );
}

#[test]
fn covering_every_variant_needs_no_wildcard() {
    assert_checks("enum C { R, G, B }\nfn f(c: C) -> int { return match c { R => 1, G => 2, B => 3 }; }\nfn main() { print(f(R)); }\n");
    assert_checks("fn f(o: Option) -> int { return match o { Some(v) => v, None => 0 }; }\nfn main() { print(f(None)); }\n");
}

#[test]
fn a_match_on_a_scalar_needs_a_catch_all() {
    assert_check_error(
        "fn f(n: int) -> int { return match n { 0 => 10, 1 => 20 }; }\nfn main() { print(f(0)); }\n",
        "add a `_` arm",
    );
    assert_checks("fn f(n: int) -> int { return match n { 0 => 10, _ => 20 }; }\nfn main() { print(f(0)); }\n");
}

#[test]
fn a_guarded_arm_covers_nothing() {
    assert_check_error(
        "fn f(n: int) -> int { return match n { 0 => 7, x if x > 10 => 1 }; }\nfn main() { print(f(0)); }\n",
        "add a `_` arm",
    );
    assert_checks("fn f(n: int) -> int { return match n { 0 => 7, x if x > 10 => 1, _ => 0 }; }\nfn main() { print(f(0)); }\n");
}

#[test]
fn a_variant_is_only_covered_when_its_payload_is_bound() {
    assert_check_error(
        "enum S { C(int), R(int, int) }\nfn f(s: S) -> int { return match s { C(0) => 1, R(w, h) => w * h }; }\nfn main() { print(f(C(1))); }\n",
        "does not cover `C`",
    );
    assert_checks(
        "enum S { C(int), R(int, int) }\nfn f(s: S) -> int { return match s { C(r) => r, R(w, h) => w * h }; }\nfn main() { print(f(C(1))); }\n",
    );
}

#[test]
fn both_booleans_or_a_catch_all() {
    assert_checks("fn f(b: bool) -> int { return match b { true => 1, false => 0 }; }\nfn main() { print(f(true)); }\n");
    assert_check_error(
        "fn f(b: bool) -> int { return match b { true => 1 }; }\nfn main() { print(f(true)); }\n",
        "does not cover `false`",
    );
}

#[test]
fn an_unknown_scrutinee_type_is_left_alone() {
    assert_checks("fn main() { let a = [1, 2]; let v = match array_get(a, 0) { 5 => 10, 6 => 20 }; }\n");
}

#[test]
fn an_option_remembers_its_payload_type() {
    assert_check_error(
        "fn take(o: Option<int>) -> int { return 0; }\n\
         fn main() { print(take(Some(\"s\"))); }\n",
        "expected `Option<int>`, found `Option<string>`",
    );
}

#[test]
fn a_bare_option_still_accepts_any_payload() {
    assert_checks(
        "fn take(o: Option) -> int { return 0; }\n\
         fn main() { print(take(Some(1.5))); print(take(Some(\"s\"))); print(take(None)); }\n",
    );
}

#[test]
fn a_result_carries_two_payload_types() {
    assert_checks(
        "fn f(n: int) -> Result<int, string> {\n\
         \x20   if n > 0 { return Ok(n); }\n\
         \x20   return Err(\"negative\");\n}\n\
         fn main() { print(f(1)); }\n",
    );
    assert_check_error(
        "fn f(n: int) -> Result<int, string> { return Ok(\"wrong\"); }\n\
         fn main() { print(f(1)); }\n",
        "Result<int, string>",
    );
}

#[test]
fn unwrap_has_the_payload_type() {
    assert_check_error(
        "fn main() { let n: int = Some(1.5).unwrap(); print(n); }\n",
        "expected `int`, found `float`",
    );
}

#[test]
fn a_type_error_names_types_the_way_they_are_written() {
    assert_check_error("fn main() { let x: int = \"s\"; }\n", "expected `int`, found `string`");
    assert_check_error("fn main() { let x: int = [1]; }\n", "expected `int`, found `[int]`");
}

#[test]
fn a_range_is_not_an_integer() {
    assert_check_error("fn main() { let n: int = 1..4; print(n); }\n", "expected `int`, found `range`");
    assert_checks("fn span(n: int) -> range {\n    return 0..n;\n}\nfn main() { print(span(2)); }\n");
}

#[test]
fn a_for_loop_says_what_it_can_walk() {
    assert_check_error(
        "fn main() { for x in \"nope\" { print(x); } }\n",
        "expected `range, array or int`, found `string`",
    );
    assert_checks("fn main() { for x in 0..3 { print(x); } for y in [1, 2] { print(y); } for z in 3 { print(z); } }\n");
}

#[test]
fn a_loop_variable_has_the_element_type() {
    assert_check_error(
        "fn main() { for s in [\"a\"] { let n: int = s; print(n); } }\n",
        "expected `int`, found `string`",
    );
}

#[test]
fn an_extern_function_cannot_be_called_yet() {
    assert_check_error(
        "extern fn abs(n: int) -> int;\nfn main() { print(abs(0 - 5)); }\n",
        "declared `extern`",
    );
    assert_checks("extern fn abs(n: int) -> int;\nfn main() { print(1); }\n");
}

const ID: &str = "fn id<T>(x: T) -> T {\n    return x;\n}\n";

#[test]
fn one_generic_function_serves_several_types() {
    assert_output(
        &format!("{ID}fn main() {{ print(id(5)); print(id(\"hi\")); print(id(2.5)); print(id(true)); }}\n"),
        &["5", "hi", "2.5", "true"],
    );
}

#[test]
fn type_parameters_are_inferred_per_call() {
    let src = "fn fst<A, B>(a: A, b: B) -> A {\n    return a;\n}\n\
               fn main() { print(fst(1, \"x\")); print(fst(\"y\", 3)); }\n";
    assert_output(src, &["1", "y"]);
}

#[test]
fn one_type_parameter_cannot_stand_for_two_types() {
    let src = "fn same<T>(a: T, b: T) -> T {\n    return a;\n}\n\
               fn main() { print(same(1, \"x\")); }\n";
    assert_check_error(src, "expected `Int`, found `String`");
}

#[test]
fn a_generic_call_inside_a_generic_body_is_specialised_too() {
    let src = "fn id<T>(x: T) -> T {\n    return x;\n}\n\
               fn twice<T>(x: T) -> T {\n    let a: T = id(x);\n    return id(a);\n}\n\
               fn main() { print(twice(\"deep\")); print(twice(4)); print(twice(1.5)); }\n";
    assert_output(src, &["deep", "4", "1.5"]);
}

#[test]
fn a_generic_function_may_recurse_at_the_same_type() {
    let src = "fn repeat<T>(x: T, n: int) -> T {\n\
               \x20   if n == 0 { return x; }\n\
               \x20   return repeat(x, n - 1);\n}\n\
               fn main() { print(repeat(\"same\", 3)); print(repeat(7, 2)); }\n";
    assert_output(src, &["same", "7"]);
}

#[test]
fn recursing_at_a_growing_type_is_rejected() {
    let src = "fn grow<T>(x: T, n: int) -> int {\n\
               \x20   if n == 0 { return 0; }\n\
               \x20   return grow([x], n - 1);\n}\n\
               fn main() { print(grow(1, 40)); }\n";
    assert_run_fails(src, "new copy of the function every time");
}

#[test]
fn a_type_parameter_that_nothing_pins_down_is_an_error() {
    let src = "fn nothing<T>(n: int) -> int {\n    return n;\n}\n\
               fn main() { print(nothing(1)); }\n";
    assert_check_error(src, "T");
}

#[test]
fn generic_arguments_can_be_structs_and_enums() {
    let src = "struct Point { x: int, y: int }\n\
               fn id<T>(x: T) -> T {\n    return x;\n}\n\
               fn main() { let p = Point { x: 1, y: 2 }; print(id(p).y); print(id(Some(9))); }\n";
    assert_output(src, &["2", "Some(9)"]);
}

#[test]
fn a_generic_declaration_on_its_own_still_checks() {
    assert_checks(&format!("{ID}fn main() {{ print(1); }}\n"));
}
