//! End-to-end tests of the arithmetic dialect: parse, lower, run.
use rq::compiler::CompilerError;
use rq::compiler::Fault;
use rq::compiler::MathCompiler;
use rq::compiler::Wrap;
use rq::doc::JsonDoc;
use rq::doc::JsonNode;
use rq::parser::exprs;

fn doc_null() -> JsonDoc {
    JsonDoc { nodes: vec![JsonNode::Null] }
}

fn run_expr(src: &str) -> i64 {
    let (rest, ast) = exprs(src);
    assert_eq!(rest, src.chars().count(), "unconsumed input");
    let mut c = MathCompiler::new();
    let prog = c.jit_compile_expr_root(&ast).unwrap();
    let doc = doc_null();
    let (v, _outs) = prog.call(&doc, Wrap { error: 0, json: 0 }).unwrap();
    v
}

#[test]
fn precedence_mixed() {
    assert_eq!(run_expr("7 + 3*2"), 13);
}

#[test]
fn let_rebinding() {
    assert_eq!(run_expr("let a = 3; let a = 4 + a; a * 6"), 42);
}

#[test]
fn addition() {
    assert_eq!(run_expr("1 + 2"), 3);
}

#[test]
fn subtraction() {
    assert_eq!(run_expr("1 - 2"), -1);
}

#[test]
fn multiplication() {
    assert_eq!(run_expr("6 * 7"), 42);
}

#[test]
fn division_truncates() {
    assert_eq!(run_expr("7 / 2"), 3);
    assert_eq!(run_expr("0 - 7 / 2"), -3);
}

#[test]
fn parens_group() {
    assert_eq!(run_expr("(7 + 3) * 2"), 20);
    assert_eq!(run_expr("((5))"), 5);
}

#[test]
fn left_associative_fold() {
    assert_eq!(run_expr("10 - 3 - 2"), 5);
    assert_eq!(run_expr("100 / 10 / 2"), 5);
}

#[test]
fn sequence_yields_last() {
    assert_eq!(run_expr("1 + 1; 2 + 2"), 4);
}

#[test]
fn let_value_is_bound_value() {
    assert_eq!(run_expr("let x = 3"), 3);
}

#[test]
fn shadowing_many_times() {
    assert_eq!(run_expr("let a = 1; let a = a + a; let a = a * 10; a"), 20);
}

#[test]
fn division_by_zero_faults() {
    let (rest, ast) = exprs("1 / 0");
    assert_eq!(rest, 5);
    let mut c = MathCompiler::new();
    let prog = c.jit_compile_expr_root(&ast).unwrap();
    let doc = doc_null();
    let r = prog.call(&doc, Wrap { error: 0, json: 0 });
    assert!(matches!(r, Err(Fault::DivByZero)));
}

#[test]
fn unknown_variable_fails_before_run() {
    let (rest, ast) = exprs("a + 1");
    assert_eq!(rest, 5);
    let mut c = MathCompiler::new();
    match c.jit_compile_expr_root(&ast) {
        Err(CompilerError::UnknownVariable(n)) => assert_eq!(n, "a"),
        other => panic!("expected an unknown-variable failure, got {:?}", other.is_ok()),
    }
}

#[test]
fn unknown_variable_message() {
    let e = CompilerError::UnknownVariable("a".to_string());
    assert_eq!(e.describe(), "unknown variable a");
}

#[test]
fn diagnostic_print_renders_document() {
    let (_, ast) = exprs("1 + 1");
    let mut c = MathCompiler::new();
    let prog = c.jit_compile_expr_root(&ast).unwrap();
    let doc = doc_null();
    let (v, outs) = prog.call(&doc, Wrap { error: 0, json: 0 }).unwrap();
    assert_eq!(v, 2);
    assert_eq!(outs, vec!["null".to_string()]);
}

#[test]
fn wrapping_addition_at_max() {
    let (_, ast) = exprs("9223372036854775807 + 1");
    let mut c = MathCompiler::new();
    let prog = c.jit_compile_expr_root(&ast).unwrap();
    let doc = doc_null();
    let (v, _) = prog.call(&doc, Wrap { error: 0, json: 0 }).unwrap();
    assert_eq!(v, i64::MIN);
}

#[test]
fn prepare_exprs_end_to_end() {
    let prog = rq::driver::prepare_exprs("7 + 3*2").unwrap();
    let doc = doc_null();
    let (v, _) = prog.call(&doc, Wrap { error: 0, json: 0 }).unwrap();
    assert_eq!(v, 13);
}

#[test]
fn prepare_exprs_rejects_leftover_text() {
    match rq::driver::prepare_exprs("1 + ") {
        Err(rq::driver::ScriptError::Parse(pe)) => assert_eq!(pe.at, 2),
        _ => panic!("expected a parse failure"),
    }
}

#[test]
fn prepare_exprs_reports_unknown_variable() {
    match rq::driver::prepare_exprs("a + 1") {
        Err(rq::driver::ScriptError::Compile(CompilerError::UnknownVariable(n))) => {
            assert_eq!(n, "a")
        },
        _ => panic!("expected an unknown-variable failure"),
    }
}
