//! Tests of the parser and of the AST renderings.
use rq::expr::Expr;
use rq::parser::Oper;
use rq::parser::Path;
use rq::parser::exprs;
use rq::parser::fold_exprs;
use rq::parser::path;

#[test]
fn path_with_keys_and_index() {
    let (rest, segs) = path(".bla.blubb[7]").unwrap();
    assert_eq!(rest, 13);
    assert_eq!(segs.len(), 4);
    assert!(matches!(segs[0], Path::Root));
    assert!(matches!(&segs[1], Path::Key(k) if k == "bla"));
    assert!(matches!(&segs[2], Path::Key(k) if k == "blubb"));
    assert!(matches!(segs[3], Path::Idx(7)));
}

#[test]
fn bare_dot_is_root_alone() {
    let (rest, segs) = path(".").unwrap();
    assert_eq!(rest, 1);
    assert_eq!(segs.len(), 1);
    assert!(matches!(segs[0], Path::Root));
}

#[test]
fn index_can_come_first() {
    let (_, segs) = path(".[7]").unwrap();
    assert_eq!(segs.len(), 2);
    assert!(matches!(segs[1], Path::Idx(7)));
}

#[test]
fn index_tolerates_inner_spaces() {
    let (_, segs) = path(".a[ 2 ]").unwrap();
    assert!(matches!(segs[2], Path::Idx(2)));
}

#[test]
fn path_needs_leading_dot() {
    let r = path("bla");
    assert!(matches!(r, Err(pe) if pe.at == 0));
}

#[test]
fn path_stops_at_unknown_text() {
    let (rest, segs) = path(".a extra text").unwrap();
    assert_eq!(segs.len(), 2);
    assert_eq!(rest, 2);
}

#[test]
fn exprs_parses_statement_list() {
    let (rest, ast) = exprs("let a = 3; a");
    assert_eq!(rest, 12);
    assert_eq!(ast.len(), 2);
    assert_eq!(ast[0].to_text(), "let a = 3");
    assert_eq!(ast[1].to_text(), "a");
}

#[test]
fn exprs_stops_before_dangling_operator() {
    let (rest, ast) = exprs("1 + ");
    assert_eq!(rest, 2);
    assert_eq!(ast.len(), 1);
    assert_eq!(ast[0].to_text(), "1");
}

#[test]
fn empty_input_parses_to_nothing() {
    let (rest, ast) = exprs("");
    assert_eq!(rest, 0);
    assert_eq!(ast.len(), 0);
}

#[test]
fn number_too_large_for_i64_is_rejected() {
    let (rest, ast) = exprs("9223372036854775808");
    assert_eq!(rest, 0);
    assert_eq!(ast.len(), 0);
}

#[test]
fn largest_i64_parses() {
    let (_, ast) = exprs("9223372036854775807");
    assert_eq!(ast[0].to_text(), "9223372036854775807");
}

#[test]
fn fold_is_left_associative() {
    let folded = fold_exprs(
        Expr::Value(1),
        vec![(Oper::Add, Expr::Value(2)), (Oper::Mul, Expr::Value(3))],
    );
    assert_eq!(folded.to_text(), "1 + 2 * 3");
    assert_eq!(folded.debug_text(), "((1 + 2) * 3)");
}

#[test]
fn display_and_debug_renderings() {
    let (_, ast) = exprs("let a = (1 + 2) * a");
    assert_eq!(ast[0].to_text(), "let a = (1 + 2) * a");
    assert_eq!(ast[0].debug_text(), "let \"a\" = ([(1 + 2)] * \"a\")");
}

#[test]
fn identifiers_are_lowercase_runs() {
    let (rest, ast) = exprs("abc");
    assert_eq!(rest, 3);
    assert_eq!(ast[0].to_text(), "abc");
    let (rest2, ast2) = exprs("Abc");
    assert_eq!(rest2, 0);
    assert_eq!(ast2.len(), 0);
}

#[test]
fn whitespace_around_tokens_is_tolerated() {
    let src = "  let a =   3 ;   a * 2  ";
    let (rest, ast) = exprs(src);
    assert_eq!(ast.len(), 2);
    assert_eq!(rest, src.chars().count());
    assert_eq!(ast[1].to_text(), "a * 2");
}
