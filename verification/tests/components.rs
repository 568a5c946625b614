//! Tests of the pipeline's components, each through its public functions.

use lambda_step::lexer::{tokenize, Token};
use lambda_step::names::fresh_var;
use lambda_step::parser::parse;
use lambda_step::printer::ast_to_string;
use lambda_step::reduce::beta_reduce;
use lambda_step::subst::substitute;
use lambda_step::term::{free_vars, Term};
use lambda_step::text::chars_of;

fn name(s: &str) -> Vec<char> {
    chars_of(s)
}

fn var(s: &str) -> Term {
    Term::Var { name: name(s) }
}

fn lam(p: &str, b: Term) -> Term {
    Term::Lam {
        param: name(p),
        body: Box::new(b),
    }
}

fn app(f: Term, a: Term) -> Term {
    Term::App {
        func: Box::new(f),
        arg: Box::new(a),
    }
}

#[test]
fn tokenize_classifies_every_token_kind() {
    let toks = tokenize(&chars_of("(\\xy. x1) λz"));
    assert_eq!(toks.len(), 8);
    assert!(matches!(toks[0], Token::LParen));
    assert!(matches!(toks[1], Token::Lambda));
    assert!(matches!(&toks[2], Token::Identifier(n) if n == &name("xy")));
    assert!(matches!(toks[3], Token::Dot));
    assert!(matches!(&toks[4], Token::Identifier(n) if n == &name("x1")));
    assert!(matches!(toks[5], Token::RParen));
    assert!(matches!(toks[6], Token::Lambda));
    assert!(matches!(&toks[7], Token::Identifier(n) if n == &name("z")));
}

#[test]
fn tokenize_takes_maximal_identifier_runs() {
    let toks = tokenize(&chars_of("ab_1c de"));
    assert_eq!(toks.len(), 2);
    assert!(matches!(&toks[0], Token::Identifier(n) if n == &name("ab_1c")));
    assert!(matches!(&toks[1], Token::Identifier(n) if n == &name("de")));
}

#[test]
fn parse_builds_left_nested_applications() {
    let ast = parse(tokenize(&chars_of("a b c"))).unwrap();
    assert_eq!(ast_to_string(&ast), "a b c");
    match &ast {
        Term::App { func, .. } => assert!(matches!(&**func, Term::App { .. })),
        _ => panic!("expected an application"),
    }
}

#[test]
fn parse_extends_abstraction_body_right() {
    let ast = parse(tokenize(&chars_of("\\x. a b"))).unwrap();
    match &ast {
        Term::Lam { body, .. } => assert!(matches!(&**body, Term::App { .. })),
        _ => panic!("expected an abstraction"),
    }
}

#[test]
fn free_vars_removes_bound_names() {
    let t = lam("x", app(var("x"), var("y")));
    let fv = free_vars(&t);
    assert!(fv.iter().any(|n| n == &name("y")));
    assert!(!fv.iter().any(|n| n == &name("x")));
}

#[test]
fn free_vars_keeps_shadowed_outer_uses() {
    // In `x (\x. x)` the first x is free, the inner ones are not.
    let t = app(var("x"), lam("x", var("x")));
    let fv = free_vars(&t);
    assert!(fv.iter().any(|n| n == &name("x")));
}

#[test]
fn fresh_var_returns_base_when_free() {
    let avoid = vec![name("a"), name("b")];
    assert_eq!(fresh_var(&avoid, &name("x")), name("x"));
}

#[test]
fn fresh_var_counts_past_taken_suffixes() {
    let avoid = vec![name("y"), name("y1"), name("y2")];
    assert_eq!(fresh_var(&avoid, &name("y")), name("y3"));
}

#[test]
fn fresh_var_suffixes_compose_with_digit_bases() {
    let avoid = vec![name("y1"), name("y11")];
    assert_eq!(fresh_var(&avoid, &name("y1")), name("y12"));
}

#[test]
fn substitute_renames_nested_binders() {
    // ((λa. λy. a) y) captures nothing: the inner binder is renamed.
    let t = app(lam("a", lam("y", var("a"))), var("y"));
    let (stepped, r) = beta_reduce(&t);
    assert!(stepped);
    assert_eq!(ast_to_string(&r), "λy1.y");
}

#[test]
fn substitute_replaces_free_occurrences() {
    let t = app(var("x"), var("z"));
    let r = substitute(&t, &name("x"), &var("w"));
    assert_eq!(ast_to_string(&r), "w z");
}

#[test]
fn substitute_respects_shadowing() {
    let t = lam("x", var("x"));
    let r = substitute(&t, &name("x"), &var("w"));
    assert_eq!(ast_to_string(&r), "λx.x");
}

#[test]
fn substitute_renames_to_avoid_capture() {
    // (λy. x)[x := y] must not capture the free y.
    let t = lam("y", var("x"));
    let r = substitute(&t, &name("x"), &var("y"));
    assert_eq!(ast_to_string(&r), "λy1.y");
}

#[test]
fn substitute_fresh_name_avoids_the_substituted_variable() {
    // (λy. y)[y1 := y]: y1 is not free, so the result must still be the
    // identity; the hazard rename picks y2, skipping the avoided y1.
    let t = lam("y", var("y"));
    let r = substitute(&t, &name("y1"), &var("y"));
    assert_eq!(ast_to_string(&r), "λy2.y2");
    assert!(free_vars(&r).is_empty());
}

#[test]
fn beta_reduce_reports_normal_forms() {
    let t = app(var("x"), var("y"));
    let (stepped, r) = beta_reduce(&t);
    assert!(!stepped);
    assert_eq!(ast_to_string(&r), "x y");
}

#[test]
fn beta_reduce_contracts_the_root_redex() {
    let t = app(lam("x", var("x")), var("y"));
    let (stepped, r) = beta_reduce(&t);
    assert!(stepped);
    assert_eq!(ast_to_string(&r), "y");
}

#[test]
fn round_trip_restores_the_term() {
    // print, tokenize, parse: the same term comes back.
    let t = app(lam("x", app(var("x"), var("y_1"))), var("z"));
    let printed = ast_to_string(&t);
    let reparsed = parse(tokenize(&chars_of(&printed))).unwrap();
    assert_eq!(ast_to_string(&reparsed), printed);
    match &reparsed {
        Term::App { func, arg } => {
            assert!(matches!(&**func, Term::Lam { .. }));
            assert!(matches!(&**arg, Term::Var { .. }));
        }
        _ => panic!("expected an application"),
    }
}

#[test]
fn printer_parenthesizes_by_position() {
    let inner = app(lam("y", var("y")), var("z"));
    let t = app(lambda_step::term::clone_term(&inner), inner);
    assert_eq!(ast_to_string(&t), "(λy.y) z ((λy.y) z)");
}
