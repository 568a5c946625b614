//! End-to-end tests of the boundary function: one reduction step per call.

use lambda_step::next_beta_reduction_wasm;

#[test]
fn reduces_simple_redex() {
    assert_eq!(next_beta_reduction_wasm("(\\x. x) y"), "y");
}

#[test]
fn reduces_under_nested_abstraction() {
    assert_eq!(next_beta_reduction_wasm("(\\x. \\y. x) a"), "λy.a");
}

#[test]
fn renames_on_capture_hazard() {
    assert_eq!(next_beta_reduction_wasm("(\\x. \\y. x) y"), "λy1.y");
}

#[test]
fn normal_form_is_unchanged() {
    assert_eq!(next_beta_reduction_wasm("x y"), "x y");
}

#[test]
fn missing_dot_reports_error() {
    assert_eq!(
        next_beta_reduction_wasm("\\x x"),
        "Expected '.' after lambda parameter"
    );
}

#[test]
fn outermost_redex_is_contracted_first() {
    assert_eq!(
        next_beta_reduction_wasm("(\\x. x x) ((\\y. y) z)"),
        "(λy.y) z ((λy.y) z)"
    );
}

#[test]
fn lambda_letter_notation_is_accepted() {
    assert_eq!(next_beta_reduction_wasm("(λx. x) y"), "y");
    assert_eq!(next_beta_reduction_wasm("λx.x"), "λx.x");
}

#[test]
fn empty_input_reports_unexpected_end() {
    assert_eq!(next_beta_reduction_wasm(""), "Unexpected end of input");
}

#[test]
fn stray_close_paren_reports_unexpected_token() {
    assert_eq!(next_beta_reduction_wasm(")"), "Unexpected token: RParen");
}

#[test]
fn stray_dot_reports_unexpected_token() {
    assert_eq!(next_beta_reduction_wasm("."), "Unexpected token: Dot");
}

#[test]
fn lambda_without_parameter_reports_error() {
    assert_eq!(
        next_beta_reduction_wasm("\\"),
        "Expected identifier after lambda"
    );
}

#[test]
fn unclosed_paren_reports_error() {
    assert_eq!(next_beta_reduction_wasm("(x"), "Expected ')'");
}

#[test]
fn unknown_characters_are_skipped() {
    assert_eq!(next_beta_reduction_wasm("x @ y"), "x y");
}

#[test]
fn abstraction_body_extends_right() {
    // `\x. a b` parses as `\x. (a b)`, so the body is an application.
    assert_eq!(next_beta_reduction_wasm("\\x. a b"), "λx.a b");
}

#[test]
fn application_is_left_associative() {
    assert_eq!(next_beta_reduction_wasm("a b c"), "a b c");
}

#[test]
fn reduction_happens_under_binders() {
    assert_eq!(next_beta_reduction_wasm("\\x. (\\y. y) x"), "λx.x");
}

#[test]
fn argument_side_reduces_when_function_side_is_normal() {
    assert_eq!(next_beta_reduction_wasm("x ((\\y. y) z)"), "x z");
}

#[test]
fn identifiers_may_hold_digits_and_underscores() {
    assert_eq!(next_beta_reduction_wasm("(\\x_1. x_1) y2"), "y2");
}

#[test]
fn trailing_tokens_after_a_term_are_ignored() {
    assert_eq!(next_beta_reduction_wasm("x . y"), "x");
}

#[test]
fn normal_output_is_a_fixed_point_of_the_pipeline() {
    // A normal form's printed output, fed back in, prints the same again.
    let once = next_beta_reduction_wasm("x (\\y. y)");
    assert_eq!(once, "x (λy.y)");
    assert_eq!(next_beta_reduction_wasm(&once), once);
}

#[test]
fn renaming_never_merges_the_binder_with_the_substituted_variable() {
    // Contracting (λy1. λy. y) y substitutes for y1, which is not free in
    // λy.y: the step must keep the identity (up to renaming), not turn it
    // into a constant function.
    assert_eq!(next_beta_reduction_wasm("(\\y1. \\y. y) y"), "λy2.y2");
}

#[test]
fn outer_redex_wins_over_argument_redex() {
    assert_eq!(
        next_beta_reduction_wasm("(\\x. x) ((\\y. y) z)"),
        "(λy.y) z"
    );
}
