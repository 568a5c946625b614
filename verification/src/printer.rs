//! Rendering a term back to text, with the fixed minimal parenthesization:
//! an abstraction on the function side of an application is parenthesized,
//! and so is anything but a variable on the argument side.

use vstd::prelude::*;
use crate::term::{Term, SpecTerm, term_size};

verus! {

/// The printed form of a term. A variable prints as its name; an
/// abstraction as `λ`, its parameter, `.`, and its body; an application as
/// its function side, a space, and its argument side.
pub open spec fn spec_print(t: SpecTerm) -> Seq<char>
    decreases term_size(t), 0nat,
{
    match t {
        SpecTerm::Var { name } => name,
        SpecTerm::Lam { param, body } => seq!['λ'] + param + seq!['.'] + spec_print(*body),
        SpecTerm::App { func, arg } => spec_print_func(*func) + seq![' '] + spec_print_arg(*arg),
    }
}

/// A term on the function side of an application: parenthesized when it is
/// an abstraction, whose body would otherwise swallow the argument.
pub open spec fn spec_print_func(t: SpecTerm) -> Seq<char>
    decreases term_size(t), 1nat,
{
    if t is Lam {
        seq!['('] + spec_print(t) + seq![')']
    } else {
        spec_print(t)
    }
}

/// A term on the argument side of an application: parenthesized unless it
/// is a variable, preserving left associativity on re-parse.
pub open spec fn spec_print_arg(t: SpecTerm) -> Seq<char>
    decreases term_size(t), 1nat,
{
    if t is Var {
        spec_print(t)
    } else {
        seq!['('] + spec_print(t) + seq![')']
    }
}

/// Appends the printed form of `t` to `out`.
fn print_chars(t: &Term, out: &mut Vec<char>)
    ensures
        final(out)@ == old(out)@ + spec_print(t@),
    decreases term_size(t@), 2nat,
{
    match t {
        Term::Var { name } => {
            let mut i: usize = 0;
            while i < name.len()
                invariant
                    i <= name.len(),
                    out@ == old(out)@ + name@.subrange(0, i as int),
                decreases name.len() - i,
            {
                out.push(name[i]);
                proof {
                    assert(out@ =~= old(out)@ + name@.subrange(0, i + 1));
                }
                i += 1;
            }
            proof {
                assert(old(out)@ + name@.subrange(0, name@.len() as int) =~= old(out)@ + name@);
            }
        },
        Term::Lam { param, body } => {
            out.push('λ');
            let mut i: usize = 0;
            while i < param.len()
                invariant
                    i <= param.len(),
                    out@ == old(out)@ + seq!['λ'] + param@.subrange(0, i as int),
                decreases param.len() - i,
            {
                out.push(param[i]);
                proof {
                    assert(out@ =~= old(out)@ + seq!['λ'] + param@.subrange(0, i + 1));
                }
                i += 1;
            }
            out.push('.');
            proof {
                assert(out@ =~= old(out)@ + (seq!['λ'] + param@ + seq!['.']));
            }
            print_chars(body, out);
            proof {
                assert(out@ =~= old(out)@ + spec_print(t@));
            }
        },
        Term::App { func, arg } => {
            print_func_chars(func, out);
            out.push(' ');
            print_arg_chars(arg, out);
            proof {
                assert(spec_print(t@) == spec_print_func((**func)@) + seq![' ']
                    + spec_print_arg((**arg)@));
                assert(out@ =~= old(out)@ + spec_print(t@));
            }
        },
    }
}

/// Appends the function-position form of `t` to `out`.
fn print_func_chars(t: &Term, out: &mut Vec<char>)
    ensures
        final(out)@ == old(out)@ + spec_print_func(t@),
    decreases term_size(t@), 3nat,
{
    proof {
        crate::term::lemma_view_variant(*t);
    }
    if matches!(t, Term::Lam { .. }) {
        out.push('(');
        print_chars(t, out);
        out.push(')');
        proof {
            assert(out@ =~= old(out)@ + spec_print_func(t@));
        }
    } else {
        print_chars(t, out);
    }
}

/// Appends the argument-position form of `t` to `out`.
fn print_arg_chars(t: &Term, out: &mut Vec<char>)
    ensures
        final(out)@ == old(out)@ + spec_print_arg(t@),
    decreases term_size(t@), 3nat,
{
    proof {
        crate::term::lemma_view_variant(*t);
    }
    if matches!(t, Term::Var { .. }) {
        print_chars(t, out);
    } else {
        out.push('(');
        print_chars(t, out);
        out.push(')');
        proof {
            assert(out@ =~= old(out)@ + spec_print_arg(t@));
        }
    }
}

/// The printed form of a term, as characters.
pub fn ast_to_chars(t: &Term) -> (r: Vec<char>)
    ensures
        r@ == spec_print(t@),
{
    let mut out: Vec<char> = Vec::new();
    print_chars(t, &mut out);
    proof {
        assert(out@ =~= spec_print(t@));
    }
    out
}

/// The printed form of a term.
pub fn ast_to_string(t: &Term) -> (r: String)
    ensures
        r@ == spec_print(t@),
{
    let out = ast_to_chars(t);
    crate::text::string_from_chars(&out)
}

} // verus!
