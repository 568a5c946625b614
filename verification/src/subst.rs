//! Capture-avoiding substitution `t[x := r]`, with the laws that make it
//! capture-avoiding: bound variables are renamed on demand so that no free
//! variable of the replacement is ever captured by a binder, and the free
//! variables of the result are exactly the expected ones.

use vstd::prelude::*;
use crate::term::{
    Term, SpecTerm, term_size, spec_free_vars, names_set, lemma_free_vars_finite,
    lemma_names_set_push, eq_name, copy_name, clone_term, free_vars, contains_name,
};
use crate::names::{spec_fresh, lemma_spec_fresh_free};
use crate::names::fresh_var;

verus! {

/// The names the fresh parameter of a hazard rename must avoid: the free
/// variables of the replacement (so none is captured), the free variables
/// of the body (so the rename merges no names), and the substituted
/// variable itself (so the new binder is not then substituted away).
pub open spec fn rename_avoid_set(body: SpecTerm, x: Seq<char>, r: SpecTerm) -> Set<Seq<char>> {
    spec_free_vars(r).union(spec_free_vars(body)).insert(x)
}

/// Substitution `t[x := r]`. A variable is replaced when its name is `x`;
/// substitution distributes over applications; an abstraction shadows `x`
/// when its parameter is `x`, and is renamed to a fresh parameter first when
/// its parameter occurs free in `r` (the capture hazard). The renaming is
/// itself a substitution of a fresh variable for the old parameter.
///
/// The recursion in the hazard case works on the renamed body, which is not
/// a subterm; the size test guarding it always holds (`lemma_subst_var_size`)
/// and only justifies termination.
pub open spec fn spec_subst(t: SpecTerm, x: Seq<char>, r: SpecTerm) -> SpecTerm
    decreases term_size(t),
{
    match t {
        SpecTerm::Var { name } => if name == x {
            r
        } else {
            t
        },
        SpecTerm::App { func, arg } => SpecTerm::App {
            func: Box::new(spec_subst(*func, x, r)),
            arg: Box::new(spec_subst(*arg, x, r)),
        },
        SpecTerm::Lam { param, body } => {
            if param == x {
                t
            } else if spec_free_vars(r).contains(param) {
                let renamed_param = spec_fresh(rename_avoid_set(*body, x, r), param);
                let renamed = spec_subst(*body, param, SpecTerm::Var { name: renamed_param });
                if term_size(renamed) < term_size(t) {
                    SpecTerm::Lam { param: renamed_param, body: Box::new(spec_subst(renamed, x, r)) }
                } else {
                    t
                }
            } else {
                SpecTerm::Lam { param, body: Box::new(spec_subst(*body, x, r)) }
            }
        },
    }
}

/// Substituting a variable for a variable keeps the size of the term, so
/// the renaming pass never changes a term's size.
pub proof fn lemma_subst_var_size(t: SpecTerm, x: Seq<char>, v: Seq<char>)
    ensures
        term_size(spec_subst(t, x, SpecTerm::Var { name: v })) == term_size(t),
    decreases term_size(t),
{
    let r = SpecTerm::Var { name: v };
    match t {
        SpecTerm::Var { name } => {},
        SpecTerm::App { func, arg } => {
            lemma_subst_var_size(*func, x, v);
            lemma_subst_var_size(*arg, x, v);
        },
        SpecTerm::Lam { param, body } => {
            if param == x {
            } else if spec_free_vars(r).contains(param) {
                let renamed_param = spec_fresh(rename_avoid_set(*body, x, r), param);
                lemma_subst_var_size(*body, param, renamed_param);
                let renamed = spec_subst(*body, param, SpecTerm::Var { name: renamed_param });
                lemma_subst_var_size(renamed, x, v);
            } else {
                lemma_subst_var_size(*body, x, v);
            }
        },
    }
}

/// How substitution unfolds on an abstraction with a capture hazard: the
/// parameter is renamed to the fresh name before the substitution proceeds.
pub proof fn lemma_subst_hazard(param: Seq<char>, body: SpecTerm, x: Seq<char>, r: SpecTerm)
    requires
        param != x,
        spec_free_vars(r).contains(param),
    ensures
        ({
            let renamed_param = spec_fresh(rename_avoid_set(body, x, r), param);
            let renamed = spec_subst(body, param, SpecTerm::Var { name: renamed_param });
            spec_subst(SpecTerm::Lam { param, body: Box::new(body) }, x, r) == SpecTerm::Lam {
                param: renamed_param,
                body: Box::new(spec_subst(renamed, x, r)),
            }
        }),
{
    let renamed_param = spec_fresh(rename_avoid_set(body, x, r), param);
    lemma_subst_var_size(body, param, renamed_param);
}

/// The fresh parameter of a hazard rename is none of the names it must
/// avoid.
proof fn lemma_rename_param_fresh(body: SpecTerm, x: Seq<char>, r: SpecTerm, param: Seq<char>)
    ensures
        ({
            let renamed_param = spec_fresh(rename_avoid_set(body, x, r), param);
            &&& !spec_free_vars(r).contains(renamed_param)
            &&& !spec_free_vars(body).contains(renamed_param)
            &&& renamed_param != x
        }),
{
    lemma_free_vars_finite(r);
    lemma_free_vars_finite(body);
    lemma_spec_fresh_free(rename_avoid_set(body, x, r), param);
}

/// The free variables of a substitution's result, exactly: the term's free
/// variables without the substituted one, together with the replacement's
/// free variables when the substituted one was free at all — nothing is
/// captured, nothing leaks in, nothing else is lost.
pub proof fn lemma_subst_free_vars(t: SpecTerm, x: Seq<char>, r: SpecTerm)
    ensures
        spec_free_vars(spec_subst(t, x, r)) == (if spec_free_vars(t).contains(x) {
            spec_free_vars(t).remove(x).union(spec_free_vars(r))
        } else {
            spec_free_vars(t)
        }),
    decreases term_size(t),
{
    let result = spec_subst(t, x, r);
    match t {
        SpecTerm::Var { name } => {
            if name == x {
                assert(spec_free_vars(t).remove(x).union(spec_free_vars(r)) =~= spec_free_vars(
                    r,
                ));
            }
        },
        SpecTerm::App { func, arg } => {
            lemma_subst_free_vars(*func, x, r);
            lemma_subst_free_vars(*arg, x, r);
            if spec_free_vars(t).contains(x) {
                assert(spec_free_vars(result) =~= spec_free_vars(t).remove(x).union(
                    spec_free_vars(r),
                ));
            } else {
                assert(spec_free_vars(result) =~= spec_free_vars(t));
            }
        },
        SpecTerm::Lam { param, body } => {
            if param == x {
                assert(!spec_free_vars(t).contains(x));
            } else if spec_free_vars(r).contains(param) {
                let renamed_param = spec_fresh(rename_avoid_set(*body, x, r), param);
                let rvar = SpecTerm::Var { name: renamed_param };
                lemma_rename_param_fresh(*body, x, r, param);
                lemma_subst_var_size(*body, param, renamed_param);
                let renamed = spec_subst(*body, param, rvar);
                lemma_subst_free_vars(*body, param, rvar);
                lemma_subst_free_vars(renamed, x, r);
                assert(spec_free_vars(rvar) =~= Set::empty().insert(renamed_param));
                assert(spec_free_vars(renamed).contains(x) <==> spec_free_vars(*body).contains(
                    x,
                ));
                if spec_free_vars(*body).contains(x) {
                    assert(spec_free_vars(result) =~= spec_free_vars(t).remove(x).union(
                        spec_free_vars(r),
                    ));
                } else {
                    assert(spec_free_vars(result) =~= spec_free_vars(t));
                    assert(!spec_free_vars(t).contains(x));
                }
            } else {
                lemma_subst_free_vars(*body, x, r);
                if spec_free_vars(*body).contains(x) {
                    assert(spec_free_vars(result) =~= spec_free_vars(t).remove(x).union(
                        spec_free_vars(r),
                    ));
                } else {
                    assert(spec_free_vars(result) =~= spec_free_vars(t));
                    assert(!spec_free_vars(t).contains(x));
                }
            }
        },
    }
}

/// Capture freedom: when the substituted variable occurs free in the term,
/// every free variable of the replacement is still free in the result — no
/// binder of the result captures it.
pub proof fn lemma_subst_no_capture(t: SpecTerm, x: Seq<char>, r: SpecTerm)
    ensures
        spec_free_vars(t).contains(x) ==> spec_free_vars(r).subset_of(
            spec_free_vars(spec_subst(t, x, r)),
        ),
{
    lemma_subst_free_vars(t, x, r);
}

/// Substituting a variable that is not free in the term leaves its free
/// variables untouched: in particular, nothing of the replacement leaks in.
pub proof fn lemma_subst_absent_var(t: SpecTerm, x: Seq<char>, r: SpecTerm)
    ensures
        !spec_free_vars(t).contains(x) ==> spec_free_vars(spec_subst(t, x, r))
            == spec_free_vars(t),
{
    lemma_subst_free_vars(t, x, r);
}

/// Appends the names of `b` to `a`; the result denotes the union.
fn append_names(a: &mut Vec<Vec<char>>, b: &Vec<Vec<char>>)
    ensures
        names_set(final(a)@) == names_set(old(a)@).union(names_set(b@)),
{
    let mut i: usize = 0;
    proof {
        assert(names_set(a@) =~= names_set(old(a)@).union(names_set(b@.subrange(0, 0))));
    }
    while i < b.len()
        invariant
            i <= b.len(),
            names_set(a@) == names_set(old(a)@).union(names_set(b@.subrange(0, i as int))),
        decreases b.len() - i,
    {
        let ghost prev = a@;
        let entry = copy_name(&b[i]);
        proof {
            lemma_names_set_push(prev, entry);
            assert(b@.subrange(0, i + 1) =~= b@.subrange(0, i as int).push(b@[i as int]));
            lemma_names_set_push(b@.subrange(0, i as int), b@[i as int]);
        }
        a.push(entry);
        proof {
            assert(names_set(a@) =~= names_set(old(a)@).union(names_set(b@.subrange(0, i + 1))));
        }
        i += 1;
    }
    proof {
        assert(b@.subrange(0, b@.len() as int) =~= b@);
    }
}

/// Capture-avoiding substitution on trees: the result models
/// `spec_subst(t, x, r)` exactly.
pub fn substitute(t: &Term, x: &Vec<char>, r: &Term) -> (res: Term)
    ensures
        res@ == spec_subst(t@, x@, r@),
    decreases term_size(t@),
{
    match t {
        Term::Var { name } => {
            if eq_name(name, x) {
                clone_term(r)
            } else {
                clone_term(t)
            }
        },
        Term::App { func, arg } => {
            let new_func = substitute(func, x, r);
            let new_arg = substitute(arg, x, r);
            Term::App { func: Box::new(new_func), arg: Box::new(new_arg) }
        },
        Term::Lam { param, body } => {
            if eq_name(param, x) {
                clone_term(t)
            } else {
                let replacement_free = free_vars(r);
                if contains_name(&replacement_free, param) {
                    let body_free = free_vars(body);
                    let mut avoid = replacement_free;
                    append_names(&mut avoid, &body_free);
                    let ghost before_x = avoid@;
                    let substituted = copy_name(x);
                    proof {
                        lemma_names_set_push(before_x, substituted);
                    }
                    avoid.push(substituted);
                    proof {
                        assert(names_set(avoid@) == rename_avoid_set(body@, x@, r@));
                    }
                    let new_param = fresh_var(&avoid, param);
                    let rename_to = Term::Var { name: copy_name(&new_param) };
                    let renamed_body = substitute(body, param, &rename_to);
                    proof {
                        lemma_subst_var_size(body@, param@, new_param@);
                        lemma_subst_hazard(param@, body@, x@, r@);
                    }
                    let new_body = substitute(&renamed_body, x, r);
                    Term::Lam { param: new_param, body: Box::new(new_body) }
                } else {
                    let new_body = substitute(body, x, r);
                    Term::Lam { param: copy_name(param), body: Box::new(new_body) }
                }
            }
        },
    }
}

} // verus!
