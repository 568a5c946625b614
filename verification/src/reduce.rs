//! The single-step normal-order reducer: contract the leftmost-outermost
//! redex, if any.

use vstd::prelude::*;
use crate::term::{Term, SpecTerm, spec_free_vars, clone_term};
use crate::subst::{spec_subst, substitute, lemma_subst_no_capture};

verus! {

/// One step of leftmost-outermost reduction: `None` when the term has no
/// redex, else `Some` of the term with exactly its leftmost-outermost redex
/// contracted. An application that is itself a redex is contracted before
/// either side is searched; otherwise the function side is searched before
/// the argument side; reduction also proceeds under binders.
pub open spec fn spec_step(t: SpecTerm) -> Option<SpecTerm>
    decreases t,
{
    match t {
        SpecTerm::Var { .. } => None,
        SpecTerm::App { func, arg } => {
            if *func is Lam {
                Some(spec_subst(*((*func)->Lam_body), (*func)->Lam_param, *arg))
            } else {
                match spec_step(*func) {
                    Some(new_func) => Some(
                        SpecTerm::App { func: Box::new(new_func), arg },
                    ),
                    None => match spec_step(*arg) {
                        Some(new_arg) => Some(
                            SpecTerm::App { func, arg: Box::new(new_arg) },
                        ),
                        None => None,
                    },
                }
            }
        },
        SpecTerm::Lam { param, body } => match spec_step(*body) {
            Some(new_body) => Some(SpecTerm::Lam { param, body: Box::new(new_body) }),
            None => None,
        },
    }
}

/// A term holds a redex somewhere iff it is not in normal form.
pub open spec fn has_redex(t: SpecTerm) -> bool
    decreases t,
{
    match t {
        SpecTerm::Var { .. } => false,
        SpecTerm::App { func, arg } => *func is Lam || has_redex(*func) || has_redex(*arg),
        SpecTerm::Lam { param, body } => has_redex(*body),
    }
}

/// The reducer finds a redex exactly when one exists: it reports no step
/// precisely on normal forms.
pub proof fn lemma_step_none_iff_normal(t: SpecTerm)
    ensures
        spec_step(t) is None <==> !has_redex(t),
    decreases t,
{
    match t {
        SpecTerm::Var { .. } => {},
        SpecTerm::App { func, arg } => {
            lemma_step_none_iff_normal(*func);
            lemma_step_none_iff_normal(*arg);
        },
        SpecTerm::Lam { param, body } => {
            lemma_step_none_iff_normal(*body);
        },
    }
}

/// Outermost first: an application whose function side is an abstraction is
/// contracted at the root, whatever redexes its subterms hold.
pub proof fn lemma_step_outermost_first(param: Seq<char>, body: SpecTerm, arg: SpecTerm)
    ensures
        spec_step(
            SpecTerm::App {
                func: Box::new(SpecTerm::Lam { param, body: Box::new(body) }),
                arg: Box::new(arg),
            },
        ) == Some(spec_subst(body, param, arg)),
{
}

/// Leftmost first: when an application is not itself a redex, a redex on
/// the function side is contracted before any redex on the argument side.
pub proof fn lemma_step_leftmost_first(func: SpecTerm, arg: SpecTerm)
    requires
        !(func is Lam),
        spec_step(func) is Some,
    ensures
        spec_step(SpecTerm::App { func: Box::new(func), arg: Box::new(arg) }) == Some(
            SpecTerm::App { func: Box::new(spec_step(func)->Some_0), arg: Box::new(arg) },
        ),
{
}

/// A path into a term: 0 goes into the function side of an application or
/// the body of an abstraction, 1 into the argument side.
pub open spec fn is_redex_at(t: SpecTerm, p: Seq<int>) -> bool
    decreases t,
{
    if p.len() == 0 {
        t matches SpecTerm::App { func, .. } && *func is Lam
    } else {
        match t {
            SpecTerm::Var { .. } => false,
            SpecTerm::App { func, arg } => {
                if p[0] == 0 {
                    is_redex_at(*func, p.drop_first())
                } else if p[0] == 1 {
                    is_redex_at(*arg, p.drop_first())
                } else {
                    false
                }
            },
            SpecTerm::Lam { param, body } => p[0] == 0 && is_redex_at(*body, p.drop_first()),
        }
    }
}

/// `p` comes no later than `q` in leftmost-outermost order: an outer
/// position precedes every position under it, and at the first difference
/// the function side (or body) precedes the argument side.
pub open spec fn path_before(p: Seq<int>, q: Seq<int>) -> bool
    decreases p.len(),
{
    if p.len() == 0 {
        true
    } else if q.len() == 0 {
        false
    } else if p[0] < q[0] {
        true
    } else if p[0] > q[0] {
        false
    } else {
        path_before(p.drop_first(), q.drop_first())
    }
}

/// The path of the redex that `spec_step` contracts, if any.
pub open spec fn step_path(t: SpecTerm) -> Option<Seq<int>>
    decreases t,
{
    match t {
        SpecTerm::Var { .. } => None,
        SpecTerm::App { func, arg } => {
            if *func is Lam {
                Some(Seq::empty())
            } else {
                match step_path(*func) {
                    Some(p) => Some(seq![0int] + p),
                    None => match step_path(*arg) {
                        Some(p) => Some(seq![1int] + p),
                        None => None,
                    },
                }
            }
        },
        SpecTerm::Lam { param, body } => match step_path(*body) {
            Some(p) => Some(seq![0int] + p),
            None => None,
        },
    }
}

/// A term holds a redex somewhere iff some path points at a redex in it.
pub proof fn lemma_has_redex_iff_redex_path(t: SpecTerm)
    ensures
        has_redex(t) <==> exists|p: Seq<int>| is_redex_at(t, p),
    decreases t,
{
    match t {
        SpecTerm::Var { .. } => {
            assert(forall|p: Seq<int>| !is_redex_at(t, p));
        },
        SpecTerm::App { func, arg } => {
            lemma_has_redex_iff_redex_path(*func);
            lemma_has_redex_iff_redex_path(*arg);
            if has_redex(t) {
                if *func is Lam {
                    assert(is_redex_at(t, Seq::empty()));
                } else if has_redex(*func) {
                    let p = choose|p: Seq<int>| is_redex_at(*func, p);
                    assert((seq![0int] + p).drop_first() =~= p);
                    assert(is_redex_at(t, seq![0int] + p));
                } else {
                    let p = choose|p: Seq<int>| is_redex_at(*arg, p);
                    assert((seq![1int] + p).drop_first() =~= p);
                    assert(is_redex_at(t, seq![1int] + p));
                }
            } else {
                assert forall|p: Seq<int>| !is_redex_at(t, p) by {
                    if p.len() > 0 {
                        assert(!is_redex_at(*func, p.drop_first()));
                        assert(!is_redex_at(*arg, p.drop_first()));
                    }
                }
            }
        },
        SpecTerm::Lam { param, body } => {
            lemma_has_redex_iff_redex_path(*body);
            if has_redex(t) {
                let p = choose|p: Seq<int>| is_redex_at(*body, p);
                assert((seq![0int] + p).drop_first() =~= p);
                assert(is_redex_at(t, seq![0int] + p));
            } else {
                assert forall|p: Seq<int>| !is_redex_at(t, p) by {
                    if p.len() > 0 {
                        assert(!is_redex_at(*body, p.drop_first()));
                    }
                }
            }
        },
    }
}

/// Redex selection: whenever the reducer takes a step, the redex it
/// contracts stands at a path that points at a redex and comes before the
/// path of every other redex in the term — the leftmost-outermost one.
pub proof fn lemma_step_picks_leftmost_outermost(t: SpecTerm)
    ensures
        step_path(t) matches Some(p) ==> is_redex_at(t, p) && forall|q: Seq<int>|
            #[trigger] is_redex_at(t, q) ==> path_before(p, q),
    decreases t,
{
    match t {
        SpecTerm::Var { .. } => {},
        SpecTerm::App { func, arg } => {
            lemma_step_picks_leftmost_outermost(*func);
            lemma_step_picks_leftmost_outermost(*arg);
            lemma_has_redex_iff_redex_path(*func);
            lemma_step_none_iff_normal(*func);
            lemma_step_iff_step_path(*func);
            if *func is Lam {
                assert(is_redex_at(t, Seq::empty()));
            } else if step_path(*func) is Some {
                let pf = step_path(*func)->Some_0;
                let p = seq![0int] + pf;
                assert(p.drop_first() =~= pf);
                assert(is_redex_at(t, p));
                assert forall|q: Seq<int>| is_redex_at(t, q) implies path_before(p, q) by {
                    assert(q.len() > 0);
                    if q[0] == 0 {
                        assert(is_redex_at(*func, q.drop_first()));
                        assert(path_before(pf, q.drop_first()));
                    }
                }
            } else if step_path(*arg) is Some {
                let pa = step_path(*arg)->Some_0;
                let p = seq![1int] + pa;
                assert(p.drop_first() =~= pa);
                assert(is_redex_at(t, p));
                assert forall|q: Seq<int>| is_redex_at(t, q) implies path_before(p, q) by {
                    assert(q.len() > 0);
                    if q[0] == 0 {
                        assert(is_redex_at(*func, q.drop_first()));
                        assert(has_redex(*func));
                    } else {
                        assert(q[0] == 1);
                        assert(is_redex_at(*arg, q.drop_first()));
                        assert(path_before(pa, q.drop_first()));
                    }
                }
            }
        },
        SpecTerm::Lam { param, body } => {
            lemma_step_picks_leftmost_outermost(*body);
            if step_path(*body) is Some {
                let pb = step_path(*body)->Some_0;
                let p = seq![0int] + pb;
                assert(p.drop_first() =~= pb);
                assert(is_redex_at(t, p));
                assert forall|q: Seq<int>| is_redex_at(t, q) implies path_before(p, q) by {
                    assert(q.len() > 0 && q[0] == 0);
                    assert(is_redex_at(*body, q.drop_first()));
                    assert(path_before(pb, q.drop_first()));
                }
            }
        },
    }
}

/// The term with the redex at path `p` contracted; unchanged where `p`
/// points at no redex.
pub open spec fn contract_at(t: SpecTerm, p: Seq<int>) -> SpecTerm
    decreases t,
{
    if p.len() == 0 {
        match t {
            SpecTerm::App { func, arg } => {
                if *func is Lam {
                    spec_subst(*((*func)->Lam_body), (*func)->Lam_param, *arg)
                } else {
                    t
                }
            },
            _ => t,
        }
    } else {
        match t {
            SpecTerm::Var { .. } => t,
            SpecTerm::App { func, arg } => {
                if p[0] == 0 {
                    SpecTerm::App { func: Box::new(contract_at(*func, p.drop_first())), arg }
                } else if p[0] == 1 {
                    SpecTerm::App { func, arg: Box::new(contract_at(*arg, p.drop_first())) }
                } else {
                    t
                }
            },
            SpecTerm::Lam { param, body } => {
                if p[0] == 0 {
                    SpecTerm::Lam { param, body: Box::new(contract_at(*body, p.drop_first())) }
                } else {
                    t
                }
            },
        }
    }
}

/// What the reducer returns is the input with the redex at the selected
/// path contracted — nothing anywhere else changes.
pub proof fn lemma_step_contracts_at_path(t: SpecTerm)
    ensures
        step_path(t) matches Some(p) ==> spec_step(t) == Some(contract_at(t, p)),
    decreases t,
{
    match t {
        SpecTerm::Var { .. } => {},
        SpecTerm::App { func, arg } => {
            lemma_step_contracts_at_path(*func);
            lemma_step_contracts_at_path(*arg);
            lemma_step_iff_step_path(*func);
            lemma_step_iff_step_path(*arg);
            if !(*func is Lam) {
                if step_path(*func) is Some {
                    let pf = step_path(*func)->Some_0;
                    assert((seq![0int] + pf).drop_first() =~= pf);
                } else if step_path(*arg) is Some {
                    let pa = step_path(*arg)->Some_0;
                    assert((seq![1int] + pa).drop_first() =~= pa);
                }
            }
        },
        SpecTerm::Lam { param, body } => {
            lemma_step_contracts_at_path(*body);
            lemma_step_iff_step_path(*body);
            if step_path(*body) is Some {
                let pb = step_path(*body)->Some_0;
                assert((seq![0int] + pb).drop_first() =~= pb);
            }
        },
    }
}

/// The reducer takes a step exactly when it has a redex path to contract.
pub proof fn lemma_step_iff_step_path(t: SpecTerm)
    ensures
        spec_step(t) is Some <==> step_path(t) is Some,
    decreases t,
{
    match t {
        SpecTerm::Var { .. } => {},
        SpecTerm::App { func, arg } => {
            lemma_step_iff_step_path(*func);
            lemma_step_iff_step_path(*arg);
        },
        SpecTerm::Lam { param, body } => {
            lemma_step_iff_step_path(*body);
        },
    }
}

/// Contracting the root redex of `(λparam. body) arg` cannot capture a free
/// variable of the argument: if the parameter occurs free in the body, every
/// free variable of the argument is free in the contracted term.
pub proof fn lemma_step_no_capture(param: Seq<char>, body: SpecTerm, arg: SpecTerm)
    ensures
        spec_free_vars(body).contains(param) ==> spec_free_vars(arg).subset_of(
            spec_free_vars(spec_subst(body, param, arg)),
        ),
{
    lemma_subst_no_capture(body, param, arg);
}

/// One reduction step on trees: the first component reports whether a redex
/// was contracted; the second is the contracted term, or a tree with the
/// input's model when there is none.
pub fn beta_reduce(t: &Term) -> (res: (bool, Term))
    ensures
        match spec_step(t@) {
            Some(stepped) => res.0 && res.1@ == stepped,
            None => !res.0 && res.1@ == t@,
        },
    decreases *t,
{
    match t {
        Term::App { func, arg } => {
            proof {
                crate::term::lemma_view_variant(**func);
            }
            if let Term::Lam { param, body } = &**func {
                let reduced = substitute(body, param, arg);
                (true, reduced)
            } else {
                let (reduced_func, new_func) = beta_reduce(func);
                if reduced_func {
                    (true, Term::App { func: Box::new(new_func), arg: Box::new(clone_term(arg)) })
                } else {
                    let (reduced_arg, new_arg) = beta_reduce(arg);
                    if reduced_arg {
                        (
                            true,
                            Term::App {
                                func: Box::new(clone_term(func)),
                                arg: Box::new(new_arg),
                            },
                        )
                    } else {
                        (false, clone_term(t))
                    }
                }
            }
        },
        Term::Lam { param, body } => {
            let (reduced_body, new_body) = beta_reduce(body);
            if reduced_body {
                (
                    true,
                    Term::Lam { param: crate::term::copy_name(param), body: Box::new(new_body) },
                )
            } else {
                (false, clone_term(t))
            }
        },
        Term::Var { .. } => (false, clone_term(t)),
    }
}

} // verus!
