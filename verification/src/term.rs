//! The abstract syntax of lambda terms, its mathematical model, and the
//! free-variable analysis.

use vstd::prelude::*;

verus! {

/// Mathematical model of a lambda term: names are sequences of characters.
pub enum SpecTerm {
    Var { name: Seq<char> },
    App { func: Box<SpecTerm>, arg: Box<SpecTerm> },
    Lam { param: Seq<char>, body: Box<SpecTerm> },
}

/// A lambda term as built by the parser and transformed by reduction.
/// Immutable once constructed: every transformation produces a new tree.
pub enum Term {
    Var { name: Vec<char> },
    App { func: Box<Term>, arg: Box<Term> },
    Lam { param: Vec<char>, body: Box<Term> },
}

pub open spec fn term_view(t: Term) -> SpecTerm
    decreases t,
{
    match t {
        Term::Var { name } => SpecTerm::Var { name: name@ },
        Term::App { func, arg } => SpecTerm::App {
            func: Box::new(term_view(*func)),
            arg: Box::new(term_view(*arg)),
        },
        Term::Lam { param, body } => SpecTerm::Lam {
            param: param@,
            body: Box::new(term_view(*body)),
        },
    }
}

impl View for Term {
    type V = SpecTerm;

    open spec fn view(&self) -> SpecTerm {
        term_view(*self)
    }
}

/// A tree and its model are always the same shape of term.
pub proof fn lemma_view_variant(t: Term)
    ensures
        t@ is Lam <==> t is Lam,
        t@ is App <==> t is App,
        t@ is Var <==> t is Var,
{
    match t {
        Term::Var { .. } => {},
        Term::App { .. } => {},
        Term::Lam { .. } => {},
    }
}

/// The number of nodes of a term; the measure for recursion over terms.
pub open spec fn term_size(t: SpecTerm) -> nat
    decreases t,
{
    match t {
        SpecTerm::Var { .. } => 1,
        SpecTerm::App { func, arg } => 1 + term_size(*func) + term_size(*arg),
        SpecTerm::Lam { param, body } => 1 + term_size(*body),
    }
}

/// The set of names that occur free in a term: a variable contributes its
/// name, an application the union of its sides, and an abstraction its
/// body's free names minus the bound parameter.
pub open spec fn spec_free_vars(t: SpecTerm) -> Set<Seq<char>>
    decreases t,
{
    match t {
        SpecTerm::Var { name } => Set::empty().insert(name),
        SpecTerm::App { func, arg } => spec_free_vars(*func).union(spec_free_vars(*arg)),
        SpecTerm::Lam { param, body } => spec_free_vars(*body).remove(param),
    }
}

pub proof fn lemma_free_vars_finite(t: SpecTerm)
    ensures
        spec_free_vars(t).finite(),
    decreases t,
{
    match t {
        SpecTerm::Var { name } => {},
        SpecTerm::App { func, arg } => {
            lemma_free_vars_finite(*func);
            lemma_free_vars_finite(*arg);
        },
        SpecTerm::Lam { param, body } => {
            lemma_free_vars_finite(*body);
        },
    }
}

/// The set of names that a list of names denotes (the model of the
/// executable name lists used for free-variable results).
pub open spec fn names_set(s: Seq<Vec<char>>) -> Set<Seq<char>>
    decreases s.len(),
{
    if s.len() == 0 {
        Set::empty()
    } else {
        names_set(s.drop_last()).insert(s.last()@)
    }
}

pub proof fn lemma_names_set_push(s: Seq<Vec<char>>, e: Vec<char>)
    ensures
        names_set(s.push(e)) == names_set(s).insert(e@),
{
    assert(s.push(e).drop_last() =~= s);
    assert(s.push(e).last() == e);
}

pub proof fn lemma_names_set_finite(s: Seq<Vec<char>>)
    ensures
        names_set(s).finite(),
        names_set(s).len() <= s.len(),
    decreases s.len(),
{
    if s.len() > 0 {
        lemma_names_set_finite(s.drop_last());
    }
}

/// Name equality, decided character by character.
pub fn eq_name(a: &Vec<char>, b: &Vec<char>) -> (r: bool)
    ensures
        r == (a@ == b@),
{
    if a.len() != b.len() {
        assert(a@ != b@);
        return false;
    }
    let mut i: usize = 0;
    while i < a.len()
        invariant
            i <= a.len(),
            a@.len() == b@.len(),
            forall|j: int| 0 <= j < i ==> a@[j] == b@[j],
        decreases a.len() - i,
    {
        if a[i] != b[i] {
            return false;
        }
        i += 1;
    }
    proof {
        assert(a@ =~= b@);
    }
    true
}

/// A fresh copy of a name.
pub fn copy_name(v: &Vec<char>) -> (r: Vec<char>)
    ensures
        r@ == v@,
{
    let mut r: Vec<char> = Vec::new();
    let mut i: usize = 0;
    while i < v.len()
        invariant
            i <= v.len(),
            r@ == v@.subrange(0, i as int),
        decreases v.len() - i,
    {
        r.push(v[i]);
        i += 1;
    }
    proof {
        assert(r@ =~= v@);
    }
    r
}

/// A fresh copy of a term: the new tree has the same model.
pub fn clone_term(t: &Term) -> (r: Term)
    ensures
        r@ == t@,
    decreases *t,
{
    match t {
        Term::Var { name } => Term::Var { name: copy_name(name) },
        Term::App { func, arg } => Term::App {
            func: Box::new(clone_term(func)),
            arg: Box::new(clone_term(arg)),
        },
        Term::Lam { param, body } => Term::Lam {
            param: copy_name(param),
            body: Box::new(clone_term(body)),
        },
    }
}

/// Whether a list of names holds the given name.
pub fn contains_name(v: &Vec<Vec<char>>, n: &Vec<char>) -> (r: bool)
    ensures
        r == names_set(v@).contains(n@),
{
    let mut i: usize = 0;
    let mut found: bool = false;
    while i < v.len()
        invariant
            i <= v.len(),
            found == names_set(v@.subrange(0, i as int)).contains(n@),
        decreases v.len() - i,
    {
        proof {
            assert(v@.subrange(0, i + 1) =~= v@.subrange(0, i as int).push(v@[i as int]));
            lemma_names_set_push(v@.subrange(0, i as int), v@[i as int]);
        }
        if eq_name(&v[i], n) {
            found = true;
        }
        i += 1;
    }
    proof {
        assert(v@.subrange(0, v@.len() as int) =~= v@);
    }
    found
}

/// The free variables of a term, as a list of names (possibly with
/// repetitions); the list denotes exactly the model's free-variable set.
pub fn free_vars(t: &Term) -> (r: Vec<Vec<char>>)
    ensures
        names_set(r@) == spec_free_vars(t@),
    decreases *t,
{
    match t {
        Term::Var { name } => {
            let mut r: Vec<Vec<char>> = Vec::new();
            let entry = copy_name(name);
            r.push(entry);
            proof {
                assert(r@.drop_last() =~= Seq::<Vec<char>>::empty());
                assert(names_set(r@.drop_last()) == Set::<Seq<char>>::empty());
                assert(r@.last()@ == name@);
                assert(names_set(r@) =~= spec_free_vars(t@));
            }
            r
        },
        Term::App { func, arg } => {
            let mut r = free_vars(func);
            let more = free_vars(arg);
            let mut i: usize = 0;
            proof {
                assert(names_set(r@) =~= spec_free_vars(*t@->App_func).union(
                    names_set(more@.subrange(0, 0)),
                ));
            }
            while i < more.len()
                invariant
                    i <= more.len(),
                    names_set(r@) == spec_free_vars(*t@->App_func).union(
                        names_set(more@.subrange(0, i as int)),
                    ),
                decreases more.len() - i,
            {
                let ghost prev = r@;
                let entry = copy_name(&more[i]);
                proof {
                    lemma_names_set_push(prev, entry);
                    assert(more@.subrange(0, i + 1) =~= more@.subrange(0, i as int).push(
                        more@[i as int],
                    ));
                    lemma_names_set_push(more@.subrange(0, i as int), more@[i as int]);
                }
                r.push(entry);
                proof {
                    assert(names_set(r@) =~= spec_free_vars(*t@->App_func).union(
                        names_set(more@.subrange(0, i + 1)),
                    ));
                }
                i += 1;
            }
            proof {
                assert(more@.subrange(0, more@.len() as int) =~= more@);
            }
            r
        },
        Term::Lam { param, body } => {
            let inner = free_vars(body);
            let mut r: Vec<Vec<char>> = Vec::new();
            let mut i: usize = 0;
            proof {
                assert(names_set(r@) =~= names_set(inner@.subrange(0, 0)).remove(param@));
            }
            while i < inner.len()
                invariant
                    i <= inner.len(),
                    names_set(r@) == names_set(inner@.subrange(0, i as int)).remove(param@),
                decreases inner.len() - i,
            {
                proof {
                    assert(inner@.subrange(0, i + 1) =~= inner@.subrange(0, i as int).push(
                        inner@[i as int],
                    ));
                    lemma_names_set_push(inner@.subrange(0, i as int), inner@[i as int]);
                }
                if !eq_name(&inner[i], param) {
                    let ghost prev = r@;
                    let entry = copy_name(&inner[i]);
                    proof {
                        lemma_names_set_push(prev, entry);
                    }
                    r.push(entry);
                }
                proof {
                    assert(names_set(r@) =~= names_set(inner@.subrange(0, i + 1)).remove(param@));
                }
                i += 1;
            }
            proof {
                assert(inner@.subrange(0, inner@.len() as int) =~= inner@);
            }
            r
        },
    }
}

} // verus!
