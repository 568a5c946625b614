//! Fresh-name generation: given a set of names to avoid and a base name,
//! return `base` if it is free, else `base1`, `base2`, ... with the first
//! decimal suffix whose name is outside the avoid set.

use vstd::prelude::*;
use crate::term::{names_set, lemma_names_set_finite};
use vstd::arithmetic::div_mod::lemma_fundamental_div_mod;
use vstd::set_lib::lemma_len_subset;

verus! {

pub open spec fn digit_char(d: nat) -> char {
    if d == 0 {
        '0'
    } else if d == 1 {
        '1'
    } else if d == 2 {
        '2'
    } else if d == 3 {
        '3'
    } else if d == 4 {
        '4'
    } else if d == 5 {
        '5'
    } else if d == 6 {
        '6'
    } else if d == 7 {
        '7'
    } else if d == 8 {
        '8'
    } else {
        '9'
    }
}

pub open spec fn digit_val(c: char) -> nat {
    if c == '0' {
        0
    } else if c == '1' {
        1
    } else if c == '2' {
        2
    } else if c == '3' {
        3
    } else if c == '4' {
        4
    } else if c == '5' {
        5
    } else if c == '6' {
        6
    } else if c == '7' {
        7
    } else if c == '8' {
        8
    } else {
        9
    }
}

/// The decimal rendering of a number.
pub open spec fn dec_digits(n: nat) -> Seq<char>
    decreases n,
{
    if n < 10 {
        seq![digit_char(n)]
    } else {
        dec_digits(n / 10).push(digit_char(n % 10))
    }
}

pub proof fn lemma_dec_digits_len(n: nat)
    ensures
        dec_digits(n).len() >= 1,
    decreases n,
{
    if n >= 10 {
        lemma_dec_digits_len(n / 10);
    }
}

/// The value a digit sequence denotes; the inverse of `dec_digits`.
pub open spec fn dec_val(s: Seq<char>) -> nat
    decreases s.len(),
{
    if s.len() == 0 {
        0
    } else {
        dec_val(s.drop_last()) * 10 + digit_val(s.last())
    }
}

pub proof fn lemma_dec_val_digits(n: nat)
    ensures
        dec_val(dec_digits(n)) == n,
    decreases n,
{
    if n < 10 {
        assert(dec_digits(n) == seq![digit_char(n)]);
        assert(dec_digits(n).drop_last() =~= Seq::<char>::empty());
        assert(dec_val(dec_digits(n).drop_last()) == 0);
        assert(dec_digits(n).last() == digit_char(n));
        assert(digit_val(digit_char(n)) == n);
    } else {
        lemma_dec_val_digits(n / 10);
        assert(dec_digits(n).drop_last() =~= dec_digits(n / 10));
        assert(dec_digits(n).last() == digit_char(n % 10));
        assert(n % 10 < 10);
        assert(digit_val(digit_char(n % 10)) == n % 10);
        lemma_fundamental_div_mod(n as int, 10);
    }
}

/// The candidate tried at step `i`: the base itself first, then the base
/// with the decimal suffix `i`.
pub open spec fn cand(base: Seq<char>, i: nat) -> Seq<char> {
    if i == 0 {
        base
    } else {
        base + dec_digits(i)
    }
}

pub proof fn lemma_cand_injective(base: Seq<char>, i: nat, j: nat)
    requires
        cand(base, i) == cand(base, j),
    ensures
        i == j,
{
    if i != j {
        lemma_dec_digits_len(i);
        lemma_dec_digits_len(j);
        if i == 0 || j == 0 {
            assert(cand(base, i).len() != cand(base, j).len());
        } else {
            let di = dec_digits(i);
            let dj = dec_digits(j);
            assert(base + di == base + dj);
            assert(di.len() == dj.len());
            assert forall|k: int| 0 <= k < di.len() implies di[k] == dj[k] by {
                assert((base + di)[base.len() + k] == di[k]);
                assert((base + dj)[base.len() + k] == dj[k]);
            }
            assert(di =~= dj);
            lemma_dec_val_digits(i);
            lemma_dec_val_digits(j);
        }
    }
}

/// The first `k` candidates, as a set.
pub open spec fn cands(base: Seq<char>, k: nat) -> Set<Seq<char>>
    decreases k,
{
    if k == 0 {
        Set::empty()
    } else {
        cands(base, (k - 1) as nat).insert(cand(base, (k - 1) as nat))
    }
}

pub proof fn lemma_cands(base: Seq<char>, k: nat)
    ensures
        cands(base, k).finite(),
        cands(base, k).len() == k,
        forall|x: Seq<char>|
            cands(base, k).contains(x) <==> exists|i: nat| i < k && x == cand(base, i),
    decreases k,
{
    if k > 0 {
        let prev = (k - 1) as nat;
        lemma_cands(base, prev);
        assert(!cands(base, prev).contains(cand(base, prev))) by {
            if cands(base, prev).contains(cand(base, prev)) {
                let i = choose|i: nat| i < prev && cand(base, prev) == cand(base, i);
                lemma_cand_injective(base, prev, i);
            }
        }
        assert forall|x: Seq<char>|
            cands(base, k).contains(x) <==> exists|i: nat| i < k && x == cand(base, i) by {
            if cands(base, k).contains(x) {
                if x == cand(base, prev) {
                    assert(prev < k && x == cand(base, prev));
                }
            } else if exists|i: nat| i < k && x == cand(base, i) {
                let i = choose|i: nat| i < k && x == cand(base, i);
                assert(i < prev || i == prev);
            }
        }
    }
}

/// `i` is the first index whose candidate avoids the set.
pub open spec fn is_least_fresh(avoid: Set<Seq<char>>, base: Seq<char>, i: nat) -> bool {
    &&& !avoid.contains(cand(base, i))
    &&& forall|j: nat| j < i ==> avoid.contains(cand(base, j))
}

pub proof fn lemma_least_fresh_unique(avoid: Set<Seq<char>>, base: Seq<char>, i: nat, j: nat)
    requires
        is_least_fresh(avoid, base, i),
        is_least_fresh(avoid, base, j),
    ensures
        i == j,
{
    if i < j {
        assert(avoid.contains(cand(base, i)));
    }
    if j < i {
        assert(avoid.contains(cand(base, j)));
    }
}

/// The name the freshness search returns: the candidate at the least free
/// index.
pub open spec fn spec_fresh(avoid: Set<Seq<char>>, base: Seq<char>) -> Seq<char> {
    cand(base, choose|i: nat| is_least_fresh(avoid, base, i))
}

proof fn lemma_least_below(avoid: Set<Seq<char>>, base: Seq<char>, i: nat)
    requires
        !avoid.contains(cand(base, i)),
    ensures
        exists|k: nat| is_least_fresh(avoid, base, k),
    decreases i,
{
    if forall|j: nat| j < i ==> avoid.contains(cand(base, j)) {
        assert(is_least_fresh(avoid, base, i));
    } else {
        let j = choose|j: nat| j < i && !avoid.contains(cand(base, j));
        lemma_least_below(avoid, base, j);
    }
}

pub proof fn lemma_exists_least_fresh(avoid: Set<Seq<char>>, base: Seq<char>)
    requires
        avoid.finite(),
    ensures
        exists|k: nat| is_least_fresh(avoid, base, k),
{
    let n = avoid.len();
    assert(exists|i: nat| i <= n && !avoid.contains(cand(base, i))) by {
        if forall|i: nat| i <= n ==> avoid.contains(#[trigger] cand(base, i)) {
            lemma_cands(base, n + 1);
            assert forall|x: Seq<char>| cands(base, n + 1).contains(x)
                implies avoid.contains(x) by {
                let i = choose|i: nat| i < n + 1 && x == cand(base, i);
                assert(avoid.contains(cand(base, i)));
            }
            lemma_len_subset(cands(base, n + 1), avoid);
        }
    }
    let i = choose|i: nat| i <= n && !avoid.contains(cand(base, i));
    lemma_least_below(avoid, base, i);
}

/// The fresh name is outside the avoid set.
pub proof fn lemma_spec_fresh_free(avoid: Set<Seq<char>>, base: Seq<char>)
    requires
        avoid.finite(),
    ensures
        !avoid.contains(spec_fresh(avoid, base)),
{
    lemma_exists_least_fresh(avoid, base);
    let k = choose|i: nat| is_least_fresh(avoid, base, i);
    assert(is_least_fresh(avoid, base, k));
}

fn digit_char_exec(d: u64) -> (c: char)
    requires
        d < 10,
    ensures
        c == digit_char(d as nat),
{
    if d == 0 {
        '0'
    } else if d == 1 {
        '1'
    } else if d == 2 {
        '2'
    } else if d == 3 {
        '3'
    } else if d == 4 {
        '4'
    } else if d == 5 {
        '5'
    } else if d == 6 {
        '6'
    } else if d == 7 {
        '7'
    } else if d == 8 {
        '8'
    } else {
        '9'
    }
}

fn push_dec_digits(n: u64, out: &mut Vec<char>)
    ensures
        final(out)@ == old(out)@ + dec_digits(n as nat),
    decreases n,
{
    if n < 10 {
        out.push(digit_char_exec(n));
        proof {
            assert(out@ =~= old(out)@ + dec_digits(n as nat));
        }
    } else {
        push_dec_digits(n / 10, out);
        out.push(digit_char_exec(n % 10));
        proof {
            assert(out@ =~= old(out)@ + dec_digits(n as nat));
        }
    }
}

/// The first of `base`, `base1`, `base2`, ... that is not in the avoid
/// list. Deterministic and total: the avoid set is finite while the
/// candidate names are all distinct.
pub fn fresh_var(avoid: &Vec<Vec<char>>, base: &Vec<char>) -> (r: Vec<char>)
    ensures
        r@ == spec_fresh(names_set(avoid@), base@),
{
    let ghost aset = names_set(avoid@);
    proof {
        lemma_names_set_finite(avoid@);
    }
    let avoid_len: usize = avoid.len();
    let mut counter: usize = 0;
    loop
        invariant
            aset == names_set(avoid@),
            aset.finite(),
            aset.len() <= avoid_len,
            counter <= aset.len(),
            forall|j: nat| j < counter ==> aset.contains(#[trigger] cand(base@, j)),
        decreases aset.len() - counter,
    {
        let mut c: Vec<char> = crate::term::copy_name(base);
        if counter > 0 {
            push_dec_digits(counter as u64, &mut c);
        }
        proof {
            assert(c@ == cand(base@, counter as nat));
        }
        if !crate::term::contains_name(avoid, &c) {
            proof {
                assert(is_least_fresh(aset, base@, counter as nat));
                let k = choose|i: nat| is_least_fresh(aset, base@, i);
                assert(is_least_fresh(aset, base@, k));
                lemma_least_fresh_unique(aset, base@, k, counter as nat);
            }
            return c;
        }
        proof {
            lemma_cands(base@, (counter + 1) as nat);
            assert forall|x: Seq<char>| cands(base@, (counter + 1) as nat).contains(x)
                implies aset.contains(x) by {
                let i = choose|i: nat| i < counter + 1 && x == cand(base@, i);
                assert(aset.contains(cand(base@, i)));
            }
            lemma_len_subset(cands(base@, (counter + 1) as nat), aset);
            assert(counter + 1 <= aset.len());
        }
        counter += 1;
    }
}

} // verus!
