use vstd::arithmetic::div_mod::{lemma_fundamental_div_mod, lemma_fundamental_div_mod_converse};
use vstd::prelude::*;

verus! {

/// `n / m`, rounded up.
pub open spec fn ceil_div(n: int, m: int) -> int {
    (n + m - 1) / m
}

/// The elements of `s` at the positions that are multiples of `m`, in order.
pub open spec fn decimated<A>(s: Seq<A>, m: nat) -> Seq<A>
    recommends
        m >= 1,
{
    Seq::new(ceil_div(s.len() as int, m as int) as nat, |j: int| s[j * m])
}

proof fn lemma_ceil_step(i: int, m: int)
    requires
        i >= 0,
        m >= 1,
    ensures
        ceil_div(i, m) >= 0,
        i % m == 0 ==> ceil_div(i + 1, m) == ceil_div(i, m) + 1 && ceil_div(i, m) * m == i,
        i % m != 0 ==> ceil_div(i + 1, m) == ceil_div(i, m),
{
    let q = i / m;
    let r = i % m;
    lemma_fundamental_div_mod(i, m);
    assert(m * q == q * m) by (nonlinear_arith);
    assert((q + 1) * m == q * m + m) by (nonlinear_arith);
    assert(q >= 0) by (nonlinear_arith)
        requires
            i >= 0,
            m >= 1,
            q == i / m,
    ;
    if r == 0 {
        lemma_fundamental_div_mod_converse(i + m - 1, m, q, m - 1);
        lemma_fundamental_div_mod_converse(i + m, m, q + 1, 0);
    } else {
        lemma_fundamental_div_mod_converse(i + m - 1, m, q + 1, r - 1);
        lemma_fundamental_div_mod_converse(i + m, m, q + 1, r);
    }
}

/// Keeps the lines whose position in `lines` is a multiple of `modulo`, in
/// their order; that is `ceil(len / modulo)` lines, the first line always
/// among them when there is one.
pub fn decimate<'a>(lines: &Vec<&'a str>, modulo: usize) -> (r: Vec<&'a str>)
    requires
        modulo >= 1,
    ensures
        r@ == decimated(lines@, modulo as nat),
        r@.len() == ceil_div(lines@.len() as int, modulo as int),
{
    let mut out: Vec<&'a str> = Vec::new();
    let mut i: usize = 0;
    proof {
        lemma_fundamental_div_mod_converse(modulo - 1, modulo as int, 0, modulo - 1);
    }
    while i < lines.len()
        invariant
            modulo >= 1,
            i <= lines@.len(),
            out@.len() == ceil_div(i as int, modulo as int),
            forall|j: int| 0 <= j < out@.len() ==> out@[j] == lines@[j * modulo],
        decreases lines@.len() - i,
    {
        proof {
            lemma_ceil_step(i as int, modulo as int);
        }
        if i % modulo == 0 {
            out.push(lines[i]);
        }
        i = i + 1;
    }
    proof {
        lemma_ceil_step(i as int, modulo as int);
    }
    assert(out@ =~= decimated(lines@, modulo as nat));
    out
}

/// Keeping every line's position-multiple of one keeps the sequence as it is.
pub proof fn lemma_decimate_by_one_is_identity<A>(s: Seq<A>)
    ensures
        decimated(s, 1) == s,
{
    lemma_fundamental_div_mod_converse(s.len() as int, 1, s.len() as int, 0);
    assert(decimated(s, 1) =~= s);
}

/// The number of lines kept is the length divided by the modulo, rounded up.
pub proof fn lemma_decimated_len<A>(s: Seq<A>, m: nat)
    requires
        m >= 1,
    ensures
        decimated(s, m).len() == ceil_div(s.len() as int, m as int),
        decimated(s, m).len() <= s.len(),
{
    lemma_ceil_bounds(s.len() as int, m as int);
}

proof fn lemma_ceil_bounds(n: int, m: int)
    requires
        n >= 0,
        m >= 1,
    ensures
        0 <= ceil_div(n, m) <= n,
    decreases n,
{
    if n > 0 {
        lemma_ceil_bounds(n - 1, m);
        lemma_ceil_step(n - 1, m);
    } else {
        lemma_fundamental_div_mod_converse(m - 1, m, 0, m - 1);
    }
}

} // verus!
