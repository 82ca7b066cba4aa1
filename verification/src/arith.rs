//! Integer arithmetic used when merging fugues: greatest common divisor,
//! least common multiple and the capped LCM over a list of tick durations.

use vstd::prelude::*;
use vstd::arithmetic::div_mod::{lemma_fundamental_div_mod, lemma_mod_multiples_basic};

verus! {

/// Euclid's greatest common divisor, with `gcd(a, 0) == a`.
pub open spec fn gcd(a: nat, b: nat) -> nat
    decreases b,
{
    if b == 0 {
        a
    } else {
        gcd(b, a % b)
    }
}

/// Least common multiple, with `lcm(a, b) == 0` when either side is zero.
pub open spec fn lcm(a: nat, b: nat) -> nat {
    if a == 0 || b == 0 {
        0
    } else {
        (a / gcd(a, b)) * b
    }
}

/// `d` divides `n` (for a positive `d`).
pub open spec fn divides(d: nat, n: nat) -> bool {
    d > 0 && n % d == 0
}

proof fn lemma_combination_divisible(g: int, x: int, y: int, q: int)
    requires
        g > 0,
        x % g == 0,
        y % g == 0,
    ensures
        (q * x + y) % g == 0,
{
    lemma_fundamental_div_mod(x, g);
    lemma_fundamental_div_mod(y, g);
    let k = q * (x / g) + y / g;
    assert(q * x + y == k * g) by (nonlinear_arith)
        requires
            x == g * (x / g) + x % g,
            y == g * (y / g) + y % g,
            x % g == 0,
            y % g == 0,
            k == q * (x / g) + y / g,
    ;
    lemma_mod_multiples_basic(k, g);
}

/// The gcd of two numbers, not both zero, is positive and divides both.
pub proof fn lemma_gcd_divides_both(a: nat, b: nat)
    requires
        a > 0 || b > 0,
    ensures
        gcd(a, b) > 0,
        divides(gcd(a, b), a),
        divides(gcd(a, b), b),
    decreases b,
{
    if b == 0 {
        assert(a % a == 0) by {
            lemma_mod_multiples_basic(1, a as int);
        }
    } else {
        let r = a % b;
        lemma_gcd_divides_both(b, r);
        let g = gcd(b, r);
        lemma_fundamental_div_mod(a as int, b as int);
        lemma_combination_divisible(g as int, b as int, r as int, (a / b) as int);
        assert((a / b) as int * b + r == a) by (nonlinear_arith)
            requires
                a as int == b * (a / b) + a % b,
                r == a % b,
        ;
    }
}

/// Every common divisor of `a` and `b` divides their gcd: the gcd is the
/// greatest common divisor.
pub proof fn lemma_common_divisor_divides_gcd(a: nat, b: nat, d: nat)
    requires
        divides(d, a),
        divides(d, b),
    ensures
        gcd(a, b) % d == 0,
    decreases b,
{
    if b != 0 {
        let r = a % b;
        lemma_fundamental_div_mod(a as int, b as int);
        lemma_combination_divisible(d as int, b as int, a as int, -((a / b) as int));
        assert(-((a / b) as int) * b + a == r) by (nonlinear_arith)
            requires
                a as int == b * (a / b) + a % b,
                r == a % b,
        ;
        lemma_common_divisor_divides_gcd(b, r, d);
    }
}

/// For positive `a` and `b`, `lcm(a, b)` is a positive common multiple of
/// both, and `lcm(a, b) * gcd(a, b) == a * b`.
pub proof fn lemma_lcm_is_common_multiple(a: nat, b: nat)
    requires
        a > 0,
        b > 0,
    ensures
        lcm(a, b) > 0,
        divides(a, lcm(a, b)),
        divides(b, lcm(a, b)),
        lcm(a, b) * gcd(a, b) == a * b,
{
    lemma_gcd_divides_both(a, b);
    let g = gcd(a, b);
    lemma_fundamental_div_mod(a as int, g as int);
    lemma_fundamental_div_mod(b as int, g as int);
    let ap = a / g;
    let bp = b / g;
    assert(a == g * ap && b == g * bp);
    assert(ap > 0) by (nonlinear_arith)
        requires a == g * ap, a > 0, g > 0, ap >= 0;
    assert(lcm(a, b) == ap * b);
    assert(ap * b > 0) by (nonlinear_arith)
        requires ap > 0, b > 0;
    assert(ap * b == bp * a) by (nonlinear_arith)
        requires a == g * ap, b == g * bp;
    lemma_mod_multiples_basic(ap as int, b as int);
    assert((ap * b) % b == 0);
    lemma_mod_multiples_basic(bp as int, a as int);
    assert((bp * a) % a == 0);
    assert(ap * b * g == a * b) by (nonlinear_arith)
        requires a == g * ap;
}

/// Greatest common divisor by Euclid's algorithm.
pub fn gcd_u64(a: u64, b: u64) -> (r: u64)
    ensures
        r == gcd(a as nat, b as nat),
    decreases b,
{
    if b == 0 {
        a
    } else {
        gcd_u64(b, a % b)
    }
}

/// Least common multiple, computed as `a / gcd(a, b) * b`; zero when either
/// argument is zero. The product must fit in a `u64`.
pub fn lcm_u64(a: u64, b: u64) -> (r: u64)
    requires
        lcm(a as nat, b as nat) <= u64::MAX,
    ensures
        r == lcm(a as nat, b as nat),
{
    if a == 0 || b == 0 {
        return 0;
    }
    proof {
        lemma_gcd_divides_both(a as nat, b as nat);
    }
    let g = gcd_u64(a, b);
    a / g * b
}


/// Left fold of `lcm` over `ds` starting from `acc`, skipping zero entries
/// and returning `cap` as soon as the running LCM exceeds it.
pub open spec fn lcm_capped_fold(acc: nat, ds: Seq<u64>, cap: nat) -> nat
    decreases ds.len(),
{
    if ds.len() == 0 {
        acc
    } else if ds[0] == 0 {
        lcm_capped_fold(acc, ds.drop_first(), cap)
    } else if lcm(acc, ds[0] as nat) > cap {
        cap
    } else {
        lcm_capped_fold(lcm(acc, ds[0] as nat), ds.drop_first(), cap)
    }
}

/// Every LCM step of [`lcm_capped_fold`] fits in a `u64`.
pub open spec fn lcm_capped_fold_fits(acc: nat, ds: Seq<u64>, cap: nat) -> bool
    decreases ds.len(),
{
    if ds.len() == 0 {
        true
    } else if ds[0] == 0 {
        lcm_capped_fold_fits(acc, ds.drop_first(), cap)
    } else {
        lcm(acc, ds[0] as nat) <= u64::MAX && (lcm(acc, ds[0] as nat) > cap
            || lcm_capped_fold_fits(lcm(acc, ds[0] as nat), ds.drop_first(), cap))
    }
}

/// Some step of [`lcm_capped_fold`] exceeds the cap.
pub open spec fn lcm_capped_fold_clamps(acc: nat, ds: Seq<u64>, cap: nat) -> bool
    decreases ds.len(),
{
    if ds.len() == 0 {
        false
    } else if ds[0] == 0 {
        lcm_capped_fold_clamps(acc, ds.drop_first(), cap)
    } else {
        lcm(acc, ds[0] as nat) > cap || lcm_capped_fold_clamps(
            lcm(acc, ds[0] as nat),
            ds.drop_first(),
            cap,
        )
    }
}

/// LCM of a list of tick durations, capped: zero for an empty list, the
/// cap when the first entry already exceeds it, otherwise the fold of
/// [`lcm_capped_fold`] seeded with the first entry.
pub open spec fn lcm_ticks_capped_spec(ds: Seq<u64>, cap: nat) -> nat {
    if ds.len() == 0 {
        0
    } else if ds[0] as nat > cap {
        cap
    } else {
        lcm_capped_fold(ds[0] as nat, ds.drop_first(), cap)
    }
}

/// Every LCM that [`lcm_ticks_capped_spec`] computes fits in a `u64`.
pub open spec fn lcm_ticks_capped_fits(ds: Seq<u64>, cap: nat) -> bool {
    ds.len() > 0 && ds[0] as nat <= cap ==> lcm_capped_fold_fits(ds[0] as nat, ds.drop_first(), cap)
}

proof fn lemma_divides_transitive(x: nat, l: nat, m: nat)
    requires
        divides(x, l),
        divides(l, m),
    ensures
        divides(x, m),
{
    lemma_fundamental_div_mod(l as int, x as int);
    lemma_fundamental_div_mod(m as int, l as int);
    let k = (l / x) * (m / l);
    assert(m == k * x) by (nonlinear_arith)
        requires
            l == x * (l / x) + l % x,
            m == l * (m / l) + m % l,
            l % x == 0,
            m % l == 0,
            k == (l / x) * (m / l),
    ;
    lemma_mod_multiples_basic(k as int, x as int);
}

proof fn lemma_capped_fold_multiple(acc: nat, ds: Seq<u64>, cap: nat)
    requires
        acc > 0,
        !lcm_capped_fold_clamps(acc, ds, cap),
    ensures
        divides(acc, lcm_capped_fold(acc, ds, cap)),
        forall|i: int| 0 <= i < ds.len() && ds[i] != 0 ==> divides(
            ds[i] as nat,
            #[trigger] lcm_capped_fold(acc, ds, cap),
        ),
    decreases ds.len(),
{
    let f = lcm_capped_fold(acc, ds, cap);
    if ds.len() == 0 {
        assert(acc % acc == 0) by {
            lemma_mod_multiples_basic(1, acc as int);
        }
    } else if ds[0] == 0 {
        lemma_capped_fold_multiple(acc, ds.drop_first(), cap);
        assert forall|i: int| 0 <= i < ds.len() && ds[i] != 0 implies divides(
            ds[i] as nat,
            lcm_capped_fold(acc, ds, cap),
        ) by {
            assert(ds[i] == ds.drop_first()[i - 1]);
        }
    } else {
        let l = lcm(acc, ds[0] as nat);
        lemma_lcm_is_common_multiple(acc, ds[0] as nat);
        lemma_capped_fold_multiple(l, ds.drop_first(), cap);
        lemma_divides_transitive(acc, l, f);
        lemma_divides_transitive(ds[0] as nat, l, f);
        assert forall|i: int| 0 <= i < ds.len() && ds[i] != 0 implies divides(
            ds[i] as nat,
            lcm_capped_fold(acc, ds, cap),
        ) by {
            if i > 0 {
                assert(ds[i] == ds.drop_first()[i - 1]);
            }
        }
    }
}

/// When no step exceeds the cap, the capped LCM of durations whose first
/// entry is non-zero is a common multiple of every non-zero duration: the
/// merged span holds a whole number of cycles of each member.
pub proof fn lemma_lcm_ticks_capped_common_multiple(ds: Seq<u64>, cap: nat)
    requires
        ds.len() > 0,
        ds[0] != 0,
        ds[0] as nat <= cap,
        !lcm_capped_fold_clamps(ds[0] as nat, ds.drop_first(), cap),
    ensures
        forall|i: int| 0 <= i < ds.len() && ds[i] != 0 ==> divides(
            ds[i] as nat,
            lcm_ticks_capped_spec(ds, cap),
        ),
{
    lemma_capped_fold_multiple(ds[0] as nat, ds.drop_first(), cap);
    assert forall|i: int| 0 <= i < ds.len() && ds[i] != 0 implies divides(
        ds[i] as nat,
        lcm_ticks_capped_spec(ds, cap),
    ) by {
        if i > 0 {
            assert(ds[i] == ds.drop_first()[i - 1]);
        }
    }
}

/// The capped LCM never exceeds the cap.
pub proof fn lemma_lcm_ticks_capped_bounded(ds: Seq<u64>, cap: nat)
    ensures
        lcm_ticks_capped_spec(ds, cap) <= cap,
{
    if ds.len() > 0 && ds[0] as nat <= cap {
        lemma_capped_fold_bounded(ds[0] as nat, ds.drop_first(), cap);
    }
}

proof fn lemma_capped_fold_bounded(acc: nat, ds: Seq<u64>, cap: nat)
    ensures
        lcm_capped_fold(acc, ds, cap) <= if acc > cap { acc } else { cap },
    decreases ds.len(),
{
    if ds.len() > 0 {
        if ds[0] == 0 {
            lemma_capped_fold_bounded(acc, ds.drop_first(), cap);
        } else {
            let l = lcm(acc, ds[0] as nat);
            if l <= cap {
                lemma_capped_fold_bounded(l, ds.drop_first(), cap);
            }
        }
    }
}

/// LCM over tick durations, clamped at `cap_ticks`: the first entry seeds
/// the running LCM (the cap when it already exceeds it), zero entries are
/// skipped, and the cap is returned as soon as the running LCM exceeds it.
/// Empty input yields zero.
pub fn lcm_ticks_capped(durations: &Vec<u64>, cap_ticks: u64) -> (r: u64)
    requires
        lcm_ticks_capped_fits(durations@, cap_ticks as nat),
    ensures
        r == lcm_ticks_capped_spec(durations@, cap_ticks as nat),
{
    if durations.len() == 0 {
        return 0;
    }
    if durations[0] > cap_ticks {
        return cap_ticks;
    }
    let ghost ds = durations@;
    let mut lcm_t: u64 = durations[0];
    let mut i: usize = 1;
    assert(ds.drop_first() == ds.subrange(1, ds.len() as int));
    while i < durations.len()
        invariant
            1 <= i <= durations@.len(),
            ds == durations@,
            lcm_capped_fold(lcm_t as nat, ds.subrange(i as int, ds.len() as int), cap_ticks as nat)
                == lcm_ticks_capped_spec(ds, cap_ticks as nat),
            lcm_capped_fold_fits(lcm_t as nat, ds.subrange(i as int, ds.len() as int), cap_ticks as nat),
        decreases durations@.len() - i,
    {
        let ghost rest = ds.subrange(i as int, ds.len() as int);
        assert(rest.drop_first() == ds.subrange(i + 1, ds.len() as int));
        let d_t = durations[i];
        if d_t != 0 {
            lcm_t = lcm_u64(lcm_t, d_t);
            if lcm_t > cap_ticks {
                return cap_ticks;
            }
        }
        i = i + 1;
    }
    assert(ds.subrange(i as int, ds.len() as int).len() == 0);
    lcm_t
}

/// Least common multiple, or `None` when it does not fit in a `u64`.
pub fn lcm_checked(a: u64, b: u64) -> (r: Option<u64>)
    ensures
        r == (if lcm(a as nat, b as nat) <= u64::MAX { Some(lcm(a as nat, b as nat) as u64) } else { None::<u64> }),
{
    if a == 0 || b == 0 {
        return Some(0);
    }
    proof {
        lemma_gcd_divides_both(a as nat, b as nat);
    }
    let g = gcd_u64(a, b);
    (a / g).checked_mul(b)
}

/// Whether [`lcm_ticks_capped`] can run on `durations`: every LCM it
/// computes before reaching the cap fits in a `u64`.
pub fn lcm_ticks_fit(durations: &Vec<u64>, cap_ticks: u64) -> (r: bool)
    ensures
        r == lcm_ticks_capped_fits(durations@, cap_ticks as nat),
{
    if durations.len() == 0 || durations[0] > cap_ticks {
        return true;
    }
    let ghost ds = durations@;
    let mut acc: u64 = durations[0];
    let mut i: usize = 1;
    assert(ds.drop_first() == ds.subrange(1, ds.len() as int));
    while i < durations.len()
        invariant
            1 <= i <= durations@.len(),
            ds == durations@,
            ds[0] <= cap_ticks,
            lcm_capped_fold_fits(acc as nat, ds.subrange(i as int, ds.len() as int), cap_ticks as nat)
                == lcm_capped_fold_fits(ds[0] as nat, ds.drop_first(), cap_ticks as nat),
        decreases durations@.len() - i,
    {
        let ghost rest = ds.subrange(i as int, ds.len() as int);
        assert(rest.drop_first() == ds.subrange(i + 1, ds.len() as int));
        let d_t = durations[i];
        if d_t != 0 {
            match lcm_checked(acc, d_t) {
                None => {
                    return false;
                },
                Some(l) => {
                    if l > cap_ticks {
                        return true;
                    }
                    acc = l;
                },
            }
        }
        i = i + 1;
    }
    assert(ds.subrange(i as int, ds.len() as int).len() == 0);
    true
}

} // verus!
