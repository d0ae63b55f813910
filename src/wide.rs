//! Natural numbers of any size as little-endian base-1000 digit vectors.
//!
//! The backoff delay is `initial * m^k / 1000^k`, truncated once, with `m` in
//! thousandths. The product `initial * m^k` outgrows every machine integer,
//! but in base 1000 dividing it by `1000^k` only drops its `k` lowest
//! digits, so its integer part can be read off exactly.
use vstd::arithmetic::div_mod::{lemma_fundamental_div_mod_converse, lemma_div_is_ordered};
use vstd::arithmetic::power::{lemma_pow_adds, lemma_pow_positive, pow};
use vstd::prelude::*;

verus! {

/// The number that the digits `d` stand for, least significant first.
pub open spec fn digits_value(d: Seq<u32>) -> int
    decreases d.len(),
{
    if d.len() == 0 {
        0
    } else {
        digits_value(d.drop_last()) + d.last() * pow(1000, (d.len() - 1) as nat)
    }
}

/// Every digit is below 1000.
pub open spec fn digits_ok(d: Seq<u32>) -> bool {
    forall|i: int| 0 <= i < d.len() ==> d[i] < 1000
}

proof fn lemma_pow_step(e: nat)
    ensures
        pow(1000, e + 1) == 1000 * pow(1000, e),
        pow(1000, e) > 0,
        pow(1000, 0) == 1,
{
    lemma_pow_adds(1000, e, 1);
    reveal(pow);
    assert(pow(1000, 1) == 1000 * pow(1000, 0));
    lemma_pow_positive(1000, e);
}

/// Digits below 1000 stand for a number below `1000^len`.
pub proof fn lemma_value_bounds(d: Seq<u32>)
    requires
        digits_ok(d),
    ensures
        0 <= digits_value(d) < pow(1000, d.len()),
    decreases d.len(),
{
    reveal(pow);
    if d.len() > 0 {
        let n = (d.len() - 1) as nat;
        lemma_value_bounds(d.drop_last());
        lemma_pow_step(n);
        let p = pow(1000, n);
        let v = digits_value(d.drop_last());
        let x = d.last() as int;
        assert(v + x * p < 1000 * p && v + x * p >= 0) by (nonlinear_arith)
            requires
                0 <= v < p,
                0 <= x < 1000,
        ;
    }
}

/// Pushing a digit at the top adds it times `1000^len`.
proof fn lemma_value_push(d: Seq<u32>, x: u32)
    ensures
        digits_value(d.push(x)) == digits_value(d) + x * pow(1000, d.len()),
{
    assert(d.push(x).drop_last() =~= d);
}

/// Splitting the digits at `t`: the low part plus the high part times `1000^t`.
pub proof fn lemma_value_split(d: Seq<u32>, t: int)
    requires
        0 <= t <= d.len(),
    ensures
        digits_value(d) == digits_value(d.subrange(0, t)) + digits_value(d.subrange(t, d.len() as int))
            * pow(1000, t as nat),
    decreases d.len(),
{
    if t == d.len() {
        assert(d.subrange(0, t) =~= d);
        assert(d.subrange(t, d.len() as int) =~= Seq::<u32>::empty());
    } else {
        let s = d.drop_last();
        let n = d.len() - 1;
        lemma_value_split(s, t);
        assert(d.subrange(0, t) =~= s.subrange(0, t));
        let hi = d.subrange(t, d.len() as int);
        assert(hi.drop_last() =~= s.subrange(t, s.len() as int));
        assert(hi.last() == d.last());
        lemma_pow_adds(1000, (n - t) as nat, t as nat);
        let a = digits_value(s.subrange(0, t));
        let b = digits_value(s.subrange(t, s.len() as int));
        let x = d.last() as int;
        let pt = pow(1000, t as nat);
        let pr = pow(1000, (n - t) as nat);
        assert((b + x * pr) * pt == b * pt + x * (pr * pt)) by (nonlinear_arith);
    }
}

/// With the digits split at `t`, the number divided by `1000^t` is the high part.
pub proof fn lemma_value_shift(d: Seq<u32>, t: int)
    requires
        digits_ok(d),
        0 <= t <= d.len(),
    ensures
        digits_value(d) / pow(1000, t as nat) == digits_value(d.subrange(t, d.len() as int)),
{
    lemma_value_split(d, t);
    lemma_value_bounds(d.subrange(0, t));
    lemma_pow_step(t as nat);
    lemma_fundamental_div_mod_converse(
        digits_value(d),
        pow(1000, t as nat),
        digits_value(d.subrange(t, d.len() as int)),
        digits_value(d.subrange(0, t)),
    );
}

/// The digits of `n`.
pub fn digits_of(n: u64) -> (r: Vec<u32>)
    ensures
        digits_ok(r@),
        digits_value(r@) == n,
{
    let mut r: Vec<u32> = Vec::new();
    let mut c: u64 = n;
    proof {
        lemma_pow_step(0);
        assert(digits_value(r@) == 0);
        assert(c * pow(1000, r@.len()) == n);
    }
    while c > 0
        invariant
            digits_ok(r@),
            digits_value(r@) + c * pow(1000, r@.len()) == n,
        decreases c,
    {
        let ghost before = r@;
        let digit = (c % 1000) as u32;
        r.push(digit);
        proof {
            lemma_value_push(before, digit);
            lemma_pow_step(before.len());
            let p = pow(1000, before.len());
            let ci = c as int;
            assert(ci == (ci / 1000) * 1000 + ci % 1000);
            assert((ci % 1000) * p + (ci / 1000) * (1000 * p) == ci * p) by (nonlinear_arith)
                requires
                    ci == (ci / 1000) * 1000 + ci % 1000,
            ;
        }
        c = c / 1000;
    }
    r
}

/// The digits of `a * m`.
pub fn times(a: &Vec<u32>, m: u32) -> (r: Vec<u32>)
    requires
        digits_ok(a@),
    ensures
        digits_ok(r@),
        digits_value(r@) == digits_value(a@) * m,
{
    let mut r: Vec<u32> = Vec::new();
    let mut carry: u64 = 0;
    let mut i: usize = 0;
    proof {
        lemma_pow_step(0);
        assert(a@.subrange(0, 0) =~= Seq::<u32>::empty());
    }
    while i < a.len()
        invariant
            i <= a@.len(),
            r@.len() == i,
            digits_ok(a@),
            digits_ok(r@),
            carry <= m,
            digits_value(r@) + carry * pow(1000, i as nat) == digits_value(a@.subrange(0, i as int)) * m,
        decreases a@.len() - i,
    {
        let ghost before = r@;
        let d = a[i];
        assert(d < 1000);
        assert((d as int) * (m as int) <= 999 * (m as int)) by (nonlinear_arith)
            requires
                d < 1000,
        ;
        let t: u64 = (d as u64) * (m as u64) + carry;
        let digit = (t % 1000) as u32;
        r.push(digit);
        proof {
            lemma_value_push(before, digit);
            lemma_pow_step(i as nat);
            assert(a@.subrange(0, i + 1).drop_last() =~= a@.subrange(0, i as int));
            assert(a@.subrange(0, i + 1).last() == d);
            let p = pow(1000, i as nat);
            let ti = t as int;
            let va = digits_value(a@.subrange(0, i as int));
            assert(digits_value(a@.subrange(0, i + 1)) == va + (d as int) * p);
            let vr = digits_value(before);
            let c0 = carry as int;
            let mi = m as int;
            assert(vr + (ti % 1000) * p + (ti / 1000) * (1000 * p) == (va + (d as int) * p) * mi)
                by (nonlinear_arith)
                requires
                    ti == (d as int) * mi + c0,
                    vr + c0 * p == va * mi,
                    ti == (ti / 1000) * 1000 + ti % 1000,
            ;
            assert(ti == (ti / 1000) * 1000 + ti % 1000);
            assert((ti % 1000) * p + (ti / 1000) * (1000 * p) == ti * p) by (nonlinear_arith)
                requires
                    ti == (ti / 1000) * 1000 + ti % 1000,
            ;
            assert((va + (d as int) * p) * (m as int) == va * (m as int) + ((d as int) * (m as int)) * p)
                by (nonlinear_arith);
            assert(ti / 1000 <= m) by {
                lemma_div_is_ordered(ti, 1000 * (m as int), 1000);
                vstd::arithmetic::div_mod::lemma_div_multiples_vanish(m as int, 1000);
            }
        }
        carry = t / 1000;
        i = i + 1;
    }
    assert(a@.subrange(0, a@.len() as int) =~= a@);
    while carry > 0
        invariant
            digits_ok(r@),
            digits_value(r@) + carry * pow(1000, r@.len()) == digits_value(a@) * m,
        decreases carry,
    {
        let ghost before = r@;
        let digit = (carry % 1000) as u32;
        r.push(digit);
        proof {
            lemma_value_push(before, digit);
            lemma_pow_step(before.len());
            let p = pow(1000, before.len());
            let ci = carry as int;
            assert(ci == (ci / 1000) * 1000 + ci % 1000);
            assert((ci % 1000) * p + (ci / 1000) * (1000 * p) == ci * p) by (nonlinear_arith)
                requires
                    ci == (ci / 1000) * 1000 + ci % 1000,
            ;
        }
        carry = carry / 1000;
    }
    r
}

/// The number `d` stands for, divided by `1000^t` (truncated), and held at `cap`.
pub fn shifted_value_capped(d: &Vec<u32>, t: usize, cap: u64) -> (r: u64)
    requires
        digits_ok(d@),
    ensures
        r == if digits_value(d@) / pow(1000, t as nat) < cap {
            digits_value(d@) / pow(1000, t as nat)
        } else {
            cap as int
        },
{
    proof {
        lemma_pow_step(t as nat);
    }
    if d.len() <= t {
        proof {
            lemma_value_bounds(d@);
            vstd::arithmetic::power::lemma_pow_increases(1000, d@.len(), t as nat);
            lemma_fundamental_div_mod_converse(digits_value(d@), pow(1000, t as nat), 0, digits_value(d@));
            assert(digits_value(d@) / pow(1000, t as nat) == 0);
        }
        return if 0 < cap {
            0
        } else {
            cap
        };
    }
    proof {
        lemma_value_shift(d@, t as int);
    }
    let ghost hi = d@.subrange(t as int, d@.len() as int);
    let mut v: u64 = 0;
    let mut j: usize = d.len();
    while j > t
        invariant
            t <= j <= d@.len(),
            hi == d@.subrange(t as int, d@.len() as int),
            digits_value(d@) / pow(1000, t as nat) == digits_value(hi),
            digits_ok(d@),
            v < cap || (v == 0 && cap == 0),
            v == digits_value(d@.subrange(j as int, d@.len() as int)),
        decreases j,
    {
        let ghost tail = d@.subrange(j as int, d@.len() as int);
        let ghost longer = d@.subrange(j - 1, d@.len() as int);
        proof {
            lemma_value_split(longer, 1);
            assert(longer.subrange(1, longer.len() as int) =~= tail);
            assert(longer.subrange(0, 1) =~= Seq::<u32>::empty().push(d@[j - 1]));
            lemma_value_push(Seq::<u32>::empty(), d@[j - 1]);
            lemma_pow_step(0);
            assert(digits_value(Seq::<u32>::empty()) == 0);
            let x = d@[j - 1] as int;
            assert(x * pow(1000, 0) == x) by (nonlinear_arith)
                requires
                    pow(1000, 0) == 1,
            ;
            assert(digits_value(longer.subrange(0, 1)) == x);
            assert(pow(1000, 1) == 1000);
            let vt = digits_value(tail);
            assert(vt * pow(1000, 1) == vt * 1000) by (nonlinear_arith)
                requires
                    pow(1000, 1) == 1000,
            ;
            assert(digits_value(longer) == d@[j - 1] + v * 1000);
        }
        let next: u128 = (v as u128) * 1000 + d[j - 1] as u128;
        if next >= cap as u128 {
            proof {
                // The rest of the digits only add to the high part.
                let rest = hi.subrange(0, (j - 1 - t) as int);
                lemma_value_split(hi, (j - 1 - t) as int);
                assert(hi.subrange((j - 1 - t) as int, hi.len() as int) =~= longer);
                lemma_value_bounds(rest);
                lemma_pow_step((j - 1 - t) as nat);
                let p = pow(1000, (j - 1 - t) as nat);
                let vr = digits_value(rest);
                let vl = digits_value(longer);
                assert(vl == next as int);
                assert(vr + vl * p >= vl) by (nonlinear_arith)
                    requires
                        p >= 1,
                        vl >= 0,
                        vr >= 0,
                ;
                assert(digits_value(hi) >= cap);
            }
            return cap;
        }
        v = next as u64;
        j = j - 1;
    }
    assert(d@.subrange(j as int, d@.len() as int) == hi);
    v
}

} // verus!
