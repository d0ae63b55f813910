//! Exponential backoff with optional jitter, and the retry budget.
use crate::RetryConfig;
use crate::wide::{digits_of, digits_ok, digits_value, shifted_value_capped, times};
use vstd::arithmetic::div_mod::{lemma_div_denominator, lemma_div_is_ordered, lemma_div_multiples_vanish};
use vstd::arithmetic::power::{lemma_pow1, lemma_pow_adds, lemma_pow_distributes, lemma_pow_positive, pow};
use vstd::prelude::*;

verus! {

/// The uncapped delay after `k` growth steps: `initial * (m / 1000)^k` with
/// the factor `m` in thousandths, truncated toward zero once.
pub open spec fn growth(cfg: RetryConfig, k: nat) -> int {
    cfg.initial_delay_ms * pow(cfg.backoff_multiplier_permille as int, k) / pow(1000, k)
}

/// The delay before `attempt`, capped at the maximum and without jitter.
pub open spec fn base_delay(cfg: RetryConfig, attempt: u32) -> u64 {
    if attempt == 0 {
        0
    } else if growth(cfg, (attempt - 1) as nat) < cfg.max_delay_ms {
        growth(cfg, (attempt - 1) as nat) as u64
    } else {
        cfg.max_delay_ms
    }
}

/// `delay` moved up or down by `magnitude`: never below 0, never above `max`.
pub open spec fn jittered(delay: u64, magnitude: u64, up: bool, max: u64) -> u64 {
    let moved: int = if up {
        delay + magnitude
    } else if magnitude >= delay {
        0
    } else {
        delay - magnitude
    };
    if moved < max {
        moved as u64
    } else {
        max
    }
}

/// The delay before `attempt` once the jitter draw (`magnitude`, `up`) is known.
pub open spec fn delay_for(cfg: RetryConfig, attempt: u32, magnitude: u64, up: bool) -> u64 {
    if attempt == 0 {
        0
    } else if cfg.jitter {
        jittered(base_delay(cfg, attempt), magnitude, up, cfg.max_delay_ms)
    } else {
        base_delay(cfg, attempt)
    }
}

proof fn lemma_pow_nonneg(b: int, e: nat)
    requires
        b >= 0,
    ensures
        pow(b, e) >= 0,
    decreases e,
{
    reveal(pow);
    if e > 0 {
        lemma_pow_nonneg(b, (e - 1) as nat);
        let p = pow(b, (e - 1) as nat);
        assert(b * p >= 0) by (nonlinear_arith)
            requires
                b >= 0,
                p >= 0,
        ;
    }
}

proof fn lemma_growth_nonneg(cfg: RetryConfig, k: nat)
    ensures
        growth(cfg, k) >= 0,
{
    lemma_pow_nonneg(cfg.backoff_multiplier_permille as int, k);
    lemma_pow_positive(1000, k);
    let a = cfg.initial_delay_ms * pow(cfg.backoff_multiplier_permille as int, k);
    assert(a >= 0) by (nonlinear_arith)
        requires
            a == cfg.initial_delay_ms * pow(cfg.backoff_multiplier_permille as int, k),
            cfg.initial_delay_ms >= 0,
            pow(cfg.backoff_multiplier_permille as int, k) >= 0,
    ;
    lemma_div_is_ordered(0, a, pow(1000, k));
}

/// One more growth step, against the previous one.
proof fn lemma_growth_step(cfg: RetryConfig, k: nat)
    ensures
        cfg.backoff_multiplier_permille >= 1000 ==> growth(cfg, k) <= growth(cfg, k + 1),
        cfg.backoff_multiplier_permille <= 1000 ==> growth(cfg, k + 1) <= growth(cfg, k),
{
    let m = cfg.backoff_multiplier_permille as int;
    let pm = pow(m, k);
    let pd = pow(1000, k);
    lemma_pow_nonneg(m, k);
    lemma_pow_positive(1000, k);
    lemma_pow_adds(m, k, 1);
    lemma_pow_adds(1000, k, 1);
    lemma_pow1(m);
    lemma_pow1(1000);
    let a = cfg.initial_delay_ms * pm;
    assert(a >= 0) by (nonlinear_arith)
        requires
            a == cfg.initial_delay_ms * pm,
            cfg.initial_delay_ms >= 0,
            pm >= 0,
    ;
    assert(cfg.initial_delay_ms * (pm * m) == a * m) by (nonlinear_arith)
        requires
            a == cfg.initial_delay_ms * pm,
    ;
    assert(pd * 1000 == 1000 * pd);
    // a / pd == (a * 1000) / (1000 * pd)
    lemma_div_denominator(a * 1000, 1000, pd);
    lemma_div_multiples_vanish(a, 1000);
    assert(a * 1000 == 1000 * a);
    if m >= 1000 {
        assert(a * 1000 <= a * m) by (nonlinear_arith)
            requires
                a >= 0,
                m >= 1000,
        ;
        lemma_div_is_ordered(a * 1000, a * m, 1000 * pd);
    }
    if m <= 1000 {
        assert(a * m <= a * 1000) by (nonlinear_arith)
            requires
                a >= 0,
                m <= 1000,
        ;
        lemma_div_is_ordered(a * m, a * 1000, 1000 * pd);
    }
}

/// With a factor of at least one, the uncapped delay never shrinks.
pub proof fn lemma_growth_monotone(cfg: RetryConfig, i: nat, j: nat)
    requires
        cfg.backoff_multiplier_permille >= 1000,
        i <= j,
    ensures
        growth(cfg, i) <= growth(cfg, j),
    decreases j,
{
    if i < j {
        lemma_growth_monotone(cfg, i, (j - 1) as nat);
        lemma_growth_step(cfg, (j - 1) as nat);
    }
}

/// With a factor of at most one, the uncapped delay never grows.
proof fn lemma_growth_antitone(cfg: RetryConfig, i: nat, j: nat)
    requires
        cfg.backoff_multiplier_permille <= 1000,
        i <= j,
    ensures
        growth(cfg, j) <= growth(cfg, i),
    decreases j,
{
    if i < j {
        lemma_growth_antitone(cfg, i, (j - 1) as nat);
        lemma_growth_step(cfg, (j - 1) as nat);
    }
}

/// A factor of exactly one keeps the initial delay; a zero initial delay stays zero.
proof fn lemma_growth_constant(cfg: RetryConfig, k: nat)
    ensures
        cfg.backoff_multiplier_permille == 1000 ==> growth(cfg, k) == cfg.initial_delay_ms,
        cfg.initial_delay_ms == 0 ==> growth(cfg, k) == 0,
{
    lemma_pow_positive(1000, k);
    let pm = pow(cfg.backoff_multiplier_permille as int, k);
    let pd = pow(1000, k);
    if cfg.backoff_multiplier_permille == 1000 {
        assert(cfg.initial_delay_ms * pd == pd * cfg.initial_delay_ms);
        lemma_div_multiples_vanish(cfg.initial_delay_ms as int, pd);
    }
    if cfg.initial_delay_ms == 0 {
        assert(cfg.initial_delay_ms * pm == 0);
    }
}

proof fn lemma_growth_whole_factor(cfg: RetryConfig, k: nat)
    requires
        cfg.backoff_multiplier_permille % 1000 == 0,
    ensures
        growth(cfg, k) == cfg.initial_delay_ms * pow((cfg.backoff_multiplier_permille / 1000) as int, k),
{
    let f = (cfg.backoff_multiplier_permille / 1000) as int;
    assert(cfg.backoff_multiplier_permille as int == 1000 * f);
    lemma_pow_distributes(1000, f, k);
    lemma_pow_positive(1000, k);
    let pd = pow(1000, k);
    let x = cfg.initial_delay_ms * pow(f, k);
    assert(cfg.initial_delay_ms * (pd * pow(f, k)) == pd * x) by (nonlinear_arith)
        requires
            x == cfg.initial_delay_ms * pow(f, k),
    ;
    lemma_div_multiples_vanish(x, pd);
}

/// A draw of at most a fifth of `base` keeps the result within a fifth of
/// `base` on either side, and never above `max`.
proof fn lemma_jitter_bounds(base: u64, magnitude: u64, up: bool, max: u64)
    requires
        base <= max,
        magnitude <= base / 5,
    ensures
        4 * base <= 5 * jittered(base, magnitude, up, max),
        5 * jittered(base, magnitude, up, max) <= 6 * base,
        jittered(base, magnitude, up, max) <= max,
{
    vstd::arithmetic::div_mod::lemma_fundamental_div_mod(base as int, 5);
}

/// Without jitter, and when the growth factor is a whole number `f`, the
/// delay before attempt `a >= 1` is `initial_delay * f^(a - 1)`, capped at the
/// maximum delay.
pub proof fn law_backoff_closed_form(cfg: RetryConfig, attempt: u32)
    requires
        cfg.backoff_multiplier_permille % 1000 == 0,
        attempt >= 1,
    ensures
        ({
            let raw = cfg.initial_delay_ms * pow(
                (cfg.backoff_multiplier_permille / 1000) as int,
                (attempt - 1) as nat,
            );
            base_delay(cfg, attempt) == if raw < cfg.max_delay_ms {
                raw
            } else {
                cfg.max_delay_ms as int
            }
        }),
{
    lemma_growth_whole_factor(cfg, (attempt - 1) as nat);
    lemma_growth_nonneg(cfg, (attempt - 1) as nat);
}

/// With a growth factor of at least one, the delay without jitter never
/// shrinks from one attempt to a later one.
pub proof fn law_backoff_monotone(cfg: RetryConfig, a: u32, b: u32)
    requires
        cfg.backoff_multiplier_permille >= 1000,
        1 <= a <= b,
    ensures
        base_delay(cfg, a) <= base_delay(cfg, b),
{
    lemma_growth_monotone(cfg, (a - 1) as nat, (b - 1) as nat);
    lemma_growth_nonneg(cfg, (a - 1) as nat);
}

/// With a draw of at most a fifth of the delay, the jittered delay stays
/// within a fifth of the unjittered one and never passes the maximum.
pub proof fn lemma_delay_bounds(cfg: RetryConfig, attempt: u32, magnitude: u64, up: bool)
    requires
        magnitude <= base_delay(cfg, attempt) / 5,
    ensures
        cfg.jitter ==> 4 * base_delay(cfg, attempt) <= 5 * delay_for(cfg, attempt, magnitude, up),
        cfg.jitter ==> 5 * delay_for(cfg, attempt, magnitude, up) <= 6 * base_delay(cfg, attempt),
        delay_for(cfg, attempt, magnitude, up) <= cfg.max_delay_ms,
{
    if attempt > 0 {
        lemma_growth_nonneg(cfg, (attempt - 1) as nat);
        lemma_jitter_bounds(base_delay(cfg, attempt), magnitude, up, cfg.max_delay_ms);
    }
}

/// Relies on rand's `thread_rng().gen_range(0..=bound)`: a value drawn from
/// `0..=bound`, which is never empty.
#[verifier::external_body]
fn draw_up_to(bound: u64) -> (r: u64)
    ensures
        r <= bound,
{
    rand::Rng::gen_range(&mut rand::thread_rng(), 0..=bound)
}

/// Relies on `rand::random::<bool>()`: a fair coin.
#[verifier::external_body]
fn draw_coin() -> bool {
    rand::random::<bool>()
}

/// Moves `delay` by `magnitude` in the drawn direction and keeps it within `0..=max`.
fn apply_jitter(delay: u64, magnitude: u64, up: bool, max: u64) -> (r: u64)
    ensures
        r == jittered(delay, magnitude, up, max),
{
    let moved = if up {
        delay.saturating_add(magnitude)
    } else {
        delay.saturating_sub(magnitude)
    };
    if moved < max {
        moved
    } else {
        max
    }
}

/// Decides whether an attempt may be retried and how long to wait before it.
pub struct RetryPolicy {
    config: RetryConfig,
}

impl RetryPolicy {
    /// The configuration this policy was made with.
    pub closed spec fn config(&self) -> RetryConfig {
        self.config
    }

    pub fn new(config: RetryConfig) -> (r: Self)
        ensures
            r.config() == config,
    {
        RetryPolicy { config }
    }

    /// The delay before `attempt` (at least 1), capped and without jitter.
    /// The product `initial * m^k` is kept exactly as base-1000 digits; the
    /// loop stops early once the result can no longer change.
    fn capped_delay(&self, attempt: u32) -> (r: u64)
        requires
            attempt >= 1,
        ensures
            r == base_delay(self.config(), attempt),
    {
        let ghost cfg = self.config;
        let m = self.config.backoff_multiplier_permille;
        let max = self.config.max_delay_ms;
        let steps = attempt - 1;
        proof {
            lemma_growth_constant(cfg, steps as nat);
            lemma_growth_nonneg(cfg, steps as nat);
        }
        if self.config.initial_delay_ms == 0 {
            return 0;
        }
        if m == 1000 {
            let init = self.config.initial_delay_ms;
            return if init < max {
                init
            } else {
                max
            };
        }
        let mut product = digits_of(self.config.initial_delay_ms);
        let mut i: u32 = 0;
        proof {
            vstd::arithmetic::power::lemma_pow0(m as int);
            vstd::arithmetic::power::lemma_pow0(1000);
        }
        while i < steps
            invariant
                i <= steps,
                steps == attempt - 1,
                cfg == self.config,
                m == cfg.backoff_multiplier_permille,
                max == cfg.max_delay_ms,
                digits_ok(product@),
                digits_value(product@) == cfg.initial_delay_ms * pow(m as int, i as nat),
            decreases steps - i,
        {
            let whole = shifted_value_capped(&product, i as usize, max);
            proof {
                lemma_growth_nonneg(cfg, i as nat);
            }
            if m > 1000 && whole == max {
                proof {
                    lemma_growth_monotone(cfg, i as nat, steps as nat);
                }
                return max;
            }
            if m < 1000 && whole == 0 {
                proof {
                    lemma_growth_antitone(cfg, i as nat, steps as nat);
                    lemma_growth_nonneg(cfg, steps as nat);
                }
                return 0;
            }
            product = times(&product, m);
            proof {
                lemma_pow_adds(m as int, i as nat, 1);
                lemma_pow1(m as int);
                let pm = pow(m as int, i as nat);
                assert(cfg.initial_delay_ms * pm * m == cfg.initial_delay_ms * (pm * m)) by (nonlinear_arith);
            }
            i = i + 1;
        }
        shifted_value_capped(&product, steps as usize, max)
    }

    /// The delay before `attempt` once a jitter draw is known: `magnitude`
    /// is how far the delay moves and `up` its direction; both are ignored
    /// when jitter is off.
    pub fn delay_with_jitter(&self, attempt: u32, magnitude: u64, up: bool) -> (r: u64)
        ensures
            r == delay_for(self.config(), attempt, magnitude, up),
    {
        if attempt == 0 {
            return 0;
        }
        let base = self.capped_delay(attempt);
        if self.config.jitter {
            apply_jitter(base, magnitude, up, self.config.max_delay_ms)
        } else {
            base
        }
    }

    /// Draws the jitter for `attempt`: how far its delay moves (at most a
    /// fifth of it) and in which direction. Nothing is drawn before the first
    /// attempt or when jitter is off.
    pub fn draw_jitter(&self, attempt: u32) -> (r: (u64, bool))
        ensures
            r.0 <= base_delay(self.config(), attempt) / 5,
    {
        if attempt == 0 || !self.config.jitter {
            return (0, true);
        }
        let base = self.capped_delay(attempt);
        let magnitude = draw_up_to(base / 5);
        let up = draw_coin();
        (magnitude, up)
    }

    /// The delay before `attempt`: none before the first attempt, otherwise
    /// the capped exponential delay, moved by a random jitter of at most a
    /// fifth of it when jitter is on.
    pub fn calculate_delay(&self, attempt: u32) -> (r: u64)
        ensures
            attempt == 0 ==> r == 0,
            !self.config().jitter ==> r == base_delay(self.config(), attempt),
            exists|magnitude: u64, up: bool|
                magnitude <= base_delay(self.config(), attempt) / 5 && r == delay_for(
                    self.config(),
                    attempt,
                    magnitude,
                    up,
                ),
            self.config().jitter ==> 4 * base_delay(self.config(), attempt) <= 5 * r && 5 * r <= 6
                * base_delay(self.config(), attempt) && r <= self.config().max_delay_ms,
    {
        let (magnitude, up) = self.draw_jitter(attempt);
        let r = self.delay_with_jitter(attempt, magnitude, up);
        proof {
            lemma_delay_bounds(self.config(), attempt, magnitude, up);
        }
        r
    }

    /// Whether `attempt` is still within the retry budget.
    pub fn should_retry(&self, attempt: u32) -> (r: bool)
        ensures
            r == (attempt < self.config().max_attempts),
    {
        attempt < self.config.max_attempts
    }

    pub fn max_attempts(&self) -> (r: u32)
        ensures
            r == self.config().max_attempts,
    {
        self.config.max_attempts
    }
}

} // verus!
