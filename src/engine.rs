//! The retry decision: dead-letter store first, then the provider's circuit
//! breaker, then the retry budget.
use crate::circuit_breaker::{admits, gated, initial_state, CircuitBreaker, CircuitBreakerState};
use crate::current_timestamp_ms;
use crate::dlq::{DLQEntry, DLQEntryView, DeadLetterQueue};
use crate::registry::Registry;
use crate::retry_policy::{base_delay, delay_for, RetryPolicy};
use crate::{CircuitBreakerConfig, RetryConfig};
use vstd::prelude::*;
use vstd::string::*;

verus! {

/// A request to retry one transaction against one provider.
pub struct RetryRequest {
    pub transaction_id: String,
    pub psp_name: String,
    /// Attempts made so far.
    pub attempt_number: u32,
    pub payload: Vec<u8>,
}

/// Why a retry was or was not scheduled.
#[derive(Debug, Clone, Copy, PartialEq, Eq, Structural)]
pub enum RetryOutcome {
    Scheduled,
    AlreadyDeadLettered,
    CircuitOpen,
    MovedToDeadLetter,
}

/// The answer to a `RetryRequest`.
pub struct RetryResponse {
    pub retry_id: String,
    pub scheduled: bool,
    /// When the next attempt is due; 0 unless scheduled.
    pub next_retry_at_ms: u64,
    pub message: String,
    pub outcome: RetryOutcome,
}

/// What is known of a transaction whose retry was scheduled.
pub struct RetryState {
    pub attempt_count: u32,
    pub last_error: String,
    pub last_attempt_at_ms: u64,
}

#[derive(Debug, Clone, Copy, PartialEq, Eq, Structural)]
pub enum RetryStatus {
    InDlq,
    Retrying,
    NotFound,
}

/// What is known of one transaction.
pub struct RetryStatusResponse {
    pub transaction_id: String,
    pub attempt_count: u32,
    pub status: RetryStatus,
    pub last_error: String,
    pub in_dlq: bool,
}

/// The breaker state of a provider; one not seen yet has a fresh breaker.
pub open spec fn breaker_of(
    breakers: Map<Seq<char>, CircuitBreakerState>,
    psp: Seq<char>,
) -> CircuitBreakerState {
    if breakers.contains_key(psp) {
        breakers[psp]
    } else {
        initial_state()
    }
}

/// The error recorded for a transaction that ran out of retries.
pub open spec fn exhausted_error() -> Seq<char> {
    "Max retry attempts exceeded"@
}

/// The character of a decimal digit.
pub open spec fn digit_char(d: nat) -> char {
    if d == 0 {
        '0'
    } else if d == 1 {
        '1'
    } else if d == 2 {
        '2'
    } else if d == 3 {
        '3'
    } else if d == 4 {
        '4'
    } else if d == 5 {
        '5'
    } else if d == 6 {
        '6'
    } else if d == 7 {
        '7'
    } else if d == 8 {
        '8'
    } else {
        '9'
    }
}

/// `n` written in decimal, without leading zeros.
pub open spec fn decimal(n: nat) -> Seq<char>
    decreases n,
{
    if n < 10 {
        seq![digit_char(n)]
    } else {
        decimal(n / 10) + seq![digit_char(n % 10)]
    }
}

/// The text of a decimal digit.
fn digit_text(d: u64) -> (r: &'static str)
    requires
        d < 10,
    ensures
        r@ == seq![digit_char(d as nat)],
{
    proof {
        reveal_strlit("0");
        reveal_strlit("1");
        reveal_strlit("2");
        reveal_strlit("3");
        reveal_strlit("4");
        reveal_strlit("5");
        reveal_strlit("6");
        reveal_strlit("7");
        reveal_strlit("8");
        reveal_strlit("9");
    }
    if d == 0 {
        "0"
    } else if d == 1 {
        "1"
    } else if d == 2 {
        "2"
    } else if d == 3 {
        "3"
    } else if d == 4 {
        "4"
    } else if d == 5 {
        "5"
    } else if d == 6 {
        "6"
    } else if d == 7 {
        "7"
    } else if d == 8 {
        "8"
    } else {
        "9"
    }
}

/// `n` written in decimal.
fn decimal_text(n: u64) -> (r: String)
    ensures
        r@ == decimal(n as nat),
    decreases n,
{
    if n < 10 {
        digit_text(n).to_owned()
    } else {
        let mut r = decimal_text(n / 10);
        r.append(digit_text(n % 10));
        r
    }
}

/// The retry engine: one circuit breaker per provider, a shared retry
/// policy, the dead-letter store and the state of scheduled retries.
pub struct RetryEngineService {
    retry_policy: RetryPolicy,
    circuit_breakers: Registry<CircuitBreakerState>,
    dlq: DeadLetterQueue,
    retry_states: Registry<RetryState>,
    circuit_config: CircuitBreakerConfig,
}

/// What `schedule_retry` does, given the time `now` and the jitter draw
/// (`magnitude`, `up`): `pre` and `post` are the engine before and after,
/// `r` the response.
pub open spec fn schedule_post(
    pre: RetryEngineService,
    post: RetryEngineService,
    req: RetryRequest,
    r: RetryResponse,
    now: u64,
    magnitude: u64,
    up: bool,
) -> bool {
    let tid = req.transaction_id@;
    let psp = req.psp_name@;
    let attempt = req.attempt_number;
    let before = breaker_of(pre.breakers(), psp);
    &&& post.retry_config() == pre.retry_config()
    &&& post.circuit_config() == pre.circuit_config()
    &&& r.retry_id@ == tid
    &&& r.scheduled == (r.outcome == RetryOutcome::Scheduled)
    &&& if pre.dead_letters().contains_key(tid) {
        &&& r.outcome == RetryOutcome::AlreadyDeadLettered
        &&& r.next_retry_at_ms == 0
        &&& r.message@ == "Transaction already in dead letter queue"@
        &&& post.breakers() == pre.breakers()
        &&& post.dead_letters() == pre.dead_letters()
        &&& post.retries() == pre.retries()
    } else {
        &&& post.breakers() == pre.breakers().insert(psp, gated(before, now))
        &&& if !admits(before, now) {
            &&& r.outcome == RetryOutcome::CircuitOpen
            &&& r.next_retry_at_ms == 0
            &&& r.message@ == "Circuit breaker open for PSP: "@ + psp
            &&& post.dead_letters() == pre.dead_letters()
            &&& post.retries() == pre.retries()
        } else if attempt >= pre.retry_config().max_attempts {
            &&& r.outcome == RetryOutcome::MovedToDeadLetter
            &&& r.next_retry_at_ms == 0
            &&& r.message@ == "Max retries exceeded, moved to DLQ"@
            &&& post.dead_letters() == pre.dead_letters().insert(
                tid,
                DLQEntryView {
                    transaction_id: tid,
                    psp_name: psp,
                    payload: req.payload@,
                    attempt_count: attempt,
                    last_error: exhausted_error(),
                    timestamp_ms: now,
                },
            )
            &&& post.retries() == pre.retries()
        } else {
            &&& r.outcome == RetryOutcome::Scheduled
            &&& r.message@ == "Retry scheduled for attempt "@ + decimal((attempt + 1) as nat)
            &&& r.next_retry_at_ms == crate::circuit_breaker::add_sat(
                now,
                delay_for(pre.retry_config(), attempt, magnitude, up),
            )
            &&& post.dead_letters() == pre.dead_letters()
            &&& post.retries() == pre.retries().insert(tid, post.retries()[tid])
            &&& post.retries()[tid].attempt_count == attempt
            &&& post.retries()[tid].last_error@ == Seq::<char>::empty()
            &&& post.retries()[tid].last_attempt_at_ms == now
        }
    }
}

/// A request for a transaction that is already dead-lettered is rejected and
/// changes nothing.
pub proof fn law_dead_lettered_request_changes_nothing(
    pre: RetryEngineService,
    post: RetryEngineService,
    req: RetryRequest,
    r: RetryResponse,
    now: u64,
    magnitude: u64,
    up: bool,
)
    requires
        schedule_post(pre, post, req, r, now, magnitude, up),
        pre.dead_letters().contains_key(req.transaction_id@),
    ensures
        !r.scheduled,
        r.message@ == "Transaction already in dead letter queue"@,
        post.breakers() == pre.breakers(),
        post.dead_letters() == pre.dead_letters(),
        post.retries() == pre.retries(),
{
}

/// A request at the last attempt that the budget allows, for a transaction
/// not yet dead-lettered and a provider whose breaker lets it through, adds
/// exactly one dead-letter entry, for that transaction.
pub proof fn law_exhausted_request_adds_one_entry(
    pre: RetryEngineService,
    post: RetryEngineService,
    req: RetryRequest,
    r: RetryResponse,
    now: u64,
    magnitude: u64,
    up: bool,
)
    requires
        schedule_post(pre, post, req, r, now, magnitude, up),
        !pre.dead_letters().contains_key(req.transaction_id@),
        admits(breaker_of(pre.breakers(), req.psp_name@), now),
        req.attempt_number == pre.retry_config().max_attempts,
    ensures
        !r.scheduled,
        post.dead_letters().contains_key(req.transaction_id@),
        post.dead_letters().len() == pre.dead_letters().len() + 1,
        post.dead_letters().remove(req.transaction_id@) == pre.dead_letters(),
{
    pre.lemma_finite();
    let tid = req.transaction_id@;
    assert(post.dead_letters().remove(tid) =~= pre.dead_letters());
}

impl RetryEngineService {
    pub closed spec fn retry_config(&self) -> RetryConfig {
        self.retry_policy.config()
    }

    pub closed spec fn circuit_config(&self) -> CircuitBreakerConfig {
        self.circuit_config
    }

    /// The state of each provider's breaker, by provider id.
    pub closed spec fn breakers(&self) -> Map<Seq<char>, CircuitBreakerState> {
        self.circuit_breakers@
    }

    /// The dead-letter store, by transaction id.
    pub closed spec fn dead_letters(&self) -> Map<Seq<char>, DLQEntryView> {
        self.dlq@
    }

    /// Scheduled retries, by transaction id.
    pub closed spec fn retries(&self) -> Map<Seq<char>, RetryState> {
        self.retry_states@
    }

    /// The engine's three maps are finite.
    pub proof fn lemma_finite(&self)
        ensures
            self.breakers().dom().finite(),
            self.dead_letters().dom().finite(),
            self.retries().dom().finite(),
    {
        self.circuit_breakers.lemma_finite();
        self.dlq.lemma_finite();
        self.retry_states.lemma_finite();
    }

    pub fn new(retry_config: RetryConfig, circuit_config: CircuitBreakerConfig) -> (r: Self)
        ensures
            r.retry_config() == retry_config,
            r.circuit_config() == circuit_config,
            r.breakers() == Map::<Seq<char>, CircuitBreakerState>::empty(),
            r.dead_letters() == Map::<Seq<char>, DLQEntryView>::empty(),
            r.retries() == Map::<Seq<char>, RetryState>::empty(),
    {
        RetryEngineService {
            retry_policy: RetryPolicy::new(retry_config),
            circuit_breakers: Registry::new(),
            dlq: DeadLetterQueue::new(),
            retry_states: Registry::new(),
            circuit_config,
        }
    }

    /// The breaker of a provider, made fresh (and registered) the first
    /// time the provider is seen.
    fn get_or_create_circuit_breaker(&mut self, psp_name: &str) -> (r: CircuitBreaker)
        ensures
            r.config() == old(self).circuit_config(),
            r.current() == breaker_of(old(self).breakers(), psp_name@),
            final(self).breakers() == old(self).breakers().insert(psp_name@, r.current()),
            final(self).retry_config() == old(self).retry_config(),
            final(self).circuit_config() == old(self).circuit_config(),
            final(self).dead_letters() == old(self).dead_letters(),
            final(self).retries() == old(self).retries(),
    {
        let breaker = match self.circuit_breakers.get(psp_name) {
            Some(state) => CircuitBreaker::with_state(self.circuit_config, *state),
            None => CircuitBreaker::new(self.circuit_config),
        };
        self.circuit_breakers.insert(psp_name.to_owned(), breaker.get_state());
        breaker
    }

    /// Decides on a retry request, reading the clock and drawing the jitter.
    pub fn schedule_retry(&mut self, request: RetryRequest) -> (r: RetryResponse)
        ensures
            exists|now: u64, magnitude: u64, up: bool|
                magnitude <= base_delay(old(self).retry_config(), request.attempt_number) / 5
                    && schedule_post(*old(self), *final(self), request, r, now, magnitude, up),
    {
        let now = current_timestamp_ms();
        let (magnitude, up) = self.retry_policy.draw_jitter(request.attempt_number);
        self.schedule_retry_at(request, now, magnitude, up)
    }

    /// Decides on a retry request at time `now`, with the jitter draw
    /// (`magnitude`, `up`) given.
    pub fn schedule_retry_at(&mut self, request: RetryRequest, now: u64, magnitude: u64, up: bool) -> (r:
        RetryResponse)
        ensures
            schedule_post(*old(self), *final(self), request, r, now, magnitude, up),
    {
        let ghost req = request;
        let RetryRequest { transaction_id, psp_name, attempt_number, payload } = request;
        if self.dlq.contains(transaction_id.as_str()) {
            return RetryResponse {
                retry_id: transaction_id,
                scheduled: false,
                next_retry_at_ms: 0,
                message: "Transaction already in dead letter queue".to_owned(),
                outcome: RetryOutcome::AlreadyDeadLettered,
            };
        }
        let ghost breakers = self.breakers();
        let mut breaker = self.get_or_create_circuit_breaker(psp_name.as_str());
        let admitted = breaker.can_proceed_at(now);
        self.circuit_breakers.insert(psp_name.clone(), breaker.get_state());
        assert(self.breakers() =~= breakers.insert(
            psp_name@,
            gated(breaker_of(breakers, psp_name@), now),
        ));
        if !admitted {
            let mut message = "Circuit breaker open for PSP: ".to_owned();
            message.append(psp_name.as_str());
            return RetryResponse {
                retry_id: transaction_id,
                scheduled: false,
                next_retry_at_ms: 0,
                message,
                outcome: RetryOutcome::CircuitOpen,
            };
        }
        if !self.retry_policy.should_retry(attempt_number) {
            let entry = DLQEntry {
                transaction_id: transaction_id.clone(),
                psp_name,
                payload,
                attempt_count: attempt_number,
                last_error: "Max retry attempts exceeded".to_owned(),
                timestamp_ms: now,
            };
            self.dlq.add_entry(entry);
            return RetryResponse {
                retry_id: transaction_id,
                scheduled: false,
                next_retry_at_ms: 0,
                message: "Max retries exceeded, moved to DLQ".to_owned(),
                outcome: RetryOutcome::MovedToDeadLetter,
            };
        }
        let delay = self.retry_policy.delay_with_jitter(attempt_number, magnitude, up);
        let next_retry_at_ms = now.saturating_add(delay);
        self.retry_states.insert(
            transaction_id.clone(),
            RetryState { attempt_count: attempt_number, last_error: String::new(), last_attempt_at_ms: now },
        );
        let mut message = "Retry scheduled for attempt ".to_owned();
        let next_attempt = decimal_text(attempt_number as u64 + 1);
        message.append(next_attempt.as_str());
        RetryResponse {
            retry_id: transaction_id,
            scheduled: true,
            next_retry_at_ms,
            message,
            outcome: RetryOutcome::Scheduled,
        }
    }

    /// A snapshot of a provider's breaker, made fresh if the provider is new.
    pub fn get_circuit_status(&mut self, psp_name: &str) -> (r: CircuitBreakerState)
        ensures
            r == breaker_of(old(self).breakers(), psp_name@),
            final(self).breakers() == old(self).breakers().insert(psp_name@, r),
            final(self).retry_config() == old(self).retry_config(),
            final(self).circuit_config() == old(self).circuit_config(),
            final(self).dead_letters() == old(self).dead_letters(),
            final(self).retries() == old(self).retries(),
    {
        let breaker = self.get_or_create_circuit_breaker(psp_name);
        breaker.get_state()
    }

    /// What is known of a transaction: dead-lettered, being retried, or
    /// nothing, in that order.
    pub fn get_retry_status(&self, transaction_id: &str) -> (r: RetryStatusResponse)
        ensures
            r.transaction_id@ == transaction_id@,
            r.in_dlq == (r.status == RetryStatus::InDlq),
            self.dead_letters().contains_key(transaction_id@) ==> {
                &&& r.status == RetryStatus::InDlq
                &&& r.attempt_count == self.dead_letters()[transaction_id@].attempt_count
                &&& r.last_error@ == self.dead_letters()[transaction_id@].last_error
            },
            !self.dead_letters().contains_key(transaction_id@) && self.retries().contains_key(
                transaction_id@,
            ) ==> {
                &&& r.status == RetryStatus::Retrying
                &&& r.attempt_count == self.retries()[transaction_id@].attempt_count
                &&& r.last_error@ == self.retries()[transaction_id@].last_error@
            },
            !self.dead_letters().contains_key(transaction_id@) && !self.retries().contains_key(
                transaction_id@,
            ) ==> {
                &&& r.status == RetryStatus::NotFound
                &&& r.attempt_count == 0
                &&& r.last_error@ == Seq::<char>::empty()
            },
    {
        if let Some(entry) = self.dlq.get_entry(transaction_id) {
            return RetryStatusResponse {
                transaction_id: transaction_id.to_owned(),
                attempt_count: entry.attempt_count,
                status: RetryStatus::InDlq,
                last_error: entry.last_error,
                in_dlq: true,
            };
        }
        if let Some(state) = self.retry_states.get(transaction_id) {
            return RetryStatusResponse {
                transaction_id: transaction_id.to_owned(),
                attempt_count: state.attempt_count,
                status: RetryStatus::Retrying,
                last_error: state.last_error.clone(),
                in_dlq: false,
            };
        }
        RetryStatusResponse {
            transaction_id: transaction_id.to_owned(),
            attempt_count: 0,
            status: RetryStatus::NotFound,
            last_error: String::new(),
            in_dlq: false,
        }
    }
}

} // verus!
