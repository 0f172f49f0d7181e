//! Proof that the relay link actually carries traffic, and a loud death when it
//! stops.
//!
//! The check is a round trip: write a token to an address only this robot
//! uses, and wait to see it come back. The relay side of that lives with the
//! agent; this module holds what decides it: the tokens a round trip is
//! recognized by, and the count of consecutive failures that declares the link
//! dead.

use vstd::prelude::*;
use crate::text::{decimal, decimal_string, lemma_decimal_digits, lemma_split_at_separator};

verus! {

/// Consecutive failed round trips before the link is declared dead.
pub const FAILURES_BEFORE_DEAD: u32 = 4;

/// Range the clock part of a run id is truncated to, to stay readable in a
/// log line.
pub const CLOCK_MODULUS: u64 = 1_000_000_000;

/// The id a run stamps its tokens with: the clock reading, truncated, then the
/// number of token sets built before this one in the process.
pub open spec fn run_id(clock: nat, instance: nat) -> Seq<char> {
    decimal(clock % (CLOCK_MODULUS as nat)) + seq!['.'] + decimal(instance)
}

/// The `n`-th token of a run.
pub open spec fn token(run: Seq<char>, n: nat) -> Seq<char> {
    run + seq![':'] + decimal(n)
}

/// Issues the tokens a round trip is recognized by.
///
/// The probe address is a Param, so subscribing to it hands back whatever the
/// previous run left latched there; every run therefore stamps its tokens
/// with an id of its own.
pub struct Tokens {
    run: String,
    next: u64,
}

impl View for Tokens {
    type V = (Seq<char>, nat);

    /// The run id and the number of the next token.
    closed spec fn view(&self) -> (Seq<char>, nat) {
        (self.run@, self.next as nat)
    }
}

impl Tokens {
    /// The tokens of a run started at `clock_nanos` (any reading of a clock
    /// that changes across restarts) as the `instance`-th set built in this
    /// process.
    pub fn new(clock_nanos: u64, instance: u64) -> (tokens: Self)
        ensures
            tokens@ == (run_id(clock_nanos as nat, instance as nat), 0nat),
    {
        let mut run = decimal_string(clock_nanos % CLOCK_MODULUS);
        run.push('.');
        let tail = decimal_string(instance);
        let ghost head = run@;
        let mut i: usize = 0;
        let tail_chars = crate::text::chars_of(tail.as_str());
        while i < tail_chars.len()
            invariant
                tail_chars@ == tail@,
                i <= tail_chars@.len(),
                run@ == head + tail_chars@.take(i as int),
            decreases tail_chars@.len() - i,
        {
            run.push(tail_chars[i]);
            i += 1;
            assert(run@ =~= head + tail_chars@.take(i as int));
        }
        assert(tail_chars@.take(tail_chars@.len() as int) =~= tail_chars@);
        Tokens { run, next: 0 }
    }

    /// The run id.
    pub fn run(&self) -> (run: &str)
        ensures
            run@ == self@.0,
    {
        self.run.as_str()
    }

    /// The next token of this run.
    pub fn issue(&mut self) -> (issued: String)
        ensures
            issued@ == token(old(self)@.0, old(self)@.1),
            final(self)@.0 == old(self)@.0,
            final(self)@.1 == (if old(self)@.1 < u64::MAX { old(self)@.1 + 1 } else { 0 }),
    {
        let mut issued = self.run.clone();
        issued.push(':');
        let number = decimal_string(self.next);
        let number_chars = crate::text::chars_of(number.as_str());
        let ghost head = issued@;
        let mut i: usize = 0;
        while i < number_chars.len()
            invariant
                number_chars@ == number@,
                i <= number_chars@.len(),
                issued@ == head + number_chars@.take(i as int),
            decreases number_chars@.len() - i,
        {
            issued.push(number_chars[i]);
            i += 1;
            assert(issued@ =~= head + number_chars@.take(i as int));
        }
        assert(number_chars@.take(number_chars@.len() as int) =~= number_chars@);
        self.next = if self.next < u64::MAX { self.next + 1 } else { 0 };
        issued
    }
}

/// `std::time::SystemTime`, a reading of the wall clock.
#[verifier::external_type_specification]
#[verifier::external_body]
pub struct ExSystemTime(std::time::SystemTime);

/// Calls `SystemTime::now`. Claims nothing of the reading.
#[verifier::external_body]
fn system_time_now() -> std::time::SystemTime {
    std::time::SystemTime::now()
}

/// Calls `SystemTime::duration_since` with `UNIX_EPOCH`, giving `None` where
/// it reports an error (a clock set before the epoch). Claims nothing of the
/// duration.
#[verifier::external_body]
fn since_unix_epoch(t: &std::time::SystemTime) -> Option<std::time::Duration> {
    t.duration_since(std::time::UNIX_EPOCH).ok()
}

/// Calls `Duration::as_nanos`. Claims nothing of the count, which depends on
/// the clock that produced the duration.
#[verifier::external_body]
fn duration_nanos(d: &std::time::Duration) -> u128 {
    d.as_nanos()
}

impl Tokens {
    /// The tokens of a run starting now, as the `instance`-th set built in
    /// this process: the run id is stamped from the wall clock's nanoseconds
    /// since the Unix epoch (truncated to 64 bits), or from 0 when the clock
    /// reads before the epoch.
    pub fn fresh(instance: u64) -> (tokens: Self)
        ensures
            exists|clock: u64| tokens@ == (run_id(clock as nat, instance as nat), 0nat),
    {
        let nanos: u64 = match since_unix_epoch(&system_time_now()) {
            Some(elapsed) => duration_nanos(&elapsed) as u64,
            None => 0,
        };
        Tokens::new(nanos, instance)
    }
}

/// Tokens of one run are all different.
pub proof fn law_tokens_are_unique_within_a_run(run: Seq<char>, n1: nat, n2: nat)
    requires
        n1 != n2,
    ensures
        token(run, n1) != token(run, n2),
{
    if token(run, n1) == token(run, n2) {
        let prefix = run + seq![':'];
        assert(decimal(n1) =~= token(run, n1).subrange(prefix.len() as int, token(run, n1).len() as int));
        assert(decimal(n2) =~= token(run, n2).subrange(prefix.len() as int, token(run, n2).len() as int));
        crate::text::lemma_decimal_injective(n1, n2);
    }
}

/// Two token sets built as different instances never issue the same token,
/// whatever their clocks read: a token latched by an earlier run cannot pass
/// for one of a later run's.
pub proof fn law_runs_never_share_a_token(
    clock1: nat,
    instance1: nat,
    n1: nat,
    clock2: nat,
    instance2: nat,
    n2: nat,
)
    requires
        instance1 != instance2,
    ensures
        token(run_id(clock1, instance1), n1) != token(run_id(clock2, instance2), n2),
{
    let c1 = decimal(clock1 % (CLOCK_MODULUS as nat));
    let c2 = decimal(clock2 % (CLOCK_MODULUS as nat));
    let i1 = decimal(instance1);
    let i2 = decimal(instance2);
    let d1 = decimal(n1);
    let d2 = decimal(n2);
    lemma_decimal_digits(clock1 % (CLOCK_MODULUS as nat));
    lemma_decimal_digits(clock2 % (CLOCK_MODULUS as nat));
    lemma_decimal_digits(instance1);
    lemma_decimal_digits(instance2);
    if token(run_id(clock1, instance1), n1) == token(run_id(clock2, instance2), n2) {
        let rest1 = i1 + seq![':'] + d1;
        let rest2 = i2 + seq![':'] + d2;
        assert(token(run_id(clock1, instance1), n1) =~= c1 + seq!['.'] + rest1);
        assert(token(run_id(clock2, instance2), n2) =~= c2 + seq!['.'] + rest2);
        assert(forall|i: int| 0 <= i < c1.len() ==> c1[i] != '.');
        assert(forall|i: int| 0 <= i < c2.len() ==> c2[i] != '.');
        lemma_split_at_separator(c1, rest1, c2, rest2, '.');
        assert(forall|i: int| 0 <= i < i1.len() ==> i1[i] != ':');
        assert(forall|i: int| 0 <= i < i2.len() ==> i2[i] != ':');
        lemma_split_at_separator(i1, d1, i2, d2, ':');
        crate::text::lemma_decimal_injective(instance1, instance2);
    }
}

/// What one round trip's outcome means for the link.
#[derive(Debug, Clone, Copy, PartialEq, Eq, Structural)]
pub enum ProbeVerdict {
    /// The link answered, as it had been.
    Healthy,
    /// The link answered again after this many misses.
    Recovered(u32),
    /// The link missed; this many misses in a row so far.
    Missed(u32),
    /// The link missed too many times in a row: start over from scratch.
    Dead,
}

/// The verdict on a round trip after `failures` consecutive misses, and the
/// count of consecutive misses after it.
pub open spec fn spec_record(failures: u32, answered: bool) -> (u32, ProbeVerdict) {
    if answered {
        (0, if failures == 0 { ProbeVerdict::Healthy } else { ProbeVerdict::Recovered(failures) })
    } else if failures + 1 >= FAILURES_BEFORE_DEAD {
        ((failures + 1) as u32, ProbeVerdict::Dead)
    } else {
        ((failures + 1) as u32, ProbeVerdict::Missed((failures + 1) as u32))
    }
}

/// Counts consecutive failed round trips.
pub struct ProbeFailures {
    failures: u32,
}

impl View for ProbeFailures {
    type V = u32;

    closed spec fn view(&self) -> u32 {
        self.failures
    }
}

impl ProbeFailures {
    pub fn new() -> (probes: Self)
        ensures
            probes@ == 0,
    {
        ProbeFailures { failures: 0 }
    }

    /// Record one round trip.
    pub fn record(&mut self, answered: bool) -> (verdict: ProbeVerdict)
        requires
            old(self)@ < FAILURES_BEFORE_DEAD,
        ensures
            (final(self)@, verdict) == spec_record(old(self)@, answered),
    {
        if answered {
            let missed = self.failures;
            self.failures = 0;
            if missed == 0 {
                ProbeVerdict::Healthy
            } else {
                ProbeVerdict::Recovered(missed)
            }
        } else {
            self.failures = self.failures + 1;
            if self.failures >= FAILURES_BEFORE_DEAD {
                ProbeVerdict::Dead
            } else {
                ProbeVerdict::Missed(self.failures)
            }
        }
    }
}

/// The link is declared dead on exactly the fourth consecutive miss, and any
/// answer before that wipes the slate.
pub proof fn law_four_misses_in_a_row_kill_the_link(failures: u32)
    requires
        failures < FAILURES_BEFORE_DEAD,
    ensures
        spec_record(failures, true).0 == 0,
        spec_record(failures, false).1 == ProbeVerdict::Dead <==> failures + 1
            == FAILURES_BEFORE_DEAD,
        spec_record(spec_record(spec_record(spec_record(0, false).0, false).0, false).0, false).1
            == ProbeVerdict::Dead,
        spec_record(spec_record(spec_record(0, false).0, false).0, false).1 != ProbeVerdict::Dead,
{
}

} // verus!
