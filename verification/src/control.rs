//! Who is allowed to drive.
//!
//! Any number of operators can watch the robot at once, but only one drives it.
//! The robot owns that decision rather than the consoles.
//!
//!   - Driving while the wheel is free claims it implicitly.
//!   - The lease lapses after `LEASE_TIMEOUT_MS` without a drive command.
//!   - An explicit claim still wins immediately.
//!   - The e-stop is deliberately not arbitrated (it never reaches this type).
//!
//! The arbiter is pure state: every `_at` method takes the current time in
//! milliseconds since an arbitrary fixed origin, so the rules hold for any
//! clock. The methods without `_at` read the arbiter's own monotonic clock.

use vstd::prelude::*;
use vstd::string::StringExecFns;
use crate::protocol::Driver;
use crate::text::{chars_of, str_eq, string_from_chars, trim, trim_bounds};

verus! {

/// How long the wheel stays held after the driver's last command, in
/// milliseconds.
pub const LEASE_TIMEOUT_MS: u64 = 1500;

/// Name recorded for an operator that never introduced itself.
pub const ANONYMOUS: &'static str = "operator";

/// Longest display name kept, in characters.
pub const MAX_NAME_CHARS: usize = 32;

/// The display name recorded for an operator: the name without surrounding
/// whitespace, cut to `MAX_NAME_CHARS` characters, or `ANONYMOUS` if nothing
/// is left.
pub open spec fn spec_display_name(name: Seq<char>) -> Seq<char> {
    let trimmed = trim(name);
    if trimmed.len() == 0 {
        ANONYMOUS@
    } else if trimmed.len() <= MAX_NAME_CHARS {
        trimmed
    } else {
        trimmed.take(MAX_NAME_CHARS as int)
    }
}

/// The display name recorded for an operator.
pub fn display_name(name: &str) -> (display: String)
    ensures
        display@ == spec_display_name(name@),
{
    let chars = chars_of(name);
    let (start, end) = trim_bounds(&chars);
    if start == end {
        String::from_str(ANONYMOUS)
    } else if end - start <= MAX_NAME_CHARS {
        string_from_chars(&chars, start, end)
    } else {
        let display = string_from_chars(&chars, start, start + MAX_NAME_CHARS);
        assert(display@ =~= trim(name@).take(MAX_NAME_CHARS as int));
        display
    }
}

/// A holder, as its session and display name.
pub type Holder = (Seq<char>, Seq<char>);

/// The arbiter's state as the rules see it.
pub struct ArbiterView {
    /// Who holds the wheel, if anyone.
    pub holder: Option<Holder>,
    /// When the holder last claimed or drove, or when the wheel last freed.
    pub touched: u64,
    /// Whether the holder changed since it was last observed.
    pub changed: bool,
}

/// Whether the holder has gone quiet for a whole lease at `now`.
pub open spec fn lease_lapsed(v: ArbiterView, now: u64) -> bool {
    v.holder is Some && now - v.touched >= LEASE_TIMEOUT_MS
}

/// The holder an explicit claim installs.
pub open spec fn claimant(session: Seq<char>, name: Seq<char>) -> Holder {
    (session, spec_display_name(name))
}

/// Take the wheel: the new state, and the operator displaced, if any.
pub open spec fn spec_claim(v: ArbiterView, session: Seq<char>, name: Seq<char>, now: u64) -> (
    ArbiterView,
    Option<Holder>,
) {
    let holder = claimant(session, name);
    let displaced = match v.holder {
        Some(previous) => if previous.0 != session {
            Some(previous)
        } else {
            None
        },
        None => None,
    };
    (
        ArbiterView {
            holder: Some(holder),
            touched: now,
            changed: v.changed || v.holder != Some(holder),
        },
        displaced,
    )
}

/// Give the wheel up; only its holder can.
pub open spec fn spec_release(v: ArbiterView, session: Seq<char>, now: u64) -> (ArbiterView, bool) {
    match v.holder {
        Some(holder) => if holder.0 == session {
            (ArbiterView { holder: None, touched: now, changed: true }, true)
        } else {
            (v, false)
        },
        None => (v, false),
    }
}

/// Drop a lapsed lease.
pub open spec fn spec_expire(v: ArbiterView, now: u64) -> (ArbiterView, bool) {
    if lease_lapsed(v, now) {
        (ArbiterView { holder: None, touched: now, changed: true }, true)
    } else {
        (v, false)
    }
}

/// Whether a drive command from `session` is obeyed, and the state after it.
/// A lapsed lease is dropped first; the holder renews by driving; a free wheel
/// is taken by driving.
pub open spec fn spec_accepts(v: ArbiterView, session: Seq<char>, name: Seq<char>, now: u64) -> (
    ArbiterView,
    bool,
) {
    let current = spec_expire(v, now).0;
    match current.holder {
        Some(holder) => if holder.0 == session {
            (ArbiterView { touched: now, ..current }, true)
        } else {
            (current, false)
        },
        None => (
            ArbiterView { holder: Some(claimant(session, name)), touched: now, changed: true },
            true,
        ),
    }
}

/// Decides which operator may drive.
pub struct Arbiter {
    driver: Option<Driver>,
    touched: u64,
    changed: bool,
    clock: std::time::Instant,
}

/// `std::time::Instant`, carried as the arbiter's clock origin.
#[verifier::external_type_specification]
#[verifier::external_body]
pub struct ExInstant(std::time::Instant);

/// Calls `Instant::now`. Claims nothing of the instant returned.
#[verifier::external_body]
fn instant_now() -> std::time::Instant {
    std::time::Instant::now()
}

/// Calls `Instant::elapsed`. Claims nothing of the duration returned.
#[verifier::external_body]
fn instant_elapsed(origin: &std::time::Instant) -> std::time::Duration {
    origin.elapsed()
}

/// Calls `Duration::as_millis`. Claims nothing of the count, which depends on
/// the clock that produced the duration.
#[verifier::external_body]
fn duration_millis(d: &std::time::Duration) -> u128 {
    d.as_millis()
}

pub open spec fn holder_of(driver: Option<Driver>) -> Option<Holder> {
    match driver {
        Some(d) => Some(d.view_pair()),
        None => None,
    }
}

impl View for Arbiter {
    type V = ArbiterView;

    closed spec fn view(&self) -> ArbiterView {
        ArbiterView { holder: holder_of(self.driver), touched: self.touched, changed: self.changed }
    }
}

impl Arbiter {
    /// A free wheel, with nothing to observe yet, last touched at the origin
    /// of the arbiter's own clock (the moment it was made).
    pub fn new() -> (arbiter: Self)
        ensures
            arbiter@ == (ArbiterView { holder: None, touched: 0, changed: false }),
    {
        Arbiter { driver: None, touched: 0, changed: false, clock: instant_now() }
    }

    /// Milliseconds on the arbiter's own clock, saturated to `u64`.
    pub fn now_ms(&self) -> u64 {
        let elapsed = instant_elapsed(&self.clock);
        let millis = duration_millis(&elapsed);
        if millis > u64::MAX as u128 {
            u64::MAX
        } else {
            millis as u64
        }
    }

    fn holder_is(&self, session: &str) -> (is: bool)
        ensures
            is == (self@.holder is Some && self@.holder.unwrap().0 == session@),
    {
        match &self.driver {
            Some(d) => str_eq(d.session.as_str(), session),
            None => false,
        }
    }

    fn set_driver(&mut self, driver: Option<Driver>, now: u64)
        ensures
            final(self)@.holder == holder_of(driver),
            final(self)@.touched == now,
            final(self)@.changed == (old(self)@.changed || old(self)@.holder != holder_of(driver)),
    {
        let differs = match (&self.driver, &driver) {
            (Some(a), Some(b)) => !(a.session == b.session && a.name == b.name),
            (None, None) => false,
            _ => true,
        };
        self.driver = driver;
        self.touched = now;
        self.changed = self.changed || differs;
    }

    /// Take the wheel. Returns the operator that was displaced, if any.
    pub fn claim_at(&mut self, session: &str, name: &str, now: u64) -> (displaced: Option<Driver>)
        ensures
            (final(self)@, holder_of(displaced)) == spec_claim(old(self)@, session@, name@, now),
    {
        let driver = Driver { session: String::from_str(session), name: display_name(name) };
        let previous = match &self.driver {
            Some(d) => Some(d.clone()),
            None => None,
        };
        let same = self.holder_is(session);
        self.set_driver(Some(driver), now);
        if same {
            None
        } else {
            previous
        }
    }

    /// Give the wheel up. Ignored unless `session` currently holds it, so a
    /// stale release from a previous holder cannot cut short the new one.
    pub fn release_at(&mut self, session: &str, now: u64) -> (released: bool)
        ensures
            (final(self)@, released) == spec_release(old(self)@, session@, now),
    {
        if self.holder_is(session) {
            self.set_driver(None, now);
            true
        } else {
            false
        }
    }

    /// Drop the lease if the holder has gone quiet. Returns true if it lapsed.
    pub fn expire_at(&mut self, now: u64) -> (lapsed: bool)
        ensures
            (final(self)@, lapsed) == spec_expire(old(self)@, now),
    {
        let stale = self.driver.is_some() && now >= self.touched && now - self.touched
            >= LEASE_TIMEOUT_MS;
        if stale {
            self.set_driver(None, now);
        }
        stale
    }

    /// Should a drive command from `session` be obeyed? Renews the lease when
    /// it should, and takes a free wheel on the operator's behalf.
    pub fn accepts_at(&mut self, session: &str, name: &str, now: u64) -> (obeyed: bool)
        ensures
            (final(self)@, obeyed) == spec_accepts(old(self)@, session@, name@, now),
    {
        self.expire_at(now);
        if self.driver.is_some() {
            if self.holder_is(session) {
                self.touched = now;
                true
            } else {
                false
            }
        } else {
            let driver = Driver { session: String::from_str(session), name: display_name(name) };
            self.set_driver(Some(driver), now);
            true
        }
    }

    /// Take the wheel now.
    pub fn claim(&mut self, session: &str, name: &str) -> (displaced: Option<Driver>)
        ensures
            exists|now: u64|
                (final(self)@, holder_of(displaced)) == spec_claim(
                    old(self)@,
                    session@,
                    name@,
                    now,
                ),
    {
        let now = self.now_ms();
        self.claim_at(session, name, now)
    }

    /// Give the wheel up now.
    pub fn release(&mut self, session: &str) -> (released: bool)
        ensures
            exists|now: u64| (final(self)@, released) == spec_release(old(self)@, session@, now),
    {
        let now = self.now_ms();
        self.release_at(session, now)
    }

    /// Should a drive command from `session` be obeyed now?
    pub fn accepts(&mut self, session: &str, name: &str) -> (obeyed: bool)
        ensures
            exists|now: u64|
                (final(self)@, obeyed) == spec_accepts(old(self)@, session@, name@, now),
    {
        let now = self.now_ms();
        self.accepts_at(session, name, now)
    }

    /// Drop the lease now if the holder has gone quiet.
    pub fn expire(&mut self) -> (lapsed: bool)
        ensures
            exists|now: u64| (final(self)@, lapsed) == spec_expire(old(self)@, now),
    {
        let now = self.now_ms();
        self.expire_at(now)
    }

    /// The current holder.
    pub fn current(&self) -> (holder: Option<Driver>)
        ensures
            holder_of(holder) == self@.holder,
    {
        match &self.driver {
            Some(d) => Some(d.clone()),
            None => None,
        }
    }

    /// Whether the holder changed since it was last observed.
    pub fn has_changed(&self) -> (changed: bool)
        ensures
            changed == self@.changed,
    {
        self.changed
    }

    /// The current holder, marking it observed.
    pub fn observe(&mut self) -> (holder: Option<Driver>)
        ensures
            holder_of(holder) == old(self)@.holder,
            final(self)@ == (ArbiterView { changed: false, ..old(self)@ }),
    {
        self.changed = false;
        self.current()
    }
}


/// A drive command is obeyed only from the operator who then holds the wheel;
/// a refused command comes from someone else while a live lease is held, and
/// changes nothing.
pub proof fn law_only_the_holder_drives(v: ArbiterView, session: Seq<char>, name: Seq<char>, now: u64)
    ensures
        ({
            let (after, obeyed) = spec_accepts(v, session, name, now);
            &&& obeyed ==> after.holder is Some && after.holder.unwrap().0 == session
            &&& !obeyed ==> {
                &&& after == v
                &&& v.holder is Some
                &&& v.holder.unwrap().0 != session
                &&& !lease_lapsed(v, now)
            }
        }),
{
}

/// The operator holding the wheel keeps it by driving, however long the pause.
pub proof fn law_the_holder_keeps_driving(v: ArbiterView, session: Seq<char>, name: Seq<char>, now: u64)
    requires
        v.holder is Some,
        v.holder.unwrap().0 == session,
    ensures
        spec_accepts(v, session, name, now).1,
{
}

/// Renewing a live lease only moves its timestamp: nothing is republished.
pub proof fn law_renewal_is_silent(v: ArbiterView, session: Seq<char>, name: Seq<char>, now: u64)
    requires
        v.holder is Some,
        v.holder.unwrap().0 == session,
        !lease_lapsed(v, now),
    ensures
        spec_accepts(v, session, name, now) == (ArbiterView { touched: now, ..v }, true),
{
}

/// A lease lapses a full timeout after the holder's last command: it is
/// dropped, and the next operator to drive is obeyed.
pub proof fn law_the_lease_lapses(
    v: ArbiterView,
    other: Seq<char>,
    name: Seq<char>,
    now: u64,
)
    requires
        v.holder is Some,
        now >= v.touched + LEASE_TIMEOUT_MS,
    ensures
        spec_expire(v, now) == (ArbiterView { holder: None, touched: now, changed: true }, true),
        spec_accepts(v, other, name, now).1,
        spec_accepts(v, other, name, now).0.holder == Some(claimant(other, name)),
{
}

/// An explicit claim wins at once, reports whom it displaced, and holds off
/// every other driver until the lease lapses.
pub proof fn law_a_claim_takes_over(
    v: ArbiterView,
    session: Seq<char>,
    name: Seq<char>,
    now: u64,
    other: Seq<char>,
    other_name: Seq<char>,
    later: u64,
)
    requires
        other != session,
        now <= later < now + LEASE_TIMEOUT_MS,
    ensures
        ({
            let (after, displaced) = spec_claim(v, session, name, now);
            &&& after.holder == Some(claimant(session, name))
            &&& displaced == (if v.holder is Some && v.holder.unwrap().0 != session {
                v.holder
            } else {
                None
            })
            &&& !spec_accepts(after, other, other_name, later).1
            &&& spec_accepts(after, session, other_name, later).1
        }),
{
}

/// Only the holder can give the wheel up; anyone else's release changes
/// nothing, so a displaced driver's late release cannot cut the new one short.
pub proof fn law_release_is_for_the_holder(
    v: ArbiterView,
    holder: Seq<char>,
    holder_name: Seq<char>,
    other: Seq<char>,
    t1: u64,
    t2: u64,
)
    requires
        other != holder,
    ensures
        spec_release(spec_claim(v, holder, holder_name, t1).0, other, t2) == (
            spec_claim(v, holder, holder_name, t1).0,
            false,
        ),
        spec_release(spec_claim(v, holder, holder_name, t1).0, holder, t2).0.holder is None,
        spec_release(spec_claim(v, holder, holder_name, t1).0, holder, t2).1,
{
}

/// Every change of holder is flagged for publication, whichever operation
/// made it.
pub proof fn law_every_change_is_published(
    v: ArbiterView,
    session: Seq<char>,
    name: Seq<char>,
    now: u64,
)
    ensures
        spec_claim(v, session, name, now).0.holder != v.holder ==> spec_claim(
            v,
            session,
            name,
            now,
        ).0.changed,
        spec_release(v, session, now).0.holder != v.holder ==> spec_release(v, session, now).0.changed,
        spec_expire(v, now).0.holder != v.holder ==> spec_expire(v, now).0.changed,
        spec_accepts(v, session, name, now).0.holder != v.holder ==> spec_accepts(
            v,
            session,
            name,
            now,
        ).0.changed,
        v.changed ==> spec_claim(v, session, name, now).0.changed && spec_release(
            v,
            session,
            now,
        ).0.changed && spec_expire(v, now).0.changed && spec_accepts(
            v,
            session,
            name,
            now,
        ).0.changed,
{
}

} // verus!
