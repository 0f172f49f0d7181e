//! The decisions of the motion plane.
//!
//! Safety lives here, not in the network layer: a watchdog coasts the motors if
//! no drive command arrives within the configured window, and a latched e-stop
//! overrides all motion until it is explicitly cleared. The motor backend and
//! the wheel mixing (floating point) live with the agent, which feeds every
//! event to a [`DriveGuard`] and carries out the action it answers.
//!
//! Below that sits the Motor HAT's pin sequencing. The PCA9685 has a full-ON
//! bit and a full-OFF bit per channel, and full-OFF takes precedence; driving a
//! direction pin HIGH must therefore set full-ON *and* clear full-OFF, and LOW
//! the reverse.

use vstd::prelude::*;

verus! {

/// Shortest watchdog period, in nanoseconds (20 ms).
pub const MIN_WATCHDOG_TICK_NS: u64 = 20_000_000;

/// How often the watchdog looks, in nanoseconds, for a drive timeout of
/// `timeout_ns` nanoseconds: a quarter of the timeout (rounded down to the
/// nanosecond), so the coast happens close to the deadline, but no more
/// often than every `MIN_WATCHDOG_TICK_NS`.
pub open spec fn spec_watchdog_tick(timeout_ns: u64) -> u64 {
    if timeout_ns / 4 >= MIN_WATCHDOG_TICK_NS {
        timeout_ns / 4
    } else {
        MIN_WATCHDOG_TICK_NS
    }
}

/// How often the watchdog looks, in nanoseconds, for a drive timeout of
/// `timeout_ns` nanoseconds.
pub fn watchdog_tick_ns(timeout_ns: u64) -> (tick: u64)
    ensures
        tick == spec_watchdog_tick(timeout_ns),
{
    let quarter = timeout_ns / 4;
    if quarter >= MIN_WATCHDOG_TICK_NS {
        quarter
    } else {
        MIN_WATCHDOG_TICK_NS
    }
}

/// What the agent must do to the motors.
#[derive(Debug, Clone, Copy, PartialEq, Eq, Structural)]
pub enum MotorAction {
    /// Leave the motors as they are.
    Hold,
    /// Mix the command into wheel speeds and apply them.
    Apply,
    /// Release the motors so they spin down.
    Coast,
}

/// The motion task's state as the rules see it.
pub struct GuardView {
    /// Whether the latched e-stop is engaged.
    pub estopped: bool,
    /// When the last drive command arrived, in nanoseconds on the agent's
    /// clock.
    pub last_command: u64,
    /// Whether the motors are known to be coasting.
    pub coasting: bool,
    /// The drive watchdog window, in nanoseconds.
    pub timeout: u64,
}

/// Whether the drive commands have gone quiet for a whole window at `now`.
pub open spec fn is_silent(v: GuardView, now: u64) -> bool {
    now - v.last_command >= v.timeout
}

/// A drive command arrived: it is obeyed unless the e-stop is engaged, and
/// either way it feeds the watchdog.
pub open spec fn spec_drive(v: GuardView, now: u64) -> (GuardView, MotorAction) {
    (
        GuardView { last_command: now, ..v },
        if v.estopped {
            MotorAction::Hold
        } else {
            MotorAction::Apply
        },
    )
}

/// The wheels were written: on success the motors are running; a failed
/// write leaves them in an unknown state, so coast.
pub open spec fn spec_applied(v: GuardView, ok: bool) -> (GuardView, MotorAction) {
    if ok {
        (GuardView { coasting: false, ..v }, MotorAction::Hold)
    } else {
        (v, MotorAction::Coast)
    }
}

/// A coast was attempted: only a successful one counts, so the watchdog keeps
/// retrying otherwise.
pub open spec fn spec_coasted(v: GuardView, ok: bool) -> GuardView {
    if ok {
        GuardView { coasting: true, ..v }
    } else {
        v
    }
}

/// The e-stop was set: engaging it coasts at once.
pub open spec fn spec_estop(v: GuardView, engaged: bool) -> (GuardView, MotorAction) {
    (
        GuardView { estopped: engaged, ..v },
        if engaged {
            MotorAction::Coast
        } else {
            MotorAction::Hold
        },
    )
}

/// The watchdog looked at `now`: coast when commands went silent or the
/// e-stop is engaged, unless already coasting.
pub open spec fn spec_tick(v: GuardView, now: u64) -> MotorAction {
    if (is_silent(v, now) || v.estopped) && !v.coasting {
        MotorAction::Coast
    } else {
        MotorAction::Hold
    }
}

/// The motion safety state machine.
pub struct DriveGuard {
    estopped: bool,
    last_command: u64,
    coasting: bool,
    timeout: u64,
}

impl View for DriveGuard {
    type V = GuardView;

    closed spec fn view(&self) -> GuardView {
        GuardView {
            estopped: self.estopped,
            last_command: self.last_command,
            coasting: self.coasting,
            timeout: self.timeout,
        }
    }
}

impl DriveGuard {
    /// A guard started at `now`, with the motors coasting and no e-stop.
    pub fn new(timeout_ns: u64, now: u64) -> (guard: Self)
        ensures
            guard@ == (GuardView {
                estopped: false,
                last_command: now,
                coasting: true,
                timeout: timeout_ns,
            }),
    {
        DriveGuard { estopped: false, last_command: now, coasting: true, timeout: timeout_ns }
    }

    pub fn drive(&mut self, now: u64) -> (action: MotorAction)
        ensures
            (final(self)@, action) == spec_drive(old(self)@, now),
    {
        self.last_command = now;
        if self.estopped {
            MotorAction::Hold
        } else {
            MotorAction::Apply
        }
    }

    pub fn applied(&mut self, ok: bool) -> (action: MotorAction)
        ensures
            (final(self)@, action) == spec_applied(old(self)@, ok),
    {
        if ok {
            self.coasting = false;
            MotorAction::Hold
        } else {
            MotorAction::Coast
        }
    }

    pub fn coasted(&mut self, ok: bool)
        ensures
            final(self)@ == spec_coasted(old(self)@, ok),
    {
        if ok {
            self.coasting = true;
        }
    }

    pub fn estop(&mut self, engaged: bool) -> (action: MotorAction)
        ensures
            (final(self)@, action) == spec_estop(old(self)@, engaged),
    {
        self.estopped = engaged;
        if engaged {
            MotorAction::Coast
        } else {
            MotorAction::Hold
        }
    }

    pub fn tick(&self, now: u64) -> (action: MotorAction)
        ensures
            action == spec_tick(self@, now),
    {
        let silent = now >= self.last_command && now - self.last_command >= self.timeout;
        if (silent || self.estopped) && !self.coasting {
            MotorAction::Coast
        } else {
            MotorAction::Hold
        }
    }

    /// Whether the watchdog is coasting because commands went silent rather
    /// than because of the e-stop.
    pub fn is_silent(&self, now: u64) -> (silent: bool)
        ensures
            silent == (is_silent(self@, now) && !self@.estopped),
    {
        now >= self.last_command && now - self.last_command >= self.timeout && !self.estopped
    }
}

/// While the e-stop is engaged no drive command is obeyed, and nothing but
/// clearing the e-stop clears it.
pub proof fn law_estop_is_latched(v: GuardView, now: u64, ok: bool)
    requires
        v.estopped,
    ensures
        spec_drive(v, now).1 == MotorAction::Hold,
        spec_drive(v, now).0.estopped,
        spec_applied(v, ok).0.estopped,
        spec_coasted(v, ok).estopped,
        spec_tick(v, now) != MotorAction::Apply,
        spec_estop(v, true).0.estopped,
        !spec_estop(v, false).0.estopped,
        spec_drive(spec_estop(v, false).0, now).1 == MotorAction::Apply,
{
}

/// Engaging the e-stop coasts at once, and until a coast succeeds the
/// watchdog keeps asking for one.
pub proof fn law_estop_coasts_until_it_sticks(v: GuardView, now: u64)
    requires
        !v.coasting,
    ensures
        spec_estop(v, true).1 == MotorAction::Coast,
        spec_tick(spec_coasted(spec_estop(v, true).0, false), now) == MotorAction::Coast,
        spec_tick(spec_coasted(spec_estop(v, true).0, true), now) == MotorAction::Hold,
{
}

/// Silence for a whole watchdog window coasts running motors; commands
/// arriving within the window keep them running.
pub proof fn law_the_watchdog_coasts_on_silence(v: GuardView, now: u64, later: u64)
    requires
        !v.estopped,
        !v.coasting,
    ensures
        later >= now + v.timeout ==> spec_tick(spec_drive(v, now).0, later) == MotorAction::Coast,
        now <= later < now + v.timeout ==> spec_tick(spec_drive(v, now).0, later)
            == MotorAction::Hold,
{
}

/// With the watchdog looking every `spec_watchdog_tick` nanoseconds from
/// `start`, a drive applied at `t0` and followed by silence is caught by a
/// look no later than one tick after the timeout: that look coasts the
/// motors, and no look ever drives them.
pub proof fn law_silence_is_caught_within_one_tick(v: GuardView, t0: u64, start: u64)
    requires
        !v.estopped,
        start <= t0,
        t0 + v.timeout + spec_watchdog_tick(v.timeout) <= u64::MAX,
    ensures
        ({
            let running = spec_applied(spec_drive(v, t0).0, true).0;
            let p = spec_watchdog_tick(v.timeout) as int;
            &&& exists|k: nat|
                #![trigger (k * p)]
                t0 + v.timeout <= start + k * p <= t0 + v.timeout + p && spec_tick(
                    running,
                    (start + k * p) as u64,
                ) == MotorAction::Coast
            &&& forall|t: u64| #[trigger] spec_tick(running, t) != MotorAction::Apply
        }),
{
    let running = spec_applied(spec_drive(v, t0).0, true).0;
    let p = spec_watchdog_tick(v.timeout) as int;
    let d = t0 + v.timeout - start;
    let k = ((d + p - 1) / p) as nat;
    assert(d <= k * p <= d + p - 1) by (nonlinear_arith)
        requires
            p >= 1,
            d >= 0,
            k == (d + p - 1) / p,
    {
        assert(d + p - 1 == p * ((d + p - 1) / p) + (d + p - 1) % p);
    }
    assert(spec_tick(running, (start + k * p) as u64) == MotorAction::Coast);
}

/// A failed write to the motors always asks for a coast.
pub proof fn law_a_failed_write_fails_safe(v: GuardView)
    ensures
        spec_applied(v, false).1 == MotorAction::Coast,
{
}

/// A steady logic level on a direction pin.
#[derive(Debug, Clone, Copy, PartialEq, Eq, Structural)]
pub enum Level {
    High,
    Low,
}

/// The full-ON and full-OFF bits of one PCA9685 channel.
pub struct ChannelBits {
    pub full_on: bool,
    pub full_off: bool,
}

/// What a channel outputs: full-OFF wins over full-ON; with neither set the
/// channel follows its PWM duty (`None`).
pub open spec fn channel_output(bits: ChannelBits) -> Option<Level> {
    if bits.full_off {
        Some(Level::Low)
    } else if bits.full_on {
        Some(Level::High)
    } else {
        None
    }
}

/// One register write to a channel's full-ON or full-OFF bit.
#[derive(Debug, Clone, Copy, PartialEq, Eq, Structural)]
pub enum PinWrite {
    SetFullOn,
    ClearFullOn,
    SetFullOff,
    ClearFullOff,
}

/// A channel's bits after one write.
pub open spec fn apply_write(bits: ChannelBits, write: PinWrite) -> ChannelBits {
    match write {
        PinWrite::SetFullOn => ChannelBits { full_on: true, ..bits },
        PinWrite::ClearFullOn => ChannelBits { full_on: false, ..bits },
        PinWrite::SetFullOff => ChannelBits { full_off: true, ..bits },
        PinWrite::ClearFullOff => ChannelBits { full_off: false, ..bits },
    }
}

/// The writes that drive a channel to a steady level: set the level's own
/// bit, then clear the other, which would otherwise win or linger.
pub fn pin_writes(level: Level) -> (writes: [PinWrite; 2])
    ensures
        writes@ == (match level {
            Level::High => seq![PinWrite::SetFullOn, PinWrite::ClearFullOff],
            Level::Low => seq![PinWrite::SetFullOff, PinWrite::ClearFullOn],
        }),
{
    let writes = match level {
        Level::High => [PinWrite::SetFullOn, PinWrite::ClearFullOff],
        Level::Low => [PinWrite::SetFullOff, PinWrite::ClearFullOn],
    };
    assert(writes@ =~= match level {
        Level::High => seq![PinWrite::SetFullOn, PinWrite::ClearFullOff],
        Level::Low => seq![PinWrite::SetFullOff, PinWrite::ClearFullOn],
    });
    writes
}

/// Whatever state a channel was left in, its writes leave it at the level
/// asked for: the full-OFF bit left set by a coast cannot keep a pin low.
pub proof fn law_pin_writes_reach_their_level(bits: ChannelBits, level: Level)
    ensures
        channel_output(
            apply_write(
                apply_write(
                    bits,
                    match level {
                        Level::High => PinWrite::SetFullOn,
                        Level::Low => PinWrite::SetFullOff,
                    },
                ),
                match level {
                    Level::High => PinWrite::ClearFullOff,
                    Level::Low => PinWrite::ClearFullOn,
                },
            ),
        ) == Some(level),
{
}

/// Which way a motor turns, or whether it is released to coast.
#[derive(Debug, Clone, Copy, PartialEq, Eq, Structural)]
pub enum Direction {
    Forward,
    Reverse,
    Release,
}

/// The direction pins of one motor.
#[derive(Debug, Clone, Copy, PartialEq, Eq, Structural)]
pub enum DirectionPin {
    In1,
    In2,
}

/// The direction pins to drive, in order: forward is IN1 high then IN2 low,
/// reverse IN2 high then IN1 low, and release both low.
pub fn direction_plan(direction: Direction) -> (plan: [(DirectionPin, Level); 2])
    ensures
        plan@ == (match direction {
            Direction::Forward => seq![(DirectionPin::In1, Level::High), (DirectionPin::In2, Level::Low)],
            Direction::Reverse => seq![(DirectionPin::In2, Level::High), (DirectionPin::In1, Level::Low)],
            Direction::Release => seq![(DirectionPin::In1, Level::Low), (DirectionPin::In2, Level::Low)],
        }),
{
    let plan = match direction {
        Direction::Forward => [(DirectionPin::In1, Level::High), (DirectionPin::In2, Level::Low)],
        Direction::Reverse => [(DirectionPin::In2, Level::High), (DirectionPin::In1, Level::Low)],
        Direction::Release => [(DirectionPin::In1, Level::Low), (DirectionPin::In2, Level::Low)],
    };
    assert(plan@ =~= match direction {
        Direction::Forward => seq![(DirectionPin::In1, Level::High), (DirectionPin::In2, Level::Low)],
        Direction::Reverse => seq![(DirectionPin::In2, Level::High), (DirectionPin::In1, Level::Low)],
        Direction::Release => seq![(DirectionPin::In1, Level::Low), (DirectionPin::In2, Level::Low)],
    });
    plan
}

/// `pwm_pca9685::Address`, the chip address the driver is built with.
#[verifier::external_type_specification]
#[verifier::external_body]
pub struct ExAddress(pwm_pca9685::Address);

/// The address `pwm_pca9685` computes from the six address pins A5..A0.
pub uninterp spec fn pca9685_address_from_pins(pins: (bool, bool, bool, bool, bool, bool)) -> pwm_pca9685::Address;

/// Calls `Address::from` on a tuple of the six pins A5..A0. Claims only that
/// the result is a function of the pins.
#[verifier::external_body]
fn address_from_pins(pins: (bool, bool, bool, bool, bool, bool)) -> (address: pwm_pca9685::Address)
    ensures
        address == pca9685_address_from_pins(pins),
{
    pwm_pca9685::Address::from(pins)
}

/// The six address pins A5..A0 for a chip at I2C address `address`, whose
/// base is 0x40.
pub open spec fn spec_hat_pins(address: u8) -> (bool, bool, bool, bool, bool, bool) {
    let pins = (address + 192) % 256;
    (
        (pins / 32) % 2 == 1,
        (pins / 16) % 2 == 1,
        (pins / 8) % 2 == 1,
        (pins / 4) % 2 == 1,
        (pins / 2) % 2 == 1,
        pins % 2 == 1,
    )
}

/// The address pins for a chip at I2C address `address`.
pub fn hat_pins(address: u8) -> (pins: (bool, bool, bool, bool, bool, bool))
    ensures
        pins == spec_hat_pins(address),
{
    let pins: u8 = address.wrapping_sub(0x40);
    assert(pins == (address + 192) % 256) by (bit_vector)
        requires
            pins == (if address >= 0x40 { address - 0x40 } else { address + 192 }),
    ;
    (pins / 32 % 2 == 1, pins / 16 % 2 == 1, pins / 8 % 2 == 1, pins / 4 % 2 == 1, pins / 2 % 2 == 1, pins % 2 == 1)
}

/// The value the six address pins A5..A0 select, as bit 5 down to bit 0.
pub open spec fn pins_value(pins: (bool, bool, bool, bool, bool, bool)) -> int {
    (if pins.0 { 32int } else { 0 }) + (if pins.1 { 16int } else { 0 }) + (if pins.2 {
        8int
    } else {
        0
    }) + (if pins.3 { 4int } else { 0 }) + (if pins.4 { 2int } else { 0 }) + (if pins.5 {
        1int
    } else {
        0
    })
}

/// The pins chosen for any address select its offset above the base 0x40,
/// modulo the 64 offsets six pins can name: pin A_k is bit k of
/// `address - 0x40`. For an address in the chip's range, 0x40 to 0x7f, they
/// select exactly that address.
pub proof fn law_hat_pins_select_the_address(address: u8)
    ensures
        pins_value(spec_hat_pins(address)) == ((address + 192) % 256) % 64,
        0x40 <= address < 0x80 ==> 0x40 + pins_value(spec_hat_pins(address)) == address,
{
    let y: u8 = ((address as int + 192) % 256) as u8;
    assert(y == 32 * ((y / 32) % 2) + 16 * ((y / 16) % 2) + 8 * ((y / 8) % 2) + 4 * ((y / 4) % 2) + 2
        * ((y / 2) % 2) + y % 2 + 64 * (y / 64)) by (bit_vector);
    assert(y % 64 == y - 64 * (y / 64)) by (bit_vector);
}

/// The driver address for a chip at I2C address `address`. The Adafruit
/// default, 0x60, sets A5 only.
pub fn hat_address(address: u8) -> (a: pwm_pca9685::Address)
    ensures
        a == pca9685_address_from_pins(spec_hat_pins(address)),
{
    address_from_pins(hat_pins(address))
}

} // verus!
