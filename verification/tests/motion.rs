use hsl_telepresence_robot::motion::{
    direction_plan, hat_address, hat_pins, pin_writes, watchdog_tick_ns, Direction, DirectionPin,
    DriveGuard, Level, MotorAction, PinWrite,
};

#[test]
fn estop_blocks_drives_until_cleared() {
    let mut guard = DriveGuard::new(400, 0);
    assert_eq!(guard.drive(10), MotorAction::Apply);
    assert_eq!(guard.applied(true), MotorAction::Hold);
    assert_eq!(guard.estop(true), MotorAction::Coast);
    guard.coasted(true);
    assert_eq!(guard.drive(20), MotorAction::Hold);
    assert_eq!(guard.tick(30), MotorAction::Hold);
    assert_eq!(guard.estop(false), MotorAction::Hold);
    assert_eq!(guard.drive(40), MotorAction::Apply);
}

#[test]
fn the_watchdog_coasts_after_silence_and_retries_a_failed_coast() {
    let mut guard = DriveGuard::new(400, 0);
    assert_eq!(guard.drive(100), MotorAction::Apply);
    guard.applied(true);
    assert_eq!(guard.tick(499), MotorAction::Hold);
    assert!(guard.is_silent(500));
    assert_eq!(guard.tick(500), MotorAction::Coast);
    guard.coasted(false);
    assert_eq!(guard.tick(600), MotorAction::Coast);
    guard.coasted(true);
    assert_eq!(guard.tick(700), MotorAction::Hold);
    assert_eq!(guard.applied(false), MotorAction::Coast);
}

#[test]
fn the_watchdog_ticks_four_times_per_window_but_not_too_fast() {
    assert_eq!(watchdog_tick_ns(400_000_000), 100_000_000);
    assert_eq!(watchdog_tick_ns(401_000_000), 100_250_000);
    assert_eq!(watchdog_tick_ns(40_000_000), 20_000_000);
    assert_eq!(watchdog_tick_ns(0), 20_000_000);
}

#[test]
fn direction_pins_follow_the_adafruit_wiring() {
    assert_eq!(
        direction_plan(Direction::Forward),
        [(DirectionPin::In1, Level::High), (DirectionPin::In2, Level::Low)]
    );
    assert_eq!(
        direction_plan(Direction::Reverse),
        [(DirectionPin::In2, Level::High), (DirectionPin::In1, Level::Low)]
    );
    assert_eq!(
        direction_plan(Direction::Release),
        [(DirectionPin::In1, Level::Low), (DirectionPin::In2, Level::Low)]
    );
}

#[test]
fn driving_a_pin_high_clears_full_off() {
    assert_eq!(pin_writes(Level::High), [PinWrite::SetFullOn, PinWrite::ClearFullOff]);
    assert_eq!(pin_writes(Level::Low), [PinWrite::SetFullOff, PinWrite::ClearFullOn]);
}

#[test]
fn the_hat_address_pins_come_from_the_offset_above_0x40() {
    assert_eq!(hat_pins(0x60), (true, false, false, false, false, false));
    assert_eq!(hat_pins(0x41), (false, false, false, false, false, true));
    assert_eq!(hat_address(0x60), pwm_pca9685::Address::from((true, false, false, false, false, false)));
}

#[test]
fn silence_is_caught_within_one_tick_of_the_timeout() {
    let timeout = 401_000_000;
    let tick = watchdog_tick_ns(timeout);
    let start = 7_000_123;
    let mut guard = DriveGuard::new(timeout, start);
    let t0 = 1_003_456_789;
    assert_eq!(guard.drive(t0), MotorAction::Apply);
    guard.applied(true);
    let mut look = start;
    loop {
        let action = guard.tick(look);
        assert_ne!(action, MotorAction::Apply);
        if action == MotorAction::Coast {
            break;
        }
        look += tick;
    }
    assert!(look >= t0 + timeout);
    assert!(look <= t0 + timeout + tick);
}
