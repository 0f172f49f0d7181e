use hsl_telepresence_robot::control::{display_name, Arbiter, ANONYMOUS, LEASE_TIMEOUT_MS};

fn arbiter() -> Arbiter {
    Arbiter::new()
}

fn start() -> u64 {
    Arbiter::new().now_ms() + 60_000
}

#[test]
fn free_wheel_is_taken_by_the_first_driver() {
    let mut a = arbiter();
    let t = start();
    assert!(a.accepts_at("alice", "", t));
    assert_eq!(a.current().unwrap().session, "alice");
}

#[test]
fn a_second_operator_is_ignored_while_the_first_drives() {
    let mut a = arbiter();
    let t = start();
    assert!(a.accepts_at("alice", "", t));
    assert!(!a.accepts_at("bob", "", t));
    let later = t + LEASE_TIMEOUT_MS * 2;
    assert!(a.accepts_at("alice", "", later));
    assert!(!a.accepts_at("bob", "", later));
}

#[test]
fn the_lease_lapses_when_the_driver_goes_quiet() {
    let mut a = arbiter();
    let t = start();
    assert!(a.accepts_at("alice", "", t));
    assert!(!a.expire_at(t + LEASE_TIMEOUT_MS / 2));
    assert!(a.expire_at(t + LEASE_TIMEOUT_MS));
    assert!(a.current().is_none());
    assert!(a.accepts_at("bob", "", t + LEASE_TIMEOUT_MS));
}

#[test]
fn a_lapsed_lease_is_picked_up_by_the_next_command() {
    let mut a = arbiter();
    let t = start();
    assert!(a.accepts_at("alice", "", t));
    assert!(a.accepts_at("bob", "", t + LEASE_TIMEOUT_MS));
    assert_eq!(a.current().unwrap().session, "bob");
}

#[test]
fn an_explicit_claim_takes_over() {
    let mut a = arbiter();
    let t = start();
    assert!(a.accepts_at("alice", "", t));
    let displaced = a.claim_at("bob", "Bob", t);
    assert_eq!(displaced.unwrap().session, "alice");
    assert_eq!(a.current().unwrap().name, "Bob");
    assert!(!a.accepts_at("alice", "", t));
    assert!(a.accepts_at("bob", "", t));
}

#[test]
fn reclaiming_your_own_wheel_displaces_nobody() {
    let mut a = arbiter();
    let t = start();
    a.claim_at("alice", "Alice", t);
    assert!(a.claim_at("alice", "Alice", t).is_none());
}

#[test]
fn release_frees_the_wheel_only_for_its_holder() {
    let mut a = arbiter();
    let t = start();
    a.claim_at("alice", "Alice", t);
    assert!(!a.release_at("bob", t));
    assert!(a.current().is_some());
    assert!(a.release_at("alice", t));
    assert!(a.current().is_none());
}

#[test]
fn a_stale_release_cannot_cut_short_the_new_driver() {
    let mut a = arbiter();
    let t = start();
    a.claim_at("alice", "Alice", t);
    a.claim_at("bob", "Bob", t);
    assert!(!a.release_at("alice", t));
    assert_eq!(a.current().unwrap().session, "bob");
}

#[test]
fn an_unnamed_claim_gets_a_readable_default() {
    let mut a = arbiter();
    let t = start();
    a.claim_at("alice", "   ", t);
    assert_eq!(a.current().unwrap().name, ANONYMOUS);
}

#[test]
fn a_long_name_is_bounded() {
    let mut a = arbiter();
    let t = start();
    a.claim_at("alice", &"n".repeat(200), t);
    assert_eq!(a.current().unwrap().name.chars().count(), 32);
}

#[test]
fn driving_a_free_wheel_names_the_driver_from_the_command() {
    let mut a = arbiter();
    let t = start();
    a.accepts_at("alice", "Ada", t);
    assert_eq!(a.current().unwrap().name, "Ada");
}

#[test]
fn legacy_consoles_share_one_anonymous_lease() {
    let mut a = arbiter();
    let t = start();
    assert!(a.accepts_at("", "", t));
    assert!(a.accepts_at("", "", t));
    assert!(!a.accepts_at("alice", "", t));
}

#[test]
fn the_holder_is_published_on_every_change() {
    let mut a = arbiter();
    let t = start();
    assert!(a.observe().is_none());

    a.claim_at("alice", "Alice", t);
    assert!(a.has_changed());
    assert_eq!(a.observe().unwrap().session, "alice");

    a.accepts_at("alice", "", t);
    assert!(!a.has_changed());

    a.release_at("alice", t);
    assert!(a.has_changed());
    assert!(a.observe().is_none());
}

#[test]
fn a_claim_on_the_live_clock_takes_the_wheel() {
    let mut a = arbiter();
    assert!(a.claim("alice", "Alice").is_none());
    assert!(!a.accepts("bob", "Bob"));
    assert!(a.accepts("alice", ""));
    assert!(!a.expire());
    assert!(a.release("alice"));
    assert!(a.current().is_none());
}

#[test]
fn display_names_are_trimmed_and_cut_by_characters() {
    assert_eq!(display_name("  Ada Lovelace \t"), "Ada Lovelace");
    assert_eq!(display_name(""), "operator");
    assert_eq!(display_name("\u{3000}\n"), "operator");
    assert_eq!(display_name("\u{a0}Ada\u{2009}\u{85}"), "Ada");
    assert_eq!(display_name("\u{200b}Ada"), "\u{200b}Ada");
    let long: String = "é".repeat(40);
    assert_eq!(display_name(&long), "é".repeat(32));
}

#[test]
fn a_lease_one_millisecond_short_of_the_timeout_still_holds() {
    let mut a = arbiter();
    let t = start();
    assert!(a.accepts_at("alice", "", t));
    assert!(!a.accepts_at("bob", "", t + LEASE_TIMEOUT_MS - 1));
    assert!(a.accepts_at("bob", "", t + LEASE_TIMEOUT_MS));
}
