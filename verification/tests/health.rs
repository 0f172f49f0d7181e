use hsl_telepresence_robot::health::{ProbeFailures, ProbeVerdict, Tokens};

#[test]
fn tokens_are_unique_within_a_run() {
    let mut tokens = Tokens::fresh(0);
    let issued: Vec<String> = (0..100).map(|_| tokens.issue()).collect();
    let mut unique = issued.clone();
    unique.sort();
    unique.dedup();
    assert_eq!(unique.len(), issued.len());
}

#[test]
fn a_later_run_never_reissues_an_earlier_runs_token() {
    let mut first = Tokens::fresh(0);
    let mut second = Tokens::fresh(1);
    assert_ne!(first.run(), second.run(), "run ids collided");
    assert_ne!(first.issue(), second.issue());
}

#[test]
fn tokens_name_their_run_and_count() {
    let mut tokens = Tokens::new(1_234_567_890_123, 7);
    assert_eq!(tokens.run(), "567890123.7");
    assert_eq!(tokens.issue(), "567890123.7:0");
    assert_eq!(tokens.issue(), "567890123.7:1");
}

#[test]
fn four_missed_round_trips_in_a_row_declare_the_link_dead() {
    let mut probes = ProbeFailures::new();
    assert_eq!(probes.record(true), ProbeVerdict::Healthy);
    assert_eq!(probes.record(false), ProbeVerdict::Missed(1));
    assert_eq!(probes.record(false), ProbeVerdict::Missed(2));
    assert_eq!(probes.record(true), ProbeVerdict::Recovered(2));
    assert_eq!(probes.record(false), ProbeVerdict::Missed(1));
    assert_eq!(probes.record(false), ProbeVerdict::Missed(2));
    assert_eq!(probes.record(false), ProbeVerdict::Missed(3));
    assert_eq!(probes.record(false), ProbeVerdict::Dead);
}

#[test]
fn a_fresh_run_is_stamped_from_the_clock_and_its_instance() {
    let tokens = Tokens::fresh(42);
    let run = tokens.run().to_string();
    let (clock, instance) = run.split_once('.').expect("a run id holds a dot");
    assert_eq!(instance, "42");
    let clock: u64 = clock.parse().expect("the clock part is decimal");
    assert!(clock < 1_000_000_000);
}
