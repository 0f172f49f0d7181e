use hsl_telepresence_robot::protocol::{Presence, SignalMessage};
use hsl_telepresence_robot::roster::Roster;
use hsl_telepresence_robot::video::{
    choose_capture_node, has_new_viewer, peer_element_name, pipeline_description, Arrival,
    Failure, SignalRoute, ViewerRoom, JOIN_DEBOUNCE_MS, VIEWER_TIMEOUT_MS,
};

fn watching(names: &[&str]) -> Roster {
    let mut roster = Roster::new();
    for n in names {
        roster.insert(n, 0);
    }
    roster
}

fn served(names: &[&str]) -> Vec<String> {
    names.iter().map(|n| n.to_string()).collect()
}

#[test]
fn serving_exactly_the_current_audience_needs_no_rebuild() {
    assert!(!has_new_viewer(
        &served(&["alice", "bob"]),
        &watching(&["alice", "bob"])
    ));
}

#[test]
fn a_viewer_leaving_does_not_rebuild() {
    assert!(!has_new_viewer(
        &served(&["alice", "bob"]),
        &watching(&["alice"])
    ));
}

#[test]
fn a_viewer_joining_rebuilds() {
    assert!(has_new_viewer(
        &served(&["alice"]),
        &watching(&["alice", "bob"])
    ));
}

#[test]
fn a_swap_within_the_same_count_rebuilds() {
    assert!(has_new_viewer(&served(&["alice"]), &watching(&["bob"])));
}

#[test]
fn a_viewer_that_comes_back_after_dropping_out_rebuilds() {
    let mut still_served = served(&["alice", "bob"]);
    still_served.retain(|v| v != "bob");
    assert!(has_new_viewer(&still_served, &watching(&["alice", "bob"])));
}

fn hello(session: &str, role: &str) -> Presence {
    Presence { session: session.to_string(), role: role.to_string() }
}

fn started(room: &mut ViewerRoom, now: u64) -> u64 {
    assert!(room.sweep(now).rebuild.is_none(), "the debounce collects arrivals");
    let (generation, peers) = room.sweep(now + JOIN_DEBOUNCE_MS).rebuild.expect("a build is due");
    assert!(peers.is_empty(), "nobody is given a track");
    room.rebuild_finished(true, peers, now + JOIN_DEBOUNCE_MS);
    generation
}

#[test]
fn every_hello_joins_the_broadcast_whatever_its_role() {
    let mut room = ViewerRoom::new();
    for (i, role) in ["viewer", "", "broadcast", "driver", "viewer", "viewer"].iter().enumerate() {
        assert_eq!(
            room.viewer_present(&hello(&format!("s{i}"), role), 0),
            Arrival::Watcher { first_hello: true, left_track: false }
        );
    }
    assert_eq!(
        room.viewer_present(&hello("s0", "broadcast"), 5),
        Arrival::Watcher { first_hello: false, left_track: false }
    );
    assert!(room.publishes_frames());
    assert_eq!(room.audience(), 6);
    assert_eq!(room.viewer_present(&hello("", "viewer"), 0), Arrival::Ignored);
}

#[test]
fn the_first_viewer_starts_the_pipeline_and_later_ones_never_rebuild_it() {
    let mut room = ViewerRoom::new();
    room.viewer_present(&hello("bob", "viewer"), 0);
    let plan = room.sweep(10);
    assert!(plan.rebuild.is_none());
    assert!(plan.publish_audience);
    assert_eq!(plan.audience, 1);
    let (generation, peers) = room.sweep(10 + JOIN_DEBOUNCE_MS).rebuild.expect("a build is due");
    assert_eq!(generation, 1);
    assert!(peers.is_empty());
    room.rebuild_finished(true, peers, 500);

    for i in 0..50 {
        room.viewer_present(&hello(&format!("v{i}"), if i % 2 == 0 { "viewer" } else { "broadcast" }), 600);
        assert!(room.sweep(600 + i).rebuild.is_none());
    }
    assert_eq!(room.generation(), 1);
    let bye = SignalMessage::Bye { from: "bob".to_string() };
    assert_eq!(room.signal(&bye), SignalRoute::Departed { was_peer: false, was_watcher: true });
    let plan = room.sweep(1_000);
    assert!(plan.rebuild.is_none());
    assert!(plan.publish_audience);
    assert_eq!(plan.audience, 50);
    assert!(!room.sweep(1_000).publish_audience, "an unchanged audience is not republished");
}

#[test]
fn silent_viewers_are_dropped_and_an_empty_room_releases_the_camera() {
    let mut room = ViewerRoom::new();
    room.viewer_present(&hello("alice", ""), 0);
    started(&mut room, 0);
    let plan = room.sweep(VIEWER_TIMEOUT_MS);
    assert!(plan.expired.is_empty(), "only peers are reported");
    assert!(plan.teardown);
    assert!(plan.rebuild.is_none());
    assert_eq!(plan.audience, 0);
    assert_eq!(room.audience(), 0);
    assert!(!room.publishes_frames());
}

#[test]
fn reports_from_a_replaced_pipeline_are_ignored() {
    let mut room = ViewerRoom::new();
    room.viewer_present(&hello("alice", ""), 0);
    let generation = started(&mut room, 0);
    assert!(!room.failure(Failure::Pipeline { generation: generation - 1 }, 0));
    assert!(!room.failure(Failure::Viewer { generation: generation - 1, viewer: "alice".to_string() }, 0));
    assert!(room.accepts_outbound(generation));
    assert!(!room.accepts_outbound(generation - 1));
    assert!(!room.failure(Failure::Viewer { generation, viewer: "alice".to_string() }, 0), "alice has no track");
    let answer = SignalMessage::Answer { from: "alice".to_string(), sdp: String::new() };
    assert_eq!(room.signal(&answer), SignalRoute::ToPipeline);
    assert!(room.failure(Failure::Pipeline { generation }, 100));
    assert_eq!(room.signal(&answer), SignalRoute::Dropped);
    assert!(room.sweep(100 + 2_999).rebuild.is_none());
    let (next, _) = room.sweep(100 + 3_000).rebuild.expect("retried after the delay");
    assert_eq!(next, generation + 1);
}

#[test]
fn a_failed_rebuild_is_retried_after_the_delay() {
    let mut room = ViewerRoom::new();
    room.viewer_present(&hello("alice", ""), 0);
    assert!(room.sweep(0).rebuild.is_none());
    let (_, peers) = room.sweep(JOIN_DEBOUNCE_MS).rebuild.unwrap();
    room.rebuild_finished(false, peers, 1_000);
    assert!(room.sweep(3_999).rebuild.is_none());
    assert!(room.sweep(4_000).rebuild.is_some());
}

#[test]
fn the_pipeline_description_names_one_branch_per_peer() {
    let without_peers = pipeline_description("/dev/video0", 1280, 480, 30, 0);
    assert!(without_peers.starts_with(
        "v4l2src device=/dev/video0 ! image/jpeg,width=1280,height=480,framerate=30/1 ! jpegdec"
    ));
    assert!(without_peers.contains("appsink name=broadcastsink"));
    assert!(!without_peers.contains("fanout"));
    let two = pipeline_description("/dev/video0", 1280, 480, 30, 2);
    assert!(two.contains("webrtcbin name=peer0 bundle-policy=max-bundle"));
    assert!(two.contains("queue name=branch1 leaky=downstream"));
    assert!(!two.contains("peer2"));
    assert_eq!(peer_element_name(12), "peer12");
}

#[test]
fn the_first_by_id_capture_node_in_sorted_order_is_chosen() {
    let names = served(&["usb-B-video-index1", "usb-B-video-index0", "usb-A-video-index0"]);
    assert_eq!(choose_capture_node(&names), Some(2));
    assert_eq!(choose_capture_node(&served(&["usb-video-index1"])), None);
}

#[test]
fn arrivals_inside_the_debounce_share_one_build() {
    let mut room = ViewerRoom::new();
    room.viewer_present(&hello("alice", ""), 0);
    assert!(room.sweep(100).rebuild.is_none());
    room.viewer_present(&hello("bob", "viewer"), 300);
    assert!(room.sweep(350).rebuild.is_none());
    room.viewer_present(&hello("carol", "broadcast"), 450);
    let (generation, peers) = room.sweep(100 + JOIN_DEBOUNCE_MS).rebuild.expect("due at the first deadline");
    assert_eq!(generation, 1);
    assert!(peers.is_empty());
    room.rebuild_finished(true, peers, 600);
    assert!(room.sweep(700).rebuild.is_none());
    assert_eq!(room.audience(), 3);
}
