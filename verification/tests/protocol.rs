use hsl_telepresence_robot::protocol::{Addresses, Presence, SignalMessage, PROTOCOL_VERSION};

#[test]
fn addresses_are_rooted_at_the_robot() {
    let a = Addresses::new("hsl-bot-1");
    assert_eq!(a.cmd_pattern(), "/robot/hsl-bot-1/cmd/**");
    assert_eq!(a.drive(), "/robot/hsl-bot-1/cmd/drive");
    assert_eq!(a.estop(), "/robot/hsl-bot-1/cmd/estop");
    assert_eq!(a.control(), "/robot/hsl-bot-1/cmd/control");
    assert_eq!(a.cfg("max_speed"), "/robot/hsl-bot-1/cfg/max_speed");
    assert_eq!(a.cfg_pattern(), "/robot/hsl-bot-1/cfg/**");
    assert_eq!(a.status("online"), "/robot/hsl-bot-1/status/online");
    assert_eq!(a.tel("motors"), "/robot/hsl-bot-1/tel/motors");
    assert_eq!(a.video_hello(), "/robot/hsl-bot-1/video/hello");
    assert_eq!(a.video_signal("s42"), "/robot/hsl-bot-1/video/signal/s42");
    assert_eq!(a.video_signal_pattern(), "/robot/hsl-bot-1/video/signal/**");
    assert_eq!(a.video_broadcast(), "/robot/hsl-bot-1/video/broadcast");
    assert_eq!(a.health(), "/robot/hsl-bot-1/health");
    assert_eq!(a.clone().health(), "/robot/hsl-bot-1/health");
    assert_eq!(PROTOCOL_VERSION, 2);
}

#[test]
fn a_signal_names_its_sender_and_can_be_restamped() {
    let mut m = SignalMessage::Ice {
        from: String::new(),
        candidate: "candidate:1".to_string(),
        sdp_mline_index: 3,
    };
    assert_eq!(m.from(), "");
    m.set_from("robot-session".to_string());
    assert_eq!(m.from(), "robot-session");
    match m {
        SignalMessage::Ice { candidate, sdp_mline_index, .. } => {
            assert_eq!(candidate, "candidate:1");
            assert_eq!(sdp_mline_index, 3);
        }
        _ => panic!("the variant must not change"),
    }
    let mut bye = SignalMessage::Bye { from: "a".to_string() };
    bye.set_from("b".to_string());
    assert_eq!(bye.from(), "b");
}

#[test]
fn only_an_explicit_broadcast_role_skips_the_peer() {
    let p = |role: &str| Presence { session: "s".to_string(), role: role.to_string() };
    assert!(!p("broadcast").wants_peer());
    assert!(p("viewer").wants_peer());
    assert!(p("").wants_peer());
    assert!(p("Broadcast").wants_peer());
}

#[test]
fn every_address_starts_with_the_robot_root() {
    let a = Addresses::new("bot/7");
    let root = "/robot/bot/7/";
    for address in [
        a.cmd_pattern(),
        a.drive(),
        a.estop(),
        a.control(),
        a.cfg("x"),
        a.cfg_pattern(),
        a.status(""),
        a.tel("motors"),
        a.video_hello(),
        a.video_signal(""),
        a.video_signal_pattern(),
        a.video_broadcast(),
        a.health(),
    ] {
        assert!(address.starts_with(root), "{address} is outside {root}");
    }
}
