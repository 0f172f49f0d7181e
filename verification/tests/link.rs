use hsl_telepresence_robot::link::{
    delivers_signal, is_max_speed_setting, last_segment, route_command, CommandRoute,
};
use hsl_telepresence_robot::protocol::Addresses;

#[test]
fn commands_are_routed_by_their_exact_address() {
    let a = Addresses::new("bot");
    assert_eq!(route_command(&a, "/robot/bot/cmd/drive"), CommandRoute::Drive);
    assert_eq!(route_command(&a, "/robot/bot/cmd/estop"), CommandRoute::EStop);
    assert_eq!(route_command(&a, "/robot/bot/cmd/control"), CommandRoute::Control);
    assert_eq!(route_command(&a, "/robot/bot/cmd/drive2"), CommandRoute::Ignore);
    assert_eq!(route_command(&a, "/robot/other/cmd/drive"), CommandRoute::Ignore);
    assert!(is_max_speed_setting(&a, "/robot/bot/cfg/max_speed"));
    assert!(!is_max_speed_setting(&a, "/robot/bot/cfg/min_speed"));
}

#[test]
fn the_recipient_is_the_last_address_segment() {
    let a = Addresses::new("bot");
    assert_eq!(last_segment(&a.video_signal("s-9")), "s-9");
    assert_eq!(last_segment("no-slash"), "no-slash");
    assert_eq!(last_segment("/trailing/"), "");
}

#[test]
fn only_signals_for_the_current_session_that_are_not_echoes_are_delivered() {
    let a = Addresses::new("bot");
    let to_me = a.video_signal("me");
    assert!(delivers_signal(&to_me, "me", "viewer"));
    assert!(!delivers_signal(&to_me, "me", "me"));
    assert!(!delivers_signal(&a.video_signal("old-me"), "me", "viewer"));
}
