//! What the link layer decides about inbound traffic: which command an address
//! names, and whether a signaling message is meant for this robot. The relay
//! connection itself lives with the agent.

use vstd::prelude::*;
use crate::protocol::Addresses;
use crate::text::{chars_of, str_eq, string_from_chars};

verus! {

broadcast use vstd::string::group_string_axioms;

/// Which inbound command an address under `cmd/` names.
#[derive(Debug, Clone, Copy, PartialEq, Eq, Structural)]
pub enum CommandRoute {
    Drive,
    EStop,
    Control,
    /// Anything else under the pattern, which the robot ignores.
    Ignore,
}

/// The route for an inbound command address.
pub open spec fn spec_route(base: Seq<char>, address: Seq<char>) -> CommandRoute {
    if address == base + "/cmd/drive"@ {
        CommandRoute::Drive
    } else if address == base + "/cmd/estop"@ {
        CommandRoute::EStop
    } else if address == base + "/cmd/control"@ {
        CommandRoute::Control
    } else {
        CommandRoute::Ignore
    }
}

/// Route an inbound command by the address it arrived on.
pub fn route_command(addr: &Addresses, address: &str) -> (route: CommandRoute)
    ensures
        route == spec_route(addr@, address@),
{
    if str_eq(address, addr.drive().as_str()) {
        CommandRoute::Drive
    } else if str_eq(address, addr.estop().as_str()) {
        CommandRoute::EStop
    } else if str_eq(address, addr.control().as_str()) {
        CommandRoute::Control
    } else {
        CommandRoute::Ignore
    }
}

/// Whether a setpoint arrived on the speed ceiling address.
pub fn is_max_speed_setting(addr: &Addresses, address: &str) -> (is: bool)
    ensures
        is == (address@ == addr@ + "/cfg/"@ + "max_speed"@),
{
    str_eq(address, addr.cfg("max_speed").as_str())
}

/// What follows the last `/` of `s`, or all of `s` when it holds none.
pub open spec fn spec_last_segment(s: Seq<char>) -> Seq<char>
    decreases s.len(),
{
    if s.len() == 0 {
        s
    } else if s.last() == '/' {
        Seq::empty()
    } else {
        spec_last_segment(s.drop_last()).push(s.last())
    }
}

/// What follows the last `/` of an address: the recipient of a signaling
/// message.
pub fn last_segment(address: &str) -> (segment: String)
    ensures
        segment@ == spec_last_segment(address@),
{
    let chars = chars_of(address);
    let len = chars.len();
    let mut start: usize = len;
    assert(chars@.take(len as int) =~= chars@);
    assert(chars@.subrange(len as int, len as int) =~= Seq::<char>::empty());
    assert(spec_last_segment(chars@) + Seq::<char>::empty() =~= spec_last_segment(chars@));
    while start > 0 && chars[start - 1] != '/'
        invariant
            start <= len == chars@.len(),
            spec_last_segment(chars@) == spec_last_segment(chars@.take(start as int))
                + chars@.subrange(start as int, len as int),
        decreases start,
    {
        let ghost prefix = chars@.take(start as int);
        assert(prefix.drop_last() =~= chars@.take(start - 1));
        assert(chars@.subrange(start - 1, len as int) =~= seq![chars@[start - 1]]
            + chars@.subrange(start as int, len as int));
        start -= 1;
    }
    assert(chars@.take(len as int) =~= chars@);
    assert(spec_last_segment(chars@.take(start as int)) =~= Seq::<char>::empty());
    string_from_chars(&chars, start, len)
}

/// Whether a signaling message that arrived on `address`, sent by `from`, is
/// for a robot whose current relay session is `current`: it must be addressed
/// to that session and must not be an echo of the robot's own message.
pub fn delivers_signal(address: &str, current: &str, from: &str) -> (deliver: bool)
    ensures
        deliver == (spec_last_segment(address@) == current@ && from@ != current@),
{
    let recipient = last_segment(address);
    str_eq(recipient.as_str(), current) && !str_eq(from, current)
}

proof fn lemma_last_segment_after_slash(prefix: Seq<char>, tail: Seq<char>)
    requires
        prefix.len() > 0,
        prefix.last() == '/',
        forall|i: int| 0 <= i < tail.len() ==> tail[i] != '/',
    ensures
        spec_last_segment(prefix + tail) == tail,
    decreases tail.len(),
{
    if tail.len() == 0 {
        assert(prefix + tail =~= prefix);
    } else {
        lemma_last_segment_after_slash(prefix, tail.drop_last());
        assert((prefix + tail).drop_last() =~= prefix + tail.drop_last());
        assert(tail.drop_last().push(tail.last()) =~= tail);
    }
}

/// The recipient read back off a signaling address is the session it was
/// built for, so a robot recognizes messages addressed to it by the address
/// alone.
pub proof fn law_signal_address_names_its_recipient(base: Seq<char>, session: Seq<char>)
    requires
        forall|i: int| 0 <= i < session.len() ==> session[i] != '/',
    ensures
        spec_last_segment(base + "/video/signal/"@ + session) == session,
{
    reveal_strlit("/video/signal/");
    let prefix = base + "/video/signal/"@;
    assert(prefix.last() == '/');
    lemma_last_segment_after_slash(prefix, session);
}

/// The drive, e-stop and control addresses are all different, so each
/// command reaches exactly its own handler.
pub proof fn law_command_routes_are_exact(base: Seq<char>)
    ensures
        spec_route(base, base + "/cmd/drive"@) == CommandRoute::Drive,
        spec_route(base, base + "/cmd/estop"@) == CommandRoute::EStop,
        spec_route(base, base + "/cmd/control"@) == CommandRoute::Control,
{
    reveal_strlit("/cmd/drive");
    reveal_strlit("/cmd/estop");
    reveal_strlit("/cmd/control");
    let drive = base + "/cmd/drive"@;
    let estop = base + "/cmd/estop"@;
    let control = base + "/cmd/control"@;
    assert(drive[base.len() as int + 5] == 'd');
    assert(estop[base.len() as int + 5] == 'e');
    assert(control.len() != drive.len());
    assert(control.len() != estop.len());
}

} // verus!
