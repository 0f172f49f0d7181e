//! The relay address contract and wire message shapes shared by the robot and
//! the web operator console. Both sides must agree on the paths and payloads
//! defined here.
//!
//! Signal type choices:
//!   - drive       Stream  (high rate, lossy tolerant, backed by a watchdog)
//!   - estop       Param   (latched, re-synced to late joiners)
//!   - control     Event   (one-shot claim/release of the driving lease)
//!   - cfg/*       Param   (setpoints that must survive reconnect)
//!   - status/*    Param   (what the UI must render correctly on connect)
//!   - tel/*       Stream  (high rate telemetry)
//!   - video/*     Event presence and signaling

use vstd::prelude::*;
use vstd::string::StringExecFns;
use crate::text::str_eq;

verus! {

/// Wire contract version, published as `status/protocol` on connect.
///
/// Version 1 served a single viewer and had no notion of who was driving;
/// version 2 serves several viewers at once and arbitrates the wheel.
pub const PROTOCOL_VERSION: u32 = 2;

/// Role a viewer asks for in its `hello` when it only wants the broadcast.
pub const ROLE_BROADCAST: &'static str = "broadcast";

/// Builds the relay addresses for one robot rooted at `/robot/<id>`.
#[derive(Debug)]
pub struct Addresses {
    base: String,
}

impl View for Addresses {
    type V = Seq<char>;

    /// The root every address of this robot starts with.
    closed spec fn view(&self) -> Seq<char> {
        self.base@
    }
}

impl Clone for Addresses {
    fn clone(&self) -> (copy: Self)
        ensures
            copy@ == self@,
    {
        Addresses { base: self.base.clone() }
    }
}

impl Addresses {
    pub fn new(robot_id: &str) -> (addr: Self)
        ensures
            addr@ == "/robot/"@ + robot_id@,
    {
        let mut base = String::from_str("/robot/");
        base.append(robot_id);
        Addresses { base }
    }

    /// The root followed by `suffix`.
    fn under(&self, suffix: &str) -> (address: String)
        ensures
            address@ == self@ + suffix@,
    {
        let mut address = self.base.clone();
        address.append(suffix);
        address
    }

    /// The root followed by `middle` and `name`.
    fn under_named(&self, middle: &str, name: &str) -> (address: String)
        ensures
            address@ == self@ + middle@ + name@,
    {
        let mut address = self.base.clone();
        address.append(middle);
        address.append(name);
        address
    }

    /// Pattern the robot subscribes to for all inbound commands.
    pub fn cmd_pattern(&self) -> (address: String)
        ensures
            address@ == self@ + "/cmd/**"@,
    {
        self.under("/cmd/**")
    }

    pub fn drive(&self) -> (address: String)
        ensures
            address@ == self@ + "/cmd/drive"@,
    {
        self.under("/cmd/drive")
    }

    pub fn estop(&self) -> (address: String)
        ensures
            address@ == self@ + "/cmd/estop"@,
    {
        self.under("/cmd/estop")
    }

    /// Where operators claim and release the driving lease.
    pub fn control(&self) -> (address: String)
        ensures
            address@ == self@ + "/cmd/control"@,
    {
        self.under("/cmd/control")
    }

    pub fn cfg(&self, name: &str) -> (address: String)
        ensures
            address@ == self@ + "/cfg/"@ + name@,
    {
        self.under_named("/cfg/", name)
    }

    pub fn cfg_pattern(&self) -> (address: String)
        ensures
            address@ == self@ + "/cfg/**"@,
    {
        self.under("/cfg/**")
    }

    pub fn status(&self, name: &str) -> (address: String)
        ensures
            address@ == self@ + "/status/"@ + name@,
    {
        self.under_named("/status/", name)
    }

    pub fn tel(&self, name: &str) -> (address: String)
        ensures
            address@ == self@ + "/tel/"@ + name@,
    {
        self.under_named("/tel/", name)
    }

    /// Shared address a viewer emits a `hello` Event to when it wants a stream.
    pub fn video_hello(&self) -> (address: String)
        ensures
            address@ == self@ + "/video/hello"@,
    {
        self.under("/video/hello")
    }

    /// Address a signaling message is delivered to, keyed by the recipient's
    /// session id.
    pub fn video_signal(&self, recipient_session: &str) -> (address: String)
        ensures
            address@ == self@ + "/video/signal/"@ + recipient_session@,
    {
        self.under_named("/video/signal/", recipient_session)
    }

    pub fn video_signal_pattern(&self) -> (address: String)
        ensures
            address@ == self@ + "/video/signal/**"@,
    {
        self.under("/video/signal/**")
    }

    /// Where the encoded stream is published, once, for the relay to fan out.
    pub fn video_broadcast(&self) -> (address: String)
        ensures
            address@ == self@ + "/video/broadcast"@,
    {
        self.under("/video/broadcast")
    }

    /// Where the agent writes its own liveness token and reads it back.
    pub fn health(&self) -> (address: String)
        ensures
            address@ == self@ + "/health"@,
    {
        self.under("/health")
    }
}

/// Whether `address` lies under the root of robot `robot_id`, that is,
/// starts with `/robot/<robot_id>/`.
pub open spec fn addressed_to_robot(robot_id: Seq<char>, address: Seq<char>) -> bool {
    ("/robot/"@ + robot_id + "/"@).is_prefix_of(address)
}

proof fn lemma_slash_suffix(base: Seq<char>, suffix: Seq<char>)
    requires
        suffix.len() > 0,
        suffix[0] == '/',
    ensures
        (base + "/"@).is_prefix_of(base + suffix),
{
    reveal_strlit("/");
    assert((base + suffix).subrange(0, base.len() as int + 1) =~= base + "/"@);
}

/// Every address the contract builds for a robot, whatever name or session
/// goes into it, lies under `/robot/<id>/`: the root `Addresses::new` makes,
/// followed by the suffix each address function appends.
pub proof fn law_every_address_is_under_the_robot(robot_id: Seq<char>, name: Seq<char>, session: Seq<char>)
    ensures
        addressed_to_robot(robot_id, "/robot/"@ + robot_id + "/cmd/**"@),
        addressed_to_robot(robot_id, "/robot/"@ + robot_id + "/cmd/drive"@),
        addressed_to_robot(robot_id, "/robot/"@ + robot_id + "/cmd/estop"@),
        addressed_to_robot(robot_id, "/robot/"@ + robot_id + "/cmd/control"@),
        addressed_to_robot(robot_id, "/robot/"@ + robot_id + "/cfg/**"@),
        addressed_to_robot(robot_id, "/robot/"@ + robot_id + "/video/hello"@),
        addressed_to_robot(robot_id, "/robot/"@ + robot_id + "/video/signal/**"@),
        addressed_to_robot(robot_id, "/robot/"@ + robot_id + "/video/broadcast"@),
        addressed_to_robot(robot_id, "/robot/"@ + robot_id + "/health"@),
        addressed_to_robot(robot_id, "/robot/"@ + robot_id + "/cfg/"@ + name),
        addressed_to_robot(robot_id, "/robot/"@ + robot_id + "/status/"@ + name),
        addressed_to_robot(robot_id, "/robot/"@ + robot_id + "/tel/"@ + name),
        addressed_to_robot(robot_id, "/robot/"@ + robot_id + "/video/signal/"@ + session),
{
    let base = "/robot/"@ + robot_id;
    reveal_strlit("/");
    reveal_strlit("/cmd/**");
    lemma_slash_suffix(base, "/cmd/**"@);
    reveal_strlit("/cmd/drive");
    lemma_slash_suffix(base, "/cmd/drive"@);
    reveal_strlit("/cmd/estop");
    lemma_slash_suffix(base, "/cmd/estop"@);
    reveal_strlit("/cmd/control");
    lemma_slash_suffix(base, "/cmd/control"@);
    reveal_strlit("/cfg/**");
    lemma_slash_suffix(base, "/cfg/**"@);
    reveal_strlit("/video/hello");
    lemma_slash_suffix(base, "/video/hello"@);
    reveal_strlit("/video/signal/**");
    lemma_slash_suffix(base, "/video/signal/**"@);
    reveal_strlit("/video/broadcast");
    lemma_slash_suffix(base, "/video/broadcast"@);
    reveal_strlit("/health");
    lemma_slash_suffix(base, "/health"@);
    reveal_strlit("/cfg/");
    assert(base + "/cfg/"@ + name =~= base + ("/cfg/"@ + name));
    lemma_slash_suffix(base, "/cfg/"@ + name);
    reveal_strlit("/status/");
    assert(base + "/status/"@ + name =~= base + ("/status/"@ + name));
    lemma_slash_suffix(base, "/status/"@ + name);
    reveal_strlit("/tel/");
    assert(base + "/tel/"@ + name =~= base + ("/tel/"@ + name));
    lemma_slash_suffix(base, "/tel/"@ + name);
    reveal_strlit("/video/signal/");
    assert(base + "/video/signal/"@ + session =~= base + ("/video/signal/"@ + session));
    lemma_slash_suffix(base, "/video/signal/"@ + session);
}

/// A request to take or give up the driving lease, sent as an Event on
/// `cmd/control`. Watching is unrestricted; only driving is arbitrated.
#[derive(Debug)]
pub enum ControlCommand {
    /// Take the wheel, displacing whoever holds it.
    Claim { session: String, name: String },
    /// Give the wheel up. Ignored unless this session holds it.
    Release { session: String },
}

/// Who currently holds the driving lease. Published as `status/driver`, or
/// null when the wheel is free.
#[derive(Debug)]
pub struct Driver {
    /// Relay session of the operator holding the wheel.
    pub session: String,
    /// Display name, for the other operators' consoles.
    pub name: String,
}

impl Driver {
    /// The session and name, as characters.
    pub open spec fn view_pair(self) -> (Seq<char>, Seq<char>) {
        (self.session@, self.name@)
    }
}

impl Clone for Driver {
    fn clone(&self) -> (copy: Self)
        ensures
            copy.view_pair() == self.view_pair(),
    {
        Driver { session: self.session.clone(), name: self.name.clone() }
    }
}

/// WebRTC signaling message exchanged over `video/signal/<session>`. `from` is
/// the sender's relay session so a peer can reply and can ignore echoes of its
/// own messages.
#[derive(Debug)]
pub enum SignalMessage {
    Offer { from: String, sdp: String },
    Answer { from: String, sdp: String },
    Ice { from: String, candidate: String, sdp_mline_index: u32 },
    Bye { from: String },
}

/// The sender a signaling message names.
pub open spec fn sender_of(message: SignalMessage) -> String {
    match message {
        SignalMessage::Offer { from, .. } => from,
        SignalMessage::Answer { from, .. } => from,
        SignalMessage::Ice { from, .. } => from,
        SignalMessage::Bye { from } => from,
    }
}

/// The same message with its sender replaced by `who`.
pub open spec fn with_sender(message: SignalMessage, who: String) -> SignalMessage {
    match message {
        SignalMessage::Offer { sdp, .. } => SignalMessage::Offer { from: who, sdp },
        SignalMessage::Answer { sdp, .. } => SignalMessage::Answer { from: who, sdp },
        SignalMessage::Ice { candidate, sdp_mline_index, .. } => SignalMessage::Ice {
            from: who,
            candidate,
            sdp_mline_index,
        },
        SignalMessage::Bye { .. } => SignalMessage::Bye { from: who },
    }
}

impl SignalMessage {
    pub fn from(&self) -> (sender: &str)
        ensures
            sender@ == sender_of(*self)@,
    {
        match self {
            SignalMessage::Offer { from, .. } => from.as_str(),
            SignalMessage::Answer { from, .. } => from.as_str(),
            SignalMessage::Ice { from, .. } => from.as_str(),
            SignalMessage::Bye { from } => from.as_str(),
        }
    }

    /// Stamp the sender. Done as the message leaves rather than where it is
    /// built, because the relay issues a new session on every reconnect.
    pub fn set_from(&mut self, who: String)
        ensures
            *final(self) == with_sender(*old(self), who),
    {
        match self {
            SignalMessage::Offer { from, .. } => *from = who,
            SignalMessage::Answer { from, .. } => *from = who,
            SignalMessage::Ice { from, .. } => *from = who,
            SignalMessage::Bye { from } => *from = who,
        }
    }
}

/// Payload of a viewer's `hello` Event, telling the robot who wants a stream.
#[derive(Debug)]
pub struct Presence {
    pub session: String,
    pub role: String,
}

impl Presence {
    /// Whether this viewer asks for a WebRTC track of its own: anything that
    /// is not explicitly a broadcast watcher does. The video plane reads the
    /// request and does not grant it: every viewer watches the broadcast.
    pub fn wants_peer(&self) -> (peer: bool)
        ensures
            peer == (self.role@ != ROLE_BROADCAST@),
    {
        !str_eq(self.role.as_str(), ROLE_BROADCAST)
    }
}

/// Video-plane events the link layer forwards to the video task.
#[derive(Debug)]
pub enum VideoEvent {
    /// A viewer announced itself and wants a stream.
    ViewerPresent(Presence),
    /// A signaling message addressed to the robot arrived.
    Signal(SignalMessage),
}

} // verus!
