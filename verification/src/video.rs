//! The decisions of the video plane: who is watching, when the capture
//! pipeline must be built or rebuilt, and which reports from torn-down
//! pipelines to ignore.
//!
//! The pipeline itself, the camera and the relay live with the agent, which
//! feeds every event to a [`ViewerRoom`] and carries out what it answers.
//!
//! Everyone watching gets the same thing: the stream encoded once and
//! published on the relay. The role a viewer's hello asks for is read and
//! ignored, so no viewer is given a peer connection of its own and nobody
//! arriving or leaving can interrupt the others. The pipeline is built when
//! the first viewer arrives (after a short debounce), torn down when the last
//! one goes, and rebuilt only after it failed. The peer bookkeeping of the
//! older per-viewer path is kept, but nothing can enter it any more.

use vstd::prelude::*;
use crate::protocol::{Presence, SignalMessage};
use crate::roster::{
    Entry, Roster, fresh_entries, has_key, is_stale, key_index, keys_of, keys_sorted,
    lemma_fresh_origins, lemma_stale_origins, lemma_fresh_entries_shrink,
    lemma_fresh_entries_idempotent, lemma_roster_remove, lemma_fresh_entries_sorted,
    lemma_roster_insert_records,
    lemma_key_index_unique, roster_insert, roster_remove, stale_keys,
};
use crate::text::{chars_of, decimal, decimal_string, str_eq};
use crate::roster::{KeyOrder, compare_chars, seq_lt};
use vstd::string::StringExecFns;

verus! {

/// Upper bound on simultaneous peer connections, which is not a limit on the
/// audience: everyone else watches the broadcast.
pub const MAX_PEERS: usize = 4;

/// How long a viewer survives without saying hello, in milliseconds.
pub const VIEWER_TIMEOUT_MS: u64 = 20_000;

/// Joins inside this window are collected into a single rebuild.
pub const JOIN_DEBOUNCE_MS: u64 = 400;

/// How long to wait before trying again after a failed build.
pub const RETRY_DELAY_MS: u64 = 3_000;


/// `a + b`, or `u64::MAX` when that does not fit.
pub open spec fn sat_add(a: u64, b: u64) -> u64 {
    if a + b > u64::MAX {
        u64::MAX
    } else {
        (a + b) as u64
    }
}

fn saturating_add(a: u64, b: u64) -> (sum: u64)
    ensures
        sum == sat_add(a, b),
{
    if a > u64::MAX - b {
        u64::MAX
    } else {
        a + b
    }
}

/// Whether someone is watching whom the running pipeline was not built for.
pub open spec fn spec_has_new_viewer(served: Seq<Seq<char>>, watching: Seq<Entry>) -> bool {
    exists|i: int| 0 <= i < watching.len() && !served.contains(#[trigger] watching[i].0)
}

fn list_contains(list: &Vec<String>, session: &str) -> (found: bool)
    ensures
        found == list@.map_values(|s: String| s@).contains(session@),
{
    let ghost view = list@.map_values(|s: String| s@);
    let mut i: usize = 0;
    while i < list.len()
        invariant
            i <= list@.len(),
            view == list@.map_values(|s: String| s@),
            forall|j: int| 0 <= j < i ==> view[j] != session@,
        decreases list@.len() - i,
    {
        if str_eq(list[i].as_str(), session) {
            assert(view[i as int] == session@);
            return true;
        }
        i += 1;
    }
    false
}

/// True when someone is watching whom the running pipeline was not built for.
/// Departures alone never make this true.
pub fn has_new_viewer(served: &Vec<String>, watching: &Roster) -> (new: bool)
    ensures
        new == spec_has_new_viewer(served@.map_values(|s: String| s@), watching@),
{
    let sessions = watching.sessions();
    let ghost served_view = served@.map_values(|s: String| s@);
    let ghost keys = keys_of(watching@);
    assert(keys.len() == watching@.len());
    let mut i: usize = 0;
    while i < sessions.len()
        invariant
            i <= sessions@.len(),
            sessions@.map_values(|s: String| s@) == keys,
            keys == keys_of(watching@),
            sessions@.len() == watching@.len(),
            served_view == served@.map_values(|s: String| s@),
            forall|j: int| 0 <= j < i ==> served_view.contains(#[trigger] watching@[j].0),
        decreases sessions@.len() - i,
    {
        assert(keys[i as int] == watching@[i as int].0);
        assert(sessions@.map_values(|s: String| s@)[i as int] == sessions@[i as int]@);
        if !list_contains(served, sessions[i].as_str()) {
            assert(!served_view.contains(watching@[i as int].0));
            return true;
        }
        i += 1;
    }
    false
}

/// `list` without `v`.
pub open spec fn without(list: Seq<Seq<char>>, v: Seq<char>) -> Seq<Seq<char>>
    decreases list.len(),
{
    if list.len() == 0 {
        list
    } else if list.last() == v {
        without(list.drop_last(), v)
    } else {
        without(list.drop_last(), v).push(list.last())
    }
}

/// `list` without any of `vs`, dropped one after the other.
pub open spec fn without_all(list: Seq<Seq<char>>, vs: Seq<Seq<char>>) -> Seq<Seq<char>>
    decreases vs.len(),
{
    if vs.len() == 0 {
        list
    } else {
        without(without_all(list, vs.drop_last()), vs.last())
    }
}

/// Whether `without` keeps exactly the other elements.
pub proof fn lemma_without_contains(list: Seq<Seq<char>>, v: Seq<char>, x: Seq<char>)
    ensures
        without(list, v).contains(x) == (list.contains(x) && x != v),
    decreases list.len(),
{
    if list.len() > 0 {
        lemma_without_contains(list.drop_last(), v, x);
        if list.contains(x) && x != v && list.last() != x {
            let i = choose|i: int| 0 <= i < list.len() && list[i] == x;
            assert(list.drop_last()[i] == x);
        }
        if list.drop_last().contains(x) {
            let i = choose|i: int| 0 <= i < list.drop_last().len() && list.drop_last()[i] == x;
            assert(list[i] == x);
        }
        if without(list, v).contains(x) && list.last() != v {
            let w = without(list.drop_last(), v);
            let i = choose|i: int| 0 <= i < w.push(list.last()).len() && w.push(list.last())[i] == x;
            if i == w.len() {
                assert(list[list.len() - 1] == x);
            }
        }
        if list.last() != v {
            let w = without(list.drop_last(), v);
            if list.last() == x {
                assert(w.push(list.last())[w.len() as int] == x);
            } else if w.contains(x) {
                let i = choose|i: int| 0 <= i < w.len() && w[i] == x;
                assert(w.push(list.last())[i] == x);
            }
        }
    }
}

fn without_exec(list: &Vec<String>, v: &str) -> (kept: Vec<String>)
    ensures
        kept@.map_values(|s: String| s@) == without(list@.map_values(|s: String| s@), v@),
{
    let ghost view = list@.map_values(|s: String| s@);
    let mut kept: Vec<String> = Vec::new();
    let mut i: usize = 0;
    while i < list.len()
        invariant
            i <= list@.len(),
            view == list@.map_values(|s: String| s@),
            kept@.map_values(|s: String| s@) == without(view.take(i as int), v@),
        decreases list@.len() - i,
    {
        assert(view.take(i + 1).drop_last() =~= view.take(i as int));
        assert(view.take(i + 1).last() == list@[i as int]@);
        if !str_eq(list[i].as_str(), v) {
            let ghost before = kept@;
            kept.push(list[i].clone());
            assert(kept@.map_values(|s: String| s@) =~= before.map_values(|s: String| s@).push(
                list@[i as int]@,
            ));
        }
        i += 1;
    }
    assert(view.take(list@.len() as int) =~= view);
    kept
}

/// What a viewer's hello did.
#[derive(Debug, Clone, Copy, PartialEq, Eq, Structural)]
pub enum Arrival {
    /// A hello without a session, which names nobody.
    Ignored,
    /// A viewer on the broadcast, which is where every viewer goes;
    /// `left_track` when it had been on a peer connection, whose branch the
    /// pipeline should forget.
    Watcher { first_hello: bool, left_track: bool },
}

/// Who left when a viewer said goodbye.
#[derive(Debug, Clone, Copy, PartialEq, Eq, Structural)]
pub enum SignalRoute {
    /// A goodbye; the viewer was a peer and/or a watcher.
    Departed { was_peer: bool, was_watcher: bool },
    /// Negotiation for a peer of the running pipeline.
    ToPipeline,
    /// Negotiation with no pipeline running to take it.
    Dropped,
}

/// Something died, tagged with the generation of the pipeline that reported
/// it so that reports from a pipeline since replaced are ignored.
#[derive(Debug)]
pub enum Failure {
    /// The shared capture pipeline failed; nobody has video.
    Pipeline { generation: u64 },
    /// One peer connection dropped; that viewer's track is gone.
    Viewer { generation: u64, viewer: String },
}

/// The viewer bookkeeping as the rules see it.
pub struct RoomView {
    /// Viewers on a peer connection, and when each last said hello.
    pub peers: Seq<Entry>,
    /// Viewers on the broadcast, and when each last said hello.
    pub watchers: Seq<Entry>,
    /// The peers the running pipeline was built for, or `None` when no
    /// pipeline runs.
    pub served: Option<Seq<Seq<char>>>,
    /// Generation of the newest pipeline.
    pub generation: u64,
    /// When a pending rebuild is due.
    pub rebuild_at: Option<u64>,
    /// The audience size last published.
    pub published_count: Option<usize>,
}

/// The room's invariant: sorted rosters, nobody both a peer and a watcher,
/// and never more than `MAX_PEERS` peers.
pub open spec fn room_wf(v: RoomView) -> bool {
    &&& keys_sorted(v.peers)
    &&& keys_sorted(v.watchers)
    &&& forall|k: Seq<char>| !(has_key(v.peers, k) && has_key(v.watchers, k))
    &&& v.peers.len() <= MAX_PEERS
}

/// The served list with a viewer forgotten, when a pipeline runs.
pub open spec fn forget(served: Option<Seq<Seq<char>>>, v: Seq<char>) -> Option<Seq<Seq<char>>> {
    match served {
        Some(list) => Some(without(list, v)),
        None => None,
    }
}

/// The room after a hello from `session`. The role a hello asks for is read
/// off the wire and ignored: every viewer watches the broadcast, so a hello
/// never grants a peer connection and never makes the pipeline need a
/// rebuild.
pub open spec fn spec_arrive(v: RoomView, session: Seq<char>, now: u64) -> (RoomView, Arrival) {
    if session.len() == 0 {
        (v, Arrival::Ignored)
    } else {
        let left = has_key(v.peers, session);
        (
            RoomView {
                watchers: roster_insert(v.watchers, session, now),
                peers: roster_remove(v.peers, session),
                served: if left {
                    forget(v.served, session)
                } else {
                    v.served
                },
                ..v
            },
            Arrival::Watcher { first_hello: !has_key(v.watchers, session), left_track: left },
        )
    }
}

/// The room after a viewer said goodbye.
pub open spec fn spec_leave(v: RoomView, session: Seq<char>) -> (RoomView, SignalRoute) {
    let was_peer = has_key(v.peers, session);
    let was_watcher = has_key(v.watchers, session);
    (
        RoomView {
            peers: roster_remove(v.peers, session),
            watchers: roster_remove(v.watchers, session),
            served: if was_peer {
                forget(v.served, session)
            } else {
                v.served
            },
            ..v
        },
        SignalRoute::Departed { was_peer, was_watcher },
    )
}

/// The room after a signaling message arrived: a goodbye takes the viewer off
/// every list; anything else is for the running pipeline, if there is one.
pub open spec fn spec_signal(v: RoomView, message: SignalMessage) -> (RoomView, SignalRoute) {
    match message {
        SignalMessage::Bye { from } => spec_leave(v, from@),
        _ => (
            v,
            if v.served is Some {
                SignalRoute::ToPipeline
            } else {
                SignalRoute::Dropped
            },
        ),
    }
}

/// The room after a failure report, and whether it was acted on.
pub open spec fn spec_failure(v: RoomView, failure: Failure, now: u64) -> (RoomView, bool) {
    match failure {
        Failure::Pipeline { generation } => if generation != v.generation {
            (v, false)
        } else {
            (
                RoomView { served: None, rebuild_at: Some(sat_add(now, RETRY_DELAY_MS)), ..v },
                true,
            )
        },
        Failure::Viewer { generation, viewer } => spec_peer_lost(v, generation, viewer@),
    }
}

/// The room after the pipeline of `generation` reported that the peer
/// connection of `viewer` dropped, and whether the report was acted on: only
/// a report from the newest pipeline about a current peer is.
pub open spec fn spec_peer_lost(v: RoomView, generation: u64, viewer: Seq<char>) -> (RoomView, bool) {
    if generation != v.generation || !has_key(v.peers, viewer) {
        (v, false)
    } else {
        (RoomView { peers: roster_remove(v.peers, viewer), served: forget(v.served, viewer), ..v }, true)
    }
}

/// What a sweep asks of the agent.
pub struct SweepPlanView {
    /// Peers dropped for silence, in order.
    pub expired: Seq<Seq<char>>,
    /// Stop the running pipeline: nobody is watching.
    pub teardown: bool,
    /// Replace the pipeline (stopping the old one first) with one built for
    /// these peers, as the given generation.
    pub rebuild: Option<(u64, Seq<Seq<char>>)>,
    /// The audience size.
    pub audience: usize,
    /// Publish the audience size, which changed.
    pub publish_audience: bool,
}

/// `a + b`, or `usize::MAX` when that does not fit.
pub open spec fn sat_add_usize(a: nat, b: nat) -> usize {
    if a + b > usize::MAX {
        usize::MAX
    } else {
        (a + b) as usize
    }
}

/// The room after a sweep at `now`, and what the agent must do.
pub open spec fn spec_sweep(v: RoomView, now: u64) -> (RoomView, SweepPlanView) {
    let peers = fresh_entries(v.peers, now, VIEWER_TIMEOUT_MS);
    let expired = stale_keys(v.peers, now, VIEWER_TIMEOUT_MS);
    let served = match v.served {
        Some(list) => Some(without_all(list, expired)),
        None => None,
    };
    let watchers = fresh_entries(v.watchers, now, VIEWER_TIMEOUT_MS);
    let audience = sat_add_usize(peers.len(), watchers.len());
    let publish = v.published_count != Some(audience);
    let published_count = if publish {
        Some(audience)
    } else {
        v.published_count
    };
    let base = RoomView { peers, watchers, served, published_count, ..v };
    if audience == 0 {
        (
            RoomView { served: None, rebuild_at: None, ..base },
            SweepPlanView {
                expired,
                teardown: served is Some,
                rebuild: None,
                audience,
                publish_audience: publish,
            },
        )
    } else if served is None || spec_has_new_viewer(served.unwrap(), peers) {
        let due = match v.rebuild_at {
            Some(d) => d,
            None => sat_add(now, JOIN_DEBOUNCE_MS),
        };
        if now >= due {
            let generation = (if v.generation < u64::MAX {
                v.generation + 1
            } else {
                0
            }) as u64;
            (
                RoomView { served: None, rebuild_at: None, generation, ..base },
                SweepPlanView {
                    expired,
                    teardown: false,
                    rebuild: Some((generation, keys_of(peers))),
                    audience,
                    publish_audience: publish,
                },
            )
        } else {
            (
                RoomView { rebuild_at: Some(due), ..base },
                SweepPlanView {
                    expired,
                    teardown: false,
                    rebuild: None,
                    audience,
                    publish_audience: publish,
                },
            )
        }
    } else {
        (
            RoomView { rebuild_at: None, ..base },
            SweepPlanView { expired, teardown: false, rebuild: None, audience, publish_audience: publish },
        )
    }
}

/// The room once a rebuild for `served` finished at `now`.
pub open spec fn spec_rebuilt(v: RoomView, served: Seq<Seq<char>>, ok: bool, now: u64) -> RoomView {
    if ok {
        RoomView { served: Some(served), ..v }
    } else {
        RoomView { rebuild_at: Some(sat_add(now, RETRY_DELAY_MS)), ..v }
    }
}

/// What a sweep asks of the agent.
pub struct SweepPlan {
    pub expired: Vec<String>,
    pub teardown: bool,
    pub rebuild: Option<(u64, Vec<String>)>,
    pub audience: usize,
    pub publish_audience: bool,
}

pub open spec fn strings_view(list: Vec<String>) -> Seq<Seq<char>> {
    list@.map_values(|s: String| s@)
}

impl View for SweepPlan {
    type V = SweepPlanView;

    open spec fn view(&self) -> SweepPlanView {
        SweepPlanView {
            expired: strings_view(self.expired),
            teardown: self.teardown,
            rebuild: match self.rebuild {
                Some((g, list)) => Some((g, strings_view(list))),
                None => None,
            },
            audience: self.audience,
            publish_audience: self.publish_audience,
        }
    }
}

/// The viewers of the video plane and the state of its pipeline.
pub struct ViewerRoom {
    peers: Roster,
    watchers: Roster,
    served: Option<Vec<String>>,
    generation: u64,
    rebuild_at: Option<u64>,
    published_count: Option<usize>,
}

impl View for ViewerRoom {
    type V = RoomView;

    closed spec fn view(&self) -> RoomView {
        RoomView {
            peers: self.peers@,
            watchers: self.watchers@,
            served: match self.served {
                Some(list) => Some(strings_view(list)),
                None => None,
            },
            generation: self.generation,
            rebuild_at: self.rebuild_at,
            published_count: self.published_count,
        }
    }
}

impl ViewerRoom {
    /// The room's invariant.
    pub open spec fn wf(&self) -> bool {
        room_wf(self@)
    }

    /// Nobody watching, no pipeline.
    pub fn new() -> (room: Self)
        ensures
            room.wf(),
            room@.peers.len() == 0,
            room@.watchers.len() == 0,
            room@.served is None,
            room@.generation == 0,
            room@.rebuild_at is None,
            room@.published_count is None,
    {
        ViewerRoom {
            peers: Roster::new(),
            watchers: Roster::new(),
            served: None,
            generation: 0,
            rebuild_at: None,
            published_count: None,
        }
    }

    /// Generation of the newest pipeline.
    pub fn generation(&self) -> (generation: u64)
        ensures
            generation == self@.generation,
    {
        self.generation
    }

    /// How many are watching, on a peer or on the broadcast.
    pub fn audience(&self) -> (audience: usize)
        ensures
            audience == sat_add_usize(self@.peers.len(), self@.watchers.len()),
    {
        let peers = self.peers.len();
        let watchers = self.watchers.len();
        if watchers > usize::MAX - peers {
            usize::MAX
        } else {
            peers + watchers
        }
    }

    /// Whether encoded frames go out on the broadcast: only while somebody
    /// watches it.
    pub fn publishes_frames(&self) -> (publish: bool)
        ensures
            publish == (self@.watchers.len() > 0),
    {
        !self.watchers.is_empty()
    }

    /// Whether an outbound signaling message from the pipeline of
    /// `generation` should still be sent.
    pub fn accepts_outbound(&self, generation: u64) -> (send: bool)
        ensures
            send == (generation == self@.generation),
    {
        generation == self.generation
    }

    fn forget_served(&mut self, session: &str)
        ensures
            final(self)@ == (RoomView { served: forget(old(self)@.served, session@), ..old(self)@ }),
    {
        match &self.served {
            Some(list) => {
                let kept = without_exec(list, session);
                self.served = Some(kept);
            },
            None => {},
        }
    }

    /// A viewer said hello. Its role is read off the wire and ignored:
    /// whatever it asks for, the viewer watches the broadcast.
    pub fn viewer_present(&mut self, presence: &Presence, now: u64) -> (arrival: Arrival)
        requires
            old(self).wf(),
        ensures
            final(self).wf(),
            (final(self)@, arrival) == spec_arrive(old(self)@, presence.session@, now),
    {
        let session = presence.session.as_str();
        if session.is_empty() {
            return Arrival::Ignored;
        }
        let known = self.watchers.insert(session, now);
        let left = self.peers.remove(session);
        if left {
            self.forget_served(session);
        }
        Arrival::Watcher { first_hello: !known, left_track: left }
    }

    /// A signaling message addressed to the robot arrived.
    pub fn signal(&mut self, message: &SignalMessage) -> (route: SignalRoute)
        requires
            old(self).wf(),
        ensures
            final(self).wf(),
            (final(self)@, route) == spec_signal(old(self)@, *message),
    {
        match message {
            SignalMessage::Bye { from } => {
                let was_peer = self.peers.remove(from.as_str());
                let was_watcher = self.watchers.remove(from.as_str());
                if was_peer {
                    self.forget_served(from.as_str());
                }
                SignalRoute::Departed { was_peer, was_watcher }
            },
            _ => {
                if self.served.is_some() {
                    SignalRoute::ToPipeline
                } else {
                    SignalRoute::Dropped
                }
            },
        }
    }

    /// Something died. Returns whether the report was acted on: for a
    /// pipeline failure, the agent then stops the running pipeline; for a
    /// viewer, the agent forgets its branch.
    pub fn failure(&mut self, failure: Failure, now: u64) -> (acted: bool)
        requires
            old(self).wf(),
        ensures
            final(self).wf(),
            (final(self)@, acted) == spec_failure(old(self)@, failure, now),
    {
        match failure {
            Failure::Pipeline { generation } => {
                if generation != self.generation {
                    return false;
                }
                self.served = None;
                self.rebuild_at = Some(saturating_add(now, RETRY_DELAY_MS));
                true
            },
            Failure::Viewer { generation, viewer } => {
                if generation != self.generation || !self.peers.contains(viewer.as_str()) {
                    return false;
                }
                self.peers.remove(viewer.as_str());
                self.forget_served(viewer.as_str());
                true
            },
        }
    }

    /// The periodic sweep: drop the silent, release the camera when nobody
    /// watches, rebuild when a new peer is due, and report the audience.
    pub fn sweep(&mut self, now: u64) -> (plan: SweepPlan)
        requires
            old(self).wf(),
        ensures
            final(self).wf(),
            (final(self)@, plan@) == spec_sweep(old(self)@, now),
    {
        let ghost start = self@;
        proof {
            lemma_fresh_entries_shrink(start.peers, now, VIEWER_TIMEOUT_MS);
            lemma_fresh_entries_shrink(start.watchers, now, VIEWER_TIMEOUT_MS);
        }
        let expired = self.peers.expire(now, VIEWER_TIMEOUT_MS);
        let ghost served_before = self@.served;
        let mut k: usize = 0;
        while k < expired.len()
            invariant
                k <= expired@.len(),
                self@ == (RoomView {
                    served: match served_before {
                        Some(list) => Some(
                            without_all(list, strings_view(expired).take(k as int)),
                        ),
                        None => None,
                    },
                    ..self@
                }),
                served_before is None <==> self@.served is None,
                self@.peers == fresh_entries(start.peers, now, VIEWER_TIMEOUT_MS),
                self@.watchers == start.watchers,
                self@.generation == start.generation,
                self@.rebuild_at == start.rebuild_at,
                self@.published_count == start.published_count,
                keys_sorted(self@.peers),
                strings_view(expired) == stale_keys(start.peers, now, VIEWER_TIMEOUT_MS),
            decreases expired@.len() - k,
        {
            let ghost taken = strings_view(expired).take(k as int);
            assert(strings_view(expired).take(k + 1).drop_last() =~= taken);
            assert(strings_view(expired).take(k + 1).last() == expired@[k as int]@);
            self.forget_served(expired[k].as_str());
            k += 1;
        }
        assert(strings_view(expired).take(expired@.len() as int) =~= strings_view(expired));
        self.watchers.expire(now, VIEWER_TIMEOUT_MS);
        let audience = self.audience();
        let publish_audience = match self.published_count {
            Some(count) => count != audience,
            None => true,
        };
        if publish_audience {
            self.published_count = Some(audience);
        }
        if audience == 0 {
            let teardown = self.served.is_some();
            self.served = None;
            self.rebuild_at = None;
            return SweepPlan { expired, teardown, rebuild: None, audience, publish_audience };
        }
        let needs_rebuild = match &self.served {
            Some(list) => has_new_viewer(list, &self.peers),
            None => true,
        };
        if needs_rebuild {
            let due = match self.rebuild_at {
                Some(d) => d,
                None => saturating_add(now, JOIN_DEBOUNCE_MS),
            };
            if now >= due {
                self.rebuild_at = None;
                self.generation = if self.generation < u64::MAX {
                    self.generation + 1
                } else {
                    0
                };
                self.served = None;
                let sessions = self.peers.sessions();
                return SweepPlan {
                    expired,
                    teardown: false,
                    rebuild: Some((self.generation, sessions)),
                    audience,
                    publish_audience,
                };
            }
            self.rebuild_at = Some(due);
        } else {
            self.rebuild_at = None;
        }
        SweepPlan { expired, teardown: false, rebuild: None, audience, publish_audience }
    }

    /// A rebuild the last sweep asked for finished at `now`; `served` are the
    /// peers it was built for.
    pub fn rebuild_finished(&mut self, ok: bool, served: Vec<String>, now: u64)
        requires
            old(self).wf(),
        ensures
            final(self).wf(),
            final(self)@ == spec_rebuilt(old(self)@, strings_view(served), ok, now),
    {
        if ok {
            self.served = Some(served);
        } else {
            self.rebuild_at = Some(saturating_add(now, RETRY_DELAY_MS));
        }
    }
}


/// `without_all` keeps exactly the elements not dropped.
pub proof fn lemma_without_all_contains(list: Seq<Seq<char>>, vs: Seq<Seq<char>>, x: Seq<char>)
    ensures
        without_all(list, vs).contains(x) == (list.contains(x) && !vs.contains(x)),
    decreases vs.len(),
{
    if vs.len() > 0 {
        lemma_without_all_contains(list, vs.drop_last(), x);
        lemma_without_contains(without_all(list, vs.drop_last()), vs.last(), x);
        if vs.drop_last().contains(x) {
            let i = choose|i: int| 0 <= i < vs.drop_last().len() && vs.drop_last()[i] == x;
            assert(vs[i] == x);
        }
        if vs.contains(x) && vs.last() != x {
            let i = choose|i: int| 0 <= i < vs.len() && vs[i] == x;
            assert(vs.drop_last()[i] == x);
        }
    }
}

/// A departure never makes the pipeline need a rebuild: if it served every
/// peer before a viewer left, it serves every peer after.
pub proof fn law_departures_never_rebuild(
    served: Seq<Seq<char>>,
    peers: Seq<Entry>,
    session: Seq<char>,
)
    requires
        keys_sorted(peers),
        !spec_has_new_viewer(served, peers),
    ensures
        !spec_has_new_viewer(without(served, session), roster_remove(peers, session)),
{
    let after = roster_remove(peers, session);
    if has_key(peers, session) {
        let at = key_index(peers, session);
        assert forall|i: int| 0 <= i < after.len() implies without(served, session).contains(
            #[trigger] after[i].0,
        ) by {
            let j = if i < at {
                i
            } else {
                i + 1
            };
            assert(after[i] == peers[j]);
            assert(served.contains(peers[j].0));
            if peers[j].0 == session {
                lemma_key_index_unique(peers, session, j);
            }
            lemma_without_contains(served, session, after[i].0);
        }
    } else {
        assert forall|i: int| 0 <= i < after.len() implies without(served, session).contains(
            #[trigger] after[i].0,
        ) by {
            assert(served.contains(peers[i].0));
            assert(peers[i].0 != session);
            lemma_without_contains(served, session, after[i].0);
        }
    }
}

/// Every hello from a viewer refreshes it: afterwards the viewer is watching,
/// last heard from at the moment of the hello, whether or not it was already
/// watching; every other watcher keeps its own time.
pub proof fn law_a_hello_refreshes_its_viewer(v: RoomView, session: Seq<char>, now: u64)
    requires
        keys_sorted(v.watchers),
        session.len() > 0,
    ensures
        exists|i: int|
            0 <= i < spec_arrive(v, session, now).0.watchers.len() && #[trigger] spec_arrive(
                v,
                session,
                now,
            ).0.watchers[i] == (session, now),
        forall|i: int|
            0 <= i < spec_arrive(v, session, now).0.watchers.len() && #[trigger] spec_arrive(
                v,
                session,
                now,
            ).0.watchers[i].0 == session ==> spec_arrive(v, session, now).0.watchers[i].1 == now,
        forall|j: int|
            0 <= j < v.watchers.len() && v.watchers[j].0 != session ==> exists|i: int|
                0 <= i < spec_arrive(v, session, now).0.watchers.len() && #[trigger] spec_arrive(
                    v,
                    session,
                    now,
                ).0.watchers[i] == #[trigger] v.watchers[j],
{
    lemma_roster_insert_records(v.watchers, session, now);
    let after = spec_arrive(v, session, now).0.watchers;
    assert(after == roster_insert(v.watchers, session, now));
}

/// A hello never grants a peer connection, whatever role it asks for: no
/// session joins the peers, the pipeline generation and any pending rebuild
/// are untouched, and a pipeline that served every peer still does.
pub proof fn law_a_hello_never_grants_a_track(v: RoomView, session: Seq<char>, now: u64)
    requires
        keys_sorted(v.peers),
    ensures
        forall|k: Seq<char>|
            #[trigger] has_key(spec_arrive(v, session, now).0.peers, k) ==> has_key(v.peers, k),
        spec_arrive(v, session, now).0.generation == v.generation,
        spec_arrive(v, session, now).0.rebuild_at == v.rebuild_at,
        spec_arrive(v, session, now).0.served is Some <==> v.served is Some,
        v.served is Some && !spec_has_new_viewer(v.served.unwrap(), v.peers) ==> !spec_has_new_viewer(
            spec_arrive(v, session, now).0.served.unwrap(),
            spec_arrive(v, session, now).0.peers,
        ),
{
    lemma_roster_remove(v.peers, session);
    if session.len() > 0 && v.served is Some && !spec_has_new_viewer(v.served.unwrap(), v.peers) {
        law_departures_never_rebuild(v.served.unwrap(), v.peers, session);
    }
}

/// A sweep drops exactly the silent: afterwards everyone still listed was
/// heard from within the timeout.
pub proof fn law_after_a_sweep_nobody_is_stale(v: RoomView, now: u64)
    ensures
        forall|i: int|
            0 <= i < spec_sweep(v, now).0.peers.len() ==> !is_stale(
                #[trigger] spec_sweep(v, now).0.peers[i],
                now,
                VIEWER_TIMEOUT_MS,
            ),
        forall|i: int|
            0 <= i < spec_sweep(v, now).0.watchers.len() ==> !is_stale(
                #[trigger] spec_sweep(v, now).0.watchers[i],
                now,
                VIEWER_TIMEOUT_MS,
            ),
{
    lemma_fresh_origins(v.peers, now, VIEWER_TIMEOUT_MS);
    lemma_fresh_origins(v.watchers, now, VIEWER_TIMEOUT_MS);
    let peers = fresh_entries(v.peers, now, VIEWER_TIMEOUT_MS);
    let watchers = fresh_entries(v.watchers, now, VIEWER_TIMEOUT_MS);
    assert forall|i: int| 0 <= i < peers.len() implies !is_stale(#[trigger] peers[i], now, VIEWER_TIMEOUT_MS) by {
        let j = choose|j: int|
            #![trigger v.peers[j]]
            0 <= j < v.peers.len() && v.peers[j] == peers[i] && !is_stale(
                v.peers[j],
                now,
                VIEWER_TIMEOUT_MS,
            );
    }
    assert forall|i: int| 0 <= i < watchers.len() implies !is_stale(#[trigger] watchers[i], now, VIEWER_TIMEOUT_MS) by {
        let j = choose|j: int|
            #![trigger v.watchers[j]]
            0 <= j < v.watchers.len() && v.watchers[j] == watchers[i] && !is_stale(
                v.watchers[j],
                now,
                VIEWER_TIMEOUT_MS,
            );
    }
}

/// While the pipeline serves every peer, a sweep never rebuilds it: silent
/// viewers are dropped and watchers come and go without interrupting anyone.
pub proof fn law_sweeps_rebuild_only_for_new_peers(v: RoomView, now: u64)
    requires
        keys_sorted(v.peers),
        v.served is Some,
        !spec_has_new_viewer(v.served.unwrap(), v.peers),
    ensures
        spec_sweep(v, now).1.rebuild is None,
        spec_sweep(v, now).0.generation == v.generation,
        keys_sorted(spec_sweep(v, now).0.peers),
        spec_sweep(v, now).1.audience > 0 ==> {
            &&& spec_sweep(v, now).0.served is Some
            &&& !spec_has_new_viewer(
                spec_sweep(v, now).0.served.unwrap(),
                spec_sweep(v, now).0.peers,
            )
        },
{
    lemma_fresh_entries_sorted(v.peers, now, VIEWER_TIMEOUT_MS);
    let served = v.served.unwrap();
    let peers = fresh_entries(v.peers, now, VIEWER_TIMEOUT_MS);
    let expired = stale_keys(v.peers, now, VIEWER_TIMEOUT_MS);
    let kept = without_all(served, expired);
    lemma_fresh_origins(v.peers, now, VIEWER_TIMEOUT_MS);
    lemma_stale_origins(v.peers, now, VIEWER_TIMEOUT_MS);
    assert forall|i: int| 0 <= i < peers.len() implies kept.contains(#[trigger] peers[i].0) by {
        let j = choose|j: int|
            #![trigger v.peers[j]]
            0 <= j < v.peers.len() && v.peers[j] == peers[i] && !is_stale(
                v.peers[j],
                now,
                VIEWER_TIMEOUT_MS,
            );
        assert(served.contains(v.peers[j].0));
        if expired.contains(peers[i].0) {
            let k = choose|k: int| 0 <= k < expired.len() && expired[k] == peers[i].0;
            assert(crate::roster::is_stale_key(v.peers, expired[k], now, VIEWER_TIMEOUT_MS));
            let m = choose|m: int|
                0 <= m < v.peers.len() && #[trigger] v.peers[m].0 == expired[k] && is_stale(
                    v.peers[m],
                    now,
                    VIEWER_TIMEOUT_MS,
                );
            lemma_key_index_unique(v.peers, v.peers[j].0, j);
            lemma_key_index_unique(v.peers, v.peers[j].0, m);
        }
        lemma_without_all_contains(served, expired, peers[i].0);
    }
}

/// One event of the video plane, as a run of them is replayed against the
/// room: a hello, a goodbye, a peer connection reported lost, or a sweep.
pub enum RoomEvent {
    Hello { session: Seq<char>, now: u64 },
    Bye { session: Seq<char> },
    PeerLost { generation: u64, viewer: Seq<char> },
    Sweep { now: u64 },
}

/// The room after one event, and whether the event rebuilt the pipeline.
pub open spec fn apply_event(v: RoomView, e: RoomEvent) -> (RoomView, bool) {
    match e {
        RoomEvent::Hello { session, now } => (spec_arrive(v, session, now).0, false),
        RoomEvent::Bye { session } => (spec_leave(v, session).0, false),
        RoomEvent::PeerLost { generation, viewer } => (spec_peer_lost(v, generation, viewer).0, false),
        RoomEvent::Sweep { now } => (spec_sweep(v, now).0, spec_sweep(v, now).1.rebuild is Some),
    }
}

/// The room after a run of events, in order.
pub open spec fn run_events(v: RoomView, events: Seq<RoomEvent>) -> RoomView
    decreases events.len(),
{
    if events.len() == 0 {
        v
    } else {
        apply_event(run_events(v, events.drop_last()), events.last()).0
    }
}

/// Whether somebody is still watching at every sweep of the run.
pub open spec fn audience_stays(v: RoomView, events: Seq<RoomEvent>) -> bool
    decreases events.len(),
{
    if events.len() == 0 {
        true
    } else {
        &&& audience_stays(v, events.drop_last())
        &&& match events.last() {
            RoomEvent::Sweep { now } => spec_sweep(run_events(v, events.drop_last()), now).1.audience
                > 0,
            _ => true,
        }
    }
}

/// Whether no event of the run rebuilt the pipeline.
pub open spec fn never_rebuilt(v: RoomView, events: Seq<RoomEvent>) -> bool
    decreases events.len(),
{
    if events.len() == 0 {
        true
    } else {
        never_rebuilt(v, events.drop_last()) && !apply_event(
            run_events(v, events.drop_last()),
            events.last(),
        ).1
    }
}

/// What a pipeline that needs no rebuild looks like: it runs, serves every
/// peer, and the peers are kept sorted.
pub open spec fn settled(v: RoomView) -> bool {
    &&& keys_sorted(v.peers)
    &&& v.served is Some
    &&& !spec_has_new_viewer(v.served.unwrap(), v.peers)
}

proof fn lemma_departure_keeps_settled(v: RoomView, session: Seq<char>, was_peer: bool)
    requires
        settled(v),
        was_peer == has_key(v.peers, session),
    ensures
        settled(
            RoomView {
                peers: roster_remove(v.peers, session),
                served: if was_peer {
                    forget(v.served, session)
                } else {
                    v.served
                },
                ..v
            },
        ),
{
    lemma_roster_remove(v.peers, session);
    if was_peer {
        law_departures_never_rebuild(v.served.unwrap(), v.peers, session);
    } else {
        assert(roster_remove(v.peers, session) == v.peers);
    }
}

proof fn lemma_event_keeps_settled(v: RoomView, e: RoomEvent)
    requires
        settled(v),
        e matches RoomEvent::Sweep { now } ==> spec_sweep(v, now).1.audience > 0,
    ensures
        settled(apply_event(v, e).0),
        !apply_event(v, e).1,
        apply_event(v, e).0.generation == v.generation,
{
    match e {
        RoomEvent::Hello { session, now } => {
            if session.len() > 0 {
                lemma_departure_keeps_settled(v, session, has_key(v.peers, session));
            }
        },
        RoomEvent::Bye { session } => {
            lemma_departure_keeps_settled(v, session, has_key(v.peers, session));
        },
        RoomEvent::PeerLost { generation, viewer } => {
            if generation == v.generation && has_key(v.peers, viewer) {
                lemma_departure_keeps_settled(v, viewer, true);
            }
        },
        RoomEvent::Sweep { now } => {
            law_sweeps_rebuild_only_for_new_peers(v, now);
        },
    }
}

/// Once a pipeline serves every peer, a whole run of hellos (whatever role
/// they ask for), goodbyes, lost peer connections and sweeps never rebuilds
/// it while somebody is still watching: its generation stays as it was, and
/// it still serves every peer at the end.
pub proof fn law_a_settled_pipeline_is_never_rebuilt(v: RoomView, events: Seq<RoomEvent>)
    requires
        settled(v),
        audience_stays(v, events),
    ensures
        never_rebuilt(v, events),
        run_events(v, events).generation == v.generation,
        settled(run_events(v, events)),
    decreases events.len(),
{
    if events.len() > 0 {
        law_a_settled_pipeline_is_never_rebuilt(v, events.drop_last());
        lemma_event_keeps_settled(run_events(v, events.drop_last()), events.last());
    }
}

/// Reports from a pipeline that has since been replaced change nothing.
pub proof fn law_stale_reports_are_ignored(v: RoomView, failure: Failure, now: u64)
    requires
        match failure {
            Failure::Pipeline { generation } => generation != v.generation,
            Failure::Viewer { generation, .. } => generation != v.generation,
        },
    ensures
        spec_failure(v, failure, now) == (v, false),
{
}

/// Joins inside the debounce window share one rebuild: once a rebuild is
/// pending, sweeps before it is due rebuild nothing and keep its deadline,
/// hellos never push it back, and the rebuild that comes serves every peer
/// present at that moment.
pub proof fn law_joins_inside_the_debounce_share_one_rebuild(
    v: RoomView,
    now: u64,
    session: Seq<char>,
    t: u64,
    due: u64,
)
    ensures
        spec_arrive(v, session, t).0.rebuild_at == v.rebuild_at,
        v.rebuild_at == Some(due) && now < due ==> {
            &&& spec_sweep(v, now).1.rebuild is None
            &&& spec_sweep(v, now).0.rebuild_at is None || spec_sweep(v, now).0.rebuild_at == Some(
                due,
            )
        },
        spec_sweep(v, now).1.rebuild matches Some((g, served)) ==> {
            &&& served == keys_of(spec_sweep(v, now).0.peers)
            &&& g == spec_sweep(v, now).0.generation
        },
{
}

/// The first sweep to notice a peer the pipeline lacks does not rebuild at
/// once: it schedules the rebuild a debounce window later.
pub proof fn law_a_new_peer_waits_for_the_debounce(v: RoomView, now: u64)
    requires
        v.rebuild_at is None,
        now + JOIN_DEBOUNCE_MS <= u64::MAX,
        spec_sweep(v, now).1.audience > 0,
        spec_sweep(v, now).0.served is None || spec_has_new_viewer(
            spec_sweep(v, now).0.served.unwrap(),
            spec_sweep(v, now).0.peers,
        ),
    ensures
        spec_sweep(v, now).1.rebuild is None,
        spec_sweep(v, now).0.rebuild_at == Some((now + JOIN_DEBOUNCE_MS) as u64),
{
}

/// With nobody left watching, a sweep releases the camera: the running
/// pipeline, if any, is torn down, nothing is rebuilt, and no rebuild stays
/// pending.
pub proof fn law_an_empty_room_releases_the_camera(v: RoomView, now: u64)
    requires
        spec_sweep(v, now).1.audience == 0,
    ensures
        spec_sweep(v, now).0.served is None,
        spec_sweep(v, now).0.rebuild_at is None,
        spec_sweep(v, now).1.rebuild is None,
        spec_sweep(v, now).1.teardown == v.served is Some,
{
}

/// The audience size is published only when it changed since the last
/// publication, and a sweep always leaves the published size current.
pub proof fn law_the_audience_is_published_on_change(v: RoomView, now: u64)
    ensures
        spec_sweep(v, now).1.publish_audience == (v.published_count != Some(
            spec_sweep(v, now).1.audience,
        )),
        spec_sweep(v, now).0.published_count == Some(spec_sweep(v, now).1.audience),
        !spec_sweep(spec_sweep(v, now).0, now).1.publish_audience,
{
    let after = spec_sweep(v, now).0;
    lemma_fresh_entries_idempotent(v.peers, now, VIEWER_TIMEOUT_MS);
    lemma_fresh_entries_idempotent(v.watchers, now, VIEWER_TIMEOUT_MS);
}


/// Capture through to the encoded `tee`, after the framerate number. The
/// Pi's hardware encoder needs the explicit level caps.
pub const CAPTURE_TAIL: &'static str = "/1 ! jpegdec ! queue ! videoconvert ! video/x-raw,format=I420 ! v4l2h264enc ! video/x-h264,level=(string)4 ! h264parse config-interval=-1 ! tee name=encoded allow-not-linked=true";

/// The broadcast tap: whole access units in byte-stream form, SPS/PPS ahead
/// of every keyframe, into an appsink that drops rather than blocks.
pub const BROADCAST_TAP: &'static str = " encoded. ! queue leaky=downstream max-size-buffers=0 max-size-bytes=0 max-size-time=300000000 ! h264parse config-interval=-1 ! video/x-h264,stream-format=byte-stream,alignment=au ! appsink name=broadcastsink sync=false max-buffers=4 drop=true";

/// Name of the broadcast appsink in the pipeline.
pub const BROADCAST_SINK: &'static str = "broadcastsink";

/// The peer chain, payloaded once and fanned out, present only when somebody
/// is on a track.
pub const PEER_CHAIN: &'static str = " encoded. ! queue ! rtph264pay pt=96 ! application/x-rtp,media=video,encoding-name=H264,payload=96 ! tee name=fanout allow-not-linked=true";

/// The capture part of the pipeline.
pub open spec fn capture_chain(device: Seq<char>, width: u32, height: u32, fps: u32) -> Seq<char> {
    "v4l2src device="@ + device + " ! image/jpeg,width="@ + decimal(width as nat) + ",height="@
        + decimal(height as nat) + ",framerate="@ + decimal(fps as nat) + CAPTURE_TAIL@
}

/// The name of the webrtcbin serving peer `index`.
pub open spec fn peer_name(index: nat) -> Seq<char> {
    "peer"@ + decimal(index)
}

/// One peer's branch off the fanout: a leaky queue, so a wedged peer drops
/// buffers instead of stalling everyone, into its own webrtcbin.
pub open spec fn peer_branch(index: nat) -> Seq<char> {
    " fanout. ! queue name=branch"@ + decimal(index)
        + " leaky=downstream max-size-buffers=0 max-size-bytes=0 max-size-time=300000000 ! webrtcbin name="@
        + peer_name(index) + " bundle-policy=max-bundle"@
}

/// The branches for peers `0..count`.
pub open spec fn peer_branches(count: nat) -> Seq<char>
    decreases count,
{
    if count == 0 {
        Seq::empty()
    } else {
        peer_branches((count - 1) as nat) + peer_branch((count - 1) as nat)
    }
}

/// The whole pipeline description for a camera and a number of peers.
pub open spec fn spec_pipeline_description(
    device: Seq<char>,
    width: u32,
    height: u32,
    fps: u32,
    peers: nat,
) -> Seq<char> {
    capture_chain(device, width, height, fps) + BROADCAST_TAP@ + if peers > 0 {
        PEER_CHAIN@ + peer_branches(peers)
    } else {
        Seq::empty()
    }
}

/// The name of the webrtcbin serving peer `index`.
pub fn peer_element_name(index: usize) -> (name: String)
    ensures
        name@ == peer_name(index as nat),
{
    let mut name = String::from_str("peer");
    let number = decimal_string(index as u64);
    name.append(number.as_str());
    name
}

/// The pipeline description for a camera and `peers` peers.
pub fn pipeline_description(device: &str, width: u32, height: u32, fps: u32, peers: usize) -> (description: String)
    ensures
        description@ == spec_pipeline_description(device@, width, height, fps, peers as nat),
{
    let mut d = String::from_str("v4l2src device=");
    d.append(device);
    d.append(" ! image/jpeg,width=");
    d.append(decimal_string(width as u64).as_str());
    d.append(",height=");
    d.append(decimal_string(height as u64).as_str());
    d.append(",framerate=");
    d.append(decimal_string(fps as u64).as_str());
    d.append(CAPTURE_TAIL);
    assert(d@ =~= capture_chain(device@, width, height, fps));
    d.append(BROADCAST_TAP);
    if peers > 0 {
        let ghost head = d@;
        d.append(PEER_CHAIN);
        let mut index: usize = 0;
        while index < peers
            invariant
                index <= peers,
                d@ == head + PEER_CHAIN@ + peer_branches(index as nat),
            decreases peers - index,
        {
            d.append(" fanout. ! queue name=branch");
            d.append(decimal_string(index as u64).as_str());
            d.append(
                " leaky=downstream max-size-buffers=0 max-size-bytes=0 max-size-time=300000000 ! webrtcbin name=",
            );
            d.append(peer_element_name(index).as_str());
            d.append(" bundle-policy=max-bundle");
            index += 1;
            assert(d@ =~= head + PEER_CHAIN@ + peer_branches(index as nat));
        }
        assert(d@ =~= spec_pipeline_description(device@, width, height, fps, peers as nat));
    } else {
        assert(d@ =~= spec_pipeline_description(device@, width, height, fps, peers as nat));
    }
    d
}


/// The file-name ending of a by-id symlink to a USB camera's capture node.
pub const CAPTURE_NODE_SUFFIX: &'static str = "-video-index0";

/// Whether `name` ends with `suffix`.
pub open spec fn ends_with(name: Seq<char>, suffix: Seq<char>) -> bool {
    name.len() >= suffix.len() && name.subrange(name.len() - suffix.len(), name.len() as int)
        == suffix
}

fn ends_with_exec(name: &Vec<char>, suffix: &Vec<char>) -> (ends: bool)
    ensures
        ends == ends_with(name@, suffix@),
{
    if name.len() < suffix.len() {
        return false;
    }
    let n = name.len();
    let offset = n - suffix.len();
    let mut i: usize = 0;
    while i < suffix.len()
        invariant
            n == name@.len(),
            offset + suffix@.len() == n,
            i <= suffix@.len(),
            forall|j: int| 0 <= j < i ==> name@[offset + j] == suffix@[j],
        decreases suffix@.len() - i,
    {
        if name[offset + i] != suffix[i] {
            assert(name@.subrange(offset as int, name@.len() as int)[i as int] != suffix@[i as int]);
            return false;
        }
        i += 1;
    }
    assert(name@.subrange(offset as int, name@.len() as int) =~= suffix@);
    true
}

/// Whether entry `i` of a directory listing is a capture node.
pub open spec fn is_capture_node(names: Seq<Seq<char>>, i: int) -> bool {
    ends_with(names[i], CAPTURE_NODE_SUFFIX@)
}

/// The capture node to fall back on among the file names of a directory
/// listing: the first in sorted order of those ending in
/// `CAPTURE_NODE_SUFFIX`, or `None` when there is none.
pub fn choose_capture_node(names: &Vec<String>) -> (chosen: Option<usize>)
    ensures
        chosen is None ==> forall|i: int|
            0 <= i < names@.len() ==> !is_capture_node(strings_view(*names), i),
        chosen matches Some(c) ==> {
            &&& c < names@.len()
            &&& is_capture_node(strings_view(*names), c as int)
            &&& forall|i: int|
                0 <= i < names@.len() && is_capture_node(strings_view(*names), i) ==> !seq_lt(
                    strings_view(*names)[i],
                    strings_view(*names)[c as int],
                )
        },
{
    let ghost view = strings_view(*names);
    let suffix = chars_of(CAPTURE_NODE_SUFFIX);
    let mut best: Option<(usize, Vec<char>)> = None;
    let mut i: usize = 0;
    while i < names.len()
        invariant
            i <= names@.len(),
            view == strings_view(*names),
            suffix@ == CAPTURE_NODE_SUFFIX@,
            best is None ==> forall|j: int| 0 <= j < i ==> !is_capture_node(view, j),
            best matches Some(b) ==> {
                &&& b.0 < i
                &&& b.1@ == view[b.0 as int]
                &&& is_capture_node(view, b.0 as int)
                &&& forall|j: int|
                    0 <= j < i && is_capture_node(view, j) ==> !seq_lt(view[j], view[b.0 as int])
            },
        decreases names@.len() - i,
    {
        let name = chars_of(names[i].as_str());
        assert(view[i as int] == names@[i as int]@);
        if ends_with_exec(&name, &suffix) {
            let better = match &best {
                None => true,
                Some((_, current)) => compare_chars(&name, current) == KeyOrder::Before,
            };
            if better {
                proof {
                    if best is Some {
                        let b = best.unwrap();
                        assert forall|j: int| 0 <= j < i && is_capture_node(view, j) implies !seq_lt(
                            view[j],
                            view[i as int],
                        ) by {
                            crate::roster::lemma_seq_lt_total(view[i as int], view[b.0 as int]);
                            if seq_lt(view[j], view[i as int]) {
                                crate::roster::lemma_seq_lt_transitive(
                                    view[j],
                                    view[i as int],
                                    view[b.0 as int],
                                );
                            }
                        }
                    }
                    crate::roster::lemma_seq_lt_total(view[i as int], view[i as int]);
                }
                best = Some((i, name));
            }
        }
        i += 1;
    }
    match best {
        Some((index, _)) => Some(index),
        None => None,
    }
}

} // verus!
