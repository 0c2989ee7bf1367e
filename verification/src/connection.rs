//! The protocol engine: the node's state machine.
//!
//! The engine owns the Peer Table and the heartbeat mark `last_keep_alive`.
//! It is pure: the driver that owns the bound socket classifies each receive
//! attempt into a `RecvEvent`, hands it to `process` together with the
//! current time (seconds on a monotonic clock), and then performs the
//! datagram sends the engine returns. When the transport reports that a send
//! failed, the driver tells the engine through `handle_send_failure`, which
//! evicts the unreachable peer.
//!
//! Each `process` call does exactly one of two things: on a receive timeout
//! it broadcasts a keep-alive to every known peer and resets the heartbeat
//! mark; on a received datagram it refreshes (or creates, announcing it) the
//! sender's entry and then dispatches on the decoded message. A periodic
//! check also fires a proactive keep-alive when more than the interval has
//! passed since the last one, even while datagrams keep arriving.

use vstd::prelude::*;
use vstd::slice::slice_to_vec;

use crate::addr::Addr;
use crate::codec::{decode, encode, spec_classify, spec_decode, spec_encode, DecodeError};
use crate::message::{MessageView, NetworkMessage};
use crate::peer_table::{
    addrs_of, last_seen_of, lemma_addrs_of, lemma_remove_facts, lemma_seed_facts, lemma_seed_push,
    lemma_touch_facts, spec_contains, spec_remove, spec_seed, spec_touch, unique_addrs, PeerEntry,
    PeerTable,
};

verus! {

/// Seconds of silence after which the blocking receive gives up and the
/// engine treats the channel as idle.
pub const RECV_TIMEOUT_SECS: u64 = 30;

/// Seconds between keep-alive broadcasts when datagrams keep arriving.
pub const KEEP_ALIVE_INTERVAL_SECS: u64 = 30;

/// Why one receive-and-process iteration failed.
#[derive(Clone, Copy, PartialEq, Eq, Structural, Debug)]
pub enum RecvMessageError {
    /// The transport failed to receive for a reason other than a timeout.
    IoError,
    /// The received datagram is not a valid encoding of any message; it was
    /// dropped and the table left unchanged.
    DecodeError(DecodeError),
}

/// What one receive attempt by the driver came to.
pub enum RecvEvent {
    /// A datagram arrived: its sender and its payload bytes.
    Datagram { src: Addr, payload: Vec<u8> },
    /// Nothing arrived within the receive timeout; the channel is idle.
    TimedOut,
    /// The receive failed for another transport-level reason.
    Failed,
}

/// One datagram the engine asks the driver to send.
pub struct Outgoing {
    /// Where to send it.
    pub dest: Addr,
    /// The encoded message.
    pub payload: Vec<u8>,
}

/// The mathematical value of an `Outgoing`.
pub struct OutgoingView {
    pub dest: Addr,
    pub payload: Seq<u8>,
}

impl View for Outgoing {
    type V = OutgoingView;

    open spec fn view(&self) -> OutgoingView {
        OutgoingView { dest: self.dest, payload: self.payload@ }
    }
}

/// The values of a list of outgoing datagrams.
pub open spec fn sends_view(v: Seq<Outgoing>) -> Seq<OutgoingView> {
    v.map_values(|o: Outgoing| o@)
}

/// One copy of the encoding of `m` addressed to each target, in order.
pub open spec fn spec_broadcast(targets: Seq<Addr>, m: MessageView) -> Seq<OutgoingView> {
    Seq::new(targets.len(), |i: int| OutgoingView { dest: targets[i], payload: spec_encode(m) })
}

/// Whether the periodic keep-alive is overdue at `now`.
pub open spec fn spec_heartbeat_due(last_keep_alive: u64, now: u64) -> bool {
    now > last_keep_alive + KEEP_ALIVE_INTERVAL_SECS
}

/// What one `process` call produced.
pub struct ProcessOutcome {
    /// Datagrams to send, in order.
    pub sends: Vec<Outgoing>,
    /// The decoded inbound message surfaced to the application; `None` on a
    /// heartbeat iteration; an error when the datagram was dropped or the
    /// receive failed.
    pub result: Result<Option<NetworkMessage>, RecvMessageError>,
}

proof fn lemma_sends_view_push(v: Seq<Outgoing>, o: Outgoing)
    ensures
        sends_view(v.push(o)) == sends_view(v).push(o@),
{
    assert(sends_view(v.push(o)) =~= sends_view(v).push(o@));
}

proof fn lemma_sends_view_concat(a: Seq<Outgoing>, b: Seq<Outgoing>)
    ensures
        sends_view(a + b) == sends_view(a) + sends_view(b),
{
    assert(sends_view(a + b) =~= sends_view(a) + sends_view(b));
}

/// Jumpstart discovery: seeding an empty Peer Table with the bootstrap
/// addresses puts exactly them in the table, each recorded at the seed time,
/// and the table addresses them without duplicates -- so the discovery
/// broadcast that `jumpstart_discovery` returns carries exactly one
/// `RequestPeerList` to each bootstrap address.
pub proof fn lemma_jumpstart_discovery(bootstrap: Seq<Addr>, t: u64)
    ensures
        ({
            let s = spec_seed(Seq::<PeerEntry>::empty(), bootstrap, t);
            &&& unique_addrs(s)
            &&& forall|b: Addr| #[trigger] spec_contains(s, b) <==> bootstrap.contains(b)
            &&& forall|b: Addr| bootstrap.contains(b) ==> #[trigger] last_seen_of(s, b) == t
            &&& addrs_of(s).no_duplicates()
            &&& forall|b: Addr| #[trigger] addrs_of(s).contains(b) <==> bootstrap.contains(b)
        }),
{
    let s = spec_seed(Seq::<PeerEntry>::empty(), bootstrap, t);
    lemma_seed_facts(Seq::<PeerEntry>::empty(), bootstrap, t);
    lemma_addrs_of(s);
}

/// New-peer announcement: a first datagram from an unknown address `x` puts
/// `x` in the table with the receive time, and the `NewNode` announcement --
/// a broadcast to the peers known before `x` was added -- never addresses
/// `x` itself.
pub proof fn lemma_new_peer_announcement(s: Seq<PeerEntry>, x: Addr, t: u64)
    requires
        unique_addrs(s),
        !spec_contains(s, x),
    ensures
        spec_contains(spec_touch(s, x, t), x),
        last_seen_of(spec_touch(s, x, t), x) == t,
        !addrs_of(s).contains(x),
        forall|m: MessageView, i: int|
            0 <= i < spec_broadcast(addrs_of(s), m).len() ==> #[trigger] spec_broadcast(
                addrs_of(s),
                m,
            )[i].dest != x,
{
    lemma_touch_facts(s, x, t);
    lemma_addrs_of(s);
    assert forall|m: MessageView, i: int|
        0 <= i < spec_broadcast(addrs_of(s), m).len() implies #[trigger] spec_broadcast(
        addrs_of(s),
        m,
    )[i].dest != x by {
        assert(spec_broadcast(addrs_of(s), m)[i].dest == addrs_of(s)[i]);
        assert(addrs_of(s).contains(addrs_of(s)[i]));
    }
}

/// Peer-list reply correctness: after the requester `d` is inserted on
/// receipt, the snapshot that answers `RequestPeerList` holds, without
/// duplicates, exactly the old peer set plus `d`.
pub proof fn lemma_peer_list_reply(s: Seq<PeerEntry>, d: Addr, t: u64)
    requires
        unique_addrs(s),
    ensures
        addrs_of(spec_touch(s, d, t)).to_set() == addrs_of(s).to_set().insert(d),
        addrs_of(spec_touch(s, d, t)).no_duplicates(),
{
    let r = spec_touch(s, d, t);
    lemma_touch_facts(s, d, t);
    lemma_addrs_of(s);
    lemma_addrs_of(r);
    assert(addrs_of(r).to_set() =~= addrs_of(s).to_set().insert(d));
}

/// Eviction on send failure: once a send to `p` fails and `p` is removed,
/// `p` is absent from the table, and any broadcast over a later snapshot
/// never addresses `p`.
pub proof fn lemma_eviction(s: Seq<PeerEntry>, p: Addr)
    requires
        unique_addrs(s),
    ensures
        !spec_contains(spec_remove(s, p), p),
        !addrs_of(spec_remove(s, p)).contains(p),
        forall|m: MessageView, i: int|
            0 <= i < spec_broadcast(addrs_of(spec_remove(s, p)), m).len()
                ==> #[trigger] spec_broadcast(addrs_of(spec_remove(s, p)), m)[i].dest != p,
{
    lemma_remove_facts(s, p);
    let a = addrs_of(spec_remove(s, p));
    assert forall|m: MessageView, i: int|
        0 <= i < spec_broadcast(a, m).len() implies #[trigger] spec_broadcast(a, m)[i].dest
        != p by {
        assert(spec_broadcast(a, m)[i].dest == a[i]);
        assert(a.contains(a[i]));
    }
}

/// The connection state: the Peer Table plus the heartbeat mark.
pub struct NetworkConnection {
    table: PeerTable,
    last_keep_alive: u64,
}

impl NetworkConnection {
    /// The entries of the Peer Table.
    pub closed spec fn peers(&self) -> Seq<PeerEntry> {
        self.table@
    }

    /// When the last keep-alive broadcast went out.
    pub closed spec fn last_keep_alive(&self) -> u64 {
        self.last_keep_alive
    }

    /// Well-formed: the Peer Table keeps addresses unique.
    pub open spec fn wf(&self) -> bool {
        unique_addrs(self.peers())
    }

    /// A fresh connection: no peers, the heartbeat mark set to `now`.
    pub fn new(now: u64) -> (r: NetworkConnection)
        ensures
            r.peers() == Seq::<PeerEntry>::empty(),
            r.last_keep_alive() == now,
            r.wf(),
    {
        NetworkConnection { table: PeerTable::new(), last_keep_alive: now }
    }

    /// Whether `addr` is a known peer.
    pub fn contains_peer(&self, addr: Addr) -> (r: bool)
        ensures
            r == spec_contains(self.peers(), addr),
    {
        self.table.contains(addr)
    }

    /// How many peers are known.
    pub fn peer_count(&self) -> (r: usize)
        ensures
            r == self.peers().len(),
    {
        self.table.len()
    }

    /// The recorded last-seen time of `addr`, if it is known.
    pub fn peer_last_seen(&self, addr: Addr) -> (r: Option<u64>)
        requires
            self.wf(),
        ensures
            match r {
                Some(t) => spec_contains(self.peers(), addr) && t == last_seen_of(
                    self.peers(),
                    addr,
                ),
                None => !spec_contains(self.peers(), addr),
            },
    {
        self.table.last_seen(addr)
    }

    /// A consistent copy of the known addresses, in table order.
    pub fn snapshot(&self) -> (r: Vec<Addr>)
        ensures
            r@ == addrs_of(self.peers()),
    {
        self.table.snapshot()
    }

    /// Whether the periodic keep-alive is overdue at `now`.
    pub fn heartbeat_due(&self, now: u64) -> (r: bool)
        ensures
            r == spec_heartbeat_due(self.last_keep_alive(), now),
    {
        now > KEEP_ALIVE_INTERVAL_SECS && now - KEEP_ALIVE_INTERVAL_SECS > self.last_keep_alive
    }

    /// Encodes `msg` once and addresses a copy to every peer in the current
    /// snapshot. Sending is the driver's job; a failed send comes back
    /// through `handle_send_failure`.
    pub fn broadcast(&self, msg: &NetworkMessage) -> (out: Vec<Outgoing>)
        ensures
            sends_view(out@) == spec_broadcast(addrs_of(self.peers()), msg@),
    {
        let targets = self.table.snapshot();
        let bytes = encode(msg);
        let mut out: Vec<Outgoing> = Vec::new();
        let mut i: usize = 0;
        while i < targets.len()
            invariant
                0 <= i <= targets@.len(),
                targets@ == addrs_of(self.peers()),
                bytes@ == spec_encode(msg@),
                out@.len() == i,
                forall|k: int|
                    0 <= k < i ==> #[trigger] out@[k]@ == (OutgoingView {
                        dest: targets@[k],
                        payload: spec_encode(msg@),
                    }),
            decreases targets@.len() - i,
        {
            let payload = slice_to_vec(bytes.as_slice());
            out.push(Outgoing { dest: targets[i], payload });
            i = i + 1;
        }
        proof {
            assert(sends_view(out@) =~= spec_broadcast(addrs_of(self.peers()), msg@));
        }
        out
    }

    /// Encodes `msg` once, addressed to one peer. The driver performs the
    /// actual send; a transport failure comes back through
    /// `handle_send_failure`.
    pub fn send_message_to(&self, msg: &NetworkMessage, addr: Addr) -> (out: Outgoing)
        ensures
            out.dest == addr,
            out.payload@ == spec_encode(msg@),
    {
        Outgoing { dest: addr, payload: encode(msg) }
    }

    /// Seeds the Peer Table with the configured bootstrap addresses and
    /// returns the jumpstart-discovery broadcast: one `RequestPeerList` to
    /// each address of the seeded table.
    pub fn jumpstart_discovery(&mut self, known_peers: &Vec<Addr>, now: u64) -> (out: Vec<
        Outgoing,
    >)
        requires
            old(self).wf(),
        ensures
            final(self).wf(),
            final(self).peers() == spec_seed(old(self).peers(), known_peers@, now),
            final(self).last_keep_alive() == old(self).last_keep_alive(),
            sends_view(out@) == spec_broadcast(
                addrs_of(final(self).peers()),
                MessageView::RequestPeerList,
            ),
    {
        let mut i: usize = 0;
        while i < known_peers.len()
            invariant
                0 <= i <= known_peers@.len(),
                self.wf(),
                self.peers() == spec_seed(old(self).peers(), known_peers@.take(i as int), now),
                self.last_keep_alive() == old(self).last_keep_alive(),
            decreases known_peers@.len() - i,
        {
            proof {
                lemma_seed_push(old(self).peers(), known_peers@.take(i as int), known_peers@[
                    i as int], now);
                assert(known_peers@.take(i as int).push(known_peers@[i as int]) =~= known_peers@
                    .take(i as int + 1));
            }
            self.table.touch(known_peers[i], now);
            i = i + 1;
        }
        proof {
            assert(known_peers@.take(known_peers@.len() as int) =~= known_peers@);
        }
        self.broadcast(&NetworkMessage::RequestPeerList)
    }

    /// Broadcasts a keep-alive to every known peer and resets the heartbeat
    /// mark to `now`.
    pub fn send_keep_alive(&mut self, now: u64) -> (out: Vec<Outgoing>)
        requires
            old(self).wf(),
        ensures
            final(self).wf(),
            final(self).peers() == old(self).peers(),
            final(self).last_keep_alive() == now,
            sends_view(out@) == spec_broadcast(addrs_of(old(self).peers()), MessageView::KeepAlive),
    {
        let out = self.broadcast(&NetworkMessage::KeepAlive);
        self.last_keep_alive = now;
        out
    }

    /// The transport could not deliver to `addr`: the peer is deemed
    /// unreachable and leaves the table. Later snapshots, and so later
    /// broadcasts, never address it again.
    pub fn handle_send_failure(&mut self, addr: Addr)
        requires
            old(self).wf(),
        ensures
            final(self).wf(),
            final(self).peers() == spec_remove(old(self).peers(), addr),
            !spec_contains(final(self).peers(), addr),
            !addrs_of(final(self).peers()).contains(addr),
            final(self).last_keep_alive() == old(self).last_keep_alive(),
    {
        proof {
            lemma_remove_facts(old(self).peers(), addr);
        }
        self.table.remove(addr);
    }

    /// One iteration of the protocol: reacts to the outcome of one receive
    /// attempt at time `now` (seconds, monotone).
    ///
    /// A timeout is not an error: it broadcasts one keep-alive and resets
    /// the heartbeat mark. A datagram first fires the overdue proactive
    /// keep-alive if any, then refreshes the sender's entry -- announcing a
    /// previously unknown sender to the peers known before it -- and then
    /// dispatches on the message: `NewNode` touches the announced address,
    /// `RequestPeerList` is answered with the current snapshot, `PeerList`
    /// and `KeepAlive` add nothing. An undecodable datagram is dropped with
    /// an error and leaves the table unchanged; a failed receive is
    /// propagated, recoverably, after the same proactive keep-alive check.
    pub fn process(&mut self, event: RecvEvent, now: u64) -> (r: ProcessOutcome)
        requires
            old(self).wf(),
        ensures
            final(self).wf(),
            event is TimedOut ==> {
                &&& final(self).peers() == old(self).peers()
                &&& final(self).last_keep_alive() == now
                &&& sends_view(r.sends@) == spec_broadcast(
                    addrs_of(old(self).peers()),
                    MessageView::KeepAlive,
                )
                &&& r.result == Ok::<Option<NetworkMessage>, RecvMessageError>(None)
            },
            event is Failed ==> {
                let due = spec_heartbeat_due(old(self).last_keep_alive(), now);
                &&& final(self).peers() == old(self).peers()
                &&& final(self).last_keep_alive() == if due {
                    now
                } else {
                    old(self).last_keep_alive()
                }
                &&& sends_view(r.sends@) == if due {
                    spec_broadcast(addrs_of(old(self).peers()), MessageView::KeepAlive)
                } else {
                    Seq::<OutgoingView>::empty()
                }
                &&& r.result == Err::<Option<NetworkMessage>, RecvMessageError>(
                    RecvMessageError::IoError,
                )
            },
            event matches RecvEvent::Datagram { src, payload } ==> {
                let due = spec_heartbeat_due(old(self).last_keep_alive(), now);
                let ka = if due {
                    spec_broadcast(addrs_of(old(self).peers()), MessageView::KeepAlive)
                } else {
                    Seq::<OutgoingView>::empty()
                };
                &&& final(self).last_keep_alive() == if due {
                    now
                } else {
                    old(self).last_keep_alive()
                }
                &&& match spec_decode(payload@) {
                    None => {
                        &&& final(self).peers() == old(self).peers()
                        &&& sends_view(r.sends@) == ka
                        &&& r.result == Err::<Option<NetworkMessage>, RecvMessageError>(
                            RecvMessageError::DecodeError(spec_classify(payload@)),
                        )
                    },
                    Some(mv) => {
                        let known = spec_contains(old(self).peers(), src);
                        let announce = if known {
                            Seq::<OutgoingView>::empty()
                        } else {
                            spec_broadcast(
                                addrs_of(old(self).peers()),
                                MessageView::NewNode { addr: src },
                            )
                        };
                        let touched = spec_touch(old(self).peers(), src, now);
                        let after = match mv {
                            MessageView::NewNode { addr } => spec_touch(touched, addr, now),
                            _ => touched,
                        };
                        let reply = if mv is RequestPeerList {
                            seq![
                                (OutgoingView {
                                    dest: src,
                                    payload: spec_encode(
                                        MessageView::PeerList { peers: addrs_of(after) },
                                    ),
                                }),
                            ]
                        } else {
                            Seq::<OutgoingView>::empty()
                        };
                        &&& final(self).peers() == after
                        &&& sends_view(r.sends@) == ka + announce + reply
                        &&& r.result matches Ok(Some(m)) && m@ == mv
                    },
                }
            },
    {
        match event {
            RecvEvent::TimedOut => {
                let sends = self.send_keep_alive(now);
                ProcessOutcome { sends, result: Ok(None) }
            },
            RecvEvent::Failed => {
                let sends = if self.heartbeat_due(now) {
                    self.send_keep_alive(now)
                } else {
                    Vec::new()
                };
                proof {
                    assert(sends_view(Seq::<Outgoing>::empty()) =~= Seq::<OutgoingView>::empty());
                }
                ProcessOutcome { sends, result: Err(RecvMessageError::IoError) }
            },
            RecvEvent::Datagram { src, payload } => {
                let mut sends = if self.heartbeat_due(now) {
                    self.send_keep_alive(now)
                } else {
                    Vec::new()
                };
                proof {
                    assert(sends_view(Seq::<Outgoing>::empty()) =~= Seq::<OutgoingView>::empty());
                }
                let ghost ka = sends_view(sends@);
                let ghost pre = old(self).peers();
                match decode(&payload) {
                    Err(e) => ProcessOutcome {
                        sends,
                        result: Err(RecvMessageError::DecodeError(e)),
                    },
                    Ok(msg) => {
                        if !self.table.contains(src) {
                            let mut announce = self.broadcast(
                                &NetworkMessage::NewNode { addr: src },
                            );
                            proof {
                                lemma_sends_view_concat(sends@, announce@);
                            }
                            sends.append(&mut announce);
                        } else {
                            proof {
                                assert(sends@ + Seq::<Outgoing>::empty() =~= sends@);
                                lemma_sends_view_concat(sends@, Seq::empty());
                            }
                        }
                        let ghost mid = sends_view(sends@);
                        proof {
                            lemma_touch_facts(pre, src, now);
                        }
                        self.table.touch(src, now);
                        match &msg {
                            NetworkMessage::NewNode { addr } => {
                                proof {
                                    lemma_touch_facts(self.peers(), *addr, now);
                                }
                                self.table.touch(*addr, now);
                                proof {
                                    assert(sends@ + Seq::<Outgoing>::empty() =~= sends@);
                                    lemma_sends_view_concat(sends@, Seq::empty());
                                }
                            },
                            NetworkMessage::RequestPeerList => {
                                let current = self.table.snapshot();
                                let reply = NetworkMessage::PeerList { peers: current };
                                let bytes = encode(&reply);
                                let out = Outgoing { dest: src, payload: bytes };
                                proof {
                                    lemma_sends_view_push(sends@, out);
                                    assert(mid.push(out@) =~= mid + seq![out@]);
                                }
                                sends.push(out);
                            },
                            NetworkMessage::PeerList { .. } => {
                                proof {
                                    assert(sends@ + Seq::<Outgoing>::empty() =~= sends@);
                                    lemma_sends_view_concat(sends@, Seq::empty());
                                }
                            },
                            NetworkMessage::KeepAlive => {
                                proof {
                                    assert(sends@ + Seq::<Outgoing>::empty() =~= sends@);
                                    lemma_sends_view_concat(sends@, Seq::empty());
                                }
                            },
                        }
                        ProcessOutcome { sends, result: Ok(Some(msg)) }
                    },
                }
            },
        }
    }
}

} // verus!
