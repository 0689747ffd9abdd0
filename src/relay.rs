use vstd::prelude::*;
use crate::ids::{smallest_free, IdAllocator};
use crate::proto::{ClientMessage, ServerMessage};

verus! {

/// What the transport reports about one connection, identified by its handle.
#[derive(Clone, Copy, Debug, PartialEq, Eq, Structural)]
pub enum PeerEvent {
    Connect { peer: usize },
    Disconnect { peer: usize },
    Receive { peer: usize, message: ClientMessage },
    /// A payload that did not decode.
    Malformed { peer: usize },
}

/// What the relay asks the transport to do in answer to one event.
#[derive(Clone, Copy, Debug, PartialEq, Eq, Structural)]
pub enum Outgoing {
    /// To one connection only.
    Send { peer: usize, message: ServerMessage },
    /// To every connected peer, the originator included.
    Broadcast { message: ServerMessage },
    /// Close that one connection.
    Drop { peer: usize },
}

/// The answer to a message from a peer that holds `id`.
pub open spec fn relay_reply(peer: usize, id: u32, message: ClientMessage, width: u32, height: u32) -> Outgoing {
    match message {
        ClientMessage::Move { position } => Outgoing::Broadcast { message: ServerMessage::Move { id, position } },
        ClientMessage::Shoot => Outgoing::Broadcast { message: ServerMessage::Shoot { id } },
        ClientMessage::Die => Outgoing::Send { peer, message: ServerMessage::Init { id, width, height } },
    }
}

/// The relay server: owns the id allocator and the id of each connection.
pub struct Relay {
    width: u32,
    height: u32,
    ids: IdAllocator,
    links: Vec<Option<u32>>,
}

impl Relay {
    pub closed spec fn width(&self) -> u32 {
        self.width
    }

    pub closed spec fn height(&self) -> u32 {
        self.height
    }

    /// The ids handed out to connected peers.
    pub closed spec fn live(&self) -> Set<nat> {
        self.ids.live()
    }

    /// The id of the connection `peer`, if it is connected.
    pub closed spec fn peer_id(&self, peer: nat) -> Option<u32> {
        if peer < self.links@.len() {
            self.links@[peer as int]
        } else {
            None
        }
    }

    /// Both relays hold the same ids for the same peers.
    pub open spec fn same_as(&self, other: Relay) -> bool {
        &&& self.width() == other.width()
        &&& self.height() == other.height()
        &&& self.live() == other.live()
        &&& forall|p: nat| self.peer_id(p) == other.peer_id(p)
    }

    /// The live ids are exactly the ids of the connected peers, one each.
    pub closed spec fn wf(&self) -> bool {
        &&& self.ids.wf()
        &&& forall|p: nat| #[trigger] self.peer_id(p) is Some ==> self.ids.live().contains(self.peer_id(p)->0 as nat)
        &&& forall|p: nat, q: nat|
            #[trigger] self.peer_id(p) == #[trigger] self.peer_id(q) && self.peer_id(p) is Some ==> p == q
        &&& forall|i: nat| #[trigger] self.ids.live().contains(i) ==> exists|p: nat| self.peer_id(p) == Some(i as u32) && i <= u32::MAX
    }

    /// A relay for an arena of `width` by `height` pixels, with nobody connected.
    pub fn new(width: u32, height: u32) -> (r: Relay)
        ensures
            r.wf(),
            r.width() == width,
            r.height() == height,
            r.live() == Set::<nat>::empty(),
            forall|p: nat| r.peer_id(p) is None,
    {
        Relay { width, height, ids: IdAllocator::new(), links: Vec::new() }
    }

    /// The id of the connection `peer`, if it is connected.
    pub fn id_of(&self, peer: usize) -> (r: Option<u32>)
        ensures
            r == self.peer_id(peer as nat),
    {
        if peer < self.links.len() {
            self.links[peer]
        } else {
            None
        }
    }

    /// Handles one transport event and says what to send in answer.
    pub fn handle(&mut self, event: PeerEvent) -> (r: Option<Outgoing>)
        requires
            old(self).wf(),
        ensures
            final(self).wf(),
            final(self).width() == old(self).width(),
            final(self).height() == old(self).height(),
            match event {
                PeerEvent::Connect { peer } => match old(self).peer_id(peer as nat) {
                    Some(_) => r is None && final(self).same_as(*old(self)),
                    None => match r {
                        Some(Outgoing::Send { peer: to, message: ServerMessage::Init { id, width, height } }) =>
                            to == peer && width == old(self).width() && height == old(self).height()
                            && smallest_free(old(self).live(), id as nat)
                            && final(self).live() == old(self).live().insert(id as nat)
                            && final(self).peer_id(peer as nat) == Some(id)
                            && forall|p: nat| p != peer ==> final(self).peer_id(p) == old(self).peer_id(p),
                        Some(Outgoing::Drop { peer: to }) => to == peer && final(self).same_as(*old(self))
                            && forall|j: nat| j < u32::MAX ==> old(self).live().contains(j),
                        _ => false,
                    },
                },
                PeerEvent::Disconnect { peer } => match old(self).peer_id(peer as nat) {
                    Some(id) => r == Some(Outgoing::Broadcast { message: ServerMessage::Leave { id } })
                        && final(self).live() == old(self).live().remove(id as nat)
                        && final(self).peer_id(peer as nat) is None
                        && forall|p: nat| p != peer ==> final(self).peer_id(p) == old(self).peer_id(p),
                    None => r is None && final(self).same_as(*old(self)),
                },
                PeerEvent::Receive { peer, message } => final(self).same_as(*old(self)) && r == answer(*old(self), peer, message),
                PeerEvent::Malformed { peer } => final(self).same_as(*old(self)) && r == Some(Outgoing::Drop { peer }),
            },
    {
        match event {
            PeerEvent::Connect { peer } => {
                if self.id_of(peer).is_some() {
                    return None;
                }
                let ghost before = *self;
                assert(before.wf());
                match self.ids.allocate() {
                    None => {
                        assert(self.ids.live() == before.ids.live());
                        assert(self.links@ == before.links@);
                        assert forall|p: nat| #[trigger] self.peer_id(p) is Some implies self.ids.live().contains(self.peer_id(p)->0 as nat) by {
                            assert(self.peer_id(p) == before.peer_id(p));
                        }
                        assert forall|p: nat, q: nat|
                            #[trigger] self.peer_id(p) == #[trigger] self.peer_id(q) && self.peer_id(p) is Some implies p == q by {
                            assert(self.peer_id(p) == before.peer_id(p));
                            assert(self.peer_id(q) == before.peer_id(q));
                        }
                        assert forall|i: nat| #[trigger] self.ids.live().contains(i) implies exists|p: nat|
                            self.peer_id(p) == Some(i as u32) && i <= u32::MAX by {
                            let q = choose|q: nat| before.peer_id(q) == Some(i as u32) && i <= u32::MAX;
                            assert(self.peer_id(q) == before.peer_id(q));
                        }
                        Some(Outgoing::Drop { peer })
                    }
                    Some(id) => {
                        while self.links.len() <= peer
                            invariant
                                forall|p: nat| #[trigger] self.peer_id(p) == before.peer_id(p),
                                self.ids.wf(),
                                self.ids.live() == before.ids.live().insert(id as nat),
                                smallest_free(before.ids.live(), id as nat),
                                self.width == before.width,
                                self.height == before.height,
                            decreases peer + 1 - self.links.len(),
                        {
                            let ghost prev = self.links@;
                            let ghost prev_self = *self;
                            self.links.push(None);
                            assert forall|p: nat| #[trigger] self.peer_id(p) == before.peer_id(p) by {
                                assert(prev_self.peer_id(p) == before.peer_id(p));
                                if p < prev.len() {
                                    assert(self.links@[p as int] == prev[p as int]);
                                }
                            }
                        }
                        let ghost after_loop = *self;
                        self.links.set(peer, Some(id));
                        assert(forall|p: nat| p != peer ==> #[trigger] self.peer_id(p) == after_loop.peer_id(p));
                        assert forall|i: nat| #[trigger] self.ids.live().contains(i) implies exists|p: nat|
                            self.peer_id(p) == Some(i as u32) && i <= u32::MAX by {
                            if i != id as nat {
                                assert(before.ids.live().contains(i));
                                let q = choose|q: nat| before.peer_id(q) == Some(i as u32) && i <= u32::MAX;
                                assert(q != peer);
                                assert(after_loop.peer_id(q) == Some(i as u32));
                                assert(self.peer_id(q) == Some(i as u32));
                            } else {
                                assert(self.peer_id(peer as nat) == Some(i as u32));
                            }
                        }
                        assert forall|p: nat| #[trigger] self.peer_id(p) is Some implies self.ids.live().contains(self.peer_id(p)->0 as nat) by {
                            if p != peer {
                                assert(after_loop.peer_id(p) == before.peer_id(p));
                            }
                        }
                        assert forall|p: nat, q: nat|
                            #[trigger] self.peer_id(p) == #[trigger] self.peer_id(q) && self.peer_id(p) is Some implies p == q by {
                            if p != peer && q != peer {
                                assert(after_loop.peer_id(p) == before.peer_id(p));
                                assert(after_loop.peer_id(q) == before.peer_id(q));
                            } else if p != peer {
                                assert(after_loop.peer_id(p) == before.peer_id(p));
                                assert(before.ids.live().contains(id as nat));
                            } else if q != peer {
                                assert(after_loop.peer_id(q) == before.peer_id(q));
                                assert(before.ids.live().contains(id as nat));
                            }
                        }
                        Some(Outgoing::Send { peer, message: ServerMessage::Init { id, width: self.width, height: self.height } })
                    }
                }
            }
            PeerEvent::Disconnect { peer } => {
                match self.id_of(peer) {
                    None => None,
                    Some(id) => {
                        let ghost before = *self;
                        assert(before.wf());
                        self.ids.free(id);
                        self.links.set(peer, None);
                        assert forall|i: nat| #[trigger] self.ids.live().contains(i) implies exists|p: nat|
                            self.peer_id(p) == Some(i as u32) && i <= u32::MAX by {
                            assert(before.ids.live().contains(i));
                            let q = choose|q: nat| before.peer_id(q) == Some(i as u32) && i <= u32::MAX;
                            assert(q != peer);
                            assert(self.peer_id(q) == Some(i as u32));
                        }
                        assert forall|p: nat| #[trigger] self.peer_id(p) is Some implies self.ids.live().contains(self.peer_id(p)->0 as nat) by {
                            assert(self.peer_id(p) == before.peer_id(p));
                            assert(before.peer_id(peer as nat) == Some(id));
                        }
                        assert forall|p: nat, q: nat|
                            #[trigger] self.peer_id(p) == #[trigger] self.peer_id(q) && self.peer_id(p) is Some implies p == q by {
                            assert(self.peer_id(p) == before.peer_id(p));
                            assert(self.peer_id(q) == before.peer_id(q));
                        }
                        Some(Outgoing::Broadcast { message: ServerMessage::Leave { id } })
                    }
                }
            }
            PeerEvent::Receive { peer, message } => {
                match self.id_of(peer) {
                    None => None,
                    Some(id) => Some(match message {
                        ClientMessage::Move { position } => Outgoing::Broadcast { message: ServerMessage::Move { id, position } },
                        ClientMessage::Shoot => Outgoing::Broadcast { message: ServerMessage::Shoot { id } },
                        ClientMessage::Die => Outgoing::Send {
                            peer,
                            message: ServerMessage::Init { id, width: self.width, height: self.height },
                        },
                    }),
                }
            }
            PeerEvent::Malformed { peer } => Some(Outgoing::Drop { peer }),
        }
    }
}


/// What `relay` answers to `message` from the connection `peer`.
pub open spec fn answer(relay: Relay, peer: usize, message: ClientMessage) -> Option<Outgoing> {
    match relay.peer_id(peer as nat) {
        Some(id) => Some(relay_reply(peer, id, message, relay.width(), relay.height())),
        None => None,
    }
}

proof fn lemma_run_unchanged(rs: Seq<Relay>, n: int)
    requires
        0 <= n < rs.len(),
        forall|i: int| 0 < i < rs.len() ==> #[trigger] rs[i].same_as(rs[i - 1]),
    ensures
        rs[n].same_as(rs[0]),
    decreases n,
{
    if n > 0 {
        lemma_run_unchanged(rs, n - 1);
        assert(rs[n].same_as(rs[n - 1]));
    }
}

/// Messages received in a row are answered one for one and in the order they
/// came, each as the relay stood before the run: `rs` are the relay's states
/// and `outs` its answers as `handle` gives them for those `Receive` events.
pub proof fn lemma_relay_order(rs: Seq<Relay>, events: Seq<(usize, ClientMessage)>, outs: Seq<Option<Outgoing>>)
    requires
        rs.len() == events.len() + 1,
        outs.len() == events.len(),
        forall|i: int| 0 < i < rs.len() ==> #[trigger] rs[i].same_as(rs[i - 1]),
        forall|i: int| 0 <= i < events.len() ==> #[trigger] outs[i] == answer(rs[i], events[i].0, events[i].1),
    ensures
        forall|i: int| 0 <= i < events.len() ==> #[trigger] outs[i] == answer(rs[0], events[i].0, events[i].1),
{
    assert forall|i: int| 0 <= i < events.len() implies #[trigger] outs[i] == answer(rs[0], events[i].0, events[i].1) by {
        lemma_run_unchanged(rs, i);
        assert(rs[i].peer_id(events[i].0 as nat) == rs[0].peer_id(events[i].0 as nat));
    }
}

/// A `Die` is answered by an `Init` to its sender alone, carrying the sender's
/// own id: a respawn keeps the id.
pub proof fn lemma_respawn_keeps_id(peer: usize, id: u32, width: u32, height: u32)
    ensures
        relay_reply(peer, id, ClientMessage::Die, width, height)
            == (Outgoing::Send { peer, message: ServerMessage::Init { id, width, height } }),
{
}

} // verus!
