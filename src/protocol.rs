use vstd::prelude::*;

use crate::message::{ListMode, ListModeView, ListRequest, ListResponse, Message};
use crate::store::views;

verus! {

/// What a payload received on the shared topic turned out to be.
pub enum Inbound {
    Response(ListResponse),
    Request(ListRequest),
    Unrecognized,
}

/// What the event loop does about a payload received on the shared topic.
pub enum Reaction {
    /// Show these messages: a response addressed to this peer.
    Display(Vec<Message>),
    /// Start a responder that answers the peer with this identifier.
    Respond(String),
    /// Nothing: foreign traffic, or a response or request meant for another peer.
    Ignore,
}

/// Whether a request in this mode asks this peer (identified by `local`) to answer.
pub open spec fn addresses(mode: ListModeView, local: Seq<char>) -> bool {
    match mode {
        ListModeView::All => true,
        ListModeView::One(p) => p == local,
    }
}

/// Decides what to do with a payload from the peer `origin`, received by the
/// peer `local`.
pub fn react(inbound: Inbound, local: &String, origin: &String) -> (r: Reaction)
    ensures
        match inbound {
            Inbound::Response(resp) => if resp.receiver@ == local@ {
                r matches Reaction::Display(d) && views(d@) == resp@.data
            } else {
                r is Ignore
            },
            Inbound::Request(req) => if addresses(req.mode@, local@) {
                r matches Reaction::Respond(p) && p@ == origin@
            } else {
                r is Ignore
            },
            Inbound::Unrecognized => r is Ignore,
        },
{
    match inbound {
        Inbound::Response(resp) => {
            if resp.receiver == *local {
                Reaction::Display(resp.data)
            } else {
                Reaction::Ignore
            }
        },
        Inbound::Request(req) => {
            let asked = match &req.mode {
                ListMode::All => true,
                ListMode::One(p) => *p == *local,
            };
            if asked {
                Reaction::Respond(origin.clone())
            } else {
                Reaction::Ignore
            }
        },
        Inbound::Unrecognized => Reaction::Ignore,
    }
}

/// Members after a discovery report that `peer` appeared.
pub open spec fn after_appeared(members: Set<Seq<char>>, peer: Seq<char>) -> Set<Seq<char>> {
    members.insert(peer)
}

/// Members after a report that `peer` vanished: it is removed only when it is
/// no longer live.
pub open spec fn after_vanished(members: Set<Seq<char>>, peer: Seq<char>, still_live: bool) -> Set<
    Seq<char>,
> {
    if still_live {
        members
    } else {
        members.remove(peer)
    }
}

/// The peers that the gossip channel currently sends to, each once.
pub struct Membership {
    peers: Vec<String>,
}

impl View for Membership {
    type V = Set<Seq<char>>;

    closed spec fn view(&self) -> Set<Seq<char>> {
        Set::new(|p: Seq<char>| exists|i: int| 0 <= i < self.peers@.len() && #[trigger] self.peers@[i]@ == p)
    }
}

impl Membership {
    /// No peer is listed twice.
    pub closed spec fn wf(&self) -> bool {
        forall|i: int, j: int|
            0 <= i < j < self.peers@.len() ==> #[trigger] self.peers@[i]@ != #[trigger] self.peers@[j]@
    }

    pub fn new() -> (r: Membership)
        ensures
            r.wf(),
            r@ == Set::<Seq<char>>::empty(),
    {
        let r = Membership { peers: Vec::new() };
        assert(r@ =~= Set::<Seq<char>>::empty());
        r
    }

    fn position(&self, peer: &String) -> (r: Option<usize>)
        ensures
            match r {
                Some(i) => i < self.peers@.len() && self.peers@[i as int]@ == peer@,
                None => !self@.contains(peer@),
            },
    {
        let mut i: usize = 0;
        while i < self.peers.len()
            invariant
                i <= self.peers@.len(),
                forall|k: int| 0 <= k < i ==> self.peers@[k]@ != peer@,
            decreases self.peers@.len() - i,
        {
            if self.peers[i] == *peer {
                return Some(i);
            }
            i = i + 1;
        }
        None
    }

    pub fn contains(&self, peer: &String) -> (r: bool)
        ensures
            r == self@.contains(peer@),
    {
        self.position(peer).is_some()
    }

    /// A peer became visible: the channel now sends to it.
    pub fn peer_appeared(&mut self, peer: &String)
        requires
            old(self).wf(),
        ensures
            final(self).wf(),
            final(self)@ == after_appeared(old(self)@, peer@),
    {
        if self.position(peer).is_none() {
            let ghost before = self.peers@;
            self.peers.push(peer.clone());
            assert(self@ =~= old(self)@.insert(peer@)) by {
                assert forall|p: Seq<char>| self@.contains(p) implies old(self)@.insert(peer@).contains(p) by {
                    let i = choose|i: int| 0 <= i < self.peers@.len() && #[trigger] self.peers@[i]@ == p;
                    if i < before.len() {
                        assert(before[i]@ == p);
                    }
                }
                assert forall|p: Seq<char>| old(self)@.insert(peer@).contains(p) implies self@.contains(p) by {
                    if p == peer@ {
                        assert(self.peers@[before.len() as int]@ == p);
                    } else {
                        let i = choose|i: int| 0 <= i < before.len() && #[trigger] before[i]@ == p;
                        assert(self.peers@[i]@ == p);
                    }
                }
            }
        } else {
            assert(self@ =~= old(self)@.insert(peer@));
        }
    }

    /// A peer's advertisement expired. It leaves the channel only when the
    /// discovery provider no longer reports it live (`still_live` is false).
    pub fn peer_vanished(&mut self, peer: &String, still_live: bool)
        requires
            old(self).wf(),
        ensures
            final(self).wf(),
            final(self)@ == after_vanished(old(self)@, peer@, still_live),
    {
        if still_live {
            return;
        }
        match self.position(peer) {
            None => {
                assert(self@ =~= old(self)@.remove(peer@));
            },
            Some(i) => {
                let ghost before = self.peers@;
                self.peers.remove(i);
                assert(self@ =~= old(self)@.remove(peer@)) by {
                    assert forall|p: Seq<char>| self@.contains(p) implies old(self)@.remove(peer@).contains(p) by {
                        let k = choose|k: int| 0 <= k < self.peers@.len() && #[trigger] self.peers@[k]@ == p;
                        if k < i {
                            assert(before[k]@ == p);
                            assert(p != peer@);
                        } else {
                            assert(before[k + 1]@ == p);
                            assert(p != peer@);
                        }
                    }
                    assert forall|p: Seq<char>| old(self)@.remove(peer@).contains(p) implies self@.contains(p) by {
                        let k = choose|k: int| 0 <= k < before.len() && #[trigger] before[k]@ == p;
                        if k < i {
                            assert(self.peers@[k]@ == p);
                        } else {
                            assert(k != i);
                            assert(self.peers@[k - 1]@ == p);
                        }
                    }
                }
            },
        }
    }

    /// The identifiers of the peers of the channel, each once.
    pub fn peers(&self) -> (r: Vec<String>)
        requires
            self.wf(),
        ensures
            forall|p: Seq<char>| self@.contains(p) <==> exists|i: int| 0 <= i < r@.len() && #[trigger] r@[i]@ == p,
            forall|i: int, j: int| 0 <= i < j < r@.len() ==> #[trigger] r@[i]@ != #[trigger] r@[j]@,
    {
        self.peers.clone()
    }
}

/// Two peers discovered one after the other, then the first reported gone
/// while discovery still reports it live: both stay members.
pub proof fn lemma_live_peer_stays(members: Set<Seq<char>>, a: Seq<char>, b: Seq<char>)
    ensures
        after_vanished(after_appeared(after_appeared(members, a), b), a, true).contains(a),
        after_vanished(after_appeared(after_appeared(members, a), b), a, true).contains(b),
{
}

/// A vanished peer that discovery no longer reports live is no member.
pub proof fn lemma_dead_peer_leaves(members: Set<Seq<char>>, a: Seq<char>)
    ensures
        !after_vanished(members, a, false).contains(a),
{
}

} // verus!
