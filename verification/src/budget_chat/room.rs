use vstd::prelude::*;
use crate::budget_chat::username::Username;
use crate::budget_chat::message::{OutgoingMessage, MessageView};

verus! {

/// The network address of a participant, as plain values: the IP address as
/// a 128-bit number (an IPv4 address in its IPv4-mapped form), whether it is
/// an IPv6 address, the port, and for IPv6 the flow label and scope id. Two
/// socket addresses are equal exactly when these are.
#[derive(PartialEq, Eq, Structural, Debug, Clone, Copy, Hash)]
pub struct PeerAddr {
    pub ip: u128,
    pub is_v6: bool,
    pub port: u16,
    pub flowinfo: u32,
    pub scope_id: u32,
}

/// A participant in the room: where it is and what it is called.
pub struct Peer {
    address: PeerAddr,
    username: Username,
}

/// A message to hand to the participant at `to`.
#[derive(Debug)]
pub struct Delivery {
    pub to: PeerAddr,
    pub message: OutgoingMessage,
}

impl View for Delivery {
    type V = (PeerAddr, MessageView);

    open spec fn view(&self) -> (PeerAddr, MessageView) {
        (self.to, self.message@)
    }
}

/// The participants of a room, in the order they entered, by address and name.
pub type Members = Seq<(PeerAddr, Seq<char>)>;

/// The views of `ds`, in order.
pub open spec fn deliveries(ds: Seq<Delivery>) -> Seq<(PeerAddr, MessageView)> {
    ds.map_values(|d: Delivery| d@)
}

/// The names of the participants in `members`, in order.
pub open spec fn member_names(members: Members) -> Seq<Seq<char>> {
    members.map_values(|p: (PeerAddr, Seq<char>)| p.1)
}

/// `msg` addressed to each participant in `members` other than `from`, in order.
pub open spec fn fanout(members: Members, from: PeerAddr, msg: MessageView) -> Seq<(PeerAddr, MessageView)>
    decreases members.len(),
{
    if members.len() == 0 {
        Seq::empty()
    } else {
        let rest = fanout(members.drop_last(), from, msg);
        if members.last().0 != from {
            rest.push((members.last().0, msg))
        } else {
            rest
        }
    }
}

/// `members` without the participant at `address`.
pub open spec fn without(members: Members, address: PeerAddr) -> Members
    decreases members.len(),
{
    if members.len() == 0 {
        Seq::empty()
    } else {
        let rest = without(members.drop_last(), address);
        if members.last().0 != address {
            rest.push(members.last())
        } else {
            rest
        }
    }
}

/// Whether a participant at `address` is in `members`.
pub open spec fn is_member(members: Members, address: PeerAddr) -> bool {
    exists|i: int| 0 <= i < members.len() && (#[trigger] members[i]).0 == address
}

/// No two participants in `members` share an address.
pub open spec fn distinct_addresses(members: Members) -> bool {
    forall|i: int, j: int|
        0 <= i < j < members.len() ==> (#[trigger] members[i]).0 != (#[trigger] members[j]).0
}

/// The chat room: who is in it.
///
/// The members are kept in a `Vec` in the order they entered, with distinct
/// addresses as the type's invariant, rather than in a hash map keyed by
/// address: the list of participants a newcomer is sent is read off this
/// order, and the order in which a hash map is walked is not a function of
/// its contents, so no contract could say which list is sent.
pub struct Room {
    peers: Vec<Peer>,
}

impl View for Room {
    type V = Members;

    closed spec fn view(&self) -> Members {
        self.peers@.map_values(|p: Peer| (p.address, p.username@))
    }
}

/// A participant's own handle on the room: its name and address.
pub struct PeerHandle {
    pub username: Username,
    pub address: PeerAddr,
}

/// Removing the participant at index `k` of `members`, whose addresses are
/// distinct, leaves `members` without that address.
proof fn lemma_without_at(members: Members, address: PeerAddr, k: int)
    requires
        distinct_addresses(members),
        0 <= k < members.len(),
        members[k].0 == address,
    ensures
        without(members, address) == members.remove(k),
    decreases members.len(),
{
    let init = members.drop_last();
    if k == members.len() - 1 {
        assert forall|i: int| 0 <= i < init.len() implies (#[trigger] init[i]).0 != address by {
            assert(members[i].0 != members[k].0);
        }
        lemma_without_absent(init, address);
        assert(init =~= members.remove(k));
    } else {
        assert(distinct_addresses(init));
        lemma_without_at(init, address, k);
        assert(members.last().0 != address) by {
            assert(members[k].0 != members[members.len() - 1].0);
        }
        assert(init.remove(k).push(members.last()) =~= members.remove(k));
    }
}

/// Leaving out an address that no participant of `members` has changes nothing.
proof fn lemma_without_absent(members: Members, address: PeerAddr)
    requires
        forall|i: int| 0 <= i < members.len() ==> (#[trigger] members[i]).0 != address,
    ensures
        without(members, address) == members,
    decreases members.len(),
{
    if members.len() > 0 {
        let init = members.drop_last();
        assert forall|i: int| 0 <= i < init.len() implies (#[trigger] init[i]).0 != address by {
            assert(init[i] == members[i]);
        }
        lemma_without_absent(init, address);
        assert(members.last().0 != address) by {
            assert(members[members.len() - 1].0 != address);
        }
        assert(init.push(members.last()) =~= members);
    }
}

impl Room {
    #[verifier::type_invariant]
    closed spec fn well_formed(&self) -> bool {
        distinct_addresses(self@)
    }

    /// An empty room.
    pub fn new() -> (room: Room)
        ensures
            room@ == Seq::<(PeerAddr, Seq<char>)>::empty(),
            distinct_addresses(room@),
    {
        let room = Room { peers: Vec::new() };
        proof {
            assert(room@ =~= Seq::<(PeerAddr, Seq<char>)>::empty());
        }
        room
    }

    /// Where in the room the participant at `address` stands, if anywhere.
    fn position(&self, address: PeerAddr) -> (res: Option<usize>)
        ensures
            match res {
                Some(k) => k < self@.len() && self@[k as int].0 == address,
                None => !is_member(self@, address),
            },
    {
        let mut i: usize = 0;
        while i < self.peers.len()
            invariant
                i <= self.peers@.len(),
                self@.len() == self.peers@.len(),
                forall|j: int| 0 <= j < i ==> (#[trigger] self@[j]).0 != address,
            decreases self.peers@.len() - i,
        {
            assert(self@[i as int].0 == self.peers@[i as int].address);
            if self.peers[i].address == address {
                return Some(i);
            }
            i = i + 1;
        }
        None
    }

    /// `msg` addressed to each participant other than the one at `from`.
    fn broadcast_internal(&self, from: PeerAddr, msg: &OutgoingMessage) -> (res: Vec<Delivery>)
        ensures
            deliveries(res@) == fanout(self@, from, msg@),
    {
        let mut res: Vec<Delivery> = Vec::new();
        let mut i: usize = 0;
        while i < self.peers.len()
            invariant
                i <= self.peers@.len(),
                self@.len() == self.peers@.len(),
                deliveries(res@) == fanout(self@.take(i as int), from, msg@),
            decreases self.peers@.len() - i,
        {
            let ghost before = res@;
            let to = self.peers[i].address;
            proof {
                assert(self@.take(i + 1).drop_last() =~= self@.take(i as int));
                assert(self@.take(i + 1).last().0 == to);
            }
            if to != from {
                res.push(Delivery { to, message: msg.clone() });
                proof {
                    assert(deliveries(res@) =~= deliveries(before).push((to, msg@)));
                }
            }
            i = i + 1;
        }
        proof {
            assert(self@.take(i as int) =~= self@);
        }
        res
    }

    /// `msg` addressed to each participant other than the one at `from`.
    pub fn broadcast(&self, from: PeerAddr, msg: OutgoingMessage) -> (res: Vec<Delivery>)
        ensures
            deliveries(res@) == fanout(self@, from, msg@),
            distinct_addresses(self@),
    {
        proof {
            use_type_invariant(self);
        }
        self.broadcast_internal(from, &msg)
    }

    /// The names of the participants, in the order they entered.
    fn names(&self) -> (res: Vec<Username>)
        ensures
            res@.map_values(|u: Username| u@) == member_names(self@),
    {
        let mut res: Vec<Username> = Vec::new();
        let mut i: usize = 0;
        while i < self.peers.len()
            invariant
                i <= self.peers@.len(),
                self@.len() == self.peers@.len(),
                res@.len() == i,
                forall|j: int| 0 <= j < i ==> (#[trigger] res@[j])@ == self@[j].1,
            decreases self.peers@.len() - i,
        {
            assert(self@[i as int].1 == self.peers@[i as int].username@);
            res.push(self.peers[i].username.clone());
            i = i + 1;
        }
        proof {
            assert(res@.map_values(|u: Username| u@) =~= member_names(self@));
        }
        res
    }

    /// Admits `username` at `address`. The newcomer is told who was already
    /// in the room, and everyone else is told of the arrival; a participant
    /// already at `address` is replaced.
    pub fn join(&mut self, address: PeerAddr, username: Username) -> (res: (PeerHandle, Vec<Delivery>))
        ensures
            final(self)@ == without(old(self)@, address).push((address, username@)),
            distinct_addresses(final(self)@),
            res.0.address == address,
            res.0.username@ == username@,
            deliveries(res.1@) == seq![(address, MessageView::Participants(member_names(old(self)@)))]
                + fanout(old(self)@, address, MessageView::Join(username@)),
    {
        proof {
            use_type_invariant(&*self);
        }
        let names = self.names();
        let mut out: Vec<Delivery> = Vec::new();
        out.push(Delivery { to: address, message: OutgoingMessage::Participants(names) });
        let notice = OutgoingMessage::Join(username.clone());
        let mut others = self.broadcast_internal(address, &notice);
        let ghost first = deliveries(out@);
        let ghost rest = deliveries(others@);
        out.append(&mut others);
        proof {
            assert(deliveries(out@) =~= first + rest);
        }
        let ghost members = self@;
        match self.position(address) {
            Some(k) => {
                proof {
                    lemma_without_at(members, address, k as int);
                }
                let mut peers: Vec<Peer> = Vec::new();
                std::mem::swap(&mut peers, &mut self.peers);
                peers.remove(k);
                peers.push(Peer { address, username: username.clone() });
                proof {
                    assert(peers@.map_values(|p: Peer| (p.address, p.username@)) =~= members.remove(
                        k as int,
                    ).push((address, username@)));
                    assert forall|i: int, j: int|
                        0 <= i < j < peers@.len() implies (#[trigger] peers@[i]).address != (
                    #[trigger] peers@[j]).address by {
                        let v = peers@.map_values(|p: Peer| (p.address, p.username@));
                        assert(v[i].0 == peers@[i].address);
                        assert(v[j].0 == peers@[j].address);
                        if j == peers@.len() - 1 {
                            if i < k {
                                assert(members[i].0 != members[k as int].0);
                            } else {
                                assert(members[i + 1].0 != members[k as int].0);
                            }
                        } else {
                            let ii = if i < k { i } else { i + 1 };
                            let jj = if j < k { j } else { j + 1 };
                            assert(members[ii].0 != members[jj].0);
                        }
                    }
                }
                self.peers = peers;
            },
            None => {
                proof {
                    assert forall|i: int| 0 <= i < members.len() implies (#[trigger] members[i]).0
                        != address by {
                        if members[i].0 == address {
                            assert(is_member(members, address));
                        }
                    }
                    lemma_without_absent(members, address);
                }
                let mut peers: Vec<Peer> = Vec::new();
                std::mem::swap(&mut peers, &mut self.peers);
                peers.push(Peer { address, username: username.clone() });
                proof {
                    assert(peers@.map_values(|p: Peer| (p.address, p.username@)) =~= members.push(
                        (address, username@),
                    ));
                    assert forall|i: int, j: int|
                        0 <= i < j < peers@.len() implies (#[trigger] peers@[i]).address != (
                    #[trigger] peers@[j]).address by {
                        let v = peers@.map_values(|p: Peer| (p.address, p.username@));
                        assert(v[i].0 == peers@[i].address);
                        assert(v[j].0 == peers@[j].address);
                        if j < members.len() {
                            assert(members[i].0 != members[j].0);
                        }
                    }
                }
                self.peers = peers;
            },
        }
        (PeerHandle { username, address }, out)
    }

    /// Lets the participant at `address` go. Everyone who stays is told of
    /// the departure; when no participant is at `address`, nothing changes
    /// and nobody is told anything.
    pub fn leave(&mut self, address: PeerAddr) -> (res: Vec<Delivery>)
        ensures
            final(self)@ == without(old(self)@, address),
            distinct_addresses(final(self)@),
            is_member(old(self)@, address) ==> exists|k: int|
                0 <= k < old(self)@.len() && old(self)@[k].0 == address && deliveries(res@)
                    == fanout(final(self)@, address, MessageView::Leave(old(self)@[k].1)),
            !is_member(old(self)@, address) ==> res@.len() == 0,
    {
        proof {
            use_type_invariant(&*self);
        }
        let ghost members = self@;
        match self.position(address) {
            Some(k) => {
                proof {
                    lemma_without_at(members, address, k as int);
                }
                let mut peers: Vec<Peer> = Vec::new();
                std::mem::swap(&mut peers, &mut self.peers);
                let leaving = peers.remove(k);
                proof {
                    assert(peers@.map_values(|p: Peer| (p.address, p.username@)) =~= members.remove(
                        k as int,
                    ));
                    assert forall|i: int, j: int|
                        0 <= i < j < peers@.len() implies (#[trigger] peers@[i]).address != (
                    #[trigger] peers@[j]).address by {
                        let v = peers@.map_values(|p: Peer| (p.address, p.username@));
                        assert(v[i].0 == peers@[i].address);
                        assert(v[j].0 == peers@[j].address);
                        let ii = if i < k { i } else { i + 1 };
                        let jj = if j < k { j } else { j + 1 };
                        assert(members[ii].0 != members[jj].0);
                    }
                }
                self.peers = peers;
                let notice = OutgoingMessage::Leave(leaving.username);
                self.broadcast_internal(address, &notice)
            },
            None => {
                proof {
                    assert forall|i: int| 0 <= i < members.len() implies (#[trigger] members[i]).0
                        != address by {
                        if members[i].0 == address {
                            assert(is_member(members, address));
                        }
                    }
                    lemma_without_absent(members, address);
                }
                Vec::new()
            },
        }
    }
}

/// After a join at `address`, the room has a participant there under the
/// name given, and no second one.
pub proof fn law_join_admits(members: Members, address: PeerAddr, name: Seq<char>)
    requires
        distinct_addresses(members),
    ensures
        ({
            let after = without(members, address).push((address, name));
            &&& after.last() == (address, name)
            &&& distinct_addresses(after)
            &&& forall|i: int| 0 <= i < after.len() - 1 ==> (#[trigger] after[i]).0 != address
        }),
{
    lemma_without_keeps(members, address);
    let rest = without(members, address);
    let after = rest.push((address, name));
    assert forall|i: int, j: int| 0 <= i < j < after.len() implies (#[trigger] after[i]).0 != (
    #[trigger] after[j]).0 by {
        if j == after.len() - 1 {
            assert(after[i] == rest[i]);
        } else {
            assert(after[i] == rest[i]);
            assert(after[j] == rest[j]);
        }
    }
    assert forall|i: int| 0 <= i < after.len() - 1 implies (#[trigger] after[i]).0 != address by {
        assert(after[i] == rest[i]);
    }
}

/// Leaving out an address keeps the other participants, in order, and
/// nobody at that address.
proof fn lemma_without_keeps(members: Members, address: PeerAddr)
    requires
        distinct_addresses(members),
    ensures
        distinct_addresses(without(members, address)),
        forall|i: int|
            0 <= i < without(members, address).len() ==> (#[trigger] without(members, address)[i]).0
                != address,
        forall|i: int|
            0 <= i < without(members, address).len() ==> members.contains(
                #[trigger] without(members, address)[i],
            ),
    decreases members.len(),
{
    if members.len() > 0 {
        let init = members.drop_last();
        assert(distinct_addresses(init));
        lemma_without_keeps(init, address);
        let r = without(init, address);
        if members.last().0 != address {
            let r2 = r.push(members.last());
            assert forall|i: int| 0 <= i < r.len() implies (#[trigger] r[i]).0 != members.last().0 by {
                assert(init.contains(r[i]));
                let k = choose|k: int| 0 <= k < init.len() && init[k] == r[i];
                assert(members[k].0 != members[members.len() - 1].0);
            }
            assert forall|i: int| 0 <= i < r2.len() implies members.contains(#[trigger] r2[i]) by {
                if i < r.len() {
                    assert(init.contains(r[i]));
                    let k = choose|k: int| 0 <= k < init.len() && init[k] == r[i];
                    assert(members[k] == r2[i]);
                } else {
                    assert(members[members.len() - 1] == r2[i]);
                }
            }
            assert forall|i: int, j: int| 0 <= i < j < r2.len() implies (#[trigger] r2[i]).0 != (
            #[trigger] r2[j]).0 by {
                if j == r.len() {
                    assert(r2[i] == r[i]);
                } else {
                    assert(r2[i] == r[i]);
                    assert(r2[j] == r[j]);
                }
            }
        } else {
            assert forall|i: int| 0 <= i < r.len() implies members.contains(#[trigger] r[i]) by {
                assert(init.contains(r[i]));
                let k = choose|k: int| 0 <= k < init.len() && init[k] == r[i];
                assert(members[k] == r[i]);
            }
        }
    }
}

/// A join by a newcomer followed by its leave gives back the room as it was.
pub proof fn law_leave_undoes_join(members: Members, address: PeerAddr, name: Seq<char>)
    requires
        !is_member(members, address),
    ensures
        without(without(members, address).push((address, name)), address) == members,
{
    assert forall|i: int| 0 <= i < members.len() implies (#[trigger] members[i]).0 != address by {
        if members[i].0 == address {
            assert(is_member(members, address));
        }
    }
    lemma_without_absent(members, address);
    let after = members.push((address, name));
    assert(after.drop_last() =~= members);
}

/// A broadcast reaches every participant but the sender, each exactly once,
/// and nobody outside the room.
pub proof fn law_broadcast_reaches_others(members: Members, from: PeerAddr, msg: MessageView)
    requires
        distinct_addresses(members),
    ensures
        forall|i: int|
            0 <= i < fanout(members, from, msg).len() ==> {
                &&& (#[trigger] fanout(members, from, msg)[i]).0 != from
                &&& fanout(members, from, msg)[i].1 == msg
                &&& is_member(members, fanout(members, from, msg)[i].0)
            },
        forall|i: int, j: int|
            0 <= i < j < fanout(members, from, msg).len() ==> (#[trigger] fanout(
                members,
                from,
                msg,
            )[i]).0 != (#[trigger] fanout(members, from, msg)[j]).0,
        forall|k: int|
            0 <= k < members.len() && (#[trigger] members[k]).0 != from ==> exists|i: int|
                0 <= i < fanout(members, from, msg).len() && fanout(members, from, msg)[i].0
                    == members[k].0,
    decreases members.len(),
{
    if members.len() > 0 {
        let init = members.drop_last();
        assert(distinct_addresses(init));
        law_broadcast_reaches_others(init, from, msg);
        let r = fanout(init, from, msg);
        let f = fanout(members, from, msg);
        let last = members.last();
        assert forall|i: int| 0 <= i < r.len() implies is_member(members, (#[trigger] r[i]).0) by {
            let k = choose|k: int| 0 <= k < init.len() && (#[trigger] init[k]).0 == r[i].0;
            assert(members[k] == init[k]);
        }
        if last.0 != from {
            assert forall|i: int| 0 <= i < r.len() implies (#[trigger] r[i]).0 != last.0 by {
                let k = choose|k: int| 0 <= k < init.len() && (#[trigger] init[k]).0 == r[i].0;
                assert(members[k].0 != members[members.len() - 1].0);
            }
            assert(is_member(members, last.0)) by {
                assert(members[members.len() - 1] == last);
            }
            assert forall|k: int| 0 <= k < members.len() && (#[trigger] members[k]).0 != from
                implies exists|i: int| 0 <= i < f.len() && f[i].0 == members[k].0 by {
                if k == members.len() - 1 {
                    assert(f[f.len() - 1].0 == members[k].0);
                } else {
                    assert(init[k] == members[k]);
                    let i = choose|i: int| 0 <= i < r.len() && r[i].0 == init[k].0;
                    assert(f[i] == r[i]);
                }
            }
            assert forall|i: int, j: int| 0 <= i < j < f.len() implies (#[trigger] f[i]).0 != (
            #[trigger] f[j]).0 by {
                if j == r.len() {
                    assert(f[i] == r[i]);
                } else {
                    assert(f[i] == r[i]);
                    assert(f[j] == r[j]);
                }
            }
        } else {
            assert forall|k: int| 0 <= k < members.len() && (#[trigger] members[k]).0 != from
                implies exists|i: int| 0 <= i < f.len() && f[i].0 == members[k].0 by {
                assert(k != members.len() - 1);
                assert(init[k] == members[k]);
            }
        }
    }
}

impl PeerHandle {
    /// Says `msg` in `room` as this participant: everyone else hears it.
    pub fn send_message(&self, room: &Room, msg: String) -> (res: Vec<Delivery>)
        ensures
            deliveries(res@) == fanout(
                room@,
                self.address,
                MessageView::Chat { from: self.username@, msg: msg@ },
            ),
            distinct_addresses(room@),
    {
        room.broadcast(self.address, OutgoingMessage::Chat { from: self.username.clone(), msg })
    }

    /// Takes this participant out of `room`.
    pub fn leave(self, room: &mut Room) -> (res: Vec<Delivery>)
        ensures
            final(room)@ == without(old(room)@, self.address),
            distinct_addresses(final(room)@),
            is_member(old(room)@, self.address) ==> exists|k: int|
                0 <= k < old(room)@.len() && old(room)@[k].0 == self.address && deliveries(res@)
                    == fanout(final(room)@, self.address, MessageView::Leave(old(room)@[k].1)),
            !is_member(old(room)@, self.address) ==> res@.len() == 0,
    {
        room.leave(self.address)
    }
}

} // verus!
