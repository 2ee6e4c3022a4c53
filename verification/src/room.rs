//! One room and its part of the broadcast tick: who is evicted, and which
//! message is owed to which peer.

use crate::message::{Message, MessageError, MessageView};
use vstd::prelude::*;

verus! {

/// What one member's poll returned in a tick.
#[derive(Debug)]
pub struct Polled {
    /// The member that was polled.
    pub id: usize,
    /// What its inbound queue held: a message, or the error it ended with.
    pub item: Result<Message, MessageError>,
}

/// One message owed to one peer.
#[derive(Debug, PartialEq, Eq)]
pub struct Delivery {
    pub sender: usize,
    pub peer: usize,
    pub message: Message,
}

pub struct DeliveryView {
    pub sender: usize,
    pub peer: usize,
    pub message: MessageView,
}

impl View for Delivery {
    type V = DeliveryView;

    open spec fn view(&self) -> DeliveryView {
        DeliveryView { sender: self.sender, peer: self.peer, message: self.message@ }
    }
}

/// The views of a sequence of deliveries.
pub open spec fn spec_delivery_views(s: Seq<Delivery>) -> Seq<DeliveryView> {
    Seq::new(s.len(), |i: int| s[i]@)
}

/// Whether some poll of `id` returned an error.
pub open spec fn spec_evicted(polled: Seq<Polled>, id: usize) -> bool {
    exists|k: int| 0 <= k < polled.len() && (#[trigger] polled[k]).id == id && polled[k].item is Err
}

/// The members that stay: those of which no poll returned an error, in their
/// order.
pub open spec fn spec_survivors(members: Seq<usize>, polled: Seq<Polled>) -> Seq<usize>
    decreases members.len(),
{
    if members.len() == 0 {
        Seq::empty()
    } else if spec_evicted(polled, members.last()) {
        spec_survivors(members.drop_last(), polled)
    } else {
        spec_survivors(members.drop_last(), polled).push(members.last())
    }
}

/// One message to every peer but its sender, in the peers' order.
pub open spec fn spec_fan_out(sender: usize, message: MessageView, peers: Seq<usize>) -> Seq<
    DeliveryView,
>
    decreases peers.len(),
{
    if peers.len() == 0 {
        Seq::empty()
    } else if peers.last() == sender {
        spec_fan_out(sender, message, peers.drop_last())
    } else {
        spec_fan_out(sender, message, peers.drop_last()).push(
            DeliveryView { sender, peer: peers.last(), message },
        )
    }
}

/// Whether the poll at `k` brought a message of one of the `members`.
pub open spec fn spec_is_message(polled: Seq<Polled>, members: Seq<usize>, k: int) -> bool {
    0 <= k < polled.len() && polled[k].item is Ok && members.contains(polled[k].id)
}

/// What a tick owes: every message polled from a member, in the order of the
/// polls, to every one of `peers` but its sender.
pub open spec fn spec_deliveries(polled: Seq<Polled>, members: Seq<usize>, peers: Seq<usize>) -> Seq<
    DeliveryView,
>
    decreases polled.len(),
{
    if polled.len() == 0 {
        Seq::empty()
    } else if spec_is_message(polled, members, polled.len() - 1) {
        spec_deliveries(polled.drop_last(), members, peers) + spec_fan_out(
            polled.last().id,
            polled.last().item->Ok_0@,
            peers,
        )
    } else {
        spec_deliveries(polled.drop_last(), members, peers)
    }
}

/// A room's members and whether the room may be deleted once it is empty.
pub struct RoomView {
    pub members: Seq<usize>,
    pub is_deletable: bool,
}

/// A group of connections that receive each other's messages. The
/// connections are known by their ids; no id stands twice.
pub struct RoomData {
    members: Vec<usize>,
    is_deletable: bool,
}

impl View for RoomData {
    type V = RoomView;

    closed spec fn view(&self) -> RoomView {
        RoomView { members: self.members@, is_deletable: self.is_deletable }
    }
}

impl Clone for RoomData {
    fn clone(&self) -> (r: Self)
        ensures
            r@ == self@,
    {
        RoomData { members: self.members.clone(), is_deletable: self.is_deletable }
    }
}

/// Whether `id` is one of `s`.
fn contains_id(s: &Vec<usize>, id: usize) -> (r: bool)
    ensures
        r == s@.contains(id),
{
    let mut i: usize = 0;
    while i < s.len()
        invariant
            i <= s@.len(),
            forall|j: int| 0 <= j < i ==> s@[j] != id,
        decreases s@.len() - i,
    {
        if s[i] == id {
            return true;
        }
        i += 1;
    }
    false
}

/// Whether some poll of `id` returned an error.
fn is_evicted(polled: &Vec<Polled>, id: usize) -> (r: bool)
    ensures
        r == spec_evicted(polled@, id),
{
    let mut k: usize = 0;
    while k < polled.len()
        invariant
            k <= polled@.len(),
            forall|j: int| 0 <= j < k ==> !((#[trigger] polled@[j]).id == id && polled@[j].item is Err),
        decreases polled@.len() - k,
    {
        if polled[k].id == id && polled[k].item.is_err() {
            return true;
        }
        k += 1;
    }
    false
}

/// A member survives exactly if it was a member and no poll of it returned an
/// error.
pub proof fn lemma_survivors_contains(members: Seq<usize>, polled: Seq<Polled>, id: usize)
    ensures
        spec_survivors(members, polled).contains(id) <==> members.contains(id) && !spec_evicted(
            polled,
            id,
        ),
    decreases members.len(),
{
    if members.len() == 0 {
    } else {
        let rest = members.drop_last();
        lemma_survivors_contains(rest, polled, id);
        let s = spec_survivors(rest, polled);
        assert(members =~= rest.push(members.last()));
        if members.contains(id) {
            let j = choose|j: int| 0 <= j < members.len() && members[j] == id;
            if j < rest.len() {
                assert(rest[j] == id);
            }
        }
        if rest.contains(id) {
            let j = choose|j: int| 0 <= j < rest.len() && rest[j] == id;
            assert(members[j] == id);
        }
        if spec_evicted(polled, members.last()) {
        } else {
            let t = s.push(members.last());
            if t.contains(id) {
                let j = choose|j: int| 0 <= j < t.len() && t[j] == id;
                if j < s.len() {
                    assert(s[j] == id);
                }
            }
            if s.contains(id) {
                let j = choose|j: int| 0 <= j < s.len() && s[j] == id;
                assert(t[j] == id);
            }
            if id == members.last() {
                assert(t[s.len() as int] == id);
                assert(members[members.len() - 1] == id);
            }
        }
    }
}

/// Where no id stands twice among the members, none does among the
/// survivors.
pub proof fn lemma_survivors_no_duplicates(members: Seq<usize>, polled: Seq<Polled>)
    requires
        members.no_duplicates(),
    ensures
        spec_survivors(members, polled).no_duplicates(),
    decreases members.len(),
{
    if members.len() == 0 {
    } else {
        let rest = members.drop_last();
        lemma_survivors_no_duplicates(rest, polled);
        lemma_survivors_contains(rest, polled, members.last());
        let s = spec_survivors(rest, polled);
        if rest.contains(members.last()) {
            let j = choose|j: int| 0 <= j < rest.len() && rest[j] == members.last();
            assert(members[j] == members[members.len() - 1]);
        }
        assert(!s.contains(members.last()));
    }
}


impl RoomData {
    /// No id stands twice among the members.
    pub open spec fn wf(&self) -> bool {
        self@.members.no_duplicates()
    }

    /// An empty room that is kept even while empty.
    pub fn new() -> (r: Self)
        ensures
            r@.members == Seq::<usize>::empty(),
            !r@.is_deletable,
            r.wf(),
    {
        RoomData { members: Vec::new(), is_deletable: false }
    }

    /// The ids of the members, in the order in which they joined.
    pub fn members(&self) -> (r: &Vec<usize>)
        ensures
            r@ == self@.members,
    {
        &self.members
    }

    pub fn is_deletable(&self) -> (r: bool)
        ensures
            r == self@.is_deletable,
    {
        self.is_deletable
    }

    pub fn contains(&self, id: usize) -> (r: bool)
        ensures
            r == self@.members.contains(id),
    {
        contains_id(&self.members, id)
    }

    /// Takes a connection in. An id that is already a member stays once. A
    /// room that has had a joiner may be deleted once it is empty.
    pub fn insert(&mut self, id: usize)
        requires
            old(self).wf(),
        ensures
            final(self).wf(),
            final(self)@.is_deletable,
            final(self)@.members == (if old(self)@.members.contains(id) {
                old(self)@.members
            } else {
                old(self)@.members.push(id)
            }),
            final(self)@.members.contains(id),
    {
        if !contains_id(&self.members, id) {
            self.members.push(id);
            assert(self.members@[self.members@.len() - 1] == id);
        }
        self.is_deletable = true;
    }

    /// The room's part of a tick, given what the polls of its members
    /// returned. Members whose poll returned an error leave the room. Every
    /// message polled from a member is owed to every member that stays, its
    /// sender excepted.
    pub fn tick(&mut self, polled: &Vec<Polled>) -> (owed: Vec<Delivery>)
        requires
            old(self).wf(),
        ensures
            final(self).wf(),
            final(self)@.is_deletable == old(self)@.is_deletable,
            final(self)@.members == spec_survivors(old(self)@.members, polled@),
            spec_delivery_views(owed@) == spec_deliveries(
                polled@,
                old(self)@.members,
                final(self)@.members,
            ),
            owed@.len() == spec_deliveries(polled@, old(self)@.members, final(self)@.members).len(),
    {
        let mut stay: Vec<usize> = Vec::new();
        let mut i: usize = 0;
        assert(self.members@.take(0) =~= Seq::<usize>::empty());
        while i < self.members.len()
            invariant
                i <= self.members@.len(),
                *self == *old(self),
                stay@ == spec_survivors(self.members@.take(i as int), polled@),
            decreases self.members@.len() - i,
        {
            let id = self.members[i];
            assert(self.members@.take(i + 1).drop_last() =~= self.members@.take(i as int));
            if !is_evicted(polled, id) {
                stay.push(id);
            }
            i += 1;
        }
        assert(self.members@.take(i as int) =~= self.members@);
        proof {
            lemma_survivors_no_duplicates(self.members@, polled@);
        }
        let mut owed: Vec<Delivery> = Vec::new();
        let mut k: usize = 0;
        assert(polled@.take(0) =~= Seq::<Polled>::empty());
        assert(spec_delivery_views(owed@) =~= Seq::<DeliveryView>::empty());
        while k < polled.len()
            invariant
                k <= polled@.len(),
                *self == *old(self),
                spec_delivery_views(owed@) == spec_deliveries(
                    polled@.take(k as int),
                    self.members@,
                    stay@,
                ),
            decreases polled@.len() - k,
        {
            assert(polled@.take(k + 1).drop_last() =~= polled@.take(k as int));
            assert(polled@.take(k + 1).last() == polled@[k as int]);
            match &polled[k].item {
                Ok(message) => {
                    if contains_id(&self.members, polled[k].id) {
                        fan_out(&mut owed, polled[k].id, message, &stay);
                    }
                },
                Err(_) => {},
            }
            k += 1;
        }
        assert(polled@.take(k as int) =~= polled@);
        self.members = stay;
        owed
    }
}

/// Appends one delivery of `message` for every peer but `sender`.
fn fan_out(owed: &mut Vec<Delivery>, sender: usize, message: &Message, peers: &Vec<usize>)
    ensures
        spec_delivery_views(final(owed)@) == spec_delivery_views(old(owed)@) + spec_fan_out(
            sender,
            message@,
            peers@,
        ),
{
    let mut j: usize = 0;
    assert(peers@.take(0) =~= Seq::<usize>::empty());
    assert(spec_delivery_views(owed@) =~= spec_delivery_views(old(owed)@) + Seq::<DeliveryView>::empty());
    while j < peers.len()
        invariant
            j <= peers@.len(),
            spec_delivery_views(owed@) == spec_delivery_views(old(owed)@) + spec_fan_out(
                sender,
                message@,
                peers@.take(j as int),
            ),
        decreases peers@.len() - j,
    {
        assert(peers@.take(j + 1).drop_last() =~= peers@.take(j as int));
        let peer = peers[j];
        if peer != sender {
            let ghost before = owed@;
            owed.push(Delivery { sender, peer, message: message.clone() });
            assert(spec_delivery_views(owed@) =~= spec_delivery_views(before).push(
                DeliveryView { sender, peer, message: message@ },
            ));
            assert(spec_delivery_views(owed@) =~= spec_delivery_views(old(owed)@) + spec_fan_out(
                sender,
                message@,
                peers@.take(j + 1),
            ));
        }
        j += 1;
    }
    assert(peers@.take(j as int) =~= peers@);
}


/// What two sequences hold together is what either holds.
proof fn lemma_concat_contains(a: Seq<DeliveryView>, b: Seq<DeliveryView>, d: DeliveryView)
    ensures
        (a + b).contains(d) <==> a.contains(d) || b.contains(d),
{
    let c = a + b;
    if c.contains(d) {
        let j = choose|j: int| 0 <= j < c.len() && c[j] == d;
        if j < a.len() {
            assert(a[j] == d);
        } else {
            assert(b[j - a.len()] == d);
        }
    }
    if a.contains(d) {
        let j = choose|j: int| 0 <= j < a.len() && a[j] == d;
        assert(c[j] == d);
    }
    if b.contains(d) {
        let j = choose|j: int| 0 <= j < b.len() && b[j] == d;
        assert(c[a.len() + j] == d);
    }
}

/// One message is owed to exactly the peers that are not its sender.
pub proof fn lemma_fan_out_contains(
    sender: usize,
    message: MessageView,
    peers: Seq<usize>,
    d: DeliveryView,
)
    ensures
        spec_fan_out(sender, message, peers).contains(d) <==> d.sender == sender && d.message
            == message && d.peer != sender && peers.contains(d.peer),
    decreases peers.len(),
{
    if peers.len() == 0 {
    } else {
        let rest = peers.drop_last();
        let last = peers.last();
        lemma_fan_out_contains(sender, message, rest, d);
        let inner = spec_fan_out(sender, message, rest);
        if peers.contains(d.peer) {
            let j = choose|j: int| 0 <= j < peers.len() && peers[j] == d.peer;
            if j < rest.len() {
                assert(rest[j] == d.peer);
            }
        }
        if rest.contains(d.peer) {
            let j = choose|j: int| 0 <= j < rest.len() && rest[j] == d.peer;
            assert(peers[j] == d.peer);
        }
        assert(peers[peers.len() - 1] == last);
        if last != sender {
            let one = seq![DeliveryView { sender, peer: last, message }];
            assert(inner.push(DeliveryView { sender, peer: last, message }) =~= inner + one);
            lemma_concat_contains(inner, one, d);
            if one.contains(d) {
                let j = choose|j: int| 0 <= j < one.len() && one[j] == d;
                assert(d == DeliveryView { sender, peer: last, message });
            }
            if d == (DeliveryView { sender, peer: last, message }) {
                assert(one[0] == d);
            }
        }
    }
}

/// Whether the poll at `k` brought the message of `d` from the sender of `d`.
pub open spec fn spec_is_source(polled: Seq<Polled>, members: Seq<usize>, k: int, d: DeliveryView) -> bool {
    spec_is_message(polled, members, k) && polled[k].id == d.sender && polled[k].item->Ok_0@
        == d.message
}

/// A delivery is owed exactly if its message was polled from a member and its
/// peer is one of `peers` other than the sender.
pub proof fn lemma_deliveries_contains(
    polled: Seq<Polled>,
    members: Seq<usize>,
    peers: Seq<usize>,
    d: DeliveryView,
)
    ensures
        spec_deliveries(polled, members, peers).contains(d) <==> (exists|k: int|
            spec_is_source(polled, members, k, d)) && d.peer != d.sender && peers.contains(d.peer),
    decreases polled.len(),
{
    if polled.len() == 0 {
    } else {
        let rest = polled.drop_last();
        let n = polled.len() - 1;
        lemma_deliveries_contains(rest, members, peers, d);
        assert forall|k: int| spec_is_source(rest, members, k, d) implies spec_is_source(
            polled,
            members,
            k,
            d,
        ) by {
            assert(rest[k] == polled[k]);
        }
        assert forall|k: int| k != n && spec_is_source(polled, members, k, d) implies spec_is_source(
            rest,
            members,
            k,
            d,
        ) by {
            assert(rest[k] == polled[k]);
        }
        if spec_is_message(polled, members, n) {
            let fan = spec_fan_out(polled.last().id, polled.last().item->Ok_0@, peers);
            lemma_fan_out_contains(polled.last().id, polled.last().item->Ok_0@, peers, d);
            lemma_concat_contains(spec_deliveries(rest, members, peers), fan, d);
            if fan.contains(d) {
                assert(spec_is_source(polled, members, n, d));
            }
        }
    }
}

/// What a tick owes is decided by the members at its start: a message polled
/// from a member is owed to every other member that stays, to nobody else,
/// and never to its sender. Who is no member when the tick starts gets
/// nothing of it.
pub proof fn lemma_snapshot_delivery(members: Seq<usize>, polled: Seq<Polled>, d: DeliveryView)
    ensures
        spec_deliveries(polled, members, spec_survivors(members, polled)).contains(d) <==> (exists|
            k: int,
        |
            spec_is_source(polled, members, k, d)) && d.peer != d.sender && members.contains(d.peer)
            && !spec_evicted(polled, d.peer),
{
    lemma_deliveries_contains(polled, members, spec_survivors(members, polled), d);
    lemma_survivors_contains(members, polled, d.peer);
}

/// A member whose poll returned an error is no member after the tick.
pub proof fn lemma_eviction(members: Seq<usize>, polled: Seq<Polled>, k: int)
    requires
        0 <= k < polled.len(),
        polled[k].item is Err,
    ensures
        !spec_survivors(members, polled).contains(polled[k].id),
{
    lemma_survivors_contains(members, polled, polled[k].id);
}

} // verus!
