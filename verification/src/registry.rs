//! The rooms of the process under their names: making a room, joining one,
//! and the tick over all of them.

use crate::room::{
    lemma_survivors_contains, lemma_survivors_no_duplicates, spec_deliveries, spec_delivery_views,
    spec_evicted, spec_survivors, Delivery, Polled, RoomData, RoomView,
};
use vstd::prelude::*;

verus! {

/// How many rooms a registry holds at most unless told otherwise.
pub const MAX_ROOM_NUMBER: usize = 20;

/// Why a request to the registry fails. Neither changes the registry.
#[derive(Clone, Copy, Debug, PartialEq, Eq, Structural)]
pub enum RegistryError {
    /// No room has the name asked for.
    RoomNotFound,
    /// The registry holds as many rooms as it may.
    RoomsAtCapacity,
}

/// A room under its name.
pub struct RoomEntryView {
    pub name: Seq<char>,
    pub room: RoomView,
}

struct RoomEntry {
    name: String,
    room: RoomData,
}

/// The rooms of the process, each under a name of its own.
pub struct Registry {
    rooms: Vec<RoomEntry>,
    max_rooms: usize,
}

impl View for Registry {
    type V = Seq<RoomEntryView>;

    closed spec fn view(&self) -> Seq<RoomEntryView> {
        Seq::new(
            self.rooms@.len(),
            |i: int| RoomEntryView { name: self.rooms@[i].name@, room: self.rooms@[i].room@ },
        )
    }
}

/// Whether a room of that name is among `rooms`.
pub open spec fn spec_has_room(rooms: Seq<RoomEntryView>, name: Seq<char>) -> bool {
    exists|i: int| 0 <= i < rooms.len() && (#[trigger] rooms[i]).name == name
}

/// The place of the room of that name among `rooms`.
pub open spec fn spec_position(rooms: Seq<RoomEntryView>, name: Seq<char>) -> int
    recommends
        spec_has_room(rooms, name),
{
    choose|i: int| 0 <= i < rooms.len() && (#[trigger] rooms[i]).name == name
}

/// No name stands twice, and in no room an id stands twice.
pub open spec fn spec_rooms_wf(rooms: Seq<RoomEntryView>) -> bool {
    &&& forall|i: int, j: int|
        0 <= i < j < rooms.len() ==> (#[trigger] rooms[i]).name != (#[trigger] rooms[j]).name
    &&& forall|i: int| 0 <= i < rooms.len() ==> (#[trigger] rooms[i]).room.members.no_duplicates()
}

/// A fresh room: no member, kept even while empty.
pub open spec fn spec_fresh_room() -> RoomView {
    RoomView { members: Seq::empty(), is_deletable: false }
}

/// `rooms` with a fresh room under `name`: in the place of the room that had
/// the name, or at the end where none had it.
pub open spec fn spec_created(rooms: Seq<RoomEntryView>, name: Seq<char>) -> Seq<RoomEntryView> {
    let fresh = RoomEntryView { name, room: spec_fresh_room() };
    if spec_has_room(rooms, name) {
        rooms.update(spec_position(rooms, name), fresh)
    } else {
        rooms.push(fresh)
    }
}

/// `rooms` after `id` has joined the room of that name.
pub open spec fn spec_joined(rooms: Seq<RoomEntryView>, name: Seq<char>, id: usize) -> Seq<
    RoomEntryView,
>
    recommends
        spec_has_room(rooms, name),
{
    let at = spec_position(rooms, name);
    let before = rooms[at].room.members;
    rooms.update(
        at,
        RoomEntryView {
            name,
            room: RoomView {
                members: if before.contains(id) {
                    before
                } else {
                    before.push(id)
                },
                is_deletable: true,
            },
        },
    )
}

/// `rooms` after the room of that name has had its part of a tick.
pub open spec fn spec_ticked(rooms: Seq<RoomEntryView>, name: Seq<char>, polled: Seq<Polled>) -> Seq<
    RoomEntryView,
>
    recommends
        spec_has_room(rooms, name),
{
    let at = spec_position(rooms, name);
    rooms.update(
        at,
        RoomEntryView {
            name,
            room: RoomView {
                members: spec_survivors(rooms[at].room.members, polled),
                is_deletable: rooms[at].room.is_deletable,
            },
        },
    )
}

/// Whether a room goes at the end of a tick: it is empty and may be deleted.
pub open spec fn spec_is_swept(room: RoomView) -> bool {
    room.members.len() == 0 && room.is_deletable
}

/// The rooms that stay at the end of a tick, in their order.
pub open spec fn spec_sweep(rooms: Seq<RoomEntryView>) -> Seq<RoomEntryView>
    decreases rooms.len(),
{
    if rooms.len() == 0 {
        Seq::empty()
    } else if spec_is_swept(rooms.last().room) {
        spec_sweep(rooms.drop_last())
    } else {
        spec_sweep(rooms.drop_last()).push(rooms.last())
    }
}

impl Registry {
    /// The most rooms this registry holds.
    pub closed spec fn spec_max_rooms(&self) -> nat {
        self.max_rooms as nat
    }

    pub open spec fn wf(&self) -> bool {
        spec_rooms_wf(self@)
    }

    /// A registry without rooms that holds at most `max_rooms`.
    pub fn new(max_rooms: usize) -> (r: Self)
        ensures
            r@ == Seq::<RoomEntryView>::empty(),
            r.spec_max_rooms() == max_rooms,
            r.wf(),
    {
        let r = Registry { rooms: Vec::new(), max_rooms };
        assert(r@ =~= Seq::<RoomEntryView>::empty());
        r
    }

    /// How many rooms there are.
    pub fn len(&self) -> (n: usize)
        ensures
            n == self@.len(),
    {
        self.rooms.len()
    }

    /// The names of the rooms.
    pub fn room_names(&self) -> (names: Vec<String>)
        ensures
            names@.len() == self@.len(),
            forall|i: int| 0 <= i < names@.len() ==> (#[trigger] names@[i])@ == self@[i].name,
    {
        let mut names: Vec<String> = Vec::new();
        let mut i: usize = 0;
        while i < self.rooms.len()
            invariant
                i <= self.rooms@.len(),
                names@.len() == i,
                forall|j: int| 0 <= j < i ==> (#[trigger] names@[j])@ == self@[j].name,
            decreases self.rooms@.len() - i,
        {
            names.push(self.rooms[i].name.clone());
            i += 1;
        }
        names
    }

    /// Where the room of that name stands, if there is one.
    pub fn position(&self, name: &String) -> (r: Option<usize>)
        requires
            self.wf(),
        ensures
            r is Some == spec_has_room(self@, name@),
            r is Some ==> r->Some_0 == spec_position(self@, name@) && r->Some_0 < self@.len()
                && self@[r->Some_0 as int].name == name@,
    {
        let mut i: usize = 0;
        while i < self.rooms.len()
            invariant
                self.wf(),
                i <= self.rooms@.len(),
                forall|j: int| 0 <= j < i ==> (#[trigger] self@[j]).name != name@,
            decreases self.rooms@.len() - i,
        {
            if self.rooms[i].name == *name {
                proof {
                    assert(self@[i as int].name == name@);
                    assert(spec_has_room(self@, name@));
                    let at = spec_position(self@, name@);
                    assert(0 <= at < self@.len() && self@[at].name == name@);
                    if at < i {
                        assert(self@[at].name != self@[i as int].name);
                    } else if i < at {
                        assert(self@[i as int].name != self@[at].name);
                    }
                }
                return Some(i);
            }
            i += 1;
        }
        None
    }

    /// The members of the room of that name, if there is one.
    pub fn members(&self, name: &String) -> (r: Option<&Vec<usize>>)
        requires
            self.wf(),
        ensures
            r is Some == spec_has_room(self@, name@),
            r is Some ==> r->Some_0@ == self@[spec_position(self@, name@)].room.members,
    {
        match self.position(name) {
            Some(i) => Some(self.rooms[i].room.members()),
            None => None,
        }
    }

    /// Makes a fresh room under `name`, unless the registry is full. A room
    /// that had the name is replaced by the fresh one.
    pub fn create_room(&mut self, name: String) -> (r: Result<(), RegistryError>)
        requires
            old(self).wf(),
        ensures
            final(self).wf(),
            final(self).spec_max_rooms() == old(self).spec_max_rooms(),
            old(self)@.len() >= old(self).spec_max_rooms() ==> r == Err::<(), RegistryError>(
                RegistryError::RoomsAtCapacity,
            ) && final(self)@ == old(self)@,
            old(self)@.len() < old(self).spec_max_rooms() ==> r is Ok && final(self)@ == spec_created(
                old(self)@,
                name@,
            ) && spec_has_room(final(self)@, name@),
    {
        if self.rooms.len() >= self.max_rooms {
            return Err(RegistryError::RoomsAtCapacity);
        }
        match self.position(&name) {
            Some(i) => {
                self.rooms[i].room = RoomData::new();
                assert(self@ =~= spec_created(old(self)@, name@));
                assert(self@[i as int].name == name@);
            },
            None => {
                self.rooms.push(RoomEntry { name, room: RoomData::new() });
                assert(self@ =~= spec_created(old(self)@, name@));
                assert(self@[self@.len() - 1].name == name@);
            },
        }
        Ok(())
    }

    /// Takes the connection `id` into the room of that name. Without such a
    /// room nothing changes.
    pub fn join(&mut self, name: &String, id: usize) -> (r: Result<(), RegistryError>)
        requires
            old(self).wf(),
        ensures
            final(self).wf(),
            final(self).spec_max_rooms() == old(self).spec_max_rooms(),
            !spec_has_room(old(self)@, name@) ==> r == Err::<(), RegistryError>(
                RegistryError::RoomNotFound,
            ) && final(self)@ == old(self)@,
            spec_has_room(old(self)@, name@) ==> r is Ok && final(self)@ == spec_joined(
                old(self)@,
                name@,
                id,
            ),
    {
        match self.position(name) {
            Some(i) => {
                self.rooms[i].room.insert(id);
                assert(self@ =~= spec_joined(old(self)@, name@, id));
                Ok(())
            },
            None => Err(RegistryError::RoomNotFound),
        }
    }

    /// The part of a tick that belongs to the room of that name, given what
    /// the polls of its members returned: see `RoomData::tick`. Without such
    /// a room nothing changes and nothing is owed.
    pub fn tick_room(&mut self, name: &String, polled: &Vec<Polled>) -> (owed: Vec<Delivery>)
        requires
            old(self).wf(),
        ensures
            final(self).wf(),
            final(self).spec_max_rooms() == old(self).spec_max_rooms(),
            !spec_has_room(old(self)@, name@) ==> owed@.len() == 0 && final(self)@ == old(self)@,
            spec_has_room(old(self)@, name@) ==> final(self)@ == spec_ticked(old(self)@, name@, polled@)
                && spec_delivery_views(owed@) == spec_deliveries(
                polled@,
                old(self)@[spec_position(old(self)@, name@)].room.members,
                final(self)@[spec_position(old(self)@, name@)].room.members,
            ),
    {
        match self.position(name) {
            Some(i) => {
                let owed = self.rooms[i].room.tick(polled);
                assert(self@ =~= spec_ticked(old(self)@, name@, polled@));
                owed
            },
            None => Vec::new(),
        }
    }
}


/// Whether `c` is an ASCII letter or digit.
pub open spec fn spec_is_alphanumeric(c: char) -> bool {
    ('A' <= c && c <= 'Z') || ('a' <= c && c <= 'z') || ('0' <= c && c <= '9')
}

/// Draws a room name from `rand::thread_rng` with the distribution
/// `Alphanumeric`: six characters, each an ASCII letter or digit. Which ones
/// is left to chance.
#[verifier::external_body]
fn random_room_name() -> (name: String)
    ensures
        name@.len() == 6,
        forall|i: int| 0 <= i < 6 ==> spec_is_alphanumeric(#[trigger] name@[i]),
{
    rand::Rng::sample_iter(rand::thread_rng(), rand::distributions::Alphanumeric)
        .take(6)
        .map(char::from)
        .collect()
}

/// Draws a connection id with `rand::Rng::gen` on `rand::thread_rng`: any
/// number may come.
#[verifier::external_body]
fn random_id() -> (id: usize) {
    rand::Rng::gen(&mut rand::thread_rng())
}

impl Registry {
    /// Makes a fresh room under a random name and returns the name, unless
    /// the registry is full. The name is not held against those of the rooms
    /// there are: a room that happens to have it is replaced.
    pub fn handle_new_room(&mut self) -> (r: Result<String, RegistryError>)
        requires
            old(self).wf(),
        ensures
            final(self).wf(),
            final(self).spec_max_rooms() == old(self).spec_max_rooms(),
            old(self)@.len() >= old(self).spec_max_rooms() ==> r == Err::<String, RegistryError>(
                RegistryError::RoomsAtCapacity,
            ) && final(self)@ == old(self)@,
            old(self)@.len() < old(self).spec_max_rooms() ==> r is Ok && r->Ok_0@.len() == 6 && (forall|
                i: int,
            |
                0 <= i < 6 ==> spec_is_alphanumeric(#[trigger] r->Ok_0@[i])) && final(self)@
                == spec_created(old(self)@, r->Ok_0@),
    {
        if self.rooms.len() >= self.max_rooms {
            return Err(RegistryError::RoomsAtCapacity);
        }
        let name = random_room_name();
        match self.create_room(name.clone()) {
            Ok(()) => Ok(name),
            Err(e) => Err(e),
        }
    }

    /// Takes a new connection into the room of that name under a random id
    /// and returns the id. The id is not held against those of the members:
    /// a member that happens to have it stays once. Without such a room
    /// nothing changes.
    pub fn handle_new_member(&mut self, name: &String) -> (r: Result<usize, RegistryError>)
        requires
            old(self).wf(),
        ensures
            final(self).wf(),
            final(self).spec_max_rooms() == old(self).spec_max_rooms(),
            !spec_has_room(old(self)@, name@) ==> r == Err::<usize, RegistryError>(
                RegistryError::RoomNotFound,
            ) && final(self)@ == old(self)@,
            spec_has_room(old(self)@, name@) ==> r is Ok && final(self)@ == spec_joined(
                old(self)@,
                name@,
                r->Ok_0,
            ),
    {
        if self.position(name).is_none() {
            return Err(RegistryError::RoomNotFound);
        }
        let id = random_id();
        match self.join(name, id) {
            Ok(()) => Ok(id),
            Err(e) => Err(e),
        }
    }

    /// The end of a tick: every room that is empty and may be deleted goes.
    pub fn sweep(&mut self)
        requires
            old(self).wf(),
        ensures
            final(self).wf(),
            final(self).spec_max_rooms() == old(self).spec_max_rooms(),
            final(self)@ == spec_sweep(old(self)@),
    {
        let mut kept: Vec<RoomEntry> = Vec::new();
        let mut i: usize = 0;
        let ghost before = self@;
        assert(before.take(0) =~= Seq::<RoomEntryView>::empty());
        while i < self.rooms.len()
            invariant
                i <= self.rooms@.len(),
                *self == *old(self),
                before == self@,
                kept@.len() == spec_sweep(before.take(i as int)).len(),
                forall|j: int|
                    0 <= j < kept@.len() ==> (#[trigger] kept@[j]).name@ == spec_sweep(
                        before.take(i as int),
                    )[j].name && kept@[j].room@ == spec_sweep(before.take(i as int))[j].room,
            decreases self.rooms@.len() - i,
        {
            assert(before.take(i + 1).drop_last() =~= before.take(i as int));
            assert(before.take(i + 1).last() == before[i as int]);
            let room = &self.rooms[i].room;
            if !(room.members().len() == 0 && room.is_deletable()) {
                kept.push(RoomEntry { name: self.rooms[i].name.clone(), room: room.clone() });
            }
            i += 1;
        }
        assert(before.take(i as int) =~= before);
        self.rooms = kept;
        assert(self@ =~= spec_sweep(before));
        proof {
            lemma_sweep_wf(before);
        }
    }
}

/// A room stands among those that stay exactly as it stood before: the
/// entries that stay are entries of before that are not swept, in their
/// order.
pub proof fn lemma_sweep_contains(rooms: Seq<RoomEntryView>, e: RoomEntryView)
    ensures
        spec_sweep(rooms).contains(e) <==> rooms.contains(e) && !spec_is_swept(e.room),
    decreases rooms.len(),
{
    if rooms.len() == 0 {
    } else {
        let rest = rooms.drop_last();
        let last = rooms.last();
        lemma_sweep_contains(rest, e);
        let inner = spec_sweep(rest);
        if rooms.contains(e) {
            let j = choose|j: int| 0 <= j < rooms.len() && rooms[j] == e;
            if j < rest.len() {
                assert(rest[j] == e);
            }
        }
        if rest.contains(e) {
            let j = choose|j: int| 0 <= j < rest.len() && rest[j] == e;
            assert(rooms[j] == e);
        }
        assert(rooms[rooms.len() - 1] == last);
        if !spec_is_swept(last.room) {
            let t = inner.push(last);
            if t.contains(e) {
                let j = choose|j: int| 0 <= j < t.len() && t[j] == e;
                if j < inner.len() {
                    assert(inner[j] == e);
                }
            }
            if inner.contains(e) {
                let j = choose|j: int| 0 <= j < inner.len() && inner[j] == e;
                assert(t[j] == e);
            }
            if e == last {
                assert(t[inner.len() as int] == e);
            }
        }
    }
}

/// Sweeping keeps the names apart and the rooms in order.
pub proof fn lemma_sweep_wf(rooms: Seq<RoomEntryView>)
    requires
        spec_rooms_wf(rooms),
    ensures
        spec_rooms_wf(spec_sweep(rooms)),
    decreases rooms.len(),
{
    if rooms.len() == 0 {
    } else {
        let rest = rooms.drop_last();
        let last = rooms.last();
        assert forall|i: int| 0 <= i < rest.len() implies rest[i] == rooms[i] by {}
        assert(spec_rooms_wf(rest));
        lemma_sweep_wf(rest);
        let inner = spec_sweep(rest);
        if !spec_is_swept(last.room) {
            let t = inner.push(last);
            assert forall|i: int, j: int| 0 <= i < j < t.len() implies (#[trigger] t[i]).name != (
            #[trigger] t[j]).name by {
                if j == inner.len() {
                    lemma_sweep_contains(rest, inner[i]);
                    assert(inner.contains(inner[i]));
                    let k = choose|k: int| 0 <= k < rest.len() && rest[k] == inner[i];
                    assert(rooms[k].name != rooms[rooms.len() - 1].name);
                }
            }
            assert forall|i: int| 0 <= i < t.len() implies (#[trigger] t[i]).room.members.no_duplicates() by {
                if i == inner.len() {
                    assert(rooms[rooms.len() - 1].room.members.no_duplicates());
                }
            }
        }
    }
}

/// A room that may be deleted and whose members have all ended with an error
/// is gone after the tick: no room of its name is left.
pub proof fn lemma_emptied_room_goes(rooms: Seq<RoomEntryView>, name: Seq<char>, polled: Seq<Polled>)
    requires
        spec_rooms_wf(rooms),
        spec_has_room(rooms, name),
        rooms[spec_position(rooms, name)].room.is_deletable,
        forall|id: usize|
            rooms[spec_position(rooms, name)].room.members.contains(id) ==> spec_evicted(polled, id),
    ensures
        !spec_has_room(spec_sweep(spec_ticked(rooms, name, polled)), name),
{
    let at = spec_position(rooms, name);
    let ticked = spec_ticked(rooms, name, polled);
    let survivors = spec_survivors(rooms[at].room.members, polled);
    if survivors.len() > 0 {
        lemma_survivors_contains(rooms[at].room.members, polled, survivors[0]);
        assert(survivors.contains(survivors[0]));
    }
    let swept = spec_sweep(ticked);
    if spec_has_room(swept, name) {
        let i = choose|i: int| 0 <= i < swept.len() && (#[trigger] swept[i]).name == name;
        lemma_sweep_contains(ticked, swept[i]);
        assert(swept.contains(swept[i]));
        let k = choose|k: int| 0 <= k < ticked.len() && ticked[k] == swept[i];
        if k != at {
            assert(ticked[k] == rooms[k]);
            if k < at {
                assert(rooms[k].name != rooms[at].name);
            } else {
                assert(rooms[at].name != rooms[k].name);
            }
        }
    }
}


/// The polls that belong to the room at `i`: none where `polled` does not
/// reach as far.
pub open spec fn spec_polled_for(polled: Seq<Vec<Polled>>, i: int) -> Seq<Polled> {
    if 0 <= i < polled.len() {
        polled[i]@
    } else {
        Seq::empty()
    }
}

/// `rooms` after every room has had its part of a tick, the room at `i` with
/// the polls at `i`.
pub open spec fn spec_tick_all(rooms: Seq<RoomEntryView>, polled: Seq<Vec<Polled>>) -> Seq<
    RoomEntryView,
> {
    Seq::new(
        rooms.len(),
        |i: int|
            RoomEntryView {
                name: rooms[i].name,
                room: RoomView {
                    members: spec_survivors(rooms[i].room.members, spec_polled_for(polled, i)),
                    is_deletable: rooms[i].room.is_deletable,
                },
            },
    )
}

impl Registry {
    /// One tick over all rooms. `polled` holds, for the room at each place,
    /// what the polls of its members returned. In every room the members
    /// whose poll returned an error leave, and every message polled is owed
    /// to the members that stay, its sender excepted; then every room that
    /// is empty and may be deleted goes. What is owed comes back room by
    /// room, in the places that the rooms had when the tick began.
    pub fn tick(&mut self, polled: &Vec<Vec<Polled>>) -> (owed: Vec<Vec<Delivery>>)
        requires
            old(self).wf(),
        ensures
            final(self).wf(),
            final(self).spec_max_rooms() == old(self).spec_max_rooms(),
            final(self)@ == spec_sweep(spec_tick_all(old(self)@, polled@)),
            owed@.len() == old(self)@.len(),
            forall|i: int|
                0 <= i < owed@.len() ==> spec_delivery_views((#[trigger] owed@[i])@) == spec_deliveries(
                    spec_polled_for(polled@, i),
                    old(self)@[i].room.members,
                    spec_tick_all(old(self)@, polled@)[i].room.members,
                ),
    {
        let n = self.rooms.len();
        let nothing: Vec<Polled> = Vec::new();
        let mut owed: Vec<Vec<Delivery>> = Vec::new();
        let ghost before = self@;
        let ghost after = spec_tick_all(before, polled@);
        let mut i: usize = 0;
        while i < n
            invariant
                i <= n,
                n == self@.len(),
                n == before.len(),
                nothing@.len() == 0,
                before == old(self)@,
                after == spec_tick_all(before, polled@),
                spec_rooms_wf(before),
                self.spec_max_rooms() == old(self).spec_max_rooms(),
                forall|j: int| 0 <= j < i ==> (#[trigger] self@[j]) == after[j],
                forall|j: int| i <= j < n ==> (#[trigger] self@[j]) == before[j],
                owed@.len() == i,
                forall|j: int|
                    0 <= j < i ==> spec_delivery_views((#[trigger] owed@[j])@) == spec_deliveries(
                        spec_polled_for(polled@, j),
                        before[j].room.members,
                        after[j].room.members,
                    ),
            decreases n - i,
        {
            let ghost held = self@;
            assert(held[i as int] == before[i as int]);
            assert(self.rooms@[i as int].room.wf());
            let plan = if i < polled.len() {
                self.rooms[i].room.tick(&polled[i])
            } else {
                assert(nothing@ =~= Seq::<Polled>::empty());
                self.rooms[i].room.tick(&nothing)
            };
            assert(self@ =~= held.update(i as int, after[i as int]));
            owed.push(plan);
            i += 1;
        }
        assert(self@ =~= after);
        assert(spec_rooms_wf(after)) by {
            assert forall|j: int| 0 <= j < after.len() implies (
            #[trigger] after[j]).room.members.no_duplicates() by {
                lemma_survivors_no_duplicates(before[j].room.members, spec_polled_for(polled@, j));
            }
            assert forall|j: int, k: int| 0 <= j < k < after.len() implies (#[trigger] after[j]).name != (
            #[trigger] after[k]).name by {
                assert(before[j].name != before[k].name);
            }
        }
        self.sweep();
        owed
    }
}


/// After a tick no room is left under the name of a room that may be deleted
/// and whose members have all ended with an error.
pub proof fn lemma_tick_removes_emptied_room(rooms: Seq<RoomEntryView>, polled: Seq<Vec<Polled>>, i: int)
    requires
        spec_rooms_wf(rooms),
        0 <= i < rooms.len(),
        rooms[i].room.is_deletable,
        forall|id: usize|
            rooms[i].room.members.contains(id) ==> spec_evicted(spec_polled_for(polled, i), id),
    ensures
        !spec_has_room(spec_sweep(spec_tick_all(rooms, polled)), rooms[i].name),
{
    let ticked = spec_tick_all(rooms, polled);
    let survivors = spec_survivors(rooms[i].room.members, spec_polled_for(polled, i));
    if survivors.len() > 0 {
        lemma_survivors_contains(rooms[i].room.members, spec_polled_for(polled, i), survivors[0]);
        assert(survivors.contains(survivors[0]));
    }
    assert(spec_is_swept(ticked[i].room));
    let swept = spec_sweep(ticked);
    if spec_has_room(swept, rooms[i].name) {
        let j = choose|j: int| 0 <= j < swept.len() && (#[trigger] swept[j]).name == rooms[i].name;
        lemma_sweep_contains(ticked, swept[j]);
        assert(swept.contains(swept[j]));
        let k = choose|k: int| 0 <= k < ticked.len() && ticked[k] == swept[j];
        assert(ticked[k].name == rooms[k].name);
        if k < i {
            assert(rooms[k].name != rooms[i].name);
        } else if i < k {
            assert(rooms[i].name != rooms[k].name);
        }
    }
}

} // verus!
