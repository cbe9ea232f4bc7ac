//! A smart home: a name and a chain of rooms.

use vstd::prelude::*;
use vstd::string::*;
use crate::devices::{SmartDevice, SmartDeviceAccess};
use crate::dll::Dll;
use crate::room::SmartRoom;
use crate::scan::{
    aggregate_status, all_valid, find_by_name, first_named, joined_status, lemma_first_named,
};

verus! {

/// A house: its description and the rooms in it, newest first.
pub struct SmartHouse {
    /// Description of the house.
    text: String,
    /// The rooms, behind an anchor that holds no room of the house.
    chain: Dll<SmartRoom>,
}

impl SmartHouse {
    /// The invariant of the house: its chain of rooms is in order, and so is
    /// every room.
    pub closed spec fn wf(&self) -> bool {
        self.chain.wf() && all_valid(self.chain@)
    }

    /// The description of the house.
    pub closed spec fn text(&self) -> Seq<char> {
        self.text@
    }

    /// The rooms of the house in the order in which a walk meets them.
    pub closed spec fn rooms(&self) -> Seq<SmartRoom> {
        self.chain@
    }

    /// The handles of the rooms, in the same order.
    pub closed spec fn handles(&self) -> Seq<usize> {
        self.chain.handles()
    }

    /// The handle that the next room to be added gets.
    pub closed spec fn next_handle(&self) -> usize {
        self.chain.next_handle()
    }

    /// The report on the house: its description, then the report on each
    /// room, each of them followed by a line break.
    pub open spec fn report(&self) -> Seq<char> {
        self.text() + "\n"@ + joined_status(self.rooms(), "\n"@)
    }

    /// Whether `after` is this house with the room at position `i` replaced
    /// by `room` and all else as it is.
    pub open spec fn replaced(&self, i: int, room: SmartRoom, after: &SmartHouse) -> bool {
        &&& after.text() == self.text()
        &&& after.handles() == self.handles()
        &&& after.next_handle() == self.next_handle()
        &&& after.rooms() == self.rooms().update(i, room)
        &&& self.wf() && room.wf() ==> after.wf()
    }

    /// Whether `after` shows what this house shows: the same description
    /// and the same rooms under the same handles.
    pub open spec fn same_as(&self, after: &SmartHouse) -> bool {
        &&& after.text() == self.text()
        &&& after.handles() == self.handles()
        &&& after.next_handle() == self.next_handle()
        &&& after.rooms() =~= self.rooms()
        &&& after.wf() == self.wf()
    }

    /// A house with the given description and no rooms.
    pub fn new(house_text: &str) -> (house: Self)
        ensures
            house.wf(),
            house.text() == house_text@,
            house.rooms() == Seq::<SmartRoom>::empty(),
            house.handles() == Seq::<usize>::empty(),
            house.next_handle() == 1,
    {
        let house = SmartHouse { text: house_text.to_owned(), chain: Dll::new() };
        assert(house.rooms() =~= Seq::<SmartRoom>::empty());
        house
    }

    /// Adds a room to the house, in front of those already there. The node
    /// that brings the room must be linked to itself only. Returns the
    /// handle under which the house now keeps the room.
    pub fn room_add(&mut self, room: Dll<SmartRoom>) -> (h: usize)
        requires
            old(self).wf(),
            room.wf(),
            room.is_detached(),
            room.payload().wf(),
        ensures
            final(self).wf(),
            final(self).text() == old(self).text(),
            final(self).rooms() == seq![room.payload()] + old(self).rooms(),
            final(self).handles() == seq![h] + old(self).handles(),
            h == old(self).next_handle(),
            final(self).next_handle() == h + 1,
            !old(self).handles().contains(h),
    {
        self.chain.addh(room)
    }

    /// Finds the room called `room_name`; of several with that name, the
    /// one added last. The room can be changed through the reference that
    /// comes back; the house keeps its other rooms and their order.
    pub fn room_find(&mut self, room_name: &str) -> (found: Option<&mut SmartRoom>)
        requires
            old(self).wf(),
        ensures
            match found {
                Some(room) => {
                    &&& first_named(old(self).rooms(), room_name@) is Some
                    &&& *room == old(self).rooms()[first_named(old(self).rooms(), room_name@)->0]
                    &&& old(self).replaced(
                        first_named(old(self).rooms(), room_name@)->0,
                        *final(room),
                        final(self),
                    )
                },
                None => first_named(old(self).rooms(), room_name@) is None && *final(self) == *old(
                    self,
                ),
            },
    {
        match find_by_name(&self.chain, room_name) {
            Some(h) => {
                proof {
                    self.chain.lemma_member(h);
                    self.chain.lemma_handles();
                    let rooms = self.chain@;
                    let i = self.chain.position(h);
                    assert forall|room: SmartRoom| room.wf() implies all_valid(
                        #[trigger] rooms.update(i, room),
                    ) by {
                        assert forall|k: int| 0 <= k < rooms.len() implies (#[trigger] rooms.update(
                            i,
                            room,
                        )[k]).valid() by {
                            if k != i {
                                assert(rooms[k].valid());
                            }
                        }
                    }
                }
                Some(self.chain.get_mut(h))
            },
            None => None,
        }
    }

    /// Finds the device called `dev_name` in the room called `room_name`:
    /// first the room, then the device in it. Where the room is missing, or
    /// the device in that room, nothing is found.
    pub fn room_dev_find(&mut self, room_name: &str, dev_name: &str) -> (found: Option<
        &mut SmartDevice,
    >)
        requires
            old(self).wf(),
        ensures
            match found {
                Some(dev) => {
                    &&& first_named(old(self).rooms(), room_name@) is Some
                    &&& ({
                        let i = first_named(old(self).rooms(), room_name@)->0;
                        let room = old(self).rooms()[i];
                        &&& first_named(room.devices(), dev_name@) is Some
                        &&& ({
                            let j = first_named(room.devices(), dev_name@)->0;
                            &&& *dev == room.devices()[j]
                            &&& room.replaced(j, *final(dev), &final(self).rooms()[i])
                            &&& old(self).replaced(i, final(self).rooms()[i], final(self))
                        })
                    })
                },
                None => {
                    &&& old(self).same_as(final(self))
                    &&& match first_named(old(self).rooms(), room_name@) {
                        Some(i) => first_named(old(self).rooms()[i].devices(), dev_name@) is None,
                        None => true,
                    }
                },
            },
    {
        proof {
            lemma_first_named(self.rooms(), room_name@);
        }
        let maybe_room: Option<&mut SmartRoom> = self.room_find(room_name);
        match maybe_room {
            Some(the_room) => the_room.dev_find(dev_name),
            None => None,
        }
    }

    /// The report on the house: its description, then the report on each
    /// room in the order of a walk, each of them followed by a line break.
    pub fn info(&self) -> (rinfo: String)
        requires
            self.wf(),
        ensures
            rinfo@ == self.report(),
    {
        let mut rinfo: String = self.text.clone();
        rinfo.append("\n");
        let rooms: String = aggregate_status(&self.chain, "\n");
        rinfo.append(rooms.as_str());
        rinfo
    }
}

} // verus!
