//! A room of a smart home: a name and a chain of devices.

use vstd::prelude::*;
use vstd::string::*;
use crate::devices::{SmartDevice, SmartDeviceAccess};
use crate::dll::Dll;
use crate::scan::{aggregate_status, find_by_name, first_named, joined_status};

verus! {

/// A room: its description and the devices in it, newest first.
pub struct SmartRoom {
    /// Description of the room.
    text: String,
    /// The devices, behind an anchor that holds no device of the room.
    chain: Dll<SmartDevice>,
}

impl SmartRoom {
    /// The invariant of the room: its chain of devices is in order.
    pub closed spec fn wf(&self) -> bool {
        self.chain.wf()
    }

    /// The description of the room.
    pub closed spec fn text(&self) -> Seq<char> {
        self.text@
    }

    /// The devices of the room in the order in which a walk meets them.
    pub closed spec fn devices(&self) -> Seq<SmartDevice> {
        self.chain@
    }

    /// The handles of the devices, in the same order.
    pub closed spec fn handles(&self) -> Seq<usize> {
        self.chain.handles()
    }

    /// The handle that the next device to be added gets.
    pub closed spec fn next_handle(&self) -> usize {
        self.chain.next_handle()
    }

    /// The report on the room: its description, then the status of each
    /// device, each of them followed by a line break.
    pub open spec fn report(&self) -> Seq<char> {
        self.text() + "\n"@ + joined_status(self.devices(), "\n"@)
    }

    /// Whether `after` is this room with the device at position `i`
    /// replaced by `device` and all else as it is.
    pub open spec fn replaced(&self, i: int, device: SmartDevice, after: &SmartRoom) -> bool {
        &&& after.wf() == self.wf()
        &&& after.text() == self.text()
        &&& after.handles() == self.handles()
        &&& after.next_handle() == self.next_handle()
        &&& after.devices() == self.devices().update(i, device)
    }

    /// A room with the given description and no devices.
    pub fn new(room_text: &str) -> (room: Self)
        ensures
            room.wf(),
            room.text() == room_text@,
            room.devices() == Seq::<SmartDevice>::empty(),
            room.handles() == Seq::<usize>::empty(),
            room.next_handle() == 1,
    {
        let room = SmartRoom { text: room_text.to_owned(), chain: Dll::new() };
        assert(room.devices() =~= Seq::<SmartDevice>::empty());
        room
    }

    /// Adds a device to the room, in front of those already there. The
    /// node that brings the device must be linked to itself only. Returns
    /// the handle under which the room now keeps the device.
    pub fn dev_add(&mut self, dev: Dll<SmartDevice>) -> (h: usize)
        requires
            old(self).wf(),
            dev.wf(),
            dev.is_detached(),
        ensures
            final(self).wf(),
            final(self).text() == old(self).text(),
            final(self).devices() == seq![dev.payload()] + old(self).devices(),
            final(self).handles() == seq![h] + old(self).handles(),
            h == old(self).next_handle(),
            final(self).next_handle() == h + 1,
            !old(self).handles().contains(h),
    {
        self.chain.addh(dev)
    }

    /// Finds the device called `dev_name`; of several with that name, the
    /// one added last. The device can be changed through the reference that
    /// comes back; the room keeps its other devices and their order.
    pub fn dev_find(&mut self, dev_name: &str) -> (found: Option<&mut SmartDevice>)
        requires
            old(self).wf(),
        ensures
            match found {
                Some(dev) => {
                    &&& first_named(old(self).devices(), dev_name@) is Some
                    &&& *dev == old(self).devices()[first_named(old(self).devices(), dev_name@)->0]
                    &&& old(self).replaced(
                        first_named(old(self).devices(), dev_name@)->0,
                        *final(dev),
                        final(self),
                    )
                },
                None => first_named(old(self).devices(), dev_name@) is None && *final(self) == *old(
                    self,
                ),
            },
    {
        match find_by_name(&self.chain, dev_name) {
            Some(h) => Some(self.chain.get_mut(h)),
            None => None,
        }
    }

    /// The report on the room: its description, then the status of each
    /// device in the order of a walk, each of them followed by a line
    /// break.
    pub fn info(&self) -> (rinfo: String)
        requires
            self.wf(),
        ensures
            rinfo@ == self.report(),
    {
        let mut rinfo: String = self.text.clone();
        rinfo.append("\n");
        let devices: String = aggregate_status(&self.chain, "\n");
        rinfo.append(devices.as_str());
        rinfo
    }
}

impl SmartDeviceAccess for SmartRoom {
    /// A room is in order if its chain of devices is.
    open spec fn valid(&self) -> bool {
        self.wf()
    }

    /// A room is found by its description.
    open spec fn name_text(&self) -> Seq<char> {
        self.text()
    }

    /// The status of a room is the report on it.
    open spec fn status_text(&self) -> Seq<char> {
        self.report()
    }

    fn name(&self) -> (name: String) {
        self.text.clone()
    }

    fn status(&self) -> (status: String) {
        self.info()
    }
}

impl Clone for SmartRoom {
    /// Copies the room, not its devices: the copy has the same description
    /// and is empty.
    fn clone(&self) -> (room: Self)
        ensures
            room.wf(),
            room.text() == self.text(),
            room.devices() == Seq::<SmartDevice>::empty(),
            room.handles() == Seq::<usize>::empty(),
            room.next_handle() == 1,
    {
        let room = SmartRoom { text: self.text.clone(), chain: self.chain.clone() };
        assert(room.devices() =~= Seq::<SmartDevice>::empty());
        room
    }
}

impl Default for SmartRoom {
    /// The default room is called "Room" and is empty.
    fn default() -> (room: Self)
        ensures
            room.wf(),
            room.text() == "Room"@,
            room.devices() == Seq::<SmartDevice>::empty(),
            room.handles() == Seq::<usize>::empty(),
            room.next_handle() == 1,
    {
        let room = SmartRoom { text: "Room".to_owned(), chain: Dll::new() };
        assert(room.devices() =~= Seq::<SmartDevice>::empty());
        room
    }
}

} // verus!
