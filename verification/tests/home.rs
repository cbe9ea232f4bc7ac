use smarthome::devices::{SmartDevice, SmartDeviceAccess};
use smarthome::dll::Dll;
use smarthome::house::SmartHouse;
use smarthome::room::SmartRoom;
use smarthome::scan::{aggregate_status, find_by_name};
use smarthome::smartsocket::SmartSocket;
use smarthome::smartthermometer::SmartThermometer;

fn thermometer(name: &str) -> SmartDevice {
    SmartDevice::Thermometer(SmartThermometer::new(name))
}

fn live_socket(name: &str) -> SmartDevice {
    let mut socket = SmartSocket::new(name);
    socket.en();
    socket.update();
    SmartDevice::Socket(socket)
}

fn measured_thermometer(name: &str) -> SmartDevice {
    let mut thermometer = SmartThermometer::new(name);
    thermometer.update();
    SmartDevice::Thermometer(thermometer)
}

#[test]
fn room_scenario() {
    let mut room0 = SmartRoom::new("room0");
    room0.dev_add(Dll::from(live_socket("socket0")));
    room0.dev_add(Dll::from(measured_thermometer("thermometer0")));
    assert!(room0.dev_find("socket0").is_some());
    assert!(room0.dev_find("missing").is_none());
    assert_eq!(
        room0.info(),
        "room0\nname: thermometer0\ntemp: 293\nname: socket0\nstatus: on\npower: 10000 mW\n"
    );
}

#[test]
fn empty_room() {
    let mut room = SmartRoom::new("cellar");
    assert_eq!(room.info(), "cellar\n");
    assert!(room.dev_find("socket0").is_none());
    assert!(room.dev_find("not device").is_none());
    assert_eq!(room.name(), "cellar");
    assert_eq!(room.status(), "cellar\n");
}

#[test]
fn find_after_insert() {
    let mut chain: Dll<SmartDevice> = Dll::new();
    chain.addh(Dll::from(thermometer("a")));
    let h = chain.addh(Dll::from(thermometer("b")));
    chain.addh(Dll::from(thermometer("c")));
    assert_eq!(find_by_name(&chain, "b"), Some(h));
    assert_eq!(chain.get(h).name(), "b");
    assert_eq!(find_by_name(&chain, "d"), None);
    assert_eq!(find_by_name(&chain, ""), None);
    assert_eq!(find_by_name(&chain, "B"), None);
}

#[test]
fn find_prefers_the_newest() {
    let mut room = SmartRoom::new("room");
    let mut old_one = SmartThermometer::new("twin");
    old_one.update();
    room.dev_add(Dll::from(SmartDevice::Thermometer(old_one)));
    room.dev_add(Dll::from(thermometer("other")));
    room.dev_add(Dll::from(thermometer("twin")));
    match room.dev_find("twin") {
        Some(SmartDevice::Thermometer(found)) => assert_eq!(found.temp, 273),
        _ => panic!("the newest thermometer of that name was expected"),
    }
}

#[test]
fn found_device_can_be_changed() {
    let mut room = SmartRoom::new("room");
    room.dev_add(Dll::from(SmartDevice::Socket(SmartSocket::new("lamp"))));
    room.dev_add(Dll::from(thermometer("t")));
    match room.dev_find("lamp") {
        Some(SmartDevice::Socket(socket)) => {
            socket.en();
            socket.update();
        }
        _ => panic!("the socket was expected"),
    }
    assert_eq!(
        room.info(),
        "room\nname: t\ntemp: 273\nname: lamp\nstatus: on\npower: 10000 mW\n"
    );
}

#[test]
fn aggregation_is_newest_first() {
    let mut chain: Dll<SmartDevice> = Dll::new();
    chain.addh(Dll::from(thermometer("A")));
    chain.addh(Dll::from(thermometer("B")));
    chain.addh(Dll::from(thermometer("C")));
    assert_eq!(
        aggregate_status(&chain, "\n"),
        "name: C\ntemp: 273\nname: B\ntemp: 273\nname: A\ntemp: 273\n"
    );
    assert_eq!(
        aggregate_status(&chain, " | "),
        "name: C\ntemp: 273 | name: B\ntemp: 273 | name: A\ntemp: 273 | "
    );
    let empty: Dll<SmartDevice> = Dll::new();
    assert_eq!(aggregate_status(&empty, "\n"), "");
}

#[test]
fn room_clone_and_default() {
    let mut room = SmartRoom::new("study");
    room.dev_add(Dll::from(thermometer("t")));
    let mut copy = room.clone();
    assert_eq!(copy.info(), "study\n");
    assert!(copy.dev_find("t").is_none());
    assert_eq!(room.info(), "study\nname: t\ntemp: 273\n");
    let room = SmartRoom::default();
    assert_eq!(room.info(), "Room\n");
}

fn sample_house() -> SmartHouse {
    let mut room0 = SmartRoom::new("room0");
    room0.dev_add(Dll::from(live_socket("socket0")));
    room0.dev_add(Dll::from(thermometer("thermometer0")));
    let mut room1 = SmartRoom::new("room1");
    room1.dev_add(Dll::from(live_socket("socket1")));
    room1.dev_add(Dll::from(thermometer("thermometer1")));
    let mut house = SmartHouse::new("House0");
    house.room_add(Dll::from(room0));
    house.room_add(Dll::from(room1));
    house
}

#[test]
fn house_report() {
    let house = sample_house();
    assert_eq!(
        house.info(),
        "House0\n\
         room1\nname: thermometer1\ntemp: 273\nname: socket1\nstatus: on\npower: 10000 mW\n\n\
         room0\nname: thermometer0\ntemp: 273\nname: socket0\nstatus: on\npower: 10000 mW\n\n"
    );
    assert_eq!(SmartHouse::new("empty").info(), "empty\n");
}

#[test]
fn house_finds_rooms() {
    let mut house = sample_house();
    match house.room_find("room0") {
        Some(room) => assert_eq!(room.name(), "room0"),
        None => panic!("room0 was expected"),
    }
    assert!(house.room_find("room2").is_none());
    assert!(house.room_find("House0").is_none());
}

#[test]
fn house_finds_devices_in_rooms() {
    let mut house = sample_house();
    match house.room_dev_find("room0", "socket0") {
        Some(device) => assert_eq!(device.name(), "socket0"),
        None => panic!("socket0 was expected in room0"),
    }
    assert!(house.room_dev_find("room0", "socket1").is_none());
    assert!(house.room_dev_find("room1", "socket0").is_none());
    assert!(house.room_dev_find("room2", "socket0").is_none());
    match house.room_dev_find("room1", "thermometer1") {
        Some(SmartDevice::Thermometer(found)) => found.update(),
        _ => panic!("thermometer1 was expected in room1"),
    }
    match house.room_find("room1") {
        Some(room) => assert_eq!(
            room.info(),
            "room1\nname: thermometer1\ntemp: 293\nname: socket1\nstatus: on\npower: 10000 mW\n"
        ),
        None => panic!("room1 was expected"),
    }
}

#[test]
fn room_found_in_house_can_take_devices() {
    let mut house = sample_house();
    match house.room_find("room0") {
        Some(room) => {
            room.dev_add(Dll::from(thermometer("extra")));
        }
        None => panic!("room0 was expected"),
    }
    assert!(house.room_dev_find("room0", "extra").is_some());
    assert!(house.room_dev_find("room1", "extra").is_none());
}
