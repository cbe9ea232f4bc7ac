//! The devices a smart home can hold, behind one type.

use vstd::prelude::*;
use vstd::string::*;
use crate::smartsocket::SmartSocket;
use crate::smartthermometer::SmartThermometer;
use crate::text::{decimal, to_decimal};

verus! {

/// A smart home device: a socket, a thermometer, or the placeholder that
/// stands where no device is.
pub enum SmartDevice {
    Nodev,
    Socket(SmartSocket),
    Thermometer(SmartThermometer),
}

/// What a chain of a smart home asks of the values it holds: a name to find
/// them by and a status to report.
pub trait SmartDeviceAccess {
    /// Whether the value is in order, so that it can be asked for its name
    /// and status.
    spec fn valid(&self) -> bool;

    /// The name, as a sequence of characters.
    spec fn name_text(&self) -> Seq<char>;

    /// The status report, as a sequence of characters.
    spec fn status_text(&self) -> Seq<char>;

    /// The name of the value.
    fn name(&self) -> (name: String)
        requires
            self.valid(),
        ensures
            name@ == self.name_text(),
    ;

    /// The status report of the value.
    fn status(&self) -> (status: String)
        requires
            self.valid(),
        ensures
            status@ == self.status_text(),
    ;
}

/// Status report of a socket: its name and state, and the power it draws
/// while it is on.
pub open spec fn socket_status(socket: SmartSocket) -> Seq<char> {
    "name: "@ + socket.text@ + "\nstatus: "@ + (if socket.enabled {
        "on"@ + "\npower: "@ + decimal(socket.power_mW as nat) + " mW"@
    } else {
        "off"@
    })
}

/// Status report of a thermometer: its name and its reading.
pub open spec fn thermometer_status(thermometer: SmartThermometer) -> Seq<char> {
    "name: "@ + thermometer.text@ + "\ntemp: "@ + decimal(thermometer.temp as nat)
}

impl SmartDeviceAccess for SmartDevice {
    /// Every device is in order.
    open spec fn valid(&self) -> bool {
        true
    }

    open spec fn name_text(&self) -> Seq<char> {
        match *self {
            SmartDevice::Socket(socket) => socket.text@,
            SmartDevice::Thermometer(thermometer) => thermometer.text@,
            SmartDevice::Nodev => "not device"@,
        }
    }

    open spec fn status_text(&self) -> Seq<char> {
        match *self {
            SmartDevice::Socket(socket) => socket_status(socket),
            SmartDevice::Thermometer(thermometer) => thermometer_status(thermometer),
            SmartDevice::Nodev => "not device"@,
        }
    }

    fn name(&self) -> (name: String) {
        match self {
            SmartDevice::Socket(the_socket) => the_socket.text.clone(),
            SmartDevice::Thermometer(the_thermometer) => the_thermometer.text.clone(),
            SmartDevice::Nodev => "not device".to_owned(),
        }
    }

    fn status(&self) -> (status: String) {
        match self {
            SmartDevice::Socket(the_socket) => {
                let mut dev_status: String = "name: ".to_owned();
                dev_status.append(the_socket.text.as_str());
                dev_status.append("\nstatus: ");
                if the_socket.enabled {
                    dev_status.append("on");
                    dev_status.append("\npower: ");
                    let power: String = to_decimal(the_socket.power_mW);
                    dev_status.append(power.as_str());
                    dev_status.append(" mW");
                } else {
                    dev_status.append("off");
                }
                assert(dev_status@ =~= socket_status(*the_socket));
                dev_status
            },
            SmartDevice::Thermometer(the_thermometer) => {
                let mut dev_status: String = "name: ".to_owned();
                dev_status.append(the_thermometer.text.as_str());
                dev_status.append("\ntemp: ");
                let temp: String = to_decimal(the_thermometer.temp as u32);
                dev_status.append(temp.as_str());
                assert(dev_status@ =~= thermometer_status(*the_thermometer));
                dev_status
            },
            SmartDevice::Nodev => "not device".to_owned(),
        }
    }
}

impl Default for SmartDevice {
    /// The default device is no device.
    fn default() -> (device: Self)
        ensures
            device == SmartDevice::Nodev,
    {
        SmartDevice::Nodev
    }
}

impl Clone for SmartDevice {
    /// A copy of a device is a device of the same kind with the same
    /// description and readings.
    fn clone(&self) -> (device: Self)
        ensures
            device == *self,
    {
        match self {
            SmartDevice::Socket(the_socket) => SmartDevice::Socket(the_socket.clone()),
            SmartDevice::Thermometer(the_thermometer) => SmartDevice::Thermometer(
                the_thermometer.clone(),
            ),
            SmartDevice::Nodev => SmartDevice::Nodev,
        }
    }
}

} // verus!
