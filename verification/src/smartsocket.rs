//! A smart socket: it can be switched on and off and reports the power it
//! draws.

use vstd::prelude::*;
use vstd::string::*;
use crate::text::{decimal, to_decimal};

verus! {

/// A smart socket.
#[allow(non_snake_case)]
pub struct SmartSocket {
    /// Description of the device.
    pub text: String,
    /// Whether the socket is switched on.
    pub enabled: bool,
    /// Power drawn at the last reading, in milliwatts.
    pub power_mW: u32,
}

/// Power reported by a socket that is switched on, in milliwatts.
pub const ACTIVE_POWER_MW: u32 = 10000;

impl SmartSocket {
    /// The one-line description of the socket: name, state and power,
    /// separated by tabs.
    pub open spec fn line(&self) -> Seq<char> {
        "Name = "@ + self.text@ + "\tState = "@ + (if self.enabled {
            "On"@
        } else {
            "Off"@
        }) + "\tPower = "@ + decimal(self.power_mW as nat) + " mW"@
    }

    /// A socket with the given description, switched off and drawing
    /// nothing.
    pub fn new(socket_text: &str) -> (socket: Self)
        ensures
            socket.text@ == socket_text@,
            !socket.enabled,
            socket.power_mW == 0,
    {
        SmartSocket { text: socket_text.to_owned(), enabled: false, power_mW: 0 }
    }

    /// Switches the socket on. A socket that was off starts from a power
    /// reading of zero; one that was on already keeps its reading.
    pub fn en(&mut self)
        ensures
            final(self).enabled,
            final(self).text == old(self).text,
            final(self).power_mW == (if old(self).enabled {
                old(self).power_mW
            } else {
                0
            }),
    {
        if !self.enabled {
            self.enabled = true;
            self.power_mW = 0;
        }
    }

    /// Switches the socket off. A socket that was on drops to a power
    /// reading of zero; one that was off already keeps its reading.
    pub fn dis(&mut self)
        ensures
            !final(self).enabled,
            final(self).text == old(self).text,
            final(self).power_mW == (if old(self).enabled {
                0
            } else {
                old(self).power_mW
            }),
    {
        if self.enabled {
            self.enabled = false;
            self.power_mW = 0;
        }
    }

    /// Takes a new power reading: the active power while the socket is on,
    /// zero while it is off.
    pub fn update(&mut self)
        ensures
            final(self).enabled == old(self).enabled,
            final(self).text == old(self).text,
            final(self).power_mW == (if old(self).enabled {
                ACTIVE_POWER_MW
            } else {
                0
            }),
    {
        if self.enabled {
            self.power_mW = ACTIVE_POWER_MW;
        } else {
            self.power_mW = 0;
        }
    }

    /// Renders the socket as one line of text.
    pub fn to_string(&self) -> (s: String)
        ensures
            s@ == self.line(),
    {
        let mut s: String = "Name = ".to_owned();
        s.append(self.text.as_str());
        s.append("\tState = ");
        if self.enabled {
            s.append("On");
        } else {
            s.append("Off");
        }
        s.append("\tPower = ");
        let power: String = to_decimal(self.power_mW);
        s.append(power.as_str());
        s.append(" mW");
        assert(s@ =~= self.line());
        s
    }
}

impl Clone for SmartSocket {
    /// A copy of a socket has the same description, state and reading.
    fn clone(&self) -> (socket: Self)
        ensures
            socket == *self,
    {
        SmartSocket { text: self.text.clone(), enabled: self.enabled, power_mW: self.power_mW }
    }
}

impl Default for SmartSocket {
    /// The default socket is called "smart socket" and is switched off.
    fn default() -> (socket: Self)
        ensures
            socket.text@ == "smart socket"@,
            !socket.enabled,
            socket.power_mW == 0,
    {
        SmartSocket { text: "smart socket".to_owned(), enabled: false, power_mW: 0 }
    }
}

} // verus!
