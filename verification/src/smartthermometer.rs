//! A smart thermometer: it reports a temperature in kelvins.

use vstd::prelude::*;
use vstd::string::*;
use crate::text::{decimal, to_decimal};

verus! {

/// A smart thermometer.
pub struct SmartThermometer {
    /// Description of the device.
    pub text: String,
    /// Temperature at the last reading, in kelvins.
    pub temp: u16,
}

/// Reading of a thermometer that has not measured yet: the freezing point
/// of water, in kelvins.
pub const FREEZING_POINT_K: u16 = 273;

/// Reading that a measurement yields: twenty degrees above freezing, in
/// kelvins.
pub const ROOM_TEMPERATURE_K: u16 = 293;

impl SmartThermometer {
    /// The one-line description of the thermometer: name and temperature,
    /// separated by a tab.
    pub open spec fn line(&self) -> Seq<char> {
        "Name = "@ + self.text@ + "\tTemp = "@ + decimal(self.temp as nat)
    }

    /// A thermometer with the given description that reads the freezing
    /// point.
    pub fn new(thermometer_text: &str) -> (thermometer: Self)
        ensures
            thermometer.text@ == thermometer_text@,
            thermometer.temp == FREEZING_POINT_K,
    {
        SmartThermometer { text: thermometer_text.to_owned(), temp: FREEZING_POINT_K }
    }

    /// Takes a new temperature reading.
    pub fn update(&mut self)
        ensures
            final(self).text == old(self).text,
            final(self).temp == ROOM_TEMPERATURE_K,
    {
        self.temp = ROOM_TEMPERATURE_K;
    }

    /// Renders the thermometer as one line of text.
    pub fn to_string(&self) -> (s: String)
        ensures
            s@ == self.line(),
    {
        let mut s: String = "Name = ".to_owned();
        s.append(self.text.as_str());
        s.append("\tTemp = ");
        let temp: String = to_decimal(self.temp as u32);
        s.append(temp.as_str());
        assert(s@ =~= self.line());
        s
    }
}

impl Clone for SmartThermometer {
    /// A copy of a thermometer has the same description and reading.
    fn clone(&self) -> (thermometer: Self)
        ensures
            thermometer == *self,
    {
        SmartThermometer { text: self.text.clone(), temp: self.temp }
    }
}

impl Default for SmartThermometer {
    /// The default thermometer is called "smart thermometer" and reads the
    /// freezing point.
    fn default() -> (thermometer: Self)
        ensures
            thermometer.text@ == "smart thermometer"@,
            thermometer.temp == FREEZING_POINT_K,
    {
        SmartThermometer { text: "smart thermometer".to_owned(), temp: FREEZING_POINT_K }
    }
}

} // verus!
