//! LoRaWAN identifiers.

use vstd::prelude::*;
use vstd::string::*;
use crate::error::LoraDbError;

verus! {

pub open spec fn is_hex_digit(c: char) -> bool {
    ('0' <= c && c <= '9') || ('a' <= c && c <= 'f') || ('A' <= c && c <= 'F')
}

/// A DevEUI is an EUI-64: sixteen hexadecimal digits, in either case.
pub open spec fn valid_dev_eui(s: Seq<char>) -> bool {
    &&& s.len() == 16
    &&& forall|i: int| 0 <= i < 16 ==> is_hex_digit(#[trigger] s[i])
}

/// A validated device EUI, kept as given.
#[derive(Debug, PartialEq, Eq)]
pub struct DevEui {
    value: String,
}

impl View for DevEui {
    type V = Seq<char>;

    closed spec fn view(&self) -> Seq<char> {
        self.value@
    }
}

impl DevEui {
    pub closed spec fn wf(&self) -> bool {
        valid_dev_eui(self.value@)
    }

    /// Accepts `value` when it is sixteen hexadecimal digits.
    pub fn new(value: String) -> (r: Result<DevEui, LoraDbError>)
        ensures
            match r {
                Ok(d) => valid_dev_eui(value@) && d@ == value@ && d.wf(),
                Err(e) => !valid_dev_eui(value@) && e == LoraDbError::InvalidDevEui(value),
            },
    {
        let n = value.as_str().unicode_len();
        if n != 16 {
            return Err(LoraDbError::InvalidDevEui(value));
        }
        let mut i: usize = 0;
        while i < 16
            invariant
                n == value@.len() == 16,
                0 <= i <= 16,
                forall|j: int| 0 <= j < i ==> is_hex_digit(#[trigger] value@[j]),
            decreases 16 - i,
        {
            let c = value.as_str().get_char(i);
            if !(('0' <= c && c <= '9') || ('a' <= c && c <= 'f') || ('A' <= c && c <= 'F')) {
                assert(!is_hex_digit(value@[i as int]));
                return Err(LoraDbError::InvalidDevEui(value));
            }
            i = i + 1;
        }
        Ok(DevEui { value })
    }

    pub fn as_str(&self) -> (r: &str)
        ensures
            r@ == self@,
    {
        self.value.as_str()
    }

    pub fn copy(&self) -> (r: DevEui)
        ensures
            r@ == self@,
            self.wf() ==> r.wf(),
    {
        DevEui { value: self.value.clone() }
    }
}

/// The application a device belongs to.
#[derive(Debug, PartialEq, Eq)]
pub struct ApplicationId {
    pub value: String,
}

impl ApplicationId {
    pub fn new(value: String) -> (r: ApplicationId)
        ensures
            r.value == value,
    {
        ApplicationId { value }
    }

    pub fn as_str(&self) -> (r: &str)
        ensures
            r@ == self.value@,
    {
        self.value.as_str()
    }
}

/// The EUI of a gateway, as reported by the network server.
#[derive(Debug, PartialEq, Eq)]
pub struct GatewayEui {
    pub value: String,
}

impl GatewayEui {
    pub fn new(value: String) -> (r: GatewayEui)
        ensures
            r.value == value,
    {
        GatewayEui { value }
    }
}

/// The data rate of a transmission.
#[derive(Debug, PartialEq, Eq)]
pub enum DataRate {
    Lora { bandwidth: u32, spreading_factor: u8 },
}

impl DataRate {
    pub fn new_lora(bandwidth: u32, spreading_factor: u8) -> (r: DataRate)
        ensures
            r == (DataRate::Lora { bandwidth, spreading_factor }),
    {
        DataRate::Lora { bandwidth, spreading_factor }
    }
}

} // verus!
