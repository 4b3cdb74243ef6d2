//! LoRaWAN frames as the store keeps them. Instants are milliseconds since
//! the Unix epoch (UTC); radio measurements that the sender gave as floating
//! point numbers are kept as their IEEE-754 bit patterns.

use vstd::prelude::*;
use crate::decoded::DecodedPayload;
use crate::lorawan::{ApplicationId, DataRate, DevEui, GatewayEui};

verus! {

/// Where a gateway stands; coordinates are the bits of `f64` degrees and
/// metres.
#[derive(Debug, PartialEq)]
pub struct GatewayLocation {
    pub latitude_bits: u64,
    pub longitude_bits: u64,
    pub altitude_bits: Option<u64>,
}

/// How one gateway received an uplink; `snr_bits` are the bits of an `f32`.
#[derive(Debug, PartialEq)]
pub struct GatewayRxInfo {
    pub gateway_id: GatewayEui,
    pub rssi: i16,
    pub snr_bits: u32,
    pub channel: u8,
    pub rf_chain: u8,
    pub location: Option<GatewayLocation>,
}

#[derive(Debug, PartialEq)]
pub struct UplinkFrame {
    pub dev_eui: DevEui,
    pub application_id: ApplicationId,
    pub device_name: Option<String>,
    pub received_at: i64,
    pub f_port: u8,
    pub f_cnt: u32,
    pub confirmed: bool,
    pub adr: bool,
    pub dr: DataRate,
    pub frequency: u64,
    pub rx_info: Vec<GatewayRxInfo>,
    pub decoded_payload: Option<DecodedPayload>,
    pub raw_payload: Option<String>,
}

#[derive(Debug, PartialEq)]
pub struct DownlinkFrame {
    pub dev_eui: DevEui,
    pub application_id: ApplicationId,
    pub queued_at: i64,
    pub f_port: u8,
    pub f_cnt: u32,
    pub confirmed: bool,
    pub raw_payload: Option<String>,
}

#[derive(Debug, PartialEq)]
pub struct JoinRequestFrame {
    pub dev_eui: DevEui,
    pub join_eui: String,
    pub received_at: i64,
}

#[derive(Debug, PartialEq)]
pub struct JoinAcceptFrame {
    pub dev_eui: DevEui,
    pub application_id: ApplicationId,
    pub accepted_at: i64,
}

/// A frame exchanged with a device.
#[derive(Debug, PartialEq)]
pub enum Frame {
    Uplink(UplinkFrame),
    Downlink(DownlinkFrame),
    JoinRequest(JoinRequestFrame),
    JoinAccept(JoinAcceptFrame),
}

/// The device a frame belongs to.
pub open spec fn frame_dev_eui(f: Frame) -> Seq<char> {
    match f {
        Frame::Uplink(u) => u.dev_eui@,
        Frame::Downlink(d) => d.dev_eui@,
        Frame::JoinRequest(j) => j.dev_eui@,
        Frame::JoinAccept(j) => j.dev_eui@,
    }
}

/// The instant a frame was recorded.
pub open spec fn frame_time(f: Frame) -> i64 {
    match f {
        Frame::Uplink(u) => u.received_at,
        Frame::Downlink(d) => d.queued_at,
        Frame::JoinRequest(j) => j.received_at,
        Frame::JoinAccept(j) => j.accepted_at,
    }
}

/// The application a frame names; a join request names none.
pub open spec fn frame_application(f: Frame) -> Option<Seq<char>> {
    match f {
        Frame::Uplink(u) => Some(u.application_id.value@),
        Frame::Downlink(d) => Some(d.application_id.value@),
        Frame::JoinRequest(_) => None,
        Frame::JoinAccept(j) => Some(j.application_id.value@),
    }
}

/// The device name an uplink carries.
pub open spec fn frame_device_name(f: Frame) -> Option<Seq<char>> {
    match f {
        Frame::Uplink(u) => match u.device_name {
            Some(n) => Some(n@),
            None => None,
        },
        _ => None,
    }
}

impl Frame {
    pub fn dev_eui(&self) -> (r: &DevEui)
        ensures
            r@ == frame_dev_eui(*self),
    {
        match self {
            Frame::Uplink(u) => &u.dev_eui,
            Frame::Downlink(d) => &d.dev_eui,
            Frame::JoinRequest(j) => &j.dev_eui,
            Frame::JoinAccept(j) => &j.dev_eui,
        }
    }

    pub fn timestamp(&self) -> (r: i64)
        ensures
            r == frame_time(*self),
    {
        match self {
            Frame::Uplink(u) => u.received_at,
            Frame::Downlink(d) => d.queued_at,
            Frame::JoinRequest(j) => j.received_at,
            Frame::JoinAccept(j) => j.accepted_at,
        }
    }

    pub fn application_id(&self) -> (r: Option<&ApplicationId>)
        ensures
            match r {
                Some(a) => frame_application(*self) == Some(a.value@),
                None => frame_application(*self) is None,
            },
    {
        match self {
            Frame::Uplink(u) => Some(&u.application_id),
            Frame::Downlink(d) => Some(&d.application_id),
            Frame::JoinRequest(_) => None,
            Frame::JoinAccept(j) => Some(&j.application_id),
        }
    }

    pub fn device_name(&self) -> (r: Option<&String>)
        ensures
            match r {
                Some(n) => frame_device_name(*self) == Some(n@),
                None => frame_device_name(*self) is None,
            },
    {
        match self {
            Frame::Uplink(u) => match &u.device_name {
                Some(n) => Some(n),
                None => None,
            },
            _ => None,
        }
    }
}

} // verus!
