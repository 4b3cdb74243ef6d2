//! Turning ChirpStack v4 MQTT uplink events into frames.

use vstd::prelude::*;
use vstd::string::*;
use crate::decoded::{DecodedPayload, JsonValue};
use crate::error::LoraDbError;
use crate::frames::{Frame, GatewayLocation, GatewayRxInfo, UplinkFrame};
use crate::lorawan::{valid_dev_eui, ApplicationId, DataRate, DevEui, GatewayEui};
use crate::text::{contains_seq, contains_str, split_seq, split_str};

verus! {

/// The largest MQTT payload the service accepts, in bytes.
pub const MAX_MQTT_PAYLOAD_SIZE: usize = 1048576;

/// The bandwidth, in Hz, recorded for ChirpStack uplinks.
pub const DEFAULT_BANDWIDTH_HZ: u32 = 125000;

/// A gateway position in an event; coordinates are `f64` bits.
pub struct ChirpStackLocation {
    pub latitude_bits: u64,
    pub longitude_bits: u64,
    pub altitude_bits: Option<u64>,
}

/// A gateway's reception report in an event; `snr_bits` are `f32` bits.
pub struct ChirpStackRxInfo {
    pub gateway_id: String,
    pub rssi: i16,
    pub snr_bits: u32,
    pub channel: u8,
    pub rf_chain: u8,
    pub location: Option<ChirpStackLocation>,
}

pub struct ChirpStackTxInfo {
    pub frequency: u64,
    pub modulation: Option<String>,
}

/// The members of a ChirpStack v4 uplink event that the service reads.
pub struct ChirpStackUplink {
    pub dev_eui: String,
    pub device_name: Option<String>,
    pub application_id: Option<String>,
    pub application_name: Option<String>,
    pub f_port: u8,
    pub f_cnt: u32,
    pub confirmed: bool,
    pub adr: bool,
    pub dr: u8,
    pub rx_info: Vec<ChirpStackRxInfo>,
    pub tx_info: ChirpStackTxInfo,
    pub object: Option<JsonValue>,
    pub data: Option<String>,
}

/// Reads ChirpStack v4 events.
pub struct ChirpStackParser;

impl ChirpStackParser {
    pub fn new() -> (r: ChirpStackParser)
        ensures
            r == ChirpStackParser,
    {
        ChirpStackParser
    }

    pub fn default() -> (r: ChirpStackParser)
        ensures
            r == ChirpStackParser,
    {
        ChirpStackParser::new()
    }
}

/// Uplink events are published on `application/{app}/device/{dev_eui}/event/up`.
pub open spec fn is_uplink_topic(topic: Seq<char>) -> bool {
    contains_seq(topic, "/event/up"@)
}

/// The application an event belongs to: its `applicationId`, else its
/// `applicationName`, else the second part of the topic, else `unknown`.
pub open spec fn event_application(msg: ChirpStackUplink, topic: Seq<char>) -> Seq<char> {
    match msg.application_id {
        Some(a) => a@,
        None => match msg.application_name {
            Some(a) => a@,
            None => if split_seq(topic, '/').len() > 1 {
                split_seq(topic, '/')[1]
            } else {
                "unknown"@
            },
        },
    }
}

pub open spec fn location_from(l: GatewayLocation, c: ChirpStackLocation) -> bool {
    &&& l.latitude_bits == c.latitude_bits
    &&& l.longitude_bits == c.longitude_bits
    &&& l.altitude_bits == c.altitude_bits
}

pub open spec fn rx_from(g: GatewayRxInfo, c: ChirpStackRxInfo) -> bool {
    &&& g.gateway_id.value == c.gateway_id
    &&& g.rssi == c.rssi
    &&& g.snr_bits == c.snr_bits
    &&& g.channel == c.channel
    &&& g.rf_chain == c.rf_chain
    &&& match (g.location, c.location) {
        (Some(l), Some(m)) => location_from(l, m),
        (None, None) => true,
        _ => false,
    }
}

/// `u` is the uplink frame that event `msg`, received on `topic` at
/// `received_at`, describes.
pub open spec fn uplink_from(u: UplinkFrame, msg: ChirpStackUplink, topic: Seq<char>, received_at: i64) -> bool {
    &&& u.dev_eui@ == msg.dev_eui@
    &&& u.application_id.value@ == event_application(msg, topic)
    &&& u.device_name == msg.device_name
    &&& u.received_at == received_at
    &&& u.f_port == msg.f_port
    &&& u.f_cnt == msg.f_cnt
    &&& u.confirmed == msg.confirmed
    &&& u.adr == msg.adr
    &&& u.dr == (DataRate::Lora { bandwidth: DEFAULT_BANDWIDTH_HZ, spreading_factor: msg.dr })
    &&& u.frequency == msg.tx_info.frequency
    &&& u.rx_info@.len() == msg.rx_info@.len()
    &&& forall|i: int| 0 <= i < u.rx_info@.len() ==> rx_from(#[trigger] u.rx_info@[i], msg.rx_info@[i])
    &&& match (u.decoded_payload, msg.object) {
        (Some(d), Some(o)) => d.object == o,
        (None, None) => true,
        _ => false,
    }
    &&& u.raw_payload == msg.data
}

fn convert_rx(c: ChirpStackRxInfo) -> (g: GatewayRxInfo)
    ensures
        rx_from(g, c),
{
    let location = match c.location {
        Some(l) => Some(
            GatewayLocation {
                latitude_bits: l.latitude_bits,
                longitude_bits: l.longitude_bits,
                altitude_bits: l.altitude_bits,
            },
        ),
        None => None,
    };
    GatewayRxInfo {
        gateway_id: GatewayEui::new(c.gateway_id),
        rssi: c.rssi,
        snr_bits: c.snr_bits,
        channel: c.channel,
        rf_chain: c.rf_chain,
        location,
    }
}

fn convert_rx_all(v: Vec<ChirpStackRxInfo>) -> (r: Vec<GatewayRxInfo>)
    ensures
        r@.len() == v@.len(),
        forall|i: int| 0 <= i < r@.len() ==> rx_from(#[trigger] r@[i], v@[i]),
{
    let ghost orig = v@;
    let mut rest = v;
    let mut out: Vec<GatewayRxInfo> = Vec::new();
    while rest.len() > 0
        invariant
            out@.len() + rest@.len() == orig.len(),
            rest@ == orig.skip(out@.len() as int),
            forall|i: int| 0 <= i < out@.len() ==> rx_from(#[trigger] out@[i], orig[i]),
        decreases rest@.len(),
    {
        let c = rest.remove(0);
        assert(c == orig[out@.len() as int]);
        assert(rest@ =~= orig.skip(out@.len() as int + 1));
        out.push(convert_rx(c));
    }
    out
}

/// The application an event belongs to, as `event_application` says.
fn application_of(
    application_id: Option<String>,
    application_name: Option<String>,
    topic: &str,
) -> (r: String)
    ensures
        r@ == (match application_id {
            Some(a) => a@,
            None => match application_name {
                Some(a) => a@,
                None => if split_seq(topic@, '/').len() > 1 {
                    split_seq(topic@, '/')[1]
                } else {
                    "unknown"@
                },
            },
        }),
{
    match application_id {
        Some(a) => a,
        None => match application_name {
            Some(a) => a,
            None => {
                let mut parts = split_str(topic, '/');
                proof {
                    assert(parts@.map_values(|p: String| p@).len() == parts@.len());
                }
                if parts.len() > 1 {
                    assert(parts@.map_values(|p: String| p@)[1] == parts@[1]@);
                    parts.remove(1)
                } else {
                    String::from_str("unknown")
                }
            },
        },
    }
}

impl ChirpStackParser {
    /// Reads an MQTT message published on `topic` with `payload`, received
    /// at `received_at`; `event` is what the JSON decoder made of the
    /// payload (or the reason it refused it, which the error does not
    /// repeat). Messages on topics other than uplink events give no frame.
    pub fn parse_message(
        &self,
        topic: &str,
        payload: &[u8],
        event: Result<ChirpStackUplink, String>,
        received_at: i64,
    ) -> (r: Result<Option<Frame>, LoraDbError>)
        ensures
            !is_uplink_topic(topic@) ==> r matches Ok(None),
            is_uplink_topic(topic@) && payload@.len() > MAX_MQTT_PAYLOAD_SIZE ==> (r matches Err(
                LoraDbError::MqttParseError(m),
            ) && m@ == "MQTT payload exceeds the size limit"@),
            is_uplink_topic(topic@) && payload@.len() <= MAX_MQTT_PAYLOAD_SIZE ==> match event {
                Err(_) => r matches Err(LoraDbError::MqttParseError(m)) && m@
                    == "Failed to parse ChirpStack uplink JSON"@,
                Ok(msg) => if valid_dev_eui(msg.dev_eui@) {
                    r matches Ok(Some(Frame::Uplink(u))) && uplink_from(u, msg, topic@, received_at)
                } else {
                    r matches Err(LoraDbError::MqttParseError(m)) && m@ == "Invalid DevEUI: "@
                        + msg.dev_eui@
                },
            },
    {
        if !contains_str(topic, "/event/up") {
            return Ok(None);
        }
        if payload.len() > MAX_MQTT_PAYLOAD_SIZE {
            return Err(
                LoraDbError::MqttParseError(String::from_str("MQTT payload exceeds the size limit")),
            );
        }
        let msg = match event {
            Ok(m) => m,
            Err(_) => {
                return Err(LoraDbError::MqttParseError(String::from_str("Failed to parse ChirpStack uplink JSON")));
            },
        };
        let ghost m = msg;
        let dev_eui = match DevEui::new(msg.dev_eui) {
            Ok(d) => d,
            Err(e) => {
                let text = String::from_str("Invalid DevEUI: ").concat(e.detail().as_str());
                return Err(LoraDbError::MqttParseError(text));
            },
        };
        let application_id = application_of(msg.application_id, msg.application_name, topic);
        let uplink = UplinkFrame {
            dev_eui,
            application_id: ApplicationId::new(application_id),
            device_name: msg.device_name,
            received_at,
            f_port: msg.f_port,
            f_cnt: msg.f_cnt,
            confirmed: msg.confirmed,
            adr: msg.adr,
            dr: DataRate::new_lora(DEFAULT_BANDWIDTH_HZ, msg.dr),
            frequency: msg.tx_info.frequency,
            rx_info: convert_rx_all(msg.rx_info),
            decoded_payload: match msg.object {
                Some(o) => Some(DecodedPayload::from_json(o)),
                None => None,
            },
            raw_payload: msg.data,
        };
        assert(uplink_from(uplink, m, topic@, received_at));
        Ok(Some(Frame::Uplink(uplink)))
    }

    /// The DevEUI part of an event topic: its fourth `/`-separated part.
    pub fn extract_dev_eui(&self, topic: &str) -> (r: Option<String>)
        ensures
            match r {
                Some(d) => split_seq(topic@, '/').len() > 3 && d@ == split_seq(topic@, '/')[3],
                None => split_seq(topic@, '/').len() <= 3,
            },
    {
        let mut parts = split_str(topic, '/');
        proof {
            assert(parts@.map_values(|p: String| p@).len() == parts@.len());
        }
        if parts.len() > 3 {
            assert(parts@.map_values(|p: String| p@)[3] == parts@[3]@);
            Some(parts.remove(3))
        } else {
            None
        }
    }
}


/// An uplink frame keeps each gateway report of its event, field by field
/// and in order: the gateway, the signal readings, the channel and RF
/// chain, and the gateway's latitude, longitude and altitude each in its
/// own field.
pub proof fn lemma_uplink_keeps_gateway_reports(u: UplinkFrame, msg: ChirpStackUplink, topic: Seq<char>, received_at: i64)
    requires
        uplink_from(u, msg, topic, received_at),
    ensures
        u.rx_info@.len() == msg.rx_info@.len(),
        forall|i: int|
            0 <= i < u.rx_info@.len() ==> {
                let g = #[trigger] u.rx_info@[i];
                let m = msg.rx_info@[i];
                &&& g.gateway_id.value == m.gateway_id
                &&& g.rssi == m.rssi
                &&& g.snr_bits == m.snr_bits
                &&& g.channel == m.channel
                &&& g.rf_chain == m.rf_chain
                &&& (g.location is Some <==> m.location is Some)
                &&& g.location is Some ==> {
                    &&& g.location.unwrap().latitude_bits == m.location.unwrap().latitude_bits
                    &&& g.location.unwrap().longitude_bits == m.location.unwrap().longitude_bits
                    &&& g.location.unwrap().altitude_bits == m.location.unwrap().altitude_bits
                }
            },
{
    assert forall|i: int| 0 <= i < u.rx_info@.len() implies {
        let g = #[trigger] u.rx_info@[i];
        let m = msg.rx_info@[i];
        &&& g.gateway_id.value == m.gateway_id
        &&& g.rssi == m.rssi
        &&& g.snr_bits == m.snr_bits
        &&& g.channel == m.channel
        &&& g.rf_chain == m.rf_chain
        &&& (g.location is Some <==> m.location is Some)
        &&& g.location is Some ==> {
            &&& g.location.unwrap().latitude_bits == m.location.unwrap().latitude_bits
            &&& g.location.unwrap().longitude_bits == m.location.unwrap().longitude_bits
            &&& g.location.unwrap().altitude_bits == m.location.unwrap().altitude_bits
        }
    } by {
        assert(rx_from(u.rx_info@[i], msg.rx_info@[i]));
    }
}

/// An uplink frame carries its event's device, counters, flags, data rate
/// (the event's spreading factor at 125 kHz), frequency, payloads and name
/// as given, and the instant it was received at.
pub proof fn lemma_uplink_keeps_event_fields(u: UplinkFrame, msg: ChirpStackUplink, topic: Seq<char>, received_at: i64)
    requires
        uplink_from(u, msg, topic, received_at),
    ensures
        u.dev_eui@ == msg.dev_eui@,
        u.device_name == msg.device_name,
        u.received_at == received_at,
        u.f_port == msg.f_port,
        u.f_cnt == msg.f_cnt,
        u.confirmed == msg.confirmed,
        u.adr == msg.adr,
        u.dr == (DataRate::Lora { bandwidth: 125000, spreading_factor: msg.dr }),
        u.frequency == msg.tx_info.frequency,
        u.raw_payload == msg.data,
        u.decoded_payload is Some <==> msg.object is Some,
        u.decoded_payload is Some ==> u.decoded_payload.unwrap().object == msg.object.unwrap(),
        msg.application_id is Some ==> u.application_id.value@ == msg.application_id.unwrap()@,
        msg.application_id is None && msg.application_name is Some ==> u.application_id.value@
            == msg.application_name.unwrap()@,
{
}

} // verus!
