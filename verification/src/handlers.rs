//! What the HTTP API answers: health, the device list, one device, and
//! errors.

use vstd::prelude::*;
use vstd::string::*;
use crate::error::{response_kind, LoraDbError};
use crate::executor::{query_window, selects, window_fits, Query, QueryExecutor};
use crate::frames::Frame;
use crate::lorawan::valid_dev_eui;
use crate::registry::{device_lookup, DeviceRecord, DeviceRegistry};
use crate::storage::{deref_all, in_range, stably_sorted_from, StorageEngine};

verus! {

/// A query request's body.
pub struct QueryRequest {
    pub query: String,
}

pub struct HealthResponse {
    pub status: String,
    pub version: String,
}

/// What the API reports of one device; `last_seen` is in milliseconds since
/// the Unix epoch, and the API renders it in RFC 3339 form.
pub struct DeviceInfo {
    pub dev_eui: String,
    pub device_name: Option<String>,
    pub application_id: String,
    pub last_seen: Option<i64>,
}

pub struct DeviceListResponse {
    pub total_devices: usize,
    pub devices: Vec<DeviceInfo>,
}

pub struct ErrorResponse {
    pub error: String,
    pub message: String,
}

/// `info` reports `rec`: same device, name, application and last-seen
/// instant.
pub open spec fn reports(info: DeviceInfo, rec: DeviceRecord) -> bool {
    &&& info.dev_eui@ == rec.dev_eui@
    &&& info.device_name == rec.device_name
    &&& info.application_id@ == rec.application_id@
    &&& info.last_seen == rec.last_seen
}

fn device_info(rec: &DeviceRecord) -> (r: DeviceInfo)
    ensures
        reports(r, *rec),
{
    DeviceInfo {
        dev_eui: rec.dev_eui.clone(),
        device_name: crate::registry::copy_opt_string(&rec.device_name),
        application_id: rec.application_id.clone(),
        last_seen: rec.last_seen,
    }
}

/// The health answer: status `ok` and the service's version.
pub fn health_check(version: &str) -> (r: HealthResponse)
    ensures
        r.status@ == "ok"@,
        r.version@ == version@,
{
    HealthResponse { status: String::from_str("ok"), version: version.to_owned() }
}

/// Every device the registry knows, in its order, with their count.
pub fn list_devices(registry: &DeviceRegistry) -> (r: DeviceListResponse)
    ensures
        r.total_devices == registry@.len(),
        r.devices@.len() == registry@.len(),
        forall|i: int| 0 <= i < registry@.len() ==> reports(#[trigger] r.devices@[i], registry@[i]),
{
    let records = registry.list_devices();
    let mut devices: Vec<DeviceInfo> = Vec::new();
    let mut i: usize = 0;
    while i < records.len()
        invariant
            0 <= i <= records@.len(),
            records@ == registry@,
            devices@.len() == i,
            forall|j: int| 0 <= j < i ==> reports(#[trigger] devices@[j], records@[j]),
        decreases records@.len() - i,
    {
        devices.push(device_info(&records[i]));
        i = i + 1;
    }
    DeviceListResponse { total_devices: devices.len(), devices }
}

/// The device `dev_eui`, or an `InvalidDevEui` error naming it when the
/// registry does not know it.
pub fn get_device(registry: &DeviceRegistry, dev_eui: &str) -> (r: Result<DeviceInfo, LoraDbError>)
    ensures
        match device_lookup(registry@, dev_eui@) {
            Some(rec) => r matches Ok(info) && reports(info, rec),
            None => r matches Err(LoraDbError::InvalidDevEui(m)) && m@ == "Device "@ + dev_eui@
                + " not found"@,
        },
{
    match registry.get_device(dev_eui) {
        Some(rec) => Ok(device_info(rec)),
        None => {
            let m = String::from_str("Device ").concat(dev_eui).concat(" not found");
            Err(LoraDbError::InvalidDevEui(m))
        },
    }
}

/// The API's answer to an error: its status code and body.
pub fn error_response(e: &LoraDbError) -> (r: (u16, ErrorResponse))
    ensures
        r.0 == response_kind(*e).0,
        r.1.error@ == response_kind(*e).1,
        r.1.message == e.detail_spec(),
{
    let (status, kind) = e.response_status();
    (status, ErrorResponse { error: String::from_str(kind), message: e.detail().clone() })
}

/// Answers a query request: `parsed` is what the query parser made of its
/// text (or the parser's reason for refusing it). A refused text answers
/// `QueryParseError` with that reason; a query that cannot run answers
/// `QueryExecutionError`; otherwise the frames it selects, at `now`.
pub fn execute_query<'a>(
    executor: &QueryExecutor,
    storage: &'a StorageEngine,
    parsed: &Result<Query, String>,
    now: i64,
) -> (r: Result<Vec<&'a Frame>, LoraDbError>)
    requires
        *parsed matches Ok(q) ==> window_fits(q, now),
    ensures
        match *parsed {
            Err(reason) => r matches Err(LoraDbError::QueryParseError(m)) && m@ == reason@,
            Ok(q) => match r {
                Ok(v) => valid_dev_eui(q.from.dev_eui@) && stably_sorted_from(
                    deref_all(v@),
                    storage.stored().filter(
                        in_range(q.from.dev_eui@, query_window(q, now).0, query_window(q, now).1),
                    ).filter(selects(q.select)),
                ),
                Err(e) => !valid_dev_eui(q.from.dev_eui@) && (e matches LoraDbError::QueryExecutionError(m)
                    && m@ == "Invalid DevEUI: "@ + q.from.dev_eui@),
            },
        },
{
    match parsed {
        Err(reason) => Err(LoraDbError::QueryParseError(reason.clone())),
        Ok(q) => executor.execute(storage, q, now),
    }
}

} // verus!
