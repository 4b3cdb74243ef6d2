//! The registry of devices the store has heard from.

use vstd::prelude::*;

verus! {

/// What the store knows of one device. `last_seen` is in milliseconds since
/// the Unix epoch.
#[derive(Debug, PartialEq, Eq)]
pub struct DeviceRecord {
    pub dev_eui: String,
    pub device_name: Option<String>,
    pub application_id: String,
    pub last_seen: Option<i64>,
}

/// No two records are for the same device.
pub open spec fn unique_devices(devs: Seq<DeviceRecord>) -> bool {
    forall|i: int, j: int|
        0 <= i < devs.len() && 0 <= j < devs.len() && i != j ==> #[trigger] devs[i].dev_eui@
            != #[trigger] devs[j].dev_eui@
}

/// Whether some record is for `dev`.
pub open spec fn has_device(devs: Seq<DeviceRecord>, dev: Seq<char>) -> bool {
    exists|i: int| 0 <= i < devs.len() && #[trigger] devs[i].dev_eui@ == dev
}

/// The position of the record for `dev`.
pub open spec fn device_pos(devs: Seq<DeviceRecord>, dev: Seq<char>) -> int {
    choose|i: int| 0 <= i < devs.len() && #[trigger] devs[i].dev_eui@ == dev
}

/// The records after registering `r`: the record for its device is
/// replaced by `r`, or `r` is added after the others.
pub open spec fn registered(devs: Seq<DeviceRecord>, r: DeviceRecord) -> Seq<DeviceRecord> {
    if has_device(devs, r.dev_eui@) {
        devs.update(device_pos(devs, r.dev_eui@), r)
    } else {
        devs.push(r)
    }
}

/// The record for `dev`, if any.
pub open spec fn device_lookup(devs: Seq<DeviceRecord>, dev: Seq<char>) -> Option<DeviceRecord> {
    if has_device(devs, dev) {
        Some(devs[device_pos(devs, dev)])
    } else {
        None
    }
}

pub struct DeviceRegistry {
    devices: Vec<DeviceRecord>,
}

impl View for DeviceRegistry {
    type V = Seq<DeviceRecord>;

    closed spec fn view(&self) -> Seq<DeviceRecord> {
        self.devices@
    }
}

pub fn copy_opt_string(o: &Option<String>) -> (r: Option<String>)
    ensures
        r == *o,
{
    match o {
        Some(s) => Some(s.clone()),
        None => None,
    }
}

impl DeviceRecord {
    pub fn copy(&self) -> (r: DeviceRecord)
        ensures
            r == *self,
    {
        DeviceRecord {
            dev_eui: self.dev_eui.clone(),
            device_name: copy_opt_string(&self.device_name),
            application_id: self.application_id.clone(),
            last_seen: self.last_seen,
        }
    }
}

impl DeviceRegistry {
    #[verifier::type_invariant]
    spec fn inv(&self) -> bool {
        unique_devices(self.devices@)
    }

    pub fn new() -> (r: DeviceRegistry)
        ensures
            r@ == Seq::<DeviceRecord>::empty(),
    {
        DeviceRegistry { devices: Vec::new() }
    }

    fn find(&self, dev_eui: &String) -> (r: Option<usize>)
        ensures
            match r {
                Some(i) => i < self@.len() && self@[i as int].dev_eui@ == dev_eui@ && has_device(
                    self@,
                    dev_eui@,
                ) && device_pos(self@, dev_eui@) == i,
                None => !has_device(self@, dev_eui@),
            },
    {
        proof {
            use_type_invariant(self);
        }
        let mut i: usize = 0;
        while i < self.devices.len()
            invariant
                0 <= i <= self.devices@.len(),
                unique_devices(self.devices@),
                self@ == self.devices@,
                forall|j: int| 0 <= j < i ==> #[trigger] self.devices@[j].dev_eui@ != dev_eui@,
            decreases self.devices@.len() - i,
        {
            if self.devices[i].dev_eui == *dev_eui {
                assert(has_device(self@, dev_eui@));
                let ghost p = device_pos(self@, dev_eui@);
                assert(p == i);
                return Some(i);
            }
            i = i + 1;
        }
        None
    }

    /// Records that `dev_eui` was heard from at `seen_at`, under `device_name`
    /// and `application_id`.
    pub fn register_or_update(
        &mut self,
        dev_eui: String,
        device_name: Option<String>,
        application_id: String,
        seen_at: i64,
    )
        ensures
            final(self)@ == registered(
                old(self)@,
                DeviceRecord { dev_eui, device_name, application_id, last_seen: Some(seen_at) },
            ),
    {
        proof {
            use_type_invariant(&*self);
        }
        let ghost before = self@;
        let record = DeviceRecord { dev_eui, device_name, application_id, last_seen: Some(seen_at) };
        let ghost rec = record;
        match self.find(&record.dev_eui) {
            Some(i) => {
                assert(unique_devices(before.update(i as int, rec))) by {
                    assert forall|a: int, b: int|
                        0 <= a < before.len() && 0 <= b < before.len() && a != b implies #[trigger] before.update(
                            i as int,
                            rec,
                        )[a].dev_eui@ != #[trigger] before.update(i as int, rec)[b].dev_eui@ by {
                        if a != i && b != i {
                            assert(before[a].dev_eui@ != before[b].dev_eui@);
                        } else if a == i {
                            assert(before[i as int].dev_eui@ != before[b].dev_eui@);
                        } else {
                            assert(before[a].dev_eui@ != before[i as int].dev_eui@);
                        }
                    }
                }
                let mut devs: Vec<DeviceRecord> = Vec::new();
                std::mem::swap(&mut devs, &mut self.devices);
                devs.set(i, record);
                self.devices = devs;
            },
            None => {
                assert(unique_devices(before.push(rec))) by {
                    assert forall|a: int, b: int|
                        0 <= a < before.len() + 1 && 0 <= b < before.len() + 1 && a != b implies #[trigger] before.push(
                            rec,
                        )[a].dev_eui@ != #[trigger] before.push(rec)[b].dev_eui@ by {
                        if a < before.len() && b < before.len() {
                            assert(before[a].dev_eui@ != before[b].dev_eui@);
                        } else if a == before.len() {
                            assert(before[b].dev_eui@ != rec.dev_eui@);
                        } else {
                            assert(before[a].dev_eui@ != rec.dev_eui@);
                        }
                    }
                }
                let mut devs: Vec<DeviceRecord> = Vec::new();
                std::mem::swap(&mut devs, &mut self.devices);
                devs.push(record);
                self.devices = devs;
            },
        }
    }

    /// All records, in the order devices were first heard from.
    pub fn list_devices(&self) -> (r: &Vec<DeviceRecord>)
        ensures
            r@ == self@,
            unique_devices(self@),
    {
        proof {
            use_type_invariant(self);
        }
        &self.devices
    }

    /// The record for `dev_eui`, if the device was heard from.
    pub fn get_device(&self, dev_eui: &str) -> (r: Option<&DeviceRecord>)
        ensures
            match r {
                Some(d) => device_lookup(self@, dev_eui@) == Some(*d),
                None => device_lookup(self@, dev_eui@) is None,
            },
    {
        let key = dev_eui.to_owned();
        match self.find(&key) {
            Some(i) => Some(&self.devices[i]),
            None => None,
        }
    }
}

/// Registering a device makes it known with exactly the record given, and
/// leaves what is known of every other device as it was.
pub proof fn lemma_register_then_lookup(devs: Seq<DeviceRecord>, r: DeviceRecord, other: Seq<char>)
    requires
        unique_devices(devs),
    ensures
        device_lookup(registered(devs, r), r.dev_eui@) == Some(r),
        other != r.dev_eui@ ==> device_lookup(registered(devs, r), other) == device_lookup(devs, other),
        unique_devices(registered(devs, r)),
{
    let after = registered(devs, r);
    let d = r.dev_eui@;
    if has_device(devs, d) {
        let p = device_pos(devs, d);
        assert(after[p].dev_eui@ == d);
        assert(has_device(after, d));
        assert(unique_devices(after)) by {
            assert forall|a: int, b: int|
                0 <= a < after.len() && 0 <= b < after.len() && a != b implies #[trigger] after[a].dev_eui@
                    != #[trigger] after[b].dev_eui@ by {
                if a != p && b != p {
                    assert(devs[a].dev_eui@ != devs[b].dev_eui@);
                } else if a == p {
                    assert(devs[p].dev_eui@ != devs[b].dev_eui@);
                } else {
                    assert(devs[a].dev_eui@ != devs[p].dev_eui@);
                }
            }
        }
        let q = device_pos(after, d);
        assert(q == p);
        if other != d {
            if has_device(devs, other) {
                let o = device_pos(devs, other);
                assert(o != p);
                assert(after[o].dev_eui@ == other);
                assert(has_device(after, other));
                assert(device_pos(after, other) == o);
            } else {
                assert forall|i: int| 0 <= i < after.len() implies #[trigger] after[i].dev_eui@ != other by {
                    if i != p {
                        assert(devs[i].dev_eui@ != other);
                    }
                }
            }
        }
    } else {
        let n = devs.len() as int;
        assert(after[n].dev_eui@ == d);
        assert(has_device(after, d));
        assert(unique_devices(after)) by {
            assert forall|a: int, b: int|
                0 <= a < after.len() && 0 <= b < after.len() && a != b implies #[trigger] after[a].dev_eui@
                    != #[trigger] after[b].dev_eui@ by {
                if a < n && b < n {
                    assert(devs[a].dev_eui@ != devs[b].dev_eui@);
                } else if a == n {
                    assert(devs[b].dev_eui@ != d);
                } else {
                    assert(devs[a].dev_eui@ != d);
                }
            }
        }
        assert(device_pos(after, d) == n);
        if other != d {
            if has_device(devs, other) {
                let o = device_pos(devs, other);
                assert(after[o].dev_eui@ == other);
                assert(has_device(after, other));
                assert(device_pos(after, other) == o);
            } else {
                assert forall|i: int| 0 <= i < after.len() implies #[trigger] after[i].dev_eui@ != other by {
                    if i < n {
                        assert(devs[i].dev_eui@ != other);
                    }
                }
            }
        }
    }
}

} // verus!
