//! Device resolution and calibration adjustment.
//!
//! The set of known devices is loaded once at startup and read-only from
//! then on. Resolving a BLE address yields either a known device or an
//! unknown one that still accepts and returns measurements; a per-device
//! Celsius offset corrects miscalibrated sensors at read time, so only raw
//! values are ever stored and a calibration change retroactively affects
//! every historical read.

use vstd::prelude::*;
use vstd::string::*;
use crate::read::MeasurementResult;
use crate::temperature::Celsius;
use crate::temperature::Fahrenheit;
use crate::temperature::c_to_f_milli;
use crate::temperature::in_milli_range;
use crate::time::UtcTime;
use crate::time::time_key;

verus! {

/// What a device looks like in contracts: plain views of its fields.
pub struct DeviceView {
    pub address: Seq<char>,
    pub name: Option<Seq<char>>,
    pub description: Option<Seq<char>>,
    pub adjustment: int,
}

/// The view of an optional string.
pub open spec fn opt_str_view(o: Option<String>) -> Option<Seq<char>> {
    match o {
        Some(s) => Some(s@),
        None => None,
    }
}

/// A known device, as loaded from static configuration.
pub struct Device {
    /// The BLE address of the device.
    pub address: String,
    /// The human-readable name of the device, if available.
    pub name: Option<String>,
    /// The human-readable description for the device, if available.
    pub description: Option<String>,
    /// How to adjust raw readings of a miscalibrated sensor.
    pub adjustment: Celsius,
}

impl View for Device {
    type V = DeviceView;

    open spec fn view(&self) -> DeviceView {
        DeviceView {
            address: self.address@,
            name: opt_str_view(self.name),
            description: opt_str_view(self.description),
            adjustment: self.adjustment.0 as int,
        }
    }
}

/// Copy an optional string.
fn clone_opt_string(o: &Option<String>) -> (r: Option<String>)
    ensures
        opt_str_view(r) == opt_str_view(*o),
{
    match o {
        Some(s) => Some(s.clone()),
        None => None,
    }
}

impl Clone for Device {
    /// Copies every field: the clone has the same view.
    fn clone(&self) -> (r: Self)
        ensures
            r@ == self@,
    {
        Device {
            address: self.address.clone(),
            name: clone_opt_string(&self.name),
            description: clone_opt_string(&self.description),
            adjustment: self.adjustment,
        }
    }
}

/// What a resolution result looks like in contracts.
pub enum DeviceRefView {
    Known(DeviceView),
    Unknown(Seq<char>),
}

/// A resolved device: one we know from configuration, or a bare address
/// that may still have data associated with it. Unknown devices are never
/// an error.
pub enum DeviceRef {
    /// A device from the configured table.
    Known(Device),
    /// An address absent from the table.
    Unknown(String),
}

impl View for DeviceRef {
    type V = DeviceRefView;

    open spec fn view(&self) -> DeviceRefView {
        match self {
            DeviceRef::Known(d) => DeviceRefView::Known(d@),
            DeviceRef::Unknown(a) => DeviceRefView::Unknown(a@),
        }
    }
}

impl Clone for DeviceRef {
    /// Copies the underlying device or address: the clone has the same view.
    fn clone(&self) -> (r: Self)
        ensures
            r@ == self@,
    {
        match self {
            DeviceRef::Known(d) => DeviceRef::Known(d.clone()),
            DeviceRef::Unknown(a) => DeviceRef::Unknown(a.clone()),
        }
    }
}

impl DeviceRef {
    /// The address of the device, known or not.
    pub open spec fn spec_address(self) -> Seq<char> {
        match self {
            DeviceRef::Known(d) => d.address@,
            DeviceRef::Unknown(a) => a@,
        }
    }

    /// The calibration offset: a known device's configured adjustment,
    /// zero for an unknown one.
    pub open spec fn spec_adjustment(self) -> int {
        match self {
            DeviceRef::Known(d) => d.adjustment.0 as int,
            DeviceRef::Unknown(_) => 0,
        }
    }

    /// The name, when the device is known and has one.
    pub open spec fn spec_name(self) -> Option<Seq<char>> {
        match self {
            DeviceRef::Known(d) => opt_str_view(d.name),
            DeviceRef::Unknown(_) => None,
        }
    }

    /// The description, when the device is known and has one.
    pub open spec fn spec_description(self) -> Option<Seq<char>> {
        match self {
            DeviceRef::Known(d) => opt_str_view(d.description),
            DeviceRef::Unknown(_) => None,
        }
    }

    /// The BLE address of the device.
    pub fn address(&self) -> (a: String)
        ensures
            a@ == self.spec_address(),
    {
        match self {
            DeviceRef::Known(d) => d.address.clone(),
            DeviceRef::Unknown(a) => a.clone(),
        }
    }

    /// The human-readable name of the device, if available.
    pub fn name(&self) -> (n: Option<String>)
        ensures
            opt_str_view(n) == self.spec_name(),
    {
        match self {
            DeviceRef::Known(d) => clone_opt_string(&d.name),
            DeviceRef::Unknown(_) => None,
        }
    }

    /// A human-readable description of the device, if available.
    pub fn description(&self) -> (n: Option<String>)
        ensures
            opt_str_view(n) == self.spec_description(),
    {
        match self {
            DeviceRef::Known(d) => clone_opt_string(&d.description),
            DeviceRef::Unknown(_) => None,
        }
    }

    /// How far to adjust raw temperatures for this device: an unknown
    /// device has zero adjustment.
    pub fn adjustment(&self) -> (c: Celsius)
        ensures
            c.0 as int == self.spec_adjustment(),
    {
        match self {
            DeviceRef::Known(d) => d.adjustment,
            DeviceRef::Unknown(_) => Celsius(0),
        }
    }
}

/// `d` is what resolving `address` against the table yields: the table's
/// device when the address is listed, the bare address otherwise.
pub open spec fn spec_resolves(devices: Seq<Device>, address: Seq<char>, d: DeviceRef) -> bool {
    match d {
        DeviceRef::Known(dev) => exists|i: int|
            0 <= i < devices.len() && (#[trigger] devices[i]).address@ == address && dev@
                == devices[i]@,
        DeviceRef::Unknown(a) => a@ == address && forall|i: int|
            0 <= i < devices.len() ==> (#[trigger] devices[i]).address@ != address,
    }
}

/// Resolve an address against the device table: a pure lookup with no
/// fallible paths, yielding Known for a listed address and Unknown, with
/// the address kept, for any other.
pub fn resolve_device(devices: &Vec<Device>, address: String) -> (d: DeviceRef)
    ensures
        d.spec_address() == address@,
        spec_resolves(devices@, address@, d),
{
    let n = devices.len();
    let mut i: usize = 0;
    while i < n
        invariant
            n == devices@.len(),
            i <= n,
            forall|j: int| 0 <= j < i ==> (#[trigger] devices@[j]).address@ != address@,
        decreases n - i,
    {
        if devices[i].address == address {
            let dev = devices[i].clone();
            return DeviceRef::Known(dev);
        }
        i += 1;
    }
    DeviceRef::Unknown(address)
}

/// The reading a caller sees: the raw value corrected by the device's
/// calibration offset.
pub open spec fn spec_effective(raw: Celsius, d: DeviceRef) -> int {
    raw.0 + d.spec_adjustment()
}

/// Apply a device's calibration offset to a raw reading, within Celsius.
pub fn effective_reading(raw: Celsius, device: &DeviceRef) -> (c: Celsius)
    requires
        i64::MIN <= raw.0 + device.spec_adjustment() <= i64::MAX,
    ensures
        c.0 == spec_effective(raw, *device),
{
    raw.plus(device.adjustment())
}

/// Adjustment transparency: against a device with no calibration offset,
/// a device's offset is exactly the difference it makes to any reading.
pub proof fn lemma_adjustment_transparency(raw: Celsius, adjusted: DeviceRef, neutral: DeviceRef)
    requires
        neutral.spec_adjustment() == 0,
    ensures
        spec_effective(raw, adjusted) - spec_effective(raw, neutral)
            == adjusted.spec_adjustment(),
{
}

/// How a requested measurement count is clamped before it reaches the
/// store: ten when unspecified, never negative, at most one hundred. An
/// explicit zero stays zero.
pub open spec fn spec_clamp(count: Option<i32>) -> int {
    match count {
        None => 10,
        Some(c) => if c < 0 {
            0
        } else if c > 100 {
            100
        } else {
            c as int
        },
    }
}

/// Clamp a requested measurement count: the sole backpressure mechanism in
/// the read path.
pub fn clamp_count(count: Option<i32>) -> (n: u32)
    ensures
        n as int == spec_clamp(count),
{
    match count {
        None => 10,
        Some(c) => {
            if c < 0 {
                0
            } else if c > 100 {
                100
            } else {
                c as u32
            }
        },
    }
}

/// One measurement as handed to a caller: the resolved device it belongs
/// to, its time, and the raw stored reading. Adjusted values are computed
/// on demand and never persisted.
pub struct Measurement {
    /// The device this measurement belongs to.
    pub device: DeviceRef,
    /// The time the measurement was taken.
    pub date: UtcTime,
    /// The raw (unadjusted) stored reading.
    pub temperature: Celsius,
}

impl Measurement {
    /// The adjusted value, based on the device this measurement belongs to.
    pub fn adjusted_temperature(&self) -> (c: Celsius)
        requires
            i64::MIN <= self.temperature.0 + self.device.spec_adjustment() <= i64::MAX,
        ensures
            c.0 == spec_effective(self.temperature, self.device),
    {
        effective_reading(self.temperature, &self.device)
    }

    /// The date and time the measurement was taken.
    pub fn date(&self) -> (d: UtcTime)
        ensures
            d == self.date,
    {
        self.date
    }

    /// The temperature, adjusted, in Celsius.
    pub fn temp_c(&self) -> (c: Celsius)
        requires
            i64::MIN <= self.temperature.0 + self.device.spec_adjustment() <= i64::MAX,
        ensures
            c.0 == spec_effective(self.temperature, self.device),
    {
        self.adjusted_temperature()
    }

    /// The temperature, adjusted, in Fahrenheit.
    pub fn temp_f(&self) -> (f: Fahrenheit)
        requires
            in_milli_range(self.temperature.0 + self.device.spec_adjustment()),
        ensures
            f.0 == c_to_f_milli(spec_effective(self.temperature, self.device)),
    {
        self.adjusted_temperature().to_fahrenheit()
    }

    /// The raw (unadjusted) sensor temperature.
    pub fn temp_raw_c(&self) -> (c: Celsius)
        ensures
            c == self.temperature,
    {
        self.temperature
    }
}

/// The records of a reply that become measurements: exactly those carrying
/// both a date and a temperature, in order. A record missing either is
/// dropped, not an error.
pub open spec fn spec_kept(results: Seq<MeasurementResult>) -> Seq<(UtcTime, Celsius)>
    decreases results.len(),
{
    if results.len() == 0 {
        Seq::empty()
    } else {
        (match (results[0].date, results[0].temperature) {
            (Some(d), Some(t)) => seq![(d, t)] + spec_kept(results.skip(1)),
            _ => spec_kept(results.skip(1)),
        })
    }
}

/// Keeping one more record extends the kept sequence at the end.
pub proof fn lemma_spec_kept_push(results: Seq<MeasurementResult>, r: MeasurementResult)
    ensures
        spec_kept(results.push(r)) == spec_kept(results) + (match (r.date, r.temperature) {
            (Some(d), Some(t)) => seq![(d, t)],
            _ => Seq::<(UtcTime, Celsius)>::empty(),
        }),
    decreases results.len(),
{
    let tailed = (match (r.date, r.temperature) {
        (Some(d), Some(t)) => seq![(d, t)],
        _ => Seq::<(UtcTime, Celsius)>::empty(),
    });
    if results.len() == 0 {
        assert(results.push(r).len() == 1);
        assert(results.push(r)[0] == r);
        assert(results.push(r).skip(1) =~= Seq::<MeasurementResult>::empty());
        match (r.date, r.temperature) {
            (Some(d), Some(t)) => {
                assert(spec_kept(results.push(r)) == seq![(d, t)] + spec_kept(
                    results.push(r).skip(1),
                ));
                assert(spec_kept(results.push(r)) =~= spec_kept(results) + tailed);
            },
            _ => {
                assert(spec_kept(results.push(r)) == spec_kept(results.push(r).skip(1)));
                assert(spec_kept(results.push(r)) =~= spec_kept(results) + tailed);
            },
        }
    } else {
        assert(results.push(r)[0] == results[0]);
        assert(results.push(r).skip(1) =~= results.skip(1).push(r));
        lemma_spec_kept_push(results.skip(1), r);
        match (results[0].date, results[0].temperature) {
            (Some(d), Some(t)) => {
                assert(spec_kept(results.push(r)) == seq![(d, t)] + spec_kept(
                    results.skip(1).push(r),
                ));
                assert(spec_kept(results) == seq![(d, t)] + spec_kept(results.skip(1)));
                assert(seq![(d, t)] + (spec_kept(results.skip(1)) + tailed) =~= (seq![(d, t)]
                    + spec_kept(results.skip(1))) + tailed);
            },
            _ => {
                assert(spec_kept(results.push(r)) == spec_kept(results.skip(1).push(r)));
                assert(spec_kept(results) == spec_kept(results.skip(1)));
            },
        }
    }
}

/// Turn decoded records into measurements for one device: keep exactly the
/// complete records, in order, each carrying the device.
pub fn measurements_from_results(device: &DeviceRef, results: &Vec<MeasurementResult>) -> (ms: Vec<
    Measurement,
>)
    ensures
        ms@.len() == spec_kept(results@).len(),
        forall|i: int|
            0 <= i < ms@.len() ==> {
                &&& (#[trigger] ms@[i]).date == spec_kept(results@)[i].0
                &&& ms@[i].temperature == spec_kept(results@)[i].1
                &&& ms@[i].device@ == device@
            },
{
    let mut ms: Vec<Measurement> = Vec::new();
    let mut i: usize = 0;
    while i < results.len()
        invariant
            i <= results@.len(),
            ms@.len() == spec_kept(results@.take(i as int)).len(),
            forall|k: int|
                0 <= k < ms@.len() ==> {
                    &&& (#[trigger] ms@[k]).date == spec_kept(results@.take(i as int))[k].0
                    &&& ms@[k].temperature == spec_kept(results@.take(i as int))[k].1
                    &&& ms@[k].device@ == device@
                },
        decreases results@.len() - i,
    {
        let r = &results[i];
        proof {
            lemma_spec_kept_push(results@.take(i as int), results@[i as int]);
            assert(results@.take(i + 1) =~= results@.take(i as int).push(results@[i as int]));
        }
        match (&r.date, &r.temperature) {
            (Some(d), Some(t)) => {
                ms.push(Measurement { device: device.clone(), date: *d, temperature: *t });
            },
            _ => {},
        }
        i += 1;
    }
    proof {
        assert(results@.take(results@.len() as int) =~= results@);
    }
    ms
}

/// The current measurement: the first complete record, if any.
pub fn current_measurement_from_results(device: &DeviceRef, results: &Vec<MeasurementResult>) -> (m:
    Option<Measurement>)
    ensures
        match m {
            Some(mm) => {
                &&& spec_kept(results@).len() > 0
                &&& mm.date == spec_kept(results@)[0].0
                &&& mm.temperature == spec_kept(results@)[0].1
                &&& mm.device@ == device@
            },
            None => spec_kept(results@).len() == 0,
        },
{
    let mut ms = measurements_from_results(device, results);
    if ms.len() > 0 {
        Some(ms.remove(0))
    } else {
        None
    }
}

/// The response handed back for one recorded measurement: the resolved
/// device, the truncated timestamp, and the raw value as written.
pub fn record_response(
    devices: &Vec<Device>,
    address: String,
    date: UtcTime,
    temperature: Celsius,
) -> (m: Measurement)
    ensures
        spec_resolves(devices@, m.device.spec_address(), m.device),
        m.device.spec_address() == address@,
        m.date == date.truncated(),
        m.temperature == temperature,
{
    let device = resolve_device(devices, address);
    Measurement { device, date: date.truncate_subsec(), temperature }
}

/// The dates present among decoded records never decrease.
pub open spec fn dates_ascending(results: Seq<MeasurementResult>) -> bool {
    forall|i: int, j: int|
        0 <= i < j < results.len() ==> match ((#[trigger] results[i]).date, (
        #[trigger] results[j]).date) {
            (Some(a), Some(b)) => time_key(a) <= time_key(b),
            _ => true,
        }
}

/// The dates present among decoded records never increase.
pub open spec fn dates_descending(results: Seq<MeasurementResult>) -> bool {
    forall|i: int, j: int|
        0 <= i < j < results.len() ==> match ((#[trigger] results[i]).date, (
        #[trigger] results[j]).date) {
            (Some(a), Some(b)) => time_key(a) >= time_key(b),
            _ => true,
        }
}

/// The kept pairs are in chronological order.
pub open spec fn kept_ascending(ks: Seq<(UtcTime, Celsius)>) -> bool {
    forall|i: int, j: int|
        0 <= i < j < ks.len() ==> time_key((#[trigger] ks[i]).0) <= time_key((#[trigger] ks[j]).0)
}

/// Every kept pair comes from some complete record.
pub proof fn lemma_kept_element(s: Seq<MeasurementResult>, i: int)
    requires
        0 <= i < spec_kept(s).len(),
    ensures
        exists|j: int|
            0 <= j < s.len() && match ((#[trigger] s[j]).date, s[j].temperature) {
                (Some(d), Some(t)) => spec_kept(s)[i] == (d, t),
                _ => false,
            },
    decreases s.len(),
{
    if s.len() == 0 {
    } else {
        match (s[0].date, s[0].temperature) {
            (Some(d), Some(t)) => {
                if i == 0 {
                    assert(spec_kept(s)[0] == (d, t));
                    assert(match (s[0].date, s[0].temperature) {
                        (Some(d2), Some(t2)) => spec_kept(s)[i] == (d2, t2),
                        _ => false,
                    });
                } else {
                    lemma_kept_element(s.skip(1), i - 1);
                    let j = choose|j: int|
                        0 <= j < s.skip(1).len() && match ((#[trigger] s.skip(1)[j]).date, s.skip(
                            1,
                        )[j].temperature) {
                            (Some(d2), Some(t2)) => spec_kept(s.skip(1))[i - 1] == (d2, t2),
                            _ => false,
                        };
                    assert(s.skip(1)[j] == s[j + 1]);
                    assert(spec_kept(s)[i] == spec_kept(s.skip(1))[i - 1]);
                    assert(match (s[j + 1].date, s[j + 1].temperature) {
                        (Some(d2), Some(t2)) => spec_kept(s)[i] == (d2, t2),
                        _ => false,
                    });
                }
            },
            _ => {
                lemma_kept_element(s.skip(1), i);
                let j = choose|j: int|
                    0 <= j < s.skip(1).len() && match ((#[trigger] s.skip(1)[j]).date, s.skip(
                        1,
                    )[j].temperature) {
                        (Some(d2), Some(t2)) => spec_kept(s.skip(1))[i] == (d2, t2),
                        _ => false,
                    };
                assert(s.skip(1)[j] == s[j + 1]);
                assert(spec_kept(s) == spec_kept(s.skip(1)));
                assert(match (s[j + 1].date, s[j + 1].temperature) {
                    (Some(d2), Some(t2)) => spec_kept(s)[i] == (d2, t2),
                    _ => false,
                });
            },
        }
    }
}

/// Ordering: when the decoded records arrive in chronological order, the
/// measurements assembled from them are in chronological order too.
pub proof fn lemma_measurement_order(s: Seq<MeasurementResult>)
    requires
        dates_ascending(s),
    ensures
        kept_ascending(spec_kept(s)),
    decreases s.len(),
{
    if s.len() == 0 {
    } else {
        let rest = s.skip(1);
        assert forall|i: int, j: int| 0 <= i < j < rest.len() implies match ((
        #[trigger] rest[i]).date, (#[trigger] rest[j]).date) {
            (Some(a), Some(b)) => time_key(a) <= time_key(b),
            _ => true,
        } by {
            assert(rest[i] == s[i + 1]);
            assert(rest[j] == s[j + 1]);
            assert(match (s[i + 1].date, s[j + 1].date) {
                (Some(a), Some(b)) => time_key(a) <= time_key(b),
                _ => true,
            });
        }
        lemma_measurement_order(rest);
        match (s[0].date, s[0].temperature) {
            (Some(d), Some(t)) => {
                assert forall|k: int| 0 <= k < spec_kept(rest).len() implies time_key(d)
                    <= time_key(spec_kept(rest)[k].0) by {
                    lemma_kept_element(rest, k);
                    let j = choose|j: int|
                        0 <= j < rest.len() && match ((#[trigger] rest[j]).date, rest[
                        j].temperature) {
                            (Some(d2), Some(t2)) => spec_kept(rest)[k] == (d2, t2),
                            _ => false,
                        };
                    assert(rest[j] == s[j + 1]);
                    assert(match (s[0].date, s[j + 1].date) {
                        (Some(a), Some(b)) => time_key(a) <= time_key(b),
                        _ => true,
                    });
                }
                assert(kept_ascending(spec_kept(s)));
            },
            _ => {
                assert(spec_kept(s) == spec_kept(rest));
            },
        }
    }
}

/// Reversal: a reply whose records arrive most recent first, read
/// back-to-front, is in chronological order.
pub proof fn lemma_reversed_ascending(reply: Seq<MeasurementResult>, out: Seq<MeasurementResult>)
    requires
        out.len() == reply.len(),
        forall|i: int| 0 <= i < out.len() ==> #[trigger] out[i] == reply[reply.len() - 1 - i],
        dates_descending(reply),
    ensures
        dates_ascending(out),
{
    assert forall|i: int, j: int| 0 <= i < j < out.len() implies match ((#[trigger] out[i]).date, (
    #[trigger] out[j]).date) {
        (Some(a), Some(b)) => time_key(a) <= time_key(b),
        _ => true,
    } by {
        let n = reply.len();
        assert(out[i] == reply[n - 1 - i]);
        assert(out[j] == reply[n - 1 - j]);
        assert(match (reply[n - 1 - j].date, reply[n - 1 - i].date) {
            (Some(a), Some(b)) => time_key(a) >= time_key(b),
            _ => true,
        });
    }
}

} // verus!
