//! The devices that the bridge reports, as of the most recent refresh.

use crate::executor::CommandOutcome;
use crate::text::{chars_of, number_of, parse_number, same_text, split, split_text, texts};
use vstd::prelude::*;
use vstd::string::*;

verus! {

/// How a device is connected.
#[derive(Clone, Copy, Debug, PartialEq, Eq, Structural)]
pub enum ConnectionState {
    Online,
    Offline,
    Unauthorized,
    /// Known before, but no longer reported.
    Missing,
}

/// An attached device, identified by its serial.
#[derive(Debug, PartialEq, Eq)]
pub struct Device {
    pub serial: String,
    pub state: ConnectionState,
    /// The Android API level, once it has been asked for.
    pub api_level: Option<u32>,
    /// When a refresh last reported the device.
    pub last_seen: u64,
}

pub struct DeviceView {
    pub serial: Seq<char>,
    pub state: ConnectionState,
    pub api_level: Option<u32>,
    pub last_seen: u64,
}

impl View for Device {
    type V = DeviceView;

    open spec fn view(&self) -> DeviceView {
        DeviceView {
            serial: self.serial@,
            state: self.state,
            api_level: self.api_level,
            last_seen: self.last_seen,
        }
    }
}

impl Clone for Device {
    fn clone(&self) -> (r: Self)
        ensures
            r == *self,
    {
        Device {
            serial: self.serial.clone(),
            state: self.state,
            api_level: self.api_level,
            last_seen: self.last_seen,
        }
    }
}

/// One device as the bridge reports it.
#[derive(Debug, PartialEq, Eq)]
pub struct Sighting {
    pub serial: String,
    pub state: ConnectionState,
}

pub struct SightingView {
    pub serial: Seq<char>,
    pub state: ConnectionState,
}

impl View for Sighting {
    type V = SightingView;

    open spec fn view(&self) -> SightingView {
        SightingView { serial: self.serial@, state: self.state }
    }
}

pub open spec fn device_views(v: Seq<Device>) -> Seq<DeviceView> {
    Seq::new(v.len(), |i: int| v[i]@)
}

pub open spec fn sighting_views(v: Seq<Sighting>) -> Seq<SightingView> {
    Seq::new(v.len(), |i: int| v[i]@)
}

/// The device at position `i` of `s` has this serial.
pub open spec fn at(s: Seq<DeviceView>, i: int, serial: Seq<char>) -> bool {
    0 <= i < s.len() && s[i].serial == serial
}

pub open spec fn knows(s: Seq<DeviceView>, serial: Seq<char>) -> bool {
    exists|i: int| at(s, i, serial)
}

/// The device with this serial, if `s` has one.
pub open spec fn lookup(s: Seq<DeviceView>, serial: Seq<char>) -> Option<DeviceView> {
    if knows(s, serial) {
        Some(s[choose|i: int| at(s, i, serial)])
    } else {
        None
    }
}

/// No serial occurs twice.
pub open spec fn distinct(s: Seq<DeviceView>) -> bool {
    forall|i: int, j: int| 0 <= i < j < s.len() ==> s[i].serial != s[j].serial
}

/// The sighting at position `k` is of this serial.
pub open spec fn reported_at(s: Seq<SightingView>, k: int, serial: Seq<char>) -> bool {
    0 <= k < s.len() && s[k].serial == serial
}

/// The sighting at position `k` is the first of this serial.
pub open spec fn first_at(s: Seq<SightingView>, k: int, serial: Seq<char>) -> bool {
    reported_at(s, k, serial) && forall|j: int| 0 <= j < k ==> !reported_at(s, j, serial)
}

pub open spec fn reported(s: Seq<SightingView>, serial: Seq<char>) -> bool {
    exists|k: int| reported_at(s, k, serial)
}

/// The first sighting of this serial.
pub open spec fn first_report(s: Seq<SightingView>, serial: Seq<char>) -> SightingView {
    s[choose|k: int| first_at(s, k, serial)]
}

/// The position of the first sighting of this serial.
pub open spec fn first_index(s: Seq<SightingView>, serial: Seq<char>) -> int {
    choose|k: int| first_at(s, k, serial)
}

/// The position at which `s` holds this serial.
pub open spec fn place(s: Seq<DeviceView>, serial: Seq<char>) -> int {
    choose|i: int| at(s, i, serial)
}

/// Positions `a` and `b` of a refreshed list stand as they should: a device
/// that is reported comes before one that is not; two that are reported
/// stand as their first sightings do, and two that are not as they stood
/// before the refresh.
pub open spec fn in_order(
    list: Seq<DeviceView>,
    known: Seq<DeviceView>,
    sightings: Seq<SightingView>,
    a: int,
    b: int,
) -> bool {
    let x = list[a].serial;
    let y = list[b].serial;
    if reported(sightings, y) {
        reported(sightings, x) && first_index(sightings, x) < first_index(sightings, y)
    } else {
        reported(sightings, x) || place(known, x) < place(known, y)
    }
}

/// The order of a refreshed list: the reported devices in the order of
/// their first sightings, then those that have gone missing, in the order
/// in which they were held before.
pub open spec fn listed_in_order(
    list: Seq<DeviceView>,
    known: Seq<DeviceView>,
    sightings: Seq<SightingView>,
) -> bool {
    forall|a: int, b: int|
        0 <= a < b < list.len() ==> #[trigger] in_order(list, known, sightings, a, b)
}

/// What a refresh makes of one serial. A reported device has the state of its
/// first sighting and was last seen now; what was known of its API level
/// stays. A device that was known, was not already missing and is no longer
/// reported stays as `Missing`. Any other serial is unknown afterwards: a
/// device that two refreshes in a row do not report is gone.
pub open spec fn after_refresh(
    known: Seq<DeviceView>,
    sightings: Seq<SightingView>,
    now: u64,
    serial: Seq<char>,
) -> Option<DeviceView> {
    if reported(sightings, serial) {
        Some(
            DeviceView {
                serial: serial,
                state: first_report(sightings, serial).state,
                api_level: match lookup(known, serial) {
                    Some(d) => d.api_level,
                    None => None,
                },
                last_seen: now,
            },
        )
    } else {
        match lookup(known, serial) {
            Some(d) => if d.state != ConnectionState::Missing {
                Some(
                    DeviceView {
                        serial: d.serial,
                        state: ConnectionState::Missing,
                        api_level: d.api_level,
                        last_seen: d.last_seen,
                    },
                )
            } else {
                None
            },
            None => None,
        }
    }
}

/// The connection state that a word of the bridge's device list names.
pub open spec fn state_named(word: Seq<char>) -> Option<ConnectionState> {
    if word == "device"@ {
        Some(ConnectionState::Online)
    } else if word == "offline"@ {
        Some(ConnectionState::Offline)
    } else if word == "unauthorized"@ {
        Some(ConnectionState::Unauthorized)
    } else {
        None
    }
}

/// What one line of the bridge's device list reports: a serial, a tab and a
/// state word. Any other line, such as the list's heading, reports nothing.
pub open spec fn sighting_of(line: Seq<char>) -> Option<SightingView> {
    let fields = split(line, '\t');
    if fields.len() == 2 && fields[0].len() > 0 {
        match state_named(fields[1]) {
            Some(state) => Some(SightingView { serial: fields[0], state: state }),
            None => None,
        }
    } else {
        None
    }
}

/// The sightings that the lines of a device list report, in order.
pub open spec fn sightings_of(lines: Seq<Seq<char>>) -> Seq<SightingView>
    decreases lines.len(),
{
    if lines.len() == 0 {
        Seq::<SightingView>::empty()
    } else {
        let before = sightings_of(lines.drop_last());
        match sighting_of(lines.last()) {
            Some(s) => before.push(s),
            None => before,
        }
    }
}

/// The API level that a device's answer states: the number on the first line
/// of a command that succeeded.
pub open spec fn api_level_of(outcome: CommandOutcome) -> Option<u32> {
    match outcome {
        CommandOutcome::Completed(c) => if c.stdout@.len() > 0 {
            number_of(c.stdout@[0]@)
        } else {
            None
        },
        CommandOutcome::Failed(_, _) => None,
    }
}

/// Where serials are distinct, the device at a position is the one that a
/// lookup of its serial finds.
pub proof fn lemma_lookup_at(s: Seq<DeviceView>, i: int, serial: Seq<char>)
    requires
        distinct(s),
        at(s, i, serial),
    ensures
        lookup(s, serial) == Some(s[i]),
        place(s, serial) == i,
{
    let c = choose|c: int| at(s, c, serial);
    assert(c == i);
}

/// The first sighting of a serial is the one at the position that has no
/// sighting of that serial before it.
pub proof fn lemma_first_report(s: Seq<SightingView>, k: int, serial: Seq<char>)
    requires
        first_at(s, k, serial),
    ensures
        reported(s, serial),
        first_report(s, serial) == s[k],
        first_index(s, serial) == k,
{
    assert(reported_at(s, k, serial));
    let c = choose|c: int| first_at(s, c, serial);
    assert(first_at(s, c, serial));
    if c < k {
        assert(!reported_at(s, c, serial));
    }
    if k < c {
        assert(!reported_at(s, k, serial));
    }
}

proof fn lemma_reported_step(s: Seq<SightingView>, k: int, serial: Seq<char>)
    requires
        0 <= k < s.len(),
    ensures
        reported(s.take(k + 1), serial) <==> reported(s.take(k), serial) || s[k].serial == serial,
{
    let more = s.take(k + 1);
    let less = s.take(k);
    if reported(more, serial) {
        let c = choose|c: int| reported_at(more, c, serial);
        if c < k {
            assert(reported_at(less, c, serial));
        }
    }
    if reported(less, serial) {
        let c = choose|c: int| reported_at(less, c, serial);
        assert(reported_at(more, c, serial));
    }
    if s[k].serial == serial {
        assert(reported_at(more, k, serial));
    }
}

proof fn lemma_knows_push(s: Seq<DeviceView>, d: DeviceView, serial: Seq<char>)
    ensures
        knows(s.push(d), serial) <==> knows(s, serial) || d.serial == serial,
{
    if knows(s.push(d), serial) {
        let c = choose|c: int| at(s.push(d), c, serial);
        if c < s.len() {
            assert(at(s, c, serial));
        }
    }
    if knows(s, serial) {
        let c = choose|c: int| at(s, c, serial);
        assert(at(s.push(d), c, serial));
    }
    if d.serial == serial {
        assert(at(s.push(d), s.len() as int, serial));
    }
}

/// A known device that has not gone missing, at a position before `i`.
spec fn kept_before(known: Seq<DeviceView>, i: int, j: int, serial: Seq<char>) -> bool {
    0 <= j < i && j < known.len() && known[j].serial == serial && known[j].state
        != ConnectionState::Missing
}

fn index_of(devices: &Vec<Device>, serial: &str) -> (r: Option<usize>)
    ensures
        match r {
            Some(i) => at(device_views(devices@), i as int, serial@),
            None => !knows(device_views(devices@), serial@),
        },
{
    let mut i: usize = 0;
    while i < devices.len()
        invariant
            i <= devices.len(),
            forall|j: int| 0 <= j < i ==> !at(device_views(devices@), j, serial@),
        decreases devices.len() - i,
    {
        if same_text(devices[i].serial.as_str(), serial) {
            return Some(i);
        }
        i = i + 1;
    }
    None
}

fn seen_in(sightings: &Vec<Sighting>, serial: &str) -> (r: bool)
    ensures
        r == reported(sighting_views(sightings@), serial@),
{
    let mut k: usize = 0;
    while k < sightings.len()
        invariant
            k <= sightings.len(),
            forall|j: int| 0 <= j < k ==> !reported_at(sighting_views(sightings@), j, serial@),
        decreases sightings.len() - k,
    {
        if same_text(sightings[k].serial.as_str(), serial) {
            assert(reported_at(sighting_views(sightings@), k as int, serial@));
            return true;
        }
        k = k + 1;
    }
    false
}

fn copy_of(devices: &Vec<Device>) -> (r: Vec<Device>)
    ensures
        r@ == devices@,
{
    let mut r: Vec<Device> = Vec::new();
    let mut i: usize = 0;
    while i < devices.len()
        invariant
            i <= devices.len(),
            r@ == devices@.take(i as int),
        decreases devices.len() - i,
    {
        r.push(devices[i].clone());
        i = i + 1;
        assert(devices@.take(i as int) == devices@.take(i as int - 1).push(devices@[i as int - 1]));
    }
    assert(devices@.take(i as int) == devices@);
    r
}

/// The devices known as of the most recent refresh, each serial once.
#[derive(Debug)]
pub struct DeviceRegistry {
    devices: Vec<Device>,
}

impl View for DeviceRegistry {
    type V = Seq<DeviceView>;

    closed spec fn view(&self) -> Seq<DeviceView> {
        device_views(self.devices@)
    }
}

impl DeviceRegistry {
    /// No serial is held twice.
    pub open spec fn wf(&self) -> bool {
        distinct(self@)
    }

    /// A registry that knows no device yet.
    pub fn new() -> (r: DeviceRegistry)
        ensures
            r.wf(),
            r@ == Seq::<DeviceView>::empty(),
    {
        let r = DeviceRegistry { devices: Vec::new() };
        assert(r@ == Seq::<DeviceView>::empty());
        r
    }

    /// Takes in what the bridge reports now; see [`after_refresh`] for what
    /// becomes of each serial and [`listed_in_order`] for the order in which
    /// the devices then stand. Returns the devices held afterwards, those
    /// that have gone missing among them.
    pub fn refresh(&mut self, sightings: &Vec<Sighting>, now: u64) -> (list: Vec<Device>)
        requires
            old(self).wf(),
        ensures
            final(self).wf(),
            forall|serial: Seq<char>| #[trigger]
                lookup(final(self)@, serial) == after_refresh(
                    old(self)@,
                    sighting_views(sightings@),
                    now,
                    serial,
                ),
            listed_in_order(final(self)@, old(self)@, sighting_views(sightings@)),
            device_views(list@) == final(self)@,
    {
        let ghost known = self@;
        let ghost seen = sighting_views(sightings@);
        let mut fresh: Vec<Device> = Vec::new();
        let mut k: usize = 0;
        assert forall|x: Seq<char>| #[trigger]
            knows(device_views(fresh@), x) <==> reported(seen.take(0), x) by {
            if knows(device_views(fresh@), x) {
                let c = choose|c: int| at(device_views(fresh@), c, x);
            }
            if reported(seen.take(0), x) {
                let c = choose|c: int| reported_at(seen.take(0), c, x);
            }
        }
        while k < sightings.len()
            invariant
                k <= sightings.len(),
                known == self@,
                distinct(known),
                seen == sighting_views(sightings@),
                distinct(device_views(fresh@)),
                forall|x: Seq<char>| #[trigger]
                    knows(device_views(fresh@), x) <==> reported(seen.take(k as int), x),
                forall|i: int|
                    0 <= i < fresh@.len() ==> after_refresh(
                        known,
                        seen,
                        now,
                        (#[trigger] fresh@[i])@.serial,
                    ) == Some(fresh@[i]@),
                forall|i: int|
                    0 <= i < fresh@.len() ==> reported(
                        seen,
                        (#[trigger] device_views(fresh@)[i]).serial,
                    ) && first_index(seen, device_views(fresh@)[i].serial) < k,
                forall|a: int, b: int|
                    0 <= a < b < fresh@.len() ==> first_index(
                        seen,
                        (#[trigger] device_views(fresh@)[a]).serial,
                    ) < first_index(seen, (#[trigger] device_views(fresh@)[b]).serial),
            decreases sightings.len() - k,
        {
            let ghost before = device_views(fresh@);
            let s = &sightings[k];
            let ghost x = s.serial@;
            assert(seen[k as int] == s@);
            match index_of(&fresh, s.serial.as_str()) {
                Some(_) => {
                    proof {
                        assert forall|y: Seq<char>| #[trigger]
                            knows(before, y) <==> reported(seen.take(k as int + 1), y) by {
                            lemma_reported_step(seen, k as int, y);
                        }
                    }
                },
                None => {
                    let api_level = match index_of(&self.devices, s.serial.as_str()) {
                        Some(i) => {
                            proof {
                                lemma_lookup_at(known, i as int, x);
                            }
                            self.devices[i].api_level
                        },
                        None => None,
                    };
                    let device = Device {
                        serial: s.serial.clone(),
                        state: s.state,
                        api_level,
                        last_seen: now,
                    };
                    let ghost dv = device@;
                    fresh.push(device);
                    proof {
                        let after = device_views(fresh@);
                        assert(after == before.push(dv));
                        let head = seen.take(k as int);
                        assert(!reported(head, x));
                        assert forall|j: int| 0 <= j < k implies !reported_at(seen, j, x) by {
                            if reported_at(seen, j, x) {
                                assert(reported_at(head, j, x));
                            }
                        }
                        assert(first_at(seen, k as int, x));
                        lemma_first_report(seen, k as int, x);
                        assert(after_refresh(known, seen, now, x) == Some(dv));
                        assert forall|y: Seq<char>| #[trigger]
                            knows(after, y) <==> reported(seen.take(k as int + 1), y) by {
                            lemma_reported_step(seen, k as int, y);
                            lemma_knows_push(before, dv, y);
                        }
                        assert forall|i: int, j: int| 0 <= i < j < after.len() implies after[i].serial
                            != after[j].serial by {
                            if j == after.len() - 1 {
                                assert(after[i] == before[i]);
                                if before[i].serial == x {
                                    assert(at(before, i, x));
                                }
                            } else {
                                assert(after[i] == before[i]);
                                assert(after[j] == before[j]);
                            }
                        }
                        assert forall|i: int| 0 <= i < fresh@.len() implies after_refresh(
                            known,
                            seen,
                            now,
                            (#[trigger] fresh@[i])@.serial,
                        ) == Some(fresh@[i]@) by {
                            if i < fresh@.len() - 1 {
                                assert(after[i] == before[i]);
                            }
                        }
                        assert forall|i: int| 0 <= i < after.len() implies reported(
                            seen,
                            (#[trigger] after[i]).serial,
                        ) && first_index(seen, after[i].serial) < k + 1 by {
                            if i < after.len() - 1 {
                                assert(after[i] == before[i]);
                            }
                        }
                        assert forall|a: int, b: int| 0 <= a < b < after.len() implies first_index(
                            seen,
                            (#[trigger] after[a]).serial,
                        ) < first_index(seen, (#[trigger] after[b]).serial) by {
                            assert(after[a] == before[a]);
                            if b < after.len() - 1 {
                                assert(after[b] == before[b]);
                            }
                        }
                    }
                },
            }
            k = k + 1;
        }
        assert(seen.take(k as int) == seen);
        let ghost sighted = device_views(fresh@);
        let mut i: usize = 0;
        proof {
            assert forall|y: Seq<char>| #[trigger]
                knows(device_views(fresh@), y) <==> (reported(seen, y) || exists|j: int|
                    kept_before(known, 0, j, y)) by {
            }
        }
        while i < self.devices.len()
            invariant
                i <= self.devices.len(),
                known == self@,
                distinct(known),
                seen == sighting_views(sightings@),
                distinct(device_views(fresh@)),
                forall|y: Seq<char>| #[trigger]
                    knows(device_views(fresh@), y) <==> (reported(seen, y) || exists|j: int|
                        kept_before(known, i as int, j, y)),
                forall|n: int|
                    0 <= n < fresh@.len() ==> after_refresh(
                        known,
                        seen,
                        now,
                        (#[trigger] fresh@[n])@.serial,
                    ) == Some(fresh@[n]@),
                sighted.len() <= fresh@.len(),
                forall|n: int|
                    0 <= n < sighted.len() ==> (#[trigger] device_views(fresh@)[n]) == sighted[n],
                forall|n: int| 0 <= n < sighted.len() ==> reported(seen, (#[trigger] sighted[n]).serial),
                forall|a: int, b: int|
                    0 <= a < b < sighted.len() ==> first_index(seen, (#[trigger] sighted[a]).serial)
                        < first_index(seen, (#[trigger] sighted[b]).serial),
                forall|n: int|
                    sighted.len() <= n < fresh@.len() ==> !reported(
                        seen,
                        (#[trigger] device_views(fresh@)[n]).serial,
                    ) && place(known, device_views(fresh@)[n].serial) < i,
                forall|a: int, b: int|
                    sighted.len() <= a < b < fresh@.len() ==> place(
                        known,
                        (#[trigger] device_views(fresh@)[a]).serial,
                    ) < place(known, (#[trigger] device_views(fresh@)[b]).serial),
            decreases self.devices.len() - i,
        {
            let ghost before = device_views(fresh@);
            let ghost here = i as int;
            let ghost next = i as int + 1;
            let d = &self.devices[i];
            let ghost x = d.serial@;
            assert(known[i as int] == d@);
            assert(at(known, i as int, x));
            let lost = d.state != ConnectionState::Missing && !seen_in(sightings, d.serial.as_str());
            if lost {
                let device = Device {
                    serial: d.serial.clone(),
                    state: ConnectionState::Missing,
                    api_level: d.api_level,
                    last_seen: d.last_seen,
                };
                let ghost dv = device@;
                fresh.push(device);
                proof {
                    let after = device_views(fresh@);
                    assert(after == before.push(dv));
                    lemma_lookup_at(known, i as int, x);
                    assert(after_refresh(known, seen, now, x) == Some(dv));
                    assert(!knows(before, x)) by {
                        if knows(before, x) {
                            let j = choose|j: int| kept_before(known, here, j, x);
                            assert(kept_before(known, here, j, x));
                        }
                    }
                    assert forall|a: int, b: int| 0 <= a < b < after.len() implies after[a].serial
                        != after[b].serial by {
                        if b == after.len() - 1 {
                            assert(after[a] == before[a]);
                            if before[a].serial == x {
                                assert(at(before, a, x));
                            }
                        } else {
                            assert(after[a] == before[a]);
                            assert(after[b] == before[b]);
                        }
                    }
                    assert forall|y: Seq<char>| #[trigger]
                        knows(after, y) <==> (reported(seen, y) || exists|j: int|
                            kept_before(known, next, j, y)) by {
                        lemma_knows_push(before, dv, y);
                        if exists|j: int| kept_before(known, here, j, y) {
                            let j = choose|j: int| kept_before(known, here, j, y);
                            assert(kept_before(known, next, j, y));
                        }
                        if y == x {
                            assert(kept_before(known, next, i as int, y));
                        }
                        if exists|j: int| kept_before(known, next, j, y) {
                            let j = choose|j: int| kept_before(known, next, j, y);
                            if j < i {
                                assert(kept_before(known, here, j, y));
                            }
                        }
                    }
                    assert forall|n: int| 0 <= n < fresh@.len() implies after_refresh(
                        known,
                        seen,
                        now,
                        (#[trigger] fresh@[n])@.serial,
                    ) == Some(fresh@[n]@) by {
                        if n < fresh@.len() - 1 {
                            assert(after[n] == before[n]);
                        }
                    }
                    assert forall|n: int| 0 <= n < sighted.len() implies (#[trigger] after[n])
                        == sighted[n] by {
                        assert(after[n] == before[n]);
                    }
                    assert forall|n: int| sighted.len() <= n < after.len() implies !reported(
                        seen,
                        (#[trigger] after[n]).serial,
                    ) && place(known, after[n].serial) < next by {
                        if n < after.len() - 1 {
                            assert(after[n] == before[n]);
                        }
                    }
                    assert forall|a: int, b: int|
                        sighted.len() <= a < b < after.len() implies place(
                        known,
                        (#[trigger] after[a]).serial,
                    ) < place(known, (#[trigger] after[b]).serial) by {
                        assert(after[a] == before[a]);
                        if b < after.len() - 1 {
                            assert(after[b] == before[b]);
                        }
                    }
                }
            } else {
                proof {
                    assert forall|y: Seq<char>| #[trigger]
                        knows(before, y) <==> (reported(seen, y) || exists|j: int|
                            kept_before(known, next, j, y)) by {
                        if exists|j: int| kept_before(known, here, j, y) {
                            let j = choose|j: int| kept_before(known, here, j, y);
                            assert(kept_before(known, next, j, y));
                        }
                        if exists|j: int| kept_before(known, next, j, y) {
                            let j = choose|j: int| kept_before(known, next, j, y);
                            if j < i {
                                assert(kept_before(known, here, j, y));
                            }
                        }
                    }
                }
            }
            i = i + 1;
        }
        let list = copy_of(&fresh);
        proof {
            let after = device_views(fresh@);
            assert forall|serial: Seq<char>| #[trigger]
                lookup(after, serial) == after_refresh(known, seen, now, serial) by {
                if knows(after, serial) {
                    let c = choose|c: int| at(after, c, serial);
                    assert(at(after, c, serial));
                    assert(after[c] == fresh@[c]@);
                } else {
                    if knows(known, serial) {
                        let c = choose|c: int| at(known, c, serial);
                        assert(at(known, c, serial));
                        if known[c].state != ConnectionState::Missing {
                            assert(kept_before(known, i as int, c, serial));
                        }
                    }
                }
            }
            assert forall|a: int, b: int| 0 <= a < b < after.len() implies #[trigger] in_order(
                after,
                known,
                seen,
                a,
                b,
            ) by {
                if b < sighted.len() {
                    assert(after[a] == sighted[a]);
                    assert(after[b] == sighted[b]);
                } else if a < sighted.len() {
                    assert(after[a] == sighted[a]);
                }
            }
        }
        self.devices = fresh;
        list
    }

    /// The device with this serial, if the registry holds it.
    pub fn get(&self, serial: &str) -> (r: Option<&Device>)
        requires
            self.wf(),
        ensures
            match r {
                Some(d) => lookup(self@, serial@) == Some(d@),
                None => lookup(self@, serial@) is None,
            },
    {
        match index_of(&self.devices, serial) {
            Some(i) => {
                proof {
                    lemma_lookup_at(self@, i as int, serial@);
                }
                Some(&self.devices[i])
            },
            None => None,
        }
    }

    /// The devices held, those that have gone missing among them.
    pub fn devices(&self) -> (r: &Vec<Device>)
        ensures
            device_views(r@) == self@,
    {
        &self.devices
    }

    /// Notes the API level of a device, once it has been asked for. Returns
    /// whether the registry holds the device; nothing changes where it does not.
    pub fn record_api_level(&mut self, serial: &str, level: u32) -> (held: bool)
        requires
            old(self).wf(),
        ensures
            final(self).wf(),
            held == knows(old(self)@, serial@),
            final(self)@.len() == old(self)@.len(),
            forall|i: int|
                0 <= i < old(self)@.len() ==> #[trigger] final(self)@[i] == if old(self)@[i].serial
                    == serial@ {
                    DeviceView {
                        serial: old(self)@[i].serial,
                        state: old(self)@[i].state,
                        api_level: Some(level),
                        last_seen: old(self)@[i].last_seen,
                    }
                } else {
                    old(self)@[i]
                },
    {
        match index_of(&self.devices, serial) {
            Some(i) => {
                let ghost before = self@;
                let d = &self.devices[i];
                let device = Device {
                    serial: d.serial.clone(),
                    state: d.state,
                    api_level: Some(level),
                    last_seen: d.last_seen,
                };
                self.devices.set(i, device);
                proof {
                    assert forall|j: int| 0 <= j < before.len() implies #[trigger] self@[j] == if before[j].serial
                        == serial@ {
                        DeviceView {
                            serial: before[j].serial,
                            state: before[j].state,
                            api_level: Some(level),
                            last_seen: before[j].last_seen,
                        }
                    } else {
                        before[j]
                    } by {
                        if j != i && before[j].serial == serial@ {
                            assert(at(before, j, serial@));
                            assert(at(before, i as int, serial@));
                        }
                    }
                }
                true
            },
            None => {
                proof {
                    assert forall|j: int| 0 <= j < self@.len() implies self@[j].serial != serial@ by {
                        if self@[j].serial == serial@ {
                            assert(at(self@, j, serial@));
                        }
                    }
                }
                false
            },
        }
    }
}

/// Reads one line of the bridge's device list; see [`sighting_of`].
pub fn parse_device_line(line: &str) -> (r: Option<Sighting>)
    ensures
        match r {
            Some(s) => sighting_of(line@) == Some(s@),
            None => sighting_of(line@) is None,
        },
{
    let chars = chars_of(line);
    let fields = split_text(&chars, '\t');
    assert(texts(fields@) == split(line@, '\t'));
    if fields.len() != 2 {
        return None;
    }
    assert(texts(fields@)[0] == fields@[0]@);
    assert(texts(fields@)[1] == fields@[1]@);
    if fields[0].as_str().unicode_len() == 0 {
        return None;
    }
    let word = fields[1].as_str();
    let state = if same_text(word, "device") {
        ConnectionState::Online
    } else if same_text(word, "offline") {
        ConnectionState::Offline
    } else if same_text(word, "unauthorized") {
        ConnectionState::Unauthorized
    } else {
        return None;
    };
    Some(Sighting { serial: fields[0].clone(), state })
}

/// Reads the bridge's device list, line by line; see [`sightings_of`].
pub fn read_devices(lines: &Vec<String>) -> (r: Vec<Sighting>)
    ensures
        sighting_views(r@) == sightings_of(texts(lines@)),
{
    let mut r: Vec<Sighting> = Vec::new();
    let mut i: usize = 0;
    assert(texts(lines@).take(0) == Seq::<Seq<char>>::empty());
    while i < lines.len()
        invariant
            i <= lines.len(),
            sighting_views(r@) == sightings_of(texts(lines@).take(i as int)),
        decreases lines.len() - i,
    {
        let ghost before = sighting_views(r@);
        assert(texts(lines@).take(i as int + 1).drop_last() == texts(lines@).take(i as int));
        assert(texts(lines@).take(i as int + 1).last() == lines@[i as int]@);
        match parse_device_line(lines[i].as_str()) {
            Some(s) => {
                let ghost sv = s@;
                r.push(s);
                assert(sighting_views(r@) == before.push(sv));
            },
            None => {},
        }
        i = i + 1;
    }
    assert(texts(lines@).take(i as int) == texts(lines@));
    r
}

/// Reads a device's API level from its answer; see [`api_level_of`].
pub fn parse_api_level(outcome: &CommandOutcome) -> (r: Option<u32>)
    ensures
        r == api_level_of(*outcome),
{
    match outcome {
        CommandOutcome::Completed(c) => {
            if c.stdout.len() > 0 {
                parse_number(c.stdout[0].as_str())
            } else {
                None
            }
        },
        CommandOutcome::Failed(_, _) => None,
    }
}

} // verus!
