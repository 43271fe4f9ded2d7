//! The set of monitored devices.
//!
//! The set is fixed at discovery: one probe per candidate index, and one
//! device for each probe that found one, in the order of the indices.
//! From then on the set says what to wait on, takes in what the reads
//! delivered, and at shutdown hands out every open descriptor once.

use vstd::prelude::*;
use vstd::slice::slice_to_vec;
use crate::codec::{decode, decode_spec, EventRecord, RecordLayout};
use crate::device::{
    accept_live, accept_model, close_model, has_summary, is_open, DeviceHandle, DeviceModel,
};
use crate::report::{digits, discovery_text, live_text, push_digits, summary_text};
use crate::tracker::{fresh, valid};

verus! {

/// Number of candidate indices that discovery tries.
pub const CANDIDATES: usize = 50;

/// What opening the device at one candidate index gave.
pub enum Probe {
    /// No device could be opened at the index.
    Absent,
    /// A device was opened.
    Opened {
        /// Descriptor that opening gave; a negative one counts as a failure.
        descriptor: i32,
        /// Name that the device reported, or the blank buffer where the
        /// query failed.
        name: Vec<u8>,
    },
}

/// Whether a probe found a device.
pub open spec fn found(probe: Probe) -> bool {
    probe matches Probe::Opened { descriptor, .. } && descriptor >= 0
}

/// The device that the probe at `index` found.
pub open spec fn device_of(index: nat, probe: Probe) -> DeviceModel {
    DeviceModel {
        index,
        descriptor: probe->descriptor,
        name: probe->name@,
        tracker: fresh(64),
    }
}

/// The devices that the probes found, in the order of their indices.
pub open spec fn registered(probes: Seq<Probe>) -> Seq<DeviceModel>
    decreases probes.len(),
{
    if probes.len() == 0 {
        Seq::empty()
    } else {
        let earlier = registered(probes.drop_last());
        if found(probes.last()) {
            earlier.push(device_of((probes.len() - 1) as nat, probes.last()))
        } else {
            earlier
        }
    }
}

/// The probes that discovery looks at: those of the first `CANDIDATES`
/// indices.
pub open spec fn scanned(probes: Seq<Probe>) -> Seq<Probe> {
    if probes.len() <= CANDIDATES {
        probes
    } else {
        probes.take(CANDIDATES as int)
    }
}

/// Path of the device file at candidate `index`.
pub open spec fn path_text(index: nat) -> Seq<char> {
    "/dev/input/event"@ + digits(index)
}

/// The lines that announce the devices, in the order of the devices.
pub open spec fn announcements(devices: Seq<DeviceModel>) -> Seq<Seq<char>> {
    devices.map_values(|m: DeviceModel| discovery_text(m.index, m.name))
}

/// Descriptors of the open devices, in the order of the devices.
pub open spec fn open_descriptors(devices: Seq<DeviceModel>) -> Seq<i32>
    decreases devices.len(),
{
    if devices.len() == 0 {
        Seq::empty()
    } else {
        let earlier = open_descriptors(devices.drop_last());
        if is_open(devices.last()) {
            earlier.push(devices.last().descriptor)
        } else {
            earlier
        }
    }
}

/// One more than the highest open descriptor; 0 where no device is open.
pub open spec fn bound_of(devices: Seq<DeviceModel>) -> int
    decreases devices.len(),
{
    if devices.len() == 0 {
        0
    } else {
        let earlier = bound_of(devices.drop_last());
        if is_open(devices.last()) && devices.last().descriptor + 1 > earlier {
            devices.last().descriptor + 1
        } else {
            earlier
        }
    }
}

/// Whether a device is to be read: it is open and its descriptor is among
/// the ready ones.
pub open spec fn is_due(m: DeviceModel, ready: Seq<i32>) -> bool {
    is_open(m) && ready.contains(m.descriptor)
}

/// Positions of the devices that are to be read, ascending.
pub open spec fn due(devices: Seq<DeviceModel>, ready: Seq<i32>) -> Seq<int>
    decreases devices.len(),
{
    if devices.len() == 0 {
        Seq::empty()
    } else {
        let earlier = due(devices.drop_last(), ready);
        if is_due(devices.last(), ready) {
            earlier.push(devices.len() - 1)
        } else {
            earlier
        }
    }
}

/// Whether the device at `position` takes in what a read delivered: the
/// position exists and the device's sample counter is not exhausted.
pub open spec fn takes(devices: Seq<DeviceModel>, position: int) -> bool {
    0 <= position < devices.len() && devices[position].tracker.count < u64::MAX
}

/// The devices after the read for the device at `position` decoded to
/// `record`.
pub open spec fn dispatch_model(
    devices: Seq<DeviceModel>,
    position: int,
    record: Option<EventRecord>,
) -> Seq<DeviceModel> {
    match record {
        Some(r) if takes(devices, position) => devices.update(
            position,
            accept_model(devices[position], r),
        ),
        _ => devices,
    }
}

/// The frequency that the read contributes, if it contributes one.
pub open spec fn dispatch_live(
    devices: Seq<DeviceModel>,
    position: int,
    record: Option<EventRecord>,
) -> Option<int> {
    match record {
        Some(r) if takes(devices, position) => accept_live(devices[position], r),
        _ => None,
    }
}

/// The lines that sum the devices up at shutdown, in the order of the
/// devices.
pub open spec fn summaries(devices: Seq<DeviceModel>) -> Seq<Seq<char>>
    decreases devices.len(),
{
    if devices.len() == 0 {
        Seq::empty()
    } else {
        let earlier = summaries(devices.drop_last());
        let last = devices.last();
        if has_summary(last) {
            earlier.push(summary_text(last.name, last.tracker.average))
        } else {
            earlier
        }
    }
}

/// The devices after all of them were closed.
pub open spec fn all_closed(devices: Seq<DeviceModel>) -> Seq<DeviceModel> {
    devices.map_values(|m: DeviceModel| close_model(m))
}

/// The texts of a list of lines.
pub open spec fn texts(lines: Seq<String>) -> Seq<Seq<char>> {
    lines.map_values(|line: String| line@)
}

/// The positions of a list, as integers.
pub open spec fn positions(list: Seq<usize>) -> Seq<int> {
    list.map_values(|p: usize| p as int)
}

/// The set of monitored devices, in discovery order.
pub struct DeviceSet {
    devices: Vec<DeviceHandle>,
}

impl View for DeviceSet {
    type V = Seq<DeviceModel>;

    closed spec fn view(&self) -> Seq<DeviceModel> {
        self.devices@.map_values(|device: DeviceHandle| device@)
    }
}

/// Path of the device file that discovery tries at candidate `index`:
/// `/dev/input/event<index>`.
pub fn candidate_path(index: usize) -> (path: String)
    ensures
        path@ == path_text(index as nat),
{
    let mut path = String::from_str("/dev/input/event");
    push_digits(&mut path, index as u64);
    path
}

/// Whether `fd` is among the ready descriptors.
fn is_ready(ready: &Vec<i32>, fd: i32) -> (yes: bool)
    ensures
        yes == ready@.contains(fd),
{
    let mut at: usize = 0;
    while at < ready.len()
        invariant
            at <= ready.len(),
            forall|i: int| 0 <= i < at ==> ready@[i] != fd,
        decreases ready.len() - at,
    {
        if ready[at] == fd {
            return true;
        }
        at = at + 1;
    }
    false
}

impl DeviceSet {
    /// Validity of a set: that of the tracker of each of its devices.
    pub open spec fn wf(&self) -> bool {
        forall|i: int| 0 <= i < self@.len() ==> valid((#[trigger] self@[i]).tracker)
    }

    /// Registers the devices that discovery found.
    ///
    /// `probes[i]` is what opening the device at candidate index `i` gave.
    /// Only the first `CANDIDATES` probes are looked at. Each probe that
    /// opened a device registers it, with a tracker that has seen no
    /// event; the others are passed over. The devices stand in the order
    /// of their indices.
    pub fn discover(probes: &Vec<Probe>) -> (set: DeviceSet)
        ensures
            set.wf(),
            set@ == registered(scanned(probes@)),
    {
        let limit = if probes.len() <= CANDIDATES {
            probes.len()
        } else {
            CANDIDATES
        };
        let ghost looked = scanned(probes@);
        let mut devices: Vec<DeviceHandle> = Vec::new();
        let mut index: usize = 0;
        while index < limit
            invariant
                index <= limit,
                limit == looked.len(),
                limit <= probes@.len(),
                looked == scanned(probes@),
                forall|i: int| 0 <= i < devices@.len() ==> (#[trigger] devices@[i]).wf(),
                devices@.map_values(|device: DeviceHandle| device@) == registered(
                    looked.take(index as int),
                ),
            decreases limit - index,
        {
            proof {
                let next = looked.take(index + 1);
                assert(next.drop_last() =~= looked.take(index as int));
            }
            match &probes[index] {
                Probe::Opened { descriptor, name } => {
                    if *descriptor >= 0 {
                        let device = DeviceHandle::opened(
                            index,
                            *descriptor,
                            slice_to_vec(name.as_slice()),
                        );
                        let ghost before = devices@;
                        devices.push(device);
                        assert(devices@.map_values(|device: DeviceHandle| device@)
                            =~= before.map_values(|device: DeviceHandle| device@).push(device@));
                    }
                },
                Probe::Absent => {},
            }
            index = index + 1;
        }
        assert(looked.take(limit as int) =~= looked);
        DeviceSet { devices }
    }

    /// Number of devices in the set.
    pub fn len(&self) -> (n: usize)
        ensures
            n == self@.len(),
    {
        self.devices.len()
    }

    /// The device at `position`, if there is one.
    pub fn device(&self, position: usize) -> (device: Option<&DeviceHandle>)
        ensures
            device is Some <==> position < self@.len(),
            device matches Some(d) ==> d@ == self@[position as int],
    {
        if position < self.devices.len() {
            Some(&self.devices[position])
        } else {
            None
        }
    }

    /// The lines that announce the devices, one for each device in
    /// discovery order.
    pub fn discovery_lines(&self) -> (lines: Vec<String>)
        ensures
            texts(lines@) == announcements(self@),
    {
        let mut lines: Vec<String> = Vec::new();
        let mut at: usize = 0;
        while at < self.devices.len()
            invariant
                at <= self.devices.len(),
                self.devices@.len() == self@.len(),
                texts(lines@) == announcements(self@.take(at as int)),
            decreases self.devices.len() - at,
        {
            let line = self.devices[at].discovery_line();
            lines.push(line);
            assert(announcements(self@.take(at + 1)) =~= announcements(self@.take(at as int)).push(
                line@,
            ));
            at = at + 1;
        }
        lines
    }

    /// The descriptors to wait on: those of the open devices, in
    /// discovery order.
    pub fn wait_set(&self) -> (fds: Vec<i32>)
        ensures
            fds@ == open_descriptors(self@),
    {
        let mut fds: Vec<i32> = Vec::new();
        let mut at: usize = 0;
        while at < self.devices.len()
            invariant
                at <= self.devices.len(),
                self.devices@.len() == self@.len(),
                fds@ == open_descriptors(self@.take(at as int)),
            decreases self.devices.len() - at,
        {
            proof {
                let next = self@.take(at + 1);
                assert(next.drop_last() =~= self@.take(at as int));
            }
            if self.devices[at].is_active() {
                fds.push(self.devices[at].descriptor());
            }
            at = at + 1;
        }
        assert(self@.take(at as int) =~= self@);
        fds
    }

    /// The bound to hand to the wait: one more than the highest open
    /// descriptor, or 0 where no device is open.
    pub fn wait_bound(&self) -> (bound: i64)
        ensures
            bound == bound_of(self@),
    {
        let mut bound: i64 = 0;
        let mut at: usize = 0;
        while at < self.devices.len()
            invariant
                at <= self.devices.len(),
                self.devices@.len() == self@.len(),
                bound == bound_of(self@.take(at as int)),
                0 <= bound <= i32::MAX + 1,
            decreases self.devices.len() - at,
        {
            proof {
                let next = self@.take(at + 1);
                assert(next.drop_last() =~= self@.take(at as int));
            }
            if self.devices[at].is_active() {
                let above = self.devices[at].descriptor() as i64 + 1;
                if above > bound {
                    bound = above;
                }
            }
            at = at + 1;
        }
        assert(self@.take(at as int) =~= self@);
        bound
    }

    /// The positions of the devices to read after a wait that reported
    /// the descriptors in `ready`: the open devices whose descriptor is
    /// among them, in discovery order.
    pub fn read_plan(&self, ready: &Vec<i32>) -> (plan: Vec<usize>)
        ensures
            positions(plan@) == due(self@, ready@),
    {
        let mut plan: Vec<usize> = Vec::new();
        let mut at: usize = 0;
        while at < self.devices.len()
            invariant
                at <= self.devices.len(),
                self.devices@.len() == self@.len(),
                positions(plan@) == due(self@.take(at as int), ready@),
            decreases self.devices.len() - at,
        {
            proof {
                let next = self@.take(at + 1);
                assert(next.drop_last() =~= self@.take(at as int));
            }
            if self.devices[at].is_active() && is_ready(ready, self.devices[at].descriptor()) {
                plan.push(at);
            }
            at = at + 1;
        }
        assert(self@.take(at as int) =~= self@);
        plan
    }

    /// Takes in what one read for the device at `position` delivered.
    ///
    /// The read is decoded; a rejected read changes nothing. The record
    /// goes to the device, which drops it where it reports motion and
    /// hands its timestamp to the tracker otherwise. The frequency that
    /// the record yields, if any, is returned. A position outside the set,
    /// or a device whose sample counter is exhausted, changes nothing.
    pub fn dispatch(
        &mut self,
        position: usize,
        buffer: &[u8],
        bytes_read: isize,
        layout: RecordLayout,
    ) -> (live: Option<i32>)
        requires
            old(self).wf(),
        ensures
            final(self).wf(),
            final(self)@ == dispatch_model(
                old(self)@,
                position as int,
                decode_spec(buffer@, bytes_read as int, layout),
            ),
            live matches Some(hz) ==> dispatch_live(
                old(self)@,
                position as int,
                decode_spec(buffer@, bytes_read as int, layout),
            ) == Some(hz as int),
            live is None ==> dispatch_live(
                old(self)@,
                position as int,
                decode_spec(buffer@, bytes_read as int, layout),
            ) is None,
    {
        if position >= self.devices.len() {
            return None;
        }
        if !self.devices[position].has_room() {
            return None;
        }
        match decode(buffer, bytes_read, layout) {
            None => None,
            Some(record) => {
                let live = self.devices[position].accept(&record);
                assert(self@ =~= old(self)@.update(
                    position as int,
                    accept_model(old(self)@[position as int], record),
                ));
                live
            },
        }
    }

    /// The line that reports an accepted event of the device at
    /// `position`: none unless reporting is switched on and the event
    /// yielded a frequency.
    pub fn live_line(&self, position: usize, verbose: bool, latest: Option<i32>) -> (line: Option<
        String,
    >)
        ensures
            line is Some <==> (verbose && latest is Some && position < self@.len()),
            line matches Some(text) ==> text@ == live_text(
                self@[position as int].name,
                latest->0 as int,
                self@[position as int].tracker.average,
            ),
    {
        if !verbose || position >= self.devices.len() {
            return None;
        }
        match latest {
            Some(hz) => Some(self.devices[position].live_line(hz)),
            None => None,
        }
    }

    /// The lines that sum the devices up at shutdown: one for each open
    /// device whose average is not zero, in discovery order.
    pub fn summary(&self) -> (lines: Vec<String>)
        ensures
            texts(lines@) == summaries(self@),
    {
        let mut lines: Vec<String> = Vec::new();
        let mut at: usize = 0;
        while at < self.devices.len()
            invariant
                at <= self.devices.len(),
                self.devices@.len() == self@.len(),
                texts(lines@) == summaries(self@.take(at as int)),
            decreases self.devices.len() - at,
        {
            proof {
                let next = self@.take(at + 1);
                assert(next.drop_last() =~= self@.take(at as int));
            }
            match self.devices[at].summary() {
                Some(line) => lines.push(line),
                None => {},
            }
            at = at + 1;
        }
        assert(self@.take(at as int) =~= self@);
        lines
    }

    /// Gives up every descriptor: returns those of the open devices, in
    /// discovery order, for the caller to close, and marks every device
    /// as not open.
    pub fn close_all(&mut self) -> (closed: Vec<i32>)
        ensures
            old(self).wf() ==> final(self).wf(),
            closed@ == open_descriptors(old(self)@),
            final(self)@ == all_closed(old(self)@),
    {
        let mut closed: Vec<i32> = Vec::new();
        let mut at: usize = 0;
        let ghost start = self.devices@;
        while at < self.devices.len()
            invariant
                at <= self.devices.len(),
                start == old(self).devices@,
                self.devices@.len() == start.len(),
                closed@ == open_descriptors(old(self)@.take(at as int)),
                forall|i: int|
                    0 <= i < start.len() ==> (#[trigger] self.devices@[i]).wf() == start[i].wf(),
                forall|i: int|
                    0 <= i < at ==> (#[trigger] self.devices@[i])@ == close_model(start[i]@),
                forall|i: int| at <= i < start.len() ==> #[trigger] self.devices@[i] == start[i],
            decreases self.devices.len() - at,
        {
            proof {
                let next = old(self)@.take(at + 1);
                assert(next.drop_last() =~= old(self)@.take(at as int));
            }
            match self.devices[at].close() {
                Some(fd) => closed.push(fd),
                None => {},
            }
            at = at + 1;
        }
        assert(old(self)@.take(at as int) =~= old(self)@);
        assert(self@ =~= all_closed(old(self)@));
        closed
    }
}

} // verus!
