//! One monitored device: its descriptor, its name and its tracker.

use vstd::prelude::*;
use crate::codec::{timestamp_of, EventRecord, EV_ABS, EV_REL};
use crate::fill::zeros;
use crate::report::{
    discovery_line, discovery_text, live_line, live_text, summary_line, summary_text,
};
use crate::tracker::{fresh, live_value, observe_model, valid, FrequencyTracker, TrackerModel};

verus! {

/// Number of bytes that a device name can take.
pub const NAME_CAPACITY: usize = 128;

/// Descriptor of a device that is not open.
pub const NOT_OPEN: i32 = -1;

/// Mathematical state of a device.
pub struct DeviceModel {
    /// Candidate index at which the device was found.
    pub index: nat,
    /// Descriptor of the open device; negative where it is not open.
    pub descriptor: i32,
    /// Name of the device, as the device reports it.
    pub name: Seq<u8>,
    /// State of the device's tracker.
    pub tracker: TrackerModel,
}

/// Whether the device is open.
pub open spec fn is_open(m: DeviceModel) -> bool {
    m.descriptor >= 0
}

/// Whether a record counts towards the frequency of a device: the device
/// is open and the record reports no motion.
pub open spec fn counts(m: DeviceModel, record: EventRecord) -> bool {
    is_open(m) && record.kind != EV_REL && record.kind != EV_ABS
}

/// Timestamp of a record in milliseconds.
pub open spec fn stamp_of(record: EventRecord) -> int {
    timestamp_of(record.seconds as int, record.microseconds as int)
}

/// State of a device after a record arrived from it.
pub open spec fn accept_model(m: DeviceModel, record: EventRecord) -> DeviceModel {
    if counts(m, record) {
        DeviceModel { tracker: observe_model(m.tracker, stamp_of(record)), ..m }
    } else {
        m
    }
}

/// The frequency that a record contributes, if it contributes one.
pub open spec fn accept_live(m: DeviceModel, record: EventRecord) -> Option<int> {
    if counts(m, record) {
        live_value(m.tracker, stamp_of(record))
    } else {
        None
    }
}

/// State of a device after it was closed.
pub open spec fn close_model(m: DeviceModel) -> DeviceModel {
    DeviceModel { descriptor: NOT_OPEN, ..m }
}

/// Whether a device is summed up at shutdown: it is open and its average
/// is not zero.
pub open spec fn has_summary(m: DeviceModel) -> bool {
    is_open(m) && m.tracker.average != 0
}

/// One monitored device.
pub struct DeviceHandle {
    index: usize,
    descriptor: i32,
    name: Vec<u8>,
    tracker: FrequencyTracker,
}

impl View for DeviceHandle {
    type V = DeviceModel;

    closed spec fn view(&self) -> DeviceModel {
        DeviceModel {
            index: self.index as nat,
            descriptor: self.descriptor,
            name: self.name@,
            tracker: self.tracker@,
        }
    }
}

impl DeviceHandle {
    /// Validity of a device: that of its tracker.
    pub open spec fn wf(&self) -> bool {
        valid(self@.tracker)
    }

    /// The device found at candidate `index`, with the descriptor that
    /// opening it gave and the name it reported. Its tracker has seen no
    /// event.
    pub fn opened(index: usize, descriptor: i32, name: Vec<u8>) -> (device: DeviceHandle)
        ensures
            device.wf(),
            device@ == (DeviceModel {
                index: index as nat,
                descriptor,
                name: name@,
                tracker: fresh(64),
            }),
    {
        DeviceHandle { index, descriptor, name, tracker: FrequencyTracker::default() }
    }

    /// Candidate index at which the device was found.
    pub fn index(&self) -> (index: usize)
        ensures
            index == self@.index,
    {
        self.index
    }

    /// Descriptor of the device; negative where it is not open.
    pub fn descriptor(&self) -> (descriptor: i32)
        ensures
            descriptor == self@.descriptor,
    {
        self.descriptor
    }

    /// Whether the device is open.
    pub fn is_active(&self) -> (active: bool)
        ensures
            active == is_open(self@),
    {
        self.descriptor >= 0
    }

    /// Name of the device, as the device reports it.
    pub fn name(&self) -> (name: &Vec<u8>)
        ensures
            name@ == self@.name,
    {
        &self.name
    }

    /// The device's tracker.
    pub fn tracker(&self) -> (tracker: &FrequencyTracker)
        ensures
            tracker@ == self@.tracker,
    {
        &self.tracker
    }

    /// Average frequency of the device, in Hz.
    pub fn average_hz(&self) -> (hz: i32)
        ensures
            hz == self@.tracker.average,
    {
        self.tracker.average_hz()
    }

    /// Whether the device can take in one more sample.
    pub fn has_room(&self) -> (room: bool)
        ensures
            room == (self@.tracker.count < u64::MAX),
    {
        !self.tracker.is_exhausted()
    }

    /// Takes in a record that arrived from the device.
    ///
    /// A record that reports motion, or one for a device that is not open,
    /// changes nothing. Any other is handed to the tracker with its
    /// timestamp; the frequency it yields, if any, is returned.
    pub fn accept(&mut self, record: &EventRecord) -> (live: Option<i32>)
        requires
            old(self).wf(),
            old(self)@.tracker.count < u64::MAX,
        ensures
            final(self).wf(),
            final(self)@ == accept_model(old(self)@, *record),
            live matches Some(hz) ==> accept_live(old(self)@, *record) == Some(hz as int),
            live is None ==> accept_live(old(self)@, *record) is None,
    {
        if !self.is_active() || record.is_movement() {
            return None;
        }
        self.tracker.observe(record.timestamp_ms())
    }

    /// Gives up the descriptor: returns it for the caller to close, and
    /// marks the device as not open. Returns nothing where the device was
    /// not open.
    pub fn close(&mut self) -> (descriptor: Option<i32>)
        ensures
            final(self).wf() == old(self).wf(),
            final(self)@ == close_model(old(self)@),
            descriptor is Some <==> is_open(old(self)@),
            descriptor matches Some(fd) ==> fd == old(self)@.descriptor,
    {
        if self.descriptor >= 0 {
            let descriptor = self.descriptor;
            self.descriptor = NOT_OPEN;
            Some(descriptor)
        } else {
            self.descriptor = NOT_OPEN;
            None
        }
    }

    /// The line that announces the device at discovery.
    pub fn discovery_line(&self) -> (line: String)
        ensures
            line@ == discovery_text(self@.index, self@.name),
    {
        discovery_line(self.index, self.name.as_slice())
    }

    /// The line that reports an accepted event with frequency `latest`.
    pub fn live_line(&self, latest: i32) -> (line: String)
        ensures
            line@ == live_text(self@.name, latest as int, self@.tracker.average),
    {
        live_line(self.name.as_slice(), latest, self.tracker.average_hz())
    }

    /// The line that sums the device up at shutdown, where it is open and
    /// its average is not zero.
    pub fn summary(&self) -> (line: Option<String>)
        ensures
            line is Some <==> has_summary(self@),
            line matches Some(text) ==> text@ == summary_text(self@.name, self@.tracker.average),
    {
        let average = self.tracker.average_hz();
        if self.descriptor >= 0 && average != 0 {
            Some(summary_line(self.name.as_slice(), average))
        } else {
            None
        }
    }
}

impl Default for DeviceHandle {
    /// A device that is not open: candidate index 0, a name of
    /// `NAME_CAPACITY` zero bytes and a tracker that has seen no event.
    fn default() -> (device: DeviceHandle)
        ensures
            device.wf(),
            device@ == (DeviceModel {
                index: 0,
                descriptor: NOT_OPEN,
                name: Seq::new(NAME_CAPACITY as nat, |i: int| 0u8),
                tracker: fresh(64),
            }),
    {
        let name: Vec<u8> = zeros(NAME_CAPACITY);
        assert(name@ =~= Seq::new(NAME_CAPACITY as nat, |i: int| 0u8));
        DeviceHandle { index: 0, descriptor: NOT_OPEN, name, tracker: FrequencyTracker::default() }
    }
}

} // verus!
