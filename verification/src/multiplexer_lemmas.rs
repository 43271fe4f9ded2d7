//! What holds of a device set, whatever it holds.
//!
//! The functions of [`crate::multiplexer`] are stated over sequences of
//! device states. This module proves what those statements amount to:
//! that discovery and the wait set are exact, that reads are served in
//! order and touch one device only, that motion and bad reads are dropped,
//! and that a shutdown leaves nothing open.

use vstd::prelude::*;
use crate::codec::{decode_spec, EventRecord, RecordLayout, EV_ABS, EV_REL};
use crate::device::{is_open, DeviceModel};
use crate::multiplexer::{
    all_closed, bound_of, device_of, dispatch_live, dispatch_model, due, found, is_due,
    open_descriptors, registered, summaries, takes, Probe,
};

verus! {

/// Whether `fd` is the descriptor of an open device.
pub open spec fn holds_open(devices: Seq<DeviceModel>, fd: int) -> bool {
    exists|i: int| 0 <= i < devices.len() && is_open(#[trigger] devices[i]) && devices[i].descriptor == fd
}

/// Number of open devices.
pub open spec fn open_count(devices: Seq<DeviceModel>) -> nat
    decreases devices.len(),
{
    if devices.len() == 0 {
        0
    } else {
        let last: nat = if is_open(devices.last()) {
            1
        } else {
            0
        };
        open_count(devices.drop_last()) + last
    }
}

/// Discovery registers each device that a probe found, once and under the
/// index of its probe, and nothing else; the devices stand by ascending
/// index.
pub proof fn lemma_discovery_is_exact(probes: Seq<Probe>)
    ensures
        forall|j: int|
            0 <= j < registered(probes).len() ==> {
                let index = (#[trigger] registered(probes)[j]).index as int;
                &&& index < probes.len()
                &&& found(probes[index])
                &&& registered(probes)[j] == device_of(index as nat, probes[index])
            },
        forall|a: int, b: int|
            0 <= a < b < registered(probes).len() ==> (#[trigger] registered(probes)[a]).index < (
            #[trigger] registered(probes)[b]).index,
        forall|i: int|
            0 <= i < probes.len() && found(#[trigger] probes[i]) ==> exists|j: int|
                0 <= j < registered(probes).len() && (#[trigger] registered(probes)[j]).index == i,
    decreases probes.len(),
{
    if probes.len() > 0 {
        let earlier = probes.drop_last();
        lemma_discovery_is_exact(earlier);
        let devices = registered(probes);
        let before = registered(earlier);
        assert forall|i: int| 0 <= i < probes.len() && found(#[trigger] probes[i]) implies exists|
            j: int,
        |
            0 <= j < devices.len() && (#[trigger] devices[j]).index == i by {
            if i < earlier.len() {
                assert(found(earlier[i]));
                let j = choose|j: int| 0 <= j < before.len() && (#[trigger] before[j]).index == i;
                assert(devices[j].index == i);
            } else {
                assert(devices[devices.len() - 1].index == i);
            }
        }
    }
}

/// The descriptors to wait on, and to close at shutdown, are those of the
/// open devices: one entry for each open device, none for any other.
pub proof fn lemma_descriptors_are_exact(devices: Seq<DeviceModel>)
    ensures
        open_descriptors(devices).len() == open_count(devices),
        forall|i: int|
            0 <= i < devices.len() && is_open(#[trigger] devices[i]) ==> open_descriptors(
                devices,
            ).contains(devices[i].descriptor),
        forall|k: int|
            0 <= k < open_descriptors(devices).len() ==> holds_open(
                devices,
                #[trigger] open_descriptors(devices)[k] as int,
            ),
    decreases devices.len(),
{
    if devices.len() > 0 {
        let earlier = devices.drop_last();
        lemma_descriptors_are_exact(earlier);
        let fds = open_descriptors(devices);
        let before = open_descriptors(earlier);
        assert forall|i: int| 0 <= i < devices.len() && is_open(#[trigger] devices[i]) implies fds.contains(
            devices[i].descriptor,
        ) by {
            if i < earlier.len() {
                assert(is_open(earlier[i]));
                let k = choose|k: int| 0 <= k < before.len() && before[k] == earlier[i].descriptor;
                assert(fds[k] == devices[i].descriptor);
            } else {
                assert(fds[fds.len() - 1] == devices[i].descriptor);
            }
        }
        assert forall|k: int| 0 <= k < fds.len() implies holds_open(devices, #[trigger] fds[k] as int) by {
            if k < before.len() {
                assert(fds[k] == before[k]);
                assert(holds_open(earlier, before[k] as int));
                let i = choose|i: int|
                    0 <= i < earlier.len() && is_open(#[trigger] earlier[i]) && earlier[i].descriptor
                        == before[k];
                assert(devices[i] == earlier[i]);
            } else {
                assert(is_open(devices[devices.len() - 1]));
            }
        }
    }
}

/// After shutdown nothing is left to wait on, to read, to sum up or to
/// close again.
pub proof fn lemma_closed_set_is_idle(devices: Seq<DeviceModel>, ready: Seq<i32>)
    ensures
        open_descriptors(all_closed(devices)) == Seq::<i32>::empty(),
        bound_of(all_closed(devices)) == 0,
        due(all_closed(devices), ready) == Seq::<int>::empty(),
        summaries(all_closed(devices)) == Seq::<Seq<char>>::empty(),
        all_closed(all_closed(devices)) == all_closed(devices),
    decreases devices.len(),
{
    if devices.len() > 0 {
        lemma_closed_set_is_idle(devices.drop_last(), ready);
        assert(all_closed(devices).drop_last() =~= all_closed(devices.drop_last()));
    }
    assert(all_closed(all_closed(devices)) =~= all_closed(devices));
}

/// The bound of the wait is exact: it lies above every open descriptor,
/// and just above one of them unless no device is open.
pub proof fn lemma_bound_is_exact(devices: Seq<DeviceModel>)
    ensures
        forall|i: int|
            0 <= i < devices.len() && is_open(#[trigger] devices[i]) ==> devices[i].descriptor
                < bound_of(devices),
        bound_of(devices) == 0 <==> open_count(devices) == 0,
        bound_of(devices) != 0 ==> holds_open(devices, bound_of(devices) - 1),
    decreases devices.len(),
{
    if devices.len() > 0 {
        let earlier = devices.drop_last();
        lemma_bound_is_exact(earlier);
        assert forall|i: int| 0 <= i < devices.len() && is_open(#[trigger] devices[i]) implies devices[i].descriptor
            < bound_of(devices) by {
            if i < earlier.len() {
                assert(is_open(earlier[i]));
            }
        }
        if bound_of(devices) != 0 {
            if bound_of(devices) == bound_of(earlier) {
                let i = choose|i: int|
                    0 <= i < earlier.len() && is_open(#[trigger] earlier[i]) && earlier[i].descriptor
                        == bound_of(earlier) - 1;
                assert(devices[i] == earlier[i]);
            } else {
                assert(is_open(devices[devices.len() - 1]));
            }
        }
    }
}

/// The devices to read are served in discovery order: the plan holds the
/// position of each device that is due, once, and ascends.
pub proof fn lemma_plan_is_exact(devices: Seq<DeviceModel>, ready: Seq<i32>)
    ensures
        forall|k: int|
            0 <= k < due(devices, ready).len() ==> 0 <= #[trigger] due(devices, ready)[k]
                < devices.len() && is_due(devices[due(devices, ready)[k]], ready),
        forall|a: int, b: int|
            0 <= a < b < due(devices, ready).len() ==> #[trigger] due(devices, ready)[a]
                < #[trigger] due(devices, ready)[b],
        forall|i: int|
            0 <= i < devices.len() && is_due(#[trigger] devices[i], ready) ==> due(
                devices,
                ready,
            ).contains(i),
    decreases devices.len(),
{
    if devices.len() > 0 {
        let earlier = devices.drop_last();
        lemma_plan_is_exact(earlier, ready);
        let plan = due(devices, ready);
        let before = due(earlier, ready);
        assert forall|k: int| 0 <= k < plan.len() implies 0 <= #[trigger] plan[k] < devices.len()
            && is_due(devices[plan[k]], ready) by {
            if k < before.len() {
                assert(plan[k] == before[k]);
                assert(devices[before[k]] == earlier[before[k]]);
            }
        }
        assert forall|i: int| 0 <= i < devices.len() && is_due(#[trigger] devices[i], ready) implies plan.contains(
            i,
        ) by {
            if i < earlier.len() {
                assert(is_due(earlier[i], ready));
                let k = choose|k: int| 0 <= k < before.len() && before[k] == i;
                assert(plan[k] == i);
            } else {
                assert(plan[plan.len() - 1] == i);
            }
        }
    }
}

/// A device that is not open takes no part: its descriptor is not waited
/// on, it is not read, and what is dispatched to it changes nothing.
pub proof fn lemma_closed_device_is_skipped(
    devices: Seq<DeviceModel>,
    position: int,
    ready: Seq<i32>,
    record: Option<EventRecord>,
)
    requires
        0 <= position < devices.len(),
        !is_open(devices[position]),
    ensures
        !open_descriptors(devices).contains(devices[position].descriptor),
        !due(devices, ready).contains(position),
        dispatch_model(devices, position, record) == devices,
        dispatch_live(devices, position, record) is None,
{
    lemma_descriptors_are_exact(devices);
    lemma_plan_is_exact(devices, ready);
    if open_descriptors(devices).contains(devices[position].descriptor) {
        let k = choose|k: int|
            0 <= k < open_descriptors(devices).len() && open_descriptors(devices)[k]
                == devices[position].descriptor;
        assert(holds_open(devices, open_descriptors(devices)[k] as int));
    }
    if due(devices, ready).contains(position) {
        let k = choose|k: int|
            0 <= k < due(devices, ready).len() && due(devices, ready)[k] == position;
        assert(is_due(devices[due(devices, ready)[k]], ready));
    }
    assert(devices.update(position, devices[position]) =~= devices);
}

/// A record that reports motion changes no device and yields no frequency.
pub proof fn lemma_movement_is_dropped(
    devices: Seq<DeviceModel>,
    position: int,
    record: EventRecord,
)
    requires
        record.kind == EV_REL || record.kind == EV_ABS,
    ensures
        dispatch_model(devices, position, Some(record)) == devices,
        dispatch_live(devices, position, Some(record)) is None,
{
    if takes(devices, position) {
        assert(devices.update(position, devices[position]) =~= devices);
    }
}

/// A read that did not deliver exactly one record changes no device and
/// yields no frequency.
pub proof fn lemma_rejected_read_is_dropped(
    devices: Seq<DeviceModel>,
    position: int,
    bytes: Seq<u8>,
    bytes_read: int,
    layout: RecordLayout,
)
    requires
        bytes_read != layout.size() || bytes.len() != layout.size(),
    ensures
        dispatch_model(devices, position, decode_spec(bytes, bytes_read, layout)) == devices,
        dispatch_live(devices, position, decode_spec(bytes, bytes_read, layout)) is None,
{
}

/// A read touches only the tracker of the device it came from: every other
/// device, and that device's index, descriptor and name, stay as they
/// were.
pub proof fn lemma_dispatch_is_local(
    devices: Seq<DeviceModel>,
    position: int,
    record: Option<EventRecord>,
)
    ensures
        dispatch_model(devices, position, record).len() == devices.len(),
        forall|i: int|
            0 <= i < devices.len() && i != position ==> #[trigger] dispatch_model(
                devices,
                position,
                record,
            )[i] == devices[i],
        forall|i: int|
            0 <= i < devices.len() ==> {
                let after = #[trigger] dispatch_model(devices, position, record)[i];
                &&& after.index == devices[i].index
                &&& after.descriptor == devices[i].descriptor
                &&& after.name == devices[i].name
            },
{
}

} // verus!
