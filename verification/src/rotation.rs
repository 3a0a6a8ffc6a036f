use vstd::prelude::*;
use vstd::arithmetic::div_mod::{lemma_mod_self_0, lemma_small_mod};
use crate::common::{has_sink, views, Device, DeviceView, SwitchError};

verus! {

/// The first index at or after `from` whose device has the sink identifier
/// `id`.
pub open spec fn position_from(devices: Seq<DeviceView>, id: Seq<char>, from: int) -> Option<int>
    decreases devices.len() - from,
{
    if from < 0 || from >= devices.len() {
        None
    } else if devices[from].sink_identifier == id {
        Some(from)
    } else {
        position_from(devices, id, from + 1)
    }
}

/// The index of the first device whose sink identifier is `id`.
pub open spec fn position_of(devices: Seq<DeviceView>, id: Seq<char>) -> Option<int> {
    position_from(devices, id, 0)
}

/// The index one step further in a cycle of `len` places.
pub open spec fn successor(i: int, len: int) -> int {
    (i + 1) % len
}

/// What `position_from` finds is the first match at or after `from`, and it
/// finds nothing only where nothing matches.
pub proof fn lemma_position_from(devices: Seq<DeviceView>, id: Seq<char>, from: int)
    requires
        0 <= from,
    ensures
        match position_from(devices, id, from) {
            Some(i) => {
                &&& from <= i < devices.len()
                &&& devices[i].sink_identifier == id
                &&& forall|j: int| from <= j < i ==> devices[j].sink_identifier != id
            },
            None => forall|j: int| from <= j < devices.len() ==> devices[j].sink_identifier != id,
        },
    decreases devices.len() - from,
{
    if from < devices.len() && devices[from].sink_identifier != id {
        lemma_position_from(devices, id, from + 1);
    }
}

/// A position is found exactly where some device has the sink identifier.
pub proof fn lemma_position_of_listed(devices: Seq<DeviceView>, id: Seq<char>)
    ensures
        position_of(devices, id) is Some <==> has_sink(devices, id),
{
    lemma_position_from(devices, id, 0);
}

/// One step from a place of a cycle leads to a place of the cycle: to the
/// following one, and from the last place to the first. In a cycle of one
/// place it leads back to that place.
pub proof fn lemma_successor(i: int, len: int)
    requires
        0 <= i < len,
    ensures
        0 <= successor(i, len) < len,
        i + 1 < len ==> successor(i, len) == i + 1,
        i + 1 == len ==> successor(i, len) == 0,
        len == 1 ==> successor(i, len) == i,
{
    if i + 1 < len {
        lemma_small_mod((i + 1) as nat, len as nat);
    } else {
        lemma_mod_self_0(len);
    }
}

/// The index of the device that is the current default sink.
pub fn position(devices: &[Device], current_sink_identifier: &str) -> (r: Option<usize>)
    ensures
        match r {
            Some(i) => i < devices.len() && position_of(views(devices@), current_sink_identifier@)
                == Some(i as int),
            None => position_of(views(devices@), current_sink_identifier@) is None,
        },
{
    let id = current_sink_identifier.to_owned();
    let ghost dv = views(devices@);
    let mut i: usize = 0;
    while i < devices.len()
        invariant
            i <= devices.len(),
            id@ == current_sink_identifier@,
            dv == views(devices@),
            position_of(dv, id@) == position_from(dv, id@, i as int),
        decreases devices.len() - i,
    {
        proof {
            assert(dv[i as int] == devices[i as int]@);
        }
        if devices[i].sink_name == id {
            return Some(i);
        }
        i += 1;
    }
    None
}

/// The device that is the current default sink.
pub fn current<'a>(devices: &'a [Device], current_sink_identifier: &str) -> (r: Result<
    &'a Device,
    SwitchError,
>)
    ensures
        match position_of(views(devices@), current_sink_identifier@) {
            Some(i) => r == Ok::<&Device, SwitchError>(&devices[i]),
            None => r == Err::<&Device, SwitchError>(SwitchError::NotFound),
        },
        r is Ok <==> has_sink(views(devices@), current_sink_identifier@),
{
    proof {
        lemma_position_of_listed(views(devices@), current_sink_identifier@);
    }
    match position(devices, current_sink_identifier) {
        Some(i) => Ok(&devices[i]),
        None => Err(SwitchError::NotFound),
    }
}

/// The device one step after the current default sink in the rotation, the
/// first device following the last.
pub fn next<'a>(devices: &'a [Device], current_sink_identifier: &str) -> (r: Result<
    &'a Device,
    SwitchError,
>)
    ensures
        match position_of(views(devices@), current_sink_identifier@) {
            Some(i) => r == Ok::<&Device, SwitchError>(
                &devices[successor(i, devices.len() as int)],
            ),
            None => r == Err::<&Device, SwitchError>(SwitchError::NotFound),
        },
        r is Ok <==> has_sink(views(devices@), current_sink_identifier@),
        devices.len() == 1 && r is Ok ==> r == Ok::<&Device, SwitchError>(&devices[0]),
{
    proof {
        lemma_position_of_listed(views(devices@), current_sink_identifier@);
    }
    match position(devices, current_sink_identifier) {
        Some(i) => {
            proof {
                lemma_successor(i as int, devices.len() as int);
            }
            if i == devices.len() - 1 {
                Ok(&devices[0])
            } else {
                Ok(&devices[i + 1])
            }
        },
        None => Err(SwitchError::NotFound),
    }
}

} // verus!
