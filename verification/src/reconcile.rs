use vstd::prelude::*;
use crate::common::{distinct_sinks, has_sink, views, Device, DeviceView, SwitchError};
use crate::text::{contains_str, is_substring};

verus! {

/// The index of the last override whose sink identifier occurs in `id`, if
/// there is one.
pub open spec fn last_match(overrides: Seq<DeviceView>, id: Seq<char>) -> Option<int>
    decreases overrides.len(),
{
    if overrides.len() == 0 {
        None
    } else if is_substring(overrides.last().sink_identifier, id) {
        Some(overrides.len() - 1)
    } else {
        last_match(overrides.drop_last(), id)
    }
}

/// The device under the label of the last override that matches it; unchanged
/// where none matches.
pub open spec fn renamed(d: DeviceView, overrides: Seq<DeviceView>) -> DeviceView {
    match last_match(overrides, d.sink_identifier) {
        Some(k) => DeviceView {
            display_name: overrides[k].display_name,
            sink_identifier: d.sink_identifier,
        },
        None => d,
    }
}

/// The devices of `live` that some override matches, in the order of `live`.
pub open spec fn matched(live: Seq<DeviceView>, overrides: Seq<DeviceView>) -> Seq<DeviceView>
    decreases live.len(),
{
    if live.len() == 0 {
        Seq::empty()
    } else if last_match(overrides, live.last().sink_identifier) is Some {
        matched(live.drop_last(), overrides).push(live.last())
    } else {
        matched(live.drop_last(), overrides)
    }
}

/// Every device of `live` under the label that the overrides give it.
pub open spec fn relabelled(live: Seq<DeviceView>, overrides: Seq<DeviceView>) -> Seq<DeviceView> {
    Seq::new(live.len(), |i: int| renamed(live[i], overrides))
}

/// The rotation set: with no overrides the live devices as they are, else
/// the matched ones under their overriding labels.
pub open spec fn reconciled(live: Seq<DeviceView>, overrides: Seq<DeviceView>) -> Seq<DeviceView> {
    if overrides.len() == 0 {
        live
    } else {
        matched(relabelled(live, overrides), overrides)
    }
}

/// Some override's sink identifier occurs in `id`.
pub open spec fn some_override_matches(overrides: Seq<DeviceView>, id: Seq<char>) -> bool {
    exists|k: int|
        0 <= k < overrides.len() && #[trigger] is_substring(overrides[k].sink_identifier, id)
}

/// `last_match` finds the matching override of highest index, and finds
/// nothing exactly where no override matches.
pub proof fn lemma_last_match(overrides: Seq<DeviceView>, id: Seq<char>)
    ensures
        match last_match(overrides, id) {
            Some(k) => {
                &&& 0 <= k < overrides.len()
                &&& is_substring(overrides[k].sink_identifier, id)
                &&& forall|j: int|
                    k < j < overrides.len() ==> !is_substring(overrides[j].sink_identifier, id)
            },
            None => !some_override_matches(overrides, id),
        },
    decreases overrides.len(),
{
    if overrides.len() > 0 && !is_substring(overrides.last().sink_identifier, id) {
        let front = overrides.drop_last();
        lemma_last_match(front, id);
        match last_match(front, id) {
            Some(k) => {
                assert(overrides[k] == front[k]);
                assert forall|j: int| k < j < overrides.len() implies !is_substring(
                    overrides[j].sink_identifier,
                    id,
                ) by {
                    if j < front.len() {
                        assert(overrides[j] == front[j]);
                    }
                }
            },
            None => {
                assert forall|j: int| 0 <= j < overrides.len() implies !is_substring(
                    #[trigger] overrides[j].sink_identifier,
                    id,
                ) by {
                    if j < front.len() {
                        assert(overrides[j] == front[j]);
                    }
                }
            },
        }
    }
}

/// Relabelling changes no sink identifier and no position.
pub proof fn lemma_relabelled_keeps_sinks(live: Seq<DeviceView>, overrides: Seq<DeviceView>)
    ensures
        relabelled(live, overrides).len() == live.len(),
        forall|i: int|
            0 <= i < live.len() ==> (#[trigger] relabelled(live, overrides)[i]).sink_identifier
                == live[i].sink_identifier,
{
}

/// `i` is one of `picks`.
pub open spec fn picked(picks: Seq<int>, i: int) -> bool {
    exists|j: int| 0 <= j < picks.len() && #[trigger] picks[j] == i
}

/// Each device kept by `matched` stands in `live` and is matched by some
/// override, every matched device of `live` is kept, and the kept devices
/// keep the order they have in `live`: `picks` gives for each kept device its
/// index in `live`.
pub proof fn lemma_matched_is_selection(live: Seq<DeviceView>, overrides: Seq<DeviceView>) -> (picks:
    Seq<int>)
    ensures
        picks.len() == matched(live, overrides).len(),
        picks.len() <= live.len(),
        forall|j: int|
            0 <= j < picks.len() ==> 0 <= #[trigger] picks[j] < live.len() && matched(
                live,
                overrides,
            )[j] == live[picks[j]] && some_override_matches(
                overrides,
                live[picks[j]].sink_identifier,
            ),
        forall|j: int, k: int| 0 <= j < k < picks.len() ==> picks[j] < picks[k],
        forall|i: int|
            0 <= i < live.len() && some_override_matches(
                overrides,
                (#[trigger] live[i]).sink_identifier,
            ) ==> picked(picks, i),
    decreases live.len(),
{
    if live.len() == 0 {
        Seq::empty()
    } else {
        let front = live.drop_last();
        let last = live.len() - 1;
        let before = lemma_matched_is_selection(front, overrides);
        lemma_last_match(overrides, live.last().sink_identifier);
        assert forall|j: int| 0 <= j < before.len() implies live[#[trigger] before[j]]
            == front[before[j]] by {}
        let picks = if last_match(overrides, live.last().sink_identifier) is Some {
            before.push(last)
        } else {
            before
        };
        assert forall|i: int|
            0 <= i < live.len() && some_override_matches(
                overrides,
                (#[trigger] live[i]).sink_identifier,
            ) implies picked(picks, i) by {
            if i < last {
                assert(front[i] == live[i]);
                assert(picked(before, i));
                let j = choose|j: int| 0 <= j < before.len() && #[trigger] before[j] == i;
                assert(picks[j] == i);
            } else {
                assert(picks[picks.len() - 1] == i);
            }
        }
        picks
    }
}

/// With no overrides the rotation set is the live list itself: the same
/// devices, under the same names, in the same order.
pub proof fn lemma_reconciled_without_overrides(live: Seq<DeviceView>, overrides: Seq<DeviceView>)
    requires
        overrides.len() == 0,
    ensures
        reconciled(live, overrides) == live,
{
}

/// Where every live sink is matched by some override, the rotation set has
/// as many devices as the live list: each live device, relabelled.
pub proof fn lemma_reconciled_keeps_all_matched(live: Seq<DeviceView>, overrides: Seq<DeviceView>)
    requires
        forall|i: int|
            0 <= i < live.len() ==> some_override_matches(
                overrides,
                (#[trigger] live[i]).sink_identifier,
            ),
    ensures
        reconciled(live, overrides).len() == live.len(),
        overrides.len() > 0 ==> reconciled(live, overrides) == relabelled(live, overrides),
{
    if overrides.len() > 0 {
        let named = relabelled(live, overrides);
        let picks = lemma_matched_is_selection(named, overrides);
        assert forall|i: int| 0 <= i < named.len() implies picked(picks, i) by {
            assert(named[i].sink_identifier == live[i].sink_identifier);
        }
        lemma_increasing_cover(picks, named.len() as int);
        assert forall|j: int| 0 <= j < named.len() implies matched(named, overrides)[j]
            == named[j] by {
            assert(picks[j] == j);
        }
        assert(matched(named, overrides) =~= named);
    }
}

/// Where overrides are given and none of them matches any live sink, the
/// rotation set is empty.
pub proof fn lemma_reconciled_empty_without_match(
    live: Seq<DeviceView>,
    overrides: Seq<DeviceView>,
)
    requires
        overrides.len() > 0,
        forall|i: int|
            0 <= i < live.len() ==> !some_override_matches(
                overrides,
                (#[trigger] live[i]).sink_identifier,
            ),
    ensures
        reconciled(live, overrides).len() == 0,
{
    let named = relabelled(live, overrides);
    let picks = lemma_matched_is_selection(named, overrides);
    if picks.len() > 0 {
        let i = picks[0];
        assert(named[i].sink_identifier == live[i].sink_identifier);
    }
}

/// The rotation set is drawn from the live list: each of its devices carries
/// the sink identifier of a live device and, where overrides are given, is
/// matched by one of them; and live devices with different sink identifiers
/// give a rotation set in which no two devices share one.
pub proof fn lemma_reconciled_from_live(live: Seq<DeviceView>, overrides: Seq<DeviceView>)
    ensures
        reconciled(live, overrides).len() <= live.len(),
        forall|j: int|
            0 <= j < reconciled(live, overrides).len() ==> has_sink(
                live,
                (#[trigger] reconciled(live, overrides)[j]).sink_identifier,
            ),
        overrides.len() > 0 ==> forall|j: int|
            0 <= j < reconciled(live, overrides).len() ==> some_override_matches(
                overrides,
                (#[trigger] reconciled(live, overrides)[j]).sink_identifier,
            ),
        distinct_sinks(live) ==> distinct_sinks(reconciled(live, overrides)),
{
    let out = reconciled(live, overrides);
    if overrides.len() > 0 {
        let named = relabelled(live, overrides);
        let picks = lemma_matched_is_selection(named, overrides);
        assert forall|j: int| 0 <= j < out.len() implies has_sink(
            live,
            (#[trigger] out[j]).sink_identifier,
        ) && some_override_matches(overrides, out[j].sink_identifier) by {
            let i = picks[j];
            assert(out[j] == named[i]);
            assert(named[i].sink_identifier == live[i].sink_identifier);
        }
        if distinct_sinks(live) {
            assert forall|j: int, k: int| 0 <= j < k < out.len() implies out[j].sink_identifier
                != out[k].sink_identifier by {
                assert(picks[j] < picks[k]);
                assert(out[j] == named[picks[j]]);
                assert(out[k] == named[picks[k]]);
                assert(named[picks[j]].sink_identifier == live[picks[j]].sink_identifier);
                assert(named[picks[k]].sink_identifier == live[picks[k]].sink_identifier);
            }
        }
    } else {
        assert forall|j: int| 0 <= j < out.len() implies has_sink(
            live,
            (#[trigger] out[j]).sink_identifier,
        ) by {
            assert(live[j].sink_identifier == out[j].sink_identifier);
        }
    }
}

/// A strictly increasing sequence of indices below `n` that holds every
/// index below `n` is `0, 1, .., n - 1`.
proof fn lemma_increasing_cover(picks: Seq<int>, n: int)
    requires
        0 <= n,
        picks.len() <= n,
        forall|j: int| 0 <= j < picks.len() ==> 0 <= #[trigger] picks[j] < n,
        forall|j: int, k: int| 0 <= j < k < picks.len() ==> picks[j] < picks[k],
        forall|i: int| 0 <= i < n ==> picked(picks, i),
    ensures
        picks.len() == n,
        forall|j: int| 0 <= j < n ==> #[trigger] picks[j] == j,
    decreases n,
{
    if n > 0 {
        let top = picks.len() - 1;
        assert(picked(picks, n - 1));
        let at = choose|j: int| 0 <= j < picks.len() && #[trigger] picks[j] == n - 1;
        if at < top {
            assert(picks[at] < picks[top]);
        }
        assert(picks[top] == n - 1);
        let front = picks.drop_last();
        assert forall|i: int| 0 <= i < n - 1 implies picked(front, i) by {
            assert(picked(picks, i));
            let j = choose|j: int| 0 <= j < picks.len() && #[trigger] picks[j] == i;
            assert(front[j] == i);
        }
        assert forall|j: int| 0 <= j < front.len() implies 0 <= #[trigger] front[j] < n - 1 by {
            assert(picks[j] < picks[top]);
        }
        lemma_increasing_cover(front, n - 1);
        assert forall|j: int| 0 <= j < n implies #[trigger] picks[j] == j by {
            if j < n - 1 {
                assert(front[j] == j);
            }
        }
    }
}

/// The index of the last override matching `sink_name`.
pub fn find_last_match(overrides: &[Device], sink_name: &str) -> (r: Option<usize>)
    ensures
        match r {
            Some(k) => k < overrides.len() && last_match(views(overrides@), sink_name@) == Some(
                k as int,
            ),
            None => last_match(views(overrides@), sink_name@) is None,
        },
{
    let ghost ov = views(overrides@);
    let mut found: Option<usize> = None;
    let mut k: usize = 0;
    while k < overrides.len()
        invariant
            k <= overrides.len(),
            ov == views(overrides@),
            match found {
                Some(j) => j < k && last_match(ov.take(k as int), sink_name@) == Some(j as int),
                None => last_match(ov.take(k as int), sink_name@) is None,
            },
        decreases overrides.len() - k,
    {
        proof {
            assert(ov.take(k + 1).drop_last() =~= ov.take(k as int));
            assert(ov.take(k + 1).last() == overrides[k as int]@);
        }
        if contains_str(sink_name, overrides[k].sink_name.as_str()) {
            found = Some(k);
        }
        k += 1;
    }
    proof {
        assert(ov.take(k as int) =~= ov);
    }
    found
}

/// Gives every device the label of the last override that matches it.
pub fn rename_devices(available_devices: &mut Vec<Device>, devices: &[Device])
    ensures
        views(final(available_devices)@) == relabelled(
            views(old(available_devices)@),
            views(devices@),
        ),
{
    let ghost before = views(available_devices@);
    let ghost ov = views(devices@);
    let mut out: Vec<Device> = Vec::new();
    let mut i: usize = 0;
    while i < available_devices.len()
        invariant
            i <= available_devices.len(),
            before == views(available_devices@),
            ov == views(devices@),
            out.len() == i,
            views(out@) == relabelled(before.take(i as int), ov),
        decreases available_devices.len() - i,
    {
        let d = &available_devices[i];
        let named = match find_last_match(devices, d.sink_name.as_str()) {
            Some(k) => Device {
                device_name: devices[k].device_name.clone(),
                sink_name: d.sink_name.clone(),
            },
            None => d.duplicate(),
        };
        let ghost prev = views(out@);
        proof {
            assert(before[i as int] == d@);
            assert(named@ == renamed(d@, ov));
        }
        out.push(named);
        proof {
            assert forall|j: int| 0 <= j < i + 1 implies views(out@)[j] == relabelled(
                before.take(i + 1),
                ov,
            )[j] by {
                if j < i {
                    assert(views(out@)[j] == prev[j]);
                }
            }
            assert(views(out@) =~= relabelled(before.take(i + 1), ov));
        }
        i += 1;
    }
    proof {
        assert(before.take(i as int) =~= before);
    }
    *available_devices = out;
}

/// Drops every device that no entry of `devices` matches.
pub fn filter_unavailable_devices(available_devices: &mut Vec<Device>, devices: &[Device])
    ensures
        views(final(available_devices)@) == matched(
            views(old(available_devices)@),
            views(devices@),
        ),
{
    let ghost before = views(available_devices@);
    let ghost ov = views(devices@);
    let mut out: Vec<Device> = Vec::new();
    let mut i: usize = 0;
    while i < available_devices.len()
        invariant
            i <= available_devices.len(),
            before == views(available_devices@),
            ov == views(devices@),
            views(out@) == matched(before.take(i as int), ov),
        decreases available_devices.len() - i,
    {
        let d = &available_devices[i];
        proof {
            assert(before.take(i + 1).drop_last() =~= before.take(i as int));
            assert(before.take(i + 1).last() == d@);
        }
        if find_last_match(devices, d.sink_name.as_str()).is_some() {
            let kept = d.duplicate();
            out.push(kept);
            proof {
                assert(views(out@) =~= matched(before.take(i as int), ov).push(d@));
            }
        }
        i += 1;
    }
    proof {
        assert(before.take(i as int) =~= before);
    }
    *available_devices = out;
}

/// Merges the live devices with the overrides into the rotation set, and
/// fails where that set is empty.
pub fn reconcile(live: Vec<Device>, overrides: &[Device]) -> (r: Result<Vec<Device>, SwitchError>)
    ensures
        match r {
            Ok(devices) => {
                &&& devices.len() > 0
                &&& views(devices@) == reconciled(views(live@), views(overrides@))
            },
            Err(e) => {
                &&& e == SwitchError::NoMatchingSinks
                &&& reconciled(views(live@), views(overrides@)).len() == 0
            },
        },
        overrides.len() == 0 && live.len() > 0 ==> r == Ok::<Vec<Device>, SwitchError>(live),
{
    let mut devices = live;
    if overrides.len() > 0 {
        rename_devices(&mut devices, overrides);
        filter_unavailable_devices(&mut devices, overrides);
    }
    if devices.len() == 0 {
        Err(SwitchError::NoMatchingSinks)
    } else {
        Ok(devices)
    }
}

} // verus!
