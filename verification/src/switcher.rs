use vstd::prelude::*;
use crate::command_line::Action;
use crate::common::{views, Device, DeviceView, SwitchError};
use crate::reconcile::{reconcile, reconciled};
use crate::rotation::{current, next, position_of, successor};

verus! {

/// What a run does once the devices are known.
#[derive(Debug, Clone, PartialEq, Eq)]
pub enum Outcome {
    /// Print the label of the current device.
    Show(String),
    /// Make this device the default sink.
    Switch(Device),
}

/// Mathematical model of an [`Outcome`].
pub enum OutcomeView {
    Show(Seq<char>),
    Switch(DeviceView),
}

impl View for Outcome {
    type V = OutcomeView;

    open spec fn view(&self) -> OutcomeView {
        match *self {
            Outcome::Show(name) => OutcomeView::Show(name@),
            Outcome::Switch(device) => OutcomeView::Switch(device@),
        }
    }
}

/// What a run is to do: with an empty rotation set it fails for want of a
/// matching sink, with the default sink outside the rotation set it fails as
/// not found; else it shows the current device's label or switches to the
/// device one step further in the rotation.
pub open spec fn planned(
    action: Action,
    live: Seq<DeviceView>,
    overrides: Seq<DeviceView>,
    current_sink: Seq<char>,
) -> Result<OutcomeView, SwitchError> {
    let devices = reconciled(live, overrides);
    if devices.len() == 0 {
        Err(SwitchError::NoMatchingSinks)
    } else {
        match position_of(devices, current_sink) {
            None => Err(SwitchError::NotFound),
            Some(i) => match action {
                Action::View => Ok(OutcomeView::Show(devices[i].display_name)),
                Action::Change => Ok(
                    OutcomeView::Switch(devices[successor(i, devices.len() as int)]),
                ),
            },
        }
    }
}

/// Decides what a run does, from the action asked for, the live devices,
/// the overrides and the current default sink.
pub fn plan(action: Action, live: Vec<Device>, overrides: &[Device], current_sink: &str) -> (r:
    Result<Outcome, SwitchError>)
    ensures
        match r {
            Ok(outcome) => planned(action, views(live@), views(overrides@), current_sink@) == Ok::<
                OutcomeView,
                SwitchError,
            >(outcome@),
            Err(e) => planned(action, views(live@), views(overrides@), current_sink@) == Err::<
                OutcomeView,
                SwitchError,
            >(e),
        },
{
    let devices = match reconcile(live, overrides) {
        Ok(devices) => devices,
        Err(e) => {
            return Err(e);
        },
    };
    let ghost dv = views(devices@);
    let ghost at = position_of(dv, current_sink@);
    // The current device must be in rotation whatever the action.
    let shown = match current(devices.as_slice(), current_sink) {
        Ok(device) => device,
        Err(e) => {
            return Err(e);
        },
    };
    proof {
        crate::rotation::lemma_position_from(dv, current_sink@, 0);
        crate::rotation::lemma_successor(at->0, dv.len() as int);
        assert(dv[at->0] == devices[at->0]@);
        assert(dv[successor(at->0, dv.len() as int)] == devices[successor(
            at->0,
            dv.len() as int,
        )]@);
    }
    match action {
        Action::View => Ok(Outcome::Show(shown.device_name.clone())),
        Action::Change => match next(devices.as_slice(), current_sink) {
            Ok(device) => Ok(Outcome::Switch(device.duplicate())),
            Err(e) => Err(e),
        },
    }
}

} // verus!
