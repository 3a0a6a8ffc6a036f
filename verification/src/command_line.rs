use vstd::prelude::*;
use crate::common::{Device, SwitchError};

verus! {

/// What a run is asked to do.
#[derive(Debug, Clone, Copy, PartialEq, Eq, Structural)]
pub enum Action {
    /// Make the next device of the rotation the default sink.
    Change,
    /// Show the label of the current device.
    View,
}

/// The command line, as parsed.
#[derive(Debug, Clone)]
pub struct Cli {
    /// Change current sink to the next available one.
    pub change: bool,
    /// View the current sink.
    pub view: bool,
    /// List currently available devices.
    pub list: bool,
    /// A devices file that overrides the default names.
    pub devices_file: Option<String>,
}

impl Cli {
    /// The action asked for, where exactly one of the two is.
    pub open spec fn spec_action(&self) -> Option<Action> {
        if self.change && !self.view {
            Some(Action::Change)
        } else if self.view && !self.change {
            Some(Action::View)
        } else {
            None
        }
    }

    /// The action of this run: `change` or `view`, of which exactly one
    /// must be set.
    pub fn action(&self) -> (r: Result<Action, SwitchError>)
        ensures
            r == match self.spec_action() {
                Some(a) => Ok::<Action, SwitchError>(a),
                None => Err::<Action, SwitchError>(SwitchError::InvalidArguments),
            },
    {
        if self.change && !self.view {
            Ok(Action::Change)
        } else if self.view && !self.change {
            Ok(Action::View)
        } else {
            Err(SwitchError::InvalidArguments)
        }
    }
}

/// Judges a devices file given on the command line from what was found at
/// its path: whether it is a regular file and, if it could be read as a list
/// of devices, that list. The file is accepted where it holds at least one
/// device.
pub fn is_jason_config(is_file: bool, devices: Option<Vec<Device>>) -> (r: Result<
    Vec<Device>,
    SwitchError,
>)
    ensures
        r == if !is_file {
            Err::<Vec<Device>, SwitchError>(SwitchError::NotAFile)
        } else {
            match devices {
                None => Err::<Vec<Device>, SwitchError>(SwitchError::InvalidConfig),
                Some(list) => if list.len() == 0 {
                    Err::<Vec<Device>, SwitchError>(SwitchError::EmptyConfig)
                } else {
                    Ok::<Vec<Device>, SwitchError>(list)
                },
            }
        },
{
    if !is_file {
        return Err(SwitchError::NotAFile);
    }
    match devices {
        None => Err(SwitchError::InvalidConfig),
        Some(list) => {
            if list.len() == 0 {
                Err(SwitchError::EmptyConfig)
            } else {
                Ok(list)
            }
        },
    }
}

} // verus!
