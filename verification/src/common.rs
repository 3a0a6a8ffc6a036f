use vstd::prelude::*;

verus! {

/// The name under which the application keeps its configuration.
pub const APP_NAME: &'static str = "audio_output_switcher";

/// Mathematical model of a [`Device`]: both strings as sequences of characters.
pub struct DeviceView {
    pub display_name: Seq<char>,
    pub sink_identifier: Seq<char>,
}

/// An audio output: the label shown to the user and the audio server's
/// identifier of the sink.
#[derive(Debug, Clone, PartialEq, Eq)]
pub struct Device {
    pub device_name: String,
    pub sink_name: String,
}

impl View for Device {
    type V = DeviceView;

    open spec fn view(&self) -> DeviceView {
        DeviceView { display_name: self.device_name@, sink_identifier: self.sink_name@ }
    }
}

/// The models of a sequence of devices, element by element.
pub open spec fn views(devices: Seq<Device>) -> Seq<DeviceView> {
    Seq::new(devices.len(), |i: int| devices[i]@)
}

impl Default for Device {
    /// The placeholder entry.
    fn default() -> (d: Device)
        ensures
            d@.display_name.len() == 0,
            d@.sink_identifier.len() == 0,
    {
        Device::placeholder()
    }
}

/// Some device of `devices` has the sink identifier `id`.
pub open spec fn has_sink(devices: Seq<DeviceView>, id: Seq<char>) -> bool {
    exists|i: int| 0 <= i < devices.len() && (#[trigger] devices[i]).sink_identifier == id
}

/// No two devices share a sink identifier.
pub open spec fn distinct_sinks(devices: Seq<DeviceView>) -> bool {
    forall|i: int, j: int|
        0 <= i < j < devices.len() ==> devices[i].sink_identifier != devices[j].sink_identifier
}

impl Device {
    /// A device with the given label and sink identifier.
    pub fn new(device_name: &str, sink_name: &str) -> (d: Device)
        ensures
            d@.display_name == device_name@,
            d@.sink_identifier == sink_name@,
    {
        Device { device_name: device_name.to_owned(), sink_name: sink_name.to_owned() }
    }

    /// The placeholder entry: both strings empty.
    pub fn placeholder() -> (d: Device)
        ensures
            d@.display_name.len() == 0,
            d@.sink_identifier.len() == 0,
    {
        Device { device_name: String::new(), sink_name: String::new() }
    }

    /// A copy with equal strings.
    pub fn duplicate(&self) -> (d: Device)
        ensures
            d == *self,
    {
        Device { device_name: self.device_name.clone(), sink_name: self.sink_name.clone() }
    }
}

/// Why a run ends without viewing or switching a device.
#[derive(Debug, Clone, Copy, PartialEq, Eq, Structural)]
pub enum SwitchError {
    /// A required executable is not on the search path.
    Unavailable,
    /// Neither or both of the two actions were asked for.
    InvalidArguments,
    /// The path given for the override file is not a regular file.
    NotAFile,
    /// The override file cannot be read as a list of devices.
    InvalidConfig,
    /// The override file holds an empty list.
    EmptyConfig,
    /// No live sink matches any override entry.
    NoMatchingSinks,
    /// The current default sink is not among the devices in rotation.
    NotFound,
    /// A sink identifier lacks the delimiters that the short name is cut at.
    MalformedSinkIdentifier,
    /// The audio server's control tool failed or printed nothing usable.
    ExternalToolFailure,
}

} // verus!
