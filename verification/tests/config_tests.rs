use audio_output_switcher::command_line::{is_jason_config, Action, Cli};
use audio_output_switcher::common::{Device, SwitchError};
use audio_output_switcher::config::{default_config, overrides_from_config};
use audio_output_switcher::exit_status::{exit_status, status_of_run, success_status};
use audio_output_switcher::reconcile::reconcile;

fn to_json(devices: &[Device]) -> String {
    let mut list = Vec::new();
    for d in devices {
        let mut entry = serde_json::Map::new();
        entry.insert("device_name".to_string(), serde_json::Value::String(d.device_name.clone()));
        entry.insert("sink_name".to_string(), serde_json::Value::String(d.sink_name.clone()));
        list.push(serde_json::Value::Object(entry));
    }
    serde_json::to_string(&serde_json::Value::Array(list)).unwrap()
}

fn from_json(text: &str) -> Vec<Device> {
    let value: serde_json::Value = serde_json::from_str(text).unwrap();
    let mut devices = Vec::new();
    for entry in value.as_array().unwrap() {
        devices.push(Device::new(
            entry["device_name"].as_str().unwrap(),
            entry["sink_name"].as_str().unwrap(),
        ));
    }
    devices
}

#[test]
fn default_config_is_one_placeholder() {
    assert_eq!(default_config(), vec![Device::new("", "")]);
    assert_eq!(Device::default(), Device::placeholder());
}

#[test]
fn default_config_round_trip_means_no_override() {
    let text = to_json(&default_config());
    assert_eq!(text, "[{\"device_name\":\"\",\"sink_name\":\"\"}]");
    let read = from_json(&text);
    assert_eq!(read, vec![Device::new("", "")]);
    assert_eq!(overrides_from_config(read), Ok(Vec::new()));
}

#[test]
fn override_file_scenario() {
    let overrides =
        from_json("[{\"device_name\":\"Speakers\",\"sink_name\":\"pci-0000_00-1f\"}]");
    let overrides = overrides_from_config(overrides).unwrap();
    let live = vec![
        Device::new("0000", "alsa_output.pci-0000_00-1f.3.analog-stereo"),
        Device::new("Vendor", "alsa_output.usb-Vendor_Product-00.analog-stereo"),
    ];
    let out = reconcile(live, &overrides).unwrap();
    assert_eq!(out.len(), 1);
    assert_eq!(out[0].device_name, "Speakers");
}

#[test]
fn empty_config_is_an_error() {
    assert_eq!(overrides_from_config(Vec::new()), Err(SwitchError::EmptyConfig));
}

#[test]
fn real_entries_are_the_override_list() {
    let one = vec![Device::new("Speakers", "pci")];
    assert_eq!(overrides_from_config(one.clone()), Ok(one));
    let named_placeholder = vec![Device::new("Speakers", "")];
    assert_eq!(overrides_from_config(named_placeholder), Ok(Vec::new()));
    let two = vec![Device::new("", ""), Device::new("", "")];
    assert_eq!(overrides_from_config(two.clone()), Ok(two));
}

#[test]
fn exit_statuses() {
    assert_eq!(success_status(), 0);
    assert_eq!(exit_status(SwitchError::Unavailable), 69);
    assert_eq!(exit_status(SwitchError::EmptyConfig), 66);
    assert_eq!(exit_status(SwitchError::NoMatchingSinks), 78);
    assert_eq!(exit_status(SwitchError::InvalidArguments), 2);
    assert_eq!(exit_status(SwitchError::NotAFile), 2);
    assert_eq!(exit_status(SwitchError::InvalidConfig), 1);
    assert_eq!(exit_status(SwitchError::NotFound), 1);
    assert_eq!(exit_status(SwitchError::MalformedSinkIdentifier), 1);
    assert_eq!(exit_status(SwitchError::ExternalToolFailure), 1);
    assert_eq!(status_of_run(Ok(())), 0);
    assert_eq!(status_of_run(Err(SwitchError::NoMatchingSinks)), 78);
}

#[test]
fn action_needs_exactly_one_flag() {
    let cli = |change: bool, view: bool| Cli { change, view, list: false, devices_file: None };
    assert_eq!(cli(true, false).action(), Ok(Action::Change));
    assert_eq!(cli(false, true).action(), Ok(Action::View));
    assert_eq!(cli(false, false).action(), Err(SwitchError::InvalidArguments));
    assert_eq!(cli(true, true).action(), Err(SwitchError::InvalidArguments));
}

#[test]
fn devices_file_must_be_a_file_with_devices() {
    let list = vec![Device::new("Speakers", "pci")];
    assert_eq!(is_jason_config(true, Some(list.clone())), Ok(list.clone()));
    assert_eq!(is_jason_config(false, Some(list)), Err(SwitchError::NotAFile));
    assert_eq!(is_jason_config(false, None), Err(SwitchError::NotAFile));
    assert_eq!(is_jason_config(true, None), Err(SwitchError::InvalidConfig));
    assert_eq!(is_jason_config(true, Some(Vec::new())), Err(SwitchError::EmptyConfig));
}
