use audio_output_switcher::command_line::Action;
use audio_output_switcher::common::{Device, SwitchError};
use audio_output_switcher::rotation::{current, next, position};
use audio_output_switcher::switcher::{plan, Outcome};

const PCI: &str = "alsa_output.pci-0000_00-1f.3.analog-stereo";
const USB: &str = "alsa_output.usb-Vendor_Product-00.analog-stereo";

fn three() -> Vec<Device> {
    vec![Device::new("a", "sink_a"), Device::new("b", "sink_b"), Device::new("c", "sink_c")]
}

#[test]
fn next_on_single_device_returns_it() {
    let devices = vec![Device::new("only", "sink_only")];
    assert_eq!(next(&devices, "sink_only"), Ok(&devices[0]));
}

#[test]
fn next_wraps_from_last_to_first() {
    let devices = three();
    assert_eq!(next(&devices, "sink_c"), Ok(&devices[0]));
}

#[test]
fn next_steps_forward() {
    let devices = three();
    assert_eq!(next(&devices, "sink_a"), Ok(&devices[1]));
    assert_eq!(next(&devices, "sink_b"), Ok(&devices[2]));
}

#[test]
fn current_returns_matching_device() {
    let devices = three();
    assert_eq!(current(&devices, "sink_b"), Ok(&devices[1]));
}

#[test]
fn absent_sink_is_not_found() {
    let devices = three();
    assert_eq!(current(&devices, "sink_d"), Err(SwitchError::NotFound));
    assert_eq!(next(&devices, "sink_d"), Err(SwitchError::NotFound));
    assert_eq!(current(&devices, "sink"), Err(SwitchError::NotFound));
    assert_eq!(next(&[], "sink_a"), Err(SwitchError::NotFound));
    assert_eq!(current(&[], ""), Err(SwitchError::NotFound));
}

#[test]
fn position_is_first_match() {
    let devices = vec![Device::new("a", "s"), Device::new("b", "t"), Device::new("c", "t")];
    assert_eq!(position(&devices, "t"), Some(1));
    assert_eq!(position(&devices, "s"), Some(0));
    assert_eq!(position(&devices, "u"), None);
}

#[test]
fn scenario_without_override_file() {
    let live = vec![Device::new("0000", PCI), Device::new("Vendor", USB)];
    assert_eq!(
        plan(Action::View, live.clone(), &[], PCI),
        Ok(Outcome::Show("0000".to_string()))
    );
    assert_eq!(
        plan(Action::Change, live.clone(), &[], PCI),
        Ok(Outcome::Switch(Device::new("Vendor", USB)))
    );
    assert_eq!(
        plan(Action::Change, live, &[], USB),
        Ok(Outcome::Switch(Device::new("0000", PCI)))
    );
}

#[test]
fn scenario_with_single_override() {
    let live = vec![Device::new("0000", PCI), Device::new("Vendor", USB)];
    let overrides = vec![Device::new("Speakers", "pci-0000_00-1f")];
    assert_eq!(
        plan(Action::View, live.clone(), &overrides, PCI),
        Ok(Outcome::Show("Speakers".to_string()))
    );
    assert_eq!(
        plan(Action::Change, live.clone(), &overrides, PCI),
        Ok(Outcome::Switch(Device::new("Speakers", PCI)))
    );
    assert_eq!(plan(Action::View, live, &overrides, USB), Err(SwitchError::NotFound));
}

#[test]
fn plan_fails_without_matching_sinks() {
    let live = vec![Device::new("0000", PCI)];
    let overrides = vec![Device::new("Screen", "hdmi")];
    assert_eq!(plan(Action::View, live, &overrides, PCI), Err(SwitchError::NoMatchingSinks));
    assert_eq!(plan(Action::Change, Vec::new(), &[], PCI), Err(SwitchError::NoMatchingSinks));
}
