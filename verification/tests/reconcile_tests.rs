use audio_output_switcher::common::{Device, SwitchError};
use audio_output_switcher::reconcile::{
    filter_unavailable_devices, find_last_match, reconcile, rename_devices,
};

const PCI: &str = "alsa_output.pci-0000_00-1f.3.analog-stereo";
const USB: &str = "alsa_output.usb-Vendor_Product-00.analog-stereo";

fn live() -> Vec<Device> {
    vec![Device::new("0000", PCI), Device::new("Vendor", USB)]
}

#[test]
fn reconcile_without_overrides_returns_live_list() {
    let out = reconcile(live(), &[]).unwrap();
    assert_eq!(out, live());
}

#[test]
fn reconcile_keeps_every_matched_device() {
    let overrides = vec![Device::new("Speakers", "pci-0000"), Device::new("Headset", "usb-")];
    let out = reconcile(live(), &overrides).unwrap();
    assert_eq!(out.len(), 2);
    assert_eq!(out[0], Device::new("Speakers", PCI));
    assert_eq!(out[1], Device::new("Headset", USB));
}

#[test]
fn reconcile_without_any_match_fails() {
    let overrides = vec![Device::new("Monitor", "hdmi")];
    assert_eq!(reconcile(live(), &overrides), Err(SwitchError::NoMatchingSinks));
}

#[test]
fn reconcile_of_no_live_devices_fails() {
    assert_eq!(reconcile(Vec::new(), &[]), Err(SwitchError::NoMatchingSinks));
    let overrides = vec![Device::new("Speakers", "pci")];
    assert_eq!(reconcile(Vec::new(), &overrides), Err(SwitchError::NoMatchingSinks));
}

#[test]
fn reconcile_drops_unmatched_and_keeps_order() {
    let mut devices = live();
    devices.push(Device::new("hdmi", "alsa_output.pci-0000_01-00.1.hdmi-stereo"));
    let overrides = vec![Device::new("Screen", "hdmi"), Device::new("Headset", "usb-Vendor")];
    let out = reconcile(devices, &overrides).unwrap();
    assert_eq!(
        out,
        vec![
            Device::new("Headset", USB),
            Device::new("Screen", "alsa_output.pci-0000_01-00.1.hdmi-stereo"),
        ]
    );
}

#[test]
fn reconcile_last_matching_override_wins() {
    let overrides = vec![
        Device::new("First", "alsa_output"),
        Device::new("Second", "pci"),
        Device::new("Third", "usb"),
    ];
    let out = reconcile(live(), &overrides).unwrap();
    assert_eq!(out[0].device_name, "Second");
    assert_eq!(out[1].device_name, "Third");
}

#[test]
fn reconcile_with_single_override_names_one_device() {
    let overrides = vec![Device::new("Speakers", "pci-0000_00-1f")];
    let out = reconcile(live(), &overrides).unwrap();
    assert_eq!(out, vec![Device::new("Speakers", PCI)]);
}

#[test]
fn reconcile_result_has_no_shared_sink() {
    let overrides = vec![Device::new("Any", "alsa")];
    let out = reconcile(live(), &overrides).unwrap();
    assert_eq!(out.len(), 2);
    assert_ne!(out[0].sink_name, out[1].sink_name);
}

#[test]
fn find_last_match_gives_highest_index() {
    let overrides = vec![
        Device::new("a", "pci"),
        Device::new("b", "usb"),
        Device::new("c", "0000_00"),
    ];
    assert_eq!(find_last_match(&overrides, PCI), Some(2));
    assert_eq!(find_last_match(&overrides, USB), Some(1));
    assert_eq!(find_last_match(&overrides, "bluez_output.AA"), None);
    assert_eq!(find_last_match(&[], PCI), None);
}

#[test]
fn rename_devices_keeps_unmatched_names() {
    let mut devices = live();
    rename_devices(&mut devices, &[Device::new("Speakers", "pci-")]);
    assert_eq!(devices, vec![Device::new("Speakers", PCI), Device::new("Vendor", USB)]);
}

#[test]
fn filter_unavailable_devices_keeps_matched_only() {
    let mut devices = live();
    filter_unavailable_devices(&mut devices, &[Device::new("Speakers", "usb-")]);
    assert_eq!(devices, vec![Device::new("Vendor", USB)]);
    let mut none = live();
    filter_unavailable_devices(&mut none, &[]);
    assert!(none.is_empty());
}

#[test]
fn empty_override_identifier_matches_every_sink() {
    let overrides = vec![Device::new("All", ""), Device::new("Other", "nothing")];
    let out = reconcile(live(), &overrides).unwrap();
    assert_eq!(out, vec![Device::new("All", PCI), Device::new("All", USB)]);
}
