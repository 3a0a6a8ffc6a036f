use vstd::prelude::*;
use vstd::string::StrSliceExecFns;
use crate::common::{views, Device, DeviceView, SwitchError};

verus! {

/// The entry that a fresh configuration holds: both strings empty.
pub open spec fn placeholder_view() -> DeviceView {
    DeviceView { display_name: Seq::empty(), sink_identifier: Seq::empty() }
}

/// The configuration stands for "no override": it is a single entry whose
/// sink identifier is empty.
pub open spec fn is_placeholder_config(config: Seq<DeviceView>) -> bool {
    config.len() == 1 && config[0].sink_identifier.len() == 0
}

/// The override list that a configuration stands for: none for the
/// placeholder, else the configuration itself.
pub open spec fn overrides_of(config: Seq<DeviceView>) -> Seq<DeviceView> {
    if is_placeholder_config(config) {
        Seq::empty()
    } else {
        config
    }
}

/// The configuration of one placeholder stands for no overrides, and every
/// configuration that is not a single entry with an empty sink identifier is
/// its own override list.
pub proof fn lemma_placeholder_means_no_override(config: Seq<DeviceView>)
    ensures
        config == seq![placeholder_view()] ==> overrides_of(config).len() == 0,
        !is_placeholder_config(config) ==> overrides_of(config) == config,
{
    if config == seq![placeholder_view()] {
        assert(config[0] == placeholder_view());
    }
}

/// The configuration that is written where none exists: one placeholder.
pub fn default_config() -> (config: Vec<Device>)
    ensures
        views(config@) == seq![placeholder_view()],
        is_placeholder_config(views(config@)),
        overrides_of(views(config@)).len() == 0,
{
    let mut config: Vec<Device> = Vec::new();
    config.push(Device::placeholder());
    proof {
        assert(config[0]@.display_name =~= Seq::<char>::empty());
        assert(config[0]@.sink_identifier =~= Seq::<char>::empty());
        assert(views(config@) =~= seq![placeholder_view()]);
    }
    config
}

/// The override list of the configuration found at the default location.
/// An empty configuration is an error; the placeholder gives no overrides;
/// any other configuration is the override list.
pub fn overrides_from_config(config: Vec<Device>) -> (r: Result<Vec<Device>, SwitchError>)
    ensures
        match r {
            Ok(overrides) => config.len() > 0 && views(overrides@) == overrides_of(views(config@)),
            Err(e) => e == SwitchError::EmptyConfig && config.len() == 0,
        },
{
    if config.len() == 0 {
        Err(SwitchError::EmptyConfig)
    } else if config.len() == 1 && config[0].sink_name.as_str().unicode_len() == 0 {
        let none: Vec<Device> = Vec::new();
        proof {
            assert(views(config@)[0] == config[0]@);
            assert(views(none@) =~= Seq::<DeviceView>::empty());
        }
        Ok(none)
    } else {
        proof {
            if config.len() == 1 {
                assert(views(config@)[0] == config[0]@);
            }
        }
        Ok(config)
    }
}

} // verus!
