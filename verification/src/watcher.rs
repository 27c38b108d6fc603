use vstd::prelude::*;

use crate::config::{spec_same_layers, same_layers, ConfigError, FileConfig};
use crate::net::{in_ranges, spec_in_ranges, spec_ranges_wf, IpAddress, Network};

verus! {

/// A plugin's static preferred address lies outside the active ranges.
#[derive(Debug, Clone, Copy, PartialEq, Eq, Structural)]
pub struct PreferredRangeError {
    /// The plugin's position.
    pub plugin: usize,
    /// The IPv4 address (else the IPv6 one).
    pub ipv4: bool,
}

/// The first plugin, from `i` on, whose static preferred address (IPv4
/// first) lies outside the ranges.
pub open spec fn spec_preferred_range_error(
    config: FileConfig,
    ranges: Seq<Network>,
    i: int,
) -> Option<PreferredRangeError>
    decreases config.plugins@.len() - i,
{
    if i < 0 || i >= config.plugins@.len() {
        None
    } else {
        let p = config.plugins@[i].preferred;
        if p.ipv4 matches Some(a) && !spec_in_ranges(ranges, IpAddress::V4(a)) {
            Some(PreferredRangeError { plugin: i as usize, ipv4: true })
        } else if p.ipv6 matches Some(a) && !spec_in_ranges(ranges, IpAddress::V6(a)) {
            Some(PreferredRangeError { plugin: i as usize, ipv4: false })
        } else {
            spec_preferred_range_error(config, ranges, i + 1)
        }
    }
}

/// Every static preferred address lies in the active ranges.
pub fn validate_preferred_ranges(config: &FileConfig, ranges: &[Network]) -> (r: Result<
    (),
    PreferredRangeError,
>)
    requires
        spec_ranges_wf(ranges@),
    ensures
        r matches Err(e) ==> spec_preferred_range_error(*config, ranges@, 0) == Some(e),
        r is Ok <==> spec_preferred_range_error(*config, ranges@, 0) is None,
{
    let mut i: usize = 0;
    while i < config.plugins.len()
        invariant
            i <= config.plugins@.len(),
            spec_ranges_wf(ranges@),
            spec_preferred_range_error(*config, ranges@, 0) == spec_preferred_range_error(
                *config,
                ranges@,
                i as int,
            ),
        decreases config.plugins@.len() - i,
    {
        let p = config.plugins[i].preferred;
        match p.ipv4 {
            Some(a) => {
                if !in_ranges(ranges, IpAddress::V4(a)) {
                    return Err(PreferredRangeError { plugin: i, ipv4: true });
                }
            },
            None => {},
        }
        match p.ipv6 {
            Some(a) => {
                if !in_ranges(ranges, IpAddress::V6(a)) {
                    return Err(PreferredRangeError { plugin: i, ipv4: false });
                }
            },
            None => {},
        }
        i += 1;
    }
    Ok(())
}

/// Why a reload was refused; the active settings stay.
#[derive(Debug, Clone, Copy, PartialEq, Eq, Structural)]
pub enum ReloadError {
    /// The saved configuration is invalid.
    Invalid(ConfigError),
    /// It is invalid with the listener that stays bound.
    InvalidWithBoundListener(ConfigError),
    /// A static preferred address lies outside the active ranges.
    Preferred(PreferredRangeError),
}

/// What a reload applies.
pub struct ReloadPlan {
    /// The configuration to activate, with the bound listener.
    pub config: FileConfig,
    /// The saved listener differs from the bound one, which stays until a restart.
    pub listener_restart_needed: bool,
    /// The layers changed, so cached DoH clients are dropped.
    pub layers_changed: bool,
}

/// Checks a saved configuration before it replaces the active one: valid as
/// saved, valid again with the listener that stays bound (a listener change
/// needs a restart, and a new local layer must not forward to the old
/// socket), and with static preferred addresses inside the active ranges.
pub fn prepare_reload(current: &FileConfig, next: FileConfig, ranges: &[Network]) -> (r: Result<
    ReloadPlan,
    ReloadError,
>)
    requires
        spec_ranges_wf(ranges@),
    ensures
        match r {
            Ok(plan) => {
                &&& next.spec_valid()
                &&& plan.listener_restart_needed == (next.listener != current.listener)
                &&& plan.layers_changed == !spec_same_layers(next.layers@, current.layers@)
                &&& plan.config == (FileConfig { listener: current.listener, ..next })
                &&& plan.config.spec_valid()
                &&& spec_preferred_range_error(plan.config, ranges@, 0) is None
            },
            Err(ReloadError::Invalid(e)) => next.spec_error() == Some(e),
            Err(ReloadError::InvalidWithBoundListener(e)) => next.spec_valid() && (FileConfig {
                listener: current.listener,
                ..next
            }).spec_error() == Some(e),
            Err(ReloadError::Preferred(e)) => next.spec_valid() && (FileConfig {
                listener: current.listener,
                ..next
            }).spec_valid() && spec_preferred_range_error(
                FileConfig { listener: current.listener, ..next },
                ranges@,
                0,
            ) == Some(e),
        },
{
    let mut next = next;
    match next.validate() {
        Ok(()) => {},
        Err(e) => return Err(ReloadError::Invalid(e)),
    }
    let listener_restart_needed = next.listener != current.listener;
    let layers_changed = !same_layers(&next.layers, &current.layers);
    if listener_restart_needed {
        next.listener = current.listener;
        match next.validate() {
            Ok(()) => {},
            Err(e) => return Err(ReloadError::InvalidWithBoundListener(e)),
        }
    }
    match validate_preferred_ranges(&next, ranges) {
        Ok(()) => {},
        Err(e) => return Err(ReloadError::Preferred(e)),
    }
    Ok(ReloadPlan { config: next, listener_restart_needed, layers_changed })
}

} // verus!
