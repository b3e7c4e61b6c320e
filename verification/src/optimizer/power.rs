use vstd::prelude::*;

use crate::config::types::{ProfileConfig, ProfileView};
use crate::optimizer::{
    requests_view, settings_view, OptimizationState, Optimizer, RequestView, Setting, SettingView,
    StateView, SysRequest,
};

verus! {

/// Sets the power profile.
#[derive(Debug, Clone, Copy)]
pub struct PowerOptimizer;

impl Default for PowerOptimizer {
    fn default() -> (r: Self) {
        PowerOptimizer
    }
}

impl Optimizer for PowerOptimizer {
    /// The power profile the profile names.
    open spec fn settings(&self, profile: ProfileView, pids: Seq<u32>) -> Seq<SettingView> {
        match profile.power_profile {
            Some(p) => seq![SettingView::PowerProfile(p)],
            None => Seq::empty(),
        }
    }

    /// The power profile found before.
    open spec fn undo(&self, state: StateView) -> Seq<RequestView> {
        match state.power_profile {
            Some(p) => seq![RequestView::SetPowerProfile(p)],
            None => Seq::empty(),
        }
    }

    open spec fn spec_name(&self) -> Seq<char> {
        "power"@
    }

    fn plan(&self, profile: &ProfileConfig, pids: &Vec<u32>) -> (r: Vec<Setting>) {
        let mut r: Vec<Setting> = Vec::new();
        match &profile.power_profile {
            Some(p) => {
                r.push(Setting::PowerProfile(p.clone()));
            },
            None => {},
        }
        assert(settings_view(r@) =~= self.settings(profile@, pids@));
        r
    }

    fn restore_plan(&self, state: &OptimizationState) -> (r: Vec<SysRequest>) {
        let mut r: Vec<SysRequest> = Vec::new();
        match &state.power_profile {
            Some(p) => {
                r.push(SysRequest::SetPowerProfile(p.clone()));
            },
            None => {},
        }
        assert(requests_view(r@) =~= self.undo(state@));
        r
    }

    fn name(&self) -> (r: &'static str) {
        "power"
    }
}

} // verus!
