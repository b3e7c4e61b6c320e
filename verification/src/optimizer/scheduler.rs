use vstd::prelude::*;
use vstd::string::*;

use crate::config::types::{ProfileConfig, ProfileView};
use crate::optimizer::{
    requests_view, settings_view, OptimizationState, Optimizer, RequestView, Setting, SettingView,
    StateView, SysRequest,
};
use crate::text::str_eq;

verus! {

/// Sets the scheduler policy.
#[derive(Debug, Clone, Copy)]
pub struct SchedulerOptimizer;

impl Default for SchedulerOptimizer {
    fn default() -> (r: Self) {
        SchedulerOptimizer
    }
}

impl Optimizer for SchedulerOptimizer {
    /// The scheduler policy the profile names.
    open spec fn settings(&self, profile: ProfileView, pids: Seq<u32>) -> Seq<SettingView> {
        match profile.scheduler {
            Some(s) => seq![SettingView::Scheduler(s)],
            None => Seq::empty(),
        }
    }

    /// The scheduler policy found before.
    open spec fn undo(&self, state: StateView) -> Seq<RequestView> {
        match state.scheduler {
            Some(s) => seq![RequestView::SetScheduler(s)],
            None => Seq::empty(),
        }
    }

    open spec fn spec_name(&self) -> Seq<char> {
        "scheduler"@
    }

    fn plan(&self, profile: &ProfileConfig, pids: &Vec<u32>) -> (r: Vec<Setting>) {
        let mut r: Vec<Setting> = Vec::new();
        match &profile.scheduler {
            Some(s) => {
                r.push(Setting::Scheduler(s.clone()));
            },
            None => {},
        }
        assert(settings_view(r@) =~= self.settings(profile@, pids@));
        r
    }

    fn restore_plan(&self, state: &OptimizationState) -> (r: Vec<SysRequest>) {
        let mut r: Vec<SysRequest> = Vec::new();
        match &state.scheduler {
            Some(s) => {
                r.push(SysRequest::SetScheduler(s.clone()));
            },
            None => {},
        }
        assert(requests_view(r@) =~= self.undo(state@));
        r
    }

    fn name(&self) -> (r: &'static str) {
        "scheduler"
    }
}

impl SchedulerOptimizer {
    /// The scheduler policy in force, given the contents of
    /// `/sys/devices/system/cpu/sched_schedstat`: `default` whenever that file
    /// could be read, unknown otherwise.
    pub fn get_current_scheduler(schedstat: Option<String>) -> (r: Option<String>)
        ensures
            r is Some <==> schedstat is Some,
            r matches Some(s) ==> s@ == "default"@,
    {
        match schedstat {
            Some(_) => Some("default".to_owned()),
            None => None,
        }
    }

    /// The arguments `chrt` takes to switch to scheduler policy `scheduler`:
    /// `default` and `normal` select the normal policy (`SCHED_OTHER`) with
    /// `-o 0 0`, `batch` selects `SCHED_BATCH` with `-b 0 0`; any other
    /// policy is refused with a message that names it.
    pub fn set_scheduler(scheduler: &str) -> (r: Result<Vec<String>, String>)
        ensures
            (scheduler@ == "default"@ || scheduler@ == "normal"@) ==> (r matches Ok(a)
                && a.deep_view() == seq!["-o"@, "0"@, "0"@]),
            !(scheduler@ == "default"@ || scheduler@ == "normal"@) && scheduler@ == "batch"@
                ==> (r matches Ok(a) && a.deep_view() == seq!["-b"@, "0"@, "0"@]),
            !(scheduler@ == "default"@ || scheduler@ == "normal"@ || scheduler@ == "batch"@)
                ==> (r matches Err(m) && m@ == "Unknown scheduler: "@ + scheduler@),
    {
        if str_eq(scheduler, "default") || str_eq(scheduler, "normal") {
            let mut a: Vec<String> = Vec::new();
            a.push("-o".to_owned());
            a.push("0".to_owned());
            a.push("0".to_owned());
            assert(a.deep_view() =~= seq!["-o"@, "0"@, "0"@]);
            Ok(a)
        } else if str_eq(scheduler, "batch") {
            let mut a: Vec<String> = Vec::new();
            a.push("-b".to_owned());
            a.push("0".to_owned());
            a.push("0".to_owned());
            assert(a.deep_view() =~= seq!["-b"@, "0"@, "0"@]);
            Ok(a)
        } else {
            let mut m = "Unknown scheduler: ".to_owned();
            m.append(scheduler);
            Err(m)
        }
    }
}

} // verus!
