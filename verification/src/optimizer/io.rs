use vstd::prelude::*;

use crate::config::types::{ProfileConfig, ProfileView};
use crate::optimizer::{
    requests_view, settings_view, OptimizationState, Optimizer, RequestView, Setting, SettingView,
    StateView, SysRequest,
};

verus! {

/// Sets the scheduling priority and the I/O priority of the game's processes.
#[derive(Debug, Clone, Copy)]
pub struct IoOptimizer;

impl Default for IoOptimizer {
    fn default() -> (r: Self) {
        IoOptimizer
    }
}

/// The settings for one process: its nice value `level` when one is given,
/// then, when an I/O class is given too, that class at that level.
pub open spec fn process_settings(pid: u32, class: Option<Seq<char>>, level: Option<i32>) -> Seq<
    SettingView,
> {
    match level {
        Some(l) => seq![SettingView::Nice(pid, l)] + match class {
            Some(c) => seq![SettingView::IoPriority(pid, c, l)],
            None => Seq::empty(),
        },
        None => Seq::empty(),
    }
}

/// The settings for each of `pids` in turn.
pub open spec fn priority_settings(pids: Seq<u32>, class: Option<Seq<char>>, level: Option<i32>) -> Seq<
    SettingView,
>
    decreases pids.len(),
{
    if pids.len() == 0 {
        Seq::empty()
    } else {
        priority_settings(pids.drop_last(), class, level) + process_settings(
            pids.last(),
            class,
            level,
        )
    }
}

/// Restoring each recorded nice value.
pub open spec fn nice_undo(entries: Seq<(u32, i32)>) -> Seq<RequestView> {
    entries.map_values(|e: (u32, i32)| RequestView::SetPriority(e.0, e.1))
}

/// Restoring each recorded I/O priority word.
pub open spec fn io_undo(entries: Seq<(u32, i32)>) -> Seq<RequestView> {
    entries.map_values(|e: (u32, i32)| RequestView::RestoreIoPriority(e.0, e.1))
}

impl Optimizer for IoOptimizer {
    /// For each process: the profile's priority, if it gives one, and then its
    /// I/O class at that priority, if it gives both.
    open spec fn settings(&self, profile: ProfileView, pids: Seq<u32>) -> Seq<SettingView> {
        priority_settings(pids, profile.io_priority, profile.process_priority)
    }

    /// Each process's former priority, then each process's former I/O priority.
    open spec fn undo(&self, state: StateView) -> Seq<RequestView> {
        nice_undo(state.process_priorities) + io_undo(state.io_priorities)
    }

    open spec fn spec_name(&self) -> Seq<char> {
        "io"@
    }

    fn plan(&self, profile: &ProfileConfig, pids: &Vec<u32>) -> (r: Vec<Setting>) {
        let mut r: Vec<Setting> = Vec::new();
        let ghost class = profile@.io_priority;
        let ghost level = profile@.process_priority;
        let mut i: usize = 0;
        while i < pids.len()
            invariant
                i <= pids.len(),
                class == profile@.io_priority,
                level == profile@.process_priority,
                settings_view(r@) == priority_settings(pids@.take(i as int), class, level),
            decreases pids.len() - i,
        {
            let ghost before = settings_view(r@);
            let pid = pids[i];
            match profile.process_priority {
                Some(l) => {
                    r.push(Setting::Nice(pid, l));
                    match &profile.io_priority {
                        Some(c) => {
                            r.push(Setting::IoPriority(pid, c.clone(), l));
                        },
                        None => {},
                    }
                },
                None => {},
            }
            proof {
                assert(settings_view(r@) =~= before + process_settings(pid, class, level));
                assert(pids@.take(i + 1).drop_last() =~= pids@.take(i as int));
            }
            i = i + 1;
        }
        proof {
            assert(pids@.take(pids.len() as int) =~= pids@);
        }
        r
    }

    fn restore_plan(&self, state: &OptimizationState) -> (r: Vec<SysRequest>) {
        let mut r: Vec<SysRequest> = Vec::new();
        let prios = state.process_priorities.entries();
        let ghost pp = state@.process_priorities;
        let mut i: usize = 0;
        assert(requests_view(r@) =~= nice_undo(pp.take(0)));
        while i < prios.len()
            invariant
                i <= prios.len(),
                prios@.len() == pp.len(),
                pp == state@.process_priorities,
                forall|j: int|
                    0 <= j < prios@.len() ==> ((#[trigger] prios@[j]).0.deep_view(),
                    prios@[j].1.deep_view()) == pp[j],
                requests_view(r@) == nice_undo(pp.take(i as int)),
            decreases prios.len() - i,
        {
            let ghost before = r@;
            r.push(SysRequest::SetPriority(prios[i].0, prios[i].1));
            proof {
                assert(requests_view(r@) =~= requests_view(before).push(
                    RequestView::SetPriority(pp[i as int].0, pp[i as int].1),
                ));
                assert(nice_undo(pp.take(i + 1)) =~= nice_undo(pp.take(i as int)).push(
                    RequestView::SetPriority(pp[i as int].0, pp[i as int].1),
                ));
            }
            i = i + 1;
        }
        let ghost head = requests_view(r@);
        proof {
            assert(pp.take(pp.len() as int) =~= pp);
        }
        let ios = state.io_priorities.entries();
        let ghost ip = state@.io_priorities;
        let mut k: usize = 0;
        assert(requests_view(r@) =~= head + io_undo(ip.take(0)));
        while k < ios.len()
            invariant
                k <= ios.len(),
                ios@.len() == ip.len(),
                ip == state@.io_priorities,
                forall|j: int|
                    0 <= j < ios@.len() ==> ((#[trigger] ios@[j]).0.deep_view(),
                    ios@[j].1.deep_view()) == ip[j],
                requests_view(r@) == head + io_undo(ip.take(k as int)),
            decreases ios.len() - k,
        {
            let ghost before = r@;
            r.push(SysRequest::RestoreIoPriority(ios[k].0, ios[k].1));
            proof {
                assert(requests_view(r@) =~= requests_view(before).push(
                    RequestView::RestoreIoPriority(ip[k as int].0, ip[k as int].1),
                ));
                assert(io_undo(ip.take(k + 1)) =~= io_undo(ip.take(k as int)).push(
                    RequestView::RestoreIoPriority(ip[k as int].0, ip[k as int].1),
                ));
            }
            k = k + 1;
        }
        proof {
            assert(ip.take(ip.len() as int) =~= ip);
        }
        r
    }

    fn name(&self) -> (r: &'static str) {
        "io"
    }
}

} // verus!
