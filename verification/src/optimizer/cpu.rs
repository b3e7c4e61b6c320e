use vstd::prelude::*;

use crate::config::types::{copy_cpus, ProfileConfig, ProfileView};
use crate::optimizer::{
    requests_view, settings_view, OptimizationState, Optimizer, RequestView, Setting, SettingView,
    StateView, SysRequest,
};

verus! {

/// Sets the CPU frequency governor and the CPUs the game's processes run on.
#[derive(Debug, Clone, Copy)]
pub struct CpuOptimizer;

impl Default for CpuOptimizer {
    fn default() -> (r: Self) {
        CpuOptimizer
    }
}

/// Giving each of `pids` the CPU list `cpus`.
pub open spec fn affinity_settings(pids: Seq<u32>, cpus: Seq<usize>) -> Seq<SettingView> {
    pids.map_values(|p: u32| SettingView::Affinity(p, cpus))
}

impl Optimizer for CpuOptimizer {
    /// The governor the profile names, then the profile's CPU list for each process.
    open spec fn settings(&self, profile: ProfileView, pids: Seq<u32>) -> Seq<SettingView> {
        (match profile.cpu_governor {
            Some(g) => seq![SettingView::Governor(g)],
            None => Seq::empty(),
        }) + (match profile.cpu_affinity {
            Some(c) => affinity_settings(pids, c),
            None => Seq::empty(),
        })
    }

    /// The governor found before, then each process's former CPU list.
    open spec fn undo(&self, state: StateView) -> Seq<RequestView> {
        (match state.cpu_governor {
            Some(g) => seq![RequestView::SetGovernor(g)],
            None => Seq::empty(),
        }) + state.cpu_affinity.map_values(
            |e: (u32, Seq<usize>)| RequestView::SetAffinity(e.0, e.1),
        )
    }

    open spec fn spec_name(&self) -> Seq<char> {
        "cpu"@
    }

    fn plan(&self, profile: &ProfileConfig, pids: &Vec<u32>) -> (r: Vec<Setting>) {
        let mut r: Vec<Setting> = Vec::new();
        let ghost head: Seq<SettingView> = match profile@.cpu_governor {
            Some(g) => seq![SettingView::Governor(g)],
            None => Seq::empty(),
        };
        match &profile.cpu_governor {
            Some(g) => {
                r.push(Setting::Governor(g.clone()));
            },
            None => {},
        }
        assert(settings_view(r@) =~= head);
        match &profile.cpu_affinity {
            Some(cpus) => {
                let mut i: usize = 0;
                while i < pids.len()
                    invariant
                        i <= pids.len(),
                        settings_view(r@) == head + affinity_settings(pids@.take(i as int), cpus@),
                    decreases pids.len() - i,
                {
                    let ghost before = r@;
                    r.push(Setting::Affinity(pids[i], copy_cpus(cpus)));
                    proof {
                        assert(settings_view(r@) =~= settings_view(before).push(
                            SettingView::Affinity(pids@[i as int], cpus@),
                        ));
                        assert(affinity_settings(pids@.take(i + 1), cpus@) =~= affinity_settings(
                            pids@.take(i as int),
                            cpus@,
                        ).push(SettingView::Affinity(pids@[i as int], cpus@)));
                        assert(head + affinity_settings(pids@.take(i + 1), cpus@) =~= (head
                            + affinity_settings(pids@.take(i as int), cpus@)).push(
                            SettingView::Affinity(pids@[i as int], cpus@),
                        ));
                    }
                    i = i + 1;
                }
                proof {
                    assert(pids@.take(pids.len() as int) =~= pids@);
                }
            },
            None => {
                assert(head + Seq::<SettingView>::empty() =~= head);
            },
        }
        r
    }

    fn restore_plan(&self, state: &OptimizationState) -> (r: Vec<SysRequest>) {
        let mut r: Vec<SysRequest> = Vec::new();
        let ghost head: Seq<RequestView> = match state@.cpu_governor {
            Some(g) => seq![RequestView::SetGovernor(g)],
            None => Seq::empty(),
        };
        match &state.cpu_governor {
            Some(g) => {
                r.push(SysRequest::SetGovernor(g.clone()));
            },
            None => {},
        }
        assert(requests_view(r@) =~= head);
        let entries = state.cpu_affinity.entries();
        let ghost pairs = state@.cpu_affinity;
        let mut i: usize = 0;
        while i < entries.len()
            invariant
                i <= entries.len(),
                entries@.len() == pairs.len(),
                pairs == state@.cpu_affinity,
                forall|j: int|
                    0 <= j < entries@.len() ==> ((#[trigger] entries@[j]).0.deep_view(),
                    entries@[j].1.deep_view()) == pairs[j],
                requests_view(r@) == head + pairs.take(i as int).map_values(
                    |e: (u32, Seq<usize>)| RequestView::SetAffinity(e.0, e.1),
                ),
            decreases entries.len() - i,
        {
            let ghost before = r@;
            r.push(SysRequest::SetAffinity(entries[i].0, copy_cpus(&entries[i].1)));
            proof {
                assert(entries@[i as int].1.deep_view() == entries@[i as int].1@);
                assert(requests_view(r@) =~= requests_view(before).push(
                    RequestView::SetAffinity(pairs[i as int].0, pairs[i as int].1),
                ));
                assert(pairs.take(i + 1).map_values(
                    |e: (u32, Seq<usize>)| RequestView::SetAffinity(e.0, e.1),
                ) =~= pairs.take(i as int).map_values(
                    |e: (u32, Seq<usize>)| RequestView::SetAffinity(e.0, e.1),
                ).push(RequestView::SetAffinity(pairs[i as int].0, pairs[i as int].1)));
            }
            i = i + 1;
        }
        proof {
            assert(pairs.take(pairs.len() as int) =~= pairs);
        }
        r
    }

    fn name(&self) -> (r: &'static str) {
        "cpu"
    }
}

} // verus!
