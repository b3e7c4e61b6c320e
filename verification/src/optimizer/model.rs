use vstd::prelude::*;

use crate::config::types::ProfileView;
use crate::optimizer::cpu::{affinity_settings, CpuOptimizer};
use crate::optimizer::io::{io_undo, nice_undo, priority_settings, process_settings, IoOptimizer};
use crate::optimizer::power::PowerOptimizer;
use crate::optimizer::scheduler::SchedulerOptimizer;
use crate::optimizer::{
    already_set, apply_transition, reported_priority, apply_wf, begin_setting, empty_state, observed, profile_settings, read_request,
    record, restore_transition, restore_wf, set_request, undo_changes, ApplyView, Optimizer,
    PhaseView, PriorView, ReplyView, RequestView, RestoreView, SettingView, StateView, StepView,
};
use crate::system::cpu::io_word;
use crate::table::{assoc_map, has_key, keys_unique, lemma_assoc_map_dom};

verus! {

/// A system as the apply and restore runs see it: a read reports the value
/// in force, a change succeeds and puts its value in force (an I/O class the
/// kernel does not know is refused).
pub struct SysModel {
    pub governor: Seq<char>,
    pub affinity: Map<u32, Seq<usize>>,
    pub nice: Map<u32, i32>,
    pub io: Map<u32, i32>,
    pub power: Seq<char>,
    pub scheduler: Seq<char>,
}

/// What the system answers to request `q`.
pub open spec fn model_reply(m: SysModel, q: RequestView) -> ReplyView {
    match q {
        RequestView::ReadGovernor => ReplyView::Governor(Some(m.governor)),
        RequestView::ReadAffinity(p) => ReplyView::Affinity(m.affinity[p]),
        RequestView::ReadPriority(p) => ReplyView::Priority(m.nice[p], Some(0i32)),
        RequestView::ReadIoPriority(p) => ReplyView::IoPriority(Some(m.io[p])),
        RequestView::ReadPowerProfile => ReplyView::PowerProfile(Some(m.power)),
        RequestView::ReadScheduler => ReplyView::Scheduler(Some(m.scheduler)),
        RequestView::SetIoPriority(_, c, l) => if io_word(c, l as int) is Some {
            ReplyView::Done(None)
        } else {
            ReplyView::Done(Some("Unknown I/O priority class: "@ + c))
        },
        _ => ReplyView::Done(None),
    }
}

/// The system once it has carried out request `q`.
pub open spec fn model_after(m: SysModel, q: RequestView) -> SysModel {
    match q {
        RequestView::SetGovernor(g) => SysModel { governor: g, ..m },
        RequestView::SetAffinity(p, c) => SysModel { affinity: m.affinity.insert(p, c), ..m },
        RequestView::SetPriority(p, l) => SysModel { nice: m.nice.insert(p, l), ..m },
        RequestView::SetIoPriority(p, c, l) => match io_word(c, l as int) {
            Some(w) => SysModel { io: m.io.insert(p, w as i32), ..m },
            None => m,
        },
        RequestView::RestoreIoPriority(p, w) => SysModel { io: m.io.insert(p, w), ..m },
        RequestView::SetPowerProfile(x) => SysModel { power: x, ..m },
        RequestView::SetScheduler(x) => SysModel { scheduler: x, ..m },
        _ => m,
    }
}

/// An apply run stepped on system `m` for at most `n` steps, each request
/// answered by the system: the recorded state and the system at the end, and
/// whether the run succeeded within those steps.
pub open spec fn apply_on(
    run: ApplyView,
    state: StateView,
    m: SysModel,
    reply: Option<ReplyView>,
    n: nat,
) -> (StateView, SysModel, bool)
    decreases n,
{
    if n == 0 {
        (state, m, false)
    } else {
        let t = apply_transition(run, state, reply);
        match t.2 {
            StepView::Request(q) => apply_on(
                t.0,
                t.1,
                model_after(m, q),
                Some(model_reply(m, q)),
                (n - 1) as nat,
            ),
            StepView::Done(None) => (t.1, m, true),
            _ => (t.1, m, false),
        }
    }
}

/// A restore run stepped on system `m` in the same way.
pub open spec fn restore_on(
    run: RestoreView,
    state: StateView,
    m: SysModel,
    reply: Option<ReplyView>,
    n: nat,
) -> (StateView, SysModel, bool)
    decreases n,
{
    if n == 0 {
        (state, m, false)
    } else {
        let t = restore_transition(run, state, reply);
        match t.2 {
            StepView::Request(q) => restore_on(
                t.0,
                t.1,
                model_after(m, q),
                Some(model_reply(m, q)),
                (n - 1) as nat,
            ),
            StepView::Done(None) => (t.1, m, true),
            _ => (t.1, m, false),
        }
    }
}

/// Whether two systems hold the same settings.
pub open spec fn same_settings(a: SysModel, b: SysModel) -> bool {
    &&& a.governor == b.governor
    &&& forall|p: u32| #[trigger] a.affinity[p] == b.affinity[p]
    &&& forall|p: u32| #[trigger] a.nice[p] == b.nice[p]
    &&& forall|p: u32| #[trigger] a.io[p] == b.io[p]
    &&& a.power == b.power
    &&& a.scheduler == b.scheduler
}

/// The system once it has carried out `qs` in order.
pub open spec fn model_after_all(m: SysModel, qs: Seq<RequestView>) -> SysModel
    decreases qs.len(),
{
    if qs.len() == 0 {
        m
    } else {
        model_after(model_after_all(m, qs.drop_last()), qs.last())
    }
}

/// Whether `q` is a change that the system always carries out.
pub open spec fn plain_change(q: RequestView) -> bool {
    ||| q is SetGovernor
    ||| q is SetAffinity
    ||| q is SetPriority
    ||| q is RestoreIoPriority
    ||| q is SetPowerProfile
    ||| q is SetScheduler
}

proof fn lemma_after_all_append(m: SysModel, a: Seq<RequestView>, b: Seq<RequestView>)
    ensures
        model_after_all(m, a + b) == model_after_all(model_after_all(m, a), b),
    decreases b.len(),
{
    if b.len() == 0 {
        assert(a + b =~= a);
    } else {
        lemma_after_all_append(m, a, b.drop_last());
        assert((a + b).drop_last() =~= a + b.drop_last());
    }
}

proof fn lemma_after_affinity(m: SysModel, ps: Seq<(u32, Seq<usize>)>)
    ensures
        ({
            let r = model_after_all(
                m,
                ps.map_values(|e: (u32, Seq<usize>)| RequestView::SetAffinity(e.0, e.1)),
            );
            &&& r == SysModel { affinity: r.affinity, ..m }
            &&& forall|p: u32|
                #[trigger] r.affinity[p] == if assoc_map(ps).contains_key(p) {
                    assoc_map(ps)[p]
                } else {
                    m.affinity[p]
                }
        }),
    decreases ps.len(),
{
    let f = |e: (u32, Seq<usize>)| RequestView::SetAffinity(e.0, e.1);
    if ps.len() > 0 {
        lemma_after_affinity(m, ps.drop_last());
        assert(ps.map_values(f).drop_last() =~= ps.drop_last().map_values(f));
    } else {
        assert(ps.map_values(f) =~= Seq::<RequestView>::empty());
    }
}

proof fn lemma_after_nice(m: SysModel, ps: Seq<(u32, i32)>)
    ensures
        ({
            let r = model_after_all(m, nice_undo(ps));
            &&& r == SysModel { nice: r.nice, ..m }
            &&& forall|p: u32|
                #[trigger] r.nice[p] == if assoc_map(ps).contains_key(p) {
                    assoc_map(ps)[p]
                } else {
                    m.nice[p]
                }
        }),
    decreases ps.len(),
{
    if ps.len() > 0 {
        lemma_after_nice(m, ps.drop_last());
        assert(nice_undo(ps).drop_last() =~= nice_undo(ps.drop_last()));
    } else {
        assert(nice_undo(ps) =~= Seq::<RequestView>::empty());
    }
}

proof fn lemma_after_io(m: SysModel, ps: Seq<(u32, i32)>)
    ensures
        ({
            let r = model_after_all(m, io_undo(ps));
            &&& r == SysModel { io: r.io, ..m }
            &&& forall|p: u32|
                #[trigger] r.io[p] == if assoc_map(ps).contains_key(p) {
                    assoc_map(ps)[p]
                } else {
                    m.io[p]
                }
        }),
    decreases ps.len(),
{
    if ps.len() > 0 {
        lemma_after_io(m, ps.drop_last());
        assert(io_undo(ps).drop_last() =~= io_undo(ps.drop_last()));
    } else {
        assert(io_undo(ps) =~= Seq::<RequestView>::empty());
    }
}

proof fn lemma_undo_plain(s: StateView)
    ensures
        forall|i: int| 0 <= i < undo_changes(s).len() ==> plain_change(#[trigger] undo_changes(s)[i]),
{
    let cpu = CpuOptimizer.undo(s);
    let io = IoOptimizer.undo(s);
    let power = PowerOptimizer.undo(s);
    let sched = SchedulerOptimizer.undo(s);
    let gov: Seq<RequestView> = match s.cpu_governor {
        Some(g) => seq![RequestView::SetGovernor(g)],
        None => Seq::empty(),
    };
    let aff = s.cpu_affinity.map_values(|e: (u32, Seq<usize>)| RequestView::SetAffinity(e.0, e.1));
    assert(cpu == gov + aff);
    assert forall|i: int| 0 <= i < cpu.len() implies plain_change(#[trigger] cpu[i]) by {
        if i >= gov.len() {
            assert(cpu[i] == aff[i - gov.len()]);
        }
    }
    let ni = nice_undo(s.process_priorities);
    let ii = io_undo(s.io_priorities);
    assert forall|i: int| 0 <= i < io.len() implies plain_change(#[trigger] io[i]) by {
        if i >= ni.len() {
            assert(io[i] == ii[i - ni.len()]);
        }
    }
    let all = undo_changes(s);
    assert(all == cpu + io + power + sched);
    assert forall|i: int| 0 <= i < all.len() implies plain_change(#[trigger] all[i]) by {
        if i < cpu.len() {
            assert(all[i] == cpu[i]);
        } else if i < cpu.len() + io.len() {
            assert(all[i] == io[i - cpu.len()]);
        } else if i < cpu.len() + io.len() + power.len() {
            assert(all[i] == power[i - cpu.len() - io.len()]);
        } else {
            assert(all[i] == sched[i - cpu.len() - io.len() - power.len()]);
        }
    }
}

/// Carrying out the undo changes of a recorded state: each recorded value is
/// put back, and every other setting is left as it was.
proof fn lemma_undo_result(m: SysModel, s: StateView)
    ensures
        ({
            let r = model_after_all(m, undo_changes(s));
            &&& r.governor == match s.cpu_governor {
                Some(g) => g,
                None => m.governor,
            }
            &&& forall|p: u32|
                #[trigger] r.affinity[p] == if assoc_map(s.cpu_affinity).contains_key(p) {
                    assoc_map(s.cpu_affinity)[p]
                } else {
                    m.affinity[p]
                }
            &&& forall|p: u32|
                #[trigger] r.nice[p] == if assoc_map(s.process_priorities).contains_key(p) {
                    assoc_map(s.process_priorities)[p]
                } else {
                    m.nice[p]
                }
            &&& forall|p: u32|
                #[trigger] r.io[p] == if assoc_map(s.io_priorities).contains_key(p) {
                    assoc_map(s.io_priorities)[p]
                } else {
                    m.io[p]
                }
            &&& r.power == match s.power_profile {
                Some(x) => x,
                None => m.power,
            }
            &&& r.scheduler == match s.scheduler {
                Some(x) => x,
                None => m.scheduler,
            }
        }),
{
    let gov: Seq<RequestView> = match s.cpu_governor {
        Some(g) => seq![RequestView::SetGovernor(g)],
        None => Seq::empty(),
    };
    let aff = s.cpu_affinity.map_values(|e: (u32, Seq<usize>)| RequestView::SetAffinity(e.0, e.1));
    let ni = nice_undo(s.process_priorities);
    let ii = io_undo(s.io_priorities);
    let power = PowerOptimizer.undo(s);
    let sched = SchedulerOptimizer.undo(s);
    assert(undo_changes(s) =~= gov + aff + ni + ii + power + sched);
    lemma_after_all_append(m, gov, aff);
    lemma_after_all_append(m, gov + aff, ni);
    lemma_after_all_append(m, gov + aff + ni, ii);
    lemma_after_all_append(m, gov + aff + ni + ii, power);
    lemma_after_all_append(m, gov + aff + ni + ii + power, sched);
    let m1 = model_after_all(m, gov);
    match s.cpu_governor {
        Some(g) => {
            assert(gov.drop_last() =~= Seq::<RequestView>::empty());
            assert(model_after_all(m, gov.drop_last()) == m);
            assert(m1 == SysModel { governor: g, ..m });
        },
        None => {
            assert(m1 == m);
        },
    }
    let m2 = model_after_all(m1, aff);
    lemma_after_affinity(m1, s.cpu_affinity);
    let m3 = model_after_all(m2, ni);
    lemma_after_nice(m2, s.process_priorities);
    let m4 = model_after_all(m3, ii);
    lemma_after_io(m3, s.io_priorities);
    let m5 = model_after_all(m4, power);
    match s.power_profile {
        Some(x) => {
            assert(power.drop_last() =~= Seq::<RequestView>::empty());
            assert(model_after_all(m4, power.drop_last()) == m4);
            assert(m5 == SysModel { power: x, ..m4 });
        },
        None => {
            assert(m5 == m4);
        },
    }
    let m6 = model_after_all(m5, sched);
    match s.scheduler {
        Some(x) => {
            assert(sched.drop_last() =~= Seq::<RequestView>::empty());
            assert(model_after_all(m5, sched.drop_last()) == m5);
            assert(m6 == SysModel { scheduler: x, ..m5 });
        },
        None => {
            assert(m6 == m5);
        },
    }
    assert(model_after_all(m, undo_changes(s)) == m6);
}

/// Stepping a restore run on a system: when it succeeds, the system has
/// carried out each of the run's changes in order.
proof fn lemma_restore_on(
    run: RestoreView,
    state: StateView,
    m: SysModel,
    reply: Option<ReplyView>,
    n: nat,
    m1: SysModel,
)
    requires
        restore_wf(run),
        !run.over,
        forall|i: int| 0 <= i < run.requests.len() ==> plain_change(#[trigger] run.requests[i]),
        run.sent ==> m == model_after_all(m1, run.requests.take(run.index + 1)) && reply == Some(
            ReplyView::Done(None),
        ),
        !run.sent ==> m == model_after_all(m1, run.requests.take(run.index)),
    ensures
        restore_on(run, state, m, reply, n).2 ==> restore_on(run, state, m, reply, n).1
            == model_after_all(m1, run.requests),
    decreases n,
{
    if n > 0 {
        let qs = run.requests;
        let t = restore_transition(run, state, reply);
        let i = if run.sent {
            run.index + 1
        } else {
            run.index
        };
        assert(m == model_after_all(m1, qs.take(i)));
        if i >= qs.len() {
            assert(qs.take(i) =~= qs);
        } else {
            let q = qs[i];
            assert(t.2 == StepView::Request(q));
            assert(qs.take(i + 1).drop_last() =~= qs.take(i));
            assert(plain_change(q));
            lemma_restore_on(t.0, t.1, model_after(m, q), Some(model_reply(m, q)), (n - 1) as nat, m1);
        }
    }
}

/// What a read of the value that setting `s` changes reports on system `m`.
pub open spec fn value_read(m: SysModel, s: SettingView) -> PriorView {
    match s {
        SettingView::Governor(_) => PriorView::Text(Some(m.governor)),
        SettingView::Affinity(p, _) => PriorView::Cpus(m.affinity[p]),
        SettingView::Nice(p, _) => PriorView::Level(reported_priority(m.nice[p], Some(0i32))),
        SettingView::IoPriority(p, _, _) => PriorView::IoWord(Some(m.io[p])),
        SettingView::PowerProfile(_) => PriorView::Text(Some(m.power)),
        SettingView::Scheduler(_) => PriorView::Text(Some(m.scheduler)),
    }
}

/// A single setting can be put back: a recorded value is the one it had at
/// first (`orig`), and with none recorded it still holds that value.
pub open spec fn one_kept<V>(rec: Option<V>, now: V, orig: V) -> bool {
    match rec {
        Some(v) => v == orig,
        None => now == orig,
    }
}

/// A per-process setting can be put back, process by process, as
/// `one_kept` says, with each process recorded once.
pub open spec fn map_kept<V>(rec: Seq<(u32, V)>, now: Map<u32, V>, orig: Map<u32, V>) -> bool {
    &&& keys_unique(rec)
    &&& forall|p: u32|
        #![trigger now[p]]
        #![trigger assoc_map(rec).contains_key(p)]
        if assoc_map(rec).contains_key(p) {
            assoc_map(rec)[p] == orig[p]
        } else {
            now[p] == orig[p]
        }
}

/// Whether no process of system `m` has nice value -1, which a read with
/// `errno` 0 reports as 0 (see `reported_priority`).
pub open spec fn nice_readable(m: SysModel) -> bool {
    forall|p: u32| #[trigger] m.nice[p] != -1
}

/// Whether restoring what `state` records on system `m` would give back
/// the settings of system `m0`, whose nice values read as they are.
pub open spec fn kept(state: StateView, m: SysModel, m0: SysModel) -> bool {
    &&& nice_readable(m0)
    &&& one_kept(state.cpu_governor, m.governor, m0.governor)
    &&& map_kept(state.cpu_affinity, m.affinity, m0.affinity)
    &&& map_kept(state.process_priorities, m.nice, m0.nice)
    &&& map_kept(state.io_priorities, m.io, m0.io)
    &&& one_kept(state.power_profile, m.power, m0.power)
    &&& one_kept(state.scheduler, m.scheduler, m0.scheduler)
}

/// Where an apply run stands when it is stepped with `reply` on system `m`;
/// `mp` is the system before the change that a run in its setting phase
/// asked for.
pub open spec fn apply_ready(
    run: ApplyView,
    state: StateView,
    m: SysModel,
    reply: Option<ReplyView>,
    mp: SysModel,
    m0: SysModel,
) -> bool {
    let s = run.settings[run.index];
    match run.phase {
        PhaseView::Reading => kept(state, m, m0) && reply == Some(model_reply(m, read_request(s))),
        PhaseView::Setting(prior) => {
            &&& kept(state, mp, m0)
            &&& prior == value_read(mp, s)
            &&& m == model_after(mp, set_request(s))
            &&& reply == Some(model_reply(mp, set_request(s)))
        },
        _ => kept(state, m, m0),
    }
}

proof fn lemma_read(m: SysModel, s: SettingView)
    ensures
        observed(s, model_reply(m, read_request(s))) == Some(value_read(m, s)),
        model_after(m, read_request(s)) == m,
{
}

/// Changing the value for process `k` keeps a per-process setting
/// restorable, once the value it had is recorded unless one is already.
proof fn lemma_map_kept_change<V>(rec: Seq<(u32, V)>, now: Map<u32, V>, orig: Map<u32, V>, k: u32, t: V)
    requires
        map_kept(rec, now, orig),
    ensures
        map_kept(
            if has_key(rec, k) {
                rec
            } else {
                rec.push((k, now[k]))
            },
            now.insert(k, t),
            orig,
        ),
{
    lemma_assoc_map_dom(rec, k);
    let rec2 = if has_key(rec, k) {
        rec
    } else {
        rec.push((k, now[k]))
    };
    let now2 = now.insert(k, t);
    if !has_key(rec, k) {
        assert(rec2.drop_last() =~= rec);
        assert(assoc_map(rec2) == assoc_map(rec).insert(k, now[k]));
        assert forall|a: int, b: int| 0 <= a < b < rec2.len() implies (#[trigger] rec2[a]).0 != (
        #[trigger] rec2[b]).0 by {
            if b == rec2.len() - 1 {
                assert(rec[a].0 != k);
            } else {
                assert(rec[a].0 != rec[b].0);
            }
        }
    }
    assert forall|p: u32| #![trigger now2[p]] #![trigger assoc_map(rec2).contains_key(p)] if assoc_map(
        rec2,
    ).contains_key(p) {
        assoc_map(rec2)[p] == orig[p]
    } else {
        now2[p] == orig[p]
    } by {
        if p != k {
            assert(now2[p] == now[p]);
            assert(assoc_map(rec).contains_key(p) == assoc_map(rec2).contains_key(p));
        }
    }
}

/// A change that the system carries out keeps the record and the system
/// restorable.
proof fn lemma_setting_kept(state: StateView, mp: SysModel, m0: SysModel, s: SettingView)
    requires
        kept(state, mp, m0),
        model_reply(mp, set_request(s)) == ReplyView::Done(None),
    ensures
        kept(record(state, s, value_read(mp, s)), model_after(mp, set_request(s)), m0),
{
    match s {
        SettingView::Affinity(p, c) => {
            lemma_map_kept_change(state.cpu_affinity, mp.affinity, m0.affinity, p, c);
        },
        SettingView::Nice(p, l) => {
            lemma_assoc_map_dom(state.process_priorities, p);
            if !has_key(state.process_priorities, p) {
                assert(mp.nice[p] == m0.nice[p]);
            }
            lemma_map_kept_change(state.process_priorities, mp.nice, m0.nice, p, l);
        },
        SettingView::IoPriority(p, c, l) => {
            let w = io_word(c, l as int)->0;
            lemma_map_kept_change(state.io_priorities, mp.io, m0.io, p, w as i32);
        },
        _ => {},
    }
}

/// One step of an apply run on system `m`, from where `apply_ready` says it
/// stands: the next step finds the run ready again (with `mp2` as the system
/// before a change it asked for), and a run that succeeds leaves the record
/// and the system restorable.
pub(crate) proof fn lemma_apply_step(
    run: ApplyView,
    state: StateView,
    m: SysModel,
    reply: Option<ReplyView>,
    mp: SysModel,
    m0: SysModel,
) -> (mp2: SysModel)
    requires
        apply_wf(run),
        apply_ready(run, state, m, reply, mp, m0),
    ensures
        ({
            let t = apply_transition(run, state, reply);
            &&& apply_wf(t.0)
            &&& t.2 matches StepView::Request(q) ==> apply_ready(
                t.0,
                t.1,
                model_after(m, q),
                Some(model_reply(m, q)),
                mp2,
                m0,
            )
            &&& t.2 == StepView::Done(None) ==> kept(t.1, m, m0)
            &&& !(t.2 is Working)
        }),
{
    let s = run.settings[run.index];
    match run.phase {
        PhaseView::Start => {
            if run.settings.len() > 0 {
                lemma_read(m, run.settings[0]);
            }
        },
        PhaseView::Reading => {
            lemma_read(m, s);
            if run.index + 1 < run.settings.len() {
                lemma_read(m, run.settings[run.index + 1]);
            }
        },
        PhaseView::Setting(prior) => {
            if model_reply(mp, set_request(s)) == ReplyView::Done(None) {
                lemma_setting_kept(state, mp, m0, s);
                if run.index + 1 < run.settings.len() {
                    lemma_read(m, run.settings[run.index + 1]);
                }
            }
        },
        _ => {},
    }
    m
}

/// Stepping an apply run on a system keeps the record and the system
/// restorable, up to the end of a run that succeeds.
proof fn lemma_apply_on(
    run: ApplyView,
    state: StateView,
    m: SysModel,
    reply: Option<ReplyView>,
    n: nat,
    mp: SysModel,
    m0: SysModel,
)
    requires
        apply_wf(run),
        apply_ready(run, state, m, reply, mp, m0),
    ensures
        apply_on(run, state, m, reply, n).2 ==> kept(
            apply_on(run, state, m, reply, n).0,
            apply_on(run, state, m, reply, n).1,
            m0,
        ),
    decreases n,
{
    if n > 0 {
        let mp2 = lemma_apply_step(run, state, m, reply, mp, m0);
        let t = apply_transition(run, state, reply);
        if let StepView::Request(q) = t.2 {
            lemma_apply_on(t.0, t.1, model_after(m, q), Some(model_reply(m, q)), (n - 1) as nat, mp2, m0);
        }
    }
}

/// Where a restore run of what `state` records stands when it is stepped
/// with `reply` on system `m`: `ms` is the system it started on.
pub open spec fn restore_ready(
    run: RestoreView,
    state: StateView,
    m: SysModel,
    reply: Option<ReplyView>,
    ms: SysModel,
    m0: SysModel,
) -> bool {
    &&& run.requests == undo_changes(state)
    &&& kept(state, ms, m0)
    &&& !run.over
    &&& run.sent ==> m == model_after_all(ms, run.requests.take(run.index + 1)) && reply == Some(
        ReplyView::Done(None),
    )
    &&& !run.sent ==> m == model_after_all(ms, run.requests.take(run.index))
}

/// Nothing recorded, the record and a system are restorable exactly when
/// the system holds the settings of `m0`.
proof fn lemma_kept_empty(m: SysModel, m0: SysModel)
    requires
        nice_readable(m0),
    ensures
        kept(empty_state(), m, m0) <==> same_settings(m, m0),
{
    assert(assoc_map(Seq::<(u32, Seq<usize>)>::empty()) == Map::<u32, Seq<usize>>::empty());
    assert(assoc_map(Seq::<(u32, i32)>::empty()) == Map::<u32, i32>::empty());
}

/// One step of a restore run on system `m`, from where `restore_ready` says
/// it stands: the next step finds it ready again, and a run that succeeds
/// has given back the settings of `m0` and recorded nothing.
pub(crate) proof fn lemma_restore_step(
    run: RestoreView,
    state: StateView,
    m: SysModel,
    reply: Option<ReplyView>,
    ms: SysModel,
    m0: SysModel,
)
    requires
        restore_wf(run),
        restore_ready(run, state, m, reply, ms, m0),
    ensures
        ({
            let t = restore_transition(run, state, reply);
            &&& restore_wf(t.0)
            &&& t.2 matches StepView::Request(q) ==> t.1 == state && restore_ready(
                t.0,
                t.1,
                model_after(m, q),
                Some(model_reply(m, q)),
                ms,
                m0,
            )
            &&& t.2 == StepView::Done(None) ==> t.1 == empty_state() && same_settings(m, m0)
            &&& !(t.2 is Working)
        }),
{
    let qs = run.requests;
    lemma_undo_plain(state);
    let i = if run.sent {
        run.index + 1
    } else {
        run.index
    };
    if i >= qs.len() {
        assert(qs.take(i) =~= qs);
        lemma_undo_result(ms, state);
        lemma_kept_empty(m, m0);
    } else {
        assert(qs.take(i + 1).drop_last() =~= qs.take(i));
        assert(plain_change(qs[i]));
    }
}

/// A fresh run that applies `profile` to `pids`.
pub open spec fn apply_start(profile: ProfileView, pids: Seq<u32>) -> ApplyView {
    ApplyView { settings: profile_settings(profile, pids), index: 0, phase: PhaseView::Start }
}

/// A fresh run that restores what `state` records.
pub open spec fn restore_start(state: StateView) -> RestoreView {
    RestoreView { requests: undo_changes(state), index: 0, sent: false, over: false }
}

/// Law: nothing recorded, a system whose nice values read as they are can
/// be put back as it is.
pub proof fn law_nothing_recorded_is_kept(m: SysModel)
    requires
        nice_readable(m),
    ensures
        kept(empty_state(), m, m),
{
    assert(assoc_map(Seq::<(u32, Seq<usize>)>::empty()) == Map::<u32, Seq<usize>>::empty());
    assert(assoc_map(Seq::<(u32, i32)>::empty()) == Map::<u32, i32>::empty());
}

/// Law: applying a profile keeps a system restorable. When restoring what
/// is recorded on system `m` would give back system `m0`, it still would
/// once an apply run of any profile, for any processes, has succeeded on
/// `m`: the first value recorded for a setting is kept, and a setting
/// changed for the first time records the value it had.
pub proof fn law_apply_keeps_restorable(
    profile: ProfileView,
    pids: Seq<u32>,
    state: StateView,
    m: SysModel,
    m0: SysModel,
    n: nat,
)
    requires
        kept(state, m, m0),
    ensures
        ({
            let a = apply_on(apply_start(profile, pids), state, m, None, n);
            a.2 ==> kept(a.0, a.1, m0)
        }),
{
    lemma_apply_on(apply_start(profile, pids), state, m, None, n, m, m0);
}

/// Law: restoring gives back the system the record was kept for. When
/// restoring what is recorded on system `m` would give back system `m0`, a
/// restore run that succeeds on `m` leaves every setting (governor, CPU
/// lists, nice values, I/O priorities, power profile, scheduler) as in `m0`.
pub proof fn law_restore_gives_back(state: StateView, m: SysModel, m0: SysModel, k: nat)
    requires
        kept(state, m, m0),
    ensures
        ({
            let r = restore_on(restore_start(state), state, m, None, k);
            r.2 ==> same_settings(r.1, m0)
        }),
{
    lemma_undo_plain(state);
    assert(undo_changes(state).take(0) =~= Seq::<RequestView>::empty());
    lemma_restore_on(restore_start(state), state, m, None, k, m);
    lemma_undo_result(m, state);
}

/// An apply run of `profile` for `pids` from an empty record, then a restore
/// run of what it recorded, both stepped on system `m0`: whether both
/// succeeded within `n` and `k` steps, and the system at the end.
pub open spec fn apply_then_restore(profile: ProfileView, pids: Seq<u32>, m0: SysModel, n: nat, k: nat) -> (
    bool,
    SysModel,
) {
    let a = apply_on(apply_start(profile, pids), empty_state(), m0, None, n);
    let r = restore_on(restore_start(a.0), a.0, a.1, None, k);
    (a.2 && r.2, r.1)
}

/// Law: restoring puts back what applying a profile changed. On a system
/// where a read reports the value in force and a change takes effect, once
/// a profile has been applied to processes from an empty record and what
/// was recorded has been restored, both runs succeeding, every setting is
/// what it was before. A nice value of -1 is left out: read with `errno` 0
/// it counts as 0, and 0 is what a restore puts back.
pub proof fn law_apply_then_restore(profile: ProfileView, pids: Seq<u32>, m0: SysModel, n: nat, k: nat)
    requires
        nice_readable(m0),
        apply_then_restore(profile, pids, m0, n, k).0,
    ensures
        same_settings(apply_then_restore(profile, pids, m0, n, k).1, m0),
{
    law_nothing_recorded_is_kept(m0);
    law_apply_keeps_restorable(profile, pids, empty_state(), m0, m0, n);
    let a = apply_on(apply_start(profile, pids), empty_state(), m0, None, n);
    law_restore_gives_back(a.0, a.1, m0, k);
}

/// Whether setting `s` asks for what `profile` asks for.
pub open spec fn on_profile(s: SettingView, profile: ProfileView) -> bool {
    match s {
        SettingView::Governor(g) => profile.cpu_governor == Some(g),
        SettingView::Affinity(_, c) => profile.cpu_affinity == Some(c),
        SettingView::Nice(_, l) => profile.process_priority == Some(l),
        SettingView::IoPriority(_, c, l) => profile.io_priority == Some(c)
            && profile.process_priority == Some(l),
        SettingView::PowerProfile(x) => profile.power_profile == Some(x),
        SettingView::Scheduler(x) => profile.scheduler == Some(x),
    }
}

/// Whether system `m` holds what setting `s` asks for, as a read of it
/// reports it (a nice value of -1 asked for is left out: it reads as 0).
pub open spec fn holds(m: SysModel, s: SettingView) -> bool {
    match s {
        SettingView::Governor(g) => m.governor == g,
        SettingView::Affinity(p, c) => m.affinity[p] == c,
        SettingView::Nice(p, l) => l == -1 || reported_priority(m.nice[p], Some(0i32)) == l,
        SettingView::IoPriority(p, c, l) => io_word(c, l as int) == Some(m.io[p] as int),
        SettingView::PowerProfile(x) => m.power == x,
        SettingView::Scheduler(x) => m.scheduler == x,
    }
}

/// Whether system `m` holds the first `k` of `settings`.
pub open spec fn held_upto(m: SysModel, settings: Seq<SettingView>, k: int) -> bool {
    forall|j: int| 0 <= j < k ==> holds(m, #[trigger] settings[j])
}

/// Where an apply run of `profile` stands, for what the system holds, when
/// it is stepped with `reply` on system `m`; `mp` is the system before the
/// change that a run in its setting phase asked for.
pub open spec fn held_ready(
    run: ApplyView,
    m: SysModel,
    reply: Option<ReplyView>,
    mp: SysModel,
    profile: ProfileView,
) -> bool {
    let s = run.settings[run.index];
    &&& forall|i: int| 0 <= i < run.settings.len() ==> on_profile(#[trigger] run.settings[i], profile)
    &&& match run.phase {
        PhaseView::Start => true,
        PhaseView::Reading => held_upto(m, run.settings, run.index) && reply == Some(
            model_reply(m, read_request(s)),
        ),
        PhaseView::Setting(prior) => {
            &&& held_upto(mp, run.settings, run.index)
            &&& prior == value_read(mp, s)
            &&& m == model_after(mp, set_request(s))
            &&& reply == Some(model_reply(mp, set_request(s)))
        },
        PhaseView::Over => held_upto(m, run.settings, run.settings.len() as int),
    }
}

proof fn lemma_io_word_fits(c: Seq<char>, l: int)
    ensures
        io_word(c, l) matches Some(w) ==> 0 <= w < 32768 && (w as i32) as int == w,
{
}

/// A setting that reads as already made is held.
proof fn lemma_held_when_set(m: SysModel, s: SettingView)
    requires
        already_set(s, value_read(m, s)),
    ensures
        holds(m, s),
{
}

/// A change the system carries out makes its setting hold, and the settings
/// before it that asked for the same thing still hold.
proof fn lemma_held_after_set(mp: SysModel, settings: Seq<SettingView>, i: int, profile: ProfileView)
    requires
        0 <= i < settings.len(),
        forall|k: int| 0 <= k < settings.len() ==> on_profile(#[trigger] settings[k], profile),
        held_upto(mp, settings, i),
        model_reply(mp, set_request(settings[i])) == ReplyView::Done(None),
    ensures
        held_upto(model_after(mp, set_request(settings[i])), settings, i + 1),
{
    let s = settings[i];
    let m = model_after(mp, set_request(s));
    if let SettingView::IoPriority(_, c, l) = s {
        lemma_io_word_fits(c, l as int);
    }
    assert(on_profile(s, profile));
    assert forall|j: int| 0 <= j < i + 1 implies holds(m, #[trigger] settings[j]) by {
        let sj = settings[j];
        assert(on_profile(sj, profile));
        if j < i {
            assert(holds(mp, sj));
        }
    }
}

proof fn lemma_held_step(
    run: ApplyView,
    state: StateView,
    m: SysModel,
    reply: Option<ReplyView>,
    mp: SysModel,
    profile: ProfileView,
) -> (mp2: SysModel)
    requires
        apply_wf(run),
        held_ready(run, m, reply, mp, profile),
    ensures
        ({
            let t = apply_transition(run, state, reply);
            &&& t.0.settings == run.settings
            &&& t.2 matches StepView::Request(q) ==> held_ready(
                t.0,
                model_after(m, q),
                Some(model_reply(m, q)),
                mp2,
                profile,
            )
            &&& t.2 == StepView::Done(None) ==> held_upto(m, run.settings, run.settings.len() as int)
        }),
{
    let s = run.settings[run.index];
    match run.phase {
        PhaseView::Start => {
            if run.settings.len() > 0 {
                lemma_read(m, run.settings[0]);
            }
        },
        PhaseView::Reading => {
            lemma_read(m, s);
            if already_set(s, value_read(m, s)) {
                lemma_held_when_set(m, s);
                assert(held_upto(m, run.settings, run.index + 1));
            }
            if run.index + 1 < run.settings.len() {
                lemma_read(m, run.settings[run.index + 1]);
            }
        },
        PhaseView::Setting(prior) => {
            if model_reply(mp, set_request(s)) == ReplyView::Done(None) {
                lemma_held_after_set(mp, run.settings, run.index, profile);
                if run.index + 1 < run.settings.len() {
                    lemma_read(m, run.settings[run.index + 1]);
                }
            }
        },
        _ => {},
    }
    m
}

proof fn lemma_held_on(
    run: ApplyView,
    state: StateView,
    m: SysModel,
    reply: Option<ReplyView>,
    n: nat,
    mp: SysModel,
    profile: ProfileView,
)
    requires
        apply_wf(run),
        held_ready(run, m, reply, mp, profile),
    ensures
        apply_on(run, state, m, reply, n).2 ==> held_upto(
            apply_on(run, state, m, reply, n).1,
            run.settings,
            run.settings.len() as int,
        ),
    decreases n,
{
    if n > 0 {
        let mp2 = lemma_held_step(run, state, m, reply, mp, profile);
        let t = apply_transition(run, state, reply);
        lemma_apply_step_wf(run, state, reply);
        if let StepView::Request(q) = t.2 {
            lemma_held_on(t.0, t.1, model_after(m, q), Some(model_reply(m, q)), (n - 1) as nat, mp2, profile);
        }
    }
}

proof fn lemma_apply_step_wf(run: ApplyView, state: StateView, reply: Option<ReplyView>)
    requires
        apply_wf(run),
    ensures
        apply_wf(apply_transition(run, state, reply).0),
{
}

proof fn lemma_priority_settings_on(pids: Seq<u32>, profile: ProfileView)
    ensures
        forall|i: int|
            0 <= i < priority_settings(pids, profile.io_priority, profile.process_priority).len()
                ==> on_profile(
                #[trigger] priority_settings(pids, profile.io_priority, profile.process_priority)[i],
                profile,
            ),
    decreases pids.len(),
{
    if pids.len() > 0 {
        lemma_priority_settings_on(pids.drop_last(), profile);
        let a = priority_settings(pids.drop_last(), profile.io_priority, profile.process_priority);
        let b = process_settings(pids.last(), profile.io_priority, profile.process_priority);
        let all = priority_settings(pids, profile.io_priority, profile.process_priority);
        assert(all == a + b);
        assert forall|i: int| 0 <= i < all.len() implies on_profile(#[trigger] all[i], profile) by {
            if i >= a.len() {
                assert(all[i] == b[i - a.len()]);
            }
        }
    }
}

/// Each process's priority settings are among those for all processes.
proof fn lemma_priority_settings_has(pids: Seq<u32>, class: Option<Seq<char>>, level: Option<i32>, p: u32)
    requires
        pids.contains(p),
    ensures
        level matches Some(l) ==> priority_settings(pids, class, level).contains(SettingView::Nice(p, l)),
        level matches Some(l) ==> (class matches Some(c) ==> priority_settings(
            pids,
            class,
            level,
        ).contains(SettingView::IoPriority(p, c, l))),
    decreases pids.len(),
{
    let a = priority_settings(pids.drop_last(), class, level);
    let b = process_settings(pids.last(), class, level);
    let all = priority_settings(pids, class, level);
    assert(all == a + b);
    if pids.last() == p {
        if let Some(l) = level {
            assert(all[a.len() as int] == SettingView::Nice(p, l));
            if let Some(c) = class {
                assert(all[a.len() + 1int] == SettingView::IoPriority(p, c, l));
            }
        }
    } else {
        let k = choose|k: int| 0 <= k < pids.len() && pids[k] == p;
        assert(pids.drop_last()[k] == p);
        lemma_priority_settings_has(pids.drop_last(), class, level, p);
        if let Some(l) = level {
            let i = choose|i: int| 0 <= i < a.len() && a[i] == SettingView::Nice(p, l);
            assert(all[i] == a[i]);
            if let Some(c) = class {
                let i2 = choose|i: int| 0 <= i < a.len() && a[i] == SettingView::IoPriority(p, c, l);
                assert(all[i2] == a[i2]);
            }
        }
    }
}

/// Law: a successful apply makes every setting of the profile hold. On a
/// system where a read reports the value in force and a change takes
/// effect, once an apply run of `profile` for `pids` succeeds, the system
/// has the governor, power profile and scheduler asked for, and every
/// process of `pids` has the CPU list, the I/O priority word and (as a read
/// reports it; -1 is left out) the nice value asked for.
pub proof fn law_applied_settings_hold(
    profile: ProfileView,
    pids: Seq<u32>,
    state: StateView,
    m: SysModel,
    n: nat,
)
    ensures
        ({
            let a = apply_on(apply_start(profile, pids), state, m, None, n);
            a.2 ==> {
                &&& (profile.cpu_governor matches Some(g) ==> a.1.governor == g)
                &&& (profile.cpu_affinity matches Some(c) ==> forall|p: u32|
                    pids.contains(p) ==> #[trigger] a.1.affinity[p] == c)
                &&& (profile.process_priority matches Some(l) ==> (l != -1 ==> forall|p: u32|
                    pids.contains(p) ==> reported_priority(#[trigger] a.1.nice[p], Some(0i32)) == l))
                &&& (profile.process_priority matches Some(l) ==> (profile.io_priority matches Some(
                    c,
                ) ==> forall|p: u32|
                    pids.contains(p) ==> io_word(c, l as int) == Some(#[trigger] a.1.io[p] as int)))
                &&& (profile.power_profile matches Some(x) ==> a.1.power == x)
                &&& (profile.scheduler matches Some(x) ==> a.1.scheduler == x)
            }
        }),
{
    let run = apply_start(profile, pids);
    let st = run.settings;
    lemma_priority_settings_on(pids, profile);
    let gov: Seq<SettingView> = match profile.cpu_governor {
        Some(g) => seq![SettingView::Governor(g)],
        None => Seq::empty(),
    };
    let aff: Seq<SettingView> = match profile.cpu_affinity {
        Some(c) => affinity_settings(pids, c),
        None => Seq::empty(),
    };
    let cpu = CpuOptimizer.settings(profile, pids);
    let io = IoOptimizer.settings(profile, pids);
    let power = PowerOptimizer.settings(profile, pids);
    let sched = SchedulerOptimizer.settings(profile, pids);
    assert(cpu == gov + aff);
    assert(st == cpu + io + power + sched);
    assert forall|i: int| 0 <= i < st.len() implies on_profile(#[trigger] st[i], profile) by {
        if i < cpu.len() {
            assert(st[i] == cpu[i]);
            if i >= gov.len() {
                assert(cpu[i] == aff[i - gov.len()]);
            }
        } else if i < cpu.len() + io.len() {
            assert(st[i] == io[i - cpu.len()]);
        } else if i < cpu.len() + io.len() + power.len() {
            assert(st[i] == power[i - cpu.len() - io.len()]);
        } else {
            assert(st[i] == sched[i - cpu.len() - io.len() - power.len()]);
        }
    }
    lemma_held_on(run, state, m, None, n, m, profile);
    let a = apply_on(run, state, m, None, n);
    if a.2 {
        let fin = a.1;
        if let Some(g) = profile.cpu_governor {
            assert(st[0] == SettingView::Governor(g));
            assert(holds(fin, st[0]));
        }
        if let Some(c) = profile.cpu_affinity {
            assert forall|p: u32| pids.contains(p) implies #[trigger] fin.affinity[p] == c by {
                let j = choose|j: int| 0 <= j < pids.len() && pids[j] == p;
                assert(st[gov.len() + j] == SettingView::Affinity(p, c));
                assert(holds(fin, st[gov.len() + j]));
            }
        }
        if let Some(l) = profile.process_priority {
            assert forall|p: u32| pids.contains(p) implies (l != -1 ==> reported_priority(
                #[trigger] fin.nice[p],
                Some(0i32),
            ) == l) by {
                lemma_priority_settings_has(pids, profile.io_priority, profile.process_priority, p);
                let i = choose|i: int| 0 <= i < io.len() && io[i] == SettingView::Nice(p, l);
                assert(st[cpu.len() + i] == io[i]);
                assert(holds(fin, st[cpu.len() + i]));
            }
            if let Some(c) = profile.io_priority {
                assert forall|p: u32| pids.contains(p) implies io_word(c, l as int) == Some(
                    #[trigger] fin.io[p] as int,
                ) by {
                    lemma_priority_settings_has(pids, profile.io_priority, profile.process_priority, p);
                    let i = choose|i: int| 0 <= i < io.len() && io[i] == SettingView::IoPriority(p, c, l);
                    assert(st[cpu.len() + i] == io[i]);
                    assert(holds(fin, st[cpu.len() + i]));
                }
            }
        }
        if let Some(x) = profile.power_profile {
            assert(st[(cpu.len() + io.len()) as int] == SettingView::PowerProfile(x));
            assert(holds(fin, st[(cpu.len() + io.len()) as int]));
        }
        if let Some(x) = profile.scheduler {
            let k = (cpu.len() + io.len() + power.len()) as int;
            assert(st[k] == SettingView::Scheduler(x));
            assert(holds(fin, st[k]));
        }
    }
}

} // verus!