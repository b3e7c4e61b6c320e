pub mod cpu;
pub mod io;
pub mod model;
pub mod power;
pub mod scheduler;

use vstd::prelude::*;
use vstd::string::*;

use crate::config::types::{copy_cpus, ProfileConfig, ProfileView};
use crate::error::EngineError;
use crate::table::{has_key, Table};
use crate::system::cpu::io_word;
use crate::system::SystemUtils;
use crate::text::str_eq;

use cpu::CpuOptimizer;
use io::IoOptimizer;
use power::PowerOptimizer;
use scheduler::SchedulerOptimizer;

verus! {

/// What an optimization replaced, so that it can be put back: the governor,
/// power profile and scheduler found before they were changed, and the CPU
/// lists, priorities and I/O priority words that processes had.
#[derive(Debug)]
pub struct OptimizationState {
    pub cpu_governor: Option<String>,
    pub cpu_affinity: Table<u32, Vec<usize>>,
    pub process_priorities: Table<u32, i32>,
    pub io_priorities: Table<u32, i32>,
    pub power_profile: Option<String>,
    pub scheduler: Option<String>,
}

/// An optimization state as plain values; per-process entries are listed in
/// the order their processes were first recorded.
pub struct StateView {
    pub cpu_governor: Option<Seq<char>>,
    pub cpu_affinity: Seq<(u32, Seq<usize>)>,
    pub process_priorities: Seq<(u32, i32)>,
    pub io_priorities: Seq<(u32, i32)>,
    pub power_profile: Option<Seq<char>>,
    pub scheduler: Option<Seq<char>>,
}

pub open spec fn empty_state() -> StateView {
    StateView {
        cpu_governor: None,
        cpu_affinity: Seq::empty(),
        process_priorities: Seq::empty(),
        io_priorities: Seq::empty(),
        power_profile: None,
        scheduler: None,
    }
}

impl View for OptimizationState {
    type V = StateView;

    open spec fn view(&self) -> StateView {
        StateView {
            cpu_governor: self.cpu_governor.deep_view(),
            cpu_affinity: self.cpu_affinity.pairs(),
            process_priorities: self.process_priorities.pairs(),
            io_priorities: self.io_priorities.pairs(),
            power_profile: self.power_profile.deep_view(),
            scheduler: self.scheduler.deep_view(),
        }
    }
}

impl Default for OptimizationState {
    fn default() -> (r: Self)
        ensures
            r@ == empty_state(),
    {
        OptimizationState {
            cpu_governor: None,
            cpu_affinity: Table::new(),
            process_priorities: Table::new(),
            io_priorities: Table::new(),
            power_profile: None,
            scheduler: None,
        }
    }
}

/// One setting a profile asks for.
#[derive(Debug)]
pub enum Setting {
    /// The CPU frequency governor of every CPU.
    Governor(String),
    /// The CPUs a process may run on.
    Affinity(u32, Vec<usize>),
    /// A process's scheduling priority (its nice value).
    Nice(u32, i32),
    /// A process's I/O scheduling class and level.
    IoPriority(u32, String, i32),
    /// The power profile.
    PowerProfile(String),
    /// The scheduler policy.
    Scheduler(String),
}

pub enum SettingView {
    Governor(Seq<char>),
    Affinity(u32, Seq<usize>),
    Nice(u32, i32),
    IoPriority(u32, Seq<char>, i32),
    PowerProfile(Seq<char>),
    Scheduler(Seq<char>),
}

impl View for Setting {
    type V = SettingView;

    open spec fn view(&self) -> SettingView {
        match self {
            Setting::Governor(g) => SettingView::Governor(g@),
            Setting::Affinity(p, c) => SettingView::Affinity(*p, c@),
            Setting::Nice(p, l) => SettingView::Nice(*p, *l),
            Setting::IoPriority(p, c, l) => SettingView::IoPriority(*p, c@, *l),
            Setting::PowerProfile(x) => SettingView::PowerProfile(x@),
            Setting::Scheduler(x) => SettingView::Scheduler(x@),
        }
    }
}

pub open spec fn settings_view(s: Seq<Setting>) -> Seq<SettingView> {
    s.map_values(|x: Setting| x@)
}

/// What the library asks of the system: to read a current value, or to
/// change one.
#[derive(Debug)]
pub enum SysRequest {
    ReadGovernor,
    ReadAffinity(u32),
    ReadPriority(u32),
    ReadIoPriority(u32),
    ReadPowerProfile,
    ReadScheduler,
    SetGovernor(String),
    SetAffinity(u32, Vec<usize>),
    SetPriority(u32, i32),
    SetIoPriority(u32, String, i32),
    /// Gives a process back an I/O priority word read from it earlier.
    RestoreIoPriority(u32, i32),
    SetPowerProfile(String),
    SetScheduler(String),
}

pub enum RequestView {
    ReadGovernor,
    ReadAffinity(u32),
    ReadPriority(u32),
    ReadIoPriority(u32),
    ReadPowerProfile,
    ReadScheduler,
    SetGovernor(Seq<char>),
    SetAffinity(u32, Seq<usize>),
    SetPriority(u32, i32),
    SetIoPriority(u32, Seq<char>, i32),
    RestoreIoPriority(u32, i32),
    SetPowerProfile(Seq<char>),
    SetScheduler(Seq<char>),
}

impl View for SysRequest {
    type V = RequestView;

    open spec fn view(&self) -> RequestView {
        match self {
            SysRequest::ReadGovernor => RequestView::ReadGovernor,
            SysRequest::ReadAffinity(p) => RequestView::ReadAffinity(*p),
            SysRequest::ReadPriority(p) => RequestView::ReadPriority(*p),
            SysRequest::ReadIoPriority(p) => RequestView::ReadIoPriority(*p),
            SysRequest::ReadPowerProfile => RequestView::ReadPowerProfile,
            SysRequest::ReadScheduler => RequestView::ReadScheduler,
            SysRequest::SetGovernor(g) => RequestView::SetGovernor(g@),
            SysRequest::SetAffinity(p, c) => RequestView::SetAffinity(*p, c@),
            SysRequest::SetPriority(p, l) => RequestView::SetPriority(*p, *l),
            SysRequest::SetIoPriority(p, c, l) => RequestView::SetIoPriority(*p, c@, *l),
            SysRequest::RestoreIoPriority(p, w) => RequestView::RestoreIoPriority(*p, *w),
            SysRequest::SetPowerProfile(x) => RequestView::SetPowerProfile(x@),
            SysRequest::SetScheduler(x) => RequestView::SetScheduler(x@),
        }
    }
}

pub open spec fn requests_view(s: Seq<SysRequest>) -> Seq<RequestView> {
    s.map_values(|x: SysRequest| x@)
}

/// What the system answered: a value that was read (a priority comes with
/// the `errno` seen after reading it; an I/O priority word is `None` when it
/// could not be read), or whether a change succeeded and, if not, why.
#[derive(Debug)]
pub enum SysReply {
    Governor(Option<String>),
    Affinity(Vec<usize>),
    Priority(i32, Option<i32>),
    IoPriority(Option<i32>),
    PowerProfile(Option<String>),
    Scheduler(Option<String>),
    Done(Result<(), String>),
}

pub enum ReplyView {
    Governor(Option<Seq<char>>),
    Affinity(Seq<usize>),
    Priority(i32, Option<i32>),
    IoPriority(Option<i32>),
    PowerProfile(Option<Seq<char>>),
    Scheduler(Option<Seq<char>>),
    /// `None` when the change succeeded, else the reason it failed.
    Done(Option<Seq<char>>),
}

impl View for SysReply {
    type V = ReplyView;

    open spec fn view(&self) -> ReplyView {
        match self {
            SysReply::Governor(g) => ReplyView::Governor(g.deep_view()),
            SysReply::Affinity(c) => ReplyView::Affinity(c@),
            SysReply::Priority(p, e) => ReplyView::Priority(*p, *e),
            SysReply::IoPriority(w) => ReplyView::IoPriority(*w),
            SysReply::PowerProfile(x) => ReplyView::PowerProfile(x.deep_view()),
            SysReply::Scheduler(x) => ReplyView::Scheduler(x.deep_view()),
            SysReply::Done(r) => ReplyView::Done(
                match r {
                    Ok(()) => None,
                    Err(e) => Some(e@),
                },
            ),
        }
    }
}

pub open spec fn reply_view(r: Option<SysReply>) -> Option<ReplyView> {
    match r {
        Some(x) => Some(x@),
        None => None,
    }
}

/// An engine error as plain values.
pub enum ErrorView {
    Config(Seq<char>),
    Io,
    System(Seq<char>),
    DBus(Seq<char>),
    Profile(Seq<char>),
    Optimizer(Seq<char>),
    Detector(Seq<char>),
    NotFound(Seq<char>),
    PermissionDenied(Seq<char>),
    Plugin(Seq<char>),
    Serialization,
    Json,
    Zbus,
}

pub open spec fn error_view(e: EngineError) -> ErrorView {
    match e {
        EngineError::Config(m) => ErrorView::Config(m@),
        EngineError::Io(_) => ErrorView::Io,
        EngineError::System(m) => ErrorView::System(m@),
        EngineError::DBus(m) => ErrorView::DBus(m@),
        EngineError::Profile(m) => ErrorView::Profile(m@),
        EngineError::Optimizer(m) => ErrorView::Optimizer(m@),
        EngineError::Detector(m) => ErrorView::Detector(m@),
        EngineError::NotFound(m) => ErrorView::NotFound(m@),
        EngineError::PermissionDenied(m) => ErrorView::PermissionDenied(m@),
        EngineError::Plugin(m) => ErrorView::Plugin(m@),
        EngineError::Serialization(_) => ErrorView::Serialization,
        EngineError::Json(_) => ErrorView::Json,
        EngineError::Zbus(_) => ErrorView::Zbus,
    }
}

/// One step of a run: a request for the system, progress that needed no
/// request (the run is to be stepped again with no reply), or the run's outcome.
#[derive(Debug)]
pub enum Step {
    Request(SysRequest),
    Working,
    Done(Result<(), EngineError>),
}

pub enum StepView {
    Request(RequestView),
    Working,
    /// `None` on success, else the error.
    Done(Option<ErrorView>),
}

impl View for Step {
    type V = StepView;

    open spec fn view(&self) -> StepView {
        match self {
            Step::Request(q) => StepView::Request(q@),
            Step::Working => StepView::Working,
            Step::Done(r) => StepView::Done(
                match r {
                    Ok(()) => None,
                    Err(e) => Some(error_view(*e)),
                },
            ),
        }
    }
}

/// An optimizer: what it changes for a profile and its processes, and what it
/// asks the system to put back from a recorded state.
pub trait Optimizer {
    /// The settings this optimizer makes for `profile` and processes `pids`, in order.
    spec fn settings(&self, profile: ProfileView, pids: Seq<u32>) -> Seq<SettingView>;

    /// The changes that put back what `state` recorded for this optimizer, in order.
    spec fn undo(&self, state: StateView) -> Seq<RequestView>;

    spec fn spec_name(&self) -> Seq<char>;

    fn plan(&self, profile: &ProfileConfig, pids: &Vec<u32>) -> (r: Vec<Setting>)
        ensures
            settings_view(r@) == self.settings(profile@, pids@),
    ;

    fn restore_plan(&self, state: &OptimizationState) -> (r: Vec<SysRequest>)
        ensures
            requests_view(r@) == self.undo(state@),
    ;

    fn name(&self) -> (r: &'static str)
        ensures
            r@ == self.spec_name(),
    ;
}


/// A value read before a setting was changed.
#[derive(Debug)]
pub enum Prior {
    Text(Option<String>),
    Cpus(Vec<usize>),
    Level(i32),
    IoWord(Option<i32>),
}

pub enum PriorView {
    Text(Option<Seq<char>>),
    Cpus(Seq<usize>),
    Level(i32),
    IoWord(Option<i32>),
}

impl View for Prior {
    type V = PriorView;

    open spec fn view(&self) -> PriorView {
        match self {
            Prior::Text(t) => PriorView::Text(t.deep_view()),
            Prior::Cpus(c) => PriorView::Cpus(c@),
            Prior::Level(l) => PriorView::Level(*l),
            Prior::IoWord(w) => PriorView::IoWord(*w),
        }
    }
}

/// Where an apply run stands on its current setting.
#[derive(Debug)]
pub enum Phase {
    /// Nothing asked yet.
    Start,
    /// The current value was asked for.
    Reading,
    /// The change was asked for; the value read before is kept.
    Setting(Prior),
    /// The run is over.
    Over,
}

pub enum PhaseView {
    Start,
    Reading,
    Setting(PriorView),
    Over,
}

impl View for Phase {
    type V = PhaseView;

    open spec fn view(&self) -> PhaseView {
        match self {
            Phase::Start => PhaseView::Start,
            Phase::Reading => PhaseView::Reading,
            Phase::Setting(p) => PhaseView::Setting(p@),
            Phase::Over => PhaseView::Over,
        }
    }
}

/// Applying a profile, one system request at a time: for each setting in
/// turn the current value is read; a setting that already holds is left
/// alone, otherwise it is changed and the value read is recorded so that it
/// can be put back. The first change that fails ends the run with an error.
#[derive(Debug)]
pub struct ApplyRun {
    settings: Vec<Setting>,
    index: usize,
    phase: Phase,
}

pub struct ApplyView {
    pub settings: Seq<SettingView>,
    pub index: int,
    pub phase: PhaseView,
}

impl View for ApplyRun {
    type V = ApplyView;

    closed spec fn view(&self) -> ApplyView {
        ApplyView { settings: settings_view(self.settings@), index: self.index as int, phase: self.phase@ }
    }
}

/// Whether an apply run view is one that stepping keeps consistent.
pub open spec fn apply_wf(run: ApplyView) -> bool {
    &&& 0 <= run.index <= run.settings.len()
    &&& (run.phase is Reading || run.phase is Setting) ==> run.index < run.settings.len()
}

/// The request that reads the value a setting changes.
pub open spec fn read_request(s: SettingView) -> RequestView {
    match s {
        SettingView::Governor(_) => RequestView::ReadGovernor,
        SettingView::Affinity(p, _) => RequestView::ReadAffinity(p),
        SettingView::Nice(p, _) => RequestView::ReadPriority(p),
        SettingView::IoPriority(p, _, _) => RequestView::ReadIoPriority(p),
        SettingView::PowerProfile(_) => RequestView::ReadPowerProfile,
        SettingView::Scheduler(_) => RequestView::ReadScheduler,
    }
}

/// The request that makes a setting.
pub open spec fn set_request(s: SettingView) -> RequestView {
    match s {
        SettingView::Governor(g) => RequestView::SetGovernor(g),
        SettingView::Affinity(p, c) => RequestView::SetAffinity(p, c),
        SettingView::Nice(p, l) => RequestView::SetPriority(p, l),
        SettingView::IoPriority(p, c, l) => RequestView::SetIoPriority(p, c, l),
        SettingView::PowerProfile(x) => RequestView::SetPowerProfile(x),
        SettingView::Scheduler(x) => RequestView::SetScheduler(x),
    }
}

/// A priority as `getpriority` reports it: -1 with `errno` 0 counts as 0.
pub open spec fn reported_priority(raw: i32, errno: Option<i32>) -> i32 {
    if raw == -1 && errno == Some(0i32) {
        0
    } else {
        raw
    }
}

/// The value a reply reports for a setting, if it answers the read of it.
pub open spec fn observed(s: SettingView, reply: ReplyView) -> Option<PriorView> {
    match (s, reply) {
        (SettingView::Governor(_), ReplyView::Governor(cur)) => Some(PriorView::Text(cur)),
        (SettingView::Affinity(_, _), ReplyView::Affinity(cur)) => Some(PriorView::Cpus(cur)),
        (SettingView::Nice(_, _), ReplyView::Priority(raw, errno)) => Some(
            PriorView::Level(reported_priority(raw, errno)),
        ),
        (SettingView::IoPriority(_, _, _), ReplyView::IoPriority(cur)) => Some(PriorView::IoWord(cur)),
        (SettingView::PowerProfile(_), ReplyView::PowerProfile(cur)) => Some(PriorView::Text(cur)),
        (SettingView::Scheduler(_), ReplyView::Scheduler(cur)) => Some(PriorView::Text(cur)),
        _ => None,
    }
}

/// Whether the value read already is what the setting asks for.
pub open spec fn already_set(s: SettingView, prior: PriorView) -> bool {
    match (s, prior) {
        (SettingView::Governor(g), PriorView::Text(cur)) => cur == Some(g),
        (SettingView::Affinity(_, c), PriorView::Cpus(cur)) => cur == c,
        (SettingView::Nice(_, l), PriorView::Level(cur)) => cur == l,
        (SettingView::IoPriority(_, c, l), PriorView::IoWord(cur)) => cur matches Some(w) && io_word(
            c,
            l as int,
        ) == Some(w as int),
        (SettingView::PowerProfile(x), PriorView::Text(cur)) => cur == Some(x),
        (SettingView::Scheduler(x), PriorView::Text(cur)) => cur == Some(x),
        _ => false,
    }
}

/// Whether a value is recorded already for what setting `s` changes.
pub open spec fn recorded_for(state: StateView, s: SettingView) -> bool {
    match s {
        SettingView::Governor(_) => state.cpu_governor is Some,
        SettingView::Affinity(p, _) => has_key(state.cpu_affinity, p),
        SettingView::Nice(p, _) => has_key(state.process_priorities, p),
        SettingView::IoPriority(p, _, _) => has_key(state.io_priorities, p),
        SettingView::PowerProfile(_) => state.power_profile is Some,
        SettingView::Scheduler(_) => state.scheduler is Some,
    }
}

/// The state once a changed setting has recorded the value read before it.
/// A value recorded already is kept: it is the one found before any change.
pub open spec fn record(state: StateView, s: SettingView, prior: PriorView) -> StateView {
    if recorded_for(state, s) {
        state
    } else {
        match (s, prior) {
            (SettingView::Governor(_), PriorView::Text(cur)) => StateView {
                cpu_governor: cur,
                ..state
            },
            (SettingView::Affinity(p, _), PriorView::Cpus(cur)) => StateView {
                cpu_affinity: state.cpu_affinity.push((p, cur)),
                ..state
            },
            (SettingView::Nice(p, _), PriorView::Level(cur)) => StateView {
                process_priorities: state.process_priorities.push((p, cur)),
                ..state
            },
            (SettingView::IoPriority(p, _, _), PriorView::IoWord(Some(w))) => StateView {
                io_priorities: state.io_priorities.push((p, w)),
                ..state
            },
            (SettingView::PowerProfile(_), PriorView::Text(cur)) => StateView {
                power_profile: cur,
                ..state
            },
            (SettingView::Scheduler(_), PriorView::Text(cur)) => StateView {
                scheduler: cur,
                ..state
            },
            _ => state,
        }
    }
}

/// How the error starts when making a setting fails.
pub open spec fn set_failure(s: SettingView) -> Seq<char> {
    match s {
        SettingView::Governor(_) => "Cannot set CPU governor: "@,
        SettingView::Affinity(_, _) => "Cannot set CPU affinity: "@,
        SettingView::Nice(_, _) => "Cannot set process priority: "@,
        SettingView::IoPriority(_, _, _) => "Cannot set I/O priority: "@,
        SettingView::PowerProfile(_) => "Cannot set power profile: "@,
        SettingView::Scheduler(_) => "Cannot set scheduler: "@,
    }
}

/// Moving on to setting `i`: its read, or the end of the run.
pub open spec fn begin_setting(settings: Seq<SettingView>, i: int, state: StateView) -> (
    ApplyView,
    StateView,
    StepView,
) {
    if i >= settings.len() {
        (ApplyView { settings, index: i, phase: PhaseView::Over }, state, StepView::Done(None))
    } else {
        (
            ApplyView { settings, index: i, phase: PhaseView::Reading },
            state,
            StepView::Request(read_request(settings[i])),
        )
    }
}

/// One step of an apply run: from the run, the recorded state and the reply
/// to the last request, the next run, state and step. A reply that does not
/// answer the last request has that request asked again.
pub open spec fn apply_transition(run: ApplyView, state: StateView, reply: Option<ReplyView>) -> (
    ApplyView,
    StateView,
    StepView,
) {
    let s = run.settings[run.index];
    match run.phase {
        PhaseView::Start => begin_setting(run.settings, 0, state),
        PhaseView::Reading => match reply {
            Some(rv) => match observed(s, rv) {
                Some(prior) => if already_set(s, prior) {
                    begin_setting(run.settings, run.index + 1, state)
                } else {
                    (
                        ApplyView { phase: PhaseView::Setting(prior), ..run },
                        state,
                        StepView::Request(set_request(s)),
                    )
                },
                None => (run, state, StepView::Request(read_request(s))),
            },
            None => (run, state, StepView::Request(read_request(s))),
        },
        PhaseView::Setting(prior) => match reply {
            Some(ReplyView::Done(None)) => begin_setting(
                run.settings,
                run.index + 1,
                record(state, s, prior),
            ),
            Some(ReplyView::Done(Some(e))) => (
                ApplyView { phase: PhaseView::Over, ..run },
                state,
                StepView::Done(Some(ErrorView::Optimizer(set_failure(s) + e))),
            ),
            _ => (run, state, StepView::Request(set_request(s))),
        },
        PhaseView::Over => (run, state, StepView::Done(None)),
    }
}

/// Putting back what was recorded, one change at a time. A failed change of
/// the governor, a CPU list, the power profile or the scheduler ends the run
/// with an error; a failed priority or I/O priority change is passed over.
/// When every change has been asked for, the recorded state is cleared.
#[derive(Debug)]
pub struct RestoreRun {
    requests: Vec<SysRequest>,
    index: usize,
    sent: bool,
    over: bool,
}

pub struct RestoreView {
    pub requests: Seq<RequestView>,
    pub index: int,
    pub sent: bool,
    pub over: bool,
}

impl View for RestoreRun {
    type V = RestoreView;

    closed spec fn view(&self) -> RestoreView {
        RestoreView {
            requests: requests_view(self.requests@),
            index: self.index as int,
            sent: self.sent,
            over: self.over,
        }
    }
}

pub open spec fn restore_wf(run: RestoreView) -> bool {
    &&& 0 <= run.index <= run.requests.len()
    &&& run.sent ==> run.index < run.requests.len()
}

/// Whether a failure of this change ends a restore run, and how its error starts.
pub open spec fn restore_failure(q: RequestView) -> Option<Seq<char>> {
    match q {
        RequestView::SetGovernor(_) => Some("Cannot restore CPU governor: "@),
        RequestView::SetAffinity(_, _) => Some("Cannot restore CPU affinity: "@),
        RequestView::SetPowerProfile(_) => Some("Cannot restore power profile: "@),
        RequestView::SetScheduler(_) => Some("Cannot restore scheduler: "@),
        _ => None,
    }
}

/// Moving on to change `i`, or ending the run (and clearing the state).
pub open spec fn restore_next(requests: Seq<RequestView>, i: int, state: StateView) -> (
    RestoreView,
    StateView,
    StepView,
) {
    if i >= requests.len() {
        (
            RestoreView { requests, index: i, sent: false, over: true },
            empty_state(),
            StepView::Done(None),
        )
    } else {
        (
            RestoreView { requests, index: i, sent: true, over: false },
            state,
            StepView::Request(requests[i]),
        )
    }
}

/// One step of a restore run.
pub open spec fn restore_transition(run: RestoreView, state: StateView, reply: Option<ReplyView>) -> (
    RestoreView,
    StateView,
    StepView,
) {
    if run.over {
        (run, state, StepView::Done(None))
    } else if !run.sent {
        restore_next(run.requests, run.index, state)
    } else {
        let q = run.requests[run.index];
        match reply {
            Some(ReplyView::Done(None)) => restore_next(run.requests, run.index + 1, state),
            Some(ReplyView::Done(Some(e))) => match restore_failure(q) {
                Some(prefix) => (
                    RestoreView { sent: false, over: true, ..run },
                    state,
                    StepView::Done(Some(ErrorView::Optimizer(prefix + e))),
                ),
                None => restore_next(run.requests, run.index + 1, state),
            },
            _ => (run, state, StepView::Request(q)),
        }
    }
}

/// The settings a profile asks of all optimizers, in order: CPU, I/O, power,
/// scheduler.
pub open spec fn profile_settings(profile: ProfileView, pids: Seq<u32>) -> Seq<SettingView> {
    CpuOptimizer.settings(profile, pids) + IoOptimizer.settings(profile, pids)
        + PowerOptimizer.settings(profile, pids) + SchedulerOptimizer.settings(profile, pids)
}

/// The changes that put back a recorded state, in order: CPU, I/O, power,
/// scheduler.
pub open spec fn undo_changes(state: StateView) -> Seq<RequestView> {
    CpuOptimizer.undo(state) + IoOptimizer.undo(state) + PowerOptimizer.undo(state)
        + SchedulerOptimizer.undo(state)
}

/// Whether two CPU lists are the same.
fn same_cpus(a: &Vec<usize>, b: &Vec<usize>) -> (r: bool)
    ensures
        r == (a@ == b@),
{
    if a.len() != b.len() {
        return false;
    }
    let mut i: usize = 0;
    while i < a.len()
        invariant
            a.len() == b.len(),
            i <= a.len(),
            forall|j: int| 0 <= j < i ==> a@[j] == b@[j],
        decreases a.len() - i,
    {
        if a[i] != b[i] {
            return false;
        }
        i = i + 1;
    }
    assert(a@ =~= b@);
    true
}

/// Whether an optional string is `Some(t)`.
fn is_some_text(cur: &Option<String>, t: &String) -> (r: bool)
    ensures
        r == (cur.deep_view() == Some(t@)),
{
    match cur {
        Some(c) => str_eq(c.as_str(), t.as_str()),
        None => false,
    }
}

fn copy_opt_text(v: &Option<String>) -> (r: Option<String>)
    ensures
        r.deep_view() == v.deep_view(),
{
    match v {
        Some(s) => Some(s.clone()),
        None => None,
    }
}

/// An optimizer error: `prefix` followed by `detail`.
fn optimizer_error(prefix: &str, detail: &str) -> (e: EngineError)
    ensures
        error_view(e) == ErrorView::Optimizer(prefix@ + detail@),
{
    let mut m = prefix.to_owned();
    m.append(detail);
    EngineError::Optimizer(m)
}

impl Setting {
    fn read_request(&self) -> (r: SysRequest)
        ensures
            r@ == read_request(self@),
    {
        match self {
            Setting::Governor(_) => SysRequest::ReadGovernor,
            Setting::Affinity(p, _) => SysRequest::ReadAffinity(*p),
            Setting::Nice(p, _) => SysRequest::ReadPriority(*p),
            Setting::IoPriority(p, _, _) => SysRequest::ReadIoPriority(*p),
            Setting::PowerProfile(_) => SysRequest::ReadPowerProfile,
            Setting::Scheduler(_) => SysRequest::ReadScheduler,
        }
    }

    fn set_request(&self) -> (r: SysRequest)
        ensures
            r@ == set_request(self@),
    {
        match self {
            Setting::Governor(g) => SysRequest::SetGovernor(g.clone()),
            Setting::Affinity(p, c) => SysRequest::SetAffinity(*p, copy_cpus(c)),
            Setting::Nice(p, l) => SysRequest::SetPriority(*p, *l),
            Setting::IoPriority(p, c, l) => SysRequest::SetIoPriority(*p, c.clone(), *l),
            Setting::PowerProfile(x) => SysRequest::SetPowerProfile(x.clone()),
            Setting::Scheduler(x) => SysRequest::SetScheduler(x.clone()),
        }
    }

    fn observe(&self, reply: &SysReply) -> (r: Option<Prior>)
        ensures
            match r {
                Some(p) => observed(self@, reply@) == Some(p@),
                None => observed(self@, reply@) is None,
            },
    {
        match (self, reply) {
            (Setting::Governor(_), SysReply::Governor(cur)) => Some(Prior::Text(copy_opt_text(cur))),
            (Setting::Affinity(_, _), SysReply::Affinity(cur)) => Some(Prior::Cpus(copy_cpus(cur))),
            (Setting::IoPriority(_, _, _), SysReply::IoPriority(cur)) => Some(Prior::IoWord(*cur)),
            (Setting::Nice(_, _), SysReply::Priority(raw, errno)) => {
                let level: i32 = if *raw == -1 && *errno == Some(0i32) {
                    0
                } else {
                    *raw
                };
                Some(Prior::Level(level))
            },
            (Setting::PowerProfile(_), SysReply::PowerProfile(cur)) => Some(
                Prior::Text(copy_opt_text(cur)),
            ),
            (Setting::Scheduler(_), SysReply::Scheduler(cur)) => Some(
                Prior::Text(copy_opt_text(cur)),
            ),
            _ => None,
        }
    }

    fn already_set(&self, prior: &Prior) -> (r: bool)
        ensures
            r == already_set(self@, prior@),
    {
        match (self, prior) {
            (Setting::Governor(g), Prior::Text(cur)) => is_some_text(cur, g),
            (Setting::Affinity(_, c), Prior::Cpus(cur)) => same_cpus(cur, c),
            (Setting::Nice(_, l), Prior::Level(cur)) => *cur == *l,
            (Setting::IoPriority(_, c, l), Prior::IoWord(cur)) => match cur {
                Some(w) => match SystemUtils::io_priority_data(c.as_str(), *l) {
                    Ok(x) => *w == x,
                    Err(_) => false,
                },
                None => false,
            },
            (Setting::PowerProfile(x), Prior::Text(cur)) => is_some_text(cur, x),
            (Setting::Scheduler(x), Prior::Text(cur)) => is_some_text(cur, x),
            _ => false,
        }
    }

    fn failure(&self, detail: &str) -> (e: EngineError)
        ensures
            error_view(e) == ErrorView::Optimizer(set_failure(self@) + detail@),
    {
        match self {
            Setting::Governor(_) => optimizer_error("Cannot set CPU governor: ", detail),
            Setting::Affinity(_, _) => optimizer_error("Cannot set CPU affinity: ", detail),
            Setting::Nice(_, _) => optimizer_error("Cannot set process priority: ", detail),
            Setting::IoPriority(_, _, _) => optimizer_error("Cannot set I/O priority: ", detail),
            Setting::PowerProfile(_) => optimizer_error("Cannot set power profile: ", detail),
            Setting::Scheduler(_) => optimizer_error("Cannot set scheduler: ", detail),
        }
    }
}

/// Records in `state` the value read before setting `s` was made, unless a
/// value is recorded for it already.
fn record_prior(state: &mut OptimizationState, s: &Setting, prior: Prior)
    ensures
        final(state)@ == record(old(state)@, s@, prior@),
{
    match (s, prior) {
        (Setting::Governor(_), Prior::Text(cur)) => {
            if state.cpu_governor.is_none() {
                state.cpu_governor = cur;
            }
        },
        (Setting::Affinity(p, _), Prior::Cpus(cur)) => {
            if state.cpu_affinity.position(p).is_none() {
                assert(cur.deep_view() =~= cur@);
                state.cpu_affinity.insert(*p, cur);
            }
        },
        (Setting::Nice(p, _), Prior::Level(cur)) => {
            if state.process_priorities.position(p).is_none() {
                state.process_priorities.insert(*p, cur);
            }
        },
        (Setting::IoPriority(p, _, _), Prior::IoWord(cur)) => {
            if state.io_priorities.position(p).is_none() {
                match cur {
                    Some(w) => {
                        state.io_priorities.insert(*p, w);
                    },
                    None => {},
                }
            }
        },
        (Setting::PowerProfile(_), Prior::Text(cur)) => {
            if state.power_profile.is_none() {
                state.power_profile = cur;
            }
        },
        (Setting::Scheduler(_), Prior::Text(cur)) => {
            if state.scheduler.is_none() {
                state.scheduler = cur;
            }
        },
        _ => {},
    }
}

impl ApplyRun {
    /// Whether the run is over.
    pub fn is_over(&self) -> (r: bool)
        ensures
            r == (self@.phase is Over),
    {
        match self.phase {
            Phase::Over => true,
            _ => false,
        }
    }

    /// Moves on to setting `i`.
    fn begin(&mut self, i: usize) -> (r: Step)
        requires
            i <= old(self)@.settings.len(),
        ensures
            (final(self)@, r@) == ({
                let t = begin_setting(old(self)@.settings, i as int, empty_state());
                (t.0, t.2)
            }),
    {
        self.index = i;
        if i >= self.settings.len() {
            self.phase = Phase::Over;
            Step::Done(Ok(()))
        } else {
            self.phase = Phase::Reading;
            Step::Request(self.settings[i].read_request())
        }
    }
}

/// A copy of a request.
fn copy_request(q: &SysRequest) -> (r: SysRequest)
    ensures
        r@ == q@,
{
    match q {
        SysRequest::ReadGovernor => SysRequest::ReadGovernor,
        SysRequest::ReadAffinity(p) => SysRequest::ReadAffinity(*p),
        SysRequest::ReadPriority(p) => SysRequest::ReadPriority(*p),
        SysRequest::ReadIoPriority(p) => SysRequest::ReadIoPriority(*p),
        SysRequest::ReadPowerProfile => SysRequest::ReadPowerProfile,
        SysRequest::ReadScheduler => SysRequest::ReadScheduler,
        SysRequest::SetGovernor(g) => SysRequest::SetGovernor(g.clone()),
        SysRequest::SetAffinity(p, c) => SysRequest::SetAffinity(*p, copy_cpus(c)),
        SysRequest::SetPriority(p, l) => SysRequest::SetPriority(*p, *l),
        SysRequest::SetIoPriority(p, c, l) => SysRequest::SetIoPriority(*p, c.clone(), *l),
        SysRequest::RestoreIoPriority(p, w) => SysRequest::RestoreIoPriority(*p, *w),
        SysRequest::SetPowerProfile(x) => SysRequest::SetPowerProfile(x.clone()),
        SysRequest::SetScheduler(x) => SysRequest::SetScheduler(x.clone()),
    }
}

impl RestoreRun {
    /// Whether the run is over.
    pub fn is_over(&self) -> (r: bool)
        ensures
            r == self@.over,
    {
        self.over
    }
}

/// Runs the optimizers and keeps what they replaced, so that it can be put back.
#[derive(Debug)]
pub struct OptimizerManager {
    cpu: CpuOptimizer,
    io: IoOptimizer,
    power: PowerOptimizer,
    scheduler: SchedulerOptimizer,
    state: OptimizationState,
}

impl Default for OptimizerManager {
    fn default() -> (r: Self)
        ensures
            r.recorded() == empty_state(),
    {
        OptimizerManager {
            cpu: CpuOptimizer,
            io: IoOptimizer,
            power: PowerOptimizer,
            scheduler: SchedulerOptimizer,
            state: OptimizationState::default(),
        }
    }
}

impl OptimizerManager {
    /// What the optimizations applied so far replaced.
    pub closed spec fn recorded(&self) -> StateView {
        self.state@
    }

    /// A manager that has recorded nothing.
    pub fn new() -> (r: Self)
        ensures
            r.recorded() == empty_state(),
    {
        Self::default()
    }

    /// What the optimizations applied so far replaced.
    pub fn state(&self) -> (r: &OptimizationState)
        ensures
            r@ == self.recorded(),
    {
        &self.state
    }

    /// A run that applies `profile` to processes `pids` (see `ApplyRun`).
    pub fn apply_profile(&self, profile: &ProfileConfig, pids: &Vec<u32>) -> (r: ApplyRun)
        ensures
            r@ == (ApplyView {
                settings: profile_settings(profile@, pids@),
                index: 0,
                phase: PhaseView::Start,
            }),
    {
        let mut settings = self.cpu.plan(profile, pids);
        let mut more = self.io.plan(profile, pids);
        settings.append(&mut more);
        let mut more = self.power.plan(profile, pids);
        settings.append(&mut more);
        let mut more = self.scheduler.plan(profile, pids);
        settings.append(&mut more);
        let run = ApplyRun { settings, index: 0, phase: Phase::Start };
        proof {
            assert(run@.settings =~= profile_settings(profile@, pids@));
        }
        run
    }

    /// A run that puts back everything recorded (see `RestoreRun`).
    pub fn restore(&self) -> (r: RestoreRun)
        ensures
            r@ == (RestoreView {
                requests: undo_changes(self.recorded()),
                index: 0,
                sent: false,
                over: false,
            }),
    {
        let mut requests = self.cpu.restore_plan(&self.state);
        let mut more = self.io.restore_plan(&self.state);
        requests.append(&mut more);
        let mut more = self.power.restore_plan(&self.state);
        requests.append(&mut more);
        let mut more = self.scheduler.restore_plan(&self.state);
        requests.append(&mut more);
        let run = RestoreRun { requests, index: 0, sent: false, over: false };
        proof {
            assert(run@.requests =~= undo_changes(self.recorded()));
        }
        run
    }

    /// One step of an apply run, given the reply to its last request (none
    /// before the first step); see `apply_transition`.
    pub fn apply_step(&mut self, run: &mut ApplyRun, reply: Option<SysReply>) -> (r: Step)
        requires
            apply_wf(old(run)@),
        ensures
            apply_wf(final(run)@),
            (final(run)@, final(self).recorded(), r@) == apply_transition(
                old(run)@,
                old(self).recorded(),
                reply_view(reply),
            ),
    {
        let ghost state0 = self.state@;
        let mut phase = Phase::Over;
        std::mem::swap(&mut phase, &mut run.phase);
        assert(phase@ == old(run)@.phase);
        match phase {
            Phase::Start => run.begin(0),
            Phase::Reading => {
                let i = run.index;
                assert(i < run.settings.len());
                let observed_value = match &reply {
                    Some(rv) => run.settings[i].observe(rv),
                    None => None,
                };
                match observed_value {
                    Some(prior) => {
                        if run.settings[i].already_set(&prior) {
                            run.begin(i + 1)
                        } else {
                            let q = run.settings[i].set_request();
                            run.phase = Phase::Setting(prior);
                            Step::Request(q)
                        }
                    },
                    None => {
                        run.phase = Phase::Reading;
                        Step::Request(run.settings[i].read_request())
                    },
                }
            },
            Phase::Setting(prior) => {
                let i = run.index;
                assert(i < run.settings.len());
                match reply {
                    Some(SysReply::Done(Ok(()))) => {
                        record_prior(&mut self.state, &run.settings[i], prior);
                        run.begin(i + 1)
                    },
                    Some(SysReply::Done(Err(e))) => {
                        run.phase = Phase::Over;
                        Step::Done(Err(run.settings[i].failure(e.as_str())))
                    },
                    _ => {
                        run.phase = Phase::Setting(prior);
                        Step::Request(run.settings[i].set_request())
                    },
                }
            },
            Phase::Over => Step::Done(Ok(())),
        }
    }

    /// One step of a restore run, given the reply to its last request (none
    /// before the first step); see `restore_transition`.
    pub fn restore_step(&mut self, run: &mut RestoreRun, reply: Option<SysReply>) -> (r: Step)
        requires
            restore_wf(old(run)@),
        ensures
            restore_wf(final(run)@),
            (final(run)@, final(self).recorded(), r@) == restore_transition(
                old(run)@,
                old(self).recorded(),
                reply_view(reply),
            ),
    {
        if run.over {
            return Step::Done(Ok(()));
        }
        if run.sent {
            let i = run.index;
            assert(i < run.requests.len());
            match reply {
                Some(SysReply::Done(Ok(()))) => {},
                Some(SysReply::Done(Err(e))) => {
                    let failure = match &run.requests[i] {
                        SysRequest::SetGovernor(_) => Some("Cannot restore CPU governor: "),
                        SysRequest::SetAffinity(_, _) => Some("Cannot restore CPU affinity: "),
                        SysRequest::SetPowerProfile(_) => Some("Cannot restore power profile: "),
                        SysRequest::SetScheduler(_) => Some("Cannot restore scheduler: "),
                        _ => None,
                    };
                    match failure {
                        Some(prefix) => {
                            run.sent = false;
                            run.over = true;
                            return Step::Done(Err(optimizer_error(prefix, e.as_str())));
                        },
                        None => {},
                    }
                },
                _ => {
                    return Step::Request(copy_request(&run.requests[i]));
                },
            }
            run.index = i + 1;
        }
        if run.index >= run.requests.len() {
            run.sent = false;
            run.over = true;
            self.state = OptimizationState::default();
            Step::Done(Ok(()))
        } else {
            run.sent = true;
            Step::Request(copy_request(&run.requests[run.index]))
        }
    }

    /// The names of the optimizers, in the order they run.
    pub fn list_optimizers(&self) -> (r: Vec<String>)
        ensures
            r.deep_view() == seq!["cpu"@, "io"@, "power"@, "scheduler"@],
    {
        let mut r: Vec<String> = Vec::new();
        r.push(self.cpu.name().to_owned());
        r.push(self.io.name().to_owned());
        r.push(self.power.name().to_owned());
        r.push(self.scheduler.name().to_owned());
        assert(r.deep_view() =~= seq!["cpu"@, "io"@, "power"@, "scheduler"@]);
        r
    }
}


/// The change that puts back the value read before setting `s` was made, if
/// one can be asked for (an unknown governor, power profile, scheduler or I/O
/// priority cannot be put back).
pub open spec fn restoring_request(s: SettingView, prior: PriorView) -> Option<RequestView> {
    match (s, prior) {
        (SettingView::Governor(_), PriorView::Text(Some(g))) => Some(RequestView::SetGovernor(g)),
        (SettingView::Affinity(p, _), PriorView::Cpus(c)) => Some(RequestView::SetAffinity(p, c)),
        (SettingView::Nice(p, _), PriorView::Level(l)) => Some(RequestView::SetPriority(p, l)),
        (SettingView::IoPriority(p, _, _), PriorView::IoWord(Some(w))) => Some(
            RequestView::RestoreIoPriority(p, w),
        ),
        (SettingView::PowerProfile(_), PriorView::Text(Some(x))) => Some(
            RequestView::SetPowerProfile(x),
        ),
        (SettingView::Scheduler(_), PriorView::Text(Some(x))) => Some(RequestView::SetScheduler(x)),
        _ => None,
    }
}

/// Law: a change that succeeds is undone by the next restore. Once the system
/// confirms a change of a setting that nothing is recorded for yet (the
/// governor, a process's CPU list, nice value or I/O priority word, the power
/// profile or the scheduler), the changes a restore of the recorded state asks
/// for include the one that puts back the value read before it. A setting
/// recorded already keeps the value first recorded.
pub proof fn law_change_is_restorable(run: ApplyView, state: StateView, prior: PriorView)
    requires
        apply_wf(run),
        run.phase == PhaseView::Setting(prior),
    ensures
        ({
            let after = apply_transition(run, state, Some(ReplyView::Done(None))).1;
            let s = run.settings[run.index];
            &&& !recorded_for(state, s) ==> (restoring_request(s, prior) matches Some(q)
                ==> undo_changes(after).contains(q))
            &&& recorded_for(state, s) ==> after == state
        }),
{
    let s = run.settings[run.index];
    let after = apply_transition(run, state, Some(ReplyView::Done(None))).1;
    assert(after == record(state, s, prior));
    if !recorded_for(state, s) {
        let cpu = CpuOptimizer.undo(after);
        let io = IoOptimizer.undo(after);
        let power = PowerOptimizer.undo(after);
        let sched = SchedulerOptimizer.undo(after);
        let all = undo_changes(after);
        assert(all == cpu + io + power + sched);
        match (s, prior) {
            (SettingView::Governor(_), PriorView::Text(Some(g))) => {
                assert(cpu[0] == RequestView::SetGovernor(g));
                assert(all[0] == cpu[0]);
            },
            (SettingView::Affinity(p, _), PriorView::Cpus(c)) => {
                let i = state.cpu_affinity.len() as int;
                let head: Seq<RequestView> = match after.cpu_governor {
                    Some(g) => seq![RequestView::SetGovernor(g)],
                    None => Seq::empty(),
                };
                assert(cpu[head.len() + i] == RequestView::SetAffinity(p, c));
                assert(all[head.len() + i] == RequestView::SetAffinity(p, c));
            },
            (SettingView::Nice(p, _), PriorView::Level(l)) => {
                let i = state.process_priorities.len() as int;
                assert(io[i] == RequestView::SetPriority(p, l));
                assert(all[cpu.len() + i] == RequestView::SetPriority(p, l));
            },
            (SettingView::IoPriority(p, _, _), PriorView::IoWord(Some(w))) => {
                let i = state.io_priorities.len() as int;
                let k = after.process_priorities.len() + i;
                assert(io[k] == RequestView::RestoreIoPriority(p, w));
                assert(all[cpu.len() + k] == RequestView::RestoreIoPriority(p, w));
            },
            (SettingView::PowerProfile(_), PriorView::Text(Some(x))) => {
                assert(power[0] == RequestView::SetPowerProfile(x));
                assert(all[(cpu.len() + io.len()) as int] == RequestView::SetPowerProfile(x));
            },
            (SettingView::Scheduler(_), PriorView::Text(Some(x))) => {
                assert(sched[0] == RequestView::SetScheduler(x));
                assert(all[(cpu.len() + io.len() + power.len()) as int] == RequestView::SetScheduler(x));
            },
            _ => {},
        }
    }
}

/// Law: a setting that already holds is left alone. When the value read is
/// what the setting asks for, the recorded state does not change and the
/// setting's change is not asked for.
pub proof fn law_held_setting_is_left_alone(run: ApplyView, state: StateView, reply: ReplyView)
    requires
        apply_wf(run),
        run.phase == PhaseView::Reading,
        observed(run.settings[run.index], reply) matches Some(prior) && already_set(
            run.settings[run.index],
            prior,
        ),
    ensures
        ({
            let t = apply_transition(run, state, Some(reply));
            &&& t.1 == state
            &&& t.2 != StepView::Request(set_request(run.settings[run.index]))
        }),
{
}

/// Law: a failed change ends the run with an optimizer error and records nothing.
pub proof fn law_failed_change_records_nothing(run: ApplyView, state: StateView, reason: Seq<char>)
    requires
        apply_wf(run),
        run.phase is Setting,
    ensures
        ({
            let t = apply_transition(run, state, Some(ReplyView::Done(Some(reason))));
            &&& t.0.phase is Over
            &&& t.1 == state
            &&& t.2 matches StepView::Done(Some(ErrorView::Optimizer(_)))
        }),
{
}

/// Law: a finished restore leaves nothing recorded, so restoring again asks
/// for no change at all.
pub proof fn law_restore_clears(run: RestoreView, state: StateView, reply: Option<ReplyView>)
    requires
        restore_wf(run),
    ensures
        ({
            let t = restore_transition(run, state, reply);
            !run.over && t.2 == StepView::Done(None) ==> t.1 == empty_state()
                && undo_changes(t.1).len() == 0
        }),
{
    let t = restore_transition(run, state, reply);
    let e = empty_state();
    assert(CpuOptimizer.undo(e) =~= Seq::<RequestView>::empty());
    assert(IoOptimizer.undo(e) =~= Seq::<RequestView>::empty());
    assert(PowerOptimizer.undo(e) =~= Seq::<RequestView>::empty());
    assert(SchedulerOptimizer.undo(e) =~= Seq::<RequestView>::empty());
}

/// Law: an apply run moves past a setting without changing it only when
/// the value read is exactly what the setting asks for: the same governor,
/// the same CPU list element by element, the same priority as reported, the
/// I/O priority word of the class and level asked for, the same power
/// profile or scheduler.
pub proof fn law_moves_on_only_when_held(run: ApplyView, state: StateView, reply: ReplyView)
    requires
        apply_wf(run),
        run.phase == PhaseView::Reading,
    ensures
        ({
            let t = apply_transition(run, state, Some(reply));
            t.0.index == run.index + 1 ==> match run.settings[run.index] {
                SettingView::Governor(g) => reply == ReplyView::Governor(Some(g)),
                SettingView::Affinity(_, c) => reply matches ReplyView::Affinity(cur) && cur.len()
                    == c.len() && forall|i: int| 0 <= i < c.len() ==> cur[i] == c[i],
                SettingView::Nice(_, l) => reply matches ReplyView::Priority(raw, errno)
                    && reported_priority(raw, errno) == l,
                SettingView::IoPriority(_, c, l) => reply matches ReplyView::IoPriority(Some(w))
                    && io_word(c, l as int) == Some(w as int),
                SettingView::PowerProfile(x) => reply == ReplyView::PowerProfile(Some(x)),
                SettingView::Scheduler(x) => reply == ReplyView::Scheduler(Some(x)),
            }
        }),
{
}

/// Law: a restore run stops at a failed change of the governor, a CPU list,
/// the power profile or the scheduler, with an optimizer error that names
/// what could not be restored and gives the reason, and the recorded state
/// is left as it was; a failed priority or I/O priority change is passed
/// over and the run goes on with the next change.
pub proof fn law_failed_restore(run: RestoreView, state: StateView, reason: Seq<char>)
    requires
        restore_wf(run),
        run.sent,
        !run.over,
    ensures
        ({
            let t = restore_transition(run, state, Some(ReplyView::Done(Some(reason))));
            let q = run.requests[run.index];
            &&& q is SetGovernor ==> t.2 == StepView::Done(
                Some(ErrorView::Optimizer("Cannot restore CPU governor: "@ + reason)),
            ) && t.1 == state && t.0.over
            &&& q is SetAffinity ==> t.2 == StepView::Done(
                Some(ErrorView::Optimizer("Cannot restore CPU affinity: "@ + reason)),
            ) && t.1 == state && t.0.over
            &&& q is SetPowerProfile ==> t.2 == StepView::Done(
                Some(ErrorView::Optimizer("Cannot restore power profile: "@ + reason)),
            ) && t.1 == state && t.0.over
            &&& q is SetScheduler ==> t.2 == StepView::Done(
                Some(ErrorView::Optimizer("Cannot restore scheduler: "@ + reason)),
            ) && t.1 == state && t.0.over
            &&& (q is SetPriority || q is RestoreIoPriority) ==> t.0.index == run.index + 1
        }),
{
}

} // verus!