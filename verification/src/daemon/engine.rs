use vstd::prelude::*;
use vstd::string::*;

use crate::config::types::{
    Config, GameRule, GameView, ProfileConfig, ProfileView,
};
use crate::detector::{detected_games, game_names, GameDetector};
use crate::error::EngineError;
use crate::optimizer::{
    law_restore_clears,
    apply_transition, apply_wf, empty_state, profile_settings, reply_view, restore_transition,
    restore_wf, undo_changes, ApplyRun, ApplyView, ErrorView, OptimizerManager,
    PhaseView, RestoreRun, RestoreView, StateView, Step, StepView, SysReply,
};
use crate::profiles::manager::{game_pairs, profile_pairs, ProfileManager};
use crate::system::cpu::{pids_named, SystemUtils};
use crate::table::assoc_map;
use crate::text::{decimal, decimal_string, names_contain, str_eq};

verus! {

/// The sequences of `ss` one after the other.
pub open spec fn concat_pids(ss: Seq<Seq<u32>>) -> Seq<u32>
    decreases ss.len(),
{
    if ss.len() == 0 {
        Seq::empty()
    } else {
        concat_pids(ss.drop_last()) + ss.last()
    }
}

/// The pids of the processes of a game: for each of its process names in
/// turn, the pids of the processes so called.
pub open spec fn game_pids(g: GameView, ps: Seq<(u32, String)>) -> Seq<u32> {
    concat_pids(g.processes.map_values(|p: Seq<char>| pids_named(ps, p)))
}

/// The pids for a game name: those of its game rule's processes if it has a
/// rule, else those of the processes called by that name.
pub open spec fn pids_for_name(
    games: Map<Seq<char>, GameView>,
    name: Seq<char>,
    ps: Seq<(u32, String)>,
) -> Seq<u32> {
    if games.contains_key(name) {
        game_pids(games[name], ps)
    } else {
        pids_named(ps, name)
    }
}

/// The pids of all the given games, game after game.
pub open spec fn names_pids(
    games: Map<Seq<char>, GameView>,
    names: Seq<Seq<char>>,
    ps: Seq<(u32, String)>,
) -> Seq<u32> {
    concat_pids(names.map_values(|n: Seq<char>| pids_for_name(games, n, ps)))
}

/// `names` without any occurrence of `name`.
pub open spec fn without(names: Seq<Seq<char>>, name: Seq<char>) -> Seq<Seq<char>>
    decreases names.len(),
{
    if names.len() == 0 {
        Seq::empty()
    } else if names.last() == name {
        without(names.drop_last(), name)
    } else {
        without(names.drop_last(), name).push(names.last())
    }
}

/// Where `name` first occurs in `names`, or -1.
pub open spec fn first_index(names: Seq<Seq<char>>, name: Seq<char>) -> int
    decreases names.len(),
{
    if names.len() == 0 {
        -1
    } else if names[0] == name {
        0
    } else {
        let i = first_index(names.drop_first(), name);
        if i < 0 {
            -1
        } else {
            i + 1
        }
    }
}

/// `names` without the first occurrence of `name`, if any.
pub open spec fn remove_first(names: Seq<Seq<char>>, name: Seq<char>) -> Seq<Seq<char>> {
    let i = first_index(names, name);
    if i >= 0 {
        names.remove(i)
    } else {
        names
    }
}

pub open spec fn profile_not_found(name: Seq<char>) -> ErrorView {
    ErrorView::Profile("Profile not found: "@ + name)
}

/// The active games once game `name` has started: it is added unless it is
/// already active.
pub open spec fn with_game(names: Seq<Seq<char>>, name: Seq<char>) -> Seq<Seq<char>> {
    if names.contains(name) {
        names
    } else {
        names.push(name)
    }
}

/// The run that stopping game `name` starts: when no other game stays active
/// and some game's optimization completed, one that puts back everything
/// recorded; otherwise one that just succeeds.
pub open spec fn stop_run(e: EngineView, name: Seq<char>) -> RunView {
    if without(e.active_games, name).len() == 0 && e.state_names.len() > 0 {
        RunView { op: OpView::StopGame, sub: fresh_restore(e.recorded) }
    } else {
        RunView { op: OpView::Succeed, sub: SubView::Idle }
    }
}

/// What the engine keeps track of, as plain values: the active profile, the
/// games it optimized (in order), the games whose optimization completed,
/// and what the optimizations replaced.
pub struct EngineView {
    pub active_profile: Seq<char>,
    pub active_games: Seq<Seq<char>>,
    pub state_names: Seq<Seq<char>>,
    pub recorded: StateView,
}

/// Coordinates detection, profiles and optimizers: decides what to apply when
/// games start and what to put back when they stop.
pub struct DaemonEngine {
    config: Config,
    profile_manager: ProfileManager,
    detector: GameDetector,
    optimizer: OptimizerManager,
    active_profile: String,
    active_games: Vec<String>,
    states: Vec<String>,
}

/// The detection loop of a run: the games found running, the game being
/// looked at, the processes found, whether its profile is being applied the
/// second time, and the pids and profile being applied.
#[derive(Debug)]
pub struct DetectCursor {
    games: Vec<GameRule>,
    index: usize,
    processes: Vec<(u32, String)>,
    second: bool,
    pids: Vec<u32>,
    profile: ProfileConfig,
}

pub struct DetectView {
    pub games: Seq<GameView>,
    pub index: int,
    pub processes: Seq<(u32, String)>,
    pub second: bool,
    pub pids: Seq<u32>,
    pub profile: ProfileView,
}

impl View for DetectCursor {
    type V = DetectView;

    closed spec fn view(&self) -> DetectView {
        DetectView {
            games: self.games@.map_values(|g: GameRule| g@),
            index: self.index as int,
            processes: self.processes@,
            second: self.second,
            pids: self.pids@,
            profile: self.profile@,
        }
    }
}

/// What a run does once its optimizer run is done.
#[derive(Debug)]
pub enum Op {
    /// Answer with this error.
    Fail(EngineError),
    /// Answer with success.
    Succeed,
    /// Make this profile the active one.
    SetProfile(String),
    /// The game of this name was started with this profile: make the profile
    /// active and remember the game's optimization.
    StartGame(String, String),
    /// Forget the active games and optimized games; the profile is `default` again.
    RestoreAll,
    /// Forget the optimized games; the profile is `default` again.
    StopGame,
    /// Go on with detected games.
    Detect(DetectCursor),
    /// Nothing; the run is over.
    Over,
}

pub enum OpView {
    Fail(ErrorView),
    Succeed,
    SetProfile(Seq<char>),
    StartGame(Seq<char>, Seq<char>),
    RestoreAll,
    StopGame,
    Detect(DetectView),
    Over,
}

impl View for Op {
    type V = OpView;

    closed spec fn view(&self) -> OpView {
        match self {
            Op::Fail(e) => OpView::Fail(crate::optimizer::error_view(*e)),
            Op::Succeed => OpView::Succeed,
            Op::SetProfile(n) => OpView::SetProfile(n@),
            Op::StartGame(n, p) => OpView::StartGame(n@, p@),
            Op::RestoreAll => OpView::RestoreAll,
            Op::StopGame => OpView::StopGame,
            Op::Detect(d) => OpView::Detect(d@),
            Op::Over => OpView::Over,
        }
    }
}

/// The optimizer run in progress, if any.
#[derive(Debug)]
pub enum Sub {
    Idle,
    Apply(ApplyRun),
    Restore(RestoreRun),
}

pub enum SubView {
    Idle,
    Apply(ApplyView),
    Restore(RestoreView),
}

impl View for Sub {
    type V = SubView;

    closed spec fn view(&self) -> SubView {
        match self {
            Sub::Idle => SubView::Idle,
            Sub::Apply(a) => SubView::Apply(a@),
            Sub::Restore(r) => SubView::Restore(r@),
        }
    }
}

/// An engine operation that needs the system: stepped until it is done.
#[derive(Debug)]
pub struct EngineRun {
    op: Op,
    sub: Sub,
}

pub struct RunView {
    pub op: OpView,
    pub sub: SubView,
}

impl View for EngineRun {
    type V = RunView;

    closed spec fn view(&self) -> RunView {
        RunView { op: self.op@, sub: self.sub@ }
    }
}

pub open spec fn run_over() -> RunView {
    RunView { op: OpView::Over, sub: SubView::Idle }
}

/// Whether stepping keeps a run view consistent.
pub open spec fn run_wf(run: RunView) -> bool {
    &&& (run.sub matches SubView::Apply(a) ==> apply_wf(a))
    &&& (run.sub matches SubView::Restore(r) ==> restore_wf(r))
    &&& (run.op matches OpView::Detect(d) ==> 0 <= d.index <= d.games.len() && (
    run.sub is Apply ==> d.index < d.games.len()))
}

/// A fresh run that applies `profile` to `pids`.
pub open spec fn fresh_apply(profile: ProfileView, pids: Seq<u32>) -> SubView {
    SubView::Apply(ApplyView { settings: profile_settings(profile, pids), index: 0, phase: PhaseView::Start })
}

/// A fresh run that puts back `state`.
pub open spec fn fresh_restore(state: StateView) -> SubView {
    SubView::Restore(RestoreView { requests: undo_changes(state), index: 0, sent: false, over: false })
}

/// What follows a successful optimizer apply run.
pub open spec fn apply_finished(e: EngineView, op: OpView) -> (EngineView, RunView, StepView) {
    match op {
        OpView::SetProfile(n) => (EngineView { active_profile: n, ..e }, run_over(), StepView::Done(None)),
        OpView::StartGame(n, p) => (
            EngineView { active_profile: p, state_names: e.state_names.push(n), ..e },
            run_over(),
            StepView::Done(None),
        ),
        OpView::Detect(d) => if !d.second {
            (
                e,
                RunView {
                    op: OpView::Detect(DetectView { second: true, ..d }),
                    sub: fresh_apply(d.profile, d.pids),
                },
                StepView::Working,
            )
        } else {
            (
                EngineView {
                    state_names: e.state_names.push(d.games[d.index].name),
                    active_profile: d.games[d.index].profile,
                    ..e
                },
                RunView {
                    op: OpView::Detect(DetectView { index: d.index + 1, second: false, ..d }),
                    sub: SubView::Idle,
                },
                StepView::Working,
            )
        },
        _ => (e, run_over(), StepView::Done(None)),
    }
}

/// What follows a successful optimizer restore run.
pub open spec fn restore_finished(e: EngineView, op: OpView) -> (EngineView, RunView, StepView) {
    match op {
        OpView::RestoreAll => (
            EngineView {
                active_games: Seq::empty(),
                state_names: Seq::empty(),
                active_profile: "default"@,
                ..e
            },
            run_over(),
            StepView::Done(None),
        ),
        OpView::StopGame => (
            EngineView { state_names: Seq::empty(), active_profile: "default"@, ..e },
            run_over(),
            StepView::Done(None),
        ),
        _ => (e, run_over(), StepView::Done(None)),
    }
}

/// The next detected game: one already active is passed over; a new one
/// becomes active, and its profile is applied, or the run fails if that
/// profile does not exist.
pub open spec fn detect_next(
    e: EngineView,
    profiles: Map<Seq<char>, ProfileView>,
    d: DetectView,
) -> (EngineView, RunView, StepView) {
    if d.index >= d.games.len() {
        (e, run_over(), StepView::Done(None))
    } else {
        let g = d.games[d.index];
        if e.active_games.contains(g.name) {
            (
                e,
                RunView { op: OpView::Detect(DetectView { index: d.index + 1, ..d }), sub: SubView::Idle },
                StepView::Working,
            )
        } else {
            let e2 = EngineView { active_games: e.active_games.push(g.name), ..e };
            if !profiles.contains_key(g.profile) {
                (e2, run_over(), StepView::Done(Some(profile_not_found(g.profile))))
            } else {
                let p = profiles[g.profile];
                let pids = game_pids(g, d.processes);
                (
                    e2,
                    RunView {
                        op: OpView::Detect(DetectView { pids, profile: p, second: false, ..d }),
                        sub: fresh_apply(p, pids),
                    },
                    StepView::Working,
                )
            }
        }
    }
}

/// One step of an engine run: from what the engine keeps, its profiles, the
/// run and the reply to the last request, the next of each and the step.
pub open spec fn engine_transition(
    e: EngineView,
    profiles: Map<Seq<char>, ProfileView>,
    run: RunView,
    reply: Option<crate::optimizer::ReplyView>,
) -> (EngineView, RunView, StepView) {
    match run.sub {
        SubView::Apply(a) => {
            let t = apply_transition(a, e.recorded, reply);
            let e2 = EngineView { recorded: t.1, ..e };
            match t.2 {
                StepView::Done(None) => apply_finished(e2, run.op),
                StepView::Done(Some(err)) => (e2, run_over(), StepView::Done(Some(err))),
                _ => (e2, RunView { sub: SubView::Apply(t.0), ..run }, t.2),
            }
        },
        SubView::Restore(r) => {
            let t = restore_transition(r, e.recorded, reply);
            let e2 = EngineView { recorded: t.1, ..e };
            match t.2 {
                StepView::Done(None) => restore_finished(e2, run.op),
                StepView::Done(Some(err)) => (e2, run_over(), StepView::Done(Some(err))),
                _ => (e2, RunView { sub: SubView::Restore(t.0), ..run }, t.2),
            }
        },
        SubView::Idle => match run.op {
            OpView::Fail(err) => (e, run_over(), StepView::Done(Some(err))),
            OpView::Detect(d) => detect_next(e, profiles, d),
            _ => (e, run_over(), StepView::Done(None)),
        },
    }
}


/// A copy of a list of profile pairs.
fn copy_profile_pairs(v: &Vec<(String, ProfileConfig)>) -> (r: Vec<(String, ProfileConfig)>)
    ensures
        profile_pairs(r@) == profile_pairs(v@),
{
    let mut r: Vec<(String, ProfileConfig)> = Vec::new();
    let mut i: usize = 0;
    while i < v.len()
        invariant
            i <= v.len(),
            r.len() == i,
            forall|j: int| 0 <= j < i ==> (#[trigger] r@[j]).0@ == v@[j].0@ && r@[j].1@ == v@[j].1@,
        decreases v.len() - i,
    {
        r.push((v[i].0.clone(), v[i].1.duplicate()));
        i = i + 1;
    }
    assert(profile_pairs(r@) =~= profile_pairs(v@));
    r
}

/// A copy of a list of game rules.
fn copy_games(v: &Vec<GameRule>) -> (r: Vec<GameRule>)
    ensures
        r@.map_values(|g: GameRule| g@) == v@.map_values(|g: GameRule| g@),
        game_pairs(r@) == game_pairs(v@),
{
    let mut r: Vec<GameRule> = Vec::new();
    let mut i: usize = 0;
    while i < v.len()
        invariant
            i <= v.len(),
            r.len() == i,
            forall|j: int| 0 <= j < i ==> (#[trigger] r@[j])@ == v@[j]@,
        decreases v.len() - i,
    {
        r.push(v[i].duplicate());
        i = i + 1;
    }
    assert(r@.map_values(|g: GameRule| g@) =~= v@.map_values(|g: GameRule| g@));
    assert(game_pairs(r@) =~= game_pairs(v@));
    r
}

/// A copy of a process list.
fn copy_processes(v: &Vec<(u32, String)>) -> (r: Vec<(u32, String)>)
    ensures
        r@ == v@,
{
    let mut r: Vec<(u32, String)> = Vec::new();
    let mut i: usize = 0;
    while i < v.len()
        invariant
            i <= v.len(),
            r@ == v@.take(i as int),
        decreases v.len() - i,
    {
        r.push((v[i].0, v[i].1.clone()));
        assert(r@ =~= v@.take(i + 1));
        i = i + 1;
    }
    assert(v@.take(v.len() as int) =~= v@);
    r
}

impl View for DaemonEngine {
    type V = EngineView;

    closed spec fn view(&self) -> EngineView {
        EngineView {
            active_profile: self.active_profile@,
            active_games: self.active_games.deep_view(),
            state_names: self.states.deep_view(),
            recorded: self.optimizer.recorded(),
        }
    }
}

impl DaemonEngine {
    /// The profiles, by name.
    pub closed spec fn profiles(&self) -> Map<Seq<char>, ProfileView> {
        self.profile_manager.profiles_map()
    }

    /// The game rules, by game name.
    pub closed spec fn games(&self) -> Map<Seq<char>, GameView> {
        self.profile_manager.games_map()
    }

    /// The games the detector looks for.
    pub closed spec fn watched_games(&self) -> Seq<GameRule> {
        self.detector.spec_games()
    }

    /// The names of the games the detector found running at its last check.
    pub closed spec fn running_games(&self) -> Seq<Seq<char>> {
        self.detector.active()
    }

    /// The configuration the engine was made with.
    pub closed spec fn spec_config(&self) -> Config {
        self.config
    }

    /// An engine for `config`: no game active, nothing recorded, the
    /// `default` profile active.
    pub fn new(config: Config) -> (r: Result<Self, EngineError>)
        ensures
            r matches Ok(e) && e@ == (EngineView {
                active_profile: "default"@,
                active_games: Seq::empty(),
                state_names: Seq::empty(),
                recorded: empty_state(),
            }) && e.profiles() == assoc_map(profile_pairs(config.profiles@)) && e.games()
                == assoc_map(game_pairs(config.games@)) && e.watched_games().map_values(
                |g: GameRule| g@,
            ) == config.games@.map_values(|g: GameRule| g@) && e.running_games().len() == 0
                && e.spec_config() == config,
    {
        let profile_manager = ProfileManager::new(
            copy_profile_pairs(&config.profiles),
            copy_games(&config.games),
        );
        let detector = GameDetector::new(copy_games(&config.games));
        let optimizer = OptimizerManager::new();
        let e = DaemonEngine {
            config,
            profile_manager,
            detector,
            optimizer,
            active_profile: "default".to_owned(),
            active_games: Vec::new(),
            states: Vec::new(),
        };
        assert(e@.active_games =~= Seq::<Seq<char>>::empty());
        assert(e@.state_names =~= Seq::<Seq<char>>::empty());
        Ok(e)
    }

    /// The pids of the processes of `game`.
    fn get_game_pids(game: &GameRule, processes: &Vec<(u32, String)>) -> (r: Vec<u32>)
        ensures
            r@ == game_pids(game@, processes@),
    {
        let ghost parts = game@.processes.map_values(|p: Seq<char>| pids_named(processes@, p));
        let mut pids: Vec<u32> = Vec::new();
        let mut i: usize = 0;
        assert(parts.take(0) =~= Seq::<Seq<u32>>::empty());
        while i < game.processes.len()
            invariant
                i <= game.processes.len(),
                parts == game@.processes.map_values(|p: Seq<char>| pids_named(processes@, p)),
                parts.len() == game.processes.len(),
                pids@ == concat_pids(parts.take(i as int)),
            decreases game.processes.len() - i,
        {
            let mut more = SystemUtils::find_pids_by_name(game.processes[i].as_str(), processes);
            let ghost before = pids@;
            pids.append(&mut more);
            proof {
                assert(parts.take(i + 1).drop_last() =~= parts.take(i as int));
                assert(parts[i as int] == pids_named(processes@, game.processes@[i as int]@));
            }
            i = i + 1;
        }
        assert(parts.take(game.processes.len() as int) =~= parts);
        pids
    }

    /// The pids for the game called `name` (see `pids_for_name`).
    fn get_pids_for_game_name(&self, name: &str, processes: &Vec<(u32, String)>) -> (r: Vec<u32>)
        ensures
            r@ == pids_for_name(self.games(), name@, processes@),
    {
        match self.profile_manager.get_game_rule(name) {
            Some(game) => Self::get_game_pids(game, processes),
            None => SystemUtils::find_pids_by_name(name, processes),
        }
    }

    /// The pids of all active games.
    fn get_all_game_pids(&self, processes: &Vec<(u32, String)>) -> (r: Vec<u32>)
        ensures
            r@ == names_pids(self.games(), self@.active_games, processes@),
    {
        let ghost names = self@.active_games;
        let ghost parts = names.map_values(|n: Seq<char>| pids_for_name(self.games(), n, processes@));
        let mut pids: Vec<u32> = Vec::new();
        let mut i: usize = 0;
        assert(parts.take(0) =~= Seq::<Seq<u32>>::empty());
        while i < self.active_games.len()
            invariant
                i <= self.active_games.len(),
                names == self.active_games.deep_view(),
                parts == names.map_values(|n: Seq<char>| pids_for_name(self.games(), n, processes@)),
                parts.len() == self.active_games.len(),
                pids@ == concat_pids(parts.take(i as int)),
            decreases self.active_games.len() - i,
        {
            let mut more = self.get_pids_for_game_name(self.active_games[i].as_str(), processes);
            pids.append(&mut more);
            proof {
                assert(parts.take(i + 1).drop_last() =~= parts.take(i as int));
                assert(names[i as int] == self.active_games@[i as int]@);
            }
            i = i + 1;
        }
        assert(parts.take(self.active_games.len() as int) =~= parts);
        pids
    }

    /// Checks which games run among `processes`, and returns the run that
    /// follows (see `detect_start`).
    pub fn detect_and_optimize(&mut self, processes: &Vec<(u32, String)>) -> (r: EngineRun)
        ensures
            final(self)@ == old(self)@,
            final(self).profiles() == old(self).profiles(),
            final(self).games() == old(self).games(),
            final(self).watched_games() == old(self).watched_games(),
            final(self).spec_config() == old(self).spec_config(),
            final(self).running_games() == game_names(
                detected_games(old(self).watched_games(), processes@),
            ),
            run_wf(r@),
            detect_start(
                old(self)@,
                old(self).games(),
                detected_games(old(self).watched_games(), processes@).map_values(|g: GameRule| g@),
                processes@,
                r@,
            ),
    {
        match self.detector.check_games(processes) {
            Ok(detected) => {
                let ghost det = detected_games(old(self).watched_games(), processes@);
                proof {
                    assert(detected@.map_values(|g: GameRule| g@) =~= det.map_values(|g: GameRule| g@));
                }
                if detected.len() == 0 {
                    self.restore_if_needed()
                } else {
                    let cursor = DetectCursor {
                        games: detected,
                        index: 0,
                        processes: copy_processes(processes),
                        second: false,
                        pids: Vec::new(),
                        profile: ProfileConfig::default(),
                    };
                    EngineRun { op: Op::Detect(cursor), sub: Sub::Idle }
                }
            },
            Err(e) => EngineRun { op: Op::Fail(e), sub: Sub::Idle },
        }
    }

    /// Once no game runs: a run that puts back everything recorded when some
    /// game was optimized and no game a plugin started is active, else one
    /// that just succeeds.
    fn restore_if_needed(&self) -> (r: EngineRun)
        ensures
            run_wf(r@),
            r@ == (if self@.state_names.len() > 0 && !plugin_game_active(self@, self.games()) {
                RunView { op: OpView::RestoreAll, sub: fresh_restore(self@.recorded) }
            } else {
                RunView { op: OpView::Succeed, sub: SubView::Idle }
            }),
    {
        if self.states.len() > 0 && !self.plugin_game_active() {
            self.restore_all()
        } else {
            EngineRun { op: Op::Succeed, sub: Sub::Idle }
        }
    }

    /// Whether some active game is not a configured game.
    fn plugin_game_active(&self) -> (r: bool)
        ensures
            r == plugin_game_active(self@, self.games()),
    {
        let mut i: usize = 0;
        while i < self.active_games.len()
            invariant
                i <= self.active_games.len(),
                forall|j: int|
                    0 <= j < i ==> self.games().contains_key(#[trigger] self@.active_games[j]),
            decreases self.active_games.len() - i,
        {
            assert(self@.active_games[i as int] == self.active_games@[i as int]@);
            if self.profile_manager.get_game_rule(self.active_games[i].as_str()).is_none() {
                return true;
            }
            i = i + 1;
        }
        false
    }

    /// A game was started (by a plugin) with `profile`: the game becomes
    /// active, and the run applies `profile` to the processes of the game
    /// called `game_name`; when it succeeds, `profile` becomes the active
    /// profile and the game's optimization is remembered, so that stopping the
    /// game puts back what was changed. Fails at once, with nothing changed, if
    /// there is no such profile.
    pub fn game_started(&mut self, game_name: &str, profile: &str, processes: &Vec<(u32, String)>) -> (r:
        EngineRun)
        ensures
            final(self)@ == (if old(self).profiles().contains_key(profile@) {
                EngineView {
                    active_games: with_game(old(self)@.active_games, game_name@),
                    ..old(self)@
                }
            } else {
                old(self)@
            }),
            final(self).profiles() == old(self).profiles(),
            final(self).games() == old(self).games(),
            final(self).watched_games() == old(self).watched_games(),
            final(self).running_games() == old(self).running_games(),
            final(self).spec_config() == old(self).spec_config(),
            run_wf(r@),
            r@ == (if old(self).profiles().contains_key(profile@) {
                RunView {
                    op: OpView::StartGame(game_name@, profile@),
                    sub: fresh_apply(
                        old(self).profiles()[profile@],
                        pids_for_name(old(self).games(), game_name@, processes@),
                    ),
                }
            } else {
                RunView { op: OpView::Fail(profile_not_found(profile@)), sub: SubView::Idle }
            }),
    {
        let pids = self.get_pids_for_game_name(game_name, processes);
        match self.profile_manager.get_profile(profile) {
            Some(p) => {
                let run = self.optimizer.apply_profile(p, &pids);
                if !names_contain(&self.active_games, game_name) {
                    let ghost before = self@.active_games;
                    self.active_games.push(game_name.to_owned());
                    assert(self@.active_games =~= before.push(game_name@));
                }
                EngineRun {
                    op: Op::StartGame(game_name.to_owned(), profile.to_owned()),
                    sub: Sub::Apply(run),
                }
            },
            None => EngineRun { op: Op::Fail(profile_missing(profile)), sub: Sub::Idle },
        }
    }

    /// A run that applies `profile` to the processes of all active games;
    /// when it succeeds, `profile` becomes the active profile. Fails at once if
    /// there is no such profile.
    pub fn activate_profile(&self, profile: &str, processes: &Vec<(u32, String)>) -> (r: EngineRun)
        ensures
            run_wf(r@),
            r@ == (if self.profiles().contains_key(profile@) {
                RunView {
                    op: OpView::SetProfile(profile@),
                    sub: fresh_apply(
                        self.profiles()[profile@],
                        names_pids(self.games(), self@.active_games, processes@),
                    ),
                }
            } else {
                RunView { op: OpView::Fail(profile_not_found(profile@)), sub: SubView::Idle }
            }),
    {
        match self.profile_manager.get_profile(profile) {
            Some(p) => {
                let pids = self.get_all_game_pids(processes);
                let run = self.optimizer.apply_profile(p, &pids);
                EngineRun { op: Op::SetProfile(profile.to_owned()), sub: Sub::Apply(run) }
            },
            None => EngineRun { op: Op::Fail(profile_missing(profile)), sub: Sub::Idle },
        }
    }

    /// The game called `game_name` stopped: it is no longer active and its
    /// completed optimization is forgotten. When no active game remains and
    /// some game's optimization had completed, the run puts back everything
    /// recorded; otherwise it just succeeds.
    pub fn game_stopped(&mut self, game_name: &str) -> (r: EngineRun)
        ensures
            final(self)@ == (EngineView {
                active_games: without(old(self)@.active_games, game_name@),
                state_names: remove_first(old(self)@.state_names, game_name@),
                ..old(self)@
            }),
            final(self).profiles() == old(self).profiles(),
            final(self).games() == old(self).games(),
            final(self).watched_games() == old(self).watched_games(),
            final(self).running_games() == old(self).running_games(),
            final(self).spec_config() == old(self).spec_config(),
            run_wf(r@),
            r@ == stop_run(old(self)@, game_name@),
    {
        let had_states = self.states.len() > 0;
        let ghost names0 = self.active_games.deep_view();
        let mut kept: Vec<String> = Vec::new();
        let mut i: usize = 0;
        assert(names0.take(0) =~= Seq::<Seq<char>>::empty());
        while i < self.active_games.len()
            invariant
                i <= self.active_games.len(),
                names0 == self.active_games.deep_view(),
                kept.deep_view() == without(names0.take(i as int), game_name@),
            decreases self.active_games.len() - i,
        {
            let ghost before = kept.deep_view();
            proof {
                assert(names0.take(i + 1).drop_last() =~= names0.take(i as int));
                assert(names0.take(i + 1).last() == self.active_games@[i as int]@);
            }
            if !str_eq(self.active_games[i].as_str(), game_name) {
                kept.push(self.active_games[i].clone());
                assert(kept.deep_view() =~= before.push(self.active_games@[i as int]@));
            }
            i = i + 1;
        }
        assert(names0.take(self.active_games.len() as int) =~= names0);
        self.active_games = kept;
        let ghost snames = self@.state_names;
        let mut pos: usize = 0;
        while pos < self.states.len() && !str_eq(self.states[pos].as_str(), game_name)
            invariant
                pos <= self.states.len(),
                snames == self.states.deep_view(),
                forall|j: int| 0 <= j < pos ==> snames[j] != game_name@,
            decreases self.states.len() - pos,
        {
            pos = pos + 1;
        }
        proof {
            lemma_first_index(snames, game_name@, pos as int);
        }
        if pos < self.states.len() {
            let _ = self.states.remove(pos);
            assert(self.states.deep_view() =~= snames.remove(
                pos as int,
            ));
        }
        if self.active_games.len() == 0 && had_states {
            EngineRun { op: Op::StopGame, sub: Sub::Restore(self.optimizer.restore()) }
        } else {
            EngineRun { op: Op::Succeed, sub: Sub::Idle }
        }
    }

    /// A run that puts back everything recorded; when it succeeds no game is
    /// active, no optimization is remembered and `default` is the active
    /// profile again.
    pub fn restore_all(&self) -> (r: EngineRun)
        ensures
            run_wf(r@),
            r@ == (RunView { op: OpView::RestoreAll, sub: fresh_restore(self@.recorded) }),
    {
        EngineRun { op: Op::RestoreAll, sub: Sub::Restore(self.optimizer.restore()) }
    }

    /// One step of `run`, given the reply to its last request (none before
    /// the first step, or after `Step::Working`); see `engine_transition`.
    pub fn step(&mut self, run: &mut EngineRun, reply: Option<SysReply>) -> (r: Step)
        requires
            run_wf(old(run)@),
        ensures
            run_wf(final(run)@),
            (final(self)@, final(run)@, r@) == engine_transition(
                old(self)@,
                old(self).profiles(),
                old(run)@,
                reply_view(reply),
            ),
            final(self).profiles() == old(self).profiles(),
            final(self).games() == old(self).games(),
            final(self).watched_games() == old(self).watched_games(),
            final(self).running_games() == old(self).running_games(),
            final(self).spec_config() == old(self).spec_config(),
    {
        let mut sub = Sub::Idle;
        std::mem::swap(&mut sub, &mut run.sub);
        match sub {
            Sub::Apply(mut a) => {
                let s = self.optimizer.apply_step(&mut a, reply);
                match s {
                    Step::Done(Ok(())) => self.apply_finished(run),
                    Step::Done(Err(e)) => {
                        run.op = Op::Over;
                        Step::Done(Err(e))
                    },
                    other => {
                        run.sub = Sub::Apply(a);
                        other
                    },
                }
            },
            Sub::Restore(mut rr) => {
                let s = self.optimizer.restore_step(&mut rr, reply);
                match s {
                    Step::Done(Ok(())) => self.restore_finished(run),
                    Step::Done(Err(e)) => {
                        run.op = Op::Over;
                        Step::Done(Err(e))
                    },
                    other => {
                        run.sub = Sub::Restore(rr);
                        other
                    },
                }
            },
            Sub::Idle => {
                let mut op = Op::Over;
                std::mem::swap(&mut op, &mut run.op);
                match op {
                    Op::Fail(e) => Step::Done(Err(e)),
                    Op::Detect(d) => self.detect_next(run, d),
                    _ => Step::Done(Ok(())),
                }
            },
        }
    }

    fn apply_finished(&mut self, run: &mut EngineRun) -> (r: Step)
        requires
            old(run)@.sub == SubView::Idle,
            old(run)@.op matches OpView::Detect(d) ==> 0 <= d.index < d.games.len(),
        ensures
            run_wf(final(run)@),
            (final(self)@, final(run)@, r@) == apply_finished(old(self)@, old(run)@.op),
            final(self).profiles() == old(self).profiles(),
            final(self).games() == old(self).games(),
            final(self).watched_games() == old(self).watched_games(),
            final(self).running_games() == old(self).running_games(),
            final(self).spec_config() == old(self).spec_config(),
    {
        let mut op = Op::Over;
        std::mem::swap(&mut op, &mut run.op);
        assert(op@ == old(run)@.op);
        match op {
            Op::SetProfile(n) => {
                self.active_profile = n;
                Step::Done(Ok(()))
            },
            Op::StartGame(n, p) => {
                let ghost before = self@.state_names;
                let ghost name = n@;
                self.states.push(n);
                assert(self@.state_names =~= before.push(name));
                self.active_profile = p;
                Step::Done(Ok(()))
            },
            Op::Detect(mut d) => {
                if !d.second {
                    let a = self.optimizer.apply_profile(&d.profile, &d.pids);
                    d.second = true;
                    run.op = Op::Detect(d);
                    run.sub = Sub::Apply(a);
                    Step::Working
                } else {
                    assert(d@.index < d@.games.len());
                    assert(d.index < d.games.len());
                    let name = d.games[d.index].name.clone();
                    let profile = d.games[d.index].profile.clone();
                    let ghost before = self@.state_names;
                    self.states.push(name);
                    assert(self@.state_names =~= before.push(d@.games[d@.index].name));
                    self.active_profile = profile;
                    d.index = d.index + 1;
                    d.second = false;
                    run.op = Op::Detect(d);
                    Step::Working
                }
            },
            _ => Step::Done(Ok(())),
        }
    }

    fn restore_finished(&mut self, run: &mut EngineRun) -> (r: Step)
        requires
            old(run)@.sub == SubView::Idle,
        ensures
            run_wf(final(run)@),
            (final(self)@, final(run)@, r@) == restore_finished(old(self)@, old(run)@.op),
            final(self).profiles() == old(self).profiles(),
            final(self).games() == old(self).games(),
            final(self).watched_games() == old(self).watched_games(),
            final(self).running_games() == old(self).running_games(),
            final(self).spec_config() == old(self).spec_config(),
    {
        let mut op = Op::Over;
        std::mem::swap(&mut op, &mut run.op);
        match op {
            Op::RestoreAll => {
                self.active_games = Vec::new();
                self.states = Vec::new();
                self.active_profile = "default".to_owned();
                assert(self@.active_games =~= Seq::<Seq<char>>::empty());
                assert(self@.state_names =~= Seq::<Seq<char>>::empty());
                Step::Done(Ok(()))
            },
            Op::StopGame => {
                self.states = Vec::new();
                self.active_profile = "default".to_owned();
                assert(self@.state_names =~= Seq::<Seq<char>>::empty());
                Step::Done(Ok(()))
            },
            _ => Step::Done(Ok(())),
        }
    }

    fn detect_next(&mut self, run: &mut EngineRun, d: DetectCursor) -> (r: Step)
        requires
            old(run)@ == run_over(),
            0 <= d@.index <= d@.games.len(),
        ensures
            run_wf(final(run)@),
            (final(self)@, final(run)@, r@) == detect_next(old(self)@, old(self).profiles(), d@),
            final(self).profiles() == old(self).profiles(),
            final(self).games() == old(self).games(),
            final(self).watched_games() == old(self).watched_games(),
            final(self).running_games() == old(self).running_games(),
            final(self).spec_config() == old(self).spec_config(),
    {
        let mut d = d;
        if d.index >= d.games.len() {
            return Step::Done(Ok(()));
        }
        let ghost g = d@.games[d@.index];
        let name = d.games[d.index].name.clone();
        if names_contain(&self.active_games, name.as_str()) {
            d.index = d.index + 1;
            run.op = Op::Detect(d);
            return Step::Working;
        }
        let ghost before = self@.active_games;
        self.active_games.push(name);
        assert(self@.active_games =~= before.push(g.name));
        let profile_name = d.games[d.index].profile.clone();
        match self.profile_manager.get_profile(profile_name.as_str()) {
            None => Step::Done(Err(profile_missing(profile_name.as_str()))),
            Some(p) => {
                let profile = p.duplicate();
                let pids = Self::get_game_pids(&d.games[d.index], &d.processes);
                let a = self.optimizer.apply_profile(&profile, &pids);
                d.pids = pids;
                d.profile = profile;
                d.second = false;
                run.op = Op::Detect(d);
                run.sub = Sub::Apply(a);
                Step::Working
            },
        }
    }

    /// Takes up a configuration read anew: the profiles, the game rules and
    /// the games the detector looks for are rebuilt from `config`, as `new`
    /// builds them. The active profile, the active games, the remembered
    /// optimizations and what they replaced are kept, so that they can still be
    /// put back.
    pub fn reload_config(&mut self, config: Config) -> (r: Result<(), EngineError>)
        ensures
            r is Ok,
            final(self)@ == old(self)@,
            final(self).profiles() == assoc_map(profile_pairs(config.profiles@)),
            final(self).games() == assoc_map(game_pairs(config.games@)),
            final(self).watched_games().map_values(|g: GameRule| g@) == config.games@.map_values(
                |g: GameRule| g@,
            ),
            final(self).running_games().len() == 0,
            final(self).spec_config() == config,
    {
        self.profile_manager = ProfileManager::new(
            copy_profile_pairs(&config.profiles),
            copy_games(&config.games),
        );
        self.detector = GameDetector::new(copy_games(&config.games));
        self.config = config;
        Ok(())
    }

    /// The names of the configured games, each once.
    pub fn list_games(&self) -> (r: Vec<String>)
        ensures
            r.deep_view() == self.game_list(),
            self.game_list().no_duplicates(),
            self.game_list().to_set() == self.games().dom(),
    {
        let names = self.profile_manager.list_games();
        let mut r: Vec<String> = Vec::new();
        let mut i: usize = 0;
        while i < names.len()
            invariant
                i <= names.len(),
                names@.len() == self.profile_manager.games().len(),
                forall|j: int|
                    0 <= j < names@.len() ==> (#[trigger] names@[j])@
                        == self.profile_manager.games()[j].0,
                r.len() == i,
                forall|j: int| 0 <= j < i ==> (#[trigger] r@[j])@ == self.game_list()[j],
            decreases names.len() - i,
        {
            r.push(names[i].clone());
            i = i + 1;
        }
        assert(r.deep_view() =~= self.game_list());
        r
    }

    /// The names of the configured games, each once, in the order they were
    /// first given.
    pub closed spec fn game_list(&self) -> Seq<Seq<char>> {
        self.profile_manager.game_names()
    }

    /// The names of the profiles, each once, in the order they were first given.
    pub closed spec fn profile_list(&self) -> Seq<Seq<char>> {
        self.profile_manager.profile_names()
    }

    /// The names of all profiles, each once.
    pub fn list_profiles(&self) -> (r: Vec<String>)
        ensures
            r.deep_view() == self.profile_list(),
            self.profile_list().no_duplicates(),
            self.profile_list().to_set() == self.profiles().dom(),
    {
        self.profile_manager.list_profiles()
    }

    /// The active profile.
    pub fn active_profile(&self) -> (r: String)
        ensures
            r@ == self@.active_profile,
    {
        self.active_profile.clone()
    }

    /// A one-line status: how many games are active, and the active profile.
    pub fn status(&self) -> (r: String)
        ensures
            r@ == "active_games="@ + decimal(self@.active_games.len()) + ", active_profile="@
                + self@.active_profile,
    {
        let mut s = "active_games=".to_owned();
        let count = decimal_string(self.active_games.len());
        s.append(count.as_str());
        s.append(", active_profile=");
        s.append(self.active_profile.as_str());
        s
    }

    /// How many games are active.
    pub fn active_games_count(&self) -> (r: usize)
        ensures
            r == self@.active_games.len(),
    {
        self.active_games.len()
    }

    /// The names of the optimizers.
    pub fn get_applied_optimizations(&self) -> (r: Vec<String>)
        ensures
            r.deep_view() == seq!["cpu"@, "io"@, "power"@, "scheduler"@],
    {
        self.optimizer.list_optimizers()
    }

    /// The D-Bus name to serve under.
    pub fn dbus_name(&self) -> (r: &str)
        ensures
            r@ == self.spec_config().daemon.dbus_name@,
    {
        self.config.daemon.dbus_name.as_str()
    }

    /// How often to look for games, in milliseconds.
    pub fn poll_interval(&self) -> (r: u64)
        ensures
            r == self.spec_config().daemon.poll_interval_ms,
    {
        self.config.daemon.poll_interval_ms
    }
}

/// A profile error naming the profile that was not found.
fn profile_missing(name: &str) -> (e: EngineError)
    ensures
        crate::optimizer::error_view(e) == profile_not_found(name@),
{
    let mut m = "Profile not found: ".to_owned();
    m.append(name);
    EngineError::Profile(m)
}

proof fn lemma_first_index(names: Seq<Seq<char>>, name: Seq<char>, pos: int)
    requires
        0 <= pos <= names.len(),
        forall|j: int| 0 <= j < pos ==> names[j] != name,
        pos < names.len() ==> names[pos] == name,
    ensures
        first_index(names, name) == (if pos < names.len() {
            pos
        } else {
            -1
        }),
    decreases names.len(),
{
    if names.len() > 0 && pos > 0 {
        lemma_first_index(names.drop_first(), name, pos - 1);
    }
}

/// Whether some active game is not one of the configured games: one that a
/// plugin started, which only the plugin's stop message ends.
pub open spec fn plugin_game_active(e: EngineView, games: Map<Seq<char>, GameView>) -> bool {
    exists|i: int| 0 <= i < e.active_games.len() && !games.contains_key(#[trigger] e.active_games[i])
}

/// How a detection run starts: when no game runs, it puts back everything
/// recorded if some game's optimization had completed and no game a plugin
/// started is active (and otherwise just succeeds); else it goes through the
/// detected games from the first.
pub open spec fn detect_start(
    e: EngineView,
    games: Map<Seq<char>, GameView>,
    detected: Seq<GameView>,
    processes: Seq<(u32, String)>,
    run: RunView,
) -> bool {
    if detected.len() == 0 {
        run == (if e.state_names.len() > 0 && !plugin_game_active(e, games) {
            RunView { op: OpView::RestoreAll, sub: fresh_restore(e.recorded) }
        } else {
            RunView { op: OpView::Succeed, sub: SubView::Idle }
        })
    } else {
        &&& run.sub == SubView::Idle
        &&& run.op matches OpView::Detect(d) && d.games == detected && d.index == 0 && d.processes
            == processes && !d.second
    }
}


/// Whether the active profile is `default` or one of the profiles.
pub open spec fn profile_known(e: EngineView, profiles: Map<Seq<char>, ProfileView>) -> bool {
    e.active_profile == "default"@ || profiles.contains_key(e.active_profile)
}

/// Whether every profile a run may make active is one of the profiles.
pub open spec fn run_profile_known(run: RunView, profiles: Map<Seq<char>, ProfileView>) -> bool {
    &&& (run.op matches OpView::SetProfile(n) ==> profiles.contains_key(n))
    &&& (run.op matches OpView::StartGame(_, p) ==> profiles.contains_key(p))
    &&& (run.op matches OpView::Detect(d) ==> (run.sub is Apply ==> 0 <= d.index < d.games.len()
        && profiles.contains_key(d.games[d.index].profile)))
}

/// Law: the active profile is always `default` or an existing profile. No
/// step of a run makes a profile active that does not exist.
pub proof fn law_active_profile_known(
    e: EngineView,
    profiles: Map<Seq<char>, ProfileView>,
    run: RunView,
    reply: Option<crate::optimizer::ReplyView>,
)
    requires
        run_wf(run),
        profile_known(e, profiles),
        run_profile_known(run, profiles),
    ensures
        ({
            let t = engine_transition(e, profiles, run, reply);
            profile_known(t.0, profiles) && run_profile_known(t.1, profiles)
        }),
{
}

/// Law: a completed restore of everything leaves no game active, no
/// optimization remembered, nothing recorded, and `default` active.
pub proof fn law_restore_all_resets(
    e: EngineView,
    profiles: Map<Seq<char>, ProfileView>,
    r: RestoreView,
    reply: Option<crate::optimizer::ReplyView>,
)
    requires
        restore_wf(r),
        !r.over,
    ensures
        ({
            let t = engine_transition(
                e,
                profiles,
                RunView { op: OpView::RestoreAll, sub: SubView::Restore(r) },
                reply,
            );
            t.2 == StepView::Done(None) ==> t.0 == EngineView {
                active_profile: "default"@,
                active_games: Seq::empty(),
                state_names: Seq::empty(),
                recorded: empty_state(),
            }
        }),
{
    law_restore_clears(r, e.recorded, reply);
}

/// Law: when the last active game stops after a game's optimization
/// completed, everything recorded is put back, and once that succeeds no
/// optimization is remembered, nothing is recorded and `default` is active.
pub proof fn law_last_game_stop_restores(
    e: EngineView,
    profiles: Map<Seq<char>, ProfileView>,
    r: RestoreView,
    reply: Option<crate::optimizer::ReplyView>,
)
    requires
        restore_wf(r),
        !r.over,
    ensures
        ({
            let t = engine_transition(
                e,
                profiles,
                RunView { op: OpView::StopGame, sub: SubView::Restore(r) },
                reply,
            );
            t.2 == StepView::Done(None) ==> t.0 == EngineView {
                active_profile: "default"@,
                state_names: Seq::empty(),
                recorded: empty_state(),
                ..e
            }
        }),
{
    law_restore_clears(r, e.recorded, reply);
}

/// Law: a game a plugin started is put back when it stops. Once the
/// profile it was started with has been applied, that profile is active, and
/// when no other game is active, stopping the game starts a restore of
/// everything recorded.
pub proof fn law_started_game_stop_restores(e: EngineView, name: Seq<char>, profile: Seq<char>)
    requires
        without(e.active_games, name).len() == 0,
    ensures
        ({
            let after = apply_finished(e, OpView::StartGame(name, profile)).0;
            &&& after.active_profile == profile
            &&& after.recorded == e.recorded
            &&& stop_run(after, name) == (RunView {
                op: OpView::StopGame,
                sub: fresh_restore(e.recorded),
            })
        }),
{
}

/// Law: detection never optimizes a game twice. A detected game that is
/// already active is passed over with nothing changed; a new one becomes
/// active before its profile is applied.
pub proof fn law_detect_once(e: EngineView, profiles: Map<Seq<char>, ProfileView>, d: DetectView)
    requires
        0 <= d.index < d.games.len(),
    ensures
        ({
            let t = detect_next(e, profiles, d);
            let name = d.games[d.index].name;
            &&& e.active_games.contains(name) ==> t.0 == e && t.1.sub == SubView::Idle
            &&& !e.active_games.contains(name) ==> t.0.active_games == e.active_games.push(name)
        }),
{
}


/// Law: an engine step never lists an active game twice.
pub proof fn law_active_games_unique(
    e: EngineView,
    profiles: Map<Seq<char>, ProfileView>,
    run: RunView,
    reply: Option<crate::optimizer::ReplyView>,
)
    requires
        e.active_games.no_duplicates(),
    ensures
        engine_transition(e, profiles, run, reply).0.active_games.no_duplicates(),
{
    let t = engine_transition(e, profiles, run, reply);
    if run.sub is Idle && run.op is Detect {
        let d = run.op->Detect_0;
        if 0 <= d.index < d.games.len() && !e.active_games.contains(d.games[d.index].name) {
            let a = e.active_games.push(d.games[d.index].name);
            assert forall|i: int, j: int| 0 <= i < a.len() && 0 <= j < a.len() && i != j implies a[i] != a[j] by {
                if i == a.len() - 1 {
                    assert(e.active_games[j] == a[j]);
                } else if j == a.len() - 1 {
                    assert(e.active_games[i] == a[i]);
                }
            }
        }
    }
}

/// Law: starting a game leaves every active game listed once, the started
/// one among them.
pub proof fn law_start_keeps_games_unique(names: Seq<Seq<char>>, name: Seq<char>)
    requires
        names.no_duplicates(),
    ensures
        with_game(names, name).no_duplicates(),
        with_game(names, name).contains(name),
{
    let a = with_game(names, name);
    if !names.contains(name) {
        assert forall|i: int, j: int| 0 <= i < a.len() && 0 <= j < a.len() && i != j implies a[i] != a[j] by {
            if i == a.len() - 1 {
                assert(names[j] == a[j]);
            } else if j == a.len() - 1 {
                assert(names[i] == a[i]);
            }
        }
        assert(a[a.len() - 1] == name);
    }
}

proof fn lemma_without_subset(names: Seq<Seq<char>>, name: Seq<char>, x: Seq<char>)
    ensures
        without(names, name).contains(x) ==> names.contains(x) && x != name,
    decreases names.len(),
{
    if names.len() > 0 {
        lemma_without_subset(names.drop_last(), name, x);
        if without(names, name).contains(x) {
            if without(names.drop_last(), name).contains(x) {
                let i = choose|i: int| 0 <= i < names.drop_last().len() && names.drop_last()[i] == x;
                assert(names[i] == x);
            } else {
                assert(names[names.len() - 1] == x);
            }
        }
    }
}

/// Law: stopping a game leaves the other active games listed once each,
/// and no longer lists the stopped game.
pub proof fn law_stop_keeps_games_unique(names: Seq<Seq<char>>, name: Seq<char>)
    requires
        names.no_duplicates(),
    ensures
        without(names, name).no_duplicates(),
        !without(names, name).contains(name),
    decreases names.len(),
{
    if names.len() > 0 {
        assert(names.drop_last().no_duplicates());
        law_stop_keeps_games_unique(names.drop_last(), name);
        let prev = without(names.drop_last(), name);
        lemma_without_subset(names.drop_last(), name, names.last());
        if names.last() != name {
            let w = prev.push(names.last());
            assert(!names.drop_last().contains(names.last())) by {
                if names.drop_last().contains(names.last()) {
                    let i = choose|i: int| 0 <= i < names.drop_last().len() && names.drop_last()[i] == names.last();
                    assert(names[i] == names[names.len() - 1]);
                }
            }
            assert forall|i: int, j: int| 0 <= i < w.len() && 0 <= j < w.len() && i != j implies w[i] != w[j] by {
                if i == w.len() - 1 {
                    assert(prev[j] == w[j]);
                    assert(prev.contains(w[j]));
                } else if j == w.len() - 1 {
                    assert(prev[i] == w[i]);
                    assert(prev.contains(w[i]));
                }
            }
            assert(!w.contains(name)) by {
                if w.contains(name) {
                    let i = choose|i: int| 0 <= i < w.len() && w[i] == name;
                    if i < prev.len() {
                        assert(prev[i] == name);
                    }
                }
            }
        }
    } else {
        assert(without(names, name) =~= Seq::<Seq<char>>::empty());
    }
}

/// Law: the pids found for a process name are those of the processes so
/// called: a pid is listed exactly when some process with that pid has that
/// name.
pub proof fn law_pids_named(ps: Seq<(u32, String)>, name: Seq<char>, p: u32)
    ensures
        pids_named(ps, name).contains(p) <==> exists|i: int|
            0 <= i < ps.len() && (#[trigger] ps[i]).0 == p && ps[i].1@ == name,
    decreases ps.len(),
{
    if ps.len() > 0 {
        let prev = pids_named(ps.drop_last(), name);
        law_pids_named(ps.drop_last(), name, p);
        if pids_named(ps, name).contains(p) {
            let k = choose|k: int| 0 <= k < pids_named(ps, name).len() && pids_named(ps, name)[k] == p;
            if k < prev.len() {
                assert(prev[k] == p);
                let i = choose|i: int|
                    0 <= i < ps.drop_last().len() && (#[trigger] ps.drop_last()[i]).0 == p
                        && ps.drop_last()[i].1@ == name;
                assert(ps[i] == ps.drop_last()[i]);
            } else {
                assert(ps[ps.len() - 1].0 == p);
            }
        }
        if exists|i: int| 0 <= i < ps.len() && (#[trigger] ps[i]).0 == p && ps[i].1@ == name {
            let i = choose|i: int| 0 <= i < ps.len() && (#[trigger] ps[i]).0 == p && ps[i].1@ == name;
            if i < ps.len() - 1 {
                assert(ps.drop_last()[i] == ps[i]);
                assert(prev.contains(p));
                let k = choose|k: int| 0 <= k < prev.len() && prev[k] == p;
                assert(pids_named(ps, name)[k] == p);
            } else {
                assert(pids_named(ps, name) == prev.push(p));
                assert(pids_named(ps, name)[prev.len() as int] == p);
            }
        }
    }
}

/// A pid is in a concatenation of pid lists exactly when it is in one of them.
proof fn lemma_concat_contains(ss: Seq<Seq<u32>>, p: u32)
    ensures
        concat_pids(ss).contains(p) <==> exists|k: int| 0 <= k < ss.len() && (#[trigger] ss[k]).contains(p),
    decreases ss.len(),
{
    if ss.len() > 0 {
        let init = ss.drop_last();
        let prev = concat_pids(init);
        let last = ss.last();
        let c = concat_pids(ss);
        lemma_concat_contains(init, p);
        assert(c == prev + last);
        if c.contains(p) {
            let i = choose|i: int| 0 <= i < c.len() && c[i] == p;
            if i < prev.len() {
                assert(prev[i] == p);
                let k = choose|k: int| 0 <= k < init.len() && (#[trigger] init[k]).contains(p);
                assert(ss[k] == init[k]);
            } else {
                assert(last[i - prev.len()] == p);
                assert(ss[ss.len() - 1].contains(p));
            }
        }
        if exists|k: int| 0 <= k < ss.len() && (#[trigger] ss[k]).contains(p) {
            let k = choose|k: int| 0 <= k < ss.len() && (#[trigger] ss[k]).contains(p);
            if k < ss.len() - 1 {
                assert(init[k] == ss[k]);
                assert(prev.contains(p));
                let i = choose|i: int| 0 <= i < prev.len() && prev[i] == p;
                assert(c[i] == p);
            } else {
                let i = choose|i: int| 0 <= i < last.len() && last[i] == p;
                assert(c[prev.len() + i] == p);
            }
        }
    }
}

/// Law: the pids a game's optimization targets are those of its processes:
/// a pid is targeted exactly when some process with that pid is called by
/// one of the game's process names, whichever of them it is.
pub proof fn law_game_pids(g: GameView, ps: Seq<(u32, String)>, p: u32)
    ensures
        game_pids(g, ps).contains(p) <==> exists|i: int, j: int|
            0 <= i < ps.len() && 0 <= j < g.processes.len() && (#[trigger] ps[i]).0 == p && ps[i].1@
                == #[trigger] g.processes[j],
{
    let ss = g.processes.map_values(|n: Seq<char>| pids_named(ps, n));
    lemma_concat_contains(ss, p);
    if game_pids(g, ps).contains(p) {
        let j = choose|k: int| 0 <= k < ss.len() && (#[trigger] ss[k]).contains(p);
        law_pids_named(ps, g.processes[j], p);
        let i = choose|i: int| 0 <= i < ps.len() && (#[trigger] ps[i]).0 == p && ps[i].1@ == g.processes[j];
        assert(ps[i].1@ == g.processes[j]);
    }
    if exists|i: int, j: int|
        0 <= i < ps.len() && 0 <= j < g.processes.len() && (#[trigger] ps[i]).0 == p && ps[i].1@
            == #[trigger] g.processes[j] {
        let (i, j) = choose|i: int, j: int|
            0 <= i < ps.len() && 0 <= j < g.processes.len() && (#[trigger] ps[i]).0 == p && ps[i].1@
                == #[trigger] g.processes[j];
        law_pids_named(ps, g.processes[j], p);
        assert(ss[j].contains(p));
    }
}

/// Law: the pids for a game name. A game with a rule targets the processes
/// its rule names; a game with no rule targets exactly the processes called
/// by the game's own name.
pub proof fn law_pids_for_name(
    games: Map<Seq<char>, GameView>,
    name: Seq<char>,
    ps: Seq<(u32, String)>,
    p: u32,
)
    ensures
        games.contains_key(name) ==> (pids_for_name(games, name, ps).contains(p) <==> exists|
            i: int,
            j: int,
        |
            0 <= i < ps.len() && 0 <= j < games[name].processes.len() && (#[trigger] ps[i]).0 == p
                && ps[i].1@ == #[trigger] games[name].processes[j]),
        !games.contains_key(name) ==> (pids_for_name(games, name, ps).contains(p) <==> exists|i: int|
            0 <= i < ps.len() && (#[trigger] ps[i]).0 == p && ps[i].1@ == name),
{
    if games.contains_key(name) {
        law_game_pids(games[name], ps, p);
    } else {
        law_pids_named(ps, name, p);
    }
}

/// Law: the pids a manual profile activation targets are those of every
/// active game: a pid is targeted exactly when it is among the pids of one
/// of the games named.
pub proof fn law_names_pids(
    games: Map<Seq<char>, GameView>,
    names: Seq<Seq<char>>,
    ps: Seq<(u32, String)>,
    p: u32,
)
    ensures
        names_pids(games, names, ps).contains(p) <==> exists|k: int|
            0 <= k < names.len() && pids_for_name(games, #[trigger] names[k], ps).contains(p),
{
    let ss = names.map_values(|n: Seq<char>| pids_for_name(games, n, ps));
    lemma_concat_contains(ss, p);
    if names_pids(games, names, ps).contains(p) {
        let k = choose|k: int| 0 <= k < ss.len() && (#[trigger] ss[k]).contains(p);
        assert(pids_for_name(games, names[k], ps).contains(p));
    }
    if exists|k: int| 0 <= k < names.len() && pids_for_name(games, #[trigger] names[k], ps).contains(p) {
        let k = choose|k: int| 0 <= k < names.len() && pids_for_name(games, #[trigger] names[k], ps).contains(p);
        assert(ss[k].contains(p));
    }
}

} // verus!