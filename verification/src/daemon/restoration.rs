use vstd::prelude::*;

use crate::config::types::ProfileView;
use crate::daemon::engine::{
    engine_transition, fresh_restore, remove_first, run_wf, stop_run, without, EngineView, OpView,
    RunView, SubView,
};
use crate::optimizer::model::{
    apply_ready, kept, lemma_apply_step, lemma_restore_step, model_after, model_after_all,
    model_reply, restore_ready, same_settings, SysModel,
};
use crate::optimizer::{empty_state, restore_wf, undo_changes, ReplyView, RequestView, StepView};

verus! {

/// An engine run stepped on system `m` for at most `n` steps, each request
/// answered by the system: what the engine keeps and the system at the end,
/// and whether the run succeeded within those steps.
pub open spec fn engine_on(
    e: EngineView,
    profiles: Map<Seq<char>, ProfileView>,
    run: RunView,
    m: SysModel,
    reply: Option<ReplyView>,
    n: nat,
) -> (EngineView, SysModel, bool)
    decreases n,
{
    if n == 0 {
        (e, m, false)
    } else {
        let t = engine_transition(e, profiles, run, reply);
        match t.2 {
            StepView::Request(q) => engine_on(
                t.0,
                profiles,
                t.1,
                model_after(m, q),
                Some(model_reply(m, q)),
                (n - 1) as nat,
            ),
            StepView::Working => engine_on(t.0, profiles, t.1, m, None, (n - 1) as nat),
            StepView::Done(None) => (t.0, m, true),
            _ => (t.0, m, false),
        }
    }
}

/// Where an engine run stands when it is stepped with `reply` on system `m`,
/// as the optimizer run it holds, if any, stands; `mp` and `ms` are the
/// systems before the change an apply run asked for and at the start of a
/// restore run.
pub open spec fn engine_ready(
    e: EngineView,
    run: RunView,
    m: SysModel,
    reply: Option<ReplyView>,
    mp: SysModel,
    ms: SysModel,
    m0: SysModel,
) -> bool {
    match run.sub {
        SubView::Apply(a) => apply_ready(a, e.recorded, m, reply, mp, m0),
        SubView::Restore(r) => restore_ready(r, e.recorded, m, reply, ms, m0),
        SubView::Idle => kept(e.recorded, m, m0),
    }
}

/// Whether `run` is as an engine operation hands it out: with no optimizer
/// run, a fresh apply run, or a fresh restore run of what is recorded.
pub open spec fn fresh_run(run: RunView, e: EngineView) -> bool {
    match run.sub {
        SubView::Idle => true,
        SubView::Apply(a) => a.phase is Start,
        SubView::Restore(_) => run.sub == fresh_restore(e.recorded),
    }
}

/// One step of an engine run on system `m`, from where `engine_ready` says
/// it stands: the next step finds it ready again, and a run that succeeds
/// leaves the record and the system restorable.
proof fn lemma_engine_step(
    e: EngineView,
    profiles: Map<Seq<char>, ProfileView>,
    run: RunView,
    m: SysModel,
    reply: Option<ReplyView>,
    mp: SysModel,
    ms: SysModel,
    m0: SysModel,
) -> (r: (SysModel, SysModel))
    requires
        run_wf(run),
        engine_ready(e, run, m, reply, mp, ms, m0),
    ensures
        ({
            let t = engine_transition(e, profiles, run, reply);
            &&& run_wf(t.1)
            &&& t.2 matches StepView::Request(q) ==> engine_ready(
                t.0,
                t.1,
                model_after(m, q),
                Some(model_reply(m, q)),
                r.0,
                r.1,
                m0,
            )
            &&& t.2 is Working ==> engine_ready(t.0, t.1, m, None, r.0, r.1, m0)
            &&& t.2 == StepView::Done(None) ==> kept(t.0.recorded, m, m0)
        }),
{
    match run.sub {
        SubView::Apply(a) => {
            let mp2 = lemma_apply_step(a, e.recorded, m, reply, mp, m0);
            (mp2, ms)
        },
        SubView::Restore(rr) => {
            lemma_restore_step(rr, e.recorded, m, reply, ms, m0);
            (mp, ms)
        },
        SubView::Idle => (mp, ms),
    }
}

/// Stepping an engine run on a system keeps the record and the system
/// restorable, up to the end of a run that succeeds.
proof fn lemma_engine_on(
    e: EngineView,
    profiles: Map<Seq<char>, ProfileView>,
    run: RunView,
    m: SysModel,
    reply: Option<ReplyView>,
    n: nat,
    mp: SysModel,
    ms: SysModel,
    m0: SysModel,
)
    requires
        run_wf(run),
        engine_ready(e, run, m, reply, mp, ms, m0),
    ensures
        ({
            let r = engine_on(e, profiles, run, m, reply, n);
            r.2 ==> kept(r.0.recorded, r.1, m0)
        }),
    decreases n,
{
    if n > 0 {
        let (mp2, ms2) = lemma_engine_step(e, profiles, run, m, reply, mp, ms, m0);
        let t = engine_transition(e, profiles, run, reply);
        match t.2 {
            StepView::Request(q) => {
                lemma_engine_on(
                    t.0,
                    profiles,
                    t.1,
                    model_after(m, q),
                    Some(model_reply(m, q)),
                    (n - 1) as nat,
                    mp2,
                    ms2,
                    m0,
                );
            },
            StepView::Working => {
                lemma_engine_on(t.0, profiles, t.1, m, None, (n - 1) as nat, mp2, ms2, m0);
            },
            _ => {},
        }
    }
}

/// Law: the engine keeps the system restorable. When restoring what the
/// engine has recorded on system `m` would give back system `m0`, it still
/// would once any run an engine operation hands out (detecting games,
/// starting or stopping a game, activating a profile, restoring) has
/// succeeded on `m`.
pub proof fn law_engine_keeps_restorable(
    e: EngineView,
    profiles: Map<Seq<char>, ProfileView>,
    run: RunView,
    m: SysModel,
    m0: SysModel,
    n: nat,
)
    requires
        run_wf(run),
        fresh_run(run, e),
        kept(e.recorded, m, m0),
    ensures
        ({
            let r = engine_on(e, profiles, run, m, None, n);
            r.2 ==> kept(r.0.recorded, r.1, m0)
        }),
{
    if run.sub is Restore {
        assert(model_after_all(m, Seq::<RequestView>::empty()) == m);
        let rr = run.sub->Restore_0;
        assert(rr.requests.take(0) =~= Seq::<RequestView>::empty());
    }
    lemma_engine_on(e, profiles, run, m, None, n, m, m, m0);
}

/// Law: a completed restore gives the system back. When restoring what the
/// engine has recorded on system `m` would give back system `m0`, a restore
/// of everything (`restore_all`, or the restore that stopping the last game
/// starts) that succeeds on `m` leaves every setting as in `m0`, with
/// nothing recorded and `default` active.
pub proof fn law_completed_restore_gives_back(
    e: EngineView,
    profiles: Map<Seq<char>, ProfileView>,
    op: OpView,
    m: SysModel,
    m0: SysModel,
    n: nat,
)
    requires
        op is RestoreAll || op is StopGame,
        kept(e.recorded, m, m0),
    ensures
        ({
            let r = engine_on(e, profiles, RunView { op, sub: fresh_restore(e.recorded) }, m, None, n);
            r.2 ==> same_settings(r.1, m0) && r.0.recorded == empty_state()
                && r.0.active_profile == "default"@
        }),
{
    let run = RunView { op, sub: fresh_restore(e.recorded) };
    assert(model_after_all(m, Seq::<RequestView>::empty()) == m);
    assert(undo_changes(e.recorded).take(0) =~= Seq::<RequestView>::empty());
    lemma_restore_run(e, profiles, run, m, None, n, m, m0);
}

/// A restore run of everything, stepped on a system, ends (when it
/// succeeds) with every setting given back, nothing recorded and `default`
/// active.
proof fn lemma_restore_run(
    e: EngineView,
    profiles: Map<Seq<char>, ProfileView>,
    run: RunView,
    m: SysModel,
    reply: Option<ReplyView>,
    n: nat,
    ms: SysModel,
    m0: SysModel,
)
    requires
        run.op is RestoreAll || run.op is StopGame,
        run.sub matches SubView::Restore(rr) && restore_wf(rr) && restore_ready(
            rr,
            e.recorded,
            m,
            reply,
            ms,
            m0,
        ),
    ensures
        ({
            let r = engine_on(e, profiles, run, m, reply, n);
            r.2 ==> same_settings(r.1, m0) && r.0.recorded == empty_state()
                && r.0.active_profile == "default"@
        }),
    decreases n,
{
    if n > 0 {
        let rr = run.sub->Restore_0;
        lemma_restore_step(rr, e.recorded, m, reply, ms, m0);
        let t = engine_transition(e, profiles, run, reply);
        if let StepView::Request(q) = t.2 {
            lemma_restore_run(t.0, profiles, t.1, model_after(m, q), Some(model_reply(m, q)), (n - 1) as nat, ms, m0);
        }
    }
}

/// Law: a game's exit gives the system back. When restoring what the engine
/// has recorded on system `m` would give back system `m0`, and game `name`
/// stops as the last active game after a game's optimization completed, the
/// run that stopping it hands out, once it succeeds on `m`, leaves every
/// setting as in `m0`, with nothing recorded and `default` active.
pub proof fn law_game_exit_gives_back(
    e: EngineView,
    profiles: Map<Seq<char>, ProfileView>,
    name: Seq<char>,
    m: SysModel,
    m0: SysModel,
    n: nat,
)
    requires
        kept(e.recorded, m, m0),
        without(e.active_games, name).len() == 0,
        e.state_names.len() > 0,
    ensures
        ({
            let after = EngineView {
                active_games: without(e.active_games, name),
                state_names: remove_first(e.state_names, name),
                ..e
            };
            let r = engine_on(after, profiles, stop_run(e, name), m, None, n);
            r.2 ==> same_settings(r.1, m0) && r.0.recorded == empty_state() && r.0.active_profile
                == "default"@
        }),
{
    let after = EngineView {
        active_games: without(e.active_games, name),
        state_names: remove_first(e.state_names, name),
        ..e
    };
    law_completed_restore_gives_back(after, profiles, OpView::StopGame, m, m0, n);
}

} // verus!
