use vstd::prelude::*;

use crate::config::types::{copy_strings, GameRule};
use crate::error::EngineError;
use crate::system::cpu::{runs_process, SystemUtils};
use crate::text::names_contain;

verus! {

/// Whether one of the processes of `g` runs.
pub open spec fn game_runs(g: GameRule, ps: Seq<(u32, String)>) -> bool {
    exists|i: int| 0 <= i < g.processes@.len() && runs_process(ps, (#[trigger] g.processes@[i])@)
}

/// Whether a game called `name` is among `gs`.
pub open spec fn has_game_named(gs: Seq<GameRule>, name: Seq<char>) -> bool {
    exists|i: int| 0 <= i < gs.len() && (#[trigger] gs[i]).name@ == name
}

/// The games of `games` that run, in order, keeping only the first game of
/// each name.
pub open spec fn detected_games(games: Seq<GameRule>, ps: Seq<(u32, String)>) -> Seq<GameRule>
    decreases games.len(),
{
    if games.len() == 0 {
        Seq::empty()
    } else {
        let prev = detected_games(games.drop_last(), ps);
        let g = games.last();
        if game_runs(g, ps) && !has_game_named(prev, g.name@) {
            prev.push(g)
        } else {
            prev
        }
    }
}

/// The names of `gs`, in order.
pub open spec fn game_names(gs: Seq<GameRule>) -> Seq<Seq<char>> {
    gs.map_values(|g: GameRule| g.name@)
}

/// Finds which configured games run, and remembers them until the next check.
#[derive(Debug)]
pub struct GameDetector {
    games: Vec<GameRule>,
    active_games: Vec<String>,
}

impl GameDetector {
    /// The configured games.
    pub closed spec fn spec_games(&self) -> Seq<GameRule> {
        self.games@
    }

    /// The names of the games found running at the last check.
    pub closed spec fn active(&self) -> Seq<Seq<char>> {
        self.active_games.deep_view()
    }

    /// A detector for `games`, with no game found running yet.
    pub fn new(games: Vec<GameRule>) -> (r: Self)
        ensures
            r.spec_games() == games@,
            r.active().len() == 0,
    {
        let d = GameDetector { games, active_games: Vec::new() };
        assert(d.active() =~= Seq::<Seq<char>>::empty());
        d
    }

    /// The configured games that run among `processes` (a game runs when one
    /// of its processes does), in configuration order and each name once;
    /// they become the active games.
    pub fn check_games(&mut self, processes: &Vec<(u32, String)>) -> (r: Result<
        Vec<GameRule>,
        EngineError,
    >)
        ensures
            final(self).spec_games() == old(self).spec_games(),
            r matches Ok(found) && found@.len() == detected_games(
                old(self).spec_games(),
                processes@,
            ).len() && (forall|i: int|
                0 <= i < found@.len() ==> (#[trigger] found@[i])@ == detected_games(
                    old(self).spec_games(),
                    processes@,
                )[i]@) && final(self).active() == game_names(
                detected_games(old(self).spec_games(), processes@),
            ),
    {
        let mut detected: Vec<GameRule> = Vec::new();
        let mut names: Vec<String> = Vec::new();
        let ghost games = self.games@;
        let mut i: usize = 0;
        proof {
            assert(games.take(0) =~= Seq::<GameRule>::empty());
            assert(names.deep_view() =~= Seq::<Seq<char>>::empty());
        }
        while i < self.games.len()
            invariant
                games == self.games@,
                i <= games.len(),
                detected@.len() == detected_games(games.take(i as int), processes@).len(),
                forall|j: int|
                    0 <= j < detected@.len() ==> (#[trigger] detected@[j])@ == detected_games(
                        games.take(i as int),
                        processes@,
                    )[j]@,
                names.deep_view() == game_names(detected_games(games.take(i as int), processes@)),
            decreases games.len() - i,
        {
            let game = &self.games[i];
            let ghost prev = detected_games(games.take(i as int), processes@);
            proof {
                assert(games.take(i + 1).drop_last() =~= games.take(i as int));
                assert(games.take(i + 1).last() == games[i as int]);
            }
            let runs = Self::runs(game, processes);
            if runs && !names_contain(&names, game.name.as_str()) {
                proof {
                    assert(!has_game_named(prev, game.name@)) by {
                        if has_game_named(prev, game.name@) {
                            let j = choose|j: int| 0 <= j < prev.len() && (#[trigger] prev[j]).name@ == game.name@;
                            assert(names.deep_view()[j] == game.name@);
                        }
                    }
                }
                let ghost before = names.deep_view();
                detected.push(game.duplicate());
                names.push(game.name.clone());
                proof {
                    let next = detected_games(games.take(i + 1), processes@);
                    assert(next == prev.push(*game));
                    assert(names.deep_view() =~= before.push(game.name@));
                    assert(game_names(prev.push(*game)) =~= game_names(prev).push(game.name@));
                    assert(names.deep_view() =~= game_names(next));
                }
            } else {
                proof {
                    if runs {
                        let j = choose|j: int| 0 <= j < names.deep_view().len() && names.deep_view()[j] == game.name@;
                        assert(prev[j].name@ == game.name@);
                    }
                }
            }
            i = i + 1;
        }
        proof {
            assert(games.take(games.len() as int) =~= games);
        }
        self.active_games = names;
        Ok(detected)
    }

    /// Whether one of the processes of `game` runs among `processes`.
    fn runs(game: &GameRule, processes: &Vec<(u32, String)>) -> (r: bool)
        ensures
            r == game_runs(*game, processes@),
    {
        let mut k: usize = 0;
        while k < game.processes.len()
            invariant
                k <= game.processes.len(),
                forall|j: int| 0 <= j < k ==> !runs_process(processes@, (#[trigger] game.processes@[j])@),
            decreases game.processes.len() - k,
        {
            if SystemUtils::is_process_running(game.processes[k].as_str(), processes) {
                return true;
            }
            k = k + 1;
        }
        false
    }

    /// The names of the games found running at the last check.
    pub fn get_active_games(&self) -> (r: Vec<String>)
        ensures
            r.deep_view() == self.active(),
    {
        copy_strings(&self.active_games)
    }

    /// Whether the game called `name` was found running at the last check.
    pub fn is_game_active(&self, name: &str) -> (r: bool)
        ensures
            r == self.active().contains(name@),
    {
        names_contain(&self.active_games, name)
    }

    /// The configured games.
    pub fn games(&self) -> (r: &Vec<GameRule>)
        ensures
            r@ == self.spec_games(),
    {
        &self.games
    }
}


/// Law: the games found running are named each once, so the active games
/// form a set.
pub proof fn law_detected_names_unique(games: Seq<GameRule>, ps: Seq<(u32, String)>)
    ensures
        game_names(detected_games(games, ps)).no_duplicates(),
    decreases games.len(),
{
    if games.len() > 0 {
        law_detected_names_unique(games.drop_last(), ps);
        let prev = detected_games(games.drop_last(), ps);
        let g = games.last();
        if game_runs(g, ps) && !has_game_named(prev, g.name@) {
            let names = game_names(prev.push(g));
            assert forall|i: int, j: int| 0 <= i < names.len() && 0 <= j < names.len() && i != j implies names[i] != names[j] by {
                if i == prev.len() as int {
                    assert(prev[j].name@ == names[j]);
                } else if j == prev.len() as int {
                    assert(prev[i].name@ == names[i]);
                } else {
                    assert(game_names(prev)[i] == names[i]);
                    assert(game_names(prev)[j] == names[j]);
                }
            }
        }
    }
}

} // verus!
