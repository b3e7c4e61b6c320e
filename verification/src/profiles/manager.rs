use vstd::prelude::*;

use crate::config::types::{GameRule, GameView, ProfileConfig, ProfileView};
use crate::table::{assoc_map, has_key, keys_unique, lemma_assoc_map_dom, lemma_assoc_map_unique, Table};
use crate::text::str_eq;

verus! {

/// The profile pairs by their views.
pub open spec fn profile_pairs(profiles: Seq<(String, ProfileConfig)>) -> Seq<(Seq<char>, ProfileView)> {
    profiles.map_values(|p: (String, ProfileConfig)| (p.0@, p.1@))
}

/// The game rules keyed by game name.
pub open spec fn game_pairs(games: Seq<GameRule>) -> Seq<(Seq<char>, GameView)> {
    games.map_values(|g: GameRule| (g.name@, g@))
}

/// Where the first game (in `gs` order) that lists process `p` stands.
pub open spec fn first_game_running(gs: Seq<(Seq<char>, GameView)>, p: Seq<char>) -> Option<int>
    decreases gs.len(),
{
    if gs.len() == 0 {
        None
    } else if gs[0].1.processes.contains(p) {
        Some(0)
    } else {
        match first_game_running(gs.drop_first(), p) {
            Some(i) => Some(i + 1),
            None => None,
        }
    }
}

/// Where `first_game_running` stands, a game that lists `p`; when it finds
/// none, no game lists `p`.
proof fn lemma_first_game_running(gs: Seq<(Seq<char>, GameView)>, p: Seq<char>)
    ensures
        first_game_running(gs, p) matches Some(i) ==> 0 <= i < gs.len() && gs[i].1.processes.contains(
            p,
        ),
        first_game_running(gs, p) is None ==> forall|j: int|
            0 <= j < gs.len() ==> !(#[trigger] gs[j]).1.processes.contains(p),
    decreases gs.len(),
{
    if gs.len() > 0 {
        lemma_first_game_running(gs.drop_first(), p);
        if first_game_running(gs, p) is None {
            assert forall|j: int| 0 <= j < gs.len() implies !(#[trigger] gs[j]).1.processes.contains(
                p,
            ) by {
                if j > 0 {
                    assert(gs.drop_first()[j - 1] == gs[j]);
                }
            }
        }
    }
}

/// Looks up profiles by name and game rules by game name.
#[derive(Debug)]
pub struct ProfileManager {
    profiles: Table<String, ProfileConfig>,
    games: Table<String, GameRule>,
}

impl ProfileManager {
    /// The profiles, by name.
    pub closed spec fn profiles_map(&self) -> Map<Seq<char>, ProfileView> {
        self.profiles.map()
    }

    /// The profile names, each once, in the order they were first given.
    pub closed spec fn profile_names(&self) -> Seq<Seq<char>> {
        self.profiles.pairs().map_values(|p: (Seq<char>, ProfileView)| p.0)
    }

    /// The game rules by game name, each name once, in the order the names were
    /// first given.
    pub closed spec fn games(&self) -> Seq<(Seq<char>, GameView)> {
        self.games.pairs()
    }

    /// The game rules, by game name.
    pub closed spec fn games_map(&self) -> Map<Seq<char>, GameView> {
        self.games.map()
    }

    /// The game names, in the order of `games`.
    pub open spec fn game_names(&self) -> Seq<Seq<char>> {
        self.games().map_values(|p: (Seq<char>, GameView)| p.0)
    }

    /// Whether the game rules are listed once per name and are exactly the
    /// rules held, by name.
    pub open spec fn games_match(&self) -> bool {
        &&& keys_unique(self.games())
        &&& self.games_map() == assoc_map(self.games())
    }

    /// When the games match, each listed rule is the one held under its
    /// name, the names are listed once each, and they are the names held.
    pub proof fn lemma_games_match(&self)
        requires
            self.games_match(),
        ensures
            forall|i: int|
                0 <= i < self.games().len() ==> self.games_map().contains_key(
                    (#[trigger] self.games()[i]).0,
                ) && self.games_map()[self.games()[i].0] == self.games()[i].1,
            self.game_names().no_duplicates(),
            self.game_names().to_set() == self.games_map().dom(),
    {
        let gs = self.games();
        let names = self.game_names();
        assert forall|i: int| 0 <= i < gs.len() implies self.games_map().contains_key(
            (#[trigger] gs[i]).0,
        ) && self.games_map()[gs[i].0] == gs[i].1 by {
            lemma_assoc_map_unique(gs, i);
        }
        assert forall|a: int, b: int| 0 <= a < names.len() && 0 <= b < names.len() && a != b implies names[a]
            != names[b] by {
            if a < b {
                assert(gs[a].0 != gs[b].0);
            } else {
                assert(gs[b].0 != gs[a].0);
            }
        }
        assert forall|k: Seq<char>| names.to_set().contains(k) <==> self.games_map().dom().contains(k) by {
            lemma_assoc_map_dom(gs, k);
            if names.to_set().contains(k) {
                let i = choose|i: int| 0 <= i < names.len() && names[i] == k;
                assert(gs[i].0 == k);
            }
            if has_key(gs, k) {
                let i = choose|i: int| 0 <= i < gs.len() && (#[trigger] gs[i]).0 == k;
                assert(names[i] == k);
            }
        }
        assert(names.to_set() =~= self.games_map().dom());
    }

    /// Whether the profile names are listed without repeats and name exactly
    /// the profiles held.
    pub open spec fn names_match(&self) -> bool {
        &&& self.profile_names().no_duplicates()
        &&& self.profile_names().to_set() == self.profiles_map().dom()
    }

    /// A manager for the given profiles and games; a later profile or game of
    /// the same name replaces an earlier one.
    pub fn new(profiles: Vec<(String, ProfileConfig)>, games: Vec<GameRule>) -> (r: Self)
        ensures
            r.profiles_map() == assoc_map(profile_pairs(profiles@)),
            r.games_map() == assoc_map(game_pairs(games@)),
            r.games_match(),
    {
        let mut ptable: Table<String, ProfileConfig> = Table::new();
        let mut i: usize = 0;
        proof {
            assert(profile_pairs(profiles@).take(0) =~= Seq::<(Seq<char>, ProfileView)>::empty());
            assert(ptable.map() =~= Map::<Seq<char>, ProfileView>::empty());
        }
        while i < profiles.len()
            invariant
                i <= profiles.len(),
                ptable.map() == assoc_map(profile_pairs(profiles@).take(i as int)),
            decreases profiles.len() - i,
        {
            let name = profiles[i].0.clone();
            let profile = profiles[i].1.duplicate();
            ptable.insert(name, profile);
            proof {
                let ps = profile_pairs(profiles@);
                assert(ps.take(i + 1).drop_last() =~= ps.take(i as int));
                assert(ps[i as int] == (profiles@[i as int].0@, profiles@[i as int].1@));
            }
            i = i + 1;
        }
        proof {
            assert(profile_pairs(profiles@).take(profiles.len() as int) =~= profile_pairs(profiles@));
        }
        let mut gtable: Table<String, GameRule> = Table::new();
        let mut k: usize = 0;
        proof {
            assert(game_pairs(games@).take(0) =~= Seq::<(Seq<char>, GameView)>::empty());
            assert(gtable.map() =~= Map::<Seq<char>, GameView>::empty());
        }
        while k < games.len()
            invariant
                k <= games.len(),
                gtable.map() == assoc_map(game_pairs(games@).take(k as int)),
            decreases games.len() - k,
        {
            let name = games[k].name.clone();
            let game = games[k].duplicate();
            gtable.insert(name, game);
            proof {
                let gs = game_pairs(games@);
                assert(gs.take(k + 1).drop_last() =~= gs.take(k as int));
                assert(gs[k as int] == (games@[k as int].name@, games@[k as int]@));
            }
            k = k + 1;
        }
        proof {
            assert(game_pairs(games@).take(games.len() as int) =~= game_pairs(games@));
        }
        proof {
            use_type_invariant(&gtable);
        }
        ProfileManager { profiles: ptable, games: gtable }
    }

    /// The profile called `name`, if there is one.
    pub fn get_profile(&self, name: &str) -> (r: Option<&ProfileConfig>)
        ensures
            r is Some <==> self.profiles_map().contains_key(name@),
            r matches Some(p) ==> p@ == self.profiles_map()[name@],
    {
        let key = name.to_owned();
        self.profiles.get(&key)
    }

    /// The names of all profiles, each once.
    pub fn list_profiles(&self) -> (r: Vec<String>)
        ensures
            r.deep_view() == self.profile_names(),
            self.names_match(),
    {
        proof {
            use_type_invariant(&self.profiles);
            self.lemma_names_match();
        }
        let entries = self.profiles.entries();
        let mut r: Vec<String> = Vec::new();
        let mut i: usize = 0;
        while i < entries.len()
            invariant
                i <= entries.len(),
                entries@.len() == self.profiles.pairs().len(),
                forall|j: int|
                    0 <= j < entries@.len() ==> ((#[trigger] entries@[j]).0.deep_view(),
                    entries@[j].1.deep_view()) == self.profiles.pairs()[j],
                r.len() == i,
                forall|j: int| 0 <= j < i ==> (#[trigger] r@[j])@ == self.profile_names()[j],
            decreases entries.len() - i,
        {
            r.push(entries[i].0.clone());
            i = i + 1;
        }
        proof {
            assert(r.deep_view() =~= self.profile_names());
        }
        r
    }

    proof fn lemma_names_match(&self)
        requires
            crate::table::keys_unique(self.profiles.pairs()),
        ensures
            self.names_match(),
    {
        let ps = self.profiles.pairs();
        let names = self.profile_names();
        assert forall|a: int, b: int| 0 <= a < names.len() && 0 <= b < names.len() && a != b implies names[a]
            != names[b] by {
            if a < b {
                assert(ps[a].0 != ps[b].0);
            } else {
                assert(ps[b].0 != ps[a].0);
            }
        }
        assert forall|k: Seq<char>| names.to_set().contains(k) <==> self.profiles_map().dom().contains(k) by {
            crate::table::lemma_assoc_map_dom(ps, k);
            if names.to_set().contains(k) {
                let i = choose|i: int| 0 <= i < names.len() && names[i] == k;
                assert(ps[i].0 == k);
            }
            if crate::table::has_key(ps, k) {
                let i = choose|i: int| 0 <= i < ps.len() && (#[trigger] ps[i]).0 == k;
                assert(names[i] == k);
            }
        }
        assert(names.to_set() =~= self.profiles_map().dom());
    }

    /// The game rule for the game called `name`, if there is one.
    pub fn get_game_rule(&self, name: &str) -> (r: Option<&GameRule>)
        ensures
            r is Some <==> self.games_map().contains_key(name@),
            r matches Some(g) ==> g@ == self.games_map()[name@],
    {
        let key = name.to_owned();
        self.games.get(&key)
    }

    /// The names of all games, each once.
    pub fn list_games(&self) -> (r: Vec<&String>)
        ensures
            r@.len() == self.games().len(),
            forall|i: int| 0 <= i < r@.len() ==> (#[trigger] r@[i])@ == self.games()[i].0,
            self.games_match(),
            self.game_names().no_duplicates(),
            self.game_names().to_set() == self.games_map().dom(),
    {
        proof {
            use_type_invariant(&self.games);
            self.lemma_games_match();
        }
        let entries = self.games.entries();
        let mut r: Vec<&String> = Vec::new();
        let mut i: usize = 0;
        while i < entries.len()
            invariant
                i <= entries.len(),
                entries@.len() == self.games.pairs().len(),
                forall|j: int|
                    0 <= j < entries@.len() ==> ((#[trigger] entries@[j]).0.deep_view(),
                    entries@[j].1.deep_view()) == self.games.pairs()[j],
                r@.len() == i,
                forall|j: int| 0 <= j < i ==> (#[trigger] r@[j])@ == self.games.pairs()[j].0,
            decreases entries.len() - i,
        {
            r.push(&entries[i].0);
            i = i + 1;
        }
        r
    }

    /// The profile of the first game (in the order of `games`) that lists
    /// `process_name` among its processes; none if there is no such game or
    /// its profile is not defined. A profile found is that of a game rule held
    /// that lists the process; when every rule's profile is defined, one is
    /// found exactly when some rule lists the process.
    pub fn find_profile_for_process(&self, process_name: &str) -> (r: Option<&ProfileConfig>)
        ensures
            self.games_match(),
            match first_game_running(self.games(), process_name@) {
                None => r is None,
                Some(i) => {
                    let want = self.games()[i].1.profile;
                    &&& (r is Some <==> self.profiles_map().contains_key(want))
                    &&& (r matches Some(p) ==> p@ == self.profiles_map()[want])
                },
            },
            r matches Some(p) ==> exists|k: Seq<char>|
                #[trigger] self.games_map().contains_key(k) && self.games_map()[k].processes.contains(
                    process_name@,
                ) && self.profiles_map().contains_key(self.games_map()[k].profile) && p@
                    == self.profiles_map()[self.games_map()[k].profile],
            (forall|k: Seq<char>|
                #[trigger] self.games_map().contains_key(k) ==> self.profiles_map().contains_key(
                    self.games_map()[k].profile,
                )) ==> (r is Some <==> exists|k: Seq<char>|
                #[trigger] self.games_map().contains_key(k) && self.games_map()[k].processes.contains(
                    process_name@,
                )),
    {
        proof {
            use_type_invariant(&self.games);
            self.lemma_games_match();
            lemma_first_game_running(self.games(), process_name@);
        }
        let r = self.first_listing_profile(process_name);
        proof {
            let gs = self.games();
            let m = self.games_map();
            match first_game_running(gs, process_name@) {
                Some(i) => {
                    assert(m.contains_key(gs[i].0));
                },
                None => {
                    assert forall|k: Seq<char>| #[trigger] m.contains_key(k) implies !m[k].processes.contains(
                        process_name@,
                    ) by {
                        lemma_assoc_map_dom(gs, k);
                        let j = choose|j: int| 0 <= j < gs.len() && (#[trigger] gs[j]).0 == k;
                        assert(m[gs[j].0] == gs[j].1);
                    }
                },
            }
        }
        r
    }

    /// The profile of the first game (in the order of `games`) that lists
    /// `process_name`, as `find_profile_for_process` describes it.
    fn first_listing_profile(&self, process_name: &str) -> (r: Option<&ProfileConfig>)
        ensures
            match first_game_running(self.games(), process_name@) {
                None => r is None,
                Some(i) => {
                    let want = self.games()[i].1.profile;
                    &&& (r is Some <==> self.profiles_map().contains_key(want))
                    &&& (r matches Some(p) ==> p@ == self.profiles_map()[want])
                },
            },
    {
        let entries = self.games.entries();
        let ghost gs = self.games.pairs();
        let mut i: usize = 0;
        proof {
            assert(gs.skip(0) =~= gs);
        }
        while i < entries.len()
            invariant
                i <= entries.len(),
                gs == self.games(),
                entries@.len() == gs.len(),
                forall|j: int|
                    0 <= j < entries@.len() ==> ((#[trigger] entries@[j]).0.deep_view(),
                    entries@[j].1.deep_view()) == gs[j],
                first_game_running(gs, process_name@) == match first_game_running(
                    gs.skip(i as int),
                    process_name@,
                ) {
                    Some(j) => Some(j + i),
                    None => None,
                },
            decreases entries.len() - i,
        {
            let game = &entries[i].1;
            proof {
                assert(gs.skip(i as int)[0] == gs[i as int]);
                assert(gs.skip(i as int).drop_first() =~= gs.skip(i + 1));
            }
            if Self::lists_process(game, process_name) {
                return self.get_profile(game.profile.as_str());
            }
            i = i + 1;
        }
        proof {
            assert(gs.skip(i as int) =~= Seq::<(Seq<char>, GameView)>::empty());
        }
        None
    }

    /// Whether `game` lists `process` among its processes.
    fn lists_process(game: &GameRule, process: &str) -> (r: bool)
        ensures
            r == game@.processes.contains(process@),
    {
        let mut i: usize = 0;
        while i < game.processes.len()
            invariant
                i <= game.processes.len(),
                forall|j: int| 0 <= j < i ==> (#[trigger] game.processes@[j])@ != process@,
            decreases game.processes.len() - i,
        {
            if str_eq(game.processes[i].as_str(), process) {
                assert(game@.processes[i as int] == process@);
                return true;
            }
            i = i + 1;
        }
        proof {
            if game@.processes.contains(process@) {
                let j = choose|j: int| 0 <= j < game@.processes.len() && game@.processes[j] == process@;
                assert(game.processes@[j]@ == process@);
            }
        }
        false
    }
}


/// Law: when several profiles share a name, the last one given is the one
/// looked up under that name.
pub proof fn law_last_profile_wins(profiles: Seq<(String, ProfileConfig)>, i: int)
    requires
        0 <= i < profiles.len(),
        forall|j: int| i < j < profiles.len() ==> (#[trigger] profiles[j]).0@ != profiles[i].0@,
    ensures
        assoc_map(profile_pairs(profiles)).contains_key(profiles[i].0@),
        assoc_map(profile_pairs(profiles))[profiles[i].0@] == profiles[i].1@,
{
    let ps = profile_pairs(profiles);
    assert forall|m: int| i < m < ps.len() implies (#[trigger] ps[m]).0 != ps[i].0 by {
        assert(profiles[m].0@ != profiles[i].0@);
    }
    crate::table::lemma_assoc_map_last(ps, i);
}

} // verus!
