use vstd::prelude::*;
use vstd::string::*;

use crate::config::types::{Config, GameRule, ProfileConfig};
use crate::error::EngineError;
use crate::text::str_eq;

verus! {

/// What reading and parsing the configuration file gave: the file could not
/// be read, or its text did not parse (each with the reason), or the parsed
/// configuration.
#[derive(Debug)]
pub enum ConfigSource {
    Unreadable(String),
    Unparsable(String),
    Parsed(Config),
}

/// Whether one of the profile pairs is named `name`.
pub open spec fn names_profile(profiles: Seq<(String, ProfileConfig)>, name: Seq<char>) -> bool {
    exists|i: int| 0 <= i < profiles.len() && (#[trigger] profiles[i]).0@ == name
}

/// The first game, by position, whose profile is not among `profiles`.
pub open spec fn first_unknown_game(
    games: Seq<GameRule>,
    profiles: Seq<(String, ProfileConfig)>,
) -> Option<int>
    decreases games.len(),
{
    if games.len() == 0 {
        None
    } else if !names_profile(profiles, games[0].profile@) {
        Some(0)
    } else {
        match first_unknown_game(games.drop_first(), profiles) {
            Some(i) => Some(i + 1),
            None => None,
        }
    }
}

pub open spec fn unknown_profile_message(game: Seq<char>, profile: Seq<char>) -> Seq<char> {
    "Game '"@ + game + "' references unknown profile '"@ + profile + "'"@
}

/// Why a configuration is refused, if it is: it defines no profile; or a game
/// (the first such) names a profile it does not define; or it polls more often
/// than every 100 ms.
pub open spec fn validation_error(c: Config) -> Option<Seq<char>> {
    if c.profiles@.len() == 0 {
        Some("No profiles defined"@)
    } else {
        match first_unknown_game(c.games@, c.profiles@) {
            Some(i) => Some(unknown_profile_message(c.games@[i].name@, c.games@[i].profile@)),
            None => if c.daemon.poll_interval_ms < 100 {
                Some("poll_interval_ms must be >= 100"@)
            } else {
                None
            },
        }
    }
}

/// Why a configuration source gives no configuration, if it does not.
pub open spec fn source_error(source: ConfigSource) -> Option<Seq<char>> {
    match source {
        ConfigSource::Unreadable(e) => Some("Cannot read config file: "@ + e@),
        ConfigSource::Unparsable(e) => Some("Cannot parse config: "@ + e@),
        ConfigSource::Parsed(c) => validation_error(c),
    }
}

/// Whether `e` is a configuration error with message `msg`.
pub open spec fn is_config_error(e: EngineError, msg: Seq<char>) -> bool {
    e matches EngineError::Config(m) && m@ == msg
}

/// A configuration error with the message `prefix` followed by `detail`.
fn config_error(prefix: &str, detail: &str) -> (e: EngineError)
    ensures
        is_config_error(e, prefix@ + detail@),
{
    let mut m = prefix.to_owned();
    m.append(detail);
    EngineError::Config(m)
}

/// Holds the configuration read from one file, and replaces it when the file
/// is read again and passes validation.
#[derive(Debug)]
pub struct ConfigLoader {
    path: String,
    config: Config,
}

impl ConfigLoader {
    /// The file the configuration comes from.
    pub closed spec fn spec_path(&self) -> Seq<char> {
        self.path@
    }

    /// The configuration now held.
    pub closed spec fn spec_config(&self) -> Config {
        self.config
    }

    /// A loader for the file at `path`, holding the configuration that
    /// `source` gives, or the reason there is none.
    pub fn new(path: String, source: ConfigSource) -> (r: Result<ConfigLoader, EngineError>)
        ensures
            source_error(source) is None <==> r is Ok,
            r matches Ok(l) ==> l.spec_path() == path@ && source == ConfigSource::Parsed(
                l.spec_config(),
            ),
            r matches Err(e) ==> is_config_error(e, source_error(source)->0),
    {
        match Self::load_from_file(source) {
            Ok(config) => Ok(ConfigLoader { path, config }),
            Err(e) => Err(e),
        }
    }

    /// The configuration now held.
    pub fn get(&self) -> (r: &Config)
        ensures
            *r == self.spec_config(),
    {
        &self.config
    }

    /// The file the configuration comes from.
    pub fn path(&self) -> (r: &str)
        ensures
            r@ == self.spec_path(),
    {
        self.path.as_str()
    }

    /// Takes the configuration that reading the file again gave: a valid one
    /// replaces the one held; otherwise the one held stays and the reason is
    /// returned.
    pub fn reload(&mut self, source: ConfigSource) -> (r: Result<(), EngineError>)
        ensures
            source_error(source) is None <==> r is Ok,
            final(self).spec_path() == old(self).spec_path(),
            r is Ok ==> source == ConfigSource::Parsed(final(self).spec_config()),
            r is Err ==> final(self).spec_config() == old(self).spec_config(),
            r matches Err(e) ==> is_config_error(e, source_error(source)->0),
    {
        match Self::load_from_file(source) {
            Ok(config) => {
                self.config = config;
                Ok(())
            },
            Err(e) => Err(e),
        }
    }

    /// The configuration that `source` gives, once validated.
    pub fn load_from_file(source: ConfigSource) -> (r: Result<Config, EngineError>)
        ensures
            source_error(source) is None <==> r is Ok,
            r matches Ok(c) ==> source == ConfigSource::Parsed(c),
            r matches Err(e) ==> is_config_error(e, source_error(source)->0),
    {
        match source {
            ConfigSource::Unreadable(e) => Err(config_error("Cannot read config file: ", e.as_str())),
            ConfigSource::Unparsable(e) => Err(config_error("Cannot parse config: ", e.as_str())),
            ConfigSource::Parsed(config) => match Self::validate(&config) {
                Ok(()) => Ok(config),
                Err(e) => Err(e),
            },
        }
    }

    /// Accepts a configuration that defines a profile, whose games all name a
    /// defined profile, and that polls at most every 100 ms; otherwise says
    /// why not (see `validation_error`).
    pub fn validate(config: &Config) -> (r: Result<(), EngineError>)
        ensures
            validation_error(*config) is None <==> r is Ok,
            r matches Err(e) ==> is_config_error(e, validation_error(*config)->0),
    {
        if config.profiles.len() == 0 {
            return Err(EngineError::Config("No profiles defined".to_owned()));
        }
        let mut i: usize = 0;
        proof {
            assert(config.games@.skip(0) =~= config.games@);
        }
        while i < config.games.len()
            invariant
                i <= config.games@.len(),
                config.profiles@.len() > 0,
                first_unknown_game(config.games@, config.profiles@) == match first_unknown_game(
                    config.games@.skip(i as int),
                    config.profiles@,
                ) {
                    Some(j) => Some(j + i),
                    None => None,
                },
            decreases config.games.len() - i,
        {
            let game = &config.games[i];
            let ghost rest = config.games@.skip(i as int);
            proof {
                assert(rest[0] == *game);
                assert(rest.drop_first() =~= config.games@.skip(i + 1));
            }
            if !Self::defines_profile(config, game.profile.as_str()) {
                let mut m = "Game '".to_owned();
                m.append(game.name.as_str());
                m.append("' references unknown profile '");
                m.append(game.profile.as_str());
                m.append("'");
                return Err(EngineError::Config(m));
            }
            i = i + 1;
        }
        proof {
            assert(config.games@.skip(i as int) =~= Seq::<GameRule>::empty());
        }
        if config.daemon.poll_interval_ms < 100 {
            return Err(EngineError::Config("poll_interval_ms must be >= 100".to_owned()));
        }
        Ok(())
    }

    /// Whether the configuration lists a profile called `name`.
    fn defines_profile(config: &Config, name: &str) -> (r: bool)
        ensures
            r == names_profile(config.profiles@, name@),
    {
        let mut i: usize = 0;
        while i < config.profiles.len()
            invariant
                i <= config.profiles@.len(),
                forall|j: int| 0 <= j < i ==> (#[trigger] config.profiles@[j]).0@ != name@,
            decreases config.profiles.len() - i,
        {
            if str_eq(config.profiles[i].0.as_str(), name) {
                assert(config.profiles@[i as int].0@ == name@);
                return true;
            }
            i = i + 1;
        }
        false
    }
}


proof fn lemma_first_unknown_none(games: Seq<GameRule>, profiles: Seq<(String, ProfileConfig)>)
    requires
        first_unknown_game(games, profiles) is None,
    ensures
        forall|i: int| 0 <= i < games.len() ==> names_profile(profiles, (#[trigger] games[i]).profile@),
    decreases games.len(),
{
    if games.len() > 0 {
        lemma_first_unknown_none(games.drop_first(), profiles);
        assert forall|i: int| 0 <= i < games.len() implies names_profile(profiles, (#[trigger] games[i]).profile@) by {
            if i > 0 {
                assert(games.drop_first()[i - 1] == games[i]);
            }
        }
    }
}

/// Law: a configuration that validation accepts defines at least one
/// profile, every game names a defined profile, and it polls at most every
/// 100 ms.
pub proof fn law_accepted_config(c: Config)
    requires
        validation_error(c) is None,
    ensures
        c.profiles@.len() > 0,
        forall|i: int| 0 <= i < c.games@.len() ==> names_profile(c.profiles@, (#[trigger] c.games@[i]).profile@),
        c.daemon.poll_interval_ms >= 100,
{
    lemma_first_unknown_none(c.games@, c.profiles@);
}

} // verus!
