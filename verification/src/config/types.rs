use vstd::prelude::*;

verus! {

/// The whole configuration: daemon settings, the named profiles, the game
/// rules, plugin and logging settings. Profiles are listed as name/profile
/// pairs; a later pair for a name replaces an earlier one.
#[derive(Debug, Clone)]
pub struct Config {
    pub daemon: DaemonConfig,
    pub profiles: Vec<(String, ProfileConfig)>,
    pub games: Vec<GameRule>,
    pub plugins: PluginConfig,
    pub logging: LoggingConfig,
}

#[derive(Debug, Clone)]
pub struct DaemonConfig {
    pub config_path: String,
    pub poll_interval_ms: u64,
    pub restore_timeout_ms: u64,
    pub enable_plugins: bool,
    pub dbus_name: String,
}

impl Default for DaemonConfig {
    fn default() -> (r: Self)
        ensures
            r.config_path@ == "/etc/velocity-engine/default.toml"@,
            r.poll_interval_ms == 1000,
            r.restore_timeout_ms == 5000,
            r.enable_plugins,
            r.dbus_name@ == "org.velocityos.Engine"@,
    {
        DaemonConfig {
            config_path: "/etc/velocity-engine/default.toml".to_owned(),
            poll_interval_ms: 1000,
            restore_timeout_ms: 5000,
            enable_plugins: true,
            dbus_name: "org.velocityos.Engine".to_owned(),
        }
    }
}

/// The settings one profile applies; `None` leaves a setting alone.
#[derive(Debug, Clone)]
pub struct ProfileConfig {
    pub cpu_governor: Option<String>,
    pub cpu_affinity: Option<Vec<usize>>,
    pub process_priority: Option<i32>,
    pub io_priority: Option<String>,
    pub power_profile: Option<String>,
    pub scheduler: Option<String>,
    pub tweaks: Vec<(String, String)>,
}

/// A profile's settings as plain values.
pub struct ProfileView {
    pub cpu_governor: Option<Seq<char>>,
    pub cpu_affinity: Option<Seq<usize>>,
    pub process_priority: Option<i32>,
    pub io_priority: Option<Seq<char>>,
    pub power_profile: Option<Seq<char>>,
    pub scheduler: Option<Seq<char>>,
    pub tweaks: Seq<(Seq<char>, Seq<char>)>,
}

impl View for ProfileConfig {
    type V = ProfileView;

    open spec fn view(&self) -> ProfileView {
        ProfileView {
            cpu_governor: self.cpu_governor.deep_view(),
            cpu_affinity: match self.cpu_affinity {
                Some(v) => Some(v@),
                None => None,
            },
            process_priority: self.process_priority,
            io_priority: self.io_priority.deep_view(),
            power_profile: self.power_profile.deep_view(),
            scheduler: self.scheduler.deep_view(),
            tweaks: self.tweaks.deep_view(),
        }
    }
}

impl DeepView for ProfileConfig {
    type V = ProfileView;

    open spec fn deep_view(&self) -> ProfileView {
        self@
    }
}

impl Default for ProfileConfig {
    fn default() -> (r: Self)
        ensures
            r.cpu_governor is None,
            r.cpu_affinity is None,
            r.process_priority is None,
            r.io_priority is None,
            r.power_profile is None,
            r.scheduler is None,
            r.tweaks@.len() == 0,
    {
        ProfileConfig {
            cpu_governor: None,
            cpu_affinity: None,
            process_priority: None,
            io_priority: None,
            power_profile: None,
            scheduler: None,
            tweaks: Vec::new(),
        }
    }
}

/// A game: the process names that show it runs, the profile it gets, and
/// per-game overrides.
#[derive(Debug, Clone)]
pub struct GameRule {
    pub name: String,
    pub processes: Vec<String>,
    pub profile: String,
    pub custom_affinity: Option<Vec<usize>>,
    pub custom_priority: Option<i32>,
    pub custom_io_priority: Option<String>,
    pub plugins: Vec<String>,
}

/// A game rule as plain values.
pub struct GameView {
    pub name: Seq<char>,
    pub processes: Seq<Seq<char>>,
    pub profile: Seq<char>,
    pub custom_affinity: Option<Seq<usize>>,
    pub custom_priority: Option<i32>,
    pub custom_io_priority: Option<Seq<char>>,
    pub plugins: Seq<Seq<char>>,
}

impl View for GameRule {
    type V = GameView;

    open spec fn view(&self) -> GameView {
        GameView {
            name: self.name@,
            processes: self.processes.deep_view(),
            profile: self.profile@,
            custom_affinity: match self.custom_affinity {
                Some(v) => Some(v@),
                None => None,
            },
            custom_priority: self.custom_priority,
            custom_io_priority: self.custom_io_priority.deep_view(),
            plugins: self.plugins.deep_view(),
        }
    }
}

impl DeepView for GameRule {
    type V = GameView;

    open spec fn deep_view(&self) -> GameView {
        self@
    }
}

#[derive(Debug, Clone)]
pub struct PluginConfig {
    pub enabled: Vec<String>,
    pub disabled: Vec<String>,
}

impl Default for PluginConfig {
    fn default() -> (r: Self)
        ensures
            r.enabled@.len() == 0,
            r.disabled@.len() == 0,
    {
        PluginConfig { enabled: Vec::new(), disabled: Vec::new() }
    }
}

#[derive(Debug, Clone)]
pub struct LoggingConfig {
    pub level: String,
    pub journald: bool,
    pub format: String,
}

impl Default for LoggingConfig {
    fn default() -> (r: Self)
        ensures
            r.level@ == "info"@,
            r.journald,
            r.format@ == "text"@,
    {
        LoggingConfig { level: "info".to_owned(), journald: true, format: "text".to_owned() }
    }
}

/// A copy of a list of strings.
pub fn copy_strings(v: &Vec<String>) -> (r: Vec<String>)
    ensures
        r.deep_view() == v.deep_view(),
{
    let mut r: Vec<String> = Vec::new();
    let mut i: usize = 0;
    while i < v.len()
        invariant
            i <= v.len(),
            r.len() == i,
            forall|j: int| 0 <= j < i ==> (#[trigger] r@[j])@ == v@[j]@,
        decreases v.len() - i,
    {
        r.push(v[i].clone());
        i = i + 1;
    }
    proof {
        assert(r.deep_view() =~= v.deep_view());
    }
    r
}

/// A copy of an optional string.
pub fn copy_opt_string(v: &Option<String>) -> (r: Option<String>)
    ensures
        r.deep_view() == v.deep_view(),
{
    match v {
        Some(s) => Some(s.clone()),
        None => None,
    }
}

/// A copy of a list of CPU numbers.
pub fn copy_cpus(v: &Vec<usize>) -> (r: Vec<usize>)
    ensures
        r@ == v@,
{
    let mut r: Vec<usize> = Vec::new();
    let mut i: usize = 0;
    while i < v.len()
        invariant
            i <= v.len(),
            r@ == v@.take(i as int),
        decreases v.len() - i,
    {
        r.push(v[i]);
        proof {
            assert(r@ =~= v@.take(i + 1));
        }
        i = i + 1;
    }
    proof {
        assert(v@.take(v.len() as int) =~= v@);
    }
    r
}

/// A copy of an optional list of CPU numbers.
pub fn copy_opt_cpus(v: &Option<Vec<usize>>) -> (r: Option<Vec<usize>>)
    ensures
        match (v, r) {
            (Some(a), Some(b)) => a@ == b@,
            (None, None) => true,
            _ => false,
        },
{
    match v {
        Some(a) => Some(copy_cpus(a)),
        None => None,
    }
}

/// A copy of a list of string pairs.
pub fn copy_string_pairs(v: &Vec<(String, String)>) -> (r: Vec<(String, String)>)
    ensures
        r.deep_view() == v.deep_view(),
{
    let mut r: Vec<(String, String)> = Vec::new();
    let mut i: usize = 0;
    while i < v.len()
        invariant
            i <= v.len(),
            r.len() == i,
            forall|j: int|
                0 <= j < i ==> (#[trigger] r@[j]).0@ == v@[j].0@ && r@[j].1@ == v@[j].1@,
        decreases v.len() - i,
    {
        r.push((v[i].0.clone(), v[i].1.clone()));
        i = i + 1;
    }
    proof {
        assert(r.deep_view() =~= v.deep_view());
    }
    r
}

impl ProfileConfig {
    /// A copy of this profile.
    pub fn duplicate(&self) -> (r: Self)
        ensures
            r@ == self@,
    {
        ProfileConfig {
            cpu_governor: copy_opt_string(&self.cpu_governor),
            cpu_affinity: copy_opt_cpus(&self.cpu_affinity),
            process_priority: self.process_priority,
            io_priority: copy_opt_string(&self.io_priority),
            power_profile: copy_opt_string(&self.power_profile),
            scheduler: copy_opt_string(&self.scheduler),
            tweaks: copy_string_pairs(&self.tweaks),
        }
    }
}

impl GameRule {
    /// A copy of this game rule.
    pub fn duplicate(&self) -> (r: Self)
        ensures
            r@ == self@,
    {
        GameRule {
            name: self.name.clone(),
            processes: copy_strings(&self.processes),
            profile: self.profile.clone(),
            custom_affinity: copy_opt_cpus(&self.custom_affinity),
            custom_priority: self.custom_priority,
            custom_io_priority: copy_opt_string(&self.custom_io_priority),
            plugins: copy_strings(&self.plugins),
        }
    }
}

} // verus!
