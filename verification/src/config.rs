//! The configuration of the daemon.
//!
//! Settings come from a file; a variable of the environment that is set wins over
//! the file. Reading and writing the file is left to the caller.

use crate::fileserver::paths::opt_text;
use crate::text::{decimal_value, parse_decimal, trim, trimmed};
use vstd::prelude::*;

verus! {

pub const DEFAULT_COORD: &'static str = "127.0.0.1:50070";

pub const DEFAULT_INTAKE: &'static str = "127.0.0.1:50071";

pub const DEFAULT_FILESERVER: &'static str = "127.0.0.1:50072";

pub const DEFAULT_STATUS: &'static str = "127.0.0.1:50073";

/// The variable that names the configuration file.
pub const CONFIG_PATH_ENV: &'static str = "SEMBAZURU_CONFIG";

/// The persisted settings of the daemon.
#[derive(Debug, Clone, PartialEq, Eq)]
pub struct DaemonConfig {
    /// Where workers register and send heartbeats.
    pub coord_addr: String,
    /// Where launchers submit actions.
    pub intake_addr: String,
    /// Where workers fetch inputs.
    pub fileserver_addr: String,
    /// Where the status is read.
    pub status_addr: String,
    /// The root of the action cache; `None` for no caching.
    pub cache_root: Option<String>,
    /// The root of the trace directories; `None` for a temporary one.
    pub trace_root: Option<String>,
    /// The token that workers share; `None` for no authentication.
    pub cluster_token: Option<String>,
    /// The cap on the size of the cache in bytes; `None` for no cap.
    pub cache_max_bytes: Option<u64>,
}

/// The view of a [`DaemonConfig`].
#[verifier::ext_equal]
pub struct ConfigModel {
    pub coord: Seq<char>,
    pub intake: Seq<char>,
    pub fileserver: Seq<char>,
    pub status: Seq<char>,
    pub cache_root: Option<Seq<char>>,
    pub trace_root: Option<Seq<char>>,
    pub cluster_token: Option<Seq<char>>,
    pub cache_max_bytes: Option<u64>,
}

impl View for DaemonConfig {
    type V = ConfigModel;

    open spec fn view(&self) -> ConfigModel {
        ConfigModel {
            coord: self.coord_addr@,
            intake: self.intake_addr@,
            fileserver: self.fileserver_addr@,
            status: self.status_addr@,
            cache_root: opt_text(self.cache_root),
            trace_root: opt_text(self.trace_root),
            cluster_token: opt_text(self.cluster_token),
            cache_max_bytes: self.cache_max_bytes,
        }
    }
}

/// The settings without a file and without an environment.
pub open spec fn default_config() -> ConfigModel {
    ConfigModel {
        coord: DEFAULT_COORD@,
        intake: DEFAULT_INTAKE@,
        fileserver: DEFAULT_FILESERVER@,
        status: DEFAULT_STATUS@,
        cache_root: None,
        trace_root: None,
        cluster_token: None,
        cache_max_bytes: None,
    }
}

/// The variables of the environment that are set, each as it reads.
pub struct ConfigEnv {
    pub coord: Option<String>,
    pub intake: Option<String>,
    pub fileserver: Option<String>,
    pub status: Option<String>,
    pub cache_root: Option<String>,
    pub trace_root: Option<String>,
    pub cluster_token: Option<String>,
    pub cache_max_bytes: Option<String>,
}

/// A setting that a variable may replace.
pub open spec fn replaced(current: Seq<char>, var: Option<Seq<char>>) -> Seq<char> {
    match var {
        Some(v) => v,
        None => current,
    }
}

/// An optional setting that a variable may replace; an empty variable unsets it.
pub open spec fn replaced_or_unset(
    current: Option<Seq<char>>,
    var: Option<Seq<char>>,
) -> Option<Seq<char>> {
    match var {
        Some(v) => if v.len() == 0 {
            None
        } else {
            Some(v)
        },
        None => current,
    }
}

/// The cap that a variable sets: none unless it is a positive number.
pub open spec fn cap_of(text: Seq<char>) -> Option<u64> {
    match decimal_value(trim(text)) {
        Some(n) => if n > 0 {
            Some(n)
        } else {
            None
        },
        None => None,
    }
}

/// The settings with the environment laid over them.
pub open spec fn overridden(c: ConfigModel, env: ConfigEnv) -> ConfigModel {
    ConfigModel {
        coord: replaced(c.coord, opt_text(env.coord)),
        intake: replaced(c.intake, opt_text(env.intake)),
        fileserver: replaced(c.fileserver, opt_text(env.fileserver)),
        status: replaced(c.status, opt_text(env.status)),
        cache_root: replaced_or_unset(c.cache_root, opt_text(env.cache_root)),
        trace_root: replaced_or_unset(c.trace_root, opt_text(env.trace_root)),
        cluster_token: replaced_or_unset(c.cluster_token, opt_text(env.cluster_token)),
        cache_max_bytes: match env.cache_max_bytes {
            Some(v) => cap_of(v@),
            None => c.cache_max_bytes,
        },
    }
}

fn empty_to_none(s: String) -> (r: Option<String>)
    ensures
        opt_text(r) == if s@.len() == 0 {
            None
        } else {
            Some(s@)
        },
{
    if s.as_str().is_empty() {
        None
    } else {
        Some(s)
    }
}

/// The cap that a variable sets.
pub fn parse_cache_cap(text: &str) -> (r: Option<u64>)
    ensures
        r == cap_of(text@),
{
    let t = trimmed(text);
    match parse_decimal(t.as_str()) {
        Some(n) => if n > 0 {
            Some(n)
        } else {
            None
        },
        None => None,
    }
}

impl Default for DaemonConfig {
    fn default() -> (r: Self)
        ensures
            r@ == default_config(),
    {
        DaemonConfig {
            coord_addr: DEFAULT_COORD.to_owned(),
            intake_addr: DEFAULT_INTAKE.to_owned(),
            fileserver_addr: DEFAULT_FILESERVER.to_owned(),
            status_addr: DEFAULT_STATUS.to_owned(),
            cache_root: None,
            trace_root: None,
            cluster_token: None,
            cache_max_bytes: None,
        }
    }
}

impl DaemonConfig {
    /// Lays the environment over the settings: a variable that is set wins, and
    /// an empty one unsets an optional setting. Nothing is trimmed but the number
    /// of the cap.
    pub fn apply_env_overrides(&mut self, env: ConfigEnv)
        ensures
            final(self)@ == overridden(old(self)@, env),
    {
        if let Some(v) = env.coord {
            self.coord_addr = v;
        }
        if let Some(v) = env.intake {
            self.intake_addr = v;
        }
        if let Some(v) = env.fileserver {
            self.fileserver_addr = v;
        }
        if let Some(v) = env.status {
            self.status_addr = v;
        }
        if let Some(v) = env.cache_root {
            self.cache_root = empty_to_none(v);
        }
        if let Some(v) = env.trace_root {
            self.trace_root = empty_to_none(v);
        }
        if let Some(v) = env.cluster_token {
            self.cluster_token = empty_to_none(v);
        }
        if let Some(v) = env.cache_max_bytes {
            self.cache_max_bytes = parse_cache_cap(v.as_str());
        }
    }

    /// The settings that the daemon starts with: those of the file, or the
    /// defaults where `loaded` found no valid one, with the environment laid over
    /// them.
    pub fn load_effective(loaded: Option<DaemonConfig>, env: ConfigEnv) -> (r: DaemonConfig)
        ensures
            r@ == overridden(
                match loaded {
                    Some(c) => c@,
                    None => default_config(),
                },
                env,
            ),
    {
        let mut config = match loaded {
            Some(c) => c,
            None => DaemonConfig::default(),
        };
        config.apply_env_overrides(env);
        config
    }

    /// The settings that an installer leaves behind.
    pub fn installer_seed() -> (r: DaemonConfig)
        ensures
            r@ == default_config(),
    {
        DaemonConfig::default()
    }

    /// The settings to write when the configuration file is seeded: none where
    /// there is a file already.
    pub fn seed_if_absent(&self, present: bool) -> (r: Option<&DaemonConfig>)
        ensures
            r == if present {
                None
            } else {
                Some(self)
            },
            forall|file: Option<ConfigModel>|
                present == (file is Some) ==> #[trigger] seeded(file, self@) == (
                    if r is Some {
                        Some(r->0@)
                    } else {
                        file
                    },
                    r is Some,
                ),
    {
        if present {
            None
        } else {
            Some(self)
        }
    }
}

/// What the configuration file holds once it is seeded with the settings `c`, and
/// whether it was written; `file` is what it held, if it was there.
pub open spec fn seeded(file: Option<ConfigModel>, c: ConfigModel) -> (Option<ConfigModel>, bool) {
    match file {
        Some(held) => (Some(held), false),
        None => (Some(c), true),
    }
}

/// Seeding never writes over a file: what one seeding wrote or found, the next keeps,
/// whatever it is made with. It tells that it wrote exactly where there was no file.
pub proof fn law_seeding_keeps_what_is_there(
    file: Option<ConfigModel>,
    c: ConfigModel,
    other: ConfigModel,
)
    ensures
        seeded(seeded(file, c).0, other) == (seeded(file, c).0, false),
        file is Some ==> seeded(file, c) == (file, false),
        seeded(file, c).1 <==> file is None,
        seeded(file, c).1 ==> seeded(file, c).0 == Some(c),
{
}

/// The environment wins: a variable that is set decides its setting whatever the
/// file says, and one that is not set leaves the setting alone.
pub proof fn law_environment_wins(a: ConfigModel, b: ConfigModel, env: ConfigEnv)
    ensures
        env.coord is Some ==> overridden(a, env).coord == overridden(b, env).coord,
        env.coord is None ==> overridden(a, env).coord == a.coord,
        env.intake is Some ==> overridden(a, env).intake == overridden(b, env).intake,
        env.intake is None ==> overridden(a, env).intake == a.intake,
        env.fileserver is Some ==> overridden(a, env).fileserver == overridden(b, env).fileserver,
        env.fileserver is None ==> overridden(a, env).fileserver == a.fileserver,
        env.status is Some ==> overridden(a, env).status == overridden(b, env).status,
        env.status is None ==> overridden(a, env).status == a.status,
        env.cache_root is Some ==> overridden(a, env).cache_root == overridden(b, env).cache_root,
        env.cache_root is None ==> overridden(a, env).cache_root == a.cache_root,
        env.trace_root is Some ==> overridden(a, env).trace_root == overridden(b, env).trace_root,
        env.trace_root is None ==> overridden(a, env).trace_root == a.trace_root,
        env.cluster_token is Some ==> overridden(a, env).cluster_token == overridden(
            b,
            env,
        ).cluster_token,
        env.cluster_token is None ==> overridden(a, env).cluster_token == a.cluster_token,
        env.cache_max_bytes is Some ==> overridden(a, env).cache_max_bytes == overridden(
            b,
            env,
        ).cache_max_bytes,
        env.cache_max_bytes is None ==> overridden(a, env).cache_max_bytes == a.cache_max_bytes,
{
}

/// Laying the same environment over the settings again changes nothing.
pub proof fn law_overriding_twice_is_overriding_once(c: ConfigModel, env: ConfigEnv)
    ensures
        overridden(overridden(c, env), env) == overridden(c, env),
{
}

/// The token is taken as it reads: the daemon and a worker that read the same
/// variable agree on it, and an empty one means no token for either.
pub proof fn law_token_is_taken_verbatim(c: ConfigModel, env: ConfigEnv, token: String)
    requires
        env.cluster_token == Some(token),
    ensures
        overridden(c, env).cluster_token == if token@.len() == 0 {
            None
        } else {
            Some(token@)
        },
{
}

/// A variable is taken as it reads: an address becomes what the variable holds, letter for
/// letter, and so does a directory, unless the variable is empty and unsets it.
pub proof fn law_variables_are_taken_as_they_read(c: ConfigModel, env: ConfigEnv)
    ensures
        env.coord matches Some(v) ==> overridden(c, env).coord == v@,
        env.intake matches Some(v) ==> overridden(c, env).intake == v@,
        env.fileserver matches Some(v) ==> overridden(c, env).fileserver == v@,
        env.status matches Some(v) ==> overridden(c, env).status == v@,
        env.cache_root matches Some(v) ==> {
            &&& v@.len() > 0 ==> overridden(c, env).cache_root == Some(v@)
            &&& v@.len() == 0 ==> overridden(c, env).cache_root is None
        },
        env.trace_root matches Some(v) ==> {
            &&& v@.len() > 0 ==> overridden(c, env).trace_root == Some(v@)
            &&& v@.len() == 0 ==> overridden(c, env).trace_root is None
        },
{
}

/// A cap that is written in digits, with or without blanks around them, is that number;
/// zero, and whatever is no number, means no cap.
pub proof fn law_caps_are_numbers(text: Seq<char>)
    ensures
        match cap_of(text) {
            Some(n) => n > 0 && decimal_value(trim(text)) == Some(n),
            None => decimal_value(trim(text)) is None || decimal_value(trim(text)) == Some(0u64),
        },
{
}

/// Without a file and an environment each plane listens on its own port of this machine,
/// and nothing is cached, traced elsewhere, authenticated or capped.
pub proof fn law_defaults_are_local()
    ensures
        ({
            let c = default_config();
            &&& c.coord == "127.0.0.1:50070"@
            &&& c.intake == "127.0.0.1:50071"@
            &&& c.fileserver == "127.0.0.1:50072"@
            &&& c.status == "127.0.0.1:50073"@
            &&& c.cache_root is None && c.trace_root is None
            &&& c.cluster_token is None && c.cache_max_bytes is None
        }),
{
}

} // verus!
