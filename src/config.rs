use vstd::prelude::*;

verus! {

/// Seconds between two rounds of probes when the configuration gives none.
pub const DEFAULT_SLEEP_SECONDS: u64 = 60;

/// One probe target.
pub struct PingConfig {
    pub name: String,
    pub host: String,
}

/// The agent's settings.
pub struct IcingaConfig {
    pub config_path: String,
    pub api_url: String,
    pub api_user: String,
    pub api_password: String,
    pub debug: bool,
    pub pings: Vec<PingConfig>,
    pub sleep_duration: u64,
}

/// A probe target as the configuration file gives it: a field that is
/// missing, or is not text, is `None`.
pub struct RawPing {
    pub name: Option<String>,
    pub host: Option<String>,
}

/// The settings as the configuration file gives them, before they are checked.
pub struct RawConfig {
    /// Whether the file has an `icinga` table.
    pub has_icinga: bool,
    pub api_url: Option<String>,
    pub api_user: Option<String>,
    pub api_password: Option<String>,
    /// `command.debug`, where it is a boolean.
    pub debug: Option<bool>,
    /// The `ping` array, where there is one.
    pub pings: Option<Vec<RawPing>>,
    /// `daemon.sleep_duration`, where it is an integer.
    pub sleep_duration: Option<i64>,
}

/// What makes a configuration unusable.
#[derive(Clone, Copy, Debug, PartialEq, Eq, Structural)]
pub enum ConfigError {
    MissingIcingaSection,
    MissingApiUrl,
    MissingApiUser,
    MissingApiPassword,
    MissingPingName,
    MissingPingHost,
}

pub open spec fn error_text(e: ConfigError) -> Seq<char> {
    match e {
        ConfigError::MissingIcingaSection => "Error: Missing 'icinga' section in config file"@,
        ConfigError::MissingApiUrl => "Error: Missing 'api_url' in the icinga section"@,
        ConfigError::MissingApiUser => "Error: Missing 'api_user' in the icinga section"@,
        ConfigError::MissingApiPassword => "Error: Missing 'api_password' in the icinga section"@,
        ConfigError::MissingPingName => "Error: Missing 'name' in a ping section"@,
        ConfigError::MissingPingHost => "Error: Missing 'host' in a ping section"@,
    }
}

impl ConfigError {
    /// The message shown for this error.
    pub fn message(&self) -> (r: &'static str)
        ensures
            r@ == error_text(*self),
    {
        match self {
            ConfigError::MissingIcingaSection => "Error: Missing 'icinga' section in config file",
            ConfigError::MissingApiUrl => "Error: Missing 'api_url' in the icinga section",
            ConfigError::MissingApiUser => "Error: Missing 'api_user' in the icinga section",
            ConfigError::MissingApiPassword => "Error: Missing 'api_password' in the icinga section",
            ConfigError::MissingPingName => "Error: Missing 'name' in a ping section",
            ConfigError::MissingPingHost => "Error: Missing 'host' in a ping section",
        }
    }
}

/// What is wrong with one probe target, if anything: its name is checked first.
pub open spec fn ping_error(p: RawPing) -> Option<ConfigError> {
    if p.name is None {
        Some(ConfigError::MissingPingName)
    } else if p.host is None {
        Some(ConfigError::MissingPingHost)
    } else {
        None
    }
}

/// The first thing wrong with the targets from `i` on.
pub open spec fn first_ping_error(ps: Seq<RawPing>, i: int) -> Option<ConfigError>
    decreases ps.len() - i,
{
    if i < 0 || i >= ps.len() {
        None
    } else if ping_error(ps[i]) is Some {
        ping_error(ps[i])
    } else {
        first_ping_error(ps, i + 1)
    }
}

/// The first thing wrong with a configuration, in the order in which it is checked.
pub open spec fn config_error(raw: RawConfig) -> Option<ConfigError> {
    if !raw.has_icinga {
        Some(ConfigError::MissingIcingaSection)
    } else if raw.api_url is None {
        Some(ConfigError::MissingApiUrl)
    } else if raw.api_user is None {
        Some(ConfigError::MissingApiUser)
    } else if raw.api_password is None {
        Some(ConfigError::MissingApiPassword)
    } else {
        match raw.pings {
            Some(ps) => first_ping_error(ps@, 0),
            None => None,
        }
    }
}

/// The pause between rounds: the configured integer taken as a `u64`, so
/// that a negative one wraps around (as `as u64` does; `-1` is the largest
/// pause), or `DEFAULT_SLEEP_SECONDS` where none is given.
pub open spec fn sleep_of(d: Option<i64>) -> int {
    match d {
        Some(v) => if v >= 0 { v as int } else { v + 0x1_0000_0000_0000_0000 },
        None => DEFAULT_SLEEP_SECONDS as int,
    }
}

/// Checks the settings read from the file at `config_path` and fills in the
/// defaults: debug off, no targets, a pause of 60 seconds.
pub fn build_config(config_path: String, raw: RawConfig) -> (r: Result<IcingaConfig, ConfigError>)
    ensures
        match config_error(raw) {
            Some(e) => r == Err::<IcingaConfig, ConfigError>(e),
            None => r is Ok,
        },
        r matches Ok(c) ==> {
            &&& c.config_path@ == config_path@
            &&& c.api_url@ == raw.api_url->0@
            &&& c.api_user@ == raw.api_user->0@
            &&& c.api_password@ == raw.api_password->0@
            &&& c.debug == (raw.debug == Some(true))
            &&& c.sleep_duration == sleep_of(raw.sleep_duration)
            &&& match raw.pings {
                Some(ps) => c.pings@.len() == ps@.len() && forall|i: int|
                    0 <= i < ps@.len() ==> (#[trigger] c.pings@[i]).name@ == ps@[i].name->0@
                        && c.pings@[i].host@ == ps@[i].host->0@,
                None => c.pings@.len() == 0,
            }
        },
{
    if !raw.has_icinga {
        return Err(ConfigError::MissingIcingaSection);
    }
    let RawConfig { has_icinga: _, api_url, api_user, api_password, debug, pings, sleep_duration } =
        raw;
    let api_url = match api_url {
        Some(u) => u,
        None => {
            return Err(ConfigError::MissingApiUrl);
        },
    };
    let api_user = match api_user {
        Some(u) => u,
        None => {
            return Err(ConfigError::MissingApiUser);
        },
    };
    let api_password = match api_password {
        Some(p) => p,
        None => {
            return Err(ConfigError::MissingApiPassword);
        },
    };
    let debug = match debug {
        Some(d) => d,
        None => false,
    };
    let mut targets: Vec<PingConfig> = Vec::new();
    match &pings {
        Some(ps) => {
            let mut i: usize = 0;
            while i < ps.len()
                invariant
                    i <= ps@.len(),
                    targets@.len() == i,
                    first_ping_error(ps@, 0) == first_ping_error(ps@, i as int),
                    config_error(raw) == first_ping_error(ps@, 0),
                    forall|k: int|
                        0 <= k < i ==> (#[trigger] targets@[k]).name@ == ps@[k].name->0@
                            && targets@[k].host@ == ps@[k].host->0@,
                decreases ps@.len() - i,
            {
                let name = match &ps[i].name {
                    Some(n) => n.clone(),
                    None => {
                        return Err(ConfigError::MissingPingName);
                    },
                };
                let host = match &ps[i].host {
                    Some(h) => h.clone(),
                    None => {
                        return Err(ConfigError::MissingPingHost);
                    },
                };
                targets.push(PingConfig { name, host });
                i = i + 1;
            }
        },
        None => {},
    }
    let sleep_duration = match sleep_duration {
        Some(v) => if v >= 0 {
            v as u64
        } else {
            u64::MAX - ((-(v + 1)) as u64)
        },
        None => DEFAULT_SLEEP_SECONDS,
    };
    Ok(IcingaConfig { config_path, api_url, api_user, api_password, debug, pings: targets, sleep_duration })
}

} // verus!

verus! {

/// Where the configuration file is looked for, in order.
pub open spec fn candidate_paths(home: Option<Seq<char>>) -> Seq<Seq<char>> {
    match home {
        Some(h) => seq![
            "config.toml"@,
            h + "/.icinga_passive_checks.toml"@,
            h + "/.config/icinga_passive_checks.toml"@,
            "/etc/icinga_passive_checks.toml"@,
        ],
        None => seq!["config.toml"@, "/etc/icinga_passive_checks.toml"@],
    }
}

/// The places to look for the configuration file, first to last: the
/// working directory, then two under the home directory where there is one,
/// then `/etc`.
pub fn config_candidates(home: Option<&str>) -> (r: Vec<String>)
    ensures
        r.deep_view() == candidate_paths(
            match home {
                Some(h) => Some(h@),
                None => None,
            },
        ),
{
    let mut r: Vec<String> = Vec::new();
    r.push(String::from_str("config.toml"));
    match home {
        Some(h) => {
            let mut a = String::from_str(h);
            a.append("/.icinga_passive_checks.toml");
            r.push(a);
            let mut b = String::from_str(h);
            b.append("/.config/icinga_passive_checks.toml");
            r.push(b);
        },
        None => {},
    }
    r.push(String::from_str("/etc/icinga_passive_checks.toml"));
    assert(r.deep_view() =~= candidate_paths(
        match home {
            Some(h) => Some(h@),
            None => None,
        },
    ));
    r
}

} // verus!
