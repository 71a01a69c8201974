//! The persisted configuration: the port the HTTP service listens on and the
//! secret that request tokens are signed with.
//!
//! Reading the configuration store and writing to it is I/O and happens
//! outside this crate; this module decides what the stored values mean and
//! how an update is applied.

use vstd::prelude::*;

verus! {

/// Name of the store file that holds the configuration.
pub const STORE_FILE: &'static str = "config.json";

/// Port used when none (or no valid one) is stored.
pub const DEFAULT_PORT: u16 = 52798;

/// Signing secret used when none is stored.
pub const DEFAULT_KEY: &'static str = "open-in-browser";

/// The application configuration.
#[derive(Debug)]
pub struct Config {
    /// Port of the HTTP service.
    pub port: u16,
    /// Secret of the HS256 request tokens.
    pub key: String,
}

/// A configuration as plain values.
pub struct ConfigView {
    pub port: u16,
    pub key: Seq<char>,
}

impl View for Config {
    type V = ConfigView;

    open spec fn view(&self) -> ConfigView {
        ConfigView { port: self.port, key: self.key@ }
    }
}

impl Clone for Config {
    fn clone(&self) -> (r: Self)
        ensures
            r@ == self@,
    {
        Config { port: self.port, key: self.key.clone() }
    }
}

/// The configuration a fresh installation starts with.
pub open spec fn default_config() -> ConfigView {
    ConfigView { port: DEFAULT_PORT, key: DEFAULT_KEY@ }
}

/// The configuration that stored values stand for: a stored port counts only
/// where it fits in `u16`, and what is missing or unusable takes its default.
pub open spec fn resolved_config(port: Option<u64>, key: Option<Seq<char>>) -> ConfigView {
    ConfigView {
        port: match port {
            Some(p) => if p <= u16::MAX {
                p as u16
            } else {
                DEFAULT_PORT
            },
            None => DEFAULT_PORT,
        },
        key: match key {
            Some(k) => k,
            None => DEFAULT_KEY@,
        },
    }
}

/// The configuration that has to be persisted when `(port, key)` is asked for
/// while `current` is in force: none when nothing changes.
pub open spec fn planned_update(current: ConfigView, port: u16, key: Seq<char>) -> Option<
    ConfigView,
> {
    if current.port == port && current.key == key {
        None
    } else {
        Some(ConfigView { port, key })
    }
}

/// The view of an optional configuration.
pub open spec fn option_config_view(c: Option<Config>) -> Option<ConfigView> {
    match c {
        Some(c) => Some(c@),
        None => None,
    }
}

impl Config {
    /// A configuration with the given port and key.
    pub fn new(port: u16, key: String) -> (r: Config)
        ensures
            r.port == port,
            r.key@ == key@,
    {
        Config { port, key }
    }

    /// The configuration a fresh installation starts with.
    pub fn default_config() -> (r: Config)
        ensures
            r@ == default_config(),
    {
        Config { port: DEFAULT_PORT, key: String::from_str(DEFAULT_KEY) }
    }
}

/// The configuration that the values read from the store stand for:
/// `port` is the stored number, if any, and `key` the stored string, if any.
pub fn resolve_stored_config(port: Option<u64>, key: Option<String>) -> (r: Config)
    ensures
        r@ == resolved_config(
            port,
            match key {
                Some(k) => Some(k@),
                None => None,
            },
        ),
{
    let port: u16 = match port {
        Some(p) => if p <= 65535 {
            p as u16
        } else {
            DEFAULT_PORT
        },
        None => DEFAULT_PORT,
    };
    let key = match key {
        Some(k) => k,
        None => String::from_str(DEFAULT_KEY),
    };
    Config { port, key }
}

/// First step of an update to `(port, key)`: the configuration to persist,
/// or `None` when `current` already holds these values and nothing needs to
/// be written (nor the service restarted).
pub fn plan_update(current: &Config, port: u16, key: &str) -> (r: Option<Config>)
    ensures
        option_config_view(r) == planned_update(current@, port, key@),
{
    let key = String::from_str(key);
    if current.port == port && current.key == key {
        None
    } else {
        Some(Config { port, key })
    }
}

/// Second step of an update, once `pending` (the result of `plan_update`)
/// has been written to the store with outcome `persisted`: on success the
/// configuration becomes `pending` and the service must be restarted
/// (`Ok(true)`); on failure the configuration stays as it was and the
/// store's error is handed back.
pub fn commit_update(config: &mut Config, pending: Config, persisted: Result<(), String>) -> (r:
    Result<bool, String>)
    ensures
        match persisted {
            Ok(()) => final(config)@ == pending@ && r == Ok::<bool, String>(true),
            Err(e) => final(config)@ == old(config)@ && r == Err::<bool, String>(e),
        },
{
    match persisted {
        Ok(()) => {
            *config = pending;
            Ok(true)
        },
        Err(e) => Err(e),
    }
}

/// Asking for the values already in force needs no update.
pub proof fn law_unchanged_values_need_no_update(current: ConfigView)
    ensures
        planned_update(current, current.port, current.key) is None,
{
}

/// Once an update to `(port, key)` has been committed, asking for the same
/// values again needs no further update: a repeated request does not restart
/// the service a second time.
pub proof fn law_update_is_idempotent(current: ConfigView, port: u16, key: Seq<char>)
    ensures
        planned_update(current, port, key) matches Some(next) ==> planned_update(
            next,
            port,
            key,
        ) is None,
{
}

/// An update always asks to persist exactly the requested values.
pub proof fn law_update_persists_request(current: ConfigView, port: u16, key: Seq<char>)
    ensures
        planned_update(current, port, key) matches Some(next) ==> next.port == port && next.key
            == key,
        planned_update(current, port, key) is None ==> current.port == port && current.key == key,
{
}

/// Reading back the values persisted for a configuration gives that
/// configuration.
pub proof fn law_stored_config_round_trip(c: ConfigView)
    ensures
        resolved_config(Some(c.port as u64), Some(c.key)) == c,
{
}

/// A stored port that does not fit a TCP port, or a missing one, falls back
/// to the default port; a missing key falls back to the default key.
pub proof fn law_unusable_values_take_defaults(port: Option<u64>, key: Option<Seq<char>>)
    ensures
        (port is None || port->0 > u16::MAX) ==> resolved_config(port, key).port == DEFAULT_PORT,
        key is None ==> resolved_config(port, key).key == DEFAULT_KEY@,
{
}

} // verus!
