//! Agent configuration.
//!
//! Everything comes from environment variables. A `scratch` image has no shell
//! and no convenient way to manage a config file, and RouterOS parameterises
//! containers through `/container/envs` envlists, so environment variables are
//! both the simplest and the native mechanism here.

use vstd::prelude::*;
use vstd::string::StrSliceExecFns;
use vstd::string::StringExecFns;

use crate::duration::Duration;
use crate::net::{parse_address_list, IpAddr, SocketAddr};
use crate::spool::{SpoolConfig, DEFAULT_MAX_BYTES, DEFAULT_MAX_ENTRIES, DEFAULT_ONSET_PCT};
use crate::text::{
    parse_radix, quote, same, starts_with, to_ascii_lowercase, trim, trim_end_char,
};

verus! {

#[derive(Debug, Clone, PartialEq, Eq)]
pub struct Config {
    /// Controller base URL, e.g. `https://controller.example.net`.
    pub controller_url: String,
    /// Pre-shared enrolment token, used once at first registration.
    pub enrolment_token: String,
    /// Human-chosen unique name, e.g. `yvr-branch-01`.
    pub name: String,
    /// Mesh unit. Agents in the same group are scheduled to probe each other.
    pub group: String,
    /// Where the reflector listens.
    pub probe_bind: SocketAddr,
    /// Address peers should reach this agent on. Usually discovered by the
    /// controller from the source address of our registration, but it can be
    /// pinned when the agent sits behind a static DNAT.
    pub advertise_addr: Option<IpAddr>,
    /// Where agent state (the assigned ID and token) is persisted, so a
    /// container restart is not a new agent.
    pub state_dir: String,
    /// RouterOS host API, for the bandwidth-test offload. Absent means
    /// throughput tasks are skipped with a reason rather than failed.
    pub routeros: Option<RouterOsConfig>,
    pub log_filter: String,
    pub heartbeat_interval: Duration,
    pub poll_interval: Duration,
    /// Bounds on the offline result queue. See [`crate::spool`].
    pub spool: SpoolConfig,
    /// When set, a TWAMP-Light responder runs alongside the managed agent.
    ///
    /// A managed agent already reflects MQP for its peers; answering TWAMP as
    /// well costs one more socket and lets the same device serve carriers and
    /// test sets that will never run an agent of ours. Without this, switching
    /// a standalone responder over to managed mode would silently take its
    /// TWAMP service away.
    pub twamp_port: Option<u16>,
    pub twamp_peers: Vec<IpAddr>,
}

/// Credentials for the RouterOS device hosting this container.
///
/// The host is reachable at the container's default gateway, the address
/// assigned to the RouterOS side of the veth or its bridge. There is no
/// `host.docker.internal` equivalent on RouterOS.
#[derive(Debug, Clone, PartialEq, Eq)]
pub struct RouterOsConfig {
    pub host: IpAddr,
    /// Binary API port. 8728 plaintext, 8729 TLS.
    ///
    /// The binary API is used rather than REST because `/tool/bandwidth-test`
    /// is a continuous-output command: the binary API streams `!re` sentences
    /// and supports cancellation by tag, whereas REST cannot stream and caps
    /// commands at 60 seconds.
    pub port: u16,
    pub username: String,
    pub password: String,
    pub use_tls: bool,
}

#[derive(Debug, PartialEq, Eq)]
pub enum ConfigError {
    Missing(&'static str),
    Invalid { var: &'static str, value: String, reason: &'static str },
    PartialRouterOs(&'static str),
}

/// What a configuration error names.
pub enum ConfigErrorView {
    Missing(Seq<char>),
    Invalid { var: Seq<char>, value: Seq<char>, reason: Seq<char> },
    PartialRouterOs(Seq<char>),
}

impl View for ConfigError {
    type V = ConfigErrorView;

    open spec fn view(&self) -> ConfigErrorView {
        match *self {
            ConfigError::Missing(var) => ConfigErrorView::Missing(var@),
            ConfigError::Invalid { var, value, reason } => ConfigErrorView::Invalid {
                var: var@,
                value: value@,
                reason: reason@,
            },
            ConfigError::PartialRouterOs(var) => ConfigErrorView::PartialRouterOs(var@),
        }
    }
}

/// What an error says.
pub open spec fn error_message(e: ConfigErrorView) -> Seq<char> {
    match e {
        ConfigErrorView::Missing(var) => var + " is required but not set"@,
        ConfigErrorView::Invalid { var, value, reason } => var + " is not valid: "@
            + crate::text::quoted(value) + " ("@ + reason + ")"@,
        ConfigErrorView::PartialRouterOs(var) => "MQ_ROUTEROS_HOST is set but "@ + var
            + " is not — a partial RouterOS configuration would fail silently at the first bandwidth test"@,
    }
}

impl ConfigError {
    pub fn message(&self) -> (r: String)
        ensures
            r@ == error_message(self@),
    {
        match self {
            ConfigError::Missing(var) => {
                let mut t = (*var).to_owned();
                t.append(" is required but not set");
                t
            },
            ConfigError::Invalid { var, value, reason } => {
                let mut t = (*var).to_owned();
                t.append(" is not valid: ");
                let q = quote(value.as_str());
                t.append(q.as_str());
                t.append(" (");
                t.append(*reason);
                t.append(")");
                t
            },
            ConfigError::PartialRouterOs(var) => {
                let mut t = "MQ_ROUTEROS_HOST is set but ".to_owned();
                t.append(*var);
                t.append(
                    " is not — a partial RouterOS configuration would fail silently at the first bandwidth test",
                );
                t
            },
        }
    }
}

/// The environment variables that the agent reads, as they stand.
#[derive(Debug, Clone, PartialEq, Eq)]
pub struct Variables {
    /// `MQ_CONTROLLER_URL`
    pub controller_url: Option<String>,
    /// `MQ_AGENT_NAME`
    pub agent_name: Option<String>,
    /// `MQ_AGENT_GROUP`
    pub agent_group: Option<String>,
    /// `MQ_ENROLMENT_TOKEN`
    pub enrolment_token: Option<String>,
    /// `MQ_PROBE_PORT`
    pub probe_port: Option<String>,
    /// `MQ_ADVERTISE_ADDR`
    pub advertise_addr: Option<String>,
    /// `MQ_STATE_DIR`
    pub state_dir: Option<String>,
    /// `MQ_LOG`
    pub log: Option<String>,
    /// `MQ_HEARTBEAT_SECS`
    pub heartbeat_secs: Option<String>,
    /// `MQ_POLL_SECS`
    pub poll_secs: Option<String>,
    /// `MQ_TWAMP_PORT`
    pub twamp_port: Option<String>,
    /// `MQ_TWAMP_PEERS`
    pub twamp_peers: Option<String>,
    /// `MQ_SPOOL_MAX_ENTRIES`
    pub spool_max_entries: Option<String>,
    /// `MQ_SPOOL_MAX_BYTES`
    pub spool_max_bytes: Option<String>,
    /// `MQ_SPOOL_ONSET_PCT`
    pub spool_onset_pct: Option<String>,
    /// `MQ_ROUTEROS_HOST`
    pub routeros_host: Option<String>,
    /// `MQ_ROUTEROS_USER`
    pub routeros_user: Option<String>,
    /// `MQ_ROUTEROS_PASS`
    pub routeros_pass: Option<String>,
    /// `MQ_ROUTEROS_TLS`
    pub routeros_tls: Option<String>,
    /// `MQ_ROUTEROS_PORT`
    pub routeros_port: Option<String>,
}

/// Each of `vars` is what `get` gave for its name.
pub open spec fn looked_up<F: Fn(&str) -> Option<String>>(get: F, vars: Variables) -> bool {
    &&& call_ensures(get, ("MQ_CONTROLLER_URL",), vars.controller_url)
    &&& call_ensures(get, ("MQ_AGENT_NAME",), vars.agent_name)
    &&& call_ensures(get, ("MQ_AGENT_GROUP",), vars.agent_group)
    &&& call_ensures(get, ("MQ_ENROLMENT_TOKEN",), vars.enrolment_token)
    &&& call_ensures(get, ("MQ_PROBE_PORT",), vars.probe_port)
    &&& call_ensures(get, ("MQ_ADVERTISE_ADDR",), vars.advertise_addr)
    &&& call_ensures(get, ("MQ_STATE_DIR",), vars.state_dir)
    &&& call_ensures(get, ("MQ_LOG",), vars.log)
    &&& call_ensures(get, ("MQ_HEARTBEAT_SECS",), vars.heartbeat_secs)
    &&& call_ensures(get, ("MQ_POLL_SECS",), vars.poll_secs)
    &&& call_ensures(get, ("MQ_TWAMP_PORT",), vars.twamp_port)
    &&& call_ensures(get, ("MQ_TWAMP_PEERS",), vars.twamp_peers)
    &&& call_ensures(get, ("MQ_SPOOL_MAX_ENTRIES",), vars.spool_max_entries)
    &&& call_ensures(get, ("MQ_SPOOL_MAX_BYTES",), vars.spool_max_bytes)
    &&& call_ensures(get, ("MQ_SPOOL_ONSET_PCT",), vars.spool_onset_pct)
    &&& call_ensures(get, ("MQ_ROUTEROS_HOST",), vars.routeros_host)
    &&& call_ensures(get, ("MQ_ROUTEROS_USER",), vars.routeros_user)
    &&& call_ensures(get, ("MQ_ROUTEROS_PASS",), vars.routeros_pass)
    &&& call_ensures(get, ("MQ_ROUTEROS_TLS",), vars.routeros_tls)
    &&& call_ensures(get, ("MQ_ROUTEROS_PORT",), vars.routeros_port)
}

impl Variables {
    /// Look every variable up.
    pub fn read<F>(get: F) -> (r: Variables) where F: Fn(&str) -> Option<String>
        requires
            forall|name: &str| call_requires(get, (name,)),
        ensures
            looked_up(get, r),
    {
        Variables {
            controller_url: get("MQ_CONTROLLER_URL"),
            agent_name: get("MQ_AGENT_NAME"),
            agent_group: get("MQ_AGENT_GROUP"),
            enrolment_token: get("MQ_ENROLMENT_TOKEN"),
            probe_port: get("MQ_PROBE_PORT"),
            advertise_addr: get("MQ_ADVERTISE_ADDR"),
            state_dir: get("MQ_STATE_DIR"),
            log: get("MQ_LOG"),
            heartbeat_secs: get("MQ_HEARTBEAT_SECS"),
            poll_secs: get("MQ_POLL_SECS"),
            twamp_port: get("MQ_TWAMP_PORT"),
            twamp_peers: get("MQ_TWAMP_PEERS"),
            spool_max_entries: get("MQ_SPOOL_MAX_ENTRIES"),
            spool_max_bytes: get("MQ_SPOOL_MAX_BYTES"),
            spool_onset_pct: get("MQ_SPOOL_ONSET_PCT"),
            routeros_host: get("MQ_ROUTEROS_HOST"),
            routeros_user: get("MQ_ROUTEROS_USER"),
            routeros_pass: get("MQ_ROUTEROS_PASS"),
            routeros_tls: get("MQ_ROUTEROS_TLS"),
            routeros_port: get("MQ_ROUTEROS_PORT"),
        }
    }
}

/// The value of a variable that counts as set: one that is blank does not.
pub open spec fn given(v: Option<String>) -> Option<Seq<char>> {
    match v {
        Some(s) if crate::text::trimmed(s@).len() > 0 => Some(s@),
        _ => None,
    }
}

/// What is wrong with a variable that must be set.
pub open spec fn required_error(var: Seq<char>, v: Option<String>) -> Option<ConfigErrorView> {
    match given(v) {
        Some(_) => None,
        None => Some(ConfigErrorView::Missing(var)),
    }
}

/// The number that a variable gives, up to `max`. One that is not set gives
/// `default`; one that is no number gives none.
pub open spec fn number(v: Option<String>, max: nat, default: nat) -> Option<nat> {
    match given(v) {
        Some(s) => crate::text::unsigned(crate::text::trimmed(s), 10, max),
        None => Some(default),
    }
}

/// What is wrong with a variable that must be a number, where it is set.
pub open spec fn number_error(
    var: Seq<char>,
    v: Option<String>,
    max: nat,
    reason: Seq<char>,
) -> Option<ConfigErrorView> {
    match given(v) {
        Some(s) => match crate::text::unsigned(crate::text::trimmed(s), 10, max) {
            Some(_) => None,
            None => Some(ConfigErrorView::Invalid { var, value: s, reason }),
        },
        None => None,
    }
}

/// The address that a variable gives, where it is set and is one.
pub open spec fn given_address(v: Option<String>) -> Option<IpAddr> {
    match given(v) {
        Some(s) => crate::net::address(crate::text::trimmed(s)),
        None => None,
    }
}

/// What is wrong with a variable that must be an address, where it is set.
pub open spec fn address_error(var: Seq<char>, v: Option<String>, reason: Seq<char>) -> Option<
    ConfigErrorView,
> {
    match given(v) {
        Some(s) => match crate::net::address(crate::text::trimmed(s)) {
            Some(_) => None,
            None => Some(ConfigErrorView::Invalid { var, value: s, reason }),
        },
        None => None,
    }
}

/// A word for yes or no, whatever its case; anything else is `default`.
pub open spec fn truth(v: Option<Seq<char>>, default: bool) -> bool {
    match v {
        Some(s) => {
            let w = crate::text::lowered(crate::text::trimmed(s));
            if w == "1"@ || w == "true"@ || w == "yes"@ || w == "on"@ {
                true
            } else if w == "0"@ || w == "false"@ || w == "no"@ || w == "off"@ {
                false
            } else {
                default
            }
        },
        None => default,
    }
}

/// What is wrong with the controller's URL.
pub open spec fn url_error(v: Option<String>) -> Option<ConfigErrorView> {
    match given(v) {
        Some(s) => if crate::text::starts(s, "http://"@) || crate::text::starts(s, "https://"@) {
            None
        } else {
            Some(
                ConfigErrorView::Invalid {
                    var: "MQ_CONTROLLER_URL"@,
                    value: s,
                    reason: "must start with http:// or https://"@,
                },
            )
        },
        None => Some(ConfigErrorView::Missing("MQ_CONTROLLER_URL"@)),
    }
}

/// What is wrong with the list of TWAMP peers.
pub open spec fn peers_error(v: Option<String>) -> Option<ConfigErrorView> {
    match crate::net::address_list(crate::text::seen(v)) {
        Ok(_) => None,
        Err(bad) => Some(
            ConfigErrorView::Invalid {
                var: "MQ_TWAMP_PEERS"@,
                value: bad,
                reason: "expected a comma-separated list of IP addresses"@,
            },
        ),
    }
}

/// The port that the RouterOS API has where none is given.
pub open spec fn default_api_port(tls: bool) -> nat {
    if tls {
        8729
    } else {
        8728
    }
}

/// What is wrong with the RouterOS settings, where there are any. Half of them
/// are worse than none: the agent would advertise the bandwidth test, be
/// scheduled throughput work, and fail every task at run time.
pub open spec fn routeros_error(v: Variables) -> Option<ConfigErrorView> {
    match given(v.routeros_host) {
        None => None,
        Some(s) => either(
            address_error(
                "MQ_ROUTEROS_HOST"@,
                v.routeros_host,
                "expected an IP address — usually the container's default gateway"@,
            ),
            either(
                if given(v.routeros_user) is None {
                    Some(ConfigErrorView::PartialRouterOs("MQ_ROUTEROS_USER"@))
                } else {
                    None
                },
                either(
                    if v.routeros_pass is None {
                        Some(ConfigErrorView::PartialRouterOs("MQ_ROUTEROS_PASS"@))
                    } else {
                        None
                    },
                    number_error(
                        "MQ_ROUTEROS_PORT"@,
                        v.routeros_port,
                        u16::MAX as nat,
                        "expected a port number"@,
                    ),
                ),
            ),
        ),
    }
}

/// The first of two that there is.
pub open spec fn either(a: Option<ConfigErrorView>, b: Option<ConfigErrorView>) -> Option<
    ConfigErrorView,
> {
    if a is Some {
        a
    } else {
        b
    }
}

/// `c` is the RouterOS part of the configuration that `v` gives.
pub open spec fn routeros_loaded(v: Variables, c: Option<RouterOsConfig>) -> bool {
    match (given(v.routeros_host), c) {
        (None, None) => true,
        (Some(_), Some(r)) => {
            &&& given_address(v.routeros_host) == Some(r.host)
            &&& given(v.routeros_user) == Some(r.username@)
            &&& crate::text::seen(v.routeros_pass) == Some(r.password@)
            &&& r.use_tls == truth(crate::text::seen(v.routeros_tls), false)
            &&& number(v.routeros_port, u16::MAX as nat, default_api_port(r.use_tls)) == Some(
                r.port as nat,
            )
        },
        _ => false,
    }
}

/// The first thing that is wrong with the variables, in the order in which they
/// are looked at.
pub open spec fn load_error(v: Variables) -> Option<ConfigErrorView> {
    let port = "expected a port number"@;
    let secs = "expected a number of seconds"@;
    either(
        url_error(v.controller_url),
        either(
            required_error("MQ_AGENT_NAME"@, v.agent_name),
            either(
                required_error("MQ_AGENT_GROUP"@, v.agent_group),
                either(
                    required_error("MQ_ENROLMENT_TOKEN"@, v.enrolment_token),
                    either(
                        number_error("MQ_PROBE_PORT"@, v.probe_port, u16::MAX as nat, port),
                        either(
                            address_error(
                                "MQ_ADVERTISE_ADDR"@,
                                v.advertise_addr,
                                "expected an IP address"@,
                            ),
                            either(
                                routeros_error(v),
                                either(
                                    number_error(
                                        "MQ_HEARTBEAT_SECS"@,
                                        v.heartbeat_secs,
                                        u64::MAX as nat,
                                        secs,
                                    ),
                                    either(
                                        number_error(
                                            "MQ_POLL_SECS"@,
                                            v.poll_secs,
                                            u64::MAX as nat,
                                            secs,
                                        ),
                                        service_error(v),
                                    ),
                                ),
                            ),
                        ),
                    ),
                ),
            ),
        ),
    )
}

/// The same for the TWAMP responder and the spool, which come last.
pub open spec fn service_error(v: Variables) -> Option<ConfigErrorView> {
    either(
        number_error(
            "MQ_TWAMP_PORT"@,
            v.twamp_port,
            u16::MAX as nat,
            "expected a port number"@,
        ),
        either(
            peers_error(v.twamp_peers),
            either(
                number_error(
                    "MQ_SPOOL_MAX_ENTRIES"@,
                    v.spool_max_entries,
                    usize::MAX as nat,
                    "expected a number of results"@,
                ),
                either(
                    number_error(
                        "MQ_SPOOL_MAX_BYTES"@,
                        v.spool_max_bytes,
                        usize::MAX as nat,
                        "expected a number of bytes"@,
                    ),
                    number_error(
                        "MQ_SPOOL_ONSET_PCT"@,
                        v.spool_onset_pct,
                        u32::MAX as nat,
                        "expected a percentage (0-90)"@,
                    ),
                ),
            ),
        ),
    )
}

/// The text of a variable, or `default` where it is not set at all.
pub open spec fn text_or(v: Option<String>, default: Seq<char>) -> Seq<char> {
    match v {
        Some(s) => s@,
        None => default,
    }
}

/// `c` is the configuration that `v` gives.
pub open spec fn is_loaded(v: Variables, c: Config) -> bool {
    &&& given(v.controller_url) is Some
    &&& c.controller_url@ == crate::text::without_back(
        given(v.controller_url)->0,
        |x: char| x == '/',
    )
    &&& given(v.enrolment_token) == Some(c.enrolment_token@)
    &&& given(v.agent_name) == Some(c.name@)
    &&& given(v.agent_group) == Some(c.group@)
    &&& c.probe_bind.ip == IpAddr::V4(0)
    &&& c.probe_bind.scope_id == 0
    &&& number(v.probe_port, u16::MAX as nat, 5301) == Some(c.probe_bind.port as nat)
    &&& c.advertise_addr == given_address(v.advertise_addr)
    &&& c.state_dir@ == text_or(v.state_dir, "/var/lib/mqagent"@)
    &&& routeros_loaded(v, c.routeros)
    &&& c.log_filter@ == text_or(v.log, "info"@)
    &&& number(v.heartbeat_secs, u64::MAX as nat, 30) == Some(
        c.heartbeat_interval.nanos as nat / 1_000_000_000,
    )
    &&& c.heartbeat_interval.nanos % 1_000_000_000 == 0
    &&& number(v.poll_secs, u64::MAX as nat, 10) == Some(
        c.poll_interval.nanos as nat / 1_000_000_000,
    )
    &&& c.poll_interval.nanos % 1_000_000_000 == 0
    &&& match c.twamp_port {
        Some(p) => given(v.twamp_port) is Some && number(v.twamp_port, u16::MAX as nat, 0) == Some(
            p as nat,
        ),
        None => given(v.twamp_port) is None,
    }
    &&& crate::net::address_list(crate::text::seen(v.twamp_peers)) == Ok::<Seq<IpAddr>, Seq<char>>(
        c.twamp_peers@,
    )
    &&& match (
        number(v.spool_max_entries, usize::MAX as nat, DEFAULT_MAX_ENTRIES as nat),
        number(v.spool_max_bytes, usize::MAX as nat, DEFAULT_MAX_BYTES as nat),
        number(v.spool_onset_pct, u32::MAX as nat, DEFAULT_ONSET_PCT as nat),
    ) {
        (Some(e), Some(b), Some(p)) => c.spool == crate::spool::config_for(
            e as usize,
            b as usize,
            p as u32,
        ),
        _ => false,
    }
}

/// `r` is what loading `v` comes to.
pub open spec fn load_result(v: Variables, r: Result<Config, ConfigError>) -> bool {
    match r {
        Ok(c) => load_error(v) is None && is_loaded(v, c),
        Err(e) => load_error(v) == Some(e@),
    }
}

fn is_given(v: &Option<String>) -> (r: bool)
    ensures
        r == (given(*v) is Some),
{
    match v {
        Some(s) => trim(s.as_str()).unicode_len() > 0,
        None => false,
    }
}

fn required(var: &'static str, v: &Option<String>) -> (r: Result<String, ConfigError>)
    ensures
        match r {
            Ok(s) => given(*v) == Some(s@),
            Err(e) => required_error(var@, *v) == Some(e@),
        },
{
    match v {
        Some(s) => if trim(s.as_str()).unicode_len() > 0 {
            Ok(s.clone())
        } else {
            Err(ConfigError::Missing(var))
        },
        None => Err(ConfigError::Missing(var)),
    }
}

/// The number in a variable, up to `max`.
fn parse_or(
    var: &'static str,
    v: &Option<String>,
    max: u64,
    default: u64,
    reason: &'static str,
) -> (r: Result<u64, ConfigError>)
    ensures
        match r {
            Ok(n) => {
                &&& number_error(var@, *v, max as nat, reason@) is None
                &&& number(*v, max as nat, default as nat) == Some(n as nat)
                &&& default <= max ==> n <= max
            },
            Err(e) => number_error(var@, *v, max as nat, reason@) == Some(e@),
        },
{
    match v {
        Some(s) => {
            let t = trim(s.as_str());
            if t.unicode_len() == 0 {
                return Ok(default);
            }
            match parse_radix(t, 10, max) {
                Some(n) => Ok(n),
                None => Err(ConfigError::Invalid { var, value: s.clone(), reason }),
            }
        },
        None => Ok(default),
    }
}

/// The address in a variable.
fn parse_address(var: &'static str, v: &Option<String>, reason: &'static str) -> (r: Result<
    Option<IpAddr>,
    ConfigError,
>)
    ensures
        match r {
            Ok(a) => address_error(var@, *v, reason@) is None && a == given_address(*v) && (a is Some
                == given(*v) is Some),
            Err(e) => address_error(var@, *v, reason@) == Some(e@),
        },
{
    match v {
        Some(s) => {
            let t = trim(s.as_str());
            if t.unicode_len() == 0 {
                return Ok(None);
            }
            match IpAddr::parse(t) {
                Some(a) => Ok(Some(a)),
                None => Err(ConfigError::Invalid { var, value: s.clone(), reason }),
            }
        },
        None => Ok(None),
    }
}

pub fn parse_bool(v: Option<&str>, default: bool) -> (r: bool)
    ensures
        r == truth(
            match v {
                Some(s) => Some(s@),
                None => None,
            },
            default,
        ),
{
    match v {
        Some(s) => {
            let w = to_ascii_lowercase(trim(s));
            let w = w.as_str();
            if same(w, "1") || same(w, "true") || same(w, "yes") || same(w, "on") {
                true
            } else if same(w, "0") || same(w, "false") || same(w, "no") || same(w, "off") {
                false
            } else {
                default
            }
        },
        None => default,
    }
}

fn or_text(v: &Option<String>, default: &str) -> (r: String)
    ensures
        r@ == text_or(*v, default@),
{
    match v {
        Some(s) => s.clone(),
        None => default.to_owned(),
    }
}

impl Config {
    /// Load from an arbitrary lookup, so the parsing rules can be tested
    /// without mutating global process state.
    pub fn from_source<F>(get: F) -> (r: Result<Config, ConfigError>) where
        F: Fn(&str) -> Option<String>,

        requires
            forall|name: &str| call_requires(get, (name,)),
        ensures
            exists|v: Variables| #[trigger] looked_up(get, v) && load_result(v, r),
    {
        let v = Variables::read(get);
        Config::from_variables(&v)
    }

    /// Load from the variables as they stand.
    pub fn from_variables(v: &Variables) -> (r: Result<Config, ConfigError>)
        ensures
            load_result(*v, r),
    {
        let url = match required("MQ_CONTROLLER_URL", &v.controller_url) {
            Ok(s) => s,
            Err(e) => return Err(e),
        };
        if !starts_with(url.as_str(), "http://") && !starts_with(url.as_str(), "https://") {
            return Err(
                ConfigError::Invalid {
                    var: "MQ_CONTROLLER_URL",
                    value: url,
                    reason: "must start with http:// or https://",
                },
            );
        }
        let name = match required("MQ_AGENT_NAME", &v.agent_name) {
            Ok(s) => s,
            Err(e) => return Err(e),
        };
        let group = match required("MQ_AGENT_GROUP", &v.agent_group) {
            Ok(s) => s,
            Err(e) => return Err(e),
        };
        let enrolment_token = match required("MQ_ENROLMENT_TOKEN", &v.enrolment_token) {
            Ok(s) => s,
            Err(e) => return Err(e),
        };
        let probe_port: u64 = match parse_or(
            "MQ_PROBE_PORT",
            &v.probe_port,
            65535,
            5301,
            "expected a port number",
        ) {
            Ok(n) => n,
            Err(e) => return Err(e),
        };
        let advertise_addr = match parse_address(
            "MQ_ADVERTISE_ADDR",
            &v.advertise_addr,
            "expected an IP address",
        ) {
            Ok(a) => a,
            Err(e) => return Err(e),
        };
        let routeros = match Config::routeros_from(v) {
            Ok(c) => c,
            Err(e) => return Err(e),
        };
        let heartbeat: u64 = match parse_or(
            "MQ_HEARTBEAT_SECS",
            &v.heartbeat_secs,
            u64::MAX,
            30,
            "expected a number of seconds",
        ) {
            Ok(n) => n,
            Err(e) => return Err(e),
        };
        let poll: u64 = match parse_or(
            "MQ_POLL_SECS",
            &v.poll_secs,
            u64::MAX,
            10,
            "expected a number of seconds",
        ) {
            Ok(n) => n,
            Err(e) => return Err(e),
        };
        let (twamp_port, twamp_peers, spool) = match Config::services_from(v) {
            Ok(s) => s,
            Err(e) => return Err(e),
        };
        Ok(
            Config {
                controller_url: trim_end_char(url.as_str(), '/').to_owned(),
                enrolment_token,
                name,
                group,
                probe_bind: SocketAddr::new(IpAddr::V4(0), probe_port as u16),
                advertise_addr,
                state_dir: or_text(&v.state_dir, "/var/lib/mqagent"),
                routeros,
                log_filter: or_text(&v.log, "info"),
                heartbeat_interval: Duration::from_secs(heartbeat),
                poll_interval: Duration::from_secs(poll),
                spool,
                twamp_port,
                twamp_peers,
            },
        )
    }

    /// The TWAMP responder and the spool.
    fn services_from(v: &Variables) -> (r: Result<
        (Option<u16>, Vec<IpAddr>, SpoolConfig),
        ConfigError,
    >)
        ensures
            match r {
                Ok(s) => {
                    &&& service_error(*v) is None
                    &&& match s.0 {
                        Some(p) => given(v.twamp_port) is Some && number(
                            v.twamp_port,
                            u16::MAX as nat,
                            0,
                        ) == Some(p as nat),
                        None => given(v.twamp_port) is None,
                    }
                    &&& crate::net::address_list(crate::text::seen(v.twamp_peers)) == Ok::<
                        Seq<IpAddr>,
                        Seq<char>,
                    >(s.1@)
                    &&& match (
                        number(v.spool_max_entries, usize::MAX as nat, DEFAULT_MAX_ENTRIES as nat),
                        number(v.spool_max_bytes, usize::MAX as nat, DEFAULT_MAX_BYTES as nat),
                        number(v.spool_onset_pct, u32::MAX as nat, DEFAULT_ONSET_PCT as nat),
                    ) {
                        (Some(e), Some(b), Some(p)) => s.2 == crate::spool::config_for(
                            e as usize,
                            b as usize,
                            p as u32,
                        ),
                        _ => false,
                    }
                },
                Err(e) => service_error(*v) == Some(e@),
            },
    {
        let port: u64 = match parse_or(
            "MQ_TWAMP_PORT",
            &v.twamp_port,
            65535,
            0,
            "expected a port number",
        ) {
            Ok(n) => n,
            Err(e) => return Err(e),
        };
        let twamp_port = if is_given(&v.twamp_port) {
            Some(port as u16)
        } else {
            None
        };
        let twamp_peers = match parse_address_list(&v.twamp_peers) {
            Ok(p) => p,
            Err(bad) => return Err(
                ConfigError::Invalid {
                    var: "MQ_TWAMP_PEERS",
                    value: bad,
                    reason: "expected a comma-separated list of IP addresses",
                },
            ),
        };
        let entries: u64 = match parse_or(
            "MQ_SPOOL_MAX_ENTRIES",
            &v.spool_max_entries,
            usize::MAX as u64,
            DEFAULT_MAX_ENTRIES as u64,
            "expected a number of results",
        ) {
            Ok(n) => n,
            Err(e) => return Err(e),
        };
        let bytes: u64 = match parse_or(
            "MQ_SPOOL_MAX_BYTES",
            &v.spool_max_bytes,
            usize::MAX as u64,
            DEFAULT_MAX_BYTES as u64,
            "expected a number of bytes",
        ) {
            Ok(n) => n,
            Err(e) => return Err(e),
        };
        // A percentage rather than a fraction: an envlist value of "20" is
        // harder to misread than "0.2".
        let pct: u64 = match parse_or(
            "MQ_SPOOL_ONSET_PCT",
            &v.spool_onset_pct,
            u32::MAX as u64,
            DEFAULT_ONSET_PCT as u64,
            "expected a percentage (0-90)",
        ) {
            Ok(n) => n,
            Err(e) => return Err(e),
        };
        Ok(
            (
                twamp_port,
                twamp_peers,
                SpoolConfig::new(entries as usize, bytes as usize, pct as u32),
            ),
        )
    }

    fn routeros_from(v: &Variables) -> (r: Result<Option<RouterOsConfig>, ConfigError>)
        ensures
            match r {
                Ok(c) => routeros_error(*v) is None && routeros_loaded(*v, c),
                Err(e) => routeros_error(*v) == Some(e@),
            },
    {
        let host = match parse_address(
            "MQ_ROUTEROS_HOST",
            &v.routeros_host,
            "expected an IP address — usually the container's default gateway",
        ) {
            Ok(Some(a)) => a,
            Ok(None) => return Ok(None),
            Err(e) => return Err(e),
        };
        let username = match required("MQ_ROUTEROS_USER", &v.routeros_user) {
            Ok(s) => s,
            Err(_) => return Err(ConfigError::PartialRouterOs("MQ_ROUTEROS_USER")),
        };
        // Presence, not non-emptiness. A blank RouterOS password is normal on
        // lab and factory-default routers, which is exactly where this tool is
        // most needed, and the environment distinguishes "unset" from "set to
        // empty".
        let password = match &v.routeros_pass {
            Some(s) => s.clone(),
            None => return Err(ConfigError::PartialRouterOs("MQ_ROUTEROS_PASS")),
        };
        let use_tls = match &v.routeros_tls {
            Some(s) => parse_bool(Some(s.as_str()), false),
            None => parse_bool(None, false),
        };
        let default_port: u64 = if use_tls {
            8729
        } else {
            8728
        };
        let port: u64 = match parse_or(
            "MQ_ROUTEROS_PORT",
            &v.routeros_port,
            65535,
            default_port,
            "expected a port number",
        ) {
            Ok(n) => n,
            Err(e) => return Err(e),
        };
        Ok(Some(RouterOsConfig { host, port: port as u16, username, password, use_tls }))
    }

    /// Whether this agent can offload throughput tests to its host router.
    pub fn can_bandwidth_test(&self) -> (r: bool)
        ensures
            r == (self.routeros is Some),
    {
        self.routeros.is_some()
    }
}

impl RouterOsConfig {
    /// Port for the REST API.
    ///
    /// `port` configures the *binary* API, which the throughput offload wants
    /// for its streaming. Discovery and one-shot diagnostics use REST, which
    /// lives on the web service instead: a different port entirely, and reusing
    /// 8728 there fails with a confusing connection error.
    pub fn port_rest(&self) -> (r: u16)
        ensures
            r == (if self.use_tls {
                443u16
            } else {
                80u16
            }),
    {
        if self.use_tls {
            443
        } else {
            80
        }
    }
}

/// However the spool is tuned, part of it stays evictable, and a share above
/// the largest counts as the largest: it can never jam.
pub proof fn law_the_spool_never_jams(v: Variables, c: Config)
    requires
        is_loaded(v, c),
    ensures
        c.spool.onset_reserve < c.spool.max_entries,
        c.spool.max_bytes >= 1,
{
}

/// A configuration is loaded with RouterOS credentials that are complete, or
/// with none at all.
pub proof fn law_credentials_are_never_partial(v: Variables, c: Config)
    requires
        is_loaded(v, c),
    ensures
        c.routeros is Some ==> given(v.routeros_host) is Some && given(v.routeros_user) is Some
            && v.routeros_pass is Some,
        c.routeros is None ==> given(v.routeros_host) is None,
{
}

/// Every required variable is enforced: where one of them is blank or not set,
/// nothing is loaded.
pub proof fn law_required_variables_are_enforced(v: Variables)
    requires
        given(v.controller_url) is None || given(v.agent_name) is None || given(
            v.agent_group,
        ) is None || given(v.enrolment_token) is None,
    ensures
        load_error(v) is Some,
{
}

/// A variable that is not set.
pub open spec fn unset(v: Option<String>) -> bool {
    v is None
}

/// A variable that is set to the number `n`.
pub open spec fn set_to(v: Option<String>, n: nat) -> bool {
    v is Some && v->0@ == crate::text::decimal(n)
}

proof fn lemma_set_to(v: Option<String>, n: nat, max: nat, default: nat)
    requires
        n <= max,
    ensures
        set_to(v, n) ==> number(v, max, default) == Some(n) && given(v) is Some,
        unset(v) ==> number(v, max, default) == Some(default) && given(v) is None,
{
    crate::routeros::btest::lemma_decimal_is_trimmed(n);
    crate::text::law_decimal_reads_back(n);
}

/// Each setting comes from its own variable: the names and the token as they
/// stand, the URL without the slashes at its end, the numbers as they are
/// written, and what is not set as its default.
pub proof fn law_each_setting_comes_from_its_variable(v: Variables, c: Config, n: nat)
    requires
        load_result(v, Ok(c)),
        n <= u16::MAX,
    ensures
        v.agent_name is Some && c.name@ == v.agent_name->0@,
        v.agent_group is Some && c.group@ == v.agent_group->0@,
        v.enrolment_token is Some && c.enrolment_token@ == v.enrolment_token->0@,
        v.controller_url is Some,
        c.controller_url@.len() <= v.controller_url->0@.len(),
        c.controller_url@ == v.controller_url->0@.take(c.controller_url@.len() as int),
        c.controller_url@.len() > 0 ==> c.controller_url@.last() != '/',
        forall|i: int|
            c.controller_url@.len() <= i < v.controller_url->0@.len()
                ==> #[trigger] v.controller_url->0@[i] == '/',
        unset(v.probe_port) ==> c.probe_bind.port == 5301,
        set_to(v.probe_port, n) ==> c.probe_bind.port == n,
        unset(v.heartbeat_secs) ==> c.heartbeat_interval.nanos == 30_000_000_000,
        set_to(v.heartbeat_secs, n) ==> c.heartbeat_interval.nanos == n * 1_000_000_000,
        unset(v.poll_secs) ==> c.poll_interval.nanos == 10_000_000_000,
        set_to(v.poll_secs, n) ==> c.poll_interval.nanos == n * 1_000_000_000,
        unset(v.state_dir) ==> c.state_dir@ == "/var/lib/mqagent"@,
        v.state_dir is Some ==> c.state_dir@ == v.state_dir->0@,
        unset(v.log) ==> c.log_filter@ == "info"@,
        v.log is Some ==> c.log_filter@ == v.log->0@,
        unset(v.twamp_port) ==> c.twamp_port is None,
        set_to(v.twamp_port, n) ==> c.twamp_port == Some(n as u16),
        unset(v.twamp_peers) ==> c.twamp_peers@.len() == 0,
        unset(v.advertise_addr) ==> c.advertise_addr is None,
        unset(v.routeros_host) ==> c.routeros is None,
        c.routeros matches Some(r) ==> {
            &&& v.routeros_user is Some && r.username@ == v.routeros_user->0@
            &&& v.routeros_pass is Some && r.password@ == v.routeros_pass->0@
            &&& unset(v.routeros_tls) ==> !r.use_tls
            &&& unset(v.routeros_port) ==> r.port == if r.use_tls {
                8729
            } else {
                8728int
            }
            &&& set_to(v.routeros_port, n) ==> r.port == n
        },
{
    lemma_set_to(v.probe_port, n, u16::MAX as nat, 5301);
    lemma_set_to(v.heartbeat_secs, n, u64::MAX as nat, 30);
    lemma_set_to(v.poll_secs, n, u64::MAX as nat, 10);
    lemma_set_to(v.twamp_port, n, u16::MAX as nat, 0);
    if c.routeros is Some {
        lemma_set_to(
            v.routeros_port,
            n,
            u16::MAX as nat,
            default_api_port(c.routeros->0.use_tls),
        );
    }
    let url = v.controller_url->0@;
    crate::text_laws::lemma_cut_back(url, |x: char| x == '/');
}

/// An address that a variable is set to is the one that is used.
pub proof fn law_addresses_come_from_their_variables(
    v: Variables,
    c: Config,
    a: nat,
    b: nat,
    d: nat,
    e: nat,
)
    requires
        load_result(v, Ok(c)),
        a < 256,
        b < 256,
        d < 256,
        e < 256,
    ensures
        ({
            let text = crate::net_laws::quad(a, b, d, e);
            let ip = IpAddr::V4((((a * 256 + b) * 256 + d) * 256 + e) as u32);
            &&& v.advertise_addr is Some && v.advertise_addr->0@ == text ==> c.advertise_addr
                == Some(ip)
            &&& v.routeros_host is Some && v.routeros_host->0@ == text ==> c.routeros is Some
                && c.routeros->0.host == ip
        }),
{
    let text = crate::net_laws::quad(a, b, d, e);
    crate::net_laws::law_dotted_addresses_read_back(a, b, d, e);
    crate::discovery::reading_laws::lemma_quad(a, b, d, e);
    crate::discovery::reading_laws::lemma_not_trimmed(text);
}

/// The text is white space all through, or the variable is not set at all.
pub open spec fn is_blank(v: Option<String>) -> bool {
    v is None || crate::text::trimmed(v->0@).len() == 0
}

/// The variable is blank or a number up to `max`.
pub open spec fn blank_or_number(v: Option<String>, max: nat) -> bool {
    is_blank(v) || crate::text::unsigned(crate::text::trimmed(v->0@), 10, max) is Some
}

/// The variable is blank or an address.
pub open spec fn blank_or_address(v: Option<String>) -> bool {
    is_blank(v) || crate::net::address(crate::text::trimmed(v->0@)) is Some
}

/// A configuration is refused exactly when something is wrong with it: a
/// required variable is blank, the URL is no web address, a number or an address
/// is none, or RouterOS is named without a user and a password.
pub proof fn law_when_a_configuration_is_refused(v: Variables)
    ensures
        load_error(v) is None <==> {
            &&& !is_blank(v.controller_url)
            &&& crate::text::starts(v.controller_url->0@, "http://"@) || crate::text::starts(
                v.controller_url->0@,
                "https://"@,
            )
            &&& !is_blank(v.agent_name)
            &&& !is_blank(v.agent_group)
            &&& !is_blank(v.enrolment_token)
            &&& blank_or_number(v.probe_port, 65_535)
            &&& blank_or_address(v.advertise_addr)
            &&& is_blank(v.routeros_host) || (blank_or_address(v.routeros_host) && !is_blank(
                v.routeros_user,
            ) && v.routeros_pass is Some && blank_or_number(v.routeros_port, 65_535))
            &&& blank_or_number(v.heartbeat_secs, u64::MAX as nat)
            &&& blank_or_number(v.poll_secs, u64::MAX as nat)
            &&& blank_or_number(v.twamp_port, 65_535)
            &&& v.twamp_peers is Some ==> crate::net::address_list(Some(v.twamp_peers->0@)) is Ok
            &&& blank_or_number(v.spool_max_entries, usize::MAX as nat)
            &&& blank_or_number(v.spool_max_bytes, usize::MAX as nat)
            &&& blank_or_number(v.spool_onset_pct, u32::MAX as nat)
        },
{
}

/// A variable that is refused is named, with the value it has.
pub proof fn law_a_refusal_names_its_variable(v: Variables)
    ensures
        load_error(v) matches Some(ConfigErrorView::Missing(name)) ==> {
            ||| name == "MQ_CONTROLLER_URL"@ && is_blank(v.controller_url)
            ||| name == "MQ_AGENT_NAME"@ && is_blank(v.agent_name)
            ||| name == "MQ_AGENT_GROUP"@ && is_blank(v.agent_group)
            ||| name == "MQ_ENROLMENT_TOKEN"@ && is_blank(v.enrolment_token)
        },
        load_error(v) matches Some(ConfigErrorView::PartialRouterOs(name)) ==> {
            ||| name == "MQ_ROUTEROS_USER"@ && is_blank(v.routeros_user)
            ||| name == "MQ_ROUTEROS_PASS"@ && v.routeros_pass is None
        },
        load_error(v) matches Some(ConfigErrorView::Invalid { var, value, reason }) ==> {
            ||| var == "MQ_CONTROLLER_URL"@ && v.controller_url is Some && value
                == v.controller_url->0@
            ||| var == "MQ_PROBE_PORT"@ && v.probe_port is Some && value == v.probe_port->0@
            ||| var == "MQ_ADVERTISE_ADDR"@ && v.advertise_addr is Some && value
                == v.advertise_addr->0@
            ||| var == "MQ_ROUTEROS_HOST"@ && v.routeros_host is Some && value
                == v.routeros_host->0@
            ||| var == "MQ_ROUTEROS_PORT"@ && v.routeros_port is Some && value
                == v.routeros_port->0@
            ||| var == "MQ_HEARTBEAT_SECS"@ && v.heartbeat_secs is Some && value
                == v.heartbeat_secs->0@
            ||| var == "MQ_POLL_SECS"@ && v.poll_secs is Some && value == v.poll_secs->0@
            ||| var == "MQ_TWAMP_PORT"@ && v.twamp_port is Some && value == v.twamp_port->0@
            ||| var == "MQ_TWAMP_PEERS"@ && v.twamp_peers is Some
            ||| var == "MQ_SPOOL_MAX_ENTRIES"@ && v.spool_max_entries is Some && value
                == v.spool_max_entries->0@
            ||| var == "MQ_SPOOL_MAX_BYTES"@ && v.spool_max_bytes is Some && value
                == v.spool_max_bytes->0@
            ||| var == "MQ_SPOOL_ONSET_PCT"@ && v.spool_onset_pct is Some && value
                == v.spool_onset_pct->0@
        },
{
}

/// A word for yes is yes and a word for no is no, whatever the default; what is
/// neither, or is not there, is the default; case and surrounding white space do
/// not matter.
pub proof fn law_words_for_yes_and_no(s: Seq<char>, default: bool)
    ensures
        ({
            let w = crate::text::lowered(crate::text::trimmed(s));
            let yes = w == "1"@ || w == "true"@ || w == "yes"@ || w == "on"@;
            let no = w == "0"@ || w == "false"@ || w == "no"@ || w == "off"@;
            &&& yes ==> truth(Some(s), default)
            &&& no ==> !truth(Some(s), default)
            &&& !yes && !no ==> truth(Some(s), default) == default
            &&& truth(None, default) == default
        }),
{
    reveal_strlit("1");
    reveal_strlit("true");
    reveal_strlit("yes");
    reveal_strlit("on");
    reveal_strlit("0");
    reveal_strlit("false");
    reveal_strlit("no");
    reveal_strlit("off");
    assert("1"@[0] == '1' && "0"@[0] == '0' && "on"@[0] == 'o' && "no"@[0] == 'n');
    assert("yes"@[0] == 'y' && "off"@[0] == 'o' && "true"@.len() == 4 && "false"@.len() == 5);
    assert("1"@.len() == 1 && "0"@.len() == 1 && "on"@.len() == 2 && "no"@.len() == 2);
    assert("yes"@.len() == 3 && "off"@.len() == 3);
}

/// The spool has the bounds that its variables set; where they are not set it
/// holds ten thousand results and eight mebibytes, a fifth of them reserved for
/// the onset of an outage.
pub proof fn law_the_spool_has_the_bounds_that_are_set(v: Variables, c: Config, n: nat)
    requires
        load_result(v, Ok(c)),
        0 < n <= u16::MAX,
    ensures
        unset(v.spool_max_entries) ==> c.spool.max_entries == 10_000,
        set_to(v.spool_max_entries, n) ==> c.spool.max_entries == n,
        unset(v.spool_max_bytes) ==> c.spool.max_bytes == 8 * 1024 * 1024,
        set_to(v.spool_max_bytes, n) ==> c.spool.max_bytes == n,
        unset(v.spool_max_entries) && unset(v.spool_onset_pct) ==> c.spool.onset_reserve == 2_000,
        unset(v.spool_max_entries) && set_to(v.spool_onset_pct, n) && n <= 90
            ==> c.spool.onset_reserve == 100 * n,
        unset(v.spool_max_entries) && set_to(v.spool_onset_pct, n) && n > 90
            ==> c.spool.onset_reserve == 9_000,
{
    lemma_set_to(v.spool_max_entries, n, usize::MAX as nat, 10_000);
    lemma_set_to(v.spool_max_bytes, n, usize::MAX as nat, 8_388_608);
    lemma_set_to(v.spool_onset_pct, n, u32::MAX as nat, 20);
}

} // verus!
