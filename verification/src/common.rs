//! Process-wide configuration and small shared helpers.

use vstd::prelude::*;
use vstd::string::StringExecFns;

verus! {

/// Behaviour when a container does not carry the configured environment
/// variable.
#[derive(Debug, Eq, PartialEq, Copy, Clone, Structural)]
pub enum MissingEnvVarHandling {
    /// Report an error for explicitly listed containers; ignore containers
    /// found via enumeration.
    Automatic,
    /// Report missing environment variables as an error for all containers.
    Report,
    /// Ignore missing environment variables for all containers.
    Ignore,
}

/// Behaviour when a container cannot be inspected.  Watching containers is
/// not this service's job: by default a missing container is simply not
/// re-published and its registration expires.
#[derive(Debug, Eq, PartialEq, Copy, Clone, Structural)]
pub enum MissingContainerHandling {
    /// Report inspection failures as an error.
    Report,
    /// Ignore containers that cannot be inspected.
    Ignore,
}

impl Default for MissingEnvVarHandling {
    fn default() -> (r: MissingEnvVarHandling)
        ensures
            r == MissingEnvVarHandling::Automatic,
    {
        MissingEnvVarHandling::Automatic
    }
}

impl Default for MissingContainerHandling {
    fn default() -> (r: MissingContainerHandling)
        ensures
            r == MissingContainerHandling::Ignore,
    {
        MissingContainerHandling::Ignore
    }
}

/// The configuration of one companion process, supplied at startup and
/// read-only to the reconciliation core.  `Option` fields use `None` where
/// the feature is off (no expiry, no refresh).
#[derive(Debug, Clone)]
pub struct Config {
    /// The hostname or IP address of the registry (redis) server.
    pub redis_host: String,
    /// The port of the registry server.
    pub redis_port: u16,
    /// The prefix for registry keys; followed by the container host.
    pub key_prefix: String,
    /// The expiry for registrations in seconds; `None` means no expiry.
    pub expire_seconds: Option<u32>,
    /// The refresh interval in seconds; `None` means run a single cycle.
    pub refresh_seconds: Option<u32>,
    /// URL of the container-runtime socket.
    pub docker_url: String,
    /// Whether to use the container hostname (true) or the bridge network
    /// IP (false).
    pub docker_network: bool,
    /// Name of the environment variable scanned for domain specs.
    pub envvar: String,
    /// When set, nothing is published; intended publications are only
    /// reported.
    pub dry_run: bool,
    /// How to handle containers without the environment variable.
    pub missing_envvar: MissingEnvVarHandling,
    /// How to handle containers that cannot be inspected.
    pub missing_container: MissingContainerHandling,
    /// Whether to enumerate running containers in addition to the
    /// explicitly listed ones.
    pub enumerate: bool,
    /// Whether service-manager notifications are enabled.
    pub systemd: bool,
    /// Interval in microseconds between service-manager liveness pings.
    pub watchdog_microseconds: Option<u64>,
}

impl Default for Config {
    fn default() -> (r: Config)
        ensures
            r.redis_host@ == "localhost"@,
            r.redis_port == 6379,
            r.key_prefix@ == Seq::<char>::empty(),
            r.expire_seconds == Some(60u32),
            r.refresh_seconds == Some(27u32),
            r.docker_url@ == "unix://var/run/docker.sock"@,
            r.docker_network == false,
            r.envvar@ == "BEACHHEAD_DOMAINS"@,
            r.dry_run == false,
            r.missing_envvar == MissingEnvVarHandling::Automatic,
            r.missing_container == MissingContainerHandling::Ignore,
            r.enumerate == false,
            r.systemd == false,
            r.watchdog_microseconds is None,
    {
        Config {
            redis_host: String::from_str("localhost"),
            redis_port: 6379,
            key_prefix: String::new(),
            expire_seconds: Some(60),
            refresh_seconds: Some(27),
            docker_url: String::from_str("unix://var/run/docker.sock"),
            docker_network: false,
            envvar: String::from_str("BEACHHEAD_DOMAINS"),
            dry_run: false,
            missing_envvar: MissingEnvVarHandling::Automatic,
            missing_container: MissingContainerHandling::Ignore,
            enumerate: false,
            systemd: false,
            watchdog_microseconds: None,
        }
    }
}

/// Turn an optional result into a result of an optional value.
pub fn optional_result<R, E>(x_opt: Option<Result<R, E>>) -> (r: Result<Option<R>, E>)
    ensures
        match x_opt {
            Some(Ok(x)) => r == Result::<Option<R>, E>::Ok(Some(x)),
            Some(Err(e)) => r == Result::<Option<R>, E>::Err(e),
            None => r == Result::<Option<R>, E>::Ok(None::<R>),
        },
{
    match x_opt {
        Some(Ok(x)) => Ok(Some(x)),
        Some(Err(e)) => Err(e),
        None => Ok(None),
    }
}

} // verus!
