//! The publishing capability: the resolved, host-bound set of domain
//! records handed to the registry writer, and the registry key scheme.
//! The transport that actually writes to the registry lives outside the
//! library and implements [`Publish`].

use vstd::prelude::*;
use vstd::string::StringExecFns;
use crate::common::Config;
use crate::domain_spec::DomainSpec;

verus! {

/// The resolved set of domain specs to advertise for one container host.
#[derive(Debug, Clone)]
pub struct Publication {
    pub host: String,
    pub specs: Vec<DomainSpec>,
}

/// Failure to write a publication to the registry.
#[derive(Debug, Clone)]
pub struct PublishingError {
    pub message: String,
}

/// Implemented by error types that can flow into a [`PublishingError`].
pub trait PublishingInnerError {
    /// A human-readable description of the failure.
    fn describe(&self) -> String;
}

impl PublishingError {
    /// Wraps an inner error into a publishing error.
    pub fn from_inner<E: PublishingInnerError>(err: &E) -> (r: PublishingError) {
        PublishingError { message: err.describe() }
    }
}

/// The publishing capability required by the reconciler; implemented
/// externally by the registry transport and by test doubles.
pub trait Publish {
    /// Persists `publication` under its host's registry key.
    fn publish(&mut self, publication: &Publication) -> Result<(), PublishingError>;
}

/// Appends the registry key for `container_name` to `key`: the configured
/// key prefix followed by the container host.
pub fn service_key(config: &Config, container_name: &str, key: &mut String)
    ensures
        final(key)@ == old(key)@ + config.key_prefix@ + container_name@,
{
    key.append(config.key_prefix.as_str());
    key.append(container_name);
    proof {
        assert(key@ =~= old(key)@ + config.key_prefix@ + container_name@);
    }
}

} // verus!
