//! The inspection capability: what the reconciler needs to learn about a
//! container, and the parsing of a container's environment into domain
//! specs.  The transport that actually talks to a container runtime lives
//! outside the library and implements [`Inspect`].

use vstd::prelude::*;
use vstd::string::StrSliceExecFns;
use crate::common::Config;
use crate::domain_spec::{
    DomainSpec, DomainSpecError, error_message, find_char_in, substr_eq,
};
use crate::dsl::{DomainSpecErrorView, DomainSpecView, find_in, parse_dsl};

verus! {

/// The result of inspecting one container: its network host, the domain
/// specs declared in its environment, and whether the configured
/// environment variable was present at all.
#[derive(Debug, Clone)]
pub struct Inspection {
    pub host: String,
    pub specs: Vec<DomainSpec>,
    pub envvar_present: bool,
}

/// Failure to inspect a container: the container was not found, the
/// transport failed, or its declared domain specs were malformed.
#[derive(Debug, Clone)]
pub struct InspectionError {
    pub message: String,
}

/// Implemented by error types that can flow into an [`InspectionError`].
pub trait InspectionInnerError {
    /// A human-readable description of the failure.
    fn describe(&self) -> String;
}

impl InspectionError {
    /// Wraps an inner error into an inspection error.
    pub fn from_inner<E: InspectionInnerError>(err: &E) -> (r: InspectionError) {
        InspectionError { message: err.describe() }
    }
}

impl InspectionInnerError for DomainSpecError {
    fn describe(&self) -> String {
        self.message()
    }
}

/// The inspection capability required by the reconciler; implemented
/// externally by the container-runtime transport and by test doubles.
pub trait Inspect {
    /// Appends the names of all running containers to `container_names`.
    fn enumerate(&mut self, container_names: &mut Vec<String>) -> Result<(), InspectionError>;

    /// Inspects the named container.
    fn inspect(&mut self, container_name: &str) -> Result<Inspection, InspectionError>;
}

/// Whether an environment line `NAME=VALUE` declares the variable
/// `varname`: it must contain `=` and the text before the first `=` must be
/// exactly `varname`.
pub open spec fn line_matches(line: Seq<char>, varname: Seq<char>) -> bool {
    let cut = find_in(line, '=', 0, line.len() as int);
    cut < line.len() && line.subrange(0, cut) == varname
}

/// The text after the first `=` of an environment line.
pub open spec fn line_value(line: Seq<char>) -> Seq<char> {
    let cut = find_in(line, '=', 0, line.len() as int);
    line.subrange(cut + 1, line.len() as int)
}

/// The fold that [`parse_container_env_vars`] performs over the
/// environment lines from index `k` on: each line declaring `varname`
/// marks the variable present and contributes its parsed specs, and the
/// first malformed port value stops the scan.
pub open spec fn env_scan(
    env: Seq<Seq<char>>,
    k: int,
    varname: Seq<char>,
    present: bool,
    specs: Seq<DomainSpecView>,
) -> (bool, Seq<DomainSpecView>, Option<DomainSpecErrorView>)
    decreases env.len() - k,
{
    if k < 0 || k >= env.len() {
        (present, specs, None)
    } else if line_matches(env[k], varname) {
        let parsed = parse_dsl(line_value(env[k]));
        if parsed.1 is Some {
            (true, specs + parsed.0, parsed.1)
        } else {
            env_scan(env, k + 1, varname, true, specs + parsed.0)
        }
    } else {
        env_scan(env, k + 1, varname, present, specs)
    }
}

/// [`env_scan`] lifted to an optional environment: a missing environment
/// changes nothing.
pub open spec fn env_scan_opt(
    env: Option<Seq<Seq<char>>>,
    varname: Seq<char>,
    present: bool,
    specs: Seq<DomainSpecView>,
) -> (bool, Seq<DomainSpecView>, Option<DomainSpecErrorView>) {
    match env {
        Some(lines) => env_scan(lines, 0, varname, present, specs),
        None => (present, specs, None),
    }
}

/// Scans a container's environment for the configured variable and parses
/// every domain spec it declares, appending to `specs`.  Lines that do not
/// declare the variable are ignored; the first malformed port value stops
/// the scan with an error, keeping the specs parsed so far.
pub fn parse_container_env_vars(
    env_opt: &Option<Vec<String>>,
    config: &Config,
    envvar_present: &mut bool,
    specs: &mut Vec<DomainSpec>,
) -> (r: Result<(), InspectionError>)
    ensures
        ({
            let outcome = env_scan_opt(
                env_opt.deep_view(),
                config.envvar@,
                *old(envvar_present),
                old(specs).deep_view(),
            );
            &&& *final(envvar_present) == outcome.0
            &&& final(specs).deep_view() == outcome.1
            &&& match r {
                Ok(()) => outcome.2 is None,
                Err(e) => outcome.2 is Some && e.message@ == error_message(outcome.2->0),
            }
        }),
{
    let env = match env_opt {
        Some(env) => env,
        None => {
            return Ok(());
        },
    };
    proof {
        assert(*env == env_opt->0);
        assert(env_opt.deep_view() == Some(env.deep_view()));
    }
    let ghost varname = config.envvar@;
    let ghost p0 = *envvar_present;
    let ghost s0 = specs.deep_view();
    let n = env.len();
    let mut k: usize = 0;
    while k < n
        invariant
            k <= n,
            n == env@.len(),
            env_scan(env.deep_view(), 0, varname, p0, s0) == env_scan(
                env.deep_view(),
                k as int,
                varname,
                *envvar_present,
                specs.deep_view(),
            ),
            varname == config.envvar@,
            p0 == *old(envvar_present),
            s0 == old(specs).deep_view(),
            env_opt.deep_view() == Some(env.deep_view()),
        decreases n - k,
    {
        let ghost gk = k as int;
        let ghost pt = *envvar_present;
        let ghost st = specs.deep_view();
        let line = &env[k];
        proof {
            assert(env.deep_view()[gk] == line@);
        }
        let llen = line.as_str().unicode_len();
        let cut = find_char_in(line.as_str(), '=', 0, llen, llen);
        let mut is_match = false;
        if cut < llen {
            is_match = substr_eq(line.as_str(), 0, cut, config.envvar.as_str());
        }
        proof {
            assert(is_match == line_matches(env.deep_view()[gk], varname));
        }
        if is_match {
            *envvar_present = true;
            let value = line.as_str().substring_char(cut + 1, llen);
            proof {
                assert(value@ == line_value(env.deep_view()[gk]));
            }
            match DomainSpec::parse_all(value, specs) {
                Ok(()) => {},
                Err(e) => {
                    let ie = InspectionError { message: e.message() };
                    proof {
                        let ev = env.deep_view();
                        let parsed = parse_dsl(line_value(ev[gk]));
                        assert(env_scan(ev, gk, varname, pt, st) == (true, st + parsed.0, parsed.1));
                    }
                    return Err(ie);
                },
            }
        }
        k = k + 1;
    }
    Ok(())
}

} // verus!
