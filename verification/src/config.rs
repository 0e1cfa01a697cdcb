//! Run configuration: the ordered source list, the update interval and
//! the backup policy, with the validity rule every loaded configuration
//! must pass.

use vstd::prelude::*;
use vstd::string::StringExecFns;
use crate::text::chars_of;

verus! {

/// Settings of one update run.
pub struct Config {
    /// Update interval in hours.
    pub update_interval_hours: u64,
    /// Ordered list of source locations to fetch from.
    pub hosts_sources: Vec<String>,
    /// Whether to back up the existing file before an update.
    pub backup_before_update: bool,
    /// Where the backup goes, when a fixed place is wanted.
    pub backup_path: Option<String>,
}

/// Why a configuration was rejected.
#[derive(Debug)]
pub enum ConfigError {
    /// The source list is empty.
    EmptySources,
    /// A source location lacks a recognised scheme.
    InvalidUrl { url: String },
}

/// Update interval used when the configuration names none.
pub fn default_interval() -> (h: u64)
    ensures
        h == 2,
{
    2
}

/// Backup policy used when the configuration names none.
pub fn default_backup() -> (b: bool)
    ensures
        b,
{
    true
}

/// A source location with a recognised scheme.
pub open spec fn url_ok(u: Seq<char>) -> bool {
    ||| (u.len() >= 7 && u.subrange(0, 7) == "http://"@)
    ||| (u.len() >= 8 && u.subrange(0, 8) == "https://"@)
}

fn has_prefix(v: &Vec<char>, p: &Vec<char>) -> (b: bool)
    ensures
        b == (v@.len() >= p@.len() && v@.subrange(0, p@.len() as int) == p@),
{
    if v.len() < p.len() {
        return false;
    }
    let mut i: usize = 0;
    while i < p.len()
        invariant
            i <= p@.len(),
            p@.len() <= v@.len(),
            forall|k: int| 0 <= k < i ==> v@[k] == p@[k],
        decreases p@.len() - i,
    {
        if v[i] != p[i] {
            proof {
                assert(v@.subrange(0, p@.len() as int)[i as int] != p@[i as int]);
            }
            return false;
        }
        i = i + 1;
    }
    proof {
        assert(v@.subrange(0, p@.len() as int) =~= p@);
    }
    true
}

fn url_check(u: &String) -> (b: bool)
    ensures
        b == url_ok(u@),
{
    let v = chars_of(u.as_str());
    let http = chars_of("http://");
    let https = chars_of("https://");
    proof {
        reveal_strlit("http://");
        reveal_strlit("https://");
    }
    has_prefix(&v, &http) || has_prefix(&v, &https)
}

/// Check a configuration: it must name at least one source, and every
/// source location must carry a recognised scheme. The first offending
/// location is reported.
pub fn validate_config(config: &Config) -> (r: Result<(), ConfigError>)
    ensures
        match r {
            Ok(_) => config.hosts_sources@.len() > 0 && (forall|k: int|
                0 <= k < config.hosts_sources@.len() ==> url_ok(config.hosts_sources@[k]@)),
            Err(e) => match e {
                ConfigError::EmptySources => config.hosts_sources@.len() == 0,
                ConfigError::InvalidUrl { url } => exists|k: int|
                    #![auto]
                    0 <= k < config.hosts_sources@.len() && !url_ok(config.hosts_sources@[k]@) && (
                    forall|m: int| 0 <= m < k ==> url_ok(config.hosts_sources@[m]@)) && url@
                        == config.hosts_sources@[k]@,
            },
        },
{
    if config.hosts_sources.len() == 0 {
        return Err(ConfigError::EmptySources);
    }
    let mut i: usize = 0;
    while i < config.hosts_sources.len()
        invariant
            i <= config.hosts_sources@.len(),
            forall|m: int| 0 <= m < i ==> url_ok(config.hosts_sources@[m]@),
        decreases config.hosts_sources@.len() - i,
    {
        let u = &config.hosts_sources[i];
        if !url_check(u) {
            let url = String::from_str(u.as_str());
            proof {
                assert(0 <= i < config.hosts_sources@.len() && !url_ok(
                    config.hosts_sources@[i as int]@,
                ) && (forall|m: int| 0 <= m < i ==> url_ok(config.hosts_sources@[m]@)) && url@
                    == config.hosts_sources@[i as int]@);
            }
            return Err(ConfigError::InvalidUrl { url });
        }
        i = i + 1;
    }
    Ok(())
}

} // verus!
