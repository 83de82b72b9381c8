//! Runtime configuration: the monitored endpoints and the probing and
//! reporting parameters, loaded once at startup and immutable afterwards.

use vstd::prelude::*;

verus! {

/// One monitored endpoint: a `host:port` address and a display alias. The
/// alias is the grouping key for all reporting.
#[derive(Clone, Debug)]
pub struct TargetConfig {
    pub address: String,
    pub alias: String,
}

/// The process configuration.
#[derive(Clone, Debug)]
pub struct Config {
    pub token: String,
    pub log_level: Option<String>,
    pub socks5_proxy: Option<String>,
    pub admins: Vec<i64>,
    pub targets: Vec<TargetConfig>,
    pub probe_count: usize,
}

impl Config {
    /// The configured log level, or "info" when none was set.
    pub fn log_level(&self) -> (r: &str)
        ensures
            self.log_level is Some ==> r@ == self.log_level->0@,
            self.log_level is None ==> r@ == "info"@,
    {
        match &self.log_level {
            Some(s) => s.as_str(),
            None => "info",
        }
    }

    /// Whether `user_id` is one of the configured administrators.
    pub fn is_admin(&self, user_id: i64) -> (r: bool)
        ensures
            r == self.admins@.contains(user_id),
    {
        let mut i: usize = 0;
        while i < self.admins.len()
            invariant
                i <= self.admins@.len(),
                forall|j: int| 0 <= j < i ==> self.admins@[j] != user_id,
            decreases self.admins@.len() - i,
        {
            if self.admins[i] == user_id {
                assert(self.admins@.contains(user_id));
                return true;
            }
            i = i + 1;
        }
        false
    }
}

} // verus!
