//! Per-user daily limits.

use vstd::prelude::*;
use crate::usermap::UserMap;

verus! {

/// The configuration of one managed user.
#[derive(Debug, Clone, Copy, PartialEq, Eq, Structural)]
pub struct UserConfig {
    pub daily_limit_minutes: u32,
}

/// The managed users and their daily limits.
pub struct Config {
    pub users: UserMap<UserConfig>,
}

impl Default for Config {
    /// A configuration that manages no user.
    fn default() -> (c: Self)
        ensures
            c.users@ == Seq::<(Seq<char>, UserConfig)>::empty(),
            c.users.wf(),
    {
        Config { users: UserMap::new() }
    }
}

impl Config {
    /// A configuration that manages no user.
    pub fn new() -> (c: Self)
        ensures
            c.users@ == Seq::<(Seq<char>, UserConfig)>::empty(),
            c.users.wf(),
    {
        Config { users: UserMap::new() }
    }
}

/// A daily limit in seconds.
pub open spec fn limit_seconds(minutes: u32) -> u64 {
    (minutes * 60) as u64
}

/// A daily limit of `minutes` minutes, in seconds.
pub fn minutes_to_seconds(minutes: u32) -> (s: u64)
    ensures
        s == limit_seconds(minutes),
        s == minutes * 60,
{
    minutes as u64 * 60
}

} // verus!
