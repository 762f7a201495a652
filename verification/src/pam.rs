//! The login check: a managed user whose time of the day is used up may not
//! log in again that day.

use vstd::prelude::*;
use crate::config::{limit_seconds, minutes_to_seconds, Config, UserConfig};
use crate::date::Date;
use crate::state::{remaining_defined, remaining_spec, user_view, State, UserStateView};
use crate::usermap::{insert_entry, lemma_insert_lookup, lemma_map_entries, lookup, unique_keys};

verus! {

/// Whether `user` may log in on `today`: unmanaged users always may; a
/// managed user may unless their record is of today and no time is left.
pub open spec fn login_allowed(
    cfg: Seq<(Seq<char>, UserConfig)>,
    st: Seq<(Seq<char>, UserStateView)>,
    user: Seq<char>,
    today: Date,
) -> bool {
    match lookup(cfg, user) {
        None => true,
        Some(c) => match lookup(st, user) {
            Some(u) => !(u.date == today && remaining_spec(
                u,
                limit_seconds(c.daily_limit_minutes),
            ) <= 0),
            None => true,
        },
    }
}

/// Whether deciding `login_allowed` stays within machine arithmetic.
pub open spec fn login_check_defined(
    cfg: Seq<(Seq<char>, UserConfig)>,
    st: Seq<(Seq<char>, UserStateView)>,
    user: Seq<char>,
    today: Date,
) -> bool {
    match lookup(cfg, user) {
        None => true,
        Some(c) => match lookup(st, user) {
            Some(u) => u.date == today ==> remaining_defined(
                u,
                limit_seconds(c.daily_limit_minutes),
            ),
            None => true,
        },
    }
}

/// Decides a login of `user` on `today` (true: allow, false: deny).
pub fn login_allowed_on(config: &Config, state: &State, user: &str, today: Date) -> (allow: bool)
    requires
        config.users.wf(),
        state.users.wf(),
        login_check_defined(config.users@, state@, user@, today),
    ensures
        allow == login_allowed(config.users@, state@, user@, today),
{
    proof {
        lemma_map_entries(state.users@, user_view(), user@, arbitrary());
    }
    match config.users.get(user) {
        None => true,
        Some(c) => {
            let limit = minutes_to_seconds(c.daily_limit_minutes);
            match state.users.get(user) {
                Some(us) => !(us.date == today && us.remaining(limit) <= 0),
                None => true,
            }
        },
    }
}

/// Whether `login_allowed_on` can decide on these arguments (see `login_check_defined`).
pub fn login_check_is_defined(config: &Config, state: &State, user: &str, today: Date) -> (b: bool)
    requires
        config.users.wf(),
        state.users.wf(),
    ensures
        b == login_check_defined(config.users@, state@, user@, today),
{
    proof {
        lemma_map_entries(state.users@, user_view(), user@, arbitrary());
    }
    match config.users.get(user) {
        None => true,
        Some(c) => {
            let limit = minutes_to_seconds(c.daily_limit_minutes);
            match state.users.get(user) {
                Some(us) => us.date != today || us.remaining_in_range(limit),
                None => true,
            }
        },
    }
}


/// A login is refused only to a managed user whose record is of today and
/// whose daily limit plus granted extension, minus the time used, leaves
/// nothing: an unmanaged user, a user without a record and a user whose record
/// is of another day may always log in.
pub proof fn law_login_rule(
    cfg: Seq<(Seq<char>, UserConfig)>,
    st: Seq<(Seq<char>, UserStateView)>,
    user: Seq<char>,
    today: Date,
)
    ensures
        lookup(cfg, user) is None ==> login_allowed(cfg, st, user, today),
        lookup(st, user) is None ==> login_allowed(cfg, st, user, today),
        (lookup(st, user) matches Some(u) && u.date != today) ==> login_allowed(cfg, st, user, today),
        ({
            let c = lookup(cfg, user)->0;
            let u = lookup(st, user)->0;
            lookup(cfg, user) is Some && lookup(st, user) is Some && u.date == today
                && u.used_seconds <= i64::MAX ==> (login_allowed(cfg, st, user, today) <==> c.daily_limit_minutes
                * 60 + u.extension_seconds - u.used_seconds > 0)
        }),
{
}

/// Granting more extension never turns an allowed login into a refused one.
pub proof fn law_login_extension_monotone(
    cfg: Seq<(Seq<char>, UserConfig)>,
    st: Seq<(Seq<char>, UserStateView)>,
    user: Seq<char>,
    today: Date,
    u: UserStateView,
    more: i64,
)
    requires
        unique_keys(st),
        more >= u.extension_seconds,
        u.used_seconds <= i64::MAX,
    ensures
        login_allowed(cfg, insert_entry(st, user, u), user, today) ==> login_allowed(
            cfg,
            insert_entry(st, user, UserStateView { extension_seconds: more, ..u }),
            user,
            today,
        ),
{
    lemma_insert_lookup(st, user, u, user);
    lemma_insert_lookup(st, user, UserStateView { extension_seconds: more, ..u }, user);
}

} // verus!
