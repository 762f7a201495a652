//! Per-user usage of the current day.

use vstd::prelude::*;
use vstd::string::*;
use crate::date::Date;
use crate::fmt::{div60, trunc_div};
use crate::usermap::{
    has_key, insert_entry, lemma_insert_insert, lemma_insert_lookup, lemma_map_entries, lookup,
    map_entries, unique_keys, UserMap,
};

verus! {

/// What a user's record says, with its list of sent warnings as a sequence.
pub struct UserStateView {
    pub date: Date,
    pub used_seconds: u64,
    pub extension_seconds: i64,
    pub warnings_sent: Seq<u64>,
}

/// A user's screen time on one day: the time used, the extra time granted,
/// and the warning thresholds (seconds remaining) already announced.
#[derive(Debug)]
pub struct UserState {
    pub date: Date,
    pub used_seconds: u64,
    pub extension_seconds: i64,
    pub warnings_sent: Vec<u64>,
}

impl View for UserState {
    type V = UserStateView;

    open spec fn view(&self) -> UserStateView {
        UserStateView {
            date: self.date,
            used_seconds: self.used_seconds,
            extension_seconds: self.extension_seconds,
            warnings_sent: self.warnings_sent@,
        }
    }
}

/// A record of day `date` with nothing used, granted or announced.
pub open spec fn fresh(date: Date) -> UserStateView {
    UserStateView {
        date,
        used_seconds: 0,
        extension_seconds: 0,
        warnings_sent: Seq::empty(),
    }
}

/// The value of `x as i64` (two's complement reinterpretation).
pub open spec fn as_i64(x: u64) -> int {
    if x <= i64::MAX {
        x as int
    } else {
        x - 0x1_0000_0000_0000_0000
    }
}

/// Seconds left of the day: the limit plus the extension minus the time used.
pub open spec fn remaining_spec(u: UserStateView, limit_seconds: u64) -> int {
    as_i64(limit_seconds) + u.extension_seconds - as_i64(u.used_seconds)
}

/// Whether computing `remaining_spec` in `i64` arithmetic stays in range.
pub open spec fn remaining_defined(u: UserStateView, limit_seconds: u64) -> bool {
    &&& i64::MIN <= as_i64(limit_seconds) + u.extension_seconds <= i64::MAX
    &&& i64::MIN <= remaining_spec(u, limit_seconds) <= i64::MAX
}

/// The record as it stands on day `today`: kept on the same day, fresh otherwise.
pub open spec fn on_date(u: UserStateView, today: Date) -> UserStateView {
    if u.date == today {
        u
    } else {
        fresh(today)
    }
}

fn u64_as_i64(x: u64) -> (r: i64)
    ensures
        r == as_i64(x),
{
    if x <= i64::MAX as u64 {
        x as i64
    } else {
        let high = x - 0x8000_0000_0000_0000u64;
        (high as i64) - 0x7fff_ffff_ffff_ffffi64 - 1
    }
}

/// Whether the remaining time of a record with `extension_seconds` granted and
/// `used_seconds` used, under a limit of `limit_seconds`, fits the `i64` arithmetic.
pub fn remaining_fits(limit_seconds: u64, extension_seconds: i64, used_seconds: u64) -> (b: bool)
    ensures
        b == (i64::MIN <= as_i64(limit_seconds) + extension_seconds <= i64::MAX && i64::MIN
            <= as_i64(limit_seconds) + extension_seconds - as_i64(used_seconds) <= i64::MAX),
{
    let limit = u64_as_i64(limit_seconds) as i128;
    let used = u64_as_i64(used_seconds) as i128;
    let with_ext = limit + extension_seconds as i128;
    let rest = with_ext - used;
    i64::MIN as i128 <= with_ext && with_ext <= i64::MAX as i128 && i64::MIN as i128 <= rest && rest
        <= i64::MAX as i128
}

impl UserState {
    /// A record of day `today` with nothing used yet.
    pub fn new_today(today: Date) -> (us: UserState)
        ensures
            us@ == fresh(today),
    {
        UserState { date: today, used_seconds: 0, extension_seconds: 0, warnings_sent: Vec::new() }
    }

    /// Whether `remaining(limit_seconds)` can be computed without overflow.
    pub fn remaining_in_range(&self, limit_seconds: u64) -> (b: bool)
        ensures
            b == remaining_defined(self@, limit_seconds),
    {
        remaining_fits(limit_seconds, self.extension_seconds, self.used_seconds)
    }

    /// Seconds left today under a daily limit of `limit_seconds`: the limit plus
    /// the extension minus the time used; zero or less once the time is up.
    pub fn remaining(&self, limit_seconds: u64) -> (r: i64)
        requires
            remaining_defined(self@, limit_seconds),
        ensures
            r == remaining_spec(self@, limit_seconds),
    {
        u64_as_i64(limit_seconds) + self.extension_seconds - u64_as_i64(self.used_seconds)
    }

    /// Starts a fresh record when the record is of another day than `today`.
    pub fn ensure_today(&mut self, today: Date)
        ensures
            final(self)@ == on_date(old(self)@, today),
    {
        if self.date != today {
            *self = UserState::new_today(today);
        }
    }
}

/// The records of all users.
pub struct State {
    pub users: UserMap<UserState>,
}

/// The view of a user's record.
pub open spec fn user_view() -> spec_fn(UserState) -> UserStateView {
    |u: UserState| u@
}

impl View for State {
    type V = Seq<(Seq<char>, UserStateView)>;

    open spec fn view(&self) -> Seq<(Seq<char>, UserStateView)> {
        map_entries(self.users@, user_view())
    }
}

impl Default for State {
    /// No records.
    fn default() -> (s: Self)
        ensures
            s.users@ == Seq::<(Seq<char>, UserState)>::empty(),
            s.users.wf(),
    {
        State { users: UserMap::new() }
    }
}

impl State {
    /// No records.
    pub fn new() -> (s: Self)
        ensures
            s.users@ == Seq::<(Seq<char>, UserState)>::empty(),
            s.users.wf(),
    {
        State { users: UserMap::new() }
    }

    /// The record of `user`, created fresh for `today` when there is none.
    pub fn get_mut(&mut self, user: &str, today: Date) -> (us: &mut UserState)
        requires
            old(self).users.wf(),
        ensures
            lookup(old(self).users@, user@) matches Some(u) ==> *us == u,
            lookup(old(self).users@, user@) is None ==> us@ == fresh(today),
            final(self).users@ == insert_entry(old(self).users@, user@, *final(us)),
            final(self).users.wf(),
    {
        let ghost s0 = self.users@;
        if !self.users.contains_key(user) {
            self.users.insert(String::from_str(user), UserState::new_today(today));
        }
        let ghost s1 = self.users@;
        proof {
            lemma_insert_lookup(s0, user@, s1.last().1, user@);
        }
        let us = self.users.get_mut(user);
        proof {
            if !has_key(s0, user@) {
                lemma_insert_insert(s0, user@, s1.last().1, *final(us));
            }
        }
        us
    }
}

/// The record `u` with `minutes` more minutes granted.
pub open spec fn extended(u: UserStateView, minutes: u32) -> UserStateView {
    UserStateView { extension_seconds: (u.extension_seconds + minutes * 60) as i64, ..u }
}

/// `user`'s record on `today` after granting `minutes` more minutes.
pub open spec fn granted(
    st: Seq<(Seq<char>, UserStateView)>,
    user: Seq<char>,
    minutes: u32,
    today: Date,
) -> UserStateView {
    extended(
        on_date(
            match lookup(st, user) {
                Some(u) => u,
                None => fresh(today),
            },
            today,
        ),
        minutes,
    )
}

/// Whether granting `minutes` more minutes to `user` on `today` fits `i64`.
pub open spec fn grant_defined(
    st: Seq<(Seq<char>, UserStateView)>,
    user: Seq<char>,
    minutes: u32,
    today: Date,
) -> bool {
    lookup(st, user) matches Some(u) ==> (u.date == today ==> u.extension_seconds + minutes * 60
        <= i64::MAX)
}

impl State {
    /// Grants `user` `minutes` more minutes on `today` (a record of another day
    /// is started afresh first); returns the whole extension of the day in
    /// minutes, rounded toward zero.
    pub fn grant_extension(&mut self, user: &str, minutes: u32, today: Date) -> (total_minutes: i64)
        requires
            old(self).users.wf(),
            grant_defined(old(self)@, user@, minutes, today),
        ensures
            final(self).users.wf(),
            final(self)@ == insert_entry(old(self)@, user@, granted(old(self)@, user@, minutes, today)),
            total_minutes == trunc_div(
                granted(old(self)@, user@, minutes, today).extension_seconds as int,
                60,
            ),
    {
        let ghost users0 = self.users@;
        proof {
            lemma_map_entries(users0, user_view(), user@, arbitrary());
        }
        let extra = minutes as i64 * 60;
        let us = self.get_mut(user, today);
        us.ensure_today(today);
        us.extension_seconds = us.extension_seconds + extra;
        let total = div60(us.extension_seconds);
        proof {
            lemma_map_entries(users0, user_view(), user@, *us);
        }
        total
    }

    /// Whether `grant_extension` can grant these minutes (see `grant_defined`).
    pub fn grant_is_defined(&self, user: &str, minutes: u32, today: Date) -> (b: bool)
        requires
            self.users.wf(),
        ensures
            b == grant_defined(self@, user@, minutes, today),
    {
        proof {
            lemma_map_entries(self.users@, user_view(), user@, arbitrary());
        }
        match self.users.get(user) {
            Some(u) => u.date != today || u.extension_seconds <= i64::MAX - minutes as i64 * 60,
            None => true,
        }
    }
}

/// Bringing a record to the same day twice is bringing it once.
pub proof fn law_on_date_idempotent(u: UserStateView, today: Date)
    ensures
        on_date(on_date(u, today), today) == on_date(u, today),
{
}

/// A record of the day already is kept as it is; a record of another day is
/// replaced by one with nothing used, granted or announced.
pub proof fn law_day_rollover(u: UserStateView, today: Date)
    ensures
        u.date == today ==> on_date(u, today) == u,
        u.date != today ==> on_date(u, today).used_seconds == 0
            && on_date(u, today).extension_seconds == 0
            && on_date(u, today).warnings_sent.len() == 0
            && on_date(u, today).date == today,
{
}

/// What is written through the record that `get_mut` hands out is what a
/// later `get_mut` of the same user hands out, and the records of all other
/// users are untouched by it.
pub proof fn law_get_mut_write_read(
    users: Seq<(Seq<char>, UserState)>,
    user: Seq<char>,
    written: UserState,
    other: Seq<char>,
)
    requires
        unique_keys(users),
    ensures
        lookup(insert_entry(users, user, written), user) == Some(written),
        other != user ==> lookup(insert_entry(users, user, written), other) == lookup(users, other),
        unique_keys(insert_entry(users, user, written)),
{
    lemma_insert_lookup(users, user, written, other);
    lemma_insert_lookup(users, user, written, user);
}

/// Granting minutes twice on the same day adds both grants.
pub proof fn law_grants_add_up(
    st: Seq<(Seq<char>, UserStateView)>,
    user: Seq<char>,
    m1: u32,
    m2: u32,
    today: Date,
)
    requires
        unique_keys(st),
        match lookup(st, user) {
            Some(u) => u.date == today ==> u.extension_seconds + m1 * 60 + m2 * 60 <= i64::MAX,
            None => true,
        },
    ensures
        granted(insert_entry(st, user, granted(st, user, m1, today)), user, m2, today).extension_seconds
            == on_date(
            match lookup(st, user) {
                Some(u) => u,
                None => fresh(today),
            },
            today,
        ).extension_seconds + m1 * 60 + m2 * 60,
{
    lemma_insert_lookup(st, user, granted(st, user, m1, today), user);
}


/// Within the `i64` range, the time left is the limit plus the extension
/// minus the time used, and granting more extension leaves more time.
pub proof fn law_remaining_formula(u: UserStateView, limit_seconds: u64, more: i64)
    requires
        limit_seconds <= i64::MAX,
        u.used_seconds <= i64::MAX,
    ensures
        remaining_spec(u, limit_seconds) == limit_seconds + u.extension_seconds - u.used_seconds,
        more >= u.extension_seconds ==> remaining_spec(
            UserStateView { extension_seconds: more, ..u },
            limit_seconds,
        ) >= remaining_spec(u, limit_seconds),
{
}

} // verus!
