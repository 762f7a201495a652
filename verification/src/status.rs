//! The per-user status report of the `status` command.

use vstd::prelude::*;
use vstd::string::*;
use crate::config::{limit_seconds, minutes_to_seconds, Config, UserConfig};
use crate::date::Date;
use crate::fmt::{
    abs, abs_rem60, decimal, div60, push_decimal, push_signed_decimal, signed_decimal, trunc_div,
};
use crate::session::SessionStatus;
use crate::state::{remaining_defined, remaining_spec, user_view, State, UserStateView};
use crate::usermap::{keys_of, lemma_map_entries, lookup, UserMap};

verus! {

/// The status line of a report.
#[derive(Debug, Clone, Copy, PartialEq, Eq, Structural)]
pub enum StatusLabel {
    LockedOut,
    Active,
    Idle,
    NotLoggedIn,
}

/// The text shown for a status.
pub open spec fn label_text(l: StatusLabel) -> Seq<char> {
    match l {
        StatusLabel::LockedOut => "LOCKED OUT"@,
        StatusLabel::Active => "ACTIVE"@,
        StatusLabel::Idle => "IDLE"@,
        StatusLabel::NotLoggedIn => "NOT LOGGED IN"@,
    }
}

/// The text shown for a status.
pub fn label_str(l: StatusLabel) -> (s: &'static str)
    ensures
        s@ == label_text(l),
{
    match l {
        StatusLabel::LockedOut => "LOCKED OUT",
        StatusLabel::Active => "ACTIVE",
        StatusLabel::Idle => "IDLE",
        StatusLabel::NotLoggedIn => "NOT LOGGED IN",
    }
}

/// The status report of one user.
pub struct StatusReport {
    pub user: String,
    pub limit_minutes: u32,
    pub used_seconds: u64,
    pub extension_seconds: i64,
    pub remaining_seconds: i64,
    pub label: StatusLabel,
}

/// The daily limit of `user` in minutes: zero when unmanaged.
pub open spec fn report_limit(cfg: Seq<(Seq<char>, UserConfig)>, user: Seq<char>) -> u32 {
    match lookup(cfg, user) {
        Some(c) => c.daily_limit_minutes,
        None => 0,
    }
}

/// The record of `user` when it is of `today`.
pub open spec fn todays_record(
    st: Seq<(Seq<char>, UserStateView)>,
    user: Seq<char>,
    today: Date,
) -> Option<UserStateView> {
    match lookup(st, user) {
        Some(u) => if u.date == today {
            Some(u)
        } else {
            None
        },
        None => None,
    }
}

/// The seconds left to `user` today: by today's record, or the whole limit.
pub open spec fn report_remaining(
    cfg: Seq<(Seq<char>, UserConfig)>,
    st: Seq<(Seq<char>, UserStateView)>,
    user: Seq<char>,
    today: Date,
) -> int {
    let limit = limit_seconds(report_limit(cfg, user));
    match todays_record(st, user, today) {
        Some(u) => remaining_spec(u, limit),
        None => limit as int,
    }
}

/// The status of `user`: locked out when no time is left, else as their
/// sessions show.
pub open spec fn report_label(
    cfg: Seq<(Seq<char>, UserConfig)>,
    st: Seq<(Seq<char>, UserStateView)>,
    statuses: Seq<(Seq<char>, SessionStatus)>,
    user: Seq<char>,
    today: Date,
) -> StatusLabel {
    if report_remaining(cfg, st, user, today) <= 0 {
        StatusLabel::LockedOut
    } else {
        match lookup(statuses, user) {
            Some(SessionStatus::Active) => StatusLabel::Active,
            Some(SessionStatus::Idle) => StatusLabel::Idle,
            _ => StatusLabel::NotLoggedIn,
        }
    }
}

/// Whether the report of `user` can be computed within machine arithmetic.
pub open spec fn report_defined(
    cfg: Seq<(Seq<char>, UserConfig)>,
    st: Seq<(Seq<char>, UserStateView)>,
    user: Seq<char>,
    today: Date,
) -> bool {
    match todays_record(st, user, today) {
        Some(u) => remaining_defined(u, limit_seconds(report_limit(cfg, user))),
        None => true,
    }
}

/// The status report of `user` on `today`.
pub fn status_report(
    config: &Config,
    state: &State,
    statuses: &UserMap<SessionStatus>,
    user: &str,
    today: Date,
) -> (r: StatusReport)
    requires
        config.users.wf(),
        state.users.wf(),
        statuses.wf(),
        report_defined(config.users@, state@, user@, today),
    ensures
        r.user@ == user@,
        r.limit_minutes == report_limit(config.users@, user@),
        r.used_seconds == match todays_record(state@, user@, today) {
            Some(u) => u.used_seconds,
            None => 0,
        },
        r.extension_seconds == match todays_record(state@, user@, today) {
            Some(u) => u.extension_seconds,
            None => 0,
        },
        r.remaining_seconds == report_remaining(config.users@, state@, user@, today),
        r.label == report_label(config.users@, state@, statuses@, user@, today),
{
    proof {
        lemma_map_entries(state.users@, user_view(), user@, arbitrary());
    }
    let limit = match config.users.get(user) {
        Some(c) => c.daily_limit_minutes,
        None => 0,
    };
    let limit_s = minutes_to_seconds(limit);
    let (used, ext, remaining) = match state.users.get(user) {
        Some(us) => {
            if us.date == today {
                (us.used_seconds, us.extension_seconds, us.remaining(limit_s))
            } else {
                (0, 0, limit_s as i64)
            }
        },
        None => (0, 0, limit_s as i64),
    };
    let label = if remaining <= 0 {
        StatusLabel::LockedOut
    } else {
        match statuses.get(user) {
            Some(SessionStatus::Active) => StatusLabel::Active,
            Some(SessionStatus::Idle) => StatusLabel::Idle,
            _ => StatusLabel::NotLoggedIn,
        }
    };
    StatusReport {
        user: String::from_str(user),
        limit_minutes: limit,
        used_seconds: used,
        extension_seconds: ext,
        remaining_seconds: remaining,
        label,
    }
}

/// Whether `status_report` can report on `user` (see `report_defined`).
pub fn report_is_defined(config: &Config, state: &State, user: &str, today: Date) -> (b: bool)
    requires
        config.users.wf(),
        state.users.wf(),
    ensures
        b == report_defined(config.users@, state@, user@, today),
{
    proof {
        lemma_map_entries(state.users@, user_view(), user@, arbitrary());
    }
    let limit = match config.users.get(user) {
        Some(c) => c.daily_limit_minutes,
        None => 0,
    };
    let limit_s = minutes_to_seconds(limit);
    match state.users.get(user) {
        Some(us) => us.date != today || us.remaining_in_range(limit_s),
        None => true,
    }
}

/// The views of a list of names.
pub open spec fn string_views(v: Seq<String>) -> Seq<Seq<char>> {
    v.map_values(|s: String| s@)
}

/// The users to report on: the one asked for, or every managed user in order.
pub fn status_users(config: &Config, requested: Option<&str>) -> (users: Vec<String>)
    ensures
        requested matches Some(u) ==> string_views(users@) == seq![u@],
        requested is None ==> string_views(users@) == keys_of(config.users@),
{
    match requested {
        Some(u) => {
            let mut v = Vec::new();
            v.push(String::from_str(u));
            assert(string_views(v@) =~= seq![u@]);
            v
        },
        None => {
            let mut v: Vec<String> = Vec::new();
            let n = config.users.len();
            let mut i: usize = 0;
            while i < n
                invariant
                    n == config.users@.len(),
                    i <= n,
                    string_views(v@) == keys_of(config.users@).take(i as int),
                decreases n - i,
            {
                let k = config.users.key_at(i);
                let ghost before = v@;
                v.push(k.clone());
                assert(keys_of(config.users@)[i as int] == k@);
                assert(string_views(v@) =~= string_views(before).push(k@));
                assert(string_views(v@) =~= keys_of(config.users@).take(i + 1));
                i = i + 1;
            }
            assert(keys_of(config.users@).take(n as int) =~= keys_of(config.users@));
            v
        },
    }
}


/// The lines that the status command prints for a report.
pub open spec fn report_text(r: StatusReport) -> Seq<Seq<char>> {
    seq![
        r.user@ + ":"@,
        "  limit:     "@ + decimal(r.limit_minutes as nat) + "m"@,
        "  used:      "@ + decimal((r.used_seconds / 60) as nat) + "m "@ + decimal(
            (r.used_seconds % 60) as nat,
        ) + "s"@,
        "  extension: "@ + signed_decimal(trunc_div(r.extension_seconds as int, 60)) + "m"@,
        "  remaining: "@ + signed_decimal(trunc_div(r.remaining_seconds as int, 60)) + "m "@
            + decimal(abs(r.remaining_seconds as int) % 60) + "s"@,
        "  status:    "@ + label_text(r.label),
    ]
}

/// The lines that the status command prints for `r`.
pub fn report_lines(r: &StatusReport) -> (lines: Vec<String>)
    ensures
        string_views(lines@) == report_text(*r),
{
    let mut header = r.user.clone();
    header.append(":");
    let mut limit = String::from_str("  limit:     ");
    push_decimal(&mut limit, r.limit_minutes as u64);
    limit.append("m");
    let mut used = String::from_str("  used:      ");
    push_decimal(&mut used, r.used_seconds / 60);
    used.append("m ");
    push_decimal(&mut used, r.used_seconds % 60);
    used.append("s");
    let mut ext = String::from_str("  extension: ");
    push_signed_decimal(&mut ext, div60(r.extension_seconds));
    ext.append("m");
    let mut rem = String::from_str("  remaining: ");
    push_signed_decimal(&mut rem, div60(r.remaining_seconds));
    rem.append("m ");
    push_decimal(&mut rem, abs_rem60(r.remaining_seconds));
    rem.append("s");
    let mut status = String::from_str("  status:    ");
    status.append(label_str(r.label));
    let mut lines = Vec::new();
    lines.push(header);
    lines.push(limit);
    lines.push(used);
    lines.push(ext);
    lines.push(rem);
    lines.push(status);
    assert(string_views(lines@) =~= report_text(*r));
    lines
}


/// Each status is shown by its own name, and distinct statuses are shown
/// differently.
pub proof fn law_label_texts(l1: StatusLabel, l2: StatusLabel)
    ensures
        label_text(StatusLabel::LockedOut) == "LOCKED OUT"@,
        label_text(StatusLabel::Active) == "ACTIVE"@,
        label_text(StatusLabel::Idle) == "IDLE"@,
        label_text(StatusLabel::NotLoggedIn) == "NOT LOGGED IN"@,
        l1 != l2 ==> label_text(l1) != label_text(l2),
{
    reveal_strlit("LOCKED OUT");
    reveal_strlit("ACTIVE");
    reveal_strlit("IDLE");
    reveal_strlit("NOT LOGGED IN");
    if l1 != l2 && label_text(l1) == label_text(l2) {
        let t1 = label_text(l1);
        let t2 = label_text(l2);
        assert(t1.len() == t2.len());
        assert(t1[0] == t2[0]);
    }
}

/// The status line of a user's report: locked out when no time is left;
/// otherwise active or idle as their sessions are, and not logged in when they
/// have no graphical session.
pub proof fn law_status_line(
    cfg: Seq<(Seq<char>, UserConfig)>,
    st: Seq<(Seq<char>, UserStateView)>,
    statuses: Seq<(Seq<char>, SessionStatus)>,
    user: Seq<char>,
    today: Date,
)
    ensures
        ({
            let line = "  status:    "@ + label_text(report_label(cfg, st, statuses, user, today));
            let left = report_remaining(cfg, st, user, today);
            &&& left <= 0 ==> line == "  status:    "@ + "LOCKED OUT"@
            &&& left > 0 && lookup(statuses, user) == Some(SessionStatus::Active) ==> line
                == "  status:    "@ + "ACTIVE"@
            &&& left > 0 && lookup(statuses, user) == Some(SessionStatus::Idle) ==> line
                == "  status:    "@ + "IDLE"@
            &&& left > 0 && lookup(statuses, user) is None ==> line == "  status:    "@
                + "NOT LOGGED IN"@
        }),
{
    law_label_texts(StatusLabel::Idle, StatusLabel::Idle);
}

} // verus!
