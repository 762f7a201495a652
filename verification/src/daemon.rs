//! The enforcement daemon's decisions: one tick charges the time of every
//! managed user with an active graphical session, announces the warning
//! thresholds that were crossed, and ends the sessions whose time is up.

use vstd::prelude::*;
use vstd::string::*;
use crate::config::{limit_seconds, minutes_to_seconds, Config, UserConfig};
use crate::date::Date;
use crate::fmt::{decimal, push_decimal};
use crate::session::is_listed;
use crate::state::{
    as_i64, fresh, on_date, remaining_defined, remaining_fits, remaining_spec, user_view, State, UserState,
    UserStateView,
};
use crate::usermap::{
    has_key, insert_entry, key_index, lemma_drop_last, lemma_insert_lookup, lemma_key_index,
    lemma_map_entries, lookup, unique_keys,
};

verus! {

/// Seconds between two ticks; each tick charges this much to every active user.
pub const TICK_SECONDS: u64 = 10;

/// Seconds before the end of the day's time at which users are warned.
pub open spec fn warning_thresholds() -> Seq<u64> {
    seq![900u64, 300u64, 60u64]
}

/// The text of the warning for `threshold` seconds remaining.
pub open spec fn warning_text(threshold: u64) -> Seq<char> {
    if threshold / 60 > 0 {
        "You have "@ + decimal((threshold / 60) as nat) + " minute(s) of screen time remaining."@
    } else {
        "You have "@ + decimal(threshold as nat) + " seconds of screen time remaining."@
    }
}

/// The text of a warning for `threshold` seconds remaining.
pub fn warning_message(threshold: u64) -> (m: String)
    ensures
        m@ == warning_text(threshold),
{
    let mins = threshold / 60;
    let mut m = String::from_str("You have ");
    if mins > 0 {
        push_decimal(&mut m, mins);
        m.append(" minute(s) of screen time remaining.");
    } else {
        push_decimal(&mut m, threshold);
        m.append(" seconds of screen time remaining.");
    }
    m
}

/// What the daemon does for a user after charging a tick.
pub enum TickAction {
    /// Show `message` to `user`.
    Warn { user: String, message: String },
    /// Tell `user` the time is up and end their sessions.
    Expire { user: String },
}

/// A `TickAction` with its strings as sequences.
pub enum TickActionView {
    Warn { user: Seq<char>, message: Seq<char> },
    Expire { user: Seq<char> },
}

impl View for TickAction {
    type V = TickActionView;

    open spec fn view(&self) -> TickActionView {
        match self {
            TickAction::Warn { user, message } => TickActionView::Warn {
                user: user@,
                message: message@,
            },
            TickAction::Expire { user } => TickActionView::Expire { user: user@ },
        }
    }
}

/// The views of a list of actions.
pub open spec fn action_views(v: Seq<TickAction>) -> Seq<TickActionView> {
    v.map_values(|a: TickAction| a@)
}

/// The views of a list of names.
pub open spec fn name_views(v: Seq<String>) -> Seq<Seq<char>> {
    v.map_values(|s: String| s@)
}

/// Whether the warning for `t` is due: the time is not up, at most `t`
/// seconds are left, and `t` was not announced yet.
pub open spec fn due(warned: Seq<u64>, remaining: int, t: u64) -> bool {
    remaining <= t && remaining > 0 && !warned.contains(t)
}

/// The thresholds announced now, in the order 900, 300, 60.
pub open spec fn new_warnings(warned: Seq<u64>, remaining: int) -> Seq<u64> {
    (if due(warned, remaining, 900) {
        seq![900u64]
    } else {
        seq![]
    }) + (if due(warned, remaining, 300) {
        seq![300u64]
    } else {
        seq![]
    }) + (if due(warned, remaining, 60) {
        seq![60u64]
    } else {
        seq![]
    })
}

/// A record as it stands today, charged one tick.
pub open spec fn charged(u0: Option<UserStateView>, today: Date) -> UserStateView {
    let u1 = on_date(
        match u0 {
            Some(u) => u,
            None => fresh(today),
        },
        today,
    );
    UserStateView { used_seconds: (u1.used_seconds + TICK_SECONDS) as u64, ..u1 }
}

/// A user's record after a tick under a limit of `limit` seconds.
pub open spec fn user_after_tick(u0: Option<UserStateView>, limit: u64, today: Date) -> UserStateView {
    let u = charged(u0, today);
    let r = remaining_spec(u, limit);
    UserStateView { warnings_sent: u.warnings_sent + new_warnings(u.warnings_sent, r), ..u }
}

/// What a tick does for `user`: one warning per newly crossed threshold, or,
/// once the time is up, the end of the sessions.
pub open spec fn user_tick_actions(
    user: Seq<char>,
    u0: Option<UserStateView>,
    limit: u64,
    today: Date,
) -> Seq<TickActionView> {
    let u = charged(u0, today);
    let r = remaining_spec(u, limit);
    new_warnings(u.warnings_sent, r).map_values(
        |t: u64| TickActionView::Warn { user, message: warning_text(t) },
    ) + if r <= 0 {
        seq![TickActionView::Expire { user }]
    } else {
        seq![]
    }
}

/// A tick over the managed users `cfg` (in order), of whom those in `active`
/// have an active graphical session: the records afterwards and the actions.
pub open spec fn tick_fold(
    cfg: Seq<(Seq<char>, UserConfig)>,
    active: Seq<Seq<char>>,
    st: Seq<(Seq<char>, UserStateView)>,
    today: Date,
) -> (Seq<(Seq<char>, UserStateView)>, Seq<TickActionView>)
    decreases cfg.len(),
{
    if cfg.len() == 0 {
        (st, seq![])
    } else {
        let (st1, acts) = tick_fold(cfg.drop_last(), active, st, today);
        let name = cfg.last().0;
        if active.contains(name) {
            let limit = limit_seconds(cfg.last().1.daily_limit_minutes);
            let u0 = lookup(st1, name);
            (
                insert_entry(st1, name, user_after_tick(u0, limit, today)),
                acts + user_tick_actions(name, u0, limit, today),
            )
        } else {
            (st1, acts)
        }
    }
}

/// Whether a tick stays within machine arithmetic: for every managed active
/// user whose record is of today, charging a tick and computing the time left fit.
pub open spec fn tick_safe(
    cfg: Seq<(Seq<char>, UserConfig)>,
    active: Seq<Seq<char>>,
    st: Seq<(Seq<char>, UserStateView)>,
    today: Date,
) -> bool {
    forall|i: int|
        #![trigger cfg[i]]
        0 <= i < cfg.len() && active.contains(cfg[i].0) ==> match lookup(st, cfg[i].0) {
            Some(u) => u.date == today ==> {
                &&& u.used_seconds + TICK_SECONDS <= u64::MAX
                &&& remaining_defined(
                    charged(Some(u), today),
                    limit_seconds(cfg[i].1.daily_limit_minutes),
                )
            },
            None => true,
        }
}


/// Whether `x` is in `v`.
fn contains_u64(v: &Vec<u64>, x: u64) -> (b: bool)
    ensures
        b == v@.contains(x),
{
    let mut i: usize = 0;
    while i < v.len()
        invariant
            i <= v@.len(),
            forall|j: int| 0 <= j < i ==> v@[j] != x,
        decreases v@.len() - i,
    {
        if v[i] == x {
            assert(v@[i as int] == x);
            return true;
        }
        i = i + 1;
    }
    false
}

/// Announces threshold `t` to `user` when it is due, and records it.
fn warn_if_due(
    us: &mut UserState,
    user: &String,
    remaining: i64,
    t: u64,
    actions: &mut Vec<TickAction>,
)
    requires
        t <= 900,
    ensures
        due(old(us)@.warnings_sent, remaining as int, t) ==> {
            &&& final(us)@ == UserStateView {
                warnings_sent: old(us)@.warnings_sent.push(t),
                ..old(us)@
            }
            &&& action_views(final(actions)@) == action_views(old(actions)@).push(
                TickActionView::Warn { user: user@, message: warning_text(t) },
            )
        },
        !due(old(us)@.warnings_sent, remaining as int, t) ==> {
            &&& final(us)@ == old(us)@
            &&& final(actions)@ == old(actions)@
        },
{
    if remaining <= t as i64 && remaining > 0 && !contains_u64(&us.warnings_sent, t) {
        let message = warning_message(t);
        let ghost before = actions@;
        actions.push(TickAction::Warn { user: user.clone(), message });
        assert(action_views(actions@) =~= action_views(before).push(
            TickActionView::Warn { user: user@, message: warning_text(t) },
        ));
        us.warnings_sent.push(t);
    }
}

proof fn lemma_new_warnings(w: Seq<u64>, r: int)
    ensures
        ({
            let w1 = if due(w, r, 900) {
                w.push(900)
            } else {
                w
            };
            let w2 = if due(w1, r, 300) {
                w1.push(300)
            } else {
                w1
            };
            let w3 = if due(w2, r, 60) {
                w2.push(60)
            } else {
                w2
            };
            &&& due(w1, r, 300) == due(w, r, 300)
            &&& due(w2, r, 60) == due(w, r, 60)
            &&& w3 == w + new_warnings(w, r)
        }),
{
    let w1 = if due(w, r, 900) {
        w.push(900)
    } else {
        w
    };
    let w2 = if due(w1, r, 300) {
        w1.push(300)
    } else {
        w1
    };
    assert(w1.contains(300) == w.contains(300)) by {
        if due(w, r, 900) {
            if w1.contains(300) {
                let k = choose|k: int| 0 <= k < w1.len() && w1[k] == 300;
                assert(k < w.len());
                assert(w[k] == 300);
            }
            if w.contains(300) {
                let k = choose|k: int| 0 <= k < w.len() && w[k] == 300;
                assert(w1[k] == 300);
            }
        }
    }
    assert(w2.contains(60) == w.contains(60)) by {
        if w2.contains(60) {
            let k = choose|k: int| 0 <= k < w2.len() && w2[k] == 60;
            assert(k < w.len());
            assert(w[k] == 60);
        }
        if w.contains(60) {
            let k = choose|k: int| 0 <= k < w.len() && w[k] == 60;
            assert(w2[k] == 60);
        }
    }
    let w3 = if due(w2, r, 60) {
        w2.push(60)
    } else {
        w2
    };
    assert(w3 =~= w + new_warnings(w, r));
}

/// One tick of the daemon on day `today`: for each managed user (in the order
/// of `config`) who is in `active`, brings the record to today, charges
/// `TICK_SECONDS`, announces each newly crossed warning threshold and, once
/// no time is left, asks for the end of the user's sessions.
pub fn plan_tick(config: &Config, active: &Vec<String>, state: &mut State, today: Date) -> (actions:
    Vec<TickAction>)
    requires
        config.users.wf(),
        old(state).users.wf(),
        tick_safe(config.users@, name_views(active@), old(state)@, today),
    ensures
        final(state).users.wf(),
        (final(state)@, action_views(actions@)) == tick_fold(
            config.users@,
            name_views(active@),
            old(state)@,
            today,
        ),
{
    let ghost cfg = config.users@;
    let ghost av = name_views(active@);
    let ghost st0 = state@;
    let mut actions: Vec<TickAction> = Vec::new();
    let n = config.users.len();
    let mut i: usize = 0;
    assert(cfg.take(0) =~= Seq::<(Seq<char>, UserConfig)>::empty());
    while i < n
        invariant
            cfg == config.users@,
            av == name_views(active@),
            n == cfg.len(),
            i <= n,
            config.users.wf(),
            state.users.wf(),
            tick_safe(cfg, av, st0, today),
            (state@, action_views(actions@)) == tick_fold(cfg.take(i as int), av, st0, today),
            forall|j: int| i <= j < n ==> lookup(state@, #[trigger] cfg[j].0) == lookup(st0, cfg[j].0),
        decreases n - i,
    {
        let name = config.users.key_at(i);
        let minutes = config.users.value_at(i).daily_limit_minutes;
        proof {
            assert(cfg.take(i + 1).drop_last() =~= cfg.take(i as int));
            assert(cfg.take(i + 1).last() == cfg[i as int]);
        }
        let listed = is_listed(active, name.as_str());
        if !listed {
            proof {
                if av.contains(name@) {
                    let k = choose|k: int| 0 <= k < av.len() && av[k] == name@;
                    assert(active@[k]@ == name@);
                }
            }
        } else {
            let ghost users_before = state.users@;
            let ghost st_before = state@;
            proof {
                let k = choose|k: int| 0 <= k < active@.len() && #[trigger] active@[k]@ == name@;
                assert(av[k] == name@);
                assert(av.contains(name@));
                assert(lookup(st_before, cfg[i as int].0) == lookup(st0, cfg[i as int].0));
            }
            let limit = minutes_to_seconds(minutes);
            let us = state.get_mut(name.as_str(), today);
            us.ensure_today(today);
            proof {
                lemma_map_entries(users_before, user_view(), name@, *final(us));
            }
            us.used_seconds = us.used_seconds + TICK_SECONDS;
            let ghost u_charged = us@;
            assert(u_charged == charged(lookup(st0, name@), today));
            let remaining = us.remaining(limit);
            let ghost acts_before = actions@;
            warn_if_due(us, name, remaining, 900, &mut actions);
            warn_if_due(us, name, remaining, 300, &mut actions);
            warn_if_due(us, name, remaining, 60, &mut actions);
            proof {
                lemma_new_warnings(u_charged.warnings_sent, remaining as int);
            }
            if remaining <= 0 {
                actions.push(TickAction::Expire { user: name.clone() });
            }
            proof {
                assert(us@ == user_after_tick(lookup(st0, name@), limit, today));
                assert(state@ == insert_entry(st_before, name@, us@));
                assert forall|j: int| i + 1 <= j < n implies lookup(state@, #[trigger] cfg[j].0)
                    == lookup(st0, cfg[j].0) by {
                    assert(cfg[i as int].0 != cfg[j].0);
                    lemma_insert_lookup(st_before, name@, us@, cfg[j].0);
                }
                assert(action_views(actions@) =~= action_views(acts_before) + user_tick_actions(
                    name@,
                    lookup(st0, name@),
                    limit,
                    today,
                ));
            }
        }
        i = i + 1;
    }
    assert(cfg.take(n as int) =~= cfg);
    actions
}


/// Whether `plan_tick` can run on these arguments within machine arithmetic
/// (see `tick_safe`).
pub fn tick_is_safe(config: &Config, active: &Vec<String>, state: &State, today: Date) -> (b: bool)
    requires
        config.users.wf(),
        state.users.wf(),
    ensures
        b == tick_safe(config.users@, name_views(active@), state@, today),
{
    let ghost cfg = config.users@;
    let ghost av = name_views(active@);
    let n = config.users.len();
    let mut i: usize = 0;
    while i < n
        invariant
            cfg == config.users@,
            av == name_views(active@),
            n == cfg.len(),
            i <= n,
            config.users.wf(),
            state.users.wf(),
            forall|j: int|
                #![trigger cfg[j]]
                0 <= j < i && av.contains(cfg[j].0) ==> match lookup(state@, cfg[j].0) {
                    Some(u) => u.date == today ==> {
                        &&& u.used_seconds + TICK_SECONDS <= u64::MAX
                        &&& remaining_defined(
                            charged(Some(u), today),
                            limit_seconds(cfg[j].1.daily_limit_minutes),
                        )
                    },
                    None => true,
                },
        decreases n - i,
    {
        let name = config.users.key_at(i);
        let minutes = config.users.value_at(i).daily_limit_minutes;
        let listed = is_listed(active, name.as_str());
        proof {
            lemma_map_entries(state.users@, user_view(), name@, arbitrary());
            if av.contains(name@) {
                let k = choose|k: int| 0 <= k < av.len() && av[k] == name@;
                assert(active@[k]@ == name@);
            }
            if listed {
                let k = choose|k: int| 0 <= k < active@.len() && #[trigger] active@[k]@ == name@;
                assert(av[k] == name@);
            }
        }
        if listed {
            match state.users.get(name.as_str()) {
                Some(u) => {
                    if u.date == today {
                        if u.used_seconds > u64::MAX - TICK_SECONDS {
                            return false;
                        }
                        let limit = minutes_to_seconds(minutes);
                        if !remaining_fits(
                            limit,
                            u.extension_seconds,
                            u.used_seconds + TICK_SECONDS,
                        ) {
                            return false;
                        }
                    }
                },
                None => {},
            }
        }
        i = i + 1;
    }
    true
}


/// Each warning threshold is announced at most once a day, only while time is
/// left and at most that many seconds remain, and never together with the end
/// of the sessions; a record's announced thresholds never repeat.
pub proof fn law_warnings_once(u0: Option<UserStateView>, limit: u64, today: Date)
    ensures
        ({
            let u = charged(u0, today);
            let r = remaining_spec(u, limit);
            let nw = new_warnings(u.warnings_sent, r);
            &&& forall|k: int|
                0 <= k < nw.len() ==> {
                    &&& !u.warnings_sent.contains(#[trigger] nw[k])
                    &&& 0 < r <= nw[k]
                    &&& warning_thresholds().contains(nw[k])
                }
            &&& nw.no_duplicates()
            &&& r <= 0 ==> nw.len() == 0
            &&& u.warnings_sent.no_duplicates() ==> user_after_tick(
                u0,
                limit,
                today,
            ).warnings_sent.no_duplicates()
        }),
{
    let u = charged(u0, today);
    let r = remaining_spec(u, limit);
    let w = u.warnings_sent;
    let nw = new_warnings(w, r);
    assert forall|k: int| 0 <= k < nw.len() implies {
        &&& !w.contains(#[trigger] nw[k])
        &&& 0 < r <= nw[k]
        &&& warning_thresholds().contains(nw[k])
    } by {
        let t = nw[k];
        assert(t == 900 || t == 300 || t == 60);
        if t == 900 {
            assert(warning_thresholds()[0] == t);
        } else if t == 300 {
            assert(warning_thresholds()[1] == t);
        } else {
            assert(warning_thresholds()[2] == t);
        }
        assert(due(w, r, t));
    }
    let all = user_after_tick(u0, limit, today).warnings_sent;
    assert(all == w + nw);
    if w.no_duplicates() {
        assert forall|a: int, b: int| 0 <= a < all.len() && 0 <= b < all.len() && a != b implies all[a]
            != all[b] by {
            if a < w.len() && b >= w.len() {
                assert(!w.contains(nw[b - w.len()]));
            } else if b < w.len() && a >= w.len() {
                assert(!w.contains(nw[a - w.len()]));
            }
        }
    }
}

/// After a tick, a managed user with an active graphical session has had the
/// tick applied to their record exactly once; every other user's record is
/// unchanged; names stay unique.
pub proof fn law_tick_records(
    cfg: Seq<(Seq<char>, UserConfig)>,
    active: Seq<Seq<char>>,
    st: Seq<(Seq<char>, UserStateView)>,
    today: Date,
    name: Seq<char>,
)
    requires
        unique_keys(cfg),
        unique_keys(st),
    ensures
        unique_keys(tick_fold(cfg, active, st, today).0),
        has_key(cfg, name) && active.contains(name) ==> lookup(
            tick_fold(cfg, active, st, today).0,
            name,
        ) == Some(
            user_after_tick(
                lookup(st, name),
                limit_seconds(lookup(cfg, name)->0.daily_limit_minutes),
                today,
            ),
        ),
        !(has_key(cfg, name) && active.contains(name)) ==> lookup(
            tick_fold(cfg, active, st, today).0,
            name,
        ) == lookup(st, name),
    decreases cfg.len(),
{
    if cfg.len() > 0 {
        let pre = cfg.drop_last();
        let last = cfg.last();
        lemma_drop_last(cfg);
        law_tick_records(pre, active, st, today, name);
        law_tick_records(pre, active, st, today, last.0);
        lemma_insert_lookup(pre, last.0, last.1, name);
        let st1 = tick_fold(pre, active, st, today).0;
        if active.contains(last.0) {
            let limit = limit_seconds(last.1.daily_limit_minutes);
            let u1 = user_after_tick(lookup(st1, last.0), limit, today);
            lemma_insert_lookup(st1, last.0, u1, name);
            if name != last.0 {
                if has_key(pre, name) {
                    let m = key_index(pre, name);
                    lemma_key_index(pre, m);
                    assert(cfg[m] == pre[m]);
                    lemma_key_index(cfg, m);
                } else {
                    if has_key(cfg, name) {
                        let m = choose|m: int| 0 <= m < cfg.len() && #[trigger] cfg[m].0 == name;
                        assert(m < pre.len());
                        assert(pre[m].0 == name);
                    }
                }
            } else {
                lemma_key_index(cfg, cfg.len() - 1);
            }
        } else {
            if name != last.0 {
                if has_key(pre, name) {
                    let m = key_index(pre, name);
                    lemma_key_index(pre, m);
                    assert(cfg[m] == pre[m]);
                    lemma_key_index(cfg, m);
                } else {
                    if has_key(cfg, name) {
                        let m = choose|m: int| 0 <= m < cfg.len() && #[trigger] cfg[m].0 == name;
                        assert(m < pre.len());
                        assert(pre[m].0 == name);
                    }
                }
            } else {
                lemma_key_index(cfg, cfg.len() - 1);
            }
        }
    }
}


/// The user an action is for.
pub open spec fn action_user(a: TickActionView) -> Seq<char> {
    match a {
        TickActionView::Warn { user, .. } => user,
        TickActionView::Expire { user } => user,
    }
}

/// The actions of `acts` that are for `name`, in order.
pub open spec fn actions_for(acts: Seq<TickActionView>, name: Seq<char>) -> Seq<TickActionView>
    decreases acts.len(),
{
    if acts.len() == 0 {
        seq![]
    } else {
        let r = actions_for(acts.drop_last(), name);
        if action_user(acts.last()) == name {
            r.push(acts.last())
        } else {
            r
        }
    }
}

/// Seconds left to `name` after a tick charged 10 seconds to today's record
/// (a record of another day, or none, counts as nothing used or granted):
/// limit plus extension minus time used.
pub open spec fn left_after_tick(
    cfg: Seq<(Seq<char>, UserConfig)>,
    st: Seq<(Seq<char>, UserStateView)>,
    name: Seq<char>,
    today: Date,
) -> int {
    let limit = lookup(cfg, name)->0.daily_limit_minutes * 60;
    if lookup(st, name) is Some && lookup(st, name)->0.date == today {
        limit + lookup(st, name)->0.extension_seconds - (lookup(st, name)->0.used_seconds + 10)
    } else {
        limit - 10
    }
}

/// The thresholds already announced to `name` today.
pub open spec fn warned_today(
    st: Seq<(Seq<char>, UserStateView)>,
    name: Seq<char>,
    today: Date,
) -> Seq<u64> {
    if lookup(st, name) is Some && lookup(st, name)->0.date == today {
        lookup(st, name)->0.warnings_sent
    } else {
        seq![]
    }
}

/// What a user with `left` seconds left and thresholds `warned` announced gets
/// from a tick: a warning for each of 900, 300 and 60 (in that order) that is
/// at least `left` while time is left and was not announced yet; then, when no
/// time is left, the end of the sessions.
pub open spec fn expected_actions(name: Seq<char>, left: int, warned: Seq<u64>) -> Seq<TickActionView> {
    (if 0 < left <= 900 && !warned.contains(900) {
        seq![TickActionView::Warn { user: name, message: warning_text(900) }]
    } else {
        seq![]
    }) + (if 0 < left <= 300 && !warned.contains(300) {
        seq![TickActionView::Warn { user: name, message: warning_text(300) }]
    } else {
        seq![]
    }) + (if 0 < left <= 60 && !warned.contains(60) {
        seq![TickActionView::Warn { user: name, message: warning_text(60) }]
    } else {
        seq![]
    }) + (if left <= 0 {
        seq![TickActionView::Expire { user: name }]
    } else {
        seq![]
    })
}

proof fn lemma_actions_for_concat(a: Seq<TickActionView>, b: Seq<TickActionView>, name: Seq<char>)
    ensures
        actions_for(a + b, name) == actions_for(a, name) + actions_for(b, name),
    decreases b.len(),
{
    if b.len() == 0 {
        assert(a + b =~= a);
        assert(actions_for(a, name) + actions_for(b, name) =~= actions_for(a, name));
    } else {
        lemma_actions_for_concat(a, b.drop_last(), name);
        assert((a + b).drop_last() =~= a + b.drop_last());
        assert((a + b).last() == b.last());
        if action_user(b.last()) == name {
            assert(actions_for(a + b, name) =~= actions_for(a, name) + actions_for(b, name));
        } else {
            assert(actions_for(a + b, name) =~= actions_for(a, name) + actions_for(b, name));
        }
    }
}

proof fn lemma_actions_for_all_or_none(acts: Seq<TickActionView>, user: Seq<char>, name: Seq<char>)
    requires
        forall|k: int| 0 <= k < acts.len() ==> action_user(#[trigger] acts[k]) == user,
    ensures
        actions_for(acts, name) == if user == name {
            acts
        } else {
            seq![]
        },
    decreases acts.len(),
{
    if acts.len() > 0 {
        assert forall|k: int| 0 <= k < acts.drop_last().len() implies action_user(
            #[trigger] acts.drop_last()[k],
        ) == user by {
            assert(acts.drop_last()[k] == acts[k]);
        }
        lemma_actions_for_all_or_none(acts.drop_last(), user, name);
        assert(action_user(acts[acts.len() - 1]) == user);
        if user == name {
            assert(acts.drop_last().push(acts.last()) =~= acts);
        }
    }
}

proof fn lemma_user_actions_expected(
    cfg: Seq<(Seq<char>, UserConfig)>,
    st: Seq<(Seq<char>, UserStateView)>,
    name: Seq<char>,
    today: Date,
)
    requires
        lookup(cfg, name) is Some,
        lookup(st, name) is Some && lookup(st, name)->0.date == today ==> lookup(
            st,
            name,
        )->0.used_seconds + 10 <= i64::MAX,
    ensures
        user_tick_actions(
            name,
            lookup(st, name),
            limit_seconds(lookup(cfg, name)->0.daily_limit_minutes),
            today,
        ) == expected_actions(
            name,
            left_after_tick(cfg, st, name, today),
            warned_today(st, name, today),
        ),
        forall|k: int|
            0 <= k < user_tick_actions(
                name,
                lookup(st, name),
                limit_seconds(lookup(cfg, name)->0.daily_limit_minutes),
                today,
            ).len() ==> action_user(
                #[trigger] user_tick_actions(
                    name,
                    lookup(st, name),
                    limit_seconds(lookup(cfg, name)->0.daily_limit_minutes),
                    today,
                )[k],
            ) == name,
{
    let limit = limit_seconds(lookup(cfg, name)->0.daily_limit_minutes);
    let u = charged(lookup(st, name), today);
    assert(as_i64(limit) == lookup(cfg, name)->0.daily_limit_minutes * 60);
    assert(as_i64(u.used_seconds) == u.used_seconds);
    assert(remaining_spec(u, limit) == left_after_tick(cfg, st, name, today));
    assert(u.warnings_sent == warned_today(st, name, today));
    let ua = user_tick_actions(name, lookup(st, name), limit, today);
    assert(ua =~= expected_actions(
        name,
        left_after_tick(cfg, st, name, today),
        warned_today(st, name, today),
    ));
}

/// The actions that a tick takes for any one user, at whatever position the
/// user stands in the configuration: none for a user who is not both managed
/// and active; for a managed active user, a warning for each newly reached
/// threshold of 900, 300 and 60 seconds and, once nothing is left after the
/// charge, the end of the sessions, where what is left is the limit plus the
/// extension minus the time used including this tick.
pub proof fn law_tick_actions_per_user(
    cfg: Seq<(Seq<char>, UserConfig)>,
    active: Seq<Seq<char>>,
    st: Seq<(Seq<char>, UserStateView)>,
    today: Date,
    name: Seq<char>,
)
    requires
        unique_keys(cfg),
        unique_keys(st),
        forall|i: int|
            #![trigger cfg[i]]
            0 <= i < cfg.len() && lookup(st, cfg[i].0) is Some && lookup(st, cfg[i].0)->0.date
                == today ==> lookup(st, cfg[i].0)->0.used_seconds + 10 <= i64::MAX,
    ensures
        actions_for(tick_fold(cfg, active, st, today).1, name) == if has_key(cfg, name)
            && active.contains(name) {
            expected_actions(
                name,
                left_after_tick(cfg, st, name, today),
                warned_today(st, name, today),
            )
        } else {
            seq![]
        },
    decreases cfg.len(),
{
    if cfg.len() > 0 {
        let pre = cfg.drop_last();
        let last = cfg.last();
        lemma_drop_last(cfg);
        assert forall|i: int|
            #![trigger pre[i]]
            0 <= i < pre.len() && lookup(st, pre[i].0) is Some && lookup(st, pre[i].0)->0.date
                == today implies lookup(st, pre[i].0)->0.used_seconds + 10 <= i64::MAX by {
            assert(cfg[i] == pre[i]);
        }
        law_tick_actions_per_user(pre, active, st, today, name);
        law_tick_records(pre, active, st, today, last.0);
        lemma_insert_lookup(pre, last.0, last.1, name);
        lemma_insert_lookup(pre, last.0, last.1, last.0);
        let r = tick_fold(pre, active, st, today);
        let acts_pre = r.1;
        if active.contains(last.0) {
            let limit = limit_seconds(last.1.daily_limit_minutes);
            let u0 = lookup(r.0, last.0);
            assert(u0 == lookup(st, last.0));
            let ua = user_tick_actions(last.0, u0, limit, today);
            assert(cfg[cfg.len() - 1] == last);
            lemma_user_actions_expected(cfg, st, last.0, today);
            lemma_actions_for_concat(acts_pre, ua, name);
            lemma_actions_for_all_or_none(ua, last.0, name);
            if name == last.0 {
                assert(!has_key(pre, name));
                assert(actions_for(acts_pre, name) =~= Seq::<TickActionView>::empty());
                assert(actions_for(tick_fold(cfg, active, st, today).1, name) =~= ua);
            } else {
                assert(actions_for(tick_fold(cfg, active, st, today).1, name) =~= actions_for(
                    acts_pre,
                    name,
                ));
                if has_key(pre, name) {
                    let m = key_index(pre, name);
                    lemma_key_index(pre, m);
                    assert(cfg[m] == pre[m]);
                }
                assert(has_key(cfg, name) == has_key(pre, name));
                assert(left_after_tick(cfg, st, name, today) == left_after_tick(pre, st, name, today));
            }
        } else {
            if has_key(pre, name) {
                let m = key_index(pre, name);
                lemma_key_index(pre, m);
                assert(cfg[m] == pre[m]);
            }
            if name != last.0 {
                assert(has_key(cfg, name) == has_key(pre, name));
                assert(left_after_tick(cfg, st, name, today) == left_after_tick(pre, st, name, today));
            }
        }
    }
}


/// A tick's actions are for managed users with an active session only, and
/// follow the order of the configuration: every action for a user comes before
/// every action for a user configured after them.
pub proof fn law_tick_actions_order(
    cfg: Seq<(Seq<char>, UserConfig)>,
    active: Seq<Seq<char>>,
    st: Seq<(Seq<char>, UserStateView)>,
    today: Date,
)
    requires
        unique_keys(cfg),
        unique_keys(st),
    ensures
        forall|k: int|
            0 <= k < tick_fold(cfg, active, st, today).1.len() ==> has_key(
                cfg,
                action_user(#[trigger] tick_fold(cfg, active, st, today).1[k]),
            ) && active.contains(action_user(tick_fold(cfg, active, st, today).1[k])),
        forall|k1: int, k2: int|
            0 <= k1 < k2 < tick_fold(cfg, active, st, today).1.len() ==> key_index(
                cfg,
                action_user(#[trigger] tick_fold(cfg, active, st, today).1[k1]),
            ) <= key_index(cfg, action_user(#[trigger] tick_fold(cfg, active, st, today).1[k2])),
    decreases cfg.len(),
{
    if cfg.len() > 0 {
        let pre = cfg.drop_last();
        let last = cfg.last();
        lemma_drop_last(cfg);
        law_tick_actions_order(pre, active, st, today);
        let r = tick_fold(pre, active, st, today);
        let acts_pre = r.1;
        let acts = tick_fold(cfg, active, st, today).1;
        lemma_key_index(cfg, cfg.len() - 1);
        assert forall|k: int| 0 <= k < acts_pre.len() implies key_index(
            cfg,
            action_user(#[trigger] acts_pre[k]),
        ) == key_index(pre, action_user(acts_pre[k])) && key_index(pre, action_user(acts_pre[k]))
            < pre.len() && has_key(cfg, action_user(acts_pre[k])) by {
            let x = action_user(acts_pre[k]);
            let m = key_index(pre, x);
            lemma_key_index(pre, m);
            assert(cfg[m] == pre[m]);
            lemma_key_index(cfg, m);
        }
        if active.contains(last.0) {
            let limit = limit_seconds(last.1.daily_limit_minutes);
            let ua = user_tick_actions(last.0, lookup(r.0, last.0), limit, today);
            assert(acts == acts_pre + ua);
            assert forall|k: int| 0 <= k < ua.len() implies action_user(#[trigger] ua[k])
                == last.0 by {
                let w = charged(lookup(r.0, last.0), today);
                let nw = new_warnings(w.warnings_sent, remaining_spec(w, limit));
                if k < nw.len() {
                    assert(ua[k] == TickActionView::Warn { user: last.0, message: warning_text(nw[k]) });
                }
            }
            assert forall|k: int| 0 <= k < acts.len() implies has_key(
                cfg,
                action_user(#[trigger] acts[k]),
            ) && active.contains(action_user(acts[k])) by {
                if k < acts_pre.len() {
                    assert(acts[k] == acts_pre[k]);
                } else {
                    assert(acts[k] == ua[k - acts_pre.len()]);
                }
            }
            assert forall|k1: int, k2: int| 0 <= k1 < k2 < acts.len() implies key_index(
                cfg,
                action_user(#[trigger] acts[k1]),
            ) <= key_index(cfg, action_user(#[trigger] acts[k2])) by {
                if k2 < acts_pre.len() {
                    assert(acts[k1] == acts_pre[k1]);
                    assert(acts[k2] == acts_pre[k2]);
                } else if k1 < acts_pre.len() {
                    assert(acts[k1] == acts_pre[k1]);
                    assert(acts[k2] == ua[k2 - acts_pre.len()]);
                } else {
                    assert(acts[k1] == ua[k1 - acts_pre.len()]);
                    assert(acts[k2] == ua[k2 - acts_pre.len()]);
                }
            }
        } else {
            assert(acts == acts_pre);
        }
    }
}


/// The three warnings read, in full, "You have 15 minute(s) of screen time
/// remaining.", "You have 5 minute(s) ..." and "You have 1 minute(s) ...".
pub proof fn law_warning_texts()
    ensures
        warning_text(900) == "You have 15 minute(s) of screen time remaining."@,
        warning_text(300) == "You have 5 minute(s) of screen time remaining."@,
        warning_text(60) == "You have 1 minute(s) of screen time remaining."@,
{
    reveal_strlit("You have ");
    reveal_strlit(" minute(s) of screen time remaining.");
    reveal_strlit("You have 15 minute(s) of screen time remaining.");
    reveal_strlit("You have 5 minute(s) of screen time remaining.");
    reveal_strlit("You have 1 minute(s) of screen time remaining.");
    assert(decimal(1) =~= seq!['1']);
    assert(decimal(15) =~= seq!['1', '5']);
    assert(decimal(5) =~= seq!['5']);
    assert(warning_text(900) =~= "You have 15 minute(s) of screen time remaining."@);
    assert(warning_text(300) =~= "You have 5 minute(s) of screen time remaining."@);
    assert(warning_text(60) =~= "You have 1 minute(s) of screen time remaining."@);
}

} // verus!
