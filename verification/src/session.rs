//! Reading `loginctl` output: session lists, session properties and the
//! display of a session, and what they say about a user's session state.

use vstd::prelude::*;
use vstd::string::*;
use crate::usermap::{insert_entry, key_index, lemma_key_index, lookup, unique_keys, UserMap};
use crate::text::{
    lemma_lines_concat,
    chars_of, lines, span_eq, span_texts, spans_within, split_lines, split_whitespace, trim,
    trim_span, words,
};

verus! {

broadcast use vstd::string::group_string_axioms;

/// Session status for a user.
#[derive(Debug, Clone, Copy, PartialEq, Eq, Structural)]
pub enum SessionStatus {
    NotLoggedIn,
    Active,
    Idle,
}

/// Parse one line of `loginctl list-sessions --no-legend`.
/// Returns (session_id, username) if the line has enough columns.
///
/// The columns are the line's whitespace-separated words: SESSION UID USER SEAT TTY.
pub fn parse_session_line(line: &str) -> (r: Option<(&str, &str)>)
    ensures
        r is Some <==> words(line@).len() >= 3,
        r matches Some((id, user)) ==> id@ == words(line@)[0] && user@ == words(line@)[2],
{
    let v = chars_of(line);
    let spans = split_whitespace(&v);
    if spans.len() >= 3 {
        proof {
            assert(span_texts(v@, spans@)[0] == words(line@)[0]);
            assert(span_texts(v@, spans@)[2] == words(line@)[2]);
            assert(spans_within(spans@, v@.len() as int));
            assert(spans@[0].0 <= spans@[0].1 <= v@.len());
            assert(spans@[2].0 <= spans@[2].1 <= v@.len());
        }
        let id = line.substring_char(spans[0].0, spans[0].1);
        let user = line.substring_char(spans[2].0, spans[2].1);
        Some((id, user))
    } else {
        None
    }
}

/// A `Type=` line of a graphical session.
pub open spec fn is_graphical_type(t: Seq<char>) -> bool {
    t == "Type=x11"@ || t == "Type=wayland"@ || t == "Type=mir"@
}

/// Whether some line of `s`, trimmed, is exactly `p`.
pub open spec fn has_trimmed_line(s: Seq<char>, p: Seq<char>) -> bool {
    exists|i: int| 0 <= i < lines(s).len() && trim(#[trigger] lines(s)[i]) == p
}

/// The four flags of `parse_session_properties`, as a function of the output:
/// each holds when some trimmed line of the output is the matching property line.
pub open spec fn session_properties(s: Seq<char>) -> (bool, bool, bool, bool) {
    (
        exists|i: int|
            0 <= i < lines(s).len() && is_graphical_type(trim(#[trigger] lines(s)[i])),
        has_trimmed_line(s, "Class=user"@),
        has_trimmed_line(s, "State=active"@),
        has_trimmed_line(s, "IdleHint=yes"@),
    )
}

/// Parse Type=, Class=, State=, and IdleHint= properties from `loginctl show-session` output.
/// Returns (is_graphical, is_user_class, is_active, is_idle).
pub fn parse_session_properties(output: &str) -> (r: (bool, bool, bool, bool))
    ensures
        r == session_properties(output@),
{
    let x11 = chars_of("Type=x11");
    let wayland = chars_of("Type=wayland");
    let mir = chars_of("Type=mir");
    let class_user = chars_of("Class=user");
    let state_active = chars_of("State=active");
    let idle_yes = chars_of("IdleHint=yes");
    let v = chars_of(output);
    let spans = split_lines(&v);
    let ghost ls = lines(output@);
    let mut is_gui = false;
    let mut is_user = false;
    let mut is_active = false;
    let mut is_idle = false;
    let mut k: usize = 0;
    while k < spans.len()
        invariant
            v@ == output@,
            ls == lines(output@),
            span_texts(v@, spans@) == ls,
            spans_within(spans@, v@.len() as int),
            k <= spans@.len(),
            x11@ == "Type=x11"@,
            wayland@ == "Type=wayland"@,
            mir@ == "Type=mir"@,
            class_user@ == "Class=user"@,
            state_active@ == "State=active"@,
            idle_yes@ == "IdleHint=yes"@,
            is_gui == exists|i: int| 0 <= i < k && is_graphical_type(trim(#[trigger] ls[i])),
            is_user == exists|i: int| 0 <= i < k && trim(#[trigger] ls[i]) == "Class=user"@,
            is_active == exists|i: int| 0 <= i < k && trim(#[trigger] ls[i]) == "State=active"@,
            is_idle == exists|i: int| 0 <= i < k && trim(#[trigger] ls[i]) == "IdleHint=yes"@,
        decreases spans@.len() - k,
    {
        let (s0, e0) = spans[k];
        proof {
            assert(spans@[k as int].0 <= spans@[k as int].1 <= v@.len());
            assert(ls[k as int] == v@.subrange(s0 as int, e0 as int));
        }
        let (a, b) = trim_span(&v, s0, e0);
        let ghost t = trim(ls[k as int]);
        assert(v@.subrange(a as int, b as int) == t);
        if span_eq(&v, a, b, &x11) || span_eq(&v, a, b, &wayland) || span_eq(&v, a, b, &mir) {
            is_gui = true;
        }
        if span_eq(&v, a, b, &class_user) {
            is_user = true;
        }
        if span_eq(&v, a, b, &state_active) {
            is_active = true;
        }
        if span_eq(&v, a, b, &idle_yes) {
            is_idle = true;
        }
        k = k + 1;
    }
    (is_gui, is_user, is_active, is_idle)
}


/// The value of a `Display=` line: the rest of the line after the prefix,
/// trimmed, when that is not empty.
pub open spec fn display_in_line(l: Seq<char>) -> Option<Seq<char>> {
    let p = "Display="@;
    if p.is_prefix_of(l) && trim(l.skip(p.len() as int)).len() > 0 {
        Some(trim(l.skip(p.len() as int)))
    } else {
        None
    }
}

/// The display named by the first line that names one.
pub open spec fn first_display(ls: Seq<Seq<char>>) -> Option<Seq<char>>
    decreases ls.len(),
{
    if ls.len() == 0 {
        None
    } else if display_in_line(ls[0]) is Some {
        display_in_line(ls[0])
    } else {
        first_display(ls.drop_first())
    }
}

/// Parse Display= property from loginctl show-session output.
pub fn parse_display_property(output: &str) -> (r: Option<String>)
    ensures
        r is Some <==> first_display(lines(output@)) is Some,
        r matches Some(d) ==> first_display(lines(output@)) == Some(d@),
{
    let prefix = chars_of("Display=");
    let v = chars_of(output);
    let spans = split_lines(&v);
    let ghost ls = lines(output@);
    let plen = prefix.len();
    let mut k: usize = 0;
    assert(ls.skip(0) =~= ls);
    while k < spans.len()
        invariant
            v@ == output@,
            ls == lines(output@),
            span_texts(v@, spans@) == ls,
            spans_within(spans@, v@.len() as int),
            k <= spans@.len(),
            prefix@ == "Display="@,
            plen == prefix@.len(),
            first_display(ls) == first_display(ls.skip(k as int)),
        decreases spans@.len() - k,
    {
        let (s0, e0) = spans[k];
        proof {
            assert(spans@[k as int].0 <= spans@[k as int].1 <= v@.len());
            assert(ls[k as int] == v@.subrange(s0 as int, e0 as int));
            assert(ls.skip(k as int)[0] == ls[k as int]);
            assert(ls.skip(k as int).drop_first() =~= ls.skip(k + 1));
        }
        let ghost l = ls[k as int];
        if e0 - s0 >= plen && span_eq(&v, s0, s0 + plen, &prefix) {
            assert(l.subrange(0, plen as int) =~= v@.subrange(s0 as int, s0 + plen));
            assert("Display="@.is_prefix_of(l));
            assert(l.skip(plen as int) =~= v@.subrange(s0 + plen, e0 as int));
            let (a, b) = trim_span(&v, s0 + plen, e0);
            if b > a {
                let d = String::from_str(output.substring_char(a, b));
                return Some(d);
            }
        } else {
            proof {
                if "Display="@.is_prefix_of(l) {
                    assert(l.subrange(0, plen as int) =~= v@.subrange(s0 as int, s0 + plen));
                }
            }
        }
        k = k + 1;
    }
    assert(ls.skip(k as int) =~= Seq::<Seq<char>>::empty());
    None
}

/// The status that one session gives its user, from its four property flags:
/// graphical user sessions count, as active when in the foreground and not
/// idle, as idle otherwise.
pub open spec fn status_of(p: (bool, bool, bool, bool)) -> Option<SessionStatus> {
    if p.0 && p.1 {
        if p.2 && !p.3 {
            Some(SessionStatus::Active)
        } else {
            Some(SessionStatus::Idle)
        }
    } else {
        None
    }
}

/// Whether some line of `v`, trimmed, is exactly `w`.
fn has_trimmed_line_in(v: &Vec<char>, spans: &Vec<(usize, usize)>, w: &Vec<char>) -> (b: bool)
    requires
        span_texts(v@, spans@) == lines(v@),
        spans_within(spans@, v@.len() as int),
    ensures
        b == has_trimmed_line(v@, w@),
{
    let ghost ls = lines(v@);
    let mut k: usize = 0;
    while k < spans.len()
        invariant
            ls == lines(v@),
            span_texts(v@, spans@) == ls,
            spans_within(spans@, v@.len() as int),
            k <= spans@.len(),
            forall|i: int| 0 <= i < k ==> trim(#[trigger] ls[i]) != w@,
        decreases spans@.len() - k,
    {
        let (s0, e0) = spans[k];
        proof {
            assert(spans@[k as int].0 <= spans@[k as int].1 <= v@.len());
            assert(ls[k as int] == v@.subrange(s0 as int, e0 as int));
        }
        let (a, b) = trim_span(v, s0, e0);
        if span_eq(v, a, b, w) {
            return true;
        }
        k = k + 1;
    }
    false
}

/// An active graphical session: of type X11 or Wayland, of the user class,
/// in the foreground and not idle.
pub open spec fn active_graphical(s: Seq<char>) -> bool {
    &&& has_trimmed_line(s, "Type=x11"@) || has_trimmed_line(s, "Type=wayland"@)
    &&& has_trimmed_line(s, "Class=user"@)
    &&& has_trimmed_line(s, "State=active"@)
    &&& !has_trimmed_line(s, "IdleHint=yes"@)
}

/// Whether a session, given its `loginctl show-session` output, is an active
/// graphical session (X11 or Wayland) of a user, in the foreground and not idle:
/// the sessions whose users the daemon charges.
pub fn is_active_graphical(output: &str) -> (b: bool)
    ensures
        b == active_graphical(output@),
{
    let v = chars_of(output);
    let spans = split_lines(&v);
    let x11 = chars_of("Type=x11");
    let wayland = chars_of("Type=wayland");
    let class_user = chars_of("Class=user");
    let state_active = chars_of("State=active");
    let idle_yes = chars_of("IdleHint=yes");
    (has_trimmed_line_in(&v, &spans, &x11) || has_trimmed_line_in(&v, &spans, &wayland))
        && has_trimmed_line_in(&v, &spans, &class_user) && has_trimmed_line_in(
        &v,
        &spans,
        &state_active,
    ) && !has_trimmed_line_in(&v, &spans, &idle_yes)
}

/// The status that a session, given its `loginctl show-session` output, gives its user.
pub fn session_status(output: &str) -> (r: Option<SessionStatus>)
    ensures
        r == status_of(session_properties(output@)),
{
    let (is_gui, is_user, is_active, is_idle) = parse_session_properties(output);
    if is_gui && is_user {
        if !is_active {
            Some(SessionStatus::Idle)
        } else if is_idle {
            Some(SessionStatus::Idle)
        } else {
            Some(SessionStatus::Active)
        }
    } else {
        None
    }
}

/// A user's status after one more of their sessions was seen: the first
/// session seen sets it, and an active session wins over an idle one.
pub open spec fn merge_status(prev: Option<SessionStatus>, s: SessionStatus) -> SessionStatus {
    match prev {
        Some(p) => if s == SessionStatus::Active {
            SessionStatus::Active
        } else {
            p
        },
        None => s,
    }
}

/// Records that `user` has a session with status `status`.
pub fn record_session_status(
    statuses: &mut UserMap<SessionStatus>,
    user: &str,
    status: SessionStatus,
)
    requires
        old(statuses).wf(),
    ensures
        final(statuses)@ == insert_entry(
            old(statuses)@,
            user@,
            merge_status(lookup(old(statuses)@, user@), status),
        ),
        unique_keys(final(statuses)@),
{
    if statuses.contains_key(user) {
        if status == SessionStatus::Active {
            let entry = statuses.get_mut(user);
            *entry = SessionStatus::Active;
        } else {
            proof {
                let s0 = statuses@;
                let i = key_index(s0, user@);
                lemma_key_index(s0, i);
                assert(insert_entry(s0, user@, merge_status(lookup(s0, user@), status)) =~= s0);
            }
        }
    } else {
        statuses.insert(String::from_str(user), status);
    }
}

/// Whether `name` is one of `names`.
pub fn is_listed(names: &Vec<String>, name: &str) -> (b: bool)
    ensures
        b == exists|i: int| 0 <= i < names@.len() && #[trigger] names@[i]@ == name@,
{
    let key = String::from_str(name);
    let mut i: usize = 0;
    while i < names.len()
        invariant
            i <= names@.len(),
            key@ == name@,
            forall|j: int| 0 <= j < i ==> #[trigger] names@[j]@ != name@,
        decreases names@.len() - i,
    {
        if names[i] == key {
            return true;
        }
        i = i + 1;
    }
    false
}


/// The (session id, user) pairs of the lines of a session list that have
/// at least three columns, in order.
pub open spec fn session_entries(ls: Seq<Seq<char>>) -> Seq<(Seq<char>, Seq<char>)>
    decreases ls.len(),
{
    if ls.len() == 0 {
        seq![]
    } else {
        let rest = session_entries(ls.drop_last());
        let w = words(ls.last());
        if w.len() >= 3 {
            rest.push((w[0], w[2]))
        } else {
            rest
        }
    }
}

/// The views of a list of (session id, user) pairs.
pub open spec fn pair_views(v: Seq<(String, String)>) -> Seq<(Seq<char>, Seq<char>)> {
    v.map_values(|p: (String, String)| (p.0@, p.1@))
}

/// Parse the whole output of `loginctl list-sessions --no-legend`:
/// the (session id, user) of each line that has enough columns, in order.
pub fn parse_session_list(listing: &str) -> (r: Vec<(String, String)>)
    ensures
        pair_views(r@) == session_entries(lines(listing@)),
{
    let v = chars_of(listing);
    let spans = split_lines(&v);
    let ghost ls = lines(listing@);
    let mut out: Vec<(String, String)> = Vec::new();
    let mut k: usize = 0;
    assert(ls.take(0) =~= Seq::<Seq<char>>::empty());
    while k < spans.len()
        invariant
            v@ == listing@,
            ls == lines(listing@),
            span_texts(v@, spans@) == ls,
            spans_within(spans@, v@.len() as int),
            k <= spans@.len(),
            pair_views(out@) == session_entries(ls.take(k as int)),
        decreases spans@.len() - k,
    {
        let (s0, e0) = spans[k];
        proof {
            assert(spans@[k as int].0 <= spans@[k as int].1 <= v@.len());
            assert(ls[k as int] == v@.subrange(s0 as int, e0 as int));
            assert(ls.take(k + 1).drop_last() =~= ls.take(k as int));
            assert(ls.take(k + 1).last() == ls[k as int]);
        }
        let line = listing.substring_char(s0, e0);
        let ghost before = out@;
        match parse_session_line(line) {
            Some((id, user)) => {
                out.push((String::from_str(id), String::from_str(user)));
                assert(pair_views(out@) =~= pair_views(before).push((id@, user@)));
            },
            None => {},
        }
        k = k + 1;
    }
    assert(ls.take(k as int) =~= ls);
    out
}


/// A user with several sessions is active when any session is active: an
/// active session sets the status to active whatever was seen before, and
/// nothing seen later takes it back.
pub proof fn law_active_wins(prev: Option<SessionStatus>, s: SessionStatus)
    ensures
        merge_status(prev, SessionStatus::Active) == SessionStatus::Active,
        merge_status(Some(SessionStatus::Active), s) == SessionStatus::Active,
        merge_status(None, s) == s,
{
}

proof fn lemma_exists_same_lines(
    la: Seq<Seq<char>>,
    lb: Seq<Seq<char>>,
    p: spec_fn(Seq<char>) -> bool,
)
    requires
        forall|x: Seq<char>| la.contains(x) <==> lb.contains(x),
    ensures
        (exists|i: int| 0 <= i < la.len() && p(#[trigger] la[i])) <==> (exists|i: int|
            0 <= i < lb.len() && p(#[trigger] lb[i])),
{
    if exists|i: int| 0 <= i < la.len() && p(#[trigger] la[i]) {
        let i = choose|i: int| 0 <= i < la.len() && p(#[trigger] la[i]);
        assert(la.contains(la[i]));
        let j = choose|j: int| 0 <= j < lb.len() && lb[j] == la[i];
        assert(p(lb[j]));
    }
    if exists|i: int| 0 <= i < lb.len() && p(#[trigger] lb[i]) {
        let i = choose|i: int| 0 <= i < lb.len() && p(#[trigger] lb[i]);
        assert(lb.contains(lb[i]));
        let j = choose|j: int| 0 <= j < la.len() && la[j] == lb[i];
        assert(p(la[j]));
    }
}

/// The session properties depend only on which lines the output has, not on
/// their order or repetition.
pub proof fn law_properties_ignore_order(a: Seq<char>, b: Seq<char>)
    requires
        lines(a).to_set() == lines(b).to_set(),
    ensures
        session_properties(a) == session_properties(b),
{
    let la = lines(a);
    let lb = lines(b);
    assert forall|x: Seq<char>| la.contains(x) <==> lb.contains(x) by {
        assert(la.to_set().contains(x) == la.contains(x));
        assert(lb.to_set().contains(x) == lb.contains(x));
    }
    let p0 = |l: Seq<char>| is_graphical_type(trim(l));
    let p1 = |l: Seq<char>| trim(l) == "Class=user"@;
    let p2 = |l: Seq<char>| trim(l) == "State=active"@;
    let p3 = |l: Seq<char>| trim(l) == "IdleHint=yes"@;
    lemma_exists_same_lines(la, lb, p0);
    lemma_exists_same_lines(la, lb, p1);
    lemma_exists_same_lines(la, lb, p2);
    lemma_exists_same_lines(la, lb, p3);
}


/// The session ids, in order, of the entries that belong to `user`.
pub open spec fn sessions_of(entries: Seq<(Seq<char>, Seq<char>)>, user: Seq<char>) -> Seq<
    Seq<char>,
>
    decreases entries.len(),
{
    if entries.len() == 0 {
        seq![]
    } else {
        let rest = sessions_of(entries.drop_last(), user);
        if entries.last().1 == user {
            rest.push(entries.last().0)
        } else {
            rest
        }
    }
}

/// The ids, in order, of `user`'s sessions in the output of
/// `loginctl list-sessions --no-legend`: the sessions whose display is looked up.
pub fn sessions_of_user(listing: &str, user: &str) -> (ids: Vec<String>)
    ensures
        ids@.map_values(|s: String| s@) == sessions_of(session_entries(lines(listing@)), user@),
{
    let entries = parse_session_list(listing);
    let ghost ev = pair_views(entries@);
    let key = String::from_str(user);
    let mut ids: Vec<String> = Vec::new();
    let mut k: usize = 0;
    assert(ev.take(0) =~= Seq::<(Seq<char>, Seq<char>)>::empty());
    while k < entries.len()
        invariant
            ev == pair_views(entries@),
            key@ == user@,
            k <= entries@.len(),
            ids@.map_values(|s: String| s@) == sessions_of(ev.take(k as int), user@),
        decreases entries@.len() - k,
    {
        proof {
            assert(ev.take(k + 1).drop_last() =~= ev.take(k as int));
            assert(ev.take(k + 1).last() == ev[k as int]);
        }
        let ghost before = ids@;
        if entries[k].1 == key {
            ids.push(entries[k].0.clone());
            assert(ids@.map_values(|s: String| s@) =~= before.map_values(|s: String| s@).push(
                ev[k as int].0,
            ));
        }
        k = k + 1;
    }
    assert(ev.take(k as int) =~= ev);
    ids
}


/// Two outputs read one after the other: when the first ends with a line feed
/// (or is empty), each flag of the whole is set exactly when it is set in
/// either part, so extra lines can only set flags.
pub proof fn law_properties_concat(a: Seq<char>, b: Seq<char>)
    requires
        a.len() == 0 || a.last() == '\n',
    ensures
        ({
            let p = session_properties(a);
            let q = session_properties(b);
            session_properties(a + b) == (p.0 || q.0, p.1 || q.1, p.2 || q.2, p.3 || q.3)
        }),
{
    lemma_lines_concat(a, b);
    let la = lines(a);
    let lb = lines(b);
    let l = lines(a + b);
    assert(l == la + lb);
    let p0 = |x: Seq<char>| is_graphical_type(trim(x));
    let p1 = |x: Seq<char>| trim(x) == "Class=user"@;
    let p2 = |x: Seq<char>| trim(x) == "State=active"@;
    let p3 = |x: Seq<char>| trim(x) == "IdleHint=yes"@;
    lemma_exists_concat(la, lb, p0);
    lemma_exists_concat(la, lb, p1);
    lemma_exists_concat(la, lb, p2);
    lemma_exists_concat(la, lb, p3);
}

proof fn lemma_exists_concat(la: Seq<Seq<char>>, lb: Seq<Seq<char>>, p: spec_fn(Seq<char>) -> bool)
    ensures
        (exists|i: int| 0 <= i < (la + lb).len() && p(#[trigger] (la + lb)[i])) <==> ((exists|i: int|
            0 <= i < la.len() && p(#[trigger] la[i])) || (exists|i: int|
            0 <= i < lb.len() && p(#[trigger] lb[i]))),
{
    let l = la + lb;
    if exists|i: int| 0 <= i < l.len() && p(#[trigger] l[i]) {
        let i = choose|i: int| 0 <= i < l.len() && p(#[trigger] l[i]);
        if i < la.len() {
            assert(p(la[i]));
        } else {
            assert(l[i] == lb[i - la.len()]);
            assert(p(lb[i - la.len()]));
        }
    }
    if exists|i: int| 0 <= i < la.len() && p(#[trigger] la[i]) {
        let i = choose|i: int| 0 <= i < la.len() && p(#[trigger] la[i]);
        assert(l[i] == la[i]);
    }
    if exists|i: int| 0 <= i < lb.len() && p(#[trigger] lb[i]) {
        let i = choose|i: int| 0 <= i < lb.len() && p(#[trigger] lb[i]);
        assert(l[i + la.len()] == lb[i]);
    }
}

} // verus!
