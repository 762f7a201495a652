//! What a desktop notification needs to reach a user's session.

use vstd::prelude::*;
use vstd::string::*;
use crate::fmt::{
    decimal, digits_value, is_digit, law_decimal_denotes, law_decimal_injective, push_decimal,
};

verus! {

/// The title of every notification.
pub const NOTIFICATION_TITLE: &'static str = "⏳ Hourglass";

/// The message shown when a user's time is up, before their sessions end.
pub const TIME_UP_MESSAGE: &'static str = "Your screen time is up. Logging you out now.";

/// The session bus address of the user with id `uid`.
pub open spec fn dbus_address_text(uid: u32) -> Seq<char> {
    "unix:path=/run/user/"@ + decimal(uid as nat) + "/bus"@
}

/// The session bus address of the user with id `uid`.
pub fn dbus_address(uid: u32) -> (a: String)
    ensures
        a@ == dbus_address_text(uid),
{
    let mut a = String::from_str("unix:path=/run/user/");
    push_decimal(&mut a, uid as u64);
    a.append("/bus");
    a
}

/// The display to notify on: the session's own, or `:0` when it has none.
pub fn display_or_default(display: Option<String>) -> (d: String)
    ensures
        display matches Some(x) ==> d@ == x@,
        display is None ==> d@ == ":0"@,
{
    match display {
        Some(x) => x,
        None => String::from_str(":0"),
    }
}


/// The bus address of user `uid` is `unix:path=/run/user/`, then digits that
/// denote `uid` itself, then `/bus`; so distinct users get distinct addresses.
pub proof fn law_dbus_address(uid: u32, other: u32)
    ensures
        ({
            let a = dbus_address_text(uid);
            let middle = a.subrange(20, a.len() - 4);
            &&& a.len() > 24
            &&& a.subrange(0, 20) == "unix:path=/run/user/"@
            &&& a.subrange(a.len() - 4, a.len() as int) == "/bus"@
            &&& forall|i: int| 0 <= i < middle.len() ==> is_digit(#[trigger] middle[i])
            &&& digits_value(middle) == uid
        }),
        uid != other ==> dbus_address_text(uid) != dbus_address_text(other),
{
    reveal_strlit("unix:path=/run/user/");
    reveal_strlit("/bus");
    let p = "unix:path=/run/user/"@;
    let q = "/bus"@;
    let d = decimal(uid as nat);
    let a = dbus_address_text(uid);
    law_decimal_denotes(uid as nat);
    assert(p.len() == 20);
    assert(q.len() == 4);
    assert(a.subrange(0, 20) =~= p);
    assert(a.subrange(a.len() - 4, a.len() as int) =~= q);
    assert(a.subrange(20, a.len() - 4) =~= d);
    if uid != other {
        law_decimal_injective(uid as nat, other as nat);
        let b = dbus_address_text(other);
        law_decimal_denotes(other as nat);
        if a == b {
            assert(b.subrange(20, b.len() - 4) =~= decimal(other as nat));
        }
    }
}

} // verus!
