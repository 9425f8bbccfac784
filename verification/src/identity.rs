//! Identity lifecycle: connection callbacks and name assignment.
//!
//! An identity gets a user row only once it successfully sets a name; the
//! connection callbacks merely toggle the online flag of an existing row
//! and are no-ops for unregistered identities.

use vstd::prelude::*;
use crate::db::{
    find_user_by_id, find_user_by_name, has_user_id, has_user_named, lemma_guild_members_refs_weaken,
    lemma_member_roles_refs_weaken, lemma_members_refs_weaken, lemma_users_push,
    lemma_users_same_keys, user_ix, Db, DbSnap,
};
use crate::errors::CmdError;
use crate::ids::UserId;
use crate::rows::User;
use crate::validation::{valid_name_chars, validate_name};

verus! {

/// Mark the caller's user row online; a no-op for identities that have
/// not registered a name yet.
pub fn client_connected(db: &mut Db, caller: UserId)
    requires
        old(db)@.wf(),
    ensures
        final(db)@.wf(),
        has_user_id(old(db)@.users, caller) ==> final(db)@ == (DbSnap {
            users: old(db)@.users.update(
                user_ix(old(db)@.users, caller),
                (User { online: true, ..old(db)@.users[user_ix(old(db)@.users, caller)] }),
            ),
            ..old(db)@
        }),
        !has_user_id(old(db)@.users, caller) ==> *final(db) == *old(db),
{
    set_online_flag(db, caller, true);
}

/// Mark the caller's user row offline; a no-op for identities that have
/// not registered a name yet.
pub fn client_disconnected(db: &mut Db, caller: UserId)
    requires
        old(db)@.wf(),
    ensures
        final(db)@.wf(),
        has_user_id(old(db)@.users, caller) ==> final(db)@ == (DbSnap {
            users: old(db)@.users.update(
                user_ix(old(db)@.users, caller),
                (User { online: false, ..old(db)@.users[user_ix(old(db)@.users, caller)] }),
            ),
            ..old(db)@
        }),
        !has_user_id(old(db)@.users, caller) ==> *final(db) == *old(db),
{
    set_online_flag(db, caller, false);
}

/// Set the online flag of the caller's user row, if there is one.
fn set_online_flag(db: &mut Db, caller: UserId, online: bool)
    requires
        old(db)@.wf(),
    ensures
        final(db)@.wf(),
        has_user_id(old(db)@.users, caller) ==> final(db)@ == (DbSnap {
            users: old(db)@.users.update(
                user_ix(old(db)@.users, caller),
                (User { online, ..old(db)@.users[user_ix(old(db)@.users, caller)] }),
            ),
            ..old(db)@
        }),
        !has_user_id(old(db)@.users, caller) ==> *final(db) == *old(db),
{
    let found = find_user_by_id(db, caller);
    match found {
        Some(i) => {
            let ghost s = db@;
            db.users[i].online = online;
            proof {
                let t = db@;
                let ix = user_ix(s.users, caller);
                assert(t.users =~= s.users.update(ix, t.users[ix]));
                assert(t.users[ix] == (User { online, ..s.users[ix] }));
                lemma_users_same_keys(s.users, t.users);
                lemma_members_refs_weaken(s.members, s.channels, t.channels, s.users, t.users);
                lemma_guild_members_refs_weaken(s.guild_members, s.users, t.users, s.guilds, t.guilds);
                lemma_member_roles_refs_weaken(
                    s.guild_member_roles,
                    s.users,
                    t.users,
                    s.guild_roles,
                    t.guild_roles,
                );
                assert(t =~= (DbSnap { users: t.users, ..s }));
            }
        },
        None => {
        },
    }
}

/// Assign or change the caller's unique name; registers the identity on
/// first success, with the display name defaulting to the chosen name.
pub fn set_name(db: &mut Db, caller: UserId, name: String, now: i64) -> (r: Result<(), CmdError>)
    requires
        old(db)@.wf(),
    ensures
        final(db)@.wf(),
        r == Err::<(), CmdError>(CmdError::InvalidName) <==> !valid_name_chars(name@),
        r == Err::<(), CmdError>(CmdError::NameTaken) <==> valid_name_chars(name@)
            && has_user_named(old(db)@.users, name@),
        r is Ok <==> valid_name_chars(name@) && !has_user_named(old(db)@.users, name@),
        r is Err ==> *final(db) == *old(db),
        r is Ok && has_user_id(old(db)@.users, caller) ==> final(db)@ == (DbSnap {
            users: old(db)@.users.update(
                user_ix(old(db)@.users, caller),
                (User { name, ..old(db)@.users[user_ix(old(db)@.users, caller)] }),
            ),
            ..old(db)@
        }),
        r is Ok && !has_user_id(old(db)@.users, caller) ==> final(db)@ == (DbSnap {
            users: old(db)@.users.push(
                (User { id: caller, name: name, display_name: name, online: true, created_at: now }),
            ),
            ..old(db)@
        }),
{
    if !validate_name(name.as_str()) {
        return Err(CmdError::InvalidName);
    }
    let taken = find_user_by_name(db, &name);
    if taken.is_some() {
        return Err(CmdError::NameTaken);
    }
    let found = find_user_by_id(db, caller);
    match found {
        Some(i) => {
            let ghost s = db@;
            db.users[i].name = name;
            proof {
                let t = db@;
                let ix = user_ix(s.users, caller);
                assert(t.users =~= s.users.update(ix, t.users[ix]));
                assert(t.users[ix] == (User { name, ..s.users[ix] }));
                lemma_wf_user_renamed(s, t, ix);
            }
            Ok(())
        },
        None => {
            let ghost s = db@;
            let display_name = name.clone();
            let row = User { id: caller, name, display_name, online: true, created_at: now };
            db.users.push(row);
            proof {
                let t = db@;
                assert(t.users =~= s.users.push(t.users[t.users.len() - 1]));
                assert(t.users[t.users.len() - 1] == (User {
                    id: caller,
                    name,
                    display_name: name,
                    online: true,
                    created_at: now,
                }));
                lemma_users_push(s.users, t.users[t.users.len() - 1]);
                lemma_members_refs_weaken(s.members, s.channels, t.channels, s.users, t.users);
                lemma_guild_members_refs_weaken(s.guild_members, s.users, t.users, s.guilds, t.guilds);
                lemma_member_roles_refs_weaken(
                    s.guild_member_roles,
                    s.users,
                    t.users,
                    s.guild_roles,
                    t.guild_roles,
                );
                assert(t =~= (DbSnap { users: t.users, ..s }));
            }
            Ok(())
        },
    }
}

/// Renaming one user row to a name that no row carries preserves
/// well-formedness.
proof fn lemma_wf_user_renamed(s: DbSnap, t: DbSnap, ix: int)
    requires
        s.wf(),
        0 <= ix < s.users.len(),
        t.users[ix].id == s.users[ix].id,
        !has_user_named(s.users, t.users[ix].name@),
        t.users == s.users.update(ix, t.users[ix]),
        t == (DbSnap { users: t.users, ..s }),
    ensures
        t.wf(),
{
    assert forall|id: UserId| #[trigger] has_user_id(t.users, id) == has_user_id(s.users, id) by {
        if has_user_id(s.users, id) {
            let w = choose|i: int| 0 <= i < s.users.len() && (#[trigger] s.users[i]).id == id;
            assert(t.users[w].id == id);
        }
        if has_user_id(t.users, id) {
            let w = choose|i: int| 0 <= i < t.users.len() && (#[trigger] t.users[i]).id == id;
            assert(s.users[w].id == id);
        }
    }
    assert(crate::db::users_wf(t.users)) by {
        assert forall|i: int, j: int| 0 <= i < j < t.users.len() implies (#[trigger] t.users[i]).id
            != (#[trigger] t.users[j]).id && t.users[i].name@ != t.users[j].name@ by {
            assert(s.users[i].id != s.users[j].id);
            if i != ix && j != ix {
                assert(t.users[i].name@ == s.users[i].name@);
                assert(t.users[j].name@ == s.users[j].name@);
            } else if i == ix {
                assert(s.users[j].name@ != t.users[ix].name@);
            } else {
                assert(s.users[i].name@ != t.users[ix].name@);
            }
        }
    }
    lemma_members_refs_weaken(s.members, s.channels, t.channels, s.users, t.users);
    lemma_guild_members_refs_weaken(s.guild_members, s.users, t.users, s.guilds, t.guilds);
    lemma_member_roles_refs_weaken(
        s.guild_member_roles,
        s.users,
        t.users,
        s.guild_roles,
        t.guild_roles,
    );
}

/// Change the caller's display name; the unique name is untouched.
pub fn set_display_name(db: &mut Db, caller: UserId, name: String) -> (r: Result<(), CmdError>)
    requires
        old(db)@.wf(),
    ensures
        final(db)@.wf(),
        r == Err::<(), CmdError>(CmdError::InvalidName) <==> !valid_name_chars(name@),
        r == Err::<(), CmdError>(CmdError::NotRegistered) <==> valid_name_chars(name@)
            && !has_user_id(old(db)@.users, caller),
        r is Ok <==> valid_name_chars(name@) && has_user_id(old(db)@.users, caller),
        r is Err ==> *final(db) == *old(db),
        r is Ok ==> final(db)@ == (DbSnap {
            users: old(db)@.users.update(
                user_ix(old(db)@.users, caller),
                (User { display_name: name, ..old(db)@.users[user_ix(old(db)@.users, caller)] }),
            ),
            ..old(db)@
        }),
{
    if !validate_name(name.as_str()) {
        return Err(CmdError::InvalidName);
    }
    let found = find_user_by_id(db, caller);
    match found {
        Some(i) => {
            let ghost s = db@;
            db.users[i].display_name = name;
            proof {
                let t = db@;
                let ix = user_ix(s.users, caller);
                assert(t.users =~= s.users.update(ix, t.users[ix]));
                assert(t.users[ix] == (User { display_name: name, ..s.users[ix] }));
                lemma_users_same_keys(s.users, t.users);
                lemma_members_refs_weaken(s.members, s.channels, t.channels, s.users, t.users);
                lemma_guild_members_refs_weaken(s.guild_members, s.users, t.users, s.guilds, t.guilds);
                lemma_member_roles_refs_weaken(
                    s.guild_member_roles,
                    s.users,
                    t.users,
                    s.guild_roles,
                    t.guild_roles,
                );
                assert(t =~= (DbSnap { users: t.users, ..s }));
            }
            Ok(())
        },
        None => Err(CmdError::NotRegistered),
    }
}

} // verus!
