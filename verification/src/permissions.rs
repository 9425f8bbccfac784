//! Guild roles, permissions attached to roles, role assignments, and the
//! role-based access resolver.
//!
//! Every mutation here is owner-gated: the role is resolved to its guild
//! and the caller must be that guild's owner. Removing a role cascades to
//! all its permissions and all its assignments in the same atomic step,
//! so nothing ever references a removed role.

use vstd::prelude::*;
use crate::db::{
    find_guild, find_member_role, find_permission, find_role, find_user_by_name, grant_exists,
    member_role_exists,
    guild_ix, has_grant, has_guild, has_member_role, has_permission_id, has_role, has_user_id,
    has_user_named, lemma_member_role_removed, lemma_member_roles_push,
    lemma_member_roles_refs_weaken, lemma_permission_removed, lemma_permissions_push,
    lemma_permissions_refs_weaken, lemma_role_removed, lemma_roles_push, lemma_roles_same_ids,
    member_role_ix, member_roles_unique, permission_ix, permissions_unique, role_ix,
    user_id_named, user_may_write, Db, DbSnap,
};
use crate::errors::CmdError;
use crate::ids::UserId;
use crate::rows::{GuildMemberRole, GuildPermission, GuildRole, Permission};

verus! {

/// The rows kept by the permission cascade of removing this role.
pub open spec fn grant_not_for(role_id: i128) -> spec_fn(GuildPermission) -> bool {
    |p: GuildPermission| p.role_id != role_id
}

/// The rows kept by the assignment cascade of removing this role.
pub open spec fn assignment_not_for(role_id: i128) -> spec_fn(GuildMemberRole) -> bool {
    |m: GuildMemberRole| m.role_id != role_id
}

/// Filtering the permission table keeps it well formed, and every
/// surviving row is one of the rows it was filtered from.
proof fn lemma_grants_filter_wf(s: Seq<GuildPermission>, next_id: int, role_id: i128)
    requires
        permissions_unique(s, next_id),
    ensures
        permissions_unique(s.filter(grant_not_for(role_id)), next_id),
        forall|i: int|
            0 <= i < s.filter(grant_not_for(role_id)).len() ==> s.contains(
                #[trigger] s.filter(grant_not_for(role_id))[i],
            ),
    decreases s.len(),
{
    reveal(Seq::filter);
    let pred = grant_not_for(role_id);
    let f = s.filter(pred);
    if s.len() == 0 {
    } else {
        let d = s.drop_last();
        let last = s.last();
        assert(permissions_unique(d, next_id)) by {
            assert(forall|i: int| 0 <= i < d.len() ==> d[i] == s[i]);
        }
        lemma_grants_filter_wf(d, next_id, role_id);
        let fd = d.filter(pred);
        assert forall|i: int| 0 <= i < fd.len() implies s.contains(#[trigger] fd[i]) by {
            assert(d.contains(fd[i]));
            let w = choose|w: int| 0 <= w < d.len() && d[w] == fd[i];
            assert(s[w] == fd[i]);
        }
        if pred(last) {
            assert(f == fd.push(last));
            assert(s.contains(last)) by {
                assert(s[s.len() - 1] == last);
            }
            assert forall|i: int, j: int| 0 <= i < j < f.len() implies (#[trigger] f[i]).id != (
            #[trigger] f[j]).id && !((#[trigger] f[i]).role_id == (#[trigger] f[j]).role_id
                && f[i].permission == f[j].permission) by {
                if j < fd.len() {
                    assert(fd[i].id != fd[j].id);
                    assert(!(fd[i].role_id == fd[j].role_id && fd[i].permission
                        == fd[j].permission));
                } else {
                    assert(f[j] == last);
                    assert(f[i] == fd[i]);
                    assert(d.contains(fd[i]));
                    let w = choose|w: int| 0 <= w < d.len() && d[w] == fd[i];
                    assert(s[w] == fd[i]);
                    assert(s[s.len() - 1] == last);
                    assert(s[w].id != s[s.len() - 1].id);
                    assert(!(s[w].role_id == s[s.len() - 1].role_id && s[w].permission == s[s.len()
                        - 1].permission));
                }
            }
            assert forall|i: int| 0 <= i < f.len() implies 1 <= (#[trigger] f[i]).id < next_id by {
                if i < fd.len() {
                    assert(d.contains(fd[i]));
                    let w = choose|w: int| 0 <= w < d.len() && d[w] == fd[i];
                    assert(1 <= s[w].id < next_id);
                } else {
                    assert(f[i] == last);
                    assert(1 <= s[s.len() - 1].id < next_id);
                }
            }
        } else {
            assert(f == fd);
            assert forall|i: int| 0 <= i < f.len() implies 1 <= (#[trigger] f[i]).id < next_id by {
                assert(d.contains(fd[i]));
                let w = choose|w: int| 0 <= w < d.len() && d[w] == fd[i];
                assert(1 <= s[w].id < next_id);
            }
        }
    }
}

/// Filtering the assignment table keeps it well formed, and every
/// surviving row is one of the rows it was filtered from.
proof fn lemma_assignments_filter_wf(s: Seq<GuildMemberRole>, role_id: i128)
    requires
        member_roles_unique(s),
    ensures
        member_roles_unique(s.filter(assignment_not_for(role_id))),
        forall|i: int|
            0 <= i < s.filter(assignment_not_for(role_id)).len() ==> s.contains(
                #[trigger] s.filter(assignment_not_for(role_id))[i],
            ),
    decreases s.len(),
{
    reveal(Seq::filter);
    let pred = assignment_not_for(role_id);
    let f = s.filter(pred);
    if s.len() == 0 {
    } else {
        let d = s.drop_last();
        let last = s.last();
        assert(member_roles_unique(d)) by {
            assert(forall|i: int| 0 <= i < d.len() ==> d[i] == s[i]);
        }
        lemma_assignments_filter_wf(d, role_id);
        let fd = d.filter(pred);
        assert forall|i: int| 0 <= i < fd.len() implies s.contains(#[trigger] fd[i]) by {
            assert(d.contains(fd[i]));
            let w = choose|w: int| 0 <= w < d.len() && d[w] == fd[i];
            assert(s[w] == fd[i]);
        }
        if pred(last) {
            assert(f == fd.push(last));
            assert(s.contains(last)) by {
                assert(s[s.len() - 1] == last);
            }
            assert forall|i: int, j: int| 0 <= i < j < f.len() implies (#[trigger] f[i]) != (
            #[trigger] f[j]) by {
                if j < fd.len() {
                    assert(fd[i] != fd[j]);
                } else {
                    assert(f[j] == last);
                    assert(f[i] == fd[i]);
                    assert(d.contains(fd[i]));
                    let w = choose|w: int| 0 <= w < d.len() && d[w] == fd[i];
                    assert(s[w] == fd[i]);
                    assert(s[s.len() - 1] == last);
                    assert(s[w] != s[s.len() - 1]);
                }
            }
        } else {
            assert(f == fd);
        }
    }
}

/// Drop every permission row of this role, keeping the rest in order.
fn purge_role_grants(v: &mut Vec<GuildPermission>, role_id: i128)
    ensures
        final(v)@ == old(v)@.filter(grant_not_for(role_id)),
{
    let ghost pred = grant_not_for(role_id);
    let mut kept: Vec<GuildPermission> = Vec::new();
    let n = v.len();
    let mut i: usize = 0;
    while i < n
        invariant
            v@ == old(v)@,
            n == v@.len(),
            i <= n,
            kept@ == v@.subrange(0, i as int).filter(pred),
            pred == grant_not_for(role_id),
        decreases n - i,
    {
        let p = v[i];
        proof {
            let pre = v@.subrange(0, i as int);
            assert(v@.subrange(0, i as int + 1) =~= pre.push(p));
            crate::db::lemma_filter_push(pre, pred, p);
        }
        if p.role_id != role_id {
            kept.push(p);
        }
        i += 1;
    }
    proof {
        assert(v@.subrange(0, n as int) =~= v@);
    }
    *v = kept;
}

/// Drop every assignment row of this role, keeping the rest in order.
fn purge_role_assignments(v: &mut Vec<GuildMemberRole>, role_id: i128)
    ensures
        final(v)@ == old(v)@.filter(assignment_not_for(role_id)),
{
    let ghost pred = assignment_not_for(role_id);
    let mut kept: Vec<GuildMemberRole> = Vec::new();
    let n = v.len();
    let mut i: usize = 0;
    while i < n
        invariant
            v@ == old(v)@,
            n == v@.len(),
            i <= n,
            kept@ == v@.subrange(0, i as int).filter(pred),
            pred == assignment_not_for(role_id),
        decreases n - i,
    {
        let p = v[i];
        proof {
            let pre = v@.subrange(0, i as int);
            assert(v@.subrange(0, i as int + 1) =~= pre.push(p));
            crate::db::lemma_filter_push(pre, pred, p);
        }
        if p.role_id != role_id {
            kept.push(p);
        }
        i += 1;
    }
    proof {
        assert(v@.subrange(0, n as int) =~= v@);
    }
    *v = kept;
}

/// Create a role in a guild with a fresh sequential id; only the guild
/// owner may do so.
pub fn create_role(db: &mut Db, caller: UserId, guild_id: i128, name: String, color: u32) -> (r:
    Result<(), CmdError>)
    requires
        old(db)@.wf(),
        old(db)@.next_role_id < i128::MAX,
    ensures
        final(db)@.wf(),
        ({
            let s = old(db)@;
            let guild_ok = has_guild(s.guilds, guild_id);
            let owner = s.guilds[guild_ix(s.guilds, guild_id)].owner;
            &&& (r == Err::<(), CmdError>(CmdError::NotFound) <==> !guild_ok)
            &&& (r == Err::<(), CmdError>(CmdError::NotOwner) <==> guild_ok && owner != caller)
            &&& (r is Ok <==> guild_ok && owner == caller)
            &&& (r is Err ==> *final(db) == *old(db))
            &&& (r is Ok ==> final(db)@ == (DbSnap {
                guild_roles: s.guild_roles.push(
                    (GuildRole { id: s.next_role_id, guild_id, name: name, color }),
                ),
                next_role_id: (s.next_role_id + 1) as i128,
                ..s
            }))
        }),
{
    let gix = match find_guild(db, guild_id) {
        Some(i) => i,
        None => {
            return Err(CmdError::NotFound);
        },
    };
    if !(db.guilds[gix].owner == caller) {
        return Err(CmdError::NotOwner);
    }
    let ghost s = db@;
    let rid = db.next_role_id;
    db.guild_roles.push(GuildRole { id: rid, guild_id, name, color });
    db.next_role_id = rid + 1;
    proof {
        let t = db@;
        let m = s.guild_roles.len() as int;
        let row = t.guild_roles[m];
        lemma_roles_push(s.guild_roles, row);
        assert(crate::db::roles_unique(t.guild_roles, t.next_role_id as int)) by {
            assert forall|i: int| 0 <= i < t.guild_roles.len() implies 1 <= (
            #[trigger] t.guild_roles[i]).id < t.next_role_id by {
                if i < m {
                    assert(t.guild_roles[i] == s.guild_roles[i]);
                }
            }
            assert forall|i: int, j: int| 0 <= i < j < t.guild_roles.len() implies (
            #[trigger] t.guild_roles[i]).id != (#[trigger] t.guild_roles[j]).id by {
                if j < m {
                    assert(s.guild_roles[i].id != s.guild_roles[j].id);
                } else {
                    assert(t.guild_roles[i] == s.guild_roles[i]);
                }
            }
        }
        assert forall|i: int| 0 <= i < t.guild_roles.len() implies has_guild(
            t.guilds,
            (#[trigger] t.guild_roles[i]).guild_id,
        ) by {
            if i < m {
                assert(t.guild_roles[i] == s.guild_roles[i]);
                assert(has_guild(s.guilds, s.guild_roles[i].guild_id));
            } else {
                assert(has_guild(s.guilds, guild_id));
            }
        }
        lemma_permissions_refs_weaken(s.guild_permissions, s.guild_roles, t.guild_roles);
        lemma_member_roles_refs_weaken(
            s.guild_member_roles,
            s.users,
            t.users,
            s.guild_roles,
            t.guild_roles,
        );
        assert(t =~= (DbSnap {
            guild_roles: s.guild_roles.push(row),
            next_role_id: (s.next_role_id + 1) as i128,
            ..s
        }));
    }
    Ok(())
}

/// Replacing role rows without touching id or guild keeps the role table
/// well formed and every reference to it intact.
proof fn lemma_role_row_updated(s: DbSnap, t: DbSnap, ix: int)
    requires
        s.wf(),
        0 <= ix < s.guild_roles.len(),
        t.guild_roles[ix].id == s.guild_roles[ix].id,
        t.guild_roles[ix].guild_id == s.guild_roles[ix].guild_id,
        t.guild_roles == s.guild_roles.update(ix, t.guild_roles[ix]),
        t == (DbSnap { guild_roles: t.guild_roles, ..s }),
    ensures
        t.wf(),
{
    lemma_roles_same_ids(s.guild_roles, t.guild_roles);
    assert(crate::db::roles_unique(t.guild_roles, t.next_role_id as int)) by {
        assert forall|i: int| 0 <= i < t.guild_roles.len() implies 1 <= (
        #[trigger] t.guild_roles[i]).id < t.next_role_id by {
            assert(t.guild_roles[i].id == s.guild_roles[i].id);
        }
        assert forall|i: int, j: int| 0 <= i < j < t.guild_roles.len() implies (
        #[trigger] t.guild_roles[i]).id != (#[trigger] t.guild_roles[j]).id by {
            assert(t.guild_roles[i].id == s.guild_roles[i].id);
            assert(t.guild_roles[j].id == s.guild_roles[j].id);
        }
    }
    assert(crate::db::roles_refs(t.guild_roles, t.guilds)) by {
        assert forall|i: int| 0 <= i < t.guild_roles.len() implies has_guild(
            t.guilds,
            (#[trigger] t.guild_roles[i]).guild_id,
        ) by {
            assert(t.guild_roles[i].guild_id == s.guild_roles[i].guild_id);
            assert(has_guild(s.guilds, s.guild_roles[i].guild_id));
        }
    }
    lemma_permissions_refs_weaken(s.guild_permissions, s.guild_roles, t.guild_roles);
    lemma_member_roles_refs_weaken(
        s.guild_member_roles,
        s.users,
        t.users,
        s.guild_roles,
        t.guild_roles,
    );
}

/// Rename a role; only the owner of its guild may do so.
pub fn set_role_name(db: &mut Db, caller: UserId, role_id: i128, name: String) -> (r: Result<
    (),
    CmdError,
>)
    requires
        old(db)@.wf(),
    ensures
        final(db)@.wf(),
        ({
            let s = old(db)@;
            let role_ok = has_role(s.guild_roles, role_id);
            let rix = role_ix(s.guild_roles, role_id);
            let owner = s.guilds[guild_ix(s.guilds, s.guild_roles[rix].guild_id)].owner;
            &&& (r == Err::<(), CmdError>(CmdError::NotFound) <==> !role_ok)
            &&& (r == Err::<(), CmdError>(CmdError::NotOwner) <==> role_ok && owner != caller)
            &&& (r is Ok <==> role_ok && owner == caller)
            &&& (r is Err ==> *final(db) == *old(db))
            &&& (r is Ok ==> final(db)@ == (DbSnap {
                guild_roles: s.guild_roles.update(
                    rix,
                    (GuildRole { name: name, ..s.guild_roles[rix] }),
                ),
                ..s
            }))
        }),
{
    let rix = match find_role(db, role_id) {
        Some(i) => i,
        None => {
            return Err(CmdError::NotFound);
        },
    };
    let guild_id = db.guild_roles[rix].guild_id;
    proof {
        assert(has_guild(db@.guilds, guild_id));
    }
    let gix = match find_guild(db, guild_id) {
        Some(i) => i,
        None => {
            // unreachable: every role references an existing guild
            return Err(CmdError::NotFound);
        },
    };
    if !(db.guilds[gix].owner == caller) {
        return Err(CmdError::NotOwner);
    }
    let ghost s = db@;
    db.guild_roles[rix].name = name;
    proof {
        let t = db@;
        let ix = role_ix(s.guild_roles, role_id);
        assert(t.guild_roles =~= s.guild_roles.update(ix, t.guild_roles[ix]));
        assert(t.guild_roles[ix] == (GuildRole { name, ..s.guild_roles[ix] }));
        assert(t =~= (DbSnap { guild_roles: t.guild_roles, ..s }));
        lemma_role_row_updated(s, t, ix);
    }
    Ok(())
}

/// Recolor a role; only the owner of its guild may do so.
pub fn set_role_color(db: &mut Db, caller: UserId, role_id: i128, color: u32) -> (r: Result<
    (),
    CmdError,
>)
    requires
        old(db)@.wf(),
    ensures
        final(db)@.wf(),
        ({
            let s = old(db)@;
            let role_ok = has_role(s.guild_roles, role_id);
            let rix = role_ix(s.guild_roles, role_id);
            let owner = s.guilds[guild_ix(s.guilds, s.guild_roles[rix].guild_id)].owner;
            &&& (r == Err::<(), CmdError>(CmdError::NotFound) <==> !role_ok)
            &&& (r == Err::<(), CmdError>(CmdError::NotOwner) <==> role_ok && owner != caller)
            &&& (r is Ok <==> role_ok && owner == caller)
            &&& (r is Err ==> *final(db) == *old(db))
            &&& (r is Ok ==> final(db)@ == (DbSnap {
                guild_roles: s.guild_roles.update(
                    rix,
                    (GuildRole { color, ..s.guild_roles[rix] }),
                ),
                ..s
            }))
        }),
{
    let rix = match find_role(db, role_id) {
        Some(i) => i,
        None => {
            return Err(CmdError::NotFound);
        },
    };
    let guild_id = db.guild_roles[rix].guild_id;
    proof {
        assert(has_guild(db@.guilds, guild_id));
    }
    let gix = match find_guild(db, guild_id) {
        Some(i) => i,
        None => {
            // unreachable: every role references an existing guild
            return Err(CmdError::NotFound);
        },
    };
    if !(db.guilds[gix].owner == caller) {
        return Err(CmdError::NotOwner);
    }
    let ghost s = db@;
    db.guild_roles[rix].color = color;
    proof {
        let t = db@;
        let ix = role_ix(s.guild_roles, role_id);
        assert(t.guild_roles =~= s.guild_roles.update(ix, t.guild_roles[ix]));
        assert(t.guild_roles[ix] == (GuildRole { color, ..s.guild_roles[ix] }));
        assert(t =~= (DbSnap { guild_roles: t.guild_roles, ..s }));
        lemma_role_row_updated(s, t, ix);
    }
    Ok(())
}

/// Remove a role and, in the same atomic step, every permission attached
/// to it and every assignment of it: no row ever references a removed
/// role.
pub fn remove_role(db: &mut Db, caller: UserId, role_id: i128) -> (r: Result<(), CmdError>)
    requires
        old(db)@.wf(),
    ensures
        final(db)@.wf(),
        ({
            let s = old(db)@;
            let role_ok = has_role(s.guild_roles, role_id);
            let rix = role_ix(s.guild_roles, role_id);
            let owner = s.guilds[guild_ix(s.guilds, s.guild_roles[rix].guild_id)].owner;
            &&& (r == Err::<(), CmdError>(CmdError::NotFound) <==> !role_ok)
            &&& (r == Err::<(), CmdError>(CmdError::NotOwner) <==> role_ok && owner != caller)
            &&& (r is Ok <==> role_ok && owner == caller)
            &&& (r is Err ==> *final(db) == *old(db))
            &&& (r is Ok ==> final(db)@ == (DbSnap {
                guild_roles: s.guild_roles.remove(rix),
                guild_permissions: s.guild_permissions.filter(grant_not_for(role_id)),
                guild_member_roles: s.guild_member_roles.filter(assignment_not_for(role_id)),
                ..s
            }))
        }),
        // the cascade law: afterwards nothing references the removed role
        r is Ok ==> !has_role(final(db)@.guild_roles, role_id),
        r is Ok ==> forall|i: int|
            0 <= i < final(db)@.guild_permissions.len() ==> (
            #[trigger] final(db)@.guild_permissions[i]).role_id != role_id,
        r is Ok ==> forall|i: int|
            0 <= i < final(db)@.guild_member_roles.len() ==> (
            #[trigger] final(db)@.guild_member_roles[i]).role_id != role_id,
{
    let rix = match find_role(db, role_id) {
        Some(i) => i,
        None => {
            return Err(CmdError::NotFound);
        },
    };
    let guild_id = db.guild_roles[rix].guild_id;
    proof {
        assert(has_guild(db@.guilds, guild_id));
    }
    let gix = match find_guild(db, guild_id) {
        Some(i) => i,
        None => {
            // unreachable: every role references an existing guild
            return Err(CmdError::NotFound);
        },
    };
    if !(db.guilds[gix].owner == caller) {
        return Err(CmdError::NotOwner);
    }
    let ghost s = db@;
    db.guild_roles.remove(rix);
    purge_role_grants(&mut db.guild_permissions, role_id);
    purge_role_assignments(&mut db.guild_member_roles, role_id);
    proof {
        let t = db@;
        let ix = rix as int;
        lemma_role_removed(s.guild_roles, s.next_role_id as int, ix);
        lemma_grants_filter_wf(s.guild_permissions, s.next_permission_id as int, role_id);
        lemma_assignments_filter_wf(s.guild_member_roles, role_id);
        broadcast use vstd::seq_lib::group_filter_ensures;

        assert(s.guild_roles[ix].id == role_id);
        // surviving permissions reference surviving roles
        assert forall|i: int| 0 <= i < t.guild_permissions.len() implies has_role(
            t.guild_roles,
            (#[trigger] t.guild_permissions[i]).role_id,
        ) by {
            assert(s.guild_permissions.contains(t.guild_permissions[i]));
            let w = choose|w: int|
                0 <= w < s.guild_permissions.len() && s.guild_permissions[w]
                    == t.guild_permissions[i];
            assert(has_role(s.guild_roles, s.guild_permissions[w].role_id));
            assert(grant_not_for(role_id)(t.guild_permissions[i]));
            assert(t.guild_permissions[i].role_id != role_id);
        }
        // surviving assignments reference surviving roles and users
        assert forall|i: int| 0 <= i < t.guild_member_roles.len() implies has_user_id(
            t.users,
            (#[trigger] t.guild_member_roles[i]).user_id,
        ) && has_role(t.guild_roles, t.guild_member_roles[i].role_id) by {
            assert(s.guild_member_roles.contains(t.guild_member_roles[i]));
            let w = choose|w: int|
                0 <= w < s.guild_member_roles.len() && s.guild_member_roles[w]
                    == t.guild_member_roles[i];
            assert(has_user_id(s.users, s.guild_member_roles[w].user_id));
            assert(has_role(s.guild_roles, s.guild_member_roles[w].role_id));
            assert(assignment_not_for(role_id)(t.guild_member_roles[i]));
            assert(t.guild_member_roles[i].role_id != role_id);
        }
        assert forall|i: int| 0 <= i < t.guild_permissions.len() implies (
        #[trigger] t.guild_permissions[i]).role_id != role_id by {
            assert(grant_not_for(role_id)(t.guild_permissions[i]));
        }
        assert forall|i: int| 0 <= i < t.guild_member_roles.len() implies (
        #[trigger] t.guild_member_roles[i]).role_id != role_id by {
            assert(assignment_not_for(role_id)(t.guild_member_roles[i]));
        }
        assert(t =~= (DbSnap {
            guild_roles: s.guild_roles.remove(ix),
            guild_permissions: s.guild_permissions.filter(grant_not_for(role_id)),
            guild_member_roles: s.guild_member_roles.filter(assignment_not_for(role_id)),
            ..s
        }));
    }
    Ok(())
}

/// Attach a permission to a role; only the guild owner may do so, and the
/// same grant cannot be attached twice.
pub fn add_permission(db: &mut Db, caller: UserId, role_id: i128, permission: Permission) -> (r:
    Result<(), CmdError>)
    requires
        old(db)@.wf(),
        old(db)@.next_permission_id < i128::MAX,
    ensures
        final(db)@.wf(),
        ({
            let s = old(db)@;
            let role_ok = has_role(s.guild_roles, role_id);
            let rix = role_ix(s.guild_roles, role_id);
            let owner = s.guilds[guild_ix(s.guilds, s.guild_roles[rix].guild_id)].owner;
            &&& (r == Err::<(), CmdError>(CmdError::NotFound) <==> !role_ok)
            &&& (r == Err::<(), CmdError>(CmdError::NotOwner) <==> role_ok && owner != caller)
            &&& (r == Err::<(), CmdError>(CmdError::DuplicatePermission) <==> role_ok && owner
                == caller && has_grant(s.guild_permissions, role_id, permission))
            &&& (r is Ok <==> role_ok && owner == caller && !has_grant(
                s.guild_permissions,
                role_id,
                permission,
            ))
            &&& (r is Err ==> *final(db) == *old(db))
            &&& (r is Ok ==> final(db)@ == (DbSnap {
                guild_permissions: s.guild_permissions.push(
                    (GuildPermission { id: s.next_permission_id, role_id, permission }),
                ),
                next_permission_id: (s.next_permission_id + 1) as i128,
                ..s
            }))
        }),
{
    let rix = match find_role(db, role_id) {
        Some(i) => i,
        None => {
            return Err(CmdError::NotFound);
        },
    };
    let guild_id = db.guild_roles[rix].guild_id;
    proof {
        assert(has_guild(db@.guilds, guild_id));
    }
    let gix = match find_guild(db, guild_id) {
        Some(i) => i,
        None => {
            // unreachable: every role references an existing guild
            return Err(CmdError::NotFound);
        },
    };
    if !(db.guilds[gix].owner == caller) {
        return Err(CmdError::NotOwner);
    }
    if grant_exists(db, role_id, permission) {
        return Err(CmdError::DuplicatePermission);
    }
    let ghost s = db@;
    let pid = db.next_permission_id;
    db.guild_permissions.push(GuildPermission { id: pid, role_id, permission });
    db.next_permission_id = pid + 1;
    proof {
        let t = db@;
        let m = s.guild_permissions.len() as int;
        let row = t.guild_permissions[m];
        lemma_permissions_push(s.guild_permissions, row);
        assert(permissions_unique(t.guild_permissions, t.next_permission_id as int)) by {
            assert forall|i: int| 0 <= i < t.guild_permissions.len() implies 1 <= (
            #[trigger] t.guild_permissions[i]).id < t.next_permission_id by {
                if i < m {
                    assert(t.guild_permissions[i] == s.guild_permissions[i]);
                }
            }
            assert forall|i: int, j: int| 0 <= i < j < t.guild_permissions.len() implies (
            #[trigger] t.guild_permissions[i]).id != (#[trigger] t.guild_permissions[j]).id && !((
            #[trigger] t.guild_permissions[i]).role_id == (
            #[trigger] t.guild_permissions[j]).role_id && t.guild_permissions[i].permission
                == t.guild_permissions[j].permission) by {
                if j < m {
                    assert(s.guild_permissions[i].id != s.guild_permissions[j].id);
                    assert(!(s.guild_permissions[i].role_id == s.guild_permissions[j].role_id
                        && s.guild_permissions[i].permission == s.guild_permissions[j].permission));
                } else {
                    assert(t.guild_permissions[i] == s.guild_permissions[i]);
                    assert(has_grant(
                        s.guild_permissions,
                        s.guild_permissions[i].role_id,
                        s.guild_permissions[i].permission,
                    ));
                }
            }
        }
        assert forall|i: int| 0 <= i < t.guild_permissions.len() implies has_role(
            t.guild_roles,
            (#[trigger] t.guild_permissions[i]).role_id,
        ) by {
            if i < m {
                assert(t.guild_permissions[i] == s.guild_permissions[i]);
                assert(has_role(s.guild_roles, s.guild_permissions[i].role_id));
            } else {
                assert(has_role(s.guild_roles, role_id));
            }
        }
        assert(t =~= (DbSnap {
            guild_permissions: s.guild_permissions.push(row),
            next_permission_id: (s.next_permission_id + 1) as i128,
            ..s
        }));
    }
    Ok(())
}

/// Detach a permission from its role; only the guild owner may do so.
pub fn remove_permission(db: &mut Db, caller: UserId, permission_id: i128) -> (r: Result<
    (),
    CmdError,
>)
    requires
        old(db)@.wf(),
    ensures
        final(db)@.wf(),
        ({
            let s = old(db)@;
            let perm_ok = has_permission_id(s.guild_permissions, permission_id);
            let pix = permission_ix(s.guild_permissions, permission_id);
            let rix = role_ix(s.guild_roles, s.guild_permissions[pix].role_id);
            let owner = s.guilds[guild_ix(s.guilds, s.guild_roles[rix].guild_id)].owner;
            &&& (r == Err::<(), CmdError>(CmdError::NotFound) <==> !perm_ok)
            &&& (r == Err::<(), CmdError>(CmdError::NotOwner) <==> perm_ok && owner != caller)
            &&& (r is Ok <==> perm_ok && owner == caller)
            &&& (r is Err ==> *final(db) == *old(db))
            &&& (r is Ok ==> final(db)@ == (DbSnap {
                guild_permissions: s.guild_permissions.remove(pix),
                ..s
            }))
        }),
{
    let pix = match find_permission(db, permission_id) {
        Some(i) => i,
        None => {
            return Err(CmdError::NotFound);
        },
    };
    let role_id = db.guild_permissions[pix].role_id;
    proof {
        assert(has_role(db@.guild_roles, role_id));
    }
    let rix = match find_role(db, role_id) {
        Some(i) => i,
        None => {
            // unreachable: every permission references an existing role
            return Err(CmdError::NotFound);
        },
    };
    let guild_id = db.guild_roles[rix].guild_id;
    proof {
        assert(has_guild(db@.guilds, guild_id));
    }
    let gix = match find_guild(db, guild_id) {
        Some(i) => i,
        None => {
            // unreachable: every role references an existing guild
            return Err(CmdError::NotFound);
        },
    };
    if !(db.guilds[gix].owner == caller) {
        return Err(CmdError::NotOwner);
    }
    let ghost s = db@;
    db.guild_permissions.remove(pix);
    proof {
        let t = db@;
        lemma_permission_removed(s.guild_permissions, s.next_permission_id as int, pix as int);
        assert forall|i: int| 0 <= i < t.guild_permissions.len() implies has_role(
            t.guild_roles,
            (#[trigger] t.guild_permissions[i]).role_id,
        ) by {
            let i0: int = if i < pix as int {
                i
            } else {
                i + 1
            };
            assert(t.guild_permissions[i] == s.guild_permissions[i0]);
            assert(has_role(s.guild_roles, s.guild_permissions[i0].role_id));
        }
        assert(t =~= (DbSnap { guild_permissions: s.guild_permissions.remove(pix as int), ..s }));
    }
    Ok(())
}

/// Assign a role to the named user; only the guild owner may do so.
pub fn add_role_user(db: &mut Db, caller: UserId, role_id: i128, user_name: String) -> (r: Result<
    (),
    CmdError,
>)
    requires
        old(db)@.wf(),
    ensures
        final(db)@.wf(),
        ({
            let s = old(db)@;
            let user_ok = has_user_named(s.users, user_name@);
            let target = user_id_named(s.users, user_name@);
            let role_ok = has_role(s.guild_roles, role_id);
            let rix = role_ix(s.guild_roles, role_id);
            let owner = s.guilds[guild_ix(s.guilds, s.guild_roles[rix].guild_id)].owner;
            &&& (r == Err::<(), CmdError>(CmdError::NotFound) <==> !user_ok || (user_ok
                && !role_ok))
            &&& (r == Err::<(), CmdError>(CmdError::NotOwner) <==> user_ok && role_ok && owner
                != caller)
            &&& (r == Err::<(), CmdError>(CmdError::AlreadyAssigned) <==> user_ok && role_ok
                && owner == caller && has_member_role(s.guild_member_roles, target, role_id))
            &&& (r is Ok <==> user_ok && role_ok && owner == caller && !has_member_role(
                s.guild_member_roles,
                target,
                role_id,
            ))
            &&& (r is Err ==> *final(db) == *old(db))
            &&& (r is Ok ==> final(db)@ == (DbSnap {
                guild_member_roles: s.guild_member_roles.push(
                    (GuildMemberRole { user_id: target, role_id }),
                ),
                ..s
            }))
        }),
{
    let tix = match find_user_by_name(db, &user_name) {
        Some(i) => i,
        None => {
            return Err(CmdError::NotFound);
        },
    };
    let target = db.users[tix].id;
    let rix = match find_role(db, role_id) {
        Some(i) => i,
        None => {
            return Err(CmdError::NotFound);
        },
    };
    let guild_id = db.guild_roles[rix].guild_id;
    proof {
        assert(has_guild(db@.guilds, guild_id));
    }
    let gix = match find_guild(db, guild_id) {
        Some(i) => i,
        None => {
            // unreachable: every role references an existing guild
            return Err(CmdError::NotFound);
        },
    };
    if !(db.guilds[gix].owner == caller) {
        return Err(CmdError::NotOwner);
    }
    if member_role_exists(db, target, role_id) {
        return Err(CmdError::AlreadyAssigned);
    }
    let ghost s = db@;
    db.guild_member_roles.push(GuildMemberRole { user_id: target, role_id });
    proof {
        let t = db@;
        let m = s.guild_member_roles.len() as int;
        let row = t.guild_member_roles[m];
        assert(row == (GuildMemberRole { user_id: target, role_id }));
        lemma_member_roles_push(s.guild_member_roles, row);
        assert forall|i: int, j: int| 0 <= i < j < t.guild_member_roles.len() implies (
        #[trigger] t.guild_member_roles[i]) != (#[trigger] t.guild_member_roles[j]) by {
            if j < m {
                assert(s.guild_member_roles[i] != s.guild_member_roles[j]);
            } else {
                assert(t.guild_member_roles[i] == s.guild_member_roles[i]);
                assert(has_member_role(
                    s.guild_member_roles,
                    s.guild_member_roles[i].user_id,
                    s.guild_member_roles[i].role_id,
                ));
            }
        }
        assert forall|i: int| 0 <= i < t.guild_member_roles.len() implies has_user_id(
            t.users,
            (#[trigger] t.guild_member_roles[i]).user_id,
        ) && has_role(t.guild_roles, t.guild_member_roles[i].role_id) by {
            if i < m {
                assert(t.guild_member_roles[i] == s.guild_member_roles[i]);
                assert(has_user_id(s.users, s.guild_member_roles[i].user_id));
                assert(has_role(s.guild_roles, s.guild_member_roles[i].role_id));
            } else {
                assert(has_user_id(s.users, target));
                assert(has_role(s.guild_roles, role_id));
            }
        }
        assert(t =~= (DbSnap { guild_member_roles: s.guild_member_roles.push(row), ..s }));
    }
    Ok(())
}

/// Withdraw a role from the named user; only the guild owner may do so.
pub fn remove_role_user(db: &mut Db, caller: UserId, role_id: i128, user_name: String) -> (r:
    Result<(), CmdError>)
    requires
        old(db)@.wf(),
    ensures
        final(db)@.wf(),
        ({
            let s = old(db)@;
            let user_ok = has_user_named(s.users, user_name@);
            let target = user_id_named(s.users, user_name@);
            let role_ok = has_role(s.guild_roles, role_id);
            let rix = role_ix(s.guild_roles, role_id);
            let owner = s.guilds[guild_ix(s.guilds, s.guild_roles[rix].guild_id)].owner;
            &&& (r == Err::<(), CmdError>(CmdError::NotFound) <==> !user_ok || (user_ok
                && !role_ok))
            &&& (r == Err::<(), CmdError>(CmdError::NotOwner) <==> user_ok && role_ok && owner
                != caller)
            &&& (r == Err::<(), CmdError>(CmdError::NotAssigned) <==> user_ok && role_ok && owner
                == caller && !has_member_role(s.guild_member_roles, target, role_id))
            &&& (r is Ok <==> user_ok && role_ok && owner == caller && has_member_role(
                s.guild_member_roles,
                target,
                role_id,
            ))
            &&& (r is Err ==> *final(db) == *old(db))
            &&& (r is Ok ==> final(db)@ == (DbSnap {
                guild_member_roles: s.guild_member_roles.remove(
                    member_role_ix(s.guild_member_roles, target, role_id),
                ),
                ..s
            }))
        }),
{
    let tix = match find_user_by_name(db, &user_name) {
        Some(i) => i,
        None => {
            return Err(CmdError::NotFound);
        },
    };
    let target = db.users[tix].id;
    let rix = match find_role(db, role_id) {
        Some(i) => i,
        None => {
            return Err(CmdError::NotFound);
        },
    };
    let guild_id = db.guild_roles[rix].guild_id;
    proof {
        assert(has_guild(db@.guilds, guild_id));
    }
    let gix = match find_guild(db, guild_id) {
        Some(i) => i,
        None => {
            // unreachable: every role references an existing guild
            return Err(CmdError::NotFound);
        },
    };
    if !(db.guilds[gix].owner == caller) {
        return Err(CmdError::NotOwner);
    }
    let mrix = match find_member_role(db, target, role_id) {
        Some(i) => i,
        None => {
            return Err(CmdError::NotAssigned);
        },
    };
    let ghost s = db@;
    db.guild_member_roles.remove(mrix);
    proof {
        let t = db@;
        lemma_member_role_removed(s.guild_member_roles, mrix as int);
        assert forall|i: int| 0 <= i < t.guild_member_roles.len() implies has_user_id(
            t.users,
            (#[trigger] t.guild_member_roles[i]).user_id,
        ) && has_role(t.guild_roles, t.guild_member_roles[i].role_id) by {
            let i0: int = if i < mrix as int {
                i
            } else {
                i + 1
            };
            assert(t.guild_member_roles[i] == s.guild_member_roles[i0]);
            assert(has_user_id(s.users, s.guild_member_roles[i0].user_id));
            assert(has_role(s.guild_roles, s.guild_member_roles[i0].role_id));
        }
        assert(t =~= (DbSnap {
            guild_member_roles: s.guild_member_roles.remove(mrix as int),
            ..s
        }));
    }
    Ok(())
}

/// The full access resolution of writing to a guild channel: the channel
/// exists, and the caller is the guild owner (owner bypass) or holds some
/// role with a write grant for the channel.
pub open spec fn may_post(s: DbSnap, user_id: UserId, channel_id: i128) -> bool {
    &&& crate::db::has_guild_channel(s.guild_channels, channel_id)
    &&& {
        let gix = guild_ix(
            s.guilds,
            s.guild_channels[crate::db::guild_channel_ix(s.guild_channels, channel_id)].guild_id,
        );
        s.guilds[gix].owner == user_id || user_may_write(
            s.guild_member_roles,
            s.guild_permissions,
            user_id,
            channel_id,
        )
    }
}

/// Scan the roles assigned to the user for a write grant on this channel,
/// stopping at the first match.
pub fn has_write_grant(db: &Db, user_id: UserId, channel_id: i128) -> (r: bool)
    ensures
        r == user_may_write(db@.guild_member_roles, db@.guild_permissions, user_id, channel_id),
{
    let n = db.guild_member_roles.len();
    let mut i: usize = 0;
    while i < n
        invariant
            n == db@.guild_member_roles.len(),
            i <= n,
            forall|j: int|
                0 <= j < i ==> !((#[trigger] db@.guild_member_roles[j]).user_id == user_id
                    && has_grant(
                    db@.guild_permissions,
                    db@.guild_member_roles[j].role_id,
                    Permission::Write(channel_id),
                )),
        decreases n - i,
    {
        if db.guild_member_roles[i].user_id == user_id {
            if grant_exists(db, db.guild_member_roles[i].role_id, Permission::Write(channel_id)) {
                return true;
            }
        }
        i += 1;
    }
    false
}

/// Decide whether this user may write to this guild channel, resolving
/// the channel's guild for the owner bypass.
pub fn can_write(db: &Db, user_id: UserId, channel_id: i128) -> (r: bool)
    requires
        db@.wf(),
    ensures
        r == may_post(db@, user_id, channel_id),
{
    let cix = match crate::db::find_guild_channel(db, channel_id) {
        Some(i) => i,
        None => {
            return false;
        },
    };
    let guild_id = db.guild_channels[cix].guild_id;
    proof {
        assert(has_guild(db@.guilds, guild_id));
    }
    let gix = match find_guild(db, guild_id) {
        Some(i) => i,
        None => {
            // unreachable: every guild channel references an existing guild
            return false;
        },
    };
    if db.guilds[gix].owner == user_id {
        return true;
    }
    has_write_grant(db, user_id, channel_id)
}

} // verus!
