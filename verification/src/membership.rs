//! Channel and guild membership lifecycle.
//!
//! A channel is created together with its first member (the creator), so
//! it is never observably memberless; the owner can remove itself only as
//! the last member, which deletes the channel in the same atomic step.

use vstd::prelude::*;
use crate::db::{
    channel_ix_named, find_channel_by_name, find_guild, find_guild_channel, find_member,
    find_user_by_id, find_user_by_name, guild_ix, guild_member_exists, has_channel,
    has_channel_named, has_guild, has_guild_channel, has_guild_member, has_member,
    has_other_member, has_user_id, has_user_named, lemma_channel_owner_member_weaken,
    lemma_channel_removed, lemma_channels_push, lemma_guild_channel_removed,
    lemma_guild_channels_push, lemma_guild_channels_refs_weaken, lemma_guild_members_push,
    lemma_guild_members_refs_weaken, lemma_guilds_push, lemma_member_removed, lemma_members_push,
    lemma_members_refs_weaken, lemma_roles_refs_weaken, member_ix, other_member_exists,
    user_id_named, Db, DbSnap,
};
use crate::errors::CmdError;
use crate::ids::UserId;
use crate::rows::{Channel, Guild, GuildChannel, GuildMember, Member};
use crate::validation::{valid_name_chars, validate_name};

verus! {

/// Law: in a well-formed state no channel is memberless — its owner's
/// membership row always exists.
pub proof fn lemma_no_memberless_channel(s: DbSnap, i: int)
    requires
        s.wf(),
        0 <= i < s.channels.len(),
    ensures
        exists|j: int|
            0 <= j < s.members.len() && (#[trigger] s.members[j]).channel_id == s.channels[i].id,
{
    assert(has_member(s.members, s.channels[i].owner, s.channels[i].id));
    let w = choose|j: int|
        0 <= j < s.members.len() && (#[trigger] s.members[j]) == (Member {
            user_id: s.channels[i].owner,
            channel_id: s.channels[i].id,
        });
    assert(s.members[w].channel_id == s.channels[i].id);
}

/// Create a channel with a fresh sequential id and the caller as its
/// owner and first member, in one atomic step.
pub fn create_channel(db: &mut Db, caller: UserId, channel_name: String, now: i64) -> (r: Result<
    (),
    CmdError,
>)
    requires
        old(db)@.wf(),
        old(db)@.next_channel_id < i128::MAX,
    ensures
        final(db)@.wf(),
        ({
            let s = old(db)@;
            let registered = has_user_id(s.users, caller);
            let valid = valid_name_chars(channel_name@);
            let taken = has_channel_named(s.channels, channel_name@);
            &&& (r == Err::<(), CmdError>(CmdError::NotRegistered) <==> !registered)
            &&& (r == Err::<(), CmdError>(CmdError::InvalidName) <==> registered && !valid)
            &&& (r == Err::<(), CmdError>(CmdError::NameTaken) <==> registered && valid && taken)
            &&& (r is Ok <==> registered && valid && !taken)
            &&& (r is Err ==> *final(db) == *old(db))
            &&& (r is Ok ==> final(db)@ == (DbSnap {
                channels: s.channels.push(
                    (Channel {
                        id: s.next_channel_id,
                        name: channel_name,
                        created_at: now,
                        owner: caller,
                    }),
                ),
                members: s.members.push(
                    (Member { user_id: caller, channel_id: s.next_channel_id }),
                ),
                next_channel_id: (s.next_channel_id + 1) as i128,
                ..s
            }))
        }),
{
    if find_user_by_id(db, caller).is_none() {
        return Err(CmdError::NotRegistered);
    }
    if !validate_name(channel_name.as_str()) {
        return Err(CmdError::InvalidName);
    }
    if find_channel_by_name(db, &channel_name).is_some() {
        return Err(CmdError::NameTaken);
    }
    let ghost s = db@;
    let cid = db.next_channel_id;
    let chan = Channel { id: cid, name: channel_name, created_at: now, owner: caller };
    db.channels.push(chan);
    db.members.push(Member { user_id: caller, channel_id: cid });
    db.next_channel_id = cid + 1;
    proof {
        let t = db@;
        let m = s.channels.len() as int;
        let mm = s.members.len() as int;
        let chanrow = t.channels[m];
        let memrow = t.members[mm];
        assert(memrow == (Member { user_id: caller, channel_id: cid }));
        lemma_channels_push(s.channels, chanrow);
        lemma_members_push(s.members, memrow);
        // channel ids stay in range and unique; names stay unique
        assert(crate::db::channels_wf(t.channels, t.next_channel_id as int)) by {
            assert forall|i: int| 0 <= i < t.channels.len() implies 1 <= (
            #[trigger] t.channels[i]).id < t.next_channel_id by {
                if i < m {
                    assert(t.channels[i] == s.channels[i]);
                }
            }
            assert forall|i: int, j: int| 0 <= i < j < t.channels.len() implies (
            #[trigger] t.channels[i]).id != (#[trigger] t.channels[j]).id && t.channels[i].name@
                != t.channels[j].name@ by {
                if j < m {
                    assert(s.channels[i].id != s.channels[j].id);
                } else {
                    assert(t.channels[i] == s.channels[i]);
                    assert(has_channel_named(s.channels, s.channels[i].name@));
                }
            }
        }
        // the fresh channel id is referenced by no old membership row
        assert forall|i: int, j: int| 0 <= i < j < t.members.len() implies (
        #[trigger] t.members[i]) != (#[trigger] t.members[j]) by {
            if j < mm {
                assert(s.members[i] != s.members[j]);
            } else {
                assert(t.members[i] == s.members[i]);
                assert(has_channel(s.channels, s.members[i].channel_id));
                let w = choose|w: int|
                    0 <= w < s.channels.len() && (#[trigger] s.channels[w]).id
                        == s.members[i].channel_id;
                assert(s.channels[w].id < s.next_channel_id);
            }
        }
        // every membership row references an existing channel and user
        assert forall|i: int| 0 <= i < t.members.len() implies has_channel(
            t.channels,
            (#[trigger] t.members[i]).channel_id,
        ) && has_user_id(t.users, t.members[i].user_id) by {
            if i < mm {
                assert(t.members[i] == s.members[i]);
                assert(has_channel(s.channels, s.members[i].channel_id));
                assert(has_user_id(s.users, s.members[i].user_id));
            } else {
                assert(has_channel(t.channels, cid));
            }
        }
        // every owner, old and new, is a member
        lemma_channel_owner_member_weaken(s.channels, s.members, t.members);
        assert forall|i: int| 0 <= i < t.channels.len() implies has_member(
            t.members,
            (#[trigger] t.channels[i]).owner,
            t.channels[i].id,
        ) by {
            if i < m {
                assert(t.channels[i] == s.channels[i]);
                assert(has_member(t.members, s.channels[i].owner, s.channels[i].id));
            } else {
                assert(has_member(t.members, caller, cid));
            }
        }
        assert(t =~= (DbSnap {
            channels: s.channels.push(chanrow),
            members: s.members.push(memrow),
            next_channel_id: (s.next_channel_id + 1) as i128,
            ..s
        }));
    }
    Ok(())
}

/// Add the named user to the named channel; the acting caller must be a
/// registered user.
pub fn add_user(db: &mut Db, caller: UserId, channel: String, user_name: String) -> (r: Result<
    (),
    CmdError,
>)
    requires
        old(db)@.wf(),
    ensures
        final(db)@.wf(),
        ({
            let s = old(db)@;
            let chan_ok = has_channel_named(s.channels, channel@);
            let cid = s.channels[channel_ix_named(s.channels, channel@)].id;
            let actor_ok = has_user_id(s.users, caller);
            let target_ok = has_user_named(s.users, user_name@);
            let target = user_id_named(s.users, user_name@);
            &&& (r == Err::<(), CmdError>(CmdError::NotFound) <==> !chan_ok || (chan_ok && actor_ok
                && !target_ok))
            &&& (r == Err::<(), CmdError>(CmdError::NotRegistered) <==> chan_ok && !actor_ok)
            &&& (r == Err::<(), CmdError>(CmdError::AlreadyMember) <==> chan_ok && actor_ok
                && target_ok && has_member(s.members, target, cid))
            &&& (r is Ok <==> chan_ok && actor_ok && target_ok && !has_member(
                s.members,
                target,
                cid,
            ))
            &&& (r is Err ==> *final(db) == *old(db))
            &&& (r is Ok ==> final(db)@ == (DbSnap {
                members: s.members.push((Member { user_id: target, channel_id: cid })),
                ..s
            }))
        }),
{
    let cix = match find_channel_by_name(db, &channel) {
        Some(i) => i,
        None => {
            return Err(CmdError::NotFound);
        },
    };
    let cid = db.channels[cix].id;
    if find_user_by_id(db, caller).is_none() {
        return Err(CmdError::NotRegistered);
    }
    let tix = match find_user_by_name(db, &user_name) {
        Some(i) => i,
        None => {
            return Err(CmdError::NotFound);
        },
    };
    let target = db.users[tix].id;
    if find_member(db, target, cid).is_some() {
        return Err(CmdError::AlreadyMember);
    }
    let ghost s = db@;
    db.members.push(Member { user_id: target, channel_id: cid });
    proof {
        let t = db@;
        let mm = s.members.len() as int;
        let memrow = t.members[mm];
        assert(memrow == (Member { user_id: target, channel_id: cid }));
        lemma_members_push(s.members, memrow);
        assert forall|i: int, j: int| 0 <= i < j < t.members.len() implies (
        #[trigger] t.members[i]) != (#[trigger] t.members[j]) by {
            if j < mm {
                assert(s.members[i] != s.members[j]);
            } else {
                assert(t.members[i] == s.members[i]);
                assert(has_member(s.members, s.members[i].user_id, s.members[i].channel_id));
            }
        }
        assert forall|i: int| 0 <= i < t.members.len() implies has_channel(
            t.channels,
            (#[trigger] t.members[i]).channel_id,
        ) && has_user_id(t.users, t.members[i].user_id) by {
            if i < mm {
                assert(t.members[i] == s.members[i]);
                assert(has_channel(s.channels, s.members[i].channel_id));
                assert(has_user_id(s.users, s.members[i].user_id));
            } else {
                assert(has_channel(s.channels, cid));
                assert(has_user_id(s.users, target));
            }
        }
        lemma_channel_owner_member_weaken(s.channels, s.members, t.members);
        assert(t =~= (DbSnap { members: s.members.push(memrow), ..s }));
    }
    Ok(())
}

/// Remove the named user from the named channel. Only the owner may
/// remove a member; the owner may remove itself only as the last member,
/// which deletes the channel in the same atomic step.
pub fn remove_user(db: &mut Db, caller: UserId, channel: String, user_name: String) -> (r: Result<
    (),
    CmdError,
>)
    requires
        old(db)@.wf(),
    ensures
        final(db)@.wf(),
        ({
            let s = old(db)@;
            let chan_ok = has_channel_named(s.channels, channel@);
            let cix = channel_ix_named(s.channels, channel@);
            let cid = s.channels[cix].id;
            let owned = chan_ok && s.channels[cix].owner == caller;
            let target_ok = has_user_named(s.users, user_name@);
            let target = user_id_named(s.users, user_name@);
            let is_member = has_member(s.members, target, cid);
            let last = !has_other_member(s.members, cid, caller);
            &&& (r == Err::<(), CmdError>(CmdError::NotFound) <==> !chan_ok || (owned
                && !target_ok))
            &&& (r == Err::<(), CmdError>(CmdError::NotOwner) <==> chan_ok && s.channels[cix].owner
                != caller)
            &&& (r == Err::<(), CmdError>(CmdError::NotMember) <==> owned && target_ok
                && !is_member)
            &&& (r == Err::<(), CmdError>(CmdError::OwnerMustTransferFirst) <==> owned && target_ok
                && is_member && target == caller && !last)
            &&& (r is Ok <==> owned && target_ok && is_member && (target != caller || last))
            &&& (r is Err ==> *final(db) == *old(db))
            &&& (r is Ok && target != caller ==> final(db)@ == (DbSnap {
                members: s.members.remove(member_ix(s.members, target, cid)),
                ..s
            }))
            &&& (r is Ok && target == caller ==> final(db)@ == (DbSnap {
                channels: s.channels.remove(cix),
                members: s.members.remove(member_ix(s.members, caller, cid)),
                ..s
            }))
        }),
{
    let cix = match find_channel_by_name(db, &channel) {
        Some(i) => i,
        None => {
            return Err(CmdError::NotFound);
        },
    };
    let cid = db.channels[cix].id;
    if !(db.channels[cix].owner == caller) {
        return Err(CmdError::NotOwner);
    }
    let tix = match find_user_by_name(db, &user_name) {
        Some(i) => i,
        None => {
            return Err(CmdError::NotFound);
        },
    };
    let target = db.users[tix].id;
    let mix = match find_member(db, target, cid) {
        Some(i) => i,
        None => {
            return Err(CmdError::NotMember);
        },
    };
    if target == caller {
        if other_member_exists(db, cid, caller) {
            return Err(CmdError::OwnerMustTransferFirst);
        }
        let ghost s = db@;
        db.channels.remove(cix);
        db.members.remove(mix);
        proof {
            let t = db@;
            lemma_channel_removed(s.channels, s.next_channel_id as int, cix as int);
            lemma_member_removed(s.members, mix as int);
            assert(s.members[mix as int] == (Member { user_id: caller, channel_id: cid }));
            // surviving members reference surviving channels: no other row
            // of the deleted channel existed
            assert forall|i: int| 0 <= i < t.members.len() implies has_channel(
                t.channels,
                (#[trigger] t.members[i]).channel_id,
            ) && has_user_id(t.users, t.members[i].user_id) by {
                let i0: int = if i < mix as int {
                    i
                } else {
                    i + 1
                };
                assert(t.members[i] == s.members[i0]);
                assert(has_channel(s.channels, s.members[i0].channel_id));
                assert(has_user_id(s.users, s.members[i0].user_id));
                if s.members[i0].channel_id == cid {
                    if s.members[i0].user_id != caller {
                        assert(has_other_member(s.members, cid, caller));
                    } else {
                        assert(s.members[i0] == s.members[mix as int]);
                        assert(i0 != mix as int);
                        assert(false);
                    }
                }
            }
            // surviving channels keep their owner membership: their ids
            // differ from the deleted channel's id
            assert forall|i: int| 0 <= i < t.channels.len() implies has_member(
                t.members,
                (#[trigger] t.channels[i]).owner,
                t.channels[i].id,
            ) by {
                let i0: int = if i < cix as int {
                    i
                } else {
                    i + 1
                };
                assert(t.channels[i] == s.channels[i0]);
                assert(has_member(s.members, s.channels[i0].owner, s.channels[i0].id));
                assert(s.channels[i0].id != cid);
            }
            assert(t =~= (DbSnap {
                channels: s.channels.remove(cix as int),
                members: s.members.remove(mix as int),
                ..s
            }));
        }
        Ok(())
    } else {
        let ghost s = db@;
        db.members.remove(mix);
        proof {
            let t = db@;
            lemma_member_removed(s.members, mix as int);
            assert(s.members[mix as int] == (Member { user_id: target, channel_id: cid }));
            assert forall|i: int| 0 <= i < t.members.len() implies has_channel(
                t.channels,
                (#[trigger] t.members[i]).channel_id,
            ) && has_user_id(t.users, t.members[i].user_id) by {
                let i0: int = if i < mix as int {
                    i
                } else {
                    i + 1
                };
                assert(t.members[i] == s.members[i0]);
                assert(has_channel(s.channels, s.members[i0].channel_id));
                assert(has_user_id(s.users, s.members[i0].user_id));
            }
            // every owner's membership row survives: the removed row names
            // a non-owner of its channel
            assert forall|i: int| 0 <= i < t.channels.len() implies has_member(
                t.members,
                (#[trigger] t.channels[i]).owner,
                t.channels[i].id,
            ) by {
                assert(has_member(s.members, s.channels[i].owner, s.channels[i].id));
                if i == cix as int {
                    assert(s.channels[i].owner == caller);
                } else {
                    assert(s.channels[i].id != cid);
                }
            }
            assert(t =~= (DbSnap { members: s.members.remove(mix as int), ..s }));
        }
        Ok(())
    }
}

/// Create a guild with a fresh sequential id and the caller as its owner
/// and first member, in one atomic step.
pub fn create_guild(db: &mut Db, caller: UserId, name: String, now: i64) -> (r: Result<
    (),
    CmdError,
>)
    requires
        old(db)@.wf(),
        old(db)@.next_guild_id < i128::MAX,
    ensures
        final(db)@.wf(),
        ({
            let s = old(db)@;
            &&& (r == Err::<(), CmdError>(CmdError::NotFound) <==> !has_user_id(s.users, caller))
            &&& (r is Ok <==> has_user_id(s.users, caller))
            &&& (r is Err ==> *final(db) == *old(db))
            &&& (r is Ok ==> final(db)@ == (DbSnap {
                guilds: s.guilds.push(
                    (Guild { id: s.next_guild_id, name: name, created_at: now, owner: caller }),
                ),
                guild_members: s.guild_members.push(
                    (GuildMember { user_id: caller, guild_id: s.next_guild_id }),
                ),
                next_guild_id: (s.next_guild_id + 1) as i128,
                ..s
            }))
        }),
{
    if find_user_by_id(db, caller).is_none() {
        return Err(CmdError::NotFound);
    }
    let ghost s = db@;
    let gid = db.next_guild_id;
    db.guilds.push(Guild { id: gid, name, created_at: now, owner: caller });
    db.guild_members.push(GuildMember { user_id: caller, guild_id: gid });
    db.next_guild_id = gid + 1;
    proof {
        let t = db@;
        let m = s.guilds.len() as int;
        let mm = s.guild_members.len() as int;
        let guildrow = t.guilds[m];
        let memrow = t.guild_members[mm];
        assert(memrow == (GuildMember { user_id: caller, guild_id: gid }));
        lemma_guilds_push(s.guilds, guildrow);
        lemma_guild_members_push(s.guild_members, memrow);
        assert(crate::db::guilds_wf(t.guilds, t.next_guild_id as int)) by {
            assert forall|i: int| 0 <= i < t.guilds.len() implies 1 <= (#[trigger] t.guilds[i]).id
                < t.next_guild_id by {
                if i < m {
                    assert(t.guilds[i] == s.guilds[i]);
                }
            }
            assert forall|i: int, j: int| 0 <= i < j < t.guilds.len() implies (
            #[trigger] t.guilds[i]).id != (#[trigger] t.guilds[j]).id by {
                if j < m {
                    assert(s.guilds[i].id != s.guilds[j].id);
                } else {
                    assert(t.guilds[i] == s.guilds[i]);
                }
            }
        }
        // the fresh guild id is referenced by no old membership row
        assert forall|i: int, j: int| 0 <= i < j < t.guild_members.len() implies (
        #[trigger] t.guild_members[i]) != (#[trigger] t.guild_members[j]) by {
            if j < mm {
                assert(s.guild_members[i] != s.guild_members[j]);
            } else {
                assert(t.guild_members[i] == s.guild_members[i]);
                assert(has_guild(s.guilds, s.guild_members[i].guild_id));
                let w = choose|w: int|
                    0 <= w < s.guilds.len() && (#[trigger] s.guilds[w]).id
                        == s.guild_members[i].guild_id;
                assert(s.guilds[w].id < s.next_guild_id);
            }
        }
        assert forall|i: int| 0 <= i < t.guild_members.len() implies has_user_id(
            t.users,
            (#[trigger] t.guild_members[i]).user_id,
        ) && has_guild(t.guilds, t.guild_members[i].guild_id) by {
            if i < mm {
                assert(t.guild_members[i] == s.guild_members[i]);
                assert(has_user_id(s.users, s.guild_members[i].user_id));
                assert(has_guild(s.guilds, s.guild_members[i].guild_id));
            } else {
                assert(has_user_id(s.users, caller));
                assert(has_guild(t.guilds, gid));
            }
        }
        lemma_guild_channels_refs_weaken(s.guild_channels, s.guilds, t.guilds);
        lemma_roles_refs_weaken(s.guild_roles, s.guilds, t.guilds);
        assert(t =~= (DbSnap {
            guilds: s.guilds.push(guildrow),
            guild_members: s.guild_members.push(memrow),
            next_guild_id: (s.next_guild_id + 1) as i128,
            ..s
        }));
    }
    Ok(())
}

/// Join an existing guild; fails if the caller is already a member.
pub fn join_guild(db: &mut Db, caller: UserId, guild_id: i128) -> (r: Result<(), CmdError>)
    requires
        old(db)@.wf(),
    ensures
        final(db)@.wf(),
        ({
            let s = old(db)@;
            let user_ok = has_user_id(s.users, caller);
            let guild_ok = has_guild(s.guilds, guild_id);
            &&& (r == Err::<(), CmdError>(CmdError::NotFound) <==> !user_ok || (user_ok
                && !guild_ok))
            &&& (r == Err::<(), CmdError>(CmdError::AlreadyMember) <==> user_ok && guild_ok
                && has_guild_member(s.guild_members, caller, guild_id))
            &&& (r is Ok <==> user_ok && guild_ok && !has_guild_member(
                s.guild_members,
                caller,
                guild_id,
            ))
            &&& (r is Err ==> *final(db) == *old(db))
            &&& (r is Ok ==> final(db)@ == (DbSnap {
                guild_members: s.guild_members.push(
                    (GuildMember { user_id: caller, guild_id }),
                ),
                ..s
            }))
        }),
{
    if find_user_by_id(db, caller).is_none() {
        return Err(CmdError::NotFound);
    }
    if find_guild(db, guild_id).is_none() {
        return Err(CmdError::NotFound);
    }
    if guild_member_exists(db, caller, guild_id) {
        return Err(CmdError::AlreadyMember);
    }
    let ghost s = db@;
    db.guild_members.push(GuildMember { user_id: caller, guild_id });
    proof {
        let t = db@;
        let mm = s.guild_members.len() as int;
        let memrow = t.guild_members[mm];
        assert(memrow == (GuildMember { user_id: caller, guild_id }));
        lemma_guild_members_push(s.guild_members, memrow);
        assert forall|i: int, j: int| 0 <= i < j < t.guild_members.len() implies (
        #[trigger] t.guild_members[i]) != (#[trigger] t.guild_members[j]) by {
            if j < mm {
                assert(s.guild_members[i] != s.guild_members[j]);
            } else {
                assert(t.guild_members[i] == s.guild_members[i]);
                assert(has_guild_member(
                    s.guild_members,
                    s.guild_members[i].user_id,
                    s.guild_members[i].guild_id,
                ));
            }
        }
        assert forall|i: int| 0 <= i < t.guild_members.len() implies has_user_id(
            t.users,
            (#[trigger] t.guild_members[i]).user_id,
        ) && has_guild(t.guilds, t.guild_members[i].guild_id) by {
            if i < mm {
                assert(t.guild_members[i] == s.guild_members[i]);
                assert(has_user_id(s.users, s.guild_members[i].user_id));
                assert(has_guild(s.guilds, s.guild_members[i].guild_id));
            } else {
                assert(has_user_id(s.users, caller));
                assert(has_guild(s.guilds, guild_id));
            }
        }
        assert(t =~= (DbSnap { guild_members: s.guild_members.push(memrow), ..s }));
    }
    Ok(())
}

/// Create a channel inside a guild; only the guild owner may do so.
pub fn create_guild_channel(db: &mut Db, caller: UserId, guild_id: i128, name: String, now: i64) -> (r:
    Result<(), CmdError>)
    requires
        old(db)@.wf(),
        old(db)@.next_guild_channel_id < i128::MAX,
    ensures
        final(db)@.wf(),
        ({
            let s = old(db)@;
            let guild_ok = has_guild(s.guilds, guild_id);
            let owner = s.guilds[guild_ix(s.guilds, guild_id)].owner;
            &&& (r == Err::<(), CmdError>(CmdError::NotFound) <==> !guild_ok)
            &&& (r == Err::<(), CmdError>(CmdError::NotOwner) <==> guild_ok && owner != caller)
            &&& (r is Ok <==> guild_ok && owner == caller)
            &&& (r is Err ==> *final(db) == *old(db))
            &&& (r is Ok ==> final(db)@ == (DbSnap {
                guild_channels: s.guild_channels.push(
                    (GuildChannel {
                        id: s.next_guild_channel_id,
                        guild_id,
                        name: name,
                        created_at: now,
                    }),
                ),
                next_guild_channel_id: (s.next_guild_channel_id + 1) as i128,
                ..s
            }))
        }),
{
    let gix = match find_guild(db, guild_id) {
        Some(i) => i,
        None => {
            return Err(CmdError::NotFound);
        },
    };
    if !(db.guilds[gix].owner == caller) {
        return Err(CmdError::NotOwner);
    }
    let ghost s = db@;
    let cid = db.next_guild_channel_id;
    db.guild_channels.push(GuildChannel { id: cid, guild_id, name, created_at: now });
    db.next_guild_channel_id = cid + 1;
    proof {
        let t = db@;
        let m = s.guild_channels.len() as int;
        let row = t.guild_channels[m];
        lemma_guild_channels_push(s.guild_channels, row);
        assert(crate::db::guild_channels_unique(t.guild_channels, t.next_guild_channel_id as int))
            by {
            assert forall|i: int| 0 <= i < t.guild_channels.len() implies 1 <= (
            #[trigger] t.guild_channels[i]).id < t.next_guild_channel_id by {
                if i < m {
                    assert(t.guild_channels[i] == s.guild_channels[i]);
                }
            }
            assert forall|i: int, j: int| 0 <= i < j < t.guild_channels.len() implies (
            #[trigger] t.guild_channels[i]).id != (#[trigger] t.guild_channels[j]).id by {
                if j < m {
                    assert(s.guild_channels[i].id != s.guild_channels[j].id);
                } else {
                    assert(t.guild_channels[i] == s.guild_channels[i]);
                }
            }
        }
        assert forall|i: int| 0 <= i < t.guild_channels.len() implies has_guild(
            t.guilds,
            (#[trigger] t.guild_channels[i]).guild_id,
        ) by {
            if i < m {
                assert(t.guild_channels[i] == s.guild_channels[i]);
                assert(has_guild(s.guilds, s.guild_channels[i].guild_id));
            } else {
                assert(has_guild(s.guilds, guild_id));
            }
        }
        assert(t =~= (DbSnap {
            guild_channels: s.guild_channels.push(row),
            next_guild_channel_id: (s.next_guild_channel_id + 1) as i128,
            ..s
        }));
    }
    Ok(())
}

/// Delete a guild channel; only the guild owner may do so. Messages
/// already sent to the channel remain in the append-only log.
pub fn delete_guild_channel(db: &mut Db, caller: UserId, channel_id: i128) -> (r: Result<
    (),
    CmdError,
>)
    requires
        old(db)@.wf(),
    ensures
        final(db)@.wf(),
        ({
            let s = old(db)@;
            let chan_ok = has_guild_channel(s.guild_channels, channel_id);
            let cix = crate::db::guild_channel_ix(s.guild_channels, channel_id);
            let owner = s.guilds[guild_ix(s.guilds, s.guild_channels[cix].guild_id)].owner;
            &&& (r == Err::<(), CmdError>(CmdError::NotFound) <==> !chan_ok)
            &&& (r == Err::<(), CmdError>(CmdError::NotOwner) <==> chan_ok && owner != caller)
            &&& (r is Ok <==> chan_ok && owner == caller)
            &&& (r is Err ==> *final(db) == *old(db))
            &&& (r is Ok ==> final(db)@ == (DbSnap { guild_channels: s.guild_channels.remove(cix), ..s }))
        }),
{
    let cix = match find_guild_channel(db, channel_id) {
        Some(i) => i,
        None => {
            return Err(CmdError::NotFound);
        },
    };
    let guild_id = db.guild_channels[cix].guild_id;
    proof {
        assert(has_guild(db@.guilds, guild_id));
    }
    let gix = match find_guild(db, guild_id) {
        Some(i) => i,
        None => {
            // unreachable: every guild channel references an existing guild
            return Err(CmdError::NotFound);
        },
    };
    if !(db.guilds[gix].owner == caller) {
        return Err(CmdError::NotOwner);
    }
    let ghost s = db@;
    db.guild_channels.remove(cix);
    proof {
        let t = db@;
        lemma_guild_channel_removed(s.guild_channels, s.next_guild_channel_id as int, cix as int);
        assert forall|i: int| 0 <= i < t.guild_channels.len() implies has_guild(
            t.guilds,
            (#[trigger] t.guild_channels[i]).guild_id,
        ) by {
            let i0: int = if i < cix as int {
                i
            } else {
                i + 1
            };
            assert(t.guild_channels[i] == s.guild_channels[i0]);
            assert(has_guild(s.guilds, s.guild_channels[i0].guild_id));
        }
        assert(t =~= (DbSnap { guild_channels: s.guild_channels.remove(cix as int), ..s }));
    }
    Ok(())
}

} // verus!
