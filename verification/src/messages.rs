//! The append-only message logs, plain and guild-scoped.
//!
//! A message is appended with a fresh monotonically increasing id and the
//! host-supplied commit timestamp; no edit or delete operation exists.
//! Posting to a guild channel additionally resolves the caller's roles,
//! with the guild owner bypassing the check.

use vstd::prelude::*;
use crate::db::{
    channel_ix_named, find_channel_by_name, find_guild, find_guild_channel, find_user_by_id,
    guild_channel_ix, guild_ix, has_channel_named, has_guild, has_guild_channel, has_user_id,
    user_ix, user_may_write, Db, DbSnap,
};
use crate::errors::CmdError;
use crate::ids::UserId;
use crate::permissions::has_write_grant;
use crate::rows::{GuildMessage, Message};
use crate::validation::{valid_message_chars, validate_message};

verus! {

/// Append a message to the named channel; the sender is recorded under
/// the name it has at posting time.
pub fn send_message(db: &mut Db, caller: UserId, text: String, channel: String, now: i64) -> (r:
    Result<(), CmdError>)
    requires
        old(db)@.wf(),
        old(db)@.next_message_id < i128::MAX,
    ensures
        final(db)@.wf(),
        ({
            let s = old(db)@;
            let registered = has_user_id(s.users, caller);
            let chan_ok = has_channel_named(s.channels, channel@);
            let cid = s.channels[channel_ix_named(s.channels, channel@)].id;
            let valid = valid_message_chars(text@);
            &&& (r == Err::<(), CmdError>(CmdError::NotRegistered) <==> !registered)
            &&& (r == Err::<(), CmdError>(CmdError::NotFound) <==> registered && !chan_ok)
            &&& (r == Err::<(), CmdError>(CmdError::InvalidMessage) <==> registered && chan_ok
                && !valid)
            &&& (r is Ok <==> registered && chan_ok && valid)
            &&& (r is Err ==> *final(db) == *old(db))
            &&& (r is Ok ==> final(db)@ == (DbSnap {
                messages: s.messages.push(
                    (Message {
                        id: s.next_message_id,
                        sender: s.users[user_ix(s.users, caller)].name,
                        channel_id: cid,
                        sent: now,
                        text: text,
                    }),
                ),
                next_message_id: (s.next_message_id + 1) as i128,
                ..s
            }))
        }),
{
    let uix = match find_user_by_id(db, caller) {
        Some(i) => i,
        None => {
            return Err(CmdError::NotRegistered);
        },
    };
    let cix = match find_channel_by_name(db, &channel) {
        Some(i) => i,
        None => {
            return Err(CmdError::NotFound);
        },
    };
    let cid = db.channels[cix].id;
    if !validate_message(text.as_str()) {
        return Err(CmdError::InvalidMessage);
    }
    let ghost s = db@;
    let sender = db.users[uix].name.clone();
    let mid = db.next_message_id;
    db.messages.push(Message { id: mid, sender, channel_id: cid, sent: now, text });
    db.next_message_id = mid + 1;
    proof {
        let t = db@;
        let m = s.messages.len() as int;
        assert(crate::db::messages_wf(t.messages, t.next_message_id as int)) by {
            assert forall|i: int| 0 <= i < t.messages.len() implies 1 <= (
            #[trigger] t.messages[i]).id < t.next_message_id by {
                if i < m {
                    assert(t.messages[i] == s.messages[i]);
                }
            }
            assert forall|i: int, j: int| 0 <= i < j < t.messages.len() implies (
            #[trigger] t.messages[i]).id < (#[trigger] t.messages[j]).id by {
                if j < m {
                    assert(s.messages[i].id < s.messages[j].id);
                } else {
                    assert(t.messages[i] == s.messages[i]);
                }
            }
        }
        assert(t =~= (DbSnap {
            messages: s.messages.push(t.messages[m]),
            next_message_id: (s.next_message_id + 1) as i128,
            ..s
        }));
    }
    Ok(())
}

/// Append a message to a guild channel; non-owners need a role with a
/// write grant for the channel.
pub fn send_guild_message(db: &mut Db, caller: UserId, channel_id: i128, text: String, now: i64) -> (r:
    Result<(), CmdError>)
    requires
        old(db)@.wf(),
        old(db)@.next_guild_message_id < i128::MAX,
    ensures
        final(db)@.wf(),
        ({
            let s = old(db)@;
            let registered = has_user_id(s.users, caller);
            let chan_ok = has_guild_channel(s.guild_channels, channel_id);
            let owner = s.guilds[guild_ix(
                s.guilds,
                s.guild_channels[guild_channel_ix(s.guild_channels, channel_id)].guild_id,
            )].owner;
            let allowed = owner == caller || user_may_write(
                s.guild_member_roles,
                s.guild_permissions,
                caller,
                channel_id,
            );
            let valid = valid_message_chars(text@);
            &&& (r == Err::<(), CmdError>(CmdError::NotRegistered) <==> !registered)
            &&& (r == Err::<(), CmdError>(CmdError::NotFound) <==> registered && !chan_ok)
            &&& (r == Err::<(), CmdError>(CmdError::PermissionDenied) <==> registered && chan_ok
                && !allowed)
            &&& (r == Err::<(), CmdError>(CmdError::InvalidMessage) <==> registered && chan_ok
                && allowed && !valid)
            &&& (r is Ok <==> registered && chan_ok && allowed && valid)
            &&& (r is Err ==> *final(db) == *old(db))
            &&& (r is Ok ==> final(db)@ == (DbSnap {
                guild_messages: s.guild_messages.push(
                    (GuildMessage {
                        id: s.next_guild_message_id,
                        sender: s.users[user_ix(s.users, caller)].name,
                        channel_id,
                        sent: now,
                        text: text,
                    }),
                ),
                next_guild_message_id: (s.next_guild_message_id + 1) as i128,
                ..s
            }))
        }),
{
    let uix = match find_user_by_id(db, caller) {
        Some(i) => i,
        None => {
            return Err(CmdError::NotRegistered);
        },
    };
    let cix = match find_guild_channel(db, channel_id) {
        Some(i) => i,
        None => {
            return Err(CmdError::NotFound);
        },
    };
    let guild_id = db.guild_channels[cix].guild_id;
    proof {
        assert(has_guild(db@.guilds, guild_id));
    }
    let gix = match find_guild(db, guild_id) {
        Some(i) => i,
        None => {
            // unreachable: every guild channel references an existing guild
            return Err(CmdError::NotFound);
        },
    };
    if !(db.guilds[gix].owner == caller) {
        if !has_write_grant(db, caller, channel_id) {
            return Err(CmdError::PermissionDenied);
        }
    }
    if !validate_message(text.as_str()) {
        return Err(CmdError::InvalidMessage);
    }
    let ghost s = db@;
    let sender = db.users[uix].name.clone();
    let mid = db.next_guild_message_id;
    db.guild_messages.push(GuildMessage { id: mid, sender, channel_id, sent: now, text });
    db.next_guild_message_id = mid + 1;
    proof {
        let t = db@;
        let m = s.guild_messages.len() as int;
        assert(crate::db::guild_messages_wf(t.guild_messages, t.next_guild_message_id as int)) by {
            assert forall|i: int| 0 <= i < t.guild_messages.len() implies 1 <= (
            #[trigger] t.guild_messages[i]).id < t.next_guild_message_id by {
                if i < m {
                    assert(t.guild_messages[i] == s.guild_messages[i]);
                }
            }
            assert forall|i: int, j: int| 0 <= i < j < t.guild_messages.len() implies (
            #[trigger] t.guild_messages[i]).id < (#[trigger] t.guild_messages[j]).id by {
                if j < m {
                    assert(s.guild_messages[i].id < s.guild_messages[j].id);
                } else {
                    assert(t.guild_messages[i] == s.guild_messages[i]);
                }
            }
        }
        assert(t =~= (DbSnap {
            guild_messages: s.guild_messages.push(t.guild_messages[m]),
            next_guild_message_id: (s.next_guild_message_id + 1) as i128,
            ..s
        }));
    }
    Ok(())
}

} // verus!
