//! The rows of the table store, one struct per persisted entity.
//!
//! Identities are [`crate::ids::UserId`] values supplied by the host;
//! timestamps are host-supplied commit times in microseconds; entity ids
//! are sequential values assigned by the store at insertion.

use vstd::prelude::*;
use crate::ids::{TwoUsers, UserId};

verus! {

/// One registered user. A row exists only once the identity has chosen a
/// name; the name is unique across all users.
pub struct User {
    pub id: UserId,
    pub name: String,
    pub display_name: String,
    pub online: bool,
    pub created_at: i64,
}

/// A friendship relation between two users, stored in canonical order
/// (`user_a` is the smaller identity).
#[derive(Clone, Copy, PartialEq, Eq, Structural, Debug)]
pub struct Friend {
    pub user_a: UserId,
    pub user_b: UserId,
}

impl Friend {
    /// The canonical pair key under which the relation is looked up.
    pub open spec fn pair(self) -> TwoUsers {
        TwoUsers { id_a: self.user_a, id_b: self.user_b }
    }
}

/// An outstanding friendship request, stored in canonical order like
/// [`Friend`]; at most one exists per unordered pair.
#[derive(Clone, Copy, PartialEq, Eq, Structural, Debug)]
pub struct FriendRequest {
    pub user_a: UserId,
    pub user_b: UserId,
}

impl FriendRequest {
    /// The canonical pair key under which the request is looked up.
    pub open spec fn pair(self) -> TwoUsers {
        TwoUsers { id_a: self.user_a, id_b: self.user_b }
    }
}

/// A channel with a unique name; its owner is always one of its members.
pub struct Channel {
    pub id: i128,
    pub name: String,
    pub created_at: i64,
    pub owner: UserId,
}

/// Membership of one user in one channel, unique per (user, channel).
#[derive(Clone, Copy, PartialEq, Eq, Structural, Debug)]
pub struct Member {
    pub user_id: UserId,
    pub channel_id: i128,
}

/// A message in a channel: append-only, never mutated once created.
pub struct Message {
    pub id: i128,
    pub sender: String,
    pub channel_id: i128,
    pub sent: i64,
    pub text: String,
}

/// A guild: a container of channels with an owner and a role-based
/// permission system.
pub struct Guild {
    pub id: i128,
    pub name: String,
    pub created_at: i64,
    pub owner: UserId,
}

/// A channel belonging to exactly one guild.
pub struct GuildChannel {
    pub id: i128,
    pub guild_id: i128,
    pub name: String,
    pub created_at: i64,
}

/// Membership of one user in one guild, unique per (user, guild).
#[derive(Clone, Copy, PartialEq, Eq, Structural, Debug)]
pub struct GuildMember {
    pub user_id: UserId,
    pub guild_id: i128,
}

/// A grant over one guild channel: permission to read it or to write it.
#[derive(Clone, Copy, PartialEq, Eq, Structural, Debug)]
pub enum Permission {
    /// Read the guild channel with this id.
    Read(i128),
    /// Write to the guild channel with this id.
    Write(i128),
}

/// A role defined in a guild, with a display name and a color.
///
/// Colors use 32 bits so clients can use 10-bit depth channels;
/// transparency is not supported.
pub struct GuildRole {
    pub id: i128,
    pub guild_id: i128,
    pub name: String,
    pub color: u32,
}

/// A permission attached to a role; the (role, permission) pair is
/// unique — no duplicate grants.
#[derive(Clone, Copy, PartialEq, Eq, Structural, Debug)]
pub struct GuildPermission {
    pub id: i128,
    pub role_id: i128,
    pub permission: Permission,
}

/// Assignment of a role to a user, unique per (user, role); removed when
/// the role is removed.
#[derive(Clone, Copy, PartialEq, Eq, Structural, Debug)]
pub struct GuildMemberRole {
    pub user_id: UserId,
    pub role_id: i128,
}

/// A message in a guild channel: append-only, never mutated once created.
pub struct GuildMessage {
    pub id: i128,
    pub sender: String,
    pub channel_id: i128,
    pub sent: i64,
    pub text: String,
}

} // verus!
