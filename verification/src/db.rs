//! The table state that the command handlers read and mutate, its
//! mathematical view, and the well-formedness invariant that every
//! committed state satisfies.
//!
//! The transactional host supplies durability and serialization; here the
//! store is explicit: one vector per table, plus the counters from which
//! sequential ids are assigned. [`DbSnap`] is the view of a state as plain
//! sequences, and [`DbSnap::wf`] collects the invariants of every table:
//! unique keys, canonical pair ordering, friendship/request exclusivity,
//! no memberless channel, and no permission or assignment referencing a
//! removed role.
//!
//! All predicates are spec functions over the row sequences themselves,
//! so a handler that leaves a table untouched keeps every fact about it
//! for free.

use vstd::prelude::*;
use crate::ids::{TwoUsers, UserId};
use crate::rows::{
    Channel, Friend, FriendRequest, Guild, GuildChannel, GuildMember, GuildMemberRole,
    GuildMessage, GuildPermission, GuildRole, Member, Message, Permission, User,
};

verus! {

/// The whole table store: one vector per entity table and one counter per
/// auto-assigned id sequence.
pub struct Db {
    pub users: Vec<User>,
    pub friends: Vec<Friend>,
    pub friend_requests: Vec<FriendRequest>,
    pub channels: Vec<Channel>,
    pub members: Vec<Member>,
    pub messages: Vec<Message>,
    pub guilds: Vec<Guild>,
    pub guild_channels: Vec<GuildChannel>,
    pub guild_members: Vec<GuildMember>,
    pub guild_roles: Vec<GuildRole>,
    pub guild_permissions: Vec<GuildPermission>,
    pub guild_member_roles: Vec<GuildMemberRole>,
    pub guild_messages: Vec<GuildMessage>,
    pub next_channel_id: i128,
    pub next_message_id: i128,
    pub next_guild_id: i128,
    pub next_guild_channel_id: i128,
    pub next_role_id: i128,
    pub next_permission_id: i128,
    pub next_guild_message_id: i128,
}

/// The view of a table store: each table as a sequence of rows.
#[verifier::ext_equal]
pub struct DbSnap {
    pub users: Seq<User>,
    pub friends: Seq<Friend>,
    pub friend_requests: Seq<FriendRequest>,
    pub channels: Seq<Channel>,
    pub members: Seq<Member>,
    pub messages: Seq<Message>,
    pub guilds: Seq<Guild>,
    pub guild_channels: Seq<GuildChannel>,
    pub guild_members: Seq<GuildMember>,
    pub guild_roles: Seq<GuildRole>,
    pub guild_permissions: Seq<GuildPermission>,
    pub guild_member_roles: Seq<GuildMemberRole>,
    pub guild_messages: Seq<GuildMessage>,
    pub next_channel_id: i128,
    pub next_message_id: i128,
    pub next_guild_id: i128,
    pub next_guild_channel_id: i128,
    pub next_role_id: i128,
    pub next_permission_id: i128,
    pub next_guild_message_id: i128,
}

impl View for Db {
    type V = DbSnap;

    open spec fn view(&self) -> DbSnap {
        DbSnap {
            users: self.users@,
            friends: self.friends@,
            friend_requests: self.friend_requests@,
            channels: self.channels@,
            members: self.members@,
            messages: self.messages@,
            guilds: self.guilds@,
            guild_channels: self.guild_channels@,
            guild_members: self.guild_members@,
            guild_roles: self.guild_roles@,
            guild_permissions: self.guild_permissions@,
            guild_member_roles: self.guild_member_roles@,
            guild_messages: self.guild_messages@,
            next_channel_id: self.next_channel_id,
            next_message_id: self.next_message_id,
            next_guild_id: self.next_guild_id,
            next_guild_channel_id: self.next_guild_channel_id,
            next_role_id: self.next_role_id,
            next_permission_id: self.next_permission_id,
            next_guild_message_id: self.next_guild_message_id,
        }
    }
}

// ---- lookups, one spec function per index of the store ----

/// Some user row carries this identity.
pub open spec fn has_user_id(users: Seq<User>, id: UserId) -> bool {
    exists|i: int| 0 <= i < users.len() && (#[trigger] users[i]).id == id
}

/// The index of the user row with this identity.
pub open spec fn user_ix(users: Seq<User>, id: UserId) -> int {
    choose|i: int| 0 <= i < users.len() && (#[trigger] users[i]).id == id
}

/// Some user row carries this unique name.
pub open spec fn has_user_named(users: Seq<User>, name: Seq<char>) -> bool {
    exists|i: int| 0 <= i < users.len() && (#[trigger] users[i]).name@ == name
}

/// The index of the user row with this name.
pub open spec fn user_ix_named(users: Seq<User>, name: Seq<char>) -> int {
    choose|i: int| 0 <= i < users.len() && (#[trigger] users[i]).name@ == name
}

/// The identity of the user with this name.
pub open spec fn user_id_named(users: Seq<User>, name: Seq<char>) -> UserId {
    users[user_ix_named(users, name)].id
}

/// A friendship row exists for this canonical pair.
pub open spec fn has_friend(friends: Seq<Friend>, k: TwoUsers) -> bool {
    exists|i: int| 0 <= i < friends.len() && (#[trigger] friends[i]).pair() == k
}

/// An outstanding friendship request exists for this canonical pair.
pub open spec fn has_request(requests: Seq<FriendRequest>, k: TwoUsers) -> bool {
    exists|i: int| 0 <= i < requests.len() && (#[trigger] requests[i]).pair() == k
}

/// The index of the request row for this canonical pair.
pub open spec fn request_ix(requests: Seq<FriendRequest>, k: TwoUsers) -> int {
    choose|i: int| 0 <= i < requests.len() && (#[trigger] requests[i]).pair() == k
}

/// A channel with this id exists.
pub open spec fn has_channel(channels: Seq<Channel>, id: i128) -> bool {
    exists|i: int| 0 <= i < channels.len() && (#[trigger] channels[i]).id == id
}

/// A channel with this unique name exists.
pub open spec fn has_channel_named(channels: Seq<Channel>, name: Seq<char>) -> bool {
    exists|i: int| 0 <= i < channels.len() && (#[trigger] channels[i]).name@ == name
}

/// The index of the channel row with this name.
pub open spec fn channel_ix_named(channels: Seq<Channel>, name: Seq<char>) -> int {
    choose|i: int| 0 <= i < channels.len() && (#[trigger] channels[i]).name@ == name
}

/// This user is a member of this channel.
pub open spec fn has_member(members: Seq<Member>, user_id: UserId, channel_id: i128) -> bool {
    exists|i: int|
        0 <= i < members.len() && (#[trigger] members[i]) == (Member { user_id, channel_id })
}

/// The index of the membership row of this user in this channel.
pub open spec fn member_ix(members: Seq<Member>, user_id: UserId, channel_id: i128) -> int {
    choose|i: int|
        0 <= i < members.len() && (#[trigger] members[i]) == (Member { user_id, channel_id })
}

/// The channel has a member other than this user.
pub open spec fn has_other_member(members: Seq<Member>, channel_id: i128, user_id: UserId) -> bool {
    exists|i: int|
        0 <= i < members.len() && (#[trigger] members[i]).channel_id == channel_id
            && members[i].user_id != user_id
}

/// A guild with this id exists.
pub open spec fn has_guild(guilds: Seq<Guild>, id: i128) -> bool {
    exists|i: int| 0 <= i < guilds.len() && (#[trigger] guilds[i]).id == id
}

/// The index of the guild row with this id.
pub open spec fn guild_ix(guilds: Seq<Guild>, id: i128) -> int {
    choose|i: int| 0 <= i < guilds.len() && (#[trigger] guilds[i]).id == id
}

/// A guild channel with this id exists.
pub open spec fn has_guild_channel(gcs: Seq<GuildChannel>, id: i128) -> bool {
    exists|i: int| 0 <= i < gcs.len() && (#[trigger] gcs[i]).id == id
}

/// The index of the guild channel row with this id.
pub open spec fn guild_channel_ix(gcs: Seq<GuildChannel>, id: i128) -> int {
    choose|i: int| 0 <= i < gcs.len() && (#[trigger] gcs[i]).id == id
}

/// This user is a member of this guild.
pub open spec fn has_guild_member(gms: Seq<GuildMember>, user_id: UserId, guild_id: i128) -> bool {
    exists|i: int|
        0 <= i < gms.len() && (#[trigger] gms[i]) == (GuildMember { user_id, guild_id })
}

/// A role with this id exists.
pub open spec fn has_role(roles: Seq<GuildRole>, id: i128) -> bool {
    exists|i: int| 0 <= i < roles.len() && (#[trigger] roles[i]).id == id
}

/// The index of the role row with this id.
pub open spec fn role_ix(roles: Seq<GuildRole>, id: i128) -> int {
    choose|i: int| 0 <= i < roles.len() && (#[trigger] roles[i]).id == id
}

/// A permission row with this id exists.
pub open spec fn has_permission_id(perms: Seq<GuildPermission>, id: i128) -> bool {
    exists|i: int| 0 <= i < perms.len() && (#[trigger] perms[i]).id == id
}

/// The index of the permission row with this id.
pub open spec fn permission_ix(perms: Seq<GuildPermission>, id: i128) -> int {
    choose|i: int| 0 <= i < perms.len() && (#[trigger] perms[i]).id == id
}

/// The role carries exactly this permission.
pub open spec fn has_grant(perms: Seq<GuildPermission>, role_id: i128, p: Permission) -> bool {
    exists|i: int|
        0 <= i < perms.len() && (#[trigger] perms[i]).role_id == role_id && perms[i].permission
            == p
}

/// The index of the role assignment row of this user for this role.
pub open spec fn member_role_ix(mrs: Seq<GuildMemberRole>, user_id: UserId, role_id: i128) -> int {
    choose|i: int|
        0 <= i < mrs.len() && (#[trigger] mrs[i]) == (GuildMemberRole { user_id, role_id })
}

/// This user has this role assigned.
pub open spec fn has_member_role(mrs: Seq<GuildMemberRole>, user_id: UserId, role_id: i128) -> bool {
    exists|i: int|
        0 <= i < mrs.len() && (#[trigger] mrs[i]) == (GuildMemberRole { user_id, role_id })
}

/// Access resolution: some role assigned to the user carries a write
/// grant for this guild channel.
pub open spec fn user_may_write(
    mrs: Seq<GuildMemberRole>,
    perms: Seq<GuildPermission>,
    user_id: UserId,
    channel_id: i128,
) -> bool {
    exists|i: int|
        0 <= i < mrs.len() && (#[trigger] mrs[i]).user_id == user_id && has_grant(
            perms,
            mrs[i].role_id,
            Permission::Write(channel_id),
        )
}

// ---- well-formedness, one clause per table ----

/// User identities and user names are unique.
pub open spec fn users_wf(users: Seq<User>) -> bool {
    forall|i: int, j: int|
        0 <= i < j < users.len() ==> (#[trigger] users[i]).id != (#[trigger] users[j]).id
            && users[i].name@ != users[j].name@
}

/// Friendship rows are canonically ordered and unique per pair.
pub open spec fn friends_wf(friends: Seq<Friend>) -> bool {
    &&& forall|i: int| 0 <= i < friends.len() ==> (#[trigger] friends[i]).pair().wf()
    &&& forall|i: int, j: int|
        0 <= i < j < friends.len() ==> (#[trigger] friends[i]).pair() != (
        #[trigger] friends[j]).pair()
}

/// Request rows are canonically ordered and unique per pair.
pub open spec fn requests_wf(requests: Seq<FriendRequest>) -> bool {
    &&& forall|i: int| 0 <= i < requests.len() ==> (#[trigger] requests[i]).pair().wf()
    &&& forall|i: int, j: int|
        0 <= i < j < requests.len() ==> (#[trigger] requests[i]).pair() != (
        #[trigger] requests[j]).pair()
}

/// A pair has at most one of a friendship row and a request row.
pub open spec fn relations_exclusive(friends: Seq<Friend>, requests: Seq<FriendRequest>) -> bool {
    forall|i: int, j: int|
        0 <= i < friends.len() && 0 <= j < requests.len() ==> (#[trigger] friends[i]).pair() != (
        #[trigger] requests[j]).pair()
}

/// Channel ids are in the assigned range, and ids and names are unique.
pub open spec fn channels_wf(channels: Seq<Channel>, next_id: int) -> bool {
    &&& forall|i: int| 0 <= i < channels.len() ==> 1 <= (#[trigger] channels[i]).id < next_id
    &&& forall|i: int, j: int|
        0 <= i < j < channels.len() ==> (#[trigger] channels[i]).id != (#[trigger] channels[j]).id
            && channels[i].name@ != channels[j].name@
}

/// Every channel's owner is a member of it; hence no channel is ever
/// observably memberless.
pub open spec fn channel_owner_member(channels: Seq<Channel>, members: Seq<Member>) -> bool {
    forall|i: int|
        0 <= i < channels.len() ==> has_member(
            members,
            (#[trigger] channels[i]).owner,
            channels[i].id,
        )
}

/// Membership rows are unique per (user, channel).
pub open spec fn members_unique(members: Seq<Member>) -> bool {
    forall|i: int, j: int|
        0 <= i < j < members.len() ==> (#[trigger] members[i]) != (#[trigger] members[j])
}

/// Every membership row references an existing channel and an existing user.
pub open spec fn members_refs(
    members: Seq<Member>,
    channels: Seq<Channel>,
    users: Seq<User>,
) -> bool {
    forall|i: int|
        0 <= i < members.len() ==> has_channel(channels, (#[trigger] members[i]).channel_id)
            && has_user_id(users, members[i].user_id)
}

/// Message ids are in the assigned range and strictly increasing along
/// the log, which is append-only.
pub open spec fn messages_wf(messages: Seq<Message>, next_id: int) -> bool {
    &&& forall|i: int| 0 <= i < messages.len() ==> 1 <= (#[trigger] messages[i]).id < next_id
    &&& forall|i: int, j: int|
        0 <= i < j < messages.len() ==> (#[trigger] messages[i]).id < (#[trigger] messages[j]).id
}

/// Guild ids are in the assigned range and unique.
pub open spec fn guilds_wf(guilds: Seq<Guild>, next_id: int) -> bool {
    &&& forall|i: int| 0 <= i < guilds.len() ==> 1 <= (#[trigger] guilds[i]).id < next_id
    &&& forall|i: int, j: int|
        0 <= i < j < guilds.len() ==> (#[trigger] guilds[i]).id != (#[trigger] guilds[j]).id
}

/// Guild channel ids are in the assigned range and unique.
pub open spec fn guild_channels_unique(gcs: Seq<GuildChannel>, next_id: int) -> bool {
    &&& forall|i: int| 0 <= i < gcs.len() ==> 1 <= (#[trigger] gcs[i]).id < next_id
    &&& forall|i: int, j: int|
        0 <= i < j < gcs.len() ==> (#[trigger] gcs[i]).id != (#[trigger] gcs[j]).id
}

/// Every guild channel belongs to an existing guild.
pub open spec fn guild_channels_refs(gcs: Seq<GuildChannel>, guilds: Seq<Guild>) -> bool {
    forall|i: int| 0 <= i < gcs.len() ==> has_guild(guilds, (#[trigger] gcs[i]).guild_id)
}

/// Guild membership rows are unique per (user, guild).
pub open spec fn guild_members_unique(gms: Seq<GuildMember>) -> bool {
    forall|i: int, j: int|
        0 <= i < j < gms.len() ==> (#[trigger] gms[i]) != (#[trigger] gms[j])
}

/// Every guild membership row references an existing user and an existing
/// guild.
pub open spec fn guild_members_refs(
    gms: Seq<GuildMember>,
    users: Seq<User>,
    guilds: Seq<Guild>,
) -> bool {
    forall|i: int|
        0 <= i < gms.len() ==> has_user_id(users, (#[trigger] gms[i]).user_id) && has_guild(
            guilds,
            gms[i].guild_id,
        )
}

/// Role ids are in the assigned range and unique.
pub open spec fn roles_unique(roles: Seq<GuildRole>, next_id: int) -> bool {
    &&& forall|i: int| 0 <= i < roles.len() ==> 1 <= (#[trigger] roles[i]).id < next_id
    &&& forall|i: int, j: int|
        0 <= i < j < roles.len() ==> (#[trigger] roles[i]).id != (#[trigger] roles[j]).id
}

/// Every role belongs to an existing guild.
pub open spec fn roles_refs(roles: Seq<GuildRole>, guilds: Seq<Guild>) -> bool {
    forall|i: int| 0 <= i < roles.len() ==> has_guild(guilds, (#[trigger] roles[i]).guild_id)
}

/// Permission ids are in the assigned range and unique, and no role
/// carries the same permission twice.
pub open spec fn permissions_unique(perms: Seq<GuildPermission>, next_id: int) -> bool {
    &&& forall|i: int| 0 <= i < perms.len() ==> 1 <= (#[trigger] perms[i]).id < next_id
    &&& forall|i: int, j: int|
        0 <= i < j < perms.len() ==> (#[trigger] perms[i]).id != (#[trigger] perms[j]).id
    &&& forall|i: int, j: int|
        0 <= i < j < perms.len() ==> !((#[trigger] perms[i]).role_id == (
        #[trigger] perms[j]).role_id && perms[i].permission == perms[j].permission)
}

/// Every permission references an existing role: removing a role removes
/// its grants in the same atomic step.
pub open spec fn permissions_refs(perms: Seq<GuildPermission>, roles: Seq<GuildRole>) -> bool {
    forall|i: int| 0 <= i < perms.len() ==> has_role(roles, (#[trigger] perms[i]).role_id)
}

/// Role assignments are unique per (user, role).
pub open spec fn member_roles_unique(mrs: Seq<GuildMemberRole>) -> bool {
    forall|i: int, j: int|
        0 <= i < j < mrs.len() ==> (#[trigger] mrs[i]) != (#[trigger] mrs[j])
}

/// Every role assignment references an existing user and an existing
/// role: removing a role removes its assignments in the same atomic step.
pub open spec fn member_roles_refs(
    mrs: Seq<GuildMemberRole>,
    users: Seq<User>,
    roles: Seq<GuildRole>,
) -> bool {
    forall|i: int|
        0 <= i < mrs.len() ==> has_user_id(users, (#[trigger] mrs[i]).user_id) && has_role(
            roles,
            mrs[i].role_id,
        )
}

/// Guild message ids are in the assigned range and strictly increasing
/// along the log, which is append-only.
pub open spec fn guild_messages_wf(msgs: Seq<GuildMessage>, next_id: int) -> bool {
    &&& forall|i: int| 0 <= i < msgs.len() ==> 1 <= (#[trigger] msgs[i]).id < next_id
    &&& forall|i: int, j: int|
        0 <= i < j < msgs.len() ==> (#[trigger] msgs[i]).id < (#[trigger] msgs[j]).id
}

impl DbSnap {
    /// The view of a store with no rows at all.
    pub open spec fn empty() -> DbSnap {
        DbSnap {
            users: Seq::empty(),
            friends: Seq::empty(),
            friend_requests: Seq::empty(),
            channels: Seq::empty(),
            members: Seq::empty(),
            messages: Seq::empty(),
            guilds: Seq::empty(),
            guild_channels: Seq::empty(),
            guild_members: Seq::empty(),
            guild_roles: Seq::empty(),
            guild_permissions: Seq::empty(),
            guild_member_roles: Seq::empty(),
            guild_messages: Seq::empty(),
            next_channel_id: 1,
            next_message_id: 1,
            next_guild_id: 1,
            next_guild_channel_id: 1,
            next_role_id: 1,
            next_permission_id: 1,
            next_guild_message_id: 1,
        }
    }

    /// The invariant of a committed state: every table is well formed and
    /// the cross-table references hold.
    pub open spec fn wf(self) -> bool {
        &&& users_wf(self.users)
        &&& friends_wf(self.friends)
        &&& requests_wf(self.friend_requests)
        &&& relations_exclusive(self.friends, self.friend_requests)
        &&& channels_wf(self.channels, self.next_channel_id as int)
        &&& channel_owner_member(self.channels, self.members)
        &&& members_unique(self.members)
        &&& members_refs(self.members, self.channels, self.users)
        &&& messages_wf(self.messages, self.next_message_id as int)
        &&& guilds_wf(self.guilds, self.next_guild_id as int)
        &&& guild_channels_unique(self.guild_channels, self.next_guild_channel_id as int)
        &&& guild_channels_refs(self.guild_channels, self.guilds)
        &&& guild_members_unique(self.guild_members)
        &&& guild_members_refs(self.guild_members, self.users, self.guilds)
        &&& roles_unique(self.guild_roles, self.next_role_id as int)
        &&& roles_refs(self.guild_roles, self.guilds)
        &&& permissions_unique(self.guild_permissions, self.next_permission_id as int)
        &&& permissions_refs(self.guild_permissions, self.guild_roles)
        &&& member_roles_unique(self.guild_member_roles)
        &&& member_roles_refs(self.guild_member_roles, self.users, self.guild_roles)
        &&& guild_messages_wf(self.guild_messages, self.next_guild_message_id as int)
        &&& self.next_channel_id >= 1
        &&& self.next_message_id >= 1
        &&& self.next_guild_id >= 1
        &&& self.next_guild_channel_id >= 1
        &&& self.next_role_id >= 1
        &&& self.next_permission_id >= 1
        &&& self.next_guild_message_id >= 1
    }
}

impl Db {
    /// A store with no rows and all id counters at their start.
    pub fn new() -> (db: Db)
        ensures
            db@ == DbSnap::empty(),
            db@.wf(),
    {
        let db = Db {
            users: Vec::new(),
            friends: Vec::new(),
            friend_requests: Vec::new(),
            channels: Vec::new(),
            members: Vec::new(),
            messages: Vec::new(),
            guilds: Vec::new(),
            guild_channels: Vec::new(),
            guild_members: Vec::new(),
            guild_roles: Vec::new(),
            guild_permissions: Vec::new(),
            guild_member_roles: Vec::new(),
            guild_messages: Vec::new(),
            next_channel_id: 1,
            next_message_id: 1,
            next_guild_id: 1,
            next_guild_channel_id: 1,
            next_role_id: 1,
            next_permission_id: 1,
            next_guild_message_id: 1,
        };
        proof {
            assert(db@ =~= DbSnap::empty());
        }
        db
    }
}

// ---- preservation lemmas shared by the handlers ----

/// Replacing user rows without touching identity or name keeps every
/// fact about the user table's keys.
pub proof fn lemma_users_same_keys(u1: Seq<User>, u2: Seq<User>)
    requires
        u2.len() == u1.len(),
        forall|i: int|
            0 <= i < u1.len() ==> (#[trigger] u2[i]).id == u1[i].id && u2[i].name@ == u1[i].name@,
    ensures
        users_wf(u2) == users_wf(u1),
        forall|id: UserId| #[trigger] has_user_id(u2, id) == has_user_id(u1, id),
        forall|n: Seq<char>| #[trigger] has_user_named(u2, n) == has_user_named(u1, n),
{
    assert forall|id: UserId| #[trigger] has_user_id(u2, id) == has_user_id(u1, id) by {
        if has_user_id(u1, id) {
            let w = choose|i: int| 0 <= i < u1.len() && (#[trigger] u1[i]).id == id;
            assert(u2[w].id == id);
        }
        if has_user_id(u2, id) {
            let w = choose|i: int| 0 <= i < u2.len() && (#[trigger] u2[i]).id == id;
            assert(u1[w].id == id);
        }
    }
    assert forall|n: Seq<char>| #[trigger] has_user_named(u2, n) == has_user_named(u1, n) by {
        if has_user_named(u1, n) {
            let w = choose|i: int| 0 <= i < u1.len() && (#[trigger] u1[i]).name@ == n;
            assert(u2[w].name@ == n);
        }
        if has_user_named(u2, n) {
            let w = choose|i: int| 0 <= i < u2.len() && (#[trigger] u2[i]).name@ == n;
            assert(u1[w].name@ == n);
        }
    }
    if users_wf(u1) {
        assert forall|i: int, j: int| 0 <= i < j < u2.len() implies (#[trigger] u2[i]).id != (
        #[trigger] u2[j]).id && u2[i].name@ != u2[j].name@ by {
            assert(u1[i].id != u1[j].id && u1[i].name@ != u1[j].name@);
        }
    }
    if users_wf(u2) {
        assert forall|i: int, j: int| 0 <= i < j < u1.len() implies (#[trigger] u1[i]).id != (
        #[trigger] u1[j]).id && u1[i].name@ != u1[j].name@ by {
            assert(u2[i].id != u2[j].id && u2[i].name@ != u2[j].name@);
        }
    }
}

/// Appending a user row: how the user table's keys change.
pub proof fn lemma_users_push(u: Seq<User>, x: User)
    ensures
        forall|id: UserId| #[trigger] has_user_id(u.push(x), id) == (has_user_id(u, id) || x.id
            == id),
        forall|n: Seq<char>| #[trigger] has_user_named(u.push(x), n) == (has_user_named(u, n)
            || x.name@ == n),
        users_wf(u) && !has_user_id(u, x.id) && !has_user_named(u, x.name@) ==> users_wf(u.push(x)),
{
    let t = u.push(x);
    let m = u.len() as int;
    assert(t[m] == x);
    assert forall|id: UserId| #[trigger] has_user_id(t, id) == (has_user_id(u, id) || x.id == id)
    by {
        if has_user_id(u, id) {
            let w = choose|i: int| 0 <= i < u.len() && (#[trigger] u[i]).id == id;
            assert(t[w].id == id);
        }
        if has_user_id(t, id) && !(x.id == id) {
            let w = choose|i: int| 0 <= i < t.len() && (#[trigger] t[i]).id == id;
            assert(u[w].id == id);
        }
    }
    assert forall|n: Seq<char>| #[trigger] has_user_named(t, n) == (has_user_named(u, n) || x.name@
        == n) by {
        if has_user_named(u, n) {
            let w = choose|i: int| 0 <= i < u.len() && (#[trigger] u[i]).name@ == n;
            assert(t[w].name@ == n);
        }
        if has_user_named(t, n) && !(x.name@ == n) {
            let w = choose|i: int| 0 <= i < t.len() && (#[trigger] t[i]).name@ == n;
            assert(u[w].name@ == n);
        }
    }
    if users_wf(u) && !has_user_id(u, x.id) && !has_user_named(u, x.name@) {
        assert forall|i: int, j: int| 0 <= i < j < t.len() implies (#[trigger] t[i]).id != (
        #[trigger] t[j]).id && t[i].name@ != t[j].name@ by {
            if j < m {
                assert(u[i].id != u[j].id && u[i].name@ != u[j].name@);
            } else {
                assert(t[i] == u[i]);
                assert(has_user_id(u, u[i].id));
                assert(has_user_named(u, u[i].name@));
            }
        }
    }
}

/// Appending a channel row: how the channel table's keys change.
pub proof fn lemma_channels_push(c: Seq<Channel>, x: Channel)
    ensures
        forall|id: i128| #[trigger] has_channel(c.push(x), id) == (has_channel(c, id) || x.id
            == id),
        forall|n: Seq<char>| #[trigger] has_channel_named(c.push(x), n) == (has_channel_named(c, n)
            || x.name@ == n),
{
    let t = c.push(x);
    let m = c.len() as int;
    assert(t[m] == x);
    assert forall|id: i128| #[trigger] has_channel(t, id) == (has_channel(c, id) || x.id == id) by {
        if has_channel(c, id) {
            let w = choose|i: int| 0 <= i < c.len() && (#[trigger] c[i]).id == id;
            assert(t[w].id == id);
        }
        if has_channel(t, id) && !(x.id == id) {
            let w = choose|i: int| 0 <= i < t.len() && (#[trigger] t[i]).id == id;
            assert(c[w].id == id);
        }
    }
    assert forall|n: Seq<char>| #[trigger] has_channel_named(t, n) == (has_channel_named(c, n)
        || x.name@ == n) by {
        if has_channel_named(c, n) {
            let w = choose|i: int| 0 <= i < c.len() && (#[trigger] c[i]).name@ == n;
            assert(t[w].name@ == n);
        }
        if has_channel_named(t, n) && !(x.name@ == n) {
            let w = choose|i: int| 0 <= i < t.len() && (#[trigger] t[i]).name@ == n;
            assert(c[w].name@ == n);
        }
    }
}

/// Appending a membership row: how the membership index changes.
pub proof fn lemma_members_push(m: Seq<Member>, x: Member)
    ensures
        forall|u: UserId, c: i128| #[trigger] has_member(m.push(x), u, c) == (has_member(m, u, c)
            || x == (Member { user_id: u, channel_id: c })),
{
    let t = m.push(x);
    let n = m.len() as int;
    assert(t[n] == x);
    assert forall|u: UserId, c: i128| #[trigger] has_member(t, u, c) == (has_member(m, u, c) || x
        == (Member { user_id: u, channel_id: c })) by {
        if has_member(m, u, c) {
            let w = choose|i: int|
                0 <= i < m.len() && (#[trigger] m[i]) == (Member { user_id: u, channel_id: c });
            assert(t[w] == (Member { user_id: u, channel_id: c }));
        }
        if has_member(t, u, c) && !(x == (Member { user_id: u, channel_id: c })) {
            let w = choose|i: int|
                0 <= i < t.len() && (#[trigger] t[i]) == (Member { user_id: u, channel_id: c });
            assert(m[w] == (Member { user_id: u, channel_id: c }));
        }
    }
}

/// Appending a guild row: how the guild table's keys change.
pub proof fn lemma_guilds_push(g: Seq<Guild>, x: Guild)
    ensures
        forall|id: i128| #[trigger] has_guild(g.push(x), id) == (has_guild(g, id) || x.id == id),
{
    let t = g.push(x);
    assert(t[g.len() as int] == x);
    assert forall|id: i128| #[trigger] has_guild(t, id) == (has_guild(g, id) || x.id == id) by {
        if has_guild(g, id) {
            let w = choose|i: int| 0 <= i < g.len() && (#[trigger] g[i]).id == id;
            assert(t[w].id == id);
        }
        if has_guild(t, id) && !(x.id == id) {
            let w = choose|i: int| 0 <= i < t.len() && (#[trigger] t[i]).id == id;
            assert(g[w].id == id);
        }
    }
}

/// Appending a role row: how the role table's keys change.
pub proof fn lemma_roles_push(r: Seq<GuildRole>, x: GuildRole)
    ensures
        forall|id: i128| #[trigger] has_role(r.push(x), id) == (has_role(r, id) || x.id == id),
{
    let t = r.push(x);
    assert(t[r.len() as int] == x);
    assert forall|id: i128| #[trigger] has_role(t, id) == (has_role(r, id) || x.id == id) by {
        if has_role(r, id) {
            let w = choose|i: int| 0 <= i < r.len() && (#[trigger] r[i]).id == id;
            assert(t[w].id == id);
        }
        if has_role(t, id) && !(x.id == id) {
            let w = choose|i: int| 0 <= i < t.len() && (#[trigger] t[i]).id == id;
            assert(r[w].id == id);
        }
    }
}

/// Replacing role rows without touching their ids keeps every fact about
/// the role table's ids.
pub proof fn lemma_roles_same_ids(r1: Seq<GuildRole>, r2: Seq<GuildRole>)
    requires
        r2.len() == r1.len(),
        forall|i: int| 0 <= i < r1.len() ==> (#[trigger] r2[i]).id == r1[i].id,
    ensures
        forall|id: i128| #[trigger] has_role(r2, id) == has_role(r1, id),
{
    assert forall|id: i128| #[trigger] has_role(r2, id) == has_role(r1, id) by {
        if has_role(r1, id) {
            let w = choose|i: int| 0 <= i < r1.len() && (#[trigger] r1[i]).id == id;
            assert(r2[w].id == id);
        }
        if has_role(r2, id) {
            let w = choose|i: int| 0 <= i < r2.len() && (#[trigger] r2[i]).id == id;
            assert(r1[w].id == id);
        }
    }
}

/// Membership reference integrity is kept when the channel and user keys
/// only grow.
pub proof fn lemma_members_refs_weaken(
    m: Seq<Member>,
    c1: Seq<Channel>,
    c2: Seq<Channel>,
    u1: Seq<User>,
    u2: Seq<User>,
)
    requires
        members_refs(m, c1, u1),
        forall|id: i128| has_channel(c1, id) ==> #[trigger] has_channel(c2, id),
        forall|id: UserId| has_user_id(u1, id) ==> #[trigger] has_user_id(u2, id),
    ensures
        members_refs(m, c2, u2),
{
    assert forall|i: int| 0 <= i < m.len() implies has_channel(c2, (#[trigger] m[i]).channel_id)
        && has_user_id(u2, m[i].user_id) by {
        assert(has_channel(c1, m[i].channel_id) && has_user_id(u1, m[i].user_id));
    }
}

/// Guild channel reference integrity is kept when the guild keys only grow.
pub proof fn lemma_guild_channels_refs_weaken(gcs: Seq<GuildChannel>, g1: Seq<Guild>, g2: Seq<Guild>)
    requires
        guild_channels_refs(gcs, g1),
        forall|id: i128| has_guild(g1, id) ==> #[trigger] has_guild(g2, id),
    ensures
        guild_channels_refs(gcs, g2),
{
    assert forall|i: int| 0 <= i < gcs.len() implies has_guild(g2, (#[trigger] gcs[i]).guild_id) by {
        assert(has_guild(g1, gcs[i].guild_id));
    }
}

/// Guild membership reference integrity is kept when the user and guild
/// keys only grow.
pub proof fn lemma_guild_members_refs_weaken(
    gms: Seq<GuildMember>,
    u1: Seq<User>,
    u2: Seq<User>,
    g1: Seq<Guild>,
    g2: Seq<Guild>,
)
    requires
        guild_members_refs(gms, u1, g1),
        forall|id: UserId| has_user_id(u1, id) ==> #[trigger] has_user_id(u2, id),
        forall|id: i128| has_guild(g1, id) ==> #[trigger] has_guild(g2, id),
    ensures
        guild_members_refs(gms, u2, g2),
{
    assert forall|i: int| 0 <= i < gms.len() implies has_user_id(u2, (#[trigger] gms[i]).user_id)
        && has_guild(g2, gms[i].guild_id) by {
        assert(has_user_id(u1, gms[i].user_id) && has_guild(g1, gms[i].guild_id));
    }
}

/// Role reference integrity is kept when the guild keys only grow.
pub proof fn lemma_roles_refs_weaken(roles: Seq<GuildRole>, g1: Seq<Guild>, g2: Seq<Guild>)
    requires
        roles_refs(roles, g1),
        forall|id: i128| has_guild(g1, id) ==> #[trigger] has_guild(g2, id),
    ensures
        roles_refs(roles, g2),
{
    assert forall|i: int| 0 <= i < roles.len() implies has_guild(
        g2,
        (#[trigger] roles[i]).guild_id,
    ) by {
        assert(has_guild(g1, roles[i].guild_id));
    }
}

/// Permission reference integrity is kept when the role keys only grow.
pub proof fn lemma_permissions_refs_weaken(
    perms: Seq<GuildPermission>,
    r1: Seq<GuildRole>,
    r2: Seq<GuildRole>,
)
    requires
        permissions_refs(perms, r1),
        forall|id: i128| has_role(r1, id) ==> #[trigger] has_role(r2, id),
    ensures
        permissions_refs(perms, r2),
{
    assert forall|i: int| 0 <= i < perms.len() implies has_role(
        r2,
        (#[trigger] perms[i]).role_id,
    ) by {
        assert(has_role(r1, perms[i].role_id));
    }
}

/// Role assignment reference integrity is kept when the user and role
/// keys only grow.
pub proof fn lemma_member_roles_refs_weaken(
    mrs: Seq<GuildMemberRole>,
    u1: Seq<User>,
    u2: Seq<User>,
    r1: Seq<GuildRole>,
    r2: Seq<GuildRole>,
)
    requires
        member_roles_refs(mrs, u1, r1),
        forall|id: UserId| has_user_id(u1, id) ==> #[trigger] has_user_id(u2, id),
        forall|id: i128| has_role(r1, id) ==> #[trigger] has_role(r2, id),
    ensures
        member_roles_refs(mrs, u2, r2),
{
    assert forall|i: int| 0 <= i < mrs.len() implies has_user_id(u2, (#[trigger] mrs[i]).user_id)
        && has_role(r2, mrs[i].role_id) by {
        assert(has_user_id(u1, mrs[i].user_id) && has_role(r1, mrs[i].role_id));
    }
}

/// The channel-owner-membership clause is kept when the member rows only
/// grow.
pub proof fn lemma_channel_owner_member_weaken(
    channels: Seq<Channel>,
    m1: Seq<Member>,
    m2: Seq<Member>,
)
    requires
        channel_owner_member(channels, m1),
        forall|u: UserId, c: i128| has_member(m1, u, c) ==> #[trigger] has_member(m2, u, c),
    ensures
        channel_owner_member(channels, m2),
{
    assert forall|i: int| 0 <= i < channels.len() implies has_member(
        m2,
        (#[trigger] channels[i]).owner,
        channels[i].id,
    ) by {
        assert(has_member(m1, channels[i].owner, channels[i].id));
    }
}

/// How a filtered sequence relates to a filtered sequence extended by one
/// element; the workhorse of the cascade deletions.
pub proof fn lemma_filter_push<A>(s: Seq<A>, pred: spec_fn(A) -> bool, x: A)
    ensures
        s.push(x).filter(pred) == if pred(x) {
            s.filter(pred).push(x)
        } else {
            s.filter(pred)
        },
{
    reveal(Seq::filter);
    assert(s.push(x).drop_last() =~= s);
    assert(s.push(x).last() == x);
}

// ---- removal characterizations ----
// Deleting one row at a known index: how each index predicate changes,
// and why uniqueness survives. The uniqueness clauses make the deleted
// key the only one affected.

/// Removing a membership row: the exact effect on the membership index.
pub proof fn lemma_member_removed(m: Seq<Member>, ix: int)
    requires
        members_unique(m),
        0 <= ix < m.len(),
    ensures
        members_unique(m.remove(ix)),
        forall|u: UserId, c: i128| #[trigger] has_member(m.remove(ix), u, c) == (has_member(m, u, c)
            && m[ix] != (Member { user_id: u, channel_id: c })),
{
    let t = m.remove(ix);
    assert forall|i: int, j: int| 0 <= i < j < t.len() implies (#[trigger] t[i]) != (
    #[trigger] t[j]) by {
        let i0: int = if i < ix { i } else { i + 1 };
        let j0: int = if j < ix { j } else { j + 1 };
        assert(t[i] == m[i0] && t[j] == m[j0]);
        assert(m[i0] != m[j0]);
    }
    assert forall|u: UserId, c: i128| #[trigger] has_member(t, u, c) == (has_member(m, u, c)
        && m[ix] != (Member { user_id: u, channel_id: c })) by {
        let row = Member { user_id: u, channel_id: c };
        if has_member(t, u, c) {
            let w = choose|i: int| 0 <= i < t.len() && (#[trigger] t[i]) == row;
            let w0: int = if w < ix { w } else { w + 1 };
            assert(m[w0] == row);
            if m[ix] == row {
                assert(m[w0] != m[ix]);
            }
        }
        if has_member(m, u, c) && m[ix] != row {
            let w = choose|i: int| 0 <= i < m.len() && (#[trigger] m[i]) == row;
            let w1: int = if w < ix { w } else { w - 1 };
            assert(t[w1] == row);
        }
    }
}

/// Removing a channel row: the exact effect on the channel indexes.
pub proof fn lemma_channel_removed(c: Seq<Channel>, next_id: int, ix: int)
    requires
        channels_wf(c, next_id),
        0 <= ix < c.len(),
    ensures
        channels_wf(c.remove(ix), next_id),
        forall|id: i128| #[trigger] has_channel(c.remove(ix), id) == (has_channel(c, id) && id
            != c[ix].id),
        forall|n: Seq<char>| #[trigger] has_channel_named(c.remove(ix), n) == (has_channel_named(
            c,
            n,
        ) && n != c[ix].name@),
{
    let t = c.remove(ix);
    assert forall|i: int| 0 <= i < t.len() implies 1 <= (#[trigger] t[i]).id < next_id by {
        let i0: int = if i < ix { i } else { i + 1 };
        assert(t[i] == c[i0]);
    }
    assert forall|i: int, j: int| 0 <= i < j < t.len() implies (#[trigger] t[i]).id != (
    #[trigger] t[j]).id && t[i].name@ != t[j].name@ by {
        let i0: int = if i < ix { i } else { i + 1 };
        let j0: int = if j < ix { j } else { j + 1 };
        assert(t[i] == c[i0] && t[j] == c[j0]);
        assert(c[i0].id != c[j0].id && c[i0].name@ != c[j0].name@);
    }
    assert forall|id: i128| #[trigger] has_channel(t, id) == (has_channel(c, id) && id != c[ix].id)
    by {
        if has_channel(t, id) {
            let w = choose|i: int| 0 <= i < t.len() && (#[trigger] t[i]).id == id;
            let w0: int = if w < ix { w } else { w + 1 };
            assert(c[w0].id == id);
            if id == c[ix].id {
                assert(c[w0].id != c[ix].id);
            }
        }
        if has_channel(c, id) && id != c[ix].id {
            let w = choose|i: int| 0 <= i < c.len() && (#[trigger] c[i]).id == id;
            let w1: int = if w < ix { w } else { w - 1 };
            assert(t[w1].id == id);
        }
    }
    assert forall|n: Seq<char>| #[trigger] has_channel_named(t, n) == (has_channel_named(c, n) && n
        != c[ix].name@) by {
        if has_channel_named(t, n) {
            let w = choose|i: int| 0 <= i < t.len() && (#[trigger] t[i]).name@ == n;
            let w0: int = if w < ix { w } else { w + 1 };
            assert(c[w0].name@ == n);
            if n == c[ix].name@ {
                assert(c[w0].name@ != c[ix].name@);
            }
        }
        if has_channel_named(c, n) && n != c[ix].name@ {
            let w = choose|i: int| 0 <= i < c.len() && (#[trigger] c[i]).name@ == n;
            let w1: int = if w < ix { w } else { w - 1 };
            assert(t[w1].name@ == n);
        }
    }
}

/// Removing a guild channel row: the exact effect on its id index.
pub proof fn lemma_guild_channel_removed(gcs: Seq<GuildChannel>, next_id: int, ix: int)
    requires
        guild_channels_unique(gcs, next_id),
        0 <= ix < gcs.len(),
    ensures
        guild_channels_unique(gcs.remove(ix), next_id),
        forall|id: i128| #[trigger] has_guild_channel(gcs.remove(ix), id) == (has_guild_channel(
            gcs,
            id,
        ) && id != gcs[ix].id),
{
    let t = gcs.remove(ix);
    assert forall|i: int| 0 <= i < t.len() implies 1 <= (#[trigger] t[i]).id < next_id by {
        let i0: int = if i < ix { i } else { i + 1 };
        assert(t[i] == gcs[i0]);
    }
    assert forall|i: int, j: int| 0 <= i < j < t.len() implies (#[trigger] t[i]).id != (
    #[trigger] t[j]).id by {
        let i0: int = if i < ix { i } else { i + 1 };
        let j0: int = if j < ix { j } else { j + 1 };
        assert(t[i] == gcs[i0] && t[j] == gcs[j0]);
        assert(gcs[i0].id != gcs[j0].id);
    }
    assert forall|id: i128| #[trigger] has_guild_channel(t, id) == (has_guild_channel(gcs, id) && id
        != gcs[ix].id) by {
        if has_guild_channel(t, id) {
            let w = choose|i: int| 0 <= i < t.len() && (#[trigger] t[i]).id == id;
            let w0: int = if w < ix { w } else { w + 1 };
            assert(gcs[w0].id == id);
            if id == gcs[ix].id {
                assert(gcs[w0].id != gcs[ix].id);
            }
        }
        if has_guild_channel(gcs, id) && id != gcs[ix].id {
            let w = choose|i: int| 0 <= i < gcs.len() && (#[trigger] gcs[i]).id == id;
            let w1: int = if w < ix { w } else { w - 1 };
            assert(t[w1].id == id);
        }
    }
}

/// Removing a role row: the exact effect on the role id index.
pub proof fn lemma_role_removed(r: Seq<GuildRole>, next_id: int, ix: int)
    requires
        roles_unique(r, next_id),
        0 <= ix < r.len(),
    ensures
        roles_unique(r.remove(ix), next_id),
        forall|id: i128| #[trigger] has_role(r.remove(ix), id) == (has_role(r, id) && id
            != r[ix].id),
{
    let t = r.remove(ix);
    assert forall|i: int| 0 <= i < t.len() implies 1 <= (#[trigger] t[i]).id < next_id by {
        let i0: int = if i < ix { i } else { i + 1 };
        assert(t[i] == r[i0]);
    }
    assert forall|i: int, j: int| 0 <= i < j < t.len() implies (#[trigger] t[i]).id != (
    #[trigger] t[j]).id by {
        let i0: int = if i < ix { i } else { i + 1 };
        let j0: int = if j < ix { j } else { j + 1 };
        assert(t[i] == r[i0] && t[j] == r[j0]);
        assert(r[i0].id != r[j0].id);
    }
    assert forall|id: i128| #[trigger] has_role(t, id) == (has_role(r, id) && id != r[ix].id) by {
        if has_role(t, id) {
            let w = choose|i: int| 0 <= i < t.len() && (#[trigger] t[i]).id == id;
            let w0: int = if w < ix { w } else { w + 1 };
            assert(r[w0].id == id);
            if id == r[ix].id {
                assert(r[w0].id != r[ix].id);
            }
        }
        if has_role(r, id) && id != r[ix].id {
            let w = choose|i: int| 0 <= i < r.len() && (#[trigger] r[i]).id == id;
            let w1: int = if w < ix { w } else { w - 1 };
            assert(t[w1].id == id);
        }
    }
}

/// Removing a permission row: the exact effect on the permission indexes.
pub proof fn lemma_permission_removed(perms: Seq<GuildPermission>, next_id: int, ix: int)
    requires
        permissions_unique(perms, next_id),
        0 <= ix < perms.len(),
    ensures
        permissions_unique(perms.remove(ix), next_id),
        forall|id: i128| #[trigger] has_permission_id(perms.remove(ix), id) == (has_permission_id(
            perms,
            id,
        ) && id != perms[ix].id),
        forall|rid: i128, p: Permission| #[trigger] has_grant(perms.remove(ix), rid, p) == (
        has_grant(perms, rid, p) && !(perms[ix].role_id == rid && perms[ix].permission == p)),
{
    let t = perms.remove(ix);
    assert forall|i: int| 0 <= i < t.len() implies 1 <= (#[trigger] t[i]).id < next_id by {
        let i0: int = if i < ix { i } else { i + 1 };
        assert(t[i] == perms[i0]);
    }
    assert forall|i: int, j: int| 0 <= i < j < t.len() implies (#[trigger] t[i]).id != (
    #[trigger] t[j]).id && !((#[trigger] t[i]).role_id == (#[trigger] t[j]).role_id
        && t[i].permission == t[j].permission) by {
        let i0: int = if i < ix { i } else { i + 1 };
        let j0: int = if j < ix { j } else { j + 1 };
        assert(t[i] == perms[i0] && t[j] == perms[j0]);
        assert(perms[i0].id != perms[j0].id);
        assert(!(perms[i0].role_id == perms[j0].role_id && perms[i0].permission
            == perms[j0].permission));
    }
    assert forall|id: i128| #[trigger] has_permission_id(t, id) == (has_permission_id(perms, id)
        && id != perms[ix].id) by {
        if has_permission_id(t, id) {
            let w = choose|i: int| 0 <= i < t.len() && (#[trigger] t[i]).id == id;
            let w0: int = if w < ix { w } else { w + 1 };
            assert(perms[w0].id == id);
            if id == perms[ix].id {
                assert(perms[w0].id != perms[ix].id);
            }
        }
        if has_permission_id(perms, id) && id != perms[ix].id {
            let w = choose|i: int| 0 <= i < perms.len() && (#[trigger] perms[i]).id == id;
            let w1: int = if w < ix { w } else { w - 1 };
            assert(t[w1].id == id);
        }
    }
    assert forall|rid: i128, p: Permission| #[trigger] has_grant(t, rid, p) == (has_grant(
        perms,
        rid,
        p,
    ) && !(perms[ix].role_id == rid && perms[ix].permission == p)) by {
        if has_grant(t, rid, p) {
            let w = choose|i: int|
                0 <= i < t.len() && (#[trigger] t[i]).role_id == rid && t[i].permission == p;
            let w0: int = if w < ix { w } else { w + 1 };
            assert(perms[w0].role_id == rid && perms[w0].permission == p);
            if perms[ix].role_id == rid && perms[ix].permission == p {
                assert(!(perms[w0].role_id == perms[ix].role_id && perms[w0].permission
                    == perms[ix].permission));
            }
        }
        if has_grant(perms, rid, p) && !(perms[ix].role_id == rid && perms[ix].permission == p) {
            let w = choose|i: int|
                0 <= i < perms.len() && (#[trigger] perms[i]).role_id == rid && perms[i].permission
                    == p;
            let w1: int = if w < ix { w } else { w - 1 };
            assert(t[w1].role_id == rid && t[w1].permission == p);
        }
    }
}

/// Removing a role assignment row: the exact effect on the assignment
/// index.
pub proof fn lemma_member_role_removed(mrs: Seq<GuildMemberRole>, ix: int)
    requires
        member_roles_unique(mrs),
        0 <= ix < mrs.len(),
    ensures
        member_roles_unique(mrs.remove(ix)),
        forall|u: UserId, rid: i128| #[trigger] has_member_role(mrs.remove(ix), u, rid) == (
        has_member_role(mrs, u, rid) && mrs[ix] != (GuildMemberRole { user_id: u, role_id: rid })),
{
    let t = mrs.remove(ix);
    assert forall|i: int, j: int| 0 <= i < j < t.len() implies (#[trigger] t[i]) != (
    #[trigger] t[j]) by {
        let i0: int = if i < ix { i } else { i + 1 };
        let j0: int = if j < ix { j } else { j + 1 };
        assert(t[i] == mrs[i0] && t[j] == mrs[j0]);
        assert(mrs[i0] != mrs[j0]);
    }
    assert forall|u: UserId, rid: i128| #[trigger] has_member_role(t, u, rid) == (has_member_role(
        mrs,
        u,
        rid,
    ) && mrs[ix] != (GuildMemberRole { user_id: u, role_id: rid })) by {
        let row = GuildMemberRole { user_id: u, role_id: rid };
        if has_member_role(t, u, rid) {
            let w = choose|i: int| 0 <= i < t.len() && (#[trigger] t[i]) == row;
            let w0: int = if w < ix { w } else { w + 1 };
            assert(mrs[w0] == row);
            if mrs[ix] == row {
                assert(mrs[w0] != mrs[ix]);
            }
        }
        if has_member_role(mrs, u, rid) && mrs[ix] != row {
            let w = choose|i: int| 0 <= i < mrs.len() && (#[trigger] mrs[i]) == row;
            let w1: int = if w < ix { w } else { w - 1 };
            assert(t[w1] == row);
        }
    }
}

/// Appending a guild channel row: how the guild channel id index changes.
pub proof fn lemma_guild_channels_push(gcs: Seq<GuildChannel>, x: GuildChannel)
    ensures
        forall|id: i128| #[trigger] has_guild_channel(gcs.push(x), id) == (has_guild_channel(
            gcs,
            id,
        ) || x.id == id),
{
    let t = gcs.push(x);
    assert(t[gcs.len() as int] == x);
    assert forall|id: i128| #[trigger] has_guild_channel(t, id) == (has_guild_channel(gcs, id)
        || x.id == id) by {
        if has_guild_channel(gcs, id) {
            let w = choose|i: int| 0 <= i < gcs.len() && (#[trigger] gcs[i]).id == id;
            assert(t[w].id == id);
        }
        if has_guild_channel(t, id) && !(x.id == id) {
            let w = choose|i: int| 0 <= i < t.len() && (#[trigger] t[i]).id == id;
            assert(gcs[w].id == id);
        }
    }
}

/// Appending a guild membership row: how the membership index changes.
pub proof fn lemma_guild_members_push(gms: Seq<GuildMember>, x: GuildMember)
    ensures
        forall|u: UserId, g: i128| #[trigger] has_guild_member(gms.push(x), u, g) == (
        has_guild_member(gms, u, g) || x == (GuildMember { user_id: u, guild_id: g })),
{
    let t = gms.push(x);
    assert(t[gms.len() as int] == x);
    assert forall|u: UserId, g: i128| #[trigger] has_guild_member(t, u, g) == (has_guild_member(
        gms,
        u,
        g,
    ) || x == (GuildMember { user_id: u, guild_id: g })) by {
        let row = GuildMember { user_id: u, guild_id: g };
        if has_guild_member(gms, u, g) {
            let w = choose|i: int| 0 <= i < gms.len() && (#[trigger] gms[i]) == row;
            assert(t[w] == row);
        }
        if has_guild_member(t, u, g) && !(x == row) {
            let w = choose|i: int| 0 <= i < t.len() && (#[trigger] t[i]) == row;
            assert(gms[w] == row);
        }
    }
}

/// Appending a permission row: how the permission indexes change.
pub proof fn lemma_permissions_push(perms: Seq<GuildPermission>, x: GuildPermission)
    ensures
        forall|id: i128| #[trigger] has_permission_id(perms.push(x), id) == (has_permission_id(
            perms,
            id,
        ) || x.id == id),
        forall|rid: i128, p: Permission| #[trigger] has_grant(perms.push(x), rid, p) == (has_grant(
            perms,
            rid,
            p,
        ) || (x.role_id == rid && x.permission == p)),
{
    let t = perms.push(x);
    assert(t[perms.len() as int] == x);
    assert forall|id: i128| #[trigger] has_permission_id(t, id) == (has_permission_id(perms, id)
        || x.id == id) by {
        if has_permission_id(perms, id) {
            let w = choose|i: int| 0 <= i < perms.len() && (#[trigger] perms[i]).id == id;
            assert(t[w].id == id);
        }
        if has_permission_id(t, id) && !(x.id == id) {
            let w = choose|i: int| 0 <= i < t.len() && (#[trigger] t[i]).id == id;
            assert(perms[w].id == id);
        }
    }
    assert forall|rid: i128, p: Permission| #[trigger] has_grant(t, rid, p) == (has_grant(
        perms,
        rid,
        p,
    ) || (x.role_id == rid && x.permission == p)) by {
        if has_grant(perms, rid, p) {
            let w = choose|i: int|
                0 <= i < perms.len() && (#[trigger] perms[i]).role_id == rid && perms[i].permission
                    == p;
            assert(t[w].role_id == rid && t[w].permission == p);
        }
        if has_grant(t, rid, p) && !(x.role_id == rid && x.permission == p) {
            let w = choose|i: int|
                0 <= i < t.len() && (#[trigger] t[i]).role_id == rid && t[i].permission == p;
            assert(perms[w].role_id == rid && perms[w].permission == p);
        }
    }
}

/// Appending a role assignment row: how the assignment index changes.
pub proof fn lemma_member_roles_push(mrs: Seq<GuildMemberRole>, x: GuildMemberRole)
    ensures
        forall|u: UserId, rid: i128| #[trigger] has_member_role(mrs.push(x), u, rid) == (
        has_member_role(mrs, u, rid) || x == (GuildMemberRole { user_id: u, role_id: rid })),
{
    let t = mrs.push(x);
    assert(t[mrs.len() as int] == x);
    assert forall|u: UserId, rid: i128| #[trigger] has_member_role(t, u, rid) == (has_member_role(
        mrs,
        u,
        rid,
    ) || x == (GuildMemberRole { user_id: u, role_id: rid })) by {
        let row = GuildMemberRole { user_id: u, role_id: rid };
        if has_member_role(mrs, u, rid) {
            let w = choose|i: int| 0 <= i < mrs.len() && (#[trigger] mrs[i]) == row;
            assert(t[w] == row);
        }
        if has_member_role(t, u, rid) && !(x == row) {
            let w = choose|i: int| 0 <= i < t.len() && (#[trigger] t[i]) == row;
            assert(mrs[w] == row);
        }
    }
}

// ---- executable lookups ----
// Each search returns the index that the corresponding `choose` of the
// view denotes, which the uniqueness clauses of `wf` make unambiguous.

/// Find the user row with this identity.
pub fn find_user_by_id(db: &Db, id: UserId) -> (r: Option<usize>)
    requires
        db@.wf(),
    ensures
        match r {
            Some(i) => has_user_id(db@.users, id) && i == user_ix(db@.users, id),
            None => !has_user_id(db@.users, id),
        },
{
    let n = db.users.len();
    let mut i: usize = 0;
    while i < n
        invariant
            n == db@.users.len(),
            i <= n,
            db@.wf(),
            forall|j: int| 0 <= j < i ==> (#[trigger] db@.users[j]).id != id,
        decreases n - i,
    {
        if db.users[i].id == id {
            proof {
                assert(has_user_id(db@.users, id));
                let k = user_ix(db@.users, id);
                assert(db@.users[k].id == id);
            }
            return Some(i);
        }
        i += 1;
    }
    None
}

/// Find the user row with this unique name.
pub fn find_user_by_name(db: &Db, name: &String) -> (r: Option<usize>)
    requires
        db@.wf(),
    ensures
        match r {
            Some(i) => has_user_named(db@.users, name@) && i == user_ix_named(db@.users, name@),
            None => !has_user_named(db@.users, name@),
        },
{
    let n = db.users.len();
    let mut i: usize = 0;
    while i < n
        invariant
            n == db@.users.len(),
            i <= n,
            db@.wf(),
            forall|j: int| 0 <= j < i ==> (#[trigger] db@.users[j]).name@ != name@,
        decreases n - i,
    {
        if db.users[i].name == *name {
            proof {
                assert(has_user_named(db@.users, name@));
                let k = user_ix_named(db@.users, name@);
                assert(db@.users[k].name@ == name@);
            }
            return Some(i);
        }
        i += 1;
    }
    None
}

/// Find the channel row with this unique name.
pub fn find_channel_by_name(db: &Db, name: &String) -> (r: Option<usize>)
    requires
        db@.wf(),
    ensures
        match r {
            Some(i) => has_channel_named(db@.channels, name@) && i == channel_ix_named(
                db@.channels,
                name@,
            ),
            None => !has_channel_named(db@.channels, name@),
        },
{
    let n = db.channels.len();
    let mut i: usize = 0;
    while i < n
        invariant
            n == db@.channels.len(),
            i <= n,
            db@.wf(),
            forall|j: int| 0 <= j < i ==> (#[trigger] db@.channels[j]).name@ != name@,
        decreases n - i,
    {
        if db.channels[i].name == *name {
            proof {
                assert(has_channel_named(db@.channels, name@));
                let k = channel_ix_named(db@.channels, name@);
                assert(db@.channels[k].name@ == name@);
            }
            return Some(i);
        }
        i += 1;
    }
    None
}

/// Decide whether a friendship row exists for this canonical pair.
pub fn friend_exists(db: &Db, k: TwoUsers) -> (r: bool)
    ensures
        r == has_friend(db@.friends, k),
{
    let n = db.friends.len();
    let mut i: usize = 0;
    while i < n
        invariant
            n == db@.friends.len(),
            i <= n,
            forall|j: int| 0 <= j < i ==> (#[trigger] db@.friends[j]).pair() != k,
        decreases n - i,
    {
        if db.friends[i].user_a == k.id_a && db.friends[i].user_b == k.id_b {
            proof {
                assert(db@.friends[i as int].pair() == k);
            }
            return true;
        }
        i += 1;
    }
    false
}

/// Find the request row for this canonical pair.
pub fn find_request(db: &Db, k: TwoUsers) -> (r: Option<usize>)
    requires
        db@.wf(),
    ensures
        match r {
            Some(i) => has_request(db@.friend_requests, k) && i == request_ix(
                db@.friend_requests,
                k,
            ),
            None => !has_request(db@.friend_requests, k),
        },
{
    let n = db.friend_requests.len();
    let mut i: usize = 0;
    while i < n
        invariant
            n == db@.friend_requests.len(),
            i <= n,
            db@.wf(),
            forall|j: int| 0 <= j < i ==> (#[trigger] db@.friend_requests[j]).pair() != k,
        decreases n - i,
    {
        if db.friend_requests[i].user_a == k.id_a && db.friend_requests[i].user_b == k.id_b {
            proof {
                assert(db@.friend_requests[i as int].pair() == k);
                assert(has_request(db@.friend_requests, k));
                let j = request_ix(db@.friend_requests, k);
                assert(db@.friend_requests[j].pair() == k);
            }
            return Some(i);
        }
        i += 1;
    }
    None
}

/// Find the membership row of this user in this channel.
pub fn find_member(db: &Db, user_id: UserId, channel_id: i128) -> (r: Option<usize>)
    requires
        db@.wf(),
    ensures
        match r {
            Some(i) => has_member(db@.members, user_id, channel_id) && i == member_ix(
                db@.members,
                user_id,
                channel_id,
            ),
            None => !has_member(db@.members, user_id, channel_id),
        },
{
    let n = db.members.len();
    let mut i: usize = 0;
    while i < n
        invariant
            n == db@.members.len(),
            i <= n,
            db@.wf(),
            forall|j: int|
                0 <= j < i ==> (#[trigger] db@.members[j]) != (Member { user_id, channel_id }),
        decreases n - i,
    {
        if db.members[i].user_id == user_id && db.members[i].channel_id == channel_id {
            proof {
                assert(db@.members[i as int] == (Member { user_id, channel_id }));
                assert(has_member(db@.members, user_id, channel_id));
                let j = member_ix(db@.members, user_id, channel_id);
                assert(db@.members[j] == (Member { user_id, channel_id }));
            }
            return Some(i);
        }
        i += 1;
    }
    None
}

/// Decide whether the channel has a member other than this user.
pub fn other_member_exists(db: &Db, channel_id: i128, user_id: UserId) -> (r: bool)
    ensures
        r == has_other_member(db@.members, channel_id, user_id),
{
    let n = db.members.len();
    let mut i: usize = 0;
    while i < n
        invariant
            n == db@.members.len(),
            i <= n,
            forall|j: int|
                0 <= j < i ==> !((#[trigger] db@.members[j]).channel_id == channel_id
                    && db@.members[j].user_id != user_id),
        decreases n - i,
    {
        if db.members[i].channel_id == channel_id && !(db.members[i].user_id == user_id) {
            return true;
        }
        i += 1;
    }
    false
}

/// Find the guild row with this id.
pub fn find_guild(db: &Db, id: i128) -> (r: Option<usize>)
    requires
        db@.wf(),
    ensures
        match r {
            Some(i) => has_guild(db@.guilds, id) && i == guild_ix(db@.guilds, id),
            None => !has_guild(db@.guilds, id),
        },
{
    let n = db.guilds.len();
    let mut i: usize = 0;
    while i < n
        invariant
            n == db@.guilds.len(),
            i <= n,
            db@.wf(),
            forall|j: int| 0 <= j < i ==> (#[trigger] db@.guilds[j]).id != id,
        decreases n - i,
    {
        if db.guilds[i].id == id {
            proof {
                assert(has_guild(db@.guilds, id));
                let k = guild_ix(db@.guilds, id);
                assert(db@.guilds[k].id == id);
            }
            return Some(i);
        }
        i += 1;
    }
    None
}

/// Find the guild channel row with this id.
pub fn find_guild_channel(db: &Db, id: i128) -> (r: Option<usize>)
    requires
        db@.wf(),
    ensures
        match r {
            Some(i) => has_guild_channel(db@.guild_channels, id) && i == guild_channel_ix(
                db@.guild_channels,
                id,
            ),
            None => !has_guild_channel(db@.guild_channels, id),
        },
{
    let n = db.guild_channels.len();
    let mut i: usize = 0;
    while i < n
        invariant
            n == db@.guild_channels.len(),
            i <= n,
            db@.wf(),
            forall|j: int| 0 <= j < i ==> (#[trigger] db@.guild_channels[j]).id != id,
        decreases n - i,
    {
        if db.guild_channels[i].id == id {
            proof {
                assert(has_guild_channel(db@.guild_channels, id));
                let k = guild_channel_ix(db@.guild_channels, id);
                assert(db@.guild_channels[k].id == id);
            }
            return Some(i);
        }
        i += 1;
    }
    None
}

/// Decide whether this user is a member of this guild.
pub fn guild_member_exists(db: &Db, user_id: UserId, guild_id: i128) -> (r: bool)
    ensures
        r == has_guild_member(db@.guild_members, user_id, guild_id),
{
    let n = db.guild_members.len();
    let mut i: usize = 0;
    while i < n
        invariant
            n == db@.guild_members.len(),
            i <= n,
            forall|j: int|
                0 <= j < i ==> (#[trigger] db@.guild_members[j]) != (GuildMember {
                    user_id,
                    guild_id,
                }),
        decreases n - i,
    {
        if db.guild_members[i].user_id == user_id && db.guild_members[i].guild_id == guild_id {
            proof {
                assert(db@.guild_members[i as int] == (GuildMember { user_id, guild_id }));
            }
            return true;
        }
        i += 1;
    }
    false
}

/// Find the role row with this id.
pub fn find_role(db: &Db, id: i128) -> (r: Option<usize>)
    requires
        db@.wf(),
    ensures
        match r {
            Some(i) => has_role(db@.guild_roles, id) && i == role_ix(db@.guild_roles, id),
            None => !has_role(db@.guild_roles, id),
        },
{
    let n = db.guild_roles.len();
    let mut i: usize = 0;
    while i < n
        invariant
            n == db@.guild_roles.len(),
            i <= n,
            db@.wf(),
            forall|j: int| 0 <= j < i ==> (#[trigger] db@.guild_roles[j]).id != id,
        decreases n - i,
    {
        if db.guild_roles[i].id == id {
            proof {
                assert(has_role(db@.guild_roles, id));
                let k = role_ix(db@.guild_roles, id);
                assert(db@.guild_roles[k].id == id);
            }
            return Some(i);
        }
        i += 1;
    }
    None
}

/// Find the permission row with this id.
pub fn find_permission(db: &Db, id: i128) -> (r: Option<usize>)
    requires
        db@.wf(),
    ensures
        match r {
            Some(i) => has_permission_id(db@.guild_permissions, id) && i == permission_ix(
                db@.guild_permissions,
                id,
            ),
            None => !has_permission_id(db@.guild_permissions, id),
        },
{
    let n = db.guild_permissions.len();
    let mut i: usize = 0;
    while i < n
        invariant
            n == db@.guild_permissions.len(),
            i <= n,
            db@.wf(),
            forall|j: int| 0 <= j < i ==> (#[trigger] db@.guild_permissions[j]).id != id,
        decreases n - i,
    {
        if db.guild_permissions[i].id == id {
            proof {
                assert(has_permission_id(db@.guild_permissions, id));
                let k = permission_ix(db@.guild_permissions, id);
                assert(db@.guild_permissions[k].id == id);
            }
            return Some(i);
        }
        i += 1;
    }
    None
}

/// Decide whether the role already carries exactly this permission.
pub fn grant_exists(db: &Db, role_id: i128, p: Permission) -> (r: bool)
    ensures
        r == has_grant(db@.guild_permissions, role_id, p),
{
    let n = db.guild_permissions.len();
    let mut i: usize = 0;
    while i < n
        invariant
            n == db@.guild_permissions.len(),
            i <= n,
            forall|j: int|
                0 <= j < i ==> !((#[trigger] db@.guild_permissions[j]).role_id == role_id
                    && db@.guild_permissions[j].permission == p),
        decreases n - i,
    {
        if db.guild_permissions[i].role_id == role_id && db.guild_permissions[i].permission == p {
            return true;
        }
        i += 1;
    }
    false
}

/// Find the role assignment row of this user for this role.
pub fn find_member_role(db: &Db, user_id: UserId, role_id: i128) -> (r: Option<usize>)
    requires
        db@.wf(),
    ensures
        match r {
            Some(i) => has_member_role(db@.guild_member_roles, user_id, role_id) && i
                == member_role_ix(db@.guild_member_roles, user_id, role_id),
            None => !has_member_role(db@.guild_member_roles, user_id, role_id),
        },
{
    let n = db.guild_member_roles.len();
    let mut i: usize = 0;
    while i < n
        invariant
            n == db@.guild_member_roles.len(),
            i <= n,
            db@.wf(),
            forall|j: int|
                0 <= j < i ==> (#[trigger] db@.guild_member_roles[j]) != (GuildMemberRole {
                    user_id,
                    role_id,
                }),
        decreases n - i,
    {
        if db.guild_member_roles[i].user_id == user_id && db.guild_member_roles[i].role_id
            == role_id {
            proof {
                assert(db@.guild_member_roles[i as int] == (GuildMemberRole { user_id, role_id }));
                assert(has_member_role(db@.guild_member_roles, user_id, role_id));
                let j = member_role_ix(db@.guild_member_roles, user_id, role_id);
                assert(db@.guild_member_roles[j] == (GuildMemberRole { user_id, role_id }));
            }
            return Some(i);
        }
        i += 1;
    }
    None
}

/// Decide whether this user has this role assigned.
pub fn member_role_exists(db: &Db, user_id: UserId, role_id: i128) -> (r: bool)
    ensures
        r == has_member_role(db@.guild_member_roles, user_id, role_id),
{
    let n = db.guild_member_roles.len();
    let mut i: usize = 0;
    while i < n
        invariant
            n == db@.guild_member_roles.len(),
            i <= n,
            forall|j: int|
                0 <= j < i ==> (#[trigger] db@.guild_member_roles[j]) != (GuildMemberRole {
                    user_id,
                    role_id,
                }),
        decreases n - i,
    {
        if db.guild_member_roles[i].user_id == user_id && db.guild_member_roles[i].role_id
            == role_id {
            proof {
                assert(db@.guild_member_roles[i as int] == (GuildMemberRole { user_id, role_id }));
            }
            return true;
        }
        i += 1;
    }
    false
}

} // verus!
