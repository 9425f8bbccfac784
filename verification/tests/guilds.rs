use chatcore::db::Db;
use chatcore::errors::CmdError;
use chatcore::identity::set_name;
use chatcore::ids::UserId;
use chatcore::membership::{create_guild, create_guild_channel, delete_guild_channel, join_guild};
use chatcore::messages::send_guild_message;
use chatcore::permissions::{
    add_permission, add_role_user, can_write, create_role, remove_permission, remove_role,
    remove_role_user, set_role_color, set_role_name,
};
use chatcore::rows::Permission;

fn uid(n: u128) -> UserId {
    UserId { hi: 0, lo: n }
}

fn register(db: &mut Db, id: UserId, name: &str) {
    assert_eq!(set_name(db, id, name.to_string(), 10), Ok(()));
}

#[test]
fn write_grant_gates_guild_posting() {
    let mut db = Db::new();
    let owner = uid(1);
    let carol = uid(2);
    register(&mut db, owner, "dave");
    register(&mut db, carol, "carol");
    assert_eq!(create_guild(&mut db, owner, "club".to_string(), 20), Ok(()));
    // guild channels with sequential ids up to 6
    for name in ["a", "b", "c", "d", "e", "f"] {
        assert_eq!(
            create_guild_channel(&mut db, owner, 1, name.to_string(), 21),
            Ok(())
        );
    }
    assert_eq!(db.guild_channels[4].id, 5);
    assert_eq!(db.guild_channels[5].id, 6);
    // the owner creates role "mod" with a write grant for channel 5 and
    // assigns it to carol
    assert_eq!(
        create_role(&mut db, owner, 1, "mod".to_string(), 0x00ff00),
        Ok(())
    );
    assert_eq!(add_permission(&mut db, owner, 1, Permission::Write(5)), Ok(()));
    assert_eq!(
        add_role_user(&mut db, owner, 1, "carol".to_string()),
        Ok(())
    );
    // carol (non-owner) posts to channel 5: succeeds
    assert!(can_write(&db, carol, 5));
    assert_eq!(
        send_guild_message(&mut db, carol, 5, "hi".to_string(), 30),
        Ok(())
    );
    assert_eq!(db.guild_messages.len(), 1);
    assert_eq!(db.guild_messages[0].channel_id, 5);
    assert_eq!(db.guild_messages[0].sender, "carol");
    // carol posts to channel 6, where no role of hers grants writing
    assert!(!can_write(&db, carol, 6));
    assert_eq!(
        send_guild_message(&mut db, carol, 6, "hi".to_string(), 31),
        Err(CmdError::PermissionDenied)
    );
    // a read grant on channel 6 does not allow writing either
    assert_eq!(add_permission(&mut db, owner, 1, Permission::Read(6)), Ok(()));
    assert_eq!(
        send_guild_message(&mut db, carol, 6, "hi".to_string(), 32),
        Err(CmdError::PermissionDenied)
    );
}

#[test]
fn owner_bypasses_the_permission_check() {
    let mut db = Db::new();
    let owner = uid(1);
    register(&mut db, owner, "dave");
    assert_eq!(create_guild(&mut db, owner, "club".to_string(), 20), Ok(()));
    assert_eq!(
        create_guild_channel(&mut db, owner, 1, "general".to_string(), 21),
        Ok(())
    );
    assert!(can_write(&db, owner, 1));
    assert_eq!(
        send_guild_message(&mut db, owner, 1, "welcome".to_string(), 30),
        Ok(())
    );
    assert_eq!(db.guild_messages[0].id, 1);
}

#[test]
fn removing_a_role_cascades() {
    let mut db = Db::new();
    let owner = uid(1);
    let carol = uid(2);
    register(&mut db, owner, "dave");
    register(&mut db, carol, "carol");
    assert_eq!(create_guild(&mut db, owner, "club".to_string(), 20), Ok(()));
    assert_eq!(
        create_guild_channel(&mut db, owner, 1, "general".to_string(), 21),
        Ok(())
    );
    assert_eq!(
        create_role(&mut db, owner, 1, "mod".to_string(), 7),
        Ok(())
    );
    assert_eq!(add_permission(&mut db, owner, 1, Permission::Write(1)), Ok(()));
    assert_eq!(add_permission(&mut db, owner, 1, Permission::Read(1)), Ok(()));
    assert_eq!(add_role_user(&mut db, owner, 1, "carol".to_string()), Ok(()));
    assert_eq!(db.guild_permissions.len(), 2);
    assert_eq!(db.guild_member_roles.len(), 1);
    // removing the role deletes its grants and its assignments atomically
    assert_eq!(remove_role(&mut db, owner, 1), Ok(()));
    assert!(db.guild_roles.iter().all(|r| r.id != 1));
    assert!(db.guild_permissions.iter().all(|p| p.role_id != 1));
    assert!(db.guild_member_roles.iter().all(|m| m.role_id != 1));
    assert_eq!(db.guild_permissions.len(), 0);
    assert_eq!(db.guild_member_roles.len(), 0);
    // carol has lost the grant
    assert!(!can_write(&db, carol, 1));
}

#[test]
fn role_mutations_are_owner_gated() {
    let mut db = Db::new();
    let owner = uid(1);
    let carol = uid(2);
    register(&mut db, owner, "dave");
    register(&mut db, carol, "carol");
    assert_eq!(create_guild(&mut db, owner, "club".to_string(), 20), Ok(()));
    assert_eq!(
        create_role(&mut db, carol, 1, "mod".to_string(), 7),
        Err(CmdError::NotOwner)
    );
    assert_eq!(create_role(&mut db, owner, 1, "mod".to_string(), 7), Ok(()));
    assert_eq!(
        set_role_name(&mut db, carol, 1, "admin".to_string()),
        Err(CmdError::NotOwner)
    );
    assert_eq!(set_role_color(&mut db, carol, 1, 9), Err(CmdError::NotOwner));
    assert_eq!(remove_role(&mut db, carol, 1), Err(CmdError::NotOwner));
    assert_eq!(
        add_permission(&mut db, carol, 1, Permission::Write(1)),
        Err(CmdError::NotOwner)
    );
    assert_eq!(
        add_role_user(&mut db, carol, 1, "carol".to_string()),
        Err(CmdError::NotOwner)
    );
    // the owner may rename and recolor
    assert_eq!(set_role_name(&mut db, owner, 1, "admin".to_string()), Ok(()));
    assert_eq!(db.guild_roles[0].name, "admin");
    assert_eq!(set_role_color(&mut db, owner, 1, 9), Ok(()));
    assert_eq!(db.guild_roles[0].color, 9);
}

#[test]
fn duplicate_grants_are_rejected() {
    let mut db = Db::new();
    let owner = uid(1);
    register(&mut db, owner, "dave");
    assert_eq!(create_guild(&mut db, owner, "club".to_string(), 20), Ok(()));
    assert_eq!(create_role(&mut db, owner, 1, "mod".to_string(), 7), Ok(()));
    assert_eq!(add_permission(&mut db, owner, 1, Permission::Write(5)), Ok(()));
    assert_eq!(
        add_permission(&mut db, owner, 1, Permission::Write(5)),
        Err(CmdError::DuplicatePermission)
    );
    // the same channel under a different variant is a different grant
    assert_eq!(add_permission(&mut db, owner, 1, Permission::Read(5)), Ok(()));
    assert_eq!(db.guild_permissions.len(), 2);
    // detaching by permission id works and frees the grant
    assert_eq!(remove_permission(&mut db, owner, 1), Ok(()));
    assert_eq!(add_permission(&mut db, owner, 1, Permission::Write(5)), Ok(()));
}

#[test]
fn role_assignment_round_trip() {
    let mut db = Db::new();
    let owner = uid(1);
    let carol = uid(2);
    register(&mut db, owner, "dave");
    register(&mut db, carol, "carol");
    assert_eq!(create_guild(&mut db, owner, "club".to_string(), 20), Ok(()));
    assert_eq!(create_role(&mut db, owner, 1, "mod".to_string(), 7), Ok(()));
    assert_eq!(
        remove_role_user(&mut db, owner, 1, "carol".to_string()),
        Err(CmdError::NotAssigned)
    );
    assert_eq!(add_role_user(&mut db, owner, 1, "carol".to_string()), Ok(()));
    assert_eq!(
        add_role_user(&mut db, owner, 1, "carol".to_string()),
        Err(CmdError::AlreadyAssigned)
    );
    assert_eq!(remove_role_user(&mut db, owner, 1, "carol".to_string()), Ok(()));
    assert_eq!(db.guild_member_roles.len(), 0);
}

#[test]
fn guild_membership() {
    let mut db = Db::new();
    let owner = uid(1);
    let bob = uid(2);
    register(&mut db, owner, "dave");
    register(&mut db, bob, "bob");
    assert_eq!(create_guild(&mut db, owner, "club".to_string(), 20), Ok(()));
    // the creator is already a member
    assert_eq!(join_guild(&mut db, owner, 1), Err(CmdError::AlreadyMember));
    assert_eq!(join_guild(&mut db, bob, 99), Err(CmdError::NotFound));
    assert_eq!(join_guild(&mut db, bob, 1), Ok(()));
    assert_eq!(join_guild(&mut db, bob, 1), Err(CmdError::AlreadyMember));
    assert_eq!(db.guild_members.len(), 2);
}

#[test]
fn guild_channels_are_owner_managed() {
    let mut db = Db::new();
    let owner = uid(1);
    let bob = uid(2);
    register(&mut db, owner, "dave");
    register(&mut db, bob, "bob");
    assert_eq!(create_guild(&mut db, owner, "club".to_string(), 20), Ok(()));
    assert_eq!(
        create_guild_channel(&mut db, bob, 1, "general".to_string(), 21),
        Err(CmdError::NotOwner)
    );
    assert_eq!(
        create_guild_channel(&mut db, owner, 1, "general".to_string(), 21),
        Ok(())
    );
    assert_eq!(delete_guild_channel(&mut db, bob, 1), Err(CmdError::NotOwner));
    assert_eq!(delete_guild_channel(&mut db, owner, 99), Err(CmdError::NotFound));
    assert_eq!(delete_guild_channel(&mut db, owner, 1), Ok(()));
    assert_eq!(db.guild_channels.len(), 0);
}
