use chatcore::db::Db;
use chatcore::errors::CmdError;
use chatcore::identity::set_name;
use chatcore::ids::UserId;
use chatcore::membership::{add_user, create_channel, remove_user};

fn uid(n: u128) -> UserId {
    UserId { hi: 0, lo: n }
}

fn register(db: &mut Db, id: UserId, name: &str) {
    assert_eq!(set_name(db, id, name.to_string(), 10), Ok(()));
}

fn member_count(db: &Db, channel_id: i128) -> usize {
    db.members
        .iter()
        .filter(|m| m.channel_id == channel_id)
        .count()
}

#[test]
fn channel_lifecycle() {
    let mut db = Db::new();
    let alice = uid(1);
    let bob = uid(2);
    register(&mut db, alice, "alice");
    // create user "alice", create channel "general": exactly one member
    assert_eq!(create_channel(&mut db, alice, "general".to_string(), 20), Ok(()));
    assert_eq!(db.channels.len(), 1);
    assert_eq!(db.channels[0].id, 1);
    assert_eq!(db.channels[0].owner, alice);
    assert_eq!(member_count(&db, 1), 1);
    assert_eq!(db.members[0].user_id, alice);
    // "bob" registers; alice adds him: member count becomes 2
    register(&mut db, bob, "bob");
    assert_eq!(
        add_user(&mut db, alice, "general".to_string(), "bob".to_string()),
        Ok(())
    );
    assert_eq!(member_count(&db, 1), 2);
    // alice removing herself now fails: she must transfer ownership first
    assert_eq!(
        remove_user(&mut db, alice, "general".to_string(), "alice".to_string()),
        Err(CmdError::OwnerMustTransferFirst)
    );
    // bob is removed by the owner: member count back to 1
    assert_eq!(
        remove_user(&mut db, alice, "general".to_string(), "bob".to_string()),
        Ok(())
    );
    assert_eq!(member_count(&db, 1), 1);
    // alice removes herself as last member: the channel is deleted
    assert_eq!(
        remove_user(&mut db, alice, "general".to_string(), "alice".to_string()),
        Ok(())
    );
    assert_eq!(db.channels.len(), 0);
    assert_eq!(db.members.len(), 0);
}

#[test]
fn channel_names_are_unique() {
    let mut db = Db::new();
    let alice = uid(1);
    register(&mut db, alice, "alice");
    assert_eq!(create_channel(&mut db, alice, "general".to_string(), 20), Ok(()));
    assert_eq!(
        create_channel(&mut db, alice, "general".to_string(), 21),
        Err(CmdError::NameTaken)
    );
    assert_eq!(db.channels.len(), 1);
}

#[test]
fn channel_ids_are_sequential() {
    let mut db = Db::new();
    let alice = uid(1);
    register(&mut db, alice, "alice");
    assert_eq!(create_channel(&mut db, alice, "one".to_string(), 20), Ok(()));
    assert_eq!(create_channel(&mut db, alice, "two".to_string(), 21), Ok(()));
    assert_eq!(create_channel(&mut db, alice, "three".to_string(), 22), Ok(()));
    assert_eq!(db.channels[0].id, 1);
    assert_eq!(db.channels[1].id, 2);
    assert_eq!(db.channels[2].id, 3);
}

#[test]
fn create_channel_requires_registration_and_valid_name() {
    let mut db = Db::new();
    let alice = uid(1);
    assert_eq!(
        create_channel(&mut db, alice, "general".to_string(), 20),
        Err(CmdError::NotRegistered)
    );
    register(&mut db, alice, "alice");
    assert_eq!(
        create_channel(&mut db, alice, "".to_string(), 20),
        Err(CmdError::InvalidName)
    );
}

#[test]
fn add_user_failure_kinds() {
    let mut db = Db::new();
    let alice = uid(1);
    let bob = uid(2);
    let carol = uid(3);
    register(&mut db, alice, "alice");
    assert_eq!(create_channel(&mut db, alice, "general".to_string(), 20), Ok(()));
    // channel must exist
    assert_eq!(
        add_user(&mut db, alice, "nowhere".to_string(), "bob".to_string()),
        Err(CmdError::NotFound)
    );
    // the acting caller must be registered
    assert_eq!(
        add_user(&mut db, carol, "general".to_string(), "alice".to_string()),
        Err(CmdError::NotRegistered)
    );
    // the target must exist
    assert_eq!(
        add_user(&mut db, alice, "general".to_string(), "bob".to_string()),
        Err(CmdError::NotFound)
    );
    register(&mut db, bob, "bob");
    assert_eq!(
        add_user(&mut db, alice, "general".to_string(), "bob".to_string()),
        Ok(())
    );
    // adding twice is rejected
    assert_eq!(
        add_user(&mut db, alice, "general".to_string(), "bob".to_string()),
        Err(CmdError::AlreadyMember)
    );
}

#[test]
fn only_the_owner_removes_members() {
    let mut db = Db::new();
    let alice = uid(1);
    let bob = uid(2);
    register(&mut db, alice, "alice");
    register(&mut db, bob, "bob");
    assert_eq!(create_channel(&mut db, alice, "general".to_string(), 20), Ok(()));
    assert_eq!(
        add_user(&mut db, alice, "general".to_string(), "bob".to_string()),
        Ok(())
    );
    assert_eq!(
        remove_user(&mut db, bob, "general".to_string(), "alice".to_string()),
        Err(CmdError::NotOwner)
    );
}

#[test]
fn removing_a_non_member_is_rejected() {
    let mut db = Db::new();
    let alice = uid(1);
    let bob = uid(2);
    register(&mut db, alice, "alice");
    register(&mut db, bob, "bob");
    assert_eq!(create_channel(&mut db, alice, "general".to_string(), 20), Ok(()));
    assert_eq!(
        remove_user(&mut db, alice, "general".to_string(), "bob".to_string()),
        Err(CmdError::NotMember)
    );
}
