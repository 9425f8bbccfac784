use chatcore::db::Db;
use chatcore::errors::CmdError;
use chatcore::identity::set_name;
use chatcore::ids::UserId;
use chatcore::membership::{create_channel, create_guild, create_guild_channel};
use chatcore::messages::{send_guild_message, send_message};
use chatcore::permissions::{add_permission, add_role_user, create_role};
use chatcore::rows::Permission;

fn uid(n: u128) -> UserId {
    UserId { hi: 0, lo: n }
}

fn register(db: &mut Db, id: UserId, name: &str) {
    assert_eq!(set_name(db, id, name.to_string(), 10), Ok(()));
}

#[test]
fn messages_are_appended_with_increasing_ids() {
    let mut db = Db::new();
    let alice = uid(1);
    register(&mut db, alice, "alice");
    assert_eq!(create_channel(&mut db, alice, "general".to_string(), 20), Ok(()));
    assert_eq!(
        send_message(&mut db, alice, "first".to_string(), "general".to_string(), 30),
        Ok(())
    );
    assert_eq!(
        send_message(&mut db, alice, "second".to_string(), "general".to_string(), 31),
        Ok(())
    );
    assert_eq!(db.messages.len(), 2);
    assert_eq!(db.messages[0].id, 1);
    assert_eq!(db.messages[1].id, 2);
    assert_eq!(db.messages[0].text, "first");
    assert_eq!(db.messages[0].sender, "alice");
    assert_eq!(db.messages[0].channel_id, 1);
    assert_eq!(db.messages[0].sent, 30);
}

#[test]
fn send_message_failure_kinds() {
    let mut db = Db::new();
    let alice = uid(1);
    // the caller must be registered
    assert_eq!(
        send_message(&mut db, alice, "hi".to_string(), "general".to_string(), 30),
        Err(CmdError::NotRegistered)
    );
    register(&mut db, alice, "alice");
    // the channel must exist
    assert_eq!(
        send_message(&mut db, alice, "hi".to_string(), "general".to_string(), 30),
        Err(CmdError::NotFound)
    );
    assert_eq!(create_channel(&mut db, alice, "general".to_string(), 20), Ok(()));
    // the text must pass the validator
    assert_eq!(
        send_message(&mut db, alice, "".to_string(), "general".to_string(), 30),
        Err(CmdError::InvalidMessage)
    );
    assert_eq!(db.messages.len(), 0);
}

#[test]
fn sender_name_is_recorded_at_posting_time() {
    let mut db = Db::new();
    let alice = uid(1);
    register(&mut db, alice, "alice");
    assert_eq!(create_channel(&mut db, alice, "general".to_string(), 20), Ok(()));
    assert_eq!(
        send_message(&mut db, alice, "hi".to_string(), "general".to_string(), 30),
        Ok(())
    );
    // renaming later does not rewrite the append-only log
    assert_eq!(set_name(&mut db, alice, "alicia".to_string(), 40), Ok(()));
    assert_eq!(db.messages[0].sender, "alice");
}

#[test]
fn guild_message_precedence_checks_permission_before_text() {
    let mut db = Db::new();
    let owner = uid(1);
    let carol = uid(2);
    register(&mut db, owner, "dave");
    register(&mut db, carol, "carol");
    assert_eq!(create_guild(&mut db, owner, "club".to_string(), 20), Ok(()));
    assert_eq!(
        create_guild_channel(&mut db, owner, 1, "general".to_string(), 21),
        Ok(())
    );
    // without a grant, the empty text still reports PermissionDenied
    assert_eq!(
        send_guild_message(&mut db, carol, 1, "".to_string(), 30),
        Err(CmdError::PermissionDenied)
    );
    assert_eq!(create_role(&mut db, owner, 1, "mod".to_string(), 7), Ok(()));
    assert_eq!(add_permission(&mut db, owner, 1, Permission::Write(1)), Ok(()));
    assert_eq!(add_role_user(&mut db, owner, 1, "carol".to_string()), Ok(()));
    // with the grant, the invalid text is reported
    assert_eq!(
        send_guild_message(&mut db, carol, 1, "".to_string(), 30),
        Err(CmdError::InvalidMessage)
    );
    assert_eq!(
        send_guild_message(&mut db, carol, 1, "hello".to_string(), 30),
        Ok(())
    );
}

#[test]
fn guild_message_requires_registration_and_channel() {
    let mut db = Db::new();
    let owner = uid(1);
    let stranger = uid(9);
    register(&mut db, owner, "dave");
    assert_eq!(create_guild(&mut db, owner, "club".to_string(), 20), Ok(()));
    assert_eq!(
        send_guild_message(&mut db, stranger, 1, "hi".to_string(), 30),
        Err(CmdError::NotRegistered)
    );
    assert_eq!(
        send_guild_message(&mut db, owner, 1, "hi".to_string(), 30),
        Err(CmdError::NotFound)
    );
}

#[test]
fn the_log_outlives_its_channel() {
    let mut db = Db::new();
    let alice = uid(1);
    register(&mut db, alice, "alice");
    assert_eq!(create_channel(&mut db, alice, "general".to_string(), 20), Ok(()));
    assert_eq!(
        send_message(&mut db, alice, "hi".to_string(), "general".to_string(), 30),
        Ok(())
    );
    assert_eq!(
        chatcore::membership::remove_user(&mut db, alice, "general".to_string(), "alice".to_string()),
        Ok(())
    );
    assert_eq!(db.channels.len(), 0);
    // the append-only log keeps the message
    assert_eq!(db.messages.len(), 1);
    assert_eq!(db.messages[0].text, "hi");
}
