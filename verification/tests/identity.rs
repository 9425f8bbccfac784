use chatcore::db::Db;
use chatcore::errors::CmdError;
use chatcore::identity::{client_connected, client_disconnected, set_display_name, set_name};
use chatcore::ids::UserId;
use chatcore::validation::{validate_message, validate_name};

fn uid(n: u128) -> UserId {
    UserId { hi: 0, lo: n }
}

#[test]
fn set_name_registers_the_identity() {
    let mut db = Db::new();
    let alice = uid(1);
    assert_eq!(set_name(&mut db, alice, "alice".to_string(), 42), Ok(()));
    assert_eq!(db.users.len(), 1);
    assert_eq!(db.users[0].id, alice);
    assert_eq!(db.users[0].name, "alice");
    assert_eq!(db.users[0].display_name, "alice");
    assert!(db.users[0].online);
    assert_eq!(db.users[0].created_at, 42);
}

#[test]
fn set_name_changes_only_the_name() {
    let mut db = Db::new();
    let alice = uid(1);
    assert_eq!(set_name(&mut db, alice, "alice".to_string(), 42), Ok(()));
    assert_eq!(set_name(&mut db, alice, "alicia".to_string(), 50), Ok(()));
    assert_eq!(db.users.len(), 1);
    assert_eq!(db.users[0].name, "alicia");
    // display name and creation time are untouched
    assert_eq!(db.users[0].display_name, "alice");
    assert_eq!(db.users[0].created_at, 42);
}

#[test]
fn names_are_unique_even_against_oneself() {
    let mut db = Db::new();
    let alice = uid(1);
    let bob = uid(2);
    assert_eq!(set_name(&mut db, alice, "alice".to_string(), 42), Ok(()));
    assert_eq!(
        set_name(&mut db, bob, "alice".to_string(), 43),
        Err(CmdError::NameTaken)
    );
    // setting one's own current name again is also a collision
    assert_eq!(
        set_name(&mut db, alice, "alice".to_string(), 44),
        Err(CmdError::NameTaken)
    );
}

#[test]
fn invalid_names_are_rejected() {
    let mut db = Db::new();
    let alice = uid(1);
    assert_eq!(
        set_name(&mut db, alice, "".to_string(), 42),
        Err(CmdError::InvalidName)
    );
    let long = "x".repeat(65);
    assert_eq!(
        set_name(&mut db, alice, long, 42),
        Err(CmdError::InvalidName)
    );
    assert_eq!(
        set_name(&mut db, alice, "\u{e9}toile".to_string(), 42),
        Err(CmdError::InvalidName)
    );
    assert_eq!(db.users.len(), 0);
}

#[test]
fn display_name_needs_a_registered_identity() {
    let mut db = Db::new();
    let alice = uid(1);
    assert_eq!(
        set_display_name(&mut db, alice, "Alice".to_string()),
        Err(CmdError::NotRegistered)
    );
    assert_eq!(set_name(&mut db, alice, "alice".to_string(), 42), Ok(()));
    assert_eq!(set_display_name(&mut db, alice, "Alice".to_string()), Ok(()));
    assert_eq!(db.users[0].display_name, "Alice");
    assert_eq!(db.users[0].name, "alice");
}

#[test]
fn connection_callbacks_toggle_the_online_flag() {
    let mut db = Db::new();
    let alice = uid(1);
    // a no-op for unregistered identities
    client_connected(&mut db, alice);
    client_disconnected(&mut db, alice);
    assert_eq!(db.users.len(), 0);
    assert_eq!(set_name(&mut db, alice, "alice".to_string(), 42), Ok(()));
    client_disconnected(&mut db, alice);
    assert!(!db.users[0].online);
    client_connected(&mut db, alice);
    assert!(db.users[0].online);
}

#[test]
fn validators_accept_exactly_the_bounded_ascii_strings() {
    assert!(validate_name("a"));
    assert!(validate_name(&"x".repeat(64)));
    assert!(!validate_name(&"x".repeat(65)));
    assert!(!validate_name(""));
    assert!(!validate_name("\u{e9}"));
    assert!(validate_message("hello"));
    assert!(validate_message(&"m".repeat(1024)));
    assert!(!validate_message(&"m".repeat(1025)));
    assert!(!validate_message(""));
}

#[test]
fn failure_reasons_are_short_strings() {
    assert_eq!(CmdError::NotFound.reason(), "Not found");
    assert_eq!(CmdError::NameTaken.reason(), "Name not available");
    assert_eq!(
        CmdError::PermissionDenied.reason(),
        "You don't have enough permission"
    );
}
