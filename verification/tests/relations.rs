use chatcore::db::Db;
use chatcore::errors::CmdError;
use chatcore::identity::set_name;
use chatcore::ids::{TwoUsers, UserId};
use chatcore::relations::{accept_friend, add_friend};

fn uid(n: u128) -> UserId {
    UserId { hi: 0, lo: n }
}

fn register(db: &mut Db, id: UserId, name: &str) {
    assert_eq!(set_name(db, id, name.to_string(), 10), Ok(()));
}

#[test]
fn canonical_key_is_commutative() {
    let a = UserId { hi: 3, lo: 7 };
    let b = UserId { hi: 3, lo: 9 };
    assert_eq!(TwoUsers::new(a, b), TwoUsers::new(b, a));
    let c = UserId { hi: 1, lo: 100 };
    assert_eq!(TwoUsers::new(a, c), TwoUsers::new(c, a));
    assert_eq!(TwoUsers::new(a, a), TwoUsers::new(a, a));
    let k = TwoUsers::new(b, c);
    assert_eq!(k.id_a, c);
    assert_eq!(k.id_b, b);
}

#[test]
fn repeated_request_is_rejected() {
    let mut db = Db::new();
    let alice = uid(1);
    let bob = uid(2);
    register(&mut db, alice, "alice");
    register(&mut db, bob, "bob");
    assert_eq!(add_friend(&mut db, alice, "bob".to_string()), Ok(()));
    assert_eq!(
        add_friend(&mut db, alice, "bob".to_string()),
        Err(CmdError::AlreadyRequested)
    );
    assert_eq!(db.friend_requests.len(), 1);
}

#[test]
fn friendship_round_trip() {
    let mut db = Db::new();
    let alice = uid(1);
    let bob = uid(2);
    register(&mut db, alice, "alice");
    register(&mut db, bob, "bob");
    // alice requests friendship with bob
    assert_eq!(add_friend(&mut db, alice, "bob".to_string()), Ok(()));
    // bob cannot re-request: both orders canonicalize to the same key
    assert_eq!(
        add_friend(&mut db, bob, "alice".to_string()),
        Err(CmdError::AlreadyRequested)
    );
    // bob accepts: the request row becomes a friendship row
    assert_eq!(accept_friend(&mut db, bob, "alice".to_string()), Ok(()));
    assert_eq!(db.friends.len(), 1);
    assert_eq!(db.friend_requests.len(), 0);
    // alice re-requesting now fails
    assert_eq!(
        add_friend(&mut db, alice, "bob".to_string()),
        Err(CmdError::AlreadyFriends)
    );
    // and so does accepting again
    assert_eq!(
        accept_friend(&mut db, alice, "bob".to_string()),
        Err(CmdError::AlreadyFriends)
    );
}

#[test]
fn friend_rows_are_stored_in_canonical_order() {
    let mut db = Db::new();
    let small = uid(1);
    let large = uid(9);
    register(&mut db, small, "small");
    register(&mut db, large, "large");
    // the larger identity requests first; the row is still ordered
    assert_eq!(add_friend(&mut db, large, "small".to_string()), Ok(()));
    assert_eq!(db.friend_requests[0].user_a, small);
    assert_eq!(db.friend_requests[0].user_b, large);
    assert_eq!(accept_friend(&mut db, small, "large".to_string()), Ok(()));
    assert_eq!(db.friends[0].user_a, small);
    assert_eq!(db.friends[0].user_b, large);
}

#[test]
fn request_needs_registered_users() {
    let mut db = Db::new();
    let alice = uid(1);
    assert_eq!(
        add_friend(&mut db, alice, "bob".to_string()),
        Err(CmdError::NotFound)
    );
    register(&mut db, alice, "alice");
    assert_eq!(
        add_friend(&mut db, alice, "bob".to_string()),
        Err(CmdError::NotFound)
    );
}

#[test]
fn accept_without_request_is_rejected() {
    let mut db = Db::new();
    let alice = uid(1);
    let bob = uid(2);
    register(&mut db, alice, "alice");
    register(&mut db, bob, "bob");
    assert_eq!(
        accept_friend(&mut db, bob, "alice".to_string()),
        Err(CmdError::NotRequested)
    );
}
