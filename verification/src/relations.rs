//! The symmetric friendship relation: requesting and accepting.
//!
//! Both tables are keyed by the canonical pair of the two identities, so
//! a pair is related at most once however the callers order themselves,
//! and a pair never holds a friendship row and a request row at once.

use vstd::prelude::*;
use crate::db::{
    find_request, find_user_by_id, find_user_by_name, friend_exists, has_friend, has_request,
    has_user_id, has_user_named, relations_exclusive, request_ix, requests_wf, user_id_named, Db,
    DbSnap,
};
use crate::errors::CmdError;
use crate::ids::{canonical_pair, TwoUsers, UserId};
use crate::rows::{Friend, FriendRequest};

verus! {

/// Law: a pair has at most one of a friendship row and an outstanding
/// request row in any well-formed state.
pub proof fn lemma_friendship_exclusive(s: DbSnap, a: UserId, b: UserId)
    requires
        s.wf(),
    ensures
        !(has_friend(s.friends, canonical_pair(a, b)) && has_request(
            s.friend_requests,
            canonical_pair(a, b),
        )),
{
    let k = canonical_pair(a, b);
    if has_friend(s.friends, k) && has_request(s.friend_requests, k) {
        let i = choose|i: int| 0 <= i < s.friends.len() && (#[trigger] s.friends[i]).pair() == k;
        let j = choose|j: int|
            0 <= j < s.friend_requests.len() && (#[trigger] s.friend_requests[j]).pair() == k;
        assert(s.friends[i].pair() != s.friend_requests[j].pair());
    }
}

/// Law: requesting friendship twice in sequence succeeds once and is then
/// rejected. The hypotheses are exactly the condition under which
/// [`add_friend`] succeeds; its contract makes the state after that first
/// call the one pushed row, and in that state the same hypotheses resolve
/// the same canonical pair, which now has an outstanding request and still
/// no friendship row — the condition under which [`add_friend`] reports
/// the duplicate.
pub proof fn lemma_second_request_is_rejected(s: DbSnap, caller: UserId, user_name: Seq<char>)
    requires
        s.wf(),
        has_user_id(s.users, caller),
        has_user_named(s.users, user_name),
        !has_friend(s.friends, canonical_pair(caller, user_id_named(s.users, user_name))),
        !has_request(s.friend_requests, canonical_pair(caller, user_id_named(s.users, user_name))),
    ensures
        ({
            let k = canonical_pair(caller, user_id_named(s.users, user_name));
            let t = DbSnap {
                friend_requests: s.friend_requests.push(
                    FriendRequest { user_a: k.id_a, user_b: k.id_b },
                ),
                ..s
            };
            &&& has_user_id(t.users, caller)
            &&& has_user_named(t.users, user_name)
            &&& user_id_named(t.users, user_name) == user_id_named(s.users, user_name)
            &&& !has_friend(t.friends, k)
            &&& has_request(t.friend_requests, k)
        }),
{
    let k = canonical_pair(caller, user_id_named(s.users, user_name));
    let row = FriendRequest { user_a: k.id_a, user_b: k.id_b };
    let t = DbSnap { friend_requests: s.friend_requests.push(row), ..s };
    assert(row.pair() == k);
    assert(t.friend_requests[s.friend_requests.len() as int] == row);
    assert(has_request(t.friend_requests, k));
}

/// Appending a request row for a fresh canonical pair: how the request
/// index changes and why the relation invariants survive.
proof fn lemma_request_pushed(f: Seq<Friend>, rs: Seq<FriendRequest>, x: FriendRequest)
    requires
        requests_wf(rs),
        x.pair().wf(),
        !has_request(rs, x.pair()),
        !has_friend(f, x.pair()),
        relations_exclusive(f, rs),
    ensures
        requests_wf(rs.push(x)),
        relations_exclusive(f, rs.push(x)),
        forall|k: TwoUsers| #[trigger] has_request(rs.push(x), k) == (has_request(rs, k)
            || x.pair() == k),
{
    let t = rs.push(x);
    let m = rs.len() as int;
    assert(t[m] == x);
    assert forall|k: TwoUsers| #[trigger] has_request(t, k) == (has_request(rs, k) || x.pair()
        == k) by {
        if has_request(rs, k) {
            let w = choose|i: int| 0 <= i < rs.len() && (#[trigger] rs[i]).pair() == k;
            assert(t[w].pair() == k);
        }
        if has_request(t, k) && !(x.pair() == k) {
            let w = choose|i: int| 0 <= i < t.len() && (#[trigger] t[i]).pair() == k;
            assert(rs[w].pair() == k);
        }
    }
    assert forall|i: int, j: int| 0 <= i < j < t.len() implies (#[trigger] t[i]).pair() != (
    #[trigger] t[j]).pair() by {
        if j < m {
            assert(rs[i].pair() != rs[j].pair());
        } else {
            assert(t[i] == rs[i]);
            assert(has_request(rs, rs[i].pair()));
        }
    }
    assert forall|i: int, j: int|
        0 <= i < f.len() && 0 <= j < t.len() implies (#[trigger] f[i]).pair() != (
    #[trigger] t[j]).pair() by {
        if j < m {
            assert(f[i].pair() != rs[j].pair());
        } else {
            assert(has_friend(f, f[i].pair()));
        }
    }
}

/// Request friendship with the named user: inserts a request row for the
/// canonical pair unless the pair is already related or requested.
pub fn add_friend(db: &mut Db, caller: UserId, user_name: String) -> (r: Result<(), CmdError>)
    requires
        old(db)@.wf(),
    ensures
        final(db)@.wf(),
        ({
            let s = old(db)@;
            let both = has_user_id(s.users, caller) && has_user_named(s.users, user_name@);
            let k = canonical_pair(caller, user_id_named(s.users, user_name@));
            &&& (r == Err::<(), CmdError>(CmdError::NotFound) <==> !both)
            &&& (r == Err::<(), CmdError>(CmdError::AlreadyFriends) <==> both && has_friend(
                s.friends,
                k,
            ))
            &&& (r == Err::<(), CmdError>(CmdError::AlreadyRequested) <==> both && !has_friend(
                s.friends,
                k,
            ) && has_request(s.friend_requests, k))
            &&& (r is Ok <==> both && !has_friend(s.friends, k) && !has_request(
                s.friend_requests,
                k,
            ))
            &&& (r is Err ==> *final(db) == *old(db))
            &&& (r is Ok ==> final(db)@ == (DbSnap {
                friend_requests: s.friend_requests.push(
                    (FriendRequest { user_a: k.id_a, user_b: k.id_b }),
                ),
                ..s
            }))
        }),
{
    if find_user_by_id(db, caller).is_none() {
        return Err(CmdError::NotFound);
    }
    let target = match find_user_by_name(db, &user_name) {
        Some(i) => i,
        None => {
            return Err(CmdError::NotFound);
        },
    };
    let target_id = db.users[target].id;
    let k = TwoUsers::new(caller, target_id);
    if friend_exists(db, k) {
        return Err(CmdError::AlreadyFriends);
    }
    if find_request(db, k).is_some() {
        return Err(CmdError::AlreadyRequested);
    }
    let ghost s = db@;
    let row = FriendRequest { user_a: k.id_a, user_b: k.id_b };
    db.friend_requests.push(row);
    proof {
        let t = db@;
        assert(row.pair() == k);
        lemma_request_pushed(s.friends, s.friend_requests, row);
        assert(t =~= (DbSnap { friend_requests: s.friend_requests.push(row), ..s }));
    }
    Ok(())
}

/// Accept the named user's friendship request: atomically deletes the
/// request row and inserts the friendship row for the same canonical pair.
pub fn accept_friend(db: &mut Db, caller: UserId, user_name: String) -> (r: Result<(), CmdError>)
    requires
        old(db)@.wf(),
    ensures
        final(db)@.wf(),
        ({
            let s = old(db)@;
            let both = has_user_id(s.users, caller) && has_user_named(s.users, user_name@);
            let k = canonical_pair(caller, user_id_named(s.users, user_name@));
            &&& (r == Err::<(), CmdError>(CmdError::NotFound) <==> !both)
            &&& (r == Err::<(), CmdError>(CmdError::AlreadyFriends) <==> both && has_friend(
                s.friends,
                k,
            ))
            &&& (r == Err::<(), CmdError>(CmdError::NotRequested) <==> both && !has_friend(
                s.friends,
                k,
            ) && !has_request(s.friend_requests, k))
            &&& (r is Ok <==> both && !has_friend(s.friends, k) && has_request(
                s.friend_requests,
                k,
            ))
            &&& (r is Err ==> *final(db) == *old(db))
            &&& (r is Ok ==> final(db)@ == (DbSnap {
                friends: s.friends.push((Friend { user_a: k.id_a, user_b: k.id_b })),
                friend_requests: s.friend_requests.remove(request_ix(s.friend_requests, k)),
                ..s
            }))
        }),
{
    if find_user_by_id(db, caller).is_none() {
        return Err(CmdError::NotFound);
    }
    let target = match find_user_by_name(db, &user_name) {
        Some(i) => i,
        None => {
            return Err(CmdError::NotFound);
        },
    };
    let target_id = db.users[target].id;
    let k = TwoUsers::new(caller, target_id);
    if friend_exists(db, k) {
        return Err(CmdError::AlreadyFriends);
    }
    let req = match find_request(db, k) {
        Some(i) => i,
        None => {
            return Err(CmdError::NotRequested);
        },
    };
    let ghost s = db@;
    db.friend_requests.remove(req);
    let row = Friend { user_a: k.id_a, user_b: k.id_b };
    db.friends.push(row);
    proof {
        let t = db@;
        assert(row.pair() == k);
        assert(t =~= (DbSnap { friends: t.friends, friend_requests: t.friend_requests, ..s }));
        lemma_friend_accepted(s, t, k, req as int);
    }
    Ok(())
}

/// Turning the request row of a canonical pair into a friendship row
/// preserves the relation invariants.
proof fn lemma_friend_accepted(s: DbSnap, t: DbSnap, k: TwoUsers, ix: int)
    requires
        s.wf(),
        k.wf(),
        0 <= ix < s.friend_requests.len(),
        s.friend_requests[ix].pair() == k,
        !has_friend(s.friends, k),
        t.friends == s.friends.push((Friend { user_a: k.id_a, user_b: k.id_b })),
        t.friend_requests == s.friend_requests.remove(ix),
        t == (DbSnap { friends: t.friends, friend_requests: t.friend_requests, ..s }),
    ensures
        t.wf(),
        request_ix(s.friend_requests, k) == ix,
{
    let m = s.friends.len() as int;
    let x = Friend { user_a: k.id_a, user_b: k.id_b };
    assert(t.friends[m] == x);
    assert(x.pair() == k);
    // the choose of the request index agrees with the found index
    assert(has_request(s.friend_requests, k));
    let j = request_ix(s.friend_requests, k);
    assert(s.friend_requests[j].pair() == k);
    if j != ix {
        assert(s.friend_requests[j].pair() != s.friend_requests[ix].pair());
    }
    // no remaining request carries the pair k
    assert forall|i: int| 0 <= i < t.friend_requests.len() implies (
    #[trigger] t.friend_requests[i]).pair() != k by {
        if i < ix {
            assert(t.friend_requests[i] == s.friend_requests[i]);
            if s.friend_requests[i].pair() == k {
                assert(s.friend_requests[i].pair() == s.friend_requests[ix].pair());
            }
        } else {
            assert(t.friend_requests[i] == s.friend_requests[i + 1]);
            if s.friend_requests[i + 1].pair() == k {
                assert(s.friend_requests[ix].pair() == s.friend_requests[i + 1].pair());
            }
        }
    }
    // the surviving requests stay well formed
    assert(requests_wf(t.friend_requests)) by {
        assert forall|i: int| 0 <= i < t.friend_requests.len() implies (
        #[trigger] t.friend_requests[i]).pair().wf() by {
            if i < ix {
                assert(t.friend_requests[i] == s.friend_requests[i]);
            } else {
                assert(t.friend_requests[i] == s.friend_requests[i + 1]);
            }
        }
        assert forall|i: int, j2: int| 0 <= i < j2 < t.friend_requests.len() implies (
        #[trigger] t.friend_requests[i]).pair() != (#[trigger] t.friend_requests[j2]).pair() by {
            let i0: int = if i < ix { i } else { i + 1 };
            let j0: int = if j2 < ix { j2 } else { j2 + 1 };
            assert(t.friend_requests[i] == s.friend_requests[i0]);
            assert(t.friend_requests[j2] == s.friend_requests[j0]);
            assert(s.friend_requests[i0].pair() != s.friend_requests[j0].pair());
        }
    }
    // the friendship rows stay canonical and unique
    assert(crate::db::friends_wf(t.friends)) by {
        assert forall|i: int| 0 <= i < t.friends.len() implies (
        #[trigger] t.friends[i]).pair().wf() by {
            if i < m {
                assert(t.friends[i] == s.friends[i]);
            }
        }
        assert forall|i: int, j2: int| 0 <= i < j2 < t.friends.len() implies (
        #[trigger] t.friends[i]).pair() != (#[trigger] t.friends[j2]).pair() by {
            if j2 < m {
                assert(s.friends[i].pair() != s.friends[j2].pair());
            } else {
                assert(t.friends[i] == s.friends[i]);
                assert(has_friend(s.friends, s.friends[i].pair()));
            }
        }
    }
    // exclusivity: old friends never matched a request, and the new
    // friendship row's pair no longer has a request
    assert(relations_exclusive(t.friends, t.friend_requests)) by {
        assert forall|i: int, j2: int|
            0 <= i < t.friends.len() && 0 <= j2 < t.friend_requests.len() implies (
        #[trigger] t.friends[i]).pair() != (#[trigger] t.friend_requests[j2]).pair() by {
            let j0: int = if j2 < ix { j2 } else { j2 + 1 };
            assert(t.friend_requests[j2] == s.friend_requests[j0]);
            if i < m {
                assert(s.friends[i].pair() != s.friend_requests[j0].pair());
            } else {
                assert(t.friends[i].pair() == k);
                assert(t.friend_requests[j2].pair() != k);
            }
        }
    }
}

} // verus!
