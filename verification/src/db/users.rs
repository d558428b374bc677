//! User store: row operations on the users table. The pay-frequency
//! schedule is embedded in the aggregate, as a budget's schedule is.

use vstd::prelude::*;

use crate::db::{Database, Error};
use crate::models::{Id, User, UserView};

verus! {

/// Some user row carries id `id`.
pub open spec fn has_user_id(us: Seq<UserView>, id: Id) -> bool {
    exists|k: int| 0 <= k < us.len() && (#[trigger] us[k]).id == id
}

/// `i` is the first position in `us` whose user has id `id`.
pub open spec fn first_user_index(us: Seq<UserView>, id: Id, i: int) -> bool {
    &&& 0 <= i < us.len()
    &&& us[i].id == id
    &&& forall|k: int| 0 <= k < i ==> (#[trigger] us[k]).id != id
}

/// The index of the first user with id `id`, if any.
fn find_index(users: &Vec<User>, id: Id) -> (r: Option<usize>)
    ensures
        match r {
            Some(i) => i < users@.len() && users.deep_view()[i as int].id == id && forall|k: int|
                0 <= k < i ==> (#[trigger] users.deep_view()[k]).id != id,
            None => !has_user_id(users.deep_view(), id),
        },
{
    let ghost us = users.deep_view();
    let n = users.len();
    let mut i: usize = 0;
    while i < n
        invariant
            i <= n,
            n == users@.len(),
            us == users.deep_view(),
            forall|k: int| 0 <= k < i ==> (#[trigger] us[k]).id != id,
        decreases n - i,
    {
        if users[i].id.value == id.value {
            return Some(i);
        }
        i = i + 1;
    }
    None
}

/// Inserts a user row. The engine enforces the primary key, so an insert
/// under an id already present fails without changing anything.
pub fn create(db: &mut Database, user: User) -> (r: Result<(), Error>)
    ensures
        r is Ok <==> !has_user_id(old(db).users_view(), user.id),
        r is Ok ==> final(db).users_view() == old(db).users_view().push(user@),
        r is Err ==> final(db).users_view() == old(db).users_view(),
        r matches Err(e) ==> e is Unknown,
        final(db).budgets == old(db).budgets,
        final(db).schedules@ == old(db).schedules@,
        final(db).transactions@ == old(db).transactions@,
        final(db).payees@ == old(db).payees@,
        final(db).bank_accounts@ == old(db).bank_accounts@,
{
    match find_index(&db.users, user.id) {
        Some(_) => Err(Error::Unknown { error: "duplicate primary key".to_owned() }),
        None => {
            db.users.push(user);
            proof {
                assert(db.users_view() =~= old(db).users_view().push(user@));
            }
            Ok(())
        },
    }
}

/// All users, in table order.
pub fn get(db: &Database) -> (r: Result<Vec<User>, Error>)
    ensures
        r matches Ok(v) ==> v.deep_view() == db.users_view(),
        r is Ok,
{
    let ghost us = db.users.deep_view();
    let n = db.users.len();
    let mut out: Vec<User> = Vec::new();
    let mut i: usize = 0;
    proof {
        assert(out.deep_view() =~= us.take(0));
    }
    while i < n
        invariant
            i <= n,
            n == db.users@.len(),
            us == db.users.deep_view(),
            out.deep_view() == us.take(i as int),
        decreases n - i,
    {
        let u = db.users[i].clone();
        proof {
            assert(u.deep_view() == us[i as int]);
        }
        let ghost prev = out.deep_view();
        out.push(u);
        proof {
            assert(out@.len() == prev.len() + 1);
            assert forall|k: int| 0 <= k < out@.len() implies out.deep_view()[k] == us.take(
                i as int + 1,
            )[k] by {
                if k < prev.len() {
                    assert(out.deep_view()[k] == prev[k]);
                }
            }
            assert(out.deep_view() =~= us.take(i as int + 1));
        }
        i = i + 1;
    }
    proof {
        assert(us.take(n as int) =~= us);
    }
    Ok(out)
}

/// Point lookup of one user by id.
pub fn get_single(db: &Database, user_id: Id) -> (r: Result<User, Error>)
    ensures
        r is Ok <==> has_user_id(db.users_view(), user_id),
        r matches Ok(u) ==> exists|i: int|
            #[trigger] first_user_index(db.users_view(), user_id, i) && db.users_view()[i] == u@
                && u@.id == user_id,
        r matches Err(e) ==> e is NotFound,
{
    match find_index(&db.users, user_id) {
        Some(i) => {
            let u = db.users[i].clone();
            proof {
                assert(db.users_view()[i as int] == u@);
                assert(first_user_index(db.users_view(), user_id, i as int));
            }
            Ok(u)
        },
        None => Err(Error::NotFound),
    }
}

/// Full-row update by id. Updating an absent id changes nothing.
pub fn update(db: &mut Database, user: User) -> (r: Result<(), Error>)
    ensures
        r is Ok,
        has_user_id(old(db).users_view(), user.id) ==> exists|i: int|
            #[trigger] first_user_index(old(db).users_view(), user.id, i) && final(db).users_view()
                == old(db).users_view().update(i, user@),
        !has_user_id(old(db).users_view(), user.id) ==> final(db).users_view() == old(
            db,
        ).users_view(),
        final(db).budgets == old(db).budgets,
        final(db).schedules@ == old(db).schedules@,
        final(db).transactions@ == old(db).transactions@,
        final(db).payees@ == old(db).payees@,
        final(db).bank_accounts@ == old(db).bank_accounts@,
{
    let ghost gid = user.id;
    match find_index(&db.users, user.id) {
        Some(i) => {
            let ghost prev = db.users.deep_view();
            proof {
                assert(first_user_index(prev, gid, i as int));
            }
            db.users.set(i, user);
            proof {
                assert(db.users_view() =~= prev.update(i as int, user@));
            }
            Ok(())
        },
        None => Ok(()),
    }
}

} // verus!
