//! Payee store: row operations on the payees table.

use vstd::prelude::*;

use crate::db::{Database, Error};
use crate::models::{CreatePayeeRequest, Id, Payee, PayeeView, UpdatePayeeRequest};

verus! {

/// Some payee row carries id `id`.
pub open spec fn has_payee_id(ps: Seq<PayeeView>, id: Id) -> bool {
    exists|k: int| 0 <= k < ps.len() && (#[trigger] ps[k]).id == id
}

/// The index of the first payee with id `id`, if any.
fn find_index(payees: &Vec<Payee>, id: Id) -> (r: Option<usize>)
    ensures
        match r {
            Some(i) => i < payees@.len() && payees.deep_view()[i as int].id == id,
            None => !has_payee_id(payees.deep_view(), id),
        },
{
    let ghost ps = payees.deep_view();
    let n = payees.len();
    let mut i: usize = 0;
    while i < n
        invariant
            i <= n,
            n == payees@.len(),
            ps == payees.deep_view(),
            forall|k: int| 0 <= k < i ==> (#[trigger] ps[k]).id != id,
        decreases n - i,
    {
        if payees[i].id.value == id.value {
            return Some(i);
        }
        i = i + 1;
    }
    None
}

/// Inserts a payee row under `id`. The engine enforces the primary key, so
/// an insert under an id already present fails without changing anything.
pub fn create(db: &mut Database, id: Id, request: CreatePayeeRequest) -> (r: Result<(), Error>)
    ensures
        r is Ok <==> !has_payee_id(old(db).payees.deep_view(), id),
        r is Ok ==> final(db).payees.deep_view() == old(db).payees.deep_view().push(
            PayeeView { id, name: request.name@, user_id: request.user_id },
        ),
        r is Err ==> final(db).payees.deep_view() == old(db).payees.deep_view(),
        r matches Err(e) ==> e is Unknown,
        final(db).budgets == old(db).budgets,
        final(db).schedules@ == old(db).schedules@,
        final(db).transactions@ == old(db).transactions@,
        final(db).users == old(db).users,
        final(db).bank_accounts@ == old(db).bank_accounts@,
{
    match find_index(&db.payees, id) {
        Some(_) => Err(Error::Unknown { error: "duplicate primary key".to_owned() }),
        None => {
            db.payees.push(Payee { id, name: request.name, user_id: request.user_id });
            proof {
                assert(db.payees.deep_view() =~= old(db).payees.deep_view().push(
                    PayeeView { id, name: request.name@, user_id: request.user_id },
                ));
            }
            Ok(())
        },
    }
}

/// All payees of one user, in table order.
pub fn get(db: &Database, user_id: Id) -> (r: Result<Vec<Payee>, Error>)
    ensures
        r matches Ok(v) ==> v.deep_view() == db.payees.deep_view().filter(
            |p: PayeeView| p.user_id == user_id,
        ),
        r is Ok,
{
    let ghost ps = db.payees.deep_view();
    let ghost pred = |p: PayeeView| p.user_id == user_id;
    let n = db.payees.len();
    let mut out: Vec<Payee> = Vec::new();
    let mut i: usize = 0;
    proof {
        assert(out.deep_view() =~= ps.take(0).filter(pred));
    }
    while i < n
        invariant
            i <= n,
            n == db.payees@.len(),
            ps == db.payees.deep_view(),
            pred == (|p: PayeeView| p.user_id == user_id),
            out.deep_view() == ps.take(i as int).filter(pred),
        decreases n - i,
    {
        proof {
            reveal(Seq::filter);
            assert(ps.take(i as int + 1).drop_last() =~= ps.take(i as int));
            assert(ps.take(i as int + 1).last() == ps[i as int]);
        }
        if db.payees[i].user_id.value == user_id.value {
            out.push(db.payees[i].clone());
            proof {
                assert(out.deep_view() =~= ps.take(i as int + 1).filter(pred));
            }
        } else {
            proof {
                assert(out.deep_view() =~= ps.take(i as int + 1).filter(pred));
            }
        }
        i = i + 1;
    }
    proof {
        assert(ps.take(n as int) =~= ps);
    }
    Ok(out)
}

/// Point lookup of one payee by id.
pub fn get_single(db: &Database, id: Id) -> (r: Result<Payee, Error>)
    ensures
        r is Ok <==> has_payee_id(db.payees.deep_view(), id),
        r matches Ok(p) ==> exists|i: int|
            0 <= i < db.payees.deep_view().len() && #[trigger] db.payees.deep_view()[i] == p@
                && p@.id == id,
        r matches Err(e) ==> e is NotFound,
{
    match find_index(&db.payees, id) {
        Some(i) => {
            let p = db.payees[i].clone();
            proof {
                assert(db.payees.deep_view()[i as int] == p@);
            }
            Ok(p)
        },
        None => Err(Error::NotFound),
    }
}

/// Renames a payee by id. Updating an absent id changes nothing.
pub fn update(db: &mut Database, id: Id, request: UpdatePayeeRequest) -> (r: Result<(), Error>)
    ensures
        r is Ok,
        has_payee_id(old(db).payees.deep_view(), id) ==> exists|i: int|
            0 <= i < old(db).payees.deep_view().len() && (#[trigger] old(db).payees.deep_view()[i]).id
                == id && final(db).payees.deep_view() == old(db).payees.deep_view().update(
                i,
                PayeeView { name: request.name@, ..old(db).payees.deep_view()[i] },
            ),
        !has_payee_id(old(db).payees.deep_view(), id) ==> final(db).payees.deep_view() == old(
            db,
        ).payees.deep_view(),
        final(db).budgets == old(db).budgets,
        final(db).schedules@ == old(db).schedules@,
        final(db).transactions@ == old(db).transactions@,
        final(db).users == old(db).users,
        final(db).bank_accounts@ == old(db).bank_accounts@,
{
    let ghost new_name = request.name@;
    match find_index(&db.payees, id) {
        Some(i) => {
            let ghost prev = db.payees.deep_view();
            let user_id = db.payees[i].user_id;
            db.payees.set(i, Payee { id, name: request.name, user_id });
            proof {
                assert(db.payees.deep_view() =~= prev.update(
                    i as int,
                    PayeeView { name: new_name, ..prev[i as int] },
                ));
            }
            Ok(())
        },
        None => Ok(()),
    }
}

/// Deletes a payee by id. Deleting an absent id changes nothing.
pub fn delete(db: &mut Database, id: Id) -> (r: Result<(), Error>)
    ensures
        r is Ok,
        has_payee_id(old(db).payees.deep_view(), id) ==> exists|i: int|
            0 <= i < old(db).payees.deep_view().len() && (#[trigger] old(db).payees.deep_view()[i]).id
                == id && final(db).payees.deep_view() == old(db).payees.deep_view().remove(i),
        !has_payee_id(old(db).payees.deep_view(), id) ==> final(db).payees.deep_view() == old(
            db,
        ).payees.deep_view(),
        final(db).budgets == old(db).budgets,
        final(db).schedules@ == old(db).schedules@,
        final(db).transactions@ == old(db).transactions@,
        final(db).users == old(db).users,
        final(db).bank_accounts@ == old(db).bank_accounts@,
{
    match find_index(&db.payees, id) {
        Some(i) => {
            let ghost prev = db.payees.deep_view();
            db.payees.remove(i);
            proof {
                assert(db.payees.deep_view() =~= prev.remove(i as int));
            }
            Ok(())
        },
        None => Ok(()),
    }
}

} // verus!
