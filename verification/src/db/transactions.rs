//! Transaction store: row operations on the transactions table.

use vstd::prelude::*;

use crate::db::{first_transaction_index, Database, Error};
use crate::models::{CreateTransactionRequest, Id, Transaction};

verus! {

/// Some transaction row carries id `id`.
pub open spec fn has_transaction_id(ts: Seq<Transaction>, id: Id) -> bool {
    exists|k: int| 0 <= k < ts.len() && (#[trigger] ts[k]).id == id
}

/// The index of the first transaction row with id `id`, if any.
fn find_index(transactions: &Vec<Transaction>, id: Id) -> (r: Option<usize>)
    ensures
        match r {
            Some(i) => i < transactions@.len() && transactions@[i as int].id == id && forall|k: int|
                0 <= k < i ==> (#[trigger] transactions@[k]).id != id,
            None => !has_transaction_id(transactions@, id),
        },
{
    let n = transactions.len();
    let mut i: usize = 0;
    while i < n
        invariant
            i <= n,
            n == transactions@.len(),
            forall|k: int| 0 <= k < i ==> (#[trigger] transactions@[k]).id != id,
        decreases n - i,
    {
        if transactions[i].id.value == id.value {
            return Some(i);
        }
        i = i + 1;
    }
    None
}

/// The transaction row that an insert under `id` for `bank_account_id`
/// stores for this request.
pub open spec fn requested_transaction(
    id: Id,
    bank_account_id: Id,
    request: CreateTransactionRequest,
) -> Transaction {
    Transaction {
        id,
        payee_id: request.payee_id,
        date: request.date,
        amount: request.amount,
        bank_account_id,
        budget_id: request.budget_id,
    }
}

/// Inserts a transaction row. The engine enforces the primary key, so an
/// insert under an id already present fails without changing anything.
pub fn create(
    db: &mut Database,
    id: Id,
    bank_account_id: Id,
    request: CreateTransactionRequest,
) -> (r: Result<(), Error>)
    ensures
        r is Ok <==> !has_transaction_id(old(db).transactions@, id),
        r is Ok ==> final(db).transactions@ == old(db).transactions@.push(
            requested_transaction(id, bank_account_id, request),
        ),
        r is Err ==> final(db).transactions@ == old(db).transactions@,
        r matches Err(e) ==> e is Unknown,
        final(db).budgets == old(db).budgets,
        final(db).schedules@ == old(db).schedules@,
        final(db).users == old(db).users,
        final(db).payees@ == old(db).payees@,
        final(db).bank_accounts@ == old(db).bank_accounts@,
{
    match find_index(&db.transactions, id) {
        Some(_) => Err(Error::Unknown { error: "duplicate primary key".to_owned() }),
        None => {
            db.transactions.push(
                Transaction {
                    id,
                    payee_id: request.payee_id,
                    date: request.date,
                    amount: request.amount,
                    bank_account_id,
                    budget_id: request.budget_id,
                },
            );
            Ok(())
        },
    }
}

/// Full-row update by id. Updating an absent id changes nothing.
pub fn update(db: &mut Database, transaction: Transaction) -> (r: Result<(), Error>)
    ensures
        r is Ok,
        has_transaction_id(old(db).transactions@, transaction.id) ==> exists|i: int|
            #[trigger] first_transaction_index(old(db).transactions@, transaction.id, i) && final(db).transactions@ == old(db).transactions@.update(i, transaction),
        !has_transaction_id(old(db).transactions@, transaction.id) ==> final(db).transactions@
            == old(db).transactions@,
        final(db).budgets == old(db).budgets,
        final(db).schedules@ == old(db).schedules@,
        final(db).users == old(db).users,
        final(db).payees@ == old(db).payees@,
        final(db).bank_accounts@ == old(db).bank_accounts@,
{
    let ghost gid = transaction.id;
    match find_index(&db.transactions, transaction.id) {
        Some(i) => {
            proof {
                assert(first_transaction_index(db.transactions@, gid, i as int));
            }
            db.transactions.set(i, transaction);
            Ok(())
        },
        None => Ok(()),
    }
}

/// All transactions of one bank account, in table order.
pub fn get(db: &Database, bank_account_id: Id) -> (r: Result<Vec<Transaction>, Error>)
    ensures
        r matches Ok(v) ==> v@ == db.transactions@.filter(
            |t: Transaction| t.bank_account_id == bank_account_id,
        ),
        r is Ok,
{
    let ghost ts = db.transactions@;
    let ghost pred = |t: Transaction| t.bank_account_id == bank_account_id;
    let n = db.transactions.len();
    let mut out: Vec<Transaction> = Vec::new();
    let mut i: usize = 0;
    proof {
        assert(out@ =~= ts.take(0).filter(pred));
    }
    while i < n
        invariant
            i <= n,
            n == ts.len(),
            ts == db.transactions@,
            pred == (|t: Transaction| t.bank_account_id == bank_account_id),
            out@ == ts.take(i as int).filter(pred),
        decreases n - i,
    {
        proof {
            reveal(Seq::filter);
            assert(ts.take(i as int + 1).drop_last() =~= ts.take(i as int));
            assert(ts.take(i as int + 1).last() == ts[i as int]);
        }
        if db.transactions[i].bank_account_id.value == bank_account_id.value {
            out.push(db.transactions[i]);
            proof {
                assert(out@ =~= ts.take(i as int + 1).filter(pred));
            }
        } else {
            proof {
                assert(out@ =~= ts.take(i as int + 1).filter(pred));
            }
        }
        i = i + 1;
    }
    proof {
        assert(ts.take(n as int) =~= ts);
    }
    Ok(out)
}

/// Point lookup of one transaction row by id.
pub fn get_single(db: &Database, transaction_id: Id) -> (r: Result<Transaction, Error>)
    ensures
        r is Ok <==> has_transaction_id(db.transactions@, transaction_id),
        r matches Ok(t) ==> exists|i: int|
            #[trigger] first_transaction_index(db.transactions@, transaction_id, i)
                && db.transactions@[i] == t,
        r matches Err(e) ==> e is NotFound,
{
    match find_index(&db.transactions, transaction_id) {
        Some(i) => {
            let t = db.transactions[i];
            proof {
                assert(db.transactions@[i as int] == t);
                assert(first_transaction_index(db.transactions@, transaction_id, i as int));
            }
            Ok(t)
        },
        None => Err(Error::NotFound),
    }
}

/// Deletes a transaction row by id. Deleting an absent id changes nothing.
pub fn delete(db: &mut Database, transaction_id: Id) -> (r: Result<(), Error>)
    ensures
        r is Ok,
        has_transaction_id(old(db).transactions@, transaction_id) ==> exists|i: int|
            #[trigger] first_transaction_index(old(db).transactions@, transaction_id, i) && final(db).transactions@ == old(db).transactions@.remove(i),
        !has_transaction_id(old(db).transactions@, transaction_id) ==> final(db).transactions@
            == old(db).transactions@,
        final(db).budgets == old(db).budgets,
        final(db).schedules@ == old(db).schedules@,
        final(db).users == old(db).users,
        final(db).payees@ == old(db).payees@,
        final(db).bank_accounts@ == old(db).bank_accounts@,
{
    match find_index(&db.transactions, transaction_id) {
        Some(i) => {
            proof {
                assert(first_transaction_index(db.transactions@, transaction_id, i as int));
            }
            db.transactions.remove(i);
            Ok(())
        },
        None => Ok(()),
    }
}

} // verus!
