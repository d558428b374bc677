//! Bank-account store: row operations on the bank-accounts table. An
//! account's balance is derived at read time from the initial amount and
//! the account's transactions.

use vstd::prelude::*;

use crate::db::{BankAccountRecord, BankAccountRecordView, Database, Error};
use crate::models::{
    BankAccount, BankAccountView, CreateBankAccountRequest, Id, Transaction,
    UpdateBankAccountRequest,
};

verus! {

/// Some bank-account row carries id `id`.
pub open spec fn has_bank_account_id(rs: Seq<BankAccountRecordView>, id: Id) -> bool {
    exists|k: int| 0 <= k < rs.len() && (#[trigger] rs[k]).id == id
}

/// The total of the amounts of the transactions recorded under `account`,
/// in minor units.
pub open spec fn account_total(ts: Seq<Transaction>, account: Id) -> int
    decreases ts.len(),
{
    if ts.len() == 0 {
        0
    } else {
        account_total(ts.drop_last(), account) + (if ts.last().bank_account_id == account {
            ts.last().amount.minor as int
        } else {
            0
        })
    }
}

proof fn lemma_account_total_bound(ts: Seq<Transaction>, account: Id)
    ensures
        -(ts.len() as int) * 0x8000_0000_0000_0000 <= account_total(ts, account),
        account_total(ts, account) <= (ts.len() as int) * 0x7fff_ffff_ffff_ffff,
    decreases ts.len(),
{
    if ts.len() > 0 {
        lemma_account_total_bound(ts.drop_last(), account);
        assert((ts.len() - 1) * 0x8000_0000_0000_0000 + 0x8000_0000_0000_0000 == (ts.len() as int)
            * 0x8000_0000_0000_0000) by (nonlinear_arith);
        assert((ts.len() - 1) * 0x7fff_ffff_ffff_ffff + 0x7fff_ffff_ffff_ffff == (ts.len() as int)
            * 0x7fff_ffff_ffff_ffff) by (nonlinear_arith);
    }
}

proof fn lemma_account_total_fits(ts: Seq<Transaction>, account: Id)
    requires
        ts.len() <= 0xffff_ffff_ffff_ffff,
    ensures
        -0x8000_0000_0000_0000_0000_0000_0000_0000 + 0x8000_0000_0000_0000 <= account_total(
            ts,
            account,
        ),
        account_total(ts, account) <= 0x7fff_ffff_ffff_ffff_ffff_ffff_ffff_ffff
            - 0x7fff_ffff_ffff_ffff,
{
    lemma_account_total_bound(ts, account);
    vstd::arithmetic::mul::lemma_mul_inequality(
        ts.len() as int,
        0xffff_ffff_ffff_ffff,
        0x8000_0000_0000_0000,
    );
    vstd::arithmetic::mul::lemma_mul_inequality(
        ts.len() as int,
        0xffff_ffff_ffff_ffff,
        0x7fff_ffff_ffff_ffff,
    );
}

/// The account's derived balance: its initial amount plus the total of its
/// transactions.
pub open spec fn account_balance(
    record: BankAccountRecordView,
    ts: Seq<Transaction>,
) -> int {
    record.initial_amount.minor + account_total(ts, record.id)
}

/// The bank account as handed back to callers, with the balance derived
/// from the transactions table.
pub open spec fn account_response(
    record: BankAccountRecordView,
    ts: Seq<Transaction>,
) -> BankAccountView {
    BankAccountView {
        id: record.id,
        name: record.name,
        initial_amount: record.initial_amount,
        user_id: record.user_id,
        balance: account_balance(record, ts),
    }
}

/// The index of the first bank-account row with id `id`, if any.
fn find_index(accounts: &Vec<BankAccountRecord>, id: Id) -> (r: Option<usize>)
    ensures
        match r {
            Some(i) => i < accounts@.len() && accounts.deep_view()[i as int].id == id,
            None => !has_bank_account_id(accounts.deep_view(), id),
        },
{
    let ghost rs = accounts.deep_view();
    let n = accounts.len();
    let mut i: usize = 0;
    while i < n
        invariant
            i <= n,
            n == accounts@.len(),
            rs == accounts.deep_view(),
            forall|k: int| 0 <= k < i ==> (#[trigger] rs[k]).id != id,
        decreases n - i,
    {
        if accounts[i].id.value == id.value {
            return Some(i);
        }
        i = i + 1;
    }
    None
}

/// Sums the amounts of the transactions recorded under `account`.
fn compute_account_total(transactions: &Vec<Transaction>, account: Id) -> (r: i128)
    ensures
        r as int == account_total(transactions@, account),
{
    let ghost ts = transactions@;
    let n = transactions.len();
    let mut total: i128 = 0;
    let mut i: usize = 0;
    while i < n
        invariant
            i <= n,
            n == ts.len(),
            ts == transactions@,
            total as int == account_total(ts.take(i as int), account),
        decreases n - i,
    {
        let t = transactions[i];
        proof {
            assert(ts.take(i as int + 1).drop_last() =~= ts.take(i as int));
            assert(ts.take(i as int + 1).last() == ts[i as int]);
            assert(usize::MAX as int <= 0xffff_ffff_ffff_ffff);
            lemma_account_total_fits(ts.take(i as int + 1), account);
        }
        if t.bank_account_id.value == account.value {
            total = total + (t.amount.minor as i128);
        }
        i = i + 1;
    }
    proof {
        assert(ts.take(n as int) =~= ts);
    }
    total
}

/// Inserts a bank-account row under `id`. The engine enforces the primary
/// key, so an insert under an id already present fails without changing
/// anything.
pub fn create(db: &mut Database, id: Id, request: CreateBankAccountRequest) -> (r: Result<
    (),
    Error,
>)
    ensures
        r is Ok <==> !has_bank_account_id(old(db).bank_accounts.deep_view(), id),
        r is Ok ==> final(db).bank_accounts.deep_view() == old(db).bank_accounts.deep_view().push(
            BankAccountRecordView {
                id,
                name: request.name@,
                initial_amount: request.initial_amount,
                user_id: request.user_id,
            },
        ),
        r is Err ==> final(db).bank_accounts.deep_view() == old(db).bank_accounts.deep_view(),
        r matches Err(e) ==> e is Unknown,
        final(db).budgets == old(db).budgets,
        final(db).schedules@ == old(db).schedules@,
        final(db).transactions@ == old(db).transactions@,
        final(db).users == old(db).users,
        final(db).payees@ == old(db).payees@,
{
    match find_index(&db.bank_accounts, id) {
        Some(_) => Err(Error::Unknown { error: "duplicate primary key".to_owned() }),
        None => {
            db.bank_accounts.push(
                BankAccountRecord {
                    id,
                    name: request.name,
                    initial_amount: request.initial_amount,
                    user_id: request.user_id,
                },
            );
            proof {
                assert(db.bank_accounts.deep_view() =~= old(db).bank_accounts.deep_view().push(
                    BankAccountRecordView {
                        id,
                        name: request.name@,
                        initial_amount: request.initial_amount,
                        user_id: request.user_id,
                    },
                ));
            }
            Ok(())
        },
    }
}

/// Point lookup of one bank account by id, with the derived balance.
pub fn get_single(db: &Database, id: Id) -> (r: Result<BankAccount, Error>)
    ensures
        r is Ok <==> has_bank_account_id(db.bank_accounts.deep_view(), id),
        r matches Ok(a) ==> exists|i: int|
            0 <= i < db.bank_accounts.deep_view().len() && a@ == account_response(
                #[trigger] db.bank_accounts.deep_view()[i],
                db.transactions@,
            ) && a@.id == id,
        r matches Err(e) ==> e is NotFound,
{
    match find_index(&db.bank_accounts, id) {
        Some(i) => {
            let record = &db.bank_accounts[i];
            let tlen = db.transactions.len();
            proof {
                assert(usize::MAX as int <= 0xffff_ffff_ffff_ffff);
                assert(db.transactions@.len() == tlen);
                lemma_account_total_fits(db.transactions@, record.id);
            }
            let total = compute_account_total(&db.transactions, record.id);
            let a = BankAccount {
                id: record.id,
                name: record.name.clone(),
                initial_amount: record.initial_amount,
                user_id: record.user_id,
                balance: (record.initial_amount.minor as i128) + total,
            };
            proof {
                assert(a@ =~= account_response(
                    db.bank_accounts.deep_view()[i as int],
                    db.transactions@,
                ));
            }
            Ok(a)
        },
        None => Err(Error::NotFound),
    }
}

/// Renames a bank account by id. Updating an absent id changes nothing.
pub fn update(db: &mut Database, id: Id, request: UpdateBankAccountRequest) -> (r: Result<
    (),
    Error,
>)
    ensures
        r is Ok,
        has_bank_account_id(old(db).bank_accounts.deep_view(), id) ==> exists|i: int|
            0 <= i < old(db).bank_accounts.deep_view().len() && (#[trigger] old(db).bank_accounts.deep_view()[i]).id == id && final(db).bank_accounts.deep_view() == old(db).bank_accounts.deep_view().update(
                i,
                BankAccountRecordView {
                    name: request.name@,
                    ..old(db).bank_accounts.deep_view()[i]
                },
            ),
        !has_bank_account_id(old(db).bank_accounts.deep_view(), id) ==> final(db).bank_accounts.deep_view() == old(db).bank_accounts.deep_view(),
        final(db).budgets == old(db).budgets,
        final(db).schedules@ == old(db).schedules@,
        final(db).transactions@ == old(db).transactions@,
        final(db).users == old(db).users,
        final(db).payees@ == old(db).payees@,
{
    let ghost new_name = request.name@;
    match find_index(&db.bank_accounts, id) {
        Some(i) => {
            let ghost prev = db.bank_accounts.deep_view();
            let initial_amount = db.bank_accounts[i].initial_amount;
            let user_id = db.bank_accounts[i].user_id;
            db.bank_accounts.set(
                i,
                BankAccountRecord { id, name: request.name, initial_amount, user_id },
            );
            proof {
                assert(db.bank_accounts.deep_view() =~= prev.update(
                    i as int,
                    BankAccountRecordView { name: new_name, ..prev[i as int] },
                ));
            }
            Ok(())
        },
        None => Ok(()),
    }
}

/// Deletes a bank account by id. Deleting an absent id changes nothing.
pub fn delete(db: &mut Database, id: Id) -> (r: Result<(), Error>)
    ensures
        r is Ok,
        has_bank_account_id(old(db).bank_accounts.deep_view(), id) ==> exists|i: int|
            0 <= i < old(db).bank_accounts.deep_view().len() && (#[trigger] old(db).bank_accounts.deep_view()[i]).id == id && final(db).bank_accounts.deep_view() == old(db).bank_accounts.deep_view().remove(i),
        !has_bank_account_id(old(db).bank_accounts.deep_view(), id) ==> final(db).bank_accounts.deep_view() == old(db).bank_accounts.deep_view(),
        final(db).budgets == old(db).budgets,
        final(db).schedules@ == old(db).schedules@,
        final(db).transactions@ == old(db).transactions@,
        final(db).users == old(db).users,
        final(db).payees@ == old(db).payees@,
{
    match find_index(&db.bank_accounts, id) {
        Some(i) => {
            let ghost prev = db.bank_accounts.deep_view();
            db.bank_accounts.remove(i);
            proof {
                assert(db.bank_accounts.deep_view() =~= prev.remove(i as int));
            }
            Ok(())
        },
        None => Ok(()),
    }
}

} // verus!
