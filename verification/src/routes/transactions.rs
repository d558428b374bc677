//! Transaction operations, with the synchronization protocol that keeps
//! the owning budget's ledger leg consistent with the transaction: create
//! appends a mirroring leg, update mutates or moves it, delete removes it.

use vstd::prelude::*;

use crate::db;
use crate::db::budgets::{first_holder_index, has_tx_leg};
use crate::db::payees::has_payee_id;
use crate::db::transactions::{has_transaction_id, requested_transaction};
use crate::db::{
    first_budget_index, first_transaction_index, has_budget_id, is_tx_leg, Database,
};
use crate::models::{
    assign_result, fresh_id, Budget, BudgetAssignment, BudgetView, CreateTransactionRequest, Id,
    Transaction, UpdateTransactionRequest,
};
use crate::routes::budgets::{db_unchanged, others_unchanged};
use crate::AppError;

verus! {

/// All transactions of one bank account.
pub fn get(db: &Database, bank_account_id: Id) -> (r: Result<Vec<Transaction>, AppError>)
    ensures
        bank_account_id.spec_is_nil() ==> (r matches Err(e) && e is BadRequest),
        !bank_account_id.spec_is_nil() ==> r is Ok,
        r matches Ok(v) ==> v@ == db.transactions@.filter(
            |t: Transaction| t.bank_account_id == bank_account_id,
        ),
{
    if bank_account_id.is_nil() {
        return Err(AppError::BadRequest("Bank account id must be set".to_owned()));
    }
    match db::transactions::get(db, bank_account_id) {
        Ok(v) => Ok(v),
        Err(e) => Err(e.to_app_error("Could not get transactions".to_owned())),
    }
}

/// A successful transaction creation: the row inserted under the fresh
/// returned id, and one mirroring leg appended to the budget it funds —
/// the row first, since the leg references it.
pub open spec fn transaction_created(
    pre: Database,
    post: Database,
    bank_account_id: Id,
    request: CreateTransactionRequest,
    transaction_id: Id,
    assignment_id: Id,
    i: int,
) -> bool {
    let t = requested_transaction(transaction_id, bank_account_id, request);
    &&& first_budget_index(pre.budgets_view(), request.budget_id, i)
    &&& has_payee_id(pre.payees.deep_view(), request.payee_id)
    &&& !has_transaction_id(pre.transactions@, transaction_id)
    &&& !transaction_id.spec_is_nil()
    &&& post.transactions@ == pre.transactions@.push(t)
    &&& post.budgets_view() == pre.budgets_view().update(
        i,
        assign_result(pre.budgets_view()[i], t, assignment_id),
    )
    &&& post.schedules@ == pre.schedules@
    &&& post.users_view() == pre.users_view()
    &&& post.payees.deep_view() == pre.payees.deep_view()
    &&& post.bank_accounts.deep_view() == pre.bank_accounts.deep_view()
}

/// A successful creation, with the budget row and fresh leg id abstracted.
pub open spec fn transaction_create_ok(
    pre: Database,
    post: Database,
    bank_account_id: Id,
    request: CreateTransactionRequest,
    transaction_id: Id,
) -> bool {
    exists|i: int, assignment_id: Id|
        #[trigger] transaction_created(
            pre,
            post,
            bank_account_id,
            request,
            transaction_id,
            assignment_id,
            i,
        )
}

/// Creates a transaction: validates the ids, requires payee and budget to
/// resolve, inserts the transaction row, then appends the mirroring leg to
/// the budget and persists it.
pub fn create(db: &mut Database, bank_account_id: Id, request: CreateTransactionRequest) -> (r:
    Result<Id, AppError>)
    ensures
        (r matches Err(e) && e is BadRequest) <==> (request.payee_id.spec_is_nil()
            || bank_account_id.spec_is_nil() || request.budget_id.spec_is_nil()),
        !request.payee_id.spec_is_nil() && !bank_account_id.spec_is_nil()
            && !request.budget_id.spec_is_nil() ==> ((r matches Err(e) && e is NotFound) <==> (
        !has_budget_id(old(db).budgets_view(), request.budget_id) || !has_payee_id(
            old(db).payees.deep_view(),
            request.payee_id,
        ))),
        r is Err ==> db_unchanged(*old(db), *final(db)),
        r matches Ok(transaction_id) ==> transaction_create_ok(
            *old(db),
            *final(db),
            bank_account_id,
            request,
            transaction_id,
        ),
        old(db).wf() && r is Ok ==> final(db).wf(),
{
    if request.payee_id.is_nil() {
        return Err(AppError::BadRequest("Payee Id must be set".to_owned()));
    }
    if bank_account_id.is_nil() {
        return Err(AppError::BadRequest("Bank Account Id must be set".to_owned()));
    }
    if request.budget_id.is_nil() {
        return Err(AppError::BadRequest("Budget Id must be set".to_owned()));
    }

    let id = fresh_id();

    let mut budget = match db::budgets::get_single(db, request.budget_id) {
        Ok(b) => b,
        Err(e) => {
            return Err(e.to_app_error("Could not get budget".to_owned()));
        },
    };
    match db::payees::get_single(db, request.payee_id) {
        Ok(_) => {},
        Err(db::Error::NotFound) => {
            return Err(AppError::NotFound("Payee not found".to_owned()));
        },
        Err(e) => {
            return Err(e.to_app_error("Could not create transaction".to_owned()));
        },
    }

    let ghost pre = *db;
    let ghost bv = budget@;

    let transaction = Transaction {
        id,
        date: request.date,
        amount: request.amount,
        payee_id: request.payee_id,
        bank_account_id,
        budget_id: request.budget_id,
    };

    let assignment_id = fresh_id();
    budget.assign_from_transaction_with(&transaction, assignment_id);

    match db::transactions::create(db, id, bank_account_id, request) {
        Ok(_) => {},
        Err(e) => {
            return Err(e.to_app_error("Could not create transaction".to_owned()));
        },
    }

    let ghost mid = *db;
    let ghost new_bv = budget@;

    // The budget write must follow the transaction insert: the new leg
    // references the transaction row.
    match db::budgets::update(db, budget) {
        Ok(_) => {},
        Err(e) => {
            return Err(e.to_app_error("Could not update budget".to_owned()));
        },
    }

    proof {
        let prestate = *old(db);
        let t = requested_transaction(id, bank_account_id, request);
        assert(transaction == t);
        let i = choose|i: int|
            #[trigger] first_budget_index(prestate.budgets_view(), request.budget_id, i)
                && prestate.budgets_view()[i] == bv;
        assert(new_bv == assign_result(bv, t, assignment_id));
        assert(mid.budgets_view() == prestate.budgets_view());
        assert(has_budget_id(mid.budgets_view(), request.budget_id));
        let i1 = choose|i1: int|
            #[trigger] first_budget_index(mid.budgets_view(), request.budget_id, i1)
                && db.budgets_view() == mid.budgets_view().update(i1, new_bv);
        assert(i1 == i);
        assert(transaction_created(prestate, *db, bank_account_id, request, id, assignment_id, i));
        assert(transaction_create_ok(prestate, *db, bank_account_id, request, id));
        if prestate.wf() {
            crate::laws::lemma_transaction_create_preserves_wf(
                prestate,
                *db,
                bank_account_id,
                request,
                id,
                assignment_id,
                i,
            );
        }
    }

    Ok(id)
}

/// The budget with the mirroring leg for `tid` removed; the sync protocol
/// removes every such leg, leaving the rest of the ledger in order.
pub open spec fn remove_tx_legs(b: BudgetView, tid: Id) -> BudgetView {
    BudgetView { assignments: b.assignments.filter(|a: BudgetAssignment| !is_tx_leg(a, tid)), ..b }
}

/// The transaction row after an update request is applied; the bank
/// account is the one fixed at creation.
pub open spec fn updated_transaction_row(
    tid: Id,
    request: UpdateTransactionRequest,
    t0: Transaction,
) -> Transaction {
    Transaction {
        id: tid,
        payee_id: request.payee_id,
        date: request.date,
        amount: request.amount,
        bank_account_id: t0.bank_account_id,
        budget_id: request.budget_id,
    }
}

/// `li` is the first position of a leg mirroring `tid` in `b`.
pub open spec fn first_leg_index(b: BudgetView, tid: Id, li: int) -> bool {
    &&& 0 <= li < b.assignments.len()
    &&& is_tx_leg(b.assignments[li], tid)
    &&& forall|l: int| 0 <= l < li ==> !is_tx_leg(#[trigger] b.assignments[l], tid)
}

/// The transaction row rewritten in place at its position `ti`.
pub open spec fn tx_row_updated(
    pre: Database,
    post: Database,
    transaction_id: Id,
    request: UpdateTransactionRequest,
    ti: int,
) -> bool {
    &&& first_transaction_index(pre.transactions@, transaction_id, ti)
    &&& post.transactions@ == pre.transactions@.update(
        ti,
        updated_transaction_row(transaction_id, request, pre.transactions@[ti]),
    )
}

/// The holding budget equals the requested one: its first mirroring leg
/// gets the updated amount and date, in place.
pub open spec fn tx_leg_retargeted_in_place(
    pre: Database,
    post: Database,
    transaction_id: Id,
    request: UpdateTransactionRequest,
    hi: int,
    li: int,
) -> bool {
    let holder = pre.budgets_view()[hi];
    &&& first_holder_index(pre.budgets_view(), transaction_id, hi)
    &&& holder.id == request.budget_id
    &&& first_leg_index(holder, transaction_id, li)
    &&& post.budgets_view() == pre.budgets_view().update(
        hi,
        BudgetView {
            assignments: holder.assignments.update(
                li,
                BudgetAssignment {
                    amount: request.amount,
                    date: request.date,
                    ..holder.assignments[li]
                },
            ),
            ..holder
        },
    )
}

/// The holding budget differs from the requested one: the stale leg leaves
/// the holder and a fresh leg for the updated row joins the requested
/// budget; both are persisted.
pub open spec fn tx_leg_moved(
    pre: Database,
    post: Database,
    transaction_id: Id,
    request: UpdateTransactionRequest,
    hi: int,
    ni: int,
    assignment_id: Id,
    ti: int,
) -> bool {
    let holder = pre.budgets_view()[hi];
    &&& first_holder_index(pre.budgets_view(), transaction_id, hi)
    &&& holder.id != request.budget_id
    &&& first_budget_index(pre.budgets_view(), request.budget_id, ni)
    &&& ni != hi
    &&& first_transaction_index(pre.transactions@, transaction_id, ti)
    &&& post.budgets_view() == pre.budgets_view().update(
        hi,
        remove_tx_legs(holder, transaction_id),
    ).update(
        ni,
        assign_result(
            pre.budgets_view()[ni],
            updated_transaction_row(transaction_id, request, pre.transactions@[ti]),
            assignment_id,
        ),
    )
}

/// Some budget holds a mirroring leg for `tid`.
pub open spec fn holder_exists(pre: Database, tid: Id) -> bool {
    exists|hi: int| #[trigger] first_holder_index(pre.budgets_view(), tid, hi)
}

/// Rebuilds an assignment list without the legs that mirror `tid`.
fn retain_non_tx_legs(assignments: Vec<BudgetAssignment>, tid: Id) -> (r: Vec<BudgetAssignment>)
    ensures
        r@ == assignments@.filter(|a: BudgetAssignment| !is_tx_leg(a, tid)),
{
    let ghost s = assignments@;
    let ghost pred = |a: BudgetAssignment| !is_tx_leg(a, tid);
    let n = assignments.len();
    let mut out: Vec<BudgetAssignment> = Vec::new();
    let mut i: usize = 0;
    proof {
        assert(out@ =~= s.take(0).filter(pred));
    }
    while i < n
        invariant
            i <= n,
            n == s.len(),
            s == assignments@,
            pred == (|a: BudgetAssignment| !is_tx_leg(a, tid)),
            out@ == s.take(i as int).filter(pred),
        decreases n - i,
    {
        proof {
            reveal(Seq::filter);
            assert(s.take(i as int + 1).drop_last() =~= s.take(i as int));
            assert(s.take(i as int + 1).last() == s[i as int]);
        }
        let a = assignments[i];
        let keep: bool = match a.source {
            crate::models::BudgetAssignmentSource::Transaction { from_transaction_id } =>
                from_transaction_id.value != tid.value,
            _ => true,
        };
        if keep {
            out.push(a);
            proof {
                assert(pred(s[i as int]));
                assert(out@ =~= s.take(i as int + 1).filter(pred));
            }
        } else {
            proof {
                assert(!pred(s[i as int]));
                assert(out@ =~= s.take(i as int + 1).filter(pred));
            }
        }
        i = i + 1;
    }
    proof {
        assert(s.take(n as int) =~= s);
    }
    out
}

/// The first position of a leg mirroring `tid`, if any.
fn find_tx_leg(assignments: &Vec<BudgetAssignment>, tid: Id) -> (r: Option<usize>)
    ensures
        match r {
            Some(li) => li < assignments@.len() && is_tx_leg(assignments@[li as int], tid)
                && forall|l: int|
                0 <= l < li ==> !is_tx_leg(#[trigger] assignments@[l], tid),
            None => forall|l: int|
                0 <= l < assignments@.len() ==> !is_tx_leg(#[trigger] assignments@[l], tid),
        },
{
    let n = assignments.len();
    let mut i: usize = 0;
    while i < n
        invariant
            i <= n,
            n == assignments@.len(),
            forall|l: int| 0 <= l < i ==> !is_tx_leg(#[trigger] assignments@[l], tid),
        decreases n - i,
    {
        let a = assignments[i];
        match a.source {
            crate::models::BudgetAssignmentSource::Transaction { from_transaction_id } => {
                if from_transaction_id.value == tid.value {
                    assert(is_tx_leg(assignments@[i as int], tid));
                    return Some(i);
                }
            },
            _ => {},
        }
        i = i + 1;
    }
    None
}

/// A successful transaction update: the row is rewritten at its position,
/// and the mirroring leg follows the state — rewritten in place when the
/// holder is the requested budget, moved when it differs, untouched when
/// no budget holds one.
pub open spec fn transaction_update_ok(
    pre: Database,
    post: Database,
    transaction_id: Id,
    request: UpdateTransactionRequest,
) -> bool {
    &&& exists|ti: int| #[trigger] tx_row_updated(pre, post, transaction_id, request, ti)
    &&& (holder_exists(pre, transaction_id) ==> exists|hi: int|
        #[trigger] first_holder_index(pre.budgets_view(), transaction_id, hi) && ((
        pre.budgets_view()[hi].id == request.budget_id && exists|li: int|
            #[trigger] tx_leg_retargeted_in_place(pre, post, transaction_id, request, hi, li)
        ) || (pre.budgets_view()[hi].id != request.budget_id && exists|
            ni: int,
            aid: Id,
            ti: int,
        |
            #[trigger] tx_leg_moved(pre, post, transaction_id, request, hi, ni, aid, ti))))
    &&& (!holder_exists(pre, transaction_id) ==> post.budgets_view() == pre.budgets_view())
    &&& post.schedules@ == pre.schedules@
    &&& post.users_view() == pre.users_view()
    &&& post.payees.deep_view() == pre.payees.deep_view()
    &&& post.bank_accounts.deep_view() == pre.bank_accounts.deep_view()
}

/// Updates a transaction and keeps its ledger leg in step: the budget that
/// holds the leg is found by leg content; if it is the requested budget
/// the leg's amount and date change in place, otherwise the stale leg is
/// removed and the requested budget gains a fresh one; the transaction row
/// itself is rewritten last.
pub fn update(db: &mut Database, transaction_id: Id, request: UpdateTransactionRequest) -> (r:
    Result<(), AppError>)
    ensures
        (!has_transaction_id(old(db).transactions@, transaction_id) || !has_budget_id(
            old(db).budgets_view(),
            request.budget_id,
        )) <==> (r matches Err(e) && e is NotFound),
        r matches Err(e) ==> e is NotFound,
        has_transaction_id(old(db).transactions@, transaction_id) && has_budget_id(
            old(db).budgets_view(),
            request.budget_id,
        ) ==> r is Ok,
        r is Err ==> db_unchanged(*old(db), *final(db)),
        old(db).wf() && r is Ok ==> transaction_update_ok(
            *old(db),
            *final(db),
            transaction_id,
            request,
        ),
        old(db).wf() && r is Ok ==> final(db).wf(),
{
    let transaction = match db::transactions::get_single(db, transaction_id) {
        Ok(t) => t,
        Err(e) => {
            return Err(e.to_app_error("Failed to update transaction".to_owned()));
        },
    };
    let holder = match db::budgets::get_by_assignment_transaction_id(db, transaction_id) {
        Ok(h) => h,
        Err(e) => {
            return Err(
                e.to_app_error("Failed to get budget with transaction assignment".to_owned()),
            );
        },
    };
    let mut budget_by_id = match db::budgets::get_single(db, request.budget_id) {
        Ok(b) => b,
        Err(e) => {
            return Err(e.to_app_error("Failed to get budget by id".to_owned()));
        },
    };

    let ghost pre = *db;
    let ghost bs = db.budgets_view();
    let ghost bqv = budget_by_id@;

    let updated_row = Transaction {
        id: transaction_id,
        payee_id: request.payee_id,
        date: request.date,
        amount: request.amount,
        bank_account_id: transaction.bank_account_id,
        budget_id: request.budget_id,
    };
    let ghost ti = choose|ti: int|
        #[trigger] first_transaction_index(pre.transactions@, transaction_id, ti)
            && pre.transactions@[ti] == transaction;
    proof {
        assert(updated_row == updated_transaction_row(
            transaction_id,
            request,
            pre.transactions@[ti],
        ));
    }

    match holder {
        Some(holder_budget) => {
            let ghost hv = holder_budget@;
            let ghost hi = choose|hi: int|
                #[trigger] first_holder_index(bs, transaction_id, hi) && bs[hi] == hv;
            proof {
                if pre.wf() {
                    assert forall|k: int| 0 <= k < hi implies (#[trigger] bs[k]).id != hv.id by {
                        if bs[k].id == hv.id {
                            assert(bs[k].id == bs[hi].id);
                        }
                    }
                    assert(first_budget_index(bs, hv.id, hi));
                }
            }
            if holder_budget.id.value != request.budget_id.value {
                let assignment_id = fresh_id();
                let kept = retain_non_tx_legs(holder_budget.assignments, transaction_id);
                let stripped = Budget {
                    id: holder_budget.id,
                    name: holder_budget.name,
                    target: holder_budget.target,
                    user_id: holder_budget.user_id,
                    assignments: kept,
                };
                let ghost sv = stripped@;
                budget_by_id.assign_from_transaction_with(&updated_row, assignment_id);
                let ghost nv = budget_by_id@;
                match db::budgets::update(db, stripped) {
                    Ok(_) => {},
                    Err(e) => {
                        return Err(e.to_app_error("Failed to update budget".to_owned()));
                    },
                }
                let ghost mid1 = *db;
                match db::budgets::update(db, budget_by_id) {
                    Ok(_) => {},
                    Err(e) => {
                        return Err(e.to_app_error("Failed to update budget".to_owned()));
                    },
                }
                let ghost mid2 = *db;
                match db::transactions::update(db, updated_row) {
                    Ok(_) => {},
                    Err(e) => {
                        return Err(e.to_app_error("Failed to update transaction".to_owned()));
                    },
                }
                proof {
                    if pre.wf() {
                        let ni = choose|ni: int|
                            #[trigger] first_budget_index(bs, request.budget_id, ni) && bs[ni]
                                == bqv;
                        assert(sv =~= remove_tx_legs(hv, transaction_id));
                        assert(nv == assign_result(bqv, updated_row, assignment_id));
                        assert(has_budget_id(bs, hv.id));
                        let i1 = choose|i1: int|
                            #[trigger] first_budget_index(bs, hv.id, i1) && mid1.budgets_view()
                                == bs.update(i1, sv);
                        assert(i1 == hi);
                        assert forall|k: int|
                            0 <= k < bs.len() implies (#[trigger] mid1.budgets_view()[k]).id
                            == bs[k].id by {}
                        assert(mid1.budgets_view()[ni].id == request.budget_id);
                        assert(has_budget_id(mid1.budgets_view(), request.budget_id));
                        assert(first_budget_index(mid1.budgets_view(), request.budget_id, ni));
                        let j1 = choose|j1: int|
                            #[trigger] first_budget_index(
                                mid1.budgets_view(),
                                request.budget_id,
                                j1,
                            ) && mid2.budgets_view() == mid1.budgets_view().update(j1, nv);
                        assert(j1 == ni);
                        assert(ni != hi);
                        assert(mid2.budgets_view() == bs.update(hi, remove_tx_legs(
                            hv,
                            transaction_id,
                        )).update(ni, assign_result(
                            bs[ni],
                            updated_transaction_row(transaction_id, request, pre.transactions@[ti]),
                            assignment_id,
                        )));
                        assert(tx_leg_moved(
                            pre,
                            *db,
                            transaction_id,
                            request,
                            hi,
                            ni,
                            assignment_id,
                            ti,
                        ));
                        assert(has_transaction_id(mid2.transactions@, transaction_id));
                        let t1 = choose|t1: int|
                            #[trigger] first_transaction_index(
                                mid2.transactions@,
                                transaction_id,
                                t1,
                            ) && db.transactions@ == mid2.transactions@.update(t1, updated_row);
                        assert(t1 == ti);
                        assert(tx_row_updated(pre, *db, transaction_id, request, ti));
                        assert(transaction_update_ok(pre, *db, transaction_id, request));
                        crate::laws::lemma_transaction_update_preserves_wf(
                            pre,
                            *db,
                            transaction_id,
                            request,
                        );
                    }
                }
                return Ok(());
            } else {
                match find_tx_leg(&holder_budget.assignments, transaction_id) {
                    Some(li) => {
                        let a = holder_budget.assignments[li];
                        let mut holder_budget = holder_budget;
                        holder_budget.assignments.set(
                            li,
                            BudgetAssignment {
                                id: a.id,
                                amount: request.amount,
                                date: request.date,
                                source: a.source,
                            },
                        );
                        let ghost hv2 = holder_budget@;
                        match db::budgets::update(db, holder_budget) {
                            Ok(_) => {},
                            Err(e) => {
                                return Err(e.to_app_error("Failed to update budget".to_owned()));
                            },
                        }
                        let ghost mid2 = *db;
                        match db::transactions::update(db, updated_row) {
                            Ok(_) => {},
                            Err(e) => {
                                return Err(
                                    e.to_app_error("Failed to update transaction".to_owned()),
                                );
                            },
                        }
                        proof {
                            if pre.wf() {
                                assert(first_leg_index(hv, transaction_id, li as int));
                                assert(hv2 =~= (BudgetView {
                                    assignments: hv.assignments.update(
                                        li as int,
                                        BudgetAssignment {
                                            amount: request.amount,
                                            date: request.date,
                                            ..hv.assignments[li as int]
                                        },
                                    ),
                                    ..hv
                                }));
                                assert(has_budget_id(bs, hv.id));
                                let i1 = choose|i1: int|
                                    #[trigger] first_budget_index(bs, hv.id, i1)
                                        && mid2.budgets_view() == bs.update(i1, hv2);
                                assert(i1 == hi);
                                assert(tx_leg_retargeted_in_place(
                                    pre,
                                    *db,
                                    transaction_id,
                                    request,
                                    hi,
                                    li as int,
                                ));
                                assert(has_transaction_id(mid2.transactions@, transaction_id));
                                let t1 = choose|t1: int|
                                    #[trigger] first_transaction_index(
                                        mid2.transactions@,
                                        transaction_id,
                                        t1,
                                    ) && db.transactions@ == mid2.transactions@.update(
                                        t1,
                                        updated_row,
                                    );
                                assert(t1 == ti);
                                assert(tx_row_updated(pre, *db, transaction_id, request, ti));
                                assert(transaction_update_ok(pre, *db, transaction_id, request));
                                crate::laws::lemma_transaction_update_preserves_wf(
                                    pre,
                                    *db,
                                    transaction_id,
                                    request,
                                );
                            }
                        }
                        return Ok(());
                    },
                    None => {
                        proof {
                            let j = choose|j: int|
                                0 <= j < hv.assignments.len() && is_tx_leg(
                                    #[trigger] hv.assignments[j],
                                    transaction_id,
                                );
                            assert(false);
                        }
                        match db::transactions::update(db, updated_row) {
                            Ok(_) => {},
                            Err(e) => {
                                return Err(
                                    e.to_app_error("Failed to update transaction".to_owned()),
                                );
                            },
                        }
                        return Ok(());
                    },
                }
            }
        },
        None => {
            let ghost mid2 = *db;
            match db::transactions::update(db, updated_row) {
                Ok(_) => {},
                Err(e) => {
                    return Err(e.to_app_error("Failed to update transaction".to_owned()));
                },
            }
            proof {
                if pre.wf() {
                    assert(!holder_exists(pre, transaction_id)) by {
                        if holder_exists(pre, transaction_id) {
                            let hi = choose|hi: int|
                                #[trigger] first_holder_index(bs, transaction_id, hi);
                        }
                    }
                    assert(has_transaction_id(mid2.transactions@, transaction_id));
                    let t1 = choose|t1: int|
                        #[trigger] first_transaction_index(mid2.transactions@, transaction_id, t1)
                            && db.transactions@ == mid2.transactions@.update(t1, updated_row);
                    assert(t1 == ti);
                    assert(tx_row_updated(pre, *db, transaction_id, request, ti));
                    assert(transaction_update_ok(pre, *db, transaction_id, request));
                    crate::laws::lemma_transaction_update_preserves_wf(
                        pre,
                        *db,
                        transaction_id,
                        request,
                    );
                }
            }
            return Ok(());
        },
    }
}

/// A successful transaction deletion: the holding budget, if any, loses
/// the mirroring leg first, then the transaction row goes; deleting a row
/// that is already gone leaves the tables as they are.
pub open spec fn transaction_delete_ok(pre: Database, post: Database, transaction_id: Id) -> bool {
    &&& (has_transaction_id(pre.transactions@, transaction_id) ==> exists|ti: int|
        #[trigger] first_transaction_index(pre.transactions@, transaction_id, ti)
            && post.transactions@ == pre.transactions@.remove(ti))
    &&& (!has_transaction_id(pre.transactions@, transaction_id) ==> post.transactions@
        == pre.transactions@)
    &&& (holder_exists(pre, transaction_id) ==> exists|hi: int|
        #[trigger] first_holder_index(pre.budgets_view(), transaction_id, hi)
            && post.budgets_view() == pre.budgets_view().update(
            hi,
            remove_tx_legs(pre.budgets_view()[hi], transaction_id),
        ))
    &&& (!holder_exists(pre, transaction_id) ==> post.budgets_view() == pre.budgets_view())
    &&& post.schedules@ == pre.schedules@
    &&& post.users_view() == pre.users_view()
    &&& post.payees.deep_view() == pre.payees.deep_view()
    &&& post.bank_accounts.deep_view() == pre.bank_accounts.deep_view()
}

/// Deletes a transaction: the budget holding its mirroring leg, if any,
/// is stripped of that leg and persisted first, then the transaction row
/// is deleted. A transaction with no leg, or none at all, only affects
/// the row.
pub fn delete(db: &mut Database, transaction_id: Id) -> (r: Result<(), AppError>)
    ensures
        r is Ok,
        old(db).wf() ==> transaction_delete_ok(*old(db), *final(db), transaction_id),
        old(db).wf() ==> final(db).wf(),
{
    let ghost pre = *db;
    let ghost bs = db.budgets_view();

    let holder = match db::budgets::get_by_assignment_transaction_id(db, transaction_id) {
        Ok(h) => h,
        Err(e) => {
            return Err(e.to_app_error("Failed to get budget with transaction assignment".to_owned()));
        },
    };

    match holder {
        Some(holder_budget) => {
            let ghost hv = holder_budget@;
            let ghost hi = choose|hi: int|
                #[trigger] first_holder_index(bs, transaction_id, hi) && bs[hi] == hv;
            let kept = retain_non_tx_legs(holder_budget.assignments, transaction_id);
            let stripped = Budget {
                id: holder_budget.id,
                name: holder_budget.name,
                target: holder_budget.target,
                user_id: holder_budget.user_id,
                assignments: kept,
            };
            let ghost sv = stripped@;
            match db::budgets::update(db, stripped) {
                Ok(_) => {},
                Err(e) => {
                    return Err(e.to_app_error("Failed to update transaction".to_owned()));
                },
            }
            proof {
                if pre.wf() {
                    assert forall|k: int| 0 <= k < hi implies (#[trigger] bs[k]).id != hv.id by {
                        if bs[k].id == hv.id {
                            assert(bs[k].id == bs[hi].id);
                        }
                    }
                    assert(first_budget_index(bs, hv.id, hi));
                    assert(has_budget_id(bs, hv.id));
                    assert(sv =~= remove_tx_legs(hv, transaction_id));
                    let i1 = choose|i1: int|
                        #[trigger] first_budget_index(bs, hv.id, i1) && db.budgets_view()
                            == bs.update(i1, sv);
                    assert(i1 == hi);
                    assert(db.budgets_view() == bs.update(hi, remove_tx_legs(
                        bs[hi],
                        transaction_id,
                    )));
                }
            }
        },
        None => {},
    }

    let ghost mid = *db;

    match db::transactions::delete(db, transaction_id) {
        Ok(_) => {},
        Err(e) => {
            return Err(e.to_app_error("Failed to delete transaction".to_owned()));
        },
    }

    proof {
        if pre.wf() {
            assert(mid.transactions@ == pre.transactions@);
            if !holder_exists(pre, transaction_id) {
                assert(db.budgets_view() == pre.budgets_view());
            }
            assert(transaction_delete_ok(pre, *db, transaction_id));
            crate::laws::lemma_transaction_delete_preserves_wf(pre, *db, transaction_id);
        }
    }

    Ok(())
}

} // verus!
