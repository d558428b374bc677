//! The system's laws: the balance invariant and the single-leg invariant
//! are preserved by every operation the protocols perform on the store.
//!
//! Each public proof function here takes an operation's effect, as stated
//! in its contract, and shows that a well-formed store stays well-formed.

use vstd::prelude::*;

use crate::db::{
    balanced, budget_owned_schedule, budget_schedules_ok, budgets_unique_ids, has_budget_id,
    is_transfer_leg_from, is_tx_leg, link_unused, mirror_amount_count, mirror_count,
    schedule_listed, schedules_unique_ids, single_leg, transactions_unique_ids,
    transfer_amount_count, transfer_count, transfer_leg_matched, tx_leg_count, tx_leg_count_in,
    tx_leg_resident, user_schedules_ok, Database,
};
use crate::models::{BudgetAssignment, BudgetAssignmentSource, BudgetView, Id, Transaction};

verus! {

/// Total mirroring-leg counts after replacing one budget row.
pub proof fn lemma_tx_leg_count_update(bs: Seq<BudgetView>, k: int, b: BudgetView, tid: Id)
    requires
        0 <= k < bs.len(),
    ensures
        tx_leg_count(bs.update(k, b), tid) == tx_leg_count(bs, tid) - tx_leg_count_in(bs[k], tid)
            + tx_leg_count_in(b, tid),
    decreases bs.len(),
{
    if k == bs.len() - 1 {
        assert(bs.update(k, b).drop_last() =~= bs.drop_last());
        assert(bs.update(k, b).last() == b);
    } else {
        lemma_tx_leg_count_update(bs.drop_last(), k, b, tid);
        assert(bs.update(k, b).drop_last() =~= bs.drop_last().update(k, b));
        assert(bs.update(k, b).last() == bs.last());
    }
}

/// Total mirroring-leg counts after appending one budget row.
pub proof fn lemma_tx_leg_count_push(bs: Seq<BudgetView>, b: BudgetView, tid: Id)
    ensures
        tx_leg_count(bs.push(b), tid) == tx_leg_count(bs, tid) + tx_leg_count_in(b, tid),
{
    assert(bs.push(b).drop_last() =~= bs);
    assert(bs.push(b).last() == b);
}

/// Total mirroring-leg counts after removing one budget row.
pub proof fn lemma_tx_leg_count_remove(bs: Seq<BudgetView>, k: int, tid: Id)
    requires
        0 <= k < bs.len(),
    ensures
        tx_leg_count(bs.remove(k), tid) == tx_leg_count(bs, tid) - tx_leg_count_in(bs[k], tid),
    decreases bs.len(),
{
    if k == bs.len() - 1 {
        assert(bs.remove(k) =~= bs.drop_last());
    } else {
        lemma_tx_leg_count_remove(bs.drop_last(), k, tid);
        assert(bs.remove(k).drop_last() =~= bs.drop_last().remove(k));
        assert(bs.remove(k).last() == bs.last());
    }
}

/// A budget index holding a mirroring leg contributes to the total count.
pub proof fn lemma_tx_leg_count_at_least(bs: Seq<BudgetView>, tid: Id, i: int)
    requires
        0 <= i < bs.len(),
        tx_leg_count_in(bs[i], tid) >= 1,
    ensures
        tx_leg_count(bs, tid) >= tx_leg_count_in(bs[i], tid),
    decreases bs.len(),
{
    if i < bs.len() - 1 {
        lemma_tx_leg_count_at_least(bs.drop_last(), tid, i);
    }
}

/// The ledger content relevant to the balance invariant: for every source
/// budget, link and amount, the two lists hold the same number of
/// transfer legs.
pub open spec fn transfer_content_eq(
    a1: Seq<BudgetAssignment>,
    a2: Seq<BudgetAssignment>,
) -> bool {
    &&& forall|f: Id, l: Id| #[trigger] transfer_count(a2, f, l) == transfer_count(a1, f, l)
    &&& forall|f: Id, l: Id, m: int|
        #[trigger] transfer_amount_count(a2, f, l, m) == transfer_amount_count(a1, f, l, m)
}

/// Replacing one budget row with one of the same id and the same transfer
/// legs preserves the balance invariant.
pub proof fn lemma_balanced_update(bs: Seq<BudgetView>, k: int, b: BudgetView)
    requires
        balanced(bs),
        0 <= k < bs.len(),
        b.id == bs[k].id,
        transfer_content_eq(bs[k].assignments, b.assignments),
    ensures
        balanced(bs.update(k, b)),
{
    let bs2 = bs.update(k, b);
    assert forall|i: int, j: int|
        0 <= i < bs2.len() && 0 <= j < bs2[i].assignments.len() && (#[trigger] bs2[i].assignments[j]).source
            is OtherBudget implies transfer_leg_matched(bs2, i, j) by {
        let a = bs2[i].assignments[j];
        let f = a.source->from_budget_id;
        let l = a.source->link_id;
        let m = a.amount.minor as int;
        // Map the leg back to an old leg with the same invariant-relevant data.
        let (oi, oj): (int, int) = if i != k {
            (i, j)
        } else {
            crate::db::lemma_transfer_amount_count_at_least(b.assignments, f, l, m, j);
            assert(transfer_amount_count(bs[k].assignments, f, l, m) >= 1);
            crate::db::lemma_transfer_amount_count_zero(bs[k].assignments, f, l, m);
            let j0 = choose|j0: int|
                0 <= j0 < bs[k].assignments.len() && is_transfer_leg_from(
                    #[trigger] bs[k].assignments[j0],
                    f,
                    l,
                ) && bs[k].assignments[j0].amount.minor == m;
            (k, j0)
        };
        assert(0 <= oi < bs.len());
        assert(0 <= oj < bs[oi].assignments.len());
        assert(bs[oi].assignments[oj].source is OtherBudget);
        assert(bs[oi].assignments[oj].source->from_budget_id == f);
        assert(bs[oi].assignments[oj].source->link_id == l);
        assert(bs[oi].assignments[oj].amount.minor == m);
        assert(transfer_leg_matched(bs, oi, oj));
        assert(has_budget_id(bs, f));
        let w = choose|w: int| 0 <= w < bs.len() && (#[trigger] bs[w]).id == f;
        assert(bs2[w].id == f);
        assert(has_budget_id(bs2, f));
        assert forall|k2: int|
            0 <= k2 < bs2.len() && (#[trigger] bs2[k2]).id == f implies mirror_count(
            bs2[k2],
            bs2[i].id,
            l,
        ) == 1 && mirror_amount_count(bs2[k2], bs2[i].id, l, -m) == 1 by {
            assert(bs[k2].id == f);
            assert(bs2[i].id == bs[oi].id);
            assert(mirror_count(bs[k2], bs[oi].id, l) == 1);
            assert(mirror_amount_count(bs[k2], bs[oi].id, l, -m) == 1);
            if k2 == k {
                assert(transfer_count(b.assignments, bs[oi].id, l) == transfer_count(
                    bs[k].assignments,
                    bs[oi].id,
                    l,
                ));
                assert(transfer_amount_count(b.assignments, bs[oi].id, l, -m)
                    == transfer_amount_count(bs[k].assignments, bs[oi].id, l, -m));
            }
        }
    }
}

/// Appending one new, empty budget under a fresh id preserves the balance
/// invariant.
pub proof fn lemma_balanced_push(bs: Seq<BudgetView>, b: BudgetView)
    requires
        balanced(bs),
        b.assignments.len() == 0,
        !has_budget_id(bs, b.id),
    ensures
        balanced(bs.push(b)),
{
    let bs2 = bs.push(b);
    assert forall|i: int, j: int|
        0 <= i < bs2.len() && 0 <= j < bs2[i].assignments.len() && (#[trigger] bs2[i].assignments[j]).source
            is OtherBudget implies transfer_leg_matched(bs2, i, j) by {
        assert(i < bs.len());
        assert(bs2[i] == bs[i]);
        assert(transfer_leg_matched(bs, i, j));
        let a = bs[i].assignments[j];
        let f = a.source->from_budget_id;
        let l = a.source->link_id;
        let w = choose|w: int| 0 <= w < bs.len() && (#[trigger] bs[w]).id == f;
        assert(bs2[w].id == f);
        assert(has_budget_id(bs2, f));
        assert forall|k2: int|
            0 <= k2 < bs2.len() && (#[trigger] bs2[k2]).id == f implies mirror_count(
            bs2[k2],
            bs2[i].id,
            l,
        ) == 1 && mirror_amount_count(bs2[k2], bs2[i].id, l, -a.amount.minor) == 1 by {
            if k2 == bs.len() {
                assert(b.id == f);
                assert(bs[w].id == b.id);
                assert(false);
            } else {
                assert(bs2[k2] == bs[k2]);
            }
        }
    }
}

/// The inter-budget transfer preserves the balance and single-leg
/// invariants: the two appended legs form their own exactly-one pair under
/// the unused link id, and every older pair is untouched.
pub proof fn lemma_transfer_preserves_wf(
    pre: Database,
    post: Database,
    from_budget_id: Id,
    to_budget_id: Id,
    request: crate::models::TransferBudgetRequest,
    i: int,
    j: int,
    link_id: Id,
    to_aid: Id,
    from_aid: Id,
)
    requires
        pre.wf(),
        request.amount.minor != i64::MIN,
        crate::routes::budgets::transferred(
            pre,
            post,
            from_budget_id,
            to_budget_id,
            request,
            i,
            j,
            link_id,
            to_aid,
            from_aid,
        ),
    ensures
        post.wf(),
{
    let bs = pre.budgets_view();
    let bs2 = post.budgets_view();
    let amt = request.amount;
    let fleg = BudgetAssignment {
        id: from_aid,
        amount: crate::models::Money { minor: -amt.minor as i64 },
        date: request.date,
        source: BudgetAssignmentSource::OtherBudget { from_budget_id: to_budget_id, link_id },
    };
    let tleg = BudgetAssignment {
        id: to_aid,
        amount: amt,
        date: request.date,
        source: BudgetAssignmentSource::OtherBudget { from_budget_id: from_budget_id, link_id },
    };
    let fb = crate::models::transfer_from_result(bs[i], to_budget_id, amt, request.date, link_id, from_aid);
    let tb = crate::models::transfer_to_result(bs[j], from_budget_id, amt, request.date, link_id, to_aid);
    assert(bs2 == bs.update(i, fb).update(j, tb));
    assert(fb.assignments == bs[i].assignments.push(fleg));
    assert(tb.assignments == bs[j].assignments.push(tleg));
    assert(bs2.len() == bs.len());
    assert forall|k: int| 0 <= k < bs.len() implies (#[trigger] bs2[k]).id == bs[k].id by {}
    assert forall|k: int|
        0 <= k < bs.len() implies budget_owned_schedule(#[trigger] bs2[k]) == budget_owned_schedule(
        bs[k],
    ) by {}

    // Pairwise-distinct ids carry over, as do the schedule conditions.
    assert(budgets_unique_ids(bs2));
    assert(budget_schedules_ok(bs2, post.schedules@));
    assert(user_schedules_ok(post.users_view(), bs2, post.schedules@));

    // The single-leg invariant: neither new leg mirrors a transaction.
    assert forall|tid: Id| #[trigger] tx_leg_count(bs2, tid) <= 1 by {
        crate::db::lemma_tx_count_push(bs[i].assignments, fleg, tid);
        crate::db::lemma_tx_count_push(bs[j].assignments, tleg, tid);
        lemma_tx_leg_count_update(bs, i, fb, tid);
        lemma_tx_leg_count_update(bs.update(i, fb), j, tb, tid);
        assert(bs.update(i, fb)[j] == bs[j]);
        assert(tx_leg_count(bs2, tid) == tx_leg_count(bs, tid));
    }
    assert forall|x: int, y: int|
        0 <= x < bs2.len() && 0 <= y < bs2[x].assignments.len() && (#[trigger] bs2[x].assignments[y]).source
            is Transaction implies tx_leg_resident(bs2, post.transactions@, x, y) by {
        if x == i && y == bs[i].assignments.len() {
            assert(false);
        } else if x == j && y == bs[j].assignments.len() {
            assert(false);
        } else {
            assert(bs2[x].assignments[y] == bs[x].assignments[y]);
            assert(tx_leg_resident(bs, pre.transactions@, x, y));
            let t = choose|t: int|
                0 <= t < pre.transactions@.len() && (#[trigger] pre.transactions@[t]).id
                    == bs[x].assignments[y].source->from_transaction_id
                    && pre.transactions@[t].budget_id == bs[x].id;
            assert(post.transactions@[t] == pre.transactions@[t]);
            assert(bs2[x].id == bs[x].id);
        }
    }
    assert(single_leg(bs2, post.transactions@));

    // The balance invariant.
    assert forall|x: int, y: int|
        0 <= x < bs2.len() && 0 <= y < bs2[x].assignments.len() && (#[trigger] bs2[x].assignments[y]).source
            is OtherBudget implies transfer_leg_matched(bs2, x, y) by {
        let a = bs2[x].assignments[y];
        let f = a.source->from_budget_id;
        let l = a.source->link_id;
        let m = a.amount.minor as int;
        let new_from = x == i && y == bs[i].assignments.len();
        let new_to = x == j && y == bs[j].assignments.len();
        if new_from || new_to {
            // One of the two freshly appended legs: its mirror is the other.
            let other = if new_from { j } else { i };
            assert(bs2[other].id == f);
            assert(has_budget_id(bs2, f));
            assert forall|k2: int|
                0 <= k2 < bs2.len() && (#[trigger] bs2[k2]).id == f implies mirror_count(
                bs2[k2],
                bs2[x].id,
                l,
            ) == 1 && mirror_amount_count(bs2[k2], bs2[x].id, l, -m) == 1 by {
                assert(bs[k2].id == bs[other].id);
                assert(k2 == other);
                let mirror_leg = if new_from { tleg } else { fleg };
                let base = bs[other].assignments;
                crate::db::lemma_transfer_count_zero(base, bs2[x].id, l);
                assert(transfer_count(base, bs2[x].id, l) == 0) by {
                    if transfer_count(base, bs2[x].id, l) != 0 {
                        let y0 = choose|y0: int|
                            0 <= y0 < base.len() && is_transfer_leg_from(
                                #[trigger] base[y0],
                                bs2[x].id,
                                l,
                            );
                        assert(false);
                    }
                }
                crate::db::lemma_transfer_amount_count_zero(base, bs2[x].id, l, -m);
                assert(transfer_amount_count(base, bs2[x].id, l, -m) == 0) by {
                    if transfer_amount_count(base, bs2[x].id, l, -m) != 0 {
                        let y0 = choose|y0: int|
                            0 <= y0 < base.len() && is_transfer_leg_from(
                                #[trigger] base[y0],
                                bs2[x].id,
                                l,
                            ) && base[y0].amount.minor == -m;
                        assert(false);
                    }
                }
                crate::db::lemma_transfer_count_push(base, mirror_leg, bs2[x].id, l);
                crate::db::lemma_transfer_amount_count_push(base, mirror_leg, bs2[x].id, l, -m);
                assert(is_transfer_leg_from(mirror_leg, bs2[x].id, l));
                assert(mirror_leg.amount.minor == -m);
            }
        } else {
            // An old leg: its old mirror still counts exactly once, since
            // the appended legs carry the unused link id.
            assert(bs2[x].assignments[y] == bs[x].assignments[y]);
            assert(transfer_leg_matched(bs, x, y));
            assert(l != link_id);
            let w = choose|w: int| 0 <= w < bs.len() && (#[trigger] bs[w]).id == f;
            assert(bs2[w].id == f);
            assert(has_budget_id(bs2, f));
            assert forall|k2: int|
                0 <= k2 < bs2.len() && (#[trigger] bs2[k2]).id == f implies mirror_count(
                bs2[k2],
                bs2[x].id,
                l,
            ) == 1 && mirror_amount_count(bs2[k2], bs2[x].id, l, -m) == 1 by {
                assert(bs[k2].id == f);
                assert(mirror_count(bs[k2], bs[x].id, l) == 1);
                assert(mirror_amount_count(bs[k2], bs[x].id, l, -m) == 1);
                if k2 == i {
                    crate::db::lemma_transfer_count_push(bs[i].assignments, fleg, bs[x].id, l);
                    crate::db::lemma_transfer_amount_count_push(
                        bs[i].assignments,
                        fleg,
                        bs[x].id,
                        l,
                        -m,
                    );
                } else if k2 == j {
                    crate::db::lemma_transfer_count_push(bs[j].assignments, tleg, bs[x].id, l);
                    crate::db::lemma_transfer_amount_count_push(
                        bs[j].assignments,
                        tleg,
                        bs[x].id,
                        l,
                        -m,
                    );
                }
            }
        }
    }
    assert(balanced(bs2));
}

/// A positive total means some budget holds a mirroring leg.
pub proof fn lemma_tx_leg_count_positive(bs: Seq<BudgetView>, tid: Id) -> (i: int)
    requires
        tx_leg_count(bs, tid) >= 1,
    ensures
        0 <= i < bs.len(),
        tx_leg_count_in(bs[i], tid) >= 1,
    decreases bs.len(),
{
    if tx_leg_count_in(bs.last(), tid) >= 1 {
        bs.len() - 1
    } else {
        lemma_tx_leg_count_positive(bs.drop_last(), tid)
    }
}

/// Two distinct budgets each holding a mirroring leg put the total at two
/// or more.
pub proof fn lemma_tx_leg_count_two(bs: Seq<BudgetView>, tid: Id, i1: int, i2: int)
    requires
        0 <= i1 < bs.len(),
        0 <= i2 < bs.len(),
        i1 != i2,
        tx_leg_count_in(bs[i1], tid) >= 1,
        tx_leg_count_in(bs[i2], tid) >= 1,
    ensures
        tx_leg_count(bs, tid) >= 2,
    decreases bs.len(),
{
    let hi = if i1 > i2 { i1 } else { i2 };
    let lo = if i1 > i2 { i2 } else { i1 };
    if hi == bs.len() - 1 {
        lemma_tx_leg_count_at_least(bs.drop_last(), tid, lo);
    } else {
        lemma_tx_leg_count_two(bs.drop_last(), tid, i1, i2);
    }
}

/// Creating a transaction preserves the invariants: the fresh row and its
/// one mirroring leg in the funded budget keep the single-leg law, and a
/// transaction leg never disturbs a transfer pair.
pub proof fn lemma_transaction_create_preserves_wf(
    pre: Database,
    post: Database,
    bank_account_id: Id,
    request: crate::models::CreateTransactionRequest,
    transaction_id: Id,
    assignment_id: Id,
    i: int,
)
    requires
        pre.wf(),
        crate::routes::transactions::transaction_created(
            pre,
            post,
            bank_account_id,
            request,
            transaction_id,
            assignment_id,
            i,
        ),
    ensures
        post.wf(),
{
    let bs = pre.budgets_view();
    let bs2 = post.budgets_view();
    let ts = pre.transactions@;
    let ts2 = post.transactions@;
    let t = crate::db::transactions::requested_transaction(transaction_id, bank_account_id, request);
    let leg = crate::models::transaction_leg(t, assignment_id);
    let nb = crate::models::assign_result(bs[i], t, assignment_id);
    assert(bs2 == bs.update(i, nb));
    assert(nb.assignments == bs[i].assignments.push(leg));
    assert(ts2 == ts.push(t));

    assert(budgets_unique_ids(bs2));
    assert(transactions_unique_ids(ts2)) by {
        assert forall|x: int, y: int|
            0 <= x < y < ts2.len() implies (#[trigger] ts2[x].id) != (#[trigger] ts2[y].id) by {
            if y == ts.len() {
                assert(ts[x].id != transaction_id);
            }
        }
    }

    // Balance: the pushed leg is not a transfer leg.
    assert(transfer_content_eq(bs[i].assignments, nb.assignments)) by {
        assert forall|f: Id, l: Id| #[trigger] transfer_count(nb.assignments, f, l)
            == transfer_count(bs[i].assignments, f, l) by {
            crate::db::lemma_transfer_count_push(bs[i].assignments, leg, f, l);
        }
        assert forall|f: Id, l: Id, m: int| #[trigger] transfer_amount_count(nb.assignments, f, l, m)
            == transfer_amount_count(bs[i].assignments, f, l, m) by {
            crate::db::lemma_transfer_amount_count_push(bs[i].assignments, leg, f, l, m);
        }
    }
    lemma_balanced_update(bs, i, nb);

    // Single-leg: the fresh transaction had no legs anywhere.
    assert(tx_leg_count(bs, transaction_id) == 0) by {
        if tx_leg_count(bs, transaction_id) >= 1 {
            let w = lemma_tx_leg_count_positive(bs, transaction_id);
            crate::db::lemma_tx_count_zero(bs[w].assignments, transaction_id);
            let y = choose|y: int|
                0 <= y < bs[w].assignments.len() && is_tx_leg(
                    #[trigger] bs[w].assignments[y],
                    transaction_id,
                );
            assert(tx_leg_resident(bs, ts, w, y));
            let tw = choose|tw: int|
                0 <= tw < ts.len() && (#[trigger] ts[tw]).id == transaction_id && ts[tw].budget_id
                    == bs[w].id;
            assert(false);
        }
    }
    assert forall|tid: Id| #[trigger] tx_leg_count(bs2, tid) <= 1 by {
        crate::db::lemma_tx_count_push(bs[i].assignments, leg, tid);
        lemma_tx_leg_count_update(bs, i, nb, tid);
        if tid == transaction_id {
            assert(tx_leg_count_in(bs[i], tid) <= tx_leg_count(bs, tid)) by {
                if tx_leg_count_in(bs[i], tid) >= 1 {
                    lemma_tx_leg_count_at_least(bs, tid, i);
                }
            }
        }
    }
    assert forall|x: int, y: int|
        0 <= x < bs2.len() && 0 <= y < bs2[x].assignments.len() && (#[trigger] bs2[x].assignments[y]).source
            is Transaction implies tx_leg_resident(bs2, ts2, x, y) by {
        if x == i && y == bs[i].assignments.len() {
            assert(ts2[ts.len() as int].id == transaction_id);
            assert(ts2[ts.len() as int].budget_id == bs2[i].id);
        } else {
            assert(bs2[x].assignments[y] == bs[x].assignments[y]);
            assert(tx_leg_resident(bs, ts, x, y));
            let tw = choose|tw: int|
                0 <= tw < ts.len() && (#[trigger] ts[tw]).id
                    == bs[x].assignments[y].source->from_transaction_id && ts[tw].budget_id
                    == bs[x].id;
            assert(ts2[tw] == ts[tw]);
        }
    }
    assert(single_leg(bs2, ts2));

    assert forall|k: int|
        0 <= k < bs.len() implies budget_owned_schedule(#[trigger] bs2[k]) == budget_owned_schedule(
        bs[k],
    ) by {}
    assert(budget_schedules_ok(bs2, post.schedules@));
    assert(user_schedules_ok(post.users_view(), bs2, post.schedules@));
}

/// Updating a transaction preserves the invariants, whichever of the three
/// sync cases the state selects: leg untouched, leg rewritten in place, or
/// leg moved between budgets.
pub proof fn lemma_transaction_update_preserves_wf(
    pre: Database,
    post: Database,
    transaction_id: Id,
    request: crate::models::UpdateTransactionRequest,
)
    requires
        pre.wf(),
        crate::routes::transactions::transaction_update_ok(pre, post, transaction_id, request),
    ensures
        post.wf(),
{
    let bs = pre.budgets_view();
    let bs2 = post.budgets_view();
    let ts = pre.transactions@;
    let ts2 = post.transactions@;
    let ti = choose|ti: int|
        #[trigger] crate::routes::transactions::tx_row_updated(
            pre,
            post,
            transaction_id,
            request,
            ti,
        );
    let t2 = crate::routes::transactions::updated_transaction_row(
        transaction_id,
        request,
        ts[ti],
    );
    assert(ts2 == ts.update(ti, t2));
    assert(ts[ti].id == transaction_id);
    assert(transactions_unique_ids(ts2)) by {
        assert forall|x: int, y: int|
            0 <= x < y < ts2.len() implies (#[trigger] ts2[x].id) != (#[trigger] ts2[y].id) by {
            assert(ts2[x].id == ts[x].id);
            assert(ts2[y].id == ts[y].id);
        }
    }

    if crate::routes::transactions::holder_exists(pre, transaction_id) {
        let hi = choose|hi: int|
            #[trigger] crate::db::budgets::first_holder_index(bs, transaction_id, hi);
        let holder = bs[hi];
        assert(crate::db::budgets::has_tx_leg(holder, transaction_id));
        let hy = choose|hy: int|
            0 <= hy < holder.assignments.len() && is_tx_leg(
                #[trigger] holder.assignments[hy],
                transaction_id,
            );
        if holder.id == request.budget_id {
            let li = choose|li: int|
                #[trigger] crate::routes::transactions::tx_leg_retargeted_in_place(
                    pre,
                    post,
                    transaction_id,
                    request,
                    hi,
                    li,
                );
            let old_leg = holder.assignments[li];
            let new_leg = BudgetAssignment {
                amount: request.amount,
                date: request.date,
                ..old_leg
            };
            let nb = BudgetView {
                assignments: holder.assignments.update(li, new_leg),
                ..holder
            };
            assert(bs2 == bs.update(hi, nb));
            assert(is_tx_leg(old_leg, transaction_id));
            assert(old_leg.source == new_leg.source);
            assert(budgets_unique_ids(bs2));
            assert(transfer_content_eq(holder.assignments, nb.assignments)) by {
                assert forall|f: Id, l: Id| #[trigger] transfer_count(nb.assignments, f, l)
                    == transfer_count(holder.assignments, f, l) by {
                    crate::db::lemma_transfer_count_update(holder.assignments, li, new_leg, f, l);
                }
                assert forall|f: Id, l: Id, m: int|
                    #[trigger] transfer_amount_count(nb.assignments, f, l, m)
                    == transfer_amount_count(holder.assignments, f, l, m) by {
                    crate::db::lemma_transfer_amount_count_update(
                        holder.assignments,
                        li,
                        new_leg,
                        f,
                        l,
                        m,
                    );
                }
            }
            lemma_balanced_update(bs, hi, nb);
            assert forall|tid: Id| #[trigger] tx_leg_count(bs2, tid) <= 1 by {
                crate::db::lemma_tx_count_update(holder.assignments, li, new_leg, tid);
                lemma_tx_leg_count_update(bs, hi, nb, tid);
            }
            assert forall|x: int, y: int|
                0 <= x < bs2.len() && 0 <= y < bs2[x].assignments.len() && (
                #[trigger] bs2[x].assignments[y]).source is Transaction implies tx_leg_resident(
                bs2,
                ts2,
                x,
                y,
            ) by {
                let leg_tid = bs2[x].assignments[y].source->from_transaction_id;
                if x == hi && y == li {
                    // The rewritten leg still mirrors the same transaction,
                    // whose updated row funds exactly this budget.
                    assert(leg_tid == transaction_id);
                    assert(ts2[ti].id == transaction_id);
                    assert(ts2[ti].budget_id == bs2[x].id);
                } else {
                    assert(bs2[x].assignments[y] == bs[x].assignments[y]);
                    assert(tx_leg_resident(bs, ts, x, y));
                    let tw = choose|tw: int|
                        0 <= tw < ts.len() && (#[trigger] ts[tw]).id == leg_tid && ts[tw].budget_id
                            == bs[x].id;
                    if tw == ti {
                        // The leg mirrors the updated transaction: under the
                        // single-leg law it is the in-place leg itself.
                        assert(leg_tid == transaction_id);
                        assert(is_tx_leg(bs[x].assignments[y], transaction_id));
                        if x != hi {
                            crate::db::lemma_tx_count_at_least(
                                bs[x].assignments,
                                transaction_id,
                                y,
                            );
                            crate::db::lemma_tx_count_at_least(
                                holder.assignments,
                                transaction_id,
                                hy,
                            );
                            lemma_tx_leg_count_two(bs, transaction_id, x, hi);
                            assert(false);
                        } else {
                            crate::db::lemma_tx_count_at_least(
                                holder.assignments,
                                transaction_id,
                                hy,
                            );
                            lemma_tx_leg_count_at_least(bs, transaction_id, hi);
                            assert(crate::db::tx_count(holder.assignments, transaction_id) <= 1);
                            crate::db::lemma_tx_count_unique(
                                holder.assignments,
                                transaction_id,
                                y,
                                li,
                            );
                            assert(false);
                        }
                    } else {
                        assert(ts2[tw] == ts[tw]);
                        assert(bs2[x].id == bs[x].id);
                    }
                }
            }
            assert(single_leg(bs2, ts2));
            assert forall|k: int|
                0 <= k < bs.len() implies budget_owned_schedule(#[trigger] bs2[k])
                == budget_owned_schedule(bs[k]) by {}
            assert(budget_schedules_ok(bs2, post.schedules@));
            assert(user_schedules_ok(post.users_view(), bs2, post.schedules@));
        } else {
            let (ni, aid, ti2) = choose|ni: int, aid: Id, ti2: int|
                #[trigger] crate::routes::transactions::tx_leg_moved(
                    pre,
                    post,
                    transaction_id,
                    request,
                    hi,
                    ni,
                    aid,
                    ti2,
                );
            assert(ti2 == ti);
            let stripped = crate::routes::transactions::remove_tx_legs(holder, transaction_id);
            let t2b = crate::routes::transactions::updated_transaction_row(
                transaction_id,
                request,
                ts[ti2],
            );
            let leg = crate::models::transaction_leg(t2b, aid);
            let nb = crate::models::assign_result(bs[ni], t2b, aid);
            let mid = bs.update(hi, stripped);
            assert(bs2 == mid.update(ni, nb));
            assert(stripped.id == holder.id);
            assert(nb.id == bs[ni].id);
            assert(budgets_unique_ids(bs2));

            // Balance through both rewrites.
            assert(transfer_content_eq(holder.assignments, stripped.assignments)) by {
                assert forall|f: Id, l: Id| #[trigger] transfer_count(stripped.assignments, f, l)
                    == transfer_count(holder.assignments, f, l) by {
                    crate::db::lemma_strip_tx_legs_counts(
                        holder.assignments,
                        transaction_id,
                        f,
                        l,
                        0,
                        transaction_id,
                    );
                }
                assert forall|f: Id, l: Id, m: int|
                    #[trigger] transfer_amount_count(stripped.assignments, f, l, m)
                    == transfer_amount_count(holder.assignments, f, l, m) by {
                    crate::db::lemma_strip_tx_legs_counts(
                        holder.assignments,
                        transaction_id,
                        f,
                        l,
                        m,
                        transaction_id,
                    );
                }
            }
            lemma_balanced_update(bs, hi, stripped);
            assert(mid[ni] == bs[ni]);
            assert(transfer_content_eq(mid[ni].assignments, nb.assignments)) by {
                assert forall|f: Id, l: Id| #[trigger] transfer_count(nb.assignments, f, l)
                    == transfer_count(bs[ni].assignments, f, l) by {
                    crate::db::lemma_transfer_count_push(bs[ni].assignments, leg, f, l);
                }
                assert forall|f: Id, l: Id, m: int|
                    #[trigger] transfer_amount_count(nb.assignments, f, l, m)
                    == transfer_amount_count(bs[ni].assignments, f, l, m) by {
                    crate::db::lemma_transfer_amount_count_push(bs[ni].assignments, leg, f, l, m);
                }
            }
            lemma_balanced_update(mid, ni, nb);

            // Single-leg counts across the move.
            assert forall|tid: Id| #[trigger] tx_leg_count(bs2, tid) <= 1 by {
                crate::db::lemma_strip_tx_legs_counts(
                    holder.assignments,
                    transaction_id,
                    tid,
                    tid,
                    0,
                    tid,
                );
                crate::db::lemma_tx_count_push(bs[ni].assignments, leg, tid);
                lemma_tx_leg_count_update(bs, hi, stripped, tid);
                lemma_tx_leg_count_update(mid, ni, nb, tid);
                if tid == transaction_id {
                    crate::db::lemma_tx_count_at_least(holder.assignments, transaction_id, hy);
                    lemma_tx_leg_count_at_least(bs, transaction_id, hi);
                    assert(tx_leg_count_in(bs[ni], transaction_id) == 0) by {
                        if tx_leg_count_in(bs[ni], transaction_id) >= 1 {
                            lemma_tx_leg_count_two(bs, transaction_id, ni, hi);
                        }
                    }
                    assert(tx_leg_count_in(stripped, transaction_id) == 0);
                }
            }
            assert forall|x: int, y: int|
                0 <= x < bs2.len() && 0 <= y < bs2[x].assignments.len() && (
                #[trigger] bs2[x].assignments[y]).source is Transaction implies tx_leg_resident(
                bs2,
                ts2,
                x,
                y,
            ) by {
                let leg_tid = bs2[x].assignments[y].source->from_transaction_id;
                if x == ni && y == bs[ni].assignments.len() {
                    assert(leg_tid == transaction_id);
                    assert(ts2[ti].id == transaction_id);
                    assert(ts2[ti].budget_id == bs2[ni].id);
                } else {
                    // An untouched leg, or one kept by the strip: map it to
                    // its source position in the old ledger.
                    let (ox, oy): (int, int) = if x == hi {
                        crate::db::lemma_filter_elem_in_source(
                            holder.assignments,
                            |a: BudgetAssignment| !is_tx_leg(a, transaction_id),
                            y,
                        );
                        let oy = choose|oy: int|
                            0 <= oy < holder.assignments.len() && #[trigger] holder.assignments[oy]
                                == stripped.assignments[y];
                        (hi, oy)
                    } else if x == ni {
                        (ni, y)
                    } else {
                        (x, y)
                    };
                    assert(bs[ox].assignments[oy] == bs2[x].assignments[y]);
                    assert(tx_leg_resident(bs, ts, ox, oy));
                    let tw = choose|tw: int|
                        0 <= tw < ts.len() && (#[trigger] ts[tw]).id == leg_tid && ts[tw].budget_id
                            == bs[ox].id;
                    if tw == ti {
                        // A kept leg cannot mirror the updated transaction.
                        assert(leg_tid == transaction_id);
                        if x == hi {
                            crate::db::lemma_tx_count_zero(stripped.assignments, transaction_id);
                            crate::db::lemma_strip_tx_legs_counts(
                                holder.assignments,
                                transaction_id,
                                transaction_id,
                                transaction_id,
                                0,
                                transaction_id,
                            );
                            assert(false);
                        } else {
                            crate::db::lemma_tx_count_at_least(
                                bs[x].assignments,
                                transaction_id,
                                y,
                            );
                            crate::db::lemma_tx_count_at_least(
                                holder.assignments,
                                transaction_id,
                                hy,
                            );
                            lemma_tx_leg_count_two(bs, transaction_id, x, hi);
                            assert(false);
                        }
                    } else {
                        assert(ts2[tw] == ts[tw]);
                        assert(bs2[x].id == bs[ox].id);
                    }
                }
            }
            assert(single_leg(bs2, ts2));
            assert forall|k: int|
                0 <= k < bs.len() implies budget_owned_schedule(#[trigger] bs2[k])
                == budget_owned_schedule(bs[k]) by {}
            assert(budget_schedules_ok(bs2, post.schedules@));
            assert(user_schedules_ok(post.users_view(), bs2, post.schedules@));
        }
    } else {
        assert(bs2 == bs);
        assert forall|x: int, y: int|
            0 <= x < bs2.len() && 0 <= y < bs2[x].assignments.len() && (
            #[trigger] bs2[x].assignments[y]).source is Transaction implies tx_leg_resident(
            bs2,
            ts2,
            x,
            y,
        ) by {
            assert(tx_leg_resident(bs, ts, x, y));
            let leg_tid = bs[x].assignments[y].source->from_transaction_id;
            let tw = choose|tw: int|
                0 <= tw < ts.len() && (#[trigger] ts[tw]).id == leg_tid && ts[tw].budget_id
                    == bs[x].id;
            if tw == ti {
                // A leg mirroring the transaction would make its budget a
                // holder, and there is none.
                assert(is_tx_leg(bs[x].assignments[y], transaction_id));
                assert(crate::db::budgets::has_tx_leg(bs[x], transaction_id));
                let w0 = first_holder_witness(bs, transaction_id, x);
                assert(false);
            } else {
                assert(ts2[tw] == ts[tw]);
            }
        }
        assert(single_leg(bs2, ts2));
    }
}

/// From any budget holding a mirroring leg, the first such budget exists.
pub proof fn first_holder_witness(bs: Seq<BudgetView>, tid: Id, x: int) -> (hi: int)
    requires
        0 <= x < bs.len(),
        crate::db::budgets::has_tx_leg(bs[x], tid),
    ensures
        crate::db::budgets::first_holder_index(bs, tid, hi),
    decreases x,
{
    if exists|k: int| 0 <= k < x && crate::db::budgets::has_tx_leg(#[trigger] bs[k], tid) {
        let k = choose|k: int| 0 <= k < x && crate::db::budgets::has_tx_leg(#[trigger] bs[k], tid);
        first_holder_witness(bs, tid, k)
    } else {
        x
    }
}

/// Deleting a transaction preserves the invariants: its leg, if any, goes
/// before the row does, so no leg ever dangles.
pub proof fn lemma_transaction_delete_preserves_wf(pre: Database, post: Database, transaction_id: Id)
    requires
        pre.wf(),
        crate::routes::transactions::transaction_delete_ok(pre, post, transaction_id),
    ensures
        post.wf(),
{
    let bs = pre.budgets_view();
    let bs2 = post.budgets_view();
    let ts = pre.transactions@;
    let ts2 = post.transactions@;

    // The transactions table: unchanged, or one row removed.
    assert(transactions_unique_ids(ts2)) by {
        if crate::db::transactions::has_transaction_id(ts, transaction_id) {
            let ti = choose|ti: int|
                #[trigger] crate::db::first_transaction_index(ts, transaction_id, ti) && ts2
                    == ts.remove(ti);
            assert forall|x: int, y: int|
                0 <= x < y < ts2.len() implies (#[trigger] ts2[x].id) != (#[trigger] ts2[y].id) by {
                let ox = if x < ti { x } else { x + 1 };
                let oy = if y < ti { y } else { y + 1 };
                assert(ts2[x] == ts[ox]);
                assert(ts2[y] == ts[oy]);
            }
        }
    }

    if crate::routes::transactions::holder_exists(pre, transaction_id) {
        let hi = choose|hi: int|
            #[trigger] crate::db::budgets::first_holder_index(bs, transaction_id, hi) && bs2
                == bs.update(hi, crate::routes::transactions::remove_tx_legs(bs[hi], transaction_id));
        let holder = bs[hi];
        let stripped = crate::routes::transactions::remove_tx_legs(holder, transaction_id);
        assert(budgets_unique_ids(bs2));
        assert(transfer_content_eq(holder.assignments, stripped.assignments)) by {
            assert forall|f: Id, l: Id| #[trigger] transfer_count(stripped.assignments, f, l)
                == transfer_count(holder.assignments, f, l) by {
                crate::db::lemma_strip_tx_legs_counts(
                    holder.assignments,
                    transaction_id,
                    f,
                    l,
                    0,
                    transaction_id,
                );
            }
            assert forall|f: Id, l: Id, m: int|
                #[trigger] transfer_amount_count(stripped.assignments, f, l, m)
                == transfer_amount_count(holder.assignments, f, l, m) by {
                crate::db::lemma_strip_tx_legs_counts(
                    holder.assignments,
                    transaction_id,
                    f,
                    l,
                    m,
                    transaction_id,
                );
            }
        }
        lemma_balanced_update(bs, hi, stripped);
        assert forall|tid: Id| #[trigger] tx_leg_count(bs2, tid) <= 1 by {
            crate::db::lemma_strip_tx_legs_counts(
                holder.assignments,
                transaction_id,
                tid,
                tid,
                0,
                tid,
            );
            lemma_tx_leg_count_update(bs, hi, stripped, tid);
        }
        assert forall|x: int, y: int|
            0 <= x < bs2.len() && 0 <= y < bs2[x].assignments.len() && (
            #[trigger] bs2[x].assignments[y]).source is Transaction implies tx_leg_resident(
            bs2,
            ts2,
            x,
            y,
        ) by {
            let leg_tid = bs2[x].assignments[y].source->from_transaction_id;
            let (ox, oy): (int, int) = if x == hi {
                crate::db::lemma_filter_elem_in_source(
                    holder.assignments,
                    |a: BudgetAssignment| !is_tx_leg(a, transaction_id),
                    y,
                );
                let oy = choose|oy: int|
                    0 <= oy < holder.assignments.len() && #[trigger] holder.assignments[oy]
                        == stripped.assignments[y];
                (hi, oy)
            } else {
                (x, y)
            };
            assert(bs[ox].assignments[oy] == bs2[x].assignments[y]);
            assert(tx_leg_resident(bs, ts, ox, oy));
            let tw = choose|tw: int|
                0 <= tw < ts.len() && (#[trigger] ts[tw]).id == leg_tid && ts[tw].budget_id
                    == bs[ox].id;
            assert(leg_tid != transaction_id) by {
                if leg_tid == transaction_id {
                    if x == hi {
                        crate::db::lemma_tx_count_zero(stripped.assignments, transaction_id);
                        crate::db::lemma_strip_tx_legs_counts(
                            holder.assignments,
                            transaction_id,
                            transaction_id,
                            transaction_id,
                            0,
                            transaction_id,
                        );
                        assert(false);
                    } else {
                        let hy = choose|hy: int|
                            0 <= hy < holder.assignments.len() && is_tx_leg(
                                #[trigger] holder.assignments[hy],
                                transaction_id,
                            );
                        crate::db::lemma_tx_count_at_least(bs[x].assignments, transaction_id, y);
                        crate::db::lemma_tx_count_at_least(holder.assignments, transaction_id, hy);
                        lemma_tx_leg_count_two(bs, transaction_id, x, hi);
                        assert(false);
                    }
                }
            }
            if crate::db::transactions::has_transaction_id(ts, transaction_id) {
                let ti = choose|ti: int|
                    #[trigger] crate::db::first_transaction_index(ts, transaction_id, ti) && ts2
                        == ts.remove(ti);
                assert(tw != ti);
                let nw = if tw < ti { tw } else { tw - 1 };
                assert(ts2[nw] == ts[tw]);
                assert(bs2[x].id == bs[ox].id);
            } else {
                assert(ts2 == ts);
            }
        }
        assert(single_leg(bs2, ts2));
        assert forall|k: int|
            0 <= k < bs.len() implies budget_owned_schedule(#[trigger] bs2[k])
            == budget_owned_schedule(bs[k]) by {}
        assert(budget_schedules_ok(bs2, post.schedules@));
        assert(user_schedules_ok(post.users_view(), bs2, post.schedules@));
    } else {
        assert(bs2 == bs);
        assert forall|x: int, y: int|
            0 <= x < bs2.len() && 0 <= y < bs2[x].assignments.len() && (
            #[trigger] bs2[x].assignments[y]).source is Transaction implies tx_leg_resident(
            bs2,
            ts2,
            x,
            y,
        ) by {
            assert(tx_leg_resident(bs, ts, x, y));
            let leg_tid = bs[x].assignments[y].source->from_transaction_id;
            let tw = choose|tw: int|
                0 <= tw < ts.len() && (#[trigger] ts[tw]).id == leg_tid && ts[tw].budget_id
                    == bs[x].id;
            assert(leg_tid != transaction_id) by {
                if leg_tid == transaction_id {
                    assert(crate::db::budgets::has_tx_leg(bs[x], transaction_id));
                    let w0 = first_holder_witness(bs, transaction_id, x);
                    assert(false);
                }
            }
            if crate::db::transactions::has_transaction_id(ts, transaction_id) {
                let ti = choose|ti: int|
                    #[trigger] crate::db::first_transaction_index(ts, transaction_id, ti) && ts2
                        == ts.remove(ti);
                assert(tw != ti);
                let nw = if tw < ti { tw } else { tw - 1 };
                assert(ts2[nw] == ts[tw]);
            } else {
                assert(ts2 == ts);
            }
        }
        assert(single_leg(bs2, ts2));
    }
}

/// Creating a budget preserves the invariants: the new aggregate has an
/// empty ledger under a fresh id, and a repeating target brings its own
/// fresh schedule row.
pub proof fn lemma_budget_create_preserves_wf(
    pre: Database,
    post: Database,
    request: crate::models::CreateBudgetRequest,
    budget_id: Id,
)
    requires
        pre.wf(),
        crate::routes::budgets::budget_created(pre, post, request, budget_id),
    ensures
        post.wf(),
{
    let bs = pre.budgets_view();
    let bs2 = post.budgets_view();
    let ss = pre.schedules@;
    let ss2 = post.schedules@;
    let nb = bs2.last();
    assert(bs2 == bs.push(nb));
    assert(nb.id == budget_id);
    assert(nb.assignments.len() == 0);
    assert(budgets_unique_ids(bs2));
    lemma_balanced_push(bs, nb);
    assert forall|tid: Id| #[trigger] tx_leg_count(bs2, tid) <= 1 by {
        lemma_tx_leg_count_push(bs, nb, tid);
    }
    assert forall|x: int, y: int|
        0 <= x < bs2.len() && 0 <= y < bs2[x].assignments.len() && (#[trigger] bs2[x].assignments[y]).source
            is Transaction implies tx_leg_resident(bs2, post.transactions@, x, y) by {
        assert(x < bs.len());
        assert(tx_leg_resident(bs, pre.transactions@, x, y));
        let tw = choose|tw: int|
            0 <= tw < pre.transactions@.len() && (#[trigger] pre.transactions@[tw]).id
                == bs[x].assignments[y].source->from_transaction_id && pre.transactions@[tw].budget_id
                == bs[x].id;
        assert(post.transactions@[tw] == pre.transactions@[tw]);
    }
    assert(single_leg(bs2, post.transactions@));

    match request.target {
        Some(crate::models::CreateBudgetTargetRequest::Repeating { .. }) => {
            let sid = choose|sid: Id|
                #[trigger] crate::routes::budgets::repeating_budget_created(
                    pre,
                    post,
                    request,
                    budget_id,
                    sid,
                );
            let sch = crate::models::Schedule {
                id: sid,
                period: request.target->0->Repeating_schedule.period,
            };
            assert(ss2 == ss.push(sch));
            assert(schedules_unique_ids(ss2)) by {
                assert forall|x: int, y: int|
                    0 <= x < y < ss2.len() implies (#[trigger] ss2[x].id) != (#[trigger] ss2[y].id) by {
                    if y == ss.len() {
                        assert(ss[x].id != sid);
                    }
                }
            }
            assert(budget_owned_schedule(nb) == Some(sch));
            assert forall|x: int|
                0 <= x < bs2.len() && budget_owned_schedule(#[trigger] bs2[x]) is Some implies {
                &&& schedule_listed(ss2, budget_owned_schedule(bs2[x])->0)
                &&& forall|y: int|
                    0 <= y < bs2.len() && y != x && budget_owned_schedule(#[trigger] bs2[y]) is Some
                        ==> budget_owned_schedule(bs2[y])->0.id != budget_owned_schedule(
                        bs2[x],
                    )->0.id
            } by {
                if x < bs.len() {
                    let sx = budget_owned_schedule(bs[x])->0;
                    assert(schedule_listed(ss, sx));
                    let k0 = choose|k0: int| 0 <= k0 < ss.len() && #[trigger] ss[k0] == sx;
                    assert(ss2[k0] == sx);
                    assert(schedule_listed(ss2, sx));
                } else {
                    assert(ss2[ss.len() as int] == sch);
                    assert(schedule_listed(ss2, sch));
                }
                assert forall|y: int|
                    0 <= y < bs2.len() && y != x && budget_owned_schedule(#[trigger] bs2[y])
                        is Some implies budget_owned_schedule(bs2[y])->0.id
                    != budget_owned_schedule(bs2[x])->0.id by {
                    if x < bs.len() && y < bs.len() {
                    } else {
                        let o = if x < bs.len() { x } else { y };
                        let so = budget_owned_schedule(bs[o])->0;
                        assert(schedule_listed(ss, so));
                        let k0 = choose|k0: int| 0 <= k0 < ss.len() && #[trigger] ss[k0] == so;
                        assert(crate::db::schedule::has_schedule_id(ss, so.id));
                        assert(so.id != sid);
                    }
                }
            }
            assert(budget_schedules_ok(bs2, ss2));
            assert forall|x: int|
                0 <= x < post.users_view().len() && (#[trigger] post.users_view()[x]).pay_frequency
                    is Some implies {
                &&& schedule_listed(ss2, post.users_view()[x].pay_frequency->0)
                &&& forall|y: int|
                    0 <= y < post.users_view().len() && y != x && (
                    #[trigger] post.users_view()[y]).pay_frequency is Some
                        ==> post.users_view()[y].pay_frequency->0.id
                        != post.users_view()[x].pay_frequency->0.id
                &&& forall|y: int|
                    0 <= y < bs2.len() && budget_owned_schedule(#[trigger] bs2[y]) is Some
                        ==> budget_owned_schedule(bs2[y])->0.id
                        != post.users_view()[x].pay_frequency->0.id
            } by {
                let us = pre.users_view();
                let sx = us[x].pay_frequency->0;
                assert(schedule_listed(ss, sx));
                let k0 = choose|k0: int| 0 <= k0 < ss.len() && #[trigger] ss[k0] == sx;
                assert(ss2[k0] == sx);
                assert(schedule_listed(ss2, sx));
                assert forall|y: int|
                    0 <= y < bs2.len() && budget_owned_schedule(#[trigger] bs2[y]) is Some implies
                    budget_owned_schedule(bs2[y])->0.id != sx.id by {
                    if y == bs.len() {
                        assert(crate::db::schedule::has_schedule_id(ss, sx.id));
                        assert(budget_owned_schedule(bs2[y])->0.id == sid);
                    }
                }
            }
            assert(user_schedules_ok(post.users_view(), bs2, ss2));
        },
        _ => {
            assert(ss2 == ss);
            assert(budget_owned_schedule(nb) is None);
            assert(budget_schedules_ok(bs2, ss2)) by {
                assert forall|x: int|
                    0 <= x < bs2.len() && budget_owned_schedule(#[trigger] bs2[x]) is Some implies {
                    &&& schedule_listed(ss2, budget_owned_schedule(bs2[x])->0)
                    &&& forall|y: int|
                        0 <= y < bs2.len() && y != x && budget_owned_schedule(#[trigger] bs2[y])
                            is Some ==> budget_owned_schedule(bs2[y])->0.id
                            != budget_owned_schedule(bs2[x])->0.id
                } by {
                    assert(x < bs.len());
                    assert(bs2[x] == bs[x]);
                }
            }
            assert(user_schedules_ok(post.users_view(), bs2, ss2));
        },
    }
}

/// A listed schedule whose id survives a row rewrite elsewhere stays
/// listed.
pub proof fn lemma_listed_after_update(ss: Seq<crate::models::Schedule>, j: int, x: crate::models::Schedule, sc: crate::models::Schedule)
    requires
        schedule_listed(ss, sc),
        0 <= j < ss.len(),
        sc.id != ss[j].id,
    ensures
        schedule_listed(ss.update(j, x), sc),
{
    let k0 = choose|k0: int| 0 <= k0 < ss.len() && #[trigger] ss[k0] == sc;
    assert(ss.update(j, x)[k0] == sc);
}

/// A listed schedule whose id survives a row removal elsewhere stays
/// listed.
pub proof fn lemma_listed_after_remove(ss: Seq<crate::models::Schedule>, j: int, sc: crate::models::Schedule)
    requires
        schedule_listed(ss, sc),
        0 <= j < ss.len(),
        sc.id != ss[j].id,
    ensures
        schedule_listed(ss.remove(j), sc),
{
    let k0 = choose|k0: int| 0 <= k0 < ss.len() && #[trigger] ss[k0] == sc;
    let nk = if k0 < j { k0 } else { k0 - 1 };
    assert(ss.remove(j)[nk] == sc);
}

/// Updating a budget preserves the invariants: the ledger is untouched and
/// the schedules table moves exactly as the transition table directs.
pub proof fn lemma_budget_update_preserves_wf(
    pre: Database,
    post: Database,
    budget_id: Id,
    request: crate::models::UpdateBudgetRequest,
    i: int,
    sid: Id,
)
    requires
        pre.wf(),
        crate::routes::budgets::budget_updated(pre, post, budget_id, request, i, sid),
    ensures
        post.wf(),
{
    let bs = pre.budgets_view();
    let bs2 = post.budgets_view();
    let ss = pre.schedules@;
    let ss2 = post.schedules@;
    let us = pre.users_view();
    let b0 = bs[i];
    let nb = bs2[i];
    assert(bs2 == bs.update(i, nb));
    assert(nb.id == b0.id);
    assert(nb.assignments == b0.assignments);
    assert(budgets_unique_ids(bs2));
    assert(transfer_content_eq(b0.assignments, nb.assignments));
    lemma_balanced_update(bs, i, nb);
    assert forall|tid: Id| #[trigger] tx_leg_count(bs2, tid) <= 1 by {
        lemma_tx_leg_count_update(bs, i, nb, tid);
    }
    assert forall|x: int, y: int|
        0 <= x < bs2.len() && 0 <= y < bs2[x].assignments.len() && (#[trigger] bs2[x].assignments[y]).source
            is Transaction implies tx_leg_resident(bs2, post.transactions@, x, y) by {
        assert(bs2[x].assignments[y] == bs[x].assignments[y]);
        assert(tx_leg_resident(bs, pre.transactions@, x, y));
        let tw = choose|tw: int|
            0 <= tw < pre.transactions@.len() && (#[trigger] pre.transactions@[tw]).id
                == bs[x].assignments[y].source->from_transaction_id && pre.transactions@[tw].budget_id
                == bs[x].id;
        assert(post.transactions@[tw] == pre.transactions@[tw]);
        assert(bs2[x].id == bs[x].id);
    }
    assert(single_leg(bs2, post.transactions@));

    // Schedule bookkeeping per transition case.
    match crate::routes::budgets::schedule_transition(b0.target, request.target) {
        crate::routes::budgets::ScheduleAction::NoAction => {
            assert(ss2 == ss);
            assert(budget_owned_schedule(nb) is None);
            assert forall|x: int|
                0 <= x < bs2.len() && x != i implies #[trigger] bs2[x] == bs[x] by {}
            assert(budget_schedules_ok(bs2, ss2));
            assert(user_schedules_ok(post.users_view(), bs2, ss2));
        },
        crate::routes::budgets::ScheduleAction::CreateNew => {
            let sch = crate::models::Schedule {
                id: sid,
                period: crate::routes::budgets::requested_period(request.target),
            };
            assert(ss2 == ss.push(sch));
            assert(budget_owned_schedule(b0) is None);
            assert(budget_owned_schedule(nb) == Some(sch));
            assert(schedules_unique_ids(ss2)) by {
                assert forall|x: int, y: int|
                    0 <= x < y < ss2.len() implies (#[trigger] ss2[x].id) != (#[trigger] ss2[y].id) by {
                    if y == ss.len() {
                        assert(ss[x].id != sid);
                    }
                }
            }
            assert forall|x: int|
                0 <= x < bs2.len() && budget_owned_schedule(#[trigger] bs2[x]) is Some implies {
                &&& schedule_listed(ss2, budget_owned_schedule(bs2[x])->0)
                &&& forall|y: int|
                    0 <= y < bs2.len() && y != x && budget_owned_schedule(#[trigger] bs2[y]) is Some
                        ==> budget_owned_schedule(bs2[y])->0.id != budget_owned_schedule(
                        bs2[x],
                    )->0.id
            } by {
                if x != i {
                    let sx = budget_owned_schedule(bs[x])->0;
                    assert(schedule_listed(ss, sx));
                    let k0 = choose|k0: int| 0 <= k0 < ss.len() && #[trigger] ss[k0] == sx;
                    assert(ss2[k0] == sx);
                } else {
                    assert(ss2[ss.len() as int] == sch);
                }
                assert forall|y: int|
                    0 <= y < bs2.len() && y != x && budget_owned_schedule(#[trigger] bs2[y])
                        is Some implies budget_owned_schedule(bs2[y])->0.id
                    != budget_owned_schedule(bs2[x])->0.id by {
                    if x == i || y == i {
                        let o = if x == i { y } else { x };
                        let so = budget_owned_schedule(bs[o])->0;
                        assert(schedule_listed(ss, so));
                        let k0 = choose|k0: int| 0 <= k0 < ss.len() && #[trigger] ss[k0] == so;
                        assert(crate::db::schedule::has_schedule_id(ss, so.id));
                        assert(so.id != sid);
                    }
                }
            }
            assert(budget_schedules_ok(bs2, ss2));
            assert forall|x: int|
                0 <= x < us.len() && (#[trigger] us[x]).pay_frequency is Some implies {
                &&& schedule_listed(ss2, us[x].pay_frequency->0)
                &&& forall|y: int|
                    0 <= y < us.len() && y != x && (#[trigger] us[y]).pay_frequency is Some
                        ==> us[y].pay_frequency->0.id != us[x].pay_frequency->0.id
                &&& forall|y: int|
                    0 <= y < bs2.len() && budget_owned_schedule(#[trigger] bs2[y]) is Some
                        ==> budget_owned_schedule(bs2[y])->0.id != us[x].pay_frequency->0.id
            } by {
                let sx = us[x].pay_frequency->0;
                let k0 = choose|k0: int| 0 <= k0 < ss.len() && #[trigger] ss[k0] == sx;
                assert(ss2[k0] == sx);
                assert forall|y: int|
                    0 <= y < bs2.len() && budget_owned_schedule(#[trigger] bs2[y]) is Some implies
                    budget_owned_schedule(bs2[y])->0.id != sx.id by {
                    if y == i {
                        assert(crate::db::schedule::has_schedule_id(ss, sx.id));
                    }
                }
            }
            assert(user_schedules_ok(post.users_view(), bs2, ss2));
        },
        crate::routes::budgets::ScheduleAction::UpdateInPlace { schedule_id } => {
            let s0 = budget_owned_schedule(b0)->0;
            assert(s0.id == schedule_id);
            assert(schedule_listed(ss, s0));
            let k0 = choose|k0: int| 0 <= k0 < ss.len() && #[trigger] ss[k0] == s0;
            assert(crate::db::schedule::has_schedule_id(ss, schedule_id));
            let j = choose|j: int|
                #[trigger] crate::db::first_schedule_index(ss, schedule_id, j) && ss2 == ss.update(
                    j,
                    crate::models::Schedule {
                        id: schedule_id,
                        period: crate::routes::budgets::requested_period(request.target),
                    },
                );
            let sch = crate::models::Schedule {
                id: schedule_id,
                period: crate::routes::budgets::requested_period(request.target),
            };
            assert(budget_owned_schedule(nb) == Some(sch));
            assert(schedules_unique_ids(ss2)) by {
                assert forall|x: int, y: int|
                    0 <= x < y < ss2.len() implies (#[trigger] ss2[x].id) != (#[trigger] ss2[y].id) by {
                    assert(ss2[x].id == ss[x].id);
                    assert(ss2[y].id == ss[y].id);
                }
            }
            assert forall|x: int|
                0 <= x < bs2.len() && budget_owned_schedule(#[trigger] bs2[x]) is Some implies {
                &&& schedule_listed(ss2, budget_owned_schedule(bs2[x])->0)
                &&& forall|y: int|
                    0 <= y < bs2.len() && y != x && budget_owned_schedule(#[trigger] bs2[y]) is Some
                        ==> budget_owned_schedule(bs2[y])->0.id != budget_owned_schedule(
                        bs2[x],
                    )->0.id
            } by {
                if x != i {
                    let sx = budget_owned_schedule(bs[x])->0;
                    assert(sx.id != s0.id);
                    assert(ss[j].id == schedule_id);
                    lemma_listed_after_update(ss, j, sch, sx);
                } else {
                    assert(ss2[j] == sch);
                }
            }
            assert(budget_schedules_ok(bs2, ss2));
            assert forall|x: int|
                0 <= x < us.len() && (#[trigger] us[x]).pay_frequency is Some implies {
                &&& schedule_listed(ss2, us[x].pay_frequency->0)
                &&& forall|y: int|
                    0 <= y < us.len() && y != x && (#[trigger] us[y]).pay_frequency is Some
                        ==> us[y].pay_frequency->0.id != us[x].pay_frequency->0.id
                &&& forall|y: int|
                    0 <= y < bs2.len() && budget_owned_schedule(#[trigger] bs2[y]) is Some
                        ==> budget_owned_schedule(bs2[y])->0.id != us[x].pay_frequency->0.id
            } by {
                let sx = us[x].pay_frequency->0;
                assert(sx.id != s0.id);
                assert(ss[j].id == schedule_id);
                lemma_listed_after_update(ss, j, sch, sx);
            }
            assert(user_schedules_ok(post.users_view(), bs2, ss2));
        },
        crate::routes::budgets::ScheduleAction::DeleteExisting { schedule_id } => {
            let s0 = budget_owned_schedule(b0)->0;
            assert(s0.id == schedule_id);
            assert(schedule_listed(ss, s0));
            let k0 = choose|k0: int| 0 <= k0 < ss.len() && #[trigger] ss[k0] == s0;
            assert(crate::db::schedule::has_schedule_id(ss, schedule_id));
            let j = choose|j: int|
                #[trigger] crate::db::first_schedule_index(ss, schedule_id, j) && ss2 == ss.remove(
                    j,
                );
            assert(budget_owned_schedule(nb) is None);
            assert(schedules_unique_ids(ss2)) by {
                assert forall|x: int, y: int|
                    0 <= x < y < ss2.len() implies (#[trigger] ss2[x].id) != (#[trigger] ss2[y].id) by {
                    let ox = if x < j { x } else { x + 1 };
                    let oy = if y < j { y } else { y + 1 };
                    assert(ss2[x] == ss[ox]);
                    assert(ss2[y] == ss[oy]);
                }
            }
            assert forall|x: int|
                0 <= x < bs2.len() && budget_owned_schedule(#[trigger] bs2[x]) is Some implies {
                &&& schedule_listed(ss2, budget_owned_schedule(bs2[x])->0)
                &&& forall|y: int|
                    0 <= y < bs2.len() && y != x && budget_owned_schedule(#[trigger] bs2[y]) is Some
                        ==> budget_owned_schedule(bs2[y])->0.id != budget_owned_schedule(
                        bs2[x],
                    )->0.id
            } by {
                assert(x != i);
                let sx = budget_owned_schedule(bs[x])->0;
                assert(sx.id != s0.id);
                assert(ss[j].id == schedule_id);
                lemma_listed_after_remove(ss, j, sx);
            }
            assert(budget_schedules_ok(bs2, ss2));
            assert forall|x: int|
                0 <= x < us.len() && (#[trigger] us[x]).pay_frequency is Some implies {
                &&& schedule_listed(ss2, us[x].pay_frequency->0)
                &&& forall|y: int|
                    0 <= y < us.len() && y != x && (#[trigger] us[y]).pay_frequency is Some
                        ==> us[y].pay_frequency->0.id != us[x].pay_frequency->0.id
                &&& forall|y: int|
                    0 <= y < bs2.len() && budget_owned_schedule(#[trigger] bs2[y]) is Some
                        ==> budget_owned_schedule(bs2[y])->0.id != us[x].pay_frequency->0.id
            } by {
                let sx = us[x].pay_frequency->0;
                assert(sx.id != s0.id);
                assert(ss[j].id == schedule_id);
                lemma_listed_after_remove(ss, j, sx);
            }
            assert(user_schedules_ok(post.users_view(), bs2, ss2));
        },
    }
}

/// No transfer leg anywhere involves the budget at row `i`: it holds none
/// itself, and no other budget's leg names its id as the source.
pub open spec fn no_transfer_links_touching(bs: Seq<BudgetView>, i: int) -> bool {
    &&& forall|y: int|
        0 <= y < bs[i].assignments.len() ==> !((#[trigger] bs[i].assignments[y]).source
            is OtherBudget)
    &&& forall|x: int, y: int|
        #![trigger bs[x].assignments[y]]
        0 <= x < bs.len() && 0 <= y < bs[x].assignments.len() && bs[x].assignments[y].source
            is OtherBudget ==> bs[x].assignments[y].source->from_budget_id != bs[i].id
}

/// Deleting a budget preserves the invariants, provided no transfer pair
/// touches it; a deleted budget that still shares a pair would leave its
/// mirror leg without a partner.
pub proof fn lemma_budget_delete_preserves_wf(pre: Database, post: Database, budget_id: Id, i: int)
    requires
        pre.wf(),
        crate::routes::budgets::budget_deleted(pre, post, budget_id, i),
        no_transfer_links_touching(pre.budgets_view(), i),
    ensures
        post.wf(),
{
    let bs = pre.budgets_view();
    let bs2 = post.budgets_view();
    let ss = pre.schedules@;
    let ss2 = post.schedules@;
    let us = pre.users_view();
    assert(bs2 == bs.remove(i));
    assert(budgets_unique_ids(bs2)) by {
        assert forall|x: int, y: int|
            0 <= x < y < bs2.len() implies (#[trigger] bs2[x].id) != (#[trigger] bs2[y].id) by {
            let ox = if x < i { x } else { x + 1 };
            let oy = if y < i { y } else { y + 1 };
            assert(bs2[x] == bs[ox]);
            assert(bs2[y] == bs[oy]);
        }
    }

    // Balance: remaining legs keep their mirrors, which cannot sit in the
    // removed budget.
    assert forall|x: int, y: int|
        0 <= x < bs2.len() && 0 <= y < bs2[x].assignments.len() && (#[trigger] bs2[x].assignments[y]).source
            is OtherBudget implies transfer_leg_matched(bs2, x, y) by {
        let ox = if x < i { x } else { x + 1 };
        assert(bs2[x] == bs[ox]);
        assert(transfer_leg_matched(bs, ox, y));
        let a = bs[ox].assignments[y];
        let f = a.source->from_budget_id;
        let l = a.source->link_id;
        assert(f != bs[i].id);
        let w = choose|w: int| 0 <= w < bs.len() && (#[trigger] bs[w]).id == f;
        assert(w != i);
        let nw = if w < i { w } else { w - 1 };
        assert(bs2[nw] == bs[w]);
        assert(has_budget_id(bs2, f));
        assert forall|k2: int|
            0 <= k2 < bs2.len() && (#[trigger] bs2[k2]).id == f implies mirror_count(
            bs2[k2],
            bs2[x].id,
            l,
        ) == 1 && mirror_amount_count(bs2[k2], bs2[x].id, l, -a.amount.minor) == 1 by {
            let ok2 = if k2 < i { k2 } else { k2 + 1 };
            assert(bs2[k2] == bs[ok2]);
            assert(bs2[x].id == bs[ox].id);
        }
    }
    assert(balanced(bs2));

    // Single-leg: removing a budget only removes legs.
    assert forall|tid: Id| #[trigger] tx_leg_count(bs2, tid) <= 1 by {
        lemma_tx_leg_count_remove(bs, i, tid);
    }
    assert forall|x: int, y: int|
        0 <= x < bs2.len() && 0 <= y < bs2[x].assignments.len() && (#[trigger] bs2[x].assignments[y]).source
            is Transaction implies tx_leg_resident(bs2, post.transactions@, x, y) by {
        let ox = if x < i { x } else { x + 1 };
        assert(bs2[x] == bs[ox]);
        assert(tx_leg_resident(bs, pre.transactions@, ox, y));
        let tw = choose|tw: int|
            0 <= tw < pre.transactions@.len() && (#[trigger] pre.transactions@[tw]).id
                == bs[ox].assignments[y].source->from_transaction_id && pre.transactions@[tw].budget_id
                == bs[ox].id;
        assert(post.transactions@[tw] == pre.transactions@[tw]);
    }
    assert(single_leg(bs2, post.transactions@));

    // Schedules: the owned row leaves with the budget.
    match budget_owned_schedule(bs[i]) {
        Some(s0) => {
            assert(schedule_listed(ss, s0));
            let k0 = choose|k0: int| 0 <= k0 < ss.len() && #[trigger] ss[k0] == s0;
            assert(crate::db::schedule::has_schedule_id(ss, s0.id));
            let j = choose|j: int|
                #[trigger] crate::db::first_schedule_index(ss, s0.id, j) && ss2 == ss.remove(j);
            assert(schedules_unique_ids(ss2)) by {
                assert forall|x: int, y: int|
                    0 <= x < y < ss2.len() implies (#[trigger] ss2[x].id) != (#[trigger] ss2[y].id) by {
                    let ox = if x < j { x } else { x + 1 };
                    let oy = if y < j { y } else { y + 1 };
                    assert(ss2[x] == ss[ox]);
                    assert(ss2[y] == ss[oy]);
                }
            }
            assert forall|x: int|
                0 <= x < bs2.len() && budget_owned_schedule(#[trigger] bs2[x]) is Some implies {
                &&& schedule_listed(ss2, budget_owned_schedule(bs2[x])->0)
                &&& forall|y: int|
                    0 <= y < bs2.len() && y != x && budget_owned_schedule(#[trigger] bs2[y]) is Some
                        ==> budget_owned_schedule(bs2[y])->0.id != budget_owned_schedule(
                        bs2[x],
                    )->0.id
            } by {
                let ox = if x < i { x } else { x + 1 };
                assert(bs2[x] == bs[ox]);
                let sx = budget_owned_schedule(bs[ox])->0;
                assert(sx.id != s0.id);
                assert(ss[j].id == s0.id);
                lemma_listed_after_remove(ss, j, sx);
                assert forall|y: int|
                    0 <= y < bs2.len() && y != x && budget_owned_schedule(#[trigger] bs2[y])
                        is Some implies budget_owned_schedule(bs2[y])->0.id != sx.id by {
                    let oy = if y < i { y } else { y + 1 };
                    assert(bs2[y] == bs[oy]);
                }
            }
            assert(budget_schedules_ok(bs2, ss2));
            assert forall|x: int|
                0 <= x < us.len() && (#[trigger] us[x]).pay_frequency is Some implies {
                &&& schedule_listed(ss2, us[x].pay_frequency->0)
                &&& forall|y: int|
                    0 <= y < us.len() && y != x && (#[trigger] us[y]).pay_frequency is Some
                        ==> us[y].pay_frequency->0.id != us[x].pay_frequency->0.id
                &&& forall|y: int|
                    0 <= y < bs2.len() && budget_owned_schedule(#[trigger] bs2[y]) is Some
                        ==> budget_owned_schedule(bs2[y])->0.id != us[x].pay_frequency->0.id
            } by {
                let sx = us[x].pay_frequency->0;
                assert(sx.id != s0.id);
                assert(ss[j].id == s0.id);
                lemma_listed_after_remove(ss, j, sx);
                assert forall|y: int|
                    0 <= y < bs2.len() && budget_owned_schedule(#[trigger] bs2[y]) is Some implies
                    budget_owned_schedule(bs2[y])->0.id != sx.id by {
                    let oy = if y < i { y } else { y + 1 };
                    assert(bs2[y] == bs[oy]);
                }
            }
            assert(user_schedules_ok(post.users_view(), bs2, ss2));
        },
        _ => {
            assert(ss2 == ss);
            assert forall|x: int|
                0 <= x < bs2.len() && budget_owned_schedule(#[trigger] bs2[x]) is Some implies {
                &&& schedule_listed(ss2, budget_owned_schedule(bs2[x])->0)
                &&& forall|y: int|
                    0 <= y < bs2.len() && y != x && budget_owned_schedule(#[trigger] bs2[y]) is Some
                        ==> budget_owned_schedule(bs2[y])->0.id != budget_owned_schedule(
                        bs2[x],
                    )->0.id
            } by {
                let ox = if x < i { x } else { x + 1 };
                assert(bs2[x] == bs[ox]);
                assert forall|y: int|
                    0 <= y < bs2.len() && y != x && budget_owned_schedule(#[trigger] bs2[y])
                        is Some implies budget_owned_schedule(bs2[y])->0.id
                    != budget_owned_schedule(bs2[x])->0.id by {
                    let oy = if y < i { y } else { y + 1 };
                    assert(bs2[y] == bs[oy]);
                }
            }
            assert(budget_schedules_ok(bs2, ss2));
            assert forall|x: int|
                0 <= x < us.len() && (#[trigger] us[x]).pay_frequency is Some implies {
                &&& schedule_listed(ss2, us[x].pay_frequency->0)
                &&& forall|y: int|
                    0 <= y < us.len() && y != x && (#[trigger] us[y]).pay_frequency is Some
                        ==> us[y].pay_frequency->0.id != us[x].pay_frequency->0.id
                &&& forall|y: int|
                    0 <= y < bs2.len() && budget_owned_schedule(#[trigger] bs2[y]) is Some
                        ==> budget_owned_schedule(bs2[y])->0.id != us[x].pay_frequency->0.id
            } by {
                assert forall|y: int|
                    0 <= y < bs2.len() && budget_owned_schedule(#[trigger] bs2[y]) is Some implies
                    budget_owned_schedule(bs2[y])->0.id != us[x].pay_frequency->0.id by {
                    let oy = if y < i { y } else { y + 1 };
                    assert(bs2[y] == bs[oy]);
                }
            }
            assert(user_schedules_ok(post.users_view(), bs2, ss2));
        },
    }
}

/// Creating a user preserves the invariants: the new user has no pay
/// frequency, so no schedule bookkeeping moves.
pub proof fn lemma_user_create_preserves_wf(pre: Database, post: Database, u: crate::models::UserView)
    requires
        pre.wf(),
        post.users_view() == pre.users_view().push(u),
        u.pay_frequency is None,
        post.budgets_view() == pre.budgets_view(),
        post.schedules@ == pre.schedules@,
        post.transactions@ == pre.transactions@,
    ensures
        post.wf(),
{
    let us2 = post.users_view();
    let us = pre.users_view();
    assert forall|x: int|
        0 <= x < us2.len() && (#[trigger] us2[x]).pay_frequency is Some implies {
        &&& schedule_listed(post.schedules@, us2[x].pay_frequency->0)
        &&& forall|y: int|
            0 <= y < us2.len() && y != x && (#[trigger] us2[y]).pay_frequency is Some
                ==> us2[y].pay_frequency->0.id != us2[x].pay_frequency->0.id
        &&& forall|y: int|
            0 <= y < post.budgets_view().len() && budget_owned_schedule(
                #[trigger] post.budgets_view()[y],
            ) is Some ==> budget_owned_schedule(post.budgets_view()[y])->0.id
                != us2[x].pay_frequency->0.id
    } by {
        assert(x < us.len());
        assert(us2[x] == us[x]);
        assert forall|y: int|
            0 <= y < us2.len() && y != x && (#[trigger] us2[y]).pay_frequency is Some implies
            us2[y].pay_frequency->0.id != us2[x].pay_frequency->0.id by {
            assert(y < us.len());
        }
    }
    assert(user_schedules_ok(us2, post.budgets_view(), post.schedules@));
}

/// Updating a user preserves the invariants: the ledger tables are
/// untouched and the schedules table moves exactly as the pay-frequency
/// transition table directs.
pub proof fn lemma_user_update_preserves_wf(
    pre: Database,
    post: Database,
    user_id: Id,
    request: crate::models::UpdateUserRequest,
    i: int,
    sid: Id,
)
    requires
        pre.wf(),
        crate::routes::users::user_updated(pre, post, user_id, request, i, sid),
    ensures
        post.wf(),
{
    let us = pre.users_view();
    let us2 = post.users_view();
    let bs = pre.budgets_view();
    let ss = pre.schedules@;
    let ss2 = post.schedules@;
    let u0 = us[i];
    let nu = us2[i];
    assert(us2 == us.update(i, nu));
    assert(post.budgets_view() == bs);

    match crate::routes::users::pay_schedule_transition(u0.pay_frequency, request.pay_frequency) {
        crate::routes::budgets::ScheduleAction::NoAction => {
            assert(ss2 == ss);
            assert(nu.pay_frequency is None);
            assert forall|x: int|
                0 <= x < us2.len() && (#[trigger] us2[x]).pay_frequency is Some implies {
                &&& schedule_listed(ss2, us2[x].pay_frequency->0)
                &&& forall|y: int|
                    0 <= y < us2.len() && y != x && (#[trigger] us2[y]).pay_frequency is Some
                        ==> us2[y].pay_frequency->0.id != us2[x].pay_frequency->0.id
                &&& forall|y: int|
                    0 <= y < bs.len() && budget_owned_schedule(#[trigger] bs[y]) is Some
                        ==> budget_owned_schedule(bs[y])->0.id != us2[x].pay_frequency->0.id
            } by {
                assert(x != i);
                assert(us2[x] == us[x]);
                assert forall|y: int|
                    0 <= y < us2.len() && y != x && (#[trigger] us2[y]).pay_frequency
                        is Some implies us2[y].pay_frequency->0.id != us2[x].pay_frequency->0.id by {
                    if y != i {
                        assert(us2[y] == us[y]);
                    }
                }
            }
            assert(user_schedules_ok(us2, bs, ss2));
            assert(budget_schedules_ok(bs, ss2));
        },
        crate::routes::budgets::ScheduleAction::CreateNew => {
            let sch = crate::models::Schedule { id: sid, period: request.pay_frequency->0.period };
            assert(ss2 == ss.push(sch));
            assert(u0.pay_frequency is None);
            assert(nu.pay_frequency == Some(sch));
            assert(schedules_unique_ids(ss2)) by {
                assert forall|x: int, y: int|
                    0 <= x < y < ss2.len() implies (#[trigger] ss2[x].id) != (#[trigger] ss2[y].id) by {
                    if y == ss.len() {
                        assert(ss[x].id != sid);
                    }
                }
            }
            assert forall|x: int|
                0 <= x < bs.len() && budget_owned_schedule(#[trigger] bs[x]) is Some implies {
                &&& schedule_listed(ss2, budget_owned_schedule(bs[x])->0)
                &&& forall|y: int|
                    0 <= y < bs.len() && y != x && budget_owned_schedule(#[trigger] bs[y]) is Some
                        ==> budget_owned_schedule(bs[y])->0.id != budget_owned_schedule(bs[x])->0.id
            } by {
                let sx = budget_owned_schedule(bs[x])->0;
                let k0 = choose|k0: int| 0 <= k0 < ss.len() && #[trigger] ss[k0] == sx;
                assert(ss2[k0] == sx);
            }
            assert(budget_schedules_ok(bs, ss2));
            assert forall|x: int|
                0 <= x < us2.len() && (#[trigger] us2[x]).pay_frequency is Some implies {
                &&& schedule_listed(ss2, us2[x].pay_frequency->0)
                &&& forall|y: int|
                    0 <= y < us2.len() && y != x && (#[trigger] us2[y]).pay_frequency is Some
                        ==> us2[y].pay_frequency->0.id != us2[x].pay_frequency->0.id
                &&& forall|y: int|
                    0 <= y < bs.len() && budget_owned_schedule(#[trigger] bs[y]) is Some
                        ==> budget_owned_schedule(bs[y])->0.id != us2[x].pay_frequency->0.id
            } by {
                if x != i {
                    assert(us2[x] == us[x]);
                    let sx = us[x].pay_frequency->0;
                    let k0 = choose|k0: int| 0 <= k0 < ss.len() && #[trigger] ss[k0] == sx;
                    assert(ss2[k0] == sx);
                } else {
                    assert(ss2[ss.len() as int] == sch);
                }
                assert forall|y: int|
                    0 <= y < us2.len() && y != x && (#[trigger] us2[y]).pay_frequency
                        is Some implies us2[y].pay_frequency->0.id != us2[x].pay_frequency->0.id by {
                    if x == i || y == i {
                        let o = if x == i { y } else { x };
                        assert(us2[o] == us[o]);
                        let so = us[o].pay_frequency->0;
                        let k0 = choose|k0: int| 0 <= k0 < ss.len() && #[trigger] ss[k0] == so;
                        assert(crate::db::schedule::has_schedule_id(ss, so.id));
                        assert(so.id != sid);
                    }
                }
                assert forall|y: int|
                    0 <= y < bs.len() && budget_owned_schedule(#[trigger] bs[y]) is Some implies
                    budget_owned_schedule(bs[y])->0.id != us2[x].pay_frequency->0.id by {
                    if x == i {
                        let so = budget_owned_schedule(bs[y])->0;
                        let k0 = choose|k0: int| 0 <= k0 < ss.len() && #[trigger] ss[k0] == so;
                        assert(crate::db::schedule::has_schedule_id(ss, so.id));
                        assert(so.id != sid);
                    }
                }
            }
            assert(user_schedules_ok(us2, bs, ss2));
        },
        crate::routes::budgets::ScheduleAction::UpdateInPlace { schedule_id } => {
            let s0 = u0.pay_frequency->0;
            assert(s0.id == schedule_id);
            assert(schedule_listed(ss, s0));
            let k0 = choose|k0: int| 0 <= k0 < ss.len() && #[trigger] ss[k0] == s0;
            assert(crate::db::schedule::has_schedule_id(ss, schedule_id));
            let sch = crate::models::Schedule {
                id: schedule_id,
                period: request.pay_frequency->0.period,
            };
            let j = choose|j: int|
                #[trigger] crate::db::first_schedule_index(ss, schedule_id, j) && ss2 == ss.update(
                    j,
                    sch,
                );
            assert(nu.pay_frequency == Some(sch));
            assert(schedules_unique_ids(ss2)) by {
                assert forall|x: int, y: int|
                    0 <= x < y < ss2.len() implies (#[trigger] ss2[x].id) != (#[trigger] ss2[y].id) by {
                    assert(ss2[x].id == ss[x].id);
                    assert(ss2[y].id == ss[y].id);
                }
            }
            assert forall|x: int|
                0 <= x < bs.len() && budget_owned_schedule(#[trigger] bs[x]) is Some implies {
                &&& schedule_listed(ss2, budget_owned_schedule(bs[x])->0)
                &&& forall|y: int|
                    0 <= y < bs.len() && y != x && budget_owned_schedule(#[trigger] bs[y]) is Some
                        ==> budget_owned_schedule(bs[y])->0.id != budget_owned_schedule(bs[x])->0.id
            } by {
                let sx = budget_owned_schedule(bs[x])->0;
                assert(sx.id != s0.id);
                assert(ss[j].id == schedule_id);
                lemma_listed_after_update(ss, j, sch, sx);
            }
            assert(budget_schedules_ok(bs, ss2));
            assert forall|x: int|
                0 <= x < us2.len() && (#[trigger] us2[x]).pay_frequency is Some implies {
                &&& schedule_listed(ss2, us2[x].pay_frequency->0)
                &&& forall|y: int|
                    0 <= y < us2.len() && y != x && (#[trigger] us2[y]).pay_frequency is Some
                        ==> us2[y].pay_frequency->0.id != us2[x].pay_frequency->0.id
                &&& forall|y: int|
                    0 <= y < bs.len() && budget_owned_schedule(#[trigger] bs[y]) is Some
                        ==> budget_owned_schedule(bs[y])->0.id != us2[x].pay_frequency->0.id
            } by {
                if x != i {
                    assert(us2[x] == us[x]);
                    let sx = us[x].pay_frequency->0;
                    assert(sx.id != s0.id);
                    assert(ss[j].id == schedule_id);
                    lemma_listed_after_update(ss, j, sch, sx);
                } else {
                    assert(ss2[j] == sch);
                }
                assert forall|y: int|
                    0 <= y < us2.len() && y != x && (#[trigger] us2[y]).pay_frequency
                        is Some implies us2[y].pay_frequency->0.id != us2[x].pay_frequency->0.id by {
                    if y != i {
                        assert(us2[y] == us[y]);
                    }
                    if x != i {
                        assert(us2[x] == us[x]);
                    }
                }
            }
            assert(user_schedules_ok(us2, bs, ss2));
        },
        crate::routes::budgets::ScheduleAction::DeleteExisting { schedule_id } => {
            let s0 = u0.pay_frequency->0;
            assert(s0.id == schedule_id);
            assert(schedule_listed(ss, s0));
            let k0 = choose|k0: int| 0 <= k0 < ss.len() && #[trigger] ss[k0] == s0;
            assert(crate::db::schedule::has_schedule_id(ss, schedule_id));
            let j = choose|j: int|
                #[trigger] crate::db::first_schedule_index(ss, schedule_id, j) && ss2 == ss.remove(
                    j,
                );
            assert(nu.pay_frequency is None);
            assert(schedules_unique_ids(ss2)) by {
                assert forall|x: int, y: int|
                    0 <= x < y < ss2.len() implies (#[trigger] ss2[x].id) != (#[trigger] ss2[y].id) by {
                    let ox = if x < j { x } else { x + 1 };
                    let oy = if y < j { y } else { y + 1 };
                    assert(ss2[x] == ss[ox]);
                    assert(ss2[y] == ss[oy]);
                }
            }
            assert forall|x: int|
                0 <= x < bs.len() && budget_owned_schedule(#[trigger] bs[x]) is Some implies {
                &&& schedule_listed(ss2, budget_owned_schedule(bs[x])->0)
                &&& forall|y: int|
                    0 <= y < bs.len() && y != x && budget_owned_schedule(#[trigger] bs[y]) is Some
                        ==> budget_owned_schedule(bs[y])->0.id != budget_owned_schedule(bs[x])->0.id
            } by {
                let sx = budget_owned_schedule(bs[x])->0;
                assert(sx.id != s0.id);
                assert(ss[j].id == schedule_id);
                lemma_listed_after_remove(ss, j, sx);
            }
            assert(budget_schedules_ok(bs, ss2));
            assert forall|x: int|
                0 <= x < us2.len() && (#[trigger] us2[x]).pay_frequency is Some implies {
                &&& schedule_listed(ss2, us2[x].pay_frequency->0)
                &&& forall|y: int|
                    0 <= y < us2.len() && y != x && (#[trigger] us2[y]).pay_frequency is Some
                        ==> us2[y].pay_frequency->0.id != us2[x].pay_frequency->0.id
                &&& forall|y: int|
                    0 <= y < bs.len() && budget_owned_schedule(#[trigger] bs[y]) is Some
                        ==> budget_owned_schedule(bs[y])->0.id != us2[x].pay_frequency->0.id
            } by {
                assert(x != i);
                assert(us2[x] == us[x]);
                let sx = us[x].pay_frequency->0;
                assert(sx.id != s0.id);
                assert(ss[j].id == schedule_id);
                lemma_listed_after_remove(ss, j, sx);
                assert forall|y: int|
                    0 <= y < us2.len() && y != x && (#[trigger] us2[y]).pay_frequency
                        is Some implies us2[y].pay_frequency->0.id != us2[x].pay_frequency->0.id by {
                    if y != i {
                        assert(us2[y] == us[y]);
                    }
                }
            }
            assert(user_schedules_ok(us2, bs, ss2));
        },
    }
}

} // verus!
