//! Budget operations: create, read, update, delete, and the inter-budget
//! transfer protocol, together with the target/schedule lifecycle.
//!
//! Every multi-row protocol here runs as a sequence of independent
//! single-row writes with no enclosing atomic scope, matching the store's
//! single-row atomicity; a failing step aborts the remaining steps.

use vstd::prelude::*;

use crate::db;
use crate::db::{
    budget_owned_schedule, has_budget_id, link_unused, Database,
};
use crate::db::schedule::has_schedule_id;
use crate::db::users::has_user_id;
use crate::models::{
    budget_response, fresh_id, transfer_from_result, transfer_to_result, trim, trimmed, Budget,
    BudgetTarget, BudgetView, CreateBudgetRequest, CreateBudgetTargetRequest, GetBudgetResponse,
    GetBudgetResponseView, Id, Schedule, TransferBudgetRequest, UpdateBudgetRequest,
    UpdateBudgetTargetRequest,
};
use crate::AppError;

verus! {

/// The schedule side-effect that a target transition requires, decided
/// before the budget row is persisted.
#[derive(PartialEq, Eq, Structural, Clone, Copy, Debug)]
pub enum ScheduleAction {
    NoAction,
    CreateNew,
    UpdateInPlace { schedule_id: Id },
    DeleteExisting { schedule_id: Id },
}

/// The transition table of the target/schedule lifecycle: what the store
/// must do to the schedules table when a budget's target moves from
/// `current` to `requested`.
pub open spec fn schedule_transition(
    current: Option<BudgetTarget>,
    requested: Option<UpdateBudgetTargetRequest>,
) -> ScheduleAction {
    match (current, requested) {
        (
            Some(BudgetTarget::Repeating { schedule, .. }),
            Some(UpdateBudgetTargetRequest::Repeating { .. }),
        ) => ScheduleAction::UpdateInPlace { schedule_id: schedule.id },
        (Some(BudgetTarget::Repeating { schedule, .. }), _) => ScheduleAction::DeleteExisting {
            schedule_id: schedule.id,
        },
        (_, Some(UpdateBudgetTargetRequest::Repeating { .. })) => ScheduleAction::CreateNew,
        _ => ScheduleAction::NoAction,
    }
}

/// The requested target asks for exactly the target the budget already
/// has: the same shape and the same values.
pub open spec fn requests_same_target(
    current: Option<BudgetTarget>,
    requested: Option<UpdateBudgetTargetRequest>,
) -> bool {
    match (current, requested) {
        (Option::<BudgetTarget>::None, Option::<UpdateBudgetTargetRequest>::None) => true,
        (
            Some(BudgetTarget::OneTime { target_amount }),
            Some(UpdateBudgetTargetRequest::OneTime { target_amount: requested_amount }),
        ) => target_amount == requested_amount,
        (
            Some(BudgetTarget::Repeating { target_amount, repeating_type, schedule }),
            Some(UpdateBudgetTargetRequest::Repeating {
                target_amount: requested_amount,
                repeating_type: requested_type,
                schedule: requested_schedule,
            }),
        ) => target_amount == requested_amount && repeating_type == requested_type
            && schedule.period == requested_schedule.period,
        _ => false,
    }
}

/// Target transition idempotence: updating a budget with the target it
/// already has asks for no schedule create or delete; at most an in-place
/// period update of the schedule the target already owns, under its id.
pub proof fn lemma_target_transition_idempotent(
    current: Option<BudgetTarget>,
    requested: Option<UpdateBudgetTargetRequest>,
)
    requires
        requests_same_target(current, requested),
    ensures
        schedule_transition(current, requested) is NoAction || (schedule_transition(
            current,
            requested,
        ) matches ScheduleAction::UpdateInPlace { schedule_id } && current matches Some(
            BudgetTarget::Repeating { schedule, .. },
        ) && schedule_id == schedule.id),
{
}

/// Decides the schedule side-effect for a target transition.
fn decide_schedule_action(
    current: &Option<BudgetTarget>,
    requested: &Option<UpdateBudgetTargetRequest>,
) -> (r: ScheduleAction)
    ensures
        r == schedule_transition(*current, *requested),
{
    match (current, requested) {
        (
            Some(BudgetTarget::Repeating { schedule, .. }),
            Some(UpdateBudgetTargetRequest::Repeating { .. }),
        ) => ScheduleAction::UpdateInPlace { schedule_id: schedule.id },
        (Some(BudgetTarget::Repeating { schedule, .. }), _) => ScheduleAction::DeleteExisting {
            schedule_id: schedule.id,
        },
        (_, Some(UpdateBudgetTargetRequest::Repeating { .. })) => ScheduleAction::CreateNew,
        _ => ScheduleAction::NoAction,
    }
}

/// A freshly created budget aggregate, with no assignments yet.
pub open spec fn new_budget_view(
    id: Id,
    name: Seq<char>,
    target: Option<BudgetTarget>,
    user_id: Id,
) -> BudgetView {
    BudgetView { id, name, target, user_id, assignments: Seq::empty() }
}

/// Everything outside the budgets and schedules tables is untouched.
pub open spec fn others_unchanged(pre: Database, post: Database) -> bool {
    &&& post.transactions@ == pre.transactions@
    &&& post.users_view() == pre.users_view()
    &&& post.payees.deep_view() == pre.payees.deep_view()
    &&& post.bank_accounts.deep_view() == pre.bank_accounts.deep_view()
}

/// Nothing at all changed.
pub open spec fn db_unchanged(pre: Database, post: Database) -> bool {
    &&& post.budgets_view() == pre.budgets_view()
    &&& post.schedules@ == pre.schedules@
    &&& others_unchanged(pre, post)
}

/// A successful budget creation under a repeating target: one fresh
/// schedule row, then the budget row referencing it.
pub open spec fn repeating_budget_created(
    pre: Database,
    post: Database,
    request: CreateBudgetRequest,
    budget_id: Id,
    schedule_id: Id,
) -> bool {
    match request.target {
        Some(CreateBudgetTargetRequest::Repeating { target_amount, repeating_type, schedule }) => {
            let sch = Schedule { id: schedule_id, period: schedule.period };
            &&& !has_schedule_id(pre.schedules@, schedule_id)
            &&& post.schedules@ == pre.schedules@.push(sch)
            &&& post.budgets_view() == pre.budgets_view().push(
                new_budget_view(
                    budget_id,
                    trimmed(request.name@),
                    Some(
                        BudgetTarget::Repeating { target_amount, repeating_type, schedule: sch },
                    ),
                    request.user_id,
                ),
            )
        },
        _ => false,
    }
}

/// A successful budget creation: the validated request resolved its user,
/// the budget was inserted under the fresh returned id, and a repeating
/// target got its own fresh schedule first.
pub open spec fn budget_created(
    pre: Database,
    post: Database,
    request: CreateBudgetRequest,
    budget_id: Id,
) -> bool {
    &&& !request.user_id.spec_is_nil()
    &&& trimmed(request.name@).len() > 0
    &&& has_user_id(pre.users_view(), request.user_id)
    &&& !has_budget_id(pre.budgets_view(), budget_id)
    &&& !budget_id.spec_is_nil()
    &&& match request.target {
        Option::<CreateBudgetTargetRequest>::None => post.budgets_view() == pre.budgets_view()
            .push(new_budget_view(budget_id, trimmed(request.name@), Option::<BudgetTarget>::None, request.user_id))
            && post.schedules@ == pre.schedules@,
        Some(CreateBudgetTargetRequest::OneTime { target_amount }) => post.budgets_view()
            == pre.budgets_view().push(
            new_budget_view(
                budget_id,
                trimmed(request.name@),
                Some(BudgetTarget::OneTime { target_amount }),
                request.user_id,
            ),
        ) && post.schedules@ == pre.schedules@,
        Some(CreateBudgetTargetRequest::Repeating { .. }) => exists|schedule_id: Id|
            #[trigger] repeating_budget_created(pre, post, request, budget_id, schedule_id),
    }
    &&& others_unchanged(pre, post)
}

/// Creates a budget from a validated request: rejects a nil user id or a
/// name that is empty once trimmed, requires the user to resolve, creates
/// the schedule first when the target repeats (the budget row references
/// it), then inserts the budget, under the trimmed name, with an empty
/// ledger.
pub fn create(db: &mut Database, request: CreateBudgetRequest) -> (r: Result<Id, AppError>)
    ensures
        (r matches Err(e) && e is BadRequest) <==> (request.user_id.spec_is_nil() || trimmed(
            request.name@,
        ).len() == 0),
        (r matches Err(e) && e is BadRequest) ==> db_unchanged(*old(db), *final(db)),
        (r matches Err(e) && e is NotFound) <==> (!request.user_id.spec_is_nil() && trimmed(
            request.name@,
        ).len() > 0 && !has_user_id(old(db).users_view(), request.user_id)),
        (r matches Err(e) && e is NotFound) ==> db_unchanged(*old(db), *final(db)),
        r matches Ok(budget_id) ==> budget_created(*old(db), *final(db), request, budget_id),
        old(db).wf() && r is Ok ==> final(db).wf(),
        (r matches Err(e) && e is InternalServerError) ==> final(db).budgets_view() == old(
            db,
        ).budgets_view() && others_unchanged(*old(db), *final(db)),
{
    let name = trim(request.name.as_str()).to_owned();
    if request.user_id.is_nil() {
        return Err(AppError::BadRequest("user_id must be set".to_owned()));
    }
    if name.as_str().is_empty() {
        return Err(AppError::BadRequest("Budget name cannot be empty".to_owned()));
    }
    match db::users::get_single(db, request.user_id) {
        Ok(_) => (),
        Err(db::Error::NotFound) => {
            return Err(AppError::NotFound("user was not found".to_owned()));
        },
        Err(e) => {
            return Err(e.to_app_error("Failed to create budget".to_owned()));
        },
    }

    let budget_id = fresh_id();

    let target: Option<BudgetTarget> = match &request.target {
        None => None,
        Some(CreateBudgetTargetRequest::OneTime { target_amount }) => Some(
            BudgetTarget::OneTime { target_amount: *target_amount },
        ),
        Some(CreateBudgetTargetRequest::Repeating { target_amount, repeating_type, schedule }) => {
            let schedule_id = fresh_id();
            let sch = Schedule { id: schedule_id, period: schedule.period };
            match db::schedule::create(db, sch) {
                Ok(_) => (),
                Err(e) => {
                    return Err(e.to_app_error("Failed to create budget".to_owned()));
                },
            }
            Some(
                BudgetTarget::Repeating {
                    target_amount: *target_amount,
                    repeating_type: *repeating_type,
                    schedule: sch,
                },
            )
        },
    };

    let ghost req = request;
    let ghost mid = *db;
    let budget = Budget {
        id: budget_id,
        name,
        target,
        user_id: request.user_id,
        assignments: Vec::new(),
    };
    let ghost bview = budget@;

    match db::budgets::create(db, budget) {
        Ok(_) => {},
        Err(e) => {
            return Err(e.to_app_error("Failed to create budget".to_owned()));
        },
    }

    proof {
        let pre = *old(db);
        assert(db.budgets_view() == mid.budgets_view().push(bview));
        assert(mid.budgets_view() == pre.budgets_view());
        match req.target {
            Option::<CreateBudgetTargetRequest>::None => {
                assert(bview =~= new_budget_view(
                    budget_id,
                    trimmed(req.name@),
                    Option::<BudgetTarget>::None,
                    req.user_id,
                ));
            },
            Some(CreateBudgetTargetRequest::OneTime { target_amount }) => {
                assert(bview =~= new_budget_view(
                    budget_id,
                    trimmed(req.name@),
                    Some(BudgetTarget::OneTime { target_amount }),
                    req.user_id,
                ));
            },
            Some(CreateBudgetTargetRequest::Repeating { target_amount, repeating_type, schedule }) => {
                let sch = bview.target->0->Repeating_schedule;
                assert(bview =~= new_budget_view(
                    budget_id,
                    trimmed(req.name@),
                    Some(BudgetTarget::Repeating { target_amount, repeating_type, schedule: sch }),
                    req.user_id,
                ));
                assert(repeating_budget_created(pre, *db, req, budget_id, sch.id));
            },
        }
        assert(budget_created(pre, *db, req, budget_id));
        if pre.wf() {
            crate::laws::lemma_budget_create_preserves_wf(pre, *db, req, budget_id);
        }
    }

    Ok(budget_id)
}

/// All budgets of one user, each with its derived total.
pub fn get(db: &Database, user_id: Id) -> (r: Result<Vec<GetBudgetResponse>, AppError>)
    ensures
        user_id.spec_is_nil() ==> (r matches Err(e) && e is BadRequest),
        !user_id.spec_is_nil() ==> r is Ok,
        r matches Ok(v) ==> v.deep_view() == db.budgets_view().filter(
            |b: BudgetView| b.user_id == user_id,
        ).map_values(|b: BudgetView| budget_response(b)),
{
    if user_id.is_nil() {
        return Err(AppError::BadRequest("user_id must be set".to_owned()));
    }
    let budgets = match db::budgets::get(db, user_id) {
        Ok(v) => v,
        Err(e) => {
            return Err(e.to_app_error("Failed to get budgets".to_owned()));
        },
    };
    let ghost filtered = db.budgets_view().filter(|b: BudgetView| b.user_id == user_id);
    let ghost mapped = filtered.map_values(|b: BudgetView| budget_response(b));
    let n = budgets.len();
    let mut out: Vec<GetBudgetResponse> = Vec::new();
    let mut i: usize = 0;
    proof {
        assert(out.deep_view() =~= mapped.take(0));
    }
    while i < n
        invariant
            i <= n,
            n == budgets@.len(),
            budgets.deep_view() == filtered,
            mapped == filtered.map_values(|b: BudgetView| budget_response(b)),
            out.deep_view() == mapped.take(i as int),
        decreases n - i,
    {
        let resp = GetBudgetResponse::from(budgets[i].clone());
        proof {
            assert(resp@ == budget_response(filtered[i as int]));
            assert(mapped[i as int] == budget_response(filtered[i as int]));
        }
        let ghost prev = out.deep_view();
        out.push(resp);
        proof {
            assert(mapped.len() == filtered.len());
            assert(filtered.len() == n);
            assert(prev.len() == i as int);
            assert(out.deep_view().len() == i + 1);
            assert(mapped.take(i as int + 1).len() == i + 1);
            assert forall|k: int|
                0 <= k < out@.len() implies out.deep_view()[k] == mapped.take(i as int + 1)[k] by {
                if k < prev.len() {
                    assert(out.deep_view()[k] == prev[k]);
                    assert(prev[k] == mapped.take(i as int)[k]);
                    assert(mapped.take(i as int + 1)[k] == mapped[k]);
                } else {
                    assert(k == i as int);
                    assert(out.deep_view()[k] == resp@);
                    assert(mapped.take(i as int + 1)[k] == mapped[i as int]);
                }
            }
            assert(out.deep_view() =~= mapped.take(i as int + 1));
        }
        i = i + 1;
    }
    proof {
        assert(mapped.take(n as int) =~= mapped);
    }
    Ok(out)
}

/// The target that an update request yields, given the schedule in effect
/// for a repeating target.
pub open spec fn updated_target(
    requested: Option<UpdateBudgetTargetRequest>,
    sched: Option<Schedule>,
) -> Option<BudgetTarget> {
    match requested {
        Option::<UpdateBudgetTargetRequest>::None => Option::<BudgetTarget>::None,
        Some(UpdateBudgetTargetRequest::OneTime { target_amount }) => Some(
            BudgetTarget::OneTime { target_amount },
        ),
        Some(UpdateBudgetTargetRequest::Repeating { target_amount, repeating_type, .. }) => Some(
            BudgetTarget::Repeating { target_amount, repeating_type, schedule: sched->0 },
        ),
    }
}

/// The period an update request carries for a repeating target.
pub open spec fn requested_period(
    requested: Option<UpdateBudgetTargetRequest>,
) -> crate::models::SchedulePeriod {
    requested->0->Repeating_schedule.period
}

/// A successful budget update at row `i`: the name and target replaced per
/// the request, the ledger untouched, and the schedules table changed
/// exactly as the transition table directs; `sid` is the fresh schedule id
/// when one is created.
pub open spec fn budget_updated(
    pre: Database,
    post: Database,
    budget_id: Id,
    request: UpdateBudgetRequest,
    i: int,
    sid: Id,
) -> bool {
    let b0 = pre.budgets_view()[i];
    &&& crate::db::first_budget_index(pre.budgets_view(), budget_id, i)
    &&& match schedule_transition(b0.target, request.target) {
        ScheduleAction::NoAction => {
            &&& post.schedules@ == pre.schedules@
            &&& post.budgets_view() == pre.budgets_view().update(
                i,
                BudgetView {
                    name: request.name@,
                    target: updated_target(request.target, Option::<Schedule>::None),
                    ..b0
                },
            )
        },
        ScheduleAction::UpdateInPlace { schedule_id } => {
            let new_sched = Schedule { id: schedule_id, period: requested_period(request.target) };
            &&& (has_schedule_id(pre.schedules@, schedule_id) ==> exists|j: int|
                #[trigger] crate::db::first_schedule_index(pre.schedules@, schedule_id, j)
                    && post.schedules@ == pre.schedules@.update(j, new_sched))
            &&& (!has_schedule_id(pre.schedules@, schedule_id) ==> post.schedules@
                == pre.schedules@)
            &&& post.budgets_view() == pre.budgets_view().update(
                i,
                BudgetView {
                    name: request.name@,
                    target: updated_target(request.target, Some(new_sched)),
                    ..b0
                },
            )
        },
        ScheduleAction::CreateNew => {
            let new_sched = Schedule { id: sid, period: requested_period(request.target) };
            &&& !has_schedule_id(pre.schedules@, sid)
            &&& post.schedules@ == pre.schedules@.push(new_sched)
            &&& post.budgets_view() == pre.budgets_view().update(
                i,
                BudgetView {
                    name: request.name@,
                    target: updated_target(request.target, Some(new_sched)),
                    ..b0
                },
            )
        },
        ScheduleAction::DeleteExisting { schedule_id } => {
            &&& post.budgets_view() == pre.budgets_view().update(
                i,
                BudgetView {
                    name: request.name@,
                    target: updated_target(request.target, Option::<Schedule>::None),
                    ..b0
                },
            )
            &&& (has_schedule_id(pre.schedules@, schedule_id) ==> exists|j: int|
                #[trigger] crate::db::first_schedule_index(pre.schedules@, schedule_id, j)
                    && post.schedules@ == pre.schedules@.remove(j))
            &&& (!has_schedule_id(pre.schedules@, schedule_id) ==> post.schedules@
                == pre.schedules@)
        },
    }
    &&& others_unchanged(pre, post)
}

/// The budget resolves and the transition it asks for draws no fresh
/// schedule id: on such a request no step of the update can fail.
pub open spec fn update_cannot_fail(
    pre: Database,
    budget_id: Id,
    requested: Option<UpdateBudgetTargetRequest>,
) -> bool {
    exists|i: int|
        #[trigger] crate::db::first_budget_index(pre.budgets_view(), budget_id, i) && !(
        schedule_transition(pre.budgets_view()[i].target, requested) is CreateNew)
}

/// Updates a budget's name and target, driving the schedule lifecycle per
/// the transition table: a repeating-to-repeating move updates the owned
/// schedule's period in place under its id; entering a repeating target
/// creates a fresh schedule before the budget row is written; leaving one
/// deletes the orphaned schedule after the budget row is written.
pub fn update(db: &mut Database, budget_id: Id, request: UpdateBudgetRequest) -> (r: Result<
    (),
    AppError,
>)
    ensures
        !has_budget_id(old(db).budgets_view(), budget_id) <==> (r matches Err(e) && e
            is NotFound),
        r is Err ==> db_unchanged(*old(db), *final(db)),
        r matches Err(e) ==> e is NotFound || e is InternalServerError,
        (r matches Err(e) && e is InternalServerError) ==> exists|i: int|
            #[trigger] crate::db::first_budget_index(old(db).budgets_view(), budget_id, i)
                && schedule_transition(old(db).budgets_view()[i].target, request.target)
                is CreateNew,
        update_cannot_fail(*old(db), budget_id, request.target) ==> r is Ok,
        r is Ok ==> exists|i: int, sid: Id|
            #[trigger] budget_updated(*old(db), *final(db), budget_id, request, i, sid),
        old(db).wf() && r is Ok ==> final(db).wf(),
{
    let existing = match db::budgets::get_single(db, budget_id) {
        Ok(b) => b,
        Err(e) => {
            proof {
                if update_cannot_fail(*old(db), budget_id, request.target) {
                    let i = choose|i: int|
                        #[trigger] crate::db::first_budget_index(
                            old(db).budgets_view(),
                            budget_id,
                            i,
                        ) && !(schedule_transition(
                            old(db).budgets_view()[i].target,
                            request.target,
                        ) is CreateNew);
                    assert(has_budget_id(old(db).budgets_view(), budget_id));
                }
            }
            return Err(e.to_app_error("Failed to get budget".to_owned()));
        },
    };
    let ghost req = request;
    let ghost pre = *db;
    let ghost ev = existing@;
    let ghost action = schedule_transition(existing@.target, request.target);

    let (new_target, schedule_id_to_delete): (Option<BudgetTarget>, Option<Id>) = match (
        &existing.target,
        &request.target,
    ) {
        (
            Some(BudgetTarget::Repeating { schedule: existing_schedule, .. }),
            Some(
                UpdateBudgetTargetRequest::Repeating {
                    target_amount,
                    repeating_type,
                    schedule: update_schedule_request,
                },
            ),
        ) => {
            let updated_schedule = Schedule {
                id: existing_schedule.id,
                period: update_schedule_request.period,
            };
            match db::schedule::update(db, updated_schedule) {
                Ok(_) => {},
                Err(e) => {
                    return Err(e.to_app_error("Failed to update schedule".to_owned()));
                },
            }
            (
                Some(
                    BudgetTarget::Repeating {
                        target_amount: *target_amount,
                        repeating_type: *repeating_type,
                        schedule: updated_schedule,
                    },
                ),
                None,
            )
        },
        (Some(BudgetTarget::Repeating { schedule, .. }), None) => (None, Some(schedule.id)),
        (
            Some(BudgetTarget::Repeating { schedule, .. }),
            Some(UpdateBudgetTargetRequest::OneTime { target_amount }),
        ) => (Some(BudgetTarget::OneTime { target_amount: *target_amount }), Some(schedule.id)),
        (_, Some(UpdateBudgetTargetRequest::Repeating {
            target_amount,
            repeating_type,
            schedule,
        })) => {
            let new_schedule_id = fresh_id();
            let new_schedule = Schedule { id: new_schedule_id, period: schedule.period };
            match db::schedule::create(db, new_schedule) {
                Ok(_) => {},
                Err(e) => {
                    proof {
                        let i0 = choose|i0: int|
                            #[trigger] crate::db::first_budget_index(
                                old(db).budgets_view(),
                                budget_id,
                                i0,
                            ) && old(db).budgets_view()[i0] == ev;
                        assert(schedule_transition(
                            old(db).budgets_view()[i0].target,
                            req.target,
                        ) is CreateNew);
                        assert forall|i: int|
                            #[trigger] crate::db::first_budget_index(
                                old(db).budgets_view(),
                                budget_id,
                                i,
                            ) implies schedule_transition(
                            old(db).budgets_view()[i].target,
                            req.target,
                        ) is CreateNew by {
                            assert(i == i0);
                        }
                    }
                    return Err(e.to_app_error("Failed to create new schedule".to_owned()));
                },
            }
            (
                Some(
                    BudgetTarget::Repeating {
                        target_amount: *target_amount,
                        repeating_type: *repeating_type,
                        schedule: new_schedule,
                    },
                ),
                None,
            )
        },
        (_, Some(UpdateBudgetTargetRequest::OneTime { target_amount })) => (
            Some(BudgetTarget::OneTime { target_amount: *target_amount }),
            None,
        ),
        (_, None) => (None, None),
    };

    let ghost mid = *db;
    let ghost new_target_g = new_target;

    let updated = Budget {
        id: existing.id,
        name: request.name,
        target: new_target,
        user_id: existing.user_id,
        assignments: existing.assignments,
    };
    let ghost uview = updated@;

    match db::budgets::update(db, updated) {
        Ok(_) => {},
        Err(e) => {
            return Err(e.to_app_error("Failed to update budget".to_owned()));
        },
    }

    let ghost before_delete = *db;

    match schedule_id_to_delete {
        Some(schedule_id) => {
            match db::schedule::delete(db, schedule_id) {
                Ok(_) => {},
                Err(e) => {
                    return Err(e.to_app_error("Failed to delete schedule".to_owned()));
                },
            }
        },
        None => {},
    }

    proof {
        let prestate = *old(db);
        let ev = existing@;
        assert(exists|i: int|
            #[trigger] crate::db::first_budget_index(prestate.budgets_view(), budget_id, i)
                && prestate.budgets_view()[i] == ev);
        let i = choose|i: int|
            #[trigger] crate::db::first_budget_index(prestate.budgets_view(), budget_id, i)
                && prestate.budgets_view()[i] == ev;
        let b0 = prestate.budgets_view()[i];
        assert(uview == (BudgetView {
            name: req.name@,
            target: new_target_g,
            ..b0
        }));
        let sid: Id = match new_target_g {
            Some(BudgetTarget::Repeating { schedule, .. }) => schedule.id,
            _ => Id { value: 0 },
        };
        assert(budget_updated(prestate, *db, budget_id, req, i, sid));
        assert(exists|i2: int, sid2: Id|
            #[trigger] budget_updated(prestate, *db, budget_id, req, i2, sid2));
        if prestate.wf() {
            crate::laws::lemma_budget_update_preserves_wf(prestate, *db, budget_id, req, i, sid);
        }
    }

    Ok(())
}

/// A successful budget deletion at row `i`: the aggregate goes, its
/// assignments with it, and an owned schedule is deleted afterwards.
pub open spec fn budget_deleted(pre: Database, post: Database, budget_id: Id, i: int) -> bool {
    &&& crate::db::first_budget_index(pre.budgets_view(), budget_id, i)
    &&& post.budgets_view() == pre.budgets_view().remove(i)
    &&& match budget_owned_schedule(pre.budgets_view()[i]) {
        Some(sch) => {
            &&& (has_schedule_id(pre.schedules@, sch.id) ==> exists|j: int|
                #[trigger] crate::db::first_schedule_index(pre.schedules@, sch.id, j)
                    && post.schedules@ == pre.schedules@.remove(j))
            &&& (!has_schedule_id(pre.schedules@, sch.id) ==> post.schedules@ == pre.schedules@)
        },
        Option::<Schedule>::None => post.schedules@ == pre.schedules@,
    }
    &&& others_unchanged(pre, post)
}

/// Deletes a budget: the row and its assignments first, then — once the
/// budget row no longer references it — the owned schedule, if the target
/// was repeating.
pub fn delete(db: &mut Database, budget_id: Id) -> (r: Result<(), AppError>)
    ensures
        !has_budget_id(old(db).budgets_view(), budget_id) <==> (r matches Err(e) && e
            is NotFound),
        r matches Err(e) ==> e is NotFound,
        has_budget_id(old(db).budgets_view(), budget_id) ==> r is Ok,
        r is Err ==> db_unchanged(*old(db), *final(db)),
        r is Ok ==> exists|i: int| #[trigger] budget_deleted(*old(db), *final(db), budget_id, i),
{
    let budget = match db::budgets::get_single(db, budget_id) {
        Ok(b) => b,
        Err(e) => {
            return Err(e.to_app_error("Failed to get budget to delete".to_owned()));
        },
    };

    match db::budgets::delete(db, budget_id) {
        Ok(_) => {},
        Err(e) => {
            return Err(e.to_app_error("Failed to delete budget".to_owned()));
        },
    }

    match &budget.target {
        Some(BudgetTarget::Repeating { schedule, .. }) => {
            match db::schedule::delete(db, schedule.id) {
                Ok(_) => {},
                Err(e) => {
                    return Err(e.to_app_error("Failed to delete schedule".to_owned()));
                },
            }
        },
        _ => {},
    }

    proof {
        let prestate = *old(db);
        let bv = budget@;
        let i = choose|i: int|
            #[trigger] crate::db::first_budget_index(prestate.budgets_view(), budget_id, i)
                && prestate.budgets_view()[i] == bv;
        assert(budget_deleted(prestate, *db, budget_id, i));
    }

    Ok(())
}

/// No leg of any budget in `budgets` carries link id `link`.
fn link_is_unused(budgets: &Vec<Budget>, link: Id) -> (r: bool)
    ensures
        r == link_unused(budgets.deep_view(), link),
{
    let ghost bs = budgets.deep_view();
    let n = budgets.len();
    let mut i: usize = 0;
    while i < n
        invariant
            i <= n,
            n == budgets@.len(),
            bs == budgets.deep_view(),
            forall|k: int, j: int|
                #![trigger bs[k].assignments[j]]
                0 <= k < i && 0 <= j < bs[k].assignments.len() ==> !(bs[k].assignments[j].source
                    matches crate::models::BudgetAssignmentSource::OtherBudget {
                        link_id,
                        ..
                    } && link_id == link),
        decreases n - i,
    {
        let m = budgets[i].assignments.len();
        let mut j: usize = 0;
        while j < m
            invariant
                j <= m,
                i < n,
                n == budgets@.len(),
                m == bs[i as int].assignments.len(),
                bs == budgets.deep_view(),
                forall|l: int|
                    0 <= l < j ==> !(#[trigger] bs[i as int].assignments[l].source
                        matches crate::models::BudgetAssignmentSource::OtherBudget {
                            link_id,
                            ..
                        } && link_id == link),
            decreases m - j,
        {
            let a = budgets[i].assignments[j];
            match a.source {
                crate::models::BudgetAssignmentSource::OtherBudget { link_id, .. } => {
                    if link_id.value == link.value {
                        return false;
                    }
                },
                _ => {},
            }
            j = j + 1;
        }
        i = i + 1;
    }
    true
}

/// A successful transfer: the sending budget at row `i` gained the negated
/// leg, the receiving budget at row `j` the positive one, under one link
/// id unused anywhere before the call.
pub open spec fn transferred(
    pre: Database,
    post: Database,
    from_budget_id: Id,
    to_budget_id: Id,
    request: TransferBudgetRequest,
    i: int,
    j: int,
    link_id: Id,
    to_aid: Id,
    from_aid: Id,
) -> bool {
    &&& crate::db::first_budget_index(pre.budgets_view(), from_budget_id, i)
    &&& crate::db::first_budget_index(pre.budgets_view(), to_budget_id, j)
    &&& i != j
    &&& link_unused(pre.budgets_view(), link_id)
    &&& post.budgets_view() == pre.budgets_view().update(
        i,
        transfer_from_result(
            pre.budgets_view()[i],
            to_budget_id,
            request.amount,
            request.date,
            link_id,
            from_aid,
        ),
    ).update(
        j,
        transfer_to_result(
            pre.budgets_view()[j],
            from_budget_id,
            request.amount,
            request.date,
            link_id,
            to_aid,
        ),
    )
    &&& post.schedules@ == pre.schedules@
    &&& others_unchanged(pre, post)
}

/// Executes a manual transfer between two distinct budgets: both are
/// fetched in one id-set lookup and the call fails with a missing-resource
/// error unless exactly two budgets come back; the balanced pair of legs
/// is computed in memory and then each budget is persisted on its own.
pub fn transfer_between(
    db: &mut Database,
    from_budget_id: Id,
    to_budget_id: Id,
    request: TransferBudgetRequest,
) -> (r: Result<(), AppError>)
    ensures
        r is Err ==> db_unchanged(*old(db), *final(db)),
        from_budget_id == to_budget_id ==> (r matches Err(e) && e is NotFound),
        old(db).wf() && !(has_budget_id(old(db).budgets_view(), from_budget_id) && has_budget_id(
            old(db).budgets_view(),
            to_budget_id,
        ) && from_budget_id != to_budget_id) ==> (r matches Err(e) && e is NotFound),
        old(db).wf() && (r matches Err(e) && e is NotFound) ==> !(has_budget_id(
            old(db).budgets_view(),
            from_budget_id,
        ) && has_budget_id(old(db).budgets_view(), to_budget_id) && from_budget_id
            != to_budget_id),
        (r matches Err(e) && e is BadRequest) ==> request.amount.minor == i64::MIN,
        old(db).wf() && has_budget_id(old(db).budgets_view(), from_budget_id) && has_budget_id(
            old(db).budgets_view(),
            to_budget_id,
        ) && from_budget_id != to_budget_id && request.amount.minor == i64::MIN ==> (r matches Err(
            e,
        ) && e is BadRequest),
        old(db).wf() && r is Ok ==> final(db).wf(),
        r is Ok ==> request.amount.minor != i64::MIN && exists|
            i: int,
            j: int,
            link_id: Id,
            to_aid: Id,
            from_aid: Id,
        |
            #[trigger] transferred(
                *old(db),
                *final(db),
                from_budget_id,
                to_budget_id,
                request,
                i,
                j,
                link_id,
                to_aid,
                from_aid,
            ),
{
    let ghost pre = *db;
    let ghost bs = db.budgets_view();

    if from_budget_id.value == to_budget_id.value {
        return Err(
            AppError::NotFound("Could not find two distinct budgets to transfer between".to_owned()),
        );
    }

    let mut ids: Vec<Id> = Vec::new();
    ids.push(from_budget_id);
    ids.push(to_budget_id);

    let ghost pred = |b: BudgetView| ids@.contains(b.id);
    let ghost p_from = |b: BudgetView| b.id == from_budget_id;
    let ghost p_to = |b: BudgetView| b.id == to_budget_id;
    proof {
        assert(ids@[0] == from_budget_id);
        assert(ids@[1] == to_budget_id);
        assert(forall|x: Id| ids@.contains(x) <==> x == from_budget_id || x == to_budget_id) by {
            assert(forall|x: Id| #[trigger] ids@.contains(x) ==> ids@[0] == x || ids@[1] == x);
        }
        assert(forall|b: BudgetView| #[trigger] pred(b) == (p_from(b) || p_to(b)));
        crate::db::lemma_filter_len_count(bs, pred);
        crate::db::lemma_count_where_or_disjoint(bs, p_from, p_to, pred);
    }

    let budgets = match db::budgets::get_by_ids(db, &ids) {
        Ok(v) => v,
        Err(e) => {
            return Err(e.to_app_error("Failed to get budget to assign to".to_owned()));
        },
    };

    if budgets.len() != 2 {
        proof {
            if pre.wf() && has_budget_id(bs, from_budget_id) && has_budget_id(bs, to_budget_id) {
                let ki = choose|k: int| 0 <= k < bs.len() && (#[trigger] bs[k]).id == from_budget_id;
                let kj = choose|k: int| 0 <= k < bs.len() && (#[trigger] bs[k]).id == to_budget_id;
                crate::db::lemma_count_where_at_least_one(bs, p_from, ki);
                crate::db::lemma_count_where_at_least_one(bs, p_to, kj);
                crate::db::lemma_unique_ids_count(bs, from_budget_id);
                crate::db::lemma_unique_ids_count(bs, to_budget_id);
                assert(false);
            }
        }
        return Err(
            AppError::NotFound("Could not find either one or both budgets".to_owned()),
        );
    }

    proof {
        if pre.wf() {
            crate::db::lemma_unique_ids_count(bs, from_budget_id);
            crate::db::lemma_unique_ids_count(bs, to_budget_id);
            assert(crate::db::count_where(bs, p_from) == 1);
            assert(crate::db::count_where(bs, p_to) == 1);
            crate::db::lemma_count_where_zero(bs, p_from);
            crate::db::lemma_count_where_zero(bs, p_to);
            let ki = choose|k: int| 0 <= k < bs.len() && p_from(#[trigger] bs[k]);
            let kj = choose|k: int| 0 <= k < bs.len() && p_to(#[trigger] bs[k]);
            assert(bs[ki].id == from_budget_id);
            assert(bs[kj].id == to_budget_id);
            assert(has_budget_id(bs, from_budget_id));
            assert(has_budget_id(bs, to_budget_id));
        }
    }

    let (from_pos, to_pos): (usize, usize) = if budgets[0].id.value == from_budget_id.value {
        (0, 1)
    } else {
        (1, 0)
    };

    if !(budgets[from_pos].id.value == from_budget_id.value && budgets[to_pos].id.value
        == to_budget_id.value) {
        // On a well-formed store with two distinct existing budgets this
        // exit is unreachable: the two fetched rows carry exactly the two
        // requested ids, in one order or the other.
        proof {
            if pre.wf() && has_budget_id(bs, from_budget_id) && has_budget_id(bs, to_budget_id)
                && from_budget_id != to_budget_id {
                let fv = bs.filter(pred);
                assert(budgets.deep_view() == fv);
                assert(fv.len() == 2);
                assert forall|x: BudgetView| #[trigger] p_from(x) implies pred(x) by {
                    assert(ids@[0] == x.id);
                }
                assert forall|x: BudgetView| #[trigger] p_to(x) implies pred(x) by {
                    assert(ids@[1] == x.id);
                }
                crate::db::lemma_count_where_filter_keeps(bs, p_from, pred);
                crate::db::lemma_count_where_filter_keeps(bs, p_to, pred);
                assert(crate::db::count_where(fv, p_from) == 1);
                assert(crate::db::count_where(fv, p_to) == 1);
                crate::db::lemma_count_where_zero(fv, p_from);
                let kf = choose|k: int| 0 <= k < fv.len() && p_from(#[trigger] fv[k]);
                crate::db::lemma_count_where_zero(fv, p_to);
                let kt = choose|k: int| 0 <= k < fv.len() && p_to(#[trigger] fv[k]);
                assert(fv[kf].id == from_budget_id);
                assert(fv[kt].id == to_budget_id);
                assert(kf != kt);
                if fv[0].id == from_budget_id {
                    crate::db::lemma_count_where_unique(fv, p_from, 0, kf);
                    assert(kf == 0);
                    assert(kt == 1);
                    assert(false);
                } else {
                    assert(kf == 1);
                    assert(kt == 0);
                    assert(false);
                }
            }
        }
        return Err(
            AppError::NotFound("Could not find either one or both budgets".to_owned()),
        );
    }

    if request.amount.minor == i64::MIN {
        return Err(AppError::BadRequest("Transfer amount is out of range".to_owned()));
    }

    let link_id = fresh_id();
    if !link_is_unused(&db.budgets, link_id) {
        return Err(
            AppError::InternalServerError("Could not draw an unused link id".to_owned()),
        );
    }
    let to_aid = fresh_id();
    let from_aid = fresh_id();

    let mut from_budget = budgets[from_pos].clone();
    let mut to_budget = budgets[to_pos].clone();
    let ghost from_v = from_budget@;
    let ghost to_v = to_budget@;

    proof {
        let fv = bs.filter(pred);
        assert(budgets.deep_view() == fv);
        assert(fv[from_pos as int] == from_v);
        assert(fv[to_pos as int] == to_v);
        crate::db::lemma_filter_elem_in_source(bs, pred, from_pos as int);
        crate::db::lemma_filter_elem_in_source(bs, pred, to_pos as int);
    }

    Budget::move_between_budgets_linked(
        &mut from_budget,
        &mut to_budget,
        request.amount,
        request.date,
        link_id,
        to_aid,
        from_aid,
    );

    let ghost fr = transfer_from_result(
        from_v,
        to_budget_id,
        request.amount,
        request.date,
        link_id,
        from_aid,
    );
    let ghost tr = transfer_to_result(
        to_v,
        from_budget_id,
        request.amount,
        request.date,
        link_id,
        to_aid,
    );
    proof {
        assert(from_budget@ == fr);
        assert(to_budget@ == tr);
    }

    let ghost mid0 = *db;

    match db::budgets::update(db, from_budget) {
        Ok(_) => {},
        Err(e) => {
            return Err(e.to_app_error("Failed to update budget".to_owned()));
        },
    }

    let ghost mid1 = *db;

    match db::budgets::update(db, to_budget) {
        Ok(_) => {},
        Err(e) => {
            return Err(e.to_app_error("Failed to update budget".to_owned()));
        },
    }

    proof {
        // Locate the unique source rows of the two fetched budgets.
        let i = choose|i: int| 0 <= i < bs.len() && #[trigger] bs[i] == from_v;
        let j = choose|j: int| 0 <= j < bs.len() && #[trigger] bs[j] == to_v;
        crate::db::lemma_count_where_at_least_one(bs, p_from, i);
        crate::db::lemma_count_where_at_least_one(bs, p_to, j);
        assert(crate::db::count_where(bs, p_from) == 1 && crate::db::count_where(bs, p_to) == 1);
        assert forall|k: int| 0 <= k < i implies (#[trigger] bs[k]).id != from_budget_id by {
            if bs[k].id == from_budget_id {
                crate::db::lemma_count_where_unique(bs, p_from, k, i);
            }
        }
        assert forall|k: int| 0 <= k < j implies (#[trigger] bs[k]).id != to_budget_id by {
            if bs[k].id == to_budget_id {
                crate::db::lemma_count_where_unique(bs, p_to, k, j);
            }
        }
        assert(crate::db::first_budget_index(bs, from_budget_id, i));
        assert(crate::db::first_budget_index(bs, to_budget_id, j));
        assert(has_budget_id(bs, from_budget_id));
        assert(has_budget_id(bs, to_budget_id));
        assert(from_v.id == from_budget_id);
        assert(to_v.id == to_budget_id);

        // The first persisted write landed on row i.
        assert(mid0.budgets_view() == bs);
        assert(exists|i1: int|
            #[trigger] crate::db::first_budget_index(mid0.budgets_view(), from_budget_id, i1)
                && mid1.budgets_view() == mid0.budgets_view().update(i1, fr));
        let i1 = choose|i1: int|
            #[trigger] crate::db::first_budget_index(mid0.budgets_view(), from_budget_id, i1)
                && mid1.budgets_view() == mid0.budgets_view().update(i1, fr);
        assert(i1 == i);
        assert(mid1.budgets_view() == bs.update(i, fr));

        // And the second on row j, whose position the first write kept.
        assert forall|k: int| 0 <= k < bs.len() implies (#[trigger] mid1.budgets_view()[k]).id
            == bs[k].id by {}
        assert(mid1.budgets_view()[j].id == to_budget_id);
        assert(has_budget_id(mid1.budgets_view(), to_budget_id));
        assert(crate::db::first_budget_index(mid1.budgets_view(), to_budget_id, j));
        let j1 = choose|j1: int|
            #[trigger] crate::db::first_budget_index(mid1.budgets_view(), to_budget_id, j1)
                && db.budgets_view() == mid1.budgets_view().update(j1, tr);
        assert(j1 == j);
        assert(db.budgets_view() == bs.update(i, fr).update(j, tr));
        assert(transferred(
            pre,
            *db,
            from_budget_id,
            to_budget_id,
            request,
            i,
            j,
            link_id,
            to_aid,
            from_aid,
        ));
        if pre.wf() {
            crate::laws::lemma_transfer_preserves_wf(
                pre,
                *db,
                from_budget_id,
                to_budget_id,
                request,
                i,
                j,
                link_id,
                to_aid,
                from_aid,
            );
        }
    }

    Ok(())
}

} // verus!
