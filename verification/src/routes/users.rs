//! User operations: create and read users, and the update that drives the
//! pay-frequency schedule lifecycle, the same transition table a budget's
//! repeating target follows.

use vstd::prelude::*;

use crate::db;
use crate::db::schedule::has_schedule_id;
use crate::db::users::has_user_id;
use crate::db::{first_schedule_index, Database};
use crate::models::{
    fresh_id, trim, trimmed, CreateUserRequest, Id, Schedule, UpdateScheduleRequest,
    UpdateUserRequest, User, UserView,
};
use crate::routes::budgets::{db_unchanged, ScheduleAction};
use crate::AppError;

verus! {

/// What a string must satisfy to pass as an email address.
pub uninterp spec fn email_valid(s: Seq<char>) -> bool;

/// Relies on email_address::EmailAddress::is_valid: whether the string
/// parses as an email address, a function of the characters alone.
#[verifier::external_body]
fn is_valid_email(s: &str) -> (r: bool)
    ensures
        r == email_valid(s@),
{
    email_address::EmailAddress::is_valid(s)
}

/// Everything but the users table is untouched.
pub open spec fn non_user_tables_unchanged(pre: Database, post: Database) -> bool {
    &&& post.budgets_view() == pre.budgets_view()
    &&& post.schedules@ == pre.schedules@
    &&& post.transactions@ == pre.transactions@
    &&& post.payees.deep_view() == pre.payees.deep_view()
    &&& post.bank_accounts.deep_view() == pre.bank_accounts.deep_view()
}

/// Creates a user: rejects a name that is empty once trimmed and an
/// address that does not parse; stores the trimmed name and address; a new
/// user starts with no pay frequency.
pub fn create(db: &mut Database, request: CreateUserRequest) -> (r: Result<Id, AppError>)
    ensures
        (r matches Err(e) && e is BadRequest) <==> (trimmed(request.name@).len() == 0
            || !email_valid(request.email@)),
        (r matches Err(e) && e is BadRequest) ==> db_unchanged(*old(db), *final(db)),
        r is Err ==> db_unchanged(*old(db), *final(db)),
        r matches Err(e) ==> e is BadRequest || e is InternalServerError,
        r matches Ok(id) ==> trimmed(request.name@).len() > 0 && email_valid(request.email@)
            && !has_user_id(old(db).users_view(), id) && !id.spec_is_nil() && final(db).users_view() == old(db).users_view().push(
            UserView {
                id,
                name: trimmed(request.name@),
                email: trimmed(request.email@),
                pay_frequency: Option::<Schedule>::None,
            },
        ) && non_user_tables_unchanged(*old(db), *final(db)),
        old(db).wf() && r is Ok ==> final(db).wf(),
{
    let name = trim(request.name.as_str()).to_owned();
    if name.as_str().is_empty() {
        return Err(AppError::BadRequest("User name must not be empty".to_owned()));
    }
    if !is_valid_email(request.email.as_str()) {
        return Err(AppError::BadRequest("not a valid email address".to_owned()));
    }
    let email = trim(request.email.as_str()).to_owned();

    let id = fresh_id();
    let user = User { id, name, email, pay_frequency: None };
    let ghost uv = user@;

    match db::users::create(db, user) {
        Ok(_) => {},
        Err(e) => {
            return Err(e.to_app_error("Could not create user".to_owned()));
        },
    }

    proof {
        assert(uv =~= (UserView {
            id,
            name: trimmed(request.name@),
            email: trimmed(request.email@),
            pay_frequency: Option::<Schedule>::None,
        }));
        if old(db).wf() {
            crate::laws::lemma_user_create_preserves_wf(*old(db), *db, uv);
        }
    }

    Ok(id)
}

/// All users.
pub fn get(db: &Database) -> (r: Result<Vec<User>, AppError>)
    ensures
        r matches Ok(v) ==> v.deep_view() == db.users_view(),
        r is Ok,
{
    match db::users::get(db) {
        Ok(v) => Ok(v),
        Err(e) => Err(e.to_app_error("Could not get users".to_owned())),
    }
}

/// One user by id.
pub fn get_single(db: &Database, user_id: Id) -> (r: Result<User, AppError>)
    ensures
        r is Ok <==> has_user_id(db.users_view(), user_id),
        r matches Ok(u) ==> exists|i: int|
            0 <= i < db.users_view().len() && #[trigger] db.users_view()[i] == u@ && u@.id
                == user_id,
        r matches Err(e) ==> e is NotFound,
{
    match db::users::get_single(db, user_id) {
        Ok(u) => Ok(u),
        Err(e) => Err(e.to_app_error("Could not get user".to_owned())),
    }
}

/// The transition table of the pay-frequency schedule lifecycle.
pub open spec fn pay_schedule_transition(
    current: Option<Schedule>,
    requested: Option<UpdateScheduleRequest>,
) -> ScheduleAction {
    match (current, requested) {
        (Some(schedule), Some(_)) => ScheduleAction::UpdateInPlace { schedule_id: schedule.id },
        (Some(schedule), Option::<UpdateScheduleRequest>::None) => ScheduleAction::DeleteExisting {
            schedule_id: schedule.id,
        },
        (Option::<Schedule>::None, Some(_)) => ScheduleAction::CreateNew,
        _ => ScheduleAction::NoAction,
    }
}

/// A successful user update at row `i`: the name replaced, the email kept,
/// and the pay-frequency schedule kept in step with the schedules table
/// exactly as the transition table directs.
pub open spec fn user_updated(
    pre: Database,
    post: Database,
    user_id: Id,
    request: UpdateUserRequest,
    i: int,
    sid: Id,
) -> bool {
    let u0 = pre.users_view()[i];
    &&& 0 <= i < pre.users_view().len()
    &&& u0.id == user_id
    &&& match pay_schedule_transition(u0.pay_frequency, request.pay_frequency) {
        ScheduleAction::NoAction => {
            &&& post.schedules@ == pre.schedules@
            &&& post.users_view() == pre.users_view().update(
                i,
                UserView { name: request.name@, pay_frequency: Option::<Schedule>::None, ..u0 },
            )
        },
        ScheduleAction::UpdateInPlace { schedule_id } => {
            let new_sched = Schedule {
                id: schedule_id,
                period: request.pay_frequency->0.period,
            };
            &&& (has_schedule_id(pre.schedules@, schedule_id) ==> exists|j: int|
                #[trigger] first_schedule_index(pre.schedules@, schedule_id, j) && post.schedules@
                    == pre.schedules@.update(j, new_sched))
            &&& (!has_schedule_id(pre.schedules@, schedule_id) ==> post.schedules@
                == pre.schedules@)
            &&& post.users_view() == pre.users_view().update(
                i,
                UserView { name: request.name@, pay_frequency: Some(new_sched), ..u0 },
            )
        },
        ScheduleAction::CreateNew => {
            let new_sched = Schedule { id: sid, period: request.pay_frequency->0.period };
            &&& !has_schedule_id(pre.schedules@, sid)
            &&& post.schedules@ == pre.schedules@.push(new_sched)
            &&& post.users_view() == pre.users_view().update(
                i,
                UserView { name: request.name@, pay_frequency: Some(new_sched), ..u0 },
            )
        },
        ScheduleAction::DeleteExisting { schedule_id } => {
            &&& post.users_view() == pre.users_view().update(
                i,
                UserView { name: request.name@, pay_frequency: Option::<Schedule>::None, ..u0 },
            )
            &&& (has_schedule_id(pre.schedules@, schedule_id) ==> exists|j: int|
                #[trigger] first_schedule_index(pre.schedules@, schedule_id, j) && post.schedules@
                    == pre.schedules@.remove(j))
            &&& (!has_schedule_id(pre.schedules@, schedule_id) ==> post.schedules@
                == pre.schedules@)
        },
    }
    &&& post.budgets_view() == pre.budgets_view()
    &&& post.transactions@ == pre.transactions@
    &&& post.payees.deep_view() == pre.payees.deep_view()
    &&& post.bank_accounts.deep_view() == pre.bank_accounts.deep_view()
}

/// Updates a user's name and pay frequency, keeping the owned schedule in
/// step: updated in place while one is kept, created fresh when one
/// appears, and deleted after the user row no longer references it.
/// The user resolves and the transition its request asks for draws no
/// fresh schedule id: on such a request no step of the update can fail.
pub open spec fn user_update_cannot_fail(
    pre: Database,
    user_id: Id,
    requested: Option<UpdateScheduleRequest>,
) -> bool {
    exists|i: int|
        #[trigger] crate::db::users::first_user_index(pre.users_view(), user_id, i) && !(
        pay_schedule_transition(pre.users_view()[i].pay_frequency, requested)
            is CreateNew)
}

pub fn update(db: &mut Database, user_id: Id, request: UpdateUserRequest) -> (r: Result<
    (),
    AppError,
>)
    ensures
        (r matches Err(e) && e is BadRequest) <==> trimmed(request.name@).len() == 0,
        (r matches Err(e) && e is BadRequest) ==> db_unchanged(*old(db), *final(db)),
        trimmed(request.name@).len() > 0 ==> ((r matches Err(e) && e is NotFound) <==> !has_user_id(
            old(db).users_view(),
            user_id,
        )),
        (r matches Err(e) && e is NotFound) ==> db_unchanged(*old(db), *final(db)),
        (r matches Err(e) && e is InternalServerError) ==> db_unchanged(*old(db), *final(db)),
        trimmed(request.name@).len() > 0 && user_update_cannot_fail(
            *old(db),
            user_id,
            request.pay_frequency,
        ) ==> r is Ok,
        r is Ok ==> exists|i: int, sid: Id|
            #[trigger] user_updated(*old(db), *final(db), user_id, request, i, sid),
        old(db).wf() && r is Ok ==> final(db).wf(),
{
    if trim(request.name.as_str()).is_empty() {
        return Err(AppError::BadRequest("User name must not be empty".to_owned()));
    }

    let existing = match db::users::get_single(db, user_id) {
        Ok(u) => u,
        Err(e) => {
            proof {
                if user_update_cannot_fail(*old(db), user_id, request.pay_frequency) {
                    let i = choose|i: int|
                        #[trigger] crate::db::users::first_user_index(
                            old(db).users_view(),
                            user_id,
                            i,
                        ) && !(pay_schedule_transition(
                            old(db).users_view()[i].pay_frequency,
                            request.pay_frequency,
                        ) is CreateNew);
                    assert(has_user_id(old(db).users_view(), user_id));
                }
            }
            return Err(e.to_app_error("Could not update user".to_owned()));
        },
    };
    let ghost req = request;
    let ghost pre = *db;
    let ghost ev = existing@;

    let (schedule, schedule_id_to_delete): (Option<Schedule>, Option<Id>) = match (
        &existing.pay_frequency,
        &request.pay_frequency,
    ) {
        (Some(existing_schedule), Some(updated_schedule)) => {
            let schedule = Schedule {
                id: existing_schedule.id,
                period: updated_schedule.period,
            };
            match db::schedule::update(db, schedule) {
                Ok(_) => {},
                Err(e) => {
                    return Err(e.to_app_error("Failed to update user".to_owned()));
                },
            }
            (Some(schedule), None)
        },
        (None, Some(updated_schedule)) => {
            let schedule = Schedule { id: fresh_id(), period: updated_schedule.period };
            match db::schedule::create(db, schedule) {
                Ok(_) => {},
                Err(e) => {
                    proof {
                        let i0 = choose|i0: int|
                            #[trigger] crate::db::users::first_user_index(
                                old(db).users_view(),
                                user_id,
                                i0,
                            ) && old(db).users_view()[i0] == ev;
                        assert forall|i: int|
                            #[trigger] crate::db::users::first_user_index(
                                old(db).users_view(),
                                user_id,
                                i,
                            ) implies pay_schedule_transition(
                            old(db).users_view()[i].pay_frequency,
                            req.pay_frequency,
                        ) is CreateNew by {
                            assert(i == i0);
                        }
                    }
                    return Err(e.to_app_error("Failed to update user".to_owned()));
                },
            }
            (Some(schedule), None)
        },
        (Some(existing_schedule), None) => (None, Some(existing_schedule.id)),
        (None, None) => (None, None),
    };

    let ghost schedule_g = schedule;

    let updated = User {
        id: existing.id,
        name: request.name,
        email: existing.email,
        pay_frequency: schedule,
    };
    let ghost uview = updated@;

    match db::users::update(db, updated) {
        Ok(_) => {},
        Err(e) => {
            return Err(e.to_app_error("Could not update user".to_owned()));
        },
    }

    match schedule_id_to_delete {
        Some(schedule_id) => {
            match db::schedule::delete(db, schedule_id) {
                Ok(_) => {},
                Err(e) => {
                    return Err(e.to_app_error("Could not update user".to_owned()));
                },
            }
        },
        None => {},
    }

    proof {
        let prestate = *old(db);
        let ev = existing@;
        let i = choose|i: int|
            #[trigger] crate::db::users::first_user_index(prestate.users_view(), user_id, i)
                && prestate.users_view()[i] == ev;
        let u0 = prestate.users_view()[i];
        let sid: Id = match schedule_g {
            Some(s) => s.id,
            _ => Id { value: 0 },
        };
        assert(user_updated(prestate, *db, user_id, req, i, sid));
        if prestate.wf() {
            crate::laws::lemma_user_update_preserves_wf(prestate, *db, user_id, req, i, sid);
        }
    }

    Ok(())
}

} // verus!
