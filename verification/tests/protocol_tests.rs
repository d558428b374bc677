//! End-to-end scenarios for the transfer and transaction-sync protocols
//! and the target/schedule lifecycle, run against the in-memory store.

use budgeting_backend::db;
use budgeting_backend::db::Database;
use budgeting_backend::models::{
    BudgetAssignmentSource, BudgetTarget, CreateBudgetRequest, CreateBudgetTargetRequest,
    CreatePayeeRequest, CreateScheduleRequest, CreateTransactionRequest, CreateUserRequest, Date,
    Id, Money, RepeatingTargetType, SchedulePeriod, TransferBudgetRequest, UpdateBudgetRequest,
    UpdateBudgetTargetRequest, UpdateScheduleRequest, UpdateTransactionRequest,
};
use budgeting_backend::routes;
use budgeting_backend::AppError;

fn date(year: i32, month: u8, day: u8) -> Date {
    Date { year, month, day }
}

fn seed_user(db: &mut Database) -> Id {
    routes::users::create(
        db,
        CreateUserRequest { name: "name".to_owned(), email: "email@email.com".to_owned() },
    )
    .unwrap()
}

fn seed_budget(db: &mut Database, user_id: Id, name: &str) -> Id {
    routes::budgets::create(
        db,
        CreateBudgetRequest { name: name.to_owned(), target: None, user_id },
    )
    .unwrap()
}

fn seed_payee(db: &mut Database, user_id: Id) -> Id {
    let payee_id = Id { value: 0xfee };
    db::payees::create(
        db,
        payee_id,
        CreatePayeeRequest { name: "payee".to_owned(), user_id },
    )
    .unwrap();
    payee_id
}

#[test]
pub fn transfer_between_budgets_creates_matched_pair() {
    let mut db = Database::new();
    let user_id = seed_user(&mut db);
    let b1 = seed_budget(&mut db, user_id, "b1");
    let b2 = seed_budget(&mut db, user_id, "b2");

    routes::budgets::transfer_between(
        &mut db,
        b1,
        b2,
        TransferBudgetRequest { amount: Money { minor: 100_000 }, date: date(2024, 11, 30) },
    )
    .unwrap();

    let fetched1 = db::budgets::get_single(&db, b1).unwrap();
    let fetched2 = db::budgets::get_single(&db, b2).unwrap();

    assert_eq!(fetched1.assignments.len(), 1);
    assert_eq!(fetched2.assignments.len(), 1);
    let leg1 = fetched1.assignments[0];
    let leg2 = fetched2.assignments[0];
    assert_eq!(leg1.amount, Money { minor: -100_000 });
    assert_eq!(leg2.amount, Money { minor: 100_000 });
    let (from1, link1) = match leg1.source {
        BudgetAssignmentSource::OtherBudget { from_budget_id, link_id } => (from_budget_id, link_id),
        _ => panic!("expected assignment source to be OtherBudget"),
    };
    let (from2, link2) = match leg2.source {
        BudgetAssignmentSource::OtherBudget { from_budget_id, link_id } => (from_budget_id, link_id),
        _ => panic!("expected assignment source to be OtherBudget"),
    };
    assert_eq!(link1, link2);
    assert_eq!(from1, b2);
    assert_eq!(from2, b1);
}

#[test]
pub fn transfer_to_same_budget_fails_not_found() {
    let mut db = Database::new();
    let user_id = seed_user(&mut db);
    let b1 = seed_budget(&mut db, user_id, "b1");

    let result = routes::budgets::transfer_between(
        &mut db,
        b1,
        b1,
        TransferBudgetRequest { amount: Money { minor: 100_000 }, date: date(2024, 11, 30) },
    );

    assert!(matches!(result, Err(AppError::NotFound(_))));
    assert_eq!(db::budgets::get_single(&db, b1).unwrap().assignments.len(), 0);
}

#[test]
pub fn transfer_with_missing_budget_fails_not_found() {
    let mut db = Database::new();
    let user_id = seed_user(&mut db);
    let b1 = seed_budget(&mut db, user_id, "b1");

    let result = routes::budgets::transfer_between(
        &mut db,
        b1,
        Id { value: 0xdead },
        TransferBudgetRequest { amount: Money { minor: 100_000 }, date: date(2024, 11, 30) },
    );

    assert!(matches!(result, Err(AppError::NotFound(_))));
}

#[test]
pub fn transaction_create_and_delete_sync_the_leg() {
    let mut db = Database::new();
    let user_id = seed_user(&mut db);
    let bg = seed_budget(&mut db, user_id, "bg");
    let payee_id = seed_payee(&mut db, user_id);
    let bank_account_id = Id { value: 0xacc };

    let transaction_id = routes::transactions::create(
        &mut db,
        bank_account_id,
        CreateTransactionRequest {
            payee_id,
            amount: Money { minor: 101_500 },
            date: date(2024, 12, 1),
            budget_id: bg,
        },
    )
    .unwrap();

    let budget = db::budgets::get_single(&db, bg).unwrap();
    assert_eq!(budget.assignments.len(), 1);
    let leg = budget.assignments[0];
    assert_eq!(leg.amount, Money { minor: 101_500 });
    assert_eq!(
        leg.source,
        BudgetAssignmentSource::Transaction { from_transaction_id: transaction_id }
    );
    assert_eq!(budget.total_assigned(), 101_500);

    routes::transactions::delete(&mut db, transaction_id).unwrap();

    let budget = db::budgets::get_single(&db, bg).unwrap();
    assert_eq!(budget.assignments.len(), 0);
    assert_eq!(budget.total_assigned(), 0);
    assert!(db::transactions::get_single(&db, transaction_id).is_err());
}

#[test]
pub fn transaction_update_moves_the_leg_between_budgets() {
    let mut db = Database::new();
    let user_id = seed_user(&mut db);
    let b1 = seed_budget(&mut db, user_id, "b1");
    let b2 = seed_budget(&mut db, user_id, "b2");
    let payee_id = seed_payee(&mut db, user_id);
    let bank_account_id = Id { value: 0xacc };

    let transaction_id = routes::transactions::create(
        &mut db,
        bank_account_id,
        CreateTransactionRequest {
            payee_id,
            amount: Money { minor: 50_000 },
            date: date(2024, 12, 1),
            budget_id: b1,
        },
    )
    .unwrap();

    let before = db::budgets::get_single(&db, b1).unwrap().total_assigned();
    assert_eq!(before, 50_000);

    routes::transactions::update(
        &mut db,
        transaction_id,
        UpdateTransactionRequest {
            amount: Money { minor: 75_000 },
            payee_id,
            budget_id: b2,
            date: date(2024, 12, 2),
        },
    )
    .unwrap();

    let budget1 = db::budgets::get_single(&db, b1).unwrap();
    let budget2 = db::budgets::get_single(&db, b2).unwrap();
    assert_eq!(budget1.assignments.len(), 0);
    assert_eq!(budget1.total_assigned(), before - 50_000);
    assert_eq!(budget2.assignments.len(), 1);
    let leg = budget2.assignments[0];
    assert_eq!(leg.amount, Money { minor: 75_000 });
    assert_eq!(leg.date, date(2024, 12, 2));
    assert_eq!(
        leg.source,
        BudgetAssignmentSource::Transaction { from_transaction_id: transaction_id }
    );

    let fetched = db::transactions::get_single(&db, transaction_id).unwrap();
    assert_eq!(fetched.amount, Money { minor: 75_000 });
    assert_eq!(fetched.budget_id, b2);
    assert_eq!(fetched.date, date(2024, 12, 2));
}

#[test]
pub fn transaction_update_same_budget_rewrites_the_leg_in_place() {
    let mut db = Database::new();
    let user_id = seed_user(&mut db);
    let b1 = seed_budget(&mut db, user_id, "b1");
    let payee_id = seed_payee(&mut db, user_id);

    let transaction_id = routes::transactions::create(
        &mut db,
        Id { value: 0xacc },
        CreateTransactionRequest {
            payee_id,
            amount: Money { minor: 10_000 },
            date: date(2024, 12, 1),
            budget_id: b1,
        },
    )
    .unwrap();
    let original_leg_id = db::budgets::get_single(&db, b1).unwrap().assignments[0].id;

    routes::transactions::update(
        &mut db,
        transaction_id,
        UpdateTransactionRequest {
            amount: Money { minor: 100_000 },
            payee_id,
            budget_id: b1,
            date: date(2024, 12, 2),
        },
    )
    .unwrap();

    let budget = db::budgets::get_single(&db, b1).unwrap();
    assert_eq!(budget.assignments.len(), 1);
    let leg = budget.assignments[0];
    assert_eq!(leg.id, original_leg_id);
    assert_eq!(leg.amount, Money { minor: 100_000 });
    assert_eq!(leg.date, date(2024, 12, 2));
}

#[test]
pub fn budget_update_from_repeating_deletes_the_schedule() {
    let mut db = Database::new();
    let user_id = seed_user(&mut db);

    let budget_id = routes::budgets::create(
        &mut db,
        CreateBudgetRequest {
            name: "b".to_owned(),
            target: Some(CreateBudgetTargetRequest::Repeating {
                target_amount: Money { minor: 12_000 },
                repeating_type: RepeatingTargetType::BuildUpTo,
                schedule: CreateScheduleRequest {
                    period: SchedulePeriod::Weekly { starting_on: date(2024, 10, 13) },
                },
            }),
            user_id,
        },
    )
    .unwrap();

    let budget = db::budgets::get_single(&db, budget_id).unwrap();
    let schedule_id = match budget.target {
        Some(BudgetTarget::Repeating { schedule, .. }) => schedule.id,
        _ => panic!("expected a repeating target"),
    };
    assert!(db::schedule::get_single(&db, schedule_id).is_ok());

    routes::budgets::update(
        &mut db,
        budget_id,
        UpdateBudgetRequest {
            name: "b".to_owned(),
            target: Some(UpdateBudgetTargetRequest::OneTime {
                target_amount: Money { minor: 12_000 },
            }),
        },
    )
    .unwrap();

    let budget = db::budgets::get_single(&db, budget_id).unwrap();
    assert_eq!(budget.target, Some(BudgetTarget::OneTime { target_amount: Money { minor: 12_000 } }));
    assert!(db::schedule::get_single(&db, schedule_id).is_err());
}

#[test]
pub fn budget_update_repeating_keeps_the_schedule_id() {
    let mut db = Database::new();
    let user_id = seed_user(&mut db);

    let budget_id = routes::budgets::create(
        &mut db,
        CreateBudgetRequest {
            name: "b".to_owned(),
            target: Some(CreateBudgetTargetRequest::Repeating {
                target_amount: Money { minor: 12_000 },
                repeating_type: RepeatingTargetType::BuildUpTo,
                schedule: CreateScheduleRequest {
                    period: SchedulePeriod::Weekly { starting_on: date(2024, 10, 13) },
                },
            }),
            user_id,
        },
    )
    .unwrap();

    let budget = db::budgets::get_single(&db, budget_id).unwrap();
    let schedule_id = match budget.target {
        Some(BudgetTarget::Repeating { schedule, .. }) => schedule.id,
        _ => panic!("expected a repeating target"),
    };

    routes::budgets::update(
        &mut db,
        budget_id,
        UpdateBudgetRequest {
            name: "b".to_owned(),
            target: Some(UpdateBudgetTargetRequest::Repeating {
                target_amount: Money { minor: 12_000 },
                repeating_type: RepeatingTargetType::BuildUpTo,
                schedule: UpdateScheduleRequest {
                    period: SchedulePeriod::Monthly { starting_on: date(2024, 10, 14) },
                },
            }),
        },
    )
    .unwrap();

    let schedule = db::schedule::get_single(&db, schedule_id).unwrap();
    assert_eq!(schedule.period, SchedulePeriod::Monthly { starting_on: date(2024, 10, 14) });
    let budget = db::budgets::get_single(&db, budget_id).unwrap();
    match budget.target {
        Some(BudgetTarget::Repeating { schedule: owned, .. }) => {
            assert_eq!(owned.id, schedule_id);
            assert_eq!(owned.period, SchedulePeriod::Monthly { starting_on: date(2024, 10, 14) });
        },
        _ => panic!("expected a repeating target"),
    }
}

#[test]
pub fn budget_update_with_same_target_touches_no_schedule() {
    let mut db = Database::new();
    let user_id = seed_user(&mut db);

    let budget_id = routes::budgets::create(
        &mut db,
        CreateBudgetRequest {
            name: "b".to_owned(),
            target: Some(CreateBudgetTargetRequest::Repeating {
                target_amount: Money { minor: 12_000 },
                repeating_type: RepeatingTargetType::BuildUpTo,
                schedule: CreateScheduleRequest {
                    period: SchedulePeriod::Weekly { starting_on: date(2024, 10, 13) },
                },
            }),
            user_id,
        },
    )
    .unwrap();

    let before = db::budgets::get_single(&db, budget_id).unwrap();
    let schedule_before = match before.target {
        Some(BudgetTarget::Repeating { schedule, .. }) => schedule,
        _ => panic!("expected a repeating target"),
    };
    let schedules_before = db.schedules.len();

    // Request exactly the target the budget already has.
    routes::budgets::update(
        &mut db,
        budget_id,
        UpdateBudgetRequest {
            name: "b".to_owned(),
            target: Some(UpdateBudgetTargetRequest::Repeating {
                target_amount: Money { minor: 12_000 },
                repeating_type: RepeatingTargetType::BuildUpTo,
                schedule: UpdateScheduleRequest {
                    period: SchedulePeriod::Weekly { starting_on: date(2024, 10, 13) },
                },
            }),
        },
    )
    .unwrap();

    // No schedule was created or deleted, and the owned schedule is
    // unchanged under its original id.
    assert_eq!(db.schedules.len(), schedules_before);
    let schedule_after = db::schedule::get_single(&db, schedule_before.id).unwrap();
    assert_eq!(schedule_after, schedule_before);
    let after = db::budgets::get_single(&db, budget_id).unwrap();
    assert_eq!(after.target, before.target);
}

#[test]
pub fn budget_delete_cascades_to_the_schedule() {
    let mut db = Database::new();
    let user_id = seed_user(&mut db);

    let budget_id = routes::budgets::create(
        &mut db,
        CreateBudgetRequest {
            name: "b".to_owned(),
            target: Some(CreateBudgetTargetRequest::Repeating {
                target_amount: Money { minor: 10_000 },
                repeating_type: RepeatingTargetType::BuildUpTo,
                schedule: CreateScheduleRequest {
                    period: SchedulePeriod::Weekly { starting_on: date(2024, 10, 13) },
                },
            }),
            user_id,
        },
    )
    .unwrap();

    let budget = db::budgets::get_single(&db, budget_id).unwrap();
    let schedule_id = match budget.target {
        Some(BudgetTarget::Repeating { schedule, .. }) => schedule.id,
        _ => panic!("expected a repeating target"),
    };

    routes::budgets::delete(&mut db, budget_id).unwrap();

    assert!(db::budgets::get_single(&db, budget_id).is_err());
    assert!(db::schedule::get_single(&db, schedule_id).is_err());
}

#[test]
pub fn budget_create_validation_errors() {
    let mut db = Database::new();
    let user_id = seed_user(&mut db);

    let nil_user = routes::budgets::create(
        &mut db,
        CreateBudgetRequest {
            name: "b".to_owned(),
            target: None,
            user_id: Id { value: 0 },
        },
    );
    assert!(matches!(nil_user, Err(AppError::BadRequest(_))));

    let empty_name = routes::budgets::create(
        &mut db,
        CreateBudgetRequest { name: "".to_owned(), target: None, user_id },
    );
    assert!(matches!(empty_name, Err(AppError::BadRequest(_))));

    let whitespace_name = routes::budgets::create(
        &mut db,
        CreateBudgetRequest { name: "   ".to_owned(), target: None, user_id },
    );
    assert!(matches!(whitespace_name, Err(AppError::BadRequest(_))));

    let unknown_user = routes::budgets::create(
        &mut db,
        CreateBudgetRequest {
            name: "b".to_owned(),
            target: None,
            user_id: Id { value: 0x404 },
        },
    );
    assert!(matches!(unknown_user, Err(AppError::NotFound(_))));

    let unknown_budget = routes::budgets::update(
        &mut db,
        Id { value: 0x404 },
        UpdateBudgetRequest { name: "b".to_owned(), target: None },
    );
    assert!(matches!(unknown_budget, Err(AppError::NotFound(_))));
}

#[test]
pub fn user_create_validates_the_email() {
    let mut db = Database::new();

    let bad = routes::users::create(
        &mut db,
        CreateUserRequest { name: "name".to_owned(), email: "not an address".to_owned() },
    );
    assert!(matches!(bad, Err(AppError::BadRequest(_))));

    let blank_name = routes::users::create(
        &mut db,
        CreateUserRequest { name: " \t ".to_owned(), email: "email@email.com".to_owned() },
    );
    assert!(matches!(blank_name, Err(AppError::BadRequest(_))));

    let good = routes::users::create(
        &mut db,
        CreateUserRequest { name: "name".to_owned(), email: "email@email.com".to_owned() },
    );
    let id = good.unwrap();
    assert_ne!(id, Id { value: 0 });
    let user = routes::users::get_single(&db, id).unwrap();
    assert_eq!(user.email, "email@email.com");
}

#[test]
pub fn names_are_stored_trimmed_on_create() {
    let mut db = Database::new();

    // The address is validated before trimming, as given; a padded address
    // does not parse and is rejected outright.
    let padded_email = routes::users::create(
        &mut db,
        CreateUserRequest {
            name: "demo user".to_owned(),
            email: " demo@example.com ".to_owned(),
        },
    );
    assert!(matches!(padded_email, Err(AppError::BadRequest(_))));

    let user_id = routes::users::create(
        &mut db,
        CreateUserRequest {
            name: "  demo user  ".to_owned(),
            email: "demo@example.com".to_owned(),
        },
    )
    .unwrap();
    let user = routes::users::get_single(&db, user_id).unwrap();
    assert_eq!(user.name, "demo user");
    assert_eq!(user.email, "demo@example.com");

    let budget_id = routes::budgets::create(
        &mut db,
        CreateBudgetRequest { name: "  groceries ".to_owned(), target: None, user_id },
    )
    .unwrap();
    let budget = db::budgets::get_single(&db, budget_id).unwrap();
    assert_eq!(budget.name, "groceries");
}

#[test]
pub fn user_update_drives_the_pay_schedule_lifecycle() {
    let mut db = Database::new();
    let user_id = seed_user(&mut db);

    routes::users::update(
        &mut db,
        user_id,
        budgeting_backend::models::UpdateUserRequest {
            name: "newName".to_owned(),
            pay_frequency: Some(UpdateScheduleRequest {
                period: SchedulePeriod::Weekly { starting_on: date(2024, 11, 26) },
            }),
        },
    )
    .unwrap();

    let user = routes::users::get_single(&db, user_id).unwrap();
    let schedule = user.pay_frequency.expect("expected a pay schedule");
    assert_eq!(schedule.period, SchedulePeriod::Weekly { starting_on: date(2024, 11, 26) });
    assert!(db::schedule::get_single(&db, schedule.id).is_ok());

    routes::users::update(
        &mut db,
        user_id,
        budgeting_backend::models::UpdateUserRequest {
            name: "newName".to_owned(),
            pay_frequency: None,
        },
    )
    .unwrap();

    let user = routes::users::get_single(&db, user_id).unwrap();
    assert!(user.pay_frequency.is_none());
    assert!(db::schedule::get_single(&db, schedule.id).is_err());
}

#[test]
pub fn transaction_create_validation_errors() {
    let mut db = Database::new();
    let user_id = seed_user(&mut db);
    let bg = seed_budget(&mut db, user_id, "bg");
    let payee_id = seed_payee(&mut db, user_id);

    let nil_payee = routes::transactions::create(
        &mut db,
        Id { value: 0xacc },
        CreateTransactionRequest {
            payee_id: Id { value: 0 },
            amount: Money { minor: 0 },
            date: date(2024, 12, 1),
            budget_id: bg,
        },
    );
    assert!(matches!(nil_payee, Err(AppError::BadRequest(_))));

    let missing_budget = routes::transactions::create(
        &mut db,
        Id { value: 0xacc },
        CreateTransactionRequest {
            payee_id,
            amount: Money { minor: 0 },
            date: date(2024, 12, 1),
            budget_id: Id { value: 0x404 },
        },
    );
    assert!(matches!(missing_budget, Err(AppError::NotFound(_))));

    let missing_payee = routes::transactions::create(
        &mut db,
        Id { value: 0xacc },
        CreateTransactionRequest {
            payee_id: Id { value: 0x404 },
            amount: Money { minor: 0 },
            date: date(2024, 12, 1),
            budget_id: bg,
        },
    );
    assert!(matches!(missing_payee, Err(AppError::NotFound(_))));
}

#[test]
pub fn transfer_amount_out_of_range_is_rejected() {
    let mut db = Database::new();
    let user_id = seed_user(&mut db);
    let b1 = seed_budget(&mut db, user_id, "b1");
    let b2 = seed_budget(&mut db, user_id, "b2");

    let result = routes::budgets::transfer_between(
        &mut db,
        b1,
        b2,
        TransferBudgetRequest { amount: Money { minor: i64::MIN }, date: date(2024, 11, 30) },
    );
    assert!(matches!(result, Err(AppError::BadRequest(_))));
}
