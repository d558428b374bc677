//! Tests of the store modules: primary keys, lookups, assembly from rows,
//! and the derived bank-account balance.

use budgeting_backend::db;
use budgeting_backend::db::budgets::{get_budgets_from_db_models, BudgetDbModel};
use budgeting_backend::db::Database;
use budgeting_backend::db::Error;
use budgeting_backend::models::{
    Budget, CreateBankAccountRequest, CreatePayeeRequest, CreateTransactionRequest, Date, Id,
    Money, Schedule, SchedulePeriod, UpdateBankAccountRequest, UpdatePayeeRequest, User,
};
use budgeting_backend::AppError;

fn date(year: i32, month: u8, day: u8) -> Date {
    Date { year, month, day }
}

#[test]
pub fn duplicate_primary_keys_are_rejected() {
    let mut db = Database::new();
    let budget = Budget {
        id: Id { value: 7 },
        name: "b".to_owned(),
        user_id: Id { value: 8 },
        target: None,
        assignments: vec![],
    };
    db::budgets::create(&mut db, budget).unwrap();
    let dup = Budget {
        id: Id { value: 7 },
        name: "other".to_owned(),
        user_id: Id { value: 8 },
        target: None,
        assignments: vec![],
    };
    assert!(db::budgets::create(&mut db, dup).is_err());
    assert_eq!(db.budgets.len(), 1);

    let schedule = Schedule {
        id: Id { value: 9 },
        period: SchedulePeriod::Weekly { starting_on: date(2024, 9, 27) },
    };
    db::schedule::create(&mut db, schedule).unwrap();
    assert!(db::schedule::create(&mut db, schedule).is_err());

    let user = User {
        id: Id { value: 10 },
        name: "u".to_owned(),
        email: "email@email.com".to_owned(),
        pay_frequency: None,
    };
    db::users::create(&mut db, user).unwrap();
    let dup_user = User {
        id: Id { value: 10 },
        name: "v".to_owned(),
        email: "other@email.com".to_owned(),
        pay_frequency: None,
    };
    assert!(db::users::create(&mut db, dup_user).is_err());
}

#[test]
pub fn schedule_store_update_and_delete() {
    let mut db = Database::new();
    let id = Id { value: 3 };
    db::schedule::create(
        &mut db,
        Schedule { id, period: SchedulePeriod::Weekly { starting_on: date(2024, 9, 27) } },
    )
    .unwrap();

    let updated = Schedule {
        id,
        period: SchedulePeriod::Custom {
            period: budgeting_backend::models::SchedulePeriodType::Monthly,
            every_x_periods: 4,
        },
    };
    db::schedule::update(&mut db, updated).unwrap();
    assert_eq!(db::schedule::get_single(&db, id).unwrap(), updated);

    db::schedule::delete(&mut db, id).unwrap();
    assert!(db::schedule::get_single(&db, id).is_err());
}

#[test]
pub fn budgets_get_by_ids_returns_matching_rows() {
    let mut db = Database::new();
    for v in 1u128..=3 {
        db::budgets::create(
            &mut db,
            Budget {
                id: Id { value: v },
                name: "b".to_owned(),
                user_id: Id { value: 100 },
                target: None,
                assignments: vec![],
            },
        )
        .unwrap();
    }
    let ids = vec![Id { value: 1 }, Id { value: 3 }, Id { value: 9 }];
    let found = db::budgets::get_by_ids(&db, &ids).unwrap();
    assert_eq!(found.len(), 2);
    assert_eq!(found[0].id, Id { value: 1 });
    assert_eq!(found[1].id, Id { value: 3 });

    let none = db::budgets::get_by_ids(&db, &vec![]).unwrap();
    assert!(none.is_empty());
}

#[test]
pub fn assemble_budgets_from_rows() {
    let schedule = Schedule {
        id: Id { value: 0x5c4ed },
        period: SchedulePeriod::Weekly { starting_on: date(2024, 9, 28) },
    };
    let budget = Budget {
        id: Id { value: 0xb },
        name: "b".to_owned(),
        user_id: Id { value: 0xa },
        target: Some(budgeting_backend::models::BudgetTarget::Repeating {
            target_amount: Money { minor: 10_000 },
            repeating_type: budgeting_backend::models::RepeatingTargetType::RequireRepeating,
            schedule,
        }),
        assignments: vec![],
    };
    let row = BudgetDbModel::from_budget(budget);
    let schedules = vec![schedule];
    let assembled = get_budgets_from_db_models(vec![row], &schedules).unwrap();
    assert_eq!(assembled.len(), 1);
    assert_eq!(assembled[0].id, Id { value: 0xb });
    match &assembled[0].target {
        Some(budgeting_backend::models::BudgetTarget::Repeating { schedule: owned, .. }) => {
            assert_eq!(*owned, schedule);
        },
        _ => panic!("expected a repeating target"),
    }

    // A repeating row whose schedule does not resolve is a mapping failure.
    let unresolved = BudgetDbModel::from_budget(Budget {
        id: Id { value: 0xc },
        name: "c".to_owned(),
        user_id: Id { value: 0xa },
        target: Some(budgeting_backend::models::BudgetTarget::Repeating {
            target_amount: Money { minor: 10_000 },
            repeating_type: budgeting_backend::models::RepeatingTargetType::BuildUpTo,
            schedule,
        }),
        assignments: vec![],
    });
    let missing = get_budgets_from_db_models(vec![unresolved], &vec![]);
    assert!(matches!(missing, Err(db::Error::MappingError { .. })));
}

#[test]
pub fn bank_account_balance_is_derived_from_transactions() {
    let mut db = Database::new();
    let account_id = Id { value: 0xacc };
    db::bank_accounts::create(
        &mut db,
        account_id,
        CreateBankAccountRequest {
            name: "acct".to_owned(),
            initial_amount: Money { minor: 50_000 },
            user_id: Id { value: 1 },
        },
    )
    .unwrap();

    db::transactions::create(
        &mut db,
        Id { value: 0x71 },
        account_id,
        CreateTransactionRequest {
            payee_id: Id { value: 2 },
            amount: Money { minor: 101_500 },
            date: date(2024, 12, 1),
            budget_id: Id { value: 3 },
        },
    )
    .unwrap();
    db::transactions::create(
        &mut db,
        Id { value: 0x72 },
        account_id,
        CreateTransactionRequest {
            payee_id: Id { value: 2 },
            amount: Money { minor: -1_500 },
            date: date(2024, 12, 2),
            budget_id: Id { value: 3 },
        },
    )
    .unwrap();
    db::transactions::create(
        &mut db,
        Id { value: 0x73 },
        Id { value: 0xeee },
        CreateTransactionRequest {
            payee_id: Id { value: 2 },
            amount: Money { minor: 999_999 },
            date: date(2024, 12, 2),
            budget_id: Id { value: 3 },
        },
    )
    .unwrap();

    let account = db::bank_accounts::get_single(&db, account_id).unwrap();
    assert_eq!(account.balance, 150_000);
    assert_eq!(account.initial_amount, Money { minor: 50_000 });

    let listed = db::transactions::get(&db, account_id).unwrap();
    assert_eq!(listed.len(), 2);
}

#[test]
pub fn error_classification_for_the_request_layer() {
    let not_found = Error::NotFound.to_app_error("missing".to_owned());
    assert!(matches!(not_found, AppError::NotFound(m) if m == "missing"));

    let unknown = Error::Unknown { error: "boom".to_owned() }.to_app_error("ctx".to_owned());
    assert!(matches!(unknown, AppError::InternalServerError(m) if m == "ctx"));

    let mapping = Error::MappingError { error: "bad row".to_owned() }.to_app_error(
        "ctx".to_owned(),
    );
    assert!(matches!(mapping, AppError::InternalServerError(m) if m == "bad row"));
}

#[test]
pub fn payee_update_and_delete() {
    let mut db = Database::new();
    let id = Id { value: 0x5 };
    db::payees::create(
        &mut db,
        id,
        CreatePayeeRequest { name: "old".to_owned(), user_id: Id { value: 1 } },
    )
    .unwrap();

    db::payees::update(&mut db, id, UpdatePayeeRequest { name: "new".to_owned() }).unwrap();
    let fetched = db::payees::get_single(&db, id).unwrap();
    assert_eq!(fetched.name, "new");
    assert_eq!(fetched.user_id, Id { value: 1 });

    db::payees::delete(&mut db, id).unwrap();
    assert!(db::payees::get_single(&db, id).is_err());
}

#[test]
pub fn bank_account_update_and_delete() {
    let mut db = Database::new();
    let id = Id { value: 0x6 };
    db::bank_accounts::create(
        &mut db,
        id,
        CreateBankAccountRequest {
            name: "old".to_owned(),
            initial_amount: Money { minor: 10_000 },
            user_id: Id { value: 1 },
        },
    )
    .unwrap();

    db::bank_accounts::update(&mut db, id, UpdateBankAccountRequest { name: "new".to_owned() })
        .unwrap();
    let fetched = db::bank_accounts::get_single(&db, id).unwrap();
    assert_eq!(fetched.name, "new");
    assert_eq!(fetched.initial_amount, Money { minor: 10_000 });
    assert_eq!(fetched.balance, 10_000);

    db::bank_accounts::delete(&mut db, id).unwrap();
    assert!(db::bank_accounts::get_single(&db, id).is_err());
}
