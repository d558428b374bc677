//! Round-trip tests for the storage-boundary row mappings.

use budgeting_backend::db::budgets::{BudgetAssignmentDbModel, BudgetAssignmentType, BudgetDbModel};
use budgeting_backend::db::schedule::ScheduleDbModel;
use budgeting_backend::models::{
    Budget, BudgetAssignment, BudgetAssignmentSource, BudgetTarget, Date, Id, Money,
    RepeatingTargetType, Schedule, SchedulePeriod, SchedulePeriodType,
};

fn date(year: i32, month: u8, day: u8) -> Date {
    Date { year, month, day }
}

#[test]
pub fn db_model_to_domain_budget() {
    let id = Id { value: 0x10 };
    let user_id = Id { value: 0x20 };
    let amount = Money { minor: 101_000 };
    let schedule_id = Id { value: 0x30 };
    let assignment_id1 = Id { value: 0x41 };
    let assignment_id2 = Id { value: 0x42 };
    let assignment_amount = Money { minor: 152_000 };
    let from_budget_id = Id { value: 0x50 };
    let from_transaction_id = Id { value: 0x60 };

    let default_assignment = BudgetAssignment {
        id: assignment_id1,
        amount: assignment_amount,
        date: date(2024, 11, 28),
        source: BudgetAssignmentSource::Transaction { from_transaction_id },
    };

    let link_id = Id { value: 0x70 };

    let no_target = BudgetDbModel {
        id,
        user_id,
        name: "hi".to_owned(),
        target_type: None,
        repeating_target_type: None,
        target_amount: None,
        target_schedule_id: None,
        assignments: vec![
            BudgetAssignmentDbModel {
                id: assignment_id1,
                amount: assignment_amount,
                budget_id: id,
                date: date(2024, 11, 28),
                assignment_type: BudgetAssignmentType::FromTransaction.to_string(),
                from_budget_id: None,
                from_transaction_id: Some(from_transaction_id),
                link_id: None,
            },
            BudgetAssignmentDbModel {
                id: assignment_id2,
                amount: assignment_amount,
                budget_id: id,
                date: date(2024, 11, 28),
                assignment_type: BudgetAssignmentType::MoveBetweenBudgets.to_string(),
                from_budget_id: Some(from_budget_id),
                from_transaction_id: None,
                link_id: Some(link_id),
            },
        ],
    };

    let one_time_target = BudgetDbModel {
        target_type: Some("OneTime".to_owned()),
        target_amount: Some(amount),
        ..no_target.clone()
    };

    let repeating_target = BudgetDbModel {
        target_type: Some("Repeating".to_owned()),
        target_amount: Some(amount),
        repeating_target_type: Some(RepeatingTargetType::BuildUpTo.to_string()),
        target_schedule_id: Some(schedule_id),
        ..no_target.clone()
    };

    let default_budget = Budget {
        id,
        name: "hi".to_owned(),
        target: None,
        user_id,
        assignments: vec![
            default_assignment.clone(),
            BudgetAssignment {
                source: BudgetAssignmentSource::OtherBudget { from_budget_id, link_id },
                id: assignment_id2,
                ..default_assignment.clone()
            },
        ],
    };

    let schedule = Schedule {
        id: schedule_id,
        period: SchedulePeriod::Weekly { starting_on: date(2024, 9, 28) },
    };

    let pairs = [
        (
            (no_target.clone(), None),
            Budget { target: None, ..default_budget.clone() },
        ),
        (
            (one_time_target.clone(), None),
            Budget {
                target: Some(BudgetTarget::OneTime { target_amount: amount }),
                ..default_budget.clone()
            },
        ),
        (
            (
                BudgetDbModel {
                    repeating_target_type: Some("BuildUpTo".to_owned()),
                    ..repeating_target.clone()
                },
                Some(schedule),
            ),
            Budget {
                target: Some(BudgetTarget::Repeating {
                    target_amount: amount,
                    repeating_type: RepeatingTargetType::BuildUpTo,
                    schedule,
                }),
                ..default_budget.clone()
            },
        ),
        (
            (
                BudgetDbModel {
                    repeating_target_type: Some("RequireRepeating".to_owned()),
                    ..repeating_target.clone()
                },
                Some(schedule),
            ),
            Budget {
                target: Some(BudgetTarget::Repeating {
                    target_amount: amount,
                    repeating_type: RepeatingTargetType::RequireRepeating,
                    schedule,
                }),
                ..default_budget.clone()
            },
        ),
    ];

    for ((db_model, maybe_schedule), expected_budget) in pairs {
        let result = db_model.clone().try_into_budget(maybe_schedule).unwrap();

        assert_eq!(result, expected_budget);

        let mapped_db_model = BudgetDbModel::from_budget(expected_budget);
        assert_eq!(mapped_db_model, db_model);
    }
}

#[test]
pub fn test_mapping_success() {
    let id = Id { value: 0x99 };
    let started_on = date(2024, 9, 27);
    let non_custom_db_model = ScheduleDbModel {
        id,
        period_type: "Weekly".to_owned(),
        period_starting_on: Some(started_on),
        custom_period_type: None,
        custom_period_every_count: None,
    };
    let custom_db_model = ScheduleDbModel {
        id,
        period_type: "Custom".to_owned(),
        period_starting_on: None,
        custom_period_type: Some("Weekly".to_owned()),
        custom_period_every_count: Some(1),
    };
    let pairs = vec![
        (
            Schedule { id, period: SchedulePeriod::Weekly { starting_on: started_on } },
            ScheduleDbModel { period_type: "Weekly".to_owned(), ..non_custom_db_model.clone() },
        ),
        (
            Schedule { id, period: SchedulePeriod::Fortnightly { starting_on: started_on } },
            ScheduleDbModel {
                period_type: "Fortnightly".to_owned(),
                ..non_custom_db_model.clone()
            },
        ),
        (
            Schedule { id, period: SchedulePeriod::Monthly { starting_on: started_on } },
            ScheduleDbModel { period_type: "Monthly".to_owned(), ..non_custom_db_model.clone() },
        ),
        (
            Schedule { id, period: SchedulePeriod::Yearly { starting_on: started_on } },
            ScheduleDbModel { period_type: "Yearly".to_owned(), ..non_custom_db_model.clone() },
        ),
        (
            Schedule {
                id,
                period: SchedulePeriod::Custom {
                    period: SchedulePeriodType::Weekly,
                    every_x_periods: 1,
                },
            },
            ScheduleDbModel {
                custom_period_type: Some("Weekly".to_owned()),
                ..custom_db_model.clone()
            },
        ),
        (
            Schedule {
                id,
                period: SchedulePeriod::Custom {
                    period: SchedulePeriodType::Fortnightly,
                    every_x_periods: 1,
                },
            },
            ScheduleDbModel {
                custom_period_type: Some("Fortnightly".to_owned()),
                ..custom_db_model.clone()
            },
        ),
        (
            Schedule {
                id,
                period: SchedulePeriod::Custom {
                    period: SchedulePeriodType::Monthly,
                    every_x_periods: 1,
                },
            },
            ScheduleDbModel {
                custom_period_type: Some("Monthly".to_owned()),
                ..custom_db_model.clone()
            },
        ),
        (
            Schedule {
                id,
                period: SchedulePeriod::Custom {
                    period: SchedulePeriodType::Yearly,
                    every_x_periods: 1,
                },
            },
            ScheduleDbModel {
                custom_period_type: Some("Yearly".to_owned()),
                ..custom_db_model.clone()
            },
        ),
    ];

    for (domain, db_model) in pairs {
        let mapped_domain = ScheduleDbModel::from_schedule(domain);
        assert_eq!(mapped_domain, db_model);

        let mapped_db_model = db_model.try_into_schedule();
        match mapped_db_model {
            Ok(mapped_db_model) => assert_eq!(mapped_db_model, domain),
            Err(e) => panic!("{}", e),
        }
    }
}

#[test]
pub fn test_mapping_failures() {
    let id = Id { value: 0x77 };
    let started_on = date(2024, 9, 27);
    let non_custom_db_model = ScheduleDbModel {
        id,
        period_type: "Weekly".to_owned(),
        period_starting_on: Some(started_on),
        custom_period_type: None,
        custom_period_every_count: None,
    };
    let custom_db_model = ScheduleDbModel {
        id,
        period_type: "Custom".to_owned(),
        period_starting_on: None,
        custom_period_type: Some("Weekly".to_owned()),
        custom_period_every_count: Some(1),
    };
    let invalid_period_type = ScheduleDbModel {
        period_type: "aoeu".to_owned(),
        ..non_custom_db_model.clone()
    }
    .try_into_schedule();
    assert!(invalid_period_type.is_err());
    let missing_custom_type = ScheduleDbModel {
        custom_period_type: None,
        ..custom_db_model.clone()
    }
    .try_into_schedule();
    assert!(missing_custom_type.is_err());
    let invalid_custom_type = ScheduleDbModel {
        custom_period_type: Some("aoeu".to_owned()),
        ..custom_db_model.clone()
    }
    .try_into_schedule();
    assert!(invalid_custom_type.is_err());
    let missing_custom_every_count = ScheduleDbModel {
        custom_period_every_count: None,
        ..custom_db_model.clone()
    }
    .try_into_schedule();
    assert!(missing_custom_every_count.is_err());
}

#[test]
pub fn assignment_row_requires_its_columns() {
    let row = BudgetAssignmentDbModel {
        budget_id: Id { value: 1 },
        id: Id { value: 2 },
        amount: Money { minor: 5_000 },
        date: date(2024, 12, 1),
        assignment_type: "FromTransaction".to_owned(),
        from_budget_id: None,
        link_id: None,
        from_transaction_id: None,
    };
    assert!(row.try_into_assignment().is_err());

    let row = BudgetAssignmentDbModel {
        budget_id: Id { value: 1 },
        id: Id { value: 2 },
        amount: Money { minor: 5_000 },
        date: date(2024, 12, 1),
        assignment_type: "MoveBetweenBudgets".to_owned(),
        from_budget_id: Some(Id { value: 3 }),
        link_id: None,
        from_transaction_id: None,
    };
    assert!(row.try_into_assignment().is_err());

    let row = BudgetAssignmentDbModel {
        budget_id: Id { value: 1 },
        id: Id { value: 2 },
        amount: Money { minor: 5_000 },
        date: date(2024, 12, 1),
        assignment_type: "SomethingElse".to_owned(),
        from_budget_id: Some(Id { value: 3 }),
        link_id: Some(Id { value: 4 }),
        from_transaction_id: None,
    };
    assert!(row.try_into_assignment().is_err());
}

#[test]
pub fn discriminants_round_trip() {
    assert_eq!(
        BudgetAssignmentType::from_str("MoveBetweenBudgets").unwrap(),
        BudgetAssignmentType::MoveBetweenBudgets
    );
    assert_eq!(
        BudgetAssignmentType::from_str("FromTransaction").unwrap(),
        BudgetAssignmentType::FromTransaction
    );
    assert!(BudgetAssignmentType::from_str("nope").is_err());
    assert_eq!(RepeatingTargetType::from_str("BuildUpTo").unwrap(), RepeatingTargetType::BuildUpTo);
    assert_eq!(
        RepeatingTargetType::from_str("RequireRepeating").unwrap(),
        RepeatingTargetType::RequireRepeating
    );
    assert!(RepeatingTargetType::from_str("zzz").is_err());
    assert_eq!(SchedulePeriodType::from_str("Monthly").unwrap(), SchedulePeriodType::Monthly);
    assert!(SchedulePeriodType::from_str("Daily").is_err());
    assert_eq!(RepeatingTargetType::BuildUpTo.to_string(), "BuildUpTo");
    assert_eq!(SchedulePeriodType::Yearly.to_string(), "Yearly");
    assert_eq!(
        SchedulePeriod::Custom { period: SchedulePeriodType::Weekly, every_x_periods: 2 }
            .to_string(),
        "Custom"
    );
    assert_eq!(
        BudgetTarget::OneTime { target_amount: Money { minor: 0 } }.to_string(),
        "OneTime"
    );
}
