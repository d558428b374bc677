//! Tests of the pure ledger rules and the budget response mapping.

use budgeting_backend::models::{
    Budget, BudgetAssignment, BudgetAssignmentSource, BudgetTarget, Date, GetBudgetResponse, Id,
    Money, Transaction,
};

fn date(year: i32, month: u8, day: u8) -> Date {
    Date { year, month, day }
}

const BUDGET_ID: Id = Id { value: 0xb1 };
const USER_ID: Id = Id { value: 0xa1 };

#[test]
pub fn into_get_budget_response__no_assignments() {
    let budget = Budget {
        id: BUDGET_ID,
        name: "name".to_owned(),
        user_id: USER_ID,
        target: Some(BudgetTarget::OneTime { target_amount: Money { minor: 0 } }),
        assignments: vec![],
    };

    let expected = GetBudgetResponse {
        id: BUDGET_ID,
        name: "name".to_owned(),
        user_id: USER_ID,
        target: Some(BudgetTarget::OneTime { target_amount: Money { minor: 0 } }),
        assignments: vec![],
        total_assigned: 0,
    };

    let mapped: GetBudgetResponse = budget.into();

    assert_eq!(mapped, expected);
}

#[test]
pub fn into_get_budget_response__one_assignment() {
    let assignment_id = Id { value: 0xc1 };
    let link_id = Id { value: 0xd1 };
    let budget = Budget {
        id: BUDGET_ID,
        name: "name".to_owned(),
        user_id: USER_ID,
        target: Some(BudgetTarget::OneTime { target_amount: Money { minor: 0 } }),
        assignments: vec![BudgetAssignment {
            id: assignment_id,
            amount: Money { minor: 100_000 },
            date: date(2024, 11, 30),
            source: BudgetAssignmentSource::OtherBudget { from_budget_id: BUDGET_ID, link_id },
        }],
    };

    let expected = GetBudgetResponse {
        id: BUDGET_ID,
        name: "name".to_owned(),
        user_id: USER_ID,
        target: Some(BudgetTarget::OneTime { target_amount: Money { minor: 0 } }),
        assignments: vec![BudgetAssignment {
            id: assignment_id,
            amount: Money { minor: 100_000 },
            date: date(2024, 11, 30),
            source: BudgetAssignmentSource::OtherBudget { from_budget_id: BUDGET_ID, link_id },
        }],
        total_assigned: 100_000,
    };

    let mapped: GetBudgetResponse = budget.into();

    assert_eq!(mapped, expected);
}

#[test]
pub fn into_get_budget_response__multiple_assignments() {
    let assignment_id1 = Id { value: 0xc1 };
    let assignment_id2 = Id { value: 0xc2 };
    let link_id = Id { value: 0xd1 };
    let budget = Budget {
        id: BUDGET_ID,
        name: "name".to_owned(),
        user_id: USER_ID,
        target: Some(BudgetTarget::OneTime { target_amount: Money { minor: 0 } }),
        assignments: vec![
            BudgetAssignment {
                id: assignment_id1,
                amount: Money { minor: 100_000 },
                date: date(2024, 11, 30),
                source: BudgetAssignmentSource::OtherBudget {
                    from_budget_id: BUDGET_ID,
                    link_id,
                },
            },
            BudgetAssignment {
                id: assignment_id2,
                amount: Money { minor: -500_000 },
                date: date(2024, 11, 30),
                source: BudgetAssignmentSource::OtherBudget {
                    from_budget_id: BUDGET_ID,
                    link_id,
                },
            },
        ],
    };

    let expected = GetBudgetResponse {
        id: BUDGET_ID,
        name: "name".to_owned(),
        user_id: USER_ID,
        target: Some(BudgetTarget::OneTime { target_amount: Money { minor: 0 } }),
        assignments: vec![
            BudgetAssignment {
                id: assignment_id1,
                amount: Money { minor: 100_000 },
                date: date(2024, 11, 30),
                source: BudgetAssignmentSource::OtherBudget {
                    from_budget_id: BUDGET_ID,
                    link_id,
                },
            },
            BudgetAssignment {
                id: assignment_id2,
                amount: Money { minor: -500_000 },
                date: date(2024, 11, 30),
                source: BudgetAssignmentSource::OtherBudget {
                    from_budget_id: BUDGET_ID,
                    link_id,
                },
            },
        ],
        total_assigned: -400_000,
    };

    let mapped: GetBudgetResponse = budget.into();

    assert_eq!(mapped, expected);
}

#[test]
pub fn total_assigned_sums_all_legs() {
    let mut budget = Budget {
        id: BUDGET_ID,
        name: "b".to_owned(),
        user_id: USER_ID,
        target: None,
        assignments: vec![],
    };
    assert_eq!(budget.total_assigned(), 0);

    for (i, minor) in [101_500i64, -2_500, 1].into_iter().enumerate() {
        budget.assignments.push(BudgetAssignment {
            id: Id { value: 0x100 + i as u128 },
            amount: Money { minor },
            date: date(2025, 1, 1),
            source: BudgetAssignmentSource::Transaction {
                from_transaction_id: Id { value: 0x200 + i as u128 },
            },
        });
    }
    assert_eq!(budget.total_assigned(), 99_001);
}

#[test]
pub fn move_between_budgets_creates_balanced_pair() {
    let mut from = Budget {
        id: Id { value: 1 },
        name: "from".to_owned(),
        user_id: USER_ID,
        target: None,
        assignments: vec![],
    };
    let mut to = Budget {
        id: Id { value: 2 },
        name: "to".to_owned(),
        user_id: USER_ID,
        target: None,
        assignments: vec![],
    };

    Budget::move_between_budgets(&mut from, &mut to, Money { minor: 123_400 }, date(2024, 11, 30));

    assert_eq!(from.assignments.len(), 1);
    assert_eq!(to.assignments.len(), 1);
    let from_leg = from.assignments[0];
    let to_leg = to.assignments[0];
    assert_eq!(from_leg.amount, Money { minor: -123_400 });
    assert_eq!(to_leg.amount, Money { minor: 123_400 });
    let (from_source, from_link) = match from_leg.source {
        BudgetAssignmentSource::OtherBudget { from_budget_id, link_id } => (from_budget_id, link_id),
        _ => panic!("expected a transfer leg"),
    };
    let (to_source, to_link) = match to_leg.source {
        BudgetAssignmentSource::OtherBudget { from_budget_id, link_id } => (from_budget_id, link_id),
        _ => panic!("expected a transfer leg"),
    };
    assert_eq!(from_source, Id { value: 2 });
    assert_eq!(to_source, Id { value: 1 });
    assert_eq!(from_link, to_link);
    assert_eq!(from.total_assigned() + to.total_assigned(), 0);
}

#[test]
pub fn assign_from_transaction_appends_one_mirroring_leg() {
    let mut budget = Budget {
        id: BUDGET_ID,
        name: "b".to_owned(),
        user_id: USER_ID,
        target: None,
        assignments: vec![],
    };
    let transaction = Transaction {
        id: Id { value: 0x900 },
        payee_id: Id { value: 0x901 },
        date: date(2024, 12, 2),
        amount: Money { minor: 101_500 },
        bank_account_id: Id { value: 0x902 },
        budget_id: BUDGET_ID,
    };
    budget.assign_from_transaction(&transaction);
    assert_eq!(budget.assignments.len(), 1);
    let leg = budget.assignments[0];
    assert_eq!(leg.amount, Money { minor: 101_500 });
    assert_eq!(leg.date, date(2024, 12, 2));
    assert_eq!(
        leg.source,
        BudgetAssignmentSource::Transaction { from_transaction_id: Id { value: 0x900 } }
    );
}
