//! Budget store: single-aggregate operations on the budgets table.

use vstd::prelude::*;

use crate::db::{first_budget_index, has_budget_id, is_tx_leg, Database, Error};
use crate::models::{
    parse_repeating_type, repeating_type_name, str_eq, Budget, BudgetAssignment,
    BudgetAssignmentSource, BudgetTarget, BudgetView, Date, Id, Money, Schedule,
};

verus! {

/// Some leg of `b` mirrors transaction `tid`.
pub open spec fn has_tx_leg(b: BudgetView, tid: Id) -> bool {
    exists|j: int| 0 <= j < b.assignments.len() && is_tx_leg(#[trigger] b.assignments[j], tid)
}

/// `hi` is the first position in `bs` of a budget holding a leg that
/// mirrors transaction `tid`.
pub open spec fn first_holder_index(bs: Seq<BudgetView>, tid: Id, hi: int) -> bool {
    &&& 0 <= hi < bs.len()
    &&& has_tx_leg(bs[hi], tid)
    &&& forall|k: int| 0 <= k < hi ==> !has_tx_leg(#[trigger] bs[k], tid)
}

/// The index of the first budget with id `id`, if any.
fn find_index(budgets: &Vec<Budget>, id: Id) -> (r: Option<usize>)
    ensures
        match r {
            Some(i) => i < budgets@.len() && budgets.deep_view()[i as int].id == id && forall|k: int|
                0 <= k < i ==> (#[trigger] budgets.deep_view()[k]).id != id,
            None => !has_budget_id(budgets.deep_view(), id),
        },
{
    let ghost bs = budgets.deep_view();
    let n = budgets.len();
    let mut i: usize = 0;
    while i < n
        invariant
            i <= n,
            n == budgets@.len(),
            bs == budgets.deep_view(),
            forall|k: int| 0 <= k < i ==> (#[trigger] bs[k]).id != id,
        decreases n - i,
    {
        if budgets[i].id.value == id.value {
            return Some(i);
        }
        i = i + 1;
    }
    None
}

/// Inserts a budget aggregate. The engine enforces the primary key, so an
/// insert under an id already present fails without changing anything.
pub fn create(db: &mut Database, budget: Budget) -> (r: Result<(), Error>)
    ensures
        r is Ok <==> !has_budget_id(old(db).budgets_view(), budget.id),
        r is Ok ==> final(db).budgets_view() == old(db).budgets_view().push(budget@),
        r is Err ==> final(db).budgets_view() == old(db).budgets_view(),
        r matches Err(e) ==> e is Unknown,
        final(db).schedules@ == old(db).schedules@,
        final(db).transactions@ == old(db).transactions@,
        final(db).users_view() == old(db).users_view(),
        final(db).payees@ == old(db).payees@,
        final(db).bank_accounts@ == old(db).bank_accounts@,
    {
    match find_index(&db.budgets, budget.id) {
        Some(_) => Err(Error::Unknown { error: duplicate_row_message() }),
        None => {
            db.budgets.push(budget);
            proof {
                assert(db.budgets_view() =~= old(db).budgets_view().push(budget@));
            }
            Ok(())
        },
    }
}

/// Point lookup of one budget aggregate by id.
pub fn get_single(db: &Database, id: Id) -> (r: Result<Budget, Error>)
    ensures
        r is Ok <==> has_budget_id(db.budgets_view(), id),
        r matches Ok(b) ==> exists|i: int|
            #[trigger] first_budget_index(db.budgets_view(), id, i) && db.budgets_view()[i] == b@
                && b@.id == id,
        r matches Err(e) ==> e is NotFound,
{
    match find_index(&db.budgets, id) {
        Some(i) => {
            let b = db.budgets[i].clone();
            proof {
                assert(db.budgets_view()[i as int] == b@);
                assert(first_budget_index(db.budgets_view(), id, i as int));
            }
            Ok(b)
        },
        None => Err(Error::NotFound),
    }
}

/// All budgets of one user, in table order.
pub fn get(db: &Database, user_id: Id) -> (r: Result<Vec<Budget>, Error>)
    ensures
        r matches Ok(v) ==> v.deep_view() == db.budgets_view().filter(
            |b: BudgetView| b.user_id == user_id,
        ),
        r is Ok,
{
    let ghost bs = db.budgets.deep_view();
    let ghost pred = |b: BudgetView| b.user_id == user_id;
    let n = db.budgets.len();
    let mut out: Vec<Budget> = Vec::new();
    let mut i: usize = 0;
    proof {
        assert(out.deep_view() =~= bs.take(0).filter(pred));
    }
    while i < n
        invariant
            i <= n,
            n == db.budgets@.len(),
            bs == db.budgets.deep_view(),
            pred == (|b: BudgetView| b.user_id == user_id),
            out.deep_view() == bs.take(i as int).filter(pred),
        decreases n - i,
    {
        proof {
            reveal(Seq::filter);
            assert(bs.take(i as int + 1).drop_last() =~= bs.take(i as int));
            assert(bs.take(i as int + 1).last() == bs[i as int]);
        }
        if db.budgets[i].user_id.value == user_id.value {
            out.push(db.budgets[i].clone());
            proof {
                assert(out.deep_view() =~= bs.take(i as int + 1).filter(pred));
            }
        } else {
            proof {
                assert(out.deep_view() =~= bs.take(i as int + 1).filter(pred));
            }
        }
        i = i + 1;
    }
    proof {
        assert(bs.take(n as int) =~= bs);
    }
    Ok(out)
}

/// Lookup by id-set: all budgets whose id occurs in `ids`, in table order,
/// which need not follow the order of `ids`.
pub fn get_by_ids(db: &Database, ids: &Vec<Id>) -> (r: Result<Vec<Budget>, Error>)
    ensures
        r matches Ok(v) ==> v.deep_view() == db.budgets_view().filter(
            |b: BudgetView| ids@.contains(b.id),
        ),
        r is Ok,
{
    let ghost bs = db.budgets.deep_view();
    let ghost pred = |b: BudgetView| ids@.contains(b.id);
    let n = db.budgets.len();
    let mut out: Vec<Budget> = Vec::new();
    let mut i: usize = 0;
    proof {
        assert(out.deep_view() =~= bs.take(0).filter(pred));
    }
    while i < n
        invariant
            i <= n,
            n == db.budgets@.len(),
            bs == db.budgets.deep_view(),
            pred == (|b: BudgetView| ids@.contains(b.id)),
            out.deep_view() == bs.take(i as int).filter(pred),
        decreases n - i,
    {
        proof {
            reveal(Seq::filter);
            assert(bs.take(i as int + 1).drop_last() =~= bs.take(i as int));
            assert(bs.take(i as int + 1).last() == bs[i as int]);
        }
        if id_listed(ids, db.budgets[i].id) {
            out.push(db.budgets[i].clone());
            proof {
                assert(out.deep_view() =~= bs.take(i as int + 1).filter(pred));
            }
        } else {
            proof {
                assert(out.deep_view() =~= bs.take(i as int + 1).filter(pred));
            }
        }
        i = i + 1;
    }
    proof {
        assert(bs.take(n as int) =~= bs);
    }
    Ok(out)
}

/// Whether `id` occurs in `ids`.
fn id_listed(ids: &Vec<Id>, id: Id) -> (r: bool)
    ensures
        r == ids@.contains(id),
{
    let n = ids.len();
    let mut i: usize = 0;
    while i < n
        invariant
            i <= n,
            n == ids@.len(),
            forall|k: int| 0 <= k < i ==> #[trigger] ids@[k] != id,
        decreases n - i,
    {
        if ids[i].value == id.value {
            assert(ids@[i as int] == id);
            return true;
        }
        i = i + 1;
    }
    false
}

/// Full-aggregate update by id: replaces the stored aggregate with the one
/// given. Updating an id that is not present changes nothing, as a
/// zero-row update does.
pub fn update(db: &mut Database, budget: Budget) -> (r: Result<(), Error>)
    ensures
        r is Ok,
        has_budget_id(old(db).budgets_view(), budget.id) ==> exists|i: int|
            #[trigger] first_budget_index(old(db).budgets_view(), budget.id, i) && final(db).budgets_view() == old(db).budgets_view().update(i, budget@),
        !has_budget_id(old(db).budgets_view(), budget.id) ==> final(db).budgets_view() == old(
            db,
        ).budgets_view(),
        final(db).schedules@ == old(db).schedules@,
        final(db).transactions@ == old(db).transactions@,
        final(db).users_view() == old(db).users_view(),
        final(db).payees@ == old(db).payees@,
        final(db).bank_accounts@ == old(db).bank_accounts@,
{
    let ghost gid = budget.id;
    match find_index(&db.budgets, budget.id) {
        Some(i) => {
            let ghost prev = db.budgets.deep_view();
            proof {
                assert(first_budget_index(prev, gid, i as int));
            }
            db.budgets.set(i, budget);
            proof {
                assert(db.budgets_view() =~= prev.update(i as int, budget@));
            }
            Ok(())
        },
        None => Ok(()),
    }
}

/// Deletes a budget aggregate by id: the row and all its assignments go
/// together. Deleting an absent id changes nothing.
pub fn delete(db: &mut Database, id: Id) -> (r: Result<(), Error>)
    ensures
        r is Ok,
        has_budget_id(old(db).budgets_view(), id) ==> exists|i: int|
            #[trigger] first_budget_index(old(db).budgets_view(), id, i) && final(db).budgets_view() == old(db).budgets_view().remove(i),
        !has_budget_id(old(db).budgets_view(), id) ==> final(db).budgets_view() == old(db).budgets_view(),
        final(db).schedules@ == old(db).schedules@,
        final(db).transactions@ == old(db).transactions@,
        final(db).users_view() == old(db).users_view(),
        final(db).payees@ == old(db).payees@,
        final(db).bank_accounts@ == old(db).bank_accounts@,
{
    match find_index(&db.budgets, id) {
        Some(i) => {
            let ghost prev = db.budgets.deep_view();
            proof {
                assert(first_budget_index(prev, id, i as int));
            }
            db.budgets.remove(i);
            proof {
                assert(db.budgets_view() =~= prev.remove(i as int));
            }
            Ok(())
        },
        None => Ok(()),
    }
}

/// The budget currently holding the ledger leg that mirrors the given
/// transaction, if any budget does.
pub fn get_by_assignment_transaction_id(db: &Database, transaction_id: Id) -> (r: Result<
    Option<Budget>,
    Error,
>)
    ensures
        r matches Ok(Some(b)) ==> exists|i: int|
            #[trigger] first_holder_index(db.budgets_view(), transaction_id, i)
                && db.budgets_view()[i] == b@,
        r matches Ok(None) ==> forall|i: int|
            0 <= i < db.budgets_view().len() ==> !has_tx_leg(
                #[trigger] db.budgets_view()[i],
                transaction_id,
            ),
        r is Ok,
{
    let ghost bs = db.budgets.deep_view();
    let n = db.budgets.len();
    let mut i: usize = 0;
    while i < n
        invariant
            i <= n,
            n == db.budgets@.len(),
            bs == db.budgets.deep_view(),
            forall|k: int| 0 <= k < i ==> !has_tx_leg(#[trigger] bs[k], transaction_id),
        decreases n - i,
    {
        if budget_has_tx_leg(&db.budgets[i], transaction_id) {
            let b = db.budgets[i].clone();
            proof {
                assert(db.budgets_view()[i as int] == b@);
                assert(first_holder_index(db.budgets_view(), transaction_id, i as int));
            }
            return Ok(Some(b));
        }
        i = i + 1;
    }
    Ok(None)
}

/// Whether some leg of `budget` mirrors `transaction_id`.
fn budget_has_tx_leg(budget: &Budget, transaction_id: Id) -> (r: bool)
    ensures
        r == has_tx_leg(budget@, transaction_id),
{
    let n = budget.assignments.len();
    let mut i: usize = 0;
    while i < n
        invariant
            i <= n,
            n == budget.assignments@.len(),
            forall|k: int|
                0 <= k < i ==> !is_tx_leg(#[trigger] budget.assignments@[k], transaction_id),
        decreases n - i,
    {
        let a = budget.assignments[i];
        match a.source {
            crate::models::BudgetAssignmentSource::Transaction { from_transaction_id } => {
                if from_transaction_id.value == transaction_id.value {
                    assert(is_tx_leg(budget@.assignments[i as int], transaction_id));
                    return true;
                }
            },
            _ => {},
        }
        i = i + 1;
    }
    proof {
        assert(budget@.assignments == budget.assignments@);
    }
    false
}

/// The message the store reports when an insert hits an existing primary
/// key.
fn duplicate_row_message() -> (r: String)
    ensures
        true,
{
    "duplicate primary key".to_owned()
}

/// The storage discriminant of a ledger-assignment source.
#[derive(PartialEq, Eq, Structural, Clone, Copy, Debug)]
pub enum BudgetAssignmentType {
    MoveBetweenBudgets,
    FromTransaction,
}

/// The storage discriminant of an assignment type.
pub open spec fn assignment_type_name(t: BudgetAssignmentType) -> Seq<char> {
    match t {
        BudgetAssignmentType::MoveBetweenBudgets => "MoveBetweenBudgets"@,
        BudgetAssignmentType::FromTransaction => "FromTransaction"@,
    }
}

/// The assignment type a storage discriminant denotes, if any.
pub open spec fn parse_assignment_type(s: Seq<char>) -> Option<BudgetAssignmentType> {
    if s == "MoveBetweenBudgets"@ {
        Some(BudgetAssignmentType::MoveBetweenBudgets)
    } else if s == "FromTransaction"@ {
        Some(BudgetAssignmentType::FromTransaction)
    } else {
        None
    }
}

impl BudgetAssignmentType {
    /// Parses the storage discriminant.
    pub fn from_str(s: &str) -> (r: Result<BudgetAssignmentType, String>)
        ensures
            parse_assignment_type(s@) matches Some(t) ==> r == Ok::<
                BudgetAssignmentType,
                String,
            >(t),
            parse_assignment_type(s@) is None ==> r is Err,
    {
        if str_eq(s, "MoveBetweenBudgets") {
            Ok(BudgetAssignmentType::MoveBetweenBudgets)
        } else if str_eq(s, "FromTransaction") {
            Ok(BudgetAssignmentType::FromTransaction)
        } else {
            Err("not a valid BudgetAssignmentType".to_owned())
        }
    }

    /// Renders the storage discriminant.
    pub fn to_string(&self) -> (r: String)
        ensures
            r@ == assignment_type_name(*self),
    {
        match self {
            BudgetAssignmentType::MoveBetweenBudgets => "MoveBetweenBudgets".to_owned(),
            BudgetAssignmentType::FromTransaction => "FromTransaction".to_owned(),
        }
    }
}

/// A stored ledger-assignment row: the discriminant decides which of the
/// nullable columns must be populated.
#[derive(PartialEq, Debug)]
pub struct BudgetAssignmentDbModel {
    pub budget_id: Id,
    pub id: Id,
    pub amount: Money,
    pub date: Date,
    pub assignment_type: String,
    pub from_budget_id: Option<Id>,
    pub link_id: Option<Id>,
    pub from_transaction_id: Option<Id>,
}

/// The mathematical abstraction of an assignment row.
#[verifier::ext_equal]
pub struct AssignmentRowView {
    pub budget_id: Id,
    pub id: Id,
    pub amount: Money,
    pub date: Date,
    pub assignment_type: Seq<char>,
    pub from_budget_id: Option<Id>,
    pub link_id: Option<Id>,
    pub from_transaction_id: Option<Id>,
}

impl View for BudgetAssignmentDbModel {
    type V = AssignmentRowView;

    open spec fn view(&self) -> AssignmentRowView {
        AssignmentRowView {
            budget_id: self.budget_id,
            id: self.id,
            amount: self.amount,
            date: self.date,
            assignment_type: self.assignment_type@,
            from_budget_id: self.from_budget_id,
            link_id: self.link_id,
            from_transaction_id: self.from_transaction_id,
        }
    }
}

impl DeepView for BudgetAssignmentDbModel {
    type V = AssignmentRowView;

    open spec fn deep_view(&self) -> AssignmentRowView {
        self.view()
    }
}

impl Clone for BudgetAssignmentDbModel {
    fn clone(&self) -> (res: Self)
        ensures
            res@ == self@,
    {
        BudgetAssignmentDbModel {
            budget_id: self.budget_id,
            id: self.id,
            amount: self.amount,
            date: self.date,
            assignment_type: self.assignment_type.clone(),
            from_budget_id: self.from_budget_id,
            link_id: self.link_id,
            from_transaction_id: self.from_transaction_id,
        }
    }
}

/// A stored budget row, with its assignment rows carried alongside.
#[derive(PartialEq, Debug)]
pub struct BudgetDbModel {
    pub id: Id,
    pub name: String,
    pub target_type: Option<String>,
    pub repeating_target_type: Option<String>,
    pub target_amount: Option<Money>,
    pub target_schedule_id: Option<Id>,
    pub user_id: Id,
    pub assignments: Vec<BudgetAssignmentDbModel>,
}

/// The mathematical abstraction of a budget row.
#[verifier::ext_equal]
pub struct BudgetRowView {
    pub id: Id,
    pub name: Seq<char>,
    pub target_type: Option<Seq<char>>,
    pub repeating_target_type: Option<Seq<char>>,
    pub target_amount: Option<Money>,
    pub target_schedule_id: Option<Id>,
    pub user_id: Id,
    pub assignments: Seq<AssignmentRowView>,
}

/// The view of an optional string column.
pub open spec fn opt_view(s: Option<String>) -> Option<Seq<char>> {
    match s {
        Some(v) => Some(v@),
        Option::<String>::None => Option::<Seq<char>>::None,
    }
}

impl View for BudgetDbModel {
    type V = BudgetRowView;

    open spec fn view(&self) -> BudgetRowView {
        BudgetRowView {
            id: self.id,
            name: self.name@,
            target_type: opt_view(self.target_type),
            repeating_target_type: opt_view(self.repeating_target_type),
            target_amount: self.target_amount,
            target_schedule_id: self.target_schedule_id,
            user_id: self.user_id,
            assignments: self.assignments.deep_view(),
        }
    }
}

impl DeepView for BudgetDbModel {
    type V = BudgetRowView;

    open spec fn deep_view(&self) -> BudgetRowView {
        self.view()
    }
}

/// The row an assignment of budget `budget_id` maps to.
pub open spec fn assignment_row(budget_id: Id, a: BudgetAssignment) -> AssignmentRowView {
    match a.source {
        BudgetAssignmentSource::OtherBudget { from_budget_id, link_id } => AssignmentRowView {
            budget_id,
            id: a.id,
            amount: a.amount,
            date: a.date,
            assignment_type: "MoveBetweenBudgets"@,
            from_budget_id: Some(from_budget_id),
            link_id: Some(link_id),
            from_transaction_id: Option::<Id>::None,
        },
        BudgetAssignmentSource::Transaction { from_transaction_id } => AssignmentRowView {
            budget_id,
            id: a.id,
            amount: a.amount,
            date: a.date,
            assignment_type: "FromTransaction"@,
            from_budget_id: Option::<Id>::None,
            link_id: Option::<Id>::None,
            from_transaction_id: Some(from_transaction_id),
        },
    }
}

/// The assignment a stored row denotes, if its discriminant's required
/// columns are populated.
pub open spec fn assignment_from_row(r: AssignmentRowView) -> Option<BudgetAssignment> {
    match parse_assignment_type(r.assignment_type) {
        Some(BudgetAssignmentType::FromTransaction) => if r.from_transaction_id is Some {
            Some(
                BudgetAssignment {
                    id: r.id,
                    date: r.date,
                    amount: r.amount,
                    source: BudgetAssignmentSource::Transaction {
                        from_transaction_id: r.from_transaction_id->0,
                    },
                },
            )
        } else {
            None
        },
        Some(BudgetAssignmentType::MoveBetweenBudgets) => if r.from_budget_id is Some && r.link_id
            is Some {
            Some(
                BudgetAssignment {
                    id: r.id,
                    date: r.date,
                    amount: r.amount,
                    source: BudgetAssignmentSource::OtherBudget {
                        from_budget_id: r.from_budget_id->0,
                        link_id: r.link_id->0,
                    },
                },
            )
        } else {
            None
        },
        Option::<BudgetAssignmentType>::None => Option::<BudgetAssignment>::None,
    }
}

/// The row a budget aggregate maps to.
pub open spec fn budget_row(b: BudgetView) -> BudgetRowView {
    let (target_type, repeating_target_type, target_amount, target_schedule_id): (
        Option<Seq<char>>,
        Option<Seq<char>>,
        Option<Money>,
        Option<Id>,
    ) = match b.target {
        Option::<BudgetTarget>::None => (
            Option::<Seq<char>>::None,
            Option::<Seq<char>>::None,
            Option::<Money>::None,
            Option::<Id>::None,
        ),
        Some(BudgetTarget::OneTime { target_amount }) => (
            Some("OneTime"@),
            Option::<Seq<char>>::None,
            Some(target_amount),
            Option::<Id>::None,
        ),
        Some(BudgetTarget::Repeating { target_amount, repeating_type, schedule }) => (
            Some("Repeating"@),
            Some(repeating_type_name(repeating_type)),
            Some(target_amount),
            Some(schedule.id),
        ),
    };
    BudgetRowView {
        id: b.id,
        name: b.name,
        target_type,
        repeating_target_type,
        target_amount,
        target_schedule_id,
        user_id: b.user_id,
        assignments: b.assignments.map_values(|a: BudgetAssignment| assignment_row(b.id, a)),
    }
}

/// The target a stored row's columns denote: `None` when the columns
/// violate the discriminant's requirements, otherwise the decoded optional
/// target.
pub open spec fn target_from_parts(
    target_type: Option<Seq<char>>,
    target_amount: Option<Money>,
    repeating_target_type: Option<Seq<char>>,
    schedule: Option<Schedule>,
) -> Option<Option<BudgetTarget>> {
    match target_type {
        Option::<Seq<char>>::None => Some(Option::<BudgetTarget>::None),
        Some(t) => if t == "OneTime"@ {
            if target_amount is Some {
                Some(Some(BudgetTarget::OneTime { target_amount: target_amount->0 }))
            } else {
                None
            }
        } else if t == "Repeating"@ {
            if target_amount is Some && repeating_target_type is Some && parse_repeating_type(
                repeating_target_type->0,
            ) is Some && schedule is Some {
                Some(
                    Some(
                        BudgetTarget::Repeating {
                            target_amount: target_amount->0,
                            repeating_type: parse_repeating_type(repeating_target_type->0)->0,
                            schedule: schedule->0,
                        },
                    ),
                )
            } else {
                None
            }
        } else {
            None
        },
    }
}

/// The budget a stored row denotes with its schedule, if every column
/// satisfies its discriminant.
pub open spec fn budget_from_row(m: BudgetRowView, schedule: Option<Schedule>) -> Option<
    BudgetView,
> {
    match target_from_parts(m.target_type, m.target_amount, m.repeating_target_type, schedule) {
        Option::<Option<BudgetTarget>>::None => Option::<BudgetView>::None,
        Some(target) => if forall|i: int|
            0 <= i < m.assignments.len() ==> assignment_from_row(#[trigger] m.assignments[i])
                is Some {
            Some(
                BudgetView {
                    id: m.id,
                    name: m.name,
                    user_id: m.user_id,
                    target,
                    assignments: Seq::new(
                        m.assignments.len(),
                        |i: int| assignment_from_row(m.assignments[i])->0,
                    ),
                },
            )
        } else {
            Option::<BudgetView>::None
        },
    }
}

impl BudgetTarget {
    /// Decodes a target from its stored columns, requiring exactly the
    /// columns the discriminant demands.
    pub fn try_new(
        target_type: &str,
        target_amount: Option<Money>,
        repeating_target_type: Option<&String>,
        schedule: Option<Schedule>,
    ) -> (r: Result<BudgetTarget, String>)
        ensures
            target_from_parts(
                Some(target_type@),
                target_amount,
                match repeating_target_type {
                    Some(s) => Some(s@),
                    Option::<&String>::None => Option::<Seq<char>>::None,
                },
                schedule,
            ) matches Some(t) ==> (r matches Ok(rt) && Some(rt) == t),

            target_from_parts(
                Some(target_type@),
                target_amount,
                match repeating_target_type {
                    Some(s) => Some(s@),
                    Option::<&String>::None => Option::<Seq<char>>::None,
                },
                schedule,
            ) is None ==> r is Err,
    {
        if str_eq(target_type, "OneTime") {
            match target_amount {
                Some(amount) => Ok(BudgetTarget::OneTime { target_amount: amount }),
                None => Err("Missing target_amount for OneTime target".to_owned()),
            }
        } else if str_eq(target_type, "Repeating") {
            let amount = match target_amount {
                Some(amount) => amount,
                None => {
                    return Err("Missing target_amount for Repeating target".to_owned());
                },
            };
            let rtt = match repeating_target_type {
                Some(s) => s,
                None => {
                    return Err(
                        "Missing repeating_target_type for repeating target".to_owned(),
                    );
                },
            };
            let repeating_type = match crate::models::RepeatingTargetType::from_str(rtt.as_str()) {
                Ok(t) => t,
                Err(e) => {
                    return Err(e);
                },
            };
            let sch = match schedule {
                Some(sch) => sch,
                None => {
                    return Err("Missing schedule for Repeating budget target".to_owned());
                },
            };
            Ok(BudgetTarget::Repeating { target_amount: amount, repeating_type, schedule: sch })
        } else {
            Err("Unexpected target_type".to_owned())
        }
    }
}

impl BudgetAssignmentDbModel {
    /// Decodes one assignment row.
    pub fn try_into_assignment(self) -> (r: Result<BudgetAssignment, String>)
        ensures
            assignment_from_row(self@) matches Some(a) ==> r == Ok::<BudgetAssignment, String>(a),
            assignment_from_row(self@) is None ==> r is Err,
    {
        let assignment_type = match BudgetAssignmentType::from_str(self.assignment_type.as_str()) {
            Ok(t) => t,
            Err(e) => {
                return Err(e);
            },
        };
        match assignment_type {
            BudgetAssignmentType::FromTransaction => match self.from_transaction_id {
                Some(from_transaction_id) => Ok(
                    BudgetAssignment {
                        id: self.id,
                        date: self.date,
                        amount: self.amount,
                        source: BudgetAssignmentSource::Transaction { from_transaction_id },
                    },
                ),
                None => Err(
                    "from_transaction_id must be populated for FromTransaction assignment type".to_owned(),
                ),
            },
            BudgetAssignmentType::MoveBetweenBudgets => match (self.from_budget_id, self.link_id) {
                (Some(from_budget_id), Some(link_id)) => Ok(
                    BudgetAssignment {
                        id: self.id,
                        date: self.date,
                        amount: self.amount,
                        source: BudgetAssignmentSource::OtherBudget { from_budget_id, link_id },
                    },
                ),
                _ => Err(
                    "from_budget_id and link_id must be populated for MoveBetweenBudgets assignment type".to_owned(),
                ),
            },
        }
    }
}

impl BudgetDbModel {
    /// Encodes a budget aggregate as its stored rows.
    pub fn from_budget(value: Budget) -> (r: BudgetDbModel)
        ensures
            r@ == budget_row(value@),
    {
        let ghost bv = value@;
        let (target_type, repeating_target_type, target_amount, target_schedule_id): (
            Option<String>,
            Option<String>,
            Option<Money>,
            Option<Id>,
        ) = match &value.target {
            None => (None, None, None, None),
            Some(target @ BudgetTarget::OneTime { target_amount }) => (
                Some(target.to_string()),
                None,
                Some(*target_amount),
                None,
            ),
            Some(
                target @ BudgetTarget::Repeating { target_amount, repeating_type, schedule },
            ) => (
                Some(target.to_string()),
                Some(repeating_type.to_string()),
                Some(*target_amount),
                Some(schedule.id),
            ),
        };

        let ghost mapped = bv.assignments.map_values(
            |a: BudgetAssignment| assignment_row(bv.id, a),
        );
        let n = value.assignments.len();
        let mut rows: Vec<BudgetAssignmentDbModel> = Vec::new();
        let mut i: usize = 0;
        proof {
            assert(rows.deep_view() =~= mapped.take(0));
        }
        while i < n
            invariant
                i <= n,
                n == value.assignments@.len(),
                bv == value@,
                mapped == bv.assignments.map_values(
                    |a: BudgetAssignment| assignment_row(bv.id, a),
                ),
                rows.deep_view() == mapped.take(i as int),
            decreases n - i,
        {
            let assignment = value.assignments[i];
            let row = match assignment.source {
                BudgetAssignmentSource::OtherBudget { from_budget_id, link_id } =>
                    BudgetAssignmentDbModel {
                    budget_id: value.id,
                    id: assignment.id,
                    amount: assignment.amount,
                    date: assignment.date,
                    assignment_type: "MoveBetweenBudgets".to_owned(),
                    from_budget_id: Some(from_budget_id),
                    link_id: Some(link_id),
                    from_transaction_id: None,
                },
                BudgetAssignmentSource::Transaction { from_transaction_id } =>
                    BudgetAssignmentDbModel {
                    budget_id: value.id,
                    id: assignment.id,
                    amount: assignment.amount,
                    date: assignment.date,
                    assignment_type: "FromTransaction".to_owned(),
                    from_budget_id: None,
                    link_id: None,
                    from_transaction_id: Some(from_transaction_id),
                },
            };
            proof {
                assert(row@ =~= assignment_row(bv.id, bv.assignments[i as int]));
                assert(mapped[i as int] == assignment_row(bv.id, bv.assignments[i as int]));
            }
            let ghost prev = rows.deep_view();
            rows.push(row);
            proof {
                assert forall|k: int|
                    0 <= k < rows@.len() implies rows.deep_view()[k] == mapped.take(
                    i as int + 1,
                )[k] by {
                    if k < prev.len() {
                        assert(rows.deep_view()[k] == prev[k]);
                    }
                }
                assert(rows.deep_view() =~= mapped.take(i as int + 1));
            }
            i = i + 1;
        }
        proof {
            assert(mapped.take(n as int) =~= mapped);
        }

        let r = BudgetDbModel {
            id: value.id,
            name: value.name,
            target_type,
            repeating_target_type,
            target_amount,
            target_schedule_id,
            user_id: value.user_id,
            assignments: rows,
        };
        proof {
            assert(r@ =~= budget_row(bv));
        }
        r
    }

    /// Decodes the stored rows back into a budget aggregate, with the
    /// schedule the row references, if any, resolved by the caller.
    pub fn try_into_budget(self, schedule: Option<Schedule>) -> (r: Result<Budget, String>)
        ensures
            budget_from_row(self@, schedule) matches Some(b) ==> (r matches Ok(rb) && rb@ == b),
            budget_from_row(self@, schedule) is None ==> r is Err,
    {
        let ghost mv = self@;
        let target: Option<BudgetTarget> = match &self.target_type {
            Some(target_type) => {
                match BudgetTarget::try_new(
                    target_type.as_str(),
                    self.target_amount,
                    self.repeating_target_type.as_ref(),
                    schedule,
                ) {
                    Ok(t) => Some(t),
                    Err(e) => {
                        return Err(e);
                    },
                }
            },
            None => None,
        };

        let n = self.assignments.len();
        let mut assignments: Vec<BudgetAssignment> = Vec::new();
        let mut i: usize = 0;
        while i < n
            invariant
                i <= n,
                n == mv.assignments.len(),
                mv == self@,
                assignments@.len() == i,
                forall|k: int|
                    0 <= k < i ==> (assignment_from_row(#[trigger] mv.assignments[k]) matches Some(
                        a,
                    ) && assignments@[k] == a),
            decreases n - i,
        {
            let row = self.assignments[i].clone();
            proof {
                assert(row@ == mv.assignments[i as int]);
            }
            match row.try_into_assignment() {
                Ok(a) => {
                    assignments.push(a);
                },
                Err(e) => {
                    return Err(e);
                },
            }
            i = i + 1;
        }

        let b = Budget {
            id: self.id,
            name: self.name,
            user_id: self.user_id,
            target,
            assignments,
        };
        proof {
            let expected = budget_from_row(mv, schedule);
            assert(expected is Some);
            assert(b@.assignments =~= expected->0.assignments);
            assert(b@ =~= expected->0);
        }
        Ok(b)
    }
}

impl Clone for BudgetDbModel {
    fn clone(&self) -> (res: Self)
        ensures
            res@ == self@,
    {
        let res = BudgetDbModel {
            id: self.id,
            name: self.name.clone(),
            target_type: match &self.target_type {
                Some(s) => Some(s.clone()),
                None => None,
            },
            repeating_target_type: match &self.repeating_target_type {
                Some(s) => Some(s.clone()),
                None => None,
            },
            target_amount: self.target_amount,
            target_schedule_id: self.target_schedule_id,
            user_id: self.user_id,
            assignments: self.assignments.clone(),
        };
        proof {
            assert forall|i: int|
                0 <= i < self.assignments@.len() implies res.assignments@[i].deep_view()
                == self.assignments@[i].deep_view() by {
                assert(cloned::<BudgetAssignmentDbModel>(
                    self.assignments@[i],
                    res.assignments@[i],
                ));
            }
            assert(res.assignments.deep_view() =~= self.assignments.deep_view());
            assert(res@ =~= self@);
        }
        res
    }
}

/// The schedule row, if any, that a budget row's schedule reference
/// resolves to: the first row with the referenced id. Each reference is
/// resolved independently; under the store's invariant a schedule is owned
/// by exactly one budget, so no two rows ever reference the same id, and
/// resolving per reference coincides with handing each row out once.
pub open spec fn matched_schedule(ss: Seq<Schedule>, sid: Option<Id>) -> Option<Schedule> {
    match sid {
        Option::<Id>::None => Option::<Schedule>::None,
        Some(id) => if crate::db::schedule::has_schedule_id(ss, id) {
            Some(ss[choose|j: int| #[trigger] crate::db::first_schedule_index(ss, id, j)])
        } else {
            Option::<Schedule>::None
        },
    }
}

/// Finds the first schedule row with the given id.
fn find_schedule(schedules: &Vec<Schedule>, id: Id) -> (r: Option<Schedule>)
    ensures
        r == matched_schedule(schedules@, Some(id)),
{
    let n = schedules.len();
    let mut i: usize = 0;
    while i < n
        invariant
            i <= n,
            n == schedules@.len(),
            forall|k: int| 0 <= k < i ==> (#[trigger] schedules@[k]).id != id,
        decreases n - i,
    {
        if schedules[i].id.value == id.value {
            proof {
                assert(crate::db::first_schedule_index(schedules@, id, i as int));
                let j = choose|j: int|
                    #[trigger] crate::db::first_schedule_index(schedules@, id, j);
                assert(j == i as int);
            }
            return Some(schedules[i]);
        }
        i = i + 1;
    }
    proof {
        if crate::db::schedule::has_schedule_id(schedules@, id) {
            let k = choose|k: int|
                0 <= k < schedules@.len() && (#[trigger] schedules@[k]).id == id;
            assert(false);
        }
    }
    None
}

/// Assembles budget aggregates from their stored rows: each budget row is
/// joined with its assignment rows and, when its target repeats, with the
/// schedule row it references; a row set that violates a discriminant's
/// required columns is reported as a mapping failure.
pub fn get_budgets_from_db_models(models: Vec<BudgetDbModel>, schedules: &Vec<Schedule>) -> (r:
    Result<Vec<Budget>, Error>)
    ensures
        r matches Ok(v) ==> v@.len() == models@.len() && forall|i: int|
            0 <= i < models@.len() ==> (budget_from_row(
                #[trigger] models.deep_view()[i],
                matched_schedule(schedules@, models.deep_view()[i].target_schedule_id),
            ) matches Some(b) && v.deep_view()[i] == b),
        r matches Err(e) ==> e is MappingError && exists|i: int|
            0 <= i < models@.len() && budget_from_row(
                #[trigger] models.deep_view()[i],
                matched_schedule(schedules@, models.deep_view()[i].target_schedule_id),
            ) is None,
{
    let ghost ms = models.deep_view();
    let n = models.len();
    let mut budgets: Vec<Budget> = Vec::new();
    let mut i: usize = 0;
    while i < n
        invariant
            i <= n,
            n == models@.len(),
            ms == models.deep_view(),
            budgets@.len() == i,
            forall|k: int|
                0 <= k < i ==> (budget_from_row(
                    #[trigger] ms[k],
                    matched_schedule(schedules@, ms[k].target_schedule_id),
                ) matches Some(b) && budgets.deep_view()[k] == b),
        decreases n - i,
    {
        let db_model = models[i].clone();
        proof {
            assert(db_model@ == ms[i as int]);
        }
        let schedule = match db_model.target_schedule_id {
            Some(schedule_id) => find_schedule(schedules, schedule_id),
            None => None,
        };
        proof {
            assert(schedule == matched_schedule(schedules@, ms[i as int].target_schedule_id));
        }
        let ghost prev = budgets.deep_view();
        match db_model.try_into_budget(schedule) {
            Ok(budget) => {
                budgets.push(budget);
                proof {
                    assert forall|k: int|
                        0 <= k < i as int + 1 implies (budget_from_row(
                        #[trigger] ms[k],
                        matched_schedule(schedules@, ms[k].target_schedule_id),
                    ) matches Some(b) && budgets.deep_view()[k] == b) by {
                        if k < prev.len() {
                            assert(budgets.deep_view()[k] == prev[k]);
                        }
                    }
                }
            },
            Err(e) => {
                return Err(Error::MappingError { error: e });
            },
        }
        i = i + 1;
    }
    Ok(budgets)
}

} // verus!
