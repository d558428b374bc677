//! Domain model: budgets, their funding targets and schedules, ledger
//! assignments, and transactions, together with the pure ledger rules.

use vstd::prelude::*;

verus! {

/// An opaque 128-bit identifier. The all-zero value is the nil id, which the
/// request layer rejects wherever an id is required.
#[derive(PartialEq, Eq, Structural, Clone, Copy, Debug, Hash)]
pub struct Id {
    pub value: u128,
}

impl Id {
    pub open spec fn spec_is_nil(self) -> bool {
        self.value == 0
    }

    pub fn is_nil(self) -> (r: bool)
        ensures
            r == self.spec_is_nil(),
    {
        self.value == 0
    }
}

/// A signed fixed-precision decimal amount, held as a count of minor units
/// (ten-thousandths), so `10.15` is `Money { minor: 101_500 }`.
#[derive(PartialEq, Eq, Structural, Clone, Copy, Debug, Hash)]
pub struct Money {
    pub minor: i64,
}

/// A calendar date. The ledger only stores and copies dates, so no validity
/// constraint is imposed here.
#[derive(PartialEq, Eq, Structural, Clone, Copy, Debug, Hash)]
pub struct Date {
    pub year: i32,
    pub month: u8,
    pub day: u8,
}

/// How a `Repeating` target accumulates toward its amount.
#[derive(PartialEq, Eq, Structural, Clone, Copy, Debug)]
pub enum RepeatingTargetType {
    BuildUpTo,
    RequireRepeating,
}

/// The period kind of a `Custom` schedule.
#[derive(PartialEq, Eq, Structural, Clone, Copy, Debug)]
pub enum SchedulePeriodType {
    Weekly,
    Fortnightly,
    Monthly,
    Yearly,
}

/// A recurrence description: either a standard period anchored on a date, or
/// a custom period repeated every `every_x_periods` periods.
#[derive(PartialEq, Eq, Structural, Clone, Copy, Debug)]
pub enum SchedulePeriod {
    Weekly { starting_on: Date },
    Fortnightly { starting_on: Date },
    Monthly { starting_on: Date },
    Yearly { starting_on: Date },
    Custom { period: SchedulePeriodType, every_x_periods: u8 },
}

/// A stored recurrence descriptor, owned exclusively by one `Repeating`
/// budget target or by one user's pay frequency.
#[derive(PartialEq, Eq, Structural, Clone, Copy, Debug)]
pub struct Schedule {
    pub id: Id,
    pub period: SchedulePeriod,
}

/// Where a ledger assignment came from: one leg of a manual transfer between
/// budgets, or the mirror of a recorded transaction.
#[derive(PartialEq, Eq, Structural, Clone, Copy, Debug)]
pub enum BudgetAssignmentSource {
    OtherBudget { from_budget_id: Id, link_id: Id },
    Transaction { from_transaction_id: Id },
}

/// One signed entry in a budget's funding ledger.
#[derive(PartialEq, Eq, Structural, Copy, Debug)]
pub struct BudgetAssignment {
    pub id: Id,
    pub amount: Money,
    pub date: Date,
    pub source: BudgetAssignmentSource,
}

impl Clone for BudgetAssignment {
    fn clone(&self) -> (res: Self)
        ensures
            res == *self,
    {
        *self
    }
}

/// A budget's funding goal: a single fixed amount, or a recurring amount
/// tied to an exclusively owned schedule.
#[derive(PartialEq, Eq, Structural, Clone, Copy, Debug)]
pub enum BudgetTarget {
    OneTime { target_amount: Money },
    Repeating { target_amount: Money, repeating_type: RepeatingTargetType, schedule: Schedule },
}

/// A budget aggregate: the budget row, its optional target and the ordered
/// list of ledger assignments.
#[derive(PartialEq, Debug)]
pub struct Budget {
    pub id: Id,
    pub name: String,
    pub target: Option<BudgetTarget>,
    pub user_id: Id,
    pub assignments: Vec<BudgetAssignment>,
}

impl Clone for Budget {
    fn clone(&self) -> (res: Self)
        ensures
            res@ == self@,
    {
        let res = Budget {
            id: self.id,
            name: self.name.clone(),
            target: self.target,
            user_id: self.user_id,
            assignments: self.assignments.clone(),
        };
        proof {
            assert forall|i: int| 0 <= i < self.assignments@.len() implies res.assignments@[i]
                == self.assignments@[i] by {
                assert(cloned::<BudgetAssignment>(self.assignments@[i], res.assignments@[i]));
            }
            assert(res.assignments@ =~= self.assignments@);
            assert(res@ =~= self@);
        }
        res
    }
}

/// A recorded bank transaction; it funds exactly one budget.
#[derive(PartialEq, Eq, Structural, Clone, Copy, Debug)]
pub struct Transaction {
    pub id: Id,
    pub payee_id: Id,
    pub date: Date,
    pub amount: Money,
    pub bank_account_id: Id,
    pub budget_id: Id,
}

/// The mathematical abstraction of a `Budget`: the same data with the name
/// as a character sequence and the ledger as a sequence.
#[verifier::ext_equal]
pub struct BudgetView {
    pub id: Id,
    pub name: Seq<char>,
    pub target: Option<BudgetTarget>,
    pub user_id: Id,
    pub assignments: Seq<BudgetAssignment>,
}

impl View for Budget {
    type V = BudgetView;

    open spec fn view(&self) -> BudgetView {
        BudgetView {
            id: self.id,
            name: self.name@,
            target: self.target,
            user_id: self.user_id,
            assignments: self.assignments@,
        }
    }
}

impl DeepView for Budget {
    type V = BudgetView;

    open spec fn deep_view(&self) -> BudgetView {
        self.view()
    }
}

/// A registered user; the optional pay frequency owns a schedule, kept in
/// step by the same lifecycle rules as a budget's repeating target.
#[derive(PartialEq, Debug)]
pub struct User {
    pub id: Id,
    pub name: String,
    pub email: String,
    pub pay_frequency: Option<Schedule>,
}

impl Clone for User {
    fn clone(&self) -> (res: Self)
        ensures
            res@ == self@,
    {
        User {
            id: self.id,
            name: self.name.clone(),
            email: self.email.clone(),
            pay_frequency: self.pay_frequency,
        }
    }
}

/// The mathematical abstraction of a `User`.
#[verifier::ext_equal]
pub struct UserView {
    pub id: Id,
    pub name: Seq<char>,
    pub email: Seq<char>,
    pub pay_frequency: Option<Schedule>,
}

impl View for User {
    type V = UserView;

    open spec fn view(&self) -> UserView {
        UserView {
            id: self.id,
            name: self.name@,
            email: self.email@,
            pay_frequency: self.pay_frequency,
        }
    }
}

impl DeepView for User {
    type V = UserView;

    open spec fn deep_view(&self) -> UserView {
        self.view()
    }
}

/// A payee that transactions may reference.
#[derive(PartialEq, Debug)]
pub struct Payee {
    pub id: Id,
    pub name: String,
    pub user_id: Id,
}

impl Clone for Payee {
    fn clone(&self) -> (res: Self)
        ensures
            res@ == self@,
    {
        Payee { id: self.id, name: self.name.clone(), user_id: self.user_id }
    }
}

/// The mathematical abstraction of a `Payee`.
#[verifier::ext_equal]
pub struct PayeeView {
    pub id: Id,
    pub name: Seq<char>,
    pub user_id: Id,
}

impl View for Payee {
    type V = PayeeView;

    open spec fn view(&self) -> PayeeView {
        PayeeView { id: self.id, name: self.name@, user_id: self.user_id }
    }
}

impl DeepView for Payee {
    type V = PayeeView;

    open spec fn deep_view(&self) -> PayeeView {
        self.view()
    }
}

/// A bank account; `balance` is derived from the initial amount plus the
/// total of the account's transactions, never stored.
#[derive(PartialEq, Debug)]
pub struct BankAccount {
    pub id: Id,
    pub name: String,
    pub initial_amount: Money,
    pub user_id: Id,
    pub balance: i128,
}

/// The mathematical abstraction of a `BankAccount`.
#[verifier::ext_equal]
pub struct BankAccountView {
    pub id: Id,
    pub name: Seq<char>,
    pub initial_amount: Money,
    pub user_id: Id,
    pub balance: int,
}

impl View for BankAccount {
    type V = BankAccountView;

    open spec fn view(&self) -> BankAccountView {
        BankAccountView {
            id: self.id,
            name: self.name@,
            initial_amount: self.initial_amount,
            user_id: self.user_id,
            balance: self.balance as int,
        }
    }
}

impl DeepView for BankAccount {
    type V = BankAccountView;

    open spec fn deep_view(&self) -> BankAccountView {
        self.view()
    }
}

/// Request to create a payee.
#[derive(Debug)]
pub struct CreatePayeeRequest {
    pub name: String,
    pub user_id: Id,
}

/// Request to create a transaction under a bank account.
#[derive(PartialEq, Eq, Structural, Clone, Copy, Debug)]
pub struct CreateTransactionRequest {
    pub payee_id: Id,
    pub amount: Money,
    pub date: Date,
    pub budget_id: Id,
}

/// Request to update a transaction; the budget id may differ from the one
/// the transaction currently funds, which moves its ledger leg.
#[derive(PartialEq, Eq, Structural, Clone, Copy, Debug)]
pub struct UpdateTransactionRequest {
    pub amount: Money,
    pub payee_id: Id,
    pub budget_id: Id,
    pub date: Date,
}

/// Request to create a user.
#[derive(Debug)]
pub struct CreateUserRequest {
    pub name: String,
    pub email: String,
}

/// Request to update a user, including the pay-frequency schedule.
#[derive(Debug)]
pub struct UpdateUserRequest {
    pub name: String,
    pub pay_frequency: Option<UpdateScheduleRequest>,
}

/// Request to create a bank account.
#[derive(Debug)]
pub struct CreateBankAccountRequest {
    pub name: String,
    pub initial_amount: Money,
    pub user_id: Id,
}

/// Request to rename a bank account.
#[derive(Debug)]
pub struct UpdateBankAccountRequest {
    pub name: String,
}

/// Request to rename a payee.
#[derive(Debug)]
pub struct UpdatePayeeRequest {
    pub name: String,
}

/// Request to create a budget, with an optional target specification.
#[derive(Debug)]
pub struct CreateBudgetRequest {
    pub name: String,
    pub target: Option<CreateBudgetTargetRequest>,
    pub user_id: Id,
}

/// Request to update a budget, with an optional target specification.
#[derive(Debug)]
pub struct UpdateBudgetRequest {
    pub name: String,
    pub target: Option<UpdateBudgetTargetRequest>,
}

/// Requested target shape when creating a budget. A repeating target asks
/// for a freshly created schedule.
#[derive(PartialEq, Eq, Structural, Clone, Copy, Debug)]
pub enum CreateBudgetTargetRequest {
    OneTime { target_amount: Money },
    Repeating {
        target_amount: Money,
        repeating_type: RepeatingTargetType,
        schedule: CreateScheduleRequest,
    },
}

/// Requested target shape when updating a budget.
#[derive(PartialEq, Eq, Structural, Clone, Copy, Debug)]
pub enum UpdateBudgetTargetRequest {
    OneTime { target_amount: Money },
    Repeating {
        target_amount: Money,
        repeating_type: RepeatingTargetType,
        schedule: UpdateScheduleRequest,
    },
}

/// The recurrence description for a schedule to be created.
#[derive(PartialEq, Eq, Structural, Clone, Copy, Debug)]
pub struct CreateScheduleRequest {
    pub period: SchedulePeriod,
}

/// The recurrence description for a schedule to be updated in place.
#[derive(PartialEq, Eq, Structural, Clone, Copy, Debug)]
pub struct UpdateScheduleRequest {
    pub period: SchedulePeriod,
}

/// Request to transfer an amount between two budgets.
#[derive(PartialEq, Eq, Structural, Clone, Copy, Debug)]
pub struct TransferBudgetRequest {
    pub date: Date,
    pub amount: Money,
}

/// Relies on uuid::Uuid::new_v4 for a freshly drawn random id; the call
/// always sets the version and variant bits, so the value is nonzero.
#[verifier::external_body]
pub(crate) fn fresh_id() -> (r: Id)
    ensures
        !r.spec_is_nil(),
{
    Id { value: uuid::Uuid::new_v4().as_u128() }
}

/// The total of the amounts of a sequence of ledger assignments, in minor
/// units.
pub open spec fn sum_amounts(s: Seq<BudgetAssignment>) -> int
    decreases s.len(),
{
    if s.len() == 0 {
        0
    } else {
        sum_amounts(s.drop_last()) + s.last().amount.minor
    }
}

pub proof fn lemma_sum_amounts_push(s: Seq<BudgetAssignment>, a: BudgetAssignment)
    ensures
        sum_amounts(s.push(a)) == sum_amounts(s) + a.amount.minor,
{
    assert(s.push(a).drop_last() =~= s);
    assert(s.push(a).last() == a);
}

/// A total of `n` amounts, each an `i64`, stays within `n` times the `i64`
/// range; in particular any ledger total fits in an `i128`.
pub proof fn lemma_sum_amounts_bound(s: Seq<BudgetAssignment>)
    ensures
        -(s.len() as int) * 0x8000_0000_0000_0000 <= sum_amounts(s),
        sum_amounts(s) <= (s.len() as int) * 0x7fff_ffff_ffff_ffff,
    decreases s.len(),
{
    if s.len() > 0 {
        lemma_sum_amounts_bound(s.drop_last());
        assert((s.len() - 1) * 0x8000_0000_0000_0000 + 0x8000_0000_0000_0000 == (s.len() as int)
            * 0x8000_0000_0000_0000) by (nonlinear_arith);
        assert((s.len() - 1) * 0x7fff_ffff_ffff_ffff + 0x7fff_ffff_ffff_ffff == (s.len() as int)
            * 0x7fff_ffff_ffff_ffff) by (nonlinear_arith);
    }
}

proof fn lemma_sum_amounts_fits_i128(s: Seq<BudgetAssignment>, bound: int)
    requires
        s.len() <= bound,
        bound <= 0xffff_ffff_ffff_ffff,
    ensures
        i128::MIN <= sum_amounts(s) <= i128::MAX,
{
    lemma_sum_amounts_bound(s);
    vstd::arithmetic::mul::lemma_mul_inequality(
        s.len() as int,
        0xffff_ffff_ffff_ffff,
        0x8000_0000_0000_0000,
    );
    vstd::arithmetic::mul::lemma_mul_inequality(
        s.len() as int,
        0xffff_ffff_ffff_ffff,
        0x7fff_ffff_ffff_ffff,
    );
}

impl Budget {
    /// The budget's derived "funded" balance: the sum of its assignment
    /// amounts, recomputed on every call and never stored.
    pub fn total_assigned(&self) -> (r: i128)
        ensures
            r as int == sum_amounts(self.assignments@),
    {
        let ghost s = self.assignments@;
        let n: usize = self.assignments.len();
        let mut total: i128 = 0;
        let mut i: usize = 0;
        proof {
            assert(usize::MAX as int <= 0xffff_ffff_ffff_ffff);
        }
        while i < n
            invariant
                i <= n,
                n == s.len(),
                s == self.assignments@,
                total as int == sum_amounts(s.take(i as int)),
            decreases n - i,
        {
            let a = self.assignments[i];
            proof {
                assert(s.take(i as int + 1).drop_last() =~= s.take(i as int));
                assert(s.take(i as int + 1).last() == s[i as int]);
                assert(sum_amounts(s.take(i as int + 1)) == sum_amounts(s.take(i as int))
                    + s[i as int].amount.minor);
                assert(usize::MAX as int <= 0xffff_ffff_ffff_ffff);
                lemma_sum_amounts_fits_i128(s.take(i as int + 1), 0xffff_ffff_ffff_ffff);
            }
            total = total + (a.amount.minor as i128);
            i = i + 1;
        }
        proof {
            assert(s.take(n as int) =~= s);
        }
        total
    }

    /// Appends the one ledger leg that mirrors `transaction`: its amount and
    /// date, sourced from the transaction's id, under a freshly drawn leg id.
    /// Never deduplicates; callers remove any stale leg for the transaction
    /// first.
    pub fn assign_from_transaction(&mut self, transaction: &Transaction)
        ensures
            exists|aid: Id| final(self)@ == #[trigger] assign_result(old(self)@, *transaction, aid),
    {
        let aid = fresh_id();
        self.assign_from_transaction_with(transaction, aid);
    }

    /// As `assign_from_transaction`, with the fresh leg id passed in.
    pub fn assign_from_transaction_with(&mut self, transaction: &Transaction, assignment_id: Id)
        ensures
            final(self)@ == assign_result(old(self)@, *transaction, assignment_id),
    {
        self.assignments.push(
            BudgetAssignment {
                id: assignment_id,
                amount: transaction.amount,
                date: transaction.date,
                source: BudgetAssignmentSource::Transaction { from_transaction_id: transaction.id },
            },
        );
        proof {
            assert(final(self)@ =~= assign_result(old(self)@, *transaction, assignment_id));
        }
    }

    /// Appends the balanced pair of legs for a manual transfer: `to` gains
    /// `amount` and `from` gains its negation, both dated `date`, sharing one
    /// freshly drawn link id and referencing each other's budget id.
    pub fn move_between_budgets(from: &mut Budget, to: &mut Budget, amount: Money, date: Date)
        requires
            amount.minor != i64::MIN,
        ensures
            exists|link_id: Id, to_aid: Id, from_aid: Id|
                #![trigger transfer_to_result(old(to)@, old(from).id, amount, date, link_id, to_aid),
                    transfer_from_result(old(from)@, old(to).id, amount, date, link_id, from_aid)]
                final(to)@ == transfer_to_result(old(to)@, old(from).id, amount, date, link_id, to_aid)
                    && final(from)@ == transfer_from_result(
                    old(from)@,
                    old(to).id,
                    amount,
                    date,
                    link_id,
                    from_aid,
                ),
    {
        let link_id = fresh_id();
        let to_aid = fresh_id();
        let from_aid = fresh_id();
        Budget::move_between_budgets_linked(from, to, amount, date, link_id, to_aid, from_aid);
    }

    /// As `move_between_budgets`, with the link id and the two fresh leg ids
    /// passed in.
    pub fn move_between_budgets_linked(
        from: &mut Budget,
        to: &mut Budget,
        amount: Money,
        date: Date,
        link_id: Id,
        to_assignment_id: Id,
        from_assignment_id: Id,
    )
        requires
            amount.minor != i64::MIN,
        ensures
            final(to)@ == transfer_to_result(
                old(to)@,
                old(from).id,
                amount,
                date,
                link_id,
                to_assignment_id,
            ),
            final(from)@ == transfer_from_result(
                old(from)@,
                old(to).id,
                amount,
                date,
                link_id,
                from_assignment_id,
            ),
    {
        to.assignments.push(
            BudgetAssignment {
                id: to_assignment_id,
                amount,
                date,
                source: BudgetAssignmentSource::OtherBudget { from_budget_id: from.id, link_id },
            },
        );
        from.assignments.push(
            BudgetAssignment {
                id: from_assignment_id,
                amount: Money { minor: -amount.minor },
                date,
                source: BudgetAssignmentSource::OtherBudget { from_budget_id: to.id, link_id },
            },
        );
        proof {
            assert(final(to)@ =~= transfer_to_result(
                old(to)@,
                old(from).id,
                amount,
                date,
                link_id,
                to_assignment_id,
            ));
            assert(final(from)@ =~= transfer_from_result(
                old(from)@,
                old(to).id,
                amount,
                date,
                link_id,
                from_assignment_id,
            ));
        }
    }
}

/// A budget as handed back to callers: the aggregate plus the derived
/// `total_assigned`, in minor units.
#[derive(PartialEq, Debug)]
pub struct GetBudgetResponse {
    pub id: Id,
    pub name: String,
    pub target: Option<BudgetTarget>,
    pub user_id: Id,
    pub assignments: Vec<BudgetAssignment>,
    pub total_assigned: i128,
}

/// The mathematical abstraction of a `GetBudgetResponse`.
#[verifier::ext_equal]
pub struct GetBudgetResponseView {
    pub id: Id,
    pub name: Seq<char>,
    pub target: Option<BudgetTarget>,
    pub user_id: Id,
    pub assignments: Seq<BudgetAssignment>,
    pub total_assigned: int,
}

impl View for GetBudgetResponse {
    type V = GetBudgetResponseView;

    open spec fn view(&self) -> GetBudgetResponseView {
        GetBudgetResponseView {
            id: self.id,
            name: self.name@,
            target: self.target,
            user_id: self.user_id,
            assignments: self.assignments@,
            total_assigned: self.total_assigned as int,
        }
    }
}

impl DeepView for GetBudgetResponse {
    type V = GetBudgetResponseView;

    open spec fn deep_view(&self) -> GetBudgetResponseView {
        self.view()
    }
}

/// The response a budget maps to: the same aggregate, with `total_assigned`
/// recomputed from the assignments.
pub open spec fn budget_response(b: BudgetView) -> GetBudgetResponseView {
    GetBudgetResponseView {
        id: b.id,
        name: b.name,
        target: b.target,
        user_id: b.user_id,
        assignments: b.assignments,
        total_assigned: sum_amounts(b.assignments),
    }
}

impl vstd::std_specs::convert::FromSpecImpl<Budget> for GetBudgetResponse {
    open spec fn obeys_from_spec() -> bool {
        true
    }

    open spec fn from_spec(v: Budget) -> GetBudgetResponse {
        GetBudgetResponse {
            id: v.id,
            name: v.name,
            target: v.target,
            user_id: v.user_id,
            assignments: v.assignments,
            total_assigned: sum_amounts(v.assignments@) as i128,
        }
    }
}

impl From<Budget> for GetBudgetResponse {
    fn from(value: Budget) -> (res: GetBudgetResponse)
        ensures
            res@ == budget_response(value@),
    {
        let total_assigned = value.total_assigned();
        let res = GetBudgetResponse {
            total_assigned,
            id: value.id,
            target: value.target,
            user_id: value.user_id,
            assignments: value.assignments,
            name: value.name,
        };
        proof {
            assert(res@ =~= budget_response(value@));
        }
        res
    }
}

/// The ledger leg that mirrors a transaction.
pub open spec fn transaction_leg(t: Transaction, assignment_id: Id) -> BudgetAssignment {
    BudgetAssignment {
        id: assignment_id,
        amount: t.amount,
        date: t.date,
        source: BudgetAssignmentSource::Transaction { from_transaction_id: t.id },
    }
}

/// A budget after `assign_from_transaction`: the one mirroring leg appended,
/// everything else unchanged.
pub open spec fn assign_result(b: BudgetView, t: Transaction, assignment_id: Id) -> BudgetView {
    BudgetView { assignments: b.assignments.push(transaction_leg(t, assignment_id)), ..b }
}

/// The receiving budget after a transfer: one appended leg of `amount`,
/// linked to the sending budget.
pub open spec fn transfer_to_result(
    to: BudgetView,
    from_id: Id,
    amount: Money,
    date: Date,
    link_id: Id,
    assignment_id: Id,
) -> BudgetView {
    BudgetView {
        assignments: to.assignments.push(
            BudgetAssignment {
                id: assignment_id,
                amount,
                date,
                source: BudgetAssignmentSource::OtherBudget { from_budget_id: from_id, link_id },
            },
        ),
        ..to
    }
}

/// The sending budget after a transfer: one appended leg of the negated
/// amount, linked to the receiving budget.
pub open spec fn transfer_from_result(
    from: BudgetView,
    to_id: Id,
    amount: Money,
    date: Date,
    link_id: Id,
    assignment_id: Id,
) -> BudgetView {
    BudgetView {
        assignments: from.assignments.push(
            BudgetAssignment {
                id: assignment_id,
                amount: Money { minor: -amount.minor as i64 },
                date,
                source: BudgetAssignmentSource::OtherBudget { from_budget_id: to_id, link_id },
            },
        ),
        ..from
    }
}

/// Compares two string slices by their character sequences.
pub fn str_eq(a: &str, b: &str) -> (r: bool)
    ensures
        r == (a@ == b@),
{
    let x = a.to_owned();
    let y = b.to_owned();
    x == y
}

/// The characters of a string with leading and trailing whitespace
/// removed; a function of the characters alone.
pub uninterp spec fn trimmed(s: Seq<char>) -> Seq<char>;

/// Relies on str::trim: returns the string with leading and trailing
/// whitespace removed, so a slice of the input, and the empty string
/// unchanged.
#[verifier::external_body]
pub fn trim(s: &str) -> (r: &str)
    ensures
        r@ == trimmed(s@),
        r@.len() <= s@.len(),
        s@.len() == 0 ==> r@.len() == 0,
{
    s.trim()
}

/// The storage discriminant of a repeating-target type.
pub open spec fn repeating_type_name(t: RepeatingTargetType) -> Seq<char> {
    match t {
        RepeatingTargetType::BuildUpTo => "BuildUpTo"@,
        RepeatingTargetType::RequireRepeating => "RequireRepeating"@,
    }
}

/// The repeating-target type a storage discriminant denotes, if any.
pub open spec fn parse_repeating_type(s: Seq<char>) -> Option<RepeatingTargetType> {
    if s == "BuildUpTo"@ {
        Some(RepeatingTargetType::BuildUpTo)
    } else if s == "RequireRepeating"@ {
        Some(RepeatingTargetType::RequireRepeating)
    } else {
        None
    }
}

impl RepeatingTargetType {
    /// Parses the storage discriminant.
    pub fn from_str(s: &str) -> (r: Result<RepeatingTargetType, String>)
        ensures
            parse_repeating_type(s@) matches Some(t) ==> r == Ok::<RepeatingTargetType, String>(t),
            parse_repeating_type(s@) is None ==> r is Err,
    {
        if str_eq(s, "BuildUpTo") {
            Ok(RepeatingTargetType::BuildUpTo)
        } else if str_eq(s, "RequireRepeating") {
            Ok(RepeatingTargetType::RequireRepeating)
        } else {
            Err("Unexpected repeating_target_type".to_owned())
        }
    }

    /// Renders the storage discriminant.
    pub fn to_string(&self) -> (r: String)
        ensures
            r@ == repeating_type_name(*self),
    {
        match self {
            RepeatingTargetType::BuildUpTo => "BuildUpTo".to_owned(),
            RepeatingTargetType::RequireRepeating => "RequireRepeating".to_owned(),
        }
    }
}

/// The storage discriminant of a custom-period type.
pub open spec fn period_type_name(t: SchedulePeriodType) -> Seq<char> {
    match t {
        SchedulePeriodType::Weekly => "Weekly"@,
        SchedulePeriodType::Fortnightly => "Fortnightly"@,
        SchedulePeriodType::Monthly => "Monthly"@,
        SchedulePeriodType::Yearly => "Yearly"@,
    }
}

/// The custom-period type a storage discriminant denotes, if any.
pub open spec fn parse_period_type(s: Seq<char>) -> Option<SchedulePeriodType> {
    if s == "Weekly"@ {
        Some(SchedulePeriodType::Weekly)
    } else if s == "Fortnightly"@ {
        Some(SchedulePeriodType::Fortnightly)
    } else if s == "Monthly"@ {
        Some(SchedulePeriodType::Monthly)
    } else if s == "Yearly"@ {
        Some(SchedulePeriodType::Yearly)
    } else {
        None
    }
}

impl SchedulePeriodType {
    /// Parses the storage discriminant.
    pub fn from_str(s: &str) -> (r: Result<SchedulePeriodType, String>)
        ensures
            parse_period_type(s@) matches Some(t) ==> r == Ok::<SchedulePeriodType, String>(t),
            parse_period_type(s@) is None ==> r is Err,
    {
        if str_eq(s, "Weekly") {
            Ok(SchedulePeriodType::Weekly)
        } else if str_eq(s, "Fortnightly") {
            Ok(SchedulePeriodType::Fortnightly)
        } else if str_eq(s, "Monthly") {
            Ok(SchedulePeriodType::Monthly)
        } else if str_eq(s, "Yearly") {
            Ok(SchedulePeriodType::Yearly)
        } else {
            Err("Unexpected SchedulePeriodType".to_owned())
        }
    }

    /// Renders the storage discriminant.
    pub fn to_string(&self) -> (r: String)
        ensures
            r@ == period_type_name(*self),
    {
        match self {
            SchedulePeriodType::Weekly => "Weekly".to_owned(),
            SchedulePeriodType::Fortnightly => "Fortnightly".to_owned(),
            SchedulePeriodType::Monthly => "Monthly".to_owned(),
            SchedulePeriodType::Yearly => "Yearly".to_owned(),
        }
    }
}

/// The storage discriminant of a schedule period.
pub open spec fn period_name(p: SchedulePeriod) -> Seq<char> {
    match p {
        SchedulePeriod::Weekly { .. } => "Weekly"@,
        SchedulePeriod::Fortnightly { .. } => "Fortnightly"@,
        SchedulePeriod::Monthly { .. } => "Monthly"@,
        SchedulePeriod::Yearly { .. } => "Yearly"@,
        SchedulePeriod::Custom { .. } => "Custom"@,
    }
}

impl SchedulePeriod {
    /// Renders the storage discriminant.
    pub fn to_string(&self) -> (r: String)
        ensures
            r@ == period_name(*self),
    {
        match self {
            SchedulePeriod::Weekly { .. } => "Weekly".to_owned(),
            SchedulePeriod::Fortnightly { .. } => "Fortnightly".to_owned(),
            SchedulePeriod::Monthly { .. } => "Monthly".to_owned(),
            SchedulePeriod::Yearly { .. } => "Yearly".to_owned(),
            SchedulePeriod::Custom { .. } => "Custom".to_owned(),
        }
    }
}

/// The storage discriminant of a budget target.
pub open spec fn target_name(t: BudgetTarget) -> Seq<char> {
    match t {
        BudgetTarget::OneTime { .. } => "OneTime"@,
        BudgetTarget::Repeating { .. } => "Repeating"@,
    }
}

impl BudgetTarget {
    /// Renders the storage discriminant.
    pub fn to_string(&self) -> (r: String)
        ensures
            r@ == target_name(*self),
    {
        match self {
            BudgetTarget::OneTime { .. } => "OneTime".to_owned(),
            BudgetTarget::Repeating { .. } => "Repeating".to_owned(),
        }
    }
}

} // verus!
