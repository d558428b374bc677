//! The persistence layer's state and its consistency specification.
//!
//! The store models a relational engine that offers single-row operations
//! only: point lookup, lookup by id-set, insert, full-row update, delete.
//! Each table is a sequence of rows; budgets are kept as assembled
//! aggregates. The well-formedness predicate `Database::wf` gathers the
//! system's cross-table invariants: unique primary keys, the balanced-pair
//! law for transfer legs, the single-leg law for transaction legs, and the
//! exclusive ownership of schedules.

use vstd::prelude::*;

use crate::models::{
    BankAccount, Budget, BudgetAssignment, BudgetAssignmentSource, BudgetTarget, BudgetView,
    Id, Money, Payee, Schedule, Transaction, User, UserView,
};
use crate::AppError;

pub mod bank_accounts;
pub mod budgets;
pub mod payees;
pub mod schedule;
pub mod transactions;
pub mod users;

verus! {

/// Store-layer error taxonomy; failures are classified here before they
/// reach protocol logic.
#[derive(Debug)]
pub enum Error {
    NotFound,
    MappingError { error: String },
    Unknown { error: String },
}

impl Error {
    /// Classifies a store error for the request layer: a missing row is a
    /// missing resource; a mapping violation or an unclassified engine
    /// failure is an internal failure.
    pub fn to_app_error(self, error: String) -> (r: AppError)
        ensures
            self is NotFound ==> r == AppError::NotFound(error),
            self is Unknown ==> r == AppError::InternalServerError(error),
            self is MappingError ==> r == AppError::InternalServerError(
                self->MappingError_error,
            ),
    {
        match self {
            Self::NotFound => AppError::NotFound(error),
            Self::Unknown { .. } => AppError::InternalServerError(error),
            Self::MappingError { error } => AppError::InternalServerError(error),
        }
    }
}

/// A stored bank-account row; the account's balance is derived at read
/// time, never stored.
#[derive(PartialEq, Debug)]
pub struct BankAccountRecord {
    pub id: Id,
    pub name: String,
    pub initial_amount: Money,
    pub user_id: Id,
}

/// The mathematical abstraction of a `BankAccountRecord`.
#[verifier::ext_equal]
pub struct BankAccountRecordView {
    pub id: Id,
    pub name: Seq<char>,
    pub initial_amount: Money,
    pub user_id: Id,
}

impl View for BankAccountRecord {
    type V = BankAccountRecordView;

    open spec fn view(&self) -> BankAccountRecordView {
        BankAccountRecordView {
            id: self.id,
            name: self.name@,
            initial_amount: self.initial_amount,
            user_id: self.user_id,
        }
    }
}

impl DeepView for BankAccountRecord {
    type V = BankAccountRecordView;

    open spec fn deep_view(&self) -> BankAccountRecordView {
        self.view()
    }
}

/// The whole persistent state: one sequence of rows per table.
pub struct Database {
    pub budgets: Vec<Budget>,
    pub schedules: Vec<Schedule>,
    pub transactions: Vec<Transaction>,
    pub users: Vec<User>,
    pub payees: Vec<Payee>,
    pub bank_accounts: Vec<BankAccountRecord>,
}

impl Database {
    /// An empty store; trivially well-formed, which anchors the chain of
    /// operations that each preserve well-formedness.
    pub fn new() -> (r: Database)
        ensures
            r.budgets@.len() == 0,
            r.schedules@.len() == 0,
            r.transactions@.len() == 0,
            r.users@.len() == 0,
            r.payees@.len() == 0,
            r.bank_accounts@.len() == 0,
            r.wf(),
    {
        let r = Database {
            budgets: Vec::new(),
            schedules: Vec::new(),
            transactions: Vec::new(),
            users: Vec::new(),
            payees: Vec::new(),
            bank_accounts: Vec::new(),
        };
        proof {
            assert forall|tid: Id| #[trigger] tx_leg_count(r.budgets_view(), tid) <= 1 by {
                assert(r.budgets_view().len() == 0);
            }
        }
        r
    }

    /// The budgets table as a sequence of abstractions.
    pub open spec fn budgets_view(self) -> Seq<BudgetView> {
        self.budgets.deep_view()
    }

    /// The users table as a sequence of abstractions.
    pub open spec fn users_view(self) -> Seq<UserView> {
        self.users.deep_view()
    }

    /// All cross-table invariants of the store together.
    pub open spec fn wf(self) -> bool {
        &&& budgets_unique_ids(self.budgets_view())
        &&& transactions_unique_ids(self.transactions@)
        &&& schedules_unique_ids(self.schedules@)
        &&& balanced(self.budgets_view())
        &&& single_leg(self.budgets_view(), self.transactions@)
        &&& budget_schedules_ok(self.budgets_view(), self.schedules@)
        &&& user_schedules_ok(self.users_view(), self.budgets_view(), self.schedules@)
    }
}

/// How many elements of `s` satisfy `p`.
pub open spec fn count_where<A>(s: Seq<A>, p: spec_fn(A) -> bool) -> nat
    decreases s.len(),
{
    if s.len() == 0 {
        0
    } else {
        count_where(s.drop_last(), p) + (if p(s.last()) {
            1nat
        } else {
            0nat
        })
    }
}

pub proof fn lemma_count_where_push<A>(s: Seq<A>, p: spec_fn(A) -> bool, x: A)
    ensures
        count_where(s.push(x), p) == count_where(s, p) + (if p(x) {
            1nat
        } else {
            0nat
        }),
{
    assert(s.push(x).drop_last() =~= s);
    assert(s.push(x).last() == x);
}

pub proof fn lemma_count_where_zero<A>(s: Seq<A>, p: spec_fn(A) -> bool)
    ensures
        (count_where(s, p) == 0) <==> (forall|i: int| 0 <= i < s.len() ==> !p(#[trigger] s[i])),
    decreases s.len(),
{
    if s.len() > 0 {
        lemma_count_where_zero(s.drop_last(), p);
        assert(forall|i: int|
            0 <= i < s.len() - 1 ==> s.drop_last()[i] == #[trigger] s[i]);
        if count_where(s, p) == 0 {
            assert(forall|i: int| 0 <= i < s.len() ==> !p(#[trigger] s[i])) by {
                assert(!p(s.last()));
            }
        }
    }
}

pub proof fn lemma_count_where_at_least_one<A>(s: Seq<A>, p: spec_fn(A) -> bool, i: int)
    requires
        0 <= i < s.len(),
        p(s[i]),
    ensures
        count_where(s, p) >= 1,
    decreases s.len(),
{
    if i == s.len() - 1 {
    } else {
        lemma_count_where_at_least_one(s.drop_last(), p, i);
    }
}

pub proof fn lemma_count_where_unique<A>(s: Seq<A>, p: spec_fn(A) -> bool, i: int, j: int)
    requires
        count_where(s, p) <= 1,
        0 <= i < s.len(),
        0 <= j < s.len(),
        p(s[i]),
        p(s[j]),
    ensures
        i == j,
    decreases s.len(),
{
    if i != j {
        let hi = if i > j { i } else { j };
        let lo = if i > j { j } else { i };
        if hi == s.len() - 1 {
            lemma_count_where_at_least_one(s.drop_last(), p, lo);
        } else {
            lemma_count_where_unique(s.drop_last(), p, i, j);
        }
    }
}


/// Removing only elements that fail `p` leaves the `p`-count unchanged:
/// filtering with a predicate `keep` that `p` implies.
pub proof fn lemma_count_where_filter_keeps<A>(
    s: Seq<A>,
    p: spec_fn(A) -> bool,
    keep: spec_fn(A) -> bool,
)
    requires
        forall|x: A| #[trigger] p(x) ==> keep(x),
    ensures
        count_where(s.filter(keep), p) == count_where(s, p),
    decreases s.len(),
{
    reveal(Seq::filter);
    if s.len() > 0 {
        lemma_count_where_filter_keeps(s.drop_last(), p, keep);
        if keep(s.last()) {
            assert(s.filter(keep) == s.drop_last().filter(keep).push(s.last()));
            lemma_count_where_push(s.drop_last().filter(keep), p, s.last());
        }
    }
}

/// Filtering keeps exactly the elements the count counts.
pub proof fn lemma_filter_len_count<A>(s: Seq<A>, p: spec_fn(A) -> bool)
    ensures
        s.filter(p).len() == count_where(s, p),
    decreases s.len(),
{
    reveal(Seq::filter);
    if s.len() > 0 {
        lemma_filter_len_count(s.drop_last(), p);
    }
}

/// A count over a disjunction of two incompatible predicates splits.
pub proof fn lemma_count_where_or_disjoint<A>(
    s: Seq<A>,
    p: spec_fn(A) -> bool,
    q: spec_fn(A) -> bool,
    pq: spec_fn(A) -> bool,
)
    requires
        forall|x: A| !(#[trigger] p(x) && q(x)),
        forall|x: A| #[trigger] pq(x) == (p(x) || q(x)),
    ensures
        count_where(s, pq) == count_where(s, p) + count_where(s, q),
    decreases s.len(),
{
    if s.len() > 0 {
        lemma_count_where_or_disjoint(s.drop_last(), p, q, pq);
    }
}

/// Every element of a filtered sequence occurs in the source.
pub proof fn lemma_filter_elem_in_source<A>(s: Seq<A>, p: spec_fn(A) -> bool, k: int)
    requires
        0 <= k < s.filter(p).len(),
    ensures
        exists|i: int| 0 <= i < s.len() && #[trigger] s[i] == s.filter(p)[k],
    decreases s.len(),
{
    reveal(Seq::filter);
    if s.len() > 0 {
        let sub = s.drop_last().filter(p);
        if p(s.last()) {
            if k < sub.len() {
                lemma_filter_elem_in_source(s.drop_last(), p, k);
                let i = choose|i: int|
                    0 <= i < s.drop_last().len() && #[trigger] s.drop_last()[i] == sub[k];
                assert(s[i] == s.filter(p)[k]);
            } else {
                assert(s[s.len() - 1] == s.filter(p)[k]);
            }
        } else {
            lemma_filter_elem_in_source(s.drop_last(), p, k);
            let i = choose|i: int|
                0 <= i < s.drop_last().len() && #[trigger] s.drop_last()[i] == sub[k];
            assert(s[i] == s.filter(p)[k]);
        }
    }
}

/// Under pairwise-distinct budget ids, at most one row carries any id.
pub proof fn lemma_unique_ids_count(bs: Seq<BudgetView>, id: Id)
    requires
        budgets_unique_ids(bs),
    ensures
        count_where(bs, |b: BudgetView| b.id == id) <= 1,
    decreases bs.len(),
{
    let p = |b: BudgetView| b.id == id;
    if bs.len() > 0 {
        assert(forall|i: int, j: int|
            #![trigger bs.drop_last()[i].id, bs.drop_last()[j].id]
            0 <= i < j < bs.drop_last().len() ==> bs.drop_last()[i].id != bs.drop_last()[j].id);
        lemma_unique_ids_count(bs.drop_last(), id);
        if p(bs.last()) {
            assert(forall|i: int|
                0 <= i < bs.len() - 1 ==> (#[trigger] bs.drop_last()[i]).id != id);
            lemma_count_where_zero(bs.drop_last(), p);
        }
    }
}

/// True of a ledger leg that is one half of the transfer identified by
/// `link` and sourced from budget `from`.
pub open spec fn is_transfer_leg_from(a: BudgetAssignment, from: Id, link: Id) -> bool {
    a.source == (BudgetAssignmentSource::OtherBudget { from_budget_id: from, link_id: link })
}

/// True of a ledger leg that mirrors transaction `tid`.
pub open spec fn is_tx_leg(a: BudgetAssignment, tid: Id) -> bool {
    a.source == (BudgetAssignmentSource::Transaction { from_transaction_id: tid })
}

/// How many of the given legs are transfer legs from `from` under `link`.
pub open spec fn transfer_count(s: Seq<BudgetAssignment>, from: Id, link: Id) -> nat
    decreases s.len(),
{
    if s.len() == 0 {
        0
    } else {
        transfer_count(s.drop_last(), from, link) + (if is_transfer_leg_from(
            s.last(),
            from,
            link,
        ) {
            1nat
        } else {
            0nat
        })
    }
}

/// How many of the given legs are transfer legs from `from` under `link`
/// with amount `minor`.
pub open spec fn transfer_amount_count(
    s: Seq<BudgetAssignment>,
    from: Id,
    link: Id,
    minor: int,
) -> nat
    decreases s.len(),
{
    if s.len() == 0 {
        0
    } else {
        transfer_amount_count(s.drop_last(), from, link, minor) + (if is_transfer_leg_from(
            s.last(),
            from,
            link,
        ) && s.last().amount.minor == minor {
            1nat
        } else {
            0nat
        })
    }
}

/// How many of the given legs mirror transaction `tid`.
pub open spec fn tx_count(s: Seq<BudgetAssignment>, tid: Id) -> nat
    decreases s.len(),
{
    if s.len() == 0 {
        0
    } else {
        tx_count(s.drop_last(), tid) + (if is_tx_leg(s.last(), tid) {
            1nat
        } else {
            0nat
        })
    }
}

/// How many legs of `b` are transfer legs from `from` under `link`.
pub open spec fn mirror_count(b: BudgetView, from: Id, link: Id) -> nat {
    transfer_count(b.assignments, from, link)
}

/// How many legs of `b` are transfer legs from `from` under `link` with
/// amount `minor`.
pub open spec fn mirror_amount_count(b: BudgetView, from: Id, link: Id, minor: int) -> nat {
    transfer_amount_count(b.assignments, from, link, minor)
}

/// How many legs of `b` mirror transaction `tid`.
pub open spec fn tx_leg_count_in(b: BudgetView, tid: Id) -> nat {
    tx_count(b.assignments, tid)
}

/// How many legs across all budgets mirror transaction `tid`.
pub open spec fn tx_leg_count(bs: Seq<BudgetView>, tid: Id) -> nat
    decreases bs.len(),
{
    if bs.len() == 0 {
        0
    } else {
        tx_leg_count(bs.drop_last(), tid) + tx_leg_count_in(bs.last(), tid)
    }
}

pub proof fn lemma_transfer_count_push(s: Seq<BudgetAssignment>, x: BudgetAssignment, f: Id, l: Id)
    ensures
        transfer_count(s.push(x), f, l) == transfer_count(s, f, l) + (if is_transfer_leg_from(
            x,
            f,
            l,
        ) {
            1nat
        } else {
            0nat
        }),
{
    assert(s.push(x).drop_last() =~= s);
    assert(s.push(x).last() == x);
}

pub proof fn lemma_transfer_amount_count_push(
    s: Seq<BudgetAssignment>,
    x: BudgetAssignment,
    f: Id,
    l: Id,
    m: int,
)
    ensures
        transfer_amount_count(s.push(x), f, l, m) == transfer_amount_count(s, f, l, m) + (
        if is_transfer_leg_from(x, f, l) && x.amount.minor == m {
            1nat
        } else {
            0nat
        }),
{
    assert(s.push(x).drop_last() =~= s);
    assert(s.push(x).last() == x);
}

pub proof fn lemma_tx_count_push(s: Seq<BudgetAssignment>, x: BudgetAssignment, tid: Id)
    ensures
        tx_count(s.push(x), tid) == tx_count(s, tid) + (if is_tx_leg(x, tid) {
            1nat
        } else {
            0nat
        }),
{
    assert(s.push(x).drop_last() =~= s);
    assert(s.push(x).last() == x);
}

pub proof fn lemma_transfer_count_update(
    s: Seq<BudgetAssignment>,
    i: int,
    x: BudgetAssignment,
    f: Id,
    l: Id,
)
    requires
        0 <= i < s.len(),
    ensures
        transfer_count(s.update(i, x), f, l) == transfer_count(s, f, l) + (
        if is_transfer_leg_from(x, f, l) {
            1nat
        } else {
            0nat
        }) - (if is_transfer_leg_from(s[i], f, l) {
            1nat
        } else {
            0nat
        }),
    decreases s.len(),
{
    if i == s.len() - 1 {
        assert(s.update(i, x).drop_last() =~= s.drop_last());
        assert(s.update(i, x).last() == x);
    } else {
        lemma_transfer_count_update(s.drop_last(), i, x, f, l);
        assert(s.update(i, x).drop_last() =~= s.drop_last().update(i, x));
        assert(s.update(i, x).last() == s.last());
    }
}

pub proof fn lemma_transfer_amount_count_update(
    s: Seq<BudgetAssignment>,
    i: int,
    x: BudgetAssignment,
    f: Id,
    l: Id,
    m: int,
)
    requires
        0 <= i < s.len(),
    ensures
        transfer_amount_count(s.update(i, x), f, l, m) == transfer_amount_count(s, f, l, m) + (
        if is_transfer_leg_from(x, f, l) && x.amount.minor == m {
            1nat
        } else {
            0nat
        }) - (if is_transfer_leg_from(s[i], f, l) && s[i].amount.minor == m {
            1nat
        } else {
            0nat
        }),
    decreases s.len(),
{
    if i == s.len() - 1 {
        assert(s.update(i, x).drop_last() =~= s.drop_last());
        assert(s.update(i, x).last() == x);
    } else {
        lemma_transfer_amount_count_update(s.drop_last(), i, x, f, l, m);
        assert(s.update(i, x).drop_last() =~= s.drop_last().update(i, x));
        assert(s.update(i, x).last() == s.last());
    }
}

pub proof fn lemma_tx_count_update(s: Seq<BudgetAssignment>, i: int, x: BudgetAssignment, tid: Id)
    requires
        0 <= i < s.len(),
    ensures
        tx_count(s.update(i, x), tid) == tx_count(s, tid) + (if is_tx_leg(x, tid) {
            1nat
        } else {
            0nat
        }) - (if is_tx_leg(s[i], tid) {
            1nat
        } else {
            0nat
        }),
    decreases s.len(),
{
    if i == s.len() - 1 {
        assert(s.update(i, x).drop_last() =~= s.drop_last());
        assert(s.update(i, x).last() == x);
    } else {
        lemma_tx_count_update(s.drop_last(), i, x, tid);
        assert(s.update(i, x).drop_last() =~= s.drop_last().update(i, x));
        assert(s.update(i, x).last() == s.last());
    }
}

pub proof fn lemma_transfer_amount_count_at_least(
    s: Seq<BudgetAssignment>,
    f: Id,
    l: Id,
    m: int,
    j: int,
)
    requires
        0 <= j < s.len(),
        is_transfer_leg_from(s[j], f, l),
        s[j].amount.minor == m,
    ensures
        transfer_amount_count(s, f, l, m) >= 1,
    decreases s.len(),
{
    if j < s.len() - 1 {
        lemma_transfer_amount_count_at_least(s.drop_last(), f, l, m, j);
    }
}

pub proof fn lemma_tx_count_at_least(s: Seq<BudgetAssignment>, tid: Id, j: int)
    requires
        0 <= j < s.len(),
        is_tx_leg(s[j], tid),
    ensures
        tx_count(s, tid) >= 1,
    decreases s.len(),
{
    if j < s.len() - 1 {
        lemma_tx_count_at_least(s.drop_last(), tid, j);
    }
}

pub proof fn lemma_transfer_count_zero(s: Seq<BudgetAssignment>, f: Id, l: Id)
    ensures
        (transfer_count(s, f, l) == 0) <==> (forall|j: int|
            0 <= j < s.len() ==> !is_transfer_leg_from(#[trigger] s[j], f, l)),
    decreases s.len(),
{
    if s.len() > 0 {
        lemma_transfer_count_zero(s.drop_last(), f, l);
        assert(forall|j: int| 0 <= j < s.len() - 1 ==> s.drop_last()[j] == #[trigger] s[j]);
    }
}

pub proof fn lemma_transfer_amount_count_zero(s: Seq<BudgetAssignment>, f: Id, l: Id, m: int)
    ensures
        (transfer_amount_count(s, f, l, m) == 0) <==> (forall|j: int|
            0 <= j < s.len() ==> !(is_transfer_leg_from(#[trigger] s[j], f, l) && s[j].amount.minor
                == m)),
    decreases s.len(),
{
    if s.len() > 0 {
        lemma_transfer_amount_count_zero(s.drop_last(), f, l, m);
        assert(forall|j: int| 0 <= j < s.len() - 1 ==> s.drop_last()[j] == #[trigger] s[j]);
    }
}

pub proof fn lemma_tx_count_zero(s: Seq<BudgetAssignment>, tid: Id)
    ensures
        (tx_count(s, tid) == 0) <==> (forall|j: int|
            0 <= j < s.len() ==> !is_tx_leg(#[trigger] s[j], tid)),
    decreases s.len(),
{
    if s.len() > 0 {
        lemma_tx_count_zero(s.drop_last(), tid);
        assert(forall|j: int| 0 <= j < s.len() - 1 ==> s.drop_last()[j] == #[trigger] s[j]);
    }
}

pub proof fn lemma_tx_count_unique(s: Seq<BudgetAssignment>, tid: Id, i: int, j: int)
    requires
        tx_count(s, tid) <= 1,
        0 <= i < s.len(),
        0 <= j < s.len(),
        is_tx_leg(s[i], tid),
        is_tx_leg(s[j], tid),
    ensures
        i == j,
    decreases s.len(),
{
    if i != j {
        let hi = if i > j { i } else { j };
        let lo = if i > j { j } else { i };
        if hi == s.len() - 1 {
            lemma_tx_count_at_least(s.drop_last(), tid, lo);
        } else {
            lemma_tx_count_unique(s.drop_last(), tid, i, j);
        }
    }
}

/// Stripping the legs that mirror `tid` leaves every transfer count as it
/// was, removes every leg for `tid`, and leaves other transactions' legs
/// alone.
pub proof fn lemma_strip_tx_legs_counts(s: Seq<BudgetAssignment>, tid: Id, f: Id, l: Id, m: int, tid2: Id)
    ensures
        transfer_count(s.filter(|a: BudgetAssignment| !is_tx_leg(a, tid)), f, l)
            == transfer_count(s, f, l),
        transfer_amount_count(s.filter(|a: BudgetAssignment| !is_tx_leg(a, tid)), f, l, m)
            == transfer_amount_count(s, f, l, m),
        tx_count(s.filter(|a: BudgetAssignment| !is_tx_leg(a, tid)), tid) == 0,
        tid2 != tid ==> tx_count(s.filter(|a: BudgetAssignment| !is_tx_leg(a, tid)), tid2)
            == tx_count(s, tid2),
    decreases s.len(),
{
    reveal(Seq::filter);
    if s.len() > 0 {
        lemma_strip_tx_legs_counts(s.drop_last(), tid, f, l, m, tid2);
        let keep = |a: BudgetAssignment| !is_tx_leg(a, tid);
        if keep(s.last()) {
            assert(s.filter(keep) == s.drop_last().filter(keep).push(s.last()));
            lemma_transfer_count_push(s.drop_last().filter(keep), s.last(), f, l);
            lemma_transfer_amount_count_push(s.drop_last().filter(keep), s.last(), f, l, m);
            lemma_tx_count_push(s.drop_last().filter(keep), s.last(), tid);
            lemma_tx_count_push(s.drop_last().filter(keep), s.last(), tid2);
        }
    }
}

/// Some budget in `bs` has id `id`.
pub open spec fn has_budget_id(bs: Seq<BudgetView>, id: Id) -> bool {
    exists|k: int| 0 <= k < bs.len() && (#[trigger] bs[k]).id == id
}

/// `i` is the first position in `bs` whose budget has id `id`.
pub open spec fn first_budget_index(bs: Seq<BudgetView>, id: Id, i: int) -> bool {
    &&& 0 <= i < bs.len()
    &&& bs[i].id == id
    &&& forall|k: int| 0 <= k < i ==> (#[trigger] bs[k]).id != id
}

/// `i` is the first position in `ss` whose schedule has id `id`.
pub open spec fn first_schedule_index(ss: Seq<Schedule>, id: Id, i: int) -> bool {
    &&& 0 <= i < ss.len()
    &&& ss[i].id == id
    &&& forall|k: int| 0 <= k < i ==> (#[trigger] ss[k]).id != id
}

/// `i` is the first position in `ts` whose transaction has id `id`.
pub open spec fn first_transaction_index(ts: Seq<Transaction>, id: Id, i: int) -> bool {
    &&& 0 <= i < ts.len()
    &&& ts[i].id == id
    &&& forall|k: int| 0 <= k < i ==> (#[trigger] ts[k]).id != id
}

/// No leg anywhere in `bs` uses link id `link`.
pub open spec fn link_unused(bs: Seq<BudgetView>, link: Id) -> bool {
    forall|i: int, j: int|
        #![trigger bs[i].assignments[j]]
        0 <= i < bs.len() && 0 <= j < bs[i].assignments.len() ==> !(bs[i].assignments[j].source
            matches BudgetAssignmentSource::OtherBudget { link_id, .. } && link_id == link)
}

/// Budget ids are pairwise distinct.
pub open spec fn budgets_unique_ids(bs: Seq<BudgetView>) -> bool {
    forall|i: int, j: int|
        #![trigger bs[i].id, bs[j].id]
        0 <= i < j < bs.len() ==> bs[i].id != bs[j].id
}

/// Transaction ids are pairwise distinct.
pub open spec fn transactions_unique_ids(ts: Seq<Transaction>) -> bool {
    forall|i: int, j: int|
        #![trigger ts[i].id, ts[j].id]
        0 <= i < j < ts.len() ==> ts[i].id != ts[j].id
}

/// Schedule ids are pairwise distinct.
pub open spec fn schedules_unique_ids(ss: Seq<Schedule>) -> bool {
    forall|i: int, j: int|
        #![trigger ss[i].id, ss[j].id]
        0 <= i < j < ss.len() ==> ss[i].id != ss[j].id
}

/// The transfer leg at position `j` of budget `i` has its exactly-one
/// mirror: in the budget it names, precisely one leg carries the same link
/// sourced back from budget `i`, and that leg holds the negated amount.
pub open spec fn transfer_leg_matched(bs: Seq<BudgetView>, i: int, j: int) -> bool {
    let a = bs[i].assignments[j];
    let from = a.source->from_budget_id;
    let link = a.source->link_id;
    &&& has_budget_id(bs, from)
    &&& forall|k: int|
        #![trigger bs[k].id]
        0 <= k < bs.len() && bs[k].id == from ==> mirror_count(bs[k], bs[i].id, link) == 1
            && mirror_amount_count(bs[k], bs[i].id, link, -a.amount.minor) == 1
}

/// The balance invariant: every transfer leg has exactly one mirror leg,
/// in the budget it names, under the same link, holding the negated amount.
pub open spec fn balanced(bs: Seq<BudgetView>) -> bool {
    forall|i: int, j: int|
        #![trigger bs[i].assignments[j]]
        0 <= i < bs.len() && 0 <= j < bs[i].assignments.len() && bs[i].assignments[j].source
            is OtherBudget ==> transfer_leg_matched(bs, i, j)
}

/// The single-leg invariant: at most one leg system-wide mirrors any given
/// transaction, and such a leg lives in the budget that the transaction
/// currently funds.
pub open spec fn single_leg(bs: Seq<BudgetView>, ts: Seq<Transaction>) -> bool {
    &&& forall|tid: Id| #[trigger] tx_leg_count(bs, tid) <= 1
    &&& forall|i: int, j: int|
        #![trigger bs[i].assignments[j]]
        0 <= i < bs.len() && 0 <= j < bs[i].assignments.len() && bs[i].assignments[j].source
            is Transaction ==> tx_leg_resident(bs, ts, i, j)
}

/// The transaction named by the leg at position `j` of budget `i` exists
/// and funds exactly that budget.
pub open spec fn tx_leg_resident(bs: Seq<BudgetView>, ts: Seq<Transaction>, i: int, j: int) -> bool {
    let tid = bs[i].assignments[j].source->from_transaction_id;
    exists|t: int|
        0 <= t < ts.len() && (#[trigger] ts[t]).id == tid && ts[t].budget_id == bs[i].id
}

/// The schedule a budget owns through a repeating target, if any.
pub open spec fn budget_owned_schedule(b: BudgetView) -> Option<Schedule> {
    match b.target {
        Some(BudgetTarget::Repeating { schedule, .. }) => Some(schedule),
        _ => None,
    }
}

/// The schedule value `s` is a row of the schedules table.
pub open spec fn schedule_listed(ss: Seq<Schedule>, s: Schedule) -> bool {
    exists|k: int| 0 <= k < ss.len() && #[trigger] ss[k] == s
}

/// Every schedule owned by a repeating budget target is a row of the
/// schedules table, and no two budgets own the same schedule id.
pub open spec fn budget_schedules_ok(bs: Seq<BudgetView>, ss: Seq<Schedule>) -> bool {
    forall|i: int|
        #![trigger bs[i]]
        0 <= i < bs.len() && budget_owned_schedule(bs[i]) is Some ==> {
            &&& schedule_listed(ss, budget_owned_schedule(bs[i])->0)
            &&& forall|j: int|
                #![trigger bs[j]]
                0 <= j < bs.len() && j != i && budget_owned_schedule(bs[j]) is Some
                    ==> budget_owned_schedule(bs[j])->0.id != budget_owned_schedule(bs[i])->0.id
        }
}

/// Every pay-frequency schedule is a row of the schedules table, no two
/// users share one, and none coincides with a budget-owned schedule id.
pub open spec fn user_schedules_ok(
    us: Seq<UserView>,
    bs: Seq<BudgetView>,
    ss: Seq<Schedule>,
) -> bool {
    forall|i: int|
        #![trigger us[i]]
        0 <= i < us.len() && us[i].pay_frequency is Some ==> {
            &&& schedule_listed(ss, us[i].pay_frequency->0)
            &&& forall|j: int|
                #![trigger us[j]]
                0 <= j < us.len() && j != i && us[j].pay_frequency is Some
                    ==> us[j].pay_frequency->0.id != us[i].pay_frequency->0.id
            &&& forall|j: int|
                #![trigger bs[j]]
                0 <= j < bs.len() && budget_owned_schedule(bs[j]) is Some
                    ==> budget_owned_schedule(bs[j])->0.id != us[i].pay_frequency->0.id
        }
}

} // verus!
