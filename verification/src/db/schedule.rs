//! Schedule store: row operations on the schedules table.

use vstd::prelude::*;

use crate::db::{first_schedule_index, Database, Error};
use crate::models::{
    parse_period_type, period_name, period_type_name, str_eq, Date, Id, Schedule, SchedulePeriod,
    SchedulePeriodType,
};

verus! {

/// Some schedule row carries id `id`.
pub open spec fn has_schedule_id(ss: Seq<Schedule>, id: Id) -> bool {
    exists|k: int| 0 <= k < ss.len() && (#[trigger] ss[k]).id == id
}

/// The index of the first schedule row with id `id`, if any.
fn find_index(schedules: &Vec<Schedule>, id: Id) -> (r: Option<usize>)
    ensures
        match r {
            Some(i) => i < schedules@.len() && schedules@[i as int].id == id && forall|k: int|
                0 <= k < i ==> (#[trigger] schedules@[k]).id != id,
            None => !has_schedule_id(schedules@, id),
        },
{
    let n = schedules.len();
    let mut i: usize = 0;
    while i < n
        invariant
            i <= n,
            n == schedules@.len(),
            forall|k: int| 0 <= k < i ==> (#[trigger] schedules@[k]).id != id,
        decreases n - i,
    {
        if schedules[i].id.value == id.value {
            return Some(i);
        }
        i = i + 1;
    }
    None
}

/// Inserts a schedule row. The engine enforces the primary key, so an
/// insert under an id already present fails without changing anything.
pub fn create(db: &mut Database, schedule: Schedule) -> (r: Result<(), Error>)
    ensures
        r is Ok <==> !has_schedule_id(old(db).schedules@, schedule.id),
        r is Ok ==> final(db).schedules@ == old(db).schedules@.push(schedule),
        r is Err ==> final(db).schedules@ == old(db).schedules@,
        r matches Err(e) ==> e is Unknown,
        final(db).budgets == old(db).budgets,
        final(db).transactions@ == old(db).transactions@,
        final(db).users == old(db).users,
        final(db).payees@ == old(db).payees@,
        final(db).bank_accounts@ == old(db).bank_accounts@,
{
    match find_index(&db.schedules, schedule.id) {
        Some(_) => Err(
            Error::Unknown { error: "duplicate primary key".to_owned() },
        ),
        None => {
            db.schedules.push(schedule);
            Ok(())
        },
    }
}

/// Point lookup of one schedule row by id.
pub fn get_single(db: &Database, id: Id) -> (r: Result<Schedule, Error>)
    ensures
        r is Ok <==> has_schedule_id(db.schedules@, id),
        r matches Ok(s) ==> db.schedules@.contains(s) && s.id == id,
        r matches Err(e) ==> e is NotFound,
{
    match find_index(&db.schedules, id) {
        Some(i) => {
            let s = db.schedules[i];
            proof {
                assert(db.schedules@[i as int] == s);
            }
            Ok(s)
        },
        None => Err(Error::NotFound),
    }
}

/// Lookup by id-set: all schedule rows whose id occurs in `ids`, in table
/// order.
pub fn get_by_ids(db: &Database, ids: &Vec<Id>) -> (r: Result<Vec<Schedule>, Error>)
    ensures
        r matches Ok(v) ==> v@ == db.schedules@.filter(|s: Schedule| ids@.contains(s.id)),
        r is Ok,
{
    let ghost ss = db.schedules@;
    let ghost pred = |s: Schedule| ids@.contains(s.id);
    let n = db.schedules.len();
    let mut out: Vec<Schedule> = Vec::new();
    let mut i: usize = 0;
    proof {
        assert(out@ =~= ss.take(0).filter(pred));
    }
    while i < n
        invariant
            i <= n,
            n == ss.len(),
            ss == db.schedules@,
            pred == (|s: Schedule| ids@.contains(s.id)),
            out@ == ss.take(i as int).filter(pred),
        decreases n - i,
    {
        proof {
            reveal(Seq::filter);
            assert(ss.take(i as int + 1).drop_last() =~= ss.take(i as int));
            assert(ss.take(i as int + 1).last() == ss[i as int]);
        }
        if id_listed(ids, db.schedules[i].id) {
            out.push(db.schedules[i]);
            proof {
                assert(out@ =~= ss.take(i as int + 1).filter(pred));
            }
        } else {
            proof {
                assert(out@ =~= ss.take(i as int + 1).filter(pred));
            }
        }
        i = i + 1;
    }
    proof {
        assert(ss.take(n as int) =~= ss);
    }
    Ok(out)
}

/// Whether `id` occurs in `ids`.
fn id_listed(ids: &Vec<Id>, id: Id) -> (r: bool)
    ensures
        r == ids@.contains(id),
{
    let n = ids.len();
    let mut i: usize = 0;
    while i < n
        invariant
            i <= n,
            n == ids@.len(),
            forall|k: int| 0 <= k < i ==> #[trigger] ids@[k] != id,
        decreases n - i,
    {
        if ids[i].value == id.value {
            assert(ids@[i as int] == id);
            return true;
        }
        i = i + 1;
    }
    false
}

/// Full-row update by id: replaces the stored period in place, keeping the
/// id. Updating an absent id changes nothing.
pub fn update(db: &mut Database, schedule: Schedule) -> (r: Result<(), Error>)
    ensures
        r is Ok,
        has_schedule_id(old(db).schedules@, schedule.id) ==> exists|i: int|
            #[trigger] first_schedule_index(old(db).schedules@, schedule.id, i) && final(db).schedules@ == old(db).schedules@.update(i, schedule),
        !has_schedule_id(old(db).schedules@, schedule.id) ==> final(db).schedules@ == old(
            db,
        ).schedules@,
        final(db).budgets == old(db).budgets,
        final(db).transactions@ == old(db).transactions@,
        final(db).users == old(db).users,
        final(db).payees@ == old(db).payees@,
        final(db).bank_accounts@ == old(db).bank_accounts@,
{
    let ghost gid = schedule.id;
    match find_index(&db.schedules, schedule.id) {
        Some(i) => {
            proof {
                assert(first_schedule_index(db.schedules@, gid, i as int));
            }
            db.schedules.set(i, schedule);
            Ok(())
        },
        None => Ok(()),
    }
}

/// Deletes a schedule row by id. Deleting an absent id changes nothing.
pub fn delete(db: &mut Database, id: Id) -> (r: Result<(), Error>)
    ensures
        r is Ok,
        has_schedule_id(old(db).schedules@, id) ==> exists|i: int|
            #[trigger] first_schedule_index(old(db).schedules@, id, i) && final(db).schedules@
                == old(db).schedules@.remove(i),
        !has_schedule_id(old(db).schedules@, id) ==> final(db).schedules@ == old(db).schedules@,
        final(db).budgets == old(db).budgets,
        final(db).transactions@ == old(db).transactions@,
        final(db).users == old(db).users,
        final(db).payees@ == old(db).payees@,
        final(db).bank_accounts@ == old(db).bank_accounts@,
{
    match find_index(&db.schedules, id) {
        Some(i) => {
            proof {
                assert(first_schedule_index(db.schedules@, id, i as int));
            }
            db.schedules.remove(i);
            Ok(())
        },
        None => Ok(()),
    }
}

/// A stored schedule row: the discriminant decides which of the nullable
/// columns must be populated.
#[derive(PartialEq, Debug)]
pub struct ScheduleDbModel {
    pub id: Id,
    pub period_type: String,
    pub period_starting_on: Option<Date>,
    pub custom_period_type: Option<String>,
    pub custom_period_every_count: Option<i32>,
}

/// The mathematical abstraction of a schedule row.
#[verifier::ext_equal]
pub struct ScheduleRowView {
    pub id: Id,
    pub period_type: Seq<char>,
    pub period_starting_on: Option<Date>,
    pub custom_period_type: Option<Seq<char>>,
    pub custom_period_every_count: Option<i32>,
}

impl View for ScheduleDbModel {
    type V = ScheduleRowView;

    open spec fn view(&self) -> ScheduleRowView {
        ScheduleRowView {
            id: self.id,
            period_type: self.period_type@,
            period_starting_on: self.period_starting_on,
            custom_period_type: crate::db::budgets::opt_view(self.custom_period_type),
            custom_period_every_count: self.custom_period_every_count,
        }
    }
}

impl DeepView for ScheduleDbModel {
    type V = ScheduleRowView;

    open spec fn deep_view(&self) -> ScheduleRowView {
        self.view()
    }
}

impl Clone for ScheduleDbModel {
    fn clone(&self) -> (res: Self)
        ensures
            res@ == self@,
    {
        ScheduleDbModel {
            id: self.id,
            period_type: self.period_type.clone(),
            period_starting_on: self.period_starting_on,
            custom_period_type: match &self.custom_period_type {
                Some(s) => Some(s.clone()),
                None => None,
            },
            custom_period_every_count: self.custom_period_every_count,
        }
    }
}

/// The row a schedule maps to.
pub open spec fn schedule_row(s: Schedule) -> ScheduleRowView {
    ScheduleRowView {
        id: s.id,
        period_type: period_name(s.period),
        period_starting_on: match s.period {
            SchedulePeriod::Weekly { starting_on } => Some(starting_on),
            SchedulePeriod::Fortnightly { starting_on } => Some(starting_on),
            SchedulePeriod::Monthly { starting_on } => Some(starting_on),
            SchedulePeriod::Yearly { starting_on } => Some(starting_on),
            SchedulePeriod::Custom { .. } => Option::<Date>::None,
        },
        custom_period_type: match s.period {
            SchedulePeriod::Custom { period, .. } => Some(period_type_name(period)),
            _ => Option::<Seq<char>>::None,
        },
        custom_period_every_count: match s.period {
            SchedulePeriod::Custom { every_x_periods, .. } => Some(every_x_periods as i32),
            _ => Option::<i32>::None,
        },
    }
}

/// The schedule a stored row denotes, if every column its discriminant
/// requires is populated.
pub open spec fn schedule_from_row(r: ScheduleRowView) -> Option<Schedule> {
    if r.period_type == "Weekly"@ {
        match r.period_starting_on {
            Some(starting_on) => Some(
                Schedule { id: r.id, period: SchedulePeriod::Weekly { starting_on } },
            ),
            Option::<Date>::None => Option::<Schedule>::None,
        }
    } else if r.period_type == "Fortnightly"@ {
        match r.period_starting_on {
            Some(starting_on) => Some(
                Schedule { id: r.id, period: SchedulePeriod::Fortnightly { starting_on } },
            ),
            Option::<Date>::None => Option::<Schedule>::None,
        }
    } else if r.period_type == "Monthly"@ {
        match r.period_starting_on {
            Some(starting_on) => Some(
                Schedule { id: r.id, period: SchedulePeriod::Monthly { starting_on } },
            ),
            Option::<Date>::None => Option::<Schedule>::None,
        }
    } else if r.period_type == "Yearly"@ {
        match r.period_starting_on {
            Some(starting_on) => Some(
                Schedule { id: r.id, period: SchedulePeriod::Yearly { starting_on } },
            ),
            Option::<Date>::None => Option::<Schedule>::None,
        }
    } else if r.period_type == "Custom"@ {
        match (r.custom_period_type, r.custom_period_every_count) {
            (Some(ct), Some(count)) => match parse_period_type(ct) {
                Some(period) => Some(
                    Schedule {
                        id: r.id,
                        period: SchedulePeriod::Custom {
                            period,
                            every_x_periods: count as u8,
                        },
                    },
                ),
                Option::<SchedulePeriodType>::None => Option::<Schedule>::None,
            },
            _ => Option::<Schedule>::None,
        }
    } else {
        Option::<Schedule>::None
    }
}

impl ScheduleDbModel {
    /// Encodes a schedule as its stored row.
    pub fn from_schedule(value: Schedule) -> (r: ScheduleDbModel)
        ensures
            r@ == schedule_row(value),
    {
        let r = ScheduleDbModel {
            id: value.id,
            period_type: value.period.to_string(),
            period_starting_on: match value.period {
                SchedulePeriod::Weekly { starting_on } => Some(starting_on),
                SchedulePeriod::Fortnightly { starting_on } => Some(starting_on),
                SchedulePeriod::Monthly { starting_on } => Some(starting_on),
                SchedulePeriod::Yearly { starting_on } => Some(starting_on),
                SchedulePeriod::Custom { .. } => None,
            },
            custom_period_type: match &value.period {
                SchedulePeriod::Custom { period, .. } => Some(period.to_string()),
                _ => None,
            },
            custom_period_every_count: match &value.period {
                SchedulePeriod::Custom { every_x_periods, .. } => Some(*every_x_periods as i32),
                _ => None,
            },
        };
        proof {
            assert(r@ =~= schedule_row(value));
        }
        r
    }

    /// Decodes a stored row back into a schedule.
    pub fn try_into_schedule(self) -> (r: Result<Schedule, String>)
        ensures
            schedule_from_row(self@) matches Some(s) ==> r == Ok::<Schedule, String>(s),
            schedule_from_row(self@) is None ==> r is Err,
    {
        let period: SchedulePeriod = if str_eq(self.period_type.as_str(), "Weekly") {
            match self.period_starting_on {
                Some(starting_on) => SchedulePeriod::Weekly { starting_on },
                None => {
                    return Err(
                        "period_starting_on must be set when type is weekly".to_owned(),
                    );
                },
            }
        } else if str_eq(self.period_type.as_str(), "Fortnightly") {
            match self.period_starting_on {
                Some(starting_on) => SchedulePeriod::Fortnightly { starting_on },
                None => {
                    return Err(
                        "period_starting_on must be set when type is fortnightly".to_owned(),
                    );
                },
            }
        } else if str_eq(self.period_type.as_str(), "Monthly") {
            match self.period_starting_on {
                Some(starting_on) => SchedulePeriod::Monthly { starting_on },
                None => {
                    return Err(
                        "period_starting_on must be set when type is Monthly".to_owned(),
                    );
                },
            }
        } else if str_eq(self.period_type.as_str(), "Yearly") {
            match self.period_starting_on {
                Some(starting_on) => SchedulePeriod::Yearly { starting_on },
                None => {
                    return Err(
                        "period_starting_on must be set when type is yearly".to_owned(),
                    );
                },
            }
        } else if str_eq(self.period_type.as_str(), "Custom") {
            let ct = match &self.custom_period_type {
                Some(ct) => ct,
                None => {
                    return Err(
                        "custom_period_type must be set when period_type is custom".to_owned(),
                    );
                },
            };
            let period = match SchedulePeriodType::from_str(ct.as_str()) {
                Ok(p) => p,
                Err(e) => {
                    return Err(e);
                },
            };
            let count = match self.custom_period_every_count {
                Some(count) => count,
                None => {
                    return Err(
                        "Expected custom_period_every_count to be set when period_type is custom".to_owned(),
                    );
                },
            };
            SchedulePeriod::Custom {
                period,
                every_x_periods: #[verifier::truncate] (count as u8),
            }
        } else {
            return Err("Unexpected period_type".to_owned());
        };

        Ok(Schedule { id: self.id, period })
    }
}

} // verus!
