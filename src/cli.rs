//! The ledger's commands, as plain values, and what each one does to a store.

use vstd::prelude::*;
use crate::date::{date_from_ymd, days_in_month, CivilDate, MAX_YEAR, MIN_YEAR};
use crate::filter::{FilterOptions, QueryFilter};
use crate::mapper::{amount_of, arg_to_cents, arg_to_time, resolved_date, InputError};
use crate::model::{default_category, Record, RecordView};
use crate::repo::{RecordUpdate, Repo, RepoError, StoreView};
use crate::text::{all_digits, capped, capped_digits, chars_of, digits_in, digits_value};

verus! {

/// The command line: one command.
pub struct Cli {
    pub cmd: Commands,
}

/// The ledger's commands.
pub enum Commands {
    Add(AddCmd),
    Ls(ListCmd),
    Mod(ModCmd),
    Rm(RmCmd),
}

/// Add a record.
pub struct AddCmd {
    /// Name of the record.
    pub name: String,
    /// Amount of the record, as a decimal such as `12.5`.
    pub amount: String,
    /// Date of the record, loosely written; today when absent.
    pub date: Option<String>,
    /// Category of the record.
    pub category: Option<String>,
    /// Description of the record.
    pub description: Option<String>,
}

/// List records.
pub struct ListCmd {
    /// Text that the name or the description contains.
    pub query: Option<String>,
    /// An identity.
    pub id: Option<i32>,
    /// A category.
    pub category: Option<String>,
    /// A single month, `1` to `12`.
    pub month: Option<String>,
    /// A single year.
    pub year: Option<String>,
    /// First date of a range, loosely written.
    pub from: Option<String>,
    /// Last date of a range, loosely written; needs `from`.
    pub to: Option<String>,
}

/// Change fields of a record.
pub struct ModCmd {
    /// Identity of the record.
    pub id: i32,
    /// New name.
    pub name: Option<String>,
    /// New amount, as a decimal.
    pub amount: Option<String>,
    /// New date, loosely written.
    pub date: Option<String>,
    /// New category.
    pub category: Option<String>,
    /// New description.
    pub description: Option<String>,
    /// Apply without asking.
    pub force: Option<bool>,
}

/// Remove a record.
pub struct RmCmd {
    /// Identity of the record.
    pub id: i32,
}

/// Why a command failed.
#[derive(Clone, Debug, PartialEq, Eq)]
pub enum CmdError {
    /// Its arguments were not accepted.
    Input(InputError),
    /// The store refused the operation.
    Store(RepoError),
}

/// The date with this year, month and day.
pub open spec fn date_of(t: (int, int, int)) -> CivilDate {
    CivilDate { year: t.0 as i32, month: t.1 as u32, day: t.2 as u32 }
}

/// An optional date text, resolved; absent means `today`.
pub open spec fn optional_date(t: Option<String>, today: CivilDate) -> Result<CivilDate, InputError> {
    match t {
        None => Ok(today),
        Some(s) => match resolved_date(s@, today) {
            Ok(d) => Ok(date_of(d)),
            Err(e) => Err(e),
        },
    }
}

/// A plain number written in decimal digits.
pub open spec fn number_of(s: Seq<char>) -> Option<int> {
    if s.len() > 0 && all_digits(s) { Some(digits_value(s)) } else { None }
}

/// A command's outcome as values.
pub open spec fn outcome_view(r: Result<Vec<Record>, CmdError>) -> Result<Seq<RecordView>, CmdError> {
    match r {
        Ok(v) => Ok(v@.map_values(|x: Record| x@)),
        Err(e) => Err(e),
    }
}

/// What a command does to a store.
pub trait ExecutableCmd {
    /// The store after the command, and the records it reports.
    spec fn effect(&self, s: StoreView, today: CivilDate) -> (StoreView, Result<Seq<RecordView>, CmdError>);

    /// Runs the command against `repo`, with `today` as the current date.
    fn exec(&self, repo: &mut Repo, today: CivilDate) -> (r: Result<Vec<Record>, CmdError>)
        requires
            old(repo).wf(),
            today.wf(),
        ensures
            final(repo).wf(),
            (final(repo)@, outcome_view(r)) == self.effect(old(repo)@, today),
    ;
}

impl AddCmd {
    /// The record the command describes, without identity: a non-empty name,
    /// the amount, the date (today when absent), and the category and
    /// description with their defaults.
    pub open spec fn record_of(&self, today: CivilDate) -> Result<RecordView, InputError> {
        match optional_date(self.date, today) {
            Err(e) => Err(e),
            Ok(d) => match amount_of(self.amount@) {
                Err(e) => Err(e),
                Ok(c) => if self.name@.len() == 0 {
                    Err(InputError::Validation)
                } else {
                    Ok(
                        RecordView {
                            id: 0,
                            name: self.name@,
                            cents: c as int,
                            date: d,
                            category: match self.category {
                                Some(c) => c@,
                                None => default_category(),
                            },
                            description: match self.description {
                                Some(t) => t@,
                                None => Seq::<char>::empty(),
                            },
                        },
                    )
                },
            },
        }
    }

    /// Validates the arguments into a record without identity.
    pub fn to_record(&self, today: CivilDate) -> (r: Result<Record, InputError>)
        requires
            today.wf(),
        ensures
            match r {
                Ok(x) => self.record_of(today) == Ok::<RecordView, InputError>(x@) && x.date.wf(),
                Err(e) => self.record_of(today) == Err::<RecordView, InputError>(e),
            },
    {
        let date = match &self.date {
            None => today,
            Some(t) => match arg_to_time(t.as_str(), today) {
                Ok(d) => d,
                Err(e) => return Err(e),
            },
        };
        let cents = match arg_to_cents(self.amount.as_str()) {
            Ok(c) => c,
            Err(e) => return Err(e),
        };
        if self.name.as_str().is_empty() {
            return Err(InputError::Validation);
        }
        Ok(Record::new(self.name.clone(), cents, date, copy_text(&self.category), copy_text(&self.description)))
    }
}

/// A copy of an optional text.
fn copy_text(t: &Option<String>) -> (r: Option<String>)
    ensures
        r == *t,
{
    match t {
        Some(s) => Some(s.clone()),
        None => None,
    }
}

impl ExecutableCmd for AddCmd {
    open spec fn effect(&self, s: StoreView, today: CivilDate) -> (StoreView, Result<Seq<RecordView>, CmdError>) {
        match self.record_of(today) {
            Err(e) => (s, Err(CmdError::Input(e))),
            Ok(rec) => match s.insert(rec) {
                (t, Ok(x)) => (t, Ok(seq![x])),
                (t, Err(e)) => (t, Err(CmdError::Store(e))),
            },
        }
    }

    fn exec(&self, repo: &mut Repo, today: CivilDate) -> (r: Result<Vec<Record>, CmdError>) {
        let rec = match self.to_record(today) {
            Ok(x) => x,
            Err(e) => return Err(CmdError::Input(e)),
        };
        match repo.insert(&rec) {
            Ok(x) => {
                let out = vec![x];
                proof {
                    assert(out@.map_values(|y: Record| y@) =~= seq![out@[0]@]);
                }
                Ok(out)
            },
            Err(e) => Err(CmdError::Store(e)),
        }
    }
}

/// Reads a plain decimal number; values at or above the digit-scan cap are
/// reported as the cap.
fn read_number(t: &str) -> (r: Option<i64>)
    ensures
        match r {
            Some(v) => number_of(t@) is Some && v == capped(number_of(t@)->0) && 0 <= v,
            None => number_of(t@) is None,
        },
{
    let s = chars_of(t);
    proof {
        assert(s@.subrange(0, s@.len() as int) =~= s@);
    }
    if s.len() == 0 || !digits_in(&s, 0, s.len()) {
        return None;
    }
    Some(capped_digits(&s, 0, s.len()))
}

/// The last day of month `m` of year `y`, as chrono's calendar has it.
fn last_day(y: i32, m: u32) -> (r: CivilDate)
    requires
        MIN_YEAR <= y <= MAX_YEAR,
        1 <= m <= 12,
    ensures
        r == (CivilDate { year: y, month: m, day: days_in_month(y as int, m as int) as u32 }),
{
    let mut d: u32 = 31;
    while d > 28
        invariant
            28 <= d <= 31,
            days_in_month(y as int, m as int) <= d,
            MIN_YEAR <= y <= MAX_YEAR,
            1 <= m <= 12,
        decreases d,
    {
        if let Some(x) = date_from_ymd(y, m, d) {
            return x;
        }
        d = d - 1;
    }
    CivilDate { year: y, month: m, day: 28 }
}

impl ListCmd {
    /// The date range the command asks for: `from` to `to` (which needs
    /// `from`), or one month, or one year; the two kinds exclude each other.
    /// A month without a year is in `today`'s year.
    pub open spec fn range_of(&self, today: CivilDate) -> Result<(Option<CivilDate>, Option<CivilDate>), InputError> {
        if self.from is Some || self.to is Some {
            if self.month is Some || self.year is Some || self.from is None {
                Err(InputError::Validation)
            } else {
                match optional_date(self.from, today) {
                    Err(e) => Err(e),
                    Ok(a) => match self.to {
                        None => Ok((Some(a), None)),
                        Some(_) => match optional_date(self.to, today) {
                            Err(e) => Err(e),
                            Ok(b) => if a.on_or_before(b) {
                                Ok((Some(a), Some(b)))
                            } else {
                                Err(InputError::Validation)
                            },
                        },
                    },
                }
            }
        } else if self.month is Some || self.year is Some {
            let y = match self.year {
                Some(t) => number_of(t@),
                None => Some(today.year as int),
            };
            let m = match self.month {
                Some(t) => number_of(t@),
                None => Some(1int),
            };
            if y is None || m is None || !(MIN_YEAR <= y->0 <= MAX_YEAR) || !(1 <= m->0 <= 12) {
                Err(InputError::Parse)
            } else if self.month is Some {
                Ok((
                    Some(CivilDate { year: y->0 as i32, month: m->0 as u32, day: 1 }),
                    Some(CivilDate { year: y->0 as i32, month: m->0 as u32, day: days_in_month(y->0, m->0) as u32 }),
                ))
            } else {
                Ok((
                    Some(CivilDate { year: y->0 as i32, month: 1, day: 1 }),
                    Some(CivilDate { year: y->0 as i32, month: 12, day: 31 }),
                ))
            }
        } else {
            Ok((None, None))
        }
    }

    /// The filter the command asks for.
    pub open spec fn filter_of(&self, today: CivilDate) -> Result<FilterOptions, InputError> {
        match self.range_of(today) {
            Err(e) => Err(e),
            Ok((a, b)) => Ok(
                FilterOptions {
                    id: self.id,
                    fuzzy: self.query,
                    category: self.category,
                    date_from: a,
                    date_to: b,
                },
            ),
        }
    }

    /// The requested date range.
    pub fn to_range(&self, today: CivilDate) -> (r: Result<(Option<CivilDate>, Option<CivilDate>), InputError>)
        requires
            today.wf(),
        ensures
            r == self.range_of(today),
    {
        if self.from.is_some() || self.to.is_some() {
            if self.month.is_some() || self.year.is_some() || self.from.is_none() {
                return Err(InputError::Validation);
            }
            let a = match &self.from {
                Some(t) => match arg_to_time(t.as_str(), today) {
                    Ok(d) => d,
                    Err(e) => return Err(e),
                },
                None => return Err(InputError::Validation),
            };
            match &self.to {
                None => Ok((Some(a), None)),
                Some(t) => {
                    let b = match arg_to_time(t.as_str(), today) {
                        Ok(d) => d,
                        Err(e) => return Err(e),
                    };
                    if a.is_on_or_before(&b) {
                        Ok((Some(a), Some(b)))
                    } else {
                        Err(InputError::Validation)
                    }
                },
            }
        } else if self.month.is_some() || self.year.is_some() {
            let y: i64 = match &self.year {
                Some(t) => match read_number(t.as_str()) {
                    Some(v) => v,
                    None => return Err(InputError::Parse),
                },
                None => today.year as i64,
            };
            let m: i64 = match &self.month {
                Some(t) => match read_number(t.as_str()) {
                    Some(v) => v,
                    None => return Err(InputError::Parse),
                },
                None => 1,
            };
            if y < MIN_YEAR as i64 || y > MAX_YEAR as i64 || m < 1 || m > 12 {
                return Err(InputError::Parse);
            }
            if self.month.is_some() {
                let first = CivilDate { year: y as i32, month: m as u32, day: 1 };
                Ok((Some(first), Some(last_day(y as i32, m as u32))))
            } else {
                Ok((
                    Some(CivilDate { year: y as i32, month: 1, day: 1 }),
                    Some(CivilDate { year: y as i32, month: 12, day: 31 }),
                ))
            }
        } else {
            Ok((None, None))
        }
    }

    /// Builds the filter the command asks for.
    pub fn to_filter(&self, today: CivilDate) -> (r: Result<QueryFilter, InputError>)
        requires
            today.wf(),
        ensures
            match r {
                Ok(f) => self.filter_of(today) == Ok::<FilterOptions, InputError>(f.options()),
                Err(e) => self.filter_of(today) == Err::<FilterOptions, InputError>(e),
            },
    {
        let (a, b) = match self.to_range(today) {
            Ok(x) => x,
            Err(e) => return Err(e),
        };
        let opts = FilterOptions {
            id: self.id,
            fuzzy: copy_text(&self.query),
            category: copy_text(&self.category),
            date_from: a,
            date_to: b,
        };
        proof {
            if self.month is Some || self.year is Some {
                if self.from is None && self.to is None {
                    assert(opts.range_ok());
                }
            }
        }
        QueryFilter::new(opts)
    }
}

impl ExecutableCmd for ListCmd {
    open spec fn effect(&self, s: StoreView, today: CivilDate) -> (StoreView, Result<Seq<RecordView>, CmdError>) {
        match self.filter_of(today) {
            Err(e) => (s, Err(CmdError::Input(e))),
            Ok(f) => match s.find(f) {
                Ok(v) => (s, Ok(v)),
                Err(e) => (s, Err(CmdError::Store(e))),
            },
        }
    }

    fn exec(&self, repo: &mut Repo, today: CivilDate) -> (r: Result<Vec<Record>, CmdError>) {
        let f = match self.to_filter(today) {
            Ok(f) => f,
            Err(e) => return Err(CmdError::Input(e)),
        };
        match repo.find(&f) {
            Ok(v) => Ok(v),
            Err(e) => Err(CmdError::Store(e)),
        }
    }
}

impl ModCmd {
    /// The update the command describes: each given field, validated; a
    /// given name must not be empty.
    pub open spec fn update_of(&self, today: CivilDate) -> Result<RecordUpdate, InputError> {
        let d: Result<Option<CivilDate>, InputError> = match self.date {
            None => Ok(None),
            Some(t) => match resolved_date(t@, today) {
                Ok(x) => Ok(Some(date_of(x))),
                Err(e) => Err(e),
            },
        };
        let c: Result<Option<i32>, InputError> = match self.amount {
            None => Ok(None),
            Some(t) => match amount_of(t@) {
                Ok(v) => Ok(Some(v)),
                Err(e) => Err(e),
            },
        };
        match d {
            Err(e) => Err(e),
            Ok(dd) => match c {
                Err(e) => Err(e),
                Ok(cc) => if self.name is Some && self.name->0@.len() == 0 {
                    Err(InputError::Validation)
                } else {
                    Ok(
                        RecordUpdate {
                            name: self.name,
                            cents: cc,
                            date: dd,
                            category: self.category,
                            description: self.description,
                        },
                    )
                },
            },
        }
    }

    /// Validates the arguments into an update.
    pub fn to_update(&self, today: CivilDate) -> (r: Result<RecordUpdate, InputError>)
        requires
            today.wf(),
        ensures
            r == self.update_of(today),
    {
        let date = match &self.date {
            None => None,
            Some(t) => match arg_to_time(t.as_str(), today) {
                Ok(d) => Some(d),
                Err(e) => return Err(e),
            },
        };
        let cents = match &self.amount {
            None => None,
            Some(t) => match arg_to_cents(t.as_str()) {
                Ok(c) => Some(c),
                Err(e) => return Err(e),
            },
        };
        if let Some(n) = &self.name {
            if n.as_str().is_empty() {
                return Err(InputError::Validation);
            }
        }
        Ok(
            RecordUpdate {
                name: copy_text(&self.name),
                cents,
                date,
                category: copy_text(&self.category),
                description: copy_text(&self.description),
            },
        )
    }
}

impl ExecutableCmd for ModCmd {
    open spec fn effect(&self, s: StoreView, today: CivilDate) -> (StoreView, Result<Seq<RecordView>, CmdError>) {
        match self.update_of(today) {
            Err(e) => (s, Err(CmdError::Input(e))),
            Ok(u) => match s.modify(self.id as int, u) {
                (t, Ok(x)) => (t, Ok(seq![x])),
                (t, Err(e)) => (t, Err(CmdError::Store(e))),
            },
        }
    }

    fn exec(&self, repo: &mut Repo, today: CivilDate) -> (r: Result<Vec<Record>, CmdError>) {
        let u = match self.to_update(today) {
            Ok(u) => u,
            Err(e) => return Err(CmdError::Input(e)),
        };
        match repo.modify(self.id, &u) {
            Ok(x) => {
                let out = vec![x];
                proof {
                    assert(out@.map_values(|y: Record| y@) =~= seq![out@[0]@]);
                }
                Ok(out)
            },
            Err(e) => Err(CmdError::Store(e)),
        }
    }
}

impl ExecutableCmd for RmCmd {
    open spec fn effect(&self, s: StoreView, today: CivilDate) -> (StoreView, Result<Seq<RecordView>, CmdError>) {
        match s.remove(self.id as int) {
            (t, Ok(x)) => (t, Ok(seq![x])),
            (t, Err(e)) => (t, Err(CmdError::Store(e))),
        }
    }

    fn exec(&self, repo: &mut Repo, today: CivilDate) -> (r: Result<Vec<Record>, CmdError>) {
        match repo.rm(self.id) {
            Ok(x) => {
                let out = vec![x];
                proof {
                    assert(out@.map_values(|y: Record| y@) =~= seq![out@[0]@]);
                }
                Ok(out)
            },
            Err(e) => Err(CmdError::Store(e)),
        }
    }
}

impl ExecutableCmd for Commands {
    open spec fn effect(&self, s: StoreView, today: CivilDate) -> (StoreView, Result<Seq<RecordView>, CmdError>) {
        match self {
            Commands::Add(c) => c.effect(s, today),
            Commands::Ls(c) => c.effect(s, today),
            Commands::Mod(c) => c.effect(s, today),
            Commands::Rm(c) => c.effect(s, today),
        }
    }

    fn exec(&self, repo: &mut Repo, today: CivilDate) -> (r: Result<Vec<Record>, CmdError>) {
        match self {
            Commands::Add(c) => c.exec(repo, today),
            Commands::Ls(c) => c.exec(repo, today),
            Commands::Mod(c) => c.exec(repo, today),
            Commands::Rm(c) => c.exec(repo, today),
        }
    }
}

/// A failed command leaves the store as it was: every command is all or
/// nothing.
pub proof fn lemma_failed_command_changes_nothing(c: Commands, s: StoreView, today: CivilDate)
    requires
        s.wf(),
        c.effect(s, today).1 is Err,
    ensures
        c.effect(s, today).0 == s,
{
}

} // verus!
