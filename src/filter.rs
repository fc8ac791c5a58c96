//! Read-time predicates over records.

use vstd::prelude::*;
use crate::date::CivilDate;
use crate::mapper::InputError;
use crate::model::{Record, RecordView};
use crate::text::chars_of;

verus! {

/// `p` occurs in `t` as a contiguous run.
pub open spec fn is_substring(p: Seq<char>, t: Seq<char>) -> bool {
    exists|i: int| 0 <= i && i + p.len() <= t.len() && #[trigger] t.subrange(i, i + p.len()) == p
}

/// The named, optional parts of a filter; absent parts do not restrict.
pub struct FilterOptions {
    /// Exact identity.
    pub id: Option<i32>,
    /// Text that the name or the description contains (case-sensitive).
    pub fuzzy: Option<String>,
    /// Exact category.
    pub category: Option<String>,
    /// First date of the range, inclusive.
    pub date_from: Option<CivilDate>,
    /// Last date of the range, inclusive.
    pub date_to: Option<CivilDate>,
}

impl FilterOptions {
    /// Options that restrict nothing.
    pub fn empty() -> (r: FilterOptions)
        ensures
            r.id is None,
            r.fuzzy is None,
            r.category is None,
            r.date_from is None,
            r.date_to is None,
    {
        FilterOptions { id: None, fuzzy: None, category: None, date_from: None, date_to: None }
    }

    /// Every present part holds of `r`.
    pub open spec fn admits(&self, r: RecordView) -> bool {
        &&& (self.id is Some ==> r.id == self.id->0 as int)
        &&& (self.fuzzy is Some ==> is_substring(self.fuzzy->0@, r.name) || is_substring(
            self.fuzzy->0@,
            r.description,
        ))
        &&& (self.category is Some ==> r.category == self.category->0@)
        &&& (self.date_from is Some ==> self.date_from->0.on_or_before(r.date))
        &&& (self.date_to is Some ==> r.date.on_or_before(self.date_to->0))
    }

    /// The date range, when both ends are given, is not inverted.
    pub open spec fn range_ok(&self) -> bool {
        self.date_from is Some && self.date_to is Some ==> self.date_from->0.on_or_before(
            self.date_to->0,
        )
    }
}

/// An immutable filter, built once from its options.
pub struct QueryFilter {
    opts: FilterOptions,
}

impl QueryFilter {
    /// The options the filter was built from.
    pub closed spec fn options(&self) -> FilterOptions {
        self.opts
    }

    /// Whether the filter keeps a record.
    pub open spec fn keeps(&self, r: RecordView) -> bool {
        self.options().admits(r)
    }

    /// Builds a filter; an inverted date range is refused.
    pub fn new(opts: FilterOptions) -> (r: Result<QueryFilter, InputError>)
        ensures
            opts.range_ok() ==> (r matches Ok(f) && f.options() == opts),
            !opts.range_ok() ==> r == Err::<QueryFilter, InputError>(InputError::Validation),
    {
        match (&opts.date_from, &opts.date_to) {
            (Some(from), Some(to)) => {
                if !from.is_on_or_before(to) {
                    return Err(InputError::Validation);
                }
            },
            _ => {},
        }
        Ok(QueryFilter { opts })
    }

    /// A filter that keeps every record.
    pub fn everything() -> (r: QueryFilter)
        ensures
            r.options().id is None,
            r.options().fuzzy is None,
            r.options().category is None,
            r.options().date_from is None,
            r.options().date_to is None,
            forall|x: RecordView| r.keeps(x),
    {
        QueryFilter { opts: FilterOptions::empty() }
    }

    /// Whether the filter keeps `r`.
    pub fn matches(&self, r: &Record) -> (b: bool)
        ensures
            b == self.keeps(r@),
    {
        if let Some(id) = self.opts.id {
            if r.id != id {
                return false;
            }
        }
        if let Some(q) = &self.opts.fuzzy {
            let p = chars_of(q.as_str());
            let name = chars_of(r.name.as_str());
            let desc = chars_of(r.description.as_str());
            if !contains(&name, &p) && !contains(&desc, &p) {
                return false;
            }
        }
        if let Some(c) = &self.opts.category {
            if !(r.category == *c) {
                return false;
            }
        }
        if let Some(from) = &self.opts.date_from {
            if !from.is_on_or_before(&r.date) {
                return false;
            }
        }
        if let Some(to) = &self.opts.date_to {
            if !r.date.is_on_or_before(to) {
                return false;
            }
        }
        true
    }
}

/// Whether `t[i..i + p.len()]` equals `p`.
fn occurs_at(t: &Vec<char>, p: &Vec<char>, i: usize) -> (r: bool)
    requires
        i + p@.len() <= t@.len(),
    ensures
        r == (t@.subrange(i as int, i + p@.len()) == p@),
{
    let tl = t.len();
    let mut j: usize = 0;
    while j < p.len()
        invariant
            tl == t@.len(),
            i + p@.len() <= t@.len(),
            j <= p@.len(),
            forall|k: int| 0 <= k < j ==> t@[i + k] == p@[k],
        decreases p@.len() - j,
    {
        assert(i + j < t@.len());
        if t[i + j] != p[j] {
            proof {
                assert(t@.subrange(i as int, i + p@.len())[j as int] != p@[j as int]);
            }
            return false;
        }
        j = j + 1;
    }
    proof {
        assert(t@.subrange(i as int, i + p@.len()) =~= p@);
    }
    true
}

/// Whether `p` occurs in `t`.
pub fn contains(t: &Vec<char>, p: &Vec<char>) -> (r: bool)
    ensures
        r == is_substring(p@, t@),
{
    if p.len() > t.len() {
        return false;
    }
    let last = t.len() - p.len();
    let mut i: usize = 0;
    while i <= last
        invariant
            last + p@.len() == t@.len(),
            i <= last,
            forall|k: int| 0 <= k < i ==> #[trigger] t@.subrange(k, k + p@.len()) != p@,
        decreases last + 1 - i,
    {
        if occurs_at(t, p, i) {
            return true;
        }
        if i == last {
            proof {
                assert forall|k: int| 0 <= k && k + p@.len() <= t@.len() implies #[trigger] t@.subrange(
                    k,
                    k + p@.len(),
                ) != p@ by {
                    assert(k <= last);
                }
            }
            return false;
        }
        i = i + 1;
    }
    false
}

} // verus!
