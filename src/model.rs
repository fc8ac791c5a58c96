//! One transaction of the ledger.

use vstd::prelude::*;
use crate::date::CivilDate;

verus! {

/// A record as its mathematical value.
pub struct RecordView {
    pub id: int,
    pub name: Seq<char>,
    pub cents: int,
    pub date: CivilDate,
    pub category: Seq<char>,
    pub description: Seq<char>,
}

/// One transaction: a name, an amount in cents, a date, a category and a
/// description. The store assigns `id`.
#[derive(Clone, Debug, PartialEq, Eq)]
pub struct Record {
    pub id: i32,
    pub name: String,
    pub cents: i32,
    pub date: CivilDate,
    pub category: String,
    pub description: String,
}

/// The category of a record that was given none.
pub open spec fn default_category() -> Seq<char> {
    seq!['d', 'e', 'f', 'a', 'u', 'l', 't']
}

impl Record {
    pub open spec fn view(&self) -> RecordView {
        RecordView {
            id: self.id as int,
            name: self.name@,
            cents: self.cents as int,
            date: self.date,
            category: self.category@,
            description: self.description@,
        }
    }

    /// A record without identity yet; the category defaults to `default` and
    /// the description to the empty text.
    pub fn new(
        name: String,
        cents: i32,
        date: CivilDate,
        category: Option<String>,
        description: Option<String>,
    ) -> (r: Record)
        ensures
            r.id == 0,
            r.name@ == name@,
            r.cents == cents,
            r.date == date,
            r.category@ == (match category {
                Some(c) => c@,
                None => default_category(),
            }),
            r.description@ == (match description {
                Some(d) => d@,
                None => Seq::<char>::empty(),
            }),
    {
        let category = match category {
            Some(c) => c,
            None => {
                let mut c = String::new();
                c.append("default");
                proof {
                    reveal_strlit("default");
                    assert(c@ =~= default_category());
                }
                c
            },
        };
        let description = match description {
            Some(d) => d,
            None => String::new(),
        };
        Record { id: 0, name, cents, date, category, description }
    }

    /// A field-by-field copy.
    pub fn copy(&self) -> (r: Record)
        ensures
            r@ == self@,
    {
        Record {
            id: self.id,
            name: self.name.clone(),
            cents: self.cents,
            date: self.date,
            category: self.category.clone(),
            description: self.description.clone(),
        }
    }
}

} // verus!
