//! The record store: schema set-up, insertion with assigned identities,
//! filtered reads, partial updates and removal.

use vstd::prelude::*;
use crate::date::CivilDate;
use crate::filter::{FilterOptions, QueryFilter};
use crate::model::{Record, RecordView};

verus! {

/// Where a database lives, as its connection text.
pub struct URL(pub String);

/// Why a store operation failed.
#[derive(Clone, Debug, PartialEq, Eq)]
pub enum RepoError {
    /// The persistence backend failed or holds inconsistent data.
    ConnectionFailed(String),
    /// A read or write came before the schema was set up.
    NotInitialized,
    /// No record has this identity.
    NotFound(i32),
    /// Every identity the store can assign has been used.
    IdsExhausted,
}

impl RepoError {
    /// The text shown to the user.
    pub fn message(&self) -> (r: String)
        ensures
            r@ == (match self {
                RepoError::ConnectionFailed(m) => "Database Error: "@ + m@,
                RepoError::NotInitialized => "Database Error: schema not set up"@,
                RepoError::NotFound(_) => "No record with this id"@,
                RepoError::IdsExhausted => "Database Error: no identity left"@,
            }),
    {
        let mut out = String::new();
        match self {
            RepoError::ConnectionFailed(m) => {
                out.append("Database Error: ");
                out.append(m.as_str());
            },
            RepoError::NotInitialized => out.append("Database Error: schema not set up"),
            RepoError::NotFound(_) => out.append("No record with this id"),
            RepoError::IdsExhausted => out.append("Database Error: no identity left"),
        }
        out
    }
}

/// The fields that an update changes; absent ones keep their stored value.
pub struct RecordUpdate {
    pub name: Option<String>,
    pub cents: Option<i32>,
    pub date: Option<CivilDate>,
    pub category: Option<String>,
    pub description: Option<String>,
}

impl RecordUpdate {
    /// `r` with every present field replaced.
    pub open spec fn apply(&self, r: RecordView) -> RecordView {
        RecordView {
            id: r.id,
            name: if self.name is Some { self.name->0@ } else { r.name },
            cents: if self.cents is Some { self.cents->0 as int } else { r.cents },
            date: if self.date is Some { self.date->0 } else { r.date },
            category: if self.category is Some { self.category->0@ } else { r.category },
            description: if self.description is Some { self.description->0@ } else { r.description },
        }
    }

    /// The stored record `r` with this update applied.
    pub fn applied_to(&self, r: &Record) -> (out: Record)
        ensures
            out@ == self.apply(r@),
    {
        Record {
            id: r.id,
            name: match &self.name {
                Some(n) => n.clone(),
                None => r.name.clone(),
            },
            cents: match self.cents {
                Some(c) => c,
                None => r.cents,
            },
            date: match self.date {
                Some(d) => d,
                None => r.date,
            },
            category: match &self.category {
                Some(c) => c.clone(),
                None => r.category.clone(),
            },
            description: match &self.description {
                Some(d) => d.clone(),
                None => r.description.clone(),
            },
        }
    }
}

/// `r` with the identity `id`.
pub open spec fn with_id(r: RecordView, id: int) -> RecordView {
    RecordView {
        id,
        name: r.name,
        cents: r.cents,
        date: r.date,
        category: r.category,
        description: r.description,
    }
}

/// The records a filter keeps, as a predicate.
pub open spec fn admitted(f: FilterOptions) -> spec_fn(RecordView) -> bool {
    |r: RecordView| f.admits(r)
}

/// A store as its mathematical value.
pub struct StoreView {
    /// The stored records, by ascending identity.
    pub rows: Seq<RecordView>,
    /// The identity the next insertion receives.
    pub next_id: int,
    /// Whether the schema has been set up.
    pub initialized: bool,
}

impl StoreView {
    /// Identities are positive, below the next one, and strictly ascending.
    pub open spec fn wf(self) -> bool {
        &&& 1 <= self.next_id <= i32::MAX
        &&& forall|i: int| 0 <= i < self.rows.len() ==> 1 <= #[trigger] self.rows[i].id < self.next_id
        &&& forall|i: int, j: int|
            0 <= i < j < self.rows.len() ==> #[trigger] self.rows[i].id < #[trigger] self.rows[j].id
    }

    /// Some stored record has identity `id`.
    pub open spec fn has_id(self, id: int) -> bool {
        exists|i: int| 0 <= i < self.rows.len() && #[trigger] self.rows[i].id == id
    }

    /// The position of the record with identity `id`.
    pub open spec fn index_of_id(self, id: int) -> int {
        choose|i: int| 0 <= i < self.rows.len() && #[trigger] self.rows[i].id == id
    }

    /// Setting up the schema keeps every record.
    pub open spec fn init(self) -> StoreView {
        StoreView { rows: self.rows, next_id: self.next_id, initialized: true }
    }

    /// Insertion: the record receives the next identity and goes last.
    pub open spec fn insert(self, rec: RecordView) -> (StoreView, Result<RecordView, RepoError>) {
        if !self.initialized {
            (self, Err(RepoError::NotInitialized))
        } else if self.next_id >= i32::MAX {
            (self, Err(RepoError::IdsExhausted))
        } else {
            let r = with_id(rec, self.next_id);
            (
                StoreView { rows: self.rows.push(r), next_id: self.next_id + 1, initialized: true },
                Ok(r),
            )
        }
    }

    /// Every record, in order of identity.
    pub open spec fn list(self) -> Result<Seq<RecordView>, RepoError> {
        if !self.initialized { Err(RepoError::NotInitialized) } else { Ok(self.rows) }
    }

    /// The records that `f` admits, in order of identity.
    pub open spec fn find(self, f: FilterOptions) -> Result<Seq<RecordView>, RepoError> {
        if !self.initialized {
            Err(RepoError::NotInitialized)
        } else {
            Ok(self.rows.filter(admitted(f)))
        }
    }

    /// A partial update of the record with identity `id`.
    pub open spec fn modify(self, id: int, u: RecordUpdate) -> (StoreView, Result<RecordView, RepoError>) {
        if !self.initialized {
            (self, Err(RepoError::NotInitialized))
        } else if !self.has_id(id) {
            (self, Err(RepoError::NotFound(id as i32)))
        } else {
            let i = self.index_of_id(id);
            let r = u.apply(self.rows[i]);
            (
                StoreView { rows: self.rows.update(i, r), next_id: self.next_id, initialized: true },
                Ok(r),
            )
        }
    }

    /// Removal of the record with identity `id`; the result is the removed record.
    pub open spec fn remove(self, id: int) -> (StoreView, Result<RecordView, RepoError>) {
        if !self.initialized {
            (self, Err(RepoError::NotInitialized))
        } else if !self.has_id(id) {
            (self, Err(RepoError::NotFound(id as i32)))
        } else {
            let i = self.index_of_id(id);
            (
                StoreView { rows: self.rows.remove(i), next_id: self.next_id, initialized: true },
                Ok(self.rows[i]),
            )
        }
    }
}

/// A record result as its value.
pub open spec fn record_result(r: Result<Record, RepoError>) -> Result<RecordView, RepoError> {
    match r {
        Ok(x) => Ok(x@),
        Err(e) => Err(e),
    }
}

/// A list result as its value.
pub open spec fn records_result(r: Result<Vec<Record>, RepoError>) -> Result<Seq<RecordView>, RepoError> {
    match r {
        Ok(v) => Ok(v@.map_values(|x: Record| x@)),
        Err(e) => Err(e),
    }
}

/// The value of a sequence of records.
pub open spec fn rows_of(v: Seq<Record>) -> Seq<RecordView> {
    v.map_values(|x: Record| x@)
}

/// The ledger's records, kept in memory in order of identity.
pub struct Repo {
    records: Vec<Record>,
    next_id: i32,
    initialized: bool,
}

impl Repo {
    /// The store as its value.
    pub closed spec fn view(&self) -> StoreView {
        StoreView { rows: rows_of(self.records@), next_id: self.next_id as int, initialized: self.initialized }
    }

    /// The store's invariant.
    pub open spec fn wf(&self) -> bool {
        self@.wf()
    }

    /// An empty store whose schema is not yet set up.
    pub fn new() -> (r: Repo)
        ensures
            r.wf(),
            r@.rows.len() == 0,
            r@.next_id == 1,
            !r@.initialized,
    {
        let r = Repo { records: Vec::new(), next_id: 1, initialized: false };
        proof {
            assert(rows_of(r.records@).len() == 0);
        }
        r
    }

    /// A store over records already kept elsewhere, with its schema set up;
    /// records out of identity order, or not below `next_id`, are refused.
    pub fn restore(records: Vec<Record>, next_id: i32) -> (r: Result<Repo, RepoError>)
        ensures
            ({
                let v = StoreView { rows: rows_of(records@), next_id: next_id as int, initialized: true };
                match r {
                    Ok(repo) => v.wf() && repo@ == v,
                    Err(e) => !v.wf() && e is ConnectionFailed,
                }
            }),
    {
        let ghost v = StoreView { rows: rows_of(records@), next_id: next_id as int, initialized: true };
        if next_id < 1 {
            return Err(RepoError::ConnectionFailed(inconsistent_store()));
        }
        let mut i: usize = 0;
        while i < records.len()
            invariant
                1 <= next_id,
                i <= records@.len(),
                v == (StoreView { rows: rows_of(records@), next_id: next_id as int, initialized: true }),
                forall|k: int| 0 <= k < i ==> 1 <= #[trigger] records@[k].id < next_id,
                forall|k: int| 0 < k < i ==> records@[k - 1].id < #[trigger] records@[k].id,
            decreases records@.len() - i,
        {
            let id = records[i].id;
            if id < 1 || id >= next_id || (i > 0 && records[i - 1].id >= id) {
                proof {
                    assert(v.rows[i as int] == records@[i as int]@);
                    if i > 0 {
                        assert(v.rows[i - 1] == records@[i - 1]@);
                    }
                    if v.wf() {
                        assert(1 <= v.rows[i as int].id < v.next_id);
                        if i > 0 {
                            assert(v.rows[i - 1].id < v.rows[i as int].id);
                        }
                    }
                }
                return Err(RepoError::ConnectionFailed(inconsistent_store()));
            }
            i = i + 1;
        }
        proof {
            assert forall|a: int, b: int| 0 <= a < b < v.rows.len() implies #[trigger] v.rows[a].id
                < #[trigger] v.rows[b].id by {
                lemma_ascending(records@, a, b, i as int);
            }
        }
        Ok(Repo { records, next_id, initialized: true })
    }

    /// Sets up the schema; calling it again changes nothing.
    pub fn init(&mut self)
        requires
            old(self).wf(),
        ensures
            final(self).wf(),
            final(self)@ == old(self)@.init(),
    {
        let ghost before = self@;
        self.initialized = true;
        proof {
            assert(self@.rows == before.rows);
        }
    }

    /// Stores a copy of `record` under the next identity and returns it.
    pub fn insert(&mut self, record: &Record) -> (r: Result<Record, RepoError>)
        requires
            old(self).wf(),
        ensures
            final(self).wf(),
            (final(self)@, record_result(r)) == old(self)@.insert(record@),
    {
        if !self.initialized {
            return Err(RepoError::NotInitialized);
        }
        if self.next_id == i32::MAX {
            return Err(RepoError::IdsExhausted);
        }
        let mut rec = record.copy();
        rec.id = self.next_id;
        let out = rec.copy();
        let ghost before = self.records@;
        self.records.push(rec);
        self.next_id = self.next_id + 1;
        proof {
            assert(rows_of(self.records@) =~= rows_of(before).push(with_id(record@, self.next_id - 1)));
        }
        Ok(out)
    }

    /// Every record, in order of identity.
    pub fn list_all(&self) -> (r: Result<Vec<Record>, RepoError>)
        requires
            self.wf(),
        ensures
            records_result(r) == self@.list(),
    {
        if !self.initialized {
            return Err(RepoError::NotInitialized);
        }
        let mut out: Vec<Record> = Vec::new();
        let mut i: usize = 0;
        while i < self.records.len()
            invariant
                i <= self.records@.len(),
                rows_of(out@) == rows_of(self.records@).subrange(0, i as int),
            decreases self.records@.len() - i,
        {
            let ghost before = out@;
            out.push(self.records[i].copy());
            i = i + 1;
            proof {
                assert(rows_of(out@) =~= rows_of(before).push(self.records@[i - 1]@));
                assert(rows_of(self.records@).subrange(0, i as int) =~= rows_of(
                    self.records@,
                ).subrange(0, i - 1).push(self.records@[i - 1]@));
            }
        }
        proof {
            assert(rows_of(self.records@).subrange(0, i as int) =~= rows_of(self.records@));
        }
        Ok(out)
    }

    /// The records that `filter` keeps, in order of identity.
    pub fn find(&self, filter: &QueryFilter) -> (r: Result<Vec<Record>, RepoError>)
        requires
            self.wf(),
        ensures
            records_result(r) == self@.find(filter.options()),
    {
        if !self.initialized {
            return Err(RepoError::NotInitialized);
        }
        let ghost pred = admitted(filter.options());
        let ghost rows = rows_of(self.records@);
        let mut out: Vec<Record> = Vec::new();
        let mut i: usize = 0;
        while i < self.records.len()
            invariant
                i <= self.records@.len(),
                rows == rows_of(self.records@),
                pred == admitted(filter.options()),
                rows_of(out@) == rows.subrange(0, i as int).filter(pred),
            decreases self.records@.len() - i,
        {
            let ghost before = out@;
            proof {
                lemma_filter_step(rows, i as int, pred);
            }
            if filter.matches(&self.records[i]) {
                out.push(self.records[i].copy());
                proof {
                    assert(rows_of(out@) =~= rows_of(before).push(self.records@[i as int]@));
                }
            }
            i = i + 1;
        }
        proof {
            assert(rows.subrange(0, i as int) =~= rows);
        }
        Ok(out)
    }

    /// The position of the record with identity `id`, if any.
    fn position(&self, id: i32) -> (r: Option<usize>)
        requires
            self.wf(),
        ensures
            match r {
                Some(i) => i < self@.rows.len() && i == self@.index_of_id(id as int)
                    && self@.has_id(id as int),
                None => !self@.has_id(id as int),
            },
    {
        let ghost rows = rows_of(self.records@);
        let mut i: usize = 0;
        while i < self.records.len()
            invariant
                self.wf(),
                i <= self.records@.len(),
                rows == rows_of(self.records@),
                forall|k: int| 0 <= k < i ==> #[trigger] rows[k].id != id,
            decreases self.records@.len() - i,
        {
            if self.records[i].id == id {
                proof {
                    assert(rows[i as int].id == id);
                    self@.lemma_index_unique(id as int, i as int);
                }
                return Some(i);
            }
            i = i + 1;
        }
        None
    }

    /// Applies the present fields of `update` to the record with identity
    /// `id`, and returns the record as now stored.
    pub fn modify(&mut self, id: i32, update: &RecordUpdate) -> (r: Result<Record, RepoError>)
        requires
            old(self).wf(),
        ensures
            final(self).wf(),
            (final(self)@, record_result(r)) == old(self)@.modify(id as int, *update),
    {
        if !self.initialized {
            return Err(RepoError::NotInitialized);
        }
        match self.position(id) {
            None => Err(RepoError::NotFound(id)),
            Some(i) => {
                let ghost before = self.records@;
                let rec = update.applied_to(&self.records[i]);
                let out = rec.copy();
                self.records.remove(i);
                self.records.insert(i, rec);
                proof {
                    assert(rows_of(self.records@) =~= rows_of(before).update(i as int, out@));
                    assert(self@.rows[i as int].id == rows_of(before)[i as int].id);
                }
                Ok(out)
            },
        }
    }

    /// Deletes the record with identity `id` and returns it; its identity is
    /// never assigned again.
    pub fn rm(&mut self, id: i32) -> (r: Result<Record, RepoError>)
        requires
            old(self).wf(),
        ensures
            final(self).wf(),
            (final(self)@, record_result(r)) == old(self)@.remove(id as int),
    {
        if !self.initialized {
            return Err(RepoError::NotInitialized);
        }
        match self.position(id) {
            None => Err(RepoError::NotFound(id)),
            Some(i) => {
                let ghost before = self.records@;
                let out = self.records.remove(i);
                proof {
                    assert(rows_of(self.records@) =~= rows_of(before).remove(i as int));
                    lemma_remove_keeps_wf(old(self)@, i as int);
                }
                Ok(out)
            },
        }
    }

    /// The number of stored records.
    pub fn len(&self) -> (r: usize)
        ensures
            r == self@.rows.len(),
    {
        self.records.len()
    }
}

impl StoreView {
    /// Identities are unique: the record with identity `id` sits at one place.
    pub proof fn lemma_index_unique(self, id: int, i: int)
        requires
            self.wf(),
            0 <= i < self.rows.len(),
            self.rows[i].id == id,
        ensures
            self.has_id(id),
            self.index_of_id(id) == i,
    {
        assert(self.rows[i].id == id);
        let j = self.index_of_id(id);
        if j < i {
            assert(self.rows[j].id < self.rows[i].id);
        } else if j > i {
            assert(self.rows[i].id < self.rows[j].id);
        }
    }
}

/// A filter that admits every record keeps a sequence whole.
proof fn lemma_filter_keeps_all(s: Seq<RecordView>, pred: spec_fn(RecordView) -> bool)
    requires
        forall|x: RecordView| #[trigger] pred(x),
    ensures
        s.filter(pred) == s,
    decreases s.len(),
{
    reveal(Seq::filter);
    if s.len() > 0 {
        lemma_filter_keeps_all(s.drop_last(), pred);
        assert(s.drop_last().push(s.last()) =~= s);
    }
}

/// Setting up the schema a second time changes nothing, and set-up keeps
/// every record and the next identity.
pub proof fn lemma_init_idempotent(s: StoreView)
    ensures
        s.init().init() == s.init(),
        s.init().rows == s.rows,
        s.init().next_id == s.next_id,
{
}

/// In a set-up store with identities left, insertion succeeds; listing
/// everything afterwards, or reading through a filter that restricts
/// nothing, returns the earlier records followed by the inserted one, which
/// equals the given record in every field but its assigned identity.
pub proof fn lemma_insert_then_list(s: StoreView, rec: RecordView, f: FilterOptions)
    requires
        s.wf(),
        s.initialized,
        f.id is None,
        f.fuzzy is None,
        f.category is None,
        f.date_from is None,
        f.date_to is None,
    ensures
        s.next_id < i32::MAX ==> s.insert(rec).1 is Ok,
        s.insert(rec).1 matches Ok(r) ==> {
            &&& s.insert(rec).0.list() == Ok::<Seq<RecordView>, RepoError>(s.rows.push(r))
            &&& s.insert(rec).0.find(f) == Ok::<Seq<RecordView>, RepoError>(s.rows.push(r))
            &&& r.id == s.next_id
            &&& with_id(r, rec.id) == rec
        },
{
    if s.insert(rec).1 is Ok {
        lemma_filter_keeps_all(s.insert(rec).0.rows, admitted(f));
    }
}

/// Reading with a category and an inclusive date range, and nothing else,
/// returns exactly the stored records of that category whose date lies in
/// the range, in order of identity.
pub proof fn lemma_category_and_range(s: StoreView, f: FilterOptions)
    requires
        s.initialized,
        f.id is None,
        f.fuzzy is None,
        f.category is Some,
        f.date_from is Some,
        f.date_to is Some,
    ensures
        s.find(f) == Ok::<Seq<RecordView>, RepoError>(s.rows.filter(
            |x: RecordView|
                x.category == f.category->0@ && f.date_from->0.on_or_before(x.date)
                    && x.date.on_or_before(f.date_to->0),
        )),
        forall|x: RecordView|
            #[trigger] s.find(f)->Ok_0.contains(x) <==> (s.rows.contains(x) && x.category
                == f.category->0@ && f.date_from->0.on_or_before(x.date) && x.date.on_or_before(
                f.date_to->0,
            )),
{
    let p = |x: RecordView|
        x.category == f.category->0@ && f.date_from->0.on_or_before(x.date)
            && x.date.on_or_before(f.date_to->0);
    assert(admitted(f) =~= p);
    s.rows.filter_lemma(p);
    assert forall|x: RecordView| #[trigger] s.find(f)->Ok_0.contains(x) <==> (s.rows.contains(x)
        && p(x)) by {
        if s.find(f)->Ok_0.contains(x) {
            s.rows.lemma_filter_contains_rev(p, x);
            let k = choose|k: int| 0 <= k < s.rows.filter(p).len() && s.rows.filter(p)[k] == x;
            assert(p(s.rows.filter(p)[k]));
        }
        if s.rows.contains(x) && p(x) {
            let k = choose|k: int| 0 <= k < s.rows.len() && s.rows[k] == x;
            assert(s.rows.filter(p).contains(s.rows[k]));
        }
    }
}

/// Modifying an identity that no record has fails with `NotFound` and
/// leaves the store, and so its number of records, as it was.
pub proof fn lemma_modify_missing(s: StoreView, id: i32, u: RecordUpdate)
    requires
        s.initialized,
        !s.has_id(id as int),
    ensures
        s.modify(id as int, u) == (s, Err::<RecordView, RepoError>(RepoError::NotFound(id))),
        s.modify(id as int, u).0.rows.len() == s.rows.len(),
{
}

/// Removal keeps identities positive, below the next one, and ascending.
pub proof fn lemma_remove_keeps_wf(s: StoreView, i: int)
    requires
        s.wf(),
        0 <= i < s.rows.len(),
    ensures
        (StoreView { rows: s.rows.remove(i), next_id: s.next_id, initialized: s.initialized }).wf(),
{
    let v = StoreView { rows: s.rows.remove(i), next_id: s.next_id, initialized: s.initialized };
    assert forall|a: int, b: int| 0 <= a < b < v.rows.len() implies #[trigger] v.rows[a].id
        < #[trigger] v.rows[b].id by {
        let a0 = if a < i { a } else { a + 1 };
        let b0 = if b < i { b } else { b + 1 };
        assert(v.rows[a] == s.rows[a0]);
        assert(v.rows[b] == s.rows[b0]);
    }
    assert forall|k: int| 0 <= k < v.rows.len() implies 1 <= #[trigger] v.rows[k].id < v.next_id by {
        let k0 = if k < i { k } else { k + 1 };
        assert(v.rows[k] == s.rows[k0]);
    }
}

/// Once a removal succeeds, no stored record has the removed identity, so
/// no listing or filtered read returns it, and the next insertion assigns
/// a larger one.
pub proof fn lemma_removed_id_retired(s: StoreView, id: int, f: FilterOptions, rec: RecordView)
    requires
        s.wf(),
        s.remove(id).1 is Ok,
    ensures
        s.remove(id).0.wf(),
        forall|i: int| 0 <= i < s.remove(id).0.rows.len() ==> #[trigger] s.remove(id).0.rows[i].id != id,
        s.remove(id).0.list() matches Ok(v) ==> forall|i: int| 0 <= i < v.len() ==> #[trigger] v[i].id != id,
        s.remove(id).0.find(f) matches Ok(v) ==> forall|i: int| 0 <= i < v.len() ==> #[trigger] v[i].id != id,
        s.remove(id).0.insert(rec).1 matches Ok(n) ==> n.id > id,
        s.remove(id).0.next_id > id,
{
    let k = s.index_of_id(id);
    let t = s.remove(id).0;
    lemma_remove_keeps_wf(s, k);
    assert forall|i: int| 0 <= i < t.rows.len() implies #[trigger] t.rows[i].id != id by {
        let i0 = if i < k { i } else { i + 1 };
        assert(t.rows[i] == s.rows[i0]);
        if i0 < k {
            assert(s.rows[i0].id < s.rows[k].id);
        } else {
            assert(s.rows[k].id < s.rows[i0].id);
        }
    }
    assert(1 <= s.rows[k].id < s.next_id);
    if t.find(f) is Ok {
        let v = t.rows.filter(admitted(f));
        t.rows.filter_lemma(admitted(f));
        assert forall|i: int| 0 <= i < v.len() implies #[trigger] v[i].id != id by {
            assert(v.contains(v[i]));
            t.rows.lemma_filter_contains_rev(admitted(f), v[i]);
        }
    }
}

/// Adjacent ascent gives ascent between any two positions.
proof fn lemma_ascending(s: Seq<Record>, a: int, b: int, n: int)
    requires
        n <= s.len(),
        0 <= a < b < n,
        forall|k: int| 0 < k < n ==> s[k - 1].id < #[trigger] s[k].id,
    ensures
        s[a].id < s[b].id,
    decreases b - a,
{
    if a + 1 < b {
        lemma_ascending(s, a, b - 1, n);
        assert(s[b - 1].id < s[b].id);
    }
}

/// One step of a left-to-right filtering scan.
proof fn lemma_filter_step(s: Seq<RecordView>, i: int, pred: spec_fn(RecordView) -> bool)
    requires
        0 <= i < s.len(),
    ensures
        s.subrange(0, i + 1).filter(pred) == (if pred(s[i]) {
            s.subrange(0, i).filter(pred).push(s[i])
        } else {
            s.subrange(0, i).filter(pred)
        }),
{
    reveal(Seq::filter);
    assert(s.subrange(0, i + 1).drop_last() =~= s.subrange(0, i));
}

/// The message of a store whose kept records break its invariant.
fn inconsistent_store() -> (r: String) {
    let mut m = String::new();
    m.append("stored records are out of identity order");
    m
}

} // verus!
