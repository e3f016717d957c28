//! The columnar record store.

use vstd::prelude::*;

use crate::number::{Number, NumberVec};
use crate::record::Record;
use crate::util::str_eq;

verus! {

/// Storage error.
#[derive(Clone, Copy, Debug, PartialEq, Eq, Structural)]
pub enum StorageError {
    /// The pushed record's field names do not match the names in the store.
    FieldMismatch,
    /// A field's kind (integer or float) does not match the kind of the
    /// store's column of that name.
    FieldTypeMismatch,
    /// Received an empty record as the first record.
    EmptyRecord,
}

/// Record storage: one append-only column per field name.
///
/// The first successfully pushed record freezes the schema: the set of field
/// names and each field's kind. Every later push must match it exactly.
pub struct Storage {
    /// The columns, keyed by field name, in the order the first record
    /// listed them.
    pub inner: Vec<(String, NumberVec)>,
    /// True until the first successful push.
    pub empty: bool,
}

impl Storage {
    /// The columns as a sequence of (name, column) pairs.
    pub open spec fn cols(self) -> Seq<(Seq<char>, NumberVec)> {
        self.inner@.map(|i: int, kv: (String, NumberVec)| (kv.0@, kv.1))
    }

    /// The column names, in order.
    pub open spec fn spec_keys(self) -> Seq<Seq<char>> {
        self.cols().map(|i: int, kv: (Seq<char>, NumberVec)| kv.0)
    }

    /// The column names as a set: the schema's field-name set.
    pub open spec fn key_set(self) -> Set<Seq<char>> {
        self.spec_keys().to_set()
    }

    /// The number of records stored: the length every column shares.
    pub open spec fn spec_records_len(self) -> int {
        if self.cols().len() == 0 {
            0
        } else {
            self.cols()[0].1.values().len() as int
        }
    }

    /// True if some column is named `k`.
    pub open spec fn has_col(self, k: Seq<char>) -> bool {
        exists|i: int| 0 <= i < self.cols().len() && self.cols()[i].0 == k
    }

    /// The index of the column named `k`.
    pub open spec fn col_index(self, k: Seq<char>) -> int {
        choose|i: int| 0 <= i < self.cols().len() && self.cols()[i].0 == k
    }

    /// The column named `k`.
    pub open spec fn spec_col(self, k: Seq<char>) -> NumberVec {
        self.cols()[self.col_index(k)].1
    }

    /// Well-formed: column names are unique, the store is flagged empty
    /// exactly as long as it has no columns, and all columns have the same
    /// length, at least one once the store is non-empty.
    pub open spec fn wf(self) -> bool {
        &&& forall|i: int, j: int|
            0 <= i < j < self.cols().len() ==> self.cols()[i].0 != self.cols()[j].0
        &&& (self.empty <==> self.cols().len() == 0)
        &&& (!self.empty ==> self.spec_records_len() >= 1)
        &&& forall|i: int|
            0 <= i < self.cols().len() ==> #[trigger] self.cols()[i].1.values().len()
                == self.spec_records_len()
    }

    /// True if `record`'s field-name set coincides with the schema: same
    /// cardinality, and every column name occurs in the record.
    pub open spec fn keys_match(self, record: Record) -> bool {
        &&& record.spec_fields().len() == self.cols().len()
        &&& forall|i: int|
            0 <= i < self.cols().len() ==> record.has_key(#[trigger] self.cols()[i].0)
    }

    /// True if, for every column, the record's value of that name is of the
    /// column's kind.
    pub open spec fn kinds_match(self, record: Record) -> bool {
        forall|i: int|
            0 <= i < self.cols().len() ==> (#[trigger] self.cols()[i].1).accepts(
                record.spec_get(self.cols()[i].0),
            )
    }

    /// True if `new` holds exactly `record` as its first and only row:
    /// `record`'s names and kinds adopted as the schema, in order, each
    /// column a singleton.
    pub open spec fn adopted(new: Storage, record: Record) -> bool {
        &&& !new.empty
        &&& new.cols().len() == record.spec_fields().len()
        &&& forall|i: int|
            0 <= i < record.spec_fields().len() ==> (#[trigger] new.cols()[i]).0
                == record.spec_fields()[i].0 && new.cols()[i].1.values() == seq![
                record.spec_fields()[i].1,
            ]
    }

    /// What a push of `record` against the store `s` returns, and the store
    /// `new` it leaves behind: the full contract of [`Storage::push_record`].
    pub open spec fn push_result(
        s: Storage,
        new: Storage,
        record: Record,
        r: Result<(), StorageError>,
    ) -> bool {
        if s.empty {
            if record.spec_fields().len() == 0 {
                r == Err::<(), StorageError>(StorageError::EmptyRecord) && new == s
            } else {
                r == Ok::<(), StorageError>(()) && Storage::adopted(new, record)
            }
        } else if !s.keys_match(record) {
            r == Err::<(), StorageError>(StorageError::FieldMismatch) && new == s
        } else if !s.kinds_match(record) {
            r == Err::<(), StorageError>(StorageError::FieldTypeMismatch) && new == s
        } else {
            r == Ok::<(), StorageError>(()) && Storage::appended(s, new, record)
        }
    }

    /// True if `rows` is the row-major view of the store: one record per
    /// stored row, fields in column order, indexed in ingestion order.
    pub open spec fn is_snapshot(self, rows: Seq<Record>) -> bool {
        &&& rows.len() == self.spec_records_len()
        &&& forall|i: int|
            #![trigger rows[i]]
            0 <= i < rows.len() ==> {
                &&& rows[i].wf()
                &&& rows[i].spec_fields().len() == self.cols().len()
                &&& forall|j: int|
                    0 <= j < self.cols().len() ==> #[trigger] rows[i].spec_fields()[j] == (
                        self.cols()[j].0,
                        self.cols()[j].1.values()[i],
                    )
            }
    }

    /// True if `new` is `old` with `record`'s value appended to every
    /// column: same names, same kinds, each column one longer.
    pub open spec fn appended(old: Storage, new: Storage, record: Record) -> bool {
        &&& !new.empty
        &&& new.cols().len() == old.cols().len()
        &&& forall|i: int|
            0 <= i < old.cols().len() ==> (#[trigger] new.cols()[i]).0 == old.cols()[i].0
                && new.cols()[i].1.is_int_col() == old.cols()[i].1.is_int_col()
                && new.cols()[i].1.values() == old.cols()[i].1.values().push(
                record.spec_get(old.cols()[i].0),
            )
    }

    /// Construct a new, empty storage.
    pub fn new() -> (s: Storage)
        ensures
            s.wf(),
            s.empty,
            s.cols().len() == 0,
    {
        Storage { inner: Vec::new(), empty: true }
    }

    /// True until the first successful push.
    pub fn is_empty(&self) -> (r: bool)
        ensures
            r == self.empty,
    {
        self.empty
    }

    /// The number of records stored so far.
    pub fn records_len(&self) -> (n: usize)
        ensures
            n == self.spec_records_len(),
    {
        if self.inner.len() == 0 {
            0
        } else {
            self.inner[0].1.len()
        }
    }

    /// Look up a column by field name. The name must be present: absence is
    /// a caller error, not a recoverable condition.
    pub fn column(&self, field: &str) -> (col: &NumberVec)
        requires
            self.wf(),
            self.has_col(field@),
        ensures
            *col == self.spec_col(field@),
    {
        let n = self.inner.len();
        let mut i: usize = 0;
        while i < n
            invariant
                self.wf(),
                self.has_col(field@),
                n == self.cols().len(),
                i <= n,
                forall|k: int| 0 <= k < i ==> self.cols()[k].0 != field@,
            decreases n - i,
        {
            if str_eq(self.inner[i].0.as_str(), field) {
                proof {
                    assert(self.cols()[i as int].0 == field@);
                    let ci = self.col_index(field@);
                    if ci < i as int {
                        assert(self.cols()[ci].0 != self.cols()[i as int].0);
                    } else if ci > i as int {
                        assert(self.cols()[i as int].0 != self.cols()[ci].0);
                    }
                    assert(ci == i as int);
                }
                return &self.inner[i].1;
            }
            i += 1;
        }
        proof {
            let ci = self.col_index(field@);
            assert(self.cols()[ci].0 == field@);
            assert(false);
        }
        unreached()
    }

    /// Push a record into the store.
    ///
    /// The first record to be accepted freezes the schema; an empty first
    /// record is rejected with `EmptyRecord` and freezes nothing. A later
    /// record must carry exactly the schema's field names (else
    /// `FieldMismatch`) with each field of its column's kind (else
    /// `FieldTypeMismatch`). A failing push leaves the store unchanged; a
    /// successful push appends exactly one value to every column.
    pub fn push_record(&mut self, record: &Record) -> (r: Result<(), StorageError>)
        requires
            old(self).wf(),
            record.wf(),
        ensures
            final(self).wf(),
            Storage::push_result(*old(self), *final(self), *record, r),
    {
        if self.empty {
            self.push_record_first(record)
        } else {
            self.push_record_next(record)
        }
    }

    /// Push the first record: adopt its field names and kinds as the schema.
    fn push_record_first(&mut self, record: &Record) -> (r: Result<(), StorageError>)
        requires
            old(self).wf(),
            old(self).empty,
            record.wf(),
        ensures
            final(self).wf(),
            record.spec_fields().len() == 0 ==> r == Err::<(), StorageError>(
                StorageError::EmptyRecord,
            ) && *final(self) == *old(self),
            record.spec_fields().len() > 0 ==> {
                &&& r == Ok::<(), StorageError>(())
                &&& !final(self).empty
                &&& final(self).cols().len() == record.spec_fields().len()
                &&& forall|i: int|
                    0 <= i < record.spec_fields().len() ==> (#[trigger] final(self).cols()[i]).0
                        == record.spec_fields()[i].0 && final(self).cols()[i].1.values() == seq![
                        record.spec_fields()[i].1,
                    ]
            },
    {
        let n = record.len();
        if n == 0 {
            return Err(StorageError::EmptyRecord);
        }
        let mut inner: Vec<(String, NumberVec)> = Vec::new();
        let mut i: usize = 0;
        while i < n
            invariant
                record.wf(),
                n == record.spec_fields().len(),
                n == record.fields@.len(),
                i <= n,
                inner@.len() == i,
                forall|k: int|
                    #![trigger inner@[k]]
                    0 <= k < i ==> inner@[k].0@ == record.spec_fields()[k].0
                        && inner@[k].1.values() =~= seq![record.spec_fields()[k].1],
            decreases n - i,
        {
            let key = record.fields[i].0.clone();
            let col = NumberVec::from_number(record.fields[i].1);
            inner.push((key, col));
            i += 1;
        }
        self.inner = inner;
        self.empty = false;
        proof {
            let fs = *self;
            assert forall|a: int|
                0 <= a < record.spec_fields().len() implies (#[trigger] fs.cols()[a]).0
                == record.spec_fields()[a].0 && fs.cols()[a].1.values() == seq![
                record.spec_fields()[a].1,
            ] by {
                assert(fs.inner@[a].0@ == record.spec_fields()[a].0 && fs.inner@[a].1.values()
                    =~= seq![record.spec_fields()[a].1]);
            }
            assert forall|a: int, b: int|
                0 <= a < b < fs.cols().len() implies fs.cols()[a].0 != fs.cols()[b].0 by {
                assert(fs.cols()[a].0 == record.spec_fields()[a].0);
                assert(fs.cols()[b].0 == record.spec_fields()[b].0);
            }
            assert(fs.spec_records_len() == 1);
        }
        Ok(())
    }

    /// Push a record against an established schema, validating fully before
    /// mutating anything.
    fn push_record_next(&mut self, record: &Record) -> (r: Result<(), StorageError>)
        requires
            old(self).wf(),
            !old(self).empty,
            record.wf(),
        ensures
            final(self).wf(),
            ({
                let s = *old(self);
                if !s.keys_match(*record) {
                    r == Err::<(), StorageError>(StorageError::FieldMismatch) && *final(self) == s
                } else if !s.kinds_match(*record) {
                    r == Err::<(), StorageError>(StorageError::FieldTypeMismatch) && *final(self)
                        == s
                } else {
                    r == Ok::<(), StorageError>(()) && Storage::appended(s, *final(self), *record)
                }
            }),
    {
        let n = self.inner.len();
        if record.len() != n {
            return Err(StorageError::FieldMismatch);
        }
        let mut i: usize = 0;
        while i < n
            invariant
                *self == *old(self),
                record.wf(),
                self.wf(),
                !self.empty,
                n == self.cols().len(),
                record.spec_fields().len() == n,
                i <= n,
                forall|k: int| 0 <= k < i ==> record.has_key(#[trigger] self.cols()[k].0),
            decreases n - i,
        {
            if !record.contains_key(self.inner[i].0.as_str()) {
                proof {
                    assert(!record.has_key(self.cols()[i as int].0));
                }
                return Err(StorageError::FieldMismatch);
            }
            i += 1;
        }
        let mut i: usize = 0;
        while i < n
            invariant
                *self == *old(self),
                record.wf(),
                self.wf(),
                !self.empty,
                self.keys_match(*record),
                n == self.cols().len(),
                i <= n,
                forall|k: int|
                    0 <= k < i ==> (#[trigger] self.cols()[k].1).accepts(
                        record.spec_get(self.cols()[k].0),
                    ),
            decreases n - i,
        {
            let value = match record.get(self.inner[i].0.as_str()) {
                Some(v) => v,
                None => {
                    proof {
                        assert(record.has_key(self.cols()[i as int].0));
                        assert(false);
                    }
                    unreached()
                },
            };
            let kind_ok = match (&self.inner[i].1, value) {
                (NumberVec::Int(_), Number::Int(_)) => true,
                (NumberVec::Float(_), Number::Float(_)) => true,
                _ => false,
            };
            if !kind_ok {
                proof {
                    assert(!self.cols()[i as int].1.accepts(record.spec_get(
                        self.cols()[i as int].0,
                    )));
                }
                return Err(StorageError::FieldTypeMismatch);
            }
            i += 1;
        }
        let ghost s = *self;
        let mut i: usize = 0;
        while i < n
            invariant
                record.wf(),
                s.wf(),
                !s.empty,
                s.keys_match(*record),
                s.kinds_match(*record),
                s == *old(self),
                n == s.cols().len(),
                n == self.cols().len(),
                self.empty == s.empty,
                i <= n,
                forall|k: int|
                    0 <= k < n ==> (#[trigger] self.cols()[k]).0 == s.cols()[k].0
                        && self.cols()[k].1.is_int_col() == s.cols()[k].1.is_int_col(),
                forall|k: int|
                    0 <= k < i ==> (#[trigger] self.cols()[k]).1.values() == s.cols()[k].1.values().push(
                        record.spec_get(s.cols()[k].0),
                    ),
                forall|k: int|
                    i <= k < n ==> (#[trigger] self.cols()[k]).1.values() == s.cols()[k].1.values(),
            decreases n - i,
        {
            let value = match record.get(self.inner[i].0.as_str()) {
                Some(v) => v,
                None => {
                    proof {
                        assert(record.has_key(self.cols()[i as int].0));
                        assert(false);
                    }
                    unreached()
                },
            };
            proof {
                assert(self.cols()[i as int].1.is_int_col() == s.cols()[i as int].1.is_int_col());
                assert(s.cols()[i as int].1.accepts(record.spec_get(s.cols()[i as int].0)));
            }
            let ghost before = *self;
            self.inner[i].1.push(value);
            proof {
                assert(self.inner@ =~= before.inner@.update(
                    i as int,
                    (before.inner@[i as int].0, self.inner@[i as int].1),
                ));
                assert forall|k: int| 0 <= k < n implies (#[trigger] self.cols()[k]).0
                    == s.cols()[k].0 && self.cols()[k].1.is_int_col()
                    == s.cols()[k].1.is_int_col() by {
                    assert(before.cols()[k].0 == s.cols()[k].0 && before.cols()[k].1.is_int_col()
                        == s.cols()[k].1.is_int_col());
                    if k != i as int {
                        assert(self.inner@[k] == before.inner@[k]);
                    } else {
                        assert(self.inner@[k].0 == before.inner@[k].0);
                        assert(self.cols()[k].1.is_int_col() == before.cols()[k].1.is_int_col());
                    }
                }
                assert(self.cols()[i as int].1.values() =~= s.cols()[i as int].1.values().push(
                    record.spec_get(s.cols()[i as int].0),
                ));
                assert forall|k: int| i as int + 1 <= k < n implies (
                #[trigger] self.cols()[k]).1.values() == s.cols()[k].1.values() by {
                    assert(before.cols()[k].1.values() == s.cols()[k].1.values());
                    assert(self.inner@[k] == before.inner@[k]);
                }
                assert forall|k: int| 0 <= k < i as int + 1 implies (
                #[trigger] self.cols()[k]).1.values() == s.cols()[k].1.values().push(
                    record.spec_get(s.cols()[k].0),
                ) by {
                    if k < i as int {
                        assert(before.cols()[k].1.values() == s.cols()[k].1.values().push(
                            record.spec_get(s.cols()[k].0),
                        ));
                        assert(self.inner@[k] == before.inner@[k]);
                    }
                }
            }
            i += 1;
        }
        proof {
            let fs = *self;
            assert(Storage::appended(s, fs, *record));
            assert(fs.spec_records_len() == s.spec_records_len() + 1);
            assert forall|a: int|
                0 <= a < fs.cols().len() implies #[trigger] fs.cols()[a].1.values().len()
                == fs.spec_records_len() by {
                assert(fs.cols()[a].1.values() == s.cols()[a].1.values().push(
                    record.spec_get(s.cols()[a].0),
                ));
            }
            assert forall|a: int, b: int|
                0 <= a < b < fs.cols().len() implies fs.cols()[a].0 != fs.cols()[b].0 by {
                assert(fs.cols()[a].0 == s.cols()[a].0);
                assert(fs.cols()[b].0 == s.cols()[b].0);
            }
        }
        Ok(())
    }

    /// A row-major view of the store: one record per stored row, fields in
    /// column order, indexed in ingestion order.
    pub fn snapshot(&self) -> (rows: Vec<Record>)
        requires
            self.wf(),
        ensures
            self.is_snapshot(rows@),
    {
        let rows_len = self.records_len();
        let ncols = self.inner.len();
        let mut rows: Vec<Record> = Vec::new();
        let mut i: usize = 0;
        while i < rows_len
            invariant
                self.wf(),
                rows_len == self.spec_records_len(),
                ncols == self.cols().len(),
                i <= rows_len,
                rows@.len() == i,
                forall|a: int|
                    #![trigger rows@[a]]
                    0 <= a < i ==> {
                        &&& rows@[a].wf()
                        &&& rows@[a].spec_fields().len() == self.cols().len()
                        &&& forall|j: int|
                            0 <= j < self.cols().len() ==> #[trigger] rows@[a].spec_fields()[j]
                                == (self.cols()[j].0, self.cols()[j].1.values()[a])
                    },
            decreases rows_len - i,
        {
            let mut fields: Vec<(String, Number)> = Vec::new();
            let mut j: usize = 0;
            while j < ncols
                invariant
                    self.wf(),
                    rows_len == self.spec_records_len(),
                    ncols == self.cols().len(),
                    i < rows_len,
                    j <= ncols,
                    fields@.len() == j,
                    forall|k: int|
                        #![trigger fields@[k]]
                        0 <= k < j ==> fields@[k].0@ == self.cols()[k].0 && fields@[k].1
                            == self.cols()[k].1.values()[i as int],
                decreases ncols - j,
            {
                let key = self.inner[j].0.clone();
                let value = match self.inner[j].1.get(i) {
                    Some(v) => v,
                    None => {
                        proof {
                            assert(self.cols()[j as int].1.values().len()
                                == self.spec_records_len());
                            assert(false);
                        }
                        unreached()
                    },
                };
                fields.push((key, value));
                j += 1;
            }
            let row = Record { fields };
            proof {
                assert forall|a: int|
                    0 <= a < row.spec_fields().len() implies #[trigger] row.spec_fields()[a] == (
                    self.cols()[a].0,
                    self.cols()[a].1.values()[i as int],
                ) by {
                    assert(row.fields@[a].0@ == self.cols()[a].0 && row.fields@[a].1
                        == self.cols()[a].1.values()[i as int]);
                }
                assert forall|a: int, b: int|
                    0 <= a < b < row.spec_fields().len() implies row.spec_fields()[a].0
                    != row.spec_fields()[b].0 by {
                    assert(row.spec_fields()[a].0 == self.cols()[a].0);
                    assert(row.spec_fields()[b].0 == self.cols()[b].0);
                }
            }
            rows.push(row);
            i += 1;
        }
        rows
    }
}

/// A record matches an established schema's keys exactly when its
/// field-name set equals the schema's field-name set: a record whose name
/// set or cardinality differs is the one `push_record` rejects with
/// `FieldMismatch`.
pub proof fn lemma_keys_match_is_name_set_equality(s: Storage, r: Record)
    requires
        s.wf(),
        r.wf(),
    ensures
        s.keys_match(r) <==> r.key_set() == s.key_set(),
{
    broadcast use vstd::seq_lib::seq_to_set_is_finite;

    let sk = s.spec_keys();
    let rk = r.spec_keys();
    assert(sk.no_duplicates());
    assert(rk.no_duplicates());
    sk.unique_seq_to_set();
    rk.unique_seq_to_set();
    if s.keys_match(r) {
        assert forall|k: Seq<char>| s.key_set().contains(k) implies r.key_set().contains(
            k,
        ) by {
            let i = choose|i: int| 0 <= i < sk.len() && sk[i] == k;
            assert(s.cols()[i].0 == k);
            assert(r.has_key(k));
            let j = r.key_index(k);
            assert(rk[j] == k);
        }
        assert forall|k: Seq<char>| r.key_set().contains(k) implies s.key_set().contains(
            k,
        ) by {
            if !s.key_set().contains(k) {
                s.key_set().lemma_subset_not_in_lt(r.key_set(), k);
            }
        }
        assert(r.key_set() =~= s.key_set());
    }
    if r.key_set() == s.key_set() {
        assert(r.spec_fields().len() == s.cols().len());
        assert forall|i: int| 0 <= i < s.cols().len() implies r.has_key(
            #[trigger] s.cols()[i].0,
        ) by {
            assert(sk[i] == s.cols()[i].0);
            assert(s.key_set().contains(sk[i]));
            assert(r.key_set().contains(sk[i]));
            let j = choose|j: int| 0 <= j < rk.len() && rk[j] == sk[i];
            assert(r.spec_fields()[j].0 == sk[i]);
        }
    }
}

/// Pushing a record whose field-name set or cardinality differs from an
/// established schema always fails with `FieldMismatch` and leaves the
/// store's length and content unchanged.
pub proof fn lemma_mismatched_names_always_rejected(
    s: Storage,
    new: Storage,
    record: Record,
    r: Result<(), StorageError>,
)
    requires
        s.wf(),
        record.wf(),
        !s.empty,
        record.key_set() != s.key_set(),
        Storage::push_result(s, new, record, r),
    ensures
        r == Err::<(), StorageError>(StorageError::FieldMismatch),
        new == s,
{
    lemma_keys_match_is_name_set_equality(s, record);
}

/// Pushing a record that carries the schema's field names but gives some
/// field the wrong kind always fails with `FieldTypeMismatch` and leaves
/// the store unchanged.
pub proof fn lemma_mismatched_kinds_always_rejected(
    s: Storage,
    new: Storage,
    record: Record,
    r: Result<(), StorageError>,
)
    requires
        s.wf(),
        record.wf(),
        !s.empty,
        s.keys_match(record),
        !s.kinds_match(record),
        Storage::push_result(s, new, record, r),
    ensures
        r == Err::<(), StorageError>(StorageError::FieldTypeMismatch),
        new == s,
{
}

/// All columns of a well-formed store have equal length: after any sequence
/// of successful pushes, every column holds exactly one value per accepted
/// record.
pub proof fn lemma_columns_equal_length(s: Storage)
    requires
        s.wf(),
    ensures
        forall|i: int, j: int|
            0 <= i < s.cols().len() && 0 <= j < s.cols().len() ==> (
            #[trigger] s.cols()[i].1.values().len()) == (#[trigger] s.cols()[j].1.values().len()),
{
}

} // verus!
