//! Records: one ingested observation each, mapping field names to numbers.

use vstd::prelude::*;

use crate::number::Number;
use crate::util::str_eq;

verus! {

/// Parse error.
///
/// This type provides no information about the cause of the error because
/// it is irrelevant to the user: the supported input formats are popular,
/// simple and well documented.
#[derive(Clone, Copy, Debug, PartialEq, Eq, Structural)]
pub struct ParseError;

/// Error produced by a line or record reader.
#[derive(Clone, Copy, Debug, PartialEq, Eq, Structural)]
pub struct ReadError;

/// A record: an ordered list of fields, each a name paired with a [`Number`].
/// Field names are unique.
pub struct Record {
    /// The fields, in input order.
    pub fields: Vec<(String, Number)>,
}

impl Record {
    /// The fields as a sequence of (name, value) pairs.
    pub open spec fn spec_fields(self) -> Seq<(Seq<char>, Number)> {
        self.fields@.map(|i: int, kv: (String, Number)| (kv.0@, kv.1))
    }

    /// The field names, in order.
    pub open spec fn spec_keys(self) -> Seq<Seq<char>> {
        self.spec_fields().map(|i: int, kv: (Seq<char>, Number)| kv.0)
    }

    /// The field names as a set.
    pub open spec fn key_set(self) -> Set<Seq<char>> {
        self.spec_keys().to_set()
    }

    /// Well-formed: no two fields share a name.
    pub open spec fn wf(self) -> bool {
        forall|i: int, j: int|
            0 <= i < j < self.spec_fields().len()
                ==> self.spec_fields()[i].0 != self.spec_fields()[j].0
    }

    /// True if some field is named `k`.
    pub open spec fn has_key(self, k: Seq<char>) -> bool {
        exists|i: int| 0 <= i < self.spec_fields().len() && self.spec_fields()[i].0 == k
    }

    /// The index of the field named `k`.
    pub open spec fn key_index(self, k: Seq<char>) -> int {
        choose|i: int| 0 <= i < self.spec_fields().len() && self.spec_fields()[i].0 == k
    }

    /// The value of the field named `k`.
    pub open spec fn spec_get(self, k: Seq<char>) -> Number {
        self.spec_fields()[self.key_index(k)].1
    }

    /// Construct an empty record.
    pub fn new() -> (r: Record)
        ensures
            r.spec_fields() =~= Seq::<(Seq<char>, Number)>::empty(),
            r.wf(),
    {
        Record { fields: Vec::new() }
    }

    /// The number of fields.
    pub fn len(&self) -> (n: usize)
        ensures
            n == self.spec_fields().len(),
    {
        self.fields.len()
    }

    /// Add a field. Fails, changing nothing, if a field of that name is
    /// already present.
    pub fn insert(&mut self, key: String, value: Number) -> (ok: bool)
        requires
            old(self).wf(),
        ensures
            final(self).wf(),
            ok == !old(self).has_key(key@),
            ok ==> final(self).spec_fields() =~= old(self).spec_fields().push((key@, value)),
            !ok ==> *final(self) == *old(self),
    {
        if self.contains_key(key.as_str()) {
            return false;
        }
        self.fields.push((key, value));
        proof {
            assert(self.spec_fields() =~= old(self).spec_fields().push((key@, value)));
            assert forall|i: int, j: int|
                0 <= i < j < self.spec_fields().len() implies self.spec_fields()[i].0
                != self.spec_fields()[j].0 by {
                if j == self.spec_fields().len() - 1 {
                    assert(self.spec_fields()[j].0 == key@);
                    assert(self.spec_fields()[i] == old(self).spec_fields()[i]);
                    if self.spec_fields()[i].0 == key@ {
                        assert(old(self).spec_fields()[i].0 == key@);
                        assert(old(self).has_key(key@));
                    }
                } else {
                    assert(self.spec_fields()[i] == old(self).spec_fields()[i]);
                    assert(self.spec_fields()[j] == old(self).spec_fields()[j]);
                }
            }
        }
        true
    }

    /// True if a field named `key` is present.
    pub fn contains_key(&self, key: &str) -> (r: bool)
        ensures
            r == self.has_key(key@),
    {
        let n = self.fields.len();
        let mut i: usize = 0;
        while i < n
            invariant
                n == self.spec_fields().len(),
                i <= n,
                forall|k: int| 0 <= k < i ==> self.spec_fields()[k].0 != key@,
            decreases n - i,
        {
            if str_eq(self.fields[i].0.as_str(), key) {
                proof {
                    assert(self.spec_fields()[i as int].0 == key@);
                }
                return true;
            }
            i += 1;
        }
        false
    }

    /// Look up a field by name.
    pub fn get(&self, key: &str) -> (r: Option<Number>)
        requires
            self.wf(),
        ensures
            r == if self.has_key(key@) {
                Some(self.spec_get(key@))
            } else {
                None::<Number>
            },
    {
        let n = self.fields.len();
        let mut i: usize = 0;
        while i < n
            invariant
                self.wf(),
                n == self.spec_fields().len(),
                i <= n,
                forall|k: int| 0 <= k < i ==> self.spec_fields()[k].0 != key@,
            decreases n - i,
        {
            if str_eq(self.fields[i].0.as_str(), key) {
                proof {
                    assert(self.spec_fields()[i as int].0 == key@);
                    assert(self.key_index(key@) == i as int);
                }
                return Some(self.fields[i].1);
            }
            i += 1;
        }
        None
    }

    /// Copy the record field by field.
    pub fn duplicate(&self) -> (r: Record)
        ensures
            r.spec_fields() =~= self.spec_fields(),
    {
        let n = self.fields.len();
        let mut fields: Vec<(String, Number)> = Vec::new();
        let mut i: usize = 0;
        while i < n
            invariant
                n == self.fields@.len(),
                i <= n,
                fields@.len() == i,
                forall|k: int|
                    0 <= k < i ==> fields@[k].0@ == self.fields@[k].0@ && fields@[k].1
                        == self.fields@[k].1,
            decreases n - i,
        {
            let key = self.fields[i].0.clone();
            fields.push((key, self.fields[i].1));
            i += 1;
        }
        Record { fields }
    }
}

/// A value scanned from the input, before floats are interpreted.
///
/// A token that parses cleanly as a 64-bit signed integer literal becomes
/// `Int`; any other token is kept as `Pending` text, to be interpreted as a
/// float (or rejected) by the caller, which owns float conversion.
#[derive(Debug)]
pub enum RawValue {
    /// A token that parsed as an integer.
    Int(i64),
    /// A token to be interpreted as a float by the caller.
    Pending(String),
}

/// The specification-level shape of a [`RawValue`].
pub enum SpecRawValue {
    /// A token that parsed as an integer.
    Int(i64),
    /// A token to be interpreted as a float by the caller.
    Pending(Seq<char>),
}

impl RawValue {
    /// The specification-level shape of this value.
    pub open spec fn view_raw(self) -> SpecRawValue {
        match self {
            RawValue::Int(v) => SpecRawValue::Int(v),
            RawValue::Pending(t) => SpecRawValue::Pending(t@),
        }
    }
}

/// A scanned record, before floats are interpreted: an ordered list of
/// fields, each a name paired with a [`RawValue`]. Field names are unique.
#[derive(Debug)]
pub struct RawRecord {
    /// The fields, in input order.
    pub fields: Vec<(String, RawValue)>,
}

impl RawRecord {
    /// The fields as a sequence of (name, value) pairs.
    pub open spec fn spec_fields(self) -> Seq<(Seq<char>, SpecRawValue)> {
        self.fields@.map(|i: int, kv: (String, RawValue)| (kv.0@, kv.1.view_raw()))
    }

    /// Well-formed: no two fields share a name.
    pub open spec fn wf(self) -> bool {
        forall|i: int, j: int|
            0 <= i < j < self.spec_fields().len()
                ==> self.spec_fields()[i].0 != self.spec_fields()[j].0
    }

    /// True if some field is named `k`.
    pub open spec fn has_key(self, k: Seq<char>) -> bool {
        exists|i: int| 0 <= i < self.spec_fields().len() && self.spec_fields()[i].0 == k
    }

    /// True if every pending field has an interpretation in `bits`.
    pub open spec fn resolvable(self, bits: Seq<Option<u64>>) -> bool {
        forall|i: int|
            0 <= i < self.spec_fields().len() ==> (self.spec_fields()[i].1 is Pending
                ==> bits[i] is Some)
    }

    /// The number the `i`-th field resolves to under `bits`.
    pub open spec fn resolved_value(self, bits: Seq<Option<u64>>, i: int) -> Number {
        match self.spec_fields()[i].1 {
            SpecRawValue::Int(v) => Number::Int(v),
            SpecRawValue::Pending(_) => Number::Float(bits[i]->Some_0),
        }
    }

    /// The number of fields.
    pub fn len(&self) -> (n: usize)
        ensures
            n == self.spec_fields().len(),
    {
        self.fields.len()
    }

    /// The tokens still awaiting float interpretation, one slot per field:
    /// `Some(token)` where the field is pending, `None` where it is already
    /// an integer.
    pub fn pending_tokens(&self) -> (r: Vec<Option<String>>)
        ensures
            r@.len() == self.spec_fields().len(),
            forall|i: int|
                #![trigger r@[i]]
                0 <= i < r@.len() ==> match self.spec_fields()[i].1 {
                    SpecRawValue::Pending(t) => r@[i] is Some && r@[i]->Some_0@ == t,
                    SpecRawValue::Int(_) => r@[i] is None,
                },
    {
        let n = self.fields.len();
        let mut r: Vec<Option<String>> = Vec::new();
        let mut i: usize = 0;
        while i < n
            invariant
                n == self.spec_fields().len(),
                n == self.fields@.len(),
                i <= n,
                r@.len() == i,
                forall|k: int|
                    #![trigger r@[k]]
                    0 <= k < i ==> match self.spec_fields()[k].1 {
                        SpecRawValue::Pending(t) => r@[k] is Some && r@[k]->Some_0@ == t,
                        SpecRawValue::Int(_) => r@[k] is None,
                    },
            decreases n - i,
        {
            match &self.fields[i].1 {
                RawValue::Pending(t) => {
                    let copy = t.clone();
                    r.push(Some(copy));
                },
                RawValue::Int(_) => {
                    r.push(None);
                },
            }
            i += 1;
        }
        r
    }

    /// Turn the scanned record into a [`Record`], interpreting each pending
    /// field `i` as a float with the bit pattern `bits[i]`. Fails if any
    /// pending field has no interpretation (`bits[i]` is `None`).
    pub fn resolve(&self, bits: &Vec<Option<u64>>) -> (r: Result<Record, ParseError>)
        requires
            self.wf(),
            bits@.len() == self.spec_fields().len(),
        ensures
            r is Ok <==> self.resolvable(bits@),
            match r {
                Ok(rec) => {
                    &&& rec.wf()
                    &&& rec.spec_fields().len() == self.spec_fields().len()
                    &&& forall|i: int|
                        0 <= i < rec.spec_fields().len() ==> rec.spec_fields()[i] == (
                        self.spec_fields()[i].0,
                        self.resolved_value(bits@, i),
                    )
                },
                Err(e) => e == ParseError,
            },
    {
        let n = self.fields.len();
        let mut fields: Vec<(String, Number)> = Vec::new();
        let mut i: usize = 0;
        while i < n
            invariant
                self.wf(),
                bits@.len() == n,
                n == self.spec_fields().len(),
                n == self.fields@.len(),
                i <= n,
                fields@.len() == i,
                forall|k: int|
                    0 <= k < i ==> (self.spec_fields()[k].1 is Pending ==> bits@[k] is Some),
                forall|k: int|
                    #![trigger fields@[k]]
                    0 <= k < i ==> fields@[k].0@ == self.spec_fields()[k].0 && fields@[k].1
                        == self.resolved_value(bits@, k),
            decreases n - i,
        {
            let key = self.fields[i].0.clone();
            let value = match &self.fields[i].1 {
                RawValue::Int(v) => Number::Int(*v),
                RawValue::Pending(_) => {
                    match bits[i] {
                        Some(b) => Number::Float(b),
                        None => {
                            return Err(ParseError);
                        },
                    }
                },
            };
            fields.push((key, value));
            i += 1;
        }
        let rec = Record { fields };
        proof {
            assert forall|a: int|
                0 <= a < rec.spec_fields().len() implies rec.spec_fields()[a] == (
                self.spec_fields()[a].0,
                self.resolved_value(bits@, a),
            ) by {
                assert(rec.fields@[a].0@ == self.spec_fields()[a].0 && rec.fields@[a].1
                    == self.resolved_value(bits@, a));
            }
            assert forall|a: int, b: int|
                0 <= a < b < rec.spec_fields().len() implies rec.spec_fields()[a].0
                != rec.spec_fields()[b].0 by {
                assert(rec.spec_fields()[a].0 == self.spec_fields()[a].0);
                assert(rec.spec_fields()[b].0 == self.spec_fields()[b].0);
                assert(self.spec_fields()[a].0 != self.spec_fields()[b].0);
            }
        }
        Ok(rec)
    }
}

} // verus!
