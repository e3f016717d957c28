//! CSV record parsing: positional association of row values with headers.

use vstd::prelude::*;

use crate::record::{ParseError, RawRecord, RawValue};
use crate::token::{parse_number_token, spec_classify};
use crate::util::str_eq;

verus! {

/// CSV parser: holds the configured headers and associates the i-th value
/// of a row with the i-th header.
pub struct CsvParser {
    /// The configured headers.
    pub headers: Vec<String>,
}

impl CsvParser {
    /// The header names, in order.
    pub open spec fn spec_headers(self) -> Seq<Seq<char>> {
        self.headers@.map(|i: int, h: String| h@)
    }

    /// True if no header name repeats.
    pub open spec fn headers_unique(self) -> bool {
        forall|i: int, j: int|
            0 <= i < j < self.spec_headers().len() ==> self.spec_headers()[i]
                != self.spec_headers()[j]
    }

    /// Create a CSV parser from headers.
    pub fn new(headers: Vec<String>) -> (p: Self)
        ensures
            p.headers == headers,
    {
        Self { headers }
    }

    /// Parse one row of values, already split into fields.
    ///
    /// Succeeds exactly when the row has one value per configured header and
    /// the headers are distinct; each value is classified by the
    /// integer-then-float rule, floats staying pending for the caller.
    pub fn parse(&self, fields: &Vec<String>) -> (r: Result<RawRecord, ParseError>)
        ensures
            r is Ok <==> (fields@.len() == self.spec_headers().len() && self.headers_unique()),
            match r {
                Ok(raw) => {
                    &&& raw.wf()
                    &&& raw.spec_fields().len() == self.spec_headers().len()
                    &&& forall|i: int|
                        0 <= i < raw.spec_fields().len() ==> #[trigger] raw.spec_fields()[i] == (
                            self.spec_headers()[i],
                            spec_classify(fields@[i]@),
                        )
                },
                Err(e) => e == ParseError,
            },
    {
        let n = self.headers.len();
        if fields.len() != n {
            return Err(ParseError);
        }
        let mut i: usize = 1;
        while i < n
            invariant
                n == self.spec_headers().len(),
                1 <= i || n == 0,
                i <= n || n == 0,
                forall|a: int, b: int|
                    0 <= a < b < i ==> self.spec_headers()[a] != self.spec_headers()[b],
            decreases n - i,
        {
            let mut j: usize = 0;
            while j < i
                invariant
                    n == self.spec_headers().len(),
                    i < n,
                    j <= i,
                    forall|b: int| 0 <= b < j ==> self.spec_headers()[b] != self.spec_headers()[
                        i as int
                    ],
                decreases i - j,
            {
                if str_eq(self.headers[j].as_str(), self.headers[i].as_str()) {
                    proof {
                        assert(self.spec_headers()[j as int] == self.spec_headers()[i as int]);
                    }
                    return Err(ParseError);
                }
                j += 1;
            }
            i += 1;
        }
        let mut out: Vec<(String, RawValue)> = Vec::new();
        let mut i: usize = 0;
        while i < n
            invariant
                self.headers_unique(),
                n == self.spec_headers().len(),
                fields@.len() == n,
                i <= n,
                out@.len() == i,
                forall|k: int|
                    #![trigger out@[k]]
                    0 <= k < i ==> out@[k].0@ == self.spec_headers()[k] && out@[k].1.view_raw()
                        == spec_classify(fields@[k]@),
            decreases n - i,
        {
            let key = self.headers[i].clone();
            let value = parse_number_token(fields[i].as_str());
            out.push((key, value));
            i += 1;
        }
        let raw = RawRecord { fields: out };
        proof {
            assert forall|a: int|
                0 <= a < raw.spec_fields().len() implies #[trigger] raw.spec_fields()[a] == (
                self.spec_headers()[a],
                spec_classify(fields@[a]@),
            ) by {
                assert(raw.fields@[a].0@ == self.spec_headers()[a] && raw.fields@[a].1.view_raw()
                    == spec_classify(fields@[a]@));
            }
            assert forall|a: int, b: int|
                0 <= a < b < raw.spec_fields().len() implies raw.spec_fields()[a].0
                != raw.spec_fields()[b].0 by {
                assert(raw.spec_fields()[a].0 == self.spec_headers()[a]);
                assert(raw.spec_fields()[b].0 == self.spec_headers()[b]);
            }
        }
        Ok(raw)
    }
}

} // verus!
