//! Errors of a fetch, and the check that a response holds the fields the
//! caller needs.
use vstd::prelude::*;

verus! {

/// Why a fetch failed.
#[derive(Debug, PartialEq, Eq)]
pub enum FetchError {
    /// The request itself failed; the message says why.
    Request(String),
    /// The response lacked the named field.
    MissingField(String),
}

impl FetchError {
    /// The message that reports the error.
    pub fn message(&self) -> (s: String)
        ensures
            self matches FetchError::Request(m) ==> s@ == m@,
            self matches FetchError::MissingField(f) ==> s@ == "missing "@ + f@,
    {
        match self {
            FetchError::Request(m) => m.clone(),
            FetchError::MissingField(field) => {
                let mut s = String::from_str("missing ");
                s.append(field.as_str());
                s
            },
        }
    }
}

/// Whether every one of `values` is present.
pub open spec fn all_present(values: Seq<Option<String>>) -> bool {
    forall|i: int| 0 <= i < values.len() ==> (#[trigger] values[i]) is Some
}

/// The values of the field `field` of each item of a response, in order, up
/// to the first item that lacks it; and `MissingField(field)` if some item
/// lacks it. The values before a missing one are still good to report.
pub fn present_prefix(values: Vec<Option<String>>, field: &str) -> (r: (Vec<String>, Option<FetchError>))
    ensures
        r.0@.len() <= values@.len(),
        forall|j: int| 0 <= j < r.0@.len() ==> values@[j] == Some(#[trigger] r.0@[j]),
        r.0@.len() < values@.len() ==> values@[r.0@.len() as int] is None,
        r.1 is Some <==> !all_present(values@),
        r.1 matches Some(e) ==> (e is MissingField && e->MissingField_0@ == field@),
{
    let mut out: Vec<String> = Vec::new();
    let mut i: usize = 0;
    let n = values.len();
    while i < n
        invariant
            n == values@.len(),
            0 <= i <= n,
            out@.len() == i,
            forall|j: int| 0 <= j < i ==> values@[j] == Some(#[trigger] out@[j]),
        decreases n - i,
    {
        match &values[i] {
            Some(v) => {
                out.push(v.clone());
            },
            None => {
                return (out, Some(FetchError::MissingField(field.to_owned())));
            },
        }
        i = i + 1;
    }
    assert forall|j: int| 0 <= j < values@.len() implies (#[trigger] values@[j]) is Some by {
        assert(values@[j] == Some(out@[j]));
    }
    (out, None)
}

} // verus!
