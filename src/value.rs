use vstd::prelude::*;

verus! {

/// A property-list value, as far as this library reads one.
#[derive(Debug)]
pub enum PlistValue {
    Array(Vec<PlistValue>),
    /// The entries of a dictionary, in document order.
    Dictionary(Vec<(String, PlistValue)>),
    /// An integer; property lists hold them in the range of `i64` and `u64` together.
    Integer(i128),
    String(String),
    Boolean(bool),
    /// Any other value (data, date, real, uid), by its textual form.
    Other(String),
}

} // verus!
