//! Identifiers for new records.
use vstd::prelude::*;

verus! {

/// The shape of a version 7 identifier in hyphenated text form: 36
/// characters, hyphens after the 8th, 12th, 16th and 20th hex digit, and the
/// version digit `7` opening the third group.
pub open spec fn v7_shape(s: Seq<char>) -> bool {
    &&& s.len() == 36
    &&& s[8] == '-' && s[13] == '-' && s[18] == '-' && s[23] == '-'
    &&& s[14] == '7'
}

/// `uuid::Uuid::new_v7(Timestamp::from_rfc4122(ticks, counter))` in its
/// hyphenated text form. A version 7 identifier carries random bits, so
/// only its shape is stated.
#[verifier::external_body]
pub(crate) fn new_v7_id(ticks: u64, counter: u16) -> (r: String)
    ensures
        v7_shape(r@),
{
    #[allow(deprecated)]
    let ts = uuid::Timestamp::from_rfc4122(ticks, counter);
    uuid::Uuid::new_v7(ts).to_string()
}

} // verus!
