//! Fresh identifiers for calls, views and cursors.
use vstd::prelude::*;

verus! {

/// Whether `id` has the layout of a random (version 4) UUID in hyphenated
/// form: 36 characters, hyphens at positions 8, 13, 18 and 23, lower-case hex
/// digits elsewhere, the version digit `4` at position 14 and one of `8`, `9`,
/// `a`, `b` at position 19.
pub open spec fn is_hyphenated_v4(id: Seq<char>) -> bool {
    &&& id.len() == 36
    &&& forall|i: int|
        0 <= i < 36 ==> if i == 8 || i == 13 || i == 18 || i == 23 {
            #[trigger] id[i] == '-'
        } else {
            ('0' <= id[i] <= '9') || ('a' <= id[i] <= 'f')
        }
    &&& id[14] == '4'
    &&& (id[19] == '8' || id[19] == '9' || id[19] == 'a' || id[19] == 'b')
}

/// `uuid::Uuid::new_v4`, written in its hyphenated form: a fresh random
/// identifier. Nothing is claimed of which identifier comes out, only its
/// layout, which the hyphenated format and the version 4 bits fix.
#[verifier::external_body]
pub(crate) fn new_id() -> (id: String)
    ensures
        is_hyphenated_v4(id@),
{
    uuid::Uuid::new_v4().hyphenated().to_string()
}

} // verus!
