//! Byte vectors taken apart into tuples by `itertools`.

use itertools::Itertools;
use vstd::prelude::*;

verus! {

/// `Itertools::collect_tuple` on the items of a byte vector, for a triple.
///
/// The items come out in order when there are exactly three of them;
/// any other count gives `None`.
#[verifier::external_body]
pub(crate) fn collect_triple(bytes: Vec<u8>) -> (out: Option<(u8, u8, u8)>)
    ensures
        bytes@.len() == 3 ==> out == Some((bytes@[0], bytes@[1], bytes@[2])),
        bytes@.len() != 3 ==> out is None,
{
    bytes.into_iter().collect_tuple()
}

/// `Itertools::collect_tuple` on the items of a byte vector, for a tuple of four.
///
/// The items come out in order when there are exactly four of them;
/// any other count gives `None`.
#[verifier::external_body]
pub(crate) fn collect_quad(bytes: Vec<u8>) -> (out: Option<(u8, u8, u8, u8)>)
    ensures
        bytes@.len() == 4 ==> out == Some((bytes@[0], bytes@[1], bytes@[2], bytes@[3])),
        bytes@.len() != 4 ==> out is None,
{
    bytes.into_iter().collect_tuple()
}

} // verus!
