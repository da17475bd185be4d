//! The chance-driven zones' draws, behind thin trusted wrappers, and the
//! rendering of their outcomes. Nothing is assumed of a draw beyond its
//! range; every caller states what holds of either outcome.

use vstd::prelude::*;

verus! {

/// "heads".
pub open spec fn heads_text() -> Seq<u8> {
    seq!['h' as u8, 'e' as u8, 'a' as u8, 'd' as u8, 's' as u8]
}

/// "tails".
pub open spec fn tails_text() -> Seq<u8> {
    seq!['t' as u8, 'a' as u8, 'i' as u8, 'l' as u8, 's' as u8]
}

/// Relies on rand::random: an unbiased coin flip. Nothing can be promised of
/// the outcome.
#[verifier::external_body]
pub(crate) fn coin_flip() -> bool {
    rand::random()
}

/// Relies on rand::random_range: a value drawn uniformly from the given
/// nonempty range, so the result is always one through six.
#[verifier::external_body]
pub(crate) fn roll_die() -> (r: u64)
    ensures
        1 <= r <= 6,
{
    rand::random_range(1u64..=6u64)
}

/// The text of a coin-flip outcome.
pub fn coin_text(heads: bool) -> (r: Vec<u8>)
    ensures
        heads ==> r@ == heads_text(),
        !heads ==> r@ == tails_text(),
{
    if heads {
        let r = vec!['h' as u8, 'e' as u8, 'a' as u8, 'd' as u8, 's' as u8];
        proof {
            assert(r@ =~= heads_text());
        }
        r
    } else {
        let r = vec!['t' as u8, 'a' as u8, 'i' as u8, 'l' as u8, 's' as u8];
        proof {
            assert(r@ =~= tails_text());
        }
        r
    }
}

} // verus!
