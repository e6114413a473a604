use bitter::LittleEndianReader;
use vstd::arithmetic::power2::{lemma2_to64, lemma_pow2_unfold, pow2};
use vstd::prelude::*;

verus! {

#[verifier::external_type_specification]
#[verifier::external_body]
pub struct ExLittleEndianReader<'a>(LittleEndianReader<'a>);

/// The bits a reader has not handed out yet, in reading order.
pub uninterp spec fn unread_bits(r: LittleEndianReader<'_>) -> Seq<bool>;

/// The unsigned value of a run of bits whose first bit is the least significant.
pub open spec fn bits_value(s: Seq<bool>) -> nat
    decreases s.len(),
{
    if s.len() == 0 {
        0
    } else {
        (if s[0] { 1nat } else { 0nat }) + 2 * bits_value(s.drop_first())
    }
}

/// Relies on bitter's `BitReader::read_bits` on a little-endian reader: for a width of at
/// most 64 it hands out the next `n` unread bits, the first as the least significant, and
/// yields `None` when fewer than `n` remain.
#[verifier::external_body]
pub(crate) fn read_bits(r: &mut LittleEndianReader<'_>, n: u32) -> (res: Option<u64>)
    requires
        n <= 64,
    ensures
        unread_bits(*old(r)).len() >= n ==> {
            &&& res is Some
            &&& res->0 as nat == bits_value(unread_bits(*old(r)).take(n as int))
            &&& unread_bits(*final(r)) == unread_bits(*old(r)).skip(n as int)
        },
        unread_bits(*old(r)).len() < n ==> res is None,
{
    bitter::BitReader::read_bits(r, n)
}

/// A run of `n` bits holds a value below `2^n`.
pub proof fn lemma_bits_value_bound(s: Seq<bool>)
    ensures
        bits_value(s) < pow2(s.len() as nat),
    decreases s.len(),
{
    lemma2_to64();
    if s.len() > 0 {
        lemma_bits_value_bound(s.drop_first());
        lemma_pow2_unfold(s.len() as nat);
    }
}

} // verus!
