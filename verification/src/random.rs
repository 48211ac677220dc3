use vstd::prelude::*;
use rand::seq::{IteratorRandom, SliceRandom};
use rand::distributions::{Alphanumeric, DistString};
use rand::Rng;
use rand::RngCore;

verus! {

/// The random number generator of test generation.
#[verifier::external_type_specification]
#[verifier::external_body]
pub struct ExSmallRng(rand::rngs::SmallRng);

/// Whether positions are distinct.
pub open spec fn distinct(positions: Seq<usize>) -> bool {
    forall|i: int, j: int| 0 <= i < j < positions.len() ==> positions[i] != positions[j]
}

/// `rand::Rng::gen_range` on `0..=bound`: a number from 0 to `bound`.
#[verifier::external_body]
pub(crate) fn draw_at_most(rng: &mut rand::rngs::SmallRng, bound: usize) -> (r: usize)
    ensures
        r <= bound,
{
    rng.gen_range(0..=bound)
}

/// `rand::seq::SliceRandom::choose` on a list of `len` items, by the
/// position it picks: none exactly when the list is empty.
#[verifier::external_body]
pub(crate) fn choose_position(rng: &mut rand::rngs::SmallRng, len: usize) -> (r: Option<usize>)
    ensures
        match r {
            None => len == 0,
            Some(i) => i < len,
        },
{
    let positions: Vec<usize> = (0..len).collect();
    positions.choose(rng).copied()
}

/// `rand::seq::IteratorRandom::choose_multiple` on an iterator of `len`
/// items, by the positions it picks: `amount` distinct positions, or all
/// of them when there are fewer, in no particular order.
#[verifier::external_body]
pub(crate) fn choose_positions(rng: &mut rand::rngs::SmallRng, len: usize, amount: usize) -> (r: Vec<usize>)
    ensures
        r.len() == if amount < len { amount } else { len },
        distinct(r@),
        forall|i: int| 0 <= i < r.len() ==> r@[i] < len,
{
    (0..len).choose_multiple(rng, amount)
}

/// `rand::Rng::gen_range` on an inclusive range of 32-bit integers.
#[verifier::external_body]
pub(crate) fn draw_i32(rng: &mut rand::rngs::SmallRng, low: i32, high: i32) -> (r: i32)
    requires
        low <= high,
    ensures
        low <= r <= high,
{
    rng.gen_range(low..=high)
}

/// `rand::Rng::gen_range` on an inclusive range of bytes.
#[verifier::external_body]
pub(crate) fn draw_u8(rng: &mut rand::rngs::SmallRng, low: u8, high: u8) -> (r: u8)
    requires
        low <= high,
    ensures
        low <= r <= high,
{
    rng.gen_range(low..=high)
}

/// `rand::seq::SliceRandom::choose_multiple` on a list of `len` items, by
/// the positions it picks: `amount` distinct positions, or all of them when
/// there are fewer.
#[verifier::external_body]
pub(crate) fn choose_slice_positions(rng: &mut rand::rngs::SmallRng, len: usize, amount: usize) -> (r: Vec<usize>)
    ensures
        r.len() == if amount < len { amount } else { len },
        distinct(r@),
        forall|i: int| 0 <= i < r.len() ==> r@[i] < len,
{
    let positions: Vec<usize> = (0..len).collect();
    positions.choose_multiple(rng, amount).copied().collect()
}

/// `rand::seq::IteratorRandom::choose` on an iterator of `len` items whose
/// length is not known in advance (a filtered one), by the position it
/// picks: none exactly when there are no items.
#[verifier::external_body]
pub(crate) fn choose_filtered_position(rng: &mut rand::rngs::SmallRng, len: usize) -> (r: Option<usize>)
    ensures
        match r {
            None => len == 0,
            Some(i) => i < len,
        },
{
    (0..len).filter(|_| true).choose(rng)
}

/// `rand::Rng::gen_ratio(1, 2)`: a fair coin, drawn as `gen_bool` with
/// even odds draws it.
#[verifier::external_body]
pub(crate) fn coin_flip(rng: &mut rand::rngs::SmallRng) -> (r: bool) {
    rng.gen_ratio(1, 2)
}

/// `rand::RngCore::next_u32`: any 32-bit number.
#[verifier::external_body]
pub(crate) fn draw_u32(rng: &mut rand::rngs::SmallRng) -> (r: u32) {
    rng.next_u32()
}

/// Whether a character is an ASCII letter or digit.
pub open spec fn is_alphanumeric(c: char) -> bool {
    ('A' <= c && c <= 'Z') || ('a' <= c && c <= 'z') || ('0' <= c && c <= '9')
}

/// `rand::distributions::Alphanumeric.sample_string`: `len` characters,
/// each an ASCII letter or digit.
#[verifier::external_body]
pub(crate) fn alphanumeric_string(rng: &mut rand::rngs::SmallRng, len: usize) -> (r: String)
    ensures
        r@.len() == len,
        forall|i: int| 0 <= i < len ==> is_alphanumeric(#[trigger] r@[i]),
{
    Alphanumeric.sample_string(rng, len)
}

/// `rand::Rng::gen_range` on an inclusive range of sizes.
#[verifier::external_body]
pub(crate) fn draw_usize(rng: &mut rand::rngs::SmallRng, low: usize, high: usize) -> (r: usize)
    requires
        low <= high,
    ensures
        low <= r <= high,
{
    rng.gen_range(low..=high)
}

} // verus!
