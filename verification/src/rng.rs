//! The outside sources of randomness and unique ids the game draws on.
use vstd::prelude::*;

verus! {

/// A fresh ULID in its canonical text form, as `ulid::Ulid::new().to_string()`
/// gives it. The id depends on the clock and on chance, so nothing is stated of
/// it but its length of 26 characters, which the ULID text format fixes.
#[verifier::external_body]
pub fn new_ulid() -> (s: String)
    ensures
        s@.len() == 26,
{
    ulid::Ulid::new().to_string()
}

/// A fresh random UUID in its hyphenated text form, as
/// `uuid::Uuid::new_v4().to_string()` gives it. The id depends on chance, so
/// nothing is stated of it but its length of 36 characters, which the
/// hyphenated format fixes.
#[verifier::external_body]
pub fn new_uuid() -> (s: String)
    ensures
        s@.len() == 36,
{
    uuid::Uuid::new_v4().to_string()
}

/// A symbol drawn at random, as `rand::seq::SliceRandom::choose` draws it
/// with the thread-local generator. The draw rests on chance, so nothing is
/// stated of it but that it is one of the symbols; `choose` gives nothing
/// back only for an empty list, which `requires` leaves out.
#[verifier::external_body]
pub fn choose_symbol(symbols: &Vec<&'static str>) -> (r: &'static str)
    requires
        symbols@.len() > 0,
    ensures
        symbols@.contains(r),
{
    *rand::seq::SliceRandom::choose(symbols.as_slice(), &mut rand::thread_rng()).unwrap()
}

/// A number drawn at random from `0..100`, as `rand::Rng::gen_range` draws it
/// with the thread-local generator: nothing is stated of it but its range.
#[verifier::external_body]
pub fn roll_percent() -> (r: usize)
    ensures
        r < 100,
{
    rand::Rng::gen_range(&mut rand::thread_rng(), 0..100)
}

/// `places[i]` is a place in `symbols` holding `drawn[i]`, no place used twice.
pub open spec fn placed(symbols: Seq<&'static str>, drawn: Seq<&'static str>, places: Seq<int>) -> bool {
    &&& places.len() == drawn.len()
    &&& forall|i: int| 0 <= i < places.len() ==> 0 <= #[trigger] places[i] < symbols.len() && symbols[places[i]] == drawn[i]
    &&& forall|i: int, j: int| 0 <= i < j < places.len() ==> #[trigger] places[i] != #[trigger] places[j]
}

/// Each of `drawn` comes from its own place in `symbols`.
pub open spec fn drawn_without_repetition(symbols: Seq<&'static str>, drawn: Seq<&'static str>) -> bool {
    exists|places: Seq<int>| #[trigger] placed(symbols, drawn, places)
}

/// Up to three symbols drawn at random without repetition, as
/// `rand::seq::SliceRandom::choose_multiple` draws them with the thread-local
/// generator: as many as there are symbols, three at most, each from its own
/// place in the list. Which ones, and their order, rest on chance and are
/// not stated.
#[verifier::external_body]
pub fn choose_three(symbols: &Vec<&'static str>) -> (r: Vec<&'static str>)
    ensures
        r@.len() == if symbols@.len() < 3 { symbols@.len() } else { 3 },
        drawn_without_repetition(symbols@, r@),
{
    rand::seq::SliceRandom::choose_multiple(symbols.as_slice(), &mut rand::thread_rng(), 3).map(|s| *s).collect()
}

} // verus!
