//! The random numbers of a game: a ChaCha stream, held as its seed and the position in it.

use rand::seq::SliceRandom;
use rand::{Rng, SeedableRng};
use rand_chacha::ChaCha8Rng;
use vstd::prelude::*;

verus! {

/// What `Rng::gen_range(0..bound)` draws from the ChaCha8 stream of a seed at a position, and
/// the position behind the words it used.
pub uninterp spec fn chacha_gen_range(seed: u64, word_pos: u128, bound: u64) -> (u64, u128);

/// The order into which `SliceRandom::shuffle` brings some items with the ChaCha8 stream of a
/// seed at a position, and the position behind the words it used.
pub uninterp spec fn chacha_shuffle(seed: u64, word_pos: u128, items: Seq<usize>) -> (
    Seq<usize>,
    u128,
);

/// The item that `SliceRandom::choose` picks with the ChaCha8 stream of a seed at a position,
/// and the position behind the words it used.
pub uninterp spec fn chacha_choose(seed: u64, word_pos: u128, items: Seq<usize>) -> (
    Option<usize>,
    u128,
);

/// Calls `rand::Rng::gen_range` with the range from 0 up to a bound, on a
/// `rand_chacha::ChaCha8Rng` that was made by `seed_from_u64` and put to a position by
/// `set_word_pos`. The number lies below the bound. It and the position that `get_word_pos`
/// gives afterwards depend on the seed, the position and the bound alone.
#[verifier::external_body]
fn gen_range(seed: u64, word_pos: u128, bound: u64) -> (drawn: (u64, u128))
    requires
        bound > 0,
    ensures
        drawn == chacha_gen_range(seed, word_pos, bound),
        drawn.0 < bound,
{
    let mut rng = ChaCha8Rng::seed_from_u64(seed);
    rng.set_word_pos(word_pos);
    let value = rng.gen_range(0..bound);
    (value, rng.get_word_pos())
}

/// Calls `rand::seq::SliceRandom::shuffle` on some items, with a `rand_chacha::ChaCha8Rng` that
/// was made by `seed_from_u64` and put to a position by `set_word_pos`. The items stay the same
/// but for their order. The order and the position that `get_word_pos` gives afterwards depend
/// on the seed, the position and the items alone.
#[verifier::external_body]
fn shuffle(seed: u64, word_pos: u128, items: Vec<usize>) -> (shuffled: (Vec<usize>, u128))
    ensures
        shuffled.0@ == chacha_shuffle(seed, word_pos, items@).0,
        shuffled.1 == chacha_shuffle(seed, word_pos, items@).1,
        shuffled.0@.to_multiset() == items@.to_multiset(),
{
    let mut rng = ChaCha8Rng::seed_from_u64(seed);
    rng.set_word_pos(word_pos);
    let mut items = items;
    items.shuffle(&mut rng);
    (items, rng.get_word_pos())
}

/// Calls `rand::seq::SliceRandom::choose` on some items, with a `rand_chacha::ChaCha8Rng` that
/// was made by `seed_from_u64` and put to a position by `set_word_pos`. It picks one of the
/// items, and none only where there is none. The pick and the position that `get_word_pos` gives
/// afterwards depend on the seed, the position and the items alone.
#[verifier::external_body]
fn choose_item(seed: u64, word_pos: u128, items: &Vec<usize>) -> (picked: (Option<usize>, u128))
    ensures
        picked == chacha_choose(seed, word_pos, items@),
        picked.0 is None <==> items@.len() == 0,
        picked.0 is Some ==> items@.contains(picked.0->Some_0),
{
    let mut rng = ChaCha8Rng::seed_from_u64(seed);
    rng.set_word_pos(word_pos);
    let picked = items.choose(&mut rng).copied();
    (picked, rng.get_word_pos())
}

/// A place in the random stream of a seed.
#[derive(Clone, Copy, Debug, PartialEq, Eq, Structural)]
pub struct Dice {
    pub seed: u64,
    pub word_pos: u128,
}

impl Dice {
    /// The number drawn below a bound, and the dice afterwards.
    pub open spec fn rolled(self, bound: u64) -> (u64, Dice) {
        let drawn = chacha_gen_range(self.seed, self.word_pos, bound);
        (drawn.0, Dice { seed: self.seed, word_pos: drawn.1 })
    }

    /// The order into which items are shuffled, and the dice afterwards.
    pub open spec fn shuffled(self, items: Seq<usize>) -> (Seq<usize>, Dice) {
        let drawn = chacha_shuffle(self.seed, self.word_pos, items);
        (drawn.0, Dice { seed: self.seed, word_pos: drawn.1 })
    }

    /// The item picked, and the dice afterwards.
    pub open spec fn picked(self, items: Seq<usize>) -> (Option<usize>, Dice) {
        let drawn = chacha_choose(self.seed, self.word_pos, items);
        (drawn.0, Dice { seed: self.seed, word_pos: drawn.1 })
    }

    /// The dice at the start of the stream of a seed.
    pub fn seeded(seed: u64) -> (dice: Self)
        ensures
            dice == (Dice { seed, word_pos: 0 }),
    {
        Dice { seed, word_pos: 0 }
    }

    /// Draws a number below a bound.
    pub fn roll(&mut self, bound: u64) -> (value: u64)
        requires
            bound > 0,
        ensures
            (value, *final(self)) == old(self).rolled(bound),
            value < bound,
    {
        let (value, word_pos) = gen_range(self.seed, self.word_pos, bound);
        self.word_pos = word_pos;
        value
    }

    /// Shuffles items.
    pub fn shuffle(&mut self, items: Vec<usize>) -> (order: Vec<usize>)
        ensures
            (order@, *final(self)) == old(self).shuffled(items@),
            order@.to_multiset() == items@.to_multiset(),
    {
        let (order, word_pos) = shuffle(self.seed, self.word_pos, items);
        self.word_pos = word_pos;
        order
    }

    /// Picks one of some items; none where there is none.
    pub fn pick(&mut self, items: &Vec<usize>) -> (item: Option<usize>)
        ensures
            (item, *final(self)) == old(self).picked(items@),
            item is None <==> items@.len() == 0,
            item is Some ==> items@.contains(item->Some_0),
    {
        let (item, word_pos) = choose_item(self.seed, self.word_pos, items);
        self.word_pos = word_pos;
        item
    }
}

/// Every number, order and pick is what the stream of the seed holds at its place, and leaves the
/// dice at the place behind it in the same stream.
pub proof fn dice_read_the_stream_of_their_seed(dice: Dice, bound: u64, items: Seq<usize>)
    ensures
        dice.rolled(bound).0 == chacha_gen_range(dice.seed, dice.word_pos, bound).0,
        dice.rolled(bound).1.word_pos == chacha_gen_range(dice.seed, dice.word_pos, bound).1,
        dice.shuffled(items).0 == chacha_shuffle(dice.seed, dice.word_pos, items).0,
        dice.shuffled(items).1.word_pos == chacha_shuffle(dice.seed, dice.word_pos, items).1,
        dice.picked(items).0 == chacha_choose(dice.seed, dice.word_pos, items).0,
        dice.picked(items).1.word_pos == chacha_choose(dice.seed, dice.word_pos, items).1,
        dice.rolled(bound).1.seed == dice.seed,
        dice.shuffled(items).1.seed == dice.seed,
        dice.picked(items).1.seed == dice.seed,
{
}

} // verus!
