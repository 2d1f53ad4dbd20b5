//! The draw: a deck of basic tiles, and the cycle that places the bonus tiles.

use crate::board::{face_of, faces_of, highest, rank_to_face, Board};
use crate::dice::Dice;
use crate::forecast::{BONUS_CYCLE_SIZE, BONUS_UNLOCK_HIGH_RANK};
use crate::tile::{NextTile, Preview};
use vstd::prelude::*;

verus! {

/// Number of tiles in the deck of basic tiles.
pub const BASIC_DECK_SIZE: usize = 12;

/// The lowest rank of a bonus tile; its face is 6.
pub const BONUS_LOWEST_RANK: u16 = 4;

// ---------------------------------------------------------------------------------------------
// Counting
// ---------------------------------------------------------------------------------------------

/// How often a value occurs in a sequence.
pub open spec fn occurrences<T>(items: Seq<T>, value: T) -> nat
    decreases items.len(),
{
    if items.len() == 0 {
        0
    } else {
        occurrences(items.drop_last(), value) + (if items.last() == value {
            1nat
        } else {
            0
        })
    }
}

/// Where one item is replaced, the new one occurs once more and the old one once less.
pub proof fn replacing_an_item_changes_two_counts<T>(items: Seq<T>, i: int, new: T, value: T)
    requires
        0 <= i < items.len(),
    ensures
        occurrences(items.update(i, new), value) + (if items[i] == value {
            1nat
        } else {
            0
        }) == occurrences(items, value) + (if new == value {
            1nat
        } else {
            0
        }),
    decreases items.len(),
{
    let replaced = items.update(i, new);
    if i == items.len() - 1 {
        assert(replaced.drop_last() =~= items.drop_last());
    } else {
        replacing_an_item_changes_two_counts(items.drop_last(), i, new, value);
        assert(replaced.drop_last() =~= items.drop_last().update(i, new));
    }
}

/// A value occurs among the first few items at most as often as among all.
pub proof fn a_part_holds_no_more<T>(items: Seq<T>, count: int, value: T)
    requires
        0 <= count <= items.len(),
    ensures
        occurrences(items.take(count), value) <= occurrences(items, value),
    decreases items.len(),
{
    if count < items.len() {
        a_part_holds_no_more(items.drop_last(), count, value);
        assert(items.drop_last().take(count) =~= items.take(count));
    } else {
        assert(items.take(count) =~= items);
    }
}

proof fn lemma_occurrences_count<T>(items: Seq<T>, value: T)
    ensures
        items.to_multiset().count(value) == occurrences(items, value),
    decreases items.len(),
{
    broadcast use vstd::seq_lib::group_to_multiset_ensures;

    if items.len() > 0 {
        lemma_occurrences_count(items.drop_last(), value);
        assert(items =~= items.drop_last().push(items.last()));
    }
}

proof fn lemma_shuffle_keeps_occurrences(before: Seq<usize>, after: Seq<usize>, value: usize)
    requires
        before.to_multiset() == after.to_multiset(),
    ensures
        occurrences(before, value) == occurrences(after, value),
        before.len() == after.len(),
{
    broadcast use vstd::seq_lib::group_to_multiset_ensures;

    lemma_occurrences_count(before, value);
    lemma_occurrences_count(after, value);
    assert(before.len() == before.to_multiset().len());
    assert(after.len() == after.to_multiset().len());
}

proof fn lemma_shuffle_keeps_a_bound(before: Seq<usize>, after: Seq<usize>, bound: usize)
    requires
        before.to_multiset() == after.to_multiset(),
        forall|i: int| 0 <= i < before.len() ==> before[i] <= bound,
    ensures
        forall|i: int| 0 <= i < after.len() ==> after[i] <= bound,
{
    broadcast use vstd::seq_lib::group_to_multiset_ensures;

    assert forall|i: int| 0 <= i < after.len() implies after[i] <= bound by {
        assert(after.contains(after[i]));
        assert(after.to_multiset().count(after[i]) > 0);
        assert(before.contains(after[i]));
    }
}

/// Items as ranks.
pub open spec fn as_ranks(items: Seq<usize>) -> Seq<u16> {
    Seq::new(items.len(), |i: int| items[i] as u16)
}

/// Items as marks: 1 is a mark.
pub open spec fn as_marks(items: Seq<usize>) -> Seq<bool> {
    Seq::new(items.len(), |i: int| items[i] == 1)
}

proof fn lemma_ranks_keep_occurrences(items: Seq<usize>, value: usize)
    requires
        forall|i: int| 0 <= i < items.len() ==> items[i] <= 3,
        value <= 3,
    ensures
        occurrences(as_ranks(items), value as u16) == occurrences(items, value),
    decreases items.len(),
{
    if items.len() > 0 {
        lemma_ranks_keep_occurrences(items.drop_last(), value);
        assert(as_ranks(items).drop_last() =~= as_ranks(items.drop_last()));
    }
}

proof fn lemma_marks_keep_occurrences(items: Seq<usize>)
    ensures
        occurrences(as_marks(items), true) == occurrences(items, 1usize),
    decreases items.len(),
{
    if items.len() > 0 {
        lemma_marks_keep_occurrences(items.drop_last());
        assert(as_marks(items).drop_last() =~= as_marks(items.drop_last()));
    }
}

proof fn lemma_few_occurrences<T>(items: Seq<T>, value: T)
    ensures
        occurrences(items, value) == 0 ==> forall|i: int|
            0 <= i < items.len() ==> items[i] != value,
        occurrences(items, value) == 1 ==> exists|p: int|
            0 <= p < items.len() && #[trigger] items[p] == value && forall|q: int|
                0 <= q < items.len() && items[q] == value ==> q == p,
    decreases items.len(),
{
    if items.len() > 0 {
        let front = items.drop_last();
        lemma_few_occurrences(front, value);
        assert forall|i: int| 0 <= i < items.len() - 1 implies front[i] == items[i] by {}
        if occurrences(items, value) == 0 {
            assert forall|i: int| 0 <= i < items.len() implies items[i] != value by {
                if i < items.len() - 1 {
                    assert(front[i] != value);
                }
            }
        }
        if occurrences(items, value) == 1 {
            if items.last() == value {
                let p = items.len() - 1;
                assert(items[p] == value);
                assert forall|q: int| 0 <= q < items.len() && items[q] == value implies q == p by {
                    if q < items.len() - 1 {
                        assert(front[q] != value);
                    }
                }
            } else {
                let p = choose|p: int|
                    0 <= p < front.len() && #[trigger] front[p] == value && forall|q: int|
                        0 <= q < front.len() && front[q] == value ==> q == p;
                assert(items[p] == value);
                assert forall|q: int| 0 <= q < items.len() && items[q] == value implies q == p by {
                    assert(front[q] == value);
                }
            }
        }
    }
}

// ---------------------------------------------------------------------------------------------
// The model of the draw
// ---------------------------------------------------------------------------------------------

/// The deck and the cycle, each with the position of the next tile in it, and whether the next
/// tile takes a place in the cycle.
#[verifier::ext_equal]
pub struct DrawModel {
    pub deck: Seq<u16>,
    pub basic_pos: int,
    pub cycle: Seq<bool>,
    pub bonus_pos: int,
    pub pending: bool,
}

/// The deck before it is shuffled: four tiles each of the ranks 1, 2 and 3.
pub open spec fn ordered_deck() -> Seq<usize> {
    seq![1usize, 1, 1, 1, 2, 2, 2, 2, 3, 3, 3, 3]
}

/// The cycle before it is shuffled: one bonus tile and twenty others.
pub open spec fn ordered_cycle() -> Seq<usize> {
    Seq::new(
        21,
        |i: int|
            if i == 0 {
                1usize
            } else {
                0usize
            },
    )
}

proof fn lemma_ordered_deck()
    ensures
        occurrences(ordered_deck(), 0usize) == 0,
        occurrences(ordered_deck(), 1usize) == 4,
        occurrences(ordered_deck(), 2usize) == 4,
        occurrences(ordered_deck(), 3usize) == 4,
        forall|i: int| 0 <= i < 12 ==> ordered_deck()[i] <= 3,
{
    reveal_with_fuel(occurrences, 13);
}

proof fn lemma_ordered_cycle()
    ensures
        occurrences(ordered_cycle(), 1usize) == 1,
{
    reveal_with_fuel(occurrences, 22);
}

/// A deck holds four tiles each of the ranks 1, 2 and 3.
pub open spec fn deck_is_fair(deck: Seq<u16>) -> bool {
    &&& deck.len() == 12
    &&& occurrences(deck, 1u16) == 4
    &&& occurrences(deck, 2u16) == 4
    &&& occurrences(deck, 3u16) == 4
    &&& forall|i: int| 0 <= i < 12 ==> 1 <= #[trigger] deck[i] <= 3
}

/// A cycle holds one bonus tile.
pub open spec fn cycle_is_fair(cycle: Seq<bool>) -> bool {
    cycle.len() == 21 && occurrences(cycle, true) == 1
}

/// The ranks of a bonus tile: up to three in a row out of the ranks from 4 to three below the
/// highest rank on the board.
pub open spec fn bonus_window(high_rank: u16, start: u64) -> Seq<u16> {
    Seq::new(
        if high_rank >= 9 {
            3
        } else {
            (high_rank - 6) as nat
        },
        |offset: int| (4 + start + offset) as u16,
    )
}

/// Number of places at which the ranks of a bonus tile can start.
pub open spec fn window_starts(high_rank: u16) -> u64 {
    if high_rank >= 9 {
        (high_rank - 8) as u64
    } else {
        1
    }
}

impl DrawModel {
    /// Whether both positions lie in the deck and the cycle, or just behind them.
    pub open spec fn in_range(self) -> bool {
        &&& self.deck.len() == 12
        &&& self.cycle.len() == 21
        &&& 0 <= self.basic_pos <= 12
        &&& 0 <= self.bonus_pos <= 21
    }

    /// Whether the deck and the cycle hold what they should.
    pub open spec fn is_fair(self) -> bool {
        deck_is_fair(self.deck) && cycle_is_fair(self.cycle)
    }

    /// The draw with a new deck.
    pub open spec fn with_new_deck(self, dice: Dice) -> (DrawModel, Dice) {
        let order = dice.shuffled(ordered_deck());
        (DrawModel { deck: as_ranks(order.0), basic_pos: 0, ..self }, order.1)
    }

    /// The draw with a new cycle.
    pub open spec fn with_new_cycle(self, dice: Dice) -> (DrawModel, Dice) {
        let order = dice.shuffled(ordered_cycle());
        (DrawModel { cycle: as_marks(order.0), bonus_pos: 0, ..self }, order.1)
    }

    /// The draw with a new deck where the old one is used up.
    pub open spec fn with_a_basic_tile(self, dice: Dice) -> (DrawModel, Dice) {
        if self.basic_pos >= 12 {
            self.with_new_deck(dice)
        } else {
            (self, dice)
        }
    }

    /// The draw with a new cycle where the old one is used up.
    pub open spec fn with_a_cycle_place(self, dice: Dice) -> (DrawModel, Dice) {
        if self.bonus_pos >= 21 {
            self.with_new_cycle(dice)
        } else {
            (self, dice)
        }
    }

    /// The draw after a basic tile was taken, which is the one at the position in the deck.
    pub open spec fn without_a_basic_tile(self, dice: Dice) -> (DrawModel, Dice) {
        let (ready, next_dice) = self.with_a_basic_tile(dice);
        (DrawModel { basic_pos: ready.basic_pos + 1, ..ready }, next_dice)
    }

    /// The basic tile that comes next.
    pub open spec fn top_basic(self, dice: Dice) -> u16 {
        let ready = self.with_a_basic_tile(dice).0;
        ready.deck[ready.basic_pos]
    }

    /// The draw after a place in the cycle was taken.
    pub open spec fn past_a_cycle_place(self, dice: Dice) -> (DrawModel, Dice) {
        DrawModel { bonus_pos: self.bonus_pos + 1, ..self }.with_a_cycle_place(dice)
    }

    /// The next tile that a board with this highest rank gets to see, and the draw afterwards.
    pub open spec fn revealed(self, high_rank: u16, dice: Dice) -> (Preview, DrawModel, Dice) {
        if high_rank < BONUS_UNLOCK_HIGH_RANK {
            (DrawModel { pending: false, ..self }).revealed_basic(dice)
        } else {
            let (ready, next_dice) = self.with_a_cycle_place(dice);
            let pending = DrawModel { pending: true, ..ready };
            if pending.cycle[pending.bonus_pos] {
                let (start, last_dice) = next_dice.rolled(window_starts(high_rank));
                let ranks = bonus_window(high_rank, start);
                (Preview::Bonus { ranks, faces: faces_of(ranks) }, pending, last_dice)
            } else {
                pending.revealed_basic(next_dice)
            }
        }
    }

    /// The basic tile that is shown, and the draw afterwards.
    pub open spec fn revealed_basic(self, dice: Dice) -> (Preview, DrawModel, Dice) {
        let (ready, next_dice) = self.with_a_basic_tile(dice);
        let rank = self.top_basic(dice);
        (Preview::Basic { rank, face: face_of(rank as int) as u64 }, ready, next_dice)
    }

    /// The draw after the shown tile was taken.
    pub open spec fn consumed(self, shown: Preview, dice: Dice) -> (DrawModel, Dice) {
        match shown {
            Preview::Basic { .. } => {
                let (taken, next_dice) = self.without_a_basic_tile(dice);
                if taken.pending {
                    taken.past_a_cycle_place(next_dice)
                } else {
                    (taken, next_dice)
                }
            },
            Preview::Bonus { ranks, .. } => {
                let (taken, next_dice) = self.past_a_cycle_place(dice);
                (taken, next_dice.rolled(ranks.len() as u64).1)
            },
        }
    }

    /// The rank that the shown tile turns out to have: the top of the deck, or one of the ranks
    /// of the bonus tile.
    pub open spec fn consumed_rank(self, shown: Preview, dice: Dice) -> u16 {
        match shown {
            Preview::Basic { .. } => self.top_basic(dice),
            Preview::Bonus { ranks, .. } => {
                let next_dice = self.past_a_cycle_place(dice).1;
                ranks[next_dice.rolled(ranks.len() as u64).0 as int]
            },
        }
    }
}

// ---------------------------------------------------------------------------------------------
// The draw
// ---------------------------------------------------------------------------------------------

/// The state of the draw.
#[derive(Clone, Copy, Debug)]
pub struct DrawState {
    pub basic_deck: [u16; 12],
    pub basic_pos: usize,
    pub bonus_cycle: [bool; 21],
    pub bonus_pos: usize,
    pub pending_bonus_cycle_active: bool,
}

impl View for DrawState {
    type V = DrawModel;

    open spec fn view(&self) -> DrawModel {
        DrawModel {
            deck: self.basic_deck@,
            basic_pos: self.basic_pos as int,
            cycle: self.bonus_cycle@,
            bonus_pos: self.bonus_pos as int,
            pending: self.pending_bonus_cycle_active,
        }
    }
}

/// The draw before the deck and the cycle are shuffled.
pub open spec fn unshuffled() -> DrawModel {
    DrawModel {
        deck: as_ranks(ordered_deck()),
        basic_pos: 0,
        cycle: Seq::new(21, |i: int| false),
        bonus_pos: 21,
        pending: false,
    }
}

/// The draw at the start of a game: first the deck is shuffled, then the cycle.
pub open spec fn fresh_draw(dice: Dice) -> (DrawModel, Dice) {
    let (dealt, next_dice) = unshuffled().with_new_deck(dice);
    dealt.with_new_cycle(next_dice)
}

impl DrawState {
    /// The draw at the start of a game.
    pub fn new(dice: &mut Dice) -> (state: Self)
        ensures
            (state@, *final(dice)) == fresh_draw(*old(dice)),
            state@.in_range(),
            state@.is_fair(),
            state@.basic_pos == 0,
            state@.bonus_pos == 0,
            !state@.pending,
    {
        let mut state = DrawState {
            basic_deck: [1, 1, 1, 1, 2, 2, 2, 2, 3, 3, 3, 3],
            basic_pos: 0,
            bonus_cycle: [false; 21],
            bonus_pos: BONUS_CYCLE_SIZE,
            pending_bonus_cycle_active: false,
        };
        assert(state@ =~= unshuffled());
        state.shuffle_basic(dice);
        state.shuffle_bonus_cycle(dice);
        state
    }

    /// Takes a basic tile.
    pub fn draw_basic(&mut self, dice: &mut Dice) -> (rank: u16)
        requires
            old(self)@.in_range(),
        ensures
            (final(self)@, *final(dice)) == old(self)@.without_a_basic_tile(*old(dice)),
            rank == old(self)@.top_basic(*old(dice)),
            final(self)@.in_range(),
            final(self)@.deck == old(self)@.deck || deck_is_fair(final(self)@.deck),
            1 <= final(self)@.basic_pos && rank == final(self)@.deck[final(self)@.basic_pos - 1],
            old(self)@.is_fair() ==> final(self)@.is_fair() && 1 <= rank <= 3,
    {
        self.ensure_basic_available(dice);
        let rank: u16 = self.basic_deck[self.basic_pos];
        self.basic_pos = self.basic_pos + 1;
        rank
    }

    /// Looks at the basic tile that comes next.
    pub fn peek_basic(&mut self, dice: &mut Dice) -> (rank: u16)
        requires
            old(self)@.in_range(),
        ensures
            (final(self)@, *final(dice)) == old(self)@.with_a_basic_tile(*old(dice)),
            rank == old(self)@.top_basic(*old(dice)),
            final(self)@.in_range(),
            final(self)@.deck == old(self)@.deck || deck_is_fair(final(self)@.deck),
            final(self)@.basic_pos < 12,
            rank == final(self)@.deck[final(self)@.basic_pos],
            old(self)@.is_fair() ==> final(self)@.is_fair() && 1 <= rank <= 3,
    {
        self.ensure_basic_available(dice);
        self.basic_deck[self.basic_pos]
    }

    /// Reveals the next tile: a bonus tile where the board has unlocked them and the place in
    /// the cycle has one, else the basic tile on top of the deck.
    pub fn next_tile(&mut self, board: &Board, dice: &mut Dice) -> (next: NextTile)
        requires
            old(self)@.in_range(),
        ensures
            (next@, final(self)@, *final(dice)) == old(self)@.revealed(highest(board@), *old(dice)),
            final(self)@.in_range(),
            final(self)@.deck == old(self)@.deck || deck_is_fair(final(self)@.deck),
            next@.is_coherent(),
            next@ is Bonus ==> is_bonus_window(next@.ranks(), highest(board@)),
            next@ is Bonus <==> (highest(board@) >= 7
                && final(self)@.cycle[final(self)@.bonus_pos]),
            next@ is Basic ==> final(self)@.basic_pos < 12 && next@->rank
                == final(self)@.deck[final(self)@.basic_pos],
            final(self)@.pending == (highest(board@) >= 7),
            final(self)@.pending ==> final(self)@.bonus_pos < 21,
            old(self)@.bonus_pos < 21 ==> final(self)@.bonus_pos == old(self)@.bonus_pos
                && final(self)@.cycle == old(self)@.cycle,
            old(self)@.is_fair() ==> final(self)@.is_fair() && forall|i: int|
                0 <= i < next@.ranks().len() ==> 1 <= #[trigger] next@.ranks()[i]
                    && (next@.ranks()[i] <= 3 || next@.ranks()[i] <= highest(board@) - 3),
    {
        if let Some(ranks) = self.next_bonus_window(board, dice) {
            let mut faces: Vec<u64> = Vec::new();
            let mut i: usize = 0;
            while i < ranks.len()
                invariant
                    i <= ranks@.len(),
                    faces@.len() == i,
                    forall|j: int| 0 <= j < i ==> faces@[j] == face_of(ranks@[j] as int) as u64,
                decreases ranks@.len() - i,
            {
                faces.push(rank_to_face(ranks[i]));
                i = i + 1;
            }
            assert(faces@ =~= faces_of(ranks@));
            NextTile::Bonus { ranks, faces }
        } else {
            let rank: u16 = self.peek_basic(dice);
            let face: u64 = rank_to_face(rank);
            assert(seq![face] =~= faces_of(seq![rank]));
            NextTile::Basic { rank, face }
        }
    }

    /// Takes the shown tile and tells the rank it turns out to have.
    pub fn consume_next(&mut self, next: &NextTile, dice: &mut Dice) -> (rank: u16)
        requires
            old(self)@.in_range(),
            next@.ranks().len() > 0,
        ensures
            (final(self)@, *final(dice)) == old(self)@.consumed(next@, *old(dice)),
            rank == old(self)@.consumed_rank(next@, *old(dice)),
            final(self)@.in_range(),
            final(self)@.deck == old(self)@.deck || deck_is_fair(final(self)@.deck),
            next@ is Basic ==> 1 <= final(self)@.basic_pos && rank
                == final(self)@.deck[final(self)@.basic_pos - 1],
            next@ is Bonus ==> next@.ranks().contains(rank),
            old(self)@.is_fair() ==> final(self)@.is_fair(),
            old(self)@.is_fair() && next@ is Basic ==> 1 <= rank <= 3,
            old(self)@.pending && old(self)@.bonus_pos < 20 ==> final(self)@.cycle
                == old(self)@.cycle,
    {
        match next {
            NextTile::Basic { .. } => {
                let drawn: u16 = self.draw_basic(dice);
                if self.pending_bonus_cycle_active {
                    self.advance_bonus_cycle(dice);
                }
                drawn
            },
            NextTile::Bonus { ranks, .. } => {
                self.advance_bonus_cycle(dice);
                let choice: usize = dice.roll(ranks.len() as u64) as usize;
                assert(ranks@.contains(ranks@[choice as int]));
                ranks[choice]
            },
        }
    }

    /// Takes the shown tile where its rank is given from elsewhere. The dice are rolled as if it
    /// was not.
    pub fn consume_known_rank(&mut self, next: &NextTile, dice: &mut Dice)
        requires
            old(self)@.in_range(),
            next@.ranks().len() > 0,
        ensures
            (final(self)@, *final(dice)) == old(self)@.consumed(next@, *old(dice)),
            final(self)@.in_range(),
            final(self)@.deck == old(self)@.deck || deck_is_fair(final(self)@.deck),
            old(self)@.is_fair() ==> final(self)@.is_fair(),
    {
        self.consume_next(next, dice);
    }

    /// The ranks of the bonus tile, where the next tile is one.
    pub fn next_bonus_window(&mut self, board: &Board, dice: &mut Dice) -> (window: Option<
        Vec<u16>,
    >)
        requires
            old(self)@.in_range(),
        ensures
            highest(board@) < 7 ==> window is None && final(self)@ == (DrawModel {
                pending: false,
                ..old(self)@
            }) && *final(dice) == *old(dice),
            highest(board@) >= 7 ==> ({
                let (ready, next_dice) = old(self)@.with_a_cycle_place(*old(dice));
                &&& final(self)@ == DrawModel { pending: true, ..ready }
                &&& window is Some <==> ready.cycle[ready.bonus_pos]
                &&& window is None ==> *final(dice) == next_dice
                &&& window is Some ==> ({
                    let (start, last_dice) = next_dice.rolled(window_starts(highest(board@)));
                    &&& window->Some_0@ == bonus_window(highest(board@), start)
                    &&& *final(dice) == last_dice
                })
            }),
            window is Some ==> is_bonus_window(window->Some_0@, highest(board@)),
            final(self)@.in_range(),
            final(self)@.deck == old(self)@.deck,
            final(self)@.pending ==> final(self)@.bonus_pos < 21,
            old(self)@.is_fair() ==> final(self)@.is_fair(),
    {
        let high_rank: u16 = board.high_rank();
        if high_rank < BONUS_UNLOCK_HIGH_RANK {
            self.pending_bonus_cycle_active = false;
            return None;
        }
        self.ensure_bonus_cycle_available(dice);
        self.pending_bonus_cycle_active = true;
        if !self.bonus_cycle[self.bonus_pos] {
            return None;
        }
        let max_rank: u16 = high_rank - 3;
        let eligible_count: usize = (max_rank - BONUS_LOWEST_RANK + 1) as usize;
        let window_len: usize = if eligible_count < 3 {
            eligible_count
        } else {
            3
        };
        let max_start: usize = eligible_count - window_len;
        let start: u64 = dice.roll(max_start as u64 + 1);
        let mut ranks: Vec<u16> = Vec::new();
        let mut offset: usize = 0;
        while offset < window_len
            invariant
                offset <= window_len <= 3,
                start + window_len + 3 <= high_rank - 3,
                ranks@.len() == offset,
                forall|j: int| 0 <= j < offset ==> ranks@[j] == 4 + start + j,
            decreases window_len - offset,
        {
            ranks.push(BONUS_LOWEST_RANK + start as u16 + offset as u16);
            offset = offset + 1;
        }
        assert(ranks@ =~= bonus_window(high_rank, start));
        Some(ranks)
    }

    fn ensure_basic_available(&mut self, dice: &mut Dice)
        requires
            old(self)@.in_range(),
        ensures
            (final(self)@, *final(dice)) == old(self)@.with_a_basic_tile(*old(dice)),
            final(self)@.in_range(),
            final(self)@.deck == old(self)@.deck || deck_is_fair(final(self)@.deck),
            final(self)@.basic_pos < 12,
            old(self)@.is_fair() ==> final(self)@.is_fair(),
    {
        if self.basic_pos >= BASIC_DECK_SIZE {
            self.shuffle_basic(dice);
        }
    }

    fn ensure_bonus_cycle_available(&mut self, dice: &mut Dice)
        requires
            old(self)@.in_range(),
        ensures
            (final(self)@, *final(dice)) == old(self)@.with_a_cycle_place(*old(dice)),
            final(self)@.in_range(),
            final(self)@.deck == old(self)@.deck,
            final(self)@.bonus_pos < 21,
            old(self)@.is_fair() ==> final(self)@.is_fair(),
    {
        if self.bonus_pos >= BONUS_CYCLE_SIZE {
            self.shuffle_bonus_cycle(dice);
        }
    }

    fn advance_bonus_cycle(&mut self, dice: &mut Dice)
        requires
            old(self)@.in_range(),
        ensures
            (final(self)@, *final(dice)) == old(self)@.past_a_cycle_place(*old(dice)),
            final(self)@.in_range(),
            final(self)@.deck == old(self)@.deck,
            final(self)@.basic_pos == old(self)@.basic_pos,
            final(self)@.bonus_pos < 21,
            old(self)@.is_fair() ==> final(self)@.is_fair(),
    {
        self.bonus_pos = self.bonus_pos + 1;
        if self.bonus_pos >= BONUS_CYCLE_SIZE {
            self.shuffle_bonus_cycle(dice);
        }
    }

    fn shuffle_basic(&mut self, dice: &mut Dice)
        ensures
            (final(self)@, *final(dice)) == old(self)@.with_new_deck(*old(dice)),
            deck_is_fair(final(self)@.deck),
            final(self)@.cycle == old(self)@.cycle,
    {
        let items: Vec<usize> = vec![1, 1, 1, 1, 2, 2, 2, 2, 3, 3, 3, 3];
        assert(items@ =~= ordered_deck());
        let order: Vec<usize> = dice.shuffle(items);
        proof {
            lemma_ordered_deck();
            lemma_shuffle_keeps_occurrences(ordered_deck(), order@, 1);
            lemma_shuffle_keeps_occurrences(ordered_deck(), order@, 2);
            lemma_shuffle_keeps_occurrences(ordered_deck(), order@, 3);
            lemma_shuffle_keeps_occurrences(ordered_deck(), order@, 0);
            lemma_shuffle_keeps_a_bound(ordered_deck(), order@, 3);
        }
        let mut deck: [u16; 12] = [0; 12];
        let mut i: usize = 0;
        while i < BASIC_DECK_SIZE
            invariant
                i <= 12,
                order@.len() == 12,
                forall|j: int| 0 <= j < i ==> deck@[j] == order@[j] as u16,
            decreases 12 - i,
        {
            deck[i] = order[i] as u16;
            i = i + 1;
        }
        proof {
            assert(deck@ =~= as_ranks(order@));
            lemma_ranks_keep_occurrences(order@, 1);
            lemma_ranks_keep_occurrences(order@, 2);
            lemma_ranks_keep_occurrences(order@, 3);
            assert(occurrences(order@, 0usize) == 0);
            lemma_few_occurrences(order@, 0usize);
        }
        self.basic_deck = deck;
        self.basic_pos = 0;
    }

    fn shuffle_bonus_cycle(&mut self, dice: &mut Dice)
        ensures
            (final(self)@, *final(dice)) == old(self)@.with_new_cycle(*old(dice)),
            cycle_is_fair(final(self)@.cycle),
            final(self)@.deck == old(self)@.deck,
    {
        let mut items: Vec<usize> = vec![1];
        let mut k: usize = 1;
        while k < BONUS_CYCLE_SIZE
            invariant
                1 <= k <= 21,
                items@.len() == k,
                items@[0] == 1,
                forall|j: int| 1 <= j < k ==> items@[j] == 0,
            decreases 21 - k,
        {
            items.push(0);
            k = k + 1;
        }
        assert(items@ =~= ordered_cycle());
        let order: Vec<usize> = dice.shuffle(items);
        proof {
            lemma_ordered_cycle();
            lemma_shuffle_keeps_occurrences(ordered_cycle(), order@, 1);
        }
        let mut cycle: [bool; 21] = [false; 21];
        let mut i: usize = 0;
        while i < BONUS_CYCLE_SIZE
            invariant
                i <= 21,
                order@.len() == 21,
                forall|j: int| 0 <= j < i ==> cycle@[j] == (order@[j] == 1),
            decreases 21 - i,
        {
            cycle[i] = order[i] == 1;
            i = i + 1;
        }
        proof {
            assert(cycle@ =~= as_marks(order@));
            lemma_marks_keep_occurrences(order@);
        }
        self.bonus_cycle = cycle;
        self.bonus_pos = 0;
    }
}

/// Whether these are the ranks of a bonus tile: three in a row, from 4 up to three below the
/// highest rank on the board; fewer than three only where there are no more.
pub open spec fn is_bonus_window(ranks: Seq<u16>, high_rank: u16) -> bool {
    &&& high_rank >= 7
    &&& high_rank - 6 <= 3 ==> ranks.len() == high_rank - 6
    &&& high_rank - 6 > 3 ==> ranks.len() == 3
    &&& ranks[0] >= 4
    &&& ranks.last() <= high_rank - 3
    &&& forall|i: int| 0 <= i < ranks.len() ==> #[trigger] ranks[i] == ranks[0] + i
}

/// A fair cycle has its bonus tile at exactly one place.
pub proof fn one_bonus_place_per_cycle(cycle: Seq<bool>)
    requires
        cycle_is_fair(cycle),
    ensures
        exists|p: int|
            0 <= p < 21 && #[trigger] cycle[p] && forall|q: int| 0 <= q < 21 && cycle[q] ==> q == p,
{
    lemma_few_occurrences(cycle, true);
    let p = choose|p: int|
        0 <= p < cycle.len() && #[trigger] cycle[p] == true && forall|q: int|
            0 <= q < cycle.len() && cycle[q] == true ==> q == p;
    assert(cycle[p]);
}

/// On a board with a highest rank of at least 7, where the cycle marks the place, a bonus tile is
/// shown. As many sets of ranks can be shown as fit between 4 and three below the highest rank, and
/// the dice pick one of them: a roll of `n` makes `4 + n` the lowest rank, and the others follow
/// it. So every set comes with some roll.
pub proof fn the_dice_pick_the_bonus_ranks(draw: DrawModel, high_rank: u16, dice: Dice)
    requires
        draw.in_range(),
        draw.bonus_pos < 21,
        high_rank >= 7,
        draw.cycle[draw.bonus_pos],
    ensures
        ({
            let eligible = high_rank - 6;
            let shown: int = if eligible < 3 {
                eligible
            } else {
                3
            };
            let (roll, last_dice) = dice.rolled((eligible - shown + 1) as u64);
            let (next, after, next_dice) = draw.revealed(high_rank, dice);
            &&& next is Bonus
            &&& next.ranks().len() == shown
            &&& roll < eligible - shown + 1 ==> forall|i: int|
                0 <= i < shown ==> #[trigger] next.ranks()[i] == 4 + roll + i
            &&& next->faces == faces_of(next.ranks())
            &&& next_dice == last_dice
            &&& after == DrawModel { pending: true, ..draw }
        }),
{
}

/// Where the cycle does not mark the place, or the highest rank is below 7, the tile on top of the
/// deck is shown and stays there; the cycle runs from rank 7 on.
pub proof fn the_top_of_the_deck_is_shown(draw: DrawModel, high_rank: u16, dice: Dice)
    requires
        draw.in_range(),
        draw.basic_pos < 12,
        draw.bonus_pos < 21,
        high_rank < 7 || !draw.cycle[draw.bonus_pos],
    ensures
        ({
            let (next, after, next_dice) = draw.revealed(high_rank, dice);
            &&& next is Basic
            &&& next->rank == draw.deck[draw.basic_pos]
            &&& next->face as int == face_of(draw.deck[draw.basic_pos] as int)
            &&& next_dice == dice
            &&& after == DrawModel { pending: high_rank >= 7, ..draw }
        }),
{
    crate::board::every_face_fits(draw.deck[draw.basic_pos] as int);
}

/// A basic tile is taken from the top of the deck, and the one below it is on top then. Where the
/// deck is used up, four tiles each of the ranks 1, 2 and 3 are shuffled anew first.
pub proof fn basic_tiles_are_taken_in_the_order_of_the_deck(draw: DrawModel, dice: Dice)
    requires
        draw.in_range(),
    ensures
        ({
            let (after, next_dice) = draw.without_a_basic_tile(dice);
            let order = dice.shuffled(seq![1usize, 1, 1, 1, 2, 2, 2, 2, 3, 3, 3, 3]);
            &&& draw.basic_pos < 12 ==> draw.top_basic(dice) == draw.deck[draw.basic_pos]
                && next_dice == dice && after == DrawModel {
                basic_pos: draw.basic_pos + 1,
                ..draw
            }
            &&& draw.basic_pos == 12 ==> next_dice == order.1 && after == DrawModel {
                deck: Seq::new(order.0.len(), |i: int| order.0[i] as u16),
                basic_pos: 1,
                ..draw
            } && (order.0.len() > 0 ==> draw.top_basic(dice) == order.0[0] as u16)
        }),
{
    let order = dice.shuffled(seq![1usize, 1, 1, 1, 2, 2, 2, 2, 3, 3, 3, 3]);
    assert(as_ranks(order.0) =~= Seq::new(order.0.len(), |i: int| order.0[i] as u16));
}

/// A bonus tile comes with one of its ranks: the one whose place the dice roll, among as many
/// places as it has ranks. It is not taken from the deck, and the cycle moves on by one place.
pub proof fn the_dice_pick_the_rank_of_a_bonus_tile(draw: DrawModel, shown: Preview, dice: Dice)
    requires
        draw.in_range(),
        shown is Bonus,
        draw.bonus_pos < 20,
    ensures
        ({
            let (roll, last_dice) = dice.rolled(shown.ranks().len() as u64);
            let (after, next_dice) = draw.consumed(shown, dice);
            &&& draw.consumed_rank(shown, dice) == shown.ranks()[roll as int]
            &&& next_dice == last_dice
            &&& after == DrawModel { bonus_pos: draw.bonus_pos + 1, ..draw }
        }),
{
}

/// A basic tile that is used is the one on top of the deck. The cycle moves on with it while it
/// runs, and stands still as long as bonus tiles are locked.
pub proof fn a_used_basic_tile_leaves_the_deck(draw: DrawModel, shown: Preview, dice: Dice)
    requires
        draw.in_range(),
        shown is Basic,
        draw.basic_pos < 12,
        draw.bonus_pos < 20,
    ensures
        ({
            let (after, next_dice) = draw.consumed(shown, dice);
            &&& draw.consumed_rank(shown, dice) == draw.deck[draw.basic_pos]
            &&& next_dice == dice
            &&& after.deck == draw.deck && after.basic_pos == draw.basic_pos + 1
            &&& after.cycle == draw.cycle && after.pending == draw.pending
            &&& draw.pending ==> after.bonus_pos == draw.bonus_pos + 1
            &&& !draw.pending ==> after.bonus_pos == draw.bonus_pos
        }),
{
}

/// Behind the last of its 21 places the cycle is shuffled anew, with one bonus tile among 21, and
/// starts at its first place.
pub proof fn a_used_up_cycle_is_shuffled_anew(draw: DrawModel, shown: Preview, dice: Dice)
    requires
        draw.in_range(),
        draw.basic_pos < 12,
        draw.bonus_pos == 20,
        draw.pending || shown is Bonus,
    ensures
        ({
            let order = dice.shuffled(
                Seq::new(
                    21,
                    |i: int|
                        if i == 0 {
                            1usize
                        } else {
                            0usize
                        },
                ),
            );
            let after = draw.consumed(shown, dice).0;
            &&& after.bonus_pos == 0
            &&& after.cycle.len() == order.0.len()
            &&& forall|i: int|
                0 <= i < order.0.len() ==> #[trigger] after.cycle[i] == (order.0[i] == 1)
            &&& after.pending == draw.pending
        }),
{
    let once = Seq::new(
        21,
        |i: int|
            if i == 0 {
                1usize
            } else {
                0usize
            },
    );
    assert(once =~= ordered_cycle());
}

/// A game starts with a whole deck and a whole cycle: the dice shuffle the deck first, then the
/// cycle, and nothing of either is used.
pub proof fn a_draw_starts_with_a_whole_deck_and_cycle(dice: Dice)
    ensures
        ({
            let (start, last_dice) = fresh_draw(dice);
            let deck = dice.shuffled(seq![1usize, 1, 1, 1, 2, 2, 2, 2, 3, 3, 3, 3]);
            let cycle = deck.1.shuffled(ordered_cycle());
            &&& start.deck.len() == deck.0.len()
            &&& forall|i: int|
                0 <= i < deck.0.len() ==> #[trigger] start.deck[i] == deck.0[i] as u16
            &&& start.cycle.len() == cycle.0.len()
            &&& forall|i: int|
                0 <= i < cycle.0.len() ==> #[trigger] start.cycle[i] == (cycle.0[i] == 1)
            &&& start.basic_pos == 0 && start.bonus_pos == 0 && !start.pending
            &&& last_dice == cycle.1
        }),
{
}

} // verus!
