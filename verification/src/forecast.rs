//! The bonus forecast: what the tiles seen so far tell about the bonus tiles to come.

use crate::probability::{always, never, one_in, Probability};
use crate::tile::{NextTile, Preview};
use vstd::prelude::*;

verus! {

/// Number of tiles in a bonus cycle, one of which is a bonus tile.
pub const BONUS_CYCLE_SIZE: usize = 21;

/// The high rank from which on bonus tiles come; its face is 48.
pub const BONUS_UNLOCK_HIGH_RANK: u16 = 7;

/// How far ahead the game looks in the forecasts it reports.
pub const DEFAULT_BONUS_FORECAST_HORIZON: u8 = 8;

/// How likely the tile after some accepted moves is a bonus tile.
#[derive(Clone, Copy, Debug, PartialEq, Eq, Structural)]
pub struct BonusForecastSlot {
    pub accepted_moves_from_now: u8,
    pub probability: Probability,
}

/// A forecast of the coming bonus tiles.
#[derive(Debug, PartialEq)]
pub struct BonusForecast {
    pub unlocked: bool,
    pub cycle_position: Option<u8>,
    pub bonus_seen_this_cycle: bool,
    pub slots: Vec<BonusForecastSlot>,
}

/// What a forecast says.
pub struct ForecastModel {
    pub unlocked: bool,
    pub cycle_position: Option<u8>,
    pub bonus_seen_this_cycle: bool,
    pub slots: Seq<BonusForecastSlot>,
}

impl View for BonusForecast {
    type V = ForecastModel;

    open spec fn view(&self) -> ForecastModel {
        ForecastModel {
            unlocked: self.unlocked,
            cycle_position: self.cycle_position,
            bonus_seen_this_cycle: self.bonus_seen_this_cycle,
            slots: self.slots@,
        }
    }
}

impl Clone for BonusForecast {
    fn clone(&self) -> (copy: Self)
        ensures
            copy@ == self@,
    {
        let slots = self.slots.clone();
        assert(slots@ =~= self.slots@);
        BonusForecast {
            unlocked: self.unlocked,
            cycle_position: self.cycle_position,
            bonus_seen_this_cycle: self.bonus_seen_this_cycle,
            slots,
        }
    }
}

/// What the player knows of the running bonus cycle: the position in it, and where the bonus
/// tile was seen.
#[derive(Clone, Copy, Debug, PartialEq, Eq, Structural)]
pub struct BonusTracker {
    pub active: bool,
    pub current_offset: u8,
    pub seen_bonus_offset: Option<u8>,
}

impl Default for BonusTracker {
    fn default() -> (tracker: Self)
        ensures
            tracker == BonusTracker::locked(),
    {
        BonusTracker { active: false, current_offset: 0, seen_bonus_offset: None }
    }
}

impl BonusTracker {
    /// The tracker before bonus tiles are unlocked.
    pub open spec fn locked() -> Self {
        BonusTracker { active: false, current_offset: 0, seen_bonus_offset: None }
    }

    /// The tracker after a next tile was revealed.
    pub open spec fn observed(self, high_rank: u16, next: Preview) -> Self {
        if high_rank < BONUS_UNLOCK_HIGH_RANK {
            BonusTracker::locked()
        } else {
            let offset: u8 = if self.active {
                self.current_offset
            } else {
                0
            };
            BonusTracker {
                active: true,
                current_offset: offset,
                seen_bonus_offset: if next is Bonus {
                    Some(offset)
                } else if self.active {
                    self.seen_bonus_offset
                } else {
                    None
                },
            }
        }
    }

    /// The tracker after the shown tile was used.
    pub open spec fn advanced(self) -> Self {
        if !self.active {
            self
        } else if self.current_offset + 1 >= BONUS_CYCLE_SIZE {
            BonusTracker { active: true, current_offset: 0, seen_bonus_offset: None }
        } else {
            BonusTracker { current_offset: (self.current_offset + 1) as u8, ..self }
        }
    }

    /// How likely the tile after some accepted moves is a bonus tile: 1 in 21 in a later cycle;
    /// in this cycle certain or impossible once its bonus tile was seen, else spread evenly over
    /// the tiles that were not seen yet.
    pub open spec fn chance(self, ahead: u8) -> Probability {
        if !self.active {
            never()
        } else if self.current_offset + ahead >= BONUS_CYCLE_SIZE {
            one_in(21)
        } else if let Some(seen) = self.seen_bonus_offset {
            if seen == self.current_offset + ahead {
                always()
            } else {
                never()
            }
        } else if ahead == 0 {
            never()
        } else {
            one_in((20 - self.current_offset) as u64)
        }
    }

    /// The forecast up to a horizon.
    pub open spec fn forecasted(self, horizon: u8) -> ForecastModel {
        ForecastModel {
            unlocked: self.active,
            cycle_position: if self.active {
                Some(self.current_offset)
            } else {
                None
            },
            bonus_seen_this_cycle: self.active && self.seen_bonus_offset is Some,
            slots: Seq::new(
                horizon as nat + 1,
                |i: int|
                    BonusForecastSlot {
                        accepted_moves_from_now: i as u8,
                        probability: self.chance(i as u8),
                    },
            ),
        }
    }

    /// The tracker as three numbers.
    pub open spec fn digest(self) -> Seq<u8> {
        seq![
            if self.active {
                1u8
            } else {
                0u8
            },
            self.current_offset,
            match self.seen_bonus_offset {
                Some(seen) => seen,
                None => u8::MAX,
            },
        ]
    }

    /// Takes note of a next tile that was revealed.
    pub fn observe_revealed_next(&mut self, high_rank: u16, next_tile: &NextTile)
        ensures
            *final(self) == old(self).observed(high_rank, next_tile@),
    {
        if high_rank < BONUS_UNLOCK_HIGH_RANK {
            *self = BonusTracker::default();
            return;
        }
        if !self.active {
            self.active = true;
            self.current_offset = 0;
            self.seen_bonus_offset = None;
        }
        if let NextTile::Bonus { .. } = next_tile {
            self.seen_bonus_offset = Some(self.current_offset);
        }
    }

    /// Takes note that the shown tile was used.
    pub fn advance_after_consuming_current(&mut self)
        requires
            old(self).active ==> old(self).current_offset < u8::MAX,
        ensures
            *final(self) == old(self).advanced(),
    {
        if !self.active {
            return;
        }
        self.current_offset = self.current_offset + 1;
        if self.current_offset as usize >= BONUS_CYCLE_SIZE {
            self.current_offset = 0;
            self.seen_bonus_offset = None;
        }
    }

    /// The forecast up to a horizon.
    pub fn forecast(&self, horizon: u8) -> (forecast: BonusForecast)
        ensures
            forecast@ == self.forecasted(horizon),
    {
        let mut slots: Vec<BonusForecastSlot> = Vec::new();
        let mut ahead: u8 = 0;
        while ahead < horizon
            invariant
                ahead <= horizon,
                slots@.len() == ahead,
                forall|i: int|
                    0 <= i < ahead ==> slots@[i] == (BonusForecastSlot {
                        accepted_moves_from_now: i as u8,
                        probability: self.chance(i as u8),
                    }),
            decreases horizon - ahead,
        {
            slots.push(
                BonusForecastSlot {
                    accepted_moves_from_now: ahead,
                    probability: self.probability_at(ahead),
                },
            );
            ahead = ahead + 1;
        }
        slots.push(
            BonusForecastSlot {
                accepted_moves_from_now: horizon,
                probability: self.probability_at(horizon),
            },
        );
        assert(slots@ =~= self.forecasted(horizon).slots);
        if !self.active {
            BonusForecast {
                unlocked: false,
                cycle_position: None,
                bonus_seen_this_cycle: false,
                slots,
            }
        } else {
            BonusForecast {
                unlocked: true,
                cycle_position: Some(self.current_offset),
                bonus_seen_this_cycle: self.seen_bonus_offset.is_some(),
                slots,
            }
        }
    }

    /// How likely the tile after some accepted moves is a bonus tile.
    pub fn probability_at(&self, accepted_moves_from_now: u8) -> (probability: Probability)
        ensures
            probability == self.chance(accepted_moves_from_now),
    {
        if !self.active {
            return Probability::zero();
        }
        let absolute_offset: usize = self.current_offset as usize
            + accepted_moves_from_now as usize;
        if absolute_offset >= BONUS_CYCLE_SIZE {
            return Probability::one_out_of(BONUS_CYCLE_SIZE as u64);
        }
        if let Some(seen) = self.seen_bonus_offset {
            if seen as usize == absolute_offset {
                return Probability::one();
            }
            return Probability::zero();
        }
        if accepted_moves_from_now == 0 {
            return Probability::zero();
        }
        let remaining_unseen: usize = BONUS_CYCLE_SIZE - self.current_offset as usize - 1;
        Probability::one_out_of(remaining_unseen as u64)
    }

    /// The tracker as three numbers: whether it is active, the position, and where the bonus
    /// tile was seen (255 where it was not).
    pub fn signature(&self) -> (digest: [u8; 3])
        ensures
            digest@ == self.digest(),
    {
        let active: u8 = if self.active {
            1
        } else {
            0
        };
        let seen: u8 = match self.seen_bonus_offset {
            Some(offset) => offset,
            None => u8::MAX,
        };
        let digest: [u8; 3] = [active, self.current_offset, seen];
        assert(digest@ =~= self.digest());
        digest
    }
}

/// The sum of the numerators of the chances of the next tiles, the shown one included.
pub open spec fn summed_numerators(tracker: BonusTracker, tiles: int) -> int
    decreases tiles,
{
    if tiles <= 0 {
        0
    } else {
        summed_numerators(tracker, tiles - 1) + tracker.chance((tiles - 1) as u8).numerator
    }
}

/// Over the rest of a cycle in which no bonus tile was seen yet, the chances add up to one: each
/// tile still to come in it has the same chance, and the numerators add up to the common
/// denominator.
pub proof fn unseen_chances_add_up_to_one(tracker: BonusTracker)
    requires
        tracker.active,
        tracker.seen_bonus_offset is None,
        tracker.current_offset < 20,
    ensures
        tracker.chance(0) == never(),
        forall|ahead: u8|
            1 <= ahead <= 20 - tracker.current_offset ==> (#[trigger] tracker.chance(
                ahead,
            )).denominator == 20 - tracker.current_offset,
        summed_numerators(tracker, 21 - tracker.current_offset) == 20 - tracker.current_offset,
{
    lemma_summed_numerators(tracker, 21 - tracker.current_offset);
}

proof fn lemma_summed_numerators(tracker: BonusTracker, tiles: int)
    requires
        tracker.active,
        tracker.seen_bonus_offset is None,
        1 <= tiles <= 21 - tracker.current_offset,
    ensures
        summed_numerators(tracker, tiles) == tiles - 1,
    decreases tiles,
{
    reveal_with_fuel(summed_numerators, 2);
    if tiles > 1 {
        lemma_summed_numerators(tracker, tiles - 1);
    }
}

/// What lies beyond the running cycle is one in 21 whatever was seen in the running one, and as
/// long as bonus tiles are locked nothing is forecast.
pub proof fn a_later_cycle_is_open(tracker: BonusTracker, ahead: u8)
    ensures
        tracker.active && tracker.current_offset + ahead >= 21 ==> tracker.chance(ahead).numerator
            == 1 && tracker.chance(ahead).denominator == 21,
        !tracker.active ==> tracker.chance(ahead).numerator == 0 && tracker.chance(
            ahead,
        ).denominator == 1,
{
}

/// While the bonus tile of the running cycle was not seen, the shown tile is none, and each of the
/// tiles that the cycle has left behind it has the same chance.
pub proof fn an_unseen_bonus_may_be_any_tile_left(tracker: BonusTracker, ahead: u8)
    requires
        tracker.active,
        tracker.seen_bonus_offset is None,
        tracker.current_offset + ahead < 21,
    ensures
        ahead == 0 ==> tracker.chance(ahead).numerator == 0,
        ahead > 0 ==> tracker.chance(ahead).numerator == 1 && tracker.chance(ahead).denominator
            == 20 - tracker.current_offset,
{
}

/// A forecast has one entry for the shown tile and one for each move up to the horizon, each with
/// its own chance, and tells the place in the cycle and whether its bonus tile was seen.
pub proof fn a_forecast_lists_every_move(tracker: BonusTracker, horizon: u8, ahead: u8)
    requires
        ahead <= horizon,
    ensures
        ({
            let forecast = tracker.forecasted(horizon);
            &&& forecast.slots.len() == horizon + 1
            &&& forecast.slots[ahead as int].accepted_moves_from_now == ahead
            &&& forecast.slots[ahead as int].probability == tracker.chance(ahead)
            &&& forecast.unlocked == tracker.active
            &&& tracker.active ==> forecast.cycle_position == Some(tracker.current_offset)
            &&& !tracker.active ==> forecast.cycle_position is None
                && !forecast.bonus_seen_this_cycle
            &&& tracker.active ==> forecast.bonus_seen_this_cycle == (tracker.seen_bonus_offset
                is Some)
        }),
{
}

/// Using a tile brings the forecast one tile nearer: within the running cycle what was forecast
/// for the tile after next is now forecast for the next one once a bonus tile was seen; behind the
/// last place of the cycle a new one begins, of which nothing is known.
pub proof fn using_a_tile_brings_the_forecast_nearer(tracker: BonusTracker, ahead: u8)
    requires
        tracker.active,
        tracker.current_offset < 21,
        ahead < u8::MAX,
    ensures
        tracker.advanced().active,
        tracker.current_offset < 20 ==> tracker.advanced().current_offset == tracker.current_offset
            + 1 && tracker.advanced().seen_bonus_offset == tracker.seen_bonus_offset,
        tracker.current_offset == 20 ==> tracker.advanced().current_offset == 0
            && tracker.advanced().seen_bonus_offset is None,
        tracker.current_offset < 20 && tracker.seen_bonus_offset is Some
            ==> tracker.advanced().chance(ahead) == tracker.chance((ahead + 1) as u8),
{
}

/// Below rank 7 bonus tiles are locked and nothing is remembered. From rank 7 on the cycle runs; a
/// bonus tile that is shown is remembered at the place where the cycle stands, any other tile
/// changes nothing, and a cycle that has just been unlocked starts at its first place.
pub proof fn a_shown_tile_is_remembered(tracker: BonusTracker, high_rank: u16, next: Preview)
    ensures
        ({
            let after = tracker.observed(high_rank, next);
            &&& high_rank < 7 ==> !after.active && after.current_offset == 0
                && after.seen_bonus_offset is None
            &&& high_rank >= 7 ==> after.active
            &&& high_rank >= 7 && next is Bonus ==> after.seen_bonus_offset == Some(
                after.current_offset,
            )
            &&& high_rank >= 7 && next is Basic && tracker.active ==> after == tracker
            &&& high_rank >= 7 && tracker.active ==> after.current_offset == tracker.current_offset
            &&& high_rank >= 7 && !tracker.active ==> after.current_offset == 0
            &&& high_rank >= 7 && !tracker.active && next is Basic ==> after.seen_bonus_offset
                is None
        }),
{
}

/// The three numbers tell trackers apart.
pub proof fn three_numbers_tell_trackers_apart(a: BonusTracker, b: BonusTracker)
    requires
        a.digest() == b.digest(),
        a.seen_bonus_offset is Some ==> a.seen_bonus_offset->Some_0 < u8::MAX,
        b.seen_bonus_offset is Some ==> b.seen_bonus_offset->Some_0 < u8::MAX,
    ensures
        a == b,
{
    assert(a.digest()[0] == b.digest()[0]);
    assert(a.digest()[1] == b.digest()[1]);
    assert(a.digest()[2] == b.digest()[2]);
}

/// The three numbers are whether a bonus tile can come, the place in the cycle, and the place at
/// which a bonus tile was seen.
pub proof fn three_numbers_spell_a_tracker_out(tracker: BonusTracker)
    ensures
        tracker.digest().len() == 3,
        tracker.active ==> tracker.digest()[0] == 1,
        !tracker.active ==> tracker.digest()[0] == 0,
        tracker.digest()[1] == tracker.current_offset,
        tracker.seen_bonus_offset matches Some(seen) ==> tracker.digest()[2] == seen,
        tracker.seen_bonus_offset is None ==> tracker.digest()[2] == 255,
{
}

/// Once the bonus tile of a cycle was seen, its place is certain and every other place of the
/// cycle is impossible.
pub proof fn a_seen_bonus_rules_out_the_rest_of_the_cycle(tracker: BonusTracker, ahead: u8)
    requires
        tracker.active,
        tracker.seen_bonus_offset is Some,
        tracker.current_offset + ahead < 21,
    ensures
        tracker.chance(ahead) == (if tracker.seen_bonus_offset->Some_0 == tracker.current_offset
            + ahead {
            always()
        } else {
            never()
        }),
{
}

} // verus!
