//! The order in which empires play.
use vstd::prelude::*;
use crate::game::empire::{counted_down, expiring, Empire, Empires, EmpiresView, PLAYER_EMPIRE};

verus! {

/// Where the game stands: full rounds played, how many empires take turns,
/// and whose turn it is.
pub struct TurnsView {
    pub completed_rounds: u32,
    pub empire_count: u32,
    pub current_empire: u32,
}

/// The turn order of a game.
pub struct Turns {
    completed_rounds: u32,
    empire_count: u32,
    current_empire: u32,
}

impl View for Turns {
    type V = TurnsView;

    closed spec fn view(&self) -> TurnsView {
        TurnsView {
            completed_rounds: self.completed_rounds,
            empire_count: self.empire_count,
            current_empire: self.current_empire,
        }
    }
}

/// The empire that plays after empire `id` among `count`.
pub open spec fn next_empire(id: u32, count: u32) -> u32 {
    ((id + 1) % (count as int)) as u32
}

/// The empire whose turn it is after `k` turns, starting from empire
/// `start`.
pub open spec fn after_turns(start: u32, count: u32, k: nat) -> u32
    decreases k,
{
    if k == 0 {
        start
    } else {
        next_empire(after_turns(start, count, (k - 1) as nat), count)
    }
}

impl Turns {
    /// A game of `empire_count` empires that has not played a round; the
    /// player's empire begins.
    pub fn new(empire_count: u32) -> (t: Turns)
        ensures
            t@ == (TurnsView { completed_rounds: 0, empire_count, current_empire: PLAYER_EMPIRE }),
    {
        Turns { completed_rounds: 0, empire_count, current_empire: PLAYER_EMPIRE }
    }

    /// Whether the player's empire plays now.
    pub fn is_player_turn(&self) -> (r: bool)
        ensures
            r == (self@.current_empire == PLAYER_EMPIRE),
    {
        self.current_empire == PLAYER_EMPIRE
    }

    /// How many full rounds were played.
    pub fn full_rounds(&self) -> (r: u32)
        ensures
            r == self@.completed_rounds,
    {
        self.completed_rounds
    }

    /// The empire whose turn it is.
    pub fn current_empire(&self) -> (r: u32)
        ensures
            r == self@.current_empire,
    {
        self.current_empire
    }

    /// Empire `empire_id` begins its turn; says whether a computer plays it.
    pub fn start_turn(&mut self, empire_id: u32) -> (computer: bool)
        ensures
            final(self)@ == (TurnsView { current_empire: empire_id, ..old(self)@ }),
            computer == (empire_id != PLAYER_EMPIRE),
    {
        self.current_empire = empire_id;
        empire_id != PLAYER_EMPIRE
    }

    /// Empire `empire_id` ends its turn: its income comes in; where it
    /// played last in the round, the round is complete and every peace has
    /// a round less to last. Gives the empire that plays next.
    pub fn end_turn(&mut self, empire_id: u32, empire: &mut Empire, diplomacy: &mut Empires) -> (next: u32)
        requires
            old(self)@.empire_count > 0,
            empire_id == old(self)@.empire_count - 1 ==> old(self)@.completed_rounds < u32::MAX,
            old(empire).pops_total + old(empire).pops_income <= u32::MAX,
            old(empire).pops_free + old(empire).pops_income <= u32::MAX,
        ensures
            next == next_empire(empire_id, old(self)@.empire_count),
            final(self)@ == (TurnsView {
                completed_rounds: if empire_id == old(self)@.empire_count - 1 {
                    (old(self)@.completed_rounds + 1) as u32
                } else {
                    old(self)@.completed_rounds
                },
                ..old(self)@
            }),
            *final(empire) == (Empire {
                resource_total: crate::game::empire::gained(old(empire).resource_total, old(empire).resource_income),
                pops_total: (old(empire).pops_total + old(empire).pops_income) as u32,
                pops_free: (old(empire).pops_free + old(empire).pops_income) as u32,
                ..*old(empire)
            }),
            final(diplomacy)@ == if empire_id == old(self)@.empire_count - 1 {
                EmpiresView {
                    peace: old(diplomacy)@.peace.difference(expiring(old(diplomacy)@.peace_time)),
                    peace_time: counted_down(old(diplomacy)@.peace_time),
                    ..old(diplomacy)@
                }
            } else {
                old(diplomacy)@
            },
    {
        empire.apply_income();
        if empire_id == self.empire_count - 1 {
            self.completed_rounds += 1;
            diplomacy.update_peace_time();
        }
        ((empire_id as u64 + 1) % (self.empire_count as u64)) as u32
    }
}

} // verus!
