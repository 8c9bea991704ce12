//! Empires: their treasury and people, the diplomacy between them, and the
//! order of turns.
use std::collections::HashMap;
use vstd::prelude::*;
use crate::game::assoc::{assoc, keys_distinct, lemma_assoc_at, lemma_assoc_dom, lemma_assoc_update, list_contains, list_insert, list_remove};
use crate::game::resources::{add_amount, clamped, sub_amount, Amounts, ResourceType};

verus! {

broadcast use vstd::std_specs::hash::group_hash_axioms;

/// The most empires a game has.
pub const MAX_EMPIRES: u32 = 10;

/// The id of the empire that the person at the screen plays.
pub const PLAYER_EMPIRE: u32 = 0;

/// The entry of kind `t` once `cost` is paid from `total`.
pub open spec fn spent_entry(total: Amounts, cost: Amounts, t: ResourceType) -> Option<i64> {
    match cost.entry(t) {
        Some(c) => Some(clamped(total.amount_of(t) - c) as i64),
        None => total.entry(t),
    }
}

/// `total` once `cost` is paid: each kind that `cost` names goes down by
/// its amount.
pub open spec fn spent(total: Amounts, cost: Amounts) -> Amounts {
    Amounts {
        grain: spent_entry(total, cost, ResourceType::Grain),
        lumber: spent_entry(total, cost, ResourceType::Lumber),
        stone: spent_entry(total, cost, ResourceType::Stone),
        gold: spent_entry(total, cost, ResourceType::Gold),
    }
}

/// The entry of kind `t` once `income` is added to `total`.
pub open spec fn gained_entry(total: Amounts, income: Amounts, t: ResourceType) -> Option<i64> {
    match income.entry(t) {
        Some(c) => Some(clamped(total.amount_of(t) + c) as i64),
        None => total.entry(t),
    }
}

/// `total` once `income` is added: each kind that `income` names goes up
/// by its amount.
pub open spec fn gained(total: Amounts, income: Amounts) -> Amounts {
    Amounts {
        grain: gained_entry(total, income, ResourceType::Grain),
        lumber: gained_entry(total, income, ResourceType::Lumber),
        stone: gained_entry(total, income, ResourceType::Stone),
        gold: gained_entry(total, income, ResourceType::Gold),
    }
}

/// Each kind that `cost` names is covered by `total`.
pub open spec fn covers(total: Amounts, cost: Amounts) -> bool {
    forall|t: ResourceType| #[trigger] cost.entry(t) is Some ==> total.amount_of(t) >= cost.amount_of(t)
}

/// What an empire starts with: five gold, twenty grain, ten lumber and
/// five stone, in eighths.
pub open spec fn starting_resources() -> Amounts {
    Amounts { grain: Some(160), lumber: Some(80), stone: Some(40), gold: Some(40) }
}

/// Covers `cost` from `total`, kind by kind.
fn covers_exec(total: &Amounts, cost: &Amounts) -> (r: bool)
    ensures
        r == covers(*total, *cost),
{
    let ok_grain = match cost.grain {
        Some(c) => total.amount(ResourceType::Grain) >= c,
        None => true,
    };
    let ok_lumber = match cost.lumber {
        Some(c) => total.amount(ResourceType::Lumber) >= c,
        None => true,
    };
    let ok_stone = match cost.stone {
        Some(c) => total.amount(ResourceType::Stone) >= c,
        None => true,
    };
    let ok_gold = match cost.gold {
        Some(c) => total.amount(ResourceType::Gold) >= c,
        None => true,
    };
    proof {
        if ok_grain && ok_lumber && ok_stone && ok_gold {
            assert forall|t: ResourceType| #[trigger] cost.entry(t) is Some implies total.amount_of(t) >= cost.amount_of(t) by {
                match t {
                    ResourceType::Grain => {},
                    ResourceType::Lumber => {},
                    ResourceType::Stone => {},
                    ResourceType::Gold => {},
                }
            }
        } else {
            if !ok_grain {
                assert(!(cost.entry(ResourceType::Grain) is Some ==> total.amount_of(ResourceType::Grain) >= cost.amount_of(ResourceType::Grain)));
            }
            if !ok_lumber {
                assert(!(cost.entry(ResourceType::Lumber) is Some ==> total.amount_of(ResourceType::Lumber) >= cost.amount_of(ResourceType::Lumber)));
            }
            if !ok_stone {
                assert(!(cost.entry(ResourceType::Stone) is Some ==> total.amount_of(ResourceType::Stone) >= cost.amount_of(ResourceType::Stone)));
            }
            if !ok_gold {
                assert(!(cost.entry(ResourceType::Gold) is Some ==> total.amount_of(ResourceType::Gold) >= cost.amount_of(ResourceType::Gold)));
            }
        }
    }
    ok_grain && ok_lumber && ok_stone && ok_gold
}

/// One kind of `total` once `cost` is paid.
fn spend_entry(total: &Amounts, cost: Option<i64>, t: ResourceType) -> (r: Option<i64>)
    ensures
        r == match cost {
            Some(c) => Some(clamped(total.amount_of(t) - c) as i64),
            None => total.entry(t),
        },
{
    match cost {
        Some(c) => Some(sub_amount(total.amount(t), c)),
        None => total.get(t),
    }
}

/// One kind of `total` once `income` is added.
fn gain_entry(total: &Amounts, income: Option<i64>, t: ResourceType) -> (r: Option<i64>)
    ensures
        r == match income {
            Some(c) => Some(clamped(total.amount_of(t) + c) as i64),
            None => total.entry(t),
        },
{
    match income {
        Some(c) => Some(add_amount(total.amount(t), c)),
        None => total.get(t),
    }
}

/// A player of the game: its treasury, its people and soldiers, and
/// whether it is still in the game.
pub struct Empire {
    /// The empire's number, counting from zero.
    pub id: u32,
    pub name: String,
    /// How many armies the empire ever raised.
    pub armies_created: u32,
    pub resource_total: Amounts,
    pub resource_income: Amounts,
    pub pops_total: u32,
    pub pops_free: u32,
    pub pops_income: u32,
    /// How many soldiers the empire recruited.
    pub soldiers: u32,
    /// How many soldiers the empire's castles can hold.
    pub max_soldiers: u32,
    pub is_playing: bool,
}

impl Empire {
    /// Whether some resource stands below zero.
    pub open spec fn is_bankrupt_spec(&self) -> bool {
        exists|t: ResourceType| #[trigger] self.resource_total.amount_of(t) < 0
    }

    /// Whether some resource stands below zero.
    pub fn is_bankrupt(&self) -> (r: bool)
        ensures
            r == self.is_bankrupt_spec(),
    {
        let r = self.get_total(&ResourceType::Grain) < 0 || self.get_total(&ResourceType::Lumber) < 0
            || self.get_total(&ResourceType::Stone) < 0 || self.get_total(&ResourceType::Gold) < 0;
        proof {
            if !r {
                assert forall|t: ResourceType| !(#[trigger] self.resource_total.amount_of(t) < 0) by {
                    match t {
                        ResourceType::Grain => {},
                        ResourceType::Lumber => {},
                        ResourceType::Stone => {},
                        ResourceType::Gold => {},
                    }
                }
            }
        }
        r
    }

    /// Whether the empire is still in the game.
    pub fn is_playing(&self) -> (r: bool)
        ensures
            r == self.is_playing,
    {
        self.is_playing
    }

    /// Takes the empire out of the game.
    pub fn loose(&mut self)
        ensures
            *final(self) == (Empire { is_playing: false, ..*old(self) }),
    {
        self.is_playing = false;
    }

    /// A new empire: the starting resources, two free people, and nothing
    /// else yet.
    pub fn new(id: u32, name: String) -> (e: Empire)
        ensures
            e.id == id,
            e.name@ == name@,
            e.armies_created == 0,
            e.resource_total == starting_resources(),
            e.resource_income.empty_spec(),
            e.pops_total == 2,
            e.pops_free == 2,
            e.pops_income == 0,
            e.soldiers == 0,
            e.max_soldiers == 0,
            e.is_playing,
    {
        Empire {
            id,
            name,
            armies_created: 0,
            resource_total: Amounts { grain: Some(160), lumber: Some(80), stone: Some(40), gold: Some(40) },
            resource_income: Amounts::new(),
            pops_total: 2,
            pops_free: 2,
            pops_income: 0,
            soldiers: 0,
            max_soldiers: 0,
            is_playing: true,
        }
    }

    /// How many armies the empire ever raised.
    pub fn total_armies_created(&self) -> (r: u32)
        ensures
            r == self.armies_created,
    {
        self.armies_created
    }

    /// The number for a new army: the count of armies raised so far, which
    /// goes up by one.
    pub fn new_army_id(&mut self) -> (r: u32)
        requires
            old(self).armies_created < u32::MAX,
        ensures
            r == old(self).armies_created,
            *final(self) == (Empire { armies_created: (old(self).armies_created + 1) as u32, ..*old(self) }),
    {
        let ret = self.armies_created;
        self.armies_created += 1;
        ret
    }

    /// Counts one more army raised.
    pub fn new_army(&mut self)
        requires
            old(self).armies_created < u32::MAX,
        ensures
            *final(self) == (Empire { armies_created: (old(self).armies_created + 1) as u32, ..*old(self) }),
    {
        self.armies_created += 1;
    }

    /// How many soldiers the empire recruited.
    pub fn get_soldiers(&self) -> (r: u32)
        ensures
            r == self.soldiers,
    {
        self.soldiers
    }

    /// Counts one more soldier.
    pub fn add_soldier(&mut self)
        requires
            old(self).soldiers < u32::MAX,
        ensures
            *final(self) == (Empire { soldiers: (old(self).soldiers + 1) as u32, ..*old(self) }),
    {
        self.soldiers += 1;
    }

    /// Counts one soldier fewer.
    pub fn remove_soldier(&mut self)
        requires
            old(self).soldiers > 0,
        ensures
            *final(self) == (Empire { soldiers: (old(self).soldiers - 1) as u32, ..*old(self) }),
    {
        self.soldiers -= 1;
    }

    /// How many people the empire has.
    pub fn get_pops(&self) -> (r: u32)
        ensures
            r == self.pops_total,
    {
        self.pops_total
    }

    /// How many people wait to be settled or recruited.
    pub fn get_free_pops(&self) -> (r: u32)
        ensures
            r == self.pops_free,
    {
        self.pops_free
    }

    /// Takes one free person, where there is one.
    pub fn try_remove_free_pop(&mut self) -> (r: bool)
        ensures
            r == (old(self).pops_free > 0),
            *final(self) == (Empire {
                pops_free: if r { (old(self).pops_free - 1) as u32 } else { old(self).pops_free },
                ..*old(self)
            }),
    {
        if self.pops_free == 0 {
            false
        } else {
            self.pops_free -= 1;
            true
        }
    }

    /// Adds one free person.
    pub fn add_free_pop(&mut self)
        requires
            old(self).pops_free < u32::MAX,
        ensures
            *final(self) == (Empire { pops_free: (old(self).pops_free + 1) as u32, ..*old(self) }),
    {
        self.pops_free += 1;
    }

    /// Adds `amount` free people.
    pub fn add_free_pops(&mut self, amount: u32)
        requires
            old(self).pops_free + amount <= u32::MAX,
        ensures
            *final(self) == (Empire { pops_free: (old(self).pops_free + amount) as u32, ..*old(self) }),
    {
        self.pops_free += amount;
    }

    /// The stock of kind `typ`, zero where none was ever held.
    pub fn get_total(&self, typ: &ResourceType) -> (r: i64)
        ensures
            r == self.resource_total.amount_of(*typ),
    {
        self.resource_total.amount(*typ)
    }

    /// What the empire gains per turn.
    pub fn total_income(&self) -> (r: &Amounts)
        ensures
            *r == self.resource_income,
    {
        &self.resource_income
    }

    /// What the empire gains per turn of kind `typ`.
    pub fn get_income(&self, typ: &ResourceType) -> (r: i64)
        ensures
            r == self.resource_income.amount_of(*typ),
    {
        self.resource_income.amount(*typ)
    }

    /// How many people the empire gains per turn.
    pub fn get_pops_income(&self) -> (r: u32)
        ensures
            r == self.pops_income,
    {
        self.pops_income
    }

    /// Whether a person waits to be settled or recruited.
    pub fn has_free_pops(&self) -> (r: bool)
        ensures
            r == (self.pops_free > 0),
    {
        self.pops_free > 0
    }

    /// Whether the stock covers every kind that `cost` names.
    pub fn can_afford(&self, cost: &Amounts) -> (r: bool)
        ensures
            r == covers(self.resource_total, *cost),
    {
        covers_exec(&self.resource_total, cost)
    }

    /// Whether the income covers every kind that `cost` names.
    pub fn has_income_for(&self, cost: &Amounts) -> (r: bool)
        ensures
            r == covers(self.resource_income, *cost),
    {
        covers_exec(&self.resource_income, cost)
    }

    /// Pays `cost` from the stock, whether or not it covers it.
    pub fn remove_resources(&mut self, cost: &Amounts)
        ensures
            *final(self) == (Empire { resource_total: spent(old(self).resource_total, *cost), ..*old(self) }),
    {
        let t = self.resource_total;
        self.resource_total = Amounts {
            grain: spend_entry(&t, cost.grain, ResourceType::Grain),
            lumber: spend_entry(&t, cost.lumber, ResourceType::Lumber),
            stone: spend_entry(&t, cost.stone, ResourceType::Stone),
            gold: spend_entry(&t, cost.gold, ResourceType::Gold),
        };
    }

    /// Adds a turn's income to the stock and a turn's new people to the
    /// empire.
    pub fn apply_income(&mut self)
        requires
            old(self).pops_total + old(self).pops_income <= u32::MAX,
            old(self).pops_free + old(self).pops_income <= u32::MAX,
        ensures
            *final(self) == (Empire {
                resource_total: gained(old(self).resource_total, old(self).resource_income),
                pops_total: (old(self).pops_total + old(self).pops_income) as u32,
                pops_free: (old(self).pops_free + old(self).pops_income) as u32,
                ..*old(self)
            }),
    {
        let t = self.resource_total;
        let inc = self.resource_income;
        self.resource_total = Amounts {
            grain: gain_entry(&t, inc.grain, ResourceType::Grain),
            lumber: gain_entry(&t, inc.lumber, ResourceType::Lumber),
            stone: gain_entry(&t, inc.stone, ResourceType::Stone),
            gold: gain_entry(&t, inc.gold, ResourceType::Gold),
        };
        self.pops_total += self.pops_income;
        self.pops_free += self.pops_income;
    }
}

/// The stock of kind `typ` in `map`, zero where absent.
pub fn resource_amount(map: &Amounts, typ: &ResourceType) -> (r: i64)
    ensures
        r == map.amount_of(*typ),
{
    map.amount(*typ)
}

/// A pair of empire ids with the lower first.
pub open spec fn ordered(a: u32, b: u32) -> (u32, u32) {
    if a <= b {
        (a, b)
    } else {
        (b, a)
    }
}

/// The pairs whose peace ends this round: those with at most one round
/// left.
pub open spec fn expiring(times: Map<(u32, u32), u32>) -> Set<(u32, u32)> {
    Set::new(|k: (u32, u32)| times.contains_key(k) && times[k] <= 1)
}

/// The peace times one round later: one round less each, and gone where
/// none is left.
pub open spec fn counted_down(times: Map<(u32, u32), u32>) -> Map<(u32, u32), u32> {
    Map::new(|k: (u32, u32)| times.contains_key(k) && times[k] > 1, |k: (u32, u32)| (times[k] - 1) as u32)
}

/// What the diplomacy between empires is: how many empires play, their
/// entities, the pairs at war, the pairs at peace, and how many rounds each
/// peace still lasts.
pub struct EmpiresView {
    pub count: u32,
    pub entities: Map<u32, u64>,
    pub war: Set<(u32, u32)>,
    pub peace: Set<(u32, u32)>,
    pub peace_time: Map<(u32, u32), u32>,
}

/// The empires of a game and the relations between them. A pair of
/// empires is kept with the lower id first. The relations are lists with
/// no pair twice: vstd gives hash sets of integer keys their meaning, but
/// not hash sets of pairs.
pub struct Empires {
    count: u32,
    empire_entity: HashMap<u32, u64>,
    war: Vec<(u32, u32)>,
    peace: Vec<(u32, u32)>,
    peace_time: Vec<((u32, u32), u32)>,
}

impl View for Empires {
    type V = EmpiresView;

    closed spec fn view(&self) -> EmpiresView {
        EmpiresView {
            count: self.count,
            entities: self.empire_entity@,
            war: self.war@.to_set(),
            peace: self.peace@.to_set(),
            peace_time: assoc(self.peace_time@),
        }
    }
}

/// The pair `(min, max)` of two ids.
fn order(a: u32, b: u32) -> (r: (u32, u32))
    ensures
        r == ordered(a, b),
{
    if a <= b {
        (a, b)
    } else {
        (b, a)
    }
}

impl Empires {
    /// No pair is listed twice, and no pair has two peace times.
    #[verifier::type_invariant]
    spec fn inv(self) -> bool {
        &&& self.war@.no_duplicates()
        &&& self.peace@.no_duplicates()
        &&& keys_distinct(self.peace_time@)
    }

    /// `count` empires with their entities, and no wars or peaces.
    pub fn new(count: u32, map: HashMap<u32, u64>) -> (e: Empires)
        ensures
            e@.count == count,
            e@.entities == map@,
            e@.war == Set::<(u32, u32)>::empty(),
            e@.peace == Set::<(u32, u32)>::empty(),
            e@.peace_time == Map::<(u32, u32), u32>::empty(),
    {
        let e = Empires {
            count,
            empire_entity: map,
            war: Vec::new(),
            peace: Vec::new(),
            peace_time: Vec::new(),
        };
        assert(e.war@.to_set() =~= Set::empty());
        assert(e.peace@.to_set() =~= Set::empty());
        e
    }

    /// How many empires play.
    pub fn count(&self) -> (r: u32)
        ensures
            r == self@.count,
    {
        self.count
    }

    /// The entity of empire `empire_id`.
    pub fn get_entity(&self, empire_id: u32) -> (r: Option<u64>)
        ensures
            r == self@.entities.get(empire_id),
    {
        match self.empire_entity.get(&empire_id) {
            Some(e) => Some(*e),
            None => None,
        }
    }

    /// The entity of the player's empire.
    pub fn player_empire(&self) -> (r: Option<u64>)
        ensures
            r == self@.entities.get(PLAYER_EMPIRE),
    {
        self.get_entity(PLAYER_EMPIRE)
    }

    /// Whether two empires are at war.
    pub fn at_war(&self, empire_a: u32, empire_b: u32) -> (r: bool)
        ensures
            r == self@.war.contains(ordered(empire_a, empire_b)),
    {
        let k = order(empire_a, empire_b);
        list_contains(&self.war, k)
    }

    /// Two empires go to war; a peace between them ends.
    pub fn set_war(&mut self, empire_a: u32, empire_b: u32)
        ensures
            final(self)@ == (EmpiresView {
                war: old(self)@.war.insert(ordered(empire_a, empire_b)),
                peace: old(self)@.peace.remove(ordered(empire_a, empire_b)),
                ..old(self)@
            }),
    {
        proof {
            use_type_invariant(&*self);
        }
        let k = order(empire_a, empire_b);
        let mut peace = Vec::new();
        std::mem::swap(&mut peace, &mut self.peace);
        list_remove(&mut peace, k);
        self.peace = peace;
        let mut war = Vec::new();
        std::mem::swap(&mut war, &mut self.war);
        list_insert(&mut war, k);
        self.war = war;
    }

    /// Whether two empires are at peace.
    pub fn at_peace(&self, empire_a: u32, empire_b: u32) -> (r: bool)
        ensures
            r == self@.peace.contains(ordered(empire_a, empire_b)),
    {
        let k = order(empire_a, empire_b);
        list_contains(&self.peace, k)
    }

    /// Two empires make peace for `turns` rounds; a war between them ends.
    pub fn set_peace(&mut self, empire_a: u32, empire_b: u32, turns: u32)
        ensures
            final(self)@ == (EmpiresView {
                war: old(self)@.war.remove(ordered(empire_a, empire_b)),
                peace: old(self)@.peace.insert(ordered(empire_a, empire_b)),
                peace_time: old(self)@.peace_time.insert(ordered(empire_a, empire_b), turns),
                ..old(self)@
            }),
    {
        proof {
            use_type_invariant(&*self);
        }
        let k = order(empire_a, empire_b);
        let mut war = Vec::new();
        std::mem::swap(&mut war, &mut self.war);
        list_remove(&mut war, k);
        self.war = war;
        let mut peace = Vec::new();
        std::mem::swap(&mut peace, &mut self.peace);
        list_insert(&mut peace, k);
        self.peace = peace;
        let mut times = Vec::new();
        std::mem::swap(&mut times, &mut self.peace_time);
        set_time(&mut times, k, turns);
        self.peace_time = times;
    }

    /// How many rounds the peace between two empires still lasts, if any
    /// was made.
    pub fn peace_time(&self, empire_a: u32, empire_b: u32) -> (r: Option<u32>)
        ensures
            r == self@.peace_time.get(ordered(empire_a, empire_b)),
    {
        proof {
            use_type_invariant(self);
        }
        let k = order(empire_a, empire_b);
        get_time(&self.peace_time, k)
    }

    /// At the end of a round, every peace has one round less to last; a
    /// peace with none left ends.
    pub fn update_peace_time(&mut self)
        ensures
            final(self)@ == (EmpiresView {
                peace: old(self)@.peace.difference(expiring(old(self)@.peace_time)),
                peace_time: counted_down(old(self)@.peace_time),
                ..old(self)@
            }),
    {
        proof {
            use_type_invariant(&*self);
        }
        let mut times = Vec::new();
        std::mem::swap(&mut times, &mut self.peace_time);
        let mut peace = Vec::new();
        std::mem::swap(&mut peace, &mut self.peace);
        let ghost old_times = times@;
        let ghost old_peace = peace@;
        let mut kept: Vec<((u32, u32), u32)> = Vec::new();
        let n = times.len();
        let mut i: usize = 0;
        while i < n
            invariant
                n == times@.len(),
                times@ == old_times,
                keys_distinct(old_times),
                i <= n,
                keys_distinct(kept@),
                forall|k: (u32, u32)| #[trigger] assoc(kept@).contains_key(k) ==> assoc(old_times.take(i as int)).contains_key(k),
                assoc(kept@) == counted_down(assoc(old_times.take(i as int))),
                peace@.to_set() == old_peace.to_set().difference(expiring(assoc(old_times.take(i as int)))),
                peace@.no_duplicates(),
            decreases n - i,
        {
            let (k, v) = times[i];
            let ghost before = old_times.take(i as int);
            proof {
                assert(old_times.take(i + 1) == before.push((k, v)));
                assert(old_times.take(i + 1).drop_last() == before);
                lemma_assoc_dom(before, k);
                assert(!assoc(before).contains_key(k)) by {
                    if assoc(before).contains_key(k) {
                        let j = choose|j: int| 0 <= j < before.len() && before[j].0 == k;
                        assert(old_times[j].0 == old_times[i as int].0);
                    }
                }
            }
            if v > 1 {
                proof {
                    lemma_assoc_dom(kept@, k);
                }
                let ghost prev_kept = kept@;
                kept.push((k, v - 1));
                proof {
                    assert(kept@.drop_last() == prev_kept);
                    assert forall|a: int, b: int| 0 <= a < b < kept@.len() implies kept@[a].0 != kept@[b].0 by {
                        if b == kept@.len() - 1 {
                            if kept@[a].0 == k {
                                assert(prev_kept[a].0 == k);
                                assert(assoc(prev_kept).contains_key(k));
                            }
                        } else {
                            assert(prev_kept[a] == kept@[a] && prev_kept[b] == kept@[b]);
                        }
                    }
                }
            } else {
                list_remove(&mut peace, k);
            }
            proof {
                let after = old_times.take(i + 1);
                assert(assoc(after) == assoc(before).insert(k, v));
                assert(assoc(kept@) =~= counted_down(assoc(after)));
                assert(expiring(assoc(after)) =~= if v <= 1 {
                    expiring(assoc(before)).insert(k)
                } else {
                    expiring(assoc(before))
                });
                assert(peace@.to_set() =~= old_peace.to_set().difference(expiring(assoc(after))));
                assert forall|x: (u32, u32)| #[trigger] assoc(kept@).contains_key(x) implies assoc(after).contains_key(x) by {}
            }
            i += 1;
        }
        proof {
            assert(old_times.take(n as int) == old_times);
        }
        self.peace = peace;
        self.peace_time = kept;
    }
}

/// Sets the rounds that the peace of pair `k` lasts.
fn set_time(times: &mut Vec<((u32, u32), u32)>, k: (u32, u32), v: u32)
    requires
        keys_distinct(old(times)@),
    ensures
        keys_distinct(final(times)@),
        assoc(final(times)@) == assoc(old(times)@).insert(k, v),
{
    let n = times.len();
    let mut i: usize = 0;
    while i < n
        invariant
            n == times@.len(),
            times@ == old(times)@,
            keys_distinct(times@),
            i <= n,
            forall|j: int| 0 <= j < i ==> times@[j].0 != k,
        decreases n - i,
    {
        if times[i].0.0 == k.0 && times[i].0.1 == k.1 {
            proof {
                lemma_assoc_update(times@, i as int, v);
            }
            times.set(i, (k, v));
            return;
        }
        i += 1;
    }
    proof {
        lemma_assoc_dom(times@, k);
    }
    times.push((k, v));
    proof {
        assert(times@.drop_last() == old(times)@);
        assert forall|a: int, b: int| 0 <= a < b < times@.len() implies times@[a].0 != times@[b].0 by {
            if b < times@.len() - 1 {
                assert(old(times)@[a] == times@[a] && old(times)@[b] == times@[b]);
            }
        }
    }
}

/// The rounds that the peace of pair `k` lasts, if set.
fn get_time(times: &Vec<((u32, u32), u32)>, k: (u32, u32)) -> (r: Option<u32>)
    requires
        keys_distinct(times@),
    ensures
        r == assoc(times@).get(k),
{
    let n = times.len();
    let mut i: usize = 0;
    while i < n
        invariant
            n == times@.len(),
            i <= n,
            keys_distinct(times@),
            forall|j: int| 0 <= j < i ==> times@[j].0 != k,
        decreases n - i,
    {
        if times[i].0.0 == k.0 && times[i].0.1 == k.1 {
            proof {
                lemma_assoc_at(times@, i as int);
            }
            return Some(times[i].1);
        }
        i += 1;
    }
    proof {
        lemma_assoc_dom(times@, k);
    }
    None
}

} // verus!
