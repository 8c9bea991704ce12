//! Properties of the game that span its operations.
use vstd::prelude::*;
use crate::game::ai::{claimable, first_claimable};
use crate::game::battle::{attackers_left, least, survivors};
use crate::game::empire::{counted_down, covers, expiring, ordered, spent, EmpiresView};
use crate::game::grid::{tile_at, Tile};
use crate::game::resources::{clamped, Amounts, ResourceType};
use crate::game::actions::{empire_net_income, province_net, summed};
use crate::game::province::{special_building_for, special_income, Province, ProvinceType, SpecialBuilding};
use crate::game::turns::{after_turns, next_empire};

verus! {

/// The total of the first `k` numbers of `s`.
pub open spec fn total_of(s: Seq<int>, k: int) -> int
    decreases k,
{
    if k <= 0 {
        0
    } else {
        total_of(s, k - 1) + s[k - 1]
    }
}

/// War and peace between two empires do not depend on the order in which
/// the two are named.
pub proof fn law_relations_are_symmetric(d: EmpiresView, a: u32, b: u32)
    ensures
        d.war.contains(ordered(a, b)) == d.war.contains(ordered(b, a)),
        d.peace.contains(ordered(a, b)) == d.peace.contains(ordered(b, a)),
        d.peace_time.get(ordered(a, b)) == d.peace_time.get(ordered(b, a)),
{
}

/// Declaring war ends a peace: afterwards the two empires are at war and
/// not at peace. Making peace ends a war: afterwards they are at peace for
/// the rounds agreed and not at war.
pub proof fn law_war_and_peace_exclude_each_other(d: EmpiresView, a: u32, b: u32, turns: u32)
    ensures
        ({
            let k = ordered(a, b);
            let at_war = EmpiresView { war: d.war.insert(k), peace: d.peace.remove(k), ..d };
            &&& at_war.war.contains(ordered(b, a)) && !at_war.peace.contains(ordered(b, a))
        }),
        ({
            let k = ordered(a, b);
            let at_peace = EmpiresView {
                war: d.war.remove(k),
                peace: d.peace.insert(k),
                peace_time: d.peace_time.insert(k, turns),
                ..d
            };
            &&& at_peace.peace.contains(ordered(b, a)) && !at_peace.war.contains(ordered(b, a))
            &&& at_peace.peace_time.get(ordered(b, a)) == Some(turns)
        }),
{
}

/// A peace made for `turns` rounds outlives the end of the next round
/// exactly when `turns` is more than one, with a round less to last.
pub proof fn law_peace_counts_down(d: EmpiresView, a: u32, b: u32, turns: u32)
    ensures
        ({
            let k = ordered(a, b);
            let peace = d.peace.insert(k);
            let times = d.peace_time.insert(k, turns);
            let later_peace = peace.difference(expiring(times));
            let later_times = counted_down(times);
            &&& later_peace.contains(k) == (turns > 1)
            &&& later_times.contains_key(k) == (turns > 1)
            &&& turns > 1 ==> later_times[k] == turns - 1
        }),
{
}

/// Within a round, every empire takes one turn in order: starting from
/// empire zero, the `k`-th turn is empire `k`, and after `count` turns the
/// first empire plays again.
pub proof fn law_turns_go_round(count: u32, k: nat)
    requires
        count > 0,
        k <= count,
    ensures
        k < count ==> after_turns(0, count, k) == k,
        k == count ==> after_turns(0, count, k) == 0,
    decreases k,
{
    if k > 0 {
        law_turns_go_round(count, (k - 1) as nat);
        assert(after_turns(0, count, k) == next_empire(after_turns(0, count, (k - 1) as nat), count));
        assert(after_turns(0, count, (k - 1) as nat) == k - 1);
        if k < count {
            vstd::arithmetic::div_mod::lemma_small_mod(k, count as nat);
        } else {
            assert((count as int) % (count as int) == 0) by (nonlinear_arith)
                requires
                    count > 0,
            ;
        }
    }
}

/// The attackers still fighting after meeting the first `k` defending
/// armies are those beyond the defenders met, or none.
pub proof fn law_attackers_left(attack: int, sizes: Seq<int>, k: int)
    requires
        attack >= 0,
        0 <= k <= sizes.len(),
        forall|i: int| 0 <= i < sizes.len() ==> sizes[i] >= 0,
    ensures
        attackers_left(attack, sizes, k) == if attack > total_of(sizes, k) {
            attack - total_of(sizes, k)
        } else {
            0
        },
    decreases k,
{
    if k > 0 {
        law_attackers_left(attack, sizes, k - 1);
    }
}

/// An attacking army comes out of a battle with soldiers exactly when it
/// had more than twice as many as all defending armies together; it then
/// keeps those beyond twice the defenders.
pub proof fn law_attack_needs_twice_the_defenders(attack: int, sizes: Seq<int>)
    requires
        attack >= 0,
        forall|i: int| 0 <= i < sizes.len() ==> sizes[i] >= 0,
    ensures
        ({
            let defenders = total_of(sizes, sizes.len() as int);
            let killed = attack - attackers_left(attack, sizes, sizes.len() as int);
            &&& survivors(attack, killed) > 0 <==> attack > 2 * defenders
            &&& attack > 2 * defenders ==> survivors(attack, killed) == attack - 2 * defenders
        }),
{
    law_attackers_left(attack, sizes, sizes.len() as int);
    lemma_total_nonneg(sizes, sizes.len() as int);
}

proof fn lemma_total_nonneg(s: Seq<int>, k: int)
    requires
        0 <= k <= s.len(),
        forall|i: int| 0 <= i < s.len() ==> s[i] >= 0,
    ensures
        total_of(s, k) >= 0,
    decreases k,
{
    if k > 0 {
        lemma_total_nonneg(s, k - 1);
    }
}

/// A stock that covers a cost keeps every kind that the cost names at zero
/// or above once the cost is paid.
pub proof fn law_paying_what_is_affordable(total: Amounts, cost: Amounts)
    requires
        covers(total, cost),
    ensures
        forall|t: ResourceType| #[trigger] cost.entry(t) is Some ==> spent(total, cost).amount_of(t) >= 0,
{
    assert forall|t: ResourceType| #[trigger] cost.entry(t) is Some implies spent(total, cost).amount_of(t) >= 0 by {
        match t {
            ResourceType::Grain => {},
            ResourceType::Lumber => {},
            ResourceType::Stone => {},
            ResourceType::Gold => {},
        }
    }
}

/// A computer player only claims free land: the tile it picks around a
/// place lies next to it and is claimable.
pub proof fn law_claims_are_free_neighbours(tiles: Seq<Tile>, places: Seq<(i32, i32)>, grain_shortage: bool, k: int)
    requires
        0 <= k,
    ensures
        first_claimable(tiles, places, grain_shortage, k) matches Some(i) ==> {
            &&& 0 <= i < tiles.len()
            &&& claimable(tiles[i], grain_shortage)
            &&& exists|j: int| k <= j < places.len() && places[j] == tiles[i].hex
        },
    decreases places.len() - k,
{
    if k < places.len() {
        law_claims_are_free_neighbours(tiles, places, grain_shortage, k + 1);
        if tile_at(tiles, places[k]) is Some {
            let i = tile_at(tiles, places[k])->0;
            assert(0 <= i < tiles.len() && tiles[i].hex == places[k]);
        }
    }
}

/// The resource that a special building produces: grain from a farm,
/// lumber from a lumber mill, stone from a stone mine, gold from a gold
/// mine; a castle produces none.
pub open spec fn product_of(b: SpecialBuilding) -> Option<ResourceType> {
    match b {
        SpecialBuilding::Farm => Some(ResourceType::Grain),
        SpecialBuilding::LumberMill => Some(ResourceType::Lumber),
        SpecialBuilding::StoneMine => Some(ResourceType::Stone),
        SpecialBuilding::GoldMine => Some(ResourceType::Gold),
        SpecialBuilding::Castle => None,
    }
}

/// The special building of a terrain yields its product and nothing
/// else: at least three units (24 eighths) for each worker, so grain on
/// black soil and plains, lumber in woods, stone in hills, gold in
/// mountains. A castle yields nothing anywhere.
pub proof fn law_special_building_yields_its_product(ptype: ProvinceType, workers: u32)
    ensures
        special_building_for(ptype) matches Some(b) ==> (product_of(b) matches Some(r) && special_income(
            b,
            ptype,
            workers,
        ).amount_of(r) >= 24 * workers && forall|t: ResourceType|
            t != r ==> (#[trigger] special_income(b, ptype, workers).entry(t)) is None),
        forall|t: ResourceType| (#[trigger] special_income(SpecialBuilding::Castle, ptype, workers).entry(t)) is None,
{
}

/// For every resource kind, what a province adds to its empire's income
/// is its income of that kind less its upkeep of that kind, kept within
/// the range of `i64`.
pub proof fn law_province_net_is_income_less_upkeep(income: Amounts, upkeep: Amounts)
    ensures
        forall|t: ResourceType|
            (#[trigger] province_net(income, upkeep).entry(t)) is Some && province_net(income, upkeep).amount_of(t)
                == clamped(income.amount_of(t) - upkeep.amount_of(t)),
{
    assert forall|t: ResourceType|
        (#[trigger] province_net(income, upkeep).entry(t)) is Some && province_net(income, upkeep).amount_of(t)
            == clamped(income.amount_of(t) - upkeep.amount_of(t)) by {
        match t {
            ResourceType::Grain => {},
            ResourceType::Lumber => {},
            ResourceType::Stone => {},
            ResourceType::Gold => {},
        }
    }
}

/// The net income of kind `t` of the first `k` provinces, summed without
/// bounds: each one's income less its upkeep.
pub open spec fn net_total(provinces: Seq<&Province>, t: ResourceType, k: int) -> int
    decreases k,
{
    if k <= 0 {
        0
    } else {
        net_total(provinces, t, k - 1) + provinces[k - 1]@.income.amount_of(t) - provinces[k - 1]@.upkeep.amount_of(t)
    }
}

/// Where no running total leaves the range of `i64`, an empire's income of
/// each kind is the sum, over its provinces, of their income less their
/// upkeep of that kind.
pub proof fn law_empire_income_sums_the_provinces(provinces: Seq<&Province>, t: ResourceType)
    requires
        forall|k: int|
            0 <= k < provinces.len() ==> i64::MIN <= #[trigger] (provinces[k]@.income.amount_of(t)
                - provinces[k]@.upkeep.amount_of(t)) <= i64::MAX,
        forall|k: int| 0 <= k <= provinces.len() ==> i64::MIN <= #[trigger] net_total(provinces, t, k) <= i64::MAX,
    ensures
        empire_net_income(provinces).amount_of(t) == net_total(provinces, t, provinces.len() as int),
    decreases provinces.len(),
{
    let n = provinces.len() as int;
    if n > 0 {
        let rest = provinces.drop_last();
        assert forall|k: int| 0 <= k <= rest.len() implies net_total(rest, t, k) == net_total(provinces, t, k) by {
            lemma_net_total_prefix(provinces, t, k);
        }
        assert forall|k: int| 0 <= k < rest.len() implies i64::MIN <= #[trigger] (rest[k]@.income.amount_of(t)
            - rest[k]@.upkeep.amount_of(t)) <= i64::MAX by {
            assert(rest[k] == provinces[k]);
            assert(i64::MIN <= provinces[k]@.income.amount_of(t) - provinces[k]@.upkeep.amount_of(t) <= i64::MAX);
        }
        assert forall|k: int| 0 <= k <= rest.len() implies i64::MIN <= #[trigger] net_total(rest, t, k) <= i64::MAX by {
            assert(i64::MIN <= net_total(provinces, t, k) <= i64::MAX);
        }
        law_empire_income_sums_the_provinces(rest, t);
        let p = provinces.last();
        law_province_net_is_income_less_upkeep(p@.income, p@.upkeep);
        assert(i64::MIN <= provinces[n - 1]@.income.amount_of(t) - provinces[n - 1]@.upkeep.amount_of(t) <= i64::MAX);
        assert(i64::MIN <= net_total(provinces, t, n) <= i64::MAX);
        let a = empire_net_income(rest);
        let b = province_net(p@.income, p@.upkeep);
        assert(summed(a, b).amount_of(t) == clamped(a.amount_of(t) + b.amount_of(t))) by {
            match t {
                ResourceType::Grain => {},
                ResourceType::Lumber => {},
                ResourceType::Stone => {},
                ResourceType::Gold => {},
            }
        }
    } else {
        match t {
            ResourceType::Grain => {},
            ResourceType::Lumber => {},
            ResourceType::Stone => {},
            ResourceType::Gold => {},
        }
    }
}

proof fn lemma_net_total_prefix(provinces: Seq<&Province>, t: ResourceType, k: int)
    requires
        0 <= k < provinces.len(),
    ensures
        net_total(provinces.drop_last(), t, k) == net_total(provinces, t, k),
    decreases k,
{
    if k > 0 {
        lemma_net_total_prefix(provinces, t, k - 1);
        assert(provinces.drop_last()[k - 1] == provinces[k - 1]);
    }
}

} // verus!
