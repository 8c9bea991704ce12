//! What empires do to provinces and armies, and how their incomes follow
//! from the provinces they hold.
use vstd::prelude::*;
use crate::game::army::{Army, ArmyView, Soldier, SoldierType};
use crate::game::empire::{spent, Empire};
use crate::game::province::{Province, ProvinceView};
use crate::game::resources::{add_amount, clamped, sub_amount, Amounts, ResourceType};

verus! {

/// An empire claims a province: one free person settles there. Refused
/// (and nothing changes) where the empire has no free person.
pub fn claim_province(empire: &mut Empire, province: &mut Province) -> (claimed: bool)
    requires
        old(province)@.pops < u32::MAX,
    ensures
        claimed == (old(empire).pops_free > 0),
        final(empire).pops_free == if claimed { old(empire).pops_free - 1 } else { old(empire).pops_free as int },
        final(empire).resource_total == old(empire).resource_total,
        final(empire).pops_total == old(empire).pops_total,
        final(province)@ == (ProvinceView {
            pops: if claimed { (old(province)@.pops + 1) as u32 } else { old(province)@.pops },
            ..old(province)@
        }),
{
    if !empire.has_free_pops() {
        return false;
    }
    empire.pops_free -= 1;
    province.add_pop();
    true
}

/// An empire recruits an infantry soldier in a province (entity
/// `province_entity`): it pays the cost, gives a free person, counts the
/// soldier, settles a resident where a house has room (to feed the
/// soldier), and the soldier waits in the province.
pub fn recruit_soldier(empire: &mut Empire, province: &mut Province, province_entity: u64)
    requires
        old(empire).soldiers < u32::MAX,
    ensures
        final(empire).resource_total == spent(
            old(empire).resource_total,
            Amounts { grain: Some(8), lumber: None, stone: None, gold: Some(0) },
        ),
        final(empire).pops_free == if old(empire).pops_free > 0 {
            old(empire).pops_free - 1
        } else {
            0
        },
        final(empire).soldiers == old(empire).soldiers + 1,
        final(province)@ == (ProvinceView {
            pops: if old(province)@.pops < old(province)@.max_pops {
                (old(province)@.pops + 1) as u32
            } else {
                old(province)@.pops
            },
            soldiers: old(province)@.soldiers.push(
                Soldier { stype: SoldierType::Infantry, home_province: province_entity },
            ),
            ..old(province)@
        }),
{
    empire.remove_resources(&SoldierType::Infantry.recruit_cost());
    empire.try_remove_free_pop();
    empire.add_soldier();
    province.try_add_pop();
    province.add_soldier(Soldier::new_infantry(&province_entity));
}

/// Forms an army (for the empire with entity `empire_entity`) of the
/// soldier that came last to a province; none where no soldier waits
/// there.
pub fn create_army(province: &mut Province, empire: &mut Empire, empire_entity: u64) -> (army: Option<Army>)
    requires
        old(empire).armies_created < u32::MAX,
    ensures
        old(province)@.soldiers.len() == 0 ==> army is None && final(province)@ == old(province)@
            && final(empire).armies_created == old(empire).armies_created,
        old(province)@.soldiers.len() > 0 ==> {
            &&& army matches Some(a) && a@ == (ArmyView {
                atype: old(province)@.soldiers.last().stype,
                soldiers: seq![old(province)@.soldiers.last()],
                empire: empire_entity,
                id: old(empire).armies_created,
                moved: false,
            })
            &&& final(province)@ == (ProvinceView {
                soldiers: old(province)@.soldiers.drop_last(),
                ..old(province)@
            })
            &&& final(empire).armies_created == old(empire).armies_created + 1
        },
        final(empire).resource_total == old(empire).resource_total,
{
    let soldier = match province.try_remove_soldier() {
        Some(s) => s,
        None => return None,
    };
    let id = empire.new_army_id();
    Some(Army::new(soldier, empire_entity, id))
}

/// Disbands an army: its soldiers wait in the province again, in order.
pub fn disband_army(army: Army, province: &mut Province)
    ensures
        final(province)@ == (ProvinceView {
            soldiers: old(province)@.soldiers + army@.soldiers,
            ..old(province)@
        }),
{
    let soldiers = army.soldiers();
    let n = soldiers.len();
    let mut i: usize = 0;
    while i < n
        invariant
            n == soldiers@.len(),
            soldiers@ == army@.soldiers,
            i <= n,
            province@ == (ProvinceView {
                soldiers: old(province)@.soldiers + soldiers@.take(i as int),
                ..old(province)@
            }),
        decreases n - i,
    {
        province.add_soldier(soldiers[i]);
        proof {
            assert(soldiers@.take(i + 1) == soldiers@.take(i as int).push(soldiers@[i as int]));
        }
        i += 1;
    }
    assert(soldiers@.take(n as int) == soldiers@);
}

/// At the start of an empire's turn its armies may move again.
pub fn reset_armies_moves(armies: &mut Vec<Army>, empire: u64)
    ensures
        final(armies)@.len() == old(armies)@.len(),
        forall|i: int|
            0 <= i < old(armies)@.len() ==> #[trigger] final(armies)@[i]@ == if old(armies)@[i]@.empire == empire {
                ArmyView { moved: false, ..old(armies)@[i]@ }
            } else {
                old(armies)@[i]@
            },
{
    let n = armies.len();
    let mut i: usize = 0;
    while i < n
        invariant
            n == armies@.len(),
            i <= n,
            forall|j: int|
                0 <= j < i ==> #[trigger] armies@[j]@ == if old(armies)@[j]@.empire == empire {
                    ArmyView { moved: false, ..old(armies)@[j]@ }
                } else {
                    old(armies)@[j]@
                },
            forall|j: int| i <= j < n ==> #[trigger] armies@[j] == old(armies)@[j],
        decreases n - i,
    {
        if armies[i].empire() == empire {
            armies[i].reset_moved();
        }
        i += 1;
    }
}

/// What one province adds to its empire's income, kind by kind: its yield
/// less its upkeep.
pub open spec fn province_net(income: Amounts, upkeep: Amounts) -> Amounts {
    Amounts {
        grain: Some(clamped(income.amount_of(ResourceType::Grain) - upkeep.amount_of(ResourceType::Grain)) as i64),
        lumber: Some(clamped(income.amount_of(ResourceType::Lumber) - upkeep.amount_of(ResourceType::Lumber)) as i64),
        stone: Some(clamped(income.amount_of(ResourceType::Stone) - upkeep.amount_of(ResourceType::Stone)) as i64),
        gold: Some(clamped(income.amount_of(ResourceType::Gold) - upkeep.amount_of(ResourceType::Gold)) as i64),
    }
}

/// Two tables summed kind by kind, every kind present.
pub open spec fn summed(a: Amounts, b: Amounts) -> Amounts {
    Amounts {
        grain: Some(clamped(a.amount_of(ResourceType::Grain) + b.amount_of(ResourceType::Grain)) as i64),
        lumber: Some(clamped(a.amount_of(ResourceType::Lumber) + b.amount_of(ResourceType::Lumber)) as i64),
        stone: Some(clamped(a.amount_of(ResourceType::Stone) + b.amount_of(ResourceType::Stone)) as i64),
        gold: Some(clamped(a.amount_of(ResourceType::Gold) + b.amount_of(ResourceType::Gold)) as i64),
    }
}

/// The income of an empire from its provinces: the provinces' net incomes
/// summed in order; no entry at all where it holds no province.
pub open spec fn empire_net_income(provinces: Seq<&Province>) -> Amounts
    decreases provinces.len(),
{
    if provinces.len() == 0 {
        Amounts { grain: None, lumber: None, stone: None, gold: None }
    } else {
        let p = provinces.last();
        summed(empire_net_income(provinces.drop_last()), province_net(p@.income, p@.upkeep))
    }
}

/// What one province adds to its empire's income.
fn net_of(income: &Amounts, upkeep: &Amounts) -> (r: Amounts)
    ensures
        r == province_net(*income, *upkeep),
{
    Amounts {
        grain: Some(sub_amount(income.amount(ResourceType::Grain), upkeep.amount(ResourceType::Grain))),
        lumber: Some(sub_amount(income.amount(ResourceType::Lumber), upkeep.amount(ResourceType::Lumber))),
        stone: Some(sub_amount(income.amount(ResourceType::Stone), upkeep.amount(ResourceType::Stone))),
        gold: Some(sub_amount(income.amount(ResourceType::Gold), upkeep.amount(ResourceType::Gold))),
    }
}

/// Two tables summed kind by kind.
fn sum_of(a: &Amounts, b: &Amounts) -> (r: Amounts)
    ensures
        r == summed(*a, *b),
{
    Amounts {
        grain: Some(add_amount(a.amount(ResourceType::Grain), b.amount(ResourceType::Grain))),
        lumber: Some(add_amount(a.amount(ResourceType::Lumber), b.amount(ResourceType::Lumber))),
        stone: Some(add_amount(a.amount(ResourceType::Stone), b.amount(ResourceType::Stone))),
        gold: Some(add_amount(a.amount(ResourceType::Gold), b.amount(ResourceType::Gold))),
    }
}

/// Sets an empire's income from the provinces it holds.
pub fn calculate_empire_resource_net_income(empire: &mut Empire, provinces: &[&Province])
    ensures
        *final(empire) == (Empire { resource_income: empire_net_income(provinces@), ..*old(empire) }),
{
    let mut total = Amounts::new();
    let n = provinces.len();
    let mut i: usize = 0;
    while i < n
        invariant
            n == provinces@.len(),
            i <= n,
            total == empire_net_income(provinces@.take(i as int)),
        decreases n - i,
    {
        let p = provinces[i];
        let net = net_of(p.get_income(), p.get_upkeep());
        total = sum_of(&total, &net);
        proof {
            assert(provinces@.take(i + 1).drop_last() == provinces@.take(i as int));
        }
        i += 1;
    }
    assert(provinces@.take(n as int) == provinces@);
    empire.resource_income = total;
}

/// The people that an empire's provinces add per turn.
pub open spec fn pops_growth(provinces: Seq<&Province>) -> int
    decreases provinces.len(),
{
    if provinces.len() == 0 {
        0
    } else {
        let p = provinces.last()@;
        pops_growth(provinces.drop_last()) + if p.max_pops - p.pops < 1 { p.max_pops - p.pops } else { 1 }
    }
}

/// The soldiers that an empire's castles hold: the residents their houses
/// hold.
pub open spec fn castle_room(provinces: Seq<&Province>) -> int
    decreases provinces.len(),
{
    if provinces.len() == 0 {
        0
    } else {
        let p = provinces.last()@;
        castle_room(provinces.drop_last()) + if p.castle { p.max_pops as int } else { 0 }
    }
}

proof fn lemma_pops_growth_prefix(provinces: Seq<&Province>, i: int)
    requires
        0 <= i <= provinces.len(),
        forall|j: int| 0 <= j < provinces.len() ==> #[trigger] provinces[j]@.pops <= provinces[j]@.max_pops,
    ensures
        0 <= pops_growth(provinces.take(i)) <= pops_growth(provinces),
    decreases provinces.len() - i,
{
    if i < provinces.len() {
        lemma_pops_growth_prefix(provinces, i + 1);
        assert(provinces.take(i + 1).drop_last() == provinces.take(i));
        assert(provinces.take(i + 1).last() == provinces[i]);
    } else {
        assert(provinces.take(i) == provinces);
    }
    assert forall|j: int| 0 <= j < provinces.take(i).len() implies #[trigger] provinces.take(i)[j]@.pops
        <= provinces.take(i)[j]@.max_pops by {
        assert(provinces.take(i)[j] == provinces[j]);
    }
    lemma_pops_growth_nonneg(provinces.take(i));
}

proof fn lemma_pops_growth_nonneg(provinces: Seq<&Province>)
    requires
        forall|j: int| 0 <= j < provinces.len() ==> #[trigger] provinces[j]@.pops <= provinces[j]@.max_pops,
    ensures
        0 <= pops_growth(provinces),
    decreases provinces.len(),
{
    if provinces.len() > 0 {
        assert forall|j: int| 0 <= j < provinces.drop_last().len() implies #[trigger] provinces.drop_last()[j]@.pops
            <= provinces.drop_last()[j]@.max_pops by {
            assert(provinces.drop_last()[j] == provinces[j]);
        }
        lemma_pops_growth_nonneg(provinces.drop_last());
        assert(provinces.last() == provinces[provinces.len() - 1]);
    }
}

proof fn lemma_castle_room_nonneg(provinces: Seq<&Province>)
    ensures
        0 <= castle_room(provinces),
    decreases provinces.len(),
{
    if provinces.len() > 0 {
        lemma_castle_room_nonneg(provinces.drop_last());
    }
}

proof fn lemma_castle_room_prefix(provinces: Seq<&Province>, i: int)
    requires
        0 <= i <= provinces.len(),
    ensures
        0 <= castle_room(provinces.take(i)) <= castle_room(provinces),
    decreases provinces.len() - i,
{
    if i < provinces.len() {
        lemma_castle_room_prefix(provinces, i + 1);
        assert(provinces.take(i + 1).drop_last() == provinces.take(i));
    } else {
        assert(provinces.take(i) == provinces);
    }
    lemma_castle_room_nonneg(provinces.take(i));
}

/// Sets an empire's growth in people and the soldiers its castles hold
/// from the provinces it holds.
pub fn calculate_empire_pops_income(empire: &mut Empire, provinces: &[&Province])
    requires
        forall|i: int| 0 <= i < provinces@.len() ==> #[trigger] provinces@[i]@.pops <= provinces@[i]@.max_pops,
        pops_growth(provinces@) <= u32::MAX,
        castle_room(provinces@) <= u32::MAX,
    ensures
        *final(empire) == (Empire {
            pops_income: pops_growth(provinces@) as u32,
            max_soldiers: castle_room(provinces@) as u32,
            ..*old(empire)
        }),
{
    let n = provinces.len();
    let mut growth: u32 = 0;
    let mut room: u32 = 0;
    let mut i: usize = 0;
    while i < n
        invariant
            n == provinces@.len(),
            n <= usize::MAX,
            i <= n,
            forall|j: int| 0 <= j < provinces@.len() ==> #[trigger] provinces@[j]@.pops <= provinces@[j]@.max_pops,
            castle_room(provinces@) <= u32::MAX,
            pops_growth(provinces@) <= u32::MAX,
            growth == pops_growth(provinces@.take(i as int)),
            room == castle_room(provinces@.take(i as int)),
        decreases n - i,
    {
        let p = provinces[i];
        proof {
            assert(provinces@.take(i + 1).drop_last() == provinces@.take(i as int));
            assert(provinces@.take(i + 1).last() == p);
            lemma_castle_room_prefix(provinces@, i + 1);
            lemma_pops_growth_prefix(provinces@, i + 1);
        }
        let g = p.get_pops_income();
        growth = growth + g;
        if p.has_castle() {
            room = room + p.get_max_pops();
        }
        i += 1;
    }
    assert(provinces@.take(n as int) == provinces@);
    empire.pops_income = growth;
    empire.max_soldiers = room;
}

} // verus!
