//! What happens when an army marches into a province: the decision to
//! fight, the battle, and the move.
use vstd::prelude::*;
use crate::game::army::{Army, ArmyView};
use crate::game::empire::Empires;
use crate::game::province::{Province, ProvinceView};

verus! {

/// The smaller of two integers.
pub open spec fn least(a: int, b: int) -> int {
    if a < b {
        a
    } else {
        b
    }
}

/// The attackers still fighting once the first `k` defending armies were
/// met: each defending army stops as many attackers as it has soldiers.
pub open spec fn attackers_left(attack: int, sizes: Seq<int>, k: int) -> int
    decreases k,
{
    if k <= 0 {
        attack
    } else {
        let before = attackers_left(attack, sizes, k - 1);
        before - least(sizes[k - 1], before)
    }
}

/// The soldiers that defending army `k` trades with the attackers.
pub open spec fn traded(attack: int, sizes: Seq<int>, k: int) -> int {
    least(sizes[k], attackers_left(attack, sizes, k))
}

/// What is left of an army of `size` soldiers that traded `t` of them: the
/// traded soldiers go, and as many more again where there are.
pub open spec fn survivors(size: int, t: int) -> int {
    size - t - least(t, size - t)
}

/// A province's residents once `m` of them are asked to leave, one at a
/// time, where one always stays.
pub open spec fn after_departures(pops: int, m: int) -> int {
    if pops <= 1 {
        pops
    } else if pops - m < 1 {
        1
    } else {
        pops - m
    }
}

/// The residents that the destination loses over the first `k` defending
/// armies: for each, one per soldier beyond the traded ones that still
/// stood to be taken.
pub open spec fn defender_departures(attack: int, sizes: Seq<int>, k: int) -> int
    decreases k,
{
    if k <= 0 {
        0
    } else {
        defender_departures(attack, sizes, k - 1) + least(
            traded(attack, sizes, k - 1),
            sizes[k - 1] - traded(attack, sizes, k - 1),
        )
    }
}

/// The soldier counts of a list of armies.
pub open spec fn sizes_of(armies: Seq<Army>) -> Seq<int> {
    Seq::new(armies.len(), |i: int| armies[i]@.soldiers.len() as int)
}

/// How a march ended.
#[derive(Debug)]
pub enum MoveOutcome {
    /// The province belongs to an empire that the army's empire is not at
    /// war with: nothing happened.
    Refused,
    /// The army entered without a fight; `occupied` says whether it took a
    /// foreign province, `relocated` whether it had soldiers to move.
    Entered { occupied: bool, relocated: bool },
    /// The army fought the armies stationed there. `defeated` lists the
    /// defending armies (by position) that lost every soldier; where
    /// `survived`, the army took the province.
    Fought { defeated: Vec<usize>, survived: bool },
}

/// The defending armies that lost every soldier, by position.
pub open spec fn is_defeated(attack: int, old_sizes: Seq<int>, defenders: Seq<Army>, i: int) -> bool {
    attackers_left(attack, old_sizes, i) > 0 && defenders[i]@.soldiers.len() == 0
}

/// The outcome of a battle: `attacker`, `defenders`, `source` and
/// `destination` before it, `attacker2` and the rest after it, and the
/// positions of the defending armies left without soldiers.
pub open spec fn fought(
    attacker: ArmyView,
    defenders: Seq<Army>,
    source: ProvinceView,
    destination: ProvinceView,
    attacker2: ArmyView,
    defenders2: Seq<Army>,
    source2: ProvinceView,
    destination2: ProvinceView,
    defeated: Seq<usize>,
) -> bool {
    let a = attacker.soldiers.len() as int;
    let sizes = sizes_of(defenders);
    let n = sizes.len() as int;
    let killed = a - attackers_left(a, sizes, n);
    &&& defenders2.len() == defenders.len()
    &&& forall|i: int|
        0 <= i < n ==> #[trigger] defenders2[i]@ == (ArmyView {
            soldiers: defenders[i]@.soldiers.take(survivors(sizes[i], traded(a, sizes, i))),
            ..defenders[i]@
        })
    &&& attacker2 == (ArmyView { soldiers: attacker.soldiers.take(survivors(a, killed)), ..attacker })
    &&& destination2 == (ProvinceView {
        pops: after_departures(destination.pops as int, defender_departures(a, sizes, n)) as u32,
        ..destination
    })
    &&& source2 == (ProvinceView { pops: after_departures(source.pops as int, killed) as u32, ..source })
    &&& forall|j: int| 0 <= j < defeated.len() ==> 0 <= #[trigger] defeated[j] < n
    &&& forall|i: int| 0 <= i < n ==> (defeated.contains(i as usize) <==> is_defeated(a, sizes, defenders2, i))
    &&& forall|j: int, k: int| 0 <= j < k < defeated.len() ==> defeated[j] < defeated[k]
}

/// The battle between an attacking army and the armies stationed in the
/// province it enters. Defending armies meet the attackers in order; each
/// trades as many soldiers as it has, or as attackers are left, and loses
/// them and as many more again where it has them, each extra loss sending
/// one resident of `destination` away. The attackers that fell go from the
/// attacking army in the same way, sending residents of `source` away.
/// Gives the positions of the defending armies left without soldiers.
pub fn battle(
    attacker: &mut Army,
    defenders: &mut Vec<Army>,
    source: &mut Province,
    destination: &mut Province,
) -> (defeated: Vec<usize>)
    ensures
        fought(
            old(attacker)@,
            old(defenders)@,
            old(source)@,
            old(destination)@,
            final(attacker)@,
            final(defenders)@,
            final(source)@,
            final(destination)@,
            defeated@,
        ),
{
    let ghost a = attacker@.soldiers.len() as int;
    let ghost sizes = sizes_of(defenders@);
    let ghost start_defenders = defenders@;
    let ghost dest_pops = destination@.pops as int;
    let n = defenders.len();
    let mut attack_count = attacker.soldier_count();
    let mut defeated: Vec<usize> = Vec::new();
    let mut i: usize = 0;
    while i < n
        invariant
            n == defenders@.len(),
            n == sizes.len(),
            i <= n,
            sizes == sizes_of(start_defenders),
            start_defenders.len() == n,
            attacker@ == old(attacker)@,
            source@ == old(source)@,
            a == attacker@.soldiers.len(),
            attack_count == attackers_left(a, sizes, i as int),
            0 <= attack_count <= a,
            forall|j: int|
                0 <= j < i ==> #[trigger] defenders@[j]@ == (ArmyView {
                    soldiers: start_defenders[j]@.soldiers.take(survivors(sizes[j], traded(a, sizes, j))),
                    ..start_defenders[j]@
                }),
            forall|j: int| i <= j < n ==> #[trigger] defenders@[j] == start_defenders[j],
            destination@ == (ProvinceView {
                pops: after_departures(dest_pops, defender_departures(a, sizes, i as int)) as u32,
                ..old(destination)@
            }),
            dest_pops == old(destination)@.pops,
            0 <= defender_departures(a, sizes, i as int),
            forall|k: int| 0 <= k < defeated@.len() ==> 0 <= #[trigger] defeated@[k] < i,
            forall|j: int|
                0 <= j < i ==> (defeated@.contains(j as usize) <==> is_defeated(a, sizes, defenders@, j)),
            forall|j: int, k: int| 0 <= j < k < defeated@.len() ==> defeated@[j] < defeated@[k],
        decreases n - i,
    {
        let ghost outer = defenders@;
        let ghost start = start_defenders[i as int]@.soldiers;
        let ghost size = sizes[i as int];
        let ghost left = attack_count as int;
        let ghost old_defeated = defeated@;
        proof {
            assert(defenders@[i as int] == start_defenders[i as int]);
            assert(size == start.len());
        }
        if attack_count > 0 {
            let removed = defenders[i].try_remove_soldiers(attack_count);
            attack_count -= removed;
            let mut k: usize = 0;
            while k < removed
                invariant
                    i < n,
                    n == defenders@.len(),
                    n == start_defenders.len(),
                    n == outer.len(),
                    k <= removed,
                    removed == least(size, left),
                    0 <= defender_departures(a, sizes, i as int),
                    0 <= dest_pops <= u32::MAX,
                    size == start.len(),
                    removed <= size,
                    defenders@[i as int]@ == (ArmyView {
                        soldiers: start.take(size - removed - least(k as int, size - removed)),
                        ..start_defenders[i as int]@
                    }),
                    forall|j: int| 0 <= j < n && j != i ==> #[trigger] defenders@[j] == outer[j],
                    destination@ == (ProvinceView {
                        pops: after_departures(
                            dest_pops,
                            defender_departures(a, sizes, i as int) + least(k as int, size - removed),
                        ) as u32,
                        ..old(destination)@
                    }),
                decreases removed - k,
            {
                let ghost before = defenders@[i as int]@.soldiers;
                let ghost pops_before = destination@.pops as int;
                match defenders[i].try_remove_soldier() {
                    Some(_) => {
                        destination.try_remove_pop();
                        proof {
                            assert(before.len() > 0);
                            assert(k < size - removed);
                            assert(least(k + 1, size - removed) == least(k as int, size - removed) + 1);
                            assert(before.drop_last() == start.take(before.len() - 1));
                            lemma_departure_step(
                                dest_pops,
                                defender_departures(a, sizes, i as int) + least(k as int, size - removed),
                            );
                        }
                    },
                    None => {
                        proof {
                            assert(before.len() == 0);
                            assert(least(k + 1, size - removed) == least(k as int, size - removed));
                        }
                    },
                }
                k += 1;
            }
            if defenders[i].soldier_count() == 0 {
                defeated.push(i);
            }
        } else {
            proof {
                assert(start.take(size) == start);
            }
        }
        proof {
            assert(traded(a, sizes, i as int) == least(size, left));
            assert(0 <= least(size, left) <= size);
            assert(defenders@[i as int]@ == (ArmyView {
                soldiers: start.take(survivors(size, traded(a, sizes, i as int))),
                ..start_defenders[i as int]@
            }));
            assert forall|k: int| 0 <= k < defeated@.len() implies 0 <= #[trigger] defeated@[k] < i + 1 by {
                if k < old_defeated.len() {
                    assert(defeated@[k] == old_defeated[k]);
                }
            }
            assert forall|j: int| 0 <= j < i + 1 implies (defeated@.contains(j as usize) <==> is_defeated(
                a,
                sizes,
                defenders@,
                j,
            )) by {
                if j < i {
                    assert(defenders@[j] == outer[j]);
                    assert(old_defeated.contains(j as usize) <==> is_defeated(a, sizes, outer, j));
                    assert(is_defeated(a, sizes, outer, j) == is_defeated(a, sizes, defenders@, j));
                    if old_defeated.contains(j as usize) {
                        let x = choose|x: int| 0 <= x < old_defeated.len() && old_defeated[x] == j as usize;
                        assert(defeated@[x] == j as usize);
                    }
                    if defeated@.contains(j as usize) {
                        let x = choose|x: int| 0 <= x < defeated@.len() && defeated@[x] == j as usize;
                        if x < old_defeated.len() {
                            assert(old_defeated[x] == j as usize);
                        }
                    }
                } else {
                    assert(j as usize == i);
                    if old_defeated.contains(i) {
                        let x = choose|x: int| 0 <= x < old_defeated.len() && old_defeated[x] == i;
                        assert(old_defeated[x] < i);
                        assert(false);
                    }
                    if is_defeated(a, sizes, defenders@, j) {
                        assert(left > 0);
                        assert(defeated@ == old_defeated.push(i));
                        assert(defeated@[defeated@.len() - 1] == i);
                        assert(defeated@.contains(i));
                    } else {
                        assert(defeated@ == old_defeated);
                    }
                }
            }
            assert forall|x: int, y: int| 0 <= x < y < defeated@.len() implies defeated@[x] < defeated@[y] by {
                if y < old_defeated.len() {
                    assert(defeated@[x] == old_defeated[x] && defeated@[y] == old_defeated[y]);
                } else {
                    assert(defeated@[x] == old_defeated[x]);
                }
            }
        }
        i += 1;
    }
    proof {
        assert(attacker@.soldiers.take(a) == attacker@.soldiers);
    }
    let army_count = attacker.soldier_count();
    let killed_attackers = army_count - attack_count;
    let mut k: usize = 0;
    while k < killed_attackers
        invariant
            k <= killed_attackers,
            killed_attackers <= a,
            a == old(attacker)@.soldiers.len(),
            attacker@ == (ArmyView { soldiers: old(attacker)@.soldiers.take(a - k), ..old(attacker)@ }),
            source@ == (ProvinceView {
                pops: after_departures(old(source)@.pops as int, k as int) as u32,
                ..old(source)@
            }),
        decreases killed_attackers - k,
    {
        let ghost before = attacker@.soldiers;
        match attacker.try_remove_soldier() {
            Some(_) => {
                source.try_remove_pop();
            },
            None => {},
        }
        proof {
            assert(before.drop_last() == old(attacker)@.soldiers.take(a - k - 1));
        }
        k += 1;
    }
    attacker.try_remove_soldiers(killed_attackers);
    proof {
        assert(old(attacker)@.soldiers.take(a - killed_attackers).take(
            survivors(a, killed_attackers as int),
        ) == old(attacker)@.soldiers.take(survivors(a, killed_attackers as int)));
    }
    defeated
}

proof fn lemma_departure_step(p: int, m: int)
    ensures
        after_departures(p, m + 1) == if after_departures(p, m) > 1 {
            after_departures(p, m) - 1
        } else {
            after_departures(p, m)
        },
{
}


/// Whether the march of an army of empire `mover` (entity `mover_entity`)
/// into a province held by `controller` (entity and id) is refused: the
/// province belongs to another empire, and the two are not at war.
pub open spec fn refused(
    diplomacy: crate::game::empire::EmpiresView,
    mover: u32,
    mover_entity: u64,
    controller: Option<(u64, u32)>,
) -> bool {
    match controller {
        Some((owner, owner_id)) => owner != mover_entity && !diplomacy.war.contains(
            crate::game::empire::ordered(mover, owner_id),
        ),
        None => false,
    }
}

/// An army of empire `mover_id` marches from `source` into `destination`,
/// which `controller` (entity and id) may hold and `defenders` guard.
/// Into a province of another empire it may only march at war; there it
/// fights the defending armies, or occupies the province where none stand.
/// An army with soldiers left is then marked as moved.
pub fn move_army(
    army: &mut Army,
    mover_id: u32,
    controller: Option<(u64, u32)>,
    diplomacy: &Empires,
    defenders: &mut Vec<Army>,
    source: &mut Province,
    destination: &mut Province,
) -> (outcome: MoveOutcome)
    ensures
        refused(diplomacy@, mover_id, old(army)@.empire, controller) <==> outcome is Refused,
        outcome is Refused ==> {
            &&& final(army)@ == old(army)@
            &&& final(defenders)@ == old(defenders)@
            &&& final(source)@ == old(source)@
            &&& final(destination)@ == old(destination)@
        },
        !refused(diplomacy@, mover_id, old(army)@.empire, controller) ==> {
            let foreign = match controller {
                Some((owner, _)) => owner != old(army)@.empire,
                None => false,
            };
            match outcome {
                MoveOutcome::Refused => false,
                MoveOutcome::Entered { occupied, relocated } => {
                    &&& !(foreign && old(defenders)@.len() > 0)
                    &&& occupied == foreign
                    &&& relocated == (old(army)@.soldiers.len() > 0)
                    &&& final(army)@ == (ArmyView { moved: old(army)@.moved || relocated, ..old(army)@ })
                    &&& final(defenders)@ == old(defenders)@
                    &&& final(source)@ == old(source)@
                    &&& final(destination)@ == old(destination)@
                },
                MoveOutcome::Fought { defeated, survived } => {
                    &&& foreign && old(defenders)@.len() > 0
                    &&& survived == (final(army)@.soldiers.len() > 0)
                    &&& final(army)@.moved == (old(army)@.moved || survived)
                    &&& fought(
                        old(army)@,
                        old(defenders)@,
                        old(source)@,
                        old(destination)@,
                        ArmyView { moved: old(army)@.moved, ..final(army)@ },
                        final(defenders)@,
                        final(source)@,
                        final(destination)@,
                        defeated@,
                    )
                },
            }
        },
{
    let foreign = match controller {
        Some((owner, owner_id)) => {
            if owner != army.empire() {
                if !diplomacy.at_war(mover_id, owner_id) {
                    return MoveOutcome::Refused;
                }
                true
            } else {
                false
            }
        },
        None => false,
    };
    if foreign && defenders.len() > 0 {
        let defeated = battle(army, defenders, source, destination);
        let survived = army.soldier_count() > 0;
        if survived {
            army.set_moved();
        }
        return MoveOutcome::Fought { defeated, survived };
    }
    let relocated = army.soldier_count() > 0;
    if relocated {
        army.set_moved();
    }
    MoveOutcome::Entered { occupied: foreign, relocated }
}

} // verus!
