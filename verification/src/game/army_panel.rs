//! The armies panel of a picked province: what it shows of the soldiers
//! waiting there and of the player's armies stationed there, and the
//! soldiers that the player's keys move between the two.
use vstd::prelude::*;
use vstd::string::StringExecFns;
use crate::game::army::{Army, ArmyView};
use crate::game::panels::{army_cursor, cursor_after};
use crate::game::province::{Province, ProvinceView};
use crate::text::{decimal, i64_text};

verus! {

/// The title of an army: "Army", its number and its kind in brackets.
pub open spec fn army_title(a: ArmyView) -> Seq<char> {
    "Army "@ + decimal(a.id as int) + " ("@ + "Infantry"@ + ")"@
}

/// What follows the size of an army that moved this turn.
pub open spec fn moved_mark(moved: bool) -> Seq<char> {
    if moved {
        " (moved)"@
    } else {
        Seq::empty()
    }
}

/// The line of the list about one army: its title, its size and whether
/// it moved.
pub open spec fn army_line(a: ArmyView) -> Seq<char> {
    army_title(a) + ": "@ + decimal(a.soldiers.len() as int) + " units"@ + moved_mark(a.moved) + "\n"@
}

/// The line about the picked army, with the keys that change it.
pub open spec fn selected_text(a: ArmyView) -> Seq<char> {
    army_title(a) + ": "@ + decimal(a.soldiers.len() as int) + " units"@ + moved_mark(a.moved)
        + " (H/L to remove/add units)"@
}

/// The count of the soldiers that wait outside any army, by kind (all
/// soldiers are infantry).
pub open spec fn unassigned_text(n: int) -> Seq<char> {
    "Unassigned units:\n"@ + "Infantry: "@ + decimal(n) + "\n"@
}

/// The head of the list of armies.
pub open spec fn list_head() -> Seq<char> {
    "Stationed armies: (K - up, J - down, M - move)\n"@
}

/// The places, in order, of the armies among the first `n` of `armies`
/// that the empire whose entity is `player` owns.
pub open spec fn player_positions(armies: Seq<Army>, player: u64, n: int) -> Seq<int>
    decreases n,
{
    if n <= 0 {
        Seq::empty()
    } else {
        let before = player_positions(armies, player, n - 1);
        if armies[n - 1]@.empire == player {
            before.push(n - 1)
        } else {
            before
        }
    }
}

/// The lines about the armies at places `pos[lo]` to `pos[hi - 1]`.
pub open spec fn army_lines(armies: Seq<Army>, pos: Seq<int>, lo: int, hi: int) -> Seq<char>
    decreases hi - lo,
{
    if hi <= lo {
        Seq::empty()
    } else {
        army_lines(armies, pos, lo, hi - 1) + army_line(armies[pos[hi - 1]]@)
    }
}

/// Whether the picked army gives its last soldier back to the province:
/// it has not moved, keeps one soldier at least, and the remove key was
/// released.
pub open spec fn gives_back(a: ArmyView, remove: bool) -> bool {
    !a.moved && a.soldiers.len() > 1 && remove
}

/// Whether the picked army takes a waiting soldier instead: it has not
/// moved and the add key was released.
pub open spec fn takes_in(a: ArmyView, remove: bool, add: bool) -> bool {
    !gives_back(a, remove) && !a.moved && add
}

proof fn lemma_positions_in_range(armies: Seq<Army>, player: u64, n: int)
    requires
        0 <= n,
    ensures
        player_positions(armies, player, n).len() <= n,
        forall|k: int|
            0 <= k < player_positions(armies, player, n).len() ==> 0 <= #[trigger] player_positions(
                armies,
                player,
                n,
            )[k] < n,
    decreases n,
{
    if n > 0 {
        lemma_positions_in_range(armies, player, n - 1);
    }
}

/// The places of the player's armies.
fn positions_of(armies: &Vec<Army>, player: u64) -> (pos: Vec<usize>)
    ensures
        pos@.len() == player_positions(armies@, player, armies@.len() as int).len(),
        forall|k: int|
            0 <= k < pos@.len() ==> #[trigger] pos@[k] as int == player_positions(
                armies@,
                player,
                armies@.len() as int,
            )[k],
{
    let mut pos: Vec<usize> = Vec::new();
    let mut i: usize = 0;
    while i < armies.len()
        invariant
            i <= armies@.len(),
            pos@.len() == player_positions(armies@, player, i as int).len(),
            forall|k: int|
                0 <= k < pos@.len() ==> #[trigger] pos@[k] as int == player_positions(armies@, player, i as int)[k],
        decreases armies@.len() - i,
    {
        if armies[i].empire() == player {
            pos.push(i);
        }
        i += 1;
    }
    pos
}

/// The line about one army.
fn army_line_text(a: &Army) -> (s: String)
    requires
        a@.soldiers.len() <= i64::MAX,
    ensures
        s@ == army_line(a@),
{
    let mut s = a.label();
    s.append(": ");
    s.append(i64_text(a.soldier_count() as i64).as_str());
    s.append(" units");
    if a.moved() {
        s.append(" (moved)");
    }
    s.append("\n");
    s
}

/// The lines about the armies at places `pos[lo]` to `pos[hi - 1]`.
fn army_lines_text(armies: &Vec<Army>, pos: &Vec<usize>, lo: usize, hi: usize, Ghost(pp): Ghost<Seq<int>>) -> (s:
    String)
    requires
        lo <= hi <= pos@.len(),
        pos@.len() == pp.len(),
        forall|k: int| 0 <= k < pos@.len() ==> #[trigger] pos@[k] as int == pp[k],
        forall|k: int| 0 <= k < pos@.len() ==> #[trigger] pos@[k] < armies@.len(),
        forall|i: int| 0 <= i < armies@.len() ==> #[trigger] armies@[i]@.soldiers.len() <= i64::MAX,
    ensures
        s@ == army_lines(armies@, pp, lo as int, hi as int),
{
    let mut s = String::new();
    let mut k: usize = lo;
    while k < hi
        invariant
            lo <= k <= hi,
            hi <= pos@.len(),
            pos@.len() == pp.len(),
            forall|j: int| 0 <= j < pos@.len() ==> #[trigger] pos@[j] as int == pp[j],
            forall|j: int| 0 <= j < pos@.len() ==> #[trigger] pos@[j] < armies@.len(),
            forall|i: int| 0 <= i < armies@.len() ==> #[trigger] armies@[i]@.soldiers.len() <= i64::MAX,
            s@ == army_lines(armies@, pp, lo as int, k as int),
        decreases hi - k,
    {
        let at = pos[k];
        assert(pos@[k as int] as int == pp[k as int]);
        let line = army_line_text(&armies[at]);
        s.append(line.as_str());
        k += 1;
    }
    s
}

/// What the armies panel shows: the number of the player's armies in the
/// province, the picked one, the waiting soldiers, the list of armies
/// before, at and after the picked one, and whether the disband and create
/// buttons are enabled.
pub struct ArmiesPanel {
    pub armies: u32,
    pub curr_army: u32,
    pub unassigned: String,
    pub before: String,
    pub selected: String,
    pub after: String,
    pub disband_enabled: bool,
    pub create_enabled: bool,
}

/// The armies panel of a picked province, with the `armies` stationed
/// there, for the player's empire (entity `player`), the cursor `current`
/// and the keys released this frame: up, down, remove a soldier from the
/// picked army, add one to it.
///
/// The panel is hidden (`None`) over a province another empire holds, and
/// where neither waiting soldiers nor armies of the player are found.
/// Otherwise the cursor moves as `army_cursor` says, and a picked army
/// that has not moved gives back its last soldier (while it keeps one) or
/// takes the first waiting soldier. Nothing else changes.
pub fn armies_panel(
    province: &mut Province,
    armies: &mut Vec<Army>,
    player: u64,
    held_by_other: bool,
    current: u32,
    up: bool,
    down: bool,
    remove: bool,
    add: bool,
) -> (p: Option<ArmiesPanel>)
    requires
        old(armies)@.len() <= u32::MAX,
        old(province)@.soldiers.len() <= i64::MAX,
        forall|i: int| 0 <= i < old(armies)@.len() ==> #[trigger] old(armies)@[i]@.soldiers.len() <= i64::MAX,
        ({
            let count = player_positions(old(armies)@, player, old(armies)@.len() as int).len();
            !held_by_other && count > 0 ==> cursor_after(current, count as u32, up, down) < count
        }),
    ensures
        ({
            let before_armies = old(armies)@;
            let pp = player_positions(before_armies, player, before_armies.len() as int);
            let count = pp.len();
            let ps = old(province)@.soldiers;
            if held_by_other || (ps.len() == 0 && count == 0) {
                &&& p is None
                &&& final(province)@ == old(province)@
                &&& final(armies)@ == before_armies
            } else if count == 0 {
                &&& p matches Some(q) && q.armies == 0 && q.curr_army == cursor_after(current, 0, up, down)
                    && q.unassigned@ == unassigned_text(ps.len() as int) && q.before@
                    == "(No armies stationed here)"@ && q.selected@ == Seq::<char>::empty() && q.after@
                    == Seq::<char>::empty() && !q.disband_enabled && q.create_enabled
                &&& final(province)@ == old(province)@
                &&& final(armies)@ == before_armies
            } else {
                let c = cursor_after(current, count as u32, up, down);
                let sel = pp[c];
                let a = before_armies[sel]@;
                &&& p matches Some(q) && q.armies == count && q.curr_army == c && q.unassigned@
                    == unassigned_text(ps.len() as int) && q.before@ == list_head() + army_lines(
                    before_armies,
                    pp,
                    0,
                    c,
                ) && q.selected@ == selected_text(a) && q.after@ == army_lines(
                    before_armies,
                    pp,
                    c + 1,
                    count as int,
                ) && q.disband_enabled == !a.moved && q.create_enabled == (final(province)@.soldiers.len() > 0)
                &&& final(armies)@.len() == before_armies.len()
                &&& forall|i: int|
                    0 <= i < before_armies.len() && i != sel ==> #[trigger] final(armies)@[i] == before_armies[i]
                &&& final(armies)@[sel]@ == if gives_back(a, remove) {
                    ArmyView { soldiers: a.soldiers.drop_last(), ..a }
                } else if takes_in(a, remove, add) && ps.len() > 0 {
                    ArmyView { soldiers: a.soldiers.push(ps[0]), ..a }
                } else {
                    a
                }
                &&& final(province)@ == if gives_back(a, remove) {
                    ProvinceView { soldiers: ps.push(a.soldiers.last()), ..old(province)@ }
                } else if takes_in(a, remove, add) && ps.len() > 0 {
                    ProvinceView { soldiers: ps.subrange(1, ps.len() as int), ..old(province)@ }
                } else {
                    old(province)@
                }
            }
        }),
{
    if held_by_other {
        return None;
    }
    let pos = positions_of(armies, player);
    let ghost pp = player_positions(armies@, player, armies@.len() as int);
    proof {
        lemma_positions_in_range(armies@, player, armies@.len() as int);
    }
    let count = pos.len();
    let waiting = province.soldier_count();
    if waiting == 0 && count == 0 {
        return None;
    }
    let mut unassigned = String::from_str("Unassigned units:\n");
    unassigned.append("Infantry: ");
    unassigned.append(i64_text(waiting as i64).as_str());
    unassigned.append("\n");
    let n = count as u32;
    let c = army_cursor(current, n, up, down);
    if count == 0 {
        return Some(
            ArmiesPanel {
                armies: 0,
                curr_army: c,
                unassigned,
                before: String::from_str("(No armies stationed here)"),
                selected: String::new(),
                after: String::new(),
                disband_enabled: false,
                create_enabled: true,
            },
        );
    }
    let cu = c as usize;
    assert(forall|k: int| 0 <= k < pos@.len() ==> #[trigger] pos@[k] < armies@.len()) by {
        assert forall|k: int| 0 <= k < pos@.len() implies #[trigger] pos@[k] < armies@.len() by {
            assert(pos@[k] as int == pp[k]);
        }
    }
    let mut before = String::from_str("Stationed armies: (K - up, J - down, M - move)\n");
    let head = army_lines_text(armies, &pos, 0, cu, Ghost(pp));
    before.append(head.as_str());
    let after = army_lines_text(armies, &pos, cu + 1, count, Ghost(pp));
    let sel = pos[cu];
    assert(sel as int == pp[c as int]);
    let ghost old_armies = armies@;
    let mut army = armies.remove(sel);
    let moved = army.moved();
    let mut selected = army.label();
    selected.append(": ");
    selected.append(i64_text(army.soldier_count() as i64).as_str());
    selected.append(" units");
    if moved {
        selected.append(" (moved)");
    }
    selected.append(" (H/L to remove/add units)");
    if !moved && army.soldier_count() > 1 && remove {
        if let Some(s) = army.try_remove_soldier() {
            province.add_soldier(s);
        }
    } else if !moved && add {
        let kind = army.soldier_type();
        let ghost ps = province@.soldiers;
        let taken = province.try_remove_soldier_type(&kind);
        match taken {
            Some(s) => {
                proof {
                    let i = choose|i: int|
                        0 <= i < ps.len() && s == ps[i] && s.stype == kind && (forall|j: int|
                            0 <= j < i ==> ps[j].stype != kind) && province@ == (ProvinceView {
                            soldiers: ps.remove(i),
                            ..old(province)@
                        });
                    if i > 0 {
                        assert(ps[0].stype == kind);
                    }
                    assert(ps.remove(0) =~= ps.subrange(1, ps.len() as int));
                }
                let _ = army.try_add_soldier(s);
            },
            None => {
                proof {
                    if ps.len() > 0 {
                        assert(ps[0].stype == kind);
                    }
                }
            },
        }
    }
    armies.insert(sel, army);
    proof {
        assert forall|i: int| 0 <= i < old_armies.len() && i != sel implies #[trigger] armies@[i] == old_armies[i] by {
            if i < sel {
                assert(armies@[i] == old_armies.remove(sel as int)[i]);
            } else {
                assert(armies@[i] == old_armies.remove(sel as int)[i - 1]);
            }
        }
    }
    Some(
        ArmiesPanel {
            armies: n,
            curr_army: c,
            unassigned,
            before,
            selected,
            after,
            disband_enabled: !moved,
            create_enabled: province.soldier_count() > 0,
        },
    )
}

} // verus!
