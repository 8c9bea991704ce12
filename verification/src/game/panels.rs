//! The decisions behind the game's panels and buttons.
use vstd::prelude::*;
use crate::game::army::{Army, SoldierType};
use crate::game::empire::{covers, ordered, Empire, Empires, EmpiresView, PLAYER_EMPIRE};
use crate::text::{decimal, i64_text};
use vstd::string::StringExecFns;
use crate::game::grid::{borders, neighbors, neighbors_fit, borders_empire, Grid};
use crate::game::province::{house_cost, special_building_for, special_cost, House, Province, ProvinceView, SpecialBuilding, MAX_HOUSES};
use crate::game::resources::Amounts;

verus! {

/// How a button looks.
#[derive(Clone, Copy, Debug, PartialEq, Eq, Structural)]
pub enum ButtonLook {
    Disabled,
    Pressed,
    Hovered,
    Normal,
}

/// How a button looks: disabled above all, pressed while hovered and
/// pressed, hovered while hovered, plain otherwise.
pub fn button_look(disabled: bool, hovered: bool, pressed: bool) -> (l: ButtonLook)
    ensures
        l == if disabled {
            ButtonLook::Disabled
        } else if hovered && pressed {
            ButtonLook::Pressed
        } else if hovered {
            ButtonLook::Hovered
        } else {
            ButtonLook::Normal
        },
{
    match (disabled, hovered, pressed) {
        (true, _, _) => ButtonLook::Disabled,
        (false, true, true) => ButtonLook::Pressed,
        (false, true, false) => ButtonLook::Hovered,
        (false, false, _) => ButtonLook::Normal,
    }
}

/// The place picked in a list of `armies` entries, from `current`, once
/// the up key (`up`) and the down key (`down`) are released: up moves to
/// the previous one, down to the next, and neither goes past the ends.
pub open spec fn cursor_after(current: u32, armies: u32, up: bool, down: bool) -> int {
    let after_up = if up { if current >= 1 { current - 1 } else { 0 } } else { current as int };
    if down && armies > 0 {
        if after_up + 1 < armies - 1 { after_up + 1 } else { armies - 1 }
    } else {
        after_up
    }
}

/// The army picked in the list of `armies` once the up key (`up`) and the
/// down key (`down`) are released.
pub fn army_cursor(current: u32, armies: u32, up: bool, down: bool) -> (c: u32)
    ensures
        c == cursor_after(current, armies, up, down),
{
    let mut c = current;
    if up {
        c = (if c > 1 { c } else { 1 }) - 1;
    }
    if down && armies > 0 {
        let next = c as u64 + 1;
        let last = armies as u64 - 1;
        c = (if next < last { next } else { last }) as u32;
    }
    c
}

/// Whether the player may build a house in a province of theirs: fewer
/// than three stand and the empire can pay for one.
pub fn house_button_enabled(province: &Province, empire: &Empire) -> (r: bool)
    ensures
        r == (province@.house_count < MAX_HOUSES && covers(empire.resource_total, house_cost())),
{
    province.get_houses() < MAX_HOUSES && empire.can_afford(&House::build_cost())
}

/// Whether the player may put up the special building of a province of
/// theirs: the terrain has one and the empire can pay for it.
pub fn special_button_enabled(province: &Province, empire: &Empire) -> (r: bool)
    ensures
        r == match special_building_for(province@.ptype) {
            Some(b) => covers(empire.resource_total, special_cost(b)),
            None => false,
        },
{
    match province.special_building_type() {
        Some(b) => empire.can_afford(&b.build_cost()),
        None => false,
    }
}

/// Whether one of `armies` belongs to the empire whose entity is `player`.
pub open spec fn has_army_of(armies: Seq<Army>, player: u64) -> bool {
    exists|k: int| 0 <= k < armies.len() && #[trigger] armies[k]@.empire == player
}

/// The claim panel of a province that nobody holds, with `armies` standing
/// in it: hidden unless it lies next to land of the player's empire
/// (number `player`, entity `player_entity`) or one of the player's armies
/// stands there; its button enabled when the empire has a free person and
/// the price of a house.
pub fn claim_button_state(
    grid: &Grid,
    hex: (i32, i32),
    player: u32,
    player_entity: u64,
    armies: &[Army],
    empire: &Empire,
) -> (r: Option<bool>)
    requires
        neighbors_fit(hex),
    ensures
        !borders(grid.tiles_spec(), neighbors(hex), player) && !has_army_of(armies@, player_entity) ==> r is None,
        borders(grid.tiles_spec(), neighbors(hex), player) || has_army_of(armies@, player_entity) ==> r == Some(
            covers(empire.resource_total, house_cost()) && empire.pops_free > 0,
        ),
{
    let mut has_army = false;
    let mut k: usize = 0;
    while k < armies.len()
        invariant
            k <= armies@.len(),
            has_army == exists|j: int| 0 <= j < k && #[trigger] armies@[j]@.empire == player_entity,
        decreases armies.len() - k,
    {
        if armies[k].empire() == player_entity {
            has_army = true;
        }
        k += 1;
    }
    if !has_army && !borders_empire(grid, hex, player) {
        return None;
    }
    Some(empire.can_afford(&House::build_cost()) && empire.has_free_pops())
}

/// What the recruiting panel of a province of the player shows.
#[derive(Clone, Copy, Debug, PartialEq, Eq, Structural)]
pub enum RecruitPanel {
    /// A special building other than a castle stands: nothing.
    Hidden,
    /// No special building yet: the castle button, enabled when the empire
    /// can pay for a castle.
    CastleButton { enabled: bool },
    /// A castle stands: the recruit button, enabled when the empire can
    /// pay, has a free person, and the castle has room.
    Recruit { enabled: bool },
}

/// What the recruiting panel of a province of the player shows.
pub fn recruit_panel(province: &Province, empire: &Empire) -> (r: RecruitPanel)
    ensures
        r == if !province@.special_building {
            RecruitPanel::CastleButton { enabled: covers(empire.resource_total, special_cost(SpecialBuilding::Castle)) }
        } else if !province@.castle {
            RecruitPanel::Hidden
        } else {
            RecruitPanel::Recruit {
                enabled: covers(empire.resource_total, Amounts { grain: Some(8), lumber: None, stone: None, gold: Some(0) })
                    && empire.pops_free > 0 && province@.pops < province@.max_pops,
            }
        },
{
    if !province.has_special_building() {
        return RecruitPanel::CastleButton { enabled: empire.can_afford(&SpecialBuilding::Castle.build_cost()) };
    }
    if !province.has_castle() {
        return RecruitPanel::Hidden;
    }
    RecruitPanel::Recruit {
        enabled: empire.can_afford(&SoldierType::Infantry.recruit_cost()) && empire.has_free_pops()
            && province.has_pops_room(),
    }
}

/// The player moves people between their free pool and a province with the
/// plus (`increase`) and minus (`decrease`) keys: one key alone acts, and
/// castles take no residents this way. Gives whether the incomes are to be
/// computed again.
pub fn assign_residents(province: &mut Province, empire: &mut Empire, increase: bool, decrease: bool) -> (acted: bool)
    requires
        old(empire).pops_free < u32::MAX,
    ensures
        acted == ((increase != decrease) && !old(province)@.castle),
        ({
            let p = old(province)@;
            let moves_in = acted && increase && old(empire).pops_free > 0 && p.pops < p.max_pops;
            let moves_out = acted && decrease && p.pops > 1;
            &&& final(province)@ == (ProvinceView {
                pops: if moves_in {
                    (p.pops + 1) as u32
                } else if moves_out {
                    (p.pops - 1) as u32
                } else {
                    p.pops
                },
                ..p
            })
            &&& final(empire).pops_free == if moves_in {
                old(empire).pops_free - 1
            } else if moves_out {
                old(empire).pops_free + 1
            } else {
                old(empire).pops_free as int
            }
            &&& final(empire).resource_total == old(empire).resource_total
        }),
{
    if increase == decrease {
        return false;
    }
    if province.has_castle() {
        return false;
    }
    if increase && empire.has_free_pops() {
        if province.try_add_pop() {
            empire.try_remove_free_pop();
        }
    }
    if decrease && province.try_remove_pop() {
        empire.add_free_pop();
    }
    true
}

/// What the player's key for empire `id` does in the diplomacy panel: an
/// empire that does not exist is left alone; one at war is offered ten
/// turns of peace; one neither at war nor at peace is attacked.
pub fn diplomacy_key(empires: &mut Empires, id: u32)
    ensures
        ({
            let e = old(empires)@;
            let pair = ordered(PLAYER_EMPIRE, id);
            if e.count <= id {
                final(empires)@ == e
            } else if e.war.contains(pair) {
                final(empires)@ == (EmpiresView {
                    war: e.war.remove(pair),
                    peace: e.peace.insert(pair),
                    peace_time: e.peace_time.insert(pair, 10),
                    ..e
                })
            } else if !e.peace.contains(pair) {
                final(empires)@ == (EmpiresView { war: e.war.insert(pair), peace: e.peace.remove(pair), ..e })
            } else {
                final(empires)@ == e
            }
        }),
{
    if empires.count() <= id {
        return;
    }
    if empires.at_war(PLAYER_EMPIRE, id) {
        empires.set_peace(PLAYER_EMPIRE, id, 10);
    } else if !empires.at_peace(PLAYER_EMPIRE, id) {
        empires.set_war(PLAYER_EMPIRE, id);
    }
}

/// The line of the diplomacy panel about empire `id`: its state towards
/// the player, and what the player's key would do.
pub open spec fn diplomacy_line_spec(e: EmpiresView, id: u32) -> Seq<char> {
    let pair = ordered(PLAYER_EMPIRE, id);
    let turns: u32 = match e.peace_time.get(pair) {
        Some(t) => t,
        None => 2137,
    };
    let status = if e.peace.contains(pair) {
        "AT PEACE for "@ + decimal(turns as int) + " turns"@
    } else if e.war.contains(pair) {
        "AT WAR"@
    } else {
        seq![]
    };
    let action = if e.peace.contains(pair) {
        seq![]
    } else if e.war.contains(pair) {
        "press "@ + decimal(id as int) + " to make peace"@
    } else {
        "press "@ + decimal(id as int) + " to wage war"@
    };
    "Empire "@ + decimal(id as int) + ": "@ + status + " "@ + action + "\n"@
}

/// The line of the diplomacy panel about empire `id`.
pub fn diplomacy_line(empires: &Empires, id: u32) -> (s: String)
    ensures
        s@ == diplomacy_line_spec(empires@, id),
{
    let at_peace = empires.at_peace(PLAYER_EMPIRE, id);
    let at_war = empires.at_war(PLAYER_EMPIRE, id);
    let turns: u32 = match empires.peace_time(PLAYER_EMPIRE, id) {
        Some(t) => t,
        None => 2137,
    };
    let mut status = String::new();
    if at_peace {
        status.append("AT PEACE for ");
        status.append(i64_text(turns as i64).as_str());
        status.append(" turns");
    } else if at_war {
        status.append("AT WAR");
    }
    let mut action = String::new();
    if !at_peace {
        action.append("press ");
        action.append(i64_text(id as i64).as_str());
        if at_war {
            action.append(" to make peace");
        } else {
            action.append(" to wage war");
        }
    }
    let mut s = String::from_str("Empire ");
    s.append(i64_text(id as i64).as_str());
    s.append(": ");
    s.append(status.as_str());
    s.append(" ");
    s.append(action.as_str());
    s.append("\n");
    s
}

/// The text of the diplomacy panel: a line for each empire but the
/// player's, in order.
pub open spec fn diplomacy_text_spec(e: EmpiresView, n: nat) -> Seq<char>
    decreases n,
{
    if n <= 1 {
        seq![]
    } else {
        diplomacy_text_spec(e, (n - 1) as nat) + diplomacy_line_spec(e, (n - 1) as u32)
    }
}

/// The text of the diplomacy panel.
pub fn diplomacy_text(empires: &Empires) -> (s: String)
    ensures
        s@ == diplomacy_text_spec(empires@, empires@.count as nat),
{
    let n = empires.count();
    let mut s = String::new();
    let mut id: u32 = 1;
    while id < n
        invariant
            1 <= id,
            n == empires@.count,
            id <= n || id == 1,
            s@ == diplomacy_text_spec(empires@, id as nat),
        decreases n - id,
    {
        let line = diplomacy_line(empires, id);
        s.append(line.as_str());
        id += 1;
    }
    if n <= 1 {
        assert(diplomacy_text_spec(empires@, n as nat) == Seq::<char>::empty());
    }
    s
}

} // verus!
