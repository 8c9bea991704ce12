use rust_labs::game::army::{Army, Soldier};
use rust_labs::game::empire::{Empire, Empires};
use rust_labs::game::grid::{Grid, Tile};
use rust_labs::game::picking::{
    default_look, on_enter, on_exit, on_press, resting_look, toggle_movement, Look, MovementToggle, PickedProvince, Press,
};
use std::collections::HashMap;
use rust_labs::game::panels::{
    army_cursor, assign_residents, button_look, claim_button_state, diplomacy_key, diplomacy_line, diplomacy_text, house_button_enabled,
    recruit_panel, special_button_enabled, ButtonLook, RecruitPanel,
};
use rust_labs::game::province::{Building, House, Province, ProvinceType, SpecialBuilding};
use rust_labs::game::resources::{Amounts, ResourceType};
use rust_labs::numbers::{server_port, PortError};

fn housed(t: ProvinceType, pops: u32, houses: u32) -> Province {
    let mut p = Province::from_type(&t, &(0, 0));
    let bs: Vec<Building> = (0..houses).map(|_| Building::House(House { max_residents: 5 })).collect();
    p.recalculate_income(&bs);
    for _ in 0..pops {
        p.add_pop();
    }
    p
}

#[test]
fn buttons_look_by_state() {
    assert_eq!(button_look(true, true, true), ButtonLook::Disabled);
    assert_eq!(button_look(false, true, true), ButtonLook::Pressed);
    assert_eq!(button_look(false, true, false), ButtonLook::Hovered);
    assert_eq!(button_look(false, false, true), ButtonLook::Normal);
}

#[test]
fn army_cursor_stays_in_the_list() {
    assert_eq!(army_cursor(0, 3, true, false), 0);
    assert_eq!(army_cursor(2, 3, true, false), 1);
    assert_eq!(army_cursor(1, 3, false, true), 2);
    assert_eq!(army_cursor(2, 3, false, true), 2);
    assert_eq!(army_cursor(2, 3, true, true), 2);
    assert_eq!(army_cursor(0, 0, false, true), 0);
}

#[test]
fn building_buttons_follow_the_treasury() {
    let mut e = Empire::new(0, "Empire 0".to_string());
    let p = housed(ProvinceType::BlackSoil, 1, 1);
    assert!(house_button_enabled(&p, &e));
    let mut full = housed(ProvinceType::BlackSoil, 1, 0);
    while full.try_add_house() {}
    assert_eq!(full.get_houses(), 3);
    assert!(!house_button_enabled(&full, &e));
    e.resource_total = Amounts::single(ResourceType::Grain, -1);
    assert!(!e.can_afford(&House::build_cost()));
    assert!(!house_button_enabled(&p, &e));
    let castle = SpecialBuilding::Castle.build_cost();
    assert_eq!(recruit_panel(&p, &e), RecruitPanel::CastleButton { enabled: e.can_afford(&castle) });
    assert_eq!(special_button_enabled(&p, &e), e.can_afford(&SpecialBuilding::Farm.build_cost()));
}

#[test]
fn residents_move_one_at_a_time() {
    let mut e = Empire::new(0, "Empire 0".to_string());
    let mut p = housed(ProvinceType::BlackSoil, 2, 1);
    let free = e.get_free_pops();
    assert!(assign_residents(&mut p, &mut e, true, false));
    assert_eq!(p.get_pops(), 3);
    assert_eq!(e.get_free_pops(), free - 1);
    assert!(assign_residents(&mut p, &mut e, false, true));
    assert_eq!(p.get_pops(), 2);
    assert_eq!(e.get_free_pops(), free);
    assert!(!assign_residents(&mut p, &mut e, true, true));
    assert!(!assign_residents(&mut p, &mut e, false, false));
    assert_eq!(p.get_pops(), 2);
}

#[test]
fn server_ports() {
    assert_eq!(server_port(8080), Ok(8080));
    assert_eq!(server_port(1025), Ok(1025));
    assert_eq!(server_port(65535), Ok(65535));
    assert_eq!(server_port(1024), Err(PortError::System(1024)));
    assert_eq!(server_port(80), Err(PortError::System(80)));
    assert_eq!(server_port(65536), Err(PortError::OutOfRange));
}

fn empires_of(n: u32) -> Empires {
    let mut map = HashMap::new();
    for i in 0..n {
        map.insert(i, 100 + i as u64);
    }
    Empires::new(n, map)
}

#[test]
fn diplomacy_keys_and_lines() {
    let mut e = empires_of(3);
    assert_eq!(diplomacy_line(&e, 1), "Empire 1:  press 1 to wage war\n");
    diplomacy_key(&mut e, 1);
    assert!(e.at_war(0, 1));
    assert_eq!(diplomacy_line(&e, 1), "Empire 1: AT WAR press 1 to make peace\n");
    diplomacy_key(&mut e, 1);
    assert!(e.at_peace(0, 1));
    assert_eq!(e.peace_time(0, 1), Some(10));
    assert_eq!(diplomacy_line(&e, 1), "Empire 1: AT PEACE for 10 turns \n");
    diplomacy_key(&mut e, 1);
    assert!(e.at_peace(0, 1));
    diplomacy_key(&mut e, 7);
    assert!(!e.at_war(0, 7));
    assert_eq!(
        diplomacy_text(&e),
        "Empire 1: AT PEACE for 10 turns \nEmpire 2:  press 2 to wage war\n"
    );
    assert_eq!(diplomacy_text(&empires_of(1)), "");
}

#[test]
fn picking_provinces() {
    assert_eq!(default_look(true, true, true, Some(2)), Look::Reachable);
    assert_eq!(default_look(true, false, true, Some(2)), Look::EmpireColor(2));
    assert_eq!(default_look(false, true, false, Some(2)), Look::Terrain);
    assert_eq!(resting_look(PickedProvince::Selected(5), 5, true, true, true, None), Look::Selected);
    assert_eq!(resting_look(PickedProvince::Selected(4), 5, false, true, true, None), Look::Terrain);

    assert_eq!(on_enter(PickedProvince::Nothing, 3, false), (PickedProvince::Hovered(3), Some((3, Look::Hovered))));
    assert_eq!(on_enter(PickedProvince::Nothing, 3, true), (PickedProvince::Nothing, None));
    assert_eq!(on_enter(PickedProvince::Selected(1), 3, false), (PickedProvince::Selected(1), None));
    assert_eq!(on_exit(PickedProvince::Hovered(3), 3, Look::Terrain), (PickedProvince::Nothing, Some((3, Look::Terrain))));
    assert_eq!(on_exit(PickedProvince::Selected(3), 3, Look::Terrain), (PickedProvince::Selected(3), None));

    assert_eq!(on_press(PickedProvince::Nothing, 8, false, false, true), (PickedProvince::Nothing, Press::Ignored));
    assert_eq!(on_press(PickedProvince::Nothing, 8, true, true, false), (PickedProvince::Nothing, Press::Ignored));
    assert_eq!(on_press(PickedProvince::Selected(2), 8, true, false, false), (PickedProvince::Nothing, Press::Deselect { old: 2 }));
    assert_eq!(
        on_press(PickedProvince::Hovered(8), 8, true, false, false),
        (PickedProvince::Selected(8), Press::Select { reset: Some(8), province: 8 })
    );
    assert_eq!(
        on_press(PickedProvince::Nothing, 8, true, true, true),
        (PickedProvince::Selected(8), Press::MoveArmy { reset: None, to: 8 })
    );
}

#[test]
fn the_movement_key() {
    let armies = [(11u64, false), (12u64, true)];
    assert_eq!(toggle_movement(true, 2, &armies, 0, true, false), MovementToggle::Open { army: 11 });
    assert_eq!(toggle_movement(true, 2, &armies, 0, true, true), MovementToggle::Close);
    assert_eq!(toggle_movement(true, 2, &armies, 1, true, false), MovementToggle::Unchanged);
    assert_eq!(toggle_movement(true, 2, &armies, 0, false, false), MovementToggle::Unchanged);
    assert_eq!(toggle_movement(false, 2, &armies, 5, true, false), MovementToggle::Unchanged);
    assert_eq!(toggle_movement(true, 0, &[], 5, true, false), MovementToggle::Unchanged);
}

#[test]
fn claim_panel_shows_next_to_land_or_with_an_army() {
    let grid = Grid::from_tiles(vec![
        Tile { hex: (0, 0), ptype: ProvinceType::Woods, owner: Some(0), entity: 1 },
        Tile { hex: (1, 0), ptype: ProvinceType::Plains, owner: None, entity: 2 },
        Tile { hex: (5, 5), ptype: ProvinceType::Plains, owner: None, entity: 3 },
    ])
    .unwrap();
    let e = Empire::new(0, "Empire 0".to_string());
    let enabled = e.can_afford(&House::build_cost()) && e.get_free_pops() > 0;
    assert_eq!(claim_button_state(&grid, (1, 0), 0, 100, &[], &e), Some(enabled));
    assert_eq!(claim_button_state(&grid, (5, 5), 0, 100, &[], &e), None);
    let mine = Army::new(Soldier::new_infantry(&0), 100, 0);
    let theirs = Army::new(Soldier::new_infantry(&0), 200, 0);
    assert_eq!(claim_button_state(&grid, (5, 5), 0, 100, &[theirs], &e), None);
    assert_eq!(claim_button_state(&grid, (5, 5), 0, 100, &[mine], &e), Some(enabled));
}
