use rust_labs::game::army::{Army, Soldier};
use rust_labs::game::army_panel::armies_panel;
use rust_labs::game::province::{Province, ProvinceType};

const PLAYER: u64 = 7;
const OTHER: u64 = 9;

fn province_with(waiting: u64) -> Province {
    let mut p = Province::from_type(&ProvinceType::Plains, &(0, 0));
    for k in 0..waiting {
        p.add_soldier(Soldier::new_infantry(&(100 + k)));
    }
    p
}

fn army_of(empire: u64, id: u32, size: u64) -> Army {
    let mut a = Army::new(Soldier::new_infantry(&1), empire, id);
    for k in 1..size {
        a.try_add_soldier(Soldier::new_infantry(&(1 + k)));
    }
    a
}

#[test]
fn armies_panel_hidden_over_foreign_or_empty_province() {
    let mut p = province_with(3);
    let mut armies = vec![army_of(PLAYER, 1, 2)];
    assert!(armies_panel(&mut p, &mut armies, PLAYER, true, 0, false, false, true, false).is_none());
    assert_eq!(p.soldier_count(), 3);
    assert_eq!(armies[0].soldier_count(), 2);

    let mut empty = province_with(0);
    let mut foreign = vec![army_of(OTHER, 1, 2)];
    assert!(armies_panel(&mut empty, &mut foreign, PLAYER, false, 0, false, false, false, true).is_none());
}

#[test]
fn armies_panel_without_armies_shows_waiting_soldiers() {
    let mut p = province_with(2);
    let mut armies = vec![army_of(OTHER, 4, 3)];
    let panel = armies_panel(&mut p, &mut armies, PLAYER, false, 3, true, true, false, false).unwrap();
    assert_eq!(panel.armies, 0);
    assert_eq!(panel.curr_army, 2);
    assert_eq!(panel.unassigned, "Unassigned units:\nInfantry: 2\n");
    assert_eq!(panel.before, "(No armies stationed here)");
    assert_eq!(panel.selected, "");
    assert_eq!(panel.after, "");
    assert!(!panel.disband_enabled);
    assert!(panel.create_enabled);
}

#[test]
fn armies_panel_lists_player_armies_around_the_cursor() {
    let mut p = province_with(1);
    let mut moved = army_of(PLAYER, 3, 1);
    moved.set_moved();
    let mut armies = vec![army_of(PLAYER, 1, 2), army_of(OTHER, 2, 5), moved, army_of(PLAYER, 5, 4)];
    let panel = armies_panel(&mut p, &mut armies, PLAYER, false, 0, false, true, false, false).unwrap();
    assert_eq!(panel.armies, 3);
    assert_eq!(panel.curr_army, 1);
    assert_eq!(
        panel.before,
        "Stationed armies: (K - up, J - down, M - move)\nArmy 1 (Infantry): 2 units\n"
    );
    assert_eq!(panel.selected, "Army 3 (Infantry): 1 units (moved) (H/L to remove/add units)");
    assert_eq!(panel.after, "Army 5 (Infantry): 4 units\n");
    assert!(!panel.disband_enabled);
    assert!(panel.create_enabled);
}

#[test]
fn armies_panel_moves_soldiers_only_for_an_unmoved_army() {
    // remove: the picked army gives its last soldier back
    let mut p = province_with(0);
    let mut armies = vec![army_of(PLAYER, 1, 3)];
    let panel = armies_panel(&mut p, &mut armies, PLAYER, false, 0, false, false, true, false).unwrap();
    assert_eq!(armies[0].soldier_count(), 2);
    assert_eq!(p.soldier_count(), 1);
    assert_eq!(p.soldiers()[0].home_province, 3);
    assert!(panel.create_enabled);
    assert!(panel.disband_enabled);
    assert_eq!(panel.selected, "Army 1 (Infantry): 3 units (H/L to remove/add units)");

    // remove with a single soldier falls through to add
    let mut p = province_with(2);
    let mut armies = vec![army_of(PLAYER, 1, 1)];
    armies_panel(&mut p, &mut armies, PLAYER, false, 0, false, false, true, true).unwrap();
    assert_eq!(armies[0].soldier_count(), 2);
    assert_eq!(armies[0].soldiers()[1].home_province, 100);
    assert_eq!(p.soldier_count(), 1);

    // add: the first waiting soldier joins; the province empties
    let mut p = province_with(1);
    let mut armies = vec![army_of(PLAYER, 1, 1)];
    let panel = armies_panel(&mut p, &mut armies, PLAYER, false, 0, false, false, false, true).unwrap();
    assert_eq!(armies[0].soldier_count(), 2);
    assert_eq!(p.soldier_count(), 0);
    assert!(!panel.create_enabled);

    // a moved army keeps its soldiers
    let mut p = province_with(1);
    let mut a = army_of(PLAYER, 1, 3);
    a.set_moved();
    let mut armies = vec![a];
    armies_panel(&mut p, &mut armies, PLAYER, false, 0, false, false, true, true).unwrap();
    assert_eq!(armies[0].soldier_count(), 3);
    assert_eq!(p.soldier_count(), 1);
}
