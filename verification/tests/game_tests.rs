use rust_labs::game::actions::{
    calculate_empire_pops_income, calculate_empire_resource_net_income, claim_province, create_army,
    disband_army, recruit_soldier, reset_armies_moves,
};
use rust_labs::game::ai::{
    ai_assign_pops, ai_claim_provinces, ai_claim_random_provinces, ai_claim_random_provinces_with,
    ai_construct_buildings_with, ai_create_army, first_claim_around, order_provinces, plan_towards_gold,
    setup_ai_context, AIAction, AIContext, AIContexts, ClaimPlan, Construction,
};
use rust_labs::game::army::{Army, Soldier, SoldierType};
use rust_labs::game::battle::{battle, move_army, MoveOutcome};
use rust_labs::game::empire::{resource_amount, Empire, Empires, PLAYER_EMPIRE};
use rust_labs::game::grid::{borders_empire, get_reachable_tiles, hex_neighbors, starting_pair, Grid, Tile};
use rust_labs::game::province::{Building, House, Province, ProvinceType, SpecialBuilding};
use rust_labs::game::resources::{add_resources, add_amount, all_resource_types, Amounts, ResourceType};
use rust_labs::game::turns::Turns;
use std::collections::HashMap;

fn infantry(home: u64) -> Soldier {
    Soldier::new_infantry(&home)
}

fn army_of(n: usize, empire: u64, id: u32) -> Army {
    let mut a = Army::new(infantry(0), empire, id);
    for _ in 1..n {
        assert!(a.try_add_soldier(infantry(0)));
    }
    a
}

fn housed(t: ProvinceType, pops: u32, houses: u32) -> Province {
    let mut p = Province::from_type(&t, &(0, 0));
    let bs: Vec<Building> = (0..houses).map(|_| Building::House(House { max_residents: 5 })).collect();
    p.recalculate_income(&bs);
    for _ in 0..pops {
        p.add_pop();
    }
    p
}

fn empires_of(n: u32) -> Empires {
    let mut map = HashMap::new();
    for i in 0..n {
        map.insert(i, 100 + i as u64);
    }
    Empires::new(n, map)
}

#[test]
fn amounts_and_sums() {
    assert_eq!(
        all_resource_types(),
        vec![ResourceType::Grain, ResourceType::Lumber, ResourceType::Stone, ResourceType::Gold]
    );
    let a = Amounts::pair(ResourceType::Grain, 8, ResourceType::Gold, -4);
    let b = Amounts::single(ResourceType::Grain, 16);
    let s = add_resources(&a, &b);
    assert_eq!(s, Amounts { grain: Some(24), lumber: Some(0), stone: Some(0), gold: Some(-4) });
    assert_eq!(resource_amount(&a, &ResourceType::Stone), 0);
    assert_eq!(add_amount(i64::MAX, 1), i64::MAX);
    assert_eq!(add_amount(i64::MIN, -1), i64::MIN);
    assert!(Amounts::new().is_empty());
}

#[test]
fn empire_treasury() {
    let mut e = Empire::new(3, "Empire 3".to_string());
    assert_eq!(e.get_total(&ResourceType::Grain), 160);
    assert_eq!(e.get_total(&ResourceType::Gold), 40);
    assert_eq!(e.get_free_pops(), 2);
    let house = House::build_cost();
    assert!(e.can_afford(&house));
    e.remove_resources(&house);
    assert_eq!(e.get_total(&ResourceType::Lumber), 40);
    assert!(!e.is_bankrupt());
    let gold_mine = SpecialBuilding::GoldMine.build_cost();
    assert!(!e.can_afford(&gold_mine));
    e.remove_resources(&gold_mine);
    assert!(e.is_bankrupt());
    assert_eq!(e.get_total(&ResourceType::Lumber), -160);
    e.resource_income = Amounts::single(ResourceType::Lumber, 200);
    e.pops_income = 3;
    e.apply_income();
    assert_eq!(e.get_total(&ResourceType::Lumber), 40);
    assert_eq!((e.get_pops(), e.get_free_pops()), (5, 5));
    assert!(e.has_income_for(&Amounts::single(ResourceType::Lumber, 200)));
    assert!(!e.has_income_for(&Amounts::single(ResourceType::Grain, 1)));
    assert_eq!(e.new_army_id(), 0);
    assert_eq!(e.new_army_id(), 1);
    assert_eq!(e.total_armies_created(), 2);
    assert!(e.try_remove_free_pop());
    e.loose();
    assert!(!e.is_playing());
}

#[test]
fn province_income_and_upkeep() {
    let mut p = housed(ProvinceType::BlackSoil, 2, 1);
    assert_eq!(p.get_max_pops(), 5);
    p.recalculate_income(&[Building::House(House { max_residents: 5 })]);
    // Two residents on black soil: 2 * 2.25 grain, upkeep 2 * 1 grain.
    assert_eq!(p.get_income().get(ResourceType::Grain), Some(36));
    assert_eq!(p.get_upkeep(), &Amounts { grain: Some(16), lumber: None, stone: None, gold: Some(0) });
    // A farm replaces the residents' own yield: 2 * 6 grain.
    p.recalculate_income(&[
        Building::House(House { max_residents: 5 }),
        Building::Special(SpecialBuilding::Farm),
    ]);
    assert_eq!(p.get_income(), &Amounts::single(ResourceType::Grain, 96));
    assert_eq!(p.get_pops_income(), 1);
    let mut c = housed(ProvinceType::Woods, 1, 2);
    assert_eq!(c.try_add_special_building(true), Some(SpecialBuilding::Castle));
    assert_eq!(c.get_pops(), 0);
    c.add_pop();
    c.add_pop();
    c.recalculate_income(&[Building::Special(SpecialBuilding::Castle)]);
    // Castle: residents cost 2.5 times as much, plus five gold.
    assert_eq!(c.get_upkeep(), &Amounts { grain: Some(50), lumber: None, stone: None, gold: Some(40) });
    assert!(c.get_income().is_empty());
    assert_eq!(c.get_max_pops(), 0);
    let water = Province::from_type(&ProvinceType::Water, &(1, 1));
    assert_eq!(water.march_cost(), None);
    assert_eq!(Province::from_type(&ProvinceType::Mountains, &(0, 0)).march_cost(), Some(6));
}

#[test]
fn province_people_and_buildings() {
    let mut p = housed(ProvinceType::Plains, 0, 0);
    assert!(!p.try_add_pop());
    assert!(!p.try_remove_pop());
    p.add_pop();
    assert!(!p.try_remove_pop());
    assert!(p.try_add_house());
    assert!(p.try_add_house());
    assert!(p.try_add_house());
    assert!(!p.try_add_house());
    assert_eq!(p.get_houses(), 3);
    assert!(p.can_build_special_building());
    assert_eq!(p.special_building_type(), Some(SpecialBuilding::Farm));
    assert_eq!(p.building_name(), "Farm");
    assert_eq!(p.try_add_special_building(false), Some(SpecialBuilding::Farm));
    assert!(!p.can_build_special_building());
    assert_eq!(p.try_add_special_building(true), None);
    let desert = Province::from_type(&ProvinceType::Desert, &(0, 0));
    assert!(!desert.can_build_special_building());
    assert_eq!(desert.building_name(), "");
    assert_eq!(ProvinceType::Hills.label(), "Rocky hills");
}

#[test]
fn province_soldiers() {
    let mut p = housed(ProvinceType::Woods, 0, 0);
    p.add_soldier(infantry(7));
    p.add_soldier(infantry(8));
    assert_eq!(p.soldier_count(), 2);
    assert_eq!(p.try_remove_soldier_type(&SoldierType::Infantry), Some(infantry(7)));
    assert_eq!(p.try_remove_soldier(), Some(infantry(8)));
    assert_eq!(p.try_remove_soldier(), None);
}

#[test]
fn army_basics() {
    let mut a = army_of(3, 9, 4);
    assert_eq!(a.soldier_count(), 3);
    assert_eq!(a.march_budget(), 10);
    assert_eq!(a.label(), "Army 4 (Infantry)");
    assert_eq!(a.try_remove_soldiers(5), 3);
    assert_eq!(a.soldier_count(), 0);
    let big = army_of(10, 9, 5);
    assert_eq!(big.march_budget(), 5);
    a.set_moved();
    assert!(a.moved());
    a.reset_moved();
    assert!(!a.moved());
}

#[test]
fn battle_takes_twice_the_defenders() {
    // Five attackers against two defending armies of one soldier each.
    let mut attacker = army_of(5, 1, 0);
    let mut defenders = vec![army_of(1, 2, 0), army_of(1, 2, 1)];
    let mut source = housed(ProvinceType::Plains, 5, 1);
    let mut destination = housed(ProvinceType::Plains, 5, 1);
    let defeated = battle(&mut attacker, &mut defenders, &mut source, &mut destination);
    assert_eq!(defeated, vec![0, 1]);
    assert_eq!(attacker.soldier_count(), 1);
    assert_eq!(source.get_pops(), 3);
    assert_eq!(destination.get_pops(), 5);
}

#[test]
fn battle_lost_by_the_attacker() {
    let mut attacker = army_of(3, 1, 0);
    let mut defenders = vec![army_of(2, 2, 0), army_of(4, 2, 1)];
    let mut source = housed(ProvinceType::Plains, 2, 1);
    let mut destination = housed(ProvinceType::Plains, 4, 1);
    let defeated = battle(&mut attacker, &mut defenders, &mut source, &mut destination);
    // The first army trades both of its soldiers; the second trades one and
    // loses one more.
    assert_eq!(defeated, vec![0]);
    assert_eq!(defenders[0].soldier_count(), 0);
    assert_eq!(defenders[1].soldier_count(), 2);
    assert_eq!(attacker.soldier_count(), 0);
    assert_eq!(source.get_pops(), 1);
    assert_eq!(destination.get_pops(), 3);
}

#[test]
fn marching_into_provinces() {
    let mut diplomacy = empires_of(3);
    let mut army = army_of(2, 101, 0);
    let mut defenders: Vec<Army> = Vec::new();
    let mut source = housed(ProvinceType::Plains, 1, 1);
    let mut destination = housed(ProvinceType::Plains, 1, 1);
    let out = move_army(&mut army, 1, Some((102, 2)), &diplomacy, &mut defenders, &mut source, &mut destination);
    assert!(matches!(out, MoveOutcome::Refused));
    assert!(!army.moved());
    let out = move_army(&mut army, 1, None, &diplomacy, &mut defenders, &mut source, &mut destination);
    assert!(matches!(out, MoveOutcome::Entered { occupied: false, relocated: true }));
    assert!(army.moved());
    diplomacy.set_war(2, 1);
    let mut army = army_of(2, 101, 1);
    let out = move_army(&mut army, 1, Some((102, 2)), &diplomacy, &mut defenders, &mut source, &mut destination);
    assert!(matches!(out, MoveOutcome::Entered { occupied: true, relocated: true }));
    let mut army = army_of(3, 101, 2);
    let mut defenders = vec![army_of(1, 102, 0)];
    let out = move_army(&mut army, 1, Some((102, 2)), &diplomacy, &mut defenders, &mut source, &mut destination);
    match out {
        MoveOutcome::Fought { defeated, survived } => {
            assert_eq!(defeated, vec![0]);
            assert!(survived);
        }
        _ => panic!("expected a battle"),
    }
    assert_eq!(army.soldier_count(), 1);
    assert!(army.moved());
}

#[test]
fn diplomacy_war_and_peace() {
    let mut d = empires_of(4);
    assert_eq!(d.count(), 4);
    assert_eq!(d.get_entity(2), Some(102));
    assert_eq!(d.player_empire(), Some(100));
    assert_eq!(d.get_entity(9), None);
    d.set_war(3, 1);
    assert!(d.at_war(1, 3));
    assert!(d.at_war(3, 1));
    assert!(!d.at_peace(1, 3));
    d.set_peace(1, 3, 2);
    assert!(!d.at_war(3, 1));
    assert!(d.at_peace(3, 1));
    assert_eq!(d.peace_time(3, 1), Some(2));
    d.update_peace_time();
    assert!(d.at_peace(1, 3));
    assert_eq!(d.peace_time(1, 3), Some(1));
    d.update_peace_time();
    assert!(!d.at_peace(1, 3));
    assert_eq!(d.peace_time(1, 3), None);
    d.set_peace(0, 2, 0);
    d.set_war(0, 2);
    assert!(d.at_war(2, 0) && !d.at_peace(2, 0));
    assert_eq!(d.peace_time(2, 0), Some(0));
    d.update_peace_time();
    assert_eq!(d.peace_time(2, 0), None);
}

#[test]
fn turns_go_round() {
    let mut turns = Turns::new(3);
    let mut d = empires_of(3);
    d.set_peace(0, 1, 1);
    let mut empires: Vec<Empire> = (0..3).map(|i| Empire::new(i, format!("Empire {}", i))).collect();
    assert!(turns.is_player_turn());
    let mut current = PLAYER_EMPIRE;
    for step in 0..3u32 {
        let next = turns.end_turn(current, &mut empires[current as usize], &mut d);
        assert_eq!(next, (step + 1) % 3);
        let computer = turns.start_turn(next);
        assert_eq!(computer, next != PLAYER_EMPIRE);
        current = next;
    }
    assert_eq!(turns.full_rounds(), 1);
    assert_eq!(turns.current_empire(), 0);
    assert!(!d.at_peace(0, 1));
}

#[test]
fn claiming_and_recruiting() {
    let mut e = Empire::new(0, "E".to_string());
    let mut p = housed(ProvinceType::Plains, 0, 1);
    assert!(claim_province(&mut e, &mut p));
    assert_eq!(p.get_pops(), 1);
    assert_eq!(e.get_free_pops(), 1);
    recruit_soldier(&mut e, &mut p, 55);
    assert_eq!(e.get_soldiers(), 1);
    assert_eq!(e.get_free_pops(), 0);
    assert_eq!(e.get_total(&ResourceType::Grain), 152);
    assert_eq!(p.get_pops(), 2);
    assert_eq!(p.soldier_count(), 1);
    assert!(!claim_province(&mut e, &mut p));
    let army = create_army(&mut p, &mut e, 100).expect("a soldier waits");
    assert_eq!(army.soldier_count(), 1);
    assert_eq!(army.soldiers()[0].home_province, 55);
    assert_eq!(army.id(), 0);
    assert!(create_army(&mut p, &mut e, 100).is_none());
    disband_army(army, &mut p);
    assert_eq!(p.soldier_count(), 1);
    let mut armies = vec![army_of(1, 100, 0), army_of(1, 200, 0)];
    armies[0].set_moved();
    armies[1].set_moved();
    reset_armies_moves(&mut armies, 100);
    assert!(!armies[0].moved());
    assert!(armies[1].moved());
}

#[test]
fn empire_incomes_from_provinces() {
    let mut e = Empire::new(0, "E".to_string());
    let mut a = housed(ProvinceType::BlackSoil, 2, 1);
    a.recalculate_income(&[Building::House(House { max_residents: 5 })]);
    let mut b = housed(ProvinceType::Woods, 5, 1);
    b.recalculate_income(&[Building::House(House { max_residents: 5 })]);
    calculate_empire_resource_net_income(&mut e, &[&a, &b]);
    // Grain: 36 - 16 - 50; lumber: 60.
    assert_eq!(e.get_income(&ResourceType::Grain), -30);
    assert_eq!(e.get_income(&ResourceType::Lumber), 60);
    calculate_empire_pops_income(&mut e, &[&a, &b]);
    assert_eq!(e.get_pops_income(), 1);
    assert_eq!(e.max_soldiers, 0);
    calculate_empire_resource_net_income(&mut e, &[]);
    assert!(e.total_income().is_empty());
}

fn tile(x: i32, y: i32, ptype: ProvinceType, owner: Option<u32>) -> Tile {
    Tile { hex: (x, y), ptype, owner, entity: (x * 100 + y + 1000) as u64 }
}

fn small_map() -> Grid {
    Grid::from_tiles(vec![
        tile(0, 0, ProvinceType::Woods, Some(1)),
        tile(1, 0, ProvinceType::Plains, None),
        tile(2, 0, ProvinceType::Hills, None),
        tile(3, 0, ProvinceType::Mountains, None),
        tile(0, 1, ProvinceType::Water, None),
        tile(-1, 1, ProvinceType::Desert, None),
        tile(-1, 0, ProvinceType::BlackSoil, Some(2)),
    ])
    .expect("distinct tiles")
}

#[test]
fn map_lookups() {
    assert!(Grid::from_tiles(vec![tile(0, 0, ProvinceType::Woods, None), tile(0, 0, ProvinceType::Hills, None)]).is_none());
    assert!(Grid::from_tiles(vec![tile(0x1000_0001, 0, ProvinceType::Woods, None)]).is_none());
    assert!(Grid::from_tiles(vec![tile(0x10_0001, -0x1000_0000, ProvinceType::Woods, None)]).is_some());
    let g = small_map();
    assert_eq!(g.find((3, 0)), Some(3));
    assert_eq!(g.find((9, 9)), None);
    assert_eq!(hex_neighbors((0, 0)), vec![(1, 0), (0, 1), (-1, 1), (-1, 0), (0, -1), (1, -1)]);
    assert!(borders_empire(&g, (1, 0), 1));
    assert!(!borders_empire(&g, (1, 1), 1));
    assert!(!borders_empire(&g, (2, 0), 1));
    assert_eq!(starting_pair(&g, 0, &[]), Some((0, 1)));
    assert_eq!(starting_pair(&g, 0, &[1]), None);
    assert_eq!(starting_pair(&g, 1, &[]), None);
}

#[test]
fn reachable_tiles_follow_march_costs() {
    let g = small_map();
    let mut d = empires_of(3);
    let mut r = get_reachable_tiles(&g, &d, 1, (0, 0), 10);
    r.sort();
    // Water and the tile of empire 2 (not at war) are out of reach; the
    // plains cost 2 + 1, the hills 3 + 4 + 1, the desert 5 + 1, the
    // mountains 8 + 6 + 1, beyond the budget.
    assert!(r.contains(&0));
    assert!(r.contains(&1));
    assert!(!r.contains(&4));
    assert!(!r.contains(&6));
    assert_eq!(r, vec![0, 1, 2, 5]);
    d.set_war(1, 2);
    let r2 = get_reachable_tiles(&g, &d, 1, (0, 0), 10);
    assert!(r2.contains(&6));
    let r3 = get_reachable_tiles(&g, &d, 1, (0, 0), 0);
    assert_eq!(r3, vec![0]);
}

#[test]
fn computer_plans_a_path_to_gold() {
    let g = small_map();
    let plan = plan_towards_gold(&g, 1).expect("a mountain is reachable");
    assert_eq!(plan.path_to_gold, vec![(1, 0), (2, 0), (3, 0)]);
    assert!(plan_towards_gold(&g, 7).is_none());
    let mut contexts = AIContexts::new(2);
    assert!(contexts.map.contains_key(&1) && contexts.map.contains_key(&2));
    assert!(!contexts.map.contains_key(&0));
    assert!(setup_ai_context(&mut contexts, &g, 1));
    assert!(!setup_ai_context(&mut contexts, &g, 0));
    assert!(contexts.map[&1].is_some());
}

#[test]
fn computer_claims() {
    let g = small_map();
    let mut e = Empire::new(1, "AI".to_string());
    let mut ctx = plan_towards_gold(&g, 1).unwrap();
    e.resource_income = Amounts::single(ResourceType::Grain, 80);
    assert_eq!(ai_claim_provinces(&mut e, &mut ctx, &g), ClaimPlan::Claim(1));
    assert_eq!(ctx.path_claimed, 1);
    assert_eq!(e.get_total(&ResourceType::Lumber), 40);
    e.resource_income = Amounts::single(ResourceType::Grain, 8);
    assert_eq!(ai_claim_provinces(&mut e, &mut ctx, &g), ClaimPlan::Elsewhere { grain_shortage: true });
    // Along the path, the first claimable neighbour of the last claimed step.
    let found = ai_claim_random_provinces_with(&mut e, &mut ctx, &g, 1, false, &[]);
    assert_eq!(found, Some(2));
    assert_eq!(e.get_free_pops(), 1);
    assert_eq!(first_claim_around(&g, (0, 0), true), Some(1));
    assert_eq!(first_claim_around(&g, (0, 0), false), Some(1));
    ctx.gold_reached = true;
    let picked = ai_claim_random_provinces_with(&mut e, &mut ctx, &g, 1, false, &[0, 0]);
    assert_eq!(picked, Some(1));
    let random = ai_claim_random_provinces(&mut e, &mut ctx, &g, 1, false);
    assert_eq!(random, None);
    e.pops_free = 0;
    assert_eq!(ai_claim_provinces(&mut e, &mut ctx, &g), ClaimPlan::Nothing);
}

#[test]
fn computer_builds() {
    let mut e = Empire::new(1, "AI".to_string());
    e.resource_total = Amounts { grain: Some(800), lumber: Some(800), stone: Some(800), gold: Some(800) };
    let mut ctx = AIContext::towards(vec![]);
    let woods = housed(ProvinceType::Woods, 1, 1);
    let plains = housed(ProvinceType::Plains, 1, 1);
    let mut full = housed(ProvinceType::Plains, 4, 1);
    full.try_add_special_building(false);
    let built = ai_construct_buildings_with(&mut e, &mut ctx, &[&plains, &woods, &plains, &full], &[true, true, true, true]);
    // No farm before a lumber mill; then a lumber mill, a farm, and a house
    // where one place is left.
    assert_eq!(
        built,
        vec![
            (1, Construction::Special(SpecialBuilding::LumberMill)),
            (2, Construction::Special(SpecialBuilding::Farm)),
            (3, Construction::House)
        ]
    );
    assert_eq!((ctx.lumber_mills, ctx.farms), (1, 1));
    assert_eq!(e.get_total(&ResourceType::Lumber), 800 - 120 - 80 - 40);
    assert!(!ai_create_army(&ctx, &e));
    assert_eq!(AIAction::BuildGoldMine.cost().resources, SpecialBuilding::GoldMine.build_cost());
    assert_eq!(AIAction::AssignPop.cost().free_pops, 1);
}

#[test]
fn computer_settles_people() {
    let mut e = Empire::new(1, "AI".to_string());
    e.pops_free = 6;
    let hills = housed(ProvinceType::Hills, 1, 1);
    let plains_small = housed(ProvinceType::Plains, 4, 1);
    let plains_big = housed(ProvinceType::Plains, 1, 2);
    let desert = housed(ProvinceType::Desert, 0, 1);
    assert_eq!(order_provinces(&plains_big, &plains_small), std::cmp::Ordering::Less);
    assert_eq!(order_provinces(&plains_small, &hills), std::cmp::Ordering::Less);
    let shares = ai_assign_pops(&mut e, &[&hills, &plains_small, &plains_big, &desert]);
    // Plains first, the one with more room first (9, then 1): six people
    // fill six places of the larger one.
    assert_eq!(shares, vec![0, 0, 6, 0]);
    assert_eq!(e.get_free_pops(), 0);
}
