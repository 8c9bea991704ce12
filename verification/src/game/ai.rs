//! The computer players: what their actions cost, the plan each keeps,
//! and their choices of provinces to claim, buildings to build and people
//! to settle.
use std::collections::HashMap;
use vstd::prelude::*;
use crate::game::army::SoldierType;
use crate::game::empire::{covers, spent, Empire};
use crate::game::grid::{a_star_path, hex_a_star, hex_neighbors, in_limits, neighbors, neighbors_fit, open_for, tile_at, well_placed, Grid, Tile};
use crate::game::province::{house_cost, special_building_for, special_cost, House, Province, ProvinceType, ProvinceView, SpecialBuilding, MAX_HOUSES};
use crate::game::resources::{Amounts, ResourceType};

verus! {

broadcast use vstd::std_specs::hash::group_hash_axioms;

/// What an action takes: free people and resources.
pub struct ResourceCost {
    pub free_pops: u32,
    pub resources: Amounts,
}

impl ResourceCost {
    /// `p` free people and no resources.
    pub fn pops(p: u32) -> (c: ResourceCost)
        ensures
            c.free_pops == p,
            c.resources.empty_spec(),
    {
        ResourceCost { free_pops: p, resources: Amounts::new() }
    }

    /// The same people, with `resources`.
    pub fn with_resources(self, resources: Amounts) -> (c: ResourceCost)
        ensures
            c.free_pops == self.free_pops,
            c.resources == resources,
    {
        ResourceCost { free_pops: self.free_pops, resources }
    }

    /// `resources` and no people.
    pub fn resources(resources: Amounts) -> (c: ResourceCost)
        ensures
            c.free_pops == 0,
            c.resources == resources,
    {
        ResourceCost { free_pops: 0, resources }
    }
}

/// The actions of a computer player.
#[derive(Clone, Copy, Debug, PartialEq, Eq, Structural)]
pub enum AIAction {
    ClaimProvince,
    AddHouse,
    AssignPop,
    BuildLumberMill,
    BuildFarm,
    BuildStoneMine,
    BuildGoldMine,
    MakeNewArmy,
}

impl AIAction {
    /// What the action takes.
    pub fn cost(&self) -> (c: ResourceCost)
        ensures
            c.free_pops == match *self {
                AIAction::ClaimProvince | AIAction::AssignPop | AIAction::MakeNewArmy => 1u32,
                _ => 0u32,
            },
            c.resources == match *self {
                AIAction::ClaimProvince | AIAction::AddHouse => house_cost(),
                AIAction::AssignPop => Amounts { grain: None, lumber: None, stone: None, gold: None },
                AIAction::BuildLumberMill => special_cost(SpecialBuilding::LumberMill),
                AIAction::BuildFarm => special_cost(SpecialBuilding::Farm),
                AIAction::BuildStoneMine => special_cost(SpecialBuilding::StoneMine),
                AIAction::BuildGoldMine => special_cost(SpecialBuilding::GoldMine),
                AIAction::MakeNewArmy => Amounts { grain: Some(8), lumber: None, stone: None, gold: Some(0) },
            },
    {
        match self {
            AIAction::ClaimProvince => ResourceCost::pops(1).with_resources(House::build_cost()),
            AIAction::AddHouse => ResourceCost::resources(House::build_cost()),
            AIAction::AssignPop => ResourceCost::pops(1),
            AIAction::BuildLumberMill => ResourceCost::resources(SpecialBuilding::LumberMill.build_cost()),
            AIAction::BuildFarm => ResourceCost::resources(SpecialBuilding::Farm.build_cost()),
            AIAction::BuildStoneMine => ResourceCost::resources(SpecialBuilding::StoneMine.build_cost()),
            AIAction::BuildGoldMine => ResourceCost::resources(SpecialBuilding::GoldMine.build_cost()),
            AIAction::MakeNewArmy => ResourceCost::pops(1).with_resources(SoldierType::Infantry.recruit_cost()),
        }
    }
}

/// The plan of a computer player: the path it claims towards gold, and
/// the buildings it has.
pub struct AIContext {
    pub path_to_gold: Vec<(i32, i32)>,
    pub path_claimed: u32,
    pub gold_reached: bool,
    pub provinces_total: u32,
    pub lumber_mills: u32,
    pub farms: u32,
    pub stone_mines: u32,
    pub gold_mines: u32,
    pub castles: u32,
    pub provinces: u32,
    /// Province entity to the number of armies (of one soldier each) that
    /// guard it.
    pub guarded_provinces: HashMap<u64, u32>,
}

impl AIContext {
    /// A plan to walk `path` towards gold, starting from two provinces and
    /// nothing built.
    pub fn towards(path: Vec<(i32, i32)>) -> (c: AIContext)
        ensures
            c.path_to_gold@ == path@,
            c.path_claimed == 0,
            !c.gold_reached,
            c.provinces_total == 2,
            c.lumber_mills == 0 && c.farms == 0 && c.stone_mines == 0 && c.gold_mines == 0,
            c.castles == 0,
            c.provinces == 0,
            c.guarded_provinces@ == Map::<u64, u32>::empty(),
    {
        AIContext {
            path_to_gold: path,
            path_claimed: 0,
            gold_reached: false,
            provinces_total: 2,
            lumber_mills: 0,
            farms: 0,
            stone_mines: 0,
            gold_mines: 0,
            castles: 0,
            provinces: 0,
            guarded_provinces: HashMap::new(),
        }
    }
}

/// The plans of the computer players, by empire id; a plan is made once
/// the player's provinces are known.
pub struct AIContexts {
    pub map: HashMap<u32, Option<AIContext>>,
}

impl AIContexts {
    /// No plan yet for each of `ai_empires` computer players, numbered from
    /// one (the player's empire is number zero).
    pub fn new(ai_empires: u32) -> (c: AIContexts)
        ensures
            forall|k: u32| #[trigger] c.map@.contains_key(k) <==> 1 <= k <= ai_empires,
            forall|k: u32| c.map@.contains_key(k) ==> #[trigger] c.map@[k] is None,
    {
        let mut map: HashMap<u32, Option<AIContext>> = HashMap::new();
        let mut i: u32 = 0;
        while i < ai_empires
            invariant
                i <= ai_empires,
                forall|k: u32| #[trigger] map@.contains_key(k) <==> 1 <= k <= i,
                forall|k: u32| map@.contains_key(k) ==> #[trigger] map@[k] is None,
            decreases ai_empires - i,
        {
            map.insert(i + 1, None);
            i += 1;
        }
        AIContexts { map }
    }
}

/// Whether a computer player may claim `tile`: no empire holds it, it is
/// neither desert nor water, and where grain runs short it is farmland.
pub open spec fn claimable(tile: Tile, grain_shortage: bool) -> bool {
    &&& tile.owner is None
    &&& tile.ptype != ProvinceType::Desert
    &&& tile.ptype != ProvinceType::Water
    &&& grain_shortage ==> (tile.ptype == ProvinceType::BlackSoil || tile.ptype == ProvinceType::Plains)
}

/// The first place of `places`, from position `k` on, with a claimable
/// tile, by the tile's position in the map.
pub open spec fn first_claimable(tiles: Seq<Tile>, places: Seq<(i32, i32)>, grain_shortage: bool, k: int) -> Option<int>
    decreases places.len() - k,
{
    if k < 0 || k >= places.len() {
        None
    } else if tile_at(tiles, places[k]) matches Some(i) && claimable(tiles[i], grain_shortage) {
        tile_at(tiles, places[k])
    } else {
        first_claimable(tiles, places, grain_shortage, k + 1)
    }
}

/// The first claimable neighbour of `center`, in the library's order of
/// neighbours.
pub fn first_claim_around(grid: &Grid, center: (i32, i32), grain_shortage: bool) -> (r: Option<usize>)
    requires
        neighbors_fit(center),
    ensures
        r matches Some(i) ==> i < grid.tiles_spec().len(),
        match r {
            Some(i) => first_claimable(grid.tiles_spec(), neighbors(center), grain_shortage, 0) == Some(i as int),
            None => first_claimable(grid.tiles_spec(), neighbors(center), grain_shortage, 0) is None,
        },
{
    let places = hex_neighbors(center);
    let ghost tiles = grid.tiles_spec();
    let n = places.len();
    let mut k: usize = 0;
    while k < n
        invariant
            n == places@.len(),
            places@ == neighbors(center),
            tiles == grid.tiles_spec(),
            k <= n,
            first_claimable(tiles, places@, grain_shortage, 0) == first_claimable(
                tiles,
                places@,
                grain_shortage,
                k as int,
            ),
        decreases n - k,
    {
        match grid.find(places[k]) {
            Some(i) => {
                let t = grid.tiles()[i];
                let ok = t.owner.is_none() && t.ptype != ProvinceType::Desert && t.ptype != ProvinceType::Water
                    && (!grain_shortage || t.ptype == ProvinceType::BlackSoil || t.ptype
                    == ProvinceType::Plains);
                if ok {
                    return Some(i);
                }
            },
            None => {},
        }
        k += 1;
    }
    None
}

/// A computer player claims the next province on its path to gold, or
/// turns to a claim elsewhere.
#[derive(Debug, PartialEq, Eq, Structural)]
pub enum ClaimPlan {
    /// Nothing is claimed: no free person, or not enough resources.
    Nothing,
    /// The tile at this position is claimed.
    Claim(usize),
    /// A province next to the ones held is to be claimed instead.
    Elsewhere { grain_shortage: bool },
}

/// Whether an empire's grain income is below five units.
pub open spec fn grain_short(empire: &Empire) -> bool {
    empire.resource_income.amount_of(ResourceType::Grain) < 40
}

/// A computer player's turn to claim: with a free person and the price of a
/// house, it claims the next tile of its path to gold (paying for the
/// house), unless grain runs short, the path is walked, or another empire
/// took the tile, in which case it claims elsewhere.
pub fn ai_claim_provinces(empire: &mut Empire, context: &mut AIContext, grid: &Grid) -> (plan: ClaimPlan)
    requires
        old(context).path_claimed < u32::MAX,
        old(context).provinces < u32::MAX,
    ensures
        ({
            let able = old(empire).pops_free > 0 && covers(old(empire).resource_total, house_cost());
            let short = grain_short(&*old(empire));
            let k = old(context).path_claimed as int;
            let path = old(context).path_to_gold@;
            let next = if !short && k < path.len() { Some(path[k]) } else { None::<(i32, i32)> };
            let spot = match next {
                Some(h) => tile_at(grid.tiles_spec(), h),
                None => None,
            };
            &&& !able ==> plan == ClaimPlan::Nothing
            &&& able && next is None ==> plan == ClaimPlan::Elsewhere { grain_shortage: short }
            &&& able && next is Some && spot is None ==> plan == ClaimPlan::Nothing
            &&& (able && spot is Some && grid.tiles_spec()[spot->0].owner is Some) ==> plan
                == ClaimPlan::Elsewhere { grain_shortage: short }
            &&& (able && spot is Some && grid.tiles_spec()[spot->0].owner is None) ==> plan
                == ClaimPlan::Claim(spot->0 as usize)
            &&& plan is Claim ==> {
                &&& final(empire).resource_total == spent(old(empire).resource_total, house_cost())
                &&& final(context).path_claimed == old(context).path_claimed + 1
                &&& final(context).provinces == old(context).provinces + 1
                &&& final(context).gold_reached == (old(context).gold_reached || final(context).path_claimed
                    == path.len())
            }
            &&& !(plan is Claim) ==> {
                &&& final(empire).resource_total == old(empire).resource_total
                &&& final(context).path_claimed == old(context).path_claimed
                &&& final(context).provinces == old(context).provinces
                &&& final(context).gold_reached == old(context).gold_reached
            }
            &&& final(context).path_to_gold@ == path
            &&& final(empire).pops_free == old(empire).pops_free
        }),
{
    if !empire.has_free_pops() {
        return ClaimPlan::Nothing;
    }
    let cost = House::build_cost();
    if !empire.can_afford(&cost) {
        return ClaimPlan::Nothing;
    }
    let grain_shortage = empire.get_income(&ResourceType::Grain) < 40;
    let k = context.path_claimed as usize;
    if !grain_shortage && k < context.path_to_gold.len() {
        let next_hex = context.path_to_gold[k];
        let tile = match grid.find(next_hex) {
            Some(i) => i,
            None => return ClaimPlan::Nothing,
        };
        if grid.tiles()[tile].owner.is_some() {
            return ClaimPlan::Elsewhere { grain_shortage };
        }
        empire.remove_resources(&cost);
        context.path_claimed += 1;
        context.provinces += 1;
        if context.path_claimed as usize == context.path_to_gold.len() {
            context.gold_reached = true;
        }
        ClaimPlan::Claim(tile)
    } else {
        ClaimPlan::Elsewhere { grain_shortage }
    }
}


/// A number below `n`, drawn by `rand::random_range(0..n)`, which rand
/// documents as a value of the range (and a panic on an empty one).
#[verifier::external_body]
fn random_below(n: usize) -> (r: usize)
    requires
        n > 0,
    ensures
        r < n,
{
    rand::random_range(0..n)
}

/// A number of `0..=1`, drawn by `rand::random_range(0..=1)`.
#[verifier::external_body]
fn random_bit() -> (r: u32)
    ensures
        r <= 1,
{
    rand::random_range(0..=1u32)
}

/// The positions of the tiles among the first `k` that empire `empire`
/// holds, in map order.
pub open spec fn held_positions(tiles: Seq<Tile>, empire: u32, k: int) -> Seq<int>
    decreases k,
{
    if k <= 0 {
        Seq::empty()
    } else if tiles[k - 1].owner == Some(empire) {
        held_positions(tiles, empire, k - 1).push(k - 1)
    } else {
        held_positions(tiles, empire, k - 1)
    }
}

proof fn lemma_held_positions_in_range(tiles: Seq<Tile>, empire: u32, k: int)
    requires
        0 <= k <= tiles.len(),
    ensures
        forall|j: int|
            0 <= j < held_positions(tiles, empire, k).len() ==> 0 <= #[trigger] held_positions(tiles, empire, k)[j]
                < k && tiles[held_positions(tiles, empire, k)[j]].owner == Some(empire),
    decreases k,
{
    if k > 0 {
        lemma_held_positions_in_range(tiles, empire, k - 1);
    }
}

/// The tiles that empire `empire` holds, by position in the map.
pub fn held_tiles(grid: &Grid, empire: u32) -> (r: Vec<usize>)
    ensures
        r@.len() == held_positions(grid.tiles_spec(), empire, grid.tiles_spec().len() as int).len(),
        forall|j: int|
            0 <= j < r@.len() ==> #[trigger] r@[j] as int == held_positions(
                grid.tiles_spec(),
                empire,
                grid.tiles_spec().len() as int,
            )[j],
{
    let tiles = grid.tiles();
    let n = tiles.len();
    let mut r: Vec<usize> = Vec::new();
    let mut k: usize = 0;
    while k < n
        invariant
            n == tiles@.len(),
            tiles@ == grid.tiles_spec(),
            k <= n,
            r@.len() == held_positions(tiles@, empire, k as int).len(),
            forall|j: int| 0 <= j < r@.len() ==> #[trigger] r@[j] as int == held_positions(tiles@, empire, k as int)[j],
        decreases n - k,
    {
        let ghost before = r@;
        if tiles[k].owner == Some(empire) {
            r.push(k);
            proof {
                assert forall|j: int| 0 <= j < r@.len() implies #[trigger] r@[j] as int == held_positions(
                    tiles@,
                    empire,
                    k + 1,
                )[j] by {
                    if j < before.len() {
                        assert(r@[j] == before[j]);
                    }
                }
            }
        }
        k += 1;
    }
    r
}

/// The tile that the `t`-th try of a random claim finds: the first
/// claimable neighbour of the held tile that the try picked.
pub open spec fn random_try(tiles: Seq<Tile>, held: Seq<int>, picks: Seq<usize>, grain_shortage: bool, t: int) -> Option<int> {
    first_claimable(tiles, neighbors(tiles[held[picks[t] as int]].hex), grain_shortage, 0)
}

/// The tile that the first successful try among tries `t..` finds.
pub open spec fn first_success(tiles: Seq<Tile>, held: Seq<int>, picks: Seq<usize>, grain_shortage: bool, t: int) -> Option<int>
    decreases picks.len() - t,
{
    if t < 0 || t >= picks.len() {
        None
    } else if random_try(tiles, held, picks, grain_shortage, t) is Some {
        random_try(tiles, held, picks, grain_shortage, t)
    } else {
        first_success(tiles, held, picks, grain_shortage, t + 1)
    }
}

/// The tile a computer player with `pops_free` free people and plan
/// `context` claims away from its path to gold, where `picks` select the
/// held tiles to try: none without a free person; while the path is not
/// walked to its end, the first claimable neighbour of the last tile
/// claimed on it; after that, the first success among the tries.
pub open spec fn claim_found(
    pops_free: u32,
    context: AIContext,
    tiles: Seq<Tile>,
    empire_id: u32,
    grain_shortage: bool,
    picks: Seq<usize>,
) -> Option<int> {
    let held = held_positions(tiles, empire_id, tiles.len() as int);
    let k = context.path_claimed as int;
    let path = context.path_to_gold@;
    if !(pops_free > 0) {
        None
    } else if !context.gold_reached && k > 0 {
        if k - 1 < path.len() {
            first_claimable(tiles, neighbors(path[k - 1]), grain_shortage, 0)
        } else {
            None
        }
    } else {
        first_success(tiles, held, picks, grain_shortage, 0)
    }
}

/// The last place claimed on the path to gold, where the claim goes on
/// around it, lies where its neighbours' coordinates are numbers of `i32`.
pub open spec fn path_hex_fits(pops_free: u32, context: AIContext) -> bool {
    let k = context.path_claimed as int;
    let path = context.path_to_gold@;
    pops_free > 0 && !context.gold_reached && 0 < k <= path.len() ==> neighbors_fit(path[k - 1])
}

/// `claimed` is the tile `found` names, or nothing where it names none.
pub open spec fn claim_is(claimed: Option<usize>, found: Option<int>) -> bool {
    match claimed {
        Some(i) => found == Some(i as int),
        None => found is None,
    }
}

/// How many tries a random claim makes.
pub const CLAIM_TRIES: usize = 151;

/// The province a computer player claims away from its path to gold. While
/// the path is not walked to its end, it is the first claimable neighbour of
/// the last tile claimed on it; after that, the first claimable neighbour of
/// a held tile, trying the held tiles that `picks` selects in turn. With a
/// find, the house is paid for, a free person goes and the province is
/// counted. Nothing happens without a free person.
pub fn ai_claim_random_provinces_with(
    empire: &mut Empire,
    context: &mut AIContext,
    grid: &Grid,
    empire_id: u32,
    grain_shortage: bool,
    picks: &[usize],
) -> (claimed: Option<usize>)
    requires
        old(context).provinces < u32::MAX,
        path_hex_fits(old(empire).pops_free, *old(context)),
        forall|t: int|
            0 <= t < picks@.len() ==> #[trigger] picks@[t] < held_positions(
                grid.tiles_spec(),
                empire_id,
                grid.tiles_spec().len() as int,
            ).len(),
    ensures
        ({
            let tiles = grid.tiles_spec();
            let path = old(context).path_to_gold@;
            let found = claim_found(old(empire).pops_free, *old(context), tiles, empire_id, grain_shortage, picks@);
            &&& claimed matches Some(i) ==> i < tiles.len() && Some(i as int) == found
            &&& claimed is None ==> found is None
            &&& claimed is Some ==> {
                &&& *final(empire) == (Empire {
                    resource_total: spent(old(empire).resource_total, house_cost()),
                    pops_free: (old(empire).pops_free - 1) as u32,
                    ..*old(empire)
                })
                &&& *final(context) == (AIContext { provinces: (old(context).provinces + 1) as u32, ..*old(context) })
            }
            &&& claimed is None ==> *final(empire) == *old(empire) && *final(context) == *old(context)
        }),
{
    if !empire.has_free_pops() {
        return None;
    }
    let found = if !context.gold_reached && context.path_claimed > 0 {
        let last = (context.path_claimed - 1) as usize;
        if last >= context.path_to_gold.len() {
            return None;
        }
        let hex = context.path_to_gold[last];
        first_claim_around(grid, hex, grain_shortage)
    } else {
        let held = held_tiles(grid, empire_id);
        let all = grid.tiles();
        let ghost tiles = grid.tiles_spec();
        let ghost held_spec = held_positions(tiles, empire_id, tiles.len() as int);
        proof {
            lemma_held_positions_in_range(tiles, empire_id, tiles.len() as int);
        }
        let n = picks.len();
        let mut t: usize = 0;
        let mut pick: Option<usize> = None;
        while t < n && pick.is_none()
            invariant
                n == picks@.len(),
                t <= n,
                tiles == grid.tiles_spec(),
                all@ == tiles,
                crate::game::grid::well_placed(tiles),
                held@.len() == held_spec.len(),
                forall|j: int| 0 <= j < held@.len() ==> #[trigger] held@[j] as int == held_spec[j],
                forall|j: int| 0 <= j < held_spec.len() ==> 0 <= #[trigger] held_spec[j] < tiles.len(),
                forall|u: int| 0 <= u < picks@.len() ==> #[trigger] picks@[u] < held_spec.len(),
                pick is None ==> first_success(tiles, held_spec, picks@, grain_shortage, 0) == first_success(
                    tiles,
                    held_spec,
                    picks@,
                    grain_shortage,
                    t as int,
                ),
                pick matches Some(i) ==> i < tiles.len() && first_success(tiles, held_spec, picks@, grain_shortage, 0)
                    == Some(i as int),
            decreases n - t,
        {
            let at = held[picks[t]];
            proof {
                assert(held@[picks@[t as int] as int] as int == held_spec[picks@[t as int] as int]);
                assert(in_limits(tiles[at as int].hex));
            }
            let found_here = first_claim_around(grid, all[at].hex, grain_shortage);
            pick = found_here;
            t += 1;
        }
        pick
    };
    match found {
        Some(i) => {
            empire.remove_resources(&House::build_cost());
            empire.try_remove_free_pop();
            context.provinces += 1;
            Some(i)
        },
        None => None,
    }
}

/// The province a computer player claims away from its path to gold,
/// trying at random among its held tiles where it must: the result is
/// what `ai_claim_random_provinces_with` gives for some picks.
pub fn ai_claim_random_provinces(
    empire: &mut Empire,
    context: &mut AIContext,
    grid: &Grid,
    empire_id: u32,
    grain_shortage: bool,
) -> (claimed: Option<usize>)
    requires
        old(context).provinces < u32::MAX,
        path_hex_fits(old(empire).pops_free, *old(context)),
        old(empire).pops_free > 0 && (old(context).gold_reached || old(context).path_claimed == 0) ==> held_positions(
            grid.tiles_spec(),
            empire_id,
            grid.tiles_spec().len() as int,
        ).len() > 0,
    ensures
        claimed matches Some(i) ==> i < grid.tiles_spec().len(),
        claimed is Some ==> *final(empire) == (Empire {
            resource_total: spent(old(empire).resource_total, house_cost()),
            pops_free: (old(empire).pops_free - 1) as u32,
            ..*old(empire)
        }) && *final(context) == (AIContext { provinces: (old(context).provinces + 1) as u32, ..*old(context) }),
        claimed is None ==> *final(empire) == *old(empire) && *final(context) == *old(context),
        exists|picks: Seq<usize>|
            {
                &&& picks.len() == if old(empire).pops_free > 0 && (old(context).gold_reached
                    || old(context).path_claimed == 0) {
                    CLAIM_TRIES as int
                } else {
                    0
                }
                &&& forall|u: int|
                    0 <= u < picks.len() ==> #[trigger] picks[u] < held_positions(
                        grid.tiles_spec(),
                        empire_id,
                        grid.tiles_spec().len() as int,
                    ).len()
                &&& claim_is(
                    claimed,
                    #[trigger] claim_found(
                        old(empire).pops_free,
                        *old(context),
                        grid.tiles_spec(),
                        empire_id,
                        grain_shortage,
                        picks,
                    ),
                )
            },
{
    let mut picks: Vec<usize> = Vec::new();
    if empire.has_free_pops() && (context.gold_reached || context.path_claimed == 0) {
        let held = held_tiles(grid, empire_id);
        let count = held.len();
        let mut t: usize = 0;
        while t < CLAIM_TRIES
            invariant
                t <= CLAIM_TRIES,
                count > 0,
                count == held_positions(grid.tiles_spec(), empire_id, grid.tiles_spec().len() as int).len(),
                picks@.len() == t,
                forall|u: int| 0 <= u < picks@.len() ==> #[trigger] picks@[u] < count,
            decreases CLAIM_TRIES - t,
        {
            picks.push(random_below(count));
            t += 1;
        }
    }
    let ghost start_pops = empire.pops_free;
    let ghost start_context = *context;
    let claimed = ai_claim_random_provinces_with(empire, context, grid, empire_id, grain_shortage, &picks);
    assert(claim_is(
        claimed,
        claim_found(start_pops, start_context, grid.tiles_spec(), empire_id, grain_shortage, picks@),
    ));
    claimed
}


/// Among the first `k` tiles, the mountain that empire `empire` reaches by
/// the shortest path from `start` (the first one where several are as
/// near), with the length of that path.
pub open spec fn nearest_gold(tiles: Seq<Tile>, empire: u32, start: (i32, i32), k: int) -> Option<(int, nat)>
    decreases k,
{
    if k <= 0 {
        None
    } else {
        let before = nearest_gold(tiles, empire, start, k - 1);
        let t = tiles[k - 1];
        let found = hex_a_star(start, t.hex, open_for(tiles, empire));
        if t.ptype == ProvinceType::Mountains && found is Some {
            let p = found->0;
            match before {
                Some((_, len)) => if p.len() < len {
                    Some((k - 1, p.len()))
                } else {
                    before
                },
                None => Some((k - 1, p.len())),
            }
        } else {
            before
        }
    }
}

/// The steps of `path` (its first `k`) onto tiles that no empire holds.
pub open spec fn unheld_steps(tiles: Seq<Tile>, path: Seq<(i32, i32)>, k: int) -> Seq<(i32, i32)>
    decreases k,
{
    if k <= 0 {
        Seq::empty()
    } else if tile_at(tiles, path[k - 1]) matches Some(i) && tiles[i].owner is None {
        unheld_steps(tiles, path, k - 1).push(path[k - 1])
    } else {
        unheld_steps(tiles, path, k - 1)
    }
}

/// The path to gold that a computer player plans: from the first tile it
/// holds, the path to the nearest mountain, without the steps onto tiles
/// that some empire holds.
pub open spec fn gold_path(tiles: Seq<Tile>, empire: u32) -> Option<Seq<(i32, i32)>> {
    let held = held_positions(tiles, empire, tiles.len() as int);
    if held.len() == 0 {
        None
    } else {
        let start = tiles[held[0]].hex;
        match nearest_gold(tiles, empire, start, tiles.len() as int) {
            Some((m, _)) => {
                let p = hex_a_star(start, tiles[m].hex, open_for(tiles, empire))->0;
                Some(unheld_steps(tiles, p, p.len() as int))
            },
            None => None,
        }
    }
}

/// A plan that has only just been made: nothing of its path claimed, gold
/// not reached, two provinces, no buildings and no guards.
pub open spec fn fresh_plan(c: AIContext) -> bool {
    &&& c.path_claimed == 0
    &&& !c.gold_reached
    &&& c.provinces_total == 2
    &&& c.provinces == 0
    &&& c.castles == 0 && c.farms == 0 && c.lumber_mills == 0 && c.stone_mines == 0 && c.gold_mines == 0
    &&& c.guarded_provinces@ == Map::<u64, u32>::empty()
}

/// The plan of a computer player for empire `empire_id`: the path to gold,
/// none yet claimed. None where the empire holds no tile or reaches no
/// mountain.
pub fn plan_towards_gold(grid: &Grid, empire_id: u32) -> (c: Option<AIContext>)
    ensures
        match c {
            Some(c) => gold_path(grid.tiles_spec(), empire_id) == Some(c.path_to_gold@) && fresh_plan(c),
            None => gold_path(grid.tiles_spec(), empire_id) is None,
        },
{
    let tiles = grid.tiles();
    let held = held_tiles(grid, empire_id);
    if held.len() == 0 {
        return None;
    }
    proof {
        lemma_held_positions_in_range(tiles@, empire_id, tiles@.len() as int);
    }
    let start = tiles[held[0]].hex;
    let n = tiles.len();
    let mut best: Option<(usize, Vec<(i32, i32)>)> = None;
    let mut k: usize = 0;
    while k < n
        invariant
            n == tiles@.len(),
            tiles@ == grid.tiles_spec(),
            well_placed(tiles@),
            k <= n,
            in_limits(start),
            match best {
                Some((m, p)) => m < n && nearest_gold(tiles@, empire_id, start, k as int) == Some((m as int, p@.len()))
                    && hex_a_star(start, tiles@[m as int].hex, open_for(tiles@, empire_id)) == Some(p@),
                None => nearest_gold(tiles@, empire_id, start, k as int) is None,
            },
        decreases n - k,
    {
        let t = tiles[k];
        if t.ptype == ProvinceType::Mountains {
            match a_star_path(grid, empire_id, start, t.hex) {
                Some(p) => {
                    let better = match &best {
                        Some((_, q)) => p.len() < q.len(),
                        None => true,
                    };
                    if better {
                        best = Some((k, p));
                    }
                },
                None => {},
            }
        }
        k += 1;
    }
    let path = match best {
        Some((_, p)) => p,
        None => return None,
    };
    let m = path.len();
    let mut steps: Vec<(i32, i32)> = Vec::new();
    let mut j: usize = 0;
    while j < m
        invariant
            m == path@.len(),
            j <= m,
            tiles@ == grid.tiles_spec(),
            steps@ == unheld_steps(tiles@, path@, j as int),
        decreases m - j,
    {
        let h = path[j];
        match grid.find(h) {
            Some(i) => if tiles[i].owner.is_none() {
                steps.push(h);
            },
            None => {},
        }
        j += 1;
    }
    Some(AIContext::towards(steps))
}

/// Makes the plan of the computer player for empire `empire_id`, where a
/// place for it is kept; says whether a plan was made.
pub fn setup_ai_context(contexts: &mut AIContexts, grid: &Grid, empire_id: u32) -> (made: bool)
    ensures
        made ==> {
            &&& final(contexts).map@ == old(contexts).map@.insert(empire_id, final(contexts).map@[empire_id])
            &&& final(contexts).map@[empire_id] matches Some(c) && gold_path(grid.tiles_spec(), empire_id) == Some(
                c.path_to_gold@,
            ) && fresh_plan(c)
        },
        !made ==> final(contexts).map@ == old(contexts).map@,
        made <==> old(contexts).map@.contains_key(empire_id) && gold_path(grid.tiles_spec(), empire_id) is Some,
{
    if !contexts.map.contains_key(&empire_id) {
        return false;
    }
    match plan_towards_gold(grid, empire_id) {
        Some(c) => {
            contexts.map.insert(empire_id, Some(c));
            true
        },
        None => false,
    }
}


/// What a computer player puts up in a province.
#[derive(Clone, Copy, Debug, PartialEq, Eq, Structural)]
pub enum Construction {
    Castle,
    Special(SpecialBuilding),
    House,
}

/// The buildings a computer player has, by kind.
#[derive(Clone, Copy, Debug, PartialEq, Eq, Structural)]
pub struct Tally {
    pub lumber_mills: u32,
    pub farms: u32,
    pub stone_mines: u32,
    pub gold_mines: u32,
    pub castles: u32,
}

/// `after` is `before` with, at most, another stock of resources.
pub open spec fn only_stock_changed(before: Empire, after: Empire) -> bool {
    after == (Empire { resource_total: after.resource_total, ..before })
}

/// `after` is the plan `before` with, at most, other counts of buildings.
pub open spec fn only_tally_changed(before: AIContext, after: AIContext) -> bool {
    after == (AIContext {
        lumber_mills: after.lumber_mills,
        farms: after.farms,
        stone_mines: after.stone_mines,
        gold_mines: after.gold_mines,
        castles: after.castles,
        ..before
    })
}

/// The buildings that a plan counts.
pub open spec fn tally_of(c: &AIContext) -> Tally {
    Tally {
        lumber_mills: c.lumber_mills,
        farms: c.farms,
        stone_mines: c.stone_mines,
        gold_mines: c.gold_mines,
        castles: c.castles,
    }
}

/// Whether a special building may be put up in a province.
pub open spec fn can_build(p: ProvinceView) -> bool {
    !p.special_building && !p.castle && p.ptype != ProvinceType::Desert && p.ptype != ProvinceType::Water
}

/// A tally with one more building of kind `b`.
pub open spec fn with_one_more(t: Tally, b: SpecialBuilding) -> Tally {
    match b {
        SpecialBuilding::LumberMill => Tally { lumber_mills: (t.lumber_mills + 1) as u32, ..t },
        SpecialBuilding::Farm => Tally { farms: (t.farms + 1) as u32, ..t },
        SpecialBuilding::GoldMine => Tally { gold_mines: (t.gold_mines + 1) as u32, ..t },
        SpecialBuilding::StoneMine => Tally { stone_mines: (t.stone_mines + 1) as u32, ..t },
        SpecialBuilding::Castle => Tally { castles: (t.castles + 1) as u32, ..t },
    }
}

/// Whether the balance of buildings allows one more of kind `b`: a lumber
/// mill first, and then two farms for each more; a farm once there is a
/// lumber mill; a gold mine with more than twice as many lumber mills,
/// three times as many farms and one and a half times as many stone
/// mines; a stone mine with more than twice as many lumber mills and two
/// and a half times as many farms.
pub open spec fn balance_allows(t: Tally, b: SpecialBuilding) -> bool {
    match b {
        SpecialBuilding::LumberMill => !(t.lumber_mills >= 1 && t.farms < 2 * t.lumber_mills),
        SpecialBuilding::Farm => t.lumber_mills >= 1,
        SpecialBuilding::GoldMine => t.lumber_mills > 2 * t.gold_mines && t.farms > 3 * t.gold_mines && 2
            * t.stone_mines > 3 * t.gold_mines,
        SpecialBuilding::StoneMine => t.lumber_mills > 2 * t.stone_mines && 2 * t.farms > 5 * t.stone_mines,
        SpecialBuilding::Castle => false,
    }
}

/// Whether a castle may go up in province `p`: fewer castles than gold
/// mines, more farms than three per castle (and at least five), and
/// farmland or woods.
pub open spec fn castle_allowed(t: Tally, p: ProvinceView) -> bool {
    &&& t.castles < t.gold_mines
    &&& t.gold_mines > 0
    &&& t.farms > (if 3 * t.castles > 4 { 3 * t.castles } else { 4 })
    &&& (p.ptype == ProvinceType::BlackSoil || p.ptype == ProvinceType::Plains || p.ptype == ProvinceType::Woods)
}

/// What a computer player builds in province `p` with tally `t` and stock
/// `total`, where `coin` is the toss that may allow a castle: the new
/// tally and stock, and the building, if any.
pub open spec fn construct_step(t: Tally, total: Amounts, p: ProvinceView, coin: bool) -> (Tally, Amounts, Option<Construction>) {
    if can_build(p) {
        if castle_allowed(t, p) && covers(total, special_cost(SpecialBuilding::Castle)) && coin {
            (
                Tally { castles: (t.castles + 1) as u32, ..t },
                spent(total, special_cost(SpecialBuilding::Castle)),
                Some(Construction::Castle),
            )
        } else {
            match special_building_for(p.ptype) {
                Some(b) => if covers(total, special_cost(b)) && balance_allows(t, b) {
                    (with_one_more(t, b), spent(total, special_cost(b)), Some(Construction::Special(b)))
                } else {
                    (t, total, None)
                },
                None => (t, total, None),
            }
        }
    } else if p.pops + 1 == p.max_pops && p.house_count < MAX_HOUSES && t.lumber_mills >= 1 && t.farms >= 1
        && covers(total, house_cost()) {
        (t, spent(total, house_cost()), Some(Construction::House))
    } else {
        (t, total, None)
    }
}

/// The first `k` steps of a computer player's building round over
/// `provinces`, with the tosses `coins`: the tally, the stock, and the
/// buildings put up (by province position).
pub open spec fn construct_run(
    t: Tally,
    total: Amounts,
    provinces: Seq<&Province>,
    coins: Seq<bool>,
    k: int,
) -> (Tally, Amounts, Seq<(usize, Construction)>)
    decreases k,
{
    if k <= 0 {
        (t, total, Seq::empty())
    } else {
        let (t1, total1, built) = construct_run(t, total, provinces, coins, k - 1);
        let (t2, total2, c) = construct_step(t1, total1, provinces[k - 1]@, coins[k - 1]);
        match c {
            Some(c) => (t2, total2, built.push(((k - 1) as usize, c))),
            None => (t2, total2, built),
        }
    }
}

/// A tally whose counts leave room for `n` more of each: farms, stone
/// mines and gold mines are compared through `f32`, exact up to 2^24;
/// lumber mills are doubled in `u32`; castles are counted in `u32`.
pub open spec fn tally_room(t: Tally, n: int) -> bool {
    &&& t.lumber_mills + n <= 0x8000_0000
    &&& t.farms + n <= 0x100_0000
    &&& t.stone_mines + n <= 0x100_0000
    &&& t.gold_mines + n <= 0x100_0000
    &&& t.castles + n <= 0xFFFF_FFFF
}

proof fn lemma_construct_run_room(t: Tally, total: Amounts, provinces: Seq<&Province>, coins: Seq<bool>, n: int, k: int)
    requires
        tally_room(t, n),
        0 <= k <= n,
    ensures
        tally_room(construct_run(t, total, provinces, coins, k).0, n - k),
    decreases k,
{
    if k > 0 {
        lemma_construct_run_room(t, total, provinces, coins, n, k - 1);
    }
}

/// A computer player's building round over its provinces (in order), with
/// the castle tosses `coins`: in a province without a special building it
/// puts up a castle where a castle is allowed, affordable and the toss
/// says so, else the special building of the terrain where it is
/// affordable and the balance of buildings allows it; in another province
/// whose houses are full but for one place, a house, while it has fewer
/// than three there, a lumber mill and a farm, and can afford it. Each
/// building is paid for and counted.
pub fn ai_construct_buildings_with(
    empire: &mut Empire,
    context: &mut AIContext,
    provinces: &[&Province],
    coins: &[bool],
) -> (built: Vec<(usize, Construction)>)
    requires
        coins@.len() == provinces@.len(),
        tally_room(tally_of(&*old(context)), provinces@.len() as int),
    ensures
        construct_run(tally_of(&*old(context)), old(empire).resource_total, provinces@, coins@, provinces@.len() as int)
            == (tally_of(&*final(context)), final(empire).resource_total, built@),
        only_stock_changed(*old(empire), *final(empire)),
        only_tally_changed(*old(context), *final(context)),
{
    let n = provinces.len();
    let mut built: Vec<(usize, Construction)> = Vec::new();
    let mut i: usize = 0;
    while i < n
        invariant
            n == provinces@.len(),
            n == coins@.len(),
            i <= n,
            tally_room(tally_of(&*old(context)), n as int),
            construct_run(tally_of(&*old(context)), old(empire).resource_total, provinces@, coins@, i as int) == (
            tally_of(&*context), empire.resource_total, built@),
            only_stock_changed(*old(empire), *empire),
            only_tally_changed(*old(context), *context),
        decreases n - i,
    {
        proof {
            lemma_construct_run_room(tally_of(&*old(context)), old(empire).resource_total, provinces@, coins@, n as int, i as int);
        }
        let p = provinces[i];
        let ghost t0 = tally_of(&*context);
        let ghost total0 = empire.resource_total;
        let choice = construct_in(empire, context, p, coins[i]);
        proof {
            assert((tally_of(&*context), empire.resource_total, choice) == construct_step(t0, total0, p@, coins@[i as int]));
        }
        match choice {
            Some(c) => built.push((i, c)),
            None => {},
        }
        i += 1;
    }
    built
}

/// One step of a building round: what goes up in province `p`.
fn construct_in(empire: &mut Empire, context: &mut AIContext, p: &Province, coin: bool) -> (c: Option<Construction>)
    requires
        tally_room(tally_of(&*old(context)), 1),
    ensures
        (tally_of(&*final(context)), final(empire).resource_total, c) == construct_step(
            tally_of(&*old(context)),
            old(empire).resource_total,
            p@,
            coin,
        ),
        only_stock_changed(*old(empire), *final(empire)),
        only_tally_changed(*old(context), *final(context)),
{
    let lumber = context.lumber_mills as u64;
    let farms = context.farms as u64;
    let stone = context.stone_mines as u64;
    let gold = context.gold_mines as u64;
    let castles = context.castles as u64;
    if p.can_build_special_building() {
        let ok_to_build_castle = castles < gold && gold > 0 && farms > (if 3 * castles > 4 {
            3 * castles
        } else {
            4
        }) && (p.ptype() == ProvinceType::BlackSoil || p.ptype() == ProvinceType::Plains || p.ptype()
            == ProvinceType::Woods);
        let castle_cost = SpecialBuilding::Castle.build_cost();
        if ok_to_build_castle && empire.can_afford(&castle_cost) && coin {
            empire.remove_resources(&castle_cost);
            context.castles += 1;
            return Some(Construction::Castle);
        }
        let building = match p.special_building_type() {
            Some(b) => b,
            None => return None,
        };
        let cost = building.build_cost();
        if !empire.can_afford(&cost) {
            return None;
        }
        match building {
            SpecialBuilding::LumberMill => {
                if lumber >= 1 && farms < 2 * lumber {
                    return None;
                }
                context.lumber_mills += 1;
            },
            SpecialBuilding::Farm => {
                if lumber < 1 {
                    return None;
                }
                context.farms += 1;
            },
            SpecialBuilding::GoldMine => {
                let ok_to_build = lumber > 2 * gold && farms > 3 * gold && 2 * stone > 3 * gold;
                if !ok_to_build {
                    return None;
                }
                context.gold_mines += 1;
            },
            SpecialBuilding::StoneMine => {
                let ok_to_build = lumber > 2 * stone && 2 * farms > 5 * stone;
                if !ok_to_build {
                    return None;
                }
                context.stone_mines += 1;
            },
            SpecialBuilding::Castle => {
                return None;
            },
        }
        empire.remove_resources(&cost);
        Some(Construction::Special(building))
    } else if p.get_pops() as u64 + 1 == p.get_max_pops() as u64 && p.get_houses() < MAX_HOUSES && lumber >= 1
        && farms >= 1 {
        let cost = House::build_cost();
        if empire.can_afford(&cost) {
            empire.remove_resources(&cost);
            Some(Construction::House)
        } else {
            None
        }
    } else {
        None
    }
}

/// A computer player's building round, tossing a coin for each province
/// that may get a castle: the outcome of `ai_construct_buildings_with` for
/// some tosses.
pub fn ai_construct_buildings(empire: &mut Empire, context: &mut AIContext, provinces: &[&Province]) -> (built: Vec<(usize, Construction)>)
    requires
        tally_room(tally_of(&*old(context)), provinces@.len() as int),
    ensures
        exists|coins: Seq<bool>|
            coins.len() == provinces@.len() && #[trigger] construct_run(
                tally_of(&*old(context)),
                old(empire).resource_total,
                provinces@,
                coins,
                provinces@.len() as int,
            ) == (tally_of(&*final(context)), final(empire).resource_total, built@),
        only_stock_changed(*old(empire), *final(empire)),
        only_tally_changed(*old(context), *final(context)),
{
    let n = provinces.len();
    let mut coins: Vec<bool> = Vec::new();
    let mut i: usize = 0;
    while i < n
        invariant
            n == provinces@.len(),
            i <= n,
            coins@.len() == i,
        decreases n - i,
    {
        coins.push(random_bit() == 1);
        i += 1;
    }
    ai_construct_buildings_with(empire, context, provinces, &coins)
}


/// Whether a computer player settles people in province `p`: not desert,
/// not water, no castle.
pub open spec fn settles_in(p: ProvinceView) -> bool {
    p.ptype != ProvinceType::Desert && p.ptype != ProvinceType::Water && !p.castle
}

/// The room for more residents in province `p`.
pub open spec fn room_in(p: ProvinceView) -> int {
    if p.pops < p.max_pops {
        p.max_pops - p.pops
    } else {
        0
    }
}

/// Whether province `a` is filled before province `b` (by position in
/// `ps`): terrains in declaration order, then the one with more room, then
/// the earlier one.
pub open spec fn filled_before(ps: Seq<&Province>, a: int, b: int) -> bool {
    let oa = ps[a]@.ptype.order_spec();
    let ob = ps[b]@.ptype.order_spec();
    ||| oa < ob
    ||| oa == ob && room_in(ps[a]@) > room_in(ps[b]@)
    ||| oa == ob && room_in(ps[a]@) == room_in(ps[b]@) && a < b
}

/// The room in the provinces among the first `k` that are filled before
/// province `b`.
pub open spec fn room_before(ps: Seq<&Province>, b: int, k: int) -> int
    decreases k,
{
    if k <= 0 {
        0
    } else {
        room_before(ps, b, k - 1) + if settles_in(ps[k - 1]@) && filled_before(ps, k - 1, b) {
            room_in(ps[k - 1]@)
        } else {
            0
        }
    }
}

/// The people that `free` free people bring to province `b`: the provinces
/// are filled one after another, each as far as its room allows.
pub open spec fn share_of(ps: Seq<&Province>, free: int, b: int) -> int {
    if !settles_in(ps[b]@) {
        0
    } else {
        let before = room_before(ps, b, ps.len() as int);
        if free <= before {
            0
        } else if free - before < room_in(ps[b]@) {
            free - before
        } else {
            room_in(ps[b]@)
        }
    }
}

/// The people given to the first `k` provinces.
pub open spec fn shares_total(ps: Seq<&Province>, free: int, k: int) -> int
    decreases k,
{
    if k <= 0 {
        0
    } else {
        shares_total(ps, free, k - 1) + share_of(ps, free, k - 1)
    }
}

/// How two provinces rank for settling: by terrain in declaration order,
/// then the one with more room first.
pub fn order_provinces(a: &Province, b: &Province) -> (o: std::cmp::Ordering)
    ensures
        o == if a@.ptype.order_spec() < b@.ptype.order_spec() {
            std::cmp::Ordering::Less
        } else if a@.ptype.order_spec() > b@.ptype.order_spec() {
            std::cmp::Ordering::Greater
        } else if room_in(a@) > room_in(b@) {
            std::cmp::Ordering::Less
        } else if room_in(a@) < room_in(b@) {
            std::cmp::Ordering::Greater
        } else {
            std::cmp::Ordering::Equal
        },
{
    let oa = a.ptype().order_id();
    let ob = b.ptype().order_id();
    if oa < ob {
        return std::cmp::Ordering::Less;
    }
    if oa > ob {
        return std::cmp::Ordering::Greater;
    }
    let ra = a.pops_extra_room();
    let rb = b.pops_extra_room();
    if ra > rb {
        std::cmp::Ordering::Less
    } else if ra < rb {
        std::cmp::Ordering::Greater
    } else {
        std::cmp::Ordering::Equal
    }
}

/// Whether the province at position `a` is filled before the one at `b`.
pub open spec fn ranked_before(ps: Seq<&Province>, a: usize, b: usize) -> bool {
    filled_before(ps, a as int, b as int)
}

/// Whether `a` is filled before `b` (positions in `ps`).
fn precedes(ps: &[&Province], a: usize, b: usize) -> (r: bool)
    requires
        a < ps@.len(),
        b < ps@.len(),
    ensures
        r == ranked_before(ps@, a, b),
{
    match order_provinces(ps[a], ps[b]) {
        std::cmp::Ordering::Less => true,
        std::cmp::Ordering::Greater => false,
        std::cmp::Ordering::Equal => a < b,
    }
}

/// A computer player settles its free people in its provinces (all of
/// them held by it): desert, water and castle provinces aside, it fills
/// them in rank order (terrain, then more room first), each as far as its
/// room allows. Gives the people brought to each province, by position.
pub fn ai_assign_pops(empire: &mut Empire, provinces: &[&Province]) -> (shares: Vec<u32>)
    requires
        provinces@.len() < 0x1_0000_0000,
    ensures
        shares@.len() == provinces@.len(),
        forall|b: int| 0 <= b < provinces@.len() ==> #[trigger] shares@[b] == share_of(provinces@, old(empire).pops_free as int, b),
        ({
            let total = shares_total(provinces@, old(empire).pops_free as int, provinces@.len() as int);
            final(empire).pops_free == if total <= old(empire).pops_free { old(empire).pops_free - total } else { 0 }
        }),
        final(empire).resource_total == old(empire).resource_total,
{
    let free = empire.get_free_pops() as u64;
    let n = provinces.len();
    let mut shares: Vec<u32> = Vec::new();
    let mut given: u64 = 0;
    let mut b: usize = 0;
    while b < n
        invariant
            n == provinces@.len(),
            n < 0x1_0000_0000,
            b <= n,
            free == old(empire).pops_free,
            empire.pops_free == old(empire).pops_free,
            empire.resource_total == old(empire).resource_total,
            shares@.len() == b,
            forall|j: int| 0 <= j < b ==> #[trigger] shares@[j] == share_of(provinces@, free as int, j),
            given == shares_total(provinces@, free as int, b as int),
            given <= b * 0xffff_ffff,
        decreases n - b,
    {
        let p = provinces[b];
        let t = p.ptype();
        let share: u64 = if t == ProvinceType::Desert || t == ProvinceType::Water || p.has_castle() {
            0
        } else {
            let mut before: u64 = 0;
            let mut a: usize = 0;
            while a < n
                invariant
                    n == provinces@.len(),
                    n < 0x1_0000_0000,
                    a <= n,
                    b < n,
                    before == room_before(provinces@, b as int, a as int),
                    before <= a * 0xffff_ffff,
                decreases n - a,
            {
                let q = provinces[a];
                let tq = q.ptype();
                if tq != ProvinceType::Desert && tq != ProvinceType::Water && !q.has_castle() && precedes(provinces, a, b) {
                    before = before + q.pops_extra_room() as u64;
                }
                a += 1;
            }
            let room = p.pops_extra_room() as u64;
            if free <= before {
                0
            } else if free - before < room {
                free - before
            } else {
                room
            }
        };
        proof {
            assert(share == share_of(provinces@, free as int, b as int));
        }
        shares.push(share as u32);
        given = given + share;
        b += 1;
    }
    empire.pops_free = if given <= free {
        (free - given) as u32
    } else {
        0
    };
    shares
}

/// Whether a computer player may raise an army: it has a castle, room for
/// another soldier, a free person and the price of a recruit. (Raising it
/// is left to the player's other moves.)
pub fn ai_create_army(context: &AIContext, empire: &Empire) -> (ok: bool)
    ensures
        ok == (context.castles > 0 && empire.soldiers < empire.max_soldiers && empire.pops_free > 0 && covers(
            empire.resource_total,
            Amounts { grain: Some(8), lumber: None, stone: None, gold: Some(0) },
        )),
{
    if context.castles == 0 {
        return false;
    }
    if empire.get_soldiers() >= empire.max_soldiers {
        return false;
    }
    if !empire.has_free_pops() {
        return false;
    }
    let cost = SoldierType::Infantry.recruit_cost();
    empire.can_afford(&cost)
}

/// What putting up `c` costs.
pub open spec fn construction_cost(c: Construction) -> Amounts {
    match c {
        Construction::Castle => special_cost(SpecialBuilding::Castle),
        Construction::Special(b) => special_cost(b),
        Construction::House => house_cost(),
    }
}

/// What is left of `total` once the buildings of `built` are paid for, in
/// order.
pub open spec fn paid_for(total: Amounts, built: Seq<(usize, Construction)>) -> Amounts
    decreases built.len(),
{
    if built.len() == 0 {
        total
    } else {
        spent(paid_for(total, built.drop_last()), construction_cost(built.last().1))
    }
}

/// A building that a computer player puts up is one it can pay for, and
/// it is paid: the stock afterwards is the stock before less the
/// building's cost, and the count of that kind of building goes up by one
/// (houses are not counted). Where nothing is built, stock and counts stay.
pub proof fn law_buildings_are_paid(t: Tally, total: Amounts, p: ProvinceView, coin: bool)
    ensures
        ({
            let (t2, total2, c) = construct_step(t, total, p, coin);
            match c {
                Some(c) => {
                    &&& covers(total, construction_cost(c))
                    &&& total2 == spent(total, construction_cost(c))
                    &&& c == Construction::Castle ==> t2 == Tally { castles: (t.castles + 1) as u32, ..t }
                    &&& c == Construction::House ==> t2 == t
                    &&& c matches Construction::Special(b) ==> b != SpecialBuilding::Castle && special_building_for(p.ptype)
                        == Some(b) && t2 == with_one_more(t, b)
                },
                None => total2 == total && t2 == t,
            }
        }),
{
}

/// Over a whole building round, the stock at the end is the stock at the
/// start less the cost of every building put up, in the order they went
/// up.
pub proof fn law_round_pays_for_what_it_builds(
    t: Tally,
    total: Amounts,
    provinces: Seq<&Province>,
    coins: Seq<bool>,
    k: int,
)
    requires
        0 <= k,
    ensures
        construct_run(t, total, provinces, coins, k).1 == paid_for(total, construct_run(t, total, provinces, coins, k).2),
    decreases k,
{
    if k > 0 {
        law_round_pays_for_what_it_builds(t, total, provinces, coins, k - 1);
        let (t1, total1, built) = construct_run(t, total, provinces, coins, k - 1);
        law_buildings_are_paid(t1, total1, provinces[k - 1]@, coins[k - 1]);
        let c = construct_step(t1, total1, provinces[k - 1]@, coins[k - 1]).2;
        if let Some(c) = c {
            assert(built.push(((k - 1) as usize, c)).drop_last() =~= built);
        }
    }
}

proof fn lemma_nearest_gold(tiles: Seq<Tile>, empire: u32, start: (i32, i32), k: int)
    requires
        0 <= k <= tiles.len(),
    ensures
        match nearest_gold(tiles, empire, start, k) {
            Some((m, len)) => {
                &&& 0 <= m < k
                &&& tiles[m].ptype == ProvinceType::Mountains
                &&& hex_a_star(start, tiles[m].hex, open_for(tiles, empire)) matches Some(p) && p.len() == len
                &&& forall|j: int|
                    0 <= j < k && tiles[j].ptype == ProvinceType::Mountains ==> (#[trigger] hex_a_star(
                        start,
                        tiles[j].hex,
                        open_for(tiles, empire),
                    ) matches Some(q) ==> len <= q.len())
            },
            None => forall|j: int|
                0 <= j < k && tiles[j].ptype == ProvinceType::Mountains ==> #[trigger] hex_a_star(
                    start,
                    tiles[j].hex,
                    open_for(tiles, empire),
                ) is None,
        },
    decreases k,
{
    if k > 0 {
        lemma_nearest_gold(tiles, empire, start, k - 1);
    }
}

/// The plan of a computer player heads, from the first tile the empire
/// holds, for a mountain whose A* path is no longer than that of any other
/// mountain the empire reaches; the plan is that path less its steps onto
/// held tiles. There is no plan exactly where the empire holds no tile or
/// reaches no mountain.
pub proof fn law_plan_heads_for_nearest_gold(tiles: Seq<Tile>, empire: u32)
    ensures
        ({
            let held = held_positions(tiles, empire, tiles.len() as int);
            let open = open_for(tiles, empire);
            &&& held.len() == 0 ==> gold_path(tiles, empire) is None
            &&& held.len() > 0 ==> {
                let start = tiles[held[0]].hex;
                &&& gold_path(tiles, empire) is None <==> (forall|j: int|
                    0 <= j < tiles.len() && tiles[j].ptype == ProvinceType::Mountains ==> #[trigger] hex_a_star(
                        start,
                        tiles[j].hex,
                        open,
                    ) is None)
                &&& gold_path(tiles, empire) matches Some(path) ==> exists|m: int|
                    0 <= m < tiles.len() && tiles[m].ptype == ProvinceType::Mountains && (#[trigger] hex_a_star(
                        start,
                        tiles[m].hex,
                        open,
                    ) matches Some(p) && path == unheld_steps(tiles, p, p.len() as int) && forall|j: int|
                        0 <= j < tiles.len() && tiles[j].ptype == ProvinceType::Mountains ==> (#[trigger] hex_a_star(
                            start,
                            tiles[j].hex,
                            open,
                        ) matches Some(q) ==> p.len() <= q.len()))
            }
        }),
{
    let held = held_positions(tiles, empire, tiles.len() as int);
    if held.len() > 0 {
        let start = tiles[held[0]].hex;
        lemma_nearest_gold(tiles, empire, start, tiles.len() as int);
        match nearest_gold(tiles, empire, start, tiles.len() as int) {
            Some((m, len)) => {
                assert(hex_a_star(start, tiles[m].hex, open_for(tiles, empire)) is Some);
            },
            None => {},
        }
    }
}

} // verus!
