//! The hexagonal map: where each province lies, its terrain and its owner,
//! and the paths across it.
use vstd::prelude::*;
use hexx::Hex;
use crate::game::empire::{ordered, Empires, EmpiresView};
use crate::game::province::ProvinceType;

verus! {

/// The largest coordinate a tile may have, either way. The hexagonal-grid
/// library measures the distance between two places from the difference
/// of their coordinates and the sum of that difference's two coordinates,
/// all in `i32`, and adds distances to path costs in `u32`: within this
/// bound none of these overflows.
pub const HEX_LIMIT: i32 = 0x1000_0000;

/// A coordinate pair within the map's limits.
pub open spec fn in_limits(h: (i32, i32)) -> bool {
    -HEX_LIMIT <= h.0 <= HEX_LIMIT && -HEX_LIMIT <= h.1 <= HEX_LIMIT
}

/// The six neighbours of a hexagon in axial coordinates, in the order the
/// hexagonal-grid library lists them.
pub open spec fn neighbors(h: (i32, i32)) -> Seq<(i32, i32)> {
    seq![
        ((h.0 + 1) as i32, h.1),
        (h.0, (h.1 + 1) as i32),
        ((h.0 - 1) as i32, (h.1 + 1) as i32),
        ((h.0 - 1) as i32, h.1),
        (h.0, (h.1 - 1) as i32),
        ((h.0 + 1) as i32, (h.1 - 1) as i32),
    ]
}

/// A place whose neighbours' coordinates are numbers of `i32`.
pub open spec fn neighbors_fit(h: (i32, i32)) -> bool {
    i32::MIN < h.0 < i32::MAX && i32::MIN < h.1 < i32::MAX
}

/// The six neighbours of a hexagon.
pub fn hex_neighbors(h: (i32, i32)) -> (r: Vec<(i32, i32)>)
    requires
        neighbors_fit(h),
    ensures
        r@ == neighbors(h),
{
    let (x, y) = h;
    let r = vec![(x + 1, y), (x, y + 1), (x - 1, y + 1), (x - 1, y), (x, y - 1), (x + 1, y - 1)];
    assert(r@ == neighbors(h));
    r
}

/// A tile of the map: where it lies, its terrain, the empire that holds it
/// (by id), and the entity of its province.
#[derive(Clone, Copy, Debug)]
pub struct Tile {
    pub hex: (i32, i32),
    pub ptype: ProvinceType,
    pub owner: Option<u32>,
    pub entity: u64,
}

/// The tiles of the map, at distinct places within the limits.
pub struct Grid {
    tiles: Vec<Tile>,
}

/// Tiles at distinct places within the limits.
pub open spec fn well_placed(tiles: Seq<Tile>) -> bool {
    &&& forall|i: int| 0 <= i < tiles.len() ==> in_limits(#[trigger] tiles[i].hex)
    &&& forall|i: int, j: int| 0 <= i < j < tiles.len() ==> #[trigger] tiles[i].hex != #[trigger] tiles[j].hex
}

/// The position of the tile at `h`, if any.
pub open spec fn tile_at(tiles: Seq<Tile>, h: (i32, i32)) -> Option<int> {
    if exists|i: int| 0 <= i < tiles.len() && tiles[i].hex == h {
        Some(choose|i: int| 0 <= i < tiles.len() && tiles[i].hex == h)
    } else {
        None
    }
}

/// The places that an army of empire `empire` may cross on its way: tiles
/// that are not water and that no other empire holds.
pub open spec fn open_for(tiles: Seq<Tile>, empire: u32) -> Set<(i32, i32)> {
    Set::new(
        |h: (i32, i32)|
            exists|i: int|
                0 <= i < tiles.len() && tiles[i].hex == h && tiles[i].ptype != ProvinceType::Water && (
                tiles[i].owner matches Some(o) ==> o == empire),
    )
}

/// What one step onto each tile costs an army of empire `empire`: the
/// terrain's cost, where the tile is not water and not held by an empire
/// at peace with it.
pub open spec fn march_costs(tiles: Seq<Tile>, diplomacy: EmpiresView, empire: u32) -> Map<(i32, i32), u32> {
    Map::new(
        |h: (i32, i32)|
            tile_at(tiles, h) matches Some(i) && tiles[i].ptype != ProvinceType::Water && (
            tiles[i].owner matches Some(o) ==> (o == empire || diplomacy.war.contains(ordered(o, empire)))),
        |h: (i32, i32)| tiles[tile_at(tiles, h)->0].ptype.march_cost_spec()->0,
    )
}

/// The path that the hexagonal-grid library's A* search finds from `start`
/// to `goal` across the places `open`, each step costing one.
pub uninterp spec fn hex_a_star(start: (i32, i32), goal: (i32, i32), open: Set<(i32, i32)>) -> Option<Seq<(i32, i32)>>;

/// Whether `path` is a walk from `start`: it begins there, and each place
/// is a neighbour of the one before.
pub open spec fn is_walk(start: (i32, i32), path: Seq<(i32, i32)>) -> bool {
    &&& path.len() >= 1
    &&& path[0] == start
    &&& forall|k: int| 0 <= k < path.len() - 1 ==> neighbors(path[k]).contains(#[trigger] path[k + 1])
}

/// What the first `k` steps of a walk cost: each place entered, its cost in
/// `costs` plus one; nothing where a place entered has no cost.
pub open spec fn walk_cost(path: Seq<(i32, i32)>, costs: Map<(i32, i32), u32>, k: int) -> Option<int>
    decreases k,
{
    if k <= 0 {
        Some(0)
    } else {
        match walk_cost(path, costs, k - 1) {
            Some(c) => if costs.contains_key(path[k]) {
                Some(c + costs[path[k]] + 1)
            } else {
                None
            },
            None => None,
        }
    }
}

/// The places that a walk from `start` reaches with `budget`: those where
/// a walk ends whose steps cost no more than the budget in all.
pub open spec fn reachable_within(start: (i32, i32), budget: u32, costs: Map<(i32, i32), u32>) -> Set<(i32, i32)> {
    Set::new(
        |h: (i32, i32)|
            exists|path: Seq<(i32, i32)>|
                #[trigger] is_walk(start, path) && path.last() == h && (walk_cost(path, costs, path.len() - 1) matches Some(
                    c,
                ) && c <= budget),
    )
}

/// An army always reaches the place where it stands, whatever its budget.
pub proof fn law_start_is_reachable(start: (i32, i32), budget: u32, costs: Map<(i32, i32), u32>)
    ensures
        reachable_within(start, budget, costs).contains(start),
{
    let p = seq![start];
    assert(is_walk(start, p));
    assert(walk_cost(p, costs, 0) == Some(0int));
}

impl Grid {
    /// The tiles, in the order they were given.
    pub closed spec fn tiles_spec(&self) -> Seq<Tile> {
        self.tiles@
    }

    #[verifier::type_invariant]
    spec fn inv(self) -> bool {
        well_placed(self.tiles@)
    }

    /// The map of the given tiles; none where two share a place or one lies
    /// beyond the limits.
    pub fn from_tiles(tiles: Vec<Tile>) -> (g: Option<Grid>)
        ensures
            well_placed(tiles@) <==> g is Some,
            g matches Some(g) ==> g.tiles_spec() == tiles@,
    {
        let n = tiles.len();
        let mut i: usize = 0;
        while i < n
            invariant
                n == tiles@.len(),
                i <= n,
                forall|a: int| 0 <= a < i ==> in_limits(#[trigger] tiles@[a].hex),
                forall|a: int, b: int| 0 <= a < b < n && a < i ==> #[trigger] tiles@[a].hex != #[trigger] tiles@[b].hex,
            decreases n - i,
        {
            let (x, y) = tiles[i].hex;
            if x < -HEX_LIMIT || x > HEX_LIMIT || y < -HEX_LIMIT || y > HEX_LIMIT {
                assert(!in_limits(tiles@[i as int].hex));
                return None;
            }
            let mut j: usize = i + 1;
            while j < n
                invariant
                    n == tiles@.len(),
                    i < j <= n,
                    x == tiles@[i as int].hex.0,
                    y == tiles@[i as int].hex.1,
                    forall|b: int| i < b < j ==> #[trigger] tiles@[b].hex != tiles@[i as int].hex,
                decreases n - j,
            {
                if tiles[j].hex.0 == x && tiles[j].hex.1 == y {
                    assert(tiles@[i as int].hex == tiles@[j as int].hex);
                    return None;
                }
                j += 1;
            }
            i += 1;
        }
        Some(Grid { tiles })
    }

    /// The tiles.
    pub fn tiles(&self) -> (t: &Vec<Tile>)
        ensures
            t@ == self.tiles_spec(),
            well_placed(t@),
    {
        proof {
            use_type_invariant(self);
        }
        &self.tiles
    }

    /// The position of the tile at `h`, if any.
    pub fn find(&self, h: (i32, i32)) -> (r: Option<usize>)
        ensures
            r matches Some(i) ==> i < self.tiles_spec().len() && self.tiles_spec()[i as int].hex == h,
            r is None ==> forall|i: int| 0 <= i < self.tiles_spec().len() ==> self.tiles_spec()[i].hex != h,
            r matches Some(i) ==> tile_at(self.tiles_spec(), h) == Some(i as int),
            r is None ==> tile_at(self.tiles_spec(), h) is None,
    {
        proof {
            use_type_invariant(self);
        }
        let n = self.tiles.len();
        let mut i: usize = 0;
        while i < n
            invariant
                n == self.tiles@.len(),
                i <= n,
                well_placed(self.tiles@),
                forall|j: int| 0 <= j < i ==> self.tiles@[j].hex != h,
            decreases n - i,
        {
            if self.tiles[i].hex.0 == h.0 && self.tiles[i].hex.1 == h.1 {
                proof {
                    assert(self.tiles@[i as int].hex == h);
                    let c = choose|c: int| 0 <= c < self.tiles@.len() && self.tiles@[c].hex == h;
                    if c != i {
                        if c < i {
                            assert(self.tiles@[c].hex != self.tiles@[i as int].hex);
                        } else {
                            assert(self.tiles@[i as int].hex != self.tiles@[c].hex);
                        }
                    }
                }
                return Some(i);
            }
            i += 1;
        }
        None
    }

    /// What a step onto `h` costs on the way of empire `empire`: one, where
    /// the tile is not water and no other empire holds it.
    pub fn path_step(&self, empire: u32, h: (i32, i32)) -> (r: Option<u32>)
        ensures
            r is Some <==> open_for(self.tiles_spec(), empire).contains(h),
            r matches Some(c) ==> c == 1,
    {
        match self.find(h) {
            None => {
                assert(!open_for(self.tiles_spec(), empire).contains(h));
                None
            },
            Some(i) => {
                let t = self.tiles[i];
                proof {
                    use_type_invariant(self);
                    if open_for(self.tiles_spec(), empire).contains(h) {
                        let j = choose|j: int|
                            0 <= j < self.tiles@.len() && self.tiles@[j].hex == h && self.tiles@[j].ptype
                                != ProvinceType::Water && (self.tiles@[j].owner matches Some(o) ==> o == empire);
                        if j != i {
                            if j < i {
                                assert(self.tiles@[j].hex != self.tiles@[i as int].hex);
                            } else {
                                assert(self.tiles@[i as int].hex != self.tiles@[j].hex);
                            }
                        }
                    }
                }
                if let ProvinceType::Water = t.ptype {
                    return None;
                }
                match t.owner {
                    Some(o) => if o != empire {
                        return None;
                    },
                    None => {},
                }
                Some(1)
            },
        }
    }

    /// What a step onto `h` costs an army of empire `empire`: the terrain's
    /// cost, where the tile is not water and not held by an empire at peace
    /// with it.
    pub fn march_step(&self, diplomacy: &Empires, empire: u32, h: (i32, i32)) -> (r: Option<u32>)
        ensures
            r is Some <==> march_costs(self.tiles_spec(), diplomacy@, empire).contains_key(h),
            r matches Some(c) ==> c == march_costs(self.tiles_spec(), diplomacy@, empire)[h],
    {
        match self.find(h) {
            None => None,
            Some(i) => {
                let t = self.tiles[i];
                match t.owner {
                    Some(o) => if o != empire && !diplomacy.at_war(o, empire) {
                        return None;
                    },
                    None => {},
                }
                match t.ptype {
                    ProvinceType::Water => None,
                    ProvinceType::BlackSoil => Some(2),
                    ProvinceType::Plains => Some(2),
                    ProvinceType::Woods => Some(3),
                    ProvinceType::Desert => Some(5),
                    ProvinceType::Hills => Some(4),
                    ProvinceType::Mountains => Some(6),
                }
            },
        }
    }
}

/// Finds a path from `start` to `goal` for empire `empire` with
/// `hexx::algorithms::a_star`, each step onto an open tile costing one. The
/// contract names the library's result; the path depends on the places that
/// are open alone.
#[verifier::external_body]
pub(crate) fn a_star_path(grid: &Grid, empire: u32, start: (i32, i32), goal: (i32, i32)) -> (r: Option<Vec<(i32, i32)>>)
    requires
        in_limits(start),
        in_limits(goal),
    ensures
        match r {
            Some(p) => hex_a_star(start, goal, open_for(grid.tiles_spec(), empire)) == Some(p@),
            None => hex_a_star(start, goal, open_for(grid.tiles_spec(), empire)) is None,
        },
{
    let path = hexx::algorithms::a_star(
        Hex::new(start.0, start.1),
        Hex::new(goal.0, goal.1),
        |_, b: Hex| grid.path_step(empire, (b.x, b.y)),
    );
    path.map(|p| p.into_iter().map(|h| (h.x, h.y)).collect())
}

/// The places that an army of empire `empire` reaches from `start` with
/// `budget`, by `hexx::algorithms::field_of_movement`. The library keeps
/// the start at cost zero and gives each other place, within `budget`
/// rings, the cheapest cost of stepping onto it from a neighbour (its cost
/// plus one); it returns the places of cost at most `budget`. As every step
/// costs one at least, no cheaper walk leaves those rings, so these are the
/// places some walk of cost at most `budget` reaches. The library gives
/// them as a hash set; they are listed here once each, in no order that
/// the contract states. The library counts the hexagons within `budget`
/// in `u32` and adds coordinates in `i32`, so the start lies within the
/// map's limits and the budget is at most that of an army (10).
#[verifier::external_body]
fn movement_field(grid: &Grid, diplomacy: &Empires, empire: u32, start: (i32, i32), budget: u32) -> (r: Vec<(i32, i32)>)
    requires
        in_limits(start),
        budget <= 10,
    ensures
        r@.no_duplicates(),
        r@.to_set() == reachable_within(start, budget, march_costs(grid.tiles_spec(), diplomacy@, empire)),
{
    let field = hexx::algorithms::field_of_movement(
        Hex::new(start.0, start.1),
        budget,
        |h: Hex| grid.march_step(diplomacy, empire, (h.x, h.y)),
    );
    field.into_iter().map(|h| (h.x, h.y)).collect()
}

/// The tiles that an army of empire `empire` with march budget `budget`
/// reaches from the tile at `start`, by position in the map.
pub fn get_reachable_tiles(grid: &Grid, diplomacy: &Empires, empire: u32, start: (i32, i32), budget: u32) -> (r: Vec<usize>)
    requires
        in_limits(start),
        budget <= 10,
    ensures
        forall|j: int| 0 <= j < r@.len() ==> #[trigger] r@[j] < grid.tiles_spec().len(),
        forall|i: int|
            0 <= i < grid.tiles_spec().len() ==> (r@.contains(i as usize) <==> reachable_within(
                start,
                budget,
                march_costs(grid.tiles_spec(), diplomacy@, empire),
            ).contains(#[trigger] grid.tiles_spec()[i].hex)),
{
    let hexes = movement_field(grid, diplomacy, empire, start, budget);
    let ghost field = reachable_within(start, budget, march_costs(grid.tiles_spec(), diplomacy@, empire));
    let mut out: Vec<usize> = Vec::new();
    let total = grid.tiles().len();
    let n = hexes.len();
    let mut k: usize = 0;
    while k < n
        invariant
            total == grid.tiles_spec().len(),
            n == hexes@.len(),
            k <= n,
            hexes@.to_set() == field,
            forall|j: int| 0 <= j < out@.len() ==> #[trigger] out@[j] < grid.tiles_spec().len(),
            forall|i: int|
                0 <= i < grid.tiles_spec().len() ==> (out@.contains(i as usize) <==> hexes@.take(
                    k as int,
                ).contains(#[trigger] grid.tiles_spec()[i].hex)),
        decreases n - k,
    {
        let h = hexes[k];
        let ghost before = out@;
        let found = grid.find(h);
        match found {
            Some(i) => {
                out.push(i);
            },
            None => {},
        }
        proof {
            use_type_invariant(grid);
            assert(found is Some ==> out@ == before.push(found->0));
            assert(found is None ==> out@ == before);
            if found is Some {
                assert(grid.tiles_spec()[found->0 as int].hex == h);
            }
            let prev = hexes@.take(k as int);
            let next = hexes@.take(k + 1);
            assert(next == prev.push(h));
            assert forall|j: int| 0 <= j < out@.len() implies #[trigger] out@[j] < grid.tiles_spec().len() by {
                if j < before.len() {
                    assert(out@[j] == before[j]);
                }
            }
            assert forall|i: int| 0 <= i < grid.tiles_spec().len() implies (out@.contains(i as usize)
                <==> next.contains(#[trigger] grid.tiles_spec()[i].hex)) by {
                let t = grid.tiles_spec()[i].hex;
                if next.contains(t) && !prev.contains(t) {
                    let x = choose|x: int| 0 <= x < next.len() && next[x] == t;
                    if x < prev.len() {
                        assert(prev[x] == t);
                    }
                    assert(t == h);
                }
                if prev.contains(t) {
                    let x = choose|x: int| 0 <= x < prev.len() && prev[x] == t;
                    assert(next[x] == t);
                }
                if out@.contains(i as usize) && !before.contains(i as usize) {
                    assert(found is Some);
                    let x = choose|x: int| 0 <= x < out@.len() && out@[x] == i as usize;
                    if x < before.len() {
                        assert(before[x] == i as usize);
                    }
                    assert(out@[out@.len() - 1] == i as usize);
                    assert(found->0 == i as usize);
                    assert((i as usize) as int == i);
                    assert(grid.tiles_spec()[i].hex == h);
                    assert(next[k as int] == h);
                }
                if before.contains(i as usize) {
                    let x = choose|x: int| 0 <= x < before.len() && before[x] == i as usize;
                    assert(out@[x] == i as usize);
                }
                if out@.contains(i as usize) && out@.len() == before.len() {
                    let x = choose|x: int| 0 <= x < out@.len() && out@[x] == i as usize;
                    assert(before[x] == i as usize);
                }
                if next.contains(t) && !prev.contains(t) {
                    let i2 = found->0;
                    assert(grid.tiles_spec()[i2 as int].hex == h);
                    if i2 as int != i {
                        if (i2 as int) < i {
                            assert(grid.tiles@[i2 as int].hex != grid.tiles@[i].hex);
                        } else {
                            assert(grid.tiles@[i].hex != grid.tiles@[i2 as int].hex);
                        }
                    }
                    assert(out@[out@.len() - 1] == i as usize);
                }
            }
        }
        k += 1;
    }
    proof {
        assert(hexes@.take(n as int) == hexes@);
        assert forall|i: int| 0 <= i < grid.tiles_spec().len() implies (out@.contains(i as usize) <==> field.contains(
            #[trigger] grid.tiles_spec()[i].hex,
        )) by {
            assert(hexes@.to_set().contains(grid.tiles_spec()[i].hex) == hexes@.contains(grid.tiles_spec()[i].hex));
        }
    }
    out
}


/// Whether the place `h` holds a tile, not water, that empire `empire`
/// holds.
pub open spec fn held_land_at(tiles: Seq<Tile>, h: (i32, i32), empire: u32) -> bool {
    tile_at(tiles, h) matches Some(i) && tiles[i].ptype != ProvinceType::Water && tiles[i].owner == Some(empire)
}

/// Whether one of the places `places` holds a tile, not water, that empire
/// `empire` holds.
pub open spec fn borders(tiles: Seq<Tile>, places: Seq<(i32, i32)>, empire: u32) -> bool {
    exists|k: int| 0 <= k < places.len() && #[trigger] held_land_at(tiles, places[k], empire)
}

/// Whether the place `h` lies next to a tile, not water, that empire
/// `empire` holds: the condition for that empire to claim it.
pub fn borders_empire(grid: &Grid, h: (i32, i32), empire: u32) -> (r: bool)
    requires
        neighbors_fit(h),
    ensures
        r == borders(grid.tiles_spec(), neighbors(h), empire),
{
    let places = hex_neighbors(h);
    let tiles = grid.tiles();
    let n = places.len();
    let mut k: usize = 0;
    while k < n
        invariant
            n == places@.len(),
            places@ == neighbors(h),
            tiles@ == grid.tiles_spec(),
            k <= n,
            forall|j: int| 0 <= j < k ==> !#[trigger] held_land_at(tiles@, places@[j], empire),
        decreases n - k,
    {
        match grid.find(places[k]) {
            Some(i) => {
                if tiles[i].ptype != ProvinceType::Water && tiles[i].owner == Some(empire) {
                    assert(held_land_at(tiles@, places@[k as int], empire));
                    return true;
                }
            },
            None => {},
        }
        k += 1;
    }
    false
}

/// The first place of `places` from position `k` on with a plains tile
/// that is not among `taken`, by the tile's position.
pub open spec fn first_free_plains(tiles: Seq<Tile>, places: Seq<(i32, i32)>, taken: Seq<usize>, k: int) -> Option<int>
    decreases places.len() - k,
{
    if k < 0 || k >= places.len() {
        None
    } else if tile_at(tiles, places[k]) matches Some(i) && tiles[i].ptype == ProvinceType::Plains && !taken.contains(
        i as usize,
    ) {
        tile_at(tiles, places[k])
    } else {
        first_free_plains(tiles, places, taken, k + 1)
    }
}

/// Whether `v` holds `x`.
fn contains_index(v: &[usize], x: usize) -> (r: bool)
    ensures
        r == v@.contains(x),
{
    let n = v.len();
    let mut i: usize = 0;
    while i < n
        invariant
            n == v@.len(),
            i <= n,
            forall|j: int| 0 <= j < i ==> v@[j] != x,
        decreases n - i,
    {
        if v[i] == x {
            return true;
        }
        i += 1;
    }
    false
}

/// Two starting provinces around the tile at position `tile`: the tile,
/// where it is woods and not taken yet, with its first plains neighbour
/// that is not taken yet.
pub fn starting_pair(grid: &Grid, tile: usize, taken: &[usize]) -> (r: Option<(usize, usize)>)
    requires
        tile < grid.tiles_spec().len(),
    ensures
        ({
            let tiles = grid.tiles_spec();
            let ok = !taken@.contains(tile) && tiles[tile as int].ptype == ProvinceType::Woods;
            let plains = first_free_plains(tiles, neighbors(tiles[tile as int].hex), taken@, 0);
            match r {
                Some((w, p)) => ok && w == tile && plains == Some(p as int),
                None => !ok || plains is None,
            }
        }),
{
    let tiles = grid.tiles();
    if contains_index(taken, tile) {
        return None;
    }
    let t = tiles[tile];
    if t.ptype != ProvinceType::Woods {
        return None;
    }
    let places = hex_neighbors(t.hex);
    let n = places.len();
    let mut k: usize = 0;
    while k < n
        invariant
            n == places@.len(),
            places@ == neighbors(t.hex),
            tiles@ == grid.tiles_spec(),
            tile < tiles@.len(),
            t == tiles@[tile as int],
            t.ptype == ProvinceType::Woods,
            !taken@.contains(tile),
            k <= n,
            first_free_plains(tiles@, places@, taken@, 0) == first_free_plains(tiles@, places@, taken@, k as int),
        decreases n - k,
    {
        match grid.find(places[k]) {
            Some(i) => {
                if tiles[i].ptype == ProvinceType::Plains && !contains_index(taken, i) {
                    return Some((tile, i));
                }
            },
            None => {},
        }
        k += 1;
    }
    None
}

} // verus!
