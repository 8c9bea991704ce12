//! Provinces, their buildings, population, income and upkeep.
use vstd::prelude::*;
use crate::game::army::{Soldier, SoldierType};
use crate::game::resources::{Amounts, ResourceType};

verus! {

/// The most houses a province holds.
pub const MAX_HOUSES: u32 = 3;

/// The terrain of a province.
#[derive(Clone, Copy, Debug, PartialEq, Eq, Structural, Hash)]
pub enum ProvinceType {
    Water,
    BlackSoil,
    Plains,
    Woods,
    Desert,
    Hills,
    Mountains,
}

impl ProvinceType {
    /// The name shown to players.
    pub open spec fn label_spec(self) -> Seq<char> {
        match self {
            ProvinceType::Water => "Water"@,
            ProvinceType::BlackSoil => "Black soil"@,
            ProvinceType::Plains => "Plains"@,
            ProvinceType::Woods => "Woods"@,
            ProvinceType::Desert => "Desert"@,
            ProvinceType::Hills => "Rocky hills"@,
            ProvinceType::Mountains => "Mountains"@,
        }
    }

    /// The name shown to players.
    pub fn label(&self) -> (s: &'static str)
        ensures
            s@ == self.label_spec(),
    {
        match self {
            ProvinceType::Water => "Water",
            ProvinceType::BlackSoil => "Black soil",
            ProvinceType::Plains => "Plains",
            ProvinceType::Woods => "Woods",
            ProvinceType::Desert => "Desert",
            ProvinceType::Hills => "Rocky hills",
            ProvinceType::Mountains => "Mountains",
        }
    }

    /// The rank of the terrain in declaration order, by which computer
    /// players choose where to settle people first.
    pub open spec fn order_spec(self) -> u32 {
        match self {
            ProvinceType::Water => 0,
            ProvinceType::BlackSoil => 1,
            ProvinceType::Plains => 2,
            ProvinceType::Woods => 3,
            ProvinceType::Desert => 4,
            ProvinceType::Hills => 5,
            ProvinceType::Mountains => 6,
        }
    }

    /// The rank of the terrain in declaration order.
    pub fn order_id(&self) -> (r: u32)
        ensures
            r == self.order_spec(),
    {
        match self {
            ProvinceType::Water => 0,
            ProvinceType::BlackSoil => 1,
            ProvinceType::Plains => 2,
            ProvinceType::Woods => 3,
            ProvinceType::Desert => 4,
            ProvinceType::Hills => 5,
            ProvinceType::Mountains => 6,
        }
    }

    /// What one resident costs in grain per turn, in eighths; a castle
    /// makes it two and a half times as much.
    pub open spec fn pop_cost(self, castle: bool) -> int {
        let base: int = match self {
            ProvinceType::Water => 0,
            ProvinceType::BlackSoil => 8,
            ProvinceType::Plains => 8,
            ProvinceType::Woods => 10,
            ProvinceType::Desert => 32,
            ProvinceType::Hills => 18,
            ProvinceType::Mountains => 28,
        };
        if castle {
            base * 5 / 2
        } else {
            base
        }
    }

    /// What one day of marching through this terrain costs; water cannot
    /// be entered.
    pub open spec fn march_cost_spec(self) -> Option<u32> {
        match self {
            ProvinceType::Water => None,
            ProvinceType::BlackSoil => Some(2u32),
            ProvinceType::Plains => Some(2u32),
            ProvinceType::Woods => Some(3u32),
            ProvinceType::Desert => Some(5u32),
            ProvinceType::Hills => Some(4u32),
            ProvinceType::Mountains => Some(6u32),
        }
    }
}

/// A province's special building.
#[derive(Clone, Copy, Debug, PartialEq, Eq, Structural)]
pub enum SpecialBuilding {
    Farm,
    LumberMill,
    StoneMine,
    GoldMine,
    Castle,
}

/// A table holding one kind.
pub open spec fn only(t: ResourceType, v: int) -> Amounts {
    Amounts {
        grain: if t == ResourceType::Grain { Some(v as i64) } else { None },
        lumber: if t == ResourceType::Lumber { Some(v as i64) } else { None },
        stone: if t == ResourceType::Stone { Some(v as i64) } else { None },
        gold: if t == ResourceType::Gold { Some(v as i64) } else { None },
    }
}

/// The table with no entries.
pub open spec fn no_amounts() -> Amounts {
    Amounts { grain: None, lumber: None, stone: None, gold: None }
}

/// What a special building yields in a province of type `ptype` with
/// `workers` residents, in eighths per turn.
pub open spec fn special_income(b: SpecialBuilding, ptype: ProvinceType, workers: u32) -> Amounts {
    if b == SpecialBuilding::Castle {
        no_amounts()
    } else {
        match ptype {
            ProvinceType::BlackSoil => only(ResourceType::Grain, workers * 48),
            ProvinceType::Plains => only(ResourceType::Grain, workers * 24),
            ProvinceType::Woods => only(ResourceType::Lumber, workers * 32),
            ProvinceType::Hills => only(ResourceType::Stone, workers * 24),
            ProvinceType::Mountains => only(ResourceType::Gold, workers * 24),
            _ => no_amounts(),
        }
    }
}

/// What a special building costs, in eighths.
pub open spec fn special_cost(b: SpecialBuilding) -> Amounts {
    match b {
        SpecialBuilding::Farm => only(ResourceType::Lumber, 80),
        SpecialBuilding::LumberMill => only(ResourceType::Lumber, 120),
        SpecialBuilding::StoneMine => only(ResourceType::Lumber, 160),
        SpecialBuilding::GoldMine => Amounts { grain: None, lumber: Some(200), stone: Some(48), gold: None },
        SpecialBuilding::Castle => Amounts { grain: None, lumber: Some(80), stone: Some(8), gold: None },
    }
}

impl SpecialBuilding {
    /// What the building yields in a province of type `ptype` with
    /// `workers` residents.
    pub fn income(&self, ptype: &ProvinceType, workers: u32) -> (r: Amounts)
        ensures
            r == special_income(*self, *ptype, workers),
    {
        if let SpecialBuilding::Castle = self {
            return Amounts::new();
        }
        let w = workers as i64;
        match ptype {
            ProvinceType::BlackSoil => Amounts { grain: Some(w * 48), lumber: None, stone: None, gold: None },
            ProvinceType::Plains => Amounts { grain: Some(w * 24), lumber: None, stone: None, gold: None },
            ProvinceType::Woods => Amounts { grain: None, lumber: Some(w * 32), stone: None, gold: None },
            ProvinceType::Hills => Amounts { grain: None, lumber: None, stone: Some(w * 24), gold: None },
            ProvinceType::Mountains => Amounts { grain: None, lumber: None, stone: None, gold: Some(w * 24) },
            _ => Amounts::new(),
        }
    }

    /// What the building costs.
    pub fn build_cost(&self) -> (r: Amounts)
        ensures
            r == special_cost(*self),
    {
        match self {
            SpecialBuilding::Farm => Amounts { grain: None, lumber: Some(80), stone: None, gold: None },
            SpecialBuilding::LumberMill => Amounts { grain: None, lumber: Some(120), stone: None, gold: None },
            SpecialBuilding::StoneMine => Amounts { grain: None, lumber: Some(160), stone: None, gold: None },
            SpecialBuilding::GoldMine => Amounts { grain: None, lumber: Some(200), stone: Some(48), gold: None },
            SpecialBuilding::Castle => Amounts { grain: None, lumber: Some(80), stone: Some(8), gold: None },
        }
    }

    /// The name of the building.
    pub fn label(&self) -> (s: &'static str)
        ensures
            s@ == match *self {
                SpecialBuilding::Farm => "Farm"@,
                SpecialBuilding::LumberMill => "LumberMill"@,
                SpecialBuilding::StoneMine => "StoneMine"@,
                SpecialBuilding::GoldMine => "GoldMine"@,
                SpecialBuilding::Castle => "Castle"@,
            },
    {
        match self {
            SpecialBuilding::Farm => "Farm",
            SpecialBuilding::LumberMill => "LumberMill",
            SpecialBuilding::StoneMine => "StoneMine",
            SpecialBuilding::GoldMine => "GoldMine",
            SpecialBuilding::Castle => "Castle",
        }
    }
}

/// A house, with room for residents.
#[derive(Clone, Copy, Debug, PartialEq, Eq, Structural)]
pub struct House {
    pub max_residents: u32,
}

/// What a house costs: five units of lumber, in eighths.
pub open spec fn house_cost() -> Amounts {
    only(ResourceType::Lumber, 40)
}

impl House {
    /// What a house costs.
    pub fn build_cost() -> (r: Amounts)
        ensures
            r == house_cost(),
    {
        Amounts { grain: None, lumber: Some(40), stone: None, gold: None }
    }
}

/// A building that stands in a province.
#[derive(Clone, Copy, Debug, PartialEq, Eq, Structural)]
pub enum Building {
    House(House),
    Special(SpecialBuilding),
}

/// The residents that the houses among `bs` hold.
pub open spec fn housing(bs: Seq<Building>) -> int
    decreases bs.len(),
{
    if bs.len() == 0 {
        0
    } else {
        housing(bs.drop_last()) + match bs.last() {
            Building::House(h) => h.max_residents as int,
            Building::Special(_) => 0,
        }
    }
}

/// `a` with the entries of `b` put over it.
pub open spec fn overlay(a: Amounts, b: Amounts) -> Amounts {
    Amounts {
        grain: if b.grain is Some { b.grain } else { a.grain },
        lumber: if b.lumber is Some { b.lumber } else { a.lumber },
        stone: if b.stone is Some { b.stone } else { a.stone },
        gold: if b.gold is Some { b.gold } else { a.gold },
    }
}

/// The yield of the special buildings among `bs`, each put over the ones
/// before it.
pub open spec fn buildings_income(bs: Seq<Building>, ptype: ProvinceType, workers: u32) -> Amounts
    decreases bs.len(),
{
    if bs.len() == 0 {
        no_amounts()
    } else {
        let before = buildings_income(bs.drop_last(), ptype, workers);
        match bs.last() {
            Building::Special(b) => overlay(before, special_income(b, ptype, workers)),
            Building::House(_) => before,
        }
    }
}

/// What a province's residents cost per turn: grain for each resident and
/// five gold where there is a castle. A water province costs nothing.
pub open spec fn upkeep_spec(ptype: ProvinceType, castle: bool, pops: u32) -> Amounts {
    if ptype == ProvinceType::Water {
        no_amounts()
    } else {
        Amounts {
            grain: Some((ptype.pop_cost(castle) * pops) as i64),
            lumber: None,
            stone: None,
            gold: Some(if castle { 40i64 } else { 0i64 }),
        }
    }
}

/// What a province's residents yield without a special building; a castle
/// province yields nothing.
pub open spec fn base_income_spec(ptype: ProvinceType, castle: bool, pops: u32) -> Amounts {
    if castle {
        no_amounts()
    } else {
        match ptype {
            ProvinceType::BlackSoil => only(ResourceType::Grain, pops * 18),
            ProvinceType::Plains => only(ResourceType::Grain, pops * 12),
            ProvinceType::Woods => only(ResourceType::Lumber, pops * 12),
            ProvinceType::Hills => only(ResourceType::Stone, pops * 8),
            ProvinceType::Mountains => only(ResourceType::Gold, pops * 8),
            _ => no_amounts(),
        }
    }
}

/// The special building that a province of this terrain can have.
pub open spec fn special_building_for(ptype: ProvinceType) -> Option<SpecialBuilding> {
    match ptype {
        ProvinceType::BlackSoil | ProvinceType::Plains => Some(SpecialBuilding::Farm),
        ProvinceType::Woods => Some(SpecialBuilding::LumberMill),
        ProvinceType::Hills => Some(SpecialBuilding::StoneMine),
        ProvinceType::Mountains => Some(SpecialBuilding::GoldMine),
        _ => None,
    }
}

/// What a province is.
pub struct ProvinceView {
    pub ptype: ProvinceType,
    pub hex: (i32, i32),
    pub special_building: bool,
    pub castle: bool,
    pub house_count: u32,
    pub pops: u32,
    pub max_pops: u32,
    pub upkeep: Amounts,
    pub income: Amounts,
    pub soldiers: Seq<Soldier>,
    pub army_model: Option<u64>,
}

/// A tile of the map: its terrain and place, buildings, residents, what it
/// yields and costs, the soldiers not yet in an army, and the entity that
/// shows its armies.
pub struct Province {
    pub ptype: ProvinceType,
    hex: (i32, i32),
    special_building: bool,
    castle: bool,
    house_count: u32,
    pops: u32,
    max_pops: u32,
    upkeep: Amounts,
    income: Amounts,
    soldiers: Vec<Soldier>,
    army_model: Option<u64>,
}

impl View for Province {
    type V = ProvinceView;

    closed spec fn view(&self) -> ProvinceView {
        ProvinceView {
            ptype: self.ptype,
            hex: self.hex,
            special_building: self.special_building,
            castle: self.castle,
            house_count: self.house_count,
            pops: self.pops,
            max_pops: self.max_pops,
            upkeep: self.upkeep,
            income: self.income,
            soldiers: self.soldiers@,
            army_model: self.army_model,
        }
    }
}

impl Province {
    /// A new, empty province of type `t` at `hex`.
    pub fn from_type(t: &ProvinceType, hex: &(i32, i32)) -> (p: Province)
        ensures
            p@ == (ProvinceView {
                ptype: *t,
                hex: *hex,
                special_building: false,
                castle: false,
                house_count: 0,
                pops: 0,
                max_pops: 0,
                upkeep: no_amounts(),
                income: no_amounts(),
                soldiers: Seq::empty(),
                army_model: None,
            }),
    {
        Province {
            ptype: *t,
            hex: *hex,
            special_building: false,
            castle: false,
            house_count: 0,
            pops: 0,
            max_pops: 0,
            upkeep: Amounts::new(),
            income: Amounts::new(),
            soldiers: Vec::new(),
            army_model: None,
        }
    }

    /// The terrain of the province.
    pub fn ptype(&self) -> (t: ProvinceType)
        ensures
            t == self@.ptype,
    {
        self.ptype
    }

    /// The entity that shows the province's armies, if any.
    pub fn get_army_model(&self) -> (m: Option<u64>)
        ensures
            m == self@.army_model,
    {
        self.army_model
    }

    /// Sets the entity that shows the province's armies.
    pub fn set_army_model(&mut self, to: Option<u64>)
        ensures
            final(self)@ == (ProvinceView { army_model: to, ..old(self)@ }),
    {
        self.army_model = to;
    }

    /// The place of the province on the map.
    pub fn hex(&self) -> (h: (i32, i32))
        ensures
            h == self@.hex,
    {
        self.hex
    }

    /// Whether a house has room for one more resident.
    pub fn has_pops_room(&self) -> (r: bool)
        ensures
            r == (self@.pops < self@.max_pops),
    {
        self.pops < self.max_pops
    }

    /// How many soldiers wait in the province outside any army.
    pub fn soldier_count(&self) -> (n: usize)
        ensures
            n == self@.soldiers.len(),
    {
        self.soldiers.len()
    }

    /// Adds a soldier to those that wait in the province.
    pub fn add_soldier(&mut self, soldier: Soldier)
        ensures
            final(self)@ == (ProvinceView { soldiers: old(self)@.soldiers.push(soldier), ..old(self)@ }),
    {
        self.soldiers.push(soldier);
    }

    /// The soldiers that wait in the province.
    pub fn soldiers(&self) -> (s: &Vec<Soldier>)
        ensures
            s@ == self@.soldiers,
    {
        &self.soldiers
    }

    /// Takes the soldier that came last, if any.
    pub fn try_remove_soldier(&mut self) -> (s: Option<Soldier>)
        ensures
            old(self)@.soldiers.len() == 0 ==> s is None && final(self)@ == old(self)@,
            old(self)@.soldiers.len() > 0 ==> s == Some(old(self)@.soldiers.last()) && final(self)@ == (
            ProvinceView { soldiers: old(self)@.soldiers.drop_last(), ..old(self)@ }),
    {
        self.soldiers.pop()
    }

    /// Takes the first soldier of kind `typ`, if any.
    pub fn try_remove_soldier_type(&mut self, typ: &SoldierType) -> (s: Option<Soldier>)
        ensures
            match s {
                None => final(self)@ == old(self)@ && forall|i: int|
                    0 <= i < old(self)@.soldiers.len() ==> old(self)@.soldiers[i].stype != *typ,
                Some(x) => exists|i: int|
                    0 <= i < old(self)@.soldiers.len() && x == old(self)@.soldiers[i] && x.stype == *typ
                        && (forall|j: int| 0 <= j < i ==> old(self)@.soldiers[j].stype != *typ)
                        && final(self)@ == (ProvinceView {
                        soldiers: old(self)@.soldiers.remove(i),
                        ..old(self)@
                    }),
            },
    {
        let n = self.soldiers.len();
        let mut i: usize = 0;
        while i < n
            invariant
                n == self.soldiers.len(),
                i <= n,
                self@ == old(self)@,
                forall|j: int| 0 <= j < i ==> self.soldiers@[j].stype != *typ,
            decreases n - i,
        {
            if self.soldiers[i].stype == *typ {
                let s = self.soldiers.remove(i);
                return Some(s);
            }
            i += 1;
        }
        None
    }

    /// The name of the province's special building; the empty text where
    /// the terrain has none.
    pub fn building_name(&self) -> (s: String)
        ensures
            s@ == match self@.ptype {
                ProvinceType::BlackSoil | ProvinceType::Plains => "Farm"@,
                ProvinceType::Woods => "Lumber Mill"@,
                ProvinceType::Hills => "Stone Mine"@,
                ProvinceType::Mountains => "Gold Mine"@,
                _ => Seq::<char>::empty(),
            },
    {
        match self.ptype {
            ProvinceType::BlackSoil | ProvinceType::Plains => String::from_str("Farm"),
            ProvinceType::Woods => String::from_str("Lumber Mill"),
            ProvinceType::Hills => String::from_str("Stone Mine"),
            ProvinceType::Mountains => String::from_str("Gold Mine"),
            _ => String::new(),
        }
    }

    /// The special building the province's terrain allows, if any.
    pub fn special_building_type(&self) -> (b: Option<SpecialBuilding>)
        ensures
            b == special_building_for(self@.ptype),
    {
        match self.ptype {
            ProvinceType::BlackSoil | ProvinceType::Plains => Some(SpecialBuilding::Farm),
            ProvinceType::Woods => Some(SpecialBuilding::LumberMill),
            ProvinceType::Hills => Some(SpecialBuilding::StoneMine),
            ProvinceType::Mountains => Some(SpecialBuilding::GoldMine),
            _ => None,
        }
    }

    /// Settles one more resident where a house has room.
    pub fn try_add_pop(&mut self) -> (added: bool)
        ensures
            added == (old(self)@.pops < old(self)@.max_pops),
            final(self)@ == (ProvinceView {
                pops: if added { (old(self)@.pops + 1) as u32 } else { old(self)@.pops },
                ..old(self)@
            }),
    {
        if self.pops < self.max_pops {
            self.pops += 1;
            true
        } else {
            false
        }
    }

    /// Removes one resident, keeping at least one.
    pub fn try_remove_pop(&mut self) -> (removed: bool)
        ensures
            removed == (old(self)@.pops > 1),
            final(self)@ == (ProvinceView {
                pops: if removed { (old(self)@.pops - 1) as u32 } else { old(self)@.pops },
                ..old(self)@
            }),
    {
        if self.pops > 1 {
            self.pops -= 1;
            true
        } else {
            false
        }
    }

    /// Settles one more resident whether or not a house has room.
    pub fn add_pop(&mut self)
        requires
            old(self)@.pops < u32::MAX,
        ensures
            final(self)@ == (ProvinceView { pops: (old(self)@.pops + 1) as u32, ..old(self)@ }),
    {
        self.pops += 1;
    }

    /// Sends away every resident.
    pub fn remove_pops(&mut self)
        ensures
            final(self)@ == (ProvinceView { pops: 0, ..old(self)@ }),
    {
        self.pops = 0;
    }

    /// Sends away every soldier that waits in the province.
    pub fn remove_soldiers(&mut self)
        ensures
            final(self)@ == (ProvinceView { soldiers: Seq::empty(), ..old(self)@ }),
    {
        self.soldiers = Vec::new();
    }

    /// How many more residents the houses hold.
    pub fn pops_extra_room(&self) -> (r: u32)
        ensures
            r == if self@.pops < self@.max_pops { self@.max_pops - self@.pops } else { 0 },
    {
        if self.pops < self.max_pops {
            self.max_pops - self.pops
        } else {
            0
        }
    }

    /// Whether a special building can be built: none stands yet, and the
    /// terrain is neither desert nor water.
    pub open spec fn can_build_spec(self) -> bool {
        !self@.special_building && !self@.castle && self@.ptype != ProvinceType::Desert
            && self@.ptype != ProvinceType::Water
    }

    /// Whether a special building can be built.
    pub fn can_build_special_building(&self) -> (r: bool)
        ensures
            r == self.can_build_spec(),
    {
        if self.special_building || self.castle {
            false
        } else if let ProvinceType::Desert | ProvinceType::Water = self.ptype {
            false
        } else {
            true
        }
    }

    /// Whether the province has a castle.
    pub fn has_castle(&self) -> (r: bool)
        ensures
            r == self@.castle,
    {
        self.castle
    }

    /// Whether the province has a special building.
    pub fn has_special_building(&self) -> (r: bool)
        ensures
            r == self@.special_building,
    {
        self.special_building
    }

    /// How many houses stand in the province.
    pub fn get_houses(&self) -> (r: u32)
        ensures
            r == self@.house_count,
    {
        self.house_count
    }

    /// How many residents live in the province.
    pub fn get_pops(&self) -> (r: u32)
        ensures
            r == self@.pops,
    {
        self.pops
    }

    /// How many residents the houses hold.
    pub fn get_max_pops(&self) -> (r: u32)
        ensures
            r == self@.max_pops,
    {
        self.max_pops
    }

    /// What the province costs per turn.
    pub fn get_upkeep(&self) -> (r: &Amounts)
        ensures
            *r == self@.upkeep,
    {
        &self.upkeep
    }

    /// What the province yields per turn.
    pub fn get_income(&self) -> (r: &Amounts)
        ensures
            *r == self@.income,
    {
        &self.income
    }

    /// The people the province adds per turn: one while a house has room.
    pub fn get_pops_income(&self) -> (r: u32)
        requires
            self@.pops <= self@.max_pops,
        ensures
            r == if self@.max_pops - self@.pops < 1 { self@.max_pops - self@.pops } else { 1 },
    {
        let room = self.max_pops - self.pops;
        if room < 1 {
            room
        } else {
            1
        }
    }

    /// What the province's residents cost per turn.
    fn upkeep(&self) -> (r: Amounts)
        ensures
            r == upkeep_spec(self@.ptype, self@.castle, self@.pops),
    {
        let pop_cost: i64 = match self.ptype {
            ProvinceType::Water => {
                return Amounts::new();
            },
            ProvinceType::BlackSoil => 8,
            ProvinceType::Plains => 8,
            ProvinceType::Woods => 10,
            ProvinceType::Desert => 32,
            ProvinceType::Hills => 18,
            ProvinceType::Mountains => 28,
        };
        let pop_cost = if self.castle {
            pop_cost * 5 / 2
        } else {
            pop_cost
        };
        let gold_cost: i64 = if self.castle {
            40
        } else {
            0
        };
        let pops = self.pops as i64;
        assert(0 <= pop_cost * pops <= 80 * 0xffff_ffff) by (nonlinear_arith)
            requires
                0 <= pop_cost <= 80,
                0 <= pops <= 0xffff_ffff,
        ;
        let food_cost = pop_cost * pops;
        Amounts { grain: Some(food_cost), lumber: None, stone: None, gold: Some(gold_cost) }
    }

    /// What the province's residents yield without a special building.
    fn base_income(&self) -> (r: Amounts)
        ensures
            r == base_income_spec(self@.ptype, self@.castle, self@.pops),
    {
        if self.castle {
            return Amounts::new();
        }
        let p = self.pops as i64;
        match self.ptype {
            ProvinceType::BlackSoil => Amounts { grain: Some(p * 18), lumber: None, stone: None, gold: None },
            ProvinceType::Plains => Amounts { grain: Some(p * 12), lumber: None, stone: None, gold: None },
            ProvinceType::Woods => Amounts { grain: None, lumber: Some(p * 12), stone: None, gold: None },
            ProvinceType::Hills => Amounts { grain: None, lumber: None, stone: Some(p * 8), gold: None },
            ProvinceType::Mountains => Amounts { grain: None, lumber: None, stone: None, gold: Some(p * 8) },
            _ => Amounts::new(),
        }
    }

    /// What marching into the province costs; water cannot be entered.
    pub fn march_cost(&self) -> (r: Option<u32>)
        ensures
            r == self@.ptype.march_cost_spec(),
    {
        match self.ptype {
            ProvinceType::Water => None,
            ProvinceType::BlackSoil => Some(2),
            ProvinceType::Plains => Some(2),
            ProvinceType::Woods => Some(3),
            ProvinceType::Desert => Some(5),
            ProvinceType::Hills => Some(4),
            ProvinceType::Mountains => Some(6),
        }
    }
}


impl Province {
    /// Recomputes what the province holds, yields and costs from the
    /// buildings that stand in it: the houses give the room for residents,
    /// the special buildings the yield (where none yields, the residents'
    /// own yield counts), and the residents the upkeep.
    pub fn recalculate_income(&mut self, buildings: &[Building])
        requires
            housing(buildings@) <= u32::MAX,
        ensures
            final(self)@ == (ProvinceView {
                max_pops: housing(buildings@) as u32,
                upkeep: upkeep_spec(old(self)@.ptype, old(self)@.castle, old(self)@.pops),
                income: if buildings_income(buildings@, old(self)@.ptype, old(self)@.pops).empty_spec() {
                    base_income_spec(old(self)@.ptype, old(self)@.castle, old(self)@.pops)
                } else {
                    buildings_income(buildings@, old(self)@.ptype, old(self)@.pops)
                },
                ..old(self)@
            }),
    {
        let mut max_pops: u32 = 0;
        let mut building_income = Amounts::new();
        let n = buildings.len();
        let mut i: usize = 0;
        while i < n
            invariant
                n == buildings@.len(),
                i <= n,
                housing(buildings@) <= u32::MAX,
                max_pops == housing(buildings@.take(i as int)),
                building_income == buildings_income(buildings@.take(i as int), self.ptype, self.pops),
            decreases n - i,
        {
            proof {
                lemma_housing_prefix(buildings@, i as int + 1);
                assert(buildings@.take(i + 1).drop_last() == buildings@.take(i as int));
            }
            match buildings[i] {
                Building::Special(b) => {
                    let yield_ = b.income(&self.ptype, self.pops);
                    building_income = overlay_amounts(&building_income, &yield_);
                },
                Building::House(h) => {
                    max_pops = max_pops + h.max_residents;
                },
            }
            i += 1;
        }
        assert(buildings@.take(n as int) == buildings@);
        self.max_pops = max_pops;
        self.upkeep = self.upkeep();
        self.income = if building_income.is_empty() {
            self.base_income()
        } else {
            building_income
        };
    }

    /// Adds a house where fewer than three stand; says whether it did.
    pub fn try_add_house(&mut self) -> (added: bool)
        ensures
            added == (old(self)@.house_count < MAX_HOUSES),
            final(self)@ == (ProvinceView {
                house_count: if added { (old(self)@.house_count + 1) as u32 } else { old(self)@.house_count },
                ..old(self)@
            }),
    {
        if self.house_count >= MAX_HOUSES {
            return false;
        }
        self.house_count += 1;
        true
    }

    /// Puts up the province's special building, or a castle, where one can
    /// be built, and gives its kind. A castle sends the residents away.
    pub fn try_add_special_building(&mut self, castle: bool) -> (b: Option<SpecialBuilding>)
        ensures
            !old(self).can_build_spec() ==> b is None && final(self)@ == old(self)@,
            old(self).can_build_spec() ==> {
                &&& b == if castle {
                    Some(SpecialBuilding::Castle)
                } else {
                    special_building_for(old(self)@.ptype)
                }
                &&& final(self)@ == (ProvinceView {
                    special_building: true,
                    castle: castle,
                    pops: if castle { 0 } else { old(self)@.pops },
                    ..old(self)@
                })
            },
    {
        if !self.can_build_special_building() {
            return None;
        }
        self.special_building = true;
        self.castle = castle;
        if castle {
            self.pops = 0;
        }
        match (self.ptype, castle) {
            (_, true) => Some(SpecialBuilding::Castle),
            (ProvinceType::BlackSoil, false) | (ProvinceType::Plains, false) => Some(SpecialBuilding::Farm),
            (ProvinceType::Woods, false) => Some(SpecialBuilding::LumberMill),
            (ProvinceType::Hills, false) => Some(SpecialBuilding::StoneMine),
            (ProvinceType::Mountains, false) => Some(SpecialBuilding::GoldMine),
            _ => None,
        }
    }

    /// What bankruptcy does to a province: a castle loses its waiting
    /// soldiers, and every resident leaves.
    pub fn abandon(&mut self)
        ensures
            final(self)@ == (ProvinceView {
                pops: 0,
                soldiers: if old(self)@.castle { Seq::empty() } else { old(self)@.soldiers },
                ..old(self)@
            }),
    {
        if self.has_castle() {
            self.remove_soldiers();
        }
        self.remove_pops();
    }
}

/// `a` with the entries of `b` put over it.
pub fn overlay_amounts(a: &Amounts, b: &Amounts) -> (r: Amounts)
    ensures
        r == overlay(*a, *b),
{
    Amounts {
        grain: if b.grain.is_some() { b.grain } else { a.grain },
        lumber: if b.lumber.is_some() { b.lumber } else { a.lumber },
        stone: if b.stone.is_some() { b.stone } else { a.stone },
        gold: if b.gold.is_some() { b.gold } else { a.gold },
    }
}

proof fn lemma_housing_prefix(bs: Seq<Building>, i: int)
    requires
        0 <= i <= bs.len(),
    ensures
        housing(bs.take(i)) <= housing(bs),
    decreases bs.len() - i,
{
    if i < bs.len() {
        lemma_housing_prefix(bs, i + 1);
        assert(bs.take(i + 1).drop_last() == bs.take(i));
    } else {
        assert(bs.take(i) == bs);
    }
}

} // verus!
