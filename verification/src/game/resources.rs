//! Resource kinds and amounts of them.
//!
//! An amount is counted in eighths of a unit: every rate, cost and starting
//! stock of the game is a whole number of eighths, so sums and products of
//! them are exact.
use vstd::prelude::*;

verus! {

/// The kinds of resources an empire gathers and spends.
#[derive(Clone, Copy, Debug, PartialEq, Eq, Structural, Hash)]
pub enum ResourceType {
    Grain,
    Lumber,
    Stone,
    Gold,
}

/// The eighths in one unit of a resource.
pub const EIGHTHS: i64 = 8;

/// Every resource kind, in declaration order.
pub fn all_resource_types() -> (v: Vec<ResourceType>)
    ensures
        v@ == seq![ResourceType::Grain, ResourceType::Lumber, ResourceType::Stone, ResourceType::Gold],
{
    vec![ResourceType::Grain, ResourceType::Lumber, ResourceType::Stone, ResourceType::Gold]
}

/// `a + b` held to the range of `i64`.
pub open spec fn clamped(x: int) -> int {
    if x > i64::MAX {
        i64::MAX as int
    } else if x < i64::MIN {
        i64::MIN as int
    } else {
        x
    }
}

/// Adds two amounts; a sum beyond the range of `i64` stops at its bound.
pub fn add_amount(a: i64, b: i64) -> (r: i64)
    ensures
        r == clamped(a + b),
{
    match a.checked_add(b) {
        Some(s) => s,
        None => if b > 0 {
            i64::MAX
        } else {
            i64::MIN
        },
    }
}

/// Subtracts two amounts; a difference beyond the range of `i64` stops at
/// its bound.
pub fn sub_amount(a: i64, b: i64) -> (r: i64)
    ensures
        r == clamped(a - b),
{
    match a.checked_sub(b) {
        Some(s) => s,
        None => if b > 0 {
            i64::MIN
        } else {
            i64::MAX
        },
    }
}

/// A table of amounts, at most one per resource kind; a kind may be absent.
#[derive(Clone, Copy, Debug, PartialEq, Eq, Structural)]
pub struct Amounts {
    pub grain: Option<i64>,
    pub lumber: Option<i64>,
    pub stone: Option<i64>,
    pub gold: Option<i64>,
}

impl Amounts {
    /// The entry for kind `t`.
    pub open spec fn entry(self, t: ResourceType) -> Option<i64> {
        match t {
            ResourceType::Grain => self.grain,
            ResourceType::Lumber => self.lumber,
            ResourceType::Stone => self.stone,
            ResourceType::Gold => self.gold,
        }
    }

    /// The amount of kind `t`, zero where the kind is absent.
    pub open spec fn amount_of(self, t: ResourceType) -> int {
        match self.entry(t) {
            Some(v) => v as int,
            None => 0,
        }
    }

    /// No kind is present.
    pub open spec fn empty_spec(self) -> bool {
        self.grain is None && self.lumber is None && self.stone is None && self.gold is None
    }

    /// The table with no entries.
    pub fn new() -> (a: Amounts)
        ensures
            a.empty_spec(),
    {
        Amounts { grain: None, lumber: None, stone: None, gold: None }
    }

    /// The table with one entry.
    pub fn single(t: ResourceType, v: i64) -> (a: Amounts)
        ensures
            forall|k: ResourceType| #[trigger] a.entry(k) == (if k == t { Some(v) } else { None::<i64> }),
    {
        let mut a = Amounts::new();
        a.insert(t, v);
        a
    }

    /// The table with two entries (the second wins where the kinds agree).
    pub fn pair(t: ResourceType, v: i64, u: ResourceType, w: i64) -> (a: Amounts)
        ensures
            forall|k: ResourceType| #[trigger] a.entry(k) == (if k == u {
                Some(w)
            } else if k == t {
                Some(v)
            } else {
                None::<i64>
            }),
    {
        let mut a = Amounts::new();
        a.insert(t, v);
        a.insert(u, w);
        a
    }

    /// The entry for kind `t`.
    pub fn get(&self, t: ResourceType) -> (r: Option<i64>)
        ensures
            r == self.entry(t),
    {
        match t {
            ResourceType::Grain => self.grain,
            ResourceType::Lumber => self.lumber,
            ResourceType::Stone => self.stone,
            ResourceType::Gold => self.gold,
        }
    }

    /// The amount of kind `t`, zero where the kind is absent.
    pub fn amount(&self, t: ResourceType) -> (r: i64)
        ensures
            r == self.amount_of(t),
    {
        match self.get(t) {
            Some(v) => v,
            None => 0,
        }
    }

    /// Sets the entry for kind `t`.
    pub fn insert(&mut self, t: ResourceType, v: i64)
        ensures
            forall|k: ResourceType| #[trigger] final(self).entry(k) == (if k == t {
                Some(v)
            } else {
                old(self).entry(k)
            }),
    {
        match t {
            ResourceType::Grain => self.grain = Some(v),
            ResourceType::Lumber => self.lumber = Some(v),
            ResourceType::Stone => self.stone = Some(v),
            ResourceType::Gold => self.gold = Some(v),
        }
    }

    /// Whether no kind is present.
    pub fn is_empty(&self) -> (r: bool)
        ensures
            r == self.empty_spec(),
    {
        self.grain.is_none() && self.lumber.is_none() && self.stone.is_none() && self.gold.is_none()
    }
}

/// The amount of kind `t` in `map`, zero where the kind is absent.
pub fn resource_amount(map: &Amounts, t: ResourceType) -> (r: i64)
    ensures
        r == map.amount_of(t),
{
    map.amount(t)
}

/// The sum of two tables, kind by kind: every kind is present, with the
/// sum of the two amounts (an absent kind counting zero).
pub fn add_resources(a: &Amounts, b: &Amounts) -> (r: Amounts)
    ensures
        forall|t: ResourceType| #[trigger] r.entry(t) == Some(clamped(a.amount_of(t) + b.amount_of(t)) as i64),
{
    Amounts {
        grain: Some(add_amount(a.amount(ResourceType::Grain), b.amount(ResourceType::Grain))),
        lumber: Some(add_amount(a.amount(ResourceType::Lumber), b.amount(ResourceType::Lumber))),
        stone: Some(add_amount(a.amount(ResourceType::Stone), b.amount(ResourceType::Stone))),
        gold: Some(add_amount(a.amount(ResourceType::Gold), b.amount(ResourceType::Gold))),
    }
}

} // verus!
