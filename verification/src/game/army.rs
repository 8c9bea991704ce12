//! Soldiers and armies.
use vstd::prelude::*;
use crate::game::resources::Amounts;
use crate::text::i64_text;

verus! {

/// The kinds of soldiers.
#[derive(Clone, Copy, Debug, PartialEq, Eq, Structural, Hash)]
pub enum SoldierType {
    Infantry,
}

impl SoldierType {
    /// What recruiting one soldier of this kind costs, in eighths: no gold
    /// and one unit of grain.
    pub fn recruit_cost(&self) -> (c: Amounts)
        ensures
            c == (Amounts { grain: Some(8), lumber: None, stone: None, gold: Some(0) }),
    {
        match self {
            SoldierType::Infantry => Amounts { grain: Some(8), lumber: None, stone: None, gold: Some(0) },
        }
    }

    /// How far a small army of this kind marches in one turn.
    pub open spec fn march_budget_spec(self) -> u32 {
        match self {
            SoldierType::Infantry => 10,
        }
    }

    /// How far a small army of this kind marches in one turn.
    pub fn march_budget(&self) -> (b: u32)
        ensures
            b == self.march_budget_spec(),
    {
        match self {
            SoldierType::Infantry => 10,
        }
    }

    /// The name of the kind.
    pub fn label(&self) -> (s: &'static str)
        ensures
            s@ == "Infantry"@,
    {
        match self {
            SoldierType::Infantry => "Infantry",
        }
    }
}

/// A recruited soldier, with the province (by its entity number) that it
/// was recruited in.
#[derive(Clone, Copy, Debug, PartialEq, Eq, Structural)]
pub struct Soldier {
    pub stype: SoldierType,
    pub home_province: u64,
}

impl Soldier {
    /// An infantry soldier from `province`.
    pub fn new_infantry(province: &u64) -> (s: Soldier)
        ensures
            s == (Soldier { stype: SoldierType::Infantry, home_province: *province }),
    {
        Soldier { stype: SoldierType::Infantry, home_province: *province }
    }
}

/// What an army is: its kind, soldiers, empire, number and whether it
/// moved this turn.
pub struct ArmyView {
    pub atype: SoldierType,
    pub soldiers: Seq<Soldier>,
    pub empire: u64,
    pub id: u32,
    pub moved: bool,
}

/// Soldiers of one kind that march together, owned by an empire (by its
/// entity number).
#[derive(Debug)]
pub struct Army {
    atype: SoldierType,
    soldiers: Vec<Soldier>,
    empire: u64,
    id: u32,
    moved: bool,
}

impl View for Army {
    type V = ArmyView;

    closed spec fn view(&self) -> ArmyView {
        ArmyView {
            atype: self.atype,
            soldiers: self.soldiers@,
            empire: self.empire,
            id: self.id,
            moved: self.moved,
        }
    }
}

impl Army {
    /// A new army of one soldier, which has not moved.
    pub fn new(soldier: Soldier, empire: u64, id: u32) -> (a: Army)
        ensures
            a@ == (ArmyView { atype: soldier.stype, soldiers: seq![soldier], empire, id, moved: false }),
    {
        let mut soldiers = Vec::new();
        soldiers.push(soldier);
        assert(soldiers@ == seq![soldier]);
        Army { atype: soldier.stype, soldiers, empire, id, moved: false }
    }

    /// Removes up to `amount` soldiers from the end of the army and says
    /// how many went.
    pub fn try_remove_soldiers(&mut self, amount: usize) -> (removed: usize)
        ensures
            removed == if amount < old(self)@.soldiers.len() {
                amount as int
            } else {
                old(self)@.soldiers.len() as int
            },
            final(self)@ == (ArmyView {
                soldiers: old(self)@.soldiers.take(old(self)@.soldiers.len() - removed),
                ..old(self)@
            }),
    {
        let count = self.soldier_count();
        let removed = if count < amount {
            count
        } else {
            amount
        };
        self.soldiers.truncate(count - removed);
        removed
    }

    /// The empire that owns the army.
    pub fn empire(&self) -> (e: u64)
        ensures
            e == self@.empire,
    {
        self.empire
    }

    /// How far the army marches in one turn: half as far from ten
    /// soldiers on.
    pub open spec fn march_budget_spec(self) -> u32 {
        if self@.soldiers.len() < 10 {
            self@.atype.march_budget_spec()
        } else {
            (self@.atype.march_budget_spec() / 2) as u32
        }
    }

    /// How far the army marches in one turn.
    pub fn march_budget(&self) -> (b: u32)
        ensures
            b == self.march_budget_spec(),
    {
        if self.soldiers.len() < 10 {
            return self.atype.march_budget();
        }
        self.atype.march_budget() / 2
    }

    /// The kind of soldiers in the army.
    pub fn soldier_type(&self) -> (t: SoldierType)
        ensures
            t == self@.atype,
    {
        self.atype
    }

    /// Adds a soldier of the army's kind at the end; refuses one of
    /// another kind.
    pub fn try_add_soldier(&mut self, soldier: Soldier) -> (added: bool)
        ensures
            added == (soldier.stype == old(self)@.atype),
            final(self)@ == (ArmyView {
                soldiers: if added {
                    old(self)@.soldiers.push(soldier)
                } else {
                    old(self)@.soldiers
                },
                ..old(self)@
            }),
    {
        if soldier.stype != self.atype {
            return false;
        }
        self.soldiers.push(soldier);
        true
    }

    /// Takes the last soldier of the army, if any.
    pub fn try_remove_soldier(&mut self) -> (s: Option<Soldier>)
        ensures
            old(self)@.soldiers.len() == 0 ==> s is None && final(self)@ == old(self)@,
            old(self)@.soldiers.len() > 0 ==> s == Some(old(self)@.soldiers.last()) && final(self)@ == (
            ArmyView { soldiers: old(self)@.soldiers.drop_last(), ..old(self)@ }),
    {
        self.soldiers.pop()
    }

    /// The army's number within its empire.
    pub fn id(&self) -> (i: u32)
        ensures
            i == self@.id,
    {
        self.id
    }

    /// The soldiers, first recruited first.
    pub fn soldiers(&self) -> (s: &Vec<Soldier>)
        ensures
            s@ == self@.soldiers,
    {
        &self.soldiers
    }

    /// How many soldiers the army has.
    pub fn soldier_count(&self) -> (n: usize)
        ensures
            n == self@.soldiers.len(),
    {
        self.soldiers.len()
    }

    /// Marks the army as moved this turn.
    pub fn set_moved(&mut self)
        ensures
            final(self)@ == (ArmyView { moved: true, ..old(self)@ }),
    {
        self.moved = true;
    }

    /// Whether the army moved this turn.
    pub fn moved(&self) -> (m: bool)
        ensures
            m == self@.moved,
    {
        self.moved
    }

    /// Clears the moved mark, at the start of its empire's turn.
    pub fn reset_moved(&mut self)
        ensures
            final(self)@ == (ArmyView { moved: false, ..old(self)@ }),
    {
        self.moved = false;
    }

    /// The army's title: "Army", its number and its kind in brackets.
    pub fn label(&self) -> (s: String)
        ensures
            s@ == "Army "@ + crate::text::decimal(self@.id as int) + " ("@ + "Infantry"@ + ")"@,
    {
        let mut s = String::from_str("Army ");
        let n = i64_text(self.id as i64);
        s.append(n.as_str());
        s.append(" (");
        s.append(self.atype.label());
        s.append(")");
        s
    }
}

} // verus!
