//! Picking provinces with the cursor: which province is hovered or
//! selected, and how each province looks.
use vstd::prelude::*;

verus! {

/// The province the cursor has picked, by entity.
#[derive(Clone, Copy, Debug, PartialEq, Eq, Structural)]
pub enum PickedProvince {
    Nothing,
    Hovered(u64),
    Selected(u64),
}

/// How a province is drawn.
#[derive(Clone, Copy, Debug, PartialEq, Eq, Structural)]
pub enum Look {
    Selected,
    Hovered,
    /// An army being moved can reach it.
    Reachable,
    /// In the colour of the empire with this number.
    EmpireColor(u32),
    Terrain,
}

/// How a province is drawn when the cursor has nothing to do with it:
/// reachable while an army is being moved and it can get there, else in
/// its owner's colour in the empire view, else by its terrain.
pub fn default_look(movement_view: bool, reachable: bool, empire_view: bool, owner: Option<u32>) -> (l: Look)
    ensures
        l == if movement_view && reachable {
            Look::Reachable
        } else if empire_view && owner is Some {
            Look::EmpireColor(owner.unwrap())
        } else {
            Look::Terrain
        },
{
    if movement_view && reachable {
        Look::Reachable
    } else if empire_view && owner.is_some() {
        match owner {
            Some(id) => Look::EmpireColor(id),
            None => Look::Terrain,
        }
    } else {
        Look::Terrain
    }
}

/// How the province `province` is drawn when every province is drawn
/// afresh: selected if it is the selected one, else its default look.
pub fn resting_look(
    picked: PickedProvince,
    province: u64,
    movement_view: bool,
    reachable: bool,
    empire_view: bool,
    owner: Option<u32>,
) -> (l: Look)
    ensures
        l == if picked == PickedProvince::Selected(province) {
            Look::Selected
        } else if movement_view && reachable {
            Look::Reachable
        } else if empire_view && owner is Some {
            Look::EmpireColor(owner.unwrap())
        } else {
            Look::Terrain
        },
{
    match picked {
        PickedProvince::Selected(p) if p == province => Look::Selected,
        _ => default_look(movement_view, reachable, empire_view, owner),
    }
}

/// The cursor enters the province `entered`. Unless a province is
/// selected or the camera has just moved, it becomes the hovered one and
/// is drawn so.
pub fn on_enter(picked: PickedProvince, entered: u64, camera_moved: bool) -> (r: (PickedProvince, Option<(u64, Look)>))
    ensures
        (picked is Selected || camera_moved) ==> r == (picked, None::<(u64, Look)>),
        !(picked is Selected || camera_moved) ==> r == (PickedProvince::Hovered(entered), Some((entered, Look::Hovered))),
{
    if let PickedProvince::Selected(_) = picked {
        return (picked, None);
    }
    if camera_moved {
        return (picked, None);
    }
    (PickedProvince::Hovered(entered), Some((entered, Look::Hovered)))
}

/// The cursor leaves the province `exited`, whose default look is
/// `default`. While a province is hovered, the exited one is drawn as by
/// default and nothing is picked any more.
pub fn on_exit(picked: PickedProvince, exited: u64, default: Look) -> (r: (PickedProvince, Option<(u64, Look)>))
    ensures
        picked is Hovered ==> r == (PickedProvince::Nothing, Some((exited, default))),
        !(picked is Hovered) ==> r == (picked, None::<(u64, Look)>),
{
    match picked {
        PickedProvince::Hovered(_) => (PickedProvince::Nothing, Some((exited, default))),
        _ => (picked, None),
    }
}

/// What a click on a province does.
#[derive(Clone, Copy, Debug, PartialEq, Eq, Structural)]
pub enum Press {
    Ignored,
    /// The selected province `old` is let go, and drawn as by default.
    Deselect { old: u64 },
    /// The army being moved goes to `to`, which becomes selected; the
    /// movement view ends. `reset`, the hovered province, is drawn as by
    /// default.
    MoveArmy { reset: Option<u64>, to: u64 },
    /// `province` becomes selected and is drawn so; `reset`, the hovered
    /// province, is drawn as by default.
    Select { reset: Option<u64>, province: u64 },
}

/// A click on the province `pressed`: only the primary button counts, and
/// while an army is being moved only a province it can reach. A click
/// lets go of a selected province; otherwise it moves the army there, or
/// selects the province.
pub fn on_press(
    picked: PickedProvince,
    pressed: u64,
    primary: bool,
    movement_view: bool,
    reachable: bool,
) -> (r: (PickedProvince, Press))
    ensures
        !primary || (movement_view && !reachable) ==> r == (picked, Press::Ignored),
        primary && !(movement_view && !reachable) ==> r == match picked {
            PickedProvince::Selected(old) => (PickedProvince::Nothing, Press::Deselect { old }),
            _ => {
                let reset = match picked {
                    PickedProvince::Hovered(h) => Some(h),
                    _ => None,
                };
                if movement_view {
                    (PickedProvince::Selected(pressed), Press::MoveArmy { reset, to: pressed })
                } else {
                    (PickedProvince::Selected(pressed), Press::Select { reset, province: pressed })
                }
            },
        },
{
    if !primary {
        return (picked, Press::Ignored);
    }
    if movement_view && !reachable {
        return (picked, Press::Ignored);
    }
    let reset = match picked {
        PickedProvince::Selected(old) => {
            return (PickedProvince::Nothing, Press::Deselect { old });
        },
        PickedProvince::Hovered(h) => Some(h),
        PickedProvince::Nothing => None,
    };
    if movement_view {
        (PickedProvince::Selected(pressed), Press::MoveArmy { reset, to: pressed })
    } else {
        (PickedProvince::Selected(pressed), Press::Select { reset, province: pressed })
    }
}

/// What the movement key does.
#[derive(Clone, Copy, Debug, PartialEq, Eq, Structural)]
pub enum MovementToggle {
    /// Nothing changes.
    Unchanged,
    /// The movement view ends; the army list goes back to its first army.
    Close,
    /// The movement view starts for `army`, from the selected province:
    /// the army list goes back to its first army and nothing stays picked.
    Open { army: u64 },
}

/// The movement key, in the selected province (`selected`), where
/// `player_armies` are the player's armies, each with whether it has
/// moved this turn, `armies_here` counts all armies, and `current` is the
/// army picked in the list. Only an army that has not moved yet can be
/// moved.
pub fn toggle_movement(
    selected: bool,
    armies_here: usize,
    player_armies: &[(u64, bool)],
    current: u32,
    key: bool,
    view_on: bool,
) -> (r: MovementToggle)
    requires
        selected && armies_here > 0 ==> current < player_armies@.len(),
    ensures
        r == if !selected || armies_here == 0 || player_armies@[current as int].1 || !key {
            MovementToggle::Unchanged
        } else if view_on {
            MovementToggle::Close
        } else {
            MovementToggle::Open { army: player_armies@[current as int].0 }
        },
{
    if !selected || armies_here == 0 {
        return MovementToggle::Unchanged;
    }
    let (army, moved) = player_armies[current as usize];
    if moved || !key {
        return MovementToggle::Unchanged;
    }
    if view_on {
        MovementToggle::Close
    } else {
        MovementToggle::Open { army }
    }
}

} // verus!
