//! Small components attached to entities.
use vstd::prelude::*;
use crate::geom::{Direction, Point};

verus! {

#[derive(Clone, Copy, PartialEq, Eq, Structural, Debug)]
pub struct Facing {
    pub direction: Direction,
}

/// What an entity means to do this turn.
#[derive(Clone, Copy, PartialEq, Eq, Structural, Debug)]
pub enum Intent {
    Idle,
    Move(Point),
    Turn(Direction),
    Melee(Point),
    GetItem,
    /// Inventory index, map position.
    Throw(usize, Point),
    /// Inventory index.
    Drop(usize),
    /// Inventory index.
    Equip(usize),
    Unequip(SlotType),
}

/// An effect of an action on the world.
#[derive(Clone, Copy, PartialEq, Eq, Structural, Debug)]
pub enum Effect {
    /// Damage to the entity with this id.
    Damage(usize),
}

/// The kinds of places on a body where an item can be worn or held.
#[derive(Clone, Copy, PartialEq, Eq, Structural, Debug)]
pub enum SlotType {
    PrimaryHand,
    SecondaryHand,
    Headwear,
    LeftLegwear,
    RightLegwear,
    Bodywear,
    LeftArmwear,
    RightArmwear,
}

} // verus!
