//! Abilities an entity can have: innate ones every human starts with, passive
//! ones that simply hold, and active ones the player triggers.
use vstd::prelude::*;

verus! {

#[derive(Clone, Copy, PartialEq, Eq, Structural, Hash, Debug)]
pub enum Ability {
    // Passive abilities
    HumanMove,
    VehicleMove,
    PickUp,
    WideVision,
    Precognition,
    // Active abilities
    Embark,
    Disembark,
    /// Lets the player move out of order and without turning, to dodge shots.
    Juke,
}

pub open spec fn spec_ability_name(a: Ability) -> Seq<char> {
    match a {
        Ability::HumanMove => "Move"@,
        Ability::VehicleMove => "Drive"@,
        Ability::PickUp => "Pick Up"@,
        Ability::WideVision => "Wide Vision"@,
        Ability::Precognition => "Precognition"@,
        Ability::Embark => "Embark"@,
        Ability::Disembark => "Disembark"@,
        Ability::Juke => "Juke"@,
    }
}

pub open spec fn spec_is_innate(a: Ability) -> bool {
    a == Ability::HumanMove || a == Ability::VehicleMove || a == Ability::PickUp || a == Ability::Disembark
}

pub open spec fn spec_is_passive(a: Ability) -> bool {
    a == Ability::HumanMove || a == Ability::VehicleMove || a == Ability::PickUp || a == Ability::WideVision
        || a == Ability::Precognition
}

pub open spec fn spec_description(a: Ability) -> Seq<char> {
    match a {
        Ability::HumanMove => "Allows movement on foot."@,
        Ability::VehicleMove => "Allows driving a vehicle. Required to drive tanks and other motorized units."@,
        Ability::PickUp => "Allows picking up items from the ground."@,
        Ability::WideVision =>
            "Expands your field of view to 270 degrees, leaving only a small blind spot directly behind you."@,
        Ability::Precognition =>
            "When examining an entity with the look command, you can see what action they are planning to take this turn."@,
        Ability::Embark => "Allows entering a vehicle. Move into a drivable vehicle to take the controls."@,
        Ability::Disembark => "Allows exiting a vehicle you are currently driving."@,
        Ability::Juke => "Move instantly out of turn order. Costs 25 energy. Useful for dodging incoming fire."@,
    }
}

/// Index of the human body part an ability is stored in when gained:
/// 0 head, 1 torso, 2 arm, 4 leg.
pub open spec fn spec_default_body_part(a: Ability) -> int {
    match a {
        Ability::WideVision => 0,
        Ability::Precognition => 0,
        Ability::VehicleMove => 1,
        Ability::Disembark => 1,
        Ability::PickUp => 2,
        Ability::Embark => 2,
        Ability::HumanMove => 4,
        Ability::Juke => 4,
    }
}

impl Ability {
    /// The ability's display name.
    pub fn to_string(&self) -> (r: String)
        ensures
            r@ == spec_ability_name(*self),
    {
        let s: &str = match self {
            Ability::HumanMove => "Move",
            Ability::VehicleMove => "Drive",
            Ability::PickUp => "Pick Up",
            Ability::WideVision => "Wide Vision",
            Ability::Precognition => "Precognition",
            Ability::Embark => "Embark",
            Ability::Disembark => "Disembark",
            Ability::Juke => "Juke",
        };
        s.to_owned()
    }

    /// Whether every human has this ability from the start.
    pub fn is_innate(&self) -> (r: bool)
        ensures
            r == spec_is_innate(*self),
    {
        match self {
            Ability::HumanMove => true,
            Ability::VehicleMove => true,
            Ability::PickUp => true,
            Ability::Disembark => true,
            _ => false,
        }
    }

    /// Whether the ability simply holds, with nothing to trigger.
    pub fn is_passive(&self) -> (r: bool)
        ensures
            r == spec_is_passive(*self),
    {
        match self {
            Ability::HumanMove => true,
            Ability::VehicleMove => true,
            Ability::PickUp => true,
            Ability::WideVision => true,
            Ability::Precognition => true,
            Ability::Embark => false,
            Ability::Disembark => false,
            Ability::Juke => false,
        }
    }

    /// One-sentence explanation shown in the ability menu.
    pub fn description(&self) -> (r: &'static str)
        ensures
            r@ == spec_description(*self),
    {
        match self {
            Ability::HumanMove => "Allows movement on foot.",
            Ability::VehicleMove => "Allows driving a vehicle. Required to drive tanks and other motorized units.",
            Ability::PickUp => "Allows picking up items from the ground.",
            Ability::WideVision =>
                "Expands your field of view to 270 degrees, leaving only a small blind spot directly behind you.",
            Ability::Precognition =>
                "When examining an entity with the look command, you can see what action they are planning to take this turn.",
            Ability::Embark => "Allows entering a vehicle. Move into a drivable vehicle to take the controls.",
            Ability::Disembark => "Allows exiting a vehicle you are currently driving.",
            Ability::Juke => "Move instantly out of turn order. Costs 25 energy. Useful for dodging incoming fire.",
        }
    }

    /// The body part index (into the human body's parts) where this ability is
    /// stored when gained.
    pub fn default_body_part(&self) -> (r: usize)
        ensures
            r == spec_default_body_part(*self),
    {
        match self {
            Ability::WideVision => 0,
            Ability::Precognition => 0,
            Ability::VehicleMove => 1,
            Ability::Disembark => 1,
            Ability::PickUp => 2,
            Ability::Embark => 2,
            Ability::HumanMove => 4,
            Ability::Juke => 4,
        }
    }
}

/// The part an ability is stored in is always one of the six parts of a human
/// body (head, torso, left arm, right arm, left leg, right leg).
pub proof fn law_body_part_in_range(a: Ability)
    ensures
        0 <= spec_default_body_part(a) < 6,
{
}

} // verus!
