//! Turn structure: every declared intent resolves in one phase of the turn,
//! and the phases run in a fixed order.
use vstd::prelude::*;

verus! {

/// How an action picks its target.
#[derive(Clone, Copy, PartialEq, Eq, Structural, Debug)]
pub enum Targeting {
    /// No target to pick.
    Untargeted,
    Positional { max_range: Option<u32> },
    Detailed,
    /// Fire at the player's current aim position (set by a prior aim action).
    /// If `ask_bodypart` is true and an entity occupies the aimed tile, opens
    /// the bodypart menu before resolving (used by single and burst fire).
    /// If false, fires directly at the position (used by rockets, fan fire).
    UseExistingAim { ask_bodypart: bool },
    /// Cycle the cursor among visible entities within range; confirms as an
    /// aim at that entity.
    EntityAim { max_range: Option<u32> },
    /// Resolve against an adjacent direction chosen by keypress.
    Direction,
}

/// Stable identity for a catalogue action, so that key bindings and the AI can
/// refer to an action.
#[derive(Clone, Copy, PartialEq, Eq, Structural, Debug)]
pub enum ActionId {
    Shout,
    IronBody,
    Rush,
    Twist,
    Distract,
    Equip,
    Drop,
    AimAtPosition,
    AimAtEntity,
    FireShot,
    FireBurst,
    FireRocket,
    FanFire,
    Prime,
    Throw,
    GetItem,
    Unequip,
}

/// The phases of a turn, in the order they resolve.
#[derive(Clone, Copy, PartialEq, Eq, Structural, Debug)]
pub enum ExecutionPhase {
    Idle,
    Instant,
    Inventory,
    Attack,
    Movement,
    ActiveItems,
    Misc,
}

/// Position of a phase in the turn order.
pub open spec fn phase_rank(p: ExecutionPhase) -> int {
    match p {
        ExecutionPhase::Idle => 0,
        ExecutionPhase::Instant => 1,
        ExecutionPhase::Inventory => 2,
        ExecutionPhase::Attack => 3,
        ExecutionPhase::Movement => 4,
        ExecutionPhase::ActiveItems => 5,
        ExecutionPhase::Misc => 6,
    }
}

/// The phase with a given position in the turn order.
pub open spec fn phase_at(k: int) -> ExecutionPhase {
    if k <= 0 {
        ExecutionPhase::Idle
    } else if k == 1 {
        ExecutionPhase::Instant
    } else if k == 2 {
        ExecutionPhase::Inventory
    } else if k == 3 {
        ExecutionPhase::Attack
    } else if k == 4 {
        ExecutionPhase::Movement
    } else if k == 5 {
        ExecutionPhase::ActiveItems
    } else {
        ExecutionPhase::Misc
    }
}

/// The phase after `p`, None after the last.
pub open spec fn spec_next_phase(p: ExecutionPhase) -> Option<ExecutionPhase> {
    if phase_rank(p) == 6 {
        None
    } else {
        Some(phase_at(phase_rank(p) + 1))
    }
}

impl ExecutionPhase {
    /// The phase that resolves after this one, None after the last.
    pub fn next(&self) -> (r: Option<ExecutionPhase>)
        ensures
            r == spec_next_phase(*self),
    {
        match self {
            ExecutionPhase::Idle => Some(ExecutionPhase::Instant),
            ExecutionPhase::Instant => Some(ExecutionPhase::Inventory),
            ExecutionPhase::Inventory => Some(ExecutionPhase::Attack),
            ExecutionPhase::Attack => Some(ExecutionPhase::Movement),
            ExecutionPhase::Movement => Some(ExecutionPhase::ActiveItems),
            ExecutionPhase::ActiveItems => Some(ExecutionPhase::Misc),
            ExecutionPhase::Misc => None,
        }
    }
}

/// The phase reached from `p` after `k` steps of `next`, None once the turn is over.
pub open spec fn phase_after(p: ExecutionPhase, k: nat) -> Option<ExecutionPhase>
    decreases k,
{
    if k == 0 {
        Some(p)
    } else {
        match spec_next_phase(p) {
            Some(q) => phase_after(q, (k - 1) as nat),
            None => None,
        }
    }
}

/// Each step of `next` moves strictly forward in the turn order, by one phase.
pub proof fn law_next_moves_forward(p: ExecutionPhase)
    ensures
        spec_next_phase(p) matches Some(q) ==> phase_rank(q) == phase_rank(p) + 1,
        spec_next_phase(p) is None <==> p == ExecutionPhase::Misc,
{
}

/// Starting from Idle, stepping through `next` visits every phase exactly once,
/// in order, and the turn ends after the last: after `k` steps (k < 7) the phase
/// is the one at position `k`, and after seven steps there is none.
pub proof fn law_turn_visits_every_phase(k: nat)
    ensures
        k < 7 ==> phase_after(ExecutionPhase::Idle, k) == Some(phase_at(k as int)),
        k >= 7 ==> phase_after(ExecutionPhase::Idle, k) is None,
{
    lemma_phase_after(ExecutionPhase::Idle, k);
}

proof fn lemma_phase_after(p: ExecutionPhase, k: nat)
    ensures
        phase_rank(p) + k <= 6 ==> phase_after(p, k) == Some(phase_at(phase_rank(p) + k)),
        phase_rank(p) + k > 6 ==> phase_after(p, k) is None,
    decreases k,
{
    if k > 0 {
        match spec_next_phase(p) {
            Some(q) => {
                lemma_phase_after(q, (k - 1) as nat);
            },
            None => {},
        }
    }
}

} // verus!
