//! Zones, turn phases and steps, and effect-duration markers.

use vstd::prelude::*;

use crate::ids::{DurationMarkerId, PlayerId};

verus! {

/// Number of cards drawn for an opening hand and after each London mulligan.
pub const OPENING_HAND_SIZE: u32 = 7;

/// Zone categories tracked by the state arena.
#[derive(Clone, Copy, Debug, PartialEq, Eq, Structural, Hash, PartialOrd, Ord)]
pub enum ZoneKind {
    /// A player's library.
    Library,
    /// A player's hand.
    Hand,
    /// The shared battlefield.
    Battlefield,
    /// A player's graveyard.
    Graveyard,
    /// The shared exile zone.
    Exile,
    /// The shared stack zone.
    Stack,
    /// The shared command zone.
    Command,
}

impl ZoneKind {
    /// Stable numeric code used by canonical encodings.
    pub open spec fn spec_canonical_code(self) -> u8 {
        match self {
            ZoneKind::Library => 0,
            ZoneKind::Hand => 1,
            ZoneKind::Battlefield => 2,
            ZoneKind::Graveyard => 3,
            ZoneKind::Exile => 4,
            ZoneKind::Stack => 5,
            ZoneKind::Command => 6,
        }
    }

    /// Returns the stable numeric code used by canonical encodings.
    pub(crate) fn canonical_code(self) -> (r: u8)
        ensures
            r == self.spec_canonical_code(),
    {
        match self {
            ZoneKind::Library => 0,
            ZoneKind::Hand => 1,
            ZoneKind::Battlefield => 2,
            ZoneKind::Graveyard => 3,
            ZoneKind::Exile => 4,
            ZoneKind::Stack => 5,
            ZoneKind::Command => 6,
        }
    }

    /// Library, hand and graveyard belong to one player; the other zones are shared.
    pub open spec fn spec_requires_owner(self) -> bool {
        self == ZoneKind::Library || self == ZoneKind::Hand || self == ZoneKind::Graveyard
    }

    /// Returns true for zone kinds that belong to one player.
    pub(crate) fn requires_owner(self) -> (r: bool)
        ensures
            r == self.spec_requires_owner(),
    {
        match self {
            ZoneKind::Library | ZoneKind::Hand | ZoneKind::Graveyard => true,
            _ => false,
        }
    }
}

/// A specific zone in a game.
#[derive(Clone, Copy, Debug, PartialEq, Eq, Structural, Hash, PartialOrd, Ord)]
pub struct ZoneId {
    pub owner: Option<PlayerId>,
    pub kind: ZoneKind,
}

impl ZoneId {
    /// Creates a zone ID.
    pub fn new(owner: Option<PlayerId>, kind: ZoneKind) -> (r: Self)
        ensures
            r.owner == owner && r.kind == kind,
    {
        ZoneId { owner, kind }
    }

    /// Returns the zone owner, if the zone is player-owned.
    pub fn owner(self) -> (r: Option<PlayerId>)
        ensures
            r == self.owner,
    {
        self.owner
    }
    /// Returns the kind of this zone.
    pub fn kind(self) -> (r: ZoneKind)
        ensures
            r == self.kind,
    {
        self.kind
    }
}

/// The five phases that make up a turn.
#[derive(Clone, Copy, Debug, PartialEq, Eq, Structural, Hash, PartialOrd, Ord)]
pub enum Phase {
    /// The beginning phase: untap, upkeep, and draw.
    Beginning,
    /// The first main phase of the turn.
    PrecombatMain,
    /// The combat phase.
    Combat,
    /// The second main phase of the turn.
    PostcombatMain,
    /// The ending phase: end and cleanup.
    Ending,
}

impl Phase {
    /// Stable numeric code used by canonical encodings.
    pub open spec fn spec_canonical_code(self) -> u8 {
        match self {
            Phase::Beginning => 0,
            Phase::PrecombatMain => 1,
            Phase::Combat => 2,
            Phase::PostcombatMain => 3,
            Phase::Ending => 4,
        }
    }

    /// Returns the stable numeric code used by canonical encodings.
    pub(crate) fn canonical_code(self) -> (r: u8)
        ensures
            r == self.spec_canonical_code(),
    {
        match self {
            Phase::Beginning => 0,
            Phase::PrecombatMain => 1,
            Phase::Combat => 2,
            Phase::PostcombatMain => 3,
            Phase::Ending => 4,
        }
    }
}

/// Explicit turn step or main-phase segment in turn order.
#[derive(Clone, Copy, Debug, PartialEq, Eq, Structural, Hash, PartialOrd, Ord)]
pub enum Step {
    /// Untap step.
    Untap,
    /// Upkeep step.
    Upkeep,
    /// Draw step.
    Draw,
    /// Precombat main phase.
    PrecombatMain,
    /// Beginning of combat step.
    BeginningOfCombat,
    /// Declare attackers step.
    DeclareAttackers,
    /// Declare blockers step.
    DeclareBlockers,
    /// Combat damage step.
    CombatDamage,
    /// End of combat step.
    EndOfCombat,
    /// Postcombat main phase.
    PostcombatMain,
    /// End step.
    End,
    /// Cleanup step.
    Cleanup,
}

impl Step {
    /// The phase that contains a step.
    pub open spec fn spec_phase(self) -> Phase {
        match self {
            Step::Untap | Step::Upkeep | Step::Draw => Phase::Beginning,
            Step::PrecombatMain => Phase::PrecombatMain,
            Step::BeginningOfCombat
            | Step::DeclareAttackers
            | Step::DeclareBlockers
            | Step::CombatDamage
            | Step::EndOfCombat => Phase::Combat,
            Step::PostcombatMain => Phase::PostcombatMain,
            Step::End | Step::Cleanup => Phase::Ending,
        }
    }

    /// Returns the phase containing this step or main-phase segment.
    pub fn phase(self) -> (r: Phase)
        ensures
            r == self.spec_phase(),
    {
        match self {
            Step::Untap | Step::Upkeep | Step::Draw => Phase::Beginning,
            Step::PrecombatMain => Phase::PrecombatMain,
            Step::BeginningOfCombat
            | Step::DeclareAttackers
            | Step::DeclareBlockers
            | Step::CombatDamage
            | Step::EndOfCombat => Phase::Combat,
            Step::PostcombatMain => Phase::PostcombatMain,
            Step::End | Step::Cleanup => Phase::Ending,
        }
    }

    /// Returns true for steps or main phases where priority is normally given.
    ///
    /// Untap never gives priority, and cleanup gives priority only through the
    /// explicit cleanup exception tracked by the game state.
    pub fn receives_priority_normally(self) -> (r: bool)
        ensures
            r == !(self == Step::Untap || self == Step::Cleanup),
    {
        match self {
            Step::Untap | Step::Cleanup => false,
            _ => true,
        }
    }

    /// Stable numeric code used by canonical encodings.
    pub open spec fn spec_canonical_code(self) -> u8 {
        match self {
            Step::Untap => 0,
            Step::Upkeep => 1,
            Step::Draw => 2,
            Step::PrecombatMain => 3,
            Step::BeginningOfCombat => 4,
            Step::DeclareAttackers => 5,
            Step::DeclareBlockers => 6,
            Step::CombatDamage => 7,
            Step::EndOfCombat => 8,
            Step::PostcombatMain => 9,
            Step::End => 10,
            Step::Cleanup => 11,
        }
    }

    /// Returns the stable numeric code used by canonical encodings.
    pub(crate) fn canonical_code(self) -> (r: u8)
        ensures
            r == self.spec_canonical_code(),
    {
        match self {
            Step::Untap => 0,
            Step::Upkeep => 1,
            Step::Draw => 2,
            Step::PrecombatMain => 3,
            Step::BeginningOfCombat => 4,
            Step::DeclareAttackers => 5,
            Step::DeclareBlockers => 6,
            Step::CombatDamage => 7,
            Step::EndOfCombat => 8,
            Step::PostcombatMain => 9,
            Step::End => 10,
            Step::Cleanup => 11,
        }
    }
}

/// The unskipped turn skeleton.
///
/// Runtime turn advancement may skip declare-blockers and combat-damage steps
/// when no attackers exist, and may repeat cleanup.
pub const NORMAL_TURN_STEPS: [Step; 12] = [
    Step::Untap,
    Step::Upkeep,
    Step::Draw,
    Step::PrecombatMain,
    Step::BeginningOfCombat,
    Step::DeclareAttackers,
    Step::DeclareBlockers,
    Step::CombatDamage,
    Step::EndOfCombat,
    Step::PostcombatMain,
    Step::End,
    Step::Cleanup,
];

/// Summary of the most recent cleanup step's turn-based actions.
#[derive(Clone, Copy, Debug, PartialEq, Eq, Structural, Hash)]
pub struct CleanupReport {
    pub discarded: u32,
    pub expired_until_end_of_turn: u32,
    pub expired_this_turn: u32,
}

impl CleanupReport {
    /// The report of a cleanup that did nothing.
    pub fn zero() -> (r: Self)
        ensures
            r.discarded == 0 && r.expired_until_end_of_turn == 0 && r.expired_this_turn == 0,
    {
        CleanupReport { discarded: 0, expired_until_end_of_turn: 0, expired_this_turn: 0 }
    }

    /// Returns how many objects were discarded to maximum hand size.
    pub fn discarded(self) -> (r: u32)
        ensures
            r == self.discarded,
    {
        self.discarded
    }
    /// Returns how many "until end of turn" markers expired.
    pub fn expired_until_end_of_turn(self) -> (r: u32)
        ensures
            r == self.expired_until_end_of_turn,
    {
        self.expired_until_end_of_turn
    }
    /// Returns how many "this turn" markers expired.
    pub fn expired_this_turn(self) -> (r: u32)
        ensures
            r == self.expired_this_turn,
    {
        self.expired_this_turn
    }
}

/// Duration categories needed by the turn machine.
#[derive(Clone, Copy, Debug, PartialEq, Eq, Structural, Hash, PartialOrd, Ord)]
pub enum EffectDuration {
    /// Expires as the named step or main-phase segment begins.
    UntilStepBegins(Step),
    /// Expires as the named phase ends.
    UntilPhaseEnds(Phase),
    /// Expires at the end of the combat phase.
    UntilEndOfCombat,
    /// Expires during cleanup.
    UntilEndOfTurn,
    /// Expires during cleanup.
    ThisTurn,
}

impl EffectDuration {
    /// Stable numeric code used by canonical encodings.
    pub open spec fn spec_canonical_code(self) -> u8 {
        match self {
            EffectDuration::UntilStepBegins(_) => 0,
            EffectDuration::UntilPhaseEnds(_) => 1,
            EffectDuration::UntilEndOfCombat => 2,
            EffectDuration::UntilEndOfTurn => 3,
            EffectDuration::ThisTurn => 4,
        }
    }

    /// Returns the stable numeric code used by canonical encodings.
    pub(crate) fn canonical_code(self) -> (r: u8)
        ensures
            r == self.spec_canonical_code(),
    {
        match self {
            EffectDuration::UntilStepBegins(_) => 0,
            EffectDuration::UntilPhaseEnds(_) => 1,
            EffectDuration::UntilEndOfCombat => 2,
            EffectDuration::UntilEndOfTurn => 3,
            EffectDuration::ThisTurn => 4,
        }
    }
}

/// Placeholder for a continuous effect with a turn-structure duration.
#[derive(Clone, Copy, Debug, PartialEq, Eq, Structural, Hash)]
pub struct DurationMarker {
    pub id: DurationMarkerId,
    pub duration: EffectDuration,
}

impl DurationMarker {
    /// Returns the stable marker ID.
    pub fn id(self) -> (r: DurationMarkerId)
        ensures
            r == self.id,
    {
        self.id
    }
    /// Returns the marker's current duration.
    pub fn duration(self) -> (r: EffectDuration)
        ensures
            r == self.duration,
    {
        self.duration
    }
}

impl Default for CleanupReport {
    /// A report of a cleanup that did nothing.
    fn default() -> (r: Self)
        ensures
            r.discarded == 0 && r.expired_until_end_of_turn == 0 && r.expired_this_turn == 0,
    {
        CleanupReport::zero()
    }
}

} // verus!
