//! Combat declarations, damage assignment requests, and current-combat state.

use vstd::prelude::*;

use crate::ids::{ObjectId, PlayerId};

verus! {

/// Which combat damage step is currently being processed.
#[derive(Clone, Copy, Debug, PartialEq, Eq, Structural, Hash, PartialOrd, Ord)]
pub enum CombatDamageStepKind {
    /// A single normal combat damage step.
    Normal,
    /// The first combat damage step created by first strike or double strike.
    FirstStrike,
    /// The second combat damage step after a first-strike step.
    Regular,
}

impl CombatDamageStepKind {
    /// Stable numeric code used by canonical encodings.
    pub open spec fn spec_canonical_code(self) -> u8 {
        match self {
            CombatDamageStepKind::Normal => 0,
            CombatDamageStepKind::FirstStrike => 1,
            CombatDamageStepKind::Regular => 2,
        }
    }

    /// Returns the stable numeric code used by canonical encodings.
    pub(crate) fn canonical_code(self) -> (r: u8)
        ensures
            r == self.spec_canonical_code(),
    {
        match self {
            CombatDamageStepKind::Normal => 0,
            CombatDamageStepKind::FirstStrike => 1,
            CombatDamageStepKind::Regular => 2,
        }
    }
}

/// A player or creature that may receive combat damage.
#[derive(Clone, Copy, Debug, PartialEq, Eq, Structural, Hash)]
pub enum CombatDamageTarget {
    /// Damage assigned to a player.
    Player(PlayerId),
    /// Damage assigned to a creature object.
    Object(ObjectId),
}

impl CombatDamageTarget {
    /// Stable numeric code used by canonical encodings.
    pub open spec fn spec_canonical_code(self) -> u8 {
        match self {
            CombatDamageTarget::Player(_) => 0,
            CombatDamageTarget::Object(_) => 1,
        }
    }

    /// Returns the stable numeric code used by canonical encodings.
    pub(crate) fn canonical_code(self) -> (r: u8)
        ensures
            r == self.spec_canonical_code(),
    {
        match self {
            CombatDamageTarget::Player(_) => 0,
            CombatDamageTarget::Object(_) => 1,
        }
    }
}

/// One attacker chosen during the declare attackers step.
#[derive(Clone, Copy, Debug, PartialEq, Eq, Structural, Hash)]
pub struct AttackDeclaration {
    pub attacker: ObjectId,
    pub defending_player: PlayerId,
}

impl AttackDeclaration {
    /// Creates an attack declaration.
    pub fn new(attacker: ObjectId, defending_player: PlayerId) -> (r: Self)
        ensures
            r.attacker == attacker && r.defending_player == defending_player,
    {
        AttackDeclaration { attacker, defending_player }
    }

    /// Returns the attacking object.
    pub fn attacker(self) -> (r: ObjectId)
        ensures
            r == self.attacker,
    {
        self.attacker
    }
    /// Returns the player this attacker is attacking.
    pub fn defending_player(self) -> (r: PlayerId)
        ensures
            r == self.defending_player,
    {
        self.defending_player
    }
}

/// One blocker chosen during the declare blockers step.
#[derive(Clone, Copy, Debug, PartialEq, Eq, Structural, Hash)]
pub struct BlockDeclaration {
    pub blocker: ObjectId,
    pub attacker: ObjectId,
}

impl BlockDeclaration {
    /// Creates a block declaration.
    pub fn new(blocker: ObjectId, attacker: ObjectId) -> (r: Self)
        ensures
            r.blocker == blocker && r.attacker == attacker,
    {
        BlockDeclaration { blocker, attacker }
    }

    /// Returns the blocking object.
    pub fn blocker(self) -> (r: ObjectId)
        ensures
            r == self.blocker,
    {
        self.blocker
    }
    /// Returns the attacking object being blocked.
    pub fn attacker(self) -> (r: ObjectId)
        ensures
            r == self.attacker,
    {
        self.attacker
    }
}

/// One target and amount in a combat damage assignment.
#[derive(Clone, Copy, Debug, PartialEq, Eq, Structural, Hash)]
pub struct CombatDamageAssignment {
    pub target: CombatDamageTarget,
    pub amount: u32,
}

impl CombatDamageAssignment {
    /// Creates one combat damage assignment.
    pub fn new(target: CombatDamageTarget, amount: u32) -> (r: Self)
        ensures
            r.target == target && r.amount == amount,
    {
        CombatDamageAssignment { target, amount }
    }

    /// Returns the assigned target.
    pub fn target(self) -> (r: CombatDamageTarget)
        ensures
            r == self.target,
    {
        self.target
    }
    /// Returns the assigned damage amount.
    pub fn amount(self) -> (r: u32)
        ensures
            r == self.amount,
    {
        self.amount
    }
}

/// All combat damage assigned by one source.
#[derive(Clone, Debug, PartialEq, Eq)]
pub struct CombatDamageAssignmentRequest {
    pub source: ObjectId,
    pub assignments: Vec<CombatDamageAssignment>,
}

impl CombatDamageAssignmentRequest {
    /// Creates a request for one combat damage source.
    pub fn new(source: ObjectId, assignments: Vec<CombatDamageAssignment>) -> (r: Self)
        ensures
            r.source == source && r.assignments@ == assignments@,
    {
        CombatDamageAssignmentRequest { source, assignments }
    }

    /// Returns the damage source.
    pub fn source(&self) -> (r: ObjectId)
        ensures
            r == self.source,
    {
        self.source
    }
    /// Returns target assignments for this source.
    pub fn assignments(&self) -> (r: &[CombatDamageAssignment])
        ensures
            r@ == self.assignments@,
    {
        self.assignments.as_slice()
    }
}

/// One combat damage event recorded after damage is dealt.
#[derive(Clone, Copy, Debug, PartialEq, Eq, Structural, Hash)]
pub struct CombatDamageRecord {
    pub source: ObjectId,
    pub target: CombatDamageTarget,
    pub amount: u32,
    pub step: CombatDamageStepKind,
    pub source_had_deathtouch: bool,
    pub source_had_lifelink: bool,
}

impl CombatDamageRecord {
    /// Returns the damage source.
    pub fn source(self) -> (r: ObjectId)
        ensures
            r == self.source,
    {
        self.source
    }
    /// Returns the damaged target.
    pub fn target(self) -> (r: CombatDamageTarget)
        ensures
            r == self.target,
    {
        self.target
    }
    /// Returns the dealt damage amount.
    pub fn amount(self) -> (r: u32)
        ensures
            r == self.amount,
    {
        self.amount
    }
    /// Returns which combat damage step dealt this damage.
    pub fn step(self) -> (r: CombatDamageStepKind)
        ensures
            r == self.step,
    {
        self.step
    }
    /// Returns whether the source had deathtouch as damage was dealt.
    pub fn source_had_deathtouch(self) -> (r: bool)
        ensures
            r == self.source_had_deathtouch,
    {
        self.source_had_deathtouch
    }
    /// Returns whether the source had lifelink as damage was dealt.
    pub fn source_had_lifelink(self) -> (r: bool)
        ensures
            r == self.source_had_lifelink,
    {
        self.source_had_lifelink
    }
}

/// One attacking creature in the current combat.
#[derive(Clone, Debug, PartialEq, Eq)]
pub struct AttackingCreature {
    pub object: ObjectId,
    pub defending_player: PlayerId,
    pub blocked: bool,
    pub blockers: Vec<ObjectId>,
}

impl AttackingCreature {
    /// Returns the attacking object.
    pub fn object(&self) -> (r: ObjectId)
        ensures
            r == self.object,
    {
        self.object
    }
    /// Returns the attacked player.
    pub fn defending_player(&self) -> (r: PlayerId)
        ensures
            r == self.defending_player,
    {
        self.defending_player
    }
    /// Returns true once this attacker has become blocked this combat.
    pub fn blocked(&self) -> (r: bool)
        ensures
            r == self.blocked,
    {
        self.blocked
    }
    /// Returns blockers declared for this attacker in declaration order.
    pub fn blockers(&self) -> (r: &[ObjectId])
        ensures
            r@ == self.blockers@,
    {
        self.blockers.as_slice()
    }
}

/// One blocking creature in the current combat.
#[derive(Clone, Copy, Debug, PartialEq, Eq, Structural, Hash)]
pub struct BlockingCreature {
    pub object: ObjectId,
    pub attacker: ObjectId,
}

impl BlockingCreature {
    /// Returns the blocking object.
    pub fn object(self) -> (r: ObjectId)
        ensures
            r == self.object,
    {
        self.object
    }
    /// Returns the attacking creature this object blocks.
    pub fn attacker(self) -> (r: ObjectId)
        ensures
            r == self.attacker,
    {
        self.attacker
    }
}

/// Current combat state, cleared at the beginning and end of combat.
#[derive(Clone, Debug, PartialEq, Eq)]
pub struct CombatState {
    pub attackers: Vec<AttackingCreature>,
    pub blockers: Vec<BlockingCreature>,
    pub damage_records: Vec<CombatDamageRecord>,
    pub damage_step: Option<CombatDamageStepKind>,
    pub first_strike_participants: Vec<ObjectId>,
}

impl CombatState {
    /// Creates an empty combat state.
    pub fn new() -> (r: Self)
        ensures
            r.attackers@.len() == 0 && r.blockers@.len() == 0 && r.damage_records@.len() == 0,
            r.damage_step is None && r.first_strike_participants@.len() == 0,
    {
        CombatState {
            attackers: Vec::new(),
            blockers: Vec::new(),
            damage_records: Vec::new(),
            damage_step: None,
            first_strike_participants: Vec::new(),
        }
    }

    /// Returns current attackers in declaration order.
    pub fn attackers(&self) -> (r: &[AttackingCreature])
        ensures
            r@ == self.attackers@,
    {
        self.attackers.as_slice()
    }
    /// Returns current blockers in declaration order.
    pub fn blockers(&self) -> (r: &[BlockingCreature])
        ensures
            r@ == self.blockers@,
    {
        self.blockers.as_slice()
    }
    /// Returns combat damage records in deal order.
    pub fn damage_records(&self) -> (r: &[CombatDamageRecord])
        ensures
            r@ == self.damage_records@,
    {
        self.damage_records.as_slice()
    }
    /// Returns the current combat damage sub-step, if any.
    pub fn damage_step(&self) -> (r: Option<CombatDamageStepKind>)
        ensures
            r == self.damage_step,
    {
        self.damage_step
    }
}

impl Default for CombatState {
    /// A combat with no participants.
    fn default() -> (r: Self)
        ensures
            r.attackers@.len() == 0 && r.blockers@.len() == 0 && r.damage_records@.len() == 0,
            r.damage_step is None && r.first_strike_participants@.len() == 0,
    {
        CombatState::new()
    }
}

} // verus!
