//! Stable typed handles into the game-state arenas.

use vstd::prelude::*;

verus! {

/// A stable player handle into [`crate::state::GameState`].
#[derive(Clone, Copy, Debug, PartialEq, Eq, Structural, Hash, PartialOrd, Ord)]
pub struct PlayerId(pub u32);

impl PlayerId {
    /// Returns the zero-based arena index for this player.
    pub fn index(self) -> (r: usize)
        ensures
            r == self.0,
    {
        self.0 as usize
    }
}

/// A stable object handle into the object arena.
#[derive(Clone, Copy, Debug, PartialEq, Eq, Structural, Hash, PartialOrd, Ord)]
pub struct ObjectId(pub u32);

impl ObjectId {
    /// Returns the zero-based arena index for this object.
    pub fn index(self) -> (r: usize)
        ensures
            r == self.0,
    {
        self.0 as usize
    }
}

/// Identifier for a printed card definition.
#[derive(Clone, Copy, Debug, PartialEq, Eq, Structural, Hash, PartialOrd, Ord)]
pub struct CardId(pub u32);

impl CardId {
    /// Creates a card-definition ID from a deterministic numeric value.
    pub fn new(value: u32) -> (r: Self)
        ensures
            r.0 == value,
    {
        CardId(value)
    }

    /// Returns the raw deterministic card-definition value.
    pub fn get(self) -> (r: u32)
        ensures
            r == self.0,
    {
        self.0
    }
}

/// Deterministic handle for a placeholder duration marker.
#[derive(Clone, Copy, Debug, PartialEq, Eq, Structural, Hash, PartialOrd, Ord)]
pub struct DurationMarkerId(pub u32);

impl DurationMarkerId {
    /// Returns the zero-based arena index for this duration marker.
    pub fn index(self) -> (r: usize)
        ensures
            r == self.0,
    {
        self.0 as usize
    }
}

/// A stable handle for one spell or ability on the stack.
#[derive(Clone, Copy, Debug, PartialEq, Eq, Structural, Hash, PartialOrd, Ord)]
pub struct StackEntryId(pub u32);

impl StackEntryId {
    /// Returns the zero-based arena index for this stack entry.
    pub fn index(self) -> (r: usize)
        ensures
            r == self.0,
    {
        self.0 as usize
    }

    /// Returns the raw deterministic stack-entry value.
    pub fn get(self) -> (r: u32)
        ensures
            r == self.0,
    {
        self.0
    }
}

/// A stable handle for one registered triggered ability definition.
#[derive(Clone, Copy, Debug, PartialEq, Eq, Structural, Hash, PartialOrd, Ord)]
pub struct TriggerId(pub u32);

impl TriggerId {
    /// Returns the zero-based trigger-definition index.
    pub fn index(self) -> (r: usize)
        ensures
            r == self.0,
    {
        self.0 as usize
    }

    /// Returns the raw deterministic trigger value.
    pub fn get(self) -> (r: u32)
        ensures
            r == self.0,
    {
        self.0
    }
}

/// A stable handle for one registered activated ability definition.
#[derive(Clone, Copy, Debug, PartialEq, Eq, Structural, Hash, PartialOrd, Ord)]
pub struct ActivatedAbilityId(pub u32);

impl ActivatedAbilityId {
    /// Returns the zero-based activated-ability definition index.
    pub fn index(self) -> (r: usize)
        ensures
            r == self.0,
    {
        self.0 as usize
    }

    /// Returns the raw deterministic activated-ability value.
    pub fn get(self) -> (r: u32)
        ensures
            r == self.0,
    {
        self.0
    }
}

/// A stable handle for one registered activation cost modifier.
#[derive(Clone, Copy, Debug, PartialEq, Eq, Structural, Hash, PartialOrd, Ord)]
pub struct CostModifierId(pub u32);

impl CostModifierId {
    /// Returns the zero-based cost-modifier index.
    pub fn index(self) -> (r: usize)
        ensures
            r == self.0,
    {
        self.0 as usize
    }

    /// Returns the raw deterministic cost-modifier value.
    pub fn get(self) -> (r: u32)
        ensures
            r == self.0,
    {
        self.0
    }
}

/// A stable handle for one registered replacement/prevention effect definition.
#[derive(Clone, Copy, Debug, PartialEq, Eq, Structural, Hash, PartialOrd, Ord)]
pub struct ReplacementEffectId(pub u32);

impl ReplacementEffectId {
    /// Returns the zero-based replacement-effect index.
    pub fn index(self) -> (r: usize)
        ensures
            r == self.0,
    {
        self.0 as usize
    }

    /// Returns the raw deterministic replacement-effect value.
    pub fn get(self) -> (r: u32)
        ensures
            r == self.0,
    {
        self.0
    }
}

/// A stable handle for one registered continuous effect definition.
#[derive(Clone, Copy, Debug, PartialEq, Eq, Structural, Hash, PartialOrd, Ord)]
pub struct ContinuousEffectId(pub u32);

impl ContinuousEffectId {
    /// Returns the zero-based continuous-effect index.
    pub fn index(self) -> (r: usize)
        ensures
            r == self.0,
    {
        self.0 as usize
    }

    /// Returns the raw deterministic continuous-effect value.
    pub fn get(self) -> (r: u32)
        ensures
            r == self.0,
    {
        self.0
    }
}

/// Deterministic state hash.
#[derive(Clone, Copy, Debug, PartialEq, Eq, Structural, Hash, PartialOrd, Ord)]
pub struct StateHash(pub u64);

impl StateHash {
    /// Returns the raw 64-bit FNV hash value.
    pub fn get(self) -> (r: u64)
        ensures
            r == self.0,
    {
        self.0
    }
}

} // verus!
