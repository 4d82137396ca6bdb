//! Game results, the table of state-based-action rows, and their reports.

use vstd::prelude::*;

use crate::ids::{PlayerId, StackEntryId};

verus! {

/// Maximum number of state-based-action passes before declaring nontermination.
pub const SBA_FIXPOINT_LIMIT: u32 = 64;

/// Current game result derived by state-based actions.
#[derive(Clone, Copy, Debug, PartialEq, Eq, Structural, Hash)]
pub enum GameOutcome {
    /// The game has not ended.
    InProgress,
    /// Exactly one player remains in the game.
    Won(PlayerId),
    /// No player remains, or all remaining players lost simultaneously.
    Draw,
}

impl GameOutcome {
    /// Stable numeric code used by canonical encodings.
    pub open spec fn spec_canonical_code(self) -> u8 {
        match self {
            GameOutcome::InProgress => 0,
            GameOutcome::Won(_) => 1,
            GameOutcome::Draw => 2,
        }
    }

    /// Returns the stable numeric code used by canonical encodings.
    pub(crate) fn canonical_code(self) -> (r: u8)
        ensures
            r == self.spec_canonical_code(),
    {
        match self {
            GameOutcome::InProgress => 0,
            GameOutcome::Won(_) => 1,
            GameOutcome::Draw => 2,
        }
    }
}

/// One kind of state-based action.
#[derive(Clone, Copy, Debug, PartialEq, Eq, Structural, Hash)]
pub enum StateBasedActionKind {
    /// A player with 0 or less life loses the game.
    PlayerZeroOrLessLife,
    /// A player who tried to draw from an empty library loses.
    PlayerDrewFromEmptyLibrary,
    /// A player with ten or more poison counters loses.
    PlayerTenOrMorePoison,
    /// A token outside the battlefield ceases to exist.
    TokenOffBattlefield,
    /// A copy in an illegal zone ceases to exist.
    CopyOutOfAllowedZone,
    /// A creature with toughness 0 or less goes to its owner's graveyard.
    CreatureZeroOrLessToughness,
    /// Lethal damage destroys a creature with toughness greater than 0.
    CreatureLethalDamage,
    /// Deathtouch damage destroys a creature with toughness greater than 0.
    CreatureDeathtouchDamage,
    /// A planeswalker with loyalty 0 goes to its owner's graveyard.
    PlaneswalkerZeroLoyalty,
    /// The legend rule.
    LegendRule,
    /// The world rule.
    WorldRule,
    /// Illegal or unattached Auras go to their owners' graveyards.
    AuraIllegalOrUnattached,
    /// Illegal Equipment or Fortification attachments become unattached.
    EquipmentOrFortificationIllegalAttachment,
    /// Battles, creatures, and other illegal attachments become unattached.
    BattleCreatureOrOtherIllegalAttachment,
    /// Matching +1/+1 and -1/-1 counters annihilate.
    CounterPairCancellation,
    /// Counters above a maximum are removed.
    CounterMaximum,
    /// Completed Sagas are sacrificed.
    SagaFinalChapter,
    /// Completed dungeons are removed from the game.
    DungeonCompleted,
    /// Space sculptor sector designations are chosen.
    SpaceSculptorDesignation,
    /// A battle with defense 0 goes to its owner's graveyard.
    BattleZeroDefense,
    /// A battle without a protector chooses one or goes to graveyard.
    BattleMissingProtector,
    /// A Siege whose controller is its protector chooses a new protector.
    SiegeControllerProtector,
    /// Duplicate Roles controlled by one player are put into graveyards.
    DuplicateRole,
    /// Start your engines! gives speed 1.
    StartYourEnginesNoSpeed,
}

impl StateBasedActionKind {
    /// Stable numeric code used by canonical encodings.
    pub open spec fn spec_canonical_code(self) -> u8 {
        match self {
            StateBasedActionKind::PlayerZeroOrLessLife => 0,
            StateBasedActionKind::PlayerDrewFromEmptyLibrary => 1,
            StateBasedActionKind::PlayerTenOrMorePoison => 2,
            StateBasedActionKind::TokenOffBattlefield => 3,
            StateBasedActionKind::CopyOutOfAllowedZone => 4,
            StateBasedActionKind::CreatureZeroOrLessToughness => 5,
            StateBasedActionKind::CreatureLethalDamage => 6,
            StateBasedActionKind::CreatureDeathtouchDamage => 7,
            StateBasedActionKind::PlaneswalkerZeroLoyalty => 8,
            StateBasedActionKind::LegendRule => 9,
            StateBasedActionKind::WorldRule => 10,
            StateBasedActionKind::AuraIllegalOrUnattached => 11,
            StateBasedActionKind::EquipmentOrFortificationIllegalAttachment => 12,
            StateBasedActionKind::BattleCreatureOrOtherIllegalAttachment => 13,
            StateBasedActionKind::CounterPairCancellation => 14,
            StateBasedActionKind::CounterMaximum => 15,
            StateBasedActionKind::SagaFinalChapter => 16,
            StateBasedActionKind::DungeonCompleted => 17,
            StateBasedActionKind::SpaceSculptorDesignation => 18,
            StateBasedActionKind::BattleZeroDefense => 19,
            StateBasedActionKind::BattleMissingProtector => 20,
            StateBasedActionKind::SiegeControllerProtector => 21,
            StateBasedActionKind::DuplicateRole => 22,
            StateBasedActionKind::StartYourEnginesNoSpeed => 23,
        }
    }

    /// Returns the stable numeric code used by canonical encodings.
    pub(crate) fn canonical_code(self) -> (r: u8)
        ensures
            r == self.spec_canonical_code(),
    {
        match self {
            StateBasedActionKind::PlayerZeroOrLessLife => 0,
            StateBasedActionKind::PlayerDrewFromEmptyLibrary => 1,
            StateBasedActionKind::PlayerTenOrMorePoison => 2,
            StateBasedActionKind::TokenOffBattlefield => 3,
            StateBasedActionKind::CopyOutOfAllowedZone => 4,
            StateBasedActionKind::CreatureZeroOrLessToughness => 5,
            StateBasedActionKind::CreatureLethalDamage => 6,
            StateBasedActionKind::CreatureDeathtouchDamage => 7,
            StateBasedActionKind::PlaneswalkerZeroLoyalty => 8,
            StateBasedActionKind::LegendRule => 9,
            StateBasedActionKind::WorldRule => 10,
            StateBasedActionKind::AuraIllegalOrUnattached => 11,
            StateBasedActionKind::EquipmentOrFortificationIllegalAttachment => 12,
            StateBasedActionKind::BattleCreatureOrOtherIllegalAttachment => 13,
            StateBasedActionKind::CounterPairCancellation => 14,
            StateBasedActionKind::CounterMaximum => 15,
            StateBasedActionKind::SagaFinalChapter => 16,
            StateBasedActionKind::DungeonCompleted => 17,
            StateBasedActionKind::SpaceSculptorDesignation => 18,
            StateBasedActionKind::BattleZeroDefense => 19,
            StateBasedActionKind::BattleMissingProtector => 20,
            StateBasedActionKind::SiegeControllerProtector => 21,
            StateBasedActionKind::DuplicateRole => 22,
            StateBasedActionKind::StartYourEnginesNoSpeed => 23,
        }
    }

    /// The row at position `i` of the table.
    pub open spec fn spec_row(i: int) -> StateBasedActionKind {
        if i == 0 { StateBasedActionKind::PlayerZeroOrLessLife } else if i == 1 { StateBasedActionKind::PlayerDrewFromEmptyLibrary } else if i == 2 { StateBasedActionKind::PlayerTenOrMorePoison } else if i == 3 { StateBasedActionKind::TokenOffBattlefield } else if i == 4 { StateBasedActionKind::CopyOutOfAllowedZone } else if i == 5 { StateBasedActionKind::CreatureZeroOrLessToughness } else if i == 6 { StateBasedActionKind::CreatureLethalDamage } else if i == 7 { StateBasedActionKind::CreatureDeathtouchDamage } else if i == 8 { StateBasedActionKind::PlaneswalkerZeroLoyalty } else if i == 9 { StateBasedActionKind::LegendRule } else if i == 10 { StateBasedActionKind::WorldRule } else if i == 11 { StateBasedActionKind::AuraIllegalOrUnattached } else if i == 12 { StateBasedActionKind::EquipmentOrFortificationIllegalAttachment } else if i == 13 { StateBasedActionKind::BattleCreatureOrOtherIllegalAttachment } else if i == 14 { StateBasedActionKind::CounterPairCancellation } else if i == 15 { StateBasedActionKind::CounterMaximum } else if i == 16 { StateBasedActionKind::SagaFinalChapter } else if i == 17 { StateBasedActionKind::DungeonCompleted } else if i == 18 { StateBasedActionKind::SpaceSculptorDesignation } else if i == 19 { StateBasedActionKind::BattleZeroDefense } else if i == 20 { StateBasedActionKind::BattleMissingProtector } else if i == 21 { StateBasedActionKind::SiegeControllerProtector } else if i == 22 { StateBasedActionKind::DuplicateRole } else { StateBasedActionKind::StartYourEnginesNoSpeed }
    }
}

/// The state-based-action rows, in rule order.
pub const STATE_BASED_ACTION_TABLE: [StateBasedActionKind; 24] = [
    StateBasedActionKind::PlayerZeroOrLessLife,
    StateBasedActionKind::PlayerDrewFromEmptyLibrary,
    StateBasedActionKind::PlayerTenOrMorePoison,
    StateBasedActionKind::TokenOffBattlefield,
    StateBasedActionKind::CopyOutOfAllowedZone,
    StateBasedActionKind::CreatureZeroOrLessToughness,
    StateBasedActionKind::CreatureLethalDamage,
    StateBasedActionKind::CreatureDeathtouchDamage,
    StateBasedActionKind::PlaneswalkerZeroLoyalty,
    StateBasedActionKind::LegendRule,
    StateBasedActionKind::WorldRule,
    StateBasedActionKind::AuraIllegalOrUnattached,
    StateBasedActionKind::EquipmentOrFortificationIllegalAttachment,
    StateBasedActionKind::BattleCreatureOrOtherIllegalAttachment,
    StateBasedActionKind::CounterPairCancellation,
    StateBasedActionKind::CounterMaximum,
    StateBasedActionKind::SagaFinalChapter,
    StateBasedActionKind::DungeonCompleted,
    StateBasedActionKind::SpaceSculptorDesignation,
    StateBasedActionKind::BattleZeroDefense,
    StateBasedActionKind::BattleMissingProtector,
    StateBasedActionKind::SiegeControllerProtector,
    StateBasedActionKind::DuplicateRole,
    StateBasedActionKind::StartYourEnginesNoSpeed,
];

/// Returns the state-based-action table used by the state-based-action runner.
pub fn state_based_action_table() -> (r: &'static [StateBasedActionKind])
    ensures
        r@.len() == 24,
        forall|i: int| 0 <= i < 24 ==> r@[i] == StateBasedActionKind::spec_row(i),
        forall|i: int| 0 <= i < 24 ==> (#[trigger] r@[i]).spec_canonical_code() == i,
        forall|i: int, j: int| 0 <= i < j < 24 ==> #[trigger] r@[i] != #[trigger] r@[j],
{
    let r: &'static [StateBasedActionKind] = &STATE_BASED_ACTION_TABLE;
    r
}

/// Summary returned after checking state-based actions to a fixpoint.
#[derive(Clone, Copy, Debug, PartialEq, Eq, Structural, Hash)]
pub struct StateBasedActionReport {
    pub iterations: u32,
    pub actions_performed: u32,
    pub players_lost: u32,
    pub permanents_moved_to_graveyard: u32,
    pub empty_library_draw_losses: u32,
    pub zero_toughness_creatures: u32,
    pub lethal_damage_creatures: u32,
    pub deathtouch_damage_creatures: u32,
}

impl StateBasedActionReport {
    /// The report of a check that did nothing.
    pub fn zero() -> (r: Self)
        ensures
            r.iterations == 0 && r.actions_performed == 0 && r.players_lost == 0,
            r.permanents_moved_to_graveyard == 0 && r.empty_library_draw_losses == 0,
            r.zero_toughness_creatures == 0 && r.lethal_damage_creatures == 0,
            r.deathtouch_damage_creatures == 0,
    {
        StateBasedActionReport {
            iterations: 0,
            actions_performed: 0,
            players_lost: 0,
            permanents_moved_to_graveyard: 0,
            empty_library_draw_losses: 0,
            zero_toughness_creatures: 0,
            lethal_damage_creatures: 0,
            deathtouch_damage_creatures: 0,
        }
    }

    /// Returns how many nonempty passes were needed.
    pub fn iterations(self) -> (r: u32)
        ensures
            r == self.iterations,
    {
        self.iterations
    }
    /// Returns the total count of player-loss and permanent-movement actions.
    pub fn actions_performed(self) -> (r: u32)
        ensures
            r == self.actions_performed,
    {
        self.actions_performed
    }
    /// Returns how many players lost during this check.
    pub fn players_lost(self) -> (r: u32)
        ensures
            r == self.players_lost,
    {
        self.players_lost
    }
    /// Returns how many permanents were moved to graveyards.
    pub fn permanents_moved_to_graveyard(self) -> (r: u32)
        ensures
            r == self.permanents_moved_to_graveyard,
    {
        self.permanents_moved_to_graveyard
    }
    /// Returns how many player losses came from empty-library draw attempts.
    pub fn empty_library_draw_losses(self) -> (r: u32)
        ensures
            r == self.empty_library_draw_losses,
    {
        self.empty_library_draw_losses
    }
    /// Returns how many creatures moved for toughness 0 or less.
    pub fn zero_toughness_creatures(self) -> (r: u32)
        ensures
            r == self.zero_toughness_creatures,
    {
        self.zero_toughness_creatures
    }
    /// Returns how many creatures were destroyed by lethal damage.
    pub fn lethal_damage_creatures(self) -> (r: u32)
        ensures
            r == self.lethal_damage_creatures,
    {
        self.lethal_damage_creatures
    }
    /// Returns how many creatures were destroyed by deathtouch damage.
    pub fn deathtouch_damage_creatures(self) -> (r: u32)
        ensures
            r == self.deathtouch_damage_creatures,
    {
        self.deathtouch_damage_creatures
    }
    /// Counts one more nonempty pass, saturating.
    pub(crate) fn record_iteration(&mut self)
        ensures
            final(self).iterations == (if old(self).iterations < u32::MAX {
                old(self).iterations + 1
            } else {
                u32::MAX as int
            }),
            final(self).actions_performed == old(self).actions_performed,
            final(self).players_lost == old(self).players_lost,
    {
        self.iterations = self.iterations.saturating_add(1);
    }

    /// Counts one player loss of the given row, saturating.
    pub(crate) fn record_player_loss(&mut self, kind: StateBasedActionKind)
        ensures
            final(self).actions_performed == sat_inc(old(self).actions_performed),
            final(self).players_lost == sat_inc(old(self).players_lost),
            final(self).empty_library_draw_losses == (if kind
                == StateBasedActionKind::PlayerDrewFromEmptyLibrary {
                sat_inc(old(self).empty_library_draw_losses)
            } else {
                old(self).empty_library_draw_losses
            }),
            final(self).iterations == old(self).iterations,
            final(self).permanents_moved_to_graveyard == old(self).permanents_moved_to_graveyard,
    {
        self.actions_performed = self.actions_performed.saturating_add(1);
        self.players_lost = self.players_lost.saturating_add(1);
        if kind == StateBasedActionKind::PlayerDrewFromEmptyLibrary {
            self.empty_library_draw_losses = self.empty_library_draw_losses.saturating_add(1);
        }
    }

    /// Counts one permanent moved to a graveyard by the given row, saturating.
    pub(crate) fn record_permanent_move(&mut self, kind: StateBasedActionKind)
        ensures
            final(self).actions_performed == sat_inc(old(self).actions_performed),
            final(self).permanents_moved_to_graveyard == sat_inc(
                old(self).permanents_moved_to_graveyard,
            ),
            final(self).zero_toughness_creatures == (if kind
                == StateBasedActionKind::CreatureZeroOrLessToughness {
                sat_inc(old(self).zero_toughness_creatures)
            } else {
                old(self).zero_toughness_creatures
            }),
            final(self).lethal_damage_creatures == (if kind
                == StateBasedActionKind::CreatureLethalDamage {
                sat_inc(old(self).lethal_damage_creatures)
            } else {
                old(self).lethal_damage_creatures
            }),
            final(self).deathtouch_damage_creatures == (if kind
                == StateBasedActionKind::CreatureDeathtouchDamage {
                sat_inc(old(self).deathtouch_damage_creatures)
            } else {
                old(self).deathtouch_damage_creatures
            }),
            final(self).iterations == old(self).iterations,
            final(self).players_lost == old(self).players_lost,
    {
        self.actions_performed = self.actions_performed.saturating_add(1);
        self.permanents_moved_to_graveyard = self.permanents_moved_to_graveyard.saturating_add(1);
        match kind {
            StateBasedActionKind::CreatureZeroOrLessToughness => {
                self.zero_toughness_creatures = self.zero_toughness_creatures.saturating_add(1);
            },
            StateBasedActionKind::CreatureLethalDamage => {
                self.lethal_damage_creatures = self.lethal_damage_creatures.saturating_add(1);
            },
            StateBasedActionKind::CreatureDeathtouchDamage => {
                self.deathtouch_damage_creatures = self.deathtouch_damage_creatures.saturating_add(1);
            },
            _ => {},
        }
    }
}

/// A counter increased by one, saturating at the top of `u32`.
pub open spec fn sat_inc(v: u32) -> u32 {
    if v < u32::MAX {
        (v + 1) as u32
    } else {
        u32::MAX
    }
}

/// Result of one priority pass.
#[derive(Clone, Copy, Debug, PartialEq, Eq, Structural)]
pub enum PriorityOutcome {
    /// Priority moved to the next player in turn order.
    PassedTo(PlayerId),
    /// All players passed and one stack entry resolved.
    Resolved(StackEntryId),
    /// All players passed with an empty stack, so the step or phase can end.
    StepComplete,
}

impl Default for StateBasedActionReport {
    /// A report of a check that did nothing.
    fn default() -> (r: Self)
        ensures
            r.iterations == 0 && r.actions_performed == 0 && r.players_lost == 0,
            r.permanents_moved_to_graveyard == 0 && r.empty_library_draw_losses == 0,
            r.zero_toughness_creatures == 0 && r.lethal_damage_creatures == 0,
            r.deathtouch_damage_creatures == 0,
    {
        StateBasedActionReport::zero()
    }
}

} // verus!
