//! Typed mutation events, the bounded current-turn event ring, replay
//! cursors, and queued triggered abilities.

use vstd::prelude::*;

use crate::abilities::{
    ActivatedAbilityEffect, ReplacementDuration, ReplacementOperation, ResolutionOutcome,
    StackObjectKind, TriggerDuration,
};
use crate::characteristics::{
    BaseCreatureCharacteristics, ContinuousEffectLayer, ContinuousEffectOperation,
    ContinuousEffectTarget,
};
use crate::combat::{CombatDamageRecord, CombatDamageTarget};
use crate::ids::{
    ActivatedAbilityId, CardId, ContinuousEffectId, CostModifierId, DurationMarkerId, ObjectId,
    PlayerId, ReplacementEffectId, StackEntryId, TriggerId,
};
use crate::abilities::CostModifierOperation;
use crate::mana::{ManaPool, PaymentPlan};
use crate::outcome::{GameOutcome, StateBasedActionKind};
use crate::turn::{CleanupReport, EffectDuration, Step, ZoneId};

verus! {

/// Maximum number of event records retained for the current turn.
pub const EVENT_RING_CAPACITY: usize = 1024;

/// The coarse variant of a [`GameEvent`] used by trigger subscription tables.
#[derive(Clone, Copy, Debug, PartialEq, Eq, Structural, Hash, PartialOrd, Ord)]
pub enum GameEventKind {
    /// The deterministic seed changed.
    SeedSet,
    /// A player and that player's zones were added.
    PlayerAdded,
    /// The starting player was selected.
    TurnOrderDecided,
    /// Opening hands were drawn.
    OpeningHandsDrawn,
    /// A player took a mulligan.
    MulliganTaken,
    /// A player kept an opening hand.
    OpeningHandKept,
    /// One opening-hand card was bottomed.
    OpeningHandCardBottomed,
    /// A player's maximum hand size changed.
    PlayerMaxHandSizeSet,
    /// A player's life total was set directly.
    LifeTotalSet,
    /// A player lost life.
    LifeLost,
    /// A player gained life.
    LifeGained,
    /// Poison counters were added to a player.
    PoisonCountersAdded,
    /// A mana pool changed.
    ManaPoolChanged,
    /// Mana was paid.
    ManaPaid,
    /// An object was created.
    ObjectCreated,
    /// An object moved zones.
    ObjectMoved,
    /// A zone was shuffled.
    ZoneShuffled,
    /// Base creature characteristics were set.
    BaseCreatureCharacteristicsSet,
    /// Base creature characteristics were cleared.
    BaseCreatureCharacteristicsCleared,
    /// An object's tapped status changed.
    ObjectTapped,
    /// Damage was marked on an object.
    DamageMarked,
    /// A turn began.
    TurnStarted,
    /// A step ended.
    StepEnded,
    /// A step began.
    StepBegan,
    /// Priority was passed.
    PriorityPassed,
    /// The priority holder changed.
    PriorityChanged,
    /// A stack entry was added.
    StackEntryAdded,
    /// A stack entry resolved.
    StackEntryResolved,
    /// Attackers were declared.
    AttackersDeclared,
    /// One attacker was declared.
    AttackDeclared,
    /// Blockers were declared.
    BlockersDeclared,
    /// One blocker was declared.
    BlockDeclared,
    /// Combat damage was dealt.
    CombatDamageDealt,
    /// A player lost due to a state-based action.
    PlayerLostByStateBasedAction,
    /// A permanent moved due to a state-based action.
    PermanentMovedByStateBasedAction,
    /// The game outcome changed.
    GameOutcomeChanged,
    /// Cleanup priority was requested.
    CleanupPriorityRequested,
    /// A duration marker was added.
    DurationMarkerAdded,
    /// Duration markers expired.
    DurationMarkersExpired,
    /// Cleanup actions were performed.
    CleanupPerformed,
    /// Mana pools were cleared.
    ManaPoolsCleared,
    /// A player tried to draw from an empty library.
    EmptyLibraryDraw,
    /// A triggered ability definition was registered.
    TriggeredAbilityRegistered,
    /// A triggered ability instance was queued.
    TriggeredAbilityQueued,
    /// A queued triggered ability was put on the stack.
    TriggeredAbilityPutOnStack,
    /// A replacement/prevention effect definition was registered.
    ReplacementEffectRegistered,
    /// A player's deterministic replacement ordering preference changed.
    ReplacementChoiceOrderSet,
    /// A replacement/prevention effect modified an event.
    ReplacementEffectApplied,
    /// A continuous effect definition was registered.
    ContinuousEffectRegistered,
    /// An object's loyalty value changed.
    ObjectLoyaltySet,
    /// An activated ability definition was registered.
    ActivatedAbilityRegistered,
    /// An activation cost modifier was registered.
    CostModifierRegistered,
    /// An activated ability was activated.
    ActivatedAbilityActivated,
    /// An activated ability resolved.
    ActivatedAbilityResolved,
}

impl GameEventKind {
    /// Stable numeric code used by canonical encodings.
    pub open spec fn spec_canonical_code(self) -> u8 {
        match self {
            GameEventKind::SeedSet => 0,
            GameEventKind::PlayerAdded => 1,
            GameEventKind::TurnOrderDecided => 2,
            GameEventKind::OpeningHandsDrawn => 3,
            GameEventKind::MulliganTaken => 4,
            GameEventKind::OpeningHandKept => 5,
            GameEventKind::OpeningHandCardBottomed => 6,
            GameEventKind::PlayerMaxHandSizeSet => 7,
            GameEventKind::LifeTotalSet => 8,
            GameEventKind::LifeLost => 9,
            GameEventKind::LifeGained => 10,
            GameEventKind::PoisonCountersAdded => 11,
            GameEventKind::ManaPoolChanged => 12,
            GameEventKind::ManaPaid => 13,
            GameEventKind::ObjectCreated => 14,
            GameEventKind::ObjectMoved => 15,
            GameEventKind::ZoneShuffled => 16,
            GameEventKind::BaseCreatureCharacteristicsSet => 17,
            GameEventKind::BaseCreatureCharacteristicsCleared => 18,
            GameEventKind::ObjectTapped => 19,
            GameEventKind::DamageMarked => 20,
            GameEventKind::TurnStarted => 21,
            GameEventKind::StepEnded => 22,
            GameEventKind::StepBegan => 23,
            GameEventKind::PriorityPassed => 24,
            GameEventKind::PriorityChanged => 25,
            GameEventKind::StackEntryAdded => 26,
            GameEventKind::StackEntryResolved => 27,
            GameEventKind::AttackersDeclared => 28,
            GameEventKind::AttackDeclared => 29,
            GameEventKind::BlockersDeclared => 30,
            GameEventKind::BlockDeclared => 31,
            GameEventKind::CombatDamageDealt => 32,
            GameEventKind::PlayerLostByStateBasedAction => 33,
            GameEventKind::PermanentMovedByStateBasedAction => 34,
            GameEventKind::GameOutcomeChanged => 35,
            GameEventKind::CleanupPriorityRequested => 36,
            GameEventKind::DurationMarkerAdded => 37,
            GameEventKind::DurationMarkersExpired => 38,
            GameEventKind::CleanupPerformed => 39,
            GameEventKind::ManaPoolsCleared => 40,
            GameEventKind::EmptyLibraryDraw => 41,
            GameEventKind::TriggeredAbilityRegistered => 42,
            GameEventKind::TriggeredAbilityQueued => 43,
            GameEventKind::TriggeredAbilityPutOnStack => 44,
            GameEventKind::ReplacementEffectRegistered => 45,
            GameEventKind::ReplacementChoiceOrderSet => 46,
            GameEventKind::ReplacementEffectApplied => 47,
            GameEventKind::ContinuousEffectRegistered => 48,
            GameEventKind::ObjectLoyaltySet => 49,
            GameEventKind::ActivatedAbilityRegistered => 50,
            GameEventKind::CostModifierRegistered => 51,
            GameEventKind::ActivatedAbilityActivated => 52,
            GameEventKind::ActivatedAbilityResolved => 53,
        }
    }

    /// Returns the stable numeric code used by canonical encodings.
    pub(crate) fn canonical_code(self) -> (r: u8)
        ensures
            r == self.spec_canonical_code(),
    {
        match self {
            GameEventKind::SeedSet => 0,
            GameEventKind::PlayerAdded => 1,
            GameEventKind::TurnOrderDecided => 2,
            GameEventKind::OpeningHandsDrawn => 3,
            GameEventKind::MulliganTaken => 4,
            GameEventKind::OpeningHandKept => 5,
            GameEventKind::OpeningHandCardBottomed => 6,
            GameEventKind::PlayerMaxHandSizeSet => 7,
            GameEventKind::LifeTotalSet => 8,
            GameEventKind::LifeLost => 9,
            GameEventKind::LifeGained => 10,
            GameEventKind::PoisonCountersAdded => 11,
            GameEventKind::ManaPoolChanged => 12,
            GameEventKind::ManaPaid => 13,
            GameEventKind::ObjectCreated => 14,
            GameEventKind::ObjectMoved => 15,
            GameEventKind::ZoneShuffled => 16,
            GameEventKind::BaseCreatureCharacteristicsSet => 17,
            GameEventKind::BaseCreatureCharacteristicsCleared => 18,
            GameEventKind::ObjectTapped => 19,
            GameEventKind::DamageMarked => 20,
            GameEventKind::TurnStarted => 21,
            GameEventKind::StepEnded => 22,
            GameEventKind::StepBegan => 23,
            GameEventKind::PriorityPassed => 24,
            GameEventKind::PriorityChanged => 25,
            GameEventKind::StackEntryAdded => 26,
            GameEventKind::StackEntryResolved => 27,
            GameEventKind::AttackersDeclared => 28,
            GameEventKind::AttackDeclared => 29,
            GameEventKind::BlockersDeclared => 30,
            GameEventKind::BlockDeclared => 31,
            GameEventKind::CombatDamageDealt => 32,
            GameEventKind::PlayerLostByStateBasedAction => 33,
            GameEventKind::PermanentMovedByStateBasedAction => 34,
            GameEventKind::GameOutcomeChanged => 35,
            GameEventKind::CleanupPriorityRequested => 36,
            GameEventKind::DurationMarkerAdded => 37,
            GameEventKind::DurationMarkersExpired => 38,
            GameEventKind::CleanupPerformed => 39,
            GameEventKind::ManaPoolsCleared => 40,
            GameEventKind::EmptyLibraryDraw => 41,
            GameEventKind::TriggeredAbilityRegistered => 42,
            GameEventKind::TriggeredAbilityQueued => 43,
            GameEventKind::TriggeredAbilityPutOnStack => 44,
            GameEventKind::ReplacementEffectRegistered => 45,
            GameEventKind::ReplacementChoiceOrderSet => 46,
            GameEventKind::ReplacementEffectApplied => 47,
            GameEventKind::ContinuousEffectRegistered => 48,
            GameEventKind::ObjectLoyaltySet => 49,
            GameEventKind::ActivatedAbilityRegistered => 50,
            GameEventKind::CostModifierRegistered => 51,
            GameEventKind::ActivatedAbilityActivated => 52,
            GameEventKind::ActivatedAbilityResolved => 53,
        }
    }
}

/// One typed mutation event emitted by the rules kernel.
#[allow(inconsistent_fields)]
#[derive(Clone, Copy, Debug, PartialEq, Eq, Structural, Hash)]
pub enum GameEvent {
    /// The deterministic seed changed.
    SeedSet {
        /// New seed value.
        seed: u64,
    },
    /// A player and that player's zones were added.
    PlayerAdded {
        /// Added player.
        player: PlayerId,
    },
    /// The starting player was selected.
    TurnOrderDecided {
        /// Player selected to start the game.
        starting_player: PlayerId,
    },
    /// Opening hands were drawn for all players.
    OpeningHandsDrawn,
    /// A player took a London mulligan.
    MulliganTaken {
        /// Player taking the mulligan.
        player: PlayerId,
        /// Total mulligans taken by that player after this event.
        mulligans_taken: u32,
    },
    /// A player kept an opening hand.
    OpeningHandKept {
        /// Player keeping the hand.
        player: PlayerId,
    },
    /// One opening-hand card was put on the bottom of its owner's library.
    OpeningHandCardBottomed {
        /// Player bottoming the card.
        player: PlayerId,
        /// Object put on the bottom.
        object: ObjectId,
    },
    /// A player's maximum hand size changed.
    PlayerMaxHandSizeSet {
        /// Player whose hand-size limit changed.
        player: PlayerId,
        /// New maximum hand size.
        max_hand_size: u32,
    },
    /// A player's life total was set directly.
    LifeTotalSet {
        /// Player whose life changed.
        player: PlayerId,
        /// New life total.
        life: i32,
    },
    /// A player lost life.
    LifeLost {
        /// Player losing life.
        player: PlayerId,
        /// Amount of life lost.
        amount: u32,
        /// Resulting life total.
        life: i32,
    },
    /// A player gained life.
    LifeGained {
        /// Player gaining life.
        player: PlayerId,
        /// Amount of life gained.
        amount: u32,
        /// Resulting life total.
        life: i32,
    },
    /// Poison counters were added to a player.
    PoisonCountersAdded {
        /// Player receiving poison counters.
        player: PlayerId,
        /// Number of counters added.
        amount: u32,
        /// Resulting poison-counter total.
        poison: u32,
    },
    /// A player's mana pool changed to a known value.
    ManaPoolChanged {
        /// Player whose pool changed.
        player: PlayerId,
        /// New mana pool.
        mana_pool: ManaPool,
    },
    /// A player paid mana.
    ManaPaid {
        /// Player paying mana.
        player: PlayerId,
        /// Canonical payment plan consumed.
        payment: PaymentPlan,
        /// Resulting mana pool.
        mana_pool: ManaPool,
    },
    /// One object was created in a zone.
    ObjectCreated {
        /// Created object.
        object: ObjectId,
        /// Printed card definition.
        card: CardId,
        /// Object owner.
        owner: PlayerId,
        /// Object controller.
        controller: PlayerId,
        /// Zone that received the object.
        zone: ZoneId,
    },
    /// One object moved between zones.
    ObjectMoved {
        /// Moved object.
        object: ObjectId,
        /// Source zone.
        from: ZoneId,
        /// Destination zone.
        to: ZoneId,
    },
    /// A zone was shuffled.
    ZoneShuffled {
        /// Shuffled zone.
        zone: ZoneId,
    },
    /// Base creature characteristics were set.
    BaseCreatureCharacteristicsSet {
        /// Updated object.
        object: ObjectId,
        /// New base characteristics.
        base: BaseCreatureCharacteristics,
    },
    /// Base creature characteristics were cleared.
    BaseCreatureCharacteristicsCleared {
        /// Updated object.
        object: ObjectId,
    },
    /// An object's tapped status changed.
    ObjectTapped {
        /// Updated object.
        object: ObjectId,
        /// New tapped status.
        tapped: bool,
    },
    /// Damage was marked on an object.
    DamageMarked {
        /// Damaged object.
        object: ObjectId,
        /// Newly marked damage.
        amount: u32,
        /// Total marked damage after this event.
        total_damage: u32,
    },
    /// A turn began.
    TurnStarted {
        /// New turn number.
        turn: u32,
        /// Active player for the turn.
        active_player: PlayerId,
    },
    /// A step ended.
    StepEnded {
        /// Step that ended.
        step: Step,
    },
    /// A step began.
    StepBegan {
        /// Step that began.
        step: Step,
    },
    /// Priority passed from one player.
    PriorityPassed {
        /// Player who passed.
        player: PlayerId,
    },
    /// The priority holder changed.
    PriorityChanged {
        /// New priority holder, or none when no player has priority.
        player: Option<PlayerId>,
    },
    /// A stack entry was added.
    StackEntryAdded {
        /// Added stack entry.
        entry: StackEntryId,
        /// Controller of the stack entry.
        controller: PlayerId,
        /// Spell object, if this entry has one.
        object: Option<ObjectId>,
        /// Stack-entry kind.
        kind: StackObjectKind,
    },
    /// A stack entry resolved or was countered on resolution.
    StackEntryResolved {
        /// Resolved stack entry.
        entry: StackEntryId,
        /// Resolution result.
        outcome: ResolutionOutcome,
    },
    /// Attackers were declared.
    AttackersDeclared {
        /// Attacking player.
        player: PlayerId,
        /// Number of declared attackers.
        count: u32,
    },
    /// One attacker was declared.
    AttackDeclared {
        /// Attacking object.
        attacker: ObjectId,
        /// Player being attacked.
        defending_player: PlayerId,
    },
    /// Blockers were declared.
    BlockersDeclared {
        /// Defending player.
        defending_player: PlayerId,
        /// Number of declared blockers.
        count: u32,
    },
    /// One blocker was declared.
    BlockDeclared {
        /// Blocking object.
        blocker: ObjectId,
        /// Attacking object being blocked.
        attacker: ObjectId,
    },
    /// Combat damage was dealt.
    CombatDamageDealt {
        /// Combat damage record.
        record: CombatDamageRecord,
    },
    /// A player lost due to a state-based action.
    PlayerLostByStateBasedAction {
        /// Player who lost.
        player: PlayerId,
        /// State-based-action reason.
        kind: StateBasedActionKind,
    },
    /// A permanent moved to a graveyard due to a state-based action.
    PermanentMovedByStateBasedAction {
        /// Object moved.
        object: ObjectId,
        /// State-based-action reason.
        kind: StateBasedActionKind,
    },
    /// The game outcome changed.
    GameOutcomeChanged {
        /// New outcome.
        outcome: GameOutcome,
    },
    /// Cleanup priority was requested.
    CleanupPriorityRequested,
    /// A duration marker was added.
    DurationMarkerAdded {
        /// Added marker.
        marker: DurationMarkerId,
        /// Marker duration.
        duration: EffectDuration,
    },
    /// Duration markers expired.
    DurationMarkersExpired {
        /// Expired duration kind.
        duration: EffectDuration,
        /// Number of markers expired.
        count: u32,
    },
    /// Cleanup actions were performed.
    CleanupPerformed {
        /// Cleanup summary.
        report: CleanupReport,
    },
    /// All mana pools were cleared.
    ManaPoolsCleared,
    /// A player tried to draw from an empty library.
    EmptyLibraryDraw {
        /// Player who tried to draw.
        player: PlayerId,
    },
    /// A triggered ability definition was registered.
    TriggeredAbilityRegistered {
        /// Registered trigger.
        trigger: TriggerId,
        /// Trigger controller.
        controller: PlayerId,
        /// Optional trigger source object.
        source: Option<ObjectId>,
        /// Subscribed event kind.
        event_kind: GameEventKind,
        /// Whether this is a delayed-once trigger.
        duration: TriggerDuration,
    },
    /// A triggered ability was queued by a matching event.
    TriggeredAbilityQueued {
        /// Queued trigger.
        trigger: TriggerId,
        /// Trigger controller.
        controller: PlayerId,
        /// Sequence number of the event that caused the trigger.
        event_sequence: u64,
    },
    /// A queued triggered ability was put onto the stack.
    TriggeredAbilityPutOnStack {
        /// Queued trigger.
        trigger: TriggerId,
        /// New stack entry.
        entry: StackEntryId,
        /// Trigger controller.
        controller: PlayerId,
    },
    /// A replacement/prevention effect definition was registered.
    ReplacementEffectRegistered {
        /// Registered replacement/prevention effect.
        replacement: ReplacementEffectId,
        /// Effect controller.
        controller: PlayerId,
        /// Optional effect source object.
        source: Option<ObjectId>,
        /// Effect operation.
        operation: ReplacementOperation,
        /// Effect duration.
        duration: ReplacementDuration,
        /// Whether this is a self-replacement effect.
        self_replacement: bool,
    },
    /// A player's deterministic replacement ordering preference changed.
    ReplacementChoiceOrderSet {
        /// Player making replacement ordering choices.
        chooser: PlayerId,
        /// Number of ordered effect IDs stored.
        count: u32,
    },
    /// A replacement/prevention effect modified a damage event.
    ReplacementEffectApplied {
        /// Effect that applied.
        replacement: ReplacementEffectId,
        /// Player whose affected-object choice selected this effect.
        chooser: PlayerId,
        /// Damage source, if known.
        source: Option<ObjectId>,
        /// Damage target.
        target: CombatDamageTarget,
        /// Effect operation.
        operation: ReplacementOperation,
        /// Damage amount before applying this effect.
        original_amount: u32,
        /// Damage amount after applying this effect.
        resulting_amount: u32,
    },
    /// A continuous effect definition was registered.
    ContinuousEffectRegistered {
        /// Registered continuous effect.
        effect: ContinuousEffectId,
        /// Effect controller.
        controller: PlayerId,
        /// Optional effect source object.
        source: Option<ObjectId>,
        /// Target filter.
        target: ContinuousEffectTarget,
        /// Effect operation.
        operation: ContinuousEffectOperation,
        /// Layer the operation applies in.
        layer: ContinuousEffectLayer,
        /// Effect timestamp.
        timestamp: u64,
    },
    /// An object's loyalty value changed.
    ObjectLoyaltySet {
        /// Updated object.
        object: ObjectId,
        /// New loyalty value, or none if loyalty tracking was cleared.
        loyalty: Option<i32>,
    },
    /// An activated ability definition was registered.
    ActivatedAbilityRegistered {
        /// Registered activated ability.
        ability: ActivatedAbilityId,
        /// Registered controller fallback.
        controller: PlayerId,
        /// Optional source object.
        source: Option<ObjectId>,
        /// Whether this ability resolves without using the stack.
        mana_ability: bool,
    },
    /// An activated ability cost modifier was registered.
    CostModifierRegistered {
        /// Registered modifier.
        modifier: CostModifierId,
        /// Modifier controller.
        controller: PlayerId,
        /// Optional source object.
        source: Option<ObjectId>,
        /// Modifier operation.
        operation: CostModifierOperation,
    },
    /// An activated ability was activated.
    ActivatedAbilityActivated {
        /// Activated ability.
        ability: ActivatedAbilityId,
        /// Activating player.
        player: PlayerId,
        /// Optional source object.
        source: Option<ObjectId>,
        /// Whether this ability resolved without using the stack.
        mana_ability: bool,
    },
    /// An activated ability resolved.
    ActivatedAbilityResolved {
        /// Resolved ability.
        ability: ActivatedAbilityId,
        /// Controller at activation or resolution.
        player: PlayerId,
        /// Optional source object.
        source: Option<ObjectId>,
        /// Resolved effect.
        effect: ActivatedAbilityEffect,
    },
}

impl GameEvent {
    /// Stable numeric code used by canonical encodings.
    pub open spec fn spec_canonical_code(self) -> u8 {
        match self {
            GameEvent::SeedSet { .. } => 0,
            GameEvent::PlayerAdded { .. } => 1,
            GameEvent::TurnOrderDecided { .. } => 2,
            GameEvent::OpeningHandsDrawn => 3,
            GameEvent::MulliganTaken { .. } => 4,
            GameEvent::OpeningHandKept { .. } => 5,
            GameEvent::OpeningHandCardBottomed { .. } => 6,
            GameEvent::PlayerMaxHandSizeSet { .. } => 7,
            GameEvent::LifeTotalSet { .. } => 8,
            GameEvent::LifeLost { .. } => 9,
            GameEvent::LifeGained { .. } => 10,
            GameEvent::PoisonCountersAdded { .. } => 11,
            GameEvent::ManaPoolChanged { .. } => 12,
            GameEvent::ManaPaid { .. } => 13,
            GameEvent::ObjectCreated { .. } => 14,
            GameEvent::ObjectMoved { .. } => 15,
            GameEvent::ZoneShuffled { .. } => 16,
            GameEvent::BaseCreatureCharacteristicsSet { .. } => 17,
            GameEvent::BaseCreatureCharacteristicsCleared { .. } => 18,
            GameEvent::ObjectTapped { .. } => 19,
            GameEvent::DamageMarked { .. } => 20,
            GameEvent::TurnStarted { .. } => 21,
            GameEvent::StepEnded { .. } => 22,
            GameEvent::StepBegan { .. } => 23,
            GameEvent::PriorityPassed { .. } => 24,
            GameEvent::PriorityChanged { .. } => 25,
            GameEvent::StackEntryAdded { .. } => 26,
            GameEvent::StackEntryResolved { .. } => 27,
            GameEvent::AttackersDeclared { .. } => 28,
            GameEvent::AttackDeclared { .. } => 29,
            GameEvent::BlockersDeclared { .. } => 30,
            GameEvent::BlockDeclared { .. } => 31,
            GameEvent::CombatDamageDealt { .. } => 32,
            GameEvent::PlayerLostByStateBasedAction { .. } => 33,
            GameEvent::PermanentMovedByStateBasedAction { .. } => 34,
            GameEvent::GameOutcomeChanged { .. } => 35,
            GameEvent::CleanupPriorityRequested => 36,
            GameEvent::DurationMarkerAdded { .. } => 37,
            GameEvent::DurationMarkersExpired { .. } => 38,
            GameEvent::CleanupPerformed { .. } => 39,
            GameEvent::ManaPoolsCleared => 40,
            GameEvent::EmptyLibraryDraw { .. } => 41,
            GameEvent::TriggeredAbilityRegistered { .. } => 42,
            GameEvent::TriggeredAbilityQueued { .. } => 43,
            GameEvent::TriggeredAbilityPutOnStack { .. } => 44,
            GameEvent::ReplacementEffectRegistered { .. } => 45,
            GameEvent::ReplacementChoiceOrderSet { .. } => 46,
            GameEvent::ReplacementEffectApplied { .. } => 47,
            GameEvent::ContinuousEffectRegistered { .. } => 48,
            GameEvent::ObjectLoyaltySet { .. } => 49,
            GameEvent::ActivatedAbilityRegistered { .. } => 50,
            GameEvent::CostModifierRegistered { .. } => 51,
            GameEvent::ActivatedAbilityActivated { .. } => 52,
            GameEvent::ActivatedAbilityResolved { .. } => 53,
        }
    }

    /// Returns the stable numeric code used by canonical encodings.
    pub(crate) fn canonical_code(self) -> (r: u8)
        ensures
            r == self.spec_canonical_code(),
    {
        match self {
            GameEvent::SeedSet { .. } => 0,
            GameEvent::PlayerAdded { .. } => 1,
            GameEvent::TurnOrderDecided { .. } => 2,
            GameEvent::OpeningHandsDrawn => 3,
            GameEvent::MulliganTaken { .. } => 4,
            GameEvent::OpeningHandKept { .. } => 5,
            GameEvent::OpeningHandCardBottomed { .. } => 6,
            GameEvent::PlayerMaxHandSizeSet { .. } => 7,
            GameEvent::LifeTotalSet { .. } => 8,
            GameEvent::LifeLost { .. } => 9,
            GameEvent::LifeGained { .. } => 10,
            GameEvent::PoisonCountersAdded { .. } => 11,
            GameEvent::ManaPoolChanged { .. } => 12,
            GameEvent::ManaPaid { .. } => 13,
            GameEvent::ObjectCreated { .. } => 14,
            GameEvent::ObjectMoved { .. } => 15,
            GameEvent::ZoneShuffled { .. } => 16,
            GameEvent::BaseCreatureCharacteristicsSet { .. } => 17,
            GameEvent::BaseCreatureCharacteristicsCleared { .. } => 18,
            GameEvent::ObjectTapped { .. } => 19,
            GameEvent::DamageMarked { .. } => 20,
            GameEvent::TurnStarted { .. } => 21,
            GameEvent::StepEnded { .. } => 22,
            GameEvent::StepBegan { .. } => 23,
            GameEvent::PriorityPassed { .. } => 24,
            GameEvent::PriorityChanged { .. } => 25,
            GameEvent::StackEntryAdded { .. } => 26,
            GameEvent::StackEntryResolved { .. } => 27,
            GameEvent::AttackersDeclared { .. } => 28,
            GameEvent::AttackDeclared { .. } => 29,
            GameEvent::BlockersDeclared { .. } => 30,
            GameEvent::BlockDeclared { .. } => 31,
            GameEvent::CombatDamageDealt { .. } => 32,
            GameEvent::PlayerLostByStateBasedAction { .. } => 33,
            GameEvent::PermanentMovedByStateBasedAction { .. } => 34,
            GameEvent::GameOutcomeChanged { .. } => 35,
            GameEvent::CleanupPriorityRequested => 36,
            GameEvent::DurationMarkerAdded { .. } => 37,
            GameEvent::DurationMarkersExpired { .. } => 38,
            GameEvent::CleanupPerformed { .. } => 39,
            GameEvent::ManaPoolsCleared => 40,
            GameEvent::EmptyLibraryDraw { .. } => 41,
            GameEvent::TriggeredAbilityRegistered { .. } => 42,
            GameEvent::TriggeredAbilityQueued { .. } => 43,
            GameEvent::TriggeredAbilityPutOnStack { .. } => 44,
            GameEvent::ReplacementEffectRegistered { .. } => 45,
            GameEvent::ReplacementChoiceOrderSet { .. } => 46,
            GameEvent::ReplacementEffectApplied { .. } => 47,
            GameEvent::ContinuousEffectRegistered { .. } => 48,
            GameEvent::ObjectLoyaltySet { .. } => 49,
            GameEvent::ActivatedAbilityRegistered { .. } => 50,
            GameEvent::CostModifierRegistered { .. } => 51,
            GameEvent::ActivatedAbilityActivated { .. } => 52,
            GameEvent::ActivatedAbilityResolved { .. } => 53,
        }
    }

    /// The coarse kind of an event.
    pub open spec fn spec_kind(self) -> GameEventKind {
        match self {
            GameEvent::SeedSet { .. } => GameEventKind::SeedSet,
            GameEvent::PlayerAdded { .. } => GameEventKind::PlayerAdded,
            GameEvent::TurnOrderDecided { .. } => GameEventKind::TurnOrderDecided,
            GameEvent::OpeningHandsDrawn => GameEventKind::OpeningHandsDrawn,
            GameEvent::MulliganTaken { .. } => GameEventKind::MulliganTaken,
            GameEvent::OpeningHandKept { .. } => GameEventKind::OpeningHandKept,
            GameEvent::OpeningHandCardBottomed { .. } => GameEventKind::OpeningHandCardBottomed,
            GameEvent::PlayerMaxHandSizeSet { .. } => GameEventKind::PlayerMaxHandSizeSet,
            GameEvent::LifeTotalSet { .. } => GameEventKind::LifeTotalSet,
            GameEvent::LifeLost { .. } => GameEventKind::LifeLost,
            GameEvent::LifeGained { .. } => GameEventKind::LifeGained,
            GameEvent::PoisonCountersAdded { .. } => GameEventKind::PoisonCountersAdded,
            GameEvent::ManaPoolChanged { .. } => GameEventKind::ManaPoolChanged,
            GameEvent::ManaPaid { .. } => GameEventKind::ManaPaid,
            GameEvent::ObjectCreated { .. } => GameEventKind::ObjectCreated,
            GameEvent::ObjectMoved { .. } => GameEventKind::ObjectMoved,
            GameEvent::ZoneShuffled { .. } => GameEventKind::ZoneShuffled,
            GameEvent::BaseCreatureCharacteristicsSet { .. } => GameEventKind::BaseCreatureCharacteristicsSet,
            GameEvent::BaseCreatureCharacteristicsCleared { .. } => GameEventKind::BaseCreatureCharacteristicsCleared,
            GameEvent::ObjectTapped { .. } => GameEventKind::ObjectTapped,
            GameEvent::DamageMarked { .. } => GameEventKind::DamageMarked,
            GameEvent::TurnStarted { .. } => GameEventKind::TurnStarted,
            GameEvent::StepEnded { .. } => GameEventKind::StepEnded,
            GameEvent::StepBegan { .. } => GameEventKind::StepBegan,
            GameEvent::PriorityPassed { .. } => GameEventKind::PriorityPassed,
            GameEvent::PriorityChanged { .. } => GameEventKind::PriorityChanged,
            GameEvent::StackEntryAdded { .. } => GameEventKind::StackEntryAdded,
            GameEvent::StackEntryResolved { .. } => GameEventKind::StackEntryResolved,
            GameEvent::AttackersDeclared { .. } => GameEventKind::AttackersDeclared,
            GameEvent::AttackDeclared { .. } => GameEventKind::AttackDeclared,
            GameEvent::BlockersDeclared { .. } => GameEventKind::BlockersDeclared,
            GameEvent::BlockDeclared { .. } => GameEventKind::BlockDeclared,
            GameEvent::CombatDamageDealt { .. } => GameEventKind::CombatDamageDealt,
            GameEvent::PlayerLostByStateBasedAction { .. } => GameEventKind::PlayerLostByStateBasedAction,
            GameEvent::PermanentMovedByStateBasedAction { .. } => GameEventKind::PermanentMovedByStateBasedAction,
            GameEvent::GameOutcomeChanged { .. } => GameEventKind::GameOutcomeChanged,
            GameEvent::CleanupPriorityRequested => GameEventKind::CleanupPriorityRequested,
            GameEvent::DurationMarkerAdded { .. } => GameEventKind::DurationMarkerAdded,
            GameEvent::DurationMarkersExpired { .. } => GameEventKind::DurationMarkersExpired,
            GameEvent::CleanupPerformed { .. } => GameEventKind::CleanupPerformed,
            GameEvent::ManaPoolsCleared => GameEventKind::ManaPoolsCleared,
            GameEvent::EmptyLibraryDraw { .. } => GameEventKind::EmptyLibraryDraw,
            GameEvent::TriggeredAbilityRegistered { .. } => GameEventKind::TriggeredAbilityRegistered,
            GameEvent::TriggeredAbilityQueued { .. } => GameEventKind::TriggeredAbilityQueued,
            GameEvent::TriggeredAbilityPutOnStack { .. } => GameEventKind::TriggeredAbilityPutOnStack,
            GameEvent::ReplacementEffectRegistered { .. } => GameEventKind::ReplacementEffectRegistered,
            GameEvent::ReplacementChoiceOrderSet { .. } => GameEventKind::ReplacementChoiceOrderSet,
            GameEvent::ReplacementEffectApplied { .. } => GameEventKind::ReplacementEffectApplied,
            GameEvent::ContinuousEffectRegistered { .. } => GameEventKind::ContinuousEffectRegistered,
            GameEvent::ObjectLoyaltySet { .. } => GameEventKind::ObjectLoyaltySet,
            GameEvent::ActivatedAbilityRegistered { .. } => GameEventKind::ActivatedAbilityRegistered,
            GameEvent::CostModifierRegistered { .. } => GameEventKind::CostModifierRegistered,
            GameEvent::ActivatedAbilityActivated { .. } => GameEventKind::ActivatedAbilityActivated,
            GameEvent::ActivatedAbilityResolved { .. } => GameEventKind::ActivatedAbilityResolved,
        }
    }

    /// Returns the coarse event kind used by trigger subscription tables.
    pub fn kind(self) -> (r: GameEventKind)
        ensures
            r == self.spec_kind(),
    {
        match self {
            GameEvent::SeedSet { .. } => GameEventKind::SeedSet,
            GameEvent::PlayerAdded { .. } => GameEventKind::PlayerAdded,
            GameEvent::TurnOrderDecided { .. } => GameEventKind::TurnOrderDecided,
            GameEvent::OpeningHandsDrawn => GameEventKind::OpeningHandsDrawn,
            GameEvent::MulliganTaken { .. } => GameEventKind::MulliganTaken,
            GameEvent::OpeningHandKept { .. } => GameEventKind::OpeningHandKept,
            GameEvent::OpeningHandCardBottomed { .. } => GameEventKind::OpeningHandCardBottomed,
            GameEvent::PlayerMaxHandSizeSet { .. } => GameEventKind::PlayerMaxHandSizeSet,
            GameEvent::LifeTotalSet { .. } => GameEventKind::LifeTotalSet,
            GameEvent::LifeLost { .. } => GameEventKind::LifeLost,
            GameEvent::LifeGained { .. } => GameEventKind::LifeGained,
            GameEvent::PoisonCountersAdded { .. } => GameEventKind::PoisonCountersAdded,
            GameEvent::ManaPoolChanged { .. } => GameEventKind::ManaPoolChanged,
            GameEvent::ManaPaid { .. } => GameEventKind::ManaPaid,
            GameEvent::ObjectCreated { .. } => GameEventKind::ObjectCreated,
            GameEvent::ObjectMoved { .. } => GameEventKind::ObjectMoved,
            GameEvent::ZoneShuffled { .. } => GameEventKind::ZoneShuffled,
            GameEvent::BaseCreatureCharacteristicsSet { .. } => GameEventKind::BaseCreatureCharacteristicsSet,
            GameEvent::BaseCreatureCharacteristicsCleared { .. } => GameEventKind::BaseCreatureCharacteristicsCleared,
            GameEvent::ObjectTapped { .. } => GameEventKind::ObjectTapped,
            GameEvent::DamageMarked { .. } => GameEventKind::DamageMarked,
            GameEvent::TurnStarted { .. } => GameEventKind::TurnStarted,
            GameEvent::StepEnded { .. } => GameEventKind::StepEnded,
            GameEvent::StepBegan { .. } => GameEventKind::StepBegan,
            GameEvent::PriorityPassed { .. } => GameEventKind::PriorityPassed,
            GameEvent::PriorityChanged { .. } => GameEventKind::PriorityChanged,
            GameEvent::StackEntryAdded { .. } => GameEventKind::StackEntryAdded,
            GameEvent::StackEntryResolved { .. } => GameEventKind::StackEntryResolved,
            GameEvent::AttackersDeclared { .. } => GameEventKind::AttackersDeclared,
            GameEvent::AttackDeclared { .. } => GameEventKind::AttackDeclared,
            GameEvent::BlockersDeclared { .. } => GameEventKind::BlockersDeclared,
            GameEvent::BlockDeclared { .. } => GameEventKind::BlockDeclared,
            GameEvent::CombatDamageDealt { .. } => GameEventKind::CombatDamageDealt,
            GameEvent::PlayerLostByStateBasedAction { .. } => GameEventKind::PlayerLostByStateBasedAction,
            GameEvent::PermanentMovedByStateBasedAction { .. } => GameEventKind::PermanentMovedByStateBasedAction,
            GameEvent::GameOutcomeChanged { .. } => GameEventKind::GameOutcomeChanged,
            GameEvent::CleanupPriorityRequested => GameEventKind::CleanupPriorityRequested,
            GameEvent::DurationMarkerAdded { .. } => GameEventKind::DurationMarkerAdded,
            GameEvent::DurationMarkersExpired { .. } => GameEventKind::DurationMarkersExpired,
            GameEvent::CleanupPerformed { .. } => GameEventKind::CleanupPerformed,
            GameEvent::ManaPoolsCleared => GameEventKind::ManaPoolsCleared,
            GameEvent::EmptyLibraryDraw { .. } => GameEventKind::EmptyLibraryDraw,
            GameEvent::TriggeredAbilityRegistered { .. } => GameEventKind::TriggeredAbilityRegistered,
            GameEvent::TriggeredAbilityQueued { .. } => GameEventKind::TriggeredAbilityQueued,
            GameEvent::TriggeredAbilityPutOnStack { .. } => GameEventKind::TriggeredAbilityPutOnStack,
            GameEvent::ReplacementEffectRegistered { .. } => GameEventKind::ReplacementEffectRegistered,
            GameEvent::ReplacementChoiceOrderSet { .. } => GameEventKind::ReplacementChoiceOrderSet,
            GameEvent::ReplacementEffectApplied { .. } => GameEventKind::ReplacementEffectApplied,
            GameEvent::ContinuousEffectRegistered { .. } => GameEventKind::ContinuousEffectRegistered,
            GameEvent::ObjectLoyaltySet { .. } => GameEventKind::ObjectLoyaltySet,
            GameEvent::ActivatedAbilityRegistered { .. } => GameEventKind::ActivatedAbilityRegistered,
            GameEvent::CostModifierRegistered { .. } => GameEventKind::CostModifierRegistered,
            GameEvent::ActivatedAbilityActivated { .. } => GameEventKind::ActivatedAbilityActivated,
            GameEvent::ActivatedAbilityResolved { .. } => GameEventKind::ActivatedAbilityResolved,
        }
    }
}

/// One sequenced event in the current turn's event buffer.
#[derive(Clone, Copy, Debug, PartialEq, Eq, Structural, Hash)]
pub struct EventRecord {
    pub sequence: u64,
    pub turn: u32,
    pub event: GameEvent,
}

impl EventRecord {
    /// Returns the monotonic sequence number for this event.
    pub fn sequence(self) -> (r: u64)
        ensures
            r == self.sequence,
    {
        self.sequence
    }
    /// Returns the turn number associated with this event.
    pub fn turn(self) -> (r: u32)
        ensures
            r == self.turn,
    {
        self.turn
    }
    /// Returns the typed event payload.
    pub fn event(self) -> (r: GameEvent)
        ensures
            r == self.event,
    {
        self.event
    }
}

/// A replay cursor into the current-turn event ring.
#[derive(Clone, Copy, Debug, PartialEq, Eq, Structural, Hash)]
pub struct EventCursor {
    pub turn: u32,
    pub next_sequence: u64,
}

impl EventCursor {
    /// Returns the turn this cursor belongs to.
    pub fn turn(self) -> (r: u32)
        ensures
            r == self.turn,
    {
        self.turn
    }
    /// Returns the first event sequence not yet consumed by this cursor.
    pub fn next_sequence(self) -> (r: u64)
        ensures
            r == self.next_sequence,
    {
        self.next_sequence
    }
}

/// Error returned when replaying from an event cursor.
#[derive(Clone, Copy, Debug, PartialEq, Eq, Structural, Hash)]
pub enum EventReplayError {
    /// The cursor was created for a different turn.
    CursorTurnMismatch {
        /// Cursor turn.
        cursor_turn: u32,
        /// Current game turn.
        current_turn: u32,
    },
    /// The cursor points before the oldest retained event.
    CursorTooOld {
        /// Requested sequence.
        requested: u64,
        /// Oldest retained sequence.
        oldest_retained: u64,
    },
    /// The cursor points after the next event sequence.
    CursorInFuture {
        /// Requested sequence.
        requested: u64,
        /// Next sequence that will be assigned.
        next_sequence: u64,
    },
}

/// One queued triggered ability waiting to be put on the stack.
#[derive(Clone, Copy, Debug, PartialEq, Eq, Structural, Hash)]
pub struct PendingTriggeredAbility {
    pub trigger: TriggerId,
    pub controller: PlayerId,
    pub source: Option<ObjectId>,
    pub event_sequence: u64,
    pub event_turn: u32,
}

impl PendingTriggeredAbility {
    /// Returns the registered trigger definition.
    pub fn trigger(self) -> (r: TriggerId)
        ensures
            r == self.trigger,
    {
        self.trigger
    }
    /// Returns the ability controller.
    pub fn controller(self) -> (r: PlayerId)
        ensures
            r == self.controller,
    {
        self.controller
    }
    /// Returns the source object, if this trigger has one.
    pub fn source(self) -> (r: Option<ObjectId>)
        ensures
            r == self.source,
    {
        self.source
    }
    /// Returns the sequence number of the event that queued this trigger.
    pub fn event_sequence(self) -> (r: u64)
        ensures
            r == self.event_sequence,
    {
        self.event_sequence
    }
    /// Returns the turn number of the event that queued this trigger.
    pub fn event_turn(self) -> (r: u32)
        ensures
            r == self.event_turn,
    {
        self.event_turn
    }
}

} // verus!
