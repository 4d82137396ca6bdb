//! The complete game state: player scalars, the object arena, ordered
//! zones, the current-turn event ring, and the basic mutators that the rest
//! of the rules engine builds on.

use vstd::prelude::*;

use crate::abilities::{
    ActivatedAbilityDefinition, CostModifierDefinition, ReplacementChoiceOrder,
    ReplacementDefinition, StackEntry, ResolutionRecord, TargetChoice, TriggerDefinition,
};
use crate::characteristics::{BaseCreatureCharacteristics, ContinuousEffectDefinition};
use crate::combat::{CombatDamageTarget, CombatState};
use crate::events::{
    EventCursor, EventRecord, EventReplayError, GameEvent, GameEventKind, PendingTriggeredAbility,
    EVENT_RING_CAPACITY,
};
use crate::ids::{
    ActivatedAbilityId, CardId, ContinuousEffectId, CostModifierId, ObjectId, PlayerId,
    ReplacementEffectId, TriggerId,
};
use crate::mana::{
    enumerate_payment_plans, validate_payment_plan, ManaCost, ManaPool, PaymentEnumeration,
    PaymentError, PaymentPlan,
};
use crate::outcome::{GameOutcome, StateBasedActionKind};
use crate::plumbing::{events_bounded, zones_conserved};
use crate::sba::{ids_match_positions, owners_have_graveyards};
use crate::turn::{CleanupReport, DurationMarker, Phase, Step, ZoneId, ZoneKind};

verus! {

/// Scalar state for one player.
#[derive(Clone, Copy, Debug, PartialEq, Eq, Structural)]
pub struct PlayerState {
    pub id: PlayerId,
    pub life: i32,
    pub poison: u32,
    pub lost: bool,
    pub max_hand_size: u32,
    pub mulligans_taken: u32,
    pub opening_hand_kept: bool,
    pub mana_pool: ManaPool,
}

impl PlayerState {
    /// Creates a player state with the default constructed-game scalars.
    pub fn new(id: PlayerId) -> (r: Self)
        ensures
            r.id == id && r.life == 20 && r.poison == 0 && !r.lost && r.max_hand_size == 7,
            r.mulligans_taken == 0 && !r.opening_hand_kept && r.mana_pool == ManaPool::zero(),
    {
        PlayerState {
            id,
            life: 20,
            poison: 0,
            lost: false,
            max_hand_size: 7,
            mulligans_taken: 0,
            opening_hand_kept: false,
            mana_pool: ManaPool::empty(),
        }
    }

    /// Returns the player's stable ID.
    pub fn id(self) -> (r: PlayerId)
        ensures
            r == self.id,
    {
        self.id
    }
    /// Returns the player's current life total.
    pub fn life(self) -> (r: i32)
        ensures
            r == self.life,
    {
        self.life
    }
    /// Returns the player's poison-counter total.
    pub fn poison(self) -> (r: u32)
        ensures
            r == self.poison,
    {
        self.poison
    }
    /// Returns whether this player has lost the game.
    pub fn lost(self) -> (r: bool)
        ensures
            r == self.lost,
    {
        self.lost
    }
    /// Returns the player's current maximum hand size.
    pub fn max_hand_size(self) -> (r: u32)
        ensures
            r == self.max_hand_size,
    {
        self.max_hand_size
    }
    /// Returns how many London mulligans this player has taken.
    pub fn mulligans_taken(self) -> (r: u32)
        ensures
            r == self.mulligans_taken,
    {
        self.mulligans_taken
    }
    /// Returns whether this player has kept their current opening hand.
    pub fn opening_hand_kept(self) -> (r: bool)
        ensures
            r == self.opening_hand_kept,
    {
        self.opening_hand_kept
    }
    /// Returns the player's current mana pool.
    pub fn mana_pool(self) -> (r: ManaPool)
        ensures
            r == self.mana_pool,
    {
        self.mana_pool
    }
}

/// Arena record for one game object.
#[derive(Clone, Copy, Debug, PartialEq, Eq, Structural)]
pub struct ObjectRecord {
    pub id: ObjectId,
    pub card: CardId,
    pub owner: PlayerId,
    pub controller: PlayerId,
    pub tapped: bool,
    pub base_creature: Option<BaseCreatureCharacteristics>,
    pub damage_marked: u32,
    pub deathtouch_damage_marked: bool,
    pub loyalty: Option<i32>,
    pub controlled_since_turn: u32,
}

impl ObjectRecord {
    /// Returns the stable object ID.
    pub fn id(self) -> (r: ObjectId)
        ensures
            r == self.id,
    {
        self.id
    }
    /// Returns the printed card-definition ID.
    pub fn card(self) -> (r: CardId)
        ensures
            r == self.card,
    {
        self.card
    }
    /// Returns the object's owner.
    pub fn owner(self) -> (r: PlayerId)
        ensures
            r == self.owner,
    {
        self.owner
    }
    /// Returns the object's controller.
    pub fn controller(self) -> (r: PlayerId)
        ensures
            r == self.controller,
    {
        self.controller
    }
    /// Returns true if this object is tapped.
    pub fn tapped(self) -> (r: bool)
        ensures
            r == self.tapped,
    {
        self.tapped
    }
    /// Returns base printed creature characteristics, if this object is a creature.
    pub fn base_creature(self) -> (r: Option<BaseCreatureCharacteristics>)
        ensures
            r == self.base_creature,
    {
        self.base_creature
    }
    /// Returns damage currently marked on this object.
    pub fn damage_marked(self) -> (r: u32)
        ensures
            r == self.damage_marked,
    {
        self.damage_marked
    }
    /// Returns whether this object has deathtouch damage pending a state-based-action check.
    pub fn deathtouch_damage_marked(self) -> (r: bool)
        ensures
            r == self.deathtouch_damage_marked,
    {
        self.deathtouch_damage_marked
    }
    /// Returns the object's loyalty value, if this record is tracking one.
    pub fn loyalty(self) -> (r: Option<i32>)
        ensures
            r == self.loyalty,
    {
        self.loyalty
    }
    /// Returns the turn number since which this controller has controlled it.
    pub fn controlled_since_turn(self) -> (r: u32)
        ensures
            r == self.controlled_since_turn,
    {
        self.controlled_since_turn
    }
}

/// Arena storage for game objects; an object's ID is its position.
#[derive(Clone, Debug, PartialEq, Eq)]
pub struct ObjectArena {
    pub records: Vec<ObjectRecord>,
}

impl ObjectArena {
    /// Creates an empty arena.
    pub fn new() -> (r: Self)
        ensures
            r.records@.len() == 0,
    {
        ObjectArena { records: Vec::new() }
    }

    /// Returns the number of live object records.
    pub fn len(&self) -> (r: usize)
        ensures
            r == self.records@.len(),
    {
        self.records.len()
    }

    /// Returns true when there are no object records.
    pub fn is_empty(&self) -> (r: bool)
        ensures
            r == (self.records@.len() == 0),
    {
        self.records.len() == 0
    }

    /// The record of `id`, if the arena holds one.
    pub open spec fn spec_get(&self, id: ObjectId) -> Option<ObjectRecord> {
        if id.0 < self.records@.len() {
            Some(self.records@[id.0 as int])
        } else {
            None
        }
    }

    /// Returns an object record by ID.
    pub fn get(&self, id: ObjectId) -> (r: Option<ObjectRecord>)
        ensures
            r == self.spec_get(id),
    {
        let i = id.index();
        if i < self.records.len() {
            Some(self.records[i])
        } else {
            None
        }
    }

    /// Returns object records in canonical arena order.
    pub fn iter(&self) -> (r: &[ObjectRecord])
        ensures
            r@ == self.records@,
    {
        self.records.as_slice()
    }

    /// Appends a fresh untapped, undamaged record and returns its ID.
    pub(crate) fn push(
        &mut self,
        card: CardId,
        owner: PlayerId,
        controller: PlayerId,
        controlled_since_turn: u32,
    ) -> (id: ObjectId)
        ensures
            id.0 == old(self).records@.len() as u32,
            final(self).records@ == old(self).records@.push(
                ObjectRecord {
                    id,
                    card,
                    owner,
                    controller,
                    tapped: false,
                    base_creature: None,
                    damage_marked: 0,
                    deathtouch_damage_marked: false,
                    loyalty: None,
                    controlled_since_turn,
                },
            ),
    {
        let id = ObjectId(self.records.len() as u32);
        self.records.push(
            ObjectRecord {
                id,
                card,
                owner,
                controller,
                tapped: false,
                base_creature: None,
                damage_marked: 0,
                deathtouch_damage_marked: false,
                loyalty: None,
                controlled_since_turn,
            },
        );
        id
    }
}

/// Ordered object list for a zone.
#[derive(Clone, Debug, PartialEq, Eq)]
pub struct Zone {
    pub id: ZoneId,
    pub objects: Vec<ObjectId>,
}

impl Zone {
    /// Returns this zone's ID.
    pub fn id(&self) -> (r: ZoneId)
        ensures
            r == self.id,
    {
        self.id
    }
    /// Returns the objects in zone order.
    pub fn objects(&self) -> (r: &[ObjectId])
        ensures
            r@ == self.objects@,
    {
        self.objects.as_slice()
    }
}

/// One object slot as visible to a single observing player.
#[derive(Clone, Copy, Debug, PartialEq, Eq, Structural)]
pub enum ObjectView {
    /// A visible object with its public object record.
    Known {
        /// Visible object record.
        object: ObjectRecord,
    },
    /// A hidden object placeholder; count and zone position are visible, identity is not.
    Hidden,
}

impl ObjectView {
    /// Returns the object record when this view is known.
    pub fn known(self) -> (r: Option<ObjectRecord>)
        ensures
            r == match self {
                ObjectView::Known { object } => Some(object),
                ObjectView::Hidden => None,
            },
    {
        match self {
            ObjectView::Known { object } => Some(object),
            ObjectView::Hidden => None,
        }
    }

    /// Returns true when this object slot is hidden from the observer.
    pub fn is_hidden(self) -> (r: bool)
        ensures
            r == (self is Hidden),
    {
        match self {
            ObjectView::Hidden => true,
            _ => false,
        }
    }
}

/// One zone as visible to a single observing player.
#[derive(Clone, Debug, PartialEq, Eq)]
pub struct ZoneView {
    pub id: ZoneId,
    pub objects: Vec<ObjectView>,
}

impl ZoneView {
    /// Returns this visible zone's ID.
    pub fn id(&self) -> (r: ZoneId)
        ensures
            r == self.id,
    {
        self.id
    }
    /// Returns visible object slots in zone order.
    pub fn objects(&self) -> (r: &[ObjectView])
        ensures
            r@ == self.objects@,
    {
        self.objects.as_slice()
    }
}

/// Redacted state projection for one observing player.
#[derive(Clone, Debug, PartialEq, Eq)]
pub struct PlayerView {
    pub observer: PlayerId,
    pub turn_number: u32,
    pub outcome: GameOutcome,
    pub starting_player: Option<PlayerId>,
    pub opening_hands_drawn: bool,
    pub active_player: Option<PlayerId>,
    pub priority_player: Option<PlayerId>,
    pub current_step: Option<Step>,
    pub players: Vec<PlayerState>,
    pub zones: Vec<ZoneView>,
}

impl PlayerView {
    /// Returns the player this projection is for.
    pub fn observer(&self) -> (r: PlayerId)
        ensures
            r == self.observer,
    {
        self.observer
    }
    /// Returns the visible turn number.
    pub fn turn_number(&self) -> (r: u32)
        ensures
            r == self.turn_number,
    {
        self.turn_number
    }
    /// Returns the visible game outcome.
    pub fn game_outcome(&self) -> (r: GameOutcome)
        ensures
            r == self.outcome,
    {
        self.outcome
    }
    /// Returns the visible starting player chosen during setup.
    pub fn starting_player(&self) -> (r: Option<PlayerId>)
        ensures
            r == self.starting_player,
    {
        self.starting_player
    }
    /// Returns whether setup has drawn visible-count opening hands.
    pub fn opening_hands_drawn(&self) -> (r: bool)
        ensures
            r == self.opening_hands_drawn,
    {
        self.opening_hands_drawn
    }
    /// Returns the visible active player.
    pub fn active_player(&self) -> (r: Option<PlayerId>)
        ensures
            r == self.active_player,
    {
        self.active_player
    }
    /// Returns the visible priority player.
    pub fn priority_player(&self) -> (r: Option<PlayerId>)
        ensures
            r == self.priority_player,
    {
        self.priority_player
    }
    /// Returns the visible current step.
    pub fn current_step(&self) -> (r: Option<Step>)
        ensures
            r == self.current_step,
    {
        self.current_step
    }
    /// Returns visible player scalar state.
    pub fn players(&self) -> (r: &[PlayerState])
        ensures
            r@ == self.players@,
    {
        self.players.as_slice()
    }
    /// Returns visible zones in canonical state order.
    pub fn zones(&self) -> (r: &[ZoneView])
        ensures
            r@ == self.zones@,
    {
        self.zones.as_slice()
    }

    /// Returns one visible zone by ID.
    pub fn zone(&self, id: ZoneId) -> (r: Option<&ZoneView>)
        ensures
            r matches Some(z) ==> z.id == id,
            r is None ==> forall|i: int| 0 <= i < self.zones@.len() ==> self.zones@[i].id != id,
    {
        let mut i: usize = 0;
        while i < self.zones.len()
            invariant
                i <= self.zones@.len(),
                forall|j: int| 0 <= j < i ==> self.zones@[j].id != id,
            decreases self.zones@.len() - i,
        {
            if self.zones[i].id == id {
                return Some(&self.zones[i]);
            }
            i = i + 1;
        }
        None
    }
}

/// Successful zone-conservation validation summary.
#[derive(Clone, Copy, Debug, PartialEq, Eq, Structural)]
pub struct ZoneConservation {
    pub object_count: usize,
}

impl ZoneConservation {
    /// Returns the number of objects validated.
    pub fn object_count(self) -> (r: usize)
        ensures
            r == self.object_count,
    {
        self.object_count
    }
}

/// State validation or mutation error.
#[derive(Clone, Copy, Debug, PartialEq, Eq, Structural)]
pub enum StateError {
    /// The requested player ID does not exist.
    UnknownPlayer(PlayerId),
    /// The requested object ID does not exist.
    UnknownObject(ObjectId),
    /// The requested zone ID does not exist.
    UnknownZone(ZoneId),
    /// A player-owned zone was requested without a valid owner.
    InvalidZoneOwner(ZoneId),
    /// A zone contains an object ID that is not in the object arena.
    InvalidZoneObject {
        /// Zone containing the invalid object reference.
        zone: ZoneId,
        /// Object reference that was not present in the arena.
        object: ObjectId,
    },
    /// An object appears in more than one zone.
    DuplicateZoneMembership(ObjectId),
    /// An object appears in no zone.
    MissingZoneMembership(ObjectId),
    /// A turn is already in progress.
    TurnAlreadyStarted,
    /// No turn is currently in progress.
    TurnNotStarted,
    /// Turn advancement requires at least one player.
    NoPlayers,
    /// Turn order has already been decided.
    TurnOrderAlreadyDecided,
    /// Opening-hand setup requires turn order to be decided first.
    TurnOrderNotDecided,
    /// Turn structure tried to start with a player other than the setup starter.
    StartingPlayerMismatch {
        /// Player chosen by setup to start.
        expected: PlayerId,
        /// Player passed to start-turn.
        actual: PlayerId,
    },
    /// Opening hands have already been drawn.
    OpeningHandsAlreadyDrawn,
    /// A mulligan or keep decision was requested before opening hands were drawn.
    OpeningHandsNotDrawn,
    /// A player tried to mulligan after keeping an opening hand.
    MulliganAfterKeep(PlayerId),
    /// A player tried to keep an opening hand more than once.
    OpeningHandAlreadyKept(PlayerId),
    /// A turn was requested before a player kept their opening hand.
    OpeningHandKeepPending(PlayerId),
    /// A London mulligan count overflowed.
    MulliganCountOverflow,
    /// A London keep provided the wrong number of bottomed cards.
    InvalidOpeningHandBottomCount {
        /// Required bottomed-card count.
        expected: u32,
        /// Actual bottomed-card count.
        actual: u32,
    },
    /// A bottomed-card list named the same object more than once.
    DuplicateOpeningHandBottomCard(ObjectId),
    /// A bottomed card was not in the player's hand.
    OpeningHandBottomCardNotInHand {
        /// Player making the keep decision.
        player: PlayerId,
        /// Object that was not in that player's hand.
        object: ObjectId,
    },
    /// The deterministic turn counter overflowed.
    TurnNumberOverflow,
    /// No player currently has priority.
    NoPriority,
    /// A player tried to act while another player had priority.
    PriorityPlayerMismatch {
        /// The player who currently has priority.
        expected: PlayerId,
        /// The player who tried to act.
        actual: PlayerId,
    },
    /// Triggered abilities must be put on the stack before priority actions.
    PendingTriggeredAbilities,
    /// The requested replacement/prevention effect ID does not exist.
    UnknownReplacementEffect(ReplacementEffectId),
    /// A replacement ordering preference named the same effect more than once.
    DuplicateReplacementEffect(ReplacementEffectId),
    /// The requested continuous effect ID does not exist.
    UnknownContinuousEffect(ContinuousEffectId),
    /// A continuous-effect definition named the same dependency more than once.
    DuplicateContinuousEffectDependency(ContinuousEffectId),
    /// The requested activated ability ID does not exist.
    UnknownActivatedAbility(ActivatedAbilityId),
    /// The requested cost modifier ID does not exist.
    UnknownCostModifier(CostModifierId),
    /// The object cannot currently be used as that activated ability's source.
    ObjectNotActivatable(ObjectId),
    /// The source object is already tapped and cannot pay a tap cost.
    SourceAlreadyTapped(ObjectId),
    /// A loyalty ability of this permanent has already been activated this turn.
    LoyaltyAbilityAlreadyActivatedThisTurn(ObjectId),
    /// The source object does not have enough loyalty for the requested cost.
    InsufficientLoyalty(ObjectId),
    /// A stack resolution was requested while the stack was empty.
    EmptyStack,
    /// A stack entry refers to a spell object that is no longer on the stack.
    StackObjectNotOnStack(ObjectId),
    /// A mana arithmetic operation overflowed.
    ManaValueOverflow,
    /// A life-total arithmetic operation overflowed.
    LifeTotalOverflow,
    /// A poison-counter arithmetic operation overflowed.
    PoisonCounterOverflow,
    /// A player does not have enough mana for a requested payment.
    InsufficientMana,
    /// A proposed explicit payment does not satisfy the cost.
    InvalidPaymentPlan,
    /// The object cannot be cast from its current zone by that player.
    ObjectNotCastable(ObjectId),
    /// The requested spell cannot be cast at the current time.
    InvalidSpellTiming,
    /// Target requirements and selected targets have different lengths.
    TargetCountMismatch {
        /// Number of target slots required by the spell.
        required: u32,
        /// Number of targets selected by the player.
        selected: u32,
    },
    /// A selected target is not legal while the spell is being announced.
    IllegalTarget {
        /// Zero-based target slot.
        index: u32,
        /// Target that failed legality.
        target: TargetChoice,
    },
    /// A combat action was requested in the wrong step.
    InvalidCombatStep {
        /// Step required by that action.
        expected: Step,
        /// Actual current step.
        actual: Option<Step>,
    },
    /// A combat action was requested by the wrong player.
    InvalidCombatPlayer(PlayerId),
    /// The object is not currently a creature.
    NotACreature(ObjectId),
    /// The creature is tapped and cannot attack or block.
    CreatureTapped(ObjectId),
    /// The creature has not been controlled continuously since the turn began.
    SummoningSick(ObjectId),
    /// The same object appeared more than once in a declaration or assignment.
    DuplicateCombatObject(ObjectId),
    /// The declared attack is not legal.
    IllegalAttack(ObjectId),
    /// The declared block is not legal.
    IllegalBlock {
        /// Blocking creature.
        blocker: ObjectId,
        /// Attacking creature.
        attacker: ObjectId,
    },
    /// A damage assignment was missing for a source that must assign damage.
    MissingCombatDamageAssignment(ObjectId),
    /// A damage assignment is illegal for its source or target set.
    IllegalCombatDamageAssignment(ObjectId),
    /// Combat damage arithmetic overflowed.
    CombatDamageOverflow,
    /// State-based actions did not reach a fixpoint within the limit.
    StateBasedActionLoop,
}

/// One registered triggered ability definition.
#[derive(Clone, Copy, Debug, PartialEq, Eq, Structural)]
pub struct TriggerSubscription {
    pub id: TriggerId,
    pub definition: TriggerDefinition,
    pub event_kind: GameEventKind,
}

/// One registered activated ability definition.
#[derive(Clone, Copy, Debug, PartialEq, Eq, Structural)]
pub struct ActivatedAbilitySubscription {
    pub id: ActivatedAbilityId,
    pub definition: ActivatedAbilityDefinition,
}

/// One registered activation cost modifier.
#[derive(Clone, Copy, Debug, PartialEq, Eq, Structural)]
pub struct CostModifierSubscription {
    pub id: CostModifierId,
    pub definition: CostModifierDefinition,
}

/// One registered replacement/prevention effect.
#[derive(Clone, Copy, Debug, PartialEq, Eq, Structural)]
pub struct ReplacementSubscription {
    pub id: ReplacementEffectId,
    pub definition: ReplacementDefinition,
}

/// One registered continuous effect.
#[derive(Clone, Debug, PartialEq, Eq)]
pub struct ContinuousEffectSubscription {
    pub id: ContinuousEffectId,
    pub definition: ContinuousEffectDefinition,
}

/// A damage event as seen by replacement and prevention effects.
#[derive(Clone, Copy, Debug, PartialEq, Eq, Structural)]
pub struct DamageReplacementEvent {
    pub source: Option<ObjectId>,
    pub target: CombatDamageTarget,
    pub amount: u32,
    pub combat: bool,
}

/// One state-based action found by a check, waiting to be performed.
#[derive(Clone, Copy, Debug, PartialEq, Eq, Structural)]
pub enum PendingStateBasedAction {
    /// A player loses the game.
    PlayerLoses { player: PlayerId, kind: StateBasedActionKind },
    /// A permanent goes to its owner's graveyard.
    MovePermanentToGraveyard { object: ObjectId, kind: StateBasedActionKind },
}

/// Complete game state.
#[derive(Clone, Debug, PartialEq, Eq)]
pub struct GameState {
    pub seed: u64,
    pub rng_state: u64,
    pub turn_number: u32,
    pub outcome: GameOutcome,
    pub starting_player: Option<PlayerId>,
    pub opening_hands_drawn: bool,
    pub active_player: Option<PlayerId>,
    pub priority_player: Option<PlayerId>,
    pub priority_pass_count: u32,
    pub current_step: Option<Step>,
    pub cleanup_iteration: u32,
    pub cleanup_priority_requested: bool,
    pub cleanup_repeat_pending: bool,
    pub attackers_declared_this_combat: bool,
    pub last_cleanup_report: CleanupReport,
    pub players: Vec<PlayerState>,
    pub objects: ObjectArena,
    pub zones: Vec<Zone>,
    pub next_duration_marker: u32,
    pub duration_markers: Vec<DurationMarker>,
    pub next_stack_entry: u32,
    pub stack_entries: Vec<StackEntry>,
    pub resolution_log: Vec<ResolutionRecord>,
    pub next_trigger: u32,
    pub trigger_subscriptions: Vec<TriggerSubscription>,
    pub pending_triggers: Vec<PendingTriggeredAbility>,
    pub next_activated_ability: u32,
    pub activated_abilities: Vec<ActivatedAbilitySubscription>,
    pub next_cost_modifier: u32,
    pub cost_modifiers: Vec<CostModifierSubscription>,
    pub loyalty_activations_this_turn: Vec<ObjectId>,
    pub next_replacement: u32,
    pub replacement_effects: Vec<ReplacementSubscription>,
    pub replacement_choice_orders: Vec<ReplacementChoiceOrder>,
    pub next_continuous_effect: u32,
    pub continuous_effects: Vec<ContinuousEffectSubscription>,
    pub deferred_priority_player: Option<PlayerId>,
    pub next_event_sequence: u64,
    pub turn_events: Vec<EventRecord>,
    pub combat: CombatState,
    pub empty_library_draws_since_sba: Vec<PlayerId>,
}

/// `b` differs from `a` at most in the event ring and in the trigger tables
/// that events feed.
pub open spec fn same_but_events(a: GameState, b: GameState) -> bool {
    &&& same_but_events_and_replacements(a, b)
    &&& b.replacement_effects@ == a.replacement_effects@
}

/// The sequence of the oldest record the ring still holds, or the next
/// sequence when it holds none.
pub open spec fn oldest_retained(events: Seq<EventRecord>, next_sequence: u64) -> u64 {
    if events.len() > 0 {
        events[0].sequence
    } else {
        next_sequence
    }
}

/// `b` differs from `a` at most in the event ring, the trigger tables that
/// events feed and the registered replacement effects.
pub open spec fn same_but_events_and_replacements(a: GameState, b: GameState) -> bool {
    &&& b.seed == a.seed && b.rng_state == a.rng_state && b.turn_number == a.turn_number
    &&& b.outcome == a.outcome && b.starting_player == a.starting_player
    &&& b.opening_hands_drawn == a.opening_hands_drawn && b.active_player == a.active_player
    &&& b.priority_player == a.priority_player && b.priority_pass_count == a.priority_pass_count
    &&& b.current_step == a.current_step && b.cleanup_iteration == a.cleanup_iteration
    &&& b.cleanup_priority_requested == a.cleanup_priority_requested
    &&& b.cleanup_repeat_pending == a.cleanup_repeat_pending
    &&& b.attackers_declared_this_combat == a.attackers_declared_this_combat
    &&& b.last_cleanup_report == a.last_cleanup_report
    &&& b.players@ == a.players@ && b.objects.records@ == a.objects.records@
    &&& b.zones@ == a.zones@
    &&& b.next_duration_marker == a.next_duration_marker
    &&& b.duration_markers@ == a.duration_markers@
    &&& b.next_stack_entry == a.next_stack_entry && b.stack_entries@ == a.stack_entries@
    &&& b.resolution_log@ == a.resolution_log@ && b.next_trigger == a.next_trigger
    &&& b.next_activated_ability == a.next_activated_ability
    &&& b.activated_abilities@ == a.activated_abilities@
    &&& b.next_cost_modifier == a.next_cost_modifier && b.cost_modifiers@ == a.cost_modifiers@
    &&& b.loyalty_activations_this_turn@ == a.loyalty_activations_this_turn@
    &&& b.next_replacement == a.next_replacement
    &&& b.replacement_choice_orders@ == a.replacement_choice_orders@
    &&& b.next_continuous_effect == a.next_continuous_effect
    &&& b.continuous_effects@ == a.continuous_effects@
    &&& b.deferred_priority_player == a.deferred_priority_player
    &&& b.combat == a.combat
    &&& b.empty_library_draws_since_sba@ == a.empty_library_draws_since_sba@
    &&& a.turn_events@.len() <= EVENT_RING_CAPACITY ==> b.turn_events@.len() <= EVENT_RING_CAPACITY
}

impl GameState {
    /// Creates an empty game state with the shared public zones.
    pub fn new() -> (r: Self)
        ensures
            r.players@.len() == 0 && r.objects.records@.len() == 0,
            r.zones@.len() == 4,
            r.zones@[0].id == (ZoneId { owner: None, kind: ZoneKind::Battlefield }),
            r.zones@[1].id == (ZoneId { owner: None, kind: ZoneKind::Exile }),
            r.zones@[2].id == (ZoneId { owner: None, kind: ZoneKind::Stack }),
            r.zones@[3].id == (ZoneId { owner: None, kind: ZoneKind::Command }),
            forall|i: int| 0 <= i < 4 ==> r.zones@[i].objects@.len() == 0,
            zones_conserved(r),
            ids_match_positions(r) && owners_have_graveyards(r),
            events_bounded(r),
            r.turn_number == 0 && r.seed == 0 && r.outcome == GameOutcome::InProgress,
            r.current_step.is_none(),
            r.priority_player.is_none(),
            r.active_player.is_none(),
            r.turn_events@.len() == 0 && r.next_event_sequence == 0,
            r.stack_entries@.len() == 0 && r.pending_triggers@.len() == 0,
            r.trigger_subscriptions@.len() == 0 && r.starting_player is None && !r.opening_hands_drawn,
            r.duration_markers@.len() == 0 && r.continuous_effects@.len() == 0,
            r.replacement_effects@.len() == 0 && r.activated_abilities@.len() == 0,
            r.cost_modifiers@.len() == 0 && r.rng_state == 0,
            r.priority_pass_count == 0 && r.cleanup_iteration == 0 && !r.cleanup_priority_requested
                && !r.cleanup_repeat_pending && !r.attackers_declared_this_combat,
            r.last_cleanup_report.discarded == 0 && r.last_cleanup_report.expired_until_end_of_turn == 0
                && r.last_cleanup_report.expired_this_turn == 0,
            r.next_duration_marker == 0 && r.next_stack_entry == 0 && r.next_trigger == 0
                && r.next_activated_ability == 0 && r.next_cost_modifier == 0 && r.next_replacement == 0
                && r.next_continuous_effect == 0,
            r.resolution_log@.len() == 0 && r.loyalty_activations_this_turn@.len() == 0
                && r.replacement_choice_orders@.len() == 0 && r.deferred_priority_player is None,
            r.empty_library_draws_since_sba@.len() == 0,
            r.combat.attackers@.len() == 0 && r.combat.blockers@.len() == 0 && r.combat.damage_records@.len()
                == 0 && r.combat.damage_step is None && r.combat.first_strike_participants@.len() == 0,
    {
        let mut zones: Vec<Zone> = Vec::new();
        zones.push(Zone { id: ZoneId::new(None, ZoneKind::Battlefield), objects: Vec::new() });
        zones.push(Zone { id: ZoneId::new(None, ZoneKind::Exile), objects: Vec::new() });
        zones.push(Zone { id: ZoneId::new(None, ZoneKind::Stack), objects: Vec::new() });
        zones.push(Zone { id: ZoneId::new(None, ZoneKind::Command), objects: Vec::new() });
        GameState {
            seed: 0,
            rng_state: 0,
            turn_number: 0,
            outcome: GameOutcome::InProgress,
            starting_player: None,
            opening_hands_drawn: false,
            active_player: None,
            priority_player: None,
            priority_pass_count: 0,
            current_step: None,
            cleanup_iteration: 0,
            cleanup_priority_requested: false,
            cleanup_repeat_pending: false,
            attackers_declared_this_combat: false,
            last_cleanup_report: CleanupReport::zero(),
            players: Vec::new(),
            objects: ObjectArena::new(),
            zones,
            next_duration_marker: 0,
            duration_markers: Vec::new(),
            next_stack_entry: 0,
            stack_entries: Vec::new(),
            resolution_log: Vec::new(),
            next_trigger: 0,
            trigger_subscriptions: Vec::new(),
            pending_triggers: Vec::new(),
            next_activated_ability: 0,
            activated_abilities: Vec::new(),
            next_cost_modifier: 0,
            cost_modifiers: Vec::new(),
            loyalty_activations_this_turn: Vec::new(),
            next_replacement: 0,
            replacement_effects: Vec::new(),
            replacement_choice_orders: Vec::new(),
            next_continuous_effect: 0,
            continuous_effects: Vec::new(),
            deferred_priority_player: None,
            next_event_sequence: 0,
            turn_events: Vec::new(),
            combat: CombatState::new(),
            empty_library_draws_since_sba: Vec::new(),
        }
    }

    /// Sets the deterministic game seed.
    pub fn set_seed(&mut self, seed: u64)
        ensures
            zones_conserved(*old(self)) ==> zones_conserved(*final(self)),
            events_bounded(*old(self)) ==> events_bounded(*final(self)),
            final(self).seed == seed && final(self).rng_state == seed,
            final(self).players@ == old(self).players@,
            final(self).zones@ == old(self).zones@,
    {
        self.seed = seed;
        self.rng_state = seed;
        self.emit_event(GameEvent::SeedSet { seed });
    }

    /// Returns the deterministic game seed.
    pub fn seed(&self) -> (r: u64)
        ensures
            r == self.seed,
    {
        self.seed
    }
    /// Returns the player chosen to take the first turn, if setup has decided one.
    pub fn starting_player(&self) -> (r: Option<PlayerId>)
        ensures
            r == self.starting_player,
    {
        self.starting_player
    }
    /// Returns whether setup has drawn opening hands.
    pub fn opening_hands_drawn(&self) -> (r: bool)
        ensures
            r == self.opening_hands_drawn,
    {
        self.opening_hands_drawn
    }
    /// Returns the current turn number.
    pub fn turn_number(&self) -> (r: u32)
        ensures
            r == self.turn_number,
    {
        self.turn_number
    }
    /// Returns the active player, if turn structure has selected one.
    pub fn active_player(&self) -> (r: Option<PlayerId>)
        ensures
            r == self.active_player,
    {
        self.active_player
    }
    /// Returns the player with priority, if priority has been assigned.
    pub fn priority_player(&self) -> (r: Option<PlayerId>)
        ensures
            r == self.priority_player,
    {
        self.priority_player
    }
    /// Returns the number of consecutive priority passes since the last action.
    pub fn priority_pass_count(&self) -> (r: u32)
        ensures
            r == self.priority_pass_count,
    {
        self.priority_pass_count
    }
    /// Returns the current step or main-phase segment, if a turn has started.
    pub fn current_step(&self) -> (r: Option<Step>)
        ensures
            r == self.current_step,
    {
        self.current_step
    }
    /// Returns how many cleanup steps have begun in the current turn.
    pub fn cleanup_iteration(&self) -> (r: u32)
        ensures
            r == self.cleanup_iteration,
    {
        self.cleanup_iteration
    }
    /// Returns the most recent cleanup action summary.
    pub fn last_cleanup_report(&self) -> (r: CleanupReport)
        ensures
            r == self.last_cleanup_report,
    {
        self.last_cleanup_report
    }
    /// Returns the current game outcome.
    pub fn game_outcome(&self) -> (r: GameOutcome)
        ensures
            r == self.outcome,
    {
        self.outcome
    }
    /// Returns the current phase, if a turn has started.
    pub fn current_phase(&self) -> (r: Option<Phase>)
        ensures
            r == match self.current_step {
                Some(step) => Some(step.spec_phase()),
                None => None,
            },
    {
        match self.current_step {
            Some(step) => Some(step.phase()),
            None => None,
        }
    }

    /// Returns true when the current segment currently has a priority window.
    pub fn has_priority_window(&self) -> (r: bool)
        ensures
            r == self.priority_player is Some,
    {
        self.priority_player.is_some()
    }

    /// Returns active stack entries in bottom-to-top order.
    pub fn stack_entries(&self) -> (r: &[StackEntry])
        ensures
            r@ == self.stack_entries@,
    {
        self.stack_entries.as_slice()
    }
    /// Returns a copy of the current top stack entry.
    pub fn stack_top(&self) -> (r: Option<StackEntry>)
        ensures
            self.stack_entries@.len() == 0 ==> r is None,
            self.stack_entries@.len() > 0 ==> (r matches Some(e) && e.id == self.stack_entries@.last().id
                && e.controller == self.stack_entries@.last().controller && e.kind == self.stack_entries@.last().kind
                && e.object == self.stack_entries@.last().object),
    {
        let n = self.stack_entries.len();
        if n == 0 {
            None
        } else {
            Some(self.stack_entries[n - 1].duplicate())
        }
    }

    /// Returns resolved stack entries in resolution order.
    pub fn resolution_log(&self) -> (r: &[ResolutionRecord])
        ensures
            r@ == self.resolution_log@,
    {
        self.resolution_log.as_slice()
    }
    /// Returns registered trigger subscriptions in deterministic ID order.
    pub fn trigger_subscriptions(&self) -> (r: Vec<(TriggerId, TriggerDefinition)>)
        ensures
            r@.len() == self.trigger_subscriptions@.len(),
            forall|i: int|
                0 <= i < r@.len() ==> r@[i] == (
                    self.trigger_subscriptions@[i].id,
                    self.trigger_subscriptions@[i].definition,
                ),
    {
        let mut r: Vec<(TriggerId, TriggerDefinition)> = Vec::new();
        let mut i: usize = 0;
        while i < self.trigger_subscriptions.len()
            invariant
                i <= self.trigger_subscriptions@.len(),
                r@.len() == i,
                forall|j: int|
                    0 <= j < i ==> r@[j] == (
                        self.trigger_subscriptions@[j].id,
                        self.trigger_subscriptions@[j].definition,
                    ),
            decreases self.trigger_subscriptions@.len() - i,
        {
            let s = self.trigger_subscriptions[i];
            r.push((s.id, s.definition));
            i = i + 1;
        }
        r
    }

    /// Returns queued triggered abilities waiting to be put on the stack.
    pub fn pending_triggers(&self) -> (r: &[PendingTriggeredAbility])
        ensures
            r@ == self.pending_triggers@,
    {
        self.pending_triggers.as_slice()
    }
    /// Returns registered activated abilities in deterministic ID order.
    pub fn activated_abilities(&self) -> (r: Vec<(ActivatedAbilityId, ActivatedAbilityDefinition)>)
        ensures
            r@.len() == self.activated_abilities@.len(),
            forall|i: int|
                0 <= i < r@.len() ==> r@[i] == (
                    self.activated_abilities@[i].id,
                    self.activated_abilities@[i].definition,
                ),
    {
        let mut r: Vec<(ActivatedAbilityId, ActivatedAbilityDefinition)> = Vec::new();
        let mut i: usize = 0;
        while i < self.activated_abilities.len()
            invariant
                i <= self.activated_abilities@.len(),
                r@.len() == i,
                forall|j: int|
                    0 <= j < i ==> r@[j] == (
                        self.activated_abilities@[j].id,
                        self.activated_abilities@[j].definition,
                    ),
            decreases self.activated_abilities@.len() - i,
        {
            let s = self.activated_abilities[i];
            r.push((s.id, s.definition));
            i = i + 1;
        }
        r
    }

    /// Returns registered activation cost modifiers in deterministic ID order.
    pub fn cost_modifiers(&self) -> (r: Vec<(CostModifierId, CostModifierDefinition)>)
        ensures
            r@.len() == self.cost_modifiers@.len(),
            forall|i: int|
                0 <= i < r@.len() ==> r@[i] == (
                    self.cost_modifiers@[i].id,
                    self.cost_modifiers@[i].definition,
                ),
    {
        let mut r: Vec<(CostModifierId, CostModifierDefinition)> = Vec::new();
        let mut i: usize = 0;
        while i < self.cost_modifiers.len()
            invariant
                i <= self.cost_modifiers@.len(),
                r@.len() == i,
                forall|j: int|
                    0 <= j < i ==> r@[j] == (
                        self.cost_modifiers@[j].id,
                        self.cost_modifiers@[j].definition,
                    ),
            decreases self.cost_modifiers@.len() - i,
        {
            let s = self.cost_modifiers[i];
            r.push((s.id, s.definition));
            i = i + 1;
        }
        r
    }

    /// Returns source objects whose loyalty abilities were activated this turn.
    pub fn loyalty_activations_this_turn(&self) -> (r: &[ObjectId])
        ensures
            r@ == self.loyalty_activations_this_turn@,
    {
        self.loyalty_activations_this_turn.as_slice()
    }
    /// Returns registered replacement/prevention effects in deterministic ID order.
    pub fn replacement_effects(&self) -> (r: Vec<(ReplacementEffectId, ReplacementDefinition)>)
        ensures
            r@.len() == self.replacement_effects@.len(),
            forall|i: int|
                0 <= i < r@.len() ==> r@[i] == (
                    self.replacement_effects@[i].id,
                    self.replacement_effects@[i].definition,
                ),
    {
        let mut r: Vec<(ReplacementEffectId, ReplacementDefinition)> = Vec::new();
        let mut i: usize = 0;
        while i < self.replacement_effects.len()
            invariant
                i <= self.replacement_effects@.len(),
                r@.len() == i,
                forall|j: int|
                    0 <= j < i ==> r@[j] == (
                        self.replacement_effects@[j].id,
                        self.replacement_effects@[j].definition,
                    ),
            decreases self.replacement_effects@.len() - i,
        {
            let s = self.replacement_effects[i];
            r.push((s.id, s.definition));
            i = i + 1;
        }
        r
    }

    /// Returns stored replacement ordering preferences.
    pub fn replacement_choice_orders(&self) -> (r: &[ReplacementChoiceOrder])
        ensures
            r@ == self.replacement_choice_orders@,
    {
        self.replacement_choice_orders.as_slice()
    }
    /// Returns registered continuous effects in deterministic ID order.
    pub fn continuous_effects(&self) -> (r: Vec<(ContinuousEffectId, &ContinuousEffectDefinition)>)
        ensures
            r@.len() == self.continuous_effects@.len(),
            forall|i: int|
                0 <= i < r@.len() ==> r@[i].0 == self.continuous_effects@[i].id && *r@[i].1
                    == self.continuous_effects@[i].definition,
    {
        let mut r: Vec<(ContinuousEffectId, &ContinuousEffectDefinition)> = Vec::new();
        let mut i: usize = 0;
        while i < self.continuous_effects.len()
            invariant
                i <= self.continuous_effects@.len(),
                r@.len() == i,
                forall|j: int|
                    0 <= j < i ==> r@[j].0 == self.continuous_effects@[j].id && *r@[j].1
                        == self.continuous_effects@[j].definition,
            decreases self.continuous_effects@.len() - i,
        {
            r.push((self.continuous_effects[i].id, &self.continuous_effects[i].definition));
            i = i + 1;
        }
        r
    }

    /// Returns typed mutation events retained for the current turn.
    pub fn events_this_turn(&self) -> (r: &[EventRecord])
        ensures
            r@ == self.turn_events@,
    {
        self.turn_events.as_slice()
    }
    /// Returns a cursor positioned after the latest retained event.
    pub fn event_cursor(&self) -> (r: EventCursor)
        ensures
            r.turn == self.turn_number && r.next_sequence == self.next_event_sequence,
    {
        EventCursor { turn: self.turn_number, next_sequence: self.next_event_sequence }
    }

    /// Returns current-turn events at or after a cursor.
    pub fn events_since(&self, cursor: EventCursor) -> (r: Result<&[EventRecord], EventReplayError>)
        ensures
            cursor.turn != self.turn_number ==> r == Err::<&[EventRecord], EventReplayError>(
                EventReplayError::CursorTurnMismatch {
                    cursor_turn: cursor.turn,
                    current_turn: self.turn_number,
                },
            ),
            cursor.turn == self.turn_number && cursor.next_sequence > self.next_event_sequence
                ==> r == Err::<&[EventRecord], EventReplayError>(
                EventReplayError::CursorInFuture {
                    requested: cursor.next_sequence,
                    next_sequence: self.next_event_sequence,
                },
            ),
            cursor.turn == self.turn_number && cursor.next_sequence <= self.next_event_sequence
                && cursor.next_sequence < oldest_retained(self.turn_events@, self.next_event_sequence)
                ==> r == Err::<&[EventRecord], EventReplayError>(
                EventReplayError::CursorTooOld {
                    requested: cursor.next_sequence,
                    oldest_retained: oldest_retained(self.turn_events@, self.next_event_sequence),
                },
            ),
            r is Ok <==> cursor.turn == self.turn_number && cursor.next_sequence
                <= self.next_event_sequence && cursor.next_sequence >= oldest_retained(
                self.turn_events@,
                self.next_event_sequence,
            ),
            r matches Ok(s) ==> exists|k: int|
                0 <= k <= self.turn_events@.len() && s@ == self.turn_events@.subrange(
                    k,
                    self.turn_events@.len() as int,
                ) && (forall|j: int|
                    0 <= j < k ==> #[trigger] self.turn_events@[j].sequence < cursor.next_sequence)
                    && (k < self.turn_events@.len() ==> self.turn_events@[k].sequence
                    >= cursor.next_sequence),
    {
        if cursor.turn != self.turn_number {
            return Err(
                EventReplayError::CursorTurnMismatch {
                    cursor_turn: cursor.turn,
                    current_turn: self.turn_number,
                },
            );
        }
        if cursor.next_sequence > self.next_event_sequence {
            return Err(
                EventReplayError::CursorInFuture {
                    requested: cursor.next_sequence,
                    next_sequence: self.next_event_sequence,
                },
            );
        }
        let n = self.turn_events.len();
        let oldest = if n > 0 {
            self.turn_events[0].sequence
        } else {
            self.next_event_sequence
        };
        if cursor.next_sequence < oldest {
            return Err(
                EventReplayError::CursorTooOld {
                    requested: cursor.next_sequence,
                    oldest_retained: oldest,
                },
            );
        }
        let mut offset: usize = 0;
        let mut found = false;
        while offset < n && !found
            invariant
                offset <= n,
                n == self.turn_events@.len(),
                forall|j: int|
                    0 <= j < offset ==> #[trigger] self.turn_events@[j].sequence
                        < cursor.next_sequence,
                found ==> offset < n && self.turn_events@[offset as int].sequence
                    >= cursor.next_sequence,
            decreases n - offset + (if found {
                0int
            } else {
                1int
            }),
        {
            if self.turn_events[offset].sequence >= cursor.next_sequence {
                found = true;
            } else {
                offset = offset + 1;
            }
        }
        let s = vstd::slice::slice_subrange(self.turn_events.as_slice(), offset, n);
        Ok(s)
    }

    /// Returns current combat state.
    pub fn combat_state(&self) -> (r: &CombatState)
        ensures
            *r == self.combat,
    {
        &self.combat
    }
}

impl Default for ObjectArena {
    /// An arena with no objects.
    fn default() -> (r: Self)
        ensures
            r.records@.len() == 0,
    {
        ObjectArena::new()
    }
}

impl Default for GameState {
    /// A game with no players and the shared public zones.
    fn default() -> (r: Self)
        ensures
            r.players@.len() == 0 && r.objects.records@.len() == 0,
            r.zones@.len() == 4,
            r.turn_number == 0 && r.seed == 0 && r.outcome == GameOutcome::InProgress,
    {
        GameState::new()
    }
}

} // verus!
