//! The external action boundary: actions, legal actions, and applying an
//! action to a game state.

use vstd::prelude::*;

use crate::abilities::{
    ActivatedAbilityDefinition, CastSpellRequest, CostModifierDefinition, CostModifierScope, ReplacementDefinition,
    StackObjectKind, TriggerDefinition,
};
use crate::characteristics::{BaseCreatureCharacteristics, ContinuousEffectDefinition};
use crate::combat::{
    AttackDeclaration, BlockDeclaration, BlockingCreature, CombatDamageAssignmentRequest, CombatDamageRecord,
};
use crate::ids::{
    ActivatedAbilityId, CardId, ContinuousEffectId, CostModifierId, DurationMarkerId, ObjectId,
    PlayerId, ReplacementEffectId, StackEntryId, TriggerId,
};
use crate::mana::{
    generic_requirement, is_valid_payment, pool_add, pool_add_overflows, ManaCost, ManaPool, PaymentPlan,
};
use crate::outcome::{GameOutcome, PriorityOutcome, StateBasedActionReport};
use crate::events::GameEvent;
use crate::combat_rules::{
    attack_declaration_check, attack_taps, block_declaration_check, combat_damage_fits, damage_assignment_check, dealt_damage,
    players_after_all_damage, requested_damage, total_damage_on,
};
use crate::plumbing::{event_logged, events_bounded, zone_id_valid, zone_of, zones_conserved};
use crate::sba::{
    battlefield_objects, ids_match_positions, no_creature_death_pending, no_player_loss_pending, outcome_for,
    player_due_to_lose, players_in_game, sba_quiet, sba_settles,
};
use crate::turns::{
    cleanup_report_from, drew_turn_card, first_draw_skipped, following_step, markers_without, round_completed, step_can_end, step_ends_cleanly, top_resolves_cleanly,
};
use crate::setup::{
    drew_opening_hand, has_library_and_hand, player_zones_present, without_each, zone_at, rng_advance, rng_output, scaled_below, zone_ids_distinct,
};
use crate::priority::{
    apnap_controllers, apnap_order, apnap_triggers, cast_allowed, entry_controllers, entry_triggers,
};
use crate::activated::activation_allowed;
use crate::replacement::replacement_registered;
use crate::state::{
    ActivatedAbilitySubscription, ContinuousEffectSubscription, CostModifierSubscription, GameState,
    ObjectRecord, PlayerState,
    StateError, TriggerSubscription,
};
use crate::turn::DurationMarker;
use crate::turn::{EffectDuration, Step, ZoneId, ZoneKind};

verus! {

/// One externally visible kernel action.
///
/// The action surface covers setup and rules-kernel operations while keeping
/// consumers away from the low-level mutators.
#[derive(Clone, Debug, Eq, PartialEq)]
pub enum Action {
    /// Set the deterministic game seed.
    SetSeed {
        /// New deterministic seed.
        seed: u64,
    },
    /// Add one player and that player's zones.
    AddPlayer,
    /// Randomly choose the starting player from the deterministic seed stream.
    DecideTurnOrder,
    /// Draw opening hands for all players in starting-player turn order.
    DrawOpeningHands,
    /// Take one London mulligan for a player.
    TakeMulligan {
        /// Player taking a mulligan.
        player: PlayerId,
    },
    /// Keep a London opening hand and put mulligan-count cards on the library bottom.
    KeepOpeningHand {
        /// Player keeping the hand.
        player: PlayerId,
        /// Cards to put on the bottom, in bottom-to-top order.
        bottom: Vec<ObjectId>,
    },
    /// Set a player's maximum hand size.
    SetPlayerMaxHandSize {
        /// Player to update.
        player: PlayerId,
        /// New maximum hand size.
        max_hand_size: u32,
    },
    /// Set a player's life total.
    SetPlayerLife {
        /// Player to update.
        player: PlayerId,
        /// New life total.
        life: i32,
    },
    /// Make a player lose life.
    LoseLife {
        /// Player losing life.
        player: PlayerId,
        /// Life amount to lose.
        amount: u32,
    },
    /// Make a player gain life.
    GainLife {
        /// Player gaining life.
        player: PlayerId,
        /// Life amount to gain.
        amount: u32,
    },
    /// Add poison counters to a player.
    AddPoisonCounters {
        /// Player receiving counters.
        player: PlayerId,
        /// Number of counters to add.
        amount: u32,
    },
    /// Add mana to a player's pool.
    AddManaToPool {
        /// Player receiving mana.
        player: PlayerId,
        /// Mana to add.
        mana: ManaPool,
    },
    /// Clear one player's mana pool.
    ClearManaPool {
        /// Player whose pool is cleared.
        player: PlayerId,
    },
    /// Pay one explicit mana payment plan.
    PayMana {
        /// Paying player.
        player: PlayerId,
        /// Cost being paid.
        cost: ManaCost,
        /// Payment plan to apply.
        plan: PaymentPlan,
    },
    /// Set or clear an object's loyalty value.
    SetObjectLoyalty {
        /// Object to update.
        object: ObjectId,
        /// New loyalty value, or none to clear loyalty tracking.
        loyalty: Option<i32>,
    },
    /// Register one declarative activated ability definition.
    RegisterActivatedAbility {
        /// Data-only activated ability definition.
        definition: ActivatedAbilityDefinition,
    },
    /// Register one activated ability cost modifier.
    RegisterCostModifier {
        /// Data-only activation cost modifier.
        definition: CostModifierDefinition,
    },
    /// Activate one registered ability using an explicit payment plan.
    ActivateAbility {
        /// Activating player.
        player: PlayerId,
        /// Registered ability to activate.
        ability: ActivatedAbilityId,
        /// Mana payment selected for the effective activation cost.
        payment: PaymentPlan,
    },
    /// Set base printed creature characteristics for one object.
    SetBaseCreatureCharacteristics {
        /// Object to update.
        object: ObjectId,
        /// Base printed characteristics to set.
        base: BaseCreatureCharacteristics,
    },
    /// Clear base printed creature characteristics from one object.
    ClearBaseCreatureCharacteristics {
        /// Object to update.
        object: ObjectId,
    },
    /// Set an object's tapped status.
    SetObjectTapped {
        /// Object to update.
        object: ObjectId,
        /// New tapped status.
        tapped: bool,
    },
    /// Mark damage on a creature object.
    MarkDamageOnObject {
        /// Object receiving damage.
        object: ObjectId,
        /// Damage amount to mark.
        amount: u32,
    },
    /// Check state-based actions to a fixpoint.
    CheckStateBasedActions,
    /// Start a turn for the chosen active player.
    StartTurn {
        /// Active player for the new turn.
        active_player: PlayerId,
    },
    /// Advance from the current step or main-phase segment.
    AdvanceStep,
    /// Pass priority for the current priority player.
    PassPriority {
        /// Player passing priority.
        player: PlayerId,
    },
    /// Cast a spell through the full casting pipeline.
    CastSpell {
        /// Casting player.
        player: PlayerId,
        /// Spell object.
        object: ObjectId,
        /// Cast request.
        request: CastSpellRequest,
    },
    /// Put a spell object on the stack through the low-level stack helper.
    PutSpellOnStack {
        /// Controlling player.
        player: PlayerId,
        /// Spell object.
        object: ObjectId,
        /// Stack-object kind.
        kind: StackObjectKind,
        /// Whether priority remains with that player.
        hold_priority: bool,
    },
    /// Put an ability on the stack through the low-level stack helper.
    PutAbilityOnStack {
        /// Controlling player.
        player: PlayerId,
        /// Stack-object kind.
        kind: StackObjectKind,
        /// Whether priority remains with that player.
        hold_priority: bool,
    },
    /// Put simultaneous triggered abilities on the stack in APNAP order.
    PutSimultaneousAbilitiesApnap {
        /// Ability controllers in source order.
        abilities: Vec<PlayerId>,
        /// Stack-object kind.
        kind: StackObjectKind,
    },
    /// Register one declarative triggered ability definition.
    RegisterTriggeredAbility {
        /// Data-only trigger definition.
        definition: TriggerDefinition,
    },
    /// Put all currently pending triggered abilities on the stack in APNAP order.
    PutPendingTriggeredAbilitiesOnStack,
    /// Register one declarative replacement/prevention effect definition.
    RegisterReplacementEffect {
        /// Data-only replacement/prevention definition.
        definition: ReplacementDefinition,
    },
    /// Set one affected player's deterministic replacement application order.
    SetReplacementChoiceOrder {
        /// Player who makes replacement ordering choices.
        chooser: PlayerId,
        /// Effect IDs in preferred order; omitted applicable effects use ID order.
        order: Vec<ReplacementEffectId>,
    },
    /// Register one declarative continuous effect definition.
    RegisterContinuousEffect {
        /// Data-only continuous effect definition.
        definition: ContinuousEffectDefinition,
    },
    /// Record whether attackers were declared in this combat.
    SetAttackersDeclaredThisCombat {
        /// True if at least one attacker was declared.
        attackers_declared: bool,
    },
    /// Declare attackers.
    DeclareAttackers {
        /// Attacking player.
        player: PlayerId,
        /// Attack declarations.
        attacks: Vec<AttackDeclaration>,
    },
    /// Declare blockers.
    DeclareBlockers {
        /// Defending player.
        defending_player: PlayerId,
        /// Block declarations.
        blocks: Vec<BlockDeclaration>,
    },
    /// Assign and deal combat damage.
    AssignCombatDamage {
        /// Damage assignment requests.
        assignments: Vec<CombatDamageAssignmentRequest>,
    },
    /// Request the cleanup priority exception.
    RequestCleanupPriority,
    /// Add one duration marker.
    AddDurationMarker {
        /// Duration to track.
        duration: EffectDuration,
    },
    /// Create one object in a zone.
    CreateObject {
        /// Card definition ID.
        card: CardId,
        /// Object owner.
        owner: PlayerId,
        /// Object controller.
        controller: PlayerId,
        /// Destination zone.
        zone: ZoneId,
    },
    /// Move one object to another zone.
    MoveObject {
        /// Object to move.
        object: ObjectId,
        /// Destination zone.
        to: ZoneId,
    },
}

/// Ordered list of currently legal actions.
#[derive(Clone, Debug, Eq, PartialEq)]
pub struct ActionList {
    actions: Vec<Action>,
}

impl ActionList {
    /// The actions in deterministic order.
    pub closed spec fn view_actions(&self) -> Seq<Action> {
        self.actions@
    }

    /// Creates an action list from canonical actions.
    pub fn new(actions: Vec<Action>) -> (r: Self)
        ensures
            r.view_actions() == actions@,
    {
        ActionList { actions }
    }

    /// Creates an empty action list.
    pub fn empty() -> (r: Self)
        ensures
            r.view_actions().len() == 0,
    {
        ActionList { actions: Vec::new() }
    }

    /// Creates an action list containing exactly one action.
    pub fn single(action: Action) -> (r: Self)
        ensures
            r.view_actions() == seq![action],
    {
        let mut actions: Vec<Action> = Vec::new();
        actions.push(action);
        ActionList { actions }
    }

    /// Returns the legal actions in deterministic order.
    pub fn actions(&self) -> (r: &[Action])
        ensures
            r@ == self.view_actions(),
    {
        self.actions.as_slice()
    }

    /// Returns the number of actions.
    pub fn len(&self) -> (r: usize)
        ensures
            r == self.view_actions().len(),
    {
        self.actions.len()
    }

    /// Returns true if there are no actions.
    pub fn is_empty(&self) -> (r: bool)
        ensures
            r == (self.view_actions().len() == 0),
    {
        self.actions.len() == 0
    }
}

/// Result of applying one external action.
#[derive(Clone, Debug, Eq, PartialEq)]
pub enum Outcome {
    /// The action succeeded without a more specific payload.
    Applied,
    /// A player was added.
    PlayerAdded(PlayerId),
    /// Turn order was decided and this player starts.
    TurnOrderDecided(PlayerId),
    /// An object was created.
    ObjectCreated(ObjectId),
    /// A step advanced.
    StepAdvanced(Step),
    /// Priority was passed or a stack object resolved.
    Priority(PriorityOutcome),
    /// A stack entry was created.
    StackEntryAdded(StackEntryId),
    /// Multiple stack entries were created.
    StackEntriesAdded(Vec<StackEntryId>),
    /// A triggered ability definition was registered.
    TriggerRegistered(TriggerId),
    /// A replacement/prevention effect definition was registered.
    ReplacementEffectRegistered(ReplacementEffectId),
    /// A continuous effect definition was registered.
    ContinuousEffectRegistered(ContinuousEffectId),
    /// An activated ability definition was registered.
    ActivatedAbilityRegistered(ActivatedAbilityId),
    /// An activation cost modifier was registered.
    CostModifierRegistered(CostModifierId),
    /// Combat damage was assigned and dealt.
    CombatDamageAssigned(Vec<CombatDamageRecord>),
    /// State-based actions were checked.
    StateBasedActions(StateBasedActionReport),
    /// A duration marker was added.
    DurationMarkerAdded(DurationMarkerId),
    /// The action was rejected.
    Failed(StateError),
}

/// The action a caller must take next: put pending triggers on the stack
/// once a turn has started, or else pass priority for its holder; nothing
/// when nobody may act.
pub open spec fn next_legal_actions(state: GameState) -> Seq<Action> {
    if state.pending_triggers@.len() > 0 {
        if state.active_player is Some {
            seq![Action::PutPendingTriggeredAbilitiesOnStack]
        } else {
            Seq::empty()
        }
    } else if state.priority_player is Some {
        seq![Action::PassPriority { player: state.priority_player->0 }]
    } else {
        Seq::empty()
    }
}

/// A listed action is accepted by `apply`: putting pending triggers on the
/// stack once a turn has started, when no state-based action applies and the
/// active player is seated; passing priority when the pass does not complete
/// the round.
pub proof fn lemma_listed_actions_are_accepted(before: GameState, after: GameState, action: Action, r: Outcome)
    requires
        next_legal_actions(before).contains(action),
        action is PutPendingTriggeredAbilitiesOnStack ==> (before.active_player->0).0 < before.players@.len()
            && before.players@.len() <= u32::MAX + 1 && sba_quiet(before),
        action is PassPriority ==> before.priority_pass_count + 1 < before.players@.len()
            || step_ends_cleanly(before) || top_resolves_cleanly(before),
        action_effect(before, after, action, r),
        action matches Action::PassPriority { player } ==> priority_pass_effect(before, after, player, r),
    ensures
        !(r is Failed),
{
    let listed = next_legal_actions(before);
    let i = choose|i: int| 0 <= i < listed.len() && listed[i] == action;
    assert(i == 0);
}

/// Returns the currently legal external actions in deterministic order.
pub fn legal_actions(state: &GameState) -> (r: ActionList)
    ensures
        r.view_actions() == next_legal_actions(*state),
{
    if state.pending_triggers.len() > 0 {
        if state.active_player.is_some() {
            return ActionList::single(Action::PutPendingTriggeredAbilitiesOnStack);
        }
        return ActionList::empty();
    }
    match state.priority_player {
        Some(player) => ActionList::single(Action::PassPriority { player }),
        None => ActionList::empty(),
    }
}

/// Limits of the identifier types that passing priority relies on.
pub open spec fn pass_priority_fits(state: GameState, action: Action) -> bool {
    action matches Action::PassPriority { player } ==> (state.pending_triggers@.len() == 0
        && state.priority_player == Some(player) ==> {
        &&& state.priority_pass_count < u32::MAX
        &&& state.players@.len() <= u32::MAX
        &&& player.0 < u32::MAX
    })
}

/// The outcome variants an action can produce: its own success variant, or
/// a rejection where the action can be refused.
pub open spec fn outcome_fits_action(action: Action, r: Outcome) -> bool {
    match action {
        Action::SetSeed { .. } => r == Outcome::Applied,
        Action::SetAttackersDeclaredThisCombat { .. } => r == Outcome::Applied,
        Action::RequestCleanupPriority => r == Outcome::Applied,
        Action::AddPlayer => r is PlayerAdded,
        Action::AddDurationMarker { .. } => r is DurationMarkerAdded,
        Action::DecideTurnOrder => r is TurnOrderDecided || r is Failed,
        Action::RegisterActivatedAbility { .. } => r is ActivatedAbilityRegistered || r is Failed,
        Action::RegisterCostModifier { .. } => r is CostModifierRegistered || r is Failed,
        Action::ActivateAbility { .. } => r is StackEntryAdded || r == Outcome::Applied || r is Failed,
        Action::CheckStateBasedActions => r is StateBasedActions || r is Failed,
        Action::AdvanceStep => r is StepAdvanced || r is Failed,
        Action::PassPriority { .. } => r is Priority || r is Failed,
        Action::CastSpell { .. } => r is StackEntryAdded || r is Failed,
        Action::PutSpellOnStack { .. } => r is StackEntryAdded || r is Failed,
        Action::PutAbilityOnStack { .. } => r is StackEntryAdded || r is Failed,
        Action::PutSimultaneousAbilitiesApnap { .. } => r is StackEntriesAdded || r is Failed,
        Action::PutPendingTriggeredAbilitiesOnStack => r is StackEntriesAdded || r is Failed,
        Action::RegisterTriggeredAbility { .. } => r is TriggerRegistered || r is Failed,
        Action::RegisterReplacementEffect { .. } => r is ReplacementEffectRegistered || r is Failed,
        Action::RegisterContinuousEffect { .. } => r is ContinuousEffectRegistered || r is Failed,
        Action::AssignCombatDamage { .. } => r is CombatDamageAssigned || r is Failed,
        Action::CreateObject { .. } => r is ObjectCreated || r is Failed,
        _ => r == Outcome::Applied || r is Failed,
    }
}

/// Actions that validate everything before they change anything: when
/// refused they leave the state, its event ring included, exactly as it was.
pub open spec fn refused_without_effect(action: Action) -> bool {
    match action {
        Action::SetPlayerMaxHandSize { .. } => true,
        Action::SetPlayerLife { .. } => true,
        Action::LoseLife { .. } => true,
        Action::GainLife { .. } => true,
        Action::AddPoisonCounters { .. } => true,
        Action::AddManaToPool { .. } => true,
        Action::ClearManaPool { .. } => true,
        Action::PayMana { .. } => true,
        Action::SetObjectLoyalty { .. } => true,
        Action::RegisterActivatedAbility { .. } => true,
        Action::RegisterCostModifier { .. } => true,
        Action::SetBaseCreatureCharacteristics { .. } => true,
        Action::ClearBaseCreatureCharacteristics { .. } => true,
        Action::SetObjectTapped { .. } => true,
        Action::RegisterReplacementEffect { .. } => true,
        Action::SetReplacementChoiceOrder { .. } => true,
        Action::CreateObject { .. } => true,
        Action::MoveObject { .. } => true,
        _ => false,
    }
}

/// A life change of `amount`, counted up to `i32::MAX`.
pub open spec fn life_delta(amount: u32) -> int {
    if amount <= i32::MAX {
        amount as int
    } else {
        i32::MAX as int
    }
}

/// What applying `action` to `before` is known to give: the outcome, and for
/// the direct mutators the state `after` they leave.
pub open spec fn action_effect(before: GameState, after: GameState, action: Action, r: Outcome) -> bool {
    let players = before.players@;
    match action {
        Action::SetSeed { seed } => after.seed == seed && after.rng_state == seed,
        Action::AddPlayer => r == Outcome::PlayerAdded(PlayerId(players.len() as u32)) && after.players@
            == players.push(
            PlayerState {
                id: PlayerId(players.len() as u32),
                life: 20,
                poison: 0,
                lost: false,
                max_hand_size: 7,
                mulligans_taken: 0,
                opening_hand_kept: false,
                mana_pool: ManaPool::zero(),
            },
        ) && event_logged(before, after, GameEvent::PlayerAdded { player: PlayerId(players.len() as u32) }),
        Action::DecideTurnOrder => (players.len() == 0 ==> r == Outcome::Failed(StateError::NoPlayers))
            && (players.len() > 0 && before.starting_player is Some ==> r == Outcome::Failed(
            StateError::TurnOrderAlreadyDecided,
        )) && (r matches Outcome::TurnOrderDecided(p) ==> p.0 < players.len()
            && after.starting_player == Some(p) && p.0 == scaled_below(
            rng_output(rng_advance(before.rng_state)),
            players.len() as int,
        )) && (players.len() > 0 && players.len() <= u32::MAX + 1 && before.starting_player is None
            ==> r is TurnOrderDecided),
        Action::SetPlayerMaxHandSize { player, max_hand_size } => (r == Outcome::Applied
            <==> player.0 < players.len()) && (r == Outcome::Applied ==> after.players@
            == players.update(player.0 as int, PlayerState { max_hand_size, ..players[player.0 as int] })
            && event_logged(before, after, GameEvent::PlayerMaxHandSizeSet { player, max_hand_size })),
        Action::SetPlayerLife { player, life } => (r == Outcome::Applied <==> player.0 < players.len())
            && (r == Outcome::Applied ==> after.players@ == players.update(
            player.0 as int,
            PlayerState { life, ..players[player.0 as int] },
        ) && event_logged(before, after, GameEvent::LifeTotalSet { player, life })),
        Action::LoseLife { player, amount } => (player.0 >= players.len() ==> r == Outcome::Failed(
            StateError::UnknownPlayer(player),
        )) && (player.0 < players.len() ==> {
            let p = players[player.0 as int];
            &&& p.life - life_delta(amount) < i32::MIN ==> r == Outcome::Failed(
                StateError::LifeTotalOverflow,
            )
            &&& p.life - life_delta(amount) >= i32::MIN ==> r == Outcome::Applied && after.players@
                == players.update(player.0 as int, PlayerState { life: (p.life - life_delta(amount)) as i32, ..p })
                && event_logged(
                before,
                after,
                GameEvent::LifeLost { player, amount, life: (p.life - life_delta(amount)) as i32 },
            )
        }),
        Action::GainLife { player, amount } => (player.0 >= players.len() ==> r == Outcome::Failed(
            StateError::UnknownPlayer(player),
        )) && (player.0 < players.len() ==> {
            let p = players[player.0 as int];
            &&& p.life + life_delta(amount) > i32::MAX ==> r == Outcome::Failed(
                StateError::LifeTotalOverflow,
            )
            &&& p.life + life_delta(amount) <= i32::MAX ==> r == Outcome::Applied && after.players@
                == players.update(player.0 as int, PlayerState { life: (p.life + life_delta(amount)) as i32, ..p })
                && event_logged(
                before,
                after,
                GameEvent::LifeGained { player, amount, life: (p.life + life_delta(amount)) as i32 },
            )
        }),
        Action::AddPoisonCounters { player, amount } => (player.0 >= players.len() ==> r
            == Outcome::Failed(StateError::UnknownPlayer(player))) && (player.0 < players.len() ==> {
            let p = players[player.0 as int];
            &&& p.poison + amount > u32::MAX ==> r == Outcome::Failed(StateError::PoisonCounterOverflow)
            &&& p.poison + amount <= u32::MAX ==> r == Outcome::Applied && after.players@
                == players.update(player.0 as int, PlayerState { poison: (p.poison + amount) as u32, ..p })
                && event_logged(
                before,
                after,
                GameEvent::PoisonCountersAdded { player, amount, poison: (p.poison + amount) as u32 },
            )
        }),
        Action::AddManaToPool { player, mana } => (player.0 >= players.len() ==> r == Outcome::Failed(
            StateError::UnknownPlayer(player),
        )) && (player.0 < players.len() && r is Failed ==> r == Outcome::Failed(
            StateError::ManaValueOverflow,
        )) && (r == Outcome::Applied ==> after.players@[player.0 as int].mana_pool.is_sum_of(
            players[player.0 as int].mana_pool,
            mana,
        )) && (player.0 < players.len() && !pool_add_overflows(players[player.0 as int].mana_pool, mana) ==> r
            == Outcome::Applied && event_logged(
            before,
            after,
            GameEvent::ManaPoolChanged {
                player,
                mana_pool: pool_add(players[player.0 as int].mana_pool, mana),
            },
        )),
        Action::PayMana { player, cost, plan } => (player.0 >= players.len() ==> r == Outcome::Failed(
            StateError::UnknownPlayer(player),
        )) && (player.0 < players.len() && generic_requirement(cost) <= u32::MAX && is_valid_payment(
            players[player.0 as int].mana_pool,
            cost,
            plan,
        ) ==> r == Outcome::Applied) && (r == Outcome::Applied ==> player.0 < players.len()
            && is_valid_payment(players[player.0 as int].mana_pool, cost, plan)
            && after.players@[player.0 as int].mana_pool.is_diff_of(
            players[player.0 as int].mana_pool,
            plan.paid(),
        )),
        Action::ClearManaPool { player } => (r == Outcome::Applied <==> player.0 < players.len()) && (r
            == Outcome::Applied ==> after.players@[player.0 as int].mana_pool == ManaPool::zero() && event_logged(
            before,
            after,
            GameEvent::ManaPoolChanged { player, mana_pool: ManaPool::zero() },
        )),
        Action::SetObjectTapped { object, tapped } => (r == Outcome::Applied
            <==> before.objects.spec_get(object) is Some) && (r == Outcome::Applied
            ==> after.objects.spec_get(object) == Some(
            ObjectRecord { tapped, ..before.objects.spec_get(object)->0 },
        ) && event_logged(before, after, GameEvent::ObjectTapped { object, tapped })),
        Action::SetObjectLoyalty { object, loyalty } => (r == Outcome::Applied
            <==> before.objects.spec_get(object) is Some) && (r == Outcome::Applied
            ==> after.objects.spec_get(object) == Some(
            ObjectRecord { loyalty, ..before.objects.spec_get(object)->0 },
        ) && event_logged(before, after, GameEvent::ObjectLoyaltySet { object, loyalty })),
        Action::SetBaseCreatureCharacteristics { object, base } => (r == Outcome::Applied
            <==> before.objects.spec_get(object) is Some) && (r == Outcome::Applied
            ==> after.objects.spec_get(object) == Some(
            ObjectRecord { base_creature: Some(base), ..before.objects.spec_get(object)->0 },
        )),
        Action::ClearBaseCreatureCharacteristics { object } => (r == Outcome::Applied
            <==> before.objects.spec_get(object) is Some) && (r == Outcome::Applied
            ==> after.objects.spec_get(object) == Some(
            ObjectRecord { base_creature: None, ..before.objects.spec_get(object)->0 },
        )),
        Action::MarkDamageOnObject { object, amount } => (before.objects.spec_get(object) is None ==> r
            == Outcome::Failed(StateError::UnknownObject(object))) && (before.objects.spec_get(
            object,
        ) matches Some(rec) && rec.base_creature is None ==> r == Outcome::Failed(
            StateError::NotACreature(object),
        )) && (before.replacement_effects@.len() == 0 && before.objects.spec_get(object) is Some
            && before.objects.spec_get(object)->0.base_creature is Some && before.objects.spec_get(
            object,
        )->0.damage_marked + amount <= u32::MAX ==> r == Outcome::Applied && after.objects.spec_get(object)
            == Some(
            ObjectRecord {
                damage_marked: (before.objects.spec_get(object)->0.damage_marked + amount) as u32,
                ..before.objects.spec_get(object)->0
            },
        )),
        Action::RegisterReplacementEffect { definition } => (r is ReplacementEffectRegistered
            <==> before.validate_replacement_definition_spec(definition)) && (
        r matches Outcome::ReplacementEffectRegistered(id) ==> id == ReplacementEffectId(
            before.next_replacement,
        )),
        Action::RegisterActivatedAbility { definition } => (definition.controller.0 >= players.len() ==> r
            == Outcome::Failed(StateError::UnknownPlayer(definition.controller))) && (r is ActivatedAbilityRegistered
            <==> definition.controller.0 < players.len() && (definition.source matches Some(s)
            ==> before.objects.spec_get(s) is Some)) && (r matches Outcome::ActivatedAbilityRegistered(id) ==> id
            == ActivatedAbilityId(before.next_activated_ability) && after.activated_abilities@
            == before.activated_abilities@.push((ActivatedAbilitySubscription { id, definition }))),
        Action::RegisterCostModifier { definition } => (definition.controller.0 >= players.len() ==> r
            == Outcome::Failed(StateError::UnknownPlayer(definition.controller))) && (
        r matches Outcome::CostModifierRegistered(id) ==> id == CostModifierId(before.next_cost_modifier)
            && after.cost_modifiers@ == before.cost_modifiers@.push((CostModifierSubscription { id, definition })))
            && (r is CostModifierRegistered <==> definition.controller.0 < players.len() && (definition.source is Some
            ==> before.objects.spec_get(definition.source->0) is Some) && match definition.scope {
            CostModifierScope::Ability(ability) => ability.0 < before.activated_abilities@.len()
                && before.activated_abilities@[ability.0 as int].id == ability,
            CostModifierScope::Source(source) => before.objects.spec_get(source) is Some,
            CostModifierScope::Controller(player) => player.0 < players.len(),
            CostModifierScope::AllActivatedAbilities => true,
        }),
        Action::RegisterTriggeredAbility { definition } => (definition.controller.0 >= players.len() ==> r
            == Outcome::Failed(StateError::UnknownPlayer(definition.controller))) && (
        r matches Outcome::TriggerRegistered(id) ==> id.0 == before.next_trigger && after.trigger_subscriptions@
            == before.trigger_subscriptions@.push(
            TriggerSubscription { id, definition, event_kind: definition.condition.spec_subscribed_event_kind() },
        )) && (r is TriggerRegistered <==> definition.controller.0 < players.len() && (definition.source is Some
            ==> before.objects.spec_get(definition.source->0) is Some)),
        Action::RegisterContinuousEffect { definition } => (definition.controller.0 >= players.len() ==> r
            == Outcome::Failed(StateError::UnknownPlayer(definition.controller))) && (
        r matches Outcome::ContinuousEffectRegistered(id) ==> id.0 == before.next_continuous_effect
            && after.continuous_effects@.len() == before.continuous_effects@.len() + 1
            && after.continuous_effects@.last().id == id) && (r is ContinuousEffectRegistered
            <==> before.continuous_effect_definition_valid(definition)) && (
        r matches Outcome::ContinuousEffectRegistered(id) ==> after.continuous_effects@
            == before.continuous_effects@.push(
            ContinuousEffectSubscription {
                id,
                definition: ContinuousEffectDefinition {
                    timestamp: if definition.timestamp == 0 {
                        (id.0 + 1) as u64
                    } else {
                        definition.timestamp
                    },
                    ..definition
                },
            },
        )),
        Action::ActivateAbility { player, ability, payment } => (!(ability.0
            < before.activated_abilities@.len() && before.activated_abilities@[ability.0 as int].id
            == ability) ==> r == Outcome::Failed(StateError::UnknownActivatedAbility(ability))) && (
        activation_allowed(before, player, ability, payment) ==> r is StackEntryAdded) && (
        r is StackEntryAdded ==> after.stack_entries@.len() == before.stack_entries@.len() + 1
            && after.stack_entries@.last().controller == player
            && after.stack_entries@.last().activated_ability == Some(ability)
            && after.stack_entries@.last().payment == Some(payment)) && (r is StackEntryAdded ==> player.0
            < before.players@.len() && after.players@.len() == before.players@.len()
            && after.players@[player.0 as int].mana_pool.is_diff_of(
            before.players@[player.0 as int].mana_pool,
            payment.paid(),
        )),
        Action::DrawOpeningHands => (before.opening_hands_drawn ==> r == Outcome::Failed(
            StateError::OpeningHandsAlreadyDrawn,
        )) && (!before.opening_hands_drawn && before.starting_player is None ==> r == Outcome::Failed(
            StateError::TurnOrderNotDecided,
        )) && (r == Outcome::Applied ==> after.opening_hands_drawn && after.players@ == players) && (
        !before.opening_hands_drawn && before.starting_player is Some && (before.starting_player->0).0
            < players.len() && players.len() <= u32::MAX + 1 && player_zones_present(
            before.zones@,
            players.len() as int,
        ) ==> r == Outcome::Applied) && (r == Outcome::Applied ==> forall|p: int|
            0 <= p < players.len() ==> #[trigger] drew_opening_hand(before.zones@, after.zones@, p)),
        Action::TakeMulligan { player } => (player.0 >= players.len() ==> r == Outcome::Failed(
            StateError::UnknownPlayer(player),
        )) && (player.0 < players.len() && !before.opening_hands_drawn ==> r == Outcome::Failed(
            StateError::OpeningHandsNotDrawn,
        )) && (player.0 < players.len() && before.opening_hands_drawn && players[player.0 as int].opening_hand_kept
            ==> r == Outcome::Failed(StateError::MulliganAfterKeep(player))) && (r == Outcome::Applied
            ==> after.players@[player.0 as int].mulligans_taken == players[player.0 as int].mulligans_taken + 1)
            && (player.0 < players.len() && before.opening_hands_drawn && !players[player.0 as int].opening_hand_kept
            && players[player.0 as int].mulligans_taken < u32::MAX && has_library_and_hand(
            before.zones@,
            player.0 as int,
        ) ==> r == Outcome::Applied),
        Action::KeepOpeningHand { player, bottom } => (player.0 >= players.len() ==> r == Outcome::Failed(
            StateError::UnknownPlayer(player),
        )) && (player.0 < players.len() && !before.opening_hands_drawn ==> r == Outcome::Failed(
            StateError::OpeningHandsNotDrawn,
        )) && (player.0 < players.len() && before.opening_hands_drawn && players[player.0 as int].opening_hand_kept
            ==> r == Outcome::Failed(StateError::OpeningHandAlreadyKept(player))) && (r == Outcome::Applied
            ==> after.players@[player.0 as int].opening_hand_kept) && (r is Failed && zone_ids_distinct(
            before.zones@,
        ) ==> after == before) && (player.0 < players.len() && before.opening_hands_drawn
            && !players[player.0 as int].opening_hand_kept && players[player.0 as int].mulligans_taken == (
        if bottom@.len() <= u32::MAX {
            bottom@.len() as int
        } else {
            u32::MAX as int
        }) && (forall|a: int, b: int| 0 <= a < b < bottom@.len() ==> bottom@[a] != bottom@[b]) && (forall|q: int|
            0 <= q < bottom@.len() ==> zone_of(before.zones@, #[trigger] bottom@[q]) == Some(
                ZoneId { owner: Some(player), kind: ZoneKind::Hand },
            )) && has_library_and_hand(before.zones@, player.0 as int) && zone_ids_distinct(before.zones@)
            ==> r == Outcome::Applied) && (r == Outcome::Applied ==> exists|hi: int, li: int|
            #[trigger] zone_at(before.zones@, ZoneId { owner: Some(player), kind: ZoneKind::Hand }, hi)
                && #[trigger] zone_at(before.zones@, ZoneId { owner: Some(player), kind: ZoneKind::Library }, li)
                && after.zones@[hi].objects@ == without_each(before.zones@[hi].objects@, bottom@)
                && after.zones@[li].objects@ == bottom@ + before.zones@[li].objects@),
        Action::PutSpellOnStack { player, object, .. } => (before.priority_player is None ==> r
            == Outcome::Failed(StateError::NoPriority)) && (before.priority_player == Some(player) && player.0
            < players.len() && before.objects.spec_get(object) is None ==> r == Outcome::Failed(
            StateError::UnknownObject(object),
        )) && (r matches Outcome::StackEntryAdded(id) ==> id == StackEntryId(before.next_stack_entry)) && (
        before.priority_player == Some(player) && player.0 < players.len() && before.objects.spec_get(object) is Some
            && zone_of(before.zones@, object) is Some && zone_of(before.zones@, object) != Some(
            ZoneId { owner: None, kind: ZoneKind::Battlefield },
        ) && (exists|j: int|
            0 <= j < before.zones@.len() && #[trigger] before.zones@[j].id == (ZoneId {
                owner: None,
                kind: ZoneKind::Stack,
            })) && sba_quiet(before) ==> r is StackEntryAdded),
        Action::PutAbilityOnStack { player, kind, .. } => (before.priority_player is None ==> r
            == Outcome::Failed(StateError::NoPriority)) && (r matches Outcome::StackEntryAdded(id) ==> id
            == StackEntryId(before.next_stack_entry) && after.stack_entries@.len()
            == before.stack_entries@.len() + 1 && after.stack_entries@.drop_last() == before.stack_entries@
            && after.stack_entries@.last().id == id && after.stack_entries@.last().controller == player
            && after.stack_entries@.last().kind == kind && after.priority_pass_count == 0 && (after.outcome
            == GameOutcome::InProgress && after.pending_triggers@.len() == 0 ==> after.priority_player
            == Some(player))) && (before.priority_player == Some(player) && player.0 < players.len()
            && sba_quiet(before) ==> r is StackEntryAdded),
        Action::PutSimultaneousAbilitiesApnap { abilities, .. } => (before.active_player is None ==> r
            == Outcome::Failed(StateError::TurnNotStarted)) && (r matches Outcome::StackEntriesAdded(ids)
            ==> after.stack_entries@.len() == before.stack_entries@.len() + ids@.len()) && (
        r is StackEntriesAdded ==> after.priority_pass_count == 0 && after.stack_entries@.subrange(
            0,
            before.stack_entries@.len() as int,
        ) == before.stack_entries@ && entry_controllers(
            after.stack_entries@.skip(before.stack_entries@.len() as int),
        ) == apnap_controllers(apnap_order(players.len() as int, before.active_player->0), abilities@))
            && (before.active_player is Some && (before.active_player->0).0 < players.len() && players.len()
            <= u32::MAX + 1 && (forall|k: int| 0 <= k < abilities@.len() ==> (#[trigger] abilities@[k]).0
            < players.len()) ==> r is StackEntriesAdded),
        Action::PutPendingTriggeredAbilitiesOnStack => (before.active_player is None ==> r == Outcome::Failed(
            StateError::TurnNotStarted,
        )) && (before.active_player is Some && before.pending_triggers@.len() == 0 ==> (
        r matches Outcome::StackEntriesAdded(ids) && ids@.len() == 0)) && (r is StackEntriesAdded
            ==> after.stack_entries@.subrange(0, before.stack_entries@.len() as int) == before.stack_entries@
            && entry_triggers(after.stack_entries@.skip(before.stack_entries@.len() as int))
            == apnap_triggers(apnap_order(players.len() as int, before.active_player->0), before.pending_triggers@))
            && (before.active_player is Some && (before.active_player->0).0 < players.len() && players.len()
            <= u32::MAX + 1 && sba_quiet(before) ==> r is StackEntriesAdded),
        Action::SetReplacementChoiceOrder { chooser, order } => (chooser.0 >= players.len() ==> r
            == Outcome::Failed(StateError::UnknownPlayer(chooser))) && (r == Outcome::Applied <==> {
            &&& chooser.0 < players.len()
            &&& forall|i: int, j: int| 0 <= i < j < order@.len() ==> order@[i] != order@[j]
            &&& forall|i: int|
                0 <= i < order@.len() ==> replacement_registered(before.replacement_effects@, #[trigger] order@[i])
        }),
        Action::StartTurn { active_player } => (active_player.0 >= players.len() ==> r
            == Outcome::Failed(StateError::UnknownPlayer(active_player))) && (active_player.0
            < players.len() && before.starting_player is Some && before.starting_player != Some(
            active_player,
        ) ==> r == Outcome::Failed(
            StateError::StartingPlayerMismatch {
                expected: before.starting_player->0,
                actual: active_player,
            },
        )) && (active_player.0 < players.len() && before.starting_player is None
            && before.current_step is Some ==> r == Outcome::Failed(StateError::TurnAlreadyStarted))
            && (r == Outcome::Applied ==> before.current_step is None && after.active_player == Some(
            active_player,
        ) && after.current_step == Some(Step::Untap) && after.turn_number == before.turn_number + 1
            && after.priority_player is None) && (active_player.0 < players.len() && (before.starting_player is None
            || (before.starting_player == Some(active_player) && before.opening_hands_drawn && forall|i: int|
            0 <= i < players.len() ==> (#[trigger] players[i]).opening_hand_kept)) && before.current_step is None
            && before.turn_number < u32::MAX ==> r == Outcome::Applied),
        Action::AdvanceStep => (before.current_step is None ==> r == Outcome::Failed(
            StateError::TurnNotStarted,
        )) && (r matches Outcome::StepAdvanced(next) ==> after.current_step == Some(next)) && (
        before.current_step is Some && before.current_step != Some(Step::Cleanup) && following_step(
            before,
            before.current_step->0,
        ) != Step::Draw && following_step(before, before.current_step->0) != Step::Cleanup && sba_quiet(
            before,
        ) ==> r == Outcome::StepAdvanced(following_step(before, before.current_step->0))) && (step_can_end(
            before,
        ) ==> r is StepAdvanced) && (r is StepAdvanced && !(before.current_step == Some(Step::Cleanup)
            && !before.cleanup_repeat_pending) ==> r == Outcome::StepAdvanced(
            following_step(before, before.current_step->0),
        )) && (
        r == Outcome::StepAdvanced(Step::Draw) && !first_draw_skipped(before) ==> drew_turn_card(
            before.zones@,
            after.zones@,
            before.active_player->0,
        )) && (r is StepAdvanced && before.current_step == Some(Step::End) ==> after.last_cleanup_report
            == cleanup_report_from(
            before,
            markers_without(before.duration_markers@, EffectDuration::UntilStepBegins(Step::Cleanup)),
        )),
        Action::CastSpell { player, object, request } => (before.priority_player is None ==> r == Outcome::Failed(
            StateError::NoPriority,
        )) && (before.priority_player is Some && before.priority_player != Some(player) ==> r
            == Outcome::Failed(
            StateError::PriorityPlayerMismatch { expected: before.priority_player->0, actual: player },
        )) && (r matches Outcome::StackEntryAdded(id) ==> id == StackEntryId(before.next_stack_entry))
            && (cast_allowed(before, player, object, request) ==> r is StackEntryAdded) && (
        r is StackEntryAdded ==> after.stack_entries@.len() == before.stack_entries@.len() + 1
            && after.stack_entries@.last().controller == player && after.stack_entries@.last().object
            == Some(object) && after.stack_entries@.last().payment == Some(request.payment)) && (
        r is StackEntryAdded ==> player.0 < players.len() && after.players@.len() == players.len()
            && after.players@[player.0 as int].mana_pool.is_diff_of(
            players[player.0 as int].mana_pool,
            request.payment.paid(),
        ) && exists|j: int|
            0 <= j < after.zones@.len() && after.zones@[j].id == (ZoneId {
                owner: None,
                kind: ZoneKind::Stack,
            }) && #[trigger] after.zones@[j].objects@.contains(object)),
        Action::DeclareAttackers { player, attacks } => (attack_declaration_check(before, player, attacks@) matches Err(
            e,
        ) ==> r == Outcome::Failed(e) && after == before) && (r == Outcome::Applied
            ==> attack_declaration_check(before, player, attacks@) is Ok
            && after.attackers_declared_this_combat == (attacks@.len() > 0)) && (r == Outcome::Applied
            ==> after.objects.records@.len() == before.objects.records@.len() && forall|i: int|
            0 <= i < before.objects.records@.len() ==> #[trigger] after.objects.records@[i].tapped == (
            before.objects.records@[i].tapped || attack_taps(before, attacks@, i, attacks@.len() as int))) && (attack_declaration_check(
            before,
            player,
            attacks@,
        ) is Ok && sba_quiet(before) ==> r == Outcome::Applied && after.combat.attackers@.len() == attacks@.len()
            && forall|i: int|
            0 <= i < attacks@.len() ==> {
                &&& (#[trigger] after.combat.attackers@[i]).object == attacks@[i].attacker
                &&& after.combat.attackers@[i].defending_player == attacks@[i].defending_player
                &&& !after.combat.attackers@[i].blocked
                &&& after.combat.attackers@[i].blockers@.len() == 0
            }),
        Action::DeclareBlockers { defending_player, blocks } => (block_declaration_check(
            before,
            defending_player,
            blocks@,
        ) matches Err(e) ==> r == Outcome::Failed(e) && after == before) && (r == Outcome::Applied
            ==> block_declaration_check(before, defending_player, blocks@) is Ok) && (block_declaration_check(
            before,
            defending_player,
            blocks@,
        ) is Ok && sba_quiet(before) ==> r == Outcome::Applied && after.combat.blockers@ == blocks@.map_values(
            |b: BlockDeclaration| BlockingCreature { object: b.blocker, attacker: b.attacker },
        )),
        Action::AssignCombatDamage { assignments } => (damage_assignment_check(before, assignments@) matches Err(
            e,
        ) ==> r == Outcome::Failed(e) && after == before) && (damage_assignment_check(before, assignments@) is Ok
            && before.replacement_effects@.len() == 0 && combat_damage_fits(before, assignments@) && sba_settles(
            before,
        ) ==> r is CombatDamageAssigned) && (r is CombatDamageAssigned
            ==> damage_assignment_check(before, assignments@) is Ok) && (r matches Outcome::CombatDamageAssigned(
            records,
        ) ==> (before.replacement_effects@.len() == 0 ==> dealt_damage(records@) == requested_damage(
            assignments@,
        ))) && (r matches Outcome::CombatDamageAssigned(records) ==> (before.replacement_effects@.len() == 0
            && (forall|k: int| 0 <= k < records@.len() ==> !(#[trigger] records@[k]).source_had_lifelink)
            ==> after.players@.len() == players_after_all_damage(players, records@).len() && forall|i: int|
            0 <= i < after.players@.len() ==> #[trigger] after.players@[i].life == players_after_all_damage(
                players,
                records@,
            )[i].life)) && (r matches Outcome::CombatDamageAssigned(records) ==> (before.replacement_effects@.len()
            == 0 && zones_conserved(before) ==> forall|o: ObjectId|
            #[trigger] battlefield_objects(after).contains(o) && o.0 < before.objects.records@.len()
                ==> after.objects.records@[o.0 as int].damage_marked == before.objects.records@[o.0 as int].damage_marked
                + total_damage_on(records@, o))),
        Action::CheckStateBasedActions => (r is StateBasedActions ==> no_player_loss_pending(after.players@)
            && no_creature_death_pending(after)) && (r is StateBasedActions && !no_player_loss_pending(
            players,
        ) ==> after.outcome == outcome_for(after.players@) && (after.outcome != GameOutcome::InProgress
            ==> after.priority_player is None)) && (sba_quiet(before) ==> r is StateBasedActions) && (sba_settles(
            before,
        ) ==> r is StateBasedActions) && (r matches Outcome::StateBasedActions(report) ==> (report.iterations
            == 0 <==> sba_quiet(before))) && (r is StateBasedActions && players.len() <= u32::MAX
            ==> r->StateBasedActions_0.players_lost == players_in_game(players) - players_in_game(after.players@)) && (
        r is StateBasedActions && ids_match_positions(before) ==> forall|p: PlayerId|
            p.0 < players.len() && #[trigger] after.players@[p.0 as int].lost ==> players[p.0 as int].lost
                || player_due_to_lose(before, p)),
        Action::SetAttackersDeclaredThisCombat { attackers_declared } => after == (GameState {
            attackers_declared_this_combat: attackers_declared,
            ..before
        }),
        Action::RequestCleanupPriority => after.cleanup_priority_requested,
        Action::AddDurationMarker { duration } => r == Outcome::DurationMarkerAdded(
            DurationMarkerId(before.next_duration_marker),
        ) && after.duration_markers@ == before.duration_markers@.push(
            (DurationMarker { id: DurationMarkerId(before.next_duration_marker), duration }),
        ),
        Action::CreateObject { card, owner, controller, zone } => (owner.0 >= players.len() ==> r
            == Outcome::Failed(StateError::UnknownPlayer(owner))) && (r is ObjectCreated <==> owner.0
            < players.len() && controller.0 < players.len() && zone_id_valid(zone, players.len() as int) && exists|
            j: int,
        | 0 <= j < before.zones@.len() && #[trigger] before.zones@[j].id == zone) && (r matches Outcome::ObjectCreated(
            object,
        ) ==> object.0 == before.objects.records@.len() as u32 && after.objects.records@
            == before.objects.records@.push(
            ObjectRecord {
                id: object,
                card,
                owner,
                controller,
                tapped: false,
                base_creature: None,
                damage_marked: 0,
                deathtouch_damage_marked: false,
                loyalty: None,
                controlled_since_turn: before.turn_number,
            },
        ) && exists|i: int|
            0 <= i < after.zones@.len() && after.zones@[i].id == zone
                && after.zones@[i].objects@ == before.zones@[i].objects@.push(object)),
        Action::MoveObject { object, to } => (before.objects.spec_get(object) is None ==> r
            == Outcome::Failed(StateError::UnknownObject(object))) && (before.objects.spec_get(object) is Some
            && zone_id_valid(to, players.len() as int) && (exists|j: int|
            0 <= j < before.zones@.len() && #[trigger] before.zones@[j].id == to) && (exists|j: int|
            0 <= j < before.zones@.len() && #[trigger] before.zones@[j].objects@.contains(object))
            ==> r == Outcome::Applied) && (r == Outcome::Applied ==> exists|i: int|
            0 <= i < after.zones@.len() && after.zones@[i].id == to
                && #[trigger] after.zones@[i].objects@.contains(object)),
        _ => true,
    }
}

/// What passing priority does: the direct route to the next player changes only
/// who holds priority and the pass count; every refusal and every completed
/// round is reported as `GameState::pass_priority` reports it.
pub open spec fn priority_pass_effect(before: GameState, after: GameState, player: PlayerId, r: Outcome) -> bool {
    let waiting = before.pending_triggers@.len() == 0;
    let holds = waiting && before.priority_player == Some(player);
    let round_done = before.priority_pass_count + 1 >= before.players@.len();
    &&& (holds && !round_done ==> {
        let next = if player.0 + 1 == before.players@.len() {
            PlayerId(0)
        } else {
            PlayerId((player.0 + 1) as u32)
        };
        &&& r == Outcome::Priority(PriorityOutcome::PassedTo(next))
        &&& after == (GameState {
            priority_player: Some(next),
            priority_pass_count: (before.priority_pass_count + 1) as u32,
            ..before
        })
    })
    &&& (!waiting ==> r == Outcome::Failed(StateError::PendingTriggeredAbilities))
    &&& (waiting && before.priority_player is None ==> r == Outcome::Failed(StateError::NoPriority))
    &&& (waiting && before.priority_player is Some && before.priority_player != Some(player) ==> r
        == Outcome::Failed(
        StateError::PriorityPlayerMismatch { expected: before.priority_player->0, actual: player },
    ))
    &&& (holds && round_done && before.stack_entries@.len() == 0 && !(r is Failed) ==> r
        == Outcome::Priority(PriorityOutcome::StepComplete))
    &&& (holds && round_done && before.stack_entries@.len() > 0 && !(r is Failed) ==> r
        == Outcome::Priority(PriorityOutcome::Resolved(before.stack_entries@.last().id)))
    &&& (holds && round_done && !(r is Failed) ==> round_completed(before, after))
    &&& (holds && round_done && step_ends_cleanly(before) ==> r == Outcome::Priority(
        PriorityOutcome::StepComplete,
    ))
    &&& (holds && round_done && top_resolves_cleanly(before) ==> r == Outcome::Priority(
        PriorityOutcome::Resolved(before.stack_entries@.last().id),
    ))
    &&& (r is Priority || r is Failed)
}

/// Applies one external action through the kernel boundary.
pub fn apply(state: &mut GameState, action: Action) -> (r: Outcome)
    requires
        pass_priority_fits(*old(state), action),
    ensures
        outcome_fits_action(action, r),
        refused_without_effect(action) && r is Failed ==> *final(state) == *old(state),
        action_effect(*old(state), *final(state), action, r),
        zones_conserved(*old(state)) && old(state).players@.len() <= u32::MAX && old(
            state,
        ).objects.records@.len() <= u32::MAX && (!(action is KeepOpeningHand && r is Failed)
            || zone_ids_distinct(old(state).zones@))
            ==> zones_conserved(*final(state)),
        events_bounded(*old(state)) ==> events_bounded(*final(state)),
        action matches Action::PassPriority { player } ==> priority_pass_effect(
            *old(state),
            *final(state),
            player,
            r,
        ),
{
    match action {
        Action::PassPriority { player } => apply_pass_priority(state, player),
        _ => apply_fallback(state, action),
    }
}

/// Passes priority, taking the direct route when it only moves to the next player.
fn apply_pass_priority(state: &mut GameState, player: PlayerId) -> (r: Outcome)
    requires
        old(state).pending_triggers@.len() == 0 && old(state).priority_player == Some(player) ==> {
            &&& old(state).priority_pass_count < u32::MAX
            &&& old(state).players@.len() <= u32::MAX
            &&& player.0 < u32::MAX
        },
    ensures
        zones_conserved(*old(state)) ==> zones_conserved(*final(state)),
        events_bounded(*old(state)) ==> events_bounded(*final(state)),
        priority_pass_effect(*old(state), *final(state), player, r),
        r is Priority || r is Failed,
{
    if state.pending_triggers.len() == 0 && state.priority_player == Some(player) {
        let pass_count = state.priority_pass_count + 1;
        let player_count = state.players.len() as u32;
        if pass_count < player_count {
            state.priority_pass_count = pass_count;
            let next_index = player.0 + 1;
            let next_index = if next_index == player_count {
                0
            } else {
                next_index
            };
            let next = PlayerId(next_index);
            state.priority_player = Some(next);
            return Outcome::Priority(PriorityOutcome::PassedTo(next));
        }
    }
    match state.pass_priority(player) {
        Ok(outcome) => Outcome::Priority(outcome),
        Err(error) => Outcome::Failed(error),
    }
}

/// Applies every action other than passing priority.
fn apply_fallback(state: &mut GameState, action: Action) -> (r: Outcome)
    requires
        pass_priority_fits(*old(state), action),
    ensures
        outcome_fits_action(action, r),
        refused_without_effect(action) && r is Failed ==> *final(state) == *old(state),
        action_effect(*old(state), *final(state), action, r),
        zones_conserved(*old(state)) && old(state).players@.len() <= u32::MAX && old(
            state,
        ).objects.records@.len() <= u32::MAX && (!(action is KeepOpeningHand && r is Failed)
            || zone_ids_distinct(old(state).zones@))
            ==> zones_conserved(*final(state)),
        events_bounded(*old(state)) ==> events_bounded(*final(state)),
{
    match action {
        Action::SetSeed { seed } => {
            state.set_seed(seed);
            Outcome::Applied
        }
        Action::AddPlayer => Outcome::PlayerAdded(state.add_player()),
        Action::DecideTurnOrder => match state.decide_turn_order() {
            Ok(player) => Outcome::TurnOrderDecided(player),
            Err(error) => Outcome::Failed(error),
        },
        Action::DrawOpeningHands => match state.draw_opening_hands() {
            Ok(()) => Outcome::Applied,
            Err(error) => Outcome::Failed(error),
        },
        Action::TakeMulligan { player } => match state.take_mulligan(player) {
            Ok(()) => Outcome::Applied,
            Err(error) => Outcome::Failed(error),
        },
        Action::KeepOpeningHand { player, bottom } => {
            match state.keep_opening_hand(player, bottom.as_slice()) {
                Ok(()) => Outcome::Applied,
                Err(error) => Outcome::Failed(error),
            }
        }
        Action::SetPlayerMaxHandSize {
            player,
            max_hand_size,
        } => match state.set_player_max_hand_size(player, max_hand_size) {
            Ok(()) => Outcome::Applied,
            Err(error) => Outcome::Failed(error),
        },
        Action::SetPlayerLife { player, life } => match state.set_player_life(player, life) {
            Ok(()) => Outcome::Applied,
            Err(error) => Outcome::Failed(error),
        },
        Action::LoseLife { player, amount } => match state.lose_life(player, amount) {
            Ok(()) => Outcome::Applied,
            Err(error) => Outcome::Failed(error),
        },
        Action::GainLife { player, amount } => match state.gain_life(player, amount) {
            Ok(()) => Outcome::Applied,
            Err(error) => Outcome::Failed(error),
        },
        Action::AddPoisonCounters { player, amount } => {
            match state.add_poison_counters(player, amount) {
                Ok(()) => Outcome::Applied,
                Err(error) => Outcome::Failed(error),
            }
        }
        Action::AddManaToPool { player, mana } => match state.add_mana_to_pool(player, mana) {
            Ok(()) => Outcome::Applied,
            Err(error) => Outcome::Failed(error),
        },
        Action::ClearManaPool { player } => match state.clear_mana_pool(player) {
            Ok(()) => Outcome::Applied,
            Err(error) => Outcome::Failed(error),
        },
        Action::PayMana { player, cost, plan } => match state.pay_mana(player, cost, plan) {
            Ok(()) => Outcome::Applied,
            Err(error) => Outcome::Failed(error),
        },
        Action::SetObjectLoyalty { object, loyalty } => {
            match state.set_object_loyalty(object, loyalty) {
                Ok(()) => Outcome::Applied,
                Err(error) => Outcome::Failed(error),
            }
        }
        Action::RegisterActivatedAbility { definition } => {
            match state.register_activated_ability(definition) {
                Ok(ability) => Outcome::ActivatedAbilityRegistered(ability),
                Err(error) => Outcome::Failed(error),
            }
        }
        Action::RegisterCostModifier { definition } => {
            match state.register_cost_modifier(definition) {
                Ok(modifier) => Outcome::CostModifierRegistered(modifier),
                Err(error) => Outcome::Failed(error),
            }
        }
        Action::ActivateAbility {
            player,
            ability,
            payment,
        } => match state.activate_ability(player, ability, payment) {
            Ok(Some(entry)) => Outcome::StackEntryAdded(entry),
            Ok(None) => Outcome::Applied,
            Err(error) => Outcome::Failed(error),
        },
        Action::SetBaseCreatureCharacteristics { object, base } => {
            match state.set_base_creature_characteristics(object, base) {
                Ok(()) => Outcome::Applied,
                Err(error) => Outcome::Failed(error),
            }
        }
        Action::ClearBaseCreatureCharacteristics { object } => {
            match state.clear_base_creature_characteristics(object) {
                Ok(()) => Outcome::Applied,
                Err(error) => Outcome::Failed(error),
            }
        }
        Action::SetObjectTapped { object, tapped } => {
            match state.set_object_tapped(object, tapped) {
                Ok(()) => Outcome::Applied,
                Err(error) => Outcome::Failed(error),
            }
        }
        Action::MarkDamageOnObject { object, amount } => {
            match state.mark_damage_on_object(object, amount) {
                Ok(()) => Outcome::Applied,
                Err(error) => Outcome::Failed(error),
            }
        }
        Action::CheckStateBasedActions => match state.check_state_based_actions() {
            Ok(report) => Outcome::StateBasedActions(report),
            Err(error) => Outcome::Failed(error),
        },
        Action::StartTurn { active_player } => match state.start_turn(active_player) {
            Ok(()) => Outcome::Applied,
            Err(error) => Outcome::Failed(error),
        },
        Action::AdvanceStep => match state.advance_step() {
            Ok(step) => Outcome::StepAdvanced(step),
            Err(error) => Outcome::Failed(error),
        },
        Action::PassPriority { player } => apply_pass_priority(state, player),
        Action::CastSpell {
            player,
            object,
            request,
        } => match state.cast_spell(player, object, request) {
            Ok(entry) => Outcome::StackEntryAdded(entry),
            Err(error) => Outcome::Failed(error),
        },
        Action::PutSpellOnStack {
            player,
            object,
            kind,
            hold_priority,
        } => match state.put_spell_on_stack(player, object, kind, hold_priority) {
            Ok(entry) => Outcome::StackEntryAdded(entry),
            Err(error) => Outcome::Failed(error),
        },
        Action::PutAbilityOnStack {
            player,
            kind,
            hold_priority,
        } => match state.put_ability_on_stack(player, kind, hold_priority) {
            Ok(entry) => Outcome::StackEntryAdded(entry),
            Err(error) => Outcome::Failed(error),
        },
        Action::PutSimultaneousAbilitiesApnap { abilities, kind } => {
            match state.put_simultaneous_abilities_apnap(abilities.as_slice(), kind) {
                Ok(entries) => Outcome::StackEntriesAdded(entries),
                Err(error) => Outcome::Failed(error),
            }
        }
        Action::RegisterTriggeredAbility { definition } => {
            match state.register_triggered_ability(definition) {
                Ok(trigger) => Outcome::TriggerRegistered(trigger),
                Err(error) => Outcome::Failed(error),
            }
        }
        Action::PutPendingTriggeredAbilitiesOnStack => {
            match state.put_pending_triggered_abilities_on_stack() {
                Ok(entries) => Outcome::StackEntriesAdded(entries),
                Err(error) => Outcome::Failed(error),
            }
        }
        Action::RegisterReplacementEffect { definition } => {
            match state.register_replacement_effect(definition) {
                Ok(replacement) => Outcome::ReplacementEffectRegistered(replacement),
                Err(error) => Outcome::Failed(error),
            }
        }
        Action::SetReplacementChoiceOrder { chooser, order } => {
            match state.set_replacement_choice_order(chooser, order) {
                Ok(()) => Outcome::Applied,
                Err(error) => Outcome::Failed(error),
            }
        }
        Action::RegisterContinuousEffect { definition } => {
            match state.register_continuous_effect(definition) {
                Ok(effect) => Outcome::ContinuousEffectRegistered(effect),
                Err(error) => Outcome::Failed(error),
            }
        }
        Action::SetAttackersDeclaredThisCombat { attackers_declared } => {
            state.set_attackers_declared_this_combat(attackers_declared);
            Outcome::Applied
        }
        Action::DeclareAttackers { player, attacks } => {
            match state.declare_attackers(player, attacks.as_slice()) {
                Ok(()) => Outcome::Applied,
                Err(error) => Outcome::Failed(error),
            }
        }
        Action::DeclareBlockers {
            defending_player,
            blocks,
        } => match state.declare_blockers(defending_player, blocks.as_slice()) {
            Ok(()) => Outcome::Applied,
            Err(error) => Outcome::Failed(error),
        },
        Action::AssignCombatDamage { assignments } => {
            match state.assign_combat_damage(assignments.as_slice()) {
                Ok(records) => Outcome::CombatDamageAssigned(records),
                Err(error) => Outcome::Failed(error),
            }
        }
        Action::RequestCleanupPriority => {
            state.request_cleanup_priority();
            Outcome::Applied
        }
        Action::AddDurationMarker { duration } => {
            Outcome::DurationMarkerAdded(state.add_duration_marker(duration))
        }
        Action::CreateObject {
            card,
            owner,
            controller,
            zone,
        } => match state.create_object(card, owner, controller, zone) {
            Ok(object) => Outcome::ObjectCreated(object),
            Err(error) => Outcome::Failed(error),
        },
        Action::MoveObject { object, to } => match state.move_object(object, to) {
            Ok(()) => Outcome::Applied,
            Err(error) => Outcome::Failed(error),
        },
    }
}

} // verus!
