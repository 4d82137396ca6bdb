//! Activated abilities: registration, cost modifiers, the effective cost,
//! activation with its mana and non-mana costs, and resolution of effects.

use vstd::prelude::*;

use crate::abilities::{
    AbilityPlayer, ActivatedAbilityDefinition, ActivatedAbilityEffect, ActivationCost,
    ActivationTiming, CostModifierDefinition, CostModifierOperation, CostModifierScope,
    StackEntryRequest, StackObjectKind,
};
use crate::events::GameEvent;
use crate::ids::{ActivatedAbilityId, CostModifierId, ObjectId, PlayerId, StackEntryId};
use crate::mana::{
    ManaCost, ManaPool, PaymentPlan, colored_requirement, generic_requirement, is_valid_payment, pool_add_overflows,
    validate_payment_plan,
};
use crate::plumbing::{contains_object, events_bounded, zones_conserved};
use crate::action::life_delta;
use crate::layers::characteristics_of;
use crate::outcome::GameOutcome;
use crate::sba::{lemma_sba_quiet_kept, lemma_sba_quiet_mana, sba_quiet};
use crate::state::{
    ActivatedAbilitySubscription, CostModifierSubscription, GameState, PlayerState, StateError,
};
use crate::turn::{ZoneId, ZoneKind};

verus! {

/// The player an ability affects: its controller, or one exact player.
pub open spec fn ability_target(controller: PlayerId, player: AbilityPlayer) -> PlayerId {
    match player {
        AbilityPlayer::Controller => controller,
        AbilityPlayer::Player(p) => p,
    }
}

/// The effect of an ability with `definition`, controlled by `player`, can
/// take place on `players`: its player exists, and the new mana pool or life
/// total fits.
pub open spec fn ability_effect_possible(players: Seq<PlayerState>, player: PlayerId, definition: ActivatedAbilityDefinition) -> bool {
    match definition.effect {
        ActivatedAbilityEffect::AddMana { player: p, mana } => {
            let t = ability_target(player, p);
            t.0 < players.len() && !pool_add_overflows(players[t.0 as int].mana_pool, mana)
        },
        ActivatedAbilityEffect::GainLife { player: p, amount } => {
            let t = ability_target(player, p);
            t.0 < players.len() && players[t.0 as int].life + life_delta(amount) <= i32::MAX
        },
        ActivatedAbilityEffect::LoseLife { player: p, amount } => {
            let t = ability_target(player, p);
            t.0 < players.len() && players[t.0 as int].life - life_delta(amount) >= i32::MIN
        },
    }
}

/// The players after an ability with `definition`, controlled by `player`,
/// took effect on `before`: its target gained the mana, gained or lost the life.
pub open spec fn ability_effect_applied(
    before: Seq<PlayerState>,
    after: Seq<PlayerState>,
    player: PlayerId,
    definition: ActivatedAbilityDefinition,
) -> bool {
    match definition.effect {
        ActivatedAbilityEffect::AddMana { player: p, mana } => {
            let t = ability_target(player, p);
            &&& t.0 < before.len() && after.len() == before.len()
            &&& after[t.0 as int].mana_pool.is_sum_of(before[t.0 as int].mana_pool, mana)
        },
        ActivatedAbilityEffect::GainLife { player: p, amount } => {
            let t = ability_target(player, p);
            &&& t.0 < before.len()
            &&& after == before.update(
                t.0 as int,
                PlayerState { life: (before[t.0 as int].life + life_delta(amount)) as i32, ..before[t.0 as int] },
            )
        },
        ActivatedAbilityEffect::LoseLife { player: p, amount } => {
            let t = ability_target(player, p);
            &&& t.0 < before.len()
            &&& after == before.update(
                t.0 as int,
                PlayerState { life: (before[t.0 as int].life - life_delta(amount)) as i32, ..before[t.0 as int] },
            )
        },
    }
}

/// A cost after one modifier, or `None` when a value would overflow.
pub open spec fn modified_cost(cost: ManaCost, operation: CostModifierOperation) -> Option<ManaCost> {
    match operation {
        CostModifierOperation::AddManaCost(additional) => {
            if cost.white + additional.white > u32::MAX || cost.blue + additional.blue > u32::MAX
                || cost.black + additional.black > u32::MAX || cost.red + additional.red > u32::MAX
                || cost.green + additional.green > u32::MAX || generic_requirement(cost) > u32::MAX
                || generic_requirement(additional) > u32::MAX || generic_requirement(cost)
                + generic_requirement(additional) > u32::MAX {
                None
            } else {
                Some(
                    ManaCost {
                        white: (cost.white + additional.white) as u32,
                        blue: (cost.blue + additional.blue) as u32,
                        black: (cost.black + additional.black) as u32,
                        red: (cost.red + additional.red) as u32,
                        green: (cost.green + additional.green) as u32,
                        generic: (generic_requirement(cost) + generic_requirement(additional)) as u32,
                        x_count: 0,
                        x_value: 0,
                    },
                )
            }
        },
        CostModifierOperation::AddGeneric(amount) => {
            if generic_requirement(cost) + amount > u32::MAX {
                None
            } else {
                Some(
                    ManaCost {
                        generic: (generic_requirement(cost) + amount) as u32,
                        x_count: 0,
                        x_value: 0,
                        ..cost
                    },
                )
            }
        },
        CostModifierOperation::ReduceGeneric(amount) => {
            if generic_requirement(cost) > u32::MAX {
                None
            } else {
                Some(
                    ManaCost {
                        generic: if generic_requirement(cost) >= amount {
                            (generic_requirement(cost) - amount) as u32
                        } else {
                            0u32
                        },
                        x_count: 0,
                        x_value: 0,
                        ..cost
                    },
                )
            }
        },
    }
}

/// Cost modifiers act on the generic part as their names say and never on
/// the colored pips: `AddGeneric(n)` raises the generic amount by `n`,
/// `ReduceGeneric(n)` lowers it by `n` down to zero, and `AddManaCost(m)`
/// adds `m` pip by pip and generic to generic. Each succeeds exactly when
/// the amounts it computes fit in `u32`, and the result has no X symbols.
pub proof fn lemma_cost_modifiers_act_on_their_parts(cost: ManaCost, operation: CostModifierOperation)
    ensures
        operation matches CostModifierOperation::ReduceGeneric(n) ==> {
            &&& modified_cost(cost, operation) is Some <==> generic_requirement(cost) <= u32::MAX
            &&& modified_cost(cost, operation) matches Some(c) ==> {
                &&& colored_requirement(c) == colored_requirement(cost)
                &&& c.x_count == 0
                &&& generic_requirement(cost) >= n ==> generic_requirement(c) == generic_requirement(cost) - n
                &&& generic_requirement(cost) < n ==> generic_requirement(c) == 0
            }
        },
        operation matches CostModifierOperation::AddGeneric(n) ==> {
            &&& modified_cost(cost, operation) is Some <==> generic_requirement(cost) + n <= u32::MAX
            &&& modified_cost(cost, operation) matches Some(c) ==> {
                &&& colored_requirement(c) == colored_requirement(cost)
                &&& c.x_count == 0
                &&& generic_requirement(c) == generic_requirement(cost) + n
            }
        },
        operation matches CostModifierOperation::AddManaCost(m) ==> {
            &&& modified_cost(cost, operation) matches Some(c) ==> {
                &&& c.white == cost.white + m.white && c.blue == cost.blue + m.blue
                &&& c.black == cost.black + m.black && c.red == cost.red + m.red
                &&& c.green == cost.green + m.green && c.x_count == 0
                &&& generic_requirement(c) == generic_requirement(cost) + generic_requirement(m)
            }
            &&& modified_cost(cost, operation) is None <==> {
                ||| cost.white + m.white > u32::MAX || cost.blue + m.blue > u32::MAX
                ||| cost.black + m.black > u32::MAX || cost.red + m.red > u32::MAX
                ||| cost.green + m.green > u32::MAX
                ||| generic_requirement(cost) + generic_requirement(m) > u32::MAX
            }
        },
{
    assert(cost.x_count * cost.x_value >= 0) by (nonlinear_arith);
    if let CostModifierOperation::AddManaCost(m) = operation {
        assert(m.x_count * m.x_value >= 0) by (nonlinear_arith);
    }
}

/// Whether a modifier's scope covers an ability with this controller.
pub open spec fn modifier_covers(
    modifier: CostModifierDefinition,
    ability: ActivatedAbilityId,
    definition: ActivatedAbilityDefinition,
    controller: PlayerId,
) -> bool {
    match modifier.scope {
        CostModifierScope::AllActivatedAbilities => true,
        CostModifierScope::Ability(expected) => expected == ability,
        CostModifierScope::Source(expected) => definition.source == Some(expected),
        CostModifierScope::Controller(expected) => expected == controller,
    }
}

/// The mana cost after every covering modifier, applied in registration order.
pub open spec fn modified_mana(
    modifiers: Seq<CostModifierSubscription>,
    cost: ManaCost,
    ability: ActivatedAbilityId,
    definition: ActivatedAbilityDefinition,
    controller: PlayerId,
) -> Option<ManaCost>
    decreases modifiers.len(),
{
    if modifiers.len() == 0 {
        Some(cost)
    } else {
        match modified_mana(modifiers.drop_last(), cost, ability, definition, controller) {
            Some(c) => if modifier_covers(modifiers.last().definition, ability, definition, controller) {
                modified_cost(c, modifiers.last().definition.operation)
            } else {
                Some(c)
            },
            None => None,
        }
    }
}

/// Modifiers that do not cover an ability leave its cost as it is: with
/// none covering it, the ability costs its printed mana; and a modifier
/// scoped to another ability, to another source or to another controller
/// never covers it.
pub proof fn lemma_uncovering_modifiers_change_nothing(
    modifiers: Seq<CostModifierSubscription>,
    cost: ManaCost,
    ability: ActivatedAbilityId,
    definition: ActivatedAbilityDefinition,
    controller: PlayerId,
)
    ensures
        (forall|k: int|
            0 <= k < modifiers.len() ==> !modifier_covers(
                (#[trigger] modifiers[k]).definition,
                ability,
                definition,
                controller,
            )) ==> modified_mana(modifiers, cost, ability, definition, controller) == Some(cost),
        forall|k: int|
            0 <= k < modifiers.len() && (match (#[trigger] modifiers[k]).definition.scope {
                CostModifierScope::Ability(other) => other != ability,
                CostModifierScope::Source(other) => definition.source != Some(other),
                CostModifierScope::Controller(other) => other != controller,
                CostModifierScope::AllActivatedAbilities => false,
            }) ==> !modifier_covers(modifiers[k].definition, ability, definition, controller),
    decreases modifiers.len(),
{
    if modifiers.len() > 0 {
        lemma_uncovering_modifiers_change_nothing(modifiers.drop_last(), cost, ability, definition, controller);
        if forall|k: int|
            0 <= k < modifiers.len() ==> !modifier_covers(
                (#[trigger] modifiers[k]).definition,
                ability,
                definition,
                controller,
            ) {
            let rest = modifiers.drop_last();
            assert forall|k: int| 0 <= k < rest.len() implies !modifier_covers(
                (#[trigger] rest[k]).definition,
                ability,
                definition,
                controller,
            ) by {
                assert(rest[k] == modifiers[k]);
            }
            assert(!modifier_covers(modifiers[modifiers.len() - 1].definition, ability, definition, controller));
        }
    }
}

/// The controller of an ability: its source's controller after the layers,
/// or, with no source, the controller it was registered with.
pub open spec fn ability_controller(state: GameState, definition: ActivatedAbilityDefinition) -> Result<
    PlayerId,
    StateError,
> {
    match definition.source {
        Some(source) => match characteristics_of(state, source) {
            Ok(c) => Ok(c.controller),
            Err(e) => Err(e),
        },
        None => if definition.controller.0 < state.players@.len() {
            Ok(definition.controller)
        } else {
            Err(StateError::UnknownPlayer(definition.controller))
        },
    }
}

/// The mana an ability costs now, after the cost modifiers that cover it;
/// none when its controller cannot be found or a modifier overflows.
pub open spec fn effective_mana(state: GameState, ability: ActivatedAbilityId) -> Option<ManaCost> {
    let d = state.activated_abilities@[ability.0 as int].definition;
    match ability_controller(state, d) {
        Ok(controller) => modified_mana(state.cost_modifiers@, d.cost.mana, ability, d, controller),
        Err(_) => None,
    }
}

/// Everything activating a registered ability without a source object
/// checks holds for `player`, and no state-based action would interrupt:
/// the ability is theirs and not a mana ability, they hold priority at a
/// time its timing allows, it costs no tap or loyalty, and the payment is a
/// valid plan for its current mana cost out of their pool.
pub open spec fn activation_allowed(
    state: GameState,
    player: PlayerId,
    ability: ActivatedAbilityId,
    payment: PaymentPlan,
) -> bool {
    let d = state.activated_abilities@[ability.0 as int].definition;
    &&& ability.0 < state.activated_abilities@.len()
    &&& state.activated_abilities@[ability.0 as int].id == ability
    &&& d.source is None && d.controller == player && player.0 < state.players@.len()
    &&& !d.mana_ability
    &&& state.priority_player == Some(player)
    &&& d.timing == ActivationTiming::Instant || sorcery_window(state, player)
    &&& !d.cost.tap_source && d.cost.loyalty_delta is None
    &&& effective_mana(state, ability) matches Some(m) && generic_requirement(m) <= u32::MAX
        && is_valid_payment(state.players@[player.0 as int].mana_pool, m, payment)
    &&& sba_quiet(state)
}

/// Once the modifiers up to `k` overflow the cost, so do all of them.
proof fn lemma_modified_mana_stays_none(
    modifiers: Seq<CostModifierSubscription>,
    k: int,
    cost: ManaCost,
    ability: ActivatedAbilityId,
    definition: ActivatedAbilityDefinition,
    controller: PlayerId,
)
    requires
        0 <= k <= modifiers.len(),
        modified_mana(modifiers.subrange(0, k), cost, ability, definition, controller) is None,
    ensures
        modified_mana(modifiers, cost, ability, definition, controller) is None,
    decreases modifiers.len() - k,
{
    if k < modifiers.len() {
        assert(modifiers.subrange(0, k + 1).drop_last() =~= modifiers.subrange(0, k));
        lemma_modified_mana_stays_none(modifiers, k + 1, cost, ability, definition, controller);
    } else {
        assert(modifiers.subrange(0, k) =~= modifiers);
    }
}

/// Whether a timing restriction allows `player` to act now: sorcery speed
/// needs the active player in a main phase with an empty stack.
pub open spec fn sorcery_window(state: GameState, player: PlayerId) -> bool {
    &&& state.active_player == Some(player)
    &&& (state.current_step == Some(crate::turn::Step::PrecombatMain) || state.current_step == Some(
        crate::turn::Step::PostcombatMain,
    ))
    &&& state.stack_entries@.len() == 0
}

impl GameState {
    /// Registers one data-only activated ability definition.
    pub fn register_activated_ability(&mut self, definition: ActivatedAbilityDefinition) -> (r: Result<
        ActivatedAbilityId,
        StateError,
    >)
        ensures
            zones_conserved(*old(self)) ==> zones_conserved(*final(self)),
            events_bounded(*old(self)) ==> events_bounded(*final(self)),
            definition.controller.0 >= old(self).players@.len() ==> r == Err::<
                ActivatedAbilityId,
                StateError,
            >(StateError::UnknownPlayer(definition.controller)),
            r is Ok <==> definition.controller.0 < old(self).players@.len() && (
            definition.source matches Some(s) ==> old(self).objects.spec_get(s) is Some),
            r matches Ok(id) ==> id == ActivatedAbilityId(old(self).next_activated_ability)
                && final(self).activated_abilities@ == old(self).activated_abilities@.push(
                (ActivatedAbilitySubscription { id, definition }),
            ),
            r is Err ==> *final(self) == *old(self),
    {
        match self.require_player(definition.controller) {
            Ok(()) => {},
            Err(e) => return Err(e),
        }
        if let Some(source) = definition.source {
            if self.objects.get(source).is_none() {
                return Err(StateError::UnknownObject(source));
            }
        }
        let id = ActivatedAbilityId(self.next_activated_ability);
        self.next_activated_ability = self.next_activated_ability.saturating_add(1);
        self.activated_abilities.push(ActivatedAbilitySubscription { id, definition });
        self.emit_event(
            GameEvent::ActivatedAbilityRegistered {
                ability: id,
                controller: definition.controller,
                source: definition.source,
                mana_ability: definition.mana_ability,
            },
        );
        Ok(id)
    }

    /// Returns the definition registered under `ability`.
    pub(crate) fn activated_ability_definition(&self, ability: ActivatedAbilityId) -> (r: Result<
        ActivatedAbilityDefinition,
        StateError,
    >)
        ensures
            r is Ok <==> ability.0 < self.activated_abilities@.len()
                && self.activated_abilities@[ability.0 as int].id == ability,
            r matches Ok(d) ==> d == self.activated_abilities@[ability.0 as int].definition,
            r is Err ==> r == Err::<ActivatedAbilityDefinition, StateError>(
                StateError::UnknownActivatedAbility(ability),
            ),
    {
        let i = ability.index();
        if i < self.activated_abilities.len() && self.activated_abilities[i].id == ability {
            Ok(self.activated_abilities[i].definition)
        } else {
            Err(StateError::UnknownActivatedAbility(ability))
        }
    }

    /// Registers one data-only activation cost modifier.
    pub fn register_cost_modifier(&mut self, definition: CostModifierDefinition) -> (r: Result<
        CostModifierId,
        StateError,
    >)
        ensures
            zones_conserved(*old(self)) ==> zones_conserved(*final(self)),
            events_bounded(*old(self)) ==> events_bounded(*final(self)),
            definition.controller.0 >= old(self).players@.len() ==> r == Err::<
                CostModifierId,
                StateError,
            >(StateError::UnknownPlayer(definition.controller)),
            r matches Ok(id) ==> id == CostModifierId(old(self).next_cost_modifier)
                && final(self).cost_modifiers@ == old(self).cost_modifiers@.push(
                (CostModifierSubscription { id, definition }),
            ),
            r is Err ==> *final(self) == *old(self),
            r is Ok <==> definition.controller.0 < old(self).players@.len() && (definition.source is Some
                ==> old(self).objects.spec_get(definition.source->0) is Some) && match definition.scope {
                CostModifierScope::Ability(ability) => ability.0 < old(self).activated_abilities@.len()
                    && old(self).activated_abilities@[ability.0 as int].id == ability,
                CostModifierScope::Source(source) => old(self).objects.spec_get(source) is Some,
                CostModifierScope::Controller(player) => player.0 < old(self).players@.len(),
                CostModifierScope::AllActivatedAbilities => true,
            },
    {
        match self.require_player(definition.controller) {
            Ok(()) => {},
            Err(e) => return Err(e),
        }
        if let Some(source) = definition.source {
            if self.objects.get(source).is_none() {
                return Err(StateError::UnknownObject(source));
            }
        }
        match definition.scope {
            CostModifierScope::Ability(ability) => {
                match self.activated_ability_definition(ability) {
                    Ok(_) => {},
                    Err(e) => return Err(e),
                }
            },
            CostModifierScope::Source(source) => {
                if self.objects.get(source).is_none() {
                    return Err(StateError::UnknownObject(source));
                }
            },
            CostModifierScope::Controller(player) => {
                match self.require_player(player) {
                    Ok(()) => {},
                    Err(e) => return Err(e),
                }
            },
            CostModifierScope::AllActivatedAbilities => {},
        }
        let id = CostModifierId(self.next_cost_modifier);
        self.next_cost_modifier = self.next_cost_modifier.saturating_add(1);
        self.cost_modifiers.push(CostModifierSubscription { id, definition });
        self.emit_event(
            GameEvent::CostModifierRegistered {
                modifier: id,
                controller: definition.controller,
                source: definition.source,
                operation: definition.operation,
            },
        );
        Ok(id)
    }

    /// The player who currently controls an ability: its source's controller
    /// after continuous effects, or its registered controller.
    pub(crate) fn activated_ability_controller(&self, definition: ActivatedAbilityDefinition) -> (r:
        Result<PlayerId, StateError>)
        ensures
            definition.source is None ==> (r is Ok <==> definition.controller.0
                < self.players@.len()),
            definition.source is None && r is Ok ==> r == Ok::<PlayerId, StateError>(
                definition.controller,
            ),
            r == ability_controller(*self, definition),
    {
        match definition.source {
            Some(source) => self.object_controller(source),
            None => {
                match self.require_player(definition.controller) {
                    Ok(()) => Ok(definition.controller),
                    Err(e) => Err(e),
                }
            },
        }
    }

    /// Whether a modifier's scope covers this ability.
    pub(crate) fn cost_modifier_applies(
        &self,
        modifier: CostModifierDefinition,
        ability: ActivatedAbilityId,
        definition: ActivatedAbilityDefinition,
        controller: PlayerId,
    ) -> (r: bool)
        ensures
            r == modifier_covers(modifier, ability, definition, controller),
    {
        match modifier.scope {
            CostModifierScope::AllActivatedAbilities => true,
            CostModifierScope::Ability(expected) => expected == ability,
            CostModifierScope::Source(expected) => match definition.source {
                Some(s) => s == expected,
                None => false,
            },
            CostModifierScope::Controller(expected) => expected == controller,
        }
    }

    /// Applies one cost modifier operation.
    pub(crate) fn apply_cost_modifier(cost: ManaCost, operation: CostModifierOperation) -> (r: Result<
        ManaCost,
        StateError,
    >)
        ensures
            r is Ok <==> modified_cost(cost, operation) is Some,
            r matches Ok(c) ==> modified_cost(cost, operation) == Some(c),
            r is Err ==> r == Err::<ManaCost, StateError>(StateError::ManaValueOverflow),
    {
        match operation {
            CostModifierOperation::AddManaCost(additional) => {
                let white = match cost.white.checked_add(additional.white) {
                    Some(v) => v,
                    None => return Err(StateError::ManaValueOverflow),
                };
                let blue = match cost.blue.checked_add(additional.blue) {
                    Some(v) => v,
                    None => return Err(StateError::ManaValueOverflow),
                };
                let black = match cost.black.checked_add(additional.black) {
                    Some(v) => v,
                    None => return Err(StateError::ManaValueOverflow),
                };
                let red = match cost.red.checked_add(additional.red) {
                    Some(v) => v,
                    None => return Err(StateError::ManaValueOverflow),
                };
                let green = match cost.green.checked_add(additional.green) {
                    Some(v) => v,
                    None => return Err(StateError::ManaValueOverflow),
                };
                let base = match cost.generic_total() {
                    Ok(v) => v,
                    Err(e) => return Err(Self::map_payment_error(e)),
                };
                let extra = match additional.generic_total() {
                    Ok(v) => v,
                    Err(e) => return Err(Self::map_payment_error(e)),
                };
                let generic = match base.checked_add(extra) {
                    Some(v) => v,
                    None => return Err(StateError::ManaValueOverflow),
                };
                Ok(ManaCost::new(white, blue, black, red, green, generic))
            },
            CostModifierOperation::AddGeneric(amount) => {
                let base = match cost.generic_total() {
                    Ok(v) => v,
                    Err(e) => return Err(Self::map_payment_error(e)),
                };
                let generic = match base.checked_add(amount) {
                    Some(v) => v,
                    None => return Err(StateError::ManaValueOverflow),
                };
                Ok(ManaCost::new(cost.white, cost.blue, cost.black, cost.red, cost.green, generic))
            },
            CostModifierOperation::ReduceGeneric(amount) => {
                let base = match cost.generic_total() {
                    Ok(v) => v,
                    Err(e) => return Err(Self::map_payment_error(e)),
                };
                Ok(
                    ManaCost::new(
                        cost.white,
                        cost.blue,
                        cost.black,
                        cost.red,
                        cost.green,
                        base.saturating_sub(amount),
                    ),
                )
            },
        }
    }

    /// Returns the effective activation cost after cost modifiers.
    pub fn effective_activation_cost(&self, ability: ActivatedAbilityId) -> (r: Result<
        ActivationCost,
        StateError,
    >)
        ensures
            !(ability.0 < self.activated_abilities@.len() && self.activated_abilities@[ability.0 as int].id
                == ability) ==> r == Err::<ActivationCost, StateError>(
                StateError::UnknownActivatedAbility(ability),
            ),
            r matches Ok(c) ==> {
                let d = self.activated_abilities@[ability.0 as int].definition;
                &&& c.tap_source == d.cost.tap_source
                &&& c.loyalty_delta == d.cost.loyalty_delta
                &&& d.source is None ==> Some(c.mana) == modified_mana(
                    self.cost_modifiers@,
                    d.cost.mana,
                    ability,
                    d,
                    d.controller,
                )
            },
            ability.0 < self.activated_abilities@.len() && self.activated_abilities@[ability.0 as int].id
                == ability ==> {
                let d = self.activated_abilities@[ability.0 as int].definition;
                &&& ability_controller(*self, d) matches Err(e) ==> r == Err::<ActivationCost, StateError>(e)
                &&& ability_controller(*self, d) matches Ok(controller) ==> {
                    let mana = modified_mana(self.cost_modifiers@, d.cost.mana, ability, d, controller);
                    &&& mana is None ==> r == Err::<ActivationCost, StateError>(StateError::ManaValueOverflow)
                    &&& mana matches Some(m) ==> r matches Ok(c) && c.mana == m
                }
            },
    {
        let definition = match self.activated_ability_definition(ability) {
            Ok(d) => d,
            Err(e) => return Err(e),
        };
        let controller = match self.activated_ability_controller(definition) {
            Ok(c) => c,
            Err(e) => return Err(e),
        };
        let mut mana = definition.cost.mana;
        let mut i: usize = 0;
        while i < self.cost_modifiers.len()
            invariant
                i <= self.cost_modifiers@.len(),
                ability.0 < self.activated_abilities@.len(),
                self.activated_abilities@[ability.0 as int].id == ability,
                definition == self.activated_abilities@[ability.0 as int].definition,
                ability_controller(*self, definition) == Ok::<PlayerId, StateError>(controller),
                Some(mana) == modified_mana(
                    self.cost_modifiers@.subrange(0, i as int),
                    definition.cost.mana,
                    ability,
                    definition,
                    controller,
                ),
            decreases self.cost_modifiers@.len() - i,
        {
            proof {
                assert(self.cost_modifiers@.subrange(0, i + 1).drop_last()
                    == self.cost_modifiers@.subrange(0, i as int));
            }
            let modifier = self.cost_modifiers[i];
            if self.cost_modifier_applies(modifier.definition, ability, definition, controller) {
                mana = match Self::apply_cost_modifier(mana, modifier.definition.operation) {
                    Ok(m) => m,
                    Err(e) => {
                        proof {
                            assert(self.cost_modifiers@.subrange(0, i + 1).last() == modifier);
                            assert(modified_mana(
                                self.cost_modifiers@.subrange(0, i + 1),
                                definition.cost.mana,
                                ability,
                                definition,
                                controller,
                            ) is None);
                            lemma_modified_mana_stays_none(
                                self.cost_modifiers@,
                                i as int + 1,
                                definition.cost.mana,
                                ability,
                                definition,
                                controller,
                            );
                        }
                        return Err(e);
                    },
                };
            }
            i = i + 1;
        }
        assert(self.cost_modifiers@.subrange(0, self.cost_modifiers@.len() as int) == self.cost_modifiers@);
        let mut cost = ActivationCost::new(mana);
        if definition.cost.tap_source {
            cost = cost.with_tap_source();
        }
        if let Some(delta) = definition.cost.loyalty_delta {
            cost = cost.with_loyalty_delta(delta);
        }
        Ok(cost)
    }

    /// Whether a timing restriction on an ability allows `player` to act now.
    pub(crate) fn can_activate_with_timing(&self, player: PlayerId, timing: ActivationTiming) -> (r: bool)
        ensures
            r == (timing == ActivationTiming::Instant || sorcery_window(*self, player)),
    {
        match timing {
            ActivationTiming::Instant => true,
            ActivationTiming::Sorcery => {
                let in_main = match self.current_step {
                    Some(crate::turn::Step::PrecombatMain) => true,
                    Some(crate::turn::Step::PostcombatMain) => true,
                    _ => false,
                };
                let is_active = match self.active_player {
                    Some(p) => p == player,
                    None => false,
                };
                is_active && in_main && self.stack_entries.len() == 0
            },
        }
    }

    /// Checks the tap and loyalty parts of an activation cost.
    pub(crate) fn validate_non_mana_activation_costs(
        &self,
        player: PlayerId,
        definition: ActivatedAbilityDefinition,
        cost: ActivationCost,
    ) -> (r: Result<(), StateError>)
        ensures
            definition.source is None && (cost.tap_source || cost.loyalty_delta is Some) ==> r
                == Err::<(), StateError>(StateError::ObjectNotActivatable(ObjectId(0))),
            definition.source is None && !cost.tap_source && cost.loyalty_delta is None ==> r is Ok,
            r is Ok && definition.source is Some && cost.tap_source ==> (self.objects.spec_get(
                definition.source->0,
            ) matches Some(rec) && !rec.tapped),
    {
        match definition.source {
            Some(source) => {
                if self.object_zone(source) != Some(ZoneId::new(None, ZoneKind::Battlefield)) {
                    return Err(StateError::ObjectNotActivatable(source));
                }
                let controller = match self.object_controller(source) {
                    Ok(c) => c,
                    Err(e) => return Err(e),
                };
                if controller != player {
                    return Err(StateError::ObjectNotActivatable(source));
                }
                let record = match self.objects.get(source) {
                    Some(r) => r,
                    None => return Err(StateError::UnknownObject(source)),
                };
                if cost.tap_source {
                    if record.tapped {
                        return Err(StateError::SourceAlreadyTapped(source));
                    }
                    let sick = match self.creature_characteristics(source) {
                        Ok(c) => !c.keywords().haste(),
                        Err(_) => false,
                    };
                    if sick && record.controlled_since_turn == self.turn_number {
                        return Err(StateError::SummoningSick(source));
                    }
                }
                if let Some(delta) = cost.loyalty_delta {
                    if contains_object(&self.loyalty_activations_this_turn, source) {
                        return Err(StateError::LoyaltyAbilityAlreadyActivatedThisTurn(source));
                    }
                    let loyalty = match record.loyalty {
                        Some(l) => l,
                        None => return Err(StateError::InsufficientLoyalty(source)),
                    };
                    let next = match loyalty.checked_add(delta) {
                        Some(n) => n,
                        None => return Err(StateError::LifeTotalOverflow),
                    };
                    if next < 0 {
                        return Err(StateError::InsufficientLoyalty(source));
                    }
                }
            },
            None => {
                if cost.tap_source || cost.loyalty_delta.is_some() {
                    return Err(StateError::ObjectNotActivatable(ObjectId(0)));
                }
            },
        }
        Ok(())
    }

    /// Taps the source and moves its loyalty as the cost requires.
    pub(crate) fn pay_non_mana_activation_costs(
        &mut self,
        definition: ActivatedAbilityDefinition,
        cost: ActivationCost,
    ) -> (r: Result<(), StateError>)
        ensures
            zones_conserved(*old(self)) ==> zones_conserved(*final(self)),
            events_bounded(*old(self)) ==> events_bounded(*final(self)),
            definition.source is None ==> r is Ok && *final(self) == *old(self),
            final(self).stack_entries@ == old(self).stack_entries@,
            final(self).players@ == old(self).players@,
            r is Ok && cost.tap_source && definition.source is Some ==> (final(self).objects.spec_get(
                definition.source->0,
            ) matches Some(rec) && rec.tapped),
    {
        if let Some(source) = definition.source {
            if cost.tap_source {
                match self.set_object_tapped(source, true) {
                    Ok(()) => {},
                    Err(e) => return Err(e),
                }
            }
            if let Some(delta) = cost.loyalty_delta {
                let i = source.index();
                if i >= self.objects.records.len() {
                    return Err(StateError::UnknownObject(source));
                }
                let loyalty = match self.objects.records[i].loyalty {
                    Some(l) => l,
                    None => return Err(StateError::InsufficientLoyalty(source)),
                };
                let next = match loyalty.checked_add(delta) {
                    Some(n) => n,
                    None => return Err(StateError::LifeTotalOverflow),
                };
                self.objects.records[i].loyalty = Some(next);
                self.loyalty_activations_this_turn.push(source);
                self.emit_event(GameEvent::ObjectLoyaltySet { object: source, loyalty: Some(next) });
            }
        }
        Ok(())
    }

    /// The concrete player an ability's effect names.
    pub(crate) fn resolve_ability_player(&self, controller: PlayerId, player: AbilityPlayer) -> (r:
        Result<PlayerId, StateError>)
        ensures
            ({
                let resolved = match player {
                    AbilityPlayer::Controller => controller,
                    AbilityPlayer::Player(p) => p,
                };
                &&& r is Ok <==> resolved.0 < self.players@.len()
                &&& r is Ok ==> r == Ok::<PlayerId, StateError>(resolved)
                &&& r is Err ==> r == Err::<PlayerId, StateError>(StateError::UnknownPlayer(resolved))
            }),
    {
        let resolved = match player {
            AbilityPlayer::Controller => controller,
            AbilityPlayer::Player(p) => p,
        };
        match self.require_player(resolved) {
            Ok(()) => Ok(resolved),
            Err(e) => Err(e),
        }
    }

    /// Carries out an activated ability's effect for `player`.
    pub(crate) fn resolve_activated_ability_effect(
        &mut self,
        ability: ActivatedAbilityId,
        player: PlayerId,
        definition: ActivatedAbilityDefinition,
    ) -> (r: Result<(), StateError>)
        ensures
            zones_conserved(*old(self)) ==> zones_conserved(*final(self)),
            events_bounded(*old(self)) ==> events_bounded(*final(self)),
            r is Ok ==> final(self).players@.len() == old(self).players@.len(),
            final(self).stack_entries@ == old(self).stack_entries@,
            final(self).resolution_log@ == old(self).resolution_log@,
            final(self).zones@ == old(self).zones@,
            r is Ok ==> ability_effect_applied(old(self).players@, final(self).players@, player, definition),
            ability_effect_possible(old(self).players@, player, definition) ==> r is Ok,
            r is Ok ==> final(self).objects.records@ == old(self).objects.records@ && forall|i: int|
                0 <= i < old(self).players@.len() ==> #[trigger] final(self).players@[i].id == old(self).players@[i].id
                    && final(self).players@[i].lost == old(self).players@[i].lost,
            r is Ok ==> zones_conserved(*final(self)) == zones_conserved(*old(self)),
            ({
                let target = match definition.effect {
                    ActivatedAbilityEffect::AddMana { player: p, .. } => ability_target(player, p),
                    ActivatedAbilityEffect::GainLife { player: p, .. } => ability_target(player, p),
                    ActivatedAbilityEffect::LoseLife { player: p, .. } => ability_target(player, p),
                };
                let players = old(self).players@;
                &&& target.0 >= players.len() ==> r == Err::<(), StateError>(StateError::UnknownPlayer(target))
                    && *final(self) == *old(self)
                &&& target.0 < players.len() ==> match definition.effect {
                    ActivatedAbilityEffect::AddMana { mana, .. } => (r is Ok
                        ==> final(self).players@[target.0 as int].mana_pool.is_sum_of(
                        players[target.0 as int].mana_pool,
                        mana,
                    ))
                        && (r is Err ==> r == Err::<(), StateError>(StateError::ManaValueOverflow)),
                    ActivatedAbilityEffect::GainLife { amount, .. } => {
                        let after = players[target.0 as int].life + life_delta(amount);
                        &&& after > i32::MAX ==> r == Err::<(), StateError>(StateError::LifeTotalOverflow)
                        &&& after <= i32::MAX ==> r is Ok && final(self).players@ == players.update(
                            target.0 as int,
                            PlayerState { life: after as i32, ..players[target.0 as int] },
                        )
                    },
                    ActivatedAbilityEffect::LoseLife { amount, .. } => {
                        let after = players[target.0 as int].life - life_delta(amount);
                        &&& after < i32::MIN ==> r == Err::<(), StateError>(StateError::LifeTotalOverflow)
                        &&& after >= i32::MIN ==> r is Ok && final(self).players@ == players.update(
                            target.0 as int,
                            PlayerState { life: after as i32, ..players[target.0 as int] },
                        )
                    },
                }
            }),
    {
        match definition.effect {
            ActivatedAbilityEffect::AddMana { player: target, mana } => {
                let target = match self.resolve_ability_player(player, target) {
                    Ok(t) => t,
                    Err(e) => return Err(e),
                };
                match self.add_mana_to_pool(target, mana) {
                    Ok(()) => {},
                    Err(e) => return Err(e),
                }
            },
            ActivatedAbilityEffect::GainLife { player: target, amount } => {
                let target = match self.resolve_ability_player(player, target) {
                    Ok(t) => t,
                    Err(e) => return Err(e),
                };
                match self.gain_life(target, amount) {
                    Ok(()) => {},
                    Err(e) => return Err(e),
                }
            },
            ActivatedAbilityEffect::LoseLife { player: target, amount } => {
                let target = match self.resolve_ability_player(player, target) {
                    Ok(t) => t,
                    Err(e) => return Err(e),
                };
                match self.lose_life(target, amount) {
                    Ok(()) => {},
                    Err(e) => return Err(e),
                }
            },
        }
        self.emit_event(
            GameEvent::ActivatedAbilityResolved {
                ability,
                player,
                source: definition.source,
                effect: definition.effect,
            },
        );
        Ok(())
    }

    /// Activates an ability: checks control, priority and timing, validates
    /// the exact mana payment and the other costs, pays everything, then
    /// resolves a mana ability at once or puts any other on the stack.
    pub fn activate_ability(&mut self, player: PlayerId, ability: ActivatedAbilityId, payment: PaymentPlan) -> (r:
        Result<Option<StackEntryId>, StateError>)
        ensures
            zones_conserved(*old(self)) ==> zones_conserved(*final(self)),
            events_bounded(*old(self)) ==> events_bounded(*final(self)),
            !(ability.0 < old(self).activated_abilities@.len()
                && old(self).activated_abilities@[ability.0 as int].id == ability) ==> r == Err::<
                Option<StackEntryId>,
                StateError,
            >(StateError::UnknownActivatedAbility(ability)),
            r matches Ok(None) ==> old(self).activated_abilities@[ability.0 as int].definition.mana_ability,
            r matches Ok(Some(id)) ==> !old(self).activated_abilities@[ability.0 as int].definition.mana_ability,
            ability.0 < old(self).activated_abilities@.len() && old(self).activated_abilities@[ability.0 as int].id
                == ability ==> {
                let d = old(self).activated_abilities@[ability.0 as int].definition;
                let own = d.source is None && d.controller.0 < old(self).players@.len();
                &&& own && d.controller != player ==> r == Err::<Option<StackEntryId>, StateError>(
                    StateError::PriorityPlayerMismatch { expected: d.controller, actual: player },
                )
                &&& own && d.controller == player && !d.mana_ability ==> {
                    &&& old(self).priority_player is None ==> r == Err::<Option<StackEntryId>, StateError>(
                        StateError::NoPriority,
                    )
                    &&& old(self).priority_player is Some && old(self).priority_player != Some(player) ==> r
                        == Err::<Option<StackEntryId>, StateError>(
                        StateError::PriorityPlayerMismatch {
                            expected: old(self).priority_player->0,
                            actual: player,
                        },
                    )
                    &&& old(self).priority_player == Some(player) && !(d.timing == ActivationTiming::Instant
                        || sorcery_window(*old(self), player)) ==> r == Err::<
                        Option<StackEntryId>,
                        StateError,
                    >(StateError::InvalidSpellTiming)
                }
                &&& own && d.controller == player && d.mana_ability && d.cost.loyalty_delta is Some
                    && !sorcery_window(*old(self), player) ==> r == Err::<Option<StackEntryId>, StateError>(
                    StateError::InvalidSpellTiming,
                )
            },
            r is Ok ==> ({
                &&& effective_mana(*old(self), ability) is Some
                &&& player.0 < old(self).players@.len()
                &&& is_valid_payment(
                    old(self).players@[player.0 as int].mana_pool,
                    effective_mana(*old(self), ability)->0,
                    payment,
                )
            }),
            r matches Ok(Some(id)) ==> {
                &&& final(self).stack_entries@.len() == old(self).stack_entries@.len() + 1
                &&& final(self).stack_entries@.drop_last() == old(self).stack_entries@
                &&& final(self).stack_entries@.last().id == id
                &&& final(self).stack_entries@.last().controller == player
                &&& final(self).stack_entries@.last().activated_ability == Some(ability)
                &&& final(self).stack_entries@.last().kind == StackObjectKind::ActivatedAbility
                &&& final(self).stack_entries@.last().payment == Some(payment)
                &&& final(self).priority_pass_count == 0
                &&& final(self).outcome == GameOutcome::InProgress && final(self).pending_triggers@.len() == 0
                    ==> final(self).priority_player == Some(player)
            },
            activation_allowed(*old(self), player, ability, payment) ==> r is Ok,
            r matches Ok(Some(_)) ==> player.0 < old(self).players@.len() && final(self).players@.len() == old(
                self,
            ).players@.len() && final(self).players@[player.0 as int].mana_pool.is_diff_of(
                old(self).players@[player.0 as int].mana_pool,
                payment.paid(),
            ),
    {
        let ghost s0 = *self;
        let ghost allowed = activation_allowed(*self, player, ability, payment);
        let definition = match self.activated_ability_definition(ability) {
            Ok(d) => d,
            Err(e) => return Err(e),
        };
        let controller = match self.activated_ability_controller(definition) {
            Ok(c) => c,
            Err(e) => return Err(e),
        };
        if controller != player {
            return Err(StateError::PriorityPlayerMismatch { expected: controller, actual: player });
        }
        if !definition.mana_ability {
            match self.require_priority_player(player) {
                Ok(()) => {},
                Err(e) => return Err(e),
            }
            if !self.can_activate_with_timing(player, definition.timing) {
                return Err(StateError::InvalidSpellTiming);
            }
        }
        if definition.cost.loyalty_delta.is_some() && !self.can_activate_with_timing(
            player,
            ActivationTiming::Sorcery,
        ) {
            return Err(StateError::InvalidSpellTiming);
        }
        let effective_cost = match self.effective_activation_cost(ability) {
            Ok(c) => c,
            Err(e) => return Err(e),
        };
        let pool = match self.mana_pool(player) {
            Ok(p) => p,
            Err(e) => return Err(e),
        };
        let cost = effective_cost.mana;
        proof {
            if allowed {
                ManaPool::lemma_sum_fields(payment.paid(), colored_requirement(cost), payment.generic_paid());
                assert(payment.paid().covers(colored_requirement(cost)));
            }
        }
        let canonical = match validate_payment_plan(pool, effective_cost.mana, payment.paid()) {
            Ok(p) => p,
            Err(e) => return Err(Self::map_payment_error(e)),
        };
        proof {
            if allowed {
                ManaPool::lemma_sum_fields(payment.paid(), colored_requirement(cost), payment.generic_paid());
                ManaPool::lemma_sum_fields(canonical.paid(), colored_requirement(cost), canonical.generic_paid());
                assert(canonical.generic_paid().white == payment.generic_paid().white);
                assert(canonical.generic_paid().colorless == payment.generic_paid().colorless);
                assert(canonical == payment);
            }
        }
        if canonical != payment {
            return Err(StateError::InvalidPaymentPlan);
        }
        match self.validate_non_mana_activation_costs(player, definition, effective_cost) {
            Ok(()) => {},
            Err(e) => return Err(e),
        }
        match self.pay_mana(player, effective_cost.mana, payment) {
            Ok(()) => {},
            Err(e) => return Err(e),
        }
        proof {
            if allowed {
                lemma_sba_quiet_mana(s0, *self);
            }
        }
        match self.pay_non_mana_activation_costs(definition, effective_cost) {
            Ok(()) => {},
            Err(e) => return Err(e),
        }
        let ghost s2 = *self;
        self.emit_event(
            GameEvent::ActivatedAbilityActivated {
                ability,
                player,
                source: definition.source,
                mana_ability: definition.mana_ability,
            },
        );
        if definition.mana_ability {
            match self.resolve_activated_ability_effect(ability, player, definition) {
                Ok(()) => {},
                Err(e) => return Err(e),
            }
            Ok(None)
        } else {
            let id = self.push_stack_entry(
                StackEntryRequest {
                    controller: player,
                    object: None,
                    trigger: None,
                    activated_ability: Some(ability),
                    kind: StackObjectKind::ActivatedAbility,
                    targets: Vec::new(),
                    payment: Some(payment),
                },
            );
            proof {
                if allowed {
                    lemma_sba_quiet_kept(s2, *self);
                }
            }
            let ghost pushed = *self;
            match self.after_priority_action(player, true) {
                Ok(()) => {},
                Err(e) => return Err(e),
            }
            proof {
                let p = player.0 as int;
                assert(pushed.players@ == s2.players@);
                assert(self.players@[p].life == pushed.players@[p].life);
                assert(self.players@[p].mana_pool == pushed.players@[p].mana_pool);
            }
            Ok(Some(id))
        }
    }
}

} // verus!
