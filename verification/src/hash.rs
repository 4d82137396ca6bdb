//! Canonical state encoding and FNV-1a state hashing. Every encoder is
//! written once against a byte sink, so the byte vector and the streaming
//! hash see the same bytes.

use vstd::prelude::*;

use crate::abilities::{
    AbilityPlayer, ActivatedAbilityDefinition, ActivatedAbilityEffect, ActivationCost,
    ActivationTiming, CostModifierDefinition, CostModifierOperation, CostModifierScope,
    ReplacementChoiceOrder, ReplacementCondition, ReplacementDamageTargetFilter,
    ReplacementDefinition, ReplacementDuration, ReplacementOperation, ReplacementSourceFilter,
    ResolutionOutcome, ResolutionRecord, StackEntry, StackObjectKind, TargetChoice, TargetKind,
    TargetRequirement, TargetSnapshot, TriggerCondition, TriggerDefinition, TriggerDuration,
    TriggerInterveningIf, TriggerObjectFilter, TriggerPlayerFilter, TriggerZoneFilter,
};
use crate::characteristics::{
    BaseCreatureCharacteristics, ContinuousEffectDefinition, ContinuousEffectDuration,
    ContinuousEffectLayer, ContinuousEffectOperation, ContinuousEffectTarget, CreatureKeywords,
    ObjectColors, ObjectTypes,
};
use crate::combat::{
    AttackingCreature, BlockingCreature, CombatDamageRecord, CombatDamageStepKind,
    CombatDamageTarget, CombatState,
};
use crate::events::{EventRecord, GameEvent, GameEventKind, PendingTriggeredAbility};
use crate::ids::{
    ActivatedAbilityId, ContinuousEffectId, ObjectId, PlayerId, ReplacementEffectId, StateHash,
    TriggerId,
};
use crate::mana::{ManaCost, ManaPool, PaymentPlan};
use crate::outcome::GameOutcome;
use crate::state::{
    ActivatedAbilitySubscription, ContinuousEffectSubscription, CostModifierSubscription,
    GameState, ObjectRecord, PlayerState, ReplacementSubscription, TriggerSubscription, Zone,
};
use crate::turn::{CleanupReport, DurationMarker, EffectDuration, Step, ZoneId};

verus! {

/// FNV-1a 64-bit offset basis.
pub const FNV_BASIS: u64 = 0xcbf2_9ce4_8422_2325;

/// FNV-1a 64-bit prime.
pub const FNV_PRIME: u64 = 0x0000_0100_0000_01b3;

/// One FNV-1a step: mix in a byte, then multiply by the prime modulo 2^64.
pub open spec fn fnv_step(hash: u64, byte: u8) -> u64 {
    vstd::wrapping::u64_specs::wrapping_mul(hash ^ (byte as u64), FNV_PRIME)
}

/// FNV-1a over a byte sequence, first byte first.
pub open spec fn fnv_fold(bytes: Seq<u8>) -> u64
    decreases bytes.len(),
{
    if bytes.len() == 0 {
        FNV_BASIS
    } else {
        fnv_step(fnv_fold(bytes.drop_last()), bytes.last())
    }
}

/// The canonical hash of a game state: FNV-1a over its canonical bytes.
pub open spec fn state_hash(state: GameState) -> u64 {
    fnv_fold(enc_game_state(state))
}

/// The hash is canonical: two states with the same canonical bytes hash
/// alike, whichever path computed the hash.
pub proof fn lemma_hash_is_canonical(a: GameState, b: GameState)
    requires
        enc_game_state(a) == enc_game_state(b),
    ensures
        state_hash(a) == state_hash(b),
{
}

/// Little-endian bytes of a `u32`.
pub open spec fn enc_u32(value: u32) -> Seq<u8> {
    seq![
        (value & 0xff) as u8,
        ((value >> 8u32) & 0xff) as u8,
        ((value >> 16u32) & 0xff) as u8,
        ((value >> 24u32) & 0xff) as u8,
    ]
}

/// Little-endian bytes of a `u64`.
pub open spec fn enc_u64(value: u64) -> Seq<u8> {
    seq![
        (value & 0xff) as u8,
        ((value >> 8u64) & 0xff) as u8,
        ((value >> 16u64) & 0xff) as u8,
        ((value >> 24u64) & 0xff) as u8,
        ((value >> 32u64) & 0xff) as u8,
        ((value >> 40u64) & 0xff) as u8,
        ((value >> 48u64) & 0xff) as u8,
        ((value >> 56u64) & 0xff) as u8,
    ]
}

/// Little-endian two's-complement bytes of an `i32`.
pub open spec fn enc_i32(value: i32) -> Seq<u8> {
    enc_u32(value as u32)
}

/// One byte: one for true, zero for false.
pub open spec fn enc_bool(value: bool) -> Seq<u8> {
    seq![if value { 1u8 } else { 0u8 }]
}

/// A destination for canonical bytes.
pub trait CanonicalSink {
    /// Every byte written so far, in order.
    spec fn log(&self) -> Seq<u8>;

    /// Writes one byte.
    fn put(&mut self, value: u8)
        ensures
            final(self).log() == old(self).log().push(value),
    ;
}

/// Collects canonical bytes into a vector.
pub struct CanonicalBytes {
    bytes: Vec<u8>,
}

impl CanonicalBytes {
    /// An empty byte collector.
    pub fn new() -> (r: Self)
        ensures
            r.log() == Seq::<u8>::empty(),
    {
        CanonicalBytes { bytes: Vec::new() }
    }

    /// The collected bytes.
    pub fn finish(self) -> (r: Vec<u8>)
        ensures
            r@ == self.log(),
    {
        self.bytes
    }
}

impl CanonicalSink for CanonicalBytes {
    closed spec fn log(&self) -> Seq<u8> {
        self.bytes@
    }

    fn put(&mut self, value: u8) {
        self.bytes.push(value);
    }
}

/// A running FNV-1a 64-bit hash.
pub struct Fnva64 {
    value: u64,
    seen: Ghost<Seq<u8>>,
}

impl Fnva64 {
    /// The hash always equals FNV-1a over the bytes written so far.
    #[verifier::type_invariant]
    spec fn hash_matches(self) -> bool {
        self.value == fnv_fold(self.seen@)
    }

    /// A hash of no bytes.
    pub fn new() -> (r: Self)
        ensures
            r.log() == Seq::<u8>::empty(),
    {
        Fnva64 { value: FNV_BASIS, seen: Ghost(Seq::empty()) }
    }

    /// The hash of every byte written so far.
    pub fn finish(&self) -> (r: u64)
        ensures
            r == fnv_fold(self.log()),
    {
        proof {
            use_type_invariant(self);
        }
        self.value
    }
}

impl CanonicalSink for Fnva64 {
    closed spec fn log(&self) -> Seq<u8> {
        self.seen@
    }

    fn put(&mut self, value: u8) {
        proof {
            use_type_invariant(&*self);
        }
        let next = (self.value ^ (value as u64)).wrapping_mul(FNV_PRIME);
        let ghost seen = self.seen@.push(value);
        proof {
            assert(seen.drop_last() =~= self.seen@);
        }
        *self = Fnva64 { value: next, seen: Ghost(seen) };
    }
}

/// Writes a `u32` in little-endian order.
pub(crate) fn write_u32<S: CanonicalSink>(sink: &mut S, value: u32)
    ensures
        final(sink).log() == old(sink).log() + enc_u32(value),
{
    let ghost start = sink.log();
    sink.put((value & 0xff) as u8);
    sink.put(((value >> 8u32) & 0xff) as u8);
    sink.put(((value >> 16u32) & 0xff) as u8);
    sink.put(((value >> 24u32) & 0xff) as u8);
    proof {
        assert(sink.log() =~= start + enc_u32(value));
    }
}

/// Writes a `u64` in little-endian order.
pub(crate) fn write_u64<S: CanonicalSink>(sink: &mut S, value: u64)
    ensures
        final(sink).log() == old(sink).log() + enc_u64(value),
{
    let ghost start = sink.log();
    sink.put((value & 0xff) as u8);
    sink.put(((value >> 8u64) & 0xff) as u8);
    sink.put(((value >> 16u64) & 0xff) as u8);
    sink.put(((value >> 24u64) & 0xff) as u8);
    sink.put(((value >> 32u64) & 0xff) as u8);
    sink.put(((value >> 40u64) & 0xff) as u8);
    sink.put(((value >> 48u64) & 0xff) as u8);
    sink.put(((value >> 56u64) & 0xff) as u8);
    proof {
        assert(sink.log() =~= start + enc_u64(value));
    }
}

/// Writes an `i32` as its two's-complement little-endian bytes.
pub(crate) fn write_i32<S: CanonicalSink>(sink: &mut S, value: i32)
    ensures
        final(sink).log() == old(sink).log() + enc_i32(value),
{
    write_u32(sink, value as u32);
}

/// Writes a boolean as one byte.
pub(crate) fn write_bool<S: CanonicalSink>(sink: &mut S, value: bool)
    ensures
        final(sink).log() == old(sink).log() + enc_bool(value),
{
    let ghost start = sink.log();
    sink.put(if value {
        1u8
    } else {
        0u8
    });
    proof {
        assert(sink.log() =~= start + enc_bool(value));
    }
}

impl GameState {
    /// Returns the full-information canonical byte representation.
    pub fn canonical_bytes(&self) -> (r: Vec<u8>)
        ensures
            r@ == enc_game_state(*self),
    {
        let mut bytes = CanonicalBytes::new();
        write_game_state(&mut bytes, self);
        assert(bytes.log() =~= enc_game_state(*self));
        bytes.finish()
    }

    /// Computes the canonical FNV-1a state hash of the canonical bytes.
    pub fn deterministic_hash(&self) -> (r: StateHash)
        ensures
            r.0 == state_hash(*self),
    {
        let bytes = self.canonical_bytes();
        let mut hash = Fnva64::new();
        let mut i: usize = 0;
        while i < bytes.len()
            invariant
                i <= bytes@.len(),
                hash.log() == bytes@.subrange(0, i as int),
            decreases bytes@.len() - i,
        {
            hash.put(bytes[i]);
            proof {
                assert(hash.log() =~= bytes@.subrange(0, i + 1));
            }
            i = i + 1;
        }
        assert(bytes@.subrange(0, bytes@.len() as int) =~= bytes@);
        StateHash(hash.finish())
    }

    /// Computes the canonical FNV-1a state hash without building the byte vector.
    pub fn deterministic_hash_streaming(&self) -> (r: StateHash)
        ensures
            r.0 == state_hash(*self),
    {
        let mut hash = Fnva64::new();
        write_game_state(&mut hash, self);
        assert(hash.log() =~= enc_game_state(*self));
        StateHash(hash.finish())
    }
}

/// Canonical bytes of one `Option<i32>`.
#[verifier::opaque]
pub open spec fn enc_optional_i32(o: Option<i32>) -> Seq<u8> {
    (match o {
            Some(v) => seq![1u8] + enc_i32(v),
            None => seq![0u8],
        })
}

/// Canonical bytes of one `Option<PlayerId>`.
#[verifier::opaque]
pub open spec fn enc_optional_player(o: Option<PlayerId>) -> Seq<u8> {
    (match o {
            Some(v) => seq![1u8] + enc_u32(v.0),
            None => seq![0u8],
        })
}

/// Canonical bytes of one `Option<TriggerId>`.
#[verifier::opaque]
pub open spec fn enc_optional_trigger(o: Option<TriggerId>) -> Seq<u8> {
    (match o {
            Some(v) => seq![1u8] + enc_u32(v.0),
            None => seq![0u8],
        })
}

/// Canonical bytes of one `Option<ActivatedAbilityId>`.
#[verifier::opaque]
pub open spec fn enc_optional_activated_ability(o: Option<ActivatedAbilityId>) -> Seq<u8> {
    (match o {
            Some(v) => seq![1u8] + enc_u32(v.0),
            None => seq![0u8],
        })
}

/// Canonical bytes of one `Option<Step>`.
#[verifier::opaque]
pub open spec fn enc_optional_step(o: Option<Step>) -> Seq<u8> {
    (match o {
            Some(v) => seq![1u8] + seq![v.spec_canonical_code()],
            None => seq![0u8],
        })
}

/// Canonical bytes of one `GameOutcome`.
#[verifier::opaque]
pub open spec fn enc_game_outcome(outcome: GameOutcome) -> Seq<u8> {
    seq![outcome.spec_canonical_code()] + (match outcome {
            GameOutcome::Won(player) => enc_u32(player.0),
            _ => Seq::<u8>::empty(),
        })
}

/// Canonical bytes of one `CleanupReport`.
#[verifier::opaque]
pub open spec fn enc_cleanup_report(report: CleanupReport) -> Seq<u8> {
    enc_u32(report.discarded) + enc_u32(report.expired_until_end_of_turn) + enc_u32(report.expired_this_turn)
}

/// Canonical bytes of one `ManaPool`.
#[verifier::opaque]
pub open spec fn enc_mana_pool(pool: ManaPool) -> Seq<u8> {
    enc_u32(pool.white) + enc_u32(pool.blue) + enc_u32(pool.black) + enc_u32(pool.red) + enc_u32(pool.green) + enc_u32(pool.colorless)
}

/// Canonical bytes of one `CreatureKeywords`.
#[verifier::opaque]
pub open spec fn enc_creature_keywords(keywords: CreatureKeywords) -> Seq<u8> {
    enc_u32(keywords.spec_canonical_bits() as u32)
}

/// Canonical bytes of one `ObjectColors`.
#[verifier::opaque]
pub open spec fn enc_object_colors(colors: ObjectColors) -> Seq<u8> {
    seq![colors.spec_canonical_bits() as u8]
}

/// Canonical bytes of one `ObjectTypes`.
#[verifier::opaque]
pub open spec fn enc_object_types(types: ObjectTypes) -> Seq<u8> {
    seq![types.spec_canonical_bits() as u8]
}

/// Canonical bytes of one `BaseCreatureCharacteristics`.
#[verifier::opaque]
pub open spec fn enc_base_creature_characteristics(base: BaseCreatureCharacteristics) -> Seq<u8> {
    enc_i32(base.power) + enc_i32(base.toughness) + enc_creature_keywords(base.keywords)
}

/// Canonical bytes of one `Option<BaseCreatureCharacteristics>`.
#[verifier::opaque]
pub open spec fn enc_optional_base_creature_characteristics(o: Option<BaseCreatureCharacteristics>) -> Seq<u8> {
    (match o {
            Some(v) => seq![1u8] + enc_base_creature_characteristics(v),
            None => seq![0u8],
        })
}

/// Canonical bytes of one `ZoneId`.
#[verifier::opaque]
pub open spec fn enc_zone_id(zone: ZoneId) -> Seq<u8> {
    seq![zone.kind.spec_canonical_code()] + (match zone.owner {
            Some(owner) => seq![1u8] + enc_u32(owner.0),
            None => seq![0u8],
        })
}

/// Canonical bytes of one `EffectDuration`.
#[verifier::opaque]
pub open spec fn enc_effect_duration(duration: EffectDuration) -> Seq<u8> {
    seq![duration.spec_canonical_code()] + (match duration {
            EffectDuration::UntilStepBegins(step) => seq![step.spec_canonical_code()],
            EffectDuration::UntilPhaseEnds(phase) => seq![phase.spec_canonical_code()],
            _ => Seq::<u8>::empty(),
        })
}

/// Canonical bytes of one `Option<ObjectId>`.
#[verifier::opaque]
pub open spec fn enc_optional_object(o: Option<ObjectId>) -> Seq<u8> {
    (match o {
            Some(v) => seq![1u8] + enc_u32(v.0),
            None => seq![0u8],
        })
}

/// Canonical bytes of one `TargetKind`.
#[verifier::opaque]
pub open spec fn enc_target_kind(kind: TargetKind) -> Seq<u8> {
    seq![kind.spec_canonical_code()] + (match kind {
            TargetKind::ObjectInZone(zone) => enc_zone_id(zone),
            _ => Seq::<u8>::empty(),
        })
}

/// Canonical bytes of one `TargetRequirement`.
#[verifier::opaque]
pub open spec fn enc_target_requirement(requirement: TargetRequirement) -> Seq<u8> {
    enc_target_kind(requirement.kind)
}

/// Canonical bytes of one `TargetChoice`.
#[verifier::opaque]
pub open spec fn enc_target_choice(choice: TargetChoice) -> Seq<u8> {
    seq![choice.spec_canonical_code()] + (match choice {
            TargetChoice::Player(player) => enc_u32(player.0),
            TargetChoice::Object(object) => enc_u32(object.0),
        })
}

/// Canonical bytes of one `Option<ZoneId>`.
#[verifier::opaque]
pub open spec fn enc_optional_zone(o: Option<ZoneId>) -> Seq<u8> {
    (match o {
            Some(v) => seq![1u8] + enc_zone_id(v),
            None => seq![0u8],
        })
}

/// Canonical bytes of one `TargetSnapshot`.
#[verifier::opaque]
pub open spec fn enc_target_snapshot(target: TargetSnapshot) -> Seq<u8> {
    enc_target_requirement(target.requirement) + enc_target_choice(target.choice) + enc_optional_zone(target.original_zone)
}

/// Canonical bytes of one `PaymentPlan`.
#[verifier::opaque]
pub open spec fn enc_payment_plan(payment: PaymentPlan) -> Seq<u8> {
    enc_mana_pool(payment.paid()) + enc_mana_pool(payment.generic_paid()) + enc_u32(payment.generic_required()) + enc_u32(payment.x_value()) + enc_u32(payment.waste_score())
}

/// Canonical bytes of one `Option<PaymentPlan>`.
#[verifier::opaque]
pub open spec fn enc_optional_payment_plan(o: Option<PaymentPlan>) -> Seq<u8> {
    (match o {
            Some(v) => seq![1u8] + enc_payment_plan(v),
            None => seq![0u8],
        })
}

/// Canonical bytes of one `GameEventKind`.
#[verifier::opaque]
pub open spec fn enc_game_event_kind(kind: GameEventKind) -> Seq<u8> {
    seq![kind.spec_canonical_code()]
}

/// Canonical bytes of one `TriggerObjectFilter`.
#[verifier::opaque]
pub open spec fn enc_trigger_object_filter(filter: TriggerObjectFilter) -> Seq<u8> {
    seq![filter.spec_canonical_code()] + (match filter {
            TriggerObjectFilter::Object(object) => enc_u32(object.0),
            _ => Seq::<u8>::empty(),
        })
}

/// Canonical bytes of one `TriggerPlayerFilter`.
#[verifier::opaque]
pub open spec fn enc_trigger_player_filter(filter: TriggerPlayerFilter) -> Seq<u8> {
    seq![filter.spec_canonical_code()] + (match filter {
            TriggerPlayerFilter::Player(player) => enc_u32(player.0),
            _ => Seq::<u8>::empty(),
        })
}

/// Canonical bytes of one `TriggerZoneFilter`.
#[verifier::opaque]
pub open spec fn enc_trigger_zone_filter(filter: TriggerZoneFilter) -> Seq<u8> {
    seq![filter.spec_canonical_code()] + (match filter {
            TriggerZoneFilter::Any => Seq::<u8>::empty(),
            TriggerZoneFilter::Exact(zone) => enc_zone_id(zone),
            TriggerZoneFilter::Kind(kind) => seq![kind.spec_canonical_code()],
            TriggerZoneFilter::Owned { owner, kind } => enc_trigger_player_filter(owner) + seq![kind.spec_canonical_code()],
        })
}

/// Canonical bytes of one `TriggerCondition`.
#[verifier::opaque]
pub open spec fn enc_trigger_condition(condition: TriggerCondition) -> Seq<u8> {
    seq![condition.spec_canonical_code()] + (match condition {
            TriggerCondition::EventKind(kind) => enc_game_event_kind(kind),
            TriggerCondition::ObjectMoved { object, from, to } => enc_trigger_object_filter(object) + enc_trigger_zone_filter(from) + enc_trigger_zone_filter(to),
            TriggerCondition::StepBegan { step } => seq![step.spec_canonical_code()],
            TriggerCondition::LifeLost { player } => enc_trigger_player_filter(player),
            TriggerCondition::LifeGained { player } => enc_trigger_player_filter(player),
            TriggerCondition::DamageMarked { object } => enc_trigger_object_filter(object),
            TriggerCondition::StackEntryResolved { kind, outcome } => enc_optional_stack_kind(kind) + enc_optional_resolution_outcome(outcome),
        })
}

/// Canonical bytes of one `Option<StackObjectKind>`.
#[verifier::opaque]
pub open spec fn enc_optional_stack_kind(o: Option<StackObjectKind>) -> Seq<u8> {
    (match o {
            Some(v) => seq![1u8] + seq![v.spec_canonical_code()],
            None => seq![0u8],
        })
}

/// Canonical bytes of one `Option<ResolutionOutcome>`.
#[verifier::opaque]
pub open spec fn enc_optional_resolution_outcome(o: Option<ResolutionOutcome>) -> Seq<u8> {
    (match o {
            Some(v) => seq![1u8] + seq![v.spec_canonical_code()],
            None => seq![0u8],
        })
}

/// Canonical bytes of one `TriggerInterveningIf`.
#[verifier::opaque]
pub open spec fn enc_trigger_intervening_if(intervening_if: TriggerInterveningIf) -> Seq<u8> {
    seq![intervening_if.spec_canonical_code()] + (match intervening_if {
            TriggerInterveningIf::SourceInZone(zone) => enc_zone_id(zone),
            TriggerInterveningIf::ControllerLifeAtMost(life) => enc_i32(life),
            _ => Seq::<u8>::empty(),
        })
}

/// Canonical bytes of one `TriggerDuration`.
#[verifier::opaque]
pub open spec fn enc_trigger_duration(duration: TriggerDuration) -> Seq<u8> {
    seq![duration.spec_canonical_code()]
}

/// Canonical bytes of one `TriggerDefinition`.
#[verifier::opaque]
pub open spec fn enc_trigger_definition(definition: TriggerDefinition) -> Seq<u8> {
    enc_u32(definition.controller.0) + enc_optional_object(definition.source) + enc_trigger_condition(definition.condition) + enc_trigger_intervening_if(definition.intervening_if) + enc_trigger_duration(definition.duration)
}

/// Canonical bytes of one `TriggerSubscription`.
#[verifier::opaque]
pub open spec fn enc_trigger_subscription(subscription: TriggerSubscription) -> Seq<u8> {
    enc_u32(subscription.id.0) + enc_trigger_definition(subscription.definition) + enc_game_event_kind(subscription.event_kind)
}

/// Canonical bytes of one `PendingTriggeredAbility`.
#[verifier::opaque]
pub open spec fn enc_pending_trigger(trigger: PendingTriggeredAbility) -> Seq<u8> {
    enc_u32(trigger.trigger.0) + enc_u32(trigger.controller.0) + enc_optional_object(trigger.source) + enc_u64(trigger.event_sequence) + enc_u32(trigger.event_turn)
}

/// Canonical bytes of one `ActivationTiming`.
#[verifier::opaque]
pub open spec fn enc_activation_timing(timing: ActivationTiming) -> Seq<u8> {
    seq![timing.spec_canonical_code()]
}

/// Canonical bytes of one `AbilityPlayer`.
#[verifier::opaque]
pub open spec fn enc_ability_player(player: AbilityPlayer) -> Seq<u8> {
    seq![player.spec_canonical_code()] + (match player {
            AbilityPlayer::Player(p) => enc_u32(p.0),
            _ => Seq::<u8>::empty(),
        })
}

/// Canonical bytes of one `ActivatedAbilityEffect`.
#[verifier::opaque]
pub open spec fn enc_activated_ability_effect(effect: ActivatedAbilityEffect) -> Seq<u8> {
    seq![effect.spec_canonical_code()] + (match effect {
            ActivatedAbilityEffect::AddMana { player, mana } => enc_ability_player(player) + enc_mana_pool(mana),
            ActivatedAbilityEffect::GainLife { player, amount } => enc_ability_player(player) + enc_u32(amount),
            ActivatedAbilityEffect::LoseLife { player, amount } => enc_ability_player(player) + enc_u32(amount),
        })
}

/// Canonical bytes of one `ManaCost`.
#[verifier::opaque]
pub open spec fn enc_mana_cost(cost: ManaCost) -> Seq<u8> {
    enc_u32(cost.white) + enc_u32(cost.blue) + enc_u32(cost.black) + enc_u32(cost.red) + enc_u32(cost.green) + enc_u32(cost.generic) + enc_u32(cost.x_count) + enc_u32(cost.x_value)
}

/// Canonical bytes of one `ActivationCost`.
#[verifier::opaque]
pub open spec fn enc_activation_cost(cost: ActivationCost) -> Seq<u8> {
    enc_mana_cost(cost.mana) + enc_bool(cost.tap_source) + enc_optional_i32(cost.loyalty_delta)
}

/// Canonical bytes of one `ActivatedAbilityDefinition`.
#[verifier::opaque]
pub open spec fn enc_activated_ability_definition(definition: ActivatedAbilityDefinition) -> Seq<u8> {
    enc_u32(definition.controller.0) + enc_optional_object(definition.source) + enc_activation_timing(definition.timing) + enc_activation_cost(definition.cost) + enc_activated_ability_effect(definition.effect) + enc_bool(definition.mana_ability)
}

/// Canonical bytes of one `ActivatedAbilitySubscription`.
#[verifier::opaque]
pub open spec fn enc_activated_ability_subscription(subscription: ActivatedAbilitySubscription) -> Seq<u8> {
    enc_u32(subscription.id.0) + enc_activated_ability_definition(subscription.definition)
}

/// Canonical bytes of one `CostModifierScope`.
#[verifier::opaque]
pub open spec fn enc_cost_modifier_scope(scope: CostModifierScope) -> Seq<u8> {
    seq![scope.spec_canonical_code()] + (match scope {
            CostModifierScope::AllActivatedAbilities => Seq::<u8>::empty(),
            CostModifierScope::Ability(ability) => enc_u32(ability.0),
            CostModifierScope::Source(object) => enc_u32(object.0),
            CostModifierScope::Controller(player) => enc_u32(player.0),
        })
}

/// Canonical bytes of one `CostModifierOperation`.
#[verifier::opaque]
pub open spec fn enc_cost_modifier_operation(operation: CostModifierOperation) -> Seq<u8> {
    seq![operation.spec_canonical_code()] + (match operation {
            CostModifierOperation::AddManaCost(cost) => enc_mana_cost(cost),
            CostModifierOperation::AddGeneric(amount) => enc_u32(amount),
            CostModifierOperation::ReduceGeneric(amount) => enc_u32(amount),
        })
}

/// Canonical bytes of one `CostModifierDefinition`.
#[verifier::opaque]
pub open spec fn enc_cost_modifier_definition(definition: CostModifierDefinition) -> Seq<u8> {
    enc_u32(definition.controller.0) + enc_optional_object(definition.source) + enc_cost_modifier_scope(definition.scope) + enc_cost_modifier_operation(definition.operation)
}

/// Canonical bytes of one `CostModifierSubscription`.
#[verifier::opaque]
pub open spec fn enc_cost_modifier_subscription(subscription: CostModifierSubscription) -> Seq<u8> {
    enc_u32(subscription.id.0) + enc_cost_modifier_definition(subscription.definition)
}

/// Canonical bytes of one `ReplacementSourceFilter`.
#[verifier::opaque]
pub open spec fn enc_replacement_source_filter(filter: ReplacementSourceFilter) -> Seq<u8> {
    seq![filter.spec_canonical_code()] + (match filter {
            ReplacementSourceFilter::Object(object) => enc_u32(object.0),
            _ => Seq::<u8>::empty(),
        })
}

/// Canonical bytes of one `ReplacementDamageTargetFilter`.
#[verifier::opaque]
pub open spec fn enc_replacement_damage_target_filter(filter: ReplacementDamageTargetFilter) -> Seq<u8> {
    seq![filter.spec_canonical_code()] + (match filter {
            ReplacementDamageTargetFilter::Any => Seq::<u8>::empty(),
            ReplacementDamageTargetFilter::Player(player) => enc_u32(player.0),
            ReplacementDamageTargetFilter::Object(object) => enc_u32(object.0),
        })
}

/// Canonical bytes of one `ReplacementCondition`.
#[verifier::opaque]
pub open spec fn enc_replacement_condition(condition: ReplacementCondition) -> Seq<u8> {
    seq![condition.spec_canonical_code()] + (match condition {
            ReplacementCondition::DamageWouldBeDealt { source, target, combat_only } => enc_replacement_source_filter(source) + enc_replacement_damage_target_filter(target) + enc_bool(combat_only),
        })
}

/// Canonical bytes of one `ReplacementOperation`.
#[verifier::opaque]
pub open spec fn enc_replacement_operation(operation: ReplacementOperation) -> Seq<u8> {
    seq![operation.spec_canonical_code()] + (match operation {
            ReplacementOperation::PreventDamage(amount) => enc_u32(amount),
            ReplacementOperation::AddDamage(amount) => enc_u32(amount),
            ReplacementOperation::SetDamage(amount) => enc_u32(amount),
            _ => Seq::<u8>::empty(),
        })
}

/// Canonical bytes of one `ReplacementDuration`.
#[verifier::opaque]
pub open spec fn enc_replacement_duration(duration: ReplacementDuration) -> Seq<u8> {
    seq![duration.spec_canonical_code()]
}

/// Canonical bytes of one `ReplacementDefinition`.
#[verifier::opaque]
pub open spec fn enc_replacement_definition(definition: ReplacementDefinition) -> Seq<u8> {
    enc_u32(definition.controller.0) + enc_optional_object(definition.source) + enc_replacement_condition(definition.condition) + enc_replacement_operation(definition.operation) + enc_replacement_duration(definition.duration) + enc_bool(definition.self_replacement)
}

/// Canonical bytes of one `ReplacementSubscription`.
#[verifier::opaque]
pub open spec fn enc_replacement_subscription(subscription: ReplacementSubscription) -> Seq<u8> {
    enc_u32(subscription.id.0) + enc_replacement_definition(subscription.definition)
}

/// Canonical bytes of one `ReplacementEffectId`.
#[verifier::opaque]
pub open spec fn enc_replacement_effect_id(id: ReplacementEffectId) -> Seq<u8> {
    enc_u32(id.0)
}

/// Canonical bytes of one `ReplacementChoiceOrder`.
#[verifier::opaque]
pub open spec fn enc_replacement_choice_order(order: ReplacementChoiceOrder) -> Seq<u8> {
    enc_u32(order.chooser.0) + enc_u32((order.order@.len()) as u32) + enc_list_replacement_effect_id(order.order@)
}

/// Canonical bytes of one `ContinuousEffectTarget`.
#[verifier::opaque]
pub open spec fn enc_continuous_effect_target(target: ContinuousEffectTarget) -> Seq<u8> {
    seq![target.spec_canonical_code()] + (match target {
            ContinuousEffectTarget::Object(object) => enc_u32(object.0),
            _ => Seq::<u8>::empty(),
        })
}

/// Canonical bytes of one `ContinuousEffectLayer`.
#[verifier::opaque]
pub open spec fn enc_continuous_effect_layer(layer: ContinuousEffectLayer) -> Seq<u8> {
    seq![layer.spec_canonical_code()]
}

/// Canonical bytes of one `ContinuousEffectDuration`.
#[verifier::opaque]
pub open spec fn enc_continuous_effect_duration(duration: ContinuousEffectDuration) -> Seq<u8> {
    seq![duration.spec_canonical_code()]
}

/// Canonical bytes of one `ContinuousEffectOperation`.
#[verifier::opaque]
pub open spec fn enc_continuous_effect_operation(operation: ContinuousEffectOperation) -> Seq<u8> {
    seq![operation.spec_canonical_code()] + enc_continuous_effect_layer(operation.spec_layer()) + (match operation {
            ContinuousEffectOperation::CopyBaseCreature { from } => enc_u32(from.0),
            ContinuousEffectOperation::ChangeController { controller } => enc_u32(controller.0),
            ContinuousEffectOperation::SetTextMarker { marker } => enc_u32(marker),
            ContinuousEffectOperation::SetTypes { types } => enc_object_types(types),
            ContinuousEffectOperation::AddTypes { types } => enc_object_types(types),
            ContinuousEffectOperation::RemoveTypes { types } => enc_object_types(types),
            ContinuousEffectOperation::SetColors { colors } => enc_object_colors(colors),
            ContinuousEffectOperation::AddKeywords { keywords } => enc_creature_keywords(keywords),
            ContinuousEffectOperation::RemoveKeywords { keywords } => enc_creature_keywords(keywords),
            ContinuousEffectOperation::SetBasePowerToughness { power, toughness } => enc_i32(power) + enc_i32(toughness),
            ContinuousEffectOperation::SetPowerToughness { power, toughness } => enc_i32(power) + enc_i32(toughness),
            ContinuousEffectOperation::ModifyPowerToughness { power, toughness } => enc_i32(power) + enc_i32(toughness),
            ContinuousEffectOperation::SwitchPowerToughness => Seq::<u8>::empty(),
        })
}

/// Canonical bytes of one `ContinuousEffectId`.
#[verifier::opaque]
pub open spec fn enc_continuous_effect_id(id: ContinuousEffectId) -> Seq<u8> {
    enc_u32(id.0)
}

/// Canonical bytes of one `ContinuousEffectDefinition`.
#[verifier::opaque]
pub open spec fn enc_continuous_effect_definition(definition: ContinuousEffectDefinition) -> Seq<u8> {
    enc_u32(definition.controller.0) + enc_optional_object(definition.source) + enc_continuous_effect_target(definition.target) + enc_continuous_effect_operation(definition.operation) + enc_continuous_effect_duration(definition.duration) + enc_u64(definition.timestamp) + enc_u32((definition.dependencies@.len()) as u32) + enc_list_continuous_effect_id(definition.dependencies@)
}

/// Canonical bytes of one `ContinuousEffectSubscription`.
#[verifier::opaque]
pub open spec fn enc_continuous_effect_subscription(subscription: ContinuousEffectSubscription) -> Seq<u8> {
    enc_u32(subscription.id.0) + enc_continuous_effect_definition(subscription.definition)
}

/// Canonical bytes of one `StackEntry`.
#[verifier::opaque]
pub open spec fn enc_stack_entry(entry: StackEntry) -> Seq<u8> {
    enc_u32(entry.id.0) + enc_u32(entry.controller.0) + enc_optional_object(entry.object) + enc_optional_trigger(entry.trigger) + enc_optional_activated_ability(entry.activated_ability) + seq![entry.kind.spec_canonical_code()] + enc_u32((entry.targets@.len()) as u32) + enc_list_target_snapshot(entry.targets@) + enc_optional_payment_plan(entry.payment)
}

/// Canonical bytes of one `bool`.
#[verifier::opaque]
pub open spec fn enc_bool_value(value: bool) -> Seq<u8> {
    enc_bool(value)
}

/// Canonical bytes of one `ResolutionRecord`.
#[verifier::opaque]
pub open spec fn enc_resolution_record(record: ResolutionRecord) -> Seq<u8> {
    enc_u32(record.stack_entry.0) + enc_u32(record.controller.0) + enc_optional_object(record.object) + enc_optional_trigger(record.trigger) + enc_optional_activated_ability(record.activated_ability) + seq![record.kind.spec_canonical_code()] + enc_u32((record.targets@.len()) as u32) + enc_list_target_snapshot(record.targets@) + enc_u32((record.legal_targets@.len()) as u32) + enc_list_bool_value(record.legal_targets@) + seq![record.outcome.spec_canonical_code()]
}

/// Canonical bytes of one `EventRecord`.
#[verifier::opaque]
pub open spec fn enc_event_record(record: EventRecord) -> Seq<u8> {
    enc_u64(record.sequence) + enc_u32(record.turn) + enc_game_event(record.event)
}

/// Canonical bytes of one `GameEvent`.
#[verifier::opaque]
pub open spec fn enc_event_payload_1(event: GameEvent) -> Seq<u8> {
    (match event {
            GameEvent::SeedSet { seed } => enc_u64(seed),
            GameEvent::PlayerAdded { player } => enc_u32(player.0),
            GameEvent::OpeningHandKept { player } => enc_u32(player.0),
            GameEvent::PriorityPassed { player } => enc_u32(player.0),
            GameEvent::EmptyLibraryDraw { player } => enc_u32(player.0),
            GameEvent::TurnOrderDecided { starting_player } => enc_u32(starting_player.0),
            GameEvent::OpeningHandsDrawn => Seq::<u8>::empty(),
            GameEvent::CleanupPriorityRequested => Seq::<u8>::empty(),
            GameEvent::ManaPoolsCleared => Seq::<u8>::empty(),
            GameEvent::MulliganTaken { player, mulligans_taken } => enc_u32(player.0) + enc_u32(mulligans_taken),
            GameEvent::OpeningHandCardBottomed { player, object } => enc_u32(player.0) + enc_u32(object.0),
            GameEvent::PlayerMaxHandSizeSet { player, max_hand_size } => enc_u32(player.0) + enc_u32(max_hand_size),
            GameEvent::LifeTotalSet { player, life } => enc_u32(player.0) + enc_i32(life),
            GameEvent::LifeLost { player, amount, life } => enc_u32(player.0) + enc_u32(amount) + enc_i32(life),
            _ => Seq::<u8>::empty(),
        })
}

/// Canonical bytes of one `GameEvent`.
#[verifier::opaque]
pub open spec fn enc_event_payload_2(event: GameEvent) -> Seq<u8> {
    (match event {
            GameEvent::LifeGained { player, amount, life } => enc_u32(player.0) + enc_u32(amount) + enc_i32(life),
            GameEvent::PoisonCountersAdded { player, amount, poison } => enc_u32(player.0) + enc_u32(amount) + enc_u32(poison),
            GameEvent::ManaPoolChanged { player, mana_pool } => enc_u32(player.0) + enc_mana_pool(mana_pool),
            GameEvent::ManaPaid { player, payment, mana_pool } => enc_u32(player.0) + enc_payment_plan(payment) + enc_mana_pool(mana_pool),
            GameEvent::ObjectCreated { object, card, owner, controller, zone } => enc_u32(object.0) + enc_u32(card.0) + enc_u32(owner.0) + enc_u32(controller.0) + enc_zone_id(zone),
            GameEvent::ObjectMoved { object, from, to } => enc_u32(object.0) + enc_zone_id(from) + enc_zone_id(to),
            GameEvent::ZoneShuffled { zone } => enc_zone_id(zone),
            GameEvent::BaseCreatureCharacteristicsSet { object, base } => enc_u32(object.0) + enc_base_creature_characteristics(base),
            GameEvent::BaseCreatureCharacteristicsCleared { object } => enc_u32(object.0),
            GameEvent::ObjectTapped { object, tapped } => enc_u32(object.0) + enc_bool(tapped),
            GameEvent::DamageMarked { object, amount, total_damage } => enc_u32(object.0) + enc_u32(amount) + enc_u32(total_damage),
            GameEvent::TurnStarted { turn, active_player } => enc_u32(turn) + enc_u32(active_player.0),
            GameEvent::StepEnded { step } => seq![step.spec_canonical_code()],
            GameEvent::StepBegan { step } => seq![step.spec_canonical_code()],
            _ => Seq::<u8>::empty(),
        })
}

/// Canonical bytes of one `GameEvent`.
#[verifier::opaque]
pub open spec fn enc_event_payload_3(event: GameEvent) -> Seq<u8> {
    (match event {
            GameEvent::PriorityChanged { player } => enc_optional_player(player),
            GameEvent::StackEntryAdded { entry, controller, object, kind } => enc_u32(entry.0) + enc_u32(controller.0) + enc_optional_object(object) + seq![kind.spec_canonical_code()],
            GameEvent::StackEntryResolved { entry, outcome } => enc_u32(entry.0) + seq![outcome.spec_canonical_code()],
            GameEvent::AttackersDeclared { player, count } => enc_u32(player.0) + enc_u32(count),
            GameEvent::AttackDeclared { attacker, defending_player } => enc_u32(attacker.0) + enc_u32(defending_player.0),
            GameEvent::BlockersDeclared { defending_player, count } => enc_u32(defending_player.0) + enc_u32(count),
            GameEvent::BlockDeclared { blocker, attacker } => enc_u32(blocker.0) + enc_u32(attacker.0),
            GameEvent::CombatDamageDealt { record } => enc_combat_damage_record(record),
            GameEvent::PlayerLostByStateBasedAction { player, kind } => enc_u32(player.0) + seq![kind.spec_canonical_code()],
            GameEvent::PermanentMovedByStateBasedAction { object, kind } => enc_u32(object.0) + seq![kind.spec_canonical_code()],
            GameEvent::GameOutcomeChanged { outcome } => enc_game_outcome(outcome),
            GameEvent::DurationMarkerAdded { marker, duration } => enc_u32(marker.0) + enc_effect_duration(duration),
            GameEvent::DurationMarkersExpired { duration, count } => enc_effect_duration(duration) + enc_u32(count),
            _ => Seq::<u8>::empty(),
        })
}

/// Canonical bytes of one `GameEvent`.
#[verifier::opaque]
pub open spec fn enc_event_payload_4(event: GameEvent) -> Seq<u8> {
    (match event {
            GameEvent::CleanupPerformed { report } => enc_cleanup_report(report),
            GameEvent::TriggeredAbilityRegistered { trigger, controller, source, event_kind, duration } => enc_u32(trigger.0) + enc_u32(controller.0) + enc_optional_object(source) + enc_game_event_kind(event_kind) + enc_trigger_duration(duration),
            GameEvent::TriggeredAbilityQueued { trigger, controller, event_sequence } => enc_u32(trigger.0) + enc_u32(controller.0) + enc_u64(event_sequence),
            GameEvent::TriggeredAbilityPutOnStack { trigger, entry, controller } => enc_u32(trigger.0) + enc_u32(entry.0) + enc_u32(controller.0),
            GameEvent::ReplacementEffectRegistered { replacement, controller, source, operation, duration, self_replacement } => enc_u32(replacement.0) + enc_u32(controller.0) + enc_optional_object(source) + enc_replacement_operation(operation) + enc_replacement_duration(duration) + enc_bool(self_replacement),
            GameEvent::ReplacementChoiceOrderSet { chooser, count } => enc_u32(chooser.0) + enc_u32(count),
            GameEvent::ReplacementEffectApplied { replacement, chooser, source, target, operation, original_amount, resulting_amount } => enc_u32(replacement.0) + enc_u32(chooser.0) + enc_optional_object(source) + enc_combat_damage_target(target) + enc_replacement_operation(operation) + enc_u32(original_amount) + enc_u32(resulting_amount),
            GameEvent::ContinuousEffectRegistered { effect, controller, source, target, operation, layer, timestamp } => enc_u32(effect.0) + enc_u32(controller.0) + enc_optional_object(source) + enc_continuous_effect_target(target) + enc_continuous_effect_operation(operation) + enc_continuous_effect_layer(layer) + enc_u64(timestamp),
            GameEvent::ObjectLoyaltySet { object, loyalty } => enc_u32(object.0) + enc_optional_i32(loyalty),
            GameEvent::ActivatedAbilityRegistered { ability, controller, source, mana_ability } => enc_u32(ability.0) + enc_u32(controller.0) + enc_optional_object(source) + enc_bool(mana_ability),
            GameEvent::CostModifierRegistered { modifier, controller, source, operation } => enc_u32(modifier.0) + enc_u32(controller.0) + enc_optional_object(source) + enc_cost_modifier_operation(operation),
            GameEvent::ActivatedAbilityActivated { ability, player, source, mana_ability } => enc_u32(ability.0) + enc_u32(player.0) + enc_optional_object(source) + enc_bool(mana_ability),
            GameEvent::ActivatedAbilityResolved { ability, player, source, effect } => enc_u32(ability.0) + enc_u32(player.0) + enc_optional_object(source) + enc_activated_ability_effect(effect),
            _ => Seq::<u8>::empty(),
        })
}

/// Canonical bytes of one `GameEvent`.
#[verifier::opaque]
pub open spec fn enc_game_event(event: GameEvent) -> Seq<u8> {
    seq![event.spec_canonical_code()] + enc_event_payload_1(event) + enc_event_payload_2(event) + enc_event_payload_3(event) + enc_event_payload_4(event)
}

/// Canonical bytes of one `Option<CombatDamageStepKind>`.
#[verifier::opaque]
pub open spec fn enc_optional_combat_damage_step(o: Option<CombatDamageStepKind>) -> Seq<u8> {
    (match o {
            Some(v) => seq![1u8] + seq![v.spec_canonical_code()],
            None => seq![0u8],
        })
}

/// Canonical bytes of one `CombatDamageTarget`.
#[verifier::opaque]
pub open spec fn enc_combat_damage_target(target: CombatDamageTarget) -> Seq<u8> {
    seq![target.spec_canonical_code()] + (match target {
            CombatDamageTarget::Player(player) => enc_u32(player.0),
            CombatDamageTarget::Object(object) => enc_u32(object.0),
        })
}

/// Canonical bytes of one `ObjectId`.
#[verifier::opaque]
pub open spec fn enc_object_id(id: ObjectId) -> Seq<u8> {
    enc_u32(id.0)
}

/// Canonical bytes of one `PlayerId`.
#[verifier::opaque]
pub open spec fn enc_player_id(id: PlayerId) -> Seq<u8> {
    enc_u32(id.0)
}

/// Canonical bytes of one `AttackingCreature`.
#[verifier::opaque]
pub open spec fn enc_attacking_creature(attacker: AttackingCreature) -> Seq<u8> {
    enc_u32(attacker.object.0) + enc_u32(attacker.defending_player.0) + enc_bool(attacker.blocked) + enc_u32((attacker.blockers@.len()) as u32) + enc_list_object_id(attacker.blockers@)
}

/// Canonical bytes of one `BlockingCreature`.
#[verifier::opaque]
pub open spec fn enc_blocking_creature(blocker: BlockingCreature) -> Seq<u8> {
    enc_u32(blocker.object.0) + enc_u32(blocker.attacker.0)
}

/// Canonical bytes of one `CombatDamageRecord`.
#[verifier::opaque]
pub open spec fn enc_combat_damage_record(record: CombatDamageRecord) -> Seq<u8> {
    enc_u32(record.source.0) + enc_combat_damage_target(record.target) + enc_u32(record.amount) + seq![record.step.spec_canonical_code()] + enc_bool(record.source_had_deathtouch) + enc_bool(record.source_had_lifelink)
}

/// Canonical bytes of one `CombatState`.
#[verifier::opaque]
pub open spec fn enc_combat_state(combat: CombatState) -> Seq<u8> {
    enc_u32((combat.attackers@.len()) as u32) + enc_list_attacking_creature(combat.attackers@) + enc_u32((combat.blockers@.len()) as u32) + enc_list_blocking_creature(combat.blockers@) + enc_u32((combat.damage_records@.len()) as u32) + enc_list_combat_damage_record(combat.damage_records@) + enc_optional_combat_damage_step(combat.damage_step) + enc_u32((combat.first_strike_participants@.len()) as u32) + enc_list_object_id(combat.first_strike_participants@)
}

/// Canonical bytes of one `PlayerState`.
#[verifier::opaque]
pub open spec fn enc_player_state(player: PlayerState) -> Seq<u8> {
    enc_u32(player.id.0) + enc_i32(player.life) + enc_u32(player.poison) + enc_bool(player.lost) + enc_u32(player.max_hand_size) + enc_u32(player.mulligans_taken) + enc_bool(player.opening_hand_kept) + enc_mana_pool(player.mana_pool)
}

/// Canonical bytes of one `ObjectRecord`.
#[verifier::opaque]
pub open spec fn enc_object_record(object: ObjectRecord) -> Seq<u8> {
    enc_u32(object.id.0) + enc_u32(object.card.0) + enc_u32(object.owner.0) + enc_u32(object.controller.0) + enc_bool(object.tapped) + enc_optional_base_creature_characteristics(object.base_creature) + enc_u32(object.damage_marked) + enc_bool(object.deathtouch_damage_marked) + enc_optional_i32(object.loyalty) + enc_u32(object.controlled_since_turn)
}

/// Canonical bytes of one `Zone`.
#[verifier::opaque]
pub open spec fn enc_zone(zone: Zone) -> Seq<u8> {
    enc_zone_id(zone.id) + enc_u32((zone.objects@.len()) as u32) + enc_list_object_id(zone.objects@)
}

/// Canonical bytes of one `DurationMarker`.
#[verifier::opaque]
pub open spec fn enc_duration_marker(marker: DurationMarker) -> Seq<u8> {
    enc_u32(marker.id.0) + enc_effect_duration(marker.duration)
}

/// Canonical bytes of one `GameState`.
#[verifier::opaque]
pub open spec fn enc_state_header(state: GameState) -> Seq<u8> {
    enc_u64(state.seed) + enc_u64(state.rng_state) + enc_u32(state.turn_number) + enc_game_outcome(state.outcome) + enc_optional_player(state.starting_player) + enc_bool(state.opening_hands_drawn) + enc_optional_player(state.active_player) + enc_optional_player(state.priority_player) + enc_u32(state.priority_pass_count) + enc_optional_step(state.current_step) + enc_u32(state.cleanup_iteration) + enc_bool(state.cleanup_priority_requested) + enc_bool(state.cleanup_repeat_pending) + enc_bool(state.attackers_declared_this_combat) + enc_cleanup_report(state.last_cleanup_report)
}

/// Canonical bytes of one `GameState`.
#[verifier::opaque]
pub open spec fn enc_state_board(state: GameState) -> Seq<u8> {
    enc_u32((state.players@.len()) as u32) + enc_list_player_state(state.players@) + enc_u32((state.objects.records@.len()) as u32) + enc_list_object_record(state.objects.records@) + enc_u32((state.zones@.len()) as u32) + enc_list_zone(state.zones@)
}

/// Canonical bytes of one `GameState`.
#[verifier::opaque]
pub open spec fn enc_state_stack(state: GameState) -> Seq<u8> {
    enc_u32(state.next_duration_marker) + enc_u32((state.duration_markers@.len()) as u32) + enc_list_duration_marker(state.duration_markers@) + enc_u32(state.next_stack_entry) + enc_u32((state.stack_entries@.len()) as u32) + enc_list_stack_entry(state.stack_entries@) + enc_u32((state.resolution_log@.len()) as u32) + enc_list_resolution_record(state.resolution_log@)
}

/// Canonical bytes of one `GameState`.
#[verifier::opaque]
pub open spec fn enc_state_triggers(state: GameState) -> Seq<u8> {
    enc_u32(state.next_trigger) + enc_u32((state.trigger_subscriptions@.len()) as u32) + enc_list_trigger_subscription(state.trigger_subscriptions@) + enc_u32((state.pending_triggers@.len()) as u32) + enc_list_pending_trigger(state.pending_triggers@) + enc_u32(state.next_activated_ability) + enc_u32((state.activated_abilities@.len()) as u32) + enc_list_activated_ability_subscription(state.activated_abilities@) + enc_u32(state.next_cost_modifier) + enc_u32((state.cost_modifiers@.len()) as u32) + enc_list_cost_modifier_subscription(state.cost_modifiers@) + enc_u32((state.loyalty_activations_this_turn@.len()) as u32) + enc_list_object_id(state.loyalty_activations_this_turn@)
}

/// Canonical bytes of one `GameState`.
#[verifier::opaque]
pub open spec fn enc_state_effects(state: GameState) -> Seq<u8> {
    enc_u32(state.next_replacement) + enc_u32((state.replacement_effects@.len()) as u32) + enc_list_replacement_subscription(state.replacement_effects@) + enc_u32((state.replacement_choice_orders@.len()) as u32) + enc_list_replacement_choice_order(state.replacement_choice_orders@) + enc_u32(state.next_continuous_effect) + enc_u32((state.continuous_effects@.len()) as u32) + enc_list_continuous_effect_subscription(state.continuous_effects@)
}

/// Canonical bytes of one `GameState`.
#[verifier::opaque]
pub open spec fn enc_state_tail(state: GameState) -> Seq<u8> {
    enc_optional_player(state.deferred_priority_player) + enc_u64(state.next_event_sequence) + enc_u32((state.turn_events@.len()) as u32) + enc_list_event_record(state.turn_events@) + enc_combat_state(state.combat) + enc_u32((state.empty_library_draws_since_sba@.len()) as u32) + enc_list_player_id(state.empty_library_draws_since_sba@)
}

/// Canonical bytes of one `GameState`.
#[verifier::opaque]
pub open spec fn enc_game_state(state: GameState) -> Seq<u8> {
    enc_state_header(state) + enc_state_board(state) + enc_state_stack(state) + enc_state_triggers(state) + enc_state_effects(state) + enc_state_tail(state)
}

/// Canonical bytes of each entry in order.
#[verifier::opaque]
pub open spec fn enc_list_activated_ability_subscription(items: Seq<ActivatedAbilitySubscription>) -> Seq<u8>
    decreases items.len(),
{
    if items.len() == 0 {
        Seq::<u8>::empty()
    } else {
        enc_list_activated_ability_subscription(items.drop_last()) + enc_activated_ability_subscription(items.last())
    }
}

/// Canonical bytes of each entry in order.
#[verifier::opaque]
pub open spec fn enc_list_attacking_creature(items: Seq<AttackingCreature>) -> Seq<u8>
    decreases items.len(),
{
    if items.len() == 0 {
        Seq::<u8>::empty()
    } else {
        enc_list_attacking_creature(items.drop_last()) + enc_attacking_creature(items.last())
    }
}

/// Canonical bytes of each entry in order.
#[verifier::opaque]
pub open spec fn enc_list_blocking_creature(items: Seq<BlockingCreature>) -> Seq<u8>
    decreases items.len(),
{
    if items.len() == 0 {
        Seq::<u8>::empty()
    } else {
        enc_list_blocking_creature(items.drop_last()) + enc_blocking_creature(items.last())
    }
}

/// Canonical bytes of each entry in order.
#[verifier::opaque]
pub open spec fn enc_list_bool_value(items: Seq<bool>) -> Seq<u8>
    decreases items.len(),
{
    if items.len() == 0 {
        Seq::<u8>::empty()
    } else {
        enc_list_bool_value(items.drop_last()) + enc_bool_value(items.last())
    }
}

/// Canonical bytes of each entry in order.
#[verifier::opaque]
pub open spec fn enc_list_combat_damage_record(items: Seq<CombatDamageRecord>) -> Seq<u8>
    decreases items.len(),
{
    if items.len() == 0 {
        Seq::<u8>::empty()
    } else {
        enc_list_combat_damage_record(items.drop_last()) + enc_combat_damage_record(items.last())
    }
}

/// Canonical bytes of each entry in order.
#[verifier::opaque]
pub open spec fn enc_list_continuous_effect_id(items: Seq<ContinuousEffectId>) -> Seq<u8>
    decreases items.len(),
{
    if items.len() == 0 {
        Seq::<u8>::empty()
    } else {
        enc_list_continuous_effect_id(items.drop_last()) + enc_continuous_effect_id(items.last())
    }
}

/// Canonical bytes of each entry in order.
#[verifier::opaque]
pub open spec fn enc_list_continuous_effect_subscription(items: Seq<ContinuousEffectSubscription>) -> Seq<u8>
    decreases items.len(),
{
    if items.len() == 0 {
        Seq::<u8>::empty()
    } else {
        enc_list_continuous_effect_subscription(items.drop_last()) + enc_continuous_effect_subscription(items.last())
    }
}

/// Canonical bytes of each entry in order.
#[verifier::opaque]
pub open spec fn enc_list_cost_modifier_subscription(items: Seq<CostModifierSubscription>) -> Seq<u8>
    decreases items.len(),
{
    if items.len() == 0 {
        Seq::<u8>::empty()
    } else {
        enc_list_cost_modifier_subscription(items.drop_last()) + enc_cost_modifier_subscription(items.last())
    }
}

/// Canonical bytes of each entry in order.
#[verifier::opaque]
pub open spec fn enc_list_duration_marker(items: Seq<DurationMarker>) -> Seq<u8>
    decreases items.len(),
{
    if items.len() == 0 {
        Seq::<u8>::empty()
    } else {
        enc_list_duration_marker(items.drop_last()) + enc_duration_marker(items.last())
    }
}

/// Canonical bytes of each entry in order.
#[verifier::opaque]
pub open spec fn enc_list_event_record(items: Seq<EventRecord>) -> Seq<u8>
    decreases items.len(),
{
    if items.len() == 0 {
        Seq::<u8>::empty()
    } else {
        enc_list_event_record(items.drop_last()) + enc_event_record(items.last())
    }
}

/// Canonical bytes of each entry in order.
#[verifier::opaque]
pub open spec fn enc_list_object_id(items: Seq<ObjectId>) -> Seq<u8>
    decreases items.len(),
{
    if items.len() == 0 {
        Seq::<u8>::empty()
    } else {
        enc_list_object_id(items.drop_last()) + enc_object_id(items.last())
    }
}

/// Canonical bytes of each entry in order.
#[verifier::opaque]
pub open spec fn enc_list_object_record(items: Seq<ObjectRecord>) -> Seq<u8>
    decreases items.len(),
{
    if items.len() == 0 {
        Seq::<u8>::empty()
    } else {
        enc_list_object_record(items.drop_last()) + enc_object_record(items.last())
    }
}

/// Canonical bytes of each entry in order.
#[verifier::opaque]
pub open spec fn enc_list_pending_trigger(items: Seq<PendingTriggeredAbility>) -> Seq<u8>
    decreases items.len(),
{
    if items.len() == 0 {
        Seq::<u8>::empty()
    } else {
        enc_list_pending_trigger(items.drop_last()) + enc_pending_trigger(items.last())
    }
}

/// Canonical bytes of each entry in order.
#[verifier::opaque]
pub open spec fn enc_list_player_id(items: Seq<PlayerId>) -> Seq<u8>
    decreases items.len(),
{
    if items.len() == 0 {
        Seq::<u8>::empty()
    } else {
        enc_list_player_id(items.drop_last()) + enc_player_id(items.last())
    }
}

/// Canonical bytes of each entry in order.
#[verifier::opaque]
pub open spec fn enc_list_player_state(items: Seq<PlayerState>) -> Seq<u8>
    decreases items.len(),
{
    if items.len() == 0 {
        Seq::<u8>::empty()
    } else {
        enc_list_player_state(items.drop_last()) + enc_player_state(items.last())
    }
}

/// Canonical bytes of each entry in order.
#[verifier::opaque]
pub open spec fn enc_list_replacement_choice_order(items: Seq<ReplacementChoiceOrder>) -> Seq<u8>
    decreases items.len(),
{
    if items.len() == 0 {
        Seq::<u8>::empty()
    } else {
        enc_list_replacement_choice_order(items.drop_last()) + enc_replacement_choice_order(items.last())
    }
}

/// Canonical bytes of each entry in order.
#[verifier::opaque]
pub open spec fn enc_list_replacement_effect_id(items: Seq<ReplacementEffectId>) -> Seq<u8>
    decreases items.len(),
{
    if items.len() == 0 {
        Seq::<u8>::empty()
    } else {
        enc_list_replacement_effect_id(items.drop_last()) + enc_replacement_effect_id(items.last())
    }
}

/// Canonical bytes of each entry in order.
#[verifier::opaque]
pub open spec fn enc_list_replacement_subscription(items: Seq<ReplacementSubscription>) -> Seq<u8>
    decreases items.len(),
{
    if items.len() == 0 {
        Seq::<u8>::empty()
    } else {
        enc_list_replacement_subscription(items.drop_last()) + enc_replacement_subscription(items.last())
    }
}

/// Canonical bytes of each entry in order.
#[verifier::opaque]
pub open spec fn enc_list_resolution_record(items: Seq<ResolutionRecord>) -> Seq<u8>
    decreases items.len(),
{
    if items.len() == 0 {
        Seq::<u8>::empty()
    } else {
        enc_list_resolution_record(items.drop_last()) + enc_resolution_record(items.last())
    }
}

/// Canonical bytes of each entry in order.
#[verifier::opaque]
pub open spec fn enc_list_stack_entry(items: Seq<StackEntry>) -> Seq<u8>
    decreases items.len(),
{
    if items.len() == 0 {
        Seq::<u8>::empty()
    } else {
        enc_list_stack_entry(items.drop_last()) + enc_stack_entry(items.last())
    }
}

/// Canonical bytes of each entry in order.
#[verifier::opaque]
pub open spec fn enc_list_target_snapshot(items: Seq<TargetSnapshot>) -> Seq<u8>
    decreases items.len(),
{
    if items.len() == 0 {
        Seq::<u8>::empty()
    } else {
        enc_list_target_snapshot(items.drop_last()) + enc_target_snapshot(items.last())
    }
}

/// Canonical bytes of each entry in order.
#[verifier::opaque]
pub open spec fn enc_list_trigger_subscription(items: Seq<TriggerSubscription>) -> Seq<u8>
    decreases items.len(),
{
    if items.len() == 0 {
        Seq::<u8>::empty()
    } else {
        enc_list_trigger_subscription(items.drop_last()) + enc_trigger_subscription(items.last())
    }
}

/// Canonical bytes of each entry in order.
#[verifier::opaque]
pub open spec fn enc_list_zone(items: Seq<Zone>) -> Seq<u8>
    decreases items.len(),
{
    if items.len() == 0 {
        Seq::<u8>::empty()
    } else {
        enc_list_zone(items.drop_last()) + enc_zone(items.last())
    }
}
/// Writes the canonical bytes of one `Option<i32>`.
pub(crate) fn write_optional_i32<S: CanonicalSink>(sink: &mut S, o: Option<i32>)
    ensures
        final(sink).log() == old(sink).log() + enc_optional_i32(o),
{
    let ghost start = sink.log();
    proof {
        reveal(enc_optional_i32);
    }
    match o {
        Some(v) => {
            sink.put(1u8);
            write_i32(sink, v);
            proof {
                assert(sink.log() =~= start + enc_optional_i32(o));
            }
        },
        None => {
            sink.put(0u8);
            proof {
                assert(sink.log() =~= start + enc_optional_i32(o));
            }
        },
    }
}

/// Writes the canonical bytes of one `Option<PlayerId>`.
pub(crate) fn write_optional_player<S: CanonicalSink>(sink: &mut S, o: Option<PlayerId>)
    ensures
        final(sink).log() == old(sink).log() + enc_optional_player(o),
{
    let ghost start = sink.log();
    proof {
        reveal(enc_optional_player);
    }
    match o {
        Some(v) => {
            sink.put(1u8);
            write_u32(sink, v.0);
            proof {
                assert(sink.log() =~= start + enc_optional_player(o));
            }
        },
        None => {
            sink.put(0u8);
            proof {
                assert(sink.log() =~= start + enc_optional_player(o));
            }
        },
    }
}

/// Writes the canonical bytes of one `Option<TriggerId>`.
pub(crate) fn write_optional_trigger<S: CanonicalSink>(sink: &mut S, o: Option<TriggerId>)
    ensures
        final(sink).log() == old(sink).log() + enc_optional_trigger(o),
{
    let ghost start = sink.log();
    proof {
        reveal(enc_optional_trigger);
    }
    match o {
        Some(v) => {
            sink.put(1u8);
            write_u32(sink, v.0);
            proof {
                assert(sink.log() =~= start + enc_optional_trigger(o));
            }
        },
        None => {
            sink.put(0u8);
            proof {
                assert(sink.log() =~= start + enc_optional_trigger(o));
            }
        },
    }
}

/// Writes the canonical bytes of one `Option<ActivatedAbilityId>`.
pub(crate) fn write_optional_activated_ability<S: CanonicalSink>(sink: &mut S, o: Option<ActivatedAbilityId>)
    ensures
        final(sink).log() == old(sink).log() + enc_optional_activated_ability(o),
{
    let ghost start = sink.log();
    proof {
        reveal(enc_optional_activated_ability);
    }
    match o {
        Some(v) => {
            sink.put(1u8);
            write_u32(sink, v.0);
            proof {
                assert(sink.log() =~= start + enc_optional_activated_ability(o));
            }
        },
        None => {
            sink.put(0u8);
            proof {
                assert(sink.log() =~= start + enc_optional_activated_ability(o));
            }
        },
    }
}

/// Writes the canonical bytes of one `Option<Step>`.
pub(crate) fn write_optional_step<S: CanonicalSink>(sink: &mut S, o: Option<Step>)
    ensures
        final(sink).log() == old(sink).log() + enc_optional_step(o),
{
    let ghost start = sink.log();
    proof {
        reveal(enc_optional_step);
    }
    match o {
        Some(v) => {
            sink.put(1u8);
            sink.put(v.canonical_code());
            proof {
                assert(sink.log() =~= start + enc_optional_step(o));
            }
        },
        None => {
            sink.put(0u8);
            proof {
                assert(sink.log() =~= start + enc_optional_step(o));
            }
        },
    }
}

/// Writes the canonical bytes of one `GameOutcome`.
pub(crate) fn write_game_outcome<S: CanonicalSink>(sink: &mut S, outcome: GameOutcome)
    ensures
        final(sink).log() == old(sink).log() + enc_game_outcome(outcome),
{
    let ghost start = sink.log();
    proof {
        reveal(enc_game_outcome);
    }
    sink.put(outcome.canonical_code());
    match outcome {
        GameOutcome::Won(player) => {
            write_u32(sink, player.0);
            proof {
                assert(sink.log() =~= start + enc_game_outcome(outcome));
            }
        },
        _ => {
            proof {
                assert(sink.log() =~= start + enc_game_outcome(outcome));
            }
        },
    }
}

/// Writes the canonical bytes of one `CleanupReport`.
pub(crate) fn write_cleanup_report<S: CanonicalSink>(sink: &mut S, report: CleanupReport)
    ensures
        final(sink).log() == old(sink).log() + enc_cleanup_report(report),
{
    let ghost start = sink.log();
    proof {
        reveal(enc_cleanup_report);
    }
    write_u32(sink, report.discarded);
    write_u32(sink, report.expired_until_end_of_turn);
    write_u32(sink, report.expired_this_turn);
    proof {
        assert(sink.log() =~= start + enc_cleanup_report(report));
    }
}

/// Writes the canonical bytes of one `ManaPool`.
pub(crate) fn write_mana_pool<S: CanonicalSink>(sink: &mut S, pool: ManaPool)
    ensures
        final(sink).log() == old(sink).log() + enc_mana_pool(pool),
{
    let ghost start = sink.log();
    proof {
        reveal(enc_mana_pool);
    }
    write_u32(sink, pool.white);
    proof {
        assert(sink.log() =~= start + (enc_u32(pool.white)));
    }
    write_u32(sink, pool.blue);
    proof {
        assert(sink.log() =~= start + (enc_u32(pool.white) + enc_u32(pool.blue)));
    }
    write_u32(sink, pool.black);
    proof {
        assert(sink.log() =~= start + (enc_u32(pool.white) + enc_u32(pool.blue) + enc_u32(pool.black)));
    }
    write_u32(sink, pool.red);
    proof {
        assert(sink.log() =~= start + (enc_u32(pool.white) + enc_u32(pool.blue) + enc_u32(pool.black) + enc_u32(pool.red)));
    }
    write_u32(sink, pool.green);
    proof {
        assert(sink.log() =~= start + (enc_u32(pool.white) + enc_u32(pool.blue) + enc_u32(pool.black) + enc_u32(pool.red) + enc_u32(pool.green)));
    }
    write_u32(sink, pool.colorless);
    proof {
        assert(sink.log() =~= start + enc_mana_pool(pool));
    }
}

/// Writes the canonical bytes of one `CreatureKeywords`.
pub(crate) fn write_creature_keywords<S: CanonicalSink>(sink: &mut S, keywords: CreatureKeywords)
    ensures
        final(sink).log() == old(sink).log() + enc_creature_keywords(keywords),
{
    let ghost start = sink.log();
    proof {
        reveal(enc_creature_keywords);
    }
    write_u32(sink, keywords.canonical_bits() as u32);
    proof {
        assert(sink.log() =~= start + enc_creature_keywords(keywords));
    }
}

/// Writes the canonical bytes of one `ObjectColors`.
pub(crate) fn write_object_colors<S: CanonicalSink>(sink: &mut S, colors: ObjectColors)
    ensures
        final(sink).log() == old(sink).log() + enc_object_colors(colors),
{
    let ghost start = sink.log();
    proof {
        reveal(enc_object_colors);
    }
    sink.put(colors.canonical_bits());
    proof {
        assert(sink.log() =~= start + enc_object_colors(colors));
    }
}

/// Writes the canonical bytes of one `ObjectTypes`.
pub(crate) fn write_object_types<S: CanonicalSink>(sink: &mut S, types: ObjectTypes)
    ensures
        final(sink).log() == old(sink).log() + enc_object_types(types),
{
    let ghost start = sink.log();
    proof {
        reveal(enc_object_types);
    }
    sink.put(types.canonical_bits());
    proof {
        assert(sink.log() =~= start + enc_object_types(types));
    }
}

/// Writes the canonical bytes of one `BaseCreatureCharacteristics`.
pub(crate) fn write_base_creature_characteristics<S: CanonicalSink>(sink: &mut S, base: BaseCreatureCharacteristics)
    ensures
        final(sink).log() == old(sink).log() + enc_base_creature_characteristics(base),
{
    let ghost start = sink.log();
    proof {
        reveal(enc_base_creature_characteristics);
    }
    write_i32(sink, base.power);
    write_i32(sink, base.toughness);
    write_creature_keywords(sink, base.keywords);
    proof {
        assert(sink.log() =~= start + enc_base_creature_characteristics(base));
    }
}

/// Writes the canonical bytes of one `Option<BaseCreatureCharacteristics>`.
pub(crate) fn write_optional_base_creature_characteristics<S: CanonicalSink>(sink: &mut S, o: Option<BaseCreatureCharacteristics>)
    ensures
        final(sink).log() == old(sink).log() + enc_optional_base_creature_characteristics(o),
{
    let ghost start = sink.log();
    proof {
        reveal(enc_optional_base_creature_characteristics);
    }
    match o {
        Some(v) => {
            sink.put(1u8);
            write_base_creature_characteristics(sink, v);
            proof {
                assert(sink.log() =~= start + enc_optional_base_creature_characteristics(o));
            }
        },
        None => {
            sink.put(0u8);
            proof {
                assert(sink.log() =~= start + enc_optional_base_creature_characteristics(o));
            }
        },
    }
}

/// Writes the canonical bytes of one `ZoneId`.
pub(crate) fn write_zone_id<S: CanonicalSink>(sink: &mut S, zone: ZoneId)
    ensures
        final(sink).log() == old(sink).log() + enc_zone_id(zone),
{
    let ghost start = sink.log();
    proof {
        reveal(enc_zone_id);
    }
    sink.put(zone.kind.canonical_code());
    match zone.owner {
        Some(owner) => {
            sink.put(1u8);
            write_u32(sink, owner.0);
            proof {
                assert(sink.log() =~= start + enc_zone_id(zone));
            }
        },
        None => {
            sink.put(0u8);
            proof {
                assert(sink.log() =~= start + enc_zone_id(zone));
            }
        },
    }
}

/// Writes the canonical bytes of one `EffectDuration`.
pub(crate) fn write_effect_duration<S: CanonicalSink>(sink: &mut S, duration: EffectDuration)
    ensures
        final(sink).log() == old(sink).log() + enc_effect_duration(duration),
{
    let ghost start = sink.log();
    proof {
        reveal(enc_effect_duration);
    }
    sink.put(duration.canonical_code());
    match duration {
        EffectDuration::UntilStepBegins(step) => {
            sink.put(step.canonical_code());
            proof {
                assert(sink.log() =~= start + enc_effect_duration(duration));
            }
        },
        EffectDuration::UntilPhaseEnds(phase) => {
            sink.put(phase.canonical_code());
            proof {
                assert(sink.log() =~= start + enc_effect_duration(duration));
            }
        },
        _ => {
            proof {
                assert(sink.log() =~= start + enc_effect_duration(duration));
            }
        },
    }
}

/// Writes the canonical bytes of one `Option<ObjectId>`.
pub(crate) fn write_optional_object<S: CanonicalSink>(sink: &mut S, o: Option<ObjectId>)
    ensures
        final(sink).log() == old(sink).log() + enc_optional_object(o),
{
    let ghost start = sink.log();
    proof {
        reveal(enc_optional_object);
    }
    match o {
        Some(v) => {
            sink.put(1u8);
            write_u32(sink, v.0);
            proof {
                assert(sink.log() =~= start + enc_optional_object(o));
            }
        },
        None => {
            sink.put(0u8);
            proof {
                assert(sink.log() =~= start + enc_optional_object(o));
            }
        },
    }
}

/// Writes the canonical bytes of one `TargetKind`.
pub(crate) fn write_target_kind<S: CanonicalSink>(sink: &mut S, kind: TargetKind)
    ensures
        final(sink).log() == old(sink).log() + enc_target_kind(kind),
{
    let ghost start = sink.log();
    proof {
        reveal(enc_target_kind);
    }
    sink.put(kind.canonical_code());
    match kind {
        TargetKind::ObjectInZone(zone) => {
            write_zone_id(sink, zone);
            proof {
                assert(sink.log() =~= start + enc_target_kind(kind));
            }
        },
        _ => {
            proof {
                assert(sink.log() =~= start + enc_target_kind(kind));
            }
        },
    }
}

/// Writes the canonical bytes of one `TargetRequirement`.
pub(crate) fn write_target_requirement<S: CanonicalSink>(sink: &mut S, requirement: TargetRequirement)
    ensures
        final(sink).log() == old(sink).log() + enc_target_requirement(requirement),
{
    let ghost start = sink.log();
    proof {
        reveal(enc_target_requirement);
    }
    write_target_kind(sink, requirement.kind);
    proof {
        assert(sink.log() =~= start + enc_target_requirement(requirement));
    }
}

/// Writes the canonical bytes of one `TargetChoice`.
pub(crate) fn write_target_choice<S: CanonicalSink>(sink: &mut S, choice: TargetChoice)
    ensures
        final(sink).log() == old(sink).log() + enc_target_choice(choice),
{
    let ghost start = sink.log();
    proof {
        reveal(enc_target_choice);
    }
    sink.put(choice.canonical_code());
    match choice {
        TargetChoice::Player(player) => {
            write_u32(sink, player.0);
            proof {
                assert(sink.log() =~= start + enc_target_choice(choice));
            }
        },
        TargetChoice::Object(object) => {
            write_u32(sink, object.0);
            proof {
                assert(sink.log() =~= start + enc_target_choice(choice));
            }
        },
    }
}

/// Writes the canonical bytes of one `Option<ZoneId>`.
pub(crate) fn write_optional_zone<S: CanonicalSink>(sink: &mut S, o: Option<ZoneId>)
    ensures
        final(sink).log() == old(sink).log() + enc_optional_zone(o),
{
    let ghost start = sink.log();
    proof {
        reveal(enc_optional_zone);
    }
    match o {
        Some(v) => {
            sink.put(1u8);
            write_zone_id(sink, v);
            proof {
                assert(sink.log() =~= start + enc_optional_zone(o));
            }
        },
        None => {
            sink.put(0u8);
            proof {
                assert(sink.log() =~= start + enc_optional_zone(o));
            }
        },
    }
}

/// Writes the canonical bytes of one `TargetSnapshot`.
pub(crate) fn write_target_snapshot<S: CanonicalSink>(sink: &mut S, target: TargetSnapshot)
    ensures
        final(sink).log() == old(sink).log() + enc_target_snapshot(target),
{
    let ghost start = sink.log();
    proof {
        reveal(enc_target_snapshot);
    }
    write_target_requirement(sink, target.requirement);
    write_target_choice(sink, target.choice);
    write_optional_zone(sink, target.original_zone);
    proof {
        assert(sink.log() =~= start + enc_target_snapshot(target));
    }
}

/// Writes the canonical bytes of one `PaymentPlan`.
pub(crate) fn write_payment_plan<S: CanonicalSink>(sink: &mut S, payment: PaymentPlan)
    ensures
        final(sink).log() == old(sink).log() + enc_payment_plan(payment),
{
    let ghost start = sink.log();
    proof {
        reveal(enc_payment_plan);
    }
    write_mana_pool(sink, payment.paid());
    proof {
        assert(sink.log() =~= start + (enc_mana_pool(payment.paid())));
    }
    write_mana_pool(sink, payment.generic_paid());
    proof {
        assert(sink.log() =~= start + (enc_mana_pool(payment.paid()) + enc_mana_pool(payment.generic_paid())));
    }
    write_u32(sink, payment.generic_required());
    proof {
        assert(sink.log() =~= start + (enc_mana_pool(payment.paid()) + enc_mana_pool(payment.generic_paid()) + enc_u32(payment.generic_required())));
    }
    write_u32(sink, payment.x_value());
    proof {
        assert(sink.log() =~= start + (enc_mana_pool(payment.paid()) + enc_mana_pool(payment.generic_paid()) + enc_u32(payment.generic_required()) + enc_u32(payment.x_value())));
    }
    write_u32(sink, payment.waste_score());
    proof {
        assert(sink.log() =~= start + enc_payment_plan(payment));
    }
}

/// Writes the canonical bytes of one `Option<PaymentPlan>`.
pub(crate) fn write_optional_payment_plan<S: CanonicalSink>(sink: &mut S, o: Option<PaymentPlan>)
    ensures
        final(sink).log() == old(sink).log() + enc_optional_payment_plan(o),
{
    let ghost start = sink.log();
    proof {
        reveal(enc_optional_payment_plan);
    }
    match o {
        Some(v) => {
            sink.put(1u8);
            write_payment_plan(sink, v);
            proof {
                assert(sink.log() =~= start + enc_optional_payment_plan(o));
            }
        },
        None => {
            sink.put(0u8);
            proof {
                assert(sink.log() =~= start + enc_optional_payment_plan(o));
            }
        },
    }
}

/// Writes the canonical bytes of one `GameEventKind`.
pub(crate) fn write_game_event_kind<S: CanonicalSink>(sink: &mut S, kind: GameEventKind)
    ensures
        final(sink).log() == old(sink).log() + enc_game_event_kind(kind),
{
    let ghost start = sink.log();
    proof {
        reveal(enc_game_event_kind);
    }
    sink.put(kind.canonical_code());
    proof {
        assert(sink.log() =~= start + enc_game_event_kind(kind));
    }
}

/// Writes the canonical bytes of one `TriggerObjectFilter`.
pub(crate) fn write_trigger_object_filter<S: CanonicalSink>(sink: &mut S, filter: TriggerObjectFilter)
    ensures
        final(sink).log() == old(sink).log() + enc_trigger_object_filter(filter),
{
    let ghost start = sink.log();
    proof {
        reveal(enc_trigger_object_filter);
    }
    sink.put(filter.canonical_code());
    match filter {
        TriggerObjectFilter::Object(object) => {
            write_u32(sink, object.0);
            proof {
                assert(sink.log() =~= start + enc_trigger_object_filter(filter));
            }
        },
        _ => {
            proof {
                assert(sink.log() =~= start + enc_trigger_object_filter(filter));
            }
        },
    }
}

/// Writes the canonical bytes of one `TriggerPlayerFilter`.
pub(crate) fn write_trigger_player_filter<S: CanonicalSink>(sink: &mut S, filter: TriggerPlayerFilter)
    ensures
        final(sink).log() == old(sink).log() + enc_trigger_player_filter(filter),
{
    let ghost start = sink.log();
    proof {
        reveal(enc_trigger_player_filter);
    }
    sink.put(filter.canonical_code());
    match filter {
        TriggerPlayerFilter::Player(player) => {
            write_u32(sink, player.0);
            proof {
                assert(sink.log() =~= start + enc_trigger_player_filter(filter));
            }
        },
        _ => {
            proof {
                assert(sink.log() =~= start + enc_trigger_player_filter(filter));
            }
        },
    }
}

/// Writes the canonical bytes of one `TriggerZoneFilter`.
pub(crate) fn write_trigger_zone_filter<S: CanonicalSink>(sink: &mut S, filter: TriggerZoneFilter)
    ensures
        final(sink).log() == old(sink).log() + enc_trigger_zone_filter(filter),
{
    let ghost start = sink.log();
    proof {
        reveal(enc_trigger_zone_filter);
    }
    sink.put(filter.canonical_code());
    match filter {
        TriggerZoneFilter::Any => {
            proof {
                assert(sink.log() =~= start + enc_trigger_zone_filter(filter));
            }
        },
        TriggerZoneFilter::Exact(zone) => {
            write_zone_id(sink, zone);
            proof {
                assert(sink.log() =~= start + enc_trigger_zone_filter(filter));
            }
        },
        TriggerZoneFilter::Kind(kind) => {
            sink.put(kind.canonical_code());
            proof {
                assert(sink.log() =~= start + enc_trigger_zone_filter(filter));
            }
        },
        TriggerZoneFilter::Owned { owner, kind } => {
            write_trigger_player_filter(sink, owner);
            sink.put(kind.canonical_code());
            proof {
                assert(sink.log() =~= start + enc_trigger_zone_filter(filter));
            }
        },
    }
}

/// Writes the canonical bytes of one `TriggerCondition`.
pub(crate) fn write_trigger_condition<S: CanonicalSink>(sink: &mut S, condition: TriggerCondition)
    ensures
        final(sink).log() == old(sink).log() + enc_trigger_condition(condition),
{
    let ghost start = sink.log();
    proof {
        reveal(enc_trigger_condition);
    }
    sink.put(condition.canonical_code());
    match condition {
        TriggerCondition::EventKind(kind) => {
            write_game_event_kind(sink, kind);
            proof {
                assert(sink.log() =~= start + enc_trigger_condition(condition));
            }
        },
        TriggerCondition::ObjectMoved { object, from, to } => {
            write_trigger_object_filter(sink, object);
            write_trigger_zone_filter(sink, from);
            write_trigger_zone_filter(sink, to);
            proof {
                assert(sink.log() =~= start + enc_trigger_condition(condition));
            }
        },
        TriggerCondition::StepBegan { step } => {
            sink.put(step.canonical_code());
            proof {
                assert(sink.log() =~= start + enc_trigger_condition(condition));
            }
        },
        TriggerCondition::LifeLost { player } => {
            write_trigger_player_filter(sink, player);
            proof {
                assert(sink.log() =~= start + enc_trigger_condition(condition));
            }
        },
        TriggerCondition::LifeGained { player } => {
            write_trigger_player_filter(sink, player);
            proof {
                assert(sink.log() =~= start + enc_trigger_condition(condition));
            }
        },
        TriggerCondition::DamageMarked { object } => {
            write_trigger_object_filter(sink, object);
            proof {
                assert(sink.log() =~= start + enc_trigger_condition(condition));
            }
        },
        TriggerCondition::StackEntryResolved { kind, outcome } => {
            write_optional_stack_kind(sink, kind);
            write_optional_resolution_outcome(sink, outcome);
            proof {
                assert(sink.log() =~= start + enc_trigger_condition(condition));
            }
        },
    }
}

/// Writes the canonical bytes of one `Option<StackObjectKind>`.
pub(crate) fn write_optional_stack_kind<S: CanonicalSink>(sink: &mut S, o: Option<StackObjectKind>)
    ensures
        final(sink).log() == old(sink).log() + enc_optional_stack_kind(o),
{
    let ghost start = sink.log();
    proof {
        reveal(enc_optional_stack_kind);
    }
    match o {
        Some(v) => {
            sink.put(1u8);
            sink.put(v.canonical_code());
            proof {
                assert(sink.log() =~= start + enc_optional_stack_kind(o));
            }
        },
        None => {
            sink.put(0u8);
            proof {
                assert(sink.log() =~= start + enc_optional_stack_kind(o));
            }
        },
    }
}

/// Writes the canonical bytes of one `Option<ResolutionOutcome>`.
pub(crate) fn write_optional_resolution_outcome<S: CanonicalSink>(sink: &mut S, o: Option<ResolutionOutcome>)
    ensures
        final(sink).log() == old(sink).log() + enc_optional_resolution_outcome(o),
{
    let ghost start = sink.log();
    proof {
        reveal(enc_optional_resolution_outcome);
    }
    match o {
        Some(v) => {
            sink.put(1u8);
            sink.put(v.canonical_code());
            proof {
                assert(sink.log() =~= start + enc_optional_resolution_outcome(o));
            }
        },
        None => {
            sink.put(0u8);
            proof {
                assert(sink.log() =~= start + enc_optional_resolution_outcome(o));
            }
        },
    }
}

/// Writes the canonical bytes of one `TriggerInterveningIf`.
pub(crate) fn write_trigger_intervening_if<S: CanonicalSink>(sink: &mut S, intervening_if: TriggerInterveningIf)
    ensures
        final(sink).log() == old(sink).log() + enc_trigger_intervening_if(intervening_if),
{
    let ghost start = sink.log();
    proof {
        reveal(enc_trigger_intervening_if);
    }
    sink.put(intervening_if.canonical_code());
    match intervening_if {
        TriggerInterveningIf::SourceInZone(zone) => {
            write_zone_id(sink, zone);
            proof {
                assert(sink.log() =~= start + enc_trigger_intervening_if(intervening_if));
            }
        },
        TriggerInterveningIf::ControllerLifeAtMost(life) => {
            write_i32(sink, life);
            proof {
                assert(sink.log() =~= start + enc_trigger_intervening_if(intervening_if));
            }
        },
        _ => {
            proof {
                assert(sink.log() =~= start + enc_trigger_intervening_if(intervening_if));
            }
        },
    }
}

/// Writes the canonical bytes of one `TriggerDuration`.
pub(crate) fn write_trigger_duration<S: CanonicalSink>(sink: &mut S, duration: TriggerDuration)
    ensures
        final(sink).log() == old(sink).log() + enc_trigger_duration(duration),
{
    let ghost start = sink.log();
    proof {
        reveal(enc_trigger_duration);
    }
    sink.put(duration.canonical_code());
    proof {
        assert(sink.log() =~= start + enc_trigger_duration(duration));
    }
}

/// Writes the canonical bytes of one `TriggerDefinition`.
pub(crate) fn write_trigger_definition<S: CanonicalSink>(sink: &mut S, definition: TriggerDefinition)
    ensures
        final(sink).log() == old(sink).log() + enc_trigger_definition(definition),
{
    let ghost start = sink.log();
    proof {
        reveal(enc_trigger_definition);
    }
    write_u32(sink, definition.controller.0);
    proof {
        assert(sink.log() =~= start + (enc_u32(definition.controller.0)));
    }
    write_optional_object(sink, definition.source);
    proof {
        assert(sink.log() =~= start + (enc_u32(definition.controller.0) + enc_optional_object(definition.source)));
    }
    write_trigger_condition(sink, definition.condition);
    proof {
        assert(sink.log() =~= start + (enc_u32(definition.controller.0) + enc_optional_object(definition.source) + enc_trigger_condition(definition.condition)));
    }
    write_trigger_intervening_if(sink, definition.intervening_if);
    proof {
        assert(sink.log() =~= start + (enc_u32(definition.controller.0) + enc_optional_object(definition.source) + enc_trigger_condition(definition.condition) + enc_trigger_intervening_if(definition.intervening_if)));
    }
    write_trigger_duration(sink, definition.duration);
    proof {
        assert(sink.log() =~= start + enc_trigger_definition(definition));
    }
}

/// Writes the canonical bytes of one `TriggerSubscription`.
pub(crate) fn write_trigger_subscription<S: CanonicalSink>(sink: &mut S, subscription: TriggerSubscription)
    ensures
        final(sink).log() == old(sink).log() + enc_trigger_subscription(subscription),
{
    let ghost start = sink.log();
    proof {
        reveal(enc_trigger_subscription);
    }
    write_u32(sink, subscription.id.0);
    write_trigger_definition(sink, subscription.definition);
    write_game_event_kind(sink, subscription.event_kind);
    proof {
        assert(sink.log() =~= start + enc_trigger_subscription(subscription));
    }
}

/// Writes the canonical bytes of one `PendingTriggeredAbility`.
pub(crate) fn write_pending_trigger<S: CanonicalSink>(sink: &mut S, trigger: PendingTriggeredAbility)
    ensures
        final(sink).log() == old(sink).log() + enc_pending_trigger(trigger),
{
    let ghost start = sink.log();
    proof {
        reveal(enc_pending_trigger);
    }
    write_u32(sink, trigger.trigger.0);
    proof {
        assert(sink.log() =~= start + (enc_u32(trigger.trigger.0)));
    }
    write_u32(sink, trigger.controller.0);
    proof {
        assert(sink.log() =~= start + (enc_u32(trigger.trigger.0) + enc_u32(trigger.controller.0)));
    }
    write_optional_object(sink, trigger.source);
    proof {
        assert(sink.log() =~= start + (enc_u32(trigger.trigger.0) + enc_u32(trigger.controller.0) + enc_optional_object(trigger.source)));
    }
    write_u64(sink, trigger.event_sequence);
    proof {
        assert(sink.log() =~= start + (enc_u32(trigger.trigger.0) + enc_u32(trigger.controller.0) + enc_optional_object(trigger.source) + enc_u64(trigger.event_sequence)));
    }
    write_u32(sink, trigger.event_turn);
    proof {
        assert(sink.log() =~= start + enc_pending_trigger(trigger));
    }
}

/// Writes the canonical bytes of one `ActivationTiming`.
pub(crate) fn write_activation_timing<S: CanonicalSink>(sink: &mut S, timing: ActivationTiming)
    ensures
        final(sink).log() == old(sink).log() + enc_activation_timing(timing),
{
    let ghost start = sink.log();
    proof {
        reveal(enc_activation_timing);
    }
    sink.put(timing.canonical_code());
    proof {
        assert(sink.log() =~= start + enc_activation_timing(timing));
    }
}

/// Writes the canonical bytes of one `AbilityPlayer`.
pub(crate) fn write_ability_player<S: CanonicalSink>(sink: &mut S, player: AbilityPlayer)
    ensures
        final(sink).log() == old(sink).log() + enc_ability_player(player),
{
    let ghost start = sink.log();
    proof {
        reveal(enc_ability_player);
    }
    sink.put(player.canonical_code());
    match player {
        AbilityPlayer::Player(p) => {
            write_u32(sink, p.0);
            proof {
                assert(sink.log() =~= start + enc_ability_player(player));
            }
        },
        _ => {
            proof {
                assert(sink.log() =~= start + enc_ability_player(player));
            }
        },
    }
}

/// Writes the canonical bytes of one `ActivatedAbilityEffect`.
pub(crate) fn write_activated_ability_effect<S: CanonicalSink>(sink: &mut S, effect: ActivatedAbilityEffect)
    ensures
        final(sink).log() == old(sink).log() + enc_activated_ability_effect(effect),
{
    let ghost start = sink.log();
    proof {
        reveal(enc_activated_ability_effect);
    }
    sink.put(effect.canonical_code());
    match effect {
        ActivatedAbilityEffect::AddMana { player, mana } => {
            write_ability_player(sink, player);
            write_mana_pool(sink, mana);
            proof {
                assert(sink.log() =~= start + enc_activated_ability_effect(effect));
            }
        },
        ActivatedAbilityEffect::GainLife { player, amount } => {
            write_ability_player(sink, player);
            write_u32(sink, amount);
            proof {
                assert(sink.log() =~= start + enc_activated_ability_effect(effect));
            }
        },
        ActivatedAbilityEffect::LoseLife { player, amount } => {
            write_ability_player(sink, player);
            write_u32(sink, amount);
            proof {
                assert(sink.log() =~= start + enc_activated_ability_effect(effect));
            }
        },
    }
}

/// Writes the canonical bytes of one `ManaCost`.
pub(crate) fn write_mana_cost<S: CanonicalSink>(sink: &mut S, cost: ManaCost)
    ensures
        final(sink).log() == old(sink).log() + enc_mana_cost(cost),
{
    let ghost start = sink.log();
    proof {
        reveal(enc_mana_cost);
    }
    write_u32(sink, cost.white);
    proof {
        assert(sink.log() =~= start + (enc_u32(cost.white)));
    }
    write_u32(sink, cost.blue);
    proof {
        assert(sink.log() =~= start + (enc_u32(cost.white) + enc_u32(cost.blue)));
    }
    write_u32(sink, cost.black);
    proof {
        assert(sink.log() =~= start + (enc_u32(cost.white) + enc_u32(cost.blue) + enc_u32(cost.black)));
    }
    write_u32(sink, cost.red);
    proof {
        assert(sink.log() =~= start + (enc_u32(cost.white) + enc_u32(cost.blue) + enc_u32(cost.black) + enc_u32(cost.red)));
    }
    write_u32(sink, cost.green);
    proof {
        assert(sink.log() =~= start + (enc_u32(cost.white) + enc_u32(cost.blue) + enc_u32(cost.black) + enc_u32(cost.red) + enc_u32(cost.green)));
    }
    write_u32(sink, cost.generic);
    proof {
        assert(sink.log() =~= start + (enc_u32(cost.white) + enc_u32(cost.blue) + enc_u32(cost.black) + enc_u32(cost.red) + enc_u32(cost.green) + enc_u32(cost.generic)));
    }
    write_u32(sink, cost.x_count);
    proof {
        assert(sink.log() =~= start + (enc_u32(cost.white) + enc_u32(cost.blue) + enc_u32(cost.black) + enc_u32(cost.red) + enc_u32(cost.green) + enc_u32(cost.generic) + enc_u32(cost.x_count)));
    }
    write_u32(sink, cost.x_value);
    proof {
        assert(sink.log() =~= start + enc_mana_cost(cost));
    }
}

/// Writes the canonical bytes of one `ActivationCost`.
pub(crate) fn write_activation_cost<S: CanonicalSink>(sink: &mut S, cost: ActivationCost)
    ensures
        final(sink).log() == old(sink).log() + enc_activation_cost(cost),
{
    let ghost start = sink.log();
    proof {
        reveal(enc_activation_cost);
    }
    write_mana_cost(sink, cost.mana);
    write_bool(sink, cost.tap_source);
    write_optional_i32(sink, cost.loyalty_delta);
    proof {
        assert(sink.log() =~= start + enc_activation_cost(cost));
    }
}

/// Writes the canonical bytes of one `ActivatedAbilityDefinition`.
pub(crate) fn write_activated_ability_definition<S: CanonicalSink>(sink: &mut S, definition: ActivatedAbilityDefinition)
    ensures
        final(sink).log() == old(sink).log() + enc_activated_ability_definition(definition),
{
    let ghost start = sink.log();
    proof {
        reveal(enc_activated_ability_definition);
    }
    write_u32(sink, definition.controller.0);
    proof {
        assert(sink.log() =~= start + (enc_u32(definition.controller.0)));
    }
    write_optional_object(sink, definition.source);
    proof {
        assert(sink.log() =~= start + (enc_u32(definition.controller.0) + enc_optional_object(definition.source)));
    }
    write_activation_timing(sink, definition.timing);
    proof {
        assert(sink.log() =~= start + (enc_u32(definition.controller.0) + enc_optional_object(definition.source) + enc_activation_timing(definition.timing)));
    }
    write_activation_cost(sink, definition.cost);
    proof {
        assert(sink.log() =~= start + (enc_u32(definition.controller.0) + enc_optional_object(definition.source) + enc_activation_timing(definition.timing) + enc_activation_cost(definition.cost)));
    }
    write_activated_ability_effect(sink, definition.effect);
    proof {
        assert(sink.log() =~= start + (enc_u32(definition.controller.0) + enc_optional_object(definition.source) + enc_activation_timing(definition.timing) + enc_activation_cost(definition.cost) + enc_activated_ability_effect(definition.effect)));
    }
    write_bool(sink, definition.mana_ability);
    proof {
        assert(sink.log() =~= start + enc_activated_ability_definition(definition));
    }
}

/// Writes the canonical bytes of one `ActivatedAbilitySubscription`.
pub(crate) fn write_activated_ability_subscription<S: CanonicalSink>(sink: &mut S, subscription: ActivatedAbilitySubscription)
    ensures
        final(sink).log() == old(sink).log() + enc_activated_ability_subscription(subscription),
{
    let ghost start = sink.log();
    proof {
        reveal(enc_activated_ability_subscription);
    }
    write_u32(sink, subscription.id.0);
    write_activated_ability_definition(sink, subscription.definition);
    proof {
        assert(sink.log() =~= start + enc_activated_ability_subscription(subscription));
    }
}

/// Writes the canonical bytes of one `CostModifierScope`.
pub(crate) fn write_cost_modifier_scope<S: CanonicalSink>(sink: &mut S, scope: CostModifierScope)
    ensures
        final(sink).log() == old(sink).log() + enc_cost_modifier_scope(scope),
{
    let ghost start = sink.log();
    proof {
        reveal(enc_cost_modifier_scope);
    }
    sink.put(scope.canonical_code());
    match scope {
        CostModifierScope::AllActivatedAbilities => {
            proof {
                assert(sink.log() =~= start + enc_cost_modifier_scope(scope));
            }
        },
        CostModifierScope::Ability(ability) => {
            write_u32(sink, ability.0);
            proof {
                assert(sink.log() =~= start + enc_cost_modifier_scope(scope));
            }
        },
        CostModifierScope::Source(object) => {
            write_u32(sink, object.0);
            proof {
                assert(sink.log() =~= start + enc_cost_modifier_scope(scope));
            }
        },
        CostModifierScope::Controller(player) => {
            write_u32(sink, player.0);
            proof {
                assert(sink.log() =~= start + enc_cost_modifier_scope(scope));
            }
        },
    }
}

/// Writes the canonical bytes of one `CostModifierOperation`.
pub(crate) fn write_cost_modifier_operation<S: CanonicalSink>(sink: &mut S, operation: CostModifierOperation)
    ensures
        final(sink).log() == old(sink).log() + enc_cost_modifier_operation(operation),
{
    let ghost start = sink.log();
    proof {
        reveal(enc_cost_modifier_operation);
    }
    sink.put(operation.canonical_code());
    match operation {
        CostModifierOperation::AddManaCost(cost) => {
            write_mana_cost(sink, cost);
            proof {
                assert(sink.log() =~= start + enc_cost_modifier_operation(operation));
            }
        },
        CostModifierOperation::AddGeneric(amount) => {
            write_u32(sink, amount);
            proof {
                assert(sink.log() =~= start + enc_cost_modifier_operation(operation));
            }
        },
        CostModifierOperation::ReduceGeneric(amount) => {
            write_u32(sink, amount);
            proof {
                assert(sink.log() =~= start + enc_cost_modifier_operation(operation));
            }
        },
    }
}

/// Writes the canonical bytes of one `CostModifierDefinition`.
pub(crate) fn write_cost_modifier_definition<S: CanonicalSink>(sink: &mut S, definition: CostModifierDefinition)
    ensures
        final(sink).log() == old(sink).log() + enc_cost_modifier_definition(definition),
{
    let ghost start = sink.log();
    proof {
        reveal(enc_cost_modifier_definition);
    }
    write_u32(sink, definition.controller.0);
    proof {
        assert(sink.log() =~= start + (enc_u32(definition.controller.0)));
    }
    write_optional_object(sink, definition.source);
    proof {
        assert(sink.log() =~= start + (enc_u32(definition.controller.0) + enc_optional_object(definition.source)));
    }
    write_cost_modifier_scope(sink, definition.scope);
    proof {
        assert(sink.log() =~= start + (enc_u32(definition.controller.0) + enc_optional_object(definition.source) + enc_cost_modifier_scope(definition.scope)));
    }
    write_cost_modifier_operation(sink, definition.operation);
    proof {
        assert(sink.log() =~= start + enc_cost_modifier_definition(definition));
    }
}

/// Writes the canonical bytes of one `CostModifierSubscription`.
pub(crate) fn write_cost_modifier_subscription<S: CanonicalSink>(sink: &mut S, subscription: CostModifierSubscription)
    ensures
        final(sink).log() == old(sink).log() + enc_cost_modifier_subscription(subscription),
{
    let ghost start = sink.log();
    proof {
        reveal(enc_cost_modifier_subscription);
    }
    write_u32(sink, subscription.id.0);
    write_cost_modifier_definition(sink, subscription.definition);
    proof {
        assert(sink.log() =~= start + enc_cost_modifier_subscription(subscription));
    }
}

/// Writes the canonical bytes of one `ReplacementSourceFilter`.
pub(crate) fn write_replacement_source_filter<S: CanonicalSink>(sink: &mut S, filter: ReplacementSourceFilter)
    ensures
        final(sink).log() == old(sink).log() + enc_replacement_source_filter(filter),
{
    let ghost start = sink.log();
    proof {
        reveal(enc_replacement_source_filter);
    }
    sink.put(filter.canonical_code());
    match filter {
        ReplacementSourceFilter::Object(object) => {
            write_u32(sink, object.0);
            proof {
                assert(sink.log() =~= start + enc_replacement_source_filter(filter));
            }
        },
        _ => {
            proof {
                assert(sink.log() =~= start + enc_replacement_source_filter(filter));
            }
        },
    }
}

/// Writes the canonical bytes of one `ReplacementDamageTargetFilter`.
pub(crate) fn write_replacement_damage_target_filter<S: CanonicalSink>(sink: &mut S, filter: ReplacementDamageTargetFilter)
    ensures
        final(sink).log() == old(sink).log() + enc_replacement_damage_target_filter(filter),
{
    let ghost start = sink.log();
    proof {
        reveal(enc_replacement_damage_target_filter);
    }
    sink.put(filter.canonical_code());
    match filter {
        ReplacementDamageTargetFilter::Any => {
            proof {
                assert(sink.log() =~= start + enc_replacement_damage_target_filter(filter));
            }
        },
        ReplacementDamageTargetFilter::Player(player) => {
            write_u32(sink, player.0);
            proof {
                assert(sink.log() =~= start + enc_replacement_damage_target_filter(filter));
            }
        },
        ReplacementDamageTargetFilter::Object(object) => {
            write_u32(sink, object.0);
            proof {
                assert(sink.log() =~= start + enc_replacement_damage_target_filter(filter));
            }
        },
    }
}

/// Writes the canonical bytes of one `ReplacementCondition`.
pub(crate) fn write_replacement_condition<S: CanonicalSink>(sink: &mut S, condition: ReplacementCondition)
    ensures
        final(sink).log() == old(sink).log() + enc_replacement_condition(condition),
{
    let ghost start = sink.log();
    proof {
        reveal(enc_replacement_condition);
    }
    sink.put(condition.canonical_code());
    match condition {
        ReplacementCondition::DamageWouldBeDealt { source, target, combat_only } => {
            write_replacement_source_filter(sink, source);
            write_replacement_damage_target_filter(sink, target);
            write_bool(sink, combat_only);
            proof {
                assert(sink.log() =~= start + enc_replacement_condition(condition));
            }
        },
    }
}

/// Writes the canonical bytes of one `ReplacementOperation`.
pub(crate) fn write_replacement_operation<S: CanonicalSink>(sink: &mut S, operation: ReplacementOperation)
    ensures
        final(sink).log() == old(sink).log() + enc_replacement_operation(operation),
{
    let ghost start = sink.log();
    proof {
        reveal(enc_replacement_operation);
    }
    sink.put(operation.canonical_code());
    match operation {
        ReplacementOperation::PreventDamage(amount) => {
            write_u32(sink, amount);
            proof {
                assert(sink.log() =~= start + enc_replacement_operation(operation));
            }
        },
        ReplacementOperation::AddDamage(amount) => {
            write_u32(sink, amount);
            proof {
                assert(sink.log() =~= start + enc_replacement_operation(operation));
            }
        },
        ReplacementOperation::SetDamage(amount) => {
            write_u32(sink, amount);
            proof {
                assert(sink.log() =~= start + enc_replacement_operation(operation));
            }
        },
        _ => {
            proof {
                assert(sink.log() =~= start + enc_replacement_operation(operation));
            }
        },
    }
}

/// Writes the canonical bytes of one `ReplacementDuration`.
pub(crate) fn write_replacement_duration<S: CanonicalSink>(sink: &mut S, duration: ReplacementDuration)
    ensures
        final(sink).log() == old(sink).log() + enc_replacement_duration(duration),
{
    let ghost start = sink.log();
    proof {
        reveal(enc_replacement_duration);
    }
    sink.put(duration.canonical_code());
    proof {
        assert(sink.log() =~= start + enc_replacement_duration(duration));
    }
}

/// Writes the canonical bytes of one `ReplacementDefinition`.
pub(crate) fn write_replacement_definition<S: CanonicalSink>(sink: &mut S, definition: ReplacementDefinition)
    ensures
        final(sink).log() == old(sink).log() + enc_replacement_definition(definition),
{
    let ghost start = sink.log();
    proof {
        reveal(enc_replacement_definition);
    }
    write_u32(sink, definition.controller.0);
    proof {
        assert(sink.log() =~= start + (enc_u32(definition.controller.0)));
    }
    write_optional_object(sink, definition.source);
    proof {
        assert(sink.log() =~= start + (enc_u32(definition.controller.0) + enc_optional_object(definition.source)));
    }
    write_replacement_condition(sink, definition.condition);
    proof {
        assert(sink.log() =~= start + (enc_u32(definition.controller.0) + enc_optional_object(definition.source) + enc_replacement_condition(definition.condition)));
    }
    write_replacement_operation(sink, definition.operation);
    proof {
        assert(sink.log() =~= start + (enc_u32(definition.controller.0) + enc_optional_object(definition.source) + enc_replacement_condition(definition.condition) + enc_replacement_operation(definition.operation)));
    }
    write_replacement_duration(sink, definition.duration);
    proof {
        assert(sink.log() =~= start + (enc_u32(definition.controller.0) + enc_optional_object(definition.source) + enc_replacement_condition(definition.condition) + enc_replacement_operation(definition.operation) + enc_replacement_duration(definition.duration)));
    }
    write_bool(sink, definition.self_replacement);
    proof {
        assert(sink.log() =~= start + enc_replacement_definition(definition));
    }
}

/// Writes the canonical bytes of one `ReplacementSubscription`.
pub(crate) fn write_replacement_subscription<S: CanonicalSink>(sink: &mut S, subscription: ReplacementSubscription)
    ensures
        final(sink).log() == old(sink).log() + enc_replacement_subscription(subscription),
{
    let ghost start = sink.log();
    proof {
        reveal(enc_replacement_subscription);
    }
    write_u32(sink, subscription.id.0);
    write_replacement_definition(sink, subscription.definition);
    proof {
        assert(sink.log() =~= start + enc_replacement_subscription(subscription));
    }
}

/// Writes the canonical bytes of one `ReplacementEffectId`.
pub(crate) fn write_replacement_effect_id<S: CanonicalSink>(sink: &mut S, id: ReplacementEffectId)
    ensures
        final(sink).log() == old(sink).log() + enc_replacement_effect_id(id),
{
    let ghost start = sink.log();
    proof {
        reveal(enc_replacement_effect_id);
    }
    write_u32(sink, id.0);
    proof {
        assert(sink.log() =~= start + enc_replacement_effect_id(id));
    }
}

/// Writes the canonical bytes of one `ReplacementChoiceOrder`.
pub(crate) fn write_replacement_choice_order<S: CanonicalSink>(sink: &mut S, order: &ReplacementChoiceOrder)
    ensures
        final(sink).log() == old(sink).log() + enc_replacement_choice_order(*order),
{
    let ghost start = sink.log();
    proof {
        reveal(enc_replacement_choice_order);
    }
    write_u32(sink, order.chooser.0);
    write_u32(sink, order.order.len() as u32);
    write_list_replacement_effect_id(sink, &order.order);
    proof {
        assert(sink.log() =~= start + enc_replacement_choice_order(*order));
    }
}

/// Writes the canonical bytes of one `ContinuousEffectTarget`.
pub(crate) fn write_continuous_effect_target<S: CanonicalSink>(sink: &mut S, target: ContinuousEffectTarget)
    ensures
        final(sink).log() == old(sink).log() + enc_continuous_effect_target(target),
{
    let ghost start = sink.log();
    proof {
        reveal(enc_continuous_effect_target);
    }
    sink.put(target.canonical_code());
    match target {
        ContinuousEffectTarget::Object(object) => {
            write_u32(sink, object.0);
            proof {
                assert(sink.log() =~= start + enc_continuous_effect_target(target));
            }
        },
        _ => {
            proof {
                assert(sink.log() =~= start + enc_continuous_effect_target(target));
            }
        },
    }
}

/// Writes the canonical bytes of one `ContinuousEffectLayer`.
pub(crate) fn write_continuous_effect_layer<S: CanonicalSink>(sink: &mut S, layer: ContinuousEffectLayer)
    ensures
        final(sink).log() == old(sink).log() + enc_continuous_effect_layer(layer),
{
    let ghost start = sink.log();
    proof {
        reveal(enc_continuous_effect_layer);
    }
    sink.put(layer.canonical_code());
    proof {
        assert(sink.log() =~= start + enc_continuous_effect_layer(layer));
    }
}

/// Writes the canonical bytes of one `ContinuousEffectDuration`.
pub(crate) fn write_continuous_effect_duration<S: CanonicalSink>(sink: &mut S, duration: ContinuousEffectDuration)
    ensures
        final(sink).log() == old(sink).log() + enc_continuous_effect_duration(duration),
{
    let ghost start = sink.log();
    proof {
        reveal(enc_continuous_effect_duration);
    }
    sink.put(duration.canonical_code());
    proof {
        assert(sink.log() =~= start + enc_continuous_effect_duration(duration));
    }
}

/// Writes the canonical bytes of one `ContinuousEffectOperation`.
pub(crate) fn write_continuous_effect_operation<S: CanonicalSink>(sink: &mut S, operation: ContinuousEffectOperation)
    ensures
        final(sink).log() == old(sink).log() + enc_continuous_effect_operation(operation),
{
    let ghost start = sink.log();
    proof {
        reveal(enc_continuous_effect_operation);
    }
    sink.put(operation.canonical_code());
    write_continuous_effect_layer(sink, operation.layer());
    match operation {
        ContinuousEffectOperation::CopyBaseCreature { from } => {
            write_u32(sink, from.0);
            proof {
                assert(sink.log() =~= start + enc_continuous_effect_operation(operation));
            }
        },
        ContinuousEffectOperation::ChangeController { controller } => {
            write_u32(sink, controller.0);
            proof {
                assert(sink.log() =~= start + enc_continuous_effect_operation(operation));
            }
        },
        ContinuousEffectOperation::SetTextMarker { marker } => {
            write_u32(sink, marker);
            proof {
                assert(sink.log() =~= start + enc_continuous_effect_operation(operation));
            }
        },
        ContinuousEffectOperation::SetTypes { types } => {
            write_object_types(sink, types);
            proof {
                assert(sink.log() =~= start + enc_continuous_effect_operation(operation));
            }
        },
        ContinuousEffectOperation::AddTypes { types } => {
            write_object_types(sink, types);
            proof {
                assert(sink.log() =~= start + enc_continuous_effect_operation(operation));
            }
        },
        ContinuousEffectOperation::RemoveTypes { types } => {
            write_object_types(sink, types);
            proof {
                assert(sink.log() =~= start + enc_continuous_effect_operation(operation));
            }
        },
        ContinuousEffectOperation::SetColors { colors } => {
            write_object_colors(sink, colors);
            proof {
                assert(sink.log() =~= start + enc_continuous_effect_operation(operation));
            }
        },
        ContinuousEffectOperation::AddKeywords { keywords } => {
            write_creature_keywords(sink, keywords);
            proof {
                assert(sink.log() =~= start + enc_continuous_effect_operation(operation));
            }
        },
        ContinuousEffectOperation::RemoveKeywords { keywords } => {
            write_creature_keywords(sink, keywords);
            proof {
                assert(sink.log() =~= start + enc_continuous_effect_operation(operation));
            }
        },
        ContinuousEffectOperation::SetBasePowerToughness { power, toughness } => {
            write_i32(sink, power);
            write_i32(sink, toughness);
            proof {
                assert(sink.log() =~= start + enc_continuous_effect_operation(operation));
            }
        },
        ContinuousEffectOperation::SetPowerToughness { power, toughness } => {
            write_i32(sink, power);
            write_i32(sink, toughness);
            proof {
                assert(sink.log() =~= start + enc_continuous_effect_operation(operation));
            }
        },
        ContinuousEffectOperation::ModifyPowerToughness { power, toughness } => {
            write_i32(sink, power);
            write_i32(sink, toughness);
            proof {
                assert(sink.log() =~= start + enc_continuous_effect_operation(operation));
            }
        },
        ContinuousEffectOperation::SwitchPowerToughness => {
            proof {
                assert(sink.log() =~= start + enc_continuous_effect_operation(operation));
            }
        },
    }
}

/// Writes the canonical bytes of one `ContinuousEffectId`.
pub(crate) fn write_continuous_effect_id<S: CanonicalSink>(sink: &mut S, id: ContinuousEffectId)
    ensures
        final(sink).log() == old(sink).log() + enc_continuous_effect_id(id),
{
    let ghost start = sink.log();
    proof {
        reveal(enc_continuous_effect_id);
    }
    write_u32(sink, id.0);
    proof {
        assert(sink.log() =~= start + enc_continuous_effect_id(id));
    }
}

/// Writes the canonical bytes of one `ContinuousEffectDefinition`.
pub(crate) fn write_continuous_effect_definition<S: CanonicalSink>(sink: &mut S, definition: &ContinuousEffectDefinition)
    ensures
        final(sink).log() == old(sink).log() + enc_continuous_effect_definition(*definition),
{
    let ghost start = sink.log();
    proof {
        reveal(enc_continuous_effect_definition);
    }
    write_u32(sink, definition.controller.0);
    proof {
        assert(sink.log() =~= start + (enc_u32(definition.controller.0)));
    }
    write_optional_object(sink, definition.source);
    proof {
        assert(sink.log() =~= start + (enc_u32(definition.controller.0) + enc_optional_object(definition.source)));
    }
    write_continuous_effect_target(sink, definition.target);
    proof {
        assert(sink.log() =~= start + (enc_u32(definition.controller.0) + enc_optional_object(definition.source) + enc_continuous_effect_target(definition.target)));
    }
    write_continuous_effect_operation(sink, definition.operation);
    proof {
        assert(sink.log() =~= start + (enc_u32(definition.controller.0) + enc_optional_object(definition.source) + enc_continuous_effect_target(definition.target) + enc_continuous_effect_operation(definition.operation)));
    }
    write_continuous_effect_duration(sink, definition.duration);
    proof {
        assert(sink.log() =~= start + (enc_u32(definition.controller.0) + enc_optional_object(definition.source) + enc_continuous_effect_target(definition.target) + enc_continuous_effect_operation(definition.operation) + enc_continuous_effect_duration(definition.duration)));
    }
    write_u64(sink, definition.timestamp);
    proof {
        assert(sink.log() =~= start + (enc_u32(definition.controller.0) + enc_optional_object(definition.source) + enc_continuous_effect_target(definition.target) + enc_continuous_effect_operation(definition.operation) + enc_continuous_effect_duration(definition.duration) + enc_u64(definition.timestamp)));
    }
    write_u32(sink, definition.dependencies.len() as u32);
    proof {
        assert(sink.log() =~= start + (enc_u32(definition.controller.0) + enc_optional_object(definition.source) + enc_continuous_effect_target(definition.target) + enc_continuous_effect_operation(definition.operation) + enc_continuous_effect_duration(definition.duration) + enc_u64(definition.timestamp) + enc_u32((definition.dependencies@.len()) as u32)));
    }
    write_list_continuous_effect_id(sink, &definition.dependencies);
    proof {
        assert(sink.log() =~= start + enc_continuous_effect_definition(*definition));
    }
}

/// Writes the canonical bytes of one `ContinuousEffectSubscription`.
pub(crate) fn write_continuous_effect_subscription<S: CanonicalSink>(sink: &mut S, subscription: &ContinuousEffectSubscription)
    ensures
        final(sink).log() == old(sink).log() + enc_continuous_effect_subscription(*subscription),
{
    let ghost start = sink.log();
    proof {
        reveal(enc_continuous_effect_subscription);
    }
    write_u32(sink, subscription.id.0);
    write_continuous_effect_definition(sink, &subscription.definition);
    proof {
        assert(sink.log() =~= start + enc_continuous_effect_subscription(*subscription));
    }
}

/// Writes the canonical bytes of one `StackEntry`.
pub(crate) fn write_stack_entry<S: CanonicalSink>(sink: &mut S, entry: &StackEntry)
    ensures
        final(sink).log() == old(sink).log() + enc_stack_entry(*entry),
{
    let ghost start = sink.log();
    proof {
        reveal(enc_stack_entry);
    }
    write_u32(sink, entry.id.0);
    proof {
        assert(sink.log() =~= start + (enc_u32(entry.id.0)));
    }
    write_u32(sink, entry.controller.0);
    proof {
        assert(sink.log() =~= start + (enc_u32(entry.id.0) + enc_u32(entry.controller.0)));
    }
    write_optional_object(sink, entry.object);
    proof {
        assert(sink.log() =~= start + (enc_u32(entry.id.0) + enc_u32(entry.controller.0) + enc_optional_object(entry.object)));
    }
    write_optional_trigger(sink, entry.trigger);
    proof {
        assert(sink.log() =~= start + (enc_u32(entry.id.0) + enc_u32(entry.controller.0) + enc_optional_object(entry.object) + enc_optional_trigger(entry.trigger)));
    }
    write_optional_activated_ability(sink, entry.activated_ability);
    proof {
        assert(sink.log() =~= start + (enc_u32(entry.id.0) + enc_u32(entry.controller.0) + enc_optional_object(entry.object) + enc_optional_trigger(entry.trigger) + enc_optional_activated_ability(entry.activated_ability)));
    }
    sink.put(entry.kind.canonical_code());
    proof {
        assert(sink.log() =~= start + (enc_u32(entry.id.0) + enc_u32(entry.controller.0) + enc_optional_object(entry.object) + enc_optional_trigger(entry.trigger) + enc_optional_activated_ability(entry.activated_ability) + seq![entry.kind.spec_canonical_code()]));
    }
    write_u32(sink, entry.targets.len() as u32);
    proof {
        assert(sink.log() =~= start + (enc_u32(entry.id.0) + enc_u32(entry.controller.0) + enc_optional_object(entry.object) + enc_optional_trigger(entry.trigger) + enc_optional_activated_ability(entry.activated_ability) + seq![entry.kind.spec_canonical_code()] + enc_u32((entry.targets@.len()) as u32)));
    }
    write_list_target_snapshot(sink, &entry.targets);
    proof {
        assert(sink.log() =~= start + (enc_u32(entry.id.0) + enc_u32(entry.controller.0) + enc_optional_object(entry.object) + enc_optional_trigger(entry.trigger) + enc_optional_activated_ability(entry.activated_ability) + seq![entry.kind.spec_canonical_code()] + enc_u32((entry.targets@.len()) as u32) + enc_list_target_snapshot(entry.targets@)));
    }
    write_optional_payment_plan(sink, entry.payment);
    proof {
        assert(sink.log() =~= start + enc_stack_entry(*entry));
    }
}

/// Writes the canonical bytes of one `bool`.
pub(crate) fn write_bool_value<S: CanonicalSink>(sink: &mut S, value: bool)
    ensures
        final(sink).log() == old(sink).log() + enc_bool_value(value),
{
    let ghost start = sink.log();
    proof {
        reveal(enc_bool_value);
    }
    write_bool(sink, value);
    proof {
        assert(sink.log() =~= start + enc_bool_value(value));
    }
}

/// Writes the canonical bytes of one `ResolutionRecord`.
pub(crate) fn write_resolution_record<S: CanonicalSink>(sink: &mut S, record: &ResolutionRecord)
    ensures
        final(sink).log() == old(sink).log() + enc_resolution_record(*record),
{
    let ghost start = sink.log();
    proof {
        reveal(enc_resolution_record);
    }
    write_u32(sink, record.stack_entry.0);
    proof {
        assert(sink.log() =~= start + (enc_u32(record.stack_entry.0)));
    }
    write_u32(sink, record.controller.0);
    proof {
        assert(sink.log() =~= start + (enc_u32(record.stack_entry.0) + enc_u32(record.controller.0)));
    }
    write_optional_object(sink, record.object);
    proof {
        assert(sink.log() =~= start + (enc_u32(record.stack_entry.0) + enc_u32(record.controller.0) + enc_optional_object(record.object)));
    }
    write_optional_trigger(sink, record.trigger);
    proof {
        assert(sink.log() =~= start + (enc_u32(record.stack_entry.0) + enc_u32(record.controller.0) + enc_optional_object(record.object) + enc_optional_trigger(record.trigger)));
    }
    write_optional_activated_ability(sink, record.activated_ability);
    proof {
        assert(sink.log() =~= start + (enc_u32(record.stack_entry.0) + enc_u32(record.controller.0) + enc_optional_object(record.object) + enc_optional_trigger(record.trigger) + enc_optional_activated_ability(record.activated_ability)));
    }
    sink.put(record.kind.canonical_code());
    proof {
        assert(sink.log() =~= start + (enc_u32(record.stack_entry.0) + enc_u32(record.controller.0) + enc_optional_object(record.object) + enc_optional_trigger(record.trigger) + enc_optional_activated_ability(record.activated_ability) + seq![record.kind.spec_canonical_code()]));
    }
    write_u32(sink, record.targets.len() as u32);
    proof {
        assert(sink.log() =~= start + (enc_u32(record.stack_entry.0) + enc_u32(record.controller.0) + enc_optional_object(record.object) + enc_optional_trigger(record.trigger) + enc_optional_activated_ability(record.activated_ability) + seq![record.kind.spec_canonical_code()] + enc_u32((record.targets@.len()) as u32)));
    }
    write_list_target_snapshot(sink, &record.targets);
    proof {
        assert(sink.log() =~= start + (enc_u32(record.stack_entry.0) + enc_u32(record.controller.0) + enc_optional_object(record.object) + enc_optional_trigger(record.trigger) + enc_optional_activated_ability(record.activated_ability) + seq![record.kind.spec_canonical_code()] + enc_u32((record.targets@.len()) as u32) + enc_list_target_snapshot(record.targets@)));
    }
    write_u32(sink, record.legal_targets.len() as u32);
    proof {
        assert(sink.log() =~= start + (enc_u32(record.stack_entry.0) + enc_u32(record.controller.0) + enc_optional_object(record.object) + enc_optional_trigger(record.trigger) + enc_optional_activated_ability(record.activated_ability) + seq![record.kind.spec_canonical_code()] + enc_u32((record.targets@.len()) as u32) + enc_list_target_snapshot(record.targets@) + enc_u32((record.legal_targets@.len()) as u32)));
    }
    write_list_bool_value(sink, &record.legal_targets);
    proof {
        assert(sink.log() =~= start + (enc_u32(record.stack_entry.0) + enc_u32(record.controller.0) + enc_optional_object(record.object) + enc_optional_trigger(record.trigger) + enc_optional_activated_ability(record.activated_ability) + seq![record.kind.spec_canonical_code()] + enc_u32((record.targets@.len()) as u32) + enc_list_target_snapshot(record.targets@) + enc_u32((record.legal_targets@.len()) as u32) + enc_list_bool_value(record.legal_targets@)));
    }
    sink.put(record.outcome.canonical_code());
    proof {
        assert(sink.log() =~= start + enc_resolution_record(*record));
    }
}

/// Writes the canonical bytes of one `EventRecord`.
pub(crate) fn write_event_record<S: CanonicalSink>(sink: &mut S, record: EventRecord)
    ensures
        final(sink).log() == old(sink).log() + enc_event_record(record),
{
    let ghost start = sink.log();
    proof {
        reveal(enc_event_record);
    }
    write_u64(sink, record.sequence);
    write_u32(sink, record.turn);
    write_game_event(sink, record.event);
    proof {
        assert(sink.log() =~= start + enc_event_record(record));
    }
}

/// Writes the canonical bytes of one `GameEvent`.
pub(crate) fn write_event_payload_1<S: CanonicalSink>(sink: &mut S, event: GameEvent)
    ensures
        final(sink).log() == old(sink).log() + enc_event_payload_1(event),
{
    let ghost start = sink.log();
    proof {
        reveal(enc_event_payload_1);
    }
    match event {
        GameEvent::SeedSet { seed } => {
            write_u64(sink, seed);
            proof {
                assert(sink.log() =~= start + enc_event_payload_1(event));
            }
        },
        GameEvent::PlayerAdded { player } => {
            write_u32(sink, player.0);
            proof {
                assert(sink.log() =~= start + enc_event_payload_1(event));
            }
        },
        GameEvent::OpeningHandKept { player } => {
            write_u32(sink, player.0);
            proof {
                assert(sink.log() =~= start + enc_event_payload_1(event));
            }
        },
        GameEvent::PriorityPassed { player } => {
            write_u32(sink, player.0);
            proof {
                assert(sink.log() =~= start + enc_event_payload_1(event));
            }
        },
        GameEvent::EmptyLibraryDraw { player } => {
            write_u32(sink, player.0);
            proof {
                assert(sink.log() =~= start + enc_event_payload_1(event));
            }
        },
        GameEvent::TurnOrderDecided { starting_player } => {
            write_u32(sink, starting_player.0);
            proof {
                assert(sink.log() =~= start + enc_event_payload_1(event));
            }
        },
        GameEvent::OpeningHandsDrawn => {
            proof {
                assert(sink.log() =~= start + enc_event_payload_1(event));
            }
        },
        GameEvent::CleanupPriorityRequested => {
            proof {
                assert(sink.log() =~= start + enc_event_payload_1(event));
            }
        },
        GameEvent::ManaPoolsCleared => {
            proof {
                assert(sink.log() =~= start + enc_event_payload_1(event));
            }
        },
        GameEvent::MulliganTaken { player, mulligans_taken } => {
            write_u32(sink, player.0);
            write_u32(sink, mulligans_taken);
            proof {
                assert(sink.log() =~= start + enc_event_payload_1(event));
            }
        },
        GameEvent::OpeningHandCardBottomed { player, object } => {
            write_u32(sink, player.0);
            write_u32(sink, object.0);
            proof {
                assert(sink.log() =~= start + enc_event_payload_1(event));
            }
        },
        GameEvent::PlayerMaxHandSizeSet { player, max_hand_size } => {
            write_u32(sink, player.0);
            write_u32(sink, max_hand_size);
            proof {
                assert(sink.log() =~= start + enc_event_payload_1(event));
            }
        },
        GameEvent::LifeTotalSet { player, life } => {
            write_u32(sink, player.0);
            write_i32(sink, life);
            proof {
                assert(sink.log() =~= start + enc_event_payload_1(event));
            }
        },
        GameEvent::LifeLost { player, amount, life } => {
            write_u32(sink, player.0);
            write_u32(sink, amount);
            write_i32(sink, life);
            proof {
                assert(sink.log() =~= start + enc_event_payload_1(event));
            }
        },
        _ => {
            proof {
                assert(sink.log() =~= start + enc_event_payload_1(event));
            }
        },
    }
}

/// Writes the canonical bytes of one `GameEvent`.
pub(crate) fn write_event_payload_2<S: CanonicalSink>(sink: &mut S, event: GameEvent)
    ensures
        final(sink).log() == old(sink).log() + enc_event_payload_2(event),
{
    let ghost start = sink.log();
    proof {
        reveal(enc_event_payload_2);
    }
    match event {
        GameEvent::LifeGained { player, amount, life } => {
            write_u32(sink, player.0);
            write_u32(sink, amount);
            write_i32(sink, life);
            proof {
                assert(sink.log() =~= start + enc_event_payload_2(event));
            }
        },
        GameEvent::PoisonCountersAdded { player, amount, poison } => {
            write_u32(sink, player.0);
            write_u32(sink, amount);
            write_u32(sink, poison);
            proof {
                assert(sink.log() =~= start + enc_event_payload_2(event));
            }
        },
        GameEvent::ManaPoolChanged { player, mana_pool } => {
            write_u32(sink, player.0);
            write_mana_pool(sink, mana_pool);
            proof {
                assert(sink.log() =~= start + enc_event_payload_2(event));
            }
        },
        GameEvent::ManaPaid { player, payment, mana_pool } => {
            write_u32(sink, player.0);
            write_payment_plan(sink, payment);
            write_mana_pool(sink, mana_pool);
            proof {
                assert(sink.log() =~= start + enc_event_payload_2(event));
            }
        },
        GameEvent::ObjectCreated { object, card, owner, controller, zone } => {
            write_u32(sink, object.0);
            write_u32(sink, card.0);
            write_u32(sink, owner.0);
            write_u32(sink, controller.0);
            write_zone_id(sink, zone);
            proof {
                assert(sink.log() =~= start + enc_event_payload_2(event));
            }
        },
        GameEvent::ObjectMoved { object, from, to } => {
            write_u32(sink, object.0);
            write_zone_id(sink, from);
            write_zone_id(sink, to);
            proof {
                assert(sink.log() =~= start + enc_event_payload_2(event));
            }
        },
        GameEvent::ZoneShuffled { zone } => {
            write_zone_id(sink, zone);
            proof {
                assert(sink.log() =~= start + enc_event_payload_2(event));
            }
        },
        GameEvent::BaseCreatureCharacteristicsSet { object, base } => {
            write_u32(sink, object.0);
            write_base_creature_characteristics(sink, base);
            proof {
                assert(sink.log() =~= start + enc_event_payload_2(event));
            }
        },
        GameEvent::BaseCreatureCharacteristicsCleared { object } => {
            write_u32(sink, object.0);
            proof {
                assert(sink.log() =~= start + enc_event_payload_2(event));
            }
        },
        GameEvent::ObjectTapped { object, tapped } => {
            write_u32(sink, object.0);
            write_bool(sink, tapped);
            proof {
                assert(sink.log() =~= start + enc_event_payload_2(event));
            }
        },
        GameEvent::DamageMarked { object, amount, total_damage } => {
            write_u32(sink, object.0);
            write_u32(sink, amount);
            write_u32(sink, total_damage);
            proof {
                assert(sink.log() =~= start + enc_event_payload_2(event));
            }
        },
        GameEvent::TurnStarted { turn, active_player } => {
            write_u32(sink, turn);
            write_u32(sink, active_player.0);
            proof {
                assert(sink.log() =~= start + enc_event_payload_2(event));
            }
        },
        GameEvent::StepEnded { step } => {
            sink.put(step.canonical_code());
            proof {
                assert(sink.log() =~= start + enc_event_payload_2(event));
            }
        },
        GameEvent::StepBegan { step } => {
            sink.put(step.canonical_code());
            proof {
                assert(sink.log() =~= start + enc_event_payload_2(event));
            }
        },
        _ => {
            proof {
                assert(sink.log() =~= start + enc_event_payload_2(event));
            }
        },
    }
}

/// Writes the canonical bytes of one `GameEvent`.
pub(crate) fn write_event_payload_3<S: CanonicalSink>(sink: &mut S, event: GameEvent)
    ensures
        final(sink).log() == old(sink).log() + enc_event_payload_3(event),
{
    let ghost start = sink.log();
    proof {
        reveal(enc_event_payload_3);
    }
    match event {
        GameEvent::PriorityChanged { player } => {
            write_optional_player(sink, player);
            proof {
                assert(sink.log() =~= start + enc_event_payload_3(event));
            }
        },
        GameEvent::StackEntryAdded { entry, controller, object, kind } => {
            write_u32(sink, entry.0);
            write_u32(sink, controller.0);
            write_optional_object(sink, object);
            sink.put(kind.canonical_code());
            proof {
                assert(sink.log() =~= start + enc_event_payload_3(event));
            }
        },
        GameEvent::StackEntryResolved { entry, outcome } => {
            write_u32(sink, entry.0);
            sink.put(outcome.canonical_code());
            proof {
                assert(sink.log() =~= start + enc_event_payload_3(event));
            }
        },
        GameEvent::AttackersDeclared { player, count } => {
            write_u32(sink, player.0);
            write_u32(sink, count);
            proof {
                assert(sink.log() =~= start + enc_event_payload_3(event));
            }
        },
        GameEvent::AttackDeclared { attacker, defending_player } => {
            write_u32(sink, attacker.0);
            write_u32(sink, defending_player.0);
            proof {
                assert(sink.log() =~= start + enc_event_payload_3(event));
            }
        },
        GameEvent::BlockersDeclared { defending_player, count } => {
            write_u32(sink, defending_player.0);
            write_u32(sink, count);
            proof {
                assert(sink.log() =~= start + enc_event_payload_3(event));
            }
        },
        GameEvent::BlockDeclared { blocker, attacker } => {
            write_u32(sink, blocker.0);
            write_u32(sink, attacker.0);
            proof {
                assert(sink.log() =~= start + enc_event_payload_3(event));
            }
        },
        GameEvent::CombatDamageDealt { record } => {
            write_combat_damage_record(sink, record);
            proof {
                assert(sink.log() =~= start + enc_event_payload_3(event));
            }
        },
        GameEvent::PlayerLostByStateBasedAction { player, kind } => {
            write_u32(sink, player.0);
            sink.put(kind.canonical_code());
            proof {
                assert(sink.log() =~= start + enc_event_payload_3(event));
            }
        },
        GameEvent::PermanentMovedByStateBasedAction { object, kind } => {
            write_u32(sink, object.0);
            sink.put(kind.canonical_code());
            proof {
                assert(sink.log() =~= start + enc_event_payload_3(event));
            }
        },
        GameEvent::GameOutcomeChanged { outcome } => {
            write_game_outcome(sink, outcome);
            proof {
                assert(sink.log() =~= start + enc_event_payload_3(event));
            }
        },
        GameEvent::DurationMarkerAdded { marker, duration } => {
            write_u32(sink, marker.0);
            write_effect_duration(sink, duration);
            proof {
                assert(sink.log() =~= start + enc_event_payload_3(event));
            }
        },
        GameEvent::DurationMarkersExpired { duration, count } => {
            write_effect_duration(sink, duration);
            write_u32(sink, count);
            proof {
                assert(sink.log() =~= start + enc_event_payload_3(event));
            }
        },
        _ => {
            proof {
                assert(sink.log() =~= start + enc_event_payload_3(event));
            }
        },
    }
}

/// Writes the canonical bytes of one `GameEvent`.
pub(crate) fn write_event_payload_4<S: CanonicalSink>(sink: &mut S, event: GameEvent)
    ensures
        final(sink).log() == old(sink).log() + enc_event_payload_4(event),
{
    let ghost start = sink.log();
    proof {
        reveal(enc_event_payload_4);
    }
    match event {
        GameEvent::CleanupPerformed { report } => {
            write_cleanup_report(sink, report);
            proof {
                assert(sink.log() =~= start + enc_event_payload_4(event));
            }
        },
        GameEvent::TriggeredAbilityRegistered { trigger, controller, source, event_kind, duration } => {
            write_u32(sink, trigger.0);
            write_u32(sink, controller.0);
            write_optional_object(sink, source);
            write_game_event_kind(sink, event_kind);
            write_trigger_duration(sink, duration);
            proof {
                assert(sink.log() =~= start + enc_event_payload_4(event));
            }
        },
        GameEvent::TriggeredAbilityQueued { trigger, controller, event_sequence } => {
            write_u32(sink, trigger.0);
            write_u32(sink, controller.0);
            write_u64(sink, event_sequence);
            proof {
                assert(sink.log() =~= start + enc_event_payload_4(event));
            }
        },
        GameEvent::TriggeredAbilityPutOnStack { trigger, entry, controller } => {
            write_u32(sink, trigger.0);
            write_u32(sink, entry.0);
            write_u32(sink, controller.0);
            proof {
                assert(sink.log() =~= start + enc_event_payload_4(event));
            }
        },
        GameEvent::ReplacementEffectRegistered { replacement, controller, source, operation, duration, self_replacement } => {
            write_u32(sink, replacement.0);
            write_u32(sink, controller.0);
            write_optional_object(sink, source);
            write_replacement_operation(sink, operation);
            write_replacement_duration(sink, duration);
            write_bool(sink, self_replacement);
            proof {
                assert(sink.log() =~= start + enc_event_payload_4(event));
            }
        },
        GameEvent::ReplacementChoiceOrderSet { chooser, count } => {
            write_u32(sink, chooser.0);
            write_u32(sink, count);
            proof {
                assert(sink.log() =~= start + enc_event_payload_4(event));
            }
        },
        GameEvent::ReplacementEffectApplied { replacement, chooser, source, target, operation, original_amount, resulting_amount } => {
            write_u32(sink, replacement.0);
            write_u32(sink, chooser.0);
            write_optional_object(sink, source);
            write_combat_damage_target(sink, target);
            write_replacement_operation(sink, operation);
            write_u32(sink, original_amount);
            write_u32(sink, resulting_amount);
            proof {
                assert(sink.log() =~= start + enc_event_payload_4(event));
            }
        },
        GameEvent::ContinuousEffectRegistered { effect, controller, source, target, operation, layer, timestamp } => {
            write_u32(sink, effect.0);
            write_u32(sink, controller.0);
            write_optional_object(sink, source);
            write_continuous_effect_target(sink, target);
            write_continuous_effect_operation(sink, operation);
            write_continuous_effect_layer(sink, layer);
            write_u64(sink, timestamp);
            proof {
                assert(sink.log() =~= start + enc_event_payload_4(event));
            }
        },
        GameEvent::ObjectLoyaltySet { object, loyalty } => {
            write_u32(sink, object.0);
            write_optional_i32(sink, loyalty);
            proof {
                assert(sink.log() =~= start + enc_event_payload_4(event));
            }
        },
        GameEvent::ActivatedAbilityRegistered { ability, controller, source, mana_ability } => {
            write_u32(sink, ability.0);
            write_u32(sink, controller.0);
            write_optional_object(sink, source);
            write_bool(sink, mana_ability);
            proof {
                assert(sink.log() =~= start + enc_event_payload_4(event));
            }
        },
        GameEvent::CostModifierRegistered { modifier, controller, source, operation } => {
            write_u32(sink, modifier.0);
            write_u32(sink, controller.0);
            write_optional_object(sink, source);
            write_cost_modifier_operation(sink, operation);
            proof {
                assert(sink.log() =~= start + enc_event_payload_4(event));
            }
        },
        GameEvent::ActivatedAbilityActivated { ability, player, source, mana_ability } => {
            write_u32(sink, ability.0);
            write_u32(sink, player.0);
            write_optional_object(sink, source);
            write_bool(sink, mana_ability);
            proof {
                assert(sink.log() =~= start + enc_event_payload_4(event));
            }
        },
        GameEvent::ActivatedAbilityResolved { ability, player, source, effect } => {
            write_u32(sink, ability.0);
            write_u32(sink, player.0);
            write_optional_object(sink, source);
            write_activated_ability_effect(sink, effect);
            proof {
                assert(sink.log() =~= start + enc_event_payload_4(event));
            }
        },
        _ => {
            proof {
                assert(sink.log() =~= start + enc_event_payload_4(event));
            }
        },
    }
}

/// Writes the canonical bytes of one `GameEvent`.
pub(crate) fn write_game_event<S: CanonicalSink>(sink: &mut S, event: GameEvent)
    ensures
        final(sink).log() == old(sink).log() + enc_game_event(event),
{
    let ghost start = sink.log();
    proof {
        reveal(enc_game_event);
    }
    sink.put(event.canonical_code());
    proof {
        assert(sink.log() =~= start + (seq![event.spec_canonical_code()]));
    }
    write_event_payload_1(sink, event);
    proof {
        assert(sink.log() =~= start + (seq![event.spec_canonical_code()] + enc_event_payload_1(event)));
    }
    write_event_payload_2(sink, event);
    proof {
        assert(sink.log() =~= start + (seq![event.spec_canonical_code()] + enc_event_payload_1(event) + enc_event_payload_2(event)));
    }
    write_event_payload_3(sink, event);
    proof {
        assert(sink.log() =~= start + (seq![event.spec_canonical_code()] + enc_event_payload_1(event) + enc_event_payload_2(event) + enc_event_payload_3(event)));
    }
    write_event_payload_4(sink, event);
    proof {
        assert(sink.log() =~= start + enc_game_event(event));
    }
}

/// Writes the canonical bytes of one `Option<CombatDamageStepKind>`.
pub(crate) fn write_optional_combat_damage_step<S: CanonicalSink>(sink: &mut S, o: Option<CombatDamageStepKind>)
    ensures
        final(sink).log() == old(sink).log() + enc_optional_combat_damage_step(o),
{
    let ghost start = sink.log();
    proof {
        reveal(enc_optional_combat_damage_step);
    }
    match o {
        Some(v) => {
            sink.put(1u8);
            sink.put(v.canonical_code());
            proof {
                assert(sink.log() =~= start + enc_optional_combat_damage_step(o));
            }
        },
        None => {
            sink.put(0u8);
            proof {
                assert(sink.log() =~= start + enc_optional_combat_damage_step(o));
            }
        },
    }
}

/// Writes the canonical bytes of one `CombatDamageTarget`.
pub(crate) fn write_combat_damage_target<S: CanonicalSink>(sink: &mut S, target: CombatDamageTarget)
    ensures
        final(sink).log() == old(sink).log() + enc_combat_damage_target(target),
{
    let ghost start = sink.log();
    proof {
        reveal(enc_combat_damage_target);
    }
    sink.put(target.canonical_code());
    match target {
        CombatDamageTarget::Player(player) => {
            write_u32(sink, player.0);
            proof {
                assert(sink.log() =~= start + enc_combat_damage_target(target));
            }
        },
        CombatDamageTarget::Object(object) => {
            write_u32(sink, object.0);
            proof {
                assert(sink.log() =~= start + enc_combat_damage_target(target));
            }
        },
    }
}

/// Writes the canonical bytes of one `ObjectId`.
pub(crate) fn write_object_id<S: CanonicalSink>(sink: &mut S, id: ObjectId)
    ensures
        final(sink).log() == old(sink).log() + enc_object_id(id),
{
    let ghost start = sink.log();
    proof {
        reveal(enc_object_id);
    }
    write_u32(sink, id.0);
    proof {
        assert(sink.log() =~= start + enc_object_id(id));
    }
}

/// Writes the canonical bytes of one `PlayerId`.
pub(crate) fn write_player_id<S: CanonicalSink>(sink: &mut S, id: PlayerId)
    ensures
        final(sink).log() == old(sink).log() + enc_player_id(id),
{
    let ghost start = sink.log();
    proof {
        reveal(enc_player_id);
    }
    write_u32(sink, id.0);
    proof {
        assert(sink.log() =~= start + enc_player_id(id));
    }
}

/// Writes the canonical bytes of one `AttackingCreature`.
pub(crate) fn write_attacking_creature<S: CanonicalSink>(sink: &mut S, attacker: &AttackingCreature)
    ensures
        final(sink).log() == old(sink).log() + enc_attacking_creature(*attacker),
{
    let ghost start = sink.log();
    proof {
        reveal(enc_attacking_creature);
    }
    write_u32(sink, attacker.object.0);
    proof {
        assert(sink.log() =~= start + (enc_u32(attacker.object.0)));
    }
    write_u32(sink, attacker.defending_player.0);
    proof {
        assert(sink.log() =~= start + (enc_u32(attacker.object.0) + enc_u32(attacker.defending_player.0)));
    }
    write_bool(sink, attacker.blocked);
    proof {
        assert(sink.log() =~= start + (enc_u32(attacker.object.0) + enc_u32(attacker.defending_player.0) + enc_bool(attacker.blocked)));
    }
    write_u32(sink, attacker.blockers.len() as u32);
    proof {
        assert(sink.log() =~= start + (enc_u32(attacker.object.0) + enc_u32(attacker.defending_player.0) + enc_bool(attacker.blocked) + enc_u32((attacker.blockers@.len()) as u32)));
    }
    write_list_object_id(sink, &attacker.blockers);
    proof {
        assert(sink.log() =~= start + enc_attacking_creature(*attacker));
    }
}

/// Writes the canonical bytes of one `BlockingCreature`.
pub(crate) fn write_blocking_creature<S: CanonicalSink>(sink: &mut S, blocker: BlockingCreature)
    ensures
        final(sink).log() == old(sink).log() + enc_blocking_creature(blocker),
{
    let ghost start = sink.log();
    proof {
        reveal(enc_blocking_creature);
    }
    write_u32(sink, blocker.object.0);
    write_u32(sink, blocker.attacker.0);
    proof {
        assert(sink.log() =~= start + enc_blocking_creature(blocker));
    }
}

/// Writes the canonical bytes of one `CombatDamageRecord`.
pub(crate) fn write_combat_damage_record<S: CanonicalSink>(sink: &mut S, record: CombatDamageRecord)
    ensures
        final(sink).log() == old(sink).log() + enc_combat_damage_record(record),
{
    let ghost start = sink.log();
    proof {
        reveal(enc_combat_damage_record);
    }
    write_u32(sink, record.source.0);
    proof {
        assert(sink.log() =~= start + (enc_u32(record.source.0)));
    }
    write_combat_damage_target(sink, record.target);
    proof {
        assert(sink.log() =~= start + (enc_u32(record.source.0) + enc_combat_damage_target(record.target)));
    }
    write_u32(sink, record.amount);
    proof {
        assert(sink.log() =~= start + (enc_u32(record.source.0) + enc_combat_damage_target(record.target) + enc_u32(record.amount)));
    }
    sink.put(record.step.canonical_code());
    proof {
        assert(sink.log() =~= start + (enc_u32(record.source.0) + enc_combat_damage_target(record.target) + enc_u32(record.amount) + seq![record.step.spec_canonical_code()]));
    }
    write_bool(sink, record.source_had_deathtouch);
    proof {
        assert(sink.log() =~= start + (enc_u32(record.source.0) + enc_combat_damage_target(record.target) + enc_u32(record.amount) + seq![record.step.spec_canonical_code()] + enc_bool(record.source_had_deathtouch)));
    }
    write_bool(sink, record.source_had_lifelink);
    proof {
        assert(sink.log() =~= start + enc_combat_damage_record(record));
    }
}

/// Writes the canonical bytes of one `CombatState`.
pub(crate) fn write_combat_state<S: CanonicalSink>(sink: &mut S, combat: &CombatState)
    ensures
        final(sink).log() == old(sink).log() + enc_combat_state(*combat),
{
    let ghost start = sink.log();
    proof {
        reveal(enc_combat_state);
    }
    write_u32(sink, combat.attackers.len() as u32);
    proof {
        assert(sink.log() =~= start + (enc_u32((combat.attackers@.len()) as u32)));
    }
    write_list_attacking_creature(sink, &combat.attackers);
    proof {
        assert(sink.log() =~= start + (enc_u32((combat.attackers@.len()) as u32) + enc_list_attacking_creature(combat.attackers@)));
    }
    write_u32(sink, combat.blockers.len() as u32);
    proof {
        assert(sink.log() =~= start + (enc_u32((combat.attackers@.len()) as u32) + enc_list_attacking_creature(combat.attackers@) + enc_u32((combat.blockers@.len()) as u32)));
    }
    write_list_blocking_creature(sink, &combat.blockers);
    proof {
        assert(sink.log() =~= start + (enc_u32((combat.attackers@.len()) as u32) + enc_list_attacking_creature(combat.attackers@) + enc_u32((combat.blockers@.len()) as u32) + enc_list_blocking_creature(combat.blockers@)));
    }
    write_u32(sink, combat.damage_records.len() as u32);
    proof {
        assert(sink.log() =~= start + (enc_u32((combat.attackers@.len()) as u32) + enc_list_attacking_creature(combat.attackers@) + enc_u32((combat.blockers@.len()) as u32) + enc_list_blocking_creature(combat.blockers@) + enc_u32((combat.damage_records@.len()) as u32)));
    }
    write_list_combat_damage_record(sink, &combat.damage_records);
    proof {
        assert(sink.log() =~= start + (enc_u32((combat.attackers@.len()) as u32) + enc_list_attacking_creature(combat.attackers@) + enc_u32((combat.blockers@.len()) as u32) + enc_list_blocking_creature(combat.blockers@) + enc_u32((combat.damage_records@.len()) as u32) + enc_list_combat_damage_record(combat.damage_records@)));
    }
    write_optional_combat_damage_step(sink, combat.damage_step);
    proof {
        assert(sink.log() =~= start + (enc_u32((combat.attackers@.len()) as u32) + enc_list_attacking_creature(combat.attackers@) + enc_u32((combat.blockers@.len()) as u32) + enc_list_blocking_creature(combat.blockers@) + enc_u32((combat.damage_records@.len()) as u32) + enc_list_combat_damage_record(combat.damage_records@) + enc_optional_combat_damage_step(combat.damage_step)));
    }
    write_u32(sink, combat.first_strike_participants.len() as u32);
    proof {
        assert(sink.log() =~= start + (enc_u32((combat.attackers@.len()) as u32) + enc_list_attacking_creature(combat.attackers@) + enc_u32((combat.blockers@.len()) as u32) + enc_list_blocking_creature(combat.blockers@) + enc_u32((combat.damage_records@.len()) as u32) + enc_list_combat_damage_record(combat.damage_records@) + enc_optional_combat_damage_step(combat.damage_step) + enc_u32((combat.first_strike_participants@.len()) as u32)));
    }
    write_list_object_id(sink, &combat.first_strike_participants);
    proof {
        assert(sink.log() =~= start + enc_combat_state(*combat));
    }
}

/// Writes the canonical bytes of one `PlayerState`.
pub(crate) fn write_player_state<S: CanonicalSink>(sink: &mut S, player: PlayerState)
    ensures
        final(sink).log() == old(sink).log() + enc_player_state(player),
{
    let ghost start = sink.log();
    proof {
        reveal(enc_player_state);
    }
    write_u32(sink, player.id.0);
    proof {
        assert(sink.log() =~= start + (enc_u32(player.id.0)));
    }
    write_i32(sink, player.life);
    proof {
        assert(sink.log() =~= start + (enc_u32(player.id.0) + enc_i32(player.life)));
    }
    write_u32(sink, player.poison);
    proof {
        assert(sink.log() =~= start + (enc_u32(player.id.0) + enc_i32(player.life) + enc_u32(player.poison)));
    }
    write_bool(sink, player.lost);
    proof {
        assert(sink.log() =~= start + (enc_u32(player.id.0) + enc_i32(player.life) + enc_u32(player.poison) + enc_bool(player.lost)));
    }
    write_u32(sink, player.max_hand_size);
    proof {
        assert(sink.log() =~= start + (enc_u32(player.id.0) + enc_i32(player.life) + enc_u32(player.poison) + enc_bool(player.lost) + enc_u32(player.max_hand_size)));
    }
    write_u32(sink, player.mulligans_taken);
    proof {
        assert(sink.log() =~= start + (enc_u32(player.id.0) + enc_i32(player.life) + enc_u32(player.poison) + enc_bool(player.lost) + enc_u32(player.max_hand_size) + enc_u32(player.mulligans_taken)));
    }
    write_bool(sink, player.opening_hand_kept);
    proof {
        assert(sink.log() =~= start + (enc_u32(player.id.0) + enc_i32(player.life) + enc_u32(player.poison) + enc_bool(player.lost) + enc_u32(player.max_hand_size) + enc_u32(player.mulligans_taken) + enc_bool(player.opening_hand_kept)));
    }
    write_mana_pool(sink, player.mana_pool);
    proof {
        assert(sink.log() =~= start + enc_player_state(player));
    }
}

/// Writes the canonical bytes of one `ObjectRecord`.
pub(crate) fn write_object_record<S: CanonicalSink>(sink: &mut S, object: ObjectRecord)
    ensures
        final(sink).log() == old(sink).log() + enc_object_record(object),
{
    let ghost start = sink.log();
    proof {
        reveal(enc_object_record);
    }
    write_u32(sink, object.id.0);
    proof {
        assert(sink.log() =~= start + (enc_u32(object.id.0)));
    }
    write_u32(sink, object.card.0);
    proof {
        assert(sink.log() =~= start + (enc_u32(object.id.0) + enc_u32(object.card.0)));
    }
    write_u32(sink, object.owner.0);
    proof {
        assert(sink.log() =~= start + (enc_u32(object.id.0) + enc_u32(object.card.0) + enc_u32(object.owner.0)));
    }
    write_u32(sink, object.controller.0);
    proof {
        assert(sink.log() =~= start + (enc_u32(object.id.0) + enc_u32(object.card.0) + enc_u32(object.owner.0) + enc_u32(object.controller.0)));
    }
    write_bool(sink, object.tapped);
    proof {
        assert(sink.log() =~= start + (enc_u32(object.id.0) + enc_u32(object.card.0) + enc_u32(object.owner.0) + enc_u32(object.controller.0) + enc_bool(object.tapped)));
    }
    write_optional_base_creature_characteristics(sink, object.base_creature);
    proof {
        assert(sink.log() =~= start + (enc_u32(object.id.0) + enc_u32(object.card.0) + enc_u32(object.owner.0) + enc_u32(object.controller.0) + enc_bool(object.tapped) + enc_optional_base_creature_characteristics(object.base_creature)));
    }
    write_u32(sink, object.damage_marked);
    proof {
        assert(sink.log() =~= start + (enc_u32(object.id.0) + enc_u32(object.card.0) + enc_u32(object.owner.0) + enc_u32(object.controller.0) + enc_bool(object.tapped) + enc_optional_base_creature_characteristics(object.base_creature) + enc_u32(object.damage_marked)));
    }
    write_bool(sink, object.deathtouch_damage_marked);
    proof {
        assert(sink.log() =~= start + (enc_u32(object.id.0) + enc_u32(object.card.0) + enc_u32(object.owner.0) + enc_u32(object.controller.0) + enc_bool(object.tapped) + enc_optional_base_creature_characteristics(object.base_creature) + enc_u32(object.damage_marked) + enc_bool(object.deathtouch_damage_marked)));
    }
    write_optional_i32(sink, object.loyalty);
    proof {
        assert(sink.log() =~= start + (enc_u32(object.id.0) + enc_u32(object.card.0) + enc_u32(object.owner.0) + enc_u32(object.controller.0) + enc_bool(object.tapped) + enc_optional_base_creature_characteristics(object.base_creature) + enc_u32(object.damage_marked) + enc_bool(object.deathtouch_damage_marked) + enc_optional_i32(object.loyalty)));
    }
    write_u32(sink, object.controlled_since_turn);
    proof {
        assert(sink.log() =~= start + enc_object_record(object));
    }
}

/// Writes the canonical bytes of one `Zone`.
pub(crate) fn write_zone<S: CanonicalSink>(sink: &mut S, zone: &Zone)
    ensures
        final(sink).log() == old(sink).log() + enc_zone(*zone),
{
    let ghost start = sink.log();
    proof {
        reveal(enc_zone);
    }
    write_zone_id(sink, zone.id);
    write_u32(sink, zone.objects.len() as u32);
    write_list_object_id(sink, &zone.objects);
    proof {
        assert(sink.log() =~= start + enc_zone(*zone));
    }
}

/// Writes the canonical bytes of one `DurationMarker`.
pub(crate) fn write_duration_marker<S: CanonicalSink>(sink: &mut S, marker: DurationMarker)
    ensures
        final(sink).log() == old(sink).log() + enc_duration_marker(marker),
{
    let ghost start = sink.log();
    proof {
        reveal(enc_duration_marker);
    }
    write_u32(sink, marker.id.0);
    write_effect_duration(sink, marker.duration);
    proof {
        assert(sink.log() =~= start + enc_duration_marker(marker));
    }
}

/// Writes the canonical bytes of one `GameState`.
pub(crate) fn write_state_header<S: CanonicalSink>(sink: &mut S, state: &GameState)
    ensures
        final(sink).log() == old(sink).log() + enc_state_header(*state),
{
    let ghost start = sink.log();
    proof {
        reveal(enc_state_header);
    }
    write_u64(sink, state.seed);
    proof {
        assert(sink.log() =~= start + (enc_u64(state.seed)));
    }
    write_u64(sink, state.rng_state);
    proof {
        assert(sink.log() =~= start + (enc_u64(state.seed) + enc_u64(state.rng_state)));
    }
    write_u32(sink, state.turn_number);
    proof {
        assert(sink.log() =~= start + (enc_u64(state.seed) + enc_u64(state.rng_state) + enc_u32(state.turn_number)));
    }
    write_game_outcome(sink, state.outcome);
    proof {
        assert(sink.log() =~= start + (enc_u64(state.seed) + enc_u64(state.rng_state) + enc_u32(state.turn_number) + enc_game_outcome(state.outcome)));
    }
    write_optional_player(sink, state.starting_player);
    proof {
        assert(sink.log() =~= start + (enc_u64(state.seed) + enc_u64(state.rng_state) + enc_u32(state.turn_number) + enc_game_outcome(state.outcome) + enc_optional_player(state.starting_player)));
    }
    write_bool(sink, state.opening_hands_drawn);
    proof {
        assert(sink.log() =~= start + (enc_u64(state.seed) + enc_u64(state.rng_state) + enc_u32(state.turn_number) + enc_game_outcome(state.outcome) + enc_optional_player(state.starting_player) + enc_bool(state.opening_hands_drawn)));
    }
    write_optional_player(sink, state.active_player);
    proof {
        assert(sink.log() =~= start + (enc_u64(state.seed) + enc_u64(state.rng_state) + enc_u32(state.turn_number) + enc_game_outcome(state.outcome) + enc_optional_player(state.starting_player) + enc_bool(state.opening_hands_drawn) + enc_optional_player(state.active_player)));
    }
    write_optional_player(sink, state.priority_player);
    proof {
        assert(sink.log() =~= start + (enc_u64(state.seed) + enc_u64(state.rng_state) + enc_u32(state.turn_number) + enc_game_outcome(state.outcome) + enc_optional_player(state.starting_player) + enc_bool(state.opening_hands_drawn) + enc_optional_player(state.active_player) + enc_optional_player(state.priority_player)));
    }
    write_u32(sink, state.priority_pass_count);
    proof {
        assert(sink.log() =~= start + (enc_u64(state.seed) + enc_u64(state.rng_state) + enc_u32(state.turn_number) + enc_game_outcome(state.outcome) + enc_optional_player(state.starting_player) + enc_bool(state.opening_hands_drawn) + enc_optional_player(state.active_player) + enc_optional_player(state.priority_player) + enc_u32(state.priority_pass_count)));
    }
    write_optional_step(sink, state.current_step);
    proof {
        assert(sink.log() =~= start + (enc_u64(state.seed) + enc_u64(state.rng_state) + enc_u32(state.turn_number) + enc_game_outcome(state.outcome) + enc_optional_player(state.starting_player) + enc_bool(state.opening_hands_drawn) + enc_optional_player(state.active_player) + enc_optional_player(state.priority_player) + enc_u32(state.priority_pass_count) + enc_optional_step(state.current_step)));
    }
    write_u32(sink, state.cleanup_iteration);
    proof {
        assert(sink.log() =~= start + (enc_u64(state.seed) + enc_u64(state.rng_state) + enc_u32(state.turn_number) + enc_game_outcome(state.outcome) + enc_optional_player(state.starting_player) + enc_bool(state.opening_hands_drawn) + enc_optional_player(state.active_player) + enc_optional_player(state.priority_player) + enc_u32(state.priority_pass_count) + enc_optional_step(state.current_step) + enc_u32(state.cleanup_iteration)));
    }
    write_bool(sink, state.cleanup_priority_requested);
    proof {
        assert(sink.log() =~= start + (enc_u64(state.seed) + enc_u64(state.rng_state) + enc_u32(state.turn_number) + enc_game_outcome(state.outcome) + enc_optional_player(state.starting_player) + enc_bool(state.opening_hands_drawn) + enc_optional_player(state.active_player) + enc_optional_player(state.priority_player) + enc_u32(state.priority_pass_count) + enc_optional_step(state.current_step) + enc_u32(state.cleanup_iteration) + enc_bool(state.cleanup_priority_requested)));
    }
    write_bool(sink, state.cleanup_repeat_pending);
    proof {
        assert(sink.log() =~= start + (enc_u64(state.seed) + enc_u64(state.rng_state) + enc_u32(state.turn_number) + enc_game_outcome(state.outcome) + enc_optional_player(state.starting_player) + enc_bool(state.opening_hands_drawn) + enc_optional_player(state.active_player) + enc_optional_player(state.priority_player) + enc_u32(state.priority_pass_count) + enc_optional_step(state.current_step) + enc_u32(state.cleanup_iteration) + enc_bool(state.cleanup_priority_requested) + enc_bool(state.cleanup_repeat_pending)));
    }
    write_bool(sink, state.attackers_declared_this_combat);
    proof {
        assert(sink.log() =~= start + (enc_u64(state.seed) + enc_u64(state.rng_state) + enc_u32(state.turn_number) + enc_game_outcome(state.outcome) + enc_optional_player(state.starting_player) + enc_bool(state.opening_hands_drawn) + enc_optional_player(state.active_player) + enc_optional_player(state.priority_player) + enc_u32(state.priority_pass_count) + enc_optional_step(state.current_step) + enc_u32(state.cleanup_iteration) + enc_bool(state.cleanup_priority_requested) + enc_bool(state.cleanup_repeat_pending) + enc_bool(state.attackers_declared_this_combat)));
    }
    write_cleanup_report(sink, state.last_cleanup_report);
    proof {
        assert(sink.log() =~= start + enc_state_header(*state));
    }
}

/// Writes the canonical bytes of one `GameState`.
pub(crate) fn write_state_board<S: CanonicalSink>(sink: &mut S, state: &GameState)
    ensures
        final(sink).log() == old(sink).log() + enc_state_board(*state),
{
    let ghost start = sink.log();
    proof {
        reveal(enc_state_board);
    }
    write_u32(sink, state.players.len() as u32);
    proof {
        assert(sink.log() =~= start + (enc_u32((state.players@.len()) as u32)));
    }
    write_list_player_state(sink, &state.players);
    proof {
        assert(sink.log() =~= start + (enc_u32((state.players@.len()) as u32) + enc_list_player_state(state.players@)));
    }
    write_u32(sink, state.objects.records.len() as u32);
    proof {
        assert(sink.log() =~= start + (enc_u32((state.players@.len()) as u32) + enc_list_player_state(state.players@) + enc_u32((state.objects.records@.len()) as u32)));
    }
    write_list_object_record(sink, &state.objects.records);
    proof {
        assert(sink.log() =~= start + (enc_u32((state.players@.len()) as u32) + enc_list_player_state(state.players@) + enc_u32((state.objects.records@.len()) as u32) + enc_list_object_record(state.objects.records@)));
    }
    write_u32(sink, state.zones.len() as u32);
    proof {
        assert(sink.log() =~= start + (enc_u32((state.players@.len()) as u32) + enc_list_player_state(state.players@) + enc_u32((state.objects.records@.len()) as u32) + enc_list_object_record(state.objects.records@) + enc_u32((state.zones@.len()) as u32)));
    }
    write_list_zone(sink, &state.zones);
    proof {
        assert(sink.log() =~= start + enc_state_board(*state));
    }
}

/// Writes the canonical bytes of one `GameState`.
pub(crate) fn write_state_stack<S: CanonicalSink>(sink: &mut S, state: &GameState)
    ensures
        final(sink).log() == old(sink).log() + enc_state_stack(*state),
{
    let ghost start = sink.log();
    proof {
        reveal(enc_state_stack);
    }
    write_u32(sink, state.next_duration_marker);
    proof {
        assert(sink.log() =~= start + (enc_u32(state.next_duration_marker)));
    }
    write_u32(sink, state.duration_markers.len() as u32);
    proof {
        assert(sink.log() =~= start + (enc_u32(state.next_duration_marker) + enc_u32((state.duration_markers@.len()) as u32)));
    }
    write_list_duration_marker(sink, &state.duration_markers);
    proof {
        assert(sink.log() =~= start + (enc_u32(state.next_duration_marker) + enc_u32((state.duration_markers@.len()) as u32) + enc_list_duration_marker(state.duration_markers@)));
    }
    write_u32(sink, state.next_stack_entry);
    proof {
        assert(sink.log() =~= start + (enc_u32(state.next_duration_marker) + enc_u32((state.duration_markers@.len()) as u32) + enc_list_duration_marker(state.duration_markers@) + enc_u32(state.next_stack_entry)));
    }
    write_u32(sink, state.stack_entries.len() as u32);
    proof {
        assert(sink.log() =~= start + (enc_u32(state.next_duration_marker) + enc_u32((state.duration_markers@.len()) as u32) + enc_list_duration_marker(state.duration_markers@) + enc_u32(state.next_stack_entry) + enc_u32((state.stack_entries@.len()) as u32)));
    }
    write_list_stack_entry(sink, &state.stack_entries);
    proof {
        assert(sink.log() =~= start + (enc_u32(state.next_duration_marker) + enc_u32((state.duration_markers@.len()) as u32) + enc_list_duration_marker(state.duration_markers@) + enc_u32(state.next_stack_entry) + enc_u32((state.stack_entries@.len()) as u32) + enc_list_stack_entry(state.stack_entries@)));
    }
    write_u32(sink, state.resolution_log.len() as u32);
    proof {
        assert(sink.log() =~= start + (enc_u32(state.next_duration_marker) + enc_u32((state.duration_markers@.len()) as u32) + enc_list_duration_marker(state.duration_markers@) + enc_u32(state.next_stack_entry) + enc_u32((state.stack_entries@.len()) as u32) + enc_list_stack_entry(state.stack_entries@) + enc_u32((state.resolution_log@.len()) as u32)));
    }
    write_list_resolution_record(sink, &state.resolution_log);
    proof {
        assert(sink.log() =~= start + enc_state_stack(*state));
    }
}

/// Writes the canonical bytes of one `GameState`.
pub(crate) fn write_state_triggers<S: CanonicalSink>(sink: &mut S, state: &GameState)
    ensures
        final(sink).log() == old(sink).log() + enc_state_triggers(*state),
{
    let ghost start = sink.log();
    proof {
        reveal(enc_state_triggers);
    }
    write_u32(sink, state.next_trigger);
    proof {
        assert(sink.log() =~= start + (enc_u32(state.next_trigger)));
    }
    write_u32(sink, state.trigger_subscriptions.len() as u32);
    proof {
        assert(sink.log() =~= start + (enc_u32(state.next_trigger) + enc_u32((state.trigger_subscriptions@.len()) as u32)));
    }
    write_list_trigger_subscription(sink, &state.trigger_subscriptions);
    proof {
        assert(sink.log() =~= start + (enc_u32(state.next_trigger) + enc_u32((state.trigger_subscriptions@.len()) as u32) + enc_list_trigger_subscription(state.trigger_subscriptions@)));
    }
    write_u32(sink, state.pending_triggers.len() as u32);
    proof {
        assert(sink.log() =~= start + (enc_u32(state.next_trigger) + enc_u32((state.trigger_subscriptions@.len()) as u32) + enc_list_trigger_subscription(state.trigger_subscriptions@) + enc_u32((state.pending_triggers@.len()) as u32)));
    }
    write_list_pending_trigger(sink, &state.pending_triggers);
    proof {
        assert(sink.log() =~= start + (enc_u32(state.next_trigger) + enc_u32((state.trigger_subscriptions@.len()) as u32) + enc_list_trigger_subscription(state.trigger_subscriptions@) + enc_u32((state.pending_triggers@.len()) as u32) + enc_list_pending_trigger(state.pending_triggers@)));
    }
    write_u32(sink, state.next_activated_ability);
    proof {
        assert(sink.log() =~= start + (enc_u32(state.next_trigger) + enc_u32((state.trigger_subscriptions@.len()) as u32) + enc_list_trigger_subscription(state.trigger_subscriptions@) + enc_u32((state.pending_triggers@.len()) as u32) + enc_list_pending_trigger(state.pending_triggers@) + enc_u32(state.next_activated_ability)));
    }
    write_u32(sink, state.activated_abilities.len() as u32);
    proof {
        assert(sink.log() =~= start + (enc_u32(state.next_trigger) + enc_u32((state.trigger_subscriptions@.len()) as u32) + enc_list_trigger_subscription(state.trigger_subscriptions@) + enc_u32((state.pending_triggers@.len()) as u32) + enc_list_pending_trigger(state.pending_triggers@) + enc_u32(state.next_activated_ability) + enc_u32((state.activated_abilities@.len()) as u32)));
    }
    write_list_activated_ability_subscription(sink, &state.activated_abilities);
    proof {
        assert(sink.log() =~= start + (enc_u32(state.next_trigger) + enc_u32((state.trigger_subscriptions@.len()) as u32) + enc_list_trigger_subscription(state.trigger_subscriptions@) + enc_u32((state.pending_triggers@.len()) as u32) + enc_list_pending_trigger(state.pending_triggers@) + enc_u32(state.next_activated_ability) + enc_u32((state.activated_abilities@.len()) as u32) + enc_list_activated_ability_subscription(state.activated_abilities@)));
    }
    write_u32(sink, state.next_cost_modifier);
    proof {
        assert(sink.log() =~= start + (enc_u32(state.next_trigger) + enc_u32((state.trigger_subscriptions@.len()) as u32) + enc_list_trigger_subscription(state.trigger_subscriptions@) + enc_u32((state.pending_triggers@.len()) as u32) + enc_list_pending_trigger(state.pending_triggers@) + enc_u32(state.next_activated_ability) + enc_u32((state.activated_abilities@.len()) as u32) + enc_list_activated_ability_subscription(state.activated_abilities@) + enc_u32(state.next_cost_modifier)));
    }
    write_u32(sink, state.cost_modifiers.len() as u32);
    proof {
        assert(sink.log() =~= start + (enc_u32(state.next_trigger) + enc_u32((state.trigger_subscriptions@.len()) as u32) + enc_list_trigger_subscription(state.trigger_subscriptions@) + enc_u32((state.pending_triggers@.len()) as u32) + enc_list_pending_trigger(state.pending_triggers@) + enc_u32(state.next_activated_ability) + enc_u32((state.activated_abilities@.len()) as u32) + enc_list_activated_ability_subscription(state.activated_abilities@) + enc_u32(state.next_cost_modifier) + enc_u32((state.cost_modifiers@.len()) as u32)));
    }
    write_list_cost_modifier_subscription(sink, &state.cost_modifiers);
    proof {
        assert(sink.log() =~= start + (enc_u32(state.next_trigger) + enc_u32((state.trigger_subscriptions@.len()) as u32) + enc_list_trigger_subscription(state.trigger_subscriptions@) + enc_u32((state.pending_triggers@.len()) as u32) + enc_list_pending_trigger(state.pending_triggers@) + enc_u32(state.next_activated_ability) + enc_u32((state.activated_abilities@.len()) as u32) + enc_list_activated_ability_subscription(state.activated_abilities@) + enc_u32(state.next_cost_modifier) + enc_u32((state.cost_modifiers@.len()) as u32) + enc_list_cost_modifier_subscription(state.cost_modifiers@)));
    }
    write_u32(sink, state.loyalty_activations_this_turn.len() as u32);
    proof {
        assert(sink.log() =~= start + (enc_u32(state.next_trigger) + enc_u32((state.trigger_subscriptions@.len()) as u32) + enc_list_trigger_subscription(state.trigger_subscriptions@) + enc_u32((state.pending_triggers@.len()) as u32) + enc_list_pending_trigger(state.pending_triggers@) + enc_u32(state.next_activated_ability) + enc_u32((state.activated_abilities@.len()) as u32) + enc_list_activated_ability_subscription(state.activated_abilities@) + enc_u32(state.next_cost_modifier) + enc_u32((state.cost_modifiers@.len()) as u32) + enc_list_cost_modifier_subscription(state.cost_modifiers@) + enc_u32((state.loyalty_activations_this_turn@.len()) as u32)));
    }
    write_list_object_id(sink, &state.loyalty_activations_this_turn);
    proof {
        assert(sink.log() =~= start + enc_state_triggers(*state));
    }
}

/// Writes the canonical bytes of one `GameState`.
pub(crate) fn write_state_effects<S: CanonicalSink>(sink: &mut S, state: &GameState)
    ensures
        final(sink).log() == old(sink).log() + enc_state_effects(*state),
{
    let ghost start = sink.log();
    proof {
        reveal(enc_state_effects);
    }
    write_u32(sink, state.next_replacement);
    proof {
        assert(sink.log() =~= start + (enc_u32(state.next_replacement)));
    }
    write_u32(sink, state.replacement_effects.len() as u32);
    proof {
        assert(sink.log() =~= start + (enc_u32(state.next_replacement) + enc_u32((state.replacement_effects@.len()) as u32)));
    }
    write_list_replacement_subscription(sink, &state.replacement_effects);
    proof {
        assert(sink.log() =~= start + (enc_u32(state.next_replacement) + enc_u32((state.replacement_effects@.len()) as u32) + enc_list_replacement_subscription(state.replacement_effects@)));
    }
    write_u32(sink, state.replacement_choice_orders.len() as u32);
    proof {
        assert(sink.log() =~= start + (enc_u32(state.next_replacement) + enc_u32((state.replacement_effects@.len()) as u32) + enc_list_replacement_subscription(state.replacement_effects@) + enc_u32((state.replacement_choice_orders@.len()) as u32)));
    }
    write_list_replacement_choice_order(sink, &state.replacement_choice_orders);
    proof {
        assert(sink.log() =~= start + (enc_u32(state.next_replacement) + enc_u32((state.replacement_effects@.len()) as u32) + enc_list_replacement_subscription(state.replacement_effects@) + enc_u32((state.replacement_choice_orders@.len()) as u32) + enc_list_replacement_choice_order(state.replacement_choice_orders@)));
    }
    write_u32(sink, state.next_continuous_effect);
    proof {
        assert(sink.log() =~= start + (enc_u32(state.next_replacement) + enc_u32((state.replacement_effects@.len()) as u32) + enc_list_replacement_subscription(state.replacement_effects@) + enc_u32((state.replacement_choice_orders@.len()) as u32) + enc_list_replacement_choice_order(state.replacement_choice_orders@) + enc_u32(state.next_continuous_effect)));
    }
    write_u32(sink, state.continuous_effects.len() as u32);
    proof {
        assert(sink.log() =~= start + (enc_u32(state.next_replacement) + enc_u32((state.replacement_effects@.len()) as u32) + enc_list_replacement_subscription(state.replacement_effects@) + enc_u32((state.replacement_choice_orders@.len()) as u32) + enc_list_replacement_choice_order(state.replacement_choice_orders@) + enc_u32(state.next_continuous_effect) + enc_u32((state.continuous_effects@.len()) as u32)));
    }
    write_list_continuous_effect_subscription(sink, &state.continuous_effects);
    proof {
        assert(sink.log() =~= start + enc_state_effects(*state));
    }
}

/// Writes the canonical bytes of one `GameState`.
pub(crate) fn write_state_tail<S: CanonicalSink>(sink: &mut S, state: &GameState)
    ensures
        final(sink).log() == old(sink).log() + enc_state_tail(*state),
{
    let ghost start = sink.log();
    proof {
        reveal(enc_state_tail);
    }
    write_optional_player(sink, state.deferred_priority_player);
    proof {
        assert(sink.log() =~= start + (enc_optional_player(state.deferred_priority_player)));
    }
    write_u64(sink, state.next_event_sequence);
    proof {
        assert(sink.log() =~= start + (enc_optional_player(state.deferred_priority_player) + enc_u64(state.next_event_sequence)));
    }
    write_u32(sink, state.turn_events.len() as u32);
    proof {
        assert(sink.log() =~= start + (enc_optional_player(state.deferred_priority_player) + enc_u64(state.next_event_sequence) + enc_u32((state.turn_events@.len()) as u32)));
    }
    write_list_event_record(sink, &state.turn_events);
    proof {
        assert(sink.log() =~= start + (enc_optional_player(state.deferred_priority_player) + enc_u64(state.next_event_sequence) + enc_u32((state.turn_events@.len()) as u32) + enc_list_event_record(state.turn_events@)));
    }
    write_combat_state(sink, &state.combat);
    proof {
        assert(sink.log() =~= start + (enc_optional_player(state.deferred_priority_player) + enc_u64(state.next_event_sequence) + enc_u32((state.turn_events@.len()) as u32) + enc_list_event_record(state.turn_events@) + enc_combat_state(state.combat)));
    }
    write_u32(sink, state.empty_library_draws_since_sba.len() as u32);
    proof {
        assert(sink.log() =~= start + (enc_optional_player(state.deferred_priority_player) + enc_u64(state.next_event_sequence) + enc_u32((state.turn_events@.len()) as u32) + enc_list_event_record(state.turn_events@) + enc_combat_state(state.combat) + enc_u32((state.empty_library_draws_since_sba@.len()) as u32)));
    }
    write_list_player_id(sink, &state.empty_library_draws_since_sba);
    proof {
        assert(sink.log() =~= start + enc_state_tail(*state));
    }
}

/// Writes the canonical bytes of one `GameState`.
pub(crate) fn write_game_state<S: CanonicalSink>(sink: &mut S, state: &GameState)
    ensures
        final(sink).log() == old(sink).log() + enc_game_state(*state),
{
    let ghost start = sink.log();
    proof {
        reveal(enc_game_state);
    }
    write_state_header(sink, state);
    proof {
        assert(sink.log() =~= start + (enc_state_header(*state)));
    }
    write_state_board(sink, state);
    proof {
        assert(sink.log() =~= start + (enc_state_header(*state) + enc_state_board(*state)));
    }
    write_state_stack(sink, state);
    proof {
        assert(sink.log() =~= start + (enc_state_header(*state) + enc_state_board(*state) + enc_state_stack(*state)));
    }
    write_state_triggers(sink, state);
    proof {
        assert(sink.log() =~= start + (enc_state_header(*state) + enc_state_board(*state) + enc_state_stack(*state) + enc_state_triggers(*state)));
    }
    write_state_effects(sink, state);
    proof {
        assert(sink.log() =~= start + (enc_state_header(*state) + enc_state_board(*state) + enc_state_stack(*state) + enc_state_triggers(*state) + enc_state_effects(*state)));
    }
    write_state_tail(sink, state);
    proof {
        assert(sink.log() =~= start + enc_game_state(*state));
    }
}

/// Writes the canonical bytes of each entry in order.
pub(crate) fn write_list_activated_ability_subscription<S: CanonicalSink>(sink: &mut S, items: &Vec<ActivatedAbilitySubscription>)
    ensures
        final(sink).log() == old(sink).log() + enc_list_activated_ability_subscription(items@),
{
    let ghost start = sink.log();
    proof {
        reveal(enc_list_activated_ability_subscription);
    }
    let mut i: usize = 0;
    while i < items.len()
        invariant
            i <= items@.len(),
            sink.log() == start + enc_list_activated_ability_subscription(items@.subrange(0, i as int)),
        decreases items@.len() - i,
    {
        proof {
            reveal(enc_list_activated_ability_subscription);
            assert(items@.subrange(0, i + 1).drop_last() =~= items@.subrange(0, i as int));
            assert(items@.subrange(0, i + 1).last() == items@[i as int]);
        }
        write_activated_ability_subscription(sink, items[i]);
        proof {
            reveal(enc_list_activated_ability_subscription);
            assert(sink.log() =~= start + enc_list_activated_ability_subscription(items@.subrange(0, i + 1)));
        }
        i = i + 1;
    }
    proof {
        assert(items@.subrange(0, items@.len() as int) =~= items@);
    }
}

/// Writes the canonical bytes of each entry in order.
pub(crate) fn write_list_attacking_creature<S: CanonicalSink>(sink: &mut S, items: &Vec<AttackingCreature>)
    ensures
        final(sink).log() == old(sink).log() + enc_list_attacking_creature(items@),
{
    let ghost start = sink.log();
    proof {
        reveal(enc_list_attacking_creature);
    }
    let mut i: usize = 0;
    while i < items.len()
        invariant
            i <= items@.len(),
            sink.log() == start + enc_list_attacking_creature(items@.subrange(0, i as int)),
        decreases items@.len() - i,
    {
        proof {
            reveal(enc_list_attacking_creature);
            assert(items@.subrange(0, i + 1).drop_last() =~= items@.subrange(0, i as int));
            assert(items@.subrange(0, i + 1).last() == items@[i as int]);
        }
        write_attacking_creature(sink, &items[i]);
        proof {
            reveal(enc_list_attacking_creature);
            assert(sink.log() =~= start + enc_list_attacking_creature(items@.subrange(0, i + 1)));
        }
        i = i + 1;
    }
    proof {
        assert(items@.subrange(0, items@.len() as int) =~= items@);
    }
}

/// Writes the canonical bytes of each entry in order.
pub(crate) fn write_list_blocking_creature<S: CanonicalSink>(sink: &mut S, items: &Vec<BlockingCreature>)
    ensures
        final(sink).log() == old(sink).log() + enc_list_blocking_creature(items@),
{
    let ghost start = sink.log();
    proof {
        reveal(enc_list_blocking_creature);
    }
    let mut i: usize = 0;
    while i < items.len()
        invariant
            i <= items@.len(),
            sink.log() == start + enc_list_blocking_creature(items@.subrange(0, i as int)),
        decreases items@.len() - i,
    {
        proof {
            reveal(enc_list_blocking_creature);
            assert(items@.subrange(0, i + 1).drop_last() =~= items@.subrange(0, i as int));
            assert(items@.subrange(0, i + 1).last() == items@[i as int]);
        }
        write_blocking_creature(sink, items[i]);
        proof {
            reveal(enc_list_blocking_creature);
            assert(sink.log() =~= start + enc_list_blocking_creature(items@.subrange(0, i + 1)));
        }
        i = i + 1;
    }
    proof {
        assert(items@.subrange(0, items@.len() as int) =~= items@);
    }
}

/// Writes the canonical bytes of each entry in order.
pub(crate) fn write_list_bool_value<S: CanonicalSink>(sink: &mut S, items: &Vec<bool>)
    ensures
        final(sink).log() == old(sink).log() + enc_list_bool_value(items@),
{
    let ghost start = sink.log();
    proof {
        reveal(enc_list_bool_value);
    }
    let mut i: usize = 0;
    while i < items.len()
        invariant
            i <= items@.len(),
            sink.log() == start + enc_list_bool_value(items@.subrange(0, i as int)),
        decreases items@.len() - i,
    {
        proof {
            reveal(enc_list_bool_value);
            assert(items@.subrange(0, i + 1).drop_last() =~= items@.subrange(0, i as int));
            assert(items@.subrange(0, i + 1).last() == items@[i as int]);
        }
        write_bool_value(sink, items[i]);
        proof {
            reveal(enc_list_bool_value);
            assert(sink.log() =~= start + enc_list_bool_value(items@.subrange(0, i + 1)));
        }
        i = i + 1;
    }
    proof {
        assert(items@.subrange(0, items@.len() as int) =~= items@);
    }
}

/// Writes the canonical bytes of each entry in order.
pub(crate) fn write_list_combat_damage_record<S: CanonicalSink>(sink: &mut S, items: &Vec<CombatDamageRecord>)
    ensures
        final(sink).log() == old(sink).log() + enc_list_combat_damage_record(items@),
{
    let ghost start = sink.log();
    proof {
        reveal(enc_list_combat_damage_record);
    }
    let mut i: usize = 0;
    while i < items.len()
        invariant
            i <= items@.len(),
            sink.log() == start + enc_list_combat_damage_record(items@.subrange(0, i as int)),
        decreases items@.len() - i,
    {
        proof {
            reveal(enc_list_combat_damage_record);
            assert(items@.subrange(0, i + 1).drop_last() =~= items@.subrange(0, i as int));
            assert(items@.subrange(0, i + 1).last() == items@[i as int]);
        }
        write_combat_damage_record(sink, items[i]);
        proof {
            reveal(enc_list_combat_damage_record);
            assert(sink.log() =~= start + enc_list_combat_damage_record(items@.subrange(0, i + 1)));
        }
        i = i + 1;
    }
    proof {
        assert(items@.subrange(0, items@.len() as int) =~= items@);
    }
}

/// Writes the canonical bytes of each entry in order.
pub(crate) fn write_list_continuous_effect_id<S: CanonicalSink>(sink: &mut S, items: &Vec<ContinuousEffectId>)
    ensures
        final(sink).log() == old(sink).log() + enc_list_continuous_effect_id(items@),
{
    let ghost start = sink.log();
    proof {
        reveal(enc_list_continuous_effect_id);
    }
    let mut i: usize = 0;
    while i < items.len()
        invariant
            i <= items@.len(),
            sink.log() == start + enc_list_continuous_effect_id(items@.subrange(0, i as int)),
        decreases items@.len() - i,
    {
        proof {
            reveal(enc_list_continuous_effect_id);
            assert(items@.subrange(0, i + 1).drop_last() =~= items@.subrange(0, i as int));
            assert(items@.subrange(0, i + 1).last() == items@[i as int]);
        }
        write_continuous_effect_id(sink, items[i]);
        proof {
            reveal(enc_list_continuous_effect_id);
            assert(sink.log() =~= start + enc_list_continuous_effect_id(items@.subrange(0, i + 1)));
        }
        i = i + 1;
    }
    proof {
        assert(items@.subrange(0, items@.len() as int) =~= items@);
    }
}

/// Writes the canonical bytes of each entry in order.
pub(crate) fn write_list_continuous_effect_subscription<S: CanonicalSink>(sink: &mut S, items: &Vec<ContinuousEffectSubscription>)
    ensures
        final(sink).log() == old(sink).log() + enc_list_continuous_effect_subscription(items@),
{
    let ghost start = sink.log();
    proof {
        reveal(enc_list_continuous_effect_subscription);
    }
    let mut i: usize = 0;
    while i < items.len()
        invariant
            i <= items@.len(),
            sink.log() == start + enc_list_continuous_effect_subscription(items@.subrange(0, i as int)),
        decreases items@.len() - i,
    {
        proof {
            reveal(enc_list_continuous_effect_subscription);
            assert(items@.subrange(0, i + 1).drop_last() =~= items@.subrange(0, i as int));
            assert(items@.subrange(0, i + 1).last() == items@[i as int]);
        }
        write_continuous_effect_subscription(sink, &items[i]);
        proof {
            reveal(enc_list_continuous_effect_subscription);
            assert(sink.log() =~= start + enc_list_continuous_effect_subscription(items@.subrange(0, i + 1)));
        }
        i = i + 1;
    }
    proof {
        assert(items@.subrange(0, items@.len() as int) =~= items@);
    }
}

/// Writes the canonical bytes of each entry in order.
pub(crate) fn write_list_cost_modifier_subscription<S: CanonicalSink>(sink: &mut S, items: &Vec<CostModifierSubscription>)
    ensures
        final(sink).log() == old(sink).log() + enc_list_cost_modifier_subscription(items@),
{
    let ghost start = sink.log();
    proof {
        reveal(enc_list_cost_modifier_subscription);
    }
    let mut i: usize = 0;
    while i < items.len()
        invariant
            i <= items@.len(),
            sink.log() == start + enc_list_cost_modifier_subscription(items@.subrange(0, i as int)),
        decreases items@.len() - i,
    {
        proof {
            reveal(enc_list_cost_modifier_subscription);
            assert(items@.subrange(0, i + 1).drop_last() =~= items@.subrange(0, i as int));
            assert(items@.subrange(0, i + 1).last() == items@[i as int]);
        }
        write_cost_modifier_subscription(sink, items[i]);
        proof {
            reveal(enc_list_cost_modifier_subscription);
            assert(sink.log() =~= start + enc_list_cost_modifier_subscription(items@.subrange(0, i + 1)));
        }
        i = i + 1;
    }
    proof {
        assert(items@.subrange(0, items@.len() as int) =~= items@);
    }
}

/// Writes the canonical bytes of each entry in order.
pub(crate) fn write_list_duration_marker<S: CanonicalSink>(sink: &mut S, items: &Vec<DurationMarker>)
    ensures
        final(sink).log() == old(sink).log() + enc_list_duration_marker(items@),
{
    let ghost start = sink.log();
    proof {
        reveal(enc_list_duration_marker);
    }
    let mut i: usize = 0;
    while i < items.len()
        invariant
            i <= items@.len(),
            sink.log() == start + enc_list_duration_marker(items@.subrange(0, i as int)),
        decreases items@.len() - i,
    {
        proof {
            reveal(enc_list_duration_marker);
            assert(items@.subrange(0, i + 1).drop_last() =~= items@.subrange(0, i as int));
            assert(items@.subrange(0, i + 1).last() == items@[i as int]);
        }
        write_duration_marker(sink, items[i]);
        proof {
            reveal(enc_list_duration_marker);
            assert(sink.log() =~= start + enc_list_duration_marker(items@.subrange(0, i + 1)));
        }
        i = i + 1;
    }
    proof {
        assert(items@.subrange(0, items@.len() as int) =~= items@);
    }
}

/// Writes the canonical bytes of each entry in order.
pub(crate) fn write_list_event_record<S: CanonicalSink>(sink: &mut S, items: &Vec<EventRecord>)
    ensures
        final(sink).log() == old(sink).log() + enc_list_event_record(items@),
{
    let ghost start = sink.log();
    proof {
        reveal(enc_list_event_record);
    }
    let mut i: usize = 0;
    while i < items.len()
        invariant
            i <= items@.len(),
            sink.log() == start + enc_list_event_record(items@.subrange(0, i as int)),
        decreases items@.len() - i,
    {
        proof {
            reveal(enc_list_event_record);
            assert(items@.subrange(0, i + 1).drop_last() =~= items@.subrange(0, i as int));
            assert(items@.subrange(0, i + 1).last() == items@[i as int]);
        }
        write_event_record(sink, items[i]);
        proof {
            reveal(enc_list_event_record);
            assert(sink.log() =~= start + enc_list_event_record(items@.subrange(0, i + 1)));
        }
        i = i + 1;
    }
    proof {
        assert(items@.subrange(0, items@.len() as int) =~= items@);
    }
}

/// Writes the canonical bytes of each entry in order.
pub(crate) fn write_list_object_id<S: CanonicalSink>(sink: &mut S, items: &Vec<ObjectId>)
    ensures
        final(sink).log() == old(sink).log() + enc_list_object_id(items@),
{
    let ghost start = sink.log();
    proof {
        reveal(enc_list_object_id);
    }
    let mut i: usize = 0;
    while i < items.len()
        invariant
            i <= items@.len(),
            sink.log() == start + enc_list_object_id(items@.subrange(0, i as int)),
        decreases items@.len() - i,
    {
        proof {
            reveal(enc_list_object_id);
            assert(items@.subrange(0, i + 1).drop_last() =~= items@.subrange(0, i as int));
            assert(items@.subrange(0, i + 1).last() == items@[i as int]);
        }
        write_object_id(sink, items[i]);
        proof {
            reveal(enc_list_object_id);
            assert(sink.log() =~= start + enc_list_object_id(items@.subrange(0, i + 1)));
        }
        i = i + 1;
    }
    proof {
        assert(items@.subrange(0, items@.len() as int) =~= items@);
    }
}

/// Writes the canonical bytes of each entry in order.
pub(crate) fn write_list_object_record<S: CanonicalSink>(sink: &mut S, items: &Vec<ObjectRecord>)
    ensures
        final(sink).log() == old(sink).log() + enc_list_object_record(items@),
{
    let ghost start = sink.log();
    proof {
        reveal(enc_list_object_record);
    }
    let mut i: usize = 0;
    while i < items.len()
        invariant
            i <= items@.len(),
            sink.log() == start + enc_list_object_record(items@.subrange(0, i as int)),
        decreases items@.len() - i,
    {
        proof {
            reveal(enc_list_object_record);
            assert(items@.subrange(0, i + 1).drop_last() =~= items@.subrange(0, i as int));
            assert(items@.subrange(0, i + 1).last() == items@[i as int]);
        }
        write_object_record(sink, items[i]);
        proof {
            reveal(enc_list_object_record);
            assert(sink.log() =~= start + enc_list_object_record(items@.subrange(0, i + 1)));
        }
        i = i + 1;
    }
    proof {
        assert(items@.subrange(0, items@.len() as int) =~= items@);
    }
}

/// Writes the canonical bytes of each entry in order.
pub(crate) fn write_list_pending_trigger<S: CanonicalSink>(sink: &mut S, items: &Vec<PendingTriggeredAbility>)
    ensures
        final(sink).log() == old(sink).log() + enc_list_pending_trigger(items@),
{
    let ghost start = sink.log();
    proof {
        reveal(enc_list_pending_trigger);
    }
    let mut i: usize = 0;
    while i < items.len()
        invariant
            i <= items@.len(),
            sink.log() == start + enc_list_pending_trigger(items@.subrange(0, i as int)),
        decreases items@.len() - i,
    {
        proof {
            reveal(enc_list_pending_trigger);
            assert(items@.subrange(0, i + 1).drop_last() =~= items@.subrange(0, i as int));
            assert(items@.subrange(0, i + 1).last() == items@[i as int]);
        }
        write_pending_trigger(sink, items[i]);
        proof {
            reveal(enc_list_pending_trigger);
            assert(sink.log() =~= start + enc_list_pending_trigger(items@.subrange(0, i + 1)));
        }
        i = i + 1;
    }
    proof {
        assert(items@.subrange(0, items@.len() as int) =~= items@);
    }
}

/// Writes the canonical bytes of each entry in order.
pub(crate) fn write_list_player_id<S: CanonicalSink>(sink: &mut S, items: &Vec<PlayerId>)
    ensures
        final(sink).log() == old(sink).log() + enc_list_player_id(items@),
{
    let ghost start = sink.log();
    proof {
        reveal(enc_list_player_id);
    }
    let mut i: usize = 0;
    while i < items.len()
        invariant
            i <= items@.len(),
            sink.log() == start + enc_list_player_id(items@.subrange(0, i as int)),
        decreases items@.len() - i,
    {
        proof {
            reveal(enc_list_player_id);
            assert(items@.subrange(0, i + 1).drop_last() =~= items@.subrange(0, i as int));
            assert(items@.subrange(0, i + 1).last() == items@[i as int]);
        }
        write_player_id(sink, items[i]);
        proof {
            reveal(enc_list_player_id);
            assert(sink.log() =~= start + enc_list_player_id(items@.subrange(0, i + 1)));
        }
        i = i + 1;
    }
    proof {
        assert(items@.subrange(0, items@.len() as int) =~= items@);
    }
}

/// Writes the canonical bytes of each entry in order.
pub(crate) fn write_list_player_state<S: CanonicalSink>(sink: &mut S, items: &Vec<PlayerState>)
    ensures
        final(sink).log() == old(sink).log() + enc_list_player_state(items@),
{
    let ghost start = sink.log();
    proof {
        reveal(enc_list_player_state);
    }
    let mut i: usize = 0;
    while i < items.len()
        invariant
            i <= items@.len(),
            sink.log() == start + enc_list_player_state(items@.subrange(0, i as int)),
        decreases items@.len() - i,
    {
        proof {
            reveal(enc_list_player_state);
            assert(items@.subrange(0, i + 1).drop_last() =~= items@.subrange(0, i as int));
            assert(items@.subrange(0, i + 1).last() == items@[i as int]);
        }
        write_player_state(sink, items[i]);
        proof {
            reveal(enc_list_player_state);
            assert(sink.log() =~= start + enc_list_player_state(items@.subrange(0, i + 1)));
        }
        i = i + 1;
    }
    proof {
        assert(items@.subrange(0, items@.len() as int) =~= items@);
    }
}

/// Writes the canonical bytes of each entry in order.
pub(crate) fn write_list_replacement_choice_order<S: CanonicalSink>(sink: &mut S, items: &Vec<ReplacementChoiceOrder>)
    ensures
        final(sink).log() == old(sink).log() + enc_list_replacement_choice_order(items@),
{
    let ghost start = sink.log();
    proof {
        reveal(enc_list_replacement_choice_order);
    }
    let mut i: usize = 0;
    while i < items.len()
        invariant
            i <= items@.len(),
            sink.log() == start + enc_list_replacement_choice_order(items@.subrange(0, i as int)),
        decreases items@.len() - i,
    {
        proof {
            reveal(enc_list_replacement_choice_order);
            assert(items@.subrange(0, i + 1).drop_last() =~= items@.subrange(0, i as int));
            assert(items@.subrange(0, i + 1).last() == items@[i as int]);
        }
        write_replacement_choice_order(sink, &items[i]);
        proof {
            reveal(enc_list_replacement_choice_order);
            assert(sink.log() =~= start + enc_list_replacement_choice_order(items@.subrange(0, i + 1)));
        }
        i = i + 1;
    }
    proof {
        assert(items@.subrange(0, items@.len() as int) =~= items@);
    }
}

/// Writes the canonical bytes of each entry in order.
pub(crate) fn write_list_replacement_effect_id<S: CanonicalSink>(sink: &mut S, items: &Vec<ReplacementEffectId>)
    ensures
        final(sink).log() == old(sink).log() + enc_list_replacement_effect_id(items@),
{
    let ghost start = sink.log();
    proof {
        reveal(enc_list_replacement_effect_id);
    }
    let mut i: usize = 0;
    while i < items.len()
        invariant
            i <= items@.len(),
            sink.log() == start + enc_list_replacement_effect_id(items@.subrange(0, i as int)),
        decreases items@.len() - i,
    {
        proof {
            reveal(enc_list_replacement_effect_id);
            assert(items@.subrange(0, i + 1).drop_last() =~= items@.subrange(0, i as int));
            assert(items@.subrange(0, i + 1).last() == items@[i as int]);
        }
        write_replacement_effect_id(sink, items[i]);
        proof {
            reveal(enc_list_replacement_effect_id);
            assert(sink.log() =~= start + enc_list_replacement_effect_id(items@.subrange(0, i + 1)));
        }
        i = i + 1;
    }
    proof {
        assert(items@.subrange(0, items@.len() as int) =~= items@);
    }
}

/// Writes the canonical bytes of each entry in order.
pub(crate) fn write_list_replacement_subscription<S: CanonicalSink>(sink: &mut S, items: &Vec<ReplacementSubscription>)
    ensures
        final(sink).log() == old(sink).log() + enc_list_replacement_subscription(items@),
{
    let ghost start = sink.log();
    proof {
        reveal(enc_list_replacement_subscription);
    }
    let mut i: usize = 0;
    while i < items.len()
        invariant
            i <= items@.len(),
            sink.log() == start + enc_list_replacement_subscription(items@.subrange(0, i as int)),
        decreases items@.len() - i,
    {
        proof {
            reveal(enc_list_replacement_subscription);
            assert(items@.subrange(0, i + 1).drop_last() =~= items@.subrange(0, i as int));
            assert(items@.subrange(0, i + 1).last() == items@[i as int]);
        }
        write_replacement_subscription(sink, items[i]);
        proof {
            reveal(enc_list_replacement_subscription);
            assert(sink.log() =~= start + enc_list_replacement_subscription(items@.subrange(0, i + 1)));
        }
        i = i + 1;
    }
    proof {
        assert(items@.subrange(0, items@.len() as int) =~= items@);
    }
}

/// Writes the canonical bytes of each entry in order.
pub(crate) fn write_list_resolution_record<S: CanonicalSink>(sink: &mut S, items: &Vec<ResolutionRecord>)
    ensures
        final(sink).log() == old(sink).log() + enc_list_resolution_record(items@),
{
    let ghost start = sink.log();
    proof {
        reveal(enc_list_resolution_record);
    }
    let mut i: usize = 0;
    while i < items.len()
        invariant
            i <= items@.len(),
            sink.log() == start + enc_list_resolution_record(items@.subrange(0, i as int)),
        decreases items@.len() - i,
    {
        proof {
            reveal(enc_list_resolution_record);
            assert(items@.subrange(0, i + 1).drop_last() =~= items@.subrange(0, i as int));
            assert(items@.subrange(0, i + 1).last() == items@[i as int]);
        }
        write_resolution_record(sink, &items[i]);
        proof {
            reveal(enc_list_resolution_record);
            assert(sink.log() =~= start + enc_list_resolution_record(items@.subrange(0, i + 1)));
        }
        i = i + 1;
    }
    proof {
        assert(items@.subrange(0, items@.len() as int) =~= items@);
    }
}

/// Writes the canonical bytes of each entry in order.
pub(crate) fn write_list_stack_entry<S: CanonicalSink>(sink: &mut S, items: &Vec<StackEntry>)
    ensures
        final(sink).log() == old(sink).log() + enc_list_stack_entry(items@),
{
    let ghost start = sink.log();
    proof {
        reveal(enc_list_stack_entry);
    }
    let mut i: usize = 0;
    while i < items.len()
        invariant
            i <= items@.len(),
            sink.log() == start + enc_list_stack_entry(items@.subrange(0, i as int)),
        decreases items@.len() - i,
    {
        proof {
            reveal(enc_list_stack_entry);
            assert(items@.subrange(0, i + 1).drop_last() =~= items@.subrange(0, i as int));
            assert(items@.subrange(0, i + 1).last() == items@[i as int]);
        }
        write_stack_entry(sink, &items[i]);
        proof {
            reveal(enc_list_stack_entry);
            assert(sink.log() =~= start + enc_list_stack_entry(items@.subrange(0, i + 1)));
        }
        i = i + 1;
    }
    proof {
        assert(items@.subrange(0, items@.len() as int) =~= items@);
    }
}

/// Writes the canonical bytes of each entry in order.
pub(crate) fn write_list_target_snapshot<S: CanonicalSink>(sink: &mut S, items: &Vec<TargetSnapshot>)
    ensures
        final(sink).log() == old(sink).log() + enc_list_target_snapshot(items@),
{
    let ghost start = sink.log();
    proof {
        reveal(enc_list_target_snapshot);
    }
    let mut i: usize = 0;
    while i < items.len()
        invariant
            i <= items@.len(),
            sink.log() == start + enc_list_target_snapshot(items@.subrange(0, i as int)),
        decreases items@.len() - i,
    {
        proof {
            reveal(enc_list_target_snapshot);
            assert(items@.subrange(0, i + 1).drop_last() =~= items@.subrange(0, i as int));
            assert(items@.subrange(0, i + 1).last() == items@[i as int]);
        }
        write_target_snapshot(sink, items[i]);
        proof {
            reveal(enc_list_target_snapshot);
            assert(sink.log() =~= start + enc_list_target_snapshot(items@.subrange(0, i + 1)));
        }
        i = i + 1;
    }
    proof {
        assert(items@.subrange(0, items@.len() as int) =~= items@);
    }
}

/// Writes the canonical bytes of each entry in order.
pub(crate) fn write_list_trigger_subscription<S: CanonicalSink>(sink: &mut S, items: &Vec<TriggerSubscription>)
    ensures
        final(sink).log() == old(sink).log() + enc_list_trigger_subscription(items@),
{
    let ghost start = sink.log();
    proof {
        reveal(enc_list_trigger_subscription);
    }
    let mut i: usize = 0;
    while i < items.len()
        invariant
            i <= items@.len(),
            sink.log() == start + enc_list_trigger_subscription(items@.subrange(0, i as int)),
        decreases items@.len() - i,
    {
        proof {
            reveal(enc_list_trigger_subscription);
            assert(items@.subrange(0, i + 1).drop_last() =~= items@.subrange(0, i as int));
            assert(items@.subrange(0, i + 1).last() == items@[i as int]);
        }
        write_trigger_subscription(sink, items[i]);
        proof {
            reveal(enc_list_trigger_subscription);
            assert(sink.log() =~= start + enc_list_trigger_subscription(items@.subrange(0, i + 1)));
        }
        i = i + 1;
    }
    proof {
        assert(items@.subrange(0, items@.len() as int) =~= items@);
    }
}

/// Writes the canonical bytes of each entry in order.
pub(crate) fn write_list_zone<S: CanonicalSink>(sink: &mut S, items: &Vec<Zone>)
    ensures
        final(sink).log() == old(sink).log() + enc_list_zone(items@),
{
    let ghost start = sink.log();
    proof {
        reveal(enc_list_zone);
    }
    let mut i: usize = 0;
    while i < items.len()
        invariant
            i <= items@.len(),
            sink.log() == start + enc_list_zone(items@.subrange(0, i as int)),
        decreases items@.len() - i,
    {
        proof {
            reveal(enc_list_zone);
            assert(items@.subrange(0, i + 1).drop_last() =~= items@.subrange(0, i as int));
            assert(items@.subrange(0, i + 1).last() == items@[i as int]);
        }
        write_zone(sink, &items[i]);
        proof {
            reveal(enc_list_zone);
            assert(sink.log() =~= start + enc_list_zone(items@.subrange(0, i + 1)));
        }
        i = i + 1;
    }
    proof {
        assert(items@.subrange(0, items@.len() as int) =~= items@);
    }
}

} // verus!
