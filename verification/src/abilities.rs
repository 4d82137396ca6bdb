//! Targets, triggered abilities, replacement effects, activated abilities,
//! cost modifiers, and stack entries.

use vstd::prelude::*;

use crate::events::GameEventKind;
use crate::ids::{
    ActivatedAbilityId, ObjectId, PlayerId, ReplacementEffectId, StackEntryId, TriggerId,
};
use crate::mana::{ManaCost, ManaPool, PaymentPlan};
use crate::turn::{Step, ZoneId, ZoneKind};

verus! {

/// The coarse kind of object represented by a stack entry.
#[derive(Clone, Copy, Debug, PartialEq, Eq, Structural, Hash, PartialOrd, Ord)]
pub enum StackObjectKind {
    /// Instant spell; resolution moves it to its owner's graveyard.
    InstantSpell,
    /// Sorcery spell; resolution moves it to its owner's graveyard.
    SorcerySpell,
    /// Permanent spell; resolution moves it to the battlefield.
    PermanentSpell,
    /// Activated ability with no physical card object on the stack.
    ActivatedAbility,
    /// Triggered ability with no physical card object on the stack.
    TriggeredAbility,
}

impl StackObjectKind {
    /// Stable numeric code used by canonical encodings.
    pub open spec fn spec_canonical_code(self) -> u8 {
        match self {
            StackObjectKind::InstantSpell => 0,
            StackObjectKind::SorcerySpell => 1,
            StackObjectKind::PermanentSpell => 2,
            StackObjectKind::ActivatedAbility => 3,
            StackObjectKind::TriggeredAbility => 4,
        }
    }

    /// Returns the stable numeric code used by canonical encodings.
    pub(crate) fn canonical_code(self) -> (r: u8)
        ensures
            r == self.spec_canonical_code(),
    {
        match self {
            StackObjectKind::InstantSpell => 0,
            StackObjectKind::SorcerySpell => 1,
            StackObjectKind::PermanentSpell => 2,
            StackObjectKind::ActivatedAbility => 3,
            StackObjectKind::TriggeredAbility => 4,
        }
    }
}

/// Timing permission used by the casting pipeline.
#[derive(Clone, Copy, Debug, PartialEq, Eq, Structural, Hash, PartialOrd, Ord)]
pub enum SpellTiming {
    /// Castable whenever the player has priority.
    Instant,
    /// Castable only during the active player's main phase with an empty stack.
    Sorcery,
}

/// A target category understood by the casting pipeline.
#[derive(Clone, Copy, Debug, PartialEq, Eq, Structural, Hash)]
pub enum TargetKind {
    /// A player in the game.
    Player,
    /// An object currently on the battlefield.
    Permanent,
    /// An object currently in a specific zone.
    ObjectInZone(ZoneId),
}

impl TargetKind {
    /// Stable numeric code used by canonical encodings.
    pub open spec fn spec_canonical_code(self) -> u8 {
        match self {
            TargetKind::Player => 0,
            TargetKind::Permanent => 1,
            TargetKind::ObjectInZone(_) => 2,
        }
    }

    /// Returns the stable numeric code used by canonical encodings.
    pub(crate) fn canonical_code(self) -> (r: u8)
        ensures
            r == self.spec_canonical_code(),
    {
        match self {
            TargetKind::Player => 0,
            TargetKind::Permanent => 1,
            TargetKind::ObjectInZone(_) => 2,
        }
    }
}

/// One required target slot for a spell.
#[derive(Clone, Copy, Debug, PartialEq, Eq, Structural, Hash)]
pub struct TargetRequirement {
    pub kind: TargetKind,
}

impl TargetRequirement {
    /// Creates a target requirement.
    pub fn new(kind: TargetKind) -> (r: Self)
        ensures
            r.kind == kind,
    {
        TargetRequirement { kind }
    }

    /// Returns the required target category.
    pub fn kind(self) -> (r: TargetKind)
        ensures
            r == self.kind,
    {
        self.kind
    }
}

/// A selected spell target.
#[derive(Clone, Copy, Debug, PartialEq, Eq, Structural, Hash)]
pub enum TargetChoice {
    /// A targeted player.
    Player(PlayerId),
    /// A targeted game object.
    Object(ObjectId),
}

impl TargetChoice {
    /// Stable numeric code used by canonical encodings.
    pub open spec fn spec_canonical_code(self) -> u8 {
        match self {
            TargetChoice::Player(_) => 0,
            TargetChoice::Object(_) => 1,
        }
    }

    /// Returns the stable numeric code used by canonical encodings.
    pub(crate) fn canonical_code(self) -> (r: u8)
        ensures
            r == self.spec_canonical_code(),
    {
        match self {
            TargetChoice::Player(_) => 0,
            TargetChoice::Object(_) => 1,
        }
    }
}

/// Legality snapshot captured as a spell is cast.
#[derive(Clone, Copy, Debug, PartialEq, Eq, Structural, Hash)]
pub struct TargetSnapshot {
    pub requirement: TargetRequirement,
    pub choice: TargetChoice,
    pub original_zone: Option<ZoneId>,
}

impl TargetSnapshot {
    /// Returns the target requirement.
    pub fn requirement(self) -> (r: TargetRequirement)
        ensures
            r == self.requirement,
    {
        self.requirement
    }
    /// Returns the selected target.
    pub fn choice(self) -> (r: TargetChoice)
        ensures
            r == self.choice,
    {
        self.choice
    }
    /// Returns the object zone captured when the target was selected.
    pub fn original_zone(self) -> (r: Option<ZoneId>)
        ensures
            r == self.original_zone,
    {
        self.original_zone
    }
}

/// Object selector used by declarative trigger predicates.
#[derive(Clone, Copy, Debug, PartialEq, Eq, Structural, Hash)]
pub enum TriggerObjectFilter {
    /// Any object.
    Any,
    /// The registered trigger's source object.
    Source,
    /// One exact object.
    Object(ObjectId),
}

impl TriggerObjectFilter {
    /// Stable numeric code used by canonical encodings.
    pub open spec fn spec_canonical_code(self) -> u8 {
        match self {
            TriggerObjectFilter::Any => 0,
            TriggerObjectFilter::Source => 1,
            TriggerObjectFilter::Object(_) => 2,
        }
    }

    /// Returns the stable numeric code used by canonical encodings.
    pub(crate) fn canonical_code(self) -> (r: u8)
        ensures
            r == self.spec_canonical_code(),
    {
        match self {
            TriggerObjectFilter::Any => 0,
            TriggerObjectFilter::Source => 1,
            TriggerObjectFilter::Object(_) => 2,
        }
    }
}

/// Player selector used by declarative trigger predicates.
#[derive(Clone, Copy, Debug, PartialEq, Eq, Structural, Hash)]
pub enum TriggerPlayerFilter {
    /// Any player.
    Any,
    /// The registered trigger's controller.
    Controller,
    /// Any opponent of the registered trigger's controller.
    OpponentOfController,
    /// One exact player.
    Player(PlayerId),
}

impl TriggerPlayerFilter {
    /// Stable numeric code used by canonical encodings.
    pub open spec fn spec_canonical_code(self) -> u8 {
        match self {
            TriggerPlayerFilter::Any => 0,
            TriggerPlayerFilter::Controller => 1,
            TriggerPlayerFilter::OpponentOfController => 2,
            TriggerPlayerFilter::Player(_) => 3,
        }
    }

    /// Returns the stable numeric code used by canonical encodings.
    pub(crate) fn canonical_code(self) -> (r: u8)
        ensures
            r == self.spec_canonical_code(),
    {
        match self {
            TriggerPlayerFilter::Any => 0,
            TriggerPlayerFilter::Controller => 1,
            TriggerPlayerFilter::OpponentOfController => 2,
            TriggerPlayerFilter::Player(_) => 3,
        }
    }
}

/// Zone selector used by declarative trigger predicates.
#[derive(Clone, Copy, Debug, PartialEq, Eq, Structural, Hash)]
pub enum TriggerZoneFilter {
    /// Any zone.
    Any,
    /// One exact zone.
    Exact(ZoneId),
    /// Any zone with this kind.
    Kind(ZoneKind),
    /// A zone of this kind belonging to a selected player.
    Owned {
        /// Player selector for the zone owner.
        owner: TriggerPlayerFilter,
        /// Required zone kind.
        kind: ZoneKind,
    },
}

impl TriggerZoneFilter {
    /// Stable numeric code used by canonical encodings.
    pub open spec fn spec_canonical_code(self) -> u8 {
        match self {
            TriggerZoneFilter::Any => 0,
            TriggerZoneFilter::Exact(_) => 1,
            TriggerZoneFilter::Kind(_) => 2,
            TriggerZoneFilter::Owned { .. } => 3,
        }
    }

    /// Returns the stable numeric code used by canonical encodings.
    pub(crate) fn canonical_code(self) -> (r: u8)
        ensures
            r == self.spec_canonical_code(),
    {
        match self {
            TriggerZoneFilter::Any => 0,
            TriggerZoneFilter::Exact(_) => 1,
            TriggerZoneFilter::Kind(_) => 2,
            TriggerZoneFilter::Owned { .. } => 3,
        }
    }
}

/// Declarative event predicate for triggered abilities.
#[derive(Clone, Copy, Debug, PartialEq, Eq, Structural, Hash)]
pub enum TriggerCondition {
    /// Match any event with the given coarse kind.
    EventKind(GameEventKind),
    /// Match an object moving between selected zones.
    ObjectMoved {
        /// Object selector.
        object: TriggerObjectFilter,
        /// Source-zone selector.
        from: TriggerZoneFilter,
        /// Destination-zone selector.
        to: TriggerZoneFilter,
    },
    /// Match the beginning of one step.
    StepBegan {
        /// Step that must begin.
        step: Step,
    },
    /// Match life loss by a selected player.
    LifeLost {
        /// Player selector.
        player: TriggerPlayerFilter,
    },
    /// Match life gain by a selected player.
    LifeGained {
        /// Player selector.
        player: TriggerPlayerFilter,
    },
    /// Match damage marked on a selected object.
    DamageMarked {
        /// Object selector.
        object: TriggerObjectFilter,
    },
    /// Match stack resolution with optional kind/outcome filters.
    StackEntryResolved {
        /// Optional stack-object kind filter.
        kind: Option<StackObjectKind>,
        /// Optional resolution-outcome filter.
        outcome: Option<ResolutionOutcome>,
    },
}

impl TriggerCondition {
    /// The event kind a condition listens for.
    pub open spec fn spec_subscribed_event_kind(self) -> GameEventKind {
        match self {
            TriggerCondition::EventKind(kind) => kind,
            TriggerCondition::ObjectMoved { .. } => GameEventKind::ObjectMoved,
            TriggerCondition::StepBegan { .. } => GameEventKind::StepBegan,
            TriggerCondition::LifeLost { .. } => GameEventKind::LifeLost,
            TriggerCondition::LifeGained { .. } => GameEventKind::LifeGained,
            TriggerCondition::DamageMarked { .. } => GameEventKind::DamageMarked,
            TriggerCondition::StackEntryResolved { .. } => GameEventKind::StackEntryResolved,
        }
    }

    /// Returns the event kind this condition subscribes to.
    pub fn subscribed_event_kind(self) -> (r: GameEventKind)
        ensures
            r == self.spec_subscribed_event_kind(),
    {
        match self {
            TriggerCondition::EventKind(kind) => kind,
            TriggerCondition::ObjectMoved { .. } => GameEventKind::ObjectMoved,
            TriggerCondition::StepBegan { .. } => GameEventKind::StepBegan,
            TriggerCondition::LifeLost { .. } => GameEventKind::LifeLost,
            TriggerCondition::LifeGained { .. } => GameEventKind::LifeGained,
            TriggerCondition::DamageMarked { .. } => GameEventKind::DamageMarked,
            TriggerCondition::StackEntryResolved { .. } => GameEventKind::StackEntryResolved,
        }
    }

    /// Stable numeric code used by canonical encodings.
    pub open spec fn spec_canonical_code(self) -> u8 {
        match self {
            TriggerCondition::EventKind(_) => 0,
            TriggerCondition::ObjectMoved { .. } => 1,
            TriggerCondition::StepBegan { .. } => 2,
            TriggerCondition::LifeLost { .. } => 3,
            TriggerCondition::LifeGained { .. } => 4,
            TriggerCondition::DamageMarked { .. } => 5,
            TriggerCondition::StackEntryResolved { .. } => 6,
        }
    }

    /// Returns the stable numeric code used by canonical encodings.
    pub(crate) fn canonical_code(self) -> (r: u8)
        ensures
            r == self.spec_canonical_code(),
    {
        match self {
            TriggerCondition::EventKind(_) => 0,
            TriggerCondition::ObjectMoved { .. } => 1,
            TriggerCondition::StepBegan { .. } => 2,
            TriggerCondition::LifeLost { .. } => 3,
            TriggerCondition::LifeGained { .. } => 4,
            TriggerCondition::DamageMarked { .. } => 5,
            TriggerCondition::StackEntryResolved { .. } => 6,
        }
    }
}

/// Declarative intervening-if predicate checked when an event would trigger.
#[derive(Clone, Copy, Debug, PartialEq, Eq, Structural, Hash)]
pub enum TriggerInterveningIf {
    /// Always true.
    Always,
    /// The trigger source must currently be in the selected zone.
    SourceInZone(ZoneId),
    /// The trigger controller must still control the source.
    ControllerControlsSource,
    /// The trigger controller's life total must be at or below this value.
    ControllerLifeAtMost(i32),
}

impl TriggerInterveningIf {
    /// Stable numeric code used by canonical encodings.
    pub open spec fn spec_canonical_code(self) -> u8 {
        match self {
            TriggerInterveningIf::Always => 0,
            TriggerInterveningIf::SourceInZone(_) => 1,
            TriggerInterveningIf::ControllerControlsSource => 2,
            TriggerInterveningIf::ControllerLifeAtMost(_) => 3,
        }
    }

    /// Returns the stable numeric code used by canonical encodings.
    pub(crate) fn canonical_code(self) -> (r: u8)
        ensures
            r == self.spec_canonical_code(),
    {
        match self {
            TriggerInterveningIf::Always => 0,
            TriggerInterveningIf::SourceInZone(_) => 1,
            TriggerInterveningIf::ControllerControlsSource => 2,
            TriggerInterveningIf::ControllerLifeAtMost(_) => 3,
        }
    }
}

/// Lifetime of a registered trigger subscription.
#[derive(Clone, Copy, Debug, PartialEq, Eq, Structural, Hash)]
pub enum TriggerDuration {
    /// The subscription remains registered.
    Persistent,
    /// The subscription is removed after the first matching event queues it.
    DelayedOnce,
}

impl TriggerDuration {
    /// Stable numeric code used by canonical encodings.
    pub open spec fn spec_canonical_code(self) -> u8 {
        match self {
            TriggerDuration::Persistent => 0,
            TriggerDuration::DelayedOnce => 1,
        }
    }

    /// Returns the stable numeric code used by canonical encodings.
    pub(crate) fn canonical_code(self) -> (r: u8)
        ensures
            r == self.spec_canonical_code(),
    {
        match self {
            TriggerDuration::Persistent => 0,
            TriggerDuration::DelayedOnce => 1,
        }
    }
}

/// Data-only triggered ability definition.
#[derive(Clone, Copy, Debug, PartialEq, Eq, Structural, Hash)]
pub struct TriggerDefinition {
    pub controller: PlayerId,
    pub source: Option<ObjectId>,
    pub condition: TriggerCondition,
    pub intervening_if: TriggerInterveningIf,
    pub duration: TriggerDuration,
}

impl TriggerDefinition {
    /// Creates a persistent triggered ability definition with no source object.
    pub fn new(controller: PlayerId, condition: TriggerCondition) -> (r: Self)
        ensures
            r.controller == controller && r.source is None && r.condition == condition,
            r.intervening_if == TriggerInterveningIf::Always,
            r.duration == TriggerDuration::Persistent,
    {
        TriggerDefinition {
            controller,
            source: None,
            condition,
            intervening_if: TriggerInterveningIf::Always,
            duration: TriggerDuration::Persistent,
        }
    }

    /// Sets the source object for source-relative predicates.
    pub fn with_source(self, source: ObjectId) -> (r: Self)
        ensures
            r == (TriggerDefinition { source: Some(source), ..self }),
    {
        let mut r = self;
        r.source = Some(source);
        r
    }

    /// Sets the intervening-if predicate.
    pub fn with_intervening_if(self, intervening_if: TriggerInterveningIf) -> (r: Self)
        ensures
            r == (TriggerDefinition { intervening_if, ..self }),
    {
        let mut r = self;
        r.intervening_if = intervening_if;
        r
    }

    /// Marks this definition as a delayed trigger that queues only once.
    pub fn delayed_once(self) -> (r: Self)
        ensures
            r == (TriggerDefinition { duration: TriggerDuration::DelayedOnce, ..self }),
    {
        let mut r = self;
        r.duration = TriggerDuration::DelayedOnce;
        r
    }

    /// Returns the trigger controller.
    pub fn controller(self) -> (r: PlayerId)
        ensures
            r == self.controller,
    {
        self.controller
    }
    /// Returns the optional trigger source object.
    pub fn source(self) -> (r: Option<ObjectId>)
        ensures
            r == self.source,
    {
        self.source
    }
    /// Returns the event predicate.
    pub fn condition(self) -> (r: TriggerCondition)
        ensures
            r == self.condition,
    {
        self.condition
    }
    /// Returns the intervening-if predicate.
    pub fn intervening_if(self) -> (r: TriggerInterveningIf)
        ensures
            r == self.intervening_if,
    {
        self.intervening_if
    }
    /// Returns the trigger duration.
    pub fn duration(self) -> (r: TriggerDuration)
        ensures
            r == self.duration,
    {
        self.duration
    }
}

/// Damage source selector used by declarative replacement predicates.
#[derive(Clone, Copy, Debug, PartialEq, Eq, Structural, Hash)]
pub enum ReplacementSourceFilter {
    /// Any source, including source-less damage.
    Any,
    /// The registered replacement effect's source object.
    Source,
    /// One exact object.
    Object(ObjectId),
}

impl ReplacementSourceFilter {
    /// Stable numeric code used by canonical encodings.
    pub open spec fn spec_canonical_code(self) -> u8 {
        match self {
            ReplacementSourceFilter::Any => 0,
            ReplacementSourceFilter::Source => 1,
            ReplacementSourceFilter::Object(_) => 2,
        }
    }

    /// Returns the stable numeric code used by canonical encodings.
    pub(crate) fn canonical_code(self) -> (r: u8)
        ensures
            r == self.spec_canonical_code(),
    {
        match self {
            ReplacementSourceFilter::Any => 0,
            ReplacementSourceFilter::Source => 1,
            ReplacementSourceFilter::Object(_) => 2,
        }
    }
}

/// Damage target selector used by declarative replacement predicates.
#[derive(Clone, Copy, Debug, PartialEq, Eq, Structural, Hash)]
pub enum ReplacementDamageTargetFilter {
    /// Any player or object.
    Any,
    /// One exact player.
    Player(PlayerId),
    /// One exact object.
    Object(ObjectId),
}

impl ReplacementDamageTargetFilter {
    /// Stable numeric code used by canonical encodings.
    pub open spec fn spec_canonical_code(self) -> u8 {
        match self {
            ReplacementDamageTargetFilter::Any => 0,
            ReplacementDamageTargetFilter::Player(_) => 1,
            ReplacementDamageTargetFilter::Object(_) => 2,
        }
    }

    /// Returns the stable numeric code used by canonical encodings.
    pub(crate) fn canonical_code(self) -> (r: u8)
        ensures
            r == self.spec_canonical_code(),
    {
        match self {
            ReplacementDamageTargetFilter::Any => 0,
            ReplacementDamageTargetFilter::Player(_) => 1,
            ReplacementDamageTargetFilter::Object(_) => 2,
        }
    }
}

/// Declarative event predicate for replacement/prevention effects.
#[derive(Clone, Copy, Debug, PartialEq, Eq, Structural, Hash)]
pub enum ReplacementCondition {
    /// Match damage that would be dealt to a selected target.
    DamageWouldBeDealt {
        /// Damage source selector.
        source: ReplacementSourceFilter,
        /// Damage target selector.
        target: ReplacementDamageTargetFilter,
        /// Whether only combat damage matches.
        combat_only: bool,
    },
}

impl ReplacementCondition {
    /// Stable numeric code used by canonical encodings.
    pub open spec fn spec_canonical_code(self) -> u8 {
        match self {
            ReplacementCondition::DamageWouldBeDealt { .. } => 0,
        }
    }

    /// Returns the stable numeric code used by canonical encodings.
    pub(crate) fn canonical_code(self) -> (r: u8)
        ensures
            r == self.spec_canonical_code(),
    {
        match self {
            ReplacementCondition::DamageWouldBeDealt { .. } => 0,
        }
    }
}

/// Data-only replacement/prevention operation.
#[derive(Clone, Copy, Debug, PartialEq, Eq, Structural, Hash)]
pub enum ReplacementOperation {
    /// Prevent all matching damage.
    PreventAllDamage,
    /// Prevent up to the given amount of matching damage.
    PreventDamage(u32),
    /// Increase matching damage by the given amount.
    AddDamage(u32),
    /// Double matching damage.
    DoubleDamage,
    /// Set matching damage to the given amount.
    SetDamage(u32),
}

impl ReplacementOperation {
    /// Stable numeric code used by canonical encodings.
    pub open spec fn spec_canonical_code(self) -> u8 {
        match self {
            ReplacementOperation::PreventAllDamage => 0,
            ReplacementOperation::PreventDamage(_) => 1,
            ReplacementOperation::AddDamage(_) => 2,
            ReplacementOperation::DoubleDamage => 3,
            ReplacementOperation::SetDamage(_) => 4,
        }
    }

    /// Returns the stable numeric code used by canonical encodings.
    pub(crate) fn canonical_code(self) -> (r: u8)
        ensures
            r == self.spec_canonical_code(),
    {
        match self {
            ReplacementOperation::PreventAllDamage => 0,
            ReplacementOperation::PreventDamage(_) => 1,
            ReplacementOperation::AddDamage(_) => 2,
            ReplacementOperation::DoubleDamage => 3,
            ReplacementOperation::SetDamage(_) => 4,
        }
    }
}

/// Lifetime of a registered replacement/prevention effect.
#[derive(Clone, Copy, Debug, PartialEq, Eq, Structural, Hash)]
pub enum ReplacementDuration {
    /// The effect remains active.
    Persistent,
    /// The effect is removed after it applies once.
    Once,
}

impl ReplacementDuration {
    /// Stable numeric code used by canonical encodings.
    pub open spec fn spec_canonical_code(self) -> u8 {
        match self {
            ReplacementDuration::Persistent => 0,
            ReplacementDuration::Once => 1,
        }
    }

    /// Returns the stable numeric code used by canonical encodings.
    pub(crate) fn canonical_code(self) -> (r: u8)
        ensures
            r == self.spec_canonical_code(),
    {
        match self {
            ReplacementDuration::Persistent => 0,
            ReplacementDuration::Once => 1,
        }
    }
}

/// Data-only replacement/prevention definition.
#[derive(Clone, Copy, Debug, PartialEq, Eq, Structural, Hash)]
pub struct ReplacementDefinition {
    pub controller: PlayerId,
    pub source: Option<ObjectId>,
    pub condition: ReplacementCondition,
    pub operation: ReplacementOperation,
    pub duration: ReplacementDuration,
    pub self_replacement: bool,
}

impl ReplacementDefinition {
    /// Creates a persistent replacement/prevention definition with no source object.
    pub fn new(
        controller: PlayerId,
        condition: ReplacementCondition,
        operation: ReplacementOperation,
    ) -> (r: Self)
        ensures
            r.controller == controller && r.source is None && r.condition == condition,
            r.operation == operation && r.duration == ReplacementDuration::Persistent,
            !r.self_replacement,
    {
        ReplacementDefinition {
            controller,
            source: None,
            condition,
            operation,
            duration: ReplacementDuration::Persistent,
            self_replacement: false,
        }
    }

    /// Sets the source object for source-relative predicates.
    pub fn with_source(self, source: ObjectId) -> (r: Self)
        ensures
            r == (ReplacementDefinition { source: Some(source), ..self }),
    {
        let mut r = self;
        r.source = Some(source);
        r
    }

    /// Sets the replacement effect duration.
    pub fn with_duration(self, duration: ReplacementDuration) -> (r: Self)
        ensures
            r == (ReplacementDefinition { duration, ..self }),
    {
        let mut r = self;
        r.duration = duration;
        r
    }

    /// Marks this effect as a self-replacement effect applied before normal choices.
    pub fn with_self_replacement(self) -> (r: Self)
        ensures
            r == (ReplacementDefinition { self_replacement: true, ..self }),
    {
        let mut r = self;
        r.self_replacement = true;
        r
    }

    /// Returns the effect controller.
    pub fn controller(self) -> (r: PlayerId)
        ensures
            r == self.controller,
    {
        self.controller
    }
    /// Returns the optional effect source object.
    pub fn source(self) -> (r: Option<ObjectId>)
        ensures
            r == self.source,
    {
        self.source
    }
    /// Returns the event predicate.
    pub fn condition(self) -> (r: ReplacementCondition)
        ensures
            r == self.condition,
    {
        self.condition
    }
    /// Returns the effect operation.
    pub fn operation(self) -> (r: ReplacementOperation)
        ensures
            r == self.operation,
    {
        self.operation
    }
    /// Returns the effect duration.
    pub fn duration(self) -> (r: ReplacementDuration)
        ensures
            r == self.duration,
    {
        self.duration
    }
    /// Returns true when this is a self-replacement effect.
    pub fn self_replacement(self) -> (r: bool)
        ensures
            r == self.self_replacement,
    {
        self.self_replacement
    }
}

/// Stored deterministic ordering preference for replacement choices.
#[derive(Clone, Debug, PartialEq, Eq)]
pub struct ReplacementChoiceOrder {
    pub chooser: PlayerId,
    pub order: Vec<ReplacementEffectId>,
}

impl ReplacementChoiceOrder {
    /// Creates a replacement ordering preference for one chooser.
    pub fn new(chooser: PlayerId, order: Vec<ReplacementEffectId>) -> (r: Self)
        ensures
            r.chooser == chooser && r.order@ == order@,
    {
        ReplacementChoiceOrder { chooser, order }
    }

    /// Returns the player whose choices are represented.
    pub fn chooser(&self) -> (r: PlayerId)
        ensures
            r == self.chooser,
    {
        self.chooser
    }
    /// Returns effect IDs in preferred application order.
    pub fn order(&self) -> (r: &[ReplacementEffectId])
        ensures
            r@ == self.order@,
    {
        self.order.as_slice()
    }
}

/// Request object for casting one spell.
#[derive(Clone, Debug, PartialEq, Eq)]
pub struct CastSpellRequest {
    pub kind: StackObjectKind,
    pub timing: SpellTiming,
    pub cost: ManaCost,
    pub payment: PaymentPlan,
    pub target_requirements: Vec<TargetRequirement>,
    pub target_choices: Vec<TargetChoice>,
}

impl CastSpellRequest {
    /// Creates a spell-casting request with no targets.
    pub fn new(kind: StackObjectKind, timing: SpellTiming, cost: ManaCost, payment: PaymentPlan) -> (r:
        Self)
        ensures
            r.kind == kind && r.timing == timing && r.cost == cost && r.payment == payment,
            r.target_requirements@.len() == 0 && r.target_choices@.len() == 0,
    {
        CastSpellRequest {
            kind,
            timing,
            cost,
            payment,
            target_requirements: Vec::new(),
            target_choices: Vec::new(),
        }
    }

    /// Adds target requirements and selected targets.
    pub fn with_targets(
        self,
        target_requirements: Vec<TargetRequirement>,
        target_choices: Vec<TargetChoice>,
    ) -> (r: Self)
        ensures
            r.kind == self.kind && r.timing == self.timing && r.cost == self.cost,
            r.payment == self.payment && r.target_requirements@ == target_requirements@,
            r.target_choices@ == target_choices@,
    {
        let mut r = self;
        r.target_requirements = target_requirements;
        r.target_choices = target_choices;
        r
    }

    /// Returns the stack-object kind that will be created.
    pub fn kind(&self) -> (r: StackObjectKind)
        ensures
            r == self.kind,
    {
        self.kind
    }
    /// Returns the timing permission used for this cast.
    pub fn timing(&self) -> (r: SpellTiming)
        ensures
            r == self.timing,
    {
        self.timing
    }
    /// Returns the total mana cost to pay.
    pub fn cost(&self) -> (r: ManaCost)
        ensures
            r == self.cost,
    {
        self.cost
    }
    /// Returns the explicit payment plan.
    pub fn payment(&self) -> (r: PaymentPlan)
        ensures
            r == self.payment,
    {
        self.payment
    }
    /// Returns target requirements.
    pub fn target_requirements(&self) -> (r: &[TargetRequirement])
        ensures
            r@ == self.target_requirements@,
    {
        self.target_requirements.as_slice()
    }
    /// Returns selected targets.
    pub fn target_choices(&self) -> (r: &[TargetChoice])
        ensures
            r@ == self.target_choices@,
    {
        self.target_choices.as_slice()
    }
}

/// Timing permission for activating an ability.
#[derive(Clone, Copy, Debug, PartialEq, Eq, Structural, Hash)]
pub enum ActivationTiming {
    /// The ability may be activated whenever its controller has priority.
    Instant,
    /// The ability may be activated only during that player's main phase with an empty stack.
    Sorcery,
}

impl ActivationTiming {
    /// Stable numeric code used by canonical encodings.
    pub open spec fn spec_canonical_code(self) -> u8 {
        match self {
            ActivationTiming::Instant => 0,
            ActivationTiming::Sorcery => 1,
        }
    }

    /// Returns the stable numeric code used by canonical encodings.
    pub(crate) fn canonical_code(self) -> (r: u8)
        ensures
            r == self.spec_canonical_code(),
    {
        match self {
            ActivationTiming::Instant => 0,
            ActivationTiming::Sorcery => 1,
        }
    }
}

/// Player selector used by no-target activated ability effects.
#[derive(Clone, Copy, Debug, PartialEq, Eq, Structural, Hash)]
pub enum AbilityPlayer {
    /// The player activating or controlling the ability.
    Controller,
    /// One exact player.
    Player(PlayerId),
}

impl AbilityPlayer {
    /// Stable numeric code used by canonical encodings.
    pub open spec fn spec_canonical_code(self) -> u8 {
        match self {
            AbilityPlayer::Controller => 0,
            AbilityPlayer::Player(_) => 1,
        }
    }

    /// Returns the stable numeric code used by canonical encodings.
    pub(crate) fn canonical_code(self) -> (r: u8)
        ensures
            r == self.spec_canonical_code(),
    {
        match self {
            AbilityPlayer::Controller => 0,
            AbilityPlayer::Player(_) => 1,
        }
    }
}

/// A data-only activated ability effect.
#[derive(Clone, Copy, Debug, PartialEq, Eq, Structural, Hash)]
pub enum ActivatedAbilityEffect {
    /// Add mana to a selected player's mana pool.
    AddMana {
        /// Player receiving mana.
        player: AbilityPlayer,
        /// Mana to add.
        mana: ManaPool,
    },
    /// Gain life for a selected player.
    GainLife {
        /// Player gaining life.
        player: AbilityPlayer,
        /// Life amount to gain.
        amount: u32,
    },
    /// Lose life for a selected player.
    LoseLife {
        /// Player losing life.
        player: AbilityPlayer,
        /// Life amount to lose.
        amount: u32,
    },
}

impl ActivatedAbilityEffect {
    /// Stable numeric code used by canonical encodings.
    pub open spec fn spec_canonical_code(self) -> u8 {
        match self {
            ActivatedAbilityEffect::AddMana { .. } => 0,
            ActivatedAbilityEffect::GainLife { .. } => 1,
            ActivatedAbilityEffect::LoseLife { .. } => 2,
        }
    }

    /// Returns the stable numeric code used by canonical encodings.
    pub(crate) fn canonical_code(self) -> (r: u8)
        ensures
            r == self.spec_canonical_code(),
    {
        match self {
            ActivatedAbilityEffect::AddMana { .. } => 0,
            ActivatedAbilityEffect::GainLife { .. } => 1,
            ActivatedAbilityEffect::LoseLife { .. } => 2,
        }
    }

    /// Returns true if this is a mana-producing effect.
    pub fn is_mana_effect(self) -> (r: bool)
        ensures
            r == self is AddMana,
    {
        match self {
            ActivatedAbilityEffect::AddMana { .. } => true,
            _ => false,
        }
    }
}

/// Costs paid to activate one ability.
#[derive(Clone, Copy, Debug, PartialEq, Eq, Structural, Hash)]
pub struct ActivationCost {
    pub mana: ManaCost,
    pub tap_source: bool,
    pub loyalty_delta: Option<i32>,
}

impl ActivationCost {
    /// Creates an activation cost with mana and no non-mana costs.
    pub fn new(mana: ManaCost) -> (r: Self)
        ensures
            r.mana == mana && !r.tap_source && r.loyalty_delta is None,
    {
        ActivationCost { mana, tap_source: false, loyalty_delta: None }
    }

    /// Adds a tap-symbol source cost.
    pub fn with_tap_source(self) -> (r: Self)
        ensures
            r == (ActivationCost { tap_source: true, ..self }),
    {
        let mut r = self;
        r.tap_source = true;
        r
    }

    /// Adds a loyalty cost or loyalty-increase cost.
    pub fn with_loyalty_delta(self, delta: i32) -> (r: Self)
        ensures
            r == (ActivationCost { loyalty_delta: Some(delta), ..self }),
    {
        let mut r = self;
        r.loyalty_delta = Some(delta);
        r
    }

    /// Returns the mana portion of the cost.
    pub fn mana(self) -> (r: ManaCost)
        ensures
            r == self.mana,
    {
        self.mana
    }
    /// Returns whether the source must be tapped.
    pub fn tap_source(self) -> (r: bool)
        ensures
            r == self.tap_source,
    {
        self.tap_source
    }
    /// Returns the loyalty change paid as a cost, if any.
    pub fn loyalty_delta(self) -> (r: Option<i32>)
        ensures
            r == self.loyalty_delta,
    {
        self.loyalty_delta
    }
}

/// Declarative activated ability definition.
#[derive(Clone, Copy, Debug, PartialEq, Eq, Structural, Hash)]
pub struct ActivatedAbilityDefinition {
    pub controller: PlayerId,
    pub source: Option<ObjectId>,
    pub timing: ActivationTiming,
    pub cost: ActivationCost,
    pub effect: ActivatedAbilityEffect,
    pub mana_ability: bool,
}

impl ActivatedAbilityDefinition {
    /// Creates one activated ability definition.
    pub fn new(
        controller: PlayerId,
        source: Option<ObjectId>,
        timing: ActivationTiming,
        cost: ActivationCost,
        effect: ActivatedAbilityEffect,
    ) -> (r: Self)
        ensures
            r.controller == controller && r.source == source && r.timing == timing,
            r.cost == cost && r.effect == effect && !r.mana_ability,
    {
        ActivatedAbilityDefinition { controller, source, timing, cost, effect, mana_ability: false }
    }

    /// Marks this ability as a mana ability that resolves without using the stack.
    pub fn as_mana_ability(self) -> (r: Self)
        ensures
            r == (ActivatedAbilityDefinition { mana_ability: true, ..self }),
    {
        let mut r = self;
        r.mana_ability = true;
        r
    }

    /// Returns the ability controller.
    pub fn controller(self) -> (r: PlayerId)
        ensures
            r == self.controller,
    {
        self.controller
    }
    /// Returns the source object, if any.
    pub fn source(self) -> (r: Option<ObjectId>)
        ensures
            r == self.source,
    {
        self.source
    }
    /// Returns the activation timing restriction.
    pub fn timing(self) -> (r: ActivationTiming)
        ensures
            r == self.timing,
    {
        self.timing
    }
    /// Returns the base activation cost.
    pub fn cost(self) -> (r: ActivationCost)
        ensures
            r == self.cost,
    {
        self.cost
    }
    /// Returns the effect to resolve.
    pub fn effect(self) -> (r: ActivatedAbilityEffect)
        ensures
            r == self.effect,
    {
        self.effect
    }
    /// Returns true if this ability resolves without using the stack.
    pub fn is_mana_ability(self) -> (r: bool)
        ensures
            r == self.mana_ability,
    {
        self.mana_ability
    }
}

/// Scope for an activation cost modifier.
#[derive(Clone, Copy, Debug, PartialEq, Eq, Structural, Hash)]
pub enum CostModifierScope {
    /// Applies to every activated ability.
    AllActivatedAbilities,
    /// Applies to one registered ability.
    Ability(ActivatedAbilityId),
    /// Applies to abilities whose source matches this object.
    Source(ObjectId),
    /// Applies to abilities controlled by this player.
    Controller(PlayerId),
}

impl CostModifierScope {
    /// Stable numeric code used by canonical encodings.
    pub open spec fn spec_canonical_code(self) -> u8 {
        match self {
            CostModifierScope::AllActivatedAbilities => 0,
            CostModifierScope::Ability(_) => 1,
            CostModifierScope::Source(_) => 2,
            CostModifierScope::Controller(_) => 3,
        }
    }

    /// Returns the stable numeric code used by canonical encodings.
    pub(crate) fn canonical_code(self) -> (r: u8)
        ensures
            r == self.spec_canonical_code(),
    {
        match self {
            CostModifierScope::AllActivatedAbilities => 0,
            CostModifierScope::Ability(_) => 1,
            CostModifierScope::Source(_) => 2,
            CostModifierScope::Controller(_) => 3,
        }
    }
}

/// Mana-cost adjustment for activated abilities.
#[derive(Clone, Copy, Debug, PartialEq, Eq, Structural, Hash)]
pub enum CostModifierOperation {
    /// Add a complete mana cost as an additional cost.
    AddManaCost(ManaCost),
    /// Increase the generic portion.
    AddGeneric(u32),
    /// Reduce the generic portion, to a floor of zero.
    ReduceGeneric(u32),
}

impl CostModifierOperation {
    /// Stable numeric code used by canonical encodings.
    pub open spec fn spec_canonical_code(self) -> u8 {
        match self {
            CostModifierOperation::AddManaCost(_) => 0,
            CostModifierOperation::AddGeneric(_) => 1,
            CostModifierOperation::ReduceGeneric(_) => 2,
        }
    }

    /// Returns the stable numeric code used by canonical encodings.
    pub(crate) fn canonical_code(self) -> (r: u8)
        ensures
            r == self.spec_canonical_code(),
    {
        match self {
            CostModifierOperation::AddManaCost(_) => 0,
            CostModifierOperation::AddGeneric(_) => 1,
            CostModifierOperation::ReduceGeneric(_) => 2,
        }
    }
}

/// Registered cost adjustment for activated abilities.
#[derive(Clone, Copy, Debug, PartialEq, Eq, Structural, Hash)]
pub struct CostModifierDefinition {
    pub controller: PlayerId,
    pub source: Option<ObjectId>,
    pub scope: CostModifierScope,
    pub operation: CostModifierOperation,
}

impl CostModifierDefinition {
    /// Creates one data-only activated ability cost modifier.
    pub fn new(
        controller: PlayerId,
        source: Option<ObjectId>,
        scope: CostModifierScope,
        operation: CostModifierOperation,
    ) -> (r: Self)
        ensures
            r.controller == controller && r.source == source && r.scope == scope,
            r.operation == operation,
    {
        CostModifierDefinition { controller, source, scope, operation }
    }

    /// Returns the modifier controller.
    pub fn controller(self) -> (r: PlayerId)
        ensures
            r == self.controller,
    {
        self.controller
    }
    /// Returns the source object, if any.
    pub fn source(self) -> (r: Option<ObjectId>)
        ensures
            r == self.source,
    {
        self.source
    }
    /// Returns the matching scope.
    pub fn scope(self) -> (r: CostModifierScope)
        ensures
            r == self.scope,
    {
        self.scope
    }
    /// Returns the cost operation.
    pub fn operation(self) -> (r: CostModifierOperation)
        ensures
            r == self.operation,
    {
        self.operation
    }
}

/// Outcome recorded when a stack entry leaves the stack.
#[derive(Clone, Copy, Debug, PartialEq, Eq, Structural, Hash, PartialOrd, Ord)]
pub enum ResolutionOutcome {
    /// The entry resolved normally.
    Resolved,
    /// The entry had targets and all of them were illegal on resolution.
    CounteredOnResolution,
}

impl ResolutionOutcome {
    /// Stable numeric code used by canonical encodings.
    pub open spec fn spec_canonical_code(self) -> u8 {
        match self {
            ResolutionOutcome::Resolved => 0,
            ResolutionOutcome::CounteredOnResolution => 1,
        }
    }

    /// Returns the stable numeric code used by canonical encodings.
    pub(crate) fn canonical_code(self) -> (r: u8)
        ensures
            r == self.spec_canonical_code(),
    {
        match self {
            ResolutionOutcome::Resolved => 0,
            ResolutionOutcome::CounteredOnResolution => 1,
        }
    }
}

/// One spell or ability waiting on the stack.
#[derive(Clone, Debug, PartialEq, Eq)]
pub struct StackEntry {
    pub id: StackEntryId,
    pub controller: PlayerId,
    pub object: Option<ObjectId>,
    pub trigger: Option<TriggerId>,
    pub activated_ability: Option<ActivatedAbilityId>,
    pub kind: StackObjectKind,
    pub targets: Vec<TargetSnapshot>,
    pub payment: Option<PaymentPlan>,
}

impl StackEntry {
    /// Returns the stable stack-entry ID.
    pub fn id(&self) -> (r: StackEntryId)
        ensures
            r == self.id,
    {
        self.id
    }
    /// Returns the controller of the spell or ability on the stack.
    pub fn controller(&self) -> (r: PlayerId)
        ensures
            r == self.controller,
    {
        self.controller
    }
    /// Returns the physical object on the stack, if this entry is a spell.
    pub fn object(&self) -> (r: Option<ObjectId>)
        ensures
            r == self.object,
    {
        self.object
    }
    /// Returns the trigger definition that created this entry, if any.
    pub fn trigger(&self) -> (r: Option<TriggerId>)
        ensures
            r == self.trigger,
    {
        self.trigger
    }
    /// Returns the activated ability definition that created this entry, if any.
    pub fn activated_ability(&self) -> (r: Option<ActivatedAbilityId>)
        ensures
            r == self.activated_ability,
    {
        self.activated_ability
    }
    /// Returns the coarse stack-object kind.
    pub fn kind(&self) -> (r: StackObjectKind)
        ensures
            r == self.kind,
    {
        self.kind
    }
    /// Returns target snapshots captured as this entry was put on the stack.
    pub fn targets(&self) -> (r: &[TargetSnapshot])
        ensures
            r@ == self.targets@,
    {
        self.targets.as_slice()
    }
    /// Returns the payment plan used to cast this spell, if any.
    pub fn payment(&self) -> (r: Option<PaymentPlan>)
        ensures
            r == self.payment,
    {
        self.payment
    }

    /// Returns a copy of this entry.
    pub fn duplicate(&self) -> (r: Self)
        ensures
            r.id == self.id && r.controller == self.controller && r.object == self.object,
            r.trigger == self.trigger && r.activated_ability == self.activated_ability,
            r.kind == self.kind && r.targets@ == self.targets@ && r.payment == self.payment,
    {
        StackEntry {
            id: self.id,
            controller: self.controller,
            object: self.object,
            trigger: self.trigger,
            activated_ability: self.activated_ability,
            kind: self.kind,
            targets: copy_snapshots(&self.targets),
            payment: self.payment,
        }
    }
}

/// Copies a list of target snapshots.
pub(crate) fn copy_snapshots(v: &Vec<TargetSnapshot>) -> (r: Vec<TargetSnapshot>)
    ensures
        r@ == v@,
{
    let mut r: Vec<TargetSnapshot> = Vec::new();
    let mut i: usize = 0;
    while i < v.len()
        invariant
            i <= v@.len(),
            r@ == v@.subrange(0, i as int),
        decreases v@.len() - i,
    {
        r.push(v[i]);
        i = i + 1;
        assert(r@ =~= v@.subrange(0, i as int));
    }
    assert(r@ =~= v@);
    r
}

/// Record of a stack object that resolved.
#[derive(Clone, Debug, PartialEq, Eq)]
pub struct ResolutionRecord {
    pub stack_entry: StackEntryId,
    pub controller: PlayerId,
    pub object: Option<ObjectId>,
    pub trigger: Option<TriggerId>,
    pub activated_ability: Option<ActivatedAbilityId>,
    pub kind: StackObjectKind,
    pub targets: Vec<TargetSnapshot>,
    pub legal_targets: Vec<bool>,
    pub outcome: ResolutionOutcome,
}

impl ResolutionRecord {
    /// Returns the stack-entry ID that resolved.
    pub fn stack_entry(&self) -> (r: StackEntryId)
        ensures
            r == self.stack_entry,
    {
        self.stack_entry
    }
    /// Returns the controller of the resolved entry.
    pub fn controller(&self) -> (r: PlayerId)
        ensures
            r == self.controller,
    {
        self.controller
    }
    /// Returns the physical object that resolved, if any.
    pub fn object(&self) -> (r: Option<ObjectId>)
        ensures
            r == self.object,
    {
        self.object
    }
    /// Returns the trigger definition that created this entry, if any.
    pub fn trigger(&self) -> (r: Option<TriggerId>)
        ensures
            r == self.trigger,
    {
        self.trigger
    }
    /// Returns the activated ability definition that resolved, if any.
    pub fn activated_ability(&self) -> (r: Option<ActivatedAbilityId>)
        ensures
            r == self.activated_ability,
    {
        self.activated_ability
    }
    /// Returns the resolved stack-object kind.
    pub fn kind(&self) -> (r: StackObjectKind)
        ensures
            r == self.kind,
    {
        self.kind
    }
    /// Returns target snapshots captured for the entry.
    pub fn targets(&self) -> (r: &[TargetSnapshot])
        ensures
            r@ == self.targets@,
    {
        self.targets.as_slice()
    }
    /// Returns whether each target was legal when the entry resolved.
    pub fn legal_targets(&self) -> (r: &[bool])
        ensures
            r@ == self.legal_targets@,
    {
        self.legal_targets.as_slice()
    }
    /// Returns whether the entry resolved or was countered by game rules.
    pub fn outcome(&self) -> (r: ResolutionOutcome)
        ensures
            r == self.outcome,
    {
        self.outcome
    }
}

/// Fields of a stack entry that is about to be pushed.
pub(crate) struct StackEntryRequest {
    pub(crate) controller: PlayerId,
    pub(crate) object: Option<ObjectId>,
    pub(crate) trigger: Option<TriggerId>,
    pub(crate) activated_ability: Option<ActivatedAbilityId>,
    pub(crate) kind: StackObjectKind,
    pub(crate) targets: Vec<TargetSnapshot>,
    pub(crate) payment: Option<PaymentPlan>,
}

} // verus!
