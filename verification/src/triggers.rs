//! Triggered abilities: matching events against registered definitions,
//! intervening-if checks, delayed triggers, and queueing.

use vstd::prelude::*;

use crate::abilities::{
    ResolutionOutcome, ResolutionRecord, StackObjectKind, TriggerCondition, TriggerDefinition, TriggerDuration, TriggerInterveningIf,
    TriggerObjectFilter, TriggerPlayerFilter, TriggerZoneFilter,
};
use crate::events::{EventRecord, GameEvent, PendingTriggeredAbility};
use crate::ids::{ObjectId, PlayerId, StackEntryId, TriggerId};
use crate::state::{same_but_events, GameState, StateError, TriggerSubscription};
use crate::turn::ZoneId;
use crate::plumbing::{events_bounded, queued_log, zones_conserved};

verus! {

/// Whether a player filter accepts `player` for a trigger controlled by `controller`.
pub open spec fn player_filter_accepts(
    filter: TriggerPlayerFilter,
    controller: PlayerId,
    player: PlayerId,
) -> bool {
    match filter {
        TriggerPlayerFilter::Any => true,
        TriggerPlayerFilter::Controller => player == controller,
        TriggerPlayerFilter::OpponentOfController => player != controller,
        TriggerPlayerFilter::Player(expected) => player == expected,
    }
}

/// Whether an object filter accepts `object` for a trigger with this source.
pub open spec fn object_filter_accepts(
    filter: TriggerObjectFilter,
    source: Option<ObjectId>,
    object: ObjectId,
) -> bool {
    match filter {
        TriggerObjectFilter::Any => true,
        TriggerObjectFilter::Source => source == Some(object),
        TriggerObjectFilter::Object(expected) => object == expected,
    }
}

/// Whether a zone filter accepts `zone` for a trigger controlled by `controller`.
pub open spec fn zone_filter_accepts(
    filter: TriggerZoneFilter,
    controller: PlayerId,
    zone: ZoneId,
) -> bool {
    match filter {
        TriggerZoneFilter::Any => true,
        TriggerZoneFilter::Exact(expected) => zone == expected,
        TriggerZoneFilter::Kind(kind) => zone.kind == kind,
        TriggerZoneFilter::Owned { owner, kind } => zone.kind == kind && match zone.owner {
            Some(zone_owner) => player_filter_accepts(owner, controller, zone_owner),
            None => false,
        },
    }
}

/// The pending ability that `subscription` queues for `record`.
pub open spec fn pending_for(subscription: TriggerSubscription, record: EventRecord) -> PendingTriggeredAbility {
    PendingTriggeredAbility {
        trigger: subscription.id,
        controller: subscription.definition.controller,
        source: subscription.definition.source,
        event_sequence: record.sequence,
        event_turn: record.turn,
    }
}

/// The pending abilities queued for `record`, in subscription order: one
/// for each subscription marked in `fired`.
pub open spec fn queued_for(
    subscriptions: Seq<TriggerSubscription>,
    fired: Seq<bool>,
    record: EventRecord,
) -> Seq<PendingTriggeredAbility>
    decreases subscriptions.len(),
{
    if subscriptions.len() == 0 {
        Seq::empty()
    } else {
        let rest = queued_for(subscriptions.drop_last(), fired.drop_last(), record);
        if fired.last() {
            rest.push(pending_for(subscriptions.last(), record))
        } else {
            rest
        }
    }
}

/// The kind of the first record of `entry` in a resolution log.
pub open spec fn first_resolved_kind(log: Seq<ResolutionRecord>, entry: StackEntryId) -> Option<StackObjectKind>
    decreases log.len(),
{
    if log.len() == 0 {
        None
    } else if log[0].stack_entry == entry {
        Some(log[0].kind)
    } else {
        first_resolved_kind(log.drop_first(), entry)
    }
}

/// Whether `event` meets the condition of a trigger with this definition,
/// given the resolution log: the event must be of the condition's sort, and
/// each filter of the condition must accept what the event names.
pub open spec fn condition_accepts(
    definition: TriggerDefinition,
    event: GameEvent,
    log: Seq<ResolutionRecord>,
) -> bool {
    match definition.condition {
        TriggerCondition::EventKind(kind) => event.spec_kind() == kind,
        TriggerCondition::ObjectMoved { object, from, to } => match event {
            GameEvent::ObjectMoved { object: moved, from: event_from, to: event_to } => object_filter_accepts(
                object,
                definition.source,
                moved,
            ) && zone_filter_accepts(from, definition.controller, event_from) && zone_filter_accepts(
                to,
                definition.controller,
                event_to,
            ),
            _ => false,
        },
        TriggerCondition::StepBegan { step } => event == GameEvent::StepBegan { step },
        TriggerCondition::LifeLost { player } => match event {
            GameEvent::LifeLost { player: event_player, .. } => player_filter_accepts(
                player,
                definition.controller,
                event_player,
            ),
            _ => false,
        },
        TriggerCondition::LifeGained { player } => match event {
            GameEvent::LifeGained { player: event_player, .. } => player_filter_accepts(
                player,
                definition.controller,
                event_player,
            ),
            _ => false,
        },
        TriggerCondition::DamageMarked { object } => match event {
            GameEvent::DamageMarked { object: damaged, .. } => object_filter_accepts(
                object,
                definition.source,
                damaged,
            ),
            _ => false,
        },
        TriggerCondition::StackEntryResolved { kind, outcome } => match event {
            GameEvent::StackEntryResolved { entry, outcome: event_outcome } => {
                &&& (kind matches Some(expected) ==> first_resolved_kind(log, entry) == Some(expected))
                &&& (outcome matches Some(expected) ==> expected == event_outcome)
            },
            _ => false,
        },
    }
}

/// What is known of whether `subscription` fires for `event`: only a
/// subscription to the event's kind fires; one whose intervening-if always
/// holds fires on a matching kind or on the beginning of its step.
pub open spec fn firing_fits(
    subscription: TriggerSubscription,
    event: GameEvent,
    log: Seq<ResolutionRecord>,
    fired: bool,
) -> bool {
    &&& fired ==> subscription.event_kind == event.spec_kind()
    &&& fired ==> condition_accepts(subscription.definition, event, log)
    &&& subscription.event_kind == event.spec_kind() && subscription.definition.intervening_if
        == TriggerInterveningIf::Always ==> fired == condition_accepts(subscription.definition, event, log)
    &&& subscription.event_kind == event.spec_kind() && subscription.definition.intervening_if
        == TriggerInterveningIf::Always ==> {
        &&& subscription.definition.condition matches TriggerCondition::EventKind(kind) ==> fired == (
        event.spec_kind() == kind)
        &&& subscription.definition.condition matches TriggerCondition::StepBegan { step } ==> fired == (event
            == GameEvent::StepBegan { step })
    }
}

/// A trigger on marked damage fires only on a damage event whose damaged
/// object its filter accepts; with the `Source` filter, only on damage to
/// the trigger's own source. A trigger of the event's kind whose
/// intervening-if always holds fires on every such event.
pub proof fn lemma_damage_triggers_fire_for_their_object(
    subscription: TriggerSubscription,
    event: GameEvent,
    log: Seq<ResolutionRecord>,
    fired: bool,
    filter: TriggerObjectFilter,
)
    requires
        firing_fits(subscription, event, log, fired),
        subscription.definition.condition == (TriggerCondition::DamageMarked { object: filter }),
    ensures
        fired ==> (event matches GameEvent::DamageMarked { object: damaged, .. } && object_filter_accepts(
            filter,
            subscription.definition.source,
            damaged,
        )),
        fired && filter is Source ==> (event matches GameEvent::DamageMarked { object: damaged, .. }
            && subscription.definition.source == Some(damaged)),
        subscription.event_kind == event.spec_kind() && subscription.definition.intervening_if
            == TriggerInterveningIf::Always ==> (fired <==> (event matches GameEvent::DamageMarked {
            object: damaged,
            ..
        } && object_filter_accepts(filter, subscription.definition.source, damaged))),
{
}

/// A trigger on life lost or gained fires only on an event of that sort
/// for a player its filter accepts, and, of its event's kind with an
/// intervening-if that always holds, on every such event.
pub proof fn lemma_life_triggers_fire_for_their_player(
    subscription: TriggerSubscription,
    event: GameEvent,
    log: Seq<ResolutionRecord>,
    fired: bool,
    filter: TriggerPlayerFilter,
)
    requires
        firing_fits(subscription, event, log, fired),
    ensures
        subscription.definition.condition == (TriggerCondition::LifeLost { player: filter }) ==> {
            &&& fired ==> (event matches GameEvent::LifeLost { player, .. } && player_filter_accepts(
                filter,
                subscription.definition.controller,
                player,
            ))
            &&& subscription.event_kind == event.spec_kind() && subscription.definition.intervening_if
                == TriggerInterveningIf::Always ==> (fired <==> (event matches GameEvent::LifeLost {
                player,
                ..
            } && player_filter_accepts(filter, subscription.definition.controller, player)))
        },
        subscription.definition.condition == (TriggerCondition::LifeGained { player: filter }) ==> {
            &&& fired ==> (event matches GameEvent::LifeGained { player, .. } && player_filter_accepts(
                filter,
                subscription.definition.controller,
                player,
            ))
            &&& subscription.event_kind == event.spec_kind() && subscription.definition.intervening_if
                == TriggerInterveningIf::Always ==> (fired <==> (event matches GameEvent::LifeGained {
                player,
                ..
            } && player_filter_accepts(filter, subscription.definition.controller, player)))
        },
{
}

/// A trigger on resolution fires only when the resolved entry's outcome is
/// the one it asks for, if any, and the entry's first record in the
/// resolution log is of the kind it asks for, if any.
pub proof fn lemma_resolution_triggers_fire_on_their_filters(
    subscription: TriggerSubscription,
    event: GameEvent,
    log: Seq<ResolutionRecord>,
    fired: bool,
    kind: Option<StackObjectKind>,
    outcome: Option<ResolutionOutcome>,
)
    requires
        firing_fits(subscription, event, log, fired),
        subscription.definition.condition == (TriggerCondition::StackEntryResolved { kind, outcome }),
    ensures
        fired ==> (event matches GameEvent::StackEntryResolved { entry, outcome: resolved } && (kind matches Some(
            k,
        ) ==> exists|i: int|
            0 <= i < log.len() && log[i].stack_entry == entry && log[i].kind == k && forall|j: int|
                0 <= j < i ==> #[trigger] log[j].stack_entry != entry) && (outcome matches Some(o) ==> o
            == resolved)),
{
    if fired {
        if let GameEvent::StackEntryResolved { entry, outcome: resolved } = event {
            if let Some(k) = kind {
                lemma_first_resolved_kind_is_first_record(log, entry);
            }
        }
    }
}

/// The kind `first_resolved_kind` gives is that of the first record of the
/// entry in the log.
proof fn lemma_first_resolved_kind_is_first_record(log: Seq<ResolutionRecord>, entry: StackEntryId)
    ensures
        first_resolved_kind(log, entry) matches Some(k) ==> exists|i: int|
            0 <= i < log.len() && log[i].stack_entry == entry && log[i].kind == k && forall|j: int|
                0 <= j < i ==> #[trigger] log[j].stack_entry != entry,
    decreases log.len(),
{
    if log.len() > 0 && log[0].stack_entry != entry {
        let rest = log.drop_first();
        lemma_first_resolved_kind_is_first_record(rest, entry);
        if let Some(k) = first_resolved_kind(rest, entry) {
            let i = choose|i: int|
                0 <= i < rest.len() && rest[i].stack_entry == entry && rest[i].kind == k && forall|j: int|
                    0 <= j < i ==> #[trigger] rest[j].stack_entry != entry;
            assert(log[i + 1] == rest[i]);
            assert forall|j: int| 0 <= j < i + 1 implies #[trigger] log[j].stack_entry != entry by {
                if j > 0 {
                    assert(log[j] == rest[j - 1]);
                }
            }
        }
    } else if log.len() > 0 {
        assert(log[0].stack_entry == entry);
    }
}

impl GameState {
    /// Returns true when a player filter accepts `player`.
    pub(crate) fn trigger_player_matches(
        &self,
        definition: TriggerDefinition,
        filter: TriggerPlayerFilter,
        player: PlayerId,
    ) -> (r: bool)
        ensures
            r == player_filter_accepts(filter, definition.controller, player),
    {
        match filter {
            TriggerPlayerFilter::Any => true,
            TriggerPlayerFilter::Controller => player == definition.controller(),
            TriggerPlayerFilter::OpponentOfController => player != definition.controller(),
            TriggerPlayerFilter::Player(expected) => player == expected,
        }
    }

    /// Returns true when an object filter accepts `object`.
    pub(crate) fn trigger_object_matches(
        &self,
        definition: TriggerDefinition,
        filter: TriggerObjectFilter,
        object: ObjectId,
    ) -> (r: bool)
        ensures
            r == object_filter_accepts(filter, definition.source, object),
    {
        match filter {
            TriggerObjectFilter::Any => true,
            TriggerObjectFilter::Source => definition.source() == Some(object),
            TriggerObjectFilter::Object(expected) => object == expected,
        }
    }

    /// Returns true when a zone filter accepts `zone`.
    pub(crate) fn trigger_zone_matches(
        &self,
        definition: TriggerDefinition,
        filter: TriggerZoneFilter,
        zone: ZoneId,
    ) -> (r: bool)
        ensures
            r == zone_filter_accepts(filter, definition.controller, zone),
    {
        match filter {
            TriggerZoneFilter::Any => true,
            TriggerZoneFilter::Exact(expected) => zone == expected,
            TriggerZoneFilter::Kind(kind) => zone.kind() == kind,
            TriggerZoneFilter::Owned { owner, kind } => {
                zone.kind() == kind && match zone.owner() {
                    Some(zone_owner) => self.trigger_player_matches(definition, owner, zone_owner),
                    None => false,
                }
            },
        }
    }

    /// Returns true when the event satisfies the trigger's condition.
    pub(crate) fn trigger_condition_matches(
        &self,
        definition: TriggerDefinition,
        event: GameEvent,
    ) -> (r: bool)
        ensures
            definition.condition matches TriggerCondition::EventKind(kind) ==> r == (event.spec_kind() == kind),
            definition.condition matches TriggerCondition::StepBegan { step } ==> r == (event == GameEvent::StepBegan { step }),
            definition.condition matches TriggerCondition::ObjectMoved { object, from, to } ==> r == (
            event matches GameEvent::ObjectMoved { object: moved, from: event_from, to: event_to }
                && object_filter_accepts(object, definition.source, moved) && zone_filter_accepts(
                from,
                definition.controller,
                event_from,
            ) && zone_filter_accepts(to, definition.controller, event_to)),
            r == condition_accepts(definition, event, self.resolution_log@),
    {
        match definition.condition() {
            TriggerCondition::EventKind(kind) => event.kind() == kind,
            TriggerCondition::ObjectMoved { object, from, to } => {
                match event {
                    GameEvent::ObjectMoved { object: moved, from: event_from, to: event_to } => {
                        self.trigger_object_matches(definition, object, moved)
                            && self.trigger_zone_matches(definition, from, event_from)
                            && self.trigger_zone_matches(definition, to, event_to)
                    },
                    _ => false,
                }
            },
            TriggerCondition::StepBegan { step } => {
                match event {
                    GameEvent::StepBegan { step: event_step } => event_step == step,
                    _ => false,
                }
            },
            TriggerCondition::LifeLost { player } => {
                match event {
                    GameEvent::LifeLost { player: event_player, .. } => self.trigger_player_matches(
                        definition,
                        player,
                        event_player,
                    ),
                    _ => false,
                }
            },
            TriggerCondition::LifeGained { player } => {
                match event {
                    GameEvent::LifeGained { player: event_player, .. } => self.trigger_player_matches(
                        definition,
                        player,
                        event_player,
                    ),
                    _ => false,
                }
            },
            TriggerCondition::DamageMarked { object } => {
                match event {
                    GameEvent::DamageMarked { object: event_object, .. } => self.trigger_object_matches(
                        definition,
                        object,
                        event_object,
                    ),
                    _ => false,
                }
            },
            TriggerCondition::StackEntryResolved { kind, outcome } => {
                match event {
                    GameEvent::StackEntryResolved { entry, outcome: event_outcome } => {
                        let kind_matches = match kind {
                            None => true,
                            Some(expected) => {
                                let mut found = false;
                                let mut matched = false;
                                let mut i: usize = 0;
                                let ghost log = self.resolution_log@;
                                assert(log.skip(0) =~= log);
                                while i < self.resolution_log.len() && !found
                                    invariant
                                        i <= self.resolution_log@.len(),
                                        log == self.resolution_log@,
                                        !found ==> first_resolved_kind(log, entry) == first_resolved_kind(
                                            log.skip(i as int),
                                            entry,
                                        ),
                                        found ==> (first_resolved_kind(log, entry) == Some(expected)) == matched,
                                        !found ==> !matched,
                                    decreases self.resolution_log@.len() - i,
                                {
                                    proof {
                                        assert(log.skip(i as int)[0] == log[i as int]);
                                        assert(log.skip(i as int).drop_first() =~= log.skip(i + 1));
                                    }
                                    if self.resolution_log[i].stack_entry == entry {
                                        found = true;
                                        matched = self.resolution_log[i].kind == expected;
                                    }
                                    i = i + 1;
                                }
                                proof {
                                    if !found {
                                        assert(log.skip(i as int).len() == 0);
                                        assert(first_resolved_kind(log, entry) is None);
                                    }
                                }
                                matched
                            },
                        };
                        let outcome_matches = match outcome {
                            None => true,
                            Some(expected) => expected == event_outcome,
                        };
                        kind_matches && outcome_matches
                    },
                    _ => false,
                }
            },
        }
    }

    /// Returns true when the trigger's intervening-if condition holds now.
    pub(crate) fn trigger_intervening_if_matches(&self, definition: TriggerDefinition) -> (r: bool)
        ensures
            definition.intervening_if == TriggerInterveningIf::Always ==> r,
            definition.intervening_if matches TriggerInterveningIf::ControllerLifeAtMost(max_life)
                ==> r == (definition.controller.0 < self.players@.len()
                && self.players@[definition.controller.0 as int].life <= max_life),
    {
        match definition.intervening_if() {
            TriggerInterveningIf::Always => true,
            TriggerInterveningIf::SourceInZone(zone) => match definition.source() {
                Some(source) => self.object_zone(source) == Some(zone),
                None => false,
            },
            TriggerInterveningIf::ControllerControlsSource => match definition.source() {
                Some(source) => match self.object_controller(source) {
                    Ok(controller) => controller == definition.controller(),
                    Err(_) => false,
                },
                None => false,
            },
            TriggerInterveningIf::ControllerLifeAtMost(max_life) => {
                let i = definition.controller().index();
                i < self.players.len() && self.players[i].life <= max_life
            },
        }
    }

    /// Queues every registered trigger that the recorded event satisfies,
    /// retiring delayed triggers once they queue.
    pub(crate) fn queue_triggered_abilities(&mut self, record: EventRecord)
        ensures
            same_but_events(*old(self), *final(self)),
            old(self).trigger_subscriptions@.len() == 0 ==> final(self).pending_triggers@
                == old(self).pending_triggers@,
            old(self).trigger_subscriptions@.len() == 0 ==> *final(self) == *old(self),
            final(self).pending_triggers@.subrange(0, old(self).pending_triggers@.len() as int)
                == old(self).pending_triggers@,
            exists|fired: Seq<bool>|
                fired.len() == old(self).trigger_subscriptions@.len() && final(self).pending_triggers@
                    == old(self).pending_triggers@ + queued_for(old(self).trigger_subscriptions@, fired, record)
                    && (final(self).turn_events@, final(self).next_event_sequence) == queued_log(
                    old(self).turn_events@,
                    old(self).next_event_sequence,
                    old(self).turn_number,
                    queued_for(old(self).trigger_subscriptions@, fired, record),
                ) && forall|k: int|
                    0 <= k < fired.len() ==> firing_fits(
                        old(self).trigger_subscriptions@[k],
                        record.event,
                        old(self).resolution_log@,
                        #[trigger] fired[k],
                    ),
    {
        if self.trigger_subscriptions.len() == 0 {
            assert(self.pending_triggers@ =~= self.pending_triggers@ + queued_for(
                self.trigger_subscriptions@,
                Seq::<bool>::empty(),
                record,
            ));
            return;
        }
        let event = record.event;
        let kind = event.kind();
        let ghost subs = self.trigger_subscriptions@;
        let ghost mut fired: Seq<bool> = Seq::empty();
        let mut queued: Vec<PendingTriggeredAbility> = Vec::new();
        let mut consumed: Vec<TriggerId> = Vec::new();
        let mut i: usize = 0;
        assert(subs.take(0) =~= Seq::<TriggerSubscription>::empty());
        while i < self.trigger_subscriptions.len()
            invariant
                i <= self.trigger_subscriptions@.len(),
                subs == self.trigger_subscriptions@,
                *self == *old(self),
                event == record.event,
                kind == event.spec_kind(),
                fired.len() == i,
                queued@ == queued_for(subs.take(i as int), fired, record),
                forall|k: int| 0 <= k < i ==> firing_fits(subs[k], event, self.resolution_log@, #[trigger] fired[k]),
            decreases self.trigger_subscriptions@.len() - i,
        {
            let subscription = self.trigger_subscriptions[i];
            let fires = subscription.event_kind == kind && self.trigger_condition_matches(
                subscription.definition,
                event,
            ) && self.trigger_intervening_if_matches(subscription.definition);
            proof {
                let next = subs.take(i + 1);
                assert(next.drop_last() =~= subs.take(i as int));
                assert(next.last() == subscription);
                assert(fired.push(fires).drop_last() =~= fired);
                fired = fired.push(fires);
            }
            if fires {
                queued.push(
                    PendingTriggeredAbility {
                        trigger: subscription.id,
                        controller: subscription.definition.controller(),
                        source: subscription.definition.source(),
                        event_sequence: record.sequence,
                        event_turn: record.turn,
                    },
                );
                if subscription.definition.duration() == TriggerDuration::DelayedOnce {
                    consumed.push(subscription.id);
                }
            }
            i = i + 1;
        }
        assert(subs.take(subs.len() as int) =~= subs);
        if consumed.len() > 0 {
            let mut kept: Vec<TriggerSubscription> = Vec::new();
            let mut j: usize = 0;
            while j < self.trigger_subscriptions.len()
                invariant
                    j <= self.trigger_subscriptions@.len(),
                decreases self.trigger_subscriptions@.len() - j,
            {
                let subscription = self.trigger_subscriptions[j];
                if !contains_trigger_id(&consumed, subscription.id) {
                    kept.push(subscription);
                }
                j = j + 1;
            }
            self.trigger_subscriptions = kept;
        }
        let ghost start = old(self).pending_triggers@;
        assert(self.pending_triggers@ =~= start + queued@.take(0));
        let mut q: usize = 0;
        while q < queued.len()
            invariant
                q <= queued@.len(),
                same_but_events(*old(self), *self),
                self.pending_triggers@.subrange(0, start.len() as int) == start,
                start.len() <= self.pending_triggers@.len(),
                self.pending_triggers@ == start + queued@.take(q as int),
                (self.turn_events@, self.next_event_sequence) == queued_log(
                    old(self).turn_events@,
                    old(self).next_event_sequence,
                    old(self).turn_number,
                    queued@.take(q as int),
                ),
            decreases queued@.len() - q,
        {
            let trigger = queued[q];
            let ghost before = self.pending_triggers@;
            proof {
                assert(queued@.take(q + 1).drop_last() =~= queued@.take(q as int));
            }
            self.pending_triggers.push(trigger);
            assert(self.pending_triggers@ =~= start + queued@.take(q + 1));
            assert(self.pending_triggers@.subrange(0, start.len() as int) =~= start) by {
                assert forall|k: int| 0 <= k < start.len() implies self.pending_triggers@[k] == start[k] by {
                    assert(before.subrange(0, start.len() as int)[k] == start[k]);
                }
            }
            self.emit_event_without_triggers(
                GameEvent::TriggeredAbilityQueued {
                    trigger: trigger.trigger,
                    controller: trigger.controller,
                    event_sequence: trigger.event_sequence,
                },
            );
            q = q + 1;
        }
        assert(queued@.take(queued@.len() as int) =~= queued@);
        assert(fired.len() == old(self).trigger_subscriptions@.len());
    }

    /// Registers one data-only triggered ability subscription.
    pub fn register_triggered_ability(&mut self, definition: TriggerDefinition) -> (r: Result<
        TriggerId,
        StateError,
    >)
        ensures
            zones_conserved(*old(self)) ==> zones_conserved(*final(self)),
            events_bounded(*old(self)) ==> events_bounded(*final(self)),
            definition.controller.0 >= old(self).players@.len() ==> r == Err::<TriggerId, StateError>(
                StateError::UnknownPlayer(definition.controller),
            ),
            r matches Ok(id) ==> id.0 == old(self).next_trigger
                && final(self).trigger_subscriptions@ == old(self).trigger_subscriptions@.push(
                TriggerSubscription {
                    id,
                    definition,
                    event_kind: definition.condition.spec_subscribed_event_kind(),
                },
            ),
            r is Err ==> final(self).trigger_subscriptions@ == old(self).trigger_subscriptions@,
            r is Ok <==> definition.controller.0 < old(self).players@.len() && (definition.source is Some
                ==> old(self).objects.spec_get(definition.source->0) is Some),
    {
        match self.require_player(definition.controller()) {
            Ok(()) => {},
            Err(e) => return Err(e),
        }
        if let Some(source) = definition.source() {
            if self.objects.get(source).is_none() {
                return Err(StateError::UnknownObject(source));
            }
        }
        let id = TriggerId(self.next_trigger);
        self.next_trigger = self.next_trigger.saturating_add(1);
        let event_kind = definition.condition().subscribed_event_kind();
        self.trigger_subscriptions.push(TriggerSubscription { id, definition, event_kind });
        self.emit_event_without_triggers(
            GameEvent::TriggeredAbilityRegistered {
                trigger: id,
                controller: definition.controller(),
                source: definition.source(),
                event_kind,
                duration: definition.duration(),
            },
        );
        Ok(id)
    }
}

/// Returns true when `id` occurs in `ids`.
pub(crate) fn contains_trigger_id(ids: &Vec<TriggerId>, id: TriggerId) -> (r: bool)
    ensures
        r == ids@.contains(id),
{
    let mut i: usize = 0;
    while i < ids.len()
        invariant
            i <= ids@.len(),
            forall|j: int| 0 <= j < i ==> ids@[j] != id,
        decreases ids@.len() - i,
    {
        if ids[i] == id {
            return true;
        }
        i = i + 1;
    }
    false
}

} // verus!
