//! Replacement and prevention effects on damage: registration, choice
//! orders, matching, the deterministic application order and the
//! arithmetic of each operation.

use vstd::prelude::*;

use crate::abilities::{
    ReplacementChoiceOrder, ReplacementCondition, ReplacementDamageTargetFilter,
    ReplacementDefinition, ReplacementDuration, ReplacementOperation, ReplacementSourceFilter,
};
use crate::combat::CombatDamageTarget;
use crate::events::GameEvent;
use crate::ids::{ObjectId, PlayerId, ReplacementEffectId};
use crate::plumbing::events_bounded;
use crate::state::{
    DamageReplacementEvent, GameState, ReplacementSubscription, StateError, same_but_events,
    same_but_events_and_replacements,
};

verus! {

/// Damage after one replacement operation, or `None` when it would not fit
/// in `u32`.
pub open spec fn replaced_amount(operation: ReplacementOperation, amount: u32) -> Option<u32> {
    match operation {
        ReplacementOperation::PreventAllDamage => Some(0u32),
        ReplacementOperation::PreventDamage(prevented) => Some(
            if amount >= prevented {
                (amount - prevented) as u32
            } else {
                0u32
            },
        ),
        ReplacementOperation::AddDamage(added) => if amount + added <= u32::MAX {
            Some((amount + added) as u32)
        } else {
            None
        },
        ReplacementOperation::DoubleDamage => if 2 * amount <= u32::MAX {
            Some((2 * amount) as u32)
        } else {
            None
        },
        ReplacementOperation::SetDamage(replacement) => Some(replacement),
    }
}

/// What each replacement operation does to an amount of damage `a`:
/// `AddDamage(n)` deals `n` more, `DoubleDamage` deals `a` more,
/// `PreventDamage(n)` takes away `n` but never more than `a`,
/// `PreventAllDamage` leaves none, and `SetDamage(m)` deals `m` whatever `a`
/// was. Only the increasing operations can fail, exactly when the increased
/// amount does not fit in `u32`.
pub proof fn lemma_replacement_operations_change_damage_as_named(operation: ReplacementOperation, a: u32)
    ensures
        operation matches ReplacementOperation::AddDamage(n) ==> {
            &&& replaced_amount(operation, a) is Some <==> a + n <= u32::MAX
            &&& replaced_amount(operation, a) matches Some(v) ==> v - a == n
        },
        operation is DoubleDamage ==> {
            &&& replaced_amount(operation, a) is Some <==> a + a <= u32::MAX
            &&& replaced_amount(operation, a) matches Some(v) ==> v - a == a
        },
        operation matches ReplacementOperation::PreventDamage(n) ==> replaced_amount(operation, a) matches Some(v)
            && v <= a && (n <= a ==> a - v == n) && (n > a ==> v == 0),
        operation is PreventAllDamage ==> replaced_amount(operation, a) == Some(0u32),
        operation matches ReplacementOperation::SetDamage(m) ==> forall|b: u32|
            replaced_amount(operation, a) == Some(m) && #[trigger] replaced_amount(operation, b) == Some(m),
{
}

/// Whether a replacement's source filter accepts a damage source.
pub open spec fn replacement_source_accepts(
    definition: ReplacementDefinition,
    filter: ReplacementSourceFilter,
    source: Option<ObjectId>,
) -> bool {
    match filter {
        ReplacementSourceFilter::Any => true,
        ReplacementSourceFilter::Source => source == definition.source,
        ReplacementSourceFilter::Object(expected) => source == Some(expected),
    }
}

/// Whether a replacement's target filter accepts a damage target.
pub open spec fn replacement_target_accepts(
    filter: ReplacementDamageTargetFilter,
    target: CombatDamageTarget,
) -> bool {
    match filter {
        ReplacementDamageTargetFilter::Any => true,
        ReplacementDamageTargetFilter::Player(expected) => target == CombatDamageTarget::Player(
            expected,
        ),
        ReplacementDamageTargetFilter::Object(expected) => target == CombatDamageTarget::Object(
            expected,
        ),
    }
}

/// Whether a replacement definition applies to a damage event.
pub open spec fn replacement_applies(
    definition: ReplacementDefinition,
    event: DamageReplacementEvent,
) -> bool {
    match definition.condition {
        ReplacementCondition::DamageWouldBeDealt { source, target, combat_only } => {
            &&& (!combat_only || event.combat)
            &&& replacement_source_accepts(definition, source, event.source)
            &&& replacement_target_accepts(target, event.target)
        },
    }
}

/// `i` is the first choice order stored for `chooser`.
pub open spec fn first_order_for(orders: Seq<ReplacementChoiceOrder>, chooser: PlayerId, i: int) -> bool {
    &&& 0 <= i < orders.len()
    &&& orders[i].chooser == chooser
    &&& forall|k: int| 0 <= k < i ==> (#[trigger] orders[k]).chooser != chooser
}

/// `j` is the first position of `id` in `order`.
pub open spec fn first_position_of(order: Seq<ReplacementEffectId>, id: ReplacementEffectId, j: int) -> bool {
    &&& 0 <= j < order.len()
    &&& order[j] == id
    &&& forall|k: int| 0 <= k < j ==> #[trigger] order[k] != id
}

/// Rank of `id` in the chooser's stated order; unranked effects come last.
pub open spec fn order_rank(orders: Seq<ReplacementChoiceOrder>, chooser: PlayerId, id: ReplacementEffectId) -> int {
    if exists|i: int| first_order_for(orders, chooser, i) {
        let i = choose|i: int| first_order_for(orders, chooser, i);
        if exists|j: int| first_position_of(orders[i].order@, id, j) {
            choose|j: int| first_position_of(orders[i].order@, id, j)
        } else {
            usize::MAX as int
        }
    } else {
        usize::MAX as int
    }
}

/// Application order key: self-replacement effects first, then the chooser's
/// rank, then registration ID.
pub open spec fn replacement_key_le(
    orders: Seq<ReplacementChoiceOrder>,
    chooser: PlayerId,
    a: ReplacementSubscription,
    b: ReplacementSubscription,
) -> bool {
    let sa: int = if a.definition.self_replacement { 0 } else { 1 };
    let sb: int = if b.definition.self_replacement { 0 } else { 1 };
    let ra = order_rank(orders, chooser, a.id);
    let rb = order_rank(orders, chooser, b.id);
    ||| sa < sb
    ||| (sa == sb && ra < rb)
    ||| (sa == sb && ra == rb && a.id.0 <= b.id.0)
}

/// Subscription `s` is still eligible for an event.
pub open spec fn replacement_eligible(
    s: ReplacementSubscription,
    event: DamageReplacementEvent,
    applied: Seq<ReplacementEffectId>,
) -> bool {
    !applied.contains(s.id) && replacement_applies(s.definition, event)
}

/// The player whose choices order replacements of damage to `target`.
pub open spec fn damage_chooser(state: GameState, target: CombatDamageTarget) -> Option<PlayerId> {
    match target {
        CombatDamageTarget::Player(player) => if player.0 < state.players@.len() {
            Some(player)
        } else {
            None
        },
        CombatDamageTarget::Object(object) => match state.objects.spec_get(object) {
            Some(record) => Some(record.controller),
            None => None,
        },
    }
}

/// No two registered replacement effects share an ID.
pub open spec fn replacement_ids_distinct(effects: Seq<ReplacementSubscription>) -> bool {
    forall|i: int, j: int| 0 <= i < j < effects.len() ==> #[trigger] effects[i].id != #[trigger] effects[j].id
}

/// Effect `b` is the eligible replacement that applies first to `event`.
pub open spec fn applies_first(
    state: GameState,
    event: DamageReplacementEvent,
    chooser: PlayerId,
    applied: Seq<ReplacementEffectId>,
    b: int,
) -> bool {
    let effects = state.replacement_effects@;
    &&& 0 <= b < effects.len()
    &&& replacement_eligible(effects[b], event, applied)
    &&& forall|i: int|
        0 <= i < effects.len() && replacement_eligible(#[trigger] effects[i], event, applied) ==> replacement_key_le(
            state.replacement_choice_orders@,
            chooser,
            effects[b],
            effects[i],
        )
}

/// The damage of `event` once the replacements that apply have applied,
/// each at most once, in application order, for at most `fuel` more of
/// them and while any damage is left; `None` when an amount would not fit
/// in `u32`.
pub open spec fn replaced_damage(
    state: GameState,
    event: DamageReplacementEvent,
    chooser: PlayerId,
    applied: Seq<ReplacementEffectId>,
    fuel: nat,
) -> Option<u32>
    decreases fuel,
{
    if fuel == 0 || event.amount == 0 {
        Some(event.amount)
    } else if exists|b: int| applies_first(state, event, chooser, applied, b) {
        let b = choose|b: int| applies_first(state, event, chooser, applied, b);
        let s = state.replacement_effects@[b];
        match replaced_amount(s.definition.operation, event.amount) {
            None => None,
            Some(v) => replaced_damage(
                state,
                DamageReplacementEvent { amount: v, ..event },
                chooser,
                applied.push(s.id),
                (fuel - 1) as nat,
            ),
        }
    } else {
        Some(event.amount)
    }
}

/// With a single registered replacement effect that applies to a positive
/// amount of damage, the damage dealt is what that effect's operation makes
/// of the amount; with none that applies, the amount is dealt unchanged.
pub proof fn lemma_single_replacement_decides_damage(
    state: GameState,
    event: DamageReplacementEvent,
    chooser: PlayerId,
    fuel: nat,
)
    requires
        state.replacement_effects@.len() == 1,
        fuel >= 1,
    ensures
        event.amount > 0 && replacement_applies(state.replacement_effects@[0].definition, event)
            ==> replaced_damage(state, event, chooser, Seq::empty(), fuel) == replaced_amount(
            state.replacement_effects@[0].definition.operation,
            event.amount,
        ),
        !replacement_applies(state.replacement_effects@[0].definition, event) ==> replaced_damage(
            state,
            event,
            chooser,
            Seq::empty(),
            fuel,
        ) == Some(event.amount),
{
    let effects = state.replacement_effects@;
    let s = effects[0];
    let none = Seq::<ReplacementEffectId>::empty();
    if event.amount > 0 && replacement_applies(s.definition, event) {
        assert(replacement_eligible(s, event, none));
        assert(applies_first(state, event, chooser, none, 0));
        let b = choose|b: int| applies_first(state, event, chooser, none, b);
        assert(b == 0);
        match replaced_amount(s.definition.operation, event.amount) {
            None => {},
            Some(v) => {
                let next = DamageReplacementEvent { amount: v, ..event };
                let applied = none.push(s.id);
                assert(applied[0] == s.id);
                assert(applied.contains(s.id));
                assert(!exists|c: int| applies_first(state, next, chooser, applied, c));
                assert(replaced_damage(state, next, chooser, applied, (fuel - 1) as nat) == Some(v));
            },
        }
    } else if !replacement_applies(s.definition, event) {
        if event.amount > 0 {
            assert(!exists|c: int| applies_first(state, event, chooser, none, c));
        }
    }
}

/// The IDs of the replacements applied to `event`, in order, after
/// `applied`, under the same rules as `replaced_damage`.
pub open spec fn replacements_applied(
    state: GameState,
    event: DamageReplacementEvent,
    chooser: PlayerId,
    applied: Seq<ReplacementEffectId>,
    fuel: nat,
) -> Seq<ReplacementEffectId>
    decreases fuel,
{
    if fuel == 0 || event.amount == 0 {
        applied
    } else if exists|b: int| applies_first(state, event, chooser, applied, b) {
        let b = choose|b: int| applies_first(state, event, chooser, applied, b);
        let s = state.replacement_effects@[b];
        match replaced_amount(s.definition.operation, event.amount) {
            None => applied,
            Some(v) => replacements_applied(
                state,
                DamageReplacementEvent { amount: v, ..event },
                chooser,
                applied.push(s.id),
                (fuel - 1) as nat,
            ),
        }
    } else {
        applied
    }
}

/// With distinct IDs only one replacement applies first.
proof fn lemma_applies_first_unique(
    state: GameState,
    event: DamageReplacementEvent,
    chooser: PlayerId,
    applied: Seq<ReplacementEffectId>,
    b: int,
    c: int,
)
    requires
        replacement_ids_distinct(state.replacement_effects@),
        applies_first(state, event, chooser, applied, b),
        applies_first(state, event, chooser, applied, c),
    ensures
        b == c,
{
    let effects = state.replacement_effects@;
    assert(replacement_key_le(state.replacement_choice_orders@, chooser, effects[b], effects[c]));
    assert(replacement_key_le(state.replacement_choice_orders@, chooser, effects[c], effects[b]));
    assert(effects[b].id.0 == effects[c].id.0);
    if b < c {
        assert(effects[b].id != effects[c].id);
    } else if c < b {
        assert(effects[c].id != effects[b].id);
    }
}

/// Some registered replacement effect carries `id`.
pub open spec fn replacement_registered(effects: Seq<ReplacementSubscription>, id: ReplacementEffectId) -> bool {
    exists|k: int| 0 <= k < effects.len() && effects[k].id == id
}

/// Returns true when `id` is among `ids`.
pub(crate) fn contains_replacement_id(ids: &Vec<ReplacementEffectId>, id: ReplacementEffectId) -> (r:
    bool)
    ensures
        r == ids@.contains(id),
{
    let mut i: usize = 0;
    while i < ids.len()
        invariant
            i <= ids@.len(),
            forall|k: int| 0 <= k < i ==> ids@[k] != id,
        decreases ids@.len() - i,
    {
        if ids[i] == id {
            assert(ids@[i as int] == id);
            return true;
        }
        i = i + 1;
    }
    false
}

impl GameState {
    /// Fails unless every player and object the definition names exists.
    pub(crate) fn validate_replacement_definition(&self, definition: ReplacementDefinition) -> (r:
        Result<(), StateError>)
        ensures
            r is Ok <==> self.validate_replacement_definition_spec(definition),
    {
        match self.require_player(definition.controller) {
            Ok(()) => {},
            Err(e) => return Err(e),
        }
        if let Some(source) = definition.source {
            if self.objects.get(source).is_none() {
                return Err(StateError::UnknownObject(source));
            }
        }
        match definition.condition {
            ReplacementCondition::DamageWouldBeDealt { source, target, .. } => {
                if let ReplacementSourceFilter::Object(object) = source {
                    if self.objects.get(object).is_none() {
                        return Err(StateError::UnknownObject(object));
                    }
                }
                match target {
                    ReplacementDamageTargetFilter::Any => {},
                    ReplacementDamageTargetFilter::Player(player) => {
                        match self.require_player(player) {
                            Ok(()) => {},
                            Err(e) => return Err(e),
                        }
                    },
                    ReplacementDamageTargetFilter::Object(object) => {
                        if self.objects.get(object).is_none() {
                            return Err(StateError::UnknownObject(object));
                        }
                    },
                }
            },
        }
        Ok(())
    }

    /// Registers one data-only replacement/prevention effect.
    pub fn register_replacement_effect(&mut self, definition: ReplacementDefinition) -> (r: Result<
        ReplacementEffectId,
        StateError,
    >)
        ensures
            events_bounded(*old(self)) ==> events_bounded(*final(self)),
            r is Ok <==> old(self).validate_replacement_definition_spec(definition),
            r is Err ==> *final(self) == *old(self),
            r matches Ok(id) ==> {
                &&& id == ReplacementEffectId(old(self).next_replacement)
                &&& final(self).replacement_effects@ == old(self).replacement_effects@.push(
                    (ReplacementSubscription { id, definition }),
                )
                &&& final(self).next_replacement == (if old(self).next_replacement < u32::MAX {
                    (old(self).next_replacement + 1) as u32
                } else {
                    u32::MAX
                })
                &&& final(self).players@ == old(self).players@
                &&& final(self).objects.records@ == old(self).objects.records@
                &&& final(self).zones@ == old(self).zones@
            },
    {
        match self.validate_replacement_definition(definition) {
            Ok(()) => {},
            Err(e) => return Err(e),
        }
        let id = ReplacementEffectId(self.next_replacement);
        self.next_replacement = self.next_replacement.saturating_add(1);
        self.replacement_effects.push(ReplacementSubscription { id, definition });
        self.emit_event_without_triggers(
            GameEvent::ReplacementEffectRegistered {
                replacement: id,
                controller: definition.controller,
                source: definition.source,
                operation: definition.operation,
                duration: definition.duration,
                self_replacement: definition.self_replacement,
            },
        );
        Ok(id)
    }

    /// The condition under which a replacement definition is accepted.
    pub open spec fn validate_replacement_definition_spec(self, definition: ReplacementDefinition) -> bool {
        &&& definition.controller.0 < self.players@.len()
        &&& definition.source matches Some(s) ==> self.objects.spec_get(s) is Some
        &&& match definition.condition {
            ReplacementCondition::DamageWouldBeDealt { source, target, .. } => {
                &&& source matches ReplacementSourceFilter::Object(o) ==> self.objects.spec_get(
                    o,
                ) is Some
                &&& target matches ReplacementDamageTargetFilter::Player(p) ==> p.0
                    < self.players@.len()
                &&& target matches ReplacementDamageTargetFilter::Object(o) ==> self.objects.spec_get(
                    o,
                ) is Some
            },
        }
    }

    /// Returns true when a replacement effect with this ID is registered.
    pub(crate) fn replacement_effect_exists(&self, id: ReplacementEffectId) -> (r: bool)
        ensures
            r == replacement_registered(self.replacement_effects@, id),
    {
        let mut i: usize = 0;
        while i < self.replacement_effects.len()
            invariant
                i <= self.replacement_effects@.len(),
                forall|k: int| 0 <= k < i ==> #[trigger] self.replacement_effects@[k].id != id,
            decreases self.replacement_effects@.len() - i,
        {
            if self.replacement_effects[i].id == id {
                return true;
            }
            i = i + 1;
        }
        false
    }

    /// Stores the chooser's ordering preference for simultaneous replacements.
    pub fn set_replacement_choice_order(&mut self, chooser: PlayerId, order: Vec<ReplacementEffectId>) -> (r:
        Result<(), StateError>)
        ensures
            chooser.0 >= old(self).players@.len() ==> r == Err::<(), StateError>(
                StateError::UnknownPlayer(chooser),
            ),
            r is Ok <==> {
                &&& chooser.0 < old(self).players@.len()
                &&& forall|i: int, j: int|
                    0 <= i < j < order@.len() ==> order@[i] != order@[j]
                &&& forall|i: int|
                    0 <= i < order@.len() ==> replacement_registered(
                        old(self).replacement_effects@,
                        #[trigger] order@[i],
                    )
            },
            r is Err ==> *final(self) == *old(self),
            r is Ok ==> exists|i: int|
                #[trigger] first_order_for(final(self).replacement_choice_orders@, chooser, i)
                    && final(self).replacement_choice_orders@[i].order@ == order@,
            r is Ok ==> forall|i: int|
                0 <= i < old(self).replacement_choice_orders@.len()
                    && old(self).replacement_choice_orders@[i].chooser != chooser
                    ==> #[trigger] final(self).replacement_choice_orders@[i]
                    == old(self).replacement_choice_orders@[i],
            r is Ok ==> same_but_events(
                *old(self),
                (GameState { replacement_choice_orders: old(self).replacement_choice_orders, ..*final(self) }),
            ),
    {
        match self.require_player(chooser) {
            Ok(()) => {},
            Err(e) => return Err(e),
        }
        let mut seen: Vec<ReplacementEffectId> = Vec::new();
        let mut i: usize = 0;
        while i < order.len()
            invariant
                i <= order@.len(),
                *self == *old(self),
                chooser.0 < self.players@.len(),
                seen@ == order@.subrange(0, i as int),
                forall|a: int, b: int| 0 <= a < b < i ==> order@[a] != order@[b],
                forall|a: int|
                    0 <= a < i ==> replacement_registered(self.replacement_effects@, #[trigger] order@[a]),
            decreases order@.len() - i,
        {
            let replacement = order[i];
            if contains_replacement_id(&seen, replacement) {
                proof {
                    let a = choose|a: int| 0 <= a < seen@.len() && seen@[a] == replacement;
                    assert(order@[a] == order@[i as int]);
                }
                return Err(StateError::DuplicateReplacementEffect(replacement));
            }
            if !self.replacement_effect_exists(replacement) {
                return Err(StateError::UnknownReplacementEffect(replacement));
            }
            seen.push(replacement);
            proof {
                assert(seen@ =~= order@.subrange(0, i + 1));
                assert forall|a: int, b: int| 0 <= a < b < i + 1 implies order@[a] != order@[b] by {
                    if b == i {
                        assert(order@.subrange(0, i as int)[a] == order@[a]);
                    }
                }
            }
            i = i + 1;
        }
        let ghost old_orders = self.replacement_choice_orders@;
        let mut found = false;
        let mut p: usize = 0;
        while p < self.replacement_choice_orders.len() && !found
            invariant
                p <= self.replacement_choice_orders@.len(),
                *self == *old(self),
                chooser.0 < old(self).players@.len(),
                forall|a: int, b: int| 0 <= a < b < order@.len() ==> order@[a] != order@[b],
                forall|a: int|
                    0 <= a < order@.len() ==> replacement_registered(
                        old(self).replacement_effects@,
                        #[trigger] order@[a],
                    ),
                self.replacement_choice_orders@ == old_orders,
                forall|k: int| 0 <= k < p ==> (#[trigger] old_orders[k]).chooser != chooser,
                found ==> p < old_orders.len() && old_orders[p as int].chooser == chooser,
            decreases old_orders.len() - p + (if found {
                0int
            } else {
                1int
            }),
        {
            if self.replacement_choice_orders[p].chooser == chooser {
                found = true;
            } else {
                p = p + 1;
            }
        }
        let count: u32;
        if found {
            let ghost before = self.replacement_choice_orders@;
            let n = order.len();
            self.replacement_choice_orders.set(p, ReplacementChoiceOrder::new(chooser, order));
            count = if n > u32::MAX as usize {
                u32::MAX
            } else {
                n as u32
            };
            assert(first_order_for(self.replacement_choice_orders@, chooser, p as int));
        } else {
            let n = order.len();
            self.replacement_choice_orders.push(ReplacementChoiceOrder::new(chooser, order));
            count = if n > u32::MAX as usize {
                u32::MAX
            } else {
                n as u32
            };
            assert(first_order_for(self.replacement_choice_orders@, chooser, p as int));
        }
        self.emit_event_without_triggers(GameEvent::ReplacementChoiceOrderSet { chooser, count });
        Ok(())
    }

    /// Rank of `id` in the chooser's stated order; `usize::MAX` when unranked.
    pub(crate) fn replacement_order_rank(&self, chooser: PlayerId, id: ReplacementEffectId) -> (r:
        usize)
        ensures
            r as int == order_rank(self.replacement_choice_orders@, chooser, id),
    {
        let orders = &self.replacement_choice_orders;
        let mut i: usize = 0;
        while i < orders.len()
            invariant
                i <= orders@.len(),
                orders@ == self.replacement_choice_orders@,
                forall|k: int| 0 <= k < i ==> (#[trigger] orders@[k]).chooser != chooser,
            decreases orders@.len() - i,
        {
            if orders[i].chooser == chooser {
                assert(first_order_for(orders@, chooser, i as int));
                proof {
                    assert forall|i2: int| first_order_for(orders@, chooser, i2) implies i2
                        == i by {
                        if i2 < i {
                            assert(orders@[i2].chooser != chooser);
                        } else if i2 > i {
                            assert(orders@[i as int].chooser != chooser);
                        }
                    }
                }
                let order = &orders[i].order;
                let mut j: usize = 0;
                while j < order.len()
                    invariant
                        j <= order@.len(),
                        i < orders@.len(),
                        orders@ == self.replacement_choice_orders@,
                        first_order_for(orders@, chooser, i as int),
                        forall|i2: int| first_order_for(orders@, chooser, i2) ==> i2 == i,
                        order@ == orders@[i as int].order@,
                        forall|k: int| 0 <= k < j ==> order@[k] != id,
                    decreases order@.len() - j,
                {
                    if order[j] == id {
                        assert(first_position_of(order@, id, j as int));
                        proof {
                            assert forall|j2: int| first_position_of(order@, id, j2) implies j2
                                == j by {
                                if j2 < j {
                                    assert(order@[j2] != id);
                                } else if j2 > j {
                                    assert(order@[j as int] == id);
                                }
                            }
                            let i0 = choose|i0: int| first_order_for(orders@, chooser, i0);
                            assert(i0 == i);
                            assert(first_position_of(orders@[i0].order@, id, j as int));
                            let j0 = choose|j0: int| first_position_of(orders@[i0].order@, id, j0);
                            assert(j0 == j);
                            assert(order_rank(orders@, chooser, id) == j as int);
                        }
                        return j;
                    }
                    j = j + 1;
                }
                proof {
                    assert(!exists|j2: int| first_position_of(order@, id, j2));
                    let i0 = choose|i0: int| first_order_for(orders@, chooser, i0);
                    assert(i0 == i);
                    assert(!exists|j2: int| first_position_of(orders@[i0].order@, id, j2));
                    assert(order_rank(orders@, chooser, id) == usize::MAX as int);
                }
                return usize::MAX;
            }
            i = i + 1;
        }
        assert(!exists|i2: int| first_order_for(orders@, chooser, i2));
        usize::MAX
    }

    /// Whether a replacement definition applies to a damage event.
    pub(crate) fn replacement_condition_matches(
        &self,
        definition: ReplacementDefinition,
        event: DamageReplacementEvent,
    ) -> (r: bool)
        ensures
            r == replacement_applies(definition, event),
    {
        match definition.condition {
            ReplacementCondition::DamageWouldBeDealt { source, target, combat_only } => {
                (!combat_only || event.combat) && Self::replacement_source_matches(
                    definition,
                    source,
                    event.source,
                ) && Self::replacement_target_matches(target, event.target)
            },
        }
    }

    /// Whether a replacement's source filter accepts a damage source.
    pub(crate) fn replacement_source_matches(
        definition: ReplacementDefinition,
        filter: ReplacementSourceFilter,
        source: Option<ObjectId>,
    ) -> (r: bool)
        ensures
            r == replacement_source_accepts(definition, filter, source),
    {
        match filter {
            ReplacementSourceFilter::Any => true,
            ReplacementSourceFilter::Source => match (source, definition.source) {
                (None, None) => true,
                (Some(a), Some(b)) => a == b,
                _ => false,
            },
            ReplacementSourceFilter::Object(expected) => match source {
                Some(a) => a == expected,
                None => false,
            },
        }
    }

    /// Whether a replacement's target filter accepts a damage target.
    pub(crate) fn replacement_target_matches(
        filter: ReplacementDamageTargetFilter,
        target: CombatDamageTarget,
    ) -> (r: bool)
        ensures
            r == replacement_target_accepts(filter, target),
    {
        match (filter, target) {
            (ReplacementDamageTargetFilter::Any, _) => true,
            (
                ReplacementDamageTargetFilter::Player(expected),
                CombatDamageTarget::Player(player),
            ) => player == expected,
            (
                ReplacementDamageTargetFilter::Object(expected),
                CombatDamageTarget::Object(object),
            ) => object == expected,
            (ReplacementDamageTargetFilter::Player(_), CombatDamageTarget::Object(_)) => false,
            (ReplacementDamageTargetFilter::Object(_), CombatDamageTarget::Player(_)) => false,
        }
    }

    /// The player whose replacement ordering applies to damage to `target`.
    pub(crate) fn damage_replacement_chooser(&self, target: CombatDamageTarget) -> (r: Result<
        PlayerId,
        StateError,
    >)
        ensures
            r is Ok <==> damage_chooser(*self, target) is Some,
            r matches Ok(p) ==> damage_chooser(*self, target) == Some(p),
            r is Err ==> r == Err::<PlayerId, StateError>(match target {
                CombatDamageTarget::Player(p) => StateError::UnknownPlayer(p),
                CombatDamageTarget::Object(o) => StateError::UnknownObject(o),
            }),
    {
        match target {
            CombatDamageTarget::Player(player) => {
                match self.require_player(player) {
                    Ok(()) => Ok(player),
                    Err(e) => Err(e),
                }
            },
            CombatDamageTarget::Object(object) => match self.objects.get(object) {
                Some(record) => Ok(record.controller),
                None => Err(StateError::UnknownObject(object)),
            },
        }
    }

    /// The first eligible replacement in application order, if any.
    pub(crate) fn next_damage_replacement(
        &self,
        event: DamageReplacementEvent,
        chooser: PlayerId,
        applied: &Vec<ReplacementEffectId>,
    ) -> (r: Option<usize>)
        ensures
            r is None <==> forall|i: int|
                0 <= i < self.replacement_effects@.len() ==> !replacement_eligible(
                    #[trigger] self.replacement_effects@[i],
                    event,
                    applied@,
                ),
            r matches Some(b) ==> {
                &&& b < self.replacement_effects@.len()
                &&& replacement_eligible(self.replacement_effects@[b as int], event, applied@)
                &&& forall|i: int|
                    0 <= i < self.replacement_effects@.len() && replacement_eligible(
                        #[trigger] self.replacement_effects@[i],
                        event,
                        applied@,
                    ) ==> replacement_key_le(
                        self.replacement_choice_orders@,
                        chooser,
                        self.replacement_effects@[b as int],
                        self.replacement_effects@[i],
                    )
            },
    {
        let effects = &self.replacement_effects;
        let ghost orders = self.replacement_choice_orders@;
        let mut best: Option<usize> = None;
        let mut best_self: u8 = 0;
        let mut best_rank: usize = 0;
        let mut best_id: u32 = 0;
        let mut i: usize = 0;
        while i < effects.len()
            invariant
                i <= effects@.len(),
                orders == self.replacement_choice_orders@,
                best is None <==> forall|k: int|
                    0 <= k < i ==> !replacement_eligible(#[trigger] effects@[k], event, applied@),
                best matches Some(b) ==> {
                    &&& b < i
                    &&& replacement_eligible(effects@[b as int], event, applied@)
                    &&& best_self as int == (if effects@[b as int].definition.self_replacement {
                        0int
                    } else {
                        1int
                    })
                    &&& best_rank as int == order_rank(orders, chooser, effects@[b as int].id)
                    &&& best_id == effects@[b as int].id.0
                    &&& forall|k: int|
                        0 <= k < i && replacement_eligible(#[trigger] effects@[k], event, applied@)
                            ==> replacement_key_le(orders, chooser, effects@[b as int], effects@[k])
                },
            decreases effects@.len() - i,
        {
            let s = &effects[i];
            if !contains_replacement_id(applied, s.id) && self.replacement_condition_matches(
                s.definition,
                event,
            ) {
                let self_key: u8 = if s.definition.self_replacement {
                    0
                } else {
                    1
                };
                let rank = self.replacement_order_rank(chooser, s.id);
                let better = match best {
                    None => true,
                    Some(_) => self_key < best_self || (self_key == best_self && rank < best_rank)
                        || (self_key == best_self && rank == best_rank && s.id.0 < best_id),
                };
                if better {
                    best = Some(i);
                    best_self = self_key;
                    best_rank = rank;
                    best_id = s.id.0;
                }
            }
            i = i + 1;
        }
        best
    }

    /// Damage after one replacement operation.
    pub(crate) fn apply_replacement_operation(operation: ReplacementOperation, amount: u32) -> (r:
        Result<u32, StateError>)
        ensures
            r is Ok <==> replaced_amount(operation, amount) is Some,
            r matches Ok(v) ==> replaced_amount(operation, amount) == Some(v),
            r is Err ==> r == Err::<u32, StateError>(StateError::CombatDamageOverflow),
    {
        match operation {
            ReplacementOperation::PreventAllDamage => Ok(0),
            ReplacementOperation::PreventDamage(prevented) => Ok(amount.saturating_sub(prevented)),
            ReplacementOperation::AddDamage(added) => match amount.checked_add(added) {
                Some(v) => Ok(v),
                None => Err(StateError::CombatDamageOverflow),
            },
            ReplacementOperation::DoubleDamage => match amount.checked_mul(2) {
                Some(v) => Ok(v),
                None => Err(StateError::CombatDamageOverflow),
            },
            ReplacementOperation::SetDamage(replacement) => Ok(replacement),
        }
    }

    /// Applies every matching replacement to a damage event, each at most
    /// once, in application order; once-only effects that applied are then
    /// removed.
    pub(crate) fn apply_damage_replacement_effects(&mut self, event: DamageReplacementEvent) -> (r:
        Result<DamageReplacementEvent, StateError>)
        ensures
            (event.amount == 0 || old(self).replacement_effects@.len() == 0) ==> r == Ok::<
                DamageReplacementEvent,
                StateError,
            >(event) && *final(self) == *old(self),
            event.amount > 0 && old(self).replacement_effects@.len() > 0 && damage_chooser(
                *old(self),
                event.target,
            ) is None ==> r is Err && *final(self) == *old(self),
            r matches Ok(e) ==> e.source == event.source && e.target == event.target && e.combat
                == event.combat,
            r is Ok ==> same_but_events_and_replacements(*old(self), *final(self)),
            r is Ok ==> forall|i: int|
                0 <= i < final(self).replacement_effects@.len() ==> old(self).replacement_effects@.contains(#[trigger] final(self).replacement_effects@[i]),
            r is Ok ==> forall|i: int|
                0 <= i < old(self).replacement_effects@.len()
                    && old(self).replacement_effects@[i].definition.duration
                    == ReplacementDuration::Persistent ==> final(self).replacement_effects@.contains(#[trigger] old(self).replacement_effects@[i]),
            r is Err ==> same_but_events(*old(self), *final(self)),
            replacement_ids_distinct(old(self).replacement_effects@) && damage_chooser(*old(self), event.target) is Some
                ==> ({
                let folded = replaced_damage(
                    *old(self),
                    event,
                    damage_chooser(*old(self), event.target)->0,
                    Seq::empty(),
                    old(self).replacement_effects@.len() as nat,
                );
                &&& r is Ok <==> folded is Some
                &&& r matches Ok(e) ==> folded == Some(e.amount)
                &&& r is Err ==> r == Err::<DamageReplacementEvent, StateError>(StateError::CombatDamageOverflow)
                &&& r is Ok ==> forall|x: ReplacementSubscription|
                    #[trigger] final(self).replacement_effects@.contains(x) <==> old(self).replacement_effects@.contains(x)
                        && (x.definition.duration == ReplacementDuration::Persistent || !replacements_applied(
                        *old(self),
                        event,
                        damage_chooser(*old(self), event.target)->0,
                        Seq::empty(),
                        old(self).replacement_effects@.len() as nat,
                    ).contains(x.id))
            }),
    {
        if event.amount == 0 || self.replacement_effects.len() == 0 {
            return Ok(event);
        }
        let chooser = match self.damage_replacement_chooser(event.target) {
            Ok(c) => c,
            Err(e) => return Err(e),
        };
        let ghost start = *self;
        let mut current = event;
        let mut applied: Vec<ReplacementEffectId> = Vec::new();
        let mut consumed_once: Vec<ReplacementEffectId> = Vec::new();
        let rounds = self.replacement_effects.len();
        let mut round: usize = 0;
        let mut done = false;
        while round < rounds && !done && current.amount > 0
            invariant
                round <= rounds,
                start == *old(self),
                damage_chooser(*old(self), event.target) is Some,
                event.amount > 0,
                old(self).replacement_effects@.len() > 0,
                same_but_events(start, *self),
                current.source == event.source && current.target == event.target && current.combat
                    == event.combat,
                rounds == old(self).replacement_effects@.len(),
                chooser == damage_chooser(*old(self), event.target)->0,
                replacement_ids_distinct(old(self).replacement_effects@) ==> replaced_damage(
                    *old(self),
                    event,
                    chooser,
                    Seq::empty(),
                    rounds as nat,
                ) == replaced_damage(*old(self), current, chooser, applied@, (rounds - round) as nat)
                    && replacements_applied(*old(self), event, chooser, Seq::empty(), rounds as nat)
                    == replacements_applied(*old(self), current, chooser, applied@, (rounds - round) as nat),
                replacement_ids_distinct(old(self).replacement_effects@) ==> forall|id: ReplacementEffectId|
                    #[trigger] consumed_once@.contains(id) <==> applied@.contains(id) && exists|k: int|
                        0 <= k < old(self).replacement_effects@.len() && old(self).replacement_effects@[k].id == id
                            && old(self).replacement_effects@[k].definition.duration == ReplacementDuration::Once,
                forall|k: int| 0 <= k < applied@.len() ==> #[trigger] replacement_registered(old(self).replacement_effects@, applied@[k]),
                done ==> forall|i: int|
                    0 <= i < old(self).replacement_effects@.len() ==> !replacement_eligible(
                        #[trigger] old(self).replacement_effects@[i],
                        current,
                        applied@,
                    ),
            decreases rounds - round + (if done {
                0int
            } else {
                1int
            }),
        {
            match self.next_damage_replacement(current, chooser, &applied) {
                None => {
                    done = true;
                },
                Some(index) => {
                    let subscription = self.replacement_effects[index];
                    let original_amount = current.amount;
                    let ghost before_current = current;
                    let ghost before_applied = applied@;
                    proof {
                        if replacement_ids_distinct(old(self).replacement_effects@) {
                            assert(applies_first(*old(self), current, chooser, applied@, index as int));
                            let b = choose|b: int| applies_first(*old(self), current, chooser, applied@, b);
                            lemma_applies_first_unique(*old(self), current, chooser, applied@, b, index as int);
                        }
                    }
                    let amount = match Self::apply_replacement_operation(
                        subscription.definition.operation,
                        current.amount,
                    ) {
                        Ok(v) => v,
                        Err(e) => return Err(e),
                    };
                    current.amount = amount;
                    applied.push(subscription.id);
                    proof {
                        assert(current == (DamageReplacementEvent { amount, ..before_current }));
                        assert(applied@ == before_applied.push(subscription.id));
                        assert(old(self).replacement_effects@[index as int] == subscription);
                    }
                    let ghost consumed_before = consumed_once@;
                    if subscription.definition.duration == ReplacementDuration::Once {
                        consumed_once.push(subscription.id);
                    }
                    proof {
                        if replacement_ids_distinct(old(self).replacement_effects@) {
                            let effects = old(self).replacement_effects@;
                            assert(!before_applied.contains(subscription.id));
                            assert forall|id: ReplacementEffectId| #[trigger] consumed_once@.contains(id) <==> applied@.contains(id)
                                && exists|k: int|
                                0 <= k < effects.len() && effects[k].id == id && effects[k].definition.duration
                                    == ReplacementDuration::Once by {
                                if id == subscription.id {
                                    assert(applied@[before_applied.len() as int] == id);
                                    if subscription.definition.duration == ReplacementDuration::Once {
                                        assert(consumed_once@[consumed_before.len() as int] == id);
                                        assert(effects[index as int].id == id);
                                    } else {
                                        assert(consumed_once@ == consumed_before);
                                        if consumed_before.contains(id) {
                                            assert(before_applied.contains(id));
                                        }
                                        if exists|k: int|
                                            0 <= k < effects.len() && effects[k].id == id && effects[k].definition.duration
                                                == ReplacementDuration::Once {
                                            let k = choose|k: int|
                                                0 <= k < effects.len() && effects[k].id == id && effects[k].definition.duration
                                                    == ReplacementDuration::Once;
                                            if k < index as int {
                                                assert(effects[k].id != effects[index as int].id);
                                            } else if k > index as int {
                                                assert(effects[index as int].id != effects[k].id);
                                            }
                                        }
                                    }
                                } else {
                                    if consumed_once@.contains(id) {
                                        let w = choose|w: int| 0 <= w < consumed_once@.len() && consumed_once@[w] == id;
                                        assert(consumed_before[w] == id);
                                        assert(consumed_before.contains(id));
                                        let v = choose|v: int| 0 <= v < before_applied.len() && before_applied[v] == id;
                                        assert(applied@[v] == id);
                                    }
                                    if applied@.contains(id) {
                                        let w = choose|w: int| 0 <= w < applied@.len() && applied@[w] == id;
                                        assert(before_applied[w] == id);
                                        assert(before_applied.contains(id));
                                        if consumed_before.contains(id) {
                                            let v = choose|v: int| 0 <= v < consumed_before.len() && consumed_before[v] == id;
                                            assert(consumed_once@[v] == id);
                                        }
                                    }
                                }
                            }
                        }
                        assert forall|k: int| 0 <= k < applied@.len() implies #[trigger] replacement_registered(
                            old(self).replacement_effects@,
                            applied@[k],
                        ) by {
                            if k < before_applied.len() {
                                assert(applied@[k] == before_applied[k]);
                            }
                        }
                    }
                    self.emit_event(
                        GameEvent::ReplacementEffectApplied {
                            replacement: subscription.id,
                            chooser,
                            source: current.source,
                            target: current.target,
                            operation: subscription.definition.operation,
                            original_amount,
                            resulting_amount: current.amount,
                        },
                    );
                    round = round + 1;
                },
            }
        }
        let ghost after_rounds = *self;
        proof {
            if replacement_ids_distinct(old(self).replacement_effects@) {
                assert(replacements_applied(*old(self), event, chooser, Seq::empty(), rounds as nat) == applied@);
            }
        }
        if consumed_once.len() > 0 {
            let ghost mid = *self;
            let mut kept: Vec<ReplacementSubscription> = Vec::new();
            let mut k: usize = 0;
            while k < self.replacement_effects.len()
                invariant
                    k <= self.replacement_effects@.len(),
                    self.replacement_effects@ == mid.replacement_effects@,
                    forall|j: int|
                        0 <= j < kept@.len() ==> mid.replacement_effects@.contains(
                            #[trigger] kept@[j],
                        ),
                    forall|j: int|
                        0 <= j < k && mid.replacement_effects@[j].definition.duration
                            == ReplacementDuration::Persistent ==> kept@.contains(
                            #[trigger] mid.replacement_effects@[j],
                        ),
                    forall|j: int|
                        0 <= j < kept@.len() ==> (#[trigger] kept@[j]).definition.duration == ReplacementDuration::Persistent
                            || !consumed_once@.contains(kept@[j].id),
                    forall|j: int|
                        0 <= j < k && !consumed_once@.contains(mid.replacement_effects@[j].id) ==> kept@.contains(
                            #[trigger] mid.replacement_effects@[j],
                        ),
                decreases self.replacement_effects@.len() - k,
            {
                let s = self.replacement_effects[k];
                let persistent = s.definition.duration == ReplacementDuration::Persistent;
                if persistent || !contains_replacement_id(&consumed_once, s.id) {
                    let ghost before = kept@;
                    kept.push(s);
                    proof {
                        assert(kept@[before.len() as int] == s);
                        assert forall|j: int|
                            0 <= j < kept@.len() implies mid.replacement_effects@.contains(
                            #[trigger] kept@[j],
                        ) by {
                            if j < before.len() {
                                assert(kept@[j] == before[j]);
                            } else {
                                assert(mid.replacement_effects@[k as int] == s);
                            }
                        }
                        assert forall|j: int|
                            0 <= j < k + 1 && mid.replacement_effects@[j].definition.duration
                                == ReplacementDuration::Persistent implies kept@.contains(
                            #[trigger] mid.replacement_effects@[j],
                        ) by {
                            if j < k {
                                let w = choose|w: int|
                                    0 <= w < before.len() && before[w]
                                        == mid.replacement_effects@[j];
                                assert(kept@[w] == before[w]);
                            } else {
                                assert(kept@[before.len() as int] == mid.replacement_effects@[j]);
                            }
                        }
                        assert forall|j: int|
                            0 <= j < k + 1 && !consumed_once@.contains(mid.replacement_effects@[j].id) implies kept@.contains(
                            #[trigger] mid.replacement_effects@[j],
                        ) by {
                            if j < k {
                                let w = choose|w: int|
                                    0 <= w < before.len() && before[w]
                                        == mid.replacement_effects@[j];
                                assert(kept@[w] == before[w]);
                            } else {
                                assert(kept@[before.len() as int] == mid.replacement_effects@[j]);
                            }
                        }
                        assert forall|j: int| 0 <= j < kept@.len() implies (#[trigger] kept@[j]).definition.duration
                            == ReplacementDuration::Persistent || !consumed_once@.contains(kept@[j].id) by {
                            if j < before.len() {
                                assert(kept@[j] == before[j]);
                            }
                        }
                    }
                } else {
                    proof {
                        assert forall|j: int|
                            0 <= j < k + 1 && mid.replacement_effects@[j].definition.duration
                                == ReplacementDuration::Persistent implies kept@.contains(
                            #[trigger] mid.replacement_effects@[j],
                        ) by {
                            if j == k {
                                assert(mid.replacement_effects@[j] == s);
                            }
                        }
                        assert forall|j: int|
                            0 <= j < k + 1 && !consumed_once@.contains(mid.replacement_effects@[j].id) implies kept@.contains(
                            #[trigger] mid.replacement_effects@[j],
                        ) by {
                            if j == k {
                                assert(mid.replacement_effects@[j] == s);
                            }
                        }
                    }
                }
                k = k + 1;
            }
            self.replacement_effects = kept;
        }
        proof {
            if replacement_ids_distinct(old(self).replacement_effects@) {
                let effects = old(self).replacement_effects@;
                assert(after_rounds.replacement_effects@ == effects);
                assert forall|x: ReplacementSubscription| #[trigger] self.replacement_effects@.contains(x) <==> effects.contains(x)
                    && (x.definition.duration == ReplacementDuration::Persistent || !applied@.contains(x.id)) by {
                    if effects.contains(x) {
                        let i = choose|i: int| 0 <= i < effects.len() && effects[i] == x;
                        if x.definition.duration != ReplacementDuration::Persistent && applied@.contains(x.id) {
                            assert(effects[i].id == x.id && effects[i].definition.duration == ReplacementDuration::Once);
                            assert(consumed_once@.contains(x.id));
                        }
                        if consumed_once@.len() > 0 {
                            if x.definition.duration == ReplacementDuration::Persistent || !consumed_once@.contains(x.id) {
                                assert(self.replacement_effects@.contains(effects[i]));
                            }
                        }
                    }
                    if self.replacement_effects@.contains(x) && consumed_once@.len() > 0 {
                        let j = choose|j: int| 0 <= j < self.replacement_effects@.len() && self.replacement_effects@[j] == x;
                        assert(x.definition.duration == ReplacementDuration::Persistent || !consumed_once@.contains(x.id));
                    }
                    if consumed_once@.len() == 0 {
                        assert(!consumed_once@.contains(x.id));
                    }
                }
            }
        }
        Ok(current)
    }
}

} // verus!
