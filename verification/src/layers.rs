//! The layer system: effective object characteristics computed from base
//! records and registered continuous effects, applied layer by layer in
//! timestamp order adjusted by explicit dependencies.

use vstd::prelude::*;

use crate::characteristics::{
    BaseCreatureCharacteristics, ContinuousEffectDefinition, ContinuousEffectLayer,
    ContinuousEffectOperation, ContinuousEffectTarget, CreatureCharacteristics, CreatureKeywords,
    ObjectCharacteristics, ObjectColors, ObjectTypes,
};
use crate::events::GameEvent;
use crate::ids::{ContinuousEffectId, ObjectId, PlayerId};
use crate::state::{
    ContinuousEffectSubscription, GameState, ObjectArena, ObjectRecord, StateError, same_but_events,
};
use crate::plumbing::{events_bounded, zones_conserved};

verus! {

/// Characteristics of a stored object before any continuous effect applies.
pub open spec fn base_characteristics(record: ObjectRecord) -> ObjectCharacteristics {
    ObjectCharacteristics {
        controller: record.controller,
        colors: ObjectColors {
            white: false,
            blue: false,
            black: false,
            red: false,
            green: false,
        },
        types: ObjectTypes {
            artifact: false,
            creature: record.base_creature is Some,
            enchantment: false,
            instant: false,
            land: false,
            planeswalker: false,
            sorcery: false,
        },
        creature: match record.base_creature {
            Some(b) => Some(
                CreatureCharacteristics {
                    power: b.power,
                    toughness: b.toughness,
                    keywords: b.keywords,
                },
            ),
            None => None,
        },
        text_marker: 0,
    }
}

/// `a + b` clamped to the `i32` range.
pub open spec fn clamp_i32(v: int) -> i32 {
    if v > i32::MAX {
        i32::MAX
    } else if v < i32::MIN {
        i32::MIN
    } else {
        v as i32
    }
}

/// Adds two `i32` values, saturating at the numeric bounds.
pub fn saturating_add_i32(a: i32, b: i32) -> (r: i32)
    ensures
        r == clamp_i32(a + b),
{
    let wide: i64 = a as i64 + b as i64;
    if wide > i32::MAX as i64 {
        i32::MAX
    } else if wide < i32::MIN as i64 {
        i32::MIN
    } else {
        wide as i32
    }
}

/// Subtracts two `i32` values, saturating at the numeric bounds.
pub fn saturating_sub_i32(a: i32, b: i32) -> (r: i32)
    ensures
        r == clamp_i32(a - b),
{
    let wide: i64 = a as i64 - b as i64;
    if wide > i32::MAX as i64 {
        i32::MAX
    } else if wide < i32::MIN as i64 {
        i32::MIN
    } else {
        wide as i32
    }
}

/// Some registered continuous effect carries `id`.
pub open spec fn continuous_effect_registered(effects: Seq<ContinuousEffectSubscription>, id: ContinuousEffectId) -> bool {
    exists|k: int| 0 <= k < effects.len() && effects[k].id == id
}

/// The layer at position `i` (0..10) of the fixed application order.
pub open spec fn layer_at(i: int) -> ContinuousEffectLayer {
    if i == 0 {
        ContinuousEffectLayer::Copy
    } else if i == 1 {
        ContinuousEffectLayer::Control
    } else if i == 2 {
        ContinuousEffectLayer::Text
    } else if i == 3 {
        ContinuousEffectLayer::Type
    } else if i == 4 {
        ContinuousEffectLayer::Color
    } else if i == 5 {
        ContinuousEffectLayer::Ability
    } else if i == 6 {
        ContinuousEffectLayer::PowerToughnessCda
    } else if i == 7 {
        ContinuousEffectLayer::PowerToughnessSet
    } else if i == 8 {
        ContinuousEffectLayer::PowerToughnessModify
    } else {
        ContinuousEffectLayer::PowerToughnessSwitch
    }
}

/// The types in `a` or in `b`.
pub open spec fn types_with(a: ObjectTypes, b: ObjectTypes) -> ObjectTypes {
    ObjectTypes {
        artifact: a.artifact || b.artifact,
        creature: a.creature || b.creature,
        enchantment: a.enchantment || b.enchantment,
        instant: a.instant || b.instant,
        land: a.land || b.land,
        planeswalker: a.planeswalker || b.planeswalker,
        sorcery: a.sorcery || b.sorcery,
    }
}

/// The types in `a` and not in `b`.
pub open spec fn types_without(a: ObjectTypes, b: ObjectTypes) -> ObjectTypes {
    ObjectTypes {
        artifact: a.artifact && !b.artifact,
        creature: a.creature && !b.creature,
        enchantment: a.enchantment && !b.enchantment,
        instant: a.instant && !b.instant,
        land: a.land && !b.land,
        planeswalker: a.planeswalker && !b.planeswalker,
        sorcery: a.sorcery && !b.sorcery,
    }
}

/// The keywords in `a` or in `b`.
pub open spec fn keywords_with(a: CreatureKeywords, b: CreatureKeywords) -> CreatureKeywords {
    CreatureKeywords {
        first_strike: a.first_strike || b.first_strike,
        double_strike: a.double_strike || b.double_strike,
        trample: a.trample || b.trample,
        deathtouch: a.deathtouch || b.deathtouch,
        lifelink: a.lifelink || b.lifelink,
        flying: a.flying || b.flying,
        reach: a.reach || b.reach,
        menace: a.menace || b.menace,
        vigilance: a.vigilance || b.vigilance,
        haste: a.haste || b.haste,
    }
}

/// The keywords in `a` and not in `b`.
pub open spec fn keywords_without(a: CreatureKeywords, b: CreatureKeywords) -> CreatureKeywords {
    CreatureKeywords {
        first_strike: a.first_strike && !b.first_strike,
        double_strike: a.double_strike && !b.double_strike,
        trample: a.trample && !b.trample,
        deathtouch: a.deathtouch && !b.deathtouch,
        lifelink: a.lifelink && !b.lifelink,
        flying: a.flying && !b.flying,
        reach: a.reach && !b.reach,
        menace: a.menace && !b.menace,
        vigilance: a.vigilance && !b.vigilance,
        haste: a.haste && !b.haste,
    }
}

/// `c` with its creature values present exactly when it has the creature
/// type; a creature that had none gets 0/0 and no keywords.
pub open spec fn synced(c: ObjectCharacteristics) -> ObjectCharacteristics {
    if c.types.creature {
        if c.creature is Some {
            c
        } else {
            ObjectCharacteristics {
                creature: Some(
                    CreatureCharacteristics {
                        power: 0,
                        toughness: 0,
                        keywords: CreatureKeywords::none_spec(),
                    },
                ),
                ..c
            }
        }
    } else {
        ObjectCharacteristics { creature: None, ..c }
    }
}

/// `c` with its creature values replaced by `f` of them, when it has any.
pub open spec fn with_creature_values(
    c: ObjectCharacteristics,
    power: i32,
    toughness: i32,
    keywords: CreatureKeywords,
) -> ObjectCharacteristics {
    ObjectCharacteristics {
        creature: Some(CreatureCharacteristics { power, toughness, keywords }),
        ..c
    }
}

/// What one continuous effect operation does to the characteristics `c` of
/// `object` computed so far.
pub open spec fn effect_result(
    objects: ObjectArena,
    object: ObjectId,
    c: ObjectCharacteristics,
    operation: ContinuousEffectOperation,
) -> Result<ObjectCharacteristics, StateError> {
    match operation {
        ContinuousEffectOperation::CopyBaseCreature { from } => match objects.spec_get(from) {
            None => Err(StateError::UnknownObject(from)),
            Some(source) => match source.base_creature {
                Some(base) => Ok(
                    ObjectCharacteristics {
                        types: ObjectTypes { creature: true, ..c.types },
                        creature: Some(
                            CreatureCharacteristics {
                                power: base.power,
                                toughness: base.toughness,
                                keywords: base.keywords,
                            },
                        ),
                        ..c
                    },
                ),
                None => if object != from {
                    Ok(synced(ObjectCharacteristics { types: ObjectTypes { creature: false, ..c.types }, ..c }))
                } else {
                    Ok(c)
                },
            },
        },
        ContinuousEffectOperation::ChangeController { controller } => Ok(
            ObjectCharacteristics { controller, ..c },
        ),
        ContinuousEffectOperation::SetTextMarker { marker } => Ok(
            ObjectCharacteristics { text_marker: marker, ..c },
        ),
        ContinuousEffectOperation::SetTypes { types } => Ok(synced(ObjectCharacteristics { types, ..c })),
        ContinuousEffectOperation::AddTypes { types } => Ok(
            synced(ObjectCharacteristics { types: types_with(c.types, types), ..c }),
        ),
        ContinuousEffectOperation::RemoveTypes { types } => Ok(
            synced(ObjectCharacteristics { types: types_without(c.types, types), ..c }),
        ),
        ContinuousEffectOperation::SetColors { colors } => Ok(ObjectCharacteristics { colors, ..c }),
        ContinuousEffectOperation::AddKeywords { keywords } => Ok(
            match c.creature {
                Some(cr) => with_creature_values(c, cr.power, cr.toughness, keywords_with(cr.keywords, keywords)),
                None => c,
            },
        ),
        ContinuousEffectOperation::RemoveKeywords { keywords } => Ok(
            match c.creature {
                Some(cr) => with_creature_values(
                    c,
                    cr.power,
                    cr.toughness,
                    keywords_without(cr.keywords, keywords),
                ),
                None => c,
            },
        ),
        ContinuousEffectOperation::SetBasePowerToughness { power, toughness } => Ok(
            match c.creature {
                Some(cr) => with_creature_values(c, power, toughness, cr.keywords),
                None => c,
            },
        ),
        ContinuousEffectOperation::SetPowerToughness { power, toughness } => Ok(
            match c.creature {
                Some(cr) => with_creature_values(c, power, toughness, cr.keywords),
                None => c,
            },
        ),
        ContinuousEffectOperation::ModifyPowerToughness { power, toughness } => Ok(
            match c.creature {
                Some(cr) => with_creature_values(
                    c,
                    clamp_i32(cr.power + power),
                    clamp_i32(cr.toughness + toughness),
                    cr.keywords,
                ),
                None => c,
            },
        ),
        ContinuousEffectOperation::SwitchPowerToughness => Ok(
            match c.creature {
                Some(cr) => with_creature_values(c, cr.toughness, cr.power, cr.keywords),
                None => c,
            },
        ),
    }
}

/// What the copy, control, text, type and color layers do: copying a base
/// creature makes the object a creature with exactly the source's base
/// values, and refers to a source that must exist; changing control, the
/// text marker or the colors sets just that; adding types keeps every type
/// the object had and gains the added ones, removing types drops exactly the
/// removed ones, and setting types sets them. After a type change the object
/// has creature values exactly when it is a creature, keeping those it had.
pub proof fn lemma_object_effects_act_as_named(
    objects: ObjectArena,
    object: ObjectId,
    c: ObjectCharacteristics,
    operation: ContinuousEffectOperation,
)
    ensures
        operation matches ContinuousEffectOperation::CopyBaseCreature { from } ==> {
            &&& effect_result(objects, object, c, operation) is Err <==> objects.spec_get(from) is None
            &&& objects.spec_get(from) is Some && objects.spec_get(from)->0.base_creature is Some ==> {
                let base = objects.spec_get(from)->0.base_creature->0;
                &&& effect_result(objects, object, c, operation) is Ok
                &&& effect_result(objects, object, c, operation)->Ok_0.types.creature
                &&& effect_result(objects, object, c, operation)->Ok_0.creature == Some(
                    CreatureCharacteristics { power: base.power, toughness: base.toughness, keywords: base.keywords },
                )
                &&& effect_result(objects, object, c, operation)->Ok_0.controller == c.controller
                &&& effect_result(objects, object, c, operation)->Ok_0.colors == c.colors
            }
        },
        operation matches ContinuousEffectOperation::ChangeController { controller } ==> effect_result(
            objects,
            object,
            c,
            operation,
        ) == Ok::<ObjectCharacteristics, StateError>(ObjectCharacteristics { controller, ..c }),
        operation matches ContinuousEffectOperation::SetTextMarker { marker } ==> effect_result(
            objects,
            object,
            c,
            operation,
        ) == Ok::<ObjectCharacteristics, StateError>(ObjectCharacteristics { text_marker: marker, ..c }),
        operation matches ContinuousEffectOperation::SetColors { colors } ==> effect_result(
            objects,
            object,
            c,
            operation,
        ) == Ok::<ObjectCharacteristics, StateError>(ObjectCharacteristics { colors, ..c }),
        operation matches ContinuousEffectOperation::AddTypes { types } ==> (effect_result(objects, object, c, operation)
            matches Ok(after) && {
            &&& after.types.artifact == (c.types.artifact || types.artifact)
            &&& after.types.creature == (c.types.creature || types.creature)
            &&& after.types.enchantment == (c.types.enchantment || types.enchantment)
            &&& after.types.instant == (c.types.instant || types.instant)
            &&& after.types.land == (c.types.land || types.land)
            &&& after.types.planeswalker == (c.types.planeswalker || types.planeswalker)
            &&& after.types.sorcery == (c.types.sorcery || types.sorcery)
        }),
        operation matches ContinuousEffectOperation::RemoveTypes { types } ==> (effect_result(objects, object, c, operation)
            matches Ok(after) && {
            &&& after.types.artifact == (c.types.artifact && !types.artifact)
            &&& after.types.creature == (c.types.creature && !types.creature)
            &&& after.types.enchantment == (c.types.enchantment && !types.enchantment)
            &&& after.types.instant == (c.types.instant && !types.instant)
            &&& after.types.land == (c.types.land && !types.land)
            &&& after.types.planeswalker == (c.types.planeswalker && !types.planeswalker)
            &&& after.types.sorcery == (c.types.sorcery && !types.sorcery)
        }),
        operation matches ContinuousEffectOperation::SetTypes { types } ==> (effect_result(objects, object, c, operation)
            matches Ok(after) && after.types == types),
        operation.spec_layer() is Type ==> (effect_result(objects, object, c, operation) matches Ok(after) && {
            &&& after.creature is Some <==> after.types.creature
            &&& after.types.creature && c.creature is Some ==> after.creature == c.creature
            &&& after.controller == c.controller && after.colors == c.colors
        }),
{
}

/// What the ability and power/toughness layers do to a creature: adding
/// keywords keeps every keyword the creature had and gains exactly the added
/// ones; removing keywords drops exactly the removed ones; setting power and
/// toughness sets them; modifying adds the deltas (when the sum fits in
/// `i32`); switching swaps them. Each leaves the rest of the creature's
/// values, and its types, colors and controller, as they were; on an object
/// with no creature values these operations change nothing.
pub proof fn lemma_creature_effects_act_as_named(
    objects: ObjectArena,
    object: ObjectId,
    c: ObjectCharacteristics,
    operation: ContinuousEffectOperation,
)
    ensures
        c.creature is None && operation.spec_layer() is Ability ==> effect_result(objects, object, c, operation)
            == Ok::<ObjectCharacteristics, StateError>(c),
        c.creature is Some && operation.spec_layer() is Ability ==> (effect_result(objects, object, c, operation)
            matches Ok(after) && after.types == c.types && after.colors == c.colors && after.controller
            == c.controller && after.creature is Some && after.creature->0.power == c.creature->0.power
            && after.creature->0.toughness == c.creature->0.toughness),
        c.creature matches Some(before) ==> (operation matches ContinuousEffectOperation::AddKeywords { keywords }
            ==> (effect_result(objects, object, c, operation) matches Ok(after) && after.creature is Some && {
                let cr = after.creature->0;
                &&& cr.keywords.first_strike == (before.keywords.first_strike || keywords.first_strike)
                &&& cr.keywords.double_strike == (before.keywords.double_strike || keywords.double_strike)
                &&& cr.keywords.trample == (before.keywords.trample || keywords.trample)
                &&& cr.keywords.deathtouch == (before.keywords.deathtouch || keywords.deathtouch)
                &&& cr.keywords.lifelink == (before.keywords.lifelink || keywords.lifelink)
                &&& cr.keywords.flying == (before.keywords.flying || keywords.flying)
                &&& cr.keywords.reach == (before.keywords.reach || keywords.reach)
                &&& cr.keywords.menace == (before.keywords.menace || keywords.menace)
                &&& cr.keywords.vigilance == (before.keywords.vigilance || keywords.vigilance)
                &&& cr.keywords.haste == (before.keywords.haste || keywords.haste)
            })),
        c.creature matches Some(before) ==> (operation matches ContinuousEffectOperation::RemoveKeywords { keywords }
            ==> (effect_result(objects, object, c, operation) matches Ok(after) && after.creature is Some && {
                let cr = after.creature->0;
                &&& cr.keywords.first_strike == (before.keywords.first_strike && !keywords.first_strike)
                &&& cr.keywords.double_strike == (before.keywords.double_strike && !keywords.double_strike)
                &&& cr.keywords.trample == (before.keywords.trample && !keywords.trample)
                &&& cr.keywords.deathtouch == (before.keywords.deathtouch && !keywords.deathtouch)
                &&& cr.keywords.lifelink == (before.keywords.lifelink && !keywords.lifelink)
                &&& cr.keywords.flying == (before.keywords.flying && !keywords.flying)
                &&& cr.keywords.reach == (before.keywords.reach && !keywords.reach)
                &&& cr.keywords.menace == (before.keywords.menace && !keywords.menace)
                &&& cr.keywords.vigilance == (before.keywords.vigilance && !keywords.vigilance)
                &&& cr.keywords.haste == (before.keywords.haste && !keywords.haste)
            })),
        c.creature matches Some(before) ==> (operation matches ContinuousEffectOperation::SetPowerToughness {
            power,
            toughness,
        } ==> effect_result(objects, object, c, operation) == Ok::<ObjectCharacteristics, StateError>(
            ObjectCharacteristics {
                creature: Some(CreatureCharacteristics { power, toughness, keywords: before.keywords }),
                ..c
            },
        )),
        c.creature matches Some(before) ==> (operation matches ContinuousEffectOperation::SetBasePowerToughness {
            power,
            toughness,
        } ==> effect_result(objects, object, c, operation) == Ok::<ObjectCharacteristics, StateError>(
            ObjectCharacteristics {
                creature: Some(CreatureCharacteristics { power, toughness, keywords: before.keywords }),
                ..c
            },
        )),
        c.creature matches Some(before) ==> (operation matches ContinuousEffectOperation::ModifyPowerToughness {
            power,
            toughness,
        } ==> (i32::MIN <= before.power + power <= i32::MAX && i32::MIN <= before.toughness + toughness
            <= i32::MAX ==> effect_result(objects, object, c, operation) == Ok::<ObjectCharacteristics, StateError>(
            ObjectCharacteristics {
                creature: Some(CreatureCharacteristics {
                    power: (before.power + power) as i32,
                    toughness: (before.toughness + toughness) as i32,
                    keywords: before.keywords,
                }),
                ..c
            },
        ))),
        c.creature matches Some(before) ==> (operation is SwitchPowerToughness ==> effect_result(
            objects,
            object,
            c,
            operation,
        ) == Ok::<ObjectCharacteristics, StateError>(
            ObjectCharacteristics {
                creature: Some(CreatureCharacteristics {
                    power: before.toughness,
                    toughness: before.power,
                    keywords: before.keywords,
                }),
                ..c
            },
        )),
{
}

/// The creature values of `object` after every continuous effect.
pub open spec fn creature_of(state: GameState, object: ObjectId) -> Result<CreatureCharacteristics, StateError> {
    match characteristics_of(state, object) {
        Ok(c) => match c.creature {
            Some(creature) => Ok(creature),
            None => Err(StateError::NotACreature(object)),
        },
        Err(e) => Err(e),
    }
}

/// Damage still needed to destroy a creature with `toughness` and `marked`
/// damage: toughness minus marked damage (counted up to `i32::MAX`), floored
/// at zero.
pub open spec fn lethal_remaining(toughness: i32, marked: u32) -> int {
    let counted = if marked > i32::MAX {
        i32::MAX as int
    } else {
        marked as int
    };
    let left = clamp_i32(toughness - counted);
    if left > 0 {
        left as int
    } else {
        0
    }
}

/// Damage a source with `source_keywords` must assign to `object` before
/// it counts as lethal: one with deathtouch, otherwise what its toughness
/// leaves after marked damage.
pub open spec fn lethal_result(state: GameState, object: ObjectId, source_keywords: CreatureKeywords) -> Result<
    u32,
    StateError,
> {
    match state.objects.spec_get(object) {
        None => Err(StateError::UnknownObject(object)),
        Some(record) => match creature_of(state, object) {
            Err(e) => Err(e),
            Ok(c) => if source_keywords.deathtouch {
                Ok(1)
            } else {
                Ok(lethal_remaining(c.toughness, record.damage_marked) as u32)
            },
        },
    }
}

/// Lethal damage: it can be asked of a known creature only; a source with
/// deathtouch needs to assign just one damage; any other needs the
/// creature's toughness less the damage already marked on it, and none once
/// the marked damage reaches its toughness.
pub proof fn lemma_lethal_damage(state: GameState, object: ObjectId, keywords: CreatureKeywords)
    ensures
        lethal_result(state, object, keywords) is Ok <==> (state.objects.spec_get(object) is Some && creature_of(
            state,
            object,
        ) is Ok),
        state.objects.spec_get(object) is Some && creature_of(state, object) is Ok ==> {
            let toughness = creature_of(state, object)->Ok_0.toughness as int;
            let marked = state.objects.spec_get(object)->0.damage_marked as int;
            &&& keywords.deathtouch ==> lethal_result(state, object, keywords) == Ok::<u32, StateError>(1u32)
            &&& !keywords.deathtouch && toughness > marked ==> lethal_result(state, object, keywords)->Ok_0
                == toughness - marked
            &&& !keywords.deathtouch && toughness <= marked ==> lethal_result(state, object, keywords)->Ok_0 == 0
        },
{
}

/// Effect `a` comes before effect `b` by timestamp, then by ID.
pub open spec fn earlier(a: ContinuousEffectSubscription, b: ContinuousEffectSubscription) -> bool {
    a.definition.timestamp < b.definition.timestamp || (a.definition.timestamp
        == b.definition.timestamp && a.id.0 < b.id.0)
}

/// `pending` (indices into `effects`) with `i` inserted before the first
/// entry that `i` is earlier than.
pub open spec fn insert_in_order(effects: Seq<ContinuousEffectSubscription>, pending: Seq<usize>, i: usize) -> Seq<
    usize,
>
    decreases pending.len(),
{
    if pending.len() == 0 {
        seq![i]
    } else if earlier(effects[i as int], effects[pending[0] as int]) {
        seq![i] + pending
    } else {
        seq![pending[0]] + insert_in_order(effects, pending.drop_first(), i)
    }
}

/// Effect `effect` belongs to `layer` and covers `object`.
pub open spec fn effect_applies(
    effect: ContinuousEffectSubscription,
    object: ObjectId,
    layer: ContinuousEffectLayer,
) -> bool {
    &&& effect.definition.operation.spec_layer() == layer
    &&& match effect.definition.target {
        ContinuousEffectTarget::Object(target) => target == object,
        ContinuousEffectTarget::AllObjects => true,
    }
}

/// The indices below `n` of the effects of `layer` that cover `object`, in
/// timestamp-then-ID order (ties keep registration order).
pub open spec fn layer_members(
    effects: Seq<ContinuousEffectSubscription>,
    object: ObjectId,
    layer: ContinuousEffectLayer,
    n: int,
) -> Seq<usize>
    decreases n,
{
    if n <= 0 {
        Seq::empty()
    } else if effect_applies(effects[n - 1], object, layer) {
        insert_in_order(effects, layer_members(effects, object, layer, n - 1), (n - 1) as usize)
    } else {
        layer_members(effects, object, layer, n - 1)
    }
}

/// The effect at position `k` of `pending` depends on no effect still pending.
pub open spec fn ready_at(effects: Seq<ContinuousEffectSubscription>, pending: Seq<usize>, k: int) -> bool {
    forall|d: int, q: int|
        0 <= d < effects[pending[k] as int].definition.dependencies@.len() && 0 <= q < pending.len()
            ==> #[trigger] effects[pending[q] as int].id != #[trigger] effects[pending[k] as int].definition.dependencies@[d]
}

/// The first position from `c` on whose effect is ready, or 0 when none is.
pub open spec fn first_ready_from(effects: Seq<ContinuousEffectSubscription>, pending: Seq<usize>, c: int) -> int
    decreases pending.len() - c,
{
    if c >= pending.len() {
        0
    } else if ready_at(effects, pending, c) {
        c
    } else {
        first_ready_from(effects, pending, c + 1)
    }
}

/// The application order of `pending`: the first effect (in the given order)
/// that depends on no still-pending effect goes next, or the first pending
/// effect when every one waits on another.
pub open spec fn dependency_order(effects: Seq<ContinuousEffectSubscription>, pending: Seq<usize>) -> Seq<usize>
    decreases pending.len(),
{
    if pending.len() == 0 {
        Seq::empty()
    } else {
        let first = first_ready_from(effects, pending, 0);
        let k = if 0 <= first < pending.len() {
            first
        } else {
            0
        };
        seq![pending[k]] + dependency_order(effects, pending.remove(k))
    }
}

/// The application order, within `layer`, of the effects covering `object`.
pub open spec fn layer_order(effects: Seq<ContinuousEffectSubscription>, object: ObjectId, layer: ContinuousEffectLayer) -> Seq<usize> {
    dependency_order(effects, layer_members(effects, object, layer, effects.len() as int))
}

/// Applies the effects at `order` to `c`, first to last, stopping at the
/// first failure.
pub open spec fn apply_in_order(
    objects: ObjectArena,
    effects: Seq<ContinuousEffectSubscription>,
    object: ObjectId,
    c: ObjectCharacteristics,
    order: Seq<usize>,
) -> Result<ObjectCharacteristics, StateError>
    decreases order.len(),
{
    if order.len() == 0 {
        Ok(c)
    } else {
        match effect_result(objects, object, c, effects[order[0] as int].definition.operation) {
            Ok(next) => apply_in_order(objects, effects, object, next, order.drop_first()),
            Err(e) => Err(e),
        }
    }
}

/// Applies layers `layer_index..10` to `c`.
pub open spec fn apply_layers_from(
    objects: ObjectArena,
    effects: Seq<ContinuousEffectSubscription>,
    object: ObjectId,
    c: ObjectCharacteristics,
    layer_index: int,
) -> Result<ObjectCharacteristics, StateError>
    decreases 10 - layer_index,
{
    if layer_index >= 10 {
        Ok(c)
    } else {
        match apply_in_order(objects, effects, object, c, layer_order(effects, object, layer_at(layer_index))) {
            Ok(next) => apply_layers_from(objects, effects, object, next, layer_index + 1),
            Err(e) => Err(e),
        }
    }
}

/// The characteristics of `object` after every continuous effect, layer by
/// layer.
pub open spec fn characteristics_of(state: GameState, object: ObjectId) -> Result<ObjectCharacteristics, StateError> {
    match state.objects.spec_get(object) {
        None => Err(StateError::UnknownObject(object)),
        Some(record) => if state.continuous_effects@.len() == 0 {
            Ok(base_characteristics(record))
        } else {
            apply_layers_from(state.objects, state.continuous_effects@, object, base_characteristics(record), 0)
        },
    }
}

/// Applying effects in an order fails only on an unknown object.
proof fn lemma_in_order_fails_on_unknown_object(
    objects: ObjectArena,
    effects: Seq<ContinuousEffectSubscription>,
    object: ObjectId,
    c: ObjectCharacteristics,
    order: Seq<usize>,
)
    ensures
        apply_in_order(objects, effects, object, c, order) matches Err(e) ==> e is UnknownObject,
    decreases order.len(),
{
    if order.len() > 0 {
        if let Ok(next) = effect_result(objects, object, c, effects[order[0] as int].definition.operation) {
            lemma_in_order_fails_on_unknown_object(objects, effects, object, next, order.drop_first());
        }
    }
}

/// Applying layers fails only on an unknown object.
proof fn lemma_layers_fail_on_unknown_object(
    objects: ObjectArena,
    effects: Seq<ContinuousEffectSubscription>,
    object: ObjectId,
    c: ObjectCharacteristics,
    layer_index: int,
)
    ensures
        apply_layers_from(objects, effects, object, c, layer_index) matches Err(e) ==> e is UnknownObject,
    decreases 10 - layer_index,
{
    if layer_index < 10 {
        let order = layer_order(effects, object, layer_at(layer_index));
        lemma_in_order_fails_on_unknown_object(objects, effects, object, c, order);
        if let Ok(next) = apply_in_order(objects, effects, object, c, order) {
            lemma_layers_fail_on_unknown_object(objects, effects, object, next, layer_index + 1);
        }
    }
}

/// Computing characteristics fails only on an unknown object (the object
/// itself, or the missing source of a copy effect); asking for creature
/// values fails besides only on an object that is not a creature.
pub proof fn lemma_characteristics_fail_only_on_unknown_objects(state: GameState, object: ObjectId)
    ensures
        characteristics_of(state, object) matches Err(e) ==> e is UnknownObject,
        creature_of(state, object) matches Err(e) ==> (e is UnknownObject || e == StateError::NotACreature(
            object,
        )),
{
    if let Some(record) = state.objects.spec_get(object) {
        if state.continuous_effects@.len() > 0 {
            lemma_layers_fail_on_unknown_object(
                state.objects,
                state.continuous_effects@,
                object,
                base_characteristics(record),
                0,
            );
        }
    }
}

/// Two arenas holding the same records except, perhaps, for their damage
/// marks and whether they are tapped.
pub open spec fn same_but_marks_and_tapping(a: ObjectArena, b: ObjectArena) -> bool {
    &&& a.records@.len() == b.records@.len()
    &&& forall|i: int|
        0 <= i < a.records@.len() ==> #[trigger] b.records@[i] == (ObjectRecord {
            damage_marked: b.records@[i].damage_marked,
            deathtouch_damage_marked: b.records@[i].deathtouch_damage_marked,
            tapped: b.records@[i].tapped,
            ..a.records@[i]
        })
}

/// Continuous effects read no deathtouch damage mark and no tapped status.
proof fn lemma_effects_ignore_deathtouch(
    a: ObjectArena,
    b: ObjectArena,
    effects: Seq<ContinuousEffectSubscription>,
    object: ObjectId,
    c: ObjectCharacteristics,
    order: Seq<usize>,
)
    requires
        same_but_marks_and_tapping(a, b),
    ensures
        apply_in_order(a, effects, object, c, order) == apply_in_order(b, effects, object, c, order),
    decreases order.len(),
{
    if order.len() > 0 {
        let operation = effects[order[0] as int].definition.operation;
        match operation {
            ContinuousEffectOperation::CopyBaseCreature { from } => {
                if from.0 < a.records@.len() {
                    assert(b.records@[from.0 as int].base_creature == a.records@[from.0 as int].base_creature);
                }
            },
            _ => {},
        }
        assert(effect_result(a, object, c, operation) == effect_result(b, object, c, operation));
        match effect_result(a, object, c, operation) {
            Ok(next) => lemma_effects_ignore_deathtouch(a, b, effects, object, next, order.drop_first()),
            Err(_) => {},
        }
    }
}

/// The layer system reads no deathtouch damage mark and no tapped status.
proof fn lemma_layers_ignore_deathtouch(
    a: ObjectArena,
    b: ObjectArena,
    effects: Seq<ContinuousEffectSubscription>,
    object: ObjectId,
    c: ObjectCharacteristics,
    layer_index: int,
)
    requires
        same_but_marks_and_tapping(a, b),
    ensures
        apply_layers_from(a, effects, object, c, layer_index) == apply_layers_from(
            b,
            effects,
            object,
            c,
            layer_index,
        ),
    decreases 10 - layer_index,
{
    if layer_index < 10 {
        let order = layer_order(effects, object, layer_at(layer_index));
        lemma_effects_ignore_deathtouch(a, b, effects, object, c, order);
        match apply_in_order(a, effects, object, c, order) {
            Ok(next) => lemma_layers_ignore_deathtouch(a, b, effects, object, next, layer_index + 1),
            Err(_) => {},
        }
    }
}

/// An object's characteristics depend neither on damage marks nor on
/// whether objects are tapped.
pub proof fn lemma_characteristics_ignore_marks(before: GameState, after: GameState, object: ObjectId)
    requires
        same_but_marks_and_tapping(before.objects, after.objects),
        after.continuous_effects@ == before.continuous_effects@,
    ensures
        characteristics_of(after, object) == characteristics_of(before, object),
        creature_of(after, object) == creature_of(before, object),
{
    lemma_layers_ignore_deathtouch(
        before.objects,
        after.objects,
        before.continuous_effects@,
        object,
        match before.objects.spec_get(object) {
            Some(record) => base_characteristics(record),
            None => base_characteristics(after.objects.records@[0]),
        },
        0,
    );
    if object.0 < before.objects.records@.len() {
        let rb = before.objects.records@[object.0 as int];
        let ra = after.objects.records@[object.0 as int];
        assert(ra == (ObjectRecord {
            damage_marked: ra.damage_marked,
            deathtouch_damage_marked: ra.deathtouch_damage_marked,
            tapped: ra.tapped,
            ..rb
        }));
        assert(base_characteristics(ra) == base_characteristics(rb));
    }
}

proof fn lemma_insert_in_order(
    effects: Seq<ContinuousEffectSubscription>,
    pending: Seq<usize>,
    i: usize,
    p: int,
)
    requires
        0 <= p <= pending.len(),
        forall|j: int| 0 <= j < p ==> !earlier(effects[i as int], effects[#[trigger] pending[j] as int]),
        p < pending.len() ==> earlier(effects[i as int], effects[pending[p] as int]),
    ensures
        insert_in_order(effects, pending, i) == pending.insert(p, i),
    decreases pending.len(),
{
    if pending.len() == 0 {
        assert(pending.insert(p, i) =~= seq![i]);
    } else if p == 0 {
        assert(pending.insert(0, i) =~= seq![i] + pending);
    } else {
        let rest = pending.drop_first();
        assert(!earlier(effects[i as int], effects[pending[0] as int]));
        assert forall|j: int| 0 <= j < p - 1 implies !earlier(effects[i as int], effects[#[trigger] rest[j] as int]) by {
            assert(rest[j] == pending[j + 1]);
        }
        lemma_insert_in_order(effects, rest, i, p - 1);
        assert(pending.insert(p, i) =~= seq![pending[0]] + rest.insert(p - 1, i));
    }
}

proof fn lemma_first_ready_skip(effects: Seq<ContinuousEffectSubscription>, pending: Seq<usize>, c: int)
    requires
        0 <= c <= pending.len(),
        forall|j: int| 0 <= j < c ==> !ready_at(effects, pending, j),
    ensures
        first_ready_from(effects, pending, 0) == first_ready_from(effects, pending, c),
    decreases c,
{
    if c > 0 {
        lemma_first_ready_skip(effects, pending, c - 1);
        assert(!ready_at(effects, pending, c - 1));
    }
}

/// When no pending effect declares a dependency, effects apply in the given
/// (timestamp-then-ID) order.
pub proof fn lemma_independent_effects_keep_order(
    effects: Seq<ContinuousEffectSubscription>,
    pending: Seq<usize>,
)
    requires
        forall|k: int|
            0 <= k < pending.len() ==> (#[trigger] effects[pending[k] as int]).definition.dependencies@.len()
                == 0,
    ensures
        dependency_order(effects, pending) == pending,
    decreases pending.len(),
{
    if pending.len() > 0 {
        assert(ready_at(effects, pending, 0));
        assert(first_ready_from(effects, pending, 0) == 0);
        let rest = pending.remove(0);
        assert(rest =~= pending.drop_first());
        assert forall|k: int| 0 <= k < rest.len() implies (#[trigger] effects[rest[k] as int]).definition.dependencies@.len()
            == 0 by {
            assert(rest[k] == pending[k + 1]);
        }
        lemma_independent_effects_keep_order(effects, rest);
        assert(dependency_order(effects, pending) =~= seq![pending[0]] + rest);
    }
}

/// `a`'s timestamp-then-ID key is at most `b`'s.
pub open spec fn no_later(a: ContinuousEffectSubscription, b: ContinuousEffectSubscription) -> bool {
    !earlier(b, a)
}

proof fn lemma_insert_in_order_sorted(
    effects: Seq<ContinuousEffectSubscription>,
    pending: Seq<usize>,
    i: usize,
)
    requires
        forall|a: int, b: int|
            0 <= a < b < pending.len() ==> no_later(effects[#[trigger] pending[a] as int], effects[#[trigger] pending[b] as int]),
    ensures
        forall|a: int, b: int|
            0 <= a < b < insert_in_order(effects, pending, i).len() ==> no_later(
                effects[#[trigger] insert_in_order(effects, pending, i)[a] as int],
                effects[#[trigger] insert_in_order(effects, pending, i)[b] as int],
            ),
        insert_in_order(effects, pending, i).to_multiset() == pending.to_multiset().insert(i),
    decreases pending.len(),
{
    broadcast use vstd::seq_lib::group_to_multiset_ensures;

    let out = insert_in_order(effects, pending, i);
    if pending.len() == 0 {
        assert(out =~= Seq::<usize>::empty().push(i));
    } else if earlier(effects[i as int], effects[pending[0] as int]) {
        assert forall|a: int, b: int| 0 <= a < b < out.len() implies no_later(
            effects[#[trigger] out[a] as int],
            effects[#[trigger] out[b] as int],
        ) by {
            if a > 0 {
                assert(out[a] == pending[a - 1] && out[b] == pending[b - 1]);
            } else {
                assert(out[a] == i && out[b] == pending[b - 1]);
                if b > 1 {
                    assert(no_later(effects[pending[0] as int], effects[pending[b - 1] as int]));
                }
            }
        }
        assert(out =~= seq![i] + pending);
        assert(seq![i] + pending =~= pending.insert(0, i));
    } else {
        let rest = pending.drop_first();
        assert forall|a: int, b: int| 0 <= a < b < rest.len() implies no_later(
            effects[#[trigger] rest[a] as int],
            effects[#[trigger] rest[b] as int],
        ) by {
            assert(rest[a] == pending[a + 1] && rest[b] == pending[b + 1]);
        }
        lemma_insert_in_order_sorted(effects, rest, i);
        let tail = insert_in_order(effects, rest, i);
        assert(out =~= seq![pending[0]] + tail);
        assert forall|a: int, b: int| 0 <= a < b < out.len() implies no_later(
            effects[#[trigger] out[a] as int],
            effects[#[trigger] out[b] as int],
        ) by {
            if a > 0 {
                assert(out[a] == tail[a - 1] && out[b] == tail[b - 1]);
            } else {
                assert(out[b] == tail[b - 1]);
                assert(tail.to_multiset().count(tail[b - 1]) > 0);
                assert((rest.to_multiset().insert(i)).count(tail[b - 1]) > 0);
                if tail[b - 1] == i {
                } else {
                    assert(rest.to_multiset().count(tail[b - 1]) > 0);
                    assert(rest.contains(tail[b - 1]));
                    let w = choose|w: int| 0 <= w < rest.len() && rest[w] == tail[b - 1];
                    assert(rest[w] == pending[w + 1]);
                }
            }
        }
        assert(pending =~= seq![pending[0]] + rest);
        assert(seq![pending[0]] + rest =~= rest.insert(0, pending[0]));
        assert(seq![pending[0]] + tail =~= tail.insert(0, pending[0]));
    }
}

/// The effects a layer gathers for an object are exactly those of the layer
/// that cover it, in timestamp-then-ID order.
pub proof fn lemma_layer_members_sorted(
    effects: Seq<ContinuousEffectSubscription>,
    object: ObjectId,
    layer: ContinuousEffectLayer,
    n: int,
)
    requires
        0 <= n <= effects.len(),
        effects.len() <= usize::MAX,
    ensures
        forall|a: int, b: int|
            0 <= a < b < layer_members(effects, object, layer, n).len() ==> no_later(
                effects[#[trigger] layer_members(effects, object, layer, n)[a] as int],
                effects[#[trigger] layer_members(effects, object, layer, n)[b] as int],
            ),
        forall|x: usize|
            #[trigger] layer_members(effects, object, layer, n).to_multiset().count(x) == (if x < n
                && effect_applies(effects[x as int], object, layer) {
                1nat
            } else {
                0nat
            }),
    decreases n,
{
    broadcast use vstd::seq_lib::group_to_multiset_ensures;
    broadcast use vstd::multiset::group_multiset_axioms;

    if n == 0 {
        assert(layer_members(effects, object, layer, n) =~= Seq::<usize>::empty());
        assert forall|x: usize| #[trigger] layer_members(effects, object, layer, n).to_multiset().count(x)
            == 0 by {
            vstd::seq_lib::to_multiset_contains(layer_members(effects, object, layer, n), x);
        }
    } else {
        lemma_layer_members_sorted(effects, object, layer, n - 1);
        if effect_applies(effects[n - 1], object, layer) {
            lemma_insert_in_order_sorted(effects, layer_members(effects, object, layer, n - 1), (n - 1) as usize);
        }
    }
}

/// Timestamp-then-ID order between two registered effects.
fn effect_before(a: &ContinuousEffectSubscription, b: &ContinuousEffectSubscription) -> (r: bool)
    ensures
        r == earlier(*a, *b),
{
    a.definition.timestamp < b.definition.timestamp || (a.definition.timestamp
        == b.definition.timestamp && a.id.0 < b.id.0)
}

impl GameState {
    /// Returns indices of the effects of one layer that apply to `object`, in
    /// application order: timestamp then ID, except that an effect waits for
    /// every still-pending effect it depends on.
    pub(crate) fn ordered_continuous_effects_for_layer(
        &self,
        object: ObjectId,
        layer: ContinuousEffectLayer,
    ) -> (r: Vec<usize>)
        ensures
            r@ == layer_order(self.continuous_effects@, object, layer),
            forall|i: int| 0 <= i < r@.len() ==> #[trigger] r@[i] < self.continuous_effects@.len(),
    {
        let ghost effects = self.continuous_effects@;
        let n = self.continuous_effects.len();
        let mut pending: Vec<usize> = Vec::new();
        let mut i: usize = 0;
        while i < n
            invariant
                i <= n,
                n == self.continuous_effects@.len(),
                effects == self.continuous_effects@,
                forall|j: int| 0 <= j < pending@.len() ==> #[trigger] pending@[j] < n,
                pending@ == layer_members(effects, object, layer, i as int),
            decreases n - i,
        {
            let e = &self.continuous_effects[i];
            if e.definition.operation.layer() == layer && e.definition.target.matches(object) {
                let mut p: usize = 0;
                let mut found = false;
                while p < pending.len() && !found
                    invariant
                        p <= pending@.len(),
                        forall|j: int| 0 <= j < pending@.len() ==> #[trigger] pending@[j] < n,
                        n == self.continuous_effects@.len(),
                        effects == self.continuous_effects@,
                        i < n,
                        *e == effects[i as int],
                        forall|j: int|
                            0 <= j < p ==> !earlier(effects[i as int], effects[#[trigger] pending@[j] as int]),
                        found ==> p < pending@.len() && earlier(effects[i as int], effects[pending@[p as int] as int]),
                    decreases pending@.len() - p + (if found {
                        0int
                    } else {
                        1int
                    }),
                {
                    if effect_before(e, &self.continuous_effects[pending[p]]) {
                        found = true;
                    } else {
                        p = p + 1;
                    }
                }
                let ghost before = pending@;
                proof {
                    lemma_insert_in_order(effects, before, i, p as int);
                }
                pending.insert(p, i);
                assert forall|j: int| 0 <= j < pending@.len() implies #[trigger] pending@[j] < n by {
                    if j < p {
                        assert(pending@[j] == before[j]);
                    } else if j > p {
                        assert(pending@[j] == before[j - 1]);
                    }
                }
            }
            i = i + 1;
        }
        let ghost initial = pending@;
        let mut ordered: Vec<usize> = Vec::new();
        while pending.len() > 0
            invariant
                n == self.continuous_effects@.len(),
                effects == self.continuous_effects@,
                forall|j: int| 0 <= j < pending@.len() ==> #[trigger] pending@[j] < n,
                forall|j: int| 0 <= j < ordered@.len() ==> #[trigger] ordered@[j] < n,
                ordered@ + dependency_order(effects, pending@) == dependency_order(effects, initial),
            decreases pending@.len(),
        {
            let mut chosen: usize = 0;
            let mut found = false;
            let mut c: usize = 0;
            while c < pending.len() && !found
                invariant
                    c <= pending@.len(),
                    chosen < pending@.len(),
                    n == self.continuous_effects@.len(),
                    effects == self.continuous_effects@,
                    forall|j: int| 0 <= j < pending@.len() ==> #[trigger] pending@[j] < n,
                    forall|j: int| 0 <= j < c ==> !ready_at(effects, pending@, j),
                    found ==> chosen == c && c < pending@.len() && ready_at(effects, pending@, c as int),
                    !found ==> chosen == 0,
                decreases pending@.len() - c + (if found {
                    0int
                } else {
                    1int
                }),
            {
                let deps = &self.continuous_effects[pending[c]].definition.dependencies;
                let mut ready = true;
                let mut d: usize = 0;
                while d < deps.len() && ready
                    invariant
                        d <= deps@.len(),
                        c < pending@.len(),
                        n == self.continuous_effects@.len(),
                        effects == self.continuous_effects@,
                        forall|j: int| 0 <= j < pending@.len() ==> #[trigger] pending@[j] < n,
                        deps@ == effects[pending@[c as int] as int].definition.dependencies@,
                        ready <==> forall|dd: int, q: int|
                            0 <= dd < d && 0 <= q < pending@.len() ==> #[trigger] effects[pending@[q] as int].id
                                != #[trigger] deps@[dd],
                    decreases deps@.len() - d,
                {
                    let dependency = deps[d];
                    let mut q: usize = 0;
                    let ghost ready_before = ready;
                    while q < pending.len()
                        invariant
                            q <= pending@.len(),
                            d < deps@.len(),
                            dependency == deps@[d as int],
                            n == self.continuous_effects@.len(),
                            effects == self.continuous_effects@,
                            forall|j: int| 0 <= j < pending@.len() ==> #[trigger] pending@[j] < n,
                            ready <==> ready_before && forall|qq: int|
                                0 <= qq < q ==> effects[#[trigger] pending@[qq] as int].id != dependency,
                        decreases pending@.len() - q,
                    {
                        if self.continuous_effects[pending[q]].id == dependency {
                            ready = false;
                        }
                        q = q + 1;
                    }
                    proof {
                        if ready {
                            assert forall|dd: int, qq: int|
                                0 <= dd < d + 1 && 0 <= qq < pending@.len() implies #[trigger] effects[pending@[qq] as int].id
                                != #[trigger] deps@[dd] by {
                                if dd == d {
                                    assert(effects[pending@[qq] as int].id != dependency);
                                }
                            }
                        } else if ready_before {
                            let qq = choose|qq: int|
                                0 <= qq < pending@.len() && effects[#[trigger] pending@[qq] as int].id == dependency;
                            assert(effects[pending@[qq] as int].id == deps@[d as int]);
                        }
                    }
                    d = d + 1;
                }
                proof {
                    if ready {
                        assert(ready_at(effects, pending@, c as int));
                    } else {
                        let (dd, qq) = choose|dd: int, qq: int|
                            0 <= dd < d && 0 <= qq < pending@.len() && #[trigger] effects[pending@[qq] as int].id
                                == #[trigger] deps@[dd];
                        assert(!ready_at(effects, pending@, c as int));
                    }
                }
                if ready {
                    chosen = c;
                    found = true;
                } else {
                    c = c + 1;
                }
            }
            let ghost before = pending@;
            proof {
                if found {
                    lemma_first_ready_skip(effects, before, chosen as int);
                    assert(first_ready_from(effects, before, chosen as int) == chosen);
                } else {
                    lemma_first_ready_skip(effects, before, before.len() as int);
                }
                assert(dependency_order(effects, before) == seq![before[chosen as int]] + dependency_order(
                    effects,
                    before.remove(chosen as int),
                ));
            }
            let picked = pending.remove(chosen);
            assert(picked == before[chosen as int]);
            assert forall|j: int| 0 <= j < pending@.len() implies #[trigger] pending@[j] < n by {
                if j < chosen {
                    assert(pending@[j] == before[j]);
                } else {
                    assert(pending@[j] == before[j + 1]);
                }
            }
            let ghost prior = ordered@;
            ordered.push(picked);
            assert(ordered@ + dependency_order(effects, pending@) =~= prior + dependency_order(effects, before));
        }
        assert(dependency_order(effects, pending@) =~= Seq::<usize>::empty());
        assert(ordered@ =~= dependency_order(effects, initial));
        ordered
    }

    /// Applies one continuous effect to the characteristics computed so far.
    pub(crate) fn apply_continuous_effect(
        &self,
        object: ObjectId,
        characteristics: &mut ObjectCharacteristics,
        effect: &ContinuousEffectSubscription,
    ) -> (r: Result<(), StateError>)
        ensures
            effect_result(self.objects, object, *old(characteristics), effect.definition.operation)
                == (match r {
                Ok(_) => Ok(*final(characteristics)),
                Err(e) => Err::<ObjectCharacteristics, StateError>(e),
            }),
            r is Err ==> match effect.definition.operation {
                ContinuousEffectOperation::CopyBaseCreature { from } => self.objects.spec_get(
                    from,
                ) is None,
                _ => false,
            },
    {
        match effect.definition.operation() {
            ContinuousEffectOperation::CopyBaseCreature { from } => {
                let source = match self.objects.get(from) {
                    Some(s) => s,
                    None => return Err(StateError::UnknownObject(from)),
                };
                match source.base_creature() {
                    Some(base) => {
                        characteristics.types = characteristics.types.union(
                            ObjectTypes::none().with_creature(),
                        );
                        characteristics.creature = Some(base.derived());
                    },
                    None => {
                        if object != from {
                            characteristics.types = characteristics.types.without(
                                ObjectTypes::none().with_creature(),
                            );
                            characteristics.sync_creature_type();
                        }
                    },
                }
            },
            ContinuousEffectOperation::ChangeController { controller } => {
                characteristics.controller = controller;
            },
            ContinuousEffectOperation::SetTextMarker { marker } => {
                characteristics.text_marker = marker;
            },
            ContinuousEffectOperation::SetTypes { types } => {
                characteristics.types = types;
                characteristics.sync_creature_type();
            },
            ContinuousEffectOperation::AddTypes { types } => {
                characteristics.types = characteristics.types.union(types);
                characteristics.sync_creature_type();
            },
            ContinuousEffectOperation::RemoveTypes { types } => {
                characteristics.types = characteristics.types.without(types);
                characteristics.sync_creature_type();
            },
            ContinuousEffectOperation::SetColors { colors } => {
                characteristics.colors = colors;
            },
            ContinuousEffectOperation::AddKeywords { keywords } => {
                if let Some(creature) = characteristics.creature {
                    characteristics.creature = Some(
                        creature.with_keywords(creature.keywords().union(keywords)),
                    );
                }
            },
            ContinuousEffectOperation::RemoveKeywords { keywords } => {
                if let Some(creature) = characteristics.creature {
                    characteristics.creature = Some(
                        creature.with_keywords(creature.keywords().without(keywords)),
                    );
                }
            },
            ContinuousEffectOperation::SetBasePowerToughness { power, toughness } => {
                if let Some(creature) = characteristics.creature {
                    characteristics.creature = Some(
                        CreatureCharacteristics::new(power, toughness).with_keywords(
                            creature.keywords(),
                        ),
                    );
                }
            },
            ContinuousEffectOperation::SetPowerToughness { power, toughness } => {
                if let Some(creature) = characteristics.creature {
                    characteristics.creature = Some(
                        CreatureCharacteristics::new(power, toughness).with_keywords(
                            creature.keywords(),
                        ),
                    );
                }
            },
            ContinuousEffectOperation::ModifyPowerToughness { power, toughness } => {
                if let Some(creature) = characteristics.creature {
                    characteristics.creature = Some(
                        CreatureCharacteristics::new(
                            saturating_add_i32(creature.power(), power),
                            saturating_add_i32(creature.toughness(), toughness),
                        ).with_keywords(creature.keywords()),
                    );
                }
            },
            ContinuousEffectOperation::SwitchPowerToughness => {
                if let Some(creature) = characteristics.creature {
                    characteristics.creature = Some(
                        CreatureCharacteristics::new(
                            creature.toughness(),
                            creature.power(),
                        ).with_keywords(creature.keywords()),
                    );
                }
            },
        }
        Ok(())
    }

    /// Computes current object characteristics through the layer system.
    pub fn object_characteristics(&self, object: ObjectId) -> (r: Result<
        ObjectCharacteristics,
        StateError,
    >)
        ensures
            r == characteristics_of(*self, object),
            self.objects.spec_get(object) is None ==> r == Err::<
                ObjectCharacteristics,
                StateError,
            >(StateError::UnknownObject(object)),
            r is Ok ==> self.objects.spec_get(object) is Some,
            self.objects.spec_get(object) is Some && self.continuous_effects@.len() == 0 ==> r
                == Ok::<ObjectCharacteristics, StateError>(
                base_characteristics(self.objects.spec_get(object)->0),
            ),
    {
        let record = match self.objects.get(object) {
            Some(r) => r,
            None => return Err(StateError::UnknownObject(object)),
        };
        let base_creature = match record.base_creature() {
            Some(b) => Some(b.derived()),
            None => None,
        };
        let base_types = if base_creature.is_some() {
            ObjectTypes::none().with_creature()
        } else {
            ObjectTypes::none()
        };
        let mut characteristics = ObjectCharacteristics::new(
            record.controller(),
            ObjectColors::none(),
            base_types,
            base_creature,
        );
        assert(characteristics == base_characteristics(record));
        if self.continuous_effects.len() == 0 {
            return Ok(characteristics);
        }
        let ghost effects = self.continuous_effects@;
        let ghost total = characteristics_of(*self, object);
        let mut layer_index: usize = 0;
        while layer_index < 10
            invariant
                layer_index <= 10,
                self.objects.spec_get(object) is Some,
                effects == self.continuous_effects@,
                total == characteristics_of(*self, object),
                total == apply_layers_from(
                    self.objects,
                    effects,
                    object,
                    characteristics,
                    layer_index as int,
                ),
            decreases 10 - layer_index,
        {
            let layer = ContinuousEffectLayer::at(layer_index);
            let ordered = self.ordered_continuous_effects_for_layer(object, layer);
            proof {
                assert(ordered@.subrange(0, ordered@.len() as int) =~= ordered@);
                assert(apply_layers_from(self.objects, effects, object, characteristics, layer_index as int)
                    == (match apply_in_order(self.objects, effects, object, characteristics, ordered@) {
                    Ok(next) => apply_layers_from(self.objects, effects, object, next, layer_index + 1),
                    Err(e) => Err(e),
                }));
            }
            let mut k: usize = 0;
            while k < ordered.len()
                invariant
                    k <= ordered@.len(),
                    layer_index < 10,
                    forall|j: int|
                        0 <= j < ordered@.len() ==> #[trigger] ordered@[j]
                            < self.continuous_effects@.len(),
                    self.objects.spec_get(object) is Some,
                    effects == self.continuous_effects@,
                    ordered@ == layer_order(effects, object, layer_at(layer_index as int)),
                    total == characteristics_of(*self, object),
                    total == (match apply_in_order(
                        self.objects,
                        effects,
                        object,
                        characteristics,
                        ordered@.subrange(k as int, ordered@.len() as int),
                    ) {
                        Ok(next) => apply_layers_from(
                            self.objects,
                            effects,
                            object,
                            next,
                            layer_index + 1,
                        ),
                        Err(e) => Err(e),
                    }),
                decreases ordered@.len() - k,
            {
                let effect = &self.continuous_effects[ordered[k]];
                let ghost here = characteristics;
                proof {
                    let rest = ordered@.subrange(k as int, ordered@.len() as int);
                    assert(rest[0] == ordered@[k as int]);
                    assert(rest.drop_first() =~= ordered@.subrange(k + 1, ordered@.len() as int));
                }
                match self.apply_continuous_effect(object, &mut characteristics, effect) {
                    Ok(()) => {},
                    Err(e) => return Err(e),
                }
                k = k + 1;
            }
            proof {
                assert(ordered@.subrange(0, ordered@.len() as int) =~= ordered@);
                assert(ordered@.subrange(ordered@.len() as int, ordered@.len() as int) =~= Seq::<usize>::empty());
            }
            layer_index = layer_index + 1;
        }
        Ok(characteristics)
    }

    /// Computes the effective controller after the control layer.
    pub fn object_controller(&self, object: ObjectId) -> (r: Result<PlayerId, StateError>)
        ensures
            r == (match characteristics_of(*self, object) {
                Ok(c) => Ok(c.controller),
                Err(e) => Err::<PlayerId, StateError>(e),
            }),
            self.objects.spec_get(object) is None ==> r == Err::<PlayerId, StateError>(
                StateError::UnknownObject(object),
            ),
            r is Ok ==> self.objects.spec_get(object) is Some,
            self.objects.spec_get(object) is Some && self.continuous_effects@.len() == 0 ==> r
                == Ok::<PlayerId, StateError>(self.objects.spec_get(object)->0.controller),
    {
        match self.object_characteristics(object) {
            Ok(c) => Ok(c.controller()),
            Err(e) => Err(e),
        }
    }

    /// Computes current creature characteristics through the layer system.
    pub fn creature_characteristics(&self, object: ObjectId) -> (r: Result<
        CreatureCharacteristics,
        StateError,
    >)
        ensures
            r == creature_of(*self, object),
            self.objects.spec_get(object) is None ==> r == Err::<
                CreatureCharacteristics,
                StateError,
            >(StateError::UnknownObject(object)),
            r is Ok ==> self.objects.spec_get(object) is Some,
            self.objects.spec_get(object) is Some && self.continuous_effects@.len() == 0 ==> (
            r is Ok <==> self.objects.spec_get(object)->0.base_creature is Some),
    {
        match self.object_characteristics(object) {
            Ok(c) => match c.creature() {
                Some(creature) => Ok(creature),
                None => Err(StateError::NotACreature(object)),
            },
            Err(e) => Err(e),
        }
    }

    /// Returns the combat keywords of a creature after continuous effects.
    pub(crate) fn creature_keywords(&self, object: ObjectId) -> (r: Result<
        CreatureKeywords,
        StateError,
    >)
        ensures
            r == (match creature_of(*self, object) {
                Ok(c) => Ok(c.keywords),
                Err(e) => Err::<CreatureKeywords, StateError>(e),
            }),
            r is Ok ==> self.objects.spec_get(object) is Some,
    {
        match self.creature_characteristics(object) {
            Ok(c) => Ok(c.keywords()),
            Err(e) => Err(e),
        }
    }

    /// Returns the power of a creature after continuous effects.
    pub(crate) fn creature_power(&self, object: ObjectId) -> (r: Result<i32, StateError>)
        ensures
            r == (match creature_of(*self, object) {
                Ok(c) => Ok(c.power),
                Err(e) => Err::<i32, StateError>(e),
            }),
            r is Ok ==> self.objects.spec_get(object) is Some,
    {
        match self.creature_characteristics(object) {
            Ok(c) => Ok(c.power()),
            Err(e) => Err(e),
        }
    }

    /// Damage still needed to destroy `object`: one with deathtouch, otherwise
    /// toughness minus damage already marked, floored at zero.
    pub(crate) fn lethal_damage_required(
        &self,
        object: ObjectId,
        source_keywords: CreatureKeywords,
    ) -> (r: Result<u32, StateError>)
        ensures
            r == lethal_result(*self, object, source_keywords),
            source_keywords.deathtouch && r is Ok ==> r == Ok::<u32, StateError>(1),
            r is Ok ==> self.objects.spec_get(object) is Some,
    {
        let record = match self.objects.get(object) {
            Some(r) => r,
            None => return Err(StateError::UnknownObject(object)),
        };
        let creature = match self.creature_characteristics(object) {
            Ok(c) => c,
            Err(e) => return Err(e),
        };
        if source_keywords.deathtouch() {
            return Ok(1);
        }
        let marked: i32 = if record.damage_marked() > i32::MAX as u32 {
            i32::MAX
        } else {
            record.damage_marked() as i32
        };
        let remaining = saturating_sub_i32(creature.toughness(), marked);
        if remaining > 0 {
            Ok(remaining as u32)
        } else {
            Ok(0)
        }
    }

    /// Returns true when a continuous effect with this ID is registered.
    pub(crate) fn continuous_effect_exists(&self, effect: ContinuousEffectId) -> (r: bool)
        ensures
            r == continuous_effect_registered(self.continuous_effects@, effect),
    {
        let mut i: usize = 0;
        while i < self.continuous_effects.len()
            invariant
                i <= self.continuous_effects@.len(),
                forall|j: int| 0 <= j < i ==> #[trigger] self.continuous_effects@[j].id != effect,
            decreases self.continuous_effects@.len() - i,
        {
            if self.continuous_effects[i].id == effect {
                return true;
            }
            i = i + 1;
        }
        false
    }

    /// Checks that a continuous effect names only existing players, objects
    /// and effects, and no dependency twice.
    pub(crate) fn validate_continuous_effect_definition(
        &self,
        definition: &ContinuousEffectDefinition,
    ) -> (r: Result<(), StateError>)
        ensures
            definition.controller.0 >= self.players@.len() ==> r == Err::<(), StateError>(
                StateError::UnknownPlayer(definition.controller),
            ),
            r is Ok <==> self.continuous_effect_definition_valid(*definition),
    {
        match self.require_player(definition.controller()) {
            Ok(()) => {},
            Err(e) => return Err(e),
        }
        if let Some(source) = definition.source() {
            if self.objects.get(source).is_none() {
                return Err(StateError::UnknownObject(source));
            }
        }
        match definition.target() {
            ContinuousEffectTarget::Object(object) => {
                if self.objects.get(object).is_none() {
                    return Err(StateError::UnknownObject(object));
                }
            },
            ContinuousEffectTarget::AllObjects => {},
        }
        if let ContinuousEffectOperation::CopyBaseCreature { from } = definition.operation() {
            if self.objects.get(from).is_none() {
                return Err(StateError::UnknownObject(from));
            }
        }
        let deps = definition.dependencies();
        let mut seen: Vec<ContinuousEffectId> = Vec::new();
        let mut i: usize = 0;
        while i < deps.len()
            invariant
                i <= deps@.len(),
                deps@ == definition.dependencies@,
                seen@ == deps@.subrange(0, i as int),
                definition.controller.0 < self.players@.len(),
                definition.source matches Some(s) ==> self.objects.spec_get(s) is Some,
                definition.target matches ContinuousEffectTarget::Object(o) ==> self.objects.spec_get(o) is Some,
                definition.operation matches ContinuousEffectOperation::CopyBaseCreature { from }
                    ==> self.objects.spec_get(from) is Some,
                forall|a: int, b: int| 0 <= a < b < i ==> deps@[a] != deps@[b],
                forall|a: int|
                    0 <= a < i ==> continuous_effect_registered(self.continuous_effects@, #[trigger] deps@[a]),
            decreases deps@.len() - i,
        {
            let dependency = deps[i];
            if contains_effect_id(&seen, dependency) {
                proof {
                    let a = choose|a: int| 0 <= a < seen@.len() && seen@[a] == dependency;
                    assert(deps@[a] == deps@[i as int]);
                }
                return Err(StateError::DuplicateContinuousEffectDependency(dependency));
            }
            if !self.continuous_effect_exists(dependency) {
                return Err(StateError::UnknownContinuousEffect(dependency));
            }
            seen.push(dependency);
            proof {
                assert(seen@ =~= deps@.subrange(0, i + 1));
                assert forall|a: int, b: int| 0 <= a < b < i + 1 implies deps@[a] != deps@[b] by {
                    if b == i {
                        assert(deps@.subrange(0, i as int)[a] == deps@[a]);
                    }
                }
            }
            i = i + 1;
        }
        assert(deps@ == definition.dependencies@);
        Ok(())
    }

    /// The condition under which a continuous effect definition is accepted.
    pub open spec fn continuous_effect_definition_valid(self, definition: ContinuousEffectDefinition) -> bool {
        &&& definition.controller.0 < self.players@.len()
        &&& definition.source matches Some(s) ==> self.objects.spec_get(s) is Some
        &&& definition.target matches ContinuousEffectTarget::Object(o) ==> self.objects.spec_get(o) is Some
        &&& definition.operation matches ContinuousEffectOperation::CopyBaseCreature { from }
            ==> self.objects.spec_get(from) is Some
        &&& forall|a: int, b: int|
            0 <= a < b < definition.dependencies@.len() ==> definition.dependencies@[a]
                != definition.dependencies@[b]
        &&& forall|a: int|
            0 <= a < definition.dependencies@.len() ==> continuous_effect_registered(
                self.continuous_effects@,
                #[trigger] definition.dependencies@[a],
            )
    }

    /// Registers one data-only continuous effect.
    pub fn register_continuous_effect(&mut self, definition: ContinuousEffectDefinition) -> (r:
        Result<ContinuousEffectId, StateError>)
        ensures
            zones_conserved(*old(self)) ==> zones_conserved(*final(self)),
            events_bounded(*old(self)) ==> events_bounded(*final(self)),
            r matches Ok(id) ==> id.0 == old(self).next_continuous_effect
                && final(self).continuous_effects@.len() == old(self).continuous_effects@.len() + 1
                && final(self).continuous_effects@.last().id == id,
            r is Err ==> final(self).continuous_effects@ == old(self).continuous_effects@,
            definition.controller.0 >= old(self).players@.len() ==> r == Err::<
                ContinuousEffectId,
                StateError,
            >(StateError::UnknownPlayer(definition.controller)),
            r is Ok <==> old(self).continuous_effect_definition_valid(definition),
            r matches Ok(id) ==> final(self).continuous_effects@ == old(self).continuous_effects@.push(
                ContinuousEffectSubscription {
                    id,
                    definition: ContinuousEffectDefinition {
                        timestamp: if definition.timestamp == 0 {
                            (id.0 + 1) as u64
                        } else {
                            definition.timestamp
                        },
                        ..definition
                    },
                },
            ),
    {
        match self.validate_continuous_effect_definition(&definition) {
            Ok(()) => {},
            Err(e) => return Err(e),
        }
        let id = ContinuousEffectId(self.next_continuous_effect);
        self.next_continuous_effect = self.next_continuous_effect.saturating_add(1);
        let mut definition = definition;
        if definition.timestamp == 0 {
            definition.timestamp = id.0 as u64 + 1;
        }
        let controller = definition.controller;
        let source = definition.source;
        let target = definition.target;
        let operation = definition.operation;
        let timestamp = definition.timestamp;
        self.continuous_effects.push(ContinuousEffectSubscription { id, definition });
        self.emit_event_without_triggers(
            GameEvent::ContinuousEffectRegistered {
                effect: id,
                controller,
                source,
                target,
                operation,
                layer: operation.layer(),
                timestamp,
            },
        );
        Ok(id)
    }
}

/// Returns true when `id` occurs in `ids`.
pub(crate) fn contains_effect_id(ids: &Vec<ContinuousEffectId>, id: ContinuousEffectId) -> (r: bool)
    ensures
        r == ids@.contains(id),
{
    let mut i: usize = 0;
    while i < ids.len()
        invariant
            i <= ids@.len(),
            forall|j: int| 0 <= j < i ==> ids@[j] != id,
        decreases ids@.len() - i,
    {
        if ids[i] == id {
            return true;
        }
        i = i + 1;
    }
    false
}

} // verus!
