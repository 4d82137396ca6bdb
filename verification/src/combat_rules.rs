//! Combat rules: attack and block legality, combat membership, damage
//! profiles and assignment validation, and dealing combat damage.

use vstd::prelude::*;

use crate::combat::{
    AttackDeclaration, AttackingCreature, BlockDeclaration, BlockingCreature, CombatDamageAssignment,
    CombatDamageAssignmentRequest, CombatDamageRecord, CombatDamageStepKind, CombatDamageTarget,
    CombatState,
};
use crate::events::GameEvent;
use crate::action::life_delta;
use crate::ids::{ObjectId, PlayerId};
use crate::characteristics::CreatureKeywords;
use crate::replacement::{damage_chooser, replaced_damage, replacement_ids_distinct};
use crate::layers::{characteristics_of, creature_of, lemma_characteristics_fail_only_on_unknown_objects, lemma_characteristics_ignore_marks, lethal_result, same_but_marks_and_tapping};
use crate::plumbing::{contains_object, events_bounded, zone_of, zones_conserved};
use crate::sba::{
    battlefield_objects, lemma_sba_quiet_kept, lemma_sba_quiet_tapping, lemma_settle_frame_chain, lemma_settle_frame_settles, sba_quiet, sba_settles,
    settle_frame,
};
use crate::state::{DamageReplacementEvent, GameState, ObjectRecord, PlayerState, StateError};
use crate::turn::{Step, ZoneId, ZoneKind};

verus! {

/// Damage obligations and legal targets of one combat damage source.
pub(crate) struct CombatDamageProfile {
    pub(crate) legal_targets: Vec<CombatDamageTarget>,
    pub(crate) required_total: u32,
    pub(crate) trample_blockers: Vec<ObjectId>,
    pub(crate) trample_defender: CombatDamageTarget,
}

/// Total damage a request assigns to one target.
pub open spec fn assigned_total(assignments: Seq<CombatDamageAssignment>, target: CombatDamageTarget) -> int
    decreases assignments.len(),
{
    if assignments.len() == 0 {
        0
    } else {
        assigned_total(assignments.drop_last(), target) + if assignments.last().target == target {
            assignments.last().amount as int
        } else {
            0int
        }
    }
}

/// Sum of all amounts in a request.
pub open spec fn assignment_sum(assignments: Seq<CombatDamageAssignment>) -> int
    decreases assignments.len(),
{
    if assignments.len() == 0 {
        0
    } else {
        assignment_sum(assignments.drop_last()) + assignments.last().amount as int
    }
}

/// The battlefield's zone ID.
pub open spec fn battlefield_zone() -> ZoneId {
    ZoneId { owner: None, kind: ZoneKind::Battlefield }
}

/// `object` is a declared attacker still on the battlefield as a creature.
pub open spec fn attacker_active(state: GameState, object: ObjectId) -> bool {
    &&& exists|i: int|
        0 <= i < state.combat.attackers@.len() && #[trigger] state.combat.attackers@[i].object == object
    &&& zone_of(state.zones@, object) == Some(battlefield_zone())
    &&& creature_of(state, object) is Ok
}

/// `object` is a declared blocker still on the battlefield as a creature.
pub open spec fn blocker_active(state: GameState, object: ObjectId) -> bool {
    &&& exists|i: int|
        0 <= i < state.combat.blockers@.len() && #[trigger] state.combat.blockers@[i].object == object
    &&& zone_of(state.zones@, object) == Some(battlefield_zone())
    &&& creature_of(state, object) is Ok
}

/// The entries of `blockers` that are still active blockers, in order.
pub open spec fn active_blockers(state: GameState, blockers: Seq<ObjectId>) -> Seq<ObjectId>
    decreases blockers.len(),
{
    if blockers.len() == 0 {
        Seq::empty()
    } else if blocker_active(state, blockers.last()) {
        active_blockers(state, blockers.drop_last()).push(blockers.last())
    } else {
        active_blockers(state, blockers.drop_last())
    }
}

/// The declared attackers still active, in declaration order.
pub open spec fn active_attackers(state: GameState, attackers: Seq<AttackingCreature>) -> Seq<ObjectId>
    decreases attackers.len(),
{
    if attackers.len() == 0 {
        Seq::empty()
    } else if attacker_active(state, attackers.last().object) {
        active_attackers(state, attackers.drop_last()).push(attackers.last().object)
    } else {
        active_attackers(state, attackers.drop_last())
    }
}

/// The declared blockers still active, in declaration order.
pub open spec fn active_blocking(state: GameState, blockers: Seq<BlockingCreature>) -> Seq<ObjectId>
    decreases blockers.len(),
{
    if blockers.len() == 0 {
        Seq::empty()
    } else if blocker_active(state, blockers.last().object) {
        active_blocking(state, blockers.drop_last()).push(blockers.last().object)
    } else {
        active_blocking(state, blockers.drop_last())
    }
}

/// Every active combatant: attackers first, then blockers.
pub open spec fn active_combatants(state: GameState) -> Seq<ObjectId> {
    active_attackers(state, state.combat.attackers@) + active_blocking(state, state.combat.blockers@)
}

/// `object` deals damage in a combat damage step of kind `step`, given its
/// keywords.
pub open spec fn deals_damage_in(
    state: GameState,
    step: CombatDamageStepKind,
    object: ObjectId,
    keywords: CreatureKeywords,
) -> bool {
    match step {
        CombatDamageStepKind::Normal => true,
        CombatDamageStepKind::FirstStrike => keywords.first_strike || keywords.double_strike,
        CombatDamageStepKind::Regular => !state.combat.first_strike_participants@.contains(object)
            || keywords.double_strike,
    }
}

/// Who deals damage in which combat damage step: every combatant in a
/// single damage step; in the first-strike step exactly the creatures with
/// first strike or double strike; in the regular step every creature that
/// took no part in the first-strike step, and those with double strike a
/// second time.
pub proof fn lemma_strike_steps(state: GameState, object: ObjectId, keywords: CreatureKeywords)
    ensures
        deals_damage_in(state, CombatDamageStepKind::Normal, object, keywords),
        deals_damage_in(state, CombatDamageStepKind::FirstStrike, object, keywords) <==> (keywords.first_strike
            || keywords.double_strike),
        keywords.double_strike ==> deals_damage_in(state, CombatDamageStepKind::FirstStrike, object, keywords)
            && deals_damage_in(state, CombatDamageStepKind::Regular, object, keywords),
        !state.combat.first_strike_participants@.contains(object) ==> deals_damage_in(
            state,
            CombatDamageStepKind::Regular,
            object,
            keywords,
        ),
        state.combat.first_strike_participants@.contains(object) && !keywords.double_strike ==> !deals_damage_in(
            state,
            CombatDamageStepKind::Regular,
            object,
            keywords,
        ),
{
}

/// The combatants among `objects` that deal damage in `step`, in order.
pub open spec fn damage_dealers(state: GameState, step: CombatDamageStepKind, objects: Seq<ObjectId>) -> Seq<
    ObjectId,
>
    decreases objects.len(),
{
    if objects.len() == 0 {
        Seq::empty()
    } else {
        let rest = damage_dealers(state, step, objects.drop_last());
        match creature_of(state, objects.last()) {
            Ok(c) => if deals_damage_in(state, step, objects.last(), c.keywords) {
                rest.push(objects.last())
            } else {
                rest
            },
            Err(_) => rest,
        }
    }
}

/// Position of the first declared attacker that is `object`, if any.
pub open spec fn first_attacker_index(attackers: Seq<AttackingCreature>, object: ObjectId) -> Option<int> {
    if exists|i: int| 0 <= i < attackers.len() && attackers[i].object == object {
        Some(
            choose|i: int|
                0 <= i < attackers.len() && attackers[i].object == object && forall|j: int|
                    0 <= j < i ==> (#[trigger] attackers[j]).object != object,
        )
    } else {
        None
    }
}

/// Position of the first declared blocker that is `object`, if any.
pub open spec fn first_blocker_index(blockers: Seq<BlockingCreature>, object: ObjectId) -> Option<int> {
    if exists|i: int| 0 <= i < blockers.len() && blockers[i].object == object {
        Some(
            choose|i: int|
                0 <= i < blockers.len() && blockers[i].object == object && forall|j: int|
                    0 <= j < i ==> (#[trigger] blockers[j]).object != object,
        )
    } else {
        None
    }
}

proof fn lemma_first_attacker_index(attackers: Seq<AttackingCreature>, object: ObjectId, i: int)
    requires
        0 <= i < attackers.len(),
        attackers[i].object == object,
        forall|j: int| 0 <= j < i ==> (#[trigger] attackers[j]).object != object,
    ensures
        first_attacker_index(attackers, object) == Some(i),
{
    let c = choose|c: int|
        0 <= c < attackers.len() && attackers[c].object == object && forall|j: int|
            0 <= j < c ==> (#[trigger] attackers[j]).object != object;
    if c < i {
        assert(attackers[c].object != object);
    }
    if c > i {
        assert(attackers[i].object != object);
    }
}

proof fn lemma_first_blocker_index(blockers: Seq<BlockingCreature>, object: ObjectId, i: int)
    requires
        0 <= i < blockers.len(),
        blockers[i].object == object,
        forall|j: int| 0 <= j < i ==> (#[trigger] blockers[j]).object != object,
    ensures
        first_blocker_index(blockers, object) == Some(i),
{
    let c = choose|c: int|
        0 <= c < blockers.len() && blockers[c].object == object && forall|j: int|
            0 <= j < c ==> (#[trigger] blockers[j]).object != object;
    if c < i {
        assert(blockers[c].object != object);
    }
    if c > i {
        assert(blockers[i].object != object);
    }
}

/// The combat damage obligations of `source`: the targets it may assign to,
/// the total it must assign, the blockers it must assign lethal damage to
/// before trampling over, and the target trample damage goes to.
pub open spec fn damage_profile(state: GameState, source: ObjectId) -> Result<
    (Seq<CombatDamageTarget>, int, Seq<ObjectId>, CombatDamageTarget),
    StateError,
> {
    match creature_of(state, source) {
        Err(e) => Err(e),
        Ok(creature) => {
            let required = if creature.power > 0 {
                creature.power as int
            } else {
                0
            };
            match first_attacker_index(state.combat.attackers@, source) {
                Some(i) => {
                    let attacker = state.combat.attackers@[i];
                    let defender = CombatDamageTarget::Player(attacker.defending_player);
                    if !attacker.blocked {
                        Ok((seq![defender], required, Seq::empty(), defender))
                    } else {
                        let current = active_blockers(state, attacker.blockers@);
                        if current.len() == 0 {
                            if creature.keywords.trample {
                                Ok((seq![defender], required, Seq::empty(), defender))
                            } else {
                                Ok((Seq::empty(), 0, Seq::empty(), defender))
                            }
                        } else {
                            let targets = current.map_values(
                                |b: ObjectId| CombatDamageTarget::Object(b),
                            );
                            if creature.keywords.trample {
                                Ok((targets.push(defender), required, current, defender))
                            } else {
                                Ok((targets, required, Seq::empty(), defender))
                            }
                        }
                    }
                },
                None => match first_blocker_index(state.combat.blockers@, source) {
                    Some(j) => {
                        let attacker = state.combat.blockers@[j].attacker;
                        let target = CombatDamageTarget::Object(attacker);
                        let active = attacker_active(state, attacker);
                        Ok(
                            (
                                if active {
                                    seq![target]
                                } else {
                                    Seq::empty()
                                },
                                if active {
                                    required
                                } else {
                                    0
                                },
                                Seq::empty(),
                                target,
                            ),
                        )
                    },
                    None => Err(StateError::IllegalCombatDamageAssignment(source)),
                },
            }
        },
    }
}

/// An unblocked attacker must assign exactly its power, or nothing when
/// its power is not positive, and only to the player it attacks.
pub proof fn lemma_unblocked_attacker_hits_defender(state: GameState, source: ObjectId, i: int)
    requires
        first_attacker_index(state.combat.attackers@, source) == Some(i),
        !state.combat.attackers@[i].blocked,
        creature_of(state, source) is Ok,
    ensures
        ({
            let defender = CombatDamageTarget::Player(state.combat.attackers@[i].defending_player);
            let power = creature_of(state, source)->Ok_0.power as int;
            damage_profile(state, source) == Ok::<
                (Seq<CombatDamageTarget>, int, Seq<ObjectId>, CombatDamageTarget),
                StateError,
            >((seq![defender], if power > 0 { power } else { 0 }, Seq::<ObjectId>::empty(), defender))
        }),
{
}

/// `amount` capped at `u32::MAX`.
pub open spec fn capped_u32(amount: int) -> int {
    if amount > u32::MAX {
        u32::MAX as int
    } else {
        amount
    }
}

/// Damage may reach blocker `k + 1` or later, or the defender, only after
/// blockers `k..` each took lethal damage; checked from blocker `k` on.
pub open spec fn blocker_order_from(
    state: GameState,
    source: ObjectId,
    assignments: Seq<CombatDamageAssignment>,
    current: Seq<ObjectId>,
    to_defender: int,
    keywords: CreatureKeywords,
    k: int,
) -> Result<(), StateError>
    decreases current.len() - k,
{
    if k < 0 || k >= current.len() - 1 {
        Ok(())
    } else {
        let later = to_defender > 0 || exists|m: int|
            k < m < current.len() && #[trigger] assigned_total(
                assignments,
                CombatDamageTarget::Object(current[m]),
            ) > 0;
        if later {
            match lethal_result(state, current[k], keywords) {
                Err(e) => Err(e),
                Ok(lethal) => if capped_u32(
                    assigned_total(assignments, CombatDamageTarget::Object(current[k])),
                ) < lethal {
                    Err(StateError::IllegalCombatDamageAssignment(source))
                } else {
                    blocker_order_from(state, source, assignments, current, to_defender, keywords, k + 1)
                },
            }
        } else {
            blocker_order_from(state, source, assignments, current, to_defender, keywords, k + 1)
        }
    }
}

/// An attacker blocked by two or more creatures assigns damage down its
/// blocker order: lethal damage to each before any to the next or to the
/// defender.
pub open spec fn blocker_order_result(
    state: GameState,
    source: ObjectId,
    assignments: Seq<CombatDamageAssignment>,
) -> Result<(), StateError> {
    match first_attacker_index(state.combat.attackers@, source) {
        None => Ok(()),
        Some(i) => {
            let attacker = state.combat.attackers@[i];
            if !attacker.blocked {
                Ok(())
            } else {
                let current = active_blockers(state, attacker.blockers@);
                if current.len() < 2 {
                    Ok(())
                } else {
                    match creature_of(state, source) {
                        Err(e) => Err(e),
                        Ok(c) => blocker_order_from(
                            state,
                            source,
                            assignments,
                            current,
                            assigned_total(
                                assignments,
                                CombatDamageTarget::Player(attacker.defending_player),
                            ),
                            c.keywords,
                            0,
                        ),
                    }
                }
            }
        },
    }
}

/// Each of `blockers` from `k` on took lethal damage.
pub open spec fn trample_lethal_from(
    state: GameState,
    source: ObjectId,
    assignments: Seq<CombatDamageAssignment>,
    blockers: Seq<ObjectId>,
    keywords: CreatureKeywords,
    k: int,
) -> Result<(), StateError>
    decreases blockers.len() - k,
{
    if k < 0 || k >= blockers.len() {
        Ok(())
    } else {
        match lethal_result(state, blockers[k], keywords) {
            Err(e) => Err(e),
            Ok(lethal) => if capped_u32(
                assigned_total(assignments, CombatDamageTarget::Object(blockers[k])),
            ) < lethal {
                Err(StateError::IllegalCombatDamageAssignment(source))
            } else {
                trample_lethal_from(state, source, assignments, blockers, keywords, k + 1)
            },
        }
    }
}

/// A trampler assigns to the defender only after lethal damage to every
/// blocker.
pub open spec fn trample_result(
    state: GameState,
    source: ObjectId,
    assignments: Seq<CombatDamageAssignment>,
    blockers: Seq<ObjectId>,
    defender: CombatDamageTarget,
) -> Result<(), StateError> {
    if assigned_total(assignments, defender) == 0 {
        Ok(())
    } else {
        match creature_of(state, source) {
            Err(e) => Err(e),
            Ok(c) => trample_lethal_from(state, source, assignments, blockers, c.keywords, 0),
        }
    }
}

/// Blockers `k..` that pass the trample check each took lethal damage.
proof fn lemma_trample_lethal_from(
    state: GameState,
    source: ObjectId,
    assignments: Seq<CombatDamageAssignment>,
    blockers: Seq<ObjectId>,
    keywords: CreatureKeywords,
    k: int,
)
    requires
        0 <= k,
        trample_lethal_from(state, source, assignments, blockers, keywords, k) is Ok,
    ensures
        forall|m: int|
            k <= m < blockers.len() ==> lethal_result(state, #[trigger] blockers[m], keywords) is Ok && capped_u32(
                assigned_total(assignments, CombatDamageTarget::Object(blockers[m])),
            ) >= lethal_result(state, blockers[m], keywords)->Ok_0,
    decreases blockers.len() - k,
{
    if k < blockers.len() {
        lemma_trample_lethal_from(state, source, assignments, blockers, keywords, k + 1);
    }
}

/// Trample: when an accepted assignment of a blocked attacker with trample
/// sends any damage to the player it attacks, every creature still blocking
/// it was assigned at least lethal damage (counted up to `u32::MAX`).
pub proof fn lemma_trample_assigns_lethal_first(
    state: GameState,
    source: ObjectId,
    assignments: Seq<CombatDamageAssignment>,
    i: int,
)
    requires
        first_attacker_index(state.combat.attackers@, source) == Some(i),
        state.combat.attackers@[i].blocked,
        creature_of(state, source) is Ok,
        creature_of(state, source)->Ok_0.keywords.trample,
        damage_request_result(state, source, assignments) is Ok,
    ensures
        ({
            let attacker = state.combat.attackers@[i];
            let blockers = active_blockers(state, attacker.blockers@);
            let keywords = creature_of(state, source)->Ok_0.keywords;
            assigned_total(assignments, CombatDamageTarget::Player(attacker.defending_player)) > 0 ==> forall|m: int|
                0 <= m < blockers.len() ==> lethal_result(state, #[trigger] blockers[m], keywords) is Ok && capped_u32(
                    assigned_total(assignments, CombatDamageTarget::Object(blockers[m])),
                ) >= lethal_result(state, blockers[m], keywords)->Ok_0
        }),
{
    let attacker = state.combat.attackers@[i];
    let blockers = active_blockers(state, attacker.blockers@);
    let keywords = creature_of(state, source)->Ok_0.keywords;
    if blockers.len() > 0 && assigned_total(assignments, CombatDamageTarget::Player(attacker.defending_player)) > 0 {
        let profile = damage_profile(state, source)->Ok_0;
        assert(profile.2 == blockers);
        assert(profile.3 == CombatDamageTarget::Player(attacker.defending_player));
        lemma_trample_lethal_from(state, source, assignments, blockers, keywords, 0);
    }
}

/// Scans assignments `i..`: each must go to a legal target and the running
/// total, starting at `total`, must fit in a `u32`; gives the final total.
pub open spec fn assignment_scan(
    source: ObjectId,
    assignments: Seq<CombatDamageAssignment>,
    targets: Seq<CombatDamageTarget>,
    i: int,
    total: int,
) -> Result<int, StateError>
    decreases assignments.len() - i,
{
    if i < 0 || i >= assignments.len() {
        Ok(total)
    } else if !targets.contains(assignments[i].target) {
        Err(StateError::IllegalCombatDamageAssignment(source))
    } else if total + assignments[i].amount > u32::MAX {
        Err(StateError::CombatDamageOverflow)
    } else {
        assignment_scan(source, assignments, targets, i + 1, total + assignments[i].amount)
    }
}

/// Assignments `i..` that pass the scan all go to listed targets.
proof fn lemma_scan_targets(
    source: ObjectId,
    assignments: Seq<CombatDamageAssignment>,
    targets: Seq<CombatDamageTarget>,
    i: int,
    total: int,
)
    requires
        0 <= i,
        assignment_scan(source, assignments, targets, i, total) is Ok,
    ensures
        forall|k: int| i <= k < assignments.len() ==> targets.contains((#[trigger] assignments[k]).target),
    decreases assignments.len() - i,
{
    if i < assignments.len() {
        lemma_scan_targets(source, assignments, targets, i + 1, total + assignments[i].amount);
    }
}

/// Nothing is assigned to a target that no assignment names.
proof fn lemma_assigned_total_unnamed(assignments: Seq<CombatDamageAssignment>, target: CombatDamageTarget)
    requires
        forall|k: int| 0 <= k < assignments.len() ==> (#[trigger] assignments[k]).target != target,
    ensures
        assigned_total(assignments, target) == 0,
    decreases assignments.len(),
{
    if assignments.len() > 0 {
        let rest = assignments.drop_last();
        assert forall|k: int| 0 <= k < rest.len() implies (#[trigger] rest[k]).target != target by {
            assert(rest[k] == assignments[k]);
        }
        lemma_assigned_total_unnamed(rest, target);
        assert(assignments.last() == assignments[assignments.len() - 1]);
    }
}

/// A blocked attacker without trample assigns no damage to the player it
/// attacks, even when every creature blocking it has left combat.
pub proof fn lemma_blocked_attacker_without_trample_spares_defender(
    state: GameState,
    source: ObjectId,
    assignments: Seq<CombatDamageAssignment>,
    i: int,
)
    requires
        first_attacker_index(state.combat.attackers@, source) == Some(i),
        state.combat.attackers@[i].blocked,
        creature_of(state, source) is Ok,
        !creature_of(state, source)->Ok_0.keywords.trample,
        damage_request_result(state, source, assignments) is Ok,
    ensures
        assigned_total(assignments, CombatDamageTarget::Player(state.combat.attackers@[i].defending_player)) == 0,
{
    let defender = CombatDamageTarget::Player(state.combat.attackers@[i].defending_player);
    let profile = damage_profile(state, source)->Ok_0;
    lemma_scan_targets(source, assignments, profile.0, 0, 0);
    assert(!profile.0.contains(defender)) by {
        if profile.0.contains(defender) {
            let k = choose|k: int| 0 <= k < profile.0.len() && profile.0[k] == defender;
            assert(profile.0[k] is Object);
        }
    }
    assert forall|k: int| 0 <= k < assignments.len() implies (#[trigger] assignments[k]).target != defender by {
        assert(profile.0.contains(assignments[k].target));
    }
    lemma_assigned_total_unnamed(assignments, defender);
}

/// Whether one source's damage assignment is legal, and if not the error.
pub open spec fn damage_request_result(
    state: GameState,
    source: ObjectId,
    assignments: Seq<CombatDamageAssignment>,
) -> Result<(), StateError> {
    match damage_profile(state, source) {
        Err(e) => Err(e),
        Ok(profile) => match assignment_scan(source, assignments, profile.0, 0, 0) {
            Err(e) => Err(e),
            Ok(total) => if total != profile.1 {
                Err(StateError::IllegalCombatDamageAssignment(source))
            } else {
                match blocker_order_result(state, source, assignments) {
                    Err(e) => Err(e),
                    Ok(()) => if profile.2.len() > 0 {
                        trample_result(state, source, assignments, profile.2, profile.3)
                    } else {
                        Ok(())
                    },
                }
            },
        },
    }
}

/// Checks damage requests `i..` in order: no source twice, only eligible
/// sources, each request legal for its source.
pub open spec fn damage_requests_from(
    state: GameState,
    eligible: Seq<ObjectId>,
    requests: Seq<CombatDamageAssignmentRequest>,
    i: int,
) -> Result<(), StateError>
    decreases requests.len() - i,
{
    if i < 0 || i >= requests.len() {
        Ok(())
    } else {
        let source = requests[i].source;
        if exists|j: int| 0 <= j < i && #[trigger] requests[j].source == source {
            Err(StateError::DuplicateCombatObject(source))
        } else if !eligible.contains(source) {
            Err(StateError::IllegalCombatDamageAssignment(source))
        } else {
            match damage_request_result(state, source, requests[i].assignments@) {
                Err(e) => Err(e),
                Ok(_) => damage_requests_from(state, eligible, requests, i + 1),
            }
        }
    }
}

/// Whether one declared attack is legal for `player`, and if not the
/// error: the attacker must exist, be controlled by `player` on the
/// battlefield, be an untapped creature that is not summoning sick (or has
/// haste), and attack another known player.
pub open spec fn attack_result(state: GameState, player: PlayerId, attack: AttackDeclaration) -> Result<
    (),
    StateError,
> {
    match state.objects.spec_get(attack.attacker) {
        None => Err(StateError::UnknownObject(attack.attacker)),
        Some(record) => match characteristics_of(state, attack.attacker) {
            Err(e) => Err(e),
            Ok(c) => if c.controller != player || zone_of(state.zones@, attack.attacker) != Some(
                ZoneId { owner: None, kind: ZoneKind::Battlefield },
            ) {
                Err(StateError::IllegalAttack(attack.attacker))
            } else {
                match creature_of(state, attack.attacker) {
                    Err(e) => Err(e),
                    Ok(creature) => if record.tapped {
                        Err(StateError::CreatureTapped(attack.attacker))
                    } else if record.controlled_since_turn == state.turn_number && !creature.keywords.haste {
                        Err(StateError::SummoningSick(attack.attacker))
                    } else if attack.defending_player.0 >= state.players@.len() {
                        Err(StateError::UnknownPlayer(attack.defending_player))
                    } else if attack.defending_player == player {
                        Err(StateError::IllegalAttack(attack.attacker))
                    } else {
                        Ok(())
                    },
                }
            },
        },
    }
}

/// Summoning sickness and haste: a creature with haste is never refused as
/// summoning sick, and one that is refused so came under its controller's
/// control this turn and lacks haste. An attack that is accepted is made by
/// an untapped creature on the battlefield that the attacking player
/// controls and that has haste or has been under that control since an
/// earlier turn, at another player who is in the game.
pub proof fn lemma_attack_legality(state: GameState, player: PlayerId, attack: AttackDeclaration)
    ensures
        creature_of(state, attack.attacker) matches Ok(cr) && cr.keywords.haste ==> attack_result(
            state,
            player,
            attack,
        ) != Err::<(), StateError>(StateError::SummoningSick(attack.attacker)),
        attack_result(state, player, attack) == Err::<(), StateError>(StateError::SummoningSick(attack.attacker))
            ==> {
            &&& state.objects.spec_get(attack.attacker) is Some
            &&& state.objects.spec_get(attack.attacker)->0.controlled_since_turn == state.turn_number
            &&& creature_of(state, attack.attacker) is Ok
            &&& !creature_of(state, attack.attacker)->Ok_0.keywords.haste
        },
        attack_result(state, player, attack) is Ok ==> {
            &&& state.objects.spec_get(attack.attacker) is Some
            &&& !state.objects.spec_get(attack.attacker)->0.tapped
            &&& characteristics_of(state, attack.attacker) is Ok
            &&& characteristics_of(state, attack.attacker)->Ok_0.controller == player
            &&& zone_of(state.zones@, attack.attacker) == Some(ZoneId { owner: None, kind: ZoneKind::Battlefield })
            &&& creature_of(state, attack.attacker) is Ok
            &&& creature_of(state, attack.attacker)->Ok_0.keywords.haste
                || state.objects.spec_get(attack.attacker)->0.controlled_since_turn != state.turn_number
            &&& attack.defending_player.0 < state.players@.len()
            &&& attack.defending_player != player
        },
{
    lemma_characteristics_fail_only_on_unknown_objects(state, attack.attacker);
}

/// Checks attacks `i..` in order: no creature attacks twice, each attack
/// legal.
pub open spec fn attacks_from(state: GameState, player: PlayerId, attacks: Seq<AttackDeclaration>, i: int) -> Result<
    (),
    StateError,
>
    decreases attacks.len() - i,
{
    if i < 0 || i >= attacks.len() {
        Ok(())
    } else {
        let attacker = attacks[i].attacker;
        if exists|j: int| 0 <= j < i && #[trigger] attacks[j].attacker == attacker {
            Err(StateError::DuplicateCombatObject(attacker))
        } else {
            match attack_result(state, player, attacks[i]) {
                Err(e) => Err(e),
                Ok(_) => attacks_from(state, player, attacks, i + 1),
            }
        }
    }
}

/// Whether a declaration of attackers by `player` is legal now, and if not
/// the error it is refused with: it is the declare attackers step, `player`
/// is the active player and holds priority, and every attack is legal.
pub open spec fn attack_declaration_check(state: GameState, player: PlayerId, attacks: Seq<AttackDeclaration>) -> Result<
    (),
    StateError,
> {
    if state.current_step != Some(Step::DeclareAttackers) {
        Err(StateError::InvalidCombatStep { expected: Step::DeclareAttackers, actual: state.current_step })
    } else if state.active_player != Some(player) {
        Err(StateError::InvalidCombatPlayer(player))
    } else {
        match state.priority_player {
            None => Err(StateError::NoPriority),
            Some(p) => if p != player {
                Err(StateError::PriorityPlayerMismatch { expected: p, actual: player })
            } else {
                attacks_from(state, player, attacks, 0)
            },
        }
    }
}

/// Whether one declared block is legal for `defending_player`, and if not
/// the error: the blocker must exist, be controlled by the defender on the
/// battlefield, be an untapped creature, and block a creature attacking the
/// defender; a flying attacker needs a blocker with flying or reach.
pub open spec fn block_result(state: GameState, defending_player: PlayerId, block: BlockDeclaration) -> Result<
    (),
    StateError,
> {
    let illegal = StateError::IllegalBlock { blocker: block.blocker, attacker: block.attacker };
    match state.objects.spec_get(block.blocker) {
        None => Err(StateError::UnknownObject(block.blocker)),
        Some(record) => match characteristics_of(state, block.blocker) {
            Err(e) => Err(e),
            Ok(c) => if c.controller != defending_player || zone_of(state.zones@, block.blocker) != Some(
                ZoneId { owner: None, kind: ZoneKind::Battlefield },
            ) {
                Err(illegal)
            } else {
                match creature_of(state, block.blocker) {
                    Err(e) => Err(e),
                    Ok(blocker) => if record.tapped {
                        Err(StateError::CreatureTapped(block.blocker))
                    } else {
                        match first_attacker_index(state.combat.attackers@, block.attacker) {
                            None => Err(illegal),
                            Some(i) => if state.combat.attackers@[i].defending_player != defending_player {
                                Err(illegal)
                            } else {
                                match creature_of(state, block.attacker) {
                                    Err(e) => Err(e),
                                    Ok(attacker) => if attacker.keywords.flying && !(blocker.keywords.flying
                                        || blocker.keywords.reach) {
                                        Err(illegal)
                                    } else {
                                        Ok(())
                                    },
                                }
                            },
                        }
                    },
                }
            },
        },
    }
}

/// When some attacker is `object`, the first such position is found.
proof fn lemma_first_attacker_index_found(attackers: Seq<AttackingCreature>, object: ObjectId, i: int)
    requires
        0 <= i < attackers.len(),
        attackers[i].object == object,
    ensures
        first_attacker_index(attackers, object) matches Some(k) && 0 <= k < attackers.len()
            && attackers[k].object == object,
    decreases i,
{
    if exists|j: int| 0 <= j < i && attackers[j].object == object {
        let j = choose|j: int| 0 <= j < i && attackers[j].object == object;
        lemma_first_attacker_index_found(attackers, object, j);
    } else {
        assert forall|j: int| 0 <= j < i implies (#[trigger] attackers[j]).object != object by {
            if attackers[j].object == object {
                assert(0 <= j < i && attackers[j].object == object);
            }
        }
        lemma_first_attacker_index(attackers, object, i);
    }
}

/// A block that is accepted is made by an untapped creature on the
/// battlefield that the defending player controls, against a creature that
/// is attacking that player; an attacker with flying is blocked only by a
/// creature with flying or reach, and any other blocker of it is refused.
pub proof fn lemma_block_legality(state: GameState, defending_player: PlayerId, block: BlockDeclaration)
    ensures
        block_result(state, defending_player, block) is Ok ==> {
            &&& state.objects.spec_get(block.blocker) is Some
            &&& !state.objects.spec_get(block.blocker)->0.tapped
            &&& characteristics_of(state, block.blocker) is Ok
            &&& characteristics_of(state, block.blocker)->Ok_0.controller == defending_player
            &&& zone_of(state.zones@, block.blocker) == Some(ZoneId { owner: None, kind: ZoneKind::Battlefield })
            &&& creature_of(state, block.blocker) is Ok
            &&& creature_of(state, block.attacker) is Ok
            &&& exists|i: int|
                0 <= i < state.combat.attackers@.len() && (#[trigger] state.combat.attackers@[i]).object
                    == block.attacker && state.combat.attackers@[i].defending_player == defending_player
            &&& creature_of(state, block.attacker)->Ok_0.keywords.flying ==> (creature_of(
                state,
                block.blocker,
            )->Ok_0.keywords.flying || creature_of(state, block.blocker)->Ok_0.keywords.reach)
        },
        creature_of(state, block.attacker) is Ok && creature_of(state, block.attacker)->Ok_0.keywords.flying
            && creature_of(state, block.blocker) is Ok && !creature_of(state, block.blocker)->Ok_0.keywords.flying
            && !creature_of(state, block.blocker)->Ok_0.keywords.reach ==> block_result(
            state,
            defending_player,
            block,
        ) is Err,
{
    if block_result(state, defending_player, block) is Ok {
        if exists|i: int| 0 <= i < state.combat.attackers@.len() && state.combat.attackers@[i].object
            == block.attacker {
            let i = choose|i: int|
                0 <= i < state.combat.attackers@.len() && state.combat.attackers@[i].object == block.attacker;
            lemma_first_attacker_index_found(state.combat.attackers@, block.attacker, i);
        }
        let k = first_attacker_index(state.combat.attackers@, block.attacker)->0;
        assert(0 <= k < state.combat.attackers@.len() && state.combat.attackers@[k].object == block.attacker);
    }
}

/// Attackers `i..` pass the menace check only if each of them has creature
/// values and none with menace is blocked by exactly one creature.
proof fn lemma_menace_result_from(state: GameState, blocks: Seq<BlockDeclaration>, i: int)
    requires
        0 <= i,
        menace_result_from(state, blocks, i) is Ok,
    ensures
        forall|k: int|
            i <= k < state.combat.attackers@.len() ==> creature_of(
                state,
                (#[trigger] state.combat.attackers@[k]).object,
            ) is Ok && (creature_of(state, state.combat.attackers@[k].object)->Ok_0.keywords.menace
                ==> blocks_on(blocks, state.combat.attackers@[k].object).len() != 1),
    decreases state.combat.attackers@.len() - i,
{
    if i < state.combat.attackers@.len() {
        lemma_menace_result_from(state, blocks, i + 1);
    }
}

/// An accepted declaration of blockers blocks no attacker with menace by
/// exactly one creature.
pub proof fn lemma_menace_needs_two_blockers(
    state: GameState,
    defending_player: PlayerId,
    blocks: Seq<BlockDeclaration>,
)
    ensures
        block_declaration_check(state, defending_player, blocks) is Ok ==> forall|k: int|
            0 <= k < state.combat.attackers@.len() && (creature_of(
                state,
                #[trigger] state.combat.attackers@[k].object,
            ) matches Ok(c) && c.keywords.menace) ==> blocks_on(blocks, state.combat.attackers@[k].object).len()
                != 1,
{
    if block_declaration_check(state, defending_player, blocks) is Ok {
        lemma_menace_result_from(state, blocks, 0);
    }
}

/// Checks blocks `i..` in order: no creature blocks twice, each block legal.
pub open spec fn blocks_from(
    state: GameState,
    defending_player: PlayerId,
    blocks: Seq<BlockDeclaration>,
    i: int,
) -> Result<(), StateError>
    decreases blocks.len() - i,
{
    if i < 0 || i >= blocks.len() {
        Ok(())
    } else {
        let blocker = blocks[i].blocker;
        if exists|j: int| 0 <= j < i && #[trigger] blocks[j].blocker == blocker {
            Err(StateError::DuplicateCombatObject(blocker))
        } else {
            match block_result(state, defending_player, blocks[i]) {
                Err(e) => Err(e),
                Ok(_) => blocks_from(state, defending_player, blocks, i + 1),
            }
        }
    }
}

/// Whether a declaration of blockers is legal now, and if not the error it
/// is refused with.
pub open spec fn block_declaration_check(
    state: GameState,
    defending_player: PlayerId,
    blocks: Seq<BlockDeclaration>,
) -> Result<(), StateError> {
    if state.current_step != Some(Step::DeclareBlockers) {
        Err(StateError::InvalidCombatStep { expected: Step::DeclareBlockers, actual: state.current_step })
    } else if defending_player.0 >= state.players@.len() {
        Err(StateError::UnknownPlayer(defending_player))
    } else if state.active_player == Some(defending_player) {
        Err(StateError::InvalidCombatPlayer(defending_player))
    } else {
        match blocks_from(state, defending_player, blocks, 0) {
            Err(e) => Err(e),
            Ok(_) => menace_result_from(state, blocks, 0),
        }
    }
}

/// The block declarations among `blocks` that block `attacker`, in order.
pub open spec fn blocks_on(blocks: Seq<BlockDeclaration>, attacker: ObjectId) -> Seq<BlockDeclaration>
    decreases blocks.len(),
{
    if blocks.len() == 0 {
        Seq::empty()
    } else {
        let rest = blocks_on(blocks.drop_last(), attacker);
        if blocks.last().attacker == attacker {
            rest.push(blocks.last())
        } else {
            rest
        }
    }
}

/// Checks attackers `i..` in order: a menace attacker may not be blocked by
/// exactly one creature; the error names that creature.
pub open spec fn menace_result_from(state: GameState, blocks: Seq<BlockDeclaration>, i: int) -> Result<
    (),
    StateError,
>
    decreases state.combat.attackers@.len() - i,
{
    if i < 0 || i >= state.combat.attackers@.len() {
        Ok(())
    } else {
        let attacker = state.combat.attackers@[i].object;
        match creature_of(state, attacker) {
            Err(e) => Err(e),
            Ok(creature) => {
                let on = blocks_on(blocks, attacker);
                if creature.keywords.menace && on.len() == 1 {
                    Err(StateError::IllegalBlock { blocker: on[0].blocker, attacker })
                } else {
                    menace_result_from(state, blocks, i + 1)
                }
            },
        }
    }
}

/// Extending a list of blocks by one keeps the earlier blocks on an
/// attacker first.
proof fn lemma_blocks_on_prefix(pre: Seq<BlockDeclaration>, next: Seq<BlockDeclaration>, attacker: ObjectId)
    requires
        next.len() == pre.len() + 1,
        next.drop_last() == pre,
    ensures
        blocks_on(next, attacker).len() >= blocks_on(pre, attacker).len(),
        blocks_on(pre, attacker).len() > 0 ==> blocks_on(next, attacker)[0] == blocks_on(pre, attacker)[0],
        next.last().attacker == attacker ==> blocks_on(next, attacker) == blocks_on(pre, attacker).push(next.last()),
        next.last().attacker != attacker ==> blocks_on(next, attacker) == blocks_on(pre, attacker),
{
}

/// Whether some request in `requests` is for `source`.
pub open spec fn requested(requests: Seq<CombatDamageAssignmentRequest>, source: ObjectId) -> bool {
    exists|j: int| 0 <= j < requests.len() && #[trigger] requests[j].source == source
}

/// A list of the requests' sources, in order, holds exactly the requested
/// sources.
proof fn lemma_sources_are_requested(
    sources: Seq<ObjectId>,
    requests: Seq<CombatDamageAssignmentRequest>,
    source: ObjectId,
)
    requires
        sources.len() == requests.len(),
        forall|k: int| 0 <= k < requests.len() ==> #[trigger] sources[k] == requests[k].source,
    ensures
        sources.contains(source) == requested(requests, source),
{
    if sources.contains(source) {
        let w = choose|w: int| 0 <= w < sources.len() && sources[w] == source;
        assert(requests[w].source == source);
    }
    if requested(requests, source) {
        let w = choose|w: int| 0 <= w < requests.len() && #[trigger] requests[w].source == source;
        assert(sources[w] == source);
    }
}

/// Checks eligible sources `k..` in order: one that must deal damage has a
/// request, and one that deals none has no request.
pub open spec fn damage_coverage_from(
    state: GameState,
    eligible: Seq<ObjectId>,
    requests: Seq<CombatDamageAssignmentRequest>,
    k: int,
) -> Result<(), StateError>
    decreases eligible.len() - k,
{
    if k < 0 || k >= eligible.len() {
        Ok(())
    } else {
        let source = eligible[k];
        match damage_profile(state, source) {
            Err(e) => Err(e),
            Ok(profile) => {
                let must_assign = profile.1 > 0;
                let supplied = requested(requests, source);
                if must_assign && !supplied {
                    Err(StateError::MissingCombatDamageAssignment(source))
                } else if !must_assign && supplied {
                    Err(StateError::IllegalCombatDamageAssignment(source))
                } else {
                    damage_coverage_from(state, eligible, requests, k + 1)
                }
            },
        }
    }
}

/// Whether a full set of combat damage requests is legal now, and if not
/// the error it is refused with.
pub open spec fn damage_assignment_check(state: GameState, requests: Seq<CombatDamageAssignmentRequest>) -> Result<
    (),
    StateError,
> {
    if state.current_step != Some(Step::CombatDamage) {
        Err(StateError::InvalidCombatStep { expected: Step::CombatDamage, actual: state.current_step })
    } else {
        match state.combat.damage_step {
            None => Err(
                StateError::InvalidCombatStep { expected: Step::CombatDamage, actual: state.current_step },
            ),
            Some(step) => {
                let eligible = damage_dealers(state, step, active_combatants(state));
                match damage_requests_from(state, eligible, requests, 0) {
                    Err(e) => Err(e),
                    Ok(_) => damage_coverage_from(state, eligible, requests, 0),
                }
            },
        }
    }
}

/// A list holding just `target`.
fn single_target(target: CombatDamageTarget) -> (r: Vec<CombatDamageTarget>)
    ensures
        r@ == seq![target],
{
    let mut r: Vec<CombatDamageTarget> = Vec::new();
    r.push(target);
    r
}

/// Keeps the object IDs other than `object`, in order.
pub(crate) fn without_object(v: &Vec<ObjectId>, object: ObjectId) -> (r: Vec<ObjectId>)
    ensures
        r@ == v@.filter(|x: ObjectId| x != object),
{
    let mut r: Vec<ObjectId> = Vec::new();
    let mut i: usize = 0;
    while i < v.len()
        invariant
            i <= v@.len(),
            r@ == v@.subrange(0, i as int).filter(|x: ObjectId| x != object),
        decreases v@.len() - i,
    {
        proof {
            reveal(Seq::filter);
            assert(v@.subrange(0, i + 1).drop_last() == v@.subrange(0, i as int));
        }
        if v[i] != object {
            r.push(v[i]);
        }
        i = i + 1;
    }
    assert(v@.subrange(0, v@.len() as int) == v@);
    r
}

/// Total damage a request assigns to one target, saturating at `u32::MAX`.
pub(crate) fn assigned_to(assignments: &Vec<CombatDamageAssignment>, target: CombatDamageTarget) -> (r:
    u32)
    ensures
        assigned_total(assignments@, target) <= u32::MAX ==> r == assigned_total(assignments@, target),
        assigned_total(assignments@, target) > u32::MAX ==> r == u32::MAX,
{
    let mut total: u64 = 0;
    let mut i: usize = 0;
    while i < assignments.len()
        invariant
            i <= assignments@.len(),
            total <= u32::MAX + 1,
            assigned_total(assignments@.subrange(0, i as int), target) <= u32::MAX ==> total
                == assigned_total(assignments@.subrange(0, i as int), target),
            assigned_total(assignments@.subrange(0, i as int), target) > u32::MAX ==> total == u32::MAX
                + 1,
        decreases assignments@.len() - i,
    {
        proof {
            assert(assignments@.subrange(0, i + 1).drop_last() == assignments@.subrange(0, i as int));
            lemma_assigned_total_nonneg(assignments@.subrange(0, i as int), target);
        }
        if assignments[i].target == target {
            total = total + assignments[i].amount as u64;
            if total > u32::MAX as u64 {
                total = u32::MAX as u64 + 1;
            }
        }
        i = i + 1;
    }
    assert(assignments@.subrange(0, assignments@.len() as int) == assignments@);
    if total > u32::MAX as u64 {
        u32::MAX
    } else {
        total as u32
    }
}

/// Assigned totals are never negative.
pub proof fn lemma_assigned_total_nonneg(assignments: Seq<CombatDamageAssignment>, target: CombatDamageTarget)
    ensures
        assigned_total(assignments, target) >= 0,
    decreases assignments.len(),
{
    if assignments.len() > 0 {
        lemma_assigned_total_nonneg(assignments.drop_last(), target);
    }
}

impl GameState {
    /// Drops an object from every combat role it holds.
    pub(crate) fn remove_object_from_combat(&mut self, object: ObjectId)
        ensures
            *final(self) == (GameState { combat: final(self).combat, ..*old(self) }),
            final(self).combat.blockers@ == old(self).combat.blockers@.filter(
                |b: BlockingCreature| b.object != object,
            ),
            final(self).combat.first_strike_participants@
                == old(self).combat.first_strike_participants@.filter(|x: ObjectId| x != object),
            final(self).combat.damage_records@ == old(self).combat.damage_records@,
            final(self).combat.damage_step == old(self).combat.damage_step,
            forall|i: int|
                0 <= i < final(self).combat.attackers@.len() ==> (#[trigger] final(self).combat.attackers@[i]).object != object,
            forall|i: int|
                0 <= i < final(self).combat.attackers@.len() ==> !(#[trigger] final(self).combat.attackers@[i]).blockers@.contains(object),
    {
        let mut attackers: Vec<AttackingCreature> = Vec::new();
        let mut i: usize = 0;
        while i < self.combat.attackers.len()
            invariant
                i <= self.combat.attackers@.len(),
                forall|k: int| 0 <= k < attackers@.len() ==> (#[trigger] attackers@[k]).object != object,
                forall|k: int|
                    0 <= k < attackers@.len() ==> !(#[trigger] attackers@[k]).blockers@.contains(
                        object,
                    ),
            decreases self.combat.attackers@.len() - i,
        {
            let a = &self.combat.attackers[i];
            if a.object != object {
                let blockers = without_object(&a.blockers, object);
                proof {
                    if blockers@.contains(object) {
                        let k = choose|k: int| 0 <= k < blockers@.len() && blockers@[k] == object;
                        a.blockers@.lemma_filter_pred(|x: ObjectId| x != object, k);
                    }
                }
                let ghost before = attackers@;
                attackers.push(
                    AttackingCreature {
                        object: a.object,
                        defending_player: a.defending_player,
                        blocked: a.blocked,
                        blockers,
                    },
                );
                proof {
                    assert forall|k: int| 0 <= k < attackers@.len() implies (#[trigger] attackers@[k]).object
                        != object && !attackers@[k].blockers@.contains(object) by {
                        if k < before.len() {
                            assert(attackers@[k] == before[k]);
                        }
                    }
                }
            }
            i = i + 1;
        }
        let mut blockers: Vec<BlockingCreature> = Vec::new();
        let mut j: usize = 0;
        while j < self.combat.blockers.len()
            invariant
                j <= self.combat.blockers@.len(),
                blockers@ == self.combat.blockers@.subrange(0, j as int).filter(
                    |b: BlockingCreature| b.object != object,
                ),
            decreases self.combat.blockers@.len() - j,
        {
            proof {
                reveal(Seq::filter);
                assert(self.combat.blockers@.subrange(0, j + 1).drop_last()
                    == self.combat.blockers@.subrange(0, j as int));
            }
            if self.combat.blockers[j].object != object {
                blockers.push(self.combat.blockers[j]);
            }
            j = j + 1;
        }
        assert(self.combat.blockers@.subrange(0, self.combat.blockers@.len() as int)
            == self.combat.blockers@);
        let participants = without_object(&self.combat.first_strike_participants, object);
        self.combat.attackers = attackers;
        self.combat.blockers = blockers;
        self.combat.first_strike_participants = participants;
    }

    /// Clears marked damage and deathtouch marks from every object.
    pub(crate) fn clear_damage_marked(&mut self)
        ensures
            final(self).objects.records@.len() == old(self).objects.records@.len(),
            forall|i: int|
                0 <= i < final(self).objects.records@.len() ==> #[trigger] final(self).objects.records@[i] == (ObjectRecord {
                    damage_marked: 0,
                    deathtouch_damage_marked: false,
                    ..old(self).objects.records@[i]
                }),
            *final(self) == (GameState { objects: final(self).objects, ..*old(self) }),
    {
        let n = self.objects.records.len();
        let mut i: usize = 0;
        while i < n
            invariant
                i <= n,
                n == self.objects.records@.len(),
                n == old(self).objects.records@.len(),
                *self == (GameState { objects: self.objects, ..*old(self) }),
                forall|k: int|
                    0 <= k < i ==> #[trigger] self.objects.records@[k] == (ObjectRecord {
                        damage_marked: 0,
                        deathtouch_damage_marked: false,
                        ..old(self).objects.records@[k]
                    }),
                forall|k: int| i <= k < n ==> #[trigger] self.objects.records@[k] == old(self).objects.records@[k],
            decreases n - i,
        {
            self.objects.records[i].damage_marked = 0;
            self.objects.records[i].deathtouch_damage_marked = false;
            i = i + 1;
        }
    }

    /// Records whether attackers were declared in the current combat.
    pub fn set_attackers_declared_this_combat(&mut self, attackers_declared: bool)
        ensures
            *final(self) == (GameState {
                attackers_declared_this_combat: attackers_declared,
                ..*old(self)
            }),
    {
        self.attackers_declared_this_combat = attackers_declared;
    }

    /// Fails unless the game is in the expected combat step.
    pub(crate) fn require_combat_step(&self, expected: Step) -> (r: Result<(), StateError>)
        ensures
            r is Ok <==> self.current_step == Some(expected),
            r is Err ==> r == Err::<(), StateError>(
                StateError::InvalidCombatStep { expected, actual: self.current_step },
            ),
    {
        match self.current_step {
            Some(step) => {
                if step == expected {
                    return Ok(());
                }
            },
            None => {},
        }
        Err(StateError::InvalidCombatStep { expected, actual: self.current_step })
    }

    /// Whether `object` is a declared attacker still on the battlefield as a creature.
    pub(crate) fn is_active_attacking_creature(&self, object: ObjectId) -> (r: bool)
        ensures
            r == attacker_active(*self, object),
            r ==> exists|i: int|
                0 <= i < self.combat.attackers@.len() && #[trigger] self.combat.attackers@[i].object
                    == object,
            r ==> self.objects.spec_get(object) is Some,
    {
        let mut found = false;
        let mut i: usize = 0;
        while i < self.combat.attackers.len() && !found
            invariant
                i <= self.combat.attackers@.len(),
                found ==> exists|k: int|
                    0 <= k < self.combat.attackers@.len() && #[trigger] self.combat.attackers@[k].object
                        == object,
                !found ==> forall|k: int| 0 <= k < i ==> #[trigger] self.combat.attackers@[k].object != object,
            decreases self.combat.attackers@.len() - i,
        {
            if self.combat.attackers[i].object == object {
                found = true;
            }
            i = i + 1;
        }
        found && self.object_zone(object) == Some(ZoneId::new(None, ZoneKind::Battlefield))
            && self.creature_characteristics(object).is_ok()
    }

    /// Whether `object` is a declared blocker still on the battlefield as a creature.
    pub(crate) fn is_active_blocking_creature(&self, object: ObjectId) -> (r: bool)
        ensures
            r == blocker_active(*self, object),
            r ==> exists|i: int|
                0 <= i < self.combat.blockers@.len() && #[trigger] self.combat.blockers@[i].object
                    == object,
            r ==> self.objects.spec_get(object) is Some,
    {
        let mut found = false;
        let mut i: usize = 0;
        while i < self.combat.blockers.len() && !found
            invariant
                i <= self.combat.blockers@.len(),
                found ==> exists|k: int|
                    0 <= k < self.combat.blockers@.len() && #[trigger] self.combat.blockers@[k].object
                        == object,
                !found ==> forall|k: int| 0 <= k < i ==> #[trigger] self.combat.blockers@[k].object != object,
            decreases self.combat.blockers@.len() - i,
        {
            if self.combat.blockers[i].object == object {
                found = true;
            }
            i = i + 1;
        }
        found && self.object_zone(object) == Some(ZoneId::new(None, ZoneKind::Battlefield))
            && self.creature_characteristics(object).is_ok()
    }

    /// Active attackers, then active blockers, in declaration order.
    pub(crate) fn active_combat_creatures(&self) -> (r: Vec<ObjectId>)
        ensures
            r@ == active_combatants(*self),
            forall|i: int| 0 <= i < r@.len() ==> self.objects.spec_get(#[trigger] r@[i]) is Some,
            forall|i: int| 0 <= i < r@.len() ==> creature_of(*self, #[trigger] r@[i]) is Ok,
            r@.len() <= self.combat.attackers@.len() + self.combat.blockers@.len(),
    {
        let mut objects: Vec<ObjectId> = Vec::new();
        let mut i: usize = 0;
        while i < self.combat.attackers.len()
            invariant
                i <= self.combat.attackers@.len(),
                objects@.len() <= i,
                objects@ == active_attackers(*self, self.combat.attackers@.subrange(0, i as int)),
                forall|k: int| 0 <= k < objects@.len() ==> self.objects.spec_get(#[trigger] objects@[k]) is Some,
                forall|k: int| 0 <= k < objects@.len() ==> creature_of(*self, #[trigger] objects@[k]) is Ok,
            decreases self.combat.attackers@.len() - i,
        {
            let o = self.combat.attackers[i].object;
            proof {
                assert(self.combat.attackers@.subrange(0, i + 1).drop_last() =~= self.combat.attackers@.subrange(0, i as int));
            }
            if self.is_active_attacking_creature(o) {
                objects.push(o);
            }
            i = i + 1;
        }
        assert(self.combat.attackers@.subrange(0, i as int) =~= self.combat.attackers@);
        let ghost attackers_part = objects@;
        let mut j: usize = 0;
        while j < self.combat.blockers.len()
            invariant
                j <= self.combat.blockers@.len(),
                objects@.len() <= self.combat.attackers@.len() + j,
                attackers_part == active_attackers(*self, self.combat.attackers@),
                objects@ == attackers_part + active_blocking(*self, self.combat.blockers@.subrange(0, j as int)),
                forall|k: int| 0 <= k < objects@.len() ==> self.objects.spec_get(#[trigger] objects@[k]) is Some,
                forall|k: int| 0 <= k < objects@.len() ==> creature_of(*self, #[trigger] objects@[k]) is Ok,
            decreases self.combat.blockers@.len() - j,
        {
            let o = self.combat.blockers[j].object;
            proof {
                assert(self.combat.blockers@.subrange(0, j + 1).drop_last() =~= self.combat.blockers@.subrange(0, j as int));
            }
            let ghost before = objects@;
            if self.is_active_blocking_creature(o) {
                objects.push(o);
                assert(objects@ =~= attackers_part + active_blocking(*self, self.combat.blockers@.subrange(0, j + 1)));
            }
            j = j + 1;
        }
        assert(self.combat.blockers@.subrange(0, j as int) =~= self.combat.blockers@);
        objects
    }

    /// Checks that `player` may declare this attack.
    pub(crate) fn validate_attack_declaration(&self, player: PlayerId, attack: AttackDeclaration) -> (r:
        Result<(), StateError>)
        ensures
            r == attack_result(*self, player, attack),
            self.objects.spec_get(attack.attacker) is None ==> r == Err::<(), StateError>(
                StateError::UnknownObject(attack.attacker),
            ),
            r is Ok ==> {
                &&& self.objects.spec_get(attack.attacker) matches Some(rec) && !rec.tapped
                &&& attack.defending_player.0 < self.players@.len()
                &&& attack.defending_player != player
            },
    {
        let record = match self.objects.get(attack.attacker) {
            Some(r) => r,
            None => return Err(StateError::UnknownObject(attack.attacker)),
        };
        let controller = match self.object_controller(attack.attacker) {
            Ok(c) => c,
            Err(e) => return Err(e),
        };
        if controller != player || self.object_zone(attack.attacker) != Some(
            ZoneId::new(None, ZoneKind::Battlefield),
        ) {
            return Err(StateError::IllegalAttack(attack.attacker));
        }
        let creature = match self.creature_characteristics(attack.attacker) {
            Ok(c) => c,
            Err(e) => return Err(e),
        };
        if record.tapped {
            return Err(StateError::CreatureTapped(attack.attacker));
        }
        if record.controlled_since_turn == self.turn_number && !creature.keywords().haste() {
            return Err(StateError::SummoningSick(attack.attacker));
        }
        match self.require_player(attack.defending_player) {
            Ok(()) => {},
            Err(e) => return Err(e),
        }
        if attack.defending_player == player {
            return Err(StateError::IllegalAttack(attack.attacker));
        }
        Ok(())
    }

    /// Position of the declared attacker `object`, if it is one.
    pub(crate) fn attacker_position(&self, object: ObjectId) -> (r: Option<usize>)
        ensures
            r matches Some(i) ==> i < self.combat.attackers@.len()
                && self.combat.attackers@[i as int].object == object && forall|k: int|
                0 <= k < i ==> (#[trigger] self.combat.attackers@[k]).object != object,
            r is None ==> forall|k: int|
                0 <= k < self.combat.attackers@.len() ==> (#[trigger] self.combat.attackers@[k]).object
                    != object,
            r matches Some(i) ==> first_attacker_index(self.combat.attackers@, object) == Some(i as int),
            r is None ==> first_attacker_index(self.combat.attackers@, object) is None,
    {
        let mut i: usize = 0;
        while i < self.combat.attackers.len()
            invariant
                i <= self.combat.attackers@.len(),
                forall|k: int| 0 <= k < i ==> (#[trigger] self.combat.attackers@[k]).object != object,
            decreases self.combat.attackers@.len() - i,
        {
            if self.combat.attackers[i].object == object {
                proof {
                    lemma_first_attacker_index(self.combat.attackers@, object, i as int);
                }
                return Some(i);
            }
            i = i + 1;
        }
        None
    }

    /// Position of the declared blocker `object`, if it is one.
    pub(crate) fn blocker_position(&self, object: ObjectId) -> (r: Option<usize>)
        ensures
            r matches Some(i) ==> i < self.combat.blockers@.len()
                && self.combat.blockers@[i as int].object == object && forall|k: int|
                0 <= k < i ==> (#[trigger] self.combat.blockers@[k]).object != object,
            r is None ==> forall|k: int|
                0 <= k < self.combat.blockers@.len() ==> (#[trigger] self.combat.blockers@[k]).object
                    != object,
            r matches Some(i) ==> first_blocker_index(self.combat.blockers@, object) == Some(i as int),
            r is None ==> first_blocker_index(self.combat.blockers@, object) is None,
    {
        let mut i: usize = 0;
        while i < self.combat.blockers.len()
            invariant
                i <= self.combat.blockers@.len(),
                forall|k: int| 0 <= k < i ==> (#[trigger] self.combat.blockers@[k]).object != object,
            decreases self.combat.blockers@.len() - i,
        {
            if self.combat.blockers[i].object == object {
                proof {
                    lemma_first_blocker_index(self.combat.blockers@, object, i as int);
                }
                return Some(i);
            }
            i = i + 1;
        }
        None
    }

    /// Checks that `defending_player` may declare this block.
    pub(crate) fn validate_block_declaration(&self, defending_player: PlayerId, block: BlockDeclaration) -> (r:
        Result<(), StateError>)
        ensures
            r == block_result(*self, defending_player, block),
            self.objects.spec_get(block.blocker) is None ==> r == Err::<(), StateError>(
                StateError::UnknownObject(block.blocker),
            ),
            r is Ok ==> {
                &&& self.objects.spec_get(block.blocker) matches Some(rec) && !rec.tapped
                &&& exists|i: int|
                    0 <= i < self.combat.attackers@.len()
                        && (#[trigger] self.combat.attackers@[i]).object == block.attacker
                        && self.combat.attackers@[i].defending_player == defending_player
            },
    {
        let blocker = match self.objects.get(block.blocker) {
            Some(r) => r,
            None => return Err(StateError::UnknownObject(block.blocker)),
        };
        let controller = match self.object_controller(block.blocker) {
            Ok(c) => c,
            Err(e) => return Err(e),
        };
        let illegal = StateError::IllegalBlock { blocker: block.blocker, attacker: block.attacker };
        if controller != defending_player || self.object_zone(block.blocker) != Some(
            ZoneId::new(None, ZoneKind::Battlefield),
        ) {
            return Err(illegal);
        }
        match self.creature_characteristics(block.blocker) {
            Ok(_) => {},
            Err(e) => return Err(e),
        }
        if blocker.tapped {
            return Err(StateError::CreatureTapped(block.blocker));
        }
        let index = match self.attacker_position(block.attacker) {
            Some(i) => i,
            None => return Err(illegal),
        };
        if self.combat.attackers[index].defending_player != defending_player {
            return Err(illegal);
        }
        let attacker_keywords = match self.creature_keywords(block.attacker) {
            Ok(k) => k,
            Err(e) => return Err(e),
        };
        let blocker_keywords = match self.creature_keywords(block.blocker) {
            Ok(k) => k,
            Err(e) => return Err(e),
        };
        if attacker_keywords.flying() && !(blocker_keywords.flying() || blocker_keywords.reach()) {
            return Err(illegal);
        }
        Ok(())
    }

    /// Rejects a block set that leaves a menace attacker blocked by exactly one creature.
    pub(crate) fn validate_menace_blocks(&self, blocks: &Vec<BlockDeclaration>) -> (r: Result<
        (),
        StateError,
    >)
        ensures
            r == menace_result_from(*self, blocks@, 0),
    {
        let mut i: usize = 0;
        while i < self.combat.attackers.len()
            invariant
                i <= self.combat.attackers@.len(),
                menace_result_from(*self, blocks@, 0) == menace_result_from(*self, blocks@, i as int),
            decreases self.combat.attackers@.len() - i,
        {
            let attacker = self.combat.attackers[i].object;
            let keywords = match self.creature_keywords(attacker) {
                Ok(k) => k,
                Err(e) => return Err(e),
            };
            if keywords.menace() {
                let mut count: usize = 0;
                let mut first: Option<ObjectId> = None;
                let mut j: usize = 0;
                while j < blocks.len()
                    invariant
                        j <= blocks@.len(),
                        count == blocks_on(blocks@.subrange(0, j as int), attacker).len(),
                        count <= j,
                        count == 0 <==> first is None,
                        first matches Some(b) ==> b == blocks_on(blocks@.subrange(0, j as int), attacker)[0].blocker,
                    decreases blocks@.len() - j,
                {
                    proof {
                        let pre = blocks@.subrange(0, j as int);
                        let next = blocks@.subrange(0, j + 1);
                        assert(next.drop_last() =~= pre);
                        assert(next.last() == blocks@[j as int]);
                        lemma_blocks_on_prefix(pre, next, attacker);
                    }
                    if blocks[j].attacker == attacker {
                        count = count + 1;
                        if first.is_none() {
                            first = Some(blocks[j].blocker);
                        }
                    }
                    j = j + 1;
                }
                assert(blocks@.subrange(0, blocks@.len() as int) =~= blocks@);
                if count == 1 {
                    let blocker = match first {
                        Some(b) => b,
                        None => ObjectId(u32::MAX),
                    };
                    return Err(StateError::IllegalBlock { blocker, attacker });
                }
            }
            i = i + 1;
        }
        Ok(())
    }

    /// Starts the next combat damage step: first strike when any active
    /// combatant has first or double strike, otherwise normal; after a first
    /// strike step comes the regular one.
    pub(crate) fn begin_combat_damage_step(&mut self)
        ensures
            zones_conserved(*old(self)) ==> zones_conserved(*final(self)),
            events_bounded(*old(self)) ==> events_bounded(*final(self)),
            old(self).combat.damage_step == Some(CombatDamageStepKind::FirstStrike) ==> final(self).combat.damage_step == Some(CombatDamageStepKind::Regular),
            old(self).combat.damage_step != Some(CombatDamageStepKind::FirstStrike) ==> {
                &&& final(self).combat.first_strike_participants@.len() == 0 ==> final(self).combat.damage_step == Some(CombatDamageStepKind::Normal)
                &&& final(self).combat.first_strike_participants@.len() > 0 ==> final(self).combat.damage_step == Some(CombatDamageStepKind::FirstStrike)
            },
            final(self).combat.attackers@ == old(self).combat.attackers@,
            final(self).combat.blockers@ == old(self).combat.blockers@,
            final(self).combat.damage_records@ == old(self).combat.damage_records@,
            *final(self) == (GameState { combat: final(self).combat, ..*old(self) }),
    {
        match self.combat.damage_step {
            Some(CombatDamageStepKind::FirstStrike) => {
                self.combat.damage_step = Some(CombatDamageStepKind::Regular);
            },
            _ => {
                let active = self.active_combat_creatures();
                let mut participants: Vec<ObjectId> = Vec::new();
                let mut i: usize = 0;
                while i < active.len()
                    invariant
                        i <= active@.len(),
                    decreases active@.len() - i,
                {
                    match self.creature_keywords(active[i]) {
                        Ok(k) => {
                            if k.first_strike() || k.double_strike() {
                                participants.push(active[i]);
                            }
                        },
                        Err(_) => {},
                    }
                    i = i + 1;
                }
                let empty = participants.len() == 0;
                self.combat.first_strike_participants = participants;
                self.combat.damage_step = if empty {
                    Some(CombatDamageStepKind::Normal)
                } else {
                    Some(CombatDamageStepKind::FirstStrike)
                };
            },
        }
    }

    /// Active combatants that deal damage in the current combat damage step.
    pub(crate) fn eligible_combat_damage_sources(&self) -> (r: Result<Vec<ObjectId>, StateError>)
        ensures
            self.combat.damage_step is None ==> r == Err::<Vec<ObjectId>, StateError>(
                StateError::InvalidCombatStep { expected: Step::CombatDamage, actual: self.current_step },
            ),
            self.combat.damage_step is Some ==> (r matches Ok(v) && v@ == damage_dealers(
                *self,
                self.combat.damage_step->0,
                active_combatants(*self),
            )),
            r matches Ok(v) ==> forall|i: int|
                0 <= i < v@.len() ==> self.objects.spec_get(#[trigger] v@[i]) is Some,
    {
        if self.combat.damage_step.is_none() {
            return Err(
                StateError::InvalidCombatStep { expected: Step::CombatDamage, actual: self.current_step },
            );
        }
        let step = self.combat.damage_step.unwrap();
        let active = self.active_combat_creatures();
        let mut sources: Vec<ObjectId> = Vec::new();
        let mut i: usize = 0;
        while i < active.len()
            invariant
                i <= active@.len(),
                self.combat.damage_step == Some(step),
                active@ == active_combatants(*self),
                forall|k: int| 0 <= k < active@.len() ==> self.objects.spec_get(#[trigger] active@[k]) is Some,
                forall|k: int| 0 <= k < active@.len() ==> creature_of(*self, #[trigger] active@[k]) is Ok,
                forall|k: int| 0 <= k < sources@.len() ==> self.objects.spec_get(#[trigger] sources@[k]) is Some,
                sources@ == damage_dealers(*self, step, active@.subrange(0, i as int)),
            decreases active@.len() - i,
        {
            let object = active[i];
            proof {
                assert(active@.subrange(0, i + 1).drop_last() =~= active@.subrange(0, i as int));
                assert(creature_of(*self, active@[i as int]) is Ok);
            }
            let keywords = match self.creature_keywords(object) {
                Ok(k) => k,
                Err(e) => return Err(e),
            };
            let eligible = match step {
                CombatDamageStepKind::Normal => true,
                CombatDamageStepKind::FirstStrike => keywords.first_strike() || keywords.double_strike(),
                CombatDamageStepKind::Regular => !contains_object(
                    &self.combat.first_strike_participants,
                    object,
                ) || keywords.double_strike(),
            };
            if eligible {
                sources.push(object);
            }
            i = i + 1;
        }
        assert(active@.subrange(0, i as int) =~= active@);
        Ok(sources)
    }

    /// Active blockers of the attacker at `index`, in declaration order.
    pub(crate) fn current_blockers_of(&self, index: usize) -> (r: Vec<ObjectId>)
        requires
            index < self.combat.attackers@.len(),
        ensures
            r@ == active_blockers(*self, self.combat.attackers@[index as int].blockers@),
            forall|i: int|
                0 <= i < r@.len() ==> self.combat.attackers@[index as int].blockers@.contains(
                    #[trigger] r@[i],
                ),
    {
        let blockers = &self.combat.attackers[index].blockers;
        let mut r: Vec<ObjectId> = Vec::new();
        let mut i: usize = 0;
        while i < blockers.len()
            invariant
                i <= blockers@.len(),
                blockers@ == self.combat.attackers@[index as int].blockers@,
                r@ == active_blockers(*self, blockers@.subrange(0, i as int)),
                forall|k: int| 0 <= k < r@.len() ==> blockers@.contains(#[trigger] r@[k]),
            decreases blockers@.len() - i,
        {
            proof {
                assert(blockers@.subrange(0, i + 1).drop_last() =~= blockers@.subrange(0, i as int));
            }
            if self.is_active_blocking_creature(blockers[i]) {
                let ghost before = r@;
                r.push(blockers[i]);
                proof {
                    assert forall|k: int| 0 <= k < r@.len() implies blockers@.contains(#[trigger] r@[k]) by {
                        if k < before.len() {
                            assert(r@[k] == before[k]);
                        } else {
                            assert(blockers@[i as int] == r@[k]);
                        }
                    }
                }
            }
            i = i + 1;
        }
        assert(blockers@.subrange(0, i as int) =~= blockers@);
        r
    }

    /// Legal targets, required total and trample obligations of one source.
    pub(crate) fn combat_damage_profile(&self, source: ObjectId) -> (r: Result<
        CombatDamageProfile,
        StateError,
    >)
        ensures
            r matches Ok(p) ==> damage_profile(*self, source) == Ok::<
                (Seq<CombatDamageTarget>, int, Seq<ObjectId>, CombatDamageTarget),
                StateError,
            >((p.legal_targets@, p.required_total as int, p.trample_blockers@, p.trample_defender)),
            r matches Err(e) ==> damage_profile(*self, source) == Err::<
                (Seq<CombatDamageTarget>, int, Seq<ObjectId>, CombatDamageTarget),
                StateError,
            >(e),
            r is Ok ==> self.objects.spec_get(source) is Some,
    {
        let power = match self.creature_power(source) {
            Ok(p) => p,
            Err(e) => return Err(e),
        };
        let required_total: u32 = if power > 0 {
            power as u32
        } else {
            0
        };
        match self.attacker_position(source) {
            Some(index) => {
                let keywords = match self.creature_keywords(source) {
                    Ok(k) => k,
                    Err(e) => return Err(e),
                };
                let defender = CombatDamageTarget::Player(self.combat.attackers[index].defending_player);
                if !self.combat.attackers[index].blocked {
                    return Ok(
                        CombatDamageProfile {
                            legal_targets: single_target(defender),
                            required_total,
                            trample_blockers: Vec::new(),
                            trample_defender: defender,
                        },
                    );
                }
                let current = self.current_blockers_of(index);
                if current.len() == 0 {
                    if keywords.trample() {
                        return Ok(
                            CombatDamageProfile {
                                legal_targets: single_target(defender),
                                required_total,
                                trample_blockers: Vec::new(),
                                trample_defender: defender,
                            },
                        );
                    }
                    return Ok(
                        CombatDamageProfile {
                            legal_targets: Vec::new(),
                            required_total: 0,
                            trample_blockers: Vec::new(),
                            trample_defender: defender,
                        },
                    );
                }
                let mut legal_targets: Vec<CombatDamageTarget> = Vec::new();
                let mut i: usize = 0;
                while i < current.len()
                    invariant
                        i <= current@.len(),
                        legal_targets@ == current@.subrange(0, i as int).map_values(
                            |b: ObjectId| CombatDamageTarget::Object(b),
                        ),
                    decreases current@.len() - i,
                {
                    legal_targets.push(CombatDamageTarget::Object(current[i]));
                    proof {
                        assert(legal_targets@ =~= current@.subrange(0, i + 1).map_values(
                            |b: ObjectId| CombatDamageTarget::Object(b),
                        ));
                    }
                    i = i + 1;
                }
                assert(current@.subrange(0, i as int) =~= current@);
                let trample_blockers = if keywords.trample() {
                    legal_targets.push(defender);
                    current
                } else {
                    Vec::new()
                };
                Ok(
                    CombatDamageProfile {
                        legal_targets,
                        required_total,
                        trample_blockers,
                        trample_defender: defender,
                    },
                )
            },
            None => match self.blocker_position(source) {
                Some(index) => {
                    let attacker = self.combat.blockers[index].attacker;
                    let active = self.is_active_attacking_creature(attacker);
                    let target = CombatDamageTarget::Object(attacker);
                    Ok(
                        CombatDamageProfile {
                            legal_targets: if active {
                                single_target(target)
                            } else {
                                Vec::new()
                            },
                            required_total: if active {
                                required_total
                            } else {
                                0
                            },
                            trample_blockers: Vec::new(),
                            trample_defender: target,
                        },
                    )
                },
                None => Err(StateError::IllegalCombatDamageAssignment(source)),
            },
        }
    }

    /// Checks one source's assignments against its damage profile.
    pub(crate) fn validate_combat_damage_request(&self, request: &CombatDamageAssignmentRequest) -> (r:
        Result<(), StateError>)
        ensures
            r is Ok <==> damage_request_result(*self, request.source, request.assignments@) is Ok,
            r matches Err(e) ==> damage_request_result(*self, request.source, request.assignments@)
                == Err::<(), StateError>(e),
            r is Ok ==> self.objects.spec_get(request.source) is Some,
    {
        let profile = match self.combat_damage_profile(request.source) {
            Ok(p) => p,
            Err(e) => return Err(e),
        };
        let ghost targets = profile.legal_targets@;
        let mut total: u32 = 0;
        let mut i: usize = 0;
        while i < request.assignments.len()
            invariant
                i <= request.assignments@.len(),
                targets == profile.legal_targets@,
                damage_profile(*self, request.source) == Ok::<
                    (Seq<CombatDamageTarget>, int, Seq<ObjectId>, CombatDamageTarget),
                    StateError,
                >((profile.legal_targets@, profile.required_total as int, profile.trample_blockers@, profile.trample_defender)),
                assignment_scan(request.source, request.assignments@, targets, 0, 0) == assignment_scan(
                    request.source,
                    request.assignments@,
                    targets,
                    i as int,
                    total as int,
                ),
            decreases request.assignments@.len() - i,
        {
            let assignment = request.assignments[i];
            if !contains_target(&profile.legal_targets, assignment.target) {
                return Err(StateError::IllegalCombatDamageAssignment(request.source));
            }
            total = match total.checked_add(assignment.amount) {
                Some(t) => t,
                None => return Err(StateError::CombatDamageOverflow),
            };
            i = i + 1;
        }
        assert(assignment_scan(request.source, request.assignments@, targets, i as int, total as int)
            == Ok::<int, StateError>(total as int));
        if total != profile.required_total {
            return Err(StateError::IllegalCombatDamageAssignment(request.source));
        }
        let order = self.validate_blocker_assignment_order(request);
        match order {
            Ok(()) => {},
            Err(e) => return Err(e),
        }
        let ghost checked = damage_request_result(*self, request.source, request.assignments@);
        assert(blocker_order_result(*self, request.source, request.assignments@) is Ok);
        if profile.trample_blockers.len() > 0 {
            match self.validate_trample_assignment(request, &profile) {
                Ok(()) => {},
                Err(e) => return Err(e),
            }
            assert(checked == trample_result(
                *self,
                request.source,
                request.assignments@,
                profile.trample_blockers@,
                profile.trample_defender,
            ));
        }
        Ok(())
    }

    /// A trampler may assign to the defender only after lethal damage to each blocker.
    pub(crate) fn validate_trample_assignment(
        &self,
        request: &CombatDamageAssignmentRequest,
        profile: &CombatDamageProfile,
    ) -> (r: Result<(), StateError>)
        ensures
            r == trample_result(
                *self,
                request.source,
                request.assignments@,
                profile.trample_blockers@,
                profile.trample_defender,
            ),
            assigned_total(request.assignments@, profile.trample_defender) == 0 ==> r is Ok,
    {
        proof {
            lemma_assigned_total_nonneg(request.assignments@, profile.trample_defender);
        }
        let to_defender = assigned_to(&request.assignments, profile.trample_defender);
        if to_defender == 0 {
            return Ok(());
        }
        let source_keywords = match self.creature_keywords(request.source) {
            Ok(k) => k,
            Err(e) => return Err(e),
        };
        let mut i: usize = 0;
        while i < profile.trample_blockers.len()
            invariant
                i <= profile.trample_blockers@.len(),
                assigned_total(request.assignments@, profile.trample_defender) != 0,
                creature_of(*self, request.source) matches Ok(c) && c.keywords == source_keywords,
                trample_lethal_from(
                    *self,
                    request.source,
                    request.assignments@,
                    profile.trample_blockers@,
                    source_keywords,
                    0,
                ) == trample_lethal_from(
                    *self,
                    request.source,
                    request.assignments@,
                    profile.trample_blockers@,
                    source_keywords,
                    i as int,
                ),
            decreases profile.trample_blockers@.len() - i,
        {
            let blocker = profile.trample_blockers[i];
            let to_blocker = assigned_to(&request.assignments, CombatDamageTarget::Object(blocker));
            let lethal = match self.lethal_damage_required(blocker, source_keywords) {
                Ok(l) => l,
                Err(e) => return Err(e),
            };
            if to_blocker < lethal {
                return Err(StateError::IllegalCombatDamageAssignment(request.source));
            }
            i = i + 1;
        }
        Ok(())
    }

    /// Damage may reach a later blocker, or the defender, only after each
    /// earlier blocker was assigned lethal damage.
    pub(crate) fn validate_blocker_assignment_order(&self, request: &CombatDamageAssignmentRequest) -> (r:
        Result<(), StateError>)
        ensures
            r == blocker_order_result(*self, request.source, request.assignments@),
    {
        let index = match self.attacker_position(request.source) {
            Some(i) => i,
            None => return Ok(()),
        };
        if !self.combat.attackers[index].blocked {
            return Ok(());
        }
        let current = self.current_blockers_of(index);
        if current.len() < 2 {
            return Ok(());
        }
        let source_keywords = match self.creature_keywords(request.source) {
            Ok(k) => k,
            Err(e) => return Err(e),
        };
        let defender = CombatDamageTarget::Player(self.combat.attackers[index].defending_player);
        proof {
            lemma_assigned_total_nonneg(request.assignments@, defender);
        }
        let to_defender = assigned_to(&request.assignments, defender);
        let ghost defender_total = assigned_total(request.assignments@, defender);
        let mut k: usize = 0;
        while k < current.len() - 1
            invariant
                current@.len() >= 2,
                k <= current@.len() - 1,
                (to_defender > 0) == (defender_total > 0),
                blocker_order_result(*self, request.source, request.assignments@) == blocker_order_from(
                    *self,
                    request.source,
                    request.assignments@,
                    current@,
                    defender_total,
                    source_keywords,
                    0,
                ),
                blocker_order_from(
                    *self,
                    request.source,
                    request.assignments@,
                    current@,
                    defender_total,
                    source_keywords,
                    0,
                ) == blocker_order_from(
                    *self,
                    request.source,
                    request.assignments@,
                    current@,
                    defender_total,
                    source_keywords,
                    k as int,
                ),
            decreases current@.len() - 1 - k,
        {
            let blocker = current[k];
            let mut later_has_damage = to_defender > 0;
            let mut m: usize = k + 1;
            while m < current.len()
                invariant
                    k + 1 <= m <= current@.len(),
                    later_has_damage == (defender_total > 0 || exists|mm: int|
                        k < mm < m && #[trigger] assigned_total(
                            request.assignments@,
                            CombatDamageTarget::Object(current@[mm]),
                        ) > 0),
                decreases current@.len() - m,
            {
                proof {
                    lemma_assigned_total_nonneg(request.assignments@, CombatDamageTarget::Object(current@[m as int]));
                }
                if assigned_to(&request.assignments, CombatDamageTarget::Object(current[m])) > 0 {
                    later_has_damage = true;
                }
                m = m + 1;
            }
            if later_has_damage {
                let lethal = match self.lethal_damage_required(blocker, source_keywords) {
                    Ok(l) => l,
                    Err(e) => return Err(e),
                };
                if assigned_to(&request.assignments, CombatDamageTarget::Object(blocker)) < lethal {
                    return Err(StateError::IllegalCombatDamageAssignment(request.source));
                }
            }
            k = k + 1;
        }
        Ok(())
    }

    /// Deals one combat damage record after replacement effects: life loss
    /// for a player, marked damage for an object, then lifelink.
    #[verifier::rlimit(40)]
    pub fn apply_combat_damage(&mut self, record: CombatDamageRecord) -> (r: Result<
        Option<CombatDamageRecord>,
        StateError,
    >)
        ensures
            zones_conserved(*old(self)) ==> zones_conserved(*final(self)),
            events_bounded(*old(self)) ==> events_bounded(*final(self)),
            r matches Ok(Some(d)) ==> d.source == record.source && d.target == record.target && d.step
                == record.step && d.amount > 0,
            r matches Ok(Some(d)) ==> d == (CombatDamageRecord { amount: d.amount, ..record }),
            old(self).replacement_effects@.len() == 0 ==> final(self).replacement_effects@.len() == 0,
            old(self).replacement_effects@.len() == 0 && record.amount > 0 && r is Ok ==> r == Ok::<
                Option<CombatDamageRecord>,
                StateError,
            >(Some(record)),
            old(self).replacement_effects@.len() == 0 && record.amount > 0 && !record.source_had_lifelink && r is Ok
                ==> final(self).players@ == players_after_damage(old(self).players@, record),
            record.amount == 0 ==> r == Ok::<Option<CombatDamageRecord>, StateError>(None) && *final(self)
                == *old(self),
            replacement_ids_distinct(old(self).replacement_effects@) && damage_chooser(*old(self), record.target) is Some
                ==> ({
                let folded = replaced_damage(
                    *old(self),
                    DamageReplacementEvent {
                        source: Some(record.source),
                        target: record.target,
                        amount: record.amount,
                        combat: true,
                    },
                    damage_chooser(*old(self), record.target)->0,
                    Seq::empty(),
                    old(self).replacement_effects@.len() as nat,
                );
                &&& folded is None ==> r is Err
                &&& r matches Ok(Some(d)) ==> folded == Some(d.amount)
                &&& r matches Ok(None) ==> folded == Some(0u32)
            }),
            old(self).replacement_effects@.len() == 0 && r is Ok ==> settle_frame(*old(self), *final(self), 0)
                && same_but_marks_and_tapping(old(self).objects, final(self).objects)
                && final(self).continuous_effects@ == old(self).continuous_effects@,
            old(self).replacement_effects@.len() == 0 && record.amount > 0 && r is Ok ==> final(self).objects.records@.len()
                == old(self).objects.records@.len() && forall|o: ObjectId|
                o.0 < old(self).objects.records@.len() ==> #[trigger] final(self).objects.records@[o.0 as int].damage_marked
                    == old(self).objects.records@[o.0 as int].damage_marked + damage_marked_on(record, o),
            old(self).replacement_effects@.len() == 0 && record.amount > 0 && !record.source_had_lifelink
                ==> match record.target {
                CombatDamageTarget::Player(p) => {
                    let delta = if record.amount <= i32::MAX {
                        record.amount as int
                    } else {
                        i32::MAX as int
                    };
                    &&& p.0 >= old(self).players@.len() ==> r == Err::<Option<CombatDamageRecord>, StateError>(
                        StateError::UnknownPlayer(p),
                    )
                    &&& p.0 < old(self).players@.len() && old(self).players@[p.0 as int].life - delta
                        < i32::MIN ==> r == Err::<Option<CombatDamageRecord>, StateError>(
                        StateError::LifeTotalOverflow,
                    )
                    &&& p.0 < old(self).players@.len() && old(self).players@[p.0 as int].life - delta
                        >= i32::MIN ==> r == Ok::<Option<CombatDamageRecord>, StateError>(Some(record))
                        && final(self).players@ == old(self).players@.update(
                        p.0 as int,
                        PlayerState {
                            life: (old(self).players@[p.0 as int].life - delta) as i32,
                            ..old(self).players@[p.0 as int]
                        },
                    )
                },
                CombatDamageTarget::Object(o) => match old(self).objects.spec_get(o) {
                    None => r == Err::<Option<CombatDamageRecord>, StateError>(StateError::UnknownObject(o)),
                    Some(rec) => {
                        &&& rec.base_creature is None ==> r == Err::<Option<CombatDamageRecord>, StateError>(
                            StateError::NotACreature(o),
                        )
                        &&& rec.base_creature is Some && rec.damage_marked + record.amount > u32::MAX ==> r
                            == Err::<Option<CombatDamageRecord>, StateError>(StateError::CombatDamageOverflow)
                        &&& rec.base_creature is Some && rec.damage_marked + record.amount <= u32::MAX ==> r
                            == Ok::<Option<CombatDamageRecord>, StateError>(Some(record))
                            && final(self).objects.spec_get(o) == Some(
                            ObjectRecord {
                                damage_marked: (rec.damage_marked + record.amount) as u32,
                                deathtouch_damage_marked: record.source_had_deathtouch
                                    || rec.deathtouch_damage_marked,
                                ..rec
                            },
                        )
                    },
                },
            },
    {
        let replaced = match self.apply_damage_replacement_effects(
            DamageReplacementEvent {
                source: Some(record.source),
                target: record.target,
                amount: record.amount,
                combat: true,
            },
        ) {
            Ok(e) => e,
            Err(e) => return Err(e),
        };
        if replaced.amount == 0 {
            return Ok(None);
        }
        let dealt = CombatDamageRecord { amount: replaced.amount, ..record };
        let ghost start = *self;
        match dealt.target {
            CombatDamageTarget::Player(player) => {
                match self.lose_life(player, dealt.amount) {
                    Ok(()) => {},
                    Err(e) => return Err(e),
                }
            },
            CombatDamageTarget::Object(object) => {
                match self.mark_damage_on_object_unreplaced(object, dealt.amount) {
                    Ok(()) => {},
                    Err(e) => return Err(e),
                }
                if dealt.source_had_deathtouch {
                    let i = object.index();
                    if i >= self.objects.records.len() {
                        return Err(StateError::UnknownObject(object));
                    }
                    self.objects.records[i].deathtouch_damage_marked = true;
                }
            },
        }
        let ghost marked = *self;
        proof {
            assert forall|o: ObjectId| o.0 < start.objects.records@.len() implies #[trigger] marked.objects.records@[o.0 as int].damage_marked
                == start.objects.records@[o.0 as int].damage_marked + damage_marked_on(dealt, o) by {
                if let CombatDamageTarget::Object(object) = dealt.target {
                    if o.0 == object.0 {
                        assert(o == object);
                    }
                }
            }
        }
        if dealt.source_had_lifelink {
            let controller = match self.objects.get(dealt.source) {
                Some(rec) => rec.controller,
                None => return Err(StateError::UnknownObject(dealt.source)),
            };
            match self.gain_life(controller, dealt.amount) {
                Ok(()) => {},
                Err(e) => return Err(e),
            }
        }
        assert(self.zones@ == old(self).zones@);
        assert(self.players@.len() == old(self).players@.len());
        assert(self.objects.records@.len() == old(self).objects.records@.len());
        assert(self.objects.records@ == marked.objects.records@);
        Ok(Some(dealt))
    }
}

/// Returns true when `target` is among `targets`.
pub(crate) fn contains_target(targets: &Vec<CombatDamageTarget>, target: CombatDamageTarget) -> (r: bool)
    ensures
        r == targets@.contains(target),
{
    let mut i: usize = 0;
    while i < targets.len()
        invariant
            i <= targets@.len(),
            forall|k: int| 0 <= k < i ==> targets@[k] != target,
        decreases targets@.len() - i,
    {
        if targets[i] == target {
            assert(targets@[i as int] == target);
            return true;
        }
        i = i + 1;
    }
    false
}

/// One of the first `k` of `attacks` taps the object in arena slot `i`: it
/// attacks without vigilance.
pub open spec fn attack_taps(state: GameState, attacks: Seq<AttackDeclaration>, i: int, k: int) -> bool {
    exists|q: int|
        0 <= q < k && q < attacks.len() && (#[trigger] attacks[q]).attacker.0 == i && (creature_of(
            state,
            attacks[q].attacker,
        ) matches Ok(c) && !c.keywords.vigilance)
}

impl GameState {
    /// Declares attackers in the declare attackers step: every attack is
    /// checked before any creature is tapped; attackers without vigilance
    /// tap, and priority returns to the attacking player.
    pub fn declare_attackers(&mut self, player: PlayerId, attacks: &[AttackDeclaration]) -> (r: Result<
        (),
        StateError,
    >)
        ensures
            zones_conserved(*old(self)) ==> zones_conserved(*final(self)),
            events_bounded(*old(self)) ==> events_bounded(*final(self)),
            old(self).current_step != Some(Step::DeclareAttackers) ==> r == Err::<(), StateError>(
                StateError::InvalidCombatStep {
                    expected: Step::DeclareAttackers,
                    actual: old(self).current_step,
                },
            ),
            old(self).current_step == Some(Step::DeclareAttackers) && old(self).active_player != Some(
                player,
            ) ==> r == Err::<(), StateError>(StateError::InvalidCombatPlayer(player)),
            r is Ok ==> final(self).attackers_declared_this_combat == (attacks@.len() > 0)
                && final(self).current_step == Some(Step::DeclareAttackers)
                && final(self).active_player == Some(player),
            r is Ok ==> forall|i: int, j: int|
                0 <= i < j < attacks@.len() ==> attacks@[i].attacker != attacks@[j].attacker,
            r is Err ==> *final(self) == *old(self) || final(self).attackers_declared_this_combat == (
            attacks@.len() > 0),
            attack_declaration_check(*old(self), player, attacks@) matches Err(e) ==> r == Err::<
                (),
                StateError,
            >(e) && *final(self) == *old(self),
            r is Ok ==> attack_declaration_check(*old(self), player, attacks@) is Ok,
            attack_declaration_check(*old(self), player, attacks@) is Ok && sba_quiet(*old(self)) ==> r is Ok
                && final(self).combat.attackers@.len() == attacks@.len() && forall|i: int|
                0 <= i < attacks@.len() ==> {
                    &&& (#[trigger] final(self).combat.attackers@[i]).object == attacks@[i].attacker
                    &&& final(self).combat.attackers@[i].defending_player == attacks@[i].defending_player
                    &&& !final(self).combat.attackers@[i].blocked
                    &&& final(self).combat.attackers@[i].blockers@.len() == 0
                },
            r is Ok ==> final(self).objects.records@.len() == old(self).objects.records@.len() && forall|i: int|
                0 <= i < old(self).objects.records@.len() ==> #[trigger] final(self).objects.records@[i].tapped
                    == (old(self).objects.records@[i].tapped || attack_taps(
                    *old(self),
                    attacks@,
                    i,
                    attacks@.len() as int,
                )),
    {
        match self.require_combat_step(Step::DeclareAttackers) {
            Ok(()) => {},
            Err(e) => return Err(e),
        }
        if self.active_player != Some(player) {
            return Err(StateError::InvalidCombatPlayer(player));
        }
        match self.require_priority_player(player) {
            Ok(()) => {},
            Err(e) => return Err(e),
        }
        let mut seen: Vec<ObjectId> = Vec::new();
        let mut vigilant: Vec<bool> = Vec::new();
        let mut i: usize = 0;
        while i < attacks.len()
            invariant
                vigilant@.len() == i,
                forall|k: int|
                    0 <= k < i ==> (#[trigger] attacks@[k]).attacker.0 < old(self).objects.records@.len(),
                zones_conserved(*old(self)) ==> zones_conserved(*self),
                events_bounded(*old(self)) ==> events_bounded(*self),
                i <= attacks@.len(),
                *self == *old(self),
                self.current_step == Some(Step::DeclareAttackers),
                self.active_player == Some(player),
                seen@.len() == i,
                forall|k: int| 0 <= k < i ==> #[trigger] seen@[k] == attacks@[k].attacker,
                forall|a: int, b: int| 0 <= a < b < i ==> attacks@[a].attacker != attacks@[b].attacker,
                self.priority_player == Some(player),
                attacks_from(*self, player, attacks@, 0) == attacks_from(*self, player, attacks@, i as int),
                forall|k: int|
                    0 <= k < i ==> (creature_of(*old(self), (#[trigger] attacks@[k]).attacker) matches Ok(c)
                        && vigilant@[k] == c.keywords.vigilance),
            decreases attacks@.len() - i,
        {
            let attack = attacks[i];
            proof {
                assert(seen@.contains(attack.attacker) <==> exists|j: int|
                    0 <= j < i && #[trigger] attacks@[j].attacker == attack.attacker) by {
                    if seen@.contains(attack.attacker) {
                        let w = choose|w: int| 0 <= w < seen@.len() && seen@[w] == attack.attacker;
                        assert(attacks@[w].attacker == attack.attacker);
                    }
                    if exists|j: int| 0 <= j < i && #[trigger] attacks@[j].attacker == attack.attacker {
                        let w = choose|w: int| 0 <= w < i && #[trigger] attacks@[w].attacker == attack.attacker;
                        assert(seen@[w] == attack.attacker);
                    }
                }
            }
            if contains_object(&seen, attack.attacker) {
                return Err(StateError::DuplicateCombatObject(attack.attacker));
            }
            seen.push(attack.attacker);
            match self.validate_attack_declaration(player, attack) {
                Ok(()) => {},
                Err(e) => return Err(e),
            }
            let keywords = match self.creature_keywords(attack.attacker) {
                Ok(kw) => kw,
                Err(e) => return Err(e),
            };
            vigilant.push(keywords.vigilance());
            proof {
                assert forall|a: int, b: int| 0 <= a < b < i + 1 implies attacks@[a].attacker
                    != attacks@[b].attacker by {
                    if b == i {
                        assert(seen@[a] == attacks@[a].attacker);
                    }
                }
            }
            i = i + 1;
        }
        self.combat = CombatState::new();
        let ghost quiet = sba_quiet(*old(self));
        let count: u32 = if attacks.len() > u32::MAX as usize {
            u32::MAX
        } else {
            attacks.len() as u32
        };
        self.emit_event(GameEvent::AttackersDeclared { player, count });
        let mut k: usize = 0;
        while k < attacks.len()
            invariant
                zones_conserved(*old(self)) ==> zones_conserved(*self),
                events_bounded(*old(self)) ==> events_bounded(*self),
                k <= attacks@.len(),
                vigilant@.len() == attacks@.len(),
                forall|q: int|
                    0 <= q < attacks@.len() ==> (#[trigger] attacks@[q]).attacker.0
                        < old(self).objects.records@.len(),
                self.objects.records@.len() == old(self).objects.records@.len(),
                self.combat.attackers@.len() == k,
                forall|i: int|
                    0 <= i < k ==> {
                        &&& (#[trigger] self.combat.attackers@[i]).object == attacks@[i].attacker
                        &&& self.combat.attackers@[i].defending_player == attacks@[i].defending_player
                        &&& !self.combat.attackers@[i].blocked
                        &&& self.combat.attackers@[i].blockers@.len() == 0
                    },
                self.players@ == old(self).players@,
                self.zones@ == old(self).zones@,
                self.empty_library_draws_since_sba@ == old(self).empty_library_draws_since_sba@,
                self.continuous_effects@ == old(self).continuous_effects@,
                forall|i: int|
                    0 <= i < old(self).objects.records@.len() ==> #[trigger] self.objects.records@[i] == (
                    ObjectRecord { tapped: self.objects.records@[i].tapped, ..old(self).objects.records@[i] }),
                self.current_step == Some(Step::DeclareAttackers),
                self.active_player == Some(player),
                old(self).current_step == Some(Step::DeclareAttackers),
                old(self).active_player == Some(player),
                forall|q: int|
                    0 <= q < attacks@.len() ==> (creature_of(*old(self), (#[trigger] attacks@[q]).attacker) matches Ok(c)
                        && vigilant@[q] == c.keywords.vigilance),
                forall|i: int|
                    0 <= i < old(self).objects.records@.len() ==> #[trigger] self.objects.records@[i].tapped == (
                    old(self).objects.records@[i].tapped || attack_taps(*old(self), attacks@, i, k as int)),
            decreases attacks@.len() - k,
        {
            let attack = attacks[k];
            let ghost tapped_before = self.objects.records@;
            if !vigilant[k] {
                let index = attack.attacker.index();
                if index >= self.objects.records.len() {
                    return Err(StateError::UnknownObject(attack.attacker));
                }
                self.objects.records[index].tapped = true;
                self.emit_event(GameEvent::ObjectTapped { object: attack.attacker, tapped: true });
            }
            proof {
                assert forall|i: int| 0 <= i < old(self).objects.records@.len() implies #[trigger] self.objects.records@[i].tapped == (
                    old(self).objects.records@[i].tapped || attack_taps(*old(self), attacks@, i, k + 1)) by {
                    if attack_taps(*old(self), attacks@, i, k + 1) && !attack_taps(*old(self), attacks@, i, k as int) {
                        let q = choose|q: int|
                            0 <= q < k + 1 && q < attacks@.len() && (#[trigger] attacks@[q]).attacker.0 == i && (creature_of(
                                *old(self),
                                attacks@[q].attacker,
                            ) matches Ok(c) && !c.keywords.vigilance);
                        assert(q == k);
                    }
                    if attack_taps(*old(self), attacks@, i, k as int) {
                        let q = choose|q: int|
                            0 <= q < k && q < attacks@.len() && (#[trigger] attacks@[q]).attacker.0 == i && (creature_of(
                                *old(self),
                                attacks@[q].attacker,
                            ) matches Ok(c) && !c.keywords.vigilance);
                        assert(attack_taps(*old(self), attacks@, i, k + 1));
                    }
                    if i == attack.attacker.0 && !vigilant@[k as int] {
                        assert(attacks@[k as int].attacker.0 == i);
                        assert(attack_taps(*old(self), attacks@, i, k + 1));
                    }
                }
            }
            self.combat.attackers.push(
                AttackingCreature {
                    object: attack.attacker,
                    defending_player: attack.defending_player,
                    blocked: false,
                    blockers: Vec::new(),
                },
            );
            self.emit_event(
                GameEvent::AttackDeclared {
                    attacker: attack.attacker,
                    defending_player: attack.defending_player,
                },
            );
            k = k + 1;
        }
        self.attackers_declared_this_combat = attacks.len() > 0;
        proof {
            if quiet {
                lemma_sba_quiet_tapping(*old(self), *self);
            }
        }
        match self.grant_priority_to(Some(player)) {
            Ok(()) => {},
            Err(e) => return Err(e),
        }
        Ok(())
    }

    /// Declares blockers in the declare blockers step for a defending
    /// player; every block, and the menace rule, is checked before the
    /// combat state changes; priority then goes to the active player.
    #[verifier::spinoff_prover]
    #[verifier::rlimit(40)]
    pub fn declare_blockers(&mut self, defending_player: PlayerId, blocks: &[BlockDeclaration]) -> (r:
        Result<(), StateError>)
        ensures
            zones_conserved(*old(self)) ==> zones_conserved(*final(self)),
            events_bounded(*old(self)) ==> events_bounded(*final(self)),
            old(self).current_step != Some(Step::DeclareBlockers) ==> r == Err::<(), StateError>(
                StateError::InvalidCombatStep {
                    expected: Step::DeclareBlockers,
                    actual: old(self).current_step,
                },
            ),
            old(self).current_step == Some(Step::DeclareBlockers) && defending_player.0 >= old(
                self,
            ).players@.len() ==> r == Err::<(), StateError>(StateError::UnknownPlayer(defending_player)),
            old(self).current_step == Some(Step::DeclareBlockers) && defending_player.0 < old(
                self,
            ).players@.len() && old(self).active_player == Some(defending_player) ==> r == Err::<
                (),
                StateError,
            >(StateError::InvalidCombatPlayer(defending_player)),
            r is Ok ==> final(self).current_step == Some(Step::DeclareBlockers),
            r is Ok ==> forall|i: int, j: int|
                0 <= i < j < blocks@.len() ==> blocks@[i].blocker != blocks@[j].blocker,
            block_declaration_check(*old(self), defending_player, blocks@) matches Err(e) ==> r
                == Err::<(), StateError>(e) && *final(self) == *old(self),
            r is Ok ==> block_declaration_check(*old(self), defending_player, blocks@) is Ok,
            block_declaration_check(*old(self), defending_player, blocks@) is Ok && sba_quiet(*old(self))
                ==> r is Ok && final(self).combat.blockers@ == blocks@.map_values(
                |b: BlockDeclaration| BlockingCreature { object: b.blocker, attacker: b.attacker },
            ),
    {
        match self.require_combat_step(Step::DeclareBlockers) {
            Ok(()) => {},
            Err(e) => return Err(e),
        }
        match self.require_player(defending_player) {
            Ok(()) => {},
            Err(e) => return Err(e),
        }
        if self.active_player == Some(defending_player) {
            return Err(StateError::InvalidCombatPlayer(defending_player));
        }
        let mut seen: Vec<ObjectId> = Vec::new();
        let mut i: usize = 0;
        while i < blocks.len()
            invariant
                zones_conserved(*old(self)) ==> zones_conserved(*self),
                events_bounded(*old(self)) ==> events_bounded(*self),
                i <= blocks@.len(),
                *self == *old(self),
                self.current_step == Some(Step::DeclareBlockers),
                defending_player.0 < self.players@.len(),
                self.active_player != Some(defending_player),
                seen@.len() == i,
                forall|k: int| 0 <= k < i ==> #[trigger] seen@[k] == blocks@[k].blocker,
                forall|a: int, b: int| 0 <= a < b < i ==> blocks@[a].blocker != blocks@[b].blocker,
                blocks_from(*self, defending_player, blocks@, 0) == blocks_from(
                    *self,
                    defending_player,
                    blocks@,
                    i as int,
                ),
            decreases blocks@.len() - i,
        {
            let block = blocks[i];
            proof {
                assert(seen@.contains(block.blocker) <==> exists|j: int|
                    0 <= j < i && #[trigger] blocks@[j].blocker == block.blocker) by {
                    if seen@.contains(block.blocker) {
                        let w = choose|w: int| 0 <= w < seen@.len() && seen@[w] == block.blocker;
                        assert(blocks@[w].blocker == block.blocker);
                    }
                    if exists|j: int| 0 <= j < i && #[trigger] blocks@[j].blocker == block.blocker {
                        let w = choose|w: int| 0 <= w < i && #[trigger] blocks@[w].blocker == block.blocker;
                        assert(seen@[w] == block.blocker);
                    }
                }
            }
            if contains_object(&seen, block.blocker) {
                return Err(StateError::DuplicateCombatObject(block.blocker));
            }
            seen.push(block.blocker);
            match self.validate_block_declaration(defending_player, block) {
                Ok(()) => {},
                Err(e) => return Err(e),
            }
            proof {
                assert forall|a: int, b: int| 0 <= a < b < i + 1 implies blocks@[a].blocker
                    != blocks@[b].blocker by {
                    if b == i {
                        assert(seen@[a] == blocks@[a].blocker);
                    }
                }
            }
            i = i + 1;
        }
        let block_list: Vec<BlockDeclaration> = copy_blocks(blocks);
        match self.validate_menace_blocks(&block_list) {
            Ok(()) => {},
            Err(e) => return Err(e),
        }
        self.combat.blockers = Vec::new();
        let ghost quiet = sba_quiet(*old(self));
        let mut a: usize = 0;
        while a < self.combat.attackers.len()
            invariant
                self.players@ == old(self).players@,
                self.zones@ == old(self).zones@,
                self.objects.records@ == old(self).objects.records@,
                self.empty_library_draws_since_sba@ == old(self).empty_library_draws_since_sba@,
                self.continuous_effects@ == old(self).continuous_effects@,
                self.combat.blockers@.len() == 0,
                zones_conserved(*old(self)) ==> zones_conserved(*self),
                events_bounded(*old(self)) ==> events_bounded(*self),
                a <= self.combat.attackers@.len(),
                self.current_step == Some(Step::DeclareBlockers),
                old(self).current_step == Some(Step::DeclareBlockers),
                defending_player.0 < old(self).players@.len(),
                old(self).active_player != Some(defending_player),
            decreases self.combat.attackers@.len() - a,
        {
            self.combat.attackers[a].blockers = Vec::new();
            self.combat.attackers[a].blocked = false;
            a = a + 1;
        }
        let count: u32 = if blocks.len() > u32::MAX as usize {
            u32::MAX
        } else {
            blocks.len() as u32
        };
        self.emit_event(GameEvent::BlockersDeclared { defending_player, count });
        let mut k: usize = 0;
        assert(self.combat.blockers@ =~= blocks@.take(0).map_values(
            |b: BlockDeclaration| BlockingCreature { object: b.blocker, attacker: b.attacker },
        ));
        while k < blocks.len()
            invariant
                self.players@ == old(self).players@,
                self.zones@ == old(self).zones@,
                self.objects.records@ == old(self).objects.records@,
                self.empty_library_draws_since_sba@ == old(self).empty_library_draws_since_sba@,
                self.continuous_effects@ == old(self).continuous_effects@,
                self.combat.blockers@ == blocks@.take(k as int).map_values(
                    |b: BlockDeclaration| BlockingCreature { object: b.blocker, attacker: b.attacker },
                ),
                zones_conserved(*old(self)) ==> zones_conserved(*self),
                events_bounded(*old(self)) ==> events_bounded(*self),
                k <= blocks@.len(),
                self.current_step == Some(Step::DeclareBlockers),
                old(self).current_step == Some(Step::DeclareBlockers),
                defending_player.0 < old(self).players@.len(),
                old(self).active_player != Some(defending_player),
            decreases blocks@.len() - k,
        {
            let block = blocks[k];
            self.combat.blockers.push(BlockingCreature { object: block.blocker, attacker: block.attacker });
            match self.attacker_position(block.attacker) {
                Some(index) => {
                    self.combat.attackers[index].blocked = true;
                    self.combat.attackers[index].blockers.push(block.blocker);
                },
                None => {},
            }
            self.emit_event(GameEvent::BlockDeclared { blocker: block.blocker, attacker: block.attacker });
            proof {
                let next = blocks@.take(k + 1);
                assert(next =~= blocks@.take(k as int).push(block));
                assert(self.combat.blockers@ =~= next.map_values(
                    |b: BlockDeclaration| BlockingCreature { object: b.blocker, attacker: b.attacker },
                ));
            }
            k = k + 1;
        }
        assert(blocks@.take(blocks@.len() as int) =~= blocks@);
        proof {
            if quiet {
                lemma_sba_quiet_kept(*old(self), *self);
            }
        }
        let active = self.active_player;
        match self.grant_priority_to(active) {
            Ok(()) => {},
            Err(e) => return Err(e),
        }
        Ok(())
    }

    /// Assigns and deals combat damage for the current combat damage step:
    /// every eligible source with damage to deal must be assigned exactly
    /// once and legally; then damage is dealt in request order and
    /// state-based actions are checked.
    #[verifier::rlimit(60)]
    #[verifier::spinoff_prover]
    #[verifier::spinoff_prover]
    #[verifier::rlimit(60)]
    pub fn assign_combat_damage(&mut self, assignments: &[CombatDamageAssignmentRequest]) -> (r: Result<
        Vec<CombatDamageRecord>,
        StateError,
    >)
        ensures
            zones_conserved(*old(self)) ==> zones_conserved(*final(self)),
            events_bounded(*old(self)) ==> events_bounded(*final(self)),
            old(self).current_step != Some(Step::CombatDamage) ==> r == Err::<
                Vec<CombatDamageRecord>,
                StateError,
            >(
                StateError::InvalidCombatStep {
                    expected: Step::CombatDamage,
                    actual: old(self).current_step,
                },
            ),
            r matches Ok(records) ==> forall|i: int|
                0 <= i < records@.len() ==> (#[trigger] records@[i]).amount > 0,
            r is Ok ==> forall|i: int, j: int|
                0 <= i < j < assignments@.len() ==> assignments@[i].source != assignments@[j].source,
            damage_assignment_check(*old(self), assignments@) matches Err(e) ==> r == Err::<
                Vec<CombatDamageRecord>,
                StateError,
            >(e) && *final(self) == *old(self),
            r is Ok ==> damage_assignment_check(*old(self), assignments@) is Ok,
            r matches Ok(records) ==> (old(self).replacement_effects@.len() == 0 ==> dealt_damage(
                records@,
            ) == requested_damage(assignments@)),
            r matches Ok(records) ==> (old(self).replacement_effects@.len() == 0 && (forall|k: int|
                0 <= k < records@.len() ==> !(#[trigger] records@[k]).source_had_lifelink) ==> final(self).players@.len()
                == players_after_all_damage(old(self).players@, records@).len() && forall|i: int|
                0 <= i < final(self).players@.len() ==> #[trigger] final(self).players@[i].life
                    == players_after_all_damage(old(self).players@, records@)[i].life),
            damage_assignment_check(*old(self), assignments@) is Ok && old(self).replacement_effects@.len() == 0
                && combat_damage_fits(*old(self), assignments@) && sba_settles(*old(self)) ==> r is Ok,
            r matches Ok(records) ==> (old(self).replacement_effects@.len() == 0 && zones_conserved(*old(self))
                ==> forall|o: ObjectId|
                #[trigger] battlefield_objects(*final(self)).contains(o) && o.0 < old(self).objects.records@.len()
                    ==> final(self).objects.records@[o.0 as int].damage_marked == old(self).objects.records@[o.0 as int].damage_marked
                    + total_damage_on(records@, o)),
    {
        match self.require_combat_step(Step::CombatDamage) {
            Ok(()) => {},
            Err(e) => return Err(e),
        }
        let step = match self.combat.damage_step {
            Some(s) => s,
            None => return Err(
                StateError::InvalidCombatStep { expected: Step::CombatDamage, actual: self.current_step },
            ),
        };
        let eligible = match self.eligible_combat_damage_sources() {
            Ok(v) => v,
            Err(e) => return Err(e),
        };
        let ghost eligible_spec = damage_dealers(*self, step, active_combatants(*self));
        let mut seen: Vec<ObjectId> = Vec::new();
        let mut i: usize = 0;
        while i < assignments.len()
            invariant
                zones_conserved(*old(self)) ==> zones_conserved(*self),
                events_bounded(*old(self)) ==> events_bounded(*self),
                *self == *old(self),
                self.combat.damage_step == Some(step),
                eligible@ == eligible_spec,
                eligible_spec == damage_dealers(*self, step, active_combatants(*self)),
                damage_requests_from(*self, eligible_spec, assignments@, 0) == damage_requests_from(
                    *self,
                    eligible_spec,
                    assignments@,
                    i as int,
                ),
                i <= assignments@.len(),
                seen@.len() == i,
                old(self).current_step == Some(Step::CombatDamage),
                forall|k: int| 0 <= k < i ==> #[trigger] seen@[k] == assignments@[k].source,
                forall|a: int, b: int| 0 <= a < b < i ==> assignments@[a].source != assignments@[b].source,
            decreases assignments@.len() - i,
        {
            let source = assignments[i].source;
            proof {
                assert(seen@.contains(source) <==> exists|j: int| 0 <= j < i && #[trigger] assignments@[j].source == source) by {
                    if seen@.contains(source) {
                        let w = choose|w: int| 0 <= w < seen@.len() && seen@[w] == source;
                        assert(assignments@[w].source == source);
                    }
                    if exists|j: int| 0 <= j < i && #[trigger] assignments@[j].source == source {
                        let w = choose|w: int| 0 <= w < i && #[trigger] assignments@[w].source == source;
                        assert(seen@[w] == source);
                    }
                }
            }
            if contains_object(&seen, source) {
                return Err(StateError::DuplicateCombatObject(source));
            }
            seen.push(source);
            if !contains_object(&eligible, source) {
                return Err(StateError::IllegalCombatDamageAssignment(source));
            }
            let checked = self.validate_combat_damage_request(&assignments[i]);
            match checked {
                Ok(()) => {},
                Err(e) => return Err(e),
            }
            proof {
                assert forall|a: int, b: int| 0 <= a < b < i + 1 implies assignments@[a].source
                    != assignments@[b].source by {
                    if b == i {
                        assert(seen@[a] == assignments@[a].source);
                    }
                }
            }
            i = i + 1;
        }
        proof {
            assert forall|k: int| 0 <= k < assignments@.len() implies seen@[k] == #[trigger] assignments@[k].source by {}
        }
        let mut e: usize = 0;
        while e < eligible.len()
            invariant
                zones_conserved(*old(self)) ==> zones_conserved(*self),
                events_bounded(*old(self)) ==> events_bounded(*self),
                *self == *old(self),
                self.combat.damage_step == Some(step),
                eligible@ == eligible_spec,
                eligible_spec == damage_dealers(*self, step, active_combatants(*self)),
                seen@.len() == assignments@.len(),
                forall|k: int| 0 <= k < assignments@.len() ==> #[trigger] seen@[k] == assignments@[k].source,
                damage_requests_from(*self, eligible_spec, assignments@, 0) is Ok,
                damage_coverage_from(*self, eligible_spec, assignments@, 0) == damage_coverage_from(
                    *self,
                    eligible_spec,
                    assignments@,
                    e as int,
                ),
                e <= eligible@.len(),
                old(self).current_step == Some(Step::CombatDamage),
                forall|a: int, b: int| 0 <= a < b < assignments@.len() ==> assignments@[a].source != assignments@[b].source,
            decreases eligible@.len() - e,
        {
            let source = eligible[e];
            let profile = match self.combat_damage_profile(source) {
                Ok(p) => p,
                Err(err) => return Err(err),
            };
            let must_assign = profile.required_total > 0;
            let supplied = contains_object(&seen, source);
            proof {
                lemma_sources_are_requested(seen@, assignments@, source);
            }
            if must_assign && !supplied {
                return Err(StateError::MissingCombatDamageAssignment(source));
            }
            if !must_assign && supplied {
                return Err(StateError::IllegalCombatDamageAssignment(source));
            }
            e = e + 1;
        }
        assert(damage_assignment_check(*old(self), assignments@) is Ok);
        let ghost ok = old(self).replacement_effects@.len() == 0 && combat_damage_fits(*old(self), assignments@)
            && sba_settles(*old(self));
        let mut records: Vec<CombatDamageRecord> = Vec::new();
        let mut q: usize = 0;
        while q < assignments.len()
            invariant
                zones_conserved(*old(self)) ==> zones_conserved(*self),
                events_bounded(*old(self)) ==> events_bounded(*self),
                q <= assignments@.len(),
                old(self).current_step == Some(Step::CombatDamage),
                forall|a: int, b: int| 0 <= a < b < assignments@.len() ==> assignments@[a].source != assignments@[b].source,
                forall|k: int| 0 <= k < records@.len() ==> (#[trigger] records@[k]).amount > 0,
                damage_assignment_check(*old(self), assignments@) is Ok,
                old(self).replacement_effects@.len() == 0 ==> self.replacement_effects@.len() == 0
                    && dealt_damage(records@) == requested_damage(assignments@.take(q as int)),
                old(self).replacement_effects@.len() == 0 && (forall|k: int|
                    0 <= k < records@.len() ==> !(#[trigger] records@[k]).source_had_lifelink) ==> self.players@
                    == players_after_all_damage(old(self).players@, records@),
                old(self).replacement_effects@.len() == 0 ==> self.objects.records@.len() == old(self).objects.records@.len()
                    && forall|o: ObjectId|
                    o.0 < old(self).objects.records@.len() ==> #[trigger] self.objects.records@[o.0 as int].damage_marked
                        == old(self).objects.records@[o.0 as int].damage_marked + total_damage_on(records@, o),
                ok == (old(self).replacement_effects@.len() == 0 && combat_damage_fits(*old(self), assignments@) && sba_settles(
                    *old(self),
                )),
                ok ==> settle_frame(*old(self), *self, 0) && same_but_marks_and_tapping(old(self).objects, self.objects)
                    && self.continuous_effects@ == old(self).continuous_effects@,
                ok ==> forall|p: PlayerId|
                    p.0 < old(self).players@.len() ==> #[trigger] self.players@[p.0 as int].life == old(self).players@[p.0 as int].life
                        - life_loss_to(dealt_damage(records@), p),
                ok ==> forall|k: int| 0 <= k < records@.len() ==> !(#[trigger] records@[k]).source_had_lifelink,
            decreases assignments@.len() - q,
        {
            let request = &assignments[q];
            let ghost done_before = dealt_damage(records@);
            proof {
                if ok {
                    lemma_characteristics_ignore_marks(*old(self), *self, request.source);
                    assert(creature_of(*old(self), assignments@[q as int].source) is Ok);
                }
            }
            let keywords = match self.creature_keywords(request.source) {
                Ok(kw) => kw,
                Err(err) => return Err(err),
            };
            let mut t: usize = 0;
            while t < request.assignments.len()
                invariant
                    zones_conserved(*old(self)) ==> zones_conserved(*self),
                    events_bounded(*old(self)) ==> events_bounded(*self),
                    t <= request.assignments@.len(),
                old(self).current_step == Some(Step::CombatDamage),
                forall|a: int, b: int| 0 <= a < b < assignments@.len() ==> assignments@[a].source != assignments@[b].source,
                    forall|k: int| 0 <= k < records@.len() ==> (#[trigger] records@[k]).amount > 0,
                    damage_assignment_check(*old(self), assignments@) is Ok,
                    q < assignments@.len(),
                    *request == assignments@[q as int],
                    old(self).replacement_effects@.len() == 0 ==> self.replacement_effects@.len() == 0
                        && done_before == requested_damage(assignments@.take(q as int))
                        && dealt_damage(records@) == done_before + assignment_damage(
                        request.source,
                        request.assignments@.take(t as int),
                    ),
                    old(self).replacement_effects@.len() == 0 && (forall|k: int|
                        0 <= k < records@.len() ==> !(#[trigger] records@[k]).source_had_lifelink) ==> self.players@
                        == players_after_all_damage(old(self).players@, records@),
                    old(self).replacement_effects@.len() == 0 ==> self.objects.records@.len() == old(self).objects.records@.len()
                        && forall|o: ObjectId|
                        o.0 < old(self).objects.records@.len() ==> #[trigger] self.objects.records@[o.0 as int].damage_marked
                            == old(self).objects.records@[o.0 as int].damage_marked + total_damage_on(records@, o),
                    ok == (old(self).replacement_effects@.len() == 0 && combat_damage_fits(*old(self), assignments@) && sba_settles(
                        *old(self),
                    )),
                    ok ==> settle_frame(*old(self), *self, 0) && same_but_marks_and_tapping(old(self).objects, self.objects)
                        && self.continuous_effects@ == old(self).continuous_effects@,
                    ok ==> forall|p: PlayerId|
                        p.0 < old(self).players@.len() ==> #[trigger] self.players@[p.0 as int].life == old(self).players@[p.0 as int].life
                            - life_loss_to(dealt_damage(records@), p),
                    ok ==> forall|k: int| 0 <= k < records@.len() ==> !(#[trigger] records@[k]).source_had_lifelink,
                    ok ==> !keywords.lifelink,
                decreases request.assignments@.len() - t,
            {
                let assignment = request.assignments[t];
                proof {
                    let taken = request.assignments@.take(t as int + 1);
                    assert(taken.drop_last() =~= request.assignments@.take(t as int));
                    assert(taken.last() == assignment);
                }
                let ghost records_before = records@;
                if assignment.amount > 0 {
                    let record = CombatDamageRecord {
                        source: request.source,
                        target: assignment.target,
                        amount: assignment.amount,
                        step,
                        source_had_deathtouch: keywords.deathtouch(),
                        source_had_lifelink: keywords.lifelink(),
                    };
                    let ghost pre = *self;
                    proof {
                        if ok {
                            assert(assignments@[q as int].assignments@[t as int] == assignment);
                            lemma_next_damage_fits(*old(self), pre, assignments@, q as int, t as int, records_before);
                        }
                    }
                    match self.apply_combat_damage(record) {
                        Ok(Some(dealt)) => {
                            let ghost post = *self;
                            self.emit_event(GameEvent::CombatDamageDealt { record: dealt });
                            records.push(dealt);
                            proof {
                                assert(records@.drop_last() =~= records_before);
                                if ok {
                                    assert(dealt == record);
                                    lemma_life_after_record(*old(self), pre.players@, post.players@, dealt_damage(records_before), record);
                                    assert(dealt_damage(records@) =~= dealt_damage(records_before).push(
                                        (dealt.source, dealt.target, dealt.amount),
                                    ));
                                    assert(settle_frame(post, *self, 0));
                                    lemma_settle_frame_chain(*old(self), pre, post, 0, 0);
                                    lemma_settle_frame_chain(*old(self), post, *self, 0, 0);
                                    assert forall|i: int| 0 <= i < old(self).objects.records@.len() implies #[trigger] self.objects.records@[i]
                                        == (ObjectRecord {
                                        damage_marked: self.objects.records@[i].damage_marked,
                                        deathtouch_damage_marked: self.objects.records@[i].deathtouch_damage_marked,
                                        tapped: self.objects.records@[i].tapped,
                                        ..old(self).objects.records@[i]
                                    }) by {
                                        assert(pre.objects.records@[i] == (ObjectRecord {
                                            damage_marked: pre.objects.records@[i].damage_marked,
                                            deathtouch_damage_marked: pre.objects.records@[i].deathtouch_damage_marked,
                                            tapped: pre.objects.records@[i].tapped,
                                            ..old(self).objects.records@[i]
                                        }));
                                        assert(post.objects.records@[i] == (ObjectRecord {
                                            damage_marked: post.objects.records@[i].damage_marked,
                                            deathtouch_damage_marked: post.objects.records@[i].deathtouch_damage_marked,
                                            tapped: post.objects.records@[i].tapped,
                                            ..pre.objects.records@[i]
                                        }));
                                    }
                                }
                                if old(self).replacement_effects@.len() == 0 {
                                    assert(dealt == record);
                                    assert forall|o: ObjectId| o.0 < old(self).objects.records@.len() implies #[trigger] self.objects.records@[o.0 as int].damage_marked
                                        == old(self).objects.records@[o.0 as int].damage_marked + total_damage_on(records@, o) by {
                                        assert(total_damage_on(records@, o) == total_damage_on(records_before, o) + damage_marked_on(dealt, o));
                                        assert(post.objects.records@[o.0 as int].damage_marked == pre.objects.records@[o.0 as int].damage_marked
                                            + damage_marked_on(record, o));
                                        assert(pre.objects.records@[o.0 as int].damage_marked == old(self).objects.records@[o.0 as int].damage_marked
                                            + total_damage_on(records_before, o));
                                    }
                                }
                                if old(self).replacement_effects@.len() == 0 && (forall|k: int|
                                    0 <= k < records@.len() ==> !(#[trigger] records@[k]).source_had_lifelink) {
                                    assert(!records@[records_before.len() as int].source_had_lifelink);
                                    assert forall|k: int| 0 <= k < records_before.len() implies !(
                                    #[trigger] records_before[k]).source_had_lifelink by {
                                        assert(records@[k] == records_before[k]);
                                    }
                                }
                                assert(dealt_damage(records@) =~= dealt_damage(records_before).push(
                                    (dealt.source, dealt.target, dealt.amount),
                                ));
                            }
                        },
                        Ok(None) => {},
                        Err(err) => return Err(err),
                    }
                }
                t = t + 1;
            }
            proof {
                let taken = assignments@.take(q as int + 1);
                assert(taken.drop_last() =~= assignments@.take(q as int));
                assert(taken.last() == assignments@[q as int]);
                assert(request.assignments@.take(request.assignments@.len() as int)
                    =~= request.assignments@);
            }
            q = q + 1;
        }
        proof {
            assert(assignments@.take(assignments@.len() as int) =~= assignments@);
        }
        let ghost dealt_players = self.players@;
        let ghost dealt_state = *self;
        let mut d: usize = 0;
        while d < records.len()
            invariant
                self.players@ == dealt_players,
                self.objects.records@ == dealt_state.objects.records@,
                self.zones@ == dealt_state.zones@,
                zones_conserved(*old(self)) ==> zones_conserved(*self),
                events_bounded(*old(self)) ==> events_bounded(*self),
                d <= records@.len(),
                old(self).current_step == Some(Step::CombatDamage),
                forall|a: int, b: int| 0 <= a < b < assignments@.len() ==> assignments@[a].source != assignments@[b].source,
                forall|k: int| 0 <= k < records@.len() ==> (#[trigger] records@[k]).amount > 0,
                damage_assignment_check(*old(self), assignments@) is Ok,
            decreases records@.len() - d,
        {
            self.combat.damage_records.push(records[d]);
            d = d + 1;
        }
        let ghost checked = *self;
        proof {
            if ok {
                assert(settle_frame(dealt_state, checked, 0));
                lemma_settle_frame_chain(*old(self), dealt_state, checked, 0, 0);
                lemma_settle_frame_settles(*old(self), checked, 0);
            }
        }
        match self.perform_state_based_actions() {
            Ok(_) => {},
            Err(err) => return Err(err),
        }
        proof {
            if old(self).replacement_effects@.len() == 0 && zones_conserved(*old(self)) {
                assert(zones_conserved(checked));
                assert forall|o: ObjectId|
                    #[trigger] battlefield_objects(*self).contains(o) && o.0 < old(self).objects.records@.len()
                        implies self.objects.records@[o.0 as int].damage_marked == old(self).objects.records@[o.0 as int].damage_marked
                        + total_damage_on(records@, o) by {
                    assert(checked.objects.records@[o.0 as int].damage_marked == old(self).objects.records@[o.0 as int].damage_marked
                        + total_damage_on(records@, o));
                }
            }
        }
        Ok(records)
    }
}

/// The players after `record` is dealt: a player it targets loses that much
/// life (amounts beyond `i32::MAX` count as `i32::MAX`); damage to an object
/// leaves the players as they are.
pub open spec fn players_after_damage(players: Seq<PlayerState>, record: CombatDamageRecord) -> Seq<PlayerState> {
    match record.target {
        CombatDamageTarget::Player(p) => if p.0 < players.len() {
            players.update(
                p.0 as int,
                PlayerState { life: (players[p.0 as int].life - life_delta(record.amount)) as i32, ..players[p.0 as int] },
            )
        } else {
            players
        },
        CombatDamageTarget::Object(_) => players,
    }
}

/// The damage `record` marks on the object `o`.
pub open spec fn damage_marked_on(record: CombatDamageRecord, o: ObjectId) -> int {
    if record.target == CombatDamageTarget::Object(o) {
        record.amount as int
    } else {
        0
    }
}

/// The damage `records`, together, mark on the object `o`.
pub open spec fn total_damage_on(records: Seq<CombatDamageRecord>, o: ObjectId) -> int
    decreases records.len(),
{
    if records.len() == 0 {
        0
    } else {
        total_damage_on(records.drop_last(), o) + damage_marked_on(records.last(), o)
    }
}

/// The players after each of `records` is dealt in turn.
pub open spec fn players_after_all_damage(players: Seq<PlayerState>, records: Seq<CombatDamageRecord>) -> Seq<
    PlayerState,
>
    decreases records.len(),
{
    if records.len() == 0 {
        players
    } else {
        players_after_damage(players_after_all_damage(players, records.drop_last()), records.last())
    }
}

/// The damage one source's assignments deal, in order: each positive
/// assignment as its source, target and amount.
pub open spec fn assignment_damage(source: ObjectId, assignments: Seq<CombatDamageAssignment>) -> Seq<
    (ObjectId, CombatDamageTarget, u32),
>
    decreases assignments.len(),
{
    if assignments.len() == 0 {
        Seq::empty()
    } else {
        let rest = assignment_damage(source, assignments.drop_last());
        if assignments.last().amount > 0 {
            rest.push((source, assignments.last().target, assignments.last().amount))
        } else {
            rest
        }
    }
}

/// The damage a whole request deals, source after source in request order.
pub open spec fn requested_damage(requests: Seq<CombatDamageAssignmentRequest>) -> Seq<
    (ObjectId, CombatDamageTarget, u32),
>
    decreases requests.len(),
{
    if requests.len() == 0 {
        Seq::empty()
    } else {
        requested_damage(requests.drop_last()) + assignment_damage(
            requests.last().source,
            requests.last().assignments@,
        )
    }
}

/// The life `damage` takes from player `p`, each amount counting at most
/// `i32::MAX`.
pub open spec fn life_loss_to(damage: Seq<(ObjectId, CombatDamageTarget, u32)>, p: PlayerId) -> int
    decreases damage.len(),
{
    if damage.len() == 0 {
        0
    } else {
        life_loss_to(damage.drop_last(), p) + if damage.last().1 == CombatDamageTarget::Player(p) {
            life_delta(damage.last().2)
        } else {
            0
        }
    }
}

/// The damage `damage` marks on the object `o`.
pub open spec fn damage_to(damage: Seq<(ObjectId, CombatDamageTarget, u32)>, o: ObjectId) -> int
    decreases damage.len(),
{
    if damage.len() == 0 {
        0
    } else {
        damage_to(damage.drop_last(), o) + if damage.last().1 == CombatDamageTarget::Object(o) {
            damage.last().2 as int
        } else {
            0
        }
    }
}

/// Dealing the requested combat damage in order meets no source that is
/// not a creature, no lifelink, no missing player or creature, and no life
/// total or damage count out of range.
pub open spec fn combat_damage_fits(state: GameState, requests: Seq<CombatDamageAssignmentRequest>) -> bool {
    let damage = requested_damage(requests);
    &&& forall|i: int|
        0 <= i < requests.len() ==> (creature_of(state, (#[trigger] requests[i]).source) matches Ok(c)
            && !c.keywords.lifelink)
    &&& forall|k: int|
        0 <= k < damage.len() ==> match (#[trigger] damage[k]).1 {
            CombatDamageTarget::Player(p) => p.0 < state.players@.len() && state.players@[p.0 as int].life
                - life_loss_to(damage, p) >= i32::MIN,
            CombatDamageTarget::Object(o) => (state.objects.spec_get(o) matches Some(rec) && rec.base_creature is Some
                && rec.damage_marked + damage_to(damage, o) <= u32::MAX),
        }
}

/// Damage dealt earlier never exceeds damage dealt later in the same list.
proof fn lemma_damage_totals_prefix(
    a: Seq<(ObjectId, CombatDamageTarget, u32)>,
    b: Seq<(ObjectId, CombatDamageTarget, u32)>,
    p: PlayerId,
    o: ObjectId,
)
    requires
        a.len() <= b.len(),
        b.take(a.len() as int) == a,
    ensures
        life_loss_to(a, p) <= life_loss_to(b, p),
        damage_to(a, o) <= damage_to(b, o),
    decreases b.len(),
{
    if a.len() < b.len() {
        assert(b.drop_last().take(a.len() as int) =~= a);
        lemma_damage_totals_prefix(a, b.drop_last(), p, o);
    } else {
        assert(b =~= a);
    }
}

/// The records' damage on `o` is the damage their triples mark on it.
proof fn lemma_total_damage_on_dealt(records: Seq<CombatDamageRecord>, o: ObjectId)
    ensures
        total_damage_on(records, o) == damage_to(dealt_damage(records), o),
    decreases records.len(),
{
    if records.len() > 0 {
        lemma_total_damage_on_dealt(records.drop_last(), o);
        assert(dealt_damage(records).drop_last() =~= dealt_damage(records.drop_last()));
    }
}

/// A source's positive assignments, cut after `t` of them, start its whole
/// list.
proof fn lemma_assignment_damage_prefix(source: ObjectId, assignments: Seq<CombatDamageAssignment>, t: int)
    requires
        0 <= t <= assignments.len(),
    ensures
        assignment_damage(source, assignments.take(t)).len() <= assignment_damage(source, assignments).len(),
        assignment_damage(source, assignments).take(assignment_damage(source, assignments.take(t)).len() as int)
            == assignment_damage(source, assignments.take(t)),
    decreases assignments.len() - t,
{
    if t < assignments.len() {
        lemma_assignment_damage_prefix(source, assignments.drop_last(), t);
        assert(assignments.drop_last().take(t) =~= assignments.take(t));
        let x = assignment_damage(source, assignments.take(t));
        let y = assignment_damage(source, assignments.drop_last());
        let z = assignment_damage(source, assignments);
        assert(z.take(y.len() as int) =~= y);
        assert(z.take(x.len() as int) =~= y.take(x.len() as int));
    } else {
        assert(assignments.take(t) =~= assignments);
    }
}

/// The damage of the first `q` requests starts the damage of all of them.
proof fn lemma_requested_damage_prefix(requests: Seq<CombatDamageAssignmentRequest>, q: int)
    requires
        0 <= q <= requests.len(),
    ensures
        requested_damage(requests.take(q)).len() <= requested_damage(requests).len(),
        requested_damage(requests).take(requested_damage(requests.take(q)).len() as int) == requested_damage(
            requests.take(q),
        ),
        q < requests.len() ==> requested_damage(requests.take(q + 1)) == requested_damage(requests.take(q))
            + assignment_damage(requests[q].source, requests[q].assignments@),
    decreases requests.len() - q,
{
    if q < requests.len() {
        assert(requests.take(q + 1).drop_last() =~= requests.take(q));
        lemma_requested_damage_prefix(requests.drop_last(), q);
        assert(requests.drop_last().take(q) =~= requests.take(q));
        let x = requested_damage(requests.take(q));
        let y = requested_damage(requests.drop_last());
        let z = requested_damage(requests);
        assert(z.take(y.len() as int) =~= y);
        assert(z.take(x.len() as int) =~= y.take(x.len() as int));
    } else {
        assert(requests.take(q) =~= requests);
    }
}

/// After the damage of the first `q` requests and the first `t`
/// assignments of request `q`, a positive assignment `t` deals the next
/// requested damage.
proof fn lemma_next_requested_damage(
    requests: Seq<CombatDamageAssignmentRequest>,
    q: int,
    t: int,
    dealt: Seq<(ObjectId, CombatDamageTarget, u32)>,
)
    requires
        0 <= q < requests.len(),
        0 <= t < requests[q].assignments@.len(),
        requests[q].assignments@[t].amount > 0,
        dealt == requested_damage(requests.take(q)) + assignment_damage(
            requests[q].source,
            requests[q].assignments@.take(t),
        ),
    ensures
        ({
            let full = requested_damage(requests);
            let a = requests[q].assignments@[t];
            let x = dealt.push((requests[q].source, a.target, a.amount));
            &&& x.len() <= full.len()
            &&& full.take(x.len() as int) == x
        }),
{
    let full = requested_damage(requests);
    let src = requests[q].source;
    let aa = requests[q].assignments@;
    let a = aa[t];
    let taken = aa.take(t + 1);
    let triple = (src, a.target, a.amount);
    assert(taken.drop_last() =~= aa.take(t));
    assert(taken.last() == a);
    assert(assignment_damage(src, taken) =~= assignment_damage(src, aa.take(t)).push(triple));
    lemma_assignment_damage_prefix(src, aa, t + 1);
    lemma_requested_damage_prefix(requests, q);
    lemma_requested_damage_prefix(requests, q + 1);
    let head = requested_damage(requests.take(q));
    let x = head + assignment_damage(src, taken);
    let r1 = requested_damage(requests.take(q + 1));
    assert(r1 == head + assignment_damage(src, aa));
    assert(r1.take(x.len() as int) =~= x) by {
        assert forall|i: int| 0 <= i < x.len() implies r1[i] == x[i] by {
            if i >= head.len() {
                assert(assignment_damage(src, aa).take(assignment_damage(src, taken).len() as int)[i - head.len()]
                    == assignment_damage(src, taken)[i - head.len()]);
            }
        }
    }
    assert(full.take(x.len() as int) =~= x) by {
        assert forall|i: int| 0 <= i < x.len() implies full[i] == x[i] by {
            assert(full.take(r1.len() as int)[i] == r1[i]);
            assert(r1.take(x.len() as int)[i] == x[i]);
        }
    }
    assert(x =~= dealt.push(triple));
}

/// When the requested damage fits, the next positive assignment fits the
/// state its predecessors left: its player exists and keeps a life total
/// in range, or its creature exists and keeps its damage count in range.
proof fn lemma_next_damage_fits(
    state: GameState,
    now: GameState,
    requests: Seq<CombatDamageAssignmentRequest>,
    q: int,
    t: int,
    records: Seq<CombatDamageRecord>,
)
    requires
        combat_damage_fits(state, requests),
        0 <= q < requests.len(),
        0 <= t < requests[q].assignments@.len(),
        requests[q].assignments@[t].amount > 0,
        dealt_damage(records) == requested_damage(requests.take(q)) + assignment_damage(
            requests[q].source,
            requests[q].assignments@.take(t),
        ),
        now.players@.len() == state.players@.len(),
        forall|p: PlayerId|
            p.0 < state.players@.len() ==> #[trigger] now.players@[p.0 as int].life == state.players@[p.0 as int].life
                - life_loss_to(dealt_damage(records), p),
        same_but_marks_and_tapping(state.objects, now.objects),
        forall|o: ObjectId|
            o.0 < state.objects.records@.len() ==> #[trigger] now.objects.records@[o.0 as int].damage_marked
                == state.objects.records@[o.0 as int].damage_marked + total_damage_on(records, o),
    ensures
        ({
            let a = requests[q].assignments@[t];
            let x = dealt_damage(records).push((requests[q].source, a.target, a.amount));
            match a.target {
                CombatDamageTarget::Player(p) => p.0 < now.players@.len() && now.players@[p.0 as int].life
                    - life_delta(a.amount) >= i32::MIN && life_loss_to(x, p) == life_loss_to(dealt_damage(records), p)
                    + life_delta(a.amount),
                CombatDamageTarget::Object(o) => (now.objects.spec_get(o) matches Some(rec) && rec.base_creature is Some
                    && rec.damage_marked + a.amount <= u32::MAX),
            }
        }),
{
    let a = requests[q].assignments@[t];
    let dealt = dealt_damage(records);
    lemma_next_requested_damage(requests, q, t, dealt);
    let triple = (requests[q].source, a.target, a.amount);
    let x = dealt.push(triple);
    let full = requested_damage(requests);
    let k = dealt.len() as int;
    assert(x[k] == triple);
    assert(full.take(x.len() as int)[k] == x[k]);
    assert(full[k] == triple);
    assert(x.drop_last() =~= dealt);
    match a.target {
        CombatDamageTarget::Player(p) => {
            lemma_damage_totals_prefix(x, full, p, requests[q].source);
        },
        CombatDamageTarget::Object(o) => {
            lemma_damage_totals_prefix(x, full, PlayerId(0), o);
            lemma_total_damage_on_dealt(records, o);
            assert(now.objects.records@[o.0 as int].base_creature == state.objects.records@[o.0 as int].base_creature);
        },
    }
}

/// Dealing one more record keeps each player's life equal to the starting
/// life less everything dealt so far.
proof fn lemma_life_after_record(
    state: GameState,
    pre: Seq<PlayerState>,
    post: Seq<PlayerState>,
    dealt: Seq<(ObjectId, CombatDamageTarget, u32)>,
    record: CombatDamageRecord,
)
    requires
        pre.len() == state.players@.len(),
        forall|p: PlayerId|
            p.0 < state.players@.len() ==> #[trigger] pre[p.0 as int].life == state.players@[p.0 as int].life
                - life_loss_to(dealt, p),
        post == players_after_damage(pre, record),
        record.target matches CombatDamageTarget::Player(p) ==> p.0 < pre.len() && pre[p.0 as int].life
            - life_delta(record.amount) >= i32::MIN,
    ensures
        post.len() == pre.len(),
        forall|p: PlayerId|
            p.0 < state.players@.len() ==> #[trigger] post[p.0 as int].life == state.players@[p.0 as int].life
                - life_loss_to(dealt.push((record.source, record.target, record.amount)), p),
{
    let x = dealt.push((record.source, record.target, record.amount));
    assert(x.drop_last() =~= dealt);
    assert forall|p: PlayerId| p.0 < state.players@.len() implies #[trigger] post[p.0 as int].life
        == state.players@[p.0 as int].life - life_loss_to(x, p) by {
        assert(pre[p.0 as int].life == state.players@[p.0 as int].life - life_loss_to(dealt, p));
        if record.target == CombatDamageTarget::Player(p) {
            assert(life_delta(record.amount) >= 0);
        }
    }
}

/// The source, target and amount of each dealt damage record.
pub open spec fn dealt_damage(records: Seq<CombatDamageRecord>) -> Seq<(ObjectId, CombatDamageTarget, u32)> {
    records.map_values(|d: CombatDamageRecord| (d.source, d.target, d.amount))
}

/// Copies a list of block declarations.
pub(crate) fn copy_blocks(blocks: &[BlockDeclaration]) -> (r: Vec<BlockDeclaration>)
    ensures
        r@ == blocks@,
{
    let mut r: Vec<BlockDeclaration> = Vec::new();
    let mut i: usize = 0;
    while i < blocks.len()
        invariant
            i <= blocks@.len(),
            r@ == blocks@.subrange(0, i as int),
        decreases blocks@.len() - i,
    {
        r.push(blocks[i]);
        proof {
            assert(r@ =~= blocks@.subrange(0, i + 1));
        }
        i = i + 1;
    }
    assert(blocks@.subrange(0, blocks@.len() as int) =~= blocks@);
    r
}

} // verus!
