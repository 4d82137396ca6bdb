//! Priority and the stack: who may act, target legality, casting spells,
//! putting abilities on the stack and resolving the top entry.

use vstd::prelude::*;

use crate::abilities::{
    CastSpellRequest, ResolutionOutcome, ResolutionRecord, SpellTiming, StackEntry,
    StackEntryRequest, StackObjectKind, TargetChoice, TargetKind, TargetRequirement,
    TargetSnapshot,
};
use crate::activated::{ability_effect_applied, ability_effect_possible, sorcery_window};
use crate::events::{GameEvent, PendingTriggeredAbility};
use crate::ids::{ObjectId, PlayerId, StackEntryId, TriggerId};
use crate::layers::characteristics_of;
use crate::mana::{ManaPool, colored_requirement, generic_requirement, is_valid_payment, validate_payment_plan};
use crate::outcome::GameOutcome;
use crate::plumbing::{events_bounded, first_zone_holding, zone_id_valid, zone_move, zone_of, zones_conserved};
use crate::sba::{
    lemma_sba_quiet_kept, lemma_sba_quiet_mana, lemma_sba_quiet_move_off_battlefield, lemma_settle_frame_chain,
    lemma_settle_frame_settles, lemma_zone_move_battlefield, sba_frame, sba_measure, sba_quiet, sba_settles, settle_frame,
    ids_match_positions, owners_have_graveyards, battlefield_objects, battlefield_list_len,
};
use crate::state::{GameState, StateError, same_but_events};
use crate::turn::{ZoneId, ZoneKind};

verus! {

/// What resolving `entry` in `state` comes to: countered when it had
/// targets and none of them is still legal, resolved otherwise.
pub open spec fn resolution_outcome(state: GameState, entry: StackEntry) -> ResolutionOutcome {
    if entry.targets@.len() > 0 && forall|i: int|
        0 <= i < entry.targets@.len() ==> !target_still_legal(state, #[trigger] entry.targets@[i]) {
        ResolutionOutcome::CounteredOnResolution
    } else {
        ResolutionOutcome::Resolved
    }
}

/// APNAP order for `count` players: the active player, then each other
/// player in turn order.
pub open spec fn apnap_order(count: int, active: PlayerId) -> Seq<PlayerId> {
    Seq::new(count as nat, |i: int| PlayerId(((active.0 + i) % count) as u32))
}

/// The entries of `players` equal to `player`, in order.
pub open spec fn owned_by(players: Seq<PlayerId>, player: PlayerId) -> Seq<PlayerId>
    decreases players.len(),
{
    if players.len() == 0 {
        Seq::empty()
    } else if players.last() == player {
        owned_by(players.drop_last(), player).push(player)
    } else {
        owned_by(players.drop_last(), player)
    }
}

/// The controllers of simultaneous abilities once stacked in `order`: each
/// player's abilities in turn, the first player's lowest.
pub open spec fn apnap_controllers(order: Seq<PlayerId>, abilities: Seq<PlayerId>) -> Seq<PlayerId>
    decreases order.len(),
{
    if order.len() == 0 {
        Seq::empty()
    } else {
        apnap_controllers(order.drop_last(), abilities) + owned_by(abilities, order.last())
    }
}

/// The pending abilities of `player`, as controller and trigger, in order.
pub open spec fn triggers_of(pending: Seq<PendingTriggeredAbility>, player: PlayerId) -> Seq<
    (PlayerId, Option<TriggerId>),
>
    decreases pending.len(),
{
    if pending.len() == 0 {
        Seq::empty()
    } else if pending.last().controller == player {
        triggers_of(pending.drop_last(), player).push((player, Some(pending.last().trigger)))
    } else {
        triggers_of(pending.drop_last(), player)
    }
}

/// Pending abilities once stacked in `order`: each player's in turn, in
/// the order they triggered, the first player's lowest.
pub open spec fn apnap_triggers(order: Seq<PlayerId>, pending: Seq<PendingTriggeredAbility>) -> Seq<
    (PlayerId, Option<TriggerId>),
>
    decreases order.len(),
{
    if order.len() == 0 {
        Seq::empty()
    } else {
        apnap_triggers(order.drop_last(), pending) + triggers_of(pending, order.last())
    }
}

/// The controllers and triggers of stack entries, bottom first.
pub open spec fn entry_triggers(entries: Seq<StackEntry>) -> Seq<(PlayerId, Option<TriggerId>)> {
    entries.map_values(|e: StackEntry| (e.controller, e.trigger))
}

/// With no pending abilities nothing goes on the stack.
proof fn lemma_apnap_triggers_none(order: Seq<PlayerId>, pending: Seq<PendingTriggeredAbility>)
    requires
        pending.len() == 0,
    ensures
        apnap_triggers(order, pending) == Seq::<(PlayerId, Option<TriggerId>)>::empty(),
    decreases order.len(),
{
    if order.len() > 0 {
        lemma_apnap_triggers_none(order.drop_last(), pending);
        assert(triggers_of(pending, order.last()) =~= Seq::<(PlayerId, Option<TriggerId>)>::empty());
        assert(apnap_triggers(order, pending) =~= Seq::<(PlayerId, Option<TriggerId>)>::empty());
    }
}

/// The controllers of stack entries, bottom first.
pub open spec fn entry_controllers(entries: Seq<StackEntry>) -> Seq<PlayerId> {
    entries.map_values(|e: StackEntry| e.controller)
}

/// Where resolving `entry`, whose object has owner `owner`, puts that
/// object: a countered spell and a resolved instant or sorcery go to the
/// owner's graveyard, a permanent spell to the battlefield, and an
/// ability's object stays on the stack.
pub open spec fn resolution_destination(state: GameState, entry: StackEntry, owner: PlayerId) -> ZoneId {
    let graveyard = ZoneId { owner: Some(owner), kind: ZoneKind::Graveyard };
    match resolution_outcome(state, entry) {
        ResolutionOutcome::CounteredOnResolution => graveyard,
        ResolutionOutcome::Resolved => match entry.kind {
            StackObjectKind::InstantSpell | StackObjectKind::SorcerySpell => graveyard,
            StackObjectKind::PermanentSpell => ZoneId { owner: None, kind: ZoneKind::Battlefield },
            StackObjectKind::ActivatedAbility | StackObjectKind::TriggeredAbility => ZoneId {
                owner: None,
                kind: ZoneKind::Stack,
            },
        },
    }
}

/// Whether a chosen target satisfies its requirement now.
pub open spec fn target_legal_now(state: GameState, requirement: TargetRequirement, choice: TargetChoice) -> bool {
    match requirement.kind {
        TargetKind::Player => match choice {
            TargetChoice::Player(p) => p.0 < state.players@.len(),
            TargetChoice::Object(_) => false,
        },
        TargetKind::Permanent => match choice {
            TargetChoice::Object(o) => zone_of(state.zones@, o) == Some(
                ZoneId { owner: None, kind: ZoneKind::Battlefield },
            ),
            TargetChoice::Player(_) => false,
        },
        TargetKind::ObjectInZone(z) => match choice {
            TargetChoice::Object(o) => zone_of(state.zones@, o) == Some(z),
            TargetChoice::Player(_) => false,
        },
    }
}

/// Whether a captured target is still legal on resolution: a player must
/// still exist, and an object must not have changed zones.
pub open spec fn target_still_legal(state: GameState, snapshot: TargetSnapshot) -> bool {
    match snapshot.choice {
        TargetChoice::Player(p) => snapshot.requirement.kind == TargetKind::Player && p.0
            < state.players@.len(),
        TargetChoice::Object(o) => zone_of(state.zones@, o) == snapshot.original_zone
            && target_legal_now(state, snapshot.requirement, snapshot.choice),
    }
}

/// Resolution checks targets again: an entry with no targets resolves; one
/// with a target that is still legal resolves; one whose every target is an
/// object that has since changed zones is countered on resolution.
pub proof fn lemma_resolution_rechecks_targets(state: GameState, entry: StackEntry)
    ensures
        entry.targets@.len() == 0 ==> resolution_outcome(state, entry) == ResolutionOutcome::Resolved,
        (exists|i: int| 0 <= i < entry.targets@.len() && target_still_legal(state, #[trigger] entry.targets@[i]))
            ==> resolution_outcome(state, entry) == ResolutionOutcome::Resolved,
        entry.targets@.len() > 0 && (forall|i: int|
            0 <= i < entry.targets@.len() ==> (#[trigger] entry.targets@[i]).choice is Object && zone_of(
                state.zones@,
                entry.targets@[i].choice->Object_0,
            ) != entry.targets@[i].original_zone) ==> resolution_outcome(state, entry)
            == ResolutionOutcome::CounteredOnResolution,
{
}

/// The snapshot taken of a legal target choice.
pub open spec fn snapshot_of(state: GameState, requirement: TargetRequirement, choice: TargetChoice) -> TargetSnapshot {
    TargetSnapshot {
        requirement,
        choice,
        original_zone: match choice {
            TargetChoice::Object(o) => zone_of(state.zones@, o),
            TargetChoice::Player(_) => None,
        },
    }
}

/// Everything casting `object` for `player` checks holds, and nothing that
/// follows the cast (state-based actions) would interrupt it: `player` holds
/// priority, controls the card in their hand, may cast it now, names legal
/// targets and pays the cost with a valid plan out of their pool, and there
/// is a stack to put it on.
pub open spec fn cast_allowed(state: GameState, player: PlayerId, object: ObjectId, request: CastSpellRequest) -> bool {
    &&& state.priority_player == Some(player)
    &&& player.0 < state.players@.len()
    &&& characteristics_of(state, object) matches Ok(c) && c.controller == player
    &&& zone_of(state.zones@, object) == Some(ZoneId { owner: Some(player), kind: ZoneKind::Hand })
    &&& request.timing == SpellTiming::Instant || sorcery_window(state, player)
    &&& request.target_requirements@.len() == request.target_choices@.len()
    &&& forall|i: int|
        0 <= i < request.target_choices@.len() ==> target_legal_now(
            state,
            request.target_requirements@[i],
            #[trigger] request.target_choices@[i],
        )
    &&& generic_requirement(request.cost) <= u32::MAX
    &&& is_valid_payment(state.players@[player.0 as int].mana_pool, request.cost, request.payment)
    &&& exists|j: int| 0 <= j < state.zones@.len() && #[trigger] state.zones@[j].id == (ZoneId {
        owner: None,
        kind: ZoneKind::Stack,
    })
    &&& sba_quiet(state)
}

/// The top stack entry can resolve: the stack is not empty, and the entry
/// is a bare ability; or an activated ability that still exists and whose
/// effect can take place if it resolves; or an object on the stack whose
/// destination is the stack itself or a valid zone that exists.
pub open spec fn top_entry_resolves(state: GameState) -> bool {
    let top = state.stack_entries@.last();
    let a = top.activated_ability->0;
    &&& state.stack_entries@.len() > 0
    &&& top.object is None && top.activated_ability is None || top.object is None && top.activated_ability is Some
        && a.0 < state.activated_abilities@.len() && state.activated_abilities@[a.0 as int].id == a && (
    resolution_outcome(state, top) == ResolutionOutcome::Resolved ==> ability_effect_possible(
        state.players@,
        top.controller,
        state.activated_abilities@[a.0 as int].definition,
    )) || top.activated_ability is None && top.object is Some && zone_of(state.zones@, top.object->0) == Some(
        ZoneId { owner: None, kind: ZoneKind::Stack },
    ) && state.objects.spec_get(top.object->0) is Some && ({
        let dest = resolution_destination(state, top, state.objects.spec_get(top.object->0)->0.owner);
        dest == (ZoneId { owner: None, kind: ZoneKind::Stack }) || (zone_id_valid(dest, state.players@.len() as int)
            && exists|j: int| 0 <= j < state.zones@.len() && #[trigger] state.zones@[j].id == dest)
    })
}

impl GameState {
    /// Fails unless `player` holds priority.
    pub(crate) fn require_priority_player(&self, player: PlayerId) -> (r: Result<(), StateError>)
        ensures
            self.priority_player is None ==> r == Err::<(), StateError>(StateError::NoPriority),
            self.priority_player matches Some(p) ==> (p == player ==> r is Ok) && (p != player
                ==> r == Err::<(), StateError>(
                StateError::PriorityPlayerMismatch { expected: p, actual: player },
            )),
    {
        match self.priority_player {
            None => Err(StateError::NoPriority),
            Some(p) => {
                if p == player {
                    Ok(())
                } else {
                    Err(StateError::PriorityPlayerMismatch { expected: p, actual: player })
                }
            },
        }
    }

    /// Checks state-based actions, then gives priority to `player`: nobody
    /// gets it once the game is over, and while triggered abilities wait to
    /// be put on the stack it is deferred.
    pub(crate) fn grant_priority_to(&mut self, player: Option<PlayerId>) -> (r: Result<(), StateError>)
        ensures
            final(self).attackers_declared_this_combat == old(self).attackers_declared_this_combat,
            final(self).stack_entries@ == old(self).stack_entries@,
            zones_conserved(*old(self)) ==> zones_conserved(*final(self)),
            events_bounded(*old(self)) ==> events_bounded(*final(self)),
            r is Ok ==> sba_frame(
                *old(self),
                (GameState { deferred_priority_player: old(self).deferred_priority_player, ..*final(self) }),
            ),
            r is Ok ==> final(self).priority_pass_count == 0,
            r is Ok && final(self).outcome != GameOutcome::InProgress ==> final(self).priority_player is None
                && final(self).deferred_priority_player is None,
            r is Ok && final(self).outcome == GameOutcome::InProgress && final(self).pending_triggers@.len() > 0
                ==> final(self).priority_player is None && final(self).deferred_priority_player == player,
            r is Ok && final(self).outcome == GameOutcome::InProgress && final(self).pending_triggers@.len() == 0
                ==> final(self).priority_player == player && final(self).deferred_priority_player is None,
            sba_quiet(*old(self)) ==> r is Ok,
            sba_settles(*old(self)) ==> r is Ok,
            sba_quiet(*old(self)) ==> final(self).combat == old(self).combat && final(self).zones@ == old(
                self,
            ).zones@ && final(self).players@ == old(self).players@,
    {
        match self.perform_state_based_actions() {
            Ok(_) => {},
            Err(e) => return Err(e),
        }
        if self.outcome != GameOutcome::InProgress {
            self.deferred_priority_player = None;
            self.priority_player = None;
            self.priority_pass_count = 0;
            return Ok(());
        }
        if self.pending_triggers.len() > 0 {
            self.deferred_priority_player = player;
            self.priority_player = None;
            self.priority_pass_count = 0;
            return Ok(());
        }
        self.deferred_priority_player = None;
        self.priority_player = player;
        self.priority_pass_count = 0;
        Ok(())
    }

    /// After a priority action the acting player receives priority again.
    pub(crate) fn after_priority_action(&mut self, player: PlayerId, hold_priority: bool) -> (r: Result<
        (),
        StateError,
    >)
        ensures
            final(self).attackers_declared_this_combat == old(self).attackers_declared_this_combat,
            final(self).stack_entries@ == old(self).stack_entries@,
            zones_conserved(*old(self)) ==> zones_conserved(*final(self)),
            events_bounded(*old(self)) ==> events_bounded(*final(self)),
            r is Ok ==> sba_frame(
                *old(self),
                (GameState { deferred_priority_player: old(self).deferred_priority_player, ..*final(self) }),
            ),
            r is Ok && final(self).outcome == GameOutcome::InProgress && final(self).pending_triggers@.len() == 0
                ==> final(self).priority_player == Some(player),
            r is Ok ==> final(self).priority_pass_count == 0,
            sba_quiet(*old(self)) ==> r is Ok,
            sba_settles(*old(self)) ==> r is Ok,
            sba_quiet(*old(self)) ==> final(self).zones@ == old(self).zones@,
    {
        self.grant_priority_to(Some(player))
    }

    /// After a resolution the active player receives priority.
    pub(crate) fn grant_priority_after_resolution(&mut self) -> (r: Result<(), StateError>)
        ensures
            zones_conserved(*old(self)) ==> zones_conserved(*final(self)),
            events_bounded(*old(self)) ==> events_bounded(*final(self)),
            r is Ok ==> sba_frame(
                *old(self),
                (GameState { deferred_priority_player: old(self).deferred_priority_player, ..*final(self) }),
            ),
            r is Ok && final(self).outcome == GameOutcome::InProgress && final(self).pending_triggers@.len() == 0
                ==> final(self).priority_player == old(self).active_player,
            sba_settles(*old(self)) ==> r is Ok,
    {
        let active = self.active_player;
        self.grant_priority_to(active)
    }

    /// Whether a spell with this timing may be cast by `player` now.
    pub(crate) fn can_cast_with_timing(&self, player: PlayerId, timing: SpellTiming) -> (r: bool)
        ensures
            r == (timing == SpellTiming::Instant || sorcery_window(*self, player)),
    {
        match timing {
            SpellTiming::Instant => true,
            SpellTiming::Sorcery => {
                let in_main = match self.current_step {
                    Some(crate::turn::Step::PrecombatMain) => true,
                    Some(crate::turn::Step::PostcombatMain) => true,
                    _ => false,
                };
                let is_active = match self.active_player {
                    Some(p) => p == player,
                    None => false,
                };
                is_active && in_main && self.stack_entries.len() == 0
            },
        }
    }

    /// Whether a chosen target satisfies its requirement now.
    pub(crate) fn is_target_legal_at_cast(&self, requirement: TargetRequirement, choice: TargetChoice) -> (r:
        bool)
        ensures
            r == target_legal_now(*self, requirement, choice),
    {
        match (requirement.kind, choice) {
            (TargetKind::Player, TargetChoice::Player(player)) => self.require_player(player).is_ok(),
            (TargetKind::Permanent, TargetChoice::Object(object)) => self.object_zone(object) == Some(
                ZoneId::new(None, ZoneKind::Battlefield),
            ),
            (TargetKind::ObjectInZone(zone), TargetChoice::Object(object)) => self.object_zone(object)
                == Some(zone),
            (TargetKind::Player, TargetChoice::Object(_)) => false,
            (TargetKind::Permanent, TargetChoice::Player(_)) => false,
            (TargetKind::ObjectInZone(_), TargetChoice::Player(_)) => false,
        }
    }

    /// Whether a captured target is still legal on resolution.
    pub(crate) fn is_target_still_legal(&self, snapshot: TargetSnapshot) -> (r: bool)
        ensures
            r == target_still_legal(*self, snapshot),
    {
        match snapshot.choice {
            TargetChoice::Player(player) => snapshot.requirement.kind == TargetKind::Player
                && self.require_player(player).is_ok(),
            TargetChoice::Object(object) => self.object_zone(object) == snapshot.original_zone
                && self.is_target_legal_at_cast(snapshot.requirement, snapshot.choice),
        }
    }

    /// Pairs each requirement with its chosen target and records the zone
    /// each object target is in, failing on a count mismatch or an illegal
    /// target.
    pub(crate) fn capture_target_snapshots(
        &self,
        requirements: &[TargetRequirement],
        choices: &[TargetChoice],
    ) -> (r: Result<Vec<TargetSnapshot>, StateError>)
        ensures
            requirements@.len() != choices@.len() ==> r is Err,
            r is Ok <==> requirements@.len() == choices@.len() && forall|i: int|
                0 <= i < choices@.len() ==> target_legal_now(
                    *self,
                    requirements@[i],
                    #[trigger] choices@[i],
                ),
            r matches Ok(v) ==> v@.len() == choices@.len() && forall|i: int|
                0 <= i < v@.len() ==> #[trigger] v@[i] == snapshot_of(
                    *self,
                    requirements@[i],
                    choices@[i],
                ),
    {
        if requirements.len() != choices.len() {
            let required: u32 = if requirements.len() > u32::MAX as usize {
                u32::MAX
            } else {
                requirements.len() as u32
            };
            let selected: u32 = if choices.len() > u32::MAX as usize {
                u32::MAX
            } else {
                choices.len() as u32
            };
            return Err(StateError::TargetCountMismatch { required, selected });
        }
        let mut snapshots: Vec<TargetSnapshot> = Vec::new();
        let mut i: usize = 0;
        while i < requirements.len()
            invariant
                i <= requirements@.len(),
                requirements@.len() == choices@.len(),
                snapshots@.len() == i,
                forall|k: int| 0 <= k < i ==> target_legal_now(*self, requirements@[k], #[trigger] choices@[k]),
                forall|k: int|
                    0 <= k < i ==> #[trigger] snapshots@[k] == snapshot_of(*self, requirements@[k], choices@[k]),
            decreases requirements@.len() - i,
        {
            let requirement = requirements[i];
            let choice = choices[i];
            if !self.is_target_legal_at_cast(requirement, choice) {
                let index: u32 = if i > u32::MAX as usize {
                    u32::MAX
                } else {
                    i as u32
                };
                return Err(StateError::IllegalTarget { index, target: choice });
            }
            let original_zone = match choice {
                TargetChoice::Object(object) => self.object_zone(object),
                TargetChoice::Player(_) => None,
            };
            snapshots.push(TargetSnapshot { requirement, choice, original_zone });
            i = i + 1;
        }
        Ok(snapshots)
    }

    /// Pushes a new stack entry on top of the stack and returns its ID.
    pub(crate) fn push_stack_entry(&mut self, request: StackEntryRequest) -> (id: StackEntryId)
        ensures
            zones_conserved(*old(self)) ==> zones_conserved(*final(self)),
            events_bounded(*old(self)) ==> events_bounded(*final(self)),
            id == StackEntryId(old(self).next_stack_entry),
            final(self).next_stack_entry == (if old(self).next_stack_entry < u32::MAX {
                (old(self).next_stack_entry + 1) as u32
            } else {
                u32::MAX
            }),
            final(self).stack_entries@.len() == old(self).stack_entries@.len() + 1,
            final(self).stack_entries@.drop_last() == old(self).stack_entries@,
            final(self).stack_entries@.last().id == id,
            final(self).stack_entries@.last().controller == request.controller,
            final(self).stack_entries@.last().object == request.object,
            final(self).stack_entries@.last().trigger == request.trigger,
            final(self).stack_entries@.last().activated_ability == request.activated_ability,
            final(self).stack_entries@.last().kind == request.kind,
            final(self).stack_entries@.last().targets@ == request.targets@,
            final(self).stack_entries@.last().payment == request.payment,
            same_but_events(
                *old(self),
                (GameState {
                    stack_entries: old(self).stack_entries,
                    next_stack_entry: old(self).next_stack_entry,
                    ..*final(self)
                }),
            ),
    {
        let id = StackEntryId(self.next_stack_entry);
        self.next_stack_entry = self.next_stack_entry.saturating_add(1);
        let controller = request.controller;
        let object = request.object;
        let kind = request.kind;
        self.stack_entries.push(
            StackEntry {
                id,
                controller,
                object,
                trigger: request.trigger,
                activated_ability: request.activated_ability,
                kind,
                targets: request.targets,
                payment: request.payment,
            },
        );
        assert(self.stack_entries@.drop_last() =~= old(self).stack_entries@);
        self.emit_event(GameEvent::StackEntryAdded { entry: id, controller, object, kind });
        id
    }

    /// Resolves the top stack entry: it is countered when it had targets and
    /// none is still legal; a resolved instant or sorcery and a countered
    /// spell go to the owner's graveyard, a permanent spell to the
    /// battlefield, and a resolved activated ability applies its effect.
    pub(crate) fn resolve_top_stack_entry(&mut self) -> (r: Result<StackEntryId, StateError>)
        ensures
            zones_conserved(*old(self)) ==> zones_conserved(*final(self)),
            events_bounded(*old(self)) ==> events_bounded(*final(self)),
            old(self).stack_entries@.len() == 0 ==> r == Err::<StackEntryId, StateError>(
                StateError::EmptyStack,
            ),
            r matches Ok(id) ==> old(self).stack_entries@.len() > 0 && id == old(
                self,
            ).stack_entries@.last().id,
            old(self).stack_entries@.len() > 0 && old(self).stack_entries@.last().object is Some && zone_of(
                old(self).zones@,
                old(self).stack_entries@.last().object->0,
            ) != Some(ZoneId { owner: None, kind: ZoneKind::Stack }) ==> r == Err::<StackEntryId, StateError>(
                StateError::StackObjectNotOnStack(old(self).stack_entries@.last().object->0),
            ),
            old(self).stack_entries@.len() > 0 && old(self).stack_entries@.last().object is None
                && old(self).stack_entries@.last().activated_ability is None ==> r is Ok,
            ({
                let top = old(self).stack_entries@.last();
                let a = top.activated_ability->0;
                &&& old(self).stack_entries@.len() > 0 && top.object is None && top.activated_ability is Some
                &&& a.0 < old(self).activated_abilities@.len() && old(self).activated_abilities@[a.0 as int].id == a
                &&& resolution_outcome(*old(self), top) == ResolutionOutcome::Resolved ==> ability_effect_possible(
                    old(self).players@,
                    top.controller,
                    old(self).activated_abilities@[a.0 as int].definition,
                )
            }) ==> r is Ok,
            old(self).stack_entries@.len() > 0 && old(self).stack_entries@.last().activated_ability is None
                && old(self).stack_entries@.last().object is Some && zone_of(
                old(self).zones@,
                old(self).stack_entries@.last().object->0,
            ) == Some(ZoneId { owner: None, kind: ZoneKind::Stack }) && old(self).objects.spec_get(
                old(self).stack_entries@.last().object->0,
            ) is Some && ({
                let dest = resolution_destination(
                    *old(self),
                    old(self).stack_entries@.last(),
                    old(self).objects.spec_get(old(self).stack_entries@.last().object->0)->0.owner,
                );
                dest == (ZoneId { owner: None, kind: ZoneKind::Stack }) || (zone_id_valid(
                    dest,
                    old(self).players@.len() as int,
                ) && exists|j: int| 0 <= j < old(self).zones@.len() && #[trigger] old(self).zones@[j].id == dest)
            }) ==> r is Ok,
            top_entry_resolves(*old(self)) ==> r is Ok,
            r is Ok ==> settle_frame(*old(self), *final(self), 1),
            r is Ok ==> {
                let top = old(self).stack_entries@.last();
                let record = final(self).resolution_log@.last();
                &&& final(self).stack_entries@ == old(self).stack_entries@.drop_last()
                &&& final(self).resolution_log@.len() == old(self).resolution_log@.len() + 1
                &&& final(self).resolution_log@.drop_last() == old(self).resolution_log@
                &&& record.stack_entry == top.id && record.controller == top.controller
                &&& record.object == top.object && record.kind == top.kind
                &&& record.targets@ == top.targets@
                &&& record.outcome == resolution_outcome(*old(self), top)
                &&& record.legal_targets@.len() == top.targets@.len()
                &&& forall|i: int|
                    0 <= i < top.targets@.len() ==> #[trigger] record.legal_targets@[i] == target_still_legal(
                        *old(self),
                        top.targets@[i],
                    )
            },
            r is Ok && old(self).stack_entries@.last().object is Some ==> {
                let top = old(self).stack_entries@.last();
                let object = top.object->0;
                let dest = resolution_destination(*old(self), top, old(self).objects.spec_get(object)->0.owner);
                exists|j: int|
                    0 <= j < final(self).zones@.len() && final(self).zones@[j].id == dest
                        && #[trigger] final(self).zones@[j].objects@.contains(object)
            },
            r is Ok && old(self).stack_entries@.last().activated_ability is Some && resolution_outcome(
                *old(self),
                old(self).stack_entries@.last(),
            ) == ResolutionOutcome::Resolved ==> {
                let top = old(self).stack_entries@.last();
                let a = top.activated_ability->0;
                &&& a.0 < old(self).activated_abilities@.len()
                &&& ability_effect_applied(
                    old(self).players@,
                    final(self).players@,
                    top.controller,
                    old(self).activated_abilities@[a.0 as int].definition,
                )
            },
    {
        let n = self.stack_entries.len();
        if n == 0 {
            return Err(StateError::EmptyStack);
        }
        let top = self.stack_entries[n - 1].duplicate();
        if let Some(object) = top.object {
            if self.object_zone(object) != Some(ZoneId::new(None, ZoneKind::Stack)) {
                return Err(StateError::StackObjectNotOnStack(object));
            }
        }
        let mut legal_targets: Vec<bool> = Vec::new();
        let mut any_legal = false;
        let mut i: usize = 0;
        while i < top.targets.len()
            invariant
                i <= top.targets@.len(),
                legal_targets@.len() == i,
                forall|j: int|
                    0 <= j < i ==> #[trigger] legal_targets@[j] == target_still_legal(*self, top.targets@[j]),
                any_legal == exists|j: int| 0 <= j < i && target_still_legal(*self, #[trigger] top.targets@[j]),
            decreases top.targets@.len() - i,
        {
            let legal = self.is_target_still_legal(top.targets[i]);
            if legal {
                any_legal = true;
            }
            legal_targets.push(legal);
            i = i + 1;
        }
        let outcome = if top.targets.len() > 0 && !any_legal {
            ResolutionOutcome::CounteredOnResolution
        } else {
            ResolutionOutcome::Resolved
        };
        let entry = match self.stack_entries.pop() {
            Some(e) => e,
            None => return Err(StateError::EmptyStack),
        };
        let ghost popped = *self;
        proof {
            if let Some(object) = entry.object {
                let w = choose|w: int| first_zone_holding(self.zones@, object, w);
                assert(self.zones@[w].objects@.contains(object));
            }
        }
        if let Some(object) = entry.object {
            let stack_zone = ZoneId::new(None, ZoneKind::Stack);
            let destination = match outcome {
                ResolutionOutcome::CounteredOnResolution => {
                    let owner = match self.objects.get(object) {
                        Some(r) => r.owner,
                        None => return Err(StateError::UnknownObject(object)),
                    };
                    ZoneId::new(Some(owner), ZoneKind::Graveyard)
                },
                ResolutionOutcome::Resolved => match entry.kind {
                    StackObjectKind::InstantSpell | StackObjectKind::SorcerySpell => {
                        let owner = match self.objects.get(object) {
                            Some(r) => r.owner,
                            None => return Err(StateError::UnknownObject(object)),
                        };
                        ZoneId::new(Some(owner), ZoneKind::Graveyard)
                    },
                    StackObjectKind::PermanentSpell => ZoneId::new(None, ZoneKind::Battlefield),
                    StackObjectKind::ActivatedAbility | StackObjectKind::TriggeredAbility => stack_zone,
                },
            };
            if destination != stack_zone {
                let ghost unmoved = *self;
                match self.move_object(object, destination) {
                    Ok(()) => {},
                    Err(e) => return Err(e),
                }
                proof {
                    let (fi, ti, pos) = choose|fi: int, ti: int, pos: int|
                        #[trigger] zone_move(unmoved.zones@, self.zones@, object, destination, fi, ti, pos);
                    lemma_zone_move_battlefield(unmoved.zones@, self.zones@, object, destination, fi, ti, pos);
                    assert(unmoved == popped);
                    assert forall|k: int| 0 <= k < popped.objects.records@.len() implies #[trigger] self.objects.records@[k].id
                        == popped.objects.records@[k].id && self.objects.records@[k].owner == popped.objects.records@[k].owner by {
                        assert(self.objects.records@[k].tapped == popped.objects.records@[k].tapped);
                    }
                    assert(self.players@ == popped.players@);
                    assert(battlefield_objects(*self).len() == battlefield_list_len(self.zones@));
                    assert(battlefield_objects(popped).len() == battlefield_list_len(popped.zones@));
                    assert(settle_frame(popped, *self, 1));
                }
            }
        }
        let ghost placed = *self;
        proof {
            if self.zones@ == popped.zones@ {
                assert(settle_frame(popped, *self, 1));
            }
        }
        if outcome == ResolutionOutcome::Resolved {
            if let Some(ability) = entry.activated_ability {
                let definition = match self.activated_ability_definition(ability) {
                    Ok(d) => d,
                    Err(e) => return Err(e),
                };
                match self.resolve_activated_ability_effect(ability, entry.controller, definition) {
                    Ok(()) => {},
                    Err(e) => return Err(e),
                }
            }
        }
        let entry_id = entry.id;
        self.resolution_log.push(
            ResolutionRecord {
                stack_entry: entry.id,
                controller: entry.controller,
                object: entry.object,
                trigger: entry.trigger,
                activated_ability: entry.activated_ability,
                kind: entry.kind,
                targets: entry.targets,
                legal_targets,
                outcome,
            },
        );
        let ghost logged = *self;
        self.emit_event(GameEvent::StackEntryResolved { entry: entry_id, outcome });
        proof {
            assert(settle_frame(*old(self), popped, 0));
            assert(settle_frame(placed, logged, 0));
            assert(settle_frame(logged, *self, 0));
            lemma_settle_frame_chain(*old(self), popped, placed, 0, 1);
            lemma_settle_frame_chain(*old(self), placed, logged, 1, 0);
            lemma_settle_frame_chain(*old(self), logged, *self, 1, 0);
        }
        Ok(entry_id)
    }

    /// Casts a spell: validates priority, control, that it is in the
    /// caster's hand, timing, targets and the exact mana payment before
    /// anything changes; then pays, moves the spell to the stack with its
    /// target snapshots, and returns priority to the caster.
    pub fn cast_spell(&mut self, player: PlayerId, object: ObjectId, request: CastSpellRequest) -> (r:
        Result<StackEntryId, StateError>)
        ensures
            r is Err && (exists|j: int|
                0 <= j < old(self).zones@.len() && #[trigger] old(self).zones@[j].id == (ZoneId {
                    owner: None,
                    kind: ZoneKind::Stack,
                })) ==> *final(self) == *old(self) || final(self).stack_entries@.len() == old(
                self,
            ).stack_entries@.len() + 1,
            zones_conserved(*old(self)) ==> zones_conserved(*final(self)),
            events_bounded(*old(self)) ==> events_bounded(*final(self)),
            old(self).priority_player is None ==> r == Err::<StackEntryId, StateError>(
                StateError::NoPriority,
            ),
            old(self).priority_player is Some && old(self).priority_player != Some(player) ==> r
                == Err::<StackEntryId, StateError>(
                StateError::PriorityPlayerMismatch {
                    expected: old(self).priority_player->0,
                    actual: player,
                },
            ),
            r matches Ok(id) ==> id == StackEntryId(old(self).next_stack_entry),
            old(self).priority_player == Some(player) && player.0 < old(self).players@.len() && (
            characteristics_of(*old(self), object) matches Ok(c) && (c.controller != player
                || zone_of(old(self).zones@, object) != Some(
                ZoneId { owner: Some(player), kind: ZoneKind::Hand },
            ))) ==> r == Err::<StackEntryId, StateError>(StateError::ObjectNotCastable(object)),
            old(self).priority_player == Some(player) && player.0 < old(self).players@.len() && (
            characteristics_of(*old(self), object) matches Ok(c) && c.controller == player
                && zone_of(old(self).zones@, object) == Some(
                ZoneId { owner: Some(player), kind: ZoneKind::Hand },
            )) && !(request.timing == SpellTiming::Instant || sorcery_window(*old(self), player))
                ==> r == Err::<StackEntryId, StateError>(StateError::InvalidSpellTiming),
            r is Ok ==> {
                &&& player.0 < old(self).players@.len()
                &&& characteristics_of(*old(self), object) matches Ok(c) && c.controller == player
                &&& zone_of(old(self).zones@, object) == Some(
                    ZoneId { owner: Some(player), kind: ZoneKind::Hand },
                )
                &&& request.timing == SpellTiming::Instant || sorcery_window(*old(self), player)
                &&& request.target_requirements@.len() == request.target_choices@.len()
                &&& forall|i: int|
                    0 <= i < request.target_choices@.len() ==> target_legal_now(
                        *old(self),
                        request.target_requirements@[i],
                        #[trigger] request.target_choices@[i],
                    )
                &&& is_valid_payment(
                    old(self).players@[player.0 as int].mana_pool,
                    request.cost,
                    request.payment,
                )
            },
            r matches Ok(id) ==> {
                &&& final(self).stack_entries@.len() == old(self).stack_entries@.len() + 1
                &&& final(self).stack_entries@.drop_last() == old(self).stack_entries@
                &&& final(self).stack_entries@.last().id == id
                &&& final(self).stack_entries@.last().controller == player
                &&& final(self).stack_entries@.last().object == Some(object)
                &&& final(self).stack_entries@.last().kind == request.kind
                &&& final(self).stack_entries@.last().payment == Some(request.payment)
                &&& final(self).stack_entries@.last().targets@.len() == request.target_choices@.len()
                &&& forall|i: int|
                    0 <= i < request.target_choices@.len() ==> #[trigger] final(self).stack_entries@.last().targets@[i]
                        == snapshot_of(
                        *old(self),
                        request.target_requirements@[i],
                        request.target_choices@[i],
                    )
                &&& final(self).priority_pass_count == 0
                &&& final(self).outcome == GameOutcome::InProgress && final(self).pending_triggers@.len() == 0
                    ==> final(self).priority_player == Some(player)
            },
            cast_allowed(*old(self), player, object, request) ==> r is Ok,
            r is Ok ==> player.0 < old(self).players@.len() && final(self).players@.len() == old(
                self,
            ).players@.len() && final(self).players@[player.0 as int].mana_pool.is_diff_of(
                old(self).players@[player.0 as int].mana_pool,
                request.payment.paid(),
            ),
            r is Ok ==> exists|j: int|
                0 <= j < final(self).zones@.len() && final(self).zones@[j].id == (ZoneId {
                    owner: None,
                    kind: ZoneKind::Stack,
                }) && #[trigger] final(self).zones@[j].objects@.contains(object),
    {
        let ghost s0 = *self;
        let ghost allowed = cast_allowed(*self, player, object, request);
        match self.require_priority_player(player) {
            Ok(()) => {},
            Err(e) => return Err(e),
        }
        match self.require_player(player) {
            Ok(()) => {},
            Err(e) => return Err(e),
        }
        let controller = match self.object_controller(object) {
            Ok(c) => c,
            Err(e) => return Err(e),
        };
        if controller != player || self.object_zone(object) != Some(
            ZoneId::new(Some(player), ZoneKind::Hand),
        ) {
            return Err(StateError::ObjectNotCastable(object));
        }
        if !self.can_cast_with_timing(player, request.timing) {
            return Err(StateError::InvalidSpellTiming);
        }
        let targets = match self.capture_target_snapshots(
            request.target_requirements.as_slice(),
            request.target_choices.as_slice(),
        ) {
            Ok(t) => t,
            Err(e) => return Err(e),
        };
        let pool = match self.mana_pool(player) {
            Ok(p) => p,
            Err(e) => return Err(e),
        };
        let plan = request.payment;
        let cost = request.cost;
        proof {
            if allowed {
                ManaPool::lemma_sum_fields(plan.paid(), colored_requirement(cost), plan.generic_paid());
                assert(plan.paid().covers(colored_requirement(cost)));
            }
        }
        let canonical = match validate_payment_plan(pool, request.cost, request.payment.paid()) {
            Ok(p) => p,
            Err(e) => return Err(Self::map_payment_error(e)),
        };
        proof {
            if allowed {
                ManaPool::lemma_sum_fields(plan.paid(), colored_requirement(cost), plan.generic_paid());
                ManaPool::lemma_sum_fields(canonical.paid(), colored_requirement(cost), canonical.generic_paid());
                assert(canonical.generic_paid().white == plan.generic_paid().white);
                assert(canonical.generic_paid().colorless == plan.generic_paid().colorless);
                assert(canonical == plan);
            }
        }
        if canonical != request.payment {
            return Err(StateError::InvalidPaymentPlan);
        }
        let ghost next = self.next_stack_entry;
        match self.pay_mana(player, request.cost, request.payment) {
            Ok(()) => {},
            Err(e) => return Err(e),
        }
        let ghost s1 = *self;
        proof {
            if sba_quiet(s0) {
                lemma_sba_quiet_mana(s0, s1);
            }
        }
        let stack = ZoneId::new(None, ZoneKind::Stack);
        proof {
            if allowed {
                let w = choose|i: int| first_zone_holding(s1.zones@, object, i);
                assert(s1.zones@[w].objects@.contains(object));
                let j = choose|j: int| 0 <= j < s1.zones@.len() && #[trigger] s1.zones@[j].id == stack;
            }
        }
        match self.move_object(object, stack) {
            Ok(()) => {},
            Err(e) => return Err(e),
        }
        let ghost moved = *self;
        proof {
            if sba_quiet(s0) {
                let (fi, ti, pos) = choose|fi: int, ti: int, pos: int|
                    #[trigger] zone_move(s1.zones@, self.zones@, object, stack, fi, ti, pos);
                assert(first_zone_holding(s1.zones@, object, fi));
                let w = choose|w: int| first_zone_holding(s1.zones@, object, w);
                if w < fi {
                    assert(!s1.zones@[w].objects@.contains(object));
                } else if w > fi {
                    assert(!s1.zones@[fi].objects@.contains(object));
                }
                lemma_sba_quiet_move_off_battlefield(s1, *self, object, stack, fi, ti, pos);
            }
        }
        assert(self.next_stack_entry == next);
        let ghost s2 = *self;
        let id = self.push_stack_entry(
            StackEntryRequest {
                controller: player,
                object: Some(object),
                trigger: None,
                activated_ability: None,
                kind: request.kind,
                targets,
                payment: Some(request.payment),
            },
        );
        proof {
            if sba_quiet(s0) {
                lemma_sba_quiet_kept(s2, *self);
            }
        }
        let ghost s3 = *self;
        match self.after_priority_action(player, true) {
            Ok(()) => {},
            Err(e) => return Err(e),
        }
        proof {
            let p = player.0 as int;
            assert(s3.players@ == s1.players@);
            assert(self.players@[p].life == s3.players@[p].life);
            let (fi, ti, pos) = choose|fi: int, ti: int, pos: int|
                #[trigger] zone_move(s1.zones@, moved.zones@, object, stack, fi, ti, pos);
            assert(s1.zones@[fi].objects@.contains(object));
            assert(zone_of(s1.zones@, object) == Some(ZoneId { owner: Some(player), kind: ZoneKind::Hand }));
            assert(s1.zones@[fi].id != stack);
            let last = s1.zones@[ti].objects@.len() as int;
            assert(moved.zones@[ti].objects@[last] == object);
            assert(moved.zones@[ti].objects@.contains(object));
            assert(s3.zones@ == moved.zones@);
            assert(self.zones@[ti] == s3.zones@[ti]);
            assert(self.zones@[ti].objects@.contains(object));
        }
        Ok(id)
    }

    /// Puts a spell object on the stack for the current priority player,
    /// without cost, timing or target checks.
    pub fn put_spell_on_stack(
        &mut self,
        player: PlayerId,
        object: ObjectId,
        kind: StackObjectKind,
        hold_priority: bool,
    ) -> (r: Result<StackEntryId, StateError>)
        ensures
            zones_conserved(*old(self)) ==> zones_conserved(*final(self)),
            events_bounded(*old(self)) ==> events_bounded(*final(self)),
            old(self).priority_player is None ==> r == Err::<StackEntryId, StateError>(
                StateError::NoPriority,
            ),
            old(self).priority_player == Some(player) && player.0 < old(self).players@.len()
                && old(self).objects.spec_get(object) is None ==> r == Err::<StackEntryId, StateError>(
                StateError::UnknownObject(object),
            ),
            r matches Ok(id) ==> id == StackEntryId(old(self).next_stack_entry),
            r matches Ok(id) ==> {
                &&& final(self).stack_entries@.len() == old(self).stack_entries@.len() + 1
                &&& final(self).stack_entries@.drop_last() == old(self).stack_entries@
                &&& final(self).stack_entries@.last().id == id
                &&& final(self).stack_entries@.last().controller == player
                &&& final(self).stack_entries@.last().kind == kind
                &&& final(self).priority_pass_count == 0
                &&& final(self).outcome == GameOutcome::InProgress && final(self).pending_triggers@.len() == 0
                    ==> final(self).priority_player == Some(player)
            },
            r matches Ok(_) ==> final(self).stack_entries@.last().object == Some(object),
            old(self).priority_player == Some(player) && player.0 < old(self).players@.len() && old(
                self,
            ).objects.spec_get(object) is Some && zone_of(old(self).zones@, object) is Some && zone_of(
                old(self).zones@,
                object,
            ) != Some(ZoneId { owner: None, kind: ZoneKind::Battlefield }) && (exists|j: int|
                0 <= j < old(self).zones@.len() && #[trigger] old(self).zones@[j].id == (ZoneId {
                    owner: None,
                    kind: ZoneKind::Stack,
                })) && sba_quiet(*old(self)) ==> r is Ok,
    {
        let ghost s0 = *self;
        let ghost allowed = old(self).priority_player == Some(player) && player.0 < old(self).players@.len()
            && zone_of(old(self).zones@, object) is Some && zone_of(old(self).zones@, object) != Some(
            ZoneId { owner: None, kind: ZoneKind::Battlefield },
        ) && (exists|j: int|
            0 <= j < old(self).zones@.len() && #[trigger] old(self).zones@[j].id == (ZoneId {
                owner: None,
                kind: ZoneKind::Stack,
            })) && sba_quiet(*old(self));
        match self.require_priority_player(player) {
            Ok(()) => {},
            Err(e) => return Err(e),
        }
        match self.require_player(player) {
            Ok(()) => {},
            Err(e) => return Err(e),
        }
        if self.objects.get(object).is_none() {
            return Err(StateError::UnknownObject(object));
        }
        let stack_zone = ZoneId::new(None, ZoneKind::Stack);
        if self.object_zone(object) != Some(stack_zone) {
            proof {
                if allowed {
                    let w = choose|i: int| first_zone_holding(s0.zones@, object, i);
                    assert(s0.zones@[w].objects@.contains(object));
                }
            }
            match self.move_object(object, stack_zone) {
                Ok(()) => {},
                Err(e) => return Err(e),
            }
            proof {
                if allowed {
                    let (fi, ti, pos) = choose|fi: int, ti: int, pos: int|
                        #[trigger] zone_move(s0.zones@, self.zones@, object, stack_zone, fi, ti, pos);
                    assert(first_zone_holding(s0.zones@, object, fi));
                    let w = choose|w: int| first_zone_holding(s0.zones@, object, w);
                    if w < fi {
                        assert(!s0.zones@[w].objects@.contains(object));
                    } else if w > fi {
                        assert(!s0.zones@[fi].objects@.contains(object));
                    }
                    lemma_sba_quiet_move_off_battlefield(s0, *self, object, stack_zone, fi, ti, pos);
                }
            }
        }
        let ghost s2 = *self;
        let id = self.push_stack_entry(
            StackEntryRequest {
                controller: player,
                object: Some(object),
                trigger: None,
                activated_ability: None,
                kind,
                targets: Vec::new(),
                payment: None,
            },
        );
        proof {
            if allowed {
                lemma_sba_quiet_kept(s2, *self);
            }
        }
        match self.after_priority_action(player, hold_priority) {
            Ok(()) => {},
            Err(e) => return Err(e),
        }
        Ok(id)
    }

    /// Puts an ability with no source object on top of the stack for the
    /// current priority player.
    pub fn put_ability_on_stack(&mut self, player: PlayerId, kind: StackObjectKind, hold_priority: bool) -> (r:
        Result<StackEntryId, StateError>)
        ensures
            zones_conserved(*old(self)) ==> zones_conserved(*final(self)),
            events_bounded(*old(self)) ==> events_bounded(*final(self)),
            old(self).priority_player is None ==> r == Err::<StackEntryId, StateError>(
                StateError::NoPriority,
            ),
            r matches Ok(id) ==> id == StackEntryId(old(self).next_stack_entry),
            r matches Ok(id) ==> {
                &&& final(self).stack_entries@.len() == old(self).stack_entries@.len() + 1
                &&& final(self).stack_entries@.drop_last() == old(self).stack_entries@
                &&& final(self).stack_entries@.last().id == id
                &&& final(self).stack_entries@.last().controller == player
                &&& final(self).stack_entries@.last().kind == kind
                &&& final(self).priority_pass_count == 0
                &&& final(self).outcome == GameOutcome::InProgress && final(self).pending_triggers@.len() == 0
                    ==> final(self).priority_player == Some(player)
            },
            old(self).priority_player == Some(player) && player.0 < old(self).players@.len() && sba_quiet(
                *old(self),
            ) ==> r is Ok,
    {
        match self.require_priority_player(player) {
            Ok(()) => {},
            Err(e) => return Err(e),
        }
        match self.require_player(player) {
            Ok(()) => {},
            Err(e) => return Err(e),
        }
        let ghost start = *self;
        let id = self.push_stack_entry(
            StackEntryRequest {
                controller: player,
                object: None,
                trigger: None,
                activated_ability: None,
                kind,
                targets: Vec::new(),
                payment: None,
            },
        );
        proof {
            if sba_quiet(start) {
                lemma_sba_quiet_kept(start, *self);
            }
        }
        match self.after_priority_action(player, hold_priority) {
            Ok(()) => {},
            Err(e) => return Err(e),
        }
        Ok(id)
    }

    /// Puts simultaneous abilities on the stack in APNAP order: the active
    /// player's lowest, then each other player in turn order; one player's
    /// abilities keep the given order.
    pub fn put_simultaneous_abilities_apnap(&mut self, abilities: &[PlayerId], kind: StackObjectKind) -> (r:
        Result<Vec<StackEntryId>, StateError>)
        ensures
            zones_conserved(*old(self)) ==> zones_conserved(*final(self)),
            events_bounded(*old(self)) ==> events_bounded(*final(self)),
            old(self).active_player is None ==> r == Err::<Vec<StackEntryId>, StateError>(
                StateError::TurnNotStarted,
            ),
            r matches Ok(ids) ==> final(self).stack_entries@.len() == old(self).stack_entries@.len()
                + ids@.len(),
            r is Ok ==> final(self).priority_pass_count == 0,
            r is Ok ==> final(self).stack_entries@.subrange(0, old(self).stack_entries@.len() as int)
                == old(self).stack_entries@ && entry_controllers(
                final(self).stack_entries@.skip(old(self).stack_entries@.len() as int),
            ) == apnap_controllers(
                apnap_order(old(self).players@.len() as int, old(self).active_player->0),
                abilities@,
            ),
            old(self).active_player is Some && (old(self).active_player->0).0 < old(self).players@.len()
                && old(self).players@.len() <= u32::MAX + 1 && (forall|k: int|
                0 <= k < abilities@.len() ==> (#[trigger] abilities@[k]).0 < old(self).players@.len())
                ==> r is Ok,
    {
        let active = match self.active_player {
            Some(a) => a,
            None => return Err(StateError::TurnNotStarted),
        };
        let mut k: usize = 0;
        while k < abilities.len()
            invariant
                k <= abilities@.len(),
                *self == *old(self),
                self.active_player is Some,
            decreases abilities@.len() - k,
        {
            match self.require_player(abilities[k]) {
                Ok(()) => {},
                Err(e) => return Err(e),
            }
            k = k + 1;
        }
        let order = match self.apnap_players(active) {
            Ok(o) => o,
            Err(e) => return Err(e),
        };
        let ghost start_len = self.stack_entries@.len();
        let ghost start_stack = self.stack_entries@;
        let ghost full_order = apnap_order(old(self).players@.len() as int, active);
        assert(order@ =~= full_order);
        assert(order@.take(0) =~= Seq::<PlayerId>::empty());
        assert(self.stack_entries@.skip(start_len as int) =~= Seq::<StackEntry>::empty());
        assert(entry_controllers(Seq::<StackEntry>::empty()) =~= Seq::<PlayerId>::empty());
        let mut ids: Vec<StackEntryId> = Vec::new();
        let mut p: usize = 0;
        while p < order.len()
            invariant
                p <= order@.len(),
                self.stack_entries@.len() == start_len + ids@.len(),
                start_len == old(self).stack_entries@.len(),
                start_stack == old(self).stack_entries@,
                self.stack_entries@.subrange(0, start_len as int) == start_stack,
                entry_controllers(self.stack_entries@.skip(start_len as int)) == apnap_controllers(
                    order@.take(p as int),
                    abilities@,
                ),
                zones_conserved(*old(self)) ==> zones_conserved(*self),
                events_bounded(*old(self)) ==> events_bounded(*self),
            decreases order@.len() - p,
        {
            let player = order[p];
            let mut a: usize = 0;
            assert(abilities@.take(0) =~= Seq::<PlayerId>::empty());
            assert(apnap_controllers(order@.take(p as int), abilities@) + owned_by(abilities@.take(0), player)
                =~= apnap_controllers(order@.take(p as int), abilities@));
            while a < abilities.len()
                invariant
                    a <= abilities@.len(),
                    self.stack_entries@.len() == start_len + ids@.len(),
                    self.stack_entries@.subrange(0, start_len as int) == start_stack,
                    entry_controllers(self.stack_entries@.skip(start_len as int)) == apnap_controllers(
                        order@.take(p as int),
                        abilities@,
                    ) + owned_by(abilities@.take(a as int), player),
                    zones_conserved(*old(self)) ==> zones_conserved(*self),
                    events_bounded(*old(self)) ==> events_bounded(*self),
                decreases abilities@.len() - a,
            {
                let ghost before = self.stack_entries@;
                proof {
                    let next = abilities@.take(a + 1);
                    assert(next.drop_last() =~= abilities@.take(a as int));
                    assert(next.last() == abilities@[a as int]);
                }
                if abilities[a] == player {
                    let id = self.push_stack_entry(
                        StackEntryRequest {
                            controller: player,
                            object: None,
                            trigger: None,
                            activated_ability: None,
                            kind,
                            targets: Vec::new(),
                            payment: None,
                        },
                    );
                    ids.push(id);
                    proof {
                        assert(self.stack_entries@.subrange(0, start_len as int) =~= before.subrange(
                            0,
                            start_len as int,
                        ));
                        assert(self.stack_entries@.skip(start_len as int) =~= before.skip(start_len as int).push(
                            self.stack_entries@.last(),
                        ));
                        assert(entry_controllers(self.stack_entries@.skip(start_len as int)) =~= entry_controllers(
                            before.skip(start_len as int),
                        ).push(player));
                    }
                }
                a = a + 1;
            }
            proof {
                assert(abilities@.take(abilities@.len() as int) =~= abilities@);
                let next = order@.take(p + 1);
                assert(next.drop_last() =~= order@.take(p as int));
                assert(next.last() == player);
            }
            p = p + 1;
        }
        assert(order@.take(order@.len() as int) =~= order@);
        self.priority_pass_count = 0;
        Ok(ids)
    }

    /// Puts every pending triggered ability on the stack in APNAP order,
    /// then gives priority to the deferred player, or else the active one.
    pub fn put_pending_triggered_abilities_on_stack(&mut self) -> (r: Result<
        Vec<StackEntryId>,
        StateError,
    >)
        ensures
            zones_conserved(*old(self)) ==> zones_conserved(*final(self)),
            events_bounded(*old(self)) ==> events_bounded(*final(self)),
            old(self).active_player is None ==> r == Err::<Vec<StackEntryId>, StateError>(
                StateError::TurnNotStarted,
            ),
            old(self).active_player is Some && old(self).pending_triggers@.len() == 0 ==> (r matches Ok(
                ids,
            ) && ids@.len() == 0),
            r is Ok ==> final(self).stack_entries@.subrange(0, old(self).stack_entries@.len() as int)
                == old(self).stack_entries@ && entry_triggers(
                final(self).stack_entries@.skip(old(self).stack_entries@.len() as int),
            ) == apnap_triggers(
                apnap_order(old(self).players@.len() as int, old(self).active_player->0),
                old(self).pending_triggers@,
            ),
            old(self).active_player is Some && (old(self).active_player->0).0 < old(self).players@.len()
                && old(self).players@.len() <= u32::MAX + 1 && sba_quiet(*old(self)) ==> r is Ok,
    {
        let active = match self.active_player {
            Some(a) => a,
            None => return Err(StateError::TurnNotStarted),
        };
        let mut pending: Vec<PendingTriggeredAbility> = Vec::new();
        std::mem::swap(&mut pending, &mut self.pending_triggers);
        if pending.len() == 0 {
            assert(apnap_triggers(
                apnap_order(old(self).players@.len() as int, active),
                old(self).pending_triggers@,
            ) =~= Seq::<(PlayerId, Option<TriggerId>)>::empty()) by {
                lemma_apnap_triggers_none(
                    apnap_order(old(self).players@.len() as int, active),
                    old(self).pending_triggers@,
                );
            }
            assert(self.stack_entries@.skip(old(self).stack_entries@.len() as int) =~= Seq::<StackEntry>::empty());
            assert(entry_triggers(Seq::<StackEntry>::empty()) =~= Seq::<(PlayerId, Option<TriggerId>)>::empty());
            return Ok(Vec::new());
        }
        let ghost quiet = sba_quiet(*old(self));
        let order = match self.apnap_players(active) {
            Ok(o) => o,
            Err(e) => return Err(e),
        };
        let ghost start_len = self.stack_entries@.len();
        let ghost start_stack = self.stack_entries@;
        assert(order@ =~= apnap_order(old(self).players@.len() as int, active));
        assert(order@.take(0) =~= Seq::<PlayerId>::empty());
        assert(self.stack_entries@.skip(start_len as int) =~= Seq::<StackEntry>::empty());
        assert(entry_triggers(Seq::<StackEntry>::empty()) =~= Seq::<(PlayerId, Option<TriggerId>)>::empty());
        let mut ids: Vec<StackEntryId> = Vec::new();
        let mut p: usize = 0;
        while p < order.len()
            invariant
                p <= order@.len(),
                zones_conserved(*old(self)) ==> zones_conserved(*self),
                events_bounded(*old(self)) ==> events_bounded(*self),
                pending@ == old(self).pending_triggers@,
                start_stack == old(self).stack_entries@,
                start_len == start_stack.len(),
                self.stack_entries@.len() >= start_len,
                self.stack_entries@.subrange(0, start_len as int) == start_stack,
                entry_triggers(self.stack_entries@.skip(start_len as int)) == apnap_triggers(
                    order@.take(p as int),
                    pending@,
                ),
                quiet ==> sba_quiet(*self),
            decreases order@.len() - p,
        {
            let player = order[p];
            let mut t: usize = 0;
            assert(pending@.take(0) =~= Seq::<PendingTriggeredAbility>::empty());
            assert(apnap_triggers(order@.take(p as int), pending@) + triggers_of(pending@.take(0), player)
                =~= apnap_triggers(order@.take(p as int), pending@));
            while t < pending.len()
                invariant
                    t <= pending@.len(),
                    zones_conserved(*old(self)) ==> zones_conserved(*self),
                    events_bounded(*old(self)) ==> events_bounded(*self),
                    self.stack_entries@.len() >= start_len,
                    self.stack_entries@.subrange(0, start_len as int) == start_stack,
                    entry_triggers(self.stack_entries@.skip(start_len as int)) == apnap_triggers(
                        order@.take(p as int),
                        pending@,
                    ) + triggers_of(pending@.take(t as int), player),
                    quiet ==> sba_quiet(*self),
                decreases pending@.len() - t,
            {
                let trigger = pending[t];
                let ghost before = self.stack_entries@;
                let ghost before_state = *self;
                proof {
                    let next = pending@.take(t + 1);
                    assert(next.drop_last() =~= pending@.take(t as int));
                    assert(next.last() == trigger);
                }
                if trigger.controller == player {
                    let id = self.push_stack_entry(
                        StackEntryRequest {
                            controller: player,
                            object: None,
                            trigger: Some(trigger.trigger),
                            activated_ability: None,
                            kind: StackObjectKind::TriggeredAbility,
                            targets: Vec::new(),
                            payment: None,
                        },
                    );
                    self.emit_event_without_triggers(
                        GameEvent::TriggeredAbilityPutOnStack {
                            trigger: trigger.trigger,
                            entry: id,
                            controller: player,
                        },
                    );
                    ids.push(id);
                    proof {
                        if quiet {
                            lemma_sba_quiet_kept(before_state, *self);
                        }
                        assert(self.stack_entries@.subrange(0, start_len as int) =~= before.subrange(
                            0,
                            start_len as int,
                        ));
                        assert(self.stack_entries@.skip(start_len as int) =~= before.skip(start_len as int).push(
                            self.stack_entries@.last(),
                        ));
                        assert(entry_triggers(self.stack_entries@.skip(start_len as int)) =~= entry_triggers(
                            before.skip(start_len as int),
                        ).push((player, Some(trigger.trigger))));
                    }
                }
                t = t + 1;
            }
            proof {
                assert(pending@.take(pending@.len() as int) =~= pending@);
                let next = order@.take(p + 1);
                assert(next.drop_last() =~= order@.take(p as int));
                assert(next.last() == player);
            }
            p = p + 1;
        }
        assert(order@.take(order@.len() as int) =~= order@);
        let priority = match self.deferred_priority_player {
            Some(d) => Some(d),
            None => self.active_player,
        };
        self.deferred_priority_player = None;
        match self.grant_priority_to(priority) {
            Ok(()) => {},
            Err(e) => return Err(e),
        }
        Ok(ids)
    }
}

} // verus!
