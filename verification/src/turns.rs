//! The turn machine: starting turns, beginning and ending steps, passing
//! priority, cleanup, and the duration markers that expire along the way.

use vstd::prelude::*;

use crate::combat::{CombatDamageStepKind, CombatState};
use crate::events::GameEvent;
use crate::ids::{DurationMarkerId, PlayerId, StackEntryId};
use crate::mana::ManaPool;
use crate::outcome::{GameOutcome, PriorityOutcome};
use crate::sba::{
    battlefield_objects, lemma_settle_frame_chain, lemma_settle_frame_settles, lemma_zone_position_same_ids, settle_frame, sba_settles, ids_match_positions, lemma_sba_quiet_kept, lemma_sba_quiet_mana, lemma_sba_quiet_off_battlefield,
    owners_have_graveyards, sba_measure, sba_quiet,
};
use crate::priority::top_entry_resolves;
use crate::outcome::SBA_FIXPOINT_LIMIT;
use crate::state::{GameState, PlayerState, StateError, Zone, same_but_events};
use crate::turn::{CleanupReport, DurationMarker, EffectDuration, Phase, Step, ZoneId, ZoneKind};
use crate::plumbing::{events_bounded, zone_position, zones_conserved};
use crate::setup::{first_zone_len, has_zone, zone_at};

verus! {

/// The step after `step` in an ordinary turn, wrapping from cleanup to untap.
pub open spec fn next_step_in_order(step: Step) -> Step {
    match step {
        Step::Untap => Step::Upkeep,
        Step::Upkeep => Step::Draw,
        Step::Draw => Step::PrecombatMain,
        Step::PrecombatMain => Step::BeginningOfCombat,
        Step::BeginningOfCombat => Step::DeclareAttackers,
        Step::DeclareAttackers => Step::DeclareBlockers,
        Step::DeclareBlockers => Step::CombatDamage,
        Step::CombatDamage => Step::EndOfCombat,
        Step::EndOfCombat => Step::PostcombatMain,
        Step::PostcombatMain => Step::End,
        Step::End => Step::Cleanup,
        Step::Cleanup => Step::Untap,
    }
}

/// Position `i` of the ordinary turn order, untap first.
pub open spec fn turn_step_at(i: int) -> Step {
    if i == 0 {
        Step::Untap
    } else if i == 1 {
        Step::Upkeep
    } else if i == 2 {
        Step::Draw
    } else if i == 3 {
        Step::PrecombatMain
    } else if i == 4 {
        Step::BeginningOfCombat
    } else if i == 5 {
        Step::DeclareAttackers
    } else if i == 6 {
        Step::DeclareBlockers
    } else if i == 7 {
        Step::CombatDamage
    } else if i == 8 {
        Step::EndOfCombat
    } else if i == 9 {
        Step::PostcombatMain
    } else if i == 10 {
        Step::End
    } else {
        Step::Cleanup
    }
}

/// The step that follows `current` once every player has passed with an
/// empty stack: cleanup repeats when requested, a combat with no attackers
/// skips to its end, a first-strike damage step is followed by the regular
/// one, and otherwise the ordinary order applies.
pub open spec fn following_step(state: GameState, current: Step) -> Step {
    if current == Step::Cleanup && state.cleanup_repeat_pending {
        Step::Cleanup
    } else if current == Step::DeclareAttackers && !state.attackers_declared_this_combat {
        Step::EndOfCombat
    } else if current == Step::CombatDamage && state.combat.damage_step == Some(
        CombatDamageStepKind::FirstStrike,
    ) {
        Step::CombatDamage
    } else {
        next_step_in_order(current)
    }
}

/// Whether leaving `step` also ends its phase.
pub open spec fn phase_ends_after(state: GameState, step: Step) -> bool {
    ||| step == Step::Draw
    ||| step == Step::PrecombatMain
    ||| step == Step::EndOfCombat
    ||| step == Step::PostcombatMain
    ||| (step == Step::Cleanup && !state.cleanup_repeat_pending)
}

/// Markers whose duration is not `duration`.
pub open spec fn markers_without(markers: Seq<DurationMarker>, duration: EffectDuration) -> Seq<DurationMarker> {
    markers.filter(|m: DurationMarker| m.duration != duration)
}

/// The seat index of an optional player; zero when there is none.
pub open spec fn seat_of(player: Option<PlayerId>) -> int {
    match player {
        Some(p) => p.0 as int,
        None => 0,
    }
}

/// `b` keeps the turn identity of `a`: turn number, active player and step.
pub open spec fn same_turn(a: GameState, b: GameState) -> bool {
    &&& b.turn_number == a.turn_number
    &&& b.active_player == a.active_player
    &&& b.current_step == a.current_step
    &&& b.starting_player == a.starting_player
    &&& b.players@.len() == a.players@.len()
}

/// Each step of the ordinary turn order is followed by the next one, and
/// cleanup by untap.
pub proof fn lemma_turn_order_cycles(i: int)
    requires
        0 <= i < 12,
    ensures
        next_step_in_order(turn_step_at(i)) == turn_step_at((i + 1) % 12),
{
}

/// What the cleanup actions report for `state`: the cards the active player
/// discards down to their maximum hand size, and how many markers lasting
/// until end of turn, then how many lasting this turn, expire.
pub open spec fn cleanup_report_for(state: GameState) -> CleanupReport {
    cleanup_report_from(state, state.duration_markers@)
}

/// The cleanup report for `state` with `markers` as its duration markers.
pub open spec fn cleanup_report_from(state: GameState, markers: Seq<DurationMarker>) -> CleanupReport {
    let active = state.active_player->0;
    let kept = markers_without(markers, EffectDuration::UntilEndOfTurn);
    CleanupReport {
        discarded: discard_count(
            first_zone_len(state.zones@, ZoneId { owner: Some(active), kind: ZoneKind::Hand }),
            state.players@[active.0 as int].max_hand_size as int,
        ) as u32,
        expired_until_end_of_turn: capped_count(markers.len() - kept.len()) as u32,
        expired_this_turn: capped_count(kept.len() - markers_without(kept, EffectDuration::ThisTurn).len()) as u32,
    }
}

/// What completing a priority round did: with an empty stack the step ended
/// and the next one began (the next turn's untap step after a final cleanup);
/// otherwise the top stack entry resolved and left the stack, recorded in the
/// resolution log.
pub open spec fn round_completed(before: GameState, after: GameState) -> bool {
    if before.stack_entries@.len() == 0 {
        &&& before.current_step is Some
        &&& if before.current_step == Some(Step::Cleanup) && !before.cleanup_repeat_pending {
            after.current_step == Some(Step::Untap) && after.turn_number == before.turn_number + 1
        } else {
            after.current_step == Some(following_step(before, before.current_step->0))
                && after.turn_number == before.turn_number
        }
    } else {
        let top = before.stack_entries@.last();
        &&& after.stack_entries@ == before.stack_entries@.drop_last()
        &&& after.resolution_log@.len() == before.resolution_log@.len() + 1
        &&& after.resolution_log@.drop_last() == before.resolution_log@
        &&& after.resolution_log@.last().stack_entry == top.id
        &&& after.resolution_log@.last().outcome == crate::priority::resolution_outcome(before, top)
    }
}

/// The first turn's draw is skipped for the starting player in a game of
/// more than one player.
pub open spec fn first_draw_skipped(state: GameState) -> bool {
    state.turn_number == 1 && state.players@.len() > 1 && state.starting_player is Some
        && state.active_player == state.starting_player
}

/// The turn's draw can be made: the active player has a seat, a hand, and a
/// library with a card in it.
pub open spec fn turn_draw_possible(state: GameState) -> bool {
    &&& state.active_player is Some
    &&& (state.active_player->0).0 < state.players@.len()
    &&& has_zone(state.zones@, ZoneId { owner: state.active_player, kind: ZoneKind::Library })
    &&& has_zone(state.zones@, ZoneId { owner: state.active_player, kind: ZoneKind::Hand })
    &&& forall|li: int|
        zone_at(state.zones@, ZoneId { owner: state.active_player, kind: ZoneKind::Library }, li)
            ==> state.zones@[li].objects@.len() > 0
}

/// Ending the current step cannot be refused: from cleanup the next turn
/// begins (the active player has a seat and the turn count has room) or
/// cleanup repeats and can run; into cleanup, cleanup can run; into any
/// other step, no state-based action applies and a draw step can draw.
pub open spec fn step_can_end(state: GameState) -> bool {
    let current = state.current_step->0;
    let next = following_step(state, current);
    &&& state.current_step is Some
    &&& if current == Step::Cleanup {
        if state.cleanup_repeat_pending {
            cleanup_can_run(state)
        } else {
            state.active_player is Some && (state.active_player->0).0 < state.players@.len() && state.turn_number
                < u32::MAX
        }
    } else if next == Step::Cleanup {
        cleanup_can_run(state)
    } else {
        sba_quiet(state) && (next != Step::Draw || first_draw_skipped(state) || turn_draw_possible(state))
    }
}

/// With the stack empty, ending the current step cannot be refused.
pub open spec fn step_ends_cleanly(state: GameState) -> bool {
    &&& state.stack_entries@.len() == 0
    &&& step_can_end(state)
}

/// With a non-empty stack, resolving the top entry and returning priority
/// cannot be refused: the entry resolves, and state-based actions settle
/// with room for one more permanent.
pub open spec fn top_resolves_cleanly(state: GameState) -> bool {
    &&& state.stack_entries@.len() > 0
    &&& top_entry_resolves(GameState { priority_pass_count: 0, ..state })
    &&& ids_match_positions(state) && zones_conserved(state) && owners_have_graveyards(state)
    &&& sba_measure(state) + 1 < SBA_FIXPOINT_LIMIT
}

/// The cleanup step can run: the active player has a seat, a hand and a
/// graveyard, and state-based actions settle.
pub open spec fn cleanup_can_run(state: GameState) -> bool {
    &&& state.active_player is Some
    &&& (state.active_player->0).0 < state.players@.len()
    &&& has_zone(state.zones@, ZoneId { owner: state.active_player, kind: ZoneKind::Hand })
    &&& has_zone(state.zones@, ZoneId { owner: state.active_player, kind: ZoneKind::Graveyard })
    &&& sba_settles(state)
}

/// Between `before` and `after`, `player` drew the top card of their library
/// into their hand; from an empty library nothing moved.
pub open spec fn drew_turn_card(before: Seq<Zone>, after: Seq<Zone>, player: PlayerId) -> bool {
    forall|li: int, hi: int|
        #![trigger zone_at(before, ZoneId { owner: Some(player), kind: ZoneKind::Library }, li), zone_at(before, ZoneId { owner: Some(player), kind: ZoneKind::Hand }, hi)]
        zone_at(before, ZoneId { owner: Some(player), kind: ZoneKind::Library }, li) && zone_at(
            before,
            ZoneId { owner: Some(player), kind: ZoneKind::Hand },
            hi,
        ) ==> {
            let library = before[li].objects@;
            if library.len() > 0 {
                &&& after[li].objects@ == library.drop_last()
                &&& after[hi].objects@ == before[hi].objects@.push(library.last())
            } else {
                &&& after[li].objects@ == library
                &&& after[hi].objects@ == before[hi].objects@
            }
        }
}

/// A count, saturated at `u32::MAX`.
pub open spec fn capped_count(n: int) -> int {
    if n > u32::MAX {
        u32::MAX as int
    } else {
        n
    }
}

/// How many cards discarding down to `max` takes from a hand of `len` cards.
pub open spec fn discard_count(len: int, max: int) -> int {
    if len > max {
        capped_count(len - max)
    } else {
        0
    }
}

impl GameState {
    /// Removes every marker with exactly this duration and reports how many went.
    pub(crate) fn expire_duration_markers(&mut self, duration: EffectDuration) -> (r: usize)
        ensures
            zones_conserved(*old(self)) ==> zones_conserved(*final(self)),
            events_bounded(*old(self)) ==> events_bounded(*final(self)),
            final(self).duration_markers@ == markers_without(old(self).duration_markers@, duration),
            r == old(self).duration_markers@.len() - final(self).duration_markers@.len(),
            same_but_events(
                *old(self),
                (GameState { duration_markers: old(self).duration_markers, ..*final(self) }),
            ),
    {
        let before = self.duration_markers.len();
        let mut kept: Vec<DurationMarker> = Vec::new();
        let mut i: usize = 0;
        while i < self.duration_markers.len()
            invariant
                i <= self.duration_markers@.len(),
                self.duration_markers@ == old(self).duration_markers@,
                kept@ == self.duration_markers@.subrange(0, i as int).filter(
                    |m: DurationMarker| m.duration != duration,
                ),
                kept@.len() <= i,
            decreases self.duration_markers@.len() - i,
        {
            proof {
                reveal(Seq::filter);
                assert(self.duration_markers@.subrange(0, i + 1).drop_last()
                    == self.duration_markers@.subrange(0, i as int));
            }
            let marker = self.duration_markers[i];
            if marker.duration != duration {
                kept.push(marker);
            }
            i = i + 1;
        }
        assert(self.duration_markers@.subrange(0, self.duration_markers@.len() as int)
            == self.duration_markers@);
        self.duration_markers = kept;
        let count = before - self.duration_markers.len();
        if count > 0 {
            let reported: u32 = if count > u32::MAX as usize {
                u32::MAX
            } else {
                count as u32
            };
            self.emit_event(GameEvent::DurationMarkersExpired { duration, count: reported });
        }
        count
    }

    /// Expires markers that last until `step` begins.
    pub(crate) fn expire_step_begin_markers(&mut self, step: Step)
        ensures
            zones_conserved(*old(self)) ==> zones_conserved(*final(self)),
            events_bounded(*old(self)) ==> events_bounded(*final(self)),
            final(self).duration_markers@ == markers_without(
                old(self).duration_markers@,
                EffectDuration::UntilStepBegins(step),
            ),
            same_but_events(
                *old(self),
                (GameState { duration_markers: old(self).duration_markers, ..*final(self) }),
            ),
    {
        self.expire_duration_markers(EffectDuration::UntilStepBegins(step));
    }

    /// Expires markers that last until `phase` ends.
    pub(crate) fn expire_phase_end_markers(&mut self, phase: Phase)
        ensures
            zones_conserved(*old(self)) ==> zones_conserved(*final(self)),
            events_bounded(*old(self)) ==> events_bounded(*final(self)),
            final(self).duration_markers@ == markers_without(
                old(self).duration_markers@,
                EffectDuration::UntilPhaseEnds(phase),
            ),
            same_but_events(
                *old(self),
                (GameState { duration_markers: old(self).duration_markers, ..*final(self) }),
            ),
    {
        self.expire_duration_markers(EffectDuration::UntilPhaseEnds(phase));
    }

    /// Expires markers that last until the end of combat.
    pub(crate) fn expire_end_of_combat_markers(&mut self)
        ensures
            zones_conserved(*old(self)) ==> zones_conserved(*final(self)),
            events_bounded(*old(self)) ==> events_bounded(*final(self)),
            final(self).duration_markers@ == markers_without(
                old(self).duration_markers@,
                EffectDuration::UntilEndOfCombat,
            ),
            same_but_events(
                *old(self),
                (GameState { duration_markers: old(self).duration_markers, ..*final(self) }),
            ),
    {
        self.expire_duration_markers(EffectDuration::UntilEndOfCombat);
    }

    /// Adds a placeholder duration marker and returns its ID.
    pub fn add_duration_marker(&mut self, duration: EffectDuration) -> (id: DurationMarkerId)
        ensures
            zones_conserved(*old(self)) ==> zones_conserved(*final(self)),
            events_bounded(*old(self)) ==> events_bounded(*final(self)),
            id == DurationMarkerId(old(self).next_duration_marker),
            final(self).duration_markers@ == old(self).duration_markers@.push(
                (DurationMarker { id, duration }),
            ),
            final(self).next_duration_marker == (if old(self).next_duration_marker < u32::MAX {
                (old(self).next_duration_marker + 1) as u32
            } else {
                u32::MAX
            }),
    {
        let id = DurationMarkerId(self.next_duration_marker);
        self.next_duration_marker = self.next_duration_marker.saturating_add(1);
        self.duration_markers.push(DurationMarker { id, duration });
        self.emit_event(GameEvent::DurationMarkerAdded { marker: id, duration });
        id
    }

    /// Returns active duration markers in creation order.
    pub fn duration_markers(&self) -> (r: &[DurationMarker])
        ensures
            r@ == self.duration_markers@,
    {
        self.duration_markers.as_slice()
    }

    /// Counts active duration markers with exactly this duration.
    pub fn duration_marker_count(&self, duration: EffectDuration) -> (r: usize)
        ensures
            r == self.duration_markers@.filter(|m: DurationMarker| m.duration == duration).len(),
    {
        let mut count: usize = 0;
        let mut i: usize = 0;
        while i < self.duration_markers.len()
            invariant
                i <= self.duration_markers@.len(),
                count == self.duration_markers@.subrange(0, i as int).filter(
                    |m: DurationMarker| m.duration == duration,
                ).len(),
                count <= i,
            decreases self.duration_markers@.len() - i,
        {
            proof {
                reveal(Seq::filter);
                assert(self.duration_markers@.subrange(0, i + 1).drop_last()
                    == self.duration_markers@.subrange(0, i as int));
            }
            if self.duration_markers[i].duration == duration {
                count = count + 1;
            }
            i = i + 1;
        }
        assert(self.duration_markers@.subrange(0, self.duration_markers@.len() as int)
            == self.duration_markers@);
        count
    }

    /// Requests priority in the cleanup step after its actions finish.
    pub fn request_cleanup_priority(&mut self)
        ensures
            zones_conserved(*old(self)) ==> zones_conserved(*final(self)),
            events_bounded(*old(self)) ==> events_bounded(*final(self)),
            final(self).cleanup_priority_requested,
            same_but_events(
                *old(self),
                (GameState {
                    cleanup_priority_requested: old(self).cleanup_priority_requested,
                    ..*final(self)
                }),
            ),
    {
        self.cleanup_priority_requested = true;
        self.emit_event(GameEvent::CleanupPriorityRequested);
    }

    /// Empties every player's mana pool.
    pub(crate) fn clear_all_mana_pools(&mut self)
        ensures
            zones_conserved(*old(self)) ==> zones_conserved(*final(self)),
            events_bounded(*old(self)) ==> events_bounded(*final(self)),
            final(self).players@.len() == old(self).players@.len(),
            forall|i: int|
                0 <= i < final(self).players@.len() ==> (#[trigger] final(self).players@[i]).mana_pool
                    == ManaPool::zero() && final(self).players@[i].id == old(self).players@[i].id
                    && final(self).players@[i].lost == old(self).players@[i].lost,
            forall|i: int|
                0 <= i < final(self).players@.len() ==> #[trigger] final(self).players@[i] == (PlayerState {
                    mana_pool: ManaPool::zero(),
                    ..old(self).players@[i]
                }),
            same_but_events(*old(self), (GameState { players: old(self).players, ..*final(self) })),
    {
        let mut changed = false;
        let n = self.players.len();
        let mut i: usize = 0;
        while i < n
            invariant
                i <= n,
                n == self.players@.len(),
                n == old(self).players@.len(),
                *self == (GameState { players: self.players, ..*old(self) }),
                forall|k: int|
                    0 <= k < i ==> (#[trigger] self.players@[k]).mana_pool == ManaPool::zero()
                        && self.players@[k].id == old(self).players@[k].id
                        && self.players@[k].lost == old(self).players@[k].lost
                        && self.players@[k] == (PlayerState { mana_pool: ManaPool::zero(), ..old(self).players@[k] }),
                forall|k: int| i <= k < n ==> #[trigger] self.players@[k] == old(self).players@[k],
            decreases n - i,
        {
            if self.players[i].mana_pool != ManaPool::empty() {
                changed = true;
            }
            self.players[i].mana_pool = ManaPool::empty();
            i = i + 1;
        }
        if changed {
            self.emit_event(GameEvent::ManaPoolsCleared);
        }
    }

    /// Whether the starting player skips the draw of the game's first turn.
    pub(crate) fn should_skip_first_turn_draw(&self) -> (r: bool)
        ensures
            r == (self.turn_number == 1 && self.players@.len() > 1 && self.starting_player is Some
                && self.active_player == self.starting_player),
    {
        let same = match (self.active_player, self.starting_player) {
            (Some(a), Some(s)) => a == s,
            (None, None) => true,
            _ => false,
        };
        self.turn_number == 1 && self.players.len() > 1 && self.starting_player.is_some() && same
    }

    /// The step after `step` in an ordinary turn.
    pub(crate) fn next_normal_step(step: Step) -> (r: Step)
        ensures
            r == next_step_in_order(step),
    {
        match step {
            Step::Untap => Step::Upkeep,
            Step::Upkeep => Step::Draw,
            Step::Draw => Step::PrecombatMain,
            Step::PrecombatMain => Step::BeginningOfCombat,
            Step::BeginningOfCombat => Step::DeclareAttackers,
            Step::DeclareAttackers => Step::DeclareBlockers,
            Step::DeclareBlockers => Step::CombatDamage,
            Step::CombatDamage => Step::EndOfCombat,
            Step::EndOfCombat => Step::PostcombatMain,
            Step::PostcombatMain => Step::End,
            Step::End => Step::Cleanup,
            Step::Cleanup => Step::Untap,
        }
    }

    /// Whether leaving `step` ends its phase.
    pub(crate) fn phase_ends_after_step(&self, step: Step) -> (r: bool)
        ensures
            r == phase_ends_after(*self, step),
    {
        match step {
            Step::Draw | Step::PrecombatMain | Step::EndOfCombat | Step::PostcombatMain => true,
            Step::Cleanup => !self.cleanup_repeat_pending,
            _ => false,
        }
    }

    /// Gives priority to the active player in steps that have a priority
    /// window, and to nobody otherwise.
    pub(crate) fn assign_normal_priority(&mut self, step: Step) -> (r: Result<(), StateError>)
        ensures
            zones_conserved(*old(self)) ==> zones_conserved(*final(self)),
            events_bounded(*old(self)) ==> events_bounded(*final(self)),
            r is Ok ==> same_turn(*old(self), *final(self)),
            r is Ok && final(self).outcome == GameOutcome::InProgress && final(self).pending_triggers@.len() == 0
                ==> final(self).priority_player == (if !(step == Step::Untap || step == Step::Cleanup) {
                old(self).active_player
            } else {
                None
            }),
            sba_quiet(*old(self)) ==> r is Ok,
            r is Ok ==> final(self).zones@.len() == old(self).zones@.len() && forall|j: int|
                0 <= j < old(self).zones@.len() && old(self).zones@[j].id.kind != ZoneKind::Battlefield
                    && old(self).zones@[j].id.kind != ZoneKind::Graveyard ==> #[trigger] final(self).zones@[j]
                    == old(self).zones@[j],
    {
        let priority = if step.receives_priority_normally() {
            self.active_player
        } else {
            None
        };
        self.grant_priority_to(priority)
    }

    /// Ends a step: empties mana pools and expires end-of-combat and
    /// end-of-phase markers; the end of combat also clears combat.
    pub(crate) fn end_step(&mut self, step: Step)
        ensures
            zones_conserved(*old(self)) ==> zones_conserved(*final(self)),
            events_bounded(*old(self)) ==> events_bounded(*final(self)),
            same_turn(*old(self), *final(self)),
            final(self).priority_player is None,
            final(self).priority_pass_count == 0,
            final(self).cleanup_repeat_pending == old(self).cleanup_repeat_pending,
            final(self).attackers_declared_this_combat == old(self).attackers_declared_this_combat,
            step != Step::EndOfCombat ==> final(self).combat == old(self).combat,
            final(self).stack_entries@ == old(self).stack_entries@,
            final(self).outcome == old(self).outcome,
            final(self).players@.len() == old(self).players@.len(),
            forall|i: int|
                0 <= i < final(self).players@.len() ==> #[trigger] final(self).players@[i] == (PlayerState {
                    mana_pool: ManaPool::zero(),
                    ..old(self).players@[i]
                }),
            final(self).zones@ == old(self).zones@,
            final(self).objects.records@ == old(self).objects.records@,
            final(self).empty_library_draws_since_sba@ == old(self).empty_library_draws_since_sba@,
            final(self).continuous_effects@ == old(self).continuous_effects@,
            step == Step::End ==> final(self).duration_markers@ == old(self).duration_markers@,
    {
        self.emit_event(GameEvent::StepEnded { step });
        self.priority_player = None;
        self.priority_pass_count = 0;
        self.clear_all_mana_pools();
        if step == Step::EndOfCombat {
            self.expire_end_of_combat_markers();
            self.combat = CombatState::new();
        }
        if self.phase_ends_after_step(step) {
            self.expire_phase_end_markers(step.phase());
        }
    }

    /// Runs the cleanup step's actions: discard to hand size and expire
    /// end-of-turn markers.
    pub(crate) fn perform_cleanup_actions(&mut self) -> (r: Result<CleanupReport, StateError>)
        ensures
            zones_conserved(*old(self)) ==> zones_conserved(*final(self)),
            events_bounded(*old(self)) ==> events_bounded(*final(self)),
            old(self).active_player is None ==> r == Err::<CleanupReport, StateError>(
                StateError::TurnNotStarted,
            ),
            r is Ok ==> same_turn(*old(self), *final(self)),
            r is Ok ==> final(self).duration_markers@ == markers_without(
                markers_without(old(self).duration_markers@, EffectDuration::UntilEndOfTurn),
                EffectDuration::ThisTurn,
            ),
            r is Ok ==> final(self).cleanup_repeat_pending == old(self).cleanup_repeat_pending
                && final(self).cleanup_priority_requested == old(self).cleanup_priority_requested
                && final(self).outcome == old(self).outcome && final(self).cleanup_iteration == old(
                self,
            ).cleanup_iteration,
            r matches Ok(report) ==> report == cleanup_report_for(*old(self)),
            r is Ok ==> old(self).active_player is Some && (old(self).active_player->0).0 < old(
                self,
            ).players@.len(),
            old(self).active_player is Some && (old(self).active_player->0).0 < old(self).players@.len() && has_zone(
                old(self).zones@,
                ZoneId { owner: old(self).active_player, kind: ZoneKind::Hand },
            ) && has_zone(old(self).zones@, ZoneId { owner: old(self).active_player, kind: ZoneKind::Graveyard })
                ==> r is Ok,
            r is Ok ==> settle_frame(*old(self), *final(self), 0),
    {
        let active = match self.active_player {
            Some(a) => a,
            None => return Err(StateError::TurnNotStarted),
        };
        let discarded = match self.discard_to_max_hand_size(active) {
            Ok(d) => d,
            Err(e) => return Err(e),
        };
        let ghost discarded_state = *self;
        let until_end = self.expire_duration_markers(EffectDuration::UntilEndOfTurn);
        let this_turn = self.expire_duration_markers(EffectDuration::ThisTurn);
        proof {
            assert(settle_frame(discarded_state, *self, 0));
            lemma_settle_frame_chain(*old(self), discarded_state, *self, 0, 0);
        }
        let expired_until_end_of_turn: u32 = if until_end > u32::MAX as usize {
            u32::MAX
        } else {
            until_end as u32
        };
        let expired_this_turn: u32 = if this_turn > u32::MAX as usize {
            u32::MAX
        } else {
            this_turn as u32
        };
        Ok(CleanupReport { discarded, expired_until_end_of_turn, expired_this_turn })
    }

    /// Moves the top cards of a hand to the graveyard until it holds no more
    /// than the player's maximum hand size; returns how many were discarded.
    pub(crate) fn discard_to_max_hand_size(&mut self, player: PlayerId) -> (r: Result<u32, StateError>)
        ensures
            zones_conserved(*old(self)) ==> zones_conserved(*final(self)),
            events_bounded(*old(self)) ==> events_bounded(*final(self)),
            player.0 >= old(self).players@.len() ==> r == Err::<u32, StateError>(
                StateError::UnknownPlayer(player),
            ),
            r is Ok ==> same_but_events(*old(self), (GameState { zones: old(self).zones, ..*final(self) })),
            r is Ok ==> final(self).zones@.len() == old(self).zones@.len(),
            r matches Ok(d) ==> d == discard_count(
                first_zone_len(old(self).zones@, ZoneId { owner: Some(player), kind: ZoneKind::Hand }),
                old(self).players@[player.0 as int].max_hand_size as int,
            ),
            player.0 < old(self).players@.len() && has_zone(
                old(self).zones@,
                ZoneId { owner: Some(player), kind: ZoneKind::Hand },
            ) && has_zone(old(self).zones@, ZoneId { owner: Some(player), kind: ZoneKind::Graveyard }) ==> r is Ok,
            r is Ok ==> settle_frame(*old(self), *final(self), 0),
            r is Ok ==> ({
                let hand = ZoneId { owner: Some(player), kind: ZoneKind::Hand };
                let held = first_zone_len(old(self).zones@, hand);
                let max = old(self).players@[player.0 as int].max_hand_size as int;
                first_zone_len(final(self).zones@, hand) == if held > max {
                    max
                } else {
                    held
                }
            }),
    {
        let index = player.index();
        if index >= self.players.len() {
            return Err(StateError::UnknownPlayer(player));
        }
        let max_hand_size = self.players[index].max_hand_size as usize;
        let hand = ZoneId::new(Some(player), ZoneKind::Hand);
        let graveyard = ZoneId::new(Some(player), ZoneKind::Graveyard);
        let ghost start = *self;
        let ghost initial = first_zone_len(start.zones@, hand);
        let mut discarded: u32 = 0;
        let mut done = false;
        while !done
            invariant
                start == *old(self),
                initial == first_zone_len(start.zones@, hand),
                max_hand_size == start.players@[player.0 as int].max_hand_size,
                discarded as int == capped_count(initial - first_zone_len(self.zones@, hand)),
                initial > max_hand_size ==> first_zone_len(self.zones@, hand) >= max_hand_size,
                initial <= max_hand_size ==> first_zone_len(self.zones@, hand) == initial,
                done ==> first_zone_len(self.zones@, hand) <= max_hand_size,
                player.0 < start.players@.len(),
                hand == (ZoneId { owner: Some(player), kind: ZoneKind::Hand }),
                graveyard == (ZoneId { owner: Some(player), kind: ZoneKind::Graveyard }),
                same_but_events(start, (GameState { zones: start.zones, ..*self })),
                self.zones@.len() == start.zones@.len(),
                zones_conserved(start) ==> zones_conserved(*self),
                events_bounded(start) ==> events_bounded(*self),
                forall|j: int| 0 <= j < start.zones@.len() ==> #[trigger] self.zones@[j].id == start.zones@[j].id,
                battlefield_objects(*self) == battlefield_objects(start),
            decreases crate::setup::first_zone_len(self.zones@, hand) + (if done {
                0int
            } else {
                1int
            }),
        {
            proof {
                if has_zone(start.zones@, hand) {
                    let j = choose|j: int| 0 <= j < start.zones@.len() && #[trigger] start.zones@[j].id == hand;
                    assert(self.zones@[j].id == hand);
                }
                if has_zone(start.zones@, graveyard) {
                    let j = choose|j: int| 0 <= j < start.zones@.len() && #[trigger] start.zones@[j].id == graveyard;
                    assert(self.zones@[j].id == graveyard);
                }
            }
            let len = match self.zone_len(hand) {
                Ok(l) => l,
                Err(e) => return Err(e),
            };
            if len <= max_hand_size {
                done = true;
            } else {
                let ghost before = self.zones@;
                match self.move_last_between_zones(hand, graveyard) {
                    Ok(Some(_)) => {
                        discarded = discarded.saturating_add(1);
                        proof {
                            let (fi, ti) = choose|fi: int, ti: int|
                                crate::setup::zone_at(before, hand, fi) && crate::setup::zone_at(
                                    before,
                                    graveyard,
                                    ti,
                                ) && {
                                    &&& before[fi].objects@.len() > 0
                                    &&& fi != ti
                                    &&& self.zones@[fi].objects@ == before[fi].objects@.drop_last()
                                    &&& forall|j: int|
                                        0 <= j < before.len() && j != fi && j != ti ==> #[trigger] self.zones@[j]
                                            == before[j]
                                    &&& self.zones@[fi].id == hand && self.zones@[ti].id == graveyard
                                };
                            assert(crate::setup::zone_at(self.zones@, hand, fi)) by {
                                assert forall|j: int| 0 <= j < fi implies #[trigger] self.zones@[j].id
                                    != hand by {
                                    if j != ti {
                                        assert(self.zones@[j] == before[j]);
                                    }
                                }
                            }
                            crate::setup::lemma_first_zone_len(before, hand, fi);
                            crate::setup::lemma_first_zone_len(self.zones@, hand, fi);
                            assert forall|j: int| 0 <= j < start.zones@.len() implies #[trigger] self.zones@[j].id
                                == start.zones@[j].id by {
                                if j != fi && j != ti {
                                    assert(self.zones@[j] == before[j]);
                                }
                            }
                            let field = ZoneId { owner: None, kind: ZoneKind::Battlefield };
                            lemma_zone_position_same_ids(before, self.zones@, field);
                            if let Some(p) = zone_position(before, field) {
                                assert(before[p].id == field);
                                assert(self.zones@[p] == before[p]);
                            }
                        }
                    },
                    Ok(None) => {
                        proof {
                            let fi = choose|fi: int|
                                crate::setup::zone_at(before, hand, fi) && #[trigger] before[fi].objects@.len() == 0;
                            crate::setup::lemma_first_zone_len(before, hand, fi);
                        }
                        done = true;
                    },
                    Err(e) => return Err(e),
                }
            }
        }
        Ok(discarded)
    }
}

impl GameState {
    /// Runs the cleanup step: its actions, removal of marked damage, then
    /// state-based actions; priority is given, and cleanup will repeat, only
    /// when something happened or priority was requested.
    pub(crate) fn begin_cleanup_step(&mut self) -> (r: Result<(), StateError>)
        ensures
            zones_conserved(*old(self)) ==> zones_conserved(*final(self)),
            events_bounded(*old(self)) ==> events_bounded(*final(self)),
            r is Ok ==> same_turn(*old(self), *final(self)),
            r is Ok ==> final(self).cleanup_iteration == (if old(self).cleanup_iteration < u32::MAX {
                (old(self).cleanup_iteration + 1) as u32
            } else {
                u32::MAX
            }),
            r is Ok ==> !final(self).cleanup_priority_requested,
            r is Ok && old(self).cleanup_priority_requested && final(self).outcome == GameOutcome::InProgress
                ==> final(self).cleanup_repeat_pending && final(self).priority_player == old(self).active_player,
            r is Ok && final(self).outcome != GameOutcome::InProgress ==> !final(self).cleanup_repeat_pending
                && final(self).priority_player is None,
            r is Ok ==> final(self).last_cleanup_report == cleanup_report_for(*old(self)),
            r is Ok ==> old(self).active_player is Some && (old(self).active_player->0).0 < old(
                self,
            ).players@.len(),
            cleanup_can_run(*old(self)) ==> r is Ok,
    {
        self.cleanup_iteration = self.cleanup_iteration.saturating_add(1);
        let ghost counted = *self;
        let report = match self.perform_cleanup_actions() {
            Ok(r) => r,
            Err(e) => return Err(e),
        };
        let ghost performed = *self;
        self.last_cleanup_report = report;
        self.emit_event(GameEvent::CleanupPerformed { report });
        self.clear_damage_marked();
        proof {
            if cleanup_can_run(*old(self)) {
                assert(settle_frame(*old(self), counted, 0));
                assert(settle_frame(performed, *self, 0));
                lemma_settle_frame_chain(*old(self), counted, performed, 0, 0);
                lemma_settle_frame_chain(*old(self), performed, *self, 0, 0);
                lemma_settle_frame_settles(*old(self), *self, 0);
            }
        }
        let sba_report = match self.perform_state_based_actions() {
            Ok(r) => r,
            Err(e) => return Err(e),
        };
        let grant_priority = self.cleanup_priority_requested;
        self.cleanup_priority_requested = false;
        let needs_priority = grant_priority || sba_report.actions_performed > 0;
        let in_progress = self.outcome == GameOutcome::InProgress;
        self.cleanup_repeat_pending = needs_priority && in_progress;
        let new_priority = if needs_priority && in_progress {
            self.active_player
        } else {
            None
        };
        self.priority_player = new_priority;
        self.priority_pass_count = 0;
        Ok(())
    }

    /// Begins a step: records it, expires markers that last until it, and
    /// performs its turn-based actions before priority.
    pub(crate) fn begin_step(&mut self, step: Step) -> (r: Result<(), StateError>)
        ensures
            zones_conserved(*old(self)) ==> zones_conserved(*final(self)),
            events_bounded(*old(self)) ==> events_bounded(*final(self)),
            r is Ok ==> final(self).current_step == Some(step),
            r is Ok ==> final(self).active_player == old(self).active_player && final(self).turn_number
                == old(self).turn_number && final(self).players@.len() == old(self).players@.len()
                && final(self).starting_player == old(self).starting_player,
            r is Ok && step == Step::Untap ==> final(self).priority_player is None,
            step == Step::Untap ==> r is Ok,
            sba_quiet(*old(self)) && step != Step::Draw && step != Step::Cleanup ==> r is Ok,
            sba_quiet(*old(self)) && step == Step::Draw && (first_draw_skipped(*old(self))
                || turn_draw_possible(*old(self))) ==> r is Ok,
            step == Step::Cleanup && cleanup_can_run(*old(self)) ==> r is Ok,
            r is Ok && step == Step::Cleanup ==> final(self).last_cleanup_report == cleanup_report_from(
                *old(self),
                markers_without(old(self).duration_markers@, EffectDuration::UntilStepBegins(step)),
            ),
            r is Ok && step == Step::Cleanup ==> old(self).active_player is Some && (old(
                self,
            ).active_player->0).0 < old(self).players@.len(),
            r is Ok && step == Step::Draw && !first_draw_skipped(*old(self)) ==> drew_turn_card(
                old(self).zones@,
                final(self).zones@,
                old(self).active_player->0,
            ),
    {
        let ghost start = *self;
        self.current_step = Some(step);
        self.emit_event(GameEvent::StepBegan { step });
        self.expire_step_begin_markers(step);
        proof {
            if sba_quiet(start) {
                lemma_sba_quiet_kept(start, *self);
            }
        }
        match step {
            Step::Untap => {
                self.priority_player = None;
            },
            Step::Draw => {
                let ghost z0 = self.zones@;
                let ghost pre = *self;
                if !self.should_skip_first_turn_draw() {
                    match self.draw_turn_card() {
                        Ok(()) => {},
                        Err(e) => return Err(e),
                    }
                    proof {
                        if sba_quiet(start) && turn_draw_possible(start) {
                            assert(z0 == start.zones@);
                            assert(pre.players@ == self.players@);
                            assert forall|j: int|
                                0 <= j < pre.zones@.len() && pre.zones@[j].id.kind == ZoneKind::Battlefield
                                    implies #[trigger] self.zones@[j] == pre.zones@[j] by {}
                            lemma_sba_quiet_off_battlefield(pre, *self);
                        }
                    }
                }
                let ghost z1 = self.zones@;
                match self.assign_normal_priority(step) {
                    Ok(()) => {},
                    Err(e) => return Err(e),
                }
                proof {
                    if !first_draw_skipped(start) {
                        let a = start.active_player->0;
                        let library = ZoneId { owner: Some(a), kind: ZoneKind::Library };
                        let hand = ZoneId { owner: Some(a), kind: ZoneKind::Hand };
                        assert(z0 == start.zones@);
                        assert forall|li: int, hi: int|
                            zone_at(z0, library, li) && zone_at(z0, hand, hi) implies {
                                let lib = z0[li].objects@;
                                if lib.len() > 0 {
                                    &&& self.zones@[li].objects@ == lib.drop_last()
                                    &&& self.zones@[hi].objects@ == z0[hi].objects@.push(lib.last())
                                } else {
                                    &&& self.zones@[li].objects@ == lib
                                    &&& self.zones@[hi].objects@ == z0[hi].objects@
                                }
                            } by {
                            assert(z1[li].id == library);
                            assert(z1[hi].id == hand);
                            assert(self.zones@[li] == z1[li]);
                            assert(self.zones@[hi] == z1[hi]);
                        }
                    }
                }
            },
            Step::BeginningOfCombat => {
                self.attackers_declared_this_combat = false;
                self.combat = CombatState::new();
                match self.assign_normal_priority(step) {
                    Ok(()) => {},
                    Err(e) => return Err(e),
                }
            },
            Step::CombatDamage => {
                self.begin_combat_damage_step();
                match self.assign_normal_priority(step) {
                    Ok(()) => {},
                    Err(e) => return Err(e),
                }
            },
            Step::Cleanup => {
                proof {
                    if cleanup_can_run(start) {
                        assert(settle_frame(start, *self, 0));
                        lemma_settle_frame_settles(start, *self, 0);
                        let a = start.active_player;
                        let h = choose|j: int| 0 <= j < start.zones@.len() && #[trigger] start.zones@[j].id == (ZoneId {
                            owner: a,
                            kind: ZoneKind::Hand,
                        });
                        let g = choose|j: int| 0 <= j < start.zones@.len() && #[trigger] start.zones@[j].id == (ZoneId {
                            owner: a,
                            kind: ZoneKind::Graveyard,
                        });
                        assert(self.zones@[h].id == start.zones@[h].id && self.zones@[g].id == start.zones@[g].id);
                    }
                }
                match self.begin_cleanup_step() {
                    Ok(()) => {},
                    Err(e) => return Err(e),
                }
            },
            _ => {
                match self.assign_normal_priority(step) {
                    Ok(()) => {},
                    Err(e) => return Err(e),
                }
            },
        }
        Ok(())
    }

    /// Starts the next player's turn at its untap step.
    pub(crate) fn begin_next_turn(&mut self) -> (r: Result<Step, StateError>)
        ensures
            zones_conserved(*old(self)) ==> zones_conserved(*final(self)),
            events_bounded(*old(self)) ==> events_bounded(*final(self)),
            old(self).active_player is None ==> r == Err::<Step, StateError>(StateError::TurnNotStarted),
            r is Ok ==> r == Ok::<Step, StateError>(Step::Untap) && final(self).current_step == Some(
                Step::Untap,
            ),
            r is Ok ==> old(self).active_player is Some && old(self).turn_number < u32::MAX
                && final(self).turn_number == old(self).turn_number + 1,
            r is Ok ==> final(self).active_player is Some && (seat_of(old(self).active_player) + 1) % (
            old(self).players@.len() as int) <= u32::MAX ==> seat_of(final(self).active_player) == (
            seat_of(old(self).active_player) + 1) % (old(self).players@.len() as int),
            r is Ok ==> final(self).players@.len() == old(self).players@.len(),
            old(self).active_player is Some && (old(self).active_player->0).0 < old(self).players@.len()
                && old(self).turn_number < u32::MAX ==> r is Ok,
    {
        let current = match self.active_player {
            Some(a) => a,
            None => return Err(StateError::TurnNotStarted),
        };
        let next = match self.next_player_after(current) {
            Ok(p) => p,
            Err(e) => return Err(e),
        };
        self.active_player = Some(next);
        self.turn_number = match self.turn_number.checked_add(1) {
            Some(t) => t,
            None => return Err(StateError::TurnNumberOverflow),
        };
        self.cleanup_iteration = 0;
        self.attackers_declared_this_combat = false;
        self.combat = CombatState::new();
        self.reset_turn_events();
        let turn = self.turn_number;
        self.emit_event(GameEvent::TurnStarted { turn, active_player: next });
        match self.begin_step(Step::Untap) {
            Ok(()) => {},
            Err(e) => return Err(e),
        }
        Ok(Step::Untap)
    }

    /// Ends the current step and begins the one that follows; after cleanup
    /// with nothing left to repeat, the next turn begins.
    pub(crate) fn advance_step_after_empty_stack(&mut self) -> (r: Result<Step, StateError>)
        ensures
            zones_conserved(*old(self)) ==> zones_conserved(*final(self)),
            events_bounded(*old(self)) ==> events_bounded(*final(self)),
            old(self).current_step is None ==> r == Err::<Step, StateError>(StateError::TurnNotStarted),
            r matches Ok(next) ==> final(self).current_step == Some(next),
            r is Ok ==> old(self).current_step is Some,
            r is Ok && !(old(self).current_step == Some(Step::Cleanup) && !old(self).cleanup_repeat_pending) ==> r->Ok_0 == following_step(*old(self), old(self).current_step->0)
                && final(self).turn_number == old(self).turn_number && final(self).active_player == old(self).active_player,
            r is Ok && old(self).current_step == Some(Step::Cleanup) && !old(self).cleanup_repeat_pending ==> r->Ok_0 == Step::Untap && old(self).turn_number < u32::MAX
                && final(self).turn_number == old(self).turn_number + 1,
            old(self).current_step is Some && old(self).current_step != Some(Step::Cleanup) && (following_step(
                *old(self),
                old(self).current_step->0,
            ) != Step::Draw || first_draw_skipped(*old(self)) || turn_draw_possible(*old(self)))
                && following_step(*old(self), old(self).current_step->0) != Step::Cleanup
                && sba_quiet(*old(self)) ==> r == Ok::<Step, StateError>(
                following_step(*old(self), old(self).current_step->0),
            ),
            step_can_end(*old(self)) ==> r is Ok,
            r is Ok && old(self).current_step == Some(Step::End) ==> final(self).last_cleanup_report
                == cleanup_report_from(
                *old(self),
                markers_without(old(self).duration_markers@, EffectDuration::UntilStepBegins(Step::Cleanup)),
            ),
            r == Ok::<Step, StateError>(Step::Draw) && !first_draw_skipped(*old(self)) ==> drew_turn_card(
                old(self).zones@,
                final(self).zones@,
                old(self).active_player->0,
            ),
    {
        let current = match self.current_step {
            Some(s) => s,
            None => return Err(StateError::TurnNotStarted),
        };
        let ghost start = *self;
        self.end_step(current);
        proof {
            if sba_quiet(start) {
                lemma_sba_quiet_mana(start, *self);
            }
        }
        let next = match current {
            Step::Cleanup => {
                if self.cleanup_repeat_pending {
                    self.cleanup_repeat_pending = false;
                    Step::Cleanup
                } else {
                    return self.begin_next_turn();
                }
            },
            Step::DeclareAttackers => {
                if !self.attackers_declared_this_combat {
                    Step::EndOfCombat
                } else {
                    Self::next_normal_step(current)
                }
            },
            Step::CombatDamage => {
                if self.combat.damage_step == Some(CombatDamageStepKind::FirstStrike) {
                    Step::CombatDamage
                } else {
                    Self::next_normal_step(current)
                }
            },
            _ => Self::next_normal_step(current),
        };
        let ghost s1 = *self;
        proof {
            if next == Step::Cleanup && cleanup_can_run(start) {
                assert(settle_frame(start, s1, 0));
                lemma_settle_frame_settles(start, s1, 0);
                assert(s1.zones@ == start.zones@);
            }
        }
        match self.begin_step(next) {
            Ok(()) => {},
            Err(e) => return Err(e),
        }
        proof {
            if next == Step::Draw {
                assert(s1.zones@ == start.zones@);
                assert(first_draw_skipped(s1) == first_draw_skipped(start));
            }
            if current == Step::End {
                assert(next == Step::Cleanup);
                let a = (s1.active_player->0).0 as int;
                assert(s1.players@[a] == (PlayerState { mana_pool: ManaPool::zero(), ..start.players@[a] }));
                assert(cleanup_report_from(
                    s1,
                    markers_without(s1.duration_markers@, EffectDuration::UntilStepBegins(Step::Cleanup)),
                ) == cleanup_report_from(
                    start,
                    markers_without(start.duration_markers@, EffectDuration::UntilStepBegins(Step::Cleanup)),
                ));
            }
        }
        Ok(next)
    }

    /// Advances from the current step to the next one.
    pub fn advance_step(&mut self) -> (r: Result<Step, StateError>)
        ensures
            zones_conserved(*old(self)) ==> zones_conserved(*final(self)),
            events_bounded(*old(self)) ==> events_bounded(*final(self)),
            old(self).current_step is None ==> r == Err::<Step, StateError>(StateError::TurnNotStarted),
            r matches Ok(next) ==> final(self).current_step == Some(next),
            old(self).current_step is Some && old(self).current_step != Some(Step::Cleanup) && (following_step(
                *old(self),
                old(self).current_step->0,
            ) != Step::Draw || first_draw_skipped(*old(self)) || turn_draw_possible(*old(self)))
                && following_step(*old(self), old(self).current_step->0) != Step::Cleanup
                && sba_quiet(*old(self)) ==> r == Ok::<Step, StateError>(
                following_step(*old(self), old(self).current_step->0),
            ),
            step_can_end(*old(self)) ==> r is Ok,
            r is Ok && !(old(self).current_step == Some(Step::Cleanup) && !old(self).cleanup_repeat_pending)
                ==> r->Ok_0 == following_step(*old(self), old(self).current_step->0),
            r is Ok && old(self).current_step == Some(Step::End) ==> final(self).last_cleanup_report
                == cleanup_report_from(
                *old(self),
                markers_without(old(self).duration_markers@, EffectDuration::UntilStepBegins(Step::Cleanup)),
            ),
            r == Ok::<Step, StateError>(Step::Draw) && !first_draw_skipped(*old(self)) ==> drew_turn_card(
                old(self).zones@,
                final(self).zones@,
                old(self).active_player->0,
            ),
    {
        self.advance_step_after_empty_stack()
    }

    /// Starts a turn for the chosen active player at the untap step. Once a
    /// starting player is decided, the first turn must be theirs and every
    /// opening hand must be drawn and kept.
    pub fn start_turn(&mut self, active_player: PlayerId) -> (r: Result<(), StateError>)
        ensures
            zones_conserved(*old(self)) ==> zones_conserved(*final(self)),
            events_bounded(*old(self)) ==> events_bounded(*final(self)),
            active_player.0 >= old(self).players@.len() ==> r == Err::<(), StateError>(
                StateError::UnknownPlayer(active_player),
            ),
            active_player.0 < old(self).players@.len() && old(self).starting_player is Some && old(self).starting_player != Some(active_player) ==> r == Err::<(), StateError>(
                StateError::StartingPlayerMismatch {
                    expected: old(self).starting_player->0,
                    actual: active_player,
                },
            ),
            active_player.0 < old(self).players@.len() && old(self).starting_player is None
                && old(self).current_step is Some ==> r == Err::<(), StateError>(
                StateError::TurnAlreadyStarted,
            ),
            r is Ok ==> final(self).active_player == Some(active_player) && final(self).current_step
                == Some(Step::Untap) && old(self).turn_number < u32::MAX && final(self).turn_number
                == old(self).turn_number + 1 && final(self).priority_player is None,
            r is Ok ==> old(self).current_step is None,
            active_player.0 < old(self).players@.len() && (old(self).starting_player is None || (old(
                self,
            ).starting_player == Some(active_player) && old(self).opening_hands_drawn && forall|i: int|
                0 <= i < old(self).players@.len() ==> (#[trigger] old(self).players@[i]).opening_hand_kept))
                && old(self).current_step is None && old(self).turn_number < u32::MAX ==> r is Ok,
    {
        match self.require_player(active_player) {
            Ok(()) => {},
            Err(e) => return Err(e),
        }
        if let Some(starting_player) = self.starting_player {
            if active_player != starting_player {
                return Err(
                    StateError::StartingPlayerMismatch { expected: starting_player, actual: active_player },
                );
            }
            if !self.opening_hands_drawn {
                return Err(StateError::OpeningHandsNotDrawn);
            }
            let mut i: usize = 0;
            while i < self.players.len()
                invariant
                    i <= self.players@.len(),
                    *self == *old(self),
                    active_player.0 < self.players@.len(),
                    self.starting_player == Some(active_player),
                decreases self.players@.len() - i,
            {
                if !self.players[i].opening_hand_kept {
                    return Err(StateError::OpeningHandKeepPending(self.players[i].id));
                }
                i = i + 1;
            }
        }
        if self.current_step.is_some() {
            return Err(StateError::TurnAlreadyStarted);
        }
        self.active_player = Some(active_player);
        self.priority_player = None;
        self.priority_pass_count = 0;
        self.turn_number = match self.turn_number.checked_add(1) {
            Some(t) => t,
            None => return Err(StateError::TurnNumberOverflow),
        };
        self.cleanup_iteration = 0;
        self.attackers_declared_this_combat = false;
        self.loyalty_activations_this_turn.clear();
        self.reset_turn_events();
        let turn = self.turn_number;
        self.emit_event(GameEvent::TurnStarted { turn, active_player });
        self.begin_step(Step::Untap)
    }

    /// Passes priority. Until every player has passed in succession it moves
    /// to the next player in turn order; then the top of the stack resolves,
    /// or with an empty stack the step ends.
    pub fn pass_priority(&mut self, player: PlayerId) -> (r: Result<PriorityOutcome, StateError>)
        requires
            old(self).pending_triggers@.len() == 0 && old(self).priority_player == Some(player) ==> {
                &&& old(self).priority_pass_count < u32::MAX
                &&& old(self).players@.len() <= u32::MAX
                &&& player.0 < u32::MAX
            },
        ensures
            zones_conserved(*old(self)) ==> zones_conserved(*final(self)),
            events_bounded(*old(self)) ==> events_bounded(*final(self)),
            old(self).pending_triggers@.len() > 0 ==> r == Err::<PriorityOutcome, StateError>(
                StateError::PendingTriggeredAbilities,
            ),
            old(self).pending_triggers@.len() == 0 && old(self).priority_player is None ==> r
                == Err::<PriorityOutcome, StateError>(StateError::NoPriority),
            old(self).pending_triggers@.len() == 0 && old(self).priority_player is Some && old(self).priority_player != Some(player) ==> r == Err::<PriorityOutcome, StateError>(
                StateError::PriorityPlayerMismatch {
                    expected: old(self).priority_player->0,
                    actual: player,
                },
            ),
            old(self).pending_triggers@.len() == 0 && old(self).priority_player == Some(player)
                && old(self).priority_pass_count + 1 < old(self).players@.len() ==> {
                let next = if player.0 + 1 == old(self).players@.len() {
                    PlayerId(0)
                } else {
                    PlayerId((player.0 + 1) as u32)
                };
                &&& r == Ok::<PriorityOutcome, StateError>(PriorityOutcome::PassedTo(next))
                &&& *final(self) == (GameState {
                    priority_player: Some(next),
                    priority_pass_count: (old(self).priority_pass_count + 1) as u32,
                    ..*old(self)
                })
            },
            old(self).pending_triggers@.len() == 0 && old(self).priority_player == Some(player)
                && old(self).priority_pass_count + 1 >= old(self).players@.len() && old(self).stack_entries@.len() == 0 && r is Ok ==> r == Ok::<PriorityOutcome, StateError>(
                PriorityOutcome::StepComplete,
            ),
            old(self).pending_triggers@.len() == 0 && old(self).priority_player == Some(player)
                && old(self).priority_pass_count + 1 >= old(self).players@.len() && old(self).stack_entries@.len() > 0 && r is Ok ==> r == Ok::<PriorityOutcome, StateError>(
                PriorityOutcome::Resolved(old(self).stack_entries@.last().id),
            ),
            old(self).pending_triggers@.len() == 0 && old(self).priority_player == Some(player)
                && old(self).priority_pass_count + 1 >= old(self).players@.len() && r is Ok ==> round_completed(
                *old(self),
                *final(self),
            ),
            old(self).pending_triggers@.len() == 0 && old(self).priority_player == Some(player)
                && old(self).priority_pass_count + 1 >= old(self).players@.len() && step_ends_cleanly(*old(self))
                ==> r == Ok::<PriorityOutcome, StateError>(PriorityOutcome::StepComplete),
            old(self).pending_triggers@.len() == 0 && old(self).priority_player == Some(player)
                && old(self).priority_pass_count + 1 >= old(self).players@.len() && top_resolves_cleanly(*old(self))
                ==> r == Ok::<PriorityOutcome, StateError>(
                PriorityOutcome::Resolved(old(self).stack_entries@.last().id),
            ),
    {
        let ghost start = *self;
        if self.pending_triggers.len() > 0 {
            return Err(StateError::PendingTriggeredAbilities);
        }
        let priority_player = match self.priority_player {
            Some(p) => p,
            None => return Err(StateError::NoPriority),
        };
        if priority_player != player {
            return Err(StateError::PriorityPlayerMismatch { expected: priority_player, actual: player });
        }
        self.priority_pass_count = self.priority_pass_count + 1;
        let player_count = self.players.len() as u32;
        if self.priority_pass_count < player_count {
            let next_index = player.0 + 1;
            let next_index = if next_index == player_count {
                0
            } else {
                next_index
            };
            let next = PlayerId(next_index);
            self.priority_player = Some(next);
            return Ok(PriorityOutcome::PassedTo(next));
        }
        self.priority_pass_count = 0;
        proof {
            if sba_quiet(start) {
                lemma_sba_quiet_kept(start, *self);
            }
        }
        if self.stack_entries.len() == 0 {
            match self.advance_step_after_empty_stack() {
                Ok(_) => {},
                Err(e) => return Err(e),
            }
            Ok(PriorityOutcome::StepComplete)
        } else {
            let ghost pre = *self;
            let resolved = match self.resolve_top_stack_entry() {
                Ok(id) => id,
                Err(e) => return Err(e),
            };
            proof {
                if ids_match_positions(start) && zones_conserved(start) && owners_have_graveyards(start) && sba_measure(
                    start,
                ) + 1 < SBA_FIXPOINT_LIMIT {
                    assert(pre == GameState { priority_pass_count: 0, ..start });
                    lemma_settle_frame_settles(pre, *self, 1);
                }
            }
            match self.grant_priority_after_resolution() {
                Ok(()) => {},
                Err(e) => return Err(e),
            }
            Ok(PriorityOutcome::Resolved(resolved))
        }
    }
}

} // verus!
