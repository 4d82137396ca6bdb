//! State-based actions: collection in rule order, application, the
//! fixpoint runner and the game outcome that follows from who has lost.

use vstd::prelude::*;

use crate::events::GameEvent;
use crate::ids::{ObjectId, PlayerId};
use crate::outcome::{
    GameOutcome, SBA_FIXPOINT_LIMIT, StateBasedActionKind, StateBasedActionReport,
    sat_inc, state_based_action_table,
};
use crate::layers::{creature_of, lemma_characteristics_ignore_marks, same_but_marks_and_tapping};
use crate::plumbing::{
    contains_player, count_in, events_bounded, first_zone_holding, lemma_conserved_one_zone, lemma_count_in_positive, zone_occurrences,
    zone_id_valid, zone_move, zone_of, zone_position, zones_conserved,
};
use crate::state::{GameState, ObjectRecord, PendingStateBasedAction, PlayerState, StateError, Zone, same_but_events};
use crate::turn::{ZoneId, ZoneKind};

verus! {

/// IDs of the players who have not lost, in arena order.
pub open spec fn remaining_ids(players: Seq<PlayerState>) -> Seq<PlayerId>
    decreases players.len(),
{
    if players.len() == 0 {
        Seq::empty()
    } else {
        let rest = remaining_ids(players.drop_last());
        if players.last().lost {
            rest
        } else {
            rest.push(players.last().id)
        }
    }
}

/// The game outcome implied by which players have lost.
pub open spec fn outcome_for(players: Seq<PlayerState>) -> GameOutcome {
    let remaining = remaining_ids(players);
    if players.len() == 0 || remaining.len() == players.len() || remaining.len() > 1 {
        GameOutcome::InProgress
    } else if remaining.len() == 1 {
        GameOutcome::Won(remaining[0])
    } else {
        GameOutcome::Draw
    }
}

/// `action` is a loss for `player`.
pub open spec fn is_loss_of(action: PendingStateBasedAction, player: PlayerId) -> bool {
    match action {
        PendingStateBasedAction::PlayerLoses { player: p, .. } => p == player,
        _ => false,
    }
}

/// `action` is a graveyard move of `object`.
pub open spec fn is_move_of(action: PendingStateBasedAction, object: ObjectId) -> bool {
    match action {
        PendingStateBasedAction::MovePermanentToGraveyard { object: o, .. } => o == object,
        _ => false,
    }
}

/// The pending actions already hold a loss for `player`.
pub open spec fn has_loss_for(actions: Seq<PendingStateBasedAction>, player: PlayerId) -> bool {
    exists|i: int|
        0 <= i < actions.len() && #[trigger] is_loss_of(actions[i], player)
}

/// The pending actions already hold a graveyard move for `object`.
pub open spec fn has_move_for(actions: Seq<PendingStateBasedAction>, object: ObjectId) -> bool {
    exists|i: int|
        0 <= i < actions.len() && #[trigger] is_move_of(actions[i], object)
}

/// Every player still in the game has positive life and fewer than ten
/// poison counters.
pub open spec fn no_player_loss_pending(players: Seq<PlayerState>) -> bool {
    forall|i: int|
        0 <= i < players.len() && !(#[trigger] players[i]).lost ==> players[i].life > 0
            && players[i].poison < 10
}

/// The objects in the battlefield zone, in order (none when there is no
/// battlefield).
pub open spec fn battlefield_objects(state: GameState) -> Seq<ObjectId> {
    match zone_position(state.zones@, ZoneId { owner: None, kind: ZoneKind::Battlefield }) {
        Some(i) => state.zones@[i].objects@,
        None => Seq::empty(),
    }
}

/// The creature state-based action `kind` applies to the permanent with
/// record `record`: toughness zero or less, lethal damage marked, or
/// deathtouch damage marked.
pub open spec fn creature_sba_applies(state: GameState, record: ObjectRecord, kind: StateBasedActionKind) -> bool {
    match creature_of(state, record.id) {
        Err(_) => false,
        Ok(creature) => match kind {
            StateBasedActionKind::CreatureZeroOrLessToughness => creature.toughness <= 0,
            StateBasedActionKind::CreatureLethalDamage => creature.toughness > 0 && record.damage_marked > 0
                && record.damage_marked >= creature.toughness as u32,
            StateBasedActionKind::CreatureDeathtouchDamage => creature.toughness > 0
                && record.deathtouch_damage_marked,
            _ => false,
        },
    }
}

/// Every battlefield permanent to which `kind` applies has a graveyard
/// move among `actions`.
pub open spec fn creature_moves_pending(
    state: GameState,
    actions: Seq<PendingStateBasedAction>,
    kind: StateBasedActionKind,
) -> bool {
    forall|k: int|
        0 <= k < battlefield_objects(state).len() ==> match state.objects.spec_get(
            #[trigger] battlefield_objects(state)[k],
        ) {
            Some(record) => creature_sba_applies(state, record, kind) ==> has_move_for(actions, record.id),
            None => true,
        }
}

/// No creature on the battlefield is due to die: none has toughness zero or
/// less, lethal damage or deathtouch damage.
pub open spec fn no_creature_death_pending(state: GameState) -> bool {
    forall|k: int|
        0 <= k < battlefield_objects(state).len() ==> match state.objects.spec_get(
            #[trigger] battlefield_objects(state)[k],
        ) {
            Some(record) => {
                &&& !creature_sba_applies(state, record, StateBasedActionKind::CreatureZeroOrLessToughness)
                &&& !creature_sba_applies(state, record, StateBasedActionKind::CreatureLethalDamage)
                &&& !creature_sba_applies(state, record, StateBasedActionKind::CreatureDeathtouchDamage)
            },
            None => true,
        }
}

/// With no creature death pending, every creature on the battlefield has
/// positive toughness, less damage marked on it than its toughness, and no
/// damage from a source with deathtouch.
pub proof fn lemma_surviving_creatures_are_healthy(state: GameState, object: ObjectId)
    requires
        no_creature_death_pending(state),
        battlefield_objects(state).contains(object),
        state.objects.spec_get(object) is Some,
        state.objects.spec_get(object)->0.id == object,
        creature_of(state, object) is Ok,
    ensures
        ({
            let record = state.objects.spec_get(object)->0;
            let creature = creature_of(state, object)->Ok_0;
            &&& creature.toughness > 0
            &&& (record.damage_marked as int) < (creature.toughness as int)
            &&& !record.deathtouch_damage_marked
        }),
{
    let k = choose|k: int| 0 <= k < battlefield_objects(state).len() && battlefield_objects(state)[k] == object;
    assert(battlefield_objects(state)[k] == object);
}

/// Some player still in the game drew from an empty library since the last
/// check.
pub open spec fn empty_draw_loss_due(state: GameState) -> bool {
    exists|j: int|
        0 <= j < state.empty_library_draws_since_sba@.len() && #[trigger] state.empty_library_draws_since_sba@[j].0
            < state.players@.len() && !state.players@[state.empty_library_draws_since_sba@[j].0 as int].lost
}

/// No state-based action applies: nobody is due to lose and no creature is
/// due to die.
pub open spec fn sba_quiet(state: GameState) -> bool {
    &&& no_player_loss_pending(state.players@)
    &&& !empty_draw_loss_due(state)
    &&& no_creature_death_pending(state)
}

/// Whether a state-based action applies reads only the players, the
/// empty-library draws, the zones, the objects and the continuous effects.
pub proof fn lemma_sba_quiet_kept(a: GameState, b: GameState)
    requires
        sba_quiet(a),
        b.players@ == a.players@,
        b.empty_library_draws_since_sba@ == a.empty_library_draws_since_sba@,
        b.zones@ == a.zones@,
        b.objects.records@ == a.objects.records@,
        b.continuous_effects@ == a.continuous_effects@,
    ensures
        sba_quiet(b),
{
    assert(battlefield_objects(b) == battlefield_objects(a));
    assert forall|o: ObjectId| creature_of(b, o) == creature_of(a, o) by {
        lemma_characteristics_ignore_marks(a, b, o);
    }
}

/// Changing players' mana pools changes no state-based action.
pub proof fn lemma_sba_quiet_mana(a: GameState, b: GameState)
    requires
        sba_quiet(a),
        b.players@.len() == a.players@.len(),
        forall|i: int|
            0 <= i < a.players@.len() ==> #[trigger] b.players@[i] == (PlayerState {
                mana_pool: b.players@[i].mana_pool,
                ..a.players@[i]
            }),
        b.empty_library_draws_since_sba@ == a.empty_library_draws_since_sba@,
        b.zones@ == a.zones@,
        b.objects.records@ == a.objects.records@,
        b.continuous_effects@ == a.continuous_effects@,
    ensures
        sba_quiet(b),
{
    assert(battlefield_objects(b) == battlefield_objects(a));
    assert forall|o: ObjectId| creature_of(b, o) == creature_of(a, o) by {
        lemma_characteristics_ignore_marks(a, b, o);
    }
    assert forall|i: int| 0 <= i < b.players@.len() && !(#[trigger] b.players@[i]).lost implies b.players@[i].life
        > 0 && b.players@[i].poison < 10 by {
        assert(b.players@[i].life == a.players@[i].life);
    }
    if empty_draw_loss_due(b) {
        let j = choose|j: int|
            0 <= j < b.empty_library_draws_since_sba@.len() && #[trigger] b.empty_library_draws_since_sba@[j].0
                < b.players@.len() && !b.players@[b.empty_library_draws_since_sba@[j].0 as int].lost;
        assert(b.players@[b.empty_library_draws_since_sba@[j].0 as int].lost == a.players@[b.empty_library_draws_since_sba@[j].0 as int].lost);
    }
}

/// Zones with the same IDs in the same places find each ID at the same place.
pub proof fn lemma_zone_position_same_ids(x: Seq<Zone>, y: Seq<Zone>, id: ZoneId)
    requires
        x.len() == y.len(),
        forall|j: int| 0 <= j < x.len() ==> #[trigger] y[j].id == x[j].id,
    ensures
        zone_position(x, id) == zone_position(y, id),
        zone_position(x, id) matches Some(i) ==> 0 <= i < x.len() && x[i].id == id,
{
    reveal(zone_position);
    if exists|i: int| 0 <= i < x.len() && x[i].id == id {
        let w = choose|i: int| 0 <= i < x.len() && x[i].id == id;
        assert(y[w].id == id);
        lemma_first_with_id(x, id, w);
        let i1 = choose|i: int|
            0 <= i < x.len() && x[i].id == id && (forall|j: int| 0 <= j < i ==> x[j].id != id);
        lemma_first_with_id(y, id, w);
        let i2 = choose|i: int|
            0 <= i < y.len() && y[i].id == id && (forall|j: int| 0 <= j < i ==> y[j].id != id);
        if i1 < i2 {
            assert(y[i1].id == id);
        } else if i2 < i1 {
            assert(x[i2].id == id);
        }
    } else {
        assert forall|i: int| 0 <= i < y.len() implies y[i].id != id by {
            assert(y[i].id == x[i].id);
        }
    }
}

/// A zone with ID `id` at `w` means there is a first one.
proof fn lemma_first_with_id(zones: Seq<Zone>, id: ZoneId, w: int)
    requires
        0 <= w < zones.len(),
        zones[w].id == id,
    ensures
        exists|i: int| 0 <= i < zones.len() && zones[i].id == id && (forall|j: int| 0 <= j < i ==> zones[j].id != id),
    decreases w,
{
    if exists|j: int| 0 <= j < w && zones[j].id == id {
        let j = choose|j: int| 0 <= j < w && zones[j].id == id;
        lemma_first_with_id(zones, id, j);
    } else {
        assert(0 <= w < zones.len() && zones[w].id == id && (forall|j: int| 0 <= j < w ==> zones[j].id != id));
    }
}

/// Moving an object between two zones other than the battlefield changes no
/// state-based action.
pub proof fn lemma_sba_quiet_move_off_battlefield(
    a: GameState,
    b: GameState,
    object: ObjectId,
    to: ZoneId,
    fi: int,
    ti: int,
    pos: int,
)
    requires
        sba_quiet(a),
        zone_move(a.zones@, b.zones@, object, to, fi, ti, pos),
        a.zones@[fi].id != (ZoneId { owner: None, kind: ZoneKind::Battlefield }),
        to != (ZoneId { owner: None, kind: ZoneKind::Battlefield }),
        b.players@ == a.players@,
        b.empty_library_draws_since_sba@ == a.empty_library_draws_since_sba@,
        b.objects.records@ == a.objects.records@,
        b.continuous_effects@ == a.continuous_effects@,
    ensures
        sba_quiet(b),
{
    let field = ZoneId { owner: None, kind: ZoneKind::Battlefield };
    if a.zones@[fi].id != to {
        assert forall|j: int| 0 <= j < a.zones@.len() implies #[trigger] b.zones@[j].id == a.zones@[j].id by {
            if j != fi && j != ti {
                assert(b.zones@[j] == a.zones@[j]);
            }
        }
        lemma_zone_position_same_ids(a.zones@, b.zones@, field);
        if let Some(i) = zone_position(a.zones@, field) {
            assert(a.zones@[i].id == field);
            assert(i != fi && i != ti);
            assert(b.zones@[i] == a.zones@[i]);
        }
    }
    assert(battlefield_objects(b) == battlefield_objects(a));
    assert forall|o: ObjectId| creature_of(b, o) == creature_of(a, o) by {
        lemma_characteristics_ignore_marks(a, b, o);
    }
    assert forall|i: int| 0 <= i < b.players@.len() && !(#[trigger] b.players@[i]).lost implies b.players@[i].life
        > 0 && b.players@[i].poison < 10 by {
        assert(b.players@[i].life == a.players@[i].life);
    }
}

/// State-based actions read no zone but the battlefield: changing the other
/// zones, with every zone keeping its place, changes none.
pub proof fn lemma_sba_quiet_off_battlefield(a: GameState, b: GameState)
    requires
        sba_quiet(a),
        b.players@ == a.players@,
        b.empty_library_draws_since_sba@ == a.empty_library_draws_since_sba@,
        b.objects.records@ == a.objects.records@,
        b.continuous_effects@ == a.continuous_effects@,
        b.zones@.len() == a.zones@.len(),
        forall|j: int| 0 <= j < a.zones@.len() ==> #[trigger] b.zones@[j].id == a.zones@[j].id,
        forall|j: int|
            0 <= j < a.zones@.len() && a.zones@[j].id.kind == ZoneKind::Battlefield ==> #[trigger] b.zones@[j]
                == a.zones@[j],
    ensures
        sba_quiet(b),
{
    let field = ZoneId { owner: None, kind: ZoneKind::Battlefield };
    lemma_zone_position_same_ids(a.zones@, b.zones@, field);
    if let Some(i) = zone_position(a.zones@, field) {
        assert(a.zones@[i].id == field);
        assert(b.zones@[i] == a.zones@[i]);
    }
    assert(battlefield_objects(b) == battlefield_objects(a));
    assert forall|o: ObjectId| creature_of(b, o) == creature_of(a, o) by {
        lemma_characteristics_ignore_marks(a, b, o);
    }
}

/// Tapping or untapping objects changes no state-based action.
pub proof fn lemma_sba_quiet_tapping(a: GameState, b: GameState)
    requires
        sba_quiet(a),
        b.players@ == a.players@,
        b.empty_library_draws_since_sba@ == a.empty_library_draws_since_sba@,
        b.zones@ == a.zones@,
        b.continuous_effects@ == a.continuous_effects@,
        b.objects.records@.len() == a.objects.records@.len(),
        forall|i: int|
            0 <= i < a.objects.records@.len() ==> #[trigger] b.objects.records@[i] == (ObjectRecord {
                tapped: b.objects.records@[i].tapped,
                ..a.objects.records@[i]
            }),
    ensures
        sba_quiet(b),
{
    assert(battlefield_objects(b) == battlefield_objects(a));
    assert forall|o: ObjectId| creature_of(b, o) == creature_of(a, o) by {
        lemma_characteristics_ignore_marks(a, b, o);
    }
    assert forall|k: int| 0 <= k < battlefield_objects(b).len() implies match b.objects.spec_get(
        #[trigger] battlefield_objects(b)[k],
    ) {
        Some(record) => {
            &&& !creature_sba_applies(b, record, StateBasedActionKind::CreatureZeroOrLessToughness)
            &&& !creature_sba_applies(b, record, StateBasedActionKind::CreatureLethalDamage)
            &&& !creature_sba_applies(b, record, StateBasedActionKind::CreatureDeathtouchDamage)
        },
        None => true,
    } by {
        let o = battlefield_objects(b)[k];
        assert(battlefield_objects(a)[k] == o);
        if o.0 < b.objects.records@.len() {
            assert(b.objects.records@[o.0 as int].id == a.objects.records@[o.0 as int].id);
        }
    }
}

/// Pending graveyard moves stay pending when actions are only added.
proof fn lemma_moves_stay_pending(
    state: GameState,
    a: Seq<PendingStateBasedAction>,
    b: Seq<PendingStateBasedAction>,
    kind: StateBasedActionKind,
)
    requires
        a.len() <= b.len(),
        forall|k: int| 0 <= k < a.len() ==> #[trigger] b[k] == a[k],
        creature_moves_pending(state, a, kind),
    ensures
        creature_moves_pending(state, b, kind),
{
    assert forall|k: int| 0 <= k < battlefield_objects(state).len() implies match state.objects.spec_get(
        #[trigger] battlefield_objects(state)[k],
    ) {
        Some(record) => creature_sba_applies(state, record, kind) ==> has_move_for(b, record.id),
        None => true,
    } by {
        match state.objects.spec_get(battlefield_objects(state)[k]) {
            Some(record) => {
                if creature_sba_applies(state, record, kind) {
                    let w = choose|w: int| 0 <= w < a.len() && #[trigger] is_move_of(a[w], record.id);
                    assert(b[w] == a[w]);
                }
            },
            None => {},
        }
    }
}

/// Player `i` has ID `i`, and arena record `i` has ID `i`.
pub open spec fn ids_match_positions(state: GameState) -> bool {
    &&& forall|i: int| 0 <= i < state.players@.len() ==> (#[trigger] state.players@[i]).id.0 == i
    &&& forall|i: int|
        0 <= i < state.objects.records@.len() ==> (#[trigger] state.objects.records@[i]).id.0 == i
}

/// Every object's owner has a seat and a graveyard.
pub open spec fn owners_have_graveyards(state: GameState) -> bool {
    forall|i: int|
        0 <= i < state.objects.records@.len() ==> {
            let owner = (#[trigger] state.objects.records@[i]).owner;
            &&& owner.0 < state.players@.len()
            &&& exists|j: int|
                0 <= j < state.zones@.len() && #[trigger] state.zones@[j].id == (ZoneId {
                    owner: Some(owner),
                    kind: ZoneKind::Graveyard,
                })
        }
}

/// How many of `players` are still in the game.
pub open spec fn players_in_game(players: Seq<PlayerState>) -> nat
    decreases players.len(),
{
    if players.len() == 0 {
        0
    } else {
        players_in_game(players.drop_last()) + if players.last().lost {
            0nat
        } else {
            1nat
        }
    }
}

/// What every round of state-based actions that does something reduces:
/// the players still in the game plus the permanents on the battlefield.
pub open spec fn sba_measure(state: GameState) -> nat {
    players_in_game(state.players@) + battlefield_objects(state).len()
}

/// State-based actions are sure to settle within the round limit: IDs match
/// positions, zones are conserved, every owner has a graveyard, and fewer
/// players and permanents remain than there are rounds.
pub open spec fn sba_settles(state: GameState) -> bool {
    &&& ids_match_positions(state)
    &&& zones_conserved(state)
    &&& owners_have_graveyards(state)
    &&& sba_measure(state) < SBA_FIXPOINT_LIMIT
}

/// Player `p` is due to lose in `state`: zero or less life, ten or more
/// poison counters, or a draw from an empty library since the last check.
pub open spec fn player_due_to_lose(state: GameState, p: PlayerId) -> bool {
    &&& p.0 < state.players@.len()
    &&& state.players@[p.0 as int].life <= 0 || state.players@[p.0 as int].poison >= 10
        || state.empty_library_draws_since_sba@.contains(p)
}

/// A pending action that applies to `state`: a loss for a seated player
/// still in the game, or a move of a permanent on the battlefield.
pub open spec fn sba_action_applies(state: GameState, action: PendingStateBasedAction) -> bool {
    match action {
        PendingStateBasedAction::PlayerLoses { player, .. } => player.0 < state.players@.len()
            && !state.players@[player.0 as int].lost,
        PendingStateBasedAction::MovePermanentToGraveyard { object, .. } => battlefield_objects(state).contains(object),
    }
}

/// A pending action that applies to `state` and is called for: a loss only
/// for a player due to lose.
pub open spec fn sba_action_sound(state: GameState, action: PendingStateBasedAction) -> bool {
    &&& sba_action_applies(state, action)
    &&& action matches PendingStateBasedAction::PlayerLoses { player, .. } ==> player_due_to_lose(state, player)
}

/// Marking players lost never brings one back into the game, and marking a
/// player still in it takes one out.
proof fn lemma_players_in_game_le(a: Seq<PlayerState>, b: Seq<PlayerState>, i: int)
    requires
        a.len() == b.len(),
        forall|k: int| 0 <= k < a.len() ==> (#[trigger] a[k]).lost ==> b[k].lost,
    ensures
        players_in_game(b) <= players_in_game(a),
        0 <= i < a.len() && !a[i].lost && b[i].lost ==> players_in_game(b) < players_in_game(a),
    decreases a.len(),
{
    if a.len() > 0 {
        let n = a.len() - 1;
        assert forall|k: int| 0 <= k < n && (#[trigger] a.drop_last()[k]).lost implies b.drop_last()[k].lost by {
            assert(a.drop_last()[k] == a[k]);
            assert(b.drop_last()[k] == b[k]);
        }
        if 0 <= i < n {
            assert(a.drop_last()[i] == a[i] && b.drop_last()[i] == b[i]);
        }
        lemma_players_in_game_le(a.drop_last(), b.drop_last(), i);
        assert(a[n] == a.last() && b[n] == b.last());
    }
}

/// What state-based actions leave alone keeps IDs matched to positions and
/// owners' graveyards in place, and never raises the measure.
proof fn lemma_sba_frame_keeps_settling(a: GameState, b: GameState)
    requires
        sba_frame(a, b),
    ensures
        ids_match_positions(a) ==> ids_match_positions(b),
        owners_have_graveyards(a) ==> owners_have_graveyards(b),
        sba_measure(b) <= sba_measure(a),
{
    lemma_players_in_game_le(a.players@, b.players@, 0);
    if ids_match_positions(a) {
        assert forall|i: int| 0 <= i < b.players@.len() implies (#[trigger] b.players@[i]).id.0 == i by {
            assert(b.players@[i].id == a.players@[i].id);
        }
        assert forall|i: int| 0 <= i < b.objects.records@.len() implies (#[trigger] b.objects.records@[i]).id.0
            == i by {
            assert(b.objects.records@[i].tapped == a.objects.records@[i].tapped);
        }
    }
    if owners_have_graveyards(a) {
        assert forall|i: int| 0 <= i < b.objects.records@.len() implies {
            let owner = (#[trigger] b.objects.records@[i]).owner;
            &&& owner.0 < b.players@.len()
            &&& exists|j: int|
                0 <= j < b.zones@.len() && #[trigger] b.zones@[j].id == (ZoneId {
                    owner: Some(owner),
                    kind: ZoneKind::Graveyard,
                })
        } by {
            assert(b.objects.records@[i].tapped == a.objects.records@[i].tapped);
            let owner = a.objects.records@[i].owner;
            let j = choose|j: int|
                0 <= j < a.zones@.len() && #[trigger] a.zones@[j].id == (ZoneId {
                    owner: Some(owner),
                    kind: ZoneKind::Graveyard,
                });
            assert(b.zones@[j].id == a.zones@[j].id);
        }
    }
}

/// Marking one player still in the game as lost takes exactly one out.
proof fn lemma_players_in_game_mark(a: Seq<PlayerState>, b: Seq<PlayerState>, i: int)
    requires
        a.len() == b.len(),
        0 <= i < a.len(),
        !a[i].lost,
        b[i].lost,
        forall|k: int| 0 <= k < a.len() && k != i ==> #[trigger] b[k].lost == a[k].lost,
    ensures
        players_in_game(b) + 1 == players_in_game(a),
    decreases a.len(),
{
    let n = a.len() - 1;
    if i < n {
        assert forall|k: int| 0 <= k < n && k != i implies #[trigger] b.drop_last()[k].lost == a.drop_last()[k].lost by {
            assert(a.drop_last()[k] == a[k] && b.drop_last()[k] == b[k]);
        }
        assert(a.drop_last()[i] == a[i] && b.drop_last()[i] == b[i]);
        lemma_players_in_game_mark(a.drop_last(), b.drop_last(), i);
        assert(b[n].lost == a[n].lost);
    } else {
        lemma_players_in_game_same(a.drop_last(), b.drop_last());
    }
}

proof fn lemma_players_in_game_same(a: Seq<PlayerState>, b: Seq<PlayerState>)
    requires
        a.len() == b.len(),
        forall|k: int| 0 <= k < a.len() ==> #[trigger] b[k].lost == a[k].lost,
    ensures
        players_in_game(b) == players_in_game(a),
    decreases a.len(),
{
    if a.len() > 0 {
        let n = a.len() - 1;
        assert forall|k: int| 0 <= k < n implies #[trigger] b.drop_last()[k].lost == a.drop_last()[k].lost by {
            assert(a.drop_last()[k] == a[k] && b.drop_last()[k] == b[k]);
        }
        lemma_players_in_game_same(a.drop_last(), b.drop_last());
        assert(b[n].lost == a[n].lost);
    }
}

proof fn lemma_players_in_game_bound(a: Seq<PlayerState>)
    ensures
        players_in_game(a) <= a.len(),
    decreases a.len(),
{
    if a.len() > 0 {
        lemma_players_in_game_bound(a.drop_last());
    }
}

/// `b` keeps what decides whether state-based actions settle: the seats and
/// who is still in the game, the arena's IDs and owners, the zone IDs and
/// their conservation; the battlefield gains at most `extra` permanents.
pub open spec fn settle_frame(a: GameState, b: GameState, extra: int) -> bool {
    &&& b.players@.len() == a.players@.len()
    &&& forall|i: int|
        0 <= i < a.players@.len() ==> #[trigger] b.players@[i].id == a.players@[i].id && b.players@[i].lost
            == a.players@[i].lost
    &&& b.objects.records@.len() == a.objects.records@.len()
    &&& forall|i: int|
        0 <= i < a.objects.records@.len() ==> #[trigger] b.objects.records@[i].id == a.objects.records@[i].id
            && b.objects.records@[i].owner == a.objects.records@[i].owner
    &&& b.zones@.len() == a.zones@.len()
    &&& forall|j: int| 0 <= j < a.zones@.len() ==> #[trigger] b.zones@[j].id == a.zones@[j].id
    &&& zones_conserved(a) ==> zones_conserved(b)
    &&& battlefield_objects(b).len() <= battlefield_objects(a).len() + extra
}

/// Frames compose, adding up what the battlefield may gain.
pub proof fn lemma_settle_frame_chain(a: GameState, b: GameState, c: GameState, x: int, y: int)
    requires
        settle_frame(a, b, x),
        settle_frame(b, c, y),
    ensures
        settle_frame(a, c, x + y),
{
}

/// A state that settles with room for `extra` more permanents still settles
/// after a change within `settle_frame`.
pub proof fn lemma_settle_frame_settles(a: GameState, b: GameState, extra: int)
    requires
        settle_frame(a, b, extra),
        ids_match_positions(a),
        zones_conserved(a),
        owners_have_graveyards(a),
        sba_measure(a) + extra < SBA_FIXPOINT_LIMIT,
    ensures
        sba_settles(b),
{
    assert forall|k: int| 0 <= k < a.players@.len() implies #[trigger] b.players@[k].lost == a.players@[k].lost by {
        assert(b.players@[k].id == a.players@[k].id);
    }
    lemma_players_in_game_same(a.players@, b.players@);
    assert forall|i: int| 0 <= i < b.players@.len() implies (#[trigger] b.players@[i]).id.0 == i by {
        assert(b.players@[i].id == a.players@[i].id);
    }
    assert forall|i: int| 0 <= i < b.objects.records@.len() implies (#[trigger] b.objects.records@[i]).id.0 == i by {
        assert(b.objects.records@[i].id == a.objects.records@[i].id);
    }
    assert forall|i: int| 0 <= i < b.objects.records@.len() implies {
        let owner = (#[trigger] b.objects.records@[i]).owner;
        &&& owner.0 < b.players@.len()
        &&& exists|j: int|
            0 <= j < b.zones@.len() && #[trigger] b.zones@[j].id == (ZoneId {
                owner: Some(owner),
                kind: ZoneKind::Graveyard,
            })
    } by {
        assert(b.objects.records@[i].owner == a.objects.records@[i].owner);
        let owner = a.objects.records@[i].owner;
        let j = choose|j: int|
            0 <= j < a.zones@.len() && #[trigger] a.zones@[j].id == (ZoneId {
                owner: Some(owner),
                kind: ZoneKind::Graveyard,
            });
        assert(b.zones@[j].id == a.zones@[j].id);
    }
}

/// Moving one object keeps the zone IDs and adds at most one permanent to
/// the battlefield.
pub proof fn lemma_zone_move_battlefield(
    a: Seq<Zone>,
    b: Seq<Zone>,
    object: ObjectId,
    to: ZoneId,
    fi: int,
    ti: int,
    pos: int,
)
    requires
        zone_move(a, b, object, to, fi, ti, pos),
    ensures
        b.len() == a.len(),
        forall|j: int| 0 <= j < a.len() ==> #[trigger] b[j].id == a[j].id,
        battlefield_list_len(b) <= battlefield_list_len(a) + 1,
{
    let field = ZoneId { owner: None, kind: ZoneKind::Battlefield };
    if a[fi].id != to {
        assert forall|j: int| 0 <= j < a.len() implies #[trigger] b[j].id == a[j].id by {
            if j != fi && j != ti {
                assert(b[j] == a[j]);
            }
        }
        lemma_zone_position_same_ids(a, b, field);
        if let Some(p) = zone_position(a, field) {
            if p != fi && p != ti {
                assert(b[p] == a[p]);
            }
        }
    }
}

/// The number of permanents in the battlefield zone of `zones`.
pub open spec fn battlefield_list_len(zones: Seq<Zone>) -> int {
    match zone_position(zones, ZoneId { owner: None, kind: ZoneKind::Battlefield }) {
        Some(i) => zones[i].objects@.len() as int,
        None => 0,
    }
}

/// Under conservation the zone that holds an object is the first to.
proof fn lemma_conserved_zone_of(zones: Seq<Zone>, object: ObjectId, p: int)
    requires
        zone_occurrences(zones, object.0 as int) <= 1,
        0 <= p < zones.len(),
        zones[p].objects@.contains(object),
    ensures
        first_zone_holding(zones, object, p),
        zone_of(zones, object) == Some(zones[p].id),
{
    let slot = object.0 as int;
    let k = choose|k: int| 0 <= k < zones[p].objects@.len() && zones[p].objects@[k] == object;
    lemma_count_in_positive(zones[p].objects@, k);
    assert forall|j: int| 0 <= j < p implies !(#[trigger] zones[j].objects@.contains(object)) by {
        if zones[j].objects@.contains(object) {
            let w = choose|w: int| 0 <= w < zones[j].objects@.len() && zones[j].objects@[w] == object;
            lemma_count_in_positive(zones[j].objects@, w);
            lemma_conserved_one_zone(zones, slot, j, p);
        }
    }
    assert(first_zone_holding(zones, object, p));
    let i = choose|i: int| first_zone_holding(zones, object, i);
    if i < p {
        assert(!zones[i].objects@.contains(object));
    } else if i > p {
        assert(!zones[p].objects@.contains(object));
    }
}

/// `b` agrees with `a` on everything state-based actions leave alone: the
/// turn structure, the stack and every registration table.
pub open spec fn sba_frame(a: GameState, b: GameState) -> bool {
    &&& b.seed == a.seed && b.rng_state == a.rng_state && b.turn_number == a.turn_number
    &&& b.starting_player == a.starting_player && b.opening_hands_drawn == a.opening_hands_drawn
    &&& b.active_player == a.active_player && b.current_step == a.current_step
    &&& b.cleanup_iteration == a.cleanup_iteration
    &&& b.cleanup_priority_requested == a.cleanup_priority_requested
    &&& b.cleanup_repeat_pending == a.cleanup_repeat_pending
    &&& b.last_cleanup_report == a.last_cleanup_report
    &&& b.resolution_log@ == a.resolution_log@
    &&& forall|j: int|
        0 <= j < a.zones@.len() && a.zones@[j].id.kind != ZoneKind::Battlefield && a.zones@[j].id.kind
            != ZoneKind::Graveyard ==> #[trigger] b.zones@[j] == a.zones@[j]
    &&& b.attackers_declared_this_combat == a.attackers_declared_this_combat
    &&& b.players@.len() == a.players@.len() && b.zones@.len() == a.zones@.len()
    &&& b.objects.records@.len() == a.objects.records@.len()
    &&& forall|i: int|
        0 <= i < a.objects.records@.len() ==> #[trigger] b.objects.records@[i].tapped == a.objects.records@[i].tapped
            && b.objects.records@[i].id == a.objects.records@[i].id && b.objects.records@[i].owner
            == a.objects.records@[i].owner
    &&& forall|j: int| 0 <= j < a.zones@.len() ==> #[trigger] b.zones@[j].id == a.zones@[j].id
    &&& battlefield_objects(b).len() <= battlefield_objects(a).len()
    &&& zones_conserved(a) ==> forall|o: ObjectId|
        #[trigger] battlefield_objects(b).contains(o) ==> battlefield_objects(a).contains(o) && (o.0
            < a.objects.records@.len() ==> b.objects.records@[o.0 as int].damage_marked
            == a.objects.records@[o.0 as int].damage_marked)
    &&& b.stack_entries@ == a.stack_entries@ && b.next_stack_entry == a.next_stack_entry
    &&& b.deferred_priority_player == a.deferred_priority_player
    &&& b.duration_markers@ == a.duration_markers@
    &&& b.activated_abilities@ == a.activated_abilities@
    &&& b.replacement_effects@ == a.replacement_effects@
    &&& b.continuous_effects@ == a.continuous_effects@
    &&& forall|i: int| 0 <= i < a.players@.len() ==> #[trigger] b.players@[i].id == a.players@[i].id
    &&& forall|i: int|
        0 <= i < a.players@.len() ==> (#[trigger] a.players@[i]).lost ==> b.players@[i].lost
    &&& forall|i: int|
        0 <= i < a.players@.len() ==> #[trigger] b.players@[i].life == a.players@[i].life
            && b.players@[i].poison == a.players@[i].poison && b.players@[i].mana_pool
            == a.players@[i].mana_pool
}

impl GameState {
    /// Adds a loss for `player` unless one is already pending.
    pub(crate) fn push_player_loss_sba(
        actions: &mut Vec<PendingStateBasedAction>,
        player: PlayerId,
        kind: StateBasedActionKind,
    )
        ensures
            has_loss_for(old(actions)@, player) ==> final(actions)@ == old(actions)@,
            !has_loss_for(old(actions)@, player) ==> final(actions)@ == old(actions)@.push(
                PendingStateBasedAction::PlayerLoses { player, kind },
            ),
    {
        let mut i: usize = 0;
        while i < actions.len()
            invariant
                i <= actions@.len(),
                actions@ == old(actions)@,
                forall|k: int|
                    0 <= k < i ==> !(#[trigger] is_loss_of(actions@[k], player)),
            decreases actions@.len() - i,
        {
            match actions[i] {
                PendingStateBasedAction::PlayerLoses { player: existing, .. } => {
                    if existing == player {
                        assert(is_loss_of(actions@[i as int], player));
                        return;
                    }
                },
                _ => {},
            }
            i = i + 1;
        }
        actions.push(PendingStateBasedAction::PlayerLoses { player, kind });
    }

    /// Adds a graveyard move for `object` unless one is already pending.
    pub(crate) fn push_permanent_graveyard_sba(
        actions: &mut Vec<PendingStateBasedAction>,
        object: ObjectId,
        kind: StateBasedActionKind,
    )
        ensures
            has_move_for(old(actions)@, object) ==> final(actions)@ == old(actions)@,
            !has_move_for(old(actions)@, object) ==> final(actions)@ == old(actions)@.push(
                PendingStateBasedAction::MovePermanentToGraveyard { object, kind },
            ),
    {
        let mut i: usize = 0;
        while i < actions.len()
            invariant
                i <= actions@.len(),
                actions@ == old(actions)@,
                forall|k: int|
                    0 <= k < i ==> !(#[trigger] is_move_of(actions@[k], object)),
            decreases actions@.len() - i,
        {
            match actions[i] {
                PendingStateBasedAction::MovePermanentToGraveyard { object: existing, .. } => {
                    if existing == object {
                        assert(is_move_of(actions@[i as int], object));
                        return;
                    }
                },
                _ => {},
            }
            i = i + 1;
        }
        actions.push(PendingStateBasedAction::MovePermanentToGraveyard { object, kind });
    }

    /// Adds a loss for each player still in the game at zero or less life.
    pub(crate) fn collect_life_total_sbas(&self, kind: StateBasedActionKind, actions: &mut Vec<
        PendingStateBasedAction,
    >)
        ensures
            forall|i: int|
                0 <= i < self.players@.len() && !self.players@[i].lost && (#[trigger] self.players@[i]).life
                    <= 0 ==> has_loss_for(final(actions)@, self.players@[i].id),
            forall|k: int|
                0 <= k < old(actions)@.len() ==> #[trigger] final(actions)@[k] == old(actions)@[k],
            old(actions)@.len() <= final(actions)@.len(),
            no_player_loss_pending(self.players@) ==> final(actions)@ == old(actions)@,
            ids_match_positions(*self) ==> forall|k: int|
                old(actions)@.len() <= k < final(actions)@.len() ==> sba_action_sound(*self, #[trigger] final(actions)@[k]),
    {
        let mut i: usize = 0;
        while i < self.players.len()
            invariant
                i <= self.players@.len(),
                no_player_loss_pending(self.players@) ==> actions@ == old(actions)@,
                ids_match_positions(*self) ==> forall|k: int|
                    old(actions)@.len() <= k < actions@.len() ==> sba_action_sound(*self, #[trigger] actions@[k]),
                forall|j: int|
                    0 <= j < i && !self.players@[j].lost && (#[trigger] self.players@[j]).life <= 0
                        ==> has_loss_for(actions@, self.players@[j].id),
                forall|k: int| 0 <= k < old(actions)@.len() ==> #[trigger] actions@[k] == old(actions)@[k],
                old(actions)@.len() <= actions@.len(),
            decreases self.players@.len() - i,
        {
            let player = &self.players[i];
            if !player.lost && player.life <= 0 {
                let ghost before = actions@;
                Self::push_player_loss_sba(actions, player.id, kind);
                proof {
                    if !has_loss_for(before, player.id) {
                        assert(is_loss_of(actions@[before.len() as int], player.id));
                    }
                    assert forall|j: int|
                        0 <= j < i && !self.players@[j].lost && (#[trigger] self.players@[j]).life
                            <= 0 implies has_loss_for(actions@, self.players@[j].id) by {
                        let w = choose|w: int|
                            0 <= w < before.len() && #[trigger] is_loss_of(before[w], self.players@[j].id);
                        assert(actions@[w] == before[w]);
                    }
                }
            }
            i = i + 1;
        }
    }

    /// Adds a loss for each player still in the game who drew from an empty
    /// library since the last check.
    pub(crate) fn collect_empty_library_sbas(&self, kind: StateBasedActionKind, actions: &mut Vec<
        PendingStateBasedAction,
    >)
        ensures
            forall|k: int|
                0 <= k < old(actions)@.len() ==> #[trigger] final(actions)@[k] == old(actions)@[k],
            old(actions)@.len() <= final(actions)@.len(),
            forall|j: int|
                0 <= j < self.empty_library_draws_since_sba@.len() && (
                #[trigger] self.empty_library_draws_since_sba@[j]).0 < self.players@.len()
                    && !self.players@[self.empty_library_draws_since_sba@[j].0 as int].lost ==> has_loss_for(
                    final(actions)@,
                    self.empty_library_draws_since_sba@[j],
                ),
            forall|k: int|
                old(actions)@.len() <= k < final(actions)@.len() ==> (#[trigger] final(actions)@[k] matches PendingStateBasedAction::PlayerLoses {
                    player,
                    kind: kd,
                } && kd == kind && self.empty_library_draws_since_sba@.contains(player)),
            !empty_draw_loss_due(*self) ==> final(actions)@ == old(actions)@,
            ids_match_positions(*self) ==> forall|k: int|
                old(actions)@.len() <= k < final(actions)@.len() ==> sba_action_sound(*self, #[trigger] final(actions)@[k]),
    {
        let mut i: usize = 0;
        while i < self.empty_library_draws_since_sba.len()
            invariant
                i <= self.empty_library_draws_since_sba@.len(),
                ids_match_positions(*self) ==> forall|k: int|
                    old(actions)@.len() <= k < actions@.len() ==> sba_action_sound(*self, #[trigger] actions@[k]),

                forall|k: int| 0 <= k < old(actions)@.len() ==> #[trigger] actions@[k] == old(actions)@[k],
                old(actions)@.len() <= actions@.len(),
                !empty_draw_loss_due(*self) ==> actions@ == old(actions)@,
                forall|j: int|
                    0 <= j < i && (#[trigger] self.empty_library_draws_since_sba@[j]).0 < self.players@.len()
                        && !self.players@[self.empty_library_draws_since_sba@[j].0 as int].lost ==> has_loss_for(
                        actions@,
                        self.empty_library_draws_since_sba@[j],
                    ),
                forall|k: int|
                    old(actions)@.len() <= k < actions@.len() ==> (#[trigger] actions@[k] matches PendingStateBasedAction::PlayerLoses {
                        player,
                        kind: kd,
                    } && kd == kind && self.empty_library_draws_since_sba@.contains(player)),
            decreases self.empty_library_draws_since_sba@.len() - i,
        {
            let player = self.empty_library_draws_since_sba[i];
            let index = player.index();
            if index < self.players.len() && !self.players[index].lost {
                let ghost before = actions@;
                proof {
                    assert(empty_draw_loss_due(*self));
                }
                Self::push_player_loss_sba(actions, player, kind);
                proof {
                    if !has_loss_for(before, player) {
                        assert(is_loss_of(actions@[before.len() as int], player));
                    }
                    assert forall|j: int|
                        0 <= j < i && (#[trigger] self.empty_library_draws_since_sba@[j]).0 < self.players@.len()
                            && !self.players@[self.empty_library_draws_since_sba@[j].0 as int].lost implies has_loss_for(
                        actions@,
                        self.empty_library_draws_since_sba@[j],
                    ) by {
                        let w = choose|w: int|
                            0 <= w < before.len() && #[trigger] is_loss_of(
                                before[w],
                                self.empty_library_draws_since_sba@[j],
                            );
                        assert(actions@[w] == before[w]);
                    }
                    assert(self.empty_library_draws_since_sba@[i as int] == player);
                }
            }
            i = i + 1;
        }
    }

    /// Adds a loss for each player still in the game with ten or more poison counters.
    pub(crate) fn collect_poison_sbas(&self, kind: StateBasedActionKind, actions: &mut Vec<
        PendingStateBasedAction,
    >)
        ensures
            forall|i: int|
                0 <= i < self.players@.len() && !self.players@[i].lost && (#[trigger] self.players@[i]).poison
                    >= 10 ==> has_loss_for(final(actions)@, self.players@[i].id),
            forall|k: int|
                0 <= k < old(actions)@.len() ==> #[trigger] final(actions)@[k] == old(actions)@[k],
            old(actions)@.len() <= final(actions)@.len(),
            no_player_loss_pending(self.players@) ==> final(actions)@ == old(actions)@,
            ids_match_positions(*self) ==> forall|k: int|
                old(actions)@.len() <= k < final(actions)@.len() ==> sba_action_sound(*self, #[trigger] final(actions)@[k]),
    {
        let mut i: usize = 0;
        while i < self.players.len()
            invariant
                i <= self.players@.len(),
                no_player_loss_pending(self.players@) ==> actions@ == old(actions)@,
                ids_match_positions(*self) ==> forall|k: int|
                    old(actions)@.len() <= k < actions@.len() ==> sba_action_sound(*self, #[trigger] actions@[k]),
                forall|j: int|
                    0 <= j < i && !self.players@[j].lost && (#[trigger] self.players@[j]).poison >= 10
                        ==> has_loss_for(actions@, self.players@[j].id),
                forall|k: int| 0 <= k < old(actions)@.len() ==> #[trigger] actions@[k] == old(actions)@[k],
                old(actions)@.len() <= actions@.len(),
            decreases self.players@.len() - i,
        {
            let player = &self.players[i];
            if !player.lost && player.poison >= 10 {
                let ghost before = actions@;
                Self::push_player_loss_sba(actions, player.id, kind);
                proof {
                    if !has_loss_for(before, player.id) {
                        assert(is_loss_of(actions@[before.len() as int], player.id));
                    }
                    assert forall|j: int|
                        0 <= j < i && !self.players@[j].lost && (#[trigger] self.players@[j]).poison
                            >= 10 implies has_loss_for(actions@, self.players@[j].id) by {
                        let w = choose|w: int|
                            0 <= w < before.len() && #[trigger] is_loss_of(before[w], self.players@[j].id);
                        assert(actions@[w] == before[w]);
                    }
                }
            }
            i = i + 1;
        }
    }

    /// Adds a graveyard move for each battlefield creature that the given
    /// row applies to: zero or less toughness, lethal marked damage, or
    /// deathtouch damage.
    pub(crate) fn collect_creature_sbas(&self, kind: StateBasedActionKind, actions: &mut Vec<
        PendingStateBasedAction,
    >)
        ensures
            forall|k: int|
                0 <= k < old(actions)@.len() ==> #[trigger] final(actions)@[k] == old(actions)@[k],
            old(actions)@.len() <= final(actions)@.len(),
            creature_moves_pending(*self, final(actions)@, kind),
            no_creature_death_pending(*self) && (kind == StateBasedActionKind::CreatureZeroOrLessToughness
                || kind == StateBasedActionKind::CreatureLethalDamage || kind
                == StateBasedActionKind::CreatureDeathtouchDamage) ==> final(actions)@ == old(actions)@,
            ids_match_positions(*self) ==> forall|k: int|
                old(actions)@.len() <= k < final(actions)@.len() ==> sba_action_sound(*self, #[trigger] final(actions)@[k]),
    {
        let battlefield_index = match self.zone_index(ZoneId::new(None, ZoneKind::Battlefield)) {
            Some(i) => i,
            None => return ,
        };
        let objects = &self.zones[battlefield_index].objects;
        assert(objects@ == battlefield_objects(*self));
        let mut i: usize = 0;
        while i < objects.len()
            invariant
                i <= objects@.len(),
                objects@ == battlefield_objects(*self),
                forall|k: int| 0 <= k < old(actions)@.len() ==> #[trigger] actions@[k] == old(actions)@[k],
                ids_match_positions(*self) ==> forall|k: int|
                    old(actions)@.len() <= k < actions@.len() ==> sba_action_sound(*self, #[trigger] actions@[k]),
                old(actions)@.len() <= actions@.len(),
                no_creature_death_pending(*self) && (kind == StateBasedActionKind::CreatureZeroOrLessToughness
                    || kind == StateBasedActionKind::CreatureLethalDamage || kind
                    == StateBasedActionKind::CreatureDeathtouchDamage) ==> actions@ == old(actions)@,
                forall|k: int|
                    0 <= k < i ==> match self.objects.spec_get(#[trigger] objects@[k]) {
                        Some(record) => creature_sba_applies(*self, record, kind) ==> has_move_for(
                            actions@,
                            record.id,
                        ),
                        None => true,
                    },
            decreases objects@.len() - i,
        {
            let object_id = objects[i];
            let ghost before = actions@;
            match self.objects.get(object_id) {
                Some(object) => {
                    match self.creature_characteristics(object.id) {
                        Ok(creature) => {
                            let toughness = creature.toughness();
                            let applies = match kind {
                                StateBasedActionKind::CreatureZeroOrLessToughness => toughness <= 0,
                                StateBasedActionKind::CreatureLethalDamage => toughness > 0
                                    && object.damage_marked > 0 && object.damage_marked
                                    >= toughness as u32,
                                StateBasedActionKind::CreatureDeathtouchDamage => toughness > 0
                                    && object.deathtouch_damage_marked,
                                _ => false,
                            };
                            assert(applies == creature_sba_applies(*self, object, kind));
                            assert(objects@[i as int] == object_id);
                            if applies {
                                Self::push_permanent_graveyard_sba(actions, object.id, kind);
                                proof {
                                    if !has_move_for(before, object.id) {
                                        assert(is_move_of(actions@[before.len() as int], object.id));
                                    } else {
                                        assert(actions@ == before);
                                    }
                                }
                            }
                        },
                        Err(_) => {},
                    }
                },
                None => {},
            }
            proof {
                assert forall|k: int| 0 <= k < i + 1 implies match self.objects.spec_get(
                    #[trigger] objects@[k],
                ) {
                    Some(record) => creature_sba_applies(*self, record, kind) ==> has_move_for(
                        actions@,
                        record.id,
                    ),
                    None => true,
                } by {
                    if k < i {
                        match self.objects.spec_get(objects@[k]) {
                            Some(record) => {
                                if creature_sba_applies(*self, record, kind) {
                                    let w = choose|w: int|
                                        0 <= w < before.len() && #[trigger] is_move_of(before[w], record.id);
                                    assert(actions@[w] == before[w]);
                                }
                            },
                            None => {},
                        }
                    }
                }
            }
            i = i + 1;
        }
    }

    /// Every state-based action that applies now, in rule-table order.
    pub(crate) fn collect_state_based_actions(&self) -> (r: Vec<PendingStateBasedAction>)
        ensures
            forall|i: int|
                0 <= i < self.players@.len() && !self.players@[i].lost && (#[trigger] self.players@[i]).life
                    <= 0 ==> has_loss_for(r@, self.players@[i].id),
            forall|i: int|
                0 <= i < self.players@.len() && !self.players@[i].lost && (#[trigger] self.players@[i]).poison
                    >= 10 ==> has_loss_for(r@, self.players@[i].id),
            creature_moves_pending(*self, r@, StateBasedActionKind::CreatureZeroOrLessToughness),
            creature_moves_pending(*self, r@, StateBasedActionKind::CreatureLethalDamage),
            creature_moves_pending(*self, r@, StateBasedActionKind::CreatureDeathtouchDamage),
            sba_quiet(*self) ==> r@.len() == 0,
            ids_match_positions(*self) ==> forall|k: int| 0 <= k < r@.len() ==> sba_action_sound(*self, #[trigger] r@[k]),
            !sba_quiet(*self) ==> r@.len() > 0,
    {
        let table = state_based_action_table();
        let mut actions: Vec<PendingStateBasedAction> = Vec::new();
        let mut t: usize = 0;
        while t < table.len()
            invariant
                t <= table@.len(),
                table@.len() == 24,
                forall|i: int| 0 <= i < 24 ==> table@[i] == StateBasedActionKind::spec_row(i),
                t > 0 ==> forall|i: int|
                    0 <= i < self.players@.len() && !self.players@[i].lost && (
                    #[trigger] self.players@[i]).life <= 0 ==> has_loss_for(actions@, self.players@[i].id),
                t > 2 ==> forall|i: int|
                    0 <= i < self.players@.len() && !self.players@[i].lost && (
                    #[trigger] self.players@[i]).poison >= 10 ==> has_loss_for(actions@, self.players@[i].id),
                t > 5 ==> creature_moves_pending(*self, actions@, StateBasedActionKind::CreatureZeroOrLessToughness),
                t > 6 ==> creature_moves_pending(*self, actions@, StateBasedActionKind::CreatureLethalDamage),
                t > 7 ==> creature_moves_pending(*self, actions@, StateBasedActionKind::CreatureDeathtouchDamage),
                sba_quiet(*self) ==> actions@.len() == 0,
                ids_match_positions(*self) ==> forall|k: int|
                    0 <= k < actions@.len() ==> sba_action_sound(*self, #[trigger] actions@[k]),
                t > 1 ==> forall|j: int|
                    0 <= j < self.empty_library_draws_since_sba@.len() && (
                    #[trigger] self.empty_library_draws_since_sba@[j]).0 < self.players@.len()
                        && !self.players@[self.empty_library_draws_since_sba@[j].0 as int].lost ==> has_loss_for(
                        actions@,
                        self.empty_library_draws_since_sba@[j],
                    ),
            decreases table@.len() - t,
        {
            let kind = table[t];
            let ghost before = actions@;
            proof {
                assert(table@[t as int] == StateBasedActionKind::spec_row(t as int));
                assert(kind == table@[t as int]);
                if t == 5 {
                    assert(kind == StateBasedActionKind::CreatureZeroOrLessToughness);
                }
                if t == 6 {
                    assert(kind == StateBasedActionKind::CreatureLethalDamage);
                }
                if t == 7 {
                    assert(kind == StateBasedActionKind::CreatureDeathtouchDamage);
                }
                if t == 0 {
                    assert(kind == StateBasedActionKind::PlayerZeroOrLessLife);
                }
                if t == 2 {
                    assert(kind == StateBasedActionKind::PlayerTenOrMorePoison);
                }
            }
            match kind {
                StateBasedActionKind::PlayerZeroOrLessLife => {
                    self.collect_life_total_sbas(kind, &mut actions);
                },
                StateBasedActionKind::PlayerDrewFromEmptyLibrary => {
                    self.collect_empty_library_sbas(kind, &mut actions);
                },
                StateBasedActionKind::PlayerTenOrMorePoison => {
                    self.collect_poison_sbas(kind, &mut actions);
                },
                StateBasedActionKind::CreatureZeroOrLessToughness => {
                    self.collect_creature_sbas(kind, &mut actions);
                },
                StateBasedActionKind::CreatureLethalDamage => {
                    self.collect_creature_sbas(kind, &mut actions);
                },
                StateBasedActionKind::CreatureDeathtouchDamage => {
                    self.collect_creature_sbas(kind, &mut actions);
                },
                _ => {},
            }
            proof {
                assert forall|i: int|
                    0 <= i < self.players@.len() && !self.players@[i].lost && (
                    #[trigger] self.players@[i]).life <= 0 && t > 0 implies has_loss_for(
                    actions@,
                    self.players@[i].id,
                ) by {
                    let w = choose|w: int|
                        0 <= w < before.len() && #[trigger] is_loss_of(before[w], self.players@[i].id);
                    assert(actions@[w] == before[w]);
                }
                assert forall|i: int|
                    0 <= i < self.players@.len() && !self.players@[i].lost && (
                    #[trigger] self.players@[i]).poison >= 10 && t > 2 implies has_loss_for(
                    actions@,
                    self.players@[i].id,
                ) by {
                    let w = choose|w: int|
                        0 <= w < before.len() && #[trigger] is_loss_of(before[w], self.players@[i].id);
                    assert(actions@[w] == before[w]);
                }
                if t == 1 {
                    assert(kind == StateBasedActionKind::PlayerDrewFromEmptyLibrary);
                }
                assert forall|j: int|
                    0 <= j < self.empty_library_draws_since_sba@.len() && (
                    #[trigger] self.empty_library_draws_since_sba@[j]).0 < self.players@.len()
                        && !self.players@[self.empty_library_draws_since_sba@[j].0 as int].lost && t > 1 implies has_loss_for(
                        actions@,
                        self.empty_library_draws_since_sba@[j],
                    ) by {
                    let w = choose|w: int|
                        0 <= w < before.len() && #[trigger] is_loss_of(before[w], self.empty_library_draws_since_sba@[j]);
                    assert(actions@[w] == before[w]);
                }
                if t > 5 {
                    lemma_moves_stay_pending(*self, before, actions@, StateBasedActionKind::CreatureZeroOrLessToughness);
                }
                if t > 6 {
                    lemma_moves_stay_pending(*self, before, actions@, StateBasedActionKind::CreatureLethalDamage);
                }
                if t > 7 {
                    lemma_moves_stay_pending(*self, before, actions@, StateBasedActionKind::CreatureDeathtouchDamage);
                }
            }
            t = t + 1;
        }
        proof {
            if !no_player_loss_pending(self.players@) {
                let i = choose|i: int|
                    0 <= i < self.players@.len() && !(#[trigger] self.players@[i]).lost && !(self.players@[i].life > 0
                        && self.players@[i].poison < 10);
                assert(has_loss_for(actions@, self.players@[i].id));
            } else if empty_draw_loss_due(*self) {
                let j = choose|j: int|
                    0 <= j < self.empty_library_draws_since_sba@.len() && #[trigger] self.empty_library_draws_since_sba@[j].0
                        < self.players@.len() && !self.players@[self.empty_library_draws_since_sba@[j].0 as int].lost;
                assert(has_loss_for(actions@, self.empty_library_draws_since_sba@[j]));
            } else if !no_creature_death_pending(*self) {
                let k = choose|k: int|
                    0 <= k < battlefield_objects(*self).len() && !match self.objects.spec_get(
                        #[trigger] battlefield_objects(*self)[k],
                    ) {
                        Some(record) => {
                            &&& !creature_sba_applies(*self, record, StateBasedActionKind::CreatureZeroOrLessToughness)
                            &&& !creature_sba_applies(*self, record, StateBasedActionKind::CreatureLethalDamage)
                            &&& !creature_sba_applies(*self, record, StateBasedActionKind::CreatureDeathtouchDamage)
                        },
                        None => true,
                    };
                let record = self.objects.spec_get(battlefield_objects(*self)[k])->0;
                assert(has_move_for(actions@, record.id));
            }
        }
        actions
    }

    /// Performs one pending state-based action, skipping players who already
    /// lost and permanents no longer on the battlefield.
    #[verifier::spinoff_prover]
    #[verifier::rlimit(100)]
    pub(crate) fn apply_state_based_action(
        &mut self,
        action: PendingStateBasedAction,
        report: &mut StateBasedActionReport,
    ) -> (r: Result<(), StateError>)
        ensures
            final(self).attackers_declared_this_combat == old(self).attackers_declared_this_combat,
            final(self).stack_entries@ == old(self).stack_entries@,
            zones_conserved(*old(self)) ==> zones_conserved(*final(self)),
            events_bounded(*old(self)) ==> events_bounded(*final(self)),
            r is Ok ==> sba_frame(*old(self), *final(self)),
            r is Ok ==> final(self).outcome == old(self).outcome && final(self).priority_player
                == old(self).priority_player,
            r is Ok ==> (action matches PendingStateBasedAction::PlayerLoses { player, .. } ==> (
            player.0 < final(self).players@.len() && final(self).players@[player.0 as int].lost)),
            action matches PendingStateBasedAction::PlayerLoses { player, .. } ==> (r is Ok <==> player.0
                < old(self).players@.len()) && (player.0 >= old(self).players@.len() ==> r == Err::<
                (),
                StateError,
            >(StateError::UnknownPlayer(player))),
            action matches PendingStateBasedAction::MovePermanentToGraveyard { object, .. } ==> {
                let battlefield = ZoneId { owner: None, kind: ZoneKind::Battlefield };
                &&& zone_of(old(self).zones@, object) != Some(battlefield) ==> r is Ok && final(self).zones@
                    == old(self).zones@ && final(self).objects == old(self).objects
                &&& zone_of(old(self).zones@, object) == Some(battlefield) && old(self).objects.spec_get(object) is Some
                    && zone_id_valid(
                    ZoneId { owner: Some(old(self).objects.spec_get(object)->0.owner), kind: ZoneKind::Graveyard },
                    old(self).players@.len() as int,
                ) && (exists|j: int|
                    0 <= j < old(self).zones@.len() && #[trigger] old(self).zones@[j].id == (ZoneId {
                        owner: Some(old(self).objects.spec_get(object)->0.owner),
                        kind: ZoneKind::Graveyard,
                    })) ==> r is Ok && exists|i: int|
                    0 <= i < final(self).zones@.len() && final(self).zones@[i].id == (ZoneId {
                        owner: Some(old(self).objects.spec_get(object)->0.owner),
                        kind: ZoneKind::Graveyard,
                    }) && #[trigger] final(self).zones@[i].objects@.contains(object)
            },
            zones_conserved(*old(self)) && owners_have_graveyards(*old(self)) && (action matches PendingStateBasedAction::PlayerLoses {
                player,
                ..
            } ==> player.0 < old(self).players@.len()) ==> r is Ok,
            r is Ok && zones_conserved(*old(self)) && sba_action_applies(*old(self), action) ==> sba_measure(*final(self))
                < sba_measure(*old(self)),
            final(self).empty_library_draws_since_sba@ == old(self).empty_library_draws_since_sba@,
            r is Ok ==> players_in_game(final(self).players@) <= players_in_game(old(self).players@)
                && final(report).players_lost == (if players_in_game(final(self).players@) < players_in_game(
                old(self).players@,
            ) {
                sat_inc(old(report).players_lost)
            } else {
                old(report).players_lost
            }) && players_in_game(final(self).players@) + 1 >= players_in_game(old(self).players@)
                && final(report).iterations == old(report).iterations,
            r is Ok ==> forall|p: PlayerId|
                p.0 < old(self).players@.len() && #[trigger] final(self).players@[p.0 as int].lost ==> old(
                    self,
                ).players@[p.0 as int].lost || action == (PendingStateBasedAction::PlayerLoses {
                    player: p,
                    kind: action->PlayerLoses_kind,
                }),
    {
        proof {
            if zones_conserved(*self) {
                if let PendingStateBasedAction::MovePermanentToGraveyard { object, .. } = action {
                    let field = ZoneId { owner: None, kind: ZoneKind::Battlefield };
                    if battlefield_objects(*self).contains(object) {
                        lemma_zone_position_same_ids(self.zones@, self.zones@, field);
                        let p = zone_position(self.zones@, field)->0;
                        let k = choose|k: int|
                            0 <= k < self.zones@[p].objects@.len() && self.zones@[p].objects@[k] == object;
                        assert(self.zones@[p].objects@[k].0 < self.objects.records@.len());
                        lemma_conserved_zone_of(self.zones@, object, p);
                    }
                }
            }
            if zones_conserved(*self) && owners_have_graveyards(*self) {
                if let PendingStateBasedAction::MovePermanentToGraveyard { object, .. } = action {
                    if zone_of(self.zones@, object) is Some {
                        let i = choose|i: int| first_zone_holding(self.zones@, object, i);
                        let k = choose|k: int|
                            0 <= k < self.zones@[i].objects@.len() && self.zones@[i].objects@[k] == object;
                        assert(self.zones@[i].objects@[k].0 < self.objects.records@.len());
                        let owner = self.objects.records@[object.0 as int].owner;
                        assert(owner.0 < self.players@.len());
                    }
                }
            }
        }
        match action {
            PendingStateBasedAction::PlayerLoses { player, kind } => {
                let i = player.index();
                if i >= self.players.len() {
                    return Err(StateError::UnknownPlayer(player));
                }
                if !self.players[i].lost {
                    let ghost before = self.players@;
                    self.players[i].lost = true;
                    proof {
                        lemma_players_in_game_le(before, self.players@, i as int);
                        lemma_players_in_game_mark(before, self.players@, i as int);
                    }
                    report.record_player_loss(kind);
                    let ghost marked = *self;
                    self.emit_event(GameEvent::PlayerLostByStateBasedAction { player, kind });
                    assert(self.players@ == marked.players@ && self.zones@ == old(self).zones@);
                }
            },
            PendingStateBasedAction::MovePermanentToGraveyard { object, kind } => {
                let battlefield = ZoneId::new(None, ZoneKind::Battlefield);
                if self.object_zone(object) == Some(battlefield) {
                    let owner = match self.objects.get(object) {
                        Some(record) => record.owner,
                        None => return Err(StateError::UnknownObject(object)),
                    };
                    let ghost z0 = self.zones@;
                    let graveyard = ZoneId::new(Some(owner), ZoneKind::Graveyard);
                    match self.move_object(object, graveyard) {
                        Ok(()) => {},
                        Err(e) => return Err(e),
                    }
                    proof {
                        let (fi, ti, pos) = choose|fi: int, ti: int, pos: int|
                            #[trigger] zone_move(z0, self.zones@, object, graveyard, fi, ti, pos);
                        assert(first_zone_holding(z0, object, fi));
                        let w = choose|w: int| first_zone_holding(z0, object, w);
                        if w < fi {
                            assert(!z0[w].objects@.contains(object));
                        } else if w > fi {
                            assert(!z0[fi].objects@.contains(object));
                        }
                        assert(z0[fi].id == battlefield);
                        assert forall|j: int|
                            0 <= j < z0.len() && z0[j].id.kind != ZoneKind::Battlefield && z0[j].id.kind
                                != ZoneKind::Graveyard implies #[trigger] self.zones@[j] == z0[j] by {
                            if z0[fi].id != graveyard {
                                assert(j != fi && j != ti);
                            }
                        }
                        assert forall|j: int| 0 <= j < z0.len() implies #[trigger] self.zones@[j].id == z0[j].id by {
                            if j != fi && j != ti {
                                assert(self.zones@[j] == z0[j]);
                            }
                        }
                        lemma_zone_position_same_ids(z0, self.zones@, battlefield);
                        if let Some(p) = zone_position(z0, battlefield) {
                            assert(z0[p].id == battlefield);
                            if p != fi {
                                assert(p != ti);
                                assert(self.zones@[p] == z0[p]);
                            }
                            if zones_conserved(*old(self)) && z0[p].objects@.contains(object) {
                                let k = choose|k: int| 0 <= k < z0[p].objects@.len() && z0[p].objects@[k] == object;
                                assert(z0[p].objects@[k].0 < old(self).objects.records@.len());
                                lemma_conserved_zone_of(z0, object, p);
                                assert(fi == p);
                                assert(battlefield_objects(*self).len() < battlefield_objects(*old(self)).len());
                            }
                        }
                        assert(battlefield_objects(*self).len() <= battlefield_objects(*old(self)).len());
                        if zones_conserved(*old(self)) {
                            assert forall|o: ObjectId| #[trigger] battlefield_objects(*self).contains(o) implies battlefield_objects(
                                *old(self),
                            ).contains(o) && (o.0 < old(self).objects.records@.len() ==> self.objects.records@[o.0 as int].damage_marked
                                == old(self).objects.records@[o.0 as int].damage_marked) by {
                                let p = zone_position(z0, battlefield)->0;
                                assert(zone_position(z0, battlefield) is Some);
                                assert(z0[p].id == battlefield);
                                let now = self.zones@[p].objects@;
                                let k = choose|k: int| 0 <= k < now.len() && now[k] == o;
                                if p == fi {
                                    if k < pos {
                                        assert(now[k] == z0[fi].objects@[k]);
                                    } else {
                                        assert(now[k] == z0[fi].objects@[k + 1]);
                                    }
                                    if o == object {
                                        let slot = object.0 as int;
                                        lemma_count_in_positive(now, k);
                                        let last = self.zones@[ti].objects@.len() - 1;
                                        assert(self.zones@[ti].objects@[last] == object);
                                        lemma_count_in_positive(self.zones@[ti].objects@, last);
                                        assert(zone_occurrences(self.zones@, slot) == 1);
                                        lemma_conserved_one_zone(self.zones@, slot, fi, ti);
                                    }
                                } else {
                                    assert(p != ti);
                                    assert(self.zones@[p] == z0[p]);
                                    assert(z0[p].objects@[k] == o);
                                    if o == object {
                                        let slot = object.0 as int;
                                        lemma_count_in_positive(z0[p].objects@, k);
                                        lemma_count_in_positive(z0[fi].objects@, pos);
                                        assert(zone_occurrences(z0, slot) == 1);
                                        lemma_conserved_one_zone(z0, slot, p, fi);
                                    }
                                }
                                assert(o != object);
                            }
                        }
                    }
                    let ghost moved = *self;
                    report.record_permanent_move(kind);
                    self.emit_event(GameEvent::PermanentMovedByStateBasedAction { object, kind });
                    assert(battlefield_objects(*self) == battlefield_objects(moved));
                    assert(self.players@ == old(self).players@);
                    proof {
                        let gi = choose|i: int|
                            0 <= i < moved.zones@.len() && moved.zones@[i].id == graveyard
                                && #[trigger] moved.zones@[i].objects@.contains(object);
                        assert(self.zones@[gi] == moved.zones@[gi]);
                        assert(self.zones@[gi].objects@.contains(object));
                    }
                }
            },
        }
        proof {
            if self.zones@ == old(self).zones@ {
                assert(battlefield_objects(*self) == battlefield_objects(*old(self)));
            }
        }
        Ok(())
    }

    /// Clears the empty-library draw list and every deathtouch damage mark.
    pub(crate) fn clear_since_last_sba_markers(&mut self)
        ensures
            final(self).turn_events@ == old(self).turn_events@,
            final(self).empty_library_draws_since_sba@.len() == 0,
            sba_frame(*old(self), *final(self)),
            final(self).players@ == old(self).players@,
            final(self).outcome == old(self).outcome,
            final(self).priority_player == old(self).priority_player,
            final(self).zones@ == old(self).zones@,
            final(self).continuous_effects@ == old(self).continuous_effects@,
            same_but_marks_and_tapping(old(self).objects, final(self).objects),
            final(self).objects.records@.len() == old(self).objects.records@.len(),
            forall|i: int|
                0 <= i < old(self).objects.records@.len() ==> #[trigger] final(self).objects.records@[i] == (
                ObjectRecord { deathtouch_damage_marked: false, ..old(self).objects.records@[i] }),
            *final(self) == (GameState {
                objects: final(self).objects,
                empty_library_draws_since_sba: final(self).empty_library_draws_since_sba,
                ..*old(self)
            }),
            forall|i: int|
                0 <= i < final(self).objects.records@.len()
                    ==> !(#[trigger] final(self).objects.records@[i]).deathtouch_damage_marked,
    {
        self.empty_library_draws_since_sba.clear();
        let n = self.objects.records.len();
        let mut i: usize = 0;
        while i < n
            invariant
                i <= n,
                n == self.objects.records@.len(),
                n == old(self).objects.records@.len(),
                self.empty_library_draws_since_sba@.len() == 0,
                *self == (GameState {
                    objects: self.objects,
                    empty_library_draws_since_sba: self.empty_library_draws_since_sba,
                    ..*old(self)
                }),
                forall|k: int|
                    0 <= k < i ==> #[trigger] self.objects.records@[k] == (ObjectRecord {
                        deathtouch_damage_marked: false,
                        ..old(self).objects.records@[k]
                    }),
                forall|k: int| i <= k < n ==> #[trigger] self.objects.records@[k] == old(self).objects.records@[k],
            decreases n - i,
        {
            self.objects.records[i].deathtouch_damage_marked = false;
            i = i + 1;
        }
    }

    /// Recomputes the game outcome from who has lost; a finished game has no
    /// priority holder.
    pub(crate) fn refresh_game_outcome(&mut self)
        ensures
            final(self).attackers_declared_this_combat == old(self).attackers_declared_this_combat,
            final(self).stack_entries@ == old(self).stack_entries@,
            events_bounded(*old(self)) ==> events_bounded(*final(self)),
            final(self).outcome == outcome_for(old(self).players@),
            final(self).outcome != GameOutcome::InProgress ==> final(self).priority_player is None
                && final(self).priority_pass_count == 0,
            final(self).outcome == GameOutcome::InProgress ==> final(self).priority_player == old(
                self,
            ).priority_player,
            sba_frame(*old(self), *final(self)),
            final(self).players@ == old(self).players@,
            final(self).empty_library_draws_since_sba@ == old(self).empty_library_draws_since_sba@,
            final(self).zones@ == old(self).zones@,
    {
        let old_outcome = self.outcome;
        let mut remaining: Vec<PlayerId> = Vec::new();
        let mut i: usize = 0;
        while i < self.players.len()
            invariant
                i <= self.players@.len(),
                remaining@ == remaining_ids(self.players@.subrange(0, i as int)),
            decreases self.players@.len() - i,
        {
            proof {
                assert(self.players@.subrange(0, i + 1).drop_last() == self.players@.subrange(0, i as int));
            }
            if !self.players[i].lost {
                remaining.push(self.players[i].id);
            }
            i = i + 1;
        }
        assert(self.players@.subrange(0, self.players@.len() as int) == self.players@);
        let n = self.players.len();
        let outcome = if n == 0 || remaining.len() == n || remaining.len() > 1 {
            GameOutcome::InProgress
        } else if remaining.len() == 1 {
            GameOutcome::Won(remaining[0])
        } else {
            GameOutcome::Draw
        };
        self.outcome = outcome;
        if outcome != old_outcome {
            self.emit_event(GameEvent::GameOutcomeChanged { outcome });
        }
        if outcome != GameOutcome::InProgress {
            self.priority_player = None;
            self.priority_pass_count = 0;
        }
    }

    /// Repeats state-based-action checks until none apply, up to the fixpoint
    /// limit.
    pub(crate) fn perform_state_based_actions(&mut self) -> (r: Result<
        StateBasedActionReport,
        StateError,
    >)
        ensures
            final(self).attackers_declared_this_combat == old(self).attackers_declared_this_combat,
            final(self).stack_entries@ == old(self).stack_entries@,
            zones_conserved(*old(self)) ==> zones_conserved(*final(self)),
            events_bounded(*old(self)) ==> events_bounded(*final(self)),
            r is Ok ==> sba_frame(*old(self), *final(self)),
            r is Ok ==> final(self).outcome == old(self).outcome || final(self).outcome == outcome_for(
                final(self).players@,
            ),
            r is Ok ==> no_player_loss_pending(final(self).players@),
            r is Ok ==> no_creature_death_pending(*final(self)),
            sba_quiet(*old(self)) ==> r is Ok,
            r is Ok ==> final(self).players@ == old(self).players@ || (final(self).outcome == outcome_for(
                final(self).players@,
            ) && (final(self).outcome != GameOutcome::InProgress ==> final(self).priority_player is None)),
            r is Ok && !no_player_loss_pending(old(self).players@) ==> final(self).outcome == outcome_for(
                final(self).players@,
            ) && (final(self).outcome != GameOutcome::InProgress ==> final(self).priority_player is None),
            sba_quiet(*old(self)) ==> *final(self) == (GameState {
                objects: final(self).objects,
                empty_library_draws_since_sba: final(self).empty_library_draws_since_sba,
                ..*old(self)
            }),
            sba_settles(*old(self)) ==> r is Ok,
            r matches Ok(report) ==> (report.iterations == 0 <==> sba_quiet(*old(self))),
            r is Ok && old(self).players@.len() <= u32::MAX ==> r->Ok_0.players_lost == players_in_game(
                old(self).players@,
            ) - players_in_game(final(self).players@),
            ids_match_positions(*old(self)) && r is Ok ==> forall|p: PlayerId|
                p.0 < old(self).players@.len() && #[trigger] final(self).players@[p.0 as int].lost ==> old(
                    self,
                ).players@[p.0 as int].lost || player_due_to_lose(*old(self), p),
    {
        let mut report = StateBasedActionReport::zero();
        let ghost start = *self;
        let mut round: u32 = 0;
        while round < SBA_FIXPOINT_LIMIT
            invariant
                self.attackers_declared_this_combat == start.attackers_declared_this_combat,
                self.stack_entries@ == start.stack_entries@,
                start == *old(self),
                sba_frame(start, *self),
                self.outcome == start.outcome || self.outcome == outcome_for(self.players@),
                zones_conserved(start) ==> zones_conserved(*self),
                events_bounded(start) ==> events_bounded(*self),
                round == 0 ==> *self == start,
                sba_quiet(start) ==> round == 0,
                sba_settles(start) ==> ids_match_positions(*self) && owners_have_graveyards(*self)
                    && sba_measure(*self) + round <= sba_measure(start),
                report.iterations > 0 <==> round > 0,
                players_in_game(self.players@) <= players_in_game(start.players@),
                start.players@.len() <= u32::MAX ==> report.players_lost == players_in_game(start.players@)
                    - players_in_game(self.players@),
                ids_match_positions(start) ==> forall|p: PlayerId|
                    p.0 < start.players@.len() && #[trigger] self.players@[p.0 as int].lost ==> start.players@[p.0 as int].lost
                        || player_due_to_lose(start, p),
                forall|x: PlayerId| #[trigger] self.empty_library_draws_since_sba@.contains(x) ==> start.empty_library_draws_since_sba@.contains(x),
                round > 0 ==> self.outcome == outcome_for(self.players@) && (self.outcome
                    != GameOutcome::InProgress ==> self.priority_player is None),
            decreases SBA_FIXPOINT_LIMIT - round,
        {
            let actions = self.collect_state_based_actions();
            let ghost checked = self.players@;
            let ghost checked_state = *self;
            self.clear_since_last_sba_markers();
            if actions.len() == 0 {
                proof {
                    assert forall|i: int|
                        0 <= i < checked.len() && !(#[trigger] checked[i]).lost implies checked[i].life
                            > 0 && checked[i].poison < 10 by {
                        if checked[i].life <= 0 || checked[i].poison >= 10 {
                            assert(has_loss_for(actions@, checked[i].id));
                        }
                    }
                    assert(battlefield_objects(*self) == battlefield_objects(checked_state));
                    assert forall|k: int| 0 <= k < battlefield_objects(*self).len() implies match self.objects.spec_get(
                        #[trigger] battlefield_objects(*self)[k],
                    ) {
                        Some(record) => {
                            &&& !creature_sba_applies(*self, record, StateBasedActionKind::CreatureZeroOrLessToughness)
                            &&& !creature_sba_applies(*self, record, StateBasedActionKind::CreatureLethalDamage)
                            &&& !creature_sba_applies(*self, record, StateBasedActionKind::CreatureDeathtouchDamage)
                        },
                        None => true,
                    } by {
                        let o = battlefield_objects(*self)[k];
                        assert(battlefield_objects(checked_state)[k] == o);
                        if o.0 < self.objects.records@.len() {
                            let now = self.objects.records@[o.0 as int];
                            let then = checked_state.objects.records@[o.0 as int];
                            assert(now == (ObjectRecord { deathtouch_damage_marked: now.deathtouch_damage_marked, ..then }));
                            assert(!now.deathtouch_damage_marked);
                            lemma_characteristics_ignore_marks(checked_state, *self, then.id);
                            if creature_sba_applies(checked_state, then, StateBasedActionKind::CreatureZeroOrLessToughness)
                                || creature_sba_applies(checked_state, then, StateBasedActionKind::CreatureLethalDamage) {
                                assert(has_move_for(actions@, then.id));
                            }
                        }
                    }
                }
                return Ok(report);
            }
            report.record_iteration();
            assert(!sba_quiet(start));
            let ghost mid = *self;
            proof {
                lemma_sba_frame_keeps_settling(start, checked_state);
                if sba_settles(start) {
                    lemma_sba_frame_keeps_settling(checked_state, mid);
                }
            }
            let mut k: usize = 0;
            while k < actions.len()
                invariant
                    self.attackers_declared_this_combat == start.attackers_declared_this_combat,
                    self.stack_entries@ == start.stack_entries@,
                    k <= actions@.len(),
                    !sba_quiet(start),
                    start == *old(self),
                    sba_frame(start, *self),
                    zones_conserved(start) ==> zones_conserved(*self),
                    events_bounded(start) ==> events_bounded(*self),
                    sba_settles(start) ==> ids_match_positions(*self) && owners_have_graveyards(*self)
                        && sba_measure(*self) <= sba_measure(mid) && (k > 0 ==> sba_measure(*self) < sba_measure(mid))
                        && sba_measure(mid) + round <= sba_measure(start) && (k == 0 ==> *self == mid)
                        && self.players@.len() == checked_state.players@.len() && forall|q: int|
                        0 <= q < actions@.len() ==> sba_action_sound(checked_state, #[trigger] actions@[q]),
                    actions@.len() > 0,
                    mid.players@ == checked_state.players@ && mid.zones@ == checked_state.zones@,
                    ids_match_positions(start) ==> forall|p: PlayerId|
                        p.0 < start.players@.len() && #[trigger] self.players@[p.0 as int].lost ==> start.players@[p.0 as int].lost
                            || player_due_to_lose(start, p),
                    ids_match_positions(start) ==> ids_match_positions(checked_state) && forall|q: int|
                        0 <= q < actions@.len() ==> sba_action_sound(checked_state, #[trigger] actions@[q]),
                    forall|x: PlayerId| #[trigger] checked_state.empty_library_draws_since_sba@.contains(x) ==> start.empty_library_draws_since_sba@.contains(x),
                    sba_frame(start, checked_state),
                    self.empty_library_draws_since_sba@.len() == 0,
                    report.iterations > 0,
                    players_in_game(self.players@) <= players_in_game(start.players@),
                    start.players@.len() <= u32::MAX ==> report.players_lost == players_in_game(start.players@)
                        - players_in_game(self.players@),
                decreases actions@.len() - k,
            {
                let ghost pre = *self;
                proof {
                    if sba_settles(start) {
                        let a = actions@[k as int];
                        assert(sba_action_sound(checked_state, a));
                        assert(battlefield_objects(mid) == battlefield_objects(checked_state));
                        assert(sba_action_applies(mid, a));
                    }
                }
                match self.apply_state_based_action(actions[k], &mut report) {
                    Ok(()) => {},
                    Err(e) => return Err(e),
                }
                proof {
                    lemma_players_in_game_bound(start.players@);
                    if sba_settles(start) {
                        lemma_sba_frame_keeps_settling(pre, *self);
                    }
                    if ids_match_positions(start) {
                        assert forall|p: PlayerId|
                            p.0 < start.players@.len() && #[trigger] self.players@[p.0 as int].lost implies start.players@[p.0 as int].lost
                                || player_due_to_lose(start, p) by {
                            if !pre.players@[p.0 as int].lost {
                                let a = actions@[k as int];
                                assert(sba_action_sound(checked_state, a));
                                assert(player_due_to_lose(checked_state, p));
                                assert(checked_state.players@[p.0 as int].life == start.players@[p.0 as int].life);
                            }
                        }
                    }
                }
                k = k + 1;
            }
            let ghost applied = *self;
            self.refresh_game_outcome();
            proof {
                if sba_settles(start) {
                    lemma_sba_frame_keeps_settling(applied, *self);
                }
            }
            round = round + 1;
        }
        Err(StateError::StateBasedActionLoop)
    }

    /// Checks state-based actions until a fixpoint is reached.
    pub fn check_state_based_actions(&mut self) -> (r: Result<StateBasedActionReport, StateError>)
        ensures
            zones_conserved(*old(self)) ==> zones_conserved(*final(self)),
            events_bounded(*old(self)) ==> events_bounded(*final(self)),
            r is Ok ==> sba_frame(*old(self), *final(self)),
            r is Ok ==> no_player_loss_pending(final(self).players@),
            r is Ok ==> no_creature_death_pending(*final(self)),
            r is Ok ==> final(self).outcome == old(self).outcome || final(self).outcome == outcome_for(
                final(self).players@,
            ),
            sba_quiet(*old(self)) ==> r is Ok,
            r is Ok ==> final(self).players@ == old(self).players@ || (final(self).outcome == outcome_for(
                final(self).players@,
            ) && (final(self).outcome != GameOutcome::InProgress ==> final(self).priority_player is None)),
            r is Ok && !no_player_loss_pending(old(self).players@) ==> final(self).outcome == outcome_for(
                final(self).players@,
            ) && (final(self).outcome != GameOutcome::InProgress ==> final(self).priority_player is None),
            sba_settles(*old(self)) ==> r is Ok,
            r matches Ok(report) ==> (report.iterations == 0 <==> sba_quiet(*old(self))),
            r is Ok && old(self).players@.len() <= u32::MAX ==> r->Ok_0.players_lost == players_in_game(
                old(self).players@,
            ) - players_in_game(final(self).players@),
            ids_match_positions(*old(self)) && r is Ok ==> forall|p: PlayerId|
                p.0 < old(self).players@.len() && #[trigger] final(self).players@[p.0 as int].lost ==> old(
                    self,
                ).players@[p.0 as int].lost || player_due_to_lose(*old(self), p),
    {
        self.perform_state_based_actions()
    }
}

} // verus!
