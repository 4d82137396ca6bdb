//! Concrete checks of the laws the library proves, and of error variants.

use lib::action::Action;
use lib::action::Outcome;
use lib::action::apply;
use lib::characteristics::BaseCreatureCharacteristics;
use lib::characteristics::CreatureKeywords;
use lib::combat::AttackDeclaration;
use lib::combat::BlockDeclaration;
use lib::events::EVENT_RING_CAPACITY;
use lib::events::EventReplayError;
use lib::ids::CardId;
use lib::ids::DurationMarkerId;
use lib::ids::ObjectId;
use lib::ids::PlayerId;
use lib::mana::ManaCost;
use lib::mana::ManaKind;
use lib::mana::ManaPool;
use lib::mana::ManaSource;
use lib::mana::PaymentError;
use lib::mana::auto_tap_payment_plan;
use lib::mana::enumerate_auto_tap_payment_plans;
use lib::mana::enumerate_payment_plans;
use lib::outcome::GameOutcome;
use lib::outcome::PriorityOutcome;
use lib::state::GameState;
use lib::state::StateError;
use lib::state::Zone;
use lib::state::ZoneConservation;
use lib::turn::EffectDuration;
use lib::turn::Step;
use lib::turn::ZoneId;
use lib::turn::ZoneKind;

fn add_player(state: &mut GameState) -> PlayerId {
    match apply(state, Action::AddPlayer) {
        Outcome::PlayerAdded(player) => player,
        other => panic!("unexpected outcome: {other:?}"),
    }
}

fn create(state: &mut GameState, card: u32, owner: PlayerId, zone: ZoneId) -> ObjectId {
    match apply(
        state,
        Action::CreateObject {
            card: CardId::new(card),
            owner,
            controller: owner,
            zone,
        },
    ) {
        Outcome::ObjectCreated(object) => object,
        other => panic!("unexpected outcome: {other:?}"),
    }
}

fn zone_objects(state: &GameState, id: ZoneId) -> Vec<ObjectId> {
    state
        .zone(id)
        .unwrap_or_else(|| panic!("zone missing"))
        .objects()
        .to_vec()
}

#[test]
fn zone_conservation_holds_through_setup_and_moves() {
    let mut state = GameState::new();
    assert_eq!(
        state.validate_zone_conservation(),
        Ok(ZoneConservation { object_count: 0 })
    );
    let player = add_player(&mut state);
    let library = ZoneId::new(Some(player), ZoneKind::Library);
    for card in 0..9 {
        create(&mut state, 100 + card, player, library);
    }
    assert_eq!(apply(&mut state, Action::SetSeed { seed: 5 }), Outcome::Applied);
    assert!(matches!(
        apply(&mut state, Action::DecideTurnOrder),
        Outcome::TurnOrderDecided(_)
    ));
    assert_eq!(apply(&mut state, Action::DrawOpeningHands), Outcome::Applied);
    assert_eq!(
        apply(&mut state, Action::TakeMulligan { player }),
        Outcome::Applied
    );
    let hand = ZoneId::new(Some(player), ZoneKind::Hand);
    let bottom = zone_objects(&state, hand)[0];
    assert_eq!(
        apply(
            &mut state,
            Action::KeepOpeningHand {
                player,
                bottom: vec![bottom],
            },
        ),
        Outcome::Applied
    );
    let object = zone_objects(&state, hand)[0];
    assert_eq!(
        apply(
            &mut state,
            Action::MoveObject {
                object,
                to: ZoneId::new(None, ZoneKind::Battlefield),
            },
        ),
        Outcome::Applied
    );
    assert_eq!(
        state.validate_zone_conservation(),
        Ok(ZoneConservation { object_count: 9 })
    );
}

#[test]
fn kept_hand_cards_go_under_the_library_in_chosen_order() {
    let mut state = GameState::new();
    let player = add_player(&mut state);
    let library = ZoneId::new(Some(player), ZoneKind::Library);
    let hand = ZoneId::new(Some(player), ZoneKind::Hand);
    for card in 0..10 {
        create(&mut state, 200 + card, player, library);
    }
    assert!(matches!(
        apply(&mut state, Action::DecideTurnOrder),
        Outcome::TurnOrderDecided(_)
    ));
    assert_eq!(apply(&mut state, Action::DrawOpeningHands), Outcome::Applied);
    assert_eq!(
        apply(&mut state, Action::TakeMulligan { player }),
        Outcome::Applied
    );
    assert_eq!(
        apply(&mut state, Action::TakeMulligan { player }),
        Outcome::Applied
    );
    let hand_before = zone_objects(&state, hand);
    let library_before = zone_objects(&state, library);
    let chosen = vec![hand_before[3], hand_before[1]];
    assert_eq!(
        apply(
            &mut state,
            Action::KeepOpeningHand {
                player,
                bottom: chosen.clone(),
            },
        ),
        Outcome::Applied
    );
    let mut expected_library = chosen.clone();
    expected_library.extend(library_before);
    assert_eq!(zone_objects(&state, library), expected_library);
    let expected_hand: Vec<ObjectId> = hand_before
        .iter()
        .copied()
        .filter(|object| !chosen.contains(object))
        .collect();
    assert_eq!(zone_objects(&state, hand), expected_hand);
}

#[test]
fn zone_conservation_reports_duplicate_membership() {
    let mut state = GameState::new();
    let player = add_player(&mut state);
    let hand = ZoneId::new(Some(player), ZoneKind::Hand);
    let object = create(&mut state, 1, player, hand);
    state.zones.push(Zone {
        id: ZoneId::new(None, ZoneKind::Battlefield),
        objects: vec![object],
    });
    assert_eq!(
        state.validate_zone_conservation(),
        Err(StateError::DuplicateZoneMembership(object))
    );
}

#[test]
fn zone_conservation_reports_missing_membership() {
    let mut state = GameState::new();
    let player = add_player(&mut state);
    let hand = ZoneId::new(Some(player), ZoneKind::Hand);
    let object = create(&mut state, 1, player, hand);
    for zone in state.zones.iter_mut() {
        zone.objects.clear();
    }
    assert_eq!(
        state.validate_zone_conservation(),
        Err(StateError::MissingZoneMembership(object))
    );
}

#[test]
fn zone_conservation_reports_object_outside_the_arena() {
    let mut state = GameState::new();
    let battlefield = ZoneId::new(None, ZoneKind::Battlefield);
    state.zones[0].objects.push(ObjectId(7));
    assert_eq!(
        state.validate_zone_conservation(),
        Err(StateError::InvalidZoneObject {
            zone: battlefield,
            object: ObjectId(7),
        })
    );
}

#[test]
fn zone_conservation_reports_invalid_zone_owner() {
    let mut state = GameState::new();
    let bad = ZoneId::new(None, ZoneKind::Hand);
    state.zones.push(Zone {
        id: bad,
        objects: Vec::new(),
    });
    assert_eq!(
        state.validate_zone_conservation(),
        Err(StateError::InvalidZoneOwner(bad))
    );
}

#[test]
fn refused_mutator_leaves_state_and_cursor_unchanged() {
    let mut state = GameState::new();
    add_player(&mut state);
    let cursor = state.event_cursor();
    let hash = state.deterministic_hash();
    assert_eq!(
        apply(
            &mut state,
            Action::SetPlayerLife {
                player: PlayerId(4),
                life: 3,
            },
        ),
        Outcome::Failed(StateError::UnknownPlayer(PlayerId(4)))
    );
    assert_eq!(
        apply(
            &mut state,
            Action::SetObjectTapped {
                object: ObjectId(2),
                tapped: true,
            },
        ),
        Outcome::Failed(StateError::UnknownObject(ObjectId(2)))
    );
    assert_eq!(state.event_cursor(), cursor);
    assert_eq!(state.deterministic_hash(), hash);
    assert_eq!(state.deterministic_hash_streaming(), hash);
}

#[test]
fn event_ring_stays_within_capacity() {
    let mut state = GameState::new();
    for seed in 0..(EVENT_RING_CAPACITY as u64 * 2) {
        assert_eq!(apply(&mut state, Action::SetSeed { seed }), Outcome::Applied);
        assert!(state.events_this_turn().len() <= EVENT_RING_CAPACITY);
    }
    let events = state.events_this_turn();
    assert_eq!(events.len(), EVENT_RING_CAPACITY);
    for (offset, record) in events.iter().enumerate() {
        assert_eq!(
            record.sequence(),
            EVENT_RING_CAPACITY as u64 + offset as u64
        );
    }
}

#[test]
fn cursor_reads_back_exactly_the_events_since_it_was_taken() {
    let mut state = GameState::new();
    assert_eq!(apply(&mut state, Action::SetSeed { seed: 1 }), Outcome::Applied);
    let cursor = state.event_cursor();
    assert_eq!(state.events_since(cursor).map(|s| s.len()), Ok(0));
    for seed in 2..6 {
        assert_eq!(apply(&mut state, Action::SetSeed { seed }), Outcome::Applied);
    }
    let since = state
        .events_since(cursor)
        .unwrap_or_else(|error| panic!("unexpected cursor error: {error:?}"));
    assert_eq!(since.len(), 4);
    assert_eq!(since[0].sequence(), 1);
    assert_eq!(since[3].sequence(), 4);
}

#[test]
fn cursor_from_the_future_is_rejected() {
    let state = GameState::new();
    let mut cursor = state.event_cursor();
    cursor.next_sequence = 3;
    assert_eq!(
        state.events_since(cursor),
        Err(EventReplayError::CursorInFuture {
            requested: 3,
            next_sequence: 0,
        })
    );
}

#[test]
fn state_based_check_leaves_no_living_player_at_zero_life() {
    let mut state = GameState::new();
    let first = add_player(&mut state);
    let second = add_player(&mut state);
    let third = add_player(&mut state);
    assert_eq!(
        apply(
            &mut state,
            Action::SetPlayerLife {
                player: first,
                life: 0,
            },
        ),
        Outcome::Applied
    );
    assert_eq!(
        apply(
            &mut state,
            Action::AddPoisonCounters {
                player: second,
                amount: 10,
            },
        ),
        Outcome::Applied
    );
    assert!(matches!(
        apply(&mut state, Action::CheckStateBasedActions),
        Outcome::StateBasedActions(_)
    ));
    for player in state.players() {
        if !player.lost() {
            assert!(player.life() > 0);
            assert!(player.poison() < 10);
        }
    }
    assert!(state.players()[first.index()].lost());
    assert!(state.players()[second.index()].lost());
    assert_eq!(state.game_outcome(), GameOutcome::Won(third));
}

#[test]
fn duration_marker_action_reports_the_next_marker_id() {
    let mut state = GameState::new();
    assert_eq!(
        apply(
            &mut state,
            Action::AddDurationMarker {
                duration: EffectDuration::UntilEndOfTurn,
            },
        ),
        Outcome::DurationMarkerAdded(DurationMarkerId(0))
    );
    assert_eq!(
        apply(
            &mut state,
            Action::AddDurationMarker {
                duration: EffectDuration::UntilEndOfTurn,
            },
        ),
        Outcome::DurationMarkerAdded(DurationMarkerId(1))
    );
}

#[test]
fn turn_order_needs_players_and_is_decided_once() {
    let mut state = GameState::new();
    assert_eq!(
        apply(&mut state, Action::DecideTurnOrder),
        Outcome::Failed(StateError::NoPlayers)
    );
    add_player(&mut state);
    assert!(matches!(
        apply(&mut state, Action::DecideTurnOrder),
        Outcome::TurnOrderDecided(PlayerId(0))
    ));
    assert_eq!(
        apply(&mut state, Action::DecideTurnOrder),
        Outcome::Failed(StateError::TurnOrderAlreadyDecided)
    );
}

#[test]
fn advancing_before_a_turn_starts_is_refused() {
    let mut state = GameState::new();
    assert_eq!(
        apply(&mut state, Action::AdvanceStep),
        Outcome::Failed(StateError::TurnNotStarted)
    );
    assert_eq!(
        apply(
            &mut state,
            Action::StartTurn {
                active_player: PlayerId(0),
            },
        ),
        Outcome::Failed(StateError::UnknownPlayer(PlayerId(0)))
    );
}

fn creature_on_battlefield(
    state: &mut GameState,
    controller: PlayerId,
    card: u32,
    toughness: i32,
    keywords: CreatureKeywords,
) -> ObjectId {
    let object = create(state, card, controller, ZoneId::new(None, ZoneKind::Battlefield));
    state
        .set_base_creature_characteristics(
            object,
            BaseCreatureCharacteristics::new(2, toughness).with_keywords(keywords),
        )
        .unwrap_or_else(|error| panic!("unexpected characteristics error: {error:?}"));
    object
}

fn reach_declare_attackers(state: &mut GameState, active: PlayerId) {
    let library = ZoneId::new(Some(active), ZoneKind::Library);
    create(state, 9_000, active, library);
    state
        .start_turn(active)
        .unwrap_or_else(|error| panic!("unexpected start error: {error:?}"));
    while state.current_step() != Some(Step::DeclareAttackers) {
        state
            .advance_step()
            .unwrap_or_else(|error| panic!("unexpected step error: {error:?}"));
    }
}

#[test]
fn state_based_check_leaves_no_creature_due_to_die() {
    let mut state = GameState::new();
    let player = add_player(&mut state);
    let battlefield = ZoneId::new(None, ZoneKind::Battlefield);
    let graveyard = ZoneId::new(Some(player), ZoneKind::Graveyard);
    let damaged = creature_on_battlefield(&mut state, player, 1, 2, CreatureKeywords::none());
    let fragile = creature_on_battlefield(&mut state, player, 2, 0, CreatureKeywords::none());
    let healthy = creature_on_battlefield(&mut state, player, 3, 3, CreatureKeywords::none());
    assert_eq!(
        apply(&mut state, Action::MarkDamageOnObject { object: damaged, amount: 2 }),
        Outcome::Applied
    );
    assert_eq!(
        apply(&mut state, Action::MarkDamageOnObject { object: healthy, amount: 2 }),
        Outcome::Applied
    );
    assert!(matches!(
        apply(&mut state, Action::CheckStateBasedActions),
        Outcome::StateBasedActions(_)
    ));
    assert_eq!(zone_objects(&state, battlefield), vec![healthy]);
    let dead = zone_objects(&state, graveyard);
    assert!(dead.contains(&damaged));
    assert!(dead.contains(&fragile));
}

#[test]
fn blocking_twice_with_one_creature_is_refused_without_effect() {
    let mut state = GameState::new();
    let active = add_player(&mut state);
    let defender = add_player(&mut state);
    let first = creature_on_battlefield(&mut state, active, 10, 2, CreatureKeywords::none());
    let second = creature_on_battlefield(&mut state, active, 11, 2, CreatureKeywords::none());
    let blocker = creature_on_battlefield(&mut state, defender, 12, 2, CreatureKeywords::none());
    reach_declare_attackers(&mut state, active);
    state
        .declare_attackers(
            active,
            &[AttackDeclaration::new(first, defender), AttackDeclaration::new(second, defender)],
        )
        .unwrap_or_else(|error| panic!("unexpected attack error: {error:?}"));
    state
        .advance_step()
        .unwrap_or_else(|error| panic!("unexpected step error: {error:?}"));
    let before = state.canonical_bytes();
    assert_eq!(
        state.declare_blockers(
            defender,
            &[BlockDeclaration::new(blocker, first), BlockDeclaration::new(blocker, second)]
        ),
        Err(StateError::DuplicateCombatObject(blocker))
    );
    assert_eq!(state.canonical_bytes(), before);
    assert_eq!(
        state.declare_blockers(active, &[]),
        Err(StateError::InvalidCombatPlayer(active))
    );
    assert_eq!(
        state.declare_blockers(PlayerId(7), &[]),
        Err(StateError::UnknownPlayer(PlayerId(7)))
    );
}

#[test]
fn attacking_twice_with_one_creature_is_refused_without_effect() {
    let mut state = GameState::new();
    let active = add_player(&mut state);
    let defender = add_player(&mut state);
    let attacker = creature_on_battlefield(&mut state, active, 20, 2, CreatureKeywords::none());
    reach_declare_attackers(&mut state, active);
    let before = state.canonical_bytes();
    assert_eq!(
        state.declare_attackers(
            active,
            &[AttackDeclaration::new(attacker, defender), AttackDeclaration::new(attacker, defender)]
        ),
        Err(StateError::DuplicateCombatObject(attacker))
    );
    assert_eq!(state.canonical_bytes(), before);
    assert_eq!(
        state.declare_attackers(defender, &[]),
        Err(StateError::InvalidCombatPlayer(defender))
    );
}

#[test]
fn auto_tap_refuses_sources_whose_mana_overflows() {
    let sources = [
        ManaSource::new(ObjectId(0), ManaPool::of(ManaKind::Green, u32::MAX)),
        ManaSource::new(ObjectId(1), ManaPool::of(ManaKind::Green, 1)),
    ];
    assert_eq!(
        enumerate_auto_tap_payment_plans(&sources, ManaCost::new(0, 0, 0, 0, 1, 0)).map(|e| e.plans().len()),
        Err(PaymentError::ManaValueOverflow)
    );
}

#[test]
fn auto_tap_lists_each_plan_once_in_preference_order() {
    let source = ManaSource::new(ObjectId(4), ManaPool::of(ManaKind::Green, 1));
    let plans = enumerate_auto_tap_payment_plans(&[source, source], ManaCost::new(0, 0, 0, 0, 1, 0))
        .unwrap_or_else(|error| panic!("unexpected auto-tap error: {error:?}"));
    assert!(!plans.truncated());
    let lengths: Vec<usize> = plans.plans().iter().map(|plan| plan.taps().len()).collect();
    assert_eq!(lengths, vec![1, 2]);
    assert_eq!(plans.plans()[0].total_waste_score(), 0);
    assert_eq!(plans.plans()[1].total_waste_score(), 1);
    assert_eq!(plans.plans()[1].unspent(), ManaPool::of(ManaKind::Green, 1));
    let best = auto_tap_payment_plan(&[source, source], ManaCost::new(0, 0, 0, 0, 1, 0))
        .unwrap_or_else(|error| panic!("unexpected auto-tap error: {error:?}"))
        .unwrap_or_else(|| panic!("missing best plan"));
    assert_eq!(best.taps().len(), 1);
    assert_eq!(best.taps()[0].source(), ObjectId(4));
}

#[test]
fn losing_life_past_the_minimum_is_refused_without_effect() {
    let mut state = GameState::new();
    let player = add_player(&mut state);
    assert_eq!(
        apply(&mut state, Action::SetPlayerLife { player, life: i32::MIN + 1 }),
        Outcome::Applied
    );
    let before = state.canonical_bytes();
    assert_eq!(
        apply(&mut state, Action::LoseLife { player, amount: 5 }),
        Outcome::Failed(StateError::LifeTotalOverflow)
    );
    assert_eq!(state.canonical_bytes(), before);
    assert_eq!(
        apply(&mut state, Action::GainLife { player, amount: u32::MAX }),
        Outcome::Applied
    );
    assert_eq!(state.players()[player.index()].life(), 0);
}

#[test]
fn passing_priority_through_apply_leaves_the_state_pass_priority_leaves() {
    let mut state = GameState::new();
    let first = add_player(&mut state);
    let second = add_player(&mut state);
    for card in 0..3 {
        create(&mut state, 300 + card, first, ZoneId::new(Some(first), ZoneKind::Library));
        create(&mut state, 310 + card, second, ZoneId::new(Some(second), ZoneKind::Library));
    }
    assert_eq!(
        apply(&mut state, Action::StartTurn { active_player: first }),
        Outcome::Applied
    );
    assert_eq!(
        apply(&mut state, Action::AdvanceStep),
        Outcome::StepAdvanced(Step::Upkeep)
    );
    for player in [first, second, first] {
        let mut direct = state.clone();
        let expected = match direct.pass_priority(player) {
            Ok(outcome) => Outcome::Priority(outcome),
            Err(error) => Outcome::Failed(error),
        };
        assert_eq!(apply(&mut state, Action::PassPriority { player }), expected);
        assert!(state == direct);
    }
}

#[test]
fn refused_keep_leaves_the_state_unchanged() {
    let mut state = GameState::new();
    let player = add_player(&mut state);
    let library = ZoneId::new(Some(player), ZoneKind::Library);
    let hand = ZoneId::new(Some(player), ZoneKind::Hand);
    for card in 0..9 {
        create(&mut state, 400 + card, player, library);
    }
    assert!(matches!(
        apply(&mut state, Action::DecideTurnOrder),
        Outcome::TurnOrderDecided(_)
    ));
    assert_eq!(apply(&mut state, Action::DrawOpeningHands), Outcome::Applied);
    assert_eq!(
        apply(&mut state, Action::TakeMulligan { player }),
        Outcome::Applied
    );
    let in_library = zone_objects(&state, library)[0];
    let in_hand = zone_objects(&state, hand)[0];
    let before = state.clone();
    assert_eq!(
        apply(
            &mut state,
            Action::KeepOpeningHand {
                player,
                bottom: vec![in_library],
            },
        ),
        Outcome::Failed(StateError::OpeningHandBottomCardNotInHand {
            player,
            object: in_library,
        })
    );
    assert!(state == before);
    assert_eq!(
        apply(
            &mut state,
            Action::KeepOpeningHand {
                player,
                bottom: vec![in_hand, in_hand],
            },
        ),
        Outcome::Failed(StateError::InvalidOpeningHandBottomCount {
            expected: 1,
            actual: 2,
        })
    );
    assert!(state == before);
    assert_eq!(
        state.validate_zone_conservation(),
        Ok(ZoneConservation { object_count: 9 })
    );
}

#[test]
fn automatic_payment_wastes_no_more_than_any_listed_plan() {
    let available = ManaPool::new(2, 1, 0, 0, 0, 1);
    let cost = ManaCost::new(1, 0, 0, 0, 0, 2);
    let best = lib::mana::auto_payment_plan(available, cost)
        .unwrap()
        .unwrap();
    let all = enumerate_payment_plans(available, cost).unwrap();
    assert!(!all.plans().is_empty());
    for plan in all.plans() {
        assert!(best.waste_score() <= plan.waste_score());
    }
    assert_eq!(best.waste_score(), 1);
}

#[test]
fn opening_hands_come_from_the_top_of_each_library() {
    let mut state = GameState::new();
    let first = add_player(&mut state);
    let second = add_player(&mut state);
    for card in 0..10 {
        create(&mut state, 500 + card, first, ZoneId::new(Some(first), ZoneKind::Library));
    }
    for card in 0..4 {
        create(&mut state, 600 + card, second, ZoneId::new(Some(second), ZoneKind::Library));
    }
    let first_library = zone_objects(&state, ZoneId::new(Some(first), ZoneKind::Library));
    let second_library = zone_objects(&state, ZoneId::new(Some(second), ZoneKind::Library));
    assert!(matches!(
        apply(&mut state, Action::DecideTurnOrder),
        Outcome::TurnOrderDecided(_)
    ));
    assert_eq!(apply(&mut state, Action::DrawOpeningHands), Outcome::Applied);
    let expected_first_hand: Vec<ObjectId> = first_library[3..].iter().rev().copied().collect();
    assert_eq!(
        zone_objects(&state, ZoneId::new(Some(first), ZoneKind::Hand)),
        expected_first_hand
    );
    assert_eq!(
        zone_objects(&state, ZoneId::new(Some(first), ZoneKind::Library)),
        first_library[..3].to_vec()
    );
    let expected_second_hand: Vec<ObjectId> = second_library.iter().rev().copied().collect();
    assert_eq!(
        zone_objects(&state, ZoneId::new(Some(second), ZoneKind::Hand)),
        expected_second_hand
    );
    assert!(zone_objects(&state, ZoneId::new(Some(second), ZoneKind::Library)).is_empty());
}

#[test]
fn auto_tap_plans_do_not_depend_on_source_order() {
    let sources = vec![
        ManaSource::new(ObjectId(7), ManaPool::of(ManaKind::Red, 1)),
        ManaSource::new(ObjectId(2), ManaPool::of(ManaKind::Green, 1)),
        ManaSource::new(ObjectId(5), ManaPool::new(0, 0, 0, 0, 0, 2)),
        ManaSource::new(ObjectId(3), ManaPool::of(ManaKind::Green, 1)),
    ];
    let mut reversed = sources.clone();
    reversed.reverse();
    let cost = ManaCost::new(0, 0, 0, 0, 1, 2);
    let forward = enumerate_auto_tap_payment_plans(&sources, cost)
        .unwrap_or_else(|error| panic!("unexpected auto-tap error: {error:?}"));
    let backward = enumerate_auto_tap_payment_plans(&reversed, cost)
        .unwrap_or_else(|error| panic!("unexpected auto-tap error: {error:?}"));
    assert!(!forward.plans().is_empty());
    assert_eq!(forward, backward);
    assert_eq!(
        auto_tap_payment_plan(&sources, cost).unwrap(),
        auto_tap_payment_plan(&reversed, cost).unwrap()
    );
}

#[test]
fn payment_plans_come_in_ascending_key_order() {
    let available = ManaPool::new(1, 1, 0, 0, 0, 1);
    let cost = ManaCost::new(0, 0, 0, 0, 0, 2);
    let plans = enumerate_payment_plans(available, cost)
        .unwrap_or_else(|error| panic!("unexpected payment error: {error:?}"));
    let generic: Vec<ManaPool> = plans.plans().iter().map(|plan| plan.generic_paid()).collect();
    assert_eq!(
        generic,
        vec![
            ManaPool::new(0, 1, 0, 0, 0, 1),
            ManaPool::new(1, 0, 0, 0, 0, 1),
            ManaPool::new(1, 1, 0, 0, 0, 0),
        ]
    );
    assert!(!plans.truncated());
}

#[test]
fn passing_on_an_empty_stack_ends_the_step_and_draws() {
    let mut state = GameState::new();
    let active = add_player(&mut state);
    let library = ZoneId::new(Some(active), ZoneKind::Library);
    let hand = ZoneId::new(Some(active), ZoneKind::Hand);
    let card = create(&mut state, 9_100, active, library);
    state
        .start_turn(active)
        .unwrap_or_else(|error| panic!("unexpected start error: {error:?}"));
    assert_eq!(state.advance_step(), Ok(Step::Upkeep));
    assert_eq!(state.priority_player(), Some(active));
    assert_eq!(
        state.pass_priority(active),
        Ok(PriorityOutcome::StepComplete)
    );
    assert_eq!(state.current_step(), Some(Step::Draw));
    assert_eq!(zone_objects(&state, hand), vec![card]);
    assert!(zone_objects(&state, library).is_empty());
}

#[test]
fn the_turn_passes_through_cleanup_to_the_next_player() {
    let mut state = GameState::new();
    let first = add_player(&mut state);
    let second = add_player(&mut state);
    create(&mut state, 9_200, first, ZoneId::new(Some(first), ZoneKind::Library));
    state
        .start_turn(first)
        .unwrap_or_else(|error| panic!("unexpected start error: {error:?}"));
    let turn = state.turn_number();
    while state.current_step() != Some(Step::End) {
        state
            .advance_step()
            .unwrap_or_else(|error| panic!("unexpected step error: {error:?}"));
    }
    assert_eq!(state.advance_step(), Ok(Step::Cleanup));
    assert_eq!(state.current_step(), Some(Step::Cleanup));
    assert_eq!(apply(&mut state, Action::AdvanceStep), Outcome::StepAdvanced(Step::Untap));
    assert_eq!(state.active_player(), Some(second));
    assert_eq!(state.turn_number(), turn + 1);
    assert_eq!(state.current_step(), Some(Step::Untap));
}

#[test]
fn state_based_report_counts_the_losses_and_a_quiet_state_needs_no_pass() {
    let mut state = GameState::new();
    let first = add_player(&mut state);
    let second = add_player(&mut state);
    let _third = add_player(&mut state);
    let quiet = state
        .check_state_based_actions()
        .unwrap_or_else(|error| panic!("unexpected check error: {error:?}"));
    assert_eq!(quiet.iterations(), 0);
    assert_eq!(quiet.players_lost(), 0);
    state
        .set_player_life(first, 0)
        .unwrap_or_else(|error| panic!("unexpected life error: {error:?}"));
    state
        .set_player_life(second, -3)
        .unwrap_or_else(|error| panic!("unexpected life error: {error:?}"));
    let report = state
        .check_state_based_actions()
        .unwrap_or_else(|error| panic!("unexpected check error: {error:?}"));
    assert!(report.iterations() > 0);
    assert_eq!(report.players_lost(), 2);
    assert!(state.players()[first.index()].lost());
    assert!(state.players()[second.index()].lost());
}
