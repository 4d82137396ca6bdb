//! Scenario tests of the rules kernel.

use lib::abilities::AbilityPlayer;
use lib::abilities::ActivatedAbilityDefinition;
use lib::abilities::ActivatedAbilityEffect;
use lib::abilities::ActivationCost;
use lib::abilities::ActivationTiming;
use lib::abilities::CastSpellRequest;
use lib::abilities::CostModifierDefinition;
use lib::abilities::CostModifierOperation;
use lib::abilities::CostModifierScope;
use lib::abilities::ReplacementCondition;
use lib::abilities::ReplacementDamageTargetFilter;
use lib::abilities::ReplacementDefinition;
use lib::abilities::ReplacementDuration;
use lib::abilities::ReplacementOperation;
use lib::abilities::ReplacementSourceFilter;
use lib::abilities::ResolutionOutcome;
use lib::abilities::SpellTiming;
use lib::abilities::StackObjectKind;
use lib::abilities::TargetChoice;
use lib::abilities::TargetKind;
use lib::abilities::TargetRequirement;
use lib::abilities::TriggerCondition;
use lib::abilities::TriggerDefinition;
use lib::abilities::TriggerInterveningIf;
use lib::abilities::TriggerObjectFilter;
use lib::abilities::TriggerPlayerFilter;
use lib::abilities::TriggerZoneFilter;
use lib::action::Action;
use lib::action::Outcome;
use lib::action::apply;
use lib::action::legal_actions;
use lib::characteristics::BaseCreatureCharacteristics;
use lib::characteristics::ContinuousEffectDefinition;
use lib::characteristics::ContinuousEffectOperation;
use lib::characteristics::ContinuousEffectTarget;
use lib::characteristics::CreatureCharacteristics;
use lib::characteristics::CreatureKeywords;
use lib::characteristics::ObjectColors;
use lib::characteristics::ObjectTypes;
use lib::combat::AttackDeclaration;
use lib::combat::BlockDeclaration;
use lib::combat::CombatDamageAssignment;
use lib::combat::CombatDamageAssignmentRequest;
use lib::combat::CombatDamageRecord;
use lib::combat::CombatDamageStepKind;
use lib::combat::CombatDamageTarget;
use lib::crate_ready;
use lib::events::EVENT_RING_CAPACITY;
use lib::events::EventReplayError;
use lib::events::GameEvent;
use lib::ids::CardId;
use lib::ids::ContinuousEffectId;
use lib::ids::ObjectId;
use lib::ids::PlayerId;
use lib::ids::ReplacementEffectId;
use lib::ids::StackEntryId;
use lib::mana::ManaCost;
use lib::mana::ManaKind;
use lib::mana::ManaPool;
use lib::mana::ManaSource;
use lib::mana::PAYMENT_PLAN_LIMIT;
use lib::mana::PaymentError;
use lib::mana::PaymentPlan;
use lib::mana::auto_payment_plan;
use lib::mana::enumerate_auto_tap_payment_plans;
use lib::mana::enumerate_payment_plans;
use lib::mana::validate_payment_plan;
use lib::outcome::GameOutcome;
use lib::outcome::PriorityOutcome;
use lib::outcome::StateBasedActionKind;
use lib::outcome::StateBasedActionReport;
use lib::outcome::state_based_action_table;
use lib::state::GameState;
use lib::state::ObjectView;
use lib::state::StateError;
use lib::state::ZoneConservation;
use lib::turn::EffectDuration;
use lib::turn::NORMAL_TURN_STEPS;
use lib::turn::OPENING_HAND_SIZE;
use lib::turn::Phase;
use lib::turn::Step;
use lib::turn::ZoneId;
use lib::turn::ZoneKind;

#[test]
fn bootstrap_crate_is_ready() {
    assert!(crate_ready());
}

#[test]
fn action_surface_creates_setup_state_without_public_mutators() {
    let mut state = GameState::new();

    assert_eq!(
        apply(&mut state, Action::SetSeed { seed: 17 }),
        Outcome::Applied
    );
    let player = match apply(&mut state, Action::AddPlayer) {
        Outcome::PlayerAdded(player) => player,
        other => panic!("unexpected outcome: {other:?}"),
    };
    let hand = ZoneId::new(Some(player), ZoneKind::Hand);
    let object = match apply(
        &mut state,
        Action::CreateObject {
            card: CardId::new(700),
            owner: player,
            controller: player,
            zone: hand,
        },
    ) {
        Outcome::ObjectCreated(object) => object,
        other => panic!("unexpected outcome: {other:?}"),
    };

    assert_eq!(state.seed(), 17);
    assert_eq!(state.object_zone(object), Some(hand));
}

#[test]
fn event_log_records_setup_and_zone_mutations() {
    let mut state = GameState::new();
    let cursor = state.event_cursor();

    assert_eq!(
        apply(&mut state, Action::SetSeed { seed: 22 }),
        Outcome::Applied
    );
    let player = match apply(&mut state, Action::AddPlayer) {
        Outcome::PlayerAdded(player) => player,
        other => panic!("unexpected player outcome: {other:?}"),
    };
    let hand = ZoneId::new(Some(player), ZoneKind::Hand);
    let battlefield = ZoneId::new(None, ZoneKind::Battlefield);
    let object = match apply(
        &mut state,
        Action::CreateObject {
            card: CardId::new(2_101),
            owner: player,
            controller: player,
            zone: hand,
        },
    ) {
        Outcome::ObjectCreated(object) => object,
        other => panic!("unexpected object outcome: {other:?}"),
    };
    assert_eq!(
        apply(
            &mut state,
            Action::MoveObject {
                object,
                to: battlefield,
            },
        ),
        Outcome::Applied
    );

    let events: Vec<GameEvent> = state
        .events_since(cursor)
        .unwrap_or_else(|error| panic!("unexpected cursor error: {error:?}"))
        .iter()
        .map(|record| record.event())
        .collect();
    assert_eq!(
        events,
        vec![
            GameEvent::SeedSet { seed: 22 },
            GameEvent::PlayerAdded { player },
            GameEvent::ObjectCreated {
                object,
                card: CardId::new(2_101),
                owner: player,
                controller: player,
                zone: hand,
            },
            GameEvent::ObjectMoved {
                object,
                from: hand,
                to: battlefield,
            },
        ]
    );
    for (expected, record) in state.events_this_turn().iter().enumerate() {
        assert_eq!(record.sequence(), expected as u64);
        assert_eq!(record.turn(), 0);
    }
}

#[test]
fn failed_actions_do_not_emit_events() {
    let mut state = GameState::new();
    let cursor = state.event_cursor();

    assert_eq!(
        apply(
            &mut state,
            Action::MoveObject {
                object: ObjectId(99),
                to: ZoneId::new(None, ZoneKind::Battlefield),
            },
        ),
        Outcome::Failed(StateError::UnknownObject(ObjectId(99)))
    );
    assert!(state
        .events_since(cursor)
        .unwrap_or_else(|error| panic!("unexpected cursor error: {error:?}"))
        .is_empty());
    assert_eq!(state.event_cursor(), cursor);
}

#[test]
fn event_ring_is_bounded_and_reports_stale_cursors() {
    let mut state = GameState::new();
    let stale = state.event_cursor();
    for seed in 0..(EVENT_RING_CAPACITY as u64 + 3) {
        assert_eq!(
            apply(&mut state, Action::SetSeed { seed }),
            Outcome::Applied
        );
    }

    assert_eq!(state.events_this_turn().len(), EVENT_RING_CAPACITY);
    assert_eq!(state.events_this_turn()[0].sequence(), 3);
    assert_eq!(
        state.events_since(stale),
        Err(EventReplayError::CursorTooOld {
            requested: 0,
            oldest_retained: 3,
        })
    );
}

#[test]
fn new_turn_resets_event_ring_and_invalidates_old_turn_cursor() {
    let mut state = GameState::new();
    let player = match apply(&mut state, Action::AddPlayer) {
        Outcome::PlayerAdded(player) => player,
        other => panic!("unexpected player outcome: {other:?}"),
    };
    let old_turn = state.event_cursor();

    assert_eq!(
        apply(
            &mut state,
            Action::StartTurn {
                active_player: player,
            },
        ),
        Outcome::Applied
    );

    assert_eq!(
        state.events_since(old_turn),
        Err(EventReplayError::CursorTurnMismatch {
            cursor_turn: 0,
            current_turn: 1,
        })
    );
    let events: Vec<GameEvent> = state
        .events_this_turn()
        .iter()
        .map(|record| record.event())
        .collect();
    assert_eq!(
        events,
        vec![
            GameEvent::TurnStarted {
                turn: 1,
                active_player: player,
            },
            GameEvent::StepBegan { step: Step::Untap },
        ]
    );
}

#[test]
fn triggered_object_move_queues_and_stacks_before_priority() {
    let mut state = GameState::new();
    let active = state.add_player();
    let controller = state.add_player();
    let hand = ZoneId::new(Some(active), ZoneKind::Hand);
    let battlefield = ZoneId::new(None, ZoneKind::Battlefield);
    let object = state
        .create_object(CardId::new(2_201), active, active, hand)
        .unwrap_or_else(|error| panic!("unexpected create error: {error:?}"));
    state
        .start_turn(active)
        .unwrap_or_else(|error| panic!("unexpected start error: {error:?}"));
    state
        .advance_step()
        .unwrap_or_else(|error| panic!("unexpected upkeep advance error: {error:?}"));

    let trigger = match apply(
        &mut state,
        Action::RegisterTriggeredAbility {
            definition: TriggerDefinition::new(
                controller,
                TriggerCondition::ObjectMoved {
                    object: TriggerObjectFilter::Object(object),
                    from: TriggerZoneFilter::Exact(hand),
                    to: TriggerZoneFilter::Exact(battlefield),
                },
            ),
        },
    ) {
        Outcome::TriggerRegistered(trigger) => trigger,
        other => panic!("unexpected trigger registration outcome: {other:?}"),
    };

    assert_eq!(
        apply(
            &mut state,
            Action::MoveObject {
                object,
                to: battlefield,
            },
        ),
        Outcome::Applied
    );

    assert_eq!(state.pending_triggers().len(), 1);
    assert_eq!(state.pending_triggers()[0].trigger(), trigger);
    assert_eq!(state.pending_triggers()[0].controller(), controller);
    assert_eq!(
        legal_actions(&state).actions(),
        &[Action::PutPendingTriggeredAbilitiesOnStack]
    );
    assert_eq!(
        apply(&mut state, Action::PassPriority { player: active }),
        Outcome::Failed(StateError::PendingTriggeredAbilities)
    );

    let entries = match apply(&mut state, Action::PutPendingTriggeredAbilitiesOnStack) {
        Outcome::StackEntriesAdded(entries) => entries,
        other => panic!("unexpected pending trigger stack outcome: {other:?}"),
    };
    assert_eq!(entries.len(), 1);
    let top = state
        .stack_top()
        .unwrap_or_else(|| panic!("missing trigger stack entry"));
    assert_eq!(top.id(), entries[0]);
    assert_eq!(top.controller(), controller);
    assert_eq!(top.trigger(), Some(trigger));
    assert_eq!(top.kind(), StackObjectKind::TriggeredAbility);
    assert_eq!(state.priority_player(), Some(active));
    assert_eq!(
        state.events_this_turn().last().map(|record| record.event()),
        Some(GameEvent::TriggeredAbilityPutOnStack {
            trigger,
            entry: entries[0],
            controller,
        })
    );
}

#[test]
fn triggered_abilities_use_apnap_stack_order() {
    let mut state = GameState::new();
    let active = state.add_player();
    let second = state.add_player();
    let third = state.add_player();
    state
        .start_turn(active)
        .unwrap_or_else(|error| panic!("unexpected start error: {error:?}"));

    for controller in [third, active, second] {
        assert!(matches!(
            apply(
                &mut state,
                Action::RegisterTriggeredAbility {
                    definition: TriggerDefinition::new(
                        controller,
                        TriggerCondition::LifeLost {
                            player: TriggerPlayerFilter::Any,
                        },
                    ),
                },
            ),
            Outcome::TriggerRegistered(_)
        ));
    }

    assert_eq!(
        apply(
            &mut state,
            Action::LoseLife {
                player: second,
                amount: 1,
            },
        ),
        Outcome::Applied
    );
    assert_eq!(state.pending_triggers().len(), 3);

    let entries = match apply(&mut state, Action::PutPendingTriggeredAbilitiesOnStack) {
        Outcome::StackEntriesAdded(entries) => entries,
        other => panic!("unexpected APNAP stack outcome: {other:?}"),
    };
    assert_eq!(entries.len(), 3);
    let controllers: Vec<PlayerId> = state
        .stack_entries()
        .iter()
        .map(|entry| entry.controller())
        .collect();
    assert_eq!(controllers, vec![active, second, third]);
    assert_eq!(
        state.stack_top().map(|entry| entry.controller()),
        Some(third)
    );
}

#[test]
fn intervening_if_blocks_and_delayed_trigger_retires() {
    let mut blocked = GameState::new();
    let active = blocked.add_player();
    let source = blocked
        .create_object(
            CardId::new(2_202),
            active,
            active,
            ZoneId::new(Some(active), ZoneKind::Hand),
        )
        .unwrap_or_else(|error| panic!("unexpected source create error: {error:?}"));
    assert!(matches!(
        apply(
            &mut blocked,
            Action::RegisterTriggeredAbility {
                definition: TriggerDefinition::new(
                    active,
                    TriggerCondition::StepBegan { step: Step::Upkeep },
                )
                .with_source(source)
                .with_intervening_if(TriggerInterveningIf::SourceInZone(ZoneId::new(
                    None,
                    ZoneKind::Battlefield,
                ))),
            },
        ),
        Outcome::TriggerRegistered(_)
    ));
    blocked
        .start_turn(active)
        .unwrap_or_else(|error| panic!("unexpected blocked start error: {error:?}"));
    blocked
        .advance_step()
        .unwrap_or_else(|error| panic!("unexpected blocked upkeep error: {error:?}"));
    assert!(blocked.pending_triggers().is_empty());
    assert_eq!(blocked.priority_player(), Some(active));

    let mut delayed = GameState::new();
    let active = delayed.add_player();
    let source = delayed
        .create_object(
            CardId::new(2_203),
            active,
            active,
            ZoneId::new(None, ZoneKind::Battlefield),
        )
        .unwrap_or_else(|error| panic!("unexpected delayed source create error: {error:?}"));
    let trigger = match apply(
        &mut delayed,
        Action::RegisterTriggeredAbility {
            definition: TriggerDefinition::new(
                active,
                TriggerCondition::StepBegan { step: Step::Upkeep },
            )
            .with_source(source)
            .with_intervening_if(TriggerInterveningIf::ControllerControlsSource)
            .delayed_once(),
        },
    ) {
        Outcome::TriggerRegistered(trigger) => trigger,
        other => panic!("unexpected delayed registration outcome: {other:?}"),
    };
    delayed
        .start_turn(active)
        .unwrap_or_else(|error| panic!("unexpected delayed start error: {error:?}"));
    delayed
        .advance_step()
        .unwrap_or_else(|error| panic!("unexpected delayed upkeep error: {error:?}"));

    assert_eq!(delayed.pending_triggers().len(), 1);
    assert_eq!(delayed.pending_triggers()[0].trigger(), trigger);
    assert_eq!(delayed.trigger_subscriptions().len(), 0);
    assert_eq!(delayed.priority_player(), None);
}

#[test]
fn trigger_state_participates_in_canonical_hashes() {
    let mut state = GameState::new();
    let active = state.add_player();
    assert!(matches!(
        apply(
            &mut state,
            Action::RegisterTriggeredAbility {
                definition: TriggerDefinition::new(
                    active,
                    TriggerCondition::LifeGained {
                        player: TriggerPlayerFilter::Controller,
                    },
                )
                .with_intervening_if(TriggerInterveningIf::ControllerLifeAtMost(25)),
            },
        ),
        Outcome::TriggerRegistered(_)
    ));
    assert_eq!(
        state.deterministic_hash(),
        state.deterministic_hash_streaming()
    );

    assert_eq!(
        apply(
            &mut state,
            Action::GainLife {
                player: active,
                amount: 1,
            },
        ),
        Outcome::Applied
    );
    assert_eq!(state.pending_triggers().len(), 1);
    assert_eq!(
        state.deterministic_hash(),
        state.deterministic_hash_streaming()
    );
}

#[test]
fn affected_player_orders_damage_replacements() {
    let mut default_order = GameState::new();
    let source_controller = default_order.add_player();
    let affected = default_order.add_player();
    let source = battlefield_creature(
        &mut default_order,
        source_controller,
        2_301,
        3,
        3,
        CreatureKeywords::default(),
    );
    let condition = ReplacementCondition::DamageWouldBeDealt {
        source: ReplacementSourceFilter::Any,
        target: ReplacementDamageTargetFilter::Player(affected),
        combat_only: true,
    };
    let double = register_replacement(
        &mut default_order,
        ReplacementDefinition::new(affected, condition, ReplacementOperation::DoubleDamage),
    );
    let prevent = register_replacement(
        &mut default_order,
        ReplacementDefinition::new(affected, condition, ReplacementOperation::PreventDamage(2)),
    );
    let record = combat_damage_record(source, CombatDamageTarget::Player(affected), 3);
    let final_record = default_order
        .apply_combat_damage(record)
        .unwrap_or_else(|error| panic!("unexpected combat damage error: {error:?}"))
        .unwrap_or_else(|| panic!("damage should remain after default replacements"));
    assert_eq!(final_record.amount(), 4);
    assert_eq!(default_order.players()[affected.index()].life(), 16);
    assert_eq!(
        replacement_applications(&default_order),
        vec![double, prevent]
    );

    let mut chosen_order = GameState::new();
    let source_controller = chosen_order.add_player();
    let affected = chosen_order.add_player();
    let source = battlefield_creature(
        &mut chosen_order,
        source_controller,
        2_302,
        3,
        3,
        CreatureKeywords::default(),
    );
    let double = register_replacement(
        &mut chosen_order,
        ReplacementDefinition::new(affected, condition, ReplacementOperation::DoubleDamage),
    );
    let prevent = register_replacement(
        &mut chosen_order,
        ReplacementDefinition::new(affected, condition, ReplacementOperation::PreventDamage(2)),
    );
    assert_eq!(
        apply(
            &mut chosen_order,
            Action::SetReplacementChoiceOrder {
                chooser: affected,
                order: vec![prevent, double],
            },
        ),
        Outcome::Applied
    );
    let final_record = chosen_order
        .apply_combat_damage(combat_damage_record(
            source,
            CombatDamageTarget::Player(affected),
            3,
        ))
        .unwrap_or_else(|error| panic!("unexpected chosen combat damage error: {error:?}"))
        .unwrap_or_else(|| panic!("damage should remain after chosen replacements"));
    assert_eq!(final_record.amount(), 2);
    assert_eq!(chosen_order.players()[affected.index()].life(), 18);
    assert_eq!(
        replacement_applications(&chosen_order),
        vec![prevent, double]
    );
}

#[test]
fn self_replacement_applies_before_affected_choice_order() {
    let mut state = GameState::new();
    let source_controller = state.add_player();
    let affected = state.add_player();
    let source = battlefield_creature(
        &mut state,
        source_controller,
        2_303,
        3,
        3,
        CreatureKeywords::default(),
    );
    let condition = ReplacementCondition::DamageWouldBeDealt {
        source: ReplacementSourceFilter::Any,
        target: ReplacementDamageTargetFilter::Player(affected),
        combat_only: true,
    };
    let prevent = register_replacement(
        &mut state,
        ReplacementDefinition::new(affected, condition, ReplacementOperation::PreventDamage(2)),
    );
    let self_double = register_replacement(
        &mut state,
        ReplacementDefinition::new(affected, condition, ReplacementOperation::DoubleDamage)
            .with_self_replacement(),
    );
    assert_eq!(
        apply(
            &mut state,
            Action::SetReplacementChoiceOrder {
                chooser: affected,
                order: vec![prevent, self_double],
            },
        ),
        Outcome::Applied
    );

    let final_record = state
        .apply_combat_damage(combat_damage_record(
            source,
            CombatDamageTarget::Player(affected),
            3,
        ))
        .unwrap_or_else(|error| panic!("unexpected self replacement error: {error:?}"))
        .unwrap_or_else(|| panic!("damage should remain after self replacement"));
    assert_eq!(final_record.amount(), 4);
    assert_eq!(state.players()[affected.index()].life(), 16);
    assert_eq!(replacement_applications(&state), vec![self_double, prevent]);
}

#[test]
fn prevent_all_combat_damage_blocks_lifelink_deathtouch_and_damage_marking() {
    let mut state = GameState::new();
    let active = state.add_player();
    let defender = state.add_player();
    let source =
        battlefield_creature(&mut state, active, 2_304, 3, 3, CreatureKeywords::default());
    let target = battlefield_creature(
        &mut state,
        defender,
        2_305,
        3,
        3,
        CreatureKeywords::default(),
    );
    let prevention = register_replacement(
        &mut state,
        ReplacementDefinition::new(
            defender,
            ReplacementCondition::DamageWouldBeDealt {
                source: ReplacementSourceFilter::Any,
                target: ReplacementDamageTargetFilter::Object(target),
                combat_only: true,
            },
            ReplacementOperation::PreventAllDamage,
        ),
    );

    let final_record = state
        .apply_combat_damage(CombatDamageRecord {
            source,
            target: CombatDamageTarget::Object(target),
            amount: 3,
            step: CombatDamageStepKind::Regular,
            source_had_deathtouch: true,
            source_had_lifelink: true,
        })
        .unwrap_or_else(|error| panic!("unexpected prevention error: {error:?}"));
    assert_eq!(final_record, None);
    let target_record = state
        .objects()
        .get(target)
        .unwrap_or_else(|| panic!("missing target creature"));
    assert_eq!(target_record.damage_marked(), 0);
    assert!(!target_record.deathtouch_damage_marked());
    assert_eq!(state.players()[active.index()].life(), 20);
    assert_eq!(replacement_applications(&state), vec![prevention]);
    assert!(!state
        .events_this_turn()
        .iter()
        .any(|record| matches!(record.event(), GameEvent::DamageMarked { .. })));
}

#[test]
fn replacement_state_participates_in_canonical_hashes() {
    let mut state = GameState::new();
    let active = state.add_player();
    let affected = state.add_player();
    let source =
        battlefield_creature(&mut state, active, 2_306, 2, 2, CreatureKeywords::default());
    let replacement = register_replacement(
        &mut state,
        ReplacementDefinition::new(
            affected,
            ReplacementCondition::DamageWouldBeDealt {
                source: ReplacementSourceFilter::Any,
                target: ReplacementDamageTargetFilter::Player(affected),
                combat_only: true,
            },
            ReplacementOperation::PreventDamage(1),
        )
        .with_duration(ReplacementDuration::Once),
    );
    assert_eq!(
        state.deterministic_hash(),
        state.deterministic_hash_streaming()
    );
    assert_eq!(
        apply(
            &mut state,
            Action::SetReplacementChoiceOrder {
                chooser: affected,
                order: vec![replacement],
            },
        ),
        Outcome::Applied
    );
    assert_eq!(
        state.deterministic_hash(),
        state.deterministic_hash_streaming()
    );

    let final_record = state
        .apply_combat_damage(combat_damage_record(
            source,
            CombatDamageTarget::Player(affected),
            2,
        ))
        .unwrap_or_else(|error| panic!("unexpected once replacement error: {error:?}"))
        .unwrap_or_else(|| panic!("one damage should remain"));
    assert_eq!(final_record.amount(), 1);
    assert_eq!(state.replacement_effects().len(), 0);
    assert_eq!(
        state.deterministic_hash(),
        state.deterministic_hash_streaming()
    );
}


#[test]
fn same_layer_dependency_overrides_timestamp_order() {
    let mut state = GameState::new();
    let controller = state.add_player();
    let object = battlefield_creature(
        &mut state,
        controller,
        2_401,
        2,
        2,
        CreatureKeywords::none(),
    );
    let black = register_continuous(
        &mut state,
        ContinuousEffectDefinition::new(
            controller,
            ContinuousEffectTarget::Object(object),
            ContinuousEffectOperation::SetColors {
                colors: ObjectColors::none().with_black(),
            },
        )
        .with_timestamp(10),
    );
    register_continuous(
        &mut state,
        ContinuousEffectDefinition::new(
            controller,
            ContinuousEffectTarget::Object(object),
            ContinuousEffectOperation::SetColors {
                colors: ObjectColors::none().with_green(),
            },
        )
        .with_timestamp(1)
        .with_dependencies(vec![black]),
    );

    let characteristics = state
        .object_characteristics(object)
        .unwrap_or_else(|error| panic!("unexpected characteristics error: {error:?}"));
    assert_eq!(characteristics.colors(), ObjectColors::none().with_green());
    assert_eq!(
        state.deterministic_hash(),
        state.deterministic_hash_streaming()
    );
}

#[test]
fn power_toughness_sublayers_apply_in_cr_order() {
    let mut state = GameState::new();
    let controller = state.add_player();
    let object = battlefield_creature(
        &mut state,
        controller,
        2_402,
        1,
        4,
        CreatureKeywords::none(),
    );
    register_continuous(
        &mut state,
        ContinuousEffectDefinition::new(
            controller,
            ContinuousEffectTarget::Object(object),
            ContinuousEffectOperation::SwitchPowerToughness,
        )
        .with_timestamp(2),
    );
    register_continuous(
        &mut state,
        ContinuousEffectDefinition::new(
            controller,
            ContinuousEffectTarget::Object(object),
            ContinuousEffectOperation::ModifyPowerToughness {
                power: 2,
                toughness: -1,
            },
        )
        .with_timestamp(1),
    );
    register_continuous(
        &mut state,
        ContinuousEffectDefinition::new(
            controller,
            ContinuousEffectTarget::Object(object),
            ContinuousEffectOperation::SetPowerToughness {
                power: 3,
                toughness: 5,
            },
        )
        .with_timestamp(5),
    );

    let creature = state
        .creature_characteristics(object)
        .unwrap_or_else(|error| panic!("unexpected creature error: {error:?}"));
    assert_eq!(creature.power(), 4);
    assert_eq!(creature.toughness(), 5);
}

#[test]
fn copy_layer_uses_base_copiable_values() {
    let mut state = GameState::new();
    let controller = state.add_player();
    let source = battlefield_creature(
        &mut state,
        controller,
        2_403,
        2,
        3,
        CreatureKeywords::none(),
    );
    let target = battlefield_creature(
        &mut state,
        controller,
        2_404,
        1,
        1,
        CreatureKeywords::none(),
    );
    register_continuous(
        &mut state,
        ContinuousEffectDefinition::new(
            controller,
            ContinuousEffectTarget::Object(source),
            ContinuousEffectOperation::ModifyPowerToughness {
                power: 7,
                toughness: 7,
            },
        ),
    );
    register_continuous(
        &mut state,
        ContinuousEffectDefinition::new(
            controller,
            ContinuousEffectTarget::Object(target),
            ContinuousEffectOperation::CopyBaseCreature { from: source },
        ),
    );

    let source_creature = state
        .creature_characteristics(source)
        .unwrap_or_else(|error| panic!("unexpected source creature error: {error:?}"));
    let target_creature = state
        .creature_characteristics(target)
        .unwrap_or_else(|error| panic!("unexpected target creature error: {error:?}"));
    assert_eq!(source_creature.power(), 9);
    assert_eq!(source_creature.toughness(), 10);
    assert_eq!(target_creature.power(), 2);
    assert_eq!(target_creature.toughness(), 3);
}

#[test]
fn control_layer_updates_effective_controller() {
    let mut state = GameState::new();
    let original = state.add_player();
    let new_controller = state.add_player();
    let object =
        battlefield_creature(&mut state, original, 2_405, 2, 2, CreatureKeywords::none());
    register_continuous(
        &mut state,
        ContinuousEffectDefinition::new(
            new_controller,
            ContinuousEffectTarget::Object(object),
            ContinuousEffectOperation::ChangeController {
                controller: new_controller,
            },
        ),
    );

    assert_eq!(state.object_controller(object), Ok(new_controller));
    assert_ne!(
        state
            .objects()
            .get(object)
            .map(|record| record.controller()),
        Some(new_controller)
    );
}

#[test]
fn continuous_effect_state_participates_in_hashes() {
    let mut state = GameState::new();
    let controller = state.add_player();
    let object = battlefield_creature(
        &mut state,
        controller,
        2_406,
        2,
        2,
        CreatureKeywords::none(),
    );
    let before = state.deterministic_hash();

    register_continuous(
        &mut state,
        ContinuousEffectDefinition::new(
            controller,
            ContinuousEffectTarget::Object(object),
            ContinuousEffectOperation::SetTypes {
                types: ObjectTypes::none().with_artifact().with_creature(),
            },
        ),
    );

    assert_ne!(state.deterministic_hash(), before);
    assert_eq!(
        state.deterministic_hash(),
        state.deterministic_hash_streaming()
    );
}

#[test]
fn legal_actions_return_actions_that_apply_accepts() {
    let mut state = GameState::new();
    let active = state.add_player();
    let next = state.add_player();

    assert_eq!(state.start_turn(active), Ok(()));
    assert_eq!(state.advance_step(), Ok(Step::Upkeep));

    let actions = legal_actions(&state);

    assert_eq!(actions.len(), 1);
    assert_eq!(
        actions.actions(),
        &[Action::PassPriority { player: active }]
    );
    assert_eq!(
        apply(&mut state, actions.actions()[0].clone()),
        Outcome::Priority(PriorityOutcome::PassedTo(next))
    );
}

#[test]
fn base_characteristics_are_derived_before_rules_use() {
    let mut state = GameState::new();
    let player = match apply(&mut state, Action::AddPlayer) {
        Outcome::PlayerAdded(player) => player,
        other => panic!("unexpected player outcome: {other:?}"),
    };
    let battlefield = ZoneId::new(None, ZoneKind::Battlefield);
    let object = match apply(
        &mut state,
        Action::CreateObject {
            card: CardId::new(701),
            owner: player,
            controller: player,
            zone: battlefield,
        },
    ) {
        Outcome::ObjectCreated(object) => object,
        other => panic!("unexpected object outcome: {other:?}"),
    };
    let base = BaseCreatureCharacteristics::new(2, 0)
        .with_keywords(CreatureKeywords::none().with_vigilance());

    assert_eq!(
        apply(
            &mut state,
            Action::SetBaseCreatureCharacteristics { object, base }
        ),
        Outcome::Applied
    );
    assert_eq!(
        state
            .objects()
            .get(object)
            .and_then(|record| record.base_creature()),
        Some(base)
    );
    assert_eq!(
        state.creature_characteristics(object),
        Ok(CreatureCharacteristics::new(2, 0)
            .with_keywords(CreatureKeywords::none().with_vigilance()))
    );
    assert_eq!(
        apply(&mut state, Action::CheckStateBasedActions),
        Outcome::StateBasedActions(StateBasedActionReport {
            iterations: 1,
            actions_performed: 1,
            players_lost: 0,
            permanents_moved_to_graveyard: 1,
            empty_library_draw_losses: 0,
            zero_toughness_creatures: 1,
            lethal_damage_creatures: 0,
            deathtouch_damage_creatures: 0,
        })
    );
    assert_eq!(
        state.object_zone(object),
        Some(ZoneId::new(Some(player), ZoneKind::Graveyard))
    );
}

#[test]
fn player_view_hides_opponent_hand_and_library_objects() {
    let mut state = GameState::new();
    let alice = match apply(&mut state, Action::AddPlayer) {
        Outcome::PlayerAdded(player) => player,
        other => panic!("unexpected alice outcome: {other:?}"),
    };
    let bob = match apply(&mut state, Action::AddPlayer) {
        Outcome::PlayerAdded(player) => player,
        other => panic!("unexpected bob outcome: {other:?}"),
    };
    let alice_hand = ZoneId::new(Some(alice), ZoneKind::Hand);
    let alice_library = ZoneId::new(Some(alice), ZoneKind::Library);
    let bob_hand = ZoneId::new(Some(bob), ZoneKind::Hand);
    let bob_library = ZoneId::new(Some(bob), ZoneKind::Library);
    let battlefield = ZoneId::new(None, ZoneKind::Battlefield);

    let alice_hand_object = match apply(
        &mut state,
        Action::CreateObject {
            card: CardId::new(710),
            owner: alice,
            controller: alice,
            zone: alice_hand,
        },
    ) {
        Outcome::ObjectCreated(object) => object,
        other => panic!("unexpected alice hand object outcome: {other:?}"),
    };
    match apply(
        &mut state,
        Action::CreateObject {
            card: CardId::new(714),
            owner: alice,
            controller: alice,
            zone: alice_library,
        },
    ) {
        Outcome::ObjectCreated(_) => {}
        other => panic!("unexpected alice library object outcome: {other:?}"),
    }
    match apply(
        &mut state,
        Action::CreateObject {
            card: CardId::new(711),
            owner: bob,
            controller: bob,
            zone: bob_hand,
        },
    ) {
        Outcome::ObjectCreated(_) => {}
        other => panic!("unexpected bob hand object outcome: {other:?}"),
    }
    match apply(
        &mut state,
        Action::CreateObject {
            card: CardId::new(712),
            owner: bob,
            controller: bob,
            zone: bob_library,
        },
    ) {
        Outcome::ObjectCreated(_) => {}
        other => panic!("unexpected bob library object outcome: {other:?}"),
    }
    let battlefield_object = match apply(
        &mut state,
        Action::CreateObject {
            card: CardId::new(713),
            owner: bob,
            controller: bob,
            zone: battlefield,
        },
    ) {
        Outcome::ObjectCreated(object) => object,
        other => panic!("unexpected battlefield object outcome: {other:?}"),
    };

    let view = state
        .player_view(alice)
        .unwrap_or_else(|error| panic!("unexpected player view error: {error:?}"));
    let alice_hand_view = view
        .zone(alice_hand)
        .unwrap_or_else(|| panic!("missing alice hand view"));
    let alice_library_view = view
        .zone(alice_library)
        .unwrap_or_else(|| panic!("missing alice library view"));
    let bob_hand_view = view
        .zone(bob_hand)
        .unwrap_or_else(|| panic!("missing bob hand view"));
    let bob_library_view = view
        .zone(bob_library)
        .unwrap_or_else(|| panic!("missing bob library view"));
    let battlefield_view = view
        .zone(battlefield)
        .unwrap_or_else(|| panic!("missing battlefield view"));

    assert_eq!(
        alice_hand_view.objects(),
        &[ObjectView::Known {
            object: state
                .objects()
                .get(alice_hand_object)
                .unwrap_or_else(|| panic!("missing alice hand object"))
        }]
    );
    assert_eq!(alice_library_view.objects(), &[ObjectView::Hidden]);
    assert_eq!(bob_hand_view.objects(), &[ObjectView::Hidden]);
    assert_eq!(bob_library_view.objects(), &[ObjectView::Hidden]);
    assert_eq!(
        battlefield_view.objects(),
        &[ObjectView::Known {
            object: state
                .objects()
                .get(battlefield_object)
                .unwrap_or_else(|| panic!("missing battlefield object"))
        }]
    );
    assert!(bob_hand_view.objects()[0].is_hidden());
    assert_eq!(bob_hand_view.objects()[0].known(), None);
}

#[test]
fn player_view_rejects_unknown_observer() {
    let state = GameState::new();

    assert_eq!(
        state.player_view(PlayerId(99)),
        Err(StateError::UnknownPlayer(PlayerId(99)))
    );
}

#[test]
fn turn_order_decision_is_deterministic_from_seed() {
    let mut left = GameState::new();
    let mut right = GameState::new();
    for state in [&mut left, &mut right] {
        assert_eq!(
            apply(state, Action::SetSeed { seed: 103 }),
            Outcome::Applied
        );
        add_player_action(state);
        add_player_action(state);
    }

    let left_start = apply(&mut left, Action::DecideTurnOrder);
    let right_start = apply(&mut right, Action::DecideTurnOrder);

    assert_eq!(left_start, right_start);
    assert_eq!(left.starting_player(), right.starting_player());
    assert_eq!(left.deterministic_hash(), right.deterministic_hash());
    assert_eq!(
        left.deterministic_hash(),
        left.deterministic_hash_streaming()
    );
    assert_eq!(
        apply(&mut left, Action::DecideTurnOrder),
        Outcome::Failed(StateError::TurnOrderAlreadyDecided)
    );
}

#[test]
fn opening_hands_draw_in_seeded_turn_order() {
    let mut state = GameState::new();
    let alice = add_player_action(&mut state);
    let bob = add_player_action(&mut state);
    seed_library_cards(&mut state, alice, 1_000, OPENING_HAND_SIZE);
    seed_library_cards(&mut state, bob, 2_000, OPENING_HAND_SIZE);

    assert_eq!(
        apply(&mut state, Action::SetSeed { seed: 777 }),
        Outcome::Applied
    );
    let starting = match apply(&mut state, Action::DecideTurnOrder) {
        Outcome::TurnOrderDecided(player) => player,
        other => panic!("unexpected turn-order outcome: {other:?}"),
    };
    assert_eq!(state.starting_player(), Some(starting));
    assert_eq!(
        apply(&mut state, Action::DrawOpeningHands),
        Outcome::Applied
    );

    assert!(state.opening_hands_drawn());
    for player in [alice, bob] {
        assert_eq!(
            state
                .zone(ZoneId::new(Some(player), ZoneKind::Hand))
                .unwrap_or_else(|| panic!("hand zone missing"))
                .objects()
                .len(),
            OPENING_HAND_SIZE as usize
        );
        assert_eq!(
            state
                .zone(ZoneId::new(Some(player), ZoneKind::Library))
                .unwrap_or_else(|| panic!("library zone missing"))
                .objects()
                .len(),
            0
        );
        assert_eq!(state.players()[player.index()].mulligans_taken(), 0);
        assert!(!state.players()[player.index()].opening_hand_kept());
    }
    assert_eq!(
        apply(&mut state, Action::DrawOpeningHands),
        Outcome::Failed(StateError::OpeningHandsAlreadyDrawn)
    );
    assert_eq!(
        state.deterministic_hash(),
        state.deterministic_hash_streaming()
    );
}

#[test]
fn london_mulligan_redraws_and_bottoms_mulligan_count() {
    let mut state = GameState::new();
    let player = add_player_action(&mut state);
    seed_library_cards(&mut state, player, 3_000, OPENING_HAND_SIZE + 1);

    assert_eq!(
        apply(&mut state, Action::SetSeed { seed: 91 }),
        Outcome::Applied
    );
    assert!(matches!(
        apply(&mut state, Action::DecideTurnOrder),
        Outcome::TurnOrderDecided(_)
    ));
    assert_eq!(
        apply(&mut state, Action::DrawOpeningHands),
        Outcome::Applied
    );
    assert_eq!(
        apply(&mut state, Action::TakeMulligan { player }),
        Outcome::Applied
    );

    let hand = ZoneId::new(Some(player), ZoneKind::Hand);
    let library = ZoneId::new(Some(player), ZoneKind::Library);
    assert_eq!(state.players()[player.index()].mulligans_taken(), 1);
    assert_eq!(
        state
            .zone(hand)
            .unwrap_or_else(|| panic!("hand zone missing"))
            .objects()
            .len(),
        OPENING_HAND_SIZE as usize
    );
    assert_eq!(
        state
            .zone(library)
            .unwrap_or_else(|| panic!("library zone missing"))
            .objects()
            .len(),
        1
    );

    let bottom = state
        .zone(hand)
        .unwrap_or_else(|| panic!("hand zone missing"))
        .objects()[0];
    assert_eq!(
        apply(
            &mut state,
            Action::KeepOpeningHand {
                player,
                bottom: vec![bottom],
            },
        ),
        Outcome::Applied
    );

    assert_eq!(state.players()[player.index()].mulligans_taken(), 1);
    assert!(state.players()[player.index()].opening_hand_kept());
    assert_eq!(
        state
            .zone(hand)
            .unwrap_or_else(|| panic!("hand zone missing"))
            .objects()
            .len(),
        (OPENING_HAND_SIZE - 1) as usize
    );
    assert_eq!(
        state
            .zone(library)
            .unwrap_or_else(|| panic!("library zone missing"))
            .objects()[0],
        bottom
    );
    assert_eq!(
        apply(&mut state, Action::TakeMulligan { player }),
        Outcome::Failed(StateError::MulliganAfterKeep(player))
    );
    assert_eq!(
        state.deterministic_hash(),
        state.deterministic_hash_streaming()
    );
}

#[test]
fn setup_start_turn_respects_keeps_and_chosen_starter() {
    let mut state = GameState::new();
    let alice = add_player_action(&mut state);
    let bob = add_player_action(&mut state);
    seed_library_cards(&mut state, alice, 3_500, OPENING_HAND_SIZE);
    seed_library_cards(&mut state, bob, 3_600, OPENING_HAND_SIZE);

    assert_eq!(
        apply(&mut state, Action::SetSeed { seed: 144 }),
        Outcome::Applied
    );
    let starting = match apply(&mut state, Action::DecideTurnOrder) {
        Outcome::TurnOrderDecided(player) => player,
        other => panic!("unexpected turn-order outcome: {other:?}"),
    };
    let other = if starting == alice { bob } else { alice };
    assert_eq!(
        apply(&mut state, Action::DrawOpeningHands),
        Outcome::Applied
    );

    assert!(matches!(
        apply(
            &mut state,
            Action::StartTurn {
                active_player: starting
            },
        ),
        Outcome::Failed(StateError::OpeningHandKeepPending(_))
    ));
    for player in [alice, bob] {
        assert_eq!(
            apply(
                &mut state,
                Action::KeepOpeningHand {
                    player,
                    bottom: Vec::new(),
                },
            ),
            Outcome::Applied
        );
    }
    assert_eq!(
        apply(
            &mut state,
            Action::StartTurn {
                active_player: other
            },
        ),
        Outcome::Failed(StateError::StartingPlayerMismatch {
            expected: starting,
            actual: other,
        })
    );
    assert_eq!(
        apply(
            &mut state,
            Action::StartTurn {
                active_player: starting
            },
        ),
        Outcome::Applied
    );
    assert_eq!(state.active_player(), Some(starting));
}

#[test]
fn starting_player_skips_first_turn_draw_step_after_turn_order_setup() {
    let mut state = GameState::new();
    let alice = add_player_action(&mut state);
    let bob = add_player_action(&mut state);
    let alice_library = ZoneId::new(Some(alice), ZoneKind::Library);
    let alice_hand = ZoneId::new(Some(alice), ZoneKind::Hand);
    seed_library_cards(&mut state, alice, 3_700, OPENING_HAND_SIZE + 1);
    seed_library_cards(&mut state, bob, 3_800, OPENING_HAND_SIZE);

    assert_eq!(
        apply(&mut state, Action::SetSeed { seed: 3 }),
        Outcome::Applied
    );
    let starting = match apply(&mut state, Action::DecideTurnOrder) {
        Outcome::TurnOrderDecided(player) => player,
        other => panic!("unexpected turn-order outcome: {other:?}"),
    };
    assert_eq!(starting, alice);
    assert_eq!(
        apply(&mut state, Action::DrawOpeningHands),
        Outcome::Applied
    );
    for player in [alice, bob] {
        assert_eq!(
            apply(
                &mut state,
                Action::KeepOpeningHand {
                    player,
                    bottom: Vec::new(),
                },
            ),
            Outcome::Applied
        );
    }

    assert_eq!(
        apply(
            &mut state,
            Action::StartTurn {
                active_player: alice,
            },
        ),
        Outcome::Applied
    );
    assert_eq!(
        apply(&mut state, Action::AdvanceStep),
        Outcome::StepAdvanced(Step::Upkeep)
    );
    assert_eq!(
        apply(&mut state, Action::AdvanceStep),
        Outcome::StepAdvanced(Step::Draw)
    );

    assert_eq!(state.current_step(), Some(Step::Draw));
    assert_eq!(state.priority_player(), Some(alice));
    assert_eq!(
        state
            .zone(alice_hand)
            .unwrap_or_else(|| panic!("alice hand missing"))
            .objects()
            .len(),
        OPENING_HAND_SIZE as usize
    );
    assert_eq!(
        state
            .zone(alice_library)
            .unwrap_or_else(|| panic!("alice library missing"))
            .objects()
            .len(),
        1
    );
}

#[test]
fn opening_hand_player_view_hides_opponent_hand_and_libraries() {
    let mut state = GameState::new();
    let alice = add_player_action(&mut state);
    let bob = add_player_action(&mut state);
    seed_library_cards(&mut state, alice, 4_000, OPENING_HAND_SIZE + 1);
    seed_library_cards(&mut state, bob, 5_000, OPENING_HAND_SIZE + 1);

    assert_eq!(
        apply(&mut state, Action::SetSeed { seed: 43 }),
        Outcome::Applied
    );
    assert!(matches!(
        apply(&mut state, Action::DecideTurnOrder),
        Outcome::TurnOrderDecided(_)
    ));
    assert_eq!(
        apply(&mut state, Action::DrawOpeningHands),
        Outcome::Applied
    );

    let view = state
        .player_view(alice)
        .unwrap_or_else(|error| panic!("unexpected player view error: {error:?}"));
    let alice_hand = view
        .zone(ZoneId::new(Some(alice), ZoneKind::Hand))
        .unwrap_or_else(|| panic!("missing alice hand view"));
    let alice_library = view
        .zone(ZoneId::new(Some(alice), ZoneKind::Library))
        .unwrap_or_else(|| panic!("missing alice library view"));
    let bob_hand = view
        .zone(ZoneId::new(Some(bob), ZoneKind::Hand))
        .unwrap_or_else(|| panic!("missing bob hand view"));
    let bob_library = view
        .zone(ZoneId::new(Some(bob), ZoneKind::Library))
        .unwrap_or_else(|| panic!("missing bob library view"));

    assert_eq!(alice_hand.objects().len(), OPENING_HAND_SIZE as usize);
    assert!(alice_hand
        .objects()
        .iter()
        .all(|object| object.known().is_some()));
    assert_eq!(alice_library.objects().len(), 1);
    assert!(alice_library
        .objects()
        .iter()
        .all(|object| object.is_hidden()));
    assert_eq!(bob_hand.objects().len(), OPENING_HAND_SIZE as usize);
    assert!(bob_hand.objects().iter().all(|object| object.is_hidden()));
    assert_eq!(bob_library.objects().len(), 1);
    assert!(bob_library
        .objects()
        .iter()
        .all(|object| object.is_hidden()));
}

#[test]
fn state_based_action_table_tracks_cr_704_rows() {
    let table = state_based_action_table();

    assert_eq!(table.len(), 24);
    assert_eq!(table[0], StateBasedActionKind::PlayerZeroOrLessLife);
    assert_eq!(table[23], StateBasedActionKind::StartYourEnginesNoSpeed);
    assert!(table.contains(&StateBasedActionKind::CreatureLethalDamage));
    assert!(table.contains(&StateBasedActionKind::CreatureDeathtouchDamage));
}

#[test]
fn players_receive_owned_zones() {
    let mut state = GameState::new();
    let alice = state.add_player();
    let bob = state.add_player();

    assert_eq!(alice.index(), 0);
    assert_eq!(bob.index(), 1);
    assert!(state
        .zone(ZoneId::new(Some(alice), ZoneKind::Library))
        .is_some());
    assert!(state
        .zone(ZoneId::new(None, ZoneKind::Battlefield))
        .is_some());
    assert_eq!(
        state.zone(ZoneId::new(Some(alice), ZoneKind::Battlefield)),
        None
    );
}

#[test]
fn objects_move_between_zones_and_conserve_membership() {
    let mut state = GameState::new();
    let player = state.add_player();
    let hand = ZoneId::new(Some(player), ZoneKind::Hand);
    let battlefield = ZoneId::new(None, ZoneKind::Battlefield);

    let object = state
        .create_object(CardId::new(100), player, player, hand)
        .unwrap_or_else(|error| panic!("unexpected create error: {error:?}"));
    assert_eq!(state.object_zone(object), Some(hand));

    state
        .move_object(object, battlefield)
        .unwrap_or_else(|error| panic!("unexpected move error: {error:?}"));
    assert_eq!(state.object_zone(object), Some(battlefield));
    assert_eq!(
        state.validate_zone_conservation(),
        Ok(ZoneConservation { object_count: 1 })
    );
}

#[test]
fn deterministic_hash_is_canonical_and_sensitive_to_ordered_state() {
    let mut left = GameState::new();
    let left_player = left.add_player();
    let left_hand = ZoneId::new(Some(left_player), ZoneKind::Hand);
    let left_battlefield = ZoneId::new(None, ZoneKind::Battlefield);
    let left_object = left
        .create_object(CardId::new(7), left_player, left_player, left_hand)
        .unwrap_or_else(|error| panic!("unexpected create error: {error:?}"));

    let mut right = GameState::new();
    let right_player = right.add_player();
    let right_hand = ZoneId::new(Some(right_player), ZoneKind::Hand);
    let right_object = right
        .create_object(CardId::new(7), right_player, right_player, right_hand)
        .unwrap_or_else(|error| panic!("unexpected create error: {error:?}"));

    assert_eq!(left_object.index(), right_object.index());
    assert_eq!(left.deterministic_hash(), right.deterministic_hash());
    assert_eq!(
        left.deterministic_hash(),
        left.deterministic_hash_streaming()
    );
    assert_eq!(left.canonical_bytes(), right.canonical_bytes());

    let before = left.deterministic_hash();
    left.move_object(left_object, left_battlefield)
        .unwrap_or_else(|error| panic!("unexpected move error: {error:?}"));

    assert_ne!(left.deterministic_hash(), before);
}

#[test]
fn invalid_zone_owner_is_rejected() {
    let mut state = GameState::new();
    let player = state.add_player();
    let result = state.create_object(
        CardId::new(1),
        player,
        player,
        ZoneId::new(None, ZoneKind::Hand),
    );

    assert_eq!(
        result,
        Err(StateError::InvalidZoneOwner(ZoneId::new(
            None,
            ZoneKind::Hand
        )))
    );
}

#[test]
fn insufficient_colored_mana_has_no_payment_plans() {
    let available = ManaPool::new(0, 0, 0, 0, 0, 5);
    let cost = ManaCost::new(0, 0, 0, 1, 0, 1);

    let plans = enumerate_payment_plans(available, cost)
        .unwrap_or_else(|error| panic!("unexpected payment error: {error:?}"));

    assert!(plans.plans().is_empty());
    assert!(!plans.truncated());
}

#[test]
fn generic_cost_uses_colorless_before_colored_mana() {
    let available = ManaPool::new(1, 1, 0, 1, 0, 2);
    let cost = ManaCost::new(0, 0, 0, 1, 0, 2);

    let plans = enumerate_payment_plans(available, cost)
        .unwrap_or_else(|error| panic!("unexpected payment error: {error:?}"));
    let best = plans
        .best()
        .unwrap_or_else(|| panic!("missing best payment plan"));

    assert_eq!(best.paid(), ManaPool::new(0, 0, 0, 1, 0, 2));
    assert_eq!(best.generic_paid(), ManaPool::new(0, 0, 0, 0, 0, 2));
    assert_eq!(best.waste_score(), 0);
    assert!(plans
        .plans()
        .windows(2)
        .all(|window| window[0].waste_score() <= window[1].waste_score()));
}

#[test]
fn x_cost_is_added_to_generic_requirement() {
    let available = ManaPool::new(0, 0, 0, 1, 0, 4);
    let cost = ManaCost::new(0, 0, 0, 1, 0, 1).with_x(1, 3);

    let best = auto_payment_plan(available, cost)
        .unwrap_or_else(|error| panic!("unexpected payment error: {error:?}"))
        .unwrap_or_else(|| panic!("missing best payment plan"));

    assert_eq!(best.x_value(), 3);
    assert_eq!(best.generic_required(), 4);
    assert_eq!(best.paid(), available);
}

#[test]
fn x_cost_overflow_is_reported() {
    let cost = ManaCost::new(0, 0, 0, 0, 0, 0).with_x(u32::MAX, 2);

    assert_eq!(
        enumerate_payment_plans(ManaPool::empty(), cost),
        Err(PaymentError::ManaValueOverflow)
    );
}

#[test]
fn explicit_payment_plan_is_validated_and_applied() {
    let mut state = GameState::new();
    let player = state.add_player();
    let available = ManaPool::new(0, 1, 0, 1, 0, 2);
    let cost = ManaCost::new(0, 1, 0, 0, 0, 2);
    state
        .add_mana_to_pool(player, available)
        .unwrap_or_else(|error| panic!("unexpected add mana error: {error:?}"));
    let plan = validate_payment_plan(available, cost, ManaPool::new(0, 1, 0, 1, 0, 1))
        .unwrap_or_else(|error| panic!("unexpected plan validation error: {error:?}"));

    state
        .pay_mana(player, cost, plan)
        .unwrap_or_else(|error| panic!("unexpected payment error: {error:?}"));

    assert_eq!(
        state
            .mana_pool(player)
            .unwrap_or_else(|error| panic!("unexpected mana pool error: {error:?}")),
        ManaPool::new(0, 0, 0, 0, 0, 1)
    );
}

#[test]
fn invalid_explicit_payment_is_rejected() {
    let available = ManaPool::new(0, 0, 0, 1, 0, 2);
    let cost = ManaCost::new(0, 0, 0, 1, 0, 2);

    assert_eq!(
        validate_payment_plan(available, cost, ManaPool::new(0, 0, 0, 1, 0, 1)),
        Err(PaymentError::InvalidPaymentPlan)
    );
}

#[test]
fn payment_enumeration_caps_at_sixty_four_distinct_plans() {
    let available = ManaPool::new(20, 20, 20, 20, 20, 0);
    let cost = ManaCost::new(0, 0, 0, 0, 0, 10);

    let plans = enumerate_payment_plans(available, cost)
        .unwrap_or_else(|error| panic!("unexpected payment error: {error:?}"));

    assert_eq!(plans.plans().len(), PAYMENT_PLAN_LIMIT);
    assert!(plans.truncated());
    assert!(plans
        .plans()
        .windows(2)
        .all(|window| window[0].waste_score() <= window[1].waste_score()));
}

#[test]
fn auto_tap_prefers_exact_sources_with_minimal_waste() {
    let mut state = GameState::new();
    let player = state.add_player();
    let battlefield = ZoneId::new(None, ZoneKind::Battlefield);
    let red_source = state
        .create_object(CardId::new(70), player, player, battlefield)
        .unwrap_or_else(|error| panic!("unexpected create error: {error:?}"));
    let colorless_source = state
        .create_object(CardId::new(71), player, player, battlefield)
        .unwrap_or_else(|error| panic!("unexpected create error: {error:?}"));
    let green_source = state
        .create_object(CardId::new(72), player, player, battlefield)
        .unwrap_or_else(|error| panic!("unexpected create error: {error:?}"));
    let sources = [
        ManaSource::new(green_source, ManaPool::of(ManaKind::Green, 1)),
        ManaSource::new(colorless_source, ManaPool::of(ManaKind::Colorless, 1)),
        ManaSource::new(red_source, ManaPool::of(ManaKind::Red, 1)),
    ];

    let plans = enumerate_auto_tap_payment_plans(&sources, ManaCost::new(0, 0, 0, 1, 0, 1))
        .unwrap_or_else(|error| panic!("unexpected auto-tap error: {error:?}"));
    let best = plans
        .best()
        .unwrap_or_else(|| panic!("missing best auto-tap plan"));
    let tapped: Vec<_> = best.taps().iter().map(|tap| tap.source()).collect();

    assert_eq!(tapped, vec![red_source, colorless_source]);
    assert_eq!(best.total_waste_score(), 0);
    assert_eq!(best.unspent(), ManaPool::empty());
}

#[test]
fn auto_tap_keeps_equivalent_sources_distinct() {
    let mut state = GameState::new();
    let player = state.add_player();
    let battlefield = ZoneId::new(None, ZoneKind::Battlefield);
    let first = state
        .create_object(CardId::new(80), player, player, battlefield)
        .unwrap_or_else(|error| panic!("unexpected create error: {error:?}"));
    let second = state
        .create_object(CardId::new(81), player, player, battlefield)
        .unwrap_or_else(|error| panic!("unexpected create error: {error:?}"));
    let sources = [
        ManaSource::new(first, ManaPool::of(ManaKind::Red, 1)),
        ManaSource::new(second, ManaPool::of(ManaKind::Red, 1)),
    ];

    let plans = enumerate_auto_tap_payment_plans(&sources, ManaCost::new(0, 0, 0, 0, 0, 1))
        .unwrap_or_else(|error| panic!("unexpected auto-tap error: {error:?}"));
    let one_tap_sources: Vec<_> = plans
        .plans()
        .iter()
        .filter(|plan| plan.taps().len() == 1)
        .map(|plan| plan.taps()[0].source())
        .collect();

    assert_eq!(one_tap_sources, vec![first, second]);
}

#[test]
fn mana_pool_changes_state_hash_and_matches_streaming_hash() {
    let mut state = GameState::new();
    let player = state.add_player();
    let before = state.deterministic_hash();

    state
        .add_mana_to_pool(player, ManaPool::of(ManaKind::Green, 1))
        .unwrap_or_else(|error| panic!("unexpected add mana error: {error:?}"));

    assert_ne!(state.deterministic_hash(), before);
    assert_eq!(
        state.deterministic_hash(),
        state.deterministic_hash_streaming()
    );
}

#[test]
fn mana_pool_empties_when_step_ends() {
    let mut state = GameState::new();
    let active = state.add_player();
    ensure_library_card(&mut state, active);
    state
        .start_turn(active)
        .unwrap_or_else(|error| panic!("unexpected start error: {error:?}"));
    state
        .advance_step()
        .unwrap_or_else(|error| panic!("unexpected upkeep advance error: {error:?}"));
    state
        .add_mana_to_pool(active, ManaPool::of(ManaKind::Red, 1))
        .unwrap_or_else(|error| panic!("unexpected add mana error: {error:?}"));

    assert_eq!(
        state
            .mana_pool(active)
            .unwrap_or_else(|error| panic!("unexpected mana pool error: {error:?}")),
        ManaPool::of(ManaKind::Red, 1)
    );

    state
        .pass_priority(active)
        .unwrap_or_else(|error| panic!("unexpected pass error: {error:?}"));

    assert_eq!(
        state
            .mana_pool(active)
            .unwrap_or_else(|error| panic!("unexpected mana pool error: {error:?}")),
        ManaPool::empty()
    );
}

#[test]
fn successful_instant_cast_pays_cost_and_records_target_snapshot() {
    let mut state = GameState::new();
    let active = state.add_player();
    let hand = ZoneId::new(Some(active), ZoneKind::Hand);
    let battlefield = ZoneId::new(None, ZoneKind::Battlefield);
    let spell = state
        .create_object(CardId::new(90), active, active, hand)
        .unwrap_or_else(|error| panic!("unexpected spell create error: {error:?}"));
    let target = state
        .create_object(CardId::new(91), active, active, battlefield)
        .unwrap_or_else(|error| panic!("unexpected target create error: {error:?}"));
    start_upkeep(&mut state, active);
    let cost = ManaCost::new(0, 0, 0, 1, 0, 0);
    state
        .add_mana_to_pool(active, ManaPool::of(ManaKind::Red, 1))
        .unwrap_or_else(|error| panic!("unexpected add mana error: {error:?}"));
    let payment = validate_payment_plan(
        state
            .mana_pool(active)
            .unwrap_or_else(|error| panic!("unexpected mana pool error: {error:?}")),
        cost,
        ManaPool::of(ManaKind::Red, 1),
    )
    .unwrap_or_else(|error| panic!("unexpected payment validation error: {error:?}"));
    let request = CastSpellRequest::new(
        StackObjectKind::InstantSpell,
        SpellTiming::Instant,
        cost,
        payment,
    )
    .with_targets(
        vec![TargetRequirement::new(TargetKind::Permanent)],
        vec![TargetChoice::Object(target)],
    );

    let entry = state
        .cast_spell(active, spell, request)
        .unwrap_or_else(|error| panic!("unexpected cast error: {error:?}"));

    assert_eq!(
        state.object_zone(spell),
        Some(ZoneId::new(None, ZoneKind::Stack))
    );
    assert_eq!(state.priority_player(), Some(active));
    assert_eq!(
        state
            .mana_pool(active)
            .unwrap_or_else(|error| panic!("unexpected mana pool error: {error:?}")),
        ManaPool::empty()
    );
    let stack_entry = state
        .stack_top()
        .unwrap_or_else(|| panic!("missing stack entry"));
    assert_eq!(stack_entry.id(), entry);
    assert_eq!(stack_entry.targets().len(), 1);
    assert_eq!(
        stack_entry.targets()[0].choice(),
        TargetChoice::Object(target)
    );
    assert_eq!(stack_entry.targets()[0].original_zone(), Some(battlefield));
    assert_eq!(stack_entry.payment(), Some(payment));
}

#[test]
fn illegal_target_during_announcement_leaves_state_unchanged() {
    let mut state = GameState::new();
    let active = state.add_player();
    let hand = ZoneId::new(Some(active), ZoneKind::Hand);
    let graveyard = ZoneId::new(Some(active), ZoneKind::Graveyard);
    let spell = state
        .create_object(CardId::new(92), active, active, hand)
        .unwrap_or_else(|error| panic!("unexpected spell create error: {error:?}"));
    let target = state
        .create_object(CardId::new(93), active, active, graveyard)
        .unwrap_or_else(|error| panic!("unexpected target create error: {error:?}"));
    start_upkeep(&mut state, active);
    let before = state.canonical_bytes();
    let cost = ManaCost::new(0, 0, 0, 0, 0, 0);
    let request = CastSpellRequest::new(
        StackObjectKind::InstantSpell,
        SpellTiming::Instant,
        cost,
        zero_payment(cost),
    )
    .with_targets(
        vec![TargetRequirement::new(TargetKind::Permanent)],
        vec![TargetChoice::Object(target)],
    );

    assert_eq!(
        state.cast_spell(active, spell, request),
        Err(StateError::IllegalTarget {
            index: 0,
            target: TargetChoice::Object(target)
        })
    );
    assert_eq!(state.canonical_bytes(), before);
}

#[test]
fn invalid_payment_during_cast_leaves_state_unchanged() {
    let mut state = GameState::new();
    let active = state.add_player();
    let hand = ZoneId::new(Some(active), ZoneKind::Hand);
    let battlefield = ZoneId::new(None, ZoneKind::Battlefield);
    let spell = state
        .create_object(CardId::new(94), active, active, hand)
        .unwrap_or_else(|error| panic!("unexpected spell create error: {error:?}"));
    let target = state
        .create_object(CardId::new(95), active, active, battlefield)
        .unwrap_or_else(|error| panic!("unexpected target create error: {error:?}"));
    start_upkeep(&mut state, active);
    state
        .add_mana_to_pool(active, ManaPool::of(ManaKind::Red, 1))
        .unwrap_or_else(|error| panic!("unexpected add mana error: {error:?}"));
    let before = state.canonical_bytes();
    let cost = ManaCost::new(0, 0, 0, 1, 0, 0);
    let bad_payment = zero_payment(ManaCost::new(0, 0, 0, 0, 0, 0));
    let request = CastSpellRequest::new(
        StackObjectKind::InstantSpell,
        SpellTiming::Instant,
        cost,
        bad_payment,
    )
    .with_targets(
        vec![TargetRequirement::new(TargetKind::Permanent)],
        vec![TargetChoice::Object(target)],
    );

    assert_eq!(
        state.cast_spell(active, spell, request),
        Err(StateError::InvalidPaymentPlan)
    );
    assert_eq!(state.canonical_bytes(), before);
}

#[test]
fn sorcery_timing_rejects_non_main_phase_and_nonempty_stack() {
    let mut state = GameState::new();
    let active = state.add_player();
    let hand = ZoneId::new(Some(active), ZoneKind::Hand);
    let first = state
        .create_object(CardId::new(96), active, active, hand)
        .unwrap_or_else(|error| panic!("unexpected spell create error: {error:?}"));
    let second = state
        .create_object(CardId::new(97), active, active, hand)
        .unwrap_or_else(|error| panic!("unexpected spell create error: {error:?}"));
    start_upkeep(&mut state, active);
    let cost = ManaCost::new(0, 0, 0, 0, 0, 0);
    let sorcery_request = CastSpellRequest::new(
        StackObjectKind::SorcerySpell,
        SpellTiming::Sorcery,
        cost,
        zero_payment(cost),
    );

    assert_eq!(
        state.cast_spell(active, first, sorcery_request.clone()),
        Err(StateError::InvalidSpellTiming)
    );

    while state.current_step() != Some(Step::PrecombatMain) {
        state
            .advance_step()
            .unwrap_or_else(|error| panic!("unexpected advance error: {error:?}"));
    }
    state
        .cast_spell(active, first, sorcery_request)
        .unwrap_or_else(|error| panic!("unexpected main phase cast error: {error:?}"));
    let second_request = CastSpellRequest::new(
        StackObjectKind::SorcerySpell,
        SpellTiming::Sorcery,
        cost,
        zero_payment(cost),
    );
    assert_eq!(
        state.cast_spell(active, second, second_request),
        Err(StateError::InvalidSpellTiming)
    );
}

#[test]
fn all_targets_illegal_before_resolution_counter_spell_by_rules() {
    let mut state = GameState::new();
    let active = state.add_player();
    let responder = state.add_player();
    let hand = ZoneId::new(Some(active), ZoneKind::Hand);
    let battlefield = ZoneId::new(None, ZoneKind::Battlefield);
    let graveyard = ZoneId::new(Some(active), ZoneKind::Graveyard);
    let spell = state
        .create_object(CardId::new(98), active, active, hand)
        .unwrap_or_else(|error| panic!("unexpected spell create error: {error:?}"));
    let target = state
        .create_object(CardId::new(99), active, active, battlefield)
        .unwrap_or_else(|error| panic!("unexpected target create error: {error:?}"));
    start_upkeep(&mut state, active);
    let cost = ManaCost::new(0, 0, 0, 0, 0, 0);
    let request = CastSpellRequest::new(
        StackObjectKind::InstantSpell,
        SpellTiming::Instant,
        cost,
        zero_payment(cost),
    )
    .with_targets(
        vec![TargetRequirement::new(TargetKind::Permanent)],
        vec![TargetChoice::Object(target)],
    );
    let entry = state
        .cast_spell(active, spell, request)
        .unwrap_or_else(|error| panic!("unexpected cast error: {error:?}"));

    state
        .move_object(target, graveyard)
        .unwrap_or_else(|error| panic!("unexpected target move error: {error:?}"));
    pass_round(&mut state, active, responder, entry);

    assert_eq!(state.object_zone(spell), Some(graveyard));
    assert_eq!(
        state.resolution_log()[0].outcome(),
        ResolutionOutcome::CounteredOnResolution
    );
    assert_eq!(state.resolution_log()[0].legal_targets(), &[false]);
    assert_eq!(state.priority_player(), Some(active));
}

#[test]
fn one_legal_target_allows_spell_to_resolve() {
    let mut state = GameState::new();
    let active = state.add_player();
    let responder = state.add_player();
    let hand = ZoneId::new(Some(active), ZoneKind::Hand);
    let battlefield = ZoneId::new(None, ZoneKind::Battlefield);
    let graveyard = ZoneId::new(Some(active), ZoneKind::Graveyard);
    let spell = state
        .create_object(CardId::new(100), active, active, hand)
        .unwrap_or_else(|error| panic!("unexpected spell create error: {error:?}"));
    let first_target = state
        .create_object(CardId::new(101), active, active, battlefield)
        .unwrap_or_else(|error| panic!("unexpected first target create error: {error:?}"));
    let second_target = state
        .create_object(CardId::new(102), active, active, battlefield)
        .unwrap_or_else(|error| panic!("unexpected second target create error: {error:?}"));
    start_upkeep(&mut state, active);
    let cost = ManaCost::new(0, 0, 0, 0, 0, 0);
    let request = CastSpellRequest::new(
        StackObjectKind::InstantSpell,
        SpellTiming::Instant,
        cost,
        zero_payment(cost),
    )
    .with_targets(
        vec![
            TargetRequirement::new(TargetKind::Permanent),
            TargetRequirement::new(TargetKind::Permanent),
        ],
        vec![
            TargetChoice::Object(first_target),
            TargetChoice::Object(second_target),
        ],
    );
    let entry = state
        .cast_spell(active, spell, request)
        .unwrap_or_else(|error| panic!("unexpected cast error: {error:?}"));

    state
        .move_object(first_target, graveyard)
        .unwrap_or_else(|error| panic!("unexpected target move error: {error:?}"));
    pass_round(&mut state, active, responder, entry);

    assert_eq!(state.object_zone(spell), Some(graveyard));
    assert_eq!(
        state.resolution_log()[0].outcome(),
        ResolutionOutcome::Resolved
    );
    assert_eq!(state.resolution_log()[0].legal_targets(), &[false, true]);
}

#[test]
fn target_choices_affect_canonical_hash() {
    let mut left = GameState::new();
    let left_active = left.add_player();
    let left_hand = ZoneId::new(Some(left_active), ZoneKind::Hand);
    let left_battlefield = ZoneId::new(None, ZoneKind::Battlefield);
    let left_spell = left
        .create_object(CardId::new(103), left_active, left_active, left_hand)
        .unwrap_or_else(|error| panic!("unexpected left spell create error: {error:?}"));
    let left_first = left
        .create_object(CardId::new(104), left_active, left_active, left_battlefield)
        .unwrap_or_else(|error| panic!("unexpected left target create error: {error:?}"));
    left.create_object(CardId::new(105), left_active, left_active, left_battlefield)
        .unwrap_or_else(|error| {
            panic!("unexpected left second target create error: {error:?}")
        });
    start_upkeep(&mut left, left_active);

    let mut right = GameState::new();
    let right_active = right.add_player();
    let right_hand = ZoneId::new(Some(right_active), ZoneKind::Hand);
    let right_battlefield = ZoneId::new(None, ZoneKind::Battlefield);
    let right_spell = right
        .create_object(CardId::new(103), right_active, right_active, right_hand)
        .unwrap_or_else(|error| panic!("unexpected right spell create error: {error:?}"));
    right
        .create_object(
            CardId::new(104),
            right_active,
            right_active,
            right_battlefield,
        )
        .unwrap_or_else(|error| panic!("unexpected right target create error: {error:?}"));
    let right_second = right
        .create_object(
            CardId::new(105),
            right_active,
            right_active,
            right_battlefield,
        )
        .unwrap_or_else(|error| {
            panic!("unexpected right second target create error: {error:?}")
        });
    start_upkeep(&mut right, right_active);

    let cost = ManaCost::new(0, 0, 0, 0, 0, 0);
    cast_zero_cost_target_spell(&mut left, left_active, left_spell, left_first);
    cast_zero_cost_target_spell(&mut right, right_active, right_spell, right_second);

    assert_ne!(left.deterministic_hash(), right.deterministic_hash());
    assert_eq!(
        left.deterministic_hash(),
        left.deterministic_hash_streaming()
    );
    assert_eq!(
        right.deterministic_hash(),
        right.deterministic_hash_streaming()
    );
    assert_eq!(cost.generic_total(), Ok(0));
}

#[test]
fn normal_turn_steps_match_cr5_skeleton() {
    assert_eq!(
        NORMAL_TURN_STEPS,
        [
            Step::Untap,
            Step::Upkeep,
            Step::Draw,
            Step::PrecombatMain,
            Step::BeginningOfCombat,
            Step::DeclareAttackers,
            Step::DeclareBlockers,
            Step::CombatDamage,
            Step::EndOfCombat,
            Step::PostcombatMain,
            Step::End,
            Step::Cleanup,
        ]
    );
    assert_eq!(Step::Untap.phase(), Phase::Beginning);
    assert_eq!(Step::PrecombatMain.phase(), Phase::PrecombatMain);
    assert_eq!(Step::EndOfCombat.phase(), Phase::Combat);
    assert_eq!(Step::Cleanup.phase(), Phase::Ending);
}

#[test]
fn untap_has_no_priority_and_upkeep_assigns_active_priority() {
    let mut state = GameState::new();
    let active = state.add_player();

    state
        .start_turn(active)
        .unwrap_or_else(|error| panic!("unexpected start error: {error:?}"));
    assert_eq!(state.turn_number(), 1);
    assert_eq!(state.current_step(), Some(Step::Untap));
    assert_eq!(state.current_phase(), Some(Phase::Beginning));
    assert_eq!(state.priority_player(), None);
    assert!(!state.has_priority_window());

    state
        .advance_step()
        .unwrap_or_else(|error| panic!("unexpected advance error: {error:?}"));
    assert_eq!(state.current_step(), Some(Step::Upkeep));
    assert_eq!(state.priority_player(), Some(active));
    assert!(state.has_priority_window());
}

#[test]
fn draw_step_draws_before_active_player_gets_priority() {
    let mut state = GameState::new();
    let active = state.add_player();
    let library = ZoneId::new(Some(active), ZoneKind::Library);
    let hand = ZoneId::new(Some(active), ZoneKind::Hand);
    let object = state
        .create_object(CardId::new(9), active, active, library)
        .unwrap_or_else(|error| panic!("unexpected create error: {error:?}"));

    state
        .start_turn(active)
        .unwrap_or_else(|error| panic!("unexpected start error: {error:?}"));
    state
        .advance_step()
        .unwrap_or_else(|error| panic!("unexpected upkeep advance error: {error:?}"));
    state
        .advance_step()
        .unwrap_or_else(|error| panic!("unexpected draw advance error: {error:?}"));

    assert_eq!(state.current_step(), Some(Step::Draw));
    assert_eq!(state.priority_player(), Some(active));
    assert_eq!(
        state
            .zone(hand)
            .unwrap_or_else(|| panic!("hand zone missing"))
            .objects(),
        &[object]
    );
    assert_eq!(
        state
            .zone(library)
            .unwrap_or_else(|| panic!("library zone missing"))
            .objects(),
        &[]
    );
}

#[test]
fn combat_without_attackers_skips_blockers_and_damage() {
    let mut state = GameState::new();
    let active = state.add_player();
    state.add_player();
    ensure_library_card(&mut state, active);

    state
        .start_turn(active)
        .unwrap_or_else(|error| panic!("unexpected start error: {error:?}"));
    for expected in [
        Step::Upkeep,
        Step::Draw,
        Step::PrecombatMain,
        Step::BeginningOfCombat,
        Step::DeclareAttackers,
    ] {
        let step = state
            .advance_step()
            .unwrap_or_else(|error| panic!("unexpected advance error: {error:?}"));
        assert_eq!(step, expected);
    }

    let next = state
        .advance_step()
        .unwrap_or_else(|error| panic!("unexpected skip advance error: {error:?}"));
    assert_eq!(next, Step::EndOfCombat);
    assert_eq!(state.current_phase(), Some(Phase::Combat));
}

#[test]
fn combat_with_attackers_visits_blockers_and_damage() {
    let mut state = GameState::new();
    let active = state.add_player();
    state.add_player();
    ensure_library_card(&mut state, active);

    state
        .start_turn(active)
        .unwrap_or_else(|error| panic!("unexpected start error: {error:?}"));
    for expected in [
        Step::Upkeep,
        Step::Draw,
        Step::PrecombatMain,
        Step::BeginningOfCombat,
        Step::DeclareAttackers,
    ] {
        let step = state
            .advance_step()
            .unwrap_or_else(|error| panic!("unexpected advance error: {error:?}"));
        assert_eq!(step, expected);
    }

    state.set_attackers_declared_this_combat(true);
    assert_eq!(
        state
            .advance_step()
            .unwrap_or_else(|error| panic!("unexpected blockers advance error: {error:?}")),
        Step::DeclareBlockers
    );
    assert_eq!(
        state
            .advance_step()
            .unwrap_or_else(|error| panic!("unexpected damage advance error: {error:?}")),
        Step::CombatDamage
    );
}

#[test]
fn declare_attackers_taps_nonvigilance_and_preserves_vigilance() {
    let mut state = GameState::new();
    let active = state.add_player();
    let defender = state.add_player();
    let first = battlefield_creature(&mut state, active, 200, 2, 2, CreatureKeywords::none());
    let vigilant = battlefield_creature(
        &mut state,
        active,
        201,
        3,
        3,
        CreatureKeywords::none().with_vigilance(),
    );
    start_declare_attackers(&mut state, active);
    let before = state.deterministic_hash();

    state
        .declare_attackers(
            active,
            &[
                AttackDeclaration::new(first, defender),
                AttackDeclaration::new(vigilant, defender),
            ],
        )
        .unwrap_or_else(|error| panic!("unexpected attack error: {error:?}"));

    assert!(state
        .objects()
        .get(first)
        .unwrap_or_else(|| panic!("missing first attacker"))
        .tapped());
    assert!(!state
        .objects()
        .get(vigilant)
        .unwrap_or_else(|| panic!("missing vigilant attacker"))
        .tapped());
    assert_eq!(state.combat_state().attackers().len(), 2);
    assert_ne!(state.deterministic_hash(), before);
    assert_eq!(
        state.deterministic_hash(),
        state.deterministic_hash_streaming()
    );
}

#[test]
fn illegal_attack_declarations_leave_state_unchanged() {
    let mut state = GameState::new();
    let active = state.add_player();
    let defender = state.add_player();
    let tapped = battlefield_creature(&mut state, active, 202, 2, 2, CreatureKeywords::none());
    state
        .set_object_tapped(tapped, true)
        .unwrap_or_else(|error| panic!("unexpected tap error: {error:?}"));
    start_declare_attackers(&mut state, active);
    let before = state.canonical_bytes();

    assert_eq!(
        state.declare_attackers(active, &[AttackDeclaration::new(tapped, defender)]),
        Err(StateError::CreatureTapped(tapped))
    );
    assert_eq!(state.canonical_bytes(), before);

    let fresh = state
        .create_object(
            CardId::new(203),
            active,
            active,
            ZoneId::new(None, ZoneKind::Battlefield),
        )
        .unwrap_or_else(|error| panic!("unexpected fresh create error: {error:?}"));
    state
        .set_base_creature_characteristics(fresh, BaseCreatureCharacteristics::new(2, 2))
        .unwrap_or_else(|error| panic!("unexpected fresh creature error: {error:?}"));
    let before = state.canonical_bytes();
    assert_eq!(
        state.declare_attackers(active, &[AttackDeclaration::new(fresh, defender)]),
        Err(StateError::SummoningSick(fresh))
    );
    assert_eq!(state.canonical_bytes(), before);
}

#[test]
fn declare_no_attackers_skips_blockers_and_damage() {
    let mut state = GameState::new();
    let active = state.add_player();
    start_declare_attackers(&mut state, active);

    state
        .declare_attackers(active, &[])
        .unwrap_or_else(|error| panic!("unexpected empty attack error: {error:?}"));

    assert_eq!(
        state
            .advance_step()
            .unwrap_or_else(|error| panic!("unexpected no-attack advance error: {error:?}")),
        Step::EndOfCombat
    );
}

#[test]
fn flying_reach_and_menace_block_legality_is_enforced() {
    let mut state = GameState::new();
    let active = state.add_player();
    let defender = state.add_player();
    let flyer = battlefield_creature(
        &mut state,
        active,
        204,
        2,
        2,
        CreatureKeywords::none().with_flying(),
    );
    let ground =
        battlefield_creature(&mut state, defender, 205, 2, 2, CreatureKeywords::none());
    let reach = battlefield_creature(
        &mut state,
        defender,
        206,
        2,
        2,
        CreatureKeywords::none().with_reach(),
    );
    start_declare_attackers(&mut state, active);
    state
        .declare_attackers(active, &[AttackDeclaration::new(flyer, defender)])
        .unwrap_or_else(|error| panic!("unexpected flying attack error: {error:?}"));
    state
        .advance_step()
        .unwrap_or_else(|error| panic!("unexpected blockers step error: {error:?}"));
    let before = state.canonical_bytes();

    assert_eq!(
        state.declare_blockers(defender, &[BlockDeclaration::new(ground, flyer)]),
        Err(StateError::IllegalBlock {
            blocker: ground,
            attacker: flyer
        })
    );
    assert_eq!(state.canonical_bytes(), before);
    state
        .declare_blockers(defender, &[BlockDeclaration::new(reach, flyer)])
        .unwrap_or_else(|error| panic!("unexpected reach block error: {error:?}"));

    let mut menace_state = GameState::new();
    let menace_active = menace_state.add_player();
    let menace_defender = menace_state.add_player();
    let menace = battlefield_creature(
        &mut menace_state,
        menace_active,
        207,
        3,
        3,
        CreatureKeywords::none().with_menace(),
    );
    let first_blocker = battlefield_creature(
        &mut menace_state,
        menace_defender,
        208,
        1,
        1,
        CreatureKeywords::none(),
    );
    let second_blocker = battlefield_creature(
        &mut menace_state,
        menace_defender,
        209,
        1,
        1,
        CreatureKeywords::none(),
    );
    start_declare_attackers(&mut menace_state, menace_active);
    menace_state
        .declare_attackers(
            menace_active,
            &[AttackDeclaration::new(menace, menace_defender)],
        )
        .unwrap_or_else(|error| panic!("unexpected menace attack error: {error:?}"));
    menace_state
        .advance_step()
        .unwrap_or_else(|error| panic!("unexpected menace blockers step error: {error:?}"));
    assert_eq!(
        menace_state.declare_blockers(
            menace_defender,
            &[BlockDeclaration::new(first_blocker, menace)]
        ),
        Err(StateError::IllegalBlock {
            blocker: first_blocker,
            attacker: menace
        })
    );
    menace_state
        .declare_blockers(
            menace_defender,
            &[
                BlockDeclaration::new(first_blocker, menace),
                BlockDeclaration::new(second_blocker, menace),
            ],
        )
        .unwrap_or_else(|error| panic!("unexpected two-blocker menace error: {error:?}"));
}

#[test]
fn blocked_attacker_remains_blocked_after_blocker_leaves() {
    let mut state = GameState::new();
    let active = state.add_player();
    let defender = state.add_player();
    let attacker =
        battlefield_creature(&mut state, active, 210, 4, 4, CreatureKeywords::none());
    let blocker =
        battlefield_creature(&mut state, defender, 211, 1, 1, CreatureKeywords::none());
    start_declare_attackers(&mut state, active);
    state
        .declare_attackers(active, &[AttackDeclaration::new(attacker, defender)])
        .unwrap_or_else(|error| panic!("unexpected attack error: {error:?}"));
    state
        .advance_step()
        .unwrap_or_else(|error| panic!("unexpected blockers advance error: {error:?}"));
    state
        .declare_blockers(defender, &[BlockDeclaration::new(blocker, attacker)])
        .unwrap_or_else(|error| panic!("unexpected block error: {error:?}"));
    state
        .move_object(blocker, ZoneId::new(Some(defender), ZoneKind::Graveyard))
        .unwrap_or_else(|error| panic!("unexpected blocker move error: {error:?}"));
    state
        .advance_step()
        .unwrap_or_else(|error| panic!("unexpected damage advance error: {error:?}"));

    assert!(state.combat_state().attackers()[0].blocked());
    assert!(state.assign_combat_damage(&[]).is_ok());
    assert_eq!(state.players()[defender.index()].life(), 20);
}

#[test]
fn double_strike_creates_two_damage_steps() {
    let mut state = GameState::new();
    let active = state.add_player();
    let defender = state.add_player();
    let striker = battlefield_creature(
        &mut state,
        active,
        212,
        2,
        2,
        CreatureKeywords::none().with_double_strike(),
    );
    start_declare_attackers(&mut state, active);
    state
        .declare_attackers(active, &[AttackDeclaration::new(striker, defender)])
        .unwrap_or_else(|error| panic!("unexpected double-strike attack error: {error:?}"));
    state
        .advance_step()
        .unwrap_or_else(|error| panic!("unexpected blockers advance error: {error:?}"));
    state
        .declare_blockers(defender, &[])
        .unwrap_or_else(|error| panic!("unexpected empty block error: {error:?}"));
    state
        .advance_step()
        .unwrap_or_else(|error| panic!("unexpected first damage advance error: {error:?}"));
    assert_eq!(
        state.combat_state().damage_step(),
        Some(CombatDamageStepKind::FirstStrike)
    );
    state
        .assign_combat_damage(&[CombatDamageAssignmentRequest::new(
            striker,
            vec![CombatDamageAssignment::new(
                CombatDamageTarget::Player(defender),
                2,
            )],
        )])
        .unwrap_or_else(|error| panic!("unexpected first damage error: {error:?}"));
    assert_eq!(
        state.advance_step().unwrap_or_else(|error| panic!(
            "unexpected regular damage advance error: {error:?}"
        )),
        Step::CombatDamage
    );
    assert_eq!(
        state.combat_state().damage_step(),
        Some(CombatDamageStepKind::Regular)
    );
    state
        .assign_combat_damage(&[CombatDamageAssignmentRequest::new(
            striker,
            vec![CombatDamageAssignment::new(
                CombatDamageTarget::Player(defender),
                2,
            )],
        )])
        .unwrap_or_else(|error| panic!("unexpected regular damage error: {error:?}"));

    assert_eq!(state.players()[defender.index()].life(), 16);
}

#[test]
fn trample_with_deathtouch_allows_one_damage_to_each_blocker() {
    let mut state = GameState::new();
    let active = state.add_player();
    let defender = state.add_player();
    let trampler = battlefield_creature(
        &mut state,
        active,
        213,
        5,
        5,
        CreatureKeywords::none().with_trample().with_deathtouch(),
    );
    let blocker =
        battlefield_creature(&mut state, defender, 214, 3, 3, CreatureKeywords::none());
    start_declare_attackers(&mut state, active);
    state
        .declare_attackers(active, &[AttackDeclaration::new(trampler, defender)])
        .unwrap_or_else(|error| panic!("unexpected trample attack error: {error:?}"));
    state
        .advance_step()
        .unwrap_or_else(|error| panic!("unexpected blockers advance error: {error:?}"));
    state
        .declare_blockers(defender, &[BlockDeclaration::new(blocker, trampler)])
        .unwrap_or_else(|error| panic!("unexpected trample block error: {error:?}"));
    state
        .advance_step()
        .unwrap_or_else(|error| panic!("unexpected damage advance error: {error:?}"));

    state
        .assign_combat_damage(&[
            CombatDamageAssignmentRequest::new(
                trampler,
                vec![
                    CombatDamageAssignment::new(CombatDamageTarget::Object(blocker), 1),
                    CombatDamageAssignment::new(CombatDamageTarget::Player(defender), 4),
                ],
            ),
            CombatDamageAssignmentRequest::new(
                blocker,
                vec![CombatDamageAssignment::new(
                    CombatDamageTarget::Object(trampler),
                    3,
                )],
            ),
        ])
        .unwrap_or_else(|error| panic!("unexpected trample damage error: {error:?}"));

    assert_eq!(
        state.object_zone(blocker),
        Some(ZoneId::new(Some(defender), ZoneKind::Graveyard))
    );
    assert_eq!(
        state
            .objects()
            .get(blocker)
            .unwrap_or_else(|| panic!("missing blocker"))
            .damage_marked(),
        0
    );
    assert_eq!(state.players()[defender.index()].life(), 16);
}

#[test]
fn trample_without_lethal_blocker_damage_is_rejected() {
    let mut state = GameState::new();
    let active = state.add_player();
    let defender = state.add_player();
    let trampler = battlefield_creature(
        &mut state,
        active,
        215,
        5,
        5,
        CreatureKeywords::none().with_trample(),
    );
    let blocker =
        battlefield_creature(&mut state, defender, 216, 3, 3, CreatureKeywords::none());
    start_declare_attackers(&mut state, active);
    state
        .declare_attackers(active, &[AttackDeclaration::new(trampler, defender)])
        .unwrap_or_else(|error| panic!("unexpected trample attack error: {error:?}"));
    state
        .advance_step()
        .unwrap_or_else(|error| panic!("unexpected blockers advance error: {error:?}"));
    state
        .declare_blockers(defender, &[BlockDeclaration::new(blocker, trampler)])
        .unwrap_or_else(|error| panic!("unexpected trample block error: {error:?}"));
    state
        .advance_step()
        .unwrap_or_else(|error| panic!("unexpected damage advance error: {error:?}"));
    let before = state.canonical_bytes();

    assert_eq!(
        state.assign_combat_damage(&[CombatDamageAssignmentRequest::new(
            trampler,
            vec![
                CombatDamageAssignment::new(CombatDamageTarget::Object(blocker), 1),
                CombatDamageAssignment::new(CombatDamageTarget::Player(defender), 4),
            ],
        )]),
        Err(StateError::IllegalCombatDamageAssignment(trampler))
    );
    assert_eq!(state.canonical_bytes(), before);
}

#[test]
fn double_block_damage_must_follow_blocker_order() {
    let mut state = GameState::new();
    let active = state.add_player();
    let defender = state.add_player();
    let attacker =
        battlefield_creature(&mut state, active, 217, 4, 4, CreatureKeywords::none());
    let first_blocker =
        battlefield_creature(&mut state, defender, 218, 0, 2, CreatureKeywords::none());
    let second_blocker =
        battlefield_creature(&mut state, defender, 219, 0, 2, CreatureKeywords::none());
    start_declare_attackers(&mut state, active);
    state
        .declare_attackers(active, &[AttackDeclaration::new(attacker, defender)])
        .unwrap_or_else(|error| panic!("unexpected attack error: {error:?}"));
    state
        .advance_step()
        .unwrap_or_else(|error| panic!("unexpected blockers advance error: {error:?}"));
    state
        .declare_blockers(
            defender,
            &[
                BlockDeclaration::new(first_blocker, attacker),
                BlockDeclaration::new(second_blocker, attacker),
            ],
        )
        .unwrap_or_else(|error| panic!("unexpected block error: {error:?}"));
    state
        .advance_step()
        .unwrap_or_else(|error| panic!("unexpected damage advance error: {error:?}"));
    let before = state.canonical_bytes();

    assert_eq!(
        state.assign_combat_damage(&[CombatDamageAssignmentRequest::new(
            attacker,
            vec![CombatDamageAssignment::new(
                CombatDamageTarget::Object(second_blocker),
                4,
            )],
        )]),
        Err(StateError::IllegalCombatDamageAssignment(attacker))
    );
    assert_eq!(state.canonical_bytes(), before);

    state
        .assign_combat_damage(&[CombatDamageAssignmentRequest::new(
            attacker,
            vec![
                CombatDamageAssignment::new(CombatDamageTarget::Object(first_blocker), 2),
                CombatDamageAssignment::new(CombatDamageTarget::Object(second_blocker), 2),
            ],
        )])
        .unwrap_or_else(|error| panic!("unexpected ordered damage error: {error:?}"));

    assert_eq!(
        state.object_zone(first_blocker),
        Some(ZoneId::new(Some(defender), ZoneKind::Graveyard))
    );
    assert_eq!(
        state.object_zone(second_blocker),
        Some(ZoneId::new(Some(defender), ZoneKind::Graveyard))
    );
}

#[test]
fn lifelink_combat_damage_gains_life_as_damage_is_dealt() {
    let mut state = GameState::new();
    let active = state.add_player();
    let defender = state.add_player();
    let lifelinker = battlefield_creature(
        &mut state,
        active,
        217,
        3,
        3,
        CreatureKeywords::none().with_lifelink(),
    );
    start_declare_attackers(&mut state, active);
    state
        .declare_attackers(active, &[AttackDeclaration::new(lifelinker, defender)])
        .unwrap_or_else(|error| panic!("unexpected lifelink attack error: {error:?}"));
    state
        .advance_step()
        .unwrap_or_else(|error| panic!("unexpected blockers advance error: {error:?}"));
    state
        .declare_blockers(defender, &[])
        .unwrap_or_else(|error| panic!("unexpected empty block error: {error:?}"));
    state
        .advance_step()
        .unwrap_or_else(|error| panic!("unexpected damage advance error: {error:?}"));

    let records = state
        .assign_combat_damage(&[CombatDamageAssignmentRequest::new(
            lifelinker,
            vec![CombatDamageAssignment::new(
                CombatDamageTarget::Player(defender),
                3,
            )],
        )])
        .unwrap_or_else(|error| panic!("unexpected lifelink damage error: {error:?}"));

    assert_eq!(records.len(), 1);
    assert!(records[0].source_had_lifelink());
    assert_eq!(state.players()[active.index()].life(), 23);
    assert_eq!(state.players()[defender.index()].life(), 17);
}

#[test]
fn life_total_sba_causes_loss_and_win_before_priority() {
    let mut state = GameState::new();
    let active = state.add_player();
    let opponent = state.add_player();
    state
        .set_player_life(active, 0)
        .unwrap_or_else(|error| panic!("unexpected life set error: {error:?}"));

    start_upkeep(&mut state, active);

    assert!(state.players()[active.index()].lost());
    assert!(!state.players()[opponent.index()].lost());
    assert_eq!(state.game_outcome(), GameOutcome::Won(opponent));
    assert_eq!(state.priority_player(), None);
}

#[test]
fn poison_sba_causes_loss() {
    let mut state = GameState::new();
    let active = state.add_player();
    let opponent = state.add_player();
    state
        .add_poison_counters(active, 10)
        .unwrap_or_else(|error| panic!("unexpected poison error: {error:?}"));

    let report = state
        .check_state_based_actions()
        .unwrap_or_else(|error| panic!("unexpected SBA error: {error:?}"));

    assert_eq!(report.players_lost(), 1);
    assert!(state.players()[active.index()].lost());
    assert_eq!(state.game_outcome(), GameOutcome::Won(opponent));
}

#[test]
fn simultaneous_lethal_life_loss_is_a_draw() {
    let mut state = GameState::new();
    let active = state.add_player();
    let opponent = state.add_player();
    state
        .lose_life(active, 20)
        .unwrap_or_else(|error| panic!("unexpected active life loss error: {error:?}"));
    state
        .lose_life(opponent, 20)
        .unwrap_or_else(|error| panic!("unexpected opponent life loss error: {error:?}"));

    let report = state
        .check_state_based_actions()
        .unwrap_or_else(|error| panic!("unexpected SBA error: {error:?}"));

    assert_eq!(report.iterations(), 1);
    assert_eq!(report.players_lost(), 2);
    assert_eq!(state.game_outcome(), GameOutcome::Draw);
    assert_eq!(state.priority_player(), None);
}

#[test]
fn empty_library_draw_step_loses_before_priority() {
    let mut state = GameState::new();
    let active = state.add_player();
    let opponent = state.add_player();
    state
        .start_turn(active)
        .unwrap_or_else(|error| panic!("unexpected start error: {error:?}"));

    while state.current_step() != Some(Step::Draw) {
        state
            .advance_step()
            .unwrap_or_else(|error| panic!("unexpected draw walk error: {error:?}"));
    }

    assert_eq!(state.current_step(), Some(Step::Draw));
    assert!(state.players()[active.index()].lost());
    assert_eq!(state.game_outcome(), GameOutcome::Won(opponent));
    assert_eq!(state.priority_player(), None);
}

#[test]
fn lifelink_is_applied_before_loss_state_based_actions() {
    let mut state = GameState::new();
    let active = state.add_player();
    let defender = state.add_player();
    let lifelinker = battlefield_creature(
        &mut state,
        active,
        220,
        3,
        3,
        CreatureKeywords::none().with_lifelink(),
    );
    state
        .set_player_life(active, 3)
        .unwrap_or_else(|error| panic!("unexpected life set error: {error:?}"));
    start_declare_attackers(&mut state, active);
    state
        .declare_attackers(active, &[AttackDeclaration::new(lifelinker, defender)])
        .unwrap_or_else(|error| panic!("unexpected lifelink attack error: {error:?}"));
    state
        .advance_step()
        .unwrap_or_else(|error| panic!("unexpected blockers advance error: {error:?}"));
    state
        .declare_blockers(defender, &[])
        .unwrap_or_else(|error| panic!("unexpected empty block error: {error:?}"));
    state
        .advance_step()
        .unwrap_or_else(|error| panic!("unexpected damage advance error: {error:?}"));
    state
        .lose_life(active, 3)
        .unwrap_or_else(|error| panic!("unexpected pre-damage life loss error: {error:?}"));

    state
        .assign_combat_damage(&[CombatDamageAssignmentRequest::new(
            lifelinker,
            vec![CombatDamageAssignment::new(
                CombatDamageTarget::Player(defender),
                3,
            )],
        )])
        .unwrap_or_else(|error| panic!("unexpected lifelink damage error: {error:?}"));

    assert_eq!(state.players()[active.index()].life(), 3);
    assert!(!state.players()[active.index()].lost());
    assert_eq!(state.game_outcome(), GameOutcome::InProgress);
}

#[test]
fn lethal_combat_damage_moves_creatures_to_owner_graveyards_before_priority() {
    let mut state = GameState::new();
    let active = state.add_player();
    let defender = state.add_player();
    let attacker =
        battlefield_creature(&mut state, active, 221, 2, 2, CreatureKeywords::none());
    let blocker =
        battlefield_creature(&mut state, defender, 222, 2, 2, CreatureKeywords::none());
    start_declare_attackers(&mut state, active);
    state
        .declare_attackers(active, &[AttackDeclaration::new(attacker, defender)])
        .unwrap_or_else(|error| panic!("unexpected attack error: {error:?}"));
    state
        .advance_step()
        .unwrap_or_else(|error| panic!("unexpected blockers advance error: {error:?}"));
    state
        .declare_blockers(defender, &[BlockDeclaration::new(blocker, attacker)])
        .unwrap_or_else(|error| panic!("unexpected block error: {error:?}"));
    state
        .advance_step()
        .unwrap_or_else(|error| panic!("unexpected damage advance error: {error:?}"));

    state
        .assign_combat_damage(&[
            CombatDamageAssignmentRequest::new(
                attacker,
                vec![CombatDamageAssignment::new(
                    CombatDamageTarget::Object(blocker),
                    2,
                )],
            ),
            CombatDamageAssignmentRequest::new(
                blocker,
                vec![CombatDamageAssignment::new(
                    CombatDamageTarget::Object(attacker),
                    2,
                )],
            ),
        ])
        .unwrap_or_else(|error| panic!("unexpected lethal combat damage error: {error:?}"));

    assert_eq!(
        state.object_zone(attacker),
        Some(ZoneId::new(Some(active), ZoneKind::Graveyard))
    );
    assert_eq!(
        state.object_zone(blocker),
        Some(ZoneId::new(Some(defender), ZoneKind::Graveyard))
    );
    assert_eq!(state.priority_player(), Some(active));
}

#[test]
fn first_strike_lethal_damage_removes_blocker_before_regular_damage() {
    let mut state = GameState::new();
    let active = state.add_player();
    let defender = state.add_player();
    let striker = battlefield_creature(
        &mut state,
        active,
        223,
        2,
        2,
        CreatureKeywords::none().with_first_strike(),
    );
    let blocker =
        battlefield_creature(&mut state, defender, 224, 2, 2, CreatureKeywords::none());
    start_declare_attackers(&mut state, active);
    state
        .declare_attackers(active, &[AttackDeclaration::new(striker, defender)])
        .unwrap_or_else(|error| panic!("unexpected first strike attack error: {error:?}"));
    state
        .advance_step()
        .unwrap_or_else(|error| panic!("unexpected blockers advance error: {error:?}"));
    state
        .declare_blockers(defender, &[BlockDeclaration::new(blocker, striker)])
        .unwrap_or_else(|error| panic!("unexpected first strike block error: {error:?}"));
    state
        .advance_step()
        .unwrap_or_else(|error| panic!("unexpected first damage advance error: {error:?}"));
    state
        .assign_combat_damage(&[CombatDamageAssignmentRequest::new(
            striker,
            vec![CombatDamageAssignment::new(
                CombatDamageTarget::Object(blocker),
                2,
            )],
        )])
        .unwrap_or_else(|error| panic!("unexpected first strike damage error: {error:?}"));

    assert_eq!(
        state.object_zone(blocker),
        Some(ZoneId::new(Some(defender), ZoneKind::Graveyard))
    );
    assert!(state.combat_state().attackers()[0].blocked());
    assert_eq!(
        state
            .advance_step()
            .unwrap_or_else(|error| panic!("unexpected regular damage advance: {error:?}")),
        Step::CombatDamage
    );
    assert_eq!(
        state.combat_state().damage_step(),
        Some(CombatDamageStepKind::Regular)
    );
    state
        .assign_combat_damage(&[])
        .unwrap_or_else(|error| panic!("unexpected empty regular damage error: {error:?}"));
    assert_eq!(state.players()[defender.index()].life(), 20);
}

#[test]
fn deathtouch_damage_does_not_persist_past_one_sba_check() {
    let mut state = GameState::new();
    let active = state.add_player();
    let defender = state.add_player();
    let deathtoucher = battlefield_creature(
        &mut state,
        active,
        225,
        1,
        1,
        CreatureKeywords::none().with_deathtouch(),
    );
    let large = battlefield_creature(&mut state, defender, 226, 5, 5, CreatureKeywords::none());
    start_declare_attackers(&mut state, active);
    state
        .declare_attackers(active, &[AttackDeclaration::new(deathtoucher, defender)])
        .unwrap_or_else(|error| panic!("unexpected deathtouch attack error: {error:?}"));
    state
        .advance_step()
        .unwrap_or_else(|error| panic!("unexpected blockers advance error: {error:?}"));
    state
        .declare_blockers(defender, &[BlockDeclaration::new(large, deathtoucher)])
        .unwrap_or_else(|error| panic!("unexpected deathtouch block error: {error:?}"));
    state
        .advance_step()
        .unwrap_or_else(|error| panic!("unexpected damage advance error: {error:?}"));
    state
        .assign_combat_damage(&[
            CombatDamageAssignmentRequest::new(
                deathtoucher,
                vec![CombatDamageAssignment::new(
                    CombatDamageTarget::Object(large),
                    1,
                )],
            ),
            CombatDamageAssignmentRequest::new(
                large,
                vec![CombatDamageAssignment::new(
                    CombatDamageTarget::Object(deathtoucher),
                    5,
                )],
            ),
        ])
        .unwrap_or_else(|error| panic!("unexpected deathtouch damage error: {error:?}"));

    assert_eq!(
        state.object_zone(large),
        Some(ZoneId::new(Some(defender), ZoneKind::Graveyard))
    );
    state
        .move_object(large, ZoneId::new(None, ZoneKind::Battlefield))
        .unwrap_or_else(|error| panic!("unexpected return to battlefield error: {error:?}"));
    let report = state
        .check_state_based_actions()
        .unwrap_or_else(|error| panic!("unexpected stale SBA error: {error:?}"));

    assert_eq!(report.actions_performed(), 0);
    assert_eq!(
        state.object_zone(large),
        Some(ZoneId::new(None, ZoneKind::Battlefield))
    );
}

#[test]
fn zero_toughness_creature_goes_to_owner_graveyard() {
    let mut state = GameState::new();
    let player = state.add_player();
    let doomed = battlefield_creature(&mut state, player, 227, 0, 0, CreatureKeywords::none());

    let report = state
        .check_state_based_actions()
        .unwrap_or_else(|error| panic!("unexpected zero toughness SBA error: {error:?}"));

    assert_eq!(report.zero_toughness_creatures(), 1);
    assert_eq!(
        state.object_zone(doomed),
        Some(ZoneId::new(Some(player), ZoneKind::Graveyard))
    );
}

#[test]
fn combat_damage_marks_persist_until_cleanup() {
    let mut state = GameState::new();
    let active = state.add_player();
    let defender = state.add_player();
    let attacker =
        battlefield_creature(&mut state, active, 218, 1, 3, CreatureKeywords::none());
    let blocker =
        battlefield_creature(&mut state, defender, 219, 1, 3, CreatureKeywords::none());
    start_declare_attackers(&mut state, active);
    state
        .declare_attackers(active, &[AttackDeclaration::new(attacker, defender)])
        .unwrap_or_else(|error| panic!("unexpected attack error: {error:?}"));
    state
        .advance_step()
        .unwrap_or_else(|error| panic!("unexpected blockers advance error: {error:?}"));
    state
        .declare_blockers(defender, &[BlockDeclaration::new(blocker, attacker)])
        .unwrap_or_else(|error| panic!("unexpected block error: {error:?}"));
    state
        .advance_step()
        .unwrap_or_else(|error| panic!("unexpected damage advance error: {error:?}"));
    state
        .assign_combat_damage(&[
            CombatDamageAssignmentRequest::new(
                attacker,
                vec![CombatDamageAssignment::new(
                    CombatDamageTarget::Object(blocker),
                    1,
                )],
            ),
            CombatDamageAssignmentRequest::new(
                blocker,
                vec![CombatDamageAssignment::new(
                    CombatDamageTarget::Object(attacker),
                    1,
                )],
            ),
        ])
        .unwrap_or_else(|error| panic!("unexpected creature damage error: {error:?}"));
    state
        .advance_step()
        .unwrap_or_else(|error| panic!("unexpected end combat advance error: {error:?}"));
    state
        .advance_step()
        .unwrap_or_else(|error| panic!("unexpected postcombat advance error: {error:?}"));
    assert_eq!(
        state
            .objects()
            .get(attacker)
            .unwrap_or_else(|| panic!("missing attacker"))
            .damage_marked(),
        1
    );
    assert_eq!(
        state
            .objects()
            .get(blocker)
            .unwrap_or_else(|| panic!("missing blocker"))
            .damage_marked(),
        1
    );

    while state.current_step() != Some(Step::Cleanup) {
        state
            .advance_step()
            .unwrap_or_else(|error| panic!("unexpected cleanup walk error: {error:?}"));
    }
    assert_eq!(
        state
            .objects()
            .get(attacker)
            .unwrap_or_else(|| panic!("missing attacker"))
            .damage_marked(),
        0
    );
    assert_eq!(
        state
            .objects()
            .get(blocker)
            .unwrap_or_else(|| panic!("missing blocker"))
            .damage_marked(),
        0
    );
}

#[test]
fn end_of_turn_durations_survive_end_step_and_expire_during_cleanup() {
    let mut state = GameState::new();
    let active = state.add_player();
    ensure_library_card(&mut state, active);
    state.add_duration_marker(EffectDuration::UntilEndOfTurn);
    state.add_duration_marker(EffectDuration::ThisTurn);

    state
        .start_turn(active)
        .unwrap_or_else(|error| panic!("unexpected start error: {error:?}"));
    while state.current_step() != Some(Step::End) {
        state
            .advance_step()
            .unwrap_or_else(|error| panic!("unexpected advance error: {error:?}"));
    }
    assert_eq!(
        state.duration_marker_count(EffectDuration::UntilEndOfTurn),
        1
    );
    assert_eq!(state.duration_marker_count(EffectDuration::ThisTurn), 1);

    state
        .advance_step()
        .unwrap_or_else(|error| panic!("unexpected cleanup advance error: {error:?}"));
    assert_eq!(state.current_step(), Some(Step::Cleanup));
    assert_eq!(
        state.duration_marker_count(EffectDuration::UntilEndOfTurn),
        0
    );
    assert_eq!(state.duration_marker_count(EffectDuration::ThisTurn), 0);
    assert_eq!(state.last_cleanup_report().expired_until_end_of_turn(), 1);
    assert_eq!(state.last_cleanup_report().expired_this_turn(), 1);
}

#[test]
fn cleanup_discards_to_max_hand_size_before_next_turn() {
    let mut state = GameState::new();
    let active = state.add_player();
    let next = state.add_player();
    let hand = ZoneId::new(Some(active), ZoneKind::Hand);
    let graveyard = ZoneId::new(Some(active), ZoneKind::Graveyard);
    ensure_library_card(&mut state, active);
    state
        .set_player_max_hand_size(active, 2)
        .unwrap_or_else(|error| panic!("unexpected max hand size error: {error:?}"));
    for card in 0..5 {
        state
            .create_object(CardId::new(card), active, active, hand)
            .unwrap_or_else(|error| panic!("unexpected create error: {error:?}"));
    }
    state.add_duration_marker(EffectDuration::UntilEndOfTurn);

    state
        .start_turn(active)
        .unwrap_or_else(|error| panic!("unexpected start error: {error:?}"));
    while state.current_step() != Some(Step::Cleanup) {
        state
            .advance_step()
            .unwrap_or_else(|error| panic!("unexpected advance error: {error:?}"));
    }

    assert_eq!(state.last_cleanup_report().discarded(), 4);
    assert_eq!(state.last_cleanup_report().expired_until_end_of_turn(), 1);
    assert_eq!(
        state
            .zone(hand)
            .unwrap_or_else(|| panic!("hand zone missing"))
            .objects()
            .len(),
        2
    );
    assert_eq!(
        state
            .zone(graveyard)
            .unwrap_or_else(|| panic!("graveyard zone missing"))
            .objects()
            .len(),
        4
    );
    assert_eq!(state.priority_player(), None);

    state
        .advance_step()
        .unwrap_or_else(|error| panic!("unexpected next turn advance error: {error:?}"));
    assert_eq!(state.current_step(), Some(Step::Untap));
    assert_eq!(state.turn_number(), 2);
    assert_eq!(state.active_player(), Some(next));
}

#[test]
fn cleanup_priority_exception_repeats_cleanup_step() {
    let mut state = GameState::new();
    let active = state.add_player();
    state.add_player();
    ensure_library_card(&mut state, active);
    state
        .start_turn(active)
        .unwrap_or_else(|error| panic!("unexpected start error: {error:?}"));
    state.request_cleanup_priority();
    while state.current_step() != Some(Step::Cleanup) {
        state
            .advance_step()
            .unwrap_or_else(|error| panic!("unexpected advance error: {error:?}"));
    }

    assert_eq!(state.current_step(), Some(Step::Cleanup));
    assert_eq!(state.cleanup_iteration(), 1);
    assert_eq!(state.priority_player(), Some(active));

    state
        .advance_step()
        .unwrap_or_else(|error| panic!("unexpected repeated cleanup advance error: {error:?}"));
    assert_eq!(state.current_step(), Some(Step::Cleanup));
    assert_eq!(state.cleanup_iteration(), 2);
    assert_eq!(state.priority_player(), None);
}

#[test]
fn cleanup_state_based_action_grants_priority_and_repeats_cleanup() {
    let mut state = GameState::new();
    let active = state.add_player();
    state.add_player();
    ensure_library_card(&mut state, active);
    state
        .start_turn(active)
        .unwrap_or_else(|error| panic!("unexpected start error: {error:?}"));
    while state.current_step() != Some(Step::End) {
        state
            .advance_step()
            .unwrap_or_else(|error| panic!("unexpected end-step walk error: {error:?}"));
    }
    let doomed = battlefield_creature(&mut state, active, 228, 0, 0, CreatureKeywords::none());

    state
        .advance_step()
        .unwrap_or_else(|error| panic!("unexpected cleanup advance error: {error:?}"));

    assert_eq!(state.current_step(), Some(Step::Cleanup));
    assert_eq!(state.cleanup_iteration(), 1);
    assert_eq!(state.priority_player(), Some(active));
    assert_eq!(
        state.object_zone(doomed),
        Some(ZoneId::new(Some(active), ZoneKind::Graveyard))
    );

    state
        .advance_step()
        .unwrap_or_else(|error| panic!("unexpected repeated cleanup advance error: {error:?}"));
    assert_eq!(state.current_step(), Some(Step::Cleanup));
    assert_eq!(state.cleanup_iteration(), 2);
    assert_eq!(state.priority_player(), None);
}

#[test]
fn priority_starts_with_active_then_passes_in_turn_order() {
    let mut state = GameState::new();
    let first = state.add_player();
    let active = state.add_player();
    let third = state.add_player();
    start_upkeep(&mut state, active);

    assert_eq!(state.priority_player(), Some(active));
    assert_eq!(
        state.pass_priority(active),
        Ok(PriorityOutcome::PassedTo(third))
    );
    assert_eq!(
        state.pass_priority(third),
        Ok(PriorityOutcome::PassedTo(first))
    );
}

#[test]
fn adding_stack_object_holds_priority_and_resets_passes() {
    let mut state = GameState::new();
    let active = state.add_player();
    let responder = state.add_player();
    start_upkeep(&mut state, active);
    assert_eq!(
        state.pass_priority(active),
        Ok(PriorityOutcome::PassedTo(responder))
    );
    assert_eq!(state.priority_pass_count(), 1);

    let ability = state
        .put_ability_on_stack(responder, StackObjectKind::ActivatedAbility, true)
        .unwrap_or_else(|error| panic!("unexpected ability error: {error:?}"));

    assert_eq!(state.priority_player(), Some(responder));
    assert_eq!(state.priority_pass_count(), 0);
    assert_eq!(state.stack_top().map(|entry| entry.id()), Some(ability));
}

#[test]
fn mana_activated_ability_resolves_without_priority_or_stack() {
    let mut state = GameState::new();
    let active = state.add_player();
    let source = state
        .create_object(
            CardId::new(25_001),
            active,
            active,
            ZoneId::new(None, ZoneKind::Battlefield),
        )
        .unwrap_or_else(|error| panic!("unexpected source create error: {error:?}"));
    let ability = state
        .register_activated_ability(
            ActivatedAbilityDefinition::new(
                active,
                Some(source),
                ActivationTiming::Instant,
                ActivationCost::new(ManaCost::new(0, 0, 0, 0, 0, 0)).with_tap_source(),
                ActivatedAbilityEffect::AddMana {
                    player: AbilityPlayer::Controller,
                    mana: ManaPool::new(0, 0, 0, 0, 1, 0),
                },
            )
            .as_mana_ability(),
        )
        .unwrap_or_else(|error| panic!("unexpected ability registration error: {error:?}"));

    assert_eq!(
        state.activate_ability(
            active,
            ability,
            zero_payment(ManaCost::new(0, 0, 0, 0, 0, 0))
        ),
        Ok(None)
    );

    assert!(state
        .object(source)
        .unwrap_or_else(|| panic!("source missing"))
        .tapped());
    assert!(state.stack_entries().is_empty());
    assert_eq!(
        state
            .mana_pool(active)
            .unwrap_or_else(|error| panic!("unexpected mana pool error: {error:?}")),
        ManaPool::new(0, 0, 0, 0, 1, 0)
    );
    assert_eq!(state.priority_player(), None);
}

#[test]
fn loyalty_activated_ability_is_once_per_turn() {
    let mut state = GameState::new();
    let active = state.add_player();
    let source = state
        .create_object(
            CardId::new(25_002),
            active,
            active,
            ZoneId::new(None, ZoneKind::Battlefield),
        )
        .unwrap_or_else(|error| panic!("unexpected source create error: {error:?}"));
    state
        .set_object_loyalty(source, Some(3))
        .unwrap_or_else(|error| panic!("unexpected loyalty setup error: {error:?}"));
    let ability = state
        .register_activated_ability(ActivatedAbilityDefinition::new(
            active,
            Some(source),
            ActivationTiming::Sorcery,
            ActivationCost::new(ManaCost::new(0, 0, 0, 0, 0, 0)).with_loyalty_delta(1),
            ActivatedAbilityEffect::GainLife {
                player: AbilityPlayer::Controller,
                amount: 1,
            },
        ))
        .unwrap_or_else(|error| panic!("unexpected ability registration error: {error:?}"));
    start_upkeep(&mut state, active);
    state
        .advance_step()
        .unwrap_or_else(|error| panic!("unexpected draw advance error: {error:?}"));
    state
        .advance_step()
        .unwrap_or_else(|error| panic!("unexpected main advance error: {error:?}"));

    let payment = zero_payment(ManaCost::new(0, 0, 0, 0, 0, 0));
    let entry = state
        .activate_ability(active, ability, payment)
        .unwrap_or_else(|error| panic!("unexpected loyalty activation error: {error:?}"))
        .unwrap_or_else(|| panic!("loyalty ability should use the stack"));
    assert_eq!(
        state
            .object(source)
            .unwrap_or_else(|| panic!("source missing"))
            .loyalty(),
        Some(4)
    );
    assert_eq!(
        state.pass_priority(active),
        Ok(PriorityOutcome::Resolved(entry))
    );
    assert_eq!(
        state.activate_ability(active, ability, payment),
        Err(StateError::LoyaltyAbilityAlreadyActivatedThisTurn(source))
    );
}

#[test]
fn activated_cost_modifier_changes_required_payment() {
    let mut state = GameState::new();
    let active = state.add_player();
    let source = state
        .create_object(
            CardId::new(25_003),
            active,
            active,
            ZoneId::new(None, ZoneKind::Battlefield),
        )
        .unwrap_or_else(|error| panic!("unexpected source create error: {error:?}"));
    let ability = state
        .register_activated_ability(ActivatedAbilityDefinition::new(
            active,
            Some(source),
            ActivationTiming::Instant,
            ActivationCost::new(ManaCost::new(0, 0, 0, 0, 0, 1)),
            ActivatedAbilityEffect::GainLife {
                player: AbilityPlayer::Controller,
                amount: 1,
            },
        ))
        .unwrap_or_else(|error| panic!("unexpected ability registration error: {error:?}"));
    state
        .register_cost_modifier(CostModifierDefinition::new(
            active,
            None,
            CostModifierScope::Ability(ability),
            CostModifierOperation::AddGeneric(1),
        ))
        .unwrap_or_else(|error| panic!("unexpected modifier registration error: {error:?}"));
    start_upkeep(&mut state, active);
    state
        .add_mana_to_pool(active, ManaPool::new(0, 0, 0, 0, 0, 1))
        .unwrap_or_else(|error| panic!("unexpected mana add error: {error:?}"));
    let base_payment = validate_payment_plan(
        state
            .mana_pool(active)
            .unwrap_or_else(|error| panic!("unexpected mana pool error: {error:?}")),
        ManaCost::new(0, 0, 0, 0, 0, 1),
        ManaPool::new(0, 0, 0, 0, 0, 1),
    )
    .unwrap_or_else(|error| panic!("unexpected base payment error: {error:?}"));

    assert_eq!(
        state.activate_ability(active, ability, base_payment),
        Err(StateError::InvalidPaymentPlan)
    );
    assert_eq!(state.players()[active.index()].life(), 20);
    assert!(state.stack_entries().is_empty());
}

#[test]
fn passes_in_succession_on_empty_stack_advance_step() {
    let mut state = GameState::new();
    let active = state.add_player();
    let responder = state.add_player();
    start_upkeep(&mut state, active);

    assert_eq!(
        state.pass_priority(active),
        Ok(PriorityOutcome::PassedTo(responder))
    );
    assert_eq!(
        state.pass_priority(responder),
        Ok(PriorityOutcome::StepComplete)
    );
    assert_eq!(state.current_step(), Some(Step::Draw));
    assert_eq!(state.priority_player(), Some(active));
}

#[test]
fn intervening_action_breaks_pass_succession() {
    let mut state = GameState::new();
    let active = state.add_player();
    let second = state.add_player();
    let third = state.add_player();
    start_upkeep(&mut state, active);

    assert_eq!(
        state.pass_priority(active),
        Ok(PriorityOutcome::PassedTo(second))
    );
    assert_eq!(
        state.pass_priority(second),
        Ok(PriorityOutcome::PassedTo(third))
    );
    let ability = state
        .put_ability_on_stack(third, StackObjectKind::TriggeredAbility, true)
        .unwrap_or_else(|error| panic!("unexpected ability error: {error:?}"));
    assert_eq!(state.priority_pass_count(), 0);

    assert_eq!(
        state.pass_priority(third),
        Ok(PriorityOutcome::PassedTo(active))
    );
    assert_eq!(
        state.pass_priority(active),
        Ok(PriorityOutcome::PassedTo(second))
    );
    assert_eq!(
        state.pass_priority(second),
        Ok(PriorityOutcome::Resolved(ability))
    );
    assert_eq!(state.resolution_log()[0].stack_entry(), ability);
}

#[test]
fn full_pass_round_resolves_only_one_object() {
    let mut state = GameState::new();
    let active = state.add_player();
    let responder = state.add_player();
    let hand = ZoneId::new(Some(active), ZoneKind::Hand);
    let graveyard = ZoneId::new(Some(active), ZoneKind::Graveyard);
    let first = state
        .create_object(CardId::new(21), active, active, hand)
        .unwrap_or_else(|error| panic!("unexpected create error: {error:?}"));
    let second = state
        .create_object(CardId::new(22), active, active, hand)
        .unwrap_or_else(|error| panic!("unexpected create error: {error:?}"));
    start_upkeep(&mut state, active);
    let first_entry = state
        .put_spell_on_stack(active, first, StackObjectKind::InstantSpell, true)
        .unwrap_or_else(|error| panic!("unexpected stack error: {error:?}"));
    let second_entry = state
        .put_spell_on_stack(active, second, StackObjectKind::InstantSpell, true)
        .unwrap_or_else(|error| panic!("unexpected stack error: {error:?}"));

    assert_eq!(
        state.pass_priority(active),
        Ok(PriorityOutcome::PassedTo(responder))
    );
    assert_eq!(
        state.pass_priority(responder),
        Ok(PriorityOutcome::Resolved(second_entry))
    );

    assert_eq!(state.stack_entries().len(), 1);
    assert_eq!(state.stack_top().map(|entry| entry.id()), Some(first_entry));
    assert_eq!(state.resolution_log().len(), 1);
    assert_eq!(state.resolution_log()[0].stack_entry(), second_entry);
    assert_eq!(state.object_zone(second), Some(graveyard));
    assert_eq!(state.priority_player(), Some(active));
}

#[test]
fn resolved_object_controller_does_not_receive_priority() {
    let mut state = GameState::new();
    let active = state.add_player();
    let responder = state.add_player();
    let active_hand = ZoneId::new(Some(active), ZoneKind::Hand);
    let responder_hand = ZoneId::new(Some(responder), ZoneKind::Hand);
    let active_spell = state
        .create_object(CardId::new(30), active, active, active_hand)
        .unwrap_or_else(|error| panic!("unexpected create error: {error:?}"));
    let response = state
        .create_object(CardId::new(31), responder, responder, responder_hand)
        .unwrap_or_else(|error| panic!("unexpected create error: {error:?}"));
    start_upkeep(&mut state, active);
    state
        .put_spell_on_stack(active, active_spell, StackObjectKind::InstantSpell, true)
        .unwrap_or_else(|error| panic!("unexpected stack error: {error:?}"));
    state
        .pass_priority(active)
        .unwrap_or_else(|error| panic!("unexpected pass error: {error:?}"));
    let response_entry = state
        .put_spell_on_stack(responder, response, StackObjectKind::InstantSpell, true)
        .unwrap_or_else(|error| panic!("unexpected response error: {error:?}"));

    state
        .pass_priority(responder)
        .unwrap_or_else(|error| panic!("unexpected responder pass error: {error:?}"));
    assert_eq!(
        state.pass_priority(active),
        Ok(PriorityOutcome::Resolved(response_entry))
    );
    assert_eq!(state.priority_player(), Some(active));
}

#[test]
fn three_instant_response_chain_resolves_lifo() {
    let mut state = GameState::new();
    let active = state.add_player();
    let responder = state.add_player();
    let active_hand = ZoneId::new(Some(active), ZoneKind::Hand);
    let responder_hand = ZoneId::new(Some(responder), ZoneKind::Hand);
    let first = state
        .create_object(CardId::new(40), active, active, active_hand)
        .unwrap_or_else(|error| panic!("unexpected create error: {error:?}"));
    let second = state
        .create_object(CardId::new(41), responder, responder, responder_hand)
        .unwrap_or_else(|error| panic!("unexpected create error: {error:?}"));
    let third = state
        .create_object(CardId::new(42), active, active, active_hand)
        .unwrap_or_else(|error| panic!("unexpected create error: {error:?}"));
    start_upkeep(&mut state, active);
    let first_entry = state
        .put_spell_on_stack(active, first, StackObjectKind::InstantSpell, true)
        .unwrap_or_else(|error| panic!("unexpected first stack error: {error:?}"));
    state
        .pass_priority(active)
        .unwrap_or_else(|error| panic!("unexpected pass error: {error:?}"));
    let second_entry = state
        .put_spell_on_stack(responder, second, StackObjectKind::InstantSpell, true)
        .unwrap_or_else(|error| panic!("unexpected second stack error: {error:?}"));
    state
        .pass_priority(responder)
        .unwrap_or_else(|error| panic!("unexpected pass error: {error:?}"));
    let third_entry = state
        .put_spell_on_stack(active, third, StackObjectKind::InstantSpell, true)
        .unwrap_or_else(|error| panic!("unexpected third stack error: {error:?}"));

    pass_round(&mut state, active, responder, third_entry);
    pass_round(&mut state, active, responder, second_entry);
    pass_round(&mut state, active, responder, first_entry);

    let resolved: Vec<StackEntryId> = state
        .resolution_log()
        .iter()
        .map(|record| record.stack_entry())
        .collect();
    assert_eq!(resolved, vec![third_entry, second_entry, first_entry]);
    assert!(state.stack_entries().is_empty());
}

#[test]
fn simultaneous_stack_objects_use_apnap_low_to_high() {
    let mut state = GameState::new();
    let first = state.add_player();
    let active = state.add_player();
    let third = state.add_player();
    start_upkeep(&mut state, active);

    let ids = state
        .put_simultaneous_abilities_apnap(
            &[active, third, first],
            StackObjectKind::TriggeredAbility,
        )
        .unwrap_or_else(|error| panic!("unexpected APNAP stack error: {error:?}"));

    let controllers: Vec<PlayerId> = state
        .stack_entries()
        .iter()
        .map(|entry| entry.controller())
        .collect();
    assert_eq!(controllers, vec![active, third, first]);
    assert_eq!(ids.len(), 3);
    assert_eq!(
        state.stack_top().map(|entry| entry.controller()),
        Some(first)
    );
}

fn add_player_action(state: &mut GameState) -> PlayerId {
    match apply(state, Action::AddPlayer) {
        Outcome::PlayerAdded(player) => player,
        other => panic!("unexpected add-player outcome: {other:?}"),
    }
}

fn seed_library_cards(state: &mut GameState, player: PlayerId, first_card: u32, count: u32) {
    let library = ZoneId::new(Some(player), ZoneKind::Library);
    for offset in 0..count {
        match apply(
            state,
            Action::CreateObject {
                card: CardId::new(first_card + offset),
                owner: player,
                controller: player,
                zone: library,
            },
        ) {
            Outcome::ObjectCreated(_) => {}
            other => panic!("unexpected library seed outcome: {other:?}"),
        }
    }
}

fn start_upkeep(state: &mut GameState, active: PlayerId) {
    ensure_library_card(state, active);
    state
        .start_turn(active)
        .unwrap_or_else(|error| panic!("unexpected start error: {error:?}"));
    state
        .advance_step()
        .unwrap_or_else(|error| panic!("unexpected upkeep advance error: {error:?}"));
}

fn start_declare_attackers(state: &mut GameState, active: PlayerId) {
    ensure_library_card(state, active);
    state
        .start_turn(active)
        .unwrap_or_else(|error| panic!("unexpected start error: {error:?}"));
    while state.current_step() != Some(Step::DeclareAttackers) {
        state
            .advance_step()
            .unwrap_or_else(|error| panic!("unexpected combat walk error: {error:?}"));
    }
}

fn ensure_library_card(state: &mut GameState, player: PlayerId) {
    let library = ZoneId::new(Some(player), ZoneKind::Library);
    if state
        .zone(library)
        .unwrap_or_else(|| panic!("library zone missing"))
        .objects()
        .is_empty()
    {
        state
            .create_object(CardId::new(9_999), player, player, library)
            .unwrap_or_else(|error| panic!("unexpected library seed error: {error:?}"));
    }
}

fn battlefield_creature(
    state: &mut GameState,
    controller: PlayerId,
    card: u32,
    power: i32,
    toughness: i32,
    keywords: CreatureKeywords,
) -> ObjectId {
    let object = state
        .create_object(
            CardId::new(card),
            controller,
            controller,
            ZoneId::new(None, ZoneKind::Battlefield),
        )
        .unwrap_or_else(|error| panic!("unexpected battlefield create error: {error:?}"));
    state
        .set_base_creature_characteristics(
            object,
            BaseCreatureCharacteristics::new(power, toughness).with_keywords(keywords),
        )
        .unwrap_or_else(|error| panic!("unexpected creature characteristics error: {error:?}"));
    object
}

fn register_replacement(
    state: &mut GameState,
    definition: ReplacementDefinition,
) -> ReplacementEffectId {
    match apply(state, Action::RegisterReplacementEffect { definition }) {
        Outcome::ReplacementEffectRegistered(replacement) => replacement,
        other => panic!("unexpected replacement registration outcome: {other:?}"),
    }
}

fn register_continuous(
    state: &mut GameState,
    definition: ContinuousEffectDefinition,
) -> ContinuousEffectId {
    match apply(state, Action::RegisterContinuousEffect { definition }) {
        Outcome::ContinuousEffectRegistered(effect) => effect,
        other => panic!("unexpected continuous effect registration outcome: {other:?}"),
    }
}

fn combat_damage_record(
    source: ObjectId,
    target: CombatDamageTarget,
    amount: u32,
) -> CombatDamageRecord {
    CombatDamageRecord {
        source,
        target,
        amount,
        step: CombatDamageStepKind::Regular,
        source_had_deathtouch: false,
        source_had_lifelink: false,
    }
}

fn replacement_applications(state: &GameState) -> Vec<ReplacementEffectId> {
    state
        .events_this_turn()
        .iter()
        .filter_map(|record| match record.event() {
            GameEvent::ReplacementEffectApplied { replacement, .. } => Some(replacement),
            _ => None,
        })
        .collect()
}

fn zero_payment(cost: ManaCost) -> PaymentPlan {
    validate_payment_plan(ManaPool::empty(), cost, ManaPool::empty())
        .unwrap_or_else(|error| panic!("unexpected zero payment error: {error:?}"))
}

fn cast_zero_cost_target_spell(
    state: &mut GameState,
    active: PlayerId,
    spell: ObjectId,
    target: ObjectId,
) {
    let cost = ManaCost::new(0, 0, 0, 0, 0, 0);
    let request = CastSpellRequest::new(
        StackObjectKind::InstantSpell,
        SpellTiming::Instant,
        cost,
        zero_payment(cost),
    )
    .with_targets(
        vec![TargetRequirement::new(TargetKind::Permanent)],
        vec![TargetChoice::Object(target)],
    );
    state
        .cast_spell(active, spell, request)
        .unwrap_or_else(|error| panic!("unexpected target cast error: {error:?}"));
}

fn pass_round(
    state: &mut GameState,
    active: PlayerId,
    responder: PlayerId,
    expected: StackEntryId,
) {
    assert_eq!(
        state.pass_priority(active),
        Ok(PriorityOutcome::PassedTo(responder))
    );
    assert_eq!(
        state.pass_priority(responder),
        Ok(PriorityOutcome::Resolved(expected))
    );
    assert_eq!(state.priority_player(), Some(active));
}
