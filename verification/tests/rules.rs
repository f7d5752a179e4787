use rusty::action::{ActionBuilder, ActionTriggerType, CardAction, CardRequiredTarget, CardActionTarget, DrawCardCardAction, GameAction, PhaseTarget, PlayerAction};
use rusty::card::{Card, CardBuilder, CardPhase, CardType, CreatureType};
use rusty::deck::Deck;
use rusty::game::{ActionType, FrontendCardTarget, FrontendPileName, Game};
use rusty::mana::{ManaPool, ManaType};
use rusty::player::Player;
use rusty::stat::{Stat, StatManager, StatType, Stats};
use rusty::turn::{Turn, TurnPhase};

fn pool(white: u8, blue: u8, black: u8, red: u8, green: u8, colorless: u8) -> ManaPool {
    ManaPool { white, blue, black, red, green, colorless, played_card: false }
}

fn creature(name: &str, power: i16, toughness: i16) -> Card {
    CardBuilder::new().name(name).creature(power, toughness).build()
}

#[test]
fn mana_types_format_as_symbols() {
    assert_eq!(ManaType::White.format(), "{W}");
    assert_eq!(ManaType::Blue.format(), "{U}");
    assert_eq!(ManaType::Black.format(), "{B}");
    assert_eq!(ManaType::Red.format(), "{R}");
    assert_eq!(ManaType::Green.format(), "{G}");
    assert_eq!(ManaType::Colorless.format(), "{C}");
}

#[test]
fn pool_formats_groups_in_colour_order() {
    assert_eq!(pool(2, 1, 0, 0, 0, 3).format_mana(), "{WW} {U} {3C}");
    assert_eq!(pool(0, 0, 0, 0, 0, 1).format_mana(), "{1C}");
    assert_eq!(pool(0, 0, 1, 2, 0, 0).format_mana(), "{B} {RR}");
    assert_eq!(ManaPool::new().format_mana(), "");
}

#[test]
fn adding_and_emptying_mana() {
    let mut p = ManaPool::new();
    p.add_mana(ManaType::Green);
    p.add_mana(ManaType::Green);
    p.add_mana(ManaType::Colorless);
    assert_eq!(p.green, 2);
    assert_eq!(p.colorless, 1);
    p.played_card = true;
    p.empty_pool();
    assert_eq!(p, ManaPool { played_card: true, ..ManaPool::new() });
}

#[test]
fn paying_spends_generic_mana_first() {
    let mut player = Player::new("ann", 20, vec![]);
    player.mana_pool = pool(2, 0, 0, 0, 0, 1);
    let cost = vec![ManaType::White, ManaType::Colorless, ManaType::Colorless];
    assert!(player.has_required_mana(&cost));
    assert_eq!(player.pay_mana(&cost), Ok(()));
    assert_eq!(player.mana_pool, ManaPool::new());
}

#[test]
fn paying_without_the_colour_changes_nothing() {
    let mut player = Player::new("ann", 20, vec![]);
    player.mana_pool = pool(3, 0, 0, 0, 0, 0);
    let cost = vec![ManaType::Blue];
    assert!(!player.has_required_mana(&cost));
    assert_eq!(player.pay_mana(&cost), Err("Not enough colored mana to pay the cost.".to_string()));
    assert_eq!(player.mana_pool, pool(3, 0, 0, 0, 0, 0));
}

#[test]
fn paying_short_of_generic_mana_keeps_the_colours_paid() {
    let mut player = Player::new("ann", 20, vec![]);
    player.mana_pool = pool(1, 0, 0, 0, 0, 0);
    let cost = vec![ManaType::White, ManaType::Colorless];
    assert_eq!(player.pay_mana(&cost), Err("Not enough mana to pay the generic mana cost.".to_string()));
    assert_eq!(player.mana_pool, ManaPool::new());
}

#[test]
fn untapped_lands_decide_what_can_be_paid() {
    let mut player = Player::new("ann", 20, vec![]);
    player.cards_in_play.push(rusty::decks::create_test_plains());
    assert!(player.can_pay_mana(&vec![ManaType::White, ManaType::White]));
    assert!(!player.can_pay_mana(&vec![ManaType::Blue]));
    assert!(!player.can_pay_mana(&vec![ManaType::Colorless]));
    player.cards_in_play[0].tapped = true;
    assert!(!player.can_pay_mana(&vec![ManaType::White]));
    assert!(player.can_pay_mana(&vec![]));
}

#[test]
fn stats_add_up_by_type() {
    let mut stats = StatManager::new(vec![Stat::new(StatType::Power, 2), Stat::new(StatType::Toughness, 3)]);
    assert_eq!(stats.get_stat_value(StatType::Power), 2);
    stats.add_stat("bonus".to_string(), Stat::new(StatType::Power, 5));
    assert_eq!(stats.get_stat_value(StatType::Power), 7);
    stats.add_stat("bonus".to_string(), Stat::new(StatType::Power, 1));
    assert_eq!(stats.get_stat_value(StatType::Power), 3);
    stats.modify_stat(StatType::Power, 2);
    assert_eq!(stats.get_stat_value(StatType::Power), 7);
    stats.remove_stat("bonus".to_string());
    assert_eq!(stats.get_stat_value(StatType::Power), 4);
    assert_eq!(stats.get_stat_value(StatType::Toughness), 3);
    assert_eq!(stats.get_stat_value(StatType::Health), 0);
}

#[test]
fn stat_intensity_can_be_set() {
    let mut s = Stat::new(StatType::Health, 4);
    s.set_intensity(-2);
    assert_eq!(s, Stat { stat_type: StatType::Health, intensity: -2 });
}

#[test]
fn a_turn_walks_through_twelve_phases() {
    let mut turn = Turn::new(1, 7);
    assert_eq!(turn.phase, TurnPhase::Untap);
    turn.next_phase();
    assert_eq!(turn.phase, TurnPhase::Upkeep);
    for _ in 0..11 {
        turn.next_phase();
    }
    assert_eq!(turn.phase, TurnPhase::Untap);
    assert_eq!(turn.current_player_index, 1);
    assert_eq!(turn.turn_number, 7);
}

#[test]
fn tapping_needs_a_ready_untapped_card() {
    let mut card = creature("Bear", 2, 2);
    assert!(card.is_tappable());
    assert_eq!(card.tap(), Ok(()));
    assert!(card.tapped);
    assert_eq!(card.tap(), Err("Card already tapped"));
    card.untap();
    card.current_phase = CardPhase::Charging(2);
    assert_eq!(card.tap(), Err("Card is not ready"));
}

#[test]
fn costs_render_with_generic_runs() {
    let card = CardBuilder::new()
        .mana_cost(vec![ManaType::Colorless, ManaType::Colorless, ManaType::White, ManaType::Colorless])
        .build();
    assert_eq!(card.format_mana_cost(), "{2C} {W} {1C}");
    let plain = CardBuilder::new().mana_cost(vec![ManaType::Blue, ManaType::Red]).build();
    assert_eq!(plain.format_mana_cost(), "{U} {R}");
}

#[test]
fn lands_are_not_spells() {
    assert!(!CardType::BasicLand(ManaType::Red).is_spell());
    assert!(!CardType::AdvancedMultiLand(ManaType::Red, ManaType::Blue).is_spell());
    assert!(CardType::Creature.is_spell());
    assert!(CardType::Instant.is_spell());
}

#[test]
fn draw_card_action_draws_one() {
    let a = DrawCardCardAction::one(CardActionTarget::SelfOwner);
    assert_eq!(a.count, 1);
    assert_eq!(a.target, CardActionTarget::SelfOwner);
}

#[test]
fn a_creature_can_attack_in_its_owners_attack_phase() {
    let bear = creature("Bear", 2, 2);
    let owner = Player::new("ann", 20, vec![]);
    let abilities = bear.abilities(TurnPhase::DeclareAttackers, true, Some(&owner), Some(true), None);
    assert_eq!(abilities.len(), 2);
    assert_eq!(abilities[0].description, "Attack");
    assert_eq!(abilities[0].action_type, ActionType::Tap);
    assert!(abilities[0].meets_requirements_except_mana);
    assert!(abilities[0].meets_mana_requirements);
    assert!(abilities[0].can_pay_mana);
    assert_eq!(abilities[0].owner_player_id, Some("ann".to_string()));
    assert_eq!(abilities[1].description, "Block");
    assert!(!abilities[1].meets_requirements_except_mana);
    let on_opponents_turn = bear.abilities(TurnPhase::DeclareAttackers, true, Some(&owner), Some(false), None);
    assert!(!on_opponents_turn[0].meets_requirements_except_mana);
}

#[test]
fn a_card_in_hand_offers_to_be_played() {
    let bear = CardBuilder::new().name("Bear").mana_cost(vec![ManaType::Green]).creature(2, 2).build();
    let mut owner = Player::new("ann", 20, vec![]);
    owner.mana_pool = pool(0, 0, 0, 0, 1, 0);
    let abilities = bear.abilities(TurnPhase::Main, false, Some(&owner), None, None);
    assert_eq!(abilities.len(), 3);
    let play = &abilities[2];
    assert_eq!(play.id, "play_card");
    assert_eq!(play.action_type, ActionType::PlayedCard);
    assert!(play.meets_requirements_except_mana);
    assert!(play.meets_mana_requirements);
    assert!(!play.can_pay_mana);
    assert!(!play.show);
    let later = bear.abilities(TurnPhase::End, false, None, None, None);
    assert!(!later[2].meets_requirements_except_mana);
    assert!(!later[2].meets_mana_requirements);
    assert_eq!(later[2].owner_player_id, None);
}

#[test]
fn an_attach_ability_shows_in_the_main_phase_only() {
    let aura = CardBuilder::new()
        .add_action(ActionBuilder::new(ActionTriggerType::Attached).action(CardAction::Blank(rusty::action::BlankAction {})).target(CardRequiredTarget::AnyCard))
        .build();
    assert_eq!(aura.abilities(TurnPhase::Main, true, None, None, None).len(), 1);
    assert_eq!(aura.abilities(TurnPhase::End, true, None, None, None).len(), 0);
}

#[test]
fn the_deck_hands_out_its_top_card_and_fresh_copies() {
    let cards = vec![creature("A", 1, 1), creature("B", 1, 1)];
    let id_a = cards[0].id.clone();
    let mut deck = Deck::new(cards);
    let top = deck.draw().unwrap();
    assert_eq!(top.name, "B");
    assert_eq!(deck.draw_pile.len(), 1);
    assert_eq!(deck.in_game.len(), 1);
    assert_eq!(deck.fresh(&id_a).unwrap().name, "A");
    assert!(deck.fresh(&"missing".to_string()).is_none());
    deck.destroy(id_a.clone());
    assert_eq!(deck.graveyard.len(), 1);
    deck.exile(id_a);
    assert_eq!(deck.exiled.len(), 1);
    deck.exile("missing".to_string());
    assert_eq!(deck.exiled.len(), 1);
}

#[test]
fn a_new_player_has_health_and_the_standard_triggers() {
    let player = Player::new("ann", 20, vec![]);
    assert_eq!(player.get_stat_value(StatType::Health), 20);
    assert_eq!(player.triggers.len(), 4);
    assert_eq!(player.triggers[0].action, PlayerAction::UntapAll(rusty::action::UntapAllAction {}));
    assert!(player.is_alive);
    assert_eq!(player.display_mana_pool(), "");
}

#[test]
fn cards_move_between_hand_battlefield_and_graveyard() {
    let cards = vec![creature("A", 1, 1), creature("B", 2, 2)];
    let id_b = cards[1].id.clone();
    let mut player = Player::new("ann", 20, cards);
    let drawn = player.draw_card().unwrap();
    assert_eq!(drawn.name, "B");
    assert_eq!(player.cards_in_hand.len(), 1);
    let b = player.cards_in_hand.remove(0);
    player.cards_in_play.push(b);
    player.return_card_to_hand(&id_b);
    assert!(player.cards_in_play.is_empty());
    assert_eq!(player.cards_in_hand.len(), 1);
    let b = player.cards_in_hand.remove(0);
    player.cards_in_play.push(b);
    player.destroy_card_in_play(0);
    assert!(player.cards_in_play.is_empty());
    assert_eq!(player.deck.graveyard[0].name, "B");
    assert!(player.draw_card().is_some());
    assert!(player.draw_card().is_none());
}

#[test]
fn charging_cards_count_down_to_ready() {
    let mut player = Player::new("ann", 20, vec![]);
    let mut card = creature("Slow", 1, 1);
    card.current_phase = CardPhase::Charging(2);
    player.cards_in_play.push(card);
    player.advance_card_phases();
    assert_eq!(player.cards_in_play[0].current_phase, CardPhase::Charging(1));
    player.advance_card_phases();
    assert_eq!(player.cards_in_play[0].current_phase, CardPhase::Ready);
    player.advance_card_phases();
    assert_eq!(player.cards_in_play[0].current_phase, CardPhase::Ready);
}

#[test]
fn lands_may_be_played_once_and_only_on_ones_turn() {
    let mut player = Player::new("ann", 20, vec![]);
    let land = rusty::decks::create_test_plains();
    let bear = creature("Bear", 2, 2);
    assert!(player.can_play(&land, true));
    assert!(!player.can_play(&land, false));
    assert!(player.can_play(&bear, false));
    player.mana_pool.played_card = true;
    assert!(!player.can_play(&land, true));
}

#[test]
fn creatures_of_a_tribe_are_found() {
    let mut player = Player::new("ann", 20, vec![]);
    let mut angel = creature("Angel", 1, 1);
    angel.creature_type = Some(CreatureType::Angel);
    player.cards_in_play.push(angel);
    player.cards_in_play.push(creature("Bear", 2, 2));
    let angels = player.creatures_of_type(CreatureType::Angel);
    assert_eq!(angels.len(), 1);
    assert_eq!(angels[0].name, "Angel");
    let big = player.filter_cards_in_play(|c: &Card| c.get_stat_value(StatType::Power) >= 2);
    assert_eq!(big.len(), 1);
    assert_eq!(big[0].name, "Bear");
}

#[test]
fn priority_passes_around_the_table() {
    let mut game = Game::new();
    for name in ["a", "b", "c"] {
        game.add_player(Player::new(name, 20, vec![]));
    }
    assert_eq!(game.get_players_in_priority_order(1), vec![2, 0]);
    assert_eq!(game.get_players_in_priority_order(0), vec![1, 2]);
    assert!(game.get_players_in_priority_order(5).is_empty());
    assert_eq!(game.performed_action(), ActionType::NoAction);
}

#[test]
fn starting_a_turn_resets_combat_damage_and_notes_health() {
    let mut game = Game::new();
    game.add_player(Player::new("a", 20, vec![]));
    game.add_player(Player::new("b", 15, vec![]));
    let mut bear = creature("Bear", 2, 2);
    bear.damage_taken = 1;
    game.players[1].cards_in_play.push(bear);
    game.add_turn_message("hello".to_string());
    game.start_turn(1);
    let turn = game.current_turn.unwrap();
    assert_eq!(turn.current_player_index, 1);
    assert_eq!(turn.phase, TurnPhase::Untap);
    assert_eq!(game.turn_number, 1);
    assert!(game.turn_messages.is_empty());
    assert_eq!(game.players[1].cards_in_play[0].damage_taken, 0);
    assert_eq!(game.players[1].health_at_start_of_round, 15);
    assert_eq!(game.current_phase(), TurnPhase::Untap);
}

#[test]
fn the_untap_phase_sets_off_the_current_players_triggers() {
    let mut game = Game::new();
    game.add_player(Player::new("a", 20, vec![]));
    game.add_player(Player::new("b", 20, vec![]));
    game.start_turn(0);
    let actions = game.collect_actions_for_phase();
    let mut fired = vec![];
    for a in &actions {
        if let GameAction::Player(p) = a {
            fired.push((p.player, p.action));
        }
    }
    assert_eq!(fired, vec![
        (0, PlayerAction::UntapAll(rusty::action::UntapAllAction {})),
        (0, PlayerAction::ResetManaPool(rusty::action::ResetManaPoolAction {})),
    ]);
}

#[test]
fn defeated_players_leave_the_table() {
    let mut game = Game::new();
    game.add_player(Player::new("a", 20, vec![]));
    game.add_player(Player::new("b", 0, vec![]));
    game.add_player(Player::new("c", 3, vec![]));
    game.players[2].add_stat("hit".to_string(), Stat::new(StatType::Health, -5));
    let defeated = game.handle_deaths();
    assert_eq!(game.players.len(), 1);
    assert_eq!(game.players[0].name, "a");
    assert_eq!(defeated.len(), 2);
    assert!(!defeated[0].is_alive);
    assert_eq!(defeated[1].name, "c");
}

#[test]
fn positions_are_found_and_cards_taken_out() {
    let mut game = Game::new();
    game.add_player(Player::new("a", 20, vec![]));
    game.add_player(Player::new("b", 20, vec![]));
    let bear = creature("Bear", 2, 2);
    let id = bear.id.clone();
    game.players[1].cards_in_play.push(creature("Other", 1, 1));
    game.players[1].cards_in_play.push(bear.copy());
    let target = game.frontend_target_from_card(&bear).unwrap();
    assert_eq!(target, FrontendCardTarget { player_id: "b".to_string(), pile: FrontendPileName::Play, card_index: 1 });
    assert_eq!(game.card_from_frontend_card_target(&target).id, id);
    assert_eq!(game.player_from_frontend_card_target(&target), Ok(1));
    let taken = game.remove_from_frontend_target(&target);
    assert_eq!(taken.id, id);
    assert_eq!(game.players[1].cards_in_play.len(), 1);
    assert_eq!(
        game.frontend_target_from_card(&bear),
        Err("Unable to find frontend target for card Bear".to_string())
    );
    let nobody = FrontendCardTarget { player_id: "z".to_string(), pile: FrontendPileName::Hand, card_index: 0 };
    assert_eq!(game.player_from_frontend_card_target(&nobody), Err("Unable to find target".to_string()));
}

#[test]
fn a_tapped_creature_other_than_the_listed_ones_is_noticed() {
    let mut game = Game::new();
    game.add_player(Player::new("a", 20, vec![]));
    let mut bear = creature("Bear", 2, 2);
    bear.tapped = true;
    let id = bear.id.clone();
    game.players[0].cards_in_play.push(bear);
    assert!(!game.has_tapped_creature_excluding(&vec![id.clone()]));
    assert!(game.has_tapped_creature_excluding(&vec![id, "x".to_string()]));
    assert!(!game.has_tapped_creature_excluding(&vec![]));
}

#[test]
fn a_card_without_triggers_or_effects_is_useless() {
    assert!(CardBuilder::new().build().is_useless(false));
    assert!(!CardBuilder::new().build().is_useless(true));
}

#[test]
fn a_player_stat_trigger_keeps_a_card_useful() {
    let watcher = CardBuilder::new()
        .name("Watcher")
        .add_action(ActionBuilder::new(ActionTriggerType::PlayerStatChanged(StatType::Health)).action(CardAction::Script("gain_two_life".to_string())))
        .build();
    assert!(!watcher.is_useless(false));
    let leaver = CardBuilder::new()
        .name("Leaver")
        .add_action(ActionBuilder::new(ActionTriggerType::CardDestroyed).action(CardAction::Script("gain_two_life".to_string())))
        .build();
    assert!(leaver.is_useless(false));
}

#[test]
fn an_empty_draw_pile_takes_the_discard_pile_back() {
    let mut deck = Deck::new(vec![]);
    deck.discard_pile.push(creature("A", 1, 1));
    deck.discard_pile.push(creature("B", 2, 2));
    deck.discard_pile.push(creature("C", 3, 3));
    let drawn = deck.draw().unwrap();
    assert!(deck.discard_pile.is_empty());
    assert_eq!(deck.draw_pile.len(), 2);
    assert_eq!(deck.in_game.len(), 1);
    assert_eq!(deck.in_game[0].id, drawn.id);
    let mut names: Vec<String> = deck.draw_pile.iter().map(|c| c.name.clone()).collect();
    names.push(drawn.name.clone());
    names.sort();
    assert_eq!(names, vec!["A".to_string(), "B".to_string(), "C".to_string()]);
}

#[test]
fn nothing_is_drawn_from_an_empty_deck() {
    let mut deck = Deck::new(vec![]);
    assert!(deck.draw().is_none());
    assert!(deck.in_game.is_empty());
}
