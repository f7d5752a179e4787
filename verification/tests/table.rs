use rusty::card::{Card, CardBuilder};
use rusty::combat::Combat;
use rusty::effects::{EffectID, EffectManager, EffectTarget, ExpireContract, StatModifierEffect};
use rusty::game::GameStatus;
use rusty::lobby::{personalize_lobby_data_for_player, CardWithDetails, DeckSelector, GameState, Lobby, LobbyChat, LobbyCommand, PlayerState};
use rusty::player::Player;
use rusty::slot_machine::SlotMachine;
use rusty::stat::{StatType, Stats};
use rusty::turn::Turn;

fn creature(name: &str, power: i16, toughness: i16) -> Card {
    CardBuilder::new().name(name).creature(power, toughness).build()
}

fn two_players() -> Vec<Player> {
    vec![Player::new("ann", 20, vec![]), Player::new("bob", 20, vec![])]
}

#[test]
fn a_blocked_attacker_and_its_blocker_trade_damage() {
    let mut players = two_players();
    let attacker = creature("Ogre", 3, 3);
    let blocker = creature("Bear", 2, 2);
    let (a, b) = (attacker.id.clone(), blocker.id.clone());
    players[0].cards_in_play.push(attacker);
    players[1].cards_in_play.push(blocker);
    let mut combat = Combat::new();
    combat.declare_attacker(a.clone(), EffectTarget::Player("bob".to_string()));
    combat.declare_blocker(b.clone(), a.clone());
    let destroyed = combat.resolve_combat(&mut players);
    assert_eq!(destroyed, vec![b]);
    assert_eq!(players[1].cards_in_play[0].damage_taken, 3);
    assert_eq!(players[0].cards_in_play[0].damage_taken, 2);
    assert_eq!(players[1].get_stat_value(StatType::Health), 20);
    assert!(combat.attackers.is_empty());
    assert!(combat.blockers.is_empty());
}

#[test]
fn an_unblocked_attacker_hits_the_player() {
    let mut players = two_players();
    let attacker = creature("Ogre", 3, 3);
    let a = attacker.id.clone();
    players[0].cards_in_play.push(attacker);
    let mut combat = Combat::new();
    combat.declare_attacker(a, EffectTarget::Player("bob".to_string()));
    let destroyed = combat.resolve_combat(&mut players);
    assert!(destroyed.is_empty());
    assert_eq!(players[1].get_stat_value(StatType::Health), 17);
    assert_eq!(players[0].cards_in_play[0].damage_dealt_to_players, 3);
    assert_eq!(players[0].get_stat_value(StatType::Health), 20);
}

#[test]
fn a_trampler_deals_its_excess_past_the_blocker() {
    let mut players = two_players();
    let mut attacker = creature("Rhino", 5, 4);
    attacker.add_stat("trample".to_string(), rusty::stat::Stat::new(StatType::Trample, 1));
    let blocker = creature("Bear", 2, 2);
    let (a, b) = (attacker.id.clone(), blocker.id.clone());
    players[0].cards_in_play.push(attacker);
    players[1].cards_in_play.push(blocker);
    let mut combat = Combat::new();
    combat.declare_attacker(a.clone(), EffectTarget::Player("bob".to_string()));
    combat.declare_blocker(b, a);
    combat.resolve_combat(&mut players);
    assert_eq!(players[1].get_stat_value(StatType::Health), 17);
}

#[test]
fn a_card_attacked_directly_takes_the_damage() {
    let mut players = two_players();
    let attacker = creature("Ogre", 3, 3);
    let target = creature("Wall", 0, 5);
    let (a, t) = (attacker.id.clone(), target.id.clone());
    players[0].cards_in_play.push(attacker);
    players[1].cards_in_play.push(target);
    let mut combat = Combat::new();
    combat.declare_attacker(a, EffectTarget::Card(t));
    let destroyed = combat.resolve_combat(&mut players);
    assert!(destroyed.is_empty());
    assert_eq!(players[1].cards_in_play[0].damage_taken, 3);
}

#[test]
fn an_effect_lasts_its_turns_and_is_then_undone() {
    let mut players = two_players();
    let bear = creature("Bear", 2, 2);
    let id = bear.id.clone();
    players[0].cards_in_play.push(bear);
    let effect = StatModifierEffect::new(EffectTarget::Card(id.clone()), StatType::Power, 3, ExpireContract::Turns(1), Some(id.clone()));
    let mut manager = EffectManager::new();
    manager.add_effect(EffectID("boost".to_string()), effect);
    assert!(manager.has_effects(&id));
    assert!(!manager.has_effects(&"other".to_string()));
    manager.apply_effects(&Turn::new(0, 1), &mut players);
    assert_eq!(players[0].cards_in_play[0].get_stat_value(StatType::Power), 5);
    assert_eq!(manager.effects.len(), 1);
    manager.apply_effects(&Turn::new(0, 1), &mut players);
    assert_eq!(players[0].cards_in_play[0].get_stat_value(StatType::Power), 5);
    manager.apply_effects(&Turn::new(1, 2), &mut players);
    assert_eq!(players[0].cards_in_play[0].get_stat_value(StatType::Power), 2);
    assert!(manager.effects.is_empty());
}

#[test]
fn effects_of_a_source_are_removed_with_it() {
    let mut players = two_players();
    let effect = StatModifierEffect::new(EffectTarget::Player("bob".to_string()), StatType::Health, -4, ExpireContract::Never, Some("src".to_string()));
    let mut manager = EffectManager::new();
    manager.add_effect(EffectID("drain".to_string()), effect);
    manager.apply_effects(&Turn::new(0, 0), &mut players);
    assert_eq!(players[1].get_stat_value(StatType::Health), 16);
    manager.remove_effects_by_source(&"src".to_string(), &mut players);
    assert_eq!(players[1].get_stat_value(StatType::Health), 20);
    assert!(manager.effects.is_empty());
}

#[test]
fn effect_ids_are_fresh_uuids() {
    let id = EffectID::new();
    assert_eq!(id.to_string().len(), 36);
    assert_ne!(EffectID::new().to_string(), id.to_string());
}

#[test]
fn chance_machines_have_fewer_symbols_for_better_odds() {
    assert_eq!(SlotMachine::with_50_percent_chance().spin("w", "l").symbols_used, vec!["✅", "❌"]);
    assert_eq!(SlotMachine::with_33_percent_chance().spin("w", "l").symbols_used.len(), 3);
    assert_eq!(SlotMachine::new(20).spin("w", "l").symbols_used.len(), 5);
    assert_eq!(SlotMachine::new(40).spin("w", "l").symbols_used.len(), 3);
    assert_eq!(SlotMachine::new(1).spin("w", "l").symbols_used.len(), 8);
    assert_eq!(SlotMachine::new(-7).spin("w", "l").symbols_used.len(), 8);
    assert_eq!(SlotMachine::new(100).spin("w", "l").symbols_used.len(), 2);
}

#[test]
fn a_sure_machine_always_wins_with_three_of_a_kind() {
    for _ in 0..20 {
        let r = SlotMachine::new(100).spin("win", "lose");
        assert!(r.won);
        assert_eq!(r.result, "win");
        assert_eq!(r.reels.len(), 3);
        assert_eq!(r.reels[0], r.reels[1]);
        assert_eq!(r.reels[1], r.reels[2]);
    }
}

#[test]
fn a_losing_spin_shows_no_winning_combination() {
    let machine = SlotMachine::new(1);
    for _ in 0..20 {
        let r = machine.spin("win", "lose");
        if !r.won {
            assert_eq!(r.result, "lose");
            assert!(!machine.is_winning(&r.reels));
        }
    }
}

#[test]
fn a_custom_machine_wins_on_its_combinations() {
    let machine = SlotMachine::with_custom_symbols_and_combinations(vec!["7"], vec![vec!["7", "7", "7"]]);
    let r = machine.spin("jackpot", "nothing");
    assert!(r.won);
    assert_eq!(r.reels, vec!["7", "7", "7"]);
    assert_eq!(r.winning_combinations, vec![vec!["7".to_string(), "7".to_string(), "7".to_string()]]);
    let never = SlotMachine::with_custom_symbols_and_combinations(vec!["a"], vec![]);
    assert!(!never.spin("w", "l").won);
}

#[test]
fn lobby_test() {
    let mut lobby = Lobby::new(&"boob".to_string());
    lobby.join(&"sakdfakjs".to_string());
    lobby.message(&"sakdfakjs".to_string(), "test".to_string());
    assert_eq!(lobby.data.game_state.players.len(), 2);
    assert!(lobby.data.game_state.players[0].1.is_leader);
    assert!(!lobby.data.game_state.players[1].1.is_leader);
    assert_eq!(lobby.data.game_state.players[1].1.player_index, 1);
    assert_eq!(lobby.data.chat.len(), 1);
    assert_eq!(lobby.data.chat[0].message, "test");
    assert_eq!(lobby.game.players.len(), 2);
}

#[test]
fn joining_twice_changes_nothing() {
    let mut lobby = Lobby::new(&"ann".to_string());
    lobby.join(&"ann".to_string());
    assert_eq!(lobby.data.game_state.players.len(), 1);
    assert_eq!(lobby.game.players.len(), 1);
    assert_eq!(lobby.data.join_code.len(), 26);
    assert_eq!(lobby.data.game_state.code, lobby.data.join_code);
}

#[test]
fn a_ready_player_gets_the_picked_deck() {
    let mut lobby = Lobby::new(&"ann".to_string());
    lobby.select_deck(&"ann".to_string(), DeckSelector::Angels);
    lobby.ready(&"ann".to_string());
    assert_eq!(lobby.game.players[0].deck.draw_pile.len(), 13);
    assert_eq!(lobby.game.players[0].deck.draw_pile[0].owner, Some("ann".to_string()));
    assert_eq!(lobby.list_desks(), vec![DeckSelector::Angels]);
}

#[test]
fn a_lobby_counts_down_once_everyone_is_ready() {
    let mut state = GameState {
        players: vec![("a".to_string(), PlayerState::from_player(0, "a".to_string())), ("b".to_string(), PlayerState::from_player(1, "b".to_string()))],
        public_info: rusty::lobby::PublicGameInfo { current_turn: None, priority_queue: None, attacks: vec![], blocks: vec![] },
        status: GameStatus::NeedsPlayers,
        code: "c".to_string(),
    };
    assert!(!state.advance_status());
    assert_eq!(state.status, GameStatus::NeedsPlayers);
    state.players[0].1.status = rusty::game::PlayerStatus::Ready;
    state.players[1].1.status = rusty::game::PlayerStatus::Ready;
    assert!(!state.advance_status());
    assert_eq!(state.status, GameStatus::WaitingForStart(5));
    for expected in [4, 3, 2] {
        assert!(!state.advance_status());
        assert_eq!(state.status, GameStatus::WaitingForStart(expected));
    }
    assert!(state.advance_status());
    assert_eq!(state.status, GameStatus::InGame);
}

#[test]
fn other_players_hands_are_hidden() {
    let mut lobby = Lobby::new(&"ann".to_string());
    lobby.join(&"bob".to_string());
    let card = CardWithDetails::from_card(creature("Bear", 2, 2));
    lobby.data.game_state.players[1].1.hand.push(card);
    let card = CardWithDetails::from_card(creature("Ogre", 3, 3));
    lobby.data.game_state.players[0].1.hand.push(card);
    let mut command = LobbyCommand::Updated(lobby.data);
    personalize_lobby_data_for_player(&mut command, "ann");
    match command {
        LobbyCommand::Updated(d) => {
            assert_eq!(d.game_state.players[0].1.hand.len(), 1);
            assert!(d.game_state.players[1].1.hand.is_empty());
        }
        _ => panic!("not an update"),
    }
}

#[test]
fn chat_lines_keep_their_author() {
    let line = LobbyChat::new("ann".to_string(), "hi".to_string());
    assert_eq!(line.user_id, "ann");
    assert_eq!(line.message, "hi");
}

#[test]
fn the_angels_deck_holds_thirteen_cards() {
    let deck = rusty::decks::create_angels_deck();
    let names: Vec<String> = deck.iter().map(|c| c.name.clone()).collect();
    assert_eq!(names[0], "Plains");
    assert_eq!(names.iter().filter(|n| *n == "Ossification").count(), 4);
    assert_eq!(deck.len(), 13);
}

#[test]
fn copies_carry_numbered_ids() {
    let base = creature("Bear", 2, 2);
    let copies = rusty::decks::duplicate_card(base.copy(), 2);
    assert_eq!(copies[1].id, format!("Bear-1-{}", base.id));
    assert!(copies[0].triggers[0].id.starts_with("Bear-0-"));
    assert_eq!(copies[0].triggers[0].id.len(), "Bear-0-".len() + 26);
    assert_eq!(copies[0].name, "Bear");
}
