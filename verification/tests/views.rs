use rusty::action::{ActionBuilder, ActionTriggerType, BlankAction, CardAction, CardRequiredTarget};
use rusty::card::{Card, CardBuilder, CardPhase};
use rusty::game::{FrontendCardTarget, FrontendPileName, GameStatus};
use rusty::lobby::{CardWithDetails, Lobby};
use rusty::mana::ManaType;
use rusty::stat::{Stat, StatType, Stats};

fn elf(owner: &str) -> Card {
    let mut c = CardBuilder::new()
        .name("Elf")
        .creature(1, 1)
        .phase(CardPhase::Ready)
        .add_action(
            ActionBuilder::new(ActionTriggerType::AbilityWithinPhases("Tap".to_string(), vec![ManaType::Green], None, true, CardRequiredTarget::NoTarget))
                .action(CardAction::Blank(BlankAction {})),
        )
        .build();
    c.owner = Some(owner.to_string());
    c
}

fn lobby_in_game() -> Lobby {
    let mut lobby = Lobby::new(&"ann".to_string());
    lobby.join(&"bob".to_string());
    lobby.game.start_turn(0);
    lobby.data.game_state.status = GameStatus::InGame;
    lobby
}

#[test]
fn a_card_in_play_is_shown_where_it_lies_with_its_ability() {
    let mut lobby = lobby_in_game();
    let card = elf("ann");
    lobby.game.players[0].cards_in_play.push(card.copy());
    let shown = CardWithDetails::from_card_arc(&lobby.game, &card);
    assert_eq!(shown.frontend_target, FrontendCardTarget { player_id: "ann".to_string(), pile: FrontendPileName::Play, card_index: 0 });
    assert_eq!(shown.card.id, card.id);
    assert!(shown.attached_to.is_none());
    let bare = CardBuilder::new().name("Bare").creature(1, 1).build();
    let base = bare.abilities(rusty::turn::TurnPhase::Untap, true, None, None, None).len();
    assert_eq!(shown.abilities.len(), base + 1);
    let tap = shown.abilities.iter().find(|a| a.description == "Tap").unwrap();
    assert!(tap.tap_required);
}

#[test]
fn a_card_in_hand_also_offers_to_be_played_and_shows_what_it_is_attached_to() {
    let mut lobby = lobby_in_game();
    let target = elf("bob");
    lobby.game.players[1].cards_in_play.push(target.copy());
    let mut card = elf("ann");
    card.attached = Some(target.id.clone());
    lobby.game.players[0].cards_in_hand.push(card.copy());
    let shown = CardWithDetails::from_card_arc(&lobby.game, &card);
    assert_eq!(shown.frontend_target.pile, FrontendPileName::Hand);
    let in_play = CardWithDetails::from_card_arc(&lobby.game, &target);
    assert_eq!(shown.abilities.len(), in_play.abilities.len() + 1);
    assert_eq!(shown.attached_to, Some(FrontendCardTarget { player_id: "bob".to_string(), pile: FrontendPileName::Play, card_index: 0 }));
}

#[test]
fn refreshing_a_lobby_in_game_updates_every_seat() {
    let mut lobby = lobby_in_game();
    lobby.game.players[0].cards_in_play.push(elf("ann"));
    lobby.game.players[1].cards_in_hand.push(elf("bob"));
    lobby.game.players[1].cards_in_hand.push(elf("bob"));
    lobby.game.players[1].stat_manager.add_stat("hit".to_string(), Stat::new(StatType::Health, -3));
    lobby.game.players[1].mana_pool.add_mana(ManaType::Green);
    assert!(!lobby.update_game_state());
    assert_eq!(lobby.data.game_state.status, GameStatus::InGame);
    assert_eq!(lobby.data.game_state.public_info.current_turn, lobby.game.current_turn);
    let ann = &lobby.data.game_state.players[0].1;
    assert_eq!(ann.public_info.cards_in_play.len(), 1);
    assert_eq!(ann.public_info.hand_size, 0);
    assert_eq!(ann.public_info.health, 20);
    let bob = &lobby.data.game_state.players[1].1;
    assert_eq!(bob.hand.len(), 2);
    assert_eq!(bob.public_info.hand_size, 2);
    assert_eq!(bob.public_info.health, 17);
    assert_eq!(bob.public_info.mana_pool.green, 1);
    assert_eq!(bob.hand[1].frontend_target.card_index, 1);
}

#[test]
fn before_the_game_a_lobby_tick_only_advances_its_status() {
    let mut lobby = Lobby::new(&"ann".to_string());
    lobby.join(&"bob".to_string());
    lobby.data.game_state.players[0].1.status = rusty::game::PlayerStatus::Ready;
    lobby.data.game_state.players[1].1.status = rusty::game::PlayerStatus::Ready;
    assert!(!lobby.update_game_state());
    assert_eq!(lobby.data.game_state.status, GameStatus::WaitingForStart(5));
    for _ in 0..3 {
        assert!(!lobby.update_game_state());
    }
    assert!(lobby.update_game_state());
    assert_eq!(lobby.data.game_state.status, GameStatus::InGame);
}
