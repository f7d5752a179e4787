use rusty::abilities::AbilityAnswer;
use rusty::action::{CardAction, CardActionWrapper, GameAction};
use rusty::card::{Card, CardBuilder};
use rusty::decks::create_ossification;
use rusty::game::{FrontendCardTarget, FrontendPileName, FrontendTarget, Game};
use rusty::player::Player;
use rusty::turn::{Turn, TurnPhase};

fn owned(mut c: Card, owner: &str) -> Card {
    c.owner = Some(owner.to_string());
    c
}

#[test]
fn ossification_attaches_asks_for_an_exile_and_exiles_the_creature() {
    let oss = owned(create_ossification(), "ann");
    let bear = owned(CardBuilder::new().name("Bear").creature(2, 2).build(), "bob");
    let mut game = Game::new();
    game.add_player(Player::new("ann", 20, vec![oss.copy()]));
    game.add_player(Player::new("bob", 20, vec![bear.copy()]));
    game.current_turn = Some(Turn { current_player_index: 0, phase: TurnPhase::Main, turn_number: 1 });
    game.players[0].cards_in_play.push(oss.copy());
    game.players[1].cards_in_play.push(bear.copy());
    let bear_at = FrontendTarget::Card(FrontendCardTarget { player_id: "bob".to_string(), pile: FrontendPileName::Play, card_index: 0 });

    let enters = CardActionWrapper {
        card: oss.id.clone(),
        action: CardAction::Script("ossification_enters".to_string()),
        target: Some(bear_at.clone()),
        ability_id: None,
    };
    let back = game.execute_card_action(&enters).unwrap_or_else(|e| panic!("{}", e));
    assert!(back.is_empty());
    assert_eq!(game.players[0].cards_in_play[0].attached, Some(bear.id.clone()));
    assert_eq!(game.async_abilities.len(), 1);
    let ability = &game.async_abilities[0];
    assert_eq!(ability.player, "ann");
    assert_eq!(ability.description, "Exile target creature or planeswalker an opponent controls.");
    assert!(ability.mana_cost.is_empty());
    let id = ability.id.clone();

    let exile = match game.respond_player_ability(id, true, Some(bear_at)) {
        Ok(AbilityAnswer::Run(GameAction::Card(w))) => w,
        _ => panic!("expected the exile to run"),
    };
    assert!(game.async_abilities.is_empty());
    game.execute_card_action(&exile).unwrap_or_else(|e| panic!("{}", e));
    assert!(game.players[1].cards_in_play.is_empty());
    assert_eq!(game.players[1].deck.exiled.len(), 1);
    assert_eq!(game.turn_messages.last().unwrap(), "Bear was exiled.");
    assert!(matches!(&game.players[0].cards_in_play[0].target, Some(FrontendTarget::Card(_))));
}

#[test]
fn the_exile_without_a_target_only_notes_it() {
    let oss = owned(create_ossification(), "ann");
    let mut game = Game::new();
    game.add_player(Player::new("ann", 20, vec![]));
    game.players[0].cards_in_play.push(oss.copy());
    let exile = CardActionWrapper { card: oss.id.clone(), action: CardAction::Script("ossification_exile".to_string()), target: None, ability_id: None };
    assert!(game.execute_card_action(&exile).unwrap_or_else(|e| panic!("{}", e)).is_empty());
    assert_eq!(game.players[0].cards_in_play.len(), 1);
}
