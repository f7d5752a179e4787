use rusty::action::{ActionBuilder, ActionTriggerType, BlankAction, CardAction, GameAction};
use rusty::card::{Card, CardBuilder};
use rusty::game::Game;
use rusty::player::Player;

fn owned(mut c: Card, owner: &str) -> Card {
    c.owner = Some(owner.to_string());
    c
}

#[test]
fn creatures_without_toughness_are_destroyed_and_answered() {
    let ghost = owned(
        CardBuilder::new()
            .name("Ghost")
            .creature(1, 0)
            .add_action(ActionBuilder::new(ActionTriggerType::CardDestroyed).action(CardAction::Blank(BlankAction {})))
            .build(),
        "ann",
    );
    let bear = owned(CardBuilder::new().name("Bear").creature(2, 2).build(), "bob");
    let wisp = owned(CardBuilder::new().name("Wisp").creature(1, 0).build(), "bob");
    let mut game = Game::new();
    game.add_player(Player::new("ann", 20, vec![ghost.copy()]));
    game.add_player(Player::new("bob", 20, vec![bear.copy(), wisp.copy()]));
    game.players[0].cards_in_play.push(ghost.copy());
    game.players[1].cards_in_play.push(bear.copy());
    game.players[1].cards_in_play.push(wisp.copy());
    let answers = game.destroy_dead_creatures();
    assert_eq!(answers.len(), 1);
    match &answers[0] {
        GameAction::Card(w) => {
            assert_eq!(w.card, ghost.id);
            assert_eq!(w.action, CardAction::Blank(BlankAction {}));
        },
        _ => panic!("expected a card action"),
    }
    assert!(game.players[0].cards_in_play.is_empty());
    assert_eq!(game.players[1].cards_in_play.len(), 1);
    assert_eq!(game.players[1].cards_in_play[0].id, bear.id);
    assert_eq!(game.players[0].deck.graveyard.len(), 1);
    assert_eq!(game.players[1].deck.graveyard.len(), 1);
}

#[test]
fn a_dead_creature_without_an_owner_stays() {
    let mut game = Game::new();
    game.add_player(Player::new("ann", 20, vec![]));
    let stray = CardBuilder::new().name("Stray").creature(1, 0).build();
    game.players[0].cards_in_play.push(stray);
    assert!(game.destroy_dead_creatures().is_empty());
    assert_eq!(game.players[0].cards_in_play.len(), 1);
}
