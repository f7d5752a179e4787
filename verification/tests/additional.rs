use rusty::action::{CardAction, CardActionWrapper, CardRequiredTarget};
use rusty::card::{Card, CardBuilder};
use rusty::decks::create_test_plains;
use rusty::game::{ActionType, Game};
use rusty::mana::ManaType;
use rusty::player::Player;

fn owned(mut c: Card, owner: &str) -> Card {
    c.owner = Some(owner.to_string());
    c
}

fn ask(optional: bool, cost: Vec<ManaType>) -> CardAction {
    CardAction::CastAdditional(
        cost,
        CardRequiredTarget::AnyPlayer,
        "gain_two_life".to_string(),
        "Gain two life.".to_string(),
        ActionType::NoAction,
        optional,
    )
}

fn table_with_plains() -> (Game, Card) {
    let source = owned(CardBuilder::new().name("Source").creature(1, 1).build(), "ann");
    let mut game = Game::new();
    game.add_player(Player::new("ann", 20, vec![]));
    game.players[0].cards_in_play.push(owned(create_test_plains(), "ann"));
    game.players[0].cards_in_play.push(source.copy());
    (game, source)
}

#[test]
fn a_further_ability_the_owner_can_pay_for_waits_for_their_answer() {
    let (mut game, source) = table_with_plains();
    let w = CardActionWrapper { card: source.id.clone(), action: ask(false, vec![ManaType::White]), target: None, ability_id: None };
    assert!(game.execute_card_action(&w).unwrap_or_else(|e| panic!("{}", e)).is_empty());
    assert_eq!(game.async_abilities.len(), 1);
    let a = &game.async_abilities[0];
    assert_eq!(a.player, "ann");
    assert_eq!(a.card.id, source.id);
    assert_eq!(a.mana_cost, vec![ManaType::White]);
    assert_eq!(a.description, "Gain two life.");
    assert!(matches!(&a.ability, CardAction::Script(n) if n == "gain_two_life"));
    assert!(a.canceled.is_none());
    assert_eq!(a.id.len(), 26);
}

#[test]
fn an_optional_further_ability_plays_the_card_when_declined() {
    let (mut game, source) = table_with_plains();
    let w = CardActionWrapper { card: source.id.clone(), action: ask(true, vec![]), target: None, ability_id: None };
    game.execute_card_action(&w).unwrap_or_else(|e| panic!("{}", e));
    assert_eq!(game.async_abilities.len(), 1);
    assert!(matches!(game.async_abilities[0].canceled, Some(CardAction::PlayCard(_))));
}

#[test]
fn a_further_ability_the_lands_cannot_pay_for_is_not_asked() {
    let (mut game, source) = table_with_plains();
    let w = CardActionWrapper { card: source.id.clone(), action: ask(false, vec![ManaType::Blue]), target: None, ability_id: None };
    assert!(game.execute_card_action(&w).unwrap_or_else(|e| panic!("{}", e)).is_empty());
    assert!(game.async_abilities.is_empty());
}
