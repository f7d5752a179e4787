use rusty::action::{CardAction, CardActionWrapper, ResetCardAction};
use rusty::card::{Card, CardBuilder};
use rusty::effects::{EffectID, EffectTarget, ExpireContract, StatModifierEffect};
use rusty::game::Game;
use rusty::player::Player;
use rusty::stat::{StatType, Stats};
use rusty::turn::{Turn, TurnPhase};

fn owned(mut c: Card, owner: &str) -> Card {
    c.owner = Some(owner.to_string());
    c
}

#[test]
fn a_reset_card_drops_its_effects_and_is_pristine_again() {
    let bear = owned(CardBuilder::new().name("Bear").creature(2, 2).build(), "ann");
    let id = bear.id.clone();
    let mut game = Game::new();
    game.add_player(Player::new("ann", 20, vec![bear.copy()]));
    game.add_player(Player::new("bob", 20, vec![]));
    game.current_turn = Some(Turn { current_player_index: 0, phase: TurnPhase::Main, turn_number: 1 });
    let mut worn = bear.copy();
    worn.tapped = true;
    worn.damage_taken = 1;
    game.players[0].cards_in_play.push(worn);
    let drain = StatModifierEffect::new(EffectTarget::Player("bob".to_string()), StatType::Health, -3, ExpireContract::Never, Some(id.clone()));
    game.effect_manager.add_effect(EffectID("drain".to_string()), drain);
    let turn = game.current_turn.clone().unwrap();
    game.effect_manager.apply_effects(&turn, &mut game.players);
    assert_eq!(game.players[1].get_stat_value(StatType::Health), 17);

    let reset = CardActionWrapper { card: id.clone(), action: CardAction::ResetCard(ResetCardAction {}), target: None, ability_id: None };
    let back = game.execute_card_action(&reset).unwrap_or_else(|e| panic!("{}", e));
    assert!(back.is_empty());
    assert!(game.effect_manager.effects.is_empty());
    assert_eq!(game.players[1].get_stat_value(StatType::Health), 20);
    let card = &game.players[0].cards_in_play[0];
    assert_eq!(card.id, id);
    assert!(!card.tapped);
    assert_eq!(card.damage_taken, 0);
}

#[test]
fn a_card_its_owner_deck_does_not_keep_stays_as_it_is() {
    let bear = owned(CardBuilder::new().name("Bear").creature(2, 2).build(), "ann");
    let id = bear.id.clone();
    let mut game = Game::new();
    game.add_player(Player::new("ann", 20, vec![]));
    game.current_turn = Some(Turn { current_player_index: 0, phase: TurnPhase::Main, turn_number: 1 });
    let mut worn = bear.copy();
    worn.tapped = true;
    game.players[0].cards_in_play.push(worn);
    let reset = CardActionWrapper { card: id, action: CardAction::ResetCard(ResetCardAction {}), target: None, ability_id: None };
    assert!(game.execute_card_action(&reset).unwrap_or_else(|e| panic!("{}", e)).is_empty());
    assert!(game.players[0].cards_in_play[0].tapped);
}
