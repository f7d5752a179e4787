use rusty::action::{ActionBuilder, ActionTriggerType, BlankAction, CardAction, GameAction, TapCardAction};
use rusty::card::{Card, CardBuilder};
use rusty::effects::EffectTarget;
use rusty::game::{FrontendCardTarget, FrontendPileName, FrontendTarget, Game};
use rusty::player::Player;
use rusty::turn::{Turn, TurnPhase};

fn aura() -> Card {
    CardBuilder::new()
        .name("Aura")
        .add_action(ActionBuilder::new(ActionTriggerType::Attached).action(CardAction::TapCard(TapCardAction {})))
        .add_action(ActionBuilder::new(ActionTriggerType::CardDestroyed).action(CardAction::Blank(BlankAction {})))
        .add_action(ActionBuilder::new(ActionTriggerType::Attached).action(CardAction::Blank(BlankAction {})))
        .build()
}

fn table() -> Game {
    let mut game = Game::new();
    game.add_player(Player::new("ann", 20, vec![]));
    game.add_player(Player::new("bob", 20, vec![]));
    game
}

#[test]
fn attaching_wakes_every_attach_trigger_aimed_at_the_target() {
    let card = aura();
    let target = Some(FrontendTarget::Player("bob".to_string()));
    let actions = card.collect_attach_actions(target);
    assert_eq!(actions.len(), 2);
    match (&actions[0], &actions[1]) {
        (GameAction::Card(a), GameAction::Card(b)) => {
            assert_eq!(a.action, CardAction::TapCard(TapCardAction {}));
            assert_eq!(b.action, CardAction::Blank(BlankAction {}));
            assert_eq!(a.card, card.id);
            assert_eq!(a.ability_id.as_ref(), Some(&card.triggers[card.triggers.len() - 3].id));
            assert!(matches!(&a.target, Some(FrontendTarget::Player(p)) if p == "bob"));
        },
        _ => panic!("expected card actions"),
    }
}

#[test]
fn destruction_wakes_only_the_destroyed_triggers_aimed_at_nothing() {
    let card = aura();
    let turn = Turn { current_player_index: 0, phase: TurnPhase::Main, turn_number: 1 };
    let actions = card.collect_card_destroyed_actions(&turn);
    assert_eq!(actions.len(), 1);
    match &actions[0] {
        GameAction::Card(a) => {
            assert_eq!(a.action, CardAction::Blank(BlankAction {}));
            assert!(a.target.is_none());
        },
        _ => panic!("expected a card action"),
    }
}

#[test]
fn a_client_target_names_a_card_or_a_player_for_an_effect() {
    let mut game = table();
    let card = aura();
    game.players[1].cards_in_play.push(card.copy());
    let t = FrontendTarget::Card(FrontendCardTarget { player_id: "bob".to_string(), pile: FrontendPileName::Play, card_index: 0 });
    assert_eq!(game.card_from_frontend_target(&t).id, card.id);
    assert_eq!(game.frontend_card_to_effect_target(&t), EffectTarget::Card(card.id.clone()));
    assert_eq!(game.frontend_card_to_effect_target(&FrontendTarget::Player("ann".to_string())), EffectTarget::Player("ann".to_string()));
    assert_eq!(game.card_to_effect_target(&card), EffectTarget::Card(card.id.clone()));
}
