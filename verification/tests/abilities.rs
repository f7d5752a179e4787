use rusty::abilities::{AbilityAnswer, PaymentStep};
use rusty::action::{BlankAction, CardAction, CardRequiredTarget, GameAction, PlayCardAction, TapCardAction};
use rusty::card::{Card, CardBuilder};
use rusty::game::{Ability, ActionType, FrontendTarget, Game};
use rusty::lobby::LobbyCommand;
use rusty::mana::ManaType;
use rusty::player::Player;
use rusty::turn::{Turn, TurnPhase};

fn source() -> Card {
    let mut c = CardBuilder::new().name("Source").creature(1, 1).build();
    c.owner = Some("ann".to_string());
    c
}

fn table() -> Game {
    let mut game = Game::new();
    game.add_player(Player::new("ann", 20, vec![]));
    game.current_turn = Some(Turn { current_player_index: 0, phase: TurnPhase::Main, turn_number: 1 });
    game
}

fn ability(cost: Vec<ManaType>, canceled: Option<CardAction>) -> Ability {
    Ability::new(
        source(),
        "ann".to_string(),
        cost,
        CardRequiredTarget::NoTarget,
        CardAction::TapCard(TapCardAction {}),
        canceled,
        "Tap it".to_string(),
        ActionType::NoAction,
    )
}

fn is_card_action(g: &GameAction, card: &str, action: &CardAction, id: &str) -> bool {
    match g {
        GameAction::Card(w) => w.card == card && w.action == *action && w.ability_id.as_deref() == Some(id),
        _ => false,
    }
}

#[test]
fn a_mandatory_ability_is_asked_of_its_owner_and_used_once() {
    let mut game = table();
    let a = ability(vec![], None);
    let id = a.id.clone();
    let card_id = a.card.id.clone();
    let cmd = game.ask_mandatory_player_ability(a);
    match cmd {
        LobbyCommand::MandatoryExecuteAbility(e) => {
            assert_eq!(e.player_id, "ann");
            assert_eq!(e.details.id, id);
            assert_eq!(e.details.description, "Tap it");
            assert!(e.details.show && e.details.can_pay_mana && !e.details.tap_required);
            assert_eq!(e.card.card.name, "Source");
        },
        _ => panic!("expected a mandatory request"),
    }
    assert_eq!(game.async_abilities.len(), 1);
    let used = match game.execute_ability(id.clone(), Some(FrontendTarget::Player("bob".to_string()))) {
        Ok(g) => g,
        Err(e) => panic!("{}", e),
    };
    assert!(is_card_action(&used, &card_id, &CardAction::TapCard(TapCardAction {}), &id));
    match &used {
        GameAction::Card(w) => assert!(matches!(&w.target, Some(FrontendTarget::Player(p)) if p == "bob")),
        _ => panic!("expected a card action"),
    }
    assert!(game.async_abilities.is_empty());
    assert!(matches!(game.execute_ability(id, None), Err(e) if e == "No ability with that id"));
}

#[test]
fn an_optional_ability_is_asked_and_declining_gives_the_follow_up() {
    let mut game = table();
    let a = ability(vec![], Some(CardAction::PlayCard(PlayCardAction {})));
    let id = a.id.clone();
    let card_id = a.card.id.clone();
    assert!(matches!(game.request_player_ability(a), LobbyCommand::AskExecuteAbility(_)));
    match game.respond_player_ability(id.clone(), false, None).unwrap() {
        AbilityAnswer::Declined(Some(g)) => assert!(is_card_action(&g, &card_id, &CardAction::PlayCard(PlayCardAction {}), &id)),
        _ => panic!("expected the follow-up of a refusal"),
    }
    assert!(game.async_abilities.is_empty());
}

#[test]
fn declining_an_ability_without_a_follow_up_gives_nothing() {
    let mut game = table();
    let a = ability(vec![], None);
    let id = a.id.clone();
    game.request_player_ability(a);
    assert!(matches!(game.cancel_ability(id.clone()), Ok(None)));
    assert!(matches!(game.cancel_ability(id), Err(e) if e == "No ability with that id"));
}

#[test]
fn answering_yes_to_a_free_ability_runs_it() {
    let mut game = table();
    let a = ability(vec![], None);
    let id = a.id.clone();
    let card_id = a.card.id.clone();
    game.request_player_ability(a);
    match game.respond_player_ability(id.clone(), true, None).unwrap() {
        AbilityAnswer::Run(g) => assert!(is_card_action(&g, &card_id, &CardAction::TapCard(TapCardAction {}), &id)),
        _ => panic!("expected the ability to run"),
    }
    assert!(matches!(game.respond_player_ability(id, true, None), Err(e) if e == "No ability with that id"));
}

#[test]
fn an_ability_with_a_cost_waits_for_the_mana_within_the_phase() {
    let mut game = table();
    let a = ability(vec![ManaType::Green], None);
    let id = a.id.clone();
    let card_id = a.card.id.clone();
    game.request_player_ability(a);
    let (phase, cost) = match game.respond_player_ability(id.clone(), true, None).unwrap() {
        AbilityAnswer::AwaitMana(p, c) => (p, c),
        _ => panic!("expected to wait for mana"),
    };
    assert_eq!(phase, TurnPhase::Main);
    assert_eq!(cost, vec![ManaType::Green]);
    assert_eq!(game.async_abilities.len(), 1);
    assert!(matches!(game.pay_for_ability(0, id.clone(), phase, &cost, None), PaymentStep::Waiting));
    game.players[0].mana_pool.add_mana(ManaType::Green);
    game.players[0].mana_pool.add_mana(ManaType::Green);
    match game.pay_for_ability(0, id.clone(), phase, &cost, None) {
        PaymentStep::Paid(Ok(g)) => assert!(is_card_action(&g, &card_id, &CardAction::TapCard(TapCardAction {}), &id)),
        _ => panic!("expected the ability to be paid for"),
    }
    assert_eq!(game.players[0].mana_pool.green, 1);
    assert!(game.async_abilities.is_empty());
}

#[test]
fn an_ability_waiting_for_mana_is_given_up_when_the_phase_ends() {
    let mut game = table();
    let a = ability(vec![ManaType::Green], None);
    let id = a.id.clone();
    game.request_player_ability(a);
    game.players[0].mana_pool.add_mana(ManaType::Green);
    game.current_turn = Some(Turn { current_player_index: 0, phase: TurnPhase::End, turn_number: 1 });
    assert!(matches!(game.pay_for_ability(0, id, TurnPhase::Main, &vec![ManaType::Green], None), PaymentStep::PhaseOver));
    assert_eq!(game.players[0].mana_pool.green, 1);
}

#[test]
fn holding_an_ability_under_a_taken_id_replaces_it() {
    let mut game = table();
    let a = ability(vec![], None);
    let mut b = ability(vec![], None);
    b.id = a.id.clone();
    b.ability = CardAction::Blank(BlankAction {});
    let id = a.id.clone();
    game.request_player_ability(a);
    game.request_player_ability(b);
    assert_eq!(game.async_abilities.len(), 1);
    match game.execute_ability(id.clone(), None) {
        Ok(GameAction::Card(w)) => assert_eq!(w.action, CardAction::Blank(BlankAction {})),
        _ => panic!("expected a card action"),
    }
}
