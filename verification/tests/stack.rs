use rusty::action::{CardAction, CardActionWrapper, CombatAction, DrawCardAction, GameAction, PlayerAction, PlayerActionWrapper, TapCardAction};
use rusty::card::{Card, CardBuilder};
use rusty::effects::EffectTarget;
use rusty::game::Game;
use rusty::player::Player;
use rusty::stat::{Stat, StatType, Stats};
use rusty::turn::{Turn, TurnPhase};

fn creature(name: &str, power: i16, toughness: i16, owner: &str) -> Card {
    let mut c = CardBuilder::new().name(name).creature(power, toughness).build();
    c.owner = Some(owner.to_string());
    c
}

fn table() -> (Game, Card) {
    let bear = creature("Bear", 2, 2, "ann");
    let mut game = Game::new();
    game.add_player(Player::new("ann", 20, vec![creature("Elk", 3, 3, "ann")]));
    game.add_player(Player::new("bob", 20, vec![]));
    game.players[0].cards_in_play.push(bear.copy());
    game.players[0].spells.push(creature("Bolt", 0, 0, "ann"));
    (game, bear)
}

fn tap(card: &Card) -> GameAction {
    GameAction::Card(CardActionWrapper { card: card.id.clone(), action: CardAction::TapCard(TapCardAction {}), target: None, ability_id: None })
}

fn draw(player: usize) -> GameAction {
    GameAction::Player(PlayerActionWrapper { action: PlayerAction::DrawCard(DrawCardAction {}), player })
}

#[test]
fn the_stack_is_resolved_top_first_and_the_spells_cleared() {
    let (mut game, bear) = table();
    game.event_stack.push(tap(&bear));
    game.event_stack.push(draw(0));
    assert!(game.resolve_stack(10).is_ok());
    assert!(game.event_stack.is_empty());
    assert!(game.players[0].cards_in_play[0].tapped);
    assert_eq!(game.players[0].cards_in_hand.len(), 1);
    assert_eq!(game.players[0].cards_in_hand[0].name, "Elk");
    assert!(game.players[0].spells.is_empty());
}

#[test]
fn resolving_stops_when_the_fuel_runs_out() {
    let (mut game, bear) = table();
    game.event_stack.push(tap(&bear));
    game.event_stack.push(draw(0));
    assert_eq!(game.resolve_stack(1), Err("Too many actions to resolve".to_string()));
    assert_eq!(game.event_stack.len(), 1);
    assert_eq!(game.players[0].cards_in_hand.len(), 1);
    assert!(!game.players[0].cards_in_play[0].tapped);
}

#[test]
fn an_action_on_a_card_not_at_the_table_ends_the_resolution() {
    let (mut game, _) = table();
    let stray = creature("Stray", 1, 1, "ann");
    game.event_stack.push(tap(&stray));
    assert_eq!(game.resolve_stack(10), Err("The action cannot be carried out".to_string()));
    assert!(game.event_stack.is_empty());
}

#[test]
fn combat_on_the_stack_is_fought() {
    let (mut game, bear) = table();
    game.combat.declare_attacker(bear.id.clone(), EffectTarget::Player("bob".to_string()));
    game.event_stack.push(GameAction::Player(PlayerActionWrapper { action: PlayerAction::Combat(CombatAction {}), player: 0 }));
    assert!(game.resolve_stack(10).is_ok());
    assert!(game.combat.attackers.is_empty());
    assert_eq!(game.players[1].get_stat_value(StatType::Health), 18);
}

#[test]
fn executed_actions_run_and_the_fallen_leave() {
    let (mut game, bear) = table();
    game.current_turn = Some(Turn { current_player_index: 0, phase: TurnPhase::Main, turn_number: 1 });
    game.players[1].stat_manager.add_stat("wound".to_string(), Stat { stat_type: StatType::Health, intensity: -20 });
    assert!(game.execute_actions(vec![tap(&bear)], 10).is_ok());
    assert!(game.players[0].cards_in_play[0].tapped);
    assert_eq!(game.players.len(), 1);
    assert_eq!(game.players[0].name, "ann");
}
