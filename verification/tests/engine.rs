use rusty::action::{
    ActionBuilder, ActionTriggerType, BlankAction, CardAction, CardActionWrapper, CounterSpellAction, DestroySelf,
    DestroyTargetCAction, DrawCardCardAction, CardActionTarget, GameAction, GenerateManaAction, LifeLinkAction, PhaseTarget,
    PlayCardAction, PlayerAction, PlayerActionTarget, PlayerActionWrapper, ResetManaPoolAction, TapCardAction, UntapAllAction,
    DrawCardAction, CardDamageAction, DeclareAttackerAction, DeclareBlockerAction,
};
use rusty::activation::Activation;
use rusty::card::{Card, CardBuilder, CardPhase, CardType};
use rusty::effects::EffectTarget;
use rusty::flow::{AdvanceDecision, PriorityPoll};
use rusty::game::{ActionType, FrontendCardTarget, FrontendPileName, FrontendTarget, Game, PriorityActionResult};
use rusty::lobby::Lobby;
use rusty::mana::{ManaPool, ManaType};
use rusty::player::Player;
use rusty::stat::{Stat, StatType, Stats};
use rusty::turn::{Turn, TurnPhase};

fn creature(name: &str, power: i16, toughness: i16) -> Card {
    CardBuilder::new().name(name).creature(power, toughness).build()
}

fn owned(mut c: Card, owner: &str) -> Card {
    c.owner = Some(owner.to_string());
    c
}

fn trigger_id(card: &Card, wanted: &ActionTriggerType) -> String {
    card.triggers.iter().rev().find(|t| std::mem::discriminant(&t.trigger_type) == std::mem::discriminant(wanted)).unwrap().id.clone()
}

fn table() -> Game {
    let mut game = Game::new();
    game.add_player(Player::new("ann", 20, vec![]));
    game.add_player(Player::new("bob", 20, vec![]));
    game
}

fn card_action(card: &Card, action: CardAction, target: Option<FrontendTarget>, ability: Option<&str>) -> CardActionWrapper {
    CardActionWrapper { card: card.id.clone(), action, target, ability_id: ability.map(|a| a.to_string()) }
}

#[test]
fn destroying_a_card_moves_it_off_the_battlefield_and_wakes_its_triggers() {
    let mut game = table();
    let doomed = owned(
        CardBuilder::new()
            .name("Doomed")
            .creature(1, 1)
            .add_action(ActionBuilder::new(ActionTriggerType::CardDestroyed).action(CardAction::Blank(BlankAction {})))
            .build(),
        "ann",
    );
    let mourner = owned(
        CardBuilder::new()
            .name("Mourner")
            .creature(1, 1)
            .add_action(ActionBuilder::new(ActionTriggerType::OtherCardDestroyed(PhaseTarget::Owner)).action(CardAction::Blank(BlankAction {})))
            .build(),
        "bob",
    );
    let (doomed_id, own_trigger) = (doomed.id.clone(), trigger_id(&doomed, &ActionTriggerType::CardDestroyed));
    let other_trigger = trigger_id(&mourner, &ActionTriggerType::OtherCardDestroyed(PhaseTarget::Owner));
    game.players[0].cards_in_play.push(doomed.copy());
    game.players[1].cards_in_play.push(mourner);
    let actions = game.destroy_card(&doomed).unwrap();
    assert!(game.players[0].cards_in_play.is_empty());
    assert_eq!(actions.len(), 2);
    match &actions[0] {
        GameAction::Card(w) => {
            assert_eq!(w.card, doomed_id);
            assert_eq!(w.ability_id, Some(own_trigger));
            assert!(w.target.is_none());
        },
        _ => panic!("expected a card action"),
    }
    match &actions[1] {
        GameAction::Card(w) => {
            assert_eq!(w.card, doomed_id);
            assert_eq!(w.ability_id, Some(other_trigger));
            assert_eq!(w.target, Some(FrontendTarget::Card(FrontendCardTarget {
                player_id: "bob".to_string(),
                pile: FrontendPileName::Play,
                card_index: 0,
            })));
        },
        _ => panic!("expected a card action"),
    }
}

#[test]
fn a_card_without_owner_is_not_destroyed() {
    let mut game = table();
    let stray = creature("Stray", 1, 1);
    game.players[0].cards_in_play.push(stray.copy());
    let actions = game.destroy_card(&stray).unwrap();
    assert!(actions.is_empty());
    assert_eq!(game.players[0].cards_in_play.len(), 1);
}

#[test]
fn exiling_a_card_notes_it_in_the_turn_messages() {
    let mut game = table();
    let exiled = owned(creature("Ghost", 1, 1), "ann");
    game.players[0].cards_in_play.push(exiled.copy());
    let actions = game.exile_card(&exiled).unwrap();
    assert!(actions.is_empty());
    assert!(game.players[0].cards_in_play.is_empty());
    assert_eq!(game.turn_messages, vec!["Ghost was exiled.".to_string()]);
}

#[test]
fn exile_fails_when_a_later_answer_cannot_find_the_exiled_card() {
    let mut game = table();
    let exiled = owned(creature("Ghost", 1, 1), "ann");
    let watcher = owned(
        CardBuilder::new()
            .name("Watcher")
            .creature(1, 1)
            .add_action(ActionBuilder::new(ActionTriggerType::OtherCardExiled(PhaseTarget::Owner)).action(CardAction::Blank(BlankAction {})))
            .build(),
        "bob",
    );
    game.players[0].cards_in_play.push(exiled.copy());
    game.players[1].cards_in_play.push(watcher);
    let r = game.exile_card(&exiled);
    assert_eq!(r.err(), Some("Unable to find frontend target for card Ghost".to_string()));
    assert!(game.players[0].cards_in_play.is_empty());
    assert!(game.turn_messages.is_empty());
}

#[test]
fn the_game_resolves_combat_and_gives_back_lifelink_and_destruction() {
    let mut game = table();
    let attacker = owned(creature("Ogre", 3, 3), "ann");
    let blocker = owned(creature("Bear", 2, 2), "bob");
    let (a, b) = (attacker.id.clone(), blocker.id.clone());
    game.players[0].cards_in_play.push(attacker);
    game.players[1].cards_in_play.push(blocker);
    game.combat.declare_attacker(a.clone(), EffectTarget::Player("bob".to_string()));
    game.combat.declare_blocker(b.clone(), a.clone());
    let (actions, destroyed) = game.resolve_combat();
    assert_eq!(destroyed, vec![b.clone()]);
    assert_eq!(actions.len(), 2);
    for (action, id) in actions.iter().zip([a, b]) {
        match action {
            GameAction::Card(w) => {
                assert_eq!(w.card, id);
                assert_eq!(w.action, CardAction::LifeLink(LifeLinkAction {}));
            },
            _ => panic!("expected a card action"),
        }
    }
    assert!(game.combat.attackers.is_empty());
}

#[test]
fn player_actions_empty_the_pool_untap_and_draw() {
    let mut game = table();
    game.players[0].mana_pool.add_mana(ManaType::Green);
    game.players[0].mana_pool.played_card = true;
    let mut tapped = creature("Bear", 2, 2);
    tapped.tapped = true;
    game.players[0].cards_in_play.push(tapped);
    game.players[0].deck.draw_pile.push(creature("Top", 1, 1));
    let reset = PlayerActionWrapper { action: PlayerAction::ResetManaPool(ResetManaPoolAction {}), player: 0 };
    assert!(game.execute_player_action(&reset).unwrap().is_empty());
    assert_eq!(game.players[0].mana_pool.green, 0);
    assert!(game.players[0].mana_pool.played_card);
    let untap = PlayerActionWrapper { action: PlayerAction::UntapAll(UntapAllAction {}), player: 0 };
    game.execute_player_action(&untap).unwrap();
    assert!(!game.players[0].cards_in_play[0].tapped);
    assert!(!game.players[0].mana_pool.played_card);
    let draw = PlayerActionWrapper { action: PlayerAction::DrawCard(DrawCardAction {}), player: 0 };
    game.execute_player_action(&draw).unwrap();
    assert_eq!(game.players[0].cards_in_hand.len(), 1);
    assert_eq!(game.players[0].cards_in_hand[0].name, "Top");
}

#[test]
fn card_actions_tap_draw_and_count_abilities() {
    let mut game = table();
    let card = owned(creature("Scholar", 1, 1), "ann");
    game.players[0].cards_in_play.push(card.copy());
    game.players[0].deck.draw_pile.push(creature("One", 1, 1));
    game.players[0].deck.draw_pile.push(creature("Two", 1, 1));
    let tap = card_action(&card, CardAction::TapCard(TapCardAction {}), None, Some("ability"));
    assert!(game.execute_card_action(&tap).unwrap().is_empty());
    assert!(game.players[0].cards_in_play[0].tapped);
    assert_eq!(game.triggers_played_this_turn, vec![("ability".to_string(), 1)]);
    let draw = card_action(&card, CardAction::DrawCards(DrawCardCardAction { target: CardActionTarget::SelfOwner, count: 2 }), None, Some("ability"));
    game.execute_card_action(&draw).unwrap();
    assert_eq!(game.players[0].cards_in_hand.len(), 2);
    assert_eq!(game.triggers_played_this_turn, vec![("ability".to_string(), 2)]);
}

#[test]
fn a_counterspell_needs_a_target_and_marks_it() {
    let mut game = table();
    let counter = owned(creature("Counter", 0, 1), "ann");
    let spell = owned(creature("Spell", 2, 2), "bob");
    game.players[0].spells.push(counter.copy());
    game.players[1].spells.push(spell);
    let none = card_action(&counter, CardAction::CounterSpell(CounterSpellAction {}), None, None);
    assert_eq!(game.execute_card_action(&none).err(), Some("No target?".to_string()));
    let at = FrontendCardTarget { player_id: "bob".to_string(), pile: FrontendPileName::Spell, card_index: 0 };
    let aimed = card_action(&counter, CardAction::CounterSpell(CounterSpellAction {}), Some(FrontendTarget::Card(at)), None);
    game.execute_card_action(&aimed).unwrap();
    assert!(game.players[1].spells[0].is_countered);
}

#[test]
fn destroying_a_target_refuses_players_and_nothing() {
    let mut game = table();
    let card = owned(creature("Killer", 1, 1), "ann");
    let victim = owned(creature("Victim", 1, 1), "bob");
    game.players[0].cards_in_play.push(card.copy());
    game.players[1].cards_in_play.push(victim);
    let nothing = card_action(&card, CardAction::DestroyTarget(DestroyTargetCAction {}), None, None);
    assert_eq!(game.execute_card_action(&nothing).err(), Some("Nothing to destroy".to_string()));
    let player = card_action(&card, CardAction::DestroyTarget(DestroyTargetCAction {}), Some(FrontendTarget::Player("bob".to_string())), None);
    assert_eq!(game.execute_card_action(&player).err(), Some("Cannot destroy a player".to_string()));
    let at = FrontendCardTarget { player_id: "bob".to_string(), pile: FrontendPileName::Play, card_index: 0 };
    let aimed = card_action(&card, CardAction::DestroyTarget(DestroyTargetCAction {}), Some(FrontendTarget::Card(at)), None);
    game.execute_card_action(&aimed).unwrap();
    assert!(game.players[1].cards_in_play.is_empty());
    let itself = card_action(&card, CardAction::DestroySelf(DestroySelf {}), None, None);
    game.execute_card_action(&itself).unwrap();
    assert!(game.players[0].cards_in_play.is_empty());
}

#[test]
fn lifelink_gives_the_owner_what_the_card_dealt() {
    let mut game = table();
    let mut card = owned(creature("Vampire", 2, 2), "ann");
    card.add_stat("link".to_string(), Stat::new(StatType::Lifelink, 1));
    card.damage_dealt_to_players = 2;
    game.players[0].cards_in_play.push(card.copy());
    let link = card_action(&card, CardAction::LifeLink(LifeLinkAction {}), None, None);
    assert!(game.execute_card_action(&link).unwrap().is_empty());
    assert_eq!(game.players[0].get_stat_value(StatType::Health), 22);
}

#[test]
fn card_damage_hits_the_named_player() {
    let mut game = table();
    let card = owned(creature("Archer", 3, 1), "ann");
    game.players[0].cards_in_play.push(card.copy());
    let shot = card_action(&card, CardAction::CardDamage(CardDamageAction {}), Some(FrontendTarget::Player("bob".to_string())), None);
    game.execute_card_action(&shot).unwrap();
    assert_eq!(game.players[1].get_stat_value(StatType::Health), 17);
    let missed = card_action(&card, CardAction::CardDamage(CardDamageAction {}), Some(FrontendTarget::Player("zed".to_string())), None);
    assert_eq!(game.execute_card_action(&missed).err(), Some("Unable to find target".to_string()));
}

#[test]
fn generated_mana_goes_to_the_owner() {
    let mut game = table();
    let land = owned(CardBuilder::new().name("Plains").card_type(CardType::BasicLand(ManaType::White)).build(), "ann");
    game.players[0].cards_in_play.push(land.copy());
    let mana = GenerateManaAction { mana_to_add: vec![ManaType::White, ManaType::White, ManaType::Green], target: PlayerActionTarget::Owner };
    let w = card_action(&land, CardAction::GenerateMana(mana), None, None);
    game.execute_card_action(&w).unwrap();
    assert_eq!(game.players[0].mana_pool.white, 2);
    assert_eq!(game.players[0].mana_pool.green, 1);
}

#[test]
fn playing_a_spell_puts_it_on_the_battlefield_and_a_countered_one_in_the_graveyard() {
    let mut game = table();
    let bear = owned(creature("Bear", 2, 2), "ann");
    game.players[0].spells.push(bear.copy());
    let play = card_action(&bear, CardAction::PlayCard(PlayCardAction {}), None, None);
    game.execute_card_action(&play).unwrap();
    assert!(game.players[0].spells.is_empty());
    assert_eq!(game.players[0].cards_in_play[0].id, bear.id);
    let mut countered = owned(creature("Wolf", 2, 2), "ann");
    countered.is_countered = true;
    game.players[0].spells.push(countered.copy());
    let play = card_action(&countered, CardAction::PlayCard(PlayCardAction {}), None, None);
    game.execute_card_action(&play).unwrap();
    assert_eq!(game.players[0].cards_in_play.len(), 1);
    assert_eq!(game.turn_messages, vec!["Spell Wolf was countered and moved to graveyard.".to_string()]);
}

#[test]
fn declared_attacks_and_blocks_reach_the_combat() {
    let mut game = table();
    let ogre = owned(creature("Ogre", 3, 3), "ann");
    let bear = owned(creature("Bear", 2, 2), "bob");
    game.players[0].cards_in_play.push(ogre.copy());
    game.players[1].cards_in_play.push(bear.copy());
    let attack = card_action(&ogre, CardAction::DeclareAttacker(DeclareAttackerAction {}), Some(FrontendTarget::Player("bob".to_string())), None);
    game.execute_card_action(&attack).unwrap();
    let at = FrontendCardTarget { player_id: "ann".to_string(), pile: FrontendPileName::Play, card_index: 0 };
    let block = card_action(&bear, CardAction::DeclareBlocker(DeclareBlockerAction {}), Some(FrontendTarget::Card(at)), None);
    game.execute_card_action(&block).unwrap();
    assert_eq!(game.combat.attackers, vec![(ogre.id.clone(), EffectTarget::Player("bob".to_string()))]);
    assert_eq!(game.combat.blockers, vec![(bear.id.clone(), ogre.id.clone())]);
}

#[test]
fn the_turn_moves_through_its_phases_and_waits_in_main() {
    let mut game = table();
    game.start_turn(0);
    game.advance_phase();
    assert_eq!(game.current_phase(), TurnPhase::Upkeep);
    assert_eq!(game.advance_decision(), AdvanceDecision::Continue);
    game.advance_phase();
    game.advance_phase();
    assert_eq!(game.current_phase(), TurnPhase::Main);
    assert_eq!(game.advance_decision(), AdvanceDecision::Stop);
    for _ in 0..9 {
        game.advance_phase();
    }
    let turn = game.current_turn.unwrap();
    assert_eq!(turn.phase, TurnPhase::Untap);
    assert_eq!(turn.current_player_index, 1);
    assert_eq!(game.turn_number, 2);
}

#[test]
fn attacks_wait_for_creatures_and_blocks_for_attackers() {
    let mut game = table();
    game.start_turn(0);
    game.current_turn = Some(Turn { phase: TurnPhase::DeclareAttackers, ..game.current_turn.unwrap() });
    assert_eq!(game.advance_decision(), AdvanceDecision::Continue);
    game.players[0].cards_in_play.push(creature("Bear", 2, 2));
    assert_eq!(game.advance_decision(), AdvanceDecision::Stop);
    game.current_turn = Some(Turn { phase: TurnPhase::DeclareBlockers, ..game.current_turn.unwrap() });
    assert_eq!(game.advance_decision(), AdvanceDecision::Continue);
    game.combat.declare_attacker("x".to_string(), EffectTarget::Player("bob".to_string()));
    assert_eq!(game.advance_decision(), AdvanceDecision::BlockersFirst);
}

#[test]
fn priority_goes_round_and_restarts_after_a_played_card() {
    let mut game = Game::new();
    for name in ["a", "b", "c"] {
        game.add_player(Player::new(name, 20, vec![]));
    }
    let mut round = game.begin_priority(0);
    assert_eq!(round.order, vec![1, 2]);
    assert_eq!(game.priority_next(&round), Some(1));
    assert_eq!(game.current_priority_player, Some((1, 0, ActionType::NoAction)));
    assert_eq!(game.poll_priority(), PriorityPoll::Waiting);
    game.current_priority_player = Some((1, 0, ActionType::PlayedCard));
    assert_eq!(game.poll_priority(), PriorityPoll::Restart);
    game.priority_answer(&mut round, PriorityActionResult::ActionRequiresRestart);
    assert_eq!(round.order, vec![2, 0]);
    assert_eq!(game.priority_next(&round), Some(2));
    game.priority_answer(&mut round, PriorityActionResult::Timeout);
    assert_eq!(game.priority_next(&round), Some(0));
    assert_eq!(game.current_priority_player, Some((0, 3, ActionType::NoAction)));
    game.priority_answer(&mut round, PriorityActionResult::NoAction);
    assert_eq!(game.priority_next(&round), None);
    assert_eq!(game.current_priority_player, None);
}

#[test]
fn another_action_resets_the_priority_clock() {
    let mut game = table();
    game.current_priority_player = Some((0, 2, ActionType::Tap));
    assert_eq!(game.poll_priority(), PriorityPoll::ResetClock);
    assert_eq!(game.current_priority_player, Some((0, 2, ActionType::NoAction)));
    game.set_priority_time_left(9);
    assert_eq!(game.current_priority_player, Some((0, 9, ActionType::NoAction)));
    assert!(!game.can_advance_turn());
}

#[test]
fn starting_the_game_deals_seven_cards_each() {
    let mut game = table();
    for p in 0..2 {
        for i in 0..10 {
            game.players[p].deck.draw_pile.push(creature(&format!("C{}", i), 1, 1));
        }
    }
    game.start();
    assert_eq!(game.players[0].cards_in_hand.len(), 7);
    assert_eq!(game.players[1].cards_in_hand.len(), 7);
    assert_eq!(game.players[0].deck.draw_pile.len(), 3);
    assert_eq!(game.current_turn.unwrap().current_player_index, 0);
}

#[test]
fn the_lobby_shows_priority_attacks_and_blocks() {
    let mut lobby = Lobby::new(&"ann".to_string());
    lobby.game.add_player(Player::new("bob", 20, vec![]));
    let ogre = creature("Ogre", 3, 3);
    let bear = creature("Bear", 2, 2);
    lobby.game.players[0].cards_in_play.push(ogre.copy());
    lobby.game.players[1].cards_in_play.push(bear.copy());
    lobby.game.start_turn(0);
    lobby.game.combat.declare_attacker(ogre.id.clone(), EffectTarget::Player("bob".to_string()));
    lobby.game.combat.declare_blocker(bear.id.clone(), ogre.id.clone());
    lobby.game.current_priority_player = Some((1, 3, ActionType::NoAction));
    let info = lobby.get_state();
    let queue = info.priority_queue.unwrap();
    assert_eq!(queue.player_id, "bob");
    assert_eq!(queue.time_left, 3);
    assert_eq!(info.attacks.len(), 1);
    assert_eq!(info.attacks[0].attacker, FrontendCardTarget { player_id: "ann".to_string(), pile: FrontendPileName::Play, card_index: 0 });
    assert_eq!(info.attacks[0].target, FrontendTarget::Player("bob".to_string()));
    assert_eq!(info.blocks.len(), 1);
    assert_eq!(info.blocks[0].blocker, FrontendCardTarget { player_id: "bob".to_string(), pile: FrontendPileName::Play, card_index: 0 });
}

#[test]
fn an_ability_is_paid_for_and_its_action_given_back() {
    let mut game = table();
    game.start_turn(0);
    let tapper = owned(
        CardBuilder::new()
            .name("Elf")
            .creature(1, 1)
            .phase(CardPhase::Ready)
            .add_action(
                ActionBuilder::new(ActionTriggerType::AbilityWithinPhases("Tap".to_string(), vec![ManaType::Green], None, true, rusty::action::CardRequiredTarget::NoTarget))
                    .action(CardAction::Blank(BlankAction {})),
            )
            .build(),
        "ann",
    );
    let ability = trigger_id(&tapper, &ActionTriggerType::AbilityWithinPhases(String::new(), vec![], None, true, rusty::action::CardRequiredTarget::NoTarget));
    game.players[0].cards_in_play.push(tapper);
    game.players[0].mana_pool.add_mana(ManaType::Green);
    let at = FrontendCardTarget { player_id: "ann".to_string(), pile: FrontendPileName::Play, card_index: 0 };
    match game.activate_card_action(&at, &None, &ability) {
        Ok(Activation::Resolve(actions)) => assert_eq!(actions.len(), 1),
        _ => panic!("expected the ability to resolve at once"),
    }
    assert_eq!(game.players[0].mana_pool.green, 0);
    assert!(game.players[0].cards_in_play[0].tapped);
    game.current_priority_player = Some((1, 3, ActionType::NoAction));
    assert_eq!(game.activate_card_action(&at, &None, &ability).err(), Some("Not your turn".to_string()));
}

#[test]
fn paying_what_was_added_restores_the_pool() {
    let mut player = Player::new("ann", 20, vec![]);
    player.mana_pool.add_mana(ManaType::Red);
    let before = player.mana_pool;
    player.mana_pool.add_mana(ManaType::Blue);
    player.pay_mana(&vec![ManaType::Blue]).unwrap();
    assert_eq!(player.mana_pool, before);
    player.pay_mana(&vec![ManaType::Red]).unwrap();
    assert_eq!(player.mana_pool, ManaPool::new());
}
