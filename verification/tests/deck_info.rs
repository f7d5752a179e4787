use rusty::card::{Card, CardBuilder};
use rusty::deck_info::list_deck;
use rusty::lobby::{DeckSelector, Lobby};

fn named(name: &str) -> Card {
    CardBuilder::new().name(name).build()
}

#[test]
fn the_angels_deck_is_listed_by_count_then_name() {
    let lobby = Lobby::new(&"ann".to_string());
    let info = lobby.get_deck_info(DeckSelector::Angels);
    let listed: Vec<(String, i32)> = info.cards.iter().map(|c| (c.card.card.name.clone(), c.count)).collect();
    assert_eq!(
        listed,
        vec![
            ("Counter Spell".to_string(), 4),
            ("Ossification".to_string(), 4),
            ("Lunarch Veteran".to_string(), 2),
            ("Skyclave Cleric".to_string(), 2),
            ("Plains".to_string(), 1),
        ]
    );
}

#[test]
fn a_listing_shows_the_first_card_of_each_name() {
    let first = named("Bee");
    let cards = vec![first.copy(), named("Ant"), named("Bee"), named("Bee"), named("Ant"), named("Ab")];
    let info = list_deck(&cards);
    let listed: Vec<(String, i32)> = info.cards.iter().map(|c| (c.card.card.name.clone(), c.count)).collect();
    assert_eq!(listed, vec![("Bee".to_string(), 3), ("Ant".to_string(), 2), ("Ab".to_string(), 1)]);
    assert_eq!(info.cards[0].card.card.id, first.id);
    assert!(info.cards[0].card.attached_to.is_none());
}

#[test]
fn an_empty_deck_lists_nothing() {
    assert!(list_deck(&vec![]).cards.is_empty());
}

#[test]
fn the_angels_deck_gives_each_card_an_id_of_its_own() {
    let deck = rusty::decks::create_angels_deck();
    assert_eq!(deck.len(), 13);
    for a in 0..deck.len() {
        for b in (a + 1)..deck.len() {
            assert_ne!(deck[a].id, deck[b].id);
        }
    }
}
