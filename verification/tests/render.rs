use rusty::card::{Card, CardBuilder};
use rusty::mana::ManaType;
use rusty::player::Player;
use rusty::stat::{Stat, StatType, Stats};

fn bolt() -> Card {
    CardBuilder::new()
        .name("Elf")
        .description("Lightning strikes")
        .mana_cost(vec![ManaType::Green])
        .creature(1, 1)
        .build()
}

fn bar(n: usize) -> String {
    "─".repeat(n)
}

#[test]
fn a_card_box_has_its_name_cost_stats_and_wrapped_text() {
    let lines = bolt().render(20);
    let expected = vec![
        format!("┌{}┐", bar(18)),
        format!("│{}Elf{}│", " ".repeat(7), " ".repeat(8)),
        format!("├{}┤", bar(18)),
        format!("│ {{G}} {} 1/1 │", " ".repeat(8)),
        format!("├{}┤", bar(18)),
        format!("│ Lightning{}│", " ".repeat(8)),
        format!("│ strikes{}│", " ".repeat(10)),
        format!("│{}│", " ".repeat(18)),
        format!("└─{}┘", bar(17)),
    ];
    assert_eq!(lines, expected);
    for line in &lines {
        assert_eq!(line.chars().count(), 20);
    }
}

#[test]
fn a_tapped_card_box_marks_its_bottom() {
    let mut card = bolt();
    card.tapped = true;
    let lines = card.render(20);
    assert_eq!(lines.last().unwrap(), &format!("└t{}┘", bar(17)));
}

#[test]
fn a_description_too_long_for_the_box_is_wrapped_not_kept_whole() {
    let lines = bolt().render(20);
    assert!(!lines.iter().any(|l| l.contains("Lightning strikes")));
    let wide = bolt().render(30);
    assert!(wide.iter().any(|l| l.contains("Lightning strikes")));
    assert_eq!(wide.len(), 9);
}

#[test]
fn a_card_with_a_long_description_grows_past_eight_lines() {
    let card = CardBuilder::new()
        .name("Sage")
        .description("one two three four")
        .creature(0, 2)
        .build();
    let lines = card.render(10);
    assert_eq!(lines.len(), 10);
    assert_eq!(lines[5], "│ one    │");
    assert_eq!(lines[8], "│ four   │");
}

#[test]
fn a_player_panel_lists_name_life_stats_and_mana() {
    let player = Player::new("ann", 20, vec![]);
    let lines = player.render_player_info(10, 20);
    let expected = vec![
        format!("┌{}┐", bar(18)),
        format!("│{}ann{}│", " ".repeat(7), " ".repeat(8)),
        format!("├{}┤", bar(18)),
        format!("│ Alive: true{}│", " ".repeat(6)),
        format!("├{}┤", bar(18)),
        format!("│ Health: 20{}│", " ".repeat(7)),
        format!("│ Mana: {}│", " ".repeat(11)),
        format!("│{}│", " ".repeat(18)),
        format!("│{}│", " ".repeat(18)),
        format!("└{}┘", bar(18)),
    ];
    assert_eq!(lines, expected);
}

#[test]
fn a_player_panel_sums_each_stat_type_once_and_shows_the_pool() {
    let mut player = Player::new("bob", 20, vec![]);
    player.is_alive = false;
    player.stat_manager.add_stat("wound".to_string(), Stat::new(StatType::Health, -25));
    player.stat_manager.add_stat("luck".to_string(), Stat::new(StatType::LuckToken, 2));
    player.mana_pool.add_mana(ManaType::Green);
    player.mana_pool.add_mana(ManaType::Green);
    let lines = player.render_player_info(3, 20);
    assert_eq!(lines.len(), 9);
    assert_eq!(lines[3], format!("│ Alive: false{}│", " ".repeat(5)));
    assert_eq!(lines[5], format!("│ Health: -5{}│", " ".repeat(7)));
    assert_eq!(lines[6], format!("│ LuckToken: 2{}│", " ".repeat(5)));
    assert_eq!(lines[7], format!("│ Mana: {{GG}}{}│", " ".repeat(7)));
    assert_eq!(lines[8], format!("└{}┘", bar(18)));
}

#[test]
fn a_card_list_puts_boxes_side_by_side() {
    let player = Player::new("ann", 20, vec![]);
    let cards = vec![bolt(), bolt()];
    let rows = player.render_card_list(&cards, 20);
    assert_eq!(rows.len(), 10);
    assert_eq!(rows[0], format!("┌{}┐  ┌{}┐", bar(18), bar(18)));
    assert_eq!(rows[9], " ".repeat(42));
    let empty = player.render_card_list(&vec![], 20);
    assert!(empty.iter().all(|r| r.is_empty()));
}

#[test]
fn a_board_shows_the_panel_hand_and_play_row_by_row() {
    let mut player = Player::new("ann", 20, vec![]);
    player.cards_in_hand.push(bolt());
    let text = player.render(20, 10, 20);
    let rows: Vec<&str> = text.split('\n').collect();
    assert_eq!(rows.len(), 11);
    assert_eq!(rows[10], "");
    assert_eq!(rows[0], format!("┌{}┐ H  ┌{}┐ P  ", bar(18), bar(18)));
    assert_eq!(rows[9], format!("└{}┘ H  {} P  ", bar(18), " ".repeat(20)));
    let short = player.render(20, 12, 20);
    let last: Vec<&str> = short.split('\n').collect();
    assert_eq!(last[11], format!("└{}┘ H  none{} P  none{}", bar(18), " ".repeat(16), " ".repeat(16)));
}

#[test]
fn a_box_lays_out_the_given_wrapped_text_line_by_line() {
    let lines = bolt().render_with_text(20, &"one\r\ntwo\n".to_string());
    assert_eq!(lines[5], format!("│ one{}│", " ".repeat(14)));
    assert_eq!(lines[6], format!("│ two{}│", " ".repeat(14)));
    assert_eq!(lines.len(), 9);
}
