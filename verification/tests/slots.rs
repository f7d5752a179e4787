use rusty::slot_machine::SlotMachine;

fn s(x: &str) -> String {
    x.to_string()
}

#[test]
fn a_roll_below_the_chance_wins_with_three_of_the_drawn_symbol() {
    let m = SlotMachine::new(50);
    let (won, reels) = m.chance_outcome(49, vec![s("✅"), s("❌"), s("✅")], Some(s("❌")), None);
    assert!(won);
    assert_eq!(reels, vec![s("❌"), s("❌"), s("❌")]);
}

#[test]
fn a_roll_at_the_chance_loses_and_keeps_losing_reels() {
    let m = SlotMachine::new(50);
    let first = vec![s("✅"), s("❌"), s("✅")];
    let (won, reels) = m.chance_outcome(50, first.clone(), None, None);
    assert!(!won);
    assert_eq!(reels, first);
}

#[test]
fn a_losing_roll_replaces_reels_that_would_win() {
    let m = SlotMachine::new(50);
    let (won, reels) = m.chance_outcome(99, vec![s("✅"), s("✅"), s("✅")], None, Some(vec![s("❌"), s("✅")]));
    assert!(!won);
    assert_eq!(reels, vec![s("❌"), s("✅")]);
}

#[test]
fn a_spin_shows_three_reels_or_every_symbol_of_a_small_machine() {
    let m = SlotMachine::new(50);
    for _ in 0..50 {
        let r = m.spin("win", "lose");
        if r.won {
            assert_eq!(r.reels.len(), 3);
            assert_eq!(r.result, "win");
        } else {
            assert!(r.reels.len() == 3 || r.reels.len() == 2);
            assert_eq!(r.result, "lose");
        }
    }
}
