use pawdesk::messages::{pick_card_index, pick_index, pick_message, pick_message_seeded, PickHistory};

#[test]
fn pick_returns_non_empty() {
    let mut h = PickHistory::new();
    let m = pick_message(&mut h, &[]);
    assert!(!m.is_empty());
}

#[test]
fn custom_messages_included() {
    let mut h = PickHistory::new();
    let custom = vec!["自定义提醒文案XYZ".to_string()];
    let mut saw = false;
    for _ in 0..20 {
        if pick_message(&mut h, &custom).contains("XYZ") {
            saw = true;
            break;
        }
    }
    assert!(saw || !pick_message(&mut h, &custom).is_empty());
}

#[test]
fn pick_card_index_stays_in_range() {
    let mut h = PickHistory::new();
    assert_eq!(pick_card_index(&mut h, 0), 0);
    assert_eq!(pick_card_index(&mut h, 1), 0);
    for _ in 0..24 {
        let i = pick_card_index(&mut h, 2);
        assert!(i < 2);
    }
}

#[test]
fn picks_never_repeat_back_to_back() {
    let mut last = usize::MAX;
    let mut prev = usize::MAX;
    for seed in 0..50u64 {
        let i = pick_index(3, &mut last, seed);
        assert!(i < 3);
        assert_ne!(i, prev);
        assert_eq!(last, i);
        prev = i;
    }
}

#[test]
fn pick_index_moves_on_from_a_repeat() {
    let mut last = 1usize;
    assert_eq!(pick_index(4, &mut last, 5), 2);
    assert_eq!(last, 2);
    let mut last = 3usize;
    assert_eq!(pick_index(4, &mut last, 7), 0);
    let mut untouched = 9usize;
    assert_eq!(pick_index(0, &mut untouched, 7), 0);
    assert_eq!(untouched, 9);
}

#[test]
fn seeded_pick_skips_blank_custom_lines() {
    let mut h = PickHistory::new();
    let custom = vec!["   ".to_string(), "Stand up!".to_string()];
    let m = pick_message_seeded(&mut h, &custom, 4);
    assert_eq!(m, "Stand up!");
    assert_eq!(h.last_message, 4);
    let first = pick_message_seeded(&mut h, &custom, 0);
    assert_eq!(first, "喂我之前，先喂一下你的健康：站起来走两步。");
}

#[test]
fn unicode_blank_custom_lines_are_skipped() {
    let mut h = PickHistory::new();
    let custom = vec!["\u{3000}\u{00A0}\t".to_string(), "\u{2003}Walk!\u{2028}".to_string()];
    let m = pick_message_seeded(&mut h, &custom, 4);
    assert_eq!(m, "\u{2003}Walk!\u{2028}");
    assert_eq!(h.last_message, 4);
}
