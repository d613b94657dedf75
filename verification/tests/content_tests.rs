use kitty_fs::content::{
    happy_kitty_content, need_pets_content, no_more_pets, kitty_content, GameStatus,
};

#[test]
fn need_pets_text_names_the_kitty_and_the_count() {
    let text = need_pets_content(&"Tom".to_string(), 5);
    assert!(text.starts_with("Hello StarCon!\nMy name is: Tom\n\nI NEED TO BE PETTED\n\nPlease send me 5 pets\n"));
    assert!(text.ends_with("             \\___,,))      \\_,,))\n"));
    assert!(!text.ends_with("\n\n"));
    assert_eq!(text.len(), 471);
    assert_eq!(need_pets_content(&"".to_string(), 12345).len(), 467 + 5);
    assert_eq!(need_pets_content(&"Whiskers".to_string(), -7).len(), 467 + 8 + 2);
}

#[test]
fn need_pets_text_renders_numbers_in_decimal() {
    for n in [0, 1, 9, 10, 11, 99, 100, 12345, i32::MAX, -1, -10, -987, i32::MIN] {
        let text = need_pets_content(&"x".to_string(), n);
        let wanted = format!("\nPlease send me {} pets\n", n);
        assert!(text.contains(&wanted), "{}", n);
    }
}

#[test]
fn happy_text_says_enough() {
    let text = happy_kitty_content(&"Tom".to_string());
    assert!(text.starts_with("Hello StarCon!\nMy name is: Tom\n\nWOW! YOU GAVE ME ENOUGH PETS!! :heart:\n\n"));
    assert!(!text.contains("Please send me"));
    assert!(text.is_ascii());
    assert_eq!(text.len(), 468);
    assert_eq!(happy_kitty_content(&"".to_string()).len(), 465);
}

#[test]
fn fickle_text_says_no_more_pets() {
    let text = no_more_pets(&"Tom".to_string());
    assert!(text.starts_with("Hello StarCon!\nMy name is: Tom\n\nMY HEART IS FICKLE! NO MORE PETS!!!!\n"));
    assert!(!text.contains("Please send me"));
    assert_eq!(text.len(), 466);
    assert_eq!(no_more_pets(&"".to_string()).len(), 463);
}

#[test]
fn kitty_content_picks_the_state_by_the_counter() {
    let name = "Tom".to_string();
    assert_eq!(kitty_content(&name, 3), need_pets_content(&name, 3));
    assert_eq!(kitty_content(&name, 1), need_pets_content(&name, 1));
    assert_eq!(kitty_content(&name, 0), happy_kitty_content(&name));
    assert_eq!(kitty_content(&name, -1), no_more_pets(&name));
    assert_eq!(kitty_content(&name, i32::MIN), no_more_pets(&name));
}

#[test]
fn status_is_a_diary_while_a_kitty_needs_pets() {
    let text = GameStatus::new(1, 1, 0).to_content();
    assert_eq!(
        text,
        "Dear Diary,\n\nAll my friends are at StarCon! :(\n\nI have to stay at home and pet these kitties :~(\n\nHere's what I've done so far:\n\n* 1 kitties still need pets\n* 1 kitties are at peace with the world\n* 0 kitties are mad because I petted them too much!\n"
    );
    let text = GameStatus::new(12, 340, 5).to_content();
    assert!(text.contains("* 12 kitties still need pets\n* 340 kitties are at peace with the world\n* 5 kitties are mad"));
}

#[test]
fn status_is_game_over_when_all_are_at_peace() {
    let text = GameStatus::new(0, 3, 0).to_content();
    assert!(text.starts_with("GAME OVER!!\n\nAll the kitties are at peace!!!\n"));
    assert_eq!(GameStatus::new(0, 0, 0).to_content(), text);
}

#[test]
fn status_counts_the_mad_when_none_needs_pets() {
    let text = GameStatus::new(0, 3, 42).to_content();
    assert!(text.starts_with("GAME OVER!!!\n\nSO MANY KITIES ARE MAD AT U!!!!!!!!!!!! :-(\n"));
    assert!(text.contains("  (   | 42 |          |o o  |__ _) )\n"));
}
