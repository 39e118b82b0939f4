use locker_game::engine::{GameMode, Notice};
use locker_game::item::Item;
use locker_game::text::to_ordinal;

#[test]
fn ordinals() {
    assert_eq!(to_ordinal(0), "0th");
    assert_eq!(to_ordinal(1), "1st");
    assert_eq!(to_ordinal(2), "2nd");
    assert_eq!(to_ordinal(3), "3rd");
    assert_eq!(to_ordinal(4), "4th");
    assert_eq!(to_ordinal(11), "11th");
    assert_eq!(to_ordinal(12), "12th");
    assert_eq!(to_ordinal(13), "13th");
    assert_eq!(to_ordinal(21), "21st");
    assert_eq!(to_ordinal(22), "22nd");
    assert_eq!(to_ordinal(103), "103rd");
    assert_eq!(to_ordinal(111), "111th");
    assert_eq!(to_ordinal(4294967295), "4294967295th");
}

#[test]
fn layout_text() {
    let notice = Notice::Contents { items: vec![Some(Item::new(2)), None] };
    let data = notice.to_data();
    assert!(!data.require_input());
    assert_eq!(
        data.content(),
        "Now, from the monitor, you can see the content of the locker:\nThe position 0th stores the item of User 2.\nThe position 1st is empty.\n\n"
    );
}

#[test]
fn introduction_text() {
    let notice = Notice::Introduction { mode: GameMode::Finite, positions: vec![(0, 1), (1, 0)] };
    let data = notice.to_data();
    assert!(!data.require_input());
    let text = data.content();
    assert!(text.starts_with("Welcome to, Pick the Right Stuff!\n\nIn this game"));
    assert!(text.contains("Room 3 contains a screen"));
    assert!(text.ends_with(
        "Game Begins!\n\nThere are 2 users. User 0 stores its item at the position 1st of the locker. User 1 stores its item at the position 0th of the locker. \n\nNow they leave the room.\n"
    ));
}

#[test]
fn observation_and_verdict_texts() {
    let last = Notice::Observation { user: 3, back: Some(1) }.to_data();
    assert!(last.content().ends_with("User 3 observes the snapshot which depicts the last state of the monitor and leaves the room.\n"));
    let older = Notice::Observation { user: 3, back: Some(2) }.to_data();
    assert!(older.content().ends_with("User 3 observes the snapshot which depicts the 2nd-to-last state of the monitor and leaves the room.\n"));
    let wrong = Notice::Verdict { user: 4, correct: false, believed: 1, actual: 3 }.to_data();
    assert_eq!(
        wrong.content(),
        "Your prediction is wrong! The administrator is intervening... Item in the position 1st is exchanged with the correct item in the position 3rd. User 4 retrieved the item with the help of the administrator. You score no points.\n"
    );
    let right = Notice::Verdict { user: 4, correct: true, believed: 2, actual: 2 }.to_data();
    assert!(right.content().starts_with("Your prediction is correct! Item in the position 2nd"));
    assert!(!right.require_input());
    let prompt = Notice::Prompt { user: 0 }.to_data();
    assert!(prompt.require_input());
    assert!(prompt.content().ends_with("Please make your prediction:"));
}
