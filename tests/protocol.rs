use locker_game::answer::{declines_replay, parse_guess};
use locker_game::cli::mode_named;
use locker_game::engine::GameMode;
use locker_game::protocol::{Data, FrameReader, SEPARATOR};

#[test]
fn protocol_round_trip() {
    let data = Data::new(true, "pick a slot".to_string());
    let bytes = data.frame();
    assert_eq!(*bytes.last().unwrap(), SEPARATOR);
    assert_eq!(bytes.iter().filter(|b| **b == SEPARATOR).count(), 1);
    let mut reader = FrameReader::new();
    let mut frames = Vec::new();
    for b in bytes {
        if let Some(frame) = reader.push(b) {
            frames.push(frame);
        }
    }
    assert_eq!(frames.len(), 1);
    let value: serde_json::Value = serde_json::from_slice(&frames[0]).unwrap();
    assert_eq!(value["require_input"], serde_json::Value::Bool(true));
    assert_eq!(value["content"].as_str(), Some("pick a slot"));
    assert_eq!(value.as_object().unwrap().len(), 2);
}

#[test]
fn json_text_of_a_message() {
    let data = Data::new(true, "pick a slot".to_string());
    assert_eq!(data.to_json(), "{\"require_input\":true,\"content\":\"pick a slot\"}");
    assert!(data.require_input());
    assert_eq!(data.content(), "pick a slot");
}

#[test]
fn json_text_escapes_content() {
    let content = "say \"hi\"\\\nnext\u{1}\t\u{e9}";
    let data = Data::new(false, content.to_string());
    assert_eq!(
        data.to_json(),
        "{\"require_input\":false,\"content\":\"say \\\"hi\\\"\\\\\\nnext\\u0001\\t\u{e9}\"}"
    );
    let bytes = data.frame();
    assert_eq!(bytes.iter().filter(|b| **b == SEPARATOR).count(), 1);
    let value: serde_json::Value = serde_json::from_slice(&bytes[..bytes.len() - 1]).unwrap();
    assert_eq!(value["content"].as_str(), Some(content));
    assert_eq!(value["require_input"], serde_json::Value::Bool(false));
}

#[test]
fn frame_reader_splits_messages() {
    let mut reader = FrameReader::new();
    let mut frames = Vec::new();
    for b in b"ab\n\ncd\n".iter() {
        if let Some(frame) = reader.push(*b) {
            frames.push(frame);
        }
    }
    assert_eq!(frames, vec![b"ab".to_vec(), Vec::new(), b"cd".to_vec()]);
    assert!(reader.pending.is_empty());
    assert!(reader.push(b'x').is_none());
    assert_eq!(reader.pending, b"x".to_vec());
}

#[test]
fn guesses_are_parsed_like_std() {
    assert_eq!(parse_guess("3"), Some(3));
    assert_eq!(parse_guess("  12\n"), Some(12));
    assert_eq!(parse_guess("+7"), Some(7));
    assert_eq!(parse_guess("007"), Some(7));
    assert_eq!(parse_guess("\u{a0}5\u{3000}"), Some(5));
    assert_eq!(parse_guess(""), None);
    assert_eq!(parse_guess("   "), None);
    assert_eq!(parse_guess("+"), None);
    assert_eq!(parse_guess("-1"), None);
    assert_eq!(parse_guess("1 2"), None);
    assert_eq!(parse_guess("two"), None);
    assert_eq!(parse_guess("18446744073709551615"), Some(usize::MAX));
    assert_eq!(parse_guess("18446744073709551616"), None);
    assert_eq!(parse_guess("99999999999999999999999x"), None);
    for s in ["0", " 42 ", "+9", "x", "", "-3", "\t8\r\n", "1e3"] {
        assert_eq!(parse_guess(s), s.trim().parse::<usize>().ok());
    }
}

#[test]
fn replay_answers() {
    assert!(declines_replay("n"));
    assert!(declines_replay(" N \n"));
    assert!(!declines_replay("y"));
    assert!(!declines_replay(""));
    assert!(!declines_replay("no"));
}

#[test]
fn mode_names() {
    assert_eq!(mode_named("zero"), Some(GameMode::Zero));
    assert_eq!(mode_named("finite"), Some(GameMode::Finite));
    assert_eq!(mode_named("infinite"), None);
    assert_eq!(mode_named("Zero"), None);
}
