use locker_game::engine::{GameMode, Scene};
use locker_game::session::{Awaiting, Session};
use locker_game::user::Decision;

/// The slot the coming participant believes its item is in.
fn believed_slot(s: &Session) -> usize {
    let p = match s.game.user_decision {
        Decision::TakeItem { from } => from,
        other => panic!("unexpected {:?}", other),
    };
    let b = s.game.users.get_by_id(p).unwrap().inmind_locker_state_idx;
    assert!(b < s.game.locker_snapshots.len());
    s.game.locker_snapshots[b].get_item_idx_by_belongs(p)
}

/// Plays one game, answering right on the guesses whose number `right`
/// accepts; returns the number of right answers and the final score.
fn play(mode: GameMode, seed: u64, right: fn(usize) -> bool) -> (usize, usize) {
    let mut s = Session::new(mode, 5, seed);
    let mut expected = 0;
    let mut guesses = 0;
    for _ in 0..1_000_000 {
        match s.awaiting {
            Awaiting::Nothing => {
                let before = s.game.users.users.len();
                let messages = s.advance();
                assert!(s.game.users.users.len() <= before);
                if s.awaiting == Awaiting::Nothing {
                    assert!(messages.iter().all(|m| !m.require_input()));
                } else {
                    assert_eq!(messages.len(), 1);
                    assert!(messages[0].require_input());
                }
            }
            Awaiting::Prediction => {
                let slot = believed_slot(&s);
                let answer = if right(guesses) {
                    expected += 1;
                    format!(" {}\n", slot)
                } else if guesses % 3 == 0 {
                    "not a number".to_string()
                } else {
                    format!("{}", slot + 1)
                };
                guesses += 1;
                let before = s.game.users.users.len();
                s.reply(&answer);
                assert_eq!(s.game.users.users.len(), before - 1);
            }
            Awaiting::Replay => {
                assert_eq!(s.game.scene, Scene::End);
                let score = s.game.score;
                s.reply("n");
                assert!(s.finished);
                assert_eq!(guesses, 5);
                return (expected, score);
            }
        }
    }
    panic!("the game did not end");
}

#[test]
fn score_counts_right_guesses() {
    for seed in 0..10u64 {
        let (expected, score) = play(GameMode::Finite, seed, |k| k % 2 == 0);
        assert_eq!(score, expected);
        let (expected, score) = play(GameMode::Zero, seed, |k| k != 1);
        assert_eq!(score, expected);
    }
}

#[test]
fn all_right_scores_everyone() {
    let (expected, score) = play(GameMode::Zero, 1, |_| true);
    assert_eq!((expected, score), (5, 5));
    let (expected, score) = play(GameMode::Finite, 1, |_| false);
    assert_eq!((expected, score), (0, 0));
}

#[test]
fn beliefs_never_go_back() {
    let mut s = Session::new(GameMode::Finite, 4, 3);
    let mut last = vec![0usize; 4];
    for _ in 0..1_000_000 {
        match s.awaiting {
            Awaiting::Nothing => {
                s.advance();
            }
            Awaiting::Prediction => {
                s.reply("0");
            }
            Awaiting::Replay => break,
        }
        for u in s.game.users.users.iter() {
            assert!(u.inmind_locker_state_idx >= last[u.id]);
            assert!(u.inmind_locker_state_idx < s.game.locker_snapshots.len());
            last[u.id] = u.inmind_locker_state_idx;
        }
    }
    assert_eq!(s.game.scene, Scene::End);
}

#[test]
fn delivered_items_never_return() {
    for seed in 0..20u64 {
        let mut s = Session::new(GameMode::Finite, 5, seed);
        let mut delivered: Vec<(usize, usize)> = Vec::new();
        for _ in 0..1_000_000 {
            match s.awaiting {
                Awaiting::Nothing => {
                    s.advance();
                }
                Awaiting::Prediction => {
                    let p = match s.game.user_decision {
                        Decision::TakeItem { from } => from,
                        other => panic!("unexpected {:?}", other),
                    };
                    s.reply("0");
                    delivered.push((p, s.game.locker_snapshots.len() - 1));
                }
                Awaiting::Replay => break,
            }
            for (p, from) in delivered.iter() {
                for k in *from..s.game.locker_snapshots.len() {
                    for slot in s.game.locker_snapshots[k].items.iter() {
                        assert_ne!(slot.map(|item| item.belongs_to), Some(*p));
                    }
                }
            }
        }
        assert_eq!(s.game.scene, Scene::End);
    }
}

#[test]
fn replay_starts_a_fresh_game() {
    let mut s = Session::new(GameMode::Zero, 2, 7);
    for _ in 0..1_000_000 {
        match s.awaiting {
            Awaiting::Nothing => {
                s.advance();
            }
            Awaiting::Prediction => {
                s.reply("1");
            }
            Awaiting::Replay => break,
        }
    }
    s.reply("y");
    assert!(!s.finished);
    assert_eq!(s.game.scene, Scene::Init);
    assert_eq!(s.game.score, 0);
    assert_eq!(s.game.users.users.len(), 2);
    assert_eq!(s.game.locker_snapshots.len(), 1);
}
