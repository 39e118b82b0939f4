use locker_game::engine::{Game, GameMode, Notice, Scene, StepError};
use locker_game::item::Item;
use locker_game::locker::Locker;
use locker_game::user::Decision;
use rand::rngs::StdRng;
use rand::SeedableRng;

fn slots(g: &Game, k: usize) -> Vec<Option<Item>> {
    g.locker_snapshots[k].items.clone()
}

#[test]
fn two_participants_scripted_game() {
    let mut g = Game::with_layout(GameMode::Zero, Locker::new(2));
    match g.introduce().unwrap() {
        Notice::Introduction { mode, positions } => {
            assert_eq!(mode, GameMode::Zero);
            assert_eq!(positions, vec![(0, 0), (1, 1)]);
        }
        other => panic!("unexpected {:?}", other),
    }
    assert_eq!(g.scene, Scene::Shuffling);
    assert!(g.shuffle_turn(&vec![0, 0], false, false).unwrap().is_none());
    assert_eq!(g.scene, Scene::DecisionMaking);

    // participant 0 comes for its item
    g.decide(0, 0, false).unwrap();
    assert_eq!(g.user_decision, Decision::TakeItem { from: 0 });
    assert_eq!(g.scene, Scene::Shuffling);
    match g.shuffle_turn(&vec![0, 0], false, false).unwrap() {
        Some(Notice::Reshuffled { items }) => assert_eq!(items, vec![Some(Item::new(1)), Some(Item::new(0))]),
        other => panic!("unexpected {:?}", other),
    }
    assert_eq!(g.locker_snapshots.len(), 2);
    assert_eq!(slots(&g, 1), vec![Some(Item::new(1)), Some(Item::new(0))]);
    assert_eq!(g.scene, Scene::Predicting);
    let prompt = g.prompt().unwrap().to_data();
    assert!(prompt.require_input());
    assert!(prompt.content().starts_with("User 0 is coming to Room 1"));

    // it believes snapshot 0, where its item is in slot 0
    let notices = g.resolve(Some(0), false).unwrap();
    assert_eq!(notices.len(), 2);
    match &notices[0] {
        Notice::Verdict { user, correct, believed, actual } => {
            assert_eq!((*user, *correct, *believed, *actual), (0, true, 0, 1));
        }
        other => panic!("unexpected {:?}", other),
    }
    assert_eq!(g.score, 1);
    assert_eq!(slots(&g, 2), vec![None, Some(Item::new(1))]);
    assert!(g.users.get_by_id(0).is_none());
    assert_eq!(g.scene, Scene::DecisionMaking);

    // participant 1 comes for its item; the locker resets to a derangement
    // of the snapshot it believes, without the item already delivered
    g.decide(0, 0, false).unwrap();
    assert_eq!(g.user_decision, Decision::TakeItem { from: 1 });
    g.shuffle_turn(&vec![0, 0], false, false).unwrap();
    assert_eq!(slots(&g, 3), vec![Some(Item::new(1)), None]);
    // it believes slot 1; a wrong guess scores nothing
    g.resolve(Some(0), true).unwrap();
    assert_eq!(g.score, 1);
    assert_eq!(slots(&g, 4), vec![None, None]);
    // the delivered item of participant 0 never came back
    for k in 2..g.locker_snapshots.len() {
        assert!(!slots(&g, k).contains(&Some(Item::new(0))));
    }
    assert_eq!(g.scene, Scene::End);
    match g.summary().unwrap() {
        Notice::Summary { score, percent } => assert_eq!((score, percent), (1, 50)),
        other => panic!("unexpected {:?}", other),
    }
    let summary = g.summary().unwrap().to_data();
    assert!(summary.require_input());
    assert_eq!(summary.content(), "Correct: 1\nFinal score: 50\n\nGame Over!\nDo you want to play another turn?(Y/n)\n");
}

#[test]
fn steps_out_of_turn_are_refused() {
    let mut g = Game::with_layout(GameMode::Finite, Locker::new(3));
    assert_eq!(g.decide(0, 0, true), Err(StepError::OutOfTurn));
    assert!(g.shuffle_turn(&vec![0, 0, 0], true, true).is_err());
    assert!(g.observe(true, 0, true).is_err());
    assert!(g.prompt().is_err());
    assert!(g.resolve(Some(0), true).is_err());
    assert!(g.summary().is_err());
    assert_eq!(g.scene, Scene::Init);
    assert_eq!(g.locker_snapshots.len(), 1);
    g.introduce().unwrap();
    assert!(g.introduce().is_err());
}

#[test]
fn observing_in_finite_mode_picks_the_seen_snapshot() {
    let mut g = Game::with_layout(GameMode::Finite, Locker::new(3));
    g.introduce().unwrap();
    // two resets: snapshots 1 and 2
    g.shuffle_turn(&vec![0, 0, 0], true, true).unwrap();
    g.shuffle_turn(&vec![0, 0, 1], true, false).unwrap();
    assert_eq!(g.locker_snapshots.len(), 3);
    assert_eq!(g.scene, Scene::DecisionMaking);
    g.decide(2, 1, false).unwrap();
    assert_eq!(g.user_decision, Decision::Observe { from: 2 });
    assert_eq!(g.scene, Scene::Observing);
    match g.observe(true, 1, true).unwrap() {
        Some(Notice::Observation { user, back }) => assert_eq!((user, back), (2, Some(2))),
        other => panic!("unexpected {:?}", other),
    }
    assert_eq!(g.users.get_by_id(2).unwrap().inmind_locker_state_idx, 1);
    assert_eq!(g.user_decision, Decision::Idle);
    assert_eq!(g.scene, Scene::Shuffling);
}

#[test]
fn observing_in_zero_mode_sees_the_live_locker() {
    let mut g = Game::with_layout(GameMode::Zero, Locker::new(2));
    g.introduce().unwrap();
    g.shuffle_turn(&vec![0, 0], true, false).unwrap();
    g.decide(1, 1, false).unwrap();
    let notice = g.observe(true, 0, false).unwrap().unwrap();
    match &notice {
        Notice::Observation { user, back } => assert_eq!((*user, *back), (1, None)),
        other => panic!("unexpected {:?}", other),
    }
    assert_eq!(
        notice.to_data().content(),
        "User 1 walks into the Room 2 and leaves the room after observing the monitor.\n"
    );
    assert_eq!(g.users.get_by_id(1).unwrap().inmind_locker_state_idx, 1);
    assert_eq!(g.scene, Scene::DecisionMaking);
    // an observer that does not walk in keeps its belief
    g.decide(0, 1, false).unwrap();
    assert!(g.observe(false, 0, false).unwrap().is_none());
    assert_eq!(g.users.get_by_id(0).unwrap().inmind_locker_state_idx, 0);
}

#[test]
fn idle_decision_follows_the_coin() {
    let mut g = Game::with_layout(GameMode::Zero, Locker::new(2));
    g.introduce().unwrap();
    g.shuffle_turn(&vec![0, 0], false, false).unwrap();
    g.decide(1, 2, false).unwrap();
    assert_eq!(g.user_decision, Decision::Idle);
    assert_eq!(g.scene, Scene::DecisionMaking);
    g.decide(1, 5, true).unwrap();
    assert_eq!(g.scene, Scene::Shuffling);
}

#[test]
fn non_numeric_guess_is_a_miss() {
    let mut g = Game::with_layout(GameMode::Zero, Locker::new(1));
    g.introduce().unwrap();
    g.shuffle_turn(&vec![0], false, false).unwrap();
    g.decide(0, 0, false).unwrap();
    g.shuffle_turn(&vec![0], false, false).unwrap();
    g.resolve(None, false).unwrap();
    assert_eq!(g.score, 0);
    assert_eq!(g.scene, Scene::End);
    match g.summary().unwrap() {
        Notice::Summary { score, percent } => assert_eq!((score, percent), (0, 0)),
        other => panic!("unexpected {:?}", other),
    }
}

#[test]
fn empty_game_ends_at_once() {
    let mut g = Game::with_layout(GameMode::Zero, Locker::new(0));
    g.introduce().unwrap();
    assert_eq!(g.scene, Scene::End);
    match g.summary().unwrap() {
        Notice::Summary { score, percent } => assert_eq!((score, percent), (0, 0)),
        other => panic!("unexpected {:?}", other),
    }
}

#[test]
fn new_game_layout_is_a_permutation() {
    let mut moved = false;
    for seed in 0..20u64 {
        let mut rng = StdRng::seed_from_u64(seed);
        let g = Game::new(GameMode::Zero, 5, &mut rng);
        let mut owners: Vec<usize> = g.locker_snapshots[0].items.iter().map(|s| s.unwrap().belongs_to).collect();
        if owners != vec![0, 1, 2, 3, 4] {
            moved = true;
        }
        owners.sort();
        assert_eq!(owners, vec![0, 1, 2, 3, 4]);
        assert_eq!(g.users.users.len(), 5);
    }
    assert!(moved);
}
