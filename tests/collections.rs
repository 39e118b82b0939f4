use locker_game::agent::{Agent, AgentCollection};
use locker_game::item::Item;
use locker_game::locker::Locker;
use locker_game::shelf::Shelf;
use locker_game::user::{Decision, User, UserCollection};
use rand::rngs::StdRng;
use rand::SeedableRng;

#[test]
fn item_ownership() {
    let item = Item::new(3);
    assert_eq!(item.belongs_to, 3);
    assert!(item.is_belongs_to(3));
    assert!(!item.is_belongs_to(4));
}

#[test]
fn locker_new_exchange_remove() {
    let mut locker = Locker::new(3);
    assert_eq!(locker.items, vec![Some(Item::new(0)), Some(Item::new(1)), Some(Item::new(2))]);
    locker.exchange_items(0, 2);
    assert_eq!(locker.items, vec![Some(Item::new(2)), Some(Item::new(1)), Some(Item::new(0))]);
    assert_eq!(locker.get_item_idx_by_belongs(0), 2);
    assert_eq!(locker.remove_item(1), Some(Item::new(1)));
    assert_eq!(locker.items, vec![Some(Item::new(2)), None, Some(Item::new(0))]);
    assert_eq!(locker.remove_item(1), None);
    let copy = locker.clone();
    assert_eq!(copy.items, locker.items);
}

#[test]
fn locker_exchange_same_slot() {
    let mut locker = Locker::new(2);
    locker.exchange_items(1, 1);
    assert_eq!(locker.items, vec![Some(Item::new(0)), Some(Item::new(1))]);
}

#[test]
fn shelf_operations() {
    let mut shelf = Shelf::new(4);
    assert_eq!(shelf.items, vec![Item::new(0), Item::new(1), Item::new(2), Item::new(3)]);
    shelf.exchange_items(1, 3);
    assert_eq!(shelf.get_item_idx_by_belongs(3), 1);
    assert_eq!(shelf.remove_item(0), Item::new(0));
    assert_eq!(shelf.items, vec![Item::new(3), Item::new(2), Item::new(1)]);
    assert_eq!(shelf.get_item_idx_by_belongs(1), 2);
}

#[test]
fn shelf_shuffle_moves_every_item() {
    let shelf = Shelf::new(6);
    let mut rng = StdRng::seed_from_u64(9);
    let shuffled = shelf.shuffle(&mut rng);
    for (i, item) in shuffled.items.iter().enumerate() {
        assert_ne!(item.belongs_to, i);
    }
}

#[test]
fn user_collection_by_id() {
    let mut users = UserCollection::new(3, 0);
    assert_eq!(users.users, vec![User::new(0, 0), User::new(1, 0), User::new(2, 0)]);
    users.remove_by_id(1);
    assert_eq!(users.users, vec![User::new(0, 0), User::new(2, 0)]);
    assert!(users.get_mut_by_id(1).is_none());
    users.get_mut_by_id(2).unwrap().inmind_locker_state_idx = 4;
    assert_eq!(users.get_by_id(2).unwrap().inmind_locker_state_idx, 4);
    users.remove_by_id(7);
    assert_eq!(users.users.len(), 2);
    assert!(!users.is_empty());
    users.remove_by_id(0);
    users.remove_by_id(2);
    assert!(users.is_empty());
}

#[test]
fn agent_collection_by_id() {
    let locker = Locker::new(2);
    let mut agents = AgentCollection::new(3, locker);
    assert_eq!(agents.agents.len(), 3);
    assert_eq!(agents.agents[2].id, 2);
    assert_eq!(agents.agents[1].inmind_locker.items, vec![Some(Item::new(0)), Some(Item::new(1))]);
    agents.get_mut_by_id(1).unwrap().inmind_locker.exchange_items(0, 1);
    assert_eq!(agents.agents[1].inmind_locker.items, vec![Some(Item::new(1)), Some(Item::new(0))]);
    agents.remove_by_id(0);
    assert!(agents.get_mut_by_id(0).is_none());
    assert_eq!(agents.agents[0].id, 1);
    agents.remove_by_id(1);
    agents.remove_by_id(2);
    assert!(agents.is_empty());
    let agent = Agent::new(5, Locker::new(1));
    assert_eq!(agent.id, 5);
}

#[test]
fn decision_from_draw() {
    assert_eq!(Decision::from_draw(0, 4), Decision::TakeItem { from: 4 });
    assert_eq!(Decision::from_draw(1, 4), Decision::Observe { from: 4 });
    assert_eq!(Decision::from_draw(2, 4), Decision::Idle);
}

#[test]
fn decision_rand_choose_is_about_the_participant() {
    let mut rng = StdRng::seed_from_u64(5);
    let mut seen = [false; 3];
    for _ in 0..300 {
        match Decision::rand_choose(&mut rng, 2) {
            Decision::TakeItem { from } => {
                assert_eq!(from, 2);
                seen[0] = true;
            }
            Decision::Observe { from } => {
                assert_eq!(from, 2);
                seen[1] = true;
            }
            Decision::Idle => seen[2] = true,
        }
    }
    assert_eq!(seen, [true, true, true]);
}
