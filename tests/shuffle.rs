use locker_game::shuffle::{derange, shuffle};
use rand::rngs::StdRng;
use rand::SeedableRng;

#[test]
fn test_shuffle() {
    // Test with empty data
    let mut empty_data: [i32; 0] = [];
    let mut rng = StdRng::seed_from_u64(1);
    shuffle(&mut empty_data, &mut rng);
    assert_eq!(empty_data, [] as [i32; 0]);

    // Test with single element
    let mut single_data = [42];
    let mut rng = StdRng::seed_from_u64(1);
    shuffle(&mut single_data, &mut rng);
    assert_eq!(single_data, [42]);

    // Test with multiple elements
    let mut data = [1, 2, 3, 4, 5];
    let mut rng = StdRng::seed_from_u64(1);
    shuffle(&mut data, &mut rng);
    assert_ne!(data, [1, 2, 3, 4, 5]);
}

#[test]
fn shuffle_moves_every_element_for_many_seeds() {
    for seed in 0..200u64 {
        for len in 2..9usize {
            let before: Vec<usize> = (0..len).collect();
            let mut data = before.clone();
            let mut rng = StdRng::seed_from_u64(seed);
            shuffle(&mut data, &mut rng);
            for i in 0..len {
                assert_ne!(data[i], before[i]);
            }
            let mut sorted = data.clone();
            sorted.sort();
            assert_eq!(sorted, before);
        }
    }
}

#[test]
fn derange_with_given_draws() {
    // index 3 swaps with 0, index 2 with 1, index 1 with 0
    let mut data = [10, 20, 30, 40];
    derange(&mut data, &[0, 0, 1, 0]);
    // after i=3: [40,20,30,10]; i=2: [40,30,20,10]; i=1: [30,40,20,10]
    assert_eq!(data, [30, 40, 20, 10]);
}

#[test]
fn derange_two_elements_swaps_them() {
    let mut data = ['a', 'b'];
    derange(&mut data, &[0, 0]);
    assert_eq!(data, ['b', 'a']);
}

#[test]
fn derange_short_sequences_unchanged() {
    let mut empty: [u8; 0] = [];
    derange(&mut empty, &[]);
    assert_eq!(empty, [] as [u8; 0]);
    let mut one = [7u8];
    derange(&mut one, &[0]);
    assert_eq!(one, [7]);
}

#[test]
fn derange_repeated_values_can_stay() {
    // with equal elements a moved position may hold an equal value
    let mut data = [1, 1];
    derange(&mut data, &[0, 0]);
    assert_eq!(data, [1, 1]);
}
