use rand::rngs::StdRng;
use rand::SeedableRng;
use umasim::game::ramen::events::{
    assign_train_feeling_type, get_turn_special_feeling, train_feeling_types, FriendEventState,
    EVENT_FRIEND_APPEAR, EVENT_FRIEND_CLICK, EVENT_FRIEND_UNLOCK,
};

#[test]
fn test_friend_event_state_lifecycle() {
    let mut state = FriendEventState::default();
    assert_eq!(state, FriendEventState::NotAppear);
    assert!(!state.can_outing());

    let triggered = state.on_appear();
    assert!(triggered);
    assert_eq!(state, FriendEventState::Appeared);
    assert!(state.has_appeared());

    let triggered = state.on_appear();
    assert!(!triggered);

    let triggered = state.on_unlock();
    assert!(triggered);
    assert_eq!(state, FriendEventState::Unlocked);
    assert!(state.can_outing());

    for _ in 1..=5 {
        let ok = state.on_outing();
        assert!(ok);
    }
    assert_eq!(state, FriendEventState::Complete);
    assert!(!state.can_outing());
}

#[test]
fn test_friend_visibility() {
    assert!(!FriendEventState::NotAppear.is_visible(1));
    assert!(FriendEventState::NotAppear.is_visible(2));
    assert!(FriendEventState::Appeared.is_visible(2));
    assert!(!FriendEventState::Complete.is_visible(5));
}

#[test]
fn test_turn_special_feeling() {
    let expected: &[(i32, i32)] = &[
        (2, 2),
        (24, 2),
        (36, 2),
        (37, 1),
        (38, 1),
        (39, 1),
        (48, 2),
        (60, 2),
        (61, 1),
        (62, 1),
        (63, 1),
    ];
    for &(turn, amount) in expected {
        let result = get_turn_special_feeling(turn);
        assert_eq!(result, amount, "turn {turn}: wanted {amount}, got {result}");
    }
    let zero_turns = [0, 1, 3, 10, 23, 35, 47, 59, 64, 72];
    for turn in zero_turns {
        let result = get_turn_special_feeling(turn);
        assert_eq!(result, 0, "turn {turn}: wanted 0, got {result}");
    }
}

#[test]
fn test_assign_train_feeling_type() {
    let mut rng = StdRng::seed_from_u64(42);
    for _ in 0..5 {
        let types = assign_train_feeling_type(&mut rng);
        for (i, &ft) in types.iter().enumerate() {
            assert!((0..3).contains(&ft), "training {i} shows {ft}");
        }
    }

    let mut counts = [0u32; 3];
    let mut rng = StdRng::seed_from_u64(123);
    for _ in 0..1000 {
        let types = assign_train_feeling_type(&mut rng);
        for ft in types {
            counts[ft as usize] += 1;
        }
    }
    for &c in &counts {
        assert!(c > 1000, "uneven: {counts:?}");
        assert!(c < 2500, "uneven: {counts:?}");
    }
}

#[test]
fn test_event_ids() {
    assert_eq!(EVENT_FRIEND_APPEAR, 830305101);
    assert_eq!(EVENT_FRIEND_CLICK, 830305102);
    assert_eq!(EVENT_FRIEND_UNLOCK, 830305103);
}

#[test]
fn every_kind_shows_among_the_first_three() {
    for seed in 0..64 {
        let mut rng = StdRng::seed_from_u64(seed);
        let types = assign_train_feeling_type(&mut rng);
        let mut first = [types[0], types[1], types[2]];
        first.sort_unstable();
        assert_eq!(first, [0, 1, 2]);
    }
    assert_eq!(train_feeling_types([2, 0, 1], 1, 2), [2, 0, 1, 1, 2]);
}

#[test]
fn the_order_of_the_first_three_is_drawn() {
    let mut orders: Vec<[i32; 3]> = Vec::new();
    for seed in 0..64 {
        let mut rng = StdRng::seed_from_u64(seed);
        let types = assign_train_feeling_type(&mut rng);
        let order = [types[0], types[1], types[2]];
        if !orders.contains(&order) {
            orders.push(order);
        }
    }
    assert_eq!(orders.len(), 6);
}

#[test]
fn outings_before_they_open_and_after_they_end_do_nothing() {
    let mut state = FriendEventState::NotAppear;
    assert!(!state.on_outing());
    assert!(!state.on_unlock());
    assert_eq!(state, FriendEventState::NotAppear);
    let mut done = FriendEventState::Complete;
    assert!(!done.on_outing());
    assert_eq!(done, FriendEventState::Complete);
}

#[test]
fn kinds_come_in_every_order() {
    let mut orders = std::collections::BTreeSet::new();
    let mut rest = std::collections::BTreeSet::new();
    let mut rng = StdRng::seed_from_u64(9);
    for _ in 0..500 {
        let t = assign_train_feeling_type(&mut rng);
        orders.insert([t[0], t[1], t[2]]);
        rest.insert([t[3], t[4]]);
    }
    assert_eq!(orders.len(), 6);
    assert_eq!(rest.len(), 9);
}
