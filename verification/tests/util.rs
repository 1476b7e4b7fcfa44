use emote_shuffler::util::{gen_temp_name, shuffle_slice};

#[test]
fn temp_name_has_the_requested_length() {
    for len in [0, 1, 16, 64] {
        let name = gen_temp_name(len);
        assert_eq!(name.chars().count(), len);
    }
}

#[test]
fn temp_name_is_alphanumeric() {
    let name = gen_temp_name(256);
    assert!(name.chars().all(|c| c.is_ascii_alphanumeric()));
}

#[test]
fn two_long_temp_names_differ() {
    // 64 alphanumeric characters collide with negligible probability.
    assert_ne!(gen_temp_name(64), gen_temp_name(64));
}

#[test]
fn shuffle_keeps_exactly_the_elements() {
    let original: Vec<u32> = (0..50).collect();
    let mut shuffled = original.clone();
    shuffle_slice(&mut shuffled);
    assert_eq!(shuffled.len(), original.len());
    let mut sorted = shuffled.clone();
    sorted.sort();
    assert_eq!(sorted, original);
}

#[test]
fn shuffle_of_empty_and_single_is_trivial() {
    let mut empty: Vec<u8> = Vec::new();
    shuffle_slice(&mut empty);
    assert!(empty.is_empty());
    let mut single = vec![7u8];
    shuffle_slice(&mut single);
    assert_eq!(single, vec![7u8]);
}

#[test]
fn shuffle_eventually_reorders() {
    // Twenty elements stay in their original order with probability
    // 1/20!; ten attempts failing means the shuffle is inert.
    let original: Vec<u32> = (0..20).collect();
    let mut moved = false;
    for _ in 0..10 {
        let mut shuffled = original.clone();
        shuffle_slice(&mut shuffled);
        if shuffled != original {
            moved = true;
            break;
        }
    }
    assert!(moved, "shuffling never changed the order");
}
