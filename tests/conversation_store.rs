use pana_core::commands::{clear_history, sync_history};
use pana_core::event::Event;
use pana_core::history::{make_turn_key, ASSISTANT_ROLE, HUMAN_ROLE};
use pana_core::store::{
    clear_tree, get_history, get_latest_adjacency_pairs, insert_adjacency_pair, newest_stamp,
    open_tree,
};

fn temp_tree() -> sled::Tree {
    let db = sled::Config::new().temporary(true).open().unwrap();
    open_tree(&db, "2024-05-01").unwrap()
}

fn append(tree: &sled::Tree, stamp: u64, human: &str, assistant: &str) {
    let hk = make_turn_key(stamp, HUMAN_ROLE);
    let ak = make_turn_key(stamp, ASSISTANT_ROLE);
    insert_adjacency_pair(&hk, human, &ak, assistant, tree).unwrap();
}

#[test]
fn full_history_returns_pairs_in_insertion_order() {
    let tree = temp_tree();
    append(&tree, 9, "hi", "hello");
    append(&tree, 10, "how are you", "fine");
    append(&tree, 1000, "bye", "see you");
    let h = get_history(&tree).unwrap();
    assert_eq!(
        h,
        vec![
            (0, "hi".to_string()),
            (1, "hello".to_string()),
            (0, "how are you".to_string()),
            (1, "fine".to_string()),
            (0, "bye".to_string()),
            (1, "see you".to_string()),
        ]
    );
}

#[test]
fn window_after_one_pair_is_that_pair() {
    let tree = temp_tree();
    append(&tree, 5, "question", "answer");
    let w: Vec<(String, String)> = get_latest_adjacency_pairs(&tree).unwrap().into_iter().collect();
    assert_eq!(
        w,
        vec![
            ("### Human".to_string(), "question".to_string()),
            ("### Pana".to_string(), "answer".to_string()),
        ]
    );
}

#[test]
fn window_after_three_pairs_is_last_two() {
    let tree = temp_tree();
    append(&tree, 1, "q1", "a1");
    append(&tree, 2, "q2", "a2");
    append(&tree, 3, "q3", "a3");
    let w: Vec<(String, String)> = get_latest_adjacency_pairs(&tree).unwrap().into_iter().collect();
    assert_eq!(
        w,
        vec![
            ("### Human".to_string(), "q2".to_string()),
            ("### Pana".to_string(), "a2".to_string()),
            ("### Human".to_string(), "q3".to_string()),
            ("### Pana".to_string(), "a3".to_string()),
        ]
    );
}

#[test]
fn window_of_empty_tree_is_empty() {
    let tree = temp_tree();
    assert!(get_latest_adjacency_pairs(&tree).unwrap().is_empty());
    assert!(get_history(&tree).unwrap().is_empty());
}

#[test]
fn clear_then_history_is_empty() {
    let tree = temp_tree();
    append(&tree, 1, "q1", "a1");
    append(&tree, 2, "q2", "a2");
    clear_tree(&tree).unwrap();
    assert!(get_history(&tree).unwrap().is_empty());
    clear_tree(&tree).unwrap();
    assert!(get_history(&tree).unwrap().is_empty());
}

#[test]
fn non_text_value_is_reported_corrupt() {
    let tree = temp_tree();
    tree.insert(b"000000000000000000010", vec![0xffu8, 0xfe]).unwrap();
    assert_eq!(get_history(&tree), Err(pana_core::error::CoreError::StorageCorrupt));
    assert_eq!(
        get_latest_adjacency_pairs(&tree).map(|w| w.len()),
        Err(pana_core::error::CoreError::StorageCorrupt)
    );
}

#[test]
fn sync_and_clear_history_events() {
    let tree = temp_tree();
    append(&tree, 7, "a", "b");
    let ev = sync_history(&tree).unwrap();
    assert_eq!(
        ev,
        Event::History { entries: vec![(0, "a".to_string()), (1, "b".to_string())] }
    );
    let cleared = clear_history(&tree).unwrap();
    assert_eq!(cleared, Event::Notification { message: "History cleared.".to_string() });
    assert_eq!(sync_history(&tree).unwrap(), Event::History { entries: vec![] });
}

#[test]
fn newest_stamp_reads_the_last_key() {
    let tree = temp_tree();
    assert_eq!(newest_stamp(&tree), Ok(None));
    append(&tree, 12, "a", "b");
    append(&tree, 345, "c", "d");
    assert_eq!(newest_stamp(&tree), Ok(Some(345)));
}
