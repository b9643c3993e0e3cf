use std::collections::VecDeque;

use pana_core::date::{stamp_of_time, tree_name, CivilDate};
use pana_core::error::CoreError;
use pana_core::history::{
    build_prompt, history_from_entries, key_role, make_turn_key, next_stamp, role_label,
    stamp_of_key, stamp_of_latest, window_from_latest, ASSISTANT_ROLE, HUMAN_ROLE,
};

#[test]
fn turn_keys_are_fixed_width_with_role_marker() {
    assert_eq!(make_turn_key(420, HUMAN_ROLE), "000000000000000004200");
    assert_eq!(make_turn_key(420, ASSISTANT_ROLE), "000000000000000004201");
    assert_eq!(make_turn_key(u64::MAX, HUMAN_ROLE), "184467440737095516150");
    assert!(make_turn_key(99, ASSISTANT_ROLE) < make_turn_key(100, HUMAN_ROLE));
}

#[test]
fn key_role_reads_the_trailing_marker() {
    assert_eq!(key_role(b"20240101120"), Ok(0));
    assert_eq!(key_role(b"20240101121"), Ok(1));
    assert_eq!(key_role(b""), Ok(1));
    assert_eq!(key_role(&[0xc3]), Err(CoreError::StorageCorrupt));
}

#[test]
fn history_from_entries_decodes_in_order() {
    let entries = vec![
        (b"10".to_vec(), "héllo".as_bytes().to_vec()),
        (b"11".to_vec(), b"world".to_vec()),
    ];
    assert_eq!(
        history_from_entries(&entries),
        Ok(vec![(0, "héllo".to_string()), (1, "world".to_string())])
    );
    let bad = vec![(vec![0xffu8], b"x".to_vec())];
    assert_eq!(history_from_entries(&bad), Err(CoreError::StorageCorrupt));
}

#[test]
fn window_from_latest_restores_chronological_order() {
    let newest_first = vec![
        (b"21".to_vec(), b"a2".to_vec()),
        (b"20".to_vec(), b"q2".to_vec()),
        (b"11".to_vec(), b"a1".to_vec()),
    ];
    let w: Vec<(String, String)> = window_from_latest(&newest_first).unwrap().into_iter().collect();
    assert_eq!(
        w,
        vec![
            ("### Pana".to_string(), "a1".to_string()),
            ("### Human".to_string(), "q2".to_string()),
            ("### Pana".to_string(), "a2".to_string()),
        ]
    );
}

#[test]
fn prompt_interleaves_window_and_message() {
    let mut w = VecDeque::new();
    w.push_back(("### Human".to_string(), "hi".to_string()));
    w.push_back(("### Pana".to_string(), "hello".to_string()));
    assert_eq!(
        build_prompt(&w, "how are you"),
        "### Human\nhi\n### Pana\nhello\n### Human\nhow are you\n### Pana\n"
    );
    assert_eq!(build_prompt(&VecDeque::new(), "x"), "### Human\nx\n### Pana\n");
}

#[test]
fn role_labels() {
    assert_eq!(role_label(HUMAN_ROLE), "### Human");
    assert_eq!(role_label(ASSISTANT_ROLE), "### Pana");
}

#[test]
fn tree_names_follow_year_month_day() {
    assert_eq!(tree_name(CivilDate { year: 2024, month: 3, day: 7 }), "2024-03-07");
    assert_eq!(tree_name(CivilDate { year: 987, month: 12, day: 31 }), "0987-12-31");
    assert_eq!(tree_name(CivilDate { year: 12345, month: 1, day: 1 }), "+12345-01-01");
    assert_eq!(tree_name(CivilDate { year: -44, month: 3, day: 15 }), "-0044-03-15");
}

#[test]
fn clock_readings_become_microsecond_stamps() {
    assert_eq!(stamp_of_time(Some((1_700_000_000, 123_456_789))), 1_700_000_000_123_456);
    assert_eq!(stamp_of_time(Some((0, 999))), 0);
    assert_eq!(stamp_of_time(None), 0);
    assert_eq!(stamp_of_time(Some((18_446_744_073_708, 999_999_999))), 18_446_744_073_708_999_999);
    assert_eq!(stamp_of_time(Some((18_446_744_073_709, 0))), 0);
}

#[test]
fn stamp_of_latest_reads_first_entry() {
    let latest = vec![
        (make_turn_key(77, ASSISTANT_ROLE).into_bytes(), b"a".to_vec()),
        (make_turn_key(5, HUMAN_ROLE).into_bytes(), b"q".to_vec()),
    ];
    assert_eq!(stamp_of_latest(&latest), Some(77));
    assert_eq!(stamp_of_latest(&vec![]), None);
    assert_eq!(stamp_of_latest(&vec![(b"2024".to_vec(), b"x".to_vec())]), None);
}

#[test]
fn error_messages() {
    assert_eq!(CoreError::NoModelLoaded.message(), "No model loaded.");
    assert_eq!(CoreError::ModelResolutionFailed.message(), "Failed to resolve the model.");
    assert_eq!(CoreError::StorageCorrupt.message(), "Storage holds an entry that is not valid text.");
}

#[test]
fn stamp_of_key_reads_written_keys() {
    assert_eq!(stamp_of_key(make_turn_key(420, HUMAN_ROLE).as_bytes()), Some(420));
    assert_eq!(stamp_of_key(make_turn_key(u64::MAX, ASSISTANT_ROLE).as_bytes()), Some(u64::MAX));
    assert_eq!(stamp_of_key(b"99999999999999999999" as &[u8]), None);
    assert_eq!(stamp_of_key(b"999999999999999999990"), None);
    assert_eq!(stamp_of_key(b"0000000000000000004a0"), None);
    assert_eq!(stamp_of_key(b"2024-05-01"), None);
}

#[test]
fn next_stamp_moves_past_newest() {
    assert_eq!(next_stamp(100, None), 100);
    assert_eq!(next_stamp(100, Some(50)), 100);
    assert_eq!(next_stamp(100, Some(100)), 101);
    assert_eq!(next_stamp(100, Some(500)), 501);
    assert_eq!(next_stamp(0, Some(u64::MAX)), u64::MAX);
}
