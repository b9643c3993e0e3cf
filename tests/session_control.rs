use pana_core::commands::{complete_inference, start_inference};
use pana_core::error::CoreError;
use pana_core::event::Event;
use pana_core::session::{InferenceSession, Phase};
use pana_core::slot::{download_failed_event, find_model, plan_download, DownloadPlan, DownloadSlot, LoadStep, ModelSlot};
use pana_core::store::{get_history, setup_tree};

#[test]
fn second_download_supersedes_first() {
    let mut slot: DownloadSlot<&str> = DownloadSlot::new();
    assert_eq!(slot.replace("A"), None);
    assert_eq!(slot.replace("B"), Some("A"));
    assert_eq!(slot.take(), Some("B"));
    assert_eq!(slot.take(), None);
    assert!(!slot.is_occupied());
}

#[test]
fn download_plan_rejects_unknown_model() {
    let catalog = vec!["alpha".to_string(), "beta".to_string(), "beta".to_string()];
    assert_eq!(find_model(&catalog, &"beta".to_string()), Some(1));
    match plan_download(&catalog, &"beta".to_string()) {
        DownloadPlan::Fetch(i) => assert_eq!(i, 1),
        DownloadPlan::Reject(_) => panic!("known model rejected"),
    }
    match plan_download(&catalog, &"gamma".to_string()) {
        DownloadPlan::Fetch(_) => panic!("unknown model accepted"),
        DownloadPlan::Reject(ev) => {
            assert_eq!(ev, Event::Error { message: "Model not found.".to_string() })
        }
    }
}

#[test]
fn failed_load_keeps_active_model() {
    let mut slot: ModelSlot<String> = ModelSlot::new();
    let ev = slot.load(LoadStep::Constructed("X".to_string())).unwrap();
    assert_eq!(ev, Event::Notification { message: "Model loaded.".to_string() });
    assert_eq!(slot.load(LoadStep::NotResolved), Err(CoreError::ModelResolutionFailed));
    assert_eq!(slot.active(), Some(&"X".to_string()));
    assert_eq!(slot.load(LoadStep::NotConstructed), Err(CoreError::ModelLoadFailed));
    assert_eq!(slot.active(), Some(&"X".to_string()));
    slot.load(LoadStep::Constructed("Y".to_string())).unwrap();
    assert_eq!(slot.active(), Some(&"Y".to_string()));
    let ev = slot.unload();
    assert_eq!(ev, Event::Notification { message: "Model unloaded.".to_string() });
    assert_eq!(slot.active(), None);
    slot.unload();
    assert_eq!(slot.active(), None);
}

#[test]
fn inference_without_model_reports_error_and_stores_nothing() {
    let db = sled::Config::new().temporary(true).open().unwrap();
    let r = start_inference(&db, "hello".to_string(), false).unwrap();
    match r {
        Ok(_) => panic!("a run started without a model"),
        Err(ev) => assert_eq!(ev, Event::Error { message: "No model loaded.".to_string() }),
    }
    let tree = setup_tree(&db).unwrap();
    assert!(get_history(&tree).unwrap().is_empty());
}

#[test]
fn cancellation_stops_stream_and_stores_nothing() {
    let db = sled::Config::new().temporary(true).open().unwrap();
    let mut run = start_inference(&db, "tell me".to_string(), true).unwrap().unwrap();
    assert_eq!(run.prompt, "### Human\ntell me\n### Pana\n");
    let first = run.session.on_fragment(false, "Once".to_string());
    assert_eq!(first, Some(Event::StreamFragment { text: "Once".to_string() }));
    assert_eq!(run.session.on_fragment(true, " upon".to_string()), None);
    assert_eq!(run.session.phase(), Phase::Cancelled);
    assert_eq!(run.session.on_fragment(false, " a time".to_string()), None);
    assert_eq!(run.session.reply(), "Once");
    assert!(complete_inference(&run.tree, &mut run.session).unwrap().is_none());
    assert!(get_history(&run.tree).unwrap().is_empty());
}

#[test]
fn finished_run_appends_its_exchange() {
    let db = sled::Config::new().temporary(true).open().unwrap();
    let mut run = start_inference(&db, "hi".to_string(), true).unwrap().unwrap();
    run.session.on_fragment(false, "hel".to_string());
    run.session.on_fragment(false, "lo".to_string());
    let appended = complete_inference(&run.tree, &mut run.session).unwrap().unwrap();
    assert_eq!(appended.after, None);
    assert_eq!(appended.pair.user_message, "hi");
    assert_eq!(appended.pair.pana_message, "hello");
    assert_eq!(run.session.phase(), Phase::Finished);
    assert_eq!(
        get_history(&run.tree).unwrap(),
        vec![(0, "hi".to_string()), (1, "hello".to_string())]
    );
    let mut next = start_inference(&db, "again".to_string(), true).unwrap().unwrap();
    assert_eq!(next.prompt, "### Human\nhi\n### Pana\nhello\n### Human\nagain\n### Pana\n");
    next.session.on_fragment(false, "ok".to_string());
    let second = complete_inference(&next.tree, &mut next.session).unwrap().unwrap();
    assert_eq!(second.after, Some(appended.stamp));
    assert!(second.stamp > appended.stamp);
    assert!(second.pair.user_key > appended.pair.pana_key);
    assert_eq!(
        get_history(&next.tree).unwrap(),
        vec![
            (0, "hi".to_string()),
            (1, "hello".to_string()),
            (0, "again".to_string()),
            (1, "ok".to_string()),
        ]
    );
}

#[test]
fn finish_keys_pair_by_stamp() {
    let mut s = InferenceSession::begin("q".to_string(), true).unwrap();
    s.on_fragment(false, "a".to_string());
    let pair = s.finish(42).unwrap();
    assert_eq!(pair.user_key, "000000000000000000420");
    assert_eq!(pair.pana_key, "000000000000000000421");
    assert_eq!(pair.user_message, "q");
    assert_eq!(pair.pana_message, "a");
    assert!(s.finish(43).is_none());
}

#[test]
fn download_failure_event_carries_detail() {
    assert_eq!(
        download_failed_event("timed out"),
        Event::Error { message: "Failed to download model: timed out".to_string() }
    );
}

#[test]
fn generator_failure_reports_error_once() {
    let mut s = InferenceSession::begin("q".to_string(), true).unwrap();
    let ev = s.fail("out of memory");
    assert_eq!(ev, Some(Event::Error { message: "Inference failed: out of memory".to_string() }));
    assert_eq!(s.phase(), Phase::Failed);
    assert_eq!(s.fail("again"), None);
    assert!(s.finish(1).is_none());
}
