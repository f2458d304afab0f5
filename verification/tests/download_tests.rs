use bibiocr::download::{
    check_complete, partial_file_name, plan_transfer, range_header, worker_checked, worker_fetched,
    worker_start, DownloadEvent, WorkerCommand,
};

#[test]
fn partial_file_keeps_the_extension_before_part() {
    assert_eq!(partial_file_name("model.gguf"), "model.gguf.part");
    assert_eq!(partial_file_name("tokens.txt"), "tokens.txt.part");
    assert_eq!(partial_file_name("model"), "model..part");
    assert_eq!(partial_file_name(".hidden"), ".hidden..part");
}

#[test]
fn range_header_asks_for_the_missing_tail() {
    assert_eq!(range_header(0), None);
    assert_eq!(range_header(128), Some("bytes=128-".to_owned()));
}

#[test]
fn transfer_resumes_only_on_partial_content() {
    let resumed = plan_transfer(206, 100, Some(50), 150);
    assert!(resumed.resumed);
    assert_eq!(resumed.downloaded, 100);
    assert_eq!(resumed.total, 150);
    let restarted = plan_transfer(200, 100, Some(150), 150);
    assert!(!restarted.resumed);
    assert_eq!(restarted.downloaded, 0);
    assert_eq!(restarted.total, 150);
    let unknown = plan_transfer(200, 0, None, 777);
    assert_eq!(unknown.total, 777);
}

#[test]
fn wrong_size_is_reported_with_both_counts() {
    assert_eq!(check_complete("a.onnx", 10, 10), Ok(()));
    assert_eq!(
        check_complete("a.onnx", 9, 10),
        Err("a.onnx has 9 bytes; expected 10".to_owned())
    );
}

#[test]
fn worker_finishes_after_the_last_model_and_stops_on_failure() {
    let first = worker_start(2);
    assert!(first.events.is_empty());
    assert_eq!(first.command, WorkerCommand::Check(0));
    let skipped = worker_checked(0, 2, true);
    assert!(matches!(skipped.events.as_slice(), [DownloadEvent::Complete(0)]));
    assert_eq!(skipped.command, WorkerCommand::Check(1));
    let fetching = worker_checked(1, 2, false);
    assert!(matches!(fetching.events.as_slice(), [DownloadEvent::Started(1)]));
    assert_eq!(fetching.command, WorkerCommand::Fetch(1));
    let done = worker_fetched(1, 2, Ok(()));
    assert!(matches!(
        done.events.as_slice(),
        [DownloadEvent::Complete(1), DownloadEvent::Finished]
    ));
    assert_eq!(done.command, WorkerCommand::Stop);
    let failed = worker_fetched(0, 2, Err("offline".to_owned()));
    assert!(matches!(failed.events.as_slice(), [DownloadEvent::Failed(0, message)] if message == "offline"));
    assert_eq!(failed.command, WorkerCommand::Stop);
    let empty = worker_start(0);
    assert!(matches!(empty.events.as_slice(), [DownloadEvent::Finished]));
    assert_eq!(empty.command, WorkerCommand::Stop);
}
