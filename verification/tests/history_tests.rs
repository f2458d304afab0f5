use bibiocr::v6::error_chain;
use bibiocr::history::{
    add_pending, add_result, complete, file_name, legacy_ocr_engine, legacy_tts_revision, matches_query, remove,
    result_title, set_stage, ScanRecord, ScanStage,
};
use bibiocr::settings::OcrEngine;

fn record(id: u64, title: &str, image_path: &str, markdown: &str) -> ScanRecord {
    ScanRecord {
        id,
        title: title.to_owned(),
        created_unix: id,
        image_path: image_path.to_owned(),
        markdown: markdown.to_owned(),
        stage: ScanStage::Complete,
        tts_revision: 0,
        ocr_engine: OcrEngine::PaddleV6,
    }
}

#[test]
fn search_finds_document_text_and_image_name() {
    let record = ScanRecord {
        id: 1,
        title: "Quarterly report".to_owned(),
        created_unix: 1,
        image_path: "meeting-photo.png".into(),
        markdown: "# Notes\n\n合同金额 10 元".to_owned(),
        stage: ScanStage::Complete,
        tts_revision: 0,
        ocr_engine: OcrEngine::PaddleV6,
    };
    assert!(matches_query(&record, "quarterly"));
    assert!(matches_query(&record, "合同金额"));
    assert!(matches_query(&record, "PHOTO"));
    assert!(!matches_query(&record, "invoice"));
}

#[test]
fn real_results_persist_and_can_be_deleted() {
    let mut records = Vec::<ScanRecord>::new();
    add_result(
        &mut records,
        7,
        "/tmp/bibiocr-history/photo.jpg".to_owned(),
        "# Invoice\n\nTotal: 10".to_owned(),
    );
    records[0].tts_revision = 1;
    assert_eq!(records[0].title, "Invoice");
    assert_eq!(records[0].tts_revision, 1);
    assert!(remove(&mut records, 7));
    assert!(records.is_empty());
}

#[test]
fn interrupted_scan_survives_restart_and_completes_once() {
    let mut records = Vec::new();
    add_pending(
        &mut records,
        17,
        "/tmp/bibiocr-pending/photo.jpg".to_owned(),
        OcrEngine::PaddleV6,
    );
    assert_eq!(records[0].stage, ScanStage::Captured);
    assert_eq!(records[0].title, "photo.jpg");
    set_stage(&mut records, 17, ScanStage::LayoutDone);
    assert_eq!(records[0].stage, ScanStage::LayoutDone);
    complete(&mut records, 17, "# Done".to_owned());
    assert_eq!(records.len(), 1);
    assert_eq!(records[0].stage, ScanStage::Complete);
    assert_eq!(records[0].title, "Done");
    assert_eq!(records[0].markdown, "# Done");
}

#[test]
fn old_history_records_default_to_complete() {
    assert_eq!(ScanStage::default(), ScanStage::Complete);
    assert_eq!(legacy_tts_revision(), 0);
    assert_eq!(legacy_ocr_engine(), OcrEngine::PaddleVl16);
}

#[test]
fn pending_scan_remembers_which_ocr_engine_was_selected() {
    let mut records = Vec::new();
    add_pending(&mut records, 42, "photo.jpg".into(), OcrEngine::PaddleV6);
    assert_eq!(records[0].ocr_engine, OcrEngine::PaddleV6);
    add_pending(&mut records, 43, "photo.jpg".into(), OcrEngine::PaddleVl16);
    assert_eq!(records[0].ocr_engine, OcrEngine::PaddleVl16);
    assert_eq!(records[1].id, 42);
}

#[test]
fn titles_skip_heading_marks_and_blank_lines_and_stop_at_sixty_characters() {
    assert_eq!(result_title("\n\n  ## Heading  \nbody"), "Heading");
    assert_eq!(result_title(""), "OCR");
    assert_eq!(result_title("###\n   \n"), "OCR");
    let long = "字".repeat(70);
    assert_eq!(result_title(&long), "字".repeat(60));
}

#[test]
fn pending_title_is_the_photo_file_name() {
    assert_eq!(file_name("/data/scans/a.jpg"), Some("a.jpg".to_owned()));
    assert_eq!(file_name("dir/sub/"), Some("sub".to_owned()));
    assert_eq!(file_name("/"), None);
    assert_eq!(file_name("a/.."), None);
    let mut records = Vec::new();
    add_pending(&mut records, 1, "/".to_owned(), OcrEngine::PaddleV6);
    assert_eq!(records[0].title, "Photo");
}

#[test]
fn removing_an_unknown_id_changes_nothing() {
    let mut records = vec![record(1, "a", "a.jpg", ""), record(2, "b", "b.jpg", "")];
    assert!(!remove(&mut records, 3));
    assert_eq!(records.len(), 2);
    assert!(remove(&mut records, 1));
    assert_eq!(records.len(), 1);
    assert_eq!(records[0].id, 2);
}

#[test]
fn stage_changes_touch_only_the_first_record_with_the_id() {
    let mut records = vec![record(5, "a", "a.jpg", ""), record(6, "b", "b.jpg", "")];
    set_stage(&mut records, 6, ScanStage::Captured);
    assert_eq!(records[0].stage, ScanStage::Complete);
    assert_eq!(records[1].stage, ScanStage::Captured);
    set_stage(&mut records, 9, ScanStage::LayoutDone);
    assert_eq!(records[0].stage, ScanStage::Complete);
    assert_eq!(records[1].stage, ScanStage::Captured);
}

#[test]
fn an_empty_query_matches_every_record() {
    let r = record(1, "x", "y.png", "z");
    assert!(matches_query(&r, "   "));
    assert!(matches_query(&r, "Y.PNG"));
}

#[test]
fn error_chains_join_each_cause() {
    assert_eq!(
        error_chain(&["load failed".to_owned(), "file missing".to_owned(), "os error 2".to_owned()]),
        "load failed: file missing: os error 2"
    );
    assert_eq!(error_chain(&["only".to_owned()]), "only");
}
