use bibiocr::catalog::Screen;
use bibiocr::download::DownloadEvent;
use bibiocr::history::{ScanRecord, ScanStage};
use bibiocr::screens::{
    bytes_of, needs_original, opening_events, prompt_result, reading_end, reading_step,
    recognition_outcome, ReadingStep, reading_counter, record_caption, resume_step_key, shown_records,
    swiped_page, swiped_tab, DownloadBoard, MobileState, ModelStatus, OpenStep, Page,
    ReadingEvent, RecognitionEvent, ResultTab, ScanProgress, StepState, Swipe,
};
use bibiocr::settings::{language_choice, OcrEngine};

fn pending(id: u64, image_path: &str, engine: OcrEngine, stage: ScanStage) -> ScanRecord {
    ScanRecord {
        id,
        title: "photo.jpg".to_owned(),
        created_unix: id,
        image_path: image_path.to_owned(),
        markdown: String::new(),
        stage,
        tts_revision: 0,
        ocr_engine: engine,
    }
}

fn following(generation: u64, record_id: Option<u64>) -> MobileState {
    let mut state = MobileState::opening(Screen::History);
    state.page = Page::Recognizing;
    state.scan.active = true;
    state.scan.generation = generation;
    state.scan.record_id = record_id;
    state
}

#[test]
fn the_app_opens_on_download_until_the_models_are_installed() {
    let state = MobileState::opening(Screen::Download);
    assert_eq!(state.page, Page::Download);
    assert!(!state.scan.active);
    assert_eq!(state.scan.progress, ScanProgress::Waiting);
    assert_eq!(state.scan.tab, ResultTab::Preview);
    assert!(!state.reader.active);
    assert_eq!(MobileState::opening(Screen::History).page, Page::History);
}

#[test]
fn a_fresh_board_shows_installed_files_as_complete() {
    let board = DownloadBoard::fresh(&[true, false, false, true, false, false], false);
    assert_eq!(board.status[0], ModelStatus::Complete);
    assert_eq!(board.status[1], ModelStatus::Waiting);
    assert_eq!(board.progress[0], (935_769_056, 935_769_056));
    assert_eq!(board.progress[1], (0, 881_770_560));
    assert_eq!(board.progress[3], (170_429_550, 170_429_550));
    assert!(board.error.is_none());
    assert!(!board.running);
}

#[test]
fn download_events_move_the_board() {
    let mut board = DownloadBoard::fresh(&[false; 6], true);
    board.apply(DownloadEvent::Started(5));
    assert_eq!(board.status[5], ModelStatus::Downloading);
    board.apply(DownloadEvent::Progress(5, 300, 655));
    assert_eq!(board.progress[5], (300, 655));
    board.apply(DownloadEvent::Complete(5));
    assert_eq!(board.status[5], ModelStatus::Complete);
    assert_eq!(board.progress[5], (655, 655));
    assert!(board.running);
    board.apply(DownloadEvent::Failed(2, "network down".to_owned()));
    assert_eq!(board.status[2], ModelStatus::Failed);
    assert_eq!(board.error.as_deref(), Some("network down"));
    assert!(!board.running);
    let mut finished = DownloadBoard::fresh(&[true; 6], true);
    finished.apply(DownloadEvent::Finished);
    assert!(!finished.running);
    assert_eq!(finished.status[4], ModelStatus::Complete);
}

#[test]
fn the_download_total_adds_up_the_shown_files() {
    let mut board = DownloadBoard::fresh(&[false, false, true, false, false, false], true);
    board.apply(DownloadEvent::Progress(0, 1_048_576, 935_769_056));
    assert_eq!(board.overall(&[0, 2]), (1_048_576 + 130_502_049, 935_769_056 + 130_502_049));
    assert_eq!(board.overall(&[]), (0, 0));
    assert_eq!(bytes_of(1_048_576, 2_147_483_648), "1.0 MB / 2.0 GB");
    assert_eq!(bytes_of(0, 655), "0 B / 655 B");
}

#[test]
fn progress_bar_steps() {
    assert_eq!(ScanProgress::Waiting.percent(), 0);
    assert_eq!(ScanProgress::Started.percent(), 10);
    assert_eq!(ScanProgress::Layout.percent(), 35);
    assert_eq!(ScanProgress::Ocr.percent(), 65);
    assert_eq!(ScanProgress::Streaming.percent(), 80);
    assert_eq!(ScanProgress::Done.percent(), 100);
}

#[test]
fn events_of_a_cancelled_run_change_nothing() {
    let mut records = vec![pending(7, "a.jpg", OcrEngine::PaddleVl16, ScanStage::Captured)];
    let mut state = following(8, Some(7));
    let save = state.on_recognition_event(
        &mut records,
        7,
        RecognitionEvent::Complete("stale".to_owned()),
    );
    assert!(!save);
    assert!(state.scan.active);
    assert_eq!(state.page, Page::Recognizing);
    assert_eq!(state.scan.markdown, "");
    assert_eq!(records[0].stage, ScanStage::Captured);

    state.cancel_recognition();
    assert_eq!(state.page, Page::History);
    let save = state.on_recognition_event(&mut records, 8, RecognitionEvent::Layout);
    assert!(!save);
    assert_eq!(state.scan.progress, ScanProgress::Waiting);
}

#[test]
fn a_vl_scan_remembers_that_its_layout_pass_is_done() {
    let mut records = vec![pending(7, "a.jpg", OcrEngine::PaddleVl16, ScanStage::Captured)];
    let mut state = following(1, Some(7));
    assert!(!state.on_recognition_event(&mut records, 1, RecognitionEvent::Layout));
    assert_eq!(state.scan.progress, ScanProgress::Layout);
    assert!(state.on_recognition_event(&mut records, 1, RecognitionEvent::Ocr));
    assert_eq!(state.scan.progress, ScanProgress::Ocr);
    assert_eq!(records[0].stage, ScanStage::LayoutDone);

    let mut v6 = vec![pending(9, "b.jpg", OcrEngine::PaddleV6, ScanStage::Captured)];
    let mut state = following(1, Some(9));
    assert!(!state.on_recognition_event(&mut v6, 1, RecognitionEvent::Ocr));
    assert_eq!(v6[0].stage, ScanStage::Captured);
}

#[test]
fn streamed_text_and_the_finished_result() {
    let mut records = vec![pending(7, "a.jpg", OcrEngine::PaddleV6, ScanStage::Captured)];
    let mut state = following(3, Some(7));
    state.on_recognition_event(&mut records, 3, RecognitionEvent::Token("# Ti".to_owned()));
    state.on_recognition_event(&mut records, 3, RecognitionEvent::Token("tle".to_owned()));
    assert_eq!(state.scan.streamed, "# Title");
    assert_eq!(state.scan.progress, ScanProgress::Streaming);
    let save = state.on_recognition_event(
        &mut records,
        3,
        RecognitionEvent::Complete("# Title\n\n<b>bold</b> text".to_owned()),
    );
    assert!(save);
    assert!(!state.scan.active);
    assert_eq!(state.scan.progress, ScanProgress::Done);
    assert_eq!(state.scan.streamed, "");
    assert_eq!(state.page, Page::Result);
    assert!(!state.scan.markdown.contains("<b>"));
    assert!(state.scan.markdown.contains("bold"));
    assert_eq!(records[0].markdown, state.scan.markdown);
    assert_eq!(records[0].stage, ScanStage::Complete);
    assert_eq!(records[0].title, "Title");
}

#[test]
fn a_failed_run_keeps_its_error() {
    let mut records = Vec::new();
    let mut state = following(2, None);
    let save = state.on_recognition_event(
        &mut records,
        2,
        RecognitionEvent::Failed("OCR returned no text".to_owned()),
    );
    assert!(!save);
    assert!(!state.scan.active);
    assert_eq!(state.scan.error.as_deref(), Some("OCR returned no text"));
    assert_eq!(state.page, Page::Recognizing);
}

#[test]
fn capturing_waits_for_a_running_scan() {
    let mut state = following(1, None);
    state.page = Page::History;
    assert!(!state.open_capture());
    assert_eq!(state.page, Page::Recognizing);

    let mut idle = MobileState::opening(Screen::History);
    idle.notice = Some("old".to_owned());
    idle.scan.error = Some("old error".to_owned());
    assert!(idle.open_capture());
    assert_eq!(idle.page, Page::Recognizing);
    assert!(idle.notice.is_none());
    assert!(idle.scan.error.is_none());

    idle.capture_closed(None);
    assert_eq!(idle.page, Page::History);
    assert!(idle.notice.is_none());
    idle.capture_closed(Some("camera failed".to_owned()));
    assert_eq!(idle.notice.as_deref(), Some("camera failed"));
}

#[test]
fn a_new_photo_gets_a_pending_record_and_an_unfinished_one_resumes() {
    let mut records = Vec::new();
    let mut state = MobileState::opening(Screen::History);
    let plan = state.begin_recognition(&mut records, "scans/p.jpg", 40, OcrEngine::PaddleVl16);
    assert!(plan.new_record);
    assert!(plan.run_layout);
    assert_eq!(plan.engine, OcrEngine::PaddleVl16);
    assert_eq!(records.len(), 1);
    assert_eq!(records[0].id, 40);
    assert_eq!(records[0].stage, ScanStage::Captured);
    assert_eq!(records[0].title, "p.jpg");
    assert_eq!(state.scan.record_id, Some(40));

    records[0].stage = ScanStage::LayoutDone;
    let plan = state.begin_recognition(&mut records, "scans/p.jpg", 41, OcrEngine::PaddleV6);
    assert!(!plan.new_record);
    assert!(!plan.run_layout);
    assert_eq!(plan.engine, OcrEngine::PaddleVl16);
    assert_eq!(records.len(), 1);

    let plan = state.begin_recognition(&mut records, "scans/other.jpg", 42, OcrEngine::PaddleV6);
    assert!(plan.new_record);
    assert_eq!(records[0].id, 42);
    assert_eq!(state.scan.record_id, Some(42));
}

#[test]
fn a_run_starts_only_with_its_models_installed() {
    let mut state = MobileState::opening(Screen::History);
    state.scan.generation = 5;
    assert!(!state.launch_recognition(true));
    assert_eq!(state.page, Page::Download);
    assert!(!state.scan.active);
    assert_eq!(state.scan.generation, 5);
    assert!(state.launch_recognition(false));
    assert_eq!(state.page, Page::Recognizing);
    assert!(state.scan.active);
    assert_eq!(state.scan.generation, 6);
    assert_eq!(state.scan.progress, ScanProgress::Started);

    state.scan.generation = u64::MAX;
    assert!(state.launch_recognition(false));
    assert_eq!(state.scan.generation, 0);

    state.recognition_unsaved("disk full".to_owned());
    assert_eq!(state.scan.error.as_deref(), Some("disk full"));
    assert_eq!(state.page, Page::Recognizing);
}

#[test]
fn reading_runs_once_and_follows_its_sentences() {
    let mut state = MobileState::opening(Screen::History);
    assert!(!state.start_reading(0));
    assert_eq!(state.notice.as_deref(), Some("There is no text to read"));
    assert!(state.start_reading(3));
    assert!(state.notice.is_none());
    assert!(state.reader.active && state.reader.preparing);
    assert!(!state.start_reading(3));

    state.on_reading_event(ReadingEvent::Sentence(0));
    assert_eq!(state.reader.current, Some(0));
    assert!(!state.reader.preparing);
    assert!(state.reader.follow);
    state.on_reading_event(ReadingEvent::SentenceDone(0));
    assert_eq!(state.reader.done, 1);
    assert_eq!(state.reader.current, None);
    assert!(state.reader.preparing);
    state.on_reading_event(ReadingEvent::Finished(Err(
        "Melo TTS could not read any segment".to_owned(),
    )));
    assert!(!state.reader.active);
    assert_eq!(state.notice.as_deref(), Some("Melo TTS could not read any segment"));

    state.on_reading_event(ReadingEvent::Sentence(2));
    assert_eq!(state.reader.current, None);
    assert_eq!(state.reader.done, 1);
}

#[test]
fn regenerating_speech_moves_to_a_new_revision() {
    let mut records = vec![pending(7, "a.jpg", OcrEngine::PaddleV6, ScanStage::Complete)];
    let mut state = MobileState::opening(Screen::History);

    assert_eq!(state.regenerate_reading(&mut records, false), None);
    assert_eq!(
        state.notice.as_deref(),
        Some("Download the Melo Chinese-English TTS files first")
    );
    assert_eq!(state.regenerate_reading(&mut records, true), None);
    assert_eq!(state.notice.as_deref(), Some("No saved scan record"));

    state.scan.record_id = Some(7);
    state.notice = None;
    assert_eq!(state.regenerate_reading(&mut records, true), Some((0, 0)));
    assert_eq!(records[0].tts_revision, 1);
    state.restore_revision(&mut records, 0, 0, "disk full".to_owned());
    assert_eq!(records[0].tts_revision, 0);
    assert_eq!(state.notice.as_deref(), Some("disk full"));

    records[0].tts_revision = u64::MAX;
    assert_eq!(state.regenerate_reading(&mut records, true), None);
    assert_eq!(state.notice.as_deref(), Some("TTS revision limit reached"));

    state.reader.active = true;
    state.notice = None;
    records[0].tts_revision = 3;
    assert_eq!(state.regenerate_reading(&mut records, true), None);
    assert_eq!(records[0].tts_revision, 3);
    assert!(state.notice.is_none());
}

#[test]
fn opening_a_record_stops_the_reading_and_switches_engines_when_needed() {
    let done = pending(1, "a.jpg", OcrEngine::PaddleVl16, ScanStage::Complete);
    let unfinished = pending(2, "b.jpg", OcrEngine::PaddleVl16, ScanStage::Captured);

    let mut state = MobileState::opening(Screen::History);
    state.reader.active = true;
    state.reader.current = Some(4);
    assert_eq!(state.open_record(&done, OcrEngine::PaddleV6), OpenStep::Show);
    assert!(!state.reader.active);
    assert_eq!(state.reader.current, None);
    assert_eq!(
        state.open_record(&unfinished, OcrEngine::PaddleV6),
        OpenStep::SwitchEngine(OcrEngine::PaddleVl16)
    );
    assert_eq!(state.open_record(&unfinished, OcrEngine::PaddleVl16), OpenStep::Show);

    let mut busy = following(1, None);
    busy.page = Page::History;
    assert_eq!(busy.open_record(&done, OcrEngine::PaddleV6), OpenStep::Busy);
    assert_eq!(busy.page, Page::Recognizing);
}

#[test]
fn showing_a_record_cleans_its_markdown_once() {
    let mut stored = pending(1, "a.jpg", OcrEngine::PaddleV6, ScanStage::Complete);
    stored.markdown = "# Note\n\n<b>x</b> y".to_owned();
    let mut records = vec![stored.clone()];
    let mut state = MobileState::opening(Screen::History);
    assert_eq!(state.show_record(&mut records, &stored), (true, false));
    assert_eq!(state.page, Page::Result);
    assert_eq!(state.scan.record_id, Some(1));
    assert!(!state.scan.markdown.contains("<b>"));
    assert_eq!(records[0].markdown, state.scan.markdown);

    let clean = records[0].clone();
    assert_eq!(state.show_record(&mut records, &clean), (false, false));

    let unfinished = pending(2, "b.jpg", OcrEngine::PaddleV6, ScanStage::LayoutDone);
    let mut state = MobileState::opening(Screen::History);
    assert_eq!(state.show_record(&mut records, &unfinished), (false, true));
    assert_eq!(state.page, Page::History);
}

#[test]
fn switching_engines_goes_to_the_download_page_only_when_files_are_missing() {
    let mut state = MobileState::opening(Screen::History);
    assert!(state.engine_switched(false));
    assert_eq!(state.page, Page::Download);
    assert!(!state.engine_switched(true));
    assert_eq!(state.page, Page::History);
    state.page = Page::Settings;
    assert!(!state.engine_switched(true));
    assert_eq!(state.page, Page::Settings);
}

#[test]
fn swipes_move_between_download_and_history_only() {
    assert_eq!(swiped_page(Page::Download, Some(Swipe::Leftward)), Page::History);
    assert_eq!(swiped_page(Page::History, Some(Swipe::Leftward)), Page::History);
    assert_eq!(swiped_page(Page::History, Some(Swipe::Rightward)), Page::Download);
    assert_eq!(swiped_page(Page::History, None), Page::History);
    assert_eq!(swiped_page(Page::Result, Some(Swipe::Leftward)), Page::Result);
}

#[test]
fn the_settings_page_shows_system_or_a_catalogue_code() {
    assert_eq!(language_choice("SYSTEM"), "system");
    assert_eq!(language_choice("zh-Hans-CN"), "zh-CN");
    assert_eq!(language_choice("fr_CA"), "fr");
}

#[test]
fn the_history_list_shows_the_matching_records_in_order() {
    let mut a = pending(1, "scans/receipt.jpg", OcrEngine::PaddleV6, ScanStage::Complete);
    a.title = "Receipt".to_owned();
    let mut b = pending(2, "scans/letter.png", OcrEngine::PaddleV6, ScanStage::Complete);
    b.title = "Letter".to_owned();
    b.markdown = "Dear receipt holder".to_owned();
    let c = pending(3, "scans/other.png", OcrEngine::PaddleV6, ScanStage::Complete);
    let records = vec![a, b, c];
    assert_eq!(shown_records(&records, "RECEIPT"), vec![0, 1]);
    assert_eq!(shown_records(&records, "  "), vec![0, 1, 2]);
    assert_eq!(shown_records(&records, "other"), vec![2]);
    assert_eq!(shown_records(&records, "missing"), Vec::<usize>::new());
}

#[test]
fn record_cards_name_the_engine_and_the_photo() {
    let record = pending(1, "/data/scans/receipt.jpg", OcrEngine::PaddleVl16, ScanStage::Complete);
    assert_eq!(record_caption(&record), "PaddleOCR-VL 1.6 · receipt.jpg");
    let nameless = pending(1, "/data/..", OcrEngine::PaddleV6, ScanStage::Complete);
    assert_eq!(record_caption(&nameless), "PP-OCRv6 · ONNX · image");
    assert_eq!(resume_step_key(ScanStage::LayoutDone), "mobile_step_ocr");
    assert_eq!(resume_step_key(ScanStage::Captured), "mobile_step_layout");
}

#[test]
fn recognition_steps_follow_the_progress() {
    let mut state = following(1, None);
    state.scan.progress = ScanProgress::Layout;
    assert_eq!(state.scan.steps(false), (StepState::Active, StepState::Pending));
    assert_eq!(state.scan.steps(true), (StepState::Pending, StepState::Pending));
    state.scan.progress = ScanProgress::Streaming;
    assert_eq!(state.scan.steps(false), (StepState::Done, StepState::Active));
    state.scan.active = false;
    state.scan.progress = ScanProgress::Done;
    assert_eq!(state.scan.steps(false), (StepState::Done, StepState::Pending));
    state.scan.progress = ScanProgress::Started;
    assert_eq!(state.scan.steps(false), (StepState::Pending, StepState::Pending));
}

#[test]
fn result_page_details() {
    assert_eq!(swiped_tab(ResultTab::Preview, Swipe::Leftward), ResultTab::Edit);
    assert_eq!(swiped_tab(ResultTab::Preview, Swipe::Rightward), ResultTab::Preview);
    assert_eq!(swiped_tab(ResultTab::Compare, Swipe::Rightward), ResultTab::Edit);
    assert_eq!(swiped_tab(ResultTab::Edit, Swipe::Leftward), ResultTab::Edit);
    assert!(needs_original(ResultTab::Compare, ""));
    assert!(needs_original(ResultTab::Preview, "text ![Image](imgs/a.jpg)"));
    assert!(!needs_original(ResultTab::Preview, "plain text"));
    assert!(!needs_original(ResultTab::Edit, "![Image](imgs/a.jpg)"));
    assert_eq!(reading_counter(3, 12), "3/12");
    assert_eq!(reading_counter(0, 0), "0/1");
}

#[test]
fn a_prompt_answers_its_error_first() {
    assert_eq!(
        prompt_result(Some("denied".to_owned()), Some("x".to_owned())),
        Err("denied".to_owned())
    );
    assert_eq!(prompt_result(None, None), Ok(None));
    assert_eq!(
        prompt_result(None, Some("/data/scan.jpg".to_owned())),
        Ok(Some("/data/scan.jpg".to_owned()))
    );
}

#[test]
fn a_run_reports_its_passes_then_its_outcome() {
    let v6 = opening_events(OcrEngine::PaddleV6, false);
    assert!(matches!(v6.as_slice(), [RecognitionEvent::Layout, RecognitionEvent::Ocr]));
    let vl = opening_events(OcrEngine::PaddleVl16, true);
    assert!(matches!(vl.as_slice(), [RecognitionEvent::Layout]));
    assert!(opening_events(OcrEngine::PaddleVl16, false).is_empty());

    assert!(matches!(
        recognition_outcome(OcrEngine::PaddleV6, Ok("  \n".to_owned())),
        RecognitionEvent::Failed(e) if e == "OCR returned no text"
    ));
    assert!(matches!(
        recognition_outcome(OcrEngine::PaddleVl16, Ok("  \n".to_owned())),
        RecognitionEvent::Complete(m) if m == "  \n"
    ));
    assert!(matches!(
        recognition_outcome(OcrEngine::PaddleVl16, Ok(String::new())),
        RecognitionEvent::Failed(e) if e == "OCR returned no text"
    ));
    assert!(matches!(
        recognition_outcome(OcrEngine::PaddleV6, Ok("# 结果".to_owned())),
        RecognitionEvent::Complete(m) if m == "# 结果"
    ));
    assert!(matches!(
        recognition_outcome(OcrEngine::PaddleV6, Err("model missing".to_owned())),
        RecognitionEvent::Failed(e) if e == "model missing"
    ));
}

#[test]
fn a_stopped_reading_counts_nothing_more_and_reports_no_result() {
    assert_eq!(reading_step(true, true), ReadingStep::Stop);
    assert_eq!(reading_step(true, false), ReadingStep::Stop);
    assert_eq!(reading_step(false, false), ReadingStep::Skip);
    assert_eq!(reading_step(false, true), ReadingStep::Play);

    let tally = bibiocr::mobile::ReadingTally { read: 0, skipped: 2 };
    let (notice, result) = reading_end(true, tally);
    assert_eq!(notice.as_deref(), Some("Skipped 2 unreadable TTS segment(s)"));
    assert!(result.is_none());
    let (_, result) = reading_end(false, tally);
    assert_eq!(result, Some(Err("Melo TTS could not read any segment".to_owned())));
    let (notice, result) = reading_end(false, bibiocr::mobile::ReadingTally { read: 3, skipped: 0 });
    assert!(notice.is_none());
    assert_eq!(result, Some(Ok(())));
}
