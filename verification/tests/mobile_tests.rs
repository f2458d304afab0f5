use bibiocr::history::ScanStage;
use bibiocr::mobile::{
    accept_recognition_event, format_bytes, markdown_image_path, next_tts_revision,
    ocr_image_box, plan_recognition, reading_summary, scan_file_name, should_auto_resume_download,
    tally_sentence, ReadingTally, SentenceOutcome,
};
use bibiocr::settings::OcrEngine;

#[test]
fn tiny_and_large_model_sizes_are_not_shown_as_zero_mb() {
    assert_eq!(format_bytes(0), "0 B");
    assert_eq!(format_bytes(1023), "1023 B");
    assert_eq!(format_bytes(1024), "1 KB");
    assert_eq!(format_bytes(65_536), "64 KB");
    assert_eq!(format_bytes(1_048_576), "1.0 MB");
    assert_eq!(format_bytes(2_147_483_648), "2.0 GB");
}

#[test]
fn sizes_round_like_one_decimal_float_formatting() {
    const MIB: u64 = 1024 * 1024;
    const GIB: u64 = MIB * 1024;
    let megabytes = [
        MIB,
        MIB + 1,
        5 * MIB / 4,
        3 * MIB / 4 + MIB,
        MIB * 21 / 20,
        MIB * 1023,
        GIB - 1,
        935_769_056,
        170_429_550,
        6_837_671,
    ];
    for bytes in megabytes {
        assert_eq!(format_bytes(bytes), format!("{:.1} MB", bytes as f64 / MIB as f64), "{bytes}");
    }
    let gigabytes = [
        GIB,
        GIB + GIB / 4,
        GIB * 5 / 4 + 1,
        GIB * 3 / 20,
        u64::MAX,
        u64::MAX - 1024,
        (1 << 53) + 1,
        (1 << 54) + 3,
        9_007_199_254_740_993,
    ];
    for bytes in gigabytes {
        if bytes >= GIB {
            assert_eq!(format_bytes(bytes), format!("{:.1} GB", bytes as f64 / GIB as f64), "{bytes}");
        }
    }
}

#[test]
fn ocr_markdown_image_uses_the_matching_original_crop() {
    let path = markdown_image_path("![Image](imgs/img_in_image_box_76_342_353_617.jpg)");
    assert_eq!(path.as_deref(), Some("imgs/img_in_image_box_76_342_353_617.jpg"));
    let [left, top, right, bottom] = ocr_image_box(&path.unwrap(), 1000, 2000).unwrap();
    assert_eq!(
        (left as f32 / 1000 as f32, top as f32 / 2000 as f32),
        (0.076, 0.171)
    );
    assert_eq!(
        (right as f32 / 1000 as f32, bottom as f32 / 2000 as f32),
        (0.353, 0.3085)
    );
}

#[test]
fn image_boxes_must_lie_inside_the_picture() {
    assert_eq!(ocr_image_box("imgs/img_in_image_box_1_2_3_4.jpg", 3, 4), Some([1, 2, 3, 4]));
    assert_eq!(ocr_image_box("imgs/img_in_image_box_1_2_3_4.jpg", 2, 4), None);
    assert_eq!(ocr_image_box("imgs/img_in_image_box_3_2_3_4.jpg", 9, 9), None);
    assert_eq!(ocr_image_box("imgs/img_in_image_box_1_2_3.jpg", 9, 9), None);
    assert_eq!(ocr_image_box("imgs/img_in_image_box_1_2_3_x.jpg", 9, 9), None);
    assert_eq!(ocr_image_box("imgs/img_in_image_box_+1_2_3_4.jpg", 9, 9), Some([1, 2, 3, 4]));
    assert_eq!(ocr_image_box("imgs/photo.jpg", 9, 9), None);
    assert_eq!(ocr_image_box("imgs/img_in_image_box_1_2_3_4", 9, 9), None);
}

#[test]
fn only_whole_image_lines_name_a_path() {
    assert_eq!(markdown_image_path("  ![a](b.png)  ").as_deref(), Some("b.png"));
    assert_eq!(markdown_image_path("text ![a](b.png)"), None);
    assert_eq!(markdown_image_path("![a](b.png) more"), None);
    assert_eq!(markdown_image_path("![a] (b.png)"), None);
}

#[test]
fn cancelled_ocr_results_cannot_overwrite_a_restarted_scan() {
    assert!(!accept_recognition_event(true, 8, 7));
    assert!(!accept_recognition_event(false, 8, 8));
    assert!(accept_recognition_event(true, 8, 8));
}

#[test]
fn returning_to_download_auto_resumes_once_only_on_wifi() {
    assert!(should_auto_resume_download(true, false, true, true));
    assert!(!should_auto_resume_download(false, false, true, true));
    assert!(!should_auto_resume_download(true, true, true, true));
    assert!(!should_auto_resume_download(true, false, false, true));
    assert!(!should_auto_resume_download(true, false, true, false));
}

#[test]
fn an_interrupted_scan_resumes_with_its_own_engine() {
    let fresh = plan_recognition(None, OcrEngine::PaddleV6);
    assert!(fresh.new_record);
    assert_eq!(fresh.engine, OcrEngine::PaddleV6);
    assert!(fresh.run_layout);
    let resumed = plan_recognition(
        Some((ScanStage::LayoutDone, OcrEngine::PaddleVl16)),
        OcrEngine::PaddleV6,
    );
    assert!(!resumed.new_record);
    assert_eq!(resumed.engine, OcrEngine::PaddleVl16);
    assert!(!resumed.run_layout);
    let again = plan_recognition(Some((ScanStage::Complete, OcrEngine::PaddleVl16)), OcrEngine::PaddleV6);
    assert!(again.new_record);
    assert!(again.run_layout);
}

#[test]
fn a_reading_reports_skipped_sentences_and_fails_only_when_nothing_was_read() {
    let start = ReadingTally { read: 0, skipped: 0 };
    assert_eq!(reading_summary(start), (None, Ok(())));
    let skipped = tally_sentence(tally_sentence(start, SentenceOutcome::Unreadable), SentenceOutcome::PlaybackFailed);
    assert_eq!(skipped, ReadingTally { read: 0, skipped: 2 });
    assert_eq!(
        reading_summary(skipped),
        (
            Some("Skipped 2 unreadable TTS segment(s)".to_owned()),
            Err("Melo TTS could not read any segment".to_owned())
        )
    );
    let mixed = tally_sentence(skipped, SentenceOutcome::Read);
    assert_eq!(
        reading_summary(mixed),
        (Some("Skipped 2 unreadable TTS segment(s)".to_owned()), Ok(()))
    );
}

#[test]
fn speech_revisions_stop_at_the_last_one() {
    assert_eq!(next_tts_revision(0), Ok(1));
    assert_eq!(next_tts_revision(u64::MAX), Err("TTS revision limit reached".to_owned()));
}

#[test]
fn picked_photos_keep_a_jpeg_or_png_extension() {
    assert_eq!(scan_file_name(Some("IMG_0001.PNG"), 5), "scan-5.PNG");
    assert_eq!(scan_file_name(Some("camera/shot.jpeg"), 17), "scan-17.jpeg");
    assert_eq!(scan_file_name(Some("photo.heic"), 5), "scan-5.jpg");
    assert_eq!(scan_file_name(Some(".png"), 5), "scan-5.jpg");
    assert_eq!(scan_file_name(Some("noextension"), 5), "scan-5.jpg");
    assert_eq!(scan_file_name(None, 1_700_000_000_000), "scan-1700000000000.jpg");
}
