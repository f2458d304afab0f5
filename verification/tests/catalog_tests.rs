use bibiocr::catalog::content_insets;
use bibiocr::catalog::{initial_screen, models, Screen, MODEL_COUNT};
use bibiocr::download::{installed, resume_offset};

#[test]
fn download_catalog_includes_bilingual_melo_tts_assets() {
    let models = models();
    for file_name in ["melo-model.onnx", "melo-lexicon.txt", "melo-tokens.txt"] {
        assert!(models.iter().any(|model| model.file_name == file_name));
    }
    assert!(!models.iter().any(|model| model.name.starts_with("Kokoro")));
}

#[test]
fn first_run_opens_download_until_all_models_exist() {
    let models = models();
    let missing: [Option<u64>; MODEL_COUNT] = [None; MODEL_COUNT];
    assert_eq!(initial_screen(&missing), Screen::Download);
    let mut present: [Option<u64>; MODEL_COUNT] = [None; MODEL_COUNT];
    for (index, model) in models.iter().enumerate() {
        present[index] = Some(model.expected_bytes);
    }
    assert_eq!(initial_screen(&present), Screen::History);
}

#[test]
fn partial_model_does_not_count_as_installed() {
    let models = models();
    let mut lens: [Option<u64>; MODEL_COUNT] = [None; MODEL_COUNT];
    for (index, model) in models.iter().enumerate() {
        lens[index] = Some(model.expected_bytes);
    }
    lens[0] = Some(1);
    assert_eq!(initial_screen(&lens), Screen::Download);
}

#[test]
fn installed_requires_the_published_size() {
    let model = models()[2];
    assert!(!installed(Some(model.expected_bytes - 1), &model));
    assert!(installed(Some(model.expected_bytes), &model));
    assert!(!installed(None, &model));
}

#[test]
fn resume_setting_controls_partial_file_offset() {
    assert_eq!(resume_offset(Some(128), true), 128);
    assert_eq!(resume_offset(Some(128), false), 0);
    assert_eq!(resume_offset(None, true), 0);
}

#[test]
fn every_catalogue_url_is_downloaded_from_hugging_face() {
    for model in models() {
        assert!(model.url.starts_with("https://huggingface.co/"));
        assert!(model.expected_bytes > 0);
    }
}

#[test]
fn safe_area_comes_from_the_runtime_content_rectangle() {
    assert_eq!(content_insets(2_772, 96, 2_704), (96, 68));
    assert_eq!(content_insets(0, 0, 0), (0, 0));
    assert_eq!(content_insets(100, 50, 40), (0, 0));
    assert_eq!(content_insets(100, -5, 200), (0, 0));
}
