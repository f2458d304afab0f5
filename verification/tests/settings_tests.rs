use bibiocr::settings::{DownloadSettings, LocaleManager, OcrEngine, Settings, TtsEngine};

#[test]
fn locale_manager_maps_system_tags_to_supported_translations() {
    assert_eq!(LocaleManager::resolve("zh-Hans-CN"), "zh-CN");
    assert_eq!(LocaleManager::resolve("ja-JP"), "ja");
    assert_eq!(LocaleManager::resolve("ko-KR"), "ko");
    assert_eq!(LocaleManager::resolve("ru-RU"), "ru");
    assert_eq!(LocaleManager::resolve("fr-FR"), "fr");
    assert_eq!(LocaleManager::resolve("es-MX"), "es");
    assert_eq!(LocaleManager::resolve("pt-BR"), "pt");
    assert_eq!(LocaleManager::resolve("unsupported"), "en");
}

#[test]
fn language_picker_starts_with_system_and_lists_every_translation() {
    assert_eq!(Settings::default().locale.language, "system");
    let choices = LocaleManager::choices();
    assert_eq!(choices[0].0, "system");
    let mut selectable: Vec<_> = choices.iter().skip(1).map(|choice| choice.0).collect();
    selectable.sort_unstable();
    assert_eq!(
        selectable,
        ["de", "en", "es", "fr", "it", "ja", "ko", "pt", "ru", "zh-CN"]
    );
}

#[test]
fn chinese_uses_hf_mirror_unless_endpoint_is_configured() {
    let settings = DownloadSettings::default();
    let source = "https://huggingface.co/PaddlePaddle/model/resolve/main/model.gguf";

    assert_eq!(
        settings.resolve_url(source, "zh-CN", None),
        "https://hf-mirror.com/PaddlePaddle/model/resolve/main/model.gguf"
    );
    assert_eq!(settings.resolve_url(source, "en", None), source);
    assert_eq!(
        settings.resolve_url(source, "zh-CN", Some("https://hf.example")),
        "https://hf.example/PaddlePaddle/model/resolve/main/model.gguf"
    );
}

#[test]
fn github_proxy_replaces_supported_giturl_placeholders() {
    let source = "https://github.com/microsoft/onnxruntime/releases/download/v1/file.zip";
    for placeholder in ["{giturl}", "${giturl}", "{$giturl}"] {
        let settings = DownloadSettings {
            github_proxy: format!("https://gh-proxy.com/{placeholder}"),
            ..DownloadSettings::default()
        };
        assert_eq!(
            settings.resolve_url(source, "en", None),
            format!("https://gh-proxy.com/{source}")
        );
    }
    let raw = "https://raw.githubusercontent.com/PaddlePaddle/PaddleOCR/v3.7.0/ppocr/utils/dict/ppocrv6_dict.txt";
    let settings = DownloadSettings {
        github_proxy: "https://gh-proxy.com/{giturl}".to_owned(),
        ..DownloadSettings::default()
    };
    assert_eq!(
        settings.resolve_url(raw, "zh-CN", None),
        format!("https://gh-proxy.com/{raw}")
    );
}

#[test]
fn other_urls_and_blank_settings_are_left_alone() {
    let settings = DownloadSettings {
        github_proxy: "   ".to_owned(),
        hf_endpoint: "https://hf.example/".to_owned(),
        ..DownloadSettings::default()
    };
    let plain = "https://example.com/file.bin";
    assert_eq!(settings.resolve_url(plain, "zh-CN", None), plain);
    let github = "https://github.com/a/b/releases/download/v1/c.zip";
    assert_eq!(settings.resolve_url(github, "en", None), github);
    assert_eq!(
        settings.resolve_url("https://huggingface.co/a/b", "en", Some("  ")),
        "https://hf.example/a/b"
    );
}

#[test]
fn ocr_engine_defaults_to_v6() {
    assert_eq!(Settings::default().ocr_engine, OcrEngine::PaddleV6);
    assert_eq!(OcrEngine::PaddleV6.label(), "PP-OCRv6 · ONNX");
    assert_eq!(OcrEngine::PaddleVl16.label(), "PaddleOCR-VL 1.6");
}

#[test]
fn tts_engine_defaults_to_melo() {
    assert_eq!(Settings::default().tts_engine, TtsEngine::Melo);
    assert_eq!(TtsEngine::Melo.cache_name(), "melo");
    assert_eq!(TtsEngine::Kokoro.cache_name(), "kokoro");
    assert_eq!(TtsEngine::Kokoro.label(), "Kokoro · EN");
}

#[test]
fn default_download_settings_resume_and_allow_mobile_data() {
    let settings = Settings::default();
    assert!(settings.download.resume);
    assert!(!settings.download.wifi_only);
    assert!(settings.download.hf_endpoint.is_empty());
    assert!(settings.download.github_proxy.is_empty());
}

#[test]
fn the_system_setting_follows_the_phone_language() {
    assert_eq!(LocaleManager::locale_for("system", Some("ja-JP")), "ja");
    assert_eq!(LocaleManager::locale_for("SYSTEM", Some("zh_TW")), "zh-CN");
    assert_eq!(LocaleManager::locale_for("System", None), "en");
    assert_eq!(LocaleManager::locale_for("de", Some("ja-JP")), "de");
    assert_eq!(LocaleManager::locale_for("klingon", None), "en");
}

#[test]
fn applying_a_language_switches_the_interface_messages() {
    assert_eq!(LocaleManager::apply("fr"), "fr");
    assert_eq!(LocaleManager::apply("ko-KR"), "ko");
    assert_eq!(&*rust_i18n::locale(), "ko");
}

#[test]
fn resolving_a_catalogue_code_gives_it_back() {
    for tag in ["ZH_tw", "", "ja-JP", "Ko", "ru_RU", "FR-ca", "es", "de-AT", "it", "pt-BR", "xx"] {
        let code = LocaleManager::resolve(tag);
        assert_eq!(LocaleManager::resolve(code), code);
    }
    assert_eq!(LocaleManager::resolve("ZH_tw"), "zh-CN");
    assert_eq!(LocaleManager::resolve(""), "en");
    assert_eq!(LocaleManager::resolve("De-ch"), LocaleManager::resolve("de_DE"));
}
