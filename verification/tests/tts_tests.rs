use bibiocr::settings::TtsEngine;
use bibiocr::tts::{
    cache_path, cached_audio, collect_successes, decode_cached_audio, encode_cached_audio,
    markdown_text, merge_parts, prepare_sentence, sentence_chunks, sentences, speakable_numbers,
    speech_dir,
    synthesize_resilient_cached_with, synthesize_resilient_with, synthesize_sentence, SpeechCache,
    TtsAudio,
};

fn audio(samples: &[i16], sample_rate: i32) -> TtsAudio {
    TtsAudio {
        samples: samples.to_vec(),
        sample_rate,
    }
}

#[test]
fn fallback_audio_is_cached_as_a_complete_sentence() {
    let first = synthesize_resilient_cached_with("hello world", None, |part| {
        if part == "hello world" {
            return Err("Melo TTS failed to generate audio".to_owned());
        }
        Ok(TtsAudio {
            samples: vec![part.len() as i16],
            sample_rate: 44_100,
        })
    })
    .unwrap();
    assert_eq!(first.audio.samples, [5, 5]);
    let stored = first.store.expect("fresh audio is stored");
    let second = synthesize_resilient_cached_with("hello world", Some(&stored), |_| {
        panic!("fallback audio must not be regenerated")
    })
    .unwrap();
    assert_eq!(second.audio.samples, [5, 5]);
    assert!(second.store.is_none());
}

#[test]
fn document_audio_is_reused_until_regenerated() {
    let document = "/tmp/bibiocr-tts-cache/7/0";
    let original = cached_audio("你好。", None, || Ok(audio(&[1, 2, 3], 44_100))).unwrap();
    let file = original.store.expect("fresh audio is stored");
    let reused = cached_audio("你好。", Some(&file), || {
        panic!("cached audio must not be generated again")
    })
    .unwrap();
    assert_eq!(reused.audio.samples, [1, 2, 3]);
    let next_revision = "/tmp/bibiocr-tts-cache/7/1";
    assert_ne!(cache_path(document, "你好。"), cache_path(next_revision, "你好。"));
    let regenerated = cached_audio("你好。", None, || Ok(audio(&[4, 5], 44_100))).unwrap();
    assert_eq!(regenerated.audio.samples, [4, 5]);
    assert_eq!(
        cached_audio("你好。", Some(&file), || panic!("old cache deleted"))
            .unwrap()
            .audio
            .samples,
        [1, 2, 3]
    );
}

#[test]
fn failed_slice_does_not_silence_readable_parts() {
    let mut attempted = Vec::new();
    let audio = synthesize_resilient_with("你好 @ 世界", |part| {
        attempted.push(part.to_owned());
        if part.contains('@') {
            Err("Melo TTS failed to generate audio".to_owned())
        } else {
            Ok(part.to_owned())
        }
    });
    assert_eq!(audio.unwrap(), ["你好", "世界"]);
    assert_eq!(attempted, ["你好 @ 世界", "你好", "世界"]);
    let unspaced = synthesize_resilient_with("你好世界", |part| {
        if part == "你好世界" {
            Err("Melo TTS failed to generate audio".to_owned())
        } else {
            Ok(part.to_owned())
        }
    });
    assert_eq!(unspaced.unwrap(), ["你好", "世界"]);
    assert!(
        synthesize_resilient_with("@@@", |_| -> Result<(), String> {
            Err("Melo TTS failed to generate audio".to_owned())
        })
        .is_err()
    );
}

#[test]
fn markdown_reader_uses_document_text_not_markup() {
    assert_eq!(
        markdown_text("# Hello\n\n**world** [link](https://example.com)"),
        "Hello\n\nworld link"
    );
    assert_eq!(
        markdown_text("前文\n\n![Image](imgs/crop.jpg)\n\n后文"),
        "前文\n\n后文"
    );
}

#[test]
fn unspaced_chinese_is_split_without_losing_text() {
    let text = "中文".repeat(100);
    let chunks = sentence_chunks(&text);
    assert!(chunks.len() > 1);
    assert_eq!(chunks.concat(), text);
}

#[test]
fn letters_are_cut_every_120_and_a_lone_last_letter_is_not_read() {
    let text = "文".repeat(242);
    assert_eq!(sentence_chunks(&text), vec!["文".repeat(120), "文".repeat(120), "文".repeat(2)]);
    let text = "文".repeat(121);
    assert_eq!(sentence_chunks(&text), vec!["文".repeat(120)]);
}

#[test]
fn reading_splits_at_sentence_boundaries_without_splitting_domains() {
    assert_eq!(
        sentence_chunks("你好。 Hello world. Visit example.com now! 再见。"),
        ["你好。", "Hello world.", "Visit example.com now!", "再见。"]
    );
}

#[test]
fn short_markdown_lines_become_sentences_but_long_wrapped_lines_continue() {
    assert_eq!(sentences("短行\n下一句。"), ["短行", "下一句。"]);
    let long_line = "中文".repeat(25);
    let next_long_line = "继续".repeat(25);
    assert_eq!(
        sentences(&format!("{long_line}\n{next_long_line}。")),
        [format!("{long_line} {next_long_line}。")]
    );
    assert_eq!(
        sentences(&format!("{long_line}\n继续。")),
        [long_line.clone(), "继续。".to_owned()]
    );
}

#[test]
fn unreadable_leading_ocr_noise_does_not_block_later_sentences() {
    assert_eq!(
        sentences("O\n0\n△○□\n安全提示\n后面的文字可以朗读。"),
        ["安全提示", "后面的文字可以朗读。"]
    );
}

#[test]
fn long_clause_uses_comma_as_a_speech_boundary() {
    let first = "中".repeat(35);
    assert_eq!(
        sentence_chunks(&format!("{first}，后半句。")),
        [format!("{first}，"), "后半句。".to_owned()]
    );
}

#[test]
fn no_sentence_is_longer_than_a_hundred_and_twenty_one_characters() {
    let wrapped = format!("{}\n{}", "甲".repeat(119), "乙".repeat(119));
    for sentence in sentence_chunks(&wrapped) {
        assert!(sentence.chars().count() <= 121);
    }
    let long = sentence_chunks(&"字".repeat(1000));
    assert_eq!(long.len(), 9);
    for sentence in &long[..8] {
        assert_eq!(sentence.chars().count(), 120);
    }
    assert_eq!(long[8].chars().count(), 40);
}

#[test]
fn numbers_and_clock_times_are_read_in_chinese() {
    assert_eq!(speakable_numbers("13:37"), "十三点三十七分");
    assert_eq!(speakable_numbers("第7章"), "第七章");
    assert_eq!(speakable_numbers("20 个"), "二十 个");
    assert_eq!(speakable_numbers("12 岁"), "十二 岁");
    assert_eq!(speakable_numbers("2024年"), "二零二四年");
    assert_eq!(speakable_numbers("007"), "七");
    assert_eq!(speakable_numbers("5:x"), "五:x");
    assert_eq!(speakable_numbers("no digits"), "no digits");
}

#[test]
fn cached_audio_round_trips_through_its_file_format() {
    let original = audio(&[1, -2, 32_767, -32_768], 22_050);
    let bytes = encode_cached_audio("文本", &original).unwrap();
    assert_eq!(&bytes[..8], b"BIBITTS1");
    let decoded = decode_cached_audio(&bytes, "文本").unwrap();
    assert_eq!(decoded.samples, original.samples);
    assert_eq!(decoded.sample_rate, 22_050);
    assert!(decode_cached_audio(&bytes, "别的").is_none());
    assert!(decode_cached_audio(&bytes[..bytes.len() - 1], "文本").is_none());
    let silent = encode_cached_audio("x", &audio(&[], 22_050)).unwrap();
    assert!(decode_cached_audio(&silent, "x").is_none());
}

#[test]
fn cache_file_names_hash_the_text() {
    assert_eq!(cache_path("/docs/1", ""), "/docs/1/cbf29ce484222325.pcm");
    assert_eq!(cache_path("/docs/1/", "a"), "/docs/1/af63dc4c8601ec8c.pcm");
    assert_ne!(cache_path("/docs/1", "a"), cache_path("/docs/1", "b"));
}

#[test]
fn parts_with_different_rates_are_not_joined() {
    let joined = merge_parts(vec![audio(&[1], 8_000), audio(&[2, 3], 8_000)]).unwrap();
    assert_eq!(joined.samples, [1, 2, 3]);
    assert_eq!(joined.sample_rate, 8_000);
    assert_eq!(
        merge_parts(vec![audio(&[1], 8_000), audio(&[2], 16_000)]).err(),
        Some("TTS sample rates differ".to_owned())
    );
}

#[test]
fn retry_keeps_successes_or_reports_the_sentence_error() {
    let some: Vec<Result<u8, String>> = vec![Err("x".to_owned()), Ok(1), Ok(2)];
    assert_eq!(collect_successes(some, "e".to_owned()), Ok(vec![1, 2]));
    let none: Vec<Result<u8, String>> = vec![Err("x".to_owned())];
    assert_eq!(collect_successes(none, "e".to_owned()), Err("e".to_owned()));
    let other = synthesize_resilient_with("abc", |_| -> Result<(), String> {
        Err("TTS stopped".to_owned())
    });
    assert_eq!(other, Err("TTS stopped".to_owned()));
    let single = synthesize_resilient_with("a", |_| -> Result<(), String> {
        Err("Melo TTS failed to generate audio".to_owned())
    });
    assert_eq!(single, Err("Melo TTS failed to generate audio".to_owned()));
}

#[test]
fn sentences_are_trimmed_and_checked_before_reading() {
    assert_eq!(
        prepare_sentence("  \0 ", false),
        Err("There is no text to read".to_owned())
    );
    assert_eq!(prepare_sentence(" 你\0好 ", true), Err("TTS stopped".to_owned()));
    assert_eq!(prepare_sentence(" 你\0好 ", false), Ok("你好".to_owned()));
}

#[test]
fn a_sentence_read_once_is_reused_from_the_session_cache() {
    let mut cache = SpeechCache::new();
    let mut calls = 0;
    let first = synthesize_sentence(" 你好 ", false, TtsEngine::Melo, &mut cache, |text| {
        assert_eq!(text, "你好");
        calls += 1;
        Ok(audio(&[9, 8], 44_100))
    })
    .unwrap();
    assert_eq!(first.samples, [9, 8]);
    let again = synthesize_sentence("你好", false, TtsEngine::Melo, &mut cache, |_| {
        panic!("cached sentence must not be generated again")
    })
    .unwrap();
    assert_eq!(again.samples, [9, 8]);
    assert_eq!(calls, 1);
    assert!(cache.get("melo:你好").is_some());
    assert!(cache.get("kokoro:你好").is_none());
    let other = synthesize_sentence("你好", false, TtsEngine::Kokoro, &mut cache, |_| {
        Err("Kokoro 1.0 supports English text only; select Melo for Chinese".to_owned())
    });
    assert!(other.is_err());
    assert!(cache.get("kokoro:你好").is_none());
}

#[test]
fn each_speech_revision_has_its_own_directory() {
    assert_eq!(speech_dir("/data", 7, 0), "/data/tts/7/0");
    assert_eq!(speech_dir("/data/", 7, 12), "/data/tts/7/12");
    assert_eq!(speech_dir("", 1, 2), "tts/1/2");
    let first = cache_path(&speech_dir("/data", 7, 0), "你好。");
    let second = cache_path(&speech_dir("/data", 7, 1), "你好。");
    assert_ne!(first, second);
    assert!(first.starts_with("/data/tts/7/0/"));
}

#[test]
fn unplayable_audio_is_never_read_back() {
    let empty = encode_cached_audio("你好。", &audio(&[], 44_100)).unwrap();
    assert!(decode_cached_audio(&empty, "你好。").is_none());
    let bad_rate = encode_cached_audio("你好。", &audio(&[1, 2], 0)).unwrap();
    assert!(decode_cached_audio(&bad_rate, "你好。").is_none());
}

#[test]
fn kept_sentences_are_trimmed_and_hold_two_letters() {
    for sentence in sentence_chunks("  你好。 a. 很好 ,\n  Hello there!  \n x ") {
        assert_eq!(sentence, sentence.trim());
        assert!(sentence.chars().filter(|c| c.is_alphabetic()).count() >= 2);
    }
}

#[test]
fn the_engine_is_asked_only_for_the_sentence_and_its_parts() {
    let mut asked = Vec::new();
    let parts = synthesize_resilient_with("ab cdefghijklmnopqrstuvwxyz0123", |part| {
        asked.push(part.to_owned());
        if asked.len() == 1 {
            Err("Melo TTS failed to generate audio".to_owned())
        } else {
            Ok(part.chars().count())
        }
    });
    assert_eq!(parts.unwrap(), [2, 24, 4]);
    assert_eq!(
        asked,
        ["ab cdefghijklmnopqrstuvwxyz0123", "ab", "cdefghijklmnopqrstuvwxyz", "0123"]
    );
}

#[test]
fn a_stored_cache_file_serves_the_next_call() {
    let first = cached_audio("你好。", None, || Ok(audio(&[1, 2, 3], 44_100))).unwrap();
    let file = first.store.expect("fresh audio is stored");
    let second = cached_audio("你好。", Some(&file), || -> Result<TtsAudio, String> {
        panic!("cached audio must not be generated again")
    })
    .unwrap();
    assert!(second.store.is_none());
    assert_eq!(second.audio.samples, [1, 2, 3]);
    assert_eq!(second.audio.sample_rate, 44_100);
}
