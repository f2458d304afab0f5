use bibiocr::kokoro_tts::{synthesize_phonemes, synthesize_with};
use bibiocr::tts::TtsAudio;
use bibiocr::kokoro_tts::{
    check_english, check_voice_length, chunk_tokens, phoneme_chunks, style_index, token_ids,
};
use std::collections::HashMap;

#[test]
fn kokoro_tokens_are_padded_without_silently_dropping_text() {
    let vocab = HashMap::from([('h', 50), ('ə', 83)]);
    assert_eq!(token_ids("hə?", &vocab), [0, 50, 83, 0]);
    assert_eq!(token_ids(&"h".repeat(600), &vocab).len(), 602);
}

#[test]
fn chinese_text_is_sent_to_the_other_engine() {
    assert_eq!(check_english("Hello, world 123!"), Ok(()));
    assert_eq!(
        check_english("Hello 世界"),
        Err("Kokoro 1.0 supports English text only; select Melo for Chinese".to_owned())
    );
    assert_eq!(check_english("café"), Err("Kokoro 1.0 supports English text only; select Melo for Chinese".to_owned()));
    assert_eq!(check_english("→ ✓ 123"), Ok(()));
}

#[test]
fn long_phoneme_strings_are_read_in_chunks_of_five_hundred() {
    let phonemes = "ə".repeat(1201);
    let chunks = phoneme_chunks(&phonemes);
    assert_eq!(chunks.len(), 3);
    assert_eq!(chunks[0].chars().count(), 500);
    assert_eq!(chunks[1].chars().count(), 500);
    assert_eq!(chunks[2].chars().count(), 201);
    assert!(phoneme_chunks("").is_empty());
}

#[test]
fn voice_files_hold_whole_style_vectors() {
    assert!(check_voice_length(1024).is_ok());
    assert!(check_voice_length(4096).is_ok());
    assert_eq!(
        check_voice_length(1000),
        Err("Kokoro voice file has an invalid length".to_owned())
    );
    assert!(check_voice_length(0).is_err());
    assert!(check_voice_length(2048 + 4).is_err());
}

#[test]
fn the_style_vector_follows_the_token_count_up_to_the_last() {
    assert_eq!(style_index(2, 256 * 10), 0);
    assert_eq!(style_index(7, 256 * 10), 5);
    assert_eq!(style_index(400, 256 * 10), 9);
}

#[test]
fn a_chunk_without_known_phonemes_is_refused() {
    let vocab = HashMap::from([('h', 50)]);
    assert_eq!(
        chunk_tokens("???", &vocab, 2560),
        Err("Kokoro found no readable phonemes".to_owned())
    );
    assert_eq!(chunk_tokens("hh", &vocab, 2560), Ok((vec![0, 50, 50, 0], 2)));
}

#[test]
fn chunk_audio_is_joined_at_twenty_four_kilohertz() {
    let phonemes = "a".repeat(501);
    let mut seen = Vec::new();
    let audio = synthesize_phonemes(&phonemes, |chunk| {
        seen.push(chunk.chars().count());
        Ok(TtsAudio {
            samples: vec![chunk.chars().count() as i16],
            sample_rate: 24_000,
        })
    })
    .unwrap();
    assert_eq!(seen, [500, 1]);
    assert_eq!(audio.samples, [500, 1]);
    assert_eq!(audio.sample_rate, 24_000);
}

#[test]
fn the_first_failing_chunk_ends_the_reading() {
    let mut calls = 0;
    let result = synthesize_phonemes(&"a".repeat(1200), |_| -> Result<TtsAudio, String> {
        calls += 1;
        Err("Kokoro inference failed: test".to_owned())
    });
    assert_eq!(result.err(), Some("Kokoro inference failed: test".to_owned()));
    assert_eq!(calls, 1);
    let silent = synthesize_phonemes("", |_| -> Result<TtsAudio, String> {
        panic!("there is nothing to read")
    });
    assert_eq!(silent.err(), Some("Kokoro found no readable phonemes".to_owned()));
}

#[test]
fn chinese_is_refused_before_phonemes_are_made() {
    let result = synthesize_with("你好", |_| -> Result<TtsAudio, String> {
        panic!("nothing is read")
    });
    assert_eq!(
        result.err(),
        Some("Kokoro 1.0 supports English text only; select Melo for Chinese".to_owned())
    );
}
