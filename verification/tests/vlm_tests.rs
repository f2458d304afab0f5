use bibiocr::vlm::{ocr_prompt, Decoding, Poll, MAX_TOKENS};

#[test]
fn the_prompt_puts_the_page_image_before_the_ocr_request() {
    assert_eq!(
        ocr_prompt("<__media__>"),
        "<|begin_of_sentence|>User: <__media__>OCR:\nAssistant:\n"
    );
}

#[test]
fn decoding_collects_pieces_until_the_model_ends() {
    let mut decoding = Decoding::new();
    assert!(matches!(decoding.poll(false), Poll::Sample));
    decoding.sampled(Some("  # Title"));
    decoding.sampled(Some("\n\nBody \n"));
    assert!(matches!(decoding.poll(false), Poll::Sample));
    decoding.sampled(None);
    assert_eq!(decoding.steps, 3);
    match decoding.poll(true) {
        Poll::Done(Ok(text)) => assert_eq!(text, "# Title\n\nBody"),
        other => panic!("unexpected {other:?}"),
    }
}

#[test]
fn a_cancelled_recognition_fails_until_it_is_over() {
    let decoding = Decoding::new();
    match decoding.poll(true) {
        Poll::Done(Err(error)) => assert_eq!(error, "Recognition cancelled"),
        other => panic!("unexpected {other:?}"),
    }
}

#[test]
fn decoding_stops_after_the_token_budget() {
    let mut decoding = Decoding::new();
    decoding.steps = MAX_TOKENS - 1;
    decoding.sampled(Some("x"));
    assert_eq!(decoding.steps, 4096);
    match decoding.poll(false) {
        Poll::Done(Ok(text)) => assert_eq!(text, "x"),
        other => panic!("unexpected {other:?}"),
    }
}
