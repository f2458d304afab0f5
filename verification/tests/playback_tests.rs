use bibiocr::playback::{
    check_sample_rate, playback_done, track_buffer, PcmWriter, WriteStep, WRITE_CHUNK,
};

#[test]
fn a_stream_needs_a_positive_rate_and_buffer() {
    assert_eq!(check_sample_rate(44_100), Ok(()));
    assert_eq!(check_sample_rate(0), Err("Invalid TTS sample rate".to_owned()));
    assert_eq!(check_sample_rate(-8), Err("Invalid TTS sample rate".to_owned()));
    assert_eq!(track_buffer(1_000), Ok(4096));
    assert_eq!(track_buffer(10_000), Ok(10_000));
    assert_eq!(track_buffer(-2), Err("AudioTrack buffer error: -2".to_owned()));
    assert_eq!(track_buffer(0), Err("AudioTrack buffer error: 0".to_owned()));
    assert_eq!(
        track_buffer(i32::MIN),
        Err("AudioTrack buffer error: -2147483648".to_owned())
    );
}

#[test]
fn samples_are_written_chunk_by_chunk_in_order() {
    let mut writer = PcmWriter::new(5000);
    assert_eq!(writer.step(), WriteStep::Chunk(0, WRITE_CHUNK));
    assert_eq!(writer.step(), WriteStep::Write(0, 2048));
    writer.wrote(1000).unwrap();
    assert_eq!(writer.step(), WriteStep::Write(1000, 1048));
    writer.wrote(1048).unwrap();
    assert_eq!(writer.step(), WriteStep::Chunk(2048, 4096));
    assert_eq!(writer.step(), WriteStep::Write(0, 2048));
    writer.wrote(2048).unwrap();
    assert_eq!(writer.step(), WriteStep::Chunk(4096, 5000));
    assert_eq!(writer.step(), WriteStep::Write(0, 904));
    assert_eq!(
        writer.wrote(-3),
        Err("AudioTrack write failed: -3".to_owned())
    );
    writer.wrote(904).unwrap();
    assert_eq!(writer.step(), WriteStep::Drained);
    assert_eq!(PcmWriter::new(0).step(), WriteStep::Drained);
}

#[test]
fn playback_is_over_when_the_head_reaches_the_end() {
    assert!(!playback_done(4999, 5000));
    assert!(playback_done(5000, 5000));
    assert!(playback_done(0, 0));
}
