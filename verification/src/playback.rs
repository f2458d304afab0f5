//! Handing speech to the platform's audio track: the checks on a stream,
//! the order in which its samples are written, and when it has played.
//! The track itself is driven outside the library, which asks after every
//! write what to do next.

use vstd::prelude::*;
use crate::text::{decimal, from_chars, push_all, push_decimal, to_chars};

verus! {

/// How many samples are handed to the track at a time.
pub const WRITE_CHUNK: usize = 2048;

/// The smallest buffer a track is made with, in bytes.
pub const MIN_TRACK_BUFFER: i32 = 4096;

/// An integer in decimal, with a minus sign when it is negative.
pub open spec fn signed_text(n: int) -> Seq<char> {
    if n < 0 {
        seq!['-'] + decimal((-n) as nat)
    } else {
        decimal(n as nat)
    }
}

fn push_signed(out: &mut Vec<char>, n: i32)
    ensures
        final(out)@ == old(out)@ + signed_text(n as int),
{
    if n < 0 {
        out.push('-');
        let wide: i64 = n as i64;
        let magnitude: u64 = (0 - wide) as u64;
        let ghost before = out@;
        push_decimal(out, magnitude);
        assert(before == old(out)@.push('-'));
        assert(old(out)@.push('-') + decimal(magnitude as nat) == old(out)@ + (seq!['-'] + decimal(
            magnitude as nat,
        )));
    } else {
        push_decimal(out, n as u64);
    }
}

/// A stream needs a positive sample rate.
pub fn check_sample_rate(sample_rate: i32) -> (r: Result<(), String>)
    ensures
        sample_rate > 0 ==> r is Ok,
        sample_rate <= 0 ==> (r matches Err(e) && e@ == "Invalid TTS sample rate"@),
{
    if sample_rate <= 0 {
        Err("Invalid TTS sample rate".to_owned())
    } else {
        Ok(())
    }
}

/// The buffer a track is made with: the platform's minimum, raised to
/// `MIN_TRACK_BUFFER`; a minimum that is not positive is the platform's
/// error code.
pub fn track_buffer(min_buffer: i32) -> (r: Result<i32, String>)
    ensures
        min_buffer > 0 ==> r == Ok::<i32, String>(
            if min_buffer > MIN_TRACK_BUFFER {
                min_buffer
            } else {
                MIN_TRACK_BUFFER
            },
        ),
        min_buffer <= 0 ==> (r matches Err(e) && e@ == "AudioTrack buffer error: "@ + signed_text(
            min_buffer as int,
        )),
{
    if min_buffer <= 0 {
        let mut out = to_chars("AudioTrack buffer error: ");
        push_signed(&mut out, min_buffer);
        return Err(from_chars(&out));
    }
    Ok(if min_buffer > MIN_TRACK_BUFFER {
        min_buffer
    } else {
        MIN_TRACK_BUFFER
    })
}

/// Where the writing of a stream of `total` samples stands: the chunk being
/// written, `[start, end)`, and how many of its samples the track has taken.
#[derive(Clone, Copy, Debug, PartialEq, Eq, Structural)]
pub struct PcmWriter {
    pub total: usize,
    pub start: usize,
    pub end: usize,
    pub written: usize,
}

/// What to do next with the track.
#[derive(Clone, Copy, Debug, PartialEq, Eq, Structural)]
pub enum WriteStep {
    /// Hand over the chunk `samples[start..end]`.
    Chunk(usize, usize),
    /// Write `count` samples of the current chunk, from `offset` in it.
    Write(usize, usize),
    /// Every sample has been written.
    Drained,
}

/// The end of the chunk that starts at `start`.
pub open spec fn chunk_end(start: int, total: int) -> int {
    if start + WRITE_CHUNK < total {
        start + WRITE_CHUNK
    } else {
        total
    }
}

/// A writer's bookkeeping holds together: the chunk lies within the stream.
pub open spec fn writer_ok(w: PcmWriter) -> bool {
    w.start <= w.end <= w.total && w.end - w.start <= WRITE_CHUNK
}

impl PcmWriter {
    /// A writer for `total` samples, before the first chunk.
    pub fn new(total: usize) -> (r: Self)
        ensures
            r == (PcmWriter { total, start: 0, end: 0, written: 0 }),
            writer_ok(r),
    {
        PcmWriter { total, start: 0, end: 0, written: 0 }
    }

    /// The next thing to do: the rest of the current chunk while the track
    /// has not taken all of it; then the chunk that follows it, up to
    /// `WRITE_CHUNK` samples long; and nothing once the stream is written.
    pub fn step(&mut self) -> (r: WriteStep)
        requires
            writer_ok(*old(self)),
        ensures
            writer_ok(*final(self)),
            final(self).total == old(self).total,
            old(self).written < old(self).end - old(self).start ==> {
                &&& r == WriteStep::Write(
                    old(self).written,
                    (old(self).end - old(self).start - old(self).written) as usize,
                )
                &&& *final(self) == *old(self)
            },
            old(self).written >= old(self).end - old(self).start && old(self).end < old(self).total
                ==> {
                &&& final(self).start == old(self).end
                &&& final(self).end == chunk_end(old(self).end as int, old(self).total as int)
                &&& final(self).written == 0
                &&& r == WriteStep::Chunk(final(self).start, final(self).end)
            },
            old(self).written >= old(self).end - old(self).start && old(self).end >= old(self).total
                ==> r == WriteStep::Drained && *final(self) == *old(self),
    {
        let length = self.end - self.start;
        if self.written < length {
            return WriteStep::Write(self.written, length - self.written);
        }
        if self.end < self.total {
            self.start = self.end;
            self.end = if self.total - self.end > WRITE_CHUNK {
                self.end + WRITE_CHUNK
            } else {
                self.total
            };
            self.written = 0;
            return WriteStep::Chunk(self.start, self.end);
        }
        WriteStep::Drained
    }

    /// The track took `written` samples of the current chunk; a count that
    /// is not positive is the track's error code.
    pub fn wrote(&mut self, written: i32) -> (r: Result<(), String>)
        requires
            writer_ok(*old(self)),
            old(self).written < old(self).end - old(self).start,
        ensures
            writer_ok(*final(self)),
            written > 0 ==> r is Ok && *final(self) == (PcmWriter {
                written: (old(self).written + written) as usize,
                ..*old(self)
            }),
            written <= 0 ==> (r matches Err(e) && e@ == "AudioTrack write failed: "@ + signed_text(
                written as int,
            )) && *final(self) == *old(self),
    {
        if written <= 0 {
            let mut out = to_chars("AudioTrack write failed: ");
            push_signed(&mut out, written);
            return Err(from_chars(&out));
        }
        self.written = self.written + written as usize;
        Ok(())
    }
}

/// The track has played the whole stream once its play head reaches the
/// stream's length.
pub fn playback_done(played: u32, total: usize) -> (r: bool)
    ensures
        r == (played as int >= total as int),
{
    played as u64 >= total as u64
}

} // verus!
