//! Reading documents aloud: which text is spoken, how it is cut into
//! sentences, how numbers are read, how failed sentences are retried in
//! parts, and the on-disk format of cached audio.

use vstd::prelude::*;
use crate::settings::TtsEngine;
use crate::text::{
    decimal, digit_char, push_decimal, from_chars, is_alphabetic, is_alphanumeric, is_digit, is_whitespace, is_ws, matches_at,
    push_all, replace_chars, replace_seq, split_chars, split_seq, sub_chars, to_chars, trim_chars,
    trim_end_seq, trim_seq, trim_start_seq, unicode_alphabetic, unicode_alphanumeric,
};
use vstd::string::StringSliceAdditionalSpecFns;
use pulldown_cmark::{Event, Parser, Tag, TagEnd};

verus! {

/// Synthesised speech: 16-bit PCM samples at `sample_rate` Hz.
pub struct TtsAudio {
    pub samples: Vec<i16>,
    pub sample_rate: i32,
}

// ---------------------------------------------------------------------------
// Cache file names
// ---------------------------------------------------------------------------

pub open spec fn fnv_offset() -> u64 {
    0xcbf29ce484222325
}

pub open spec fn fnv_prime() -> u64 {
    0x100000001b3
}

/// 64-bit FNV-1a of `bytes`.
pub open spec fn fnv1a(bytes: Seq<u8>) -> u64
    decreases bytes.len(),
{
    if bytes.len() == 0 {
        fnv_offset()
    } else {
        let h = fnv1a(bytes.drop_last()) ^ (bytes.last() as u64);
        ((h as nat * fnv_prime() as nat) % 0x1_0000_0000_0000_0000) as u64
    }
}

/// The lower-case hexadecimal digit for `d < 16`.
pub open spec fn hex_digit(d: nat) -> char {
    if d < 10 {
        (d + 48) as char
    } else {
        (d + 87) as char
    }
}

/// `n` in lower-case hexadecimal, zero-padded to `width` digits (`{:0width$x}`
/// for values that fit).
pub open spec fn hex_fixed(n: nat, width: nat) -> Seq<char>
    decreases width,
{
    if width == 0 {
        Seq::empty()
    } else {
        hex_fixed(n / 16, (width - 1) as nat).push(hex_digit(n % 16))
    }
}

/// `Path::join` of a relative name onto a directory written with `/`.
pub open spec fn join_path(dir: Seq<char>, name: Seq<char>) -> Seq<char> {
    if dir.len() == 0 || dir.last() == '/' {
        dir + name
    } else {
        dir + seq!['/'] + name
    }
}

/// Where the audio of `text` is cached inside a document's directory: the
/// FNV-1a hash of its UTF-8 bytes in 16 hex digits, with the ".pcm" suffix.
pub open spec fn cache_file(document_dir: Seq<char>, text_bytes: Seq<u8>) -> Seq<char> {
    join_path(document_dir, hex_fixed(fnv1a(text_bytes) as nat, 16) + ".pcm"@)
}

fn push_hex(out: &mut Vec<char>, n: u64, width: u32)
    ensures
        final(out)@ == old(out)@ + hex_fixed(n as nat, width as nat),
    decreases width,
{
    if width == 0 {
        return ;
    }
    push_hex(out, n / 16, width - 1);
    let d = (n % 16) as u8;
    let c = if d < 10 {
        (48 + d) as char
    } else {
        (87 + d) as char
    };
    out.push(c);
}

pub fn cache_path(document_dir: &str, text: &str) -> (r: String)
    ensures
        r@ == cache_file(document_dir@, text.spec_bytes()),
{
    let bytes = text.as_bytes();
    let mut hash: u64 = 0xcbf29ce484222325;
    let mut i: usize = 0;
    assert(bytes@.take(0) == Seq::<u8>::empty());
    while i < bytes.len()
        invariant
            0 <= i <= bytes@.len(),
            hash == fnv1a(bytes@.take(i as int)),
        decreases bytes@.len() - i,
    {
        assert(bytes@.take(i + 1).drop_last() == bytes@.take(i as int));
        hash = (hash ^ (bytes[i] as u64)).wrapping_mul(0x100000001b3);
        i += 1;
    }
    assert(bytes@.take(bytes@.len() as int) == bytes@);
    let mut name: Vec<char> = Vec::new();
    push_hex(&mut name, hash, 16);
    push_all(&mut name, &to_chars(".pcm"));
    let mut out = to_chars(document_dir);
    if out.len() > 0 && out[out.len() - 1] != '/' {
        out.push('/');
    }
    push_all(&mut out, &name);
    from_chars(&out)
}

/// The directory that holds one revision of a document's speech:
/// `<data>/tts/<id>/<revision>`.
pub open spec fn speech_dir_of(data_dir: Seq<char>, id: u64, revision: u64) -> Seq<char> {
    join_path(join_path(join_path(data_dir, "tts"@), decimal(id as nat)), decimal(revision as nat))
}

fn push_component(out: &mut Vec<char>, name: &[char])
    ensures
        final(out)@ == join_path(old(out)@, name@),
{
    if out.len() > 0 && out[out.len() - 1] != '/' {
        out.push('/');
    }
    push_all(out, name);
}

/// The directory that holds one revision of a document's speech.
pub fn speech_dir(data_dir: &str, id: u64, revision: u64) -> (r: String)
    ensures
        r@ == speech_dir_of(data_dir@, id, revision),
{
    let mut out = to_chars(data_dir);
    push_component(&mut out, &to_chars("tts"));
    let mut number: Vec<char> = Vec::new();
    push_decimal(&mut number, id);
    push_component(&mut out, &number);
    let mut number: Vec<char> = Vec::new();
    push_decimal(&mut number, revision);
    push_component(&mut out, &number);
    from_chars(&out)
}

proof fn lemma_digit_char(d: nat)
    requires
        d < 10,
    ensures
        digit_char(d) as u32 == d + 48,
        digit_char(d) != '/',
{
}

proof fn lemma_decimal_shape(n: nat)
    ensures
        decimal(n).len() >= 1,
        n < 10 ==> decimal(n).len() == 1,
        n >= 10 ==> decimal(n).len() >= 2,
        decimal(n).last() != '/',
    decreases n,
{
    if n < 10 {
        lemma_digit_char(n);
    } else {
        lemma_decimal_shape(n / 10);
        lemma_digit_char(n % 10);
    }
}

proof fn lemma_decimal_injective(a: nat, b: nat)
    requires
        decimal(a) == decimal(b),
    ensures
        a == b,
    decreases a,
{
    lemma_decimal_shape(a);
    lemma_decimal_shape(b);
    if a < 10 && b < 10 {
        lemma_digit_char(a);
        lemma_digit_char(b);
        assert(decimal(a)[0] == decimal(b)[0]);
    } else if a >= 10 && b >= 10 {
        let (da, db) = (decimal(a), decimal(b));
        assert(da.last() == db.last());
        lemma_digit_char(a % 10);
        lemma_digit_char(b % 10);
        assert(da.drop_last() == db.drop_last());
        assert(decimal(a / 10) == da.drop_last());
        assert(decimal(b / 10) == db.drop_last());
        lemma_decimal_injective(a / 10, b / 10);
    }
}

proof fn lemma_join_plain(dir: Seq<char>, name: Seq<char>)
    requires
        dir.len() > 0,
        dir.last() != '/',
    ensures
        join_path(dir, name) == dir + seq!['/'] + name,
{
}

/// A document's speech is reused only until it is regenerated: the file a
/// sentence's audio is cached in for one revision is never the file read
/// for another revision.
pub proof fn law_revisions_keep_their_own_audio(
    data_dir: Seq<char>,
    id: u64,
    first: u64,
    second: u64,
    text_bytes: Seq<u8>,
)
    requires
        first != second,
    ensures
        cache_file(speech_dir_of(data_dir, id, first), text_bytes) != cache_file(
            speech_dir_of(data_dir, id, second),
            text_bytes,
        ),
{
    let p = join_path(join_path(data_dir, "tts"@), decimal(id as nat));
    lemma_decimal_shape(id as nat);
    lemma_decimal_shape(first as nat);
    lemma_decimal_shape(second as nat);
    assert(p.last() == decimal(id as nat).last()) by {
        let q = join_path(data_dir, "tts"@);
        if q.len() == 0 || q.last() == '/' {
            assert((q + decimal(id as nat)).last() == decimal(id as nat).last());
        } else {
            assert((q + seq!['/'] + decimal(id as nat)).last() == decimal(id as nat).last());
        }
    }
    let d1 = p + seq!['/'] + decimal(first as nat);
    let d2 = p + seq!['/'] + decimal(second as nat);
    lemma_join_plain(p, decimal(first as nat));
    lemma_join_plain(p, decimal(second as nat));
    assert(d1.last() == decimal(first as nat).last());
    assert(d2.last() == decimal(second as nat).last());
    let name = hex_fixed(fnv1a(text_bytes) as nat, 16) + ".pcm"@;
    lemma_join_plain(d1, name);
    lemma_join_plain(d2, name);
    if cache_file(speech_dir_of(data_dir, id, first), text_bytes) == cache_file(
        speech_dir_of(data_dir, id, second),
        text_bytes,
    ) {
        let whole1 = d1 + seq!['/'] + name;
        let whole2 = d2 + seq!['/'] + name;
        assert(whole1 == whole2);
        assert(d1.len() == d2.len());
        assert(whole1.subrange(0, d1.len() as int) == d1);
        assert(whole2.subrange(0, d2.len() as int) == d2);
        assert(d1 == d2);
        let start = p.len() as int + 1;
        assert(d1.subrange(start, d1.len() as int) == decimal(first as nat));
        assert(d2.subrange(start, d2.len() as int) == decimal(second as nat));
        lemma_decimal_injective(first as nat, second as nat);
    }
}

// ---------------------------------------------------------------------------
// Cache file contents
// ---------------------------------------------------------------------------

/// The 8-byte tag "BIBITTS1" that opens a cache file.
pub open spec fn cache_magic() -> Seq<u8> {
    seq![66u8, 73u8, 66u8, 73u8, 84u8, 84u8, 83u8, 49u8]
}

/// Little-endian bytes of a 32-bit value.
pub open spec fn le32(x: u32) -> Seq<u8> {
    seq![x as u8, (x >> 8u32) as u8, (x >> 16u32) as u8, (x >> 24u32) as u8]
}

/// Little-endian bytes of a 16-bit value.
pub open spec fn le16(x: u16) -> Seq<u8> {
    seq![x as u8, (x >> 8u16) as u8]
}

/// The little-endian 32-bit value at `at`.
pub open spec fn u32_at(b: Seq<u8>, at: int) -> u32 {
    (b[at] as u32) | ((b[at + 1] as u32) << 8u32) | ((b[at + 2] as u32) << 16u32) | ((b[at
        + 3] as u32) << 24u32)
}

/// The little-endian 16-bit sample at `at`.
pub open spec fn i16_at(b: Seq<u8>, at: int) -> i16 {
    ((b[at] as u16) | ((b[at + 1] as u16) << 8u16)) as i16
}

/// The samples, two little-endian bytes each.
pub open spec fn sample_bytes(samples: Seq<i16>) -> Seq<u8>
    decreases samples.len(),
{
    if samples.len() == 0 {
        Seq::empty()
    } else {
        sample_bytes(samples.drop_last()) + le16(samples.last() as u16)
    }
}

/// A cache file: tag, sample rate, text length, sample count, the text's
/// UTF-8 bytes, then the samples.
pub open spec fn cache_bytes(text_bytes: Seq<u8>, sample_rate: i32, samples: Seq<i16>) -> Seq<
    u8,
> {
    cache_magic() + le32(sample_rate as u32) + le32(text_bytes.len() as u32) + le32(
        samples.len() as u32,
    ) + text_bytes + sample_bytes(samples)
}

/// The audio a cache file holds for `text_bytes`, if it is well formed: the
/// tag, a positive rate, at least one sample, a length that matches the
/// header exactly, and the same text.
pub open spec fn cached_audio_of(bytes: Seq<u8>, text_bytes: Seq<u8>) -> Option<(i32, Seq<i16>)> {
    if bytes.len() < 20 || bytes.take(8) != cache_magic() {
        None
    } else {
        let rate = u32_at(bytes, 8) as i32;
        let text_len = u32_at(bytes, 12) as int;
        let count = u32_at(bytes, 16) as int;
        let pcm_start = 20 + text_len;
        let expected = pcm_start + 2 * count;
        if pcm_start > usize::MAX || 2 * count > usize::MAX || expected > usize::MAX {
            None
        } else if rate <= 0 || count == 0 || expected != bytes.len() || bytes.subrange(
            20,
            pcm_start,
        ) != text_bytes {
            None
        } else {
            Some((rate, Seq::new(count as nat, |i: int| i16_at(bytes, pcm_start + 2 * i))))
        }
    }
}

fn push_le32(out: &mut Vec<u8>, x: u32)
    ensures
        final(out)@ == old(out)@ + le32(x),
{
    out.push(x as u8);
    out.push((x >> 8u32) as u8);
    out.push((x >> 16u32) as u8);
    out.push((x >> 24u32) as u8);
    assert(final(out)@ == old(out)@ + le32(x));
}

/// The bytes of the cache file for `text` and `audio`; an error when the
/// text or the samples are too long for the 32-bit header fields.
pub fn encode_cached_audio(text: &str, audio: &TtsAudio) -> (r: Result<Vec<u8>, String>)
    ensures
        r is Ok <==> text.spec_bytes().len() <= u32::MAX && audio.samples@.len() <= u32::MAX,
        r matches Ok(b) ==> b@ == cache_bytes(text.spec_bytes(), audio.sample_rate, audio.samples@),
        r matches Err(e) ==> e@ == "out of range integral type conversion attempted"@,
{
    let text_bytes = text.as_bytes();
    if text_bytes.len() > 0xffff_ffff || audio.samples.len() > 0xffff_ffff {
        return Err("out of range integral type conversion attempted".to_owned());
    }
    let mut out: Vec<u8> = Vec::new();
    out.push(66u8);
    out.push(73u8);
    out.push(66u8);
    out.push(73u8);
    out.push(84u8);
    out.push(84u8);
    out.push(83u8);
    out.push(49u8);
    assert(out@ == cache_magic());
    push_le32(&mut out, audio.sample_rate as u32);
    push_le32(&mut out, text_bytes.len() as u32);
    push_le32(&mut out, audio.samples.len() as u32);
    let ghost header = out@;
    let mut i: usize = 0;
    while i < text_bytes.len()
        invariant
            0 <= i <= text_bytes@.len(),
            out@ == header + text_bytes@.take(i as int),
        decreases text_bytes@.len() - i,
    {
        out.push(text_bytes[i]);
        i += 1;
        assert(text_bytes@.take(i as int) == text_bytes@.take(i - 1 as int).push(
            text_bytes@[i - 1],
        ));
    }
    assert(text_bytes@.take(text_bytes@.len() as int) == text_bytes@);
    let ghost body = out@;
    let mut k: usize = 0;
    assert(audio.samples@.take(0) == Seq::<i16>::empty());
    while k < audio.samples.len()
        invariant
            0 <= k <= audio.samples@.len(),
            out@ == body + sample_bytes(audio.samples@.take(k as int)),
        decreases audio.samples@.len() - k,
    {
        let s = audio.samples[k] as u16;
        out.push(s as u8);
        out.push((s >> 8u16) as u8);
        proof {
            assert(audio.samples@.take(k + 1).drop_last() == audio.samples@.take(k as int));
        }
        k += 1;
    }
    assert(audio.samples@.take(audio.samples@.len() as int) == audio.samples@);
    Ok(out)
}

fn read_u32(b: &[u8], at: usize) -> (r: u32)
    requires
        at + 4 <= b@.len(),
    ensures
        r == u32_at(b@, at as int),
{
    (b[at] as u32) | ((b[at + 1] as u32) << 8u32) | ((b[at + 2] as u32) << 16u32) | ((b[at
        + 3] as u32) << 24u32)
}

/// The audio cached in `bytes` for `text`, or `None` when the file is not a
/// well-formed cache entry for exactly this text.
pub fn decode_cached_audio(bytes: &[u8], text: &str) -> (r: Option<TtsAudio>)
    ensures
        match cached_audio_of(bytes@, text.spec_bytes()) {
            None => r is None,
            Some((rate, samples)) => r matches Some(a) && a.sample_rate == rate && a.samples@
                == samples,
        },
{
    if bytes.len() < 20 {
        return None;
    }
    if bytes[0] != 66u8 || bytes[1] != 73u8 || bytes[2] != 66u8 || bytes[3] != 73u8 || bytes[4]
        != 84u8 || bytes[5] != 84u8 || bytes[6] != 83u8 || bytes[7] != 49u8 {
        assert(bytes@.take(8) != cache_magic()) by {
            if bytes@.take(8) == cache_magic() {
                assert(bytes@.take(8)[0] == bytes@[0]);
                assert(bytes@.take(8)[1] == bytes@[1]);
                assert(bytes@.take(8)[2] == bytes@[2]);
                assert(bytes@.take(8)[3] == bytes@[3]);
                assert(bytes@.take(8)[4] == bytes@[4]);
                assert(bytes@.take(8)[5] == bytes@[5]);
                assert(bytes@.take(8)[6] == bytes@[6]);
                assert(bytes@.take(8)[7] == bytes@[7]);
            }
        }
        return None;
    }
    assert(bytes@.take(8) == cache_magic());
    let sample_rate = read_u32(bytes, 8) as i32;
    let text_len = read_u32(bytes, 12) as usize;
    let sample_count = read_u32(bytes, 16) as usize;
    let pcm_start = match 20usize.checked_add(text_len) {
        Some(v) => v,
        None => return None,
    };
    let doubled = match sample_count.checked_mul(2) {
        Some(v) => v,
        None => return None,
    };
    let expected = match pcm_start.checked_add(doubled) {
        Some(v) => v,
        None => return None,
    };
    if sample_rate <= 0 || sample_count == 0 || expected != bytes.len() {
        return None;
    }
    let text_bytes = text.as_bytes();
    if text_bytes.len() != text_len {
        assert(bytes@.subrange(20, pcm_start as int).len() != text_bytes@.len());
        return None;
    }
    let mut i: usize = 0;
    while i < text_len
        invariant
            20 + text_len == pcm_start <= bytes@.len(),
            text_bytes@ == text.spec_bytes(),
            text_bytes@.len() == text_len,
            cached_audio_of(bytes@, text.spec_bytes()) == (if bytes@.subrange(20, pcm_start as int)
                == text_bytes@ {
                Some(
                    (
                        sample_rate,
                        Seq::new(
                            sample_count as nat,
                            |j: int| i16_at(bytes@, pcm_start + 2 * j),
                        ),
                    ),
                )
            } else {
                None
            }),
            0 <= i <= text_len,
            forall|j: int| 0 <= j < i ==> bytes@[20 + j] == text_bytes@[j],
        decreases text_len - i,
    {
        if bytes[20 + i] != text_bytes[i] {
            assert(bytes@.subrange(20, pcm_start as int)[i as int] != text_bytes@[i as int]);
            return None;
        }
        i += 1;
    }
    assert(bytes@.subrange(20, pcm_start as int) == text_bytes@);
    let mut samples: Vec<i16> = Vec::new();
    let mut k: usize = 0;
    let total = bytes.len();
    while k < sample_count
        invariant
            total == bytes@.len(),
            pcm_start + 2 * sample_count == bytes@.len(),
            0 <= k <= sample_count,
            samples@.len() == k,
            forall|j: int| 0 <= j < k ==> samples@[j] == i16_at(bytes@, pcm_start + 2 * j),
        decreases sample_count - k,
    {
        let at = pcm_start + 2 * k;
        let s = ((bytes[at] as u16) | ((bytes[at + 1] as u16) << 8u16)) as i16;
        samples.push(s);
        k += 1;
    }
    assert(samples@ == Seq::new(sample_count as nat, |j: int| i16_at(bytes@, pcm_start + 2 * j)));
    Some(TtsAudio { samples, sample_rate })
}

proof fn lemma_le32_roundtrip(x: u32)
    ensures
        u32_at(le32(x), 0) == x,
{
    let b = le32(x);
    assert(((x as u8) as u32) | ((((x >> 8u32) as u8) as u32) << 8u32) | ((((x >> 16u32) as u8)
        as u32) << 16u32) | ((((x >> 24u32) as u8) as u32) << 24u32) == x) by (bit_vector);
}

proof fn lemma_le16_roundtrip(x: i16)
    ensures
        ((((x as u16) as u8) as u16) | ((((x as u16) >> 8u16) as u8) as u16) << 8u16) as i16 == x,
{
    assert(((((x as u16) as u8) as u16) | ((((x as u16) >> 8u16) as u8) as u16) << 8u16) as i16
        == x) by (bit_vector);
}

proof fn lemma_i32_u32(x: i32)
    ensures
        (x as u32) as i32 == x,
{
    assert((x as u32) as i32 == x) by (bit_vector);
}

proof fn lemma_sample_bytes(s: Seq<i16>)
    ensures
        sample_bytes(s).len() == 2 * s.len(),
        forall|j: int|
            0 <= j < s.len() ==> #[trigger] sample_bytes(s)[2 * j] == (s[j] as u16) as u8
                && sample_bytes(s)[2 * j + 1] == ((s[j] as u16) >> 8u16) as u8,
    decreases s.len(),
{
    if s.len() > 0 {
        lemma_sample_bytes(s.drop_last());
        assert forall|j: int| 0 <= j < s.len() implies #[trigger] sample_bytes(s)[2 * j] == (
        s[j] as u16) as u8 && sample_bytes(s)[2 * j + 1] == ((s[j] as u16) >> 8u16) as u8 by {
            if j < s.len() - 1 {
                assert(s.drop_last()[j] == s[j]);
                assert(sample_bytes(s.drop_last())[2 * j] == (s[j] as u16) as u8);
            }
        }
    }
}

proof fn lemma_u32_at_shift(a: Seq<u8>, b: Seq<u8>, at: int)
    requires
        0 <= at,
        at + 4 <= b.len(),
    ensures
        u32_at(a + b, a.len() + at) == u32_at(b, at),
{
    assert((a + b)[a.len() + at] == b[at]);
    assert((a + b)[a.len() + at + 1] == b[at + 1]);
    assert((a + b)[a.len() + at + 2] == b[at + 2]);
    assert((a + b)[a.len() + at + 3] == b[at + 3]);
}

/// Where the parts of a cache file stand: the header fields read back as
/// written, the text follows the header, and the samples follow the text.
proof fn lemma_cache_layout(text_bytes: Seq<u8>, sample_rate: i32, samples: Seq<i16>)
    requires
        text_bytes.len() <= u32::MAX,
        samples.len() <= u32::MAX,
    ensures
        ({
            let b = cache_bytes(text_bytes, sample_rate, samples);
            let pcm_start: int = 20 + text_bytes.len() as int;
            &&& b.len() == 20 + text_bytes.len() + 2 * samples.len()
            &&& b.take(8) == cache_magic()
            &&& u32_at(b, 8) as i32 == sample_rate
            &&& u32_at(b, 12) == text_bytes.len()
            &&& u32_at(b, 16) == samples.len()
            &&& b.subrange(20, pcm_start) == text_bytes
            &&& Seq::new(samples.len(), |i: int| i16_at(b, pcm_start + 2 * i)) == samples
        }),
{
    let b = cache_bytes(text_bytes, sample_rate, samples);
    let h0 = cache_magic();
    let h1 = h0 + le32(sample_rate as u32);
    let h2 = h1 + le32(text_bytes.len() as u32);
    let h3 = h2 + le32(samples.len() as u32);
    let h4 = h3 + text_bytes;
    lemma_sample_bytes(samples);
    assert(b == h4 + sample_bytes(samples));
    assert(b.len() == 20 + text_bytes.len() + 2 * samples.len());
    assert(b.take(8) == cache_magic()) by {
        assert(b.take(8) == h0);
    }
    lemma_le32_roundtrip(sample_rate as u32);
    lemma_le32_roundtrip(text_bytes.len() as u32);
    lemma_le32_roundtrip(samples.len() as u32);
    lemma_i32_u32(sample_rate);
    let rest = le32(sample_rate as u32) + le32(text_bytes.len() as u32) + le32(
        samples.len() as u32,
    ) + text_bytes + sample_bytes(samples);
    assert(b == h0 + rest);
    lemma_u32_at_shift(h0, rest, 0);
    let rest2 = le32(text_bytes.len() as u32) + le32(samples.len() as u32) + text_bytes
        + sample_bytes(samples);
    assert(b == h1 + rest2);
    lemma_u32_at_shift(h1, rest2, 0);
    let rest3 = le32(samples.len() as u32) + text_bytes + sample_bytes(samples);
    assert(b == h2 + rest3);
    lemma_u32_at_shift(h2, rest3, 0);
    assert(u32_at(le32(sample_rate as u32) + le32(text_bytes.len() as u32) + le32(
        samples.len() as u32,
    ) + text_bytes + sample_bytes(samples), 0) == u32_at(le32(sample_rate as u32), 0));
    assert(u32_at(rest2, 0) == u32_at(le32(text_bytes.len() as u32), 0));
    assert(u32_at(rest3, 0) == u32_at(le32(samples.len() as u32), 0));
    assert(u32_at(b, 8) == sample_rate as u32);
    assert(u32_at(b, 12) == text_bytes.len() as u32);
    assert(u32_at(b, 16) == samples.len() as u32);
    let pcm_start: int = 20 + text_bytes.len() as int;
    assert(b.subrange(20, pcm_start) == text_bytes) by {
        assert(h3.len() == 20);
        assert forall|j: int| 0 <= j < text_bytes.len() implies b.subrange(20, pcm_start)[j]
            == text_bytes[j] by {
            assert(b[20 + j] == h4[20 + j]);
        }
    }
    assert(Seq::new(samples.len(), |i: int| i16_at(b, pcm_start + 2 * i)) == samples) by {
        assert forall|i: int| 0 <= i < samples.len() implies i16_at(b, pcm_start + 2 * i)
            == samples[i] by {
            assert(b[pcm_start + 2 * i] == sample_bytes(samples)[2 * i]);
            assert(b[pcm_start + 2 * i + 1] == sample_bytes(samples)[2 * i + 1]);
            lemma_le16_roundtrip(samples[i]);
        }
    }
}

/// Reading a cache entry gives back what writing it stored: the file that
/// `encode_cached_audio` produces for a text and its audio decodes, for the
/// same text, to the same sample rate and samples (for a positive rate, at
/// least one sample, and a file size that fits in memory).
pub proof fn law_cached_audio_round_trip(text_bytes: Seq<u8>, sample_rate: i32, samples: Seq<i16>)
    requires
        sample_rate > 0,
        samples.len() > 0,
        text_bytes.len() <= u32::MAX,
        samples.len() <= u32::MAX,
        20 + text_bytes.len() + 2 * samples.len() <= usize::MAX,
    ensures
        cached_audio_of(cache_bytes(text_bytes, sample_rate, samples), text_bytes) == Some(
            (sample_rate, samples),
        ),
{
    lemma_cache_layout(text_bytes, sample_rate, samples);
}

/// A cache entry is only ever read back for its own text: for any other
/// text the file holds no audio.
pub proof fn law_cache_entry_belongs_to_its_text(
    text_bytes: Seq<u8>,
    other: Seq<u8>,
    sample_rate: i32,
    samples: Seq<i16>,
)
    requires
        other != text_bytes,
        text_bytes.len() <= u32::MAX,
        samples.len() <= u32::MAX,
    ensures
        cached_audio_of(cache_bytes(text_bytes, sample_rate, samples), other) is None,
{
    lemma_cache_layout(text_bytes, sample_rate, samples);
}

/// Audio that cannot be played never reads back from the cache: whatever a
/// cache file holds is read only with a positive sample rate and at least
/// one sample, so an entry written with a rate that is not positive, or
/// with no samples, gives nothing.
pub proof fn law_unplayable_audio_never_reads_back(
    bytes: Seq<u8>,
    text_bytes: Seq<u8>,
    sample_rate: i32,
    samples: Seq<i16>,
)
    requires
        text_bytes.len() <= u32::MAX,
        samples.len() <= u32::MAX,
    ensures
        cached_audio_of(bytes, text_bytes) matches Some((rate, read)) ==> rate > 0 && read.len()
            > 0,
        sample_rate <= 0 || samples.len() == 0 ==> cached_audio_of(
            cache_bytes(text_bytes, sample_rate, samples),
            text_bytes,
        ) is None,
{
    lemma_cache_layout(text_bytes, sample_rate, samples);
}

// ---------------------------------------------------------------------------
// Cutting text into sentences
// ---------------------------------------------------------------------------

/// The character views of a list of strings.
pub open spec fn views(v: Seq<String>) -> Seq<Seq<char>> {
    v.map_values(|s: String| s@)
}

/// How many characters of `s` are alphabetic.
pub open spec fn alpha_count(s: Seq<char>) -> nat
    decreases s.len(),
{
    if s.len() == 0 {
        0
    } else {
        alpha_count(s.drop_last()) + if unicode_alphabetic(s.last()) {
            1nat
        } else {
            0nat
        }
    }
}

/// The splitter's state: the sentences found so far, the sentence being
/// built, and how many characters have gone into it.
pub struct SplitState {
    pub sentences: Seq<Seq<char>>,
    pub current: Seq<char>,
    pub count: nat,
}

/// Closing the current sentence: it is kept, trimmed, only when it holds at
/// least two letters (so stray OCR symbols are never read out).
pub open spec fn flush(st: SplitState) -> SplitState {
    SplitState {
        sentences: if alpha_count(st.current) >= 2 {
            st.sentences.push(trim_seq(st.current))
        } else {
            st.sentences
        },
        current: Seq::empty(),
        count: 0,
    }
}

pub open spec fn is_stop_mark(c: char) -> bool {
    c == '。' || c == '！' || c == '？' || c == '!' || c == '?' || c == '；' || c == ';'
}

pub open spec fn is_comma(c: char) -> bool {
    c == '，' || c == ','
}

/// Whether `c`, followed by `next` in its line, ends a sentence once the
/// sentence holds `count` characters: a stop mark; a full stop at the end of
/// the line or before whitespace (so "example.com" stays whole); or a comma in
/// a clause of at least 30 characters.
pub open spec fn ends_sentence(c: char, next: Option<char>, count: nat) -> bool {
    ||| is_stop_mark(c)
    ||| (c == '.' && match next {
        None => true,
        Some(n) => is_ws(n),
    })
    ||| (is_comma(c) && count >= 30)
}

/// The character after position `k - 1` of `line`, if any.
pub open spec fn next_in(line: Seq<char>, k: int) -> Option<char> {
    if 0 <= k < line.len() {
        Some(line[k])
    } else {
        None
    }
}

/// Adding one character; a sentence also closes when it reaches 120
/// characters.
pub open spec fn feed_char(st: SplitState, c: char, next: Option<char>) -> SplitState {
    let grown = SplitState { sentences: st.sentences, current: st.current.push(c), count: st.count + 1 };
    if ends_sentence(c, next, grown.count) || grown.count >= 120 {
        flush(grown)
    } else {
        grown
    }
}

/// The state after the first `k` characters of a (trimmed) line.
pub open spec fn feed_line(st: SplitState, line: Seq<char>, k: nat) -> SplitState
    decreases k,
{
    if k == 0 {
        st
    } else {
        let j = (k - 1) as nat;
        feed_char(feed_line(st, line, j), line[j as int], next_in(line, k as int))
    }
}

/// Between line `i` and the next: a short line (under 40 characters, this
/// one or the next) ends the sentence; two long lines are one wrapped
/// paragraph, joined by a space.
pub open spec fn line_break(st: SplitState, lines: Seq<Seq<char>>, i: int) -> SplitState {
    if i + 1 < lines.len() {
        if trim_seq(lines[i]).len() < 40 || trim_seq(lines[i + 1]).len() < 40 {
            flush(st)
        } else if st.current.len() > 0 {
            SplitState { sentences: st.sentences, current: st.current.push(' '), count: st.count + 1 }
        } else {
            st
        }
    } else {
        st
    }
}

/// The state after the first `n` lines.
pub open spec fn feed_lines(lines: Seq<Seq<char>>, n: nat) -> SplitState
    decreases n,
{
    if n == 0 {
        SplitState { sentences: Seq::empty(), current: Seq::empty(), count: 0 }
    } else {
        let i = (n - 1) as nat;
        let line = trim_seq(lines[i as int]);
        line_break(feed_line(feed_lines(lines, i), line, line.len()), lines, i as int)
    }
}

/// The sentences of `text`, in reading order.
pub open spec fn sentence_split(text: Seq<char>) -> Seq<Seq<char>> {
    let lines = split_seq(text, '\n');
    flush(feed_lines(lines, lines.len())).sentences
}

fn is_stop_mark_char(c: char) -> (b: bool)
    ensures
        b == is_stop_mark(c),
{
    c == '。' || c == '！' || c == '？' || c == '!' || c == '?' || c == '；' || c == ';'
}

fn push_sentence(chunks: &mut Vec<String>, chunk: &mut Vec<char>)
    ensures
        views(final(chunks)@) == flush(
            SplitState { sentences: views(old(chunks)@), current: old(chunk)@, count: 0 },
        ).sentences,
        final(chunk)@ == Seq::<char>::empty(),
{
    let mut letters: usize = 0;
    let mut i: usize = 0;
    while i < chunk.len()
        invariant
            0 <= i <= chunk@.len(),
            letters == alpha_count(chunk@.take(i as int)),
            letters <= i,
        decreases chunk@.len() - i,
    {
        proof {
            assert(chunk@.take(i + 1).drop_last() == chunk@.take(i as int));
        }
        if is_alphabetic(chunk[i]) {
            letters += 1;
        }
        i += 1;
    }
    assert(chunk@.take(chunk@.len() as int) == chunk@);
    if letters >= 2 {
        let kept = from_chars(&trim_chars(chunk));
        let ghost before = chunks@;
        chunks.push(kept);
        assert(views(chunks@) == views(before).push(kept@));
    }
    *chunk = Vec::new();
}

/// `text` cut into sentences for reading aloud.
pub fn sentence_chunks(text: &str) -> (r: Vec<String>)
    ensures
        views(r@) == sentence_split(text@),
{
    let chars = to_chars(text);
    let lines = split_chars(&chars, '\n');
    let ghost ls = split_seq(text@, '\n');
    let mut chunks: Vec<String> = Vec::new();
    let mut chunk: Vec<char> = Vec::new();
    let mut count: usize = 0;
    let mut index: usize = 0;
    assert(views(chunks@) == Seq::<Seq<char>>::empty());
    while index < lines.len()
        invariant
            lines@.len() == ls.len(),
            forall|j: int| 0 <= j < lines@.len() ==> #[trigger] lines@[j]@ == ls[j],
            0 <= index <= lines@.len(),
            views(chunks@) == feed_lines(ls, index as nat).sentences,
            chunk@ == feed_lines(ls, index as nat).current,
            count == feed_lines(ls, index as nat).count,
            count <= 120,
        decreases lines@.len() - index,
    {
        let line = trim_chars(lines[index].as_slice());
        let ghost start = feed_lines(ls, index as nat);
        let mut k: usize = 0;
        while k < line.len()
            invariant
                0 <= k <= line@.len(),
                views(chunks@) == feed_line(start, line@, k as nat).sentences,
                chunk@ == feed_line(start, line@, k as nat).current,
                count == feed_line(start, line@, k as nat).count,
                count <= 120,
            decreases line@.len() - k,
        {
            let c = line[k];
            chunk.push(c);
            count += 1;
            let at_line_end = k + 1 >= line.len();
            let next_is_space = if at_line_end {
                true
            } else {
                is_whitespace(line[k + 1])
            };
            let end = is_stop_mark_char(c) || (c == '.' && next_is_space) || ((c == '，' || c
                == ',') && count >= 30);
            if end || count >= 120 {
                push_sentence(&mut chunks, &mut chunk);
                count = 0;
            }
            k += 1;
        }
        if index + 1 < lines.len() {
            let next = trim_chars(lines[index + 1].as_slice());
            if line.len() < 40 || next.len() < 40 {
                push_sentence(&mut chunks, &mut chunk);
                count = 0;
            } else if chunk.len() > 0 {
                chunk.push(' ');
                count += 1;
            }
        }
        index += 1;
    }
    push_sentence(&mut chunks, &mut chunk);
    chunks
}

/// The splitter's bookkeeping: the count is the length of the current
/// sentence, which stays within 120 characters, and no closed sentence is
/// longer than 121 characters.
pub open spec fn split_bounded(st: SplitState) -> bool {
    &&& st.count == st.current.len()
    &&& st.current.len() <= 120
    &&& forall|i: int| 0 <= i < st.sentences.len() ==> #[trigger] st.sentences[i].len() <= 121
}

proof fn lemma_trim_len(s: Seq<char>)
    ensures
        trim_seq(s).len() <= s.len(),
{
    lemma_trim_start_len(s);
    lemma_trim_end_len(crate::text::trim_start_seq(s));
}

proof fn lemma_trim_start_len(s: Seq<char>)
    ensures
        crate::text::trim_start_seq(s).len() <= s.len(),
    decreases s.len(),
{
    if s.len() > 0 && is_ws(s[0]) {
        lemma_trim_start_len(s.drop_first());
    }
}

proof fn lemma_trim_end_len(s: Seq<char>)
    ensures
        crate::text::trim_end_seq(s).len() <= s.len(),
    decreases s.len(),
{
    if s.len() > 0 && is_ws(s.last()) {
        lemma_trim_end_len(s.drop_last());
    }
}

proof fn lemma_feed_line_bounded(st: SplitState, line: Seq<char>, k: nat)
    requires
        split_bounded(st),
        st.count <= 120,
    ensures
        split_bounded(feed_line(st, line, k)),
        k > 0 ==> feed_line(st, line, k).count < 120,
    decreases k,
{
    if k > 0 {
        let j = (k - 1) as nat;
        lemma_feed_line_bounded(st, line, j);
        let prev = feed_line(st, line, j);
        let grown = SplitState { sentences: prev.sentences, current: prev.current.push(line[j as int]), count: prev.count + 1 };
        if ends_sentence(line[j as int], next_in(line, k as int), grown.count) || grown.count >= 120 {
            lemma_trim_len(grown.current);
        }
    }
}

proof fn lemma_feed_lines_bounded(lines: Seq<Seq<char>>, n: nat)
    requires
        n <= lines.len(),
    ensures
        split_bounded(feed_lines(lines, n)),
    decreases n,
{
    if n > 0 {
        let i = (n - 1) as nat;
        lemma_feed_lines_bounded(lines, i);
        let line = trim_seq(lines[i as int]);
        let before = feed_lines(lines, i);
        lemma_feed_line_bounded(before, line, line.len());
        let st = feed_line(before, line, line.len());
        if i + 1 < lines.len() && (trim_seq(lines[i as int]).len() < 40 || trim_seq(
            lines[i as int + 1],
        ).len() < 40) {
            lemma_trim_len(st.current);
        }
    }
}

/// No sentence handed to the speech engine is longer than 121 characters:
/// a sentence is cut at 120, and only the space that joins two wrapped lines
/// can come on top.
pub proof fn law_sentences_are_bounded(text: Seq<char>)
    ensures
        forall|i: int|
            0 <= i < sentence_split(text).len() ==> #[trigger] sentence_split(text)[i].len()
                <= 121,
{
    let lines = split_seq(text, '\n');
    lemma_feed_lines_bounded(lines, lines.len());
    lemma_trim_len(feed_lines(lines, lines.len()).current);
}

proof fn lemma_trim_start_shape(s: Seq<char>)
    ensures
        trim_start_seq(s).len() == 0 || !is_ws(trim_start_seq(s)[0]),
    decreases s.len(),
{
    if s.len() > 0 && is_ws(s[0]) {
        lemma_trim_start_shape(s.drop_first());
    }
}

proof fn lemma_trim_end_shape(s: Seq<char>)
    ensures
        trim_end_seq(s) == s.take(trim_end_seq(s).len() as int),
        trim_end_seq(s).len() == 0 || !is_ws(trim_end_seq(s).last()),
    decreases s.len(),
{
    if s.len() > 0 && is_ws(s.last()) {
        lemma_trim_end_shape(s.drop_last());
        lemma_trim_end_len(s.drop_last());
        let t = trim_end_seq(s.drop_last());
        assert(s.drop_last().take(t.len() as int) =~= s.take(t.len() as int));
    } else {
        assert(s.take(s.len() as int) == s);
    }
}

/// Trimming twice is trimming once.
proof fn lemma_trim_idempotent(s: Seq<char>)
    ensures
        trim_seq(trim_seq(s)) == trim_seq(s),
{
    let t = trim_start_seq(s);
    lemma_trim_start_shape(s);
    lemma_trim_end_shape(t);
    let u = trim_end_seq(t);
    lemma_trim_end_len(t);
    if u.len() > 0 {
        assert(u[0] == t.take(u.len() as int)[0]);
        assert(u[0] == t[0]);
    }
    assert(trim_start_seq(u) == u);
    lemma_trim_end_shape(u);
    if u.len() > 0 {
        assert(!is_ws(u.last()));
    }
    assert(trim_end_seq(u) == u);
}

/// A sentence as the splitter keeps it: trimmed, and the trim of a piece
/// of text that holds at least two letters.
pub open spec fn kept_sentence(c: Seq<char>) -> bool {
    &&& trim_seq(c) == c
    &&& exists|piece: Seq<char>| alpha_count(piece) >= 2 && c == #[trigger] trim_seq(piece)
}

/// Every sentence in the state is one the splitter keeps.
pub open spec fn all_kept(st: SplitState) -> bool {
    forall|i: int| 0 <= i < st.sentences.len() ==> #[trigger] kept_sentence(st.sentences[i])
}

proof fn lemma_flush_kept(st: SplitState)
    requires
        all_kept(st),
    ensures
        all_kept(flush(st)),
{
    if alpha_count(st.current) >= 2 {
        lemma_trim_idempotent(st.current);
        let c = trim_seq(st.current);
        assert(kept_sentence(c));
        let after = flush(st).sentences;
        assert forall|i: int| 0 <= i < after.len() implies #[trigger] kept_sentence(after[i]) by {
            if i < st.sentences.len() {
                assert(after[i] == st.sentences[i]);
            }
        }
    }
}

proof fn lemma_feed_line_kept(st: SplitState, line: Seq<char>, k: nat)
    requires
        all_kept(st),
    ensures
        all_kept(feed_line(st, line, k)),
    decreases k,
{
    if k > 0 {
        let j = (k - 1) as nat;
        lemma_feed_line_kept(st, line, j);
        let prev = feed_line(st, line, j);
        let grown = SplitState {
            sentences: prev.sentences,
            current: prev.current.push(line[j as int]),
            count: prev.count + 1,
        };
        lemma_flush_kept(grown);
    }
}

proof fn lemma_feed_lines_kept(lines: Seq<Seq<char>>, n: nat)
    ensures
        all_kept(feed_lines(lines, n)),
    decreases n,
{
    if n > 0 {
        let i = (n - 1) as nat;
        lemma_feed_lines_kept(lines, i);
        let line = trim_seq(lines[i as int]);
        let before = feed_lines(lines, i);
        lemma_feed_line_kept(before, line, line.len());
        let st = feed_line(before, line, line.len());
        lemma_flush_kept(st);
    }
}

/// Every sentence handed to the speech engine is trimmed and comes from a
/// piece of text with at least two letters (stray OCR symbols are never
/// read out).
pub proof fn law_sentences_are_trimmed_and_readable(text: Seq<char>)
    ensures
        forall|i: int|
            0 <= i < sentence_split(text).len() ==> #[trigger] kept_sentence(
                sentence_split(text)[i],
            ),
{
    let lines = split_seq(text, '\n');
    lemma_feed_lines_kept(lines, lines.len());
    lemma_flush_kept(feed_lines(lines, lines.len()));
}

/// The marks after which a sentence is always cut: full-width and ASCII
/// question marks, exclamation marks and semicolons, and the ideographic
/// full stop.
pub open spec fn closing_mark(c: char) -> bool {
    c == '?' || c == '？' || c == '!' || c == '！' || c == ';' || c == '；' || c == '。'
}

/// No closing mark in `s` except, possibly, its last character.
pub open spec fn marks_only_at_end(s: Seq<char>) -> bool {
    forall|k: int| 0 <= k < s.len() - 1 ==> !closing_mark(#[trigger] s[k])
}

proof fn lemma_trim_start_skip(s: Seq<char>) -> (a: int)
    ensures
        0 <= a <= s.len(),
        trim_start_seq(s) == s.skip(a),
    decreases s.len(),
{
    if s.len() > 0 && is_ws(s[0]) {
        let a = lemma_trim_start_skip(s.drop_first());
        assert(s.drop_first().skip(a) =~= s.skip(a + 1));
        a + 1
    } else {
        assert(s.skip(0) =~= s);
        0
    }
}

proof fn lemma_trim_keeps_marks_at_end(s: Seq<char>)
    requires
        marks_only_at_end(s),
    ensures
        marks_only_at_end(trim_seq(s)),
{
    let a = lemma_trim_start_skip(s);
    let t = trim_start_seq(s);
    lemma_trim_end_shape(t);
    lemma_trim_end_len(t);
    let u = trim_end_seq(t);
    assert forall|k: int| 0 <= k < u.len() - 1 implies !closing_mark(#[trigger] u[k]) by {
        assert(u[k] == t.take(u.len() as int)[k]);
        assert(t[k] == s[a + k]);
        assert(a + k < s.len() - 1);
    }
}

/// Every sentence in the state has closing marks only at its end, and the
/// sentence being built has none.
pub open spec fn marks_close(st: SplitState) -> bool {
    &&& forall|k: int| 0 <= k < st.current.len() ==> !closing_mark(#[trigger] st.current[k])
    &&& forall|i: int| 0 <= i < st.sentences.len() ==> #[trigger] marks_only_at_end(st.sentences[i])
}

proof fn lemma_flush_marks(st: SplitState)
    requires
        marks_close(st) || (marks_only_at_end(st.current) && forall|i: int|
            0 <= i < st.sentences.len() ==> #[trigger] marks_only_at_end(st.sentences[i])),
    ensures
        marks_close(flush(st)),
{
    if !marks_close(st) {
    } else {
        assert(marks_only_at_end(st.current));
    }
    if alpha_count(st.current) >= 2 {
        lemma_trim_keeps_marks_at_end(st.current);
        let after = flush(st).sentences;
        assert forall|i: int| 0 <= i < after.len() implies #[trigger] marks_only_at_end(after[i]) by {
            if i < st.sentences.len() {
                assert(after[i] == st.sentences[i]);
            }
        }
    }
}

proof fn lemma_feed_line_marks(st: SplitState, line: Seq<char>, k: nat)
    requires
        marks_close(st),
    ensures
        marks_close(feed_line(st, line, k)),
    decreases k,
{
    if k > 0 {
        let j = (k - 1) as nat;
        lemma_feed_line_marks(st, line, j);
        let prev = feed_line(st, line, j);
        let c = line[j as int];
        let grown = SplitState { sentences: prev.sentences, current: prev.current.push(c), count: prev.count + 1 };
        assert(marks_only_at_end(grown.current)) by {
            assert forall|m: int| 0 <= m < grown.current.len() - 1 implies !closing_mark(
                #[trigger] grown.current[m],
            ) by {
                assert(grown.current[m] == prev.current[m]);
            }
        }
        if closing_mark(c) {
            assert(is_stop_mark(c));
            assert(ends_sentence(c, next_in(line, k as int), grown.count));
            lemma_flush_marks(grown);
        } else {
            assert(forall|m: int| 0 <= m < grown.current.len() ==> !closing_mark(
                #[trigger] grown.current[m],
            )) by {
                assert forall|m: int| 0 <= m < grown.current.len() implies !closing_mark(
                    #[trigger] grown.current[m],
                ) by {
                    if m < prev.current.len() {
                        assert(grown.current[m] == prev.current[m]);
                    }
                }
            }
            assert(marks_close(grown));
            if ends_sentence(c, next_in(line, k as int), grown.count) || grown.count >= 120 {
                lemma_flush_marks(grown);
            }
        }
    }
}

proof fn lemma_feed_lines_marks(lines: Seq<Seq<char>>, n: nat)
    ensures
        marks_close(feed_lines(lines, n)),
    decreases n,
{
    if n > 0 {
        let i = (n - 1) as nat;
        lemma_feed_lines_marks(lines, i);
        let line = trim_seq(lines[i as int]);
        let before = feed_lines(lines, i);
        lemma_feed_line_marks(before, line, line.len());
        let st = feed_line(before, line, line.len());
        if i + 1 < lines.len() {
            if trim_seq(lines[i as int]).len() < 40 || trim_seq(lines[i as int + 1]).len() < 40 {
                lemma_flush_marks(st);
            } else if st.current.len() > 0 {
                let joined = SplitState {
                    sentences: st.sentences,
                    current: st.current.push(' '),
                    count: st.count + 1,
                };
                assert forall|m: int| 0 <= m < joined.current.len() implies !closing_mark(
                    #[trigger] joined.current[m],
                ) by {
                    if m < st.current.len() {
                        assert(joined.current[m] == st.current[m]);
                    }
                }
            }
        }
    }
}

/// A question mark, an exclamation mark, a semicolon or an ideographic full
/// stop always ends its sentence: in every sentence the text is read in,
/// such a mark can only be the last character (so "你好吗？我很好。" is two
/// sentences).
pub proof fn law_closing_marks_end_sentences(text: Seq<char>)
    ensures
        forall|i: int, k: int|
            0 <= i < sentence_split(text).len() && 0 <= k < sentence_split(text)[i].len() - 1
                ==> !closing_mark(#[trigger] sentence_split(text)[i][k]),
{
    let lines = split_seq(text, '\n');
    lemma_feed_lines_marks(lines, lines.len());
    lemma_flush_marks(feed_lines(lines, lines.len()));
    let ss = sentence_split(text);
    assert forall|i: int, k: int|
        0 <= i < ss.len() && 0 <= k < ss[i].len() - 1 implies !closing_mark(#[trigger] ss[i][k]) by {
        assert(marks_only_at_end(ss[i]));
    }
}

/// A letter that neither ends a sentence nor is whitespace.
pub open spec fn plain_letter(c: char) -> bool {
    &&& unicode_alphabetic(c)
    &&& !is_ws(c)
    &&& !is_stop_mark(c)
    &&& !is_comma(c)
    &&& c != '.'
}

/// Sentences put back together, in order.
pub open spec fn concat_text(parts: Seq<Seq<char>>) -> Seq<char>
    decreases parts.len(),
{
    if parts.len() == 0 {
        Seq::empty()
    } else {
        concat_text(parts.drop_last()) + parts.last()
    }
}

proof fn lemma_split_single(text: Seq<char>)
    requires
        forall|i: int| 0 <= i < text.len() ==> text[i] != '\n',
    ensures
        split_seq(text, '\n') == seq![text],
    decreases text.len(),
{
    if text.len() == 0 {
        assert(text == Seq::<char>::empty());
    } else {
        let front = text.drop_last();
        assert forall|i: int| 0 <= i < front.len() implies front[i] != '\n' by {
            assert(front[i] == text[i]);
        }
        lemma_split_single(front);
        assert(text.last() == text[text.len() - 1]);
        assert(front.push(text.last()) == text);
        assert(seq![front].update(0, front.push(text.last())) == seq![text]);
    }
}

proof fn lemma_alpha_count_all(s: Seq<char>)
    requires
        forall|i: int| 0 <= i < s.len() ==> plain_letter(#[trigger] s[i]),
    ensures
        alpha_count(s) == s.len(),
    decreases s.len(),
{
    if s.len() > 0 {
        lemma_alpha_count_all(s.drop_last());
    }
}

proof fn lemma_trim_plain(s: Seq<char>)
    requires
        forall|i: int| 0 <= i < s.len() ==> plain_letter(#[trigger] s[i]),
    ensures
        trim_seq(s) == s,
{
    if s.len() > 0 {
        assert(plain_letter(s[0]));
        assert(plain_letter(s[s.len() - 1]));
    }
}

proof fn lemma_feed_plain(text: Seq<char>, k: nat)
    requires
        k <= text.len(),
        forall|i: int| 0 <= i < text.len() ==> plain_letter(#[trigger] text[i]),
    ensures
        ({
            let st = feed_line(SplitState { sentences: Seq::empty(), current: Seq::empty(), count: 0 }, text, k);
            &&& concat_text(st.sentences) + st.current == text.take(k as int)
            &&& st.count == st.current.len()
            &&& st.count < 120
            &&& st.current.len() + 120 * st.sentences.len() == k
            &&& forall|i: int| 0 <= i < st.current.len() ==> plain_letter(#[trigger] st.current[i])
        }),
    decreases k,
{
    let empty = SplitState { sentences: Seq::empty(), current: Seq::empty(), count: 0 };
    if k == 0 {
        assert(text.take(0) == Seq::<char>::empty());
        assert(concat_text(Seq::<Seq<char>>::empty()) + Seq::<char>::empty() == Seq::<char>::empty());
    } else {
        let j = (k - 1) as nat;
        lemma_feed_plain(text, j);
        let prev = feed_line(empty, text, j);
        let c = text[j as int];
        assert(plain_letter(c));
        let grown = SplitState { sentences: prev.sentences, current: prev.current.push(c), count: prev.count + 1 };
        assert(!ends_sentence(c, next_in(text, k as int), grown.count));
        assert(text.take(k as int) == text.take(j as int).push(c));
        assert(forall|i: int| 0 <= i < grown.current.len() ==> plain_letter(#[trigger] grown.current[i]));
        if grown.count >= 120 {
            lemma_alpha_count_all(grown.current);
            lemma_trim_plain(grown.current);
            let st = flush(grown);
            assert(st.sentences == prev.sentences.push(grown.current));
            assert(st.sentences.drop_last() == prev.sentences);
            assert(concat_text(st.sentences) == concat_text(prev.sentences) + grown.current);
            assert(st.current == Seq::<char>::empty());
            assert(concat_text(st.sentences) + st.current == concat_text(st.sentences));
            assert(concat_text(prev.sentences) + prev.current.push(c) == (concat_text(prev.sentences)
                + prev.current).push(c));
        } else {
            assert(concat_text(prev.sentences) + prev.current.push(c) == (concat_text(prev.sentences)
                + prev.current).push(c));
        }
    }
}

/// A run of plain letters is read in full: its sentences, put back
/// together, are the text. (A single letter left over after the last full
/// 120-letter sentence is too short to be read, so such lengths are left
/// out.)
pub proof fn law_letters_are_split_without_loss(text: Seq<char>)
    requires
        forall|i: int| 0 <= i < text.len() ==> plain_letter(#[trigger] text[i]),
        text.len() % 120 != 1,
    ensures
        concat_text(sentence_split(text)) == text,
{
    assert forall|i: int| 0 <= i < text.len() implies text[i] != '\n' by {
        assert(plain_letter(text[i]));
    }
    lemma_split_single(text);
    let lines = split_seq(text, '\n');
    lemma_trim_plain(text);
    assert(trim_seq(lines[0]) == text);
    let empty = SplitState { sentences: Seq::empty(), current: Seq::empty(), count: 0 };
    lemma_feed_plain(text, text.len());
    let st = feed_line(empty, text, text.len());
    assert(feed_lines(lines, 0) == empty);
    assert(feed_lines(lines, 1) == line_break(st, lines, 0));
    assert(line_break(st, lines, 0) == st);
    assert(text.take(text.len() as int) == text);
    let n = st.sentences.len();
    assert(st.current.len() == text.len() % 120) by {
        vstd::arithmetic::div_mod::lemma_fundamental_div_mod_converse(
            text.len() as int,
            120,
            n as int,
            st.current.len() as int,
        );
    }
    lemma_alpha_count_all(st.current);
    if st.current.len() >= 2 {
        lemma_trim_plain(st.current);
        assert(flush(st).sentences.drop_last() == st.sentences);
    } else {
        assert(st.current.len() == 0);
        assert(concat_text(st.sentences) + st.current == concat_text(st.sentences));
    }
}

// ---------------------------------------------------------------------------
// Reading numbers
// ---------------------------------------------------------------------------

/// The Chinese numeral for a digit `d < 10`.
pub open spec fn chinese_digit(d: nat) -> char {
    if d == 0 {
        '零'
    } else if d == 1 {
        '一'
    } else if d == 2 {
        '二'
    } else if d == 3 {
        '三'
    } else if d == 4 {
        '四'
    } else if d == 5 {
        '五'
    } else if d == 6 {
        '六'
    } else if d == 7 {
        '七'
    } else if d == 8 {
        '八'
    } else {
        '九'
    }
}

/// The value of an ASCII digit.
pub open spec fn digit_value(c: char) -> nat {
    (c as int - 48) as nat
}

/// The value of a run of ASCII digits.
pub open spec fn digits_value(s: Seq<char>) -> nat
    decreases s.len(),
{
    if s.len() == 0 {
        0
    } else {
        digits_value(s.drop_last()) * 10 + digit_value(s.last())
    }
}

/// How a run of digits is read: a value under 10 as one numeral, a value
/// under 100 in tens ("十二", "二十", "四十五"), and anything larger digit by
/// digit.
pub open spec fn chinese_number_of(digits: Seq<char>) -> Seq<char> {
    let n = digits_value(digits);
    if n < 10 {
        seq![chinese_digit(n)]
    } else if n < 100 {
        (if n / 10 != 1 {
            seq![chinese_digit(n / 10)]
        } else {
            Seq::empty()
        }) + seq!['十'] + (if n % 10 != 0 {
            seq![chinese_digit(n % 10)]
        } else {
            Seq::empty()
        })
    } else {
        digits.map_values(|c: char| chinese_digit(digit_value(c)))
    }
}

/// The value of a Chinese numeral, if `c` is one.
pub open spec fn numeral_value(c: char) -> Option<nat> {
    if c == '零' {
        Some(0)
    } else if c == '一' {
        Some(1)
    } else if c == '二' {
        Some(2)
    } else if c == '三' {
        Some(3)
    } else if c == '四' {
        Some(4)
    } else if c == '五' {
        Some(5)
    } else if c == '六' {
        Some(6)
    } else if c == '七' {
        Some(7)
    } else if c == '八' {
        Some(8)
    } else if c == '九' {
        Some(9)
    } else {
        None
    }
}

/// The value a listener hears in a number said in tens: an optional tens
/// numeral from 二 to 九 (none for ten itself), then 十, then an optional
/// units numeral from 一 to 九.
pub open spec fn heard_tens(s: Seq<char>) -> Option<nat> {
    let (tens, rest) = if s.len() >= 1 && s[0] == '十' {
        (Some(1nat), s.skip(1))
    } else if s.len() >= 2 && s[1] == '十' && numeral_value(s[0]) is Some && numeral_value(s[0])->0
        >= 2 {
        (Some(numeral_value(s[0])->0), s.skip(2))
    } else {
        (None, s)
    };
    match tens {
        None => None,
        Some(t) => if rest.len() == 0 {
            Some(10 * t)
        } else if rest.len() == 1 && numeral_value(rest[0]) is Some && numeral_value(rest[0])->0 >= 1 {
            Some(10 * t + numeral_value(rest[0])->0)
        } else {
            None
        },
    }
}

proof fn lemma_numeral_of_digit(d: nat)
    requires
        d < 10,
    ensures
        numeral_value(chinese_digit(d)) == Some(d),
{
}

/// Numbers are read so that they are heard right: a number under ten is
/// one numeral of its value, and a number from 10 to 99 is heard, in tens,
/// as exactly its value (so every nonzero digit is spoken: "21" is
/// 二十一, never 二十).
pub proof fn law_numbers_are_heard_as_written(digits: Seq<char>)
    ensures
        digits_value(digits) < 10 ==> chinese_number_of(digits).len() == 1 && numeral_value(
            chinese_number_of(digits)[0],
        ) == Some(digits_value(digits)),
        10 <= digits_value(digits) < 100 ==> heard_tens(chinese_number_of(digits)) == Some(
            digits_value(digits),
        ),
{
    let n = digits_value(digits);
    let r = chinese_number_of(digits);
    if n < 10 {
        lemma_numeral_of_digit(n);
    } else if n < 100 {
        let t = n / 10;
        let u = n % 10;
        lemma_numeral_of_digit(t);
        lemma_numeral_of_digit(u);
        assert(n == 10 * t + u);
        if t == 1 {
            assert(r[0] == '十');
            assert(r.skip(1) =~= (if u != 0 {
                seq![chinese_digit(u)]
            } else {
                Seq::empty()
            }));
        } else {
            assert(r[0] == chinese_digit(t));
            assert(r[1] == '十');
            assert(chinese_digit(t) != '十');
            assert(r.skip(2) =~= (if u != 0 {
                seq![chinese_digit(u)]
            } else {
                Seq::empty()
            }));
        }
    }
}

/// Where the run of digits that starts at `i` ends.
pub open spec fn digit_run_end(s: Seq<char>, i: int) -> int
    decreases s.len() - i,
{
    if 0 <= i < s.len() && is_digit(s[i]) {
        digit_run_end(s, i + 1)
    } else {
        i
    }
}

pub proof fn lemma_digit_run_end(s: Seq<char>, i: int)
    requires
        0 <= i <= s.len(),
    ensures
        i <= digit_run_end(s, i) <= s.len(),
        i < s.len() && is_digit(s[i]) ==> i < digit_run_end(s, i),
        forall|j: int| i <= j < digit_run_end(s, i) ==> is_digit(#[trigger] s[j]),
        digit_run_end(s, i) < s.len() ==> !is_digit(s[digit_run_end(s, i)]),
    decreases s.len() - i,
{
    if i < s.len() && is_digit(s[i]) {
        lemma_digit_run_end(s, i + 1);
    }
}

/// `s[i..]` made speakable: each run of digits read as a number, and a clock
/// time "h:m" read as "h点m分".
pub open spec fn speak_from(s: Seq<char>, i: int) -> Seq<char>
    decreases s.len() - i,
{
    if i < 0 || i >= s.len() {
        Seq::empty()
    } else if !is_digit(s[i]) {
        seq![s[i]] + speak_from(s, i + 1)
    } else {
        proof {
            lemma_digit_run_end(s, i);
        }
        let j = digit_run_end(s, i);
        let number = chinese_number_of(s.subrange(i, j));
        if j + 1 < s.len() && s[j] == ':' && is_digit(s[j + 1]) {
            proof {
                lemma_digit_run_end(s, j + 1);
            }
            let k = digit_run_end(s, j + 1);
            number + seq!['点'] + chinese_number_of(s.subrange(j + 1, k)) + seq!['分'] + speak_from(
                s,
                k,
            )
        } else {
            number + speak_from(s, j)
        }
    }
}

/// The text with its numbers written out for the speech engine.
pub open spec fn speakable(s: Seq<char>) -> Seq<char> {
    speak_from(s, 0)
}

fn chinese_digit_char(d: u32) -> (c: char)
    requires
        d < 10,
    ensures
        c == chinese_digit(d as nat),
{
    if d == 0 {
        '零'
    } else if d == 1 {
        '一'
    } else if d == 2 {
        '二'
    } else if d == 3 {
        '三'
    } else if d == 4 {
        '四'
    } else if d == 5 {
        '五'
    } else if d == 6 {
        '六'
    } else if d == 7 {
        '七'
    } else if d == 8 {
        '八'
    } else {
        '九'
    }
}

fn is_digit_char(c: char) -> (b: bool)
    ensures
        b == is_digit(c),
{
    '0' <= c && c <= '9'
}

/// A run of digits read aloud.
fn chinese_number(digits: &[char]) -> (r: Vec<char>)
    requires
        digits@.len() > 0,
        forall|i: int| 0 <= i < digits@.len() ==> is_digit(#[trigger] digits@[i]),
    ensures
        r@ == chinese_number_of(digits@),
{
    // The value, capped at 100: only values under 100 are read as numbers.
    let mut value: u32 = 0;
    let mut i: usize = 0;
    while i < digits.len()
        invariant
            0 <= i <= digits@.len(),
            forall|j: int| 0 <= j < digits@.len() ==> is_digit(#[trigger] digits@[j]),
            value == if digits_value(digits@.take(i as int)) < 100 {
                digits_value(digits@.take(i as int))
            } else {
                100
            },
        decreases digits@.len() - i,
    {
        assert(digits@.take(i + 1).drop_last() == digits@.take(i as int));
        let d = (digits[i] as u32) - 48;
        if value < 100 {
            value = value * 10 + d;
            if value > 100 {
                value = 100;
            }
        }
        i += 1;
    }
    assert(digits@.take(digits@.len() as int) == digits@);
    let mut out: Vec<char> = Vec::new();
    if value < 10 {
        out.push(chinese_digit_char(value));
    } else if value < 100 {
        if value / 10 != 1 {
            out.push(chinese_digit_char(value / 10));
        }
        out.push('十');
        if value % 10 != 0 {
            out.push(chinese_digit_char(value % 10));
        }
    } else {
        let mut k: usize = 0;
        while k < digits.len()
            invariant
                0 <= k <= digits@.len(),
                forall|j: int| 0 <= j < digits@.len() ==> is_digit(#[trigger] digits@[j]),
                out@ == digits@.take(k as int).map_values(|c: char| chinese_digit(digit_value(c))),
            decreases digits@.len() - k,
        {
            let d = (digits[k] as u32) - 48;
            out.push(chinese_digit_char(d));
            k += 1;
            assert(digits@.take(k as int).map_values(|c: char| chinese_digit(digit_value(c)))
                == digits@.take(k - 1 as int).map_values(|c: char| chinese_digit(digit_value(c))).push(
                chinese_digit(digit_value(digits@[k - 1]))));
        }
        assert(digits@.take(digits@.len() as int) == digits@);
    }
    out
}

fn digit_run(s: &[char], i: usize) -> (j: usize)
    requires
        i <= s@.len(),
    ensures
        j == digit_run_end(s@, i as int),
{
    let mut j = i;
    while j < s.len() && is_digit_char(s[j])
        invariant
            i <= j <= s@.len(),
            digit_run_end(s@, i as int) == digit_run_end(s@, j as int),
        decreases s@.len() - j,
    {
        j += 1;
    }
    j
}

/// `text` with every run of digits written out in Chinese numerals, and
/// clock times "h:m" read as "h点m分".
pub fn speakable_numbers(text: &str) -> (r: String)
    ensures
        r@ == speakable(text@),
{
    let s = to_chars(text);
    let mut out: Vec<char> = Vec::new();
    let mut i: usize = 0;
    while i < s.len()
        invariant
            s@ == text@,
            0 <= i <= s@.len(),
            out@ + speak_from(s@, i as int) == speak_from(s@, 0),
        decreases s@.len() - i,
    {
        let c = s[i];
        if !is_digit_char(c) {
            out.push(c);
            i += 1;
        } else {
            proof {
                lemma_digit_run_end(s@, i as int);
            }
            let j = digit_run(&s, i);
            let number = chinese_number(&sub_chars(&s, i, j));
            push_all(&mut out, &number);
            if j < s.len() && j + 1 < s.len() && s[j] == ':' && is_digit_char(s[j + 1]) {
                proof {
                    lemma_digit_run_end(s@, j + 1);
                }
                let k = digit_run(&s, j + 1);
                out.push('点');
                let minute = chinese_number(&sub_chars(&s, j + 1, k));
                push_all(&mut out, &minute);
                out.push('分');
                i = k;
            } else {
                i = j;
            }
        }
    }
    from_chars(&out)
}

// ---------------------------------------------------------------------------
// Retrying a sentence in parts
// ---------------------------------------------------------------------------

/// The engine's answer that asks for a sentence to be retried in parts.
pub open spec fn generation_failed() -> Seq<char> {
    "Melo TTS failed to generate audio"@
}

/// The maximal runs of letters and digits in `s`, in order: `s` split at
/// every other character, with the empty pieces dropped.
pub open spec fn alnum_runs(s: Seq<char>) -> Seq<Seq<char>>
    decreases s.len(),
{
    if s.len() == 0 {
        Seq::empty()
    } else {
        let runs = alnum_runs(s.drop_last());
        if !unicode_alphanumeric(s.last()) {
            runs
        } else if s.len() >= 2 && unicode_alphanumeric(s[s.len() - 2]) {
            runs.update(runs.len() - 1, runs.last().push(s.last()))
        } else {
            runs.push(seq![s.last()])
        }
    }
}

/// A run cut into pieces of at most 24 characters.
pub open spec fn pieces_of(run: Seq<char>) -> Seq<Seq<char>>
    decreases run.len(),
{
    if run.len() <= 24 {
        seq![run]
    } else {
        seq![run.take(24)] + pieces_of(run.skip(24))
    }
}

/// Every run cut into pieces, one run after the other.
pub open spec fn word_pieces(runs: Seq<Seq<char>>) -> Seq<Seq<char>>
    decreases runs.len(),
{
    if runs.len() == 0 {
        Seq::empty()
    } else {
        word_pieces(runs.drop_last()) + pieces_of(runs.last())
    }
}

/// The parts a sentence is retried in after the engine failed on it: its
/// words, at most 24 characters each. A sentence that is one such word is
/// halved instead, and a single character is not retried at all (`None`).
pub open spec fn fallback_parts(s: Seq<char>) -> Option<Seq<Seq<char>>> {
    let parts = word_pieces(alnum_runs(s));
    if parts.len() == 1 && parts[0] == s {
        if s.len() == 1 {
            None
        } else {
            Some(seq![s.take(s.len() as int / 2), s.skip(s.len() as int / 2)])
        }
    } else {
        Some(parts)
    }
}

/// The character views of a list of character vectors.
pub open spec fn char_views(v: Seq<Vec<char>>) -> Seq<Seq<char>> {
    v.map_values(|x: Vec<char>| x@)
}

fn push_pieces(parts: &mut Vec<Vec<char>>, run: &[char])
    ensures
        char_views(final(parts)@) == char_views(old(parts)@) + pieces_of(run@),
{
    let mut pos: usize = 0;
    assert(run@.skip(0) == run@);
    while run.len() - pos > 24
        invariant
            pos <= run@.len(),
            char_views(old(parts)@) + pieces_of(run@) == char_views(parts@) + pieces_of(
                run@.skip(pos as int),
            ),
        decreases run@.len() - pos,
    {
        let piece = sub_chars(run, pos, pos + 24);
        let ghost before = parts@;
        proof {
            assert(run@.skip(pos as int).take(24) == run@.subrange(pos as int, pos + 24));
            assert(run@.skip(pos as int).skip(24) == run@.skip(pos + 24));
        }
        parts.push(piece);
        assert(char_views(parts@) == char_views(before).push(piece@));
        pos += 24;
    }
    let last = sub_chars(run, pos, run.len());
    let ghost before = parts@;
    assert(run@.skip(pos as int) == run@.subrange(pos as int, run@.len() as int));
    parts.push(last);
    assert(char_views(parts@) == char_views(before).push(last@));
}

/// The runs of letters and digits of `s`, cut into pieces.
fn word_pieces_of(s: &[char]) -> (r: Vec<Vec<char>>)
    ensures
        char_views(r@) == word_pieces(alnum_runs(s@)),
{
    let mut parts: Vec<Vec<char>> = Vec::new();
    let mut cur: Vec<char> = Vec::new();
    let ghost mut done: Seq<Seq<char>> = Seq::empty();
    let mut i: usize = 0;
    assert(s@.take(0) == Seq::<char>::empty());
    while i < s.len()
        invariant
            0 <= i <= s@.len(),
            alnum_runs(s@.take(i as int)) == if cur@.len() > 0 {
                done.push(cur@)
            } else {
                done
            },
            char_views(parts@) == word_pieces(done),
            cur@.len() > 0 <==> (i > 0 && unicode_alphanumeric(s@[i - 1])),
        decreases s@.len() - i,
    {
        let c = s[i];
        proof {
            assert(s@.take(i + 1).drop_last() == s@.take(i as int));
            assert(s@.take(i + 1).last() == c);
            if i > 0 {
                assert(s@.take(i + 1)[i - 1] == s@[i - 1]);
            }
        }
        if is_alphanumeric(c) {
            let ghost old_cur = cur@;
            cur.push(c);
            proof {
                if old_cur.len() > 0 {
                    let runs = done.push(old_cur);
                    assert(runs.update(runs.len() - 1, runs.last().push(c)) == done.push(cur@));
                } else {
                    assert(cur@ == seq![c]);
                }
            }
        } else if cur.len() > 0 {
            push_pieces(&mut parts, &cur);
            proof {
                assert(word_pieces(done.push(cur@)) == word_pieces(done) + pieces_of(cur@)) by {
                    assert(done.push(cur@).drop_last() == done);
                }
                done = done.push(cur@);
            }
            cur = Vec::new();
        }
        i += 1;
    }
    assert(s@.take(s@.len() as int) == s@);
    if cur.len() > 0 {
        push_pieces(&mut parts, &cur);
        proof {
            assert(done.push(cur@).drop_last() == done);
            assert(word_pieces(done.push(cur@)) == word_pieces(done) + pieces_of(cur@));
        }
    }
    parts
}

/// The parts `sentence` is retried in (see `fallback_parts`).
fn fallback_parts_of(s: &[char]) -> (r: Option<Vec<Vec<char>>>)
    ensures
        match fallback_parts(s@) {
            None => r is None,
            Some(parts) => r matches Some(v) && char_views(v@) == parts,
        },
{
    let parts = word_pieces_of(s);
    if parts.len() == 1 && parts[0].len() == s.len() && matches_at(s, parts[0].as_slice(), 0) {
        assert(s@.subrange(0, s@.len() as int) == s@);
        assert(char_views(parts@)[0] == parts@[0]@);
        if s.len() == 1 {
            return None;
        }
        let middle = s.len() / 2;
        let mut halves: Vec<Vec<char>> = Vec::new();
        let a = sub_chars(s, 0, middle);
        let b = sub_chars(s, middle, s.len());
        halves.push(a);
        halves.push(b);
        assert(char_views(halves@) == seq![s@.take(middle as int), s@.skip(middle as int)]);
        Some(halves)
    } else {
        proof {
            if parts@.len() == 1 && char_views(parts@)[0] == s@ {
                assert(char_views(parts@)[0] == parts@[0]@);
                assert(s@.subrange(0, s@.len() as int) == s@);
            }
        }
        Some(parts)
    }
}

/// `f` may answer `out` when it is asked for `text`.
pub open spec fn answers<T, F: FnMut(&str) -> Result<T, String>>(
    f: F,
    text: Seq<char>,
    out: Result<T, String>,
) -> bool {
    exists|s: &str| s@ == text && call_ensures(f, (s,), out)
}

/// The successful answers, in order.
pub open spec fn successes<T>(outs: Seq<Result<T, String>>) -> Seq<T>
    decreases outs.len(),
{
    if outs.len() == 0 {
        Seq::empty()
    } else {
        match outs.last() {
            Ok(a) => successes(outs.drop_last()).push(a),
            Err(_) => successes(outs.drop_last()),
        }
    }
}

/// What a retry returns for the answers its parts got: the audio of every
/// part that succeeded, or the sentence's own error when none did.
pub open spec fn retried<T>(outs: Seq<Result<T, String>>, error: String, r: Result<Vec<T>, String>) -> bool {
    if successes(outs).len() == 0 {
        r == Err::<Vec<T>, String>(error)
    } else {
        r matches Ok(v) && v@ == successes(outs)
    }
}

/// What reading `sentence` resiliently returns with the engine `f`: the
/// sentence's audio when the engine produces it; the engine's error when it
/// is any other than `generation_failed`; otherwise the sentence is retried
/// in its `fallback_parts`, each part once and in order.
pub open spec fn resilient_outcome<T, F: FnMut(&str) -> Result<T, String>>(
    f: F,
    sentence: Seq<char>,
    r: Result<Vec<T>, String>,
) -> bool {
    exists|first: Result<T, String>|
        #[trigger] answers(f, sentence, first) && match first {
            Ok(a) => r matches Ok(v) && v@ == seq![a],
            Err(e) => if e@ != generation_failed() {
                r == Err::<Vec<T>, String>(e)
            } else {
                match fallback_parts(sentence) {
                    None => r == Err::<Vec<T>, String>(e),
                    Some(parts) => exists|outs: Seq<Result<T, String>>|
                        outs.len() == parts.len() && (forall|i: int|
                            0 <= i < parts.len() ==> answers(f, parts[i], #[trigger] outs[i]))
                            && retried(outs, e, r),
                }
            },
        }
}

/// The texts a resilient reading of `sentence` may ask the engine for: the
/// sentence itself, and its `fallback_parts`.
pub open spec fn asked_text(sentence: Seq<char>, text: Seq<char>) -> bool {
    ||| text == sentence
    ||| (fallback_parts(sentence) matches Some(parts) && parts.contains(text))
}

/// The audio of every part that succeeded, in order, or `error` when none
/// did.
pub fn collect_successes<T>(outs: Vec<Result<T, String>>, error: String) -> (r: Result<Vec<T>, String>)
    ensures
        retried(outs@, error, r),
{
    let ghost all = outs@;
    let mut found: Vec<T> = Vec::new();
    for next in it: outs
        invariant
            it.seq() == all,
            found@ == successes(all.take(it.index() as int)),
    {
        proof {
            assert(all.take(it.index() + 1).drop_last() == all.take(it.index() as int));
        }
        match next {
            Ok(a) => found.push(a),
            Err(_) => {},
        }
    }
    assert(all.take(all.len() as int) == all);
    if found.len() == 0 {
        Err(error)
    } else {
        Ok(found)
    }
}

/// Reads `sentence` with the engine `synthesize`. When the engine fails on
/// it with `generation_failed`, the sentence is retried in its
/// `fallback_parts`, so that one unreadable slice does not silence the
/// readable rest.
pub fn synthesize_resilient_with<T, F: FnMut(&str) -> Result<T, String>>(
    sentence: &str,
    synthesize: F,
) -> (r: Result<Vec<T>, String>)
    requires
        forall|s: &str| asked_text(sentence@, s@) ==> #[trigger] call_requires(synthesize, (s,)),
    ensures
        resilient_outcome(synthesize, sentence@, r),
        r matches Ok(v) ==> v@.len() > 0,
{
    let ghost f = synthesize;
    let mut engine = synthesize;
    assert(asked_text(sentence@, sentence@));
    let first = engine(sentence);
    let ghost first_answer = first;
    assert(answers(f, sentence@, first_answer));
    match first {
        Ok(audio) => {
            let mut whole: Vec<T> = Vec::new();
            whole.push(audio);
            assert(whole@ == seq![audio]);
            Ok(whole)
        },
        Err(error) => {
            let failed = "Melo TTS failed to generate audio".to_owned();
            if !(error == failed) {
                return Err(error);
            }
            let chars = to_chars(sentence);
            match fallback_parts_of(&chars) {
                None => Err(error),
                Some(parts) => {
                    let ghost wanted = char_views(parts@);
                    let mut outs: Vec<Result<T, String>> = Vec::new();
                    let mut i: usize = 0;
                    while i < parts.len()
                        invariant
                            engine == f,
                            forall|s: &str|
                                asked_text(sentence@, s@) ==> #[trigger] call_requires(engine, (s,)),
                            wanted == char_views(parts@),
                            fallback_parts(sentence@) == Some(wanted),
                            0 <= i <= parts@.len(),
                            outs@.len() == i,
                            forall|j: int| 0 <= j < i ==> answers(f, wanted[j], #[trigger] outs@[j]),
                        decreases parts@.len() - i,
                    {
                        let text = from_chars(parts[i].as_slice());
                        assert(wanted.contains(text@)) by {
                            assert(wanted[i as int] == parts@[i as int]@);
                        }
                        assert(asked_text(sentence@, text@));
                        let out = engine(text.as_str());
                        assert(answers(f, wanted[i as int], out));
                        outs.push(out);
                        i += 1;
                    }
                    let r = collect_successes(outs, error);
                    r
                },
            }
        },
    }
}

// ---------------------------------------------------------------------------
// Joining parts and caching a sentence's audio
// ---------------------------------------------------------------------------

/// The samples of several parts, one after the other.
pub open spec fn joined_samples(parts: Seq<TtsAudio>) -> Seq<i16>
    decreases parts.len(),
{
    if parts.len() == 0 {
        Seq::empty()
    } else {
        joined_samples(parts.drop_last()) + parts.last().samples@
    }
}

/// Whether every part has the first part's sample rate.
pub open spec fn same_rate(parts: Seq<TtsAudio>) -> bool {
    forall|i: int| 0 <= i < parts.len() ==> #[trigger] parts[i].sample_rate == parts[0].sample_rate
}

/// The parts of a sentence joined into one audio: their samples one after
/// the other, at the common sample rate; an error when the rates differ.
pub fn merge_parts(parts: Vec<TtsAudio>) -> (r: Result<TtsAudio, String>)
    requires
        parts@.len() > 0,
    ensures
        r is Ok <==> same_rate(parts@),
        r matches Ok(a) ==> a.sample_rate == parts@[0].sample_rate && a.samples@ == joined_samples(
            parts@,
        ),
        r matches Err(e) ==> e@ == "TTS sample rates differ"@,
{
    let sample_rate = parts[0].sample_rate;
    let mut samples: Vec<i16> = Vec::new();
    let mut i: usize = 0;
    assert(parts@.take(0) == Seq::<TtsAudio>::empty());
    while i < parts.len()
        invariant
            0 <= i <= parts@.len(),
            sample_rate == parts@[0].sample_rate,
            forall|j: int| 0 <= j < i ==> #[trigger] parts@[j].sample_rate == sample_rate,
            samples@ == joined_samples(parts@.take(i as int)),
        decreases parts@.len() - i,
    {
        if parts[i].sample_rate != sample_rate {
            return Err("TTS sample rates differ".to_owned());
        }
        let ghost before = samples@;
        let part = &parts[i].samples;
        let mut k: usize = 0;
        while k < part.len()
            invariant
                0 <= k <= part@.len(),
                samples@ == before + part@.take(k as int),
            decreases part@.len() - k,
        {
            samples.push(part[k]);
            k += 1;
            assert(part@.take(k as int) == part@.take(k - 1 as int).push(part@[k - 1]));
        }
        assert(part@.take(part@.len() as int) == part@);
        assert(parts@.take(i + 1).drop_last() == parts@.take(i as int));
        i += 1;
    }
    assert(parts@.take(parts@.len() as int) == parts@);
    Ok(TtsAudio { samples, sample_rate })
}

/// A sentence's audio, with the cache file to store when it was just
/// generated (`None` when it came from the cache).
pub struct CachedAudio {
    pub audio: TtsAudio,
    pub store: Option<Vec<u8>>,
}

/// The audio a cache file read for `text` holds, if any.
pub open spec fn cache_hit(cached_file: Option<&[u8]>, text: &str) -> Option<(i32, Seq<i16>)> {
    match cached_file {
        Some(b) => cached_audio_of(b@, text.spec_bytes()),
        None => None,
    }
}

/// `r` hands back fresh audio at `rate` with `samples`, together with the
/// cache file for it; the file cannot be written when the text or the
/// samples are too long for its 32-bit header fields.
pub open spec fn stored(text_bytes: Seq<u8>, rate: i32, samples: Seq<i16>, r: Result<CachedAudio, String>) -> bool {
    if text_bytes.len() <= u32::MAX && samples.len() <= u32::MAX {
        &&& r matches Ok(c)
        &&& c.audio.sample_rate == rate
        &&& c.audio.samples@ == samples
        &&& c.store matches Some(b)
        &&& b@ == cache_bytes(text_bytes, rate, samples)
    } else {
        r matches Err(e) && e@ == "out of range integral type conversion attempted"@
    }
}

/// `r` is what a cache miss gives after the generator answered `generated`.
pub open spec fn after_generation(
    text_bytes: Seq<u8>,
    generated: Result<TtsAudio, String>,
    r: Result<CachedAudio, String>,
) -> bool {
    match generated {
        Err(e) => r == Err::<CachedAudio, String>(e),
        Ok(a) => stored(text_bytes, a.sample_rate, a.samples@, r),
    }
}

/// `r` hands back the audio a cache file held, and nothing to store.
pub open spec fn reused(rate: i32, samples: Seq<i16>, r: Result<CachedAudio, String>) -> bool {
    r matches Ok(c) && c.audio.sample_rate == rate && c.audio.samples@ == samples && c.store is None
}

fn store_generated(text: &str, audio: TtsAudio) -> (r: Result<CachedAudio, String>)
    ensures
        stored(text.spec_bytes(), audio.sample_rate, audio.samples@, r),
{
    match encode_cached_audio(text, &audio) {
        Ok(bytes) => Ok(CachedAudio { audio, store: Some(bytes) }),
        Err(e) => Err(e),
    }
}

/// The audio of `text` for a document: the cached audio when `cached_file`
/// (the document's cache file for `text`, if one was read) holds a
/// well-formed entry for exactly this text; otherwise whatever `generate`
/// makes, with the cache file to store for it.
pub fn cached_audio<F: FnOnce() -> Result<TtsAudio, String>>(
    text: &str,
    cached_file: Option<&[u8]>,
    generate: F,
) -> (r: Result<CachedAudio, String>)
    requires
        call_requires(generate, ()),
    ensures
        match cache_hit(cached_file, text) {
            Some((rate, samples)) => reused(rate, samples, r),
            None => exists|g: Result<TtsAudio, String>|
                call_ensures(generate, (), g) && #[trigger] after_generation(
                    text.spec_bytes(),
                    g,
                    r,
                ),
        },
{
    if let Some(bytes) = cached_file {
        if let Some(audio) = decode_cached_audio(bytes, text) {
            return Ok(CachedAudio { audio, store: None });
        }
    }
    let generated = generate();
    let ghost answer = generated;
    let r = match generated {
        Ok(audio) => store_generated(text, audio),
        Err(e) => Err(e),
    };
    assert(after_generation(text.spec_bytes(), answer, r));
    r
}

/// A document's audio is reused through the file stored for it: when a
/// call hands back fresh, playable audio (a positive rate, at least one
/// sample) with its cache file, that file holds exactly this audio for the
/// text, so a later call that reads it back for the same text finds a
/// cache hit and is given the same audio (`reused`) instead of generating
/// it again.
pub proof fn law_stored_audio_is_reused(
    text: &str,
    rate: i32,
    samples: Seq<i16>,
    first: Result<CachedAudio, String>,
)
    requires
        stored(text.spec_bytes(), rate, samples, first),
        first is Ok,
        rate > 0,
        samples.len() > 0,
        20 + text.spec_bytes().len() + 2 * samples.len() <= usize::MAX,
    ensures
        first matches Ok(c) && c.store matches Some(file) && cached_audio_of(
            file@,
            text.spec_bytes(),
        ) == Some((rate, samples)),
        forall|file: &[u8]|
            #![trigger cache_hit(Some(file), text)]
            (first matches Ok(c) && c.store matches Some(b) && file@ == b@) ==> cache_hit(
                Some(file),
                text,
            ) == Some((rate, samples)),
{
    law_cached_audio_round_trip(text.spec_bytes(), rate, samples);
}

/// `sentence` read resiliently and cached as one piece of audio: the cached
/// audio when `cached_file` holds it; otherwise the parts that
/// `synthesize_resilient_with` gets from `generate`, joined into one, with
/// the cache file to store for them.
pub fn synthesize_resilient_cached_with<F: FnMut(&str) -> Result<TtsAudio, String>>(
    sentence: &str,
    cached_file: Option<&[u8]>,
    generate: F,
) -> (r: Result<CachedAudio, String>)
    requires
        forall|s: &str| asked_text(sentence@, s@) ==> #[trigger] call_requires(generate, (s,)),
    ensures
        match cache_hit(cached_file, sentence) {
            Some((rate, samples)) => reused(rate, samples, r),
            None => exists|parts: Result<Vec<TtsAudio>, String>|
                #[trigger] resilient_outcome(generate, sentence@, parts) && match parts {
                    Err(e) => r == Err::<CachedAudio, String>(e),
                    Ok(v) => if same_rate(v@) {
                        stored(sentence.spec_bytes(), v@[0].sample_rate, joined_samples(v@), r)
                    } else {
                        r matches Err(e) && e@ == "TTS sample rates differ"@
                    },
                },
        },
{
    if let Some(bytes) = cached_file {
        if let Some(audio) = decode_cached_audio(bytes, sentence) {
            return Ok(CachedAudio { audio, store: None });
        }
    }
    let parts = synthesize_resilient_with(sentence, generate);
    let ghost answer = parts;
    assert(resilient_outcome(generate, sentence@, answer));
    match parts {
        Err(e) => Err(e),
        Ok(v) => match merge_parts(v) {
            Ok(audio) => store_generated(sentence, audio),
            Err(e) => Err(e),
        },
    }
}

// ---------------------------------------------------------------------------
// Reading one sentence
// ---------------------------------------------------------------------------

/// What the speech engine is given for `sentence`: the sentence trimmed,
/// with NUL characters removed.
pub open spec fn speech_text(sentence: Seq<char>) -> Seq<char> {
    replace_seq(trim_seq(sentence), seq!['\0'], Seq::empty())
}

/// The name under which an engine's audio is kept apart from another's.
pub open spec fn engine_name(engine: TtsEngine) -> Seq<char> {
    match engine {
        TtsEngine::Melo => "melo"@,
        TtsEngine::Kokoro => "kokoro"@,
    }
}

/// The key of a sentence's audio in the session cache.
pub open spec fn audio_key(engine: TtsEngine, text: Seq<char>) -> Seq<char> {
    engine_name(engine) + seq![':'] + text
}

/// The text to send to the engine for `sentence`, or why nothing is sent:
/// there is no text left, or reading was stopped.
pub fn prepare_sentence(sentence: &str, stopped: bool) -> (r: Result<String, String>)
    ensures
        speech_text(sentence@).len() == 0 ==> (r matches Err(e) && e@
            == "There is no text to read"@),
        speech_text(sentence@).len() > 0 && stopped ==> (r matches Err(e) && e@ == "TTS stopped"@),
        speech_text(sentence@).len() > 0 && !stopped ==> (r matches Ok(t) && t@ == speech_text(
            sentence@,
        )),
{
    let trimmed = trim_chars(&to_chars(sentence));
    let mut nul: Vec<char> = Vec::new();
    nul.push('\0');
    let text = replace_chars(&trimmed, &nul, &Vec::new());
    assert(nul@ == seq!['\0']);
    if text.len() == 0 {
        return Err("There is no text to read".to_owned());
    }
    if stopped {
        return Err("TTS stopped".to_owned());
    }
    Ok(from_chars(&text))
}

/// A copy of some audio.
pub fn copy_audio(audio: &TtsAudio) -> (r: TtsAudio)
    ensures
        r.sample_rate == audio.sample_rate,
        r.samples@ == audio.samples@,
{
    let mut samples: Vec<i16> = Vec::new();
    let mut k: usize = 0;
    while k < audio.samples.len()
        invariant
            0 <= k <= audio.samples@.len(),
            samples@ == audio.samples@.take(k as int),
        decreases audio.samples@.len() - k,
    {
        samples.push(audio.samples[k]);
        k += 1;
        assert(audio.samples@.take(k as int) == audio.samples@.take(k - 1 as int).push(
            audio.samples@[k - 1],
        ));
    }
    assert(audio.samples@.take(audio.samples@.len() as int) == audio.samples@);
    TtsAudio { samples, sample_rate: audio.sample_rate }
}

/// The audio of the sentences read in this session, by key.
pub struct SpeechCache {
    entries: Vec<(String, TtsAudio)>,
}

/// The entries as a map; a later entry for a key replaces an earlier one.
pub open spec fn entries_map(e: Seq<(String, TtsAudio)>) -> Map<Seq<char>, (i32, Seq<i16>)>
    decreases e.len(),
{
    if e.len() == 0 {
        Map::empty()
    } else {
        entries_map(e.drop_last()).insert(
            e.last().0@,
            (e.last().1.sample_rate, e.last().1.samples@),
        )
    }
}

proof fn lemma_entries_map_suffix(e: Seq<(String, TtsAudio)>, i: int, key: Seq<char>)
    requires
        0 <= i <= e.len(),
        forall|j: int| i <= j < e.len() ==> (#[trigger] e[j]).0@ != key,
    ensures
        entries_map(e).contains_key(key) == entries_map(e.take(i)).contains_key(key),
        entries_map(e).contains_key(key) ==> entries_map(e)[key] == entries_map(e.take(i))[key],
    decreases e.len() - i,
{
    if i < e.len() {
        assert(e.drop_last().take(i) == e.take(i));
        assert(e.last() == e[e.len() - 1]);
        lemma_entries_map_suffix(e.drop_last(), i, key);
    } else {
        assert(e.take(i) == e);
    }
}

impl View for SpeechCache {
    type V = Map<Seq<char>, (i32, Seq<i16>)>;

    closed spec fn view(&self) -> Map<Seq<char>, (i32, Seq<i16>)> {
        entries_map(self.entries@)
    }
}

impl SpeechCache {
    /// An empty cache.
    pub fn new() -> (r: SpeechCache)
        ensures
            r@ == Map::<Seq<char>, (i32, Seq<i16>)>::empty(),
    {
        SpeechCache { entries: Vec::new() }
    }

    /// A copy of the audio kept under `key`, if any.
    pub fn get(&self, key: &str) -> (r: Option<TtsAudio>)
        ensures
            r is Some <==> self@.contains_key(key@),
            r matches Some(a) ==> self@[key@] == (a.sample_rate, a.samples@),
    {
        let ghost e = self.entries@;
        let mut i = self.entries.len();
        let wanted = key.to_owned();
        while i > 0
            invariant
                e == self.entries@,
                0 <= i <= e.len(),
                wanted@ == key@,
                forall|j: int| i <= j < e.len() ==> (#[trigger] e[j]).0@ != key@,
            decreases i,
        {
            let entry = &self.entries[i - 1];
            if entry.0 == wanted {
                proof {
                    lemma_entries_map_suffix(e, i as int, key@);
                    assert(e.take(i as int).drop_last() == e.take(i - 1));
                    assert(e.take(i as int).last() == e[i - 1]);
                }
                return Some(copy_audio(&entry.1));
            }
            i -= 1;
        }
        proof {
            lemma_entries_map_suffix(e, 0, key@);
            assert(e.take(0) == Seq::<(String, TtsAudio)>::empty());
        }
        None
    }

    /// Keeps `audio` under `key`, replacing what was there.
    pub fn insert(&mut self, key: String, audio: TtsAudio)
        ensures
            final(self)@ == old(self)@.insert(key@, (audio.sample_rate, audio.samples@)),
    {
        let ghost e = self.entries@;
        self.entries.push((key, audio));
        assert(self.entries@.drop_last() == e);
    }
}

/// `g` is what `generate` may answer for `text`.
pub open spec fn generated_for<F: FnOnce(&str) -> Result<TtsAudio, String>>(
    generate: F,
    text: Seq<char>,
    g: Result<TtsAudio, String>,
) -> bool {
    exists|s: &str| s@ == text && call_ensures(generate, (s,), g)
}

/// Reads one sentence with `tts_engine`, through the session `cache`: the
/// text (`speech_text`) must not be empty and reading must not be stopped;
/// audio already in the cache under `audio_key` is reused; otherwise
/// `generate` makes it from the text, and what it makes is kept in the
/// cache.
pub fn synthesize_sentence<F: FnOnce(&str) -> Result<TtsAudio, String>>(
    sentence: &str,
    stopped: bool,
    tts_engine: TtsEngine,
    cache: &mut SpeechCache,
    generate: F,
) -> (r: Result<TtsAudio, String>)
    requires
        forall|s: &str| #[trigger] call_requires(generate, (s,)),
    ensures
        speech_text(sentence@).len() == 0 ==> (r matches Err(e) && e@
            == "There is no text to read"@),
        speech_text(sentence@).len() > 0 && stopped ==> (r matches Err(e) && e@ == "TTS stopped"@),
        r is Err ==> final(cache)@ == old(cache)@,
        speech_text(sentence@).len() > 0 && !stopped && old(cache)@.contains_key(
            audio_key(tts_engine, speech_text(sentence@)),
        ) ==> final(cache)@ == old(cache)@ && (r matches Ok(a) && old(cache)@[audio_key(
            tts_engine,
            speech_text(sentence@),
        )] == (a.sample_rate, a.samples@)),
        speech_text(sentence@).len() > 0 && !stopped && !old(cache)@.contains_key(
            audio_key(tts_engine, speech_text(sentence@)),
        ) ==> exists|g: Result<TtsAudio, String>|
            #[trigger] generated_for(generate, speech_text(sentence@), g) && match g {
                Err(e) => r == Err::<TtsAudio, String>(e),
                Ok(a) => r matches Ok(b) && b.sample_rate == a.sample_rate && b.samples@
                    == a.samples@ && final(cache)@ == old(cache)@.insert(
                    audio_key(tts_engine, speech_text(sentence@)),
                    (a.sample_rate, a.samples@),
                ),
            },
{
    let text = match prepare_sentence(sentence, stopped) {
        Ok(t) => t,
        Err(e) => return Err(e),
    };
    let mut key_chars = to_chars(tts_engine.cache_name());
    key_chars.push(':');
    push_all(&mut key_chars, &to_chars(text.as_str()));
    let key = from_chars(&key_chars);
    assert(key@ == audio_key(tts_engine, speech_text(sentence@)));
    if let Some(audio) = cache.get(key.as_str()) {
        return Ok(audio);
    }
    let made = generate(text.as_str());
    let ghost answer = made;
    assert(generated_for(generate, speech_text(sentence@), answer));
    match made {
        Ok(audio) => {
            let copy = copy_audio(&audio);
            cache.insert(key, audio);
            Ok(copy)
        },
        Err(e) => Err(e),
    }
}

// ---------------------------------------------------------------------------
// The text of a Markdown document
// ---------------------------------------------------------------------------

/// What the document reader needs to know of a Markdown parser's events.
pub enum MdEvent {
    ImageStart,
    ImageEnd,
    Text(String),
    Code(String),
    SoftBreak,
    HardBreak,
    ParagraphEnd,
    HeadingEnd,
    ItemEnd,
    Other,
}

/// The events a CommonMark parser (no extensions) reports for `markdown`.
pub uninterp spec fn markdown_events(markdown: Seq<char>) -> Seq<MdEvent>;

/// `pulldown_cmark::Parser::new(markdown)` with its events told apart as the
/// reader needs them. The result is the parser's answer for `markdown`, which
/// depends on that text alone; how CommonMark parses is not written out here.
#[verifier::external_body]
fn parse_markdown(markdown: &str) -> (r: Vec<MdEvent>)
    ensures
        r@ == markdown_events(markdown@),
{
    Parser::new(markdown).map(|event| match event {
        Event::Start(Tag::Image { .. }) => MdEvent::ImageStart,
        Event::End(TagEnd::Image) => MdEvent::ImageEnd,
        Event::Text(piece) => MdEvent::Text(piece.to_string()),
        Event::Code(piece) => MdEvent::Code(piece.to_string()),
        Event::SoftBreak => MdEvent::SoftBreak,
        Event::HardBreak => MdEvent::HardBreak,
        Event::End(TagEnd::Paragraph) => MdEvent::ParagraphEnd,
        Event::End(TagEnd::Heading(_)) => MdEvent::HeadingEnd,
        Event::End(TagEnd::Item) => MdEvent::ItemEnd,
        _ => MdEvent::Other,
    }).collect()
}

/// The text the reader collects from `events`, and whether the last of them
/// leaves it inside an image: text and code outside images, a line break
/// for each break, and a blank line after each paragraph, heading and list
/// item that does not already end a line.
pub open spec fn reader_text(events: Seq<MdEvent>) -> (Seq<char>, bool)
    decreases events.len(),
{
    if events.len() == 0 {
        (Seq::empty(), false)
    } else {
        let (text, in_image) = reader_text(events.drop_last());
        match events.last() {
            MdEvent::ImageStart => (text, true),
            MdEvent::ImageEnd => (text, false),
            MdEvent::Text(piece) => if in_image {
                (text, in_image)
            } else {
                (text + piece@, in_image)
            },
            MdEvent::Code(piece) => if in_image {
                (text, in_image)
            } else {
                (text + piece@, in_image)
            },
            MdEvent::SoftBreak => if in_image {
                (text, in_image)
            } else {
                (text.push('\n'), in_image)
            },
            MdEvent::HardBreak => if in_image {
                (text, in_image)
            } else {
                (text.push('\n'), in_image)
            },
            MdEvent::Other => (text, in_image),
            _ => if text.len() > 0 && text.last() == '\n' {
                (text, in_image)
            } else {
                (text + seq!['\n', '\n'], in_image)
            },
        }
    }
}

/// The end of a paragraph, a heading or a list item never runs two texts
/// together: outside an image, text `a` that does not end a line, the end
/// of such a block and then text `b` are collected as `a`, a blank line and
/// `b` (so "- apple\n- banana" is read as two lines).
pub proof fn law_block_ends_separate_texts(events: Seq<MdEvent>, end: MdEvent, a: String, b: String)
    requires
        end is ParagraphEnd || end is HeadingEnd || end is ItemEnd,
        !reader_text(events).1,
        a@.len() > 0,
        a@.last() != '\n',
    ensures
        reader_text(events + seq![MdEvent::Text(a), end, MdEvent::Text(b)]).0 == reader_text(
            events,
        ).0 + a@ + seq!['\n', '\n'] + b@,
        !reader_text(events + seq![MdEvent::Text(a), end, MdEvent::Text(b)]).1,
{
    let e1 = events.push(MdEvent::Text(a));
    let e2 = e1.push(end);
    let e3 = e2.push(MdEvent::Text(b));
    assert(events + seq![MdEvent::Text(a), end, MdEvent::Text(b)] =~= e3);
    assert(e3.drop_last() =~= e2);
    assert(e2.drop_last() =~= e1);
    assert(e1.drop_last() =~= events);
    assert(e1.last() == MdEvent::Text(a));
    assert(e2.last() == end);
    assert(e3.last() == MdEvent::Text(b));
    let t1 = reader_text(e1).0;
    assert(reader_text(e1) == (reader_text(events).0 + a@, false));
    assert(t1.last() == a@.last());
    assert(reader_text(e2) == (t1 + seq!['\n', '\n'], false));
    assert(reader_text(e3) == (t1 + seq!['\n', '\n'] + b@, false));
}

/// The document text of parsed Markdown: what the reader collects from the
/// events, trimmed.
pub fn document_text(events: &[MdEvent]) -> (r: String)
    ensures
        r@ == trim_seq(reader_text(events@).0),
{
    let mut text: Vec<char> = Vec::new();
    let mut in_image = false;
    let mut i: usize = 0;
    while i < events.len()
        invariant
            0 <= i <= events@.len(),
            (text@, in_image) == reader_text(events@.take(i as int)),
        decreases events@.len() - i,
    {
        proof {
            assert(events@.take(i + 1).drop_last() == events@.take(i as int));
            assert(events@.take(i + 1).last() == events@[i as int]);
        }
        match &events[i] {
            MdEvent::ImageStart => {
                in_image = true;
            },
            MdEvent::ImageEnd => {
                in_image = false;
            },
            MdEvent::Text(piece) => {
                if !in_image {
                    push_all(&mut text, &to_chars(piece.as_str()));
                }
            },
            MdEvent::Code(piece) => {
                if !in_image {
                    push_all(&mut text, &to_chars(piece.as_str()));
                }
            },
            MdEvent::SoftBreak => {
                if !in_image {
                    text.push('\n');
                }
            },
            MdEvent::HardBreak => {
                if !in_image {
                    text.push('\n');
                }
            },
            MdEvent::Other => {},
            _ => {
                if !(text.len() > 0 && text[text.len() - 1] == '\n') {
                    text.push('\n');
                    text.push('\n');
                }
            },
        }
        i += 1;
    }
    assert(events@.take(events@.len() as int) == events@);
    from_chars(&trim_chars(&text))
}

/// The text of a Markdown document as it is read aloud: no markup and no
/// image descriptions.
pub fn markdown_text(markdown: &str) -> (r: String)
    ensures
        r@ == trim_seq(reader_text(markdown_events(markdown@)).0),
{
    let events = parse_markdown(markdown);
    document_text(&events)
}

/// The sentences a Markdown document is read aloud in.
pub fn sentences(markdown: &str) -> (r: Vec<String>)
    ensures
        views(r@) == sentence_split(trim_seq(reader_text(markdown_events(markdown@)).0)),
{
    let text = markdown_text(markdown);
    sentence_chunks(text.as_str())
}

// ---------------------------------------------------------------------------
// Laws of reading aloud
// ---------------------------------------------------------------------------

proof fn lemma_speak_plain(s: Seq<char>, i: int)
    requires
        0 <= i <= s.len(),
        forall|j: int| 0 <= j < s.len() ==> !is_digit(#[trigger] s[j]),
    ensures
        speak_from(s, i) == s.skip(i),
    decreases s.len() - i,
{
    if i < s.len() {
        lemma_speak_plain(s, i + 1);
        assert(s.skip(i) == seq![s[i]] + s.skip(i + 1));
    } else {
        assert(s.skip(i) == Seq::<char>::empty());
    }
}

/// Text without digits is read exactly as it is written.
pub proof fn law_text_without_digits_is_unchanged(text: Seq<char>)
    requires
        forall|j: int| 0 <= j < text.len() ==> !is_digit(#[trigger] text[j]),
    ensures
        speakable(text) == text,
{
    lemma_speak_plain(text, 0);
    assert(text.skip(0) == text);
}

/// What is kept in the session cache under a key is what a later lookup of
/// that key gives back, and the other keys keep their audio: so a sentence
/// that has been read once (and kept under its `audio_key`) is found, not
/// generated, the next time.
pub proof fn law_speech_cache_reads_back_what_was_kept(
    before: SpeechCache,
    after: SpeechCache,
    key: Seq<char>,
    rate: i32,
    samples: Seq<i16>,
)
    requires
        after@ == before@.insert(key, (rate, samples)),
    ensures
        after@.contains_key(key),
        after@[key] == (rate, samples),
        forall|other: Seq<char>|
            other != key ==> (#[trigger] after@.contains_key(other) == before@.contains_key(other)
                && (before@.contains_key(other) ==> after@[other] == before@[other])),
{
}

} // verus!
