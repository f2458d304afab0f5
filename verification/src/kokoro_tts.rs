//! The English speech engine's input side: which texts it reads, how
//! phonemes become model tokens, how long phoneme strings are cut, and how
//! the chunks' audio is put together.

use vstd::prelude::*;
use crate::text::{from_chars, is_alphabetic, sub_chars, to_chars, unicode_alphabetic};
use crate::tts::{answers, TtsAudio};
use std::collections::HashMap;
use voice_g2p::G2pError;

verus! {

/// `HashMap::get` on a vocabulary keyed by characters, with the id copied
/// out: the id the map holds for `c`, if any.
#[verifier::external_body]
fn vocab_id(vocab: &HashMap<char, i64>, c: char) -> (r: Option<i64>)
    ensures
        match r {
            Some(id) => vocab@.contains_key(c) && vocab@[c] == id,
            None => !vocab@.contains_key(c),
        },
{
    vocab.get(&c).copied()
}

/// The ids of the characters that the vocabulary knows, in order; the
/// others have no token.
pub open spec fn known_ids(phonemes: Seq<char>, vocab: Map<char, i64>) -> Seq<i64>
    decreases phonemes.len(),
{
    if phonemes.len() == 0 {
        Seq::empty()
    } else if vocab.contains_key(phonemes.last()) {
        known_ids(phonemes.drop_last(), vocab).push(vocab[phonemes.last()])
    } else {
        known_ids(phonemes.drop_last(), vocab)
    }
}

/// The model input for `phonemes`: the known ids between two padding
/// tokens (0).
pub fn token_ids(phonemes: &str, vocab: &HashMap<char, i64>) -> (r: Vec<i64>)
    ensures
        r@ == seq![0i64] + known_ids(phonemes@, vocab@) + seq![0i64],
{
    let chars = to_chars(phonemes);
    let mut ids: Vec<i64> = Vec::new();
    ids.push(0);
    let mut i: usize = 0;
    while i < chars.len()
        invariant
            chars@ == phonemes@,
            0 <= i <= chars@.len(),
            ids@ == seq![0i64] + known_ids(chars@.take(i as int), vocab@),
        decreases chars@.len() - i,
    {
        proof {
            assert(chars@.take(i + 1).drop_last() == chars@.take(i as int));
            assert(chars@.take(i + 1).last() == chars@[i as int]);
        }
        match vocab_id(vocab, chars[i]) {
            Some(id) => ids.push(id),
            None => {},
        }
        i += 1;
    }
    assert(chars@.take(chars@.len() as int) == chars@);
    ids.push(0);
    ids
}

/// Whether `text` holds a letter outside ASCII (Chinese, say), which the
/// English engine cannot read.
pub open spec fn has_foreign_letter(text: Seq<char>) -> bool {
    exists|i: int| 0 <= i < text.len() && #[trigger] unicode_alphabetic(text[i]) && '\u{7f}' < text[i]
}

/// Refuses a text with letters outside ASCII.
pub fn check_english(text: &str) -> (r: Result<(), String>)
    ensures
        r is Ok <==> !has_foreign_letter(text@),
        r matches Err(e) ==> e@ == "Kokoro 1.0 supports English text only; select Melo for Chinese"@,
{
    let chars = to_chars(text);
    let mut i: usize = 0;
    while i < chars.len()
        invariant
            chars@ == text@,
            0 <= i <= chars@.len(),
            forall|j: int|
                0 <= j < i ==> !(#[trigger] unicode_alphabetic(chars@[j]) && '\u{7f}' < chars@[j]),
        decreases chars@.len() - i,
    {
        let c = chars[i];
        if is_alphabetic(c) && '\u{7f}' < c {
            assert(unicode_alphabetic(text@[i as int]));
            return Err("Kokoro 1.0 supports English text only; select Melo for Chinese".to_owned());
        }
        i += 1;
    }
    Ok(())
}

/// The phoneme string cut into chunks of at most 500 characters, the most
/// the model reads at once.
pub open spec fn phoneme_chunks_of(phonemes: Seq<char>) -> Seq<Seq<char>>
    decreases phonemes.len(),
{
    if phonemes.len() == 0 {
        Seq::empty()
    } else if phonemes.len() <= 500 {
        seq![phonemes]
    } else {
        seq![phonemes.take(500)] + phoneme_chunks_of(phonemes.skip(500))
    }
}

pub fn phoneme_chunks(phonemes: &str) -> (r: Vec<String>)
    ensures
        r@.len() == phoneme_chunks_of(phonemes@).len(),
        forall|i: int| 0 <= i < r@.len() ==> #[trigger] r@[i]@ == phoneme_chunks_of(phonemes@)[i],
{
    let chars = to_chars(phonemes);
    let mut chunks: Vec<String> = Vec::new();
    let mut pos: usize = 0;
    assert(chars@.skip(0) == chars@);
    while pos < chars.len()
        invariant
            chars@ == phonemes@,
            0 <= pos <= chars@.len(),
            forall|i: int| 0 <= i < chunks@.len() ==> #[trigger] chunks@[i]@ == phoneme_chunks_of(
                phonemes@,
            )[i],
            chunks@.len() + phoneme_chunks_of(chars@.skip(pos as int)).len()
                == phoneme_chunks_of(phonemes@).len(),
            forall|i: int|
                0 <= i < phoneme_chunks_of(chars@.skip(pos as int)).len() ==> phoneme_chunks_of(
                    phonemes@,
                )[chunks@.len() + i] == #[trigger] phoneme_chunks_of(chars@.skip(pos as int))[i],
        decreases chars@.len() - pos,
    {
        let ghost rest = chars@.skip(pos as int);
        let end = if chars.len() - pos > 500 {
            pos + 500
        } else {
            chars.len()
        };
        let piece = from_chars(&sub_chars(&chars, pos, end));
        proof {
            if rest.len() > 500 {
                assert(rest.take(500) == chars@.subrange(pos as int, end as int));
                assert(rest.skip(500) == chars@.skip(end as int));
                assert(phoneme_chunks_of(rest)[0] == rest.take(500));
                assert forall|i: int| 0 <= i < phoneme_chunks_of(chars@.skip(end as int)).len()
                    implies phoneme_chunks_of(rest)[i + 1] == phoneme_chunks_of(
                    chars@.skip(end as int),
                )[i] by {}
            } else {
                assert(rest == chars@.subrange(pos as int, end as int));
                assert(chars@.skip(end as int) == Seq::<char>::empty());
            }
        }
        assert(phoneme_chunks_of(rest)[0] == piece@);
        let ghost before: int = chunks@.len() as int;
        assert(phoneme_chunks_of(phonemes@)[before + 0] == phoneme_chunks_of(rest)[0]);
        chunks.push(piece);
        pos = end;
    }
    assert(chars@.skip(pos as int) == Seq::<char>::empty());
    chunks
}

/// A voice file holds whole 256-value style vectors, at least one, of
/// 4-byte floats.
pub fn check_voice_length(len: usize) -> (r: Result<(), String>)
    ensures
        r is Ok <==> len >= 1024 && len % 1024 == 0,
        r matches Err(e) ==> e@ == "Kokoro voice file has an invalid length"@,
{
    if len < 1024 || len % 1024 != 0 {
        return Err("Kokoro voice file has an invalid length".to_owned());
    }
    Ok(())
}

/// The style vector used for a token sequence: the one for its length
/// without the padding, or the last one the voice has.
pub fn style_index(id_count: usize, voice_values: usize) -> (r: usize)
    requires
        id_count >= 2,
        voice_values >= 256,
    ensures
        r == if id_count - 2 < voice_values / 256 - 1 {
            id_count - 2
        } else {
            voice_values / 256 - 1
        },
        (r + 1) * 256 <= voice_values,
{
    let by_length = id_count - 2;
    let last = voice_values / 256 - 1;
    if by_length < last {
        by_length
    } else {
        last
    }
}

/// The tokens and the style vector for one chunk of phonemes; a chunk
/// whose characters the vocabulary does not know has nothing to read.
pub fn chunk_tokens(phonemes: &str, vocab: &HashMap<char, i64>, voice_values: usize) -> (r: Result<(Vec<i64>, usize), String>)
    requires
        known_ids(phonemes@, vocab@).len() > 0 ==> voice_values >= 256,
    ensures
        r is Ok <==> known_ids(phonemes@, vocab@).len() > 0,
        r matches Ok((ids, style)) ==> ids@ == seq![0i64] + known_ids(phonemes@, vocab@) + seq![0i64]
            && style == (if ids@.len() - 2 < voice_values / 256 - 1 {
            ids@.len() - 2
        } else {
            voice_values / 256 - 1
        }),
        r matches Err(e) ==> e@ == "Kokoro found no readable phonemes"@,
{
    let ids = token_ids(phonemes, vocab);
    if ids.len() <= 2 {
        return Err("Kokoro found no readable phonemes".to_owned());
    }
    let style = style_index(ids.len(), voice_values);
    Ok((ids, style))
}

proof fn lemma_known_ids_all(phonemes: Seq<char>, vocab: Map<char, i64>)
    requires
        forall|i: int| 0 <= i < phonemes.len() ==> vocab.contains_key(#[trigger] phonemes[i]),
    ensures
        known_ids(phonemes, vocab).len() == phonemes.len(),
        forall|i: int|
            0 <= i < phonemes.len() ==> #[trigger] known_ids(phonemes, vocab)[i] == vocab[phonemes[i]],
    decreases phonemes.len(),
{
    if phonemes.len() > 0 {
        let init = phonemes.drop_last();
        assert forall|i: int| 0 <= i < init.len() implies vocab.contains_key(#[trigger] init[i]) by {
            assert(init[i] == phonemes[i]);
        }
        lemma_known_ids_all(init, vocab);
        assert(vocab.contains_key(phonemes[phonemes.len() - 1]));
    }
}

/// No phoneme the vocabulary knows is dropped: when it knows every phoneme,
/// the model reads one token per phoneme, in order, between the two padding
/// tokens.
pub proof fn law_known_phonemes_are_all_read(phonemes: Seq<char>, vocab: Map<char, i64>)
    requires
        forall|i: int| 0 <= i < phonemes.len() ==> vocab.contains_key(#[trigger] phonemes[i]),
    ensures
        ({
            let ids = seq![0i64] + known_ids(phonemes, vocab) + seq![0i64];
            &&& ids.len() == phonemes.len() + 2
            &&& ids[0] == 0 && ids.last() == 0
            &&& forall|i: int| 0 <= i < phonemes.len() ==> #[trigger] ids[i + 1] == vocab[phonemes[i]]
        }),
{
    lemma_known_ids_all(phonemes, vocab);
    let ids = seq![0i64] + known_ids(phonemes, vocab) + seq![0i64];
    assert forall|i: int| 0 <= i < phonemes.len() implies #[trigger] ids[i + 1] == vocab[phonemes[i]] by {
        assert(ids[i + 1] == known_ids(phonemes, vocab)[i]);
    }
}

/// The chunks put back together.
pub open spec fn joined(chunks: Seq<Seq<char>>) -> Seq<char>
    decreases chunks.len(),
{
    if chunks.len() == 0 {
        Seq::empty()
    } else {
        chunks[0] + joined(chunks.drop_first())
    }
}

/// Cutting phonemes into chunks loses nothing: the chunks, put back
/// together, are the phonemes, and none is longer than 500.
pub proof fn law_phoneme_chunks_keep_everything(phonemes: Seq<char>)
    ensures
        joined(phoneme_chunks_of(phonemes)) == phonemes,
        forall|i: int|
            0 <= i < phoneme_chunks_of(phonemes).len() ==> #[trigger] phoneme_chunks_of(
                phonemes,
            )[i].len() <= 500,
    decreases phonemes.len(),
{
    if phonemes.len() > 500 {
        law_phoneme_chunks_keep_everything(phonemes.skip(500));
        let chunks = phoneme_chunks_of(phonemes);
        assert(chunks.drop_first() == phoneme_chunks_of(phonemes.skip(500)));
        assert(phonemes.take(500) + phonemes.skip(500) == phonemes);
        assert forall|i: int| 0 <= i < chunks.len() implies #[trigger] chunks[i].len() <= 500 by {
            if i > 0 {
                assert(chunks[i] == phoneme_chunks_of(phonemes.skip(500))[i - 1]);
            }
        }
    } else if phonemes.len() > 0 {
        assert(seq![phonemes].drop_first() == Seq::<Seq<char>>::empty());
        assert(joined(Seq::<Seq<char>>::empty()) == Seq::<char>::empty());
        assert(phonemes + Seq::<char>::empty() == phonemes);
    }
}

// ---------------------------------------------------------------------------
// Reading a text
// ---------------------------------------------------------------------------

#[verifier::external_type_specification]
#[verifier::external_body]
pub struct ExG2pError(G2pError);

/// `voice_g2p::english_to_phonemes`: the phonemes of an English text. Its
/// conversion (`G2P::convert`) has no error path: a word that neither the
/// lexicon nor the `espeak-ng` program can read gets the unknown-word
/// phoneme, and an `espeak-ng` failure only counts as such a word. So it
/// always answers `Ok` when it returns. The unwraps and slices on its way
/// are guarded: `partial_cmp` compares finite numbers (character positions,
/// sums of the bundled tagger's weights), the `expect`s parse data bundled
/// with the crate, and the slices follow ASCII prefixes or length checks.
/// Which phonemes it gives depends on the `espeak-ng` installed on the
/// machine, so nothing more is said of them.
#[verifier::external_body]
fn english_phonemes(text: &str) -> (r: Result<String, G2pError>)
    ensures
        r is Ok,
{
    voice_g2p::english_to_phonemes(text)
}

/// The message of a phonemizer error (`ToString`); nothing is said of its
/// text.
#[verifier::external_body]
fn g2p_error_text(error: G2pError) -> String {
    error.to_string()
}

/// The samples of several audio parts, one after the other.
pub open spec fn all_samples(parts: Seq<TtsAudio>) -> Seq<i16>
    decreases parts.len(),
{
    if parts.len() == 0 {
        Seq::empty()
    } else {
        all_samples(parts.drop_last()) + parts.last().samples@
    }
}

/// The audio parts of successful answers.
pub open spec fn audio_of(outs: Seq<Result<TtsAudio, String>>) -> Seq<TtsAudio> {
    outs.map_values(|o: Result<TtsAudio, String>| o->Ok_0)
}

/// What reading `count` chunks returns for the answers `outs` the chunks
/// got, in order: the reading stops at the first error and returns it;
/// otherwise every chunk was read, and their samples, joined at 24 kHz, are
/// the audio (an error when there are none).
pub open spec fn chunks_read(count: nat, outs: Seq<Result<TtsAudio, String>>, r: Result<TtsAudio, String>) -> bool {
    &&& outs.len() <= count
    &&& forall|i: int| 0 <= i < outs.len() - 1 ==> #[trigger] outs[i] is Ok
    &&& if outs.len() > 0 && outs.last() is Err {
        r == outs.last()
    } else {
        &&& outs.len() == count
        &&& if all_samples(audio_of(outs)).len() == 0 {
            r matches Err(e) && e@ == "Kokoro found no readable phonemes"@
        } else {
            r matches Ok(a) && a.sample_rate == 24000 && a.samples@ == all_samples(audio_of(outs))
        }
    }
}

/// Reads a phoneme string: it is cut into chunks of at most 500 phonemes
/// (`phoneme_chunks_of`), `speak` reads each in turn, and the chunks'
/// samples are joined.
pub fn synthesize_phonemes<S: FnMut(&str) -> Result<TtsAudio, String>>(phonemes: &str, speak: S) -> (r:
    Result<TtsAudio, String>)
    requires
        forall|s: &str| #[trigger] call_requires(speak, (s,)),
    ensures
        exists|outs: Seq<Result<TtsAudio, String>>|
            #[trigger] chunks_read(phoneme_chunks_of(phonemes@).len(), outs, r) && forall|i: int|
                0 <= i < outs.len() ==> answers(speak, phoneme_chunks_of(phonemes@)[i], outs[i]),
{
    let ghost f = speak;
    let mut engine = speak;
    let chunks = phoneme_chunks(phonemes);
    let ghost wanted = phoneme_chunks_of(phonemes@);
    let ghost mut outs: Seq<Result<TtsAudio, String>> = Seq::empty();
    let mut samples: Vec<i16> = Vec::new();
    let mut i: usize = 0;
    while i < chunks.len()
        invariant
            engine == f,
            f == speak,
            wanted == phoneme_chunks_of(phonemes@),
            forall|s: &str| #[trigger] call_requires(engine, (s,)),
            chunks@.len() == wanted.len(),
            forall|j: int| 0 <= j < chunks@.len() ==> #[trigger] chunks@[j]@ == wanted[j],
            0 <= i <= chunks@.len(),
            outs.len() == i,
            forall|j: int| 0 <= j < i ==> #[trigger] outs[j] is Ok,
            forall|j: int| 0 <= j < i ==> answers(f, wanted[j], #[trigger] outs[j]),
            samples@ == all_samples(audio_of(outs)),
        decreases chunks@.len() - i,
    {
        let out = engine(chunks[i].as_str());
        assert(answers(f, wanted[i as int], out));
        let ghost before = outs;
        proof {
            outs = outs.push(out);
        }
        match out {
            Err(e) => {
                let r = Err(e);
                assert(chunks_read(wanted.len(), outs, r));
                assert forall|j: int| 0 <= j < outs.len() implies answers(
                    f,
                    wanted[j],
                    outs[j],
                ) by {
                    if j < i {
                        assert(outs[j] == before[j]);
                    } else {
                        assert(outs[j] == out);
                    }
                }
                return r;
            },
            Ok(part) => {
                let mut k: usize = 0;
                let ghost start = samples@;
                while k < part.samples.len()
                    invariant
                        0 <= k <= part.samples@.len(),
                        samples@ == start + part.samples@.take(k as int),
                    decreases part.samples@.len() - k,
                {
                    samples.push(part.samples[k]);
                    k += 1;
                    assert(part.samples@.take(k as int) == part.samples@.take(k - 1 as int).push(
                        part.samples@[k - 1],
                    ));
                }
                assert(part.samples@.take(part.samples@.len() as int) == part.samples@);
                assert(audio_of(outs).drop_last() == audio_of(before));
            },
        }
        i += 1;
    }
    if samples.len() == 0 {
        let r = Err("Kokoro found no readable phonemes".to_owned());
        assert(chunks_read(wanted.len(), outs, r));
        return r;
    }
    let r = Ok(TtsAudio { samples, sample_rate: 24000 });
    assert(chunks_read(wanted.len(), outs, r));
    r
}

/// Reads an English text: a text with letters outside ASCII is refused;
/// any other text is phonemized (which always succeeds) and its phonemes,
/// as the phonemizer gives them, are read by `synthesize_phonemes`, whose
/// answer is the result.
pub fn synthesize_with<S: FnMut(&str) -> Result<TtsAudio, String>>(text: &str, speak: S) -> (r: Result<
    TtsAudio,
    String,
>)
    requires
        forall|s: &str| #[trigger] call_requires(speak, (s,)),
    ensures
        has_foreign_letter(text@) ==> (r matches Err(e) && e@
            == "Kokoro 1.0 supports English text only; select Melo for Chinese"@),
        !has_foreign_letter(text@) ==> exists|phonemes: Seq<char>,
            outs: Seq<Result<TtsAudio, String>>|
            #[trigger] chunks_read(phoneme_chunks_of(phonemes).len(), outs, r) && forall|i: int|
                0 <= i < outs.len() ==> answers(speak, phoneme_chunks_of(phonemes)[i], outs[i]),
{
    if let Err(e) = check_english(text) {
        return Err(e);
    }
    let phonemes = match english_phonemes(text) {
        Ok(p) => p,
        Err(e) => return Err(g2p_error_text(e)),
    };
    let r = synthesize_phonemes(phonemes.as_str(), speak);
    r
}

} // verus!
