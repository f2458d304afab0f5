//! The decoding loop of PaddleOCR-VL: the prompt the model is given, when
//! generation stops, and what a recognition answers. The model itself runs
//! outside the library; the app asks before every token whether to sample
//! another, and reports what the sampler gave.

use vstd::prelude::*;
use crate::text::{from_chars, push_all, to_chars, trim_chars, trim_seq};
use vstd::string::StringExecFns;

verus! {

/// The most tokens one recognition generates.
pub const MAX_TOKENS: u32 = 4096;

/// The single-image OCR prompt, with the projector's media marker where the
/// page image goes.
pub open spec fn prompt_text(marker: Seq<char>) -> Seq<char> {
    "<|begin_of_sentence|>User: "@ + marker + "OCR:\nAssistant:\n"@
}

/// The single-image OCR prompt for the media marker `marker`.
pub fn ocr_prompt(marker: &str) -> (r: String)
    ensures
        r@ == prompt_text(marker@),
{
    let mut out = to_chars("<|begin_of_sentence|>User: ");
    push_all(&mut out, &to_chars(marker));
    push_all(&mut out, &to_chars("OCR:\nAssistant:\n"));
    from_chars(&out)
}

/// A recognition in progress: the tokens sampled so far, whether the model
/// ended its answer, and the text generated.
#[derive(Debug)]
pub struct Decoding {
    pub steps: u32,
    pub ended: bool,
    pub output: String,
}

/// What to do before the next token.
#[derive(Debug)]
pub enum Poll {
    /// Sample another token.
    Sample,
    /// The recognition is over, with its answer.
    Done(Result<String, String>),
}

/// The generation is over: the model ended its answer or used up its
/// tokens.
pub open spec fn is_over(d: Decoding) -> bool {
    d.ended || d.steps >= MAX_TOKENS
}

impl Decoding {
    /// A recognition before its first token.
    pub fn new() -> (r: Self)
        ensures
            r.steps == 0,
            !r.ended,
            r.output@.len() == 0,
    {
        Decoding { steps: 0, ended: false, output: String::new() }
    }

    /// Before each token: once the generation is over, the answer is the
    /// generated text without surrounding whitespace; otherwise a cancelled
    /// recognition fails with "Recognition cancelled", and a running one
    /// samples another token.
    pub fn poll(&self, cancelled: bool) -> (r: Poll)
        ensures
            is_over(*self) ==> (r matches Poll::Done(Ok(t)) && t@ == trim_seq(self.output@)),
            !is_over(*self) && cancelled ==> (r matches Poll::Done(Err(e)) && e@
                == "Recognition cancelled"@),
            !is_over(*self) && !cancelled ==> r is Sample,
    {
        if self.ended || self.steps >= MAX_TOKENS {
            let text = trim_chars(&to_chars(self.output.as_str()));
            Poll::Done(Ok(from_chars(&text)))
        } else if cancelled {
            Poll::Done(Err("Recognition cancelled".to_owned()))
        } else {
            Poll::Sample
        }
    }

    /// Takes in what the sampler gave for the next token: the end of the
    /// answer (`None`), or a piece of text, which is added to the output.
    pub fn sampled(&mut self, piece: Option<&str>)
        requires
            !is_over(*old(self)),
        ensures
            final(self).steps == old(self).steps + 1,
            match piece {
                None => final(self).ended && final(self).output == old(self).output,
                Some(p) => !final(self).ended && final(self).output@ == old(self).output@ + p@,
            },
    {
        self.steps = self.steps + 1;
        match piece {
            None => {
                self.ended = true;
            },
            Some(p) => {
                self.output.append(p);
            },
        }
    }
}

} // verus!
