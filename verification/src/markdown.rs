//! Cleaning up OCR Markdown for the editor: raw HTML that the recognizer
//! emits (centred images, tables, inline tags) is turned into Markdown, and
//! everything else is kept byte for byte.

use vstd::prelude::*;
use crate::text::{from_chars, push_all, to_chars};
use pulldown_cmark::{Event, Parser};
use vstd::string::StringSliceAdditionalSpecFns;
use vstd::utf8::{decode_utf8, encode_utf8, encode_utf8_decode_utf8, is_char_boundary};

verus! {

/// What the normalizer needs to know of a Markdown parser's event: whether
/// it is raw HTML (a line of an HTML block, or an inline tag).
#[derive(Clone, Copy, Debug, PartialEq, Eq, Structural)]
pub enum SourceEvent {
    Html,
    InlineHtml,
    Other,
}

/// The events a CommonMark parser (no extensions) reports for `source`,
/// each with the byte range of the source it comes from.
pub uninterp spec fn offset_events(source: Seq<char>) -> Seq<(SourceEvent, usize, usize)>;

/// The Markdown an HTML-to-Markdown converter makes of `html`, or `None`
/// when it fails.
pub uninterp spec fn html_markdown(html: Seq<char>) -> Option<Seq<char>>;

/// `pulldown_cmark::Parser::new(source).into_offset_iter()`, each event
/// told apart as the normalizer needs it, with its byte range. The events
/// are the parser's answer for `source`, which depends on that text alone;
/// how CommonMark parses is not written out here.
#[verifier::external_body]
fn parse_with_offsets(source: &str) -> (r: Vec<(SourceEvent, usize, usize)>)
    ensures
        r@ == offset_events(source@),
{
    Parser::new(source).into_offset_iter().map(|(event, range)| match event {
        Event::Html(_) => (SourceEvent::Html, range.start, range.end),
        Event::InlineHtml(_) => (SourceEvent::InlineHtml, range.start, range.end),
        _ => (SourceEvent::Other, range.start, range.end),
    }).collect()
}

/// The byte ranges of the raw HTML among `events`, in order.
pub open spec fn html_ranges_of(events: Seq<(SourceEvent, usize, usize)>) -> Seq<(usize, usize)>
    decreases events.len(),
{
    if events.len() == 0 {
        Seq::empty()
    } else {
        let before = html_ranges_of(events.drop_last());
        let (kind, start, end) = events.last();
        if kind == SourceEvent::Other {
            before
        } else {
            before.push((start, end))
        }
    }
}

/// The byte ranges of the raw HTML among parsed events.
pub fn html_ranges(events: &[(SourceEvent, usize, usize)]) -> (r: Vec<(usize, usize)>)
    ensures
        r@ == html_ranges_of(events@),
{
    let mut ranges: Vec<(usize, usize)> = Vec::new();
    let mut i: usize = 0;
    while i < events.len()
        invariant
            0 <= i <= events@.len(),
            ranges@ == html_ranges_of(events@.take(i as int)),
        decreases events@.len() - i,
    {
        proof {
            assert(events@.take(i + 1).drop_last() == events@.take(i as int));
            assert(events@.take(i + 1).last() == events@[i as int]);
        }
        let (kind, start, end) = events[i];
        if kind != SourceEvent::Other {
            ranges.push((start, end));
        }
        i += 1;
    }
    assert(events@.take(events@.len() as int) == events@);
    ranges
}

/// `htmd::convert`, with its error dropped: the result is the converter's
/// answer for `html`, which depends on that text alone; how HTML is turned
/// into Markdown is not written out here.
#[verifier::external_body]
fn convert_html(html: &str) -> (r: Option<String>)
    ensures
        match html_markdown(html@) {
            Some(m) => r matches Some(s) && s@ == m,
            None => r is None,
        },
{
    htmd::convert(html).ok()
}

/// What stands in the output for an HTML fragment: its Markdown, or the
/// fragment itself when it cannot be converted.
pub open spec fn replacement(html: Seq<char>) -> Seq<char> {
    match html_markdown(html) {
        Some(m) => m,
        None => html,
    }
}

/// `rest` (the source from byte `offset` on) with the HTML at `ranges`
/// replaced: the text before each range kept, the range's fragment replaced.
/// `None` when a range starts before the previous one ended, runs past the
/// end, or cuts a character.
pub open spec fn spliced(rest: Seq<u8>, offset: int, ranges: Seq<(usize, usize)>) -> Option<
    Seq<char>,
>
    decreases ranges.len(),
{
    if ranges.len() == 0 {
        Some(decode_utf8(rest))
    } else {
        let lo = ranges[0].0 - offset;
        let hi = ranges[0].1 - offset;
        if !(0 <= lo <= hi <= rest.len() && is_char_boundary(rest, lo) && is_char_boundary(
            rest.subrange(lo, rest.len() as int),
            hi - lo,
        )) {
            None
        } else {
            match spliced(rest.subrange(hi, rest.len() as int), ranges[0].1 as int, ranges.drop_first()) {
                None => None,
                Some(tail) => Some(
                    decode_utf8(rest.subrange(0, lo)) + replacement(
                        decode_utf8(rest.subrange(lo, hi)),
                    ) + tail,
                ),
            }
        }
    }
}

/// `source` with the HTML at `ranges` turned into Markdown; `None` when the
/// ranges do not fit the text (see `spliced`).
pub fn replace_html(source: &str, ranges: &[(usize, usize)]) -> (r: Option<String>)
    ensures
        match spliced(source.spec_bytes(), 0, ranges@) {
            Some(t) => r matches Some(s) && s@ == t,
            None => r is None,
        },
{
    let mut out: Vec<char> = Vec::new();
    let mut rest: &str = source;
    let mut previous: usize = 0;
    let mut i: usize = 0;
    assert(ranges@.skip(0) == ranges@);
    while i < ranges.len()
        invariant
            0 <= i <= ranges@.len(),
            spliced(source.spec_bytes(), 0, ranges@) == match spliced(
                rest.spec_bytes(),
                previous as int,
                ranges@.skip(i as int),
            ) {
                Some(t) => Some(out@ + t),
                None => None::<Seq<char>>,
            },
        decreases ranges@.len() - i,
    {
        let (start, end) = ranges[i];
        proof {
            assert(ranges@.skip(i as int)[0] == ranges@[i as int]);
            assert(ranges@.skip(i as int).drop_first() == ranges@.skip(i + 1));
        }
        let rest_len = rest.as_bytes().len();
        if start < previous || end < start || end - previous > rest_len {
            return None;
        }
        let lo = start - previous;
        let hi = end - previous;
        if !rest.is_char_boundary(lo) {
            return None;
        }
        let (before, tail) = rest.split_at(lo);
        if !tail.is_char_boundary(hi - lo) {
            return None;
        }
        let (fragment, after) = tail.split_at(hi - lo);
        proof {
            encode_utf8_decode_utf8(before@);
            encode_utf8_decode_utf8(fragment@);
            assert(rest.spec_bytes().subrange(lo as int, rest.spec_bytes().len() as int).subrange(
                0,
                hi - lo,
            ) == rest.spec_bytes().subrange(lo as int, hi as int));
            assert(rest.spec_bytes().subrange(lo as int, rest.spec_bytes().len() as int).subrange(
                hi - lo,
                rest.spec_bytes().len() - lo,
            ) == rest.spec_bytes().subrange(hi as int, rest.spec_bytes().len() as int));
        }
        push_all(&mut out, &to_chars(before));
        match convert_html(fragment) {
            Some(markdown) => push_all(&mut out, &to_chars(markdown.as_str())),
            None => push_all(&mut out, &to_chars(fragment)),
        }
        rest = after;
        previous = end;
        i += 1;
    }
    proof {
        encode_utf8_decode_utf8(rest@);
    }
    push_all(&mut out, &to_chars(rest));
    Some(from_chars(&out))
}

/// OCR Markdown with its raw HTML turned into Markdown; the text around the
/// HTML is kept as it was, and the whole source when the parser's ranges do
/// not fit it.
pub open spec fn normalized(source: Seq<char>) -> Seq<char> {
    match spliced(encode_utf8(source), 0, html_ranges_of(offset_events(source))) {
        Some(t) => t,
        None => source,
    }
}

/// OCR Markdown with its raw HTML turned into Markdown, so the editor shows
/// no markup; the text around the HTML is kept as it was. Should the
/// parser's ranges not fit the text, the source is returned unchanged.
pub fn normalize_ocr(source: &str) -> (r: String)
    ensures
        r@ == normalized(source@),
{
    let events = parse_with_offsets(source);
    let ranges = html_ranges(&events);
    match replace_html(source, &ranges) {
        Some(normalized) => normalized,
        None => source.to_owned(),
    }
}

/// Markdown without raw HTML comes back exactly as it was.
pub proof fn law_text_without_html_is_unchanged(source: Seq<char>)
    ensures
        spliced(vstd::utf8::encode_utf8(source), 0, Seq::empty()) == Some(source),
{
    encode_utf8_decode_utf8(source);
}

} // verus!
