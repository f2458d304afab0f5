//! Decisions behind the mobile screens: how sizes are shown, when a
//! download resumes by itself, which recognition events still count, and
//! which part of the original photo an OCR image stands for.

use vstd::prelude::*;
use crate::history::{ScanStage, file_name, file_name_of};
use crate::settings::{OcrEngine, ascii_lower, to_ascii_lower};
use crate::settings::eq_lit;
use crate::text::{
    decimal, digit_char, find_chars, find_from, from_chars, has_prefix, is_digit, occurs_at,
    push_all, push_decimal, rfind_char, rfind_chars, split_chars, split_seq, sub_chars, to_chars,
    trim_chars, trim_seq,
};

verus! {

// ---------------------------------------------------------------------------
// Sizes
// ---------------------------------------------------------------------------

pub open spec fn two_pow_53() -> nat {
    0x20_0000_0000_0000
}

/// The power of two that `x` is rounded to when it is turned into a double:
/// 1 for values with at most 53 significant bits.
pub open spec fn double_unit(x: nat) -> nat
    decreases x,
{
    if x < two_pow_53() {
        1
    } else {
        2 * double_unit(x / 2)
    }
}

/// `x as f64` for a non-negative integer: the nearest double, ties to even.
pub open spec fn as_double(x: nat) -> nat {
    let unit = double_unit(x);
    let q = x / unit;
    let r = x % unit;
    if 2 * r > unit || (2 * r == unit && q % 2 == 1) {
        (q + 1) * unit
    } else {
        q * unit
    }
}

/// `num / den` in tenths, rounded to the nearest, ties to even (what
/// `{:.1}` prints for an exactly representable quotient).
pub open spec fn rounded_tenths(num: nat, den: nat) -> nat {
    let t = num * 10 / den;
    let r = num * 10 % den;
    if 2 * r > den || (2 * r == den && t % 2 == 1) {
        t + 1
    } else {
        t
    }
}

/// A count of tenths written with one decimal.
pub open spec fn one_decimal(tenths: nat) -> Seq<char> {
    decimal(tenths / 10) + seq!['.', digit_char(tenths % 10)]
}

/// How a size is shown: whole bytes and KB below a MB, one decimal for MB
/// and GB.
pub open spec fn size_text(bytes: nat) -> Seq<char> {
    if bytes >= 0x4000_0000 {
        one_decimal(rounded_tenths(as_double(bytes), 0x4000_0000)) + " GB"@
    } else if bytes >= 0x10_0000 {
        one_decimal(rounded_tenths(bytes, 0x10_0000)) + " MB"@
    } else if bytes >= 1024 {
        decimal(bytes / 1024) + " KB"@
    } else {
        decimal(bytes) + " B"@
    }
}

proof fn lemma_double_unit(x: nat)
    ensures
        double_unit(x) >= 1,
        x >= two_pow_53() ==> double_unit(x) * 0x10_0000_0000_0000 <= x,
        x / double_unit(x) < two_pow_53(),
    decreases x,
{
    if x >= two_pow_53() {
        lemma_double_unit(x / 2);
        let u = double_unit(x / 2);
        assert(x / (2 * u) == (x / 2) / u) by {
            vstd::arithmetic::div_mod::lemma_div_denominator(x as int, 2, u as int);
        }
    }
}

fn double_unit_of(x: u64) -> (u: u64)
    ensures
        u == double_unit(x as nat),
        1 <= u < 4096,
    decreases x,
{
    proof {
        lemma_double_unit(x as nat);
    }
    if x < 0x20_0000_0000_0000 {
        1
    } else {
        let half = double_unit_of(x / 2);
        proof {
            lemma_double_unit(x as nat);
            assert(double_unit(x as nat) * 0x10_0000_0000_0000 <= x);
        }
        2 * half
    }
}

/// Appends a count of tenths written with one decimal.
fn push_one_decimal(out: &mut Vec<char>, tenths: u128)
    requires
        tenths <= u64::MAX,
    ensures
        final(out)@ == old(out)@ + one_decimal(tenths as nat),
{
    push_decimal(out, (tenths / 10) as u64);
    out.push('.');
    out.push(((tenths % 10) as u8 + 48) as char);
}

fn rounded_tenths_of(num: u128, den: u128) -> (t: u128)
    requires
        0 < den <= 0x1_0000_0000_0000_0000,
        num <= 0x2_0000_0000_0000_0000,
    ensures
        t == rounded_tenths(num as nat, den as nat),
        t as int <= (num as int) * 10 / (den as int) + 1,
{
    let t = num * 10 / den;
    let r = num * 10 % den;
    if 2 * r > den || (2 * r == den && t % 2 == 1) {
        t + 1
    } else {
        t
    }
}

/// A model's size as shown on the download screen.
pub fn format_bytes(bytes: u64) -> (r: String)
    ensures
        r@ == size_text(bytes as nat),
{
    let mut out: Vec<char> = Vec::new();
    if bytes >= 0x4000_0000 {
        let unit = double_unit_of(bytes);
        let q = bytes / unit;
        let rem = bytes % unit;
        proof {
            vstd::arithmetic::div_mod::lemma_fundamental_div_mod(bytes as int, unit as int);
            assert((q + 1) * unit <= 0x2_0000_0000_0000_0000) by (nonlinear_arith)
                requires
                    bytes == unit * q + rem,
                    0 <= rem,
                    1 <= unit < 4096,
                    bytes <= u64::MAX,
            ;
            assert(q * unit <= (q + 1) * unit) by (nonlinear_arith);
        }
        let rounded: u128 = if 2 * (rem as u128) > unit as u128 || (2 * (rem as u128) == unit as u128
            && q % 2 == 1) {
            (q as u128 + 1) * unit as u128
        } else {
            q as u128 * unit as u128
        };
        let tenths = rounded_tenths_of(rounded, 0x4000_0000);
        proof {
            assert((rounded as int) * 10 / 0x4000_0000 <= 0x2_0000_0000_0000_0000int * 10 / 0x4000_0000) by {
                vstd::arithmetic::div_mod::lemma_div_is_ordered(
                    (rounded as int) * 10,
                    0x2_0000_0000_0000_0000int * 10,
                    0x4000_0000,
                );
            }
        }
        push_one_decimal(&mut out, tenths);
        push_all(&mut out, &to_chars(" GB"));
    } else if bytes >= 0x10_0000 {
        let tenths = rounded_tenths_of(bytes as u128, 0x10_0000);
        push_one_decimal(&mut out, tenths);
        push_all(&mut out, &to_chars(" MB"));
    } else if bytes >= 1024 {
        push_decimal(&mut out, bytes / 1024);
        push_all(&mut out, &to_chars(" KB"));
    } else {
        push_decimal(&mut out, bytes);
        push_all(&mut out, &to_chars(" B"));
    }
    from_chars(&out)
}

proof fn lemma_decimal_leading(n: nat)
    ensures
        decimal(n).len() > 0,
        n > 0 ==> decimal(n)[0] != '0',
    decreases n,
{
    if n >= 10 {
        lemma_decimal_leading(n / 10);
    }
}

proof fn lemma_as_double_at_least(x: nat)
    requires
        x >= 0x4000_0000,
    ensures
        as_double(x) >= 0x4000_0000,
{
    lemma_double_unit(x);
    let unit = double_unit(x);
    let q = x / unit;
    let r = x % unit;
    vstd::arithmetic::div_mod::lemma_fundamental_div_mod(x as int, unit as int);
    if x >= two_pow_53() {
        assert(q * unit >= 0x4000_0000) by (nonlinear_arith)
            requires
                x == unit * q + r,
                0 <= r < unit,
                unit * 0x10_0000_0000_0000 <= x,
                x >= 0x20_0000_0000_0000,
        ;
        assert((q + 1) * unit >= q * unit) by (nonlinear_arith);
        assert(as_double(x) >= q * unit);
    } else {
        assert(unit == 1);
        assert(q == x && r == 0) by (nonlinear_arith)
            requires
                x == unit * q + r,
                0 <= r < unit,
                unit == 1,
        ;
        assert(as_double(x) == q * unit);
    }
}

/// No model size from a kilobyte up is shown as zero: the number in front
/// never starts with a 0.
pub proof fn law_sizes_are_not_shown_as_zero(bytes: u64)
    requires
        bytes >= 1024,
    ensures
        size_text(bytes as nat)[0] != '0',
{
    if bytes >= 0x4000_0000 {
        lemma_as_double_at_least(bytes as nat);
        let t = rounded_tenths(as_double(bytes as nat), 0x4000_0000);
        assert(as_double(bytes as nat) * 10 / 0x4000_0000 >= 10) by (nonlinear_arith)
            requires
                as_double(bytes as nat) >= 0x4000_0000,
        ;
        lemma_decimal_leading(t / 10);
    } else if bytes >= 0x10_0000 {
        let t = rounded_tenths(bytes as nat, 0x10_0000);
        assert((bytes as nat) * 10 / 0x10_0000 >= 10) by (nonlinear_arith)
            requires
                bytes >= 0x10_0000,
        ;
        lemma_decimal_leading(t / 10);
    } else {
        lemma_decimal_leading(bytes as nat / 1024);
    }
}

// ---------------------------------------------------------------------------
// Downloads and recognition
// ---------------------------------------------------------------------------

/// Coming back to the download screen resumes the download by itself only
/// when the screen was just entered, nothing is downloading, a model is
/// missing and the phone is on Wi-Fi.
pub fn should_auto_resume_download(entered: bool, active: bool, missing: bool, on_wifi: bool) -> (r:
    bool)
    ensures
        r == (entered && !active && missing && on_wifi),
{
    entered && !active && missing && on_wifi
}

/// A recognition event counts only while a recognition runs and only when
/// it comes from the current run, so a cancelled scan cannot overwrite a
/// restarted one.
pub fn accept_recognition_event(active: bool, current_generation: u64, event_generation: u64) -> (r:
    bool)
    ensures
        r == (active && current_generation == event_generation),
{
    active && current_generation == event_generation
}

/// How a recognition starts, given the stage and engine of the scan's
/// record (when the photo already has one) and the engine chosen in the
/// settings.
#[derive(Clone, Copy, Debug, PartialEq, Eq, Structural)]
pub struct RecognitionPlan {
    /// A new pending record is added to the history for this scan.
    pub new_record: bool,
    /// The engine the scan runs through.
    pub engine: OcrEngine,
    /// The layout pass still has to run (it is skipped when an interrupted
    /// scan had finished it).
    pub run_layout: bool,
}

/// A photo without a record, or whose record is complete, gets a new
/// record; an unfinished one is resumed. The run uses the engine of the
/// photo's record when there is one and the chosen engine otherwise, and
/// skips the layout pass only when the record had finished it.
pub open spec fn recognition_plan(existing: Option<(ScanStage, OcrEngine)>, selected: OcrEngine) -> RecognitionPlan {
    RecognitionPlan {
        new_record: match existing {
            None => true,
            Some((stage, _)) => stage == ScanStage::Complete,
        },
        engine: match existing {
            None => selected,
            Some((_, engine)) => engine,
        },
        run_layout: !(existing matches Some((stage, _)) && stage == ScanStage::LayoutDone),
    }
}

/// How a recognition starts, as `recognition_plan` says.
pub fn plan_recognition(existing: Option<(ScanStage, OcrEngine)>, selected: OcrEngine) -> (r:
    RecognitionPlan)
    ensures
        r == recognition_plan(existing, selected),
{
    match existing {
        None => RecognitionPlan { new_record: true, engine: selected, run_layout: true },
        Some((stage, engine)) => RecognitionPlan {
            new_record: stage == ScanStage::Complete,
            engine,
            run_layout: stage != ScanStage::LayoutDone,
        },
    }
}

/// What became of one sentence of a reading.
#[derive(Clone, Copy, Debug, PartialEq, Eq, Structural)]
pub enum SentenceOutcome {
    /// Its audio was made and played.
    Read,
    /// No audio could be made for it.
    Unreadable,
    /// Its audio could not be played.
    PlaybackFailed,
}

/// The sentences read and skipped so far in a reading.
#[derive(Clone, Copy, Debug, PartialEq, Eq, Structural)]
pub struct ReadingTally {
    pub read: u64,
    pub skipped: u64,
}

/// Counts one more sentence.
pub fn tally_sentence(tally: ReadingTally, outcome: SentenceOutcome) -> (r: ReadingTally)
    requires
        tally.read < u64::MAX,
        tally.skipped < u64::MAX,
    ensures
        r.read == tally.read + if outcome == SentenceOutcome::Read {
            1int
        } else {
            0int
        },
        r.skipped == tally.skipped + if outcome == SentenceOutcome::Read {
            0int
        } else {
            1int
        },
{
    match outcome {
        SentenceOutcome::Read => ReadingTally { read: tally.read + 1, skipped: tally.skipped },
        _ => ReadingTally { read: tally.read, skipped: tally.skipped + 1 },
    }
}

/// The notice shown when sentences were skipped.
pub open spec fn skipped_notice(skipped: u64) -> Seq<char> {
    "Skipped "@ + decimal(skipped as nat) + " unreadable TTS segment(s)"@
}

/// How a finished reading ends: a notice when sentences were skipped, and
/// an error when none could be read at all.
pub fn reading_summary(tally: ReadingTally) -> (r: (Option<String>, Result<(), String>))
    ensures
        tally.skipped == 0 ==> r.0 is None,
        tally.skipped > 0 ==> (r.0 matches Some(n) && n@ == skipped_notice(tally.skipped)),
        r.1 is Err <==> (tally.read == 0 && tally.skipped > 0),
        r.1 matches Err(e) ==> e@ == "Melo TTS could not read any segment"@,
{
    let notice = if tally.skipped > 0 {
        let mut text = to_chars("Skipped ");
        push_decimal(&mut text, tally.skipped);
        push_all(&mut text, &to_chars(" unreadable TTS segment(s)"));
        Some(from_chars(&text))
    } else {
        None
    };
    let result = if tally.read == 0 && tally.skipped > 0 {
        Err("Melo TTS could not read any segment".to_owned())
    } else {
        Ok(())
    };
    (notice, result)
}

/// The speech revision after `previous`, so a document's audio is made
/// afresh; there is none after the last one.
pub fn next_tts_revision(previous: u64) -> (r: Result<u64, String>)
    ensures
        previous < u64::MAX ==> r == Ok::<u64, String>((previous + 1) as u64),
        previous == u64::MAX ==> (r matches Err(e) && e@ == "TTS revision limit reached"@),
{
    match previous.checked_add(1) {
        Some(next) => Ok(next),
        None => Err("TTS revision limit reached".to_owned()),
    }
}

// ---------------------------------------------------------------------------
// Images in OCR Markdown
// ---------------------------------------------------------------------------

/// The path of a Markdown image line `![alt](path)`: the line trimmed, after
/// "![", from the first "](" on, up to a closing ")" at the very end.
pub open spec fn image_path_of(line: Seq<char>) -> Option<Seq<char>> {
    let t = trim_seq(line);
    if !has_prefix(t, "!["@) {
        None
    } else {
        let image = t.skip(2);
        match find_from(image, "]("@, 0) {
            None => None,
            Some(k) => {
                let path = image.skip(k + 2);
                if path.len() > 0 && path.last() == ')' {
                    Some(path.drop_last())
                } else {
                    None
                }
            },
        }
    }
}

pub fn markdown_image_path(line: &str) -> (r: Option<String>)
    ensures
        match image_path_of(line@) {
            Some(p) => r matches Some(s) && s@ == p,
            None => r is None,
        },
{
    let t = trim_chars(&to_chars(line));
    let open = to_chars("![");
    proof {
        reveal_strlit("![");
        reveal_strlit("](");
    }
    assert(open@ == "!["@);
    if !crate::text::matches_at(&t, &open, 0) {
        assert(!has_prefix(trim_seq(line@), "!["@));
        return None;
    }
    assert(t@.subrange(0, 2) == "!["@);
    assert(has_prefix(trim_seq(line@), "!["@));
    let image = sub_chars(&t, 2, t.len());
    assert(image@ == t@.skip(2));
    let close = to_chars("](");
    assert(close@ == "]("@);
    let k = match find_chars(&image, &close, 0) {
        Some(k) => k,
        None => {
            assert(find_from(trim_seq(line@).skip(2), "]("@, 0) is None);
            return None;
        },
    };
    assert(find_from(trim_seq(line@).skip(2), "]("@, 0) == Some(k as int));
    let path = sub_chars(&image, k + 2, image.len());
    assert(path@ == image@.skip(k + 2));
    if path.len() > 0 && path[path.len() - 1] == ')' {
        let inner = sub_chars(&path, 0, path.len() - 1);
        assert(inner@ == path@.drop_last());
        Some(from_chars(&inner))
    } else {
        None
    }
}

/// The digits of a number to parse: without a leading "+".
pub open spec fn unsigned_digits(s: Seq<char>) -> Seq<char> {
    if s.len() > 0 && s[0] == '+' {
        s.skip(1)
    } else {
        s
    }
}

/// Every character is an ASCII digit.
pub open spec fn all_digits(s: Seq<char>) -> bool {
    forall|i: int| 0 <= i < s.len() ==> is_digit(#[trigger] s[i])
}

/// `str::parse::<usize>`: an optional "+", then at least one decimal digit,
/// with a value that fits in a `usize`.
pub open spec fn parsed_usize(s: Seq<char>) -> Option<nat> {
    let digits = unsigned_digits(s);
    if digits.len() == 0 || !all_digits(digits) {
        None
    } else if crate::tts::digits_value(digits) > usize::MAX {
        None
    } else {
        Some(crate::tts::digits_value(digits))
    }
}

/// The pixel box `[left, top, right, bottom]` an OCR image file name
/// carries ("..image_box_L_T_R_B.ext"), if it lies inside a picture of
/// `width` by `height` pixels and is not empty.
pub open spec fn image_box_of(path: Seq<char>, width: nat, height: nat) -> Option<Seq<nat>> {
    match find_from(path, "image_box_"@, 0) {
        None => None,
        Some(k) => {
            let rest = path.skip(k + 10);
            match rfind_char(rest, '.', rest.len() as int) {
                None => None,
                Some(d) => {
                    let parts = split_seq(rest.take(d), '_');
                    if parts.len() != 4 || !(forall|i: int|
                        0 <= i < 4 ==> parsed_usize(#[trigger] parts[i]) is Some) {
                        None
                    } else {
                        let left = parsed_usize(parts[0])->0;
                        let top = parsed_usize(parts[1])->0;
                        let right = parsed_usize(parts[2])->0;
                        let bottom = parsed_usize(parts[3])->0;
                        if left >= right || top >= bottom || right > width || bottom > height {
                            None
                        } else {
                            Some(seq![left, top, right, bottom])
                        }
                    }
                },
            }
        },
    }
}

fn parse_usize(s: &[char]) -> (r: Option<usize>)
    ensures
        match parsed_usize(s@) {
            Some(v) => r == Some(v as usize),
            None => r is None,
        },
{
    let start: usize = if s.len() > 0 && s[0] == '+' {
        1
    } else {
        0
    };
    let ghost digits = unsigned_digits(s@);
    assert(digits == s@.skip(start as int));
    if start == s.len() {
        assert(digits.len() == 0);
        return None;
    }
    let mut value: usize = 0;
    let mut i = start;
    while i < s.len()
        invariant
            start <= i <= s@.len(),
            digits == s@.skip(start as int),
            digits == unsigned_digits(s@),
            forall|j: int| start <= j < i ==> is_digit(#[trigger] s@[j]),
            value == crate::tts::digits_value(s@.subrange(start as int, i as int)),
        decreases s@.len() - i,
    {
        let c = s[i];
        if !('0' <= c && c <= '9') {
            assert(digits[i - start] == c);
            assert(!is_digit(digits[i - start]));
            assert(!all_digits(digits));
            return None;
        }
        proof {
            assert(s@.subrange(start as int, i + 1).drop_last() == s@.subrange(
                start as int,
                i as int,
            ));
        }
        let d = (c as u32 - 48) as usize;
        if value > (usize::MAX - d) / 10 {
            proof {
                assert(value * 10 + d > usize::MAX) by (nonlinear_arith)
                    requires
                        value > (usize::MAX - d) / 10,
                        d <= 9,
                ;
                assert(s@.subrange(start as int, i + 1).last() == c);
                assert(crate::tts::digits_value(s@.subrange(start as int, i + 1)) == value * 10
                    + d);
                lemma_digits_value_grows(s@, start as int, i + 1, s@.len() as int);
                assert(s@.subrange(start as int, s@.len() as int) == digits);
            }
            return None;
        }
        value = value * 10 + d;
        i += 1;
    }
    assert(s@.subrange(start as int, s@.len() as int) == digits);
    Some(value)
}

/// A longer run of digits has at least the value of its beginning.
proof fn lemma_digits_value_grows(s: Seq<char>, lo: int, mid: int, hi: int)
    requires
        0 <= lo <= mid <= hi <= s.len(),
    ensures
        crate::tts::digits_value(s.subrange(lo, hi)) >= crate::tts::digits_value(
            s.subrange(lo, mid),
        ),
    decreases hi - mid,
{
    if hi > mid {
        lemma_digits_value_grows(s, lo, mid, hi - 1);
        assert(s.subrange(lo, hi).drop_last() == s.subrange(lo, hi - 1));
    }
}

/// The pixel box an OCR image file name carries, within a picture of
/// `width` by `height` pixels (see `image_box_of`).
pub fn ocr_image_box(path: &str, width: usize, height: usize) -> (r: Option<[usize; 4]>)
    ensures
        match image_box_of(path@, width as nat, height as nat) {
            Some(b) => r matches Some(a) && a@.map_values(|v: usize| v as nat) == b,
            None => r is None,
        },
{
    let chars = to_chars(path);
    proof {
        reveal_strlit("image_box_");
    }
    let marker = to_chars("image_box_");
    assert(marker@ == "image_box_"@);
    assert(marker@.len() == 10);
    let k = match find_chars(&chars, &marker, 0) {
        Some(k) => k,
        None => return None,
    };
    assert(occurs_at(chars@, marker@, k as int));
    assert(k + marker@.len() <= chars@.len());
    assert(k + 10 <= chars@.len());
    let n = chars.len();
    assert(k + 10 <= n);
    let from = k + 10;
    let rest = sub_chars(&chars, from, chars.len());
    assert(rest@ == chars@.skip(k + 10));
    let d = match rfind_chars(&rest, '.') {
        Some(d) => d,
        None => return None,
    };
    let stem = sub_chars(&rest, 0, d);
    assert(stem@ == rest@.take(d as int));
    let parts = split_chars(&stem, '_');
    if parts.len() != 4 {
        return None;
    }
    let left = parse_usize(parts[0].as_slice());
    let top = parse_usize(parts[1].as_slice());
    let right = parse_usize(parts[2].as_slice());
    let bottom = parse_usize(parts[3].as_slice());
    match (left, top, right, bottom) {
        (Some(left), Some(top), Some(right), Some(bottom)) => {
            if left >= right || top >= bottom || right > width || bottom > height {
                return None;
            }
            let a = [left, top, right, bottom];
            assert(a@.map_values(|v: usize| v as nat) == seq![
                left as nat,
                top as nat,
                right as nat,
                bottom as nat,
            ]);
            Some(a)
        },
        _ => None,
    }
}

// ---------------------------------------------------------------------------
// Picked photos
// ---------------------------------------------------------------------------

/// `Path::extension` of a file name: what follows its last '.', unless it
/// has no '.' or only a leading one.
pub open spec fn extension_of(name: Seq<char>) -> Option<Seq<char>> {
    match rfind_char(name, '.', name.len() as int) {
        Some(k) => if k > 0 {
            Some(name.subrange(k + 1, name.len() as int))
        } else {
            None
        },
        None => None,
    }
}

/// The photo extensions kept, in any ASCII case.
pub open spec fn is_photo_extension(ext: Seq<char>) -> bool {
    let lower = ext.map_values(|c: char| ascii_lower(c));
    lower == "jpg"@ || lower == "jpeg"@ || lower == "png"@
}

/// The extension a picked photo is stored with: that of its name when it is
/// a JPEG or PNG one, "jpg" otherwise.
pub open spec fn stored_extension(picked: Option<Seq<char>>) -> Seq<char> {
    match picked {
        Some(path) => match file_name_of(path) {
            Some(name) => match extension_of(name) {
                Some(ext) => if is_photo_extension(ext) {
                    ext
                } else {
                    "jpg"@
                },
                None => "jpg"@,
            },
            None => "jpg"@,
        },
        None => "jpg"@,
    }
}

fn photo_extension(name: &str) -> (r: Option<String>)
    ensures
        match extension_of(name@) {
            Some(ext) => if is_photo_extension(ext) {
                r matches Some(e) && e@ == ext
            } else {
                r is None
            },
            None => r is None,
        },
{
    let chars = to_chars(name);
    let found = rfind_chars(&chars, '.');
    let k = match found {
        Some(k) => k,
        None => return None,
    };
    let n = chars.len();
    assert(k < n);
    if k == 0 {
        return None;
    }
    let ext = sub_chars(&chars, k + 1, n);
    let mut lower: Vec<char> = Vec::new();
    let mut i: usize = 0;
    while i < ext.len()
        invariant
            0 <= i <= ext@.len(),
            lower@ == ext@.take(i as int).map_values(|c: char| ascii_lower(c)),
        decreases ext@.len() - i,
    {
        lower.push(to_ascii_lower(ext[i]));
        i += 1;
        assert(ext@.take(i as int) == ext@.take(i - 1 as int).push(ext@[i - 1]));
    }
    assert(ext@.take(ext@.len() as int) == ext@);
    if eq_lit(&lower, "jpg") || eq_lit(&lower, "jpeg") || eq_lit(&lower, "png") {
        Some(from_chars(&ext))
    } else {
        None
    }
}

/// The name a picked photo is stored under: "scan-<id>.<extension>", the
/// extension kept from the picked file's name when it is a JPEG or PNG one.
pub fn scan_file_name(picked: Option<&str>, id: u64) -> (r: String)
    ensures
        r@ == "scan-"@ + decimal(id as nat) + "."@ + stored_extension(
            match picked {
                Some(p) => Some(p@),
                None => None,
            },
        ),
{
    let ext = match picked {
        Some(p) => match file_name(p) {
            Some(name) => match photo_extension(name.as_str()) {
                Some(e) => e,
                None => "jpg".to_owned(),
            },
            None => "jpg".to_owned(),
        },
        None => "jpg".to_owned(),
    };
    let mut out = to_chars("scan-");
    push_decimal(&mut out, id);
    push_all(&mut out, &to_chars("."));
    push_all(&mut out, &to_chars(ext.as_str()));
    from_chars(&out)
}

} // verus!
