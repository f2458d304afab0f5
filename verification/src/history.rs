//! Scan history: the records of finished and interrupted scans, their titles,
//! and search.

use vstd::prelude::*;
use crate::settings::OcrEngine;
use crate::text::{
    contains_chars, from_chars, lines_chars, lines_seq, seq_contains, skip_leading, split_chars,
    split_seq, sub_chars, to_chars, trim_bounds, trim_seq, trim_start_char,
};

verus! {

/// How far a scan has come; a pending scan resumes from its stage.
#[derive(Clone, Copy, Debug, PartialEq, Eq, Structural)]
pub enum ScanStage {
    Captured,
    LayoutDone,
    Complete,
}

impl Default for ScanStage {
    fn default() -> (r: Self)
        ensures
            r == ScanStage::Complete,
    {
        ScanStage::Complete
    }
}

/// One scan in the history.
#[derive(Clone, Debug)]
pub struct ScanRecord {
    pub id: u64,
    pub title: String,
    pub created_unix: u64,
    /// The photo the scan was made from.
    pub image_path: String,
    pub markdown: String,
    pub stage: ScanStage,
    /// Bumped to regenerate the document's cached speech.
    pub tts_revision: u64,
    pub ocr_engine: OcrEngine,
}

/// The speech revision of records saved before revisions were recorded:
/// their audio was never regenerated.
pub fn legacy_tts_revision() -> (r: u64)
    ensures
        r == 0,
{
    0
}

/// The engine of records saved before the engine was recorded.
pub fn legacy_ocr_engine() -> (r: OcrEngine)
    ensures
        r == OcrEngine::PaddleVl16,
{
    OcrEngine::PaddleVl16
}

// ---------------------------------------------------------------------------
// Titles
// ---------------------------------------------------------------------------

/// A line as a title candidate: trimmed, without leading `#`s, trimmed again.
pub open spec fn title_line(line: Seq<char>) -> Seq<char> {
    trim_seq(trim_start_char(trim_seq(line), '#'))
}

/// The first non-empty title candidate among `lines`, if any.
pub open spec fn first_title(lines: Seq<Seq<char>>) -> Option<Seq<char>>
    decreases lines.len(),
{
    if lines.len() == 0 {
        None
    } else if title_line(lines[0]).len() > 0 {
        Some(title_line(lines[0]))
    } else {
        first_title(lines.drop_first())
    }
}

/// The title of a recognised document: its first non-empty line without
/// heading marks, or "OCR", cut to 60 characters.
pub open spec fn title_of(markdown: Seq<char>) -> Seq<char> {
    let full = match first_title(lines_seq(markdown)) {
        Some(t) => t,
        None => "OCR"@,
    };
    if full.len() <= 60 {
        full
    } else {
        full.take(60)
    }
}

pub fn result_title(markdown: &str) -> (r: String)
    ensures
        r@ == title_of(markdown@),
{
    let chars = to_chars(markdown);
    let lines = lines_chars(&chars);
    let ghost all = lines_seq(chars@);
    let mut i: usize = 0;
    let mut found: Option<Vec<char>> = None;
    assert(all.skip(0) == all);
    while i < lines.len()
        invariant
            lines@.len() == all.len(),
            all == lines_seq(markdown@),
            forall|j: int| 0 <= j < lines@.len() ==> #[trigger] lines@[j]@ == all[j],
            0 <= i <= lines@.len(),
            found is None ==> first_title(all) == first_title(all.skip(i as int)),
            found matches Some(t) ==> first_title(all) == Some(t@),
            found is Some ==> i == lines@.len(),
        decreases lines@.len() - i,
    {
        let line = &lines[i];
        let (a, b) = trim_bounds(line, 0, line.len());
        let a2 = skip_leading(line, a, b, '#');
        let (c, d) = trim_bounds(line, a2, b);
        proof {
            assert(line@.subrange(0, line@.len() as int) == line@);
            assert(all.skip(i as int)[0] == all[i as int]);
            assert(all.skip(i as int).drop_first() == all.skip(i + 1));
            assert(line@.subrange(c as int, d as int) == title_line(all[i as int]));
        }
        if c < d {
            found = Some(sub_chars(line, c, d));
            i = lines.len();
        } else {
            i += 1;
        }
    }
    let full = match found {
        Some(t) => t,
        None => {
            assert(all.skip(i as int).len() == 0);
            to_chars("OCR")
        },
    };
    if full.len() <= 60 {
        from_chars(&full)
    } else {
        from_chars(&sub_chars(&full, 0, 60))
    }
}

// ---------------------------------------------------------------------------
// Paths
// ---------------------------------------------------------------------------

/// A path component that names something: not empty and not `.`.
pub open spec fn is_name_segment(s: Seq<char>) -> bool {
    s.len() > 0 && s != seq!['.']
}

/// The last naming component of a list of `/`-separated pieces.
pub open spec fn last_segment(segs: Seq<Seq<char>>) -> Option<Seq<char>>
    decreases segs.len(),
{
    if segs.len() == 0 {
        None
    } else if is_name_segment(segs.last()) {
        Some(segs.last())
    } else {
        last_segment(segs.drop_last())
    }
}

/// `Path::file_name` for a `/`-separated path: the last component, unless
/// there is none or it is `..`.
pub open spec fn file_name_of(path: Seq<char>) -> Option<Seq<char>> {
    match last_segment(split_seq(path, '/')) {
        Some(s) => if s == seq!['.', '.'] {
            None
        } else {
            Some(s)
        },
        None => None,
    }
}

pub fn file_name(path: &str) -> (r: Option<String>)
    ensures
        match r {
            Some(s) => file_name_of(path@) == Some(s@),
            None => file_name_of(path@) is None,
        },
{
    let chars = to_chars(path);
    let segs = split_chars(&chars, '/');
    let ghost all = split_seq(chars@, '/');
    let mut k = segs.len();
    assert(all.take(all.len() as int) == all);
    while k > 0 && (segs[k - 1].len() == 0 || (segs[k - 1].len() == 1 && segs[k - 1][0] == '.'))
        invariant
            segs@.len() == all.len(),
            forall|j: int| 0 <= j < segs@.len() ==> #[trigger] segs@[j]@ == all[j],
            0 <= k <= segs@.len(),
            last_segment(all) == last_segment(all.take(k as int)),
        decreases k,
    {
        proof {
            let t = all.take(k as int);
            assert(t.last() == all[k - 1]);
            assert(!is_name_segment(t.last())) by {
                if segs@[k - 1]@.len() == 1 {
                    assert(segs@[k - 1]@ == seq!['.']);
                }
            }
            assert(t.drop_last() == all.take(k - 1));
        }
        k -= 1;
    }
    if k == 0 {
        return None;
    }
    let seg = &segs[k - 1];
    proof {
        let t = all.take(k as int);
        assert(t.last() == all[k - 1]);
        assert(is_name_segment(t.last())) by {
            if seg@.len() == 1 {
                assert(seg@[0] != '.');
                assert(seg@ != seq!['.']);
            }
        }
    }
    if seg.len() == 2 && seg[0] == '.' && seg[1] == '.' {
        assert(seg@ == seq!['.', '.']);
        return None;
    }
    assert(seg@ != seq!['.', '.']);
    Some(from_chars(seg))
}

// ---------------------------------------------------------------------------
// Case folding
// ---------------------------------------------------------------------------

/// What `str::to_lowercase` returns for a string: Unicode lower-casing,
/// which can change a string's length and depends on context (final sigma).
pub uninterp spec fn unicode_lowercase(s: Seq<char>) -> Seq<char>;

/// `str::to_lowercase`: the result is Unicode lower-casing of `s`, which is
/// not written out here, except that the empty string stays empty.
#[verifier::external_body]
pub(crate) fn to_lowercase(s: &str) -> (r: String)
    ensures
        r@ == unicode_lowercase(s@),
        s@.len() == 0 ==> r@.len() == 0,
{
    s.to_lowercase()
}

// ---------------------------------------------------------------------------
// Editing the history
// ---------------------------------------------------------------------------

/// The record a scan's finished result becomes.
pub open spec fn is_new_result(r: ScanRecord, id: u64, image_path: String, markdown: String) -> bool {
    &&& r.id == id
    &&& r.title@ == title_of(markdown@)
    &&& r.created_unix == id
    &&& r.image_path == image_path
    &&& r.markdown == markdown
    &&& r.stage == ScanStage::Complete
    &&& r.tts_revision == 0
    &&& r.ocr_engine == OcrEngine::PaddleV6
}

/// Adds a finished result at the front of the history.
pub fn add_result(records: &mut Vec<ScanRecord>, id: u64, image_path: String, markdown: String)
    ensures
        final(records)@.len() == old(records)@.len() + 1,
        is_new_result(final(records)@[0], id, image_path, markdown),
        final(records)@.skip(1) == old(records)@,
{
    let title = result_title(markdown.as_str());
    let record = ScanRecord {
        id,
        title,
        created_unix: id,
        image_path,
        markdown,
        stage: ScanStage::Complete,
        tts_revision: 0,
        ocr_engine: OcrEngine::PaddleV6,
    };
    records.insert(0, record);
    assert(records@.skip(1) == old(records)@);
}

/// The title of a pending scan: the photo's file name, or "Photo".
pub open spec fn pending_title(image_path: Seq<char>) -> Seq<char> {
    match file_name_of(image_path) {
        Some(n) => n,
        None => "Photo"@,
    }
}

/// The record of a scan that has been captured but not yet recognised.
pub open spec fn is_pending(r: ScanRecord, id: u64, image_path: Seq<char>, ocr_engine: OcrEngine) -> bool {
    &&& r.id == id
    &&& r.title@ == pending_title(image_path)
    &&& r.created_unix == id
    &&& r.image_path@ == image_path
    &&& r.markdown@.len() == 0
    &&& r.stage == ScanStage::Captured
    &&& r.tts_revision == 0
    &&& r.ocr_engine == ocr_engine
}

/// Adds a scan that has been captured but not yet recognised at the front
/// of the history, remembering the engine chosen for it.
pub fn add_pending(
    records: &mut Vec<ScanRecord>,
    id: u64,
    image_path: String,
    ocr_engine: OcrEngine,
)
    ensures
        final(records)@.len() == old(records)@.len() + 1,
        final(records)@.skip(1) == old(records)@,
        is_pending(final(records)@[0], id, image_path@, ocr_engine),
{
    let title = match file_name(image_path.as_str()) {
        Some(name) => name,
        None => "Photo".to_owned(),
    };
    let record = ScanRecord {
        id,
        title,
        created_unix: id,
        image_path,
        markdown: String::new(),
        stage: ScanStage::Captured,
        tts_revision: 0,
        ocr_engine,
    };
    records.insert(0, record);
    assert(records@.skip(1) == old(records)@);
}

/// The index of the first record with `id`.
pub open spec fn first_with_id(records: Seq<ScanRecord>, id: u64) -> Option<int>
    decreases records.len(),
{
    if records.len() == 0 {
        None
    } else if records[0].id == id {
        Some(0)
    } else {
        match first_with_id(records.drop_first(), id) {
            Some(j) => Some(j + 1),
            None => None,
        }
    }
}

pub proof fn lemma_first_with_id(records: Seq<ScanRecord>, id: u64)
    ensures
        first_with_id(records, id) matches Some(j) ==> 0 <= j < records.len() && records[j].id
            == id && forall|k: int| 0 <= k < j ==> records[k].id != id,
        first_with_id(records, id) is None ==> forall|k: int|
            0 <= k < records.len() ==> records[k].id != id,
    decreases records.len(),
{
    if records.len() > 0 && records[0].id != id {
        lemma_first_with_id(records.drop_first(), id);
        assert forall|k: int| 0 < k < records.len() implies records[k] == records.drop_first()[k
            - 1] by {}
    }
}

/// Finds the first record with `id`.
pub fn find_id(records: &Vec<ScanRecord>, id: u64) -> (r: Option<usize>)
    ensures
        match r {
            Some(j) => first_with_id(records@, id) == Some(j as int),
            None => first_with_id(records@, id) is None,
        },
{
    let mut i: usize = 0;
    assert(records@.skip(0) == records@);
    while i < records.len()
        invariant
            0 <= i <= records@.len(),
            forall|k: int| 0 <= k < i ==> records@[k].id != id,
            first_with_id(records@, id) == (match first_with_id(records@.skip(i as int), id) {
                Some(j) => Some(j + i),
                None => None,
            }),
        decreases records@.len() - i,
    {
        proof {
            assert(records@.skip(i as int)[0] == records@[i as int]);
            assert(records@.skip(i as int).drop_first() == records@.skip(i + 1));
        }
        if records[i].id == id {
            return Some(i);
        }
        i += 1;
    }
    None
}

/// `after` is `before` with the first record with `id` moved to `stage`
/// (and `before` itself when no record has that id).
pub open spec fn staged(before: Seq<ScanRecord>, after: Seq<ScanRecord>, id: u64, stage: ScanStage) -> bool {
    match first_with_id(before, id) {
        None => after == before,
        Some(j) => after.len() == before.len() && (forall|k: int|
            0 <= k < before.len() && k != j ==> after[k] == before[k]) && ({
            let (a, b) = (before[j], after[j]);
            &&& b.stage == stage
            &&& b.id == a.id
            &&& b.title == a.title
            &&& b.created_unix == a.created_unix
            &&& b.image_path == a.image_path
            &&& b.markdown == a.markdown
            &&& b.tts_revision == a.tts_revision
            &&& b.ocr_engine == a.ocr_engine
        }),
    }
}

/// Moves the record with `id` to `stage`; records are unchanged when none
/// has that id.
pub fn set_stage(records: &mut Vec<ScanRecord>, id: u64, stage: ScanStage)
    ensures
        staged(old(records)@, final(records)@, id, stage),
{
    if let Some(j) = find_id(records, id) {
        proof {
            lemma_first_with_id(old(records)@, id);
        }
        let ghost prev = records@;
        let mut record = records.remove(j);
        record.stage = stage;
        records.insert(j, record);
        assert(records@ == prev.update(j as int, record));
    }
}

/// `after` is `before` with the first record with `id` finished with
/// `markdown` (and `before` itself when no record has that id).
pub open spec fn completed(before: Seq<ScanRecord>, after: Seq<ScanRecord>, id: u64, markdown: String) -> bool {
    match first_with_id(before, id) {
        None => after == before,
        Some(j) => after.len() == before.len() && (forall|k: int|
            0 <= k < before.len() && k != j ==> after[k] == before[k]) && ({
            let (a, b) = (before[j], after[j]);
            &&& b.title@ == title_of(markdown@)
            &&& b.markdown == markdown
            &&& b.stage == ScanStage::Complete
            &&& b.id == a.id
            &&& b.created_unix == a.created_unix
            &&& b.image_path == a.image_path
            &&& b.tts_revision == a.tts_revision
            &&& b.ocr_engine == a.ocr_engine
        }),
    }
}

/// Finishes the record with `id`: its markdown is stored, its title taken
/// from it, and its stage becomes `Complete`; records are unchanged when
/// none has that id.
pub fn complete(records: &mut Vec<ScanRecord>, id: u64, markdown: String)
    ensures
        completed(old(records)@, final(records)@, id, markdown),
{
    if let Some(j) = find_id(records, id) {
        proof {
            lemma_first_with_id(old(records)@, id);
        }
        let ghost prev = records@;
        let mut record = records.remove(j);
        record.title = result_title(markdown.as_str());
        record.markdown = markdown;
        record.stage = ScanStage::Complete;
        records.insert(j, record);
        assert(records@ == prev.update(j as int, record));
    }
}

/// The records whose id differs from `id`, in order.
pub open spec fn without_id(records: Seq<ScanRecord>, id: u64) -> Seq<ScanRecord> {
    records.filter(|r: ScanRecord| r.id != id)
}

/// Deletes every record with `id`; says whether one was deleted.
pub fn remove(records: &mut Vec<ScanRecord>, id: u64) -> (removed: bool)
    ensures
        final(records)@ == without_id(old(records)@, id),
        removed == exists|k: int| 0 <= k < old(records)@.len() && old(records)@[k].id == id,
{
    let ghost orig = records@;
    let ghost pred = |r: ScanRecord| r.id != id;
    let mut i: usize = 0;
    let mut k: usize = 0;
    let before = records.len();
    assert(orig.take(0) == Seq::<ScanRecord>::empty());
    assert(orig.skip(0) == orig);
    reveal_with_fuel(Seq::<_>::filter, 1);
    while i < records.len()
        invariant
            pred == (|r: ScanRecord| r.id != id),
            before == orig.len(),
            0 <= i <= k <= orig.len(),
            records@.len() == i + (orig.len() - k),
            records@.take(i as int) == orig.take(k as int).filter(pred),
            records@.skip(i as int) == orig.skip(k as int),
            (i == k) == forall|m: int| 0 <= m < k ==> orig[m].id != id,
        decreases orig.len() - k,
    {
        proof {
            reveal_with_fuel(Seq::<_>::filter, 1);
            assert(orig.take(k + 1).drop_last() == orig.take(k as int));
            assert(orig.take(k + 1).last() == orig[k as int]);
            assert(records@[i as int] == orig.skip(k as int)[0]);
            assert(orig.skip(k as int)[0] == orig[k as int]);
        }
        if records[i].id == id {
            let ghost prev = records@;
            records.remove(i);
            proof {
                reveal_with_fuel(Seq::<_>::filter, 1);
                assert(!pred(orig.take(k + 1).last()));
                assert(orig.take(k + 1).filter(pred) == orig.take(k as int).filter(pred));
                assert(records@.take(i as int) == prev.take(i as int));
                assert(records@.skip(i as int) == prev.skip(i + 1));
                assert(prev.skip(i + 1) == orig.skip(k + 1)) by {
                    assert(prev.skip(i + 1) == prev.skip(i as int).drop_first());
                    assert(orig.skip(k + 1) == orig.skip(k as int).drop_first());
                }
            }
        } else {
            proof {
                reveal_with_fuel(Seq::<_>::filter, 1);
                assert(pred(orig.take(k + 1).last()));
                assert(orig.take(k + 1).filter(pred) == orig.take(k as int).filter(pred).push(
                    orig[k as int],
                ));
                assert(records@.take(i + 1) == records@.take(i as int).push(records@[i as int]));
                assert(records@.skip(i + 1) == records@.skip(i as int).drop_first());
                assert(orig.skip(k + 1) == orig.skip(k as int).drop_first());
            }
            i += 1;
        }
        k += 1;
    }
    proof {
        assert(records@.take(i as int) == records@);
        assert(orig.take(k as int) == orig);
    }
    records.len() != before
}

proof fn lemma_without_absent_id(records: Seq<ScanRecord>, id: u64)
    requires
        forall|k: int| 0 <= k < records.len() ==> records[k].id != id,
    ensures
        without_id(records, id) == records,
    decreases records.len(),
{
    reveal_with_fuel(Seq::<_>::filter, 1);
    if records.len() > 0 {
        lemma_without_absent_id(records.drop_last(), id);
        assert(records.drop_last().push(records.last()) == records);
    }
}

/// Deleting a result right after adding it gives the history back as it
/// was, when no earlier record had that id.
pub proof fn law_remove_undoes_add(records: Seq<ScanRecord>, added: ScanRecord)
    requires
        forall|k: int| 0 <= k < records.len() ==> records[k].id != added.id,
    ensures
        without_id(seq![added] + records, added.id) == records,
{
    records.lemma_filter_prepend(added, |r: ScanRecord| r.id != added.id);
    lemma_without_absent_id(records, added.id);
    assert(Seq::<ScanRecord>::empty() + records == records);
}

/// After a deletion no record with the id is left, and every other record
/// is kept, in order.
pub proof fn law_remove_leaves_no_record_with_the_id(records: Seq<ScanRecord>, id: u64)
    ensures
        forall|k: int|
            0 <= k < without_id(records, id).len() ==> #[trigger] without_id(records, id)[k].id
                != id,
        forall|k: int|
            0 <= k < records.len() && records[k].id != id ==> without_id(records, id).contains(
                #[trigger] records[k],
            ),
{
    let pred = |r: ScanRecord| r.id != id;
    assert forall|k: int| 0 <= k < without_id(records, id).len() implies #[trigger] without_id(
        records,
        id,
    )[k].id != id by {
        records.lemma_filter_pred(pred, k);
    }
    assert forall|k: int| 0 <= k < records.len() && records[k].id != id implies without_id(
        records,
        id,
    ).contains(#[trigger] records[k]) by {
        records.lemma_filter_contains(pred, k);
    }
}

// ---------------------------------------------------------------------------
// Search
// ---------------------------------------------------------------------------

/// A record matches a search when the trimmed, lower-cased query is empty or
/// occurs in the lower-cased title, document text or photo file name.
pub open spec fn query_matches(record: ScanRecord, query: Seq<char>) -> bool {
    let q = unicode_lowercase(trim_seq(query));
    ||| q.len() == 0
    ||| seq_contains(unicode_lowercase(record.title@), q)
    ||| seq_contains(unicode_lowercase(record.markdown@), q)
    ||| (file_name_of(record.image_path@) matches Some(n) && seq_contains(unicode_lowercase(n), q))
}

/// Search ignores case and the query's surrounding whitespace: a record
/// matches whenever the lower-cased, trimmed query occurs in its lower-cased
/// title, document text or photo file name, and a blank query matches every
/// record; and a record matches only in those cases.
pub proof fn law_search_finds_text_in_any_case(record: ScanRecord, query: Seq<char>)
    ensures
        ({
            let q = unicode_lowercase(trim_seq(query));
            &&& seq_contains(unicode_lowercase(record.markdown@), q) ==> query_matches(record, query)
            &&& seq_contains(unicode_lowercase(record.title@), q) ==> query_matches(record, query)
            &&& (file_name_of(record.image_path@) matches Some(n) && seq_contains(
                unicode_lowercase(n),
                q,
            )) ==> query_matches(record, query)
            &&& q.len() == 0 ==> query_matches(record, query)
            &&& query_matches(record, query) ==> q.len() == 0 || seq_contains(
                unicode_lowercase(record.markdown@),
                q,
            ) || seq_contains(unicode_lowercase(record.title@), q) || (file_name_of(
                record.image_path@,
            ) matches Some(n) && seq_contains(unicode_lowercase(n), q))
        }),
{
}

pub fn matches_query(record: &ScanRecord, query: &str) -> (r: bool)
    ensures
        r == query_matches(*record, query@),
        trim_seq(query@).len() == 0 ==> r,
{
    let trimmed = from_chars(&crate::text::trim_chars(&to_chars(query)));
    let q = to_chars(to_lowercase(trimmed.as_str()).as_str());
    if q.len() == 0 {
        return true;
    }
    if contains_chars(&to_chars(to_lowercase(record.title.as_str()).as_str()), &q) {
        return true;
    }
    if contains_chars(&to_chars(to_lowercase(record.markdown.as_str()).as_str()), &q) {
        return true;
    }
    match file_name(record.image_path.as_str()) {
        Some(name) => contains_chars(&to_chars(to_lowercase(name.as_str()).as_str()), &q),
        None => false,
    }
}

} // verus!
