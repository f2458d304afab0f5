//! What the mobile screens keep between frames, and how the events sent by
//! the worker threads change it: the model board of the download screen,
//! the scan being recognised and the reading aloud of a result.
//!
//! Drawing, gestures, threads and files stay outside the library: the app
//! hands each event to these functions and carries out what they ask for
//! (saving the history, starting a download, raising a stop flag).

use vstd::prelude::*;
use crate::catalog::{MODEL_COUNT, ModelSpec, Screen, catalogue, models};
use crate::download::DownloadEvent;
use crate::history::{
    ScanRecord, ScanStage, add_pending, completed, complete, file_name, file_name_of, find_id,
    first_with_id, is_pending, lemma_first_with_id, matches_query, query_matches, set_stage, staged,
};
use crate::markdown::{normalize_ocr, normalized};
use crate::mobile::{ReadingTally, RecognitionPlan, reading_summary, skipped_notice, format_bytes, next_tts_revision, plan_recognition, recognition_plan, size_text};
use crate::settings::{OcrEngine, engine_label};
use crate::text::{
    contains_chars, decimal, from_chars, push_all, push_decimal, seq_contains, to_chars,
    trim_chars, trim_seq,
};
use vstd::string::StringExecFns;

verus! {

/// The pages of the mobile app.
#[derive(Clone, Copy, Debug, PartialEq, Eq, Structural)]
pub enum Page {
    Download,
    History,
    Settings,
    Recognizing,
    Result,
}

/// A clear horizontal swipe, by the way it went.
#[derive(Clone, Copy, Debug, PartialEq, Eq, Structural)]
pub enum Swipe {
    Leftward,
    Rightward,
}

/// The page after a swipe: leftwards from the download page to the history,
/// rightwards back; any other page, or no clear swipe, keeps the page.
pub fn swiped_page(page: Page, swipe: Option<Swipe>) -> (r: Page)
    ensures
        r == (match (page, swipe) {
            (Page::Download, Some(Swipe::Leftward)) => Page::History,
            (Page::History, Some(Swipe::Rightward)) => Page::Download,
            _ => page,
        }),
{
    match (page, swipe) {
        (Page::Download, Some(Swipe::Leftward)) => Page::History,
        (Page::History, Some(Swipe::Rightward)) => Page::Download,
        _ => page,
    }
}

/// What a camera or text prompt hands back, from its error and its value
/// (either may be missing): the error when there is one, otherwise the
/// value, `None` when the user closed the prompt.
pub fn prompt_result(error: Option<String>, value: Option<String>) -> (r: Result<
    Option<String>,
    String,
>)
    ensures
        r == (match error {
            Some(e) => Err::<Option<String>, String>(e),
            None => Ok(value),
        }),
{
    match error {
        Some(e) => Err(e),
        None => Ok(value),
    }
}

// ---------------------------------------------------------------------------
// The download board
// ---------------------------------------------------------------------------

/// What the download screen shows for one model file.
#[derive(Clone, Copy, Debug, PartialEq, Eq, Structural)]
pub enum ModelStatus {
    Waiting,
    Downloading,
    Complete,
    Failed,
}

/// The state of the download screen: each file's status and progress
/// (bytes written, expected total), the last error, and whether a download
/// task runs.
#[derive(Debug)]
pub struct DownloadBoard {
    pub status: [ModelStatus; MODEL_COUNT],
    pub progress: [(u64, u64); MODEL_COUNT],
    pub error: Option<String>,
    pub running: bool,
}

/// The status of a file when the board is (re)built.
pub open spec fn fresh_status(installed: bool) -> ModelStatus {
    if installed {
        ModelStatus::Complete
    } else {
        ModelStatus::Waiting
    }
}

/// The progress of a file when the board is (re)built: all of it when the
/// file is installed, nothing otherwise.
pub open spec fn fresh_progress(installed: bool, model: ModelSpec) -> (u64, u64) {
    (if installed {
        model.expected_bytes
    } else {
        0
    }, model.expected_bytes)
}

/// The catalogue index an event speaks of.
pub open spec fn event_index(event: DownloadEvent) -> Option<usize> {
    match event {
        DownloadEvent::Started(i) => Some(i),
        DownloadEvent::Progress(i, _, _) => Some(i),
        DownloadEvent::Complete(i) => Some(i),
        DownloadEvent::Failed(i, _) => Some(i),
        DownloadEvent::Finished => None,
    }
}

fn fresh_entry(installed: bool, model: &ModelSpec) -> (r: (ModelStatus, (u64, u64)))
    ensures
        r.0 == fresh_status(installed),
        r.1 == fresh_progress(installed, *model),
{
    if installed {
        (ModelStatus::Complete, (model.expected_bytes, model.expected_bytes))
    } else {
        (ModelStatus::Waiting, (0, model.expected_bytes))
    }
}

impl DownloadBoard {
    /// The board for a model directory in which `installed[i]` tells whether
    /// the `i`-th catalogue file is installed: installed files are complete,
    /// the others wait at zero bytes, and no error is shown.
    pub fn fresh(installed: &[bool; MODEL_COUNT], running: bool) -> (r: Self)
        ensures
            forall|i: int|
                0 <= i < MODEL_COUNT ==> r.status@[i] == fresh_status(#[trigger] installed@[i])
                    && r.progress@[i] == fresh_progress(installed@[i], catalogue()[i]),
            r.error is None,
            r.running == running,
    {
        let m = models();
        let e0 = fresh_entry(installed[0], &m[0]);
        let e1 = fresh_entry(installed[1], &m[1]);
        let e2 = fresh_entry(installed[2], &m[2]);
        let e3 = fresh_entry(installed[3], &m[3]);
        let e4 = fresh_entry(installed[4], &m[4]);
        let e5 = fresh_entry(installed[5], &m[5]);
        let r = DownloadBoard {
            status: [e0.0, e1.0, e2.0, e3.0, e4.0, e5.0],
            progress: [e0.1, e1.1, e2.1, e3.1, e4.1, e5.1],
            error: None,
            running,
        };
        assert forall|i: int| 0 <= i < MODEL_COUNT implies r.status@[i] == fresh_status(
            #[trigger] installed@[i],
        ) && r.progress@[i] == fresh_progress(installed@[i], catalogue()[i]) by {
            if i == 0 {
            } else if i == 1 {
            } else if i == 2 {
            } else if i == 3 {
            } else if i == 4 {
            } else {
            }
        }
        r
    }

    /// Takes in one event of the download task. A file that completes shows
    /// all of its published size; a failure shows its error and ends the
    /// task, as the end of the run does.
    pub fn apply(&mut self, event: DownloadEvent)
        requires
            event_index(event) matches Some(i) ==> i < MODEL_COUNT,
        ensures
            match event {
                DownloadEvent::Started(i) => {
                    &&& final(self).status@ == old(self).status@.update(
                        i as int,
                        ModelStatus::Downloading,
                    )
                    &&& final(self).progress@ == old(self).progress@
                    &&& final(self).error == old(self).error
                    &&& final(self).running == old(self).running
                },
                DownloadEvent::Progress(i, done, total) => {
                    &&& final(self).status@ == old(self).status@
                    &&& final(self).progress@ == old(self).progress@.update(i as int, (done, total))
                    &&& final(self).error == old(self).error
                    &&& final(self).running == old(self).running
                },
                DownloadEvent::Complete(i) => {
                    &&& final(self).status@ == old(self).status@.update(
                        i as int,
                        ModelStatus::Complete,
                    )
                    &&& final(self).progress@ == old(self).progress@.update(
                        i as int,
                        (catalogue()[i as int].expected_bytes, catalogue()[i as int].expected_bytes),
                    )
                    &&& final(self).error == old(self).error
                    &&& final(self).running == old(self).running
                },
                DownloadEvent::Failed(i, message) => {
                    &&& final(self).status@ == old(self).status@.update(i as int, ModelStatus::Failed)
                    &&& final(self).progress@ == old(self).progress@
                    &&& final(self).error == Some(message)
                    &&& !final(self).running
                },
                DownloadEvent::Finished => {
                    &&& final(self).status@ == old(self).status@
                    &&& final(self).progress@ == old(self).progress@
                    &&& final(self).error == old(self).error
                    &&& !final(self).running
                },
            },
    {
        match event {
            DownloadEvent::Started(i) => {
                self.status[i] = ModelStatus::Downloading;
            },
            DownloadEvent::Progress(i, done, total) => {
                self.progress[i] = (done, total);
            },
            DownloadEvent::Complete(i) => {
                let m = models();
                let expected = m[i].expected_bytes;
                self.status[i] = ModelStatus::Complete;
                self.progress[i] = (expected, expected);
            },
            DownloadEvent::Failed(i, message) => {
                self.status[i] = ModelStatus::Failed;
                self.error = Some(message);
                self.running = false;
            },
            DownloadEvent::Finished => {
                self.running = false;
            },
        }
    }

    /// The bytes written and the bytes expected over the files at `shown`
    /// (catalogue indices), for the total at the top of the screen.
    pub fn overall(&self, shown: &[usize]) -> (r: (u64, u64))
        requires
            forall|k: int| 0 <= k < shown@.len() ==> #[trigger] shown@[k] < MODEL_COUNT,
            written_sum(self.progress@, shown@) <= u64::MAX,
            expected_sum(shown@) <= u64::MAX,
        ensures
            r.0 == written_sum(self.progress@, shown@),
            r.1 == expected_sum(shown@),
    {
        let m = models();
        let mut written: u64 = 0;
        let mut expected: u64 = 0;
        let mut k: usize = 0;
        while k < shown.len()
            invariant
                0 <= k <= shown@.len(),
                m@ == catalogue(),
                forall|j: int| 0 <= j < shown@.len() ==> #[trigger] shown@[j] < MODEL_COUNT,
                written_sum(self.progress@, shown@) <= u64::MAX,
                expected_sum(shown@) <= u64::MAX,
                written == written_sum(self.progress@, shown@.take(k as int)),
                expected == expected_sum(shown@.take(k as int)),
            decreases shown@.len() - k,
        {
            let i = shown[k];
            proof {
                let next = shown@.take(k + 1);
                assert(next.drop_last() == shown@.take(k as int));
                assert(next.last() == i);
                lemma_sums_grow(self.progress@, shown@, k as int + 1);
                assert(written_sum(self.progress@, next) == written + self.progress@[i as int].0);
                assert(expected_sum(next) == expected + catalogue()[i as int].expected_bytes);
            }
            written = written + self.progress[i].0;
            expected = expected + m[i].expected_bytes;
            k += 1;
        }
        proof {
            assert(shown@.take(shown@.len() as int) == shown@);
        }
        (written, expected)
    }
}

/// The bytes written over the files at `shown`.
pub open spec fn written_sum(progress: Seq<(u64, u64)>, shown: Seq<usize>) -> int
    decreases shown.len(),
{
    if shown.len() == 0 {
        0
    } else {
        written_sum(progress, shown.drop_last()) + progress[shown.last() as int].0
    }
}

/// The published sizes of the files at `shown`.
pub open spec fn expected_sum(shown: Seq<usize>) -> int
    decreases shown.len(),
{
    if shown.len() == 0 {
        0
    } else {
        expected_sum(shown.drop_last()) + catalogue()[shown.last() as int].expected_bytes
    }
}

proof fn lemma_sums_grow(progress: Seq<(u64, u64)>, shown: Seq<usize>, n: int)
    requires
        0 <= n <= shown.len(),
    ensures
        written_sum(progress, shown.take(n)) <= written_sum(progress, shown),
        expected_sum(shown.take(n)) <= expected_sum(shown),
    decreases shown.len(),
{
    if n < shown.len() {
        assert(shown.drop_last().take(n) == shown.take(n));
        lemma_sums_grow(progress, shown.drop_last(), n);
    } else {
        assert(shown.take(n) == shown);
    }
}

/// How a byte count is shown against its total: "written / total".
pub open spec fn bytes_of_text(done: u64, total: u64) -> Seq<char> {
    size_text(done as nat) + " / "@ + size_text(total as nat)
}

/// The "written / total" label of a file or of the whole download.
pub fn bytes_of(done: u64, total: u64) -> (r: String)
    ensures
        r@ == bytes_of_text(done, total),
{
    let mut out = to_chars(&format_bytes(done));
    push_all(&mut out, &to_chars(" / "));
    push_all(&mut out, &to_chars(&format_bytes(total)));
    from_chars(&out)
}

// ---------------------------------------------------------------------------
// Recognition
// ---------------------------------------------------------------------------

/// How far the scan on the recognition page has come.
#[derive(Clone, Copy, Debug, PartialEq, Eq, Structural)]
pub enum ScanProgress {
    Waiting,
    Started,
    Layout,
    Ocr,
    Streaming,
    Done,
}

impl ScanProgress {
    /// The share of the progress bar that is filled, in percent.
    pub fn percent(self) -> (r: u8)
        ensures
            r == match self {
                ScanProgress::Waiting => 0u8,
                ScanProgress::Started => 10u8,
                ScanProgress::Layout => 35u8,
                ScanProgress::Ocr => 65u8,
                ScanProgress::Streaming => 80u8,
                ScanProgress::Done => 100u8,
            },
    {
        match self {
            ScanProgress::Waiting => 0,
            ScanProgress::Started => 10,
            ScanProgress::Layout => 35,
            ScanProgress::Ocr => 65,
            ScanProgress::Streaming => 80,
            ScanProgress::Done => 100,
        }
    }
}

/// The tabs of the result page.
#[derive(Clone, Copy, Debug, PartialEq, Eq, Structural)]
pub enum ResultTab {
    Preview,
    Edit,
    Compare,
}

/// What the recognition worker reports.
#[derive(Debug)]
pub enum RecognitionEvent {
    /// The layout pass started.
    Layout,
    /// Text recognition started (the layout pass is done).
    Ocr,
    /// A piece of recognised text.
    Token(String),
    /// The recognised Markdown.
    Complete(String),
    Failed(String),
}

/// The scan that the recognition and result pages follow.
#[derive(Debug)]
pub struct ScanSession {
    pub active: bool,
    /// Numbers the runs, so the events of a cancelled run can be told apart.
    pub generation: u64,
    pub progress: ScanProgress,
    /// The text streamed so far.
    pub streamed: String,
    pub error: Option<String>,
    /// The result shown on the result page.
    pub markdown: String,
    pub tab: ResultTab,
    /// The history record of the scan.
    pub record_id: Option<u64>,
}

/// The events a recognition run reports before its text: PP-OCRv6 does
/// layout and text in one call, so it reports both at once; PaddleOCR-VL
/// reports the layout pass only when it runs it.
pub fn opening_events(engine: OcrEngine, run_layout: bool) -> (r: Vec<RecognitionEvent>)
    ensures
        engine == OcrEngine::PaddleV6 ==> r@.len() == 2 && r@[0] is Layout && r@[1] is Ocr,
        engine == OcrEngine::PaddleVl16 && run_layout ==> r@.len() == 1 && r@[0] is Layout,
        engine == OcrEngine::PaddleVl16 && !run_layout ==> r@.len() == 0,
{
    let mut r: Vec<RecognitionEvent> = Vec::new();
    if engine == OcrEngine::PaddleV6 {
        r.push(RecognitionEvent::Layout);
        r.push(RecognitionEvent::Ocr);
    } else if run_layout {
        r.push(RecognitionEvent::Layout);
    }
    r
}

/// The last event of a recognition run, from what the recogniser answered:
/// its error, a failure when it found no text (for PP-OCRv6, none but
/// whitespace), and otherwise its Markdown.
pub fn recognition_outcome(engine: OcrEngine, output: Result<String, String>) -> (r:
    RecognitionEvent)
    ensures
        match output {
            Err(e) => r == RecognitionEvent::Failed(e),
            Ok(markdown) => if (engine == OcrEngine::PaddleV6 && trim_seq(markdown@).len() == 0)
                || (engine == OcrEngine::PaddleVl16 && markdown@.len() == 0) {
                r matches RecognitionEvent::Failed(e) && e@ == "OCR returned no text"@
            } else {
                r == RecognitionEvent::Complete(markdown)
            },
        },
{
    match output {
        Err(e) => RecognitionEvent::Failed(e),
        Ok(markdown) => {
            let empty = if engine == OcrEngine::PaddleV6 {
                trim_chars(&to_chars(markdown.as_str())).len() == 0
            } else {
                markdown.as_str().unicode_len() == 0
            };
            if empty {
                RecognitionEvent::Failed("OCR returned no text".to_owned())
            } else {
                RecognitionEvent::Complete(markdown)
            }
        },
    }
}

/// What the reading does with a sentence once its audio was asked for.
#[derive(Clone, Copy, Debug, PartialEq, Eq, Structural)]
pub enum ReadingStep {
    /// The reader was stopped: the reading ends here, and the sentence
    /// counts neither as read nor as skipped.
    Stop,
    /// No audio could be made: the sentence is skipped and marked done.
    Skip,
    /// The audio is played.
    Play,
}

/// The step for a sentence, from whether the reader has been stopped and
/// whether its audio was made.
pub fn reading_step(stopped: bool, made: bool) -> (r: ReadingStep)
    ensures
        r == (if stopped {
            ReadingStep::Stop
        } else if made {
            ReadingStep::Play
        } else {
            ReadingStep::Skip
        }),
{
    if stopped {
        ReadingStep::Stop
    } else if made {
        ReadingStep::Play
    } else {
        ReadingStep::Skip
    }
}

/// How a reading ends: the notice of skipped sentences, and the reading's
/// result, which a stopped reading does not report.
pub fn reading_end(stopped: bool, tally: ReadingTally) -> (r: (Option<String>, Option<
    Result<(), String>,
>))
    ensures
        tally.skipped == 0 ==> r.0 is None,
        tally.skipped > 0 ==> (r.0 matches Some(n) && n@ == skipped_notice(tally.skipped)),
        stopped ==> r.1 is None,
        !stopped ==> (r.1 matches Some(res) && (res is Err <==> (tally.read == 0 && tally.skipped
            > 0)) && (res matches Err(e) ==> e@ == "Melo TTS could not read any segment"@)),
{
    let (notice, result) = reading_summary(tally);
    if stopped {
        (notice, None)
    } else {
        (notice, Some(result))
    }
}

/// The reading aloud of the result page.
#[derive(Debug)]
pub struct Reader {
    pub active: bool,
    /// The sentence being played.
    pub current: Option<usize>,
    /// How many sentences are behind.
    pub done: usize,
    /// The next sentence is being prepared.
    pub preparing: bool,
    /// The page scrolls to the sentence being played.
    pub follow: bool,
}

/// What the reading worker reports.
#[derive(Debug)]
pub enum ReadingEvent {
    /// The sentence at this index starts playing.
    Sentence(usize),
    /// The sentence at this index is behind (played or skipped).
    SentenceDone(usize),
    /// The reading ended, with its error if it failed.
    Finished(Result<(), String>),
}

/// What the mobile pages keep between frames, apart from the download
/// board: the page shown, the notice, the scan and the reading.
#[derive(Debug)]
pub struct MobileState {
    pub page: Page,
    pub notice: Option<String>,
    pub scan: ScanSession,
    pub reader: Reader,
}

impl MobileState {
    /// The state the app opens with: the download page when the first
    /// screen is the download screen and the history otherwise, with no
    /// scan and no reading.
    pub fn opening(first: Screen) -> (r: Self)
        ensures
            r.page == (if first == Screen::Download {
                Page::Download
            } else {
                Page::History
            }),
            r.notice is None,
            r.scan == (ScanSession {
                active: false,
                generation: 0,
                progress: ScanProgress::Waiting,
                streamed: r.scan.streamed,
                error: None,
                markdown: r.scan.markdown,
                tab: ResultTab::Preview,
                record_id: None,
            }),
            r.scan.streamed@.len() == 0,
            r.scan.markdown@.len() == 0,
            r.reader == (Reader {
                active: false,
                current: None,
                done: 0,
                preparing: false,
                follow: false,
            }),
    {
        MobileState {
            page: if first == Screen::Download {
                Page::Download
            } else {
                Page::History
            },
            notice: None,
            scan: ScanSession {
                active: false,
                generation: 0,
                progress: ScanProgress::Waiting,
                streamed: String::new(),
                error: None,
                markdown: String::new(),
                tab: ResultTab::Preview,
                record_id: None,
            },
            reader: Reader { active: false, current: None, done: 0, preparing: false, follow: false },
        }
    }
}

/// Some record with `id` was made with PaddleOCR-VL, whose runs can resume
/// after the layout pass.
pub open spec fn has_vl_record(records: Seq<ScanRecord>, id: u64) -> bool {
    exists|k: int|
        0 <= k < records.len() && #[trigger] records[k].id == id && records[k].ocr_engine
            == OcrEngine::PaddleVl16
}

fn find_vl_record(records: &Vec<ScanRecord>, id: u64) -> (r: bool)
    ensures
        r == has_vl_record(records@, id),
{
    let mut k: usize = 0;
    while k < records.len()
        invariant
            0 <= k <= records@.len(),
            forall|j: int|
                0 <= j < k ==> !(#[trigger] records@[j].id == id && records@[j].ocr_engine
                    == OcrEngine::PaddleVl16),
        decreases records@.len() - k,
    {
        if records[k].id == id && records[k].ocr_engine == OcrEngine::PaddleVl16 {
            return true;
        }
        k += 1;
    }
    false
}

/// The event comes from the run the scan follows.
pub open spec fn counts(scan: ScanSession, generation: u64) -> bool {
    scan.active && scan.generation == generation
}

impl MobileState {
    /// Takes in one event of the recognition worker. Events of a run that
    /// is no longer followed change nothing. When the layout pass of a
    /// PaddleOCR-VL scan is done its record remembers it; the finished
    /// Markdown is cleaned of raw HTML, stored in the scan's record and
    /// shown on the result page. Returns whether the history must be saved.
    pub fn on_recognition_event(
        &mut self,
        records: &mut Vec<ScanRecord>,
        generation: u64,
        event: RecognitionEvent,
    ) -> (save: bool)
        ensures
            !counts(old(self).scan, generation) ==> {
                &&& *final(self) == *old(self)
                &&& final(records)@ == old(records)@
                &&& !save
            },
            counts(old(self).scan, generation) ==> match event {
                RecognitionEvent::Layout => {
                    &&& final(self).scan == (ScanSession {
                        progress: ScanProgress::Layout,
                        ..old(self).scan
                    })
                    &&& final(self).page == old(self).page
                    &&& final(self).notice == old(self).notice
                    &&& final(self).reader == old(self).reader
                    &&& final(records)@ == old(records)@
                    &&& !save
                },
                RecognitionEvent::Ocr => {
                    &&& final(self).scan == (ScanSession {
                        progress: ScanProgress::Ocr,
                        ..old(self).scan
                    })
                    &&& final(self).page == old(self).page
                    &&& final(self).notice == old(self).notice
                    &&& final(self).reader == old(self).reader
                    &&& save == (old(self).scan.record_id matches Some(id) && has_vl_record(
                        old(records)@,
                        id,
                    ))
                    &&& save ==> staged(
                        old(records)@,
                        final(records)@,
                        old(self).scan.record_id->0,
                        ScanStage::LayoutDone,
                    )
                    &&& !save ==> final(records)@ == old(records)@
                },
                RecognitionEvent::Token(piece) => {
                    &&& final(self).scan.streamed@ == old(self).scan.streamed@ + piece@
                    &&& final(self).scan == (ScanSession {
                        progress: ScanProgress::Streaming,
                        streamed: final(self).scan.streamed,
                        ..old(self).scan
                    })
                    &&& final(self).page == old(self).page
                    &&& final(self).notice == old(self).notice
                    &&& final(self).reader == old(self).reader
                    &&& final(records)@ == old(records)@
                    &&& !save
                },
                RecognitionEvent::Complete(markdown) => {
                    &&& final(self).scan.markdown@ == normalized(markdown@)
                    &&& final(self).scan.streamed@.len() == 0
                    &&& final(self).scan == (ScanSession {
                        active: false,
                        progress: ScanProgress::Done,
                        streamed: final(self).scan.streamed,
                        markdown: final(self).scan.markdown,
                        tab: ResultTab::Preview,
                        ..old(self).scan
                    })
                    &&& final(self).page == (if old(self).page == Page::Recognizing {
                        Page::Result
                    } else {
                        old(self).page
                    })
                    &&& final(self).notice == old(self).notice
                    &&& final(self).reader == old(self).reader
                    &&& save == old(self).scan.record_id is Some
                    &&& save ==> completed(
                        old(records)@,
                        final(records)@,
                        old(self).scan.record_id->0,
                        final(self).scan.markdown,
                    )
                    &&& !save ==> final(records)@ == old(records)@
                },
                RecognitionEvent::Failed(error) => {
                    &&& final(self).scan == (ScanSession {
                        active: false,
                        error: Some(error),
                        ..old(self).scan
                    })
                    &&& final(self).page == old(self).page
                    &&& final(self).notice == old(self).notice
                    &&& final(self).reader == old(self).reader
                    &&& final(records)@ == old(records)@
                    &&& !save
                },
            },
    {
        if !(self.scan.active && self.scan.generation == generation) {
            return false;
        }
        match event {
            RecognitionEvent::Layout => {
                self.scan.progress = ScanProgress::Layout;
                false
            },
            RecognitionEvent::Ocr => {
                self.scan.progress = ScanProgress::Ocr;
                match self.scan.record_id {
                    Some(id) => {
                        if find_vl_record(records, id) {
                            set_stage(records, id, ScanStage::LayoutDone);
                            true
                        } else {
                            false
                        }
                    },
                    None => false,
                }
            },
            RecognitionEvent::Token(piece) => {
                self.scan.progress = ScanProgress::Streaming;
                self.scan.streamed.append(piece.as_str());
                false
            },
            RecognitionEvent::Complete(markdown) => {
                self.scan.active = false;
                self.scan.progress = ScanProgress::Done;
                self.scan.markdown = normalize_ocr(markdown.as_str());
                self.scan.streamed = String::new();
                self.scan.tab = ResultTab::Preview;
                let save = match self.scan.record_id {
                    Some(id) => {
                        complete(records, id, self.scan.markdown.clone());
                        true
                    },
                    None => false,
                };
                if self.page == Page::Recognizing {
                    self.page = Page::Result;
                }
                save
            },
            RecognitionEvent::Failed(error) => {
                self.scan.active = false;
                self.scan.error = Some(error);
                false
            },
        }
    }

    /// Opens the camera or the gallery for a new scan. While a scan is being
    /// recognised only its page is shown; otherwise the recognition page is
    /// cleared for the new photo. Says whether to open the picker.
    pub fn open_capture(&mut self) -> (open: bool)
        ensures
            open == !old(self).scan.active,
            final(self).page == Page::Recognizing,
            final(self).reader == old(self).reader,
            !open ==> final(self).scan == old(self).scan && final(self).notice == old(self).notice,
            open ==> {
                &&& final(self).scan.streamed@.len() == 0
                &&& final(self).scan == (ScanSession {
                    progress: ScanProgress::Waiting,
                    streamed: final(self).scan.streamed,
                    error: None,
                    ..old(self).scan
                })
                &&& final(self).notice is None
            },
    {
        self.page = Page::Recognizing;
        if self.scan.active {
            return false;
        }
        self.scan.progress = ScanProgress::Waiting;
        self.scan.streamed = String::new();
        self.scan.error = None;
        self.notice = None;
        true
    }

    /// The picker closed without a photo: back to the history, with the
    /// picker's error as the notice when it failed.
    pub fn capture_closed(&mut self, error: Option<String>)
        ensures
            final(self).page == Page::History,
            final(self).scan == old(self).scan,
            final(self).reader == old(self).reader,
            final(self).notice == (match error {
                Some(e) => Some(e),
                None => old(self).notice,
            }),
    {
        self.page = Page::History;
        if let Some(e) = error {
            self.notice = Some(e);
        }
    }

    /// Stops following the scan being recognised and goes back to the
    /// history (the app also raises the worker's stop flag).
    pub fn cancel_recognition(&mut self)
        ensures
            final(self).page == Page::History,
            final(self).scan.streamed@.len() == 0,
            final(self).scan == (ScanSession {
                active: false,
                streamed: final(self).scan.streamed,
                ..old(self).scan
            }),
            final(self).notice == old(self).notice,
            final(self).reader == old(self).reader,
    {
        self.scan.active = false;
        self.scan.streamed = String::new();
        self.page = Page::History;
    }
}

// ---------------------------------------------------------------------------
// Reading aloud
// ---------------------------------------------------------------------------

impl MobileState {
    /// Starts reading the result aloud, `count` being the number of its
    /// sentences; nothing happens while a reading runs, and a result without
    /// sentences only gets a notice. Says whether the reading starts.
    pub fn start_reading(&mut self, count: usize) -> (started: bool)
        ensures
            started == (!old(self).reader.active && count > 0),
            final(self).page == old(self).page,
            final(self).scan == old(self).scan,
            old(self).reader.active ==> final(self).notice == old(self).notice && final(self).reader
                == old(self).reader,
            !old(self).reader.active && count == 0 ==> final(self).reader == old(self).reader && (
            final(self).notice matches Some(n) && n@ == "There is no text to read"@),
            started ==> final(self).notice is None && final(self).reader == (Reader {
                active: true,
                current: None,
                done: 0,
                preparing: true,
                follow: old(self).reader.follow,
            }),
    {
        if self.reader.active {
            return false;
        }
        self.notice = None;
        if count == 0 {
            self.notice = Some("There is no text to read".to_owned());
            return false;
        }
        self.reader.active = true;
        self.reader.done = 0;
        self.reader.current = None;
        self.reader.preparing = true;
        true
    }

    /// Takes in one event of the reading worker. Sentence events count only
    /// while the reading runs; its end stops it and shows its error.
    pub fn on_reading_event(&mut self, event: ReadingEvent)
        requires
            event matches ReadingEvent::SentenceDone(i) ==> i < usize::MAX,
        ensures
            final(self).page == old(self).page,
            final(self).scan == old(self).scan,
            match event {
                ReadingEvent::Sentence(i) => {
                    &&& final(self).notice == old(self).notice
                    &&& final(self).reader == if old(self).reader.active {
                        Reader {
                            current: Some(i),
                            preparing: false,
                            follow: true,
                            ..old(self).reader
                        }
                    } else {
                        old(self).reader
                    }
                },
                ReadingEvent::SentenceDone(i) => {
                    &&& final(self).notice == old(self).notice
                    &&& final(self).reader == if old(self).reader.active {
                        Reader {
                            done: (i + 1) as usize,
                            current: None,
                            preparing: true,
                            ..old(self).reader
                        }
                    } else {
                        old(self).reader
                    }
                },
                ReadingEvent::Finished(result) => {
                    &&& final(self).reader == (Reader {
                        active: false,
                        current: None,
                        preparing: false,
                        ..old(self).reader
                    })
                    &&& final(self).notice == (match result {
                        Ok(_) => old(self).notice,
                        Err(e) => Some(e),
                    })
                },
            },
    {
        match event {
            ReadingEvent::Sentence(i) => {
                if self.reader.active {
                    self.reader.current = Some(i);
                    self.reader.preparing = false;
                    self.reader.follow = true;
                }
            },
            ReadingEvent::SentenceDone(i) => {
                if self.reader.active {
                    self.reader.done = i + 1;
                    self.reader.current = None;
                    self.reader.preparing = true;
                }
            },
            ReadingEvent::Finished(result) => {
                self.reader.active = false;
                self.reader.current = None;
                self.reader.preparing = false;
                if let Err(e) = result {
                    self.notice = Some(e);
                }
            },
        }
    }

    /// Stops the reading at once (the app also raises its stop flag).
    pub fn stop_reading(&mut self)
        ensures
            final(self).page == old(self).page,
            final(self).scan == old(self).scan,
            final(self).notice == old(self).notice,
            final(self).reader == (Reader {
                active: false,
                current: None,
                preparing: false,
                ..old(self).reader
            }),
    {
        self.reader.active = false;
        self.reader.current = None;
        self.reader.preparing = false;
    }
}

// ---------------------------------------------------------------------------
// Starting a recognition
// ---------------------------------------------------------------------------

/// The index of the first record with `id` made from the photo at `image`.
pub open spec fn record_of_photo(records: Seq<ScanRecord>, id: u64, image: Seq<char>) -> Option<int>
    decreases records.len(),
{
    if records.len() == 0 {
        None
    } else if records[0].id == id && records[0].image_path@ == image {
        Some(0)
    } else {
        match record_of_photo(records.drop_first(), id, image) {
            Some(j) => Some(j + 1),
            None => None,
        }
    }
}

/// The stage and engine of the record the scan resumes, if any: the first
/// record with the scan's id made from the same photo.
pub open spec fn resumed(records: Seq<ScanRecord>, record_id: Option<u64>, image: Seq<char>) -> Option<
    (ScanStage, OcrEngine),
> {
    match record_id {
        Some(id) => match record_of_photo(records, id, image) {
            Some(j) => Some((records[j].stage, records[j].ocr_engine)),
            None => None,
        },
        None => None,
    }
}

proof fn lemma_record_of_photo(records: Seq<ScanRecord>, id: u64, image: Seq<char>)
    ensures
        record_of_photo(records, id, image) matches Some(j) ==> 0 <= j < records.len(),
    decreases records.len(),
{
    if records.len() > 0 {
        lemma_record_of_photo(records.drop_first(), id, image);
    }
}

fn find_record_of_photo(records: &Vec<ScanRecord>, id: u64, image: &str) -> (r: Option<usize>)
    ensures
        match r {
            Some(j) => record_of_photo(records@, id, image@) == Some(j as int),
            None => record_of_photo(records@, id, image@) is None,
        },
{
    let photo: String = image.to_owned();
    let mut i: usize = 0;
    assert(records@.skip(0) == records@);
    while i < records.len()
        invariant
            0 <= i <= records@.len(),
            photo@ == image@,
            record_of_photo(records@, id, image@) == (match record_of_photo(
                records@.skip(i as int),
                id,
                image@,
            ) {
                Some(j) => Some(j + i),
                None => None,
            }),
        decreases records@.len() - i,
    {
        proof {
            assert(records@.skip(i as int)[0] == records@[i as int]);
            assert(records@.skip(i as int).drop_first() == records@.skip(i + 1));
        }
        if records[i].id == id && records[i].image_path == photo {
            return Some(i);
        }
        i += 1;
    }
    None
}

/// The number of the run after run `generation`, wrapping after the last.
pub open spec fn next_generation(generation: u64) -> u64 {
    if generation == u64::MAX {
        0
    } else {
        (generation + 1) as u64
    }
}

/// Once a new run has been launched, no event of the run before it counts:
/// a cancelled scan cannot overwrite the one that replaced it.
pub proof fn law_restart_ignores_the_earlier_run(scan: ScanSession)
    ensures
        !counts(
            ScanSession { active: true, generation: next_generation(scan.generation), ..scan },
            scan.generation,
        ),
{
}

impl MobileState {
    /// Prepares the recognition of the photo at `image`. The plan follows
    /// the scan's record of that photo when there is one; when it asks for
    /// a new record, a pending one (`new_id`, the chosen engine `selected`)
    /// goes to the front of the history and the scan follows it, and the
    /// app must save the history.
    pub fn begin_recognition(
        &mut self,
        records: &mut Vec<ScanRecord>,
        image: &str,
        new_id: u64,
        selected: OcrEngine,
    ) -> (plan: RecognitionPlan)
        ensures
            plan == recognition_plan(resumed(old(records)@, old(self).scan.record_id, image@), selected),
            final(self).page == old(self).page,
            final(self).notice == old(self).notice,
            final(self).reader == old(self).reader,
            plan.new_record ==> {
                &&& final(records)@.len() == old(records)@.len() + 1
                &&& final(records)@.skip(1) == old(records)@
                &&& is_pending(final(records)@[0], new_id, image@, selected)
                &&& final(self).scan == (ScanSession { record_id: Some(new_id), ..old(self).scan })
            },
            !plan.new_record ==> final(records)@ == old(records)@ && final(self).scan == old(
                self,
            ).scan,
    {
        let existing = match self.scan.record_id {
            Some(id) => match find_record_of_photo(records, id, image) {
                Some(j) => {
                    proof {
                        lemma_record_of_photo(records@, id, image@);
                    }
                    Some((records[j].stage, records[j].ocr_engine))
                },
                None => None,
            },
            None => None,
        };
        let plan = plan_recognition(existing, selected);
        if plan.new_record {
            add_pending(records, new_id, image.to_owned(), selected);
            self.scan.record_id = Some(new_id);
        }
        plan
    }

    /// The history could not be saved for the new record: the scan stops
    /// on the recognition page with the error.
    pub fn recognition_unsaved(&mut self, error: String)
        ensures
            final(self).page == Page::Recognizing,
            final(self).scan == (ScanSession { error: Some(error), ..old(self).scan }),
            final(self).notice == old(self).notice,
            final(self).reader == old(self).reader,
    {
        self.scan.error = Some(error);
        self.page = Page::Recognizing;
    }

    /// Starts the run that `begin_recognition` prepared. When a model file
    /// of the run's engine is missing the download page is shown instead;
    /// otherwise the scan follows a new run, numbered after the last one
    /// (wrapping). Says whether to start the worker.
    pub fn launch_recognition(&mut self, missing: bool) -> (run: bool)
        ensures
            run == !missing,
            final(self).page == (if missing {
                Page::Download
            } else {
                Page::Recognizing
            }),
            final(self).scan.streamed@.len() == 0,
            final(self).scan == (ScanSession {
                active: run,
                generation: if run {
                    next_generation(old(self).scan.generation)
                } else {
                    old(self).scan.generation
                },
                progress: ScanProgress::Started,
                streamed: final(self).scan.streamed,
                error: None,
                ..old(self).scan
            }),
            final(self).notice == old(self).notice,
            final(self).reader == old(self).reader,
    {
        self.page = Page::Recognizing;
        self.scan.progress = ScanProgress::Started;
        self.scan.streamed = String::new();
        self.scan.error = None;
        if missing {
            self.scan.active = false;
            self.page = Page::Download;
            return false;
        }
        self.scan.active = true;
        self.scan.generation = if self.scan.generation == u64::MAX {
            0
        } else {
            self.scan.generation + 1
        };
        true
    }
}

// ---------------------------------------------------------------------------
// New speech for a result
// ---------------------------------------------------------------------------

/// `after` is `before` with the record at `index` given the speech revision
/// `revision`.
pub open spec fn revised(before: Seq<ScanRecord>, after: Seq<ScanRecord>, index: int, revision: u64) -> bool {
    &&& 0 <= index < before.len()
    &&& after == before.update(index, ScanRecord { tts_revision: revision, ..before[index] })
}

fn set_revision(records: &mut Vec<ScanRecord>, index: usize, revision: u64)
    requires
        index < old(records)@.len(),
    ensures
        revised(old(records)@, final(records)@, index as int, revision),
{
    let ghost prev = records@;
    let mut record = records.remove(index);
    record.tts_revision = revision;
    records.insert(index, record);
    assert(records@ == prev.update(index as int, record));
}

impl MobileState {
    /// Makes the result's speech afresh: its record moves to the next speech
    /// revision, so the audio cached for the earlier one is never reused.
    /// Nothing happens while a reading runs; a notice says why nothing
    /// happens when the Melo files are not installed, the scan has no
    /// record, or the record's revisions are used up. Otherwise returns the
    /// record's index and previous revision: the app saves the history and
    /// starts the reading, or hands them back to `restore_revision`.
    pub fn regenerate_reading(&mut self, records: &mut Vec<ScanRecord>, tts_installed: bool) -> (r:
        Option<(usize, u64)>)
        ensures
            final(self).page == old(self).page,
            final(self).scan == old(self).scan,
            final(self).reader == old(self).reader,
            r is None ==> final(records)@ == old(records)@,
            old(self).reader.active ==> r is None && final(self).notice == old(self).notice,
            !old(self).reader.active && !tts_installed ==> r is None && (final(self).notice matches Some(
                n,
            ) && n@ == "Download the Melo Chinese-English TTS files first"@),
            !old(self).reader.active && tts_installed && (match old(self).scan.record_id {
                Some(id) => first_with_id(old(records)@, id) is None,
                None => true,
            }) ==> r is None && (final(self).notice matches Some(n) && n@ == "No saved scan record"@),
            !old(self).reader.active && tts_installed ==> match old(self).scan.record_id {
                Some(id) => match first_with_id(old(records)@, id) {
                    Some(j) => {
                        let previous = old(records)@[j].tts_revision;
                        if previous == u64::MAX {
                            &&& r is None
                            &&& final(self).notice matches Some(n) && n@
                                == "TTS revision limit reached"@
                        } else {
                            &&& r == Some((j as usize, previous))
                            &&& revised(old(records)@, final(records)@, j, (previous + 1) as u64)
                            &&& final(self).notice == old(self).notice
                        }
                    },
                    None => true,
                },
                None => true,
            },
    {
        if self.reader.active {
            return None;
        }
        if !tts_installed {
            self.notice = Some("Download the Melo Chinese-English TTS files first".to_owned());
            return None;
        }
        let index = match self.scan.record_id {
            Some(id) => find_id(records, id),
            None => None,
        };
        let index = match index {
            Some(j) => j,
            None => {
                self.notice = Some("No saved scan record".to_owned());
                return None;
            },
        };
        proof {
            lemma_first_with_id(records@, self.scan.record_id->0);
        }
        let previous = records[index].tts_revision;
        match next_tts_revision(previous) {
            Ok(next) => {
                set_revision(records, index, next);
                Some((index, previous))
            },
            Err(e) => {
                self.notice = Some(e);
                None
            },
        }
    }

    /// The history could not be saved after `regenerate_reading`: the record
    /// at `index` gets its previous revision back, and the error is shown.
    pub fn restore_revision(
        &mut self,
        records: &mut Vec<ScanRecord>,
        index: usize,
        previous: u64,
        error: String,
    )
        requires
            index < old(records)@.len(),
        ensures
            revised(old(records)@, final(records)@, index as int, previous),
            final(self).notice == Some(error),
            final(self).page == old(self).page,
            final(self).scan == old(self).scan,
            final(self).reader == old(self).reader,
    {
        set_revision(records, index, previous);
        self.notice = Some(error);
    }
}

// ---------------------------------------------------------------------------
// Opening a record, switching engines
// ---------------------------------------------------------------------------

/// What opening a history record takes.
#[derive(Clone, Copy, Debug, PartialEq, Eq, Structural)]
pub enum OpenStep {
    /// A scan is being recognised: only its page is shown.
    Busy,
    /// The record is unfinished and was started with another engine: the
    /// app switches to that engine first, and shows the record if it could.
    SwitchEngine(OcrEngine),
    /// The record can be shown.
    Show,
}

impl MobileState {
    /// Starts opening `record` while `engine` is the chosen engine. Any
    /// reading stops.
    pub fn open_record(&mut self, record: &ScanRecord, engine: OcrEngine) -> (r: OpenStep)
        ensures
            old(self).scan.active ==> {
                &&& r == OpenStep::Busy
                &&& final(self).page == Page::Recognizing
                &&& final(self).reader == old(self).reader
            },
            !old(self).scan.active ==> {
                &&& r == (if record.stage != ScanStage::Complete && record.ocr_engine != engine {
                    OpenStep::SwitchEngine(record.ocr_engine)
                } else {
                    OpenStep::Show
                })
                &&& final(self).page == old(self).page
                &&& final(self).reader == (Reader {
                    active: false,
                    current: None,
                    preparing: false,
                    ..old(self).reader
                })
            },
            final(self).scan == old(self).scan,
            final(self).notice == old(self).notice,
    {
        if self.scan.active {
            self.page = Page::Recognizing;
            return OpenStep::Busy;
        }
        self.stop_reading();
        if record.stage != ScanStage::Complete && record.ocr_engine != engine {
            OpenStep::SwitchEngine(record.ocr_engine)
        } else {
            OpenStep::Show
        }
    }

    /// Shows `record`: the scan follows it, with its Markdown cleaned of raw
    /// HTML (stored back in the history when that changed it, and the app
    /// saves the history). A finished record opens on the result page; an
    /// unfinished one is to be resumed, which the app does next. Returns
    /// whether to save and whether to resume.
    pub fn show_record(&mut self, records: &mut Vec<ScanRecord>, record: &ScanRecord) -> (r: (
        bool,
        bool,
    ))
        ensures
            final(self).scan.markdown@ == normalized(record.markdown@),
            final(self).scan == (ScanSession {
                markdown: final(self).scan.markdown,
                tab: ResultTab::Preview,
                record_id: Some(record.id),
                ..old(self).scan
            }),
            r.0 == (normalized(record.markdown@) != record.markdown@),
            r.0 ==> completed(old(records)@, final(records)@, record.id, final(self).scan.markdown),
            !r.0 ==> final(records)@ == old(records)@,
            r.1 == (record.stage != ScanStage::Complete),
            final(self).page == (if record.stage == ScanStage::Complete {
                Page::Result
            } else {
                old(self).page
            }),
            final(self).notice == old(self).notice,
            final(self).reader == old(self).reader,
    {
        self.scan.record_id = Some(record.id);
        self.scan.markdown = normalize_ocr(record.markdown.as_str());
        let changed = !(self.scan.markdown == record.markdown);
        if changed {
            complete(records, record.id, self.scan.markdown.clone());
        }
        self.scan.tab = ResultTab::Preview;
        let finished = record.stage == ScanStage::Complete;
        if finished {
            self.page = Page::Result;
        }
        (changed, !finished)
    }

    /// After the OCR engine changed: the download page, and a new download,
    /// when a model file is missing; otherwise the download page gives way
    /// to the history. Says whether to start the download.
    pub fn engine_switched(&mut self, all_installed: bool) -> (start_download: bool)
        ensures
            start_download == !all_installed,
            final(self).page == (if !all_installed {
                Page::Download
            } else if old(self).page == Page::Download {
                Page::History
            } else {
                old(self).page
            }),
            final(self).scan == old(self).scan,
            final(self).notice == old(self).notice,
            final(self).reader == old(self).reader,
    {
        if !all_installed {
            self.page = Page::Download;
            true
        } else {
            if self.page == Page::Download {
                self.page = Page::History;
            }
            false
        }
    }
}

// ---------------------------------------------------------------------------
// The history list
// ---------------------------------------------------------------------------

/// The indices, in order, of the first `n` records that match the search.
pub open spec fn shown_indices(records: Seq<ScanRecord>, query: Seq<char>, n: int) -> Seq<usize>
    decreases n,
{
    if n <= 0 {
        Seq::empty()
    } else if query_matches(records[n - 1], query) {
        shown_indices(records, query, n - 1).push((n - 1) as usize)
    } else {
        shown_indices(records, query, n - 1)
    }
}

/// The records the history list shows for a search, as indices in order.
pub fn shown_records(records: &[ScanRecord], query: &str) -> (r: Vec<usize>)
    ensures
        r@ == shown_indices(records@, query@, records@.len() as int),
{
    let mut r: Vec<usize> = Vec::new();
    let mut k: usize = 0;
    while k < records.len()
        invariant
            0 <= k <= records@.len(),
            r@ == shown_indices(records@, query@, k as int),
        decreases records@.len() - k,
    {
        if matches_query(&records[k], query) {
            r.push(k);
        }
        k += 1;
    }
    r
}

/// The second line of a finished record's card: its engine and its photo's
/// file name ("image" when the path has none).
pub open spec fn caption_text(record: ScanRecord) -> Seq<char> {
    engine_label(record.ocr_engine) + " · "@ + match file_name_of(record.image_path@) {
        Some(n) => n,
        None => "image"@,
    }
}

/// The second line of a finished record's card.
pub fn record_caption(record: &ScanRecord) -> (r: String)
    ensures
        r@ == caption_text(*record),
{
    let mut out = to_chars(record.ocr_engine.label());
    push_all(&mut out, &to_chars(" · "));
    match file_name(record.image_path.as_str()) {
        Some(n) => push_all(&mut out, &to_chars(n.as_str())),
        None => push_all(&mut out, &to_chars("image")),
    }
    from_chars(&out)
}

/// The message key of the step an unfinished scan resumes at.
pub fn resume_step_key(stage: ScanStage) -> (r: &'static str)
    ensures
        r@ == (if stage == ScanStage::LayoutDone {
            "mobile_step_ocr"@
        } else {
            "mobile_step_layout"@
        }),
{
    if stage == ScanStage::LayoutDone {
        "mobile_step_ocr"
    } else {
        "mobile_step_layout"
    }
}

// ---------------------------------------------------------------------------
// The recognition and result pages
// ---------------------------------------------------------------------------

/// How a step of the recognition page is drawn.
#[derive(Clone, Copy, Debug, PartialEq, Eq, Structural)]
pub enum StepState {
    Done,
    Active,
    Pending,
}

/// The recognition has reached text recognition.
pub open spec fn reached_ocr(progress: ScanProgress) -> bool {
    progress == ScanProgress::Ocr || progress == ScanProgress::Streaming || progress
        == ScanProgress::Done
}

impl ScanSession {
    /// The layout step and the text step of the recognition page, while the
    /// picker is open (`picking`) or not.
    pub fn steps(&self, picking: bool) -> (r: (StepState, StepState))
        ensures
            r.0 == (if picking {
                StepState::Pending
            } else if reached_ocr(self.progress) {
                StepState::Done
            } else if self.active {
                StepState::Active
            } else {
                StepState::Pending
            }),
            r.1 == (if reached_ocr(self.progress) && self.active {
                StepState::Active
            } else {
                StepState::Pending
            }),
    {
        let ocr = self.progress.percent() >= 65;
        let layout = if picking {
            StepState::Pending
        } else if ocr {
            StepState::Done
        } else if self.active {
            StepState::Active
        } else {
            StepState::Pending
        };
        let text = if ocr && self.active {
            StepState::Active
        } else {
            StepState::Pending
        };
        (layout, text)
    }
}

/// The result tab after a clear horizontal swipe: from the preview
/// leftwards, or from the original rightwards, to the editor.
pub fn swiped_tab(tab: ResultTab, swipe: Swipe) -> (r: ResultTab)
    ensures
        r == (match (tab, swipe) {
            (ResultTab::Preview, Swipe::Leftward) => ResultTab::Edit,
            (ResultTab::Compare, Swipe::Rightward) => ResultTab::Edit,
            _ => tab,
        }),
{
    match (tab, swipe) {
        (ResultTab::Preview, Swipe::Leftward) => ResultTab::Edit,
        (ResultTab::Compare, Swipe::Rightward) => ResultTab::Edit,
        _ => tab,
    }
}

/// The original photo is loaded for the comparison tab, and for the preview
/// when the Markdown shows images.
pub fn needs_original(tab: ResultTab, markdown: &str) -> (r: bool)
    ensures
        r == (tab == ResultTab::Compare || (tab == ResultTab::Preview && seq_contains(
            markdown@,
            "!["@,
        ))),
{
    match tab {
        ResultTab::Compare => true,
        ResultTab::Preview => contains_chars(&to_chars(markdown), &to_chars("![")),
        ResultTab::Edit => false,
    }
}

/// The counter beside the reading's progress bar: sentences behind out of
/// all of them (at least one).
pub fn reading_counter(done: usize, count: usize) -> (r: String)
    ensures
        r@ == decimal(done as nat) + "/"@ + decimal(if count == 0 {
            1nat
        } else {
            count as nat
        }),
{
    let total: usize = if count == 0 {
        1
    } else {
        count
    };
    let mut out: Vec<char> = Vec::new();
    push_decimal(&mut out, done as u64);
    push_all(&mut out, &to_chars("/"));
    push_decimal(&mut out, total as u64);
    from_chars(&out)
}

} // verus!
