//! Download planning: which files count as installed, how a partial file is
//! resumed, and the sequence of events a download worker reports.
//!
//! The worker itself (threads, HTTP, files) runs outside the library; it
//! asks this module what to do next after every check and every transfer.

use vstd::prelude::*;
use crate::catalog::{ModelSpec, is_installed};
use crate::text::{decimal, from_chars, push_all, push_decimal, to_chars};

verus! {

/// What a download worker reports, tagged with the catalogue index.
#[derive(Debug)]
pub enum DownloadEvent {
    Started(usize),
    /// Bytes written so far and the expected total.
    Progress(usize, u64, u64),
    Complete(usize),
    Failed(usize, String),
    Finished,
}

/// Whether a model file of `file_len` bytes (`None` when absent) is
/// installed: only a file with the published size counts.
pub fn installed(file_len: Option<u64>, model: &ModelSpec) -> (r: bool)
    ensures
        r == is_installed(file_len, *model),
{
    match file_len {
        Some(len) => len == model.expected_bytes,
        None => false,
    }
}

/// Where a transfer starts: the length of the partial file when resuming is
/// enabled (0 when there is none), otherwise 0.
pub fn resume_offset(partial_len: Option<u64>, enabled: bool) -> (r: u64)
    ensures
        r == (if enabled {
            match partial_len {
                Some(len) => len,
                None => 0,
            }
        } else {
            0
        }),
{
    if enabled {
        match partial_len {
            Some(len) => len,
            None => 0,
        }
    } else {
        0
    }
}

/// `Path::extension` of a file name is present: a `.` after its first character.
pub open spec fn has_extension(file_name: Seq<char>) -> bool {
    exists|i: int| 1 <= i < file_name.len() && file_name[i] == '.'
}

/// The name of the partial file a download writes before renaming:
/// `with_extension("<ext>.part")`, which appends ".part" to a name with an
/// extension and "..part" to one without.
pub open spec fn partial_name(file_name: Seq<char>) -> Seq<char> {
    if has_extension(file_name) {
        file_name + ".part"@
    } else {
        file_name + "..part"@
    }
}

pub fn partial_file_name(file_name: &str) -> (r: String)
    ensures
        r@ == partial_name(file_name@),
{
    let mut out = to_chars(file_name);
    let mut dotted = false;
    let mut i: usize = 1;
    while i < out.len()
        invariant
            out@ == file_name@,
            1 <= i,
            i <= out@.len() || out@.len() == 0,
            dotted == exists|j: int| 1 <= j < i && j < out@.len() && out@[j] == '.',
        decreases out@.len() - i,
    {
        if out[i] == '.' {
            dotted = true;
        }
        i += 1;
    }
    assert(dotted == has_extension(file_name@));
    if dotted {
        push_all(&mut out, &to_chars(".part"));
    } else {
        push_all(&mut out, &to_chars("..part"));
    }
    from_chars(&out)
}

/// The HTTP `Range` header value that asks for the bytes after `offset`.
pub open spec fn range_value(offset: u64) -> Seq<char> {
    "bytes="@ + decimal(offset as nat) + "-"@
}

/// The `Range` header to send: none for a fresh transfer.
pub fn range_header(offset: u64) -> (r: Option<String>)
    ensures
        offset == 0 ==> r is None,
        offset > 0 ==> r is Some && r->0@ == range_value(offset),
{
    if offset == 0 {
        return None;
    }
    let mut out = to_chars("bytes=");
    push_decimal(&mut out, offset);
    push_all(&mut out, &to_chars("-"));
    Some(from_chars(&out))
}

/// How a transfer proceeds once the server has answered.
#[derive(Clone, Copy, Debug, PartialEq, Eq, Structural)]
pub struct TransferPlan {
    /// Append to the partial file rather than truncate it.
    pub resumed: bool,
    /// Bytes already on disk that count toward the total.
    pub downloaded: u64,
    /// The total reported in progress events.
    pub total: u64,
}

/// The plan for a response with `status` to a request that started at
/// `offset`: the partial file is continued only on `206 Partial Content` for
/// a non-zero offset; the total is the start plus the announced length, or
/// the published size when no length is announced.
pub fn plan_transfer(status: u16, offset: u64, content_length: Option<u64>, expected: u64) -> (r:
    TransferPlan)
    requires
        content_length matches Some(len) ==> (if status == 206 && offset > 0 {
            offset as int
        } else {
            0
        }) + len <= u64::MAX,
    ensures
        r.resumed == (status == 206 && offset > 0),
        r.downloaded == (if r.resumed {
            offset
        } else {
            0
        }),
        r.total == match content_length {
            Some(len) => r.downloaded + len,
            None => expected as int,
        },
{
    let resumed = status == 206 && offset > 0;
    let downloaded = if resumed {
        offset
    } else {
        0
    };
    let total = match content_length {
        Some(len) => downloaded + len,
        None => expected,
    };
    TransferPlan { resumed, downloaded, total }
}

/// The message for a finished transfer of the wrong size.
pub open spec fn size_mismatch_message(file_name: Seq<char>, downloaded: u64, expected: u64) -> Seq<
    char,
> {
    file_name + " has "@ + decimal(downloaded as nat) + " bytes; expected "@ + decimal(
        expected as nat,
    )
}

/// A finished transfer is accepted only when it has the published size.
pub fn check_complete(file_name: &str, downloaded: u64, expected: u64) -> (r: Result<(), String>)
    ensures
        r is Ok <==> downloaded == expected,
        r matches Err(message) ==> message@ == size_mismatch_message(
            file_name@,
            downloaded,
            expected,
        ),
{
    if downloaded == expected {
        return Ok(());
    }
    let mut out = to_chars(file_name);
    push_all(&mut out, &to_chars(" has "));
    push_decimal(&mut out, downloaded);
    push_all(&mut out, &to_chars(" bytes; expected "));
    push_decimal(&mut out, expected);
    Err(from_chars(&out))
}

// ---------------------------------------------------------------------------
// The worker's decisions
// ---------------------------------------------------------------------------

/// What the worker does next.
#[derive(Clone, Copy, Debug, PartialEq, Eq, Structural)]
pub enum WorkerCommand {
    /// Check whether model `i` is already installed.
    Check(usize),
    /// Download model `i`.
    Fetch(usize),
    /// Stop; nothing more is reported.
    Stop,
}

/// The events to report, then the next command.
#[derive(Debug)]
pub struct WorkerStep {
    pub events: Vec<DownloadEvent>,
    pub command: WorkerCommand,
}

/// What an event says, without its failure message.
pub enum EventKind {
    Started(nat),
    Complete(nat),
    Failed(nat),
    Finished,
}

/// What the worker reports, model by model (progress events left out).
pub open spec fn kinds(events: Seq<DownloadEvent>) -> Seq<EventKind>
    decreases events.len(),
{
    if events.len() == 0 {
        Seq::empty()
    } else {
        let before = kinds(events.drop_last());
        match events.last() {
            DownloadEvent::Started(i) => before.push(EventKind::Started(i as nat)),
            DownloadEvent::Complete(i) => before.push(EventKind::Complete(i as nat)),
            DownloadEvent::Failed(i, _) => before.push(EventKind::Failed(i as nat)),
            DownloadEvent::Finished => before.push(EventKind::Finished),
            DownloadEvent::Progress(..) => before,
        }
    }
}

/// The command that moves on to model `next` of `count`.
pub open spec fn advance(next: nat, count: nat) -> WorkerCommand {
    if next < count {
        WorkerCommand::Check(next as usize)
    } else {
        WorkerCommand::Stop
    }
}

/// What moving on to model `next` reports: `Finished` after the last model.
pub open spec fn advance_kinds(next: nat, count: nat) -> Seq<EventKind> {
    if next < count {
        Seq::empty()
    } else {
        seq![EventKind::Finished]
    }
}

/// The step after checking model `index`: an installed model is complete
/// and the worker moves on; a missing one is started and fetched.
pub open spec fn check_step(index: nat, count: nat, installed: bool) -> (Seq<EventKind>, WorkerCommand) {
    if installed {
        (seq![EventKind::Complete(index)] + advance_kinds(index + 1, count), advance(index + 1, count))
    } else {
        (seq![EventKind::Started(index)], WorkerCommand::Fetch(index as usize))
    }
}

/// The step after fetching model `index`: a failure is reported and stops
/// the worker; a success is complete and the worker moves on.
pub open spec fn fetch_step(index: nat, count: nat, ok: bool) -> (Seq<EventKind>, WorkerCommand) {
    if ok {
        (seq![EventKind::Complete(index)] + advance_kinds(index + 1, count), advance(index + 1, count))
    } else {
        (seq![EventKind::Failed(index)], WorkerCommand::Stop)
    }
}

fn advance_step(mut events: Vec<DownloadEvent>, next: usize, count: usize) -> (r: WorkerStep)
    requires
        next <= count,
    ensures
        r.command == advance(next as nat, count as nat),
        next < count ==> r.events@ == events@,
        next >= count ==> r.events@ == events@.push(DownloadEvent::Finished),
        kinds(r.events@) == kinds(events@) + advance_kinds(next as nat, count as nat),
{
    if next < count {
        WorkerStep { events, command: WorkerCommand::Check(next) }
    } else {
        let ghost before = events@;
        events.push(DownloadEvent::Finished);
        assert(events@.drop_last() == before);
        WorkerStep { events, command: WorkerCommand::Stop }
    }
}

/// The first step for a catalogue of `count` models: check the first one,
/// or finish at once when there is none.
pub fn worker_start(count: usize) -> (r: WorkerStep)
    ensures
        r.command == advance(0, count as nat),
        kinds(r.events@) == advance_kinds(0, count as nat),
        count > 0 ==> r.events@.len() == 0,
        count == 0 ==> r.events@ == seq![DownloadEvent::Finished],
{
    let r = advance_step(Vec::new(), 0, count);
    assert(kinds(Seq::<DownloadEvent>::empty()) == Seq::<EventKind>::empty());
    assert(Seq::<EventKind>::empty() + advance_kinds(0, count as nat) == advance_kinds(0, count as nat));
    r
}

/// After checking model `index`: an installed model is reported complete and
/// the worker moves on; a missing one is reported started and fetched.
pub fn worker_checked(index: usize, count: usize, installed: bool) -> (r: WorkerStep)
    requires
        index < count,
    ensures
        (kinds(r.events@), r.command) == check_step(index as nat, count as nat, installed),
        installed && index + 1 < count ==> r.events@ == seq![DownloadEvent::Complete(index)],
        installed && index + 1 == count ==> r.events@ == seq![
            DownloadEvent::Complete(index),
            DownloadEvent::Finished,
        ],
        !installed ==> r.events@ == seq![DownloadEvent::Started(index)],
{
    if installed {
        let mut events = Vec::new();
        events.push(DownloadEvent::Complete(index));
        assert(kinds(events@) == seq![EventKind::Complete(index as nat)]) by {
            assert(events@.drop_last() == Seq::<DownloadEvent>::empty());
            assert(kinds(Seq::<DownloadEvent>::empty()) == Seq::<EventKind>::empty());
        }
        advance_step(events, index + 1, count)
    } else {
        let mut events = Vec::new();
        events.push(DownloadEvent::Started(index));
        assert(kinds(events@) == seq![EventKind::Started(index as nat)]) by {
            assert(events@.drop_last() == Seq::<DownloadEvent>::empty());
            assert(kinds(Seq::<DownloadEvent>::empty()) == Seq::<EventKind>::empty());
        }
        WorkerStep { events, command: WorkerCommand::Fetch(index) }
    }
}

/// After fetching model `index`: a failure is reported and stops the worker;
/// a success is reported complete and the worker moves on.
pub fn worker_fetched(index: usize, count: usize, result: Result<(), String>) -> (r: WorkerStep)
    requires
        index < count,
    ensures
        (kinds(r.events@), r.command) == fetch_step(index as nat, count as nat, result is Ok),
        result matches Err(message) ==> r.events@ == seq![DownloadEvent::Failed(index, message)],
        result is Ok && index + 1 < count ==> r.events@ == seq![DownloadEvent::Complete(index)],
        result is Ok && index + 1 == count ==> r.events@ == seq![
            DownloadEvent::Complete(index),
            DownloadEvent::Finished,
        ],
{
    match result {
        Err(message) => {
            let mut events = Vec::new();
            events.push(DownloadEvent::Failed(index, message));
            assert(kinds(events@) == seq![EventKind::Failed(index as nat)]) by {
                assert(events@.drop_last() == Seq::<DownloadEvent>::empty());
                assert(kinds(Seq::<DownloadEvent>::empty()) == Seq::<EventKind>::empty());
            }
            WorkerStep { events, command: WorkerCommand::Stop }
        },
        Ok(()) => {
            let mut events = Vec::new();
            events.push(DownloadEvent::Complete(index));
            assert(kinds(events@) == seq![EventKind::Complete(index as nat)]) by {
                assert(events@.drop_last() == Seq::<DownloadEvent>::empty());
                assert(kinds(Seq::<DownloadEvent>::empty()) == Seq::<EventKind>::empty());
            }
            advance_step(events, index + 1, count)
        },
    }
}

// ---------------------------------------------------------------------------
// A whole run
// ---------------------------------------------------------------------------

/// What the worker finds for a model: already installed, downloaded now, or
/// failed to download.
pub enum ModelOutcome {
    Installed,
    Downloaded,
    DownloadFailed,
}

/// What a run reports from model `i` on, when each step gets the outcome
/// the models actually have: the check's events and, for a missing model,
/// the fetch's; the run goes on only while the steps say to.
pub open spec fn run_from(outcomes: Seq<ModelOutcome>, i: nat) -> Seq<EventKind>
    decreases outcomes.len() - i,
{
    if i >= outcomes.len() {
        Seq::empty()
    } else {
        let n = outcomes.len();
        let (checked, next) = check_step(i, n, outcomes[i as int] is Installed);
        match next {
            WorkerCommand::Fetch(_) => {
                let (fetched, after) = fetch_step(i, n, outcomes[i as int] is Downloaded);
                match after {
                    WorkerCommand::Check(_) => checked + fetched + run_from(outcomes, i + 1),
                    _ => checked + fetched,
                }
            },
            WorkerCommand::Check(_) => checked + run_from(outcomes, i + 1),
            WorkerCommand::Stop => checked,
        }
    }
}

/// A whole run: the start step, then `run_from` the first model.
pub open spec fn run(outcomes: Seq<ModelOutcome>) -> Seq<EventKind> {
    advance_kinds(0, outcomes.len()) + run_from(outcomes, 0)
}

/// What a run reports for models `i..` when none fails: each model complete
/// (a downloaded one started first), then `Finished`.
pub open spec fn clean_run(outcomes: Seq<ModelOutcome>, i: nat) -> Seq<EventKind>
    decreases outcomes.len() - i,
{
    if i >= outcomes.len() {
        seq![EventKind::Finished]
    } else if outcomes[i as int] is Installed {
        seq![EventKind::Complete(i)] + clean_run(outcomes, i + 1)
    } else {
        seq![EventKind::Started(i), EventKind::Complete(i)] + clean_run(outcomes, i + 1)
    }
}

proof fn lemma_clean_run(outcomes: Seq<ModelOutcome>, i: nat)
    requires
        0 < i <= outcomes.len() || (i == 0 && outcomes.len() > 0),
        forall|j: int| 0 <= j < outcomes.len() ==> !(outcomes[j] is DownloadFailed),
    ensures
        run_from(outcomes, i) + (if i == outcomes.len() { seq![EventKind::Finished] } else {
            Seq::empty()
        }) == clean_run(outcomes, i),
    decreases outcomes.len() - i,
{
    if i < outcomes.len() {
        lemma_clean_run(outcomes, i + 1);
        if i + 1 == outcomes.len() {
            assert(run_from(outcomes, i + 1) == Seq::<EventKind>::empty());
        }
    }
}

proof fn lemma_failed_run(outcomes: Seq<ModelOutcome>, i: nat, failed: nat)
    requires
        i <= failed < outcomes.len(),
        outcomes[failed as int] is DownloadFailed,
        forall|j: int| i <= j < failed ==> !(outcomes[j] is DownloadFailed),
    ensures
        run_from(outcomes, i).len() > 0,
        run_from(outcomes, i).last() == EventKind::Failed(failed),
        !run_from(outcomes, i).contains(EventKind::Finished),
    decreases outcomes.len() - i,
{
    if i < failed {
        lemma_failed_run(outcomes, i + 1, failed);
        let rest = run_from(outcomes, i + 1);
        let n = outcomes.len();
        let head = if outcomes[i as int] is Installed {
            seq![EventKind::Complete(i)]
        } else {
            seq![EventKind::Started(i), EventKind::Complete(i)]
        };
        assert(run_from(outcomes, i) == head + rest);
        assert(!(head + rest).contains(EventKind::Finished)) by {
            if (head + rest).contains(EventKind::Finished) {
                let k = choose|k: int| 0 <= k < (head + rest).len() && (head + rest)[k]
                    == EventKind::Finished;
                if k >= head.len() {
                    assert(rest[k - head.len()] == EventKind::Finished);
                }
            }
        }
    } else {
        assert(run_from(outcomes, i) == seq![EventKind::Started(i), EventKind::Failed(i)]);
    }
}

/// A download run ends with `Finished`, after every model has been reported
/// complete (each downloaded one started first), exactly when no download
/// fails; the first failing download is the run's last event, and the run
/// then never reports `Finished`.
pub proof fn law_worker_run(outcomes: Seq<ModelOutcome>)
    ensures
        (forall|j: int| 0 <= j < outcomes.len() ==> !(#[trigger] outcomes[j] is DownloadFailed))
            ==> run(outcomes) == clean_run(outcomes, 0),
        forall|failed: nat|
            failed < outcomes.len() && outcomes[failed as int] is DownloadFailed && (forall|j: int|
                0 <= j < failed ==> !(#[trigger] outcomes[j] is DownloadFailed)) ==> {
                &&& run(outcomes).last() == EventKind::Failed(failed)
                &&& !run(outcomes).contains(EventKind::Finished)
            },
{
    if forall|j: int| 0 <= j < outcomes.len() ==> !(#[trigger] outcomes[j] is DownloadFailed) {
        if outcomes.len() == 0 {
            assert(run(outcomes) == seq![EventKind::Finished]);
        } else {
            lemma_clean_run(outcomes, 0);
        }
    }
    assert forall|failed: nat|
        failed < outcomes.len() && outcomes[failed as int] is DownloadFailed && (forall|j: int|
            0 <= j < failed ==> !(#[trigger] outcomes[j] is DownloadFailed)) implies {
        &&& run(outcomes).last() == EventKind::Failed(failed)
        &&& !run(outcomes).contains(EventKind::Finished)
    } by {
        lemma_failed_run(outcomes, 0, failed);
        assert(run(outcomes) == run_from(outcomes, 0));
    }
}

} // verus!
