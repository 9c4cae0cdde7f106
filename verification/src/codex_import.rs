//! The import engine: one merge cycle folds what has been observed of the
//! session logs into the cache and the cache's usage into the ledger.
//!
//! The engine reads no clock and no file. Its caller observes the world and
//! hands over a [`CycleObservation`]: the time, the result of a directory
//! walk where one was due, and for each file the engine is about to look at
//! its fingerprint and, where the engine will want them, its contents. The
//! queries [`should_refresh_file_discovery`], [`pending_files`] and
//! [`CodexImportCache::needs_refresh`] tell the caller what to observe.

use vstd::hash_map::StringHashMap;
use vstd::prelude::*;
use vstd::string::*;

use crate::cache::{
    cached, distinct_paths, find_slot, has_path, path_views, remove_slot, slot_of, slot_views,
    upsert_slot, with_session, without_path, CachedCodexSession, CachedSessionView,
    SessionFingerprint, SessionSlot, SlotView,
};
use crate::clock::{earlier, has_interval_elapsed, interval_elapsed, ClockTime};
use crate::ledger::{is_sorted, sort_by_timestamp, sorted_by_timestamp};
use crate::models::{AppConfig, UsageData, UsageEntry};
use crate::session::{
    classify_log, limits_view, parse_codex_session_contents_with_status, CodexRateLimits,
    ContentsView, ParsedSessionContents, RateLimitsView,
};
use crate::text::{str_before, text_before};

verus! {

/// Shortest time between two directory walks, in seconds.
pub const MIN_DISCOVERY_INTERVAL: u64 = 10;

/// Longest time between two directory walks, in seconds.
pub const MAX_DISCOVERY_INTERVAL: u64 = 120;

/// By how much the time between walks grows, in seconds.
pub const DISCOVERY_BACKOFF_STEP: u64 = 10;

/// How many idle walks in a row make the time between walks grow.
pub const IDLE_CYCLES_BEFORE_BACKOFF: u32 = 3;

// ---------------------------------------------------------------------------
// What the caller observes
// ---------------------------------------------------------------------------

/// The result of a directory walk.
#[derive(Debug)]
pub enum Discovery {
    /// The session logs found under the root, in the order of the walk.
    Found(Vec<String>),
    /// The root does not exist.
    MissingRoot,
    /// The walk could not be completed.
    Failed,
}

/// The value of a [`Discovery`].
pub enum DiscoveryView {
    Found(Seq<Seq<char>>),
    MissingRoot,
    Failed,
}

impl View for Discovery {
    type V = DiscoveryView;

    open spec fn view(&self) -> DiscoveryView {
        match *self {
            Discovery::Found(files) => DiscoveryView::Found(path_views(files@)),
            Discovery::MissingRoot => DiscoveryView::MissingRoot,
            Discovery::Failed => DiscoveryView::Failed,
        }
    }
}

/// What was observed of one file: its fingerprint, unless its metadata could
/// not be read, and its contents, where they were read and could be.
#[derive(Debug)]
pub struct FileProbe {
    pub fingerprint: Option<SessionFingerprint>,
    pub contents: Option<String>,
}

/// The value of a [`FileProbe`]: contents are the bytes of the text.
pub struct ProbeView {
    pub fingerprint: Option<SessionFingerprint>,
    pub contents: Option<Seq<u8>>,
}

/// The bytes of an optional text.
pub open spec fn contents_view(contents: Option<String>) -> Option<Seq<u8>> {
    match contents {
        Some(text) => Some(vstd::utf8::encode_utf8(text@)),
        None => None,
    }
}

impl View for FileProbe {
    type V = ProbeView;

    open spec fn view(&self) -> ProbeView {
        ProbeView { fingerprint: self.fingerprint, contents: contents_view(self.contents) }
    }
}

/// The values of a sequence of probes.
pub open spec fn probe_views(probes: Seq<FileProbe>) -> Seq<ProbeView> {
    Seq::new(probes.len(), |i: int| probes[i]@)
}

/// The probe of the file at `index`. A file that was not probed counts as
/// one whose metadata could not be read.
pub open spec fn probe_at(probes: Seq<ProbeView>, index: int) -> ProbeView {
    if 0 <= index < probes.len() {
        probes[index]
    } else {
        ProbeView { fingerprint: None, contents: None }
    }
}

/// Everything the caller observed for one merge cycle.
#[derive(Debug)]
pub struct CycleObservation {
    /// The time at which the cycle runs.
    pub now: ClockTime,
    /// The result of the directory walk, where one was made.
    pub discovery: Option<Discovery>,
    /// One probe for each file that the cycle looks at, in their order. A
    /// file without a probe counts as unreadable; probes beyond the last
    /// file are not looked at.
    pub probes: Vec<FileProbe>,
}

/// The value of a [`CycleObservation`].
pub struct ObservationView {
    pub now: ClockTime,
    pub discovery: Option<DiscoveryView>,
    pub probes: Seq<ProbeView>,
}

impl View for CycleObservation {
    type V = ObservationView;

    open spec fn view(&self) -> ObservationView {
        ObservationView {
            now: self.now,
            discovery: match self.discovery {
                Some(d) => Some(d@),
                None => None,
            },
            probes: probe_views(self.probes@),
        }
    }
}

// ---------------------------------------------------------------------------
// One file
// ---------------------------------------------------------------------------

/// The outcome of reading one session log.
#[derive(Debug)]
pub enum ParsedSessionFile {
    Parsed(CachedCodexSession),
    NoUsageOrLimits,
    ParseError,
    Unreadable,
}

/// The value of a [`ParsedSessionFile`].
pub enum FileOutcome {
    Parsed(CachedSessionView),
    NoUsageOrLimits,
    ParseError,
    Unreadable,
}

impl View for ParsedSessionFile {
    type V = FileOutcome;

    open spec fn view(&self) -> FileOutcome {
        match *self {
            ParsedSessionFile::Parsed(session) => FileOutcome::Parsed(session@),
            ParsedSessionFile::NoUsageOrLimits => FileOutcome::NoUsageOrLimits,
            ParsedSessionFile::ParseError => FileOutcome::ParseError,
            ParsedSessionFile::Unreadable => FileOutcome::Unreadable,
        }
    }
}

/// What reading a file with the given contents and fingerprint comes to:
/// unreadable without contents, else as the contents classify.
pub open spec fn file_outcome(
    contents: Option<Seq<u8>>,
    fingerprint: SessionFingerprint,
) -> FileOutcome {
    match contents {
        None => FileOutcome::Unreadable,
        Some(bytes) => match classify_log(bytes) {
            ContentsView::Parsed(parsed) => FileOutcome::Parsed(
                CachedSessionView {
                    modified: fingerprint.modified,
                    file_len: fingerprint.file_len,
                    timestamp: parsed.timestamp,
                    input_tokens: parsed.input_tokens,
                    output_tokens: parsed.output_tokens,
                    has_token_usage: parsed.has_token_usage,
                    limits: parsed.limits,
                },
            ),
            ContentsView::NoUsageOrLimits => FileOutcome::NoUsageOrLimits,
            ContentsView::ParseError => FileOutcome::ParseError,
        },
    }
}

/// Reads one session log from its contents, where they could be read, and
/// stamps the facts with the file's fingerprint.
pub fn parse_codex_session_file(
    contents: Option<&str>,
    modified: ClockTime,
    file_len: u64,
) -> (out: ParsedSessionFile)
    ensures
        out@ == file_outcome(
            match contents {
                Some(text) => Some(text.spec_bytes()),
                None => None,
            },
            SessionFingerprint { modified, file_len },
        ),
{
    let text = match contents {
        Some(text) => text,
        None => {
            return ParsedSessionFile::Unreadable;
        },
    };
    match parse_codex_session_contents_with_status(text) {
        ParsedSessionContents::Parsed(
            (timestamp, input_tokens, output_tokens, has_token_usage, limits),
        ) => ParsedSessionFile::Parsed(
            CachedCodexSession {
                modified,
                file_len,
                timestamp,
                input_tokens,
                output_tokens,
                has_token_usage,
                limits,
            },
        ),
        ParsedSessionContents::NoUsageOrLimits => ParsedSessionFile::NoUsageOrLimits,
        ParsedSessionContents::ParseError => ParsedSessionFile::ParseError,
    }
}

// ---------------------------------------------------------------------------
// The sweep over the files
// ---------------------------------------------------------------------------

/// The cache and the counts while the files are being swept.
pub struct SweepView {
    pub sessions: Seq<SlotView>,
    /// Something changed in this cycle.
    pub changed: bool,
    pub refreshed: nat,
    pub parse_errors: nat,
    pub no_usage: nat,
    pub unreadable: nat,
}

/// A file needs to be read again when nothing is cached for it or what is
/// cached came from a file with another fingerprint.
pub open spec fn stale(slots: Seq<SlotView>, path: Seq<char>, fingerprint: SessionFingerprint) -> bool {
    match cached(slots, path) {
        Some(session) => session.fingerprint() != fingerprint,
        None => true,
    }
}

/// The sweep after one more file.
///
/// A file without a fingerprint is unreadable: its entry goes, and that is a
/// change. A file whose fingerprint is the cached one is passed over. Any
/// other file is read again, which is a change, and its entry is replaced
/// or removed as the outcome says.
pub open spec fn refresh_file(state: SweepView, path: Seq<char>, probe: ProbeView) -> SweepView {
    match probe.fingerprint {
        None => SweepView {
            sessions: without_path(state.sessions, path),
            changed: true,
            unreadable: state.unreadable + 1,
            ..state
        },
        Some(fingerprint) => if !stale(state.sessions, path, fingerprint) {
            state
        } else {
            let read = SweepView { changed: true, refreshed: state.refreshed + 1, ..state };
            match file_outcome(probe.contents, fingerprint) {
                FileOutcome::Parsed(session) => SweepView {
                    sessions: with_session(state.sessions, path, session),
                    ..read
                },
                FileOutcome::NoUsageOrLimits => SweepView {
                    sessions: without_path(state.sessions, path),
                    no_usage: state.no_usage + 1,
                    ..read
                },
                FileOutcome::ParseError => SweepView {
                    sessions: without_path(state.sessions, path),
                    parse_errors: state.parse_errors + 1,
                    ..read
                },
                FileOutcome::Unreadable => SweepView {
                    sessions: without_path(state.sessions, path),
                    unreadable: state.unreadable + 1,
                    ..read
                },
            }
        },
    }
}

/// The sweep after the first `count` files, taken in order.
pub open spec fn sweep(
    start: SweepView,
    files: Seq<Seq<char>>,
    probes: Seq<ProbeView>,
    count: nat,
) -> SweepView
    decreases count,
{
    if count == 0 {
        start
    } else {
        refresh_file(
            sweep(start, files, probes, (count - 1) as nat),
            files[count - 1],
            probe_at(probes, count - 1),
        )
    }
}

/// The sweep keeps paths distinct and counts no file more than once.
pub proof fn lemma_refresh_file(state: SweepView, path: Seq<char>, probe: ProbeView)
    requires
        distinct_paths(state.sessions),
    ensures
        distinct_paths(refresh_file(state, path, probe).sessions),
        refresh_file(state, path, probe).refreshed <= state.refreshed + 1,
        refresh_file(state, path, probe).parse_errors <= state.parse_errors + 1,
        refresh_file(state, path, probe).no_usage <= state.no_usage + 1,
        refresh_file(state, path, probe).unreadable <= state.unreadable + 1,
{
    crate::cache::lemma_without_path(state.sessions, path);
    match probe.fingerprint {
        Some(fingerprint) => match file_outcome(probe.contents, fingerprint) {
            FileOutcome::Parsed(session) => {
                crate::cache::lemma_with_session(state.sessions, path, session);
            },
            _ => {},
        },
        None => {},
    }
}

/// The counts of a sweep while it runs.
pub struct SweepTally {
    pub changed: bool,
    pub refreshed: usize,
    pub parse_errors: usize,
    pub no_usage: usize,
    pub unreadable: usize,
}

/// The sweep state that a cache and a tally stand for.
pub open spec fn sweep_view(slots: Seq<SessionSlot>, tally: SweepTally) -> SweepView {
    SweepView {
        sessions: slot_views(slots),
        changed: tally.changed,
        refreshed: tally.refreshed as nat,
        parse_errors: tally.parse_errors as nat,
        no_usage: tally.no_usage as nat,
        unreadable: tally.unreadable as nat,
    }
}

/// Tells whether the file at `path`, with the fingerprint just observed,
/// has to be read again.
fn is_stale(slots: &Vec<SessionSlot>, path: &String, fingerprint: SessionFingerprint) -> (out:
    bool)
    requires
        distinct_paths(slot_views(slots@)),
    ensures
        out == stale(slot_views(slots@), path@, fingerprint),
{
    match find_slot(slots, path) {
        Some(i) => {
            let session = &slots[i].session;
            assert(slot_views(slots@)[i as int].session == session@);
            session.modified != fingerprint.modified || session.file_len != fingerprint.file_len
        },
        None => true,
    }
}

/// Takes one more file into the sweep.
fn refresh_one(
    slots: &mut Vec<SessionSlot>,
    tally: &mut SweepTally,
    path: &String,
    probe: &FileProbe,
)
    requires
        distinct_paths(slot_views(old(slots)@)),
        old(tally).refreshed < usize::MAX,
        old(tally).parse_errors < usize::MAX,
        old(tally).no_usage < usize::MAX,
        old(tally).unreadable < usize::MAX,
    ensures
        sweep_view(final(slots)@, *final(tally)) == refresh_file(
            sweep_view(old(slots)@, *old(tally)),
            path@,
            probe@,
        ),
        distinct_paths(slot_views(final(slots)@)),
{
    proof {
        lemma_refresh_file(sweep_view(slots@, *tally), path@, probe@);
    }
    let fingerprint = match probe.fingerprint {
        Some(fingerprint) => fingerprint,
        None => {
            tally.changed = true;
            tally.unreadable = tally.unreadable + 1;
            remove_slot(slots, path);
            return ;
        },
    };
    if !is_stale(slots, path, fingerprint) {
        return ;
    }
    tally.changed = true;
    tally.refreshed = tally.refreshed + 1;
    let contents = match &probe.contents {
        Some(text) => Some(text.as_str()),
        None => None,
    };
    match parse_codex_session_file(contents, fingerprint.modified, fingerprint.file_len) {
        ParsedSessionFile::Parsed(session) => {
            upsert_slot(slots, path, session);
        },
        ParsedSessionFile::NoUsageOrLimits => {
            tally.no_usage = tally.no_usage + 1;
            remove_slot(slots, path);
        },
        ParsedSessionFile::ParseError => {
            tally.parse_errors = tally.parse_errors + 1;
            remove_slot(slots, path);
        },
        ParsedSessionFile::Unreadable => {
            tally.unreadable = tally.unreadable + 1;
            remove_slot(slots, path);
        },
    }
}

/// Sweeps all files in order.
fn sweep_files(
    slots: &mut Vec<SessionSlot>,
    files: &Vec<String>,
    probes: &Vec<FileProbe>,
    tally: &mut SweepTally,
)
    requires
        distinct_paths(slot_views(old(slots)@)),
        old(tally).refreshed == 0,
        old(tally).parse_errors == 0,
        old(tally).no_usage == 0,
        old(tally).unreadable == 0,
    ensures
        sweep_view(final(slots)@, *final(tally)) == sweep(
            sweep_view(old(slots)@, *old(tally)),
            path_views(files@),
            probe_views(probes@),
            files@.len(),
        ),
        distinct_paths(slot_views(final(slots)@)),
{
    let ghost start = sweep_view(slots@, *tally);
    let ghost paths = path_views(files@);
    let ghost observed = probe_views(probes@);
    let missing = FileProbe { fingerprint: None, contents: None };
    let mut i: usize = 0;
    while i < files.len()
        invariant
            i <= files@.len(),
            paths == path_views(files@),
            observed == probe_views(probes@),
            missing@ == (ProbeView { fingerprint: None, contents: None }),
            distinct_paths(slot_views(slots@)),
            sweep_view(slots@, *tally) == sweep(start, paths, observed, i as nat),
            tally.refreshed <= i,
            tally.parse_errors <= i,
            tally.no_usage <= i,
            tally.unreadable <= i,
        decreases files@.len() - i,
    {
        let probe = if i < probes.len() {
            &probes[i]
        } else {
            &missing
        };
        proof {
            assert(probe@ == probe_at(observed, i as int));
            assert(files@[i as int]@ == paths[i as int]);
            lemma_refresh_file(sweep_view(slots@, *tally), paths[i as int], probe@);
        }
        refresh_one(slots, tally, &files[i], probe);
        i += 1;
    }
}

// ---------------------------------------------------------------------------
// After the sweep
// ---------------------------------------------------------------------------

/// The test for a slot whose path is among `files`.
pub open spec fn is_listed(files: Seq<Seq<char>>) -> spec_fn(SlotView) -> bool {
    |slot: SlotView| files.contains(slot.path)
}

/// The entries of the cache whose paths are among `files`, in their order.
pub open spec fn listed_only(slots: Seq<SlotView>, files: Seq<Seq<char>>) -> Seq<SlotView> {
    slots.filter(is_listed(files))
}

/// How many different paths `files` names.
pub open spec fn distinct_count(files: Seq<Seq<char>>) -> nat {
    files.to_set().len()
}

/// Dropping entries keeps the remaining paths distinct, and what remains is
/// exactly what was cached for the listed paths.
pub proof fn lemma_listed_only(slots: Seq<SlotView>, files: Seq<Seq<char>>)
    requires
        distinct_paths(slots),
    ensures
        distinct_paths(listed_only(slots, files)),
        forall|path: Seq<char>|
            #[trigger] cached(listed_only(slots, files), path) == if files.contains(path) {
                cached(slots, path)
            } else {
                None
            },
        (forall|i: int| 0 <= i < slots.len() ==> files.contains((#[trigger] slots[i]).path))
            ==> listed_only(slots, files) == slots,
    decreases slots.len(),
{
    let keep = is_listed(files);
    let out = listed_only(slots, files);
    if slots.len() == 0 {
        assert(out =~= slots) by {
            reveal(Seq::filter);
        }
        assert forall|path: Seq<char>| #[trigger] cached(out, path) == if files.contains(path) {
            cached(slots, path)
        } else {
            None
        } by {}
    } else {
        let rest = slots.drop_last();
        let last = slots.last();
        let kept = listed_only(rest, files);
        assert(distinct_paths(rest)) by {
            assert forall|i: int, j: int|
                0 <= i < rest.len() && 0 <= j < rest.len() && i != j implies (
            #[trigger] rest[i]).path != (#[trigger] rest[j]).path by {
                assert(rest[i] == slots[i]);
                assert(rest[j] == slots[j]);
            }
        }
        lemma_listed_only(rest, files);
        assert(slots =~= rest.push(last));
        rest.lemma_filter_push(last, keep);
        // no entry of `rest` is for the last path
        assert(!has_path(rest, last.path)) by {
            if has_path(rest, last.path) {
                let k = slot_of(rest, last.path);
                assert(0 <= k < rest.len() && rest[k].path == last.path);
                assert(rest[k] == slots[k]);
                assert(slots[slots.len() - 1] == last);
            }
        }
        assert(cached(kept, last.path) is None);
        assert(!has_path(kept, last.path));
        if keep(last) {
            assert(out == kept.push(last));
            assert(distinct_paths(out)) by {
                assert forall|i: int, j: int|
                    0 <= i < out.len() && 0 <= j < out.len() && i != j implies (
                #[trigger] out[i]).path != (#[trigger] out[j]).path by {
                    if i < kept.len() {
                        assert(out[i] == kept[i]);
                    }
                    if j < kept.len() {
                        assert(out[j] == kept[j]);
                    }
                }
            }
            crate::cache::lemma_slot_unique(out, out.len() - 1);
        } else {
            assert(out == kept);
        }
        assert forall|path: Seq<char>| #[trigger] cached(out, path) == if files.contains(path) {
            cached(slots, path)
        } else {
            None
        } by {
            crate::cache::lemma_slot_unique(slots, slots.len() - 1);
            if path == last.path {
            } else {
                // other paths: in `slots` as in `rest`, in `out` as in `kept`
                if has_path(rest, path) {
                    let k = slot_of(rest, path);
                    assert(0 <= k < rest.len() && rest[k].path == path);
                    assert(slots[k] == rest[k]);
                    crate::cache::lemma_slot_unique(slots, k);
                } else if has_path(slots, path) {
                    let k = slot_of(slots, path);
                    assert(0 <= k < slots.len() && slots[k].path == path);
                    assert(rest[k] == slots[k]);
                }
                assert(cached(slots, path) == cached(rest, path));
                if keep(last) {
                    if has_path(kept, path) {
                        let k = slot_of(kept, path);
                        assert(0 <= k < kept.len() && kept[k].path == path);
                        assert(out[k] == kept[k]);
                        crate::cache::lemma_slot_unique(out, k);
                    } else if has_path(out, path) {
                        let k = slot_of(out, path);
                        assert(0 <= k < out.len() && out[k].path == path);
                        assert(kept[k] == out[k]);
                    }
                    assert(cached(out, path) == cached(kept, path));
                }
            }
        }
        if forall|i: int| 0 <= i < slots.len() ==> files.contains((#[trigger] slots[i]).path) {
            assert forall|i: int| 0 <= i < rest.len() implies files.contains(
                (#[trigger] rest[i]).path,
            ) by {
                assert(rest[i] == slots[i]);
            }
            assert(keep(slots[slots.len() - 1]));
            assert(out =~= slots);
        }
    }
}

/// Collects the active set: the paths among `files`, each once.
fn active_paths(files: &Vec<String>) -> (out: StringHashMap<bool>)
    ensures
        out@.dom() == path_views(files@).to_set(),
{
    let ghost paths = path_views(files@);
    let mut active: StringHashMap<bool> = StringHashMap::new();
    let mut i: usize = 0;
    proof {
        assert(active@.dom() =~= paths.take(0).to_set());
    }
    while i < files.len()
        invariant
            i <= files@.len(),
            paths == path_views(files@),
            active@.dom() == paths.take(i as int).to_set(),
        decreases files@.len() - i,
    {
        proof {
            let done = paths.take(i as int);
            assert(paths.take(i as int + 1) =~= done.push(paths[i as int]));
            done.lemma_push_to_set_commute(paths[i as int]);
        }
        active.insert(files[i].clone(), true);
        proof {
            assert(active@.dom() =~= paths.take(i as int + 1).to_set());
        }
        i += 1;
    }
    proof {
        assert(paths.take(files@.len() as int) =~= paths);
    }
    active
}

/// Drops every entry whose path is not in the active set of `files`.
fn retain_listed(slots: &mut Vec<SessionSlot>, files: &Vec<String>, active: &StringHashMap<bool>)
    requires
        distinct_paths(slot_views(old(slots)@)),
        active@.dom() == path_views(files@).to_set(),
    ensures
        slot_views(final(slots)@) == listed_only(slot_views(old(slots)@), path_views(files@)),
        distinct_paths(slot_views(final(slots)@)),
{
    let ghost before = slot_views(slots@);
    let ghost paths = path_views(files@);
    let mut taken: Vec<SessionSlot> = Vec::new();
    core::mem::swap(slots, &mut taken);
    let ghost all = taken@;
    proof {
        assert(slot_views(slots@) =~= listed_only(before.take(0), paths)) by {
            reveal(Seq::filter);
        }
    }
    for slot in it: taken
        invariant
            it.seq() == all,
            before == slot_views(all),
            paths == path_views(files@),
            active@.dom() == paths.to_set(),
            slot_views(slots@) == listed_only(before.take(it.index() as int), paths),
    {
        proof {
            let done = before.take(it.index() as int);
            assert(before.take(it.index() + 1) =~= done.push(slot@));
            done.lemma_filter_push(slot@, is_listed(paths));
        }
        let keep = active.contains_key(slot.path.as_str());
        proof {
            assert(keep == paths.to_set().contains(slot.path@));
            assert(keep == paths.contains(slot@.path));
        }
        let ghost kept = slots@;
        if keep {
            slots.push(slot);
            proof {
                assert(slot_views(slots@) =~= slot_views(kept).push(slot@));
            }
        }
    }
    proof {
        assert(before.take(all.len() as int) =~= before);
        lemma_listed_only(before, paths);
    }
}

/// Counts the different paths among `files`: the size of their active set.
fn count_distinct(files: &Vec<String>, active: &StringHashMap<bool>) -> (out: usize)
    requires
        active@.dom() == path_views(files@).to_set(),
    ensures
        out == distinct_count(path_views(files@)),
{
    active.len()
}

// ---------------------------------------------------------------------------
// The cache and its schedule
// ---------------------------------------------------------------------------

/// The counts of the last merge cycle, for display.
#[derive(Clone, Copy, Debug, PartialEq, Eq, Structural)]
pub struct CodexImportDiagnostics {
    /// Different session logs that the cycle looked at.
    pub active_files: usize,
    /// Files that were read again.
    pub refreshed_files: usize,
    /// Files read again that held no line of valid JSON.
    pub parse_error_files: usize,
    /// Files read again that held neither usage nor limits.
    pub no_usage_or_limits_files: usize,
    /// Files whose metadata or contents could not be read.
    pub unreadable_files: usize,
    /// When the cycle ran.
    pub last_import_at: Option<ClockTime>,
    /// Seconds between directory walks after the cycle.
    pub discovery_interval: u64,
}

/// The diagnostics before any cycle has run.
pub open spec fn initial_diagnostics() -> CodexImportDiagnostics {
    CodexImportDiagnostics {
        active_files: 0,
        refreshed_files: 0,
        parse_error_files: 0,
        no_usage_or_limits_files: 0,
        unreadable_files: 0,
        last_import_at: None,
        discovery_interval: MIN_DISCOVERY_INTERVAL,
    }
}

impl Default for CodexImportDiagnostics {
    fn default() -> (out: Self)
        ensures
            out == initial_diagnostics(),
    {
        CodexImportDiagnostics {
            active_files: 0,
            refreshed_files: 0,
            parse_error_files: 0,
            no_usage_or_limits_files: 0,
            unreadable_files: 0,
            last_import_at: None,
            discovery_interval: MIN_DISCOVERY_INTERVAL,
        }
    }
}

/// What the engine remembers from one merge cycle to the next.
#[derive(Debug)]
pub struct CodexImportCache {
    sessions: Vec<SessionSlot>,
    session_files: Vec<String>,
    last_discovery_at: Option<ClockTime>,
    session_discovery_interval: u64,
    idle_discovery_cycles: u32,
    diagnostics: CodexImportDiagnostics,
}

/// The value of a [`CodexImportCache`].
pub struct CacheView {
    /// What is cached, path by path.
    pub sessions: Seq<SlotView>,
    /// The session logs known from the last directory walk.
    pub session_files: Seq<Seq<char>>,
    /// When the directory was last walked.
    pub last_discovery_at: Option<ClockTime>,
    /// Seconds to wait between directory walks.
    pub discovery_interval: u64,
    /// Idle directory walks in a row since the interval last changed.
    pub idle_cycles: u32,
    /// The counts of the last cycle.
    pub diagnostics: CodexImportDiagnostics,
}

/// What holds of every cache: no path is cached twice, the interval lies
/// between its bounds, and the idle walks have not yet reached the number
/// at which the interval grows.
pub open spec fn cache_wf(cache: CacheView) -> bool {
    &&& distinct_paths(cache.sessions)
    &&& MIN_DISCOVERY_INTERVAL <= cache.discovery_interval <= MAX_DISCOVERY_INTERVAL
    &&& cache.idle_cycles < IDLE_CYCLES_BEFORE_BACKOFF
}

/// The cache before any cycle has run.
pub open spec fn initial_cache() -> CacheView {
    CacheView {
        sessions: Seq::empty(),
        session_files: Seq::empty(),
        last_discovery_at: None,
        discovery_interval: MIN_DISCOVERY_INTERVAL,
        idle_cycles: 0,
        diagnostics: initial_diagnostics(),
    }
}

impl View for CodexImportCache {
    type V = CacheView;

    closed spec fn view(&self) -> CacheView {
        CacheView {
            sessions: slot_views(self.sessions@),
            session_files: path_views(self.session_files@),
            last_discovery_at: self.last_discovery_at,
            discovery_interval: self.session_discovery_interval,
            idle_cycles: self.idle_discovery_cycles,
            diagnostics: self.diagnostics,
        }
    }
}

/// A directory walk is due when none has been made yet, when the interval
/// has passed since the last one, or when the clock has gone backwards.
pub open spec fn discovery_due(cache: CacheView, now: ClockTime) -> bool {
    match cache.last_discovery_at {
        None => true,
        Some(last) => interval_elapsed(last, now, cache.discovery_interval),
    }
}

/// The interval and the count of idle walks after one more walk.
///
/// A change sets the interval back to its minimum. Without one the walk was
/// idle; every third idle walk in a row lengthens the interval by one step,
/// up to its maximum.
pub open spec fn tuned(interval: u64, idle_cycles: u32, changed: bool) -> (u64, u32) {
    if changed {
        (MIN_DISCOVERY_INTERVAL, 0u32)
    } else if idle_cycles + 1 < IDLE_CYCLES_BEFORE_BACKOFF {
        (interval, (idle_cycles + 1) as u32)
    } else if interval + DISCOVERY_BACKOFF_STEP <= MAX_DISCOVERY_INTERVAL {
        ((interval + DISCOVERY_BACKOFF_STEP) as u64, 0u32)
    } else {
        (MAX_DISCOVERY_INTERVAL, 0u32)
    }
}

/// The files that a cycle looks at: what a due walk found, nothing where
/// the root is missing, and the files known before where no walk was due or
/// the walk failed or was not made.
pub open spec fn cycle_files(
    cache: CacheView,
    now: ClockTime,
    discovery: Option<DiscoveryView>,
) -> Seq<Seq<char>> {
    if discovery_due(cache, now) {
        match discovery {
            Some(DiscoveryView::Found(files)) => files,
            Some(DiscoveryView::MissingRoot) => Seq::empty(),
            _ => cache.session_files,
        }
    } else {
        cache.session_files
    }
}

/// The sweep of a cycle over its files. Where a walk was due, a change in
/// the number of files is the first change of the cycle.
pub open spec fn cycle_sweep(cache: CacheView, observed: ObservationView) -> SweepView {
    let files = cycle_files(cache, observed.now, observed.discovery);
    sweep(
        SweepView {
            sessions: cache.sessions,
            changed: discovery_due(cache, observed.now) && files.len()
                != cache.session_files.len(),
            refreshed: 0,
            parse_errors: 0,
            no_usage: 0,
            unreadable: 0,
        },
        files,
        observed.probes,
        files.len(),
    )
}

/// The cache after one merge cycle.
pub open spec fn cycle(cache: CacheView, observed: ObservationView) -> CacheView {
    let ran = discovery_due(cache, observed.now);
    let files = cycle_files(cache, observed.now, observed.discovery);
    let swept = cycle_sweep(cache, observed);
    let schedule = if ran {
        tuned(cache.discovery_interval, cache.idle_cycles, swept.changed)
    } else {
        (cache.discovery_interval, cache.idle_cycles)
    };
    CacheView {
        sessions: listed_only(swept.sessions, files),
        session_files: files,
        last_discovery_at: if ran {
            Some(observed.now)
        } else {
            cache.last_discovery_at
        },
        discovery_interval: schedule.0,
        idle_cycles: schedule.1,
        diagnostics: CodexImportDiagnostics {
            active_files: distinct_count(files) as usize,
            refreshed_files: swept.refreshed as usize,
            parse_error_files: swept.parse_errors as usize,
            no_usage_or_limits_files: swept.no_usage as usize,
            unreadable_files: swept.unreadable as usize,
            last_import_at: Some(observed.now),
            discovery_interval: schedule.0,
        },
    }
}

/// A sweep keeps paths distinct and counts at most one per file.
pub proof fn lemma_sweep(
    start: SweepView,
    files: Seq<Seq<char>>,
    probes: Seq<ProbeView>,
    count: nat,
)
    requires
        distinct_paths(start.sessions),
    ensures
        distinct_paths(sweep(start, files, probes, count).sessions),
        sweep(start, files, probes, count).refreshed <= start.refreshed + count,
        sweep(start, files, probes, count).parse_errors <= start.parse_errors + count,
        sweep(start, files, probes, count).no_usage <= start.no_usage + count,
        sweep(start, files, probes, count).unreadable <= start.unreadable + count,
    decreases count,
{
    if count > 0 {
        lemma_sweep(start, files, probes, (count - 1) as nat);
        lemma_refresh_file(
            sweep(start, files, probes, (count - 1) as nat),
            files[count - 1],
            probe_at(probes, count - 1),
        );
    }
}

/// A merge cycle takes a well-formed cache to a well-formed cache.
pub proof fn lemma_cycle_wf(cache: CacheView, observed: ObservationView)
    requires
        cache_wf(cache),
    ensures
        cache_wf(cycle(cache, observed)),
{
    let files = cycle_files(cache, observed.now, observed.discovery);
    let swept = cycle_sweep(cache, observed);
    lemma_sweep(
        SweepView {
            sessions: cache.sessions,
            changed: discovery_due(cache, observed.now) && files.len()
                != cache.session_files.len(),
            refreshed: 0,
            parse_errors: 0,
            no_usage: 0,
            unreadable: 0,
        },
        files,
        observed.probes,
        files.len(),
    );
    lemma_listed_only(swept.sessions, files);
}

impl Default for CodexImportCache {
    fn default() -> (out: Self)
        ensures
            out@ == initial_cache(),
    {
        let out = CodexImportCache {
            sessions: Vec::new(),
            session_files: Vec::new(),
            last_discovery_at: None,
            session_discovery_interval: MIN_DISCOVERY_INTERVAL,
            idle_discovery_cycles: 0,
            diagnostics: CodexImportDiagnostics::default(),
        };
        proof {
            assert(out@.sessions =~= Seq::<SlotView>::empty());
            assert(out@.session_files =~= Seq::<Seq<char>>::empty());
        }
        out
    }
}

impl CodexImportCache {
    /// What holds of every cache at all times.
    #[verifier::type_invariant]
    pub open spec fn well_formed(&self) -> bool {
        cache_wf(self@)
    }

    /// Seconds between directory walks.
    pub fn discovery_interval(&self) -> (out: u64)
        ensures
            out == self@.discovery_interval,
    {
        self.session_discovery_interval
    }

    /// The session logs known from the last directory walk.
    pub fn session_files(&self) -> (out: &Vec<String>)
        ensures
            path_views(out@) == self@.session_files,
    {
        &self.session_files
    }

    /// How many sessions are cached.
    pub fn session_count(&self) -> (out: usize)
        ensures
            out == self@.sessions.len(),
    {
        self.sessions.len()
    }

    /// Tells whether the file at `path`, with the fingerprint just observed,
    /// has to be read again: it has, unless facts are cached for that path
    /// that came from a file with the same modification time and the same
    /// length.
    pub fn needs_refresh(&self, path: &String, fingerprint: SessionFingerprint) -> (out: bool)
        ensures
            out == stale(self@.sessions, path@, fingerprint),
            out == !(exists|session: CachedSessionView|
                cached(self@.sessions, path@) == Some(session) && session.modified
                    == fingerprint.modified && session.file_len == fingerprint.file_len),
    {
        proof {
            use_type_invariant(self);
        }
        is_stale(&self.sessions, path, fingerprint)
    }

    /// Caches `session` for `path`, in place of what was cached for it.
    pub fn insert_session(&mut self, path: String, session: CachedCodexSession)
        ensures
            final(self)@ == (CacheView {
                sessions: with_session(old(self)@.sessions, path@, session@),
                ..old(self)@
            }),
    {
        proof {
            use_type_invariant(&*self);
        }
        let mut sessions: Vec<SessionSlot> = Vec::new();
        core::mem::swap(&mut self.sessions, &mut sessions);
        upsert_slot(&mut sessions, &path, session);
        self.sessions = sessions;
    }
}

/// Tells whether this cycle has to walk the directory.
pub fn should_refresh_file_discovery(cache: &CodexImportCache, now: ClockTime) -> (out: bool)
    ensures
        out == discovery_due(cache@, now),
{
    match cache.last_discovery_at {
        None => true,
        Some(last) => has_interval_elapsed(last, now, cache.session_discovery_interval),
    }
}

/// Adjusts the time between directory walks after a walk.
pub fn tune_discovery_interval(cache: &mut CodexImportCache, changes_detected: bool)
    ensures
        final(cache)@ == (CacheView {
            discovery_interval: tuned(
                old(cache)@.discovery_interval,
                old(cache)@.idle_cycles,
                changes_detected,
            ).0,
            idle_cycles: tuned(
                old(cache)@.discovery_interval,
                old(cache)@.idle_cycles,
                changes_detected,
            ).1,
            ..old(cache)@
        }),
{
    proof {
        use_type_invariant(&*cache);
    }
    if changes_detected {
        cache.session_discovery_interval = MIN_DISCOVERY_INTERVAL;
        cache.idle_discovery_cycles = 0;
        return ;
    }
    if cache.idle_discovery_cycles + 1 < IDLE_CYCLES_BEFORE_BACKOFF {
        cache.idle_discovery_cycles = cache.idle_discovery_cycles + 1;
        return ;
    }
    let next = cache.session_discovery_interval + DISCOVERY_BACKOFF_STEP;
    cache.idle_discovery_cycles = 0;
    cache.session_discovery_interval = if next <= MAX_DISCOVERY_INTERVAL {
        next
    } else {
        MAX_DISCOVERY_INTERVAL
    };
}

/// The counts of the last merge cycle.
pub fn codex_import_diagnostics(cache: &CodexImportCache) -> (out: CodexImportDiagnostics)
    ensures
        out == cache@.diagnostics,
{
    cache.diagnostics
}

/// The value of an optional [`Discovery`].
pub open spec fn discovery_view(discovery: Option<Discovery>) -> Option<DiscoveryView> {
    match discovery {
        Some(d) => Some(d@),
        None => None,
    }
}

fn clone_paths(files: &Vec<String>) -> (out: Vec<String>)
    ensures
        path_views(out@) == path_views(files@),
{
    let mut out: Vec<String> = Vec::new();
    let mut i: usize = 0;
    while i < files.len()
        invariant
            i <= files@.len(),
            out@.len() == i,
            forall|k: int| 0 <= k < i ==> (#[trigger] out@[k])@ == files@[k]@,
        decreases files@.len() - i,
    {
        out.push(files[i].clone());
        i += 1;
    }
    proof {
        assert(path_views(out@) =~= path_views(files@));
    }
    out
}

/// The files that the next cycle will look at, in the order in which it
/// looks at them, given the time at which it runs and the result of the
/// directory walk, where one was made. The caller probes these.
pub fn pending_files(cache: &CodexImportCache, now: ClockTime, discovery: &Option<Discovery>) -> (out:
    Vec<String>)
    ensures
        path_views(out@) == cycle_files(cache@, now, discovery_view(*discovery)),
{
    if should_refresh_file_discovery(cache, now) {
        match discovery {
            Some(Discovery::Found(files)) => {
                return clone_paths(files);
            },
            Some(Discovery::MissingRoot) => {
                let out: Vec<String> = Vec::new();
                proof {
                    assert(path_views(out@) =~= Seq::<Seq<char>>::empty());
                }
                return out;
            },
            _ => {},
        }
    }
    clone_paths(&cache.session_files)
}

// ---------------------------------------------------------------------------
// From the cache to the ledger
// ---------------------------------------------------------------------------

/// The test for an entry whose session reported token usage.
pub open spec fn reports_usage() -> spec_fn(SlotView) -> bool {
    |slot: SlotView| slot.session.has_token_usage
}

/// The entries of the cache that contribute a record to the ledger: those
/// with token usage, in the cache's order. Entries that carry only rate
/// limits contribute nothing.
pub open spec fn usage_contributions(slots: Seq<SlotView>) -> Seq<SlotView> {
    slots.filter(reports_usage())
}

/// `entry` is the ledger record of the cached session `slot`: it carries the
/// session's timestamp and token totals, the provider `codex`, the given
/// model label, and a cost that the estimator gave for exactly these.
pub open spec fn imports_session<F: Fn(&String, &String, u64, u64) -> u64>(
    entry: UsageEntry,
    slot: SlotView,
    model: Seq<char>,
    estimate: &F,
) -> bool {
    &&& entry.timestamp@ == slot.session.timestamp
    &&& entry.provider@ == "codex"@
    &&& entry.model@ == model
    &&& entry.input_tokens == slot.session.input_tokens
    &&& entry.output_tokens == slot.session.output_tokens
    &&& call_ensures(
        estimate,
        (&entry.provider, &entry.model, entry.input_tokens, entry.output_tokens),
        entry.cost_usd_bits,
    )
}

/// `entries` are the ledger records of `sources`, one for one and in order.
pub open spec fn imports_all<F: Fn(&String, &String, u64, u64) -> u64>(
    entries: Seq<UsageEntry>,
    sources: Seq<SlotView>,
    model: Seq<char>,
    estimate: &F,
) -> bool {
    &&& entries.len() == sources.len()
    &&& forall|i: int|
        0 <= i < entries.len() ==> imports_session(
            #[trigger] entries[i],
            sources[i],
            model,
            estimate,
        )
}

/// Makes the ledger records of the cache's sessions.
fn imported_entries<F: Fn(&String, &String, u64, u64) -> u64>(
    slots: &Vec<SessionSlot>,
    model: &String,
    estimate: &F,
) -> (out: Vec<UsageEntry>)
    requires
        forall|p: &String, m: &String, i: u64, o: u64| call_requires(estimate, (p, m, i, o)),
    ensures
        imports_all(out@, usage_contributions(slot_views(slots@)), model@, estimate),
{
    let ghost views = slot_views(slots@);
    let mut out: Vec<UsageEntry> = Vec::new();
    let mut i: usize = 0;
    proof {
        assert(usage_contributions(views.take(0)) =~= Seq::<SlotView>::empty()) by {
            reveal(Seq::filter);
        }
    }
    while i < slots.len()
        invariant
            i <= slots@.len(),
            views == slot_views(slots@),
            forall|p: &String, m: &String, i: u64, o: u64| call_requires(estimate, (p, m, i, o)),
            imports_all(out@, usage_contributions(views.take(i as int)), model@, estimate),
        decreases slots@.len() - i,
    {
        let session = &slots[i].session;
        proof {
            let done = views.take(i as int);
            assert(views.take(i as int + 1) =~= done.push(views[i as int]));
            done.lemma_filter_push(views[i as int], reports_usage());
            assert(views[i as int].session == session@);
        }
        if session.has_token_usage {
            let provider = "codex".to_owned();
            let label = model.clone();
            let cost_usd_bits = estimate(
                &provider,
                &label,
                session.input_tokens,
                session.output_tokens,
            );
            let ghost before = out@;
            out.push(
                UsageEntry {
                    timestamp: session.timestamp.clone(),
                    provider,
                    model: label,
                    input_tokens: session.input_tokens,
                    output_tokens: session.output_tokens,
                    cost_usd_bits,
                },
            );
            proof {
                let sources = usage_contributions(views.take(i as int + 1));
                assert forall|k: int| 0 <= k < out@.len() implies imports_session(
                    #[trigger] out@[k],
                    sources[k],
                    model@,
                    estimate,
                ) by {
                    if k < before.len() {
                        assert(out@[k] == before[k]);
                    }
                }
            }
        }
        i += 1;
    }
    proof {
        assert(views.take(slots@.len() as int) =~= views);
    }
    out
}

/// Runs one merge cycle.
///
/// With the import switched off nothing happens. Otherwise the cache moves
/// on by one [`cycle`], and the sessions that then report token usage are
/// appended to the ledger, one record each, after which the whole ledger is
/// sorted by timestamp, records with equal timestamps staying in order.
pub fn merge_codex_usage<F: Fn(&String, &String, u64, u64) -> u64>(
    data: &mut UsageData,
    config: &AppConfig,
    cache: &mut CodexImportCache,
    observed: CycleObservation,
    estimate: &F,
)
    requires
        forall|p: &String, m: &String, i: u64, o: u64| call_requires(estimate, (p, m, i, o)),
    ensures
        final(data).budget_usd_bits == old(data).budget_usd_bits,
        !config.codex_import.enabled ==> final(cache)@ == old(cache)@ && final(data).entries@
            == old(data).entries@,
        config.codex_import.enabled ==> final(cache)@ == cycle(old(cache)@, observed@),
        config.codex_import.enabled ==> exists|imported: Seq<UsageEntry>|
            #![trigger old(data).entries@ + imported]
            {
                &&& imports_all(
                    imported,
                    usage_contributions(final(cache)@.sessions),
                    config.codex_import.model@,
                    estimate,
                )
                &&& final(data).entries@ == sorted_by_timestamp(old(data).entries@ + imported)
            },
        config.codex_import.enabled ==> is_sorted(final(data).entries@),
        cache_wf(final(cache)@),
{
    proof {
        use_type_invariant(&*cache);
    }
    if !config.codex_import.enabled {
        return ;
    }
    let ghost before = cache@;
    let ghost seen = observed@;
    let CycleObservation { now, discovery, probes } = observed;
    let mut tally = SweepTally {
        changed: false,
        refreshed: 0,
        parse_errors: 0,
        no_usage: 0,
        unreadable: 0,
    };
    let discovery_ran = should_refresh_file_discovery(cache, now);
    if discovery_ran {
        let previous_count = cache.session_files.len();
        match discovery {
            Some(Discovery::Found(files)) => {
                cache.session_files = files;
            },
            Some(Discovery::MissingRoot) => {
                cache.session_files = Vec::new();
                proof {
                    assert(path_views(cache.session_files@) =~= Seq::<Seq<char>>::empty());
                }
            },
            _ => {},
        }
        cache.last_discovery_at = Some(now);
        tally.changed = cache.session_files.len() != previous_count;
    }
    let ghost files = path_views(cache.session_files@);
    assert(files == cycle_files(before, seen.now, seen.discovery));

    let mut sessions: Vec<SessionSlot> = Vec::new();
    core::mem::swap(&mut cache.sessions, &mut sessions);
    sweep_files(&mut sessions, &cache.session_files, &probes, &mut tally);
    let ghost swept = sweep_view(sessions@, tally);
    assert(swept == cycle_sweep(before, seen));
    let active = active_paths(&cache.session_files);
    retain_listed(&mut sessions, &cache.session_files, &active);
    cache.sessions = sessions;
    if discovery_ran {
        tune_discovery_interval(cache, tally.changed);
    }
    let active_files = count_distinct(&cache.session_files, &active);
    cache.diagnostics = CodexImportDiagnostics {
        active_files,
        refreshed_files: tally.refreshed,
        parse_error_files: tally.parse_errors,
        no_usage_or_limits_files: tally.no_usage,
        unreadable_files: tally.unreadable,
        last_import_at: Some(now),
        discovery_interval: cache.session_discovery_interval,
    };
    proof {
        lemma_cycle_wf(before, seen);
        assert(cache@ == cycle(before, seen));
    }

    let mut imported = imported_entries(&cache.sessions, &config.codex_import.model, estimate);
    let ghost additions = imported@;
    let ghost ledger = data.entries@;
    let mut entries: Vec<UsageEntry> = Vec::new();
    core::mem::swap(&mut data.entries, &mut entries);
    entries.append(&mut imported);
    data.entries = sort_by_timestamp(entries);
    proof {
        assert(data.entries@ == sorted_by_timestamp(ledger + additions));
    }
}

// ---------------------------------------------------------------------------
// The latest rate limits
// ---------------------------------------------------------------------------

/// Session `a` ranks below session `b` as a source of rate limits: its file
/// was modified earlier, or at the same time while its limits carry the
/// earlier timestamp. Both sessions carry limits.
pub open spec fn limits_older(a: CachedSessionView, b: CachedSessionView) -> bool {
    earlier(a.modified, b.modified) || (a.modified == b.modified && text_before(
        a.limits->0.timestamp,
        b.limits->0.timestamp,
    ))
}

/// The entry that carries the latest rate limits: of the entries with
/// limits, the one that ranks highest, and the last of those in the cache's
/// order where several rank equally.
pub open spec fn latest_limits_slot(slots: Seq<SlotView>) -> Option<int>
    decreases slots.len(),
{
    if slots.len() == 0 {
        None
    } else {
        let earlier = latest_limits_slot(slots.drop_last());
        let last = slots.last().session;
        if last.limits is None {
            earlier
        } else {
            match earlier {
                Some(best) => if limits_older(last, slots[best].session) {
                    Some(best)
                } else {
                    Some(slots.len() - 1)
                },
                None => Some(slots.len() - 1),
            }
        }
    }
}

/// The latest rate limits of the cache.
pub open spec fn latest_limits(slots: Seq<SlotView>) -> Option<RateLimitsView> {
    match latest_limits_slot(slots) {
        Some(best) => slots[best].session.limits,
        None => None,
    }
}

/// Ranking below is transitive in its weak form: if `c` does not rank below
/// `b` and `b` does not rank below `a`, then `c` does not rank below `a`.
pub proof fn lemma_limits_rank(a: CachedSessionView, b: CachedSessionView, c: CachedSessionView)
    requires
        !limits_older(b, a),
        !limits_older(c, b),
    ensures
        !limits_older(c, a),
{
    let ta = vstd::utf8::encode_utf8(a.limits->0.timestamp);
    let tb = vstd::utf8::encode_utf8(b.limits->0.timestamp);
    let tc = vstd::utf8::encode_utf8(c.limits->0.timestamp);
    if a.modified == b.modified && b.modified == c.modified {
        crate::text::lemma_bytes_not_after_transitive(ta, tb, tc);
    }
}

/// What the latest entry is: it carries limits, no entry with limits ranks
/// above it, and every later entry with limits ranks below it. There is
/// none exactly when no entry carries limits.
pub proof fn lemma_latest_limits(slots: Seq<SlotView>)
    ensures
        match latest_limits_slot(slots) {
            Some(best) => {
                &&& 0 <= best < slots.len()
                &&& slots[best].session.limits is Some
                &&& forall|j: int|
                    0 <= j < slots.len() && (#[trigger] slots[j]).session.limits is Some
                        ==> !limits_older(slots[best].session, slots[j].session)
                &&& forall|j: int|
                    best < j < slots.len() && (#[trigger] slots[j]).session.limits is Some
                        ==> limits_older(slots[j].session, slots[best].session)
            },
            None => forall|j: int|
                0 <= j < slots.len() ==> (#[trigger] slots[j]).session.limits is None,
        },
    decreases slots.len(),
{
    if slots.len() > 0 {
        let rest = slots.drop_last();
        let last = slots.last().session;
        lemma_latest_limits(rest);
        assert forall|j: int| 0 <= j < rest.len() implies #[trigger] rest[j] == slots[j] by {}
        match latest_limits_slot(slots) {
            Some(best) => {
                assert forall|j: int|
                    0 <= j < slots.len() && (#[trigger] slots[j]).session.limits is Some implies !limits_older(
                    slots[best].session,
                    slots[j].session,
                ) by {
                    if j < rest.len() {
                        assert(rest[j] == slots[j]);
                        if best == slots.len() - 1 {
                            match latest_limits_slot(rest) {
                                Some(old_best) => {
                                    assert(rest[old_best] == slots[old_best]);
                                    lemma_limits_rank(
                                        slots[j].session,
                                        slots[old_best].session,
                                        last,
                                    );
                                },
                                None => {},
                            }
                        }
                    } else {
                        if best < slots.len() - 1 {
                            assert(rest[best] == slots[best]);
                            // the last entry ranks below the best one
                            let tb = vstd::utf8::encode_utf8(
                                slots[best].session.limits->0.timestamp,
                            );
                            let tl = vstd::utf8::encode_utf8(last.limits->0.timestamp);
                            if limits_older(slots[best].session, last) {
                                if last.modified == slots[best].session.modified {
                                    crate::text::lemma_bytes_before_transitive(tb, tl, tb);
                                    crate::text::lemma_bytes_before_irreflexive(tb);
                                }
                            }
                        } else {
                            crate::text::lemma_bytes_before_irreflexive(
                                vstd::utf8::encode_utf8(last.limits->0.timestamp),
                            );
                        }
                    }
                }
                assert forall|j: int|
                    best < j < slots.len() && (#[trigger] slots[j]).session.limits is Some implies limits_older(
                    slots[j].session,
                    slots[best].session,
                ) by {
                    if j < rest.len() {
                        assert(rest[j] == slots[j]);
                        assert(rest[best] == slots[best]);
                    }
                }
            },
            None => {
                assert forall|j: int| 0 <= j < slots.len() implies (
                #[trigger] slots[j]).session.limits is None by {
                    if j < rest.len() {
                        assert(rest[j] == slots[j]);
                    }
                }
            },
        }
    }
}

/// The latest rate limits among the cached sessions: those of the session
/// whose file was modified last, the timestamp of the limits deciding
/// between files modified at the same time. Nothing if no cached session
/// carries limits.
pub fn latest_codex_limits(cache: &CodexImportCache) -> (out: Option<CodexRateLimits>)
    ensures
        limits_view(out) == latest_limits(cache@.sessions),
        out is None <==> forall|j: int|
            0 <= j < cache@.sessions.len() ==> (#[trigger] cache@.sessions[j]).session.limits
                is None,
        out is Some ==> exists|best: int|
            {
                &&& 0 <= best < cache@.sessions.len()
                &&& (#[trigger] cache@.sessions[best]).session.limits == limits_view(out)
                &&& forall|j: int|
                    0 <= j < cache@.sessions.len() && (
                    #[trigger] cache@.sessions[j]).session.limits is Some ==> !limits_older(
                        cache@.sessions[best].session,
                        cache@.sessions[j].session,
                    )
            },
{
    let slots = &cache.sessions;
    let ghost views = slot_views(slots@);
    let mut best: Option<usize> = None;
    let mut i: usize = 0;
    while i < slots.len()
        invariant
            i <= slots@.len(),
            views == slot_views(slots@),
            match best {
                Some(b) => latest_limits_slot(views.take(i as int)) == Some(b as int) && b < i,
                None => latest_limits_slot(views.take(i as int)) is None,
            },
        decreases slots@.len() - i,
    {
        proof {
            assert(views.take(i as int + 1).drop_last() =~= views.take(i as int));
            assert(views.take(i as int + 1).last() == views[i as int]);
            assert(views[i as int].session == slots@[i as int].session@);
        }
        let candidate = &slots[i].session;
        match &candidate.limits {
            None => {},
            Some(limits) => {
                match best {
                    None => {
                        best = Some(i);
                    },
                    Some(b) => {
                        let holder = &slots[b].session;
                        proof {
                            assert(views[b as int].session == holder@);
                            assert(views.take(i as int + 1)[b as int] == views[b as int]);
                            lemma_latest_limits(views.take(i as int));
                            assert(views.take(i as int)[b as int] == views[b as int]);
                        }
                        let older = match &holder.limits {
                            Some(held) => candidate.modified.is_before(&holder.modified) || (
                            candidate.modified == holder.modified && str_before(
                                limits.timestamp.as_str(),
                                held.timestamp.as_str(),
                            )),
                            None => false,
                        };
                        if !older {
                            best = Some(i);
                        }
                    },
                }
            },
        }
        i += 1;
    }
    proof {
        assert(views.take(slots@.len() as int) =~= views);
        lemma_latest_limits(views);
    }
    match best {
        Some(b) => {
            assert(views[b as int].session == slots@[b as int].session@);
            match &slots[b].session.limits {
                Some(limits) => Some(limits.clone()),
                None => None,
            }
        },
        None => None,
    }
}

} // verus!
