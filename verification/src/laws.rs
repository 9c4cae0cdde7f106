//! What holds of the engine as a whole, proved from the definitions of the
//! other modules.

use vstd::prelude::*;

use crate::cache::{
    cached, distinct_paths, lemma_with_session, lemma_without_path, CachedSessionView, SlotView,
};
use crate::clock::earlier;
use crate::codex_import::{
    cache_wf, cycle, cycle_files, cycle_sweep, discovery_due, file_outcome, imports_all,
    imports_session, is_listed, latest_limits, latest_limits_slot, lemma_cycle_wf,
    lemma_latest_limits, lemma_listed_only, lemma_sweep, listed_only, probe_at, refresh_file,
    reports_usage, stale, sweep, tuned, usage_contributions, CacheView, DiscoveryView,
    FileOutcome, ObservationView, ProbeView, SweepView, DISCOVERY_BACKOFF_STEP,
    IDLE_CYCLES_BEFORE_BACKOFF, MAX_DISCOVERY_INTERVAL, MIN_DISCOVERY_INTERVAL,
};
use crate::json::json_document;
use crate::ledger::{lemma_sorted_by_value, sorted_by_timestamp};
use crate::models::{entry_views, UsageEntry};
use crate::session::{
    classify, initial_scan, line_event, scan, ContentsView, LineEventView, TokenTotals,
};
use crate::text::text_before;

verus! {

// ---------------------------------------------------------------------------
// Unchanged files
// ---------------------------------------------------------------------------

/// The cache is settled for a file: what is cached for the file came from
/// a file with the fingerprint that the file has now, or the file has no
/// metadata and nothing is cached for it.
pub open spec fn settled(sessions: Seq<SlotView>, path: Seq<char>, probe: ProbeView) -> bool {
    match probe.fingerprint {
        Some(fingerprint) => !stale(sessions, path, fingerprint),
        None => cached(sessions, path) is None,
    }
}

/// The cache is settled for every one of the first `count` files.
pub open spec fn all_settled(
    sessions: Seq<SlotView>,
    files: Seq<Seq<char>>,
    probes: Seq<ProbeView>,
    count: nat,
) -> bool {
    forall|i: int| 0 <= i < count ==> settled(sessions, files[i], #[trigger] probe_at(probes, i))
}

/// A sweep over files for which the cache is settled reads no file and
/// leaves the cache as it is.
pub proof fn lemma_settled_sweep(
    start: SweepView,
    files: Seq<Seq<char>>,
    probes: Seq<ProbeView>,
    count: nat,
)
    requires
        all_settled(start.sessions, files, probes, count),
    ensures
        sweep(start, files, probes, count).sessions == start.sessions,
        sweep(start, files, probes, count).refreshed == start.refreshed,
        sweep(start, files, probes, count).parse_errors == start.parse_errors,
        sweep(start, files, probes, count).no_usage == start.no_usage,
    decreases count,
{
    if count > 0 {
        lemma_settled_sweep(start, files, probes, (count - 1) as nat);
        assert(settled(start.sessions, files[count - 1], probe_at(probes, count - 1)));
    }
}

/// A merge cycle over files for which the cache is settled reads no file
/// again, finds no file to be without facts, and keeps the cached sessions
/// of the listed files as they are.
pub proof fn law_settled_files_are_not_read(cache: CacheView, observed: ObservationView)
    requires
        all_settled(
            cache.sessions,
            cycle_files(cache, observed.now, observed.discovery),
            observed.probes,
            cycle_files(cache, observed.now, observed.discovery).len(),
        ),
    ensures
        cycle(cache, observed).diagnostics.refreshed_files == 0,
        cycle(cache, observed).diagnostics.parse_error_files == 0,
        cycle(cache, observed).diagnostics.no_usage_or_limits_files == 0,
        cycle(cache, observed).sessions == listed_only(
            cache.sessions,
            cycle_files(cache, observed.now, observed.discovery),
        ),
{
    let files = cycle_files(cache, observed.now, observed.discovery);
    let start = SweepView {
        sessions: cache.sessions,
        changed: discovery_due(cache, observed.now) && files.len() != cache.session_files.len(),
        refreshed: 0,
        parse_errors: 0,
        no_usage: 0,
        unreadable: 0,
    };
    lemma_settled_sweep(start, files, observed.probes, files.len());
}

/// Running the merge once more while nothing changes on disk reads no file
/// and contributes the same sessions to the ledger.
///
/// What is asked of the state after the first cycle is that it is settled
/// for the files as the second cycle sees them: every listed file is cached
/// with its present fingerprint, or has no metadata and no entry. "Nothing
/// changes" further means that the second cycle looks at the same files.
/// [`law_cycle_settles`] says after which first cycles the state is so.
pub proof fn law_second_merge_reads_nothing(
    cache: CacheView,
    first: ObservationView,
    second: ObservationView,
)
    requires
        cache_wf(cache),
        cycle_files(cycle(cache, first), second.now, second.discovery) == cycle(
            cache,
            first,
        ).session_files,
        all_settled(
            cycle(cache, first).sessions,
            cycle(cache, first).session_files,
            second.probes,
            cycle(cache, first).session_files.len(),
        ),
    ensures
        cycle(cycle(cache, first), second).diagnostics.refreshed_files == 0,
        cycle(cycle(cache, first), second).diagnostics.parse_error_files == 0,
        cycle(cycle(cache, first), second).diagnostics.no_usage_or_limits_files == 0,
        cycle(cycle(cache, first), second).sessions == cycle(cache, first).sessions,
        cycle(cycle(cache, first), second).session_files == cycle(cache, first).session_files,
        usage_contributions(cycle(cycle(cache, first), second).sessions) == usage_contributions(
            cycle(cache, first).sessions,
        ),
{
    let middle = cycle(cache, first);
    let files = middle.session_files;
    lemma_cycle_wf(cache, first);
    law_settled_files_are_not_read(middle, second);
    assert forall|i: int| 0 <= i < middle.sessions.len() implies files.contains(
        (#[trigger] middle.sessions[i]).path,
    ) by {
        cycle_sweep(cache, first).sessions.lemma_filter_pred(is_listed(files), i);
    }
    lemma_listed_only(middle.sessions, files);
}

/// A path that is listed twice among the first `count` files has the same
/// fingerprint both times.
pub open spec fn same_path_same_fingerprint(
    files: Seq<Seq<char>>,
    probes: Seq<ProbeView>,
    count: nat,
) -> bool {
    forall|i: int, j: int|
        0 <= i < count && 0 <= j < count && files[i] == files[j] ==> (#[trigger] probe_at(
            probes,
            i,
        )).fingerprint == (#[trigger] probe_at(probes, j)).fingerprint
}

/// A sweep over the file will settle the cache for it: the file has no
/// metadata, or it is cached with its present fingerprint before the sweep,
/// or facts can be parsed from its contents.
pub open spec fn settles(sessions: Seq<SlotView>, path: Seq<char>, probe: ProbeView) -> bool {
    match probe.fingerprint {
        Some(fingerprint) => !stale(sessions, path, fingerprint) || file_outcome(
            probe.contents,
            fingerprint,
        ) is Parsed,
        None => true,
    }
}

/// A sweep will settle the cache for every one of the first `count` files.
pub open spec fn all_settle(
    sessions: Seq<SlotView>,
    files: Seq<Seq<char>>,
    probes: Seq<ProbeView>,
    count: nat,
) -> bool {
    &&& same_path_same_fingerprint(files, probes, count)
    &&& forall|i: int|
        0 <= i < count ==> settles(sessions, files[i], #[trigger] probe_at(probes, i))
}

/// What a sweep leaves alone: the entry of a path that is not among the
/// files swept is the entry it was.
pub proof fn lemma_sweep_keeps_other_paths(
    start: SweepView,
    files: Seq<Seq<char>>,
    probes: Seq<ProbeView>,
    count: nat,
    path: Seq<char>,
)
    requires
        distinct_paths(start.sessions),
        forall|j: int| 0 <= j < count ==> files[j] != path,
    ensures
        cached(sweep(start, files, probes, count).sessions, path) == cached(start.sessions, path),
    decreases count,
{
    if count > 0 {
        let before = sweep(start, files, probes, (count - 1) as nat);
        let swept = files[count - 1];
        let probe = probe_at(probes, count - 1);
        lemma_sweep_keeps_other_paths(start, files, probes, (count - 1) as nat, path);
        lemma_sweep(start, files, probes, (count - 1) as nat);
        lemma_without_path(before.sessions, swept);
        match probe.fingerprint {
            Some(fingerprint) => match file_outcome(probe.contents, fingerprint) {
                FileOutcome::Parsed(session) => {
                    lemma_with_session(before.sessions, swept, session);
                },
                _ => {},
            },
            None => {},
        }
    }
}

/// After a sweep over files that it will settle, the cache is settled for
/// every one of them.
pub proof fn lemma_sweep_settles(
    start: SweepView,
    files: Seq<Seq<char>>,
    probes: Seq<ProbeView>,
    count: nat,
)
    requires
        distinct_paths(start.sessions),
        all_settle(start.sessions, files, probes, count),
    ensures
        all_settled(sweep(start, files, probes, count).sessions, files, probes, count),
        distinct_paths(sweep(start, files, probes, count).sessions),
    decreases count,
{
    lemma_sweep(start, files, probes, count);
    if count > 0 {
        let before = sweep(start, files, probes, (count - 1) as nat);
        let path = files[count - 1];
        let probe = probe_at(probes, count - 1);
        let after = refresh_file(before, path, probe);
        assert(all_settle(start.sessions, files, probes, (count - 1) as nat));
        lemma_sweep_settles(start, files, probes, (count - 1) as nat);
        lemma_without_path(before.sessions, path);
        assert(settles(start.sessions, path, probe));
        // a file that was cached with its present fingerprint before the
        // sweep still is when its turn comes
        let listed_before = exists|j: int| 0 <= j < count - 1 && files[j] == path;
        if listed_before {
            let j = choose|j: int| 0 <= j < count - 1 && files[j] == path;
            assert(settled(before.sessions, files[j], probe_at(probes, j)));
            assert(probe_at(probes, j).fingerprint == probe_at(probes, count - 1).fingerprint);
        } else {
            lemma_sweep_keeps_other_paths(start, files, probes, (count - 1) as nat, path);
        }
        match probe.fingerprint {
            Some(fingerprint) => {
                if stale(before.sessions, path, fingerprint) {
                    assert(file_outcome(probe.contents, fingerprint) is Parsed);
                    let session = file_outcome(probe.contents, fingerprint)->Parsed_0;
                    lemma_with_session(before.sessions, path, session);
                    assert(session.fingerprint() == fingerprint);
                }
            },
            None => {},
        }
        assert(settled(after.sessions, path, probe));
        assert forall|i: int| 0 <= i < count implies settled(
            after.sessions,
            files[i],
            #[trigger] probe_at(probes, i),
        ) by {
            if files[i] == path {
                assert(probe_at(probes, i).fingerprint == probe_at(probes, count - 1).fingerprint);
            } else {
                assert(i < count - 1);
                assert(settled(before.sessions, files[i], probe_at(probes, i)));
                assert(cached(after.sessions, files[i]) == cached(before.sessions, files[i]));
            }
        }
    }
}

/// After which cycles the cache is settled: after a cycle in which every
/// file either has no metadata, or was cached with its present fingerprint
/// already and so was not read, or was read and gave facts. The cache is
/// then settled for the files as that cycle saw them, and so for a later
/// cycle that sees the same fingerprints.
///
/// A file that is read and gives no facts is never cached, so no cycle
/// settles the cache for it: it is read again every time.
pub proof fn law_cycle_settles(cache: CacheView, observed: ObservationView)
    requires
        cache_wf(cache),
        all_settle(
            cache.sessions,
            cycle_files(cache, observed.now, observed.discovery),
            observed.probes,
            cycle_files(cache, observed.now, observed.discovery).len(),
        ),
    ensures
        all_settled(
            cycle(cache, observed).sessions,
            cycle(cache, observed).session_files,
            observed.probes,
            cycle(cache, observed).session_files.len(),
        ),
{
    let files = cycle_files(cache, observed.now, observed.discovery);
    let start = SweepView {
        sessions: cache.sessions,
        changed: discovery_due(cache, observed.now) && files.len() != cache.session_files.len(),
        refreshed: 0,
        parse_errors: 0,
        no_usage: 0,
        unreadable: 0,
    };
    let swept = sweep(start, files, observed.probes, files.len());
    lemma_sweep_settles(start, files, observed.probes, files.len());
    lemma_listed_only(swept.sessions, files);
    let after = cycle(cache, observed).sessions;
    assert(after == listed_only(swept.sessions, files));
    assert forall|i: int| 0 <= i < files.len() implies settled(
        after,
        files[i],
        #[trigger] probe_at(observed.probes, i),
    ) by {
        assert(files.contains(files[i]));
        assert(settled(swept.sessions, files[i], probe_at(observed.probes, i)));
        assert(cached(after, files[i]) == cached(swept.sessions, files[i]));
    }
}

/// Two merge cycles with nothing changed on disk between them: where the
/// first cycle settles the cache and the second sees the same files with
/// the same fingerprints, the second reads no file and the same sessions
/// contribute to the ledger.
pub proof fn law_unchanged_disk_is_not_read_again(
    cache: CacheView,
    first: ObservationView,
    second: ObservationView,
)
    requires
        cache_wf(cache),
        all_settle(
            cache.sessions,
            cycle_files(cache, first.now, first.discovery),
            first.probes,
            cycle_files(cache, first.now, first.discovery).len(),
        ),
        cycle_files(cycle(cache, first), second.now, second.discovery) == cycle(
            cache,
            first,
        ).session_files,
        forall|i: int|
            0 <= i < cycle(cache, first).session_files.len() ==> (#[trigger] probe_at(
                second.probes,
                i,
            )).fingerprint == probe_at(first.probes, i).fingerprint,
    ensures
        cycle(cycle(cache, first), second).diagnostics.refreshed_files == 0,
        cycle(cycle(cache, first), second).sessions == cycle(cache, first).sessions,
        usage_contributions(cycle(cycle(cache, first), second).sessions) == usage_contributions(
            cycle(cache, first).sessions,
        ),
{
    let middle = cycle(cache, first);
    let files = middle.session_files;
    law_cycle_settles(cache, first);
    assert forall|i: int| 0 <= i < files.len() implies settled(
        middle.sessions,
        files[i],
        #[trigger] probe_at(second.probes, i),
    ) by {
        assert(settled(middle.sessions, files[i], probe_at(first.probes, i)));
    }
    law_second_merge_reads_nothing(cache, first, second);
}

/// The estimator answers alike for like values: asked twice for the same
/// provider, model and token counts, it names the same cost.
pub open spec fn answers_alike<F: Fn(&String, &String, u64, u64) -> u64>(estimate: &F) -> bool {
    forall|
        provider: &String,
        model: &String,
        again_provider: &String,
        again_model: &String,
        input_tokens: u64,
        output_tokens: u64,
        cost: u64,
        again_cost: u64,
    |
        provider@ == again_provider@ && model@ == again_model@ && #[trigger] call_ensures(
            estimate,
            (provider, model, input_tokens, output_tokens),
            cost,
        ) && #[trigger] call_ensures(
            estimate,
            (again_provider, again_model, input_tokens, output_tokens),
            again_cost,
        ) ==> cost == again_cost
}

/// With an estimator that answers alike for like values, the records made
/// of the same sessions are the same records, value for value and cost
/// included.
pub proof fn law_same_sessions_same_records<F: Fn(&String, &String, u64, u64) -> u64>(
    estimate: &F,
    model: Seq<char>,
    sources: Seq<SlotView>,
    first: Seq<UsageEntry>,
    second: Seq<UsageEntry>,
)
    requires
        answers_alike(estimate),
        imports_all(first, sources, model, estimate),
        imports_all(second, sources, model, estimate),
    ensures
        entry_views(first) == entry_views(second),
{
    assert forall|i: int| 0 <= i < first.len() implies (#[trigger] first[i])@ == second[i]@ by {
        assert(imports_session(first[i], sources[i], model, estimate));
        assert(imports_session(second[i], sources[i], model, estimate));
    }
    assert(entry_views(first) =~= entry_views(second));
}

/// Two merges with nothing changed on disk between them give the same
/// ledger: started on ledgers that hold the same records, they end on
/// ledgers that hold the same records in the same order, equal in
/// timestamp, provider, model, token counts and cost.
///
/// This is so where the first cycle settles the cache, the second sees the
/// same files with the same fingerprints, and the estimator answers alike
/// for like values. The two ledgers after the merges are described as
/// `merge_codex_usage` describes them.
pub proof fn law_unchanged_merge_gives_same_ledger<F: Fn(&String, &String, u64, u64) -> u64>(
    estimate: &F,
    model: Seq<char>,
    cache: CacheView,
    first: ObservationView,
    second: ObservationView,
    first_before: Seq<UsageEntry>,
    first_after: Seq<UsageEntry>,
    second_before: Seq<UsageEntry>,
    second_after: Seq<UsageEntry>,
)
    requires
        answers_alike(estimate),
        cache_wf(cache),
        all_settle(
            cache.sessions,
            cycle_files(cache, first.now, first.discovery),
            first.probes,
            cycle_files(cache, first.now, first.discovery).len(),
        ),
        cycle_files(cycle(cache, first), second.now, second.discovery) == cycle(
            cache,
            first,
        ).session_files,
        forall|i: int|
            0 <= i < cycle(cache, first).session_files.len() ==> (#[trigger] probe_at(
                second.probes,
                i,
            )).fingerprint == probe_at(first.probes, i).fingerprint,
        entry_views(first_before) == entry_views(second_before),
        exists|imported: Seq<UsageEntry>|
            #![trigger first_before + imported]
            imports_all(
                imported,
                usage_contributions(cycle(cache, first).sessions),
                model,
                estimate,
            ) && first_after == sorted_by_timestamp(first_before + imported),
        exists|imported: Seq<UsageEntry>|
            #![trigger second_before + imported]
            imports_all(
                imported,
                usage_contributions(cycle(cycle(cache, first), second).sessions),
                model,
                estimate,
            ) && second_after == sorted_by_timestamp(second_before + imported),
    ensures
        entry_views(first_after) == entry_views(second_after),
{
    law_unchanged_disk_is_not_read_again(cache, first, second);
    let sources = usage_contributions(cycle(cache, first).sessions);
    let one = choose|imported: Seq<UsageEntry>|
        #![trigger first_before + imported]
        imports_all(imported, sources, model, estimate) && first_after == sorted_by_timestamp(
            first_before + imported,
        );
    let two = choose|imported: Seq<UsageEntry>|
        #![trigger second_before + imported]
        imports_all(imported, sources, model, estimate) && second_after == sorted_by_timestamp(
            second_before + imported,
        );
    law_same_sessions_same_records(estimate, model, sources, one, two);
    assert(first_before.len() == entry_views(first_before).len());
    assert(second_before.len() == entry_views(second_before).len());
    assert(one.len() == entry_views(one).len());
    assert(two.len() == entry_views(two).len());
    assert forall|k: int| 0 <= k < first_before.len() implies (#[trigger] first_before[k])@
        == second_before[k]@ by {
        assert(entry_views(first_before)[k] == first_before[k]@);
        assert(entry_views(second_before)[k] == second_before[k]@);
    }
    assert forall|k: int| 0 <= k < one.len() implies (#[trigger] one[k])@ == two[k]@ by {
        assert(entry_views(one)[k] == one[k]@);
        assert(entry_views(two)[k] == two[k]@);
    }
    assert(entry_views(first_before + one) =~= entry_views(second_before + two));
    lemma_sorted_by_value(first_before + one, second_before + two);
}

/// After a merge cycle the cache holds sessions of listed files only: a
/// file that is no longer listed is gone from the cache within the cycle.
pub proof fn law_cache_holds_listed_files_only(
    cache: CacheView,
    observed: ObservationView,
    index: int,
)
    requires
        0 <= index < cycle(cache, observed).sessions.len(),
    ensures
        cycle(cache, observed).session_files.contains(
            cycle(cache, observed).sessions[index].path,
        ),
{
    let files = cycle_files(cache, observed.now, observed.discovery);
    cycle_sweep(cache, observed).sessions.lemma_filter_pred(is_listed(files), index);
}

/// Only sessions with token usage contribute to the ledger: a session that
/// carries nothing but rate limits stays in the cache and contributes
/// nothing.
pub proof fn law_contributions_carry_usage(sessions: Seq<SlotView>, index: int)
    requires
        0 <= index < usage_contributions(sessions).len(),
    ensures
        usage_contributions(sessions)[index].session.has_token_usage,
        sessions.contains(usage_contributions(sessions)[index]),
{
    sessions.lemma_filter_pred(reports_usage(), index);
    sessions.lemma_filter_contains_rev(reports_usage(), usage_contributions(sessions)[index]);
}

// ---------------------------------------------------------------------------
// Changed files
// ---------------------------------------------------------------------------

/// A file whose modification time or whose length differs from what is
/// cached for it is read again: either difference alone is enough.
pub proof fn law_changed_fingerprint_is_reparsed(
    state: SweepView,
    path: Seq<char>,
    probe: ProbeView,
    session: CachedSessionView,
)
    requires
        cached(state.sessions, path) == Some(session),
        probe.fingerprint is Some,
        probe.fingerprint->0.modified != session.modified || probe.fingerprint->0.file_len
            != session.file_len,
    ensures
        stale(state.sessions, path, probe.fingerprint->0),
        refresh_file(state, path, probe).refreshed == state.refreshed + 1,
        refresh_file(state, path, probe).changed,
{
}

/// A file that is not cached is read.
pub proof fn law_new_file_is_parsed(state: SweepView, path: Seq<char>, probe: ProbeView)
    requires
        cached(state.sessions, path) is None,
        probe.fingerprint is Some,
    ensures
        refresh_file(state, path, probe).refreshed == state.refreshed + 1,
        refresh_file(state, path, probe).changed,
{
}

// ---------------------------------------------------------------------------
// Reading a log
// ---------------------------------------------------------------------------

/// What the line at `index` says; an empty line says nothing.
pub open spec fn said(lines: Seq<Seq<u8>>, index: int) -> LineEventView {
    if lines[index].len() == 0 {
        LineEventView::Unstructured
    } else {
        line_event(lines[index])
    }
}

/// A log in which every line is empty or noise is a parse error.
pub proof fn law_no_structured_line_is_parse_error(lines: Seq<Seq<u8>>)
    requires
        forall|i: int| 0 <= i < lines.len() ==> #[trigger] said(lines, i) is Unstructured,
    ensures
        classify(scan(lines)) == ContentsView::ParseError,
        scan(lines) == initial_scan(),
    decreases lines.len(),
{
    if lines.len() > 0 {
        let rest = lines.drop_last();
        assert forall|i: int| 0 <= i < rest.len() implies #[trigger] said(rest, i) is Unstructured by {
            assert(said(lines, i) is Unstructured);
        }
        law_no_structured_line_is_parse_error(rest);
        assert(said(lines, lines.len() - 1) is Unstructured);
    }
}

/// A log of which no line is valid JSON is a parse error.
pub proof fn law_no_json_line_is_parse_error(lines: Seq<Seq<u8>>)
    requires
        forall|i: int| 0 <= i < lines.len() ==> json_document(#[trigger] lines[i]) is None,
    ensures
        classify(scan(lines)) == ContentsView::ParseError,
{
    assert forall|i: int| 0 <= i < lines.len() implies #[trigger] said(lines, i) is Unstructured by {
        assert(json_document(lines[i]) is None);
    }
    law_no_structured_line_is_parse_error(lines);
}

/// A line that is valid JSON is never noise, whatever it holds.
pub proof fn lemma_json_line_is_structured(line: Seq<u8>)
    requires
        json_document(line) is Some,
    ensures
        !(line_event(line) is Unstructured),
{
}

/// Once a line of valid JSON has been read, the log counts as structured,
/// whatever follows.
pub proof fn lemma_structured_stays(lines: Seq<Seq<u8>>, index: int)
    requires
        0 <= index < lines.len(),
        !(said(lines, index) is Unstructured),
    ensures
        scan(lines).structured,
    decreases lines.len(),
{
    let rest = lines.drop_last();
    let last = lines.len() - 1;
    if index < last {
        assert(said(lines, index) == said(rest, index));
        lemma_structured_stays(rest, index);
    }
}

/// A log with a non-empty line that is valid JSON is never a parse error:
/// parse error and valid JSON exclude each other, whether or not the line is
/// an event record.
pub proof fn law_json_line_is_no_parse_error(lines: Seq<Seq<u8>>, index: int)
    requires
        0 <= index < lines.len(),
        lines[index].len() > 0,
        json_document(lines[index]) is Some,
    ensures
        classify(scan(lines)) != ContentsView::ParseError,
{
    lemma_json_line_is_structured(lines[index]);
    lemma_structured_stays(lines, index);
}

/// A log is a parse error exactly when none of its non-empty lines is valid
/// JSON.
pub proof fn law_parse_error_iff_no_json(lines: Seq<Seq<u8>>)
    ensures
        classify(scan(lines)) == ContentsView::ParseError <==> forall|i: int|
            0 <= i < lines.len() && (#[trigger] lines[i]).len() > 0 ==> json_document(lines[i])
                is None,
{
    if forall|i: int|
        0 <= i < lines.len() && (#[trigger] lines[i]).len() > 0 ==> json_document(lines[i])
            is None {
        assert forall|i: int| 0 <= i < lines.len() implies #[trigger] said(lines, i) is Unstructured by {
            if lines[i].len() > 0 {
                assert(json_document(lines[i]) is None);
            }
        }
        law_no_structured_line_is_parse_error(lines);
    } else {
        let i = choose|i: int|
            0 <= i < lines.len() && (#[trigger] lines[i]).len() > 0 && !(json_document(lines[i])
                is None);
        law_json_line_is_no_parse_error(lines, i);
    }
}

/// Without a `token_count` event a log yields neither usage nor limits nor
/// an event timestamp, whatever else it holds.
pub proof fn lemma_no_token_count(lines: Seq<Seq<u8>>)
    requires
        forall|i: int| 0 <= i < lines.len() ==> !(#[trigger] said(lines, i) is TokenCount),
    ensures
        !scan(lines).has_token_usage,
        scan(lines).latest_limits is None,
        scan(lines).latest_event_timestamp is None,
        scan(lines).structured <==> exists|i: int|
            0 <= i < lines.len() && !(#[trigger] said(lines, i) is Unstructured),
    decreases lines.len(),
{
    if lines.len() > 0 {
        let rest = lines.drop_last();
        assert forall|i: int| 0 <= i < rest.len() implies !(#[trigger] said(rest, i) is TokenCount) by {
            assert(said(lines, i) == said(rest, i));
        }
        lemma_no_token_count(rest);
        let last = lines.len() - 1;
        assert(!(said(lines, last) is TokenCount));
        if scan(lines).structured {
            if scan(rest).structured {
                let i = choose|i: int| 0 <= i < rest.len() && !(#[trigger] said(rest, i) is Unstructured);
                assert(said(lines, i) == said(rest, i));
            } else {
                assert(!(said(lines, last) is Unstructured));
            }
        } else {
            assert forall|i: int| 0 <= i < lines.len() implies #[trigger] said(lines, i) is Unstructured by {
                if i < last {
                    assert(said(lines, i) == said(rest, i));
                }
            }
        }
    }
}

/// A log that holds valid JSON, but no `token_count` event, has no usage or
/// limits: so a log with only a `session_meta` line, and so a log whose
/// lines are no event records at all.
pub proof fn law_no_token_count_is_no_usage(lines: Seq<Seq<u8>>, index: int)
    requires
        forall|i: int| 0 <= i < lines.len() ==> !(#[trigger] said(lines, i) is TokenCount),
        0 <= index < lines.len(),
        !(said(lines, index) is Unstructured),
    ensures
        classify(scan(lines)) == ContentsView::NoUsageOrLimits,
{
    lemma_no_token_count(lines);
}

/// No `token_count` event of the log carries token totals.
pub open spec fn no_usage_reported(lines: Seq<Seq<u8>>) -> bool {
    forall|i: int|
        0 <= i < lines.len() ==> match #[trigger] said(lines, i) {
            LineEventView::TokenCount { usage, .. } => usage is None,
            _ => true,
        }
}

/// The event carries a timestamp and at least one quota window.
pub open spec fn reports_limits(event: LineEventView) -> bool {
    match event {
        LineEventView::TokenCount { timestamp, primary, secondary, .. } => timestamp is Some && (
        primary is Some || secondary is Some),
        _ => false,
    }
}

/// Without token totals in any event, a log reports no usage.
pub proof fn lemma_no_usage_reported(lines: Seq<Seq<u8>>)
    requires
        no_usage_reported(lines),
    ensures
        !scan(lines).has_token_usage,
    decreases lines.len(),
{
    if lines.len() > 0 {
        let rest = lines.drop_last();
        assert forall|i: int| 0 <= i < rest.len() implies match #[trigger] said(rest, i) {
            LineEventView::TokenCount { usage, .. } => usage is None,
            _ => true,
        } by {
            assert(said(lines, i) == said(rest, i));
        }
        lemma_no_usage_reported(rest);
        let last = lines.len() - 1;
        assert(match said(lines, last) {
            LineEventView::TokenCount { usage, .. } => usage is None,
            _ => true,
        });
    }
}

/// Once an event has reported limits, the log has limits and an event
/// timestamp, whatever follows.
pub proof fn lemma_limits_stay(lines: Seq<Seq<u8>>, index: int)
    requires
        0 <= index < lines.len(),
        reports_limits(said(lines, index)),
    ensures
        scan(lines).latest_limits is Some,
        scan(lines).latest_event_timestamp is Some,
        scan(lines).structured,
    decreases lines.len(),
{
    let rest = lines.drop_last();
    let last = lines.len() - 1;
    if index < last {
        assert(said(lines, index) == said(rest, index));
        lemma_limits_stay(rest, index);
    }
}

/// A log with rate limits but without token totals is parsed, with its
/// limits, and is marked as carrying no usage.
pub proof fn law_limits_without_usage_is_parsed(lines: Seq<Seq<u8>>, index: int)
    requires
        0 <= index < lines.len(),
        reports_limits(said(lines, index)),
        no_usage_reported(lines),
    ensures
        classify(scan(lines)) is Parsed,
        !classify(scan(lines))->Parsed_0.has_token_usage,
        classify(scan(lines))->Parsed_0.limits is Some,
{
    lemma_no_usage_reported(lines);
    lemma_limits_stay(lines, index);
}

/// The token totals of a log are those of the last event that carries any:
/// they are not added up, and no earlier event matters.
pub proof fn law_last_usage_wins(lines: Seq<Seq<u8>>, index: int, totals: TokenTotals)
    requires
        0 <= index < lines.len(),
        said(lines, index) matches LineEventView::TokenCount { usage, .. } && usage == Some(totals),
        forall|j: int|
            index < j < lines.len() ==> match #[trigger] said(lines, j) {
                LineEventView::TokenCount { usage, .. } => usage is None,
                _ => true,
            },
    ensures
        scan(lines).has_token_usage,
        scan(lines).input_tokens == totals.input_tokens,
        scan(lines).output_tokens == totals.output_tokens,
    decreases lines.len(),
{
    let rest = lines.drop_last();
    let last = lines.len() - 1;
    if index < last {
        assert(said(lines, index) == said(rest, index));
        assert forall|j: int| index < j < rest.len() implies match #[trigger] said(rest, j) {
            LineEventView::TokenCount { usage, .. } => usage is None,
            _ => true,
        } by {
            assert(said(lines, j) == said(rest, j));
        }
        law_last_usage_wins(rest, index, totals);
        assert(match said(lines, last) {
            LineEventView::TokenCount { usage, .. } => usage is None,
            _ => true,
        });
    }
}

// ---------------------------------------------------------------------------
// The latest rate limits
// ---------------------------------------------------------------------------

/// Of two cached sessions with rate limits, the one whose file was modified
/// later supplies the latest limits, whatever the timestamps inside say;
/// where both files were modified at the same time, the later timestamp
/// decides.
pub proof fn law_latest_limits_tie_break(first: SlotView, second: SlotView)
    requires
        first.session.limits is Some,
        second.session.limits is Some,
    ensures
        earlier(first.session.modified, second.session.modified) ==> latest_limits(
            seq![first, second],
        ) == second.session.limits && latest_limits(seq![second, first]) == second.session.limits,
        first.session.modified == second.session.modified && text_before(
            first.session.limits->0.timestamp,
            second.session.limits->0.timestamp,
        ) ==> latest_limits(seq![first, second]) == second.session.limits && latest_limits(
            seq![second, first],
        ) == second.session.limits,
{
    let a = seq![first, second];
    let b = seq![second, first];
    lemma_latest_limits(a);
    lemma_latest_limits(b);
    assert(a[0] == first && a[1] == second);
    assert(b[0] == second && b[1] == first);
    let ts1 = vstd::utf8::encode_utf8(first.session.limits->0.timestamp);
    let ts2 = vstd::utf8::encode_utf8(second.session.limits->0.timestamp);
    if text_before(first.session.limits->0.timestamp, second.session.limits->0.timestamp)
        && text_before(second.session.limits->0.timestamp, first.session.limits->0.timestamp) {
        crate::text::lemma_bytes_before_transitive(ts1, ts2, ts1);
        crate::text::lemma_bytes_before_irreflexive(ts1);
    }
}

/// In any cache, a session with limits whose file was modified before that
/// of another session with limits does not supply the latest limits.
pub proof fn law_later_file_wins(slots: Seq<SlotView>, older: int, newer: int)
    requires
        0 <= older < slots.len(),
        0 <= newer < slots.len(),
        slots[older].session.limits is Some,
        slots[newer].session.limits is Some,
        earlier(slots[older].session.modified, slots[newer].session.modified),
    ensures
        latest_limits_slot(slots) is Some,
        latest_limits_slot(slots) != Some(older),
{
    lemma_latest_limits(slots);
}

// ---------------------------------------------------------------------------
// The time between directory walks
// ---------------------------------------------------------------------------

/// Three idle walks in a row, counted from a fresh start, lengthen the
/// interval by one step, to at most its maximum: from the minimum of 10
/// seconds to 20.
pub proof fn law_three_idle_walks_lengthen(interval: u64)
    requires
        MIN_DISCOVERY_INTERVAL <= interval <= MAX_DISCOVERY_INTERVAL,
    ensures
        ({
            let once = tuned(interval, 0, false);
            let twice = tuned(once.0, once.1, false);
            let thrice = tuned(twice.0, twice.1, false);
            &&& once == (interval, 1u32)
            &&& twice == (interval, 2u32)
            &&& thrice.1 == 0
            &&& thrice.0 == if interval + DISCOVERY_BACKOFF_STEP <= MAX_DISCOVERY_INTERVAL {
                interval + DISCOVERY_BACKOFF_STEP
            } else {
                MAX_DISCOVERY_INTERVAL as int
            }
            &&& interval == MIN_DISCOVERY_INTERVAL ==> thrice.0 == 20
        }),
{
}

/// A walk that detects a change sets the interval back to its minimum and
/// the count of idle walks to zero.
pub proof fn law_change_resets_interval(interval: u64, idle_cycles: u32)
    ensures
        tuned(interval, idle_cycles, true) == (MIN_DISCOVERY_INTERVAL, 0u32),
{
}

/// The interval never leaves its bounds, however many walks are idle, and
/// an idle walk never shortens it.
pub proof fn law_interval_stays_bounded(interval: u64, idle_cycles: u32, changed: bool)
    requires
        MIN_DISCOVERY_INTERVAL <= interval <= MAX_DISCOVERY_INTERVAL,
        idle_cycles < IDLE_CYCLES_BEFORE_BACKOFF,
    ensures
        MIN_DISCOVERY_INTERVAL <= tuned(interval, idle_cycles, changed).0
            <= MAX_DISCOVERY_INTERVAL,
        tuned(interval, idle_cycles, changed).1 < IDLE_CYCLES_BEFORE_BACKOFF,
        !changed ==> tuned(interval, idle_cycles, changed).0 >= interval,
{
}

/// A merge cycle keeps the interval within its bounds, and a cycle in which
/// no walk is due leaves the schedule alone.
pub proof fn law_cycle_keeps_schedule(cache: CacheView, observed: ObservationView)
    requires
        cache_wf(cache),
    ensures
        MIN_DISCOVERY_INTERVAL <= cycle(cache, observed).discovery_interval
            <= MAX_DISCOVERY_INTERVAL,
        cycle(cache, observed).diagnostics.discovery_interval == cycle(
            cache,
            observed,
        ).discovery_interval,
        !discovery_due(cache, observed.now) ==> cycle(cache, observed).discovery_interval
            == cache.discovery_interval && cycle(cache, observed).idle_cycles == cache.idle_cycles
            && cycle(cache, observed).last_discovery_at == cache.last_discovery_at,
        discovery_due(cache, observed.now) && cycle_sweep(cache, observed).changed ==> cycle(
            cache,
            observed,
        ).discovery_interval == MIN_DISCOVERY_INTERVAL,
{
    lemma_cycle_wf(cache, observed);
}

// ---------------------------------------------------------------------------
// A root that has vanished
// ---------------------------------------------------------------------------

/// When a walk is due and finds that the root no longer exists, the cycle
/// empties the cache: no session stays cached, none contributes to the
/// ledger, no file is active and none is read.
pub proof fn law_missing_root_empties_cache(cache: CacheView, observed: ObservationView)
    requires
        discovery_due(cache, observed.now),
        observed.discovery == Some(DiscoveryView::MissingRoot),
    ensures
        cycle(cache, observed).sessions == Seq::<SlotView>::empty(),
        cycle(cache, observed).session_files == Seq::<Seq<char>>::empty(),
        usage_contributions(cycle(cache, observed).sessions) == Seq::<SlotView>::empty(),
        cycle(cache, observed).diagnostics.active_files == 0,
        cycle(cache, observed).diagnostics.refreshed_files == 0,
        cycle(cache, observed).diagnostics.unreadable_files == 0,
{
    let files = cycle_files(cache, observed.now, observed.discovery);
    assert(files == Seq::<Seq<char>>::empty());
    let out = listed_only(cache.sessions, files);
    assert(out.len() == 0) by {
        if out.len() > 0 {
            cache.sessions.lemma_filter_pred(is_listed(files), 0);
            assert(files.contains(out[0].path));
        }
    }
    assert(out =~= Seq::<SlotView>::empty());
    assert(usage_contributions(Seq::<SlotView>::empty()) =~= Seq::<SlotView>::empty()) by {
        reveal(Seq::filter);
    }
    assert(files.to_set() =~= Set::<Seq<char>>::empty());
}

} // verus!
