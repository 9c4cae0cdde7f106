//! Texts for the dashboard that are made of numbers: when a quota window
//! resets, how fresh the imported data is, and the status line.

use vstd::prelude::*;
use vstd::string::*;

use crate::clock::{earlier, seconds_between, ClockTime};
use crate::codex_import::{codex_import_diagnostics, CodexImportCache, CodexImportDiagnostics};
use crate::models::AppConfig;
use crate::text::{decimal, push_decimal};

verus! {

/// Seconds in an hour.
pub const SECONDS_PER_HOUR: u64 = 3600;

/// Seconds in a minute.
pub const SECONDS_PER_MINUTE: u64 = 60;

/// When a quota window resets, seen from `now_epoch`, both in seconds since
/// the epoch: `unknown` without a reset time, `now` once it has come, and
/// else the whole hours and the remaining whole minutes until then.
pub open spec fn reset_timing(resets_at: Option<u64>, now_epoch: u64) -> Seq<char> {
    match resets_at {
        None => "unknown"@,
        Some(target) => if target <= now_epoch {
            "now"@
        } else {
            let remaining = (target - now_epoch) as nat;
            "in "@ + decimal(remaining / 3600) + "h "@ + decimal((remaining % 3600) / 60) + "m"@
        },
    }
}

/// Says when a quota window resets.
pub fn format_reset_timing(resets_at: Option<u64>, now_epoch: u64) -> (out: String)
    ensures
        out@ == reset_timing(resets_at, now_epoch),
{
    let target_epoch = match resets_at {
        Some(target) => target,
        None => {
            return "unknown".to_owned();
        },
    };
    if target_epoch <= now_epoch {
        return "now".to_owned();
    }
    let remaining = target_epoch - now_epoch;
    let hours = remaining / SECONDS_PER_HOUR;
    let minutes = (remaining % SECONDS_PER_HOUR) / SECONDS_PER_MINUTE;
    let mut out = "in ".to_owned();
    push_decimal(&mut out, hours);
    out.append("h ");
    push_decimal(&mut out, minutes);
    out.append("m");
    out
}

/// How fresh the imported data is.
#[derive(Clone, Copy, Debug, PartialEq, Eq, Structural)]
pub enum Freshness {
    /// No import has run.
    Unknown,
    /// Imported at most half a minute ago.
    Live,
    /// Imported at most two minutes ago.
    Stale,
    /// Imported longer ago.
    Old,
}

/// Longest age, in seconds, of data that counts as live.
pub const LIVE_AGE_LIMIT: u64 = 30;

/// Longest age, in seconds, of data that counts as stale rather than old.
pub const STALE_AGE_LIMIT: u64 = 120;

/// Grades the age of the last import, in seconds.
pub fn codex_freshness(import_age_secs: Option<u64>) -> (out: Freshness)
    ensures
        out == match import_age_secs {
            None => Freshness::Unknown,
            Some(age) => if age <= LIVE_AGE_LIMIT {
                Freshness::Live
            } else if age <= STALE_AGE_LIMIT {
                Freshness::Stale
            } else {
                Freshness::Old
            },
        },
{
    match import_age_secs {
        None => Freshness::Unknown,
        Some(age) => if age <= LIVE_AGE_LIMIT {
            Freshness::Live
        } else if age <= STALE_AGE_LIMIT {
            Freshness::Stale
        } else {
            Freshness::Old
        },
    }
}

/// The whole seconds since the last import, seen from `now`: zero where no
/// import has run or the clock has gone backwards since.
pub open spec fn import_age(diagnostics: CodexImportDiagnostics, now: ClockTime) -> nat {
    match diagnostics.last_import_at {
        Some(at) => if earlier(now, at) {
            0
        } else {
            seconds_between(at, now) as nat
        },
        None => 0,
    }
}

/// The status line: `Ready` with the import switched off, and else the
/// counts of the last merge cycle.
pub open spec fn status_line(
    enabled: bool,
    diagnostics: CodexImportDiagnostics,
    now: ClockTime,
) -> Seq<char> {
    if !enabled {
        "Ready"@
    } else {
        "Codex import files:"@ + decimal(diagnostics.active_files as nat) + " refreshed:"@
            + decimal(diagnostics.refreshed_files as nat) + " parse_fail:"@ + decimal(
            diagnostics.parse_error_files as nat,
        ) + " scan:"@ + decimal(diagnostics.discovery_interval as nat) + "s updated:"@ + decimal(
            import_age(diagnostics, now),
        ) + "s"@
    }
}

/// Writes the status line for the time `now`.
pub fn build_status_line(config: &AppConfig, cache: &CodexImportCache, now: ClockTime) -> (out:
    String)
    ensures
        out@ == status_line(config.codex_import.enabled, cache@.diagnostics, now),
{
    if !config.codex_import.enabled {
        return "Ready".to_owned();
    }
    let diagnostics = codex_import_diagnostics(cache);
    let imported_ago_secs = match diagnostics.last_import_at {
        Some(at) => match now.seconds_since(&at) {
            Some(passed) => passed,
            None => 0,
        },
        None => 0,
    };
    let mut out = "Codex import files:".to_owned();
    push_decimal(&mut out, diagnostics.active_files as u64);
    out.append(" refreshed:");
    push_decimal(&mut out, diagnostics.refreshed_files as u64);
    out.append(" parse_fail:");
    push_decimal(&mut out, diagnostics.parse_error_files as u64);
    out.append(" scan:");
    push_decimal(&mut out, diagnostics.discovery_interval);
    out.append("s updated:");
    push_decimal(&mut out, imported_ago_secs);
    out.append("s");
    out
}

} // verus!
