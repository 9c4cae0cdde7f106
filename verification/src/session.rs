//! Reading one session log: which lines are events, what each event
//! contributes, and how the whole file is classified.
//!
//! A log is a sequence of lines separated by `\n`. Each line is taken without
//! its trailing carriage returns; a line that is then empty is skipped. Every
//! other line is handed to the JSON reader. A line that is not valid JSON is
//! noise; a line that is counts as a structured line, whatever it holds, and
//! is interpreted by [`event_of`].

use vstd::prelude::*;
use vstd::slice::*;
use vstd::string::*;

use crate::json::{
    json_document, json_from_bytes, json_is_null, json_is_record, json_member, json_real_bits,
    json_text, json_tree, json_unsigned, member_of, JsonTree,
};
use crate::text::str_eq;

verus! {

/// One quota window as reported by a session: how much of it is used (an
/// IEEE 754 double, kept as its bit pattern), its length, and when it resets.
#[derive(Clone, Copy, Debug, PartialEq, Eq, Structural)]
pub struct CodexRateLimit {
    pub used_percent_bits: u64,
    pub window_minutes: u64,
    pub resets_at: Option<u64>,
}

/// A snapshot of both quota windows, tagged with the timestamp of the event
/// that carried it.
#[derive(Debug)]
pub struct CodexRateLimits {
    pub timestamp: String,
    pub primary: Option<CodexRateLimit>,
    pub secondary: Option<CodexRateLimit>,
}

/// The value of a [`CodexRateLimits`].
pub struct RateLimitsView {
    pub timestamp: Seq<char>,
    pub primary: Option<CodexRateLimit>,
    pub secondary: Option<CodexRateLimit>,
}

impl View for CodexRateLimits {
    type V = RateLimitsView;

    open spec fn view(&self) -> RateLimitsView {
        RateLimitsView {
            timestamp: self.timestamp@,
            primary: self.primary,
            secondary: self.secondary,
        }
    }
}

impl Clone for CodexRateLimits {
    fn clone(&self) -> (out: Self)
        ensures
            out@ == self@,
    {
        CodexRateLimits {
            timestamp: self.timestamp.clone(),
            primary: self.primary,
            secondary: self.secondary,
        }
    }
}

/// The value of an optional [`CodexRateLimits`].
pub open spec fn limits_view(limits: Option<CodexRateLimits>) -> Option<RateLimitsView> {
    match limits {
        Some(l) => Some(l@),
        None => None,
    }
}

/// Running token totals of a session.
#[derive(Clone, Copy, Debug, PartialEq, Eq, Structural)]
pub struct TokenTotals {
    pub input_tokens: u64,
    pub output_tokens: u64,
}

/// What one line of a session log says.
#[derive(Debug)]
pub enum LineEvent {
    /// Not valid JSON: noise inside the file.
    Unstructured,
    /// Valid JSON that carries nothing of interest: no event record at all,
    /// or one of another kind.
    Other,
    /// A `session_meta` record with the session's own timestamp.
    SessionMeta { session_timestamp: String },
    /// A `token_count` event.
    TokenCount {
        timestamp: Option<String>,
        usage: Option<TokenTotals>,
        primary: Option<CodexRateLimit>,
        secondary: Option<CodexRateLimit>,
    },
}

/// The value of a [`LineEvent`].
pub enum LineEventView {
    Unstructured,
    Other,
    SessionMeta { session_timestamp: Seq<char> },
    TokenCount {
        timestamp: Option<Seq<char>>,
        usage: Option<TokenTotals>,
        primary: Option<CodexRateLimit>,
        secondary: Option<CodexRateLimit>,
    },
}

/// The value of an optional string.
pub open spec fn text_view(text: Option<String>) -> Option<Seq<char>> {
    match text {
        Some(t) => Some(t@),
        None => None,
    }
}

impl View for LineEvent {
    type V = LineEventView;

    open spec fn view(&self) -> LineEventView {
        match *self {
            LineEvent::Unstructured => LineEventView::Unstructured,
            LineEvent::Other => LineEventView::Other,
            LineEvent::SessionMeta { session_timestamp } => LineEventView::SessionMeta {
                session_timestamp: session_timestamp@,
            },
            LineEvent::TokenCount {
                timestamp,
                usage,
                primary,
                secondary,
            } => LineEventView::TokenCount {
                timestamp: text_view(timestamp),
                usage,
                primary,
                secondary,
            },
        }
    }
}

// ---------------------------------------------------------------------------
// The shape of an event record
// ---------------------------------------------------------------------------

/// How an optional field reads: a missing member and an explicit `null` are
/// both "not given".
pub open spec fn given(tree: JsonTree, key: Seq<char>) -> Option<JsonTree> {
    match member_of(tree, key) {
        Some(JsonTree::Null) => None,
        other => other,
    }
}

/// The string stored under `key`, if there is one.
pub open spec fn text_member(tree: JsonTree, key: Seq<char>) -> Option<Seq<char>> {
    match member_of(tree, key) {
        Some(JsonTree::Text(text)) => Some(text),
        _ => None,
    }
}

/// An optional string field. The outer `None` means the field is given but is
/// not a string.
pub open spec fn optional_text(tree: JsonTree, key: Seq<char>) -> Option<Option<Seq<char>>> {
    match given(tree, key) {
        None => Some(None),
        Some(JsonTree::Text(text)) => Some(Some(text)),
        Some(_) => None,
    }
}

/// A required unsigned integer field.
pub open spec fn required_unsigned(tree: JsonTree, key: Seq<char>) -> Option<u64> {
    match member_of(tree, key) {
        Some(JsonTree::Number { unsigned, .. }) => unsigned,
        _ => None,
    }
}

/// An optional unsigned integer field; outer `None` as in [`optional_text`].
pub open spec fn optional_unsigned(tree: JsonTree, key: Seq<char>) -> Option<Option<u64>> {
    match given(tree, key) {
        None => Some(None),
        Some(JsonTree::Number { unsigned: Some(n), .. }) => Some(Some(n)),
        Some(_) => None,
    }
}

/// A required number, read as a double.
pub open spec fn required_real_bits(tree: JsonTree, key: Seq<char>) -> Option<u64> {
    match member_of(tree, key) {
        Some(JsonTree::Number { real_bits, .. }) => real_bits,
        _ => None,
    }
}

/// One quota window: an object with a numeric `used_percent`, an unsigned
/// `window_minutes` and, if given, an unsigned `resets_at`. Anything else is
/// not a quota window.
pub open spec fn limit_of(tree: JsonTree) -> Option<CodexRateLimit> {
    match (
        required_real_bits(tree, "used_percent"@),
        required_unsigned(tree, "window_minutes"@),
        optional_unsigned(tree, "resets_at"@),
    ) {
        (Some(used_percent_bits), Some(window_minutes), Some(resets_at)) => Some(
            CodexRateLimit { used_percent_bits, window_minutes, resets_at },
        ),
        _ => None,
    }
}

/// The quota window stored under `key` of a `rate_limits` object.
pub open spec fn window_of(limits: Option<JsonTree>, key: Seq<char>) -> Option<CodexRateLimit> {
    match limits {
        Some(node) => match given(node, key) {
            Some(window) => limit_of(window),
            None => None,
        },
        None => None,
    }
}

/// The token totals of a `total_token_usage` object: both counts are
/// required, so an object with only one of them gives nothing.
pub open spec fn totals_of(tree: JsonTree) -> Option<TokenTotals> {
    match (
        required_unsigned(tree, "input_tokens"@),
        required_unsigned(tree, "output_tokens"@),
    ) {
        (Some(input_tokens), Some(output_tokens)) => Some(
            TokenTotals { input_tokens, output_tokens },
        ),
        _ => None,
    }
}

/// The usage carried by a payload, under `info.total_token_usage`; `info`
/// may be missing or `null`.
pub open spec fn usage_of(payload: JsonTree) -> Option<TokenTotals> {
    match given(payload, "info"@) {
        Some(info) => match given(info, "total_token_usage"@) {
            Some(node) => totals_of(node),
            None => None,
        },
        None => None,
    }
}

/// The kind of the payload: its `type` member where a payload is given.
/// Outer `None` when the payload is not an object or its `type` is not a
/// string.
pub open spec fn payload_kind(tree: JsonTree) -> Option<Option<Seq<char>>> {
    match given(tree, "payload"@) {
        None => Some(None),
        Some(payload) => if payload is Record {
            optional_text(payload, "type"@)
        } else {
            None
        },
    }
}

/// An event record is an object with a string `type` whose payload, if
/// given, is an object whose own `type`, if given, is a string. This names
/// the record's kind and its payload's kind; any other document is no event
/// record and has neither.
pub open spec fn envelope_of(tree: JsonTree) -> Option<(Seq<char>, Option<Seq<char>>)> {
    match text_member(tree, "type"@) {
        Some(kind) => match payload_kind(tree) {
            Some(inner) => Some((kind, inner)),
            None => None,
        },
        None => None,
    }
}

/// The timestamp of a `session_meta` record, found in its payload.
pub open spec fn session_meta_of(tree: JsonTree) -> Option<Seq<char>> {
    match given(tree, "payload"@) {
        Some(payload) => text_member(payload, "timestamp"@),
        None => None,
    }
}

/// What a `token_count` event with the given payload carries. Each part is
/// read on its own: a part that is missing or malformed is simply not there.
pub open spec fn token_count_of(tree: JsonTree, payload: JsonTree) -> LineEventView {
    LineEventView::TokenCount {
        timestamp: text_member(tree, "timestamp"@),
        usage: usage_of(payload),
        primary: window_of(given(payload, "rate_limits"@), "primary"@),
        secondary: window_of(given(payload, "rate_limits"@), "secondary"@),
    }
}

/// What a line that is valid JSON says. A document that is no event record
/// says nothing of interest, but it is a structured line all the same.
pub open spec fn event_of(tree: JsonTree) -> LineEventView {
    match envelope_of(tree) {
        None => LineEventView::Other,
        Some((kind, inner)) => if kind == "session_meta"@ {
            match session_meta_of(tree) {
                Some(session_timestamp) => LineEventView::SessionMeta { session_timestamp },
                None => LineEventView::Other,
            }
        } else if kind == "event_msg"@ && inner == Some("token_count"@) {
            match given(tree, "payload"@) {
                Some(payload) => token_count_of(tree, payload),
                None => LineEventView::Other,
            }
        } else {
            LineEventView::Other
        },
    }
}

/// What a non-empty line says: a line is noise exactly when it is not valid
/// JSON.
pub open spec fn line_event(line: Seq<u8>) -> LineEventView {
    match json_document(line) {
        Some(tree) => event_of(tree),
        None => LineEventView::Unstructured,
    }
}

// ---------------------------------------------------------------------------
// Reading a record
// ---------------------------------------------------------------------------

fn read_given<'a>(value: &'a serde_json::Value, key: &str) -> (out: Option<&'a serde_json::Value>)
    ensures
        match out {
            Some(node) => given(json_tree(*value), key@) == Some(json_tree(*node)),
            None => given(json_tree(*value), key@) is None,
        },
{
    match json_member(value, key) {
        Some(node) => if json_is_null(node) {
            None
        } else {
            Some(node)
        },
        None => None,
    }
}

fn read_text_member<'a>(value: &'a serde_json::Value, key: &str) -> (out: Option<&'a str>)
    ensures
        match out {
            Some(text) => text_member(json_tree(*value), key@) == Some(text@),
            None => text_member(json_tree(*value), key@) is None,
        },
{
    match json_member(value, key) {
        Some(node) => json_text(node),
        None => None,
    }
}

fn read_optional_text<'a>(value: &'a serde_json::Value, key: &str) -> (out: Option<
    Option<&'a str>,
>)
    ensures
        match out {
            Some(Some(text)) => optional_text(json_tree(*value), key@) == Some(Some(text@)),
            Some(None) => optional_text(json_tree(*value), key@) == Some(None::<Seq<char>>),
            None => optional_text(json_tree(*value), key@) is None,
        },
{
    match read_given(value, key) {
        None => Some(None),
        Some(node) => match json_text(node) {
            Some(text) => Some(Some(text)),
            None => None,
        },
    }
}

fn read_required_unsigned(value: &serde_json::Value, key: &str) -> (out: Option<u64>)
    ensures
        out == required_unsigned(json_tree(*value), key@),
{
    match json_member(value, key) {
        Some(node) => json_unsigned(node),
        None => None,
    }
}

fn read_optional_unsigned(value: &serde_json::Value, key: &str) -> (out: Option<Option<u64>>)
    ensures
        out == optional_unsigned(json_tree(*value), key@),
{
    match read_given(value, key) {
        None => Some(None),
        Some(node) => match json_unsigned(node) {
            Some(n) => Some(Some(n)),
            None => None,
        },
    }
}

fn read_required_real_bits(value: &serde_json::Value, key: &str) -> (out: Option<u64>)
    ensures
        out == required_real_bits(json_tree(*value), key@),
{
    match json_member(value, key) {
        Some(node) => json_real_bits(node),
        None => None,
    }
}

/// Reads one quota window from its JSON object.
pub fn parse_codex_rate_limit(node: &serde_json::Value) -> (out: Option<CodexRateLimit>)
    ensures
        out == limit_of(json_tree(*node)),
{
    let used_percent_bits = match read_required_real_bits(node, "used_percent") {
        Some(bits) => bits,
        None => {
            return None;
        },
    };
    let window_minutes = match read_required_unsigned(node, "window_minutes") {
        Some(minutes) => minutes,
        None => {
            return None;
        },
    };
    let resets_at = match read_optional_unsigned(node, "resets_at") {
        Some(resets_at) => resets_at,
        None => {
            return None;
        },
    };
    Some(CodexRateLimit { used_percent_bits, window_minutes, resets_at })
}

fn read_window(limits: Option<&serde_json::Value>, key: &str) -> (out: Option<CodexRateLimit>)
    ensures
        out == window_of(
            match limits {
                Some(node) => Some(json_tree(*node)),
                None => None,
            },
            key@,
        ),
{
    match limits {
        Some(node) => match read_given(node, key) {
            Some(window) => parse_codex_rate_limit(window),
            None => None,
        },
        None => None,
    }
}

fn read_totals(node: &serde_json::Value) -> (out: Option<TokenTotals>)
    ensures
        out == totals_of(json_tree(*node)),
{
    let input_tokens = match read_required_unsigned(node, "input_tokens") {
        Some(n) => n,
        None => {
            return None;
        },
    };
    let output_tokens = match read_required_unsigned(node, "output_tokens") {
        Some(n) => n,
        None => {
            return None;
        },
    };
    Some(TokenTotals { input_tokens, output_tokens })
}

fn read_usage(payload: &serde_json::Value) -> (out: Option<TokenTotals>)
    ensures
        out == usage_of(json_tree(*payload)),
{
    match read_given(payload, "info") {
        Some(info) => match read_given(info, "total_token_usage") {
            Some(node) => read_totals(node),
            None => None,
        },
        None => None,
    }
}

fn owned_text(text: Option<&str>) -> (out: Option<String>)
    ensures
        text_view(out) == match text {
            Some(t) => Some(t@),
            None => None,
        },
{
    match text {
        Some(t) => Some(t.to_owned()),
        None => None,
    }
}

fn read_token_count(value: &serde_json::Value, payload: &serde_json::Value) -> (out: LineEvent)
    ensures
        out@ == token_count_of(json_tree(*value), json_tree(*payload)),
{
    let timestamp = owned_text(read_text_member(value, "timestamp"));
    let usage = read_usage(payload);
    let limits = read_given(payload, "rate_limits");
    let primary = read_window(limits, "primary");
    let secondary = read_window(limits, "secondary");
    LineEvent::TokenCount { timestamp, usage, primary, secondary }
}

fn read_session_meta(value: &serde_json::Value) -> (out: LineEvent)
    ensures
        out@ == match session_meta_of(json_tree(*value)) {
            Some(session_timestamp) => LineEventView::SessionMeta { session_timestamp },
            None => LineEventView::Other,
        },
{
    match read_given(value, "payload") {
        None => LineEvent::Other,
        Some(payload) => match read_text_member(payload, "timestamp") {
            Some(timestamp) => LineEvent::SessionMeta {
                session_timestamp: timestamp.to_owned(),
            },
            None => LineEvent::Other,
        },
    }
}

fn read_payload_kind<'a>(value: &'a serde_json::Value) -> (out: Option<Option<&'a str>>)
    ensures
        match out {
            Some(Some(kind)) => payload_kind(json_tree(*value)) == Some(Some(kind@)),
            Some(None) => payload_kind(json_tree(*value)) == Some(None::<Seq<char>>),
            None => payload_kind(json_tree(*value)) is None,
        },
{
    match read_given(value, "payload") {
        None => Some(None),
        Some(payload) => if json_is_record(payload) {
            read_optional_text(payload, "type")
        } else {
            None
        },
    }
}

/// Interprets one parsed JSON document as a line of a session log.
pub fn read_event(value: &serde_json::Value) -> (out: LineEvent)
    ensures
        out@ == event_of(json_tree(*value)),
{
    let kind = match read_text_member(value, "type") {
        Some(kind) => kind,
        None => {
            return LineEvent::Other;
        },
    };
    let inner = match read_payload_kind(value) {
        Some(inner) => inner,
        None => {
            return LineEvent::Other;
        },
    };
    if str_eq(kind, "session_meta") {
        return read_session_meta(value);
    }
    let is_token_count = str_eq(kind, "event_msg") && match inner {
        Some(inner_kind) => str_eq(inner_kind, "token_count"),
        None => false,
    };
    if !is_token_count {
        return LineEvent::Other;
    }
    match read_given(value, "payload") {
        Some(payload) => read_token_count(value, payload),
        None => LineEvent::Other,
    }
}

/// Interprets one non-empty line of a session log.
pub fn parse_line(line: &[u8]) -> (out: LineEvent)
    ensures
        out@ == line_event(line@),
{
    match json_from_bytes(line) {
        Some(value) => read_event(&value),
        None => LineEvent::Unstructured,
    }
}

// ---------------------------------------------------------------------------
// Folding the lines of a log
// ---------------------------------------------------------------------------

/// What has been learned from the lines read so far.
#[derive(Debug)]
pub struct ScanState {
    pub structured: bool,
    pub session_timestamp: Option<String>,
    pub latest_event_timestamp: Option<String>,
    pub input_tokens: u64,
    pub output_tokens: u64,
    pub has_token_usage: bool,
    pub latest_limits: Option<CodexRateLimits>,
}

/// The value of a [`ScanState`].
pub struct ScanView {
    /// At least one line that is valid JSON has been seen.
    pub structured: bool,
    /// Timestamp of the last `session_meta` record that carried one.
    pub session_timestamp: Option<Seq<char>>,
    /// Timestamp of the last `token_count` event that carried one.
    pub latest_event_timestamp: Option<Seq<char>>,
    pub input_tokens: u64,
    pub output_tokens: u64,
    pub has_token_usage: bool,
    pub latest_limits: Option<RateLimitsView>,
}

impl View for ScanState {
    type V = ScanView;

    open spec fn view(&self) -> ScanView {
        ScanView {
            structured: self.structured,
            session_timestamp: text_view(self.session_timestamp),
            latest_event_timestamp: text_view(self.latest_event_timestamp),
            input_tokens: self.input_tokens,
            output_tokens: self.output_tokens,
            has_token_usage: self.has_token_usage,
            latest_limits: limits_view(self.latest_limits),
        }
    }
}

/// The state before any line has been read.
pub open spec fn initial_scan() -> ScanView {
    ScanView {
        structured: false,
        session_timestamp: None,
        latest_event_timestamp: None,
        input_tokens: 0,
        output_tokens: 0,
        has_token_usage: false,
        latest_limits: None,
    }
}

/// The state after one more event. Later events overwrite earlier ones; no
/// value is ever added to or compared with what was there.
///
/// A `session_meta` record sets the session's timestamp. A `token_count`
/// event with a timestamp sets the latest event timestamp and, if it has a
/// quota window, the rate limits, which are tagged with that timestamp; an
/// event without a timestamp leaves both alone. A `token_count` event with
/// token totals sets the totals, with or without a timestamp.
pub open spec fn absorb(state: ScanView, event: LineEventView) -> ScanView {
    match event {
        LineEventView::Unstructured => state,
        LineEventView::Other => ScanView { structured: true, ..state },
        LineEventView::SessionMeta { session_timestamp } => ScanView {
            structured: true,
            session_timestamp: Some(session_timestamp),
            ..state
        },
        LineEventView::TokenCount { timestamp, usage, primary, secondary } => {
            let dated = match timestamp {
                Some(stamp) => ScanView {
                    latest_event_timestamp: Some(stamp),
                    latest_limits: if primary is Some || secondary is Some {
                        Some(RateLimitsView { timestamp: stamp, primary, secondary })
                    } else {
                        state.latest_limits
                    },
                    ..state
                },
                None => state,
            };
            let counted = match usage {
                Some(totals) => ScanView {
                    input_tokens: totals.input_tokens,
                    output_tokens: totals.output_tokens,
                    has_token_usage: true,
                    ..dated
                },
                None => dated,
            };
            ScanView { structured: true, ..counted }
        },
    }
}

/// The state after one more line: an empty line says nothing.
pub open spec fn absorb_line(state: ScanView, line: Seq<u8>) -> ScanView {
    if line.len() == 0 {
        state
    } else {
        absorb(state, line_event(line))
    }
}

/// The state after all of `lines`, read in order.
pub open spec fn scan(lines: Seq<Seq<u8>>) -> ScanView
    decreases lines.len(),
{
    if lines.len() == 0 {
        initial_scan()
    } else {
        absorb_line(scan(lines.drop_last()), lines.last())
    }
}

/// The byte that ends a line.
pub const LINE_FEED: u8 = 10;

/// The byte that may precede the line feed and is dropped with it.
pub const CARRIAGE_RETURN: u8 = 13;

/// Length of the first line of `bytes`, its line feed not counted.
pub open spec fn line_break(bytes: Seq<u8>) -> int
    decreases bytes.len(),
{
    if bytes.len() == 0 || bytes[0] == LINE_FEED {
        0
    } else {
        1 + line_break(bytes.drop_first())
    }
}

/// `line` without the carriage returns at its end.
pub open spec fn without_trailing_returns(line: Seq<u8>) -> Seq<u8>
    decreases line.len(),
{
    if line.len() > 0 && line.last() == CARRIAGE_RETURN {
        without_trailing_returns(line.drop_last())
    } else {
        line
    }
}

/// The lines of a log: the pieces between line feeds, each without its
/// trailing carriage returns. Nothing follows a final line feed.
pub open spec fn log_lines(bytes: Seq<u8>) -> Seq<Seq<u8>>
    decreases bytes.len(),
{
    if bytes.len() == 0 {
        Seq::empty()
    } else {
        let n = line_break(bytes);
        if 0 <= n < bytes.len() {
            seq![without_trailing_returns(bytes.take(n))] + log_lines(bytes.skip(n + 1))
        } else {
            seq![without_trailing_returns(bytes)]
        }
    }
}

/// The facts extracted from a log that has some.
pub struct ParsedSessionView {
    pub timestamp: Seq<char>,
    pub input_tokens: u64,
    pub output_tokens: u64,
    pub has_token_usage: bool,
    pub limits: Option<RateLimitsView>,
}

/// The value of a [`ParsedSessionContents`].
pub enum ContentsView {
    Parsed(ParsedSessionView),
    NoUsageOrLimits,
    ParseError,
}

/// How a log is classified once all its lines are read: a parse error if
/// no line was valid JSON; else without usage or limits if it has no
/// timestamp, or neither token usage nor rate limits; else parsed.
pub open spec fn classify(state: ScanView) -> ContentsView {
    if !state.structured {
        ContentsView::ParseError
    } else {
        let timestamp = match state.latest_event_timestamp {
            Some(stamp) => Some(stamp),
            None => state.session_timestamp,
        };
        match timestamp {
            None => ContentsView::NoUsageOrLimits,
            Some(stamp) => if !state.has_token_usage && state.latest_limits is None {
                ContentsView::NoUsageOrLimits
            } else {
                ContentsView::Parsed(
                    ParsedSessionView {
                        timestamp: stamp,
                        input_tokens: state.input_tokens,
                        output_tokens: state.output_tokens,
                        has_token_usage: state.has_token_usage,
                        limits: state.latest_limits,
                    },
                )
            },
        }
    }
}

/// How the log with the given bytes is classified.
pub open spec fn classify_log(bytes: Seq<u8>) -> ContentsView {
    classify(scan(log_lines(bytes)))
}

/// The outcome of reading the contents of one session log.
#[derive(Debug)]
pub enum ParsedSessionContents {
    /// Timestamp, input tokens, output tokens, whether token usage was seen,
    /// and the latest rate limits.
    Parsed((String, u64, u64, bool, Option<CodexRateLimits>)),
    /// Lines of valid JSON, but neither usage nor limits among them.
    NoUsageOrLimits,
    /// Not a single line that is valid JSON.
    ParseError,
}

/// The value of the tuple that [`ParsedSessionContents::Parsed`] holds.
pub open spec fn parsed_view(
    parsed: (String, u64, u64, bool, Option<CodexRateLimits>),
) -> ParsedSessionView {
    ParsedSessionView {
        timestamp: parsed.0@,
        input_tokens: parsed.1,
        output_tokens: parsed.2,
        has_token_usage: parsed.3,
        limits: limits_view(parsed.4),
    }
}

impl View for ParsedSessionContents {
    type V = ContentsView;

    open spec fn view(&self) -> ContentsView {
        match *self {
            ParsedSessionContents::Parsed(parsed) => ContentsView::Parsed(parsed_view(parsed)),
            ParsedSessionContents::NoUsageOrLimits => ContentsView::NoUsageOrLimits,
            ParsedSessionContents::ParseError => ContentsView::ParseError,
        }
    }
}

impl ScanState {
    /// The state before any line has been read.
    pub fn new() -> (out: ScanState)
        ensures
            out@ == initial_scan(),
    {
        ScanState {
            structured: false,
            session_timestamp: None,
            latest_event_timestamp: None,
            input_tokens: 0,
            output_tokens: 0,
            has_token_usage: false,
            latest_limits: None,
        }
    }

    /// Takes in what one more line says.
    pub fn absorb(&mut self, event: LineEvent)
        ensures
            final(self)@ == absorb(old(self)@, event@),
    {
        match event {
            LineEvent::Unstructured => {},
            LineEvent::Other => {
                self.structured = true;
            },
            LineEvent::SessionMeta { session_timestamp } => {
                self.structured = true;
                self.session_timestamp = Some(session_timestamp);
            },
            LineEvent::TokenCount { timestamp, usage, primary, secondary } => {
                self.structured = true;
                if let Some(stamp) = timestamp {
                    if primary.is_some() || secondary.is_some() {
                        self.latest_limits = Some(
                            CodexRateLimits { timestamp: stamp.clone(), primary, secondary },
                        );
                    }
                    self.latest_event_timestamp = Some(stamp);
                }
                if let Some(totals) = usage {
                    self.input_tokens = totals.input_tokens;
                    self.output_tokens = totals.output_tokens;
                    self.has_token_usage = true;
                }
            },
        }
    }

    /// Classifies the log whose lines have all been read.
    pub fn finish(self) -> (out: ParsedSessionContents)
        ensures
            out@ == classify(self@),
    {
        if !self.structured {
            return ParsedSessionContents::ParseError;
        }
        let timestamp = match self.latest_event_timestamp {
            Some(stamp) => stamp,
            None => match self.session_timestamp {
                Some(stamp) => stamp,
                None => {
                    return ParsedSessionContents::NoUsageOrLimits;
                },
            },
        };
        if !self.has_token_usage && self.latest_limits.is_none() {
            return ParsedSessionContents::NoUsageOrLimits;
        }
        ParsedSessionContents::Parsed(
            (
                timestamp,
                self.input_tokens,
                self.output_tokens,
                self.has_token_usage,
                self.latest_limits,
            ),
        )
    }
}

/// Finds where the line that starts at `start` ends.
fn find_line_break(bytes: &[u8], start: usize) -> (end: usize)
    requires
        start <= bytes@.len(),
    ensures
        start <= end <= bytes@.len(),
        end - start == line_break(bytes@.skip(start as int)),
{
    let mut end = start;
    proof {
        assert(bytes@.skip(start as int).skip(0) =~= bytes@.skip(start as int));
    }
    while end < bytes.len() && bytes[end] != LINE_FEED
        invariant
            start <= end <= bytes@.len(),
            line_break(bytes@.skip(start as int)) == (end - start) + line_break(
                bytes@.skip(end as int),
            ),
        decreases bytes@.len() - end,
    {
        proof {
            assert(bytes@.skip(end as int).drop_first() =~= bytes@.skip(end as int + 1));
        }
        end += 1;
    }
    end
}

/// Finds where the line `bytes[start..end]` ends once its trailing carriage
/// returns are dropped.
fn trim_returns(bytes: &[u8], start: usize, end: usize) -> (stop: usize)
    requires
        start <= end <= bytes@.len(),
    ensures
        start <= stop <= end,
        bytes@.subrange(start as int, stop as int) == without_trailing_returns(
            bytes@.subrange(start as int, end as int),
        ),
{
    let mut stop = end;
    while stop > start && bytes[stop - 1] == CARRIAGE_RETURN
        invariant
            start <= stop <= end <= bytes@.len(),
            without_trailing_returns(bytes@.subrange(start as int, end as int))
                == without_trailing_returns(bytes@.subrange(start as int, stop as int)),
        decreases stop,
    {
        proof {
            assert(bytes@.subrange(start as int, stop as int).drop_last() =~= bytes@.subrange(
                start as int,
                stop as int - 1,
            ));
        }
        stop -= 1;
    }
    stop
}

/// Reads a whole session log, given as its bytes, and classifies it.
pub fn parse_codex_session_reader(bytes: &[u8]) -> (out: ParsedSessionContents)
    ensures
        out@ == classify_log(bytes@),
{
    let mut state = ScanState::new();
    let mut start: usize = 0;
    let ghost mut done: Seq<Seq<u8>> = Seq::empty();
    proof {
        assert(bytes@.skip(0) =~= bytes@);
        assert(done + log_lines(bytes@) =~= log_lines(bytes@));
    }
    while start < bytes.len()
        invariant
            start <= bytes@.len(),
            log_lines(bytes@) == done + log_lines(bytes@.skip(start as int)),
            state@ == scan(done),
        decreases bytes@.len() - start,
    {
        let end = find_line_break(bytes, start);
        let stop = trim_returns(bytes, start, end);
        let ghost rest = bytes@.skip(start as int);
        let ghost line = bytes@.subrange(start as int, stop as int);
        proof {
            assert(rest.take(end - start) =~= bytes@.subrange(start as int, end as int));
            if end < bytes@.len() {
                assert(rest.skip(end - start + 1) =~= bytes@.skip(end as int + 1));
            } else {
                assert(rest =~= bytes@.subrange(start as int, end as int));
                assert(log_lines(bytes@.skip(end as int)) =~= Seq::<Seq<u8>>::empty());
            }
            assert(done.push(line).drop_last() =~= done);
        }
        if stop > start {
            let event = parse_line(slice_subrange(bytes, start, stop));
            state.absorb(event);
        }
        proof {
            let next: int = if end < bytes@.len() {
                end + 1
            } else {
                end as int
            };
            assert(log_lines(rest) =~= seq![line] + log_lines(bytes@.skip(next)));
            assert(done + log_lines(rest) =~= done.push(line) + log_lines(bytes@.skip(next)));
            done = done.push(line);
        }
        start = if end < bytes.len() {
            end + 1
        } else {
            end
        };
    }
    proof {
        assert(done + log_lines(bytes@.skip(start as int)) =~= done);
    }
    state.finish()
}

/// Reads the text of a session log and classifies it.
pub fn parse_codex_session_contents_with_status(contents: &str) -> (out: ParsedSessionContents)
    ensures
        out@ == classify_log(contents.spec_bytes()),
{
    parse_codex_session_reader(contents.as_bytes())
}

/// The facts that [`parse_codex_session_contents`] finds in `bytes`.
pub open spec fn parsed_facts(bytes: Seq<u8>) -> Option<ParsedSessionView> {
    match classify_log(bytes) {
        ContentsView::Parsed(parsed) => Some(parsed),
        _ => None,
    }
}

/// The value of an optional result of [`parse_codex_session_contents`].
pub open spec fn facts_view(
    facts: Option<(String, u64, u64, bool, Option<CodexRateLimits>)>,
) -> Option<ParsedSessionView> {
    match facts {
        Some(parsed) => Some(parsed_view(parsed)),
        None => None,
    }
}

/// Reads the text of a session log and returns its facts (timestamp, input
/// tokens, output tokens, whether usage was seen, latest rate limits), or
/// nothing when the log has none to offer.
pub fn parse_codex_session_contents(contents: &str) -> (out: Option<
    (String, u64, u64, bool, Option<CodexRateLimits>),
>)
    ensures
        facts_view(out) == parsed_facts(contents.spec_bytes()),
{
    match parse_codex_session_contents_with_status(contents) {
        ParsedSessionContents::Parsed(parsed) => Some(parsed),
        ParsedSessionContents::NoUsageOrLimits => None,
        ParsedSessionContents::ParseError => None,
    }
}

} // verus!
