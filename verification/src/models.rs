//! The usage ledger and the configuration that the import engine reads.
//!
//! Amounts of money are IEEE 754 doubles. The crate never computes with
//! them: it carries each as its bit pattern, from whoever supplied it to
//! whoever displays it.

use vstd::prelude::*;
use vstd::string::*;

verus! {

/// One record of the usage ledger.
#[derive(Debug)]
pub struct UsageEntry {
    pub timestamp: String,
    pub provider: String,
    pub model: String,
    pub input_tokens: u64,
    pub output_tokens: u64,
    pub cost_usd_bits: u64,
}

/// The value of a [`UsageEntry`].
pub struct UsageEntryView {
    pub timestamp: Seq<char>,
    pub provider: Seq<char>,
    pub model: Seq<char>,
    pub input_tokens: u64,
    pub output_tokens: u64,
    pub cost_usd_bits: u64,
}

impl View for UsageEntry {
    type V = UsageEntryView;

    open spec fn view(&self) -> UsageEntryView {
        UsageEntryView {
            timestamp: self.timestamp@,
            provider: self.provider@,
            model: self.model@,
            input_tokens: self.input_tokens,
            output_tokens: self.output_tokens,
            cost_usd_bits: self.cost_usd_bits,
        }
    }
}

impl Clone for UsageEntry {
    fn clone(&self) -> (out: Self)
        ensures
            out@ == self@,
    {
        UsageEntry {
            timestamp: self.timestamp.clone(),
            provider: self.provider.clone(),
            model: self.model.clone(),
            input_tokens: self.input_tokens,
            output_tokens: self.output_tokens,
            cost_usd_bits: self.cost_usd_bits,
        }
    }
}

/// The usage ledger: an optional budget and the records, in order.
#[derive(Debug)]
pub struct UsageData {
    pub budget_usd_bits: Option<u64>,
    pub entries: Vec<UsageEntry>,
}

/// The values of a sequence of ledger records.
pub open spec fn entry_views(entries: Seq<UsageEntry>) -> Seq<UsageEntryView> {
    Seq::new(entries.len(), |i: int| entries[i]@)
}

/// How session logs are imported.
#[derive(Debug)]
pub struct CodexImportConfig {
    pub enabled: bool,
    pub sessions_dir: Option<String>,
    pub model: String,
}

/// The part of the application's configuration that this crate reads.
#[derive(Debug)]
pub struct AppConfig {
    pub codex_import: CodexImportConfig,
}

/// The default of a switch that is on unless configured otherwise.
pub fn default_true() -> (out: bool)
    ensures
        out,
{
    true
}

/// The model label given to imported usage unless configured otherwise.
pub fn default_codex_model() -> (out: String)
    ensures
        out@ == "codex-cli"@,
{
    "codex-cli".to_owned()
}

impl Default for CodexImportConfig {
    fn default() -> (out: Self)
        ensures
            out.enabled,
            out.sessions_dir is None,
            out.model@ == "codex-cli"@,
    {
        CodexImportConfig { enabled: default_true(), sessions_dir: None, model: default_codex_model() }
    }
}

impl Default for AppConfig {
    fn default() -> (out: Self)
        ensures
            out.codex_import.enabled,
            out.codex_import.sessions_dir is None,
            out.codex_import.model@ == "codex-cli"@,
    {
        AppConfig { codex_import: CodexImportConfig::default() }
    }
}

// ---------------------------------------------------------------------------
// Usage records as providers report them
// ---------------------------------------------------------------------------

/// A usage record as it was supplied by hand: providers name the token
/// counts differently, and any of them may be missing.
#[derive(Debug)]
pub struct RawUsageEntry {
    pub timestamp: String,
    pub provider: String,
    pub model: String,
    pub input_tokens: Option<u64>,
    pub output_tokens: Option<u64>,
    pub prompt_tokens: Option<u64>,
    pub completion_tokens: Option<u64>,
    pub request_tokens: Option<u64>,
    pub response_tokens: Option<u64>,
    pub prompt_token_count: Option<u64>,
    pub candidates_token_count: Option<u64>,
    pub total_tokens: Option<u64>,
    pub total_token_count: Option<u64>,
    pub cost_usd_bits: Option<u64>,
}

/// A ledger of raw records.
#[derive(Debug)]
pub struct RawUsageData {
    pub budget_usd_bits: Option<u64>,
    pub entries: Vec<RawUsageEntry>,
}

/// The first of two optional counts that is given.
pub open spec fn or_count(first: Option<u64>, second: Option<u64>) -> Option<u64> {
    if first is Some {
        first
    } else {
        second
    }
}

/// The count, or zero where none is given.
pub open spec fn count_or_zero(count: Option<u64>) -> u64 {
    match count {
        Some(n) => n,
        None => 0,
    }
}

/// Input and output tokens made consistent with a reported total.
///
/// Without a total the counts stand. With one, counts that are both zero
/// are replaced by the two halves of the total, the larger half going to
/// the output; counts that fall short of the total have the difference
/// added to the output; counts that reach it stand.
pub open spec fn split_total(input: u64, output: u64, total: Option<u64>) -> (u64, u64) {
    match total {
        None => (input, output),
        Some(all) => if input + output == 0 {
            (all / 2, (all - all / 2) as u64)
        } else if input + output < all {
            (input, (all - input) as u64)
        } else {
            (input, output)
        },
    }
}

/// Makes input and output tokens consistent with a reported total.
pub fn split_with_total(input: u64, output: u64, total: Option<u64>) -> (out: (u64, u64))
    ensures
        out == split_total(input, output, total),
{
    let all = match total {
        Some(all) => all,
        None => {
            return (input, output);
        },
    };
    if input == 0 && output == 0 {
        let input_guess = all / 2;
        return (input_guess, all - input_guess);
    }
    match input.checked_add(output) {
        Some(known) => if known < all {
            (input, output + (all - known))
        } else {
            (input, output)
        },
        None => (input, output),
    }
}

fn pick(first: Option<u64>, second: Option<u64>) -> (out: Option<u64>)
    ensures
        out == or_count(first, second),
{
    match first {
        Some(_) => first,
        None => second,
    }
}

fn or_zero(count: Option<u64>) -> (out: u64)
    ensures
        out == count_or_zero(count),
{
    match count {
        Some(n) => n,
        None => 0,
    }
}

/// The tokens of a record in the naming of OpenAI.
pub open spec fn openai_tokens(raw: RawUsageEntry) -> (u64, u64) {
    split_total(
        count_or_zero(or_count(or_count(raw.input_tokens, raw.prompt_tokens), raw.request_tokens)),
        count_or_zero(
            or_count(or_count(raw.output_tokens, raw.completion_tokens), raw.response_tokens),
        ),
        raw.total_tokens,
    )
}

/// The tokens of a record in the naming of Gemini.
pub open spec fn gemini_tokens(raw: RawUsageEntry) -> (u64, u64) {
    split_total(
        count_or_zero(
            or_count(or_count(raw.input_tokens, raw.prompt_token_count), raw.prompt_tokens),
        ),
        count_or_zero(
            or_count(
                or_count(raw.output_tokens, raw.candidates_token_count),
                raw.completion_tokens,
            ),
        ),
        or_count(raw.total_tokens, raw.total_token_count),
    )
}

/// The tokens of a record in the naming of Opus.
pub open spec fn opus_tokens(raw: RawUsageEntry) -> (u64, u64) {
    split_total(
        count_or_zero(
            or_count(or_count(raw.input_tokens, raw.prompt_tokens), raw.prompt_token_count),
        ),
        count_or_zero(
            or_count(
                or_count(raw.output_tokens, raw.completion_tokens),
                raw.candidates_token_count,
            ),
        ),
        or_count(raw.total_tokens, raw.total_token_count),
    )
}

/// The tokens of a record of an unknown provider: every known name is tried.
pub open spec fn generic_tokens(raw: RawUsageEntry) -> (u64, u64) {
    split_total(
        count_or_zero(
            or_count(
                or_count(or_count(raw.input_tokens, raw.prompt_tokens), raw.request_tokens),
                raw.prompt_token_count,
            ),
        ),
        count_or_zero(
            or_count(
                or_count(or_count(raw.output_tokens, raw.completion_tokens), raw.response_tokens),
                raw.candidates_token_count,
            ),
        ),
        or_count(raw.total_tokens, raw.total_token_count),
    )
}

/// The tokens of a record, read in the naming of its provider. The provider
/// is given in lower case.
pub open spec fn adapted_tokens(provider: Seq<char>, raw: RawUsageEntry) -> (u64, u64) {
    if provider == "openai"@ || provider == "codex"@ || provider == "anthropic"@ {
        openai_tokens(raw)
    } else if provider == "gemini"@ {
        gemini_tokens(raw)
    } else if provider == "opus"@ {
        opus_tokens(raw)
    } else {
        generic_tokens(raw)
    }
}

/// Reads the tokens of an OpenAI record.
pub fn adapt_openai_tokens(raw: &RawUsageEntry) -> (out: (u64, u64))
    ensures
        out == openai_tokens(*raw),
{
    let input = or_zero(pick(pick(raw.input_tokens, raw.prompt_tokens), raw.request_tokens));
    let output = or_zero(
        pick(pick(raw.output_tokens, raw.completion_tokens), raw.response_tokens),
    );
    split_with_total(input, output, raw.total_tokens)
}

/// Reads the tokens of a Codex record, which names them as OpenAI does.
pub fn adapt_codex_tokens(raw: &RawUsageEntry) -> (out: (u64, u64))
    ensures
        out == openai_tokens(*raw),
{
    adapt_openai_tokens(raw)
}

/// Reads the tokens of an Anthropic record, which names them as OpenAI does.
pub fn adapt_anthropic_tokens(raw: &RawUsageEntry) -> (out: (u64, u64))
    ensures
        out == openai_tokens(*raw),
{
    adapt_openai_tokens(raw)
}

/// Reads the tokens of a Gemini record.
pub fn adapt_gemini_tokens(raw: &RawUsageEntry) -> (out: (u64, u64))
    ensures
        out == gemini_tokens(*raw),
{
    let input = or_zero(pick(pick(raw.input_tokens, raw.prompt_token_count), raw.prompt_tokens));
    let output = or_zero(
        pick(pick(raw.output_tokens, raw.candidates_token_count), raw.completion_tokens),
    );
    split_with_total(input, output, pick(raw.total_tokens, raw.total_token_count))
}

/// Reads the tokens of an Opus record.
pub fn adapt_opus_tokens(raw: &RawUsageEntry) -> (out: (u64, u64))
    ensures
        out == opus_tokens(*raw),
{
    let input = or_zero(pick(pick(raw.input_tokens, raw.prompt_tokens), raw.prompt_token_count));
    let output = or_zero(
        pick(pick(raw.output_tokens, raw.completion_tokens), raw.candidates_token_count),
    );
    split_with_total(input, output, pick(raw.total_tokens, raw.total_token_count))
}

/// Reads the tokens of a record of an unknown provider.
pub fn adapt_generic_tokens(raw: &RawUsageEntry) -> (out: (u64, u64))
    ensures
        out == generic_tokens(*raw),
{
    let input = or_zero(
        pick(
            pick(pick(raw.input_tokens, raw.prompt_tokens), raw.request_tokens),
            raw.prompt_token_count,
        ),
    );
    let output = or_zero(
        pick(
            pick(pick(raw.output_tokens, raw.completion_tokens), raw.response_tokens),
            raw.candidates_token_count,
        ),
    );
    split_with_total(input, output, pick(raw.total_tokens, raw.total_token_count))
}

/// What `str::to_lowercase` makes of a text.
pub uninterp spec fn lowercase_of(text: Seq<char>) -> Seq<char>;

/// Calls `str::to_lowercase`. Trusted: the answer is the text that
/// [`lowercase_of`] names, a function of the argument alone.
#[verifier::external_body]
fn to_lowercase(text: &str) -> (out: String)
    ensures
        out@ == lowercase_of(text@),
{
    text.to_lowercase()
}

/// `entry` is the ledger record of `raw`: same timestamp and model, the
/// provider in lower case, the tokens read in that provider's naming, and
/// the cost that the record states or, where it states none, one that the
/// estimator gave for this provider, model and tokens.
pub open spec fn normalizes<F: Fn(&String, &String, u64, u64) -> u64>(
    entry: UsageEntry,
    raw: RawUsageEntry,
    estimate: &F,
) -> bool {
    &&& entry.timestamp@ == raw.timestamp@
    &&& entry.provider@ == lowercase_of(raw.provider@)
    &&& entry.model@ == raw.model@
    &&& (entry.input_tokens, entry.output_tokens) == adapted_tokens(entry.provider@, raw)
    &&& match raw.cost_usd_bits {
        Some(cost) => entry.cost_usd_bits == cost,
        None => call_ensures(
            estimate,
            (&entry.provider, &entry.model, entry.input_tokens, entry.output_tokens),
            entry.cost_usd_bits,
        ),
    }
}

/// Turns a raw record into a ledger record.
pub fn normalize_entry<F: Fn(&String, &String, u64, u64) -> u64>(
    raw: RawUsageEntry,
    estimate: &F,
) -> (out: UsageEntry)
    requires
        forall|p: &String, m: &String, i: u64, o: u64| call_requires(estimate, (p, m, i, o)),
    ensures
        normalizes(out, raw, estimate),
{
    let provider = to_lowercase(raw.provider.as_str());
    let name = provider.as_str();
    let (input_tokens, output_tokens) = if crate::text::str_eq(name, "openai") {
        adapt_openai_tokens(&raw)
    } else if crate::text::str_eq(name, "codex") {
        adapt_codex_tokens(&raw)
    } else if crate::text::str_eq(name, "anthropic") {
        adapt_anthropic_tokens(&raw)
    } else if crate::text::str_eq(name, "gemini") {
        adapt_gemini_tokens(&raw)
    } else if crate::text::str_eq(name, "opus") {
        adapt_opus_tokens(&raw)
    } else {
        adapt_generic_tokens(&raw)
    };
    let cost_usd_bits = match raw.cost_usd_bits {
        Some(cost) => cost,
        None => estimate(&provider, &raw.model, input_tokens, output_tokens),
    };
    UsageEntry {
        timestamp: raw.timestamp,
        provider,
        model: raw.model,
        input_tokens,
        output_tokens,
        cost_usd_bits,
    }
}

/// Turns a ledger of raw records into a ledger, record by record.
pub fn normalize_raw_usage<F: Fn(&String, &String, u64, u64) -> u64>(
    raw: RawUsageData,
    estimate: &F,
) -> (out: UsageData)
    requires
        forall|p: &String, m: &String, i: u64, o: u64| call_requires(estimate, (p, m, i, o)),
    ensures
        out.budget_usd_bits == raw.budget_usd_bits,
        out.entries@.len() == raw.entries@.len(),
        forall|k: int|
            0 <= k < raw.entries@.len() ==> normalizes(
                #[trigger] out.entries@[k],
                raw.entries@[k],
                estimate,
            ),
{
    let RawUsageData { budget_usd_bits, entries: raw_entries } = raw;
    let ghost all = raw_entries@;
    let mut entries: Vec<UsageEntry> = Vec::new();
    for entry in it: raw_entries
        invariant
            it.seq() == all,
            forall|p: &String, m: &String, i: u64, o: u64| call_requires(estimate, (p, m, i, o)),
            entries@.len() == it.index(),
            forall|k: int|
                0 <= k < it.index() ==> normalizes(#[trigger] entries@[k], all[k], estimate),
    {
        let ghost before = entries@;
        entries.push(normalize_entry(entry, estimate));
        proof {
            assert forall|k: int| 0 <= k < entries@.len() implies normalizes(
                #[trigger] entries@[k],
                all[k],
                estimate,
            ) by {
                if k < before.len() {
                    assert(entries@[k] == before[k]);
                }
            }
        }
    }
    UsageData { budget_usd_bits, entries }
}

/// The key under which the prices of one model of one provider are listed.
pub open spec fn pricing_key_of(provider: Seq<char>, model: Seq<char>) -> Seq<char> {
    provider + seq!['/'] + model
}

/// The key under which the prices of a provider are listed for every model
/// without prices of its own.
pub open spec fn wildcard_key_of(provider: Seq<char>) -> Seq<char> {
    provider + seq!['/', '*']
}

/// The key of the price list for `model` of `provider`.
pub fn pricing_key(provider: &str, model: &str) -> (out: String)
    ensures
        out@ == pricing_key_of(provider@, model@),
{
    let mut key = provider.to_owned();
    key.append("/");
    key.append(model);
    proof {
        reveal_strlit("/");
        assert(key@ =~= pricing_key_of(provider@, model@));
    }
    key
}

/// The key of the price list for the models of `provider` that have none
/// of their own.
pub fn wildcard_pricing_key(provider: &str) -> (out: String)
    ensures
        out@ == wildcard_key_of(provider@),
{
    let mut key = provider.to_owned();
    key.append("/*");
    proof {
        reveal_strlit("/*");
        assert(key@ =~= wildcard_key_of(provider@));
    }
    key
}

} // verus!
