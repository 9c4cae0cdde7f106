use promptpetrol::models::{
    adapt_anthropic_tokens, adapt_codex_tokens, adapt_gemini_tokens, adapt_generic_tokens,
    adapt_openai_tokens, adapt_opus_tokens, default_codex_model, default_true, normalize_entry,
    normalize_raw_usage, pricing_key, split_with_total, wildcard_pricing_key, AppConfig,
    CodexImportConfig, RawUsageData, RawUsageEntry,
};

/// The rates per million tokens that a freshly seeded configuration lists.
fn seeded_rates(provider: &str, model: &str) -> Option<(f64, f64)> {
    let key = pricing_key(provider, model);
    match key.as_str() {
        "openai/gpt-4.1-mini" => Some((0.40, 1.60)),
        "anthropic/sonnet-3.7" => Some((3.00, 15.00)),
        "gemini/gemini-2.0-flash" => Some((0.35, 1.05)),
        _ => None,
    }
}

fn estimate(provider: &String, model: &String, input: u64, output: u64) -> u64 {
    let cost = match seeded_rates(provider, model) {
        Some((input_rate, output_rate)) => {
            (input as f64 / 1_000_000.0) * input_rate + (output as f64 / 1_000_000.0) * output_rate
        }
        None => 0.0,
    };
    cost.to_bits()
}

fn raw(provider: &str, model: &str) -> RawUsageEntry {
    RawUsageEntry {
        timestamp: "2026-02-10T03:15:00Z".to_string(),
        provider: provider.to_string(),
        model: model.to_string(),
        input_tokens: None,
        output_tokens: None,
        prompt_tokens: None,
        completion_tokens: None,
        request_tokens: None,
        response_tokens: None,
        prompt_token_count: None,
        candidates_token_count: None,
        total_tokens: None,
        total_token_count: None,
        cost_usd_bits: None,
    }
}

fn openai_entry() -> RawUsageData {
    RawUsageData {
        budget_usd_bits: Some(25.0f64.to_bits()),
        entries: vec![RawUsageEntry {
            prompt_tokens: Some(1200),
            completion_tokens: Some(300),
            ..raw("openai", "gpt-4.1-mini")
        }],
    }
}

fn gemini_entry() -> RawUsageData {
    RawUsageData {
        budget_usd_bits: Some(25.0f64.to_bits()),
        entries: vec![RawUsageEntry {
            total_token_count: Some(1000),
            ..raw("gemini", "gemini-2.0-flash")
        }],
    }
}

#[test]
fn main_normalizes_openai_entry() {
    let normalized = normalize_raw_usage(openai_entry(), &estimate);
    assert_eq!(normalized.entries[0].input_tokens, 1200);
    assert_eq!(normalized.entries[0].output_tokens, 300);
    assert!(f64::from_bits(normalized.entries[0].cost_usd_bits) > 0.0);
}

#[test]
fn models_normalizes_openai_entry() {
    let normalized = normalize_raw_usage(openai_entry(), &estimate);
    assert_eq!(normalized.entries[0].input_tokens, 1200);
    assert_eq!(normalized.entries[0].output_tokens, 300);
    assert!(f64::from_bits(normalized.entries[0].cost_usd_bits) > 0.0);
}

#[test]
fn main_normalizes_gemini_total_only() {
    let normalized = normalize_raw_usage(gemini_entry(), &estimate);
    assert_eq!(normalized.entries[0].input_tokens, 500);
    assert_eq!(normalized.entries[0].output_tokens, 500);
}

#[test]
fn models_normalizes_gemini_total_only() {
    let normalized = normalize_raw_usage(gemini_entry(), &estimate);
    assert_eq!(normalized.entries[0].input_tokens, 500);
    assert_eq!(normalized.entries[0].output_tokens, 500);
}

#[test]
fn normalizing_keeps_budget_order_and_stated_cost() {
    let data = RawUsageData {
        budget_usd_bits: Some(25.0f64.to_bits()),
        entries: vec![
            RawUsageEntry {
                input_tokens: Some(1),
                cost_usd_bits: Some(1.5f64.to_bits()),
                ..raw("openai", "gpt-4.1-mini")
            },
            RawUsageEntry {
                input_tokens: Some(1_000_000),
                output_tokens: Some(1_000_000),
                ..raw("Anthropic", "sonnet-3.7")
            },
        ],
    };
    let normalized = normalize_raw_usage(data, &estimate);
    assert_eq!(normalized.budget_usd_bits, Some(25.0f64.to_bits()));
    assert_eq!(normalized.entries.len(), 2);
    assert_eq!(f64::from_bits(normalized.entries[0].cost_usd_bits), 1.5);
    assert_eq!(normalized.entries[1].provider, "anthropic");
    assert_eq!(normalized.entries[1].model, "sonnet-3.7");
    assert_eq!(normalized.entries[1].timestamp, "2026-02-10T03:15:00Z");
    assert_eq!(f64::from_bits(normalized.entries[1].cost_usd_bits), 18.0);
}

#[test]
fn provider_is_lowercased_before_it_picks_the_naming() {
    let entry = normalize_entry(
        RawUsageEntry {
            prompt_token_count: Some(7),
            candidates_token_count: Some(9),
            request_tokens: Some(100),
            ..raw("GeMiNi", "gemini-2.0-flash")
        },
        &estimate,
    );
    assert_eq!(entry.provider, "gemini");
    assert_eq!((entry.input_tokens, entry.output_tokens), (7, 9));
    let other = normalize_entry(
        RawUsageEntry {
            request_tokens: Some(100),
            response_tokens: Some(50),
            ..raw("Mistral", "large")
        },
        &estimate,
    );
    assert_eq!(other.provider, "mistral");
    assert_eq!((other.input_tokens, other.output_tokens), (100, 50));
    assert_eq!(f64::from_bits(other.cost_usd_bits), 0.0);
}

#[test]
fn split_with_total_covers_every_case() {
    assert_eq!(split_with_total(3, 4, None), (3, 4));
    assert_eq!(split_with_total(0, 0, None), (0, 0));
    assert_eq!(split_with_total(0, 0, Some(1000)), (500, 500));
    assert_eq!(split_with_total(0, 0, Some(7)), (3, 4));
    assert_eq!(split_with_total(0, 0, Some(0)), (0, 0));
    assert_eq!(split_with_total(10, 20, Some(100)), (10, 90));
    assert_eq!(split_with_total(10, 0, Some(100)), (10, 90));
    assert_eq!(split_with_total(10, 20, Some(30)), (10, 20));
    assert_eq!(split_with_total(10, 20, Some(5)), (10, 20));
    assert_eq!(
        split_with_total(u64::MAX, 5, Some(u64::MAX)),
        (u64::MAX, 5)
    );
    assert_eq!(
        split_with_total(1, 0, Some(u64::MAX)),
        (1, u64::MAX - 1)
    );
}

#[test]
fn adapters_read_the_names_in_their_order() {
    let entry = RawUsageEntry {
        prompt_tokens: Some(2),
        request_tokens: Some(3),
        prompt_token_count: Some(4),
        completion_tokens: Some(20),
        response_tokens: Some(30),
        candidates_token_count: Some(40),
        ..raw("x", "y")
    };
    assert_eq!(adapt_openai_tokens(&entry), (2, 20));
    assert_eq!(adapt_codex_tokens(&entry), (2, 20));
    assert_eq!(adapt_anthropic_tokens(&entry), (2, 20));
    assert_eq!(adapt_gemini_tokens(&entry), (4, 40));
    assert_eq!(adapt_opus_tokens(&entry), (2, 20));
    assert_eq!(adapt_generic_tokens(&entry), (2, 20));

    let late = RawUsageEntry {
        request_tokens: Some(3),
        response_tokens: Some(30),
        total_token_count: Some(100),
        ..raw("x", "y")
    };
    assert_eq!(adapt_openai_tokens(&late), (3, 30));
    assert_eq!(adapt_gemini_tokens(&late), (50, 50));
    assert_eq!(adapt_opus_tokens(&late), (50, 50));
    assert_eq!(adapt_generic_tokens(&late), (3, 97));

    let counted = RawUsageEntry {
        input_tokens: Some(1),
        output_tokens: Some(1),
        prompt_token_count: Some(9),
        total_tokens: Some(10),
        total_token_count: Some(100),
        ..raw("x", "y")
    };
    assert_eq!(adapt_openai_tokens(&counted), (1, 9));
    assert_eq!(adapt_gemini_tokens(&counted), (1, 9));
}

#[test]
fn defaults_enable_the_import() {
    assert!(default_true());
    assert_eq!(default_codex_model(), "codex-cli");
    let config = CodexImportConfig::default();
    assert!(config.enabled);
    assert!(config.sessions_dir.is_none());
    assert_eq!(config.model, "codex-cli");
    let app = AppConfig::default();
    assert!(app.codex_import.enabled);
    assert_eq!(app.codex_import.model, "codex-cli");
}

#[test]
fn pricing_keys_join_provider_and_model() {
    assert_eq!(pricing_key("openai", "gpt-4.1-mini"), "openai/gpt-4.1-mini");
    assert_eq!(pricing_key("", ""), "/");
    assert_eq!(wildcard_pricing_key("codex"), "codex/*");
}
