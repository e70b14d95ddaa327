use codex_kit::rollout::pricing::{
    estimate_openai_standard_cost, pricing_lookup_description, PricingLookupError, TokenUsage,
    UsageCostBreakdown,
};

fn usage(input: i64, cached: i64, output: i64, reasoning: i64, total: i64) -> TokenUsage {
    TokenUsage {
        input_tokens: input,
        cached_input_tokens: cached,
        output_tokens: output,
        reasoning_output_tokens: reasoning,
        total_tokens: total,
    }
}

fn gpt_5_4_cost() -> UsageCostBreakdown {
    estimate_openai_standard_cost(
        Some("openai"),
        Some("gpt-5.4"),
        &usage(1_000_000, 400_000, 100_000, 25_000, 1_100_000),
    )
    .expect("pricing should exist")
}

const EXPECTED: UsageCostBreakdown = UsageCostBreakdown {
    total_nano_usd: 3_100_000_000,
    input_nano_usd: 1_600_000_000,
    cached_input_nano_usd: 100_000_000,
    uncached_input_nano_usd: 1_500_000_000,
    output_nano_usd: 1_500_000_000,
    reasoning_output_nano_usd: 375_000_000,
};

#[test]
fn usage_pricing_estimates_cached_uncached_and_output_costs() {
    assert_eq!(gpt_5_4_cost(), EXPECTED);
}

#[test]
fn usage_pricing_tests_estimates_cached_uncached_and_output_costs() {
    let cost = gpt_5_4_cost();
    assert_eq!(cost, EXPECTED);
    assert!((cost.total_nano_usd as f64 / 1e9 - 3.1).abs() < 1e-12);
}

fn snapshot_cost() -> UsageCostBreakdown {
    estimate_openai_standard_cost(
        Some("openai"),
        Some("gpt-5.4-2026-03-05"),
        &usage(1_000_000, 0, 0, 0, 1_000_000),
    )
    .expect("snapshot pricing should use base model")
}

#[test]
fn usage_pricing_prices_snapshot_model_ids_as_base_model() {
    assert_eq!(snapshot_cost().uncached_input_nano_usd, 2_500_000_000);
}

#[test]
fn usage_pricing_tests_prices_snapshot_model_ids_as_base_model() {
    assert_eq!(snapshot_cost().uncached_input_nano_usd, 2_500_000_000);
}

#[test]
fn usage_pricing_rejects_known_non_openai_provider() {
    assert_eq!(
        estimate_openai_standard_cost(Some("ollama"), Some("gpt-5.4"), &TokenUsage::default())
            .expect_err("local provider should not use OpenAI prices"),
        PricingLookupError::UnsupportedProvider
    );
}

#[test]
fn usage_pricing_tests_rejects_known_non_openai_provider() {
    assert_eq!(
        estimate_openai_standard_cost(Some("ollama"), Some("gpt-5.4"), &TokenUsage::default()),
        Err(PricingLookupError::UnsupportedProvider)
    );
}

#[test]
fn missing_model_and_unknown_model_are_reported() {
    assert_eq!(
        estimate_openai_standard_cost(Some("openai"), None, &TokenUsage::default()),
        Err(PricingLookupError::MissingModel)
    );
    assert_eq!(
        estimate_openai_standard_cost(Some("openai"), Some("no-such-model"), &TokenUsage::default()),
        Err(PricingLookupError::UnknownModel)
    );
}

#[test]
fn lookup_description_names_provider_and_model() {
    assert_eq!(pricing_lookup_description(Some("openai"), Some("gpt-5.4")), "openai/gpt-5.4");
    assert_eq!(pricing_lookup_description(Some("openai"), None), "openai/<missing-model>");
    assert_eq!(pricing_lookup_description(None, Some("gpt-5.4")), "gpt-5.4");
    assert_eq!(pricing_lookup_description(None, None), "<missing-provider>/<missing-model>");
}

#[test]
fn cost_sums_saturate() {
    let mut a = UsageCostBreakdown { total_nano_usd: u128::MAX - 1, ..UsageCostBreakdown::default() };
    a.add_assign(&UsageCostBreakdown { total_nano_usd: 5, input_nano_usd: 7, ..UsageCostBreakdown::default() });
    assert_eq!(a.total_nano_usd, u128::MAX);
    assert_eq!(a.input_nano_usd, 7);
}
