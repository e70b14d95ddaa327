//! Standard OpenAI API token prices and the cost of a usage delta.
//!
//! Prices are held exactly, in thousandths of a US dollar per million tokens,
//! which is the same as billionths of a dollar ("nano-USD") per token. A cost is
//! therefore an exact integer number of nano-USD.

use crate::text::{after_last, ascii_lower, chars_after_last, chars_eq, chars_of, is_ascii_digit, lower_all, lower_chars, str_is, tail_boundary, trim, trim_chars, utf8_len, utf8_len_exceeds};
use vstd::prelude::*;

verus! {

/// Token counts of one usage event, or a running total of them.
#[derive(Clone, Copy, Debug, Default, PartialEq, Eq, Structural)]
pub struct TokenUsage {
    pub input_tokens: i64,
    pub cached_input_tokens: i64,
    pub output_tokens: i64,
    pub reasoning_output_tokens: i64,
    pub total_tokens: i64,
}

pub open spec fn clamp0(x: int) -> int {
    if x < 0 {
        0
    } else {
        x
    }
}

impl TokenUsage {
    /// Cached input tokens, never negative.
    pub open spec fn spec_cached_input(self) -> int {
        clamp0(self.cached_input_tokens as int)
    }

    /// Input tokens that were not served from the cache, never negative.
    pub open spec fn spec_non_cached_input(self) -> int {
        clamp0(self.input_tokens - self.spec_cached_input())
    }

    pub fn cached_input(&self) -> (res: i64)
        ensures
            res == self.spec_cached_input(),
    {
        if self.cached_input_tokens < 0 {
            0
        } else {
            self.cached_input_tokens
        }
    }

    pub fn non_cached_input(&self) -> (res: i64)
        ensures
            res == self.spec_non_cached_input(),
    {
        let cached = self.cached_input();
        if self.input_tokens <= cached {
            0
        } else {
            self.input_tokens - cached
        }
    }
}

/// An estimated cost, in nano-USD (10^-9 US dollars) per field.
#[derive(Clone, Copy, Debug, Default, PartialEq, Eq, Structural)]
pub struct UsageCostBreakdown {
    pub total_nano_usd: u128,
    pub input_nano_usd: u128,
    pub cached_input_nano_usd: u128,
    pub uncached_input_nano_usd: u128,
    pub output_nano_usd: u128,
    pub reasoning_output_nano_usd: u128,
}

pub open spec fn sat_add(a: u128, b: u128) -> u128 {
    if a + b > u128::MAX {
        u128::MAX
    } else {
        (a + b) as u128
    }
}

pub open spec fn spec_cost_sum(a: UsageCostBreakdown, b: UsageCostBreakdown) -> UsageCostBreakdown {
    UsageCostBreakdown {
        total_nano_usd: sat_add(a.total_nano_usd, b.total_nano_usd),
        input_nano_usd: sat_add(a.input_nano_usd, b.input_nano_usd),
        cached_input_nano_usd: sat_add(a.cached_input_nano_usd, b.cached_input_nano_usd),
        uncached_input_nano_usd: sat_add(a.uncached_input_nano_usd, b.uncached_input_nano_usd),
        output_nano_usd: sat_add(a.output_nano_usd, b.output_nano_usd),
        reasoning_output_nano_usd: sat_add(
            a.reasoning_output_nano_usd,
            b.reasoning_output_nano_usd,
        ),
    }
}

impl UsageCostBreakdown {
    /// Adds `other` field by field (saturating at `u128::MAX`).
    pub fn add_assign(&mut self, other: &Self)
        ensures
            *final(self) == spec_cost_sum(*old(self), *other),
    {
        self.total_nano_usd = self.total_nano_usd.saturating_add(other.total_nano_usd);
        self.input_nano_usd = self.input_nano_usd.saturating_add(other.input_nano_usd);
        self.cached_input_nano_usd = self.cached_input_nano_usd.saturating_add(
            other.cached_input_nano_usd,
        );
        self.uncached_input_nano_usd = self.uncached_input_nano_usd.saturating_add(
            other.uncached_input_nano_usd,
        );
        self.output_nano_usd = self.output_nano_usd.saturating_add(other.output_nano_usd);
        self.reasoning_output_nano_usd = self.reasoning_output_nano_usd.saturating_add(
            other.reasoning_output_nano_usd,
        );
    }
}

/// List prices of one model, in thousandths of a US dollar per million tokens.
#[derive(Clone, Copy, Debug, PartialEq, Eq, Structural)]
pub struct ModelTokenPricing {
    pub input_per_million_milli_usd: u32,
    pub cached_input_per_million_milli_usd: u32,
    pub output_per_million_milli_usd: u32,
}

pub open spec fn mk_pricing(input: u32, cached: u32, output: u32) -> ModelTokenPricing {
    ModelTokenPricing {
        input_per_million_milli_usd: input,
        cached_input_per_million_milli_usd: cached,
        output_per_million_milli_usd: output,
    }
}

/// Cost in nano-USD of `tokens` tokens (negative counts cost nothing).
pub open spec fn spec_cost_for_tokens(tokens: int, per_million_milli_usd: u32) -> int {
    clamp0(tokens) * per_million_milli_usd
}

pub fn cost_for_tokens(tokens: i64, per_million_milli_usd: u32) -> (res: u128)
    ensures
        res == spec_cost_for_tokens(tokens as int, per_million_milli_usd),
        res < 0x1_0000_0000_0000_0000_0000_0000u128,
{
    if tokens <= 0 {
        0
    } else {
        let t = tokens as u128;
        let p = per_million_milli_usd as u128;
        assert(t * p < 0x1_0000_0000_0000_0000_0000_0000u128) by (nonlinear_arith)
            requires
                t < 0x1_0000_0000_0000_0000u128,
                p < 0x1_0000_0000u128,
        ;
        t * p
    }
}

impl ModelTokenPricing {
    pub open spec fn spec_cost(self, usage: TokenUsage) -> UsageCostBreakdown {
        let cached = spec_cost_for_tokens(
            usage.spec_cached_input(),
            self.cached_input_per_million_milli_usd,
        );
        let uncached = spec_cost_for_tokens(
            usage.spec_non_cached_input(),
            self.input_per_million_milli_usd,
        );
        let output = spec_cost_for_tokens(
            usage.output_tokens as int,
            self.output_per_million_milli_usd,
        );
        let reasoning = spec_cost_for_tokens(
            usage.reasoning_output_tokens as int,
            self.output_per_million_milli_usd,
        );
        UsageCostBreakdown {
            total_nano_usd: (cached + uncached + output) as u128,
            input_nano_usd: (cached + uncached) as u128,
            cached_input_nano_usd: cached as u128,
            uncached_input_nano_usd: uncached as u128,
            output_nano_usd: output as u128,
            reasoning_output_nano_usd: reasoning as u128,
        }
    }

    /// The cost of `usage` at these prices.
    pub fn cost(&self, usage: &TokenUsage) -> (res: UsageCostBreakdown)
        ensures
            res == self.spec_cost(*usage),
    {
        let cached = cost_for_tokens(usage.cached_input(), self.cached_input_per_million_milli_usd);
        let uncached = cost_for_tokens(usage.non_cached_input(), self.input_per_million_milli_usd);
        let output = cost_for_tokens(usage.output_tokens, self.output_per_million_milli_usd);
        let reasoning = cost_for_tokens(
            usage.reasoning_output_tokens,
            self.output_per_million_milli_usd,
        );
        UsageCostBreakdown {
            total_nano_usd: cached + uncached + output,
            input_nano_usd: cached + uncached,
            cached_input_nano_usd: cached,
            uncached_input_nano_usd: uncached,
            output_nano_usd: output,
            reasoning_output_nano_usd: reasoning,
        }
    }
}

/// Standard OpenAI API list prices by model ID. Models outside this table are
/// not priced: a missing row must be noticed rather than priced as another model.
pub open spec fn spec_standard_pricing(model: Seq<char>) -> Option<ModelTokenPricing> {
    if model == "gpt-5.5"@ {
        Some(mk_pricing(5000, 500, 30000))
    } else if model == "gpt-5.4"@ {
        Some(mk_pricing(2500, 250, 15000))
    } else if model == "gpt-5.4-mini"@ {
        Some(mk_pricing(750, 75, 4500))
    } else if model == "gpt-5.4-nano"@ {
        Some(mk_pricing(200, 20, 1250))
    } else if model == "gpt-5.4-pro"@ {
        Some(mk_pricing(30000, 30000, 180000))
    } else if model == "gpt-5.3-codex"@ {
        Some(mk_pricing(1750, 175, 14000))
    } else if model == "gpt-5.2"@ {
        Some(mk_pricing(1750, 175, 14000))
    } else if model == "gpt-5.2-codex"@ {
        Some(mk_pricing(1750, 175, 14000))
    } else if model == "gpt-5.2-pro"@ {
        Some(mk_pricing(21000, 21000, 168000))
    } else if model == "gpt-5.1"@ {
        Some(mk_pricing(1250, 125, 10000))
    } else if model == "gpt-5.1-codex"@ {
        Some(mk_pricing(1250, 125, 10000))
    } else if model == "gpt-5.1-codex-max"@ {
        Some(mk_pricing(1250, 125, 10000))
    } else if model == "gpt-5"@ {
        Some(mk_pricing(1250, 125, 10000))
    } else if model == "gpt-5-codex"@ {
        Some(mk_pricing(1250, 125, 10000))
    } else if model == "gpt-5-mini"@ {
        Some(mk_pricing(250, 25, 2000))
    } else if model == "gpt-5-nano"@ {
        Some(mk_pricing(50, 5, 400))
    } else if model == "gpt-5-pro"@ {
        Some(mk_pricing(15000, 15000, 120000))
    } else {
        None
    }
}

fn model_is(model: &Vec<char>, name: &str) -> (res: bool)
    ensures
        res == (model@ == name@),
{
    chars_eq(model, &chars_of(name))
}

/// Looks up the list prices of a normalized model ID.
pub fn standard_pricing(model: &Vec<char>) -> (res: Option<ModelTokenPricing>)
    ensures
        res == spec_standard_pricing(model@),
{
    if model_is(model, "gpt-5.5") {
        Some(ModelTokenPricing { input_per_million_milli_usd: 5000, cached_input_per_million_milli_usd: 500, output_per_million_milli_usd: 30000 })
    } else if model_is(model, "gpt-5.4") {
        Some(ModelTokenPricing { input_per_million_milli_usd: 2500, cached_input_per_million_milli_usd: 250, output_per_million_milli_usd: 15000 })
    } else if model_is(model, "gpt-5.4-mini") {
        Some(ModelTokenPricing { input_per_million_milli_usd: 750, cached_input_per_million_milli_usd: 75, output_per_million_milli_usd: 4500 })
    } else if model_is(model, "gpt-5.4-nano") {
        Some(ModelTokenPricing { input_per_million_milli_usd: 200, cached_input_per_million_milli_usd: 20, output_per_million_milli_usd: 1250 })
    } else if model_is(model, "gpt-5.4-pro") {
        Some(ModelTokenPricing { input_per_million_milli_usd: 30000, cached_input_per_million_milli_usd: 30000, output_per_million_milli_usd: 180000 })
    } else if model_is(model, "gpt-5.3-codex") {
        Some(ModelTokenPricing { input_per_million_milli_usd: 1750, cached_input_per_million_milli_usd: 175, output_per_million_milli_usd: 14000 })
    } else if model_is(model, "gpt-5.2") {
        Some(ModelTokenPricing { input_per_million_milli_usd: 1750, cached_input_per_million_milli_usd: 175, output_per_million_milli_usd: 14000 })
    } else if model_is(model, "gpt-5.2-codex") {
        Some(ModelTokenPricing { input_per_million_milli_usd: 1750, cached_input_per_million_milli_usd: 175, output_per_million_milli_usd: 14000 })
    } else if model_is(model, "gpt-5.2-pro") {
        Some(ModelTokenPricing { input_per_million_milli_usd: 21000, cached_input_per_million_milli_usd: 21000, output_per_million_milli_usd: 168000 })
    } else if model_is(model, "gpt-5.1") {
        Some(ModelTokenPricing { input_per_million_milli_usd: 1250, cached_input_per_million_milli_usd: 125, output_per_million_milli_usd: 10000 })
    } else if model_is(model, "gpt-5.1-codex") {
        Some(ModelTokenPricing { input_per_million_milli_usd: 1250, cached_input_per_million_milli_usd: 125, output_per_million_milli_usd: 10000 })
    } else if model_is(model, "gpt-5.1-codex-max") {
        Some(ModelTokenPricing { input_per_million_milli_usd: 1250, cached_input_per_million_milli_usd: 125, output_per_million_milli_usd: 10000 })
    } else if model_is(model, "gpt-5") {
        Some(ModelTokenPricing { input_per_million_milli_usd: 1250, cached_input_per_million_milli_usd: 125, output_per_million_milli_usd: 10000 })
    } else if model_is(model, "gpt-5-codex") {
        Some(ModelTokenPricing { input_per_million_milli_usd: 1250, cached_input_per_million_milli_usd: 125, output_per_million_milli_usd: 10000 })
    } else if model_is(model, "gpt-5-mini") {
        Some(ModelTokenPricing { input_per_million_milli_usd: 250, cached_input_per_million_milli_usd: 25, output_per_million_milli_usd: 2000 })
    } else if model_is(model, "gpt-5-nano") {
        Some(ModelTokenPricing { input_per_million_milli_usd: 50, cached_input_per_million_milli_usd: 5, output_per_million_milli_usd: 400 })
    } else if model_is(model, "gpt-5-pro") {
        Some(ModelTokenPricing { input_per_million_milli_usd: 15000, cached_input_per_million_milli_usd: 15000, output_per_million_milli_usd: 120000 })
    } else {
        None
    }
}

/// Why a usage delta could not be priced.
#[derive(Clone, Copy, Debug, PartialEq, Eq, Structural)]
pub enum PricingLookupError {
    MissingModel,
    UnsupportedProvider,
    UnknownModel,
}

pub open spec fn spec_is_known_non_openai_provider(provider: Seq<char>) -> bool {
    ||| provider == "amazon-bedrock"@
    ||| provider == "lmstudio"@
    ||| provider == "ollama"@
    ||| provider == "oss"@
    ||| provider == "local"@
}

/// Providers whose models are never billed at OpenAI API prices.
pub fn is_known_non_openai_provider(provider: &str) -> (res: bool)
    ensures
        res == spec_is_known_non_openai_provider(provider@),
{
    str_is(provider, "amazon-bedrock") || str_is(provider, "lmstudio") || str_is(provider, "ollama")
        || str_is(provider, "oss") || str_is(provider, "local")
}

/// Whether `t` is `-YYYY-MM-DD`: a dash followed by a date written with ASCII digits.
pub open spec fn is_dated_suffix(t: Seq<char>) -> bool {
    &&& t.len() == 11
    &&& t[0] == '-'
    &&& t[5] == '-'
    &&& t[8] == '-'
    &&& forall|i: int|
        1 <= i < 11 && i != 5 && i != 8 ==> #[trigger] is_ascii_digit(t[i])
}

/// Whether stripping a snapshot date suffix would slice the string off a
/// character boundary, which panics: its UTF-8 form is longer than 11 bytes
/// and the last 10 bytes are not whole characters.
pub open spec fn strip_snapshot_panics(model: Seq<char>) -> bool {
    utf8_len(model) > 11 && !tail_boundary(model, 10)
}

/// `model` without a trailing `-YYYY-MM-DD` snapshot date.
pub open spec fn spec_strip_snapshot_date_suffix(model: Seq<char>) -> Seq<char> {
    if utf8_len(model) > 11 && model.len() >= 11 && is_dated_suffix(
        model.subrange(model.len() - 11, model.len() as int),
    ) {
        model.subrange(0, model.len() - 11)
    } else {
        model
    }
}

pub open spec fn date_char_ok(value: Seq<char>, start: int, j: int) -> bool {
    if j == 4 || j == 7 {
        value[start + j] == '-'
    } else {
        is_ascii_digit(value[start + j])
    }
}

/// Whether the 10 characters from `start` spell `YYYY-MM-DD`.
pub fn is_yyyy_mm_dd(value: &Vec<char>, start: usize) -> (res: bool)
    requires
        start + 10 <= value.len(),
    ensures
        res == (value@[start + 4] == '-' && value@[start + 7] == '-' && forall|i: int|
            0 <= i < 10 && i != 4 && i != 7 ==> #[trigger] is_ascii_digit(value@[start + i])),
{
    let mut i: usize = 0;
    while i < 10
        invariant
            start + 10 <= value.len(),
            i <= 10,
            forall|j: int| 0 <= j < i ==> #[trigger] date_char_ok(value@, start as int, j),
        decreases 10 - i,
    {
        let c = value[start + i];
        if i == 4 || i == 7 {
            if c != '-' {
                return false;
            }
        } else if !('0' <= c && c <= '9') {
            assert(!is_ascii_digit(value@[start + i]));
            return false;
        }
        i += 1;
    }
    assert(date_char_ok(value@, start as int, 4));
    assert(date_char_ok(value@, start as int, 7));
    assert forall|i: int| 0 <= i < 10 && i != 4 && i != 7 implies #[trigger] is_ascii_digit(
        value@[start + i],
    ) by {
        assert(date_char_ok(value@, start as int, i));
    }
    true
}

/// Drops a trailing `-YYYY-MM-DD` snapshot date from a model ID.
pub fn strip_snapshot_date_suffix(model: &Vec<char>) -> (res: Vec<char>)
    requires
        !strip_snapshot_panics(model@),
    ensures
        res@ == spec_strip_snapshot_date_suffix(model@),
{
    let n = model.len();
    if utf8_len_exceeds(model, 11) && n >= 11 && model[n - 11] == '-' && is_yyyy_mm_dd(
        model,
        n - 10,
    ) {
        let ghost t = model@.subrange(n - 11, n as int);
        assert(is_dated_suffix(t)) by {
            assert forall|i: int| 1 <= i < 11 && i != 5 && i != 8 implies #[trigger] is_ascii_digit(
                t[i],
            ) by {
                assert(t[i] == model@[(n - 10) + (i - 1)]);
            }
        }
        let mut res: Vec<char> = Vec::new();
        let mut i: usize = 0;
        while i < n - 11
            invariant
                n == model@.len(),
                n >= 11,
                i <= n - 11,
                res@ =~= model@.subrange(0, i as int),
            decreases n - 11 - i,
        {
            res.push(model[i]);
            i += 1;
        }
        res
    } else {
        proof {
            if utf8_len(model@) > 11 && n >= 11 {
                let t = model@.subrange(n - 11, n as int);
                if is_dated_suffix(t) {
                    assert(t[0] == model@[n - 11]);
                    assert forall|i: int| 0 <= i < 10 && i != 4 && i != 7 implies #[trigger] is_ascii_digit(
                        model@[(n - 10) + i],
                    ) by {
                        assert(model@[(n - 10) + i] == t[i + 1]);
                    }
                    assert(model@[(n - 10) + 4] == t[5]);
                    assert(model@[(n - 10) + 7] == t[8]);
                }
            }
        }
        model.clone()
    }
}

/// The characters of a model ID before normalization drops a snapshot date.
pub open spec fn model_id_suffix(model: Seq<char>) -> Seq<char> {
    after_last(lower_all(trim(model)), '/')
}

/// Whether normalizing `model` would slice a string off a character boundary.
pub open spec fn normalize_model_id_panics(model: Seq<char>) -> bool {
    strip_snapshot_panics(model_id_suffix(model))
}

/// The model ID used for price lookup: trimmed, ASCII-lowercased, last `/`
/// segment, without a snapshot date; `None` when that segment is empty.
pub open spec fn spec_normalize_model_id(model: Seq<char>) -> Option<Seq<char>> {
    let suffix = model_id_suffix(model);
    if suffix.len() == 0 {
        None
    } else {
        Some(spec_strip_snapshot_date_suffix(suffix))
    }
}

pub fn normalize_model_id(model: &str) -> (res: Option<Vec<char>>)
    requires
        !normalize_model_id_panics(model@),
    ensures
        res matches Some(m) ==> spec_normalize_model_id(model@) == Some(m@),
        res is None <==> spec_normalize_model_id(model@) is None,
{
    let trimmed = trim_chars(&chars_of(model));
    let lowercase = lower_chars(&trimmed);
    let suffix = chars_after_last(&lowercase, '/');
    if suffix.len() == 0 {
        return None;
    }
    Some(strip_snapshot_date_suffix(&suffix))
}

/// Whether pricing `model` would slice its ID off a character boundary, which panics.
pub open spec fn pricing_panics(model: Option<&str>) -> bool {
    model matches Some(m) && normalize_model_id_panics(m@)
}

pub open spec fn spec_estimate_openai_standard_cost(
    model_provider: Option<Seq<char>>,
    model: Option<Seq<char>>,
    usage: TokenUsage,
) -> Result<UsageCostBreakdown, PricingLookupError> {
    match model {
        None => Err(PricingLookupError::MissingModel),
        Some(m) => match spec_normalize_model_id(m) {
            None => Err(PricingLookupError::MissingModel),
            Some(normalized) => if model_provider matches Some(p)
                && spec_is_known_non_openai_provider(p) {
                Err(PricingLookupError::UnsupportedProvider)
            } else {
                match spec_standard_pricing(normalized) {
                    Some(pricing) => Ok(pricing.spec_cost(usage)),
                    None => Err(PricingLookupError::UnknownModel),
                }
            },
        },
    }
}

pub open spec fn opt_view(s: Option<&str>) -> Option<Seq<char>> {
    match s {
        Some(v) => Some(v@),
        None => None,
    }
}

/// Estimates the standard OpenAI API cost of `usage` for `model` served by
/// `model_provider`.
pub fn estimate_openai_standard_cost(
    model_provider: Option<&str>,
    model: Option<&str>,
    usage: &TokenUsage,
) -> (res: Result<UsageCostBreakdown, PricingLookupError>)
    requires
        !pricing_panics(model),
    ensures
        res == spec_estimate_openai_standard_cost(opt_view(model_provider), opt_view(model), *usage),
{
    let model = match model {
        Some(m) => m,
        None => return Err(PricingLookupError::MissingModel),
    };
    let normalized = match normalize_model_id(model) {
        Some(n) => n,
        None => return Err(PricingLookupError::MissingModel),
    };
    if let Some(provider) = model_provider {
        if is_known_non_openai_provider(provider) {
            return Err(PricingLookupError::UnsupportedProvider);
        }
    }
    match standard_pricing(&normalized) {
        Some(pricing) => Ok(pricing.cost(usage)),
        None => Err(PricingLookupError::UnknownModel),
    }
}

pub open spec fn spec_pricing_lookup_description(
    model_provider: Option<Seq<char>>,
    model: Option<Seq<char>>,
) -> Seq<char> {
    match (model_provider, model) {
        (Some(p), Some(m)) => p + "/"@ + m,
        (Some(p), None) => p + "/<missing-model>"@,
        (None, Some(m)) => m,
        (None, None) => "<missing-provider>/<missing-model>"@,
    }
}

/// The `provider/model` label under which an unpriced usage is reported.
pub fn pricing_lookup_description(model_provider: Option<&str>, model: Option<&str>) -> (res:
    String)
    ensures
        res@ == spec_pricing_lookup_description(opt_view(model_provider), opt_view(model)),
{
    match (model_provider, model) {
        (Some(provider), Some(model)) => {
            let mut s = String::from_str(provider);
            s.append("/");
            s.append(model);
            s
        },
        (Some(provider), None) => {
            let mut s = String::from_str(provider);
            s.append("/<missing-model>");
            s
        },
        (None, Some(model)) => String::from_str(model),
        (None, None) => String::from_str("<missing-provider>/<missing-model>"),
    }
}

proof fn lemma_cost_for_tokens_bound(tokens: int, per_million_milli_usd: u32)
    requires
        tokens <= 0x1_0000_0000_0000_0000,
    ensures
        0 <= spec_cost_for_tokens(tokens, per_million_milli_usd) <= 0x1_0000_0000_0000_0000_0000_0000,
{
    let t = clamp0(tokens);
    let p = per_million_milli_usd as int;
    assert(0 <= t * p <= 0x1_0000_0000_0000_0000 * 0x1_0000_0000) by (nonlinear_arith)
        requires
            0 <= t <= 0x1_0000_0000_0000_0000,
            0 <= p < 0x1_0000_0000,
    ;
}

/// A cost estimate adds up, at any prices and for any token counts (negative
/// counts cost nothing): the input cost is the cached plus the uncached input
/// cost, and the total is the input plus the output cost; reasoning is a share
/// of the output and is not added again.
pub proof fn lemma_cost_adds_up(pricing: ModelTokenPricing, usage: TokenUsage)
    ensures
        ({
            let c = pricing.spec_cost(usage);
            &&& c.input_nano_usd == c.cached_input_nano_usd + c.uncached_input_nano_usd
            &&& c.total_nano_usd == c.input_nano_usd + c.output_nano_usd
        }),
{
    lemma_cost_for_tokens_bound(usage.spec_cached_input(), pricing.cached_input_per_million_milli_usd);
    lemma_cost_for_tokens_bound(usage.spec_non_cached_input(), pricing.input_per_million_milli_usd);
    lemma_cost_for_tokens_bound(usage.output_tokens as int, pricing.output_per_million_milli_usd);
}

/// Every estimate the pricing table gives adds up as [`lemma_cost_adds_up`] says.
pub proof fn lemma_estimate_adds_up(model_provider: Option<Seq<char>>, model: Option<Seq<char>>, usage: TokenUsage)
    ensures
        spec_estimate_openai_standard_cost(model_provider, model, usage) matches Ok(c) ==> (c.input_nano_usd
            == c.cached_input_nano_usd + c.uncached_input_nano_usd && c.total_nano_usd == c.input_nano_usd
            + c.output_nano_usd),
{
    if let Some(m) = model {
        if let Some(normalized) = spec_normalize_model_id(m) {
            if let Some(pricing) = spec_standard_pricing(normalized) {
                lemma_cost_adds_up(pricing, usage);
            }
        }
    }
}

/// The list prices, in milli-USD per million tokens (input, cached input,
/// output), of each model the table knows.
pub proof fn lemma_standard_price_table()
    ensures
        spec_standard_pricing("gpt-5.5"@) == Some(
            ModelTokenPricing {
                input_per_million_milli_usd: 5000,
                cached_input_per_million_milli_usd: 500,
                output_per_million_milli_usd: 30000,
            },
        ),
        spec_standard_pricing("gpt-5.4"@) == Some(
            ModelTokenPricing {
                input_per_million_milli_usd: 2500,
                cached_input_per_million_milli_usd: 250,
                output_per_million_milli_usd: 15000,
            },
        ),
        spec_standard_pricing("gpt-5.4-mini"@) == Some(
            ModelTokenPricing {
                input_per_million_milli_usd: 750,
                cached_input_per_million_milli_usd: 75,
                output_per_million_milli_usd: 4500,
            },
        ),
        spec_standard_pricing("gpt-5.4-nano"@) == Some(
            ModelTokenPricing {
                input_per_million_milli_usd: 200,
                cached_input_per_million_milli_usd: 20,
                output_per_million_milli_usd: 1250,
            },
        ),
        spec_standard_pricing("gpt-5.4-pro"@) == Some(
            ModelTokenPricing {
                input_per_million_milli_usd: 30000,
                cached_input_per_million_milli_usd: 30000,
                output_per_million_milli_usd: 180000,
            },
        ),
        spec_standard_pricing("gpt-5.3-codex"@) == Some(
            ModelTokenPricing {
                input_per_million_milli_usd: 1750,
                cached_input_per_million_milli_usd: 175,
                output_per_million_milli_usd: 14000,
            },
        ),
        spec_standard_pricing("gpt-5.2"@) == Some(
            ModelTokenPricing {
                input_per_million_milli_usd: 1750,
                cached_input_per_million_milli_usd: 175,
                output_per_million_milli_usd: 14000,
            },
        ),
        spec_standard_pricing("gpt-5.2-codex"@) == Some(
            ModelTokenPricing {
                input_per_million_milli_usd: 1750,
                cached_input_per_million_milli_usd: 175,
                output_per_million_milli_usd: 14000,
            },
        ),
        spec_standard_pricing("gpt-5.2-pro"@) == Some(
            ModelTokenPricing {
                input_per_million_milli_usd: 21000,
                cached_input_per_million_milli_usd: 21000,
                output_per_million_milli_usd: 168000,
            },
        ),
        spec_standard_pricing("gpt-5.1"@) == Some(
            ModelTokenPricing {
                input_per_million_milli_usd: 1250,
                cached_input_per_million_milli_usd: 125,
                output_per_million_milli_usd: 10000,
            },
        ),
        spec_standard_pricing("gpt-5.1-codex"@) == Some(
            ModelTokenPricing {
                input_per_million_milli_usd: 1250,
                cached_input_per_million_milli_usd: 125,
                output_per_million_milli_usd: 10000,
            },
        ),
        spec_standard_pricing("gpt-5.1-codex-max"@) == Some(
            ModelTokenPricing {
                input_per_million_milli_usd: 1250,
                cached_input_per_million_milli_usd: 125,
                output_per_million_milli_usd: 10000,
            },
        ),
        spec_standard_pricing("gpt-5"@) == Some(
            ModelTokenPricing {
                input_per_million_milli_usd: 1250,
                cached_input_per_million_milli_usd: 125,
                output_per_million_milli_usd: 10000,
            },
        ),
        spec_standard_pricing("gpt-5-codex"@) == Some(
            ModelTokenPricing {
                input_per_million_milli_usd: 1250,
                cached_input_per_million_milli_usd: 125,
                output_per_million_milli_usd: 10000,
            },
        ),
        spec_standard_pricing("gpt-5-mini"@) == Some(
            ModelTokenPricing {
                input_per_million_milli_usd: 250,
                cached_input_per_million_milli_usd: 25,
                output_per_million_milli_usd: 2000,
            },
        ),
        spec_standard_pricing("gpt-5-nano"@) == Some(
            ModelTokenPricing {
                input_per_million_milli_usd: 50,
                cached_input_per_million_milli_usd: 5,
                output_per_million_milli_usd: 400,
            },
        ),
        spec_standard_pricing("gpt-5-pro"@) == Some(
            ModelTokenPricing {
                input_per_million_milli_usd: 15000,
                cached_input_per_million_milli_usd: 15000,
                output_per_million_milli_usd: 120000,
            },
        ),
        spec_standard_pricing("gpt-4o"@) is None,
{
    reveal_strlit("gpt-5.5");
    reveal_strlit("gpt-5.4");
    reveal_strlit("gpt-5.4-mini");
    reveal_strlit("gpt-5.4-nano");
    reveal_strlit("gpt-5.4-pro");
    reveal_strlit("gpt-5.3-codex");
    reveal_strlit("gpt-5.2");
    reveal_strlit("gpt-5.2-codex");
    reveal_strlit("gpt-5.2-pro");
    reveal_strlit("gpt-5.1");
    reveal_strlit("gpt-5.1-codex");
    reveal_strlit("gpt-5.1-codex-max");
    reveal_strlit("gpt-5");
    reveal_strlit("gpt-5-codex");
    reveal_strlit("gpt-5-mini");
    reveal_strlit("gpt-5-nano");
    reveal_strlit("gpt-5-pro");
    reveal_strlit("gpt-4o");
    assert("gpt-5.4"@[6] != "gpt-5.5"@[6]);
    assert("gpt-5.4-mini"@.len() != "gpt-5.5"@.len());
    assert("gpt-5.4-mini"@.len() != "gpt-5.4"@.len());
    assert("gpt-5.4-nano"@.len() != "gpt-5.5"@.len());
    assert("gpt-5.4-nano"@.len() != "gpt-5.4"@.len());
    assert("gpt-5.4-nano"@[8] != "gpt-5.4-mini"@[8]);
    assert("gpt-5.4-pro"@.len() != "gpt-5.5"@.len());
    assert("gpt-5.4-pro"@.len() != "gpt-5.4"@.len());
    assert("gpt-5.4-pro"@.len() != "gpt-5.4-mini"@.len());
    assert("gpt-5.4-pro"@.len() != "gpt-5.4-nano"@.len());
    assert("gpt-5.3-codex"@.len() != "gpt-5.5"@.len());
    assert("gpt-5.3-codex"@.len() != "gpt-5.4"@.len());
    assert("gpt-5.3-codex"@.len() != "gpt-5.4-mini"@.len());
    assert("gpt-5.3-codex"@.len() != "gpt-5.4-nano"@.len());
    assert("gpt-5.3-codex"@.len() != "gpt-5.4-pro"@.len());
    assert("gpt-5.2"@[6] != "gpt-5.5"@[6]);
    assert("gpt-5.2"@[6] != "gpt-5.4"@[6]);
    assert("gpt-5.2"@.len() != "gpt-5.4-mini"@.len());
    assert("gpt-5.2"@.len() != "gpt-5.4-nano"@.len());
    assert("gpt-5.2"@.len() != "gpt-5.4-pro"@.len());
    assert("gpt-5.2"@.len() != "gpt-5.3-codex"@.len());
    assert("gpt-5.2-codex"@.len() != "gpt-5.5"@.len());
    assert("gpt-5.2-codex"@.len() != "gpt-5.4"@.len());
    assert("gpt-5.2-codex"@.len() != "gpt-5.4-mini"@.len());
    assert("gpt-5.2-codex"@.len() != "gpt-5.4-nano"@.len());
    assert("gpt-5.2-codex"@.len() != "gpt-5.4-pro"@.len());
    assert("gpt-5.2-codex"@[6] != "gpt-5.3-codex"@[6]);
    assert("gpt-5.2-codex"@.len() != "gpt-5.2"@.len());
    assert("gpt-5.2-pro"@.len() != "gpt-5.5"@.len());
    assert("gpt-5.2-pro"@.len() != "gpt-5.4"@.len());
    assert("gpt-5.2-pro"@.len() != "gpt-5.4-mini"@.len());
    assert("gpt-5.2-pro"@.len() != "gpt-5.4-nano"@.len());
    assert("gpt-5.2-pro"@[6] != "gpt-5.4-pro"@[6]);
    assert("gpt-5.2-pro"@.len() != "gpt-5.3-codex"@.len());
    assert("gpt-5.2-pro"@.len() != "gpt-5.2"@.len());
    assert("gpt-5.2-pro"@.len() != "gpt-5.2-codex"@.len());
    assert("gpt-5.1"@[6] != "gpt-5.5"@[6]);
    assert("gpt-5.1"@[6] != "gpt-5.4"@[6]);
    assert("gpt-5.1"@.len() != "gpt-5.4-mini"@.len());
    assert("gpt-5.1"@.len() != "gpt-5.4-nano"@.len());
    assert("gpt-5.1"@.len() != "gpt-5.4-pro"@.len());
    assert("gpt-5.1"@.len() != "gpt-5.3-codex"@.len());
    assert("gpt-5.1"@[6] != "gpt-5.2"@[6]);
    assert("gpt-5.1"@.len() != "gpt-5.2-codex"@.len());
    assert("gpt-5.1"@.len() != "gpt-5.2-pro"@.len());
    assert("gpt-5.1-codex"@.len() != "gpt-5.5"@.len());
    assert("gpt-5.1-codex"@.len() != "gpt-5.4"@.len());
    assert("gpt-5.1-codex"@.len() != "gpt-5.4-mini"@.len());
    assert("gpt-5.1-codex"@.len() != "gpt-5.4-nano"@.len());
    assert("gpt-5.1-codex"@.len() != "gpt-5.4-pro"@.len());
    assert("gpt-5.1-codex"@[6] != "gpt-5.3-codex"@[6]);
    assert("gpt-5.1-codex"@.len() != "gpt-5.2"@.len());
    assert("gpt-5.1-codex"@[6] != "gpt-5.2-codex"@[6]);
    assert("gpt-5.1-codex"@.len() != "gpt-5.2-pro"@.len());
    assert("gpt-5.1-codex"@.len() != "gpt-5.1"@.len());
    assert("gpt-5.1-codex-max"@.len() != "gpt-5.5"@.len());
    assert("gpt-5.1-codex-max"@.len() != "gpt-5.4"@.len());
    assert("gpt-5.1-codex-max"@.len() != "gpt-5.4-mini"@.len());
    assert("gpt-5.1-codex-max"@.len() != "gpt-5.4-nano"@.len());
    assert("gpt-5.1-codex-max"@.len() != "gpt-5.4-pro"@.len());
    assert("gpt-5.1-codex-max"@.len() != "gpt-5.3-codex"@.len());
    assert("gpt-5.1-codex-max"@.len() != "gpt-5.2"@.len());
    assert("gpt-5.1-codex-max"@.len() != "gpt-5.2-codex"@.len());
    assert("gpt-5.1-codex-max"@.len() != "gpt-5.2-pro"@.len());
    assert("gpt-5.1-codex-max"@.len() != "gpt-5.1"@.len());
    assert("gpt-5.1-codex-max"@.len() != "gpt-5.1-codex"@.len());
    assert("gpt-5"@.len() != "gpt-5.5"@.len());
    assert("gpt-5"@.len() != "gpt-5.4"@.len());
    assert("gpt-5"@.len() != "gpt-5.4-mini"@.len());
    assert("gpt-5"@.len() != "gpt-5.4-nano"@.len());
    assert("gpt-5"@.len() != "gpt-5.4-pro"@.len());
    assert("gpt-5"@.len() != "gpt-5.3-codex"@.len());
    assert("gpt-5"@.len() != "gpt-5.2"@.len());
    assert("gpt-5"@.len() != "gpt-5.2-codex"@.len());
    assert("gpt-5"@.len() != "gpt-5.2-pro"@.len());
    assert("gpt-5"@.len() != "gpt-5.1"@.len());
    assert("gpt-5"@.len() != "gpt-5.1-codex"@.len());
    assert("gpt-5"@.len() != "gpt-5.1-codex-max"@.len());
    assert("gpt-5-codex"@.len() != "gpt-5.5"@.len());
    assert("gpt-5-codex"@.len() != "gpt-5.4"@.len());
    assert("gpt-5-codex"@.len() != "gpt-5.4-mini"@.len());
    assert("gpt-5-codex"@.len() != "gpt-5.4-nano"@.len());
    assert("gpt-5-codex"@[5] != "gpt-5.4-pro"@[5]);
    assert("gpt-5-codex"@.len() != "gpt-5.3-codex"@.len());
    assert("gpt-5-codex"@.len() != "gpt-5.2"@.len());
    assert("gpt-5-codex"@.len() != "gpt-5.2-codex"@.len());
    assert("gpt-5-codex"@[5] != "gpt-5.2-pro"@[5]);
    assert("gpt-5-codex"@.len() != "gpt-5.1"@.len());
    assert("gpt-5-codex"@.len() != "gpt-5.1-codex"@.len());
    assert("gpt-5-codex"@.len() != "gpt-5.1-codex-max"@.len());
    assert("gpt-5-codex"@.len() != "gpt-5"@.len());
    assert("gpt-5-mini"@.len() != "gpt-5.5"@.len());
    assert("gpt-5-mini"@.len() != "gpt-5.4"@.len());
    assert("gpt-5-mini"@.len() != "gpt-5.4-mini"@.len());
    assert("gpt-5-mini"@.len() != "gpt-5.4-nano"@.len());
    assert("gpt-5-mini"@.len() != "gpt-5.4-pro"@.len());
    assert("gpt-5-mini"@.len() != "gpt-5.3-codex"@.len());
    assert("gpt-5-mini"@.len() != "gpt-5.2"@.len());
    assert("gpt-5-mini"@.len() != "gpt-5.2-codex"@.len());
    assert("gpt-5-mini"@.len() != "gpt-5.2-pro"@.len());
    assert("gpt-5-mini"@.len() != "gpt-5.1"@.len());
    assert("gpt-5-mini"@.len() != "gpt-5.1-codex"@.len());
    assert("gpt-5-mini"@.len() != "gpt-5.1-codex-max"@.len());
    assert("gpt-5-mini"@.len() != "gpt-5"@.len());
    assert("gpt-5-mini"@.len() != "gpt-5-codex"@.len());
    assert("gpt-5-nano"@.len() != "gpt-5.5"@.len());
    assert("gpt-5-nano"@.len() != "gpt-5.4"@.len());
    assert("gpt-5-nano"@.len() != "gpt-5.4-mini"@.len());
    assert("gpt-5-nano"@.len() != "gpt-5.4-nano"@.len());
    assert("gpt-5-nano"@.len() != "gpt-5.4-pro"@.len());
    assert("gpt-5-nano"@.len() != "gpt-5.3-codex"@.len());
    assert("gpt-5-nano"@.len() != "gpt-5.2"@.len());
    assert("gpt-5-nano"@.len() != "gpt-5.2-codex"@.len());
    assert("gpt-5-nano"@.len() != "gpt-5.2-pro"@.len());
    assert("gpt-5-nano"@.len() != "gpt-5.1"@.len());
    assert("gpt-5-nano"@.len() != "gpt-5.1-codex"@.len());
    assert("gpt-5-nano"@.len() != "gpt-5.1-codex-max"@.len());
    assert("gpt-5-nano"@.len() != "gpt-5"@.len());
    assert("gpt-5-nano"@.len() != "gpt-5-codex"@.len());
    assert("gpt-5-nano"@[6] != "gpt-5-mini"@[6]);
    assert("gpt-5-pro"@.len() != "gpt-5.5"@.len());
    assert("gpt-5-pro"@.len() != "gpt-5.4"@.len());
    assert("gpt-5-pro"@.len() != "gpt-5.4-mini"@.len());
    assert("gpt-5-pro"@.len() != "gpt-5.4-nano"@.len());
    assert("gpt-5-pro"@.len() != "gpt-5.4-pro"@.len());
    assert("gpt-5-pro"@.len() != "gpt-5.3-codex"@.len());
    assert("gpt-5-pro"@.len() != "gpt-5.2"@.len());
    assert("gpt-5-pro"@.len() != "gpt-5.2-codex"@.len());
    assert("gpt-5-pro"@.len() != "gpt-5.2-pro"@.len());
    assert("gpt-5-pro"@.len() != "gpt-5.1"@.len());
    assert("gpt-5-pro"@.len() != "gpt-5.1-codex"@.len());
    assert("gpt-5-pro"@.len() != "gpt-5.1-codex-max"@.len());
    assert("gpt-5-pro"@.len() != "gpt-5"@.len());
    assert("gpt-5-pro"@.len() != "gpt-5-codex"@.len());
    assert("gpt-5-pro"@.len() != "gpt-5-mini"@.len());
    assert("gpt-5-pro"@.len() != "gpt-5-nano"@.len());
    assert("gpt-4o"@.len() != "gpt-5.5"@.len());
    assert("gpt-4o"@.len() != "gpt-5.4"@.len());
    assert("gpt-4o"@.len() != "gpt-5.4-mini"@.len());
    assert("gpt-4o"@.len() != "gpt-5.4-nano"@.len());
    assert("gpt-4o"@.len() != "gpt-5.4-pro"@.len());
    assert("gpt-4o"@.len() != "gpt-5.3-codex"@.len());
    assert("gpt-4o"@.len() != "gpt-5.2"@.len());
    assert("gpt-4o"@.len() != "gpt-5.2-codex"@.len());
    assert("gpt-4o"@.len() != "gpt-5.2-pro"@.len());
    assert("gpt-4o"@.len() != "gpt-5.1"@.len());
    assert("gpt-4o"@.len() != "gpt-5.1-codex"@.len());
    assert("gpt-4o"@.len() != "gpt-5.1-codex-max"@.len());
    assert("gpt-4o"@.len() != "gpt-5"@.len());
    assert("gpt-4o"@.len() != "gpt-5-codex"@.len());
    assert("gpt-4o"@.len() != "gpt-5-mini"@.len());
    assert("gpt-4o"@.len() != "gpt-5-nano"@.len());
    assert("gpt-4o"@.len() != "gpt-5-pro"@.len());
}

/// A price of `p` milli-USD per million tokens is `p` nano-USD per token: a
/// million tokens of each kind cost a million times their price.
pub proof fn lemma_million_tokens_cost_the_price(pricing: ModelTokenPricing)
    ensures
        ({
            let c = pricing.spec_cost(
                TokenUsage {
                    input_tokens: 2_000_000,
                    cached_input_tokens: 1_000_000,
                    output_tokens: 1_000_000,
                    reasoning_output_tokens: 1_000_000,
                    total_tokens: 3_000_000,
                },
            );
            &&& c.uncached_input_nano_usd == 1_000_000 * pricing.input_per_million_milli_usd
            &&& c.cached_input_nano_usd == 1_000_000 * pricing.cached_input_per_million_milli_usd
            &&& c.output_nano_usd == 1_000_000 * pricing.output_per_million_milli_usd
            &&& c.reasoning_output_nano_usd == 1_000_000 * pricing.output_per_million_milli_usd
        }),
{
}

/// Costs add over usage: pricing two spans of usage (each with non-negative
/// counts and no more cached than total input) separately gives the cost of
/// the two together.
pub proof fn lemma_cost_is_additive(pricing: ModelTokenPricing, a: TokenUsage, b: TokenUsage)
    requires
        0 <= a.cached_input_tokens <= a.input_tokens,
        0 <= b.cached_input_tokens <= b.input_tokens,
        0 <= a.output_tokens,
        0 <= b.output_tokens,
        0 <= a.reasoning_output_tokens,
        0 <= b.reasoning_output_tokens,
        a.input_tokens + b.input_tokens <= i64::MAX,
        a.output_tokens + b.output_tokens <= i64::MAX,
        a.reasoning_output_tokens + b.reasoning_output_tokens <= i64::MAX,
        a.total_tokens + b.total_tokens <= i64::MAX,
        i64::MIN <= a.total_tokens + b.total_tokens,
    ensures
        ({
            let sum = TokenUsage {
                input_tokens: (a.input_tokens + b.input_tokens) as i64,
                cached_input_tokens: (a.cached_input_tokens + b.cached_input_tokens) as i64,
                output_tokens: (a.output_tokens + b.output_tokens) as i64,
                reasoning_output_tokens: (a.reasoning_output_tokens + b.reasoning_output_tokens) as i64,
                total_tokens: (a.total_tokens + b.total_tokens) as i64,
            };
            let (ca, cb, c) = (pricing.spec_cost(a), pricing.spec_cost(b), pricing.spec_cost(sum));
            &&& c.uncached_input_nano_usd == ca.uncached_input_nano_usd + cb.uncached_input_nano_usd
            &&& c.cached_input_nano_usd == ca.cached_input_nano_usd + cb.cached_input_nano_usd
            &&& c.output_nano_usd == ca.output_nano_usd + cb.output_nano_usd
            &&& c.reasoning_output_nano_usd == ca.reasoning_output_nano_usd + cb.reasoning_output_nano_usd
            &&& c.total_nano_usd == ca.total_nano_usd + cb.total_nano_usd
        }),
{
    let pi = pricing.input_per_million_milli_usd as int;
    let pc = pricing.cached_input_per_million_milli_usd as int;
    let po = pricing.output_per_million_milli_usd as int;
    let ua = (a.input_tokens - a.cached_input_tokens) as int;
    let ub = (b.input_tokens - b.cached_input_tokens) as int;
    assert((ua + ub) * pi == ua * pi + ub * pi) by (nonlinear_arith);
    assert((a.cached_input_tokens + b.cached_input_tokens) * pc == a.cached_input_tokens * pc
        + b.cached_input_tokens * pc) by (nonlinear_arith);
    assert((a.output_tokens + b.output_tokens) * po == a.output_tokens * po + b.output_tokens * po)
        by (nonlinear_arith);
    assert((a.reasoning_output_tokens + b.reasoning_output_tokens) * po == a.reasoning_output_tokens * po
        + b.reasoning_output_tokens * po) by (nonlinear_arith);
    let sum = TokenUsage {
        input_tokens: (a.input_tokens + b.input_tokens) as i64,
        cached_input_tokens: (a.cached_input_tokens + b.cached_input_tokens) as i64,
        output_tokens: (a.output_tokens + b.output_tokens) as i64,
        reasoning_output_tokens: (a.reasoning_output_tokens + b.reasoning_output_tokens) as i64,
        total_tokens: (a.total_tokens + b.total_tokens) as i64,
    };
    assert(sum.spec_cached_input() == a.cached_input_tokens + b.cached_input_tokens);
    assert(sum.spec_non_cached_input() == ua + ub);
    assert(a.spec_non_cached_input() == ua);
    assert(b.spec_non_cached_input() == ub);
    lemma_cost_adds_up(pricing, a);
    lemma_cost_adds_up(pricing, b);
    lemma_cost_adds_up(pricing, sum);
    let (ca, cb, c) = (pricing.spec_cost(a), pricing.spec_cost(b), pricing.spec_cost(sum));
    assert(spec_cost_for_tokens(ua + ub, pricing.input_per_million_milli_usd) == ua * pi + ub * pi);
    assert(spec_cost_for_tokens(ua, pricing.input_per_million_milli_usd) == ua * pi);
    assert(spec_cost_for_tokens(ub, pricing.input_per_million_milli_usd) == ub * pi);
    lemma_cost_for_tokens_bound(ua, pi as u32);
    lemma_cost_for_tokens_bound(ub, pi as u32);
    lemma_cost_for_tokens_bound(a.cached_input_tokens as int, pc as u32);
    lemma_cost_for_tokens_bound(b.cached_input_tokens as int, pc as u32);
    assert(ca.uncached_input_nano_usd == ua * pi);
    assert(cb.uncached_input_nano_usd == ub * pi);
    assert(c.uncached_input_nano_usd == ua * pi + ub * pi);
    let xa = a.cached_input_tokens as int;
    let xb = b.cached_input_tokens as int;
    assert(a.spec_cached_input() == xa && b.spec_cached_input() == xb);
    assert(ca.cached_input_nano_usd == xa * pc);
    assert(cb.cached_input_nano_usd == xb * pc);
    assert(c.cached_input_nano_usd == (xa + xb) * pc);
    assert(c.uncached_input_nano_usd == ca.uncached_input_nano_usd + cb.uncached_input_nano_usd);
    assert(c.cached_input_nano_usd == ca.cached_input_nano_usd + cb.cached_input_nano_usd);
    let oa = a.output_tokens as int;
    let ob = b.output_tokens as int;
    let ra = a.reasoning_output_tokens as int;
    let rb = b.reasoning_output_tokens as int;
    lemma_cost_for_tokens_bound(oa, po as u32);
    lemma_cost_for_tokens_bound(ob, po as u32);
    lemma_cost_for_tokens_bound(ra, po as u32);
    lemma_cost_for_tokens_bound(rb, po as u32);
    lemma_cost_for_tokens_bound(ra + rb, po as u32);
    assert(ca.output_nano_usd == oa * po);
    assert(cb.output_nano_usd == ob * po);
    assert(c.output_nano_usd == (oa + ob) * po);
    assert(ca.reasoning_output_nano_usd == ra * po);
    assert(cb.reasoning_output_nano_usd == rb * po);
    assert(c.reasoning_output_nano_usd == (ra + rb) * po);
    assert(c.output_nano_usd == ca.output_nano_usd + cb.output_nano_usd);
    assert(c.reasoning_output_nano_usd == ca.reasoning_output_nano_usd + cb.reasoning_output_nano_usd);
    assert(ua * pi >= 0 && ub * pi >= 0) by (nonlinear_arith)
        requires ua >= 0, ub >= 0, pi >= 0;
    assert(a.cached_input_tokens * pc >= 0 && b.cached_input_tokens * pc >= 0) by (nonlinear_arith)
        requires a.cached_input_tokens >= 0, b.cached_input_tokens >= 0, pc >= 0;
    assert(a.output_tokens * po >= 0 && b.output_tokens * po >= 0 && a.reasoning_output_tokens * po >= 0
        && b.reasoning_output_tokens * po >= 0) by (nonlinear_arith)
        requires a.output_tokens >= 0, b.output_tokens >= 0, a.reasoning_output_tokens >= 0,
            b.reasoning_output_tokens >= 0, po >= 0;
    lemma_cost_for_tokens_bound(a.cached_input_tokens as int + b.cached_input_tokens, pc as u32);
    lemma_cost_for_tokens_bound(ua + ub, pi as u32);
    lemma_cost_for_tokens_bound(a.output_tokens as int + b.output_tokens, po as u32);
}

}
