//! Token usage per thread over rollout lines.
//!
//! A rollout line carries a timestamp and one item; token-count items hold
//! running totals, so a thread's usage is the sum of the positive steps
//! between consecutive totals that fall inside the report window. A forked
//! thread starts with lines copied from its parent; those are not counted
//! again.

use crate::rollout::pricing::{
    clamp0, estimate_openai_standard_cost, opt_view, pricing_lookup_description, pricing_panics,
    spec_cost_sum, spec_estimate_openai_standard_cost, spec_pricing_lookup_description, TokenUsage,
    UsageCostBreakdown,
};
use crate::text::{
    chars_of, concat2, concat3, decimal, decimal_string, is_unicode_whitespace, is_whitespace,
    join_with, opt_string_view, push_char, str_is,
};
use vstd::prelude::*;

verus! {

/// An instant as `time::OffsetDateTime` holds it: nanoseconds since the Unix
/// epoch and the UTC offset it was written with. The report orders and
/// matches instants by `unix_nanos` alone, as `OffsetDateTime` does.
#[derive(Clone, Copy, Debug, PartialEq, Eq, Structural)]
pub struct Timestamp {
    pub unix_nanos: i128,
    pub offset_seconds: i32,
}

/// The session metadata a rollout starts with.
#[derive(Clone, Debug, PartialEq, Eq)]
pub struct SessionMeta {
    pub thread_id: String,
    pub forked_from_id: Option<String>,
    pub model_provider: Option<String>,
    pub cwd: String,
}

/// One part of a message's content.
#[derive(Clone, Debug, PartialEq, Eq)]
pub enum PromptContent {
    InputText(String),
    Other,
}

/// The item of a rollout line, as far as usage accounting reads it.
#[derive(Clone, Debug, PartialEq, Eq)]
pub enum RolloutEntry {
    SessionMeta(SessionMeta),
    /// The turn settings; the model and working directory apply from here on.
    TurnContext { model: String, cwd: String },
    /// A token-count event, with the running total when it reports one.
    TokenCount(Option<TokenUsage>),
    /// A conversation message.
    Message { role: String, content: Vec<PromptContent> },
    Other,
}

/// One parsed rollout line. `item_json` is the item as canonical JSON text,
/// by which copied lines are recognised.
#[derive(Clone, Debug, PartialEq, Eq)]
pub struct UsageLine {
    /// The line's timestamp, when it parses.
    pub timestamp: Option<Timestamp>,
    pub entry: RolloutEntry,
    pub item_json: String,
}

pub open spec fn at_instant(line: UsageLine, ts: i128) -> bool {
    line.timestamp is Some && line.timestamp->Some_0.unix_nanos == ts
}

/// How many leading lines of `lines[i..]` carry the instant `ts`.
pub open spec fn same_timestamp_run(lines: Seq<UsageLine>, ts: i128, i: int) -> nat
    decreases lines.len() - i,
{
    if 0 <= i < lines.len() && at_instant(lines[i], ts) {
        1 + same_timestamp_run(lines, ts, i + 1)
    } else {
        0
    }
}

/// Without the parent, the copied prefix is taken to be the first line and
/// every following line written at the same instant.
pub open spec fn spec_prefix_end_by_fork_timestamp(lines: Seq<UsageLine>) -> nat {
    if lines.len() > 0 && lines[0].timestamp is Some {
        1 + same_timestamp_run(lines, lines[0].timestamp->Some_0.unix_nanos, 1)
    } else {
        1
    }
}

fn has_instant(line: &UsageLine, ts: i128) -> (res: bool)
    ensures
        res == at_instant(*line, ts),
{
    match line.timestamp {
        Some(t) => t.unix_nanos == ts,
        None => false,
    }
}

/// The end of the copied prefix when the parent's lines are not available.
pub fn copied_prefix_end_by_fork_timestamp(lines: &Vec<UsageLine>) -> (res: usize)
    ensures
        res == spec_prefix_end_by_fork_timestamp(lines@),
{
    if lines.len() == 0 {
        return 1;
    }
    let ts = match lines[0].timestamp {
        Some(t) => t.unix_nanos,
        None => return 1,
    };
    let n = lines.len();
    let mut i: usize = 1;
    while i < n && has_instant(&lines[i], ts)
        invariant
            n == lines@.len(),
            1 <= i <= n,
            same_timestamp_run(lines@, ts, 1) == (i - 1) + same_timestamp_run(lines@, ts, i as int),
        decreases n - i,
    {
        i += 1;
    }
    i
}

/// How many leading parent items reappear, in order, from `lines[1..]`.
pub open spec fn common_prefix(parent: Seq<Seq<char>>, lines: Seq<UsageLine>, k: int) -> nat
    decreases parent.len() - k,
{
    if 0 <= k < parent.len() && k + 1 < lines.len() && lines[k + 1].item_json@ == parent[k] {
        1 + common_prefix(parent, lines, k + 1)
    } else {
        0
    }
}

/// What is known of a fork's parent rollout.
#[derive(Clone, Debug, PartialEq, Eq)]
pub enum ForkParent {
    /// The rollout is not a fork.
    NotForked,
    /// The parent thread `parent_id` has no rollout file here.
    Unresolved { parent_id: String },
    /// The parent's items, as canonical JSON text.
    Items(Vec<String>),
}

pub open spec fn strings_of(v: Seq<String>) -> Seq<Seq<char>> {
    v.map_values(|s: String| s@)
}

/// The end of the lines a fork copied from its parent, and the warning when
/// the parent could not be read: the session line and then every line equal
/// to the parent's item at the same position.
pub open spec fn spec_copied_prefix_end(path: Seq<char>, lines: Seq<UsageLine>, parent: ForkParent) -> (
    nat,
    Option<Seq<char>>,
) {
    match parent {
        ForkParent::NotForked => (0, None),
        ForkParent::Unresolved { parent_id } => {
            let end = spec_prefix_end_by_fork_timestamp(lines);
            (
                end,
                Some(
                    "unable to resolve fork parent "@ + parent_id@ + " for "@ + path + "; skipped "@
                        + decimal((end - 1) as nat) + " fork-time copied lines by timestamp only"@,
                ),
            )
        },
        ForkParent::Items(items) => (1 + common_prefix(strings_of(items@), lines, 0), None),
    }
}

/// Finds where the lines a fork copied from its parent end; `path` names the
/// rollout in the warning given when the parent is unknown.
pub fn copied_prefix_end(path: &str, lines: &Vec<UsageLine>, parent: &ForkParent) -> (res: (
    usize,
    Option<String>,
))
    ensures
        res.0 == spec_copied_prefix_end(path@, lines@, *parent).0,
        opt_string_view(res.1) == spec_copied_prefix_end(path@, lines@, *parent).1,
{
    match parent {
        ForkParent::NotForked => (0, None),
        ForkParent::Unresolved { parent_id } => {
            let end = copied_prefix_end_by_fork_timestamp(lines);
            let mut msg = concat3("unable to resolve fork parent ", parent_id.as_str(), " for ");
            msg.append(path);
            msg.append("; skipped ");
            msg.append(decimal_string((end - 1) as u64).as_str());
            msg.append(" fork-time copied lines by timestamp only");
            (end, Some(msg))
        },
        ForkParent::Items(items) => {
            let ghost p = strings_of(items@);
            let n = items.len();
            let ln = lines.len();
            let mut k: usize = 0;
            while k < n && k + 1 < ln && str_is(lines[k + 1].item_json.as_str(), items[k].as_str())
                invariant
                    n == items@.len(),
                    p == strings_of(items@),
                    k <= n,
                    ln == lines@.len(),
                    k == 0 || k < ln,
                    common_prefix(p, lines@, 0) == k + common_prefix(p, lines@, k as int),
                decreases n - k,
            {
                k += 1;
            }
            (k + 1, None)
        },
    }
}

/// The metadata a usage report gives a thread.
pub struct MetadataV {
    pub thread_id: Option<Seq<char>>,
    pub forked_from_id: Option<Seq<char>>,
    pub model_provider: Option<Seq<char>>,
    pub model: Option<Seq<char>>,
    pub cwd: Option<Seq<char>>,
    pub first_prompt: Option<Seq<char>>,
}

/// The report metadata of a thread.
#[derive(Clone, Debug, PartialEq, Eq)]
pub struct ReportMetadata {
    pub thread_id: Option<String>,
    pub forked_from_id: Option<String>,
    pub model_provider: Option<String>,
    pub model: Option<String>,
    pub cwd: Option<String>,
    pub first_prompt: Option<String>,
}

impl View for ReportMetadata {
    type V = MetadataV;

    open spec fn view(&self) -> MetadataV {
        MetadataV {
            thread_id: opt_string_view(self.thread_id),
            forked_from_id: opt_string_view(self.forked_from_id),
            model_provider: opt_string_view(self.model_provider),
            model: opt_string_view(self.model),
            cwd: opt_string_view(self.cwd),
            first_prompt: opt_string_view(self.first_prompt),
        }
    }
}

pub open spec fn metadata_of_session(m: SessionMeta) -> MetadataV {
    MetadataV {
        thread_id: Some(m.thread_id@),
        forked_from_id: opt_string_view(m.forked_from_id),
        model_provider: opt_string_view(m.model_provider),
        model: None,
        cwd: Some(m.cwd@),
        first_prompt: None,
    }
}

/// The metadata of the first session line at or after `i`.
pub open spec fn metadata_from(lines: Seq<UsageLine>, i: int) -> Option<MetadataV>
    decreases lines.len() - i,
{
    if i < 0 || i >= lines.len() {
        None
    } else if lines[i].entry is SessionMeta {
        Some(metadata_of_session(lines[i].entry->SessionMeta_0))
    } else {
        metadata_from(lines, i + 1)
    }
}

/// The report metadata of the rollout's first session line, if any.
pub fn metadata_from_lines(lines: &Vec<UsageLine>) -> (res: Option<ReportMetadata>)
    ensures
        match metadata_from(lines@, 0) {
            Some(m) => res matches Some(r) && r@ == m,
            None => res is None,
        },
{
    let n = lines.len();
    let mut i: usize = 0;
    while i < n
        invariant
            n == lines@.len(),
            i <= n,
            metadata_from(lines@, 0) == metadata_from(lines@, i as int),
        decreases n - i,
    {
        if let RolloutEntry::SessionMeta(m) = &lines[i].entry {
            return Some(
                ReportMetadata {
                    thread_id: Some(m.thread_id.clone()),
                    forked_from_id: m.forked_from_id.clone(),
                    model_provider: m.model_provider.clone(),
                    model: None,
                    cwd: Some(m.cwd.clone()),
                    first_prompt: None,
                },
            );
        }
        i += 1;
    }
    None
}

/// The whitespace-separated words of `s` (`str::split_whitespace`).
pub open spec fn words(s: Seq<char>) -> Seq<Seq<char>>
    decreases s.len(),
{
    if s.len() == 0 {
        Seq::empty()
    } else if is_unicode_whitespace(s.last()) {
        words(s.drop_last())
    } else {
        let w = words(s.drop_last());
        if s.len() >= 2 && !is_unicode_whitespace(s[s.len() - 2]) && w.len() > 0 {
            w.update(w.len() - 1, w.last().push(s.last()))
        } else {
            w.push(seq![s.last()])
        }
    }
}

proof fn lemma_words_nonempty(s: Seq<char>)
    ensures
        s.len() > 0 && !is_unicode_whitespace(s.last()) ==> words(s).len() > 0,
        words(s).len() == 0 ==> join_with(words(s), " "@).len() == 0,
    decreases s.len(),
{
    if s.len() > 0 {
        lemma_words_nonempty(s.drop_last());
    }
}

proof fn lemma_join_push(parts: Seq<Seq<char>>, x: Seq<char>, sep: Seq<char>)
    ensures
        join_with(parts.push(x), sep) == if parts.len() == 0 {
            x
        } else {
            join_with(parts, sep) + sep + x
        },
{
    assert(parts.push(x).drop_last() =~= parts);
}

proof fn lemma_join_extend_last(parts: Seq<Seq<char>>, c: char, sep: Seq<char>)
    requires
        parts.len() > 0,
    ensures
        join_with(parts.update(parts.len() - 1, parts.last().push(c)), sep) == join_with(
            parts,
            sep,
        ).push(c),
{
    let u = parts.update(parts.len() - 1, parts.last().push(c));
    if parts.len() == 1 {
    } else {
        assert(u.drop_last() =~= parts.drop_last());
        assert((join_with(parts.drop_last(), sep) + sep + parts.last()).push(c) =~= join_with(
            parts.drop_last(),
            sep,
        ) + sep + parts.last().push(c));
    }
}

/// The words of `text` joined by single spaces.
pub open spec fn collapse_whitespace(text: Seq<char>) -> Seq<char> {
    join_with(words(text), " "@)
}

fn collapse_whitespace_exec(text: &str) -> (res: String)
    ensures
        res@ == collapse_whitespace(text@),
{
    let chars = chars_of(text);
    let n = chars.len();
    let mut out = String::new();
    let mut in_word = false;
    let mut i: usize = 0;
    proof {
        reveal_strlit(" ");
        assert(chars@.subrange(0, 0) =~= Seq::<char>::empty());
    }
    while i < n
        invariant
            n == chars@.len(),
            i <= n,
            out@ == join_with(words(chars@.subrange(0, i as int)), " "@),
            in_word == (i > 0 && !is_unicode_whitespace(chars@[i - 1])),
            (out@.len() == 0) == (words(chars@.subrange(0, i as int)).len() == 0),
        decreases n - i,
    {
        let c = chars[i];
        proof {
            reveal_strlit(" ");
        }
        let ghost prefix = chars@.subrange(0, i as int);
        let ghost next = chars@.subrange(0, i + 1);
        proof {
            assert(next.drop_last() =~= prefix);
            assert(next.last() == c);
            if i > 0 {
                assert(next[next.len() - 2] == chars@[i - 1]);
            }
            lemma_words_nonempty(prefix);
        }
        if is_whitespace(c) {
            in_word = false;
        } else {
            if in_word {
                push_char(&mut out, c);
                proof {
                    lemma_words_nonempty(prefix);
                    lemma_join_extend_last(words(prefix), c, " "@);
                }
            } else {
                let was_empty = out.as_str().is_empty();
                if !was_empty {
                    push_char(&mut out, ' ');
                }
                push_char(&mut out, c);
                proof {
                    lemma_join_push(words(prefix), seq![c], " "@);
                    if !was_empty {
                        assert(out@ =~= join_with(words(prefix), " "@) + " "@ + seq![c]);
                    } else {
                        assert(out@ =~= seq![c]);
                    }
                }
            }
            in_word = true;
        }
        i += 1;
    }
    assert(chars@.subrange(0, n as int) =~= chars@);
    out
}

/// At most `max` characters of `s`, with `...` appended when some were cut.
pub open spec fn spec_truncate_chars(s: Seq<char>, max: nat) -> Seq<char> {
    if s.len() <= max {
        s
    } else {
        s.take(max as int) + "..."@
    }
}

/// Cuts `text` to `max_chars` characters, marking a cut with `...`.
pub fn truncate_chars(text: &str, max_chars: usize) -> (res: String)
    ensures
        res@ == spec_truncate_chars(text@, max_chars as nat),
{
    let chars = chars_of(text);
    if chars.len() <= max_chars {
        return String::from_str(text);
    }
    let mut out = String::new();
    let mut i: usize = 0;
    while i < max_chars
        invariant
            chars@ == text@,
            max_chars < chars@.len(),
            i <= max_chars,
            out@ == chars@.take(i as int),
        decreases max_chars - i,
    {
        push_char(&mut out, chars[i]);
        assert(chars@.take(i + 1) =~= chars@.take(i as int).push(chars@[i as int]));
        i += 1;
    }
    out.append("...");
    out
}

/// The longest display text, in characters.
pub const DISPLAY_TEXT_CHARS: usize = 120;

/// Display text of a prompt: whitespace collapsed, cut to the display
/// limit; `None` when nothing is left.
pub open spec fn spec_normalize_display_text(text: Seq<char>) -> Option<Seq<char>> {
    let c = collapse_whitespace(text);
    if c.len() == 0 {
        None
    } else {
        Some(spec_truncate_chars(c, DISPLAY_TEXT_CHARS as nat))
    }
}

pub fn normalize_display_text(text: &str) -> (res: Option<String>)
    ensures
        opt_string_view(res) == spec_normalize_display_text(text@),
{
    let normalized = collapse_whitespace_exec(text);
    if normalized.as_str().is_empty() {
        None
    } else {
        Some(truncate_chars(normalized.as_str(), DISPLAY_TEXT_CHARS))
    }
}

/// The first input text of `content`, from index `i`, that has display text.
pub open spec fn first_display_text(content: Seq<PromptContent>, i: int) -> Option<Seq<char>>
    decreases content.len() - i,
{
    if i < 0 || i >= content.len() {
        None
    } else if content[i] is InputText && spec_normalize_display_text(content[i]->InputText_0@) is Some {
        spec_normalize_display_text(content[i]->InputText_0@)
    } else {
        first_display_text(content, i + 1)
    }
}

/// The prompt text of an item: the first displayable input text of a user message.
pub open spec fn prompt_of_entry(e: RolloutEntry) -> Option<Seq<char>> {
    match e {
        RolloutEntry::Message { role, content } => if role@ == "user"@ {
            first_display_text(content@, 0)
        } else {
            None
        },
        _ => None,
    }
}

/// The first prompt text among `lines[i..]`.
pub open spec fn first_prompt_from(lines: Seq<UsageLine>, i: int) -> Option<Seq<char>>
    decreases lines.len() - i,
{
    if i < 0 || i >= lines.len() {
        None
    } else if prompt_of_entry(lines[i].entry) is Some {
        prompt_of_entry(lines[i].entry)
    } else {
        first_prompt_from(lines, i + 1)
    }
}

/// The first prompt of a thread: looked for after the copied prefix first,
/// then anywhere.
pub open spec fn spec_first_prompt_text(lines: Seq<UsageLine>, prefix_end: nat) -> Option<Seq<char>> {
    let start = if prefix_end < lines.len() {
        prefix_end as int
    } else {
        lines.len() as int
    };
    match first_prompt_from(lines, start) {
        Some(p) => Some(p),
        None => first_prompt_from(lines, 0),
    }
}

fn prompt_of_entry_exec(e: &RolloutEntry) -> (res: Option<String>)
    ensures
        opt_string_view(res) == prompt_of_entry(*e),
{
    match e {
        RolloutEntry::Message { role, content } => {
            proof {
                reveal_strlit("user");
            }
            if !str_is(role.as_str(), "user") {
                return None;
            }
            let n = content.len();
            let mut i: usize = 0;
            while i < n
                invariant
                    prompt_of_entry(*e) == first_display_text(content@, 0),
                    n == content@.len(),
                    i <= n,
                    first_display_text(content@, 0) == first_display_text(content@, i as int),
                decreases n - i,
            {
                if let PromptContent::InputText(t) = &content[i] {
                    let d = normalize_display_text(t.as_str());
                    if d.is_some() {
                        return d;
                    }
                }
                i += 1;
            }
            None
        },
        _ => None,
    }
}

fn first_prompt_from_exec(lines: &Vec<UsageLine>, start: usize) -> (res: Option<String>)
    requires
        start <= lines@.len(),
    ensures
        opt_string_view(res) == first_prompt_from(lines@, start as int),
{
    let n = lines.len();
    let mut i = start;
    while i < n
        invariant
            n == lines@.len(),
            start <= i <= n,
            first_prompt_from(lines@, start as int) == first_prompt_from(lines@, i as int),
        decreases n - i,
    {
        let p = prompt_of_entry_exec(&lines[i].entry);
        if p.is_some() {
            return p;
        }
        i += 1;
    }
    None
}

/// The first prompt of a thread whose copied prefix ends at `prefix_end`.
pub fn first_prompt_text(lines: &Vec<UsageLine>, prefix_end: usize) -> (res: Option<String>)
    ensures
        opt_string_view(res) == spec_first_prompt_text(lines@, prefix_end as nat),
{
    let start = if prefix_end < lines.len() {
        prefix_end
    } else {
        lines.len()
    };
    match first_prompt_from_exec(lines, start) {
        Some(p) => Some(p),
        None => first_prompt_from_exec(lines, 0),
    }
}


/// Each field of `current - previous` fits in an `i64`.
pub open spec fn subtractable(current: TokenUsage, previous: TokenUsage) -> bool {
    &&& i64::MIN <= current.input_tokens - previous.input_tokens <= i64::MAX
    &&& i64::MIN <= current.cached_input_tokens - previous.cached_input_tokens <= i64::MAX
    &&& i64::MIN <= current.output_tokens - previous.output_tokens <= i64::MAX
    &&& i64::MIN <= current.reasoning_output_tokens - previous.reasoning_output_tokens <= i64::MAX
    &&& i64::MIN <= current.total_tokens - previous.total_tokens <= i64::MAX
}

/// The usage between two running totals: each field's increase, never
/// negative; the first total counts whole.
pub open spec fn spec_usage_delta(previous: Option<TokenUsage>, current: TokenUsage) -> TokenUsage {
    match previous {
        None => current,
        Some(p) => TokenUsage {
            input_tokens: clamp0(current.input_tokens - p.input_tokens) as i64,
            cached_input_tokens: clamp0(current.cached_input_tokens - p.cached_input_tokens) as i64,
            output_tokens: clamp0(current.output_tokens - p.output_tokens) as i64,
            reasoning_output_tokens: clamp0(
                current.reasoning_output_tokens - p.reasoning_output_tokens,
            ) as i64,
            total_tokens: clamp0(current.total_tokens - p.total_tokens) as i64,
        },
    }
}

/// A delta is what the running total grew by: added to the previous total it
/// gives the current one, field by field; a field that went down (a reset)
/// adds nothing; and the first total counts whole.
pub proof fn lemma_delta_restores_total(previous: TokenUsage, current: TokenUsage)
    requires
        subtractable(current, previous),
    ensures
        spec_usage_delta(None, current) == current,
        ({
            let d = spec_usage_delta(Some(previous), current);
            &&& d.input_tokens >= 0
            &&& current.input_tokens >= previous.input_tokens ==> previous.input_tokens + d.input_tokens == current.input_tokens
            &&& current.input_tokens < previous.input_tokens ==> d.input_tokens == 0
            &&& d.cached_input_tokens >= 0
            &&& current.cached_input_tokens >= previous.cached_input_tokens ==> previous.cached_input_tokens + d.cached_input_tokens == current.cached_input_tokens
            &&& current.cached_input_tokens < previous.cached_input_tokens ==> d.cached_input_tokens == 0
            &&& d.output_tokens >= 0
            &&& current.output_tokens >= previous.output_tokens ==> previous.output_tokens + d.output_tokens == current.output_tokens
            &&& current.output_tokens < previous.output_tokens ==> d.output_tokens == 0
            &&& d.reasoning_output_tokens >= 0
            &&& current.reasoning_output_tokens >= previous.reasoning_output_tokens ==> previous.reasoning_output_tokens + d.reasoning_output_tokens == current.reasoning_output_tokens
            &&& current.reasoning_output_tokens < previous.reasoning_output_tokens ==> d.reasoning_output_tokens == 0
            &&& d.total_tokens >= 0
            &&& current.total_tokens >= previous.total_tokens ==> previous.total_tokens + d.total_tokens == current.total_tokens
            &&& current.total_tokens < previous.total_tokens ==> d.total_tokens == 0
        }),
{
}

fn increase(current: i64, previous: i64) -> (res: i64)
    requires
        i64::MIN <= current - previous <= i64::MAX,
    ensures
        res == clamp0(current - previous),
{
    let d = current - previous;
    if d < 0 {
        0
    } else {
        d
    }
}

/// The usage between the running totals `previous` and `current`.
pub fn usage_delta(previous: Option<&TokenUsage>, current: &TokenUsage) -> (res: TokenUsage)
    requires
        previous matches Some(p) ==> subtractable(*current, *p),
    ensures
        res == spec_usage_delta(
            match previous {
                Some(p) => Some(*p),
                None => None,
            },
            *current,
        ),
{
    match previous {
        None => *current,
        Some(p) => TokenUsage {
            input_tokens: increase(current.input_tokens, p.input_tokens),
            cached_input_tokens: increase(current.cached_input_tokens, p.cached_input_tokens),
            output_tokens: increase(current.output_tokens, p.output_tokens),
            reasoning_output_tokens: increase(
                current.reasoning_output_tokens,
                p.reasoning_output_tokens,
            ),
            total_tokens: increase(current.total_tokens, p.total_tokens),
        },
    }
}

/// Token totals of a report.
#[derive(Clone, Copy, Debug, Default, PartialEq, Eq, Structural)]
pub struct UsageBreakdown {
    pub total_tokens: i64,
    pub input_tokens: i64,
    pub cached_input_tokens: i64,
    pub uncached_input_tokens: i64,
    pub output_tokens: i64,
    pub reasoning_output_tokens: i64,
}

/// The value of a [`UsageBreakdown`], as unbounded integers.
pub struct BreakdownV {
    pub total: int,
    pub input: int,
    pub cached: int,
    pub uncached: int,
    pub output: int,
    pub reasoning: int,
}

impl View for UsageBreakdown {
    type V = BreakdownV;

    open spec fn view(&self) -> BreakdownV {
        BreakdownV {
            total: self.total_tokens as int,
            input: self.input_tokens as int,
            cached: self.cached_input_tokens as int,
            uncached: self.uncached_input_tokens as int,
            output: self.output_tokens as int,
            reasoning: self.reasoning_output_tokens as int,
        }
    }
}

pub open spec fn zero_breakdown() -> BreakdownV {
    BreakdownV { total: 0, input: 0, cached: 0, uncached: 0, output: 0, reasoning: 0 }
}

/// `b` plus a usage delta: each field's non-negative part, the cached part
/// of the input and the rest of it.
pub open spec fn breakdown_add(b: BreakdownV, u: TokenUsage) -> BreakdownV {
    BreakdownV {
        total: b.total + clamp0(u.total_tokens as int),
        input: b.input + clamp0(u.input_tokens as int),
        cached: b.cached + u.spec_cached_input(),
        uncached: b.uncached + u.spec_non_cached_input(),
        output: b.output + clamp0(u.output_tokens as int),
        reasoning: b.reasoning + clamp0(u.reasoning_output_tokens as int),
    }
}

/// Every field of `b` fits in an `i64`.
pub open spec fn breakdown_fits(b: BreakdownV) -> bool {
    &&& i64::MIN <= b.total <= i64::MAX
    &&& i64::MIN <= b.input <= i64::MAX
    &&& i64::MIN <= b.cached <= i64::MAX
    &&& i64::MIN <= b.uncached <= i64::MAX
    &&& i64::MIN <= b.output <= i64::MAX
    &&& i64::MIN <= b.reasoning <= i64::MAX
}

fn nonneg(x: i64) -> (res: i64)
    ensures
        res == clamp0(x as int),
{
    if x < 0 {
        0
    } else {
        x
    }
}

impl UsageBreakdown {
    /// Adds a usage delta.
    pub fn add_usage(&mut self, usage: &TokenUsage)
        requires
            breakdown_fits(breakdown_add(old(self)@, *usage)),
        ensures
            final(self)@ == breakdown_add(old(self)@, *usage),
    {
        self.total_tokens = self.total_tokens + nonneg(usage.total_tokens);
        self.input_tokens = self.input_tokens + nonneg(usage.input_tokens);
        self.cached_input_tokens = self.cached_input_tokens + usage.cached_input();
        self.uncached_input_tokens = self.uncached_input_tokens + usage.non_cached_input();
        self.output_tokens = self.output_tokens + nonneg(usage.output_tokens);
        self.reasoning_output_tokens = self.reasoning_output_tokens + nonneg(
            usage.reasoning_output_tokens,
        );
    }
}

/// A thread's usage so far.
pub struct AccV {
    pub metadata: MetadataV,
    pub usage: BreakdownV,
    pub costs: UsageCostBreakdown,
    pub first_usage_at: Timestamp,
    pub last_usage_at: Timestamp,
    pub usage_events: nat,
    pub rollout_path: Seq<char>,
}

/// The state of a scan over a rollout's lines.
pub struct ScanV {
    /// The metadata in effect: the session's, with the latest turn's model and cwd.
    pub active: MetadataV,
    /// The latest running total seen.
    pub previous: Option<TokenUsage>,
    pub acc: Option<AccV>,
    /// Models without a price, each reported once.
    pub missing: Seq<Seq<char>>,
    pub warnings: Seq<Seq<char>>,
    /// No step so far overflows an `i64` or trips over a malformed model ID.
    pub ok: bool,
}

pub open spec fn missing_pricing_warning(description: Seq<char>) -> Seq<char> {
    "no OpenAI API pricing configured for "@ + description + "; cost estimate excludes those tokens"@
}

pub open spec fn model_panics(model: Option<Seq<char>>) -> bool {
    model matches Some(m) && crate::rollout::pricing::normalize_model_id_panics(m)
}

/// Counts one usage delta at `ts` into the thread, under the active metadata.
/// The first instant keeps the earlier of equal instants, the last the later.
pub open spec fn count_delta(s: ScanV, delta: TokenUsage, ts: Timestamp, path: Seq<char>) -> ScanV {
    let base = match s.acc {
        Some(a) => a,
        None => AccV {
            metadata: s.active,
            usage: zero_breakdown(),
            costs: UsageCostBreakdown {
                total_nano_usd: 0,
                input_nano_usd: 0,
                cached_input_nano_usd: 0,
                uncached_input_nano_usd: 0,
                output_nano_usd: 0,
                reasoning_output_nano_usd: 0,
            },
            first_usage_at: ts,
            last_usage_at: ts,
            usage_events: 0,
            rollout_path: path,
        },
    };
    let usage = breakdown_add(base.usage, delta);
    let ok = s.ok && breakdown_fits(usage) && !model_panics(s.active.model);
    let description = spec_pricing_lookup_description(s.active.model_provider, s.active.model);
    let (costs, missing, warnings) = match spec_estimate_openai_standard_cost(
        s.active.model_provider,
        s.active.model,
        delta,
    ) {
        Ok(c) => (spec_cost_sum(base.costs, c), s.missing, s.warnings),
        Err(_) => if s.missing.contains(description) {
            (base.costs, s.missing, s.warnings)
        } else {
            (
                base.costs,
                s.missing.push(description),
                s.warnings.push(missing_pricing_warning(description)),
            )
        },
    };
    ScanV {
        acc: Some(
            AccV {
                metadata: s.active,
                usage,
                costs,
                first_usage_at: if ts.unix_nanos < base.first_usage_at.unix_nanos {
                    ts
                } else {
                    base.first_usage_at
                },
                last_usage_at: if base.last_usage_at.unix_nanos <= ts.unix_nanos {
                    ts
                } else {
                    base.last_usage_at
                },
                usage_events: base.usage_events + 1,
                rollout_path: base.rollout_path,
            },
        ),
        missing,
        warnings,
        ok,
        ..s
    }
}

/// Whether the token count on line `index` at `timestamp` is counted: it is
/// past the copied prefix and inside `[since, until)`.
pub open spec fn counted(
    index: int,
    timestamp: Option<Timestamp>,
    prefix_end: nat,
    since: int,
    until: int,
) -> bool {
    &&& index >= prefix_end
    &&& timestamp matches Some(ts) && since <= ts.unix_nanos && ts.unix_nanos < until
}

/// One line of the scan.
pub open spec fn scan_step(
    s: ScanV,
    line: UsageLine,
    index: int,
    prefix_end: nat,
    since: int,
    until: int,
    path: Seq<char>,
) -> ScanV {
    let active = match line.entry {
        RolloutEntry::TurnContext { model, cwd } => MetadataV {
            model: Some(model@),
            cwd: Some(cwd@),
            ..s.active
        },
        _ => s.active,
    };
    let s1 = ScanV { active, ..s };
    match line.entry {
        RolloutEntry::TokenCount(Some(current)) => {
            let s2 = ScanV { previous: Some(current), ..s1 };
            if !counted(index, line.timestamp, prefix_end, since, until) {
                s2
            } else {
                let ok = s.ok && (s.previous matches Some(p) ==> subtractable(current, p));
                let delta = spec_usage_delta(s.previous, current);
                let s3 = ScanV { ok, ..s2 };
                if delta.total_tokens <= 0 {
                    s3
                } else {
                    count_delta(s3, delta, line.timestamp->Some_0, path)
                }
            }
        },
        _ => s1,
    }
}

/// The scan after the first `k` lines.
pub open spec fn scan(
    start: ScanV,
    lines: Seq<UsageLine>,
    k: nat,
    prefix_end: nat,
    since: int,
    until: int,
    path: Seq<char>,
) -> ScanV
    decreases k,
{
    if k == 0 {
        start
    } else {
        scan_step(
            scan(start, lines, (k - 1) as nat, prefix_end, since, until, path),
            lines[k - 1],
            k - 1,
            prefix_end,
            since,
            until,
            path,
        )
    }
}

/// The rollout's metadata with its first prompt, and its copied prefix.
pub open spec fn rollout_start(path: Seq<char>, lines: Seq<UsageLine>, parent: ForkParent) -> Option<
    (MetadataV, nat, Option<Seq<char>>),
> {
    match metadata_from(lines, 0) {
        None => None,
        Some(m) => {
            let (end, warning) = if m.forked_from_id is None {
                (0nat, None)
            } else {
                spec_copied_prefix_end(path, lines, parent)
            };
            Some((MetadataV { first_prompt: spec_first_prompt_text(lines, end), ..m }, end, warning))
        },
    }
}

/// The whole scan of a rollout with session metadata, starting from the
/// given missing-price list and warnings.
pub open spec fn spec_rollout_scan(
    path: Seq<char>,
    lines: Seq<UsageLine>,
    parent: ForkParent,
    since: int,
    until: int,
    missing: Seq<Seq<char>>,
    warnings: Seq<Seq<char>>,
) -> Option<ScanV> {
    match rollout_start(path, lines, parent) {
        None => None,
        Some((meta, end, warning)) => Some(
            scan(
                ScanV {
                    active: meta,
                    previous: None,
                    acc: None,
                    missing,
                    warnings: match warning {
                        Some(w) => warnings.push(w),
                        None => warnings,
                    },
                    ok: true,
                },
                lines,
                lines.len(),
                end,
                since,
                until,
                path,
            ),
        ),
    }
}

/// The rollout can be accounted without an arithmetic overflow or a
/// malformed model ID.
pub open spec fn rollout_accountable(
    path: Seq<char>,
    lines: Seq<UsageLine>,
    parent: ForkParent,
    since: int,
    until: int,
) -> bool {
    match spec_rollout_scan(path, lines, parent, since, until, Seq::empty(), Seq::empty()) {
        None => true,
        Some(s) => s.ok,
    }
}


/// A thread's usage as it accumulates over its rollout.
#[derive(Clone, Debug, PartialEq, Eq)]
pub struct ThreadUsageAccumulator {
    pub metadata: ReportMetadata,
    pub usage: UsageBreakdown,
    pub costs: UsageCostBreakdown,
    pub first_usage_at: Timestamp,
    pub last_usage_at: Timestamp,
    pub usage_events: usize,
    pub rollout_path: String,
}

impl View for ThreadUsageAccumulator {
    type V = AccV;

    open spec fn view(&self) -> AccV {
        AccV {
            metadata: self.metadata@,
            usage: self.usage@,
            costs: self.costs,
            first_usage_at: self.first_usage_at,
            last_usage_at: self.last_usage_at,
            usage_events: self.usage_events as nat,
            rollout_path: self.rollout_path@,
        }
    }
}

pub open spec fn opt_acc_view(a: Option<ThreadUsageAccumulator>) -> Option<AccV> {
    match a {
        Some(v) => Some(v@),
        None => None,
    }
}

fn clone_opt(s: &Option<String>) -> (res: Option<String>)
    ensures
        opt_string_view(res) == opt_string_view(*s),
{
    match s {
        Some(v) => Some(v.clone()),
        None => None,
    }
}

fn clone_metadata(m: &ReportMetadata) -> (res: ReportMetadata)
    ensures
        res@ == m@,
{
    ReportMetadata {
        thread_id: clone_opt(&m.thread_id),
        forked_from_id: clone_opt(&m.forked_from_id),
        model_provider: clone_opt(&m.model_provider),
        model: clone_opt(&m.model),
        cwd: clone_opt(&m.cwd),
        first_prompt: clone_opt(&m.first_prompt),
    }
}

fn as_opt_str(s: &Option<String>) -> (res: Option<&str>)
    ensures
        opt_view(res) == opt_string_view(*s),
{
    match s {
        Some(v) => Some(v.as_str()),
        None => None,
    }
}

/// Whether `s` is one of `v`.
pub fn contains_str(v: &Vec<String>, s: &str) -> (res: bool)
    ensures
        res == strings_of(v@).contains(s@),
{
    let n = v.len();
    let mut i: usize = 0;
    while i < n
        invariant
            n == v@.len(),
            i <= n,
            forall|j: int| 0 <= j < i ==> strings_of(v@)[j] != s@,
        decreases n - i,
    {
        if str_is(v[i].as_str(), s) {
            assert(strings_of(v@)[i as int] == s@);
            return true;
        }
        i += 1;
    }
    false
}

struct ScanState {
    active: ReportMetadata,
    previous: Option<TokenUsage>,
    acc: Option<ThreadUsageAccumulator>,
}

spec fn scan_view(st: ScanState, missing: Seq<String>, warnings: Seq<String>) -> ScanV {
    ScanV {
        active: st.active@,
        previous: st.previous,
        acc: opt_acc_view(st.acc),
        missing: strings_of(missing),
        warnings: strings_of(warnings),
        ok: true,
    }
}

fn count_usage(
    st: &mut ScanState,
    delta: &TokenUsage,
    ts: Timestamp,
    path: &str,
    missing: &mut Vec<String>,
    warnings: &mut Vec<String>,
)
    requires
        count_delta(scan_view(*old(st), old(missing)@, old(warnings)@), *delta, ts, path@).ok,
        old(st).acc matches Some(a) ==> a.usage_events < usize::MAX,
    ensures
        scan_view(*final(st), final(missing)@, final(warnings)@) == count_delta(
            scan_view(*old(st), old(missing)@, old(warnings)@),
            *delta,
            ts,
            path@,
        ),
{
    let ghost s = scan_view(*st, missing@, warnings@);
    let mut entry = match st.acc.take() {
        Some(a) => a,
        None => ThreadUsageAccumulator {
            metadata: clone_metadata(&st.active),
            usage: UsageBreakdown {
                total_tokens: 0,
                input_tokens: 0,
                cached_input_tokens: 0,
                uncached_input_tokens: 0,
                output_tokens: 0,
                reasoning_output_tokens: 0,
            },
            costs: UsageCostBreakdown {
                total_nano_usd: 0,
                input_nano_usd: 0,
                cached_input_nano_usd: 0,
                uncached_input_nano_usd: 0,
                output_nano_usd: 0,
                reasoning_output_nano_usd: 0,
            },
            first_usage_at: ts,
            last_usage_at: ts,
            usage_events: 0,
            rollout_path: String::from_str(path),
        },
    };
    entry.metadata = clone_metadata(&st.active);
    entry.usage.add_usage(delta);
    let provider = as_opt_str(&st.active.model_provider);
    let model = as_opt_str(&st.active.model);
    match estimate_openai_standard_cost(provider, model, delta) {
        Ok(costs) => entry.costs.add_assign(&costs),
        Err(_) => {
            let description = pricing_lookup_description(provider, model);
            if !contains_str(missing, description.as_str()) {
                let warning = concat3(
                    "no OpenAI API pricing configured for ",
                    description.as_str(),
                    "; cost estimate excludes those tokens",
                );
                let ghost d = description@;
                let ghost w = warning@;
                missing.push(description);
                warnings.push(warning);
                assert(strings_of(missing@) =~= s.missing.push(d));
                assert(strings_of(warnings@) =~= s.warnings.push(w));
            }
        },
    }
    if ts.unix_nanos < entry.first_usage_at.unix_nanos {
        entry.first_usage_at = ts;
    }
    if entry.last_usage_at.unix_nanos <= ts.unix_nanos {
        entry.last_usage_at = ts;
    }
    entry.usage_events = entry.usage_events + 1;
    st.acc = Some(entry);
    proof {
        let r = count_delta(s, *delta, ts, path@);
        assert(r.acc == opt_acc_view(st.acc));
        assert(r.missing == strings_of(missing@));
        assert(r.warnings == strings_of(warnings@));
        assert(scan_view(*st, missing@, warnings@) == r);
    }
}


proof fn lemma_scan_ok_monotone(
    start: ScanV,
    lines: Seq<UsageLine>,
    k: nat,
    m: nat,
    prefix_end: nat,
    since: int,
    until: int,
    path: Seq<char>,
)
    requires
        k <= m,
        scan(start, lines, m, prefix_end, since, until, path).ok,
    ensures
        scan(start, lines, k, prefix_end, since, until, path).ok,
    decreases m - k,
{
    if k < m {
        lemma_scan_ok_monotone(start, lines, k + 1, m, prefix_end, since, until, path);
    }
}

proof fn lemma_scan_events(
    start: ScanV,
    lines: Seq<UsageLine>,
    k: nat,
    prefix_end: nat,
    since: int,
    until: int,
    path: Seq<char>,
)
    requires
        start.acc is None,
    ensures
        scan(start, lines, k, prefix_end, since, until, path).acc matches Some(a) ==> a.usage_events
            <= k,
    decreases k,
{
    if k > 0 {
        lemma_scan_events(start, lines, (k - 1) as nat, prefix_end, since, until, path);
    }
}

fn scan_line(
    st: &mut ScanState,
    line: &UsageLine,
    index: usize,
    prefix_end: usize,
    since: i128,
    until: i128,
    path: &str,
    missing: &mut Vec<String>,
    warnings: &mut Vec<String>,
)
    requires
        scan_step(
            scan_view(*old(st), old(missing)@, old(warnings)@),
            *line,
            index as int,
            prefix_end as nat,
            since as int,
            until as int,
            path@,
        ).ok,
        old(st).acc matches Some(a) ==> a.usage_events < usize::MAX,
    ensures
        scan_view(*final(st), final(missing)@, final(warnings)@) == scan_step(
            scan_view(*old(st), old(missing)@, old(warnings)@),
            *line,
            index as int,
            prefix_end as nat,
            since as int,
            until as int,
            path@,
        ),
{
    let ghost s = scan_view(*st, missing@, warnings@);
    if let RolloutEntry::TurnContext { model, cwd } = &line.entry {
        st.active.model = Some(model.clone());
        st.active.cwd = Some(cwd.clone());
    }
    let ghost s1 = scan_view(*st, missing@, warnings@);
    if let RolloutEntry::TokenCount(Some(current)) = &line.entry {
        let current = *current;
        let is_counted = index >= prefix_end && match line.timestamp {
            Some(ts) => since <= ts.unix_nanos && ts.unix_nanos < until,
            None => false,
        };
        if !is_counted {
            st.previous = Some(current);
            return;
        }
        let ts = match line.timestamp {
            Some(ts) => ts,
            None => Timestamp { unix_nanos: 0, offset_seconds: 0 },
        };
        let delta = usage_delta(st.previous.as_ref(), &current);
        st.previous = Some(current);
        if delta.total_tokens > 0 {
            count_usage(st, &delta, ts, path, missing, warnings);
        }
    }
}

/// Accounts one rollout: `None` when it has no session line; otherwise the
/// thread's usage inside `[since, until)` past the lines copied from a fork
/// parent (`None` when none falls there). Models without a price are added
/// to `missing_pricing` once each, with a warning; a warning is also given
/// when a fork's parent is unknown.
pub fn usage_for_rollout(
    path: &str,
    lines: &Vec<UsageLine>,
    parent: &ForkParent,
    since: i128,
    until: i128,
    missing_pricing: &mut Vec<String>,
    warnings: &mut Vec<String>,
) -> (res: Option<ThreadUsageAccumulator>)
    requires
        spec_rollout_scan(
            path@,
            lines@,
            *parent,
            since as int,
            until as int,
            strings_of(old(missing_pricing)@),
            strings_of(old(warnings)@),
        ) matches Some(s) ==> s.ok,
    ensures
        match spec_rollout_scan(
            path@,
            lines@,
            *parent,
            since as int,
            until as int,
            strings_of(old(missing_pricing)@),
            strings_of(old(warnings)@),
        ) {
            None => res is None && final(missing_pricing)@ == old(missing_pricing)@
                && final(warnings)@ == old(warnings)@,
            Some(s) => opt_acc_view(res) == s.acc && strings_of(final(missing_pricing)@)
                == s.missing && strings_of(final(warnings)@) == s.warnings,
        },
{
    let metadata = match metadata_from_lines(lines) {
        None => return None,
        Some(m) => m,
    };
    let (end, warning) = if metadata.forked_from_id.is_none() {
        (0, None)
    } else {
        copied_prefix_end(path, lines, parent)
    };
    let ghost w0 = warnings@;
    match warning {
        Some(w) => {
            warnings.push(w);
        },
        None => {},
    }
    let mut active = metadata;
    active.first_prompt = first_prompt_text(lines, end);
    let mut st = ScanState { active, previous: None, acc: None };
    let ghost start = scan_view(st, missing_pricing@, warnings@);
    proof {
        if let Some((meta, e, wn)) = rollout_start(path@, lines@, *parent) {
            assert(e == end);
            assert(meta == start.active);
            assert(strings_of(warnings@) =~= match wn {
                Some(w) => strings_of(w0).push(w),
                None => strings_of(w0),
            });
        }
    }
    let n = lines.len();
    let mut i: usize = 0;
    proof {
        lemma_scan_ok_monotone(start, lines@, 0, n as nat, end as nat, since as int, until as int, path@);
    }
    while i < n
        invariant
            n == lines@.len(),
            i <= n,
            start.acc is None,
            scan(start, lines@, n as nat, end as nat, since as int, until as int, path@).ok,
            scan_view(st, missing_pricing@, warnings@) == scan(
                start,
                lines@,
                i as nat,
                end as nat,
                since as int,
                until as int,
                path@,
            ),
        decreases n - i,
    {
        proof {
            lemma_scan_ok_monotone(start, lines@, (i + 1) as nat, n as nat, end as nat, since as int, until as int, path@);
            lemma_scan_events(start, lines@, i as nat, end as nat, since as int, until as int, path@);
        }
        scan_line(&mut st, &lines[i], i, end, since, until, path, missing_pricing, warnings);
        i += 1;
    }
    st.acc
}


/// What `time::OffsetDateTime::parse` with the RFC 3339 format makes of `text`.
pub uninterp spec fn rfc3339_timestamp(text: Seq<char>) -> Option<Timestamp>;

/// Parses an RFC 3339 timestamp (`time::OffsetDateTime::parse` with
/// `Rfc3339`), keeping its instant and UTC offset; a `time::UtcOffset` is
/// at most 25:59:59 either way.
#[verifier::external_body]
fn parse_rfc3339(text: &str) -> (res: Option<Timestamp>)
    ensures
        res == rfc3339_timestamp(text@),
        res matches Some(t) ==> offset_ok(t),
{
    match time::OffsetDateTime::parse(text, &time::format_description::well_known::Rfc3339) {
        Ok(t) => Some(Timestamp { unix_nanos: t.unix_timestamp_nanos(), offset_seconds: t.offset().whole_seconds() }),
        Err(_) => None,
    }
}

/// What `time::PrimitiveDateTime::parse` with `[year]-[month]-[day]T[hour]:[minute]:[second]`
/// makes of `text`, as nanoseconds since the epoch when taken as UTC.
pub uninterp spec fn naive_utc_instant(text: Seq<char>) -> Option<i128>;

/// Parses a date and time without offset (`time::PrimitiveDateTime::parse`),
/// taken as UTC (`assume_utc`).
#[verifier::external_body]
fn parse_naive_utc(text: &str) -> (res: Option<i128>)
    ensures
        res == naive_utc_instant(text@),
{
    let format = time::format_description::parse("[year]-[month]-[day]T[hour]:[minute]:[second]");
    match format {
        Ok(f) => match time::PrimitiveDateTime::parse(text, &f) {
            Ok(dt) => Some(dt.assume_utc().unix_timestamp_nanos()),
            Err(_) => None,
        },
        Err(_) => None,
    }
}

/// The first and last day `time::Date` can hold, in days since 1970-01-01.
pub const MIN_DAY: i64 = -4371587;
pub const MAX_DAY: i64 = 2932896;

/// The Julian day numbers of the first and last day `time::Date` holds.
pub const MIN_JULIAN_DAY: i32 = -1930999;
pub const MAX_JULIAN_DAY: i32 = 5373484;

/// The Julian day number of 1970-01-01.
pub const UNIX_EPOCH_JULIAN_DAY: i64 = 2440588;

/// The Julian day number of the date that `time::Date::parse` with
/// `[year]-[month]-[day]` reads in `text`.
pub uninterp spec fn date_julian_day(text: Seq<char>) -> Option<i32>;

/// What `text` holds as a date, in days since 1970-01-01.
pub open spec fn date_days(text: Seq<char>) -> Option<i64> {
    match date_julian_day(text) {
        Some(j) => Some((j - UNIX_EPOCH_JULIAN_DAY) as i64),
        None => None,
    }
}

/// Parses a `YYYY-MM-DD` date (`time::Date::parse`) and gives its Julian day
/// number (`Date::to_julian_day`), which lies within the range `time::Date`
/// holds.
#[verifier::external_body]
fn parse_julian_day(text: &str) -> (res: Option<i32>)
    ensures
        res == date_julian_day(text@),
        res matches Some(j) ==> MIN_JULIAN_DAY <= j <= MAX_JULIAN_DAY,
{
    let format = time::format_description::parse("[year]-[month]-[day]");
    match format {
        Ok(f) => match time::Date::parse(text, &f) {
            Ok(d) => Some(d.to_julian_day()),
            Err(_) => None,
        },
        Err(_) => None,
    }
}

/// The date in `text`, in days since 1970-01-01.
fn parse_date_days(text: &str) -> (res: Option<i64>)
    ensures
        res == date_days(text@),
        res matches Some(d) ==> MIN_DAY <= d <= MAX_DAY,
{
    match parse_julian_day(text) {
        Some(j) => Some(j as i64 - UNIX_EPOCH_JULIAN_DAY),
        None => None,
    }
}

/// What RFC 3339 formatting (`OffsetDateTime::format` with `Rfc3339`) writes
/// for the instant in its own offset, if it can be written.
pub uninterp spec fn rfc3339_text(t: Timestamp) -> Option<Seq<char>>;

/// Formats an instant in its offset as RFC 3339 (`time::OffsetDateTime::format`);
/// `None` where the time crate cannot hold or format it.
#[verifier::external_body]
fn format_rfc3339(t: Timestamp) -> (res: Option<String>)
    ensures
        opt_string_view(res) == rfc3339_text(t),
{
    let utc = time::OffsetDateTime::from_unix_timestamp_nanos(t.unix_nanos).ok()?;
    let offset = time::UtcOffset::from_whole_seconds(t.offset_seconds).ok()?;
    let local = utc.checked_to_offset(offset)?;
    local.format(&time::format_description::well_known::Rfc3339).ok()
}

/// `n` in decimal with a leading `-` when negative (`i64::to_string`).
pub open spec fn signed_decimal(n: int) -> Seq<char> {
    if n < 0 {
        "-"@ + decimal((-n) as nat)
    } else {
        decimal(n as nat)
    }
}

fn signed_decimal_string(n: i128) -> (res: String)
    requires
        n > i128::MIN,
    ensures
        res@ == signed_decimal(n as int),
{
    if n < 0 {
        let magnitude = (0 - n) as u128;
        concat2("-", crate::text::decimal_string_u128(magnitude).as_str())
    } else {
        crate::text::decimal_string_u128(n as u128)
    }
}

/// Whole seconds since the epoch (`OffsetDateTime::unix_timestamp`).
pub open spec fn unix_seconds(t: Timestamp) -> int {
    t.unix_nanos as int / 1_000_000_000
}

/// A report time: RFC 3339 in the instant's own offset, or the Unix
/// seconds when it cannot be written so.
pub open spec fn spec_format_time(t: Timestamp) -> Seq<char> {
    spec_time_text(t, rfc3339_text(t))
}

/// The report text of `t` given its RFC 3339 text, if it has one.
pub open spec fn spec_time_text(t: Timestamp, rfc3339: Option<Seq<char>>) -> Seq<char> {
    match rfc3339 {
        Some(s) => s,
        None => signed_decimal(unix_seconds(t)),
    }
}

pub fn format_time(t: Timestamp) -> (res: String)
    ensures
        res@ == spec_format_time(t),
{
    time_text(t, format_rfc3339(t))
}

/// The report text of `t`: `rfc3339`, the instant's RFC 3339 text, when it
/// has one, else its Unix seconds.
pub fn time_text(t: Timestamp, rfc3339: Option<String>) -> (res: String)
    ensures
        res@ == spec_time_text(t, opt_string_view(rfc3339)),
{
    match rfc3339 {
        Some(s) => s,
        None => {
            let secs = match t.unix_nanos.checked_div_euclid(1_000_000_000) {
                Some(s) => s,
                None => 0,
            };
            signed_decimal_string(secs)
        },
    }
}

/// A rollout line's timestamp: RFC 3339, or a date and time without offset
/// taken as UTC.
pub open spec fn spec_parse_rollout_timestamp(raw: Seq<char>) -> Option<Timestamp> {
    match rfc3339_timestamp(raw) {
        Some(t) => Some(t),
        None => match naive_utc_instant(raw) {
            Some(n) => Some(Timestamp { unix_nanos: n, offset_seconds: 0 }),
            None => None,
        },
    }
}

pub fn parse_rollout_timestamp(raw: &str) -> (res: Option<Timestamp>)
    ensures
        res == spec_parse_rollout_timestamp(raw@),
{
    match parse_rfc3339(raw) {
        Some(t) => Some(t),
        None => match parse_naive_utc(raw) {
            Some(n) => Some(Timestamp { unix_nanos: n, offset_seconds: 0 }),
            None => None,
        },
    }
}

/// The instant rounded down to a whole millisecond, in the same offset.
pub open spec fn spec_truncate_to_millis(t: Timestamp) -> Timestamp {
    Timestamp { unix_nanos: (t.unix_nanos - t.unix_nanos as int % 1_000_000) as i128, offset_seconds: t.offset_seconds }
}

pub fn truncate_to_millis(t: Timestamp) -> (res: Option<Timestamp>)
    requires
        i128::MIN + 1_000_000 <= t.unix_nanos,
    ensures
        res == Some(spec_truncate_to_millis(t)),
{
    let r = match t.unix_nanos.checked_rem_euclid(1_000_000) {
        Some(r) => r,
        None => 0,
    };
    Some(Timestamp { unix_nanos: t.unix_nanos - r, offset_seconds: t.offset_seconds })
}


/// The value of a run of ASCII digits.
pub open spec fn digits_value(s: Seq<char>) -> int
    decreases s.len(),
{
    if s.len() == 0 {
        0
    } else {
        digits_value(s.drop_last()) * 10 + (s.last() as int - '0' as int)
    }
}

pub open spec fn all_ascii_digits(s: Seq<char>) -> bool {
    s.len() > 0 && forall|i: int| 0 <= i < s.len() ==> crate::text::is_ascii_digit(#[trigger] s[i])
}

/// `str::parse::<i64>`: an optional `+` or `-` and at least one ASCII digit,
/// with a value in range.
pub open spec fn spec_parse_i64(s: Seq<char>) -> Option<i64> {
    let signed = s.len() > 0 && (s[0] == '+' || s[0] == '-');
    let body = if signed {
        s.drop_first()
    } else {
        s
    };
    let value = if signed && s[0] == '-' {
        -digits_value(body)
    } else {
        digits_value(body)
    };
    if all_ascii_digits(body) && i64::MIN <= value <= i64::MAX {
        Some(value as i64)
    } else {
        None
    }
}

/// The value of an ASCII digit.
fn digit_of(c: char) -> (res: Option<u32>)
    ensures
        crate::text::is_ascii_digit(c) ==> res == Some((c as int - '0' as int) as u32),
        !crate::text::is_ascii_digit(c) ==> res is None,
{
    match c {
        '0' => Some(0),
        '1' => Some(1),
        '2' => Some(2),
        '3' => Some(3),
        '4' => Some(4),
        '5' => Some(5),
        '6' => Some(6),
        '7' => Some(7),
        '8' => Some(8),
        '9' => Some(9),
        _ => None,
    }
}

/// The value of the ASCII digits `cs[start..]` when there is at least one,
/// all are digits and the value is at most `limit`.
pub(crate) fn bounded_digits(cs: &Vec<char>, start: usize, limit: u64) -> (res: Option<u64>)
    requires
        start <= cs@.len(),
    ensures
        res == (if all_ascii_digits(cs@.subrange(start as int, cs@.len() as int)) && digits_value(
            cs@.subrange(start as int, cs@.len() as int),
        ) <= limit {
            Some(digits_value(cs@.subrange(start as int, cs@.len() as int)) as u64)
        } else {
            None::<u64>
        }),
{
    let n = cs.len();
    if start >= n {
        return None;
    }
    let cap: u128 = limit as u128 + 1;
    let mut value: u128 = 0;
    let mut i: usize = start;
    while i < n
        invariant
            n == cs@.len(),
            start < n,
            start <= i <= n,
            cap == limit + 1,
            forall|k: int| start <= k < i ==> crate::text::is_ascii_digit(#[trigger] cs@[k]),
            digits_value(cs@.subrange(start as int, i as int)) <= limit ==> value == digits_value(
                cs@.subrange(start as int, i as int),
            ),
            digits_value(cs@.subrange(start as int, i as int)) > limit ==> value == cap,
        decreases n - i,
    {
        let c = cs[i];
        let d: u128 = match digit_of(c) {
            Some(d) => d as u128,
            None => {
                proof {
                    assert(cs@.subrange(start as int, n as int)[i - start] == c);
                }
                return None;
            },
        };
        let ghost before = cs@.subrange(start as int, i as int);
        proof {
            assert(cs@.subrange(start as int, i + 1).drop_last() =~= before);
            assert(cs@.subrange(start as int, i + 1).last() == c);
        }
        if value < cap {
            let v: u128 = value * 10 + d;
            value = if v > limit as u128 {
                cap
            } else {
                v
            };
        }
        i += 1;
    }
    proof {
        assert(cs@.subrange(start as int, n as int).len() > 0);
    }
    if value < cap {
        Some(value as u64)
    } else {
        None
    }
}

proof fn lemma_digits_value_nonneg(s: Seq<char>)
    requires
        forall|i: int| 0 <= i < s.len() ==> crate::text::is_ascii_digit(#[trigger] s[i]),
    ensures
        digits_value(s) >= 0,
    decreases s.len(),
{
    if s.len() > 0 {
        assert forall|i: int| 0 <= i < s.drop_last().len() implies crate::text::is_ascii_digit(
            #[trigger] s.drop_last()[i],
        ) by {
            assert(s.drop_last()[i] == s[i]);
        }
        lemma_digits_value_nonneg(s.drop_last());
        assert(crate::text::is_ascii_digit(s[s.len() - 1]));
    }
}

/// Parses a decimal `i64` as `str::parse::<i64>` does: an optional sign,
/// then ASCII digits only, with a value in range.
fn parse_i64(text: &str) -> (res: Option<i64>)
    ensures
        res == spec_parse_i64(text@),
{
    let cs = crate::text::chars_of(text);
    let signed = cs.len() > 0 && (cs[0] == '+' || cs[0] == '-');
    let negative = signed && cs[0] == '-';
    let start: usize = if signed {
        1
    } else {
        0
    };
    let limit: u64 = if negative {
        9_223_372_036_854_775_808
    } else {
        9_223_372_036_854_775_807
    };
    let ghost body = cs@.subrange(start as int, cs@.len() as int);
    proof {
        if signed {
            assert(body =~= text@.drop_first());
        } else {
            assert(body =~= text@);
        }
        if all_ascii_digits(body) {
            lemma_digits_value_nonneg(body);
        }
    }
    match bounded_digits(&cs, start, limit) {
        None => None,
        Some(v) => if negative {
            Some((0i128 - v as i128) as i64)
        } else {
            Some(v as i64)
        },
    }
}

/// The seconds in one unit of a `--last` duration.
pub open spec fn unit_seconds(unit: char) -> Option<int> {
    if unit == 'h' {
        Some(3600)
    } else if unit == 'd' {
        Some(86400)
    } else if unit == 'w' {
        Some(604800)
    } else {
        None
    }
}

/// A `--last` duration: a positive count and a unit among `h`, `d`, `w`.
/// Gives the count and the seconds per unit.
pub open spec fn spec_parse_duration(raw: Seq<char>) -> Result<(i64, int), Seq<char>> {
    if raw.len() == 0 {
        Err("duration cannot be empty"@)
    } else {
        match spec_parse_i64(raw.drop_last()) {
            None => Err("invalid duration `"@ + raw + "`"@),
            Some(count) => if count <= 0 {
                Err("duration must be positive"@)
            } else {
                match unit_seconds(raw.last()) {
                    Some(secs) => Ok((count, secs)),
                    None => Err("invalid duration `"@ + raw + "`; use h, d, or w"@),
                }
            },
        }
    }
}

/// Whether the duration overflows the seconds `time::Duration` holds, where
/// `Duration::hours` and its kin panic.
pub open spec fn duration_overflows(raw: Seq<char>) -> bool {
    spec_parse_duration(raw) matches Ok((count, secs)) && count * secs > i64::MAX
}

/// The length of a `--last` duration, in seconds.
pub fn parse_duration(raw: &str) -> (res: Result<i64, String>)
    requires
        !duration_overflows(raw@),
    ensures
        match spec_parse_duration(raw@) {
            Ok((count, secs)) => res == Ok::<i64, String>((count * secs) as i64),
            Err(m) => res matches Err(e) && e@ == m,
        },
{
    match duration_parts(raw) {
        Ok((count, secs)) => {
            assert(count * secs <= i64::MAX);
            assert(count * secs >= 0) by (nonlinear_arith)
                requires
                    count > 0,
                    secs > 0,
            ;
            Ok(count * secs)
        },
        Err(e) => Err(e),
    }
}

/// The count and the seconds per unit of a `--last` duration.
pub fn duration_parts(raw: &str) -> (res: Result<(i64, i64), String>)
    ensures
        match spec_parse_duration(raw@) {
            Ok((count, secs)) => res == Ok::<(i64, i64), String>((count, secs as i64)),
            Err(m) => res matches Err(e) && e@ == m,
        },
        res matches Ok((count, secs)) ==> count > 0 && secs > 0,
{
    let chars = chars_of(raw);
    let n = chars.len();
    if n == 0 {
        return Err(String::from_str("duration cannot be empty"));
    }
    let unit = chars[n - 1];
    let mut body = String::new();
    let mut i: usize = 0;
    while i < n - 1
        invariant
            n == chars@.len(),
            chars@ == raw@,
            n > 0,
            i <= n - 1,
            body@ == chars@.take(i as int),
        decreases n - 1 - i,
    {
        push_char(&mut body, chars[i]);
        assert(chars@.take(i + 1) =~= chars@.take(i as int).push(chars@[i as int]));
        i += 1;
    }
    assert(body@ =~= raw@.drop_last());
    let count = match parse_i64(body.as_str()) {
        Some(c) => c,
        None => {
            let mut msg = concat2("invalid duration `", raw);
            msg.append("`");
            return Err(msg);
        },
    };
    if count <= 0 {
        return Err(String::from_str("duration must be positive"));
    }
    let secs: i64 = if unit == 'h' {
        3600
    } else if unit == 'd' {
        86400
    } else if unit == 'w' {
        604800
    } else {
        let mut msg = concat2("invalid duration `", raw);
        msg.append("`; use h, d, or w");
        return Err(msg);
    };
    Ok((count, secs))
}

/// The first and last local instants `time::OffsetDateTime` holds, in
/// nanoseconds since the epoch.
pub open spec fn min_local_nanos() -> int {
    MIN_DAY as int * 86_400_000_000_000
}

pub open spec fn max_local_nanos() -> int {
    (MAX_DAY as int + 1) * 86_400_000_000_000 - 1
}

/// `t` moved back by `seconds`, in the same offset.
pub open spec fn back_by(t: Timestamp, seconds: int) -> Timestamp {
    Timestamp {
        unix_nanos: (t.unix_nanos - seconds * 1_000_000_000) as i128,
        offset_seconds: t.offset_seconds,
    }
}

/// Whether moving `t` back by `seconds` leaves the range the time crate
/// holds, where subtracting a `Duration` panics.
pub open spec fn back_by_overflows(t: Timestamp, seconds: int) -> bool {
    t.unix_nanos + t.offset_seconds * 1_000_000_000 - seconds * 1_000_000_000 < min_local_nanos()
        || t.unix_nanos + t.offset_seconds * 1_000_000_000 - seconds * 1_000_000_000
        > max_local_nanos()
}

fn move_back(t: Timestamp, seconds: i64) -> (res: Timestamp)
    requires
        !back_by_overflows(t, seconds as int),
        offset_ok(t),
    ensures
        res == back_by(t, seconds as int),
{
    let delta = (seconds as i128) * 1_000_000_000;
    Timestamp { unix_nanos: t.unix_nanos - delta, offset_seconds: t.offset_seconds }
}

/// Whether moving `t` back by `seconds` leaves the range the time crate holds.
fn back_by_out_of_range(t: Timestamp, seconds: i64) -> (res: bool)
    requires
        offset_ok(t),
    ensures
        res == back_by_overflows(t, seconds as int),
{
    let far: i128 = 1_000_000_000_000_000_000_000_000_000_000;
    if t.unix_nanos > far || t.unix_nanos < -far {
        return true;
    }
    let local = t.unix_nanos + (t.offset_seconds as i128) * 1_000_000_000 - (seconds as i128)
        * 1_000_000_000;
    local < (MIN_DAY as i128) * 86_400_000_000_000 || local > ((MAX_DAY as i128) + 1)
        * 86_400_000_000_000 - 1
}

/// Which end of the report window a boundary is.
#[derive(Clone, Copy, Debug, PartialEq, Eq, Structural)]
pub enum TimeBoundary {
    Since,
    Until,
}

/// A window boundary: RFC 3339, or a date meaning its first instant (for
/// `--since`) or the first instant after it (for `--until`), in UTC.
pub open spec fn spec_parse_time_boundary(raw: Seq<char>, boundary: TimeBoundary) -> Result<
    Timestamp,
    Seq<char>,
> {
    spec_boundary_of(raw, rfc3339_timestamp(raw), date_days(raw), boundary)
}

/// A window boundary given what `raw` parses to as an RFC 3339 timestamp and
/// as a date.
pub open spec fn spec_boundary_of(
    raw: Seq<char>,
    rfc3339: Option<Timestamp>,
    days: Option<i64>,
    boundary: TimeBoundary,
) -> Result<Timestamp, Seq<char>> {
    match rfc3339 {
        Some(t) => Ok(t),
        None => match days {
            Some(d) => if boundary == TimeBoundary::Until && d == MAX_DAY {
                Err("date is out of range"@)
            } else {
                let day = if boundary == TimeBoundary::Until {
                    d + 1
                } else {
                    d as int
                };
                Ok(Timestamp { unix_nanos: (day * 86_400_000_000_000) as i128, offset_seconds: 0 })
            },
            None => Err("invalid timestamp `"@ + raw + "`; use RFC3339 or YYYY-MM-DD"@),
        },
    }
}

pub fn parse_time_boundary(raw: &str, boundary: TimeBoundary) -> (res: Result<Timestamp, String>)
    ensures
        res matches Ok(t) ==> offset_ok(t),
        match spec_parse_time_boundary(raw@, boundary) {
            Ok(t) => res == Ok::<Timestamp, String>(t),
            Err(m) => res matches Err(e) && e@ == m,
        },
{
    let rfc3339 = parse_rfc3339(raw);
    let days = if rfc3339.is_some() {
        None
    } else {
        parse_date_days(raw)
    };
    boundary_of(raw, rfc3339, days, boundary)
}

/// The window boundary `raw` stands for, given what it parses to as an RFC
/// 3339 timestamp and, failing that, as a date (in days since 1970-01-01).
pub fn boundary_of(raw: &str, rfc3339: Option<Timestamp>, days: Option<i64>, boundary: TimeBoundary) -> (res:
    Result<Timestamp, String>)
    ensures
        match spec_boundary_of(raw@, rfc3339, days, boundary) {
            Ok(t) => res == Ok::<Timestamp, String>(t),
            Err(m) => res matches Err(e) && e@ == m,
        },
{
    if let Some(t) = rfc3339 {
        return Ok(t);
    }
    match days {
        Some(d) => {
            if boundary == TimeBoundary::Until && d == MAX_DAY {
                return Err(String::from_str("date is out of range"));
            }
            let day: i128 = if boundary == TimeBoundary::Until {
                d as i128 + 1
            } else {
                d as i128
            };
            assert(-0x8000_0000_0000_0001 <= day <= 0x8000_0000_0000_0000);
            assert(-0x1_0000_0000_0000_0000_0000_0000_0000 <= day * 86_400_000_000_000
                <= 0x1_0000_0000_0000_0000_0000_0000_0000) by (nonlinear_arith)
                requires
                    -0x8000_0000_0000_0001 <= day <= 0x8000_0000_0000_0000,
            ;
            Ok(Timestamp { unix_nanos: day * 86_400_000_000_000, offset_seconds: 0 })
        },
        None => {
            let mut msg = concat2("invalid timestamp `", raw);
            msg.append("`; use RFC3339 or YYYY-MM-DD");
            Err(msg)
        },
    }
}

/// The window of a usage report: `[since, until)`.
#[derive(Clone, Copy, Debug, PartialEq, Eq, Structural)]
pub struct UsageReportPeriod {
    pub since: Timestamp,
    pub until: Timestamp,
}

/// The report window of the command-line options: `until` defaults to now;
/// the start is `--last` before the end, or `--since`, or seven days before
/// the end; it must come before the end.
pub open spec fn spec_report_period(
    last: Option<Seq<char>>,
    since: Option<Seq<char>>,
    until: Option<Seq<char>>,
    now: Timestamp,
) -> Result<UsageReportPeriod, Seq<char>> {
    let end = match until {
        Some(u) => spec_parse_time_boundary(u, TimeBoundary::Until),
        None => Ok(now),
    };
    match end {
        Err(m) => Err(m),
        Ok(end) => {
            let start = match (last, since) {
                (Some(_), Some(_)) => Err("--last cannot be combined with --since"@),
                (Some(l), None) => match spec_parse_duration(l) {
                    Err(m) => Err(m),
                    Ok((count, secs)) => Ok(back_by(end, count * secs)),
                },
                (None, Some(s)) => spec_parse_time_boundary(s, TimeBoundary::Since),
                (None, None) => Ok(back_by(end, 604800)),
            };
            match start {
                Err(m) => Err(m),
                Ok(start) => if start.unix_nanos >= end.unix_nanos {
                    Err("usage report start must be before end"@)
                } else {
                    Ok(UsageReportPeriod { since: start, until: end })
                },
            }
        },
    }
}

/// Whether computing the window panics in the time crate: a duration too
/// long for `time::Duration`, or a start outside the range it holds.
pub open spec fn report_period_panics(
    last: Option<Seq<char>>,
    since: Option<Seq<char>>,
    until: Option<Seq<char>>,
    now: Timestamp,
) -> bool {
    let end = match until {
        Some(u) => spec_parse_time_boundary(u, TimeBoundary::Until),
        None => Ok(now),
    };
    match end {
        Err(_) => false,
        Ok(end) => match (last, since) {
            (Some(l), None) => duration_overflows(l) || (spec_parse_duration(l) matches Ok((
                count,
                secs,
            )) && back_by_overflows(end, count * secs)),
            (None, None) => back_by_overflows(end, 604800),
            _ => false,
        },
    }
}

/// A UTC offset as `time::UtcOffset` holds it: at most 25:59:59 either way.
pub open spec fn offset_ok(t: Timestamp) -> bool {
    -93599 <= t.offset_seconds <= 93599
}

impl UsageReportPeriod {
    /// The report window of the command-line options.
    pub fn from_args(
        last: Option<&str>,
        since: Option<&str>,
        until: Option<&str>,
        now: Timestamp,
    ) -> (res: Result<UsageReportPeriod, String>)
        requires
            !report_period_panics(opt_view(last), opt_view(since), opt_view(until), now),
            offset_ok(now),
        ensures
            match spec_report_period(opt_view(last), opt_view(since), opt_view(until), now) {
                Ok(p) => res == Ok::<UsageReportPeriod, String>(p),
                Err(m) => res matches Err(e) && e@ == m,
            },
    {
        let end = match until {
            Some(u) => match parse_time_boundary(u, TimeBoundary::Until) {
                Ok(t) => t,
                Err(e) => return Err(e),
            },
            None => now,
        };
        let start = match (last, since) {
            (Some(_), Some(_)) => {
                return Err(String::from_str("--last cannot be combined with --since"));
            },
            (Some(l), None) => match parse_duration(l) {
                Ok(seconds) => move_back(end, seconds),
                Err(e) => return Err(e),
            },
            (None, Some(s)) => match parse_time_boundary(s, TimeBoundary::Since) {
                Ok(t) => t,
                Err(e) => return Err(e),
            },
            (None, None) => move_back(end, 604800),
        };
        if start.unix_nanos >= end.unix_nanos {
            return Err(String::from_str("usage report start must be before end"));
        }
        Ok(UsageReportPeriod { since: start, until: end })
    }

    /// The report window of the command-line options, or `None` where the time
    /// crate would panic computing it (see [`report_period_panics`]).
    pub fn from_args_checked(
        last: Option<&str>,
        since: Option<&str>,
        until: Option<&str>,
        now: Timestamp,
    ) -> (res: Option<Result<UsageReportPeriod, String>>)
        requires
            offset_ok(now),
        ensures
            res is None <==> report_period_panics(opt_view(last), opt_view(since), opt_view(until), now),
            res matches Some(r) ==> match spec_report_period(
                opt_view(last),
                opt_view(since),
                opt_view(until),
                now,
            ) {
                Ok(p) => r == Ok::<UsageReportPeriod, String>(p),
                Err(m) => r matches Err(e) && e@ == m,
            },
    {
        let end = match until {
            Some(u) => match parse_time_boundary(u, TimeBoundary::Until) {
                Ok(t) => t,
                Err(_) => return Some(Self::from_args(last, since, until, now)),
            },
            None => now,
        };
        let panics = match (last, since) {
            (Some(l), None) => match duration_parts(l) {
                Ok((count, secs)) => match count.checked_mul(secs) {
                    Some(seconds) => back_by_out_of_range(end, seconds),
                    None => true,
                },
                Err(_) => false,
            },
            (None, None) => back_by_out_of_range(end, 604800),
            _ => false,
        };
        if panics {
            None
        } else {
            Some(Self::from_args(last, since, until, now))
        }
    }
}

/// Whether a file name is a rollout's: `rollout-*.jsonl`.
pub open spec fn spec_is_rollout_file(name: Option<Seq<char>>) -> bool {
    match name {
        Some(n) => n.len() >= 8 && n.subrange(0, 8) == "rollout-"@ && n.len() >= 6 && n.subrange(
            n.len() - 6,
            n.len() as int,
        ) == ".jsonl"@,
        None => false,
    }
}

fn starts_with_chars(s: &Vec<char>, prefix: &str) -> (res: bool)
    ensures
        res == (s@.len() >= prefix@.len() && s@.subrange(0, prefix@.len() as int) == prefix@),
{
    let p = chars_of(prefix);
    if p.len() > s.len() {
        return false;
    }
    let mut i: usize = 0;
    while i < p.len()
        invariant
            p@ == prefix@,
            p@.len() <= s@.len(),
            i <= p@.len(),
            forall|j: int| 0 <= j < i ==> s@[j] == p@[j],
        decreases p@.len() - i,
    {
        if s[i] != p[i] {
            assert(s@.subrange(0, p@.len() as int)[i as int] != p@[i as int]);
            return false;
        }
        i += 1;
    }
    assert(s@.subrange(0, p@.len() as int) =~= p@);
    true
}

pub(crate) fn ends_with_chars(s: &Vec<char>, suffix: &str) -> (res: bool)
    ensures
        res == (s@.len() >= suffix@.len() && s@.subrange(s@.len() - suffix@.len(), s@.len() as int)
            == suffix@),
{
    let p = chars_of(suffix);
    if p.len() > s.len() {
        return false;
    }
    let sl = s.len();
    let off = sl - p.len();
    let mut i: usize = 0;
    while i < p.len()
        invariant
            sl == s@.len(),
            p@ == suffix@,
            off + p@.len() == s@.len(),
            i <= p@.len(),
            forall|j: int| 0 <= j < i ==> s@[off + j] == p@[j],
        decreases p@.len() - i,
    {
        if s[off + i] != p[i] {
            assert(s@.subrange(off as int, s@.len() as int)[i as int] != p@[i as int]);
            return false;
        }
        i += 1;
    }
    assert(s@.subrange(off as int, s@.len() as int) =~= p@);
    true
}

/// Whether a file name (absent, or not valid text, as `None`) is a rollout's.
pub fn is_rollout_file(name: Option<&str>) -> (res: bool)
    ensures
        res == spec_is_rollout_file(opt_view(name)),
{
    match name {
        Some(n) => {
            let chars = chars_of(n);
            proof {
                reveal_strlit("rollout-");
                reveal_strlit(".jsonl");
            }
            starts_with_chars(&chars, "rollout-") && ends_with_chars(&chars, ".jsonl")
        },
        None => false,
    }
}


/// Where the last five `-`-separated segments of `s[..i]` start, scanning
/// back from `i` having passed `dashes` dashes: after the fifth dash from the
/// end, or at the start when there are exactly four.
pub open spec fn segments_start(s: Seq<char>, i: int, dashes: nat) -> Option<int>
    decreases i,
{
    if i <= 0 {
        if dashes == 4 {
            Some(0)
        } else {
            None
        }
    } else if s[i - 1] == '-' {
        if dashes + 1 == 5 {
            Some(i)
        } else {
            segments_start(s, i - 1, dashes + 1)
        }
    } else {
        segments_start(s, i - 1, dashes)
    }
}

/// What `uuid::Uuid::parse_str` accepts of `text`, in the UUID's hyphenated
/// lowercase form.
pub uninterp spec fn uuid_text(text: Seq<char>) -> Option<Seq<char>>;

/// Parses a UUID (`uuid::Uuid::parse_str`) and writes it hyphenated.
#[verifier::external_body]
pub(crate) fn parse_uuid(text: &str) -> (res: Option<String>)
    ensures
        opt_string_view(res) == uuid_text(text@),
{
    match uuid::Uuid::parse_str(text) {
        Ok(u) => Some(u.hyphenated().to_string()),
        Err(_) => None,
    }
}

/// The thread id a rollout file name ends with: the last five `-`-separated
/// parts before `.jsonl`, when they form a UUID.
pub open spec fn spec_thread_id_from_file_name(name: Option<Seq<char>>) -> Option<Seq<char>> {
    match name {
        None => None,
        Some(n) => if n.len() >= 6 && n.subrange(n.len() - 6, n.len() as int) == ".jsonl"@ {
            let stem = n.subrange(0, n.len() - 6);
            match segments_start(stem, stem.len() as int, 0) {
                None => None,
                Some(p) => uuid_text(stem.subrange(p, stem.len() as int)),
            }
        } else {
            None
        },
    }
}

pub fn thread_id_from_file_name(name: Option<&str>) -> (res: Option<String>)
    ensures
        opt_string_view(res) == spec_thread_id_from_file_name(opt_view(name)),
{
    let n = match name {
        Some(n) => n,
        None => return None,
    };
    let chars = chars_of(n);
    proof {
        reveal_strlit(".jsonl");
    }
    if !ends_with_chars(&chars, ".jsonl") {
        return None;
    }
    let len = chars.len() - 6;
    let ghost stem = chars@.subrange(0, len as int);
    let mut i: usize = len;
    let mut dashes: usize = 0;
    let mut found: Option<usize> = None;
    while i > 0 && found.is_none()
        invariant
            chars@ == n@,
            len + 6 == chars@.len(),
            stem == chars@.subrange(0, len as int),
            i <= len,
            found is None ==> dashes < 5 && segments_start(stem, stem.len() as int, 0)
                == segments_start(stem, i as int, dashes as nat),
            found matches Some(p) ==> p <= len && segments_start(stem, stem.len() as int, 0) == Some(
                p as int,
            ),
        decreases i,
    {
        assert(stem[i - 1] == chars@[i - 1]);
        if chars[i - 1] == '-' {
            if dashes + 1 == 5 {
                found = Some(i);
            } else {
                dashes = dashes + 1;
            }
        }
        i -= 1;
    }
    let p = match found {
        Some(p) => p,
        None => {
            if dashes == 4 {
                0
            } else {
                return None;
            }
        },
    };
    let mut candidate = String::new();
    let mut k: usize = p;
    while k < len
        invariant
            chars@ == n@,
            len + 6 == chars@.len(),
            p <= k <= len,
            candidate@ == chars@.subrange(p as int, k as int),
        decreases len - k,
    {
        push_char(&mut candidate, chars[k]);
        assert(chars@.subrange(p as int, k + 1) =~= chars@.subrange(p as int, k as int).push(
            chars@[k as int],
        ));
        k += 1;
    }
    assert(candidate@ =~= stem.subrange(p as int, stem.len() as int));
    parse_uuid(candidate.as_str())
}

/// A rollout file found on disk.
#[derive(Clone, Debug, PartialEq, Eq)]
pub struct RolloutFile {
    /// The path, as the report writes it.
    pub path: String,
    /// The file name, when it is valid text.
    pub file_name: Option<String>,
    /// The modification time, rounded down to the millisecond, when known.
    pub modified_at: Option<Timestamp>,
}

/// One thread's rollout in the index.
pub struct IndexEntryV {
    pub thread_id: Seq<char>,
    pub path: Seq<char>,
    pub modified_at: Option<Timestamp>,
}

/// Whether modification time `a` is later than `b`; an unknown time is
/// earlier than any known one.
pub open spec fn modified_later(a: Option<Timestamp>, b: Option<Timestamp>) -> bool {
    match (a, b) {
        (Some(x), Some(y)) => x.unix_nanos > y.unix_nanos,
        (Some(_), None) => true,
        _ => false,
    }
}

pub open spec fn index_position(entries: Seq<IndexEntryV>, id: Seq<char>, i: int) -> int
    decreases entries.len() - i,
{
    if i < 0 || i >= entries.len() {
        entries.len() as int
    } else if entries[i].thread_id == id {
        i
    } else {
        index_position(entries, id, i + 1)
    }
}

/// Indexes one file: a thread keeps the most recently modified of its
/// rollouts (the first of equals).
pub open spec fn index_step(entries: Seq<IndexEntryV>, f: RolloutFile) -> Seq<IndexEntryV> {
    match spec_thread_id_from_file_name(opt_string_view(f.file_name)) {
        None => entries,
        Some(id) => {
            let p = index_position(entries, id, 0);
            let e = IndexEntryV { thread_id: id, path: f.path@, modified_at: f.modified_at };
            if p >= entries.len() {
                entries.push(e)
            } else if modified_later(f.modified_at, entries[p].modified_at) {
                entries.update(p, e)
            } else {
                entries
            }
        },
    }
}

pub open spec fn spec_index(files: Seq<RolloutFile>) -> Seq<IndexEntryV>
    decreases files.len(),
{
    if files.len() == 0 {
        Seq::empty()
    } else {
        index_step(spec_index(files.drop_last()), files.last())
    }
}

/// The rollout path of each thread.
#[derive(Clone, Debug, PartialEq, Eq)]
pub struct IndexEntry {
    pub thread_id: String,
    pub path: String,
    pub modified_at: Option<Timestamp>,
}

impl View for IndexEntry {
    type V = IndexEntryV;

    open spec fn view(&self) -> IndexEntryV {
        IndexEntryV { thread_id: self.thread_id@, path: self.path@, modified_at: self.modified_at }
    }
}

pub open spec fn index_view(v: Seq<IndexEntry>) -> Seq<IndexEntryV> {
    v.map_values(|e: IndexEntry| e@)
}

fn find_index_position(entries: &Vec<IndexEntry>, id: &str) -> (res: usize)
    ensures
        res == index_position(index_view(entries@), id@, 0),
{
    let n = entries.len();
    let mut i: usize = 0;
    while i < n
        invariant
            n == entries@.len(),
            i <= n,
            index_position(index_view(entries@), id@, 0) == index_position(
                index_view(entries@),
                id@,
                i as int,
            ),
        decreases n - i,
    {
        if str_is(entries[i].thread_id.as_str(), id) {
            return i;
        }
        i += 1;
    }
    n
}

/// Indexes rollout files by thread id; each thread maps to its most
/// recently modified rollout.
pub fn index_paths_by_thread_id(files: &Vec<RolloutFile>) -> (res: Vec<IndexEntry>)
    ensures
        index_view(res@) == spec_index(files@),
{
    let mut entries: Vec<IndexEntry> = Vec::new();
    let n = files.len();
    let mut i: usize = 0;
    assert(index_view(entries@) =~= spec_index(files@.subrange(0, 0)));
    while i < n
        invariant
            n == files@.len(),
            i <= n,
            index_view(entries@) == spec_index(files@.subrange(0, i as int)),
        decreases n - i,
    {
        let f = &files[i];
        proof {
            assert(files@.subrange(0, i + 1).drop_last() =~= files@.subrange(0, i as int));
        }
        let file_name = match &f.file_name {
            Some(s) => Some(s.as_str()),
            None => None,
        };
        match thread_id_from_file_name(file_name) {
            None => {},
            Some(id) => {
                let p = find_index_position(&entries, id.as_str());
                let entry = IndexEntry { thread_id: id, path: f.path.clone(), modified_at: f.modified_at };
                if p >= entries.len() {
                    entries.push(entry);
                    assert(index_view(entries@) =~= spec_index(files@.subrange(0, i as int)).push(entry@));
                } else {
                    let later = match (f.modified_at, entries[p].modified_at) {
                        (Some(x), Some(y)) => x.unix_nanos > y.unix_nanos,
                        (Some(_), None) => true,
                        _ => false,
                    };
                    if later {
                        let ghost before = index_view(entries@);
                        entries.set(p, entry);
                        assert(index_view(entries@) =~= before.update(p as int, entry@));
                    }
                }
            },
        }
        i += 1;
    }
    assert(files@.subrange(0, n as int) =~= files@);
    entries
}

/// Where a fork's parent rollout is, as far as the index tells.
#[derive(Clone, Debug, PartialEq, Eq)]
pub enum ParentLocation {
    NotForked,
    /// The parent thread has no indexed rollout.
    Unresolved { parent_id: String },
    At { path: String },
}

/// The rollout path of thread `id` in the index.
pub open spec fn indexed_path(entries: Seq<IndexEntryV>, id: Seq<char>) -> Option<Seq<char>> {
    let p = index_position(entries, id, 0);
    if p < entries.len() {
        Some(entries[p].path)
    } else {
        None
    }
}

/// Where the parent of a rollout with session metadata `meta` is.
pub fn locate_fork_parent(index: &Vec<IndexEntry>, meta: &ReportMetadata) -> (res: ParentLocation)
    ensures
        match meta@.forked_from_id {
            None => res == ParentLocation::NotForked,
            Some(id) => match indexed_path(index_view(index@), id) {
                Some(p) => res matches ParentLocation::At { path } && path@ == p,
                None => res matches ParentLocation::Unresolved { parent_id } && parent_id@ == id,
            },
        },
{
    match &meta.forked_from_id {
        None => ParentLocation::NotForked,
        Some(id) => {
            let p = find_index_position(index, id.as_str());
            if p < index.len() {
                ParentLocation::At { path: index[p].path.clone() }
            } else {
                ParentLocation::Unresolved { parent_id: id.clone() }
            }
        },
    }
}

/// The files modified at or after `since` (or of unknown age), in order.
pub open spec fn spec_candidates(files: Seq<RolloutFile>, since: Timestamp) -> Seq<RolloutFile>
    decreases files.len(),
{
    if files.len() == 0 {
        Seq::empty()
    } else {
        let rest = spec_candidates(files.drop_last(), since);
        if files.last().modified_at matches Some(m) && m.unix_nanos < since.unix_nanos {
            rest
        } else {
            rest.push(files.last())
        }
    }
}

/// The files a report matches are among those it scanned: no more of them,
/// each one of the scanned files, and every scanned file not modified before
/// the window (or of unknown age) among them.
pub proof fn lemma_candidates_within_scanned(files: Seq<RolloutFile>, since: Timestamp)
    ensures
        spec_candidates(files, since).len() <= files.len(),
        forall|f: RolloutFile| spec_candidates(files, since).contains(f) ==> files.contains(f),
        forall|i: int|
            0 <= i < files.len() && !(files[i].modified_at matches Some(m) && m.unix_nanos < since.unix_nanos)
                ==> spec_candidates(files, since).contains(#[trigger] files[i]),
    decreases files.len(),
{
    if files.len() > 0 {
        let rest = files.drop_last();
        lemma_candidates_within_scanned(rest, since);
        let c = spec_candidates(files, since);
        let rc = spec_candidates(rest, since);
        assert(rest =~= files.subrange(0, files.len() - 1));
        assert forall|f: RolloutFile| c.contains(f) implies files.contains(f) by {
            let j = choose|j: int| 0 <= j < c.len() && c[j] == f;
            if j < rc.len() {
                assert(c[j] == rc[j]);
                assert(rc.contains(f));
                assert(rest.contains(f));
                let k = choose|k: int| 0 <= k < rest.len() && rest[k] == f;
                assert(rest[k] == files[k]);
                assert(files.contains(f));
            } else {
                assert(c == rc.push(files.last()));
                assert(files[files.len() - 1] == f);
                assert(files.contains(f));
            }
        }
        assert forall|i: int|
            0 <= i < files.len() && !(files[i].modified_at matches Some(m) && m.unix_nanos < since.unix_nanos)
                implies c.contains(#[trigger] files[i]) by {
            if i < files.len() - 1 {
                assert(rest[i] == files[i]);
                assert(spec_candidates(rest, since).contains(rest[i]));
                let j = choose|j: int|
                    0 <= j < spec_candidates(rest, since).len() && spec_candidates(rest, since)[j] == rest[i];
                assert(c[j] == files[i]);
            } else {
                assert(c[c.len() - 1] == files[i]);
            }
        }
    }
}

pub fn candidate_files(files: Vec<RolloutFile>, since: Timestamp) -> (res: Vec<RolloutFile>)
    ensures
        res@ == spec_candidates(files@, since),
{
    let ghost all = files@;
    let n = files.len();
    let mut rest = files;
    let mut out: Vec<RolloutFile> = Vec::new();
    let mut i: usize = 0;
    while i < n
        invariant
            n == all.len(),
            i <= n,
            rest@ == all.subrange(i as int, n as int),
            out@ == spec_candidates(all.subrange(0, i as int), since),
        decreases n - i,
    {
        let f = rest.remove(0);
        proof {
            assert(f == all[i as int]);
            assert(all.subrange(0, i + 1).drop_last() =~= all.subrange(0, i as int));
            assert(rest@ =~= all.subrange(i + 1, n as int));
        }
        let keep = match f.modified_at {
            Some(m) => m.unix_nanos >= since.unix_nanos,
            None => true,
        };
        if keep {
            out.push(f);
        }
        i += 1;
    }
    assert(all.subrange(0, n as int) =~= all);
    out
}


/// A thread's line in the usage report.
#[derive(Clone, Debug, PartialEq, Eq)]
pub struct ThreadUsageReport {
    pub thread_id: Option<String>,
    pub thread_name: Option<String>,
    pub first_prompt: Option<String>,
    pub display_name: String,
    pub forked_from_id: Option<String>,
    pub model_provider: Option<String>,
    pub model: Option<String>,
    pub cwd: Option<String>,
    pub first_usage_at: String,
    pub last_usage_at: String,
    pub usage_events: usize,
    pub usage: UsageBreakdown,
    pub costs: UsageCostBreakdown,
    pub rollout_path: String,
}

/// The value of a [`ThreadUsageReport`].
pub struct ThreadReportV {
    pub thread_id: Option<Seq<char>>,
    pub thread_name: Option<Seq<char>>,
    pub first_prompt: Option<Seq<char>>,
    pub display_name: Seq<char>,
    pub forked_from_id: Option<Seq<char>>,
    pub model_provider: Option<Seq<char>>,
    pub model: Option<Seq<char>>,
    pub cwd: Option<Seq<char>>,
    pub first_usage_at: Seq<char>,
    pub last_usage_at: Seq<char>,
    pub usage_events: nat,
    pub usage: BreakdownV,
    pub costs: UsageCostBreakdown,
    pub rollout_path: Seq<char>,
}

impl View for ThreadUsageReport {
    type V = ThreadReportV;

    open spec fn view(&self) -> ThreadReportV {
        ThreadReportV {
            thread_id: opt_string_view(self.thread_id),
            thread_name: opt_string_view(self.thread_name),
            first_prompt: opt_string_view(self.first_prompt),
            display_name: self.display_name@,
            forked_from_id: opt_string_view(self.forked_from_id),
            model_provider: opt_string_view(self.model_provider),
            model: opt_string_view(self.model),
            cwd: opt_string_view(self.cwd),
            first_usage_at: self.first_usage_at@,
            last_usage_at: self.last_usage_at@,
            usage_events: self.usage_events as nat,
            usage: self.usage@,
            costs: self.costs,
            rollout_path: self.rollout_path@,
        }
    }
}

/// A thread is shown by its name, else its first prompt, else its id, else `-`.
pub open spec fn spec_display_name(
    thread_name: Option<Seq<char>>,
    first_prompt: Option<Seq<char>>,
    thread_id: Option<Seq<char>>,
) -> Seq<char> {
    match thread_name {
        Some(n) => n,
        None => match first_prompt {
            Some(p) => p,
            None => match thread_id {
                Some(i) => i,
                None => "-"@,
            },
        },
    }
}

/// The report line of an accumulated thread with the given name.
pub open spec fn spec_thread_report(a: AccV, thread_name: Option<Seq<char>>) -> ThreadReportV {
    ThreadReportV {
        thread_id: a.metadata.thread_id,
        thread_name,
        first_prompt: a.metadata.first_prompt,
        display_name: spec_display_name(thread_name, a.metadata.first_prompt, a.metadata.thread_id),
        forked_from_id: a.metadata.forked_from_id,
        model_provider: a.metadata.model_provider,
        model: a.metadata.model,
        cwd: a.metadata.cwd,
        first_usage_at: spec_format_time(a.first_usage_at),
        last_usage_at: spec_format_time(a.last_usage_at),
        usage_events: a.usage_events,
        usage: a.usage,
        costs: a.costs,
        rollout_path: a.rollout_path,
    }
}

impl ThreadUsageAccumulator {
    /// The thread's report line, under `thread_name` when it has one.
    pub fn finish(self, thread_name: Option<String>) -> (res: ThreadUsageReport)
        ensures
            res@ == spec_thread_report(self@, opt_string_view(thread_name)),
    {
        let display_name = match &thread_name {
            Some(n) => n.clone(),
            None => match &self.metadata.first_prompt {
                Some(p) => p.clone(),
                None => match &self.metadata.thread_id {
                    Some(i) => i.clone(),
                    None => String::from_str("-"),
                },
            },
        };
        ThreadUsageReport {
            thread_id: self.metadata.thread_id,
            thread_name,
            first_prompt: self.metadata.first_prompt,
            display_name,
            forked_from_id: self.metadata.forked_from_id,
            model_provider: self.metadata.model_provider,
            model: self.metadata.model,
            cwd: self.metadata.cwd,
            first_usage_at: format_time(self.first_usage_at),
            last_usage_at: format_time(self.last_usage_at),
            usage_events: self.usage_events,
            usage: self.usage,
            costs: self.costs,
            rollout_path: self.rollout_path,
        }
    }
}

/// Whether path `a` orders before path `b` as `std::path::Path` orders
/// paths (component by component).
pub uninterp spec fn path_precedes(a: Seq<char>, b: Seq<char>) -> bool;

/// `Path::new(a) < Path::new(b)` (std's `Ord` for `Path`).
#[verifier::external_body]
fn path_lt(a: &str, b: &str) -> (res: bool)
    ensures
        res == path_precedes(a@, b@),
{
    std::path::Path::new(a) < std::path::Path::new(b)
}

/// The report lists a thread before another when it cost more, then used
/// more tokens, then was last used later, then by path order.
pub open spec fn listed_before(a: AccV, b: AccV) -> bool {
    ||| a.costs.total_nano_usd > b.costs.total_nano_usd
    ||| a.costs.total_nano_usd == b.costs.total_nano_usd && a.usage.total > b.usage.total
    ||| a.costs.total_nano_usd == b.costs.total_nano_usd && a.usage.total == b.usage.total
        && a.last_usage_at.unix_nanos > b.last_usage_at.unix_nanos
    ||| a.costs.total_nano_usd == b.costs.total_nano_usd && a.usage.total == b.usage.total
        && a.last_usage_at.unix_nanos == b.last_usage_at.unix_nanos && path_precedes(
        a.rollout_path,
        b.rollout_path,
    )
}

/// Places `x` after every thread it is not listed before.
pub open spec fn insert_thread(x: AccV, s: Seq<AccV>) -> Seq<AccV>
    decreases s.len(),
{
    if s.len() == 0 {
        seq![x]
    } else if listed_before(x, s[0]) {
        seq![x] + s
    } else {
        seq![s[0]] + insert_thread(x, s.drop_first())
    }
}

/// The threads in report order; threads that tie keep their order.
pub open spec fn spec_sort_threads(s: Seq<AccV>) -> Seq<AccV>
    decreases s.len(),
{
    if s.len() == 0 {
        Seq::empty()
    } else {
        insert_thread(s.last(), spec_sort_threads(s.drop_last()))
    }
}

/// `a` is listed no later than `b` by the report's keys: cost, then tokens,
/// then last use, each from highest down.
pub open spec fn report_key_ge(a: AccV, b: AccV) -> bool {
    ||| a.costs.total_nano_usd > b.costs.total_nano_usd
    ||| a.costs.total_nano_usd == b.costs.total_nano_usd && a.usage.total > b.usage.total
    ||| a.costs.total_nano_usd == b.costs.total_nano_usd && a.usage.total == b.usage.total
        && a.last_usage_at.unix_nanos >= b.last_usage_at.unix_nanos
}

/// Every thread is listed no later, by the report's keys, than those after it.
pub open spec fn in_report_order(s: Seq<AccV>) -> bool {
    forall|i: int, j: int| 0 <= i < j < s.len() ==> report_key_ge(#[trigger] s[i], #[trigger] s[j])
}

proof fn lemma_insert_thread_elems(x: AccV, t: Seq<AccV>)
    ensures
        insert_thread(x, t).len() == t.len() + 1,
        forall|j: int| 0 <= j < insert_thread(x, t).len() ==> #[trigger] insert_thread(x, t)[j] == x
            || exists|i: int| 0 <= i < t.len() && t[i] == insert_thread(x, t)[j],
    decreases t.len(),
{
    if t.len() > 0 && !listed_before(x, t[0]) {
        let rest = t.drop_first();
        lemma_insert_thread_elems(x, rest);
        let r = insert_thread(x, t);
        assert forall|j: int| 0 <= j < r.len() implies #[trigger] r[j] == x
            || exists|i: int| 0 <= i < t.len() && t[i] == r[j] by {
            if j == 0 {
                assert(t[0] == r[0]);
            } else {
                assert(r[j] == insert_thread(x, rest)[j - 1]);
                if r[j] != x {
                    let i = choose|i: int| 0 <= i < rest.len() && rest[i] == insert_thread(x, rest)[j - 1];
                    assert(t[i + 1] == r[j]);
                }
            }
        }
    } else if t.len() > 0 {
        let r = insert_thread(x, t);
        assert forall|j: int| 0 <= j < r.len() implies #[trigger] r[j] == x
            || exists|i: int| 0 <= i < t.len() && t[i] == r[j] by {
            if j > 0 {
                assert(t[j - 1] == r[j]);
            }
        }
    }
}

proof fn lemma_insert_thread_ordered(x: AccV, t: Seq<AccV>)
    requires
        in_report_order(t),
    ensures
        in_report_order(insert_thread(x, t)),
    decreases t.len(),
{
    lemma_insert_thread_elems(x, t);
    let r = insert_thread(x, t);
    if t.len() > 0 {
        if listed_before(x, t[0]) {
            assert forall|i: int, j: int| 0 <= i < j < r.len() implies report_key_ge(#[trigger] r[i], #[trigger] r[j]) by {
                if i == 0 {
                    assert(r[j] == t[j - 1]);
                    if j > 1 {
                        assert(report_key_ge(t[0], t[j - 1]));
                    }
                } else {
                    assert(r[i] == t[i - 1] && r[j] == t[j - 1]);
                }
            }
        } else {
            let rest = t.drop_first();
            assert forall|i: int, j: int| 0 <= i < j < rest.len() implies report_key_ge(#[trigger] rest[i], #[trigger] rest[j]) by {
                assert(rest[i] == t[i + 1] && rest[j] == t[j + 1]);
            }
            lemma_insert_thread_ordered(x, rest);
            lemma_insert_thread_elems(x, rest);
            let ir = insert_thread(x, rest);
            assert forall|i: int, j: int| 0 <= i < j < r.len() implies report_key_ge(#[trigger] r[i], #[trigger] r[j]) by {
                if i == 0 {
                    assert(r[0] == t[0]);
                    assert(r[j] == ir[j - 1]);
                    if ir[j - 1] != x {
                        let q = choose|q: int| 0 <= q < rest.len() && rest[q] == ir[j - 1];
                        assert(rest[q] == t[q + 1]);
                        assert(report_key_ge(t[0], t[q + 1]));
                    }
                } else {
                    assert(r[i] == ir[i - 1] && r[j] == ir[j - 1]);
                }
            }
        }
    }
}

/// The report lists its threads by cost, then by tokens, then by last use,
/// each from highest down, and lists each thread it was given.
pub proof fn lemma_report_order(s: Seq<AccV>)
    ensures
        in_report_order(spec_sort_threads(s)),
        spec_sort_threads(s).len() == s.len(),
        forall|j: int| 0 <= j < spec_sort_threads(s).len() ==> exists|i: int|
            0 <= i < s.len() && s[i] == #[trigger] spec_sort_threads(s)[j],
    decreases s.len(),
{
    if s.len() > 0 {
        let rest = s.drop_last();
        lemma_report_order(rest);
        lemma_insert_thread_ordered(s.last(), spec_sort_threads(rest));
        lemma_insert_thread_elems(s.last(), spec_sort_threads(rest));
        let r = spec_sort_threads(s);
        let sr = spec_sort_threads(rest);
        assert forall|j: int| 0 <= j < r.len() implies exists|i: int| 0 <= i < s.len() && s[i] == #[trigger] r[j] by {
            if r[j] == s.last() {
                assert(s[s.len() - 1] == r[j]);
            } else {
                let q = choose|q: int| 0 <= q < sr.len() && sr[q] == r[j];
                let i = choose|i: int| 0 <= i < rest.len() && rest[i] == #[trigger] sr[q];
                assert(s[i] == r[j]);
            }
        }
    }
}

pub open spec fn accs_view(v: Seq<ThreadUsageAccumulator>) -> Seq<AccV> {
    v.map_values(|a: ThreadUsageAccumulator| a@)
}

fn is_listed_before(a: &ThreadUsageAccumulator, b: &ThreadUsageAccumulator) -> (res: bool)
    ensures
        res == listed_before(a@, b@),
{
    if a.costs.total_nano_usd != b.costs.total_nano_usd {
        return a.costs.total_nano_usd > b.costs.total_nano_usd;
    }
    if a.usage.total_tokens != b.usage.total_tokens {
        return a.usage.total_tokens > b.usage.total_tokens;
    }
    if a.last_usage_at.unix_nanos != b.last_usage_at.unix_nanos {
        return a.last_usage_at.unix_nanos > b.last_usage_at.unix_nanos;
    }
    path_lt(a.rollout_path.as_str(), b.rollout_path.as_str())
}

proof fn lemma_insert_thread_at(x: AccV, s: Seq<AccV>, k: int)
    requires
        0 <= k <= s.len(),
        forall|j: int| 0 <= j < k ==> !listed_before(x, #[trigger] s[j]),
        k < s.len() ==> listed_before(x, s[k]),
    ensures
        insert_thread(x, s) == s.insert(k, x),
    decreases s.len(),
{
    if s.len() == 0 {
        assert(s.insert(k, x) =~= seq![x]);
    } else if k == 0 {
        assert(s.insert(0, x) =~= seq![x] + s);
    } else {
        assert forall|j: int| 0 <= j < k - 1 implies !listed_before(x, #[trigger] s.drop_first()[j]) by {
            assert(s.drop_first()[j] == s[j + 1]);
        }
        lemma_insert_thread_at(x, s.drop_first(), k - 1);
        assert(seq![s[0]] + s.drop_first().insert(k - 1, x) =~= s.insert(k, x));
    }
}

/// The threads in report order.
pub fn sort_threads(threads: Vec<ThreadUsageAccumulator>) -> (res: Vec<ThreadUsageAccumulator>)
    ensures
        accs_view(res@) == spec_sort_threads(accs_view(threads@)),
{
    let ghost all = threads@;
    let n = threads.len();
    let mut rest = threads;
    let mut sorted: Vec<ThreadUsageAccumulator> = Vec::new();
    let mut i: usize = 0;
    assert(accs_view(sorted@) =~= spec_sort_threads(accs_view(all.subrange(0, 0))));
    while i < n
        invariant
            n == all.len(),
            i <= n,
            rest@ == all.subrange(i as int, n as int),
            accs_view(sorted@) == spec_sort_threads(accs_view(all.subrange(0, i as int))),
        decreases n - i,
    {
        let x = rest.remove(0);
        proof {
            assert(x == all[i as int]);
            assert(rest@ =~= all.subrange(i + 1, n as int));
            assert(accs_view(all.subrange(0, i + 1)).drop_last() =~= accs_view(all.subrange(0, i as int)));
        }
        let m = sorted.len();
        let mut k: usize = 0;
        while k < m && !is_listed_before(&x, &sorted[k])
            invariant
                m == sorted@.len(),
                k <= m,
                forall|j: int| 0 <= j < k ==> !listed_before(x@, #[trigger] accs_view(sorted@)[j]),
            decreases m - k,
        {
            k += 1;
        }
        proof {
            lemma_insert_thread_at(x@, accs_view(sorted@), k as int);
        }
        let ghost before = sorted@;
        sorted.insert(k, x);
        proof {
            assert(accs_view(sorted@) =~= accs_view(before).insert(k as int, x@));
        }
        i += 1;
    }
    assert(all.subrange(0, n as int) =~= all);
    sorted
}

pub open spec fn breakdown_sum(a: BreakdownV, b: BreakdownV) -> BreakdownV {
    BreakdownV {
        total: a.total + b.total,
        input: a.input + b.input,
        cached: a.cached + b.cached,
        uncached: a.uncached + b.uncached,
        output: a.output + b.output,
        reasoning: a.reasoning + b.reasoning,
    }
}

/// The token totals of the threads.
pub open spec fn total_usage(threads: Seq<AccV>) -> BreakdownV
    decreases threads.len(),
{
    if threads.len() == 0 {
        zero_breakdown()
    } else {
        breakdown_sum(total_usage(threads.drop_last()), threads.last().usage)
    }
}

/// The cost totals of the threads.
pub open spec fn total_costs(threads: Seq<AccV>) -> UsageCostBreakdown
    decreases threads.len(),
{
    if threads.len() == 0 {
        UsageCostBreakdown {
            total_nano_usd: 0,
            input_nano_usd: 0,
            cached_input_nano_usd: 0,
            uncached_input_nano_usd: 0,
            output_nano_usd: 0,
            reasoning_output_nano_usd: 0,
        }
    } else {
        spec_cost_sum(total_costs(threads.drop_last()), threads.last().costs)
    }
}

/// Every running token total over the threads fits in an `i64`.
pub open spec fn totals_fit(threads: Seq<AccV>) -> bool
    decreases threads.len(),
{
    threads.len() == 0 || (totals_fit(threads.drop_last()) && breakdown_fits(total_usage(threads)))
}

/// A thread's name in the session index.
#[derive(Clone, Debug, PartialEq, Eq)]
pub struct ThreadName {
    pub thread_id: String,
    pub name: String,
}

/// The name recorded for thread `id`, if any (the first that matches).
pub open spec fn name_of(names: Seq<ThreadName>, id: Option<Seq<char>>) -> Option<Seq<char>>
    decreases names.len(),
{
    match id {
        None => None,
        Some(i) => if names.len() == 0 {
            None
        } else if names[0].thread_id@ == i {
            Some(names[0].name@)
        } else {
            name_of(names.drop_first(), id)
        },
    }
}

fn lookup_name(names: &Vec<ThreadName>, id: &Option<String>) -> (res: Option<String>)
    ensures
        opt_string_view(res) == name_of(names@, opt_string_view(*id)),
{
    let key = match id {
        Some(i) => i,
        None => return None,
    };
    let n = names.len();
    let mut i: usize = 0;
    assert(names@.subrange(0, n as int) =~= names@);
    while i < n
        invariant
            n == names@.len(),
            i <= n,
            opt_string_view(*id) == Some(key@),
            name_of(names@, Some(key@)) == name_of(names@.subrange(i as int, n as int), Some(key@)),
        decreases n - i,
    {
        proof {
            assert(names@.subrange(i as int, n as int).drop_first() =~= names@.subrange(i + 1, n as int));
            assert(names@.subrange(i as int, n as int)[0] == names@[i as int]);
        }
        if str_is(names[i].thread_id.as_str(), key.as_str()) {
            let found = names[i].name.clone();
            assert(name_of(names@.subrange(i as int, n as int), Some(key@)) == Some(found@));
            return Some(found);
        }
        i += 1;
    }
    None
}

/// A usage report.
#[derive(Clone, Debug, PartialEq, Eq)]
pub struct UsageReport {
    pub since: String,
    pub until: String,
    pub generated_at: String,
    pub totals: UsageBreakdown,
    pub costs: UsageCostBreakdown,
    pub threads: Vec<ThreadUsageReport>,
    pub scanned_files: usize,
    pub matched_files: usize,
    pub parse_errors: usize,
    pub warnings: Vec<String>,
}

/// The report lines of the threads in report order, each under its name.
pub open spec fn thread_reports(sorted: Seq<AccV>, names: Seq<ThreadName>) -> Seq<ThreadReportV> {
    Seq::new(
        sorted.len(),
        |i: int| spec_thread_report(sorted[i], name_of(names, sorted[i].metadata.thread_id)),
    )
}

/// Puts a usage report together: the threads in report order with their
/// names, and the totals over them.
pub fn build_usage_report(
    period: UsageReportPeriod,
    generated_at: Timestamp,
    threads: Vec<ThreadUsageAccumulator>,
    names: &Vec<ThreadName>,
    scanned_files: usize,
    matched_files: usize,
    parse_errors: usize,
    warnings: Vec<String>,
) -> (res: UsageReport)
    requires
        totals_fit(spec_sort_threads(accs_view(threads@))),
    ensures
        res.since@ == spec_format_time(period.since),
        res.until@ == spec_format_time(period.until),
        res.generated_at@ == spec_format_time(generated_at),
        res.totals@ == total_usage(spec_sort_threads(accs_view(threads@))),
        res.costs == total_costs(spec_sort_threads(accs_view(threads@))),
        res.threads@.map_values(|r: ThreadUsageReport| r@) == thread_reports(
            spec_sort_threads(accs_view(threads@)),
            names@,
        ),
        res.scanned_files == scanned_files,
        res.matched_files == matched_files,
        res.parse_errors == parse_errors,
        res.warnings@ == warnings@,
{
    let sorted = sort_threads(threads);
    let ghost sv = accs_view(sorted@);
    let mut totals = UsageBreakdown {
        total_tokens: 0,
        input_tokens: 0,
        cached_input_tokens: 0,
        uncached_input_tokens: 0,
        output_tokens: 0,
        reasoning_output_tokens: 0,
    };
    let mut costs = UsageCostBreakdown {
        total_nano_usd: 0,
        input_nano_usd: 0,
        cached_input_nano_usd: 0,
        uncached_input_nano_usd: 0,
        output_nano_usd: 0,
        reasoning_output_nano_usd: 0,
    };
    let n = sorted.len();
    let mut i: usize = 0;
    assert(sv.subrange(0, 0) =~= Seq::<AccV>::empty());
    while i < n
        invariant
            n == sorted@.len(),
            sv == accs_view(sorted@),
            i <= n,
            totals_fit(sv),
            totals@ == total_usage(sv.subrange(0, i as int)),
            costs == total_costs(sv.subrange(0, i as int)),
        decreases n - i,
    {
        proof {
            let next = sv.subrange(0, i + 1);
            assert(next.drop_last() =~= sv.subrange(0, i as int));
            assert(next.last() == sorted@[i as int]@);
            lemma_totals_fit_prefix(sv, (i + 1) as nat);
        }
        let u = sorted[i].usage;
        totals.total_tokens = totals.total_tokens + u.total_tokens;
        totals.input_tokens = totals.input_tokens + u.input_tokens;
        totals.cached_input_tokens = totals.cached_input_tokens + u.cached_input_tokens;
        totals.uncached_input_tokens = totals.uncached_input_tokens + u.uncached_input_tokens;
        totals.output_tokens = totals.output_tokens + u.output_tokens;
        totals.reasoning_output_tokens = totals.reasoning_output_tokens + u.reasoning_output_tokens;
        costs.add_assign(&sorted[i].costs);
        i += 1;
    }
    assert(sv.subrange(0, n as int) =~= sv);
    let mut reports: Vec<ThreadUsageReport> = Vec::new();
    let mut rest = sorted;
    let mut k: usize = 0;
    while k < n
        invariant
            n == sv.len(),
            k <= n,
            rest@.len() == n - k,
            forall|j: int| 0 <= j < rest@.len() ==> #[trigger] rest@[j]@ == sv[k + j],
            reports@.map_values(|r: ThreadUsageReport| r@) == thread_reports(sv, names@).subrange(0, k as int),
        decreases n - k,
    {
        let ghost before = rest@;
        let acc = rest.remove(0);
        assert(acc@ == sv[k as int]) by {
            assert(acc == before[0]);
            assert(before[0]@ == sv[k + 0]);
        }
        assert forall|j: int| 0 <= j < rest@.len() implies #[trigger] rest@[j]@ == sv[(k + 1) + j] by {
            assert(rest@[j] == before[j + 1]);
            assert(before[j + 1]@ == sv[k + (j + 1)]);
        }
        let name = lookup_name(names, &acc.metadata.thread_id);
        let ghost meta_id = acc.metadata@.thread_id;
        let r = acc.finish(name);
        let ghost prev = reports@;
        reports.push(r);
        proof {
            assert(thread_reports(sv, names@)[k as int] == r@);
            assert(reports@.map_values(|r: ThreadUsageReport| r@) =~= prev.map_values(
                |r: ThreadUsageReport| r@,
            ).push(r@));
            assert(reports@.map_values(|r: ThreadUsageReport| r@) =~= thread_reports(sv, names@).subrange(0, k + 1));
        }
        k += 1;
    }
    assert(thread_reports(sv, names@).subrange(0, n as int) =~= thread_reports(sv, names@));
    UsageReport {
        since: format_time(period.since),
        until: format_time(period.until),
        generated_at: format_time(generated_at),
        totals,
        costs,
        threads: reports,
        scanned_files,
        matched_files,
        parse_errors,
        warnings,
    }
}

proof fn lemma_totals_fit_prefix(s: Seq<AccV>, k: nat)
    requires
        totals_fit(s),
        k <= s.len(),
    ensures
        totals_fit(s.subrange(0, k as int)),
        breakdown_fits(total_usage(s.subrange(0, k as int))) || k == 0,
    decreases s.len() - k,
{
    if k < s.len() {
        assert(s.drop_last().subrange(0, k as int) =~= s.subrange(0, k as int));
        lemma_totals_fit_prefix(s.drop_last(), k);
    } else {
        assert(s.subrange(0, k as int) =~= s);
    }
}


/// The thread's first and last counted usage lie in `[since, until)`, in order.
pub open spec fn acc_in_window(acc: Option<AccV>, since: int, until: int) -> bool {
    acc matches Some(a) ==> since <= a.first_usage_at.unix_nanos <= a.last_usage_at.unix_nanos < until
}

proof fn lemma_scan_window(
    start: ScanV,
    lines: Seq<UsageLine>,
    k: nat,
    prefix_end: nat,
    since: int,
    until: int,
    path: Seq<char>,
)
    requires
        start.acc is None,
    ensures
        acc_in_window(scan(start, lines, k, prefix_end, since, until, path).acc, since, until),
    decreases k,
{
    if k > 0 {
        lemma_scan_window(start, lines, (k - 1) as nat, prefix_end, since, until, path);
    }
}

/// Usage is only counted inside the report window: a thread's first and
/// last counted usage fall in `[since, until)`, the first no later than the last.
pub proof fn lemma_usage_within_window(
    path: Seq<char>,
    lines: Seq<UsageLine>,
    parent: ForkParent,
    since: int,
    until: int,
    missing: Seq<Seq<char>>,
    warnings: Seq<Seq<char>>,
)
    ensures
        spec_rollout_scan(path, lines, parent, since, until, missing, warnings) matches Some(s)
            ==> acc_in_window(s.acc, since, until),
{
    if let Some((meta, end, warning)) = rollout_start(path, lines, parent) {
        let start = ScanV {
            active: meta,
            previous: None,
            acc: None,
            missing,
            warnings: match warning {
                Some(w) => warnings.push(w),
                None => warnings,
            },
            ok: true,
        };
        lemma_scan_window(start, lines, lines.len(), end, since, until, path);
    }
}

/// How many of the first `k` lines are token counts that are counted: past
/// the copied prefix and inside the window.
pub open spec fn counted_lines(lines: Seq<UsageLine>, k: nat, prefix_end: nat, since: int, until: int) -> nat
    decreases k,
{
    if k == 0 {
        0
    } else {
        counted_lines(lines, (k - 1) as nat, prefix_end, since, until) + if lines[k - 1].entry matches RolloutEntry::TokenCount(
            Some(_),
        ) && counted(k - 1, lines[k - 1].timestamp, prefix_end, since, until) {
            1nat
        } else {
            0nat
        }
    }
}

proof fn lemma_scan_counted_events(
    start: ScanV,
    lines: Seq<UsageLine>,
    k: nat,
    prefix_end: nat,
    since: int,
    until: int,
    path: Seq<char>,
)
    requires
        start.acc is None,
    ensures
        match scan(start, lines, k, prefix_end, since, until, path).acc {
            Some(a) => 1 <= a.usage_events <= counted_lines(lines, k, prefix_end, since, until)
                && a.usage.total > 0,
            None => true,
        },
        counted_lines(lines, k, prefix_end, since, until) == 0 ==> scan(
            start,
            lines,
            k,
            prefix_end,
            since,
            until,
            path,
        ).acc is None,
    decreases k,
{
    if k > 0 {
        lemma_scan_counted_events(start, lines, (k - 1) as nat, prefix_end, since, until, path);
    }
}

/// Lines a fork copied from its parent, and lines outside the window, add no
/// usage: every usage event of a thread is a token count past the copied
/// prefix inside `[since, until)`, so a rollout without such a line reports
/// no usage at all; a thread that is reported has at least one usage event
/// and a positive token total.
pub proof fn lemma_usage_only_from_counted_lines(
    path: Seq<char>,
    lines: Seq<UsageLine>,
    parent: ForkParent,
    since: int,
    until: int,
    missing: Seq<Seq<char>>,
    warnings: Seq<Seq<char>>,
)
    ensures
        spec_rollout_scan(path, lines, parent, since, until, missing, warnings) matches Some(s)
            ==> rollout_start(path, lines, parent) matches Some((_, end, _)) && (match s.acc {
            Some(a) => 1 <= a.usage_events <= counted_lines(lines, lines.len(), end, since, until)
                && a.usage.total > 0,
            None => true,
        }) && (counted_lines(lines, lines.len(), end, since, until) == 0 ==> s.acc is None),
{
    if let Some((meta, end, warning)) = rollout_start(path, lines, parent) {
        let start = ScanV {
            active: meta,
            previous: None,
            acc: None,
            missing,
            warnings: match warning {
                Some(w) => warnings.push(w),
                None => warnings,
            },
            ok: true,
        };
        lemma_scan_counted_events(start, lines, lines.len(), end, since, until, path);
    }
}

proof fn lemma_scan_missing(
    start: ScanV,
    lines: Seq<UsageLine>,
    k: nat,
    prefix_end: nat,
    since: int,
    until: int,
    path: Seq<char>,
)
    requires
        start.missing.no_duplicates(),
    ensures
        scan(start, lines, k, prefix_end, since, until, path).missing.no_duplicates(),
        scan(start, lines, k, prefix_end, since, until, path).warnings.len() - start.warnings.len()
            == scan(start, lines, k, prefix_end, since, until, path).missing.len()
            - start.missing.len(),
    decreases k,
{
    if k > 0 {
        lemma_scan_missing(start, lines, (k - 1) as nat, prefix_end, since, until, path);
    }
}

/// Each model without a price is reported once: the list of unpriced
/// models stays free of repeats, and one warning is added per model added.
pub proof fn lemma_missing_pricing_reported_once(
    path: Seq<char>,
    lines: Seq<UsageLine>,
    parent: ForkParent,
    since: int,
    until: int,
    missing: Seq<Seq<char>>,
    warnings: Seq<Seq<char>>,
)
    requires
        missing.no_duplicates(),
    ensures
        spec_rollout_scan(path, lines, parent, since, until, missing, warnings) matches Some(s) ==> {
            &&& s.missing.no_duplicates()
            &&& s.missing.len() >= missing.len()
            &&& s.warnings.len() - warnings.len() - (if spec_copied_prefix_end(path, lines, parent).1
                is Some && metadata_from(lines, 0)->Some_0.forked_from_id is Some {
                1int
            } else {
                0int
            }) == s.missing.len() - missing.len()
        },
{
    if let Some((meta, end, warning)) = rollout_start(path, lines, parent) {
        let w0 = match warning {
            Some(w) => warnings.push(w),
            None => warnings,
        };
        let start = ScanV { active: meta, previous: None, acc: None, missing, warnings: w0, ok: true };
        lemma_scan_missing(start, lines, lines.len(), end, since, until, path);
        lemma_scan_missing_grows(start, lines, lines.len(), end, since, until, path);
    }
}

proof fn lemma_scan_missing_grows(
    start: ScanV,
    lines: Seq<UsageLine>,
    k: nat,
    prefix_end: nat,
    since: int,
    until: int,
    path: Seq<char>,
)
    ensures
        scan(start, lines, k, prefix_end, since, until, path).missing.len() >= start.missing.len(),
    decreases k,
{
    if k > 0 {
        lemma_scan_missing_grows(start, lines, (k - 1) as nat, prefix_end, since, until, path);
    }
}

} // verus!
